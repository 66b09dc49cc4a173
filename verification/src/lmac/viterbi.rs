//! Viterbi decoder for binary convolutional codes of rate 1/N and constraint length 5.
use vstd::prelude::*;
use vstd::arithmetic::power2::pow2;
use crate::lmac::convenc::{conv_out, conv_tap, past_bit};

verus! {

/// Received bit: "0" as -1, "1" as +1, a punctured bit as 0. Soft decisions use larger
/// magnitudes for more likely values.
pub type SoftBit = i8;

/// Accumulated path metric.
type Metric = i16;

/// Decisions of one trellis step, one bit per state.
type DecisionBitmap = u16;

/// Constraint length of the code.
pub const K: usize = 5;

/// Number of encoder states, `num_states(K)`.
pub const NUM_STATES: usize = 16;

/// Number of states for constraint length `k`: `2^(k-1)`.
pub fn num_states(k: usize) -> (r: usize)
    requires
        1 <= k,
        k - 1 < usize::BITS,
    ensures
        r == pow2((k - 1) as nat),
{
    proof {
        vstd::bits::lemma_usize_pow2_no_overflow((k - 1) as nat);
        vstd::bits::lemma_usize_shl_is_mul(1, (k - 1) as usize);
    }
    1usize << (k - 1)
}

/// Viterbi decoder for a binary convolutional code of rate 1/N.
pub struct ViterbiDecoder<const N: usize> {
    /// Expected encoder outputs for each state for encoder input "0".
    expected_0: [[SoftBit; NUM_STATES]; N],
}

/// Output of a generator polynomial `poly` (taps over the four past input bits) for
/// encoder state `state` (bit `3 - i` of the state is the input `i + 1` steps back), over
/// the first `upto` taps.
pub open spec fn poly_parity(poly: Seq<bool>, state: usize, upto: nat) -> bool
    decreases upto,
{
    if upto == 0 {
        false
    } else {
        let b = (upto - 1) as usize;
        poly_parity(poly, state, (upto - 1) as nat) != ((state & (1usize << ((3 - b) as usize))) != 0 && poly[b as int])
    }
}

/// Magnitude of a number.
pub open spec fn abs_i(x: int) -> int {
    if x < 0 {
        -x
    } else {
        x
    }
}

/// Sum of the magnitudes of soft bits.
pub open spec fn abs_sum(s: Seq<SoftBit>) -> int
    decreases s.len(),
{
    if s.len() == 0 {
        0
    } else {
        abs_sum(s.drop_last()) + abs_i(s.last() as int)
    }
}

/// Candidate metric of state `s` through its predecessor with low bit `b`: the
/// predecessor's metric plus the branch metric, negated for `b = 1`.
pub open spec fn acs_candidate(prev: Seq<int>, bm: int, s: int, b: int) -> int {
    if b == 0 {
        prev[(s * 2) % 16] + bm
    } else {
        prev[(s * 2) % 16 + 1] - bm
    }
}

/// Whether the add-compare-select step for state `s` takes the predecessor with low bit 1
/// (only when its candidate is strictly smaller).
pub open spec fn acs_picks1(prev: Seq<int>, bm: int, s: int) -> bool {
    acs_candidate(prev, bm, s, 1) < acs_candidate(prev, bm, s, 0)
}

/// New metric of state `s`: the smaller candidate (the first on ties).
pub open spec fn acs_metric(prev: Seq<int>, bm: int, s: int) -> int {
    if acs_picks1(prev, bm, s) {
        acs_candidate(prev, bm, s, 1)
    } else {
        acs_candidate(prev, bm, s, 0)
    }
}

/// Metrics before the first step: 0 for the start state 0, half the metric range for the others.
pub open spec fn initial_metrics() -> Seq<int> {
    Seq::new(16, |s: int| if s == 0 { 0 } else { 16383 })
}

proof fn lemma_shift_bits(x: u16, s: usize, y: usize, k: usize)
    by (bit_vector)
    ensures
        (x >> s) & 1u16 <= 1,
        (y >> 3usize) & 1usize <= 1,
        s < 16 ==> (((x | (1u16 << s)) >> s) & 1u16) == 1,
        s < 16 ==> (0u16 >> s) & 1u16 == 0,
        s < 16 && k < 16 && s != k ==> (((x | (1u16 << k)) >> s) & 1u16) == (x >> s) & 1u16,
{
}


proof fn lemma_abs_sum_take_step(r: Seq<SoftBit>, m: int)
    requires
        0 <= m < r.len(),
    ensures
        abs_sum(r.take(m + 1)) == abs_sum(r.take(m)) + abs_i(r[m] as int),
{
    assert(r.take(m + 1).drop_last() =~= r.take(m));
}

proof fn lemma_abs_sum_mono(r: Seq<SoftBit>, a: int, b: int)
    requires
        0 <= a <= b <= r.len(),
    ensures
        0 <= abs_sum(r.take(a)) <= abs_sum(r.take(b)),
        abs_sum(r.take(r.len() as int)) == abs_sum(r),
    decreases b - a,
{
    assert(r.take(r.len() as int) =~= r);
    if a < b {
        lemma_abs_sum_mono(r, a, b - 1);
        lemma_abs_sum_take_step(r, b - 1);
    } else {
        lemma_abs_sum_nonneg(r.take(a));
    }
}

proof fn lemma_abs_sum_nonneg(r: Seq<SoftBit>)
    ensures
        abs_sum(r) >= 0,
    decreases r.len(),
{
    if r.len() > 0 {
        lemma_abs_sum_nonneg(r.drop_last());
    }
}

/// Steps of `n` soft bits each fit in `len` bits: step `t` of `len / n` ends by `len`.
proof fn lemma_step_in_range(t: int, n: int, len: int)
    requires
        n > 0,
        0 <= t < len / n,
        len >= 0,
    ensures
        t * n + n <= len,
        (t + 1) * n == t * n + n,
        t * n >= 0,
{
    vstd::arithmetic::div_mod::lemma_fundamental_div_mod(len, n);
    vstd::arithmetic::div_mod::lemma_mod_bound(len, n);
    let q = len / n;
    assert(t * n + n <= len) by (nonlinear_arith)
        requires
            t < q,
            len == n * q + len % n,
            len % n >= 0,
            n > 0,
    ;
    assert((t + 1) * n == t * n + n) by (nonlinear_arith);
    assert(t * n >= 0) by (nonlinear_arith)
        requires
            t >= 0,
            n > 0,
    ;
}

impl<const N: usize> ViterbiDecoder<N> {
    /// Expected output `n` for state `s` with encoder input "0", as +1 or -1.
    pub closed spec fn expected(&self, n: int, s: int) -> SoftBit {
        self.expected_0@[n]@[s]
    }

    /// Every expected output is +1 or -1.
    #[verifier::type_invariant]
    closed spec fn expected_is_sign(&self) -> bool {
        forall|n: int, s: int|
            0 <= n < N && 0 <= s < NUM_STATES ==> #[trigger] self.expected_0@[n]@[s] == 1 || self.expected_0@[n]@[s] == -1
    }

    /// Branch metric of step `t` for encoder input "0" into state `s`, over the first `n`
    /// outputs: minus the correlation of the received bits with the expected ones.
    pub open spec fn branch_metric(&self, r: Seq<SoftBit>, t: int, s: int, n: nat) -> int
        decreases n,
    {
        if n == 0 {
            0
        } else {
            self.branch_metric(r, t, s, (n - 1) as nat) - r[t * N + n - 1] * self.expected(n - 1, s)
        }
    }

    /// Path metrics of all states after `t` trellis steps.
    pub open spec fn metrics(&self, r: Seq<SoftBit>, t: nat) -> Seq<int>
        decreases t,
    {
        if t == 0 {
            initial_metrics()
        } else {
            let prev = self.metrics(r, (t - 1) as nat);
            Seq::new(16, |s: int| acs_metric(prev, self.branch_metric(r, t - 1, s, N as nat), s))
        }
    }

    /// Decisions of trellis step `t` for the first `n` states: bit `s` is set when state
    /// `s` takes its predecessor with low bit 1.
    pub open spec fn decisions(&self, r: Seq<SoftBit>, t: nat, n: nat) -> u16
        decreases n,
    {
        if n == 0 {
            0
        } else {
            let b = self.decisions(r, t, (n - 1) as nat);
            if acs_picks1(self.metrics(r, t), self.branch_metric(r, t as int, n - 1, N as nat), n - 1) {
                b | (1u16 << ((n - 1) as usize))
            } else {
                b
            }
        }
    }

    /// State on the best path ending in state 0 after step `steps`, `k` steps back from the end.
    pub open spec fn traceback(&self, r: Seq<SoftBit>, steps: nat, k: nat) -> usize
        decreases k,
    {
        if k == 0 {
            0
        } else {
            let s = self.traceback(r, steps, (k - 1) as nat);
            ((s * 2) % 16 + ((self.decisions(r, (steps - k) as nat, 16) >> s) & 1u16) as usize) as usize
        }
    }

    /// Decoded bit `t` of `steps` steps: the newest input bit of the state after step `t` on the best path.
    pub open spec fn decoded_bit(&self, r: Seq<SoftBit>, steps: nat, t: int) -> u8 {
        ((self.traceback(r, steps, (steps - 1 - t) as nat) >> 3usize) & 1usize) as u8
    }

    /// The branch metric of step `t` for state `s` over the first `n` received bits fits in
    /// 16 bits.
    pub open spec fn branch_fits(&self, r: Seq<SoftBit>, t: int, s: int, n: nat) -> bool {
        -0x8000 <= self.branch_metric(r, t, s, n) <= 0x7fff
    }

    /// Both add-compare-select candidates of state `s` at step `t` fit in 16 bits.
    pub open spec fn step_fits(&self, r: Seq<SoftBit>, t: int, s: int) -> bool {
        let prev = self.metrics(r, t as nat);
        let bm = self.branch_metric(r, t, s, N as nat);
        &&& -0x8000 <= prev[(s * 2) % 16] + bm <= 0x7fff
        &&& -0x8000 <= prev[(s * 2) % 16 + 1] - bm <= 0x7fff
    }

    /// No value the decoder computes on `r` leaves the 16-bit range of its metrics: at
    /// each step, the branch metric of every state over every number of received bits, and
    /// both add-compare-select candidates of every state.
    pub open spec fn metrics_fit(&self, r: Seq<SoftBit>) -> bool {
        &&& forall|t: int, s: int, n: nat|
            0 <= t < r.len() / (N as nat) && 0 <= s < 16 && n <= N ==> #[trigger] self.branch_fits(r, t, s, n)
        &&& forall|t: int, s: int| 0 <= t < r.len() / (N as nat) && 0 <= s < 16 ==> #[trigger] self.step_fits(r, t, s)
    }

    proof fn lemma_branch_bound(&self, r: Seq<SoftBit>, t: int, s: int, n: nat)
        requires
            self.expected_is_sign(),
            0 <= s < NUM_STATES,
            n <= N,
            t >= 0,
            t * N >= 0,
            t * N + n <= r.len(),
        ensures
            abs_i(self.branch_metric(r, t, s, n)) <= abs_sum(r.take(t * N + n)) - abs_sum(r.take(t * N)),
        decreases n,
    {
        if n > 0 {
            self.lemma_branch_bound(r, t, s, (n - 1) as nat);
            lemma_abs_sum_take_step(r, t * N + n - 1);
            assert(self.expected(n - 1, s) == 1 || self.expected(n - 1, s) == -1);
        }
    }

    proof fn lemma_metrics_bound(&self, r: Seq<SoftBit>, t: nat)
        requires
            self.expected_is_sign(),
            N > 0,
            t * N <= r.len(),
        ensures
            self.metrics(r, t).len() == 16,
            forall|s: int|
                0 <= s < 16 ==> -abs_sum(r.take(t * N)) <= #[trigger] self.metrics(r, t)[s] <= 16383 + abs_sum(
                    r.take(t * N),
                ),
        decreases t,
    {
        if t == 0 {
            assert(t * N == 0) by (nonlinear_arith)
                requires
                    t == 0,
            ;
            assert(r.take(0) =~= Seq::<SoftBit>::empty());
        } else {
            let tp = (t - 1) as nat;
            assert(tp * N + N == t * N) by (nonlinear_arith)
                requires
                    tp == t - 1,
            ;
            assert(tp * N >= 0) by (nonlinear_arith);
            self.lemma_metrics_bound(r, tp);
            lemma_abs_sum_mono(r, (tp * N) as int, (t * N) as int);
            assert forall|s: int| 0 <= s < 16 implies -abs_sum(r.take(t * N)) <= #[trigger] self.metrics(r, t)[s] <= 16383
                + abs_sum(r.take(t * N)) by {
                self.lemma_branch_bound(r, tp as int, s, N as nat);
                let prev = self.metrics(r, tp);
                assert(0 <= (s * 2) % 16 < 15);
            }
        }
    }

    /// Soft bits whose magnitudes add up to at most 16384 keep every metric in 16 bits.
    proof fn lemma_small_input_fits(&self, r: Seq<SoftBit>)
        requires
            self.expected_is_sign(),
            N > 0,
            abs_sum(r) <= 16384,
        ensures
            self.metrics_fit(r),
    {
        assert forall|t: int, s: int, n: nat|
            0 <= t < r.len() / (N as nat) && 0 <= s < 16 && n <= N implies #[trigger] self.branch_fits(r, t, s, n) by {
            lemma_step_in_range(t, N as int, r.len() as int);
            self.lemma_branch_bound(r, t, s, n);
            lemma_abs_sum_mono(r, t * N, t * N + n);
            lemma_abs_sum_mono(r, t * N + n, r.len() as int);
            lemma_abs_sum_mono(r, 0, t * N);
        }
        assert forall|t: int, s: int| 0 <= t < r.len() / (N as nat) && 0 <= s < 16 implies #[trigger] self.step_fits(r, t, s) by {
            lemma_step_in_range(t, N as int, r.len() as int);
            assert(t * N <= r.len());
            self.lemma_metrics_bound(r, t as nat);
            self.lemma_branch_bound(r, t, s, N as nat);
            lemma_abs_sum_mono(r, t * N, t * N + N);
            lemma_abs_sum_mono(r, t * N + N, r.len() as int);
            assert(0 <= (s * 2) % 16 < 15);
        }
    }

    /// Decode `received_bits`, one output bit per `N` received bits (a trailing partial group
    /// is ignored): the input bits along the best path that ends in state 0, found by
    /// add-compare-select over the trellis and traceback.
    pub fn decode(&self, received_bits: &[SoftBit]) -> (r: Vec<u8>)
        requires
            N > 0,
            self.metrics_fit(received_bits@),
            forall|i: int| 0 <= i < received_bits@.len() ==> #[trigger] received_bits@[i] > -128,
        ensures
            r@.len() == received_bits@.len() / (N as nat),
            forall|t: int|
                0 <= t < r@.len() ==> #[trigger] r@[t] == self.decoded_bit(received_bits@, r@.len() as nat, t),
    {
        proof {
            use_type_invariant(self);
        }
        let ghost rb = received_bits@;
        let len = received_bits.len();
        let num_output_bits = len / N;
        let mut trellis_decisions: Vec<DecisionBitmap> = Vec::with_capacity(num_output_bits);
        let mut metrics: [Metric; NUM_STATES] = [Metric::MAX / 2; NUM_STATES];
        metrics[0] = 0;
        assert(forall|s: int| 0 <= s < 16 ==> #[trigger] metrics@[s] == initial_metrics()[s]);
        let mut t: usize = 0;
        while t < num_output_bits
            invariant
                self.expected_is_sign(),
                N > 0,
                rb == received_bits@,
                len == rb.len(),
                self.metrics_fit(rb),
                forall|i: int| 0 <= i < rb.len() ==> #[trigger] rb[i] > -128,
                num_output_bits == rb.len() / (N as nat),
                t <= num_output_bits,
                t * N <= rb.len(),
                trellis_decisions@.len() == t,
                forall|j: int| 0 <= j < t ==> #[trigger] trellis_decisions@[j] == self.decisions(rb, j as nat, 16),
                forall|s: int| 0 <= s < 16 ==> #[trigger] metrics@[s] == self.metrics(rb, t as nat)[s],
            decreases num_output_bits - t,
        {
            proof {
                lemma_step_in_range(t as int, N as int, rb.len() as int);
            }
            let base = t * N;
            let mut branch_metrics_0: [Metric; NUM_STATES] = [0; NUM_STATES];
            let mut n: usize = 0;
            while n < N
                invariant
                    self.expected_is_sign(),
                    rb == received_bits@,
                    len == rb.len(),
                    base == t * N,
                    base + N <= rb.len(),
                    self.metrics_fit(rb),
                    t < rb.len() / (N as nat),
                    forall|i: int| 0 <= i < rb.len() ==> #[trigger] rb[i] > -128,
                    n <= N,
                    forall|s: int| 0 <= s < 16 ==> #[trigger] branch_metrics_0@[s] == self.branch_metric(rb, t as int, s, n as nat),
                decreases N - n,
            {
                let received_bit = received_bits[base + n];
                let row = self.expected_0[n];
                let mut state: usize = 0;
                while state < NUM_STATES
                    invariant
                        self.expected_is_sign(),
                        rb == received_bits@,
                        base == t * N,
                        base + N <= rb.len(),
                        self.metrics_fit(rb),
                        t < rb.len() / (N as nat),
                        n < N,
                        received_bit == rb[base + n],
                        received_bit > -128,
                        row@ == self.expected_0@[n as int]@,
                        state <= NUM_STATES,
                        forall|s: int|
                            0 <= s < state ==> #[trigger] branch_metrics_0@[s] == self.branch_metric(rb, t as int, s, (n + 1) as nat),
                        forall|s: int|
                            state <= s < 16 ==> #[trigger] branch_metrics_0@[s] == self.branch_metric(rb, t as int, s, n as nat),
                    decreases NUM_STATES - state,
                {
                    let expected_bit_0 = row[state];
                    proof {
                        assert(self.expected(n as int, state as int) == expected_bit_0);
                        assert(self.branch_fits(rb, t as int, state as int, (n + 1) as nat));
                    }
                    let prod = received_bit * expected_bit_0;
                    branch_metrics_0[state] = branch_metrics_0[state] - prod as Metric;
                    state = state + 1;
                }
                n = n + 1;
            }
            let mut decisions: DecisionBitmap = 0;
            let mut new_metrics: [Metric; NUM_STATES] = [0; NUM_STATES];
            let ghost prev = self.metrics(rb, t as nat);
            let mut state: usize = 0;
            while state < NUM_STATES
                invariant
                    self.expected_is_sign(),
                    N > 0,
                    rb == received_bits@,
                    t * N + N <= rb.len(),
                    prev == self.metrics(rb, t as nat),
                    prev.len() == 16,
                    self.metrics_fit(rb),
                    t < rb.len() / (N as nat),
                    forall|s: int| 0 <= s < 16 ==> #[trigger] metrics@[s] == prev[s],
                    forall|s: int| 0 <= s < 16 ==> #[trigger] branch_metrics_0@[s] == self.branch_metric(rb, t as int, s, N as nat),
                    state <= NUM_STATES,
                    decisions == self.decisions(rb, t as nat, state as nat),
                    forall|s: int|
                        0 <= s < state ==> #[trigger] new_metrics@[s] == acs_metric(prev, self.branch_metric(rb, t as int, s, N as nat), s),
                decreases NUM_STATES - state,
            {
                proof {
                    assert(self.step_fits(rb, t as int, state as int));
                }
                let predecessor_0 = (state * 2) % NUM_STATES;
                let predecessor_1 = predecessor_0 + 1;
                let metric_0 = metrics[predecessor_0] + branch_metrics_0[state];
                let metric_1 = metrics[predecessor_1] - branch_metrics_0[state];
                if metric_1 < metric_0 {
                    decisions = decisions | (1u16 << state);
                    new_metrics[state] = metric_1;
                } else {
                    new_metrics[state] = metric_0;
                }
                state = state + 1;
            }
            proof {
                assert(self.metrics(rb, (t + 1) as nat) =~= Seq::new(
                    16,
                    |s: int| acs_metric(prev, self.branch_metric(rb, t as int, s, N as nat), s),
                ));
            }
            metrics = new_metrics;
            trellis_decisions.push(decisions);
            t = t + 1;
        }
        let mut decoded_bits: Vec<u8> = Vec::with_capacity(num_output_bits);
        let mut k: usize = 0;
        while k < num_output_bits
            invariant
                k <= num_output_bits,
                decoded_bits@.len() == k,
                forall|j: int| 0 <= j < k ==> #[trigger] decoded_bits@[j] == 0,
            decreases num_output_bits - k,
        {
            decoded_bits.push(0);
            k = k + 1;
        }
        let ghost steps = num_output_bits as nat;
        let mut best_state: usize = 0;
        let mut k: usize = 0;
        while k < num_output_bits
            invariant
                steps == num_output_bits,
                trellis_decisions@.len() == num_output_bits,
                forall|j: int| 0 <= j < num_output_bits ==> #[trigger] trellis_decisions@[j] == self.decisions(rb, j as nat, 16),
                k <= num_output_bits,
                decoded_bits@.len() == num_output_bits,
                best_state < 16,
                best_state == self.traceback(rb, steps, k as nat),
                forall|j: int|
                    num_output_bits - k <= j < num_output_bits ==> #[trigger] decoded_bits@[j] == self.decoded_bit(rb, steps, j),
            decreases num_output_bits - k,
        {
            let idx = num_output_bits - 1 - k;
            let decisions = trellis_decisions[idx];
            proof {
                lemma_shift_bits(decisions, best_state, best_state, 0);
            }
            decoded_bits.set(idx, ((best_state >> (K - 2)) & 1) as u8);
            best_state = best_state * 2 % NUM_STATES + ((decisions >> best_state) & 1) as usize;
            k = k + 1;
        }
        decoded_bits
    }

    /// Decoder for the code with generator polynomials `generator_polynomials`: the
    /// expected output `n` for state `s` is +1 when polynomial `n` gives 1 for `s`, else -1.
    pub fn new_with_polynomials(generator_polynomials: &[[bool; K]; N]) -> (r: Self)
        ensures
            forall|n: int, s: int|
                0 <= n < N && 0 <= s < NUM_STATES ==> #[trigger] r.expected(n, s) == (if poly_parity(
                    generator_polynomials@[n]@,
                    s as usize,
                    4,
                ) {
                    1i8
                } else {
                    -1i8
                }),
    {
        let mut expected_0 = [[0i8; NUM_STATES]; N];
        let mut poly_n: usize = 0;
        while poly_n < N
            invariant
                poly_n <= N,
                expected_0@.len() == N,
                forall|n: int, s: int|
                    0 <= n < poly_n && 0 <= s < NUM_STATES ==> #[trigger] expected_0@[n]@[s] == (if poly_parity(
                        generator_polynomials@[n]@,
                        s as usize,
                        4,
                    ) {
                        1i8
                    } else {
                        -1i8
                    }),
            decreases N - poly_n,
        {
            let poly = generator_polynomials[poly_n];
            let mut row = [0i8; NUM_STATES];
            let mut state: usize = 0;
            while state < NUM_STATES
                invariant
                    state <= NUM_STATES,
                    poly@ == generator_polynomials@[poly_n as int]@,
                    row@.len() == NUM_STATES,
                    forall|s: int|
                        0 <= s < state ==> #[trigger] row@[s] == (if poly_parity(poly@, s as usize, 4) {
                            1i8
                        } else {
                            -1i8
                        }),
                decreases NUM_STATES - state,
            {
                let mut encoder_output: bool = false;
                let mut bit_i: usize = 0;
                while bit_i < K - 1
                    invariant
                        bit_i <= K - 1,
                        state < NUM_STATES,
                        encoder_output == poly_parity(poly@, state, bit_i as nat),
                    decreases K - 1 - bit_i,
                {
                    let past_input_bit = (state & (1usize << (K - 2 - bit_i))) != 0;
                    if past_input_bit && poly[bit_i] {
                        encoder_output = !encoder_output;
                    }
                    bit_i = bit_i + 1;
                }
                row[state] = if encoder_output { 1 } else { -1 };
                state = state + 1;
            }
            expected_0[poly_n] = row;
            poly_n = poly_n + 1;
        }
        Self { expected_0 }
    }
}

/// Decoder for the rate 1/4 mother code.
pub type TetraViterbiDecoder = ViterbiDecoder<4>;

impl ViterbiDecoder<4> {
    /// Decoder for the rate 1/4 TETRA mother code.
    pub fn new() -> (r: Self)
        ensures
            forall|n: int, s: int|
                0 <= n < 4 && 0 <= s < NUM_STATES ==> #[trigger] r.expected(n, s) == (if poly_parity(
                    tetra_polynomials()[n],
                    s as usize,
                    4,
                ) {
                    1i8
                } else {
                    -1i8
                }),
    {
        let polys = [
            [true, true, false, false, true],
            [true, false, true, true, true],
            [true, true, true, false, true],
            [true, true, false, true, true],
        ];
        let r = Self::new_with_polynomials(&polys);
        assert(forall|n: int| 0 <= n < 4 ==> #[trigger] polys@[n]@ == tetra_polynomials()[n]);
        r
    }
}

/// Generator polynomials of the rate 1/4 TETRA mother code.
pub open spec fn tetra_polynomials() -> Seq<Seq<bool>> {
    seq![
        seq![true, true, false, false, true],
        seq![true, false, true, true, true],
        seq![true, true, true, false, true],
        seq![true, true, false, true, true],
    ]
}

/// Generator polynomials of the rate 1/3 mother code of the TETRA speech codec.
pub open spec fn codec_polynomials() -> Seq<Seq<bool>> {
    seq![
        seq![true, true, true, true, true],
        seq![true, true, false, true, true],
        seq![true, false, true, false, true],
    ]
}

/// Decoder for the rate 1/3 mother code used by the TETRA speech codec.
pub type TetraCodecViterbiDecoder = ViterbiDecoder<3>;

impl ViterbiDecoder<3> {
    /// Decoder for the rate 1/3 mother code of the TETRA speech codec.
    pub fn new() -> (r: Self)
        ensures
            forall|n: int, s: int|
                0 <= n < 3 && 0 <= s < NUM_STATES ==> #[trigger] r.expected(n, s) == (if poly_parity(
                    codec_polynomials()[n],
                    s as usize,
                    4,
                ) {
                    1i8
                } else {
                    -1i8
                }),
    {
        let polys = [
            [true, true, true, true, true],
            [true, true, false, true, true],
            [true, false, true, false, true],
        ];
        let r = Self::new_with_polynomials(&polys);
        assert(forall|n: int| 0 <= n < 3 ==> #[trigger] polys@[n]@ == codec_polynomials()[n]);
        r
    }
}

/// `d` has the expected outputs of the rate 1/4 TETRA mother code.
pub open spec fn is_tetra_decoder(d: TetraViterbiDecoder) -> bool {
    forall|n: int, s: int|
        0 <= n < 4 && 0 <= s < NUM_STATES ==> #[trigger] d.expected(n, s) == (if poly_parity(
            tetra_polynomials()[n],
            s as usize,
            4,
        ) {
            1i8
        } else {
            -1i8
        })
}

/// Soft bits of hard symbols: 0 as -1, 1 as +1, 0xff (erasure) as 0.
pub open spec fn soft_of(symbols: Seq<u8>, n: nat) -> Seq<SoftBit> {
    Seq::new(n, |i: int| if symbols[i] == 0 { -1i8 } else if symbols[i] == 1 { 1i8 } else { 0i8 })
}

proof fn lemma_abs_sum_unit(r: Seq<SoftBit>)
    requires
        forall|i: int| 0 <= i < r.len() ==> -1 <= #[trigger] r[i] <= 1,
    ensures
        abs_sum(r) <= r.len(),
    decreases r.len(),
{
    if r.len() > 0 {
        lemma_abs_sum_unit(r.drop_last());
    }
}

/// Decode an SB1 block of `sym_count` output bits from `4 * sym_count` hard symbols
/// (0, 1, or 0xff for an erasure) with the rate 1/4 TETRA decoder; the decoded bits go to
/// the start of `out_buf`, the rest of it is left as it was.
pub fn dec_sb1(in_buf: &[u8], out_buf: &mut [u8], sym_count: usize)
    requires
        sym_count <= 864,
        in_buf@.len() >= sym_count * 4,
        old(out_buf)@.len() >= sym_count,
        forall|i: int| 0 <= i < sym_count * 4 ==> #[trigger] in_buf@[i] == 0 || in_buf@[i] == 1 || in_buf@[i] == 0xff,
    ensures
        final(out_buf)@.len() == old(out_buf)@.len(),
        exists|d: TetraViterbiDecoder|
            #[trigger] is_tetra_decoder(d) && forall|i: int|
                0 <= i < sym_count ==> #[trigger] final(out_buf)@[i] == d.decoded_bit(
                    soft_of(in_buf@, (sym_count * 4) as nat),
                    sym_count as nat,
                    i,
                ),
        forall|i: int| sym_count <= i < old(out_buf)@.len() ==> #[trigger] final(out_buf)@[i] == old(out_buf)@[i],
{
    let n = sym_count * 4;
    let ghost soft_spec = soft_of(in_buf@, n as nat);
    let mut soft: Vec<SoftBit> = Vec::with_capacity(n);
    let mut i: usize = 0;
    while i < n
        invariant
            n == sym_count * 4,
            n <= in_buf@.len(),
            soft_spec == soft_of(in_buf@, n as nat),
            i <= n,
            soft@ == soft_spec.take(i as int),
        decreases n - i,
    {
        let b = in_buf[i];
        let v: SoftBit = if b == 0 {
            -1
        } else if b == 1 {
            1
        } else {
            0
        };
        soft.push(v);
        proof {
            assert(soft@ =~= soft_spec.take(i + 1));
        }
        i = i + 1;
    }
    proof {
        assert(soft@ =~= soft_spec);
        lemma_abs_sum_unit(soft@);
    }
    let decoder = TetraViterbiDecoder::new();
    proof {
        use_type_invariant(&decoder);
        decoder.lemma_small_input_fits(soft@);
    }
    let decoded = decoder.decode(&soft);
    let ghost out0 = out_buf@;
    let mut j: usize = 0;
    while j < sym_count
        invariant
            decoded@.len() == sym_count,
            out_buf@.len() == out0.len(),
            out0.len() >= sym_count,
            j <= sym_count,
            forall|q: int| 0 <= q < j ==> #[trigger] out_buf@[q] == decoded@[q],
            forall|q: int| j <= q < out0.len() ==> #[trigger] out_buf@[q] == out0[q],
        decreases sym_count - j,
    {
        out_buf[j] = decoded[j];
        j = j + 1;
    }
    assert(forall|q: int| 0 <= q < sym_count ==> #[trigger] out_buf@[q] == decoder.decoded_bit(soft_spec, sym_count as nat, q));
    assert(is_tetra_decoder(decoder));
}

/// Bit `i` of state `s`, as a 0/1 byte.
pub open spec fn state_bit(s: usize, i: usize) -> u8 {
    ((s >> i) & 1usize) as u8
}

proof fn lemma_xor_bits(a: u8, b: u8, c: u8, d: u8)
    by (bit_vector)
    requires
        a <= 1,
        b <= 1,
        c <= 1,
        d <= 1,
    ensures
        (a ^ b ^ c ^ d) <= 1,
        (a ^ b ^ c ^ d == 1) == ((a == 1) != (b == 1) != (c == 1) != (d == 1)),
        (a ^ b ^ c) <= 1,
        (a ^ b ^ c == 1) == ((a == 1) != (b == 1) != (c == 1)),
{
}

proof fn lemma_state_bits(s: usize)
    by (bit_vector)
    requires
        s < 16,
    ensures
        ((s & (1usize << 3usize)) != 0) == ((((s >> 3usize) & 1usize) as u8) == 1u8),
        ((s & (1usize << 2usize)) != 0) == ((((s >> 2usize) & 1usize) as u8) == 1u8),
        ((s & (1usize << 1usize)) != 0) == ((((s >> 1usize) & 1usize) as u8) == 1u8),
        ((s & (1usize << 0usize)) != 0) == ((((s >> 0usize) & 1usize) as u8) == 1u8),
        (((s >> 3usize) & 1usize) as u8) <= 1,
        (((s >> 2usize) & 1usize) as u8) <= 1,
        (((s >> 1usize) & 1usize) as u8) <= 1,
        (((s >> 0usize) & 1usize) as u8) <= 1,
        s == 8 * ((s >> 3usize) & 1usize) + 4 * ((s >> 2usize) & 1usize) + 2 * ((s >> 1usize) & 1usize) + ((s
            >> 0usize) & 1usize),
{
}

/// A state put together from four bits has those bits.
proof fn lemma_state_compose(s: usize, a: u8, b: u8, c: u8, d: u8)
    by (bit_vector)
    requires
        a <= 1,
        b <= 1,
        c <= 1,
        d <= 1,
        s == 8 * (a as usize) + 4 * (b as usize) + 2 * (c as usize) + (d as usize),
    ensures
        s < 16,
        (((s >> 3usize) & 1usize) as u8) == a,
        (((s >> 2usize) & 1usize) as u8) == b,
        (((s >> 1usize) & 1usize) as u8) == c,
        (((s >> 0usize) & 1usize) as u8) == d,
        (s * 2) % 16 == 8 * (b as usize) + 4 * (c as usize) + 2 * (d as usize),
{
}

/// The predecessors of state `s` are `(2 * s) % 16` and the next state: their bits 1 to 3
/// are bits 0 to 2 of `s`, and bit 0 is the one chosen.
proof fn lemma_pred_bits(s: usize, b: usize, p: usize)
    by (bit_vector)
    requires
        s < 16,
        b <= 1,
        p < 16,
        (s * 2) % 16 + b == p,
    ensures
        b == (p >> 0usize) & 1usize,
        (s >> 2usize) & 1usize == (p >> 3usize) & 1usize,
        (s >> 1usize) & 1usize == (p >> 2usize) & 1usize,
        (s >> 0usize) & 1usize == (p >> 1usize) & 1usize,
{
}

/// The decoder's expected output `c` for new state `s` of the rate 1/4 TETRA code is
/// the encoder tap `c` for that state with the oldest (shifted out) bit 0.
proof fn lemma_tetra_parity(c: int, s: usize)
    requires
        0 <= c < 4,
        s < 16,
    ensures
        poly_parity(tetra_polynomials()[c], s, 4) == (conv_tap(
            state_bit(s, 3),
            state_bit(s, 2),
            state_bit(s, 1),
            state_bit(s, 0),
            0u8,
            c,
        ) == 1),
{
    reveal_with_fuel(poly_parity, 5);
    lemma_state_bits(s);
    let b3 = state_bit(s, 3);
    let b2 = state_bit(s, 2);
    let b1 = state_bit(s, 1);
    let b0 = state_bit(s, 0);
    lemma_xor_bits(b3, b2, 0u8, 0u8);
    lemma_xor_bits(b3, b1, b0, 0u8);
    lemma_xor_bits(b3, b2, b1, 0u8);
    lemma_xor_bits(b3, b2, b0, 0u8);
}

/// +1 for a 1 bit, -1 for a 0 bit.
pub open spec fn bit_sign(x: u8) -> int {
    if x == 1 {
        1
    } else {
        -1
    }
}

/// Output `c` of the branch into new state `s` from the predecessor whose oldest bit is `b`.
pub open spec fn branch_out(s: usize, b: u8, c: int) -> u8 {
    conv_tap(state_bit(s, 3), state_bit(s, 2), state_bit(s, 1), state_bit(s, 0), b, c)
}

/// Minus the correlation of the four received bits of step `t` with the outputs of the
/// branch into `s` from the predecessor whose oldest bit is `b`.
pub open spec fn branch_value(r: Seq<SoftBit>, t: int, s: usize, b: u8) -> int {
    -(r[4 * t] * bit_sign(branch_out(s, b, 0)) + r[4 * t + 1] * bit_sign(branch_out(s, b, 1)) + r[4 * t + 2]
        * bit_sign(branch_out(s, b, 2)) + r[4 * t + 3] * bit_sign(branch_out(s, b, 3)))
}

/// Sum of the magnitudes of the four received bits of step `t`.
pub open spec fn step_abs(r: Seq<SoftBit>, t: int) -> int {
    abs_i(r[4 * t] as int) + abs_i(r[4 * t + 1] as int) + abs_i(r[4 * t + 2] as int) + abs_i(r[4 * t + 3] as int)
}

/// For the rate 1/4 TETRA decoder, the candidate added to the predecessor's metric is the
/// branch value of that branch.
proof fn lemma_candidate_is_branch_value(d: TetraViterbiDecoder, r: Seq<SoftBit>, t: int, s: usize, b: u8)
    requires
        is_tetra_decoder(d),
        s < 16,
        b <= 1,
    ensures
        (if b == 0 { d.branch_metric(r, t, s as int, 4) } else { -d.branch_metric(r, t, s as int, 4) }) == branch_value(
            r,
            t,
            s,
            b,
        ),
{
    let bm = |n: nat| d.branch_metric(r, t, s as int, n);
    assert(bm(1) == bm(0) - r[t * 4 + 0] * d.expected(0, s as int));
    assert(bm(2) == bm(1) - r[t * 4 + 1] * d.expected(1, s as int));
    assert(bm(3) == bm(2) - r[t * 4 + 2] * d.expected(2, s as int));
    assert(bm(4) == bm(3) - r[t * 4 + 3] * d.expected(3, s as int));
    lemma_state_bits(s);
    let b3 = state_bit(s, 3);
    let b2 = state_bit(s, 2);
    let b1 = state_bit(s, 1);
    let b0 = state_bit(s, 0);
    assert forall|c: int| 0 <= c < 4 implies #[trigger] bit_sign(branch_out(s, b, c)) == (if b == 0 {
        d.expected(c, s as int) as int
    } else {
        -d.expected(c, s as int)
    }) by {
        lemma_tetra_parity(c, s);
        lemma_xor_bits(b3, b2, 0u8, 0u8);
        lemma_xor_bits(b3, b1, b0, 0u8);
        lemma_xor_bits(b3, b2, b1, 0u8);
        lemma_xor_bits(b3, b2, b0, 0u8);
        lemma_xor_bits(b3, b2, b, 0u8);
        lemma_xor_bits(b3, b1, b0, b);
        lemma_xor_bits(b3, b2, b1, b);
        lemma_xor_bits(b3, b2, b0, b);
    }
    assert(d.expected(0, s as int) == 1 || d.expected(0, s as int) == -1);
    let e0 = bit_sign(branch_out(s, b, 0));
    let e1 = bit_sign(branch_out(s, b, 1));
    let e2 = bit_sign(branch_out(s, b, 2));
    let e3 = bit_sign(branch_out(s, b, 3));
    assert(t * 4 == 4 * t);
    let r0 = r[4 * t] as int;
    let r1 = r[4 * t + 1] as int;
    let r2 = r[4 * t + 2] as int;
    let r3 = r[4 * t + 3] as int;
    if b == 0 {
        assert(d.branch_metric(r, t, s as int, 4) == -(r0 * e0) - r1 * e1 - r2 * e2 - r3 * e3);
    } else {
        assert(d.branch_metric(r, t, s as int, 4) == -(r0 * -e0) - r1 * -e1 - r2 * -e2 - r3 * -e3);
        assert(-(r0 * -e0) - r1 * -e1 - r2 * -e2 - r3 * -e3 == r0 * e0 + r1 * e1 + r2 * e2 + r3 * e3) by (nonlinear_arith);
    }
}

/// The all-zero encoder state.
pub open spec fn zero_enc_state() -> Seq<u8> {
    seq![0u8, 0u8, 0u8, 0u8]
}

/// Input bit `d + 1` steps before step `t` when encoding `m` from the all-zero state.
pub open spec fn enc_past(m: Seq<u8>, t: int, d: int) -> u8 {
    past_bit(zero_enc_state(), m, t, d)
}

/// The encoder state after `t` steps of encoding `m` from the all-zero state, numbered
/// as the decoder numbers states: the newest input bit in bit 3, the oldest in bit 0.
pub open spec fn enc_state(m: Seq<u8>, t: int) -> usize {
    (8 * enc_past(m, t, 0) + 4 * enc_past(m, t, 1) + 2 * enc_past(m, t, 2) + enc_past(m, t, 3)) as usize
}

/// Every element of `m` is 0 or 1.
pub open spec fn all_bits(m: Seq<u8>) -> bool {
    forall|i: int| 0 <= i < m.len() ==> #[trigger] m[i] <= 1
}

/// Soft bits that agree with the encoding of `m` from the all-zero state: four per input
/// bit, each erased (0) or of the sign of its encoded bit, and not all four of a step erased.
pub open spec fn agrees_with_encoding(r: Seq<SoftBit>, m: Seq<u8>) -> bool {
    &&& r.len() == 4 * m.len()
    &&& forall|t: int, c: int|
        0 <= t < m.len() && 0 <= c < 4 ==> #[trigger] r[4 * t + c] * bit_sign(conv_out(zero_enc_state(), m, t, c)) >= 0
    &&& forall|t: int| 0 <= t < m.len() ==> #[trigger] step_abs(r, t) > 0
}

proof fn lemma_signed(rv: int, x: u8)
    ensures
        rv * bit_sign(x) == (if x == 1 { rv } else { -rv }),
        -abs_i(rv) <= rv * bit_sign(x) <= abs_i(rv),
{
}

proof fn lemma_tap_flip(x: u8, y: u8, d0: u8, d1: u8, d2: u8, d3: u8, c: int)
    requires
        x <= 1,
        y <= 1,
        d0 <= 1,
        d1 <= 1,
        d2 <= 1,
        d3 <= 1,
        0 <= c < 4,
    ensures
        conv_tap(x, d0, d1, d2, d3, c) <= 1,
        x != y ==> conv_tap(x, d0, d1, d2, d3, c) != conv_tap(y, d0, d1, d2, d3, c),
{
    lemma_xor_bits(x, d0, d3, 0u8);
    lemma_xor_bits(y, d0, d3, 0u8);
    lemma_xor_bits(x, d1, d2, d3);
    lemma_xor_bits(y, d1, d2, d3);
    lemma_xor_bits(x, d0, d1, d3);
    lemma_xor_bits(y, d0, d1, d3);
    lemma_xor_bits(x, d0, d2, d3);
    lemma_xor_bits(y, d0, d2, d3);
}

/// The bits of the encoder state after `t` steps.
proof fn lemma_enc_state_bits(m: Seq<u8>, t: int)
    requires
        all_bits(m),
        0 <= t <= m.len(),
    ensures
        enc_past(m, t, 0) <= 1,
        enc_past(m, t, 1) <= 1,
        enc_past(m, t, 2) <= 1,
        enc_past(m, t, 3) <= 1,
        enc_state(m, t) < 16,
        state_bit(enc_state(m, t), 3) == enc_past(m, t, 0),
        state_bit(enc_state(m, t), 2) == enc_past(m, t, 1),
        state_bit(enc_state(m, t), 1) == enc_past(m, t, 2),
        state_bit(enc_state(m, t), 0) == enc_past(m, t, 3),
        t < m.len() ==> enc_past(m, t + 1, 0) == m[t],
        t < m.len() ==> enc_past(m, t + 1, 1) == enc_past(m, t, 0),
        t < m.len() ==> enc_past(m, t + 1, 2) == enc_past(m, t, 1),
        t < m.len() ==> enc_past(m, t + 1, 3) == enc_past(m, t, 2),
        (enc_state(m, t) * 2) % 16 == 8 * enc_past(m, t, 1) + 4 * enc_past(m, t, 2) + 2 * enc_past(m, t, 3),
{
    lemma_state_compose(enc_state(m, t), enc_past(m, t, 0), enc_past(m, t, 1), enc_past(m, t, 2), enc_past(m, t, 3));
}

/// A branch out of the encoder's own state after `t` steps: the one the encoder took
/// correlates fully with the received bits, the other one fully against them.
proof fn lemma_branch_from_true(m: Seq<u8>, r: Seq<SoftBit>, t: int, s: usize, b: u8)
    requires
        all_bits(m),
        agrees_with_encoding(r, m),
        0 <= t < m.len(),
        s < 16,
        b <= 1,
        (s * 2) % 16 + (b as usize) == enc_state(m, t),
    ensures
        branch_value(r, t, s, b) == (if s == enc_state(m, t + 1) { -step_abs(r, t) } else { step_abs(r, t) }),
{
    let p = enc_state(m, t);
    let q = enc_state(m, t + 1);
    lemma_enc_state_bits(m, t);
    lemma_enc_state_bits(m, t + 1);
    lemma_pred_bits(s, b as usize, p);
    lemma_state_bits(s);
    lemma_state_bits(q);
    let x = state_bit(s, 3);
    assert(x == m[t] <==> s == q);
    let pb0 = enc_past(m, t, 0);
    let pb1 = enc_past(m, t, 1);
    let pb2 = enc_past(m, t, 2);
    let pb3 = enc_past(m, t, 3);
    assert forall|c: int| 0 <= c < 4 implies #[trigger] (r[4 * t + c] * bit_sign(branch_out(s, b, c))) == (if s == q {
        abs_i(r[4 * t + c] as int)
    } else {
        -abs_i(r[4 * t + c] as int)
    }) by {
        assert(branch_out(s, b, c) == conv_tap(x, pb0, pb1, pb2, pb3, c));
        assert(conv_out(zero_enc_state(), m, t, c) == conv_tap(m[t], pb0, pb1, pb2, pb3, c));
        assert(r[4 * t + c] * bit_sign(conv_out(zero_enc_state(), m, t, c)) >= 0);
        lemma_tap_flip(x, m[t], pb0, pb1, pb2, pb3, c);
        lemma_tap_flip(m[t], x, pb0, pb1, pb2, pb3, c);
        lemma_signed(r[4 * t + c] as int, branch_out(s, b, c));
        lemma_signed(r[4 * t + c] as int, conv_out(zero_enc_state(), m, t, c));
    }
    assert(r[4 * t + 0] * bit_sign(branch_out(s, b, 0)) == r[4 * t] * bit_sign(branch_out(s, b, 0)));
}

/// A branch never correlates better than the magnitudes of the received bits allow.
proof fn lemma_branch_value_bound(r: Seq<SoftBit>, t: int, s: usize, b: u8)
    ensures
        branch_value(r, t, s, b) >= -step_abs(r, t),
{
    lemma_signed(r[4 * t] as int, branch_out(s, b, 0));
    lemma_signed(r[4 * t + 1] as int, branch_out(s, b, 1));
    lemma_signed(r[4 * t + 2] as int, branch_out(s, b, 2));
    lemma_signed(r[4 * t + 3] as int, branch_out(s, b, 3));
}

proof fn lemma_step_abs(r: Seq<SoftBit>, t: int)
    requires
        0 <= t,
        4 * t + 4 <= r.len(),
    ensures
        abs_sum(r.take(4 * t + 4)) == abs_sum(r.take(4 * t)) + step_abs(r, t),
{
    lemma_abs_sum_take_step(r, 4 * t);
    lemma_abs_sum_take_step(r, 4 * t + 1);
    lemma_abs_sum_take_step(r, 4 * t + 2);
    lemma_abs_sum_take_step(r, 4 * t + 3);
}

/// The two candidates of state `s` at step `u`, when the encoder's own state is the only
/// one with the best metric before the step: each is at least the best metric after the
/// step, and reaches it only along the branch the encoder took.
proof fn lemma_candidates(d: TetraViterbiDecoder, m: Seq<u8>, r: Seq<SoftBit>, u: nat, s: int)
    requires
        is_tetra_decoder(d),
        all_bits(m),
        agrees_with_encoding(r, m),
        u < m.len(),
        0 <= s < 16,
        forall|x: int|
            0 <= x < 16 ==> #[trigger] d.metrics(r, u)[x] >= -abs_sum(r.take(4 * (u as int))) && (d.metrics(r, u)[x] == -abs_sum(
                r.take(4 * (u as int)),
            ) <==> x == enc_state(m, u as int)),
    ensures
        acs_candidate(d.metrics(r, u), d.branch_metric(r, u as int, s, 4), s, 0) >= -abs_sum(r.take(4 * (u as int) + 4)),
        acs_candidate(d.metrics(r, u), d.branch_metric(r, u as int, s, 4), s, 1) >= -abs_sum(r.take(4 * (u as int) + 4)),
        (acs_candidate(d.metrics(r, u), d.branch_metric(r, u as int, s, 4), s, 0) == -abs_sum(r.take(4 * (u as int) + 4))) == (
        s == enc_state(m, u as int + 1) && enc_past(m, u as int, 3) == 0),
        (acs_candidate(d.metrics(r, u), d.branch_metric(r, u as int, s, 4), s, 1) == -abs_sum(r.take(4 * (u as int) + 4))) == (
        s == enc_state(m, u as int + 1) && enc_past(m, u as int, 3) == 1),
{
    let prev = d.metrics(r, u);
    let sa = step_abs(r, u as int);
    let su = s as usize;
    let p = enc_state(m, u as int);
    let q = enc_state(m, u as int + 1);
    lemma_step_abs(r, u as int);
    assert(sa > 0);
    lemma_enc_state_bits(m, u as int);
    lemma_enc_state_bits(m, u as int + 1);
    assert((q * 2) % 16 + enc_past(m, u as int, 3) == p);
    lemma_candidate_is_branch_value(d, r, u as int, su, 0u8);
    lemma_candidate_is_branch_value(d, r, u as int, su, 1u8);
    lemma_branch_value_bound(r, u as int, su, 0u8);
    lemma_branch_value_bound(r, u as int, su, 1u8);
    let i0 = (s * 2) % 16;
    assert(0 <= i0 < 15);
    assert(prev[i0] >= -abs_sum(r.take(4 * (u as int))));
    assert(prev[i0 + 1] >= -abs_sum(r.take(4 * (u as int))));
    if i0 == p {
        lemma_branch_from_true(m, r, u as int, su, 0u8);
    }
    if i0 + 1 == p {
        lemma_branch_from_true(m, r, u as int, su, 1u8);
    }
    if s == q {
        lemma_state_compose(q, m[u as int], enc_past(m, u as int, 0), enc_past(m, u as int, 1), enc_past(m, u as int, 2));
    }
}

/// While the received bits agree with the encoding of `m`, the encoder's own state is the
/// only one with the best possible path metric, minus the magnitudes received so far.
proof fn lemma_metrics_min(d: TetraViterbiDecoder, m: Seq<u8>, r: Seq<SoftBit>, t: nat)
    requires
        is_tetra_decoder(d),
        all_bits(m),
        agrees_with_encoding(r, m),
        t <= m.len(),
    ensures
        d.metrics(r, t).len() == 16,
        forall|x: int|
            0 <= x < 16 ==> #[trigger] d.metrics(r, t)[x] >= -abs_sum(r.take(4 * (t as int))) && (d.metrics(r, t)[x] == -abs_sum(
                r.take(4 * (t as int)),
            ) <==> x == enc_state(m, t as int)),
    decreases t,
{
    if t == 0 {
        assert(r.take(0) =~= Seq::<SoftBit>::empty());
        assert(enc_state(m, 0) == 0);
    } else {
        let u = (t - 1) as nat;
        lemma_metrics_min(d, m, r, u);
        lemma_enc_state_bits(m, u as int);
        assert(4 * u + 4 == 4 * t);
        assert forall|x: int| 0 <= x < 16 implies #[trigger] d.metrics(r, t)[x] >= -abs_sum(r.take(4 * (t as int))) && (d.metrics(
            r,
            t,
        )[x] == -abs_sum(r.take(4 * (t as int))) <==> x == enc_state(m, t as int)) by {
            lemma_candidates(d, m, r, u, x);
        }
    }
}

/// Bit `s` of the decisions of step `t` over the first `n` states is set exactly when
/// state `s` is among them and takes its predecessor with oldest bit 1.
proof fn lemma_decision_bit(d: TetraViterbiDecoder, r: Seq<SoftBit>, t: nat, n: nat, s: usize)
    requires
        n <= 16,
        s < 16,
    ensures
        (d.decisions(r, t, n) >> s) & 1u16 == (if s < n && acs_picks1(
            d.metrics(r, t),
            d.branch_metric(r, t as int, s as int, 4),
            s as int,
        ) {
            1u16
        } else {
            0u16
        }),
    decreases n,
{
    lemma_shift_bits(0u16, s, 0, 0);
    if n > 0 {
        let k = (n - 1) as usize;
        let prev = d.decisions(r, t, (n - 1) as nat);
        lemma_decision_bit(d, r, t, (n - 1) as nat, s);
        lemma_shift_bits(prev, s, 0, k);
    }
}

/// At step `u`, the encoder's next state takes the predecessor the encoder came from.
proof fn lemma_true_decision(d: TetraViterbiDecoder, m: Seq<u8>, r: Seq<SoftBit>, u: nat)
    requires
        is_tetra_decoder(d),
        all_bits(m),
        agrees_with_encoding(r, m),
        u < m.len(),
    ensures
        acs_picks1(
            d.metrics(r, u),
            d.branch_metric(r, u as int, enc_state(m, u as int + 1) as int, 4),
            enc_state(m, u as int + 1) as int,
        ) == (enc_past(m, u as int, 3) == 1),
{
    lemma_metrics_min(d, m, r, u);
    lemma_enc_state_bits(m, u as int + 1);
    lemma_enc_state_bits(m, u as int);
    lemma_candidates(d, m, r, u, enc_state(m, u as int + 1) as int);
}

/// The traceback from state 0 at the end follows the encoder's states back.
proof fn lemma_traceback_follows(d: TetraViterbiDecoder, m: Seq<u8>, r: Seq<SoftBit>, k: nat)
    requires
        is_tetra_decoder(d),
        all_bits(m),
        forall|i: int| 0 <= i < m.len() && i + 4 >= m.len() ==> #[trigger] m[i] == 0,
        agrees_with_encoding(r, m),
        k <= m.len(),
    ensures
        d.traceback(r, m.len(), k) == enc_state(m, m.len() - k),
    decreases k,
{
    let l = m.len() as int;
    if k == 0 {
        assert(enc_past(m, l, 0) == 0);
        assert(enc_past(m, l, 1) == 0);
        assert(enc_past(m, l, 2) == 0);
        assert(enc_past(m, l, 3) == 0);
    } else {
        lemma_traceback_follows(d, m, r, (k - 1) as nat);
        let u = (l - k) as nat;
        let q = enc_state(m, u as int + 1);
        assert(u as int + 1 == l - (k - 1));
        lemma_enc_state_bits(m, u as int + 1);
        lemma_enc_state_bits(m, u as int);
        lemma_true_decision(d, m, r, u);
        lemma_decision_bit(d, r, u, 16, q);
        lemma_state_compose(q, m[u as int], enc_past(m, u as int, 0), enc_past(m, u as int, 1), enc_past(m, u as int, 2));
        assert((m.len() - k) as nat == u);
    }
}

/// Decoding gives back what the rate 1/4 encoder encoded: when `m` (bits, ending in four
/// zero tail bits so that the encoder ends in the all-zero state it started from) was
/// encoded and the received soft bits agree with the encoding, possibly with erasures but
/// not of a whole step, every decoded bit is the bit of `m`.
pub proof fn lemma_decode_encoded(d: TetraViterbiDecoder, m: Seq<u8>, r: Seq<SoftBit>)
    requires
        is_tetra_decoder(d),
        all_bits(m),
        forall|i: int| 0 <= i < m.len() && i + 4 >= m.len() ==> #[trigger] m[i] == 0,
        agrees_with_encoding(r, m),
    ensures
        forall|t: int| 0 <= t < m.len() ==> #[trigger] d.decoded_bit(r, m.len(), t) == m[t],
{
    assert forall|t: int| 0 <= t < m.len() implies #[trigger] d.decoded_bit(r, m.len(), t) == m[t] by {
        lemma_traceback_follows(d, m, r, (m.len() - 1 - t) as nat);
        assert(m.len() - (m.len() - 1 - t) == t + 1);
        lemma_enc_state_bits(m, t + 1);
    }
}

} // verus!
