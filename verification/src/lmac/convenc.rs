//! Convolutional encoder (rate 1/4 mother code) and rate-compatible puncturing.
use vstd::prelude::*;
use vstd::arithmetic::div_mod::lemma_fundamental_div_mod;

verus! {

/// Puncturing rates.
#[derive(Copy, Clone, Debug, Eq, PartialEq)]
pub enum RcpcPunctMode {
    Rate2_3,
    Rate1_3,
    Rate292_432,
    Rate148_432,
    Rate112_168,
    Rate72_162,
    Rate38_80,
}

/// State of the rate-1/4 mother code encoder: the last four input bits, most recent first.
#[derive(Clone, Copy, Debug)]
pub struct ConvEncState {
    delayed: [u8; 4],
}

impl View for ConvEncState {
    type V = Seq<u8>;

    closed spec fn view(&self) -> Seq<u8> {
        self.delayed@
    }
}

/// Input bit `d + 1` steps before step `k` when encoding `input` from encoder state `init`.
pub open spec fn past_bit(init: Seq<u8>, input: Seq<u8>, k: int, d: int) -> u8 {
    if k - 1 - d >= 0 {
        input[k - 1 - d]
    } else {
        init[d - k]
    }
}

/// Output `c` (0 to 3) of the encoder for input bit `b` with delayed bits `d0`..`d3`.
pub open spec fn conv_tap(b: u8, d0: u8, d1: u8, d2: u8, d3: u8, c: int) -> u8 {
    if c == 0 {
        b ^ d0 ^ d3
    } else if c == 1 {
        b ^ d1 ^ d2 ^ d3
    } else if c == 2 {
        b ^ d0 ^ d1 ^ d3
    } else {
        b ^ d0 ^ d2 ^ d3
    }
}

/// Output `c` of step `k` when encoding `input` from encoder state `init`.
pub open spec fn conv_out(init: Seq<u8>, input: Seq<u8>, k: int, c: int) -> u8 {
    conv_tap(
        input[k],
        past_bit(init, input, k, 0),
        past_bit(init, input, k, 1),
        past_bit(init, input, k, 2),
        past_bit(init, input, k, 3),
        c,
    )
}

impl ConvEncState {
    /// A new encoder state (all zeros).
    pub fn new() -> (r: Self)
        ensures
            r@ == seq![0u8, 0u8, 0u8, 0u8],
    {
        let r = Self { delayed: [0; 4] };
        assert(r@ =~= seq![0u8, 0u8, 0u8, 0u8]);
        r
    }

    /// Reset to the all-zero state.
    pub fn reset(&mut self)
        ensures
            final(self)@ == seq![0u8, 0u8, 0u8, 0u8],
    {
        self.delayed = [0; 4];
        assert(self@ =~= seq![0u8, 0u8, 0u8, 0u8]);
    }

    /// Encode one input bit into four output bits, written to `out`; returns them packed
    /// as `g1 | g2 << 1 | g3 << 2 | g4 << 3`.
    fn encode_bit(&mut self, bit: u8, out: &mut [u8; 4]) -> (r: u8)
        ensures
            forall|c: int| 0 <= c < 4 ==> #[trigger] final(out)@[c] == conv_tap(bit, old(self)@[0], old(self)@[1], old(self)@[2], old(self)@[3], c),
            r == (final(out)@[0] | (final(out)@[1] << 1u8) | (final(out)@[2] << 2u8) | (final(out)@[3] << 3u8)),
            final(self)@ == seq![bit, old(self)@[0], old(self)@[1], old(self)@[2]],
    {
        let d0 = self.delayed[0];
        let d1 = self.delayed[1];
        let d2 = self.delayed[2];
        let d3 = self.delayed[3];

        let g1 = bit ^ d0 ^ d3;
        let g2 = bit ^ d1 ^ d2 ^ d3;
        let g3 = bit ^ d0 ^ d1 ^ d3;
        let g4 = bit ^ d0 ^ d2 ^ d3;

        self.delayed[3] = d2;
        self.delayed[2] = d1;
        self.delayed[1] = d0;
        self.delayed[0] = bit;

        out[0] = g1;
        out[1] = g2;
        out[2] = g3;
        out[3] = g4;
        assert(self@ =~= seq![bit, d0, d1, d2]);

        g1 | (g2 << 1u8) | (g3 << 2u8) | (g4 << 3u8)
    }

    /// Encode `input` (one bit per byte) into `4 * input.len()` output bits: output
    /// `4 * i + c` is tap `c` of step `i`. The rest of `output` is left as it was.
    pub fn encode(&mut self, input: &[u8], output: &mut [u8])
        requires
            old(output)@.len() >= input@.len() * 4,
        ensures
            final(output)@.len() == old(output)@.len(),
            forall|i: int, c: int|
                0 <= i < input@.len() && 0 <= c < 4 ==> #[trigger] final(output)@[4 * i + c] == conv_out(old(self)@, input@, i, c),
            forall|p: int| input@.len() * 4 <= p < old(output)@.len() ==> #[trigger] final(output)@[p] == old(output)@[p],
            forall|d: int| 0 <= d < 4 ==> #[trigger] final(self)@[d] == past_bit(old(self)@, input@, input@.len() as int, d),
            final(self)@.len() == 4,
    {
        let ghost init = self@;
        let ghost out0 = output@;
        let n = input.len();
        let olen = output.len();
        let mut i: usize = 0;
        while i < n
            invariant
                n == input@.len(),
                olen == out0.len(),
                init.len() == 4,
                out0.len() >= n * 4,
                i <= n,
                output@.len() == out0.len(),
                self@.len() == 4,
                forall|d: int| 0 <= d < 4 ==> #[trigger] self@[d] == past_bit(init, input@, i as int, d),
                forall|j: int, c: int|
                    0 <= j < i && 0 <= c < 4 ==> #[trigger] output@[4 * j + c] == conv_out(init, input@, j, c),
                forall|p: int| i * 4 <= p < out0.len() ==> #[trigger] output@[p] == out0[p],
            decreases n - i,
        {
            assert(i * 4 + 4 <= n * 4) by (nonlinear_arith)
                requires
                    i < n,
            ;
            let mut chunk = [0u8; 4];
            let ghost st = self@;
            self.encode_bit(input[i], &mut chunk);
            output[i * 4] = chunk[0];
            output[i * 4 + 1] = chunk[1];
            output[i * 4 + 2] = chunk[2];
            output[i * 4 + 3] = chunk[3];
            proof {
                assert forall|c: int| 0 <= c < 4 implies #[trigger] output@[4 * i + c] == conv_out(init, input@, i as int, c) by {
                    assert(st[0] == past_bit(init, input@, i as int, 0));
                    assert(st[1] == past_bit(init, input@, i as int, 1));
                    assert(st[2] == past_bit(init, input@, i as int, 2));
                    assert(st[3] == past_bit(init, input@, i as int, 3));
                }
                assert forall|d: int| 0 <= d < 4 implies #[trigger] self@[d] == past_bit(init, input@, i + 1, d) by {
                    if d > 0 {
                        assert(st[d - 1] == past_bit(init, input@, i as int, d - 1));
                    }
                }
            }
            i = i + 1;
        }
    }
}

/// Index mapping applied before puncturing.
#[derive(Copy, Clone, Debug, Eq, PartialEq)]
pub enum IndexMap {
    /// `i = j`
    Identity,
    /// `i = j + (j - 1) / 65`
    Skip65,
    /// `i = j + (j - 1) / 35`
    Skip35,
}

/// The mapped index of (1-based) output bit `j`.
pub open spec fn map_index(m: IndexMap, j: nat) -> nat {
    match m {
        IndexMap::Identity => j,
        IndexMap::Skip65 => j + ((j - 1) as nat) / 65,
        IndexMap::Skip35 => j + ((j - 1) as nat) / 35,
    }
}

fn i_equals(j: u32) -> (r: u32)
    ensures
        r == j,
{
    j
}

fn i_292(j: u32) -> (r: u32)
    requires
        1 <= j,
        j + (j - 1) / 65 <= u32::MAX,
    ensures
        r == j + (j - 1) / 65,
{
    j + ((j - 1) / 65)
}

fn i_148(j: u32) -> (r: u32)
    requires
        1 <= j,
        j + (j - 1) / 35 <= u32::MAX,
    ensures
        r == j + (j - 1) / 35,
{
    j + ((j - 1) / 35)
}

/// Puncturer parameters.
#[derive(Copy, Clone)]
struct Puncturer {
    /// Puncturing pattern indices
    p: &'static [u32],
    /// Puncturing period t
    t: u32,
    /// Interleaving period
    period: u32,
    /// Index mapping
    i_func: IndexMap,
}

pub const P_RATE2_3: [u32; 4] = [0, 1, 2, 5];
pub const P_RATE1_3: [u32; 7] = [0, 1, 2, 3, 5, 6, 7];
pub const P_RATE8_12: [u32; 4] = [0, 1, 2, 4];
pub const P_RATE8_18: [u32; 10] = [0, 1, 2, 3, 4, 5, 7, 8, 10, 11];
pub const P_RATE8_17: [u32; 18] = [0, 1, 2, 3, 4, 5, 7, 8, 10, 11, 13, 14, 16, 17, 19, 20, 22, 23];

/// Puncturing pattern of a mode.
pub open spec fn punct_p(pu: RcpcPunctMode) -> Seq<u32> {
    match pu {
        RcpcPunctMode::Rate2_3 | RcpcPunctMode::Rate292_432 => P_RATE2_3@,
        RcpcPunctMode::Rate1_3 | RcpcPunctMode::Rate148_432 => P_RATE1_3@,
        RcpcPunctMode::Rate112_168 => P_RATE8_12@,
        RcpcPunctMode::Rate72_162 => P_RATE8_18@,
        RcpcPunctMode::Rate38_80 => P_RATE8_17@,
    }
}

/// Puncturing period `t` of a mode.
pub open spec fn punct_t(pu: RcpcPunctMode) -> nat {
    match pu {
        RcpcPunctMode::Rate2_3 | RcpcPunctMode::Rate292_432 | RcpcPunctMode::Rate112_168 => 3,
        RcpcPunctMode::Rate1_3 | RcpcPunctMode::Rate148_432 => 6,
        RcpcPunctMode::Rate72_162 => 9,
        RcpcPunctMode::Rate38_80 => 17,
    }
}

/// Mother-code period of a mode.
pub open spec fn punct_period(pu: RcpcPunctMode) -> nat {
    match pu {
        RcpcPunctMode::Rate112_168 => 6,
        RcpcPunctMode::Rate72_162 => 12,
        RcpcPunctMode::Rate38_80 => 24,
        _ => 8,
    }
}

/// Index mapping of a mode.
pub open spec fn punct_map(pu: RcpcPunctMode) -> IndexMap {
    match pu {
        RcpcPunctMode::Rate292_432 => IndexMap::Skip65,
        RcpcPunctMode::Rate148_432 => IndexMap::Skip35,
        _ => IndexMap::Identity,
    }
}

/// Position (1-based) in the mother code of punctured bit `j` (1-based).
pub open spec fn punct_src(pu: RcpcPunctMode, j: nat) -> nat {
    punct_pos(pu, map_index(punct_map(pu), j))
}

/// The mother-code index of punctured bit `j` (1-based) before the puncturing pattern:
/// for the 292/432 mode one index is skipped after every 65 bits, for the 148/432 mode after
/// every 35 bits, and for the other modes none.
pub open spec fn skip_index(pu: RcpcPunctMode, j: nat) -> nat {
    if pu == RcpcPunctMode::Rate292_432 {
        j + ((j - 1) as nat) / 65
    } else if pu == RcpcPunctMode::Rate148_432 {
        j + ((j - 1) as nat) / 35
    } else {
        j
    }
}

/// Which index map each mode uses: punctured bit `j` of the 292/432 mode comes from the
/// mother-code position of index `j + (j - 1) / 65`, of the 148/432 mode from that of
/// `j + (j - 1) / 35`, and of every other mode from that of `j`.
pub proof fn lemma_index_maps(pu: RcpcPunctMode, j: nat)
    requires
        j >= 1,
    ensures
        punct_src(pu, j) == punct_pos(pu, skip_index(pu, j)),
        pu == RcpcPunctMode::Rate292_432 ==> punct_src(pu, j) == punct_pos(pu, j + ((j - 1) as nat) / 65),
        pu == RcpcPunctMode::Rate148_432 ==> punct_src(pu, j) == punct_pos(pu, j + ((j - 1) as nat) / 35),
        pu != RcpcPunctMode::Rate292_432 && pu != RcpcPunctMode::Rate148_432 ==> punct_src(pu, j) == punct_pos(pu, j),
{
}

/// The puncturing patterns, periods and index maps of the modes: rate 2/3 (also 292/432)
/// keeps positions 1, 2, 5 of every 8; rate 1/3 (also 148/432) keeps 1, 2, 3, 5, 6, 7 of every
/// 8; 112/168 keeps 1, 2, 4 of every 6; 72/162 keeps 1, 2, 3, 4, 5, 7, 8, 10, 11 of every 12;
/// 38/80 keeps 1, 2, 3, 4, 5, 7, 8, 10, 11, 13, 14, 16, 17, 19, 20, 22, 23 of every 24.
pub proof fn lemma_puncturing_tables()
    ensures
        punct_p(RcpcPunctMode::Rate2_3) == seq![0u32, 1, 2, 5],
        punct_p(RcpcPunctMode::Rate292_432) == seq![0u32, 1, 2, 5],
        punct_p(RcpcPunctMode::Rate1_3) == seq![0u32, 1, 2, 3, 5, 6, 7],
        punct_p(RcpcPunctMode::Rate148_432) == seq![0u32, 1, 2, 3, 5, 6, 7],
        punct_p(RcpcPunctMode::Rate112_168) == seq![0u32, 1, 2, 4],
        punct_p(RcpcPunctMode::Rate72_162) == seq![0u32, 1, 2, 3, 4, 5, 7, 8, 10, 11],
        punct_p(RcpcPunctMode::Rate38_80) == seq![0u32, 1, 2, 3, 4, 5, 7, 8, 10, 11, 13, 14, 16, 17, 19, 20, 22, 23],
        punct_t(RcpcPunctMode::Rate2_3) == 3 && punct_period(RcpcPunctMode::Rate2_3) == 8,
        punct_t(RcpcPunctMode::Rate292_432) == 3 && punct_period(RcpcPunctMode::Rate292_432) == 8,
        punct_t(RcpcPunctMode::Rate1_3) == 6 && punct_period(RcpcPunctMode::Rate1_3) == 8,
        punct_t(RcpcPunctMode::Rate148_432) == 6 && punct_period(RcpcPunctMode::Rate148_432) == 8,
        punct_t(RcpcPunctMode::Rate112_168) == 3 && punct_period(RcpcPunctMode::Rate112_168) == 6,
        punct_t(RcpcPunctMode::Rate72_162) == 9 && punct_period(RcpcPunctMode::Rate72_162) == 12,
        punct_t(RcpcPunctMode::Rate38_80) == 17 && punct_period(RcpcPunctMode::Rate38_80) == 24,
{
    assert(P_RATE2_3@ =~= seq![0u32, 1, 2, 5]);
    assert(P_RATE1_3@ =~= seq![0u32, 1, 2, 3, 5, 6, 7]);
    assert(P_RATE8_12@ =~= seq![0u32, 1, 2, 4]);
    assert(P_RATE8_18@ =~= seq![0u32, 1, 2, 3, 4, 5, 7, 8, 10, 11]);
    assert(P_RATE8_17@ =~= seq![0u32, 1, 2, 3, 4, 5, 7, 8, 10, 11, 13, 14, 16, 17, 19, 20, 22, 23]);
}

/// Puncturer parameters of a mode.
fn get_puncturer(pu: RcpcPunctMode) -> (r: Puncturer)
    ensures
        r.p@ == punct_p(pu),
        r.t == punct_t(pu),
        r.period == punct_period(pu),
        r.i_func == punct_map(pu),
{
    match pu {
        RcpcPunctMode::Rate2_3 => Puncturer { p: &P_RATE2_3, t: 3, period: 8, i_func: IndexMap::Identity },
        RcpcPunctMode::Rate1_3 => Puncturer { p: &P_RATE1_3, t: 6, period: 8, i_func: IndexMap::Identity },
        RcpcPunctMode::Rate292_432 => Puncturer { p: &P_RATE2_3, t: 3, period: 8, i_func: IndexMap::Skip65 },
        RcpcPunctMode::Rate148_432 => Puncturer { p: &P_RATE1_3, t: 6, period: 8, i_func: IndexMap::Skip35 },
        RcpcPunctMode::Rate112_168 => Puncturer { p: &P_RATE8_12, t: 3, period: 6, i_func: IndexMap::Identity },
        RcpcPunctMode::Rate72_162 => Puncturer { p: &P_RATE8_18, t: 9, period: 12, i_func: IndexMap::Identity },
        RcpcPunctMode::Rate38_80 => Puncturer { p: &P_RATE8_17, t: 17, period: 24, i_func: IndexMap::Identity },
    }
}

/// Mother-code position (1-based) of punctured bit `j` (1-based), computed as the code does.
fn punct_source(pu: RcpcPunctMode, puncturer: &Puncturer, j: u32) -> (k: u32)
    requires
        1 <= j,
        punct_src(pu, j as nat) <= u32::MAX,
        puncturer.p@ == punct_p(pu),
        puncturer.t == punct_t(pu),
        puncturer.period == punct_period(pu),
        puncturer.i_func == punct_map(pu),
    ensures
        k == punct_src(pu, j as nat),
        k >= 1,
{
    proof {
        lemma_punct_pos_at_least(pu, map_index(punct_map(pu), j as nat));
        lemma_punct_tables(pu);
    }
    let i = match puncturer.i_func {
        IndexMap::Identity => i_equals(j),
        IndexMap::Skip65 => i_292(j),
        IndexMap::Skip35 => i_148(j),
    };
    let t = puncturer.t;
    let blk = (i - 1) / t;
    proof {
        lemma_fundamental_div_mod((i - 1) as int, t as int);
        vstd::arithmetic::div_mod::lemma_mod_bound((i - 1) as int, t as int);
        assert(1 <= i - t * blk <= t) by (nonlinear_arith)
            requires
                i - 1 == t * blk + (i - 1) % (t as int),
                0 <= (i - 1) % (t as int) < t,
        ;
    }
    let idx = (i - t * blk) as usize;
    proof {
        assert(punct_pos(pu, i as nat) == puncturer.period * blk + puncturer.p@[idx as int]);
    }
    let k = puncturer.period * blk + puncturer.p[idx];
    k
}

/// A mother-code position is never before the index it is computed from.
proof fn lemma_punct_pos_at_least(pu: RcpcPunctMode, i: nat)
    requires
        i >= 1,
    ensures
        punct_pos(pu, i) >= i,
    decreases i,
{
    if i == 1 {
        lemma_punct_pos_positive(pu, i);
    } else {
        lemma_punct_pos_at_least(pu, (i - 1) as nat);
        lemma_punct_pos_step(pu, (i - 1) as nat);
    }
}

/// Puncture the mother-code bits `input` into `output`: output bit `j` (0-based) is
/// mother-code bit `punct_src(pu, j + 1) - 1`.
pub fn get_punctured_rate(pu: RcpcPunctMode, input: &[u8], output: &mut [u8])
    requires
        old(output)@.len() <= u32::MAX,
        forall|j: nat| 1 <= j <= old(output)@.len() ==> #[trigger] punct_src(pu, j) <= input@.len(),
        forall|j: nat| 1 <= j <= old(output)@.len() ==> #[trigger] punct_src(pu, j) <= u32::MAX,
    ensures
        final(output)@.len() == old(output)@.len(),
        forall|j: int| 0 <= j < old(output)@.len() ==> #[trigger] final(output)@[j] == input@[punct_src(pu, (j + 1) as nat) - 1],
        pu == RcpcPunctMode::Rate292_432 ==> forall|j: int|
            0 <= j < old(output)@.len() ==> #[trigger] final(output)@[j] == input@[punct_pos(pu, (j + 1 + j / 65) as nat) - 1],
        pu == RcpcPunctMode::Rate148_432 ==> forall|j: int|
            0 <= j < old(output)@.len() ==> #[trigger] final(output)@[j] == input@[punct_pos(pu, (j + 1 + j / 35) as nat) - 1],
{
    proof {
        assert forall|j: nat| j >= 1 implies #[trigger] punct_src(pu, j) == punct_pos(pu, skip_index(pu, j)) by {
            lemma_index_maps(pu, j);
        }
    }
    let puncturer = get_puncturer(pu);
    let len = output.len() as u32;
    let mut j: u32 = 0;
    while j < len
        invariant
            len == output@.len(),
            forall|j: nat| 1 <= j <= len ==> #[trigger] punct_src(pu, j) <= u32::MAX,
            puncturer.p@ == punct_p(pu),
            puncturer.t == punct_t(pu),
            puncturer.period == punct_period(pu),
            puncturer.i_func == punct_map(pu),
            forall|j: nat| 1 <= j <= len ==> #[trigger] punct_src(pu, j) <= input@.len(),
            j <= len,
            forall|q: int| 0 <= q < j ==> #[trigger] output@[q] == input@[punct_src(pu, (q + 1) as nat) - 1],
        decreases len - j,
    {
        let j1 = j + 1;
        let k = punct_source(pu, &puncturer, j1);
        assert(punct_src(pu, j1 as nat) <= input@.len());
        output[j as usize] = input[(k - 1) as usize];
        j = j1;
    }
}

/// `out` after storing punctured bits `1..=n` of `input` back at their mother-code positions, in order.
pub open spec fn depunct_upto(pu: RcpcPunctMode, input: Seq<u8>, out: Seq<u8>, n: nat) -> Seq<u8>
    decreases n,
{
    if n == 0 {
        out
    } else {
        depunct_upto(pu, input, out, (n - 1) as nat).update(punct_src(pu, n) - 1, input[n - 1])
    }
}

/// De-puncture the first `len` bits of `input` back into the mother-code buffer `output`:
/// bit `j` (1-based) is stored at mother-code position `punct_src(pu, j)`, in order.
pub fn tetra_rcpc_depunct(pu: RcpcPunctMode, input: &[u8], len: usize, output: &mut [u8])
    requires
        len <= u32::MAX,
        len <= input@.len(),
        forall|j: nat| 1 <= j <= len ==> #[trigger] punct_src(pu, j) <= old(output)@.len(),
        forall|j: nat| 1 <= j <= len ==> #[trigger] punct_src(pu, j) <= u32::MAX,
    ensures
        final(output)@ == depunct_upto(pu, input@, old(output)@, len as nat),
{
    let puncturer = get_puncturer(pu);
    let ghost out0 = output@;
    let len = len as u32;
    let mut j: u32 = 0;
    while j < len
        invariant
            forall|j: nat| 1 <= j <= len ==> #[trigger] punct_src(pu, j) <= u32::MAX,
            len <= input@.len(),
            puncturer.p@ == punct_p(pu),
            puncturer.t == punct_t(pu),
            puncturer.period == punct_period(pu),
            puncturer.i_func == punct_map(pu),
            forall|j: nat| 1 <= j <= len ==> #[trigger] punct_src(pu, j) <= out0.len(),
            j <= len,
            output@.len() == out0.len(),
            output@ == depunct_upto(pu, input@, out0, j as nat),
        decreases len - j,
    {
        let j1 = j + 1;
        let k = punct_source(pu, &puncturer, j1);
        assert(punct_src(pu, j1 as nat) <= out0.len());
        output[(k - 1) as usize] = input[j as usize];
        j = j1;
    }
}

/// Number of entries of `depunct[..n]` that are not `0xff` (all of them equal to `mother`).
pub open spec fn matched_count(mother: Seq<u8>, depunct: Seq<u8>, n: nat) -> nat
    decreases n,
{
    if n == 0 {
        0
    } else {
        matched_count(mother, depunct, (n - 1) as nat) + if depunct[n - 1] == 0xff { 0nat } else { 1nat }
    }
}

/// The outcome of comparing a mother-code buffer with a de-punctured one over their
/// common length `n`, `0xff` entries of `depunct` being erasures.
pub open spec fn erasure_compare(mother: Seq<u8>, depunct: Seq<u8>, n: nat, r: Result<usize, ()>) -> bool {
    &&& r is Ok <==> forall|i: int| 0 <= i < n ==> #[trigger] depunct[i] == 0xff || depunct[i] == mother[i]
    &&& r matches Ok(c) ==> c == matched_count(mother, depunct, n)
}

fn count_unerased_matches(mother: &[u8], depunct: &[u8]) -> (r: Result<usize, ()>)
    ensures
        erasure_compare(
            mother@,
            depunct@,
            if mother@.len() < depunct@.len() { mother@.len() } else { depunct@.len() },
            r,
        ),
{
    let n = if mother.len() < depunct.len() { mother.len() } else { depunct.len() };
    let mut matched: usize = 0;
    let mut i: usize = 0;
    while i < n
        invariant
            n == (if mother@.len() < depunct@.len() { mother@.len() } else { depunct@.len() }),
            i <= n,
            matched == matched_count(mother@, depunct@, i as nat),
            matched <= i,
            forall|q: int| 0 <= q < i ==> #[trigger] depunct@[q] == 0xff || depunct@[q] == mother@[q],
        decreases n - i,
    {
        let m = mother[i];
        let d = depunct[i];
        if d != 0xff {
            if d != m {
                return Err(());
            }
            matched = matched + 1;
        }
        i = i + 1;
    }
    Ok(matched)
}

/// Compare a mother-code buffer with a de-punctured one over their common length,
/// ignoring `0xff` entries in `depunct`: the number of compared symbols, or `Err(())`
/// at the first mismatch.
pub fn mother_memcmp(mother: &[u8], depunct: &[u8]) -> (r: Result<usize, ()>)
    ensures
        erasure_compare(
            mother@,
            depunct@,
            if mother@.len() < depunct@.len() { mother@.len() } else { depunct@.len() },
            r,
        ),
{
    count_unerased_matches(mother, depunct)
}

/// Mother-code position (1-based) of mapped index `i` (1-based).
pub open spec fn punct_pos(pu: RcpcPunctMode, i: nat) -> nat {
    let t = punct_t(pu);
    let blk = ((i - 1) as nat) / t;
    punct_period(pu) * blk + punct_p(pu)[i - t * blk] as nat
}

/// The puncturing tables: increasing within a period, and the last entry of one period
/// before the first of the next.
proof fn lemma_punct_tables(pu: RcpcPunctMode)
    ensures
        punct_t(pu) >= 1,
        punct_p(pu).len() == punct_t(pu) + 1,
        forall|a: int| 1 <= a < punct_t(pu) ==> #[trigger] punct_p(pu)[a] < punct_p(pu)[a + 1],
        forall|a: int| 1 <= a <= punct_t(pu) ==> #[trigger] punct_p(pu)[a] >= 1,
        punct_p(pu)[punct_t(pu) as int] < punct_period(pu) + punct_p(pu)[1],
{
}

/// Mother-code positions are 1-based: never 0.
proof fn lemma_punct_pos_positive(pu: RcpcPunctMode, i: nat)
    requires
        i >= 1,
    ensures
        punct_pos(pu, i) >= 1,
{
    lemma_punct_tables(pu);
    let t = punct_t(pu);
    let q = ((i - 1) as nat) / t;
    lemma_fundamental_div_mod((i - 1) as int, t as int);
    vstd::arithmetic::div_mod::lemma_mod_bound((i - 1) as int, t as int);
    assert(1 <= i - t * q <= t) by (nonlinear_arith)
        requires
            i - 1 == t * q + (i - 1) % (t as int),
            0 <= (i - 1) % (t as int) < t,
    ;
}

proof fn lemma_punct_pos_step(pu: RcpcPunctMode, i: nat)
    requires
        i >= 1,
    ensures
        punct_pos(pu, i) < punct_pos(pu, i + 1),
{
    lemma_punct_tables(pu);
    let t = punct_t(pu);
    let per = punct_period(pu);
    let q = ((i - 1) as nat) / t;
    let r = ((i - 1) as nat) % t;
    lemma_fundamental_div_mod((i - 1) as int, t as int);
    vstd::arithmetic::div_mod::lemma_mod_bound((i - 1) as int, t as int);
    if r + 1 < t {
        vstd::arithmetic::div_mod::lemma_fundamental_div_mod_converse(i as int, t as int, q as int, (r + 1) as int);
        assert(i - t * q == r + 1) by (nonlinear_arith)
            requires
                i - 1 == t * q + r,
        ;
    } else {
        vstd::arithmetic::div_mod::lemma_fundamental_div_mod_converse(i as int, t as int, (q + 1) as int, 0);
        assert(i + 1 - t * (q + 1) == 1 && i - t * q == t && per * (q + 1) == per * q + per) by (nonlinear_arith)
            requires
                i - 1 == t * q + r,
                r + 1 == t,
        ;
    }
}

proof fn lemma_punct_pos_increasing(pu: RcpcPunctMode, a: nat, b: nat)
    requires
        1 <= a < b,
    ensures
        punct_pos(pu, a) < punct_pos(pu, b),
    decreases b - a,
{
    lemma_punct_pos_step(pu, a);
    if a + 1 < b {
        lemma_punct_pos_increasing(pu, a + 1, b);
    }
}

/// Distinct punctured bits come from distinct mother-code positions, later bits from later ones.
pub proof fn lemma_punct_src_increasing(pu: RcpcPunctMode, a: nat, b: nat)
    requires
        1 <= a < b,
    ensures
        punct_src(pu, a) < punct_src(pu, b),
{
    let ia = map_index(punct_map(pu), a);
    let ib = map_index(punct_map(pu), b);
    assert(ia < ib) by {
        vstd::arithmetic::div_mod::lemma_div_is_ordered((a - 1) as int, (b - 1) as int, 65);
        vstd::arithmetic::div_mod::lemma_div_is_ordered((a - 1) as int, (b - 1) as int, 35);
    }
    assert(ia >= 1);
    lemma_punct_pos_increasing(pu, ia, ib);
}

/// The punctured bits of a mother-code block: bit `j` is mother-code bit `punct_src(pu, j + 1) - 1`.
pub open spec fn punctured(pu: RcpcPunctMode, mother: Seq<u8>, len: nat) -> Seq<u8> {
    Seq::new(len, |j: int| mother[punct_src(pu, (j + 1) as nat) - 1])
}

/// Where de-puncturing puts each punctured bit: bit `j` ends at mother-code position `punct_src(pu, j)`.
pub proof fn lemma_depunct_at(pu: RcpcPunctMode, input: Seq<u8>, out: Seq<u8>, n: nat, j: nat)
    requires
        1 <= j <= n,
        forall|q: nat| 1 <= q <= n ==> #[trigger] punct_src(pu, q) <= out.len(),
    ensures
        depunct_upto(pu, input, out, n)[punct_src(pu, j) - 1] == input[j - 1],
        depunct_upto(pu, input, out, n).len() == out.len(),
    decreases n,
{
    lemma_punct_pos_positive(pu, map_index(punct_map(pu), n));
    lemma_punct_pos_positive(pu, map_index(punct_map(pu), j));
    if n > j {
        lemma_depunct_at(pu, input, out, (n - 1) as nat, j);
        lemma_punct_src_increasing(pu, j, n);
    } else {
        lemma_depunct_len(pu, input, out, (n - 1) as nat, n);
    }
}

proof fn lemma_depunct_len(pu: RcpcPunctMode, input: Seq<u8>, out: Seq<u8>, n: nat, m: nat)
    requires
        n <= m,
        forall|q: nat| 1 <= q <= m ==> #[trigger] punct_src(pu, q) <= out.len(),
    ensures
        depunct_upto(pu, input, out, n).len() == out.len(),
    decreases n,
{
    if n > 0 {
        lemma_depunct_len(pu, input, out, (n - 1) as nat, m);
        assert(punct_src(pu, n) <= out.len());
        lemma_punct_pos_positive(pu, map_index(punct_map(pu), n));
    }
}

/// De-puncturing punctured bits puts every kept mother-code bit back where it was.
pub proof fn lemma_punct_depunct(pu: RcpcPunctMode, mother: Seq<u8>, out: Seq<u8>, len: nat, j: nat)
    requires
        1 <= j <= len,
        forall|q: nat| 1 <= q <= len ==> #[trigger] punct_src(pu, q) <= mother.len(),
        forall|q: nat| 1 <= q <= len ==> #[trigger] punct_src(pu, q) <= out.len(),
    ensures
        depunct_upto(pu, punctured(pu, mother, len), out, len)[punct_src(pu, j) - 1] == mother[punct_src(pu, j) - 1],
{
    lemma_depunct_at(pu, punctured(pu, mother, len), out, len, j);
}


/// Every entry of `s` is an erasure (`0xff`).
pub open spec fn all_erased(s: Seq<u8>) -> bool {
    forall|i: int| 0 <= i < s.len() ==> #[trigger] s[i] == 0xff
}

proof fn lemma_matched_count_erased(m: Seq<u8>, s: Seq<u8>, n: nat)
    requires
        n <= s.len(),
        all_erased(s),
    ensures
        matched_count(m, s, n) == 0,
    decreases n,
{
    if n > 0 {
        lemma_matched_count_erased(m, s, (n - 1) as nat);
    }
}

proof fn lemma_matched_count_update(m: Seq<u8>, s: Seq<u8>, q: int, v: u8, n: nat)
    requires
        n <= s.len(),
        0 <= q < s.len(),
        s[q] == 0xff,
        v != 0xff,
    ensures
        matched_count(m, s.update(q, v), n) == matched_count(m, s, n) + if q < n { 1nat } else { 0nat },
    decreases n,
{
    if n > 0 {
        lemma_matched_count_update(m, s, q, v, (n - 1) as nat);
    }
}

proof fn lemma_depunct_restores_upto(pu: RcpcPunctMode, mother: Seq<u8>, p: Seq<u8>, init: Seq<u8>, n: nat)
    requires
        init.len() == mother.len(),
        all_erased(init),
        forall|i: int| 0 <= i < mother.len() ==> #[trigger] mother[i] != 0xff,
        forall|q: nat| 1 <= q <= n ==> #[trigger] punct_src(pu, q) <= mother.len(),
        forall|q: nat| 1 <= q <= n ==> #[trigger] p[q - 1] == mother[punct_src(pu, q) - 1],
    ensures
        ({
            let d = depunct_upto(pu, p, init, n);
            &&& d.len() == mother.len()
            &&& forall|i: int| 0 <= i < d.len() ==> #[trigger] d[i] == 0xff || d[i] == mother[i]
            &&& matched_count(mother, d, mother.len()) == n
            &&& n >= 1 ==> forall|i: int| punct_src(pu, n) <= i < d.len() ==> #[trigger] d[i] == 0xff
        }),
    decreases n,
{
    if n == 0 {
        lemma_matched_count_erased(mother, init, mother.len());
    } else {
        let m1 = (n - 1) as nat;
        lemma_depunct_restores_upto(pu, mother, p, init, m1);
        let d0 = depunct_upto(pu, p, init, m1);
        lemma_punct_pos_positive(pu, map_index(punct_map(pu), n));
        let q = punct_src(pu, n) - 1;
        assert(punct_src(pu, n) <= mother.len());
        if m1 >= 1 {
            lemma_punct_src_increasing(pu, m1, n);
            assert(d0[q] == 0xff);
        } else {
            assert(d0 == init);
        }
        assert(p[n - 1] == mother[q]);
        lemma_matched_count_update(mother, d0, q, p[n - 1], mother.len());
    }
}

/// De-puncturing the first `len` punctured bits of a mother-code block (which holds no
/// erasure) into an all-erased buffer of the block's length restores exactly `len`
/// positions, each to its mother-code bit: comparing with the block, ignoring erasures,
/// finds no mismatch and counts `len` matches.
pub proof fn lemma_depunct_restores_count(pu: RcpcPunctMode, mother: Seq<u8>, init: Seq<u8>, len: nat)
    requires
        init.len() == mother.len(),
        all_erased(init),
        forall|i: int| 0 <= i < mother.len() ==> #[trigger] mother[i] != 0xff,
        forall|q: nat| 1 <= q <= len ==> #[trigger] punct_src(pu, q) <= mother.len(),
    ensures
        ({
            let d = depunct_upto(pu, punctured(pu, mother, len), init, len);
            &&& d.len() == mother.len()
            &&& erasure_compare(mother, d, mother.len(), Ok::<usize, ()>(len as usize)) || len > usize::MAX
            &&& forall|i: int| 0 <= i < d.len() ==> #[trigger] d[i] == 0xff || d[i] == mother[i]
            &&& matched_count(mother, d, mother.len()) == len
        }),
{
    let p = punctured(pu, mother, len);
    assert forall|q: nat| 1 <= q <= len implies #[trigger] p[q - 1] == mother[punct_src(pu, q) - 1] by {}
    lemma_depunct_restores_upto(pu, mother, p, init, len);
}

} // verus!
