//! Block and matrix interleaving of channel-coded bits.
use vstd::prelude::*;
use vstd::arithmetic::div_mod::lemma_fundamental_div_mod_converse;

verus! {

/// Position (1-based) that bit `i` of a block of `k` bits moves to with interleaving
/// step `a`, computed in 32-bit arithmetic that wraps on overflow.
pub open spec fn interl_pos(k: u32, a: u32, i: u32) -> nat {
    1 + ((a as nat * i as nat) % 0x1_0000_0000) % (k as nat)
}

/// Position (1-based) in the interleaved block of bit `i` (1-based) of a block of `k` bits.
pub fn block_interl_func(k: u32, a: u32, i: u32) -> (r: u32)
    requires
        k > 0,
    ensures
        r == interl_pos(k, a, i),
{
    1 + (a.wrapping_mul(i) % k)
}

/// `out` after storing bits `1..=n` of `input` at their interleaved positions, in order.
pub open spec fn block_interleaved_upto(k: u32, a: u32, input: Seq<u8>, out: Seq<u8>, n: nat) -> Seq<u8>
    decreases n,
{
    if n == 0 {
        out
    } else {
        block_interleaved_upto(k, a, input, out, (n - 1) as nat).update(
            interl_pos(k, a, n as u32) - 1,
            input[n - 1],
        )
    }
}

/// Whether the interleaving of a block of `k` bits with step `a` sends no two bits to one place.
pub open spec fn interl_injective(k: u32, a: u32) -> bool {
    forall|i: u32, j: u32|
        1 <= i <= k && 1 <= j <= k && i != j ==> #[trigger] interl_pos(k, a, i) != #[trigger] interl_pos(k, a, j)
}

/// Block interleaving: bit `i` (1-based) of the first `k` input bits goes to position
/// `1 + (a * i mod k)` of the output; the rest of the output is left as it was.
pub fn block_interleave(k: usize, a: usize, input: &[u8], output: &mut [u8])
    requires
        input@.len() >= k,
        old(output)@.len() >= k,
        k <= u32::MAX,
    ensures
        final(output)@ == block_interleaved_upto(k as u32, a as u32, input@, old(output)@, k as nat),
        final(output)@.len() == old(output)@.len(),
{
    let ghost out0 = output@;
    let mut i: usize = 0;
    while i < k
        invariant
            i <= k,
            input@.len() >= k,
            out0.len() >= k,
            k <= u32::MAX,
            output@.len() == out0.len(),
            output@ == block_interleaved_upto(k as u32, a as u32, input@, out0, i as nat),
        decreases k - i,
    {
        let j = i + 1;
        let p = block_interl_func(k as u32, a as u32, j as u32) as usize;
        output[p - 1] = input[i];
        i = j;
    }
}

/// Block de-interleaving: output bit `i` (1-based, `i <= k`) is input bit
/// `1 + (a * i mod k)`; the rest of the output is left as it was.
pub fn block_deinterleave(k: usize, a: usize, input: &[u8], output: &mut [u8])
    requires
        input@.len() >= k,
        old(output)@.len() >= k,
        k <= u32::MAX,
    ensures
        final(output)@.len() == old(output)@.len(),
        forall|p: int| 0 <= p < k ==> #[trigger] final(output)@[p] == input@[interl_pos(k as u32, a as u32, (p + 1) as u32) - 1],
        forall|p: int| k <= p < old(output)@.len() ==> #[trigger] final(output)@[p] == old(output)@[p],
{
    let ghost out0 = output@;
    let mut i: usize = 0;
    while i < k
        invariant
            i <= k,
            input@.len() >= k,
            out0.len() >= k,
            k <= u32::MAX,
            output@.len() == out0.len(),
            forall|p: int| 0 <= p < i ==> #[trigger] output@[p] == input@[interl_pos(k as u32, a as u32, (p + 1) as u32) - 1],
            forall|p: int| i <= p < out0.len() ==> #[trigger] output@[p] == out0[p],
        decreases k - i,
    {
        let j = i + 1;
        let p = block_interl_func(k as u32, a as u32, j as u32) as usize;
        output[i] = input[p - 1];
        i = j;
    }
}

/// Where an injective interleaving puts each input bit.
pub proof fn lemma_block_interleaved_at(k: u32, a: u32, input: Seq<u8>, out: Seq<u8>, n: nat, i: u32)
    requires
        interl_injective(k, a),
        k > 0,
        n <= k,
        out.len() >= k,
        input.len() >= k,
        1 <= i <= n,
    ensures
        block_interleaved_upto(k, a, input, out, n)[interl_pos(k, a, i) - 1] == input[i - 1],
        block_interleaved_upto(k, a, input, out, n).len() == out.len(),
    decreases n,
{
    if n > i {
        lemma_block_interleaved_at(k, a, input, out, (n - 1) as nat, i);
        assert(interl_pos(k, a, n as u32) != interl_pos(k, a, i));
    } else {
        lemma_block_interleaved_len(k, a, input, out, (n - 1) as nat);
    }
}

proof fn lemma_block_interleaved_len(k: u32, a: u32, input: Seq<u8>, out: Seq<u8>, n: nat)
    requires
        k > 0,
        out.len() >= k,
    ensures
        block_interleaved_upto(k, a, input, out, n).len() == out.len(),
    decreases n,
{
    if n > 0 {
        lemma_block_interleaved_len(k, a, input, out, (n - 1) as nat);
    }
}

/// De-interleaving an interleaved block gives the block back when the interleaving sends
/// no two bits to one place.
pub proof fn lemma_block_interleave_roundtrip(k: u32, a: u32, input: Seq<u8>, out: Seq<u8>, p: int)
    requires
        interl_injective(k, a),
        k > 0,
        out.len() >= k,
        input.len() >= k,
        0 <= p < k,
    ensures
        block_interleaved_upto(k, a, input, out, k as nat)[interl_pos(k, a, (p + 1) as u32) - 1] == input[p],
{
    lemma_block_interleaved_at(k, a, input, out, k as nat, (p + 1) as u32);
}

/// Greatest common divisor, by Euclid's algorithm.
pub open spec fn gcd(a: nat, b: nat) -> nat
    decreases b,
{
    if b == 0 {
        a
    } else {
        gcd(b, a % b)
    }
}

/// Bézout coefficients: `x * a + y * b == gcd(a, b)`.
proof fn lemma_bezout(a: nat, b: nat) -> (xy: (int, int))
    ensures
        xy.0 * a + xy.1 * b == gcd(a, b),
    decreases b,
{
    if b == 0 {
        (1, 0)
    } else {
        let (x, y) = lemma_bezout(b, a % b);
        let q = (a / b) as int;
        vstd::arithmetic::div_mod::lemma_fundamental_div_mod(a as int, b as int);
        assert(y * a + (x - y * q) * b == x * b + y * (a % b)) by (nonlinear_arith)
            requires
                a == b * q + (a % b),
        ;
        (y, x - y * q)
    }
}

/// Euclid's lemma: a divisor of `a * d` prime to `a` divides `d`.
proof fn lemma_coprime_divides(a: nat, k: nat, d: nat)
    requires
        k > 0,
        gcd(a, k) == 1,
        ((a * d) as int) % (k as int) == 0,
    ensures
        d % k == 0,
{
    let (x, y) = lemma_bezout(a, k);
    let t = ((a * d) as int) / (k as int);
    vstd::arithmetic::div_mod::lemma_fundamental_div_mod((a * d) as int, k as int);
    assert(d == k * (x * t + y * d)) by (nonlinear_arith)
        requires
            x * a + y * k == 1,
            a * d == k * t,
    ;
    vstd::arithmetic::div_mod::lemma_mod_multiples_basic(x * t + y * d, k as int);
    assert((x * t + y * d) * k == k * (x * t + y * d)) by (nonlinear_arith);
}

/// With a step prime to the block length, and a step times length below 2^32 (so that
/// the 32-bit product never wraps), the interleaving sends no two bits to one place.
pub proof fn lemma_coprime_interleave_injective(k: u32, a: u32)
    requires
        k > 0,
        gcd(a as nat, k as nat) == 1,
        a * k < 0x1_0000_0000,
    ensures
        interl_injective(k, a),
{
    assert forall|i: u32, j: u32| 1 <= i <= k && 1 <= j <= k && i != j implies #[trigger] interl_pos(k, a, i)
        != #[trigger] interl_pos(k, a, j) by {
        let (lo, hi) = if i < j { (i, j) } else { (j, i) };
        assert(a * lo <= a * k && a * hi <= a * k) by (nonlinear_arith)
            requires
                lo <= k,
                hi <= k,
        ;
        vstd::arithmetic::div_mod::lemma_small_mod((a * lo) as nat, 0x1_0000_0000);
        vstd::arithmetic::div_mod::lemma_small_mod((a * hi) as nat, 0x1_0000_0000);
        if (a * lo) % (k as int) == (a * hi) % (k as int) {
            let d = (hi - lo) as nat;
            vstd::arithmetic::div_mod::lemma_fundamental_div_mod((a * lo) as int, k as int);
            vstd::arithmetic::div_mod::lemma_fundamental_div_mod((a * hi) as int, k as int);
            let q1 = (a * lo) / (k as int);
            let q2 = (a * hi) / (k as int);
            assert(a * d == k * (q2 - q1)) by (nonlinear_arith)
                requires
                    a * lo == k * q1 + (a * lo) % (k as int),
                    a * hi == k * q2 + (a * hi) % (k as int),
                    (a * lo) % (k as int) == (a * hi) % (k as int),
                    d == hi - lo,
            ;
            vstd::arithmetic::div_mod::lemma_mod_multiples_basic(q2 - q1, k as int);
            assert((q2 - q1) * k == k * (q2 - q1)) by (nonlinear_arith);
            lemma_coprime_divides(a as nat, k as nat, d);
            vstd::arithmetic::div_mod::lemma_small_mod(d, k as nat);
        }
    }
}

/// De-interleaving gives the block back whenever the step is prime to the block length
/// and step times length is below 2^32: position `p` of the de-interleaved block, read at
/// the interleaved position of bit `p + 1`, is input bit `p`.
pub proof fn lemma_coprime_interleave_roundtrip(k: u32, a: u32, input: Seq<u8>, out: Seq<u8>, p: int)
    requires
        k > 0,
        gcd(a as nat, k as nat) == 1,
        a * k < 0x1_0000_0000,
        out.len() >= k,
        input.len() >= k,
        0 <= p < k,
    ensures
        block_interleaved_upto(k, a, input, out, k as nat)[interl_pos(k, a, (p + 1) as u32) - 1] == input[p],
{
    lemma_coprime_interleave_injective(k, a);
    lemma_block_interleave_roundtrip(k, a, input, out, p);
}

/// `out` after matrix interleaving of the first `lines * columns` bits of `input`:
/// the input is read as `lines` rows of `columns` bits and written column after column.
pub open spec fn matrix_interleaved(lines: nat, columns: nat, input: Seq<u8>, out: Seq<u8>) -> Seq<u8> {
    Seq::new(
        out.len(),
        |p: int|
            if p < lines * columns {
                input[(p % (lines as int)) * columns + p / (lines as int)]
            } else {
                out[p]
            },
    )
}

/// `out` after matrix de-interleaving, the inverse reordering of `matrix_interleaved`.
pub open spec fn matrix_deinterleaved(lines: nat, columns: nat, input: Seq<u8>, out: Seq<u8>) -> Seq<u8> {
    Seq::new(
        out.len(),
        |p: int|
            if p < lines * columns {
                input[(p % (columns as int)) * lines + p / (columns as int)]
            } else {
                out[p]
            },
    )
}

proof fn lemma_div_below(p: int, lines: int, columns: int)
    requires
        0 <= p < lines * columns,
        columns > 0,
    ensures
        p / columns < lines,
{
    vstd::arithmetic::div_mod::lemma_fundamental_div_mod(p, columns);
    vstd::arithmetic::div_mod::lemma_mod_bound(p, columns);
    let j = p / columns;
    assert(j * columns <= p) by (nonlinear_arith)
        requires
            p == columns * j + p % columns,
            p % columns >= 0,
    ;
    assert(j < lines) by (nonlinear_arith)
        requires
            j * columns <= p,
            p < lines * columns,
            columns > 0,
    ;
}

proof fn lemma_cell_in_range(x: nat, y: nat, xs: nat, ys: nat)
    requires
        x < xs,
        y < ys,
    ensures
        x * ys + y < xs * ys,
        y * xs + x < xs * ys,
        xs * ys == ys * xs,
{
    assert(xs * ys == ys * xs) by (nonlinear_arith);
    assert(x * ys + y < xs * ys) by (nonlinear_arith)
        requires
            x < xs,
            y < ys,
    ;
    assert(y * xs + x < xs * ys) by (nonlinear_arith)
        requires
            x < xs,
            y < ys,
    ;
}

/// Matrix interleaving of the first `lines * columns` bits: the bit in row `j`, column
/// `i` of the input goes to place `i * lines + j`; the rest of the output is left as it was.
pub fn matrix_interleave(lines: usize, columns: usize, input: &[u8], output: &mut [u8])
    requires
        lines * columns <= usize::MAX,
        input@.len() >= lines * columns,
        old(output)@.len() >= lines * columns,
    ensures
        final(output)@ == matrix_interleaved(lines as nat, columns as nat, input@, old(output)@),
{
    let total = lines * columns;
    let ghost out0 = output@;
    let mut i: usize = 0;
    while i < columns
        invariant
            total == lines * columns,
            lines * columns <= usize::MAX,
            input@.len() >= total,
            out0.len() >= total,
            output@.len() == out0.len(),
            i <= columns,
            i * lines <= total,
            forall|p: int|
                0 <= p < i * lines ==> #[trigger] output@[p] == input@[(p % (lines as int)) * columns + p / (lines as int)],
            forall|p: int| i * lines <= p < out0.len() ==> #[trigger] output@[p] == out0[p],
        decreases columns - i,
    {
        let mut j: usize = 0;
        while j < lines
            invariant
                total == lines * columns,
                lines * columns <= usize::MAX,
                input@.len() >= total,
                out0.len() >= total,
                output@.len() == out0.len(),
                i < columns,
                j <= lines,
                forall|p: int|
                    0 <= p < i * lines + j ==> #[trigger] output@[p] == input@[(p % (lines as int)) * columns + p / (lines as int)],
                forall|p: int| i * lines + j <= p < out0.len() ==> #[trigger] output@[p] == out0[p],
            decreases lines - j,
        {
            proof {
                lemma_cell_in_range(i as nat, j as nat, columns as nat, lines as nat);
                lemma_fundamental_div_mod_converse((i * lines + j) as int, lines as int, i as int, j as int);
            }
            output[i * lines + j] = input[j * columns + i];
            j = j + 1;
        }
        proof {
            assert((i + 1) * lines == i * lines + lines) by (nonlinear_arith);
            assert((i + 1) * lines <= total) by (nonlinear_arith)
                requires
                    i < columns,
                    total == lines * columns,
            ;
        }
        i = i + 1;
    }
    proof {
        assert(columns * lines == lines * columns) by (nonlinear_arith);
        assert(output@ =~= matrix_interleaved(lines as nat, columns as nat, input@, out0));
    }
}

/// Matrix de-interleaving of the first `lines * columns` bits: the bit at place
/// `i * lines + j` goes back to row `j`, column `i`; the rest of the output is left as it was.
pub fn matrix_deinterleave(lines: usize, columns: usize, input: &[u8], output: &mut [u8])
    requires
        lines * columns <= usize::MAX,
        input@.len() >= lines * columns,
        old(output)@.len() >= lines * columns,
    ensures
        final(output)@ == matrix_deinterleaved(lines as nat, columns as nat, input@, old(output)@),
{
    let total = lines * columns;
    let ghost out0 = output@;
    let ghost c = columns as int;
    let mut i: usize = 0;
    while i < columns
        invariant
            total == lines * columns,
            lines * columns <= usize::MAX,
            c == columns,
            input@.len() >= total,
            out0.len() >= total,
            output@.len() == out0.len(),
            i <= columns,
            forall|p: int|
                0 <= p < total && p % c < i ==> #[trigger] output@[p] == input@[(p % c) * lines + p / c],
            forall|p: int| 0 <= p < out0.len() && !(p < total && p % c < i) ==> #[trigger] output@[p] == out0[p],
        decreases columns - i,
    {
        let mut j: usize = 0;
        while j < lines
            invariant
                total == lines * columns,
                lines * columns <= usize::MAX,
                c == columns,
                input@.len() >= total,
                out0.len() >= total,
                output@.len() == out0.len(),
                i < columns,
                j <= lines,
                forall|p: int|
                    0 <= p < total && (p % c < i || (p % c == i && p / c < j)) ==> #[trigger] output@[p] == input@[(p % c) * lines + p / c],
                forall|p: int|
                    0 <= p < out0.len() && !(p < total && (p % c < i || (p % c == i && p / c < j))) ==> #[trigger] output@[p]
                        == out0[p],
            decreases lines - j,
        {
            let ghost q = (j * columns + i) as int;
            proof {
                lemma_cell_in_range(i as nat, j as nat, columns as nat, lines as nat);
                lemma_fundamental_div_mod_converse(q, c, j as int, i as int);
                assert forall|p: int| #![trigger p % c, p / c] 0 <= p < total && p % c == i && p / c == j implies p == q by {
                    vstd::arithmetic::div_mod::lemma_fundamental_div_mod(p, c);
                    assert(c * j == j * c) by (nonlinear_arith);
                }
            }
            output[j * columns + i] = input[i * lines + j];
            j = j + 1;
        }
        proof {
            assert forall|p: int| 0 <= p < total implies #[trigger] (p / c) < lines by {
                lemma_div_below(p, lines as int, c);
            }
        }
        i = i + 1;
    }
    proof {
        assert forall|p: int| 0 <= p < total implies #[trigger] (p % c) < columns by {
            vstd::arithmetic::div_mod::lemma_mod_bound(p, c);
        }
        assert(output@ =~= matrix_deinterleaved(lines as nat, columns as nat, input@, out0));
    }
}

/// Matrix de-interleaving undoes matrix interleaving on the first `lines * columns` bits.
pub proof fn lemma_matrix_interleave_roundtrip(lines: nat, columns: nat, input: Seq<u8>, out1: Seq<u8>, out2: Seq<u8>)
    requires
        lines > 0,
        columns > 0,
        input.len() >= lines * columns,
        out1.len() >= lines * columns,
    ensures
        forall|p: int|
            0 <= p < lines * columns ==> #[trigger] matrix_deinterleaved(
                lines,
                columns,
                matrix_interleaved(lines, columns, input, out1),
                out2,
            )[p] == input[p] || p >= out2.len(),
{
    assert forall|p: int| 0 <= p < lines * columns && p < out2.len() implies #[trigger] matrix_deinterleaved(
        lines,
        columns,
        matrix_interleaved(lines, columns, input, out1),
        out2,
    )[p] == input[p] by {
        let i = p % (columns as int);
        let j = p / (columns as int);
        vstd::arithmetic::div_mod::lemma_fundamental_div_mod(p, columns as int);
        vstd::arithmetic::div_mod::lemma_mod_bound(p, columns as int);
        vstd::arithmetic::div_mod::lemma_div_pos_is_pos(p, columns as int);
        lemma_div_below(p, lines as int, columns as int);
        let q = i * (lines as int) + j;
        lemma_cell_in_range(i as nat, j as nat, columns as nat, lines as nat);
        lemma_fundamental_div_mod_converse(q, lines as int, i, j);
        assert(j * columns + i == p) by (nonlinear_arith)
            requires
                p == columns * j + i,
        ;
    }
}

} // verus!
