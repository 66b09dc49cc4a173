//! Error control coding of the traffic channel: the speech CRC.
use vstd::prelude::*;
use crate::lmac::crc16::lsb_bits;

verus! {

/// Coefficient `m` of the GF(2) polynomial `q` (0 outside its range).
pub open spec fn coeff(q: Seq<bool>, m: int) -> bool {
    0 <= m < q.len() && q[m]
}

/// Coefficient `n` of `q(X) * G(X)` with `G(X) = X^7 + X^3 + 1`, over GF(2).
pub open spec fn times_g(q: Seq<bool>, n: int) -> bool {
    coeff(q, n - 7) != coeff(q, n - 3) != coeff(q, n)
}

/// Coefficients of `X^7 * I(X)` for the 60 class 2 bits `I(X)` (bit `k` is the
/// coefficient of `X^k`), degrees 0 to 66.
pub open spec fn speech_dividend(bits: Seq<u8>) -> Seq<bool> {
    Seq::new(67, |n: int| n >= 7 && bits[n - 7] & 1u8 == 1u8)
}

/// Whether an odd number of the bits are set.
pub open spec fn odd_parity(s: Seq<bool>) -> bool
    decreases s.len(),
{
    if s.len() == 0 {
        false
    } else {
        odd_parity(s.drop_last()) != s.last()
    }
}

/// Facts on bits held in bytes: xor of two bits is the bit of their inequality, and
/// the least significant bit of a byte is a bit.
pub proof fn lemma_bit_bytes(x: u8, y: u8, z: u8)
    by (bit_vector)
    requires
        x <= 1,
        y <= 1,
    ensures
        x ^ y <= 1,
        ((x ^ y) == 1) == ((x == 1) != (y == 1)),
        z & 1u8 <= 1,
{
}

proof fn lemma_odd_parity_push(a: Seq<bool>, b: Seq<bool>, i: int)
    requires
        0 <= i < b.len(),
    ensures
        odd_parity(a + b.take(i + 1)) == (odd_parity(a + b.take(i)) != b[i]),
{
    assert((a + b.take(i + 1)).drop_last() =~= a + b.take(i));
}

/// CRC of the 60 class 2 bits of a speech frame, for G(X) = 1 + X^3 + X^7: entries 0 to 6
/// are the coefficients of the remainder of `X^7 * I(X)` divided by `G(X)`, entry 7 the
/// parity of the 60 data bits and those 7 bits together.
pub fn speech_crc(class2_bits: &[u8]) -> (r: [u8; 8])
    requires
        class2_bits@.len() == 60,
    ensures
        forall|i: int| 0 <= i < 8 ==> #[trigger] r@[i] <= 1,
        exists|q: Seq<bool>|
            q.len() == 60 && forall|n: int|
                0 <= n < 67 ==> (#[trigger] speech_dividend(class2_bits@)[n] != (n < 7 && r@[n] == 1)) == times_g(q, n),
        (r@[7] == 1) == odd_parity(lsb_bits(class2_bits@) + Seq::new(7, |i: int| r@[i] == 1)),
{
    let ghost div = speech_dividend(class2_bits@);
    let mut w = [0u8; 67];
    let mut k: usize = 0;
    while k < 60
        invariant
            class2_bits@.len() == 60,
            div == speech_dividend(class2_bits@),
            k <= 60,
            w@.len() == 67,
            forall|n: int| 0 <= n < 67 ==> #[trigger] w@[n] <= 1,
            forall|n: int| 0 <= n < 7 + k ==> (#[trigger] w@[n] == 1) == div[n],
            forall|n: int| 7 + k <= n < 67 ==> #[trigger] w@[n] == 0,
        decreases 60 - k,
    {
        proof {
            lemma_bit_bytes(0, 0, class2_bits@[k as int]);
        }
        w[k + 7] = class2_bits[k] & 1;
        k = k + 1;
    }
    let ghost mut q: Seq<bool> = Seq::new(60, |m: int| false);
    let mut d: usize = 67;
    while d > 7
        invariant
            div == speech_dividend(class2_bits@),
            7 <= d <= 67,
            w@.len() == 67,
            q.len() == 60,
            forall|n: int| 0 <= n < 67 ==> #[trigger] w@[n] <= 1,
            forall|n: int| d <= n < 67 ==> #[trigger] w@[n] == 0,
            forall|m: int| 0 <= m < 60 && m + 7 < d ==> !#[trigger] q[m],
            forall|n: int| 0 <= n < 67 ==> (#[trigger] div[n] != (w@[n] == 1)) == times_g(q, n),
        decreases d,
    {
        d = d - 1;
        if w[d] == 1 {
            let ghost q0 = q;
            let ghost w0 = w@;
            proof {
                lemma_bit_bytes(w@[d as int], 1, 0);
                lemma_bit_bytes(w@[d - 4], 1, 0);
                lemma_bit_bytes(w@[d - 7], 1, 0);
            }
            w[d] ^= 1;
            w[d - 4] ^= 1;
            w[d - 7] ^= 1;
            proof {
                q = q.update(d - 7, true);
                assert forall|n: int| 0 <= n < 67 implies (#[trigger] div[n] != (w@[n] == 1)) == times_g(q, n) by {
                    assert(div[n] != (w0[n] == 1) == times_g(q0, n));
                }
            }
        }
    }
    let mut result = [0u8; 8];
    let mut i: usize = 0;
    while i < 7
        invariant
            i <= 7,
            w@.len() == 67,
            result@.len() == 8,
            forall|n: int| 0 <= n < 67 ==> #[trigger] w@[n] <= 1,
            forall|n: int| 0 <= n < i ==> #[trigger] result@[n] == w@[n],
            forall|n: int| i <= n < 8 ==> #[trigger] result@[n] == 0,
        decreases 7 - i,
    {
        result[i] = w[i];
        i = i + 1;
    }
    proof {
        assert forall|n: int| 0 <= n < 67 implies (#[trigger] speech_dividend(class2_bits@)[n] != (n < 7 && result@[n] == 1))
            == times_g(q, n) by {
            if n >= 7 {
                assert(w@[n] == 0);
            }
        }
    }
    let ghost lsb = lsb_bits(class2_bits@);
    let ghost crc7 = Seq::new(7, |j: int| result@[j] == 1);
    let mut parity = 0u8;
    let mut k: usize = 0;
    while k < 60
        invariant
            class2_bits@.len() == 60,
            lsb == lsb_bits(class2_bits@),
            k <= 60,
            parity <= 1,
            (parity == 1) == odd_parity(lsb.take(k as int)),
        decreases 60 - k,
    {
        let b = class2_bits[k];
        proof {
            lemma_bit_bytes(0, 0, b);
            lemma_bit_bytes(parity, b & 1u8, 0);
            assert(lsb.take(k + 1).drop_last() =~= lsb.take(k as int));
        }
        parity = parity ^ (b & 1);
        k = k + 1;
    }
    assert(lsb.take(60) =~= lsb);
    assert(lsb + crc7.take(0) =~= lsb);
    let mut i: usize = 0;
    while i < 7
        invariant
            i <= 7,
            result@.len() == 8,
            forall|n: int| 0 <= n < 8 ==> #[trigger] result@[n] <= 1,
            crc7 == Seq::new(7, |j: int| result@[j] == 1),
            parity <= 1,
            (parity == 1) == odd_parity(lsb + crc7.take(i as int)),
        decreases 7 - i,
    {
        proof {
            lemma_bit_bytes(parity, result@[i as int], 0);
            lemma_odd_parity_push(lsb, crc7, i as int);
        }
        parity = parity ^ result[i];
        i = i + 1;
    }
    assert(crc7.take(7) =~= crc7);
    result[7] = parity;
    assert(crc7 =~= Seq::new(7, |j: int| result@[j] == 1));
    result
}

} // verus!
