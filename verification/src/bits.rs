//! Mathematical model of bit strings: bytes seen as bits (most significant
//! bit first), the value of a run of bits, and the bits of an integer.
use vstd::prelude::*;
use vstd::arithmetic::power2::{pow2, lemma_pow2_unfold, lemma2_to64};

verus! {

/// Bit `k` of byte `b`, counting from the most significant bit (k = 0).
pub open spec fn byte_bit(b: u8, k: int) -> bool {
    ((b >> ((7 - k) as u8)) & 1u8) == 1u8
}

/// A byte sequence read as a bit sequence, most significant bit of each byte first.
pub open spec fn bytes_to_bits(bytes: Seq<u8>) -> Seq<bool> {
    Seq::new((bytes.len() * 8) as nat, |i: int| byte_bit(bytes[i / 8], i % 8))
}

/// Numeric value of a bit, 0 or 1.
pub open spec fn bit_num(b: bool) -> nat {
    if b { 1 } else { 0 }
}

/// Value of the `n` bits of `bits` starting at index `from`, read most significant first.
pub open spec fn bits_value(bits: Seq<bool>, from: int, n: nat) -> nat
    decreases n,
{
    if n == 0 {
        0
    } else {
        2 * bits_value(bits, from, (n - 1) as nat) + bit_num(bits[from + n - 1])
    }
}

/// True when `v` fits in `n` bits.
pub open spec fn fits_bits(v: u64, n: nat) -> bool {
    n >= 64 || (v >> (n as u64)) == 0
}

/// Bit `j` (0 = most significant) of `v` taken as an `n`-bit number.
pub open spec fn value_bit(v: u64, n: nat, j: int) -> bool {
    ((v >> ((n - 1 - j) as u64)) & 1u64) == 1u64
}

/// The `n` bits of `v`, most significant first.
pub open spec fn value_bits(v: u64, n: nat) -> Seq<bool> {
    Seq::new(n, |j: int| value_bit(v, n, j))
}

/// Character used to print a bit.
pub open spec fn bit_char(b: bool) -> char {
    if b { '1' } else { '0' }
}

/// A bit sequence printed as '0'/'1' characters.
pub open spec fn bits_to_chars(bits: Seq<bool>) -> Seq<char> {
    Seq::new(bits.len(), |i: int| bit_char(bits[i]))
}

/// A bit sequence as one byte (0 or 1) per bit.
pub open spec fn bits_to_bytes01(bits: Seq<bool>) -> Seq<u8> {
    Seq::new(bits.len(), |i: int| if bits[i] { 1u8 } else { 0u8 })
}

/// True when every byte of `s` is 0 or 1.
pub open spec fn all_01(s: Seq<u8>) -> bool {
    forall|i: int| 0 <= i < s.len() ==> #[trigger] s[i] <= 1
}

/// The value of a run of bits depends only on the bits of the run.
pub proof fn lemma_bits_value_ext(a: Seq<bool>, fa: int, b: Seq<bool>, fb: int, n: nat)
    requires
        forall|k: int| 0 <= k < n ==> #[trigger] a[fa + k] == b[fb + k],
    ensures
        bits_value(a, fa, n) == bits_value(b, fb, n),
    decreases n,
{
    if n > 0 {
        lemma_bits_value_ext(a, fa, b, fb, (n - 1) as nat);
        assert(a[fa + (n - 1)] == b[fb + (n - 1)]);
    }
}

/// The value of `n` bits is below `2^n`.
pub proof fn lemma_bits_value_bound(bits: Seq<bool>, from: int, n: nat)
    ensures
        bits_value(bits, from, n) < pow2(n),
    decreases n,
{
    if n > 0 {
        lemma_bits_value_bound(bits, from, (n - 1) as nat);
        lemma_pow2_unfold(n);
    } else {
        vstd::arithmetic::power2::lemma2_to64();
    }
}

/// Appending one bit to a run doubles its value and adds the bit.
pub proof fn lemma_bits_value_step(bits: Seq<bool>, from: int, n: nat)
    ensures
        bits_value(bits, from, n + 1) == 2 * bits_value(bits, from, n) + bit_num(bits[from + n]),
{
}

/// A value read from at most 64 bits fits in a `u64` and in its bit count.
pub proof fn lemma_bits_value_u64(bits: Seq<bool>, from: int, n: nat)
    requires
        n <= 64,
    ensures
        bits_value(bits, from, n) <= u64::MAX,
        fits_bits(bits_value(bits, from, n) as u64, n),
{
    lemma_bits_value_bound(bits, from, n);
    lemma2_to64();
    lemma_pow2_mono(n, 64);
    let v = bits_value(bits, from, n) as u64;
    lemma_fits_iff_lt_pow2(v, n);
}

/// `pow2` is monotonic.
pub proof fn lemma_pow2_mono(a: nat, b: nat)
    requires
        a <= b,
    ensures
        pow2(a) <= pow2(b),
    decreases b,
{
    if a < b {
        lemma_pow2_mono(a, (b - 1) as nat);
        lemma_pow2_unfold(b);
    }
}

/// For `n < 64`, `v` fits in `n` bits exactly when it is below `2^n`.
pub proof fn lemma_fits_iff_lt_pow2(v: u64, n: nat)
    ensures
        n <= 64 ==> (fits_bits(v, n) <==> v < pow2(n)),
{
    if n < 64 {
        vstd::bits::lemma_u64_shr_is_div(v, n as u64);
        vstd::bits::lemma_u64_pow2_no_overflow(n);
        if v < pow2(n) {
            vstd::arithmetic::div_mod::lemma_basic_div(v as int, pow2(n) as int);
        } else {
            vstd::arithmetic::div_mod::lemma_div_non_zero(v as int, pow2(n) as int);
        }
    } else if n == 64 {
        lemma2_to64();
    }
}

/// The bits of a value that fits in `n` bits read back as that value.
pub proof fn lemma_value_bits_roundtrip(v: u64, n: nat)
    requires
        n <= 64,
        fits_bits(v, n),
    ensures
        bits_value(value_bits(v, n), 0, n) == v,
    decreases n,
{
    if n == 0 {
        assert(v >> 0u64 == v) by (bit_vector);
    } else {
        let h: u64 = v >> 1u64;
        let nn: u64 = n as u64;
        assert(nn <= 64 && (nn >= 64 || v >> nn == 0) ==> (nn - 1 >= 64 || h >> ((nn - 1) as u64) == 0)) by (bit_vector)
            requires h == v >> 1u64, nn >= 1;
        lemma_value_bits_roundtrip(h, (n - 1) as nat);
        assert forall|k: int| 0 <= k < n - 1 implies #[trigger] value_bits(v, n)[0 + k] == value_bits(h, (n - 1) as nat)[0 + k] by {
            let s: u64 = (n - 2 - k) as u64;
            assert(s < 63);
            assert((v >> (s + 1)) & 1u64 == (h >> s) & 1u64) by (bit_vector)
                requires h == v >> 1u64, s < 63;
            assert((n - 1 - k) as u64 == s + 1);
        }
        lemma_bits_value_ext(value_bits(v, n), 0, value_bits(h, (n - 1) as nat), 0, (n - 1) as nat);
        assert(v == 2 * h + (if (v >> 0u64) & 1u64 == 1u64 { 1u64 } else { 0u64 })) by (bit_vector)
            requires h == v >> 1u64;
        assert(value_bits(v, n)[n - 1] == value_bit(v, n, n - 1));
        assert((n - 1 - (n - 1)) as u64 == 0u64);
    }
}

/// Setting bit `s` of a byte to `v` changes that bit only.
pub proof fn lemma_byte_set_bit(b: u8, s: u8, v: u8, t: u8)
    requires
        s < 8,
        t < 8,
        v <= 1,
    ensures
        ((((b & !(1u8 << s)) | (v << s)) >> t) & 1u8) == (if t == s { v } else { (b >> t) & 1u8 }),
{
    assert(((((b & !(1u8 << s)) | (v << s)) >> t) & 1u8) == (if t == s { v } else { (b >> t) & 1u8 })) by (bit_vector)
        requires s < 8, t < 8, v <= 1;
}

/// Xoring bit `s` of a byte with `v` changes that bit only.
pub proof fn lemma_byte_xor_bit(b: u8, s: u8, v: u8, t: u8)
    requires
        s < 8,
        t < 8,
        v <= 1,
    ensures
        (((b ^ (v << s)) >> t) & 1u8) == (if t == s { ((b >> t) & 1u8) ^ v } else { (b >> t) & 1u8 }),
        t == s ==> (((((b ^ (v << s)) >> t) & 1u8) == 1u8) <==> ((((b >> t) & 1u8) == 1u8) != (v == 1u8))),
{
    assert(t == s ==> (((((b ^ (v << s)) >> t) & 1u8) == 1u8) <==> ((((b >> t) & 1u8) == 1u8) != (v == 1u8)))) by (bit_vector)
        requires s < 8, t < 8, v <= 1;
    assert((((b ^ (v << s)) >> t) & 1u8) == (if t == s { ((b >> t) & 1u8) ^ v } else { (b >> t) & 1u8 })) by (bit_vector)
        requires s < 8, t < 8, v <= 1;
}

/// A bit extracted with a shift and a mask is 0 or 1.
pub proof fn lemma_and1_le1(b: u8, t: u8)
    ensures
        (b >> t) & 1u8 <= 1,
{
    assert((b >> t) & 1u8 <= 1) by (bit_vector);
}


/// The bits of the value of a run are the bits of the run.
pub proof fn lemma_value_bits_of_bits_value(s: Seq<bool>, from: int, n: nat)
    requires
        n <= 64,
    ensures
        forall|k: int| 0 <= k < n ==> #[trigger] value_bit(bits_value(s, from, n) as u64, n, k) == s[from + k],
    decreases n,
{
    if n > 0 {
        let m = (n - 1) as nat;
        lemma_value_bits_of_bits_value(s, from, m);
        lemma_bits_value_bound(s, from, m);
        lemma2_to64();
        vstd::arithmetic::power2::lemma2_to64_rest();
        lemma_pow2_mono(m, 63);
        let w: u64 = bits_value(s, from, m) as u64;
        let b: u64 = bit_num(s[from + m]) as u64;
        let v: u64 = bits_value(s, from, n) as u64;
        assert(v == 2 * w + b);
        assert forall|k: int| 0 <= k < n implies #[trigger] value_bit(v, n, k) == s[from + k] by {
            if k == m {
                assert((n - 1 - k) as u64 == 0u64);
                assert(v == 2 * w + b && b <= 1 ==> ((v >> 0u64) & 1u64 == 1u64 <==> b == 1u64)) by (bit_vector);
            } else {
                let sh: u64 = (n - 2 - k) as u64;
                assert(sh < 63);
                assert((n - 1 - k) as u64 == sh + 1);
                assert(v == 2 * w + b && b <= 1 && w < 0x8000_0000_0000_0000u64 && sh < 63 ==> (v >> (sh + 1)) & 1u64 == (w >> sh) & 1u64) by (bit_vector);
                assert(value_bit(w, m, k) == s[from + k]);
                assert((m - 1 - k) as u64 == sh);
            }
        }
    }
}

/// All bits of zero are clear.
pub proof fn lemma_value_bits_zero(n: nat)
    requires
        n <= 64,
    ensures
        forall|k: int| 0 <= k < n ==> !#[trigger] value_bit(0u64, n, k),
{
    assert forall|k: int| 0 <= k < n implies !#[trigger] value_bit(0u64, n, k) by {
        let sh: u64 = (n - 1 - k) as u64;
        assert((0u64 >> sh) & 1u64 == 0u64) by (bit_vector);
    }
}

/// All `n` bits of `u64::MAX >> (64 - n)` are set.
pub proof fn lemma_value_bits_ones(n: nat)
    requires
        1 <= n <= 64,
    ensures
        forall|k: int| 0 <= k < n ==> #[trigger] value_bit(0xFFFF_FFFF_FFFF_FFFFu64 >> ((64 - n) as u64), n, k),
        fits_bits(0xFFFF_FFFF_FFFF_FFFFu64 >> ((64 - n) as u64), n),
{
    let nn: u64 = n as u64;
    let r: u64 = (64 - n) as u64;
    assert(1 <= nn <= 64 && r == 64 - nn ==> (nn >= 64 || (0xFFFF_FFFF_FFFF_FFFFu64 >> r) >> nn == 0)) by (bit_vector);
    assert forall|k: int| 0 <= k < n implies #[trigger] value_bit(0xFFFF_FFFF_FFFF_FFFFu64 >> ((64 - n) as u64), n, k) by {
        let sh: u64 = (n - 1 - k) as u64;
        assert(1 <= nn <= 64 && r == 64 - nn && sh < nn ==> ((0xFFFF_FFFF_FFFF_FFFFu64 >> r) >> sh) & 1u64 == 1u64) by (bit_vector);
    }
}

} // verus!
