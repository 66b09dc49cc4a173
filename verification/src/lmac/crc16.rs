//! CRC-16 (ITU-T / X.25) over raw bits or byte streams.
use vstd::prelude::*;
use crate::bits::{byte_bit, bytes_to_bits};

verus! {

/// Generator polynomial x^16 + x^12 + x^5 + 1 (without the x^16 term).
pub const GEN_POLY: u16 = 0x1021;

/// Register value after running the CRC over a block followed by its inverted CRC.
pub const TETRA_CRC_OK: u16 = 0x1d0f;

/// One step of the CRC register for input bit `bit`.
pub open spec fn crc_step(crc: u16, bit: bool) -> u16 {
    let c: u16 = if bit { crc ^ 0x8000u16 } else { crc };
    if c & 0x8000u16 != 0 {
        ((c << 1u16) ^ GEN_POLY) as u16
    } else {
        (c << 1u16) as u16
    }
}

/// The CRC register after feeding `bits`, in order, starting from `crc`.
pub open spec fn crc_over(crc: u16, bits: Seq<bool>) -> u16
    decreases bits.len(),
{
    if bits.len() == 0 {
        crc
    } else {
        crc_step(crc_over(crc, bits.drop_last()), bits.last())
    }
}

/// Bytes holding one bit each, taken from their least significant bit.
pub open spec fn lsb_bits(s: Seq<u8>) -> Seq<bool> {
    Seq::new(s.len(), |i: int| s[i] & 1u8 == 1u8)
}

/// One step of the register as the code computes it.
fn step(crc: u16, bit: u16) -> (r: u16)
    requires
        bit <= 1,
    ensures
        r == crc_step(crc, bit == 1),
{
    let c = crc ^ (bit << 15u16);
    assert(c == (if bit == 1 { crc ^ 0x8000u16 } else { crc })) by (bit_vector)
        requires
            c == crc ^ (bit << 15u16),
            bit <= 1,
    ;
    if (c & 0x8000) != 0 {
        (c << 1u16) ^ GEN_POLY
    } else {
        c << 1u16
    }
}

/// Bit `bit` of `input`, counting the most significant bit of each byte first, as 0 or 1.
pub fn get_nth_bit(input: &[u8], bit: usize) -> (r: u16)
    requires
        bit / 8 < input@.len(),
    ensures
        r == (if byte_bit(input@[(bit / 8) as int], (bit % 8) as int) { 1u16 } else { 0u16 }),
{
    let byte = bit / 8;
    let bit_in_byte = (7 - (bit % 8)) as u8;
    let b = input[byte];
    let r = ((b >> bit_in_byte) & 1) as u16;
    assert(r == (if (b >> bit_in_byte) & 1u8 == 1u8 { 1u16 } else { 0u16 })) by (bit_vector)
        requires
            r == ((b >> bit_in_byte) & 1) as u16,
    ;
    r
}

proof fn lemma_crc_over_take(crc: u16, bits: Seq<bool>, i: int)
    requires
        0 <= i < bits.len(),
    ensures
        crc_over(crc, bits.take(i + 1)) == crc_step(crc_over(crc, bits.take(i)), bits[i]),
{
    assert(bits.take(i + 1).drop_last() =~= bits.take(i));
}

/// CRC-16 ITU-T over the first `number_bits` bits of a byte stream (most significant
/// bit of each byte first), starting from register value `crc`.
pub fn crc16_itut_bytes(crc: u16, input: &[u8], number_bits: usize) -> (r: u16)
    requires
        number_bits <= input@.len() * 8,
    ensures
        r == crc_over(crc, bytes_to_bits(input@).take(number_bits as int)),
{
    let ghost bits = bytes_to_bits(input@);
    let mut c = crc;
    let mut i: usize = 0;
    while i < number_bits
        invariant
            i <= number_bits,
            number_bits <= input@.len() * 8,
            bits == bytes_to_bits(input@),
            c == crc_over(crc, bits.take(i as int)),
        decreases number_bits - i,
    {
        let bit = get_nth_bit(input, i);
        proof {
            lemma_crc_over_take(crc, bits, i as int);
        }
        c = step(c, bit);
        i = i + 1;
    }
    c
}

/// CRC-16 ITU-T over bytes holding one bit each (their least significant bit), for
/// the first `number_bits` of them (all of them when there are fewer), starting from `crc`.
pub fn crc16_itut_bits(crc: u16, input: &[u8], number_bits: usize) -> (r: u16)
    ensures
        r == crc_over(
            crc,
            lsb_bits(input@).take(if number_bits < input@.len() { number_bits as int } else { input@.len() as int }),
        ),
{
    let n = if number_bits < input.len() { number_bits } else { input.len() };
    let ghost bits = lsb_bits(input@);
    let mut c = crc;
    let mut i: usize = 0;
    while i < n
        invariant
            i <= n,
            n <= input@.len(),
            bits == lsb_bits(input@),
            c == crc_over(crc, bits.take(i as int)),
        decreases n - i,
    {
        let b = input[i];
        let bit = (b & 1) as u16;
        assert(bit <= 1 && (bit == 1) == (b & 1u8 == 1u8)) by (bit_vector)
            requires
                bit == (b & 1) as u16,
        ;
        proof {
            lemma_crc_over_take(crc, bits, i as int);
        }
        c = step(c, bit);
        i = i + 1;
    }
    c
}

/// The standard CRC-ITU-T of TETRA (register starting at 0xffff) over the first `len`
/// one-bit-per-byte entries of `input`.
pub fn crc16_ccitt_bits(input: &[u8], len: usize) -> (r: u16)
    ensures
        r == crc_over(0xffffu16, lsb_bits(input@).take(if len < input@.len() { len as int } else { input@.len() as int })),
{
    crc16_itut_bits(0xffff, input, len)
}

/// The 16 bits of `w`, most significant first.
pub open spec fn word_bits(w: u16) -> Seq<bool> {
    Seq::new(16, |j: int| (w >> ((15 - j) as u16)) & 1u16 == 1u16)
}

/// The register after `k` zero bits fed from `x`.
pub open spec fn crc_zeros(x: u16, k: nat) -> u16
    decreases k,
{
    if k == 0 {
        x
    } else {
        crc_step(crc_zeros(x, (k - 1) as nat), false)
    }
}

/// Feeding two blocks one after the other is feeding their concatenation.
pub proof fn lemma_crc_over_append(crc: u16, a: Seq<bool>, b: Seq<bool>)
    ensures
        crc_over(crc, a + b) == crc_over(crc_over(crc, a), b),
    decreases b.len(),
{
    if b.len() > 0 {
        lemma_crc_over_append(crc, a, b.drop_last());
        assert((a + b).drop_last() =~= a + b.drop_last());
    }
}

proof fn lemma_crc_bit_facts(c: u16, u: u16, w: u16, j: u16)
    by (bit_vector)
    requires
        j < 15,
    ensures
        crc_step(c, (u & 0x8000u16) != 0) ^ (u << 1u16) == crc_step(c ^ u, false),
        ((w >> ((15u16 - j) as u16)) & 1u16 == 1u16) == (((w << j) & 0x8000u16) != 0),
        ((w >> 0u16) & 1u16 == 1u16) == (((w << 15u16) & 0x8000u16) != 0),
        (w << 15u16) << 1u16 == 0,
        (w << j) << 1u16 == w << ((j + 1) as u16),
        w << 0u16 == w,
        c ^ !c == 0xffffu16,
        c ^ 0u16 == c,
{
}

proof fn lemma_crc_zeros_ffff(x1: u16, x2: u16, x3: u16, x4: u16, x5: u16, x6: u16, x7: u16, x8: u16, x9: u16,
    x10: u16, x11: u16, x12: u16, x13: u16, x14: u16, x15: u16, x16: u16)
    by (bit_vector)
    requires
        x1 == crc_step(0xffffu16, false),
        x2 == crc_step(x1, false),
        x3 == crc_step(x2, false),
        x4 == crc_step(x3, false),
        x5 == crc_step(x4, false),
        x6 == crc_step(x5, false),
        x7 == crc_step(x6, false),
        x8 == crc_step(x7, false),
        x9 == crc_step(x8, false),
        x10 == crc_step(x9, false),
        x11 == crc_step(x10, false),
        x12 == crc_step(x11, false),
        x13 == crc_step(x12, false),
        x14 == crc_step(x13, false),
        x15 == crc_step(x14, false),
        x16 == crc_step(x15, false),
    ensures
        x16 == TETRA_CRC_OK,
{
}

/// After the first `j` bits of `w`, the register and the bits of `w` not yet fed,
/// together, are `j` zero steps of the register xored with `w`.
proof fn lemma_crc_word_prefix(c: u16, w: u16, j: nat)
    requires
        j <= 15,
    ensures
        crc_over(c, word_bits(w).take(j as int)) ^ (w << (j as u16)) == crc_zeros(c ^ w, j),
    decreases j,
{
    if j == 0 {
        lemma_crc_bit_facts(c, w, w, 0);
        assert(word_bits(w).take(0) =~= Seq::<bool>::empty());
    } else {
        lemma_crc_word_prefix(c, w, (j - 1) as nat);
        let jj = (j - 1) as u16;
        let s = crc_over(c, word_bits(w).take(jj as int));
        let u = w << jj;
        lemma_crc_bit_facts(s, u, w, jj);
        lemma_crc_over_take(c, word_bits(w), jj as int);
        assert(word_bits(w)[jj as int] == ((w >> ((15u16 - jj) as u16)) & 1u16 == 1u16));
    }
}

/// The register after all 16 bits of `w` is 16 zero steps from the register xored with `w`.
proof fn lemma_crc_word(c: u16, w: u16)
    ensures
        crc_over(c, word_bits(w)) == crc_zeros(c ^ w, 16),
{
    lemma_crc_word_prefix(c, w, 15);
    let s = crc_over(c, word_bits(w).take(15));
    let u = w << 15u16;
    lemma_crc_bit_facts(s, u, w, 0);
    lemma_crc_over_take(c, word_bits(w), 15);
    assert(word_bits(w)[15] == ((w >> 0u16) & 1u16 == 1u16));
    lemma_crc_bit_facts(crc_step(s, word_bits(w)[15]), u, w, 0);
    assert(word_bits(w).take(16) =~= word_bits(w));
}

/// Running the CRC over a block followed by the 16 bits of the inverted register value
/// leaves `TETRA_CRC_OK` in the register, whatever the block and the start value.
pub proof fn lemma_crc_check_residue(crc: u16, data: Seq<bool>)
    ensures
        crc_over(crc, data + word_bits(!crc_over(crc, data))) == TETRA_CRC_OK,
{
    let c = crc_over(crc, data);
    let w = !c;
    lemma_crc_over_append(crc, data, word_bits(w));
    lemma_crc_word(c, w);
    lemma_crc_bit_facts(c, 0, 0, 0);
    reveal_with_fuel(crc_zeros, 17);
    lemma_crc_zeros_ffff(
        crc_zeros(0xffffu16, 1),
        crc_zeros(0xffffu16, 2),
        crc_zeros(0xffffu16, 3),
        crc_zeros(0xffffu16, 4),
        crc_zeros(0xffffu16, 5),
        crc_zeros(0xffffu16, 6),
        crc_zeros(0xffffu16, 7),
        crc_zeros(0xffffu16, 8),
        crc_zeros(0xffffu16, 9),
        crc_zeros(0xffffu16, 10),
        crc_zeros(0xffffu16, 11),
        crc_zeros(0xffffu16, 12),
        crc_zeros(0xffffu16, 13),
        crc_zeros(0xffffu16, 14),
        crc_zeros(0xffffu16, 15),
        crc_zeros(0xffffu16, 16),
    );
}

} // verus!
