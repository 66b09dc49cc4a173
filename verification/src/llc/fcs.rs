//! Frame check sequence (CRC-32) of LLC PDUs.
use vstd::prelude::*;
use crate::bitbuffer::BitBuffer;
use crate::bits::{bits_value, fits_bits, value_bits};

verus! {

/// Generator polynomial of the frame check sequence (without the x^32 term).
pub const FCS_POLY: u32 = 0x04C11DB7;

/// One step of the FCS register for input bit `bit`.
pub open spec fn fcs_step(c: u32, bit: bool) -> u32 {
    let feedback = bit != ((c >> 31u32) & 1u32 == 1u32);
    let s = (c << 1u32) as u32;
    if feedback {
        s ^ FCS_POLY
    } else {
        s
    }
}

/// The FCS register after feeding `bits`, in order, starting from `c`.
pub open spec fn fcs_over(c: u32, bits: Seq<bool>) -> u32
    decreases bits.len(),
{
    if bits.len() == 0 {
        c
    } else {
        fcs_step(fcs_over(c, bits.drop_last()), bits.last())
    }
}

/// Start value of the register for a block of `len` bits: all ones, shifted
/// left by `32 - len` for blocks shorter than 32 bits.
pub open spec fn fcs_init(len: nat) -> u32 {
    if len < 32 {
        (0xFFFF_FFFFu32 << ((32 - len) as u32)) as u32
    } else {
        0xFFFF_FFFFu32
    }
}

/// The frame check sequence of a block of bits: the inverted final register.
pub open spec fn fcs_of(bits: Seq<bool>) -> u32 {
    !fcs_over(fcs_init(bits.len()), bits)
}

fn step(crc: u32, bit: u8) -> (r: u32)
    requires
        bit <= 1,
    ensures
        r == fcs_step(crc, bit == 1),
{
    let feedback = (bit ^ (crc >> 31u32) as u8) & 1;
    let s = crc << 1u32;
    let r = if feedback != 0 { s ^ 0x04C11DB7 } else { s };
    assert(r == fcs_step(crc, bit == 1)) by (bit_vector)
        requires
            bit <= 1,
            feedback == (bit ^ (crc >> 31u32) as u8) & 1,
            s == crc << 1u32,
            r == (if feedback != 0 { s ^ 0x04C11DB7u32 } else { s }),
    ;
    r
}

/// FCS of the bits `[start, end)` of the window of `bitbuf` (offsets from the window start).
pub fn compute_fcs(bitbuf: &BitBuffer, start: usize, end: usize) -> (r: u32)
    requires
        bitbuf@.wf(),
        start < end,
        end <= bitbuf@.end - bitbuf@.start,
    ensures
        r == fcs_of(bitbuf@.bits().subrange(bitbuf@.start + start, bitbuf@.start + end)),
{
    let ghost bits = bitbuf@.bits().subrange(bitbuf@.start + start, bitbuf@.start + end);
    let mut crc: u32 = 0xFFFFFFFF;
    let len = end - start;
    if len < 32 {
        crc = crc << ((32 - len) as u32);
    }
    let ghost c0 = crc;
    let mut i: usize = 0;
    while i < len
        invariant
            bitbuf@.wf(),
            len == end - start,
            start < end,
            end <= bitbuf@.end - bitbuf@.start,
            bits == bitbuf@.bits().subrange(bitbuf@.start + start, bitbuf@.start + end),
            c0 == fcs_init(len as nat),
            i <= len,
            crc == fcs_over(c0, bits.take(i as int)),
        decreases len - i,
    {
        let bit_pos = start + i;
        let v = bitbuf.peek_bits_startoffset(bit_pos, 1).unwrap();
        proof {
            reveal_with_fuel(bits_value, 2);
            assert(bits.take(i + 1).drop_last() =~= bits.take(i as int));
            assert(bits[i as int] == bitbuf@.bits()[bitbuf@.start + bit_pos]);
        }
        let bit = v as u8;
        crc = step(crc, bit);
        i = i + 1;
    }
    proof {
        assert(bits.take(len as int) =~= bits);
    }
    !crc
}

/// Whether the last 32 bits of the window hold the FCS of the bits from the cursor to them.
pub fn check_fcs(bitbuf: &BitBuffer) -> (r: bool)
    requires
        bitbuf@.wf(),
        bitbuf@.end - bitbuf@.pos != 32,
    ensures
        r == (bitbuf@.end - bitbuf@.pos >= 32 && fcs_of(bitbuf@.bits().subrange(bitbuf@.pos as int, bitbuf@.end - 32))
            == bits_value(bitbuf@.bits(), bitbuf@.end - 32, 32)),
{
    if bitbuf.get_len_remaining() < 32 {
        return false;
    }
    let fcs_computed = compute_fcs(bitbuf, bitbuf.get_pos(), bitbuf.get_len() - 32);
    let v = bitbuf.peek_bits_startoffset(bitbuf.get_len() - 32, 32).unwrap();
    proof {
        crate::bits::lemma_bits_value_bound(bitbuf@.bits(), bitbuf@.end - 32, 32);
        vstd::arithmetic::power2::lemma2_to64();
    }
    let fcs_extracted = v as u32;
    fcs_computed == fcs_extracted
}

/// A block followed by the 32 bits of its own frame check sequence passes the check:
/// the value read from the last 32 bits equals the FCS of the bits before them.
pub proof fn lemma_fcs_appended_checks(bits: Seq<bool>, pos: int, end: int)
    requires
        0 <= pos,
        pos + 32 <= end <= bits.len(),
        bits.subrange(end - 32, end) == value_bits(fcs_of(bits.subrange(pos, end - 32)) as u64, 32),
    ensures
        fcs_of(bits.subrange(pos, end - 32)) == bits_value(bits, end - 32, 32),
{
    let v = fcs_of(bits.subrange(pos, end - 32));
    let w = value_bits(v as u64, 32);
    assert forall|k: int| 0 <= k < 32 implies #[trigger] bits[end - 32 + k] == w[0 + k] by {
        assert(bits.subrange(end - 32, end)[k] == bits[end - 32 + k]);
    }
    crate::bits::lemma_bits_value_ext(bits, end - 32, w, 0, 32);
    let x = v as u64;
    assert(x >> 32u64 == 0) by (bit_vector)
        requires
            x <= 0xFFFF_FFFFu64,
    ;
    assert(fits_bits(x, 32));
    crate::bits::lemma_value_bits_roundtrip(x, 32);
}

} // verus!
