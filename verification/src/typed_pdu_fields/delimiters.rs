//! The o-, p- and m-bits that announce optional PDU elements.
use vstd::prelude::*;
use crate::bitbuffer::{BitBuffer, BitBufferView};
use crate::pdu_parse_error::PduParseErr;
use crate::bits::{bit_num, bits_value};

verus! {

/// Result of reading a one-bit delimiter named `name`: the bit at the cursor, or
/// `BufferEnded` naming the delimiter when the window has ended.
pub open spec fn delimiter_result(v: BitBufferView, name: &'static str) -> Result<bool, PduParseErr> {
    if v.pos < v.end {
        Ok(v.bits()[v.pos as int])
    } else {
        Err(PduParseErr::BufferEnded { field: Some(name) })
    }
}

/// Buffer state after reading a one-bit delimiter: the cursor moves by one when the bit was there.
pub open spec fn after_delimiter(v: BitBufferView) -> BitBufferView {
    if v.pos < v.end {
        BitBufferView { pos: v.pos + 1, ..v }
    } else {
        v
    }
}

fn read_delimiter(buffer: &mut BitBuffer, name: &'static str) -> (r: Result<bool, PduParseErr>)
    requires
        old(buffer)@.wf(),
    ensures
        r == delimiter_result(old(buffer)@, name),
        final(buffer)@ == after_delimiter(old(buffer)@),
{
    let ghost o = old(buffer)@;
    proof {
        assert(bits_value(o.bits(), o.pos as int, 1) == 2 * bits_value(o.bits(), o.pos as int, 0) + bit_num(o.bits()[o.pos as int]));
    }
    let v = buffer.read_field(1, name);
    match v {
        Ok(x) => Ok(x == 1),
        Err(e) => Err(e),
    }
}

/// Read the o-bit between type1 and type2/type3 elements
pub fn read_obit(buffer: &mut BitBuffer) -> (r: Result<bool, PduParseErr>)
    requires
        old(buffer)@.wf(),
    ensures
        r == delimiter_result(old(buffer)@, "obit"),
        final(buffer)@ == after_delimiter(old(buffer)@),
{
    read_delimiter(buffer, "obit")
}

/// Write the o-bit between type1 and type2/type3 elements
pub fn write_obit(buffer: &mut BitBuffer, val: u8)
    requires
        old(buffer)@.wf(),
        val <= 1,
        old(buffer)@.can_write(1),
    ensures
        final(buffer)@.wf(),
        final(buffer)@.bits() == old(buffer)@.bits_with(old(buffer)@.nbytes_after(1), 1, |k: int| val == 1),
        final(buffer)@.bytes.len() == old(buffer)@.nbytes_after(1),
        final(buffer)@.start == old(buffer)@.start,
        final(buffer)@.pos == old(buffer)@.pos + 1,
        final(buffer)@.end == old(buffer)@.end_after(1),
        final(buffer)@.autoexpand == old(buffer)@.autoexpand,
{
    buffer.write_bit(val);
}

/// Read a p-bit preceding a type2 element
pub fn read_pbit(buffer: &mut BitBuffer) -> (r: Result<bool, PduParseErr>)
    requires
        old(buffer)@.wf(),
    ensures
        r == delimiter_result(old(buffer)@, "pbit"),
        final(buffer)@ == after_delimiter(old(buffer)@),
{
    read_delimiter(buffer, "pbit")
}

/// Write the p-bit preceding a type2 element
pub fn write_pbit(buffer: &mut BitBuffer, val: u8)
    requires
        old(buffer)@.wf(),
        val <= 1,
        old(buffer)@.can_write(1),
    ensures
        final(buffer)@.wf(),
        final(buffer)@.bits() == old(buffer)@.bits_with(old(buffer)@.nbytes_after(1), 1, |k: int| val == 1),
        final(buffer)@.bytes.len() == old(buffer)@.nbytes_after(1),
        final(buffer)@.start == old(buffer)@.start,
        final(buffer)@.pos == old(buffer)@.pos + 1,
        final(buffer)@.end == old(buffer)@.end_after(1),
        final(buffer)@.autoexpand == old(buffer)@.autoexpand,
{
    buffer.write_bit(val);
}

/// Read an m-bit found before a type3 or type4 element, and trailing the message
pub fn read_mbit(buffer: &mut BitBuffer) -> (r: Result<bool, PduParseErr>)
    requires
        old(buffer)@.wf(),
    ensures
        r == delimiter_result(old(buffer)@, "mbit"),
        final(buffer)@ == after_delimiter(old(buffer)@),
{
    read_delimiter(buffer, "mbit")
}

/// Write the m-bit before a type3 or type4 element, and trailing the message
pub fn write_mbit(buffer: &mut BitBuffer, val: u8)
    requires
        old(buffer)@.wf(),
        val <= 1,
        old(buffer)@.can_write(1),
    ensures
        final(buffer)@.wf(),
        final(buffer)@.bits() == old(buffer)@.bits_with(old(buffer)@.nbytes_after(1), 1, |k: int| val == 1),
        final(buffer)@.bytes.len() == old(buffer)@.nbytes_after(1),
        final(buffer)@.start == old(buffer)@.start,
        final(buffer)@.pos == old(buffer)@.pos + 1,
        final(buffer)@.end == old(buffer)@.end_after(1),
        final(buffer)@.autoexpand == old(buffer)@.autoexpand,
{
    buffer.write_bit(val);
}

/// Reading back a written delimiter: after one bit `b` was written at cursor `w.pos`,
/// reading a delimiter from `w.pos` gives `b` and leaves the cursor where the write ended.
pub proof fn lemma_delimiter_roundtrip(w: BitBufferView, after: BitBufferView, b: bool, name: &'static str)
    requires
        w.wf(),
        w.wrote(after, 1, |k: int| b),
    ensures
        delimiter_result(BitBufferView { pos: w.pos, ..after }, name) == Ok::<bool, PduParseErr>(b),
        after_delimiter(BitBufferView { pos: w.pos, ..after }) == after,
{
    assert(after.bits()[w.pos as int] == b);
}

} // verus!
