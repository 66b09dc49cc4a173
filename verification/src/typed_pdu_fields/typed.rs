//! Reading and writing optional type 2, 3 and 4 elements.
//!
//! A type 2 element is announced by a p-bit. Type 3 and 4 elements start with an
//! m-bit, a 4-bit element identifier and an 11-bit length; type 4 elements add a
//! 6-bit count of repeated elements.
use vstd::prelude::*;
use crate::bitbuffer::{
    BitBuffer, BitBufferView, lemma_seq_ok_first, lemma_seq_ok_next, lemma_seq_ok_prefix, lemma_wrote_one,
    lemma_wrote_then, sum_sizes,
};
use crate::bits::{bits_value, fits_bits, value_bit};
use crate::pdu_parse_error::PduParseErr;
use crate::typed_pdu_fields::{Type3FieldGeneric, Type4FieldGeneric};
use crate::typed_pdu_fields::delimiters;

verus! {

/// `v` with the cursor moved to `p`.
pub open spec fn at(v: BitBufferView, p: nat) -> BitBufferView {
    BitBufferView { pos: p, ..v }
}

/// Smaller of two numbers.
pub open spec fn min_nat(a: nat, b: nat) -> nat {
    if a < b {
        a
    } else {
        b
    }
}

/// The value of the `n` bits at absolute index `p`.
pub open spec fn field(v: BitBufferView, p: nat, n: nat) -> nat {
    bits_value(v.bits(), p as int, n)
}

/// Result and buffer state of reading an optional type 2 element of `n` bits named `name`.
pub open spec fn type2_generic(v: BitBufferView, obit: bool, n: nat, name: &'static str) -> (
    Result<Option<u64>, PduParseErr>,
    BitBufferView,
) {
    if !obit {
        (Ok(None), v)
    } else if v.pos >= v.end {
        (Err(PduParseErr::BufferEnded { field: Some("pbit") }), v)
    } else if !v.bits()[v.pos as int] {
        (Ok(None), at(v, v.pos + 1))
    } else if n <= 64 && v.pos + 1 + n <= v.end {
        (Ok(Some(field(v, v.pos + 1, n) as u64)), at(v, v.pos + 1 + n))
    } else {
        (Err(PduParseErr::BufferEnded { field: Some(name) }), at(v, v.pos + 1))
    }
}

/// Whether a type 3/4 element with identifier `id` is next: the m-bit is set and
/// the 4 identifier bits equal `id`; errors name the bits that were missing.
pub open spec fn type34_present(v: BitBufferView, id: u64) -> Result<bool, PduParseErr> {
    if v.pos >= v.end {
        Err(PduParseErr::BufferEnded { field: Some("peek_type34_mbit_and_id mbit") })
    } else if !v.bits()[v.pos as int] {
        Ok(false)
    } else if v.pos + 5 > v.end {
        Err(PduParseErr::BufferEnded { field: Some("peek_type34_mbit_and_id id_bits") })
    } else {
        Ok(field(v, v.pos + 1, 4) == id)
    }
}

/// Result and buffer state of reading an optional type 3 element with identifier `id`
/// without knowing its structure (only its first 64 bits are kept).
pub open spec fn type3_generic(v: BitBufferView, obit: bool, id: u64) -> (
    Result<Option<Type3FieldGeneric>, PduParseErr>,
    BitBufferView,
) {
    if !obit {
        (Ok(None), v)
    } else {
        match type34_present(v, id) {
            Err(e) => (Err(e), v),
            Ok(false) => (Ok(None), v),
            Ok(true) => {
                let p = v.pos + 5;
                if p + 11 > v.end {
                    (Err(PduParseErr::BufferEnded { field: Some("parse_type3_generic len_bits") }), at(v, p))
                } else {
                    let len = field(v, p, 11);
                    let q = p + 11;
                    let rb = min_nat(len, 64);
                    if q + rb > v.end {
                        (Err(PduParseErr::BufferEnded { field: Some("parse_type3_generic data") }), at(v, q))
                    } else {
                        (
                            Ok(
                                Some(
                                    Type3FieldGeneric {
                                        field_id: id,
                                        len: len as usize,
                                        data: field(v, q, rb) as u64,
                                    },
                                ),
                            ),
                            at(v, q + len),
                        )
                    }
                }
            },
        }
    }
}

/// A present type 3 element whose data was read fits in the window: skipping the
/// data beyond 64 bits does not pass the window end.
pub open spec fn type3_generic_fits(v: BitBufferView, obit: bool, id: u64) -> bool {
    (obit && type34_present(v, id) == Ok::<bool, PduParseErr>(true) && v.pos + 16 <= v.end && v.pos + 16
        + min_nat(field(v, v.pos + 5, 11), 64) <= v.end) ==> v.pos + 16 + field(v, v.pos + 5, 11) <= v.end
}

/// Result and buffer state of reading the header of a type 4 element with identifier
/// `id`: the element count and the length of the elements in bits.
pub open spec fn type4_header(v: BitBufferView, id: u64) -> (Result<Option<(usize, usize)>, PduParseErr>, BitBufferView) {
    match type34_present(v, id) {
        Err(e) => (Err(e), v),
        Ok(false) => (Ok(None), v),
        Ok(true) => {
            let p = v.pos + 5;
            if p + 11 > v.end {
                (Err(PduParseErr::BufferEnded { field: Some("parse_type4_header len_bits") }), at(v, p))
            } else if p + 17 > v.end {
                (Err(PduParseErr::BufferEnded { field: Some("parse_type4_header num_elems") }), at(v, p + 11))
            } else {
                (
                    Ok(Some((field(v, p + 11, 6) as usize, (field(v, p, 11) - 6) as usize))),
                    at(v, p + 17),
                )
            }
        },
    }
}

/// A present type 4 element declares a length of at least 6 bits (its count field).
pub open spec fn type4_header_sane(v: BitBufferView, id: u64) -> bool {
    (type34_present(v, id) == Ok::<bool, PduParseErr>(true) && v.pos + 16 <= v.end) ==> field(v, v.pos + 5, 11)
        >= 6
}

/// Result and buffer state of reading an optional type 4 element with identifier
/// `id` without knowing its structure (only its first 64 bits are kept).
pub open spec fn type4_generic(v: BitBufferView, obit: bool, id: u64) -> (
    Result<Option<Type4FieldGeneric>, PduParseErr>,
    BitBufferView,
) {
    if !obit {
        (Ok(None), v)
    } else {
        let (h, w) = type4_header(v, id);
        match h {
            Err(e) => (Err(e), w),
            Ok(None) => (Ok(None), w),
            Ok(Some((num, len))) => {
                let rb = min_nat(len as nat, 64);
                if w.pos + rb > w.end {
                    (Err(PduParseErr::BufferEnded { field: Some("parse_type4_header") }), w)
                } else {
                    (
                        Ok(
                            Some(
                                Type4FieldGeneric {
                                    field_id: id,
                                    len,
                                    elems: num,
                                    data: field(w, w.pos, rb) as u64,
                                },
                            ),
                        ),
                        at(w, w.pos + len as nat),
                    )
                }
            },
        }
    }
}

/// A present type 4 element whose data was read fits in the window: skipping the
/// data beyond 64 bits does not pass the window end.
pub open spec fn type4_generic_fits(v: BitBufferView, obit: bool, id: u64) -> bool {
    let (h, w) = type4_header(v, id);
    match h {
        Ok(Some((num, len))) => (obit && w.pos + min_nat(len as nat, 64) <= w.end) ==> w.pos + len <= w.end,
        _ => true,
    }
}

/// The error or value of a parsed element, wrapped as a present element.
pub open spec fn present<T>(pr: Result<T, PduParseErr>) -> Result<Option<T>, PduParseErr> {
    match pr {
        Ok(x) => Ok(Some(x)),
        Err(e) => Err(e),
    }
}

/// A parser or writer leaves the buffer well formed, keeps the window start and does
/// not move the cursor backwards.
pub open spec fn keeps_cursor(before: BitBufferView, after: BitBufferView) -> bool {
    &&& after.wf()
    &&& after.start == before.start
    &&& after.pos >= before.pos
}

/// Parse a type 2 element of `num_bits` bits when the o-bit is set and its p-bit is 1.
pub fn parse_type2_generic(obit: bool, buffer: &mut BitBuffer, num_bits: usize, field_name: &'static str) -> (r: Result<
    Option<u64>,
    PduParseErr,
>)
    requires
        old(buffer)@.wf(),
    ensures
        (r, final(buffer)@) == type2_generic(old(buffer)@, obit, num_bits as nat, field_name),
{
    if !obit {
        return Ok(None);
    }
    match delimiters::read_pbit(buffer) {
        Ok(true) => {
            match buffer.read_field(num_bits, field_name) {
                Ok(v) => Ok(Some(v)),
                Err(e) => Err(e),
            }
        },
        Ok(false) => Ok(None),
        Err(e) => Err(e),
    }
}

/// Parse a type 2 element with `parser` when the o-bit is set and its p-bit is 1.
pub fn parse_type2_struct<T, F>(obit: bool, buffer: &mut BitBuffer, parser: F) -> (r: Result<Option<T>, PduParseErr>) where
    F: FnOnce(&mut BitBuffer) -> Result<T, PduParseErr>,

    requires
        old(buffer)@.wf(),
        forall|b: &mut BitBuffer| (*b)@ == at(old(buffer)@, old(buffer)@.pos + 1) ==> call_requires(parser, (b,)),
    ensures
        !obit ==> r == Ok::<Option<T>, PduParseErr>(None) && final(buffer)@ == old(buffer)@,
        obit && old(buffer)@.pos >= old(buffer)@.end ==> r == Err::<Option<T>, PduParseErr>(
            PduParseErr::BufferEnded { field: Some("pbit") },
        ) && final(buffer)@ == old(buffer)@,
        obit && old(buffer)@.pos < old(buffer)@.end && !old(buffer)@.bits()[old(buffer)@.pos as int] ==> r == Ok::<
            Option<T>,
            PduParseErr,
        >(None) && final(buffer)@ == at(old(buffer)@, old(buffer)@.pos + 1),
        obit && old(buffer)@.pos < old(buffer)@.end && old(buffer)@.bits()[old(buffer)@.pos as int] ==> exists|
            b: &mut BitBuffer,
            pr: Result<T, PduParseErr>,
        |
            (*b)@ == at(old(buffer)@, old(buffer)@.pos + 1) && *final(b) == *final(buffer) && call_ensures(
                parser,
                (b,),
                pr,
            ) && r == present(pr),
{
    if !obit {
        return Ok(None);
    }
    match delimiters::read_pbit(buffer) {
        Ok(true) => {
            let value = parser(buffer)?;
            Ok(Some(value))
        },
        Ok(false) => Ok(None),
        Err(e) => Err(e),
    }
}

/// Write a type 2 element: when `value` is `Some(v)`, a p-bit 1 then `v` in `len`
/// bits; when `None`, a p-bit 0. Nothing is written when the o-bit is clear, and then
/// `value` must be `None`.
pub fn write_type2_generic(obit: bool, buffer: &mut BitBuffer, value: Option<u64>, len: usize)
    requires
        old(buffer)@.wf(),
        !obit ==> value is None,
        obit && value is None ==> old(buffer)@.can_write(1),
        obit ==> (value matches Some(v) ==> len <= 64 && fits_bits(v, len as nat) && old(buffer)@.can_write_all(
            seq![1nat, len as nat],
        )),
    ensures
        !obit ==> *final(buffer) == *old(buffer),
        obit && value is None ==> old(buffer)@.wrote(final(buffer)@, 1, |k: int| false),
        obit ==> (value matches Some(v) ==> old(buffer)@.wrote_all(
            final(buffer)@,
            seq![1nat, len as nat],
            |k: int| k == 0 || value_bit(v, len as nat, k - 1),
        )),
{
    if !obit {
        return ;
    }
    match value {
        Some(v) => {
            let ghost o = old(buffer)@;
            delimiters::write_pbit(buffer, 1);
            let ghost mid = buffer@;
            proof {
                lemma_wrote_one(o, mid, 1, |k: int| 1u8 == 1);
                lemma_seq_ok_first(o, mid, seq![1nat, len as nat], |k: int| 1u8 == 1);
                assert(seq![1nat, len as nat].drop_first() =~= seq![len as nat]);
            }
            buffer.write_bits(v, len);
            proof {
                assert(seq![1nat].push(len as nat) =~= seq![1nat, len as nat]);
                reveal_with_fuel(sum_sizes, 2);
                lemma_wrote_then(
                    o,
                    mid,
                    buffer@,
                    seq![1nat],
                    |k: int| 1u8 == 1,
                    len as nat,
                    |k: int| value_bit(v, len as nat, k),
                    |k: int| k == 0 || value_bit(v, len as nat, k - 1),
                );
            }
        },
        None => {
            delimiters::write_pbit(buffer, 0);
        },
    }
}


/// Reading back a written type 2 element: after `write_type2_generic` with the o-bit set
/// wrote `value` in `len` bits from cursor `w.pos`, reading from `w.pos` gives `value`
/// back and leaves the cursor where the write ended.
pub proof fn lemma_type2_roundtrip(w: BitBufferView, after: BitBufferView, value: Option<u64>, len: nat, name: &'static str)
    requires
        w.wf(),
        len <= 64,
        value matches Some(v) ==> fits_bits(v, len) && w.wrote_all(
            after,
            seq![1nat, len],
            |k: int| k == 0 || value_bit(v, len, k - 1),
        ),
        value is None ==> w.wrote(after, 1, |k: int| false),
    ensures
        type2_generic(at(after, w.pos), true, len, name) == (Ok::<Option<u64>, PduParseErr>(value), after),
{
    let r = at(after, w.pos);
    match value {
        Some(v) => {
            reveal_with_fuel(sum_sizes, 3);
            assert(seq![1nat, len].drop_first() =~= seq![len]);
            assert(seq![len].drop_first() =~= Seq::<nat>::empty());
            assert(after.pos == w.pos + 1 + len);
            assert(after.bits()[w.pos as int]);
            assert forall|k: int| 0 <= k < len implies #[trigger] after.bits()[(w.pos + 1) + k] == value_bit(
                v,
                len,
                k,
            ) by {
                assert(after.bits()[(w.pos + 1) + k] == (k + 1 == 0 || value_bit(v, len, k + 1 - 1)));
            }
            lemma_field_of_written(after.bits(), (w.pos + 1) as int, v, len);
            assert(at(r, r.pos + 1 + len) == after);
        },
        None => {
            assert(!after.bits()[w.pos as int]);
            assert(at(r, r.pos + 1) == after);
        },
    }
}

/// Write a type 2 element with `writer`: when `value` is `Some(v)`, a p-bit 1 then what
/// the writer writes for `v`; when `None`, a p-bit 0. Nothing is written when the o-bit
/// is clear, and then `value` must be `None`.
pub fn write_type2_struct<T, F>(obit: bool, buffer: &mut BitBuffer, value: &Option<T>, writer: F) -> (r: Result<
    (),
    PduParseErr,
>) where F: Fn(&T, &mut BitBuffer) -> Result<(), PduParseErr>
    requires
        old(buffer)@.wf(),
        !obit ==> value is None,
        obit ==> old(buffer)@.can_write(1),
        obit ==> (value matches Some(v) ==> forall|b: &mut BitBuffer|
            old(buffer)@.wrote((*b)@, 1, |k: int| true) ==> call_requires(writer, (v, b))),
    ensures
        !obit ==> r is Ok && *final(buffer) == *old(buffer),
        obit && value is None ==> r is Ok && old(buffer)@.wrote(final(buffer)@, 1, |k: int| false),
        obit ==> (value matches Some(v) ==> exists|b: &mut BitBuffer, wr: Result<(), PduParseErr>|
            old(buffer)@.wrote((*b)@, 1, |k: int| true) && *final(b) == *final(buffer) && call_ensures(
                writer,
                (v, b),
                wr,
            ) && r == wr),
{
    if !obit {
        return Ok(());
    }
    match value {
        Some(v) => {
            delimiters::write_pbit(buffer, 1);
            writer(v, buffer)?;
            Ok(())
        },
        None => {
            delimiters::write_pbit(buffer, 0);
            Ok(())
        },
    }
}

/// Whether a type 3/4 element with identifier `expected_id` is next, without moving
/// the cursor: the m-bit must be set and the 4 identifier bits equal the identifier.
fn peek_type34_mbit_and_id(buffer: &BitBuffer, expected_id: u64) -> (r: Result<bool, PduParseErr>)
    requires
        buffer@.wf(),
    ensures
        r == type34_present(buffer@, expected_id),
{
    let ghost v = buffer@;
    proof {
        assert(bits_value(v.bits(), v.pos as int, 1) == 2 * bits_value(v.bits(), v.pos as int, 0) + crate::bits::bit_num(
            v.bits()[v.pos as int],
        ));
    }
    let mbit = buffer.peek_bits(1);
    match mbit {
        Some(m) => {
            if m == 0 {
                Ok(false)
            } else {
                let id_bits = buffer.peek_bits_posoffset(1, 4);
                match id_bits {
                    Some(id) => Ok(id == expected_id),
                    None => Err(PduParseErr::BufferEnded { field: Some("peek_type34_mbit_and_id id_bits") }),
                }
            }
        },
        None => Err(PduParseErr::BufferEnded { field: Some("peek_type34_mbit_and_id mbit") }),
    }
}

/// Read an optional type 3 element with identifier `expected_id` without knowing its
/// structure: its first 64 data bits are kept and the rest is skipped.
pub fn parse_type3_generic(obit: bool, buffer: &mut BitBuffer, expected_id: u64) -> (r: Result<
    Option<Type3FieldGeneric>,
    PduParseErr,
>)
    requires
        old(buffer)@.wf(),
        type3_generic_fits(old(buffer)@, obit, expected_id),
    ensures
        (r, final(buffer)@) == type3_generic(old(buffer)@, obit, expected_id),
{
    if !obit {
        return Ok(None);
    }
    let id = expected_id;
    let field_present = peek_type34_mbit_and_id(buffer, id)?;
    if !field_present {
        return Ok(None);
    }
    let ghost v = old(buffer)@;
    proof {
        crate::bits::lemma_bits_value_bound(v.bits(), (v.pos + 5) as int, 11);
        vstd::arithmetic::power2::lemma2_to64();
    }
    buffer.seek_rel(5);
    let len_bits = match buffer.read_bits(11) {
        Some(x) => x as usize,
        None => return Err(PduParseErr::BufferEnded { field: Some("parse_type3_generic len_bits") }),
    };
    assert(len_bits == field(v, v.pos + 5, 11));
    let read_bits = if len_bits > 64 { 64 } else { len_bits };
    let data = match buffer.read_bits(read_bits) {
        Some(x) => x,
        None => return Err(PduParseErr::BufferEnded { field: Some("parse_type3_generic data") }),
    };
    if len_bits > 64 {
        buffer.seek_rel((len_bits - 64) as isize);
    }
    Ok(Some(Type3FieldGeneric { field_id: id, len: len_bits, data }))
}

/// Parse an optional type 3 element with identifier `expected_id` with `parser`, which
/// must read exactly the element's declared length.
pub fn parse_type3_struct<T, F>(obit: bool, buffer: &mut BitBuffer, expected_id: u64, parser: F) -> (r: Result<
    Option<T>,
    PduParseErr,
>) where F: FnOnce(&mut BitBuffer) -> Result<T, PduParseErr>
    requires
        old(buffer)@.wf(),
        forall|b: &mut BitBuffer| (*b)@ == at(old(buffer)@, old(buffer)@.pos + 16) ==> call_requires(parser, (b,)),
        forall|b: &mut BitBuffer, pr: Result<T, PduParseErr>|
            call_ensures(parser, (b,), pr) ==> keeps_cursor((*b)@, final(b)@),
    ensures
        !obit ==> r == Ok::<Option<T>, PduParseErr>(None) && final(buffer)@ == old(buffer)@,
        obit ==> (type34_present(old(buffer)@, expected_id) matches Err(e) ==> r == Err::<Option<T>, PduParseErr>(e)
            && final(buffer)@ == old(buffer)@),
        obit && type34_present(old(buffer)@, expected_id) == Ok::<bool, PduParseErr>(false) ==> r == Ok::<
            Option<T>,
            PduParseErr,
        >(None) && final(buffer)@ == old(buffer)@,
        obit && type34_present(old(buffer)@, expected_id) == Ok::<bool, PduParseErr>(true) && old(buffer)@.pos + 16
            > old(buffer)@.end ==> r == Err::<Option<T>, PduParseErr>(
            PduParseErr::BufferEnded { field: Some("parse_type3_struct len_bits") },
        ) && final(buffer)@ == at(old(buffer)@, old(buffer)@.pos + 5),
        obit && type34_present(old(buffer)@, expected_id) == Ok::<bool, PduParseErr>(true) && old(buffer)@.pos + 16
            <= old(buffer)@.end ==> exists|b: &mut BitBuffer, pr: Result<T, PduParseErr>|
            (*b)@ == at(old(buffer)@, old(buffer)@.pos + 16) && *final(b) == *final(buffer) && call_ensures(
                parser,
                (b,),
                pr,
            ) && r == (match pr {
                Err(e) => Err(e),
                Ok(x) => if final(b)@.pos - (*b)@.pos == field(old(buffer)@, old(buffer)@.pos + 5, 11) {
                    Ok(Some(x))
                } else {
                    Err(
                        PduParseErr::InconsistentLength {
                            expected: field(old(buffer)@, old(buffer)@.pos + 5, 11) as usize,
                            found: (final(b)@.pos - (*b)@.pos) as usize,
                        },
                    )
                },
            }),
{
    if !obit {
        return Ok(None);
    }
    let id = expected_id;
    let field_present = peek_type34_mbit_and_id(buffer, id)?;
    if !field_present {
        return Ok(None);
    }
    let ghost v = old(buffer)@;
    proof {
        crate::bits::lemma_bits_value_bound(v.bits(), (v.pos + 5) as int, 11);
        vstd::arithmetic::power2::lemma2_to64();
    }
    buffer.seek_rel(5);
    let len_bits = match buffer.read_bits(11) {
        Some(x) => x as usize,
        None => return Err(PduParseErr::BufferEnded { field: Some("parse_type3_struct len_bits") }),
    };
    assert(len_bits == field(v, v.pos + 5, 11));
    let start_pos = buffer.get_pos();
    let result = parser(buffer)?;
    let found = buffer.get_pos() - start_pos;
    if found != len_bits {
        return Err(PduParseErr::InconsistentLength { expected: len_bits, found });
    }
    Ok(Some(result))
}

/// The bits of a type 3/4 header start: m-bit 1 then the 4-bit identifier.
pub open spec fn header_bits(id: u64) -> spec_fn(int) -> bool {
    |k: int| k == 0 || value_bit(id, 4, k - 1)
}

/// Write the start of a type 3/4 element: m-bit 1 then the 4-bit `field_type`.
pub fn write_type34_header_generic(buffer: &mut BitBuffer, field_type: u64)
    requires
        old(buffer)@.wf(),
        field_type < 16,
        old(buffer)@.can_write_all(seq![1nat, 4nat]),
    ensures
        old(buffer)@.wrote_all(final(buffer)@, seq![1nat, 4nat], header_bits(field_type)),
{
    let ghost o = old(buffer)@;
    delimiters::write_mbit(buffer, 1);
    let ghost mid = buffer@;
    proof {
        lemma_wrote_one(o, mid, 1, |k: int| 1u8 == 1);
        lemma_seq_ok_first(o, mid, seq![1nat, 4nat], |k: int| 1u8 == 1);
        assert(seq![1nat, 4nat].drop_first() =~= seq![4nat]);
        assert(field_type < 16 ==> field_type >> 4u64 == 0) by (bit_vector);
    }
    buffer.write_bits(field_type, 4);
    proof {
        assert(seq![1nat].push(4nat) =~= seq![1nat, 4nat]);
        reveal_with_fuel(sum_sizes, 2);
        lemma_wrote_then(o, mid, buffer@, seq![1nat], |k: int| 1u8 == 1, 4, |k: int| value_bit(field_type, 4, k), header_bits(field_type));
    }
}

/// The bits of a whole generic type 3 element: header, 11-bit length, then the data.
pub open spec fn type3_generic_bits(id: u64, elem: Type3FieldGeneric) -> spec_fn(int) -> bool {
    |k: int|
        if k < 5 {
            header_bits(id)(k)
        } else if k < 16 {
            value_bit(elem.len as u64, 11, k - 5)
        } else {
            value_bit(elem.data, elem.len as nat, k - 16)
        }
}

/// Write an optional generic type 3 element: header, 11-bit length and data. Nothing
/// is written for `None`; a value with the o-bit clear is refused.
pub fn write_type3_generic(obit: bool, buffer: &mut BitBuffer, value: &Option<Type3FieldGeneric>, field_id: u64) -> (r: Result<
    (),
    PduParseErr,
>)
    requires
        old(buffer)@.wf(),
        obit ==> (value matches Some(elem) ==> field_id < 16 && elem.len <= 64 && fits_bits(elem.data, elem.len as nat)
            && old(buffer)@.can_write_all(seq![1nat, 4nat, 11nat, elem.len as nat])),
    ensures
        !obit && value is Some ==> r == Err::<(), PduParseErr>(
            PduParseErr::InvalidValue { field: "write_type3_generic", value: field_id },
        ) && *final(buffer) == *old(buffer),
        value is None ==> r is Ok && *final(buffer) == *old(buffer),
        obit ==> (value matches Some(elem) ==> r is Ok && old(buffer)@.wrote_all(
            final(buffer)@,
            seq![1nat, 4nat, 11nat, elem.len as nat],
            type3_generic_bits(field_id, *elem),
        )),
{
    let id = field_id;
    if !obit && value.is_some() {
        return Err(PduParseErr::InvalidValue { field: "write_type3_generic", value: id });
    }
    if let Some(elem) = value {
        let ghost o = old(buffer)@;
        let ghost sizes = seq![1nat, 4nat, 11nat, elem.len as nat];
        proof {
            assert(seq![1nat, 4nat, 11nat, elem.len as nat] =~= seq![1nat, 4nat].push(11nat).push(elem.len as nat));
            assert(seq![1nat, 4nat, 11nat] =~= seq![1nat, 4nat].push(11nat));
            assert(seq![1nat, 4nat, 11nat, elem.len as nat] =~= seq![1nat, 4nat, 11nat].push(elem.len as nat));
            lemma_seq_ok_prefix(o, seq![1nat, 4nat].push(11nat), elem.len as nat);
            lemma_seq_ok_prefix(o, seq![1nat, 4nat], 11nat);
        }
        write_type34_header_generic(buffer, id);
        let ghost m1 = buffer@;
        proof {
            lemma_seq_ok_next(o, m1, seq![1nat, 4nat], 11nat, header_bits(id));
            let l: u64 = elem.len as u64;
            assert(l <= 64 ==> l >> 11u64 == 0) by (bit_vector);
        }
        buffer.write_bits(elem.len as u64, 11);
        let ghost m2 = buffer@;
        let ghost f2 = |k: int| if k < 5 { header_bits(id)(k) } else { value_bit(elem.len as u64, 11, k - 5) };
        proof {
            reveal_with_fuel(sum_sizes, 3);
            lemma_wrote_then(o, m1, m2, seq![1nat, 4nat], header_bits(id), 11, |k: int| value_bit(elem.len as u64, 11, k), f2);
            lemma_seq_ok_next(o, m2, seq![1nat, 4nat, 11nat], elem.len as nat, f2);
        }
        buffer.write_bits(elem.data, elem.len);
        proof {
            reveal_with_fuel(sum_sizes, 4);
            lemma_wrote_then(o, m2, buffer@, seq![1nat, 4nat, 11nat], f2, elem.len as nat, |k: int| value_bit(elem.data, elem.len as nat, k), type3_generic_bits(id, *elem));
        }
    }
    Ok(())
}


/// Reading back a written generic type 3 element: after `write_type3_generic` with the
/// o-bit set wrote `elem` under identifier `id` from cursor `w.pos`, reading that
/// identifier from `w.pos` gives the element's length and data back and leaves the
/// cursor where the write ended.
pub proof fn lemma_type3_roundtrip(w: BitBufferView, after: BitBufferView, id: u64, elem: Type3FieldGeneric)
    requires
        w.wf(),
        id < 16,
        elem.len <= 64,
        fits_bits(elem.data, elem.len as nat),
        w.wrote_all(after, seq![1nat, 4nat, 11nat, elem.len as nat], type3_generic_bits(id, elem)),
    ensures
        type3_generic(at(after, w.pos), true, id) == (
            Ok::<Option<Type3FieldGeneric>, PduParseErr>(
                Some(Type3FieldGeneric { field_id: id, len: elem.len, data: elem.data }),
            ),
            after,
        ),
{
    let r = at(after, w.pos);
    let n = elem.len as nat;
    let f = type3_generic_bits(id, elem);
    let b = after.bits();
    reveal_with_fuel(sum_sizes, 5);
    assert(seq![1nat, 4nat, 11nat, n].drop_first() =~= seq![4nat, 11nat, n]);
    assert(seq![4nat, 11nat, n].drop_first() =~= seq![11nat, n]);
    assert(seq![11nat, n].drop_first() =~= seq![n]);
    assert(seq![n].drop_first() =~= Seq::<nat>::empty());
    assert(after.pos == w.pos + 16 + n);
    assert(b[w.pos as int]) by {
        assert(b[w.pos as int] == f(0));
    }
    assert forall|k: int| 0 <= k < 4 implies #[trigger] b[(w.pos + 1) + k] == value_bit(id, 4, k) by {
        assert(b[(w.pos + 1) + k] == f(k + 1));
    }
    assert(id >> 4u64 == 0) by (bit_vector)
        requires
            id < 16,
    ;
    lemma_field_of_written(b, (w.pos + 1) as int, id, 4);
    let l = elem.len as u64;
    assert(l >> 11u64 == 0) by (bit_vector)
        requires
            l <= 64,
    ;
    assert forall|k: int| 0 <= k < 11 implies #[trigger] b[(w.pos + 5) + k] == value_bit(l, 11, k) by {
        assert(b[(w.pos + 5) + k] == f(k + 5));
    }
    lemma_field_of_written(b, (w.pos + 5) as int, l, 11);
    assert forall|k: int| 0 <= k < n implies #[trigger] b[(w.pos + 16) + k] == value_bit(elem.data, n, k) by {
        assert(b[(w.pos + 16) + k] == f(k + 16));
    }
    lemma_field_of_written(b, (w.pos + 16) as int, elem.data, n);
    assert(type34_present(r, id) == Ok::<bool, PduParseErr>(true));
    assert(at(r, w.pos + 16 + n) == after);
}

/// Bits of the start of a type 3 element before its length is known: header then 11 zero bits.
pub open spec fn type3_start_bits(id: u64) -> spec_fn(int) -> bool {
    |k: int| k < 5 && header_bits(id)(k)
}

/// `after` is `w` with the `n` bits at absolute index `p` replaced by `value`; the
/// cursor, window and size are those of `w`.
pub open spec fn backfilled(w: BitBufferView, after: BitBufferView, p: nat, value: u64, n: nat) -> bool {
    &&& after.wf()
    &&& after.bits() == at(w, p).bits_with(w.bytes.len(), n, |k: int| value_bit(value, n, k))
    &&& after.bytes.len() == w.bytes.len()
    &&& after.start == w.start
    &&& after.pos == w.pos
    &&& after.end == w.end
    &&& after.autoexpand == w.autoexpand
}

/// Write an optional type 3 element with `writer`: header, 11-bit length (filled in
/// once the writer is done) and what the writer writes. Nothing is written for `None`;
/// a value with the o-bit clear is refused.
pub fn write_type3_struct<T, F>(obit: bool, buffer: &mut BitBuffer, value: &Option<T>, field_id: u64, writer: F) -> (r: Result<
    (),
    PduParseErr,
>) where F: Fn(&T, &mut BitBuffer) -> Result<(), PduParseErr>
    requires
        old(buffer)@.wf(),
        obit ==> (value matches Some(elem) ==> field_id < 16 && old(buffer)@.can_write_all(seq![1nat, 4nat, 11nat])
            && forall|b: &mut BitBuffer|
            old(buffer)@.wrote_all((*b)@, seq![1nat, 4nat, 11nat], type3_start_bits(field_id)) ==> call_requires(
                writer,
                (elem, b),
            )),
        forall|e: &T, b: &mut BitBuffer, wr: Result<(), PduParseErr>|
            call_ensures(writer, (e, b), wr) ==> keeps_cursor((*b)@, final(b)@) && (wr is Ok ==> final(b)@.pos
                - (*b)@.pos < 2048),
    ensures
        !obit && value is Some ==> r == Err::<(), PduParseErr>(
            PduParseErr::InvalidValue { field: "write_type3_struct", value: field_id },
        ) && *final(buffer) == *old(buffer),
        value is None ==> r is Ok && *final(buffer) == *old(buffer),
        obit ==> (value matches Some(elem) ==> exists|b: &mut BitBuffer, wr: Result<(), PduParseErr>|
            old(buffer)@.wrote_all((*b)@, seq![1nat, 4nat, 11nat], type3_start_bits(field_id)) && call_ensures(
                writer,
                (elem, b),
                wr,
            ) && (wr is Err ==> r == wr && *final(buffer) == *final(b)) && (wr is Ok ==> r is Ok && backfilled(
                final(b)@,
                final(buffer)@,
                old(buffer)@.pos + 5,
                (final(b)@.pos - old(buffer)@.pos - 16) as u64,
                11,
            ))),
{
    let id = field_id;
    if !obit && value.is_some() {
        return Err(PduParseErr::InvalidValue { field: "write_type3_struct", value: id });
    }
    if let Some(elem) = value {
        let ghost o = old(buffer)@;
        proof {
            assert(seq![1nat, 4nat, 11nat] =~= seq![1nat, 4nat].push(11nat));
            lemma_seq_ok_prefix(o, seq![1nat, 4nat], 11nat);
        }
        write_type34_header_generic(buffer, id);
        let ghost m1 = buffer@;
        proof {
            lemma_seq_ok_next(o, m1, seq![1nat, 4nat], 11nat, header_bits(id));
            assert(0u64 >> 11u64 == 0) by (bit_vector);
        }
        let pos_len_field = buffer.get_raw_pos();
        buffer.write_bits(0, 11);
        proof {
            reveal_with_fuel(sum_sizes, 3);
            crate::bits::lemma_value_bits_zero(11);
            lemma_wrote_then(o, m1, buffer@, seq![1nat, 4nat], header_bits(id), 11, |k: int| value_bit(0u64, 11, k), type3_start_bits(id));
        }
        let ghost m2 = buffer@;
        writer(elem, buffer)?;
        let ghost w = buffer@;
        let pos_end = buffer.get_raw_pos();
        let len_bits = (pos_end - pos_len_field - 11) as u64;
        proof {
            assert(len_bits < 2048);
            assert(len_bits < 2048 ==> len_bits >> 11u64 == 0) by (bit_vector);
        }
        buffer.set_raw_pos(pos_len_field);
        buffer.write_bits(len_bits, 11);
        buffer.set_raw_pos(pos_end);
        assert(buffer@.bits() =~= at(w, (o.pos + 5) as nat).bits_with(w.bytes.len(), 11, |k: int| value_bit(len_bits, 11, k)));
    }
    Ok(())
}

/// Read the header of a type 4 element with identifier `expected_id`: the element
/// count and the length of the elements in bits.
fn parse_type4_header(buffer: &mut BitBuffer, expected_id: u64) -> (r: Result<Option<(usize, usize)>, PduParseErr>)
    requires
        old(buffer)@.wf(),
        type4_header_sane(old(buffer)@, expected_id),
    ensures
        (r, final(buffer)@) == type4_header(old(buffer)@, expected_id),
{
    let id = expected_id;
    let field_present = peek_type34_mbit_and_id(buffer, id)?;
    if !field_present {
        return Ok(None);
    }
    let ghost v = old(buffer)@;
    proof {
        crate::bits::lemma_bits_value_bound(v.bits(), (v.pos + 5) as int, 11);
        crate::bits::lemma_bits_value_bound(v.bits(), (v.pos + 16) as int, 6);
        vstd::arithmetic::power2::lemma2_to64();
    }
    buffer.seek_rel(5);
    let len_bits = match buffer.read_bits(11) {
        Some(x) => x as usize,
        None => return Err(PduParseErr::BufferEnded { field: Some("parse_type4_header len_bits") }),
    };
    let num_elems = match buffer.read_bits(6) {
        Some(x) => x as usize,
        None => return Err(PduParseErr::BufferEnded { field: Some("parse_type4_header num_elems") }),
    };
    Ok(Some((num_elems, len_bits - 6)))
}

/// Parse an optional type 4 element with identifier `expected_id`: the header, then
/// `parser` once per element; the elements must take exactly the declared length.
/// `parser` takes the buffer and hands it back with what it read.
#[verifier::rlimit(40)]
pub fn parse_type4_struct<T, F>(obit: bool, buffer: &mut BitBuffer, expected_id: u64, parser: F) -> (r: Result<
    Option<Vec<T>>,
    PduParseErr,
>) where F: Fn(BitBuffer) -> (Result<T, PduParseErr>, BitBuffer)
    requires
        old(buffer)@.wf(),
        type4_header_sane(old(buffer)@, expected_id),
        forall|b: BitBuffer| b@.wf() ==> call_requires(parser, (b,)),
        forall|b: BitBuffer, pr: Result<T, PduParseErr>, b2: BitBuffer|
            call_ensures(parser, (b,), (pr, b2)) ==> keeps_cursor(b@, b2@),
    ensures
        !obit ==> r == Ok::<Option<Vec<T>>, PduParseErr>(None) && final(buffer)@ == old(buffer)@,
        obit && type4_header(old(buffer)@, expected_id).0 is Err ==> r == Err::<Option<Vec<T>>, PduParseErr>(
            type4_header(old(buffer)@, expected_id).0->Err_0,
        ) && final(buffer)@ == type4_header(old(buffer)@, expected_id).1,
        obit && type4_header(old(buffer)@, expected_id).0 == Ok::<Option<(usize, usize)>, PduParseErr>(None) ==> r
            == Ok::<Option<Vec<T>>, PduParseErr>(None) && final(buffer)@ == type4_header(old(buffer)@, expected_id).1,
        obit ==> (type4_header(old(buffer)@, expected_id).0 matches Ok(Some((num, len))) ==> type4_elems_outcome(
            parser,
            type4_header(old(buffer)@, expected_id).1,
            num,
            len,
            r,
            *final(buffer),
        )),
{
    if !obit {
        return Ok(None);
    }
    let id = expected_id;
    let header = parse_type4_header(buffer, id);
    match header {
        Err(e) => Err(e),
        Ok(None) => Ok(None),
        Ok(Some((num_elems, len_bits))) => {
            let ghost w = buffer@;
            let mut b = BitBuffer::new(0);
            std::mem::swap(&mut b, buffer);
            let ghost mut states: Seq<BitBuffer> = seq![b];
            let mut elems: Vec<T> = Vec::with_capacity(num_elems);
            let start_pos = b.get_pos();
            let mut i: usize = 0;
            while i < num_elems
                invariant
                    obit,
                    id == expected_id,
                    type4_header(old(buffer)@, id) == (Ok::<Option<(usize, usize)>, PduParseErr>(Some((num_elems, len_bits))), w),
                    keeps_cursor(w, b@),
                    start_pos == w.pos - w.start,
                    w.wf(),
                    i <= num_elems,
                    elems@.len() == i,
                    states.len() == i + 1,
                    states[0]@ == w,
                    states.last() == b,
                    parsed_chain(parser, states, elems@),
                    forall|bb: BitBuffer| bb@.wf() ==> call_requires(parser, (bb,)),
                    forall|bb: BitBuffer, pr: Result<T, PduParseErr>, b2: BitBuffer|
                        call_ensures(parser, (bb,), (pr, b2)) ==> keeps_cursor(bb@, b2@),
                decreases num_elems - i,
            {
                let ghost prev = b;
                let (res, nb) = parser(b);
                b = nb;
                match res {
                    Err(e) => {
                        proof {
                            assert(call_ensures(parser, (states.last(),), (Err::<T, PduParseErr>(e), b)));
                            assert(parsed_chain(parser, states, elems@) && states[0]@ == w && elems@.len() < num_elems);
                        }
                        std::mem::swap(&mut b, buffer);
                        assert(type4_elems_outcome(parser, w, num_elems, len_bits, Err::<Option<Vec<T>>, PduParseErr>(e), *buffer));
                        return Err(e);
                    },
                    Ok(elem) => {
                        let ghost before = elems@;
                        let ghost sbefore = states;
                        elems.push(elem);
                        proof {
                            states = states.push(b);
                            assert forall|k: int| 0 <= k < elems@.len() implies call_ensures(
                                parser,
                                (states[k],),
                                (Ok::<T, PduParseErr>(#[trigger] elems@[k]), states[k + 1]),
                            ) by {
                                if k < before.len() {
                                    assert(elems@[k] == before[k]);
                                    assert(states[k] == sbefore[k]);
                                    assert(states[k + 1] == sbefore[k + 1]);
                                } else {
                                    assert(states[k] == prev);
                                }
                            }
                        }
                        i = i + 1;
                    },
                }
            }
            let found = b.get_pos() - start_pos;
            proof {
                assert(parsed_chain(parser, states, elems@) && states[0]@ == w && states.last() == b);
            }
            std::mem::swap(&mut b, buffer);
            if found != len_bits {
                let e = PduParseErr::InconsistentLength { expected: len_bits, found };
                assert(type4_elems_outcome(parser, w, num_elems, len_bits, Err::<Option<Vec<T>>, PduParseErr>(e), *buffer));
                return Err(e);
            }
            let ghost ev = elems@;
            let r: Result<Option<Vec<T>>, PduParseErr> = Ok(Some(elems));
            proof {
                assert(r->Ok_0->Some_0@ == ev);
                assert(parsed_chain(parser, states, r->Ok_0->Some_0@) && states[0]@ == w && states.last() == *buffer);
                assert(type4_elems_outcome(parser, w, num_elems, len_bits, r, *buffer));
            }
            r
        },
    }
}

/// The element parser went through the buffers `states`: element `k` of `elems` was read
/// from `states[k]`, which it left as `states[k + 1]`.
pub open spec fn parsed_chain<T, F: Fn(BitBuffer) -> (Result<T, PduParseErr>, BitBuffer)>(
    parser: F,
    states: Seq<BitBuffer>,
    elems: Seq<T>,
) -> bool {
    &&& states.len() == elems.len() + 1
    &&& forall|k: int|
        0 <= k < elems.len() ==> call_ensures(parser, (states[k],), (Ok::<T, PduParseErr>(#[trigger] elems[k]), states[k + 1]))
}

/// What reading `num` elements of a type 4 element whose data is `len` bits long, from
/// cursor state `w`, ends in, with the buffer left as `after`. The element parser runs from
/// `w` on the buffer each call left: on success it gave the `num` elements in order and
/// exactly `len` bits were consumed; a failure is the error of its first failing call, or,
/// after all `num` elements, a length mismatch.
pub open spec fn type4_elems_outcome<T, F: Fn(BitBuffer) -> (Result<T, PduParseErr>, BitBuffer)>(
    parser: F,
    w: BitBufferView,
    num: usize,
    len: usize,
    r: Result<Option<Vec<T>>, PduParseErr>,
    after: BitBuffer,
) -> bool {
    &&& keeps_cursor(w, after@)
    &&& match r {
        Ok(None) => false,
        Ok(Some(elems)) => {
            &&& elems@.len() == num
            &&& after@.pos - w.pos == len
            &&& exists|states: Seq<BitBuffer>|
                #[trigger] parsed_chain(parser, states, elems@) && states[0]@ == w && states.last() == after
        },
        Err(e) => exists|states: Seq<BitBuffer>, done: Seq<T>|
            #[trigger] parsed_chain(parser, states, done) && states[0]@ == w && {
                ||| done.len() < num && call_ensures(parser, (states.last(),), (Err::<T, PduParseErr>(e), after))
                ||| done.len() == num && states.last() == after && after@.pos - w.pos != len && e
                    == PduParseErr::InconsistentLength { expected: len, found: (after@.pos - w.pos) as usize }
            },
    }
}

/// Read an optional type 4 element with identifier `expected_id` without knowing its
/// structure: its first 64 data bits are kept and the rest is skipped.
pub fn parse_type4_generic(obit: bool, buffer: &mut BitBuffer, expected_id: u64) -> (r: Result<
    Option<Type4FieldGeneric>,
    PduParseErr,
>)
    requires
        old(buffer)@.wf(),
        type4_header_sane(old(buffer)@, expected_id),
        type4_generic_fits(old(buffer)@, obit, expected_id),
    ensures
        (r, final(buffer)@) == type4_generic(old(buffer)@, obit, expected_id),
{
    if !obit {
        return Ok(None);
    }
    let id = expected_id;
    match parse_type4_header(buffer, id)? {
        None => Ok(None),
        Some((num_elems, len_bits)) => {
            let ghost w = buffer@;
            assert(type4_header(old(buffer)@, id) == (Ok::<Option<(usize, usize)>, PduParseErr>(Some((num_elems, len_bits))), w));
            assert(w.pos + min_nat(len_bits as nat, 64) <= w.end ==> w.pos + len_bits <= w.end);
            proof {
                crate::bits::lemma_bits_value_bound(old(buffer)@.bits(), (old(buffer)@.pos + 5) as int, 11);
                vstd::arithmetic::power2::lemma2_to64();
            }
            assert(len_bits < 2048);
            let read_bits = if len_bits > 64 { 64 } else { len_bits };
            let val = buffer.read_field(read_bits, "parse_type4_header")?;
            let ret = Type4FieldGeneric { field_id: id, len: len_bits, elems: num_elems, data: val };
            if len_bits > 64 {
                buffer.seek_rel((len_bits - 64) as isize);
            }
            Ok(Some(ret))
        },
    }
}

/// `after` keeps the bits of `before` in front of its cursor, and its bits are no fewer.
pub open spec fn keeps_prefix(before: BitBufferView, after: BitBufferView) -> bool {
    &&& after.bits().len() >= before.bits().len()
    &&& forall|j: int| 0 <= j < before.pos ==> #[trigger] after.bits()[j] == before.bits()[j]
}

/// The bits written in front of the elements: the 5 header bits of `id` (present, then the
/// identifier), then 17 zero bits that the length and count fields later replace.
pub open spec fn type4_header_bits(id: u64) -> spec_fn(int) -> bool {
    |k: int| k < 5 && header_bits(id)(k)
}

/// The element writer went through the buffers `states`: it wrote element `k` of `elems`
/// on `states[k]`, which it left as `states[k + 1]`.
pub open spec fn written_chain<T, F: Fn(&T, BitBuffer) -> (Result<(), PduParseErr>, BitBuffer)>(
    writer: F,
    states: Seq<BitBuffer>,
    elems: Seq<T>,
) -> bool {
    &&& states.len() == elems.len() + 1
    &&& forall|k: int|
        0 <= k < elems.len() ==> call_ensures(writer, (&#[trigger] elems[k], states[k]), (Ok::<(), PduParseErr>(()), states[k + 1]))
}

/// What writing the present type 4 element `elems` with identifier `id` from state `o`
/// ends in, with the buffer left as `after`. The header and 17 placeholder bits are
/// written first; then the element writer runs on each element in order, each time on the
/// buffer the previous call left. A failure is the error of its first failing call. On
/// success the buffer is the one the last call left, with the 11-bit length field
/// (counting the 6-bit count field and the elements) and the count field filled in.
pub open spec fn type4_write_outcome<T, F: Fn(&T, BitBuffer) -> (Result<(), PduParseErr>, BitBuffer)>(
    writer: F,
    o: BitBufferView,
    id: u64,
    elems: Seq<T>,
    r: Result<(), PduParseErr>,
    after: BitBuffer,
) -> bool {
    match r {
        Err(e) => exists|states: Seq<BitBuffer>, i: int|
            #[trigger] written_chain(writer, states, elems.take(i)) && {
                &&& 0 <= i < elems.len()
                &&& o.wrote_all(states[0]@, seq![1nat, 4nat, 17nat], type4_header_bits(id))
                &&& call_ensures(writer, (&elems[i], states.last()), (Err::<(), PduParseErr>(e), after))
            },
        Ok(()) => {
            &&& keeps_cursor(o, after@)
            &&& after@.pos >= o.pos + 22
            &&& field(after@, o.pos + 5, 11) == after@.pos - o.pos - 16
            &&& field(after@, o.pos + 16, 6) == elems.len()
            &&& exists|states: Seq<BitBuffer>|
                #[trigger] written_chain(writer, states, elems) && {
                    let last = states.last()@;
                    &&& o.wrote_all(states[0]@, seq![1nat, 4nat, 17nat], type4_header_bits(id))
                    &&& after@.pos == last.pos
                    &&& after@.start == last.start
                    &&& after@.end == last.end
                    &&& after@.bits().len() == last.bits().len()
                    &&& forall|j: int|
                        0 <= j < last.bits().len() && !(o.pos + 5 <= j < o.pos + 22) ==> #[trigger] after@.bits()[j]
                            == last.bits()[j]
                }
        },
    }
}

/// The bits that `f` gives for `n` bits from `p` are the bits of `value`: their value is `value`.
proof fn lemma_field_of_written(s: Seq<bool>, p: int, value: u64, n: nat)
    requires
        n <= 64,
        fits_bits(value, n),
        forall|k: int| 0 <= k < n ==> #[trigger] s[p + k] == value_bit(value, n, k),
    ensures
        bits_value(s, p, n) == value,
{
    assert forall|k: int| 0 <= k < n implies #[trigger] s[p + k] == crate::bits::value_bits(value, n)[0 + k] by {}
    crate::bits::lemma_bits_value_ext(s, p, crate::bits::value_bits(value, n), 0, n);
    crate::bits::lemma_value_bits_roundtrip(value, n);
}

/// Write an optional type 4 element with `writer`: header, 11-bit length and 6-bit
/// count (filled in once all elements are written), then each element in turn.
/// Nothing is written for `None`; a value with the o-bit clear is refused.
/// `writer` takes the buffer and hands it back with the element written.
#[verifier::rlimit(60)]
pub fn write_type4_struct<T, F>(
    obit: bool,
    buffer: &mut BitBuffer,
    value: &Option<Vec<T>>,
    field_id: u64,
    writer: F,
) -> (r: Result<(), PduParseErr>) where F: Fn(&T, BitBuffer) -> (Result<(), PduParseErr>, BitBuffer)
    requires
        old(buffer)@.wf(),
        obit ==> (value matches Some(elems) ==> {
            &&& field_id < 16
            &&& elems.len() < 64
            &&& old(buffer)@.can_write_all(seq![1nat, 4nat, 17nat])
            &&& forall|b: BitBuffer, e: &T| b@.wf() ==> call_requires(writer, (e, b))
            &&& forall|e: &T, b: BitBuffer, b2: BitBuffer|
                call_ensures(writer, (e, b), (Ok::<(), PduParseErr>(()), b2)) ==> (b2@.pos - b@.pos) * elems.len() <= 2041
        }),
        forall|e: &T, b: BitBuffer, wr: Result<(), PduParseErr>, b2: BitBuffer|
            call_ensures(writer, (e, b), (wr, b2)) ==> keeps_cursor(b@, b2@),
    ensures
        !obit && value is Some ==> r == Err::<(), PduParseErr>(
            PduParseErr::InvalidValue { field: "write_type4_struct", value: field_id },
        ) && *final(buffer) == *old(buffer),
        value is None ==> r is Ok && *final(buffer) == *old(buffer),
        obit ==> (value matches Some(elems) ==> type4_write_outcome(
            writer,
            old(buffer)@,
            field_id,
            elems@,
            r,
            *final(buffer),
        )),
        obit && value is Some && r is Ok && (forall|e: &T, b: BitBuffer, wr: Result<(), PduParseErr>, b2: BitBuffer|
            call_ensures(writer, (e, b), (wr, b2)) ==> keeps_prefix(b@, b2@)) ==> final(buffer)@.bits()[old(
            buffer,
        )@.pos as int] && field(final(buffer)@, old(buffer)@.pos + 1, 4) == field_id,
{
    let id = field_id;
    if !obit && value.is_some() {
        return Err(PduParseErr::InvalidValue { field: "write_type4_struct", value: id });
    }
    if let Some(elems) = value {
        let ghost o = old(buffer)@;
        let ghost h17 = type4_header_bits(id);
        proof {
            assert(seq![1nat, 4nat, 17nat] =~= seq![1nat, 4nat].push(17nat));
            lemma_seq_ok_prefix(o, seq![1nat, 4nat], 17nat);
        }
        write_type34_header_generic(buffer, id);
        let ghost m1 = buffer@;
        proof {
            lemma_seq_ok_next(o, m1, seq![1nat, 4nat], 17nat, header_bits(id));
            assert(0u64 >> 17u64 == 0) by (bit_vector);
        }
        let pos_len_field = buffer.get_raw_pos();
        buffer.write_bits(0, 17);
        proof {
            reveal_with_fuel(sum_sizes, 3);
            crate::bits::lemma_value_bits_zero(17);
            lemma_wrote_then(o, m1, buffer@, seq![1nat, 4nat], header_bits(id), 17, |k: int| value_bit(0u64, 17, k), h17);
        }
        let ghost m2 = buffer@;
        assert(m2.pos == o.pos + 22);
        assert(forall|k: int| 0 <= k < 5 ==> #[trigger] m2.bits()[o.pos + k] == header_bits(id)(k));
        let mut b = BitBuffer::new(0);
        std::mem::swap(&mut b, buffer);
        let ghost mut states: Seq<BitBuffer> = seq![b];
        let mut i: usize = 0;
        while i < elems.len()
            invariant
                obit,
                *value == Some::<Vec<T>>(*elems),
                id == field_id,
                o == old(buffer)@,
                o.wf(),
                m2.wf(),
                m2.pos == o.pos + 22,
                m2.start == o.start,
                pos_len_field == o.pos + 5,
                o.wrote_all(m2, seq![1nat, 4nat, 17nat], h17),
                h17 == type4_header_bits(id),
                forall|k: int| 0 <= k < 5 ==> #[trigger] m2.bits()[o.pos + k] == header_bits(id)(k),
                keeps_cursor(m2, b@),
                i <= elems.len(),
                elems.len() < 64,
                (b@.pos - m2.pos) * elems.len() <= 2041 * i,
                i == 0 ==> b@.pos == m2.pos,
                (forall|e: &T, bb: BitBuffer, wr: Result<(), PduParseErr>, b2: BitBuffer|
                    call_ensures(writer, (e, bb), (wr, b2)) ==> keeps_prefix(bb@, b2@)) ==> keeps_prefix(m2, b@),
                states.len() == i + 1,
                states[0]@ == m2,
                states.last() == b,
                written_chain(writer, states, elems@.take(i as int)),
                forall|bb: BitBuffer, e: &T| bb@.wf() ==> call_requires(writer, (e, bb)),
                forall|e: &T, bb: BitBuffer, b2: BitBuffer|
                    call_ensures(writer, (e, bb), (Ok::<(), PduParseErr>(()), b2)) ==> (b2@.pos - bb@.pos) * elems.len()
                        <= 2041,
                forall|e: &T, bb: BitBuffer, wr: Result<(), PduParseErr>, b2: BitBuffer|
                    call_ensures(writer, (e, bb), (wr, b2)) ==> keeps_cursor(bb@, b2@),
            decreases elems.len() - i,
        {
            let ghost prev = b;
            let out = writer(&elems[i], b);
            let (res, nb) = out;
            b = nb;
            assert(call_ensures(writer, (&elems@[i as int], prev), (res, b)));
            match res {
                Err(e) => {
                    std::mem::swap(&mut b, buffer);
                    proof {
                        assert(written_chain(writer, states, elems@.take(i as int)));
                        assert(type4_write_outcome(writer, o, id, elems@, Err::<(), PduParseErr>(e), *buffer));
                    }
                    return Err(e);
                },
                Ok(u) => {
                    assert(u == ());
                    assert(res == Ok::<(), PduParseErr>(()));
                },
            }
            proof {
                assert(call_ensures(writer, (&elems@[i as int], prev), (Ok::<(), PduParseErr>(()), b)));
                assert(elems@.take(i + 1)[i as int] == elems@[i as int]);
                let d = b@.pos - prev@.pos;
                let p0 = prev@.pos - m2.pos;
                let len = elems.len() as int;
                assert(d * len <= 2041);
                assert((p0 + d) * len <= 2041 * (i + 1)) by (nonlinear_arith)
                    requires
                        p0 * len <= 2041 * i,
                        d * len <= 2041,
                ;
                let sbefore = states;
                states = states.push(b);
                let pre = elems@.take(i as int);
                let cur = elems@.take(i + 1);
                assert forall|k: int| 0 <= k < cur.len() implies call_ensures(
                    writer,
                    (&#[trigger] cur[k], states[k]),
                    (Ok::<(), PduParseErr>(()), states[k + 1]),
                ) by {
                    if k < i {
                        assert(cur[k] == pre[k]);
                        assert(states[k] == sbefore[k]);
                        assert(states[k + 1] == sbefore[k + 1]);
                    } else {
                        assert(states[k] == prev);
                    }
                }
            }
            i = i + 1;
        }
        let ghost w = b@;
        let ghost last_b = b;
        proof {
            assert(elems@.take(elems.len() as int) =~= elems@);
            let p = w.pos - m2.pos;
            let len = elems.len() as int;
            if len > 0 {
                assert(p <= 2041) by (nonlinear_arith)
                    requires
                        p * len <= 2041 * len,
                        len > 0,
                ;
            }
        }
        std::mem::swap(&mut b, buffer);
        let pos_end = buffer.get_raw_pos();
        let len_bits = (pos_end - pos_len_field - 11) as u64;
        let num_elems = elems.len() as u64;
        proof {
            assert(len_bits < 2048 ==> len_bits >> 11u64 == 0) by (bit_vector);
            assert(num_elems < 64 ==> num_elems >> 6u64 == 0) by (bit_vector);
        }
        buffer.set_raw_pos(pos_len_field);
        let ghost w1 = buffer@;
        buffer.write_bits(len_bits, 11);
        let ghost w2 = buffer@;
        buffer.write_bits(num_elems, 6);
        let ghost w3 = buffer@;
        buffer.set_raw_pos(pos_end);
        proof {
            let fl = |k: int| value_bit(len_bits, 11, k);
            let fc = |k: int| value_bit(num_elems, 6, k);
            assert(w2.bits() == w1.bits_with(w1.bytes.len(), 11, fl));
            assert(w3.bits() == w2.bits_with(w2.bytes.len(), 6, fc));
            assert forall|k: int| 0 <= k < 11 implies #[trigger] w3.bits()[(o.pos + 5) + k] == value_bit(len_bits, 11, k) by {}
            lemma_field_of_written(w3.bits(), (o.pos + 5) as int, len_bits, 11);
            assert forall|k: int| 0 <= k < 6 implies #[trigger] w3.bits()[(o.pos + 16) + k] == value_bit(num_elems, 6, k) by {}
            lemma_field_of_written(w3.bits(), (o.pos + 16) as int, num_elems, 6);
            if keeps_prefix(m2, w) {
                assert forall|k: int| 0 <= k < 5 implies #[trigger] w3.bits()[o.pos + k] == header_bits(id)(k) by {
                    assert(w.bits()[o.pos + k] == m2.bits()[o.pos + k]);
                }
                assert(w3.bits()[o.pos as int] == header_bits(id)(0));
                assert forall|k: int| 0 <= k < 4 implies #[trigger] w3.bits()[(o.pos + 1) + k] == value_bit(id, 4, k) by {
                    assert(w3.bits()[o.pos + (k + 1)] == header_bits(id)(k + 1));
                }
                assert(id < 16 ==> id >> 4u64 == 0) by (bit_vector);
                lemma_field_of_written(w3.bits(), (o.pos + 1) as int, id, 4);
            }
            assert forall|j: int|
                0 <= j < w.bits().len() && !(o.pos + 5 <= j < o.pos + 22) implies #[trigger] buffer@.bits()[j]
                    == w.bits()[j] by {
                assert(w3.bits()[j] == w2.bits()[j]);
                assert(w2.bits()[j] == w1.bits()[j]);
            }
            assert(written_chain(writer, states, elems@));
            assert(states.last()@ == w);
            assert(type4_write_outcome(writer, o, id, elems@, Ok::<(), PduParseErr>(()), *buffer));
        }
    }
    Ok(())
}

/// Write an optional type 4 element: `field_id` is refused with a value when the
/// o-bit is clear; writing a present generic type 4 element is not supported.
pub fn write_type4_todo(obit: bool, _buffer: &mut BitBuffer, value: &Option<Type4FieldGeneric>, field_id: u64) -> (r: Result<
    (),
    PduParseErr,
>)
    requires
        !(obit && value is Some),
    ensures
        *final(_buffer) == *old(_buffer),
        value is Some ==> r == Err::<(), PduParseErr>(
            PduParseErr::InvalidValue { field: "write_type4_todo", value: field_id },
        ),
        value is None ==> r is Ok,
{
    let id = field_id;
    if !obit && value.is_some() {
        return Err(PduParseErr::InvalidValue { field: "write_type4_todo", value: id });
    }
    Ok(())
}

} // verus!
