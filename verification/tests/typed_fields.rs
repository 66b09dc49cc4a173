use bluestation::bitbuffer::BitBuffer;
use bluestation::pdu_parse_error::PduParseErr;
use bluestation::typed_pdu_fields::typed::{
    parse_type2_generic, parse_type3_generic, parse_type4_generic, parse_type4_struct, write_type2_generic,
    write_type3_generic, write_type4_struct, write_type4_todo,
};
use bluestation::typed_pdu_fields::delimiters::{read_mbit, read_obit, write_mbit, write_obit};
use bluestation::typed_pdu_fields::{Type3FieldGeneric, Type4FieldGeneric};

#[test]
fn type2_write_then_parse() {
    let mut bb = BitBuffer::new_autoexpand(8);
    write_type2_generic(true, &mut bb, Some(0x2d), 6);
    write_type2_generic(true, &mut bb, None, 6);
    assert_eq!(bb.to_bitstr(), "11011010");
    bb.seek(0);
    assert_eq!(parse_type2_generic(true, &mut bb, 6, "first"), Ok(Some(0x2d)));
    assert_eq!(parse_type2_generic(true, &mut bb, 6, "second"), Ok(None));
    assert_eq!(
        parse_type2_generic(true, &mut bb, 6, "third"),
        Err(PduParseErr::BufferEnded { field: Some("pbit") })
    );
    assert_eq!(parse_type2_generic(false, &mut bb, 6, "absent"), Ok(None));
}

#[test]
fn type3_write_then_parse() {
    let mut bb = BitBuffer::new_autoexpand(8);
    let elem = Type3FieldGeneric { field_id: 5, len: 12, data: 0xabc };
    write_type3_generic(true, &mut bb, &Some(elem), 5).unwrap();
    bb.seek(0);
    let parsed = parse_type3_generic(true, &mut bb, 5).unwrap().unwrap();
    assert_eq!(parsed, elem);
    assert_eq!(bb.get_pos(), 28);
    assert_eq!(
        write_type3_generic(false, &mut bb, &Some(elem), 5),
        Err(PduParseErr::InvalidValue { field: "write_type3_generic", value: 5 })
    );
}

#[test]
fn type3_other_identifier_is_absent() {
    let mut bb = BitBuffer::new_autoexpand(8);
    let elem = Type3FieldGeneric { field_id: 5, len: 3, data: 5 };
    write_type3_generic(true, &mut bb, &Some(elem), 5).unwrap();
    bb.seek(0);
    assert_eq!(parse_type3_generic(true, &mut bb, 6), Ok(None));
    assert_eq!(bb.get_pos(), 0);
}

#[test]
fn type4_write_then_parse() {
    let mut bb = BitBuffer::new_autoexpand(8);
    let elems: Option<Vec<u64>> = Some(vec![3, 1, 2]);
    write_type4_struct(true, &mut bb, &elems, 9, |e: &u64, mut b: BitBuffer| {
        b.write_bits(*e, 4);
        (Ok(()), b)
    })
    .unwrap();
    assert_eq!(bb.get_pos(), 1 + 4 + 11 + 6 + 12);
    bb.seek(0);
    let parsed = parse_type4_struct(true, &mut bb, 9, |mut b: BitBuffer| {
        let r = b.read_field(4, "elem");
        (r, b)
    }).unwrap();
    assert_eq!(parsed, Some(vec![3, 1, 2]));
    bb.seek(0);
    let generic = parse_type4_generic(true, &mut bb, 9).unwrap().unwrap();
    assert_eq!(generic, Type4FieldGeneric { field_id: 9, len: 12, elems: 3, data: 0x312 });
}

#[test]
fn type4_length_mismatch_is_reported() {
    let mut bb = BitBuffer::new_autoexpand(8);
    let elems: Option<Vec<u64>> = Some(vec![3, 1]);
    write_type4_struct(true, &mut bb, &elems, 9, |e: &u64, mut b: BitBuffer| {
        b.write_bits(*e, 4);
        (Ok(()), b)
    })
    .unwrap();
    bb.seek(0);
    let parsed = parse_type4_struct(true, &mut bb, 9, |mut b: BitBuffer| {
        let r = b.read_field(3, "elem");
        (r, b)
    });
    assert_eq!(parsed, Err(PduParseErr::InconsistentLength { expected: 8, found: 6 }));
}

#[test]
fn type4_todo_refuses_values() {
    let mut bb = BitBuffer::new(8);
    let v = Some(Type4FieldGeneric { field_id: 1, len: 0, elems: 0, data: 0 });
    assert_eq!(
        write_type4_todo(false, &mut bb, &v, 1),
        Err(PduParseErr::InvalidValue { field: "write_type4_todo", value: 1 })
    );
    assert_eq!(write_type4_todo(true, &mut bb, &None, 1), Ok(()));
}

#[test]
fn delimiter_bits() {
    let mut bb = BitBuffer::new(2);
    write_obit(&mut bb, 1);
    write_mbit(&mut bb, 0);
    bb.seek(0);
    assert_eq!(read_obit(&mut bb), Ok(true));
    assert_eq!(read_mbit(&mut bb), Ok(false));
    assert!(read_obit(&mut bb).is_err());
}

#[test]
fn type4_elements_in_written_order() {
    let mut bb = BitBuffer::new_autoexpand(8);
    let w = |v: &u64, mut b: BitBuffer| {
        b.write_bits(*v, 3);
        (Ok(()), b)
    };
    assert_eq!(write_type4_struct(true, &mut bb, &Some(vec![5u64, 2u64]), 7u64, w), Ok(()));
    assert_eq!(bb.to_bitstr(), "1011100000001100000010101010");
    assert_eq!(bb.get_pos(), 28);
    bb.seek(0);
    let parsed = parse_type4_struct(true, &mut bb, 7u64, |mut b: BitBuffer| {
        let r = b.read_field(3, "e");
        (r, b)
    });
    assert_eq!(parsed, Ok(Some(vec![5, 2])));
    assert_eq!(bb.get_pos(), 28);
    assert_eq!(bb.get_len(), 28);
    let mut other = BitBuffer::new_autoexpand(8);
    assert_eq!(
        write_type4_struct(false, &mut other, &Some(vec![5u64, 2u64]), 7u64, w),
        Err(PduParseErr::InvalidValue { field: "write_type4_struct", value: 7 })
    );
    assert_eq!(other.get_pos(), 0);
}
