use bluestation::bitbuffer::BitBuffer;

#[test]
fn test_full_byte_read_write() {
    let mut bb = BitBuffer::new(16);
    bb.write_bits(0xAB, 8);
    bb.write_bits(0xCD, 8);
    bb.seek(0);
    assert_eq!(bb.read_bits(8).unwrap(), 0xAB);
    assert_eq!(bb.read_bits(8).unwrap(), 0xCD);
}

#[test]
fn test_partial_boundary_read_write() {
    let mut bb = BitBuffer::new(16);
    bb.write_bits(0xA, 4);
    bb.write_bits(0x5, 4);
    bb.write_bits(0xFF, 8);
    bb.seek(0);
    assert_eq!(bb.read_bits(4).unwrap(), 0xA);
    assert_eq!(bb.read_bits(4).unwrap(), 0x5);
    assert_eq!(bb.read_bits(8).unwrap(), 0xFF);
}

#[test]
fn test_read_overflow() {
    let mut bb = BitBuffer::new(10);
    assert!(bb.read_bits(11).is_none());
    assert_eq!(bb.read_bits(0).unwrap(), 0);
}

#[test]
fn test_write_autoexpand() {
    let mut bb = BitBuffer::new_autoexpand(10);
    bb.write_bits(1, 5);
    assert_eq!(bb.get_pos(), 5);
    assert_eq!(bb.get_raw_end(), 5);
    bb.write_bits(1, 6);
    assert_eq!(bb.get_pos(), 11);
    assert_eq!(bb.get_raw_end(), 11);
    bb.write_bit(1);
    assert_eq!(bb.get_pos(), 12);
    assert_eq!(bb.get_raw_end(), 12);
}

#[test]
fn test_windowing_and_seek() {
    let mut bb = BitBuffer::from_vec(vec![0xFF, 0x00]);
    bb.set_raw_pos(4);
    bb.set_raw_start(4);
    bb.set_raw_end(12);
    assert_eq!(bb.get_pos(), 0);
    assert_eq!(bb.get_len(), 8);
    bb.seek(0);
    assert_eq!(bb.read_bits(4).unwrap(), 0b1111);
    assert!(bb.read_bits(5).is_none());
}

#[test]
fn test_unaligned_read_write_across_bytes() {
    let mut bb = BitBuffer::new(48);
    bb.seek(5);
    let pattern: u32 = 0b10_1010_1111_0001_0010;
    bb.write_bits(pattern as u64, 20);
    bb.seek(5);
    let got = bb.read_bits(20).unwrap();
    assert_eq!(got as u32, pattern);
}

#[test]
fn test_multi_byte_bulk_read_write() {
    let mut bb = BitBuffer::new(64);
    bb.write_bits(0xDEADBEEF, 32);
    bb.write_bits(0xCAFEBABE, 32);
    bb.seek(0);
    assert_eq!(bb.read_bits(32).unwrap(), 0xDEADBEEF);
    assert_eq!(bb.read_bits(32).unwrap(), 0xCAFEBABE);
}

#[test]
fn test_zero_bit_read_write() {
    let mut bb = BitBuffer::new(16);
    bb.write_bits(0, 0);
    assert_eq!(bb.get_pos(), 0);
    assert_eq!(bb.read_bits(0).unwrap(), 0);
    assert_eq!(bb.get_pos(), 0);
}

#[test]
fn test_read_write_entire_buffer() {
    let mut bb = BitBuffer::new(24);
    bb.write_bits(0xAAAAAA, 24);
    bb.seek(0);
    assert_eq!(bb.read_bits(24).unwrap(), 0xAAAAAA);
    assert_eq!(bb.into_bytes(), vec![0xAA, 0xAA, 0xAA]);
}

#[test]
fn test_dump_hex() {
    let mut bb = BitBuffer::from_vec(vec![0xAB, 0xCD]);
    assert_eq!(bb.dump_hex(), "ABCD");
    bb.set_raw_pos(4);
    bb.set_raw_start(4);
    bb.set_raw_end(12);
    assert_eq!(bb.dump_hex(), "BC");
}

#[test]
fn test_dump_funcs() {
    let mut bb = BitBuffer::from_vec(vec![0xA0]);
    assert_eq!(bb.dump_bin_full(true), "<^10100000>");
    bb.seek(3);
    bb.set_raw_start(2);
    bb.set_raw_end(6);
    assert_eq!(bb.dump_bin_full(true), "10<1^000>00");
    assert_eq!(bb.dump_bin_full(false), "10100000");
    assert_eq!(bb.dump_bin(), "1^000");
    assert_eq!(bb.dump_bin_unformatted(), "1000");
}

#[test]
fn test_peek_bits_basic() {
    let mut bb = BitBuffer::from_bitstr("10110110");
    let p = bb.peek_bits(4).unwrap();
    assert_eq!(p, 0b1011);
    assert_eq!(bb.get_pos(), 0);
    let r = bb.read_bits(4).unwrap();
    assert_eq!(r, p);
    assert_eq!(bb.get_pos(), 4);
}

#[test]
fn test_peek_bits_across_bytes() {
    let mut bb = BitBuffer::from_bitstr("1010101111001101");
    bb.seek(5);
    assert_eq!(bb.get_pos(), 5);
    let p = bb.peek_bits(6).unwrap();
    assert_eq!(p, 0b011110);
    assert_eq!(bb.get_pos(), 5);
}

#[test]
fn test_peek_zero_bits() {
    let bb = BitBuffer::new(8);
    let p = bb.peek_bits(0).unwrap();
    assert_eq!(p, 0);
    assert_eq!(bb.get_pos(), 0);
}

#[test]
fn test_peek_bits_overflow() {
    let bb = BitBuffer::new(10);
    assert!(bb.peek_bits(11).is_none());
    assert_eq!(bb.get_pos(), 0);
    assert!(bb.peek_bits(10).is_some());
    assert_eq!(bb.get_pos(), 0);
}

#[test]
fn test_to_bitarr() {
    let mut bb = BitBuffer::from_bitstr("10110011");
    let mut arr = vec![0u8; 8];
    bb.to_bitarr(&mut arr);
    assert_eq!(arr, vec![1, 0, 1, 1, 0, 0, 1, 1]);
}

#[test]
fn test_xor_bit() {
    let mut bb = BitBuffer::from_bitstr("10110000");
    bb.xor_bit(0);
    bb.xor_bit(1);
    bb.xor_bit(1);
    assert_eq!(bb.to_bitstr(), "11010000");
}

#[test]
fn test_xor_bits() {
    let mut bb = BitBuffer::from_bitstr("0000000000000000");
    let xor_buf = vec![0b11000000, 0b11110000];
    bb.seek(2);
    bb.xor_bytearr(&xor_buf, 10).unwrap();
    assert_eq!(bb.to_bitstr(), "0011000000110000");
}

#[test]
fn test_xor_bits_twochunks() {
    let mut bb = BitBuffer::from_bitstr("000000000000000000000000000000000000000000000000000000000000000000000000");
    let xor_buf = vec![
        0b11000000, 0b11000000, 0b11000000, 0b11000000, 0b11000000, 0b11000000, 0b11000000, 0b11000000, 0b00111100,
    ];
    bb.seek(2);
    bb.xor_bytearr(&xor_buf, 68).unwrap();
    assert_eq!(
        bb.to_bitstr(),
        "001100000011000000110000001100000011000000110000001100000011000000001100"
    );
}

#[test]
fn write_then_read_gives_value_back() {
    let mut bb = BitBuffer::new(70);
    bb.seek(3);
    bb.write_bits(0x1234_5678_9ABC, 48);
    bb.seek(3);
    assert_eq!(bb.read_bits(48), Some(0x1234_5678_9ABC));
}

#[test]
fn read_field_reports_missing_bits() {
    let mut bb = BitBuffer::new(4);
    assert!(bb.read_field(5, "too_long").is_err());
    assert_eq!(bb.read_field(4, "ok").unwrap(), 0);
}

#[test]
fn copy_bits_moves_whole_chunks() {
    let mut src = BitBuffer::from_bitstr("1011001110001111000011111000001111110000001111111000000011111111");
    let mut dst = BitBuffer::new_autoexpand(8);
    dst.copy_bits(&mut src, 64);
    assert_eq!(
        dst.to_bitstr(),
        "1011001110001111000011111000001111110000001111111000000011111111"
    );
}

#[test]
fn write_ones_and_zeroes() {
    let mut bb = BitBuffer::new(10);
    bb.write_ones(3);
    bb.write_zeroes(4);
    bb.write_ones(3);
    assert_eq!(bb.to_bitstr(), "1110000111");
}

#[test]
fn bitstr_roundtrip() {
    let s = "0110100110010110111";
    assert_eq!(BitBuffer::from_bitstr(s).to_bitstr(), s);
}
