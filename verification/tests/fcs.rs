use bluestation::bitbuffer::BitBuffer;
use bluestation::llc::fcs::{check_fcs, compute_fcs};

#[test]
fn fcs_test() {
    let testvec = "010100100111101011010111110000100110000110001011000011000000000000000011000100000001001100110011000000110010001011000011001000110000001100100011000100110001001100010011000100110101001100100011000000110010001100000011000000110001011001111010000010101011000110101";
    let mut bitbuf = BitBuffer::from_bitstr(testvec);
    bitbuf.seek(5);
    let fcs = compute_fcs(&bitbuf, 5, 5 + 224);
    let extracted_fcs = bitbuf.peek_bits_startoffset(5 + 224, 32).unwrap() as u32;
    assert_eq!(fcs, extracted_fcs);
}

#[test]
fn check_fcs_accepts_and_rejects() {
    let testvec = "010100100111101011010111110000100110000110001011000011000000000000000011000100000001001100110011000000110010001011000011001000110000001100100011000100110001001100010011000100110101001100100011000000110010001100000011000000110001011001111010000010101011000110101";
    let mut bitbuf = BitBuffer::from_bitstr(testvec);
    bitbuf.seek(5);
    bitbuf.set_raw_end(5 + 224 + 32);
    assert!(check_fcs(&bitbuf));
    let mut broken = BitBuffer::from_bitstr(testvec);
    broken.seek(6);
    broken.xor_bit(1);
    broken.seek(5);
    broken.set_raw_end(5 + 224 + 32);
    assert!(!check_fcs(&broken));
    let short = BitBuffer::from_bitstr("0101");
    assert!(!check_fcs(&short));
}
