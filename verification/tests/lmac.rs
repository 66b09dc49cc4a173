use bluestation::bitbuffer::BitBuffer;
use bluestation::lmac::convenc::{
    get_punctured_rate, mother_memcmp, tetra_rcpc_depunct, ConvEncState, RcpcPunctMode,
};
use bluestation::lmac::crc16::{
    crc16_ccitt_bits, crc16_itut_bits, crc16_itut_bytes, get_nth_bit, TETRA_CRC_OK,
};
use bluestation::lmac::errorcontrol::speech_crc;
use bluestation::lmac::interleaver::{
    block_deinterleave, block_interl_func, block_interleave, matrix_deinterleave, matrix_interleave,
};
use bluestation::lmac::scrambler::{tetra_scramb_bits, tetra_scramb_get_bits, tetra_scramb_get_init, SCRAMB_INIT};
use bluestation::lmac::tch_reorder::{channel_to_codec, codec_to_channel, CLASS0_POS, CLASS1_POS, CLASS2_POS};
use bluestation::lmac::viterbi::{dec_sb1, num_states, SoftBit, TetraViterbiDecoder};

#[test]
fn test_speech_crc() {
    let zeros = [0u8; 60];
    let crc = speech_crc(&zeros);
    assert_eq!(crc, [0, 0, 0, 0, 0, 0, 0, 0], "CRC of all-zeros should be all-zeros");

    let mut data = [0u8; 60];
    data[0] = 1;
    let crc = speech_crc(&data);
    assert_eq!(&crc[0..7], &[1, 0, 0, 1, 0, 0, 0], "X^7 mod G = X^3+1");
    assert_eq!(crc[7], 1, "b8 overall parity");

    let mut data2 = [0u8; 60];
    data2[1] = 1;
    let crc2 = speech_crc(&data2);
    assert_eq!(&crc2[0..7], &[0, 1, 0, 0, 1, 0, 0], "X^8 mod G = X^4+X");
}

#[test]
fn speech_crc_of_mixed_bits() {
    let bits = [
        0u8, 0, 1, 0, 1, 1, 1, 1, 0, 0, 1, 0, 1, 1, 0, 1, 1, 0, 0, 1, 0, 0, 0, 0, 1, 0, 1, 0, 0, 1, 1, 0, 1, 0, 0, 1, 1,
        0, 1, 0, 0, 1, 0, 1, 1, 0, 1, 1, 1, 1, 0, 1, 0, 1, 1, 0, 1, 1, 0, 1,
    ];
    assert_eq!(speech_crc(&bits), [0, 0, 0, 0, 0, 1, 0, 1]);
}

#[test]
fn test_block_interleave_roundtrip() {
    let k = 10;
    let a = 3;
    let data: Vec<u8> = (0..k as u8).collect();
    let mut tmp = vec![0u8; k];
    let mut out = vec![0u8; k];
    block_interleave(k, a, &data, &mut tmp);
    block_deinterleave(k, a, &tmp, &mut out);
    assert_eq!(data, out);
}

#[test]
fn block_interleave_positions() {
    assert_eq!(block_interl_func(10, 3, 1), 4);
    assert_eq!(block_interl_func(10, 3, 4), 3);
    let data: Vec<u8> = (0..10u8).collect();
    let mut tmp = vec![0u8; 10];
    block_interleave(10, 3, &data, &mut tmp);
    assert_eq!(tmp, vec![9, 6, 3, 0, 7, 4, 1, 8, 5, 2]);
}

#[test]
fn test_matrix_interleave_roundtrip() {
    let lines = 4;
    let columns = 3;
    let data: Vec<u8> = (0..(lines * columns) as u8).collect();
    let mut tmp = vec![0u8; lines * columns];
    let mut out = vec![0u8; lines * columns];
    matrix_interleave(lines, columns, &data, &mut tmp);
    matrix_deinterleave(lines, columns, &tmp, &mut out);
    assert_eq!(data, out);
}

#[test]
fn matrix_interleave_reads_columns() {
    let data: Vec<u8> = (0..6u8).collect();
    let mut tmp = vec![0u8; 7];
    matrix_interleave(2, 3, &data, &mut tmp);
    assert_eq!(tmp, vec![0, 3, 1, 4, 2, 5, 0]);
}

#[test]
fn roundtrip_codec_channel_codec() {
    let mut codec_bits = [0u8; 274];
    for i in 0..274 {
        codec_bits[i] = (i % 2) as u8;
    }
    let channel = codec_to_channel(&codec_bits);
    let recovered = channel_to_codec(&channel);
    assert_eq!(codec_bits, recovered, "roundtrip codec→channel→codec failed");
}

#[test]
fn reorder_changes_bits() {
    let mut codec_bits = [0u8; 274];
    for i in 0..274 {
        codec_bits[i] = ((i * 7 + 3) % 2) as u8;
    }
    let channel = codec_to_channel(&codec_bits);
    assert_ne!(codec_bits[..], channel[..], "reordering should change the bit order");
}

#[test]
fn position_tables_cover_all_bits() {
    let mut covered = [false; 137];
    for &p in CLASS0_POS.iter().chain(CLASS1_POS.iter()).chain(CLASS2_POS.iter()) {
        let idx = (p - 1) as usize;
        assert!(!covered[idx], "position {} is duplicated", p);
        covered[idx] = true;
    }
    for (i, &c) in covered.iter().enumerate() {
        assert!(c, "position {} is not covered", i + 1);
    }
}

#[test]
fn channel_order_starts_with_class0() {
    let mut codec_bits = [0u8; 274];
    for i in 0..274 {
        codec_bits[i] = (i % 251) as u8;
    }
    let channel = codec_to_channel(&codec_bits);
    assert_eq!(channel[0], 34);
    assert_eq!(channel[1], 137 + 34);
    let back = channel_to_codec(&channel);
    assert_eq!(back[..], codec_bits[..]);
}

#[test]
fn crc_check_residue() {
    let data: Vec<u8> = vec![1, 0, 1, 1, 0, 0, 1, 0, 1, 1, 1, 0, 0, 0, 1, 1, 0, 1];
    let crc = !crc16_ccitt_bits(&data, data.len());
    let mut framed = data.clone();
    for i in 0..16 {
        framed.push(((crc >> (15 - i)) & 1) as u8);
    }
    assert_eq!(crc16_ccitt_bits(&framed, framed.len()), TETRA_CRC_OK);
}

#[test]
fn crc_over_bytes_and_bits_agree() {
    let bytes = [0xB2u8, 0x5C];
    let bits: Vec<u8> = (0..16).map(|i| get_nth_bit(&bytes, i) as u8).collect();
    assert_eq!(get_nth_bit(&bytes, 0), 1);
    assert_eq!(get_nth_bit(&bytes, 1), 0);
    assert_eq!(crc16_itut_bytes(0xffff, &bytes, 16), crc16_itut_bits(0xffff, &bits, 16));
    assert_eq!(crc16_itut_bits(0x1234, &bits, 0), 0x1234);
}

#[test]
fn scrambling_sequence_and_init() {
    let mut out = [0u8; 24];
    tetra_scramb_get_bits(SCRAMB_INIT, &mut out);
    assert_eq!(
        out,
        [1, 0, 1, 1, 1, 1, 1, 1, 1, 1, 1, 1, 0, 1, 0, 0, 1, 1, 1, 1, 0, 0, 0, 1]
    );
    assert_eq!(tetra_scramb_get_init(204, 1337, 1), 855980295);
    assert_eq!(tetra_scramb_get_init(204, 1337, 0), 0);
}

#[test]
fn scrambling_twice_restores() {
    let original = "0110100111010001011101";
    let mut bb = BitBuffer::from_bitstr(original);
    bb.seek(3);
    tetra_scramb_bits(855980295, &mut bb);
    assert_eq!(bb.get_pos(), 3);
    assert_ne!(bb.to_bitstr(), original);
    tetra_scramb_bits(855980295, &mut bb);
    assert_eq!(bb.to_bitstr(), original);
}

#[test]
fn convolutional_encoding() {
    let mut enc = ConvEncState::new();
    let mut out = [9u8; 18];
    enc.encode(&[1, 0, 1, 1], &mut out);
    assert_eq!(&out[..16], &[1, 1, 1, 1, 1, 0, 1, 1, 1, 0, 0, 1, 0, 0, 0, 1]);
    assert_eq!(&out[16..], &[9, 9]);
    enc.reset();
    let mut out2 = [0u8; 4];
    enc.encode(&[1], &mut out2);
    assert_eq!(out2, [1, 1, 1, 1]);
}

#[test]
fn puncture_and_depuncture() {
    let mother: Vec<u8> = (0..32u8).collect();
    let mut punct = vec![0u8; 12];
    get_punctured_rate(RcpcPunctMode::Rate2_3, &mother, &mut punct);
    assert_eq!(punct, vec![0, 1, 4, 8, 9, 12, 16, 17, 20, 24, 25, 28]);
    let mut depunct = vec![0xffu8; 32];
    tetra_rcpc_depunct(RcpcPunctMode::Rate2_3, &punct, 12, &mut depunct);
    assert_eq!(mother_memcmp(&mother, &depunct), Ok(12));
    depunct[0] = 7;
    assert_eq!(mother_memcmp(&mother, &depunct), Err(()));
}

#[test]
fn viterbi_states() {
    assert_eq!(num_states(5), 16);
}

fn pseudo_random_bits(n: usize) -> Vec<u8> {
    let mut x: u32 = 0x2545_F491;
    (0..n)
        .map(|_| {
            x ^= x << 13;
            x ^= x >> 17;
            x ^= x << 5;
            (x & 1) as u8
        })
        .collect()
}

#[test]
fn test_decoder() {
    let message: Vec<u8> = pseudo_random_bits(288).into_iter().chain((0..4).map(|_| 0)).collect();
    let mut encoder = ConvEncState::new();
    let mut encoded = vec![0u8; message.len() * 4];
    encoder.encode(&message[..], &mut encoded[..]);
    let encoded_soft: Vec<SoftBit> = encoded
        .into_iter()
        .enumerate()
        .map(|(i, bit)| if i % 3 > 0 { 0 } else if bit != 0 { 1 } else { -1 })
        .collect();
    let decoder = TetraViterbiDecoder::new();
    let decoded_message = decoder.decode(&encoded_soft[..]);
    assert!(decoded_message[..] == message[..]);
}

#[test]
fn sb1_decoding_with_erasures() {
    let message: Vec<u8> = pseudo_random_bits(60).into_iter().chain((0..4).map(|_| 0)).collect();
    let mut encoder = ConvEncState::new();
    let mut encoded = vec![0u8; message.len() * 4];
    encoder.encode(&message[..], &mut encoded[..]);
    for i in (0..encoded.len()).step_by(5) {
        encoded[i] = 0xff;
    }
    let mut out = vec![7u8; 70];
    dec_sb1(&encoded, &mut out, message.len());
    assert_eq!(&out[..64], &message[..]);
    assert_eq!(&out[64..], &[7, 7, 7, 7, 7, 7]);
}

#[test]
fn depuncture_restores_exactly_the_kept_bits() {
    let mother: Vec<u8> = vec![1, 0, 0, 1, 1, 0, 1, 0, 0, 1, 1, 1, 0, 1, 0, 0];
    let mut punct = vec![0u8; 6];
    get_punctured_rate(RcpcPunctMode::Rate2_3, &mother, &mut punct);
    let mut depunct = vec![0xffu8; mother.len()];
    tetra_rcpc_depunct(RcpcPunctMode::Rate2_3, &punct, 6, &mut depunct);
    let restored: Vec<usize> = (0..depunct.len()).filter(|&i| depunct[i] != 0xff).collect();
    assert_eq!(restored, vec![0, 1, 4, 8, 9, 12]);
    for &i in &restored {
        assert_eq!(depunct[i], mother[i]);
    }
    assert_eq!(mother_memcmp(&mother, &depunct), Ok(6));
}

#[test]
fn coprime_step_interleaving_round_trip() {
    // 7 is prime to 12: every position is hit once
    let x: Vec<u8> = (0..12u8).collect();
    let mut t = vec![0u8; 12];
    block_interleave(12, 7, &x, &mut t);
    let mut sorted = t.clone();
    sorted.sort();
    assert_eq!(sorted, x);
    let mut y = vec![0u8; 12];
    block_deinterleave(12, 7, &t, &mut y);
    assert_eq!(y, x);
}
