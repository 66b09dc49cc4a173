//! Lower MAC channel coding: CRCs, convolutional coding and puncturing,
//! interleaving, scrambling, speech bit reordering and Viterbi decoding.

pub mod crc16;
pub mod convenc;
pub mod errorcontrol;
pub mod interleaver;
pub mod scrambler;
pub mod tch_reorder;
pub mod viterbi;
