//! TETRA ACELP bit reordering between codec order (STE format) and channel order
//! (type-1 bits).
//!
//! TCH/S carries two 137-bit subframes (274 bits), interleaved by sensitivity class:
//! class 0 (51 bits per subframe, unprotected), class 1 (56 bits, medium) and
//! class 2 (30 bits, most sensitive).
use vstd::prelude::*;

verus! {

/// Bits per ACELP subframe.
pub const NUM_ACELP_BITS: usize = 137;

/// Class 0 positions (1-based within a 137-bit subframe).
pub const CLASS0_POS: [u8; 51] = [
    35, 36, 37, 38, 39, 40, 41, 42, 43, 47, 48, 56, 61, 62, 63, 64, 65, 66, 67, 68, 69, 70, 74, 75, 83, 88, 89, 90, 91, 92,
    93, 94, 95, 96, 97, 101, 102, 110, 115, 116, 117, 118, 119, 120, 121, 122, 123, 124, 128, 129, 137,
];

/// Class 1 positions (1-based).
pub const CLASS1_POS: [u8; 56] = [
    58, 85, 112, 54, 81, 108, 135, 50, 77, 104, 131, 45, 72, 99, 126, 55, 82, 109, 136, 5, 13, 34, 8, 16, 17, 22, 23, 24,
    25, 26, 6, 14, 7, 15, 60, 87, 114, 46, 73, 100, 127, 44, 71, 98, 125, 33, 49, 76, 103, 130, 59, 86, 113, 57, 84, 111,
];

/// Class 2 positions (1-based).
pub const CLASS2_POS: [u8; 30] = [
    18, 19, 20, 21, 31, 32, 53, 80, 107, 134, 1, 2, 3, 4, 9, 10, 11, 12, 27, 28, 29, 30, 52, 79, 106, 133, 51, 78, 105,
    132,
];

/// For each 0-based position of a subframe, the index of that position in the
/// concatenated class tables: the inverse of the channel order.
pub const CHANNEL_INDEX: [u8; 137] = [117, 118, 119, 120, 70, 81, 83, 73, 121, 122, 123, 124, 71, 82, 84, 74, 75, 107, 108, 109, 110, 76, 77, 78, 79, 80, 125, 126, 127, 128, 111, 112, 96, 72, 0, 1, 2, 3, 4, 5, 6, 7, 8, 92, 62, 88, 9, 10, 97, 58, 133, 129, 113, 54, 66, 11, 104, 51, 101, 85, 12, 13, 14, 15, 16, 17, 18, 19, 20, 21, 93, 63, 89, 22, 23, 98, 59, 134, 130, 114, 55, 67, 24, 105, 52, 102, 86, 25, 26, 27, 28, 29, 30, 31, 32, 33, 34, 94, 64, 90, 35, 36, 99, 60, 135, 131, 115, 56, 68, 37, 106, 53, 103, 87, 38, 39, 40, 41, 42, 43, 44, 45, 46, 47, 95, 65, 91, 48, 49, 100, 61, 136, 132, 116, 57, 69, 50];

/// The class tables one after the other: the subframe position (1-based) carried by
/// each channel bit pair.
pub open spec fn acelp_pos() -> Seq<u8> {
    CLASS0_POS@ + CLASS1_POS@ + CLASS2_POS@
}

/// Channel order of codec bits: channel bit `i` is bit `acelp_pos()[i / 2]` of subframe `i % 2`.
pub open spec fn to_channel(codec: Seq<u8>) -> Seq<u8> {
    Seq::new(274, |i: int| codec[(i % 2) * 137 + acelp_pos()[i / 2] - 1])
}

/// Codec order of channel bits: codec bit `p` is channel bit `2 * k + p / 137` where
/// position `p % 137` is the `k`-th entry of the class tables.
pub open spec fn to_codec(channel: Seq<u8>) -> Seq<u8> {
    Seq::new(274, |p: int| channel[2 * CHANNEL_INDEX@[p % 137] + p / 137])
}

/// The class tables are a permutation of the positions 1..=137, and `CHANNEL_INDEX` is its inverse.
pub proof fn lemma_positions_permutation()
    ensures
        acelp_pos().len() == 137,
        forall|k: int| 0 <= k < 137 ==> 1 <= #[trigger] acelp_pos()[k] <= 137 && CHANNEL_INDEX@[acelp_pos()[k] - 1] == k,
        forall|p: int| 0 <= p < 137 ==> #[trigger] CHANNEL_INDEX@[p] < 137 && acelp_pos()[CHANNEL_INDEX@[p] as int] - 1 == p,
{
}

/// Convert 274 ACELP bits (one bit per byte) from codec order to channel order.
pub fn codec_to_channel(codec_bits: &[u8; 274]) -> (r: [u8; 274])
    ensures
        r@ == to_channel(codec_bits@),
{
    let mut channel = [0u8; 274];
    let mut out_idx: usize = 0;
    let ghost target = to_channel(codec_bits@);
    let mut bit: usize = 0;
    while bit < 51
        invariant
            target == to_channel(codec_bits@),
            bit <= 51,
            out_idx == 2 * bit,
            channel@.len() == 274,
            forall|i: int| 0 <= i < out_idx ==> #[trigger] channel@[i] == target[i],
        decreases 51 - bit,
    {
        let pos = (CLASS0_POS[bit] - 1) as usize;
        assert(acelp_pos()[bit as int] == CLASS0_POS@[bit as int]);
        channel[out_idx] = codec_bits[pos];
        channel[out_idx + 1] = codec_bits[NUM_ACELP_BITS + pos];
        out_idx = out_idx + 2;
        bit = bit + 1;
    }
    let mut bit: usize = 0;
    while bit < 56
        invariant
            target == to_channel(codec_bits@),
            bit <= 56,
            out_idx == 2 * (51 + bit),
            channel@.len() == 274,
            forall|i: int| 0 <= i < out_idx ==> #[trigger] channel@[i] == target[i],
        decreases 56 - bit,
    {
        let pos = (CLASS1_POS[bit] - 1) as usize;
        assert(acelp_pos()[51 + bit] == CLASS1_POS@[bit as int]);
        channel[out_idx] = codec_bits[pos];
        channel[out_idx + 1] = codec_bits[NUM_ACELP_BITS + pos];
        out_idx = out_idx + 2;
        bit = bit + 1;
    }
    let mut bit: usize = 0;
    while bit < 30
        invariant
            target == to_channel(codec_bits@),
            bit <= 30,
            out_idx == 2 * (107 + bit),
            channel@.len() == 274,
            forall|i: int| 0 <= i < out_idx ==> #[trigger] channel@[i] == target[i],
        decreases 30 - bit,
    {
        let pos = (CLASS2_POS[bit] - 1) as usize;
        assert(acelp_pos()[107 + bit] == CLASS2_POS@[bit as int]);
        channel[out_idx] = codec_bits[pos];
        channel[out_idx + 1] = codec_bits[NUM_ACELP_BITS + pos];
        out_idx = out_idx + 2;
        bit = bit + 1;
    }
    assert(channel@ =~= target);
    channel
}

/// The codec positions of the first `n` entries of the class tables hold their channel
/// bits; the others are still 0.
pub open spec fn codec_filled(codec: Seq<u8>, ch: Seq<u8>, n: int) -> bool {
    &&& codec.len() == 274
    &&& forall|p: int|
        #![trigger CHANNEL_INDEX@[p]]
        0 <= p < 137 ==> if CHANNEL_INDEX@[p] < n {
            codec[p] == ch[2 * CHANNEL_INDEX@[p]] && codec[137 + p] == ch[2 * CHANNEL_INDEX@[p] + 1]
        } else {
            codec[p] == 0 && codec[137 + p] == 0
        }
}

proof fn lemma_fill_step(before: Seq<u8>, after: Seq<u8>, ch: Seq<u8>, n: int, pos: int)
    requires
        codec_filled(before, ch, n),
        0 <= n < 137,
        pos == acelp_pos()[n] - 1,
        after == before.update(pos, ch[2 * n]).update(137 + pos, ch[2 * n + 1]),
    ensures
        codec_filled(after, ch, n + 1),
{
    lemma_positions_permutation();
    assert forall|p: int| #![trigger CHANNEL_INDEX@[p]] 0 <= p < 137 implies if CHANNEL_INDEX@[p] < n + 1 {
        after[p] == ch[2 * CHANNEL_INDEX@[p]] && after[137 + p] == ch[2 * CHANNEL_INDEX@[p] + 1]
    } else {
        after[p] == 0 && after[137 + p] == 0
    } by {
        assert(acelp_pos()[CHANNEL_INDEX@[p] as int] - 1 == p);
        if p == pos {
            assert(CHANNEL_INDEX@[p] == n);
        }
    }
}

/// Convert 274 ACELP bits (one bit per byte) from channel order back to codec order.
pub fn channel_to_codec(channel_bits: &[u8; 274]) -> (r: [u8; 274])
    ensures
        r@ == to_codec(channel_bits@),
{
    let mut codec = [0u8; 274];
    let mut in_idx: usize = 0;
    let ghost ch = channel_bits@;
    let mut bit: usize = 0;
    while bit < 51
        invariant
            ch == channel_bits@,
            bit <= 51,
            in_idx == 2 * bit,
            codec@.len() == 274,
            codec_filled(codec@, ch, bit as int),
        decreases 51 - bit,
    {
        let pos = (CLASS0_POS[bit] - 1) as usize;
        assert(acelp_pos()[bit as int] == CLASS0_POS@[bit as int]);
        let ghost before = codec@;
        codec[pos] = channel_bits[in_idx];
        codec[NUM_ACELP_BITS + pos] = channel_bits[in_idx + 1];
        proof {
            lemma_fill_step(before, codec@, ch, bit as int, pos as int);
        }
        in_idx = in_idx + 2;
        bit = bit + 1;
    }
    let mut bit: usize = 0;
    while bit < 56
        invariant
            ch == channel_bits@,
            bit <= 56,
            in_idx == 2 * (51 + bit),
            codec@.len() == 274,
            codec_filled(codec@, ch, 51 + bit),
        decreases 56 - bit,
    {
        let pos = (CLASS1_POS[bit] - 1) as usize;
        assert(acelp_pos()[51 + bit] == CLASS1_POS@[bit as int]);
        let ghost before = codec@;
        codec[pos] = channel_bits[in_idx];
        codec[NUM_ACELP_BITS + pos] = channel_bits[in_idx + 1];
        proof {
            lemma_fill_step(before, codec@, ch, 51 + bit, pos as int);
        }
        in_idx = in_idx + 2;
        bit = bit + 1;
    }
    let mut bit: usize = 0;
    while bit < 30
        invariant
            ch == channel_bits@,
            bit <= 30,
            in_idx == 2 * (107 + bit),
            codec@.len() == 274,
            codec_filled(codec@, ch, 107 + bit),
        decreases 30 - bit,
    {
        let pos = (CLASS2_POS[bit] - 1) as usize;
        assert(acelp_pos()[107 + bit] == CLASS2_POS@[bit as int]);
        let ghost before = codec@;
        codec[pos] = channel_bits[in_idx];
        codec[NUM_ACELP_BITS + pos] = channel_bits[in_idx + 1];
        proof {
            lemma_fill_step(before, codec@, ch, 107 + bit, pos as int);
        }
        in_idx = in_idx + 2;
        bit = bit + 1;
    }
    assert forall|p: int| 0 <= p < 274 implies #[trigger] codec@[p] == to_codec(ch)[p] by {
        lemma_positions_permutation();
        if p >= 137 {
            assert(CHANNEL_INDEX@[p - 137] < 137);
            assert(codec@[137 + (p - 137)] == ch[2 * CHANNEL_INDEX@[p - 137] + 1]);
        } else {
            assert(CHANNEL_INDEX@[p] < 137);
            assert(codec@[p] == ch[2 * CHANNEL_INDEX@[p]]);
        }
    }
    assert(codec@ =~= to_codec(ch));
    codec
}

/// Reordering to the channel and back gives the codec bits back.
pub proof fn lemma_codec_channel_roundtrip(codec: Seq<u8>)
    requires
        codec.len() == 274,
    ensures
        to_codec(to_channel(codec)) == codec,
{
    lemma_positions_permutation();
    assert forall|p: int| 0 <= p < 274 implies #[trigger] to_codec(to_channel(codec))[p] == codec[p] by {
        let q = p % 137;
        let s = p / 137;
        let i = 2 * CHANNEL_INDEX@[q] + s;
        assert(i % 2 == s && i / 2 == CHANNEL_INDEX@[q]);
        assert(acelp_pos()[CHANNEL_INDEX@[q] as int] - 1 == q);
    }
    assert(to_codec(to_channel(codec)) =~= codec);
}

/// Reordering to codec order and back gives the channel bits back.
pub proof fn lemma_channel_codec_roundtrip(channel: Seq<u8>)
    requires
        channel.len() == 274,
    ensures
        to_channel(to_codec(channel)) == channel,
{
    lemma_positions_permutation();
    assert forall|i: int| 0 <= i < 274 implies #[trigger] to_channel(to_codec(channel))[i] == channel[i] by {
        let k = i / 2;
        let s = i % 2;
        let p = s * 137 + acelp_pos()[k] - 1;
        assert(1 <= acelp_pos()[k] <= 137 && CHANNEL_INDEX@[acelp_pos()[k] - 1] == k);
        assert(p % 137 == acelp_pos()[k] - 1 && p / 137 == s);
    }
    assert(to_channel(to_codec(channel)) =~= channel);
}

} // verus!
