//! Scrambling and unscrambling between type-4 and type-5 bits.
use vstd::prelude::*;
use crate::bitbuffer::BitBuffer;

verus! {

/// Default scrambling code, used for the BSCH channel.
pub const SCRAMB_INIT: u32 = 3;

/// Feedback bit of the scrambling LFSR in state `x` (Fibonacci form, taps at
/// 32, 26, 23, 22, 16, 12, 11, 10, 8, 7, 5, 4, 2, 1).
pub open spec fn lfsr_bit(x: u32) -> u32 {
    (x ^ (x >> 6u32) ^ (x >> 9u32) ^ (x >> 10u32) ^ (x >> 16u32) ^ (x >> 20u32) ^ (x >> 21u32) ^ (x >> 22u32) ^ (x
        >> 24u32) ^ (x >> 25u32) ^ (x >> 27u32) ^ (x >> 28u32) ^ (x >> 30u32) ^ (x >> 31u32)) & 1u32
}

/// Next LFSR state: shifted right, the feedback bit entering at the top.
pub open spec fn lfsr_next(x: u32) -> u32 {
    (x >> 1u32) | (lfsr_bit(x) << 31u32)
}

/// LFSR state after `k` steps from `init`.
pub open spec fn lfsr_state(init: u32, k: nat) -> u32
    decreases k,
{
    if k == 0 {
        init
    } else {
        lfsr_next(lfsr_state(init, (k - 1) as nat))
    }
}

/// Scrambling bit `k` of the sequence for initial value `init`.
pub open spec fn scramb_bit(init: u32, k: nat) -> bool {
    lfsr_bit(lfsr_state(init, k)) == 1
}

/// `bits` with those at `[from, to)` flipped where the scrambling sequence for `init`,
/// started at `from`, has a 1.
pub open spec fn scrambled(bits: Seq<bool>, from: nat, to: nat, init: u32) -> Seq<bool> {
    Seq::new(bits.len(), |i: int| if from <= i < to { bits[i] != scramb_bit(init, (i - from) as nat) } else { bits[i] })
}

proof fn lemma_and1(x: u32)
    by (bit_vector)
    ensures
        x & 1u32 <= 1,
{
}

/// Produce the next scrambling bit and step the LFSR.
fn next_lfsr_bit(lfsr: &mut u32) -> (r: u8)
    ensures
        r as u32 == lfsr_bit(*old(lfsr)),
        r <= 1,
        *final(lfsr) == lfsr_next(*old(lfsr)),
{
    let x = *lfsr;
    let bit = (x ^ (x >> 6u32) ^ (x >> 9u32) ^ (x >> 10u32) ^ (x >> 16u32) ^ (x >> 20u32) ^ (x >> 21u32) ^ (x >> 22u32)
        ^ (x >> 24u32) ^ (x >> 25u32) ^ (x >> 27u32) ^ (x >> 28u32) ^ (x >> 30u32) ^ (x >> 31u32)) & 1;
    proof {
        lemma_and1(x ^ (x >> 6u32) ^ (x >> 9u32) ^ (x >> 10u32) ^ (x >> 16u32) ^ (x >> 20u32) ^ (x >> 21u32) ^ (x
            >> 22u32) ^ (x >> 24u32) ^ (x >> 25u32) ^ (x >> 27u32) ^ (x >> 28u32) ^ (x >> 30u32) ^ (x >> 31u32));
    }
    *lfsr = (x >> 1u32) | (bit << 31u32);
    bit as u8
}

/// Fill `out` with the first `out.len()` scrambling bits (0 or 1) for initial value `lfsr_init`.
pub fn tetra_scramb_get_bits(lfsr_init: u32, out: &mut [u8])
    ensures
        final(out)@.len() == old(out)@.len(),
        forall|k: int| 0 <= k < old(out)@.len() ==> #[trigger] final(out)@[k] == (if scramb_bit(lfsr_init, k as nat) { 1u8 } else { 0u8 }),
{
    let mut lfsr = lfsr_init;
    let n = out.len();
    let mut k: usize = 0;
    while k < n
        invariant
            n == out@.len(),
            k <= n,
            lfsr == lfsr_state(lfsr_init, k as nat),
            forall|j: int| 0 <= j < k ==> #[trigger] out@[j] == (if scramb_bit(lfsr_init, j as nat) { 1u8 } else { 0u8 }),
        decreases n - k,
    {
        let b = next_lfsr_bit(&mut lfsr);
        out[k] = b;
        k = k + 1;
    }
}

/// Scramble (or unscramble: the operation is its own inverse) the bits of `buf` from the
/// cursor to the window end with the sequence for `lfsr_init`; the cursor is left where it was.
pub fn tetra_scramb_bits(lfsr_init: u32, buf: &mut BitBuffer)
    requires
        old(buf)@.wf(),
        old(buf)@.end - old(buf)@.pos <= isize::MAX,
    ensures
        final(buf)@.bits() == scrambled(old(buf)@.bits(), old(buf)@.pos, old(buf)@.end, lfsr_init),
        final(buf)@.bytes.len() == old(buf)@.bytes.len(),
        final(buf)@.start == old(buf)@.start,
        final(buf)@.pos == old(buf)@.pos,
        final(buf)@.end == old(buf)@.end,
        final(buf)@.autoexpand == old(buf)@.autoexpand,
        final(buf)@.wf(),
{
    let ghost o = buf@;
    let num_bits = buf.get_len_remaining() as isize;
    let mut lfsr = lfsr_init;
    let mut k: isize = 0;
    while k < num_bits
        invariant
            o.wf(),
            num_bits == o.end - o.pos,
            0 <= k <= num_bits,
            buf@.wf(),
            buf@.bytes.len() == o.bytes.len(),
            buf@.start == o.start,
            buf@.pos == o.pos + k,
            buf@.end == o.end,
            buf@.autoexpand == o.autoexpand,
            lfsr == lfsr_state(lfsr_init, k as nat),
            buf@.bits() == scrambled(o.bits(), o.pos, (o.pos + k) as nat, lfsr_init),
        decreases num_bits - k,
    {
        let bit = next_lfsr_bit(&mut lfsr);
        buf.xor_bit(bit);
        proof {
            assert(buf@.bits() =~= scrambled(o.bits(), o.pos, (o.pos + k + 1) as nat, lfsr_init));
        }
        k = k + 1;
    }
    buf.seek_rel(-num_bits);
}

/// Scrambling twice with the same initial value gives the bits back.
pub proof fn lemma_scramble_twice(bits: Seq<bool>, from: nat, to: nat, init: u32)
    ensures
        scrambled(scrambled(bits, from, to, init), from, to, init) == bits,
{
    assert(scrambled(scrambled(bits, from, to, init), from, to, init) =~= bits);
}

/// Initial LFSR state for a cell from its country code, network code and colour code;
/// colour code 0 means an all-zero scrambling code.
pub fn tetra_scramb_get_init(mcc: u16, mnc: u16, colour: u8) -> (r: u32)
    ensures
        r == (if colour == 0 {
            0u32
        } else {
            ((((colour as u32) | ((mnc as u32) << 6u32) | ((mcc as u32) << 20u32)) << 2u32) | SCRAMB_INIT) as u32
        }),
{
    if colour == 0 {
        return 0;
    }
    (((colour as u32) | ((mnc as u32) << 6u32) | ((mcc as u32) << 20u32)) << 2u32) | SCRAMB_INIT
}

} // verus!
