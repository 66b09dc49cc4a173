//! A growable buffer of bits with a read/write cursor and a window.
use vstd::prelude::*;
use crate::bits::{
    all_01, bit_char, bit_num, bits_to_bytes01, bits_to_chars, bits_value, byte_bit, bytes_to_bits,
    fits_bits, lemma_and1_le1, lemma_bits_value_bound, lemma_bits_value_ext, lemma_bits_value_step,
    lemma_bits_value_u64, lemma_byte_set_bit, lemma_byte_xor_bit, lemma_pow2_mono,
    lemma_value_bits_of_bits_value, lemma_value_bits_ones,
    lemma_value_bits_zero, lemma_value_bits_roundtrip, value_bit, value_bits,
};
use crate::pdu_parse_error::PduParseErr;
use crate::text::{hex_digit_upper, hex_upper};
use vstd::string::StringSliceAdditionalSpecFns;

verus! {

/// Abstract state of a [`BitBuffer`].
pub struct BitBufferView {
    /// The bytes that hold the bits, most significant bit first.
    pub bytes: Seq<u8>,
    /// Absolute bit index of the window start.
    pub start: nat,
    /// Absolute bit index of the cursor.
    pub pos: nat,
    /// Absolute bit index of the window end (exclusive).
    pub end: nat,
    /// Whether writes beyond `end` grow the buffer.
    pub autoexpand: bool,
}

impl BitBufferView {
    /// Number of bits the bytes can hold.
    pub open spec fn cap(self) -> nat {
        self.bytes.len() * 8
    }

    /// All bits of the buffer.
    pub open spec fn bits(self) -> Seq<bool> {
        bytes_to_bits(self.bytes)
    }

    /// Well-formedness: `start <= pos <= end <= capacity`.
    pub open spec fn wf(self) -> bool {
        &&& self.start <= self.pos
        &&& self.pos <= self.end
        &&& self.end <= self.cap()
        &&& self.cap() <= usize::MAX
    }

    /// The bits of the window `[start, end)`.
    pub open spec fn window(self) -> Seq<bool> {
        self.bits().subrange(self.start as int, self.end as int)
    }

    /// Whether writing `n` bits at the cursor is allowed: it stays inside the
    /// window, or the buffer grows and the new sizes fit in a `usize`.
    pub open spec fn can_write(self, n: nat) -> bool {
        write_ok(self.pos, self.end, self.bytes.len(), self.autoexpand, n)
    }

    /// Window end after writing `n` bits at the cursor.
    pub open spec fn end_after(self, n: nat) -> nat {
        end_grown(self.pos, self.end, n)
    }

    /// Whether writing `n` bits at the cursor reallocates the bytes.
    pub open spec fn grows(self, n: nat) -> bool {
        grow_needed(self.pos, self.end, self.bytes.len(), n)
    }

    /// Number of bytes after writing `n` bits at the cursor.
    pub open spec fn nbytes_after(self, n: nat) -> nat {
        nbytes_grown(self.pos, self.end, self.bytes.len(), n)
    }

    /// `after` is this buffer after writing `n` bits given by `f` at the cursor.
    pub open spec fn wrote(self, after: BitBufferView, n: nat, f: spec_fn(int) -> bool) -> bool {
        &&& after.wf()
        &&& after.bits() == self.bits_with(self.nbytes_after(n), n, f)
        &&& after.bytes.len() == self.nbytes_after(n)
        &&& after.start == self.start
        &&& after.pos == self.pos + n
        &&& after.end == self.end_after(n)
        &&& after.autoexpand == self.autoexpand
    }

    /// `after` is this buffer after writes of `sizes[0]`, `sizes[1]`, ... bits at the
    /// cursor, whose bits, taken together, are given by `f`.
    pub open spec fn wrote_all(self, after: BitBufferView, sizes: Seq<nat>, f: spec_fn(int) -> bool) -> bool {
        &&& after.wf()
        &&& after.bits() == self.bits_with(self.nbytes_after_all(sizes), sum_sizes(sizes), f)
        &&& after.bytes.len() == self.nbytes_after_all(sizes)
        &&& after.start == self.start
        &&& after.pos == self.pos + sum_sizes(sizes)
        &&& after.end == self.end_after_all(sizes)
        &&& after.autoexpand == self.autoexpand
    }

    /// Whether writes of `sizes[0]`, `sizes[1]`, ... bits, one after another at the cursor, are allowed.
    pub open spec fn can_write_all(self, sizes: Seq<nat>) -> bool {
        seq_ok(self.pos, self.end, self.bytes.len(), self.autoexpand, sizes)
    }

    /// Window end after writes of `sizes[0]`, `sizes[1]`, ... bits at the cursor.
    pub open spec fn end_after_all(self, sizes: Seq<nat>) -> nat {
        seq_shape(self.pos, self.end, self.bytes.len(), sizes).0
    }

    /// Number of bytes after writes of `sizes[0]`, `sizes[1]`, ... bits at the cursor.
    pub open spec fn nbytes_after_all(self, sizes: Seq<nat>) -> nat {
        seq_shape(self.pos, self.end, self.bytes.len(), sizes).1
    }

    /// Whether `n` bits can be written at the cursor in chunks of at most `c` bits.
    pub open spec fn can_write_chunked(self, n: nat, c: nat) -> bool {
        chunked_ok(self.pos, self.end, self.bytes.len(), self.autoexpand, n, c)
    }

    /// Window end after writing `n` bits at the cursor in chunks of at most `c` bits.
    pub open spec fn end_after_chunked(self, n: nat, c: nat) -> nat {
        chunked_shape(self.pos, self.end, self.bytes.len(), n, c).0
    }

    /// Number of bytes after writing `n` bits at the cursor in chunks of at most `c` bits.
    pub open spec fn nbytes_after_chunked(self, n: nat, c: nat) -> nat {
        chunked_shape(self.pos, self.end, self.bytes.len(), n, c).1
    }

    /// Markers printed just before bit `i` in a dump: '<' at the window
    /// start and '>' at the window end (when `pw`), '^' at the cursor (when `pp`).
    pub open spec fn markers(self, pw: bool, pp: bool, i: nat) -> Seq<char> {
        (if pw && i == self.start { seq!['<'] } else { Seq::<char>::empty() })
            + (if pp && i == self.pos { seq!['^'] } else { Seq::<char>::empty() })
            + (if pw && i == self.end { seq!['>'] } else { Seq::<char>::empty() })
    }

    /// Dump of the `k` bits from `from`, each preceded by its markers.
    pub open spec fn dump_upto(self, pw: bool, pp: bool, from: nat, k: nat) -> Seq<char>
        decreases k,
    {
        if k == 0 {
            Seq::<char>::empty()
        } else {
            self.dump_upto(pw, pp, from, (k - 1) as nat) + self.markers(pw, pp, (from + k - 1) as nat)
                + seq![bit_char(self.bits()[from + k - 1])]
        }
    }

    /// Dump of the bits `[from, to)` with markers, and the markers that fall at `to`.
    pub open spec fn dump(self, pw: bool, pp: bool, from: nat, to: nat) -> Seq<char> {
        self.dump_upto(pw, pp, from, (to - from) as nat) + self.markers(pw, pp, to)
    }

    /// Number of hexadecimal digits in a dump of the window.
    pub open spec fn n_nibbles(self) -> nat {
        ((self.end - self.start + 3) / 4) as nat
    }

    /// Value of the `i`-th hexadecimal digit of the window; a last digit with
    /// fewer than 4 bits is padded on the right with zeros.
    pub open spec fn nibble(self, i: int) -> nat {
        let left = self.end - self.start - i * 4;
        let take: nat = if left < 4 { left as nat } else { 4 };
        bits_value(self.bits(), self.start + i * 4, take) * pad_factor(take)
    }

    /// Number of bits that `xor_bytearr` applies when asked for `n` bits: all
    /// of them when they fit in the window, else whole 64-bit chunks only.
    pub open spec fn xor_applied(self, n: nat) -> nat {
        if n <= self.end - self.pos {
            n
        } else {
            (64 * ((self.end - self.pos) / 64)) as nat
        }
    }

    /// The bits after writing `n` bits given by `f` at the cursor, when the
    /// buffer ends up with `nbytes` bytes; bits added by growth are 0.
    pub open spec fn bits_with(self, nbytes: nat, n: nat, f: spec_fn(int) -> bool) -> Seq<bool> {
        Seq::new(
            nbytes * 8,
            |i: int|
                if self.pos <= i < self.pos + n {
                    f(i - self.pos)
                } else if i < self.cap() {
                    self.bits()[i]
                } else {
                    false
                },
        )
    }

}

/// Factor that pads a digit of `take` bits on the right to 4 bits.
pub open spec fn pad_factor(take: nat) -> nat {
    if take == 1 {
        8
    } else if take == 2 {
        4
    } else if take == 3 {
        2
    } else {
        1
    }
}

/// Whether a write of `n` bits at `pos` reallocates a buffer of `nbytes` bytes whose window ends at `end`.
pub open spec fn grow_needed(pos: nat, end: nat, nbytes: nat, n: nat) -> bool {
    pos + n > end && n > nbytes * 8 - end
}

/// Window end after writing `n` bits at `pos`: a write past the end moves it by `n`.
pub open spec fn end_grown(pos: nat, end: nat, n: nat) -> nat {
    if pos + n > end {
        end + n
    } else {
        end
    }
}

/// Number of bytes after writing `n` bits at `pos`: when the buffer must grow,
/// it grows to the larger of the needed size and twice the old one.
pub open spec fn nbytes_grown(pos: nat, end: nat, nbytes: nat, n: nat) -> nat {
    if grow_needed(pos, end, nbytes, n) {
        let needed = end + n;
        let doubled = nbytes * 8 * 2;
        let new_cap = if needed > doubled { needed } else { doubled };
        ((new_cap + 7) / 8) as nat
    } else {
        nbytes
    }
}

/// Whether writing `n` bits at `pos` is allowed: it stays inside the window,
/// or the buffer grows and the new sizes fit in a `usize`.
pub open spec fn write_ok(pos: nat, end: nat, nbytes: nat, autoexpand: bool, n: nat) -> bool {
    ||| pos + n <= end
    ||| (autoexpand && end + n + 7 <= usize::MAX && nbytes * 8 * 2 + 7 <= usize::MAX)
}

/// Size of the next chunk when `n` bits remain and chunks hold at most `c` bits.
pub open spec fn chunk_len(n: nat, c: nat) -> nat {
    if n < c {
        n
    } else {
        c
    }
}

/// Window end and byte count after writing `n` bits at `pos` in chunks of at most `c` bits.
pub open spec fn chunked_shape(pos: nat, end: nat, nbytes: nat, n: nat, c: nat) -> (nat, nat)
    decreases n,
{
    if n == 0 || c == 0 {
        (end, nbytes)
    } else {
        let k = chunk_len(n, c);
        chunked_shape(pos + k, end_grown(pos, end, k), nbytes_grown(pos, end, nbytes, k), (n - k) as nat, c)
    }
}

/// Whether every chunk of a write of `n` bits at `pos` in chunks of at most `c` bits is allowed.
pub open spec fn chunked_ok(pos: nat, end: nat, nbytes: nat, autoexpand: bool, n: nat, c: nat) -> bool
    decreases n,
{
    if n == 0 || c == 0 {
        true
    } else {
        let k = chunk_len(n, c);
        write_ok(pos, end, nbytes, autoexpand, k) && chunked_ok(
            pos + k,
            end_grown(pos, end, k),
            nbytes_grown(pos, end, nbytes, k),
            autoexpand,
            (n - k) as nat,
            c,
        )
    }
}

/// A chunked write that stays inside the window is allowed and changes neither the end nor the bytes count.
pub proof fn lemma_chunked_within_window(pos: nat, end: nat, nbytes: nat, autoexpand: bool, n: nat, c: nat)
    requires
        pos + n <= end,
    ensures
        chunked_ok(pos, end, nbytes, autoexpand, n, c),
        chunked_shape(pos, end, nbytes, n, c) == (end, nbytes),
    decreases n,
{
    if n > 0 && c > 0 {
        let k = chunk_len(n, c);
        lemma_chunked_within_window(pos + k, end, nbytes, autoexpand, (n - k) as nat, c);
    }
}

/// One more chunk written at the cursor extends the run of written bits.
proof fn lemma_bits_with_step(
    o: BitBufferView,
    cur: BitBufferView,
    nb2: nat,
    done: nat,
    k: nat,
    f: spec_fn(int) -> bool,
    g: spec_fn(int) -> bool,
)
    requires
        o.wf(),
        cur.wf(),
        cur.pos == o.pos + done,
        cur.bits() == o.bits_with(cur.bytes.len(), done, f),
        o.cap() <= cur.cap(),
        forall|j: int| 0 <= j < k ==> #[trigger] g(j) == f(done + j),
    ensures
        cur.bits_with(nb2, k, g) == o.bits_with(nb2, done + k, f),
{
    let a = cur.bits_with(nb2, k, g);
    let b = o.bits_with(nb2, done + k, f);
    assert forall|i: int| 0 <= i < a.len() implies a[i] == b[i] by {
        if cur.pos <= i < cur.pos + k {
            assert(g(i - cur.pos) == f(done + (i - cur.pos)));
        }
    }
    assert(a =~= b);
}

/// Reading back what was written: after `write_bits(value, n)` at cursor `p`, the `n`
/// bits at `p` have the value `value`.
pub proof fn lemma_write_bits_then_read(v: BitBufferView, value: u64, n: nat)
    requires
        v.wf(),
        n <= 64,
        fits_bits(value, n),
        v.can_write(n),
    ensures
        bits_value(v.bits_with(v.nbytes_after(n), n, |k: int| value_bit(value, n, k)), v.pos as int, n) == value,
{
    let w = v.bits_with(v.nbytes_after(n), n, |k: int| value_bit(value, n, k));
    assert forall|k: int| 0 <= k < n implies #[trigger] w[v.pos + k] == value_bits(value, n)[0 + k] by {}
    lemma_bits_value_ext(w, v.pos as int, value_bits(value, n), 0, n);
    lemma_value_bits_roundtrip(value, n);
}

/// A buffer built from a '0'/'1' string prints back as that string.
pub proof fn lemma_bitstr_roundtrip(s: Seq<char>, v: BitBufferView)
    requires
        v.start == 0,
        v.end == s.len(),
        v.end <= v.cap(),
        v.bits() == Seq::new(v.cap(), |i: int| i < s.len() && s[i] == '1'),
        forall|i: int| 0 <= i < s.len() ==> #[trigger] s[i] == '0' || s[i] == '1',
    ensures
        bits_to_chars(v.window()) == s,
{
    assert(bits_to_chars(v.window()) =~= s);
}

/// A buffer built from one bit per byte gives back those bytes.
pub proof fn lemma_bitarr_roundtrip(data: Seq<u8>, v: BitBufferView)
    requires
        all_01(data),
        v.start == 0,
        v.end == data.len(),
        v.end <= v.cap(),
        v.bits() == Seq::new(v.cap(), |i: int| i < data.len() && data[i] == 1),
    ensures
        bits_to_bytes01(v.window()) == data,
{
    assert forall|i: int| 0 <= i < data.len() implies #[trigger] bits_to_bytes01(v.window())[i] == data[i] by {
        assert(data[i] <= 1);
    }
    assert(bits_to_bytes01(v.window()) =~= data);
}

/// Whether the writes of `sizes[0]`, `sizes[1]`, ... bits, one after another at
/// the cursor, are all allowed.
pub open spec fn seq_ok(pos: nat, end: nat, nbytes: nat, autoexpand: bool, sizes: Seq<nat>) -> bool
    decreases sizes.len(),
{
    if sizes.len() == 0 {
        true
    } else {
        let k = sizes[0];
        write_ok(pos, end, nbytes, autoexpand, k) && seq_ok(
            pos + k,
            end_grown(pos, end, k),
            nbytes_grown(pos, end, nbytes, k),
            autoexpand,
            sizes.drop_first(),
        )
    }
}

/// Window end and byte count after the writes of `sizes[0]`, `sizes[1]`, ... bits at the cursor.
pub open spec fn seq_shape(pos: nat, end: nat, nbytes: nat, sizes: Seq<nat>) -> (nat, nat)
    decreases sizes.len(),
{
    if sizes.len() == 0 {
        (end, nbytes)
    } else {
        let k = sizes[0];
        seq_shape(pos + k, end_grown(pos, end, k), nbytes_grown(pos, end, nbytes, k), sizes.drop_first())
    }
}

/// Total number of bits of a sequence of writes.
pub open spec fn sum_sizes(sizes: Seq<nat>) -> nat
    decreases sizes.len(),
{
    if sizes.len() == 0 {
        0
    } else {
        sizes[0] + sum_sizes(sizes.drop_first())
    }
}

/// Two writes in a row: a write of `n` bits with `f` after the writes `sizes` with `g`.
pub proof fn lemma_wrote_then(
    o: BitBufferView,
    mid: BitBufferView,
    after: BitBufferView,
    sizes: Seq<nat>,
    g: spec_fn(int) -> bool,
    n: nat,
    f: spec_fn(int) -> bool,
    h: spec_fn(int) -> bool,
)
    requires
        o.wf(),
        o.wrote_all(mid, sizes, g),
        mid.wrote(after, n, f),
        forall|k: int| 0 <= k < sum_sizes(sizes) ==> #[trigger] h(k) == g(k),
        forall|k: int| 0 <= k < n ==> #[trigger] h(sum_sizes(sizes) + k) == f(k),
    ensures
        o.wrote_all(after, sizes.push(n), h),
{
    lemma_seq_shape_push(o.pos, o.end, o.bytes.len(), o.autoexpand, sizes, n);
    lemma_sum_sizes_push(sizes, n);
    assert(mid.bits() == o.bits_with(mid.bytes.len(), sum_sizes(sizes), g));
    lemma_seq_shape_grows(o.pos, o.end, o.bytes.len(), sizes);
    let a = after.bits();
    let b = o.bits_with(after.bytes.len(), sum_sizes(sizes) + n, h);
    assert forall|i: int| 0 <= i < a.len() implies a[i] == b[i] by {
        if mid.pos <= i < mid.pos + n {
            assert(h(sum_sizes(sizes) + (i - mid.pos)) == f(i - mid.pos));
            assert(i - o.pos == sum_sizes(sizes) + (i - mid.pos));
        } else if i < mid.cap() {
            if o.pos <= i < o.pos + sum_sizes(sizes) {
                assert(h(i - o.pos) == g(i - o.pos));
            }
        }
    }
    assert(a =~= b);
}

/// A single write is a sequence of one write.
pub proof fn lemma_wrote_one(o: BitBufferView, after: BitBufferView, n: nat, f: spec_fn(int) -> bool)
    requires
        o.wrote(after, n, f),
    ensures
        o.wrote_all(after, seq![n], f),
{
    assert(seq![n].drop_first() =~= Seq::<nat>::empty());
    reveal_with_fuel(seq_shape, 2);
    reveal_with_fuel(sum_sizes, 2);
}

/// Allowed writes in sequence: the first is allowed and so are the rest afterwards.
pub proof fn lemma_seq_ok_first(v: BitBufferView, after: BitBufferView, sizes: Seq<nat>, f: spec_fn(int) -> bool)
    requires
        sizes.len() > 0,
        v.can_write_all(sizes),
        v.wrote(after, sizes[0], f),
    ensures
        v.can_write(sizes[0]),
        after.can_write_all(sizes.drop_first()),
{
}

proof fn lemma_sum_sizes_push(sizes: Seq<nat>, n: nat)
    ensures
        sum_sizes(sizes.push(n)) == sum_sizes(sizes) + n,
    decreases sizes.len(),
{
    if sizes.len() > 0 {
        assert(sizes.push(n).drop_first() =~= sizes.drop_first().push(n));
        lemma_sum_sizes_push(sizes.drop_first(), n);
    } else {
        assert(sizes.push(n).drop_first() =~= Seq::<nat>::empty());
        reveal_with_fuel(sum_sizes, 2);
    }
}

proof fn lemma_seq_shape_grows(pos: nat, end: nat, nbytes: nat, sizes: Seq<nat>)
    ensures
        seq_shape(pos, end, nbytes, sizes).1 >= nbytes,
    decreases sizes.len(),
{
    if sizes.len() > 0 {
        let k = sizes[0];
        lemma_seq_shape_grows(pos + k, end_grown(pos, end, k), nbytes_grown(pos, end, nbytes, k), sizes.drop_first());
    }
}

proof fn lemma_seq_shape_push(pos: nat, end: nat, nbytes: nat, autoexpand: bool, sizes: Seq<nat>, n: nat)
    ensures
        ({
            let (e1, b1) = seq_shape(pos, end, nbytes, sizes);
            let p1 = pos + sum_sizes(sizes);
            &&& seq_shape(pos, end, nbytes, sizes.push(n)) == (end_grown(p1, e1, n), nbytes_grown(p1, e1, b1, n))
            &&& seq_ok(pos, end, nbytes, autoexpand, sizes.push(n)) == (seq_ok(pos, end, nbytes, autoexpand, sizes)
                && write_ok(p1, e1, b1, autoexpand, n))
        }),
    decreases sizes.len(),
{
    if sizes.len() > 0 {
        let k = sizes[0];
        assert(sizes.push(n).drop_first() =~= sizes.drop_first().push(n));
        lemma_seq_shape_push(pos + k, end_grown(pos, end, k), nbytes_grown(pos, end, nbytes, k), autoexpand, sizes.drop_first(), n);
    } else {
        assert(sizes.push(n).drop_first() =~= Seq::<nat>::empty());
        reveal_with_fuel(seq_shape, 2);
        reveal_with_fuel(seq_ok, 2);
    }
}

/// When a sequence of writes is allowed, so is each prefix of it.
pub proof fn lemma_seq_ok_prefix(v: BitBufferView, sizes: Seq<nat>, n: nat)
    requires
        v.can_write_all(sizes.push(n)),
    ensures
        v.can_write_all(sizes),
{
    lemma_seq_shape_push(v.pos, v.end, v.bytes.len(), v.autoexpand, sizes, n);
}

/// After an allowed sequence of writes, the next write of the longer sequence is allowed.
pub proof fn lemma_seq_ok_next(v: BitBufferView, mid: BitBufferView, sizes: Seq<nat>, n: nat, f: spec_fn(int) -> bool)
    requires
        v.can_write_all(sizes.push(n)),
        v.wrote_all(mid, sizes, f),
    ensures
        mid.can_write(n),
{
    lemma_seq_shape_push(v.pos, v.end, v.bytes.len(), v.autoexpand, sizes, n);
}

/// All-zero bytes.
pub open spec fn zero_bytes(n: nat) -> Seq<u8> {
    Seq::new(n, |i: int| 0u8)
}

/// Number of bytes needed for `n` bits.
pub open spec fn bytes_for(n: nat) -> nat {
    ((n + 7) / 8) as nat
}

/// A buffer of bits with a window `[start, end)` and a cursor `pos` inside it.
pub struct BitBuffer {
    buffer: Vec<u8>,
    start: usize,
    pos: usize,
    end: usize,
    flag_autoexpand: bool,
}

impl View for BitBuffer {
    type V = BitBufferView;

    closed spec fn view(&self) -> BitBufferView {
        BitBufferView {
            bytes: self.buffer@,
            start: self.start as nat,
            pos: self.pos as nat,
            end: self.end as nat,
            autoexpand: self.flag_autoexpand,
        }
    }
}

proof fn lemma_zero_byte_bits(k: int)
    requires
        0 <= k < 8,
    ensures
        !byte_bit(0u8, k),
{
    let s: u8 = (7 - k) as u8;
    assert((0u8 >> s) & 1u8 == 0u8) by (bit_vector);
}

proof fn lemma_zero_bytes_bits(n: nat)
    ensures
        forall|i: int| 0 <= i < n * 8 ==> !#[trigger] bytes_to_bits(zero_bytes(n))[i],
{
    assert forall|i: int| 0 <= i < n * 8 implies !#[trigger] bytes_to_bits(zero_bytes(n))[i] by {
        lemma_zero_byte_bits(i % 8);
    }
}

/// A vector of `n` zero bytes.
fn zeroed_vec(n: usize) -> (v: Vec<u8>)
    ensures
        v@ == zero_bytes(n as nat),
{
    let v = vec![0u8; n];
    assert(v@ =~= zero_bytes(n as nat));
    v
}

impl BitBuffer {
    /// Create a zeroed buffer capable of holding exactly `len_bits` bits.
    pub fn new(len_bits: usize) -> (r: Self)
        requires
            len_bits + 7 <= usize::MAX,
        ensures
            r@.bytes == zero_bytes(bytes_for(len_bits as nat)),
            r@.start == 0,
            r@.pos == 0,
            r@.end == len_bits,
            !r@.autoexpand,
            r@.wf(),
    {
        let byte_len = (len_bits + 7) / 8;
        BitBuffer { buffer: zeroed_vec(byte_len), start: 0, pos: 0, end: len_bits, flag_autoexpand: false }
    }

    /// Create a zeroed buffer with an initial capacity but zero length (end is 0).
    /// Writes to this buffer advance the end pointer and grow the buffer when needed.
    pub fn new_autoexpand(initial_max_len_bits: usize) -> (r: Self)
        requires
            initial_max_len_bits + 7 <= usize::MAX,
        ensures
            r@.bytes == zero_bytes(bytes_for(initial_max_len_bits as nat)),
            r@.start == 0,
            r@.pos == 0,
            r@.end == 0,
            r@.autoexpand,
            r@.wf(),
    {
        let byte_len = (initial_max_len_bits + 7) / 8;
        BitBuffer { buffer: zeroed_vec(byte_len), start: 0, pos: 0, end: 0, flag_autoexpand: true }
    }

    /// Wrap an existing byte vector; all of its bits form the window.
    pub fn from_vec(data: Vec<u8>) -> (r: Self)
        requires
            data@.len() * 8 <= usize::MAX,
        ensures
            r@.bytes == data@,
            r@.start == 0,
            r@.pos == 0,
            r@.end == data@.len() * 8,
            !r@.autoexpand,
            r@.wf(),
    {
        let len_bits = data.len() * 8;
        BitBuffer { buffer: data, start: 0, pos: 0, end: len_bits, flag_autoexpand: false }
    }

    /// Copy a byte slice into a new buffer; all of its bits form the window.
    pub fn from_bytes(data: &[u8]) -> (r: Self)
        requires
            data@.len() * 8 <= usize::MAX,
        ensures
            r@.bytes == data@,
            r@.start == 0,
            r@.pos == 0,
            r@.end == data@.len() * 8,
            !r@.autoexpand,
            r@.wf(),
    {
        let len_bits = data.len() * 8;
        let mut v: Vec<u8> = Vec::new();
        for i in 0..data.len()
            invariant
                v@ == data@.subrange(0, i as int),
        {
            v.push(data[i]);
        }
        assert(v@ =~= data@);
        BitBuffer { buffer: v, start: 0, pos: 0, end: len_bits, flag_autoexpand: false }
    }

    /// Determines whether the buffer grows when a write goes beyond its end.
    pub fn set_auto_expand(&mut self, do_auto_expand: bool)
        ensures
            final(self)@ == (BitBufferView { autoexpand: do_auto_expand, ..old(self)@ }),
    {
        self.flag_autoexpand = do_auto_expand;
    }

    /// Active window length (bits), from start to end.
    pub fn get_len(&self) -> (r: usize)
        requires
            self@.wf(),
        ensures
            r == self@.end - self@.start,
    {
        self.end - self.start
    }

    /// Number of bits left in the window, from pos to end.
    pub fn get_len_remaining(&self) -> (r: usize)
        requires
            self@.wf(),
        ensures
            r == self@.end - self@.pos,
    {
        self.end - self.pos
    }

    /// Number of bits written, from start to pos.
    pub fn get_len_written(&self) -> (r: usize)
        requires
            self@.wf(),
        ensures
            r == self@.pos - self@.start,
    {
        self.pos - self.start
    }

    /// The current position, relative to the window start.
    pub fn get_pos(&self) -> (r: usize)
        requires
            self@.wf(),
        ensures
            r == self@.pos - self@.start,
    {
        self.pos - self.start
    }

    /// Absolute index of the window start.
    pub fn get_raw_start(&self) -> (r: usize)
        ensures
            r == self@.start,
    {
        self.start
    }

    /// Absolute index of the window end.
    pub fn get_raw_end(&self) -> (r: usize)
        ensures
            r == self@.end,
    {
        self.end
    }

    /// Absolute index of the cursor.
    pub fn get_raw_pos(&self) -> (r: usize)
        ensures
            r == self@.pos,
    {
        self.pos
    }

    /// Move the cursor to `offset` bits after the window start.
    pub fn seek(&mut self, offset: usize)
        requires
            old(self)@.wf(),
            old(self)@.start + offset <= old(self)@.end,
        ensures
            final(self)@ == (BitBufferView { pos: (old(self)@.start + offset) as nat, ..old(self)@ }),
    {
        self.pos = self.start + offset;
    }

    /// Move the cursor by `offset` bits, which may be negative.
    pub fn seek_rel(&mut self, offset: isize)
        requires
            old(self)@.wf(),
            old(self)@.start <= old(self)@.pos + offset <= old(self)@.end,
        ensures
            final(self)@ == (BitBufferView { pos: (old(self)@.pos + offset) as nat, ..old(self)@ }),
    {
        if offset >= 0 {
            self.pos = self.pos + offset as usize;
        } else {
            let back: usize = (0 - (offset as i128)) as usize;
            self.pos = self.pos - back;
        }
    }

    /// Move the window start; it must not pass the cursor or the end.
    pub fn set_raw_start(&mut self, s: usize)
        requires
            old(self)@.wf(),
            s <= old(self)@.end,
            s <= old(self)@.pos,
        ensures
            final(self)@ == (BitBufferView { start: s as nat, ..old(self)@ }),
    {
        self.start = s;
    }

    /// Move the window end; it must stay within the capacity and not before start or pos.
    pub fn set_raw_end(&mut self, e: usize)
        requires
            old(self)@.wf(),
            e <= old(self)@.cap(),
            e >= old(self)@.start,
            e >= old(self)@.pos,
        ensures
            final(self)@ == (BitBufferView { end: e as nat, ..old(self)@ }),
    {
        self.end = e;
    }

    /// Move the cursor to an absolute position inside the window.
    pub fn set_raw_pos(&mut self, p: usize)
        requires
            old(self)@.wf(),
            old(self)@.start <= p,
            p <= old(self)@.end,
        ensures
            final(self)@ == (BitBufferView { pos: p as nat, ..old(self)@ }),
    {
        self.pos = p;
    }

    /// Bit at absolute index `i`, as 0 or 1.
    fn read_bit_at_unchecked(&self, bit_pos: usize) -> (r: u8)
        requires
            self@.wf(),
            bit_pos < self@.cap(),
        ensures
            r <= 1,
            r == 1 <==> self@.bits()[bit_pos as int],
    {
        let b = self.buffer[bit_pos / 8];
        let s: u8 = (7 - (bit_pos % 8)) as u8;
        proof {
            lemma_and1_le1(b, s);
        }
        (b >> s) & 1
    }

    /// Value of the `num_bits` bits at absolute index `bit_pos`, most significant first.
    fn read_bits_at_unchecked(&self, bit_pos: usize, num_bits: usize) -> (r: u64)
        requires
            self@.wf(),
            num_bits <= 64,
            bit_pos + num_bits <= self@.cap(),
        ensures
            r == bits_value(self@.bits(), bit_pos as int, num_bits as nat),
    {
        let mut result: u64 = 0;
        let mut k: usize = 0;
        while k < num_bits
            invariant
                self@.wf(),
                num_bits <= 64,
                bit_pos + num_bits <= self@.cap(),
                k <= num_bits,
                result == bits_value(self@.bits(), bit_pos as int, k as nat),
            decreases num_bits - k,
        {
            let b = self.read_bit_at_unchecked(bit_pos + k);
            proof {
                lemma_bits_value_bound(self@.bits(), bit_pos as int, k as nat);
                vstd::arithmetic::power2::lemma2_to64();
                vstd::arithmetic::power2::lemma2_to64_rest();
                lemma_pow2_mono(k as nat, 63);
                lemma_bits_value_step(self@.bits(), bit_pos as int, k as nat);
                assert(result < 0x8000_0000_0000_0000u64);
            }
            result = result * 2 + b as u64;
            k = k + 1;
        }
        result
    }

    /// Set the bit at absolute index `i` to `v`.
    fn set_bit_raw(&mut self, i: usize, v: u8)
        requires
            old(self)@.wf(),
            i < old(self)@.cap(),
            v <= 1,
        ensures
            final(self)@.bits() == old(self)@.bits().update(i as int, v == 1),
            final(self)@.bytes.len() == old(self)@.bytes.len(),
            final(self)@.start == old(self)@.start,
            final(self)@.pos == old(self)@.pos,
            final(self)@.end == old(self)@.end,
            final(self)@.autoexpand == old(self)@.autoexpand,
    {
        let idx = i / 8;
        let s: u8 = (7 - (i % 8)) as u8;
        let b = self.buffer[idx];
        let nb: u8 = (b & !(1u8 << s)) | (v << s);
        self.buffer.set(idx, nb);
        proof {
            let ob = old(self)@.bits();
            let nbits = self@.bits();
            assert forall|j: int| 0 <= j < nbits.len() implies #[trigger] nbits[j] == ob.update(i as int, v == 1)[j] by {
                if j / 8 == idx as int {
                    let t: u8 = (7 - j % 8) as u8;
                    lemma_byte_set_bit(b, s, v, t);
                    if j != i as int {
                        assert(t != s);
                    }
                }
            }
            assert(nbits =~= ob.update(i as int, v == 1));
        }
    }

    /// Xor the bit at absolute index `i` with `v`.
    fn xor_bit_raw(&mut self, i: usize, v: u8)
        requires
            old(self)@.wf(),
            i < old(self)@.cap(),
            v <= 1,
        ensures
            final(self)@.bits() == old(self)@.bits().update(i as int, old(self)@.bits()[i as int] != (v == 1)),
            final(self)@.bytes.len() == old(self)@.bytes.len(),
            final(self)@.start == old(self)@.start,
            final(self)@.pos == old(self)@.pos,
            final(self)@.end == old(self)@.end,
            final(self)@.autoexpand == old(self)@.autoexpand,
    {
        let idx = i / 8;
        let s: u8 = (7 - (i % 8)) as u8;
        let b = self.buffer[idx];
        let nb: u8 = b ^ (v << s);
        self.buffer.set(idx, nb);
        proof {
            let ob = old(self)@.bits();
            let nbits = self@.bits();
            let target = ob.update(i as int, ob[i as int] != (v == 1));
            assert forall|j: int| 0 <= j < nbits.len() implies #[trigger] nbits[j] == target[j] by {
                if j / 8 == idx as int {
                    let t: u8 = (7 - j % 8) as u8;
                    lemma_byte_xor_bit(b, s, v, t);
                    lemma_and1_le1(b, t);
                    if j != i as int {
                        assert(t != s);
                    }
                }
            }
            assert(nbits =~= target);
        }
    }

    /// Grow the bytes to hold at least `new_cap_bits` bits; new bytes are zero.
    fn realloc_tail(&mut self, new_cap_bits: usize)
        requires
            old(self)@.wf(),
            new_cap_bits + 7 <= usize::MAX,
            bytes_for(new_cap_bits as nat) >= old(self)@.bytes.len(),
        ensures
            final(self)@ == (BitBufferView {
                bytes: old(self)@.bytes + zero_bytes((bytes_for(new_cap_bits as nat) - old(self)@.bytes.len()) as nat),
                ..old(self)@
            }),
    {
        let new_cap_bytes = (new_cap_bits + 7) / 8;
        assert(new_cap_bytes >= self.buffer.len());
        self.buffer.resize(new_cap_bytes, 0u8);
        assert(self.buffer@ =~= old(self)@.bytes + zero_bytes((bytes_for(new_cap_bits as nat) - old(self)@.bytes.len()) as nat));
    }

    /// Make room for a write of `n` bits at the cursor: grow `end` past the
    /// window when needed, reallocating the bytes if they are too small.
    fn prepare_write(&mut self, n: usize)
        requires
            old(self)@.wf(),
            old(self)@.can_write(n as nat),
        ensures
            final(self)@.wf(),
            final(self)@.bytes.len() == old(self)@.nbytes_after(n as nat),
            final(self)@.bits() == Seq::new(
                old(self)@.nbytes_after(n as nat) * 8,
                |i: int| if i < old(self)@.cap() { old(self)@.bits()[i] } else { false },
            ),
            final(self)@.start == old(self)@.start,
            final(self)@.pos == old(self)@.pos,
            final(self)@.end == old(self)@.end_after(n as nat),
            final(self)@.autoexpand == old(self)@.autoexpand,
            final(self)@.pos + n <= final(self)@.end,
    {
        let ghost ob = old(self)@.bits();
        if n > self.end - self.pos {
            assert(self.flag_autoexpand);
            let free_cap_bits = self.buffer.len() * 8 - self.end;
            let needed_total_bits = self.end + n;
            if n > free_cap_bits {
                let double_cap_bits = self.buffer.len() * 8 * 2;
                let new_cap_bits = if needed_total_bits > double_cap_bits { needed_total_bits } else { double_cap_bits };
                self.realloc_tail(new_cap_bits);
                proof {
                    let nb = self@.bits();
                    let oldlen = old(self)@.bytes.len();
                    assert forall|i: int| 0 <= i < nb.len() implies #[trigger] nb[i] == (if i < old(self)@.cap() { ob[i] } else { false }) by {
                        if i < old(self)@.cap() {
                            assert(i / 8 < oldlen);
                            assert(self@.bytes[i / 8] == old(self)@.bytes[i / 8]);
                        } else {
                            assert(i / 8 >= oldlen);
                            assert(self@.bytes[i / 8] == 0u8);
                            lemma_zero_byte_bits(i % 8);
                        }
                    }
                    assert(nb =~= Seq::new(
                        old(self)@.nbytes_after(n as nat) * 8,
                        |i: int| if i < old(self)@.cap() { ob[i] } else { false },
                    ));
                }
            } else {
                assert(self@.bits() =~= Seq::new(
                    old(self)@.nbytes_after(n as nat) * 8,
                    |i: int| if i < old(self)@.cap() { ob[i] } else { false },
                ));
            }
            self.end = self.end + n;
        } else {
            assert(self@.bits() =~= Seq::new(
                old(self)@.nbytes_after(n as nat) * 8,
                |i: int| if i < old(self)@.cap() { ob[i] } else { false },
            ));
        }
    }

    /// Write a single bit (0 or 1) at the cursor and advance it.
    /// With autoexpand the window end advances when needed; otherwise the
    /// write must stay inside the window.
    pub fn write_bit(&mut self, value: u8)
        requires
            old(self)@.wf(),
            value <= 1,
            old(self)@.can_write(1),
        ensures
            final(self)@.wf(),
            final(self)@.bits() == old(self)@.bits_with(old(self)@.nbytes_after(1), 1, |k: int| value == 1),
            final(self)@.bytes.len() == old(self)@.nbytes_after(1),
            final(self)@.start == old(self)@.start,
            final(self)@.pos == old(self)@.pos + 1,
            final(self)@.end == old(self)@.end_after(1),
            final(self)@.autoexpand == old(self)@.autoexpand,
    {
        self.prepare_write(1);
        let ghost mid = self@.bits();
        self.set_bit_raw(self.pos, value);
        self.pos = self.pos + 1;
        assert(self@.bits() =~= old(self)@.bits_with(old(self)@.nbytes_after(1), 1, |k: int| value == 1));
    }

    /// Write the low `num_bits` bits of `value` (at most 64), most significant
    /// first, at the cursor and advance it. With autoexpand the window end
    /// advances when needed; otherwise the write must stay inside the window.
    pub fn write_bits(&mut self, value: u64, num_bits: usize)
        requires
            old(self)@.wf(),
            num_bits <= 64,
            fits_bits(value, num_bits as nat),
            old(self)@.can_write(num_bits as nat),
        ensures
            final(self)@.wf(),
            final(self)@.bits() == old(self)@.bits_with(old(self)@.nbytes_after(num_bits as nat), num_bits as nat, |k: int| value_bit(value, num_bits as nat, k)),
            final(self)@.bytes.len() == old(self)@.nbytes_after(num_bits as nat),
            final(self)@.start == old(self)@.start,
            final(self)@.pos == old(self)@.pos + num_bits,
            final(self)@.end == old(self)@.end_after(num_bits as nat),
            final(self)@.autoexpand == old(self)@.autoexpand,
    {
        self.prepare_write(num_bits);
        let ghost o = old(self)@;
        let ghost f = |k: int| value_bit(value, num_bits as nat, k);
        let p0 = self.pos;
        let mut j: usize = 0;
        while j < num_bits
            invariant
                self@.wf(),
                j <= num_bits,
                num_bits <= 64,
                p0 == o.pos,
                self@.pos == o.pos,
                self@.start == o.start,
                self@.end == o.end_after(num_bits as nat),
                self@.autoexpand == o.autoexpand,
                self@.bytes.len() == o.nbytes_after(num_bits as nat),
                p0 + num_bits <= self@.end,
                self@.bits() == Seq::new(
                    o.nbytes_after(num_bits as nat) * 8,
                    |i: int|
                        if p0 <= i < p0 + j {
                            value_bit(value, num_bits as nat, i - p0)
                        } else if i < o.cap() {
                            o.bits()[i]
                        } else {
                            false
                        },
                ),
            decreases num_bits - j,
        {
            let sh: u64 = (num_bits - 1 - j) as u64;
            let b: u8 = ((value >> sh) & 1u64) as u8;
            proof {
                assert((value >> sh) & 1u64 <= 1u64) by (bit_vector);
            }
            let ghost before = self@.bits();
            self.set_bit_raw(p0 + j, b);
            proof {
                assert(self@.bits() =~= Seq::new(
                    o.nbytes_after(num_bits as nat) * 8,
                    |i: int|
                        if p0 <= i < p0 + j + 1 {
                            value_bit(value, num_bits as nat, i - p0)
                        } else if i < o.cap() {
                            o.bits()[i]
                        } else {
                            false
                        },
                ));
            }
            j = j + 1;
        }
        self.pos = self.pos + num_bits;
        assert(self@.bits() =~= o.bits_with(o.nbytes_after(num_bits as nat), num_bits as nat, f));
    }

    /// Peek `num_bits` bits at `offset` from the window start, without moving the cursor.
    /// Returns None when more than 64 bits are asked for or the bits pass the window end.
    pub fn peek_bits_startoffset(&self, offset: usize, num_bits: usize) -> (r: Option<u64>)
        requires
            self@.wf(),
        ensures
            r is Some <==> (num_bits <= 64 && self@.start + offset + num_bits <= self@.end),
            r matches Some(v) ==> v == bits_value(self@.bits(), self@.start + offset, num_bits as nat),
    {
        if num_bits > 64 || offset > self.end - self.start || num_bits > self.end - self.start - offset {
            return None;
        }
        Some(self.read_bits_at_unchecked(self.start + offset, num_bits))
    }

    /// Peek `num_bits` bits at a signed `offset` from the cursor, without moving it.
    /// Returns None when more than 64 bits are asked for or the bits pass the window end.
    pub fn peek_bits_posoffset(&self, offset: isize, num_bits: usize) -> (r: Option<u64>)
        requires
            self@.wf(),
            self@.pos + offset >= self@.start,
        ensures
            r is Some <==> (num_bits <= 64 && self@.pos + offset + num_bits <= self@.end),
            r matches Some(v) ==> v == bits_value(self@.bits(), self@.pos + offset, num_bits as nat),
    {
        let rel = self.pos - self.start;
        if offset >= 0 {
            let off = offset as usize;
            if off > self.end - self.pos {
                return None;
            }
            self.peek_bits_startoffset(rel + off, num_bits)
        } else {
            let back: usize = (0 - (offset as i128)) as usize;
            self.peek_bits_startoffset(rel - back, num_bits)
        }
    }

    /// Peek `num_bits` bits at the cursor without moving it.
    /// Returns None when more than 64 bits are asked for or the bits pass the window end.
    pub fn peek_bits(&self, num_bits: usize) -> (r: Option<u64>)
        requires
            self@.wf(),
        ensures
            r is Some <==> (num_bits <= 64 && self@.pos + num_bits <= self@.end),
            r matches Some(v) ==> v == bits_value(self@.bits(), self@.pos as int, num_bits as nat),
    {
        self.peek_bits_posoffset(0, num_bits)
    }

    /// Read `num_bits` bits at the cursor, advancing it on success.
    /// Returns None (and leaves the buffer unchanged) when more than 64 bits are
    /// asked for or the bits pass the window end.
    pub fn read_bits(&mut self, num_bits: usize) -> (r: Option<u64>)
        requires
            old(self)@.wf(),
        ensures
            r is Some <==> (num_bits <= 64 && old(self)@.pos + num_bits <= old(self)@.end),
            r matches Some(v) ==> v == bits_value(old(self)@.bits(), old(self)@.pos as int, num_bits as nat),
            r is Some ==> final(self)@ == (BitBufferView { pos: (old(self)@.pos + num_bits) as nat, ..old(self)@ }),
            r is None ==> final(self)@ == old(self)@,
    {
        let v = self.peek_bits_startoffset(self.pos - self.start, num_bits);
        match v {
            Some(x) => {
                self.pos = self.pos + num_bits;
                Some(x)
            },
            None => None,
        }
    }

    /// Like `read_bits`, but reports a missing field as `PduParseErr::BufferEnded`
    /// naming `error_string`.
    pub fn read_field(&mut self, num_bits: usize, error_string: &'static str) -> (r: Result<u64, PduParseErr>)
        requires
            old(self)@.wf(),
        ensures
            r is Ok <==> (num_bits <= 64 && old(self)@.pos + num_bits <= old(self)@.end),
            r matches Ok(v) ==> v == bits_value(old(self)@.bits(), old(self)@.pos as int, num_bits as nat),
            r is Ok ==> final(self)@ == (BitBufferView { pos: (old(self)@.pos + num_bits) as nat, ..old(self)@ }),
            r matches Err(e) ==> final(self)@ == old(self)@ && e == (PduParseErr::BufferEnded { field: Some(error_string) }),
    {
        match self.read_bits(num_bits) {
            Some(v) => Ok(v),
            None => Err(PduParseErr::BufferEnded { field: Some(error_string) }),
        }
    }

    /// Read one bit at the cursor, advancing it on success.
    pub fn read_bit(&mut self) -> (r: Option<u8>)
        requires
            old(self)@.wf(),
        ensures
            r is Some <==> old(self)@.pos < old(self)@.end,
            r matches Some(v) ==> (v <= 1 && (v == 1 <==> old(self)@.bits()[old(self)@.pos as int])),
            r is Some ==> final(self)@ == (BitBufferView { pos: old(self)@.pos + 1, ..old(self)@ }),
            r is None ==> final(self)@ == old(self)@,
    {
        if self.pos >= self.end {
            return None;
        }
        let b = self.read_bit_at_unchecked(self.pos);
        self.pos = self.pos + 1;
        Some(b)
    }

    /// Xor the bit at the cursor with `value` (0 or 1) and advance the cursor.
    pub fn xor_bit(&mut self, value: u8)
        requires
            old(self)@.wf(),
            value <= 1,
            old(self)@.pos < old(self)@.end,
        ensures
            final(self)@.bits() == old(self)@.bits().update(
                old(self)@.pos as int,
                old(self)@.bits()[old(self)@.pos as int] != (value == 1),
            ),
            final(self)@.bytes.len() == old(self)@.bytes.len(),
            final(self)@.start == old(self)@.start,
            final(self)@.pos == old(self)@.pos + 1,
            final(self)@.end == old(self)@.end,
            final(self)@.autoexpand == old(self)@.autoexpand,
            final(self)@.wf(),
    {
        self.xor_bit_raw(self.pos, value);
        self.pos = self.pos + 1;
    }

    /// Write `num_bits` zero bits at the cursor, in chunks of at most 64 bits.
    pub fn write_zeroes(&mut self, num_bits: usize)
        requires
            old(self)@.wf(),
            old(self)@.can_write_chunked(num_bits as nat, 64),
        ensures
            final(self)@.wf(),
            final(self)@.bits() == old(self)@.bits_with(
                old(self)@.nbytes_after_chunked(num_bits as nat, 64),
                num_bits as nat,
                |k: int| false,
            ),
            final(self)@.bytes.len() == old(self)@.nbytes_after_chunked(num_bits as nat, 64),
            final(self)@.start == old(self)@.start,
            final(self)@.pos == old(self)@.pos + num_bits,
            final(self)@.end == old(self)@.end_after_chunked(num_bits as nat, 64),
            final(self)@.autoexpand == old(self)@.autoexpand,
    {
        let ghost o = old(self)@;
        let ghost f = |k: int| false;
        let mut bits_remaining = num_bits;
        assert(self@.bits() =~= o.bits_with(self@.bytes.len(), 0, f));
        while bits_remaining > 0
            invariant
                f == (|k: int| false),
                self@.wf(),
                o.wf(),
                bits_remaining <= num_bits,
                self@.pos == o.pos + (num_bits - bits_remaining),
                self@.start == o.start,
                self@.autoexpand == o.autoexpand,
                o.cap() <= self@.cap(),
                chunked_ok(self@.pos, self@.end, self@.bytes.len(), self@.autoexpand, bits_remaining as nat, 64),
                chunked_shape(self@.pos, self@.end, self@.bytes.len(), bits_remaining as nat, 64)
                    == chunked_shape(o.pos, o.end, o.bytes.len(), num_bits as nat, 64),
                self@.bits() == o.bits_with(self@.bytes.len(), (num_bits - bits_remaining) as nat, f),
            decreases bits_remaining,
        {
            let chunk_size = if bits_remaining < 64 { bits_remaining } else { 64 };
            let ghost cur = self@;
            proof {
                lemma_value_bits_zero(chunk_size as nat);
                assert((0u64 >> (chunk_size as u64)) == 0u64) by (bit_vector);
            }
            self.write_bits(0, chunk_size);
            proof {
                let g = |k: int| value_bit(0u64, chunk_size as nat, k);
                let d = (num_bits - bits_remaining) as nat;
                assert forall|j: int| 0 <= j < chunk_size implies #[trigger] g(j) == f(d + j) by {
                    assert(!value_bit(0u64, chunk_size as nat, j));
                }
                lemma_bits_with_step(o, cur, self@.bytes.len(), d, chunk_size as nat, f, g);
            }
            bits_remaining = bits_remaining - chunk_size;
        }
    }

    /// Write `num_bits` one bits at the cursor, in chunks of at most 64 bits.
    pub fn write_ones(&mut self, num_bits: usize)
        requires
            old(self)@.wf(),
            old(self)@.can_write_chunked(num_bits as nat, 64),
        ensures
            final(self)@.wf(),
            final(self)@.bits() == old(self)@.bits_with(
                old(self)@.nbytes_after_chunked(num_bits as nat, 64),
                num_bits as nat,
                |k: int| true,
            ),
            final(self)@.bytes.len() == old(self)@.nbytes_after_chunked(num_bits as nat, 64),
            final(self)@.start == old(self)@.start,
            final(self)@.pos == old(self)@.pos + num_bits,
            final(self)@.end == old(self)@.end_after_chunked(num_bits as nat, 64),
            final(self)@.autoexpand == old(self)@.autoexpand,
    {
        let ghost o = old(self)@;
        let ghost f = |k: int| true;
        let mut bits_remaining = num_bits;
        assert(self@.bits() =~= o.bits_with(self@.bytes.len(), 0, f));
        while bits_remaining > 0
            invariant
                f == (|k: int| true),
                self@.wf(),
                o.wf(),
                bits_remaining <= num_bits,
                self@.pos == o.pos + (num_bits - bits_remaining),
                self@.start == o.start,
                self@.autoexpand == o.autoexpand,
                o.cap() <= self@.cap(),
                chunked_ok(self@.pos, self@.end, self@.bytes.len(), self@.autoexpand, bits_remaining as nat, 64),
                chunked_shape(self@.pos, self@.end, self@.bytes.len(), bits_remaining as nat, 64)
                    == chunked_shape(o.pos, o.end, o.bytes.len(), num_bits as nat, 64),
                self@.bits() == o.bits_with(self@.bytes.len(), (num_bits - bits_remaining) as nat, f),
            decreases bits_remaining,
        {
            let chunk_size = if bits_remaining < 64 { bits_remaining } else { 64 };
            let val: u64 = 0xFFFF_FFFF_FFFF_FFFFu64 >> ((64 - chunk_size) as u64);
            let ghost cur = self@;
            proof {
                lemma_value_bits_ones(chunk_size as nat);
            }
            self.write_bits(val, chunk_size);
            proof {
                let g = |k: int| value_bit(val, chunk_size as nat, k);
                let d = (num_bits - bits_remaining) as nat;
                assert forall|j: int| 0 <= j < chunk_size implies #[trigger] g(j) == f(d + j) by {
                    assert(value_bit(0xFFFF_FFFF_FFFF_FFFFu64 >> ((64 - chunk_size) as u64), chunk_size as nat, j));
                }
                lemma_bits_with_step(o, cur, self@.bytes.len(), d, chunk_size as nat, f, g);
            }
            bits_remaining = bits_remaining - chunk_size;
        }
    }

    /// Read `num_bits` bits at the cursor of `src_bitbuf` and write them at the
    /// cursor of this buffer, in chunks of at most 64 bits; both cursors advance.
    pub fn copy_bits(&mut self, src_bitbuf: &mut BitBuffer, num_bits: usize)
        requires
            old(self)@.wf(),
            old(src_bitbuf)@.wf(),
            old(src_bitbuf)@.pos + num_bits <= old(src_bitbuf)@.end,
            old(self)@.can_write_chunked(num_bits as nat, 64),
        ensures
            final(self)@.wf(),
            final(self)@.bits() == old(self)@.bits_with(
                old(self)@.nbytes_after_chunked(num_bits as nat, 64),
                num_bits as nat,
                |k: int| old(src_bitbuf)@.bits()[old(src_bitbuf)@.pos + k],
            ),
            final(self)@.bytes.len() == old(self)@.nbytes_after_chunked(num_bits as nat, 64),
            final(self)@.start == old(self)@.start,
            final(self)@.pos == old(self)@.pos + num_bits,
            final(self)@.end == old(self)@.end_after_chunked(num_bits as nat, 64),
            final(self)@.autoexpand == old(self)@.autoexpand,
            final(src_bitbuf)@ == (BitBufferView { pos: (old(src_bitbuf)@.pos + num_bits) as nat, ..old(src_bitbuf)@ }),
    {
        let ghost o = old(self)@;
        let ghost so = old(src_bitbuf)@;
        let ghost f = |k: int| so.bits()[so.pos + k];
        let mut bits_remaining = num_bits;
        assert(self@.bits() =~= o.bits_with(self@.bytes.len(), 0, f));
        while bits_remaining > 0
            invariant
                f == (|k: int| so.bits()[so.pos + k]),
                self@.wf(),
                o.wf(),
                bits_remaining <= num_bits,
                self@.pos == o.pos + (num_bits - bits_remaining),
                self@.start == o.start,
                self@.autoexpand == o.autoexpand,
                o.cap() <= self@.cap(),
                chunked_ok(self@.pos, self@.end, self@.bytes.len(), self@.autoexpand, bits_remaining as nat, 64),
                chunked_shape(self@.pos, self@.end, self@.bytes.len(), bits_remaining as nat, 64)
                    == chunked_shape(o.pos, o.end, o.bytes.len(), num_bits as nat, 64),
                self@.bits() == o.bits_with(self@.bytes.len(), (num_bits - bits_remaining) as nat, f),
                src_bitbuf@ == (BitBufferView { pos: (so.pos + (num_bits - bits_remaining)) as nat, ..so }),
                so.wf(),
                so.pos + num_bits <= so.end,
            decreases bits_remaining,
        {
            let bits_to_copy = if bits_remaining < 64 { bits_remaining } else { 64 };
            let ghost cur = self@;
            let ghost spos = src_bitbuf@.pos;
            let v = src_bitbuf.read_bits(bits_to_copy).unwrap();
            proof {
                lemma_bits_value_u64(so.bits(), spos as int, bits_to_copy as nat);
                lemma_value_bits_of_bits_value(so.bits(), spos as int, bits_to_copy as nat);
            }
            self.write_bits(v, bits_to_copy);
            proof {
                let g = |k: int| value_bit(v, bits_to_copy as nat, k);
                let d = (num_bits - bits_remaining) as nat;
                assert forall|j: int| 0 <= j < bits_to_copy implies #[trigger] g(j) == f(d + j) by {
                    assert(value_bit(bits_value(so.bits(), spos as int, bits_to_copy as nat) as u64, bits_to_copy as nat, j)
                        == so.bits()[spos + j]);
                }
                lemma_bits_with_step(o, cur, self@.bytes.len(), d, bits_to_copy as nat, f, g);
            }
            bits_remaining = bits_remaining - bits_to_copy;
        }
    }

    /// Write one bit per byte of `buf` (each must be 0 or 1) at the cursor.
    pub fn copy_bits_from_bitarr(&mut self, buf: &[u8])
        requires
            old(self)@.wf(),
            all_01(buf@),
            old(self)@.can_write_chunked(buf@.len(), 1),
        ensures
            final(self)@.wf(),
            final(self)@.bits() == old(self)@.bits_with(
                old(self)@.nbytes_after_chunked(buf@.len(), 1),
                buf@.len(),
                |k: int| buf@[k] == 1,
            ),
            final(self)@.bytes.len() == old(self)@.nbytes_after_chunked(buf@.len(), 1),
            final(self)@.start == old(self)@.start,
            final(self)@.pos == old(self)@.pos + buf@.len(),
            final(self)@.end == old(self)@.end_after_chunked(buf@.len(), 1),
            final(self)@.autoexpand == old(self)@.autoexpand,
    {
        let ghost o = old(self)@;
        let ghost f = |k: int| buf@[k] == 1;
        let n = buf.len();
        assert(self@.bits() =~= o.bits_with(self@.bytes.len(), 0, f));
        for i in 0..n
            invariant
                f == (|k: int| buf@[k] == 1),
                n == buf@.len(),
                all_01(buf@),
                self@.wf(),
                o.wf(),
                self@.pos == o.pos + i,
                self@.start == o.start,
                self@.autoexpand == o.autoexpand,
                o.cap() <= self@.cap(),
                chunked_ok(self@.pos, self@.end, self@.bytes.len(), self@.autoexpand, (n - i) as nat, 1),
                chunked_shape(self@.pos, self@.end, self@.bytes.len(), (n - i) as nat, 1)
                    == chunked_shape(o.pos, o.end, o.bytes.len(), n as nat, 1),
                self@.bits() == o.bits_with(self@.bytes.len(), i as nat, f),
        {
            let bit = buf[i];
            let ghost cur = self@;
            self.write_bit(bit);
            proof {
                let g = |k: int| bit == 1;
                assert forall|j: int| 0 <= j < 1 implies #[trigger] g(j) == f(i + j) by {
                    assert(j == 0);
                    assert(g(j) == (bit == 1));
                    assert(f(i + j) == (buf@[i + j] == 1));
                }
                lemma_bits_with_step(o, cur, self@.bytes.len(), i as nat, 1, f, g);
            }
        }
    }

    /// Build a buffer from a string of '0'/'1' characters; the cursor is left at the start.
    pub fn from_bitstr(bitstr: &str) -> (r: Self)
        requires
            forall|i: int| 0 <= i < bitstr@.len() ==> #[trigger] bitstr@[i] == '0' || bitstr@[i] == '1',
            bitstr@.len() + 7 <= usize::MAX,
        ensures
            r@.wf(),
            r@.bytes.len() == bytes_for(bitstr@.len()),
            r@.bits() == Seq::new(bytes_for(bitstr@.len()) * 8, |i: int| i < bitstr@.len() && bitstr@[i] == '1'),
            r@.start == 0,
            r@.pos == 0,
            r@.end == bitstr@.len(),
            !r@.autoexpand,
    {
        proof {
            assert(vstd::string::is_ascii(bitstr));
            vstd::string::is_ascii_spec_bytes(bitstr);
        }
        let bytes = bitstr.as_bytes();
        let len = bitstr.len();
        assert(len == bitstr@.len());
        let mut buf = BitBuffer::new(len);
        proof {
            lemma_zero_bytes_bits(bytes_for(len as nat));
            assert(buf@.bits() =~= Seq::new(bytes_for(len as nat) * 8, |i: int| i < 0 && bitstr@[i] == '1'));
        }
        for i in 0..len
            invariant
                len == bitstr@.len(),
                bytes@ == bitstr.spec_bytes(),
                bitstr.spec_bytes() =~= Seq::new(bitstr@.len(), |k: int| bitstr@[k] as u8),
                forall|k: int| 0 <= k < bitstr@.len() ==> #[trigger] bitstr@[k] == '0' || bitstr@[k] == '1',
                buf@.wf(),
                buf@.bytes.len() == bytes_for(len as nat),
                buf@.start == 0,
                buf@.pos == i,
                buf@.end == len,
                !buf@.autoexpand,
                buf@.bits() == Seq::new(bytes_for(len as nat) * 8, |k: int| k < i && bitstr@[k] == '1'),
        {
            let c = bytes[i];
            let v: u8 = if c == 49u8 { 1 } else { 0 };
            buf.write_bit(v);
            proof {
                assert(bitstr@[i as int] as u8 == c);
                assert(buf@.bits() =~= Seq::new(bytes_for(len as nat) * 8, |k: int| k < i + 1 && bitstr@[k] == '1'));
            }
        }
        buf.pos = buf.start;
        buf
    }

    /// Build a buffer from one bit per byte (each 0 or 1); the cursor is left at the start.
    pub fn from_bitarr(data: &[u8]) -> (r: Self)
        requires
            all_01(data@),
            data@.len() + 7 <= usize::MAX,
        ensures
            r@.wf(),
            r@.bytes.len() == bytes_for(data@.len()),
            r@.bits() == Seq::new(bytes_for(data@.len()) * 8, |i: int| i < data@.len() && data@[i] == 1),
            r@.start == 0,
            r@.pos == 0,
            r@.end == data@.len(),
            !r@.autoexpand,
    {
        let mut buf = BitBuffer::new(data.len());
        let ghost o = buf@;
        proof {
            lemma_chunked_within_window(0, data@.len(), o.bytes.len(), false, data@.len(), 1);
            lemma_zero_bytes_bits(bytes_for(data@.len()));
        }
        buf.copy_bits_from_bitarr(data);
        buf.pos = buf.start;
        assert(buf@.bits() =~= Seq::new(bytes_for(data@.len()) * 8, |i: int| i < data@.len() && data@[i] == 1));
        buf
    }

    /// Copy the bytes holding the window of `bitbuffer` into a new buffer whose window is
    /// the same bits; the start may not be 0 and bits around the window are copied along.
    pub fn from_bitbuffer(bitbuffer: &BitBuffer) -> (r: Self)
        requires
            bitbuffer@.wf(),
        ensures
            r@.wf(),
            r@.bytes == bitbuffer@.bytes.subrange((bitbuffer@.start / 8) as int, bytes_for(bitbuffer@.end) as int),
            r@.start == bitbuffer@.start % 8,
            r@.pos == bitbuffer@.start % 8,
            r@.end == bitbuffer@.start % 8 + (bitbuffer@.end - bitbuffer@.start),
            !r@.autoexpand,
    {
        let start_byte = bitbuffer.start / 8;
        let end_byte = (bitbuffer.end + 7) / 8;
        let mut v: Vec<u8> = Vec::new();
        for i in start_byte..end_byte
            invariant
                bitbuffer@.wf(),
                end_byte <= bitbuffer@.bytes.len(),
                v@ == bitbuffer@.bytes.subrange(start_byte as int, i as int),
        {
            v.push(bitbuffer.buffer[i]);
        }
        let s = bitbuffer.start % 8;
        BitBuffer { buffer: v, start: s, pos: s, end: s + bitbuffer.get_len(), flag_autoexpand: false }
    }

    /// Copy the bytes holding `[pos, end)` of `bitbuffer` into a new buffer whose window is
    /// those bits; the start may not be 0 and bits around the window are copied along.
    pub fn from_bitbuffer_pos(bitbuffer: &BitBuffer) -> (r: Self)
        requires
            bitbuffer@.wf(),
        ensures
            r@.wf(),
            r@.bytes == bitbuffer@.bytes.subrange((bitbuffer@.pos / 8) as int, bytes_for(bitbuffer@.end) as int),
            r@.start == bitbuffer@.pos % 8,
            r@.pos == bitbuffer@.pos % 8,
            r@.end == bitbuffer@.pos % 8 + (bitbuffer@.end - bitbuffer@.pos),
            !r@.autoexpand,
    {
        let start_byte = bitbuffer.pos / 8;
        let end_byte = (bitbuffer.end + 7) / 8;
        let mut v: Vec<u8> = Vec::new();
        for i in start_byte..end_byte
            invariant
                bitbuffer@.wf(),
                end_byte <= bitbuffer@.bytes.len(),
                v@ == bitbuffer@.bytes.subrange(start_byte as int, i as int),
        {
            v.push(bitbuffer.buffer[i]);
        }
        let s = bitbuffer.pos % 8;
        BitBuffer { buffer: v, start: s, pos: s, end: s + bitbuffer.get_len_remaining(), flag_autoexpand: false }
    }

    /// Read `buf.len()` bits at the cursor into `buf`, one bit (0 or 1) per byte, and advance the cursor.
    pub fn to_bitarr(&mut self, buf: &mut [u8])
        requires
            old(self)@.wf(),
            old(self)@.pos + old(buf)@.len() <= old(self)@.end,
        ensures
            final(buf)@ == bits_to_bytes01(old(self)@.bits().subrange(old(self)@.pos as int, (old(self)@.pos + old(buf)@.len()) as int)),
            final(self)@ == (BitBufferView { pos: old(self)@.pos + old(buf)@.len(), ..old(self)@ }),
    {
        let n = buf.len();
        let p0 = self.pos;
        for i in 0..n
            invariant
                n == buf@.len(),
                self@ == old(self)@,
                p0 == old(self)@.pos,
                self@.wf(),
                p0 + n <= self@.end,
                forall|k: int| 0 <= k < i ==> #[trigger] buf@[k] == (if self@.bits()[p0 + k] { 1u8 } else { 0u8 }),
        {
            let b = self.read_bit_at_unchecked(p0 + i);
            buf[i] = b;
        }
        self.pos = self.pos + n;
        assert(buf@ =~= bits_to_bytes01(old(self)@.bits().subrange(old(self)@.pos as int, (old(self)@.pos + old(buf)@.len()) as int)));
    }

    /// The window as a string of '0'/'1' characters.
    pub fn to_bitstr(&self) -> (r: String)
        requires
            self@.wf(),
        ensures
            r@ == bits_to_chars(self@.window()),
    {
        let mut s = String::new();
        let len = self.end - self.start;
        for i in 0..len
            invariant
                self@.wf(),
                len == self@.end - self@.start,
                s@ == bits_to_chars(self@.bits().subrange(self@.start as int, self@.start + i)),
        {
            let bit = self.read_bit_at_unchecked(self.start + i);
            let c = if bit == 1 { '1' } else { '0' };
            s.push(c);
            assert(s@ =~= bits_to_chars(self@.bits().subrange(self@.start as int, self@.start + i + 1)));
        }
        s
    }

    /// The bytes of the buffer, including bits outside the window.
    pub fn into_bytes(self) -> (r: Vec<u8>)
        ensures
            r@ == self@.bytes,
    {
        self.buffer
    }

    /// The window as one byte (0 or 1) per bit.
    pub fn into_bitvec(self) -> (r: Vec<u8>)
        requires
            self@.wf(),
        ensures
            r@ == bits_to_bytes01(self@.window()),
    {
        let len = self.end - self.start;
        let mut ret: Vec<u8> = Vec::new();
        for i in 0..len
            invariant
                self@.wf(),
                len == self@.end - self@.start,
                ret@ == bits_to_bytes01(self@.bits().subrange(self@.start as int, self@.start + i)),
        {
            let b = self.read_bit_at_unchecked(self.start + i);
            ret.push(b);
            assert(ret@ =~= bits_to_bytes01(self@.bits().subrange(self@.start as int, self@.start + i + 1)));
        }
        ret
    }

    /// Xor the bits of `data` (most significant bit of each byte first) into the buffer
    /// at the cursor, for `num_bits` bits, advancing the cursor; works in 64-bit chunks.
    /// Returns None when the window ends before `num_bits` bits: whole chunks that fit
    /// have been applied then.
    pub fn xor_bytearr(&mut self, data: &[u8], num_bits: usize) -> (r: Option<()>)
        requires
            old(self)@.wf(),
            data@.len() * 8 >= old(self)@.xor_applied(num_bits as nat),
        ensures
            r is Some <==> old(self)@.pos + num_bits <= old(self)@.end,
            final(self)@.bits() == Seq::new(
                old(self)@.cap(),
                |i: int|
                    if old(self)@.pos <= i < old(self)@.pos + old(self)@.xor_applied(num_bits as nat) {
                        old(self)@.bits()[i] != bytes_to_bits(data@)[i - old(self)@.pos]
                    } else {
                        old(self)@.bits()[i]
                    },
            ),
            final(self)@.bytes.len() == old(self)@.bytes.len(),
            final(self)@.start == old(self)@.start,
            final(self)@.pos == old(self)@.pos + old(self)@.xor_applied(num_bits as nat),
            final(self)@.end == old(self)@.end,
            final(self)@.autoexpand == old(self)@.autoexpand,
            final(self)@.wf(),
    {
        let ghost o = old(self)@;
        let avail = self.end - self.pos;
        let applied = if num_bits <= avail { num_bits } else { 64 * (avail / 64) };
        let p0 = self.pos;
        for k in 0..applied
            invariant
                o.wf(),
                applied == o.xor_applied(num_bits as nat),
                p0 == o.pos,
                p0 + applied <= o.end,
                data@.len() * 8 >= applied,
                self@.wf(),
                self@.bytes.len() == o.bytes.len(),
                self@.start == o.start,
                self@.pos == o.pos,
                self@.end == o.end,
                self@.autoexpand == o.autoexpand,
                self@.bits() == Seq::new(
                    o.cap(),
                    |i: int| if p0 <= i < p0 + k { o.bits()[i] != bytes_to_bits(data@)[i - p0] } else { o.bits()[i] },
                ),
        {
            let db = data[k / 8];
            let sh: u8 = (7 - (k % 8)) as u8;
            let bit: u8 = (db >> sh) & 1u8;
            proof {
                lemma_and1_le1(db, sh);
            }
            self.xor_bit_raw(p0 + k, bit);
            assert(self@.bits() =~= Seq::new(
                o.cap(),
                |i: int| if p0 <= i < p0 + k + 1 { o.bits()[i] != bytes_to_bits(data@)[i - p0] } else { o.bits()[i] },
            ));
        }
        self.pos = self.pos + applied;
        if num_bits <= avail {
            Some(())
        } else {
            None
        }
    }

    /// Dump the window as upper-case hexadecimal digits, four bits per digit; a last
    /// digit with fewer bits is padded on the right with zeros.
    pub fn dump_hex(&self) -> (r: String)
        requires
            self@.wf(),
        ensures
            r@ == Seq::new(self@.n_nibbles(), |i: int| hex_upper(self@.nibble(i))),
    {
        let len = self.end - self.start;
        let n_nibbles = (len + 3) / 4;
        let mut s = String::new();
        for i in 0..n_nibbles
            invariant
                self@.wf(),
                len == self@.end - self@.start,
                n_nibbles == self@.n_nibbles(),
                s@ == Seq::new(i as nat, |k: int| hex_upper(self@.nibble(k))),
        {
            let bit_pos = self.start + i * 4;
            let bits_left = len - i * 4;
            let take = if bits_left < 4 { bits_left } else { 4 };
            let v = self.read_bits_at_unchecked(bit_pos, take);
            proof {
                lemma_bits_value_bound(self@.bits(), bit_pos as int, take as nat);
                vstd::arithmetic::power2::lemma2_to64();
            }
            let factor: u64 = if take == 1 { 8 } else if take == 2 { 4 } else if take == 3 { 2 } else { 1 };
            let digit = (v * factor) as u8;
            let c = hex_digit_upper(digit);
            s.push(c);
            assert(s@ =~= Seq::new((i + 1) as nat, |k: int| hex_upper(self@.nibble(k))));
        }
        s
    }

    /// Dump the bits `[start, end)` (absolute indices) as '0'/'1' characters, putting
    /// '<' and '>' before the window start and end when `print_window`, and '^' before
    /// the cursor when `print_pos`.
    #[verifier::spinoff_prover]
    #[verifier::rlimit(30)]
    pub fn raw_dump_bin(&self, print_window: bool, print_pos: bool, start: usize, end: usize) -> (r: String)
        requires
            self@.wf(),
            start <= end,
            end <= self@.cap(),
        ensures
            r@ == self@.dump(print_window, print_pos, start as nat, end as nat),
    {
        let mut s = String::new();
        for i in start..end
            invariant
                self@.wf(),
                start <= end,
                end <= self@.cap(),
                s@ == self@.dump_upto(print_window, print_pos, start as nat, (i - start) as nat),
        {
            let ghost before = s@;
            if print_window && i == self.start {
                s.push('<');
            }
            if print_pos && i == self.pos {
                s.push('^');
            }
            if print_window && i == self.end {
                s.push('>');
            }
            let bit = self.read_bits_at_unchecked(i, 1) != 0;
            proof {
                assert(bits_value(self@.bits(), i as int, 1) == 2 * bits_value(self@.bits(), i as int, 0) + bit_num(self@.bits()[i as int]));
            }
            s.push(if bit { '1' } else { '0' });
            assert(s@ =~= self@.dump_upto(print_window, print_pos, start as nat, (i + 1 - start) as nat));
        }
        if print_window && self.start == end {
            s.push('<');
        }
        if print_pos && self.pos == end {
            s.push('^');
        }
        if print_window && self.end == end {
            s.push('>');
        }
        assert(s@ =~= self@.dump(print_window, print_pos, start as nat, end as nat));
        s
    }

    /// Dump the window as '0'/'1' characters.
    pub fn dump_bin_unformatted(&self) -> (r: String)
        requires
            self@.wf(),
        ensures
            r@ == self@.dump(false, false, self@.start, self@.end),
    {
        self.raw_dump_bin(false, false, self.start, self.end)
    }

    /// Dump the window as '0'/'1' characters, with '^' before the cursor.
    pub fn dump_bin(&self) -> (r: String)
        requires
            self@.wf(),
        ensures
            r@ == self@.dump(false, true, self@.start, self@.end),
    {
        self.raw_dump_bin(false, true, self.start, self.end)
    }

    /// Dump the whole buffer, also outside the window, as '0'/'1' characters; with
    /// `print_markers`, '<', '^' and '>' mark the window start, the cursor and the window end.
    pub fn dump_bin_full(&self, print_markers: bool) -> (r: String)
        requires
            self@.wf(),
        ensures
            r@ == self@.dump(print_markers, print_markers, 0, self@.cap()),
    {
        self.raw_dump_bin(print_markers, print_markers, 0, self.buffer.len() * 8)
    }
}

} // verus!
