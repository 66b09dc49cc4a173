//! Small facts about `String` used to build textual dumps.
use vstd::prelude::*;
use vstd::string::StrSliceExecFns;

verus! {

/// `String::push` appends one character (std documents it as "Appends the given
/// char to the end of this String").
pub assume_specification[ String::push ](s: &mut String, ch: char)
    ensures
        final(s)@ == old(s)@.push(ch),
;

/// Upper-case hexadecimal digit for a value below 16.
pub open spec fn hex_upper(d: nat) -> char {
    if d < 10 {
        (48 + d) as char
    } else {
        (55 + d) as char
    }
}

/// Lower-case hexadecimal digit for a value below 16.
pub open spec fn hex_lower(d: nat) -> char {
    if d < 10 {
        (48 + d) as char
    } else {
        (87 + d) as char
    }
}

/// The upper-case hexadecimal digit for `d` (which must be below 16).
pub fn hex_digit_upper(d: u8) -> (c: char)
    requires
        d < 16,
    ensures
        c == hex_upper(d as nat),
{
    if d < 10 {
        (48u8 + d) as char
    } else {
        (55u8 + d) as char
    }
}

/// The lower-case hexadecimal digit for `d` (which must be below 16).
pub fn hex_digit_lower(d: u8) -> (c: char)
    requires
        d < 16,
    ensures
        c == hex_lower(d as nat),
{
    if d < 10 {
        (48u8 + d) as char
    } else {
        (87u8 + d) as char
    }
}

/// Decimal digit for a value below 10.
pub open spec fn digit_char(d: nat) -> char {
    (48 + d) as char
}

/// The decimal representation of `n`, without leading zeros.
pub open spec fn decimal(n: nat) -> Seq<char>
    decreases n,
{
    if n < 10 {
        seq![digit_char(n)]
    } else {
        decimal(n / 10).push(digit_char(n % 10))
    }
}

/// Append the decimal representation of `n` to `s`.
pub fn push_decimal(s: &mut String, n: u64)
    ensures
        final(s)@ == old(s)@ + decimal(n as nat),
    decreases n,
{
    if n >= 10 {
        push_decimal(s, n / 10);
    }
    let d = (n % 10) as u8;
    s.push((48u8 + d) as char);
    proof {
        assert(old(s)@ + decimal(n as nat) =~= if n < 10 { old(s)@ + seq![digit_char(n as nat)] } else {
            (old(s)@ + decimal((n / 10) as nat)).push(digit_char((n % 10) as nat))
        });
    }
}

/// The decimal representation of `n`.
pub fn u32_to_decimal(n: u32) -> (r: String)
    ensures
        r@ == decimal(n as nat),
{
    let mut s = String::new();
    push_decimal(&mut s, n as u64);
    assert(s@ =~= decimal(n as nat));
    s
}

/// Whether two strings have the same characters.
pub fn str_eq(a: &str, b: &str) -> (r: bool)
    ensures
        r == (a@ == b@),
{
    let n = a.unicode_len();
    if n != b.unicode_len() {
        return false;
    }
    let mut i: usize = 0;
    while i < n
        invariant
            n == a@.len(),
            n == b@.len(),
            i <= n,
            forall|k: int| 0 <= k < i ==> #[trigger] a@[k] == b@[k],
        decreases n - i,
    {
        if a.get_char(i) != b.get_char(i) {
            return false;
        }
        i = i + 1;
    }
    assert(a@ =~= b@);
    true
}

/// Whether `needle` occurs in `hay` at position `i`.
pub open spec fn occurs_at(hay: Seq<char>, needle: Seq<char>, i: int) -> bool {
    0 <= i && i + needle.len() <= hay.len() && hay.subrange(i, i + needle.len()) == needle
}

/// Whether `needle` occurs somewhere in `hay`.
pub open spec fn occurs_in(hay: Seq<char>, needle: Seq<char>) -> bool {
    exists|i: int| #[trigger] occurs_at(hay, needle, i)
}

fn occurs_at_exec(hay: &str, needle: &str, i: usize, m: usize, n: usize) -> (r: bool)
    requires
        hay@.len() == n,
        needle@.len() == m,
        i + m <= n,
    ensures
        r == occurs_at(hay@, needle@, i as int),
{
    let mut k: usize = 0;
    while k < m
        invariant
            hay@.len() == n,
            needle@.len() == m,
            i + m <= n,
            k <= m,
            forall|j: int| 0 <= j < k ==> #[trigger] needle@[j] == hay@[i + j],
        decreases m - k,
    {
        if hay.get_char(i + k) != needle.get_char(k) {
            assert(hay@.subrange(i as int, i + m)[k as int] != needle@[k as int]);
            return false;
        }
        k = k + 1;
    }
    assert(hay@.subrange(i as int, i + m) =~= needle@);
    true
}

/// Whether `needle` occurs somewhere in `hay`.
pub fn str_contains(hay: &str, needle: &str) -> (r: bool)
    ensures
        r == occurs_in(hay@, needle@),
{
    let n = hay.unicode_len();
    let m = needle.unicode_len();
    if m > n {
        assert forall|i: int| !#[trigger] occurs_at(hay@, needle@, i) by {}
        return false;
    }
    let last = n - m;
    let mut i: usize = 0;
    while i < last
        invariant
            n == hay@.len(),
            m == needle@.len(),
            last == n - m,
            i <= last,
            forall|j: int| 0 <= j < i ==> !#[trigger] occurs_at(hay@, needle@, j),
        decreases last - i,
    {
        if occurs_at_exec(hay, needle, i, m, n) {
            return true;
        }
        i = i + 1;
    }
    if occurs_at_exec(hay, needle, last, m, n) {
        return true;
    }
    assert forall|j: int| !#[trigger] occurs_at(hay@, needle@, j) by {
        if 0 <= j < last {
        }
    }
    false
}

/// `needle` occurs in `hay` at `i` and nowhere before.
pub open spec fn is_first_occurrence(hay: Seq<char>, needle: Seq<char>, i: int) -> bool {
    occurs_at(hay, needle, i) && forall|j: int| 0 <= j < i ==> !#[trigger] occurs_at(hay, needle, j)
}

/// There is at most one first occurrence.
pub proof fn lemma_first_occurrence_unique(hay: Seq<char>, needle: Seq<char>, i: int, j: int)
    requires
        is_first_occurrence(hay, needle, i),
        is_first_occurrence(hay, needle, j),
    ensures
        i == j,
{
    if i < j {
        assert(occurs_at(hay, needle, i));
    }
    if j < i {
        assert(occurs_at(hay, needle, j));
    }
}

/// Position of the first occurrence of `needle` in `hay`, if any.
pub fn str_find(hay: &str, needle: &str) -> (r: Option<usize>)
    ensures
        match r {
            Some(i) => is_first_occurrence(hay@, needle@, i as int),
            None => !occurs_in(hay@, needle@),
        },
{
    let n = hay.unicode_len();
    let m = needle.unicode_len();
    if m > n {
        assert forall|i: int| !#[trigger] occurs_at(hay@, needle@, i) by {}
        return None;
    }
    let last = n - m;
    let mut i: usize = 0;
    while i < last
        invariant
            n == hay@.len(),
            m == needle@.len(),
            last == n - m,
            i <= last,
            forall|j: int| 0 <= j < i ==> !#[trigger] occurs_at(hay@, needle@, j),
        decreases last - i,
    {
        if occurs_at_exec(hay, needle, i, m, n) {
            return Some(i);
        }
        i = i + 1;
    }
    if occurs_at_exec(hay, needle, last, m, n) {
        return Some(last);
    }
    assert forall|j: int| !#[trigger] occurs_at(hay@, needle@, j) by {
        if 0 <= j < last {
        }
    }
    None
}

/// Whether `s` starts with `prefix`.
pub open spec fn starts_with(s: Seq<char>, prefix: Seq<char>) -> bool {
    prefix.len() <= s.len() && s.take(prefix.len() as int) == prefix
}

/// Whether `s` starts with `prefix`.
pub fn str_starts_with(s: &str, prefix: &str) -> (r: bool)
    ensures
        r == starts_with(s@, prefix@),
{
    let n = s.unicode_len();
    let m = prefix.unicode_len();
    if m > n {
        return false;
    }
    let r = occurs_at_exec(s, prefix, 0, m, n);
    assert(s@.subrange(0, m as int) =~= s@.take(m as int));
    r
}

} // verus!
