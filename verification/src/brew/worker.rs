//! Configuration of the Brew worker and the HTTP digest authentication it performs.
use vstd::prelude::*;
use vstd::string::StringExecFns;
use vstd::utf8::encode_utf8;
use std::time::Duration;
use vstd::string::StrSliceExecFns;
use crate::text::{
    hex_lower, is_first_occurrence, lemma_first_occurrence_unique, occurs_in, starts_with, str_contains, str_eq, str_find,
    str_starts_with,
};

verus! {

/// Brew worker configuration.
#[derive(Debug, Clone)]
pub struct BrewConfig {
    /// TetraPack server hostname or IP
    pub host: String,
    /// TetraPack server port
    pub port: u16,
    /// Use TLS (wss:// / https://)
    pub tls: bool,
    /// Optional username for HTTP Digest auth
    pub username: Option<String>,
    /// Optional password for HTTP Digest auth
    pub password: Option<String>,
    /// ISSI to register with the server
    pub issi: u32,
    /// GSSIs (group IDs) to affiliate to
    pub groups: Vec<u32>,
    /// Reconnection delay
    pub reconnect_delay: Duration,
    /// Extra initial jitter playout delay in frames (added on top of adaptive baseline)
    pub jitter_initial_latency_frames: u8,
}

/// Name for the MD5 digest (16 bytes) of a byte string.
pub uninterp spec fn md5_digest(data: Seq<u8>) -> Seq<u8>;

/// `md5::compute`: the MD5 digest of `data`. The contract names the digest, a function
/// of the bytes alone; it does not restate the algorithm.
#[verifier::external_body]
fn md5_compute(data: &[u8]) -> (r: [u8; 16])
    ensures
        r@ == md5_digest(data@),
{
    md5::compute(data).0
}

/// Bytes as lower-case hexadecimal, two digits per byte.
pub open spec fn hex_bytes(b: Seq<u8>) -> Seq<char>
    decreases b.len(),
{
    if b.len() == 0 {
        Seq::empty()
    } else {
        hex_bytes(b.drop_last()) + seq![hex_lower((b.last() / 16) as nat), hex_lower((b.last() % 16) as nat)]
    }
}

/// Lower-case hexadecimal MD5 digest of the UTF-8 encoding of a text.
pub open spec fn md5_hex_of(s: Seq<char>) -> Seq<char> {
    hex_bytes(md5_digest(encode_utf8(s)))
}

fn md5_hex(input: &str) -> (r: String)
    ensures
        r@ == md5_hex_of(input@),
{
    let digest = md5_compute(input.as_bytes());
    let ghost d = digest@;
    let mut out = String::new();
    let mut i: usize = 0;
    while i < 16
        invariant
            d == digest@,
            d.len() == 16,
            i <= 16,
            out@ == hex_bytes(d.take(i as int)),
        decreases 16 - i,
    {
        let b = digest[i];
        out.push(crate::text::hex_digit_lower(b / 16));
        out.push(crate::text::hex_digit_lower(b % 16));
        proof {
            assert(d.take(i + 1).drop_last() =~= d.take(i as int));
            assert(out@ =~= hex_bytes(d.take(i + 1)));
        }
        i = i + 1;
    }
    assert(d.take(16) =~= d);
    out
}

/// `v` as eight lower-case hexadecimal digits, most significant first.
pub open spec fn hex8(v: u32) -> Seq<char> {
    Seq::new(8, |i: int| hex_lower(((v >> ((28 - 4 * i) as u32)) & 0xfu32) as nat))
}

proof fn lemma_nibble(v: u32, s: u32)
    by (bit_vector)
    ensures
        (v >> s) & 0xfu32 < 16,
{
}

fn push_hex8(s: &mut String, v: u32)
    ensures
        final(s)@ == old(s)@ + hex8(v),
{
    let mut i: u32 = 0;
    while i < 8
        invariant
            i <= 8,
            s@ == old(s)@ + hex8(v).take(i as int),
        decreases 8 - i,
    {
        let shift = 28 - 4 * i;
        proof {
            lemma_nibble(v, shift);
        }
        let nib = ((v >> shift) & 0xf) as u8;
        s.push(crate::text::hex_digit_lower(nib));
        proof {
            assert(s@ =~= old(s)@ + hex8(v).take(i + 1));
        }
        i = i + 1;
    }
    assert(hex8(v).take(8) =~= hex8(v));
}

/// The response hash of HTTP digest authentication, with the nonce count 00000001 and
/// client nonce `cnonce`; the qop=auth form is used when `qop` mentions "auth".
pub open spec fn digest_response_hash(
    username: Seq<char>,
    password: Seq<char>,
    realm: Seq<char>,
    nonce: Seq<char>,
    qop: Seq<char>,
    uri: Seq<char>,
    method: Seq<char>,
    cnonce: Seq<char>,
) -> Seq<char> {
    let ha1 = md5_hex_of(username + ":"@ + realm + ":"@ + password);
    let ha2 = md5_hex_of(method + ":"@ + uri);
    if occurs_in(qop, "auth"@) {
        md5_hex_of(ha1 + ":"@ + nonce + ":"@ + "00000001"@ + ":"@ + cnonce + ":"@ + "auth"@ + ":"@ + ha2)
    } else {
        md5_hex_of(ha1 + ":"@ + nonce + ":"@ + ha2)
    }
}

/// The Authorization header of HTTP digest authentication.
pub open spec fn digest_header(
    username: Seq<char>,
    password: Seq<char>,
    realm: Seq<char>,
    nonce: Seq<char>,
    qop: Seq<char>,
    uri: Seq<char>,
    method: Seq<char>,
    opaque: Option<Seq<char>>,
    cnonce: Seq<char>,
) -> Seq<char> {
    let response = digest_response_hash(username, password, realm, nonce, qop, uri, method, cnonce);
    let base = "Digest username=\""@ + username + "\", realm=\""@ + realm + "\", nonce=\""@ + nonce + "\", uri=\""@ + uri
        + "\", response=\""@ + response + "\""@;
    let with_qop = if occurs_in(qop, "auth"@) {
        base + ", qop=auth, nc="@ + "00000001"@ + ", cnonce=\""@ + cnonce + "\""@
    } else {
        base
    };
    match opaque {
        Some(o) => with_qop + ", opaque=\""@ + o + "\""@,
        None => with_qop,
    }
}

/// Build the Authorization header for HTTP digest authentication. The client nonce is
/// `cnonce_nanos` (the sub-second nanoseconds of the current time) as eight hexadecimal digits.
pub fn build_digest_response(
    username: &str,
    password: &str,
    realm: &str,
    nonce: &str,
    qop: &str,
    uri: &str,
    method: &str,
    opaque: Option<&str>,
    cnonce_nanos: u32,
) -> (r: String)
    ensures
        r@ == digest_header(
            username@,
            password@,
            realm@,
            nonce@,
            qop@,
            uri@,
            method@,
            match opaque {
                Some(o) => Some(o@),
                None => None,
            },
            hex8(cnonce_nanos),
        ),
{
    let mut a1 = String::from_str(username);
    a1.append(":");
    a1.append(realm);
    a1.append(":");
    a1.append(password);
    let ha1 = md5_hex(a1.as_str());
    let mut a2 = String::from_str(method);
    a2.append(":");
    a2.append(uri);
    let ha2 = md5_hex(a2.as_str());

    let nc = "00000001";
    let mut cnonce = String::new();
    push_hex8(&mut cnonce, cnonce_nanos);
    assert(cnonce@ =~= hex8(cnonce_nanos));

    let with_auth = str_contains(qop, "auth");
    let response_hash = if with_auth {
        let mut x = String::from_str(ha1.as_str());
        x.append(":");
        x.append(nonce);
        x.append(":");
        x.append(nc);
        x.append(":");
        x.append(cnonce.as_str());
        x.append(":");
        x.append("auth");
        x.append(":");
        x.append(ha2.as_str());
        md5_hex(x.as_str())
    } else {
        let mut x = String::from_str(ha1.as_str());
        x.append(":");
        x.append(nonce);
        x.append(":");
        x.append(ha2.as_str());
        md5_hex(x.as_str())
    };

    let mut auth = String::from_str("Digest username=\"");
    auth.append(username);
    auth.append("\", realm=\"");
    auth.append(realm);
    auth.append("\", nonce=\"");
    auth.append(nonce);
    auth.append("\", uri=\"");
    auth.append(uri);
    auth.append("\", response=\"");
    auth.append(response_hash.as_str());
    auth.append("\"");
    if with_auth {
        auth.append(", qop=auth, nc=");
        auth.append(nc);
        auth.append(", cnonce=\"");
        auth.append(cnonce.as_str());
        auth.append("\"");
    }
    if let Some(opaque_val) = opaque {
        auth.append(", opaque=\"");
        auth.append(opaque_val);
        auth.append("\"");
    }
    auth
}

/// Characters with the Unicode White_Space property (those `char::is_whitespace` accepts).
pub open spec fn is_white_space(c: char) -> bool {
    let u = c as u32;
    ||| 0x09 <= u <= 0x0D
    ||| u == 0x20
    ||| u == 0x85
    ||| u == 0xA0
    ||| u == 0x1680
    ||| 0x2000 <= u <= 0x200A
    ||| u == 0x2028
    ||| u == 0x2029
    ||| u == 0x202F
    ||| u == 0x205F
    ||| u == 0x3000
}

/// The double quote character.
pub open spec fn is_quote(c: char) -> bool {
    c == '"'
}

/// Number of leading characters of `s` that satisfy `p`.
pub open spec fn lead_count(s: Seq<char>, p: spec_fn(char) -> bool) -> nat
    decreases s.len(),
{
    if s.len() > 0 && p(s[0]) {
        1 + lead_count(s.skip(1), p)
    } else {
        0
    }
}

/// Number of trailing characters of `s` that satisfy `p`.
pub open spec fn trail_count(s: Seq<char>, p: spec_fn(char) -> bool) -> nat
    decreases s.len(),
{
    if s.len() > 0 && p(s.last()) {
        1 + trail_count(s.drop_last(), p)
    } else {
        0
    }
}

/// `s` without its leading and trailing characters that satisfy `p`.
pub open spec fn trim_by(s: Seq<char>, p: spec_fn(char) -> bool) -> Seq<char> {
    let t = s.skip(lead_count(s, p) as int);
    t.take(t.len() - trail_count(t, p))
}

/// `s` without leading and trailing white space.
pub open spec fn trim_ws(s: Seq<char>) -> Seq<char> {
    trim_by(s, |c: char| is_white_space(c))
}

/// Index of the first `c` in `s`, or the length of `s` when there is none.
pub open spec fn index_of_char(s: Seq<char>, c: char) -> nat
    decreases s.len(),
{
    if s.len() == 0 {
        0
    } else if s[0] == c {
        0
    } else {
        1 + index_of_char(s.skip(1), c)
    }
}

/// The pieces of `s` between commas, in order (one more piece than there are commas).
pub open spec fn split_commas(s: Seq<char>) -> Seq<Seq<char>>
    decreases s.len(),
{
    let i = index_of_char(s, ',');
    if i >= s.len() {
        seq![s]
    } else {
        proof {
            lemma_index_of_char_bound(s, ',');
        }
        seq![s.take(i as int)] + split_commas(s.skip((i + 1) as int))
    }
}

/// `h` without a leading "Digest ".
pub open spec fn strip_digest(h: Seq<char>) -> Seq<char> {
    if h.len() >= 7 && h.take(7) == "Digest "@ {
        h.skip(7)
    } else {
        h
    }
}

/// Name for what `str::to_lowercase` gives for a text.
pub uninterp spec fn lowercase_of(s: Seq<char>) -> Seq<char>;

/// `str::to_lowercase`: the lowercase equivalent of `s` under Unicode's case mapping.
/// The contract names the result, a function of the text alone, without restating the mapping.
#[verifier::external_body]
fn to_lowercase(s: &str) -> (r: String)
    ensures
        r@ == lowercase_of(s@),
{
    s.to_lowercase()
}

/// The key and value of one piece of a digest challenge: the trimmed text before the
/// first '=' (lower-cased) and after it (trimmed, then stripped of double quotes);
/// nothing when there is no '='.
pub open spec fn parse_part(part: Seq<char>) -> Option<(Seq<char>, Seq<char>)> {
    let t = trim_ws(part);
    let e = index_of_char(t, '=');
    if e < t.len() {
        Some((lowercase_of(trim_ws(t.take(e as int))), trim_by(trim_ws(t.skip((e + 1) as int)), |c: char| is_quote(c))))
    } else {
        None
    }
}

/// Index of the pair with key `k` in `m`, or its length when there is none.
pub open spec fn key_index(m: Seq<(Seq<char>, Seq<char>)>, k: Seq<char>) -> nat
    decreases m.len(),
{
    if m.len() == 0 {
        0
    } else if m[0].0 == k {
        0
    } else {
        1 + key_index(m.skip(1), k)
    }
}

/// `m` with `k` mapped to `v`: the value of an existing key is replaced in place, a new
/// key goes at the end.
pub open spec fn assoc_insert(m: Seq<(Seq<char>, Seq<char>)>, k: Seq<char>, v: Seq<char>) -> Seq<(Seq<char>, Seq<char>)> {
    let i = key_index(m, k);
    if i < m.len() {
        m.update(i as int, (k, v))
    } else {
        m.push((k, v))
    }
}

/// The parameters of pieces `parts`, later pieces overriding earlier ones with the same key.
pub open spec fn params_of(parts: Seq<Seq<char>>) -> Seq<(Seq<char>, Seq<char>)>
    decreases parts.len(),
{
    if parts.len() == 0 {
        Seq::empty()
    } else {
        let m = params_of(parts.drop_last());
        match parse_part(parts.last()) {
            Some((k, v)) => assoc_insert(m, k, v),
            None => m,
        }
    }
}

/// The key-value pairs of a "Digest realm=..., nonce=..., ..." challenge.
pub open spec fn digest_params(header: Seq<char>) -> Seq<(Seq<char>, Seq<char>)> {
    params_of(split_commas(strip_digest(header)))
}

pub proof fn lemma_index_of_char_bound(s: Seq<char>, c: char)
    ensures
        index_of_char(s, c) <= s.len(),
        index_of_char(s, c) < s.len() ==> s[index_of_char(s, c) as int] == c,
        forall|k: int| 0 <= k < index_of_char(s, c) ==> s[k] != c,
    decreases s.len(),
{
    if s.len() > 0 && s[0] != c {
        lemma_index_of_char_bound(s.skip(1), c);
        assert forall|k: int| 0 <= k < index_of_char(s, c) implies s[k] != c by {
            if k > 0 {
                assert(s[k] == s.skip(1)[k - 1]);
            }
        }
    }
}

proof fn lemma_index_of_char_is(s: Seq<char>, c: char, i: int)
    requires
        0 <= i <= s.len(),
        forall|k: int| 0 <= k < i ==> s[k] != c,
        i < s.len() ==> s[i] == c,
    ensures
        index_of_char(s, c) == i,
    decreases s.len(),
{
    if s.len() > 0 && s[0] != c {
        lemma_index_of_char_is(s.skip(1), c, i - 1);
    }
}

proof fn lemma_lead_count_is(s: Seq<char>, p: spec_fn(char) -> bool, i: int)
    requires
        0 <= i <= s.len(),
        forall|k: int| 0 <= k < i ==> p(#[trigger] s[k]),
        i < s.len() ==> !p(s[i]),
    ensures
        lead_count(s, p) == i,
    decreases s.len(),
{
    if s.len() > 0 && p(s[0]) {
        assert forall|k: int| 0 <= k < i - 1 implies p(#[trigger] s.skip(1)[k]) by {
            assert(s.skip(1)[k] == s[k + 1]);
        }
        lemma_lead_count_is(s.skip(1), p, i - 1);
    }
}

proof fn lemma_trail_count_is(s: Seq<char>, p: spec_fn(char) -> bool, j: int)
    requires
        0 <= j <= s.len(),
        forall|k: int| j <= k < s.len() ==> p(#[trigger] s[k]),
        j > 0 ==> !p(s[j - 1]),
    ensures
        trail_count(s, p) == s.len() - j,
    decreases s.len(),
{
    if s.len() > 0 && p(s.last()) {
        assert forall|k: int| j <= k < s.len() - 1 implies p(#[trigger] s.drop_last()[k]) by {}
        lemma_trail_count_is(s.drop_last(), p, j);
    }
}

fn is_white_space_char(c: char) -> (r: bool)
    ensures
        r == is_white_space(c),
{
    let u = c as u32;
    (0x09 <= u && u <= 0x0D) || u == 0x20 || u == 0x85 || u == 0xA0 || u == 0x1680 || (0x2000 <= u && u <= 0x200A) || u
        == 0x2028 || u == 0x2029 || u == 0x202F || u == 0x205F || u == 0x3000
}

fn matches_trim(c: char, quote: bool) -> (r: bool)
    ensures
        r == (if quote { is_quote(c) } else { is_white_space(c) }),
{
    if quote {
        c == '"'
    } else {
        is_white_space_char(c)
    }
}

/// The trim predicate: double quotes when `quote`, white space otherwise.
pub open spec fn trim_pred(quote: bool) -> spec_fn(char) -> bool {
    if quote {
        |c: char| is_quote(c)
    } else {
        |c: char| is_white_space(c)
    }
}

/// Bounds of `s[from..to]` trimmed by the predicate chosen by `quote`.
fn trim_bounds(s: &str, from: usize, to: usize, quote: bool) -> (r: (usize, usize))
    requires
        from <= to <= s@.len(),
    ensures
        from <= r.0 <= r.1 <= to,
        s@.subrange(r.0 as int, r.1 as int) == trim_by(s@.subrange(from as int, to as int), trim_pred(quote)),
{
    let ghost p = trim_pred(quote);
    let ghost sub = s@.subrange(from as int, to as int);
    let mut a = from;
    while a < to && matches_trim(s.get_char(a), quote)
        invariant
            from <= a <= to,
            to <= s@.len(),
            sub == s@.subrange(from as int, to as int),
            p == trim_pred(quote),
            forall|k: int| 0 <= k < a - from ==> p(#[trigger] sub[k]),
        decreases to - a,
    {
        assert(sub[a - from] == s@[a as int]);
        a = a + 1;
    }
    proof {
        if a < to {
            assert(sub[a - from] == s@[a as int]);
        }
        lemma_lead_count_is(sub, p, a - from);
    }
    let ghost t = sub.skip(a - from);
    let mut b = to;
    while b > a && matches_trim(s.get_char(b - 1), quote)
        invariant
            from <= a <= b <= to,
            to <= s@.len(),
            sub == s@.subrange(from as int, to as int),
            t == sub.skip(a - from),
            p == trim_pred(quote),
            forall|k: int| b - a <= k < t.len() ==> p(#[trigger] t[k]),
        decreases b - a,
    {
        assert(t[b - 1 - a] == s@[b - 1]);
        b = b - 1;
    }
    proof {
        if b > a {
            assert(t[b - 1 - a] == s@[b - 1]);
        }
        lemma_trail_count_is(t, p, b - a);
        assert(s@.subrange(a as int, b as int) =~= trim_by(sub, p));
    }
    (a, b)
}

/// Index of the first `c` in `s[from..to]` (absolute), or `to` when there is none.
fn find_char(s: &str, from: usize, to: usize, c: char) -> (r: usize)
    requires
        from <= to <= s@.len(),
    ensures
        from <= r <= to,
        r - from == index_of_char(s@.subrange(from as int, to as int), c),
{
    let ghost sub = s@.subrange(from as int, to as int);
    let mut i = from;
    while i < to && s.get_char(i) != c
        invariant
            from <= i <= to,
            to <= s@.len(),
            sub == s@.subrange(from as int, to as int),
            forall|k: int| 0 <= k < i - from ==> #[trigger] sub[k] != c,
        decreases to - i,
    {
        assert(sub[i - from] == s@[i as int]);
        i = i + 1;
    }
    proof {
        if i < to {
            assert(sub[i - from] == s@[i as int]);
        }
        lemma_index_of_char_is(sub, c, i - from);
    }
    i
}

/// Insert `(k, v)` into `params` as `assoc_insert` does.
fn insert_param(params: &mut Vec<(String, String)>, k: String, v: String)
    ensures
        final(params)@.len() == params_view(final(params)@).len(),
        params_view(final(params)@) == assoc_insert(params_view(old(params)@), k@, v@),
{
    let ghost m = params_view(params@);
    let mut i: usize = 0;
    while i < params.len()
        invariant
            m == params_view(params@),
            m == params_view(old(params)@),
            i <= params@.len(),
            forall|j: int| 0 <= j < i ==> #[trigger] params@[j].0@ != k@,
        decreases params@.len() - i,
    {
        if str_eq(params[i].0.as_str(), k.as_str()) {
            proof {
                lemma_key_index_is(m, k@, i as int);
            }
            params.set(i, (k, v));
            assert(params_view(params@) =~= m.update(i as int, (k@, v@)));
            return;
        }
        i = i + 1;
    }
    proof {
        lemma_key_index_is(m, k@, i as int);
    }
    params.push((k, v));
    assert(params_view(params@) =~= m.push((k@, v@)));
}

proof fn lemma_key_index_is(m: Seq<(Seq<char>, Seq<char>)>, k: Seq<char>, i: int)
    requires
        0 <= i <= m.len(),
        forall|j: int| 0 <= j < i ==> #[trigger] m[j].0 != k,
        i < m.len() ==> m[i].0 == k,
    ensures
        key_index(m, k) == i,
    decreases m.len(),
{
    if m.len() > 0 && m[0].0 != k {
        assert forall|j: int| 0 <= j < i - 1 implies #[trigger] m.skip(1)[j].0 != k by {
            assert(m.skip(1)[j] == m[j + 1]);
        }
        lemma_key_index_is(m.skip(1), k, i - 1);
    }
}

/// The texts of key-value pairs.
pub open spec fn params_view(v: Seq<(String, String)>) -> Seq<(Seq<char>, Seq<char>)> {
    Seq::new(v.len(), |i: int| (v[i].0@, v[i].1@))
}

/// Parse a "Digest realm=..., nonce=..., ..." challenge into key-value pairs: keys are
/// lower-cased, values unquoted, and a later piece with a key already seen replaces its value.
pub fn parse_digest_challenge(header: &str) -> (r: Vec<(String, String)>)
    ensures
        params_view(r@) == digest_params(header@),
{
    let n = header.unicode_len();
    let mut start: usize = 0;
    if n >= 7 && str_eq(header.substring_char(0, 7), "Digest ") {
        start = 7;
    }
    let ghost body = header@.subrange(start as int, n as int);
    assert(body == strip_digest(header@)) by {
        if n >= 7 {
            assert(header@.take(7) =~= header@.subrange(0, 7));
        }
        assert(header@.subrange(0, n as int) =~= header@);
        assert(header@.subrange(7, n as int) =~= header@.skip(7));
    }
    let mut params: Vec<(String, String)> = Vec::new();
    let ghost mut done: Seq<Seq<char>> = Seq::empty();
    let mut p = start;
    loop
        invariant_except_break
            split_commas(body) == done + split_commas(header@.subrange(p as int, n as int)),
        invariant
            n == header@.len(),
            start <= p <= n,
            body == header@.subrange(start as int, n as int),
            params_view(params@) == params_of(done),
        ensures
            split_commas(body) == done,
        decreases n - p,
    {
        let q = find_char(header, p, n, ',');
        let ghost rest = header@.subrange(p as int, n as int);
        let ghost part = header@.subrange(p as int, q as int);
        proof {
            lemma_index_of_char_bound(rest, ',');
            assert(part =~= rest.take(q - p));
        }
        // Handle the piece [p, q)
        let (a, b) = trim_bounds(header, p, q, false);
        let e = find_char(header, a, b, '=');
        proof {
            assert(header@.subrange(a as int, b as int) == trim_ws(part));
        }
        if e < b {
            let (ka, kb) = trim_bounds(header, a, e, false);
            let key = to_lowercase(header.substring_char(ka, kb));
            let (va, vb) = trim_bounds(header, e + 1, b, false);
            let (qa, qb) = trim_bounds(header, va, vb, true);
            let val = String::from_str(header.substring_char(qa, qb));
            proof {
                let t = trim_ws(part);
                assert(header@.subrange(a as int, e as int) =~= t.take(e - a));
                assert(header@.subrange(e + 1, b as int) =~= t.skip(e - a + 1));
            }
            insert_param(&mut params, key, val);
        }
        proof {
            let ghost old_done = done;
            done = done.push(part);
            assert(done.drop_last() =~= old_done);
        }
        if q >= n {
            proof {
                assert(rest.take(q - p) =~= rest);
                assert(split_commas(rest) =~= seq![rest]);
                assert(split_commas(body) =~= done);
            }
            break;
        }
        proof {
            assert(rest.skip(q - p + 1) =~= header@.subrange(q + 1, n as int));
            assert(split_commas(rest) =~= seq![part] + split_commas(header@.subrange(q + 1, n as int)));
        }
        p = q + 1;
    }
    params
}

/// What a 200 response to the registration names as the endpoint: the body after the
/// first blank line, trimmed, when it starts with '/'; otherwise the error message.
pub open spec fn endpoint_of(resp: Seq<char>) -> Result<Seq<char>, Seq<char>> {
    if occurs_in(resp, "\r\n\r\n"@) {
        let p = choose|p: int| is_first_occurrence(resp, "\r\n\r\n"@, p);
        let e = trim_ws(resp.skip(p + 4));
        if e.len() > 0 && e[0] == '/' {
            Ok(e)
        } else {
            Err("invalid endpoint path: "@ + e)
        }
    } else {
        Err("no body in 200 response"@)
    }
}

/// The endpoint path named by the body of a 200 response.
pub fn extract_endpoint(response: &str) -> (r: Result<String, String>)
    ensures
        match r {
            Ok(s) => endpoint_of(response@) == Ok::<Seq<char>, Seq<char>>(s@),
            Err(s) => endpoint_of(response@) == Err::<Seq<char>, Seq<char>>(s@),
        },
{
    proof {
        reveal_strlit("\r\n\r\n");
    }
    match str_find(response, "\r\n\r\n") {
        Some(pos) => {
            let n = response.unicode_len();
            proof {
                let p = choose|p: int| is_first_occurrence(response@, "\r\n\r\n"@, p);
                lemma_first_occurrence_unique(response@, "\r\n\r\n"@, p, pos as int);
                assert(response@.skip(pos + 4) =~= response@.subrange(pos + 4, n as int));
            }
            let (a, b) = trim_bounds(response, pos + 4, n, false);
            let endpoint = response.substring_char(a, b);
            if b > a && endpoint.get_char(0) == '/' {
                Ok(String::from_str(endpoint))
            } else {
                let mut e = String::from_str("invalid endpoint path: ");
                e.append(endpoint);
                Err(e)
            }
        },
        None => Err(String::from_str("no body in 200 response")),
    }
}

/// Index of the first "\r\n" in `s`, or the length of `s` when there is none.
pub open spec fn crlf_index(s: Seq<char>) -> nat
    decreases s.len(),
{
    if s.len() < 2 {
        s.len()
    } else if s[0] == '\r' && s[1] == '\n' {
        0
    } else {
        1 + crlf_index(s.skip(1))
    }
}

pub proof fn lemma_crlf_index(s: Seq<char>)
    ensures
        crlf_index(s) <= s.len(),
        crlf_index(s) < s.len() ==> crlf_index(s) + 2 <= s.len(),
    decreases s.len(),
{
    if s.len() >= 2 && !(s[0] == '\r' && s[1] == '\n') {
        lemma_crlf_index(s.skip(1));
    }
}

proof fn lemma_crlf_index_is(s: Seq<char>, i: int)
    requires
        0 <= i <= s.len(),
        forall|k: int| 0 <= k < i && k + 1 < s.len() ==> !(#[trigger] s[k] == '\r' && s[k + 1] == '\n'),
        i < s.len() ==> i + 1 < s.len() && s[i] == '\r' && s[i + 1] == '\n',
    ensures
        crlf_index(s) == i,
    decreases s.len(),
{
    if s.len() >= 2 && !(s[0] == '\r' && s[1] == '\n') {
        assert forall|k: int| 0 <= k < i - 1 && k + 1 < s.skip(1).len() implies !(#[trigger] s.skip(1)[k] == '\r'
            && s.skip(1)[k + 1] == '\n') by {
            assert(s.skip(1)[k] == s[k + 1]);
            assert(s.skip(1)[k + 1] == s[k + 2]);
        }
        if i == 0 {
            assert(false);
        }
        lemma_crlf_index_is(s.skip(1), i - 1);
    } else if s.len() >= 2 {
        if i > 0 {
            assert(!(s[0] == '\r' && s[1] == '\n'));
        }
    }
}

/// The lines of `s`: the pieces between "\r\n" separators, in order.
pub open spec fn crlf_lines(s: Seq<char>) -> Seq<Seq<char>>
    decreases s.len(),
{
    let i = crlf_index(s);
    if i < s.len() {
        proof {
            lemma_crlf_index(s);
        }
        seq![s.take(i as int)] + crlf_lines(s.skip((i + 2) as int))
    } else {
        seq![s]
    }
}

/// The first line of `s`.
pub open spec fn first_line(s: Seq<char>) -> Seq<char> {
    s.take(crlf_index(s) as int)
}

/// Whether `line` is a WWW-Authenticate header, in any letter case.
pub open spec fn is_auth_header_line(line: Seq<char>) -> bool {
    starts_with(lowercase_of(line), "www-authenticate"@)
}

/// Index of the first WWW-Authenticate header in `lines`, or their number when there is none.
pub open spec fn auth_line_index(lines: Seq<Seq<char>>) -> nat
    decreases lines.len(),
{
    if lines.len() == 0 {
        0
    } else if is_auth_header_line(lines[0]) {
        0
    } else {
        1 + auth_line_index(lines.skip(1))
    }
}

proof fn lemma_auth_line_index_is(lines: Seq<Seq<char>>, i: int)
    requires
        0 <= i <= lines.len(),
        forall|j: int| 0 <= j < i ==> !is_auth_header_line(#[trigger] lines[j]),
        i < lines.len() ==> is_auth_header_line(lines[i]),
    ensures
        auth_line_index(lines) == i,
    decreases lines.len(),
{
    if lines.len() > 0 && !is_auth_header_line(lines[0]) {
        assert forall|j: int| 0 <= j < i - 1 implies !is_auth_header_line(#[trigger] lines.skip(1)[j]) by {
            assert(lines.skip(1)[j] == lines[j + 1]);
        }
        lemma_auth_line_index_is(lines.skip(1), i - 1);
    }
}

/// The value of parameter `k`, if present.
pub open spec fn param_of(m: Seq<(Seq<char>, Seq<char>)>, k: Seq<char>) -> Option<Seq<char>> {
    let i = key_index(m, k);
    if i < m.len() {
        Some(m[i as int].1)
    } else {
        None
    }
}

/// The value of parameter `k`, or the empty text.
pub open spec fn param_or_empty(m: Seq<(Seq<char>, Seq<char>)>, k: Seq<char>) -> Seq<char> {
    match param_of(m, k) {
        Some(v) => v,
        None => Seq::empty(),
    }
}

/// What the answer to the registration request leads to.
pub enum AuthOutcome {
    /// The endpoint path to connect to.
    Endpoint(Seq<char>),
    /// The Authorization header to repeat the request with.
    Authorize(Seq<char>),
    /// Why registration failed.
    Failed(Seq<char>),
}

/// What the answer to the registration request leads to: the endpoint, the Authorization
/// header to repeat the request with, or the reason of failure.
#[derive(Debug, Clone, PartialEq, Eq)]
pub enum AuthStep {
    Endpoint(String),
    Authorize(String),
    Failed(String),
}

impl View for AuthStep {
    type V = AuthOutcome;

    open spec fn view(&self) -> AuthOutcome {
        match self {
            AuthStep::Endpoint(s) => AuthOutcome::Endpoint(s@),
            AuthStep::Authorize(s) => AuthOutcome::Authorize(s@),
            AuthStep::Failed(s) => AuthOutcome::Failed(s@),
        }
    }
}

/// The text of an optional string.
pub open spec fn opt_text(s: Option<String>) -> Option<Seq<char>> {
    match s {
        Some(t) => Some(t@),
        None => None,
    }
}

/// What the first answer `resp` to the registration request leads to: on 200 the endpoint
/// of its body; on 401 with a digest challenge in its first WWW-Authenticate header, the
/// digest Authorization header for GET /brew/ with the configured credentials; otherwise
/// the reason of failure.
pub open spec fn first_auth_outcome(
    resp: Seq<char>,
    username: Option<Seq<char>>,
    password: Option<Seq<char>>,
    cnonce: Seq<char>,
) -> AuthOutcome {
    let status = first_line(resp);
    let lines = crlf_lines(resp);
    let k = auth_line_index(lines);
    if occurs_in(status, "200"@) {
        match endpoint_of(resp) {
            Ok(e) => AuthOutcome::Endpoint(e),
            Err(m) => AuthOutcome::Failed(m),
        }
    } else if !occurs_in(status, "401"@) {
        AuthOutcome::Failed("unexpected HTTP status: "@ + status)
    } else if k >= lines.len() {
        AuthOutcome::Failed("401 but no WWW-Authenticate header"@)
    } else {
        challenge_outcome(lines[k as int], username, password, cnonce)
    }
}

/// What a WWW-Authenticate header `line` leads to: with a digest challenge after its first
/// ':' and both credentials, the digest Authorization header for GET /brew/; otherwise the
/// reason of failure.
pub open spec fn challenge_outcome(
    line: Seq<char>,
    username: Option<Seq<char>>,
    password: Option<Seq<char>>,
    cnonce: Seq<char>,
) -> AuthOutcome {
    let c = index_of_char(line, ':');
    let challenge = trim_ws(line.skip((c + 1) as int));
    if c >= line.len() {
        AuthOutcome::Failed("malformed WWW-Authenticate"@)
    } else if !starts_with(lowercase_of(challenge), "digest"@) {
        AuthOutcome::Failed("unsupported auth scheme: "@ + challenge)
    } else {
        match (username, password) {
            (Some(u), Some(p)) => {
                let params = digest_params(challenge);
                AuthOutcome::Authorize(
                    digest_header(
                        u,
                        p,
                        param_or_empty(params, "realm"@),
                        param_or_empty(params, "nonce"@),
                        param_or_empty(params, "qop"@),
                        "/brew/"@,
                        "GET"@,
                        param_of(params, "opaque"@),
                        cnonce,
                    ),
                )
            },
            _ => AuthOutcome::Failed("server requires auth but no username/password configured"@),
        }
    }
}

/// What the answer `resp` to the authenticated request gives: on 200 the endpoint of its
/// body, otherwise the failure with the status line.
pub open spec fn auth_result_of(resp: Seq<char>) -> Result<Seq<char>, Seq<char>> {
    if occurs_in(first_line(resp), "200"@) {
        endpoint_of(resp)
    } else {
        Err("authentication failed: "@ + first_line(resp))
    }
}

/// Index of the first "\r\n" in `s[from..to]` (absolute), or `to` when there is none.
fn crlf_from(s: &str, from: usize, to: usize) -> (r: usize)
    requires
        from <= to <= s@.len(),
    ensures
        from <= r <= to,
        r - from == crlf_index(s@.subrange(from as int, to as int)),
{
    let ghost sub = s@.subrange(from as int, to as int);
    let last = if to > 0 { to - 1 } else { 0 };
    let mut i = from;
    while i < last && !(s.get_char(i) == '\r' && s.get_char(i + 1) == '\n')
        invariant
            last == (if to > 0 { to - 1 } else { 0 }),
            from <= i <= to,
            to <= s@.len(),
            sub == s@.subrange(from as int, to as int),
            forall|k: int| 0 <= k < i - from && k + 1 < sub.len() ==> !(#[trigger] sub[k] == '\r' && sub[k + 1] == '\n'),
        decreases to - i,
    {
        assert(sub[i - from] == s@[i as int]);
        assert(sub[i - from + 1] == s@[i + 1]);
        i = i + 1;
    }
    if i < last {
        proof {
            assert(sub[i - from] == s@[i as int]);
            assert(sub[i - from + 1] == s@[i + 1]);
            lemma_crlf_index_is(sub, i - from);
        }
        i
    } else {
        proof {
            lemma_crlf_index_is(sub, sub.len() as int);
        }
        to
    }
}

/// The value of parameter `key` among `params`, if present.
fn param_lookup<'a>(params: &'a Vec<(String, String)>, key: &str) -> (r: Option<&'a str>)
    ensures
        match r {
            Some(v) => param_of(params_view(params@), key@) == Some(v@),
            None => param_of(params_view(params@), key@) is None,
        },
{
    let ghost m = params_view(params@);
    let mut i: usize = 0;
    while i < params.len()
        invariant
            m == params_view(params@),
            i <= params@.len(),
            forall|j: int| 0 <= j < i ==> #[trigger] params@[j].0@ != key@,
        decreases params@.len() - i,
    {
        if str_eq(params[i].0.as_str(), key) {
            proof {
                lemma_key_index_is(m, key@, i as int);
            }
            return Some(params[i].1.as_str());
        }
        i = i + 1;
    }
    proof {
        lemma_key_index_is(m, key@, i as int);
    }
    None
}

/// The value of parameter `key` among `params`, or the empty text.
fn param_or_empty_str<'a>(params: &'a Vec<(String, String)>, key: &str) -> (r: &'a str)
    ensures
        r@ == param_or_empty(params_view(params@), key@),
{
    match param_lookup(params, key) {
        Some(v) => v,
        None => {
            proof {
                reveal_strlit("");
            }
            ""
        },
    }
}

/// Decide what the first answer `response` to the registration request leads to; the
/// client nonce of a digest answer is `cnonce_nanos` as eight hexadecimal digits.
pub fn first_auth_step(response: &str, username: &Option<String>, password: &Option<String>, cnonce_nanos: u32) -> (r:
    AuthStep)
    ensures
        r@ == first_auth_outcome(response@, opt_text(*username), opt_text(*password), hex8(cnonce_nanos)),
{
    let n = response.unicode_len();
    let q0 = crlf_from(response, 0, n);
    let status = response.substring_char(0, q0);
    proof {
        assert(response@.subrange(0, n as int) =~= response@);
        assert(status@ =~= first_line(response@));
    }
    if str_contains(status, "200") {
        return match extract_endpoint(response) {
            Ok(e) => AuthStep::Endpoint(e),
            Err(m) => AuthStep::Failed(m),
        };
    }
    if !str_contains(status, "401") {
        let mut m = String::from_str("unexpected HTTP status: ");
        m.append(status);
        return AuthStep::Failed(m);
    }
    match find_auth_line(response) {
        Some((a, b)) => challenge_step(response, a, b, username, password, cnonce_nanos),
        None => AuthStep::Failed(String::from_str("401 but no WWW-Authenticate header")),
    }
}

/// Bounds of the first WWW-Authenticate header among the lines of `response`, if any.
fn find_auth_line(response: &str) -> (r: Option<(usize, usize)>)
    ensures
        r matches Some((a, b)) ==> a <= b <= response@.len() && auth_line_index(crlf_lines(response@)) < crlf_lines(
            response@,
        ).len() && crlf_lines(response@)[auth_line_index(crlf_lines(response@)) as int] == response@.subrange(
            a as int,
            b as int,
        ),
        r is None ==> auth_line_index(crlf_lines(response@)) >= crlf_lines(response@).len(),
{
    let n = response.unicode_len();
    let ghost lines = crlf_lines(response@);
    let ghost mut done: Seq<Seq<char>> = Seq::empty();
    proof {
        assert(response@.subrange(0, n as int) =~= response@);
    }
    let mut p: usize = 0;
    let mut found: Option<(usize, usize)> = None;
    loop
        invariant_except_break
            lines == done + crlf_lines(response@.subrange(p as int, n as int)),
            forall|j: int| 0 <= j < done.len() ==> !is_auth_header_line(#[trigger] done[j]),
            found is None,
        invariant
            n == response@.len(),
            p <= n,
            lines == crlf_lines(response@),
        ensures
            found matches Some((a, b)) ==> a <= b <= n && auth_line_index(lines) < lines.len() && lines[auth_line_index(
                lines,
            ) as int] == response@.subrange(a as int, b as int),
            found is None ==> auth_line_index(lines) >= lines.len(),
        decreases n - p,
    {
        let q = crlf_from(response, p, n);
        let ghost rest = response@.subrange(p as int, n as int);
        proof {
            lemma_crlf_index(rest);
            assert(response@.subrange(p as int, q as int) =~= rest.take(q - p));
        }
        let line = response.substring_char(p, q);
        let low = to_lowercase(line);
        if str_starts_with(low.as_str(), "www-authenticate") {
            proof {
                if q - p < rest.len() {
                    assert(crlf_lines(rest) == seq![rest.take(q - p)] + crlf_lines(rest.skip(q - p + 2)));
                } else {
                    assert(rest.take(q - p) =~= rest);
                }
                assert((done + crlf_lines(rest))[done.len() as int] == rest.take(q - p));
                lemma_auth_line_index_is(lines, done.len() as int);
            }
            found = Some((p, q));
            break;
        }
        if q >= n {
            proof {
                assert(rest.take(q - p) =~= rest);
                assert(crlf_lines(rest) =~= seq![rest]);
                assert forall|j: int| 0 <= j < lines.len() implies !is_auth_header_line(#[trigger] lines[j]) by {
                    if j < done.len() {
                        assert(lines[j] == done[j]);
                    } else {
                        assert(lines[j] == rest);
                    }
                }
                lemma_auth_line_index_is(lines, lines.len() as int);
            }
            break;
        }
        proof {
            assert(rest.skip(q - p + 2) =~= response@.subrange(q + 2, n as int));
            assert(crlf_lines(rest) =~= seq![rest.take(q - p)] + crlf_lines(response@.subrange(q + 2, n as int)));
            done = done.push(rest.take(q - p));
            assert(lines =~= done + crlf_lines(response@.subrange(q + 2, n as int)));
        }
        p = q + 2;
    }
    found
}

/// What the WWW-Authenticate header `response[a..b]` leads to.
fn challenge_step(
    response: &str,
    a: usize,
    b: usize,
    username: &Option<String>,
    password: &Option<String>,
    cnonce_nanos: u32,
) -> (r: AuthStep)
    requires
        a <= b <= response@.len(),
    ensures
        r@ == challenge_outcome(
            response@.subrange(a as int, b as int),
            opt_text(*username),
            opt_text(*password),
            hex8(cnonce_nanos),
        ),
{
    let ghost line = response@.subrange(a as int, b as int);
    let c = find_char(response, a, b, ':');
    if c >= b {
        return AuthStep::Failed(String::from_str("malformed WWW-Authenticate"));
    }
    let (ca, cb) = trim_bounds(response, c + 1, b, false);
    proof {
        assert(line.skip(c - a + 1) =~= response@.subrange(c + 1, b as int));
    }
    let challenge = response.substring_char(ca, cb);
    let low = to_lowercase(challenge);
    if !str_starts_with(low.as_str(), "digest") {
        let mut m = String::from_str("unsupported auth scheme: ");
        m.append(challenge);
        return AuthStep::Failed(m);
    }
    match (username, password) {
        (Some(u), Some(pw)) => {
            let params = parse_digest_challenge(challenge);
            let realm = param_or_empty_str(&params, "realm");
            let nonce = param_or_empty_str(&params, "nonce");
            let qop = param_or_empty_str(&params, "qop");
            let opaque = param_lookup(&params, "opaque");
            let header = build_digest_response(u.as_str(), pw.as_str(), realm, nonce, qop, "/brew/", "GET", opaque, cnonce_nanos);
            AuthStep::Authorize(header)
        },
        _ => AuthStep::Failed(String::from_str("server requires auth but no username/password configured")),
    }
}

/// What the answer `response` to the authenticated request gives: the endpoint, or the failure.
pub fn auth_result(response: &str) -> (r: Result<String, String>)
    ensures
        match r {
            Ok(s) => auth_result_of(response@) == Ok::<Seq<char>, Seq<char>>(s@),
            Err(s) => auth_result_of(response@) == Err::<Seq<char>, Seq<char>>(s@),
        },
{
    let n = response.unicode_len();
    let q0 = crlf_from(response, 0, n);
    let status = response.substring_char(0, q0);
    proof {
        assert(response@.subrange(0, n as int) =~= response@);
        assert(status@ =~= first_line(response@));
    }
    if str_contains(status, "200") {
        extract_endpoint(response)
    } else {
        let mut m = String::from_str("authentication failed: ");
        m.append(status);
        Err(m)
    }
}

/// The User-Agent of the stack: "BlueStation/" and the stack version.
pub fn user_agent(stack_version: &str) -> (r: String)
    ensures
        r@ == "BlueStation/"@ + stack_version@,
{
    let mut r = String::from_str("BlueStation/");
    r.append(stack_version);
    r
}

/// The registration request GET /brew/ to `host`, with an Authorization header when given.
pub open spec fn registration_request(host: Seq<char>, agent: Seq<char>, authorization: Option<Seq<char>>) -> Seq<char> {
    "GET /brew/ HTTP/1.1\r\nHost: "@ + host + "\r\nUser-Agent: "@ + agent + "\r\n"@ + match authorization {
        Some(a) => "Authorization: "@ + a + "\r\n"@,
        None => Seq::empty(),
    } + "\r\n"@
}

/// The registration request GET /brew/ to `host`, with an Authorization header when given.
pub fn http_get_request(host: &str, agent: &str, authorization: Option<&str>) -> (r: String)
    ensures
        r@ == registration_request(
            host@,
            agent@,
            match authorization {
                Some(a) => Some(a@),
                None => None,
            },
        ),
{
    let mut r = String::from_str("GET /brew/ HTTP/1.1\r\nHost: ");
    r.append(host);
    r.append("\r\nUser-Agent: ");
    r.append(agent);
    r.append("\r\n");
    if let Some(a) = authorization {
        r.append("Authorization: ");
        r.append(a);
        r.append("\r\n");
    }
    r.append("\r\n");
    proof {
        reveal_strlit("");
    }
    assert(r@ =~= registration_request(
        host@,
        agent@,
        match authorization {
            Some(a) => Some(a@),
            None => None,
        },
    ));
    r
}

} // verus!
