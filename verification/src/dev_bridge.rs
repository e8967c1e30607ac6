use vstd::prelude::*;

use crate::text::{
    chars_eq, chars_of, dec, index_of, is_space, lemma_index_of, push_dec, push_str,
    slice_chars, split_once, split_once_chars, string_from_chars, char_is_space,
};
use base64::Engine;
use vstd::utf8::encode_utf8;

verus! {

// ---------------------------------------------------------------------------
// Percent decoding (on the bytes of the text)
// ---------------------------------------------------------------------------

/// The value of a hexadecimal digit byte.
pub open spec fn hex_value(b: u8) -> Option<u8> {
    if 48 <= b <= 57 {
        Some((b - 48) as u8)
    } else if 97 <= b <= 102 {
        Some((b - 87) as u8)
    } else if 65 <= b <= 70 {
        Some((b - 55) as u8)
    } else {
        None
    }
}

/// `u8::from_str_radix(.., 16)` on the text of two bytes: two hex digits, or `+` and one.
pub open spec fn hex_pair(a: u8, b: u8) -> Option<u8> {
    if a == 43 {
        hex_value(b)
    } else {
        match (hex_value(a), hex_value(b)) {
            (Some(x), Some(y)) => Some((16 * x + y) as u8),
            _ => None,
        }
    }
}

/// The character a byte stands for on its own (Latin-1).
pub open spec fn byte_char(b: u8) -> char {
    (b as u32) as char
}

/// Percent decoding, byte by byte: `%XY` with a valid hex pair becomes that byte's
/// character, an invalid pair is kept as written, a `%` with fewer than two bytes after
/// it ends the text as a lone `%`, `+` becomes a space, and any other byte stands for
/// itself.
pub open spec fn percent_decoded(b: Seq<u8>) -> Seq<char>
    decreases b.len(),
{
    if b.len() == 0 {
        Seq::empty()
    } else if b[0] == 37 {
        if b.len() < 3 {
            seq!['%']
        } else {
            match hex_pair(b[1], b[2]) {
                Some(v) => seq![byte_char(v)] + percent_decoded(b.skip(3)),
                None => seq!['%', byte_char(b[1]), byte_char(b[2])] + percent_decoded(b.skip(3)),
            }
        }
    } else if b[0] == 43 {
        seq![' '] + percent_decoded(b.skip(1))
    } else {
        seq![byte_char(b[0])] + percent_decoded(b.skip(1))
    }
}

fn hex_digit(b: u8) -> (r: Option<u8>)
    ensures
        r == hex_value(b),
{
    if 48 <= b && b <= 57 {
        Some(b - 48)
    } else if 97 <= b && b <= 102 {
        Some(b - 87)
    } else if 65 <= b && b <= 70 {
        Some(b - 55)
    } else {
        None
    }
}

fn parse_hex_pair(a: u8, b: u8) -> (r: Option<u8>)
    ensures
        r == hex_pair(a, b),
{
    if a == 43 {
        return hex_digit(b);
    }
    match (hex_digit(a), hex_digit(b)) {
        (Some(x), Some(y)) => Some(16 * x + y),
        _ => None,
    }
}

fn char_of_byte(b: u8) -> (c: char)
    ensures
        c == byte_char(b),
{
    b as char
}

/// Decodes the bytes `b[from..]`.
fn percent_decode_bytes(b: &[u8]) -> (decoded: Vec<char>)
    ensures
        decoded@ == percent_decoded(b@),
{
    let mut out: Vec<char> = Vec::new();
    let mut i: usize = 0;
    assert(b@.skip(0) =~= b@);
    while i < b.len()
        invariant
            i <= b.len(),
            out@ + percent_decoded(b@.skip(i as int)) == percent_decoded(b@),
        decreases b.len() - i,
    {
        let ghost rest = b@.skip(i as int);
        let byte = b[i];
        assert(rest[0] == byte);
        if byte == 37 {
            if b.len() - i < 3 {
                out.push('%');
                assert(out@ =~= percent_decoded(b@));
                return out;
            }
            let first = b[i + 1];
            let second = b[i + 2];
            assert(rest[1] == first && rest[2] == second);
            assert(rest.skip(3) =~= b@.skip(i + 3));
            match parse_hex_pair(first, second) {
                Some(v) => {
                    out.push(char_of_byte(v));
                },
                None => {
                    out.push('%');
                    out.push(char_of_byte(first));
                    out.push(char_of_byte(second));
                },
            }
            i = i + 3;
        } else {
            assert(rest.skip(1) =~= b@.skip(i + 1));
            if byte == 43 {
                out.push(' ');
            } else {
                out.push(char_of_byte(byte));
            }
            i = i + 1;
        }
    }
    assert(b@.skip(i as int) =~= Seq::<u8>::empty());
    assert(out@ =~= percent_decoded(b@));
    out
}

/// Percent-decodes a query component; `+` stands for a space.
pub fn percent_decode(value: &str) -> (decoded: String)
    ensures
        decoded@ == percent_decoded(encode_utf8(value@)),
{
    let bytes = value.as_bytes();
    let out = percent_decode_bytes(bytes);
    string_from_chars(out.as_slice())
}

// ---------------------------------------------------------------------------
// Query strings (on bytes; the separators are ASCII)
// ---------------------------------------------------------------------------

/// The index of the first byte `c` in `s`, or `s.len()`.
pub open spec fn byte_index(s: Seq<u8>, c: u8) -> nat
    decreases s.len(),
{
    if s.len() == 0 {
        0
    } else if s[0] == c {
        0
    } else {
        1 + byte_index(s.drop_first(), c)
    }
}

proof fn lemma_byte_index(s: Seq<u8>, c: u8, i: int)
    requires
        0 <= i <= s.len(),
        forall|k: int| 0 <= k < i ==> s[k] != c,
        i == s.len() || s[i] == c,
    ensures
        byte_index(s, c) == i,
    decreases i,
{
    if i > 0 {
        lemma_byte_index(s.drop_first(), c, i - 1);
    }
}

fn find_byte(s: &[u8], from: usize, c: u8) -> (i: usize)
    requires
        from <= s.len(),
    ensures
        i == from + byte_index(s@.skip(from as int), c),
        from <= i <= s.len(),
{
    let mut i: usize = from;
    while i < s.len()
        invariant
            from <= i <= s.len(),
            forall|k: int| from <= k < i ==> s@[k] != c,
        decreases s.len() - i,
    {
        if s[i] == c {
            proof {
                lemma_byte_index(s@.skip(from as int), c, i - from);
            }
            return i;
        }
        i = i + 1;
    }
    proof {
        lemma_byte_index(s@.skip(from as int), c, i - from);
    }
    i
}

/// What one `key=value` pair of a query gives for `key`: the decoded value when the
/// decoded key matches.
pub open spec fn pair_value(pair: Seq<u8>, key: Seq<char>) -> Option<Seq<char>> {
    let e = byte_index(pair, 61) as int;
    if e < pair.len() && percent_decoded(pair.take(e)) == key {
        Some(percent_decoded(pair.skip(e + 1)))
    } else {
        None
    }
}

/// The value of the first `&`-separated pair of `q` whose decoded key is `key`.
pub open spec fn query_lookup(q: Seq<u8>, key: Seq<char>) -> Option<Seq<char>>
    decreases q.len(),
{
    let amp = byte_index(q, 38) as int;
    match pair_value(q.take(amp), key) {
        Some(v) => Some(v),
        None => if amp < q.len() {
            query_lookup(q.skip(amp + 1), key)
        } else {
            None
        },
    }
}

/// Looks `key` up among the pairs of the query bytes `q[from..]`.
fn lookup_query(q: &[u8], key: &[char]) -> (r: Option<Vec<char>>)
    ensures
        match r {
            Some(v) => query_lookup(q@, key@) == Some(v@),
            None => query_lookup(q@, key@) is None,
        },
{
    let mut from: usize = 0;
    assert(q@.skip(0) =~= q@);
    loop
        invariant
            from <= q.len(),
            query_lookup(q@, key@) == query_lookup(q@.skip(from as int), key@),
        decreases q.len() - from,
    {
        let ghost rest = q@.skip(from as int);
        let amp = find_byte(q, from, 38);
        let ghost pair = rest.take(amp - from);
        assert(q@.subrange(from as int, amp as int) =~= pair);
        let eq = find_byte(q, from, 61);
        // The `=` must lie inside the pair.
        if eq < amp {
            proof {
                lemma_byte_index_bounds(rest, 61);
                assert(forall|k: int| 0 <= k < eq - from ==> pair[k] == rest[k]);
                lemma_byte_index(pair, 61, eq - from);
            }
            let k = percent_decode_bytes(slice_bytes(q, from, eq).as_slice());
            assert(pair.take(eq - from) =~= q@.subrange(from as int, eq as int));
            if chars_eq(k.as_slice(), key) {
                let v = percent_decode_bytes(slice_bytes(q, eq + 1, amp).as_slice());
                assert(pair.skip(eq - from + 1) =~= q@.subrange(eq + 1, amp as int));
                return Some(v);
            }
        } else {
            proof {
                if byte_index(pair, 61) < pair.len() {
                    let e = byte_index(pair, 61) as int;
                    lemma_byte_index_bounds(pair, 61);
                    lemma_byte_index_bounds(rest, 61);
                    assert(pair[e] == 61);
                    assert(rest[e] == 61);
                }
            }
        }
        if amp >= q.len() {
            return None;
        }
        assert(rest.skip(amp - from + 1) =~= q@.skip(amp + 1));
        from = amp + 1;
    }
}

proof fn lemma_byte_index_bounds(s: Seq<u8>, c: u8)
    ensures
        byte_index(s, c) <= s.len(),
        byte_index(s, c) < s.len() ==> s[byte_index(s, c) as int] == c,
        forall|k: int| 0 <= k < byte_index(s, c) ==> s[k] != c,
    decreases s.len(),
{
    if s.len() > 0 && s[0] != c {
        lemma_byte_index_bounds(s.drop_first(), c);
        assert forall|k: int| 0 <= k < byte_index(s, c) implies s[k] != c by {
            if k > 0 {
                assert(s[k] == s.drop_first()[k - 1]);
            }
        }
    }
}

/// The bytes `s[from..to]`.
fn slice_bytes(s: &[u8], from: usize, to: usize) -> (r: Vec<u8>)
    requires
        from <= to <= s.len(),
    ensures
        r@ == s@.subrange(from as int, to as int),
{
    let mut r: Vec<u8> = Vec::new();
    let mut i: usize = from;
    while i < to
        invariant
            from <= i <= to,
            to <= s.len(),
            r@ == s@.subrange(from as int, i as int),
        decreases to - i,
    {
        r.push(s[i]);
        i = i + 1;
        assert(s@.subrange(from as int, i as int) == s@.subrange(from as int, i - 1).push(
            s@[i - 1],
        ));
    }
    r
}


// ---------------------------------------------------------------------------
// Text scanning
// ---------------------------------------------------------------------------

/// `\r\n\r\n` starts at index `i`.
pub open spec fn blank_line_at(s: Seq<char>, i: int) -> bool {
    0 <= i && i + 4 <= s.len() && s[i] == '\r' && s[i + 1] == '\n' && s[i + 2] == '\r' && s[i + 3]
        == '\n'
}

/// The index of the first `\r\n\r\n`, or `s.len()` when there is none.
pub open spec fn blank_line_index(s: Seq<char>) -> nat
    decreases s.len(),
{
    if s.len() < 4 {
        s.len()
    } else if blank_line_at(s, 0) {
        0
    } else {
        1 + blank_line_index(s.drop_first())
    }
}

proof fn lemma_blank_line_index(s: Seq<char>, i: int)
    requires
        0 <= i <= s.len(),
        forall|k: int| 0 <= k < i ==> !#[trigger] blank_line_at(s, k),
        blank_line_at(s, i) || (i == s.len() && forall|k: int| #![trigger blank_line_at(s, k)] 0 <= k
            ==> !blank_line_at(s, k)),
    ensures
        blank_line_index(s) == i,
    decreases i,
{
    if i > 0 {
        if s.len() >= 4 {
            assert(!blank_line_at(s, 0));
            let t = s.drop_first();
            assert forall|k: int| 0 <= k < i - 1 implies !#[trigger] blank_line_at(t, k) by {
                assert(!blank_line_at(s, k + 1));
            }
            if blank_line_at(s, i) {
                assert(blank_line_at(t, i - 1));
            } else {
                assert forall|k: int| 0 <= k implies !#[trigger] blank_line_at(t, k) by {
                    assert(!blank_line_at(s, k + 1));
                }
            }
            lemma_blank_line_index(t, i - 1);
        }
    }
}

/// `str::split_once("\r\n\r\n")`.
pub open spec fn split_at_blank_line(s: Seq<char>) -> Option<(Seq<char>, Seq<char>)> {
    let i = blank_line_index(s) as int;
    if i < s.len() {
        Some((s.take(i), s.skip(i + 4)))
    } else {
        None
    }
}

/// Drops a `\r` at the end.
pub open spec fn strip_cr(s: Seq<char>) -> Seq<char> {
    if s.len() > 0 && s.last() == '\r' {
        s.drop_last()
    } else {
        s
    }
}

/// The first of `str::lines`: up to the first `\n` (a `\r` before it dropped), or the
/// whole text when there is no `\n`; none for empty text.
pub open spec fn first_line(s: Seq<char>) -> Option<Seq<char>> {
    if s.len() == 0 {
        None
    } else {
        let i = index_of(s, '\n') as int;
        if i < s.len() {
            Some(strip_cr(s.take(i)))
        } else {
            Some(s)
        }
    }
}

/// How many characters at the front of `s` are white space (`space`) or are not.
pub open spec fn lead_count(s: Seq<char>, space: bool) -> nat
    decreases s.len(),
{
    if s.len() == 0 {
        0
    } else if is_space(s[0]) == space {
        1 + lead_count(s.drop_first(), space)
    } else {
        0
    }
}

proof fn lemma_lead_count(s: Seq<char>, space: bool, i: int)
    requires
        0 <= i <= s.len(),
        forall|k: int| 0 <= k < i ==> is_space(#[trigger] s[k]) == space,
        i == s.len() || is_space(s[i]) != space,
    ensures
        lead_count(s, space) == i,
    decreases i,
{
    if i > 0 {
        assert forall|k: int| 0 <= k < i - 1 implies is_space(#[trigger] s.drop_first()[k]) == space by {
            assert(s.drop_first()[k] == s[k + 1]);
        }
        lemma_lead_count(s.drop_first(), space, i - 1);
    }
}

/// The first word of `str::split_whitespace` and the text after it.
pub open spec fn first_word(s: Seq<char>) -> Option<(Seq<char>, Seq<char>)> {
    let t = s.skip(lead_count(s, true) as int);
    if t.len() == 0 {
        None
    } else {
        let n = lead_count(t, false) as int;
        Some((t.take(n), t.skip(n)))
    }
}

/// The characters of `s` from `from` on, past white space (`space`) or past other characters.
fn skip_class(s: &[char], from: usize, space: bool) -> (i: usize)
    requires
        from <= s.len(),
    ensures
        i == from + lead_count(s@.skip(from as int), space),
        from <= i <= s.len(),
{
    let mut i = from;
    while i < s.len() && char_is_space(s[i]) == space
        invariant
            from <= i <= s.len(),
            forall|k: int| from <= k < i ==> is_space(#[trigger] s@[k]) == space,
        decreases s.len() - i,
    {
        i = i + 1;
    }
    proof {
        let t = s@.skip(from as int);
        assert forall|k: int| 0 <= k < i - from implies is_space(#[trigger] t[k]) == space by {
            assert(t[k] == s@[from + k]);
        }
        lemma_lead_count(t, space, i - from);
    }
    i
}

/// The first word of `s[from..]` and where the text after it starts.
fn next_word(s: &[char], from: usize) -> (r: Option<(Vec<char>, usize)>)
    requires
        from <= s.len(),
    ensures
        match r {
            Some((w, next)) => next <= s.len() && first_word(s@.skip(from as int)) == Some(
                (w@, s@.skip(next as int)),
            ),
            None => first_word(s@.skip(from as int)) is None,
        },
{
    let start = skip_class(s, from, true);
    let ghost t = s@.skip(from as int).skip(lead_count(s@.skip(from as int), true) as int);
    assert(t =~= s@.skip(start as int));
    if start == s.len() {
        return None;
    }
    let end = skip_class(s, start, false);
    let w = slice_chars(s, start, end);
    assert(t.take(end - start) =~= w@);
    assert(t.skip(end - start) =~= s@.skip(end as int));
    Some((w, end))
}

// ---------------------------------------------------------------------------
// Requests
// ---------------------------------------------------------------------------

/// A request to the development bridge.
#[derive(Debug, Clone)]
pub struct DevBridgeRequest {
    pub method: String,
    pub path: String,
    pub query: String,
    pub body: String,
}

/// The path and the query of a URI: split at the first `?`, or all path.
pub open spec fn spec_split_uri(uri: Seq<char>) -> (Seq<char>, Seq<char>) {
    match split_once(uri, '?') {
        Some((path, query)) => (path, query),
        None => (uri, Seq::empty()),
    }
}

/// The path and the query of a URI.
pub fn split_uri(uri: &str) -> (parts: (String, String))
    ensures
        (parts.0@, parts.1@) == spec_split_uri(uri@),
{
    let cs = chars_of(uri);
    match split_once_chars(cs.as_slice(), '?') {
        Some((path, query)) => (string_from_chars(path.as_slice()), string_from_chars(
            query.as_slice(),
        )),
        None => (string_from_chars(cs.as_slice()), String::new()),
    }
}

impl DevBridgeRequest {
    /// A request from its method, URI and body; the URI is split into path and query.
    pub fn new(method: &str, uri: &str, body: &str) -> (request: Self)
        ensures
            request.method@ == method@,
            (request.path@, request.query@) == spec_split_uri(uri@),
            request.body@ == body@,
    {
        let (path, query) = split_uri(uri);
        let cs = chars_of(method);
        let bs = chars_of(body);
        DevBridgeRequest {
            method: string_from_chars(cs.as_slice()),
            path,
            query,
            body: string_from_chars(bs.as_slice()),
        }
    }

    /// The decoded value of the first query pair whose decoded key is `key`.
    pub fn query_value(&self, key: &str) -> (value: Option<String>)
        ensures
            match value {
                Some(v) => query_lookup(encode_utf8(self.query@), key@) == Some(v@),
                None => query_lookup(encode_utf8(self.query@), key@) is None,
            },
    {
        let k = chars_of(key);
        match lookup_query(self.query.as_str().as_bytes(), k.as_slice()) {
            Some(v) => Some(string_from_chars(v.as_slice())),
            None => None,
        }
    }
}

/// Why a raw request could not be read.
pub const INVALID_REQUEST: &'static str = "invalid HTTP request";
pub const MISSING_REQUEST_LINE: &'static str = "missing request line";
pub const MISSING_METHOD: &'static str = "missing request method";
pub const MISSING_URI: &'static str = "missing request uri";

/// What reading a raw request gives: the method, the URI and the body, or the first
/// thing missing.
pub open spec fn spec_parse_request(raw: Seq<char>) -> Result<
    (Seq<char>, Seq<char>, Seq<char>),
    Seq<char>,
> {
    match split_at_blank_line(raw) {
        None => Err(INVALID_REQUEST@),
        Some((headers, body)) => match first_line(headers) {
            None => Err(MISSING_REQUEST_LINE@),
            Some(line) => match first_word(line) {
                None => Err(MISSING_METHOD@),
                Some((method, rest)) => match first_word(rest) {
                    None => Err(MISSING_URI@),
                    Some((uri, _)) => Ok((method, uri, body)),
                },
            },
        },
    }
}

/// Finds the first `\r\n\r\n`.
fn find_blank_line(s: &[char]) -> (i: usize)
    ensures
        i == blank_line_index(s@),
        i < s.len() ==> blank_line_at(s@, i as int),
{
    let mut i: usize = 0;
    while s.len() >= 4 && i <= s.len() - 4
        invariant
            i <= s.len(),
            forall|k: int| 0 <= k < i ==> !#[trigger] blank_line_at(s@, k),
        decreases s.len() - i,
    {
        if s[i] == '\r' && s[i + 1] == '\n' && s[i + 2] == '\r' && s[i + 3] == '\n' {
            proof {
                lemma_blank_line_index(s@, i as int);
            }
            return i;
        }
        i = i + 1;
    }
    proof {
        lemma_blank_line_index(s@, s.len() as int);
    }
    s.len()
}

/// Reads the request line and the body of a raw request.
pub fn parse_http_request(raw: &str) -> (r: Result<DevBridgeRequest, String>)
    ensures
        match spec_parse_request(raw@) {
            Ok((method, uri, body)) => r matches Ok(req) && req.method@ == method && (
            req.path@, req.query@) == spec_split_uri(uri) && req.body@ == body,
            Err(e) => r matches Err(f) && f@ == e,
        },
{
    let cs = chars_of(raw);
    let at = find_blank_line(cs.as_slice());
    if at >= cs.len() {
        return Err(crate::text::owned(INVALID_REQUEST));
    }
    let headers = slice_chars(cs.as_slice(), 0, at);
    let body = slice_chars(cs.as_slice(), at + 4, cs.len());
    assert(headers@ == raw@.take(at as int));
    assert(body@ == raw@.skip(at + 4));
    if headers.len() == 0 {
        return Err(crate::text::owned(MISSING_REQUEST_LINE));
    }
    let nl = crate::text::find_char(headers.as_slice(), '\n');
    let mut line_end = nl;
    if nl < headers.len() && nl > 0 && headers[nl - 1] == '\r' {
        line_end = nl - 1;
    }
    let line = slice_chars(headers.as_slice(), 0, line_end);
    assert(first_line(headers@) == Some(line@)) by {
        if nl < headers.len() {
            assert(strip_cr(headers@.take(nl as int)) =~= line@);
        } else {
            assert(headers@ =~= line@);
        }
    }
    let method = match next_word(line.as_slice(), 0) {
        None => {
            assert(line@.skip(0) =~= line@);
            return Err(crate::text::owned(MISSING_METHOD));
        },
        Some(m) => m,
    };
    assert(line@.skip(0) =~= line@);
    let (method_chars, after) = method;
    let uri = match next_word(line.as_slice(), after) {
        None => {
            return Err(crate::text::owned(MISSING_URI));
        },
        Some(u) => u,
    };
    let (uri_chars, _) = uri;
    let method_text = string_from_chars(method_chars.as_slice());
    let uri_text = string_from_chars(uri_chars.as_slice());
    let body_text = string_from_chars(body.as_slice());
    Ok(DevBridgeRequest::new(method_text.as_str(), uri_text.as_str(), body_text.as_str()))
}


// ---------------------------------------------------------------------------
// Headers
// ---------------------------------------------------------------------------

/// `\r\n\r\n` starts at byte `i`.
pub open spec fn blank_line_at_byte(b: Seq<u8>, i: int) -> bool {
    0 <= i && i + 4 <= b.len() && b[i] == 13 && b[i + 1] == 10 && b[i + 2] == 13 && b[i + 3] == 10
}

/// Where the headers of a buffered request end: the first `\r\n\r\n`, if any.
pub fn header_end(buffer: &[u8]) -> (end: Option<usize>)
    ensures
        match end {
            Some(i) => blank_line_at_byte(buffer@, i as int) && forall|k: int|
                0 <= k < i ==> !#[trigger] blank_line_at_byte(buffer@, k),
            None => forall|k: int| !#[trigger] blank_line_at_byte(buffer@, k),
        },
{
    let mut i: usize = 0;
    while buffer.len() >= 4 && i <= buffer.len() - 4
        invariant
            i <= buffer.len(),
            forall|k: int| 0 <= k < i ==> !#[trigger] blank_line_at_byte(buffer@, k),
        decreases buffer.len() - i,
    {
        if buffer[i] == 13 && buffer[i + 1] == 10 && buffer[i + 2] == 13 && buffer[i + 3] == 10 {
            return Some(i);
        }
        i = i + 1;
    }
    None
}

/// The character in ASCII lower case.
pub open spec fn ascii_lower(c: char) -> char {
    if 'A' <= c <= 'Z' {
        ((c as u32) + 32) as char
    } else {
        c
    }
}

/// `eq_ignore_ascii_case` against an ASCII text.
pub open spec fn ascii_eq_ignore_case(a: Seq<char>, b: Seq<char>) -> bool {
    a.len() == b.len() && forall|k: int| 0 <= k < a.len() ==> ascii_lower(#[trigger] a[k]) == ascii_lower(b[k])
}

/// How many characters at the end of `s` are white space.
pub open spec fn trail_count(s: Seq<char>) -> nat
    decreases s.len(),
{
    if s.len() == 0 {
        0
    } else if is_space(s.last()) {
        1 + trail_count(s.drop_last())
    } else {
        0
    }
}

/// `str::trim`: white space dropped at both ends.
pub open spec fn trimmed(s: Seq<char>) -> Seq<char> {
    let t = s.skip(lead_count(s, true) as int);
    t.take(t.len() - trail_count(t))
}

/// The value of a run of decimal digits.
pub open spec fn digits_value(d: Seq<char>) -> nat
    decreases d.len(),
{
    if d.len() == 0 {
        0
    } else {
        digits_value(d.drop_last()) * 10 + ((d.last() as u32) - 48) as nat
    }
}

pub open spec fn all_digits(d: Seq<char>) -> bool {
    forall|k: int| 0 <= k < d.len() ==> '0' <= #[trigger] d[k] <= '9'
}

/// `usize::from_str`: an optional `+`, then one or more decimal digits, within range.
pub open spec fn parse_usize(t: Seq<char>) -> Option<nat> {
    let d = if t.len() > 0 && t[0] == '+' {
        t.drop_first()
    } else {
        t
    };
    if d.len() == 0 || !all_digits(d) || digits_value(d) > usize::MAX {
        None
    } else {
        Some(digits_value(d))
    }
}

/// What a header line gives for the content length: its value when the name is
/// `content-length` in any case and the trimmed value is a number.
pub open spec fn content_length_of_line(line: Seq<char>) -> Option<nat> {
    match split_once(line, ':') {
        Some((name, value)) => if ascii_eq_ignore_case(name, "content-length"@) {
            parse_usize(trimmed(value))
        } else {
            None
        },
        None => None,
    }
}

/// The content length that the first usable `Content-Length` line gives, or 0.
pub open spec fn spec_content_length(s: Seq<char>) -> nat
    decreases s.len(),
{
    if s.len() == 0 {
        0
    } else {
        let i = index_of(s, '\n') as int;
        let line = if i < s.len() {
            strip_cr(s.take(i))
        } else {
            s
        };
        match content_length_of_line(line) {
            Some(v) => v,
            None => if i < s.len() {
                spec_content_length(s.skip(i + 1))
            } else {
                0
            },
        }
    }
}

proof fn lemma_trail_count(s: Seq<char>, i: int)
    requires
        0 <= i <= s.len(),
        forall|k: int| s.len() - i <= k < s.len() ==> is_space(#[trigger] s[k]),
        i == s.len() || !is_space(s[s.len() - i - 1]),
    ensures
        trail_count(s) == i,
    decreases i,
{
    if i > 0 {
        let t = s.drop_last();
        assert forall|k: int| t.len() - (i - 1) <= k < t.len() implies is_space(#[trigger] t[k]) by {
            assert(t[k] == s[k]);
        }
        if i - 1 < t.len() {
            assert(t[t.len() - (i - 1) - 1] == s[s.len() - i - 1]);
        }
        lemma_trail_count(t, i - 1);
    }
}

/// `str::trim` on characters.
pub(crate) fn trim_chars(s: &[char]) -> (t: Vec<char>)
    ensures
        t@ == trimmed(s@),
{
    let a = skip_class(s, 0, true);
    assert(s@.skip(0) =~= s@);
    let mut b = s.len();
    while b > a && char_is_space(s[b - 1])
        invariant
            a <= b <= s.len(),
            forall|k: int| b <= k < s.len() ==> is_space(#[trigger] s@[k]),
        decreases b,
    {
        b = b - 1;
    }
    let ghost u = s@.skip(a as int);
    proof {
        assert forall|k: int| u.len() - (s.len() - b) <= k < u.len() implies is_space(#[trigger] u[k]) by {
            assert(u[k] == s@[a + k]);
        }
        if b > a {
            assert(u[u.len() - (s.len() - b) - 1] == s@[b - 1]);
        }
        lemma_trail_count(u, (s.len() - b) as int);
    }
    let t = slice_chars(s, a, b);
    assert(t@ =~= u.take(u.len() - trail_count(u)));
    t
}

proof fn lemma_digits_prefix(d: Seq<char>, k: int)
    requires
        0 <= k <= d.len(),
        all_digits(d),
    ensures
        digits_value(d.take(k)) <= digits_value(d),
    decreases d.len() - k,
{
    if k < d.len() {
        let e = d.drop_last();
        assert(all_digits(e));
        lemma_digits_prefix(e, k);
        assert(e.take(k) =~= d.take(k));
    } else {
        assert(d.take(k) =~= d);
    }
}

/// `usize::from_str` on characters.
#[verifier::loop_isolation(false)]
fn parse_usize_chars(t: &[char]) -> (r: Option<usize>)
    ensures
        match r {
            Some(v) => parse_usize(t@) == Some(v as nat),
            None => parse_usize(t@) is None,
        },
{
    let start: usize = if t.len() > 0 && t[0] == '+' {
        1
    } else {
        0
    };
    let d = slice_chars(t, start, t.len());
    assert(start == 1 ==> d@ =~= t@.drop_first());
    assert(start == 0 ==> d@ =~= t@);
    let ghost sd = if t@.len() > 0 && t@[0] == '+' {
        t@.drop_first()
    } else {
        t@
    };
    assert(sd == d@);
    if d.len() == 0 {
        return None;
    }
    let mut i: usize = 0;
    while i < d.len()
        invariant
            sd == d@,
            i <= d.len(),
            forall|k: int| 0 <= k < i ==> '0' <= #[trigger] d@[k] <= '9',
        decreases d.len() - i,
    {
        if !('0' <= d[i] && d[i] <= '9') {
            assert(!all_digits(d@));
            return None;
        }
        i = i + 1;
    }
    assert(all_digits(d@));
    let mut v: u128 = 0;
    let mut j: usize = 0;
    while j < d.len()
        invariant
            sd == d@,
            j <= d.len(),
            all_digits(d@),
            v == digits_value(d@.take(j as int)),
            v <= usize::MAX,
        decreases d.len() - j,
    {
        let digit = ((d[j] as u32) - 48) as u128;
        assert(d@.take(j + 1).drop_last() =~= d@.take(j as int));
        let next = v * 10 + digit;
        assert(digits_value(d@.take(j + 1)) == next);
        if next > usize::MAX as u128 {
            proof {
                lemma_digits_prefix(d@, j + 1);
                assert(digits_value(sd) > usize::MAX);
            }
            return None;
        }
        v = next;
        j = j + 1;
    }
    assert(d@.take(j as int) =~= d@);
    Some(v as usize)
}

fn lower_char(c: char) -> (r: char)
    ensures
        r == ascii_lower(c),
{
    if 'A' <= c && c <= 'Z' {
        ((c as u32) + 32) as u8 as char
    } else {
        c
    }
}

/// Whether a header name is `content-length`, in any case.
fn is_content_length_name(name: &[char]) -> (r: bool)
    ensures
        r == ascii_eq_ignore_case(name@, "content-length"@),
{
    let target = chars_of("content-length");
    proof {
        reveal_strlit("content-length");
    }
    if name.len() != target.len() {
        return false;
    }
    let mut i: usize = 0;
    while i < name.len()
        invariant
            target@ == "content-length"@,
            name.len() == target.len(),
            i <= name.len(),
            forall|k: int| 0 <= k < i ==> ascii_lower(#[trigger] name@[k]) == ascii_lower(target@[k]),
        decreases name.len() - i,
    {
        if lower_char(name[i]) != lower_char(target[i]) {
            return false;
        }
        i = i + 1;
    }
    true
}

/// The content length that a request's headers declare: the first `Content-Length` line
/// (any case) whose trimmed value is a number; 0 when there is none.
pub fn content_length(headers: &str) -> (length: usize)
    ensures
        length == spec_content_length(headers@),
{
    let s = chars_of(headers);
    let mut from: usize = 0;
    assert(s@.skip(0) =~= s@);
    while from < s.len()
        invariant
            s@ == headers@,
            from <= s.len(),
            spec_content_length(headers@) == spec_content_length(s@.skip(from as int)),
        decreases s.len() - from,
    {
        let ghost rest = s@.skip(from as int);
        let nl = find_char_from(s.as_slice(), from, '\n');
        let mut end = nl;
        if nl < s.len() && nl > from && s[nl - 1] == '\r' {
            end = nl - 1;
        }
        let line = slice_chars(s.as_slice(), from, end);
        let ghost i = (nl - from) as int;
        assert(line@ == (if i < rest.len() {
            strip_cr(rest.take(i))
        } else {
            rest
        })) by {
            if i < rest.len() {
                assert(strip_cr(rest.take(i)) =~= line@);
            } else {
                assert(rest =~= line@);
            }
        }
        match split_once_chars(line.as_slice(), ':') {
            Some((name, value)) => {
                if is_content_length_name(name.as_slice()) {
                    let v = trim_chars(value.as_slice());
                    match parse_usize_chars(v.as_slice()) {
                        Some(n) => {
                            return n;
                        },
                        None => {},
                    }
                }
            },
            None => {},
        }
        if nl >= s.len() {
            return 0;
        }
        assert(rest.skip(i + 1) =~= s@.skip(nl + 1));
        from = nl + 1;
    }
    0
}

/// Finds the first `c` in `s[from..]`.
fn find_char_from(s: &[char], from: usize, c: char) -> (i: usize)
    requires
        from <= s.len(),
    ensures
        i == from + index_of(s@.skip(from as int), c),
        from <= i <= s.len(),
{
    let mut i: usize = from;
    while i < s.len()
        invariant
            from <= i <= s.len(),
            forall|k: int| from <= k < i ==> s@[k] != c,
        decreases s.len() - i,
    {
        if s[i] == c {
            proof {
                lemma_index_of(s@.skip(from as int), c, i - from);
            }
            return i;
        }
        i = i + 1;
    }
    proof {
        lemma_index_of(s@.skip(from as int), c, i - from);
    }
    i
}


// ---------------------------------------------------------------------------
// Responses
// ---------------------------------------------------------------------------

pub const TEXT_PLAIN: &'static str = "text/plain; charset=utf-8";
pub const APPLICATION_JSON: &'static str = "application/json; charset=utf-8";

/// A response of the development bridge.
#[derive(Debug)]
pub struct HttpResponse {
    pub status_code: u16,
    pub content_type: &'static str,
    pub body: String,
}

impl HttpResponse {
    /// A plain-text response without a body.
    pub fn empty(status_code: u16) -> (response: Self)
        ensures
            response.status_code == status_code,
            response.content_type@ == TEXT_PLAIN@,
            response.body@ == Seq::<char>::empty(),
    {
        HttpResponse { status_code, content_type: TEXT_PLAIN, body: String::new() }
    }

    /// A plain-text response.
    pub fn text(status_code: u16, body: &str) -> (response: Self)
        ensures
            response.status_code == status_code,
            response.content_type@ == TEXT_PLAIN@,
            response.body@ == body@,
    {
        HttpResponse { status_code, content_type: TEXT_PLAIN, body: crate::text::owned(body) }
    }

    /// A JSON response carrying already serialized text.
    pub fn json(body: String) -> (response: Self)
        ensures
            response.status_code == 200,
            response.content_type@ == APPLICATION_JSON@,
            response.body@ == body@,
    {
        HttpResponse { status_code: 200, content_type: APPLICATION_JSON, body }
    }

    /// The status line and headers that go before the body.
    pub fn head(&self) -> (head: String)
        ensures
            head@ == spec_response_head(
                self.status_code,
                self.content_type@,
                encode_utf8(self.body@).len() as usize,
            ),
    {
        let mut out: Vec<char> = Vec::new();
        push_str(&mut out, "HTTP/1.1 ");
        push_dec(&mut out, self.status_code as u64);
        push_str(&mut out, " ");
        push_str(&mut out, reason_phrase(self.status_code));
        push_str(&mut out, "\r\nContent-Type: ");
        push_str(&mut out, self.content_type);
        push_str(&mut out, "\r\nContent-Length: ");
        let n = self.body.as_str().len();
        push_dec(&mut out, n as u64);
        push_str(
            &mut out,
            "\r\nAccess-Control-Allow-Origin: *\r\nAccess-Control-Allow-Methods: GET, POST, OPTIONS\r\nAccess-Control-Allow-Headers: Content-Type\r\nConnection: close\r\n\r\n",
        );
        assert(out@ =~= spec_response_head(
            self.status_code,
            self.content_type@,
            encode_utf8(self.body@).len() as usize,
        ));
        string_from_chars(out.as_slice())
    }
}

/// The reason phrase of a status code.
pub open spec fn spec_reason_phrase(status: u16) -> Seq<char> {
    if status == 200 {
        "OK"@
    } else if status == 204 {
        "No Content"@
    } else if status == 404 {
        "Not Found"@
    } else {
        "Internal Server Error"@
    }
}

/// The reason phrase of a status code; other codes than 200, 204 and 404 are errors.
pub fn reason_phrase(status: u16) -> (phrase: &'static str)
    ensures
        phrase@ == spec_reason_phrase(status),
{
    if status == 200 {
        "OK"
    } else if status == 204 {
        "No Content"
    } else if status == 404 {
        "Not Found"
    } else {
        "Internal Server Error"
    }
}

/// The status line and headers of a response with `length` bytes of body.
pub open spec fn spec_response_head(status: u16, content_type: Seq<char>, length: usize) -> Seq<char> {
    "HTTP/1.1 "@ + dec(status as nat) + " "@ + spec_reason_phrase(status) + "\r\nContent-Type: "@
        + content_type + "\r\nContent-Length: "@ + dec(length as nat)
        + "\r\nAccess-Control-Allow-Origin: *\r\nAccess-Control-Allow-Methods: GET, POST, OPTIONS\r\nAccess-Control-Allow-Headers: Content-Type\r\nConnection: close\r\n\r\n"@
}

// ---------------------------------------------------------------------------
// Routing
// ---------------------------------------------------------------------------

/// What a request asks the bridge to do.
#[derive(Debug, Clone, Copy, PartialEq, Eq, Structural)]
pub enum Route {
    Preflight,
    GetConfig,
    SaveConfig,
    GetStatus,
    StartRecording,
    StopRecording,
    RecordOnce,
    TodayEntries,
    TodayThumbnail,
    WriteSummary,
    SummaryBlocks,
    SummarizePreviousHalfHour,
    NotFound,
}

/// The route of a method and path: any `OPTIONS` request is a preflight; the API paths
/// answer their own method only.
pub open spec fn spec_route(method: Seq<char>, path: Seq<char>) -> Route {
    if method == "OPTIONS"@ {
        Route::Preflight
    } else if method == "GET"@ && path == "/api/config"@ {
        Route::GetConfig
    } else if method == "POST"@ && path == "/api/config"@ {
        Route::SaveConfig
    } else if method == "GET"@ && path == "/api/status"@ {
        Route::GetStatus
    } else if method == "POST"@ && path == "/api/start-recording"@ {
        Route::StartRecording
    } else if method == "POST"@ && path == "/api/stop-recording"@ {
        Route::StopRecording
    } else if method == "POST"@ && path == "/api/record-once"@ {
        Route::RecordOnce
    } else if method == "GET"@ && path == "/api/today-entries"@ {
        Route::TodayEntries
    } else if method == "GET"@ && path == "/api/today-thumbnail"@ {
        Route::TodayThumbnail
    } else if method == "POST"@ && path == "/api/summary"@ {
        Route::WriteSummary
    } else if method == "GET"@ && path == "/api/summary-blocks"@ {
        Route::SummaryBlocks
    } else if method == "POST"@ && path == "/api/summarize-previous-half-hour"@ {
        Route::SummarizePreviousHalfHour
    } else {
        Route::NotFound
    }
}

/// Which handler a request goes to.
pub fn route(request: &DevBridgeRequest) -> (r: Route)
    ensures
        r == spec_route(request.method@, request.path@),
{
    let m = request.method.as_str();
    let p = request.path.as_str();
    if crate::text::str_eq(m, "OPTIONS") {
        Route::Preflight
    } else if crate::text::str_eq(m, "GET") && crate::text::str_eq(p, "/api/config") {
        Route::GetConfig
    } else if crate::text::str_eq(m, "POST") && crate::text::str_eq(p, "/api/config") {
        Route::SaveConfig
    } else if crate::text::str_eq(m, "GET") && crate::text::str_eq(p, "/api/status") {
        Route::GetStatus
    } else if crate::text::str_eq(m, "POST") && crate::text::str_eq(p, "/api/start-recording") {
        Route::StartRecording
    } else if crate::text::str_eq(m, "POST") && crate::text::str_eq(p, "/api/stop-recording") {
        Route::StopRecording
    } else if crate::text::str_eq(m, "POST") && crate::text::str_eq(p, "/api/record-once") {
        Route::RecordOnce
    } else if crate::text::str_eq(m, "GET") && crate::text::str_eq(p, "/api/today-entries") {
        Route::TodayEntries
    } else if crate::text::str_eq(m, "GET") && crate::text::str_eq(p, "/api/today-thumbnail") {
        Route::TodayThumbnail
    } else if crate::text::str_eq(m, "POST") && crate::text::str_eq(p, "/api/summary") {
        Route::WriteSummary
    } else if crate::text::str_eq(m, "GET") && crate::text::str_eq(p, "/api/summary-blocks") {
        Route::SummaryBlocks
    } else if crate::text::str_eq(m, "POST") && crate::text::str_eq(
        p,
        "/api/summarize-previous-half-hour",
    ) {
        Route::SummarizePreviousHalfHour
    } else {
        Route::NotFound
    }
}

// ---------------------------------------------------------------------------
// Thumbnails as data URLs
// ---------------------------------------------------------------------------

/// The character of a six-bit value in the standard base64 alphabet: `A`-`Z`, `a`-`z`,
/// `0`-`9`, `+`, `/`.
pub open spec fn base64_char(v: int) -> char {
    if v < 26 {
        (65 + v) as char
    } else if v < 52 {
        (97 + v - 26) as char
    } else if v < 62 {
        (48 + v - 52) as char
    } else if v == 62 {
        '+'
    } else {
        '/'
    }
}

/// The standard base64 encoding of some bytes: each group of three bytes gives four
/// characters of six bits each, and a last group of one or two bytes is padded with `=`.
pub open spec fn base64_standard(bytes: Seq<u8>) -> Seq<char>
    decreases bytes.len(),
{
    if bytes.len() == 0 {
        Seq::empty()
    } else if bytes.len() == 1 {
        let a = bytes[0] as int;
        seq![base64_char(a / 4), base64_char((a % 4) * 16), '=', '=']
    } else if bytes.len() == 2 {
        let a = bytes[0] as int;
        let b = bytes[1] as int;
        seq![base64_char(a / 4), base64_char((a % 4) * 16 + b / 16), base64_char((b % 16) * 4), '=']
    } else {
        let a = bytes[0] as int;
        let b = bytes[1] as int;
        let c = bytes[2] as int;
        seq![
            base64_char(a / 4),
            base64_char((a % 4) * 16 + b / 16),
            base64_char((b % 16) * 4 + c / 64),
            base64_char(c % 64),
        ] + base64_standard(bytes.skip(3))
    }
}

/// `base64::engine::general_purpose::STANDARD.encode`: the standard alphabet, with `=`
/// padding, as `base64_standard` states it. The call fails when the encoded length
/// overflows, which the bound on the input rules out.
#[verifier::external_body]
fn encode_base64(bytes: &[u8]) -> (encoded: String)
    requires
        bytes.len() <= usize::MAX / 2,
    ensures
        encoded@ == base64_standard(bytes@),
{
    base64::engine::general_purpose::STANDARD.encode(bytes)
}

/// Put before the encoded image.
pub const JPEG_DATA_URL_PREFIX: &'static str = "data:image/jpeg;base64,";

/// A JPEG data URL around already encoded text.
pub fn data_url_from_base64(encoded: &str) -> (url: String)
    ensures
        url@ == JPEG_DATA_URL_PREFIX@ + encoded@,
{
    let mut out: Vec<char> = Vec::new();
    push_str(&mut out, JPEG_DATA_URL_PREFIX);
    push_str(&mut out, encoded);
    string_from_chars(out.as_slice())
}

/// A JPEG thumbnail as a data URL.
pub fn thumbnail_data_url(bytes: &[u8]) -> (url: String)
    requires
        bytes.len() <= usize::MAX / 2,
    ensures
        url@ == JPEG_DATA_URL_PREFIX@ + base64_standard(bytes@),
{
    let encoded = encode_base64(bytes);
    data_url_from_base64(encoded.as_str())
}

} // verus!
