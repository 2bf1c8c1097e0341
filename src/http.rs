//! The minimal HTTP/1.1 subset of the command endpoint, on bytes: request
//! framing and parsing, routing, and response framing.
use vstd::prelude::*;
use vstd::string::StringSliceAdditionalSpecFns;

verus! {

/// The largest request head or body the endpoint takes, in bytes.
pub const GRAPH_COMMAND_MAX_REQUEST_SIZE: usize = 1048576;

pub open spec fn is_terminator_at(b: Seq<u8>, i: int) -> bool {
    0 <= i && i + 4 <= b.len() && b[i] == 13u8 && b[i + 1] == 10u8 && b[i + 2] == 13u8 && b[i + 3] == 10u8
}

/// Where the first blank line (`\r\n\r\n`) starts, searching from `i`.
pub open spec fn header_end_from(b: Seq<u8>, i: int) -> Option<int>
    decreases b.len() - i,
{
    if i < 0 || i + 4 > b.len() {
        None
    } else if is_terminator_at(b, i) {
        Some(i)
    } else {
        header_end_from(b, i + 1)
    }
}

/// Finds the end of the request head.
pub fn find_header_end(buf: &Vec<u8>) -> (r: Option<usize>)
    ensures
        match r {
            Some(i) => header_end_from(buf@, 0) == Some(i as int) && i + 4 <= buf.len(),
            None => header_end_from(buf@, 0) is None,
        },
{
    let n = buf.len();
    let mut i: usize = 0;
    while n >= 4 && i <= n - 4
        invariant
            n == buf@.len(),
            header_end_from(buf@, 0) == header_end_from(buf@, i as int),
        decreases n - i,
    {
        if buf[i] == 13 && buf[i + 1] == 10 && buf[i + 2] == 13 && buf[i + 3] == 10 {
            return Some(i);
        }
        i = i + 1;
    }
    None
}

pub open spec fn is_space(c: u8) -> bool {
    c == 32u8 || c == 9u8 || c == 10u8 || c == 13u8 || c == 11u8 || c == 12u8
}

/// The first position from `i` before `stop` that is not white space, or
/// `stop`.
pub open spec fn skip_space(b: Seq<u8>, stop: int, i: int) -> int
    decreases stop - i,
{
    if i < 0 || i >= stop || i >= b.len() {
        i
    } else if is_space(b[i]) {
        skip_space(b, stop, i + 1)
    } else {
        i
    }
}

/// The first white space from `i` on before `stop`, or `stop`.
pub open spec fn token_end(b: Seq<u8>, stop: int, i: int) -> int
    decreases stop - i,
{
    if i < 0 || i >= stop || i >= b.len() {
        i
    } else if is_space(b[i]) {
        i
    } else {
        token_end(b, stop, i + 1)
    }
}

/// The first byte `c` from `i` on before `stop`, or `stop`.
pub open spec fn find_from(b: Seq<u8>, stop: int, i: int, c: u8) -> int
    decreases stop - i,
{
    if i < 0 || i >= stop || i >= b.len() {
        i
    } else if b[i] == c {
        i
    } else {
        find_from(b, stop, i + 1, c)
    }
}

fn skip_space_at(b: &Vec<u8>, start: usize, stop: usize) -> (r: usize)
    requires
        start <= stop <= b.len(),
    ensures
        r as int == skip_space(b@, stop as int, start as int),
        start <= r <= stop,
{
    let mut i = start;
    while i < stop && (b[i] == 32 || b[i] == 9 || b[i] == 10 || b[i] == 13 || b[i] == 11 || b[i] == 12)
        invariant
            start <= i <= stop,
            stop <= b.len(),
            skip_space(b@, stop as int, start as int) == skip_space(b@, stop as int, i as int),
        decreases stop - i,
    {
        i = i + 1;
    }
    i
}

fn token_end_at(b: &Vec<u8>, start: usize, stop: usize) -> (r: usize)
    requires
        start <= stop <= b.len(),
    ensures
        r as int == token_end(b@, stop as int, start as int),
        start <= r <= stop,
{
    let mut i = start;
    while i < stop && !(b[i] == 32 || b[i] == 9 || b[i] == 10 || b[i] == 13 || b[i] == 11 || b[i] == 12)
        invariant
            start <= i <= stop,
            stop <= b.len(),
            token_end(b@, stop as int, start as int) == token_end(b@, stop as int, i as int),
        decreases stop - i,
    {
        i = i + 1;
    }
    i
}

fn find_byte(b: &Vec<u8>, start: usize, stop: usize, c: u8) -> (r: usize)
    requires
        start <= stop <= b.len(),
    ensures
        r as int == find_from(b@, stop as int, start as int, c),
        start <= r <= stop,
{
    let mut i = start;
    while i < stop && b[i] != c
        invariant
            start <= i <= stop,
            stop <= b.len(),
            find_from(b@, stop as int, start as int, c) == find_from(b@, stop as int, i as int, c),
        decreases stop - i,
    {
        i = i + 1;
    }
    i
}

/// The value of a run of decimal digits.
pub open spec fn digits_value(s: Seq<u8>) -> int
    decreases s.len(),
{
    if s.len() == 0 {
        0
    } else {
        10 * digits_value(s.drop_last()) + (s.last() - 48u8) as int
    }
}

pub open spec fn all_digits(s: Seq<u8>) -> bool {
    forall|k: int| 0 <= k < s.len() ==> 48u8 <= #[trigger] s[k] <= 57u8
}

pub open spec fn lower(c: u8) -> u8 {
    if 65u8 <= c <= 90u8 { (c + 32) as u8 } else { c }
}

/// `content-length`, in bytes.
pub open spec fn content_length_name() -> Seq<u8> {
    seq![99u8, 111u8, 110u8, 116u8, 101u8, 110u8, 116u8, 45u8, 108u8, 101u8, 110u8, 103u8, 116u8, 104u8]
}

/// The bytes from `s` to `e` with white space cut off both ends.
pub open spec fn trimmed_range(b: Seq<u8>, s: int, e: int) -> Seq<u8> {
    let a = skip_space(b, e, s);
    let z = last_non_space(b, s, e);
    if a >= z { Seq::empty() } else { b.subrange(a, z) }
}

/// One past the last byte before `e` and from `s` on that is not white
/// space, or `s`.
pub open spec fn last_non_space(b: Seq<u8>, s: int, e: int) -> int
    decreases e - s,
{
    if e <= s || e > b.len() || s < 0 {
        s
    } else if is_space(b[e - 1]) {
        last_non_space(b, s, e - 1)
    } else {
        e
    }
}

/// The content length a header line gives, if it is one that parses: its
/// name, trimmed, is `content-length` in any case, and its value, trimmed, is
/// a decimal number that fits in a `usize`.
pub open spec fn line_content_length(b: Seq<u8>, s: int, e: int) -> Option<int> {
    let c = find_from(b, e, s, 58u8);
    if c >= e {
        None
    } else {
        let name = trimmed_range(b, s, c);
        let value = trimmed_range(b, c + 1, e);
        if name.len() == 14 && (forall|k: int| 0 <= k < 14 ==> lower(#[trigger] name[k]) == content_length_name()[k])
            && value.len() > 0 && all_digits(value) && digits_value(value) <= usize::MAX {
            Some(digits_value(value))
        } else {
            None
        }
    }
}

/// The content length of the first header line from `i` on, before `h`,
/// that gives one.
pub open spec fn content_length_from(b: Seq<u8>, h: int, i: int) -> Option<int>
    decreases h - i,
{
    if i < 0 || i >= h {
        None
    } else {
        let e = find_from(b, h, i, 10u8);
        if e < i {
            None
        } else {
            match line_content_length(b, i, e) {
                Some(n) => Some(n),
                None => if e >= h { None } else { content_length_from(b, h, e + 1) },
            }
        }
    }
}

fn trim_bounds(b: &Vec<u8>, s: usize, e: usize) -> (r: (usize, usize))
    requires
        s <= e <= b.len(),
    ensures
        s <= r.0 <= e,
        s <= r.1 <= e,
        r.0 < r.1 ==> b@.subrange(r.0 as int, r.1 as int) == trimmed_range(b@, s as int, e as int),
        r.0 >= r.1 ==> trimmed_range(b@, s as int, e as int).len() == 0,
{
    let a = skip_space_at(b, s, e);
    let mut z = e;
    while z > s && (b[z - 1] == 32 || b[z - 1] == 9 || b[z - 1] == 10 || b[z - 1] == 13 || b[z - 1] == 11 || b[z - 1] == 12)
        invariant
            s <= z <= e,
            e <= b.len(),
            last_non_space(b@, s as int, e as int) == last_non_space(b@, s as int, z as int),
        decreases z - s,
    {
        z = z - 1;
    }
    (a, z)
}

proof fn lemma_digits_grow(s: Seq<u8>, i: int)
    requires
        0 <= i <= s.len(),
        all_digits(s),
    ensures
        digits_value(s.take(i)) <= digits_value(s),
        0 <= digits_value(s.take(i)),
    decreases s.len() - i,
{
    if i < s.len() {
        lemma_digits_grow(s, i + 1);
        assert(s.take(i + 1).drop_last() =~= s.take(i));
        assert(48u8 <= s[i]);
    } else {
        assert(s.take(i) =~= s);
        lemma_digits_nonneg(s);
    }
}

proof fn lemma_digits_nonneg(s: Seq<u8>)
    requires
        all_digits(s),
    ensures
        0 <= digits_value(s),
    decreases s.len(),
{
    if s.len() > 0 {
        assert(all_digits(s.drop_last()));
        lemma_digits_nonneg(s.drop_last());
        assert(48u8 <= s[s.len() - 1]);
    }
}

/// The decimal number between `a` and `z`, if it is one and fits.
fn parse_decimal(b: &Vec<u8>, a: usize, z: usize) -> (r: Option<usize>)
    requires
        a < z <= b.len(),
    ensures
        ({
            let v = b@.subrange(a as int, z as int);
            if all_digits(v) && digits_value(v) <= usize::MAX {
                r == Some(digits_value(v) as usize)
            } else {
                r is None
            }
        }),
{
    let ghost v = b@.subrange(a as int, z as int);
    let mut n: usize = 0;
    let mut i = a;
    while i < z
        invariant
            a <= i <= z,
            z <= b.len(),
            v == b@.subrange(a as int, z as int),
            all_digits(v.take(i - a)),
            n as int == digits_value(v.take(i - a)),
        decreases z - i,
    {
        let c = b[i];
        assert(v.take(i - a + 1).drop_last() =~= v.take(i - a));
        if c < 48 || c > 57 {
            proof {
                assert(v[i - a] == c);
            }
            return None;
        }
        let d = (c - 48) as usize;
        if n > (usize::MAX - d) / 10 {
            proof {
                assert forall|k: int| 0 <= k < (i - a + 1) implies 48u8 <= #[trigger] v.take(i - a + 1)[k] <= 57u8 by {
                    if k < i - a {
                        assert(v.take(i - a + 1)[k] == v.take(i - a)[k]);
                    }
                }
                assert(digits_value(v.take(i - a + 1)) == 10 * n + d);
                assert(10 * n + d > usize::MAX) by (nonlinear_arith)
                    requires
                        n > (usize::MAX - d) / 10,
                        0 <= d <= 9,
                ;
                if all_digits(v) {
                    lemma_digits_grow(v, i - a + 1);
                }
            }
            return None;
        }
        proof {
            assert(10 * n + d <= usize::MAX) by (nonlinear_arith)
                requires
                    n <= (usize::MAX - d) / 10,
                    0 <= d <= 9,
            ;
        }
        n = n * 10 + d;
        proof {
            assert forall|k: int| 0 <= k < (i - a + 1) implies 48u8 <= #[trigger] v.take(i - a + 1)[k] <= 57u8 by {
                if k < i - a {
                    assert(v.take(i - a + 1)[k] == v.take(i - a)[k]);
                }
            }
        }
        i = i + 1;
    }
    assert(v.take(z - a) =~= v);
    Some(n)
}

/// The content length that the header line between `s` and `e` gives.
fn line_length(b: &Vec<u8>, s: usize, e: usize) -> (r: Option<usize>)
    requires
        s <= e <= b.len(),
    ensures
        match line_content_length(b@, s as int, e as int) {
            Some(n) => r == Some(n as usize),
            None => r is None,
        },
{
    let c = find_byte(b, s, e, 58u8);
    if c >= e {
        return None;
    }
    let (na, nz) = trim_bounds(b, s, c);
    let (va, vz) = trim_bounds(b, c + 1, e);
    let ghost name = trimmed_range(b@, s as int, c as int);
    let ghost value = trimmed_range(b@, c as int + 1, e as int);
    if na >= nz || nz - na != 14 {
        return None;
    }
    let target: Vec<u8> = vec![99u8, 111u8, 110u8, 116u8, 101u8, 110u8, 116u8, 45u8, 108u8, 101u8, 110u8, 103u8, 116u8, 104u8];
    assert(target@ =~= content_length_name());
    let mut k: usize = 0;
    while k < 14
        invariant
            k <= 14,
            na + 14 == nz,
            nz <= b.len(),
            target@ == content_length_name(),
            name == b@.subrange(na as int, nz as int),
            s <= c < e <= b.len(),
            c as int == find_from(b@, e as int, s as int, 58u8),
            name == trimmed_range(b@, s as int, c as int),
            value == trimmed_range(b@, c as int + 1, e as int),
            va < vz ==> b@.subrange(va as int, vz as int) == value,
            va >= vz ==> value.len() == 0,
            forall|j: int| 0 <= j < k ==> lower(#[trigger] name[j]) == content_length_name()[j],
        decreases 14 - k,
    {
        let ch = b[na + k];
        let low = if 65 <= ch && ch <= 90 { ch + 32 } else { ch };
        assert(name[k as int] == ch);
        assert(low == lower(ch));
        if low != target[k] {
            assert(lower(name[k as int]) != content_length_name()[k as int]);
            return None;
        }
        k = k + 1;
    }
    if va >= vz {
        return None;
    }
    parse_decimal(b, va, vz)
}

/// The content length the head's header lines give, searching from the
/// line that starts at `start`.
fn content_length(b: &Vec<u8>, start: usize, h: usize) -> (r: Option<usize>)
    requires
        start <= h <= b.len(),
    ensures
        match content_length_from(b@, h as int, start as int) {
            Some(n) => r == Some(n as usize),
            None => r is None,
        },
{
    let mut i = start;
    while i < h
        invariant
            start <= i <= h,
            h <= b.len(),
            content_length_from(b@, h as int, start as int) == content_length_from(b@, h as int, i as int),
        decreases h - i,
    {
        let e = find_byte(b, i, h, 10u8);
        match line_length(b, i, e) {
            Some(n) => {
                return Some(n);
            },
            None => {},
        }
        if e >= h {
            return None;
        }
        i = e + 1;
    }
    None
}

pub open spec fn is_cont(c: u8) -> bool {
    0x80u8 <= c <= 0xBFu8
}

/// Whether the bytes from `i` to `h` are well-formed UTF-8, as
/// `std::str::from_utf8` accepts it: no overlong forms, no surrogates,
/// nothing above U+10FFFF.
pub open spec fn utf8_from(b: Seq<u8>, h: int, i: int) -> bool
    decreases h - i,
{
    if i < 0 || h > b.len() || i > h {
        false
    } else if i == h {
        true
    } else {
        let c = b[i];
        let ok1 = i + 1 < h;
        let ok2 = i + 2 < h;
        let ok3 = i + 3 < h;
        if c < 0x80u8 {
            utf8_from(b, h, i + 1)
        } else if 0xC2u8 <= c <= 0xDFu8 {
            ok1 && is_cont(b[i + 1]) && utf8_from(b, h, i + 2)
        } else if 0xE0u8 <= c <= 0xEFu8 {
            let lo: u8 = if c == 0xE0u8 { 0xA0u8 } else { 0x80u8 };
            let hi: u8 = if c == 0xEDu8 { 0x9Fu8 } else { 0xBFu8 };
            ok2 && lo <= b[i + 1] <= hi && is_cont(b[i + 2]) && utf8_from(b, h, i + 3)
        } else if 0xF0u8 <= c <= 0xF4u8 {
            let lo: u8 = if c == 0xF0u8 { 0x90u8 } else { 0x80u8 };
            let hi: u8 = if c == 0xF4u8 { 0x8Fu8 } else { 0xBFu8 };
            ok3 && lo <= b[i + 1] <= hi && is_cont(b[i + 2]) && is_cont(b[i + 3]) && utf8_from(b, h, i + 4)
        } else {
            false
        }
    }
}

proof fn lemma_ascii_is_utf8(b: Seq<u8>, h: int, i: int)
    requires
        0 <= i <= h <= b.len(),
        forall|k: int| i <= k < h ==> b[k] < 128u8,
    ensures
        utf8_from(b, h, i),
    decreases h - i,
{
    if i < h {
        lemma_ascii_is_utf8(b, h, i + 1);
    }
}

/// Whether the first `h` bytes are well-formed UTF-8.
fn head_is_utf8(b: &Vec<u8>, h: usize) -> (r: bool)
    requires
        h <= b.len(),
    ensures
        r == utf8_from(b@, h as int, 0),
        (forall|i: int| 0 <= i < h ==> b@[i] < 128u8) ==> r,
{
    proof {
        if forall|i: int| 0 <= i < h ==> b@[i] < 128u8 {
            lemma_ascii_is_utf8(b@, h as int, 0);
        }
    }
    let mut i: usize = 0;
    while i < h
        invariant
            i <= h <= b.len(),
            utf8_from(b@, h as int, 0) == utf8_from(b@, h as int, i as int),
        decreases h - i,
    {
        let c = b[i];
        if c < 0x80 {
            i = i + 1;
        } else if 0xC2 <= c && c <= 0xDF {
            if !(h - i > 1 && 0x80 <= b[i + 1] && b[i + 1] <= 0xBF) {
                return false;
            }
            i = i + 2;
        } else if 0xE0 <= c && c <= 0xEF {
            let lo: u8 = if c == 0xE0 { 0xA0 } else { 0x80 };
            let hi: u8 = if c == 0xED { 0x9F } else { 0xBF };
            if !(h - i > 2 && lo <= b[i + 1] && b[i + 1] <= hi && 0x80 <= b[i + 2] && b[i + 2] <= 0xBF) {
                return false;
            }
            i = i + 3;
        } else if 0xF0 <= c && c <= 0xF4 {
            let lo: u8 = if c == 0xF0 { 0x90 } else { 0x80 };
            let hi: u8 = if c == 0xF4 { 0x8F } else { 0xBF };
            if !(h - i > 3 && lo <= b[i + 1] && b[i + 1] <= hi && 0x80 <= b[i + 2] && b[i + 2] <= 0xBF && 0x80 <= b[i + 3]
                && b[i + 3] <= 0xBF) {
                return false;
            }
            i = i + 4;
        } else {
            return false;
        }
    }
    true
}

/// The method, path and body of a request.
#[derive(Debug, Clone)]
pub struct HttpRequest {
    pub method: Vec<u8>,
    pub path: Vec<u8>,
    pub body: Vec<u8>,
    /// The length the head announces; `body` is shorter while it is still
    /// being read.
    pub content_length: usize,
}

/// How a request reads, from its bytes: the head ends at the first blank
/// line and must be UTF-8; its first line holds the method and the path as
/// its first two words; a `Content-Length` header, if any parses, gives the
/// body's length, at most the size limit; the body is what follows the head,
/// cut to that length.
pub open spec fn request_spec(b: Seq<u8>) -> Result<(Seq<u8>, Seq<u8>, Seq<u8>, int), Seq<char>> {
    match header_end_from(b, 0) {
        None => Err("Malformed HTTP request: missing header terminator"@),
        Some(h) => if !utf8_from(b, h, 0) {
            Err("Malformed HTTP request: invalid UTF-8 headers"@)
        } else if h == 0 {
            Err("Malformed HTTP request: missing request line"@)
        } else {
            let le = find_from(b, h, 0, 10u8);
            let ms = skip_space(b, le, 0);
            let me = token_end(b, le, ms);
            let ps = skip_space(b, le, me);
            let pe = token_end(b, le, ps);
            let cl = match content_length_from(b, h, le + 1) {
                Some(n) => n,
                None => 0,
            };
            if ms >= le {
                Err("Malformed HTTP request: missing method"@)
            } else if ps >= le {
                Err("Malformed HTTP request: missing path"@)
            } else if cl > GRAPH_COMMAND_MAX_REQUEST_SIZE {
                Err("HTTP request body is too large"@)
            } else {
                let body_end = if h + 4 + cl <= b.len() { h + 4 + cl } else { b.len() as int };
                Ok((b.subrange(ms, me), b.subrange(ps, pe), b.subrange(h + 4, body_end), cl))
            }
        },
    }
}

fn copy_range(b: &Vec<u8>, from: usize, to: usize) -> (r: Vec<u8>)
    requires
        from <= to <= b.len(),
    ensures
        r@ == b@.subrange(from as int, to as int),
{
    let mut r: Vec<u8> = Vec::new();
    let mut i = from;
    while i < to
        invariant
            from <= i <= to <= b.len(),
            r@ == b@.subrange(from as int, i as int),
        decreases to - i,
    {
        r.push(b[i]);
        assert(r@ =~= b@.subrange(from as int, i as int + 1));
        i = i + 1;
    }
    r
}

proof fn lemma_content_length_fits(b: Seq<u8>, h: int, i: int)
    ensures
        content_length_from(b, h, i) matches Some(n) ==> 0 <= n <= usize::MAX,
    decreases h - i,
{
    if 0 <= i < h {
        let e = find_from(b, h, i, 10u8);
        if e >= i {
            match line_content_length(b, i, e) {
                Some(n) => {
                    let c = find_from(b, e, i, 58u8);
                    lemma_digits_nonneg(trimmed_range(b, c + 1, e));
                },
                None => {
                    if e < h {
                        lemma_content_length_fits(b, h, e + 1);
                    }
                },
            }
        }
    }
}

/// Parses a whole request: head and (as much as was read of) its body.
pub fn parse_http_request(buffer: &Vec<u8>) -> (r: Result<HttpRequest, String>)
    ensures
        match request_spec(buffer@) {
            Ok((m, p, body, cl)) => r is Ok && r->Ok_0.method@ == m && r->Ok_0.path@ == p && r->Ok_0.body@ == body
                && r->Ok_0.content_length == cl,
            Err(e) => r is Err && r->Err_0@ == e,
        },
{
    let h = match find_header_end(buffer) {
        Some(h) => h,
        None => {
            return Err(String::from_str("Malformed HTTP request: missing header terminator"));
        },
    };
    if !head_is_utf8(buffer, h) {
        return Err(String::from_str("Malformed HTTP request: invalid UTF-8 headers"));
    }
    if h == 0 {
        return Err(String::from_str("Malformed HTTP request: missing request line"));
    }
    let le = find_byte(buffer, 0, h, 10u8);
    let ms = skip_space_at(buffer, 0, le);
    let me = token_end_at(buffer, ms, le);
    let ps = skip_space_at(buffer, me, le);
    let pe = token_end_at(buffer, ps, le);
    let from = if le < h { le + 1 } else { h };
    let cl = match content_length(buffer, from, h) {
        Some(n) => n,
        None => 0,
    };
    proof {
        if le >= h {
            assert(content_length_from(buffer@, h as int, le as int + 1) is None);
        }
        lemma_content_length_fits(buffer@, h as int, le as int + 1);
        lemma_content_length_fits(buffer@, h as int, from as int);
    }
    if ms >= le {
        return Err(String::from_str("Malformed HTTP request: missing method"));
    }
    if ps >= le {
        return Err(String::from_str("Malformed HTTP request: missing path"));
    }
    if cl > GRAPH_COMMAND_MAX_REQUEST_SIZE {
        return Err(String::from_str("HTTP request body is too large"));
    }
    let start = h + 4;
    let end = if cl <= buffer.len() - start { start + cl } else { buffer.len() };
    Ok(HttpRequest {
        method: copy_range(buffer, ms, me),
        path: copy_range(buffer, ps, pe),
        body: copy_range(buffer, start, end),
        content_length: cl,
    })
}

/// The decimal digits of `n`.
pub open spec fn decimal_bytes(n: nat) -> Seq<u8>
    decreases n,
{
    if n < 10 {
        seq![(48 + n) as u8]
    } else {
        decimal_bytes(n / 10).push((48 + n % 10) as u8)
    }
}

fn push_decimal(v: &mut Vec<u8>, n: usize)
    ensures
        final(v)@ == old(v)@ + decimal_bytes(n as nat),
    decreases n,
{
    if n >= 10 {
        push_decimal(v, n / 10);
    }
    v.push((48 + n % 10) as u8);
    proof {
        if n < 10 {
            assert(v@ =~= old(v)@ + decimal_bytes(n as nat));
        } else {
            assert(v@ =~= old(v)@ + decimal_bytes(n as nat));
        }
    }
}

fn push_bytes(v: &mut Vec<u8>, s: &[u8])
    ensures
        final(v)@ == old(v)@ + s@,
{
    let mut i: usize = 0;
    while i < s.len()
        invariant
            i <= s@.len(),
            v@ == old(v)@ + s@.subrange(0, i as int),
        decreases s@.len() - i,
    {
        v.push(s[i]);
        assert(v@ =~= old(v)@ + s@.subrange(0, i as int + 1));
        i = i + 1;
    }
    assert(s@.subrange(0, s@.len() as int) =~= s@);
}

/// The bytes of a response: status line, content type, length, a closed
/// connection, a blank line, and the body.
pub fn build_http_response(status: &str, content_type: &str, body: &Vec<u8>) -> (r: Vec<u8>)
    ensures
        r@ == "HTTP/1.1 ".spec_bytes() + status.spec_bytes() + "\r\nContent-Type: ".spec_bytes() + content_type.spec_bytes()
            + "\r\nContent-Length: ".spec_bytes() + decimal_bytes(body.len() as nat) + "\r\nConnection: close\r\n\r\n".spec_bytes() + body@,
{
    let mut r: Vec<u8> = Vec::new();
    push_bytes(&mut r, "HTTP/1.1 ".as_bytes());
    push_bytes(&mut r, status.as_bytes());
    push_bytes(&mut r, "\r\nContent-Type: ".as_bytes());
    push_bytes(&mut r, content_type.as_bytes());
    push_bytes(&mut r, "\r\nContent-Length: ".as_bytes());
    push_decimal(&mut r, body.len());
    push_bytes(&mut r, "\r\nConnection: close\r\n\r\n".as_bytes());
    let mut i: usize = 0;
    let ghost head = r@;
    while i < body.len()
        invariant
            i <= body.len(),
            r@ == head + body@.subrange(0, i as int),
        decreases body.len() - i,
    {
        r.push(body[i]);
        assert(r@ =~= head + body@.subrange(0, i as int + 1));
        i = i + 1;
    }
    assert(body@.subrange(0, body.len() as int) =~= body@);
    assert(r@ =~= "HTTP/1.1 ".spec_bytes() + status.spec_bytes() + "\r\nContent-Type: ".spec_bytes() + content_type.spec_bytes()
        + "\r\nContent-Length: ".spec_bytes() + decimal_bytes(body.len() as nat) + "\r\nConnection: close\r\n\r\n".spec_bytes() + body@);
    r
}

/// Where a request goes.
#[derive(Clone, Copy, Debug, PartialEq, Eq, Structural)]
pub enum HttpRoute {
    Command,
    Health,
    NotFound,
    MethodNotAllowed,
}

fn same_bytes(a: &Vec<u8>, b: &[u8]) -> (r: bool)
    ensures
        r == (a@ == b@),
{
    if a.len() != b.len() {
        return false;
    }
    let mut i: usize = 0;
    while i < a.len()
        invariant
            a@.len() == b@.len(),
            i <= a.len(),
            forall|k: int| 0 <= k < i ==> a@[k] == b@[k],
        decreases a.len() - i,
    {
        if a[i] != b[i] {
            return false;
        }
        i = i + 1;
    }
    assert(a@ =~= b@);
    true
}

/// `POST /command` runs a command; `GET /health` answers that all is well;
/// any other path under those two methods is not found; any other method is
/// not allowed.
pub open spec fn route_spec(method: Seq<u8>, path: Seq<u8>) -> HttpRoute {
    let post = method == "POST".spec_bytes();
    let get = method == "GET".spec_bytes();
    if post && path == "/command".spec_bytes() {
        HttpRoute::Command
    } else if get && path == "/health".spec_bytes() {
        HttpRoute::Health
    } else if post || get {
        HttpRoute::NotFound
    } else {
        HttpRoute::MethodNotAllowed
    }
}

pub fn route_http_request(method: &Vec<u8>, path: &Vec<u8>) -> (r: HttpRoute)
    ensures
        r == route_spec(method@, path@),
{
    let post = same_bytes(method, "POST".as_bytes());
    let get = same_bytes(method, "GET".as_bytes());
    if post && same_bytes(path, "/command".as_bytes()) {
        HttpRoute::Command
    } else if get && same_bytes(path, "/health".as_bytes()) {
        HttpRoute::Health
    } else if post || get {
        HttpRoute::NotFound
    } else {
        HttpRoute::MethodNotAllowed
    }
}

/// The status, content type and body that answer a routed request;
/// `command_reply` is the JSON answer to the command, used for `Command`.
pub fn handle_command_http_request(route: HttpRoute, command_reply: Vec<u8>) -> (r: (String, String, Vec<u8>))
    ensures
        r.1@ == "application/json"@,
        route == HttpRoute::Command ==> r.0@ == "200 OK"@ && r.2@ == command_reply@,
        route == HttpRoute::Health ==> r.0@ == "200 OK"@ && r.2@ == "{\"status\":\"ok\"}".spec_bytes(),
        route == HttpRoute::NotFound ==> r.0@ == "404 Not Found"@ && r.2@ == "{\"error\":\"not found\"}".spec_bytes(),
        route == HttpRoute::MethodNotAllowed ==> r.0@ == "405 Method Not Allowed"@
            && r.2@ == "{\"error\":\"method not allowed\"}".spec_bytes(),
{
    let json = String::from_str("application/json");
    match route {
        HttpRoute::Command => (String::from_str("200 OK"), json, command_reply),
        HttpRoute::Health => {
            let mut b: Vec<u8> = Vec::new();
            push_bytes(&mut b, "{\"status\":\"ok\"}".as_bytes());
            assert(b@ =~= "{\"status\":\"ok\"}".spec_bytes());
            (String::from_str("200 OK"), json, b)
        },
        HttpRoute::NotFound => {
            let mut b: Vec<u8> = Vec::new();
            push_bytes(&mut b, "{\"error\":\"not found\"}".as_bytes());
            assert(b@ =~= "{\"error\":\"not found\"}".spec_bytes());
            (String::from_str("404 Not Found"), json, b)
        },
        HttpRoute::MethodNotAllowed => {
            let mut b: Vec<u8> = Vec::new();
            push_bytes(&mut b, "{\"error\":\"method not allowed\"}".as_bytes());
            assert(b@ =~= "{\"error\":\"method not allowed\"}".spec_bytes());
            (String::from_str("405 Method Not Allowed"), json, b)
        },
    }
}

} // verus!
