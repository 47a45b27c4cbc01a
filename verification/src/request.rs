//! The request parser: raw bytes from a connection in, a structured
//! `Request` or a parse error out, plus the form-body decoder.
//!
//! The grammar is fixed by `parse_request_spec`: a request line of three
//! space-separated tokens ended by CR LF, header lines `name: value` ended
//! by CR LF, a blank line, then exactly `Content-Length` body bytes
//! (no body when the header is absent).

use vstd::prelude::*;

use crate::HttpError;
use crate::http_route::HttpMethod;
use crate::http_route::MethodV;
use crate::http_route::parse_method;
use crate::http_route::parse_method_tok;
use crate::http_version::HttpVersion;
use crate::http_version::parse_version;
use crate::http_version::parse_version_tok;
use crate::wire::all_digits;
use crate::wire::bytes_eq_ci;
use crate::wire::copy_range;
use crate::wire::dec_val;
use crate::wire::find_byte;
use crate::wire::find_byte_in;
use crate::wire::find_crlf;
use crate::wire::find_crlf_in;
use crate::wire::hviews;
use crate::wire::lemma_find_byte;
use crate::wire::lemma_find_crlf;
use crate::wire::name_eq_ci;
use crate::wire::parse_dec;
use crate::wire::trim;
use crate::wire::trim_range;

verus! {

broadcast use vstd::group_vstd_default, crate::wire::lemma_hviews_len, crate::wire::lemma_hviews_index;

/// Mathematical image of a parsed request.
#[verifier::ext_equal]
pub struct ReqView {
    pub method: MethodV,
    pub path: Seq<u8>,
    pub version: HttpVersion,
    pub headers: Seq<(Seq<u8>, Seq<u8>)>,
    pub body: Seq<u8>,
}

/// One parsed request: method, exact path, version, headers in the order
/// received (names as sent), and the body bytes.
pub struct Request {
    pub method: HttpMethod,
    pub path: Vec<u8>,
    pub version: HttpVersion,
    pub headers: Vec<(Vec<u8>, Vec<u8>)>,
    pub body: Vec<u8>,
}

impl View for Request {
    type V = ReqView;

    open spec fn view(&self) -> ReqView {
        ReqView {
            method: self.method@,
            path: self.path@,
            version: self.version,
            headers: hviews(self.headers@),
            body: self.body@,
        }
    }
}

/// The `Content-Length` header name.
pub open spec fn content_length_name() -> Seq<u8> {
    seq![67u8, 111u8, 110u8, 116u8, 101u8, 110u8, 116u8, 45u8, 76u8, 101u8, 110u8, 103u8, 116u8, 104u8]
}

/// Builds the `Content-Length` header name.
pub fn content_length_name_vec() -> (v: Vec<u8>)
    ensures
        v@ == content_length_name(),
{
    let mut v: Vec<u8> = Vec::new();
    v.push(67u8);
    v.push(111u8);
    v.push(110u8);
    v.push(116u8);
    v.push(101u8);
    v.push(110u8);
    v.push(116u8);
    v.push(45u8);
    v.push(76u8);
    v.push(101u8);
    v.push(110u8);
    v.push(103u8);
    v.push(116u8);
    v.push(104u8);
    proof {
        assert(v@ =~= content_length_name());
    }
    v
}

/// Value of the last header whose name equals `name` up to ASCII case, or
/// `None`: a duplicated header is read last-occurrence-wins.
pub open spec fn lookup_header(hs: Seq<(Seq<u8>, Seq<u8>)>, name: Seq<u8>) -> Option<Seq<u8>>
    decreases hs.len(),
{
    if hs.len() == 0 {
        None
    } else if name_eq_ci(hs.last().0, name) {
        Some(hs.last().1)
    } else {
        lookup_header(hs.drop_last(), name)
    }
}

/// Last-wins, case-insensitive lookup over a header list.
pub fn lookup_ci<'a>(headers: &'a Vec<(Vec<u8>, Vec<u8>)>, name: &[u8]) -> (r: Option<&'a Vec<u8>>)
    ensures
        match r {
            Some(v) => lookup_header(hviews(headers@), name@) == Some(v@),
            None => lookup_header(hviews(headers@), name@) is None,
        },
{
    let ghost hv = hviews(headers@);
    proof {
        assert(hv.take(headers@.len() as int) =~= hv);
    }
    let mut i: usize = headers.len();
    while i > 0
        invariant
            i <= headers@.len(),
            hv == hviews(headers@),
            lookup_header(hv, name@) == lookup_header(hv.take(i as int), name@),
        decreases i,
    {
        let k = i - 1;
        let hit = bytes_eq_ci(headers[k].0.as_slice(), name);
        proof {
            let cur = hv.take(i as int);
            assert(cur.last() == hv[k as int]);
            assert(hv[k as int] == (headers@[k as int].0@, headers@[k as int].1@));
            assert(cur.drop_last() =~= hv.take(k as int));
        }
        if hit {
            return Some(&headers[k].1);
        }
        i = k;
    }
    proof {
        assert(hv.take(0).len() == 0);
    }
    None
}

/// Splits a request line into method, path, and version: three tokens
/// separated by single spaces. Anything else is `MalformedRequestLine`
/// (an unsupported version token included).
pub open spec fn parse_request_line(line: Seq<u8>) -> Result<(MethodV, Seq<u8>, HttpVersion), HttpError> {
    let i = find_byte(line, 32);
    if i < 0 {
        Err(HttpError::MalformedRequestLine)
    } else {
        let rest = line.skip(i + 1);
        let j = find_byte(rest, 32);
        if j < 0 {
            Err(HttpError::MalformedRequestLine)
        } else {
            match parse_version_tok(rest.skip(j + 1)) {
                None => Err(HttpError::MalformedRequestLine),
                Some(v) => Ok((parse_method_tok(line.take(i)), rest.take(j), v)),
            }
        }
    }
}

/// Reads header lines up to and including the blank line; yields the
/// headers (values trimmed) and what follows the blank line. A line
/// without a colon, or a header section without a blank-line end, is
/// `MalformedHeader`.
pub open spec fn parse_headers(s: Seq<u8>) -> Result<(Seq<(Seq<u8>, Seq<u8>)>, Seq<u8>), HttpError>
    decreases s.len(),
{
    let e = find_crlf(s);
    if e < 0 || s.len() < e + 2 {
        Err(HttpError::MalformedHeader)
    } else if e == 0 {
        Ok((Seq::empty(), s.skip(2)))
    } else {
        let line = s.take(e);
        let c = find_byte(line, 58);
        if c < 0 {
            Err(HttpError::MalformedHeader)
        } else {
            match parse_headers(s.skip(e + 2)) {
                Err(x) => Err(x),
                Ok(p) => Ok((seq![(line.take(c), trim(line.skip(c + 1)))] + p.0, p.1)),
            }
        }
    }
}

/// The whole request grammar. The body is exactly `Content-Length` bytes
/// of what follows the blank line (0 when absent); a non-numeric or
/// oversized `Content-Length`, or fewer body bytes than announced, is
/// `MalformedHeader`. Bytes after the body are ignored, as a connection
/// reader would leave them unread.
pub open spec fn parse_request_spec(s: Seq<u8>) -> Result<ReqView, HttpError> {
    let e = find_crlf(s);
    if e < 0 || s.len() < e + 2 {
        Err(HttpError::MalformedRequestLine)
    } else {
        match parse_request_line(s.take(e)) {
            Err(x) => Err(x),
            Ok(rl) => match parse_headers(s.skip(e + 2)) {
                Err(x) => Err(x),
                Ok(p) => match lookup_header(p.0, content_length_name()) {
                    None => Ok(
                        ReqView {
                            method: rl.0,
                            path: rl.1,
                            version: rl.2,
                            headers: p.0,
                            body: Seq::empty(),
                        },
                    ),
                    Some(cl) => if cl.len() == 0 || !all_digits(cl) || dec_val(cl) > usize::MAX as nat {
                        Err(HttpError::MalformedHeader)
                    } else if p.1.len() < dec_val(cl) {
                        Err(HttpError::MalformedHeader)
                    } else {
                        Ok(
                            ReqView {
                                method: rl.0,
                                path: rl.1,
                                version: rl.2,
                                headers: p.0,
                                body: p.1.take(dec_val(cl) as int),
                            },
                        )
                    },
                },
            },
        }
    }
}

/// Splits the request line `input[..e]` into its three tokens.
#[verifier::rlimit(60)]
fn parse_line_tokens(input: &[u8], e: usize) -> (r: Result<(HttpMethod, Vec<u8>, HttpVersion), HttpError>)
    requires
        e <= input@.len(),
    ensures
        match r {
            Ok(t) => parse_request_line(input@.take(e as int)) == Ok::<
                (MethodV, Seq<u8>, HttpVersion),
                HttpError,
            >((t.0@, t.1@, t.2)),
            Err(x) => parse_request_line(input@.take(e as int)) == Err::<
                (MethodV, Seq<u8>, HttpVersion),
                HttpError,
            >(x),
        },
{
    let ghost line = input@.take(e as int);
    proof {
        assert(input@.subrange(0, e as int) =~= line);
    }
    let i = match find_byte_in(input, 0, e, 32u8) {
        None => {
            return Err(HttpError::MalformedRequestLine);
        },
        Some(i) => i,
    };
    let ghost rest = line.skip(i + 1);
    proof {
        lemma_find_byte(line, 32u8);
        assert(rest =~= input@.subrange(i + 1, e as int));
    }
    let j = match find_byte_in(input, i + 1, e, 32u8) {
        None => {
            return Err(HttpError::MalformedRequestLine);
        },
        Some(j) => j,
    };
    proof {
        lemma_find_byte(rest, 32u8);
    }
    let vtok = copy_range(input, j + 1, e);
    proof {
        assert(rest.skip(j - i) =~= input@.subrange(j + 1, e as int));
    }
    let version = match parse_version(vtok.as_slice()) {
        None => {
            return Err(HttpError::MalformedRequestLine);
        },
        Some(v) => v,
    };
    let mtok = copy_range(input, 0, i);
    proof {
        assert(line.take(i as int) =~= input@.subrange(0, i as int));
    }
    let method = parse_method(mtok.as_slice());
    let path = copy_range(input, i + 1, j);
    proof {
        assert(rest.take(j - i - 1) =~= input@.subrange(i + 1, j as int));
    }
    Ok((method, path, version))
}

/// Reads header lines from `start` up to and past the blank line; yields
/// the headers and the index where the body begins.
#[verifier::rlimit(60)]
#[verifier::loop_isolation(false)]
fn parse_header_section(input: &[u8], start: usize) -> (r: Result<
    (Vec<(Vec<u8>, Vec<u8>)>, usize),
    HttpError,
>)
    requires
        start <= input@.len(),
    ensures
        match r {
            Ok(p) => start <= p.1 <= input@.len() && parse_headers(input@.skip(start as int))
                == Ok::<(Seq<(Seq<u8>, Seq<u8>)>, Seq<u8>), HttpError>(
                (hviews(p.0@), input@.skip(p.1 as int)),
            ),
            Err(x) => parse_headers(input@.skip(start as int)) == Err::<
                (Seq<(Seq<u8>, Seq<u8>)>, Seq<u8>),
                HttpError,
            >(x),
        },
{
    let total = input.len();
    let mut headers: Vec<(Vec<u8>, Vec<u8>)> = Vec::new();
    let mut pos: usize = start;
    proof {
        assert(hviews(headers@) =~~= Seq::<(Seq<u8>, Seq<u8>)>::empty());
        match parse_headers(input@.skip(start as int)) {
            Ok(p) => {
                assert(hviews(headers@) + p.0 =~~= p.0);
            },
            Err(_) => {},
        }
    }
    loop
        invariant
            start <= pos <= input@.len(),
            parse_headers(input@.skip(start as int)) == (match parse_headers(
                input@.skip(pos as int),
            ) {
                Ok(p) => Ok::<(Seq<(Seq<u8>, Seq<u8>)>, Seq<u8>), HttpError>(
                    (hviews(headers@) + p.0, p.1),
                ),
                Err(x) => Err::<(Seq<(Seq<u8>, Seq<u8>)>, Seq<u8>), HttpError>(x),
            }),
        decreases input@.len() - pos,
    {
        let ghost sp = input@.skip(pos as int);
        let eol = match find_crlf_in(input, pos) {
            None => {
                return Err(HttpError::MalformedHeader);
            },
            Some(x) => x,
        };
        proof {
            lemma_find_crlf(sp);
        }
        if eol == pos {
            proof {
                assert(sp.skip(2) =~= input@.skip(pos + 2));
                assert(hviews(headers@) + Seq::<(Seq<u8>, Seq<u8>)>::empty() =~~= hviews(
                    headers@,
                ));
            }
            let out = pos + 2;
            return Ok((headers, out));
        }
        let ghost hline = sp.take(eol - pos);
        proof {
            assert(hline =~= input@.subrange(pos as int, eol as int));
        }
        let c = match find_byte_in(input, pos, eol, 58u8) {
            None => {
                return Err(HttpError::MalformedHeader);
            },
            Some(c) => c,
        };
        proof {
            lemma_find_byte(hline, 58u8);
        }
        let name = copy_range(input, pos, c);
        let value = trim_range(input, c + 1, eol);
        proof {
            assert(hline.take(c - pos) =~= input@.subrange(pos as int, c as int));
            assert(hline.skip(c - pos + 1) =~= input@.subrange(c + 1, eol as int));
        }
        let ghost old_headers = headers@;
        headers.push((name, value));
        proof {
            assert(sp.skip(eol - pos + 2) =~= input@.skip(eol + 2));
            assert(hviews(headers@) =~~= hviews(old_headers).push((name@, value@)));
            match parse_headers(input@.skip(eol + 2)) {
                Ok(p) => {
                    assert(hviews(old_headers) + (seq![(name@, value@)] + p.0) =~~= hviews(
                        headers@,
                    ) + p.0);
                },
                Err(x) => {},
            }
        }
        pos = eol + 2;
    }
}

/// Parses one request from the bytes read off a connection.
#[verifier::rlimit(60)]
pub fn parse_request(input: &[u8]) -> (r: Result<Request, HttpError>)
    ensures
        match r {
            Ok(req) => parse_request_spec(input@) == Ok::<ReqView, HttpError>(req@),
            Err(x) => parse_request_spec(input@) == Err::<ReqView, HttpError>(x),
        },
{
    proof {
        assert(input@.skip(0) =~= input@);
    }
    let e = match find_crlf_in(input, 0) {
        None => {
            return Err(HttpError::MalformedRequestLine);
        },
        Some(i) => i,
    };
    let total = input.len();
    proof {
        lemma_find_crlf(input@);
    }
    let tokens = match parse_line_tokens(input, e) {
        Err(x) => {
            return Err(x);
        },
        Ok(t) => t,
    };
    let method = tokens.0;
    let path = tokens.1;
    let version = tokens.2;
    let section = match parse_header_section(input, e + 2) {
        Err(x) => {
            return Err(x);
        },
        Ok(p) => p,
    };
    let headers = section.0;
    let pos = section.1;

    // Body: exactly Content-Length bytes when the header is present.
    let cl_name = content_length_name_vec();
    let cl = match lookup_ci(&headers, cl_name.as_slice()) {
        None => {
            let req = Request { method, path, version, headers, body: Vec::new() };
            return Ok(req);
        },
        Some(v) => v,
    };
    let n = match parse_dec(cl.as_slice()) {
        None => {
            return Err(HttpError::MalformedHeader);
        },
        Some(n) => n,
    };
    proof {
        assert(input@.skip(pos as int).len() == input@.len() - pos);
    }
    if input.len() - pos < n {
        return Err(HttpError::MalformedHeader);
    }
    let body = copy_range(input, pos, pos + n);
    proof {
        assert(input@.skip(pos as int).take(n as int) =~= input@.subrange(pos as int, pos + n));
    }
    let req = Request { method, path, version, headers, body };
    Ok(req)
}

/// A byte of a form body after `+` is read as a space.
pub open spec fn plus_byte(b: u8) -> u8 {
    if b == 43 {
        32u8
    } else {
        b
    }
}

/// The form body with every `+` replaced by a space.
pub open spec fn plus_to_space(s: Seq<u8>) -> Seq<u8> {
    Seq::new(s.len(), |i: int| plus_byte(s[i]))
}

pub broadcast proof fn lemma_plus_to_space_len(s: Seq<u8>)
    ensures
        #[trigger] plus_to_space(s).len() == s.len(),
{
}

pub broadcast proof fn lemma_plus_to_space_index(s: Seq<u8>, i: int)
    requires
        0 <= i < s.len(),
    ensures
        #[trigger] plus_to_space(s)[i] == plus_byte(s[i]),
{
}

/// An ASCII hexadecimal digit.
pub open spec fn is_hex_digit(b: u8) -> bool {
    48 <= b <= 57 || 65 <= b <= 70 || 97 <= b <= 102
}

/// Value of a hexadecimal digit.
pub open spec fn hex_val(b: u8) -> u8 {
    if 48 <= b <= 57 {
        (b - 48) as u8
    } else if 65 <= b <= 70 {
        (b - 55) as u8
    } else if 97 <= b <= 102 {
        (b - 87) as u8
    } else {
        0
    }
}

/// Percent-decoding with graceful degradation: `%` followed by two hex
/// digits becomes that byte; a malformed escape is passed through as a
/// literal `%` and its following bytes stand unchanged.
pub open spec fn pct_decode(s: Seq<u8>) -> Seq<u8>
    decreases s.len(),
{
    if s.len() == 0 {
        Seq::empty()
    } else if s[0] == 37 && s.len() >= 3 && is_hex_digit(s[1]) && is_hex_digit(s[2]) {
        seq![(hex_val(s[1]) * 16 + hex_val(s[2])) as u8] + pct_decode(s.skip(3))
    } else {
        seq![s[0]] + pct_decode(s.skip(1))
    }
}

/// One decoded key or value: `+` to space, then percent-decoding.
pub open spec fn form_component(s: Seq<u8>) -> Seq<u8> {
    pct_decode(plus_to_space(s))
}

/// One `key=value` segment; a segment without `=` maps to an empty value.
pub open spec fn split_pair(seg: Seq<u8>) -> (Seq<u8>, Seq<u8>) {
    let i = find_byte(seg, 61);
    if i < 0 {
        (form_component(seg), Seq::<u8>::empty())
    } else {
        (form_component(seg.take(i)), form_component(seg.skip(i + 1)))
    }
}

/// The decoded pairs of a form body: segments split on `&`, in order. An
/// empty body (or an empty tail after the last `&`) yields no pair.
pub open spec fn decode_form_spec(s: Seq<u8>) -> Seq<(Seq<u8>, Seq<u8>)>
    decreases s.len(),
{
    if s.len() == 0 {
        Seq::empty()
    } else {
        let a = find_byte(s, 38);
        if a < 0 || s.len() < a + 1 {
            seq![split_pair(s)]
        } else {
            seq![split_pair(s.take(a))] + decode_form_spec(s.skip(a + 1))
        }
    }
}

/// The hexadecimal value of `b`, or `None` when `b` is no hex digit.
fn hex_digit_val(b: u8) -> (r: Option<u8>)
    ensures
        match r {
            Some(v) => is_hex_digit(b) && v == hex_val(b) && v < 16,
            None => !is_hex_digit(b),
        },
{
    if 48 <= b && b <= 57 {
        Some(b - 48)
    } else if 65 <= b && b <= 70 {
        Some(b - 55)
    } else if 97 <= b && b <= 102 {
        Some(b - 87)
    } else {
        None
    }
}

/// Decodes `s[a..b]` as one form key or value.
#[verifier::rlimit(60)]
#[verifier::loop_isolation(false)]
fn form_component_range(s: &[u8], a: usize, b: usize) -> (v: Vec<u8>)
    requires
        a <= b <= s@.len(),
    ensures
        v@ == form_component(s@.subrange(a as int, b as int)),
{
    let mut p: Vec<u8> = Vec::new();
    let mut i: usize = a;
    proof {
        assert(p@ =~= plus_to_space(s@.subrange(a as int, a as int)));
    }
    while i < b
        invariant
            a <= i <= b,
            p@ == plus_to_space(s@.subrange(a as int, i as int)),
        decreases b - i,
    {
        let c = s[i];
        if c == 43 {
            p.push(32u8);
        } else {
            p.push(c);
        }
        proof {
            assert(p@ =~= plus_to_space(s@.subrange(a as int, i + 1)));
        }
        i = i + 1;
    }
    let ghost pv = p@;
    let mut out: Vec<u8> = Vec::new();
    let mut k: usize = 0;
    proof {
        assert(pv.skip(0) =~= pv);
    }
    while k < p.len()
        invariant
            k <= pv.len(),
            pv == p@,
            pct_decode(pv) == out@ + pct_decode(pv.skip(k as int)),
        decreases pv.len() - k,
    {
        let ghost sk = pv.skip(k as int);
        let ghost base = out@;
        proof {
            assert(sk[0] == pv[k as int]);
        }
        let c = p[k];
        let mut plain = true;
        if c == 37 && p.len() - k > 2 {
            proof {
                assert(sk[1] == pv[k + 1]);
                assert(sk[2] == pv[k + 2]);
            }
            let h1 = hex_digit_val(p[k + 1]);
            let h2 = hex_digit_val(p[k + 2]);
            match (h1, h2) {
                (Some(v1), Some(v2)) => {
                    out.push(v1 * 16 + v2);
                    proof {
                        assert(sk.skip(3) =~= pv.skip(k + 3));
                        assert(out@ =~= base + seq![(hex_val(pv[k + 1]) * 16 + hex_val(
                            pv[k + 2],
                        )) as u8]);
                        assert(base + (seq![(hex_val(sk[1]) * 16 + hex_val(sk[2])) as u8]
                            + pct_decode(sk.skip(3))) =~= out@ + pct_decode(pv.skip(k + 3)));
                    }
                    k = k + 3;
                    plain = false;
                },
                _ => {},
            }
        }
        if plain {
            proof {
                if k + 2 < pv.len() {
                    assert(sk[1] == pv[k + 1]);
                    assert(sk[2] == pv[k + 2]);
                }
                assert(sk.len() >= 3 ==> k + 2 < pv.len());
            }
            out.push(c);
            proof {
                assert(sk.skip(1) =~= pv.skip(k + 1));
                assert(out@ =~= base + seq![pv[k as int]]);
                assert(base + (seq![sk[0]] + pct_decode(sk.skip(1))) =~= out@ + pct_decode(
                    pv.skip(k + 1),
                ));
            }
            k = k + 1;
        }
    }
    proof {
        assert(pv.skip(pv.len() as int) =~= Seq::<u8>::empty());
        assert(out@ + Seq::<u8>::empty() =~= out@);
    }
    out
}

/// Splits and decodes one `key=value` segment of `s[a..b]`.
fn split_pair_range(s: &[u8], a: usize, b: usize) -> (kv: (Vec<u8>, Vec<u8>))
    requires
        a <= b <= s@.len(),
    ensures
        (kv.0@, kv.1@) == split_pair(s@.subrange(a as int, b as int)),
{
    let ghost seg = s@.subrange(a as int, b as int);
    match find_byte_in(s, a, b, 61u8) {
        None => {
            let key = form_component_range(s, a, b);
            let empty_value: Vec<u8> = Vec::new();
            (key, empty_value)
        },
        Some(eq) => {
            proof {
                lemma_find_byte(seg, 61u8);
                assert(seg.take(eq - a) =~= s@.subrange(a as int, eq as int));
                assert(seg.skip(eq - a + 1) =~= s@.subrange(eq + 1, b as int));
            }
            let key = form_component_range(s, a, eq);
            let value = form_component_range(s, eq + 1, b);
            (key, value)
        },
    }
}

/// Decodes an `application/x-www-form-urlencoded` body into its pairs, in
/// order. Decoding never fails: malformed percent escapes pass through as
/// literal bytes.
#[verifier::rlimit(60)]
#[verifier::loop_isolation(false)]
pub fn decode_form(body: &[u8]) -> (pairs: Vec<(Vec<u8>, Vec<u8>)>)
    ensures
        hviews(pairs@) == decode_form_spec(body@),
{
    let total = body.len();
    let mut pairs: Vec<(Vec<u8>, Vec<u8>)> = Vec::new();
    let mut start: usize = 0;
    proof {
        assert(body@.skip(0) =~= body@);
        assert(hviews(pairs@) =~~= Seq::<(Seq<u8>, Seq<u8>)>::empty());
        assert(hviews(pairs@) + decode_form_spec(body@) =~~= decode_form_spec(body@));
    }
    loop
        invariant
            start <= body@.len(),
            decode_form_spec(body@) == hviews(pairs@) + decode_form_spec(body@.skip(start as int)),
        decreases body@.len() - start,
    {
        let ghost sseg = body@.skip(start as int);
        if start == total {
            proof {
                assert(sseg.len() == 0);
                assert(hviews(pairs@) + decode_form_spec(sseg) =~~= hviews(pairs@));
            }
            return pairs;
        }
        match find_byte_in(body, start, total, 38u8) {
            None => {
                let kv = split_pair_range(body, start, total);
                let ghost k0 = kv.0@;
                let ghost k1 = kv.1@;
                let ghost old_pairs = pairs@;
                pairs.push(kv);
                proof {
                    assert(sseg =~= body@.subrange(start as int, total as int));
                    assert(hviews(pairs@) =~~= hviews(old_pairs).push((k0, k1)));
                    assert(decode_form_spec(sseg) == seq![split_pair(sseg)]);
                    assert(hviews(old_pairs) + seq![(k0, k1)] =~~= hviews(pairs@));
                }
                return pairs;
            },
            Some(amp) => {
                proof {
                    lemma_find_byte(sseg, 38u8);
                    assert(sseg.take(amp - start) =~= body@.subrange(start as int, amp as int));
                }
                let kv = split_pair_range(body, start, amp);
                let ghost k0 = kv.0@;
                let ghost k1 = kv.1@;
                let ghost old_pairs = pairs@;
                pairs.push(kv);
                proof {
                    assert(sseg.skip(amp - start + 1) =~= body@.skip(amp + 1));
                    assert(hviews(pairs@) =~~= hviews(old_pairs).push((k0, k1)));
                    let ghost rest_pairs = decode_form_spec(body@.skip(amp + 1));
                    assert(hviews(old_pairs) + (seq![(k0, k1)] + rest_pairs) =~~= hviews(pairs@)
                        + rest_pairs);
                }
                start = amp + 1;
            },
        }
    }
}

impl Request {
    /// Value of the named header, read case-insensitively with the last
    /// occurrence winning; `None` when the request has no such header.
    pub fn header<'a>(&'a self, name: &[u8]) -> (r: Option<&'a Vec<u8>>)
        ensures
            match r {
                Some(v) => lookup_header(self@.headers, name@) == Some(v@),
                None => lookup_header(self@.headers, name@) is None,
            },
    {
        lookup_ci(&self.headers, name)
    }
}

} // verus!
