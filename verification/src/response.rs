//! Response construction and wire serialization.
//!
//! A response is serialized as: status line, each header as
//! `Name: Value` CR LF, a blank line, then the body bytes. A
//! `Content-Length` header equal to the body's exact byte length is added
//! unless the caller set one. A file-backed body is resolved by the caller
//! (the library never touches the filesystem); when the read failed, the
//! serializer substitutes a stock `404` so that a response is always
//! produced.

use vstd::prelude::*;

use crate::http_code::reason_for;
use crate::http_code::reason_phrase;
use crate::http_version::HttpVersion;
use crate::http_version::append_version;
use crate::http_version::version_bytes;
use crate::HttpError;
use crate::request::content_length_name;
use crate::request::content_length_name_vec;
use crate::request::lookup_ci;
use crate::request::lookup_header;
use crate::request::parse_headers;
use crate::wire::all_digits;
use crate::wire::append_range;
use crate::wire::clone_bytes;
use crate::wire::crlf_at;
use crate::wire::dec_bytes;
use crate::wire::dec_rep;
use crate::wire::dec_val;
use crate::wire::find_byte;
use crate::wire::find_crlf;
use crate::wire::hviews;
use crate::wire::is_digit;
use crate::wire::is_ws;
use crate::wire::lemma_find_byte;
use crate::wire::lemma_find_crlf;
use crate::wire::name_eq_ci;
use crate::wire::trim;
use crate::wire::trim_back;
use crate::wire::trim_front;
use vstd::string::StrSliceExecFns;
use vstd::string::StringSliceAdditionalSpecFns;

verus! {

broadcast use vstd::group_vstd_default, crate::wire::lemma_hviews_len, crate::wire::lemma_hviews_index;

/// A response body: bytes held in memory, or the path of a file whose
/// bytes stand in for them at serialization time.
pub enum Body {
    Bytes(Vec<u8>),
    File(Vec<u8>),
}

/// Mathematical image of `Body`.
pub enum BodyV {
    Bytes(Seq<u8>),
    File(Seq<u8>),
}

impl View for Body {
    type V = BodyV;

    open spec fn view(&self) -> BodyV {
        match self {
            Body::Bytes(b) => BodyV::Bytes(b@),
            Body::File(p) => BodyV::File(p@),
        }
    }
}

impl Clone for Body {
    fn clone(&self) -> (r: Self)
        ensures
            r@ == self@,
    {
        match self {
            Body::Bytes(b) => Body::Bytes(clone_bytes(b)),
            Body::File(p) => Body::File(clone_bytes(p)),
        }
    }
}

/// Mathematical image of a response.
#[verifier::ext_equal]
pub struct RespView {
    pub code: u16,
    pub version: HttpVersion,
    pub headers: Seq<(Seq<u8>, Seq<u8>)>,
    pub body: BodyV,
}

/// A response under construction: status code, headers in insertion
/// order, and the body.
pub struct Response {
    pub code: u16,
    pub version: HttpVersion,
    pub headers: Vec<(Vec<u8>, Vec<u8>)>,
    pub body: Body,
}

impl View for Response {
    type V = RespView;

    open spec fn view(&self) -> RespView {
        RespView {
            code: self.code,
            version: self.version,
            headers: hviews(self.headers@),
            body: self.body@,
        }
    }
}

/// Copies a header list.
pub fn clone_headers(headers: &Vec<(Vec<u8>, Vec<u8>)>) -> (r: Vec<(Vec<u8>, Vec<u8>)>)
    ensures
        hviews(r@) == hviews(headers@),
{
    let mut r: Vec<(Vec<u8>, Vec<u8>)> = Vec::new();
    let mut i: usize = 0;
    while i < headers.len()
        invariant
            i <= headers@.len(),
            hviews(r@) == hviews(headers@).take(i as int),
        decreases headers@.len() - i,
    {
        let n = clone_bytes(&headers[i].0);
        let v = clone_bytes(&headers[i].1);
        let ghost prev = r@;
        r.push((n, v));
        proof {
            assert(hviews(prev).len() == prev.len());
            assert(hviews(prev) == hviews(headers@).take(i as int));
            assert(prev.len() == i);
            assert(r@ == prev.push((n, v)));
            assert(r@[i as int] == (n, v));
            assert(hviews(r@)[i as int] == (n@, v@));
            assert(hviews(headers@)[i as int] == (headers@[i as int].0@, headers@[i as int].1@));
            assert forall|j: int| 0 <= j < i implies hviews(r@)[j] == hviews(headers@)[j] by {
                assert(r@[j] == prev[j]);
                assert(hviews(r@)[j] == (r@[j].0@, r@[j].1@));
                assert(hviews(prev)[j] == (prev[j].0@, prev[j].1@));
                assert(hviews(prev)[j] == hviews(headers@).take(i as int)[j]);
            }
            assert(hviews(r@) =~= hviews(headers@).take(i + 1));
        }
        i = i + 1;
    }
    proof {
        assert(hviews(headers@).take(headers@.len() as int) =~~= hviews(headers@));
    }
    r
}

impl Clone for Response {
    fn clone(&self) -> (r: Self)
        ensures
            r@ == self@,
    {
        let r = Response {
            code: self.code,
            version: self.version,
            headers: clone_headers(&self.headers),
            body: self.body.clone(),
        };
        r
    }
}

/// One serialized header line: `Name: Value` CR LF.
pub open spec fn header_line(h: (Seq<u8>, Seq<u8>)) -> Seq<u8> {
    h.0 + seq![58u8, 32u8] + h.1 + seq![13u8, 10u8]
}

/// The serialized header section, in list order.
pub open spec fn header_block(hs: Seq<(Seq<u8>, Seq<u8>)>) -> Seq<u8>
    decreases hs.len(),
{
    if hs.len() == 0 {
        Seq::empty()
    } else {
        header_line(hs[0]) + header_block(hs.skip(1))
    }
}

pub proof fn lemma_header_block_snoc(hs: Seq<(Seq<u8>, Seq<u8>)>, h: (Seq<u8>, Seq<u8>))
    ensures
        header_block(hs.push(h)) == header_block(hs) + header_line(h),
    decreases hs.len(),
{
    if hs.len() == 0 {
        let p = hs.push(h);
        assert(p[0] == h);
        assert(p.skip(1) =~= Seq::<(Seq<u8>, Seq<u8>)>::empty());
        assert(header_block(p.skip(1)) == Seq::<u8>::empty());
        assert(header_block(p) == header_line(h) + header_block(p.skip(1)));
        assert(header_block(hs.push(h)) =~= header_block(hs) + header_line(h));
    } else {
        assert(hs.push(h)[0] == hs[0]);
        assert(hs.push(h).skip(1) =~= hs.skip(1).push(h));
        lemma_header_block_snoc(hs.skip(1), h);
        assert(header_block(hs.push(h)) =~= header_block(hs) + header_line(h));
    }
}

/// The serialized status line: version, code, reason phrase, CR LF.
pub open spec fn status_line(v: HttpVersion, code: u16) -> Seq<u8> {
    version_bytes(v) + seq![32u8] + dec_rep(code as nat) + seq![32u8] + reason_phrase(code)
        + seq![13u8, 10u8]
}

/// The headers as emitted: unchanged when a `Content-Length` is already
/// set, else with `Content-Length: <body length>` appended.
pub open spec fn out_headers(hs: Seq<(Seq<u8>, Seq<u8>)>, blen: nat) -> Seq<(Seq<u8>, Seq<u8>)> {
    if lookup_header(hs, content_length_name()) is Some {
        hs
    } else {
        hs.push((content_length_name(), dec_rep(blen)))
    }
}

/// The full wire form of a response with the given resolved body bytes.
pub open spec fn serialize_spec(v: HttpVersion, code: u16, hs: Seq<(Seq<u8>, Seq<u8>)>, body: Seq<u8>) -> Seq<u8> {
    status_line(v, code) + header_block(out_headers(hs, body.len())) + seq![13u8, 10u8] + body
}

/// Appends `Name: Value` CR LF.
fn append_header_line(out: &mut Vec<u8>, name: &[u8], value: &[u8])
    ensures
        final(out)@ == old(out)@ + header_line((name@, value@)),
{
    let ghost base = out@;
    append_range(out, name, 0, name.len());
    proof {
        assert(name@.subrange(0, name@.len() as int) =~= name@);
    }
    out.push(58u8);
    out.push(32u8);
    append_range(out, value, 0, value.len());
    proof {
        assert(value@.subrange(0, value@.len() as int) =~= value@);
    }
    out.push(13u8);
    out.push(10u8);
    proof {
        assert(out@ =~= base + header_line((name@, value@)));
    }
}

/// Serializes a status line, headers (with the automatic
/// `Content-Length`), a blank line, and the given body bytes.
#[verifier::loop_isolation(false)]
fn serialize_core(version: &HttpVersion, code: u16, headers: &Vec<(Vec<u8>, Vec<u8>)>, body: &[u8]) -> (out: Vec<u8>)
    ensures
        out@ == serialize_spec(*version, code, hviews(headers@), body@),
{
    let mut out: Vec<u8> = Vec::new();
    append_version(&mut out, version);
    out.push(32u8);
    let code_bytes = dec_bytes(code as usize);
    append_range(&mut out, code_bytes.as_slice(), 0, code_bytes.len());
    out.push(32u8);
    let reason = reason_for(code);
    append_range(&mut out, reason.as_slice(), 0, reason.len());
    out.push(13u8);
    out.push(10u8);
    proof {
        assert(code_bytes@.subrange(0, code_bytes@.len() as int) =~= code_bytes@);
        assert(reason@.subrange(0, reason@.len() as int) =~= reason@);
        assert(out@ =~= status_line(*version, code));
    }
    let ghost hv = hviews(headers@);
    let mut k: usize = 0;
    while k < headers.len()
        invariant
            k <= headers@.len(),
            out@ == status_line(*version, code) + header_block(hv.take(k as int)),
        decreases headers@.len() - k,
    {
        append_header_line(&mut out, headers[k].0.as_slice(), headers[k].1.as_slice());
        proof {
            assert(hv.take(k + 1) =~= hv.take(k as int).push(hv[k as int]));
            lemma_header_block_snoc(hv.take(k as int), hv[k as int]);
            assert(hv[k as int] == (headers@[k as int].0@, headers@[k as int].1@));
            assert(out@ =~= status_line(*version, code) + header_block(hv.take(k + 1)));
        }
        k = k + 1;
    }
    proof {
        assert(hv.take(headers@.len() as int) =~= hv);
    }
    let cl_name = content_length_name_vec();
    let has_cl = match lookup_ci(headers, cl_name.as_slice()) {
        Some(_) => true,
        None => false,
    };
    if !has_cl {
        let blen = dec_bytes(body.len());
        append_header_line(&mut out, cl_name.as_slice(), blen.as_slice());
        proof {
            lemma_header_block_snoc(hv, (content_length_name(), dec_rep(body@.len())));
            assert(out@ =~= status_line(*version, code) + header_block(
                out_headers(hv, body@.len()),
            ));
        }
    }
    out.push(13u8);
    out.push(10u8);
    append_range(&mut out, body, 0, body.len());
    proof {
        assert(body@.subrange(0, body@.len() as int) =~= body@);
        assert(out@ =~= serialize_spec(*version, code, hv, body@));
    }
    out
}

/// The stock body of the substituted `404`.
pub open spec fn not_found_view() -> RespView {
    RespView {
        code: 404,
        version: HttpVersion::V1_1,
        headers: Seq::empty(),
        body: BodyV::Bytes(reason_phrase(404)),
    }
}

/// The stock `404` response: used as the built-in default, and substituted
/// when a file-backed body cannot be read.
pub fn not_found_response() -> (r: Response)
    ensures
        r@ == not_found_view(),
{
    let r = Response {
        code: 404,
        version: HttpVersion::V1_1,
        headers: Vec::new(),
        body: Body::Bytes(reason_for(404)),
    };
    proof {
        assert(hviews(r.headers@) =~= Seq::<(Seq<u8>, Seq<u8>)>::empty());
    }
    r
}

/// The stock `400` response a parse failure turns into.
pub open spec fn bad_request_view() -> RespView {
    RespView {
        code: 400,
        version: HttpVersion::V1_1,
        headers: Seq::empty(),
        body: BodyV::Bytes(reason_phrase(400)),
    }
}

/// The stock `400` response.
pub fn bad_request_response() -> (r: Response)
    ensures
        r@ == bad_request_view(),
{
    let r = Response {
        code: 400,
        version: HttpVersion::V1_1,
        headers: Vec::new(),
        body: Body::Bytes(reason_for(400)),
    };
    proof {
        assert(hviews(r.headers@) =~= Seq::<(Seq<u8>, Seq<u8>)>::empty());
    }
    r
}

/// Index of the last occurrence of `b` in `s`, or -1.
pub open spec fn find_last(s: Seq<u8>, b: u8) -> int
    decreases s.len(),
{
    if s.len() == 0 {
        -1
    } else if s.last() == b {
        s.len() - 1
    } else {
        find_last(s.drop_last(), b)
    }
}

pub proof fn lemma_find_last(s: Seq<u8>, b: u8)
    ensures
        find_last(s, b) >= -1,
        find_last(s, b) == -1 ==> forall|i: int| 0 <= i < s.len() ==> s[i] != b,
        find_last(s, b) >= 0 ==> find_last(s, b) < s.len() && s[find_last(s, b)] == b,
        find_last(s, b) >= 0 ==> forall|i: int|
            find_last(s, b) < i < s.len() ==> s[i] != b,
    decreases s.len(),
{
    if s.len() == 0 {
    } else if s.last() == b {
    } else {
        let t = s.drop_last();
        lemma_find_last(t, b);
        assert(forall|i: int| 0 <= i < t.len() ==> t[i] == s[i]);
    }
}

/// Last occurrence of `b` in `s`, scanned from the end.
pub fn find_last_in(s: &[u8], b: u8) -> (r: Option<usize>)
    ensures
        match r {
            Some(i) => i as int == find_last(s@, b),
            None => find_last(s@, b) == -1,
        },
{
    proof {
        lemma_find_last(s@, b);
    }
    let mut i: usize = s.len();
    while i > 0
        invariant
            i <= s@.len(),
            forall|j: int| i <= j < s@.len() ==> s@[j] != b,
        decreases i,
    {
        let k = i - 1;
        if s[k] == b {
            proof {
                lemma_find_last(s@, b);
            }
            return Some(k);
        }
        i = k;
    }
    None
}

/// The file-name extension of a path: what follows the last dot, provided
/// no path separator follows it.
pub open spec fn ext_of(p: Seq<u8>) -> Option<Seq<u8>> {
    let d = find_last(p, 46);
    let sl = find_last(p, 47);
    if d < 0 || sl > d {
        None
    } else {
        Some(p.skip(d + 1))
    }
}

/// Content type inferred from a file path's extension; the octet-stream
/// default stands for every extension outside the table.
pub open spec fn mime_for(p: Seq<u8>) -> Seq<u8> {
    match ext_of(p) {
        None => mime_octet(),
        Some(e) => {
            if e == seq![104u8, 116u8, 109u8, 108u8] {
                // html
                mime_text_html()
            } else if e == seq![99u8, 115u8, 115u8] {
                // css
                seq![116u8, 101u8, 120u8, 116u8, 47u8, 99u8, 115u8, 115u8]
            } else if e == seq![106u8, 115u8] {
                // js
                seq![97u8, 112u8, 112u8, 108u8, 105u8, 99u8, 97u8, 116u8, 105u8, 111u8, 110u8, 47u8, 106u8, 97u8, 118u8, 97u8, 115u8, 99u8, 114u8, 105u8, 112u8, 116u8]
            } else if e == seq![112u8, 110u8, 103u8] {
                // png
                seq![105u8, 109u8, 97u8, 103u8, 101u8, 47u8, 112u8, 110u8, 103u8]
            } else if e == seq![106u8, 112u8, 103u8] {
                // jpg
                seq![105u8, 109u8, 97u8, 103u8, 101u8, 47u8, 106u8, 112u8, 101u8, 103u8]
            } else if e == seq![116u8, 120u8, 116u8] {
                // txt
                seq![116u8, 101u8, 120u8, 116u8, 47u8, 112u8, 108u8, 97u8, 105u8, 110u8]
            } else {
                mime_octet()
            }
        },
    }
}

/// `text/html`.
pub open spec fn mime_text_html() -> Seq<u8> {
    seq![116u8, 101u8, 120u8, 116u8, 47u8, 104u8, 116u8, 109u8, 108u8]
}

/// `application/octet-stream`.
pub open spec fn mime_octet() -> Seq<u8> {
    seq![97u8, 112u8, 112u8, 108u8, 105u8, 99u8, 97u8, 116u8, 105u8, 111u8, 110u8, 47u8, 111u8, 99u8, 116u8, 101u8, 116u8, 45u8, 115u8, 116u8, 114u8, 101u8, 97u8, 109u8]
}

fn push_mime_octet(m: &mut Vec<u8>)
    requires
        old(m)@.len() == 0,
    ensures
        final(m)@ == mime_octet(),
{
    m.push(97u8);
    m.push(112u8);
    m.push(112u8);
    m.push(108u8);
    m.push(105u8);
    m.push(99u8);
    m.push(97u8);
    m.push(116u8);
    m.push(105u8);
    m.push(111u8);
    m.push(110u8);
    m.push(47u8);
    m.push(111u8);
    m.push(99u8);
    m.push(116u8);
    m.push(101u8);
    m.push(116u8);
    m.push(45u8);
    m.push(115u8);
    m.push(116u8);
    m.push(114u8);
    m.push(101u8);
    m.push(97u8);
    m.push(109u8);
    proof {
        assert(m@ =~= mime_octet());
    }
}

/// Builds the content type for a file path.
pub fn mime_for_path(path: &[u8]) -> (m: Vec<u8>)
    ensures
        m@ == mime_for(path@),
{
    let ghost pv = path@;
    let d = match find_last_in(path, 46u8) {
        None => {
            let mut m: Vec<u8> = Vec::new();
            push_mime_octet(&mut m);
            return m;
        },
        Some(d) => d,
    };
    let sep_after = match find_last_in(path, 47u8) {
        None => false,
        Some(sl) => sl > d,
    };
    if sep_after {
        let mut m: Vec<u8> = Vec::new();
        push_mime_octet(&mut m);
        return m;
    }
    proof {
        lemma_find_last(pv, 46u8);
    }
    let ghost e = pv.skip(d + 1);
    proof {
        assert(forall|j: int| 0 <= j < e.len() ==> e[j] == pv[d + 1 + j]);
    }
    let n = path.len();
    let e0 = d + 1;
    let elen = n - e0;
    let mut m: Vec<u8> = Vec::new();
    if elen == 4 && path[e0] == 104u8 && path[e0 + 1] == 116u8 && path[e0 + 2] == 109u8 && path[e0
        + 3] == 108u8 {
        proof {
            assert(e =~= seq![104u8, 116u8, 109u8, 108u8]);
        }
        m.push(116u8);
        m.push(101u8);
        m.push(120u8);
        m.push(116u8);
        m.push(47u8);
        m.push(104u8);
        m.push(116u8);
        m.push(109u8);
        m.push(108u8);
        proof {
            assert(m@ =~= mime_for(pv));
        }
    } else if elen == 3 && path[e0] == 99u8 && path[e0 + 1] == 115u8 && path[e0 + 2] == 115u8 {
        proof {
            assert(e =~= seq![99u8, 115u8, 115u8]);
        }
        m.push(116u8);
        m.push(101u8);
        m.push(120u8);
        m.push(116u8);
        m.push(47u8);
        m.push(99u8);
        m.push(115u8);
        m.push(115u8);
        proof {
            assert(m@ =~= mime_for(pv));
        }
    } else if elen == 2 && path[e0] == 106u8 && path[e0 + 1] == 115u8 {
        proof {
            assert(e =~= seq![106u8, 115u8]);
        }
        m.push(97u8);
        m.push(112u8);
        m.push(112u8);
        m.push(108u8);
        m.push(105u8);
        m.push(99u8);
        m.push(97u8);
        m.push(116u8);
        m.push(105u8);
        m.push(111u8);
        m.push(110u8);
        m.push(47u8);
        m.push(106u8);
        m.push(97u8);
        m.push(118u8);
        m.push(97u8);
        m.push(115u8);
        m.push(99u8);
        m.push(114u8);
        m.push(105u8);
        m.push(112u8);
        m.push(116u8);
        proof {
            assert(m@ =~= mime_for(pv));
        }
    } else if elen == 3 && path[e0] == 112u8 && path[e0 + 1] == 110u8 && path[e0 + 2] == 103u8 {
        proof {
            assert(e =~= seq![112u8, 110u8, 103u8]);
        }
        m.push(105u8);
        m.push(109u8);
        m.push(97u8);
        m.push(103u8);
        m.push(101u8);
        m.push(47u8);
        m.push(112u8);
        m.push(110u8);
        m.push(103u8);
        proof {
            assert(m@ =~= mime_for(pv));
        }
    } else if elen == 3 && path[e0] == 106u8 && path[e0 + 1] == 112u8 && path[e0 + 2] == 103u8 {
        proof {
            assert(e =~= seq![106u8, 112u8, 103u8]);
        }
        m.push(105u8);
        m.push(109u8);
        m.push(97u8);
        m.push(103u8);
        m.push(101u8);
        m.push(47u8);
        m.push(106u8);
        m.push(112u8);
        m.push(101u8);
        m.push(103u8);
        proof {
            assert(m@ =~= mime_for(pv));
        }
    } else if elen == 3 && path[e0] == 116u8 && path[e0 + 1] == 120u8 && path[e0 + 2] == 116u8 {
        proof {
            assert(e =~= seq![116u8, 120u8, 116u8]);
        }
        m.push(116u8);
        m.push(101u8);
        m.push(120u8);
        m.push(116u8);
        m.push(47u8);
        m.push(112u8);
        m.push(108u8);
        m.push(97u8);
        m.push(105u8);
        m.push(110u8);
        proof {
            assert(m@ =~= mime_for(pv));
        }
    } else {
        proof {
            assert(e != seq![104u8, 116u8, 109u8, 108u8]);
            assert(e != seq![99u8, 115u8, 115u8]);
            assert(e != seq![106u8, 115u8]);
            assert(e != seq![112u8, 110u8, 103u8]);
            assert(e != seq![106u8, 112u8, 103u8]);
            assert(e != seq![116u8, 120u8, 116u8]);
        }
        push_mime_octet(&mut m);
    }
    m
}

/// The `Content-Type` header name.
pub open spec fn content_type_name() -> Seq<u8> {
    seq![67u8, 111u8, 110u8, 116u8, 101u8, 110u8, 116u8, 45u8, 84u8, 121u8, 112u8, 101u8]
}

/// Builds the `Content-Type` header name.
fn content_type_name_vec() -> (v: Vec<u8>)
    ensures
        v@ == content_type_name(),
{
    let mut v: Vec<u8> = Vec::new();
    v.push(67u8);
    v.push(111u8);
    v.push(110u8);
    v.push(116u8);
    v.push(101u8);
    v.push(110u8);
    v.push(116u8);
    v.push(45u8);
    v.push(84u8);
    v.push(121u8);
    v.push(112u8);
    v.push(101u8);
    proof {
        assert(v@ =~= content_type_name());
    }
    v
}

/// The headers of a file-backed response as emitted: unchanged when a
/// `Content-Type` is already set, else with the inferred type appended.
pub open spec fn with_file_type(hs: Seq<(Seq<u8>, Seq<u8>)>, path: Seq<u8>) -> Seq<(Seq<u8>, Seq<u8>)> {
    if lookup_header(hs, content_type_name()) is Some {
        hs
    } else {
        hs.push((content_type_name(), mime_for(path)))
    }
}


/// No CR or LF anywhere in `s`.
pub open spec fn no_crlf(s: Seq<u8>) -> bool {
    forall|i: int| 0 <= i < s.len() ==> s[i] != 13 && s[i] != 10
}

/// A header that survives the wire unchanged: no CR, LF, or colon in its
/// name, no CR or LF in its value, and no whitespace at the value's
/// edges (the serializer's `name: value` form would otherwise fold it
/// into the separator or be trimmed away on the far side).
pub open spec fn wire_safe_header(h: (Seq<u8>, Seq<u8>)) -> bool {
    &&& (forall|i: int| 0 <= i < h.0.len() ==> h.0[i] != 13 && h.0[i] != 10 && h.0[i] != 58)
    &&& no_crlf(h.1)
    &&& (h.1.len() > 0 ==> !is_ws(h.1[0]) && !is_ws(h.1.last()))
}

pub open spec fn wire_safe_headers(hs: Seq<(Seq<u8>, Seq<u8>)>) -> bool {
    forall|k: int| 0 <= k < hs.len() ==> wire_safe_header(#[trigger] hs[k])
}

/// What a conformant client reads off response bytes: the numeric status
/// code from the status line, the headers, and exactly `Content-Length`
/// body bytes (none when the header is absent).
pub open spec fn parse_response_spec(s: Seq<u8>) -> Option<(u16, Seq<(Seq<u8>, Seq<u8>)>, Seq<u8>)> {
    let e = find_crlf(s);
    if e < 0 || s.len() < e + 2 {
        None
    } else {
        let line = s.take(e);
        let i = find_byte(line, 32);
        if i < 0 {
            None
        } else {
            let rest = line.skip(i + 1);
            let j = find_byte(rest, 32);
            if j < 0 {
                None
            } else {
                let code_tok = rest.take(j);
                if code_tok.len() == 0 || !all_digits(code_tok) || dec_val(code_tok) > u16::MAX as nat {
                    None
                } else {
                    match parse_headers(s.skip(e + 2)) {
                        Err(_) => None,
                        Ok(p) => match lookup_header(p.0, content_length_name()) {
                            None => Some((dec_val(code_tok) as u16, p.0, Seq::<u8>::empty())),
                            Some(cl) => if cl.len() == 0 || !all_digits(cl) || dec_val(cl)
                                > usize::MAX as nat || p.1.len() < dec_val(cl) {
                                None
                            } else {
                                Some(
                                    (dec_val(code_tok) as u16, p.0, p.1.take(dec_val(cl) as int)),
                                )
                            },
                        },
                    }
                }
            }
        }
    }
}

proof fn lemma_find_crlf_concat(a: Seq<u8>, b: Seq<u8>)
    requires
        no_crlf(a),
    ensures
        find_crlf(a + seq![13u8, 10u8] + b) == a.len(),
{
    let x = a + seq![13u8, 10u8] + b;
    lemma_find_crlf(x);
    assert forall|i: int| 0 <= i < a.len() implies x[i] == a[i] by {
        assert((a + seq![13u8, 10u8])[i] == a[i]);
    }
    assert(x[a.len() as int] == 13) by {
        assert((a + seq![13u8, 10u8])[a.len() as int] == 13);
    }
    assert(x[a.len() as int + 1] == 10) by {
        assert((a + seq![13u8, 10u8])[a.len() as int + 1] == 10);
    }
    assert(crlf_at(x, a.len() as int));
    let r = find_crlf(x);
    if r == -1 {
        assert(false);
    }
    if r < a.len() {
        assert(crlf_at(x, r));
        assert(x[r] == a[r]);
        assert(false);
    }
    if r > a.len() {
        assert(!crlf_at(x, a.len() as int));
        assert(false);
    }
}

proof fn lemma_find_byte_concat(a: Seq<u8>, m: u8, b: Seq<u8>)
    requires
        forall|i: int| 0 <= i < a.len() ==> a[i] != m,
    ensures
        find_byte(a + seq![m] + b, m) == a.len(),
{
    let x = a + seq![m] + b;
    lemma_find_byte(x, m);
    assert forall|i: int| 0 <= i < a.len() implies x[i] == a[i] by {
        assert((a + seq![m])[i] == a[i]);
    }
    assert(x[a.len() as int] == m) by {
        assert((a + seq![m])[a.len() as int] == m);
    }
    let r = find_byte(x, m);
    if r == -1 {
        assert(false);
    }
    if r < a.len() {
        assert(x[r] == a[r]);
        assert(false);
    }
    if r > a.len() {
        assert(false);
    }
}

proof fn lemma_dec_rep_digits(n: nat)
    ensures
        all_digits(dec_rep(n)),
        dec_rep(n).len() >= 1,
        dec_val(dec_rep(n)) == n,
    decreases n,
{
    if n < 10 {
        let b = dec_rep(n);
        assert(b[0] == (48 + n) as u8);
        assert(is_digit(b[0]));
        assert(b.drop_last() =~= Seq::<u8>::empty());
        assert(b.last() == (48 + n) as u8);
        assert(dec_val(b) == dec_val(Seq::<u8>::empty()) * 10 + ((b.last() - 48) as nat));
    } else {
        lemma_dec_rep_digits(n / 10);
        let x = dec_rep(n / 10);
        let d = (48 + n % 10) as u8;
        let p = x.push(d);
        assert(dec_rep(n) == p);
        assert(p.drop_last() =~= x);
        assert(p.last() == d);
        assert forall|i: int| 0 <= i < p.len() implies is_digit(p[i]) by {
            if i < x.len() {
                assert(p[i] == x[i]);
            } else {
                assert(p[i] == d);
            }
        }
        assert(n == (n / 10) * 10 + n % 10);
        assert(dec_val(p) == dec_val(x) * 10 + ((d - 48) as nat));
    }
}

proof fn lemma_version_clean(v: HttpVersion)
    ensures
        version_bytes(v).len() == 8,
        forall|i: int|
            0 <= i < 8 ==> version_bytes(v)[i] != 13 && version_bytes(v)[i] != 10 && version_bytes(
                v,
            )[i] != 32,
{
    let b = version_bytes(v);
    assert forall|i: int| 0 <= i < 8 implies b[i] != 13 && b[i] != 10 && b[i] != 32 by {
        if i == 0 {
        } else if i == 1 {
        } else if i == 2 {
        } else if i == 3 {
        } else if i == 4 {
        } else if i == 5 {
        } else if i == 6 {
        } else {
        }
    }
}

proof fn lemma_reason_clean(code: u16)
    ensures
        forall|i: int|
            0 <= i < reason_phrase(code).len() ==> reason_phrase(code)[i] != 13 && reason_phrase(
                code,
            )[i] != 10,
{
    let b = reason_phrase(code);
    assert forall|i: int| 0 <= i < b.len() implies b[i] != 13 && b[i] != 10 by {
        if i == 0 {
        } else if i == 1 {
        } else if i == 2 {
        } else if i == 3 {
        } else if i == 4 {
        } else if i == 5 {
        } else if i == 6 {
        } else if i == 7 {
        } else if i == 8 {
        } else if i == 9 {
        } else if i == 10 {
        } else if i == 11 {
        } else if i == 12 {
        } else if i == 13 {
        } else if i == 14 {
        } else if i == 15 {
        } else if i == 16 {
        } else if i == 17 {
        } else if i == 18 {
        } else if i == 19 {
        } else {
        }
    }
}

proof fn lemma_cl_name_clean()
    ensures
        forall|i: int|
            0 <= i < content_length_name().len() ==> content_length_name()[i] != 13
                && content_length_name()[i] != 10 && content_length_name()[i] != 58,
{
    let b = content_length_name();
    assert forall|i: int| 0 <= i < b.len() implies b[i] != 13 && b[i] != 10 && b[i] != 58 by {
        if i == 0 {
        } else if i == 1 {
        } else if i == 2 {
        } else if i == 3 {
        } else if i == 4 {
        } else if i == 5 {
        } else if i == 6 {
        } else if i == 7 {
        } else if i == 8 {
        } else if i == 9 {
        } else if i == 10 {
        } else if i == 11 {
        } else if i == 12 {
        } else {
        }
    }
}

proof fn lemma_trim_padded(v: Seq<u8>)
    requires
        v.len() > 0 ==> !is_ws(v[0]) && !is_ws(v.last()),
    ensures
        trim(seq![32u8] + v) == v,
{
    let x = seq![32u8] + v;
    assert(x[0] == 32);
    assert(x.skip(1) =~= v);
    assert(trim_front(x) == trim_front(v));
    if v.len() > 0 {
        assert(trim_front(v) == v);
        assert(trim_back(v) == v);
    }
}

proof fn lemma_parse_header_block(hs: Seq<(Seq<u8>, Seq<u8>)>, tail: Seq<u8>)
    requires
        wire_safe_headers(hs),
    ensures
        parse_headers(header_block(hs) + seq![13u8, 10u8] + tail) == Ok::<
            (Seq<(Seq<u8>, Seq<u8>)>, Seq<u8>),
            HttpError,
        >((hs, tail)),
    decreases hs.len(),
{
    let x = header_block(hs) + seq![13u8, 10u8] + tail;
    if hs.len() == 0 {
        assert(header_block(hs) == Seq::<u8>::empty());
        assert(x[0] == 13) by {
            assert((header_block(hs) + seq![13u8, 10u8])[0] == 13);
        }
        assert(x[1] == 10) by {
            assert((header_block(hs) + seq![13u8, 10u8])[1] == 10);
        }
        assert(x.len() >= 2);
        assert(find_crlf(x) == 0);
        assert(x.skip(2) =~= tail);
        assert(hs =~= Seq::<(Seq<u8>, Seq<u8>)>::empty());
    } else {
        let h = hs[0];
        assert(wire_safe_header(h));
        let pre = h.0 + seq![58u8, 32u8] + h.1;
        let rest = header_block(hs.skip(1)) + seq![13u8, 10u8] + tail;
        assert(header_block(hs) == header_line(h) + header_block(hs.skip(1)));
        assert(header_line(h) =~= pre + seq![13u8, 10u8]);
        assert(x =~= pre + seq![13u8, 10u8] + rest);
        assert forall|i: int| 0 <= i < pre.len() implies pre[i] != 13 && pre[i] != 10 by {
            let n0 = h.0.len() as int;
            if i < n0 {
                assert(pre[i] == h.0[i]) by {
                    assert((h.0 + seq![58u8, 32u8])[i] == h.0[i]);
                }
            } else if i == n0 {
                assert(pre[i] == 58) by {
                    assert((h.0 + seq![58u8, 32u8])[i] == 58);
                }
            } else if i == n0 + 1 {
                assert(pre[i] == 32) by {
                    assert((h.0 + seq![58u8, 32u8])[i] == 32);
                }
            } else {
                assert(pre[i] == h.1[i - n0 - 2]);
            }
        }
        lemma_find_crlf_concat(pre, rest);
        let e = find_crlf(x);
        assert(e == pre.len());
        assert(e >= 2);
        assert(x.len() >= e + 2);
        let line = x.take(e);
        assert(line =~= pre);
        assert(pre =~= h.0 + seq![58u8] + (seq![32u8] + h.1));
        lemma_find_byte_concat(h.0, 58u8, seq![32u8] + h.1);
        let c = find_byte(line, 58);
        assert(c == h.0.len());
        assert(line.take(c) =~= h.0);
        assert(line.skip(c + 1) =~= seq![32u8] + h.1);
        lemma_trim_padded(h.1);
        assert(trim(line.skip(c + 1)) == h.1);
        assert(x.skip(e + 2) =~= rest);
        assert(wire_safe_headers(hs.skip(1))) by {
            assert forall|k: int|
                0 <= k < hs.skip(1).len() implies wire_safe_header(#[trigger] hs.skip(1)[k]) by {
                assert(hs.skip(1)[k] == hs[k + 1]);
            }
        }
        lemma_parse_header_block(hs.skip(1), tail);
        assert(seq![(line.take(c), trim(line.skip(c + 1)))] + hs.skip(1) =~= hs) by {
            assert(line.take(c) == h.0);
            assert(seq![(h.0, h.1)][0] == (h.0, h.1));
        }
    }
}

/// Round trip: a response serialized to the wire is read back by a
/// conformant client with the same status code, the same headers plus
/// the automatic `Content-Length`, and exactly the body bytes. It holds
/// of every body and of all headers that can survive the wire
/// (`wire_safe_headers`) when the caller set no `Content-Length` of
/// their own.
pub proof fn lemma_serialize_round_trip(
    v: HttpVersion,
    code: u16,
    hs: Seq<(Seq<u8>, Seq<u8>)>,
    body: Seq<u8>,
)
    requires
        wire_safe_headers(hs),
        lookup_header(hs, content_length_name()) is None,
        body.len() <= usize::MAX,
    ensures
        parse_response_spec(serialize_spec(v, code, hs, body)) == Some::<
            (u16, Seq<(Seq<u8>, Seq<u8>)>, Seq<u8>),
        >((code, out_headers(hs, body.len()), body)),
{
    let cl_pair = (content_length_name(), dec_rep(body.len()));
    let hs2 = out_headers(hs, body.len());
    assert(hs2 == hs.push(cl_pair));
    let x = serialize_spec(v, code, hs, body);
    let digits = dec_rep(code as nat);
    let sl_content = version_bytes(v) + seq![32u8] + digits + seq![32u8] + reason_phrase(code);
    let rest = header_block(hs2) + seq![13u8, 10u8] + body;
    assert(x =~= sl_content + seq![13u8, 10u8] + rest);
    lemma_version_clean(v);
    lemma_reason_clean(code);
    lemma_dec_rep_digits(code as nat);
    lemma_dec_rep_digits(body.len());
    let n0 = version_bytes(v).len() as int;
    let n1 = digits.len() as int;
    assert forall|i: int| 0 <= i < sl_content.len() implies sl_content[i] != 13 && sl_content[i]
        != 10 by {
        if i < n0 {
            assert(sl_content[i] == version_bytes(v)[i]);
        } else if i == n0 {
            assert(sl_content[i] == 32);
        } else if i < n0 + 1 + n1 {
            assert(sl_content[i] == digits[i - n0 - 1]);
            assert(is_digit(sl_content[i]));
        } else if i == n0 + 1 + n1 {
            assert(sl_content[i] == 32);
        } else {
            assert(sl_content[i] == reason_phrase(code)[i - n0 - n1 - 2]);
        }
    }
    lemma_find_crlf_concat(sl_content, rest);
    let e = find_crlf(x);
    assert(e == sl_content.len());
    assert(x.len() >= e + 2);
    let line = x.take(e);
    assert(line =~= sl_content);
    assert(line =~= version_bytes(v) + seq![32u8] + (digits + seq![32u8] + reason_phrase(code)));
    lemma_find_byte_concat(version_bytes(v), 32u8, digits + seq![32u8] + reason_phrase(code));
    let i = find_byte(line, 32);
    assert(i == n0);
    let r2 = line.skip(i + 1);
    assert(r2 =~= digits + seq![32u8] + reason_phrase(code));
    assert forall|k: int| 0 <= k < digits.len() implies digits[k] != 32 by {
        assert(is_digit(digits[k]));
    }
    lemma_find_byte_concat(digits, 32u8, reason_phrase(code));
    let j = find_byte(r2, 32);
    assert(j == n1);
    assert(r2.take(j) =~= digits);
    assert(dec_val(digits) == code as nat);
    assert(x.skip(e + 2) =~= header_block(hs2) + seq![13u8, 10u8] + body);
    lemma_cl_name_clean();
    assert(wire_safe_header(cl_pair)) by {
        assert forall|k: int| 0 <= k < cl_pair.1.len() implies cl_pair.1[k] != 13 && cl_pair.1[k]
            != 10 by {
            assert(is_digit(cl_pair.1[k]));
        }
        if cl_pair.1.len() > 0 {
            assert(is_digit(cl_pair.1[0]));
            assert(is_digit(cl_pair.1.last()));
        }
    }
    assert(wire_safe_headers(hs2)) by {
        assert forall|k: int| 0 <= k < hs2.len() implies wire_safe_header(#[trigger] hs2[k]) by {
            if k < hs.len() {
                assert(hs2[k] == hs[k]);
            } else {
                assert(hs2[k] == cl_pair);
            }
        }
    }
    lemma_parse_header_block(hs2, body);
    assert(name_eq_ci(content_length_name(), content_length_name()));
    assert(hs2.last() == cl_pair);
    assert(lookup_header(hs2, content_length_name()) == Some(dec_rep(body.len())));
    assert(dec_val(dec_rep(body.len())) == body.len());
    assert(body.take(body.len() as int) =~= body);
}

impl Response {
    /// A response with status 200, no headers, and an empty body.
    pub fn new() -> (r: Response)
        ensures
            r@.code == 200,
            r@.version == HttpVersion::V1_1,
            r@.headers == Seq::<(Seq<u8>, Seq<u8>)>::empty(),
            r@.body == BodyV::Bytes(Seq::<u8>::empty()),
    {
        let r = Response {
            code: 200,
            version: HttpVersion::V1_1,
            headers: Vec::new(),
            body: Body::Bytes(Vec::new()),
        };
        proof {
            assert(hviews(r.headers@) =~= Seq::<(Seq<u8>, Seq<u8>)>::empty());
        }
        r
    }

    /// Sets the status code.
    pub fn set_code(&mut self, code: u16)
        ensures
            final(self)@ == (RespView { code, ..old(self)@ }),
    {
        self.code = code;
    }

    /// Appends a header.
    pub fn set_header(&mut self, name: &[u8], value: &[u8])
        ensures
            final(self)@ == (RespView {
                headers: old(self)@.headers.push((name@, value@)),
                ..old(self)@
            }),
    {
        let mut n: Vec<u8> = Vec::new();
        append_range(&mut n, name, 0, name.len());
        let mut v: Vec<u8> = Vec::new();
        append_range(&mut v, value, 0, value.len());
        proof {
            assert(n@ =~= name@);
            assert(v@ =~= value@);
        }
        self.headers.push((n, v));
        proof {
            assert(hviews(self.headers@) =~= hviews(old(self).headers@).push((name@, value@)));
        }
    }

    /// Replaces the body with the given bytes.
    pub fn set_body_bytes(&mut self, body: Vec<u8>)
        ensures
            final(self)@ == (RespView { body: BodyV::Bytes(body@), ..old(self)@ }),
    {
        self.body = Body::Bytes(body);
    }

    /// Replaces the body with the text's bytes; when no `Content-Type`
    /// header is set, a `text/html` one is appended.
    pub fn set_body_text(&mut self, text: &str)
        ensures
            final(self)@.code == old(self)@.code,
            final(self)@.version == old(self)@.version,
            final(self)@.body == BodyV::Bytes(text.spec_bytes()),
            final(self)@.headers == (if lookup_header(old(self)@.headers, content_type_name()) is Some {
                old(self)@.headers
            } else {
                old(self)@.headers.push((content_type_name(), mime_text_html()))
            }),
    {
        let ct = content_type_name_vec();
        let has_ct = match lookup_ci(&self.headers, ct.as_slice()) {
            Some(_) => true,
            None => false,
        };
        if !has_ct {
            let mut m: Vec<u8> = Vec::new();
            m.push(116u8);
            m.push(101u8);
            m.push(120u8);
            m.push(116u8);
            m.push(47u8);
            m.push(104u8);
            m.push(116u8);
            m.push(109u8);
            m.push(108u8);
            proof {
                assert(m@ =~= mime_text_html());
            }
            let ghost old_headers = self.headers@;
            self.headers.push((ct, m));
            proof {
                assert(hviews(self.headers@) =~~= hviews(old_headers).push(
                    (content_type_name(), mime_text_html()),
                ));
            }
        }
        self.body = Body::Bytes(text.as_bytes_vec());
    }

    /// Marks the body as file-backed; `path`'s bytes are read by the
    /// caller at serialization time.
    pub fn set_body_file(&mut self, path: Vec<u8>)
        ensures
            final(self)@ == (RespView { body: BodyV::File(path@), ..old(self)@ }),
    {
        self.body = Body::File(path);
    }

    /// The path of a file-backed body, if any; what the caller must
    /// resolve before serialization.
    pub fn file_path(&self) -> (r: Option<&Vec<u8>>)
        ensures
            match r {
                Some(p) => self@.body == BodyV::File(p@),
                None => self@.body is Bytes,
            },
    {
        match &self.body {
            Body::File(p) => Some(p),
            Body::Bytes(_) => None,
        }
    }

    /// Serializes an in-memory response to its exact wire bytes.
    pub fn serialize(&self) -> (out: Vec<u8>)
        requires
            self.body is Bytes,
        ensures
            out@ == serialize_spec(self@.version, self@.code, self@.headers, self@.body->Bytes_0),
    {
        match &self.body {
            Body::Bytes(b) => serialize_core(&self.version, self.code, &self.headers, b.as_slice()),
            Body::File(_) => {
                // unreachable under the precondition
                proof {
                    assert(false);
                }
                Vec::new()
            },
        }
    }

    /// Serializes a file-backed response, given what the caller read from
    /// the file: its bytes, or `None` when the read failed. A failed read
    /// yields the stock `404`, never a fault.
    pub fn serialize_resolved(&self, resolved: Option<Vec<u8>>) -> (out: Vec<u8>)
        requires
            self.body is File,
        ensures
            match resolved {
                Some(data) => out@ == serialize_spec(
                    self@.version,
                    self@.code,
                    with_file_type(self@.headers, self@.body->File_0),
                    data@,
                ),
                None => out@ == serialize_spec(
                    HttpVersion::V1_1,
                    404,
                    Seq::<(Seq<u8>, Seq<u8>)>::empty(),
                    reason_phrase(404),
                ),
            },
    {
        match resolved {
            Some(data) => {
                let path = match &self.body {
                    Body::File(p) => p,
                    Body::Bytes(_) => {
                        proof {
                            assert(false);
                        }
                        return Vec::new();
                    },
                };
                let ct_name = content_type_name_vec();
                let has_ct = match lookup_ci(&self.headers, ct_name.as_slice()) {
                    Some(_) => true,
                    None => false,
                };
                let mut hs = clone_headers(&self.headers);
                if !has_ct {
                    hs.push((ct_name, mime_for_path(path.as_slice())));
                    proof {
                        assert(hviews(hs@) =~= hviews(self.headers@).push(
                            (content_type_name(), mime_for(path@)),
                        ));
                    }
                }
                serialize_core(&self.version, self.code, &hs, data.as_slice())
            },
            None => {
                let nf = not_found_response();
                let out = nf.serialize();
                proof {
                    assert(nf@.body->Bytes_0 == reason_phrase(404));
                }
                out
            },
        }
    }
}

} // verus!
