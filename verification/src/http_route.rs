//! Request methods and route entries. `ANY` is a registration-time wildcard
//! that matches every incoming method; a method token outside the catalogue
//! is preserved as `Unknown` rather than rejected.

use vstd::prelude::*;

use crate::wire::bytes_eq;
use crate::wire::clone_bytes;

verus! {

broadcast use vstd::group_vstd_default;

/// A request method. `ANY` never appears in a parsed request; it only
/// stands in a registered route.
#[derive(Debug, PartialEq, Eq)]
pub enum HttpMethod {
    GET,
    POST,
    PUT,
    DELETE,
    HEAD,
    OPTIONS,
    PATCH,
    TRACE,
    CONNECT,
    ANY,
    Unknown(Vec<u8>),
}

/// Mathematical image of `HttpMethod`: the unknown token as a byte string.
pub enum MethodV {
    GET,
    POST,
    PUT,
    DELETE,
    HEAD,
    OPTIONS,
    PATCH,
    TRACE,
    CONNECT,
    ANY,
    Unknown(Seq<u8>),
}

impl View for HttpMethod {
    type V = MethodV;

    open spec fn view(&self) -> MethodV {
        match self {
            HttpMethod::GET => MethodV::GET,
            HttpMethod::POST => MethodV::POST,
            HttpMethod::PUT => MethodV::PUT,
            HttpMethod::DELETE => MethodV::DELETE,
            HttpMethod::HEAD => MethodV::HEAD,
            HttpMethod::OPTIONS => MethodV::OPTIONS,
            HttpMethod::PATCH => MethodV::PATCH,
            HttpMethod::TRACE => MethodV::TRACE,
            HttpMethod::CONNECT => MethodV::CONNECT,
            HttpMethod::ANY => MethodV::ANY,
            HttpMethod::Unknown(t) => MethodV::Unknown(t@),
        }
    }
}

impl Clone for HttpMethod {
    fn clone(&self) -> (r: Self)
        ensures
            r@ == self@,
    {
        match self {
            HttpMethod::GET => HttpMethod::GET,
            HttpMethod::POST => HttpMethod::POST,
            HttpMethod::PUT => HttpMethod::PUT,
            HttpMethod::DELETE => HttpMethod::DELETE,
            HttpMethod::HEAD => HttpMethod::HEAD,
            HttpMethod::OPTIONS => HttpMethod::OPTIONS,
            HttpMethod::PATCH => HttpMethod::PATCH,
            HttpMethod::TRACE => HttpMethod::TRACE,
            HttpMethod::CONNECT => HttpMethod::CONNECT,
            HttpMethod::ANY => HttpMethod::ANY,
            HttpMethod::Unknown(t) => HttpMethod::Unknown(clone_bytes(t)),
        }
    }
}

/// The method a request-line token denotes; tokens outside the catalogue
/// are carried along unchanged.
pub open spec fn parse_method_tok(t: Seq<u8>) -> MethodV {
    if t == seq![71u8, 69u8, 84u8] {
        MethodV::GET
    } else if t == seq![80u8, 79u8, 83u8, 84u8] {
        MethodV::POST
    } else if t == seq![80u8, 85u8, 84u8] {
        MethodV::PUT
    } else if t == seq![68u8, 69u8, 76u8, 69u8, 84u8, 69u8] {
        MethodV::DELETE
    } else if t == seq![72u8, 69u8, 65u8, 68u8] {
        MethodV::HEAD
    } else if t == seq![79u8, 80u8, 84u8, 73u8, 79u8, 78u8, 83u8] {
        MethodV::OPTIONS
    } else if t == seq![80u8, 65u8, 84u8, 67u8, 72u8] {
        MethodV::PATCH
    } else if t == seq![84u8, 82u8, 65u8, 67u8, 69u8] {
        MethodV::TRACE
    } else if t == seq![67u8, 79u8, 78u8, 78u8, 69u8, 67u8, 84u8] {
        MethodV::CONNECT
    } else {
        MethodV::Unknown(t)
    }
}

fn tok_get() -> (v: Vec<u8>)
    ensures
        v@ == seq![71u8, 69u8, 84u8],
{
    let mut v: Vec<u8> = Vec::new();
    v.push(71u8);
    v.push(69u8);
    v.push(84u8);
    proof {
        assert(v@ =~= seq![71u8, 69u8, 84u8]);
    }
    v
}

fn tok_post() -> (v: Vec<u8>)
    ensures
        v@ == seq![80u8, 79u8, 83u8, 84u8],
{
    let mut v: Vec<u8> = Vec::new();
    v.push(80u8);
    v.push(79u8);
    v.push(83u8);
    v.push(84u8);
    proof {
        assert(v@ =~= seq![80u8, 79u8, 83u8, 84u8]);
    }
    v
}

fn tok_put() -> (v: Vec<u8>)
    ensures
        v@ == seq![80u8, 85u8, 84u8],
{
    let mut v: Vec<u8> = Vec::new();
    v.push(80u8);
    v.push(85u8);
    v.push(84u8);
    proof {
        assert(v@ =~= seq![80u8, 85u8, 84u8]);
    }
    v
}

fn tok_delete() -> (v: Vec<u8>)
    ensures
        v@ == seq![68u8, 69u8, 76u8, 69u8, 84u8, 69u8],
{
    let mut v: Vec<u8> = Vec::new();
    v.push(68u8);
    v.push(69u8);
    v.push(76u8);
    v.push(69u8);
    v.push(84u8);
    v.push(69u8);
    proof {
        assert(v@ =~= seq![68u8, 69u8, 76u8, 69u8, 84u8, 69u8]);
    }
    v
}

fn tok_head() -> (v: Vec<u8>)
    ensures
        v@ == seq![72u8, 69u8, 65u8, 68u8],
{
    let mut v: Vec<u8> = Vec::new();
    v.push(72u8);
    v.push(69u8);
    v.push(65u8);
    v.push(68u8);
    proof {
        assert(v@ =~= seq![72u8, 69u8, 65u8, 68u8]);
    }
    v
}

fn tok_options() -> (v: Vec<u8>)
    ensures
        v@ == seq![79u8, 80u8, 84u8, 73u8, 79u8, 78u8, 83u8],
{
    let mut v: Vec<u8> = Vec::new();
    v.push(79u8);
    v.push(80u8);
    v.push(84u8);
    v.push(73u8);
    v.push(79u8);
    v.push(78u8);
    v.push(83u8);
    proof {
        assert(v@ =~= seq![79u8, 80u8, 84u8, 73u8, 79u8, 78u8, 83u8]);
    }
    v
}

fn tok_patch() -> (v: Vec<u8>)
    ensures
        v@ == seq![80u8, 65u8, 84u8, 67u8, 72u8],
{
    let mut v: Vec<u8> = Vec::new();
    v.push(80u8);
    v.push(65u8);
    v.push(84u8);
    v.push(67u8);
    v.push(72u8);
    proof {
        assert(v@ =~= seq![80u8, 65u8, 84u8, 67u8, 72u8]);
    }
    v
}

fn tok_trace() -> (v: Vec<u8>)
    ensures
        v@ == seq![84u8, 82u8, 65u8, 67u8, 69u8],
{
    let mut v: Vec<u8> = Vec::new();
    v.push(84u8);
    v.push(82u8);
    v.push(65u8);
    v.push(67u8);
    v.push(69u8);
    proof {
        assert(v@ =~= seq![84u8, 82u8, 65u8, 67u8, 69u8]);
    }
    v
}

fn tok_connect() -> (v: Vec<u8>)
    ensures
        v@ == seq![67u8, 79u8, 78u8, 78u8, 69u8, 67u8, 84u8],
{
    let mut v: Vec<u8> = Vec::new();
    v.push(67u8);
    v.push(79u8);
    v.push(78u8);
    v.push(78u8);
    v.push(69u8);
    v.push(67u8);
    v.push(84u8);
    proof {
        assert(v@ =~= seq![67u8, 79u8, 78u8, 78u8, 69u8, 67u8, 84u8]);
    }
    v
}

/// Parses a method token; unknown tokens are preserved.
pub fn parse_method(t: &[u8]) -> (m: HttpMethod)
    ensures
        m@ == parse_method_tok(t@),
{
    if bytes_eq(t, tok_get().as_slice()) {
        HttpMethod::GET
    } else if bytes_eq(t, tok_post().as_slice()) {
        HttpMethod::POST
    } else if bytes_eq(t, tok_put().as_slice()) {
        HttpMethod::PUT
    } else if bytes_eq(t, tok_delete().as_slice()) {
        HttpMethod::DELETE
    } else if bytes_eq(t, tok_head().as_slice()) {
        HttpMethod::HEAD
    } else if bytes_eq(t, tok_options().as_slice()) {
        HttpMethod::OPTIONS
    } else if bytes_eq(t, tok_patch().as_slice()) {
        HttpMethod::PATCH
    } else if bytes_eq(t, tok_trace().as_slice()) {
        HttpMethod::TRACE
    } else if bytes_eq(t, tok_connect().as_slice()) {
        HttpMethod::CONNECT
    } else {
        let mut own: Vec<u8> = Vec::new();
        let mut i: usize = 0;
        while i < t.len()
            invariant
                i <= t@.len(),
                own@ == t@.subrange(0, i as int),
            decreases t@.len() - i,
        {
            own.push(t[i]);
            proof {
                assert(own@ =~= t@.subrange(0, i + 1));
            }
            i = i + 1;
        }
        proof {
            assert(t@.subrange(0, t@.len() as int) =~= t@);
        }
        HttpMethod::Unknown(own)
    }
}

/// Exact equality of two methods, unknown tokens included.
pub fn method_eq(a: &HttpMethod, b: &HttpMethod) -> (r: bool)
    ensures
        r == (a@ == b@),
{
    match (a, b) {
        (HttpMethod::GET, HttpMethod::GET) => true,
        (HttpMethod::POST, HttpMethod::POST) => true,
        (HttpMethod::PUT, HttpMethod::PUT) => true,
        (HttpMethod::DELETE, HttpMethod::DELETE) => true,
        (HttpMethod::HEAD, HttpMethod::HEAD) => true,
        (HttpMethod::OPTIONS, HttpMethod::OPTIONS) => true,
        (HttpMethod::PATCH, HttpMethod::PATCH) => true,
        (HttpMethod::TRACE, HttpMethod::TRACE) => true,
        (HttpMethod::CONNECT, HttpMethod::CONNECT) => true,
        (HttpMethod::ANY, HttpMethod::ANY) => true,
        (HttpMethod::Unknown(x), HttpMethod::Unknown(y)) => bytes_eq(x.as_slice(), y.as_slice()),
        _ => false,
    }
}

/// One registered route: a method (possibly `ANY`), an exact path, and the
/// handler the dispatcher selects for it.
pub struct HttpRoute<H> {
    pub method: HttpMethod,
    pub path: Vec<u8>,
    pub handler: H,
}

} // verus!
