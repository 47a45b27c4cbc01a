//! Small helpers for handler authors.

use vstd::prelude::*;

use crate::http_version::HttpVersion;
use crate::response::Body;
use crate::response::BodyV;
use crate::response::Response;
use crate::wire::append_range;
use crate::wire::hviews;
use vstd::string::StringSliceAdditionalSpecFns;

verus! {

broadcast use vstd::group_vstd_default, crate::wire::lemma_hviews_len, crate::wire::lemma_hviews_index;

/// The `Location` header name.
pub open spec fn location_name() -> Seq<u8> {
    seq![76u8, 111u8, 99u8, 97u8, 116u8, 105u8, 111u8, 110u8]
}

/// A redirect response: the given status code and a `Location` header
/// equal to `location`, with an empty body.
pub fn redirect_with_code(location: &str, code: u16) -> (r: Response)
    ensures
        r@.code == code,
        r@.version == HttpVersion::V1_1,
        r@.headers == seq![(location_name(), location.spec_bytes())],
        r@.body == BodyV::Bytes(Seq::<u8>::empty()),
{
    let mut name: Vec<u8> = Vec::new();
    name.push(76u8);
    name.push(111u8);
    name.push(99u8);
    name.push(97u8);
    name.push(116u8);
    name.push(105u8);
    name.push(111u8);
    name.push(110u8);
    proof {
        assert(name@ =~= location_name());
    }
    let loc = location.as_bytes();
    let mut value: Vec<u8> = Vec::new();
    append_range(&mut value, loc, 0, loc.len());
    proof {
        assert(value@ =~= location.spec_bytes());
    }
    let mut headers: Vec<(Vec<u8>, Vec<u8>)> = Vec::new();
    headers.push((name, value));
    let r = Response { code, version: HttpVersion::V1_1, headers, body: Body::Bytes(Vec::new()) };
    proof {
        assert(hviews(r.headers@) =~= seq![(location_name(), location.spec_bytes())]);
    }
    r
}

/// A redirect with the conventional `302` status.
pub fn redirect(location: &str) -> (r: Response)
    ensures
        r@.code == 302,
        r@.version == HttpVersion::V1_1,
        r@.headers == seq![(location_name(), location.spec_bytes())],
        r@.body == BodyV::Bytes(Seq::<u8>::empty()),
{
    redirect_with_code(location, 302)
}

} // verus!
