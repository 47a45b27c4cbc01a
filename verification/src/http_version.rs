//! The HTTP version token: parsing `HTTP/1.0` / `HTTP/1.1` and writing the
//! token back out.

use vstd::prelude::*;

verus! {

broadcast use vstd::group_vstd_default;

/// The protocol versions this core speaks. Any other token is rejected at
/// parse time.
#[derive(Clone, Copy, Debug, PartialEq, Eq, Structural)]
pub enum HttpVersion {
    V1_0,
    V1_1,
}

/// Canonical wire token of a version.
pub open spec fn version_bytes(v: HttpVersion) -> Seq<u8> {
    match v {
        HttpVersion::V1_0 => seq![72u8, 84u8, 84u8, 80u8, 47u8, 49u8, 46u8, 48u8],
        HttpVersion::V1_1 => seq![72u8, 84u8, 84u8, 80u8, 47u8, 49u8, 46u8, 49u8],
    }
}

/// The version a token denotes, or `None` for an unsupported token.
pub open spec fn parse_version_tok(t: Seq<u8>) -> Option<HttpVersion> {
    if t == version_bytes(HttpVersion::V1_0) {
        Some(HttpVersion::V1_0)
    } else if t == version_bytes(HttpVersion::V1_1) {
        Some(HttpVersion::V1_1)
    } else {
        None
    }
}

/// Parses a version token.
pub fn parse_version(t: &[u8]) -> (r: Option<HttpVersion>)
    ensures
        r == parse_version_tok(t@),
{
    let prefix_ok = t.len() == 8 && t[0] == 72u8 && t[1] == 84u8 && t[2] == 84u8 && t[3] == 80u8
        && t[4] == 47u8 && t[5] == 49u8 && t[6] == 46u8;
    if prefix_ok {
        if t[7] == 48u8 {
            proof {
                assert(t@ =~= version_bytes(HttpVersion::V1_0));
            }
            Some(HttpVersion::V1_0)
        } else if t[7] == 49u8 {
            proof {
                assert(t@ =~= version_bytes(HttpVersion::V1_1));
            }
            Some(HttpVersion::V1_1)
        } else {
            None
        }
    } else {
        None
    }
}

/// Appends the wire token of `v` to `out`.
pub fn append_version(out: &mut Vec<u8>, v: &HttpVersion)
    ensures
        final(out)@ == old(out)@ + version_bytes(*v),
{
    out.push(72u8);
    out.push(84u8);
    out.push(84u8);
    out.push(80u8);
    out.push(47u8);
    out.push(49u8);
    out.push(46u8);
    match v {
        HttpVersion::V1_0 => out.push(48u8),
        HttpVersion::V1_1 => out.push(49u8),
    }
    proof {
        assert(out@ =~= old(out)@ + version_bytes(*v));
    }
}

} // verus!
