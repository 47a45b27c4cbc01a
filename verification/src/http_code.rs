//! The status catalog: numeric status codes and their canonical reason
//! phrases, with a generic phrase for codes outside the catalog.

use vstd::prelude::*;

verus! {

broadcast use vstd::group_vstd_default;

/// A numeric HTTP status code. Its reason phrase comes from the catalog.
#[derive(Clone, Copy, Debug, PartialEq, Eq, Structural)]
pub struct HttpCode {
    pub code: u16,
}

/// Canonical reason phrase for the catalogued codes; `Unknown` otherwise.
pub open spec fn reason_phrase(code: u16) -> Seq<u8> {
    if code == 200 {
        seq![79u8, 75u8]
    } else if code == 201 {
        seq![67u8, 114u8, 101u8, 97u8, 116u8, 101u8, 100u8]
    } else if code == 301 {
        seq![77u8, 111u8, 118u8, 101u8, 100u8, 32u8, 80u8, 101u8, 114u8, 109u8, 97u8, 110u8, 101u8, 110u8, 116u8, 108u8, 121u8]
    } else if code == 302 {
        seq![70u8, 111u8, 117u8, 110u8, 100u8]
    } else if code == 400 {
        seq![66u8, 97u8, 100u8, 32u8, 82u8, 101u8, 113u8, 117u8, 101u8, 115u8, 116u8]
    } else if code == 401 {
        seq![85u8, 110u8, 97u8, 117u8, 116u8, 104u8, 111u8, 114u8, 105u8, 122u8, 101u8, 100u8]
    } else if code == 403 {
        seq![70u8, 111u8, 114u8, 98u8, 105u8, 100u8, 100u8, 101u8, 110u8]
    } else if code == 404 {
        seq![78u8, 111u8, 116u8, 32u8, 70u8, 111u8, 117u8, 110u8, 100u8]
    } else if code == 500 {
        seq![73u8, 110u8, 116u8, 101u8, 114u8, 110u8, 97u8, 108u8, 32u8, 83u8, 101u8, 114u8, 118u8, 101u8, 114u8, 32u8, 69u8, 114u8, 114u8, 111u8, 114u8]
    } else {
        seq![85u8, 110u8, 107u8, 110u8, 111u8, 119u8, 110u8]
    }
}

/// Builds the reason phrase for `code`.
pub fn reason_for(code: u16) -> (v: Vec<u8>)
    ensures
        v@ == reason_phrase(code),
{
    let mut v: Vec<u8> = Vec::new();
    if code == 200 {
        v.push(79u8);
        v.push(75u8);
    } else if code == 201 {
        v.push(67u8);
        v.push(114u8);
        v.push(101u8);
        v.push(97u8);
        v.push(116u8);
        v.push(101u8);
        v.push(100u8);
    } else if code == 301 {
        v.push(77u8);
        v.push(111u8);
        v.push(118u8);
        v.push(101u8);
        v.push(100u8);
        v.push(32u8);
        v.push(80u8);
        v.push(101u8);
        v.push(114u8);
        v.push(109u8);
        v.push(97u8);
        v.push(110u8);
        v.push(101u8);
        v.push(110u8);
        v.push(116u8);
        v.push(108u8);
        v.push(121u8);
    } else if code == 302 {
        v.push(70u8);
        v.push(111u8);
        v.push(117u8);
        v.push(110u8);
        v.push(100u8);
    } else if code == 400 {
        v.push(66u8);
        v.push(97u8);
        v.push(100u8);
        v.push(32u8);
        v.push(82u8);
        v.push(101u8);
        v.push(113u8);
        v.push(117u8);
        v.push(101u8);
        v.push(115u8);
        v.push(116u8);
    } else if code == 401 {
        v.push(85u8);
        v.push(110u8);
        v.push(97u8);
        v.push(117u8);
        v.push(116u8);
        v.push(104u8);
        v.push(111u8);
        v.push(114u8);
        v.push(105u8);
        v.push(122u8);
        v.push(101u8);
        v.push(100u8);
    } else if code == 403 {
        v.push(70u8);
        v.push(111u8);
        v.push(114u8);
        v.push(98u8);
        v.push(105u8);
        v.push(100u8);
        v.push(100u8);
        v.push(101u8);
        v.push(110u8);
    } else if code == 404 {
        v.push(78u8);
        v.push(111u8);
        v.push(116u8);
        v.push(32u8);
        v.push(70u8);
        v.push(111u8);
        v.push(117u8);
        v.push(110u8);
        v.push(100u8);
    } else if code == 500 {
        v.push(73u8);
        v.push(110u8);
        v.push(116u8);
        v.push(101u8);
        v.push(114u8);
        v.push(110u8);
        v.push(97u8);
        v.push(108u8);
        v.push(32u8);
        v.push(83u8);
        v.push(101u8);
        v.push(114u8);
        v.push(118u8);
        v.push(101u8);
        v.push(114u8);
        v.push(32u8);
        v.push(69u8);
        v.push(114u8);
        v.push(114u8);
        v.push(111u8);
        v.push(114u8);
    } else {
        v.push(85u8);
        v.push(110u8);
        v.push(107u8);
        v.push(110u8);
        v.push(111u8);
        v.push(119u8);
        v.push(110u8);
    }
    proof {
        assert(v@ =~= reason_phrase(code));
    }
    v
}

impl HttpCode {
    /// Wraps a numeric code.
    pub fn new(code: u16) -> (r: HttpCode)
        ensures
            r.code == code,
    {
        HttpCode { code }
    }

    /// The catalogued reason phrase of this code.
    pub fn reason(&self) -> (r: Vec<u8>)
        ensures
            r@ == reason_phrase(self.code),
    {
        reason_for(self.code)
    }
}

} // verus!
