//! A minimal HTTP/1.x server core: request-line and header parsing, route
//! registration with first-match dispatch, and byte-exact response
//! serialization. Everything here is pure logic over bytes, stated in
//! contracts; sockets and file reads belong to the embedding application,
//! which hands plain byte strings in and out.

use vstd::prelude::*;

pub mod decoders;
mod http_code;
mod http_route;
mod http_version;
mod request;
mod response;
mod server;
mod server_utils;
pub mod utils;
mod wire;

pub use http_code::HttpCode;
pub use http_code::reason_phrase;
pub use http_route::HttpMethod;
pub use http_route::HttpRoute;
pub use http_route::MethodV;
pub use http_version::HttpVersion;
pub use request::Request;
pub use request::ReqView;
pub use request::decode_form;
pub use request::decode_form_spec;
pub use request::parse_request;
pub use request::parse_request_spec;
pub use response::Body;
pub use response::BodyV;
pub use response::Response;
pub use response::RespView;
pub use response::bad_request_response;
pub use response::bad_request_view;
pub use response::header_block;
pub use response::header_line;
pub use response::lemma_serialize_round_trip;
pub use response::mime_for;
pub use response::not_found_response;
pub use response::not_found_view;
pub use response::out_headers;
pub use response::parse_response_spec;
pub use response::serialize_spec;
pub use response::status_line;
pub use response::wire_safe_header;
pub use response::wire_safe_headers;
pub use request::lookup_header;
pub use request::content_length_name;
pub use http_code::reason_for;
pub use server::route_matches;
pub use server::Dispatched;
pub use server::HttpServer;
pub use server_utils::redirect;
pub use server_utils::redirect_with_code;

verus! {

broadcast use vstd::group_vstd_default;

/// What can go wrong while reading a request from the wire. Each of these is
/// absorbed into a 400 response by the dispatcher; none is fatal.
#[derive(Clone, Copy, Debug, PartialEq, Eq, Structural)]
pub enum HttpError {
    /// The version token is neither `HTTP/1.0` nor `HTTP/1.1`.
    UnsupportedVersion,
    /// The request line is missing, or has fewer than three tokens, or its
    /// version token is unsupported.
    MalformedRequestLine,
    /// A header line has no colon, or `Content-Length` is not a number the
    /// machine can hold, or announces more body bytes than were sent.
    MalformedHeader,
}

/// A fresh server with no routes and the stock `404` default response.
pub fn new<H>() -> (s: HttpServer<H>)
    ensures
        s.routes@.len() == 0,
        s.default_response@ == response::not_found_view(),
{
    HttpServer::new()
}

/// A fresh server with no routes and the given default response, returned
/// whenever no route matches a request.
pub fn create_server<H>(default_response: Response) -> (s: HttpServer<H>)
    ensures
        s.routes@.len() == 0,
        s.default_response == default_response,
{
    let mut ret = HttpServer::new();
    ret.default_response = default_response;
    ret
}

} // verus!
