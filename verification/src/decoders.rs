//! Decoders for request bodies.

pub use crate::request::decode_form;
pub use crate::request::decode_form_spec;
