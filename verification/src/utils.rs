//! Helpers for handler authors.

pub use crate::server_utils::location_name;
pub use crate::server_utils::redirect;
pub use crate::server_utils::redirect_with_code;
