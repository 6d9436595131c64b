//! Double-submit-cookie protection against cross-site request forgery:
//! a keyed, time-limited (cookie, token) pair, a path-template matcher
//! used to re-route rejected requests, and a streaming transform that
//! inserts the token into HTML forms.

use vstd::prelude::*;

pub mod bytes;
pub mod crypto;
pub mod encoding;
pub mod error;
pub mod fairing;
pub mod form;
pub mod injector;
pub mod path;

pub use crate::crypto::CsrfProtection;
pub use crate::error::CsrfError;
pub use crate::fairing::{CsrfFairing, CsrfFairingBuilder, Method};
pub use crate::injector::StreamInjector;
pub use crate::path::PathPattern;

verus! {

/// Name of the cookie that carries the cookie half of a pair.
pub const CSRF_COOKIE_NAME: &'static str = "csrf";

/// Name of the form field that carries the token half of a pair.
pub const CSRF_FORM_FIELD: &'static str = "csrf-token";

} // verus!
