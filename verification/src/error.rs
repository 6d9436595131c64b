//! The ways in which a credential or a configuration can be refused.

use vstd::prelude::*;

verus! {

/// Why a credential or a configuration was refused. A caller treats every
/// one of them as a violation.
#[derive(Clone, Copy, PartialEq, Eq, Debug, Structural)]
pub enum CsrfError {
    /// The encoded bytes have the wrong length or structure.
    MalformedInput,
    /// The authentication tag does not belong to the content under this key.
    InvalidMac,
    /// The pair was issued longer ago than the configured duration.
    Expired,
    /// The token does not belong to the presented cookie.
    BindingMismatch,
    /// A path template is not acceptable where it is used.
    ConfigError,
}

impl CsrfError {
    /// A short description of the error.
    pub fn message(&self) -> (text: &'static str)
        ensures
            text@ == match *self {
                CsrfError::MalformedInput => "malformed input"@,
                CsrfError::InvalidMac => "invalid authentication tag"@,
                CsrfError::Expired => "expired"@,
                CsrfError::BindingMismatch => "token does not match cookie"@,
                CsrfError::ConfigError => "invalid path template"@,
            },
    {
        match self {
            CsrfError::MalformedInput => "malformed input",
            CsrfError::InvalidMac => "invalid authentication tag",
            CsrfError::Expired => "expired",
            CsrfError::BindingMismatch => "token does not match cookie",
            CsrfError::ConfigError => "invalid path template",
        }
    }
}

} // verus!
