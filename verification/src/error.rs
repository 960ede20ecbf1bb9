//! The library's error type and its link to wimlib's error codes.

use vstd::prelude::*;
use crate::types::WIMLIB_ERR_INTEGRITY;
use crate::util::{push_signed_decimal, signed_decimal};

verus! {

/// `libloading::Error`, the reason a library or symbol could not be loaded.
#[verifier::external_type_specification]
#[verifier::external_body]
pub struct ExLoadError(libloading::Error);

/// Everything that can go wrong while driving wimlib.
pub enum WimError {
    /// The wimlib library could not be found or loaded.
    DllNotFound { name: String, inner: Option<libloading::Error> },
    /// The library lacks an exported function.
    SymbolNotFound { name: String, source: libloading::Error },
    /// wimlib returned a non-zero error code, with its description.
    Wimlib { code: i32, message: String },
    /// A path that cannot be handed to wimlib.
    InvalidPath(String),
    /// Any other failure, described in words.
    Other(String),
}

/// Text used when wimlib has no description for an error code.
pub open spec fn code_fallback_text(code: int) -> Seq<char> {
    "错误码 "@ + signed_decimal(code)
}

impl WimError {
    /// Whether the error reports a failed integrity check, i.e. a corrupt image.
    pub open spec fn integrity_failure(&self) -> bool {
        match self {
            WimError::Wimlib { code, .. } => *code == WIMLIB_ERR_INTEGRITY,
            _ => false,
        }
    }

    /// Whether this error means "integrity check failed / image corrupt"
    /// (wimlib error code 13).
    pub fn is_integrity_failure(&self) -> (r: bool)
        ensures
            r == self.integrity_failure(),
    {
        match self {
            WimError::Wimlib { code, .. } => *code == WIMLIB_ERR_INTEGRITY,
            _ => false,
        }
    }

    /// The error for wimlib code `code`, given wimlib's description of it
    /// (`None` when wimlib has none, in which case the code itself is quoted).
    pub fn from_code(code: i32, description: Option<String>) -> (e: WimError)
        ensures
            e matches WimError::Wimlib { code: c, message } && c == code && message@ == (
            match description {
                Some(d) => d@,
                None => code_fallback_text(code as int),
            }),
    {
        let message = match description {
            Some(d) => d,
            None => {
                let mut m = String::from_str("错误码 ");
                push_signed_decimal(&mut m, code as i64);
                m
            },
        };
        WimError::Wimlib { code, message }
    }
}

} // verus!
