//! The error kinds of the registry core and the HTTP status each maps to.

use vstd::prelude::*;

verus! {

/// Every failure the core can report, by kind.
#[derive(Clone, Copy, PartialEq, Eq, Structural, Debug)]
pub enum RegistryError {
    /// Malformed payload, bad version ordering at parse time, bad interval string.
    InvalidRequest,
    /// Missing or unknown token.
    Unauthorized,
    /// Not an owner, or a write the account has no right to.
    Forbidden,
    /// Missing package or version.
    NotFound,
    /// Duplicate version, already-yanked or not-yanked toggle.
    Conflict,
    /// Checksum mismatch after all upstream attempts.
    Integrity,
    /// Git subprocess or upstream fetch failure.
    External,
    /// Storage failure.
    Internal,
}

impl RegistryError {
    /// The HTTP status code this kind maps to.
    pub fn status_code(&self) -> (code: u16)
        ensures
            code == self.spec_status_code(),
    {
        match self {
            RegistryError::InvalidRequest => 400,
            RegistryError::Unauthorized => 401,
            RegistryError::Forbidden => 403,
            RegistryError::NotFound => 404,
            RegistryError::Conflict => 409,
            RegistryError::Integrity => 502,
            RegistryError::External => 502,
            RegistryError::Internal => 500,
        }
    }

    pub open spec fn spec_status_code(&self) -> u16 {
        match self {
            RegistryError::InvalidRequest => 400u16,
            RegistryError::Unauthorized => 401u16,
            RegistryError::Forbidden => 403u16,
            RegistryError::NotFound => 404u16,
            RegistryError::Conflict => 409u16,
            RegistryError::Integrity => 502u16,
            RegistryError::External => 502u16,
            RegistryError::Internal => 500u16,
        }
    }
}

} // verus!
