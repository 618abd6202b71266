//! The error kinds that the library reports.

use vstd::prelude::*;

verus! {

/// Everything that can go wrong, folded into one closed enumeration.
/// Outside failures are mapped onto these kinds at the boundary where
/// they arise.
#[derive(Clone, Copy, Debug, PartialEq, Eq, Structural)]
pub enum Error {
    /// The operating system refused an I/O request.
    ExpectationViolation,
    /// A lookup found nothing.
    NotFound,
    /// The key-value store refused an operation.
    Database,
    /// Stored bytes could not be decoded.
    Coding,
    /// A value could not be encoded for a response.
    Serialization,
    /// The ledger network could not be reached or answered wrongly.
    SolanaClient,
    /// A caller-supplied signature did not parse.
    SolanaBadSignature,
    /// A caller-supplied account address did not parse.
    SolanaBadPubkey,
    /// A numeric field was present but not representable.
    SolanaBadNumber,
}

impl Error {
    /// The HTTP status code under which the read interface reports this
    /// error: not-found and bad-input kinds surface as client errors, all
    /// others as an internal error with no detail leaked.
    pub fn status_code(&self) -> (code: u16)
        ensures
            code == self.spec_status_code(),
    {
        match self {
            Error::NotFound => 404,
            Error::SolanaBadSignature => 400,
            Error::SolanaBadPubkey => 400,
            Error::SolanaBadNumber => 400,
            _ => 500,
        }
    }

    /// The status code, as a specification.
    pub open spec fn spec_status_code(self) -> u16 {
        match self {
            Error::NotFound => 404,
            Error::SolanaBadSignature => 400,
            Error::SolanaBadPubkey => 400,
            Error::SolanaBadNumber => 400,
            _ => 500,
        }
    }
}

} // verus!
