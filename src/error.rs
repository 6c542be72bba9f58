//! Failures that the store and the migration report.
use vstd::prelude::*;

verus! {

/// Why an operation on the credential store failed.
#[derive(Debug, Clone, Copy, PartialEq, Eq, Structural)]
pub enum CredentialError {
    /// No record exists for the key.
    NotFound,
    /// A record exists, but its blob is not text in the store's encoding.
    Decode,
    /// The key cannot be written as a lookup target for the OS: its UTF-16
    /// form holds a zero code unit before the last one.
    InvalidTarget,
}

/// The reason text that callers see for each error.
pub open spec fn reason_text(e: CredentialError) -> Seq<char> {
    match e {
        CredentialError::NotFound => "PASSWORD_NOT_FOUND"@,
        CredentialError::Decode => "PASSWORD_NOT_DECODABLE"@,
        CredentialError::InvalidTarget => "INVALID_TARGET"@,
    }
}

impl CredentialError {
    /// The reason text of this error; a missing record reads
    /// `PASSWORD_NOT_FOUND`.
    pub fn reason(&self) -> (r: &'static str)
        ensures
            r@ == reason_text(*self),
    {
        match self {
            CredentialError::NotFound => {
                proof {
                    reveal_strlit("PASSWORD_NOT_FOUND");
                }
                "PASSWORD_NOT_FOUND"
            },
            CredentialError::Decode => {
                proof {
                    reveal_strlit("PASSWORD_NOT_DECODABLE");
                }
                "PASSWORD_NOT_DECODABLE"
            },
            CredentialError::InvalidTarget => {
                proof {
                    reveal_strlit("INVALID_TARGET");
                }
                "INVALID_TARGET"
            },
        }
    }
}

} // verus!
