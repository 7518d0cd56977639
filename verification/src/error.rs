//! The error taxonomy of the domain: caller faults, missing resources,
//! idempotency conflicts, and internal failures.

use vstd::prelude::*;

verus! {

/// A command or query failed.  The variant carries a human-readable reason;
/// the variant itself is the machine-readable classification.
#[derive(Debug, Clone)]
pub enum DomainError {
    InvalidInput(String),
    ValidationFailed(String),
    NotFound(String),
    Conflict(String),
    Internal(String),
}

/// The HTTP status that the uniform error envelope derives from an error kind.
pub open spec fn spec_http_status(e: DomainError) -> u16 {
    match e {
        DomainError::InvalidInput(_) => 400,
        DomainError::ValidationFailed(_) => 400,
        DomainError::NotFound(_) => 404,
        DomainError::Conflict(_) => 409,
        DomainError::Internal(_) => 500,
    }
}

/// The stable machine-readable tag of the uniform error envelope.
pub open spec fn spec_envelope_code(e: DomainError) -> Seq<char> {
    match e {
        DomainError::InvalidInput(_) => "invalid_input"@,
        DomainError::ValidationFailed(_) => "validation_error"@,
        DomainError::NotFound(_) => "not_found"@,
        DomainError::Conflict(_) => "conflict"@,
        DomainError::Internal(_) => "internal_error"@,
    }
}

impl DomainError {
    /// The HTTP status derived from this error kind.
    pub fn http_status(&self) -> (r: u16)
        ensures
            r == spec_http_status(*self),
    {
        match self {
            DomainError::InvalidInput(_) => 400,
            DomainError::ValidationFailed(_) => 400,
            DomainError::NotFound(_) => 404,
            DomainError::Conflict(_) => 409,
            DomainError::Internal(_) => 500,
        }
    }

    /// The stable error tag of the uniform envelope.
    pub fn envelope_code(&self) -> (r: &'static str)
        ensures
            r@ == spec_envelope_code(*self),
    {
        match self {
            DomainError::InvalidInput(_) => "invalid_input",
            DomainError::ValidationFailed(_) => "validation_error",
            DomainError::NotFound(_) => "not_found",
            DomainError::Conflict(_) => "conflict",
            DomainError::Internal(_) => "internal_error",
        }
    }

    /// The message shown to the caller.  Internal detail never leaks: the
    /// envelope replaces it with a fixed sentence.
    pub fn envelope_message(&self) -> (r: String)
        ensures
            (match *self {
                DomainError::Internal(_) => r@ == "An internal error occurred"@,
                DomainError::InvalidInput(m) => r@ == m@,
                DomainError::ValidationFailed(m) => r@ == m@,
                DomainError::NotFound(m) => r@ == m@,
                DomainError::Conflict(m) => r@ == m@,
            }),
    {
        match self {
            DomainError::Internal(_) => "An internal error occurred".to_owned(),
            DomainError::InvalidInput(m) => m.clone(),
            DomainError::ValidationFailed(m) => m.clone(),
            DomainError::NotFound(m) => m.clone(),
            DomainError::Conflict(m) => m.clone(),
        }
    }
}

} // verus!
