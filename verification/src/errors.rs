//! The error taxonomy of the marketplace surface, with its stable client
//! tags and HTTP statuses.

use vstd::prelude::*;

verus! {

/// A marketplace API failure.
#[derive(Debug, Clone)]
pub enum ApiError {
    AuthenticationFailed(String),
    AuthorizationFailed(String),
    ValidationError(String),
    NotFound(String),
    AlreadyExists(String),
    DatabaseError(String),
    ExternalServiceError(String),
    ConfigurationError(String),
    RateLimitExceeded,
    PaymentError(String),
    InsufficientStock,
    InvalidFileFormat(String),
    FileTooLarge { max_size: usize },
    InternalServer(String),
    BadRequest(String),
}

/// The stable machine-readable tag of an error kind.
pub open spec fn spec_error_code(e: ApiError) -> Seq<char> {
    match e {
        ApiError::AuthenticationFailed(_) => "AUTHENTICATION_FAILED"@,
        ApiError::AuthorizationFailed(_) => "AUTHORIZATION_FAILED"@,
        ApiError::ValidationError(_) => "VALIDATION_ERROR"@,
        ApiError::NotFound(_) => "NOT_FOUND"@,
        ApiError::AlreadyExists(_) => "ALREADY_EXISTS"@,
        ApiError::DatabaseError(_) => "DATABASE_ERROR"@,
        ApiError::ExternalServiceError(_) => "EXTERNAL_SERVICE_ERROR"@,
        ApiError::ConfigurationError(_) => "CONFIGURATION_ERROR"@,
        ApiError::RateLimitExceeded => "RATE_LIMIT_EXCEEDED"@,
        ApiError::PaymentError(_) => "PAYMENT_ERROR"@,
        ApiError::InsufficientStock => "INSUFFICIENT_STOCK"@,
        ApiError::InvalidFileFormat(_) => "INVALID_FILE_FORMAT"@,
        ApiError::FileTooLarge { .. } => "FILE_TOO_LARGE"@,
        ApiError::InternalServer(_) => "INTERNAL_SERVER_ERROR"@,
        ApiError::BadRequest(_) => "BAD_REQUEST"@,
    }
}

/// The HTTP status an error kind maps to.
pub open spec fn spec_status_code(e: ApiError) -> u16 {
    match e {
        ApiError::AuthenticationFailed(_) => 401,
        ApiError::AuthorizationFailed(_) => 403,
        ApiError::ValidationError(_) => 400,
        ApiError::NotFound(_) => 404,
        ApiError::AlreadyExists(_) => 409,
        ApiError::DatabaseError(_) => 500,
        ApiError::ExternalServiceError(_) => 502,
        ApiError::ConfigurationError(_) => 500,
        ApiError::RateLimitExceeded => 429,
        ApiError::PaymentError(_) => 402,
        ApiError::InsufficientStock => 400,
        ApiError::InvalidFileFormat(_) => 400,
        ApiError::FileTooLarge { .. } => 413,
        ApiError::InternalServer(_) => 500,
        ApiError::BadRequest(_) => 400,
    }
}

impl ApiError {
    /// The stable error tag clients match on.
    pub fn error_code(&self) -> (r: &'static str)
        ensures
            r@ == spec_error_code(*self),
    {
        match self {
            ApiError::AuthenticationFailed(_) => "AUTHENTICATION_FAILED",
            ApiError::AuthorizationFailed(_) => "AUTHORIZATION_FAILED",
            ApiError::ValidationError(_) => "VALIDATION_ERROR",
            ApiError::NotFound(_) => "NOT_FOUND",
            ApiError::AlreadyExists(_) => "ALREADY_EXISTS",
            ApiError::DatabaseError(_) => "DATABASE_ERROR",
            ApiError::ExternalServiceError(_) => "EXTERNAL_SERVICE_ERROR",
            ApiError::ConfigurationError(_) => "CONFIGURATION_ERROR",
            ApiError::RateLimitExceeded => "RATE_LIMIT_EXCEEDED",
            ApiError::PaymentError(_) => "PAYMENT_ERROR",
            ApiError::InsufficientStock => "INSUFFICIENT_STOCK",
            ApiError::InvalidFileFormat(_) => "INVALID_FILE_FORMAT",
            ApiError::FileTooLarge { .. } => "FILE_TOO_LARGE",
            ApiError::InternalServer(_) => "INTERNAL_SERVER_ERROR",
            ApiError::BadRequest(_) => "BAD_REQUEST",
        }
    }

    /// The HTTP status this error maps to.
    pub fn status_code(&self) -> (r: u16)
        ensures
            r == spec_status_code(*self),
    {
        match self {
            ApiError::AuthenticationFailed(_) => 401,
            ApiError::AuthorizationFailed(_) => 403,
            ApiError::ValidationError(_) => 400,
            ApiError::NotFound(_) => 404,
            ApiError::AlreadyExists(_) => 409,
            ApiError::DatabaseError(_) => 500,
            ApiError::ExternalServiceError(_) => 502,
            ApiError::ConfigurationError(_) => 500,
            ApiError::RateLimitExceeded => 429,
            ApiError::PaymentError(_) => 402,
            ApiError::InsufficientStock => 400,
            ApiError::InvalidFileFormat(_) => 400,
            ApiError::FileTooLarge { .. } => 413,
            ApiError::InternalServer(_) => 500,
            ApiError::BadRequest(_) => 400,
        }
    }

    /// A failed-credentials error.
    pub fn invalid_credentials() -> (r: ApiError)
        ensures
            r matches ApiError::AuthenticationFailed(m) && m@ == "Invalid email or password"@,
    {
        ApiError::AuthenticationFailed("Invalid email or password".to_owned())
    }

    /// An expired-token error.
    pub fn token_expired() -> (r: ApiError)
        ensures
            r matches ApiError::AuthenticationFailed(m) && m@
                == "Authentication token has expired"@,
    {
        ApiError::AuthenticationFailed("Authentication token has expired".to_owned())
    }

    /// A missing-permission error.
    pub fn insufficient_permissions() -> (r: ApiError)
        ensures
            r matches ApiError::AuthorizationFailed(m) && m@
                == "Insufficient permissions for this operation"@,
    {
        ApiError::AuthorizationFailed("Insufficient permissions for this operation".to_owned())
    }

    /// A duplicate-email error.
    pub fn email_already_exists() -> (r: ApiError)
        ensures
            r matches ApiError::AlreadyExists(m) && m@ == "User with this email already exists"@,
    {
        ApiError::AlreadyExists("User with this email already exists".to_owned())
    }

    /// A duplicate-username error.
    pub fn username_already_exists() -> (r: ApiError)
        ensures
            r matches ApiError::AlreadyExists(m) && m@
                == "User with this username already exists"@,
    {
        ApiError::AlreadyExists("User with this username already exists".to_owned())
    }
}

} // verus!
