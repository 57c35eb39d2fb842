//! The error taxonomy shared by every operation of the engine.

use vstd::prelude::*;

verus! {

/// Why an operation was refused.
#[derive(Clone, Debug, PartialEq, Eq)]
pub enum AppError {
    /// The caller's identity is missing or invalid.
    Unauthorized,
    /// The entity that the request names does not exist.
    NotFound,
    /// The input is malformed or semantically invalid.
    Validation(String),
    /// The request is well formed but the current state forbids it.
    Conflict(String),
    /// The wallet does not hold enough to pay.
    PaymentRequired(String),
    /// The contest's phase does not allow the action.
    Forbidden(String),
    /// A storage fault or an unexpected condition; details stay in the log.
    Internal,
}

/// The class of an error, without its message.
#[derive(Clone, Copy, Debug, PartialEq, Eq, Structural)]
pub enum ErrorKind {
    Unauthorized,
    NotFound,
    Validation,
    Conflict,
    PaymentRequired,
    Forbidden,
    Internal,
}

/// Text sent with `Unauthorized`.
pub open spec fn text_unauthorized() -> Seq<char> {
    "Authentication failed"@
}

/// Text sent with `NotFound`.
pub open spec fn text_not_found() -> Seq<char> {
    "Resource not found"@
}

/// Text sent with `Internal`.
pub open spec fn text_internal() -> Seq<char> {
    "Internal server error"@
}

impl AppError {
    /// The class of this error.
    pub open spec fn spec_kind(self) -> ErrorKind {
        match self {
            AppError::Unauthorized => ErrorKind::Unauthorized,
            AppError::NotFound => ErrorKind::NotFound,
            AppError::Validation(_) => ErrorKind::Validation,
            AppError::Conflict(_) => ErrorKind::Conflict,
            AppError::PaymentRequired(_) => ErrorKind::PaymentRequired,
            AppError::Forbidden(_) => ErrorKind::Forbidden,
            AppError::Internal => ErrorKind::Internal,
        }
    }

    /// The message shown to the caller.
    pub open spec fn spec_message(self) -> Seq<char> {
        match self {
            AppError::Unauthorized => text_unauthorized(),
            AppError::NotFound => text_not_found(),
            AppError::Validation(m) => m@,
            AppError::Conflict(m) => m@,
            AppError::PaymentRequired(m) => m@,
            AppError::Forbidden(m) => m@,
            AppError::Internal => text_internal(),
        }
    }

    /// The class of this error.
    pub fn kind(&self) -> (k: ErrorKind)
        ensures
            k == self.spec_kind(),
    {
        match self {
            AppError::Unauthorized => ErrorKind::Unauthorized,
            AppError::NotFound => ErrorKind::NotFound,
            AppError::Validation(_) => ErrorKind::Validation,
            AppError::Conflict(_) => ErrorKind::Conflict,
            AppError::PaymentRequired(_) => ErrorKind::PaymentRequired,
            AppError::Forbidden(_) => ErrorKind::Forbidden,
            AppError::Internal => ErrorKind::Internal,
        }
    }

    /// The message shown to the caller. An internal fault never leaks detail.
    pub fn message(&self) -> (msg: String)
        ensures
            msg@ == self.spec_message(),
    {
        match self {
            AppError::Unauthorized => "Authentication failed".to_owned(),
            AppError::NotFound => "Resource not found".to_owned(),
            AppError::Validation(m) => m.clone(),
            AppError::Conflict(m) => m.clone(),
            AppError::PaymentRequired(m) => m.clone(),
            AppError::Forbidden(m) => m.clone(),
            AppError::Internal => "Internal server error".to_owned(),
        }
    }
}

impl ErrorKind {
    /// The HTTP status that answers an error of this class.
    pub open spec fn spec_status(self) -> u16 {
        match self {
            ErrorKind::Unauthorized => 401,
            ErrorKind::NotFound => 404,
            ErrorKind::Validation => 400,
            ErrorKind::Conflict => 409,
            ErrorKind::PaymentRequired => 402,
            ErrorKind::Forbidden => 403,
            ErrorKind::Internal => 500,
        }
    }

    /// The machine-readable code in the response body.
    pub open spec fn spec_code(self) -> Seq<char> {
        match self {
            ErrorKind::Unauthorized => "UNAUTHORIZED"@,
            ErrorKind::NotFound => "NOT_FOUND"@,
            ErrorKind::Validation => "VALIDATION_ERROR"@,
            ErrorKind::Conflict => "CONFLICT"@,
            ErrorKind::PaymentRequired => "PAYMENT_REQUIRED"@,
            ErrorKind::Forbidden => "FORBIDDEN"@,
            ErrorKind::Internal => "INTERNAL_ERROR"@,
        }
    }

    /// The HTTP status that answers an error of this class.
    pub fn status(self) -> (s: u16)
        ensures
            s == self.spec_status(),
    {
        match self {
            ErrorKind::Unauthorized => 401,
            ErrorKind::NotFound => 404,
            ErrorKind::Validation => 400,
            ErrorKind::Conflict => 409,
            ErrorKind::PaymentRequired => 402,
            ErrorKind::Forbidden => 403,
            ErrorKind::Internal => 500,
        }
    }

    /// The machine-readable code in the response body.
    pub fn code(self) -> (c: String)
        ensures
            c@ == self.spec_code(),
    {
        match self {
            ErrorKind::Unauthorized => "UNAUTHORIZED".to_owned(),
            ErrorKind::NotFound => "NOT_FOUND".to_owned(),
            ErrorKind::Validation => "VALIDATION_ERROR".to_owned(),
            ErrorKind::Conflict => "CONFLICT".to_owned(),
            ErrorKind::PaymentRequired => "PAYMENT_REQUIRED".to_owned(),
            ErrorKind::Forbidden => "FORBIDDEN".to_owned(),
            ErrorKind::Internal => "INTERNAL_ERROR".to_owned(),
        }
    }
}

/// A result with the error reduced to its class: what contracts compare.
pub open spec fn outcome<T>(res: Result<T, AppError>) -> Result<T, ErrorKind> {
    match res {
        Ok(v) => Ok(v),
        Err(e) => Err(e.spec_kind()),
    }
}

/// What the transport answers for an error: status, code and message.
#[derive(Clone, Debug, PartialEq, Eq)]
pub struct ErrorResponse {
    pub status: u16,
    pub error: String,
    pub message: String,
}

impl AppError {
    /// Maps the error to its response. The body always reports failure.
    pub fn into_response(self) -> (r: ErrorResponse)
        ensures
            r.status == self.spec_kind().spec_status(),
            r.error@ == self.spec_kind().spec_code(),
            r.message@ == self.spec_message(),
    {
        let k = self.kind();
        ErrorResponse { status: k.status(), error: k.code(), message: self.message() }
    }
}

} // verus!
