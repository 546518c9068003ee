//! The failures that the core reports to its caller.

use crate::text::push_chars;
use vstd::prelude::*;

verus! {

/// Errors from Samey.
#[derive(Debug, Clone, PartialEq, Eq)]
pub enum SameyError {
    /// Authentication error.
    Authentication(String),
    /// Not found: an identifier that does not resolve, or an index outside a pool.
    NotFound,
    /// Not allowed.
    Forbidden,
    /// Bad request.
    BadRequest(String),
    /// Custom internal error.
    Other(String),
}

/// The kind of answer that an error is reported with.
#[derive(Clone, Copy, Debug, PartialEq, Eq, Structural)]
pub enum ErrorClass {
    BadRequest,
    Unauthorized,
    Forbidden,
    NotFound,
    Internal,
}

impl ErrorClass {
    /// The HTTP status code of the class.
    pub open spec fn code(self) -> int {
        match self {
            ErrorClass::BadRequest => 400,
            ErrorClass::Unauthorized => 401,
            ErrorClass::Forbidden => 403,
            ErrorClass::NotFound => 404,
            ErrorClass::Internal => 500,
        }
    }

    /// The HTTP status code to answer with.
    pub fn status_code(&self) -> (code: u16)
        ensures
            code == self.code(),
    {
        match self {
            ErrorClass::BadRequest => 400,
            ErrorClass::Unauthorized => 401,
            ErrorClass::Forbidden => 403,
            ErrorClass::NotFound => 404,
            ErrorClass::Internal => 500,
        }
    }
}

impl SameyError {
    /// How the error is answered: what the caller did wrong is told to the caller,
    /// everything else is an internal error.
    pub open spec fn class_of(&self) -> ErrorClass {
        match self {
            SameyError::Authentication(_) => ErrorClass::Unauthorized,
            SameyError::NotFound => ErrorClass::NotFound,
            SameyError::Forbidden => ErrorClass::Forbidden,
            SameyError::BadRequest(_) => ErrorClass::BadRequest,
            SameyError::Other(_) => ErrorClass::Internal,
        }
    }

    /// The text of the error.
    pub open spec fn message_of(&self) -> Seq<char> {
        match self {
            SameyError::Authentication(detail) => "Authentication error: "@ + detail@,
            SameyError::NotFound => "Not found"@,
            SameyError::Forbidden => "Not allowed"@,
            SameyError::BadRequest(detail) => "Bad request: "@ + detail@,
            SameyError::Other(detail) => "Internal error: "@ + detail@,
        }
    }

    /// The text of the error, as it is logged and shown.
    pub fn message(&self) -> (text: String)
        ensures
            text@ == self.message_of(),
    {
        let mut text = String::new();
        match self {
            SameyError::Authentication(detail) => {
                push_chars(&mut text, "Authentication error: ");
                push_chars(&mut text, detail.as_str());
            },
            SameyError::NotFound => {
                push_chars(&mut text, "Not found");
            },
            SameyError::Forbidden => {
                push_chars(&mut text, "Not allowed");
            },
            SameyError::BadRequest(detail) => {
                push_chars(&mut text, "Bad request: ");
                push_chars(&mut text, detail.as_str());
            },
            SameyError::Other(detail) => {
                push_chars(&mut text, "Internal error: ");
                push_chars(&mut text, detail.as_str());
            },
        }
        assert(text@ =~= self.message_of());
        text
    }

    /// Classifies the error for the answer.
    pub fn class(&self) -> (class: ErrorClass)
        ensures
            class == self.class_of(),
    {
        match self {
            SameyError::Authentication(_) => ErrorClass::Unauthorized,
            SameyError::NotFound => ErrorClass::NotFound,
            SameyError::Forbidden => ErrorClass::Forbidden,
            SameyError::BadRequest(_) => ErrorClass::BadRequest,
            SameyError::Other(_) => ErrorClass::Internal,
        }
    }
}

} // verus!
