//! The error that the query server's HTTP interface answers with.

use vstd::prelude::*;

verus! {

/// The codes by which an HTTP API error is classified.
#[derive(Clone, Copy, Debug, PartialEq, Eq, Structural)]
pub enum HttpApiErrorCode {
    /// The server failed for a reason of its own.
    InternalError,
    /// What was asked for does not exist.
    NotFound,
}

impl HttpApiErrorCode {
    /// The HTTP status that goes with the code.
    pub open spec fn spec_status(self) -> u16 {
        match self {
            HttpApiErrorCode::InternalError => 500,
            HttpApiErrorCode::NotFound => 404,
        }
    }

    /// The HTTP status that goes with the code.
    #[verifier::when_used_as_spec(spec_status)]
    pub fn status(self) -> (status: u16)
        ensures
            status == self.spec_status(),
    {
        match self {
            HttpApiErrorCode::InternalError => 500,
            HttpApiErrorCode::NotFound => 404,
        }
    }
}

/// An error as the HTTP API reports it: a code and a message.
#[derive(Debug)]
pub struct HttpApiError {
    /// How the error is classified.
    pub code: HttpApiErrorCode,
    /// What the error says.
    pub msg: String,
}

/// The only error of the query server's HTTP interface: it serves no route, so
/// whatever is asked for is not found.
#[derive(Clone, Copy, Debug, PartialEq, Eq, Structural)]
pub enum IoxHttpError {
    /// What was asked for does not exist.
    NotFound,
}

impl IoxHttpError {
    /// The code that classifies the error.
    pub fn status_code(&self) -> (code: HttpApiErrorCode)
        ensures
            code == HttpApiErrorCode::NotFound,
    {
        match self {
            IoxHttpError::NotFound => HttpApiErrorCode::NotFound,
        }
    }

    /// The error as text: the name of its variant.
    pub fn message(&self) -> (text: String)
        ensures
            text@ == "NotFound"@,
    {
        match self {
            IoxHttpError::NotFound => "NotFound".to_owned(),
        }
    }

    /// The error as the HTTP API reports it.
    pub fn to_http_api_error(&self) -> (error: HttpApiError)
        ensures
            error.code == HttpApiErrorCode::NotFound,
            error.msg@ == "NotFound"@,
    {
        HttpApiError { code: self.status_code(), msg: self.message() }
    }
}

} // verus!
