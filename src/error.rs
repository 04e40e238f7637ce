use vstd::prelude::*;

verus! {

broadcast use vstd::string::group_string_axioms;

/// A failure of a translation backend.
#[derive(Debug)]
pub enum ProviderError {
    /// The request did not complete, or the backend answered with a non-success status.
    Http(String),
    /// The backend's answer lacked the expected completion payload.
    BadResponse(String),
}

/// The errors the service reports to its clients.
#[derive(Debug)]
pub enum ApiError {
    BadRequest(String),
    Internal(String),
    NotFound(String),
}

impl ApiError {
    /// The HTTP status an error is reported with.
    pub open spec fn status_spec(&self) -> u16 {
        match self {
            ApiError::BadRequest(_) => 400,
            ApiError::Internal(_) => 500,
            ApiError::NotFound(_) => 404,
        }
    }

    /// The `code` field of the error body: the variant's name.
    pub open spec fn code_spec(&self) -> Seq<char> {
        match self {
            ApiError::BadRequest(_) => "BadRequest"@,
            ApiError::Internal(_) => "Internal"@,
            ApiError::NotFound(_) => "NotFound"@,
        }
    }

    pub open spec fn message_spec(&self) -> Seq<char> {
        match self {
            ApiError::BadRequest(m) => m@,
            ApiError::Internal(m) => m@,
            ApiError::NotFound(m) => m@,
        }
    }

    pub fn status(&self) -> (r: u16)
        ensures
            r == self.status_spec(),
    {
        match self {
            ApiError::BadRequest(_) => 400,
            ApiError::Internal(_) => 500,
            ApiError::NotFound(_) => 404,
        }
    }

    pub fn code(&self) -> (r: &'static str)
        ensures
            r@ == self.code_spec(),
    {
        match self {
            ApiError::BadRequest(_) => "BadRequest",
            ApiError::Internal(_) => "Internal",
            ApiError::NotFound(_) => "NotFound",
        }
    }

    pub fn message(&self) -> (r: &String)
        ensures
            r@ == self.message_spec(),
    {
        match self {
            ApiError::BadRequest(m) => m,
            ApiError::Internal(m) => m,
            ApiError::NotFound(m) => m,
        }
    }
}

} // verus!
