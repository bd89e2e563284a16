//! The two shapes of an answer, and the codes that failures are known by.

use vstd::prelude::*;

verus! {

pub const ISE: &'static str = "InternalServerError";

pub const NOT_FOUND: &'static str = "EndpointNotFound";

/// The request method was not valid for the endpoint
pub const METHOD_NOT_ALLOWED: &'static str = "MethodNotAllowed";

/// The request was missing the authorization header
pub const NO_AUTH_TOKEN: &'static str = "NoAuthToken";

/// Could not decode the JWT
pub const BAD_AUTH_TOKEN: &'static str = "BadAuthToken";

/// The token does not exist. This could also mean the session has expired.
pub const INVALID_AUTH_TOKEN: &'static str = "InvalidAuthToken";

/// A successful API response.
pub struct ApiSuccess<T>(pub T);

/// A failed API response. Optionally returns more information.
#[derive(Debug)]
pub struct ApiError<T>(pub String, pub Option<T>);

/// The HTTP status that an answer goes out with.
#[derive(Clone, Copy, Debug, PartialEq, Eq, Structural)]
pub enum Status {
    Success,
    BadRequest,
    Unauthorized,
    InternalServerError,
}

impl Status {
    /// The number of the status.
    pub open spec fn number(self) -> u16 {
        match self {
            Status::Success => 200,
            Status::BadRequest => 400,
            Status::Unauthorized => 401,
            Status::InternalServerError => 500,
        }
    }

    /// The number of the status.
    pub fn code(&self) -> (r: u16)
        ensures
            r == self.number(),
    {
        match self {
            Status::Success => 200,
            Status::BadRequest => 400,
            Status::Unauthorized => 401,
            Status::InternalServerError => 500,
        }
    }
}

/// A failure as it is answered: the status, the code that names the failure,
/// and a word more where there is one.
#[derive(Clone, Copy, Debug)]
pub struct Failure {
    pub status: Status,
    pub code: &'static str,
    pub data: Option<&'static str>,
}

/// A failure without a word more.
pub fn failure(status: Status, code: &'static str) -> (r: Failure)
    ensures
        r.status == status,
        r.code == code,
        r.data is None,
{
    Failure { status, code, data: None }
}

} // verus!
