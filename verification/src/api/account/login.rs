//! Signing in.

use crate::api::result::{failure, Failure, Status, ISE};
use crate::orm::access_token::CreateError;
use crate::orm::user::{LoginError, User};
use vstd::prelude::*;

verus! {

/// What a request to sign in holds. The email address stands for the user:
/// a username alone does not name one.
#[derive(Debug)]
pub struct Params {
    pub email: String,
    pub password: String,
}

/// What signing in answers with.
#[derive(Debug)]
pub struct Response {
    pub access_token: String,
    pub user: User,
}

/// What a request to sign in holds.
#[derive(Debug)]
pub struct LoginParams {
    pub email: String,
    pub password: String,
}

/// What signing in answers with, where the user is known by id alone.
#[derive(Debug)]
pub struct LoginResponse {
    pub user_id: crate::snowflake::Snowflake,
    pub access_token: String,
}

/// The email or password is invalid
pub const INVALID_CREDENTIALS: &'static str = "InvalidCredentials";

/// How a login that failed is answered.
pub fn login_failure(e: LoginError) -> (r: Failure)
    ensures
        r.data is None,
        match e {
            LoginError::InvalidCredentials => r.status == Status::Unauthorized && r.code
                == INVALID_CREDENTIALS,
            _ => r.status == Status::InternalServerError && r.code == ISE,
        },
{
    match e {
        LoginError::InvalidCredentials => failure(Status::Unauthorized, INVALID_CREDENTIALS),
        LoginError::UserNotFound => failure(Status::InternalServerError, ISE),
        LoginError::DatabaseError(_) => failure(Status::InternalServerError, ISE),
    }
}

/// How a session that could not be opened is answered: whatever went wrong,
/// it is the server's fault.
pub fn token_failure(e: &CreateError) -> (r: Failure)
    ensures
        r.status == Status::InternalServerError,
        r.code == ISE,
        r.data is None,
{
    failure(Status::InternalServerError, ISE)
}

} // verus!
