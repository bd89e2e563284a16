//! Who is asking: what the `Authorization` header of a request gives.

use crate::api::result::{Failure, Status, BAD_AUTH_TOKEN, INVALID_AUTH_TOKEN, ISE, NO_AUTH_TOKEN};
use crate::orm::access_token::CheckError;
use crate::snowflake::Snowflake;
use vstd::prelude::*;

verus! {

/// The session that a request belongs to.
#[derive(Debug, Clone, Copy)]
pub struct Session {
    pub user_id: Snowflake,
    pub token: i64,
}

/// Marks a route as open to signed-in users only.
#[derive(Debug, Clone, Copy)]
pub struct AuthMiddleware;

/// The check in front of one service: the service is called once the request
/// carries a valid session.
pub struct InnerAuthMiddleware<S> {
    pub service: S,
}

/// What comes before the token in the header.
pub const BEARER: &'static str = "Bearer ";

/// What a request without the header is told.
pub const HEADER_EXPECTED: &'static str = "Expected header `Authorization: Bearer {access-token}`";

/// What a request is told whose header is not text.
pub const HEADER_NOT_TEXT: &'static str = "Could not convert to string";

/// What a request is told whose header does not start as it should.
pub const PREFIX_MISSING: &'static str = "Missing Bearer prefix";

/// What a request is told whose token does not open.
pub const TOKEN_NOT_DECODED: &'static str = "Could not decode JWT";

/// `str::strip_prefix`: the text after the prefix, or `None` where the text
/// does not start with it.
#[verifier::external_body]
fn strip_prefix<'a>(text: &'a str, prefix: &str) -> (r: Option<&'a str>)
    ensures
        match r {
            Some(rest) => text@ == prefix@ + rest@,
            None => !prefix@.is_prefix_of(text@),
        },
{
    text.strip_prefix(prefix)
}

/// A failure to tell who is asking.
pub open spec fn unauthorized(code: &'static str, data: &'static str) -> Failure {
    Failure { status: Status::Unauthorized, code, data: Some(data) }
}

/// The bearer token of a request, from the value of its `Authorization`
/// header: `None` where there is no such header, `Some(None)` where its
/// value is not text.
///
/// The header is to read `Bearer` and, after one space, the token.
pub fn bearer_token<'a>(header: Option<Option<&'a str>>) -> (r: Result<&'a str, Failure>)
    ensures
        match header {
            None => r == Err::<&str, Failure>(unauthorized(NO_AUTH_TOKEN, HEADER_EXPECTED)),
            Some(None) => r == Err::<&str, Failure>(unauthorized(BAD_AUTH_TOKEN, HEADER_NOT_TEXT)),
            Some(Some(value)) => if BEARER@.is_prefix_of(value@) {
                r is Ok && value@ == BEARER@ + r.unwrap()@
            } else {
                r == Err::<&str, Failure>(unauthorized(BAD_AUTH_TOKEN, PREFIX_MISSING))
            },
        },
{
    let value = match header {
        None => {
            return Err(
                Failure {
                    status: Status::Unauthorized,
                    code: NO_AUTH_TOKEN,
                    data: Some(HEADER_EXPECTED),
                },
            );
        },
        Some(None) => {
            return Err(
                Failure {
                    status: Status::Unauthorized,
                    code: BAD_AUTH_TOKEN,
                    data: Some(HEADER_NOT_TEXT),
                },
            );
        },
        Some(Some(value)) => value,
    };
    match strip_prefix(value, BEARER) {
        Some(token) => {
            proof {
                assert((BEARER@ + token@).subrange(0, BEARER@.len() as int) =~= BEARER@);
            }
            Ok(token)
        },
        None => Err(
            Failure { status: Status::Unauthorized, code: BAD_AUTH_TOKEN, data: Some(PREFIX_MISSING) },
        ),
    }
}

/// How a bearer token that was not accepted is answered. A token that does
/// not open and one that is no longer valid are told apart.
pub open spec fn refusal_of(e: CheckError) -> Failure {
    match e {
        CheckError::InvalidToken => Failure {
            status: Status::Unauthorized,
            code: INVALID_AUTH_TOKEN,
            data: None,
        },
        CheckError::JwtDecoding(_) => unauthorized(BAD_AUTH_TOKEN, TOKEN_NOT_DECODED),
        CheckError::DatabaseError(_) => Failure {
            status: Status::InternalServerError,
            code: ISE,
            data: None,
        },
    }
}

/// How a bearer token that was not accepted is answered.
pub fn refusal(e: &CheckError) -> (r: Failure)
    ensures
        r == refusal_of(*e),
{
    match e {
        CheckError::InvalidToken => Failure {
            status: Status::Unauthorized,
            code: INVALID_AUTH_TOKEN,
            data: None,
        },
        CheckError::JwtDecoding(_) => Failure {
            status: Status::Unauthorized,
            code: BAD_AUTH_TOKEN,
            data: Some(TOKEN_NOT_DECODED),
        },
        CheckError::DatabaseError(_) => Failure {
            status: Status::InternalServerError,
            code: ISE,
            data: None,
        },
    }
}

/// The session of a request, from what checking its bearer token gave.
pub fn session(checked: Result<(Snowflake, i64), CheckError>) -> (r: Result<Session, Failure>)
    ensures
        r == match checked {
            Ok((user_id, token)) => Ok::<Session, Failure>(Session { user_id, token }),
            Err(e) => Err(refusal_of(e)),
        },
{
    match checked {
        Ok((user_id, token)) => Ok(Session { user_id, token }),
        Err(e) => Err(refusal(&e)),
    }
}

} // verus!
