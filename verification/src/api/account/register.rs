//! Signing up.

use crate::api::result::{failure, Failure, Status, ISE};
use crate::orm::user::{NewUserError, User};
use crate::password::{validated, Password, PasswordError};
use crate::validation::{valid_email, valid_username, validate_email, validate_username};
use vstd::prelude::*;

verus! {

/// What a request to sign up holds.
#[derive(Debug)]
pub struct RegisterParams {
    /// The chosen username of the new user
    pub username: String,
    /// The chosen password of the new user
    pub password: String,
    /// The email address of the new user
    pub email: String,
}

/// What signing up answers with.
#[derive(Debug)]
pub struct RegisterResponse {
    pub access_token: String,
    pub user: User,
}

/// The username is invalid
pub const INVALID_USERNAME: &'static str = "InvalidUsername";

/// The username and all discriminators are already taken
pub const USERNAME_TAKEN: &'static str = "UsernameTaken";

/// The email address is invalid
pub const INVALID_EMAIL: &'static str = "InvalidEmail";

/// The email address is already taken
pub const EMAIL_TAKEN: &'static str = "EmailTaken";

/// The password is too weak
pub const PASSWORD_TOO_WEAK: &'static str = "PasswordTooWeak";

/// The password is too long
pub const PASSWORD_TOO_LONG: &'static str = "PasswordTooLong";

/// The password is too short
pub const PASSWORD_TOO_SHORT: &'static str = "PasswordTooShort";

/// The password is too common
pub const PASSWORD_TOO_COMMON: &'static str = "PasswordTooCommon";

/// The password is too similar to the username
pub const PASSWORD_LIKE_USERNAME: &'static str = "PasswordLikeUsername";

/// The password is too similar to the email address
pub const PASSWORD_LIKE_EMAIL: &'static str = "PasswordLikeEmail";

/// The code that a refused password is answered with.
pub open spec fn password_code_of(e: PasswordError) -> &'static str {
    match e {
        PasswordError::TooShort => PASSWORD_TOO_SHORT,
        PasswordError::TooLong => PASSWORD_TOO_LONG,
        PasswordError::TooCommon => PASSWORD_TOO_COMMON,
        PasswordError::TooSimilarToUsername => PASSWORD_LIKE_USERNAME,
        PasswordError::TooSimilarToEmail => PASSWORD_LIKE_EMAIL,
        PasswordError::TooWeak => PASSWORD_TOO_WEAK,
    }
}

/// The code that a refused password is answered with.
pub fn password_code(e: PasswordError) -> (r: &'static str)
    ensures
        r == password_code_of(e),
{
    match e {
        PasswordError::TooShort => PASSWORD_TOO_SHORT,
        PasswordError::TooLong => PASSWORD_TOO_LONG,
        PasswordError::TooCommon => PASSWORD_TOO_COMMON,
        PasswordError::TooSimilarToUsername => PASSWORD_LIKE_USERNAME,
        PasswordError::TooSimilarToEmail => PASSWORD_LIKE_EMAIL,
        PasswordError::TooWeak => PASSWORD_TOO_WEAK,
    }
}

/// Whether a request to sign up is looked at any further: the username, the
/// email address and the password are checked, in that order, and the first
/// that fails its check is answered with a bad request and its code.
pub fn check(username: &str, email: &str, password: &str) -> (r: Result<(), Failure>)
    ensures
        match r {
            Ok(()) => valid_username(username@) && valid_email(email@) && validated(
                vstd::utf8::encode_utf8(password@).len(),
            ) is Ok,
            Err(f) => f.status == Status::BadRequest && f.data is None && f.code == (
            if !valid_username(username@) {
                INVALID_USERNAME
            } else if !valid_email(email@) {
                INVALID_EMAIL
            } else {
                password_code_of(validated(vstd::utf8::encode_utf8(password@).len()).unwrap_err())
            }) && !(valid_username(username@) && valid_email(email@) && validated(
                vstd::utf8::encode_utf8(password@).len(),
            ) is Ok),
        },
{
    if !validate_username(username) {
        return Err(failure(Status::BadRequest, INVALID_USERNAME));
    }
    if !validate_email(email) {
        return Err(failure(Status::BadRequest, INVALID_EMAIL));
    }
    let password = Password::new(password);
    match password.validate(username, email) {
        Ok(()) => Ok(()),
        Err(e) => Err(failure(Status::BadRequest, password_code(e))),
    }
}

/// How a registration that failed is answered.
pub fn register_failure(e: NewUserError) -> (r: Failure)
    ensures
        r.data is None,
        match e {
            NewUserError::AllDiscriminatorsUsed => r.status == Status::BadRequest && r.code
                == USERNAME_TAKEN,
            NewUserError::EmailTaken => r.status == Status::BadRequest && r.code == EMAIL_TAKEN,
            _ => r.status == Status::InternalServerError && r.code == ISE,
        },
{
    match e {
        NewUserError::AllDiscriminatorsUsed => failure(Status::BadRequest, USERNAME_TAKEN),
        NewUserError::EmailTaken => failure(Status::BadRequest, EMAIL_TAKEN),
        NewUserError::NotInserted => failure(Status::InternalServerError, ISE),
        NewUserError::UserNotFound => failure(Status::InternalServerError, ISE),
        NewUserError::DatabaseError(_) => failure(Status::InternalServerError, ISE),
    }
}

} // verus!
