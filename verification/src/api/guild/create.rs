//! Creating a guild.

use crate::api::result::{failure, Failure, Status, ISE};
use crate::orm::guild::{CreateError, JoinError};
use crate::snowflake::Snowflake;
use vstd::prelude::*;
use vstd::string::StringSliceAdditionalSpecFns;

verus! {

/// What a request to create a guild holds.
#[derive(Debug)]
pub struct CreateParams {
    /// Name of the guild, between 2 and 60 bytes
    pub name: String,
}

/// What creating a guild answers with: the guild, and the channel that every
/// new guild starts with.
#[derive(Debug)]
pub struct CreateResponse {
    pub guild_id: Snowflake,
    pub channel_id: Snowflake,
}

/// The name was shorter than 2 bytes
pub const NAME_TOO_SHORT: &'static str = "NameTooShort";

/// The name was longer than 60 bytes
pub const NAME_TOO_LONG: &'static str = "NameTooLong";

/// The least number of bytes of a guild's name.
pub const MIN_NAME_LEN: usize = 2;

/// The greatest number of bytes of a guild's name.
pub const MAX_NAME_LEN: usize = 60;

/// The name of the channel that every new guild starts with.
pub const FIRST_CHANNEL: &'static str = "general";

/// Whether a guild may have the name: it is to be 2 to 60 bytes of UTF-8.
pub fn check_name(name: &str) -> (r: Result<(), Failure>)
    ensures
        match r {
            Ok(()) => MIN_NAME_LEN <= name.spec_bytes().len() <= MAX_NAME_LEN,
            Err(f) => f.status == Status::BadRequest && f.data is None && if name.spec_bytes().len()
                < MIN_NAME_LEN {
                f.code == NAME_TOO_SHORT
            } else {
                name.spec_bytes().len() > MAX_NAME_LEN && f.code == NAME_TOO_LONG
            },
        },
{
    let bytes = name.as_bytes().len();
    if bytes < MIN_NAME_LEN {
        return Err(failure(Status::BadRequest, NAME_TOO_SHORT));
    }
    if bytes > MAX_NAME_LEN {
        return Err(failure(Status::BadRequest, NAME_TOO_LONG));
    }
    Ok(())
}

/// How a guild that could not be created is answered: it is the server's
/// fault.
pub fn create_failure(e: CreateError) -> (r: Failure)
    ensures
        r.status == Status::InternalServerError,
        r.code == ISE,
        r.data is None,
{
    failure(Status::InternalServerError, ISE)
}

/// How an owner that could not join the new guild is answered: it is the
/// server's fault.
pub fn join_failure(e: JoinError) -> (r: Failure)
    ensures
        r.status == Status::InternalServerError,
        r.code == ISE,
        r.data is None,
{
    failure(Status::InternalServerError, ISE)
}

} // verus!
