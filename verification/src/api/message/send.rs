//! Sending a message.

use crate::api::result::{failure, Failure, Status, ISE};
use crate::orm::message::CreateError;
use crate::snowflake::Snowflake;
use vstd::prelude::*;
use vstd::string::StringSliceAdditionalSpecFns;

verus! {

/// What a request to send a message holds.
#[derive(Debug)]
pub struct Params {
    pub content: String,
}

/// What sending a message answers with.
#[derive(Debug)]
pub struct Response {
    pub message_id: Snowflake,
}

/// The message was too short (empty)
pub const MESSAGE_TOO_SHORT: &'static str = "MessageTooShort";

/// The message was too long (over 10000 bytes)
pub const MESSAGE_TOO_LONG: &'static str = "MessageTooLong";

/// The channel was not found or the user did not have permission to view it.
pub const CHANNEL_NOT_FOUND: &'static str = "ChannelNotFound";

/// The greatest number of bytes of a message.
pub const MAX_CONTENT_LEN: usize = 10000;

/// Whether a message may be sent: it is to be 1 to 10000 bytes of UTF-8.
pub fn check_content(content: &str) -> (r: Result<(), Failure>)
    ensures
        match r {
            Ok(()) => 1 <= content.spec_bytes().len() <= MAX_CONTENT_LEN,
            Err(f) => f.status == Status::BadRequest && f.data is None && if content.spec_bytes().len()
                == 0 {
                f.code == MESSAGE_TOO_SHORT
            } else {
                content.spec_bytes().len() > MAX_CONTENT_LEN && f.code == MESSAGE_TOO_LONG
            },
        },
{
    let bytes = content.as_bytes().len();
    if bytes == 0 {
        return Err(failure(Status::BadRequest, MESSAGE_TOO_SHORT));
    }
    if bytes > MAX_CONTENT_LEN {
        return Err(failure(Status::BadRequest, MESSAGE_TOO_LONG));
    }
    Ok(())
}

/// How a message that could not be sent is answered.
pub fn send_failure(e: CreateError) -> (r: Failure)
    ensures
        r.data is None,
        match e {
            CreateError::NotFound => r.status == Status::BadRequest && r.code == CHANNEL_NOT_FOUND,
            _ => r.status == Status::InternalServerError && r.code == ISE,
        },
{
    match e {
        CreateError::NotFound => failure(Status::BadRequest, CHANNEL_NOT_FOUND),
        CreateError::NotInserted => failure(Status::InternalServerError, ISE),
        CreateError::DatabaseError(_) => failure(Status::InternalServerError, ISE),
    }
}

} // verus!
