//! Creating a channel.

use crate::api::result::{failure, Failure, Status, ISE};
use crate::orm::channel::CreateError;
use crate::orm::guild::GetPermissionsError;
use crate::snowflake::Snowflake;
use vstd::prelude::*;
use vstd::string::StringSliceAdditionalSpecFns;

verus! {

/// What a request to create a channel holds.
#[derive(Debug)]
pub struct CreateParams {
    /// Name of the channel, between 2 and 32 bytes
    pub name: String,
    /// The channel to place this channel before
    pub place_before: Option<Snowflake>,
}

/// What creating a channel answers with.
#[derive(Debug)]
pub struct CreateResponse {
    /// The ID of the created channel
    pub id: Snowflake,
}

/// The name was shorter than 2 bytes
pub const NAME_TOO_SHORT: &'static str = "NameTooShort";

/// The name was longer than 32 bytes
pub const NAME_TOO_LONG: &'static str = "NameTooLong";

/// The name did not conform to the expected style
pub const NAME_INVALID: &'static str = "NameInvalid";

/// The guild was not found or the user is not in the guild
pub const GUILD_NOT_FOUND: &'static str = "GuildNotFound";

/// The user does not have permission to create a channel
pub const PERMISSION_DENIED: &'static str = "PermissionDenied";

/// The `place_before` channel does not exist
pub const PLACE_BEFORE_NOT_FOUND: &'static str = "PlaceBeforeNotFound";

/// What the name of a channel looks like: a lower-case letter, then
/// lower-case letters, digits and hyphens, then a lower-case letter or a
/// digit.
pub const NAME_PATTERN: &'static str = "^[a-z][a-z0-9-]+[a-z0-9]$";

/// The least number of bytes of a channel's name.
pub const MIN_NAME_LEN: usize = 2;

/// The greatest number of bytes of a channel's name.
pub const MAX_NAME_LEN: usize = 32;

/// Whether the regular expression `pattern` matches somewhere in `text`;
/// `None` where the pattern is no regular expression.
pub uninterp spec fn pattern_matches(pattern: Seq<char>, text: Seq<char>) -> Option<bool>;

/// `regex::Regex::new` and `Regex::is_match`: whether the pattern matches
/// somewhere in the text, `None` where the pattern does not compile. What
/// comes back is a function of the two texts.
#[verifier::external_body]
fn is_match(pattern: &str, text: &str) -> (r: Option<bool>)
    ensures
        r == pattern_matches(pattern@, text@),
{
    Some(regex::Regex::new(pattern).ok()?.is_match(text))
}

/// What is to be said of a name of `bytes` bytes, given whether it matches
/// the pattern of channel names. The length is looked at first.
pub open spec fn name_verdict_of(bytes: nat, matches: Option<bool>) -> Result<(), Failure> {
    if bytes < MIN_NAME_LEN {
        Err(Failure { status: Status::BadRequest, code: NAME_TOO_SHORT, data: None })
    } else if bytes > MAX_NAME_LEN {
        Err(Failure { status: Status::BadRequest, code: NAME_TOO_LONG, data: None })
    } else {
        match matches {
            Some(true) => Ok(()),
            Some(false) => Err(
                Failure { status: Status::BadRequest, code: NAME_INVALID, data: Some(NAME_PATTERN) },
            ),
            None => Err(Failure { status: Status::InternalServerError, code: ISE, data: None }),
        }
    }
}

/// What is to be said of a name of `bytes` bytes, given whether it matches
/// the pattern of channel names: `Ok` for a name that passes, else the
/// failure to answer with.
pub fn name_verdict(bytes: usize, matches: Option<bool>) -> (r: Result<(), Failure>)
    ensures
        r == name_verdict_of(bytes as nat, matches),
{
    if bytes < MIN_NAME_LEN {
        return Err(failure(Status::BadRequest, NAME_TOO_SHORT));
    }
    if bytes > MAX_NAME_LEN {
        return Err(failure(Status::BadRequest, NAME_TOO_LONG));
    }
    match matches {
        Some(true) => Ok(()),
        Some(false) => Err(
            Failure { status: Status::BadRequest, code: NAME_INVALID, data: Some(NAME_PATTERN) },
        ),
        None => Err(failure(Status::InternalServerError, ISE)),
    }
}

/// Whether a channel may have the name: it is to be 2 to 32 bytes of UTF-8
/// and match the pattern of channel names.
pub fn check_name(name: &str) -> (r: Result<(), Failure>)
    ensures
        r == name_verdict_of(name.spec_bytes().len(), pattern_matches(NAME_PATTERN@, name@)),
{
    name_verdict(name.as_bytes().len(), is_match(NAME_PATTERN, name))
}

/// Whether a user may create channels in a guild, from what the store gave
/// for the user's permissions there.
pub fn permitted(permissions: Result<bool, GetPermissionsError>) -> (r: Result<(), Failure>)
    ensures
        match permissions {
            Ok(true) => r is Ok,
            Ok(false) => r is Err && r.unwrap_err().status == Status::Unauthorized
                && r.unwrap_err().code == PERMISSION_DENIED,
            Err(GetPermissionsError::NotInGuild) => r is Err && r.unwrap_err().status
                == Status::BadRequest && r.unwrap_err().code == GUILD_NOT_FOUND,
            Err(GetPermissionsError::DatabaseError(_)) => r is Err && r.unwrap_err().status
                == Status::InternalServerError && r.unwrap_err().code == ISE,
        },
{
    match permissions {
        Ok(true) => Ok(()),
        Ok(false) => Err(failure(Status::Unauthorized, PERMISSION_DENIED)),
        Err(GetPermissionsError::NotInGuild) => Err(failure(Status::BadRequest, GUILD_NOT_FOUND)),
        Err(GetPermissionsError::DatabaseError(_)) => Err(
            failure(Status::InternalServerError, ISE),
        ),
    }
}

/// How a channel that could not be created is answered.
pub fn create_failure(e: CreateError) -> (r: Failure)
    ensures
        r.data is None,
        match e {
            CreateError::NextChannelDoesNotExist => r.status == Status::BadRequest && r.code
                == PLACE_BEFORE_NOT_FOUND,
            _ => r.status == Status::InternalServerError && r.code == ISE,
        },
{
    match e {
        CreateError::NextChannelDoesNotExist => failure(Status::BadRequest, PLACE_BEFORE_NOT_FOUND),
        CreateError::NotInserted => failure(Status::InternalServerError, ISE),
        CreateError::DatabaseError(_) => failure(Status::InternalServerError, ISE),
    }
}

} // verus!
