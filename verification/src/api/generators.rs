//! The generators of identifiers. Every kind of thing that the service
//! stores has a generator of its own, so that each can be locked by itself.
//! A generator is held by one owner at a time for the length of one call.

use crate::snowflake::SnowflakeGenerator;
use vstd::prelude::*;

verus! {

/// The generator of the identifiers of users.
pub struct UserSnowflakeGen(pub SnowflakeGenerator);

/// The generator of the identifiers of guilds.
pub struct GuildSnowflakeGen(pub SnowflakeGenerator);

/// The generator of the identifiers of roles.
pub struct RoleSnowflakeGen(pub SnowflakeGenerator);

/// The generator of the identifiers of channels.
pub struct ChannelSnowflakeGen(pub SnowflakeGenerator);

/// The generator of the identifiers of messages.
pub struct MessageSnowflakeGen(pub SnowflakeGenerator);

/// The generator of the identifiers of guild memberships.
pub struct GuildMemberSnowflakeGen(pub SnowflakeGenerator);

/// The generator of the identifiers of the roles of guild members.
pub struct GuildMemberRoleSnowflakeGen(pub SnowflakeGenerator);

} // verus!
