//! Guilds.

pub mod create;
