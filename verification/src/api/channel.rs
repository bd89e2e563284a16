//! Channels.

pub mod create;
