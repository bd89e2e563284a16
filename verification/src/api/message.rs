//! Messages.

pub mod send;
