//! What the HTTP interface decides: which requests are refused outright, and
//! which status and error code each failure is answered with.

pub mod account;
pub mod authentication;
pub mod channel;
pub mod generators;
pub mod guild;
pub mod message;
pub mod result;
