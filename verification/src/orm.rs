//! The tables of the service.

pub mod access_token;
pub mod channel;
pub mod guild;
pub mod message;
pub mod user;
