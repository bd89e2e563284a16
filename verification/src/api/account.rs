//! Accounts: signing in and signing up.

pub mod login;
pub mod register;
