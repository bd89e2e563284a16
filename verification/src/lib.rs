//! Identifier generation, ordered lists and session tokens for a chat service.

pub mod api;
pub mod ordered_list;
pub mod ordered_list_laws;
pub mod orm;
pub mod password;
pub mod secret;
pub mod snowflake;
pub mod snowflake_runs;
pub mod snowflake_text;
pub mod time;
pub mod validation;
