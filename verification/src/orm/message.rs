//! Messages: the rows of the `messages` table, and what sending and reading
//! decide between their statements.

use crate::orm::channel::HasWritePermissionError;
use crate::orm::user::{is_user_of, user_from_row, User, UserRow};
use crate::ordered_list::StoreError;
use crate::snowflake::Snowflake;
use vstd::prelude::*;

verus! {

/// A message, as the service hands it out.
#[derive(Debug, Clone)]
pub struct Message {
    pub id: Snowflake,
    pub channel_id: Snowflake,
    pub author: User,
    pub content: String,
    pub sent_at: u64,
    pub updated_at: u64,
}

/// A message with its author, as the store returns it.
#[derive(Debug, Clone)]
pub struct MessageRow {
    pub id: i64,
    pub channel_id: i64,
    pub author: UserRow,
    pub content: String,
    pub updated_at: i64,
}

/// Why a message was not created.
#[derive(Clone, Copy, Debug, PartialEq, Eq, Structural)]
pub enum CreateError {
    /// The channel does not exist or the user does not have permission to
    /// view it.
    NotFound,
    /// The entry was not inserted into the database.
    NotInserted,
    /// An error occurred while querying the database.
    DatabaseError(StoreError),
}

/// Why the messages of a channel were not read.
#[derive(Clone, Copy, Debug, PartialEq, Eq, Structural)]
pub enum GetError {
    /// An error occurred while querying the database.
    DatabaseError(StoreError),
}

/// Whether a message may be sent, from what the check on the author's
/// permission to write to the channel gave.
pub fn permitted(permission: Result<(), HasWritePermissionError>) -> (r: Result<(), CreateError>)
    ensures
        r == match permission {
            Ok(()) => Ok::<(), CreateError>(()),
            Err(HasWritePermissionError::NotFound) => Err(CreateError::NotFound),
            Err(HasWritePermissionError::DatabaseError(cause)) => Err(
                CreateError::DatabaseError(cause),
            ),
        },
{
    match permission {
        Err(HasWritePermissionError::NotFound) => Err(CreateError::NotFound),
        Err(HasWritePermissionError::DatabaseError(e)) => Err(CreateError::DatabaseError(e)),
        Ok(()) => Ok(()),
    }
}

/// Whether the row of a new message was written, from the number of rows
/// that the store reports as changed.
pub fn inserted(rows_affected: u64) -> (r: Result<(), CreateError>)
    ensures
        r == if rows_affected == 1 {
            Ok::<(), CreateError>(())
        } else {
            Err(CreateError::NotInserted)
        },
{
    if rows_affected == 1 {
        Ok(())
    } else {
        Err(CreateError::NotInserted)
    }
}

/// Message `message` is what row `row` stands for. A message was sent at the
/// time that its identifier carries.
pub open spec fn is_message_of(message: Message, row: MessageRow) -> bool {
    &&& message.id == Snowflake::unpacked(row.id as u64)
    &&& message.channel_id == Snowflake::unpacked(row.channel_id as u64)
    &&& is_user_of(message.author, row.author)
    &&& message.content == row.content
    &&& message.sent_at == Snowflake::unpacked(row.id as u64).timestamp
    &&& message.updated_at == row.updated_at as u64
}

/// The message that a row stands for.
pub fn message_from_row(row: &MessageRow) -> (r: Message)
    ensures
        is_message_of(r, *row),
{
    Message {
        id: Snowflake::from_number(row.id as u64),
        channel_id: Snowflake::from_number(row.channel_id as u64),
        author: user_from_row(&row.author),
        content: row.content.clone(),
        sent_at: Snowflake::from_number(row.id as u64).timestamp,
        updated_at: row.updated_at as u64,
    }
}

/// The messages that the rows stand for, in the order of the rows.
pub fn messages_from_rows(rows: &Vec<MessageRow>) -> (r: Vec<Message>)
    ensures
        r@.len() == rows@.len(),
        forall|i: int| 0 <= i < rows@.len() ==> is_message_of(#[trigger] r@[i], rows@[i]),
{
    let mut out: Vec<Message> = Vec::new();
    let mut i: usize = 0;
    while i < rows.len()
        invariant
            i <= rows.len(),
            out@.len() == i,
            forall|k: int| 0 <= k < i ==> is_message_of(#[trigger] out@[k], rows@[k]),
        decreases rows.len() - i,
    {
        out.push(message_from_row(&rows[i]));
        i = i + 1;
    }
    out
}

} // verus!
