//! Channels. The channels of a guild are an ordered list: a new channel goes
//! before a given channel of the guild, or to the end.

use crate::ordered_list::{
    distinct_ids, distinct_keys, insert_outcome, lists_scope, InsertError, OrderedEntry,
    OrderedList, StoreError,
};
use crate::snowflake::Snowflake;
use vstd::prelude::*;

verus! {

/// A channel, as the service hands it out.
#[derive(Debug, Clone)]
pub struct Channel {
    pub id: Snowflake,
    pub name: String,
}

/// Why a channel was not created.
#[derive(Clone, Copy, Debug, PartialEq, Eq, Structural)]
pub enum CreateError {
    /// The `next` channel does not exist or does not belong to this guild.
    NextChannelDoesNotExist,
    /// The entry was not inserted into the database.
    NotInserted,
    /// An error occurred while querying the database.
    DatabaseError(StoreError),
}

/// Why a user may not read a channel.
#[derive(Clone, Copy, Debug, PartialEq, Eq, Structural)]
pub enum HasReadPermissionError {
    /// The channel does not exist or the user does not have permission to
    /// view it.
    NotFound,
    /// An error occurred while querying the database.
    DatabaseError(StoreError),
}

/// Why a user may not write to a channel.
#[derive(Clone, Copy, Debug, PartialEq, Eq, Structural)]
pub enum HasWritePermissionError {
    /// The channel does not exist or the user does not have permission to
    /// view it.
    NotFound,
    /// An error occurred while querying the database.
    DatabaseError(StoreError),
}

/// What a failed insertion into the list of a guild's channels means for the
/// creation of a channel.
pub open spec fn create_error_of(e: InsertError) -> CreateError {
    match e {
        InsertError::ReferenceNotFound => CreateError::NextChannelDoesNotExist,
        InsertError::NotInserted => CreateError::NotInserted,
        InsertError::DatabaseError(cause) => CreateError::DatabaseError(cause),
    }
}

/// What a failed insertion into the list of a guild's channels means for the
/// creation of a channel.
pub fn create_error(e: InsertError) -> (r: CreateError)
    ensures
        r == create_error_of(e),
{
    match e {
        InsertError::ReferenceNotFound => CreateError::NextChannelDoesNotExist,
        InsertError::NotInserted => CreateError::NotInserted,
        InsertError::DatabaseError(cause) => CreateError::DatabaseError(cause),
    }
}

/// Whether a user may read a channel, from what the store says on whether
/// the channel exists in a guild that the user is a member of. No answer
/// counts as no.
pub fn readable(exists: Option<bool>) -> (r: Result<(), HasReadPermissionError>)
    ensures
        r == if exists == Some(true) {
            Ok::<(), HasReadPermissionError>(())
        } else {
            Err(HasReadPermissionError::NotFound)
        },
{
    match exists {
        Some(true) => Ok(()),
        _ => Err(HasReadPermissionError::NotFound),
    }
}

/// Whether a user may write to a channel, from what the store says on
/// whether the channel exists in a guild that the user is a member of. No
/// answer counts as no.
pub fn writable(exists: Option<bool>) -> (r: Result<(), HasWritePermissionError>)
    ensures
        r == if exists == Some(true) {
            Ok::<(), HasWritePermissionError>(())
        } else {
            Err(HasWritePermissionError::NotFound)
        },
{
    match exists {
        Some(true) => Ok(()),
        _ => Err(HasWritePermissionError::NotFound),
    }
}

/// The number of the identifier, if there is one.
pub open spec fn packed_of(id: Option<Snowflake>) -> Option<i64> {
    match id {
        Some(id) => Some(id.packed()),
        None => None,
    }
}

/// The `channels` table, held in memory: the channels of every guild, in
/// order within their guild.
pub struct ChannelTable {
    order: OrderedList,
    names: Vec<String>,
}

impl ChannelTable {
    /// The channels as entries of ordered lists, the guild of each being its
    /// scope, in the order in which they were created.
    pub closed spec fn entries(&self) -> Seq<OrderedEntry> {
        self.order@
    }

    /// The names of the channels, in the order in which they were created.
    pub closed spec fn names(&self) -> Seq<String> {
        self.names@
    }

    /// Every channel has its name, no two channels share an id, and no two
    /// channels of one guild share an order key.
    pub open spec fn wf(&self) -> bool {
        &&& distinct_ids(self.entries())
        &&& distinct_keys(self.entries())
        &&& self.names().len() == self.entries().len()
    }

    /// Channel `c` is what the table holds for entry `e`.
    pub open spec fn holds(&self, e: OrderedEntry, c: Channel) -> bool {
        &&& c.id == Snowflake::unpacked(e.id as u64)
        &&& exists|at: int|
            0 <= at < self.entries().len() && #[trigger] self.entries()[at] == e && self.names()[at]
                == c.name
    }

    /// Creates a table without channels.
    pub fn new() -> (r: Self)
        ensures
            r.wf(),
            r.entries() == Seq::<OrderedEntry>::empty(),
    {
        Self { order: OrderedList::new(), names: Vec::new() }
    }

    /// Create a new channel in a guild: before the channel `next` of that
    /// guild, or after all its channels when `next` is `None`.
    ///
    /// Before `next`, the new channel takes the order key of `next`, and
    /// `next` and the channels after it move up by one. A call that fails
    /// changes nothing.
    pub fn create(&mut self, id: Snowflake, guild: Snowflake, name: &str, next: Option<Snowflake>) -> (r:
        Result<(), CreateError>)
        requires
            old(self).wf(),
        ensures
            final(self).wf(),
            match insert_outcome(old(self).entries(), guild.packed(), id.packed(), packed_of(next)) {
                Ok(rows) => {
                    &&& r is Ok
                    &&& final(self).entries() == rows
                    &&& final(self).names().drop_last() == old(self).names()
                    &&& final(self).names().last()@ == name@
                },
                Err(e) => {
                    &&& r == Err::<(), CreateError>(create_error_of(e))
                    &&& final(self).entries() == old(self).entries()
                    &&& final(self).names() == old(self).names()
                },
            },
    {
        let before = match next {
            Some(next) => Some(next.into_number()),
            None => None,
        };
        match self.order.insert_at(guild.into_number(), id.into_number(), before) {
            Ok(()) => {
                self.names.push(name.to_owned());
                assert(self.names@.drop_last() =~= old(self).names@);
                Ok(())
            },
            Err(e) => Err(create_error(e)),
        }
    }

    /// The channels of a guild, in their order.
    pub fn channels(&self, guild: Snowflake) -> (r: Vec<Channel>)
        requires
            self.wf(),
        ensures
            exists|listing: Seq<OrderedEntry>|
                {
                    &&& lists_scope(self.entries(), guild.packed(), listing)
                    &&& r@.len() == listing.len()
                    &&& forall|i: int|
                        0 <= i < listing.len() ==> self.holds(listing[i], #[trigger] r@[i])
                },
    {
        let listing = self.order.list_ordered(guild.into_number());
        let mut out: Vec<Channel> = Vec::new();
        let mut i: usize = 0;
        while i < listing.len()
            invariant
                i <= listing.len(),
                self.wf(),
                lists_scope(self.entries(), guild.packed(), listing@),
                out@.len() == i,
                forall|k: int| 0 <= k < i ==> self.holds(listing@[k], #[trigger] out@[k]),
            decreases listing.len() - i,
        {
            let e = listing[i];
            let found = self.order.position_of(e.id);
            proof {
                assert(self.entries().contains(listing@[i as int]));
                let w = choose|w: int| 0 <= w < self.entries().len() && self.entries()[w] == e;
                assert(self.entries()[w].id == e.id);
                assert(found is Some);
                assert(self.entries()[w].id == self.entries()[found.unwrap() as int].id);
                assert(w == found.unwrap());
            }
            let at = found.unwrap();
            out.push(
                Channel { id: Snowflake::from_number(e.id as u64), name: self.names[at].clone() },
            );
            i = i + 1;
        }
        out
    }
}

} // verus!
