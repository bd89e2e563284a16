//! Guilds, and the guilds that a user has joined.

use crate::orm::channel::Channel;
use crate::orm::user::{is_user_of, user_from_row, User, UserRow};
use crate::ordered_list::{
    distinct_ids, distinct_keys, first_entry, id_of, insert_outcome, is_at, lemma_first_entry,
    lists_scope, InsertError, OrderedEntry, OrderedList, StoreError,
};
use crate::snowflake::Snowflake;
use std::collections::HashMap;
use vstd::prelude::*;

verus! {

/// A guild with its channels, as the service hands it out.
#[derive(Debug, Clone)]
pub struct Guild {
    pub id: Snowflake,
    pub owner: User,
    pub name: String,
    pub channels: Vec<Channel>,
}

/// Why a guild was not created.
#[derive(Clone, Copy, Debug, PartialEq, Eq, Structural)]
pub enum CreateError {
    /// The entry was not inserted into the database.
    NotInserted,
    /// An error occurred while querying the database.
    DatabaseError(StoreError),
}

/// Why a user did not join a guild.
#[derive(Clone, Copy, Debug, PartialEq, Eq, Structural)]
pub enum JoinError {
    /// The entry was not inserted into the database.
    NotInserted,
    /// An error occurred while querying the database.
    DatabaseError(StoreError),
}

/// Why the guilds of a user were not read.
#[derive(Clone, Copy, Debug, PartialEq, Eq, Structural)]
pub enum GetJoinedError {
    /// An error occurred while querying the database.
    DatabaseError(StoreError),
}

/// Why the permissions of a user in a guild were not read.
#[derive(Clone, Copy, Debug, PartialEq, Eq, Structural)]
pub enum GetPermissionsError {
    /// The user is not in the guild.
    NotInGuild,
    /// An error occurred while querying the database.
    DatabaseError(StoreError),
}

/// Whether the row of a new guild was written, from the number of rows that
/// the store reports as changed.
pub fn created(rows_affected: u64) -> (r: Result<(), CreateError>)
    ensures
        r == if rows_affected == 1 {
            Ok::<(), CreateError>(())
        } else {
            Err(CreateError::NotInserted)
        },
{
    if rows_affected == 1 {
        Ok(())
    } else {
        Err(CreateError::NotInserted)
    }
}

/// Whether the row of a new member was written, from the number of rows
/// that the store reports as changed.
pub fn joined(rows_affected: u64) -> (r: Result<(), JoinError>)
    ensures
        r == if rows_affected == 1 {
            Ok::<(), JoinError>(())
        } else {
            Err(JoinError::NotInserted)
        },
{
    if rows_affected != 1 {
        return Err(JoinError::NotInserted);
    }
    Ok(())
}

/// What a user may do in a guild, from the owner that the store finds for
/// the guild: whether the user is the owner. A guild that is not found
/// counts as one that the user is not in.
pub fn permissions(owner: Option<i64>, user: Snowflake) -> (r: Result<bool, GetPermissionsError>)
    ensures
        r == match owner {
            Some(owner_id) => Ok::<bool, GetPermissionsError>(owner_id == user.packed()),
            None => Err(GetPermissionsError::NotInGuild),
        },
{
    match owner {
        Some(owner_id) => Ok(owner_id == user.into_number()),
        None => Err(GetPermissionsError::NotInGuild),
    }
}

/// One row of what the store returns for the guilds of a user: a guild, its
/// owner and one of its channels. A guild with several channels comes in
/// several rows.
#[derive(Debug, Clone)]
pub struct JoinedRow {
    pub id: i64,
    pub name: String,
    pub owner: UserRow,
    pub channel_id: i64,
    pub channel_name: String,
}

/// The rows at which a guild comes for the first time, in ascending order.
pub open spec fn first_rows(rows: Seq<JoinedRow>) -> Seq<int>
    decreases rows.len(),
{
    if rows.len() == 0 {
        Seq::empty()
    } else {
        let rest = first_rows(rows.drop_last());
        if exists|j: int| 0 <= j < rows.len() - 1 && #[trigger] rows[j].id == rows.last().id {
            rest
        } else {
            rest.push(rows.len() - 1)
        }
    }
}

/// The rows of guild `guild`, by their places among all rows, in ascending
/// order.
pub open spec fn rows_of(rows: Seq<JoinedRow>, guild: i64) -> Seq<int>
    decreases rows.len(),
{
    if rows.len() == 0 {
        Seq::empty()
    } else {
        let rest = rows_of(rows.drop_last(), guild);
        if rows.last().id == guild {
            rest.push(rows.len() - 1)
        } else {
            rest
        }
    }
}

/// Guild `guild` is what the rows hold for the guild that comes first at row
/// `first`: its id, name and owner are those of that row, and its channels
/// are those of the rows of the guild, in the order of the rows.
pub open spec fn is_guild_of(guild: Guild, rows: Seq<JoinedRow>, seen: int, first: int) -> bool {
    let places = rows_of(rows.take(seen), rows[first].id);
    &&& guild.id == Snowflake::unpacked(rows[first].id as u64)
    &&& guild.name == rows[first].name
    &&& is_user_of(guild.owner, rows[first].owner)
    &&& guild.channels@.len() == places.len()
    &&& forall|k: int|
        0 <= k < places.len() ==> {
            let c = #[trigger] guild.channels@[k];
            &&& c.id == Snowflake::unpacked(rows[places[k]].channel_id as u64)
            &&& c.name == rows[places[k]].channel_name
        }
}

/// Groups the rows that the store returns for the guilds of a user: one
/// guild for every guild id, in the order in which the ids come first, each
/// with the channels of its rows in the order of the rows.
pub fn group_joined(rows: &Vec<JoinedRow>) -> (r: Vec<Guild>)
    ensures
        r@.len() == first_rows(rows@).len(),
        forall|g: int|
            0 <= g < r@.len() ==> is_guild_of(
                #[trigger] r@[g],
                rows@,
                rows@.len() as int,
                first_rows(rows@)[g],
            ),
{
    broadcast use vstd::std_specs::hash::group_hash_axioms;

    let mut index: HashMap<i64, usize> = HashMap::new();
    let mut guilds: Vec<Guild> = Vec::new();
    let mut i: usize = 0;
    assert(rows@.take(0).len() == 0);
    while i < rows.len()
        invariant
            i <= rows.len(),
            guilds@.len() == first_rows(rows@.take(i as int)).len(),
            forall|g: int|
                0 <= g < guilds@.len() ==> 0 <= #[trigger] first_rows(rows@.take(i as int))[g] < i,
            forall|g: int|
                0 <= g < guilds@.len() ==> index@.contains_key(
                    rows@[#[trigger] first_rows(rows@.take(i as int))[g]].id,
                ) && index@[rows@[first_rows(rows@.take(i as int))[g]].id] == g,
            forall|k: int| 0 <= k < i ==> index@.contains_key(#[trigger] rows@[k].id),
            forall|id: i64| #[trigger]
                index@.contains_key(id) ==> index@[id] < guilds@.len() && rows@[first_rows(
                    rows@.take(i as int),
                )[index@[id] as int]].id == id,
            forall|g: int|
                0 <= g < guilds@.len() ==> is_guild_of(
                    #[trigger] guilds@[g],
                    rows@,
                    i as int,
                    first_rows(rows@.take(i as int))[g],
                ),
        decreases rows.len() - i,
    {
        let ghost seen = rows@.take(i as int);
        let ghost next = rows@.take(i + 1);
        let ghost firsts = first_rows(seen);
        let ghost before = guilds@;
        proof {
            assert(next.drop_last() =~= seen);
            assert(next.last() == rows@[i as int]);
            assert(forall|j: int| 0 <= j < i ==> next[j] == rows@[j]);
        }
        let row = &rows[i];
        let known = match index.get(&row.id) {
            Some(g) => Some(*g),
            None => None,
        };
        let g = match known {
            Some(g) => {
                proof {
                    let f = firsts[g as int];
                    assert(next[f].id == next.last().id);
                    assert(first_rows(next) == firsts);
                }
                g
            },
            None => {
                proof {
                    assert(forall|j: int| 0 <= j < i ==> index@.contains_key(rows@[j].id));
                    assert(!(exists|j: int|
                        0 <= j < next.len() - 1 && #[trigger] next[j].id == next.last().id));
                    assert(first_rows(next) == firsts.push(i as int));
                }
                let g = guilds.len();
                guilds.push(
                    Guild {
                        id: Snowflake::from_number(row.id as u64),
                        owner: user_from_row(&row.owner),
                        name: row.name.clone(),
                        channels: Vec::new(),
                    },
                );
                index.insert(row.id, g);
                g
            },
        };
        let ghost middle = guilds@;
        proof {
            assert(first_rows(next)[g as int] < i + 1);
            assert(rows@[first_rows(next)[g as int]].id == row.id);
            assert(forall|h: int| 0 <= h < before.len() ==> middle[h] == before[h]);
        }
        guilds[g].channels.push(
            Channel {
                id: Snowflake::from_number(row.channel_id as u64),
                name: row.channel_name.clone(),
            },
        );
        proof {
            let after = guilds@;
            let new_firsts = first_rows(next);
            assert(after.len() == middle.len());
            assert(forall|h: int| 0 <= h < after.len() && h != g ==> after[h] == middle[h]);
            assert forall|h: int| 0 <= h < after.len() implies is_guild_of(
                #[trigger] after[h],
                rows@,
                i + 1,
                new_firsts[h],
            ) by {
                let f = new_firsts[h];
                if h == g {
                    assert(rows@[f].id == rows@[i as int].id);
                    assert(rows_of(next, rows@[f].id) == rows_of(seen, rows@[f].id).push(i as int));
                    let places = rows_of(next, rows@[f].id);
                    if known is Some {
                        assert(is_guild_of(before[h], rows@, i as int, firsts[h]));
                    } else {
                        lemma_no_rows_of(seen, row.id);
                    }
                    assert forall|k: int| 0 <= k < places.len() implies ({
                        let c = #[trigger] after[h].channels@[k];
                        &&& c.id == Snowflake::unpacked(rows@[places[k]].channel_id as u64)
                        &&& c.name == rows@[places[k]].channel_name
                    }) by {
                        if k < places.len() - 1 {
                            assert(after[h].channels@[k] == middle[h].channels@[k]);
                            assert(places[k] == rows_of(seen, rows@[f].id)[k]);
                        }
                    }
                } else {
                    assert(after[h] == before[h]);
                    assert(is_guild_of(before[h], rows@, i as int, firsts[h]));
                    assert(f == firsts[h]);
                    assert(rows@[f].id != rows@[i as int].id) by {
                        if rows@[f].id == rows@[i as int].id {
                            assert(index@[rows@[f].id] == g);
                        }
                    }
                    assert(rows_of(next, rows@[f].id) == rows_of(seen, rows@[f].id));
                }
            }
        }
        i = i + 1;
    }
    assert(rows@.take(i as int) =~= rows@);
    guilds
}

/// Rows that hold no row of a guild give no place for it.
pub proof fn lemma_no_rows_of(rows: Seq<JoinedRow>, guild: i64)
    requires
        forall|j: int| 0 <= j < rows.len() ==> #[trigger] rows[j].id != guild,
    ensures
        rows_of(rows, guild).len() == 0,
    decreases rows.len(),
{
    if rows.len() > 0 {
        let front = rows.drop_last();
        assert(forall|j: int| 0 <= j < front.len() ==> front[j] == rows[j]);
        lemma_no_rows_of(front, guild);
        assert(rows.last() == rows[rows.len() - 1]);
    }
}

/// The `guild_members` table, held in memory: for every user the guilds
/// that the user has joined, in the user's order.
pub struct GuildTable {
    members: OrderedList,
    guilds: Vec<i64>,
}

impl GuildTable {
    /// The memberships as entries of ordered lists, the user of each being
    /// its scope, in the order in which they were made.
    pub closed spec fn entries(&self) -> Seq<OrderedEntry> {
        self.members@
    }

    /// The guilds of the memberships, in the order in which they were made.
    pub closed spec fn guilds(&self) -> Seq<i64> {
        self.guilds@
    }

    /// Every membership has its guild, no two memberships share an id, and
    /// no two memberships of one user share an order key.
    pub open spec fn wf(&self) -> bool {
        &&& distinct_ids(self.entries())
        &&& distinct_keys(self.entries())
        &&& self.guilds().len() == self.entries().len()
    }

    /// Guild `guild` is the guild of membership `e`.
    pub open spec fn holds(&self, e: OrderedEntry, guild: Snowflake) -> bool {
        exists|at: int|
            0 <= at < self.entries().len() && #[trigger] self.entries()[at] == e && guild
                == Snowflake::unpacked(self.guilds()[at] as u64)
    }

    /// Creates a table without memberships.
    pub fn new() -> (r: Self)
        ensures
            r.wf(),
            r.entries() == Seq::<OrderedEntry>::empty(),
    {
        Self { members: OrderedList::new(), guilds: Vec::new() }
    }

    /// Make a user join a guild. The guild goes to the top of the user's
    /// list: the membership takes the order key of the one that stood first,
    /// and all memberships of the user move up by one. A call that fails
    /// changes nothing.
    pub fn join(&mut self, id: Snowflake, guild: Snowflake, user: Snowflake) -> (r: Result<
        (),
        JoinError,
    >)
        requires
            old(self).wf(),
        ensures
            final(self).wf(),
            match insert_outcome(
                old(self).entries(),
                user.packed(),
                id.packed(),
                id_of(first_entry(old(self).entries(), user.packed())),
            ) {
                Ok(rows) => {
                    &&& r is Ok
                    &&& final(self).entries() == rows
                    &&& final(self).guilds() == old(self).guilds().push(guild.packed())
                },
                Err(e) => {
                    &&& e is DatabaseError
                    &&& r == Err::<(), JoinError>(JoinError::DatabaseError(e->0))
                    &&& final(self).entries() == old(self).entries()
                    &&& final(self).guilds() == old(self).guilds()
                },
            },
    {
        proof {
            let rows = self.entries();
            let scope = user.packed();
            lemma_first_entry(rows, scope);
            if first_entry(rows, scope) is Some {
                let first = first_entry(rows, scope).unwrap();
                let at = choose|at: int| 0 <= at < rows.len() && rows[at] == first;
                assert(is_at(rows, scope, first.id, at));
            }
        }
        match self.members.insert_first(user.into_number(), id.into_number()) {
            Ok(()) => {
                self.guilds.push(guild.into_number());
                joined(1)
            },
            Err(InsertError::DatabaseError(cause)) => Err(JoinError::DatabaseError(cause)),
            Err(_) => Err(JoinError::NotInserted),
        }
    }

    /// The guilds that a user has joined, in the user's order.
    pub fn joined_guilds(&self, user: Snowflake) -> (r: Vec<Snowflake>)
        requires
            self.wf(),
        ensures
            exists|listing: Seq<OrderedEntry>|
                {
                    &&& lists_scope(self.entries(), user.packed(), listing)
                    &&& r@.len() == listing.len()
                    &&& forall|i: int|
                        0 <= i < listing.len() ==> self.holds(listing[i], #[trigger] r@[i])
                },
    {
        let listing = self.members.list_ordered(user.into_number());
        let mut out: Vec<Snowflake> = Vec::new();
        let mut i: usize = 0;
        while i < listing.len()
            invariant
                i <= listing.len(),
                self.wf(),
                lists_scope(self.entries(), user.packed(), listing@),
                out@.len() == i,
                forall|k: int| 0 <= k < i ==> self.holds(listing@[k], #[trigger] out@[k]),
            decreases listing.len() - i,
        {
            let e = listing[i];
            let found = self.members.position_of(e.id);
            proof {
                assert(self.entries().contains(listing@[i as int]));
                let w = choose|w: int| 0 <= w < self.entries().len() && self.entries()[w] == e;
                assert(self.entries()[w].id == e.id);
                assert(found is Some);
                assert(self.entries()[w].id == self.entries()[found.unwrap() as int].id);
                assert(w == found.unwrap());
            }
            let at = found.unwrap();
            let ghost before = out@;
            out.push(Snowflake::from_number(self.guilds[at] as u64));
            proof {
                assert(forall|k: int| 0 <= k < i ==> out@[k] == before[k]);
                assert(self.entries()[at as int] == listing@[i as int]);
            }
            i = i + 1;
        }
        out
    }
}

} // verus!
