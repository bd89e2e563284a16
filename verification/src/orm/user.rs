//! Users: the rows of the `users` table, and what registering and logging in
//! decide between their statements.

use crate::ordered_list::StoreError;
use crate::snowflake::Snowflake;
use std::collections::HashSet;
use vstd::prelude::*;

verus! {

/// One more than the greatest discriminator. A discriminator tells apart the
/// users of one username.
pub const DISCRIMINATORS: i16 = 10000;

/// A user, as the service hands it out.
#[derive(Debug, Clone)]
pub struct User {
    pub id: Snowflake,
    pub username: String,
    pub discrim: i16,
    /// The user's profile image id.
    /// To get a users profile image, query `cdn:/users/:user_id/pfp/:profile_img_id.png`
    pub profile_img_id: Option<Snowflake>,
    pub accent_color: Option<String>,
    pub pronouns: Option<String>,
    pub bio: Option<String>,
}

/// A user, as a row of the `users` table holds it.
#[derive(Debug, Clone)]
pub struct UserRow {
    pub id: i64,
    pub username: String,
    pub discrim: i16,
    pub profile_img_id: Option<i64>,
    pub accent_color: Option<String>,
    pub pronouns: Option<String>,
    pub bio: Option<String>,
}

/// Why a user was not registered.
#[derive(Clone, Copy, Debug, PartialEq, Eq, Structural)]
pub enum NewUserError {
    /// The email address is already taken.
    EmailTaken,
    /// All the username + discriminator combos are already taken.
    AllDiscriminatorsUsed,
    /// The entry was not inserted into the database.
    NotInserted,
    /// The user was not found after creating them in the database.
    UserNotFound,
    /// An error occurred while querying the database.
    DatabaseError(StoreError),
}

/// Why a user was not logged in.
#[derive(Clone, Copy, Debug, PartialEq, Eq, Structural)]
pub enum LoginError {
    /// The credentials were not correct.
    InvalidCredentials,
    /// The user was not found even after asserting they exist.
    UserNotFound,
    /// An error occurred while querying the database.
    DatabaseError(StoreError),
}

/// `rand::seq::IteratorRandom::choose` over the items of the set, on
/// `rand::thread_rng()`: one of the items, picked at random, and `None` if
/// and only if there is no item.
#[verifier::external_body]
fn pick_one(items: &HashSet<i16>) -> (r: Option<i16>)
    ensures
        match r {
            Some(item) => items@.contains(item),
            None => items@ == Set::<i16>::empty(),
        },
{
    rand::seq::IteratorRandom::choose(items.iter(), &mut rand::thread_rng()).copied()
}

/// The identifier that a stored number stands for. A number in a column may
/// be absent.
pub open spec fn snowflake_of(number: Option<i64>) -> Option<Snowflake> {
    match number {
        Some(n) => Some(Snowflake::unpacked(n as u64)),
        None => None,
    }
}

/// A copy of a text that a column may hold.
pub fn text_of(text: &Option<String>) -> (r: Option<String>)
    ensures
        r == *text,
{
    match text {
        Some(t) => Some(t.clone()),
        None => None,
    }
}

/// User `user` is what row `row` stands for.
pub open spec fn is_user_of(user: User, row: UserRow) -> bool {
    &&& user.id == Snowflake::unpacked(row.id as u64)
    &&& user.username == row.username
    &&& user.discrim == row.discrim
    &&& user.profile_img_id == snowflake_of(row.profile_img_id)
    &&& user.accent_color == row.accent_color
    &&& user.pronouns == row.pronouns
    &&& user.bio == row.bio
}

/// The user that a row of the `users` table stands for.
pub fn user_from_row(row: &UserRow) -> (r: User)
    ensures
        is_user_of(r, *row),
{
    User {
        id: Snowflake::from_number(row.id as u64),
        username: row.username.clone(),
        discrim: row.discrim,
        profile_img_id: match row.profile_img_id {
            Some(n) => Some(Snowflake::from_number(n as u64)),
            None => None,
        },
        accent_color: text_of(&row.accent_color),
        pronouns: text_of(&row.pronouns),
        bio: text_of(&row.bio),
    }
}

/// Whether an email address may be registered, from what the store says on
/// whether a user has it. No answer counts as taken.
pub fn email_free(exists: Option<bool>) -> (r: Result<(), NewUserError>)
    ensures
        r == if exists == Some(false) {
            Ok::<(), NewUserError>(())
        } else {
            Err(NewUserError::EmailTaken)
        },
{
    match exists {
        Some(false) => Ok(()),
        _ => Err(NewUserError::EmailTaken),
    }
}

/// A discriminator that no user of the username has yet.
pub open spec fn is_free(taken: Seq<i16>, d: i16) -> bool {
    0 <= d < DISCRIMINATORS && !taken.contains(d)
}

/// The discriminators that are still free for a username, given those that
/// its users have.
pub fn free_discriminators(taken: &Vec<i16>) -> (r: HashSet<i16>)
    ensures
        forall|d: i16| r@.contains(d) <==> is_free(taken@, d),
{
    broadcast use vstd::std_specs::hash::group_hash_axioms;

    let mut free: HashSet<i16> = HashSet::new();
    let mut d: i16 = 0;
    while d < DISCRIMINATORS
        invariant
            0 <= d <= DISCRIMINATORS,
            forall|k: i16| free@.contains(k) <==> 0 <= k < d,
        decreases DISCRIMINATORS - d,
    {
        free.insert(d);
        d = d + 1;
    }
    let mut i: usize = 0;
    assert(taken@.take(0) =~= Seq::<i16>::empty());
    while i < taken.len()
        invariant
            i <= taken.len(),
            forall|k: i16| free@.contains(k) <==> is_free(taken@.take(i as int), k),
        decreases taken.len() - i,
    {
        let ghost before = free@;
        free.remove(&taken[i]);
        proof {
            let seen = taken@.take(i as int);
            let next = taken@.take(i + 1);
            assert(next =~= seen.push(taken@[i as int]));
            assert(free@ == before.remove(taken@[i as int]));
            assert forall|k: i16| free@.contains(k) <==> is_free(next, k) by {
                if k == taken@[i as int] {
                    assert(next[i as int] == k);
                } else {
                    if seen.contains(k) {
                        let w = choose|w: int| 0 <= w < seen.len() && seen[w] == k;
                        assert(next[w] == k);
                    }
                    if next.contains(k) {
                        let w = choose|w: int| 0 <= w < next.len() && next[w] == k;
                        assert(seen[w] == k);
                    }
                }
            }
        }
        i = i + 1;
    }
    assert(taken@.take(i as int) =~= taken@);
    free
}

/// Picks, at random, a discriminator for a new user of a username, given the
/// discriminators that its users have. Fails where none is left.
pub fn choose_discriminator(taken: &Vec<i16>) -> (r: Result<i16, NewUserError>)
    ensures
        match r {
            Ok(d) => is_free(taken@, d),
            Err(e) => e == NewUserError::AllDiscriminatorsUsed && forall|d: i16|
                !is_free(taken@, d),
        },
{
    let free = free_discriminators(taken);
    match pick_one(&free) {
        Some(d) => Ok(d),
        None => {
            assert forall|d: i16| !is_free(taken@, d) by {
                assert(!free@.contains(d));
            }
            Err(NewUserError::AllDiscriminatorsUsed)
        },
    }
}

/// Whether the row of a new user was written, from the number of rows that
/// the store reports as changed.
pub fn inserted(rows_affected: u64) -> (r: Result<(), NewUserError>)
    ensures
        r == if rows_affected == 1 {
            Ok::<(), NewUserError>(())
        } else {
            Err(NewUserError::NotInserted)
        },
{
    if rows_affected == 1 {
        Ok(())
    } else {
        Err(NewUserError::NotInserted)
    }
}

/// The user that was registered, from what the store finds under the new id
/// once the row has been written.
pub fn registered(found: Option<User>) -> (r: Result<User, NewUserError>)
    ensures
        r == match found {
            Some(user) => Ok::<User, NewUserError>(user),
            None => Err(NewUserError::UserNotFound),
        },
{
    match found {
        Some(user) => Ok(user),
        None => Err(NewUserError::UserNotFound),
    }
}

/// Whether a login may go on, from whether the store knows the email address
/// and what checking the password against the stored hash gave. A hash that
/// cannot be read does not match.
pub fn credentials(known: bool, matches: Option<bool>) -> (r: Result<(), LoginError>)
    ensures
        r == if known && matches == Some(true) {
            Ok::<(), LoginError>(())
        } else {
            Err(LoginError::InvalidCredentials)
        },
{
    if !known {
        return Err(LoginError::InvalidCredentials);
    }
    match matches {
        Some(true) => Ok(()),
        _ => Err(LoginError::InvalidCredentials),
    }
}

/// The user that logs in, from what the store finds under the id that the
/// credentials belong to.
pub fn logged_in(found: Option<User>) -> (r: Result<User, LoginError>)
    ensures
        r == match found {
            Some(user) => Ok::<User, LoginError>(user),
            None => Err(LoginError::UserNotFound),
        },
{
    match found {
        Some(user) => Ok(user),
        None => Err(LoginError::UserNotFound),
    }
}

} // verus!
