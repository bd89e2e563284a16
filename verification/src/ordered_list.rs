//! Ordered lists: entries that belong to a scope and are kept in order within
//! it by an integer key that no two entries of the scope share.
//!
//! A channel is an entry in the scope of its guild, a guild membership an
//! entry in the scope of its user.

use vstd::prelude::*;

verus! {

/// One entry of an ordered list.
#[derive(Clone, Copy, Debug, PartialEq, Eq, Structural)]
pub struct OrderedEntry {
    /// What the entry is known by, over all scopes.
    pub id: i64,
    /// The scope that the entry belongs to.
    pub scope: i64,
    /// Where the entry stands within its scope: entries are listed by
    /// ascending key.
    pub order_key: i64,
}

/// Why the store did not carry out a statement.
#[derive(Clone, Copy, Debug, PartialEq, Eq, Structural)]
pub enum StoreError {
    /// An entry with the id exists already.
    DuplicateId,
    /// An order key would leave the range of its column.
    KeyOutOfRange,
    /// The store could not be reached or failed for a reason of its own.
    Unavailable,
}

/// Why an entry was not inserted.
#[derive(Clone, Copy, Debug, PartialEq, Eq, Structural)]
pub enum InsertError {
    /// The entry to insert before does not exist, or belongs to another scope.
    ReferenceNotFound,
    /// The store reported that the write changed no row.
    NotInserted,
    /// The store failed.
    DatabaseError(StoreError),
}

/// No two entries have the same id.
pub open spec fn distinct_ids(rows: Seq<OrderedEntry>) -> bool {
    forall|i: int, j: int| 0 <= i < j < rows.len() ==> rows[i].id != rows[j].id
}

/// No two entries of one scope have the same order key.
pub open spec fn distinct_keys(rows: Seq<OrderedEntry>) -> bool {
    forall|i: int, j: int|
        0 <= i < j < rows.len() && rows[i].scope == rows[j].scope ==> rows[i].order_key
            != rows[j].order_key
}

/// Row `i` is the entry `id` of `scope`.
pub open spec fn is_at(rows: Seq<OrderedEntry>, scope: i64, id: i64, i: int) -> bool {
    0 <= i < rows.len() && rows[i].id == id && rows[i].scope == scope
}

/// Some entry has the id, in whatever scope.
pub open spec fn has_id(rows: Seq<OrderedEntry>, id: i64) -> bool {
    exists|i: int| 0 <= i < rows.len() && #[trigger] rows[i].id == id
}

/// The order key of entry `id` within `scope`, if there is such an entry.
pub open spec fn key_of(rows: Seq<OrderedEntry>, scope: i64, id: i64) -> Option<i64> {
    if exists|i: int| is_at(rows, scope, id, i) {
        Some(rows[choose|i: int| is_at(rows, scope, id, i)].order_key)
    } else {
        None
    }
}

/// The greatest order key of `scope`, if the scope has an entry.
pub open spec fn max_key(rows: Seq<OrderedEntry>, scope: i64) -> Option<i64>
    decreases rows.len(),
{
    if rows.len() == 0 {
        None
    } else {
        let rest = max_key(rows.drop_last(), scope);
        let e = rows.last();
        if e.scope != scope {
            rest
        } else if rest is Some && rest.unwrap() >= e.order_key {
            rest
        } else {
            Some(e.order_key)
        }
    }
}

/// The entry of `scope` with the least order key, if the scope has an
/// entry. Of two entries with the same key, which a list with distinct keys
/// does not have, it is the one that was inserted first.
pub open spec fn first_entry(rows: Seq<OrderedEntry>, scope: i64) -> Option<OrderedEntry>
    decreases rows.len(),
{
    if rows.len() == 0 {
        None
    } else {
        let rest = first_entry(rows.drop_last(), scope);
        let e = rows.last();
        if e.scope != scope {
            rest
        } else if rest is Some && rest.unwrap().order_key <= e.order_key {
            rest
        } else {
            Some(e)
        }
    }
}

/// The id of an entry, if there is one.
pub open spec fn id_of(entry: Option<OrderedEntry>) -> Option<i64> {
    match entry {
        Some(e) => Some(e.id),
        None => None,
    }
}

/// The entry after the keys of `scope` from `from` on have moved up by one.
pub open spec fn shift_entry(e: OrderedEntry, scope: i64, from: i64) -> OrderedEntry {
    if e.scope == scope && e.order_key >= from {
        OrderedEntry { order_key: (e.order_key + 1) as i64, ..e }
    } else {
        e
    }
}

/// The rows after the keys of `scope` from `from` on have moved up by one.
pub open spec fn shifted(rows: Seq<OrderedEntry>, scope: i64, from: i64) -> Seq<OrderedEntry> {
    Seq::new(rows.len(), |i: int| shift_entry(rows[i], scope, from))
}

/// Every key of `scope` from `from` on can move up by one.
pub open spec fn can_shift(rows: Seq<OrderedEntry>, scope: i64, from: i64) -> bool {
    forall|i: int|
        0 <= i < rows.len() && rows[i].scope == scope && rows[i].order_key >= from
            ==> #[trigger] rows[i].order_key < i64::MAX
}

/// What inserting entry `id` into `scope` does to the rows: before the entry
/// `before`, or at the end of the scope when there is no `before`.
///
/// Before an entry, the new entry takes that entry's key, and that entry and
/// all that follow it move up by one. At the end, the new entry takes the key
/// after the greatest of the scope, or 1 in an empty scope.
pub open spec fn insert_outcome(
    rows: Seq<OrderedEntry>,
    scope: i64,
    id: i64,
    before: Option<i64>,
) -> Result<Seq<OrderedEntry>, InsertError> {
    match before {
        Some(reference) => match key_of(rows, scope, reference) {
            None => Err(InsertError::ReferenceNotFound),
            Some(key) => if !can_shift(rows, scope, key) {
                Err(InsertError::DatabaseError(StoreError::KeyOutOfRange))
            } else if has_id(rows, id) {
                Err(InsertError::DatabaseError(StoreError::DuplicateId))
            } else {
                Ok(shifted(rows, scope, key).push(OrderedEntry { id, scope, order_key: key }))
            },
        },
        None => match max_key(rows, scope) {
            Some(greatest) => if greatest == i64::MAX {
                Err(InsertError::DatabaseError(StoreError::KeyOutOfRange))
            } else if has_id(rows, id) {
                Err(InsertError::DatabaseError(StoreError::DuplicateId))
            } else {
                Ok(rows.push(OrderedEntry { id, scope, order_key: (greatest + 1) as i64 }))
            },
            None => if has_id(rows, id) {
                Err(InsertError::DatabaseError(StoreError::DuplicateId))
            } else {
                Ok(rows.push(OrderedEntry { id, scope, order_key: 1 }))
            },
        },
    }
}

/// The key for an entry that goes before a reference entry, from what the
/// store found for the reference within the scope.
pub fn key_before(found: Option<i64>) -> (r: Result<i64, InsertError>)
    ensures
        r == match found {
            Some(key) => Ok::<i64, InsertError>(key),
            None => Err(InsertError::ReferenceNotFound),
        },
{
    match found {
        Some(key) => Ok(key),
        None => Err(InsertError::ReferenceNotFound),
    }
}

/// The key for an entry that goes to the end of a scope, from the greatest
/// key that the store found in the scope.
pub fn key_at_end(greatest: Option<i64>) -> (r: Result<i64, InsertError>)
    ensures
        r == match greatest {
            Some(key) => if key == i64::MAX {
                Err(InsertError::DatabaseError(StoreError::KeyOutOfRange))
            } else {
                Ok::<i64, InsertError>((key + 1) as i64)
            },
            None => Ok(1i64),
        },
{
    match greatest {
        Some(key) => if key == i64::MAX {
            Err(InsertError::DatabaseError(StoreError::KeyOutOfRange))
        } else {
            Ok(key + 1)
        },
        None => Ok(1),
    }
}

/// The key for an entry that goes to the head of a scope, from the least key
/// that the store found in the scope: that key, which the entry takes over
/// from the one that stood first, or 1 in an empty scope.
pub fn key_at_head(least: Option<i64>) -> (r: i64)
    ensures
        r == match least {
            Some(key) => key,
            None => 1i64,
        },
{
    match least {
        Some(key) => key,
        None => 1,
    }
}

/// Whether a write that was to add one row did so, from the number of rows
/// that the store reports as changed.
pub fn written(rows_affected: u64) -> (r: Result<(), InsertError>)
    ensures
        r == if rows_affected == 1 {
            Ok::<(), InsertError>(())
        } else {
            Err(InsertError::NotInserted)
        },
{
    if rows_affected == 1 {
        Ok(())
    } else {
        Err(InsertError::NotInserted)
    }
}

/// `listing` holds the entries of `scope`, each once, by ascending order key.
pub open spec fn lists_scope(rows: Seq<OrderedEntry>, scope: i64, listing: Seq<OrderedEntry>) -> bool {
    &&& forall|a: int, b: int|
        0 <= a < b < listing.len() ==> listing[a].order_key < listing[b].order_key
    &&& forall|a: int|
        0 <= a < listing.len() ==> (#[trigger] listing[a]).scope == scope && rows.contains(
            listing[a],
        )
    &&& forall|k: int|
        0 <= k < rows.len() && (#[trigger] rows[k]).scope == scope ==> listing.contains(rows[k])
}

/// What `max_key` finds: a key that some entry of the scope has and that none
/// of them exceeds, or nothing where the scope has no entry.
pub proof fn lemma_max_key(rows: Seq<OrderedEntry>, scope: i64)
    ensures
        match max_key(rows, scope) {
            Some(greatest) => {
                &&& exists|i: int|
                    0 <= i < rows.len() && #[trigger] rows[i].scope == scope && rows[i].order_key
                        == greatest
                &&& forall|i: int|
                    0 <= i < rows.len() && #[trigger] rows[i].scope == scope ==> rows[i].order_key
                        <= greatest
            },
            None => forall|i: int| 0 <= i < rows.len() ==> #[trigger] rows[i].scope != scope,
        },
    decreases rows.len(),
{
    if rows.len() > 0 {
        let front = rows.drop_last();
        lemma_max_key(front, scope);
        assert(forall|i: int| 0 <= i < front.len() ==> front[i] == rows[i]);
        match max_key(front, scope) {
            Some(greatest) => {
                let w = choose|i: int|
                    0 <= i < front.len() && #[trigger] front[i].scope == scope
                        && front[i].order_key == greatest;
                assert(rows[w].scope == scope && rows[w].order_key == greatest);
                let last = rows.len() - 1;
                assert(rows[last] == rows.last());
            },
            None => {
                let last = rows.len() - 1;
                assert(rows[last] == rows.last());
            },
        }
    }
}

/// What `first_entry` finds: an entry of the scope whose key none of the
/// scope is below, or nothing where the scope has no entry.
pub proof fn lemma_first_entry(rows: Seq<OrderedEntry>, scope: i64)
    ensures
        match first_entry(rows, scope) {
            Some(first) => {
                &&& first.scope == scope
                &&& rows.contains(first)
                &&& forall|i: int|
                    0 <= i < rows.len() && #[trigger] rows[i].scope == scope ==> first.order_key
                        <= rows[i].order_key
            },
            None => forall|i: int| 0 <= i < rows.len() ==> #[trigger] rows[i].scope != scope,
        },
    decreases rows.len(),
{
    if rows.len() > 0 {
        let front = rows.drop_last();
        lemma_first_entry(front, scope);
        assert(forall|i: int| 0 <= i < front.len() ==> front[i] == rows[i]);
        let last = rows.len() - 1;
        assert(rows[last] == rows.last());
        match first_entry(front, scope) {
            Some(first) => {
                let w = choose|w: int| 0 <= w < front.len() && front[w] == first;
                assert(rows[w] == first);
            },
            None => {},
        }
    }
}

/// An insertion that succeeds leaves ids distinct over all scopes and order
/// keys distinct within every scope.
pub proof fn lemma_insert_keeps_distinct(
    rows: Seq<OrderedEntry>,
    scope: i64,
    id: i64,
    before: Option<i64>,
)
    requires
        distinct_ids(rows),
        distinct_keys(rows),
        insert_outcome(rows, scope, id, before) is Ok,
    ensures
        distinct_ids(insert_outcome(rows, scope, id, before).unwrap()),
        distinct_keys(insert_outcome(rows, scope, id, before).unwrap()),
{
    let after = insert_outcome(rows, scope, id, before).unwrap();
    let n = rows.len() as int;
    assert(!has_id(rows, id));
    assert(forall|i: int| 0 <= i < n ==> #[trigger] rows[i].id != id);
    match before {
        Some(reference) => {
            let key = key_of(rows, scope, reference).unwrap();
            assert(forall|i: int| 0 <= i < n ==> after[i] == shift_entry(rows[i], scope, key));
            assert(can_shift(rows, scope, key));
            assert forall|i: int, j: int| 0 <= i < j < after.len() implies after[i].id
                != after[j].id by {
                if j < n {
                    assert(rows[i].id != rows[j].id);
                }
            }
            assert forall|i: int, j: int|
                0 <= i < j < after.len() && after[i].scope == after[j].scope implies after[i].order_key
                != after[j].order_key by {
                if j < n {
                    assert(rows[i].order_key != rows[j].order_key);
                    assert(rows[i].scope == scope && rows[i].order_key >= key ==> rows[i].order_key
                        < i64::MAX);
                    assert(rows[j].scope == scope && rows[j].order_key >= key ==> rows[j].order_key
                        < i64::MAX);
                } else {
                    assert(rows[i].scope == scope && rows[i].order_key >= key ==> rows[i].order_key
                        < i64::MAX);
                }
            }
        },
        None => {
            lemma_max_key(rows, scope);
            assert(forall|i: int| 0 <= i < n ==> after[i] == rows[i]);
        },
    }
}

/// The entries of all ordered lists, held in memory.
pub struct OrderedList {
    entries: Vec<OrderedEntry>,
}

impl View for OrderedList {
    type V = Seq<OrderedEntry>;

    closed spec fn view(&self) -> Seq<OrderedEntry> {
        self.entries@
    }
}

impl OrderedList {
    /// No two entries share an id, and no two entries of one scope an order
    /// key.
    pub open spec fn wf(&self) -> bool {
        distinct_ids(self@) && distinct_keys(self@)
    }

    /// Creates a list without entries.
    pub fn new() -> (r: Self)
        ensures
            r.wf(),
            r@ == Seq::<OrderedEntry>::empty(),
    {
        Self { entries: Vec::new() }
    }

    /// The number of entries, over all scopes.
    pub fn len(&self) -> (r: usize)
        ensures
            r == self@.len(),
    {
        self.entries.len()
    }

    /// Whether some entry has the id, in whatever scope.
    pub fn contains_id(&self, id: i64) -> (r: bool)
        ensures
            r == has_id(self@, id),
    {
        let mut i: usize = 0;
        while i < self.entries.len()
            invariant
                i <= self.entries.len(),
                forall|j: int| 0 <= j < i ==> #[trigger] self.entries@[j].id != id,
            decreases self.entries.len() - i,
        {
            if self.entries[i].id == id {
                return true;
            }
            i = i + 1;
        }
        false
    }

    /// Where the entry with the id stands among the rows, in the order in
    /// which they were inserted; `None` where no entry has the id.
    pub fn position_of(&self, id: i64) -> (r: Option<usize>)
        ensures
            match r {
                Some(at) => at < self@.len() && self@[at as int].id == id,
                None => !has_id(self@, id),
            },
    {
        let mut i: usize = 0;
        while i < self.entries.len()
            invariant
                i <= self.entries.len(),
                forall|j: int| 0 <= j < i ==> #[trigger] self.entries@[j].id != id,
            decreases self.entries.len() - i,
        {
            if self.entries[i].id == id {
                return Some(i);
            }
            i = i + 1;
        }
        None
    }

    /// The order key of entry `id` within `scope`; `None` where there is no
    /// such entry or it belongs to another scope.
    pub fn key_of(&self, scope: i64, id: i64) -> (r: Option<i64>)
        requires
            self.wf(),
        ensures
            r == key_of(self@, scope, id),
    {
        let mut i: usize = 0;
        while i < self.entries.len()
            invariant
                i <= self.entries.len(),
                distinct_ids(self@),
                forall|j: int| 0 <= j < i ==> !is_at(self@, scope, id, j),
            decreases self.entries.len() - i,
        {
            if self.entries[i].id == id && self.entries[i].scope == scope {
                proof {
                    assert(is_at(self@, scope, id, i as int));
                    let c = choose|c: int| is_at(self@, scope, id, c);
                    assert(self@[c].id == self@[i as int].id);
                }
                return Some(self.entries[i].order_key);
            }
            i = i + 1;
        }
        None
    }

    /// The greatest order key of `scope`; `None` where the scope has no
    /// entry.
    pub fn max_key(&self, scope: i64) -> (r: Option<i64>)
        ensures
            r == max_key(self@, scope),
    {
        let mut best: Option<i64> = None;
        let mut i: usize = 0;
        assert(self@.take(0).len() == 0);
        while i < self.entries.len()
            invariant
                i <= self.entries.len(),
                best == max_key(self@.take(i as int), scope),
            decreases self.entries.len() - i,
        {
            proof {
                assert(self@.take(i + 1).drop_last() =~= self@.take(i as int));
                assert(self@.take(i + 1).last() == self@[i as int]);
            }
            let e = self.entries[i];
            if e.scope == scope {
                best = match best {
                    Some(key) => if key >= e.order_key {
                        Some(key)
                    } else {
                        Some(e.order_key)
                    },
                    None => Some(e.order_key),
                };
            }
            i = i + 1;
        }
        assert(self@.take(i as int) =~= self@);
        best
    }

    /// The entry of `scope` with the least order key; `None` where the scope
    /// has no entry.
    pub fn first_entry(&self, scope: i64) -> (r: Option<OrderedEntry>)
        ensures
            r == first_entry(self@, scope),
    {
        let mut best: Option<OrderedEntry> = None;
        let mut i: usize = 0;
        assert(self@.take(0).len() == 0);
        while i < self.entries.len()
            invariant
                i <= self.entries.len(),
                best == first_entry(self@.take(i as int), scope),
            decreases self.entries.len() - i,
        {
            proof {
                assert(self@.take(i + 1).drop_last() =~= self@.take(i as int));
                assert(self@.take(i + 1).last() == self@[i as int]);
            }
            let e = self.entries[i];
            if e.scope == scope {
                best = match best {
                    Some(first) => if first.order_key <= e.order_key {
                        Some(first)
                    } else {
                        Some(e)
                    },
                    None => Some(e),
                };
            }
            i = i + 1;
        }
        assert(self@.take(i as int) =~= self@);
        best
    }

    /// Inserts entry `id` at the head of `scope`: before the entry that
    /// stands first, or as the one entry of an empty scope.
    pub fn insert_first(&mut self, scope: i64, id: i64) -> (r: Result<(), InsertError>)
        requires
            old(self).wf(),
        ensures
            final(self).wf(),
            match insert_outcome(old(self)@, scope, id, id_of(first_entry(old(self)@, scope))) {
                Ok(rows) => r is Ok && final(self)@ == rows,
                Err(e) => r == Err::<(), InsertError>(e) && final(self)@ == old(self)@,
            },
    {
        let before = match self.first_entry(scope) {
            Some(first) => Some(first.id),
            None => None,
        };
        self.insert_at(scope, id, before)
    }

    /// Whether every key of `scope` from `from` on can move up by one.
    fn can_shift(&self, scope: i64, from: i64) -> (r: bool)
        ensures
            r == can_shift(self@, scope, from),
    {
        let mut i: usize = 0;
        while i < self.entries.len()
            invariant
                i <= self.entries.len(),
                forall|j: int|
                    0 <= j < i && self.entries@[j].scope == scope && self.entries@[j].order_key
                        >= from ==> #[trigger] self.entries@[j].order_key < i64::MAX,
            decreases self.entries.len() - i,
        {
            let e = self.entries[i];
            if e.scope == scope && e.order_key >= from && e.order_key == i64::MAX {
                return false;
            }
            i = i + 1;
        }
        true
    }

    /// Moves the keys of `scope` from `from` on up by one.
    fn shift(&mut self, scope: i64, from: i64)
        requires
            can_shift(old(self)@, scope, from),
        ensures
            final(self)@ == shifted(old(self)@, scope, from),
    {
        let mut i: usize = 0;
        while i < self.entries.len()
            invariant
                i <= self.entries.len(),
                self.entries@.len() == old(self)@.len(),
                can_shift(old(self)@, scope, from),
                forall|j: int|
                    0 <= j < i ==> self.entries@[j] == shift_entry(old(self)@[j], scope, from),
                forall|j: int| i <= j < self.entries.len() ==> self.entries@[j] == old(self)@[j],
            decreases self.entries.len() - i,
        {
            let e = self.entries[i];
            if e.scope == scope && e.order_key >= from {
                assert(old(self)@[i as int].order_key < i64::MAX);
                self.entries[i] = OrderedEntry { id: e.id, scope: e.scope, order_key: e.order_key + 1 };
            }
            i = i + 1;
        }
        assert(self@ =~= shifted(old(self)@, scope, from));
    }

    /// Inserts entry `id` into `scope`: before the entry `before`, or at the
    /// end of the scope when `before` is `None`.
    ///
    /// Before an entry, the new entry takes that entry's key, and that entry
    /// and all that follow it in the scope move up by one. At the end, the
    /// new entry takes the key after the greatest of the scope, or 1 in an
    /// empty scope. A call that fails changes nothing.
    pub fn insert_at(&mut self, scope: i64, id: i64, before: Option<i64>) -> (r: Result<
        (),
        InsertError,
    >)
        requires
            old(self).wf(),
        ensures
            final(self).wf(),
            match insert_outcome(old(self)@, scope, id, before) {
                Ok(rows) => r is Ok && final(self)@ == rows,
                Err(e) => r == Err::<(), InsertError>(e) && final(self)@ == old(self)@,
            },
    {
        proof {
            if insert_outcome(self@, scope, id, before) is Ok {
                lemma_insert_keeps_distinct(self@, scope, id, before);
            }
        }
        let key = match before {
            Some(reference) => {
                let key = match key_before(self.key_of(scope, reference)) {
                    Ok(key) => key,
                    Err(e) => {
                        return Err(e);
                    },
                };
                if !self.can_shift(scope, key) {
                    return Err(InsertError::DatabaseError(StoreError::KeyOutOfRange));
                }
                key
            },
            None => match key_at_end(self.max_key(scope)) {
                Ok(key) => key,
                Err(e) => {
                    return Err(e);
                },
            },
        };
        if self.contains_id(id) {
            return Err(InsertError::DatabaseError(StoreError::DuplicateId));
        }
        if before.is_some() {
            self.shift(scope, key);
        }
        self.entries.push(OrderedEntry { id, scope, order_key: key });
        written(1)
    }

    /// The entries of `scope` by ascending order key. Every call reads the
    /// list anew.
    pub fn list_ordered(&self, scope: i64) -> (r: Vec<OrderedEntry>)
        requires
            self.wf(),
        ensures
            lists_scope(self@, scope, r@),
    {
        let mut out: Vec<OrderedEntry> = Vec::new();
        let ghost mut src: Seq<int> = Seq::empty();
        let mut i: usize = 0;
        while i < self.entries.len()
            invariant
                i <= self.entries.len(),
                distinct_keys(self@),
                src.len() == out@.len(),
                forall|a: int, b: int|
                    0 <= a < b < out@.len() ==> out@[a].order_key < out@[b].order_key,
                forall|a: int|
                    0 <= a < out@.len() ==> 0 <= #[trigger] src[a] < i && out@[a] == self@[src[a]]
                        && out@[a].scope == scope,
                forall|k: int|
                    0 <= k < i && (#[trigger] self@[k]).scope == scope ==> out@.contains(self@[k]),
            decreases self.entries.len() - i,
        {
            let e = self.entries[i];
            if e.scope == scope {
                let mut p: usize = 0;
                while p < out.len() && out[p].order_key < e.order_key
                    invariant
                        p <= out.len(),
                        forall|q: int| 0 <= q < p ==> out@[q].order_key < e.order_key,
                    decreases out.len() - p,
                {
                    p = p + 1;
                }
                let ghost before = out@;
                let ghost before_src = src;
                proof {
                    if p < before.len() {
                        assert(before[p as int] == self@[src[p as int]]);
                        assert(self@[src[p as int]].order_key != self@[i as int].order_key);
                    }
                    assert forall|q: int| p <= q < before.len() implies e.order_key
                        < before[q].order_key by {
                        if q > p {
                            assert(before[p as int].order_key < before[q].order_key);
                        }
                    }
                }
                out.insert(p, e);
                proof {
                    src = before_src.insert(p as int, i as int);
                    assert(forall|a: int| 0 <= a < p ==> out@[a] == before[a]);
                    assert(out@[p as int] == e);
                    assert(forall|a: int| p < a < out@.len() ==> out@[a] == before[a - 1]);
                    assert(forall|a: int| 0 <= a < p ==> src[a] == before_src[a]);
                    assert(src[p as int] == i);
                    assert(forall|a: int| p < a < out@.len() ==> src[a] == before_src[a - 1]);
                    assert forall|k: int|
                        0 <= k < i + 1 && (#[trigger] self@[k]).scope == scope implies out@.contains(
                        self@[k],
                    ) by {
                        if k == i {
                            assert(out@[p as int] == self@[k]);
                        } else {
                            assert(before.contains(self@[k]));
                            let w = choose|w: int| 0 <= w < before.len() && before[w] == self@[k];
                            if w < p {
                                assert(out@[w] == self@[k]);
                            } else {
                                assert(out@[w + 1] == self@[k]);
                            }
                        }
                    }
                }
            }
            i = i + 1;
        }
        proof {
            assert forall|a: int| 0 <= a < out@.len() implies (#[trigger] out@[a]).scope == scope
                && self@.contains(out@[a]) by {
                assert(self@[src[a]] == out@[a]);
            }
        }
        out
    }

    /// Inserts entry `id` at the end of `scope`.
    pub fn append(&mut self, scope: i64, id: i64) -> (r: Result<(), InsertError>)
        requires
            old(self).wf(),
        ensures
            final(self).wf(),
            match insert_outcome(old(self)@, scope, id, None) {
                Ok(rows) => r is Ok && final(self)@ == rows,
                Err(e) => r == Err::<(), InsertError>(e) && final(self)@ == old(self)@,
            },
    {
        self.insert_at(scope, id, None)
    }
}

} // verus!
