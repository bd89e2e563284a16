//! What holds of an ordered list over insertions.

use crate::ordered_list::{
    distinct_ids, distinct_keys, first_entry, has_id, id_of, insert_outcome, is_at, key_of,
    lemma_first_entry, lemma_insert_keeps_distinct, lemma_max_key, lists_scope, max_key, shifted,
    InsertError, OrderedEntry,
};
use vstd::prelude::*;

verus! {

/// Two sequences that are strictly ascending by order key and hold the same
/// entries are the same sequence.
pub proof fn lemma_ascending_unique(a: Seq<OrderedEntry>, b: Seq<OrderedEntry>)
    requires
        forall|i: int, j: int| 0 <= i < j < a.len() ==> a[i].order_key < a[j].order_key,
        forall|i: int, j: int| 0 <= i < j < b.len() ==> b[i].order_key < b[j].order_key,
        forall|i: int| 0 <= i < a.len() ==> b.contains(#[trigger] a[i]),
        forall|i: int| 0 <= i < b.len() ==> a.contains(#[trigger] b[i]),
    ensures
        a == b,
    decreases a.len(),
{
    if a.len() == 0 {
        if b.len() > 0 {
            assert(a.contains(b[0]));
        }
        assert(a =~= b);
    } else {
        let la = a.len() - 1;
        assert(b.contains(a[la]));
        let ib = choose|ib: int| 0 <= ib < b.len() && b[ib] == a[la];
        let lb = b.len() - 1;
        assert(a.contains(b[lb]));
        let ia = choose|ia: int| 0 <= ia < a.len() && a[ia] == b[lb];
        assert(ia == la && ib == lb);
        let a0 = a.drop_last();
        let b0 = b.drop_last();
        assert forall|i: int| 0 <= i < a0.len() implies b0.contains(#[trigger] a0[i]) by {
            assert(b.contains(a[i]));
            let w = choose|w: int| 0 <= w < b.len() && b[w] == a[i];
            assert(w != lb);
            assert(b0[w] == a0[i]);
        }
        assert forall|i: int| 0 <= i < b0.len() implies a0.contains(#[trigger] b0[i]) by {
            assert(a.contains(b[i]));
            let w = choose|w: int| 0 <= w < a.len() && a[w] == b[i];
            assert(w != la);
            assert(a0[w] == b0[i]);
        }
        lemma_ascending_unique(a0, b0);
        assert(a =~= a0.push(a[la]));
        assert(b =~= b0.push(b[lb]));
    }
}

/// A scope has one listing only: what `list_ordered` returns is determined
/// by the rows.
pub proof fn law_listing_unique(
    rows: Seq<OrderedEntry>,
    scope: i64,
    a: Seq<OrderedEntry>,
    b: Seq<OrderedEntry>,
)
    requires
        lists_scope(rows, scope, a),
        lists_scope(rows, scope, b),
    ensures
        a == b,
{
    assert forall|i: int| 0 <= i < a.len() implies b.contains(#[trigger] a[i]) by {
        assert(rows.contains(a[i]));
        let k = choose|k: int| 0 <= k < rows.len() && rows[k] == a[i];
        assert(rows[k].scope == scope);
    }
    assert forall|i: int| 0 <= i < b.len() implies a.contains(#[trigger] b[i]) by {
        assert(rows.contains(b[i]));
        let k = choose|k: int| 0 <= k < rows.len() && rows[k] == b[i];
        assert(rows[k].scope == scope);
    }
    lemma_ascending_unique(a, b);
}

/// Ordered-list invariant, insertion before an entry. After the insertion
/// the entries that were there are still there, in their scopes and in the
/// order that they had; entries of other scopes keep their keys; and the new
/// entry stands right before the reference: after all that stood before the
/// reference, and one key below it.
pub proof fn law_insert_before_keeps_order(
    rows: Seq<OrderedEntry>,
    scope: i64,
    id: i64,
    reference: i64,
    at: int,
)
    requires
        distinct_ids(rows),
        distinct_keys(rows),
        is_at(rows, scope, reference, at),
        insert_outcome(rows, scope, id, Some(reference)) is Ok,
    ensures
        ({
            let after = insert_outcome(rows, scope, id, Some(reference)).unwrap();
            let n = rows.len() as int;
            &&& distinct_ids(after)
            &&& distinct_keys(after)
            &&& after.len() == n + 1
            &&& after[n].id == id
            &&& after[n].scope == scope
            &&& after[n].order_key == rows[at].order_key
            &&& after[at].order_key == after[n].order_key + 1
            &&& forall|i: int|
                0 <= i < n ==> (#[trigger] after[i]).id == rows[i].id && after[i].scope
                    == rows[i].scope
            &&& forall|i: int|
                0 <= i < n && rows[i].scope != scope ==> #[trigger] after[i] == rows[i]
            &&& forall|i: int, j: int|
                0 <= i < n && 0 <= j < n && rows[i].scope == rows[j].scope ==> (rows[i].order_key
                    < rows[j].order_key <==> after[i].order_key < after[j].order_key)
            &&& forall|i: int|
                0 <= i < n && rows[i].scope == scope ==> if rows[i].order_key
                    < rows[at].order_key {
                    (#[trigger] after[i]).order_key < after[n].order_key
                } else {
                    after[n].order_key < after[i].order_key
                }
        }),
{
    let after = insert_outcome(rows, scope, id, Some(reference)).unwrap();
    let c = choose|c: int| is_at(rows, scope, reference, c);
    assert(rows[c].id == rows[at].id);
    assert(c == at);
    lemma_insert_keeps_distinct(rows, scope, id, Some(reference));
}

/// Ordered-list invariant, insertion at the end. The entries that were
/// there are untouched, and the new entry stands after every entry of its
/// scope.
pub proof fn law_append_goes_last(rows: Seq<OrderedEntry>, scope: i64, id: i64)
    requires
        distinct_ids(rows),
        distinct_keys(rows),
        insert_outcome(rows, scope, id, None) is Ok,
    ensures
        ({
            let after = insert_outcome(rows, scope, id, None).unwrap();
            let n = rows.len() as int;
            &&& distinct_ids(after)
            &&& distinct_keys(after)
            &&& after.len() == n + 1
            &&& after[n].id == id
            &&& after[n].scope == scope
            &&& after.drop_last() == rows
            &&& forall|i: int|
                0 <= i < n && (#[trigger] rows[i]).scope == scope ==> rows[i].order_key
                    < after[n].order_key
        }),
{
    let after = insert_outcome(rows, scope, id, None).unwrap();
    lemma_insert_keeps_distinct(rows, scope, id, None);
    lemma_max_key(rows, scope);
    assert(after.drop_last() =~= rows);
}

/// Ordered-list invariant, as the listing shows it. After the insertion
/// before an entry, the listing of the scope is the listing of before with
/// the new entry put in right before the reference: what stood before the
/// reference is untouched, the reference and what followed it have moved up
/// by one key and kept their order.
pub proof fn law_insert_before_in_listing(
    rows: Seq<OrderedEntry>,
    scope: i64,
    id: i64,
    reference: i64,
    listing: Seq<OrderedEntry>,
    place: int,
)
    requires
        distinct_ids(rows),
        distinct_keys(rows),
        insert_outcome(rows, scope, id, Some(reference)) is Ok,
        lists_scope(rows, scope, listing),
        0 <= place < listing.len(),
        listing[place].id == reference,
    ensures
        ({
            let after = insert_outcome(rows, scope, id, Some(reference)).unwrap();
            let key = listing[place].order_key;
            lists_scope(
                after,
                scope,
                shifted(listing, scope, key).insert(place, OrderedEntry { id, scope, order_key: key }),
            )
        }),
{
    let after = insert_outcome(rows, scope, id, Some(reference)).unwrap();
    let n = rows.len() as int;
    assert(rows.contains(listing[place]));
    let at = choose|at: int| 0 <= at < rows.len() && rows[at] == listing[place];
    assert(is_at(rows, scope, reference, at));
    law_insert_before_keeps_order(rows, scope, id, reference, at);
    let key = listing[place].order_key;
    assert(key == rows[at].order_key);
    let entry = OrderedEntry { id, scope, order_key: key };
    let moved = shifted(listing, scope, key);
    let next = moved.insert(place, entry);
    assert(after[n] == entry);
    assert(forall|a: int| 0 <= a < place ==> next[a] == moved[a]);
    assert(next[place] == entry);
    assert(forall|a: int| place < a < next.len() ==> next[a] == moved[a - 1]);
    assert forall|a: int| 0 <= a < listing.len() implies (#[trigger] moved[a]).scope == scope
        && after.contains(moved[a]) && (a < place ==> moved[a] == listing[a] && moved[a].order_key
        < key) && (a >= place ==> moved[a].order_key == listing[a].order_key + 1) by {
        assert(rows.contains(listing[a]));
        let k = choose|k: int| 0 <= k < rows.len() && rows[k] == listing[a];
        assert(after[k] == moved[a]);
        if a < place {
            assert(listing[a].order_key < listing[place].order_key);
        }
        if a > place {
            assert(listing[place].order_key < listing[a].order_key);
        }
        assert(rows[k].scope == scope && rows[k].order_key >= key ==> rows[k].order_key
            < i64::MAX) by {
            assert(crate::ordered_list::can_shift(rows, scope, key));
        }
    }
    assert forall|a: int, b: int| 0 <= a < b < next.len() implies next[a].order_key
        < next[b].order_key by {
        let la = if a < place {
            a
        } else {
            a - 1
        };
        let lb = if b < place {
            b
        } else {
            b - 1
        };
        if a != place && b != place {
            assert(listing[la].order_key < listing[lb].order_key);
            assert(moved[la].scope == scope);
            assert(moved[lb].scope == scope);
        } else if a == place {
            assert(moved[lb].scope == scope);
        } else {
            assert(moved[la].scope == scope);
        }
    }
    assert forall|a: int| 0 <= a < next.len() implies (#[trigger] next[a]).scope == scope
        && after.contains(next[a]) by {
        if a < place {
            assert(moved[a].scope == scope);
        } else if a > place {
            assert(moved[a - 1].scope == scope);
        } else {
            assert(after[n] == next[a]);
        }
    }
    assert forall|k: int| 0 <= k < after.len() && (#[trigger] after[k]).scope
        == scope implies next.contains(after[k]) by {
        if k == n {
            assert(next[place] == after[k]);
        } else {
            assert(rows[k].scope == scope);
            assert(listing.contains(rows[k]));
            let a = choose|a: int| 0 <= a < listing.len() && listing[a] == rows[k];
            assert(moved[a] == after[k]);
            if a < place {
                assert(next[a] == after[k]);
            } else {
                assert(next[a + 1] == after[k]);
            }
        }
    }
}

/// Ordered-list invariant, as the listing shows it. After an insertion at
/// the end, the listing of the scope is the listing of before with the new
/// entry after it.
pub proof fn law_append_in_listing(
    rows: Seq<OrderedEntry>,
    scope: i64,
    id: i64,
    listing: Seq<OrderedEntry>,
)
    requires
        distinct_ids(rows),
        distinct_keys(rows),
        insert_outcome(rows, scope, id, None) is Ok,
        lists_scope(rows, scope, listing),
    ensures
        ({
            let after = insert_outcome(rows, scope, id, None).unwrap();
            lists_scope(after, scope, listing.push(after.last()))
        }),
{
    let after = insert_outcome(rows, scope, id, None).unwrap();
    let n = rows.len() as int;
    law_append_goes_last(rows, scope, id);
    let next = listing.push(after.last());
    assert(after.last() == after[n]);
    assert(forall|k: int| 0 <= k < n ==> after[k] == after.drop_last()[k]);
    assert forall|a: int, b: int| 0 <= a < b < next.len() implies next[a].order_key
        < next[b].order_key by {
        if b == listing.len() {
            assert(rows.contains(listing[a]));
            let k = choose|k: int| 0 <= k < rows.len() && rows[k] == listing[a];
            assert(rows[k].scope == scope);
        } else {
            assert(listing[a].order_key < listing[b].order_key);
        }
    }
    assert forall|a: int| 0 <= a < next.len() implies (#[trigger] next[a]).scope == scope
        && after.contains(next[a]) by {
        if a < listing.len() {
            assert(listing[a].scope == scope);
            assert(rows.contains(listing[a]));
            let k = choose|k: int| 0 <= k < rows.len() && rows[k] == listing[a];
            assert(after[k] == next[a]);
        } else {
            assert(after[n] == next[a]);
        }
    }
    assert forall|k: int| 0 <= k < after.len() && (#[trigger] after[k]).scope
        == scope implies next.contains(after[k]) by {
        if k == n {
            assert(next[listing.len() as int] == after[k]);
        } else {
            assert(rows[k].scope == scope);
            assert(listing.contains(rows[k]));
            let a = choose|a: int| 0 <= a < listing.len() && listing[a] == rows[k];
            assert(next[a] == after[k]);
        }
    }
}

/// Ordered-list invariant, insertion at the head. The entries that were
/// there keep their ids, scopes and order, and the new entry stands before
/// every entry of its scope.
pub proof fn law_insert_first_goes_first(rows: Seq<OrderedEntry>, scope: i64, id: i64)
    requires
        distinct_ids(rows),
        distinct_keys(rows),
        insert_outcome(rows, scope, id, id_of(first_entry(rows, scope))) is Ok,
    ensures
        ({
            let after = insert_outcome(rows, scope, id, id_of(first_entry(rows, scope))).unwrap();
            let n = rows.len() as int;
            &&& distinct_ids(after)
            &&& distinct_keys(after)
            &&& after.len() == n + 1
            &&& after[n].id == id
            &&& after[n].scope == scope
            &&& forall|i: int|
                0 <= i < n ==> (#[trigger] after[i]).id == rows[i].id && after[i].scope
                    == rows[i].scope
            &&& forall|i: int, j: int|
                0 <= i < n && 0 <= j < n && rows[i].scope == rows[j].scope ==> (rows[i].order_key
                    < rows[j].order_key <==> after[i].order_key < after[j].order_key)
            &&& forall|i: int|
                0 <= i < n && rows[i].scope == scope ==> after[n].order_key < (
                #[trigger] after[i]).order_key
        }),
{
    lemma_first_entry(rows, scope);
    match first_entry(rows, scope) {
        Some(first) => {
            let at = choose|at: int| 0 <= at < rows.len() && rows[at] == first;
            assert(is_at(rows, scope, first.id, at));
            law_insert_before_keeps_order(rows, scope, id, first.id, at);
        },
        None => {
            law_append_goes_last(rows, scope, id);
            let after = insert_outcome(rows, scope, id, None).unwrap();
            assert(forall|i: int| 0 <= i < rows.len() ==> after[i] == after.drop_last()[i]);
        },
    }
}

/// Inserting before an entry that does not exist, or that belongs to another
/// scope, fails as reference not found, whatever else holds of the call.
pub proof fn law_missing_reference_is_reported(
    rows: Seq<OrderedEntry>,
    scope: i64,
    id: i64,
    reference: i64,
)
    requires
        forall|i: int| 0 <= i < rows.len() && rows[i].id == reference ==> rows[i].scope != scope,
    ensures
        insert_outcome(rows, scope, id, Some(reference)) == Err::<Seq<OrderedEntry>, InsertError>(
            InsertError::ReferenceNotFound,
        ),
{
    assert(forall|i: int| !is_at(rows, scope, reference, i));
    assert(key_of(rows, scope, reference) is None);
}

/// The rows after one insertion at the end of `scope` for each of `ids`, in
/// turn. An insertion that fails leaves the rows as they are.
pub open spec fn after_appends(rows: Seq<OrderedEntry>, scope: i64, ids: Seq<i64>) -> Seq<
    OrderedEntry,
>
    decreases ids.len(),
{
    if ids.len() == 0 {
        rows
    } else {
        let so_far = after_appends(rows, scope, ids.drop_last());
        match insert_outcome(so_far, scope, ids.last(), None) {
            Ok(next) => next,
            Err(_) => so_far,
        }
    }
}

/// The greatest order key of `scope`, 0 where the scope has no entry.
pub open spec fn top_key(rows: Seq<OrderedEntry>, scope: i64) -> int {
    match max_key(rows, scope) {
        Some(greatest) => greatest as int,
        None => 0,
    }
}

/// Insertions made at once take effect one at a time, since each holds the
/// list for itself while it runs. Whatever the order in which they take
/// effect: K insertions at the end of one scope, of K new ids, leave K more
/// entries, all in that scope, and ids and order keys are distinct as
/// before. The one condition is that the keys do not run out.
pub proof fn law_appends_stay_distinct(rows: Seq<OrderedEntry>, scope: i64, ids: Seq<i64>)
    requires
        distinct_ids(rows),
        distinct_keys(rows),
        forall|a: int, b: int| 0 <= a < b < ids.len() ==> ids[a] != ids[b],
        forall|a: int| 0 <= a < ids.len() ==> !has_id(rows, #[trigger] ids[a]),
        top_key(rows, scope) + ids.len() <= i64::MAX,
    ensures
        ({
            let after = after_appends(rows, scope, ids);
            &&& distinct_ids(after)
            &&& distinct_keys(after)
            &&& after.len() == rows.len() + ids.len()
            &&& after.subrange(0, rows.len() as int) == rows
            &&& top_key(after, scope) == top_key(rows, scope) + ids.len()
            &&& forall|a: int|
                0 <= a < ids.len() ==> {
                    let e = #[trigger] after[rows.len() + a];
                    e.id == ids[a] && e.scope == scope && e.order_key == top_key(rows, scope) + a
                        + 1
                }
        }),
    decreases ids.len(),
{
    let after = after_appends(rows, scope, ids);
    if ids.len() == 0 {
        assert(after.subrange(0, rows.len() as int) =~= rows);
    } else {
        let front = ids.drop_last();
        let so_far = after_appends(rows, scope, front);
        assert(forall|a: int| 0 <= a < front.len() ==> front[a] == ids[a]);
        law_appends_stay_distinct(rows, scope, front);
        let id = ids.last();
        assert(!has_id(so_far, id)) by {
            if has_id(so_far, id) {
                let w = choose|w: int| 0 <= w < so_far.len() && #[trigger] so_far[w].id == id;
                if w < rows.len() {
                    assert(so_far.subrange(0, rows.len() as int)[w] == so_far[w]);
                    assert(rows[w].id == id);
                    assert(has_id(rows, ids[ids.len() - 1]));
                } else {
                    let a = w - rows.len();
                    assert(so_far[rows.len() + a].id == ids[a]);
                }
            }
        }
        lemma_max_key(so_far, scope);
        assert(insert_outcome(so_far, scope, id, None) is Ok);
        lemma_insert_keeps_distinct(so_far, scope, id, None);
        let n = so_far.len() as int;
        assert(after == so_far.push(after[n]));
        assert(after.drop_last() =~= so_far);
        assert(after.last() == after[n]);
        assert(max_key(after, scope) == Some(after[n].order_key));
        assert(after.subrange(0, rows.len() as int) =~= so_far.subrange(0, rows.len() as int));
        assert forall|a: int| 0 <= a < ids.len() implies ({
            let e = #[trigger] after[rows.len() + a];
            e.id == ids[a] && e.scope == scope && e.order_key == top_key(rows, scope) + a + 1
        }) by {
            if a < front.len() {
                assert(after[rows.len() + a] == so_far[rows.len() + a]);
            }
        }
    }
}

} // verus!
