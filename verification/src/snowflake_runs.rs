//! What holds of the identifiers that one generator hands out over a run of
//! calls.

use crate::snowflake::{lemma_packed_is_sum, GeneratorState, Snowflake, TIMESTAMP_LIMIT};
use vstd::prelude::*;

verus! {

/// The state that a generator is in after `times.len()` calls from state
/// `start`, call `i` made when the clock reads `times[i]`.
pub open spec fn state_after(start: GeneratorState, times: Seq<nat>) -> GeneratorState
    decreases times.len(),
{
    if times.len() == 0 {
        start
    } else {
        state_after(start, times.drop_last()).next(times.last())
    }
}

/// The identifier that call `i` of the run returns.
pub open spec fn issued_in_run(start: GeneratorState, times: Seq<nat>, i: int) -> Snowflake {
    state_after(start, times.take(i)).issued(times[i])
}

/// The clock reading `now` does not run into what state `s` has handed out:
/// the clock has not gone back, and it has not caught up with a millisecond
/// that the generator borrowed and has already stamped identifiers with.
///
/// One millisecond after the last reading, with a debt of one, the generator
/// pays the debt back and starts the sequence over under the very timestamp
/// that it has been stamping: the identifiers of the borrowed millisecond come
/// again.
pub open spec fn clear_step(s: GeneratorState, now: nat) -> bool {
    &&& s.last_timestamp <= now
    &&& !(now == s.last_timestamp + 1 && s.debt == 1 && s.sequence >= 1)
}

/// Every call of the run is a clear step, and stamps a timestamp of at most
/// 42 bits.
pub open spec fn clear_run(start: GeneratorState, times: Seq<nat>) -> bool {
    forall|i: int|
        0 <= i < times.len() ==> {
            let s = #[trigger] state_after(start, times.take(i));
            clear_step(s, times[i]) && s.stamp(times[i]) < TIMESTAMP_LIMIT
        }
}

/// Where an identifier stands among all that a generator can hand out: by
/// timestamp, and within one timestamp by sequence number, with sequence
/// number 0 last, since it goes to the call that exhausts the millisecond.
pub open spec fn position(id: Snowflake) -> int {
    id.timestamp * 2048 + if id.increment == 0 {
        2047
    } else {
        id.increment - 1
    }
}

/// The position of the identifier that state `s` handed out last.
pub open spec fn frontier(s: GeneratorState) -> int {
    (s.last_timestamp + s.debt) * 2048 + s.sequence - 1
}

/// A clear step hands out the identifier that stands right at the new
/// frontier, and the frontier moves forward.
pub proof fn lemma_clear_step_advances(s: GeneratorState, now: nat)
    requires
        s.wf(),
        clear_step(s, now),
        s.stamp(now) < TIMESTAMP_LIMIT,
    ensures
        s.next(now).wf(),
        s.next(now).machine_id == s.machine_id,
        s.issued(now).in_range(),
        position(s.issued(now)) == frontier(s.next(now)),
        frontier(s) < frontier(s.next(now)),
        now == s.last_timestamp ==> frontier(s.next(now)) == frontier(s) + 1,
{
}

/// Along a clear run the states stay well-formed, keep their machine id, and
/// their frontiers never move back.
pub proof fn lemma_clear_run_advances(start: GeneratorState, times: Seq<nat>, i: int, j: int)
    requires
        start.wf(),
        clear_run(start, times),
        0 <= i <= j <= times.len(),
    ensures
        state_after(start, times.take(j)).wf(),
        state_after(start, times.take(j)).machine_id == start.machine_id,
        frontier(state_after(start, times.take(i))) <= frontier(state_after(start, times.take(j))),
        i < j ==> frontier(state_after(start, times.take(i))) < frontier(
            state_after(start, times.take(j)),
        ),
    decreases j,
{
    if j == 0 {
        assert(times.take(0).len() == 0);
    } else {
        let before = times.take(j - 1);
        assert(times.take(j).drop_last() =~= before);
        assert(times.take(j).last() == times[j - 1]);
        let s = state_after(start, before);
        assert(state_after(start, times.take(j)) == s.next(times[j - 1]));
        if i < j {
            lemma_clear_run_advances(start, times, i, j - 1);
        } else {
            lemma_clear_run_advances(start, times, 0, j - 1);
        }
        lemma_clear_step_advances(s, times[j - 1]);
    }
}

/// Call `i` of a clear run hands out an identifier in range that carries the
/// generator's machine id and stands at the frontier of the state it leaves.
pub proof fn lemma_issued_in_clear_run(start: GeneratorState, times: Seq<nat>, i: int)
    requires
        start.wf(),
        clear_run(start, times),
        0 <= i < times.len(),
    ensures
        issued_in_run(start, times, i).in_range(),
        issued_in_run(start, times, i).machine_id == start.machine_id,
        position(issued_in_run(start, times, i)) == frontier(state_after(start, times.take(i + 1))),
{
    let s = state_after(start, times.take(i));
    lemma_clear_run_advances(start, times, i, i);
    lemma_clear_step_advances(s, times[i]);
    assert(times.take(i + 1).drop_last() =~= times.take(i));
    assert(times.take(i + 1).last() == times[i]);
}

/// Along a clear run, a later call hands out an identifier that stands after
/// every earlier one.
pub proof fn lemma_positions_increase(start: GeneratorState, times: Seq<nat>, i: int, j: int)
    requires
        start.wf(),
        clear_run(start, times),
        0 <= i < j < times.len(),
    ensures
        position(issued_in_run(start, times, i)) < position(issued_in_run(start, times, j)),
{
    lemma_issued_in_clear_run(start, times, i);
    lemma_issued_in_clear_run(start, times, j);
    lemma_clear_run_advances(start, times, i + 1, j);
    lemma_clear_run_advances(start, times, j, j + 1);
}

/// Uniqueness: the numbers of the identifiers that one generator hands out
/// along a clear run are pairwise distinct, however many calls fall into one
/// millisecond.
pub proof fn law_identifiers_distinct(start: GeneratorState, times: Seq<nat>, i: int, j: int)
    requires
        start.wf(),
        clear_run(start, times),
        0 <= i < j < times.len(),
    ensures
        issued_in_run(start, times, i).packed() != issued_in_run(start, times, j).packed(),
{
    let a = issued_in_run(start, times, i);
    let b = issued_in_run(start, times, j);
    lemma_positions_increase(start, times, i, j);
    lemma_issued_in_clear_run(start, times, i);
    lemma_issued_in_clear_run(start, times, j);
    lemma_packed_is_sum(a);
    lemma_packed_is_sum(b);
}

/// Monotonicity: along a clear run the number of a later identifier is
/// greater than that of an earlier one, but for the identifier of a call that
/// exhausts a millisecond. That one carries sequence number 0, so its number
/// is smaller than those handed out before it under the same timestamp.
pub proof fn law_identifiers_ordered(start: GeneratorState, times: Seq<nat>, i: int, j: int)
    requires
        start.wf(),
        clear_run(start, times),
        0 <= i < j < times.len(),
    ensures
        ({
            let a = issued_in_run(start, times, i);
            let b = issued_in_run(start, times, j);
            if b.timestamp == a.timestamp && b.increment == 0 {
                b.packed() < a.packed()
            } else {
                a.packed() < b.packed()
            }
        }),
{
    let a = issued_in_run(start, times, i);
    let b = issued_in_run(start, times, j);
    lemma_positions_increase(start, times, i, j);
    lemma_issued_in_clear_run(start, times, i);
    lemma_issued_in_clear_run(start, times, j);
    lemma_packed_is_sum(a);
    lemma_packed_is_sum(b);
}

/// Every call of the run is made at a clock reading that differs from the one
/// before it.
pub open spec fn clock_moves(start: GeneratorState, times: Seq<nat>) -> bool {
    forall|i: int|
        0 <= i < times.len() ==> #[trigger] times[i] != if i == 0 {
            start.last_timestamp
        } else {
            times[i - 1]
        }
}

/// The debt unwinds: every call at a new clock reading pays one millisecond
/// back, as long as no call exhausts a millisecond on the way. Once as many
/// such calls are made as there was debt, none is left, and the call that
/// pays the last of it starts the sequence over at 1.
pub proof fn law_debt_is_paid_back(start: GeneratorState, times: Seq<nat>)
    requires
        start.wf(),
        clock_moves(start, times),
        times.len() <= start.debt,
        start.sequence + times.len() < 2048,
    ensures
        ({
            let end = state_after(start, times);
            &&& end.wf()
            &&& end.debt == start.debt - times.len()
            &&& times.len() > 0 ==> end.last_timestamp == times.last()
            &&& end.sequence == if end.debt > 0 || times.len() == 0 {
                start.sequence + times.len()
            } else {
                1
            }
        }),
    decreases times.len(),
{
    if times.len() > 0 {
        let front = times.drop_last();
        assert(forall|i: int| 0 <= i < front.len() ==> front[i] == times[i]);
        law_debt_is_paid_back(start, front);
        let before = state_after(start, front);
        let now = times.last();
        assert(now == times[times.len() - 1]);
        if front.len() > 0 {
            assert(front.last() == times[times.len() - 2]);
        }
        assert(now != before.last_timestamp);
    }
}

} // verus!
