//! The bounded history of a room: the most recent events, oldest first.

use vstd::prelude::*;

verus! {

/// The number of events a room keeps for replay.
pub const ROOM_HISTORY_LIMIT: usize = 20;

/// The last `n` elements of `s` (all of `s` when it is shorter).
pub open spec fn last_n<A>(s: Seq<A>, n: nat) -> Seq<A> {
    if s.len() <= n {
        s
    } else {
        s.subrange(s.len() - n, s.len() as int)
    }
}

/// The history after one more event: the event is appended and only the
/// last `ROOM_HISTORY_LIMIT` events are kept.
pub open spec fn push_bounded<A>(history: Seq<A>, event: A) -> Seq<A> {
    last_n(history.push(event), ROOM_HISTORY_LIMIT as nat)
}

/// The history built from no events by publishing `events` in order.
pub open spec fn history_of<A>(events: Seq<A>) -> Seq<A>
    decreases events.len(),
{
    if events.len() == 0 {
        Seq::empty()
    } else {
        push_bounded(history_of(events.drop_last()), events.last())
    }
}

/// Taking the last elements commutes with mapping each element.
pub proof fn lemma_last_n_map<A, B>(s: Seq<A>, n: nat, f: spec_fn(A) -> B)
    ensures
        last_n(s, n).map_values(f) =~= last_n(s.map_values(f), n),
{
}

/// A history keeps exactly the last `ROOM_HISTORY_LIMIT` events that were
/// published to the room, in the order in which they were published.
pub proof fn lemma_history_is_last_events<A>(events: Seq<A>)
    ensures
        history_of(events) =~= last_n(events, ROOM_HISTORY_LIMIT as nat),
    decreases events.len(),
{
    if events.len() > 0 {
        lemma_history_is_last_events(events.drop_last());
        assert(events.drop_last().push(events.last()) =~= events);
    }
}

/// A history never holds more than `ROOM_HISTORY_LIMIT` events, and the
/// event just published is its newest.
pub proof fn lemma_push_bounded_shape<A>(history: Seq<A>, event: A)
    ensures
        push_bounded(history, event).len() <= ROOM_HISTORY_LIMIT,
        push_bounded(history, event).len() >= 1,
        push_bounded(history, event).last() == event,
        history.len() < ROOM_HISTORY_LIMIT ==> push_bounded(history, event) =~= history.push(
            event,
        ),
{
}

} // verus!
