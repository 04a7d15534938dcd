//! Properties of the library as a whole, each stated over the models that
//! the operations' own contracts use.

use vstd::prelude::*;

use crate::command::{ActionView, CommandError, error_text, normalized_room, parsed};
use crate::state::app_state::{
    AppStateView, GENERAL_ROOM, histories_bounded, after_collection, after_publish,
    after_publish_everywhere, after_replay, after_sender, after_subscribe, collected, last_count,
    published_everywhere, replayed, with_count,
};
use crate::state::channel::ChannelView;
use crate::state::metrics::{counter_add, lemma_counter_add_add, lemma_counter_add_zero};
use crate::state::event::ChatEventView;
use crate::state::room::RoomView;
use crate::state::history::{ROOM_HISTORY_LIMIT, last_n, push_bounded};
use crate::text::{is_space, lemma_word_end_bounds, trimmed_end, trimmed_len, word_end, words, words_from};
use crate::session::{joined, line_handled, rendered_all, rooms_line};
use crate::state::channel::RoomReceiver;
use crate::state::event::rendered;

verus! {

/// Replaying a room right after publishing to it gives back the room's
/// previous history with the event appended, of which only the last
/// `ROOM_HISTORY_LIMIT` events are kept; the event is the newest.
pub proof fn lemma_replay_after_publish(
    a: AppStateView,
    b: AppStateView,
    c: AppStateView,
    room: Seq<char>,
    event: ChatEventView,
)
    requires
        after_publish(a, b, room, event),
        after_replay(b, c, room),
    ensures
        replayed(b, room) == push_bounded(replayed(a, room), event),
        replayed(b, room).last() == event,
        c.rooms == b.rooms,
{
    assert(replayed(a, room) == (if a.rooms.contains_key(room) { a.rooms[room].history } else { Seq::empty() }));
}

/// Publishing events one after another to a room, whose history holds at
/// most `ROOM_HISTORY_LIMIT` events to begin with, leaves as its history the
/// last `ROOM_HISTORY_LIMIT` events of the old history followed by the
/// events published, in order.
pub proof fn lemma_replay_after_publishes(
    states: Seq<AppStateView>,
    room: Seq<char>,
    events: Seq<ChatEventView>,
)
    requires
        states.len() == events.len() + 1,
        replayed(states[0], room).len() <= ROOM_HISTORY_LIMIT,
        forall|i: int|
            0 <= i < events.len() ==> #[trigger] after_publish(
                states[i],
                states[i + 1],
                room,
                events[i],
            ),
    ensures
        replayed(states.last(), room) == last_n(
            replayed(states[0], room) + events,
            ROOM_HISTORY_LIMIT as nat,
        ),
    decreases events.len(),
{
    let h0 = replayed(states[0], room);
    if events.len() == 0 {
        assert(h0 + events =~= h0);
    } else {
        let k = events.len() - 1;
        lemma_replay_after_publishes(states.drop_last(), room, events.drop_last());
        assert(after_publish(states[k], states[k + 1], room, events[k]));
        assert(states.drop_last().last() == states[k]);
        let before = replayed(states[k], room);
        assert(before == last_n(h0 + events.drop_last(), ROOM_HISTORY_LIMIT as nat));
        assert(replayed(states[k + 1], room) == push_bounded(before, events[k]));
        assert((h0 + events.drop_last()).push(events[k]) =~= h0 + events);
        let s = h0 + events.drop_last();
        assert(last_n(last_n(s, ROOM_HISTORY_LIMIT as nat).push(events[k]), ROOM_HISTORY_LIMIT as nat)
            =~= last_n(s.push(events[k]), ROOM_HISTORY_LIMIT as nat));
    }
}

/// Publishing, subscribing, replaying and publishing to every room keep
/// every room's history within `ROOM_HISTORY_LIMIT` events.
pub proof fn lemma_histories_stay_bounded(
    a: AppStateView,
    b: AppStateView,
    room: Seq<char>,
    event: ChatEventView,
)
    requires
        histories_bounded(a.rooms),
    ensures
        after_publish(a, b, room, event) ==> histories_bounded(b.rooms),
        after_subscribe(a, b, room) ==> histories_bounded(b.rooms),
        after_sender(a, b, room) ==> histories_bounded(b.rooms),
        after_replay(a, b, room) ==> histories_bounded(b.rooms),
        published_everywhere(a.rooms, b.rooms, event) ==> histories_bounded(b.rooms),
        forall|removed: Seq<Seq<char>>| #[trigger] after_collection(a, b, removed) ==> histories_bounded(b.rooms),
{
    if published_everywhere(a.rooms, b.rooms, event) {
        assert forall|k: Seq<char>| #[trigger] b.rooms.contains_key(k) implies b.rooms[k].history.len()
            <= ROOM_HISTORY_LIMIT by {
            assert(a.rooms.contains_key(k));
        }
    }
    assert forall|removed: Seq<Seq<char>>| #[trigger] after_collection(a, b, removed) implies histories_bounded(b.rooms) by {
        assert forall|k: Seq<char>| #[trigger] b.rooms.contains_key(k) implies b.rooms[k].history.len()
            <= ROOM_HISTORY_LIMIT by {
            assert(b.rooms.dom().contains(k));
            assert(a.rooms.contains_key(k));
        }
    }
}

/// Subscribing to a room a second time creates no room and counts nothing:
/// the room exists already, and only its channel hands out one more
/// receiver.
pub proof fn lemma_subscribe_twice(
    a: AppStateView,
    b: AppStateView,
    c: AppStateView,
    room: Seq<char>,
)
    requires
        after_subscribe(a, b, room),
        after_subscribe(b, c, room),
    ensures
        b.rooms.contains_key(room),
        c.rooms == b.rooms.insert(
            room,
            RoomView {
                channel: ChannelView {
                    receivers_made: b.rooms[room].channel.receivers_made + 1,
                    ..b.rooms[room].channel
                },
                ..b.rooms[room]
            },
        ),
        c.rooms[room].channel.id == b.rooms[room].channel.id,
        c.metrics == b.metrics,
        c.channels_opened == b.channels_opened,
{
    crate::state::metrics::lemma_counter_add_zero(b.metrics.rooms_created);
}

/// Asking twice for a room's channel gives handles of the same channel: the
/// second call creates no room and counts nothing.
pub proof fn lemma_sender_twice(
    a: AppStateView,
    b: AppStateView,
    c: AppStateView,
    room: Seq<char>,
)
    requires
        after_sender(a, b, room),
        after_sender(b, c, room),
    ensures
        b.rooms.contains_key(room),
        c.rooms[room].channel.id == b.rooms[room].channel.id,
        c.rooms.dom() == b.rooms.dom(),
        c.metrics == b.metrics,
        c.channels_opened == b.channels_opened,
{
    crate::state::metrics::lemma_counter_add_zero(b.metrics.rooms_created);
    assert(c.rooms.dom() =~= b.rooms.dom());
}

/// Publishing hands the event once to the send of the room's channel and to
/// no other channel: the room's record of sent events gains exactly the
/// event, and every other room is left as it was.
pub proof fn lemma_publish_sends_once(
    a: AppStateView,
    b: AppStateView,
    room: Seq<char>,
    event: ChatEventView,
)
    requires
        after_publish(a, b, room, event),
    ensures
        b.rooms.contains_key(room),
        b.rooms[room].channel.sent == (if a.rooms.contains_key(room) {
            a.rooms[room].channel.sent
        } else {
            Seq::<ChatEventView>::empty()
        }).push(event),
        forall|k: Seq<char>| #[trigger] a.rooms.contains_key(k) && k != room ==> b.rooms[k] == a.rooms[k],
{
}

/// A member of a room gets, on the room's channel, what is published to the
/// room: while events are published one after another to a room that
/// exists, the room keeps its channel (same identity, no receiver or sender
/// handle made by publishing) and the channel is handed exactly those
/// events, in order, after what it was handed before. A receiver made when
/// `start` events had been sent therefore has exactly the events after
/// `start` in the channel's record to get.
pub proof fn lemma_channel_gets_published_events(
    states: Seq<AppStateView>,
    room: Seq<char>,
    events: Seq<ChatEventView>,
)
    requires
        states.len() == events.len() + 1,
        states[0].rooms.contains_key(room),
        forall|i: int|
            0 <= i < events.len() ==> #[trigger] after_publish(
                states[i],
                states[i + 1],
                room,
                events[i],
            ),
    ensures
        states.last().rooms.contains_key(room),
        states.last().rooms[room].channel.sent == states[0].rooms[room].channel.sent + events,
        states.last().rooms[room].channel.id == states[0].rooms[room].channel.id,
        states.last().rooms[room].channel.receivers_made == states[0].rooms[room].channel.receivers_made,
        states.last().rooms[room].channel.senders_made == states[0].rooms[room].channel.senders_made,
    decreases events.len(),
{
    if events.len() == 0 {
        assert(states[0].rooms[room].channel.sent + events =~= states[0].rooms[room].channel.sent);
    } else {
        let k = events.len() - 1;
        lemma_channel_gets_published_events(states.drop_last(), room, events.drop_last());
        assert(after_publish(states[k], states[k + 1], room, events[k]));
        assert(states.drop_last().last() == states[k]);
        assert((states[0].rooms[room].channel.sent + events.drop_last()).push(events[k])
            =~= states[0].rooms[room].channel.sent + events);
    }
}

/// The receiver count that the collection from `before` to `after` read
/// from room `k`: the last count recorded in the room when it was kept, or
/// in the record of the room when it was removed.
pub open spec fn count_read(before: AppStateView, after: AppStateView, k: Seq<char>) -> usize {
    if after.rooms.contains_key(k) {
        last_count(after.rooms[k])
    } else {
        let i = choose|i: int| before.retired.len() <= i < after.retired.len() && after.retired[i].0 == k;
        last_count(after.retired[i].1)
    }
}

/// A collection right after another one, in which every room that the first
/// kept reports the same receiver count again, removes nothing: it deletes
/// and counts no room, records no room as removed, and changes no room but
/// for the count it reads.
pub proof fn lemma_second_collection_removes_nothing(
    a: AppStateView,
    b: AppStateView,
    c: AppStateView,
    removed1: Seq<Seq<char>>,
    removed2: Seq<Seq<char>>,
)
    requires
        after_collection(a, b, removed1),
        after_collection(b, c, removed2),
        forall|k: Seq<char>| #[trigger] b.rooms.contains_key(k) ==> count_read(b, c, k) == last_count(b.rooms[k]),
    ensures
        removed2.len() == 0,
        c.rooms.dom() == b.rooms.dom(),
        c.retired == b.retired,
        c.metrics == b.metrics,
        forall|k: Seq<char>| #[trigger] b.rooms.contains_key(k) ==> c.rooms[k] == with_count(
            b.rooms[k],
            last_count(b.rooms[k]),
        ),
{
    let base = b.retired.len() as int;
    let coll = collected(b.rooms, removed2);
    if removed2.len() > 0 {
        let x = removed2[0];
        assert(b.rooms.contains_key(x) && x != GENERAL_ROOM@);
        assert(removed2.to_set().contains(x));
        assert(!c.rooms.contains_key(x));
        assert(c.retired[base] == coll[0]);
        assert(c.retired[base].0 == x);
        let i = choose|i: int| base <= i < c.retired.len() && c.retired[i].0 == x;
        let t = i - base;
        assert(c.retired[i] == coll[t]);
        assert(last_count(c.retired[i].1) == 0);
        assert(count_read(b, c, x) == 0);
        assert(false);
    }
    assert(removed2.to_set() =~= Set::<Seq<char>>::empty());
    assert(c.rooms.dom() =~= b.rooms.dom());
    assert(c.retired =~= b.retired);
    crate::state::metrics::lemma_counter_add_zero(b.metrics.rooms_deleted);
    assert forall|k: Seq<char>| #[trigger] b.rooms.contains_key(k) implies c.rooms[k] == with_count(
        b.rooms[k],
        last_count(b.rooms[k]),
    ) by {
        assert(c.rooms.dom().contains(k));
        assert(count_read(b, c, k) == last_count(c.rooms[k]));
    }
}

/// The counters agree with the rooms: the rooms created, less the rooms
/// deleted, is the number of rooms (modulo 2^64).
pub open spec fn room_counts_agree(s: AppStateView) -> bool {
    &&& s.rooms.dom().finite()
    &&& counter_add(s.metrics.rooms_deleted, s.rooms.dom().len()) == s.metrics.rooms_created
}

/// The properties that hold after every call: every history is within
/// `ROOM_HISTORY_LIMIT` events, and the room counters agree with the rooms.
pub open spec fn server_invariant(s: AppStateView) -> bool {
    &&& histories_bounded(s.rooms)
    &&& room_counts_agree(s)
}

/// A call that changes no room and none of the room and publish counters
/// (recording a connection or a lag, listing the rooms, reading the
/// counters).
pub open spec fn counters_only(a: AppStateView, b: AppStateView) -> bool {
    &&& b.rooms == a.rooms
    &&& b.channels_opened == a.channels_opened
    &&& b.metrics.rooms_created == a.metrics.rooms_created
    &&& b.metrics.rooms_deleted == a.metrics.rooms_deleted
    &&& b.metrics.publish_total == a.metrics.publish_total
    &&& b.metrics.publish_send_errors == a.metrics.publish_send_errors
}

/// One call on the server state, by the effect that its contract states.
pub open spec fn server_step(a: AppStateView, b: AppStateView) -> bool {
    ||| exists|room: Seq<char>, event: ChatEventView| #[trigger] after_publish(a, b, room, event)
    ||| exists|event: ChatEventView| #[trigger] after_publish_everywhere(a, b, event)
    ||| exists|room: Seq<char>| #[trigger] after_subscribe(a, b, room)
    ||| exists|room: Seq<char>| #[trigger] after_sender(a, b, room)
    ||| exists|room: Seq<char>| #[trigger] after_replay(a, b, room)
    ||| exists|removed: Seq<Seq<char>>| #[trigger] after_collection(a, b, removed)
    ||| counters_only(a, b)
}

/// A publish keeps the server invariant and, without wrap-around of the
/// publish counter, keeps send errors within publishes.
pub proof fn lemma_publish_keeps_invariant(a: AppStateView, b: AppStateView, room: Seq<char>, event: ChatEventView)
    requires
        server_invariant(a),
        after_publish(a, b, room, event),
    ensures
        server_invariant(b),
        a.metrics.publish_send_errors <= a.metrics.publish_total && a.metrics.publish_total
            < u64::MAX ==> b.metrics.publish_send_errors <= b.metrics.publish_total
            && b.metrics.publish_total == a.metrics.publish_total + 1,
{
    lemma_histories_stay_bounded(a, b, room, event);
    lemma_room_counts_kept(a, b, room, event);
    if a.metrics.publish_send_errors <= a.metrics.publish_total && a.metrics.publish_total < u64::MAX {
        lemma_send_errors_within_publishes(a, b, room, event);
    }
}

/// Every call keeps the server invariant, and, where the publish counter
/// does not wrap around, keeps send errors within publishes.
pub proof fn lemma_step_keeps_invariant(a: AppStateView, b: AppStateView)
    requires
        server_invariant(a),
        server_step(a, b),
    ensures
        server_invariant(b),
        a.metrics.publish_send_errors <= a.metrics.publish_total && a.metrics.publish_total
            + a.rooms.dom().len() < u64::MAX ==> b.metrics.publish_send_errors <= b.metrics.publish_total,
{
    if exists|room: Seq<char>, event: ChatEventView| #[trigger] after_publish(a, b, room, event) {
        let (room, event) = choose|room: Seq<char>, event: ChatEventView| #[trigger] after_publish(a, b, room, event);
        lemma_publish_keeps_invariant(a, b, room, event);
    } else if exists|event: ChatEventView| #[trigger] after_publish_everywhere(a, b, event) {
        let event = choose|event: ChatEventView| #[trigger] after_publish_everywhere(a, b, event);
        let (names, steps) = choose|names: Seq<Seq<char>>, steps: Seq<AppStateView>|
            #![trigger names.to_set(), steps.last()]
            {
                &&& names.no_duplicates()
                &&& names.to_set() == a.rooms.dom()
                &&& steps.len() == names.len() + 1
                &&& steps[0] == a
                &&& steps.last() == b
                &&& forall|i: int|
                    0 <= i < names.len() ==> #[trigger] after_publish(steps[i], steps[i + 1], names[i], event)
            };
        names.unique_seq_to_set();
        lemma_publishes_keep_invariant(steps, names, event, names.len() as int);
    } else if exists|room: Seq<char>| #[trigger] after_subscribe(a, b, room) {
        let room = choose|room: Seq<char>| #[trigger] after_subscribe(a, b, room);
        lemma_histories_stay_bounded(a, b, room, arbitrary());
        lemma_room_counts_kept(a, b, room, arbitrary());
    } else if exists|room: Seq<char>| #[trigger] after_sender(a, b, room) {
        let room = choose|room: Seq<char>| #[trigger] after_sender(a, b, room);
        lemma_histories_stay_bounded(a, b, room, arbitrary());
        lemma_room_counts_kept(a, b, room, arbitrary());
    } else if exists|room: Seq<char>| #[trigger] after_replay(a, b, room) {
        let room = choose|room: Seq<char>| #[trigger] after_replay(a, b, room);
        lemma_histories_stay_bounded(a, b, room, arbitrary());
        lemma_room_counts_kept(a, b, room, arbitrary());
    } else if exists|removed: Seq<Seq<char>>| #[trigger] after_collection(a, b, removed) {
        let removed = choose|removed: Seq<Seq<char>>| #[trigger] after_collection(a, b, removed);
        lemma_histories_stay_bounded(a, b, arbitrary(), arbitrary());
        lemma_room_counts_kept_by_collection(a, b, removed);
    } else {
        assert(counters_only(a, b));
    }
}

/// Over any series of calls from a new state, every history stays within
/// `ROOM_HISTORY_LIMIT` events, the rooms created less the rooms deleted is
/// the number of rooms, and, while the publish counter stays below its
/// maximum by more than the number of rooms, the send errors never exceed
/// the publishes.
pub proof fn lemma_series_keeps_invariant(states: Seq<AppStateView>)
    requires
        states.len() >= 1,
        states[0].rooms == Map::<Seq<char>, RoomView>::empty(),
        states[0].metrics.rooms_created == 0,
        states[0].metrics.rooms_deleted == 0,
        states[0].metrics.publish_total == 0,
        states[0].metrics.publish_send_errors == 0,
        forall|i: int| 0 <= i < states.len() - 1 ==> #[trigger] server_step(states[i], states[i + 1]),
        forall|i: int|
            0 <= i < states.len() ==> #[trigger] states[i].metrics.publish_total + states[i].rooms.dom().len()
                < u64::MAX,
    ensures
        forall|i: int| 0 <= i < states.len() ==> #[trigger] server_invariant(states[i]),
        forall|i: int|
            0 <= i < states.len() ==> #[trigger] states[i].metrics.publish_send_errors
                <= states[i].metrics.publish_total,
    decreases states.len(),
{
    if states.len() == 1 {
        assert(states[0].rooms.dom() =~= Set::<Seq<char>>::empty());
        crate::state::metrics::lemma_counter_add_zero(0);
        assert(server_invariant(states[0]));
    } else {
        let init = states.drop_last();
        assert forall|i: int| 0 <= i < init.len() - 1 implies #[trigger] server_step(init[i], init[i + 1]) by {
            assert(server_step(states[i], states[i + 1]));
        }
        assert forall|i: int| 0 <= i < init.len() implies #[trigger] init[i].metrics.publish_total
            + init[i].rooms.dom().len() < u64::MAX by {
            assert(states[i].metrics.publish_total + states[i].rooms.dom().len() < u64::MAX);
        }
        lemma_series_keeps_invariant(init);
        let k = states.len() - 2;
        assert(server_invariant(init[k]));
        assert(init[k] == states[k]);
        assert(server_step(states[k], states[k + 1]));
        assert(states[k].metrics.publish_total + states[k].rooms.dom().len() < u64::MAX);
        lemma_step_keeps_invariant(states[k], states[k + 1]);
        assert forall|i: int| 0 <= i < states.len() implies #[trigger] server_invariant(states[i]) by {
            if i < init.len() {
                assert(server_invariant(init[i]));
            }
        }
        assert forall|i: int| 0 <= i < states.len() implies #[trigger] states[i].metrics.publish_send_errors
            <= states[i].metrics.publish_total by {
            if i < init.len() {
                assert(init[i].metrics.publish_send_errors <= init[i].metrics.publish_total);
            }
        }
    }
}

/// Publishing, subscribing, taking a sender handle and replaying keep the
/// counters in agreement with the rooms.
pub proof fn lemma_room_counts_kept(a: AppStateView, b: AppStateView, room: Seq<char>, event: ChatEventView)
    requires
        room_counts_agree(a),
    ensures
        after_publish(a, b, room, event) ==> room_counts_agree(b),
        after_subscribe(a, b, room) ==> room_counts_agree(b),
        after_sender(a, b, room) ==> room_counts_agree(b),
        after_replay(a, b, room) ==> room_counts_agree(b),
{
    let n = a.rooms.dom().len();
    if a.rooms.contains_key(room) {
        lemma_counter_add_zero(a.metrics.rooms_created);
        assert forall|v: RoomView| #[trigger] a.rooms.insert(room, v).dom() == a.rooms.dom() by {
            assert(a.rooms.insert(room, v).dom() =~= a.rooms.dom());
        }
    } else {
        lemma_counter_add_add(a.metrics.rooms_deleted, n, 1);
        assert forall|v: RoomView, w: RoomView| #[trigger] a.rooms.insert(room, v).insert(room, w).dom()
            == a.rooms.dom().insert(room) by {
            assert(a.rooms.insert(room, v).insert(room, w).dom() =~= a.rooms.dom().insert(room));
        }
    }
}

/// A collection keeps the counters in agreement with the rooms: it deletes
/// and counts exactly the rooms it removes, each an existing room, once.
pub proof fn lemma_room_counts_kept_by_collection(
    a: AppStateView,
    b: AppStateView,
    removed: Seq<Seq<char>>,
)
    requires
        room_counts_agree(a),
        removed.no_duplicates(),
        forall|i: int| 0 <= i < removed.len() ==> a.rooms.contains_key(#[trigger] removed[i]),
        b.rooms.dom() == a.rooms.dom().difference(removed.to_set()),
        b.metrics.rooms_created == a.metrics.rooms_created,
        b.metrics.rooms_deleted == counter_add(a.metrics.rooms_deleted, removed.len()),
    ensures
        room_counts_agree(b),
{
    let dom = a.rooms.dom();
    let gone = removed.to_set();
    removed.unique_seq_to_set();
    assert(gone.subset_of(dom)) by {
        assert forall|k: Seq<char>| gone.contains(k) implies dom.contains(k) by {
            let i = choose|i: int| 0 <= i < removed.len() && removed[i] == k;
        }
    }
    vstd::set_lib::lemma_len_subset(gone, dom);
    vstd::set_lib::lemma_set_difference_len(dom, gone);
    assert(dom.intersect(gone) =~= gone);
    lemma_counter_add_add(a.metrics.rooms_deleted, removed.len(), (dom.len() - gone.len()) as nat);
}

/// Without wrap-around, a publish never counts more send errors than
/// publishes.
pub proof fn lemma_send_errors_within_publishes(
    a: AppStateView,
    b: AppStateView,
    room: Seq<char>,
    event: ChatEventView,
)
    requires
        after_publish(a, b, room, event),
        a.metrics.publish_send_errors <= a.metrics.publish_total,
        a.metrics.publish_total < u64::MAX,
    ensures
        b.metrics.publish_send_errors <= b.metrics.publish_total,
        b.metrics.publish_total == a.metrics.publish_total + 1,
{
    vstd::arithmetic::div_mod::lemma_small_mod(
        (a.metrics.publish_total + 1) as nat,
        0x1_0000_0000_0000_0000,
    );
    vstd::arithmetic::div_mod::lemma_small_mod(
        (a.metrics.publish_send_errors + 1) as nat,
        0x1_0000_0000_0000_0000,
    );
    lemma_counter_add_zero(a.metrics.publish_send_errors);
}

/// Publishing to every room keeps the server invariant: it is a series of
/// publishes, each of which keeps it.
pub proof fn lemma_publish_everywhere_keeps_invariant(a: AppStateView, b: AppStateView, event: ChatEventView)
    requires
        server_invariant(a),
        after_publish_everywhere(a, b, event),
    ensures
        server_invariant(b),
{
    assert(server_step(a, b));
    lemma_step_keeps_invariant(a, b);
}

/// Along a series of publishes from a state that keeps the invariant, every
/// state keeps it, and, without wrap-around, the publish counter grows by
/// one per publish and stays above the send errors.
proof fn lemma_publishes_keep_invariant(
    steps: Seq<AppStateView>,
    names: Seq<Seq<char>>,
    event: ChatEventView,
    k: int,
)
    requires
        0 <= k <= names.len(),
        steps.len() == names.len() + 1,
        server_invariant(steps[0]),
        forall|i: int|
            0 <= i < names.len() ==> #[trigger] after_publish(steps[i], steps[i + 1], names[i], event),
    ensures
        server_invariant(steps[k]),
        steps[0].metrics.publish_send_errors <= steps[0].metrics.publish_total
            && steps[0].metrics.publish_total + names.len() < u64::MAX ==> {
            &&& steps[k].metrics.publish_send_errors <= steps[k].metrics.publish_total
            &&& steps[k].metrics.publish_total == steps[0].metrics.publish_total + k
        },
    decreases k,
{
    if k > 0 {
        lemma_publishes_keep_invariant(steps, names, event, k - 1);
        let j = k - 1;
        assert(after_publish(steps[j], steps[j + 1], names[j], event));
        lemma_publish_keeps_invariant(steps[j], steps[j + 1], names[j], event);
    }
}

/// A canonical room name starts with `#`, and normalizing it again changes
/// nothing.
pub proof fn lemma_normalize_idempotent(name: Seq<char>)
    ensures
        normalized_room(name).len() > 0,
        normalized_room(name)[0] == '#',
        normalized_room(normalized_room(name)) == normalized_room(name),
{
}

/// A line never yields the error for an empty command: a line that starts
/// with `/` has a first word.
pub proof fn lemma_no_empty_command(line: Seq<char>)
    ensures
        parsed(line) != Err::<crate::command::ActionView, CommandError>(CommandError::EmptyCommand),
{
    if line.len() > 0 && line[0] == '/' {
        assert(!is_space(line[0]));
        lemma_word_end_bounds(line, 1);
        assert(words(line).len() >= 1);
    }
}


/// What an event's line holds, for each kind of event: every field whole, at
/// its place between the fixed words, and nothing else. A system event is
/// shown as its text.
pub proof fn lemma_rendered_lines(e: ChatEventView)
    ensures
        e matches ChatEventView::System { text } ==> rendered(e) == text,
        e matches ChatEventView::UserJoined { user, room } ==> {
            let r = rendered(e);
            &&& r.len() == user.len() + room.len() + 10
            &&& r.subrange(0, 2) == "* "@
            &&& r.subrange(2, 2 + user.len() as int) == user
            &&& r.subrange(2 + user.len() as int, 10 + user.len() as int) == " joined "@
            &&& r.subrange(10 + user.len() as int, r.len() as int) == room
        },
        e matches ChatEventView::UserLeft { user, room } ==> {
            let r = rendered(e);
            &&& r.len() == user.len() + room.len() + 8
            &&& r.subrange(0, 2) == "* "@
            &&& r.subrange(2, 2 + user.len() as int) == user
            &&& r.subrange(2 + user.len() as int, 8 + user.len() as int) == " left "@
            &&& r.subrange(8 + user.len() as int, r.len() as int) == room
        },
        e matches ChatEventView::NickChanged { old, new } ==> {
            let r = rendered(e);
            &&& r.len() == old.len() + new.len() + 19
            &&& r.subrange(0, 2) == "* "@
            &&& r.subrange(2, 2 + old.len() as int) == old
            &&& r.subrange(2 + old.len() as int, 19 + old.len() as int) == " is now known as "@
            &&& r.subrange(19 + old.len() as int, r.len() as int) == new
        },
        e matches ChatEventView::Message { room, user, text } ==> {
            let r = rendered(e);
            let a = room.len() as int;
            let b = user.len() as int;
            &&& r.len() == a + b + text.len() + 6
            &&& r.subrange(0, 1) == "["@
            &&& r.subrange(1, 1 + a) == room
            &&& r.subrange(1 + a, 3 + a) == "] "@
            &&& r.subrange(3 + a, 3 + a + b) == user
            &&& r.subrange(3 + a + b, 6 + a + b) == " > "@
            &&& r.subrange(6 + a + b, r.len() as int) == text
        },
{
    reveal_strlit("* ");
    reveal_strlit(" joined ");
    reveal_strlit(" left ");
    reveal_strlit(" is now known as ");
    reveal_strlit("[");
    reveal_strlit("] ");
    reveal_strlit(" > ");
    match e {
        ChatEventView::System { text } => {},
        ChatEventView::UserJoined { user, room } => {
            let r = rendered(e);
            assert(r.subrange(0, 2) =~= "* "@);
            assert(r.subrange(2, 2 + user.len() as int) =~= user);
            assert(r.subrange(2 + user.len() as int, 10 + user.len() as int) =~= " joined "@);
            assert(r.subrange(10 + user.len() as int, r.len() as int) =~= room);
        },
        ChatEventView::UserLeft { user, room } => {
            let r = rendered(e);
            assert(r.subrange(0, 2) =~= "* "@);
            assert(r.subrange(2, 2 + user.len() as int) =~= user);
            assert(r.subrange(2 + user.len() as int, 8 + user.len() as int) =~= " left "@);
            assert(r.subrange(8 + user.len() as int, r.len() as int) =~= room);
        },
        ChatEventView::NickChanged { old, new } => {
            let r = rendered(e);
            assert(r.subrange(0, 2) =~= "* "@);
            assert(r.subrange(2, 2 + old.len() as int) =~= old);
            assert(r.subrange(2 + old.len() as int, 19 + old.len() as int) =~= " is now known as "@);
            assert(r.subrange(19 + old.len() as int, r.len() as int) =~= new);
        },
        ChatEventView::Message { room, user, text } => {
            let r = rendered(e);
            let a = room.len() as int;
            let b = user.len() as int;
            assert(r.subrange(0, 1) =~= "["@);
            assert(r.subrange(1, 1 + a) =~= room);
            assert(r.subrange(1 + a, 3 + a) =~= "] "@);
            assert(r.subrange(3 + a, 3 + a + b) =~= user);
            assert(r.subrange(3 + a + b, 6 + a + b) =~= " > "@);
            assert(r.subrange(6 + a + b, r.len() as int) =~= text);
        },
    }
}

/// Replaying a history shows one line per event, in the same order, each the
/// event's own line.
pub proof fn lemma_rendered_all_lines(events: Seq<ChatEventView>)
    ensures
        rendered_all(events).len() == events.len(),
        forall|i: int| 0 <= i < events.len() ==> #[trigger] rendered_all(events)[i] == rendered(events[i]),
        forall|a: Seq<ChatEventView>, b: Seq<ChatEventView>| #[trigger] rendered_all(a + b) == rendered_all(a)
            + rendered_all(b),
{
    assert forall|a: Seq<ChatEventView>, b: Seq<ChatEventView>| #[trigger] rendered_all(a + b) == rendered_all(a)
        + rendered_all(b) by {
        assert(rendered_all(a + b) =~= rendered_all(a) + rendered_all(b));
    }
}

/// A room name that does not start with `#` is kept whole behind the `#`
/// that is put in front; one that does is kept as it is. Either way the
/// result starts with `#`.
pub proof fn lemma_normalized_room_keeps_name(name: Seq<char>)
    ensures
        name.len() > 0 && name[0] == '#' ==> normalized_room(name) == name,
        !(name.len() > 0 && name[0] == '#') ==> {
            &&& normalized_room(name).len() == name.len() + 1
            &&& normalized_room(name)[0] == '#'
            &&& normalized_room(name).subrange(1, normalized_room(name).len() as int) == name
        },
{
    if !(name.len() > 0 && name[0] == '#') {
        assert(normalized_room(name).subrange(1, normalized_room(name).len() as int) =~= name);
    }
}

/// The total length of the parts.
pub open spec fn total_len(parts: Seq<Seq<char>>) -> nat
    decreases parts.len(),
{
    if parts.len() == 0 {
        0
    } else {
        total_len(parts.drop_last()) + parts.last().len()
    }
}

/// Where part `i` starts when the parts are laid out one after another with
/// `sep` between each two.
pub open spec fn part_start(parts: Seq<Seq<char>>, sep: Seq<char>, i: int) -> int
    decreases i,
{
    if i <= 0 {
        0
    } else {
        part_start(parts, sep, i - 1) + parts[i - 1].len() + sep.len()
    }
}

/// A part never starts before the beginning.
proof fn lemma_part_start_nonneg(parts: Seq<Seq<char>>, sep: Seq<char>, i: int)
    ensures
        part_start(parts, sep, i) >= 0,
    decreases i,
{
    if i > 0 {
        lemma_part_start_nonneg(parts, sep, i - 1);
    }
}

/// Where a part starts depends only on the parts before it.
proof fn lemma_part_start_prefix(parts: Seq<Seq<char>>, sep: Seq<char>, i: int)
    requires
        0 <= i < parts.len(),
    ensures
        part_start(parts.drop_last(), sep, i) == part_start(parts, sep, i),
    decreases i,
{
    if i > 0 {
        lemma_part_start_prefix(parts, sep, i - 1);
    }
}

/// With a separator of two characters, part `i` starts after the total
/// length of the parts before it and `i` separators.
proof fn lemma_part_start_total(parts: Seq<Seq<char>>, sep: Seq<char>, i: int)
    requires
        0 <= i <= parts.len(),
        sep.len() == 2,
    ensures
        part_start(parts, sep, i) == total_len(parts.take(i)) + 2 * i,
    decreases i,
{
    if i > 0 {
        lemma_part_start_total(parts, sep, i - 1);
        assert(parts.take(i).drop_last() =~= parts.take(i - 1));
    } else {
        assert(parts.take(0) =~= Seq::<Seq<char>>::empty());
    }
}

/// Joined parts end with the last part: their length is where the last part
/// starts plus its length.
proof fn lemma_joined_len(parts: Seq<Seq<char>>, sep: Seq<char>)
    requires
        parts.len() > 0,
    ensures
        joined(parts, sep).len() == part_start(parts, sep, parts.len() - 1) + parts.last().len(),
    decreases parts.len(),
{
    let n = parts.len() as int;
    if n > 1 {
        lemma_joined_len(parts.drop_last(), sep);
        lemma_part_start_prefix(parts, sep, n - 2);
    }
}

/// Parts joined with a separator hold part `i` whole at its place, followed
/// by the separator unless it is the last part.
pub proof fn lemma_joined_part(parts: Seq<Seq<char>>, sep: Seq<char>, i: int)
    requires
        0 <= i < parts.len(),
    ensures
        part_start(parts, sep, i) + parts[i].len() <= joined(parts, sep).len(),
        joined(parts, sep).subrange(part_start(parts, sep, i), part_start(parts, sep, i) + parts[i].len())
            == parts[i],
        i < parts.len() - 1 ==> joined(parts, sep).subrange(
            part_start(parts, sep, i) + parts[i].len(),
            part_start(parts, sep, i + 1),
        ) == sep,
    decreases parts.len(),
{
    let n = parts.len() as int;
    let j = joined(parts, sep);
    lemma_joined_len(parts, sep);
    lemma_part_start_nonneg(parts, sep, i);
    if n == 1 {
        assert(j.subrange(0, parts[0].len() as int) =~= parts[0]);
    } else {
        let init = parts.drop_last();
        let j0 = joined(init, sep);
        lemma_joined_len(init, sep);
        lemma_part_start_prefix(parts, sep, n - 2);
        assert(j == j0 + sep + parts.last());
        let a = part_start(parts, sep, i);
        if i == n - 1 {
            assert(a == j0.len() + sep.len());
            assert(j.subrange(a, a + parts[i].len()) =~= parts.last());
        } else {
            lemma_joined_part(init, sep, i);
            lemma_part_start_prefix(parts, sep, i);
            assert(init[i] == parts[i]);
            assert(j.subrange(a, a + parts[i].len()) =~= j0.subrange(a, a + parts[i].len()));
            let b = part_start(parts, sep, i + 1);
            if i < n - 2 {
                lemma_joined_part(init, sep, i + 1);
                lemma_part_start_prefix(parts, sep, i + 1);
                assert(j.subrange(a + parts[i].len(), b) =~= j0.subrange(a + parts[i].len(), b));
            } else {
                assert(a + parts[i].len() == j0.len());
                assert(j.subrange(a + parts[i].len(), b) =~= sep);
            }
        }
    }
}

/// Part `i` of the `/rooms` reply, and the separator after it.
proof fn lemma_rooms_line_part(names: Seq<Seq<char>>, i: int)
    requires
        0 <= i < names.len(),
    ensures
        rooms_line(names).subrange(
            7 + part_start(names, ", "@, i),
            7 + part_start(names, ", "@, i) + names[i].len(),
        ) == names[i],
        i < names.len() - 1 ==> rooms_line(names).subrange(
            7 + part_start(names, ", "@, i) + names[i].len(),
            7 + part_start(names, ", "@, i + 1),
        ) == ", "@,
{
    reveal_strlit("rooms: ");
    let sep = ", "@;
    let j = joined(names, sep);
    let r = rooms_line(names);
    assert(r == "rooms: "@ + j);
    lemma_joined_part(names, sep, i);
    lemma_part_start_nonneg(names, sep, i);
    let a = part_start(names, sep, i);
    assert(r.subrange(7 + a, 7 + a + names[i].len()) =~= j.subrange(a, a + names[i].len()));
    if i < names.len() - 1 {
        let b = part_start(names, sep, i + 1);
        lemma_joined_part(names, sep, i + 1);
        assert(r.subrange(7 + a + names[i].len(), 7 + b) =~= j.subrange(a + names[i].len(), b));
    }
}

/// The reply to `/rooms` names every room whole, in the order listed, after
/// `rooms: ` and separated by `, `, and holds nothing else; with no room it
/// says so.
pub proof fn lemma_rooms_line_names_every_room(names: Seq<Seq<char>>)
    ensures
        names.len() == 0 ==> rooms_line(names) == "rooms: (none)"@,
        names.len() > 0 ==> {
            let r = rooms_line(names);
            &&& r.len() == 7 + total_len(names) + 2 * (names.len() - 1)
            &&& r.subrange(0, 7) == "rooms: "@
            &&& forall|i: int| 0 <= i < names.len() ==> r.subrange(
                7 + part_start(names, ", "@, i),
                7 + part_start(names, ", "@, i) + #[trigger] names[i].len(),
            ) == names[i]
            &&& forall|i: int| 0 <= i < names.len() - 1 ==> r.subrange(
                7 + part_start(names, ", "@, i) + #[trigger] names[i].len(),
                7 + part_start(names, ", "@, i + 1),
            ) == ", "@
        },
{
    reveal_strlit("rooms: ");
    reveal_strlit(", ");
    if names.len() > 0 {
        let sep = ", "@;
        let n = names.len() as int;
        let r = rooms_line(names);
        assert(r == "rooms: "@ + joined(names, sep));
        lemma_joined_len(names, sep);
        lemma_part_start_total(names, sep, n - 1);
        assert(names.take(n) =~= names);
        assert(names.take(n).drop_last() =~= names.take(n - 1));
        assert(r.subrange(0, 7) =~= "rooms: "@);
        assert forall|i: int| 0 <= i < n implies r.subrange(
            7 + part_start(names, sep, i),
            7 + part_start(names, sep, i) + #[trigger] names[i].len(),
        ) == names[i] by {
            lemma_rooms_line_part(names, i);
        }
        assert forall|i: int| 0 <= i < n - 1 implies r.subrange(
            7 + part_start(names, sep, i) + #[trigger] names[i].len(),
            7 + part_start(names, sep, i + 1),
        ) == sep by {
            lemma_rooms_line_part(names, i);
        }
    }
}

/// A line that is not a command (it does not start with `/`) is a chat
/// message, published whole to the sender's current room under the sender's
/// name: that room's history gains it and its channel is sent it once, no
/// other room changes, and the user stays where and who it was. An empty
/// line publishes nothing.
pub proof fn lemma_chat_line_goes_to_the_users_room(
    input: Seq<char>,
    room: Seq<char>,
    name: Seq<char>,
    before: AppStateView,
    room1: Seq<char>,
    name1: Seq<char>,
    after: AppStateView,
    replies: Seq<Seq<char>>,
    announce: bool,
    close: bool,
    receiver: RoomReceiver,
    receiver1: RoomReceiver,
)
    requires
        line_handled(input, room, name, before, room1, name1, after, replies, announce, close, receiver, receiver1),
        input.len() == 0 || input[0] != '/',
    ensures
        room1 == room,
        name1 == name,
        receiver1 == receiver,
        replies.len() == 0,
        !announce,
        !close,
        input.len() == 0 ==> after == before,
        input.len() > 0 ==> after_publish(
            before,
            after,
            room,
            ChatEventView::Message { room, user: name, text: input },
        ),
        input.len() > 0 ==> after.rooms[room].history.last() == (ChatEventView::Message { room, user: name, text: input }),
        input.len() > 0 ==> forall|k: Seq<char>| #[trigger] before.rooms.contains_key(k) && k != room ==> after.rooms[k] == before.rooms[k],
{
    if input.len() > 0 {
        let e = ChatEventView::Message { room, user: name, text: input };
        lemma_publish_sends_once(before, after, room, e);
        let h = if before.rooms.contains_key(room) { before.rooms[room].history } else { Seq::empty() };
        crate::state::history::lemma_push_bounded_shape(h, e);
    }
}

/// `/nick`, `/quit` and a refused command, by what they do: a rename is
/// announced in the user's room under the old and the new name; quitting
/// tells the user's room that the user left and closes the connection; a
/// refused command changes nothing and answers with the reason.
pub proof fn lemma_command_lines(
    input: Seq<char>,
    room: Seq<char>,
    name: Seq<char>,
    before: AppStateView,
    room1: Seq<char>,
    name1: Seq<char>,
    after: AppStateView,
    replies: Seq<Seq<char>>,
    announce: bool,
    close: bool,
    receiver: RoomReceiver,
    receiver1: RoomReceiver,
)
    requires
        line_handled(input, room, name, before, room1, name1, after, replies, announce, close, receiver, receiver1),
    ensures
        parsed(input) matches Ok(ActionView::Nick(n)) ==> {
            &&& name1 == n && room1 == room && !close && replies.len() == 0
            &&& after_publish(before, after, room, ChatEventView::NickChanged { old: name, new: n })
        },
        parsed(input) == Ok::<ActionView, CommandError>(ActionView::Quit) ==> {
            &&& close && room1 == room && name1 == name && replies.len() == 0
            &&& after_publish(before, after, room, ChatEventView::UserLeft { user: name, room })
        },
        parsed(input) matches Err(e) ==> {
            &&& after == before && !close && room1 == room && name1 == name
            &&& replies == seq!["error: "@ + error_text(e)]
        },
        parsed(input) == Ok::<ActionView, CommandError>(ActionView::Rooms) ==> {
            &&& after == before && !close && room1 == room && name1 == name && replies.len() == 1
            &&& exists|names: Seq<Seq<char>>|
                names.no_duplicates() && names.to_set() == before.rooms.dom() && #[trigger] rooms_line(names)
                    == replies[0]
        },
        parsed(input) matches Ok(ActionView::Join(r)) ==> {
            &&& room1 == normalized_room(r) && name1 == name && announce && !close
            &&& receiver1.channel() == after.rooms[normalized_room(r)].channel.id
        },
{
    if parsed(input) is Ok && parsed(input)->Ok_0 is Rooms {
        let names = choose|names: Seq<Seq<char>>|
            {
                &&& names.no_duplicates()
                &&& names.to_set() == before.rooms.dom()
                &&& replies == seq![#[trigger] rooms_line(names)]
            };
        assert(rooms_line(names) == replies[0]);
    }
}


/// Removing trailing whitespace keeps a prefix of the line: everything it
/// drops is whitespace, and what it keeps is empty or ends in a character
/// that is not whitespace.
pub proof fn lemma_trimmed_end_drops_only_trailing_space(s: Seq<char>)
    ensures
        trimmed_len(s) <= s.len(),
        trimmed_end(s).len() == trimmed_len(s),
        trimmed_end(s) == s.subrange(0, trimmed_end(s).len() as int),
        forall|i: int| trimmed_end(s).len() <= i < s.len() ==> is_space(#[trigger] s[i]),
        trimmed_end(s).len() > 0 ==> !is_space(trimmed_end(s).last()),
    decreases s.len(),
{
    if s.len() > 0 && is_space(s.last()) {
        lemma_trimmed_end_drops_only_trailing_space(s.drop_last());
        assert(trimmed_len(s) == trimmed_len(s.drop_last()));
        assert(s.drop_last().subrange(0, trimmed_len(s) as int) =~= s.subrange(0, trimmed_len(s) as int));
        assert forall|i: int| trimmed_end(s).len() <= i < s.len() implies is_space(#[trigger] s[i]) by {
            if i < s.len() - 1 {
                assert(s.drop_last()[i] == s[i]);
            }
        }
    } else {
        assert(s.subrange(0, s.len() as int) =~= s);
    }
}

/// A word that runs from `i` up to `j`, where whitespace or the end of the
/// line follows, ends at `j`.
proof fn lemma_word_end_at(s: Seq<char>, i: int, j: int)
    requires
        0 <= i <= j <= s.len(),
        forall|k: int| i <= k < j ==> !is_space(#[trigger] s[k]),
        j == s.len() || is_space(s[j]),
    ensures
        word_end(s, i) == j,
    decreases j - i,
{
    if i < j {
        lemma_word_end_at(s, i + 1, j);
    }
}

/// The words of a line from `i` on, when a word runs from `i` up to `j`.
proof fn lemma_words_from_word(s: Seq<char>, i: int, j: int)
    requires
        0 <= i < j <= s.len(),
        forall|k: int| i <= k < j ==> !is_space(#[trigger] s[k]),
        j == s.len() || is_space(s[j]),
    ensures
        words_from(s, i) == seq![s.subrange(i, j)] + words_from(s, j),
{
    lemma_word_end_at(s, i, j);
}

/// How a command line is read, for every argument word `w` (no whitespace in
/// it): `/join w` and `/nick w` carry `w` whole; `/rooms` and `/quit` are
/// read as such; `/join` or `/nick` without a word is refused with its usage;
/// a line that does not start with `/` is a message of the whole line.
pub proof fn lemma_command_reading(w: Seq<char>, line: Seq<char>)
    requires
        w.len() > 0,
        forall|k: int| 0 <= k < w.len() ==> !is_space(#[trigger] w[k]),
    ensures
        parsed("/join "@ + w) == Ok::<ActionView, CommandError>(ActionView::Join(w)),
        parsed("/nick "@ + w) == Ok::<ActionView, CommandError>(ActionView::Nick(w)),
        parsed("/join"@) == Err::<ActionView, CommandError>(CommandError::JoinUsage),
        parsed("/nick"@) == Err::<ActionView, CommandError>(CommandError::NickUsage),
        parsed("/rooms"@) == Ok::<ActionView, CommandError>(ActionView::Rooms),
        parsed("/quit"@) == Ok::<ActionView, CommandError>(ActionView::Quit),
        line.len() > 0 && line[0] != '/' ==> parsed(line) == Ok::<ActionView, CommandError>(
            ActionView::Message(line),
        ),
{
    reveal_strlit("/join ");
    reveal_strlit("/nick ");
    reveal_strlit("/join");
    reveal_strlit("/nick");
    reveal_strlit("/rooms");
    reveal_strlit("/quit");
    let n = w.len() as int;
    let sj = "/join "@ + w;
    assert forall|k: int| 0 <= k < 5 implies !is_space(#[trigger] sj[k]) by {}
    lemma_words_from_word(sj, 0, 5);
    assert(words_from(sj, 5) == words_from(sj, 6));
    assert forall|k: int| 6 <= k < 6 + n implies !is_space(#[trigger] sj[k]) by {
        assert(sj[k] == w[k - 6]);
    }
    lemma_words_from_word(sj, 6, 6 + n);
    assert(sj.subrange(0, 5) =~= "/join"@);
    assert(sj.subrange(6, 6 + n) =~= w);
    assert(words(sj) =~= seq!["/join"@, w]);
    let sn = "/nick "@ + w;
    assert forall|k: int| 0 <= k < 5 implies !is_space(#[trigger] sn[k]) by {}
    lemma_words_from_word(sn, 0, 5);
    assert(words_from(sn, 5) == words_from(sn, 6));
    assert forall|k: int| 6 <= k < 6 + n implies !is_space(#[trigger] sn[k]) by {
        assert(sn[k] == w[k - 6]);
    }
    lemma_words_from_word(sn, 6, 6 + n);
    assert(sn.subrange(0, 5) =~= "/nick"@);
    assert(sn.subrange(6, 6 + n) =~= w);
    assert(words(sn) =~= seq!["/nick"@, w]);
    assert("/nick"@ != "/join"@) by {
        assert("/nick"@[1] != "/join"@[1]);
    }
    let lj = "/join"@;
    assert forall|k: int| 0 <= k < 5 implies !is_space(#[trigger] lj[k]) by {}
    lemma_words_from_word(lj, 0, 5);
    assert(lj.subrange(0, 5) =~= lj);
    let ln = "/nick"@;
    assert forall|k: int| 0 <= k < 5 implies !is_space(#[trigger] ln[k]) by {}
    lemma_words_from_word(ln, 0, 5);
    assert(ln.subrange(0, 5) =~= ln);
    let lr = "/rooms"@;
    assert forall|k: int| 0 <= k < 6 implies !is_space(#[trigger] lr[k]) by {}
    lemma_words_from_word(lr, 0, 6);
    assert(lr.subrange(0, 6) =~= lr);
    assert(lr != "/join"@ && lr != "/nick"@);
    let lq = "/quit"@;
    assert forall|k: int| 0 <= k < 5 implies !is_space(#[trigger] lq[k]) by {}
    lemma_words_from_word(lq, 0, 5);
    assert(lq.subrange(0, 5) =~= lq);
    assert(lq != "/join"@ && lq != "/nick"@ && lq != "/rooms"@) by {
        assert(lq[1] != "/join"@[1]);
        assert(lq[1] != "/nick"@[1]);
    }
}

/// A full history drops its oldest event when one more is published: the
/// rest move up by one and the new event is last.
pub proof fn lemma_full_history_drops_oldest<A>(history: Seq<A>, event: A)
    requires
        history.len() == ROOM_HISTORY_LIMIT,
    ensures
        push_bounded(history, event) == history.drop_first().push(event),
{
    assert(push_bounded(history, event) =~= history.drop_first().push(event));
}


/// After a user joins a room, the next chat line the user sends is published
/// to that room (under the room's canonical name), not to the room the user
/// left.
pub proof fn lemma_chat_after_join_goes_to_the_new_room(
    join: Seq<char>,
    target: Seq<char>,
    chat: Seq<char>,
    room: Seq<char>,
    name: Seq<char>,
    s0: AppStateView,
    room1: Seq<char>,
    name1: Seq<char>,
    s1: AppStateView,
    room2: Seq<char>,
    name2: Seq<char>,
    s2: AppStateView,
    replies1: Seq<Seq<char>>,
    replies2: Seq<Seq<char>>,
    announce1: bool,
    announce2: bool,
    close1: bool,
    close2: bool,
    r0: RoomReceiver,
    r1: RoomReceiver,
    r2: RoomReceiver,
)
    requires
        parsed(join) == Ok::<ActionView, CommandError>(ActionView::Join(target)),
        line_handled(join, room, name, s0, room1, name1, s1, replies1, announce1, close1, r0, r1),
        line_handled(chat, room1, name1, s1, room2, name2, s2, replies2, announce2, close2, r1, r2),
        chat.len() > 0,
        chat[0] != '/',
    ensures
        room2 == normalized_room(target),
        after_publish(
            s1,
            s2,
            normalized_room(target),
            ChatEventView::Message { room: normalized_room(target), user: name, text: chat },
        ),
{
    lemma_command_lines(join, room, name, s0, room1, name1, s1, replies1, announce1, close1, r0, r1);
    lemma_chat_line_goes_to_the_users_room(
        chat, room1, name1, s1, room2, name2, s2, replies2, announce2, close2, r1, r2,
    );
}


/// A counter adds exactly while the sum fits in 64 bits, and wraps to zero
/// one step past its maximum.
pub proof fn lemma_counter_adds_until_it_wraps(x: u64, n: nat)
    ensures
        x + n <= u64::MAX ==> counter_add(x, n) == x + n,
        x == u64::MAX ==> counter_add(x, 1) == 0,
{
    if x + n <= u64::MAX {
        vstd::arithmetic::div_mod::lemma_small_mod((x + n) as nat, 0x1_0000_0000_0000_0000);
    }
}

} // verus!
