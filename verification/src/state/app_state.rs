//! The server state shared by all connections: the rooms and the metrics.

use std::sync::Arc;
use dashmap::DashMap;
use vstd::prelude::*;

use crate::state::channel::{ChannelView, RoomReceiver, RoomSender, silent};
use crate::state::event::{ChatEvent, ChatEventView};
use crate::state::history::ROOM_HISTORY_LIMIT;
use crate::state::metrics::{
    AppMetrics, AppMetricsSnapshot, counter_add, zero_snapshot, lemma_counter_add_add,
    lemma_counter_add_zero,
};
use crate::state::room::{Room, RoomView, events_view, fresh_room, room_published, share_event};
use crate::state::room_table::{
    room_table, no_rooms, names_view, table_new, table_contains, table_insert, table_take,
    table_names, table_view,
};

verus! {

/// The room that every connection starts in, which is never collected.
pub const GENERAL_ROOM: &'static str = "#general";

/// The server state: the rooms and the metrics, and the ghost record of the
/// rooms that collections removed.
pub struct AppState {
    rooms: DashMap<String, Room>,
    metrics: AppMetrics,
    channels_opened: Ghost<nat>,
    retired: Ghost<Seq<(Seq<char>, RoomView)>>,
}

/// The model of the server state: each room's model by the room's name, and
/// the counters.
pub struct AppStateView {
    pub rooms: Map<Seq<char>, RoomView>,
    pub metrics: AppMetricsSnapshot,
    /// How many room channels were opened; the next one gets this number as
    /// its identity.
    pub channels_opened: nat,
    /// The rooms that collections removed, in the order they were removed,
    /// each by its name and its model as it was taken out.
    pub retired: Seq<(Seq<char>, RoomView)>,
}

impl View for AppState {
    type V = AppStateView;

    closed spec fn view(&self) -> AppStateView {
        AppStateView {
            rooms: room_table(self.rooms),
            metrics: self.metrics@,
            channels_opened: self.channels_opened@,
            retired: self.retired@,
        }
    }
}

/// Every room keeps at most `ROOM_HISTORY_LIMIT` events.
pub open spec fn histories_bounded(rooms: Map<Seq<char>, RoomView>) -> bool {
    forall|k: Seq<char>| #[trigger] rooms.contains_key(k) ==> rooms[k].history.len() <= ROOM_HISTORY_LIMIT
}

/// The rooms once `name` is sure to exist: a missing room is made fresh,
/// with a channel of identity `next`.
pub open spec fn with_room(
    rooms: Map<Seq<char>, RoomView>,
    name: Seq<char>,
    next: nat,
) -> Map<Seq<char>, RoomView> {
    if rooms.contains_key(name) {
        rooms
    } else {
        rooms.insert(name, fresh_room(next))
    }
}

/// 1 when a room of that name has still to be created, else 0.
pub open spec fn created(rooms: Map<Seq<char>, RoomView>, name: Seq<char>) -> nat {
    if rooms.contains_key(name) {
        0
    } else {
        1
    }
}

/// The rooms after `event` is published to room `name`, which is created
/// first when missing, and the send reported `delivered`.
pub open spec fn published_to(
    rooms: Map<Seq<char>, RoomView>,
    name: Seq<char>,
    next: nat,
    event: ChatEventView,
    delivered: bool,
) -> Map<Seq<char>, RoomView> {
    with_room(rooms, name, next).insert(
        name,
        room_published(with_room(rooms, name, next)[name], event, delivered),
    )
}

/// What the last send on a room's channel reported: `true` when a receiver
/// took the event.
pub open spec fn last_outcome(room: RoomView) -> bool {
    room.channel.outcomes.last()
}

/// `after` is `before` with `event` published to every room: the same rooms,
/// each with the event appended to its history and handed once to its
/// channel's send, which reported what the room's last outcome records.
pub open spec fn published_everywhere(
    before: Map<Seq<char>, RoomView>,
    after: Map<Seq<char>, RoomView>,
    event: ChatEventView,
) -> bool {
    &&& after.dom() == before.dom()
    &&& forall|k: Seq<char>| #[trigger] before.contains_key(k) ==> after[k] == room_published(
        before[k],
        event,
        last_outcome(after[k]),
    )
}

/// The rooms whose last send found no receiver.
pub open spec fn undelivered(rooms: Map<Seq<char>, RoomView>) -> Set<Seq<char>> {
    rooms.dom().filter(|k: Seq<char>| !last_outcome(rooms[k]))
}

/// The rooms after a receiver of room `name`'s channel is handed out; the
/// room is made fresh first when missing.
pub open spec fn subscribed_to(
    rooms: Map<Seq<char>, RoomView>,
    name: Seq<char>,
    next: nat,
) -> Map<Seq<char>, RoomView> {
    let room = with_room(rooms, name, next)[name];
    with_room(rooms, name, next).insert(
        name,
        RoomView {
            channel: ChannelView { receivers_made: room.channel.receivers_made + 1, ..room.channel },
            ..room
        },
    )
}

/// The rooms after a sender handle of room `name`'s channel is handed out;
/// the room is made fresh first when missing.
pub open spec fn sender_given(
    rooms: Map<Seq<char>, RoomView>,
    name: Seq<char>,
    next: nat,
) -> Map<Seq<char>, RoomView> {
    let room = with_room(rooms, name, next)[name];
    with_room(rooms, name, next).insert(
        name,
        RoomView {
            channel: ChannelView { senders_made: room.channel.senders_made + 1, ..room.channel },
            ..room
        },
    )
}

/// The room after the receiver count `count` is read from its channel.
pub open spec fn with_count(room: RoomView, count: usize) -> RoomView {
    RoomView {
        channel: ChannelView { counts_read: room.channel.counts_read.push(count), ..room.channel },
        ..room
    }
}

/// The last receiver count read from a room's channel.
pub open spec fn last_count(room: RoomView) -> usize {
    room.channel.counts_read.last()
}

/// The counters after a room of that name is made sure to exist.
pub open spec fn after_room_handle(
    m: AppMetricsSnapshot,
    rooms: Map<Seq<char>, RoomView>,
    name: Seq<char>,
) -> AppMetricsSnapshot {
    AppMetricsSnapshot { rooms_created: counter_add(m.rooms_created, created(rooms, name)), ..m }
}

/// The effect of publishing `event` to room `room`: the room is created when
/// missing, the event appended to its history and handed once to the send of
/// its channel, and the publish counted; a send error is counted exactly
/// when that send reported that no receiver took the event. Whether one did
/// depends on the receivers that other tasks hold, except that a channel
/// that never handed out a receiver or sender has none.
pub open spec fn after_publish(
    before: AppStateView,
    after: AppStateView,
    room: Seq<char>,
    event: ChatEventView,
) -> bool {
    let delivered = last_outcome(after.rooms[room]);
    &&& after.rooms == published_to(before.rooms, room, before.channels_opened, event, delivered)
    &&& after.channels_opened == before.channels_opened + created(before.rooms, room)
    &&& after.retired == before.retired
    &&& after.metrics == (AppMetricsSnapshot {
        rooms_created: counter_add(before.metrics.rooms_created, created(before.rooms, room)),
        publish_total: counter_add(before.metrics.publish_total, 1),
        publish_send_errors: counter_add(
            before.metrics.publish_send_errors,
            if delivered { 0 } else { 1 },
        ),
        ..before.metrics
    })
    &&& silent(with_room(before.rooms, room, before.channels_opened)[room].channel) ==> !delivered
}

/// The effect of publishing `event` to every room: the same as publishing
/// it to the rooms one by one, in an order that names every room once.
pub open spec fn after_publish_everywhere(
    before: AppStateView,
    after: AppStateView,
    event: ChatEventView,
) -> bool {
    exists|names: Seq<Seq<char>>, steps: Seq<AppStateView>|
        #![trigger names.to_set(), steps.last()]
        {
            &&& names.no_duplicates()
            &&& names.to_set() == before.rooms.dom()
            &&& steps.len() == names.len() + 1
            &&& steps[0] == before
            &&& steps.last() == after
            &&& forall|i: int|
                0 <= i < names.len() ==> #[trigger] after_publish(
                    steps[i],
                    steps[i + 1],
                    names[i],
                    event,
                )
        }
}

/// The effect of subscribing to room `room`: the room is created (and
/// counted) when missing, and a receiver of its channel is handed out.
pub open spec fn after_subscribe(before: AppStateView, after: AppStateView, room: Seq<char>) -> bool {
    &&& after.rooms == subscribed_to(before.rooms, room, before.channels_opened)
    &&& after.channels_opened == before.channels_opened + created(before.rooms, room)
    &&& after.retired == before.retired
    &&& after.metrics == after_room_handle(before.metrics, before.rooms, room)
}

/// The effect of asking for room `room`'s channel: the room is created (and
/// counted) when missing, and a sender handle of its channel is handed out.
pub open spec fn after_sender(before: AppStateView, after: AppStateView, room: Seq<char>) -> bool {
    &&& after.rooms == sender_given(before.rooms, room, before.channels_opened)
    &&& after.channels_opened == before.channels_opened + created(before.rooms, room)
    &&& after.retired == before.retired
    &&& after.metrics == after_room_handle(before.metrics, before.rooms, room)
}

/// The events replayed for room `room`: its history, or nothing when there
/// is no such room.
pub open spec fn replayed(state: AppStateView, room: Seq<char>) -> Seq<ChatEventView> {
    if state.rooms.contains_key(room) {
        state.rooms[room].history
    } else {
        Seq::empty()
    }
}

/// The effect of replaying room `room`: the rooms are unchanged; the request
/// and the events replayed are counted.
pub open spec fn after_replay(before: AppStateView, after: AppStateView, room: Seq<char>) -> bool {
    &&& after.rooms == before.rooms
    &&& after.channels_opened == before.channels_opened
    &&& after.retired == before.retired
    &&& after.metrics == (AppMetricsSnapshot {
        replay_requests: counter_add(before.metrics.replay_requests, 1),
        replayed_events: counter_add(before.metrics.replayed_events, replayed(before, room).len()),
        ..before.metrics
    })
}

/// The rooms that a collection removes: in order, each candidate that is
/// not the general room and had no receiver.
pub open spec fn idle_rooms(names: Seq<Seq<char>>, counts: Seq<usize>) -> Seq<Seq<char>>
    decreases names.len(),
{
    if names.len() == 0 {
        Seq::empty()
    } else {
        let rest = idle_rooms(names.drop_last(), counts.drop_last());
        if names.last() != GENERAL_ROOM@ && counts.last() == 0 {
            rest.push(names.last())
        } else {
            rest
        }
    }
}

/// Every room a collection removes is a candidate and not the general room;
/// from distinct candidates it removes each room at most once.
pub proof fn lemma_idle_rooms_are_candidates(names: Seq<Seq<char>>, counts: Seq<usize>)
    ensures
        forall|i: int| 0 <= i < idle_rooms(names, counts).len() ==> {
            &&& names.contains(#[trigger] idle_rooms(names, counts)[i])
            &&& idle_rooms(names, counts)[i] != GENERAL_ROOM@
        },
        names.no_duplicates() ==> idle_rooms(names, counts).no_duplicates(),
    decreases names.len(),
{
    if names.len() > 0 {
        let init = names.drop_last();
        lemma_idle_rooms_are_candidates(init, counts.drop_last());
        let rest = idle_rooms(init, counts.drop_last());
        assert forall|i: int| 0 <= i < rest.len() implies names.contains(#[trigger] rest[i]) by {
            let j = choose|j: int| 0 <= j < init.len() && init[j] == rest[i];
            assert(names[j] == rest[i]);
        }
        if names.no_duplicates() {
            assert forall|i: int| 0 <= i < rest.len() implies #[trigger] rest[i] != names.last() by {
                let j = choose|j: int| 0 <= j < init.len() && init[j] == rest[i];
                assert(names[j] == rest[i]);
            }
        }
    }
}

/// A room name is collected exactly when it is a candidate, not the general
/// room, and its count was zero.
pub proof fn lemma_idle_rooms_members(names: Seq<Seq<char>>, counts: Seq<usize>, x: Seq<char>)
    requires
        counts.len() == names.len(),
    ensures
        idle_rooms(names, counts).contains(x) <==> exists|i: int|
            0 <= i < names.len() && #[trigger] names[i] == x && x != GENERAL_ROOM@ && counts[i] == 0,
    decreases names.len(),
{
    if names.len() > 0 {
        let init = names.drop_last();
        let cinit = counts.drop_last();
        lemma_idle_rooms_members(init, cinit, x);
        let rest = idle_rooms(init, cinit);
        let last = names.len() - 1;
        if idle_rooms(names, counts).contains(x) {
            if rest.contains(x) {
                let i = choose|i: int|
                    0 <= i < init.len() && #[trigger] init[i] == x && x != GENERAL_ROOM@ && cinit[i] == 0;
                assert(names[i] == x && counts[i] == 0);
            } else {
                let j = choose|j: int| 0 <= j < idle_rooms(names, counts).len() && idle_rooms(names, counts)[j] == x;
                assert(names[last] == x);
            }
        }
        if exists|i: int| 0 <= i < names.len() && #[trigger] names[i] == x && x != GENERAL_ROOM@ && counts[i] == 0 {
            let i = choose|i: int| 0 <= i < names.len() && #[trigger] names[i] == x && x != GENERAL_ROOM@ && counts[i] == 0;
            if i < last {
                assert(init[i] == x && cinit[i] == 0);
                let j = choose|j: int| 0 <= j < rest.len() && rest[j] == x;
                if names.last() != GENERAL_ROOM@ && counts.last() == 0 {
                    assert(rest.push(names.last())[j] == x);
                }
            } else {
                assert(idle_rooms(names, counts) == rest.push(names.last()));
                assert(rest.push(names.last())[rest.len() as int] == x);
            }
        }
    }
}

/// The record of the rooms `removed` as a collection takes them out of
/// `rooms`: each by its name and its model, in which a receiver count of
/// zero was read last.
pub open spec fn collected(
    rooms: Map<Seq<char>, RoomView>,
    removed: Seq<Seq<char>>,
) -> Seq<(Seq<char>, RoomView)> {
    removed.map_values(|r: Seq<char>| (r, with_count(rooms[r], 0)))
}

/// The effect of a collection that removed `removed`: it read one receiver
/// count from every room's channel; it removed, each once, exactly the rooms
/// other than the general room whose count was zero (which go to the record
/// of removed rooms with that count), and counted them as deleted; every
/// room it kept is as it was but for the count read, which is not zero
/// unless it is the general room.
pub open spec fn after_collection(
    before: AppStateView,
    after: AppStateView,
    removed: Seq<Seq<char>>,
) -> bool {
    &&& removed.no_duplicates()
    &&& forall|i: int| 0 <= i < removed.len() ==> {
        &&& before.rooms.contains_key(#[trigger] removed[i])
        &&& removed[i] != GENERAL_ROOM@
    }
    &&& after.rooms.dom() == before.rooms.dom().difference(removed.to_set())
    &&& forall|k: Seq<char>| #[trigger] after.rooms.contains_key(k) ==> {
        &&& after.rooms[k] == with_count(before.rooms[k], last_count(after.rooms[k]))
        &&& k != GENERAL_ROOM@ ==> last_count(after.rooms[k]) != 0
    }
    &&& after.retired == before.retired + collected(before.rooms, removed)
    &&& after.channels_opened == before.channels_opened
    &&& after.metrics == (AppMetricsSnapshot {
        rooms_deleted: counter_add(before.metrics.rooms_deleted, removed.len()),
        ..before.metrics
    })
}

impl AppState {
    /// A state with no room and every counter at zero.
    pub fn new() -> (s: Self)
        ensures
            s@.rooms == no_rooms(),
            histories_bounded(s@.rooms),
            s@.metrics == zero_snapshot(),
            s@.channels_opened == 0,
            s@.retired == Seq::<(Seq<char>, RoomView)>::empty(),
    {
        AppState {
            rooms: table_new(),
            metrics: AppMetrics::default(),
            channels_opened: Ghost(0),
            retired: Ghost(Seq::empty()),
        }
    }

    /// Makes sure a room of that name exists, creating it (and counting it)
    /// when it does not; a new room's channel gets the next identity.
    fn room_handle(&mut self, name: &str)
        ensures
            final(self)@.rooms == with_room(old(self)@.rooms, name@, old(self)@.channels_opened),
            final(self)@.channels_opened == old(self)@.channels_opened + created(
                old(self)@.rooms,
                name@,
            ),
            final(self)@.retired == old(self)@.retired,
            final(self)@.metrics == after_room_handle(old(self)@.metrics, old(self)@.rooms, name@),
    {
        if !table_contains(&self.rooms, name) {
            self.metrics.inc_room_created();
            let id = Ghost(self.channels_opened@);
            table_insert(&mut self.rooms, String::from_str(name), Room::new(id));
            self.channels_opened = Ghost(self.channels_opened@ + 1);
        } else {
            proof {
                lemma_counter_add_zero(self.metrics@.rooms_created);
            }
        }
    }

    /// Takes room `name` out of the table.
    fn take_room(&mut self, name: &str) -> (room: Room)
        requires
            old(self)@.rooms.contains_key(name@),
        ensures
            room@ == old(self)@.rooms[name@],
            final(self)@ == (AppStateView { rooms: old(self)@.rooms.remove(name@), ..old(self)@ }),
    {
        table_take(&mut self.rooms, name).unwrap()
    }

    /// Puts `room` into the table under `name`.
    fn put_room(&mut self, name: &str, room: Room)
        ensures
            final(self)@ == (AppStateView { rooms: old(self)@.rooms.insert(name@, room@), ..old(self)@ }),
    {
        table_insert(&mut self.rooms, String::from_str(name), room);
    }

    /// Publishes `event` in the existing room `room`: appends it to the
    /// history and hands it to the send of the room's channel. Returns
    /// whether a receiver took it.
    fn publish_in_room(&mut self, room: &str, event: Arc<ChatEvent>) -> (delivered: bool)
        requires
            old(self)@.rooms.contains_key(room@),
        ensures
            final(self)@ == (AppStateView {
                rooms: old(self)@.rooms.insert(
                    room@,
                    room_published(old(self)@.rooms[room@], event@, delivered),
                ),
                ..old(self)@
            }),
            silent(old(self)@.rooms[room@].channel) ==> !delivered,
    {
        let taken = self.take_room(room);
        let updated = taken.with_event(share_event(&event));
        let (updated, delivered) = updated.broadcast(event);
        self.put_room(room, updated);
        proof {
            assert(self@.rooms =~= old(self)@.rooms.insert(
                room@,
                room_published(old(self)@.rooms[room@], event@, delivered),
            ));
        }
        delivered
    }

    /// A sender handle to the channel of room `name`, which is created when
    /// missing.
    pub fn get_or_create_room(&mut self, name: &str) -> (sender: RoomSender)
        ensures
            after_sender(old(self)@, final(self)@, name@),
            sender.channel() == final(self)@.rooms[name@].channel.id,
            histories_bounded(old(self)@.rooms) ==> histories_bounded(final(self)@.rooms),
    {
        self.room_handle(name);
        let room = self.take_room(name);
        let (room, sender) = room.sender_handle();
        self.put_room(name, room);
        proof {
            assert(self@.rooms =~= sender_given(old(self)@.rooms, name@, old(self)@.channels_opened));
        }
        sender
    }

    /// A receiver of the events published to room `name` from now on: it
    /// belongs to the room's channel and starts after the events already
    /// sent on it. The room is created when missing.
    pub fn subscribe_room(&mut self, name: &str) -> (receiver: RoomReceiver)
        ensures
            after_subscribe(old(self)@, final(self)@, name@),
            receiver.channel() == final(self)@.rooms[name@].channel.id,
            receiver.starts_at() == final(self)@.rooms[name@].channel.sent.len(),
            histories_bounded(old(self)@.rooms) ==> histories_bounded(final(self)@.rooms),
    {
        self.room_handle(name);
        let room = self.take_room(name);
        let (room, receiver) = room.subscribe();
        self.put_room(name, room);
        proof {
            assert(self@.rooms =~= subscribed_to(old(self)@.rooms, name@, old(self)@.channels_opened));
        }
        receiver
    }

    /// The names of all rooms, each once, in no particular order.
    pub fn list_rooms(&self) -> (names: Vec<String>)
        ensures
            names_view(names@).no_duplicates(),
            names_view(names@).to_set() == self@.rooms.dom(),
    {
        table_names(&self.rooms)
    }

    /// Counts a send that found no receiver; a delivered send counts nothing.
    fn record_send_outcome(&mut self, delivered: bool)
        ensures
            final(self)@ == (AppStateView {
                metrics: AppMetricsSnapshot {
                    publish_send_errors: counter_add(
                        old(self)@.metrics.publish_send_errors,
                        if delivered { 0 } else { 1 },
                    ),
                    ..old(self)@.metrics
                },
                ..old(self)@
            }),
    {
        if !delivered {
            self.metrics.inc_publish_send_error();
        } else {
            proof {
                lemma_counter_add_zero(self.metrics@.publish_send_errors);
            }
        }
    }

    /// Publishes `event` to room `name`, creating the room when missing: the
    /// event is appended to the room's history and handed once to the send of
    /// the room's channel, which passes it to the room's members; a send that
    /// finds no member counts a send error.
    pub fn publish(&mut self, room: &str, event: ChatEvent)
        ensures
            after_publish(old(self)@, final(self)@, room@, event@),
            histories_bounded(old(self)@.rooms) ==> histories_bounded(final(self)@.rooms),
    {
        self.metrics.inc_publish();
        self.room_handle(room);
        let event = Arc::new(event);
        let delivered = self.publish_in_room(room, event);
        self.record_send_outcome(delivered);
        proof {
            assert(last_outcome(self@.rooms[room@]) == delivered);
        }
    }

    /// Publishes `event` to every room that exists, one room after another:
    /// in each it is appended to the history and handed once to the send of
    /// the room's channel. Every room counts one publish, and each send that
    /// finds no member counts a send error.
    pub fn publish_to_all_rooms(&mut self, event: ChatEvent)
        ensures
            after_publish_everywhere(old(self)@, final(self)@, event@),
            published_everywhere(old(self)@.rooms, final(self)@.rooms, event@),
            final(self)@.channels_opened == old(self)@.channels_opened,
            final(self)@.retired == old(self)@.retired,
            final(self)@.metrics == (AppMetricsSnapshot {
                publish_total: counter_add(
                    old(self)@.metrics.publish_total,
                    old(self)@.rooms.dom().len(),
                ),
                publish_send_errors: counter_add(
                    old(self)@.metrics.publish_send_errors,
                    undelivered(final(self)@.rooms).len(),
                ),
                ..old(self)@.metrics
            }),
            histories_bounded(old(self)@.rooms) ==> histories_bounded(final(self)@.rooms),
    {
        let names = table_names(&self.rooms);
        let event = Arc::new(event);
        let ghost ns = names_view(names@);
        let ghost rooms0 = self@.rooms;
        let ghost metrics0 = self@.metrics;
        let ghost mut failed: nat = 0;
        let ghost mut steps: Seq<AppStateView> = seq![self@];
        proof {
            lemma_counter_add_zero(metrics0.publish_total);
            lemma_counter_add_zero(metrics0.publish_send_errors);
            assert(ns.take(0).to_set() =~= Set::<Seq<char>>::empty());
            assert(ns.take(0).to_set().filter(|k: Seq<char>| !last_outcome(self@.rooms[k]))
                =~= Set::<Seq<char>>::empty());
        }
        let n = names.len();
        let mut i: usize = 0;
        while i < n
            invariant
                n == names.len(),
                ns == names_view(names@),
                ns.no_duplicates(),
                ns.to_set() == rooms0.dom(),
                i <= n,
                self@.rooms.dom() == rooms0.dom(),
                self@.channels_opened == old(self)@.channels_opened,
                self@.retired == old(self)@.retired,
                rooms0 == old(self)@.rooms,
                metrics0 == old(self)@.metrics,
                forall|j: int| 0 <= j < i ==> self@.rooms[#[trigger] ns[j]] == room_published(
                    rooms0[ns[j]],
                    event@,
                    last_outcome(self@.rooms[ns[j]]),
                ),
                forall|k: Seq<char>|
                    rooms0.contains_key(k) && !ns.take(i as int).contains(k) ==> #[trigger] self@.rooms[k]
                        == rooms0[k],
                failed == ns.take(i as int).to_set().filter(
                    |k: Seq<char>| !last_outcome(self@.rooms[k]),
                ).len(),
                self@.metrics == (AppMetricsSnapshot {
                    publish_total: counter_add(metrics0.publish_total, i as nat),
                    publish_send_errors: counter_add(metrics0.publish_send_errors, failed),
                    ..metrics0
                }),
                steps.len() == i + 1,
                steps[0] == old(self)@,
                steps.last() == self@,
                forall|j: int|
                    0 <= j < i ==> #[trigger] after_publish(steps[j], steps[j + 1], ns[j], event@),
            decreases n - i,
        {
            let name = names[i].as_str();
            proof {
                assert(ns[i as int] == name@);
                assert(ns.to_set().contains(ns[i as int]));
                assert(!ns.take(i as int).contains(ns[i as int]));
                lemma_counter_add_add(metrics0.publish_total, i as nat, 1);
                lemma_counter_add_zero(self@.metrics.rooms_created);
            }
            let ghost pre_state = self@;
            self.metrics.inc_publish();
            let ghost pre = self@.rooms;
            let delivered = self.publish_in_room(name, share_event(&event));
            proof {
                let s0 = ns.take(i as int).to_set();
                let p_old = |k: Seq<char>| !last_outcome(pre[k]);
                let p_new = |k: Seq<char>| !last_outcome(self@.rooms[k]);
                vstd::seq_lib::seq_to_set_is_finite(ns.take(i as int));
                s0.lemma_len_filter(p_new);
                assert(ns.take(i + 1) =~= ns.take(i as int).push(ns[i as int]));
                ns.take(i as int).lemma_push_to_set_commute(ns[i as int]);
                assert forall|k: Seq<char>| s0.contains(k) implies k != ns[i as int] by {
                    let j = choose|j: int| 0 <= j < i && ns.take(i as int)[j] == k;
                }
                assert(s0.filter(p_new) =~= s0.filter(p_old));
                assert(last_outcome(self@.rooms[name@]) == delivered);
                if delivered {
                    assert(s0.insert(ns[i as int]).filter(p_new) =~= s0.filter(p_new));
                } else {
                    assert(s0.insert(ns[i as int]).filter(p_new) =~= s0.filter(p_new).insert(ns[i as int]));
                    assert(!s0.filter(p_new).contains(ns[i as int]));
                }
                lemma_counter_add_add(metrics0.publish_send_errors, failed, if delivered { 0 } else { 1 });
                if !delivered {
                    failed = failed + 1;
                }
            }
            self.record_send_outcome(delivered);
            proof {
                lemma_counter_add_zero(pre_state.metrics.publish_send_errors);
                assert(with_room(pre_state.rooms, name@, pre_state.channels_opened) == pre_state.rooms);
                assert(self@.rooms =~= published_to(pre_state.rooms, name@, pre_state.channels_opened, event@, delivered));
                assert(after_publish(pre_state, self@, ns[i as int], event@));
                let old_steps = steps;
                steps = steps.push(self@);
                assert forall|j: int|
                    0 <= j < i + 1 implies #[trigger] after_publish(steps[j], steps[j + 1], ns[j], event@) by {
                    if j < i {
                        assert(steps[j] == old_steps[j]);
                        assert(steps[j + 1] == old_steps[j + 1]);
                    }
                }
                assert forall|k: Seq<char>|
                    rooms0.contains_key(k) && !ns.take(i + 1).contains(k) implies #[trigger] self@.rooms[k]
                        == rooms0[k] by {
                    assert(ns.take(i + 1)[i as int] == ns[i as int]);
                    assert(k != ns[i as int]);
                    if ns.take(i as int).contains(k) {
                        let j = choose|j: int| 0 <= j < i && ns.take(i as int)[j] == k;
                        assert(ns.take(i + 1)[j] == k);
                    }
                    assert(pre[k] == rooms0[k]);
                }
            }
            i = i + 1;
        }
        proof {
            ns.unique_seq_to_set();
            assert(ns.take(n as int) =~= ns);
            assert forall|k: Seq<char>| #[trigger] rooms0.contains_key(k) implies self@.rooms[k]
                == room_published(rooms0[k], event@, last_outcome(self@.rooms[k])) by {
                assert(ns.to_set().contains(k));
                let j = choose|j: int| 0 <= j < ns.len() && ns[j] == k;
            }
            assert(self@.rooms.dom().filter(|k: Seq<char>| !last_outcome(self@.rooms[k]))
                =~= undelivered(self@.rooms));
            assert(published_everywhere(rooms0, self@.rooms, event@));
            assert(steps.last() == self@);
            assert(after_publish_everywhere(old(self)@, self@, event@));
            if histories_bounded(rooms0) {
                assert forall|k: Seq<char>| #[trigger] self@.rooms.contains_key(k) implies self@.rooms[k].history.len()
                    <= ROOM_HISTORY_LIMIT by {
                    assert(rooms0.contains_key(k));
                }
            }
        }
    }

    /// Removes, of the candidate rooms (every room once), those that are not
    /// the general room and whose receiver count (given in the same order) is
    /// zero, records each as it is taken out, and counts them as deleted.
    /// Returns the names it removed, in candidate order.
    fn collect_rooms(&mut self, candidates: &Vec<String>, receiver_counts: &Vec<usize>) -> (removed: Vec<String>)
        requires
            candidates.len() == receiver_counts.len(),
            names_view(candidates@).no_duplicates(),
            names_view(candidates@).to_set() == old(self)@.rooms.dom(),
        ensures
            names_view(removed@) == idle_rooms(names_view(candidates@), receiver_counts@),
            final(self)@.rooms == old(self)@.rooms.remove_keys(names_view(removed@).to_set()),
            final(self)@.retired == old(self)@.retired + names_view(removed@).map_values(
                |r: Seq<char>| (r, old(self)@.rooms[r]),
            ),
            final(self)@.channels_opened == old(self)@.channels_opened,
            final(self)@.metrics == (AppMetricsSnapshot {
                rooms_deleted: counter_add(old(self)@.metrics.rooms_deleted, removed.len() as nat),
                ..old(self)@.metrics
            }),
    {
        let ghost cs = names_view(candidates@);
        let general = String::from_str(GENERAL_ROOM);
        let mut removed: Vec<String> = Vec::new();
        let n = candidates.len();
        let mut i: usize = 0;
        while i < n
            invariant
                n == candidates.len(),
                n == receiver_counts.len(),
                cs == names_view(candidates@),
                general@ == GENERAL_ROOM@,
                i <= n,
                names_view(removed@) == idle_rooms(cs.take(i as int), receiver_counts@.take(i as int)),
            decreases n - i,
        {
            proof {
                assert(cs.take(i + 1).drop_last() =~= cs.take(i as int));
                assert(receiver_counts@.take(i + 1).drop_last() =~= receiver_counts@.take(i as int));
            }
            if !(candidates[i] == general) && receiver_counts[i] == 0 {
                removed.push(candidates[i].clone());
                assert(names_view(removed@) =~= idle_rooms(cs.take(i as int), receiver_counts@.take(i as int)).push(cs[i as int]));
            }
            i = i + 1;
        }
        proof {
            assert(cs.take(n as int) =~= cs);
            assert(receiver_counts@.take(n as int) =~= receiver_counts@);
            lemma_idle_rooms_are_candidates(cs, receiver_counts@);
        }
        let ghost rooms0 = self@.rooms;
        let ghost retired0 = self@.retired;
        let ghost rs = names_view(removed@);
        proof {
            assert forall|x: int| 0 <= x < rs.len() implies rooms0.contains_key(#[trigger] rs[x]) by {
                assert(cs.contains(rs[x]));
                let y = choose|y: int| 0 <= y < cs.len() && cs[y] == rs[x];
                assert(cs.to_set().contains(cs[y]));
            }
        }
        let m = removed.len();
        let mut j: usize = 0;
        while j < m
            invariant
                m == removed.len(),
                rs == names_view(removed@),
                rs.no_duplicates(),
                forall|x: int| 0 <= x < rs.len() ==> rooms0.contains_key(#[trigger] rs[x]),
                j <= m,
                self@.rooms == rooms0.remove_keys(rs.take(j as int).to_set()),
                self@.retired == retired0 + rs.take(j as int).map_values(|r: Seq<char>| (r, rooms0[r])),
                self@.metrics == old(self)@.metrics,
                self@.channels_opened == old(self)@.channels_opened,
            decreases m - j,
        {
            proof {
                assert(rs[j as int] == removed@[j as int]@);
                assert(rooms0.contains_key(rs[j as int]));
                assert(!rs.take(j as int).contains(rs[j as int]));
                assert(!rs.take(j as int).to_set().contains(rs[j as int]));
            }
            let gone = table_take(&mut self.rooms, removed[j].as_str());
            self.retired = Ghost(self.retired@.push((rs[j as int], gone.unwrap()@)));
            proof {
                assert(rs.take(j + 1) =~= rs.take(j as int).push(rs[j as int]));
                rs.take(j as int).lemma_push_to_set_commute(rs[j as int]);
                assert(self@.rooms =~= rooms0.remove_keys(rs.take(j + 1).to_set()));
                assert(rs.take(j + 1).map_values(|r: Seq<char>| (r, rooms0[r])) =~= rs.take(j as int).map_values(
                    |r: Seq<char>| (r, rooms0[r]),
                ).push((rs[j as int], rooms0[rs[j as int]])));
                assert(self@.retired =~= retired0 + rs.take(j + 1).map_values(|r: Seq<char>| (r, rooms0[r])));
            }
            j = j + 1;
        }
        proof {
            assert(rs.take(m as int) =~= rs);
        }
        self.metrics.add_rooms_deleted(removed.len() as u64);
        removed
    }

    /// Looks at every room once, in the map's order, reads the receiver count
    /// of its channel, and removes each room, other than the general room,
    /// whose count was zero; counts them as deleted and returns their names
    /// in that order. The counts are whatever the channels report at that
    /// moment, which depends on the connections.
    pub fn gc_empty_rooms(&mut self) -> (removed: Vec<String>)
        ensures
            after_collection(old(self)@, final(self)@, names_view(removed@)),
            old(self)@.rooms.contains_key(GENERAL_ROOM@) ==> final(self)@.rooms.contains_key(
                GENERAL_ROOM@,
            ),
            histories_bounded(old(self)@.rooms) ==> histories_bounded(final(self)@.rooms),
    {
        let names = table_names(&self.rooms);
        let ghost ns = names_view(names@);
        let ghost rooms0 = self@.rooms;
        let mut counts: Vec<usize> = Vec::new();
        let n = names.len();
        let mut i: usize = 0;
        while i < n
            invariant
                n == names.len(),
                ns == names_view(names@),
                ns.no_duplicates(),
                ns.to_set() == rooms0.dom(),
                rooms0 == old(self)@.rooms,
                i <= n,
                counts.len() == i,
                self@.rooms.dom() == rooms0.dom(),
                forall|j: int| 0 <= j < i ==> self@.rooms[#[trigger] ns[j]] == with_count(
                    rooms0[ns[j]],
                    counts@[j],
                ),
                forall|k: Seq<char>|
                    rooms0.contains_key(k) && !ns.take(i as int).contains(k) ==> #[trigger] self@.rooms[k]
                        == rooms0[k],
                self@.metrics == old(self)@.metrics,
                self@.channels_opened == old(self)@.channels_opened,
                self@.retired == old(self)@.retired,
            decreases n - i,
        {
            let name = names[i].as_str();
            proof {
                assert(ns[i as int] == name@);
                assert(ns.to_set().contains(ns[i as int]));
                assert(!ns.take(i as int).contains(ns[i as int]));
            }
            let ghost before = self@.rooms;
            let room = self.take_room(name);
            let (room, count) = room.receiver_count();
            self.put_room(name, room);
            counts.push(count);
            proof {
                assert(self@.rooms =~= before.insert(name@, with_count(before[name@], count)));
                assert forall|k: Seq<char>|
                    rooms0.contains_key(k) && !ns.take(i + 1).contains(k) implies #[trigger] self@.rooms[k]
                        == rooms0[k] by {
                    assert(ns.take(i + 1)[i as int] == ns[i as int]);
                    if ns.take(i as int).contains(k) {
                        let j = choose|j: int| 0 <= j < i && ns.take(i as int)[j] == k;
                        assert(ns.take(i + 1)[j] == k);
                    }
                }
            }
            i = i + 1;
        }
        let ghost recorded = self@.rooms;
        let removed = self.collect_rooms(&names, &counts);
        proof {
            let rs = names_view(removed@);
            lemma_idle_rooms_are_candidates(ns, counts@);
            assert forall|x: int| 0 <= x < rs.len() implies {
                &&& rooms0.contains_key(#[trigger] rs[x])
                &&& rs[x] != GENERAL_ROOM@
            } by {
                assert(ns.contains(rs[x]));
                let j = choose|j: int| 0 <= j < ns.len() && ns[j] == rs[x];
                assert(ns.to_set().contains(ns[j]));
            }
            assert(self@.rooms.dom() =~= rooms0.dom().difference(rs.to_set()));
            assert forall|k: Seq<char>| #[trigger] self@.rooms.contains_key(k) implies {
                &&& self@.rooms[k] == with_count(rooms0[k], last_count(self@.rooms[k]))
                &&& k != GENERAL_ROOM@ ==> last_count(self@.rooms[k]) != 0
            } by {
                assert(ns.to_set().contains(k));
                let j = choose|j: int| 0 <= j < ns.len() && ns[j] == k;
                assert(recorded[ns[j]] == with_count(rooms0[ns[j]], counts@[j]));
                assert(!rs.to_set().contains(k));
                lemma_idle_rooms_members(ns, counts@, k);
                if k != GENERAL_ROOM@ && counts@[j] == 0 {
                    assert(rs.contains(k));
                }
            }
            assert forall|x: int| 0 <= x < rs.len() implies #[trigger] recorded[rs[x]] == with_count(
                rooms0[rs[x]],
                0,
            ) by {
                assert(rs.contains(rs[x]));
                lemma_idle_rooms_members(ns, counts@, rs[x]);
                let j = choose|j: int|
                    0 <= j < ns.len() && #[trigger] ns[j] == rs[x] && rs[x] != GENERAL_ROOM@ && counts@[j] == 0;
            }
            assert(rs.map_values(|r: Seq<char>| (r, recorded[r])) =~= collected(rooms0, rs));
            if histories_bounded(old(self)@.rooms) {
                assert forall|k: Seq<char>| #[trigger] self@.rooms.contains_key(k) implies self@.rooms[k].history.len()
                    <= ROOM_HISTORY_LIMIT by {
                    assert(rooms0.contains_key(k));
                }
            }
            assert(after_collection(old(self)@, self@, rs));
        }
        removed
    }

    /// The history of room `name`, oldest event first, at most
    /// `ROOM_HISTORY_LIMIT` events; nothing when there is no such room (which
    /// is not created). Counts the request and the events replayed.
    pub fn get_messages(&mut self, room: &str) -> (events: Vec<Arc<ChatEvent>>)
        ensures
            events_view(events@) == replayed(old(self)@, room@),
            events@.len() <= ROOM_HISTORY_LIMIT,
            after_replay(old(self)@, final(self)@, room@),
    {
        self.metrics.inc_replay_request();
        let found = table_view(
            &self.rooms,
            room,
            |_k: &String, r: &Room| -> (h: Vec<Arc<ChatEvent>>) ensures events_view(h@) == r@.history, h@.len() <= ROOM_HISTORY_LIMIT { r.history_snapshot() },
        );
        match found {
            None => {
                proof {
                    lemma_counter_add_zero(self.metrics@.replayed_events);
                }
                let empty: Vec<Arc<ChatEvent>> = Vec::new();
                assert(events_view(empty@) =~= Seq::<ChatEventView>::empty());
                empty
            },
            Some(history) => {
                self.metrics.add_replayed_events(history.len() as u64);
                history
            },
        }
    }

    /// Counts a receive that lagged behind and lost events.
    pub fn record_lagged_receive(&mut self)
        ensures
            final(self)@ == (AppStateView {
                metrics: AppMetricsSnapshot {
                    lagged_receives: counter_add(old(self)@.metrics.lagged_receives, 1),
                    ..old(self)@.metrics
                },
                ..old(self)@
            }),
    {
        self.metrics.inc_lagged_receive();
    }

    /// Counts a connection that was opened.
    pub fn record_connection_opened(&mut self)
        ensures
            final(self)@ == (AppStateView {
                metrics: AppMetricsSnapshot {
                    connections_opened: counter_add(old(self)@.metrics.connections_opened, 1),
                    ..old(self)@.metrics
                },
                ..old(self)@
            }),
    {
        self.metrics.inc_connection_opened();
    }

    /// Counts a connection that was closed.
    pub fn record_connection_closed(&mut self)
        ensures
            final(self)@ == (AppStateView {
                metrics: AppMetricsSnapshot {
                    connections_closed: counter_add(old(self)@.metrics.connections_closed, 1),
                    ..old(self)@.metrics
                },
                ..old(self)@
            }),
    {
        self.metrics.inc_connection_closed();
    }

    /// The counters as they stand.
    pub fn metrics_snapshot(&self) -> (s: AppMetricsSnapshot)
        ensures
            s == self@.metrics,
    {
        self.metrics.snapshot()
    }
}

} // verus!
