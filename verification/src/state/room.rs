//! A chat room: the broadcast channel that reaches its members and the
//! history that is replayed to whoever joins.

use std::collections::VecDeque;
use std::sync::Arc;
use vstd::prelude::*;

use crate::state::channel::{Channel, ChannelView, RoomReceiver, RoomSender, fresh_channel, silent};
use crate::state::event::{ChatEvent, ChatEventView};
use crate::state::history::{ROOM_HISTORY_LIMIT, last_n, push_bounded, lemma_last_n_map};

verus! {

/// A room: its broadcast channel and its recent events, oldest first.
pub struct Room {
    channel: Channel,
    history: VecDeque<Arc<ChatEvent>>,
}

/// The model of a room.
pub struct RoomView {
    /// The recent events, oldest first.
    pub history: Seq<ChatEventView>,
    /// The room's channel.
    pub channel: ChannelView,
}

/// A room as it is made, with a channel of identity `id`: no history, and a
/// fresh channel.
pub open spec fn fresh_room(id: nat) -> RoomView {
    RoomView { history: Seq::empty(), channel: fresh_channel(id) }
}

/// The room after `event` is published to it: appended to the history (of
/// which the last `ROOM_HISTORY_LIMIT` events are kept) and handed to the
/// channel's send once, which reported `delivered`.
pub open spec fn room_published(room: RoomView, event: ChatEventView, delivered: bool) -> RoomView {
    RoomView {
        history: push_bounded(room.history, event),
        channel: ChannelView {
            sent: room.channel.sent.push(event),
            outcomes: room.channel.outcomes.push(delivered),
            ..room.channel
        },
    }
}

/// The events of a sequence of shared events, each by its model.
pub open spec fn events_view(events: Seq<Arc<ChatEvent>>) -> Seq<ChatEventView> {
    events.map_values(|e: Arc<ChatEvent>| e@)
}

impl Room {
    /// A room keeps at most `ROOM_HISTORY_LIMIT` events.
    #[verifier::type_invariant]
    spec fn history_within_limit(self) -> bool {
        self.history@.len() <= ROOM_HISTORY_LIMIT
    }
}

impl View for Room {
    type V = RoomView;

    closed spec fn view(&self) -> RoomView {
        RoomView { history: events_view(self.history@), channel: self.channel@ }
    }
}

/// `Arc::clone`: another handle to the same event.
#[verifier::external_body]
pub(crate) fn share_event(event: &Arc<ChatEvent>) -> (r: Arc<ChatEvent>)
    ensures
        r == *event,
{
    Arc::clone(event)
}

impl Room {
    /// A room with an empty history and a new channel of identity `id`.
    pub fn new(id: Ghost<nat>) -> (r: Room)
        ensures
            r@ == fresh_room(id@),
    {
        let r = Room { channel: Channel::open(id), history: VecDeque::new() };
        assert(r@.history =~= Seq::<ChatEventView>::empty());
        r
    }

    /// The room after `event` is appended to its history; the oldest events
    /// are dropped so that at most `ROOM_HISTORY_LIMIT` remain.
    pub fn with_event(self, event: Arc<ChatEvent>) -> (r: Room)
        ensures
            r@ == (RoomView { history: push_bounded(self@.history, event@), ..self@ }),
    {
        let Room { channel, history } = self;
        let ghost before = history@;
        let mut history = history;
        history.push_back(event);
        let ghost all = history@;
        let ghost mut dropped: int = 0;
        while history.len() > ROOM_HISTORY_LIMIT
            invariant
                all == before.push(event),
                0 <= dropped <= all.len(),
                history@ == all.subrange(dropped, all.len() as int),
                dropped == 0 || all.len() - dropped >= ROOM_HISTORY_LIMIT,
            decreases history.len(),
        {
            history.pop_front();
            proof {
                dropped = dropped + 1;
            }
        }
        proof {
            assert(history@ =~= last_n(all, ROOM_HISTORY_LIMIT as nat));
            lemma_last_n_map(all, ROOM_HISTORY_LIMIT as nat, |e: Arc<ChatEvent>| e@);
            assert(events_view(all) =~= events_view(before).push(event@));
        }
        Room { channel, history }
    }

    /// A copy of the history, oldest event first.
    pub fn history_snapshot(&self) -> (events: Vec<Arc<ChatEvent>>)
        ensures
            events_view(events@) == self@.history,
            events@.len() <= ROOM_HISTORY_LIMIT,
    {
        proof {
            use_type_invariant(self);
        }
        let mut events: Vec<Arc<ChatEvent>> = Vec::new();
        let n = self.history.len();
        let mut i: usize = 0;
        while i < n
            invariant
                n == self.history@.len(),
                i <= n,
                events@ =~= self.history@.subrange(0, i as int),
            decreases n - i,
        {
            events.push(share_event(&self.history[i]));
            i = i + 1;
        }
        assert(self.history@.subrange(0, n as int) =~= self.history@);
        events
    }

    /// Another sender handle to the room's channel; the room is handed back.
    pub fn sender_handle(self) -> (out: (Room, RoomSender))
        ensures
            out.0@ == (RoomView {
                channel: ChannelView { senders_made: self@.channel.senders_made + 1, ..self@.channel },
                ..self@
            }),
            out.1.channel() == self@.channel.id,
    {
        proof {
            use_type_invariant(&self);
        }
        let Room { channel, history } = self;
        let mut channel = channel;
        let sender = channel.sender_handle();
        (Room { channel, history }, sender)
    }

    /// A new receiver of the events sent to the room from now on; the room is
    /// handed back.
    pub fn subscribe(self) -> (out: (Room, RoomReceiver))
        ensures
            out.0@ == (RoomView {
                channel: ChannelView { receivers_made: self@.channel.receivers_made + 1, ..self@.channel },
                ..self@
            }),
            out.1.channel() == self@.channel.id,
            out.1.starts_at() == self@.channel.sent.len(),
    {
        proof {
            use_type_invariant(&self);
        }
        let Room { channel, history } = self;
        let mut channel = channel;
        let receiver = channel.subscribe();
        (Room { channel, history }, receiver)
    }

    /// Sends `event` on the room's channel; the room is handed back with
    /// whether a receiver took the event.
    pub fn broadcast(self, event: Arc<ChatEvent>) -> (out: (Room, bool))
        ensures
            out.0@ == (RoomView {
                channel: ChannelView {
                    sent: self@.channel.sent.push(event@),
                    outcomes: self@.channel.outcomes.push(out.1),
                    ..self@.channel
                },
                ..self@
            }),
            silent(self@.channel) ==> !out.1,
    {
        proof {
            use_type_invariant(&self);
        }
        let Room { channel, history } = self;
        let mut channel = channel;
        let delivered = channel.send(event);
        (Room { channel, history }, delivered)
    }

    /// The number of receivers of the room's channel that are alive now; the
    /// room is handed back.
    pub fn receiver_count(self) -> (out: (Room, usize))
        ensures
            out.0@ == (RoomView {
                channel: ChannelView {
                    counts_read: self@.channel.counts_read.push(out.1),
                    ..self@.channel
                },
                ..self@
            }),
            silent(self@.channel) ==> out.1 == 0,
    {
        proof {
            use_type_invariant(&self);
        }
        let Room { channel, history } = self;
        let mut channel = channel;
        let count = channel.receiver_count();
        (Room { channel, history }, count)
    }
}

} // verus!
