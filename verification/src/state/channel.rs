//! The broadcast channel of a room, from `tokio::sync::broadcast`. A channel
//! keeps a ghost record of what was done with it; only the trusted calls in
//! this module extend that record, each next to the one tokio call it stands
//! for.

use std::sync::Arc;
use tokio::sync::broadcast::{self, Receiver, Sender};
use vstd::prelude::*;

use crate::state::event::{ChatEvent, ChatEventView};

verus! {

/// The sending half of a broadcast channel; opaque to the proofs.
#[verifier::external_type_specification]
#[verifier::external_body]
#[verifier::reject_recursive_types(T)]
pub struct ExSender<T>(Sender<T>);

/// A receiving half of a broadcast channel; opaque to the proofs.
#[verifier::external_type_specification]
#[verifier::external_body]
#[verifier::reject_recursive_types(T)]
pub struct ExReceiver<T>(Receiver<T>);

/// `tokio::sync::broadcast::channel`: opens a channel that buffers
/// `capacity` values. It panics when `capacity` is zero or more than
/// `usize::MAX / 2`, so those inputs are excluded; nothing is claimed of the
/// handles it returns.
pub assume_specification<T: Clone>[ tokio::sync::broadcast::channel::<T> ](capacity: usize) -> (Sender<T>, Receiver<T>)
    requires
        0 < capacity <= usize::MAX / 2,
;

/// The capacity a room's channel is opened with. tokio rounds it up to the
/// next power of two, so the channel holds up to 128 events for a slow
/// receiver.
pub const ROOM_BUFFER_SIZE: usize = 100;

/// A room's broadcast channel: its sender, and the ghost record of what was
/// done with it.
pub struct Channel {
    sender: Sender<Arc<ChatEvent>>,
    id: Ghost<nat>,
    capacity: Ghost<nat>,
    sent: Ghost<Seq<ChatEventView>>,
    outcomes: Ghost<Seq<bool>>,
    receivers_made: Ghost<nat>,
    senders_made: Ghost<nat>,
    counts_read: Ghost<Seq<usize>>,
}

/// The model of a channel.
pub struct ChannelView {
    /// The identity the channel was given when it was opened.
    pub id: nat,
    /// The capacity it was opened with.
    pub capacity: nat,
    /// Every event handed to its send, in order.
    pub sent: Seq<ChatEventView>,
    /// What each of those sends reported, in order: `true` when a receiver
    /// took the event, `false` when the channel had no receiver.
    pub outcomes: Seq<bool>,
    /// How many receivers of it were made and handed out.
    pub receivers_made: nat,
    /// How many further sender handles of it were handed out.
    pub senders_made: nat,
    /// Every receiver count read from it, in order.
    pub counts_read: Seq<usize>,
}

impl View for Channel {
    type V = ChannelView;

    closed spec fn view(&self) -> ChannelView {
        ChannelView {
            id: self.id@,
            capacity: self.capacity@,
            sent: self.sent@,
            outcomes: self.outcomes@,
            receivers_made: self.receivers_made@,
            senders_made: self.senders_made@,
            counts_read: self.counts_read@,
        }
    }
}

/// No receiver and no further sender of the channel was ever handed out:
/// it has no receiver, and nobody else can make one.
pub open spec fn silent(c: ChannelView) -> bool {
    c.receivers_made == 0 && c.senders_made == 0
}

/// A receiver of a room's channel, with the identity of the channel and the
/// number of events that had been sent on it when the receiver was made:
/// it gets the events sent from that point on.
pub struct RoomReceiver {
    pub receiver: Receiver<Arc<ChatEvent>>,
    channel_id: Ghost<nat>,
    start: Ghost<nat>,
}

impl RoomReceiver {
    /// The identity of the channel the receiver belongs to.
    pub closed spec fn channel(&self) -> nat {
        self.channel_id@
    }

    /// The position in the channel's sent events from which the receiver
    /// gets them.
    pub closed spec fn starts_at(&self) -> nat {
        self.start@
    }
}

/// A sender handle of a room's channel, with the identity of the channel.
pub struct RoomSender {
    pub sender: Sender<Arc<ChatEvent>>,
    channel_id: Ghost<nat>,
}

impl RoomSender {
    /// The identity of the channel the handle sends on.
    pub closed spec fn channel(&self) -> nat {
        self.channel_id@
    }
}

/// `Sender::send`, once with `event`: the channel's record of sent events
/// gains `event`, and its record of outcomes what the send reported
/// (`Ok`: a receiver took it). Whether a receiver took it depends on
/// receivers that other tasks hold and drop; a silent channel has no
/// receiver (its first one was dropped when it was opened, and no other was
/// made), so the send fails.
#[verifier::external_body]
fn channel_send(ch: &mut Channel, event: Arc<ChatEvent>) -> (delivered: bool)
    ensures
        final(ch)@ == (ChannelView {
            sent: old(ch)@.sent.push(event@),
            outcomes: old(ch)@.outcomes.push(delivered),
            ..old(ch)@
        }),
        silent(old(ch)@) ==> !delivered,
{
    ch.sender.send(event).is_ok()
}

/// `Sender::subscribe`: a new receiver of the events sent from now on; the
/// channel counts one more receiver made.
#[verifier::external_body]
fn channel_subscribe(ch: &mut Channel) -> (receiver: Receiver<Arc<ChatEvent>>)
    ensures
        final(ch)@ == (ChannelView { receivers_made: old(ch)@.receivers_made + 1, ..old(ch)@ }),
{
    ch.sender.subscribe()
}

/// `Sender::clone`: another sender handle of the channel; the channel counts
/// one more sender handed out.
#[verifier::external_body]
fn channel_sender(ch: &mut Channel) -> (sender: Sender<Arc<ChatEvent>>)
    ensures
        final(ch)@ == (ChannelView { senders_made: old(ch)@.senders_made + 1, ..old(ch)@ }),
{
    ch.sender.clone()
}

/// `Sender::receiver_count`: the number of receivers alive at that moment,
/// which other tasks change; the channel records it as read. A silent channel
/// has none.
#[verifier::external_body]
fn channel_receiver_count(ch: &mut Channel) -> (count: usize)
    ensures
        final(ch)@ == (ChannelView { counts_read: old(ch)@.counts_read.push(count), ..old(ch)@ }),
        silent(old(ch)@) ==> count == 0,
{
    ch.sender.receiver_count()
}

/// A channel as it is opened with identity `id`.
pub open spec fn fresh_channel(id: nat) -> ChannelView {
    ChannelView {
        id,
        capacity: ROOM_BUFFER_SIZE as nat,
        sent: Seq::empty(),
        outcomes: Seq::empty(),
        receivers_made: 0,
        senders_made: 0,
        counts_read: Seq::empty(),
    }
}

impl Channel {
    /// Opens a channel of capacity `ROOM_BUFFER_SIZE` and drops its first
    /// receiver, so that it has no receiver; it is given the identity `id`.
    pub fn open(id: Ghost<nat>) -> (ch: Channel)
        ensures
            ch@ == fresh_channel(id@),
    {
        let (sender, _) = broadcast::channel(ROOM_BUFFER_SIZE);
        Channel {
            sender,
            id,
            capacity: Ghost(ROOM_BUFFER_SIZE as nat),
            sent: Ghost(Seq::empty()),
            outcomes: Ghost(Seq::empty()),
            receivers_made: Ghost(0),
            senders_made: Ghost(0),
            counts_read: Ghost(Seq::empty()),
        }
    }

    /// Sends `event`; `false` when no receiver took it.
    pub fn send(&mut self, event: Arc<ChatEvent>) -> (delivered: bool)
        ensures
            final(self)@ == (ChannelView {
                sent: old(self)@.sent.push(event@),
                outcomes: old(self)@.outcomes.push(delivered),
                ..old(self)@
            }),
            silent(old(self)@) ==> !delivered,
    {
        channel_send(self, event)
    }

    /// A new receiver of this channel, getting the events sent from now on.
    pub fn subscribe(&mut self) -> (r: RoomReceiver)
        ensures
            final(self)@ == (ChannelView { receivers_made: old(self)@.receivers_made + 1, ..old(self)@ }),
            r.channel() == old(self)@.id,
            r.starts_at() == old(self)@.sent.len(),
    {
        let start = Ghost(self.sent@.len());
        let receiver = channel_subscribe(self);
        RoomReceiver { receiver, channel_id: Ghost(self.id@), start }
    }

    /// Another sender handle of this channel.
    pub fn sender_handle(&mut self) -> (s: RoomSender)
        ensures
            final(self)@ == (ChannelView { senders_made: old(self)@.senders_made + 1, ..old(self)@ }),
            s.channel() == old(self)@.id,
    {
        let sender = channel_sender(self);
        RoomSender { sender, channel_id: Ghost(self.id@) }
    }

    /// The number of receivers of this channel alive now.
    pub fn receiver_count(&mut self) -> (count: usize)
        ensures
            final(self)@ == (ChannelView { counts_read: old(self)@.counts_read.push(count), ..old(self)@ }),
            silent(old(self)@) ==> count == 0,
    {
        channel_receiver_count(self)
    }
}

} // verus!
