//! What the server keeps for one connection: the user's room, name and the
//! receiver of the room's events.

use vstd::prelude::*;

use crate::state::app_state::{AppState, GENERAL_ROOM, after_subscribe};
use crate::state::channel::RoomReceiver;

verus! {

/// The state of one connected user.
pub struct LocalUserState {
    pub room: String,
    pub name: String,
    pub room_receiver: RoomReceiver,
}

impl LocalUserState {
    /// A user in the general room, named after the IP address it connected
    /// from (`peer_ip`, as text), receiving through `room_receiver`.
    pub fn new_with_addr(peer_ip: String, room_receiver: RoomReceiver) -> (s: Self)
        ensures
            s.room@ == GENERAL_ROOM@,
            s.name == peer_ip,
            s.room_receiver == room_receiver,
    {
        LocalUserState { room: String::from_str(GENERAL_ROOM), name: peer_ip, room_receiver }
    }

    /// Renames the user.
    pub fn update_name(&mut self, name: String)
        ensures
            final(self).name == name,
            final(self).room == old(self).room,
            final(self).room_receiver == old(self).room_receiver,
    {
        self.name = name;
    }

    /// Moves the user to room `room_name`, which is created when missing: the
    /// user's receiver is replaced by a new receiver of that room's channel,
    /// which gets the events sent on it from now on.
    pub fn join_room(&mut self, app_state: &mut AppState, room_name: &str)
        ensures
            final(self).room@ == room_name@,
            final(self).name == old(self).name,
            after_subscribe(old(app_state)@, final(app_state)@, room_name@),
            final(self).room_receiver.channel() == final(app_state)@.rooms[room_name@].channel.id,
            final(self).room_receiver.starts_at() == final(app_state)@.rooms[room_name@].channel.sent.len(),
    {
        self.room = String::from_str(room_name);
        self.room_receiver = app_state.subscribe_room(room_name);
    }
}

} // verus!
