//! The decisions a connection takes: what happens when a user connects, on
//! each line the user sends, and when the user's receiver fell behind. The
//! caller performs the reading and writing; these functions change the
//! server state and say which lines to write back.

use vstd::prelude::*;

use crate::command::{
    Action, ActionView, error_text, normalize_room_name, normalized_room, parse_action, parsed,
};
use crate::state::channel::RoomReceiver;
use crate::state::app_state::{
    AppState, AppStateView, GENERAL_ROOM, after_publish, after_replay, after_subscribe, replayed,
};
use crate::state::event::{ChatEvent, ChatEventView, rendered};
use crate::state::local_user_state::LocalUserState;
use crate::state::metrics::{AppMetricsSnapshot, counter_add};
use crate::state::room::events_view;
use crate::text::{trim_end, trimmed_end};

verus! {

/// A sequence of strings, each by its characters.
pub open spec fn lines_view(lines: Seq<String>) -> Seq<Seq<char>> {
    lines.map_values(|s: String| s@)
}

/// The line shown for each event, in order.
pub open spec fn rendered_all(events: Seq<ChatEventView>) -> Seq<Seq<char>> {
    events.map_values(|e: ChatEventView| rendered(e))
}

/// The lines that replay room `room` to a user who enters it: its history,
/// oldest first, each event rendered.
pub fn replay_room_history(app_state: &mut AppState, room: &str) -> (lines: Vec<String>)
    ensures
        lines_view(lines@) == rendered_all(replayed(old(app_state)@, room@)),
        lines@.len() == replayed(old(app_state)@, room@).len(),
        forall|i: int| 0 <= i < lines@.len() ==> #[trigger] lines@[i]@ == rendered(
            replayed(old(app_state)@, room@)[i],
        ),
        after_replay(old(app_state)@, final(app_state)@, room@),
{
    let events = app_state.get_messages(room);
    let mut lines: Vec<String> = Vec::new();
    let n = events.len();
    let mut i: usize = 0;
    while i < n
        invariant
            n == events.len(),
            i <= n,
            lines_view(lines@) =~= rendered_all(events_view(events@)).take(i as int),
        decreases n - i,
    {
        let event: &ChatEvent = &events[i];
        lines.push(event.render());
        proof {
            assert(rendered_all(events_view(events@)).take(i + 1) =~= rendered_all(
                events_view(events@),
            ).take(i as int).push(rendered(events@[i as int]@)));
        }
        i = i + 1;
    }
    proof {
        assert(rendered_all(events_view(events@)).take(n as int) =~= rendered_all(
            events_view(events@),
        ));
        assert forall|i: int| 0 <= i < lines@.len() implies #[trigger] lines@[i]@ == rendered(
            events_view(events@)[i],
        ) by {
            assert(lines_view(lines@)[i] == lines@[i]@);
        }
    }
    lines
}

/// The parts joined into one sequence, `sep` between each two.
pub open spec fn joined(parts: Seq<Seq<char>>, sep: Seq<char>) -> Seq<char>
    decreases parts.len(),
{
    if parts.len() == 0 {
        Seq::empty()
    } else if parts.len() == 1 {
        parts[0]
    } else {
        joined(parts.drop_last(), sep) + sep + parts.last()
    }
}

/// The reply to `/rooms` when the rooms are listed as `names`.
pub open spec fn rooms_line(names: Seq<Seq<char>>) -> Seq<char> {
    if names.len() == 0 {
        "rooms: (none)"@
    } else {
        "rooms: "@ + joined(names, ", "@)
    }
}

/// The reply to `/rooms` for the room names `rooms`, in the given order.
pub fn rooms_text(rooms: &Vec<String>) -> (text: String)
    ensures
        text@ == rooms_line(lines_view(rooms@)),
{
    if rooms.len() == 0 {
        return String::from_str("rooms: (none)");
    }
    let ghost names = lines_view(rooms@);
    let mut list = rooms[0].clone();
    let mut i: usize = 1;
    proof {
        assert(names.take(1).drop_last() =~= Seq::<Seq<char>>::empty());
    }
    while i < rooms.len()
        invariant
            names == lines_view(rooms@),
            1 <= i <= rooms.len(),
            list@ == joined(names.take(i as int), ", "@),
        decreases rooms.len() - i,
    {
        list.append(", ");
        list.append(rooms[i].as_str());
        proof {
            assert(names.take(i + 1).drop_last() =~= names.take(i as int));
        }
        i = i + 1;
    }
    proof {
        assert(names.take(rooms.len() as int) =~= names);
    }
    let mut text = String::from_str("rooms: ");
    text.append(list.as_str());
    text
}

/// Sets up a user who connected from the IP address `peer_ip` (as text):
/// the user is in the general room and holds a new receiver of its channel.
pub fn connect_user(app_state: &mut AppState, peer_ip: String) -> (user: LocalUserState)
    ensures
        user.room@ == GENERAL_ROOM@,
        user.name == peer_ip,
        after_subscribe(old(app_state)@, final(app_state)@, GENERAL_ROOM@),
        user.room_receiver.channel() == final(app_state)@.rooms[GENERAL_ROOM@].channel.id,
        user.room_receiver.starts_at() == final(app_state)@.rooms[GENERAL_ROOM@].channel.sent.len(),
{
    let receiver = app_state.subscribe_room(GENERAL_ROOM);
    LocalUserState::new_with_addr(peer_ip, receiver)
}

/// Tells the user's room that the user joined it.
pub fn announce_join(user: &LocalUserState, app_state: &mut AppState)
    ensures
        after_publish(
            old(app_state)@,
            final(app_state)@,
            user.room@,
            ChatEventView::UserJoined { user: user.name@, room: user.room@ },
        ),
{
    app_state.publish(
        user.room.as_str(),
        ChatEvent::UserJoined { user: user.name.clone(), room: user.room.clone() },
    );
}

/// Tells the user's room that the user left it.
pub fn announce_leave(user: &LocalUserState, app_state: &mut AppState)
    ensures
        after_publish(
            old(app_state)@,
            final(app_state)@,
            user.room@,
            ChatEventView::UserLeft { user: user.name@, room: user.room@ },
        ),
{
    app_state.publish(
        user.room.as_str(),
        ChatEvent::UserLeft { user: user.name.clone(), room: user.room.clone() },
    );
}

/// What the connection does when the user's input ends: the user's room is
/// told that the user left, nothing is written back, and the connection
/// closes.
pub fn handle_input_end(user: &LocalUserState, app_state: &mut AppState) -> (out: LineOutcome)
    ensures
        out.replies@.len() == 0,
        !out.announce_join,
        out.close,
        after_publish(
            old(app_state)@,
            final(app_state)@,
            user.room@,
            ChatEventView::UserLeft { user: user.name@, room: user.room@ },
        ),
{
    announce_leave(user, app_state);
    LineOutcome { replies: Vec::new(), announce_join: false, close: true }
}

/// What the connection does when it is cut off from outside (the server
/// shuts down, the room's channel closes, or reading the input fails):
/// nothing is written back, no room is told, and the connection closes.
pub fn handle_connection_lost() -> (out: LineOutcome)
    ensures
        out.replies@.len() == 0,
        !out.announce_join,
        out.close,
{
    LineOutcome { replies: Vec::new(), announce_join: false, close: true }
}

/// Counts that a user's receiver fell behind and lost events, and gives the
/// line that tells the user so.
pub fn note_lagged(app_state: &mut AppState) -> (notice: String)
    ensures
        notice@ == "(missed some messages)"@,
        final(app_state)@ == (AppStateView {
            metrics: AppMetricsSnapshot {
                lagged_receives: counter_add(old(app_state)@.metrics.lagged_receives, 1),
                ..old(app_state)@.metrics
            },
            ..old(app_state)@
        }),
{
    app_state.record_lagged_receive();
    String::from_str("(missed some messages)")
}

/// What the connection does after one line of input.
pub struct LineOutcome {
    /// The lines to write back to the user, in order.
    pub replies: Vec<String>,
    /// The user entered a room and, once the replies are written, the room
    /// is to be told that the user joined (`announce_join`).
    pub announce_join: bool,
    /// The user quit: the connection is to be closed.
    pub close: bool,
}

/// The effect of a user named `name` moving from room `room` to room
/// `target`: the old room is told that the user left; then a receiver of
/// the new room's channel is made (the room is created when missing), which
/// belongs to channel `channel` and starts at `start`, after every event sent
/// on it so far (the leave notice among them when the rooms are the same);
/// then the new room's history is replayed as `replies`.
pub open spec fn moved_rooms(
    before: AppStateView,
    after: AppStateView,
    room: Seq<char>,
    name: Seq<char>,
    target: Seq<char>,
    replies: Seq<Seq<char>>,
    channel: nat,
    start: nat,
) -> bool {
    exists|left: AppStateView, entered: AppStateView|
        {
            &&& #[trigger] after_publish(
                before,
                left,
                room,
                ChatEventView::UserLeft { user: name, room },
            )
            &&& #[trigger] after_subscribe(left, entered, target)
            &&& channel == entered.rooms[target].channel.id
            &&& start == entered.rooms[target].channel.sent.len()
            &&& after_replay(entered, after, target)
            &&& replies == rendered_all(replayed(entered, target))
        }
}

/// The effect of a line `input` (trailing whitespace already removed) sent
/// by a user in room `room` named `name` and holding `receiver`, on the
/// server state (`before` to `after`) and on the user (now in `room1`, named
/// `name1` and holding `receiver1`), and what is answered.
pub open spec fn line_handled(
    input: Seq<char>,
    room: Seq<char>,
    name: Seq<char>,
    before: AppStateView,
    room1: Seq<char>,
    name1: Seq<char>,
    after: AppStateView,
    replies: Seq<Seq<char>>,
    announce: bool,
    close: bool,
    receiver: RoomReceiver,
    receiver1: RoomReceiver,
) -> bool {
    &&& (!(parsed(input) is Ok && parsed(input)->Ok_0 is Join) ==> receiver1 == receiver)
    &&& match parsed(input) {
        Ok(ActionView::Join(r)) => {
            let target = normalized_room(r);
            &&& room1 == target
            &&& name1 == name
            &&& announce
            &&& !close
            &&& moved_rooms(
                before,
                after,
                room,
                name,
                target,
                replies,
                receiver1.channel(),
                receiver1.starts_at(),
            )
        },
        Ok(ActionView::Nick(new_name)) => {
            &&& room1 == room
            &&& name1 == new_name
            &&& replies.len() == 0
            &&& !announce
            &&& !close
            &&& after_publish(
                before,
                after,
                room,
                ChatEventView::NickChanged { old: name, new: new_name },
            )
        },
        Ok(ActionView::Rooms) => {
            &&& room1 == room
            &&& name1 == name
            &&& !announce
            &&& !close
            &&& after == before
            &&& exists|names: Seq<Seq<char>>|
                {
                    &&& names.no_duplicates()
                    &&& names.to_set() == before.rooms.dom()
                    &&& replies == seq![#[trigger] rooms_line(names)]
                }
        },
        Ok(ActionView::Quit) => {
            &&& room1 == room
            &&& name1 == name
            &&& replies.len() == 0
            &&& !announce
            &&& close
            &&& after_publish(before, after, room, ChatEventView::UserLeft { user: name, room })
        },
        Ok(ActionView::Message(text)) => {
            &&& room1 == room
            &&& name1 == name
            &&& replies.len() == 0
            &&& !announce
            &&& !close
            &&& if text.len() == 0 {
                after == before
            } else {
                after_publish(
                    before,
                    after,
                    room,
                    ChatEventView::Message { room, user: name, text },
                )
            }
        },
        Err(e) => {
            &&& room1 == room
            &&& name1 == name
            &&& replies == seq!["error: "@ + error_text(e)]
            &&& !announce
            &&& !close
            &&& after == before
        },
    }
}

/// Handles one line that the user sent: its trailing whitespace is removed,
/// then it is read as a command or a message and acted upon.
#[verifier::spinoff_prover]
pub fn handle_line(user: &mut LocalUserState, app_state: &mut AppState, line: &str) -> (out:
    LineOutcome)
    ensures
        line_handled(
            trimmed_end(line@),
            old(user).room@,
            old(user).name@,
            old(app_state)@,
            final(user).room@,
            final(user).name@,
            final(app_state)@,
            lines_view(out.replies@),
            out.announce_join,
            out.close,
            old(user).room_receiver,
            final(user).room_receiver,
        ),
{
    let input = trim_end(line);
    let action = parse_action(input.as_str());
    match action {
        Ok(Action::Join(room_name)) => {
            let normalized = normalize_room_name(room_name.as_str());
            announce_leave(user, app_state);
            let ghost left = app_state@;
            user.join_room(app_state, normalized.as_str());
            let ghost entered = app_state@;
            let replies = replay_room_history(app_state, user.room.as_str());
            proof {
                assert(after_publish(
                    old(app_state)@,
                    left,
                    old(user).room@,
                    ChatEventView::UserLeft { user: old(user).name@, room: old(user).room@ },
                ));
                assert(after_subscribe(left, entered, normalized@));
                assert(after_replay(entered, app_state@, normalized@));
                assert(lines_view(replies@) == rendered_all(replayed(entered, normalized@)));
                assert(parsed(trimmed_end(line@)) == Ok::<ActionView, crate::command::CommandError>(
                    ActionView::Join(room_name@),
                ));
                assert(normalized@ == normalized_room(room_name@));
                assert(user.room@ == normalized@);
                assert(moved_rooms(
                    old(app_state)@,
                    app_state@,
                    old(user).room@,
                    old(user).name@,
                    normalized@,
                    lines_view(replies@),
                    user.room_receiver.channel(),
                    user.room_receiver.starts_at(),
                ));
            }
            LineOutcome { replies, announce_join: true, close: false }
        },
        Ok(Action::Nick(name)) => {
            let old_name = user.name.clone();
            user.update_name(name);
            app_state.publish(
                user.room.as_str(),
                ChatEvent::NickChanged { old: old_name, new: user.name.clone() },
            );
            LineOutcome { replies: Vec::new(), announce_join: false, close: false }
        },
        Ok(Action::Rooms) => {
            let rooms = app_state.list_rooms();
            let mut replies: Vec<String> = Vec::new();
            replies.push(rooms_text(&rooms));
            proof {
                assert(lines_view(replies@) =~= seq![rooms_line(lines_view(rooms@))]);
            }
            LineOutcome { replies, announce_join: false, close: false }
        },
        Ok(Action::Quit) => {
            announce_leave(user, app_state);
            LineOutcome { replies: Vec::new(), announce_join: false, close: true }
        },
        Ok(Action::Message(text)) => {
            if text.unicode_len() > 0 {
                app_state.publish(
                    user.room.as_str(),
                    ChatEvent::Message {
                        room: user.room.clone(),
                        user: user.name.clone(),
                        text,
                    },
                );
            }
            LineOutcome { replies: Vec::new(), announce_join: false, close: false }
        },
        Err(e) => {
            let mut reply = String::from_str("error: ");
            reply.append(e.message());
            let mut replies: Vec<String> = Vec::new();
            replies.push(reply);
            proof {
                assert(lines_view(replies@) =~= seq!["error: "@ + error_text(e)]);
            }
            LineOutcome { replies, announce_join: false, close: false }
        },
    }
}

} // verus!
