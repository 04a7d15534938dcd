use vstd::prelude::*;

verus! {

/// An event that is published to a room and rendered to its members.
#[derive(Clone, Debug)]
pub enum ChatEvent {
    System { text: String },
    UserJoined { user: String, room: String },
    UserLeft { user: String, room: String },
    NickChanged { old: String, new: String },
    Message { room: String, user: String, text: String },
}

/// The mathematical model of a `ChatEvent`: every string taken by its characters.
pub enum ChatEventView {
    System { text: Seq<char> },
    UserJoined { user: Seq<char>, room: Seq<char> },
    UserLeft { user: Seq<char>, room: Seq<char> },
    NickChanged { old: Seq<char>, new: Seq<char> },
    Message { room: Seq<char>, user: Seq<char>, text: Seq<char> },
}

impl View for ChatEvent {
    type V = ChatEventView;

    open spec fn view(&self) -> ChatEventView {
        match self {
            ChatEvent::System { text } => ChatEventView::System { text: text@ },
            ChatEvent::UserJoined { user, room } => ChatEventView::UserJoined { user: user@, room: room@ },
            ChatEvent::UserLeft { user, room } => ChatEventView::UserLeft { user: user@, room: room@ },
            ChatEvent::NickChanged { old, new } => ChatEventView::NickChanged { old: old@, new: new@ },
            ChatEvent::Message { room, user, text } => ChatEventView::Message {
                room: room@,
                user: user@,
                text: text@,
            },
        }
    }
}

/// The text line shown to a room member for an event.
pub open spec fn rendered(e: ChatEventView) -> Seq<char> {
    match e {
        ChatEventView::System { text } => text,
        ChatEventView::UserJoined { user, room } => "* "@ + user + " joined "@ + room,
        ChatEventView::UserLeft { user, room } => "* "@ + user + " left "@ + room,
        ChatEventView::NickChanged { old, new } => "* "@ + old + " is now known as "@ + new,
        ChatEventView::Message { room, user, text } => "["@ + room + "] "@ + user + " > "@ + text,
    }
}

impl ChatEvent {
    /// Renders the event as the line that members of the room see.
    pub fn render(&self) -> (line: String)
        ensures
            line@ == rendered(self@),
    {
        match self {
            ChatEvent::System { text } => text.clone(),
            ChatEvent::UserJoined { user, room } => {
                let mut line = String::from_str("* ");
                line.append(user.as_str());
                line.append(" joined ");
                line.append(room.as_str());
                line
            },
            ChatEvent::UserLeft { user, room } => {
                let mut line = String::from_str("* ");
                line.append(user.as_str());
                line.append(" left ");
                line.append(room.as_str());
                line
            },
            ChatEvent::NickChanged { old, new } => {
                let mut line = String::from_str("* ");
                line.append(old.as_str());
                line.append(" is now known as ");
                line.append(new.as_str());
                line
            },
            ChatEvent::Message { room, user, text } => {
                let mut line = String::from_str("[");
                line.append(room.as_str());
                line.append("] ");
                line.append(user.as_str());
                line.append(" > ");
                line.append(text.as_str());
                line
            },
        }
    }
}

} // verus!
