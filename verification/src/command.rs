//! What a client's line asks for: a slash command or a message, and the
//! canonical form of a room name.

use vstd::prelude::*;
use crate::text::{next_word, words};

verus! {

/// What a line typed by a client asks the server to do.
#[derive(Debug, PartialEq, Eq)]
pub enum Action {
    Join(String),
    Nick(String),
    Rooms,
    Quit,
    Message(String),
}

/// The model of an `Action`.
pub enum ActionView {
    Join(Seq<char>),
    Nick(Seq<char>),
    Rooms,
    Quit,
    Message(Seq<char>),
}

impl View for Action {
    type V = ActionView;

    open spec fn view(&self) -> ActionView {
        match self {
            Action::Join(room) => ActionView::Join(room@),
            Action::Nick(name) => ActionView::Nick(name@),
            Action::Rooms => ActionView::Rooms,
            Action::Quit => ActionView::Quit,
            Action::Message(text) => ActionView::Message(text@),
        }
    }
}

/// Why a slash command was refused.
#[derive(Clone, Copy, Debug, PartialEq, Eq, Structural)]
pub enum CommandError {
    EmptyCommand,
    JoinUsage,
    NickUsage,
    UnknownCommand,
}

impl CommandError {
    /// The text that the client is shown for this error.
    pub fn message(&self) -> (m: &'static str)
        ensures
            m@ == error_text(*self),
    {
        match self {
            CommandError::EmptyCommand => "empty command",
            CommandError::JoinUsage => "usage: /join <room>",
            CommandError::NickUsage => "usage: /nick <name>",
            CommandError::UnknownCommand => "unknown command",
        }
    }
}

pub open spec fn error_text(e: CommandError) -> Seq<char> {
    match e {
        CommandError::EmptyCommand => "empty command"@,
        CommandError::JoinUsage => "usage: /join <room>"@,
        CommandError::NickUsage => "usage: /nick <name>"@,
        CommandError::UnknownCommand => "unknown command"@,
    }
}

/// The action that a line asks for. A line that does not start with `/` is a
/// message, the empty line an empty message. Otherwise its first word names
/// the command; `/join` and `/nick` take the second word as their argument,
/// and any further words are ignored.
pub open spec fn parsed(line: Seq<char>) -> Result<ActionView, CommandError> {
    if line.len() == 0 {
        Ok(ActionView::Message(Seq::empty()))
    } else if line[0] != '/' {
        Ok(ActionView::Message(line))
    } else {
        let w = words(line);
        if w.len() == 0 {
            Err(CommandError::EmptyCommand)
        } else if w[0] == "/join"@ {
            if w.len() >= 2 {
                Ok(ActionView::Join(w[1]))
            } else {
                Err(CommandError::JoinUsage)
            }
        } else if w[0] == "/nick"@ {
            if w.len() >= 2 {
                Ok(ActionView::Nick(w[1]))
            } else {
                Err(CommandError::NickUsage)
            }
        } else if w[0] == "/rooms"@ {
            Ok(ActionView::Rooms)
        } else if w[0] == "/quit"@ {
            Ok(ActionView::Quit)
        } else {
            Err(CommandError::UnknownCommand)
        }
    }
}

pub open spec fn parse_result_view(r: Result<Action, CommandError>) -> Result<ActionView, CommandError> {
    match r {
        Ok(a) => Ok(a@),
        Err(e) => Err(e),
    }
}

/// Copies the characters `a..b` of `s` into a new string.
fn copy_range(s: &str, a: usize, b: usize) -> (r: String)
    requires
        a <= b <= s@.len(),
    ensures
        r@ == s@.subrange(a as int, b as int),
{
    String::from_str(s.substring_char(a, b))
}

/// Reads the line a client typed (with its trailing whitespace removed).
pub fn parse_action(line: &str) -> (r: Result<Action, CommandError>)
    ensures
        parse_result_view(r) == parsed(line@),
{
    let n = line.unicode_len();
    if n == 0 {
        return Ok(Action::Message(String::new()));
    }
    if line.get_char(0) != '/' {
        return Ok(Action::Message(String::from_str(line)));
    }
    let first = next_word(line, 0);
    let (a, b) = match first {
        None => {
            return Err(CommandError::EmptyCommand);
        },
        Some(bounds) => bounds,
    };
    let command = copy_range(line, a, b);
    let second = next_word(line, b);
    proof {
        let w = words(line@);
        match second {
            None => {
                assert(w.len() == 1);
            },
            Some((c, d)) => {
                assert(w.len() >= 2);
                assert(w[1] == line@.subrange(c as int, d as int));
            },
        }
    }
    if command == String::from_str("/join") {
        match second {
            Some((c, d)) => Ok(Action::Join(copy_range(line, c, d))),
            None => Err(CommandError::JoinUsage),
        }
    } else if command == String::from_str("/nick") {
        match second {
            Some((c, d)) => Ok(Action::Nick(copy_range(line, c, d))),
            None => Err(CommandError::NickUsage),
        }
    } else if command == String::from_str("/rooms") {
        Ok(Action::Rooms)
    } else if command == String::from_str("/quit") {
        Ok(Action::Quit)
    } else {
        Err(CommandError::UnknownCommand)
    }
}

/// The canonical name of a room: the name itself when it starts with `#`,
/// otherwise the name with `#` put in front.
pub open spec fn normalized_room(name: Seq<char>) -> Seq<char> {
    if name.len() > 0 && name[0] == '#' {
        name
    } else {
        seq!['#'] + name
    }
}

pub fn normalize_room_name(room_name: &str) -> (r: String)
    ensures
        r@ == normalized_room(room_name@),
{
    if room_name.unicode_len() > 0 && room_name.get_char(0) == '#' {
        String::from_str(room_name)
    } else {
        let mut r = String::from_str("#");
        r.append(room_name);
        proof {
            reveal_strlit("#");
        }
        r
    }
}

} // verus!
