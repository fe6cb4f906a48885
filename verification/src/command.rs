//! What a client can ask for, and how a line of text is read as a request.

use crate::text::{chars_of, spells, word_spans, words_of};
use vstd::prelude::*;

verus! {

/// A request as the dispatcher understands it.
#[derive(Debug)]
pub enum Command {
    /// `login` with a name and a password.
    Login { username: String, password: String },
    /// `login` with too few or too many words after it.
    BadLogin,
    Position,
    Forward,
    TurnLeft,
    TurnRight,
    Scan,
    Dig,
    Disconnect,
    /// Anything else, an empty line too.
    Unknown,
}

/// A request as mathematics.
pub enum CommandView {
    Login { username: Seq<char>, password: Seq<char> },
    BadLogin,
    Position,
    Forward,
    TurnLeft,
    TurnRight,
    Scan,
    Dig,
    Disconnect,
    Unknown,
}

impl View for Command {
    type V = CommandView;

    open spec fn view(&self) -> CommandView {
        match self {
            Command::Login { username, password } => CommandView::Login {
                username: username@,
                password: password@,
            },
            Command::BadLogin => CommandView::BadLogin,
            Command::Position => CommandView::Position,
            Command::Forward => CommandView::Forward,
            Command::TurnLeft => CommandView::TurnLeft,
            Command::TurnRight => CommandView::TurnRight,
            Command::Scan => CommandView::Scan,
            Command::Dig => CommandView::Dig,
            Command::Disconnect => CommandView::Disconnect,
            Command::Unknown => CommandView::Unknown,
        }
    }
}

/// The request that a line of text makes. The first word is the keyword.
/// `login` takes exactly two more words, a name and a password; the other
/// keywords stand for themselves, whatever follows them.
pub open spec fn command_of(text: Seq<char>) -> CommandView {
    let words = words_of(text);
    if words.len() == 0 {
        CommandView::Unknown
    } else if words[0] == "login"@ {
        if words.len() == 3 {
            CommandView::Login { username: words[1], password: words[2] }
        } else {
            CommandView::BadLogin
        }
    } else if words[0] == "position"@ {
        CommandView::Position
    } else if words[0] == "forward"@ {
        CommandView::Forward
    } else if words[0] == "turnleft"@ {
        CommandView::TurnLeft
    } else if words[0] == "turnright"@ {
        CommandView::TurnRight
    } else if words[0] == "scan"@ {
        CommandView::Scan
    } else if words[0] == "dig"@ {
        CommandView::Dig
    } else if words[0] == "disconnect"@ {
        CommandView::Disconnect
    } else {
        CommandView::Unknown
    }
}

/// Reads a line of text as a request.
pub fn parse_command(text: &str) -> (command: Command)
    ensures
        command@ == command_of(text@),
{
    let chars = chars_of(text);
    let spans = word_spans(&chars);
    if spans.len() == 0 {
        return Command::Unknown;
    }
    let ghost words = words_of(text@);
    assert(forall|i: int|
        0 <= i < spans@.len() ==> words[i] == chars@.subrange(
            spans@[i].0 as int,
            spans@[i].1 as int,
        ));
    let from = spans[0].0;
    let to = spans[0].1;
    if spells(&chars, from, to, "login") {
        if spans.len() != 3 {
            return Command::BadLogin;
        }
        let username = String::from_str(text.substring_char(spans[1].0, spans[1].1));
        let password = String::from_str(text.substring_char(spans[2].0, spans[2].1));
        Command::Login { username, password }
    } else if spells(&chars, from, to, "position") {
        Command::Position
    } else if spells(&chars, from, to, "forward") {
        Command::Forward
    } else if spells(&chars, from, to, "turnleft") {
        Command::TurnLeft
    } else if spells(&chars, from, to, "turnright") {
        Command::TurnRight
    } else if spells(&chars, from, to, "scan") {
        Command::Scan
    } else if spells(&chars, from, to, "dig") {
        Command::Dig
    } else if spells(&chars, from, to, "disconnect") {
        Command::Disconnect
    } else {
        Command::Unknown
    }
}

} // verus!
