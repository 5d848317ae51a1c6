//! The medium as the counter sees it: a key-value store that is sent one
//! command at a time and answers each with one reply.

use vstd::prelude::*;
use crate::decimal::utf8_text;

verus! {

/// A command for the medium.
#[derive(Clone, Debug, PartialEq, Eq)]
pub enum Command {
    /// `SET key value`: store `value` under `key`, replacing what was there.
    Store { key: String, value: String },
    /// `GET key`: fetch what is stored under `key`.
    Fetch { key: String },
}

/// What a [`Command`] says, with its texts as sequences of characters.
pub enum CommandView {
    Store { key: Seq<char>, value: Seq<char> },
    Fetch { key: Seq<char> },
}

impl View for Command {
    type V = CommandView;

    open spec fn view(&self) -> CommandView {
        match self {
            Command::Store { key, value } => CommandView::Store { key: key@, value: value@ },
            Command::Fetch { key } => CommandView::Fetch { key: key@ },
        }
    }
}

/// A reply of the medium. A stored string comes back in one of two shapes;
/// every other reply carries no record.
#[derive(Clone, Debug, PartialEq, Eq)]
pub enum Reply {
    /// A short string, sent inline as text.
    SimpleString(String),
    /// A longer string, sent as a chunk of bytes.
    BulkString(Vec<u8>),
    /// Nothing is stored under the key.
    Nil,
    /// Any other reply: an error message, a number, a list.
    Unrecognized,
}

impl Reply {
    /// True when the reply acknowledges a write: a string, in either of its
    /// two shapes. An error message, a missing value and any other reply
    /// acknowledge nothing.
    pub open spec fn acknowledges(self) -> bool {
        self is SimpleString || self is BulkString
    }

    /// The text of the record that the reply carries, if it carries one: the
    /// text of a simple string as it is, the bytes of a bulk string decoded as
    /// UTF-8. A bulk string that is not well-formed UTF-8 carries none.
    pub open spec fn record_text(self) -> Option<Seq<char>> {
        match self {
            Reply::SimpleString(text) => Some(text@),
            Reply::BulkString(bytes) => utf8_text(bytes@),
            Reply::Nil => None,
            Reply::Unrecognized => None,
        }
    }
}

/// A handle to a medium: it takes a command, makes the round trip and hands
/// back the reply, or the failure that kept the reply from arriving. A handle
/// may be shared and used for any number of commands.
pub trait Medium {
    /// What the handle reports when the medium could not be reached.
    type Failure;

    /// Sends `command` and waits for its reply.
    fn request(&self, command: Command) -> Result<Reply, Self::Failure>;
}

} // verus!
