//! One connection as the server knows it, and what becomes of a connection
//! that breaks the protocol.

use vstd::prelude::*;
use vstd::string::StringExecFns;

use crate::text::decimal;
use crate::text::escaped;
use crate::text::push_decimal;
use crate::text::push_escaped;
use crate::text::remove_all;
use crate::text::without;

verus! {

/// The violation at which a connection gets its last warning.
pub const NAUGHTY_WARNING: u32 = 50;

/// What a connection has said it is.
#[derive(Clone, Copy, Debug, PartialEq, Eq, Structural)]
pub enum Role {
    /// It owns a tile and sends its pixels.
    Painter,
    /// It shows the composite image.
    Canvas,
    /// It has not said yet.
    Unknown,
}

/// What the server keeps of one connection.
#[derive(Debug)]
pub struct Session {
    pub data: Role,
    pub name: String,
    pub url: String,
    /// How often the connection has broken the protocol.
    pub naughty: u32,
}

/// A session, as plain values.
pub ghost struct SessionView {
    pub data: Role,
    pub name: Seq<char>,
    pub url: Seq<char>,
    pub naughty: nat,
}

impl View for Session {
    type V = SessionView;

    open spec fn view(&self) -> SessionView {
        SessionView {
            data: self.data,
            name: self.name@,
            url: self.url@,
            naughty: self.naughty as nat,
        }
    }
}

/// One frame on a connection.
#[derive(Debug, PartialEq)]
pub enum Message {
    Text(String),
    Binary(Vec<u8>),
}

/// A frame, as plain values.
pub ghost enum MessageView {
    Text(Seq<char>),
    Binary(Seq<u8>),
}

impl View for Message {
    type V = MessageView;

    open spec fn view(&self) -> MessageView {
        match self {
            Message::Text(text) => MessageView::Text(text@),
            Message::Binary(bytes) => MessageView::Binary(bytes@),
        }
    }
}

/// What is done about a violation of the protocol.
#[derive(Debug, PartialEq)]
pub enum Action {
    /// The connection is closed and forgotten.
    RemoveClient,
    /// The connection stays and is sent a warning.
    SendMessage(Message),
}

/// An action, as plain values.
pub ghost enum ActionView {
    RemoveClient,
    SendMessage(MessageView),
}

impl View for Action {
    type V = ActionView;

    open spec fn view(&self) -> ActionView {
        match self {
            Action::RemoveClient => ActionView::RemoveClient,
            Action::SendMessage(message) => ActionView::SendMessage(message@),
        }
    }
}

/// The words that mark the last warning.
pub open spec fn final_marker() -> Seq<char> {
    "FINAL WARNING "@
}

/// The last warning: it names the violation `message` and the count.
pub open spec fn final_warning(message: Seq<char>, count: nat) -> Seq<char> {
    "{\"msg\": \"error\", \"FINAL WARNING "@ + escaped(message) + "\", \"naughty\": "@ + decimal(
        count,
    ) + "}"@
}

/// An earlier warning: the last warning without the marking words, wherever
/// they stand in it.
pub open spec fn warning(message: Seq<char>, count: nat) -> Seq<char> {
    without(final_warning(message, count), final_marker())
}

/// What is done about the violation that brings a connection's count to
/// `count`: below 50 a warning, at 50 the last warning, above 50 the end.
pub open spec fn escalation(message: Seq<char>, count: nat) -> ActionView {
    if count < 50 {
        ActionView::SendMessage(MessageView::Text(warning(message, count)))
    } else if count == 50 {
        ActionView::SendMessage(MessageView::Text(final_warning(message, count)))
    } else {
        ActionView::RemoveClient
    }
}

/// Counts one more violation against `client` and says what is done about
/// it. `message` describes the violation.
pub fn handle_error(message: String, client: &mut Session) -> (action: Action)
    requires
        old(client).naughty < u32::MAX,
    ensures
        final(client)@ == (SessionView { naughty: old(client)@.naughty + 1, ..old(client)@ }),
        action@ == escalation(message@, final(client)@.naughty),
{
    client.naughty += 1;
    let mut json = "{\"msg\": \"error\", \"FINAL WARNING ".to_owned();
    push_escaped(&mut json, message.as_str());
    json.append("\", \"naughty\": ");
    push_decimal(&mut json, client.naughty as u64);
    json.append("}");
    if client.naughty < NAUGHTY_WARNING {
        Action::SendMessage(Message::Text(remove_all(json.as_str(), "FINAL WARNING ")))
    } else if client.naughty == NAUGHTY_WARNING {
        Action::SendMessage(Message::Text(json))
    } else {
        Action::RemoveClient
    }
}

} // verus!
