//! Data model of the core: messages, rooms, and the command/response
//! vocabulary spoken with the backend, together with the mathematical views
//! that the contracts are stated over.

use vstd::prelude::*;

verus! {

/// How outgoing messages from the bot should be formatted.  This is up to the
/// client, but usually room notices are rendered differently from plain text
/// messages.
#[derive(Clone, Copy, Debug, PartialEq, Eq, Structural)]
pub enum MessageType {
    RoomNotice,
    TextMessage,
}

/// Membership state of the bot in a room, as reported by the backend.
#[derive(Clone, Copy, Debug, PartialEq, Eq, Structural)]
pub enum Membership {
    Invited,
    Joined,
    Left,
}

/// A chat message.  Values of this type are produced by the backend (for
/// incoming messages) or by [`crate::ActiveBot`] (for outgoing ones) and are
/// never mutated afterwards.
#[derive(Clone, Debug, PartialEq)]
pub struct Message {
    /// Identity of the author.
    pub sender: String,
    /// Protocol event type, `"m.text"` for plain text messages.
    pub mtype: String,
    /// The text body.
    pub body: String,
    /// Unix timestamp of the message.
    pub date: u64,
    /// Identifier of the room the message belongs to.
    pub room: String,
    /// Identifier of the message: the server event id for incoming messages,
    /// a deterministic transaction id for outgoing ones.
    pub id: String,
    /// Rich-formatted body, if any.
    pub formatted_body: Option<String>,
    /// Format of `formatted_body`, if any.
    pub format: Option<String>,
    /// Event id of the message this one replies to, if any.
    pub in_reply_to: Option<String>,
}

/// A room the bot knows of, as reported by the backend in a room update.
#[derive(Clone, Debug, PartialEq)]
pub struct Room {
    /// Identifier of the room.
    pub id: String,
    /// The bot's membership state in the room.
    pub membership: Membership,
}

/// What the core sends to the backend.
#[derive(Clone, Debug, PartialEq)]
pub enum Command {
    /// Log in with the given credentials against the given homeserver.
    Login { user: String, password: String, homeserver_url: String },
    /// Ask the backend for the next batch of events (long poll).
    Sync { since: Option<String>, initial: bool },
    /// Deliver a message.
    SendMsg(Message),
    /// Acknowledge a message as read.
    MarkAsRead { room: String, id: String },
    /// Accept an invitation to a room.
    JoinRoom(String),
    /// Leave a room.
    LeaveRoom(String),
    /// Ask the backend to stop.
    ShutDown,
}

/// What the backend delivers to the core.
#[derive(Clone, Debug, PartialEq)]
pub enum Response {
    /// Login succeeded; carries the session identity of the bot.
    Token(String),
    /// A sync round finished; carries the new sync cursor.
    Sync(String),
    /// A sync round failed; the core retries unconditionally.
    SyncError,
    /// The set of rooms changed.
    UpdateRooms(Vec<Room>),
    /// A batch of new messages, in delivery order.
    RoomMessages(Vec<Message>),
    /// The backend honoured a shutdown request; the event loop ends.
    ShutDown,
}

/// Mathematical view of a [`Message`]: every text field as a sequence of
/// characters.
pub struct MessageView {
    pub sender: Seq<char>,
    pub mtype: Seq<char>,
    pub body: Seq<char>,
    pub date: u64,
    pub room: Seq<char>,
    pub id: Seq<char>,
    pub formatted_body: Option<Seq<char>>,
    pub format: Option<Seq<char>>,
    pub in_reply_to: Option<Seq<char>>,
}

/// Mathematical view of a [`Room`].
pub struct RoomView {
    pub id: Seq<char>,
    pub membership: Membership,
}

/// Mathematical view of a [`Command`].
pub enum CommandView {
    Login { user: Seq<char>, password: Seq<char>, homeserver_url: Seq<char> },
    Sync { since: Option<Seq<char>>, initial: bool },
    SendMsg(MessageView),
    MarkAsRead { room: Seq<char>, id: Seq<char> },
    JoinRoom(Seq<char>),
    LeaveRoom(Seq<char>),
    ShutDown,
}

/// View of an optional string as an optional character sequence.
pub open spec fn opt_view(o: Option<String>) -> Option<Seq<char>> {
    match o {
        Some(s) => Some(s@),
        None => None,
    }
}

impl View for Message {
    type V = MessageView;

    open spec fn view(&self) -> MessageView {
        MessageView {
            sender: self.sender@,
            mtype: self.mtype@,
            body: self.body@,
            date: self.date,
            room: self.room@,
            id: self.id@,
            formatted_body: opt_view(self.formatted_body),
            format: opt_view(self.format),
            in_reply_to: opt_view(self.in_reply_to),
        }
    }
}

impl View for Room {
    type V = RoomView;

    open spec fn view(&self) -> RoomView {
        RoomView { id: self.id@, membership: self.membership }
    }
}

impl View for Command {
    type V = CommandView;

    open spec fn view(&self) -> CommandView {
        match self {
            Command::Login { user, password, homeserver_url } => CommandView::Login {
                user: user@,
                password: password@,
                homeserver_url: homeserver_url@,
            },
            Command::Sync { since, initial } => CommandView::Sync {
                since: match since {
                    Some(s) => Some(s@),
                    None => None,
                },
                initial: *initial,
            },
            Command::SendMsg(m) => CommandView::SendMsg(m@),
            Command::MarkAsRead { room, id } => CommandView::MarkAsRead { room: room@, id: id@ },
            Command::JoinRoom(r) => CommandView::JoinRoom(r@),
            Command::LeaveRoom(r) => CommandView::LeaveRoom(r@),
            Command::ShutDown => CommandView::ShutDown,
        }
    }
}

/// View of a sequence of commands, element by element.
pub open spec fn cmds_view(s: Seq<Command>) -> Seq<CommandView> {
    s.map(|i: int, c: Command| c@)
}

/// View of a sequence of messages, element by element.
pub open spec fn msgs_view(s: Seq<Message>) -> Seq<MessageView> {
    s.map(|i: int, m: Message| m@)
}

/// View of a sequence of rooms, element by element.
pub open spec fn rooms_view(s: Seq<Room>) -> Seq<RoomView> {
    s.map(|i: int, r: Room| r@)
}

} // verus!
