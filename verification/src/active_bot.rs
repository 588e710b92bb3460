//! The capability handle given to message handlers.
//!
//! An [`ActiveBot`] exposes exactly the operations a handler is allowed to
//! perform — send a message, leave a room, shut the bot down — and nothing of
//! the bot's own state.  Outgoing commands are queued inside the handle, in
//! order; the event loop drains the queue and forwards it to the backend.

use vstd::prelude::*;

use crate::types::Command;
use crate::types::CommandView;
use crate::types::Message;
use crate::types::MessageType;
use crate::types::MessageView;
use crate::types::cmds_view;
use crate::types::opt_view;

verus! {

/// Mathematical view of an [`ActiveBot`]: the session identity, the verbose
/// flag, and the queue of outgoing commands.
pub struct BotView {
    pub uid: Option<Seq<char>>,
    pub verbose: bool,
    pub out: Seq<CommandView>,
}

/// The session identity used to stamp outgoing messages: the uid when one is
/// known, the empty string before login.
pub open spec fn uid_or_empty(uid: Option<Seq<char>>) -> Seq<char> {
    match uid {
        Some(u) => u,
        None => Seq::empty(),
    }
}

/// The protocol string for a [`MessageType`].
pub open spec fn mtype_text(t: MessageType) -> Seq<char> {
    match t {
        MessageType::RoomNotice => "m.notice"@,
        MessageType::TextMessage => "m.text"@,
    }
}

/// Commands that the capability surface can emit.  A handler can send
/// messages, leave rooms and request a shutdown; everything else (logging in,
/// syncing, joining rooms, read acknowledgements) is reserved to the event
/// core itself.
pub open spec fn handler_command(c: CommandView) -> bool {
    match c {
        CommandView::SendMsg(_) => true,
        CommandView::LeaveRoom(_) => true,
        CommandView::ShutDown => true,
        _ => false,
    }
}

/// How a handler invocation may change the capability handle: the identity and
/// the verbose flag are untouched, and the command queue only grows, by
/// commands of the capability surface.
pub open spec fn capability_step(pre: BotView, post: BotView) -> bool {
    &&& post.uid == pre.uid
    &&& post.verbose == pre.verbose
    &&& pre.out.len() <= post.out.len()
    &&& post.out.subrange(0, pre.out.len() as int) == pre.out
    &&& forall|i: int|
        pre.out.len() <= i < post.out.len() ==> handler_command(#[trigger] post.out[i])
}

/// A capability step leaves the handle unchanged when it emits nothing.
pub proof fn lemma_capability_step_refl(b: BotView)
    ensures
        capability_step(b, b),
{
    assert(b.out.subrange(0, b.out.len() as int) =~= b.out);
}

/// Capability steps compose.
pub proof fn lemma_capability_step_trans(a: BotView, b: BotView, c: BotView)
    requires
        capability_step(a, b),
        capability_step(b, c),
    ensures
        capability_step(a, c),
{
    assert(c.out.subrange(0, a.out.len() as int) =~= a.out) by {
        assert forall|i: int| 0 <= i < a.out.len() implies c.out[i] == a.out[i] by {
            assert(b.out.subrange(0, a.out.len() as int)[i] == b.out[i]);
            assert(c.out.subrange(0, b.out.len() as int)[i] == c.out[i]);
        }
    }
    assert forall|i: int| a.out.len() <= i < c.out.len() implies handler_command(
        #[trigger] c.out[i],
    ) by {
        if i < b.out.len() {
            assert(c.out.subrange(0, b.out.len() as int)[i] == c.out[i]);
        }
    }
}

/// Multiplier of the 64-bit Fowler–Noll–Vo hash.
pub const FNV_PRIME: u64 = 0x100000001b3;

/// Starting state of the 64-bit Fowler–Noll–Vo hash.
pub const FNV_OFFSET: u64 = 0xcbf29ce484222325;

/// Separator mixed into the transaction hash between its parts.
pub const TXN_SEP: u64 = 0x1f;

/// One step of the FNV-1a hash.
pub open spec fn fnv1a_step(h: u64, c: u64) -> u64 {
    (h ^ c).wrapping_mul(FNV_PRIME)
}

/// FNV-1a over a sequence of characters, by code point.
pub open spec fn fnv1a(h: u64, s: Seq<char>) -> u64
    decreases s.len(),
{
    if s.len() == 0 {
        h
    } else {
        fnv1a(fnv1a_step(h, s[0] as u64), s.drop_first())
    }
}

/// The decimal digits.
pub open spec fn dec_digits() -> Seq<char> {
    "0123456789"@
}

/// Decimal notation of a number, most significant digit first.
pub open spec fn dec_of(n: u64) -> Seq<char>
    decreases n,
{
    if n < 10 {
        seq![dec_digits()[n as int]]
    } else {
        dec_of(n / 10).push(dec_digits()[(n % 10) as int])
    }
}

/// The deterministic transaction id the bot stamps on an outgoing message:
/// the decimal notation of an FNV-1a hash over the room id, the body and the
/// timestamp.  The backend may use it to deduplicate deliveries.
pub open spec fn txn_of(room: Seq<char>, body: Seq<char>, date: u64) -> Seq<char> {
    dec_of(fnv1a_step(fnv1a(fnv1a_step(fnv1a(FNV_OFFSET, room), TXN_SEP), body), date))
}

/// The outgoing message built by the capability handle from a session
/// identity, a body, an optional rich-formatted body, a room, a message type
/// and a timestamp.
pub open spec fn sent_message(
    uid: Option<Seq<char>>,
    body: Seq<char>,
    html: Option<Seq<char>>,
    room: Seq<char>,
    msgtype: MessageType,
    date: u64,
) -> MessageView {
    MessageView {
        sender: uid_or_empty(uid),
        mtype: mtype_text(msgtype),
        body: body,
        date: date,
        room: room,
        id: txn_of(room, body, date),
        formatted_body: html,
        format: match html {
            Some(_) => Some("org.matrix.custom.html"@),
            None => None,
        },
        in_reply_to: None,
    }
}

/// Handle for an active bot that allows sending messages, leaving rooms and
/// shutting down the bot.  Outgoing commands are queued inside the handle in
/// the order they were issued.
pub struct ActiveBot {
    uid: Option<String>,
    verbose: bool,
    out: Vec<Command>,
}

impl View for ActiveBot {
    type V = BotView;

    closed spec fn view(&self) -> BotView {
        BotView { uid: opt_view(self.uid), verbose: self.verbose, out: cmds_view(self.out@) }
    }
}

/// View of an optional borrowed string as an optional character sequence.
pub open spec fn opt_str_view(o: Option<&str>) -> Option<Seq<char>> {
    match o {
        Some(h) => Some(h@),
        None => None,
    }
}

/// Mapping a sequence of commands to views commutes with appending one
/// command.
proof fn lemma_cmds_view_push(s: Seq<Command>, c: Command)
    ensures
        cmds_view(s.push(c)) =~= cmds_view(s).push(c@),
{
}

/// Relies on chrono's `Local::now` for the current wall-clock time, read as
/// seconds since the Unix epoch.  Nothing is assumed of the value.
#[verifier::external_body]
fn now_unix() -> u64 {
    chrono::Local::now().timestamp() as u64
}

/// FNV-1a over the characters of a string slice, starting from `h`.
fn fnv1a_str(h: u64, s: &str) -> (r: u64)
    ensures
        r == fnv1a(h, s@),
{
    let n = s.unicode_len();
    let mut acc = h;
    let mut i: usize = 0;
    proof {
        assert(s@.skip(0) =~= s@);
    }
    while i < n
        invariant
            n == s@.len(),
            i <= n,
            fnv1a(h, s@) == fnv1a(acc, s@.skip(i as int)),
        decreases n - i,
    {
        let c = s.get_char(i);
        proof {
            assert(s@.skip(i as int)[0] == s@[i as int]);
            assert(s@.skip(i as int).drop_first() =~= s@.skip(i + 1));
        }
        acc = (acc ^ (c as u64)).wrapping_mul(FNV_PRIME);
        i = i + 1;
    }
    proof {
        assert(s@.skip(n as int) =~= Seq::<char>::empty());
    }
    acc
}

/// Decimal notation of a number, as a string.
fn dec_str(n: u64) -> (s: String)
    ensures
        s@ == dec_of(n),
    decreases n,
{
    let digits = "0123456789";
    proof {
        reveal_strlit("0123456789");
    }
    if n < 10 {
        let d = digits.substring_char(n as usize, n as usize + 1);
        proof {
            assert(d@ =~= seq![dec_digits()[n as int]]);
        }
        d.to_owned()
    } else {
        let mut s = dec_str(n / 10);
        let d = digits.substring_char((n % 10) as usize, (n % 10) as usize + 1);
        s.append(d);
        proof {
            assert(d@ =~= seq![dec_digits()[(n % 10) as int]]);
            assert(dec_of(n / 10) + d@ =~= dec_of(n / 10).push(dec_digits()[(n % 10) as int]));
        }
        s
    }
}

/// The transaction id for an outgoing message, as a string.
fn txn_id(room: &str, body: &str, date: u64) -> (r: String)
    ensures
        r@ == txn_of(room@, body@, date),
{
    let h = fnv1a_str(FNV_OFFSET, room);
    let h = (h ^ TXN_SEP).wrapping_mul(FNV_PRIME);
    let h = fnv1a_str(h, body);
    let h = (h ^ date).wrapping_mul(FNV_PRIME);
    dec_str(h)
}

impl ActiveBot {
    /// A fresh capability handle with the given session identity and verbose
    /// flag and an empty outgoing queue.
    pub fn new(uid: Option<String>, verbose: bool) -> (b: ActiveBot)
        ensures
            b@ == (BotView { uid: opt_view(uid), verbose: verbose, out: Seq::<CommandView>::empty() }),
    {
        let b = ActiveBot { uid, verbose, out: Vec::new() };
        proof {
            assert(cmds_view(b.out@) =~= Seq::<CommandView>::empty());
        }
        b
    }

    /// Whether the bot traces commands and responses.
    pub fn verbose(&self) -> (v: bool)
        ensures
            v == self@.verbose,
    {
        self.verbose
    }

    /// Appends one command to the outgoing queue, on behalf of the event core.
    pub(crate) fn push_command(&mut self, c: Command)
        ensures
            final(self)@ == (BotView { out: old(self)@.out.push(c@), ..old(self)@ }),
    {
        proof {
            lemma_cmds_view_push(self.out@, c);
        }
        self.out.push(c);
    }

    /// Replaces the session identity, on behalf of the event core.
    pub(crate) fn set_uid(&mut self, uid: Option<String>)
        ensures
            final(self)@ == (BotView { uid: opt_view(uid), ..old(self)@ }),
    {
        self.uid = uid;
    }

    /// Hands the queued commands out in order and leaves the queue empty.
    pub fn take_outgoing(&mut self) -> (cmds: Vec<Command>)
        ensures
            cmds_view(cmds@) == old(self)@.out,
            final(self)@ == (BotView { out: Seq::<CommandView>::empty(), ..old(self)@ }),
    {
        let mut cmds: Vec<Command> = Vec::new();
        core::mem::swap(&mut self.out, &mut cmds);
        proof {
            assert(cmds_view(self.out@) =~= Seq::<CommandView>::empty());
        }
        cmds
    }

    /// Will shut down the bot.  The bot will not leave any rooms.
    ///
    /// The command is only queued here: the event loop keeps running until the
    /// backend answers with its own shutdown response.
    pub fn shutdown(&mut self)
        ensures
            final(self)@ == (BotView { out: old(self)@.out.push(CommandView::ShutDown), ..old(self)@ }),
            capability_step(old(self)@, final(self)@),
    {
        self.push_command(Command::ShutDown);
        proof {
            assert(self@.out.subrange(0, old(self)@.out.len() as int) =~= old(self)@.out);
        }
    }

    /// Will leave the given room (give the room id, not the room name).
    pub fn leave_room(&mut self, room_id: &str)
        ensures
            final(self)@ == (BotView {
                out: old(self)@.out.push(CommandView::LeaveRoom(room_id@)),
                ..old(self)@
            }),
            capability_step(old(self)@, final(self)@),
    {
        self.push_command(Command::LeaveRoom(room_id.to_owned()));
        proof {
            assert(self@.out.subrange(0, old(self)@.out.len() as int) =~= old(self)@.out);
        }
    }

    /// Sends a message to a given room, with a given message type.  The
    /// message is stamped with the current session identity, the current time
    /// and a deterministic transaction id.
    pub fn send_message(&mut self, msg: &str, room: &str, msgtype: MessageType) -> (date: Ghost<
        u64,
    >)
        ensures
            final(self)@ == (BotView {
                out: old(self)@.out.push(
                    CommandView::SendMsg(sent_message(old(self)@.uid, msg@, None, room@, msgtype, date@)),
                ),
                ..old(self)@
            }),
            capability_step(old(self)@, final(self)@),
    {
        self.raw_send_message(msg, None, room, msgtype)
    }

    /// Sends a rich-formatted message to a given room, with a given message
    /// type: `msg` is the plain-text fallback, `html` the formatted body.
    pub fn send_html_message(
        &mut self,
        msg: &str,
        html: &str,
        room: &str,
        msgtype: MessageType,
    ) -> (date: Ghost<u64>)
        ensures
            final(self)@ == (BotView {
                out: old(self)@.out.push(
                    CommandView::SendMsg(
                        sent_message(old(self)@.uid, msg@, Some(html@), room@, msgtype, date@),
                    ),
                ),
                ..old(self)@
            }),
            capability_step(old(self)@, final(self)@),
    {
        self.raw_send_message(msg, Some(html), room, msgtype)
    }

    /// Builds the outgoing message and queues it.
    fn raw_send_message(
        &mut self,
        msg: &str,
        html: Option<&str>,
        room: &str,
        msgtype: MessageType,
    ) -> (date: Ghost<u64>)
        ensures
            final(self)@ == (BotView {
                out: old(self)@.out.push(
                    CommandView::SendMsg(
                        sent_message(old(self)@.uid, msg@, opt_str_view(html), room@, msgtype, date@),
                    ),
                ),
                ..old(self)@
            }),
            capability_step(old(self)@, final(self)@),
    {
        let now = now_unix();
        let sender = match &self.uid {
            Some(u) => u.clone(),
            None => String::new(),
        };
        let mtype = match msgtype {
            MessageType::RoomNotice => "m.notice".to_owned(),
            MessageType::TextMessage => "m.text".to_owned(),
        };
        let (formatted_body, format) = match html {
            None => (None, None),
            Some(h) => (Some(h.to_owned()), Some("org.matrix.custom.html".to_owned())),
        };
        let m = Message {
            sender,
            mtype,
            body: msg.to_owned(),
            date: now,
            room: room.to_owned(),
            id: txn_id(room, msg, now),
            formatted_body,
            format,
            in_reply_to: None,
        };
        self.push_command(Command::SendMsg(m));
        proof {
            assert(self@ == (BotView {
                out: old(self)@.out.push(
                    CommandView::SendMsg(
                        sent_message(old(self)@.uid, msg@, opt_str_view(html), room@, msgtype, now),
                    ),
                ),
                ..old(self)@
            }));
            assert(self@.out.subrange(0, old(self)@.out.len() as int) =~= old(self)@.out);
        }
        Ghost(now)
    }
}

} // verus!
