//! Message-dispatch core for a chat bot.
//!
//! The crate sits between an external chat-protocol backend and a set of
//! user-supplied command handlers.  The backend is reached only through a
//! command/response vocabulary ([`Command`], [`Response`]): the event core
//! receives one [`Response`] at a time, reacts to it (auto-joining rooms,
//! marking messages as read, re-issuing sync requests), and hands every
//! qualifying text message to an ordered chain of [`handlers::MessageHandler`]s.
//! Handlers talk back to the backend only through the narrow [`ActiveBot`]
//! capability handle, which queues outgoing [`Command`]s.

mod active_bot;
mod types;

pub mod handlers;

pub use active_bot::ActiveBot;
pub use active_bot::BotView;
pub use active_bot::capability_step;
pub use active_bot::handler_command;
pub use active_bot::sent_message;
pub use active_bot::txn_of;
pub use active_bot::uid_or_empty;
pub use types::Command;
pub use types::CommandView;
pub use types::Membership;
pub use types::Message;
pub use types::MessageType;
pub use types::MessageView;
pub use types::Response;
pub use types::Room;
pub use types::RoomView;

use vstd::prelude::*;

use active_bot::lemma_capability_step_refl;
use handlers::HandleResult;
use handlers::MessageHandler;
use handlers::chain_post;
use handlers::dispatch;
use handlers::lemma_chain_post;
use handlers::str_eq;
use types::msgs_view;
use types::rooms_view;

verus! {

/// One sequence of commands extends another when the second starts with the
/// first: the queue only ever grows at its end.
pub open spec fn out_extends(pre: Seq<CommandView>, post: Seq<CommandView>) -> bool {
    pre.len() <= post.len() && post.subrange(0, pre.len() as int) == pre
}

/// Extension is reflexive.
proof fn lemma_out_extends_refl(s: Seq<CommandView>)
    ensures
        out_extends(s, s),
{
    assert(s.subrange(0, s.len() as int) =~= s);
}

/// Extension composes.
proof fn lemma_out_extends_trans(a: Seq<CommandView>, b: Seq<CommandView>, c: Seq<CommandView>)
    requires
        out_extends(a, b),
        out_extends(b, c),
    ensures
        out_extends(a, c),
{
    assert(c.subrange(0, a.len() as int) =~= a) by {
        assert forall|i: int| 0 <= i < a.len() implies c.subrange(0, a.len() as int)[i] == a[i] by {
            assert(b.subrange(0, a.len() as int)[i] == b[i]);
            assert(c.subrange(0, b.len() as int)[i] == c[i]);
        }
    }
}

/// The join commands the core answers a room update with: one `JoinRoom` for
/// each room whose membership state is invited, in the update's order.
pub open spec fn joins_of(rooms: Seq<RoomView>) -> Seq<CommandView>
    decreases rooms.len(),
{
    if rooms.len() == 0 {
        Seq::empty()
    } else {
        (if rooms[0].membership == Membership::Invited {
            seq![CommandView::JoinRoom(rooms[0].id)]
        } else {
            Seq::<CommandView>::empty()
        }) + joins_of(rooms.skip(1))
    }
}

/// The join commands for one more room are the join commands so far plus the
/// room's own, if any.
proof fn lemma_joins_of_push(rooms: Seq<RoomView>, r: RoomView)
    ensures
        joins_of(rooms.push(r)) =~= joins_of(rooms) + (if r.membership == Membership::Invited {
            seq![CommandView::JoinRoom(r.id)]
        } else {
            Seq::<CommandView>::empty()
        }),
    decreases rooms.len(),
{
    if rooms.len() == 0 {
        assert(rooms.push(r)[0] == r);
        assert(rooms.push(r).skip(1) =~= rooms);
        assert(rooms.push(r).len() == 1);
        assert(joins_of(rooms) =~= Seq::<CommandView>::empty());
        assert(joins_of(rooms.push(r).skip(1)) =~= Seq::<CommandView>::empty());
        if r.membership == Membership::Invited {
            assert(joins_of(rooms.push(r)) =~= seq![CommandView::JoinRoom(r.id)]);
            assert(joins_of(rooms) + seq![CommandView::JoinRoom(r.id)] =~= seq![
                CommandView::JoinRoom(r.id),
            ]);
        } else {
            assert(joins_of(rooms.push(r)) =~= Seq::<CommandView>::empty());
            assert(joins_of(rooms) + Seq::<CommandView>::empty() =~= Seq::<CommandView>::empty());
        }
    } else {
        assert(rooms.push(r)[0] == rooms[0]);
        assert(rooms.push(r).skip(1) =~= rooms.skip(1).push(r));
        lemma_joins_of_push(rooms.skip(1), r);
        assert(joins_of(rooms.push(r)) =~= joins_of(rooms) + (if r.membership
            == Membership::Invited {
            seq![CommandView::JoinRoom(r.id)]
        } else {
            Seq::<CommandView>::empty()
        }));
    }
}

/// The read acknowledgements for a batch of messages: one `MarkAsRead` per
/// message, in the batch's order.
pub open spec fn marks_of(msgs: Seq<MessageView>) -> Seq<CommandView>
    decreases msgs.len(),
{
    if msgs.len() == 0 {
        Seq::empty()
    } else {
        seq![CommandView::MarkAsRead { room: msgs[0].room, id: msgs[0].id }] + marks_of(
            msgs.skip(1),
        )
    }
}

/// Whether an incoming message is handed to the handler chain: only text
/// messages, and never the bot's own (self-echo suppression).
pub open spec fn dispatched(m: MessageView, uid: Seq<char>) -> bool {
    m.mtype == "m.text"@ && m.sender != uid
}

/// How one batch of messages moves the event core: message by message, in
/// the batch's order, the core first queues a `MarkAsRead` acknowledgement
/// and then — only for a text message from somebody else than the bot
/// itself — walks the handler chain under the chain-walk protocol
/// [`chain_post`].  A message that is not dispatched changes no handler.
pub open spec fn messages_post<H: MessageHandler>(
    pre_hs: Seq<H>,
    uid: Seq<char>,
    pre_b: BotView,
    msgs: Seq<MessageView>,
    post_hs: Seq<H>,
    post_b: BotView,
) -> bool
    decreases msgs.len(),
{
    if msgs.len() == 0 {
        post_hs == pre_hs && post_b == pre_b
    } else {
        let m = msgs[0];
        let b1 = BotView {
            out: pre_b.out.push(CommandView::MarkAsRead { room: m.room, id: m.id }),
            ..pre_b
        };
        if dispatched(m, uid) {
            exists|mid_hs: Seq<H>, mid_b: BotView, rs: Seq<HandleResult>|
                {
                    &&& #[trigger] chain_post(pre_hs, b1, m, mid_hs, mid_b, rs)
                    &&& messages_post(mid_hs, uid, mid_b, msgs.skip(1), post_hs, post_b)
                }
        } else {
            messages_post(pre_hs, uid, b1, msgs.skip(1), post_hs, post_b)
        }
    }
}

/// Self-echo suppression law.  A batch in which every message was sent by
/// the bot's own session identity is never passed to any handler: the whole
/// chain keeps its state, and the only commands queued are the read
/// acknowledgements, one per message, in order.
pub proof fn lemma_self_echo<H: MessageHandler>(
    pre_hs: Seq<H>,
    uid: Seq<char>,
    pre_b: BotView,
    msgs: Seq<MessageView>,
    post_hs: Seq<H>,
    post_b: BotView,
)
    requires
        messages_post(pre_hs, uid, pre_b, msgs, post_hs, post_b),
        forall|i: int| 0 <= i < msgs.len() ==> (#[trigger] msgs[i]).sender == uid,
    ensures
        post_hs == pre_hs,
        post_b == (BotView { out: pre_b.out + marks_of(msgs), ..pre_b }),
    decreases msgs.len(),
{
    if msgs.len() == 0 {
        assert(pre_b.out + marks_of(msgs) =~= pre_b.out);
    } else {
        let m = msgs[0];
        assert(m.sender == uid);
        let b1 = BotView {
            out: pre_b.out.push(CommandView::MarkAsRead { room: m.room, id: m.id }),
            ..pre_b
        };
        assert forall|i: int| 0 <= i < msgs.skip(1).len() implies (#[trigger] msgs.skip(
            1,
        )[i]).sender == uid by {
            assert(msgs.skip(1)[i] == msgs[i + 1]);
        }
        lemma_self_echo(pre_hs, uid, b1, msgs.skip(1), post_hs, post_b);
        assert(b1.out + marks_of(msgs.skip(1)) =~= pre_b.out + marks_of(msgs));
    }
}

/// Read acknowledgements only ever come from the event core itself: a
/// command sequence restricted to its `MarkAsRead` entries.
pub open spec fn marks_in(s: Seq<CommandView>) -> Seq<CommandView>
    decreases s.len(),
{
    if s.len() == 0 {
        Seq::empty()
    } else {
        (match s[0] {
            CommandView::MarkAsRead { .. } => seq![s[0]],
            _ => Seq::<CommandView>::empty(),
        }) + marks_in(s.skip(1))
    }
}

/// Restriction to read acknowledgements distributes over concatenation.
proof fn lemma_marks_in_add(a: Seq<CommandView>, b: Seq<CommandView>)
    ensures
        marks_in(a + b) =~= marks_in(a) + marks_in(b),
    decreases a.len(),
{
    if a.len() == 0 {
        assert(a + b =~= b);
        assert(marks_in(a) + marks_in(b) =~= marks_in(b));
    } else {
        assert((a + b)[0] == a[0]);
        assert((a + b).skip(1) =~= a.skip(1) + b);
        lemma_marks_in_add(a.skip(1), b);
        assert(marks_in(a + b) =~= marks_in(a) + marks_in(b));
    }
}

/// A sequence of capability-surface commands holds no read acknowledgement.
proof fn lemma_marks_in_none(s: Seq<CommandView>)
    requires
        forall|i: int| 0 <= i < s.len() ==> handler_command(#[trigger] s[i]),
    ensures
        marks_in(s) =~= Seq::<CommandView>::empty(),
    decreases s.len(),
{
    if s.len() == 0 {
    } else {
        assert(handler_command(s[0]));
        assert forall|i: int| 0 <= i < s.skip(1).len() implies handler_command(
            #[trigger] s.skip(1)[i],
        ) by {
            assert(s.skip(1)[i] == s[i + 1]);
        }
        lemma_marks_in_none(s.skip(1));
    }
}

/// Chained extensions split what was appended.
proof fn lemma_extends_split(a: Seq<CommandView>, b: Seq<CommandView>, c: Seq<CommandView>)
    requires
        out_extends(a, b),
        out_extends(b, c),
    ensures
        c.skip(a.len() as int) =~= b.skip(a.len() as int) + c.skip(b.len() as int),
{
    assert forall|i: int| 0 <= i < c.len() - a.len() implies c.skip(a.len() as int)[i] == (b.skip(
        a.len() as int,
    ) + c.skip(b.len() as int))[i] by {
        if i < b.len() - a.len() {
            assert(c.subrange(0, b.len() as int)[a.len() + i] == c[a.len() + i]);
        }
    }
}

/// A capability step only extends the queue, by capability-surface commands.
proof fn lemma_capability_step_extends(pre: BotView, post: BotView)
    requires
        capability_step(pre, post),
    ensures
        out_extends(pre.out, post.out),
        marks_in(post.out.skip(pre.out.len() as int)) =~= Seq::<CommandView>::empty(),
{
    let seg = post.out.skip(pre.out.len() as int);
    assert forall|i: int| 0 <= i < seg.len() implies handler_command(#[trigger] seg[i]) by {
        assert(seg[i] == post.out[pre.out.len() + i]);
    }
    lemma_marks_in_none(seg);
}

/// Read-marking law.  Over one batch the command queue only grows, and what
/// was appended holds exactly one `MarkAsRead` acknowledgement per message
/// of the batch, in the batch's order.  Each message's acknowledgement is
/// queued before anything a handler emits for it; in particular the first
/// command appended for a non-empty batch is the first message's
/// acknowledgement.
pub proof fn lemma_read_marking<H: MessageHandler>(
    pre_hs: Seq<H>,
    uid: Seq<char>,
    pre_b: BotView,
    msgs: Seq<MessageView>,
    post_hs: Seq<H>,
    post_b: BotView,
)
    requires
        messages_post(pre_hs, uid, pre_b, msgs, post_hs, post_b),
    ensures
        out_extends(pre_b.out, post_b.out),
        marks_in(post_b.out.skip(pre_b.out.len() as int)) == marks_of(msgs),
        msgs.len() > 0 ==> post_b.out.len() > pre_b.out.len() && post_b.out[pre_b.out.len() as int]
            == (CommandView::MarkAsRead { room: msgs[0].room, id: msgs[0].id }),
    decreases msgs.len(),
{
    if msgs.len() == 0 {
        lemma_out_extends_refl(pre_b.out);
        assert(post_b.out.skip(pre_b.out.len() as int) =~= Seq::<CommandView>::empty());
    } else {
        let m = msgs[0];
        let mark0 = CommandView::MarkAsRead { room: m.room, id: m.id };
        let b1 = BotView { out: pre_b.out.push(mark0), ..pre_b };
        assert(out_extends(pre_b.out, b1.out)) by {
            assert(b1.out.subrange(0, pre_b.out.len() as int) =~= pre_b.out);
        }
        assert(b1.out.skip(pre_b.out.len() as int) =~= seq![mark0]);
        assert(marks_in(seq![mark0]) =~= seq![mark0]) by {
            assert(marks_in(Seq::<CommandView>::empty()) =~= Seq::<CommandView>::empty());
            assert(seq![mark0].skip(1) =~= Seq::<CommandView>::empty());
        }
        if dispatched(m, uid) {
            let (mid_hs, mid_b, rs) = choose|mid_hs: Seq<H>, mid_b: BotView, rs: Seq<HandleResult>|
                {
                    &&& #[trigger] chain_post(pre_hs, b1, m, mid_hs, mid_b, rs)
                    &&& messages_post(mid_hs, uid, mid_b, msgs.skip(1), post_hs, post_b)
                };
            lemma_chain_post(pre_hs, b1, m, mid_hs, mid_b, rs);
            lemma_capability_step_extends(b1, mid_b);
            lemma_read_marking(mid_hs, uid, mid_b, msgs.skip(1), post_hs, post_b);
            lemma_out_extends_trans(pre_b.out, b1.out, mid_b.out);
            lemma_out_extends_trans(pre_b.out, mid_b.out, post_b.out);
            lemma_extends_split(pre_b.out, b1.out, mid_b.out);
            lemma_extends_split(pre_b.out, mid_b.out, post_b.out);
            lemma_marks_in_add(
                b1.out.skip(pre_b.out.len() as int),
                mid_b.out.skip(b1.out.len() as int),
            );
            lemma_marks_in_add(
                b1.out.skip(pre_b.out.len() as int) + mid_b.out.skip(b1.out.len() as int),
                post_b.out.skip(mid_b.out.len() as int),
            );
            assert(mid_b.out.skip(pre_b.out.len() as int) + post_b.out.skip(mid_b.out.len() as int)
                =~= (b1.out.skip(pre_b.out.len() as int) + mid_b.out.skip(b1.out.len() as int))
                + post_b.out.skip(mid_b.out.len() as int));
            assert(marks_in(post_b.out.skip(pre_b.out.len() as int)) =~= seq![mark0] + marks_of(
                msgs.skip(1),
            ));
            assert(marks_of(msgs) =~= seq![mark0] + marks_of(msgs.skip(1)));
            assert(post_b.out[pre_b.out.len() as int] == mark0) by {
                assert(post_b.out.subrange(0, b1.out.len() as int)[pre_b.out.len() as int]
                    == post_b.out[pre_b.out.len() as int]);
                assert(b1.out[pre_b.out.len() as int] == mark0);
            }
        } else {
            lemma_read_marking(pre_hs, uid, b1, msgs.skip(1), post_hs, post_b);
            lemma_out_extends_trans(pre_b.out, b1.out, post_b.out);
            lemma_extends_split(pre_b.out, b1.out, post_b.out);
            lemma_marks_in_add(
                b1.out.skip(pre_b.out.len() as int),
                post_b.out.skip(b1.out.len() as int),
            );
            assert(marks_in(post_b.out.skip(pre_b.out.len() as int)) =~= seq![mark0] + marks_of(
                msgs.skip(1),
            ));
            assert(marks_of(msgs) =~= seq![mark0] + marks_of(msgs.skip(1)));
            assert(post_b.out[pre_b.out.len() as int] == mark0) by {
                assert(post_b.out.subrange(0, b1.out.len() as int)[pre_b.out.len() as int]
                    == post_b.out[pre_b.out.len() as int]);
                assert(b1.out[pre_b.out.len() as int] == mark0);
            }
        }
    }
}

/// The matrix bot: the session identity, the verbose flag, and the ordered
/// chain of registered message handlers.  The bot reacts to one backend
/// [`Response`] at a time through [`MatrixBot::handle_recvs`]; the commands
/// it answers with are queued on the [`ActiveBot`] capability handle that
/// the caller passes in and drains.
pub struct MatrixBot<H: MessageHandler> {
    uid: Option<String>,
    verbose: bool,
    handlers: Vec<H>,
}

impl<H: MessageHandler> MatrixBot<H> {
    /// The session identity, set by the first login response.
    pub closed spec fn uid_view(&self) -> Option<Seq<char>> {
        types::opt_view(self.uid)
    }

    /// Whether the bot traces commands and responses.
    pub closed spec fn verbose_view(&self) -> bool {
        self.verbose
    }

    /// The registered handlers, in registration order.
    pub closed spec fn handlers_view(&self) -> Seq<H> {
        self.handlers@
    }

    /// Consumes any handler; the bot starts with that one handler, no
    /// session identity and tracing off.
    pub fn new(handler: H) -> (b: MatrixBot<H>)
        ensures
            b.uid_view() is None,
            !b.verbose_view(),
            b.handlers_view() == seq![handler],
    {
        let mut handlers = Vec::new();
        handlers.push(handler);
        proof {
            assert(handlers@ =~= seq![handler]);
        }
        MatrixBot { uid: None, verbose: false, handlers }
    }

    /// Adds an additional handler, after the ones already registered.  Each
    /// message will be given to the registered handlers in this order until
    /// one of them answers [`HandleResult::StopHandling`].
    pub fn add_handler(&mut self, handler: H)
        ensures
            final(self).uid_view() == old(self).uid_view(),
            final(self).verbose_view() == old(self).verbose_view(),
            final(self).handlers_view() == old(self).handlers_view().push(handler),
    {
        self.handlers.push(handler);
    }

    /// If set, the event loop is asked to print every command and response
    /// going out and coming in (quite verbose!).
    /// Default: off.
    pub fn set_verbose(&mut self, verbose: bool)
        ensures
            final(self).uid_view() == old(self).uid_view(),
            final(self).verbose_view() == verbose,
            final(self).handlers_view() == old(self).handlers_view(),
    {
        self.verbose = verbose;
    }

    /// Whether the bot traces commands and responses.
    pub fn verbose(&self) -> (v: bool)
        ensures
            v == self.verbose_view(),
    {
        self.verbose
    }

    /// Queues the login command that starts a session; the backend answers
    /// it with a [`Response::Token`].  No message is dispatched before then.
    pub fn login(&self, active_bot: &mut ActiveBot, user: &str, password: &str, homeserver_url: &str)
        ensures
            final(active_bot)@ == (BotView {
                out: old(active_bot)@.out.push(
                    CommandView::Login {
                        user: user@,
                        password: password@,
                        homeserver_url: homeserver_url@,
                    },
                ),
                ..old(active_bot)@
            }),
    {
        active_bot.push_command(
            Command::Login {
                user: user.to_owned(),
                password: password.to_owned(),
                homeserver_url: homeserver_url.to_owned(),
            },
        );
    }

    /// Reacts to a room update: queues exactly one `JoinRoom` command for
    /// every room of the update whose membership state is invited, in the
    /// update's order, and nothing else.
    pub fn handle_rooms(&self, rooms: &Vec<Room>, active_bot: &mut ActiveBot)
        ensures
            final(active_bot)@ == (BotView {
                out: old(active_bot)@.out + joins_of(rooms_view(rooms@)),
                ..old(active_bot)@
            }),
    {
        let n = rooms.len();
        let mut i: usize = 0;
        proof {
            assert(rooms_view(rooms@.subrange(0, 0)) =~= Seq::<RoomView>::empty());
            assert(active_bot@.out + joins_of(rooms_view(rooms@.subrange(0, 0))) =~= active_bot@.out);
        }
        while i < n
            invariant
                n == rooms.len(),
                i <= n,
                active_bot@ == (BotView {
                    out: old(active_bot)@.out + joins_of(rooms_view(rooms@.subrange(0, i as int))),
                    ..old(active_bot)@
                }),
            decreases n - i,
        {
            let ghost pre = rooms_view(rooms@.subrange(0, i as int));
            let room = &rooms[i];
            match room.membership {
                Membership::Invited => {
                    active_bot.push_command(Command::JoinRoom(room.id.clone()));
                },
                _ => {},
            }
            i = i + 1;
            proof {
                assert(rooms_view(rooms@.subrange(0, i as int)) =~= pre.push(rooms@[i - 1]@));
                lemma_joins_of_push(pre, rooms@[i - 1]@);
                if rooms@[i - 1]@.membership == Membership::Invited {
                    assert(old(active_bot)@.out + joins_of(pre.push(rooms@[i - 1]@)) =~= (
                    old(active_bot)@.out + joins_of(pre)).push(
                        CommandView::JoinRoom(rooms@[i - 1]@.id),
                    ));
                } else {
                    assert(old(active_bot)@.out + joins_of(pre.push(rooms@[i - 1]@)) =~= old(
                        active_bot,
                    )@.out + joins_of(pre));
                }
            }
        }
        proof {
            assert(rooms@.subrange(0, n as int) =~= rooms@);
        }
    }

    /// Reacts to one batch of messages, as [`messages_post`] states: each
    /// message is acknowledged with exactly one `MarkAsRead` command first,
    /// and then dispatched to the handler chain when it is a text message
    /// from somebody else than the bot itself.
    pub fn handle_messages(&mut self, messages: Vec<Message>, active_bot: &mut ActiveBot)
        ensures
            final(self).uid_view() == old(self).uid_view(),
            final(self).verbose_view() == old(self).verbose_view(),
            final(self).handlers_view().len() == old(self).handlers_view().len(),
            messages_post(
                old(self).handlers_view(),
                uid_or_empty(old(self).uid_view()),
                old(active_bot)@,
                msgs_view(messages@),
                final(self).handlers_view(),
                final(active_bot)@,
            ),
    {
        self.handle_messages_from(&messages, 0, active_bot);
        proof {
            assert(msgs_view(messages@).skip(0) =~= msgs_view(messages@));
        }
    }

    /// Handles the batch from position `i` on.
    fn handle_messages_from(&mut self, messages: &Vec<Message>, i: usize, active_bot: &mut ActiveBot)
        requires
            i <= messages.len(),
        ensures
            final(self).uid_view() == old(self).uid_view(),
            final(self).verbose_view() == old(self).verbose_view(),
            final(self).handlers_view().len() == old(self).handlers_view().len(),
            messages_post(
                old(self).handlers_view(),
                uid_or_empty(old(self).uid_view()),
                old(active_bot)@,
                msgs_view(messages@).skip(i as int),
                final(self).handlers_view(),
                final(active_bot)@,
            ),
        decreases messages.len() - i,
    {
        if i == messages.len() {
            proof {
                assert(msgs_view(messages@).skip(i as int) =~= Seq::<MessageView>::empty());
            }
            return ;
        }
        let message = &messages[i];
        active_bot.push_command(
            Command::MarkAsRead { room: message.room.clone(), id: message.id.clone() },
        );
        let ghost b1 = active_bot@;
        let is_text = str_eq(message.mtype.as_str(), "m.text");
        let from_self = match &self.uid {
            Some(u) => str_eq(message.sender.as_str(), u.as_str()),
            None => message.sender.as_str().is_empty(),
        };
        proof {
            if message.sender@.len() == 0 {
                assert(message.sender@ =~= Seq::<char>::empty());
            }
            assert((is_text && !from_self) == dispatched(
                message@,
                uid_or_empty(old(self).uid_view()),
            ));
        }
        if is_text && !from_self {
            dispatch(&mut self.handlers, active_bot, message);
            let ghost mid_hs = self.handlers@;
            let ghost mid_b = active_bot@;
            let ghost rs = choose|rs: Seq<HandleResult>|
                chain_post(old(self).handlers_view(), b1, message@, mid_hs, mid_b, rs);
            self.handle_messages_from(messages, i + 1, active_bot);
            proof {
                assert(msgs_view(messages@).skip(i as int)[0] == message@);
                assert(msgs_view(messages@).skip(i as int).skip(1) =~= msgs_view(messages@).skip(
                    i + 1,
                ));
                assert(chain_post(
                    old(self).handlers_view(),
                    b1,
                    msgs_view(messages@).skip(i as int)[0],
                    mid_hs,
                    mid_b,
                    rs,
                ));
            }
        } else {
            self.handle_messages_from(messages, i + 1, active_bot);
            proof {
                assert(msgs_view(messages@).skip(i as int)[0] == message@);
                assert(msgs_view(messages@).skip(i as int).skip(1) =~= msgs_view(messages@).skip(
                    i + 1,
                ));
            }
        }
    }

    /// Runs `init_handler` on every registered handler, in registration
    /// order, each through the capability handle.
    fn init_handlers(&mut self, active_bot: &mut ActiveBot)
        ensures
            final(self).uid_view() == old(self).uid_view(),
            final(self).verbose_view() == old(self).verbose_view(),
            final(self).handlers_view().len() == old(self).handlers_view().len(),
            capability_step(old(active_bot)@, final(active_bot)@),
    {
        let n = self.handlers.len();
        let mut i: usize = 0;
        proof {
            lemma_capability_step_refl(active_bot@);
        }
        while i < n
            invariant
                n == self.handlers.len(),
                i <= n,
                self.uid_view() == old(self).uid_view(),
                self.verbose_view() == old(self).verbose_view(),
                capability_step(old(active_bot)@, active_bot@),
            decreases n - i,
        {
            let ghost mid = active_bot@;
            let h = &mut self.handlers[i];
            h.init_handler(active_bot);
            proof {
                active_bot::lemma_capability_step_trans(old(active_bot)@, mid, active_bot@);
            }
            i = i + 1;
        }
    }

    /// Reacts to one backend response:
    ///
    /// * a token stores the session identity, queues the first sync request
    ///   and — on the first login only — initializes every handler in
    ///   registration order;
    /// * a finished or failed sync round queues the next sync request at
    ///   once (the long-poll loop, with unconditional retry);
    /// * a room update queues one join command per invitation;
    /// * a message batch is acknowledged and dispatched;
    /// * the backend's shutdown acknowledgement ends the loop: the call
    ///   answers `false` exactly then.
    pub fn handle_recvs(&mut self, resp: Response, active_bot: &mut ActiveBot) -> (keep_running:
        bool)
        ensures
            keep_running == !(resp is ShutDown),
            final(self).verbose_view() == old(self).verbose_view(),
            final(self).handlers_view().len() == old(self).handlers_view().len(),
            match resp {
                Response::Token(uid) => {
                    let synced = BotView {
                        uid: Some(uid@),
                        verbose: old(active_bot)@.verbose,
                        out: old(active_bot)@.out.push(
                            CommandView::Sync { since: None, initial: true },
                        ),
                    };
                    &&& final(self).uid_view() == Some(uid@)
                    &&& capability_step(synced, final(active_bot)@)
                    &&& old(self).uid_view() is Some ==> final(active_bot)@ == synced
                        && final(self).handlers_view() == old(self).handlers_view()
                },
                Response::Sync(_) | Response::SyncError => {
                    &&& final(self).uid_view() == old(self).uid_view()
                    &&& final(self).handlers_view() == old(self).handlers_view()
                    &&& final(active_bot)@ == (BotView {
                        out: old(active_bot)@.out.push(
                            CommandView::Sync { since: None, initial: false },
                        ),
                        ..old(active_bot)@
                    })
                },
                Response::UpdateRooms(rooms) => {
                    &&& final(self).uid_view() == old(self).uid_view()
                    &&& final(self).handlers_view() == old(self).handlers_view()
                    &&& final(active_bot)@ == (BotView {
                        out: old(active_bot)@.out + joins_of(rooms_view(rooms@)),
                        ..old(active_bot)@
                    })
                },
                Response::RoomMessages(msgs) => {
                    &&& final(self).uid_view() == old(self).uid_view()
                    &&& messages_post(
                        old(self).handlers_view(),
                        uid_or_empty(old(self).uid_view()),
                        old(active_bot)@,
                        msgs_view(msgs@),
                        final(self).handlers_view(),
                        final(active_bot)@,
                    )
                },
                Response::ShutDown => {
                    &&& final(self).uid_view() == old(self).uid_view()
                    &&& final(self).handlers_view() == old(self).handlers_view()
                    &&& final(active_bot)@ == old(active_bot)@
                },
            },
    {
        match resp {
            Response::UpdateRooms(rooms) => {
                self.handle_rooms(&rooms, active_bot);
                true
            },
            Response::RoomMessages(msgs) => {
                self.handle_messages(msgs, active_bot);
                true
            },
            Response::Token(uid) => {
                let first = self.uid.is_none();
                self.uid = Some(uid.clone());
                active_bot.set_uid(Some(uid));
                active_bot.push_command(Command::Sync { since: None, initial: true });
                if first {
                    self.init_handlers(active_bot);
                } else {
                    proof {
                        lemma_capability_step_refl(active_bot@);
                    }
                }
                true
            },
            Response::Sync(_) => {
                active_bot.push_command(Command::Sync { since: None, initial: false });
                true
            },
            Response::SyncError => {
                active_bot.push_command(Command::Sync { since: None, initial: false });
                true
            },
            Response::ShutDown => false,
        }
    }
}

} // verus!
