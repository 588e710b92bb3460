//! A ready-made handler without state of its own: a command prefix and a
//! table mapping command names to actions.  Each arriving text message is run
//! through [`crate::handlers::extract_command`] with the handler's own
//! prefix; a hit in the table runs the registered action with the message and
//! the command tail, a miss leaves the message to the next handler in the
//! chain.

use vstd::prelude::*;

use crate::active_bot::ActiveBot;
use crate::active_bot::BotView;
use crate::active_bot::capability_step;
use crate::active_bot::lemma_capability_step_refl;
use crate::active_bot::sent_message;
use crate::handlers::HandleResult;
use crate::handlers::MessageHandler;
use crate::handlers::extract_command;
use crate::handlers::is_ws;
use crate::handlers::is_ws_char;
use crate::handlers::spec_extract_command;
use crate::handlers::lemma_token_len;
use crate::handlers::lemma_ws_len_is;
use crate::handlers::str_eq;
use crate::handlers::tail_of;
use crate::handlers::ws_len;
use crate::types::CommandView;
use crate::types::Message;
use crate::types::MessageType;
use crate::types::MessageView;

verus! {

/// An invocable unit that a [`StatelessHandler`] can register under a
/// command name.  An action never has mutable state of its own — running it
/// twice on the same message and capability state does the same thing, as
/// its `action_post` relation describes.
pub trait CommandAction: Sized {
    /// What one run of the action does: how the new capability state
    /// `post_bot` and the result `r` relate to the old state, the message
    /// and the command tail.  The default promises nothing.
    open spec fn action_post(
        &self,
        pre_bot: BotView,
        m: MessageView,
        tail: Seq<char>,
        post_bot: BotView,
        r: HandleResult,
    ) -> bool {
        true
    }

    /// Runs the action for one message.
    ///
    /// * `bot`: the capability handle of the running bot
    /// * `message`: the message the command arrived in
    /// * `tail`: the message body without prefix, command and the whitespace
    ///   after the command (for a body of `"!roll 12"`, `"12"`)
    fn run(&self, bot: &mut ActiveBot, message: &Message, tail: &str) -> (r: HandleResult)
        ensures
            capability_step(old(bot)@, final(bot)@),
            self.action_post(old(bot)@, message@, tail@, final(bot)@, r),
    ;
}

/// The actions this crate ships: enough to answer a command in the room it
/// came from or to ask the bot to stop.  Anything else is a [`CommandAction`]
/// implementation of the user's own.
#[derive(Clone, Debug)]
pub enum Action {
    /// Send `text` — with the command tail appended when `with_tail` is set —
    /// to the room the command arrived in.
    Reply { text: String, with_tail: bool, mtype: MessageType, stop: bool },
    /// Ask the bot to shut down.  The bot keeps dispatching until the backend
    /// acknowledges the shutdown.
    Shutdown { stop: bool },
}

/// The text an [`Action::Reply`] sends: its own text, with the command tail
/// appended when asked for.
pub open spec fn reply_text(text: Seq<char>, with_tail: bool, tail: Seq<char>) -> Seq<char> {
    if with_tail {
        text + tail
    } else {
        text
    }
}

/// The result an [`Action`] answers with.
pub open spec fn action_result(stop: bool) -> HandleResult {
    if stop {
        HandleResult::StopHandling
    } else {
        HandleResult::ContinueHandling
    }
}

impl CommandAction for Action {
    open spec fn action_post(
        &self,
        pre_bot: BotView,
        m: MessageView,
        tail: Seq<char>,
        post_bot: BotView,
        r: HandleResult,
    ) -> bool {
        match *self {
            Action::Reply { text, with_tail, mtype, stop } => {
                &&& exists|date: u64|
                    post_bot == (BotView {
                        out: pre_bot.out.push(
                            CommandView::SendMsg(
                                #[trigger] sent_message(
                                    pre_bot.uid,
                                    reply_text(text@, with_tail, tail),
                                    None,
                                    m.room,
                                    mtype,
                                    date,
                                ),
                            ),
                        ),
                        ..pre_bot
                    })
                &&& r == action_result(stop)
            },
            Action::Shutdown { stop } => {
                &&& post_bot == (BotView { out: pre_bot.out.push(CommandView::ShutDown), ..pre_bot })
                &&& r == action_result(stop)
            },
        }
    }

    fn run(&self, bot: &mut ActiveBot, message: &Message, tail: &str) -> (r: HandleResult)
        ensures
            capability_step(old(bot)@, final(bot)@),
            self.action_post(old(bot)@, message@, tail@, final(bot)@, r),
    {
        match self {
            Action::Reply { text, with_tail, mtype, stop } => {
                if *with_tail {
                    let reply = text.clone().concat(tail);
                    let date = bot.send_message(reply.as_str(), &message.room, *mtype);
                    proof {
                        assert(reply@ == reply_text(text@, *with_tail, tail@));
                        assert(bot@ == (BotView {
                            out: old(bot)@.out.push(
                                CommandView::SendMsg(
                                    sent_message(
                                        old(bot)@.uid,
                                        reply_text(text@, *with_tail, tail@),
                                        None,
                                        message@.room,
                                        *mtype,
                                        date@,
                                    ),
                                ),
                            ),
                            ..old(bot)@
                        }));
                    }
                } else {
                    let date = bot.send_message(text.as_str(), &message.room, *mtype);
                    proof {
                        assert(bot@ == (BotView {
                            out: old(bot)@.out.push(
                                CommandView::SendMsg(
                                    sent_message(
                                        old(bot)@.uid,
                                        reply_text(text@, *with_tail, tail@),
                                        None,
                                        message@.room,
                                        *mtype,
                                        date@,
                                    ),
                                ),
                            ),
                            ..old(bot)@
                        }));
                    }
                }
                if *stop {
                    HandleResult::StopHandling
                } else {
                    HandleResult::ContinueHandling
                }
            },
            Action::Shutdown { stop } => {
                bot.shutdown();
                if *stop {
                    HandleResult::StopHandling
                } else {
                    HandleResult::ContinueHandling
                }
            },
        }
    }
}

/// The action registered under key `k`, if any: the table is searched from
/// the front, and registration keeps at most one entry per key.
pub open spec fn table_lookup<C>(t: Seq<(Seq<char>, C)>, k: Seq<char>) -> Option<C>
    decreases t.len(),
{
    if t.len() == 0 {
        None
    } else if t[0].0 == k {
        Some(t[0].1)
    } else {
        table_lookup(t.skip(1), k)
    }
}

/// Replacing the entry at the key's first position makes the key map to the
/// new action and leaves every other key untouched.
proof fn lemma_lookup_update<C>(
    t: Seq<(Seq<char>, C)>,
    k0: Seq<char>,
    j: int,
    c: C,
    k: Seq<char>,
)
    requires
        0 <= j < t.len(),
        forall|l: int| 0 <= l < j ==> (#[trigger] t[l]).0 != k0,
        t[j].0 == k0,
    ensures
        table_lookup(t.update(j, (k0, c)), k) == if k == k0 {
            Some(c)
        } else {
            table_lookup(t, k)
        },
    decreases j,
{
    let t1 = t.update(j, (k0, c));
    if j == 0 {
        assert(t1.skip(1) =~= t.skip(1));
    } else {
        assert(t1[0] == t[0]);
        assert(t[0].0 != k0);
        assert(t1.skip(1) =~= t.skip(1).update(j - 1, (k0, c)));
        assert forall|l: int| 0 <= l < j - 1 implies (#[trigger] t.skip(1)[l]).0 != k0 by {
            assert(t.skip(1)[l] == t[l + 1]);
        }
        assert(t.skip(1)[j - 1] == t[j]);
        lemma_lookup_update(t.skip(1), k0, j - 1, c, k);
    }
}

/// Appending an entry for a key the table does not hold makes the key map to
/// the new action and leaves every other key untouched.
proof fn lemma_lookup_push<C>(t: Seq<(Seq<char>, C)>, k0: Seq<char>, c: C, k: Seq<char>)
    requires
        forall|l: int| 0 <= l < t.len() ==> (#[trigger] t[l]).0 != k0,
    ensures
        table_lookup(t.push((k0, c)), k) == if k == k0 {
            Some(c)
        } else {
            table_lookup(t, k)
        },
    decreases t.len(),
{
    let t1 = t.push((k0, c));
    if t.len() == 0 {
        assert(t1[0] == (k0, c));
        assert(t1.skip(1) =~= t);
        if k == k0 {
            assert(table_lookup(t1, k) == Some(c));
        } else {
            assert(table_lookup(t1, k) == table_lookup(t, k));
        }
    } else {
        assert(t1[0] == t[0]);
        assert(t1.skip(1) =~= t.skip(1).push((k0, c)));
        assert forall|l: int| 0 <= l < t.skip(1).len() implies (#[trigger] t.skip(1)[l]).0 != k0 by {
            assert(t.skip(1)[l] == t[l + 1]);
        }
        lemma_lookup_push(t.skip(1), k0, c, k);
    }
}

/// A table whose first `i` entries miss the key and whose entry `i` holds it
/// looks the key up to that entry's action.
proof fn lemma_lookup_at<C>(t: Seq<(Seq<char>, C)>, k: Seq<char>, i: int)
    requires
        0 <= i < t.len(),
        forall|l: int| 0 <= l < i ==> (#[trigger] t[l]).0 != k,
        t[i].0 == k,
    ensures
        table_lookup(t, k) == Some(t[i].1),
    decreases i,
{
    if i == 0 {
    } else {
        assert(t[0].0 != k);
        assert forall|l: int| 0 <= l < i - 1 implies (#[trigger] t.skip(1)[l]).0 != k by {
            assert(t.skip(1)[l] == t[l + 1]);
        }
        assert(t.skip(1)[i - 1] == t[i]);
        lemma_lookup_at(t.skip(1), k, i - 1);
    }
}

/// A table none of whose entries holds the key looks the key up to nothing.
proof fn lemma_lookup_none<C>(t: Seq<(Seq<char>, C)>, k: Seq<char>)
    requires
        forall|l: int| 0 <= l < t.len() ==> (#[trigger] t[l]).0 != k,
    ensures
        table_lookup(t, k) is None,
    decreases t.len(),
{
    if t.len() == 0 {
    } else {
        assert forall|l: int| 0 <= l < t.skip(1).len() implies (#[trigger] t.skip(1)[l]).0 != k by {
            assert(t.skip(1)[l] == t[l + 1]);
        }
        lemma_lookup_none(t.skip(1), k);
    }
}

/// Convenience handler that can quickly register and run actions without any
/// state (each run of an action on the same input does the same thing).
pub struct StatelessHandler<C: CommandAction> {
    cmd_prefix: String,
    cmd_handles: Vec<(String, C)>,
}

impl<C: CommandAction> StatelessHandler<C> {
    /// The handler's command prefix.
    pub closed spec fn prefix_view(&self) -> Seq<char> {
        self.cmd_prefix@
    }

    /// The handler's table: each registered command name with its action, in
    /// registration order.
    pub closed spec fn table_view(&self) -> Seq<(Seq<char>, C)> {
        self.cmd_handles@.map(|i: int, e: (String, C)| (e.0@, e.1))
    }

    /// A fresh handler with the default prefix `"!"` and no registered
    /// actions.
    pub fn new() -> (h: StatelessHandler<C>)
        ensures
            h.prefix_view() == "!"@,
            h.table_view() == Seq::<(Seq<char>, C)>::empty(),
    {
        let h = StatelessHandler { cmd_prefix: "!".to_owned(), cmd_handles: Vec::new() };
        proof {
            assert(h.table_view() =~= Seq::<(Seq<char>, C)>::empty());
        }
        h
    }

    /// With what prefix commands to the bot will start.
    /// Default: `"!"`.
    pub fn set_cmd_prefix(&mut self, prefix: &str)
        ensures
            final(self).prefix_view() == prefix@,
            final(self).table_view() == old(self).table_view(),
    {
        self.cmd_prefix = prefix.to_owned();
    }

    /// Registers an action:
    ///
    /// * `command`: for which command (excluding the prefix!) the action
    ///   should run
    /// * `handler`: the action to run when the given command is received in
    ///   a room
    ///
    /// Registering a second action under the same command replaces the
    /// first, as the lookup contract states.
    pub fn register_handle(&mut self, command: &str, handler: C)
        ensures
            final(self).prefix_view() == old(self).prefix_view(),
            table_lookup(final(self).table_view(), command@) == Some(handler),
            forall|k: Seq<char>|
                k != command@ ==> #[trigger] table_lookup(final(self).table_view(), k)
                    == table_lookup(old(self).table_view(), k),
    {
        let ghost t0 = self.table_view();
        let n = self.cmd_handles.len();
        let mut i: usize = 0;
        while i < n
            invariant
                n == self.cmd_handles.len(),
                i <= n,
                self.prefix_view() == old(self).prefix_view(),
                self.table_view() == t0,
                t0 == old(self).table_view(),
                forall|l: int| 0 <= l < i ==> (#[trigger] t0[l]).0 != command@,
            decreases n - i,
        {
            let hit = str_eq(self.cmd_handles[i].0.as_str(), command);
            proof {
                assert(t0[i as int] == (self.cmd_handles@[i as int].0@, self.cmd_handles@[i as int].1));
            }
            if hit {
                let _ = self.cmd_handles.remove(i);
                self.cmd_handles.insert(i, (command.to_owned(), handler));
                proof {
                    assert(self.table_view() =~= t0.update(i as int, (command@, handler)));
                    lemma_lookup_update(t0, command@, i as int, handler, command@);
                    assert forall|k: Seq<char>| k != command@ implies #[trigger] table_lookup(
                        self.table_view(),
                        k,
                    ) == table_lookup(t0, k) by {
                        lemma_lookup_update(t0, command@, i as int, handler, k);
                    }
                }
                return ;
            }
            i = i + 1;
        }
        self.cmd_handles.push((command.to_owned(), handler));
        proof {
            assert(self.table_view() =~= t0.push((command@, handler)));
            lemma_lookup_push(t0, command@, handler, command@);
            assert forall|k: Seq<char>| k != command@ implies #[trigger] table_lookup(
                self.table_view(),
                k,
            ) == table_lookup(t0, k) by {
                lemma_lookup_push(t0, command@, handler, k);
            }
        }
    }
}

impl<C: CommandAction> MessageHandler for StatelessHandler<C> {
    /// The handler itself never changes.  A message that does not carry the
    /// handler's prefix, or whose command is not in the table, is not for
    /// this handler: the capability handle is untouched and the chain goes
    /// on.  A hit runs the registered action on the message and the command
    /// tail, and answers whatever the action answers.
    open spec fn handle_post(
        pre: Self,
        pre_bot: BotView,
        m: MessageView,
        post: Self,
        post_bot: BotView,
        r: HandleResult,
    ) -> bool {
        &&& post == pre
        &&& match spec_extract_command(m.body, pre.prefix_view()) {
            None => post_bot == pre_bot && r == HandleResult::ContinueHandling,
            Some(cmd) => match table_lookup(pre.table_view(), cmd) {
                None => post_bot == pre_bot && r == HandleResult::ContinueHandling,
                Some(a) => a.action_post(
                    pre_bot,
                    m,
                    tail_of(m.body, pre.prefix_view(), cmd),
                    post_bot,
                    r,
                ),
            },
        }
    }

    fn handle_message(&mut self, bot: &mut ActiveBot, message: &Message) -> (r: HandleResult) {
        let body_str = message.body.as_str();
        match extract_command(body_str, self.cmd_prefix.as_str()) {
            None => {
                proof {
                    lemma_capability_step_refl(bot@);
                }
                HandleResult::ContinueHandling
            },
            Some(command) => {
                let ghost t = self.table_view();
                let n = self.cmd_handles.len();
                let mut i: usize = 0;
                while i < n
                    invariant
                        n == self.cmd_handles.len(),
                        i <= n,
                        *self == *old(self),
                        bot@ == old(bot)@,
                        t == self.table_view(),
                        spec_extract_command(message@.body, self.prefix_view()) == Some(command@),
                        forall|l: int| 0 <= l < i ==> (#[trigger] t[l]).0 != command@,
                    decreases n - i,
                {
                    let hit = str_eq(self.cmd_handles[i].0.as_str(), command);
                    proof {
                        assert(t[i as int]
                            == (self.cmd_handles@[i as int].0@, self.cmd_handles@[i as int].1));
                    }
                    if hit {
                        proof {
                            lemma_lookup_at(t, command@, i as int);
                        }
                        let tail = self.command_tail(command, message);
                        let entry = &self.cmd_handles[i];
                        let r = entry.1.run(bot, message, tail);
                        proof {
                            assert(entry.1 == t[i as int].1);
                        }
                        return r;
                    }
                    i = i + 1;
                }
                proof {
                    lemma_lookup_none(t, command@);
                    lemma_capability_step_refl(bot@);
                }
                HandleResult::ContinueHandling
            },
        }
    }
}

impl<C: CommandAction> StatelessHandler<C> {
    /// The message body without the prefix, the command and the whitespace
    /// right after the command.
    fn command_tail<'a>(&self, command: &str, message: &'a Message) -> (tail: &'a str)
        requires
            spec_extract_command(message@.body, self.prefix_view()) == Some(command@),
        ensures
            tail@ == tail_of(message@.body, self.prefix_view(), command@),
    {
        let body_str = message.body.as_str();
        let blen = body_str.unicode_len();
        let plen = self.cmd_prefix.unicode_len();
        let clen = command.unicode_len();
        proof {
            lemma_token_len(body_str@.skip(plen as int));
        }
        let start = plen + clen;
        let mut j: usize = start;
        while j < blen && is_ws_char(body_str.get_char(j))
            invariant
                start <= j <= blen,
                blen == body_str@.len(),
                forall|k: int| start <= k < j ==> is_ws(#[trigger] body_str@[k]),
            decreases blen - j,
        {
            j = j + 1;
        }
        let tail = body_str.substring_char(j, blen);
        proof {
            let rest = body_str@.skip(start as int);
            assert forall|k: int| 0 <= k < j - start implies is_ws(#[trigger] rest[k]) by {
                assert(rest[k] == body_str@[k + start]);
            }
            if j < blen {
                assert(rest[j - start] == body_str@[j as int]);
            }
            lemma_ws_len_is(rest, j - start);
            assert(tail@ =~= rest.skip(ws_len(rest) as int));
        }
        tail
    }
}

} // verus!
