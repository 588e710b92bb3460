//! The handler contract and the command-extraction convention.
//!
//! A message body is a command for a handler when it starts with the
//! handler's prefix; the command name is the first whitespace-delimited token
//! after the prefix.  [`extract_command`] implements that convention.

use vstd::prelude::*;

use crate::active_bot::ActiveBot;
use crate::active_bot::BotView;
use crate::active_bot::capability_step;
use crate::active_bot::lemma_capability_step_refl;
use crate::active_bot::lemma_capability_step_trans;
use crate::types::Message;
use crate::types::MessageView;

pub mod stateless_handler;

pub use stateless_handler::StatelessHandler;

verus! {

/// What to do after finishing handling a message.
#[derive(Clone, Copy, Debug, PartialEq, Eq, Structural)]
pub enum HandleResult {
    /// Give this message to the next handler in the chain as well.
    ContinueHandling,
    /// Stop handling this message.
    StopHandling,
}

/// The whitespace characters that delimit a command token.
pub open spec fn is_ws(c: char) -> bool {
    c == ' ' || c == '\t' || c == '\n' || c == '\r' || c == '\u{b}' || c == '\u{c}'
}

/// Whether `b` starts with `p`.
pub open spec fn starts_with(b: Seq<char>, p: Seq<char>) -> bool {
    p.len() <= b.len() && b.subrange(0, p.len() as int) == p
}

/// Length of the leading run of non-whitespace characters of `s`.
pub open spec fn token_len(s: Seq<char>) -> nat
    decreases s.len(),
{
    if s.len() == 0 || is_ws(s[0]) {
        0
    } else {
        1 + token_len(s.drop_first())
    }
}

/// What [`extract_command`] returns: nothing when the body does not start
/// with the prefix, and otherwise the first whitespace-delimited token after
/// stripping the prefix — the empty token when the body is exactly the prefix
/// or whitespace follows the prefix at once.
pub open spec fn spec_extract_command(body: Seq<char>, prefix: Seq<char>) -> Option<Seq<char>> {
    if starts_with(body, prefix) {
        Some(
            body.subrange(
                prefix.len() as int,
                (prefix.len() + token_len(body.skip(prefix.len() as int))) as int,
            ),
        )
    } else {
        None
    }
}

/// The leading token is within the sequence, consists of non-whitespace
/// characters, and runs up to the end or to a whitespace character.
pub(crate) proof fn lemma_token_len(s: Seq<char>)
    ensures
        token_len(s) <= s.len(),
        forall|k: int| 0 <= k < token_len(s) ==> !is_ws(#[trigger] s[k]),
        token_len(s) < s.len() ==> is_ws(s[token_len(s) as int]),
    decreases s.len(),
{
    if s.len() == 0 || is_ws(s[0]) {
    } else {
        lemma_token_len(s.drop_first());
        assert forall|k: int| 0 <= k < token_len(s) implies !is_ws(#[trigger] s[k]) by {
            if k > 0 {
                assert(!is_ws(s.drop_first()[k - 1]));
                assert(s.drop_first()[k - 1] == s[k]);
            }
        }
        if token_len(s) < s.len() {
            assert(s.drop_first()[token_len(s.drop_first()) as int] == s[token_len(s) as int]);
        }
    }
}

/// The leading token has length `n` exactly when the first `n` characters are
/// non-whitespace and the run stops there.
proof fn lemma_token_len_is(s: Seq<char>, n: int)
    requires
        0 <= n <= s.len(),
        forall|k: int| 0 <= k < n ==> !is_ws(#[trigger] s[k]),
        n < s.len() ==> is_ws(s[n]),
    ensures
        token_len(s) == n,
    decreases n,
{
    if n == 0 {
    } else {
        assert(!is_ws(s[0]));
        assert forall|k: int| 0 <= k < n - 1 implies !is_ws(#[trigger] s.drop_first()[k]) by {
            assert(s.drop_first()[k] == s[k + 1]);
        }
        if n - 1 < s.drop_first().len() {
            assert(s.drop_first()[n - 1] == s[n]);
        }
        lemma_token_len_is(s.drop_first(), n - 1);
    }
}

/// The command-extraction convention, exactly: extraction fails precisely on
/// bodies that do not start with the prefix; an extracted command `c` makes
/// `prefix + c` a prefix of the body, contains no whitespace, and is followed
/// by the end of the body or by a whitespace character.
pub proof fn lemma_extract_command(body: Seq<char>, prefix: Seq<char>)
    ensures
        spec_extract_command(body, prefix) is None <==> !starts_with(body, prefix),
        match spec_extract_command(body, prefix) {
            None => true,
            Some(c) => {
                &&& starts_with(body, prefix + c)
                &&& forall|k: int| 0 <= k < c.len() ==> !is_ws(#[trigger] c[k])
                &&& prefix.len() + c.len() == body.len() || is_ws(
                    body[(prefix.len() + c.len()) as int],
                )
            },
        },
{
    if starts_with(body, prefix) {
        let rest = body.skip(prefix.len() as int);
        let tl = token_len(rest);
        lemma_token_len(rest);
        let c = body.subrange(prefix.len() as int, (prefix.len() + tl) as int);
        assert forall|k: int| 0 <= k < c.len() implies !is_ws(#[trigger] c[k]) by {
            assert(rest[k] == c[k]);
            assert(!is_ws(rest[k]));
        }
        assert(prefix + c =~= body.subrange(0, (prefix.len() + tl) as int)) by {
            assert(body.subrange(0, prefix.len() as int) == prefix);
            assert forall|k: int| 0 <= k < prefix.len() + tl implies (prefix + c)[k] == body[k] by {
                if k < prefix.len() {
                    assert(body.subrange(0, prefix.len() as int)[k] == body[k]);
                } else {
                    assert(c[k - prefix.len()] == body[k]);
                }
            }
        }
        assert(starts_with(body, prefix + c));
        if tl < rest.len() {
            assert(rest[tl as int] == body[(prefix.len() + tl) as int]);
        }
    }
}

/// Length of the leading run of whitespace characters of `s`.
pub open spec fn ws_len(s: Seq<char>) -> nat
    decreases s.len(),
{
    if s.len() == 0 || !is_ws(s[0]) {
        0
    } else {
        1 + ws_len(s.drop_first())
    }
}

/// The leading whitespace run has length `n` exactly when the first `n`
/// characters are whitespace and the run stops there.
pub(crate) proof fn lemma_ws_len_is(s: Seq<char>, n: int)
    requires
        0 <= n <= s.len(),
        forall|k: int| 0 <= k < n ==> is_ws(#[trigger] s[k]),
        n < s.len() ==> !is_ws(s[n]),
    ensures
        ws_len(s) == n,
    decreases n,
{
    if n == 0 {
    } else {
        assert(is_ws(s[0]));
        assert forall|k: int| 0 <= k < n - 1 implies is_ws(#[trigger] s.drop_first()[k]) by {
            assert(s.drop_first()[k] == s[k + 1]);
        }
        if n - 1 < s.drop_first().len() {
            assert(s.drop_first()[n - 1] == s[n]);
        }
        lemma_ws_len_is(s.drop_first(), n - 1);
    }
}

/// The tail a command's action is run with: the message body without the
/// prefix, the command and the whitespace right after the command.
pub open spec fn tail_of(body: Seq<char>, prefix: Seq<char>, cmd: Seq<char>) -> Seq<char> {
    let rest = body.skip((prefix.len() + cmd.len()) as int);
    rest.skip(ws_len(rest) as int)
}

/// Convenience function to split the incoming message at whitespace and
/// extract the given prefix from the first word.  Returns `None` if the
/// message does not start with the given prefix, and otherwise the first
/// whitespace-delimited token of the rest — for a body of `"!roll 6"` and a
/// prefix of `"!"`, the command `"roll"`.
pub fn extract_command<'a>(message: &'a str, prefix: &str) -> (r: Option<&'a str>)
    ensures
        match r {
            Some(c) => spec_extract_command(message@, prefix@) == Some(c@),
            None => spec_extract_command(message@, prefix@) is None,
        },
{
    let blen = message.unicode_len();
    let plen = prefix.unicode_len();
    if blen < plen {
        proof {
            assert(!starts_with(message@, prefix@));
        }
        return None;
    }
    let mut i: usize = 0;
    while i < plen
        invariant
            0 <= i <= plen <= blen,
            blen == message@.len(),
            plen == prefix@.len(),
            forall|k: int| 0 <= k < i ==> message@[k] == prefix@[k],
        decreases plen - i,
    {
        if message.get_char(i) != prefix.get_char(i) {
            proof {
                assert(message@.subrange(0, plen as int)[i as int] != prefix@[i as int]);
            }
            return None;
        }
        i = i + 1;
    }
    proof {
        assert(message@.subrange(0, plen as int) =~= prefix@);
    }
    let mut j: usize = plen;
    while j < blen && !is_ws_char(message.get_char(j))
        invariant
            plen <= j <= blen,
            blen == message@.len(),
            plen == prefix@.len(),
            forall|k: int| plen <= k < j ==> !is_ws(#[trigger] message@[k]),
        decreases blen - j,
    {
        j = j + 1;
    }
    proof {
        let rest = message@.skip(plen as int);
        assert forall|k: int| 0 <= k < j - plen implies !is_ws(#[trigger] rest[k]) by {
            assert(rest[k] == message@[k + plen]);
        }
        if j < blen {
            assert(rest[j - plen] == message@[j as int]);
        }
        lemma_token_len_is(rest, j - plen);
    }
    Some(message.substring_char(plen, j))
}

/// Whether a character delimits a command token.
pub(crate) fn is_ws_char(c: char) -> (b: bool)
    ensures
        b == is_ws(c),
{
    c == ' ' || c == '\t' || c == '\n' || c == '\r' || c == '\u{b}' || c == '\u{c}'
}

/// Whether two string slices hold the same characters.
pub(crate) fn str_eq(a: &str, b: &str) -> (r: bool)
    ensures
        r == (a@ == b@),
{
    let n = a.unicode_len();
    if n != b.unicode_len() {
        return false;
    }
    let mut i: usize = 0;
    while i < n
        invariant
            n == a@.len(),
            n == b@.len(),
            i <= n,
            forall|k: int| 0 <= k < i ==> a@[k] == b@[k],
        decreases n - i,
    {
        if a.get_char(i) != b.get_char(i) {
            return false;
        }
        i = i + 1;
    }
    proof {
        assert(a@ =~= b@);
    }
    true
}

/// Any type that implements this trait can be registered with a
/// [`crate::MatrixBot`].  The bot calls `handle_message` for every arriving
/// text message; the returned [`HandleResult`] decides whether the handlers
/// after this one in the chain see the message too.
///
/// An implementation describes its behaviour in `handle_post`, the relation
/// between its state and the capability handle before and after one
/// invocation; the chain dispatch contract is stated over that relation.
/// Every implementation may only drive the bot through the capability
/// surface, never rolling the command queue back.
pub trait MessageHandler: Sized {
    /// What one invocation of `handle_message` does: how the new handler
    /// state `post`, the new capability state `post_bot` and the result `r`
    /// relate to the old states and the message.  An implementation that does
    /// not care to expose its behaviour can leave the default, which promises
    /// nothing.
    open spec fn handle_post(
        pre: Self,
        pre_bot: BotView,
        m: MessageView,
        post: Self,
        post_bot: BotView,
        r: HandleResult,
    ) -> bool {
        true
    }

    /// Called for every text message sent to a room the bot is in.
    fn handle_message(&mut self, bot: &mut ActiveBot, message: &Message) -> (r: HandleResult)
        ensures
            capability_step(old(bot)@, final(bot)@),
            Self::handle_post(*old(self), old(bot)@, message@, *final(self), final(bot)@, r),
    ;

    /// Called once the bot has started, right after login succeeds and before
    /// the steady-state loop begins.  The default does nothing.
    fn init_handler(&mut self, bot: &mut ActiveBot)
        ensures
            capability_step(old(bot)@, final(bot)@),
    {
        proof {
            lemma_capability_step_refl(bot@);
        }
    }
}

/// The chain-walk protocol, relating the handlers and the capability handle
/// before and after one dispatch to the sequence `rs` of results the invoked
/// handlers returned: the first handler is always invoked; after a handler
/// answers [`HandleResult::ContinueHandling`] the next one is invoked; the
/// first [`HandleResult::StopHandling`] ends the walk at once, and the
/// handlers after it keep their state.  Each invocation obeys the handler's
/// own `handle_post` relation and steps the capability handle forward.
pub open spec fn chain_post<H: MessageHandler>(
    pre_hs: Seq<H>,
    pre_bot: BotView,
    m: MessageView,
    post_hs: Seq<H>,
    post_bot: BotView,
    rs: Seq<HandleResult>,
) -> bool
    decreases pre_hs.len(),
{
    if pre_hs.len() == 0 {
        post_hs == pre_hs && post_bot == pre_bot && rs.len() == 0
    } else {
        rs.len() >= 1 && post_hs.len() == pre_hs.len() && exists|b1: BotView|
            {
                &&& #[trigger] capability_step(pre_bot, b1)
                &&& H::handle_post(pre_hs[0], pre_bot, m, post_hs[0], b1, rs[0])
                &&& match rs[0] {
                    HandleResult::StopHandling => rs.len() == 1 && post_hs.skip(1) == pre_hs.skip(
                        1,
                    ) && post_bot == b1,
                    HandleResult::ContinueHandling => chain_post(
                        pre_hs.skip(1),
                        b1,
                        m,
                        post_hs.skip(1),
                        post_bot,
                        rs.skip(1),
                    ),
                }
            }
    }
}

/// The ordered-dispatch law.  Whenever the chain-walk protocol relates a
/// dispatch's states and results: no more handlers answered than are
/// registered; if any handler is registered the first one was invoked; every
/// invoked handler except the last answered `ContinueHandling`; the walk
/// ended before the end of the chain only on a `StopHandling`; the handlers
/// that were never reached kept their state; and the whole walk only moved
/// the capability handle forward.
pub proof fn lemma_chain_post<H: MessageHandler>(
    pre_hs: Seq<H>,
    pre_bot: BotView,
    m: MessageView,
    post_hs: Seq<H>,
    post_bot: BotView,
    rs: Seq<HandleResult>,
)
    requires
        chain_post(pre_hs, pre_bot, m, post_hs, post_bot, rs),
    ensures
        rs.len() <= pre_hs.len(),
        post_hs.len() == pre_hs.len(),
        pre_hs.len() > 0 ==> rs.len() > 0,
        forall|i: int| 0 <= i < rs.len() - 1 ==> rs[i] == HandleResult::ContinueHandling,
        rs.len() < pre_hs.len() ==> rs[rs.len() - 1] == HandleResult::StopHandling,
        forall|i: int| rs.len() <= i < pre_hs.len() ==> post_hs[i] == pre_hs[i],
        capability_step(pre_bot, post_bot),
    decreases pre_hs.len(),
{
    if pre_hs.len() == 0 {
        lemma_capability_step_refl(pre_bot);
    } else {
        let b1 = choose|b1: BotView|
            {
                &&& #[trigger] capability_step(pre_bot, b1)
                &&& H::handle_post(pre_hs[0], pre_bot, m, post_hs[0], b1, rs[0])
                &&& match rs[0] {
                    HandleResult::StopHandling => rs.len() == 1 && post_hs.skip(1) == pre_hs.skip(
                        1,
                    ) && post_bot == b1,
                    HandleResult::ContinueHandling => chain_post(
                        pre_hs.skip(1),
                        b1,
                        m,
                        post_hs.skip(1),
                        post_bot,
                        rs.skip(1),
                    ),
                }
            };
        match rs[0] {
            HandleResult::StopHandling => {
                assert forall|i: int| rs.len() <= i < pre_hs.len() implies post_hs[i] == pre_hs[i] by {
                    assert(post_hs.skip(1)[i - 1] == pre_hs.skip(1)[i - 1]);
                }
            },
            HandleResult::ContinueHandling => {
                lemma_chain_post(pre_hs.skip(1), b1, m, post_hs.skip(1), post_bot, rs.skip(1));
                assert forall|i: int| 0 <= i < rs.len() - 1 implies rs[i]
                    == HandleResult::ContinueHandling by {
                    if i > 0 {
                        assert(rs.skip(1)[i - 1] == rs[i]);
                    }
                }
                assert forall|i: int| rs.len() <= i < pre_hs.len() implies post_hs[i] == pre_hs[i] by {
                    assert(post_hs.skip(1)[i - 1] == pre_hs.skip(1)[i - 1]);
                }
                if rs.len() < pre_hs.len() {
                    assert(rs.skip(1)[rs.len() - 2] == rs[rs.len() - 1]);
                }
                lemma_capability_step_trans(pre_bot, b1, post_bot);
            },
        }
    }
}

/// Walks the handlers from position `i` on, giving each the message until one
/// of them answers [`HandleResult::StopHandling`], and returns the answers.
fn dispatch_from<H: MessageHandler>(
    handlers: &mut Vec<H>,
    i: usize,
    bot: &mut ActiveBot,
    message: &Message,
) -> (rs: Vec<HandleResult>)
    requires
        i <= old(handlers).len(),
    ensures
        final(handlers)@.len() == old(handlers)@.len(),
        final(handlers)@.subrange(0, i as int) == old(handlers)@.subrange(0, i as int),
        chain_post(
            old(handlers)@.skip(i as int),
            old(bot)@,
            message@,
            final(handlers)@.skip(i as int),
            final(bot)@,
            rs@,
        ),
    decreases old(handlers).len() - i,
{
    if i == handlers.len() {
        let rs: Vec<HandleResult> = Vec::new();
        proof {
            assert(handlers@.skip(i as int) =~= Seq::<H>::empty());
            assert(handlers@.subrange(0, i as int) =~= old(handlers)@.subrange(0, i as int));
        }
        return rs;
    }
    let ghost pre_hs = handlers@;
    let h = &mut handlers[i];
    let r = h.handle_message(bot, message);
    let ghost b1 = bot@;
    match r {
        HandleResult::StopHandling => {
            let mut rs: Vec<HandleResult> = Vec::new();
            rs.push(r);
            proof {
                assert(handlers@ =~= pre_hs.update(i as int, handlers@[i as int]));
                assert(handlers@.subrange(0, i as int) =~= pre_hs.subrange(0, i as int));
                assert(handlers@.skip(i as int).skip(1) =~= pre_hs.skip(i as int).skip(1));
                assert(pre_hs.skip(i as int)[0] == pre_hs[i as int]);
                assert(handlers@.skip(i as int)[0] == handlers@[i as int]);
                assert(chain_post(
                    pre_hs.skip(i as int),
                    old(bot)@,
                    message@,
                    handlers@.skip(i as int),
                    bot@,
                    rs@,
                ));
            }
            rs
        },
        HandleResult::ContinueHandling => {
            let ghost mid_hs = handlers@;
            let mut rs = dispatch_from(handlers, i + 1, bot, message);
            let ghost rs0 = rs@;
            rs.insert(0, r);
            proof {
                assert(mid_hs =~= pre_hs.update(i as int, mid_hs[i as int]));
                assert(handlers@.subrange(0, i as int) =~= pre_hs.subrange(0, i as int)) by {
                    assert forall|k: int| 0 <= k < i implies handlers@[k] == pre_hs[k] by {
                        assert(handlers@.subrange(0, i + 1)[k] == handlers@[k]);
                        assert(mid_hs.subrange(0, i + 1)[k] == mid_hs[k]);
                        assert(mid_hs[k] == pre_hs[k]);
                    }
                }
                assert(handlers@[i as int] == mid_hs[i as int]) by {
                    assert(handlers@.subrange(0, i + 1)[i as int] == handlers@[i as int]);
                    assert(mid_hs.subrange(0, i + 1)[i as int] == mid_hs[i as int]);
                }
                assert(rs@[0] == r);
                assert(rs@.skip(1) =~= rs0);
                assert(pre_hs.skip(i as int).skip(1) =~= mid_hs.skip(i + 1));
                assert(handlers@.skip(i as int).skip(1) =~= handlers@.skip(i + 1));
                assert(pre_hs.skip(i as int)[0] == pre_hs[i as int]);
                assert(handlers@.skip(i as int)[0] == handlers@[i as int]);
                assert(chain_post(
                    pre_hs.skip(i as int),
                    old(bot)@,
                    message@,
                    handlers@.skip(i as int),
                    bot@,
                    rs@,
                ));
            }
            rs
        },
    }
}

/// Walks the registered handlers in registration order, giving each the
/// message until one of them answers [`HandleResult::StopHandling`]; if the
/// chain is exhausted without one, the message is simply dropped.  The walk
/// and the handlers' answers obey the chain-walk protocol [`chain_post`].
pub fn dispatch<H: MessageHandler>(handlers: &mut Vec<H>, bot: &mut ActiveBot, message: &Message)
    ensures
        final(handlers)@.len() == old(handlers)@.len(),
        exists|rs: Seq<HandleResult>|
            chain_post(old(handlers)@, old(bot)@, message@, final(handlers)@, final(bot)@, rs),
{
    let rs = dispatch_from(handlers, 0, bot, message);
    proof {
        assert(old(handlers)@.skip(0) =~= old(handlers)@);
        assert(handlers@.skip(0) =~= handlers@);
        assert(chain_post(old(handlers)@, old(bot)@, message@, handlers@, bot@, rs@));
        lemma_chain_post(old(handlers)@, old(bot)@, message@, handlers@, bot@, rs@);
    }
}

} // verus!
