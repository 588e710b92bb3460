use matrix_bot_api::ActiveBot;
use matrix_bot_api::Command;
use matrix_bot_api::MatrixBot;
use matrix_bot_api::Message;
use matrix_bot_api::MessageType;
use matrix_bot_api::Response;
use matrix_bot_api::handlers::HandleResult;
use matrix_bot_api::handlers::MessageHandler;
use matrix_bot_api::handlers::StatelessHandler;
use matrix_bot_api::handlers::stateless_handler::Action;

fn text_message(sender: &str, body: &str) -> Message {
    Message {
        sender: sender.to_string(),
        mtype: "m.text".to_string(),
        body: body.to_string(),
        date: 1,
        room: "!room:server".to_string(),
        id: "$event1".to_string(),
        formatted_body: None,
        format: None,
        in_reply_to: None,
    }
}

fn reply(text: &str, with_tail: bool, stop: bool) -> Action {
    Action::Reply {
        text: text.to_string(),
        with_tail,
        mtype: MessageType::TextMessage,
        stop,
    }
}

fn sent_bodies(out: &[Command]) -> Vec<String> {
    out.iter()
        .filter_map(|c| match c {
            Command::SendMsg(m) => Some(m.body.clone()),
            _ => None,
        })
        .collect()
}

/// Scenario: a stateless echo handler answers `!echo hello world` with
/// `Echo: hello world` and stops the chain.
#[test]
fn echo_handler_replies_with_the_tail() {
    let mut handler = StatelessHandler::new();
    handler.register_handle("echo", reply("Echo: ", true, true));
    let mut active = ActiveBot::new(Some("@bot:server".to_string()), false);
    let m = text_message("@alice:server", "!echo hello world");
    let r = handler.handle_message(&mut active, &m);
    assert_eq!(r, HandleResult::StopHandling);
    assert_eq!(sent_bodies(&active.take_outgoing()), vec!["Echo: hello world".to_string()]);
}

/// Scenario: two handlers registered for `help`; the first continues, the
/// second stops — both replies are sent, in that order.
#[test]
fn help_can_be_answered_by_several_handlers() {
    let mut first = StatelessHandler::new();
    first.register_handle("help", reply("first help", false, false));
    let mut second = StatelessHandler::new();
    second.register_handle("help", reply("second help", false, true));
    let mut bot = MatrixBot::new(first);
    bot.add_handler(second);
    let mut active = ActiveBot::new(None, false);
    assert!(bot.handle_recvs(Response::Token("@bot:server".to_string()), &mut active));
    active.take_outgoing();
    let m = text_message("@alice:server", "!help");
    assert!(bot.handle_recvs(Response::RoomMessages(vec![m]), &mut active));
    assert_eq!(
        sent_bodies(&active.take_outgoing()),
        vec!["first help".to_string(), "second help".to_string()]
    );
}

/// Scenario: `Hi all!` is no command for the prefix `!` — no handler acts
/// and the chain walk emits nothing.
#[test]
fn non_command_text_is_left_alone() {
    let mut handler = StatelessHandler::new();
    handler.register_handle("echo", reply("Echo: ", true, true));
    let mut active = ActiveBot::new(Some("@bot:server".to_string()), false);
    let m = text_message("@alice:server", "Hi all!");
    let r = handler.handle_message(&mut active, &m);
    assert_eq!(r, HandleResult::ContinueHandling);
    assert!(active.take_outgoing().is_empty());
}

/// Scenario: a handler calls `shutdown()` and continues — handlers later in
/// the chain still see the same message, and the loop only ends on the
/// backend's own shutdown response.
#[test]
fn shutdown_request_does_not_cut_the_chain_short() {
    let mut first = StatelessHandler::new();
    first.register_handle("stop", Action::Shutdown { stop: false });
    let mut second = StatelessHandler::new();
    second.register_handle("stop", reply("cleaning up", false, true));
    let mut bot = MatrixBot::new(first);
    bot.add_handler(second);
    let mut active = ActiveBot::new(None, false);
    assert!(bot.handle_recvs(Response::Token("@bot:server".to_string()), &mut active));
    active.take_outgoing();
    let m = text_message("@alice:server", "!stop");
    let keep = bot.handle_recvs(Response::RoomMessages(vec![m]), &mut active);
    assert!(keep, "the loop must not stop before the backend acknowledges");
    let out = active.take_outgoing();
    assert_eq!(out.len(), 3);
    assert!(matches!(out[0], Command::MarkAsRead { .. }));
    assert_eq!(out[1], Command::ShutDown);
    match &out[2] {
        Command::SendMsg(m) => assert_eq!(m.body, "cleaning up"),
        other => panic!("expected SendMsg, got {:?}", other),
    }
    assert!(!bot.handle_recvs(Response::ShutDown, &mut active));
}

#[test]
fn a_stop_cuts_the_chain_short() {
    let mut first = StatelessHandler::new();
    first.register_handle("hi", reply("from the first", false, true));
    let mut second = StatelessHandler::new();
    second.register_handle("hi", reply("from the second", false, true));
    let mut bot = MatrixBot::new(first);
    bot.add_handler(second);
    let mut active = ActiveBot::new(None, false);
    assert!(bot.handle_recvs(Response::Token("@bot:server".to_string()), &mut active));
    active.take_outgoing();
    let m = text_message("@alice:server", "!hi");
    assert!(bot.handle_recvs(Response::RoomMessages(vec![m]), &mut active));
    assert_eq!(sent_bodies(&active.take_outgoing()), vec!["from the first".to_string()]);
}

#[test]
fn unknown_commands_fall_through_to_later_handlers() {
    let mut first = StatelessHandler::new();
    first.register_handle("known", reply("never sent", false, true));
    let mut second = StatelessHandler::new();
    second.register_handle("other", reply("the second answers", false, true));
    let mut bot = MatrixBot::new(first);
    bot.add_handler(second);
    let mut active = ActiveBot::new(None, false);
    assert!(bot.handle_recvs(Response::Token("@bot:server".to_string()), &mut active));
    active.take_outgoing();
    let m = text_message("@alice:server", "!other");
    assert!(bot.handle_recvs(Response::RoomMessages(vec![m]), &mut active));
    assert_eq!(sent_bodies(&active.take_outgoing()), vec!["the second answers".to_string()]);
}

#[test]
fn handlers_can_use_their_own_prefix() {
    let mut handler = StatelessHandler::new();
    handler.set_cmd_prefix("BOT: ");
    handler.register_handle("leave", reply("Bye!", false, true));
    let mut active = ActiveBot::new(Some("@bot:server".to_string()), false);
    let r = handler.handle_message(&mut active, &text_message("@alice:server", "BOT: leave"));
    assert_eq!(r, HandleResult::StopHandling);
    assert_eq!(sent_bodies(&active.take_outgoing()), vec!["Bye!".to_string()]);
    let r = handler.handle_message(&mut active, &text_message("@alice:server", "!leave"));
    assert_eq!(r, HandleResult::ContinueHandling);
    assert!(active.take_outgoing().is_empty());
}

#[test]
fn registering_a_command_twice_replaces_the_action() {
    let mut handler = StatelessHandler::new();
    handler.register_handle("greet", reply("old greeting", false, true));
    handler.register_handle("greet", reply("new greeting", false, true));
    let mut active = ActiveBot::new(Some("@bot:server".to_string()), false);
    let r = handler.handle_message(&mut active, &text_message("@alice:server", "!greet"));
    assert_eq!(r, HandleResult::StopHandling);
    assert_eq!(sent_bodies(&active.take_outgoing()), vec!["new greeting".to_string()]);
}

#[test]
fn the_tail_excludes_prefix_command_and_separating_whitespace() {
    let mut handler = StatelessHandler::new();
    handler.register_handle("roll", reply("rolling ", true, true));
    let mut active = ActiveBot::new(Some("@bot:server".to_string()), false);
    handler.handle_message(&mut active, &text_message("@alice:server", "!roll   12"));
    assert_eq!(sent_bodies(&active.take_outgoing()), vec!["rolling 12".to_string()]);
}

/// A handler with state of its own: counts the messages it saw and reports
/// the count in a reply.
struct CountingHandler {
    seen: usize,
    stop: bool,
}

impl MessageHandler for CountingHandler {
    fn handle_message(&mut self, bot: &mut ActiveBot, message: &Message) -> HandleResult {
        self.seen += 1;
        bot.send_message(&format!("seen {}", self.seen), &message.room, MessageType::RoomNotice);
        if self.stop {
            HandleResult::StopHandling
        } else {
            HandleResult::ContinueHandling
        }
    }
}

#[test]
fn stateful_handlers_keep_their_state_between_messages() {
    let mut bot = MatrixBot::new(CountingHandler { seen: 0, stop: false });
    let mut active = ActiveBot::new(None, false);
    assert!(bot.handle_recvs(Response::Token("@bot:server".to_string()), &mut active));
    active.take_outgoing();
    let batch = vec![
        text_message("@alice:server", "one"),
        text_message("@alice:server", "two"),
    ];
    assert!(bot.handle_recvs(Response::RoomMessages(batch), &mut active));
    assert_eq!(
        sent_bodies(&active.take_outgoing()),
        vec!["seen 1".to_string(), "seen 2".to_string()]
    );
    assert!(bot.handle_recvs(
        Response::RoomMessages(vec![text_message("@alice:server", "three")]),
        &mut active
    ));
    assert_eq!(sent_bodies(&active.take_outgoing()), vec!["seen 3".to_string()]);
}

/// Handlers of different kinds share a chain through a small wrapper.
enum TestHandler {
    Counting(CountingHandler),
    Table(StatelessHandler<Action>),
}

impl MessageHandler for TestHandler {
    fn handle_message(&mut self, bot: &mut ActiveBot, message: &Message) -> HandleResult {
        match self {
            TestHandler::Counting(h) => h.handle_message(bot, message),
            TestHandler::Table(h) => h.handle_message(bot, message),
        }
    }
}

/// A handler that stops the chain for every message.
#[test]
fn an_early_stop_hides_messages_from_later_handlers() {
    let mut second = StatelessHandler::new();
    second.register_handle("ping", reply("pong", false, true));
    let mut bot = MatrixBot::new(TestHandler::Counting(CountingHandler { seen: 0, stop: true }));
    bot.add_handler(TestHandler::Table(second));
    let mut active = ActiveBot::new(None, false);
    assert!(bot.handle_recvs(Response::Token("@bot:server".to_string()), &mut active));
    active.take_outgoing();
    let m = text_message("@alice:server", "!ping");
    assert!(bot.handle_recvs(Response::RoomMessages(vec![m]), &mut active));
    // the first handler stopped the walk: no "pong" from the second
    assert_eq!(sent_bodies(&active.take_outgoing()), vec!["seen 1".to_string()]);
}

/// A handler that announces itself when the bot starts.
struct AnnouncingHandler;

impl MessageHandler for AnnouncingHandler {
    fn handle_message(&mut self, _bot: &mut ActiveBot, _message: &Message) -> HandleResult {
        HandleResult::ContinueHandling
    }

    fn init_handler(&mut self, bot: &mut ActiveBot) {
        bot.send_message("here I am", "!lobby:server", MessageType::RoomNotice);
    }
}

#[test]
fn init_handler_runs_once_after_the_first_login() {
    let mut bot = MatrixBot::new(AnnouncingHandler);
    let mut active = ActiveBot::new(None, false);
    assert!(bot.handle_recvs(Response::Token("@bot:server".to_string()), &mut active));
    let out = active.take_outgoing();
    assert_eq!(out.len(), 2);
    assert_eq!(out[0], Command::Sync { since: None, initial: true });
    match &out[1] {
        Command::SendMsg(m) => assert_eq!(m.body, "here I am"),
        other => panic!("expected SendMsg, got {:?}", other),
    }
    // a refreshed login initializes nobody a second time
    assert!(bot.handle_recvs(Response::Token("@bot:server".to_string()), &mut active));
    assert_eq!(
        active.take_outgoing(),
        vec![Command::Sync { since: None, initial: true }]
    );
}
