use matrix_bot_api::ActiveBot;
use matrix_bot_api::Command;
use matrix_bot_api::MatrixBot;
use matrix_bot_api::Membership;
use matrix_bot_api::Message;
use matrix_bot_api::MessageType;
use matrix_bot_api::Response;
use matrix_bot_api::Room;
use matrix_bot_api::handlers::StatelessHandler;
use matrix_bot_api::handlers::stateless_handler::Action;

fn text_message(sender: &str, body: &str) -> Message {
    Message {
        sender: sender.to_string(),
        mtype: "m.text".to_string(),
        body: body.to_string(),
        date: 1,
        room: "!room:server".to_string(),
        id: "$event1".to_string(),
        formatted_body: None,
        format: None,
        in_reply_to: None,
    }
}

fn logged_in_bot(handler: StatelessHandler<Action>) -> (MatrixBot<StatelessHandler<Action>>, ActiveBot) {
    let mut bot = MatrixBot::new(handler);
    let mut active = ActiveBot::new(None, false);
    let keep = bot.handle_recvs(Response::Token("@bot:server".to_string()), &mut active);
    assert!(keep);
    assert_eq!(
        active.take_outgoing(),
        vec![Command::Sync { since: None, initial: true }]
    );
    (bot, active)
}

#[test]
fn login_queues_the_login_command() {
    let bot = MatrixBot::new(StatelessHandler::<Action>::new());
    let mut active = ActiveBot::new(None, false);
    bot.login(&mut active, "bot", "secret", "https://server");
    assert_eq!(
        active.take_outgoing(),
        vec![Command::Login {
            user: "bot".to_string(),
            password: "secret".to_string(),
            homeserver_url: "https://server".to_string(),
        }]
    );
}

#[test]
fn token_stores_identity_and_starts_the_sync_loop() {
    let (_, mut active) = logged_in_bot(StatelessHandler::new());
    // the identity now stamps outgoing messages
    active.send_message("hi", "!room:server", MessageType::TextMessage);
    match &active.take_outgoing()[0] {
        Command::SendMsg(m) => assert_eq!(m.sender, "@bot:server"),
        other => panic!("expected SendMsg, got {:?}", other),
    }
}

#[test]
fn sync_and_sync_error_reissue_sync() {
    let (mut bot, mut active) = logged_in_bot(StatelessHandler::new());
    assert!(bot.handle_recvs(Response::Sync("cursor".to_string()), &mut active));
    assert_eq!(
        active.take_outgoing(),
        vec![Command::Sync { since: None, initial: false }]
    );
    assert!(bot.handle_recvs(Response::SyncError, &mut active));
    assert_eq!(
        active.take_outgoing(),
        vec![Command::Sync { since: None, initial: false }]
    );
}

#[test]
fn invited_rooms_are_joined_exactly_once_each() {
    let (mut bot, mut active) = logged_in_bot(StatelessHandler::new());
    let rooms = vec![
        Room { id: "!a:server".to_string(), membership: Membership::Invited },
        Room { id: "!b:server".to_string(), membership: Membership::Joined },
        Room { id: "!c:server".to_string(), membership: Membership::Invited },
        Room { id: "!d:server".to_string(), membership: Membership::Left },
    ];
    assert!(bot.handle_recvs(Response::UpdateRooms(rooms), &mut active));
    assert_eq!(
        active.take_outgoing(),
        vec![
            Command::JoinRoom("!a:server".to_string()),
            Command::JoinRoom("!c:server".to_string()),
        ]
    );
}

#[test]
fn shutdown_response_ends_the_loop() {
    let (mut bot, mut active) = logged_in_bot(StatelessHandler::new());
    let keep = bot.handle_recvs(Response::ShutDown, &mut active);
    assert!(!keep);
    assert!(active.take_outgoing().is_empty());
}

#[test]
fn every_message_is_marked_as_read_before_anything_else() {
    let mut handler = StatelessHandler::new();
    handler.register_handle(
        "echo",
        Action::Reply {
            text: "Echo: ".to_string(),
            with_tail: true,
            mtype: MessageType::TextMessage,
            stop: true,
        },
    );
    let (mut bot, mut active) = logged_in_bot(handler);
    let m = text_message("@alice:server", "!echo hi");
    assert!(bot.handle_recvs(Response::RoomMessages(vec![m]), &mut active));
    let out = active.take_outgoing();
    assert_eq!(
        out[0],
        Command::MarkAsRead { room: "!room:server".to_string(), id: "$event1".to_string() }
    );
    assert!(matches!(out[1], Command::SendMsg(_)));
    assert_eq!(out.len(), 2);
}

#[test]
fn non_text_messages_are_acknowledged_but_not_dispatched() {
    let mut handler = StatelessHandler::new();
    handler.register_handle(
        "echo",
        Action::Reply {
            text: "Echo: ".to_string(),
            with_tail: true,
            mtype: MessageType::TextMessage,
            stop: true,
        },
    );
    let (mut bot, mut active) = logged_in_bot(handler);
    let mut m = text_message("@alice:server", "!echo hi");
    m.mtype = "m.image".to_string();
    assert!(bot.handle_recvs(Response::RoomMessages(vec![m]), &mut active));
    let out = active.take_outgoing();
    assert_eq!(
        out,
        vec![Command::MarkAsRead { room: "!room:server".to_string(), id: "$event1".to_string() }]
    );
}

#[test]
fn own_messages_are_never_dispatched() {
    let mut handler = StatelessHandler::new();
    handler.register_handle(
        "echo",
        Action::Reply {
            text: "Echo: ".to_string(),
            with_tail: true,
            mtype: MessageType::TextMessage,
            stop: true,
        },
    );
    let (mut bot, mut active) = logged_in_bot(handler);
    // the bot's own echo reply would itself be a command
    let m = text_message("@bot:server", "!echo hi");
    assert!(bot.handle_recvs(Response::RoomMessages(vec![m]), &mut active));
    let out = active.take_outgoing();
    assert_eq!(
        out,
        vec![Command::MarkAsRead { room: "!room:server".to_string(), id: "$event1".to_string() }]
    );
}

#[test]
fn batches_are_dispatched_in_order() {
    let mut handler = StatelessHandler::new();
    handler.register_handle(
        "echo",
        Action::Reply {
            text: "Echo: ".to_string(),
            with_tail: true,
            mtype: MessageType::TextMessage,
            stop: true,
        },
    );
    let (mut bot, mut active) = logged_in_bot(handler);
    let mut first = text_message("@alice:server", "!echo one");
    first.id = "$e1".to_string();
    let mut second = text_message("@alice:server", "!echo two");
    second.id = "$e2".to_string();
    assert!(bot.handle_recvs(Response::RoomMessages(vec![first, second]), &mut active));
    let out = active.take_outgoing();
    assert_eq!(out.len(), 4);
    assert_eq!(
        out[0],
        Command::MarkAsRead { room: "!room:server".to_string(), id: "$e1".to_string() }
    );
    match &out[1] {
        Command::SendMsg(m) => assert_eq!(m.body, "Echo: one"),
        other => panic!("expected SendMsg, got {:?}", other),
    }
    assert_eq!(
        out[2],
        Command::MarkAsRead { room: "!room:server".to_string(), id: "$e2".to_string() }
    );
    match &out[3] {
        Command::SendMsg(m) => assert_eq!(m.body, "Echo: two"),
        other => panic!("expected SendMsg, got {:?}", other),
    }
}
