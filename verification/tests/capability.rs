use matrix_bot_api::ActiveBot;
use matrix_bot_api::Command;
use matrix_bot_api::MessageType;

#[test]
fn send_message_queues_one_stamped_command() {
    let mut bot = ActiveBot::new(Some("@bot:server".to_string()), false);
    bot.send_message("hello", "!room:server", MessageType::TextMessage);
    let out = bot.take_outgoing();
    assert_eq!(out.len(), 1);
    match &out[0] {
        Command::SendMsg(m) => {
            assert_eq!(m.sender, "@bot:server");
            assert_eq!(m.mtype, "m.text");
            assert_eq!(m.body, "hello");
            assert_eq!(m.room, "!room:server");
            assert_eq!(m.formatted_body, None);
            assert_eq!(m.format, None);
            assert!(!m.id.is_empty());
            assert!(m.id.chars().all(|c| c.is_ascii_digit()));
        }
        other => panic!("expected SendMsg, got {:?}", other),
    }
}

#[test]
fn send_message_as_notice_uses_notice_type() {
    let mut bot = ActiveBot::new(Some("@bot:server".to_string()), false);
    bot.send_message("psst", "!room:server", MessageType::RoomNotice);
    let out = bot.take_outgoing();
    match &out[0] {
        Command::SendMsg(m) => assert_eq!(m.mtype, "m.notice"),
        other => panic!("expected SendMsg, got {:?}", other),
    }
}

#[test]
fn send_html_message_carries_the_formatted_body() {
    let mut bot = ActiveBot::new(Some("@bot:server".to_string()), false);
    bot.send_html_message("plain", "<b>rich</b>", "!room:server", MessageType::TextMessage);
    let out = bot.take_outgoing();
    match &out[0] {
        Command::SendMsg(m) => {
            assert_eq!(m.body, "plain");
            assert_eq!(m.formatted_body.as_deref(), Some("<b>rich</b>"));
            assert_eq!(m.format.as_deref(), Some("org.matrix.custom.html"));
        }
        other => panic!("expected SendMsg, got {:?}", other),
    }
}

#[test]
fn messages_before_login_carry_the_empty_identity() {
    let mut bot = ActiveBot::new(None, false);
    bot.send_message("hello", "!room:server", MessageType::TextMessage);
    let out = bot.take_outgoing();
    match &out[0] {
        Command::SendMsg(m) => assert_eq!(m.sender, ""),
        other => panic!("expected SendMsg, got {:?}", other),
    }
}

#[test]
fn leave_room_queues_a_leave_command() {
    let mut bot = ActiveBot::new(Some("@bot:server".to_string()), false);
    bot.leave_room("!room:server");
    assert_eq!(bot.take_outgoing(), vec![Command::LeaveRoom("!room:server".to_string())]);
}

#[test]
fn shutdown_queues_a_shutdown_command() {
    let mut bot = ActiveBot::new(Some("@bot:server".to_string()), false);
    bot.shutdown();
    assert_eq!(bot.take_outgoing(), vec![Command::ShutDown]);
}

#[test]
fn commands_are_queued_in_order_and_taking_them_empties_the_queue() {
    let mut bot = ActiveBot::new(Some("@bot:server".to_string()), false);
    bot.send_message("one", "!a", MessageType::TextMessage);
    bot.leave_room("!a");
    bot.shutdown();
    let out = bot.take_outgoing();
    assert_eq!(out.len(), 3);
    assert!(matches!(out[0], Command::SendMsg(_)));
    assert_eq!(out[1], Command::LeaveRoom("!a".to_string()));
    assert_eq!(out[2], Command::ShutDown);
    assert!(bot.take_outgoing().is_empty());
}
