use matrix_bot_api::handlers::extract_command;

#[test]
fn extracts_first_token_after_prefix() {
    assert_eq!(extract_command("!roll 6", "!"), Some("roll"));
}

#[test]
fn returns_none_without_prefix() {
    assert_eq!(extract_command("Hi all!", "!"), None);
}

#[test]
fn extracts_command_without_arguments() {
    assert_eq!(extract_command("!echo", "!"), Some("echo"));
}

#[test]
fn body_equal_to_prefix_gives_empty_command() {
    assert_eq!(extract_command("!", "!"), Some(""));
}

#[test]
fn whitespace_right_after_prefix_gives_empty_command() {
    assert_eq!(extract_command("! hello", "!"), Some(""));
}

#[test]
fn supports_longer_prefixes() {
    assert_eq!(extract_command("BOT: shutdown now", "BOT: "), Some("shutdown"));
}

#[test]
fn prefix_longer_than_body_gives_none() {
    assert_eq!(extract_command("!", "!!"), None);
}

#[test]
fn prefix_must_match_exactly() {
    assert_eq!(extract_command("?roll 6", "!"), None);
}

#[test]
fn command_stops_at_any_whitespace() {
    assert_eq!(extract_command("!roll\t6", "!"), Some("roll"));
    assert_eq!(extract_command("!roll\n6", "!"), Some("roll"));
}

#[test]
fn empty_prefix_takes_first_word() {
    assert_eq!(extract_command("hello world", ""), Some("hello"));
}
