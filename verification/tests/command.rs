use async_chat::command::{normalize_room_name, parse_action, Action, CommandError};
use async_chat::text::trim_end;

#[test]
fn empty_line_is_an_empty_message() {
    assert_eq!(parse_action(""), Ok(Action::Message(String::new())));
}

#[test]
fn plain_text_is_a_message_with_the_same_text() {
    assert_eq!(parse_action("hello there"), Ok(Action::Message("hello there".to_string())));
    assert_eq!(parse_action("  /join x"), Ok(Action::Message("  /join x".to_string())));
}

#[test]
fn join_takes_the_second_word() {
    assert_eq!(parse_action("/join lobby"), Ok(Action::Join("lobby".to_string())));
    assert_eq!(parse_action("/join \t lobby extra words"), Ok(Action::Join("lobby".to_string())));
}

#[test]
fn join_without_room_is_a_usage_error() {
    assert_eq!(parse_action("/join"), Err(CommandError::JoinUsage));
    assert_eq!(parse_action("/join   "), Err(CommandError::JoinUsage));
    assert_eq!(CommandError::JoinUsage.message(), "usage: /join <room>");
}

#[test]
fn nick_takes_the_second_word() {
    assert_eq!(parse_action("/nick bob"), Ok(Action::Nick("bob".to_string())));
    assert_eq!(parse_action("/nick bob alice"), Ok(Action::Nick("bob".to_string())));
}

#[test]
fn nick_without_name_is_a_usage_error() {
    assert_eq!(parse_action("/nick"), Err(CommandError::NickUsage));
    assert_eq!(CommandError::NickUsage.message(), "usage: /nick <name>");
}

#[test]
fn rooms_and_quit_ignore_further_words() {
    assert_eq!(parse_action("/rooms"), Ok(Action::Rooms));
    assert_eq!(parse_action("/rooms please"), Ok(Action::Rooms));
    assert_eq!(parse_action("/quit"), Ok(Action::Quit));
    assert_eq!(parse_action("/quit now"), Ok(Action::Quit));
}

#[test]
fn other_commands_are_unknown() {
    assert_eq!(parse_action("/foo"), Err(CommandError::UnknownCommand));
    assert_eq!(parse_action("/"), Err(CommandError::UnknownCommand));
    assert_eq!(parse_action("/JOIN lobby"), Err(CommandError::UnknownCommand));
    assert_eq!(CommandError::UnknownCommand.message(), "unknown command");
}

#[test]
fn empty_command_text() {
    assert_eq!(CommandError::EmptyCommand.message(), "empty command");
}

#[test]
fn unicode_whitespace_separates_words() {
    assert_eq!(parse_action("/join\u{3000}lobby"), Ok(Action::Join("lobby".to_string())));
    assert_eq!(parse_action("/nick\u{00A0}zoë"), Ok(Action::Nick("zoë".to_string())));
}

#[test]
fn normalize_adds_a_missing_hash() {
    assert_eq!(normalize_room_name("lobby"), "#lobby");
    assert_eq!(normalize_room_name("#lobby"), "#lobby");
    assert_eq!(normalize_room_name(""), "#");
    assert_eq!(normalize_room_name("##x"), "##x");
}

#[test]
fn normalize_is_idempotent() {
    for name in ["lobby", "#lobby", "", "#", "a#b"] {
        let once = normalize_room_name(name);
        assert_eq!(normalize_room_name(&once), once);
        assert!(once.starts_with('#'));
    }
}

#[test]
fn trim_end_removes_trailing_whitespace_only() {
    assert_eq!(trim_end("hi  \r\n"), "hi");
    assert_eq!(trim_end("  hi"), "  hi");
    assert_eq!(trim_end("a b"), "a b");
    assert_eq!(trim_end("\u{3000}\u{2028}"), "");
    assert_eq!(trim_end(""), "");
    assert_eq!(trim_end("héllo\u{00A0}"), "héllo");
}

#[test]
fn trim_end_matches_std() {
    for s in ["x \t", "\u{85}y\u{85}", "no trim", " \u{205F}z \u{1680}"] {
        assert_eq!(trim_end(s), s.trim_end());
    }
}

fn words_by_next_word(s: &str) -> Vec<String> {
    let chars: Vec<char> = s.chars().collect();
    let mut words = Vec::new();
    let mut from = 0;
    while let Some((a, b)) = async_chat::text::next_word(s, from) {
        words.push(chars[a..b].iter().collect::<String>());
        from = b;
    }
    words
}

#[test]
fn next_word_splits_as_split_whitespace_does() {
    for s in ["", "   ", "/join  a b", "\u{2003}x\u{2003}y\u{3000}", "one", "tab\tsep\nline"] {
        let expected: Vec<String> = s.split_whitespace().map(|w| w.to_string()).collect();
        assert_eq!(words_by_next_word(s), expected);
    }
}
