use async_chat::session::{
    announce_join, announce_leave, connect_user, handle_connection_lost, handle_line, note_lagged,
    replay_room_history, rooms_text,
};
use async_chat::state::{AppState, ChatEvent, LocalUserState};

fn setup() -> (AppState, LocalUserState) {
    let mut app = AppState::new();
    let user = connect_user(&mut app, "127.0.0.1".to_string());
    (app, user)
}

#[test]
fn a_new_user_is_in_general_named_after_its_address() {
    let (app, user) = setup();
    assert_eq!(user.room, "#general");
    assert_eq!(user.name, "127.0.0.1");
    assert_eq!(app.list_rooms(), vec!["#general".to_string()]);
}

#[test]
fn new_with_addr_and_update_name() {
    let mut app = AppState::new();
    let receiver = app.subscribe_room("#general");
    let mut user = LocalUserState::new_with_addr("10.0.0.7".to_string(), receiver);
    assert_eq!(user.room, "#general");
    assert_eq!(user.name, "10.0.0.7");
    user.update_name("ann".to_string());
    assert_eq!(user.name, "ann");
    assert_eq!(user.room, "#general");
}

#[test]
fn join_room_moves_the_user_and_its_receiver() {
    let (mut app, mut user) = setup();
    user.join_room(&mut app, "#side");
    assert_eq!(user.room, "#side");
    app.publish("#side", ChatEvent::System { text: "ping".to_string() });
    assert_eq!(user.room_receiver.receiver.try_recv().unwrap().render(), "ping");
}

#[test]
fn announcements_are_published_to_the_users_room() {
    let (mut app, user) = setup();
    announce_join(&user, &mut app);
    announce_leave(&user, &mut app);
    let lines = replay_room_history(&mut app, "#general");
    assert_eq!(lines, vec!["* 127.0.0.1 joined #general".to_string(), "* 127.0.0.1 left #general".to_string()]);
}

#[test]
fn a_message_line_is_published() {
    let (mut app, mut user) = setup();
    let out = handle_line(&mut user, &mut app, "hello all\n");
    assert!(out.replies.is_empty());
    assert!(!out.close);
    assert!(!out.announce_join);
    assert_eq!(replay_room_history(&mut app, "#general"), vec!["[#general] 127.0.0.1 > hello all".to_string()]);
}

#[test]
fn an_empty_line_publishes_nothing() {
    let (mut app, mut user) = setup();
    let out = handle_line(&mut user, &mut app, "   \n");
    assert!(out.replies.is_empty());
    assert_eq!(app.metrics_snapshot().publish_total, 0);
}

#[test]
fn nick_renames_and_announces() {
    let (mut app, mut user) = setup();
    let out = handle_line(&mut user, &mut app, "/nick ann\r\n");
    assert!(out.replies.is_empty());
    assert_eq!(user.name, "ann");
    assert_eq!(replay_room_history(&mut app, "#general"), vec!["* 127.0.0.1 is now known as ann".to_string()]);
}

#[test]
fn join_leaves_enters_and_replays() {
    let (mut app, mut user) = setup();
    app.publish("#side", ChatEvent::System { text: "earlier".to_string() });
    let out = handle_line(&mut user, &mut app, "/join side\n");
    assert_eq!(user.room, "#side");
    assert!(out.announce_join);
    assert!(!out.close);
    assert_eq!(out.replies, vec!["earlier".to_string()]);
    assert_eq!(replay_room_history(&mut app, "#general"), vec!["* 127.0.0.1 left #general".to_string()]);
    announce_join(&user, &mut app);
    assert_eq!(
        replay_room_history(&mut app, "#side"),
        vec!["earlier".to_string(), "* 127.0.0.1 joined #side".to_string()]
    );
}

#[test]
fn rooms_lists_every_room() {
    let (mut app, mut user) = setup();
    let out = handle_line(&mut user, &mut app, "/rooms");
    assert_eq!(out.replies, vec!["rooms: #general".to_string()]);
}

#[test]
fn rooms_text_joins_names() {
    assert_eq!(rooms_text(&vec![]), "rooms: (none)");
    assert_eq!(rooms_text(&vec!["#a".to_string()]), "rooms: #a");
    assert_eq!(rooms_text(&vec!["#a".to_string(), "#b".to_string(), "#c".to_string()]), "rooms: #a, #b, #c");
}

#[test]
fn quit_announces_and_closes() {
    let (mut app, mut user) = setup();
    let out = handle_line(&mut user, &mut app, "/quit\n");
    assert!(out.close);
    assert_eq!(replay_room_history(&mut app, "#general"), vec!["* 127.0.0.1 left #general".to_string()]);
}

#[test]
fn a_bad_command_is_answered_with_an_error() {
    let (mut app, mut user) = setup();
    let out = handle_line(&mut user, &mut app, "/dance");
    assert_eq!(out.replies, vec!["error: unknown command".to_string()]);
    let out = handle_line(&mut user, &mut app, "/join");
    assert_eq!(out.replies, vec!["error: usage: /join <room>".to_string()]);
    let out = handle_line(&mut user, &mut app, "/nick  ");
    assert_eq!(out.replies, vec!["error: usage: /nick <name>".to_string()]);
    assert_eq!(app.metrics_snapshot().publish_total, 0);
}

#[test]
fn lagging_is_counted_and_noticed() {
    let mut app = AppState::new();
    assert_eq!(note_lagged(&mut app), "(missed some messages)");
    assert_eq!(app.metrics_snapshot().lagged_receives, 1);
}

#[test]
fn end_of_input_announces_and_closes() {
    let (mut app, user) = setup();
    let out = async_chat::session::handle_input_end(&user, &mut app);
    assert!(out.close);
    assert!(out.replies.is_empty());
    assert_eq!(replay_room_history(&mut app, "#general"), vec!["* 127.0.0.1 left #general".to_string()]);
}

#[test]
fn a_members_line_reaches_the_other_members() {
    let mut app = AppState::new();
    let mut sender_user = connect_user(&mut app, "10.0.0.1".to_string());
    let mut receiver_user = connect_user(&mut app, "10.0.0.2".to_string());
    handle_line(&mut sender_user, &mut app, "/nick sender\n");
    handle_line(&mut receiver_user, &mut app, "/nick receiver\n");
    handle_line(&mut sender_user, &mut app, "P99-LAT-1-0\n");
    let mut seen = Vec::new();
    while let Ok(event) = receiver_user.room_receiver.receiver.try_recv() {
        seen.push(event.render());
    }
    assert!(seen.contains(&"* 10.0.0.1 is now known as sender".to_string()));
    assert!(seen.contains(&"* 10.0.0.2 is now known as receiver".to_string()));
    assert_eq!(seen.last().unwrap(), "[#general] sender > P99-LAT-1-0");
}

#[test]
fn after_join_the_user_hears_only_the_new_room() {
    let (mut app, mut user) = setup();
    handle_line(&mut user, &mut app, "/join side\n");
    app.publish("#general", ChatEvent::System { text: "general only".to_string() });
    app.publish("#side", ChatEvent::System { text: "side only".to_string() });
    assert_eq!(user.room_receiver.receiver.try_recv().unwrap().render(), "side only");
    assert!(user.room_receiver.receiver.try_recv().is_err());
}

#[test]
fn rejoining_the_same_room_does_not_replay_the_leave_notice_live() {
    let (mut app, mut user) = setup();
    let out = handle_line(&mut user, &mut app, "/join general\n");
    assert_eq!(user.room, "#general");
    assert_eq!(out.replies, vec!["* 127.0.0.1 left #general".to_string()]);
    assert!(user.room_receiver.receiver.try_recv().is_err());
}

#[test]
fn a_lost_connection_closes_quietly() {
    let (mut app, _user) = setup();
    let before = app.metrics_snapshot();
    let out = handle_connection_lost();
    assert!(out.replies.is_empty());
    assert!(!out.announce_join);
    assert!(out.close);
    assert!(app.get_messages("#general").is_empty());
    assert_eq!(app.metrics_snapshot().publish_total, before.publish_total);
}
