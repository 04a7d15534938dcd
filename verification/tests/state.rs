use async_chat::state::{AppMetrics, AppState, ChatEvent};

fn message(room: &str, user: &str, text: &str) -> ChatEvent {
    ChatEvent::Message { room: room.to_string(), user: user.to_string(), text: text.to_string() }
}

fn rendered(events: &[std::sync::Arc<ChatEvent>]) -> Vec<String> {
    events.iter().map(|e| e.render()).collect()
}

#[test]
fn render_formats_every_kind_of_event() {
    assert_eq!(ChatEvent::System { text: "bye".to_string() }.render(), "bye");
    assert_eq!(
        ChatEvent::UserJoined { user: "ann".to_string(), room: "#a".to_string() }.render(),
        "* ann joined #a"
    );
    assert_eq!(
        ChatEvent::UserLeft { user: "ann".to_string(), room: "#a".to_string() }.render(),
        "* ann left #a"
    );
    assert_eq!(
        ChatEvent::NickChanged { old: "ann".to_string(), new: "bea".to_string() }.render(),
        "* ann is now known as bea"
    );
    assert_eq!(message("#a", "ann", "hi there").render(), "[#a] ann > hi there");
}

#[test]
fn metrics_start_at_zero_and_count() {
    let mut m = AppMetrics::default();
    let s = m.snapshot();
    assert_eq!(s.rooms_created, 0);
    assert_eq!(s.connections_closed, 0);
    m.inc_room_created();
    m.add_rooms_deleted(3);
    m.inc_publish();
    m.inc_publish();
    m.inc_publish_send_error();
    m.inc_replay_request();
    m.add_replayed_events(7);
    m.inc_lagged_receive();
    m.inc_connection_opened();
    m.inc_connection_closed();
    let s = m.snapshot();
    assert_eq!(s.rooms_created, 1);
    assert_eq!(s.rooms_deleted, 3);
    assert_eq!(s.publish_total, 2);
    assert_eq!(s.publish_send_errors, 1);
    assert_eq!(s.replay_requests, 1);
    assert_eq!(s.replayed_events, 7);
    assert_eq!(s.lagged_receives, 1);
    assert_eq!(s.connections_opened, 1);
    assert_eq!(s.connections_closed, 1);
}

#[test]
fn metrics_counters_wrap_around() {
    let mut m = AppMetrics::default();
    m.add_rooms_deleted(u64::MAX);
    m.add_rooms_deleted(2);
    assert_eq!(m.snapshot().rooms_deleted, 1);
    m.add_replayed_events(u64::MAX);
    m.add_replayed_events(u64::MAX);
    assert_eq!(m.snapshot().replayed_events, u64::MAX - 1);
}

#[test]
fn new_state_is_empty() {
    let app = AppState::new();
    assert!(app.list_rooms().is_empty());
    let s = app.metrics_snapshot();
    assert_eq!(s.rooms_created, 0);
    assert_eq!(s.publish_total, 0);
}

#[test]
fn a_room_is_created_once() {
    let mut app = AppState::new();
    let _sender = app.get_or_create_room("#general");
    let _again = app.get_or_create_room("#general");
    let _receiver = app.subscribe_room("#general");
    assert_eq!(app.list_rooms(), vec!["#general".to_string()]);
    assert_eq!(app.metrics_snapshot().rooms_created, 1);
}

#[test]
fn list_rooms_names_each_room_once() {
    let mut app = AppState::new();
    for name in ["#a", "#b", "#c", "#b", "#a"] {
        let _ = app.subscribe_room(name);
    }
    let mut rooms = app.list_rooms();
    rooms.sort();
    assert_eq!(rooms, vec!["#a".to_string(), "#b".to_string(), "#c".to_string()]);
    assert_eq!(app.metrics_snapshot().rooms_created, 3);
}

#[test]
fn publish_creates_the_room_and_records_history() {
    let mut app = AppState::new();
    app.publish("#x", message("#x", "ann", "one"));
    assert_eq!(app.list_rooms(), vec!["#x".to_string()]);
    let history = app.get_messages("#x");
    assert_eq!(rendered(&history), vec!["[#x] ann > one".to_string()]);
    let s = app.metrics_snapshot();
    assert_eq!(s.rooms_created, 1);
    assert_eq!(s.publish_total, 1);
    assert_eq!(s.replay_requests, 1);
    assert_eq!(s.replayed_events, 1);
}

#[test]
fn publish_without_receivers_counts_a_send_error() {
    let mut app = AppState::new();
    app.publish("#quiet", message("#quiet", "ann", "anyone?"));
    assert_eq!(app.metrics_snapshot().publish_send_errors, 1);
}

#[test]
fn publish_reaches_subscribers() {
    let mut app = AppState::new();
    let mut receiver = app.subscribe_room("#x");
    app.publish("#x", message("#x", "ann", "hello"));
    let got = receiver.receiver.try_recv().expect("the event is delivered");
    assert_eq!(got.render(), "[#x] ann > hello");
    assert_eq!(app.metrics_snapshot().publish_send_errors, 0);
}

#[test]
fn history_keeps_the_last_twenty_events_in_order() {
    let mut app = AppState::new();
    for i in 0..25 {
        app.publish("#x", message("#x", "ann", &format!("m{i}")));
    }
    let history = rendered(&app.get_messages("#x"));
    let expected: Vec<String> = (5..25).map(|i| format!("[#x] ann > m{i}")).collect();
    assert_eq!(history, expected);
    assert_eq!(app.metrics_snapshot().replayed_events, 20);
}

#[test]
fn history_shorter_than_the_limit_is_kept_whole() {
    let mut app = AppState::new();
    for i in 0..3 {
        app.publish("#x", message("#x", "ann", &format!("m{i}")));
    }
    assert_eq!(app.get_messages("#x").len(), 3);
}

#[test]
fn replay_of_a_missing_room_is_empty_and_creates_nothing() {
    let mut app = AppState::new();
    assert!(app.get_messages("#nowhere").is_empty());
    assert!(app.list_rooms().is_empty());
    let s = app.metrics_snapshot();
    assert_eq!(s.replay_requests, 1);
    assert_eq!(s.replayed_events, 0);
    assert_eq!(s.rooms_created, 0);
}

#[test]
fn publish_to_all_rooms_reaches_every_room() {
    let mut app = AppState::new();
    let _ = app.subscribe_room("#a");
    let _ = app.subscribe_room("#b");
    let mut receiver = app.subscribe_room("#c");
    app.publish_to_all_rooms(ChatEvent::System { text: "Server shutting down...".to_string() });
    for room in ["#a", "#b", "#c"] {
        assert_eq!(rendered(&app.get_messages(room)), vec!["Server shutting down...".to_string()]);
    }
    assert_eq!(receiver.receiver.try_recv().unwrap().render(), "Server shutting down...");
    let s = app.metrics_snapshot();
    assert_eq!(s.publish_total, 3);
    assert_eq!(s.publish_send_errors, 2);
}

#[test]
fn gc_removes_idle_rooms_but_never_general() {
    let mut app = AppState::new();
    let _ = app.get_or_create_room("#general");
    let _ = app.get_or_create_room("#idle");
    let _kept = app.subscribe_room("#busy");
    let removed = app.gc_empty_rooms();
    assert_eq!(removed, vec!["#idle".to_string()]);
    let mut rooms = app.list_rooms();
    rooms.sort();
    assert_eq!(rooms, vec!["#busy".to_string(), "#general".to_string()]);
    assert_eq!(app.metrics_snapshot().rooms_deleted, 1);
}

#[test]
fn gc_collects_a_room_once_its_receivers_are_gone() {
    let mut app = AppState::new();
    let receiver = app.subscribe_room("#x");
    assert!(app.gc_empty_rooms().is_empty());
    drop(receiver);
    assert_eq!(app.gc_empty_rooms(), vec!["#x".to_string()]);
    assert!(app.list_rooms().is_empty());
}

#[test]
fn connection_and_lag_counters() {
    let mut app = AppState::new();
    app.record_connection_opened();
    app.record_connection_opened();
    app.record_connection_closed();
    app.record_lagged_receive();
    let s = app.metrics_snapshot();
    assert_eq!(s.connections_opened, 2);
    assert_eq!(s.connections_closed, 1);
    assert_eq!(s.lagged_receives, 1);
}

#[test]
fn members_receive_their_rooms_events_in_order_and_no_other() {
    let mut app = AppState::new();
    let mut in_a = app.subscribe_room("#a");
    let mut in_b = app.subscribe_room("#b");
    app.publish("#a", message("#a", "ann", "one"));
    app.publish("#b", message("#b", "bob", "other"));
    app.publish("#a", message("#a", "ann", "two"));
    assert_eq!(in_a.receiver.try_recv().unwrap().render(), "[#a] ann > one");
    assert_eq!(in_a.receiver.try_recv().unwrap().render(), "[#a] ann > two");
    assert!(in_a.receiver.try_recv().is_err());
    assert_eq!(in_b.receiver.try_recv().unwrap().render(), "[#b] bob > other");
    assert!(in_b.receiver.try_recv().is_err());
}

#[test]
fn get_or_create_room_hands_out_the_rooms_channel() {
    let mut app = AppState::new();
    let sender = app.get_or_create_room("#a");
    let again = app.get_or_create_room("#a");
    let mut receiver = app.subscribe_room("#a");
    sender.sender.send(std::sync::Arc::new(ChatEvent::System { text: "via first".to_string() })).unwrap();
    again.sender.send(std::sync::Arc::new(ChatEvent::System { text: "via second".to_string() })).unwrap();
    assert_eq!(receiver.receiver.try_recv().unwrap().render(), "via first");
    assert_eq!(receiver.receiver.try_recv().unwrap().render(), "via second");
    assert_eq!(app.metrics_snapshot().rooms_created, 1);
}

#[test]
fn a_second_collection_without_receiver_changes_removes_nothing() {
    let mut app = AppState::new();
    let _ = app.get_or_create_room("#general");
    let _ = app.get_or_create_room("#idle");
    let _busy = app.subscribe_room("#busy");
    assert_eq!(app.gc_empty_rooms(), vec!["#idle".to_string()]);
    assert!(app.gc_empty_rooms().is_empty());
    let mut rooms = app.list_rooms();
    rooms.sort();
    assert_eq!(rooms, vec!["#busy".to_string(), "#general".to_string()]);
    assert_eq!(app.metrics_snapshot().rooms_deleted, 1);
}

#[test]
fn send_errors_follow_each_sends_outcome() {
    let mut app = AppState::new();
    let receiver = app.subscribe_room("#x");
    app.publish("#x", message("#x", "ann", "heard"));
    assert_eq!(app.metrics_snapshot().publish_send_errors, 0);
    drop(receiver);
    app.publish("#x", message("#x", "ann", "unheard"));
    let s = app.metrics_snapshot();
    assert_eq!(s.publish_total, 2);
    assert_eq!(s.publish_send_errors, 1);
}

#[test]
fn publish_to_no_room_counts_nothing() {
    let mut app = AppState::new();
    app.publish_to_all_rooms(ChatEvent::System { text: "bye".to_string() });
    let s = app.metrics_snapshot();
    assert_eq!(s.publish_total, 0);
    assert_eq!(s.publish_send_errors, 0);
    assert!(app.list_rooms().is_empty());
}
