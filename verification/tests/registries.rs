use chat_core::names::Names;
use chat_core::parse::second_token;
use chat_core::parse::starts_with_lit;
use chat_core::protocol::chat_msg;
use chat_core::protocol::count_to_string;
use chat_core::protocol::greeting;
use chat_core::protocol::joined_msg;
use chat_core::protocol::left_msg;
use chat_core::protocol::name_taken;
use chat_core::protocol::rename_msg;
use chat_core::protocol::rooms_reply;
use chat_core::rooms::Rooms;
use chat_core::shared::adjective;
use chat_core::shared::animal;
use chat_core::shared::random_name;

#[test]
fn claim_release_claim() {
    let mut names = Names::new();
    assert!(names.insert("Zed".to_string()));
    assert!(!names.insert("Zed".to_string()));
    assert!(names.remove("Zed"));
    assert!(!names.remove("Zed"));
    assert!(names.insert("Zed".to_string()));
}

#[test]
fn release_is_idempotent() {
    let mut names = Names::new();
    assert!(!names.remove("nobody"));
    assert!(names.insert("a".to_string()));
    assert!(names.remove("a"));
    assert!(!names.remove("a"));
}

#[test]
fn unique_names_stay_unique() {
    let mut names = Names::new();
    let a = names.get_unique();
    let b = names.get_unique();
    assert_ne!(a, b);
    assert!(!names.insert(a.clone()));
    assert!(!names.insert(b.clone()));
    assert!(names.remove(&a));
    assert!(names.insert(a));
}

#[test]
fn random_name_is_adjective_plus_animal() {
    for _ in 0..8 {
        let n = random_name();
        let mut found = false;
        for i in 0..16 {
            for j in 0..16 {
                if n == format!("{}{}", adjective(i), animal(j)) {
                    found = true;
                }
            }
        }
        assert!(found, "{n} is not a coined name");
    }
}

#[test]
fn fresh_names_are_coined_too() {
    // on an empty registry the first random candidate is always free
    let mut names = Names::new();
    let n = names.get_unique();
    let mut found = false;
    for i in 0..16 {
        for j in 0..16 {
            if n == format!("{}{}", adjective(i), animal(j)) {
                found = true;
            }
        }
    }
    assert!(found, "{n} is not a coined name");
}

#[test]
fn join_counts_and_cleanup() {
    let mut rooms = Rooms::new();
    assert!(rooms.lists().is_empty());
    let _rx1 = rooms.join("main");
    assert_eq!(rooms.lists(), vec![("main".to_string(), 1)]);
    let _rx2 = rooms.join("main");
    assert_eq!(rooms.lists(), vec![("main".to_string(), 2)]);
    rooms.leave("main");
    assert_eq!(rooms.lists(), vec![("main".to_string(), 1)]);
    rooms.leave("main");
    assert!(rooms.lists().is_empty());
    // a later join recreates the room fresh, with one occupant
    let _rx3 = rooms.join("main");
    assert_eq!(rooms.lists(), vec![("main".to_string(), 1)]);
}

#[test]
fn leaving_an_absent_room_is_a_no_op() {
    let mut rooms = Rooms::new();
    rooms.leave("ghost");
    assert!(rooms.lists().is_empty());
    let _rx = rooms.join("main");
    rooms.leave("ghost");
    assert_eq!(rooms.lists(), vec![("main".to_string(), 1)]);
}

#[test]
fn listing_sorts_by_count_then_name() {
    let mut rooms = Rooms::new();
    let _a = rooms.join("lobby");
    let _b = rooms.join("beta");
    let _c = rooms.join("beta");
    let _d = rooms.join("alpha");
    assert_eq!(
        rooms.lists(),
        vec![
            ("beta".to_string(), 2),
            ("alpha".to_string(), 1),
            ("lobby".to_string(), 1),
        ]
    );
}

#[test]
fn change_moves_one_occupant() {
    let mut rooms = Rooms::new();
    let _a = rooms.join("main");
    let _b = rooms.join("main");
    let _moved = rooms.change("main", "lobby");
    assert_eq!(
        rooms.lists(),
        vec![("lobby".to_string(), 1), ("main".to_string(), 1)]
    );
}

#[test]
fn broadcast_reaches_subscribers() {
    let mut rooms = Rooms::new();
    let mut rx = rooms.join("main");
    assert!(rooms.broadcast("main", "hi".to_string()));
    assert_eq!(rx.try_recv().unwrap(), "hi");
    // publishing to an absent room is a legal no-op
    assert!(rooms.broadcast("nowhere", "lost".to_string()));
    assert!(rx.try_recv().is_err());
}

#[test]
fn slow_subscriber_lags_then_recovers() {
    let mut rooms = Rooms::new();
    let mut rx = rooms.join("main");
    for i in 0..40 {
        assert!(rooms.broadcast("main", format!("m{i}")));
    }
    // the topic buffers 32 messages; the 8 oldest were dropped
    match rx.try_recv() {
        Err(tokio::sync::broadcast::error::TryRecvError::Lagged(n)) => assert_eq!(n, 8),
        other => panic!("expected a lag notice, got {other:?}"),
    }
    assert_eq!(rx.try_recv().unwrap(), "m8");
    for _ in 9..40 {
        rx.try_recv().unwrap();
    }
    assert!(rooms.broadcast("main", "tail".to_string()));
    assert_eq!(rx.try_recv().unwrap(), "tail");
}

#[test]
fn second_token_extraction() {
    assert_eq!(second_token("/name Zed"), Some("Zed".to_string()));
    assert_eq!(second_token("/join  lobby  extra"), Some("lobby".to_string()));
    assert_eq!(second_token("  /name\tZed"), Some("Zed".to_string()));
    assert_eq!(second_token("/name"), None);
    assert_eq!(second_token("/name   "), None);
    assert_eq!(second_token(""), None);
}

#[test]
fn prefix_matching() {
    assert!(starts_with_lit("/help me", "/help"));
    assert!(starts_with_lit("/help", "/help"));
    assert!(!starts_with_lit("/hel", "/help"));
    assert!(!starts_with_lit("say /help", "/help"));
}

#[test]
fn message_formats() {
    assert_eq!(chat_msg("Zed", "hello"), "Zed: hello");
    assert_eq!(joined_msg("Zed", "main"), "Zed joined main");
    assert_eq!(left_msg("Zed", "main"), "Zed left main");
    assert_eq!(rename_msg("Old", "Zed"), "Old is now Zed");
    assert_eq!(greeting("Zed"), "You are Zed");
    assert_eq!(name_taken("Zed"), "Zed is already taken");
}

#[test]
fn counts_render_in_decimal() {
    assert_eq!(count_to_string(0), "0");
    assert_eq!(count_to_string(7), "7");
    assert_eq!(count_to_string(42), "42");
    assert_eq!(count_to_string(1203), "1203");
}

#[test]
fn rooms_reply_format() {
    let list = vec![("lobby".to_string(), 1), ("main".to_string(), 1)];
    assert_eq!(rooms_reply(&list), "Rooms - lobby: 1, main: 1");
    let empty: Vec<(String, usize)> = Vec::new();
    assert_eq!(rooms_reply(&empty), "Rooms - ");
    let one = vec![("main".to_string(), 3)];
    assert_eq!(rooms_reply(&one), "Rooms - main: 3");
}
