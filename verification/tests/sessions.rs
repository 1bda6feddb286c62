use chat_core::names::Names;
use chat_core::rooms::Rooms;
use chat_core::session::connect;
use chat_core::session::disconnect;
use chat_core::session::process_peer_msg;
use chat_core::session::process_user_msg;
use chat_core::session::Outcome;
use chat_core::session::PeerEvent;
use chat_core::session::Session;
use chat_core::session::UserEvent;

fn line(s: &str) -> UserEvent {
    UserEvent::Line(s.to_string())
}

/// Performs an outcome's publishes as the connection loop would.
fn publish_all(rooms: &Rooms, out: &Outcome) {
    for (room, msg) in out.publishes.iter() {
        assert!(rooms.broadcast(room, msg.clone()));
    }
}

#[test]
fn two_clients_get_distinct_names_in_main() {
    let mut names = Names::new();
    let mut rooms = Rooms::new();
    let (a, out_a) = connect(&mut names, &mut rooms);
    let (b, out_b) = connect(&mut names, &mut rooms);
    assert_ne!(a.name, b.name);
    assert_eq!(a.room, "main");
    assert_eq!(b.room, "main");
    assert_eq!(out_a.replies, vec![format!("You are {}", a.name)]);
    assert_eq!(out_b.replies, vec![format!("You are {}", b.name)]);
    assert_eq!(
        out_b.publishes,
        vec![("main".to_string(), format!("{} joined main", b.name))]
    );
    assert_eq!(rooms.lists(), vec![("main".to_string(), 2)]);
}

#[test]
fn chat_reaches_roommates_only() {
    let mut names = Names::new();
    let mut rooms = Rooms::new();
    let (mut a, _) = connect(&mut names, &mut rooms);
    let (mut b, _) = connect(&mut names, &mut rooms);
    let mut c = Session {
        name: names.get_unique(),
        room: "lobby".to_string(),
        rx: rooms.join("lobby"),
    };
    let out = process_user_msg(&mut a, &mut names, &mut rooms, line("hello"));
    assert!(!out.quit);
    assert!(out.replies.is_empty());
    assert_eq!(
        out.publishes,
        vec![("main".to_string(), format!("{}: hello", a.name))]
    );
    publish_all(&rooms, &out);
    assert_eq!(b.rx.try_recv().unwrap(), format!("{}: hello", a.name));
    assert!(c.rx.try_recv().is_err());
}

#[test]
fn rename_succeeds_when_free() {
    let mut names = Names::new();
    let mut rooms = Rooms::new();
    let (mut a, _) = connect(&mut names, &mut rooms);
    let (mut b, _) = connect(&mut names, &mut rooms);
    let old_name = a.name.clone();
    let out = process_user_msg(&mut a, &mut names, &mut rooms, line("/name Zed"));
    assert!(!out.quit);
    assert!(out.replies.is_empty());
    assert_eq!(
        out.publishes,
        vec![("main".to_string(), format!("{old_name} is now Zed"))]
    );
    assert_eq!(a.name, "Zed");
    publish_all(&rooms, &out);
    assert_eq!(b.rx.try_recv().unwrap(), format!("{old_name} is now Zed"));
    // the old name is immediately reusable, the new one is taken
    assert!(names.insert(old_name));
    assert!(!names.insert("Zed".to_string()));
    // later chat lines carry the new name
    let out = process_user_msg(&mut a, &mut names, &mut rooms, line("hi"));
    assert_eq!(out.publishes, vec![("main".to_string(), "Zed: hi".to_string())]);
}

#[test]
fn rename_to_taken_name_changes_nothing() {
    let mut names = Names::new();
    let mut rooms = Rooms::new();
    let (mut a, _) = connect(&mut names, &mut rooms);
    let (b, _) = connect(&mut names, &mut rooms);
    let old_name = a.name.clone();
    let taken = b.name.clone();
    let out = process_user_msg(&mut a, &mut names, &mut rooms, UserEvent::Line(format!("/name {taken}")));
    assert!(!out.quit);
    assert!(out.publishes.is_empty());
    assert_eq!(out.replies, vec![format!("{taken} is already taken")]);
    assert_eq!(a.name, old_name);
    assert!(!names.insert(old_name));
}

#[test]
fn rename_without_argument_is_reported() {
    let mut names = Names::new();
    let mut rooms = Rooms::new();
    let (mut a, _) = connect(&mut names, &mut rooms);
    let out = process_user_msg(&mut a, &mut names, &mut rooms, line("/name"));
    assert!(!out.quit);
    assert!(out.publishes.is_empty());
    assert_eq!(out.replies, vec!["Usage: /name <newName>".to_string()]);
}

#[test]
fn join_without_argument_is_reported() {
    let mut names = Names::new();
    let mut rooms = Rooms::new();
    let (mut a, _) = connect(&mut names, &mut rooms);
    let out = process_user_msg(&mut a, &mut names, &mut rooms, line("/join"));
    assert!(!out.quit);
    assert!(out.publishes.is_empty());
    assert_eq!(out.replies, vec!["Usage: /join <roomName>".to_string()]);
}

#[test]
fn join_current_room_is_a_no_op() {
    let mut names = Names::new();
    let mut rooms = Rooms::new();
    let (mut a, _) = connect(&mut names, &mut rooms);
    let out = process_user_msg(&mut a, &mut names, &mut rooms, line("/join main"));
    assert!(!out.quit);
    assert!(out.publishes.is_empty());
    assert_eq!(out.replies, vec!["You are in main".to_string()]);
    assert_eq!(a.room, "main");
    assert_eq!(rooms.lists(), vec![("main".to_string(), 1)]);
}

#[test]
fn join_moves_rooms_and_announces() {
    let mut names = Names::new();
    let mut rooms = Rooms::new();
    let (mut a, _) = connect(&mut names, &mut rooms);
    let (b, _) = connect(&mut names, &mut rooms);
    let out = process_user_msg(&mut a, &mut names, &mut rooms, line("/join lobby"));
    assert!(!out.quit);
    assert!(out.replies.is_empty());
    assert_eq!(
        out.publishes,
        vec![
            ("main".to_string(), format!("{} left main", a.name)),
            ("lobby".to_string(), format!("{} joined lobby", a.name)),
        ]
    );
    assert_eq!(a.room, "lobby");
    assert_eq!(
        rooms.lists(),
        vec![("lobby".to_string(), 1), ("main".to_string(), 1)]
    );
    drop(b);
}

#[test]
fn emptied_room_vanishes_from_listing() {
    let mut names = Names::new();
    let mut rooms = Rooms::new();
    let (mut a, _) = connect(&mut names, &mut rooms);
    let out = process_user_msg(&mut a, &mut names, &mut rooms, line("/join lobby"));
    publish_all(&rooms, &out);
    assert_eq!(rooms.lists(), vec![("lobby".to_string(), 1)]);
    let out = process_user_msg(&mut a, &mut names, &mut rooms, line("/rooms"));
    assert_eq!(out.replies, vec!["Rooms - lobby: 1".to_string()]);
}

#[test]
fn rooms_listing_reply() {
    let mut names = Names::new();
    let mut rooms = Rooms::new();
    let (mut a, _) = connect(&mut names, &mut rooms);
    let (_b, _) = connect(&mut names, &mut rooms);
    let _ = process_user_msg(&mut a, &mut names, &mut rooms, line("/join lobby"));
    let out = process_user_msg(&mut a, &mut names, &mut rooms, line("/rooms"));
    assert!(!out.quit);
    assert!(out.publishes.is_empty());
    assert_eq!(out.replies, vec!["Rooms - lobby: 1, main: 1".to_string()]);
}

#[test]
fn help_is_replied_to_the_client_only() {
    let mut names = Names::new();
    let mut rooms = Rooms::new();
    let (mut a, _) = connect(&mut names, &mut rooms);
    let out = process_user_msg(&mut a, &mut names, &mut rooms, line("/help"));
    assert!(!out.quit);
    assert!(out.publishes.is_empty());
    assert_eq!(out.replies.len(), 1);
    assert!(out.replies[0].contains("/join"));
    assert!(out.replies[0].contains("/name"));
}

#[test]
fn quit_and_stream_end_stop_the_session() {
    let mut names = Names::new();
    let mut rooms = Rooms::new();
    let (mut a, _) = connect(&mut names, &mut rooms);
    let out = process_user_msg(&mut a, &mut names, &mut rooms, line("/quit"));
    assert!(out.quit);
    assert!(out.replies.is_empty() && out.publishes.is_empty());
    let out = process_user_msg(&mut a, &mut names, &mut rooms, UserEvent::Closed);
    assert!(out.quit);
    let out = process_user_msg(&mut a, &mut names, &mut rooms, UserEvent::ReadFailed);
    assert!(out.quit);
}

#[test]
fn disconnect_frees_name_and_room() {
    let mut names = Names::new();
    let mut rooms = Rooms::new();
    let (a, _) = connect(&mut names, &mut rooms);
    let (mut b, _) = connect(&mut names, &mut rooms);
    let gone = a.name.clone();
    let out = disconnect(a, &mut names, &mut rooms);
    assert!(out.quit);
    assert!(out.replies.is_empty());
    assert_eq!(
        out.publishes,
        vec![("main".to_string(), format!("{gone} left main"))]
    );
    publish_all(&rooms, &out);
    assert_eq!(b.rx.try_recv().unwrap(), format!("{gone} left main"));
    assert!(names.insert(gone));
    assert_eq!(rooms.lists(), vec![("main".to_string(), 1)]);
}

#[test]
fn lag_never_ends_the_session() {
    assert_eq!(process_peer_msg(PeerEvent::Lagged), None);
    assert_eq!(process_peer_msg(PeerEvent::Closed), None);
    assert_eq!(
        process_peer_msg(PeerEvent::Message("hi".to_string())),
        Some("hi".to_string())
    );
}
