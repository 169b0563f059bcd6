use protohackers::chat_room::{ChatRoom, RoomReply, RoomRequest};
use protohackers::chat_session::{
    chat_line, entered_announcement, greeting, left_announcement, room_contents,
    validate_username, ChatSession, SessionAction, SessionEvent,
};

#[test]
fn usernames() {
    assert!(validate_username("alice"));
    assert!(validate_username("Bob42"));
    assert!(validate_username("a"));
    assert!(validate_username("abcdefghijklmnop"));
    assert!(!validate_username(""));
    assert!(!validate_username("abcdefghijklmnopq"));
    assert!(!validate_username("bob smith"));
    assert!(!validate_username("bob_"));
    assert!(!validate_username("zoë"));
    assert!(!validate_username("ééééé"));
}

#[test]
fn texts() {
    assert_eq!(greeting(), "Welcome to budgetchat! What shall I call you?");
    assert_eq!(entered_announcement("bob"), "* bob has entered the room");
    assert_eq!(left_announcement("bob"), "* bob has left the room");
    assert_eq!(chat_line("bob", "hi there"), "[bob] hi there");
    assert_eq!(
        room_contents(&vec!["alice".to_string(), "carol".to_string()]),
        "* The room contains: [\"alice\", \"carol\"]"
    );
    assert_eq!(room_contents(&vec![]), "* The room contains: []");
}

fn sends(actions: &[SessionAction]) -> Vec<String> {
    actions
        .iter()
        .filter_map(|a| match a {
            SessionAction::Send(line) => Some(line.clone()),
            _ => None,
        })
        .collect()
}

#[test]
fn session_joins_after_checks() {
    let mut s = ChatSession::new();
    let a = s.step(SessionEvent::Line("bad name".to_string()));
    assert_eq!(
        sends(&a),
        vec!["Please choose a name with between 1-16 characters or numbers. No special symbols or spaces are allowed."]
    );
    let a = s.step(SessionEvent::Line("bob".to_string()));
    assert!(matches!(&a[..], [SessionAction::CheckName(n)] if n == "bob"));
    let a = s.step(SessionEvent::NameAvailability(false));
    assert_eq!(
        sends(&a),
        vec!["This name is already taken. Please choose another name"]
    );
    let a = s.step(SessionEvent::Line("bob2".to_string()));
    assert!(matches!(&a[..], [SessionAction::CheckName(n)] if n == "bob2"));
    let a = s.step(SessionEvent::NameAvailability(true));
    assert!(matches!(&a[..], [SessionAction::ListNames]));
    let a = s.step(SessionEvent::RoomNames(vec!["alice".to_string()]));
    assert_eq!(a.len(), 2);
    assert!(matches!(&a[0], SessionAction::Send(l) if l == "* The room contains: [\"alice\"]"));
    assert!(matches!(&a[1], SessionAction::Join(n) if n == "bob2"));
    let a = s.step(SessionEvent::Line("hello".to_string()));
    assert!(matches!(&a[..], [SessionAction::Broadcast(l)] if l == "[bob2] hello"));
    assert!(!s.is_finished());
    let a = s.step(SessionEvent::Disconnected);
    assert!(matches!(&a[..], [SessionAction::Leave(n)] if n == "bob2"));
    assert!(s.is_finished());
    assert!(s.step(SessionEvent::Line("late".to_string())).is_empty());
}

#[test]
fn session_fails_without_name() {
    let mut s = ChatSession::new();
    let a = s.step(SessionEvent::Disconnected);
    assert!(matches!(&a[..], [SessionAction::Fail]));
    assert!(s.is_finished());
    let mut s = ChatSession::new();
    let a = s.step(SessionEvent::LineError);
    assert!(matches!(&a[..], [SessionAction::Fail]));
}

#[test]
fn session_read_error_does_not_leave() {
    let mut s = ChatSession::new();
    s.step(SessionEvent::Line("carol".to_string()));
    s.step(SessionEvent::NameAvailability(true));
    s.step(SessionEvent::RoomNames(vec![]));
    let a = s.step(SessionEvent::LineError);
    assert!(matches!(&a[..], [SessionAction::Fail]));
}

#[test]
fn unexpected_events_change_nothing() {
    let mut s = ChatSession::new();
    assert!(s.step(SessionEvent::NameAvailability(true)).is_empty());
    assert!(s.step(SessionEvent::RoomNames(vec![])).is_empty());
    s.step(SessionEvent::Line("dave".to_string()));
    assert!(s.step(SessionEvent::Line("again".to_string())).is_empty());
    let a = s.step(SessionEvent::NameAvailability(true));
    assert!(matches!(&a[..], [SessionAction::ListNames]));
}

#[test]
fn room_membership() {
    let mut room = ChatRoom::new();
    assert!(room.name_available(&"bob".to_string()));
    assert!(room.add_client(1, "bob".to_string()));
    assert!(!room.name_available(&"bob".to_string()));
    assert!(room.name_available(&"alice".to_string()));
    assert!(!room.add_client(1, "other".to_string()));
    let mut names = room.list_names();
    names.sort();
    assert_eq!(names, vec!["bob".to_string()]);
    room.cut_client(1);
    assert!(room.broadcast_targets(2).is_empty());
    assert!(room.name_available(&"bob".to_string()));
    assert!(room.list_names().is_empty());
}

#[test]
fn broadcast_skips_sender() {
    let mut room = ChatRoom::new();
    room.add_client(1, "a".to_string());
    room.add_client(2, "b".to_string());
    room.add_client(3, "c".to_string());
    let mut targets = room.broadcast_targets(2);
    targets.sort();
    assert_eq!(targets, vec![1, 3]);
    let mut all = room.broadcast_targets(99);
    all.sort();
    assert_eq!(all, vec![1, 2, 3]);
}

#[test]
fn room_requests() {
    let mut room = ChatRoom::new();
    assert!(matches!(
        room.handle_message(RoomRequest::AddClient { id: 7, username: "x".to_string() }),
        RoomReply::Silent
    ));
    assert!(matches!(
        room.handle_message(RoomRequest::AddClient { id: 7, username: "y".to_string() }),
        RoomReply::Refused
    ));
    assert!(matches!(
        room.handle_message(RoomRequest::CheckName { username: "x".to_string() }),
        RoomReply::NameAvailable(false)
    ));
    match room.handle_message(RoomRequest::ListNames) {
        RoomReply::Names(names) => assert_eq!(names, vec!["x".to_string()]),
        _ => panic!("expected names"),
    }
    room.handle_message(RoomRequest::AddClient { id: 8, username: "z".to_string() });
    match room.handle_message(RoomRequest::Broadcast { message: "hi".to_string(), from: 7 }) {
        RoomReply::Deliver { message, recipients } => {
            assert_eq!(message, "hi");
            assert_eq!(recipients, vec![8]);
        }
        _ => panic!("expected delivery"),
    }
    assert!(matches!(
        room.handle_message(RoomRequest::CutClient { id: 7 }),
        RoomReply::Silent
    ));
    assert!(matches!(
        room.handle_message(RoomRequest::CheckName { username: "x".to_string() }),
        RoomReply::NameAvailable(true)
    ));
}
