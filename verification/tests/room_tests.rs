use chatroom::room::{RoomEffect, RoomMessage, RoomRegistry};

fn open(reg: &mut RoomRegistry, conn: u64, room: &str, id: &str) -> Option<u64> {
    reg.open(conn, room.to_string(), id.to_string())
}

#[test]
fn new_registry_has_no_recipients() {
    let reg = RoomRegistry::new();
    assert!(reg.recipients("r", "a").is_empty());
}

#[test]
fn message_reaches_other_members_in_identity_order() {
    let mut reg = RoomRegistry::new();
    assert_eq!(open(&mut reg, 1, "r", "carol"), None);
    assert_eq!(open(&mut reg, 2, "r", "alice"), None);
    assert_eq!(open(&mut reg, 3, "r", "bob"), None);
    assert_eq!(open(&mut reg, 4, "other", "dave"), None);
    assert_eq!(reg.recipients("r", "bob"), vec![2, 1]);
    assert_eq!(reg.recipients("r", "zed"), vec![2, 3, 1]);
    assert_eq!(reg.recipients("other", "x"), vec![4]);
    assert_eq!(reg.recipients("other", "dave"), Vec::<u64>::new());
    assert!(reg.recipients("nowhere", "bob").is_empty());
}

#[test]
fn rejoining_replaces_the_connection() {
    let mut reg = RoomRegistry::new();
    assert_eq!(open(&mut reg, 1, "r", "alice"), None);
    assert_eq!(open(&mut reg, 7, "r", "alice"), Some(1));
    assert_eq!(reg.recipients("r", "bob"), vec![7]);
}

#[test]
fn leaving_removes_only_that_member() {
    let mut reg = RoomRegistry::new();
    open(&mut reg, 1, "r", "alice");
    open(&mut reg, 2, "r", "bob");
    assert_eq!(reg.close("r", "alice"), Some(1));
    assert_eq!(reg.recipients("r", "x"), vec![2]);
    assert_eq!(reg.close("r", "alice"), None);
    assert_eq!(reg.close("nowhere", "bob"), None);
    assert_eq!(reg.close("r", "bob"), Some(2));
    assert!(reg.recipients("r", "x").is_empty());
    // the room stays open for later joins
    open(&mut reg, 3, "r", "carol");
    assert_eq!(reg.recipients("r", "x"), vec![3]);
}

#[test]
fn handle_applies_room_messages() {
    let mut reg = RoomRegistry::new();
    match reg.handle(RoomMessage::Open(10, "r".to_string(), "a".to_string())) {
        RoomEffect::Release(None) => {}
        _ => panic!("expected nothing released"),
    }
    match reg.handle(RoomMessage::Open(11, "r".to_string(), "b".to_string())) {
        RoomEffect::Release(None) => {}
        _ => panic!("expected nothing released"),
    }
    match reg.handle(RoomMessage::Receive("hi".to_string(), "r".to_string(), "a".to_string())) {
        RoomEffect::Deliver(t, conns) => {
            assert_eq!(t, "hi");
            assert_eq!(conns, vec![11]);
        }
        _ => panic!("expected a delivery"),
    }
    match reg.handle(RoomMessage::Receive("hi".to_string(), "missing".to_string(), "a".to_string())) {
        RoomEffect::Deliver(_, conns) => assert!(conns.is_empty()),
        _ => panic!("expected a delivery"),
    }
    match reg.handle(RoomMessage::Close("r".to_string(), "b".to_string())) {
        RoomEffect::Release(Some(11)) => {}
        _ => panic!("expected 11 released"),
    }
    match reg.handle(RoomMessage::Receive("bye".to_string(), "r".to_string(), "x".to_string())) {
        RoomEffect::Deliver(_, conns) => assert_eq!(conns, vec![10]),
        _ => panic!("expected a delivery"),
    }
}

#[test]
fn join_then_leave_restores_the_room() {
    let mut reg = RoomRegistry::new();
    open(&mut reg, 1, "r", "alice");
    open(&mut reg, 2, "r", "carol");
    open(&mut reg, 3, "r", "bob");
    reg.close("r", "bob");
    assert_eq!(reg.recipients("r", "x"), vec![1, 2]);
}
