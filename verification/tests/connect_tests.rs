use chatroom::controller::connect::{
    classify, connect, frame_action, join, leave, on_frame, Frame, FrameAction, MessageType, Session,
};
use chatroom::controller::HandleError;
use chatroom::room::RoomMessage;

fn session() -> Session {
    Session { name: "alice".to_string(), identity_token: "id1".to_string(), room_token: "r1".to_string() }
}

fn notice(text: &str, kind: u64) -> String {
    let mut m = serde_json::Map::new();
    m.insert("type".to_string(), serde_json::Value::from(kind));
    m.insert("message".to_string(), serde_json::Value::String(text.to_string()));
    serde_json::Value::Object(m).to_string()
}

fn expect_receive(m: &RoomMessage, text: &str) {
    match m {
        RoomMessage::Receive(t, r, i) => {
            assert_eq!(t, text);
            assert_eq!(r, "r1");
            assert_eq!(i, "id1");
        }
        _ => panic!("expected a Receive"),
    }
}

fn expect_close(m: &RoomMessage) {
    match m {
        RoomMessage::Close(r, i) => {
            assert_eq!(r, "r1");
            assert_eq!(i, "id1");
        }
        _ => panic!("expected a Close"),
    }
}

#[test]
fn connect_needs_person_and_room_service() {
    let ok = || Ok(("alice".to_string(), "id1".to_string(), "r1".to_string()));
    let s = connect(ok(), true).unwrap();
    assert_eq!((s.name.as_str(), s.identity_token.as_str(), s.room_token.as_str()), ("alice", "id1", "r1"));
    assert!(connect(ok(), false).is_none());
    let refused: HandleError<true> = HandleError::new("authorization is not passed".to_string(), 404);
    assert!(connect(Err(refused), true).is_none());
}

#[test]
fn join_opens_then_announces() {
    let (open, said) = join(&session(), 42);
    match open {
        RoomMessage::Open(c, r, i) => {
            assert_eq!(c, 42);
            assert_eq!(r, "r1");
            assert_eq!(i, "id1");
        }
        _ => panic!("expected an Open"),
    }
    expect_receive(&said, &notice("alice 加入了聊天室", 1));
}

#[test]
fn leave_closes_then_announces() {
    let (close, said) = leave(&session());
    expect_close(&close);
    expect_receive(&said, &notice("alice 退出了聊天室", 3));
}

#[test]
fn classify_reads_the_type_member() {
    assert_eq!(classify("{\"type\":1,\"message\":\"hi\"}"), MessageType::Number(1));
    assert_eq!(classify("{\"type\":4}"), MessageType::Number(4));
    assert_eq!(classify("{\"type\":\"x\"}"), MessageType::NotANumber);
    assert_eq!(classify("{\"type\":-1}"), MessageType::NotANumber);
    assert_eq!(classify("{\"message\":1}"), MessageType::Untyped);
    assert_eq!(classify("[1,2]"), MessageType::Untyped);
    assert_eq!(classify("not json"), MessageType::NotJson);
    assert_eq!(classify("{\"type\": 3, \"type2\": 9}"), MessageType::Number(3));
    assert_eq!(classify("{\"type\":1.5}"), MessageType::NotANumber);
    assert_eq!(classify("{\"type\":null}"), MessageType::NotANumber);
}

#[test]
fn chat_messages_are_stored_and_forwarded() {
    let text = "{\"type\":2,\"message\":\"hello\"}";
    match on_frame(&session(), Frame::Text(text.to_string())) {
        FrameAction::StoreAndForward(rec, fwd) => {
            assert_eq!(rec.identity_token, "id1");
            assert_eq!(rec.owner_name, "alice");
            assert_eq!(rec.room_token, "r1");
            assert_eq!(rec.message, text);
            expect_receive(&fwd, text);
        }
        _ => panic!("expected the message to be stored"),
    }
}

#[test]
fn control_and_malformed_messages_are_skipped() {
    for t in ["{\"type\":4}", "{\"type\":\"x\"}", "{\"x\":1}", "hello", "{\"type\":1", "[{\"type\":1}]"] {
        match on_frame(&session(), Frame::Text(t.to_string())) {
            FrameAction::Skip => {}
            _ => panic!("expected {} to be skipped", t),
        }
    }
    match on_frame(&session(), Frame::Other) {
        FrameAction::Skip => {}
        _ => panic!("expected a non-text frame to be skipped"),
    }
}

#[test]
fn failed_read_leaves_the_room() {
    match on_frame(&session(), Frame::Failed) {
        FrameAction::Leave(a, b) => {
            expect_close(&a);
            expect_receive(&b, &notice("alice 退出了聊天室", 3));
        }
        _ => panic!("expected a leave"),
    }
}

#[test]
fn frame_action_follows_the_type() {
    match frame_action(&session(), Frame::Text("t".to_string()), MessageType::Number(0)) {
        FrameAction::StoreAndForward(rec, _) => assert_eq!(rec.message, "t"),
        _ => panic!("expected the message to be stored"),
    }
    for k in [MessageType::Number(4), MessageType::NotANumber, MessageType::Untyped, MessageType::NotJson] {
        match frame_action(&session(), Frame::Text("t".to_string()), k) {
            FrameAction::Skip => {}
            _ => panic!("expected a skip"),
        }
    }
}
