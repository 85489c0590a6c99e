use chatroom::controller::login::{login, login_step, LoginAction, LoginEvent, LoginState, SignOutcome};

fn start() -> LoginState {
    let (s, a) = login(Some("alice".to_string()), Some("secret".to_string()), Some("room1".to_string()));
    match a {
        LoginAction::CountRooms(r) => assert_eq!(r, "room1"),
        _ => panic!("expected the rooms to be counted"),
    }
    s
}

fn expect_fail(a: LoginAction, msg: &str) {
    match a {
        LoginAction::Fail(e) => {
            assert_eq!(e.0, msg);
            assert_eq!(e.1, 400);
        }
        _ => panic!("expected a failure"),
    }
}

fn signing(participants: u64) -> LoginState {
    let (s, a) = login_step(start(), LoginEvent::RoomCount(1));
    match a {
        LoginAction::CountParticipants { name, room_token, pass_md5 } => {
            assert_eq!(name, "alice");
            assert_eq!(room_token, "room1");
            assert_eq!(pass_md5, "5ebe2294ecd0e0f08eab7690d2a6ee69");
        }
        _ => panic!("expected the participants to be counted"),
    }
    let (s, a) = login_step(s, LoginEvent::ParticipantCount(participants, 1700000000));
    match a {
        LoginAction::Sign(c) => {
            assert_eq!(c.name, "alice");
            assert_eq!(c.room_token, "room1");
            assert_eq!(c.identity_token, "4ab0ef1b7bf624b2973107b0974bd087");
            assert_eq!(c.exp, 1700086400);
        }
        _ => panic!("expected the token to be signed"),
    }
    s
}

#[test]
fn missing_form_fields_fail_in_order() {
    let (_, a) = login(None, None, None);
    expect_fail(a, "name is required");
    let (_, a) = login(Some("a".to_string()), None, Some("r".to_string()));
    expect_fail(a, "pass is required");
    let (s, a) = login(Some("a".to_string()), Some("p".to_string()), None);
    expect_fail(a, "room_token is required");
    assert!(matches!(s, LoginState::Done));
}

#[test]
fn unknown_room_is_answered_with_failure_body() {
    let (s, a) = login_step(start(), LoginEvent::RoomCount(0));
    assert!(matches!(s, LoginState::Done));
    match a {
        LoginAction::Respond(b) => {
            assert_eq!(b, "{\"reason\":{\"code\":400,\"msg\":\"不存在该房间\"},\"success\":false}")
        }
        _ => panic!("expected an answer"),
    }
}

#[test]
fn known_participant_gets_token_without_registering() {
    let (s, a) = login_step(signing(1), LoginEvent::Signed(SignOutcome::Token("T.k\"n".to_string())));
    assert!(matches!(s, LoginState::Done));
    match a {
        LoginAction::Respond(b) => assert_eq!(b, "{\"success\":true,\"token\":\"T.k\\\"n\"}"),
        _ => panic!("expected an answer"),
    }
}

#[test]
fn new_participant_is_registered_then_gets_token() {
    let (s, a) = login_step(signing(0), LoginEvent::Signed(SignOutcome::Token("tok".to_string())));
    match a {
        LoginAction::Register { name, room_token, pass_md5 } => {
            assert_eq!(name, "alice");
            assert_eq!(room_token, "room1");
            assert_eq!(pass_md5, "5ebe2294ecd0e0f08eab7690d2a6ee69");
        }
        _ => panic!("expected a registration"),
    }
    let (s, a) = login_step(s, LoginEvent::Registered);
    assert!(matches!(s, LoginState::Done));
    match a {
        LoginAction::Respond(b) => assert_eq!(b, "{\"success\":true,\"token\":\"tok\"}"),
        _ => panic!("expected an answer"),
    }
}

#[test]
fn signing_failures() {
    let (s, a) = login_step(signing(1), LoginEvent::Signed(SignOutcome::NoSecret));
    assert!(matches!(s, LoginState::Done));
    expect_fail(a, "cannot generate token");
    let (_, a) = login_step(signing(1), LoginEvent::Signed(SignOutcome::Failed("InvalidKeyFormat".to_string())));
    expect_fail(a, "InvalidKeyFormat");
}

#[test]
fn database_failures() {
    let (s, a) = login_step(start(), LoginEvent::DbFailed("connection refused".to_string()));
    assert!(matches!(s, LoginState::Done));
    expect_fail(a, "connection refused");
    let (s, _) = login_step(start(), LoginEvent::RoomCount(2));
    let (_, a) = login_step(s, LoginEvent::DbFailed("timeout".to_string()));
    expect_fail(a, "timeout");
    let (s, _) = login_step(signing(0), LoginEvent::Signed(SignOutcome::Token("t".to_string())));
    let (_, a) = login_step(s, LoginEvent::DbFailed("duplicate".to_string()));
    expect_fail(a, "duplicate");
}

fn claims_at(pass: &str, now: i64) -> chatroom::controller::JwtClaims {
    let (s, _) = login(Some("alice".to_string()), Some(pass.to_string()), Some("room1".to_string()));
    let (s, a) = login_step(s, LoginEvent::RoomCount(1));
    match a {
        LoginAction::CountParticipants { pass_md5, .. } => assert_ne!(pass_md5, pass),
        _ => panic!("expected the participants to be counted"),
    }
    match login_step(s, LoginEvent::ParticipantCount(1, now)).1 {
        LoginAction::Sign(c) => c,
        _ => panic!("expected the token to be signed"),
    }
}

#[test]
fn same_form_signs_same_claims_but_expiry() {
    let a = claims_at("secret", 1700000000);
    let b = claims_at("secret", 1700000123);
    assert_eq!((a.name, a.room_token, a.identity_token.clone()), (b.name, b.room_token, b.identity_token.clone()));
    assert_eq!(b.exp - a.exp, 123);
    assert_ne!(claims_at("other", 1700000000).identity_token, a.identity_token);
}
