use chatroom::controller::{
    check_login, get_person_from_jwt, history, upload, upload_target, HandleError, JwtClaims,
};

fn object(pairs: Vec<(&str, serde_json::Value)>) -> serde_json::Value {
    let mut m = serde_json::Map::new();
    for (k, v) in pairs {
        m.insert(k.to_string(), v);
    }
    serde_json::Value::Object(m)
}

fn text(s: &str) -> serde_json::Value {
    serde_json::Value::String(s.to_string())
}

fn error_value(msg: &str, code: u64) -> String {
    object(vec![
        ("success", serde_json::Value::Bool(false)),
        ("reason", object(vec![("msg", text(msg)), ("code", serde_json::Value::from(code))])),
    ])
    .to_string()
}

fn claims() -> JwtClaims {
    JwtClaims {
        name: "alice".to_string(),
        identity_token: "4ab0ef1b7bf624b2973107b0974bd087".to_string(),
        room_token: "room \"1\"".to_string(),
        exp: 1700086400,
    }
}

#[derive(Debug)]
#[allow(dead_code)]
struct JwtClaimsMirror {
    name: String,
    identity_token: String,
    room_token: String,
    exp: i64,
}

#[test]
fn error_body_matches_json_of_the_reason() {
    let e: HandleError<true> = HandleError::new("bad \"input\"".to_string(), 404);
    assert_eq!(e.write(), error_value("bad \"input\"", 404));
    assert_eq!(e.write(), "{\"reason\":{\"code\":404,\"msg\":\"bad \\\"input\\\"\"},\"success\":false}");
}

#[test]
fn plain_error_body() {
    let e: HandleError<false> = HandleError::new("anything".to_string(), 500);
    assert_eq!(e.write(), "request fails");
}

#[test]
fn errors_from_text_and_missing_fields() {
    let e: HandleError<true> = HandleError::from_message("db down".to_string());
    assert_eq!((e.0.as_str(), e.1), ("db down", 400));
    let e: HandleError<true> = HandleError::required("pass");
    assert_eq!((e.0.as_str(), e.1), ("pass is required", 400));
    assert_eq!(e.write(), error_value("pass is required", 400));
}

#[test]
fn person_from_authorized_claims() {
    let c = claims();
    match get_person_from_jwt(true, Some(&c)) {
        Ok((n, i, r)) => {
            assert_eq!(n, "alice");
            assert_eq!(i, "4ab0ef1b7bf624b2973107b0974bd087");
            assert_eq!(r, "room \"1\"");
        }
        Err(_) => panic!("expected the person"),
    }
}

#[test]
fn person_refused_without_authorization() {
    let c = claims();
    for (authorized, cl) in [(false, Some(&c)), (true, None), (false, None)] {
        match get_person_from_jwt(authorized, cl) {
            Ok(_) => panic!("expected a refusal"),
            Err(e) => {
                assert_eq!(e.0, "authorization is not passed");
                assert_eq!(e.1, 404);
            }
        }
    }
}

#[test]
fn check_login_shows_claims_in_debug_form() {
    let c = claims();
    let mirror = JwtClaimsMirror {
        name: c.name.clone(),
        identity_token: c.identity_token.clone(),
        room_token: c.room_token.clone(),
        exp: c.exp,
    };
    let expected = format!("{:?}", mirror).replace("JwtClaimsMirror", "JwtClaims");
    assert_eq!(check_login(true, Some(&c)), expected);
    assert_eq!(check_login(false, Some(&c)), "unauthorized");
    assert_eq!(check_login(false, None), "unauthorized");
}

#[test]
fn history_body_lists_messages_and_person() {
    let list = vec!["{\"id\":1,\"message\":\"hi\"}".to_string(), "{\"id\":2}".to_string()];
    let body = history("alice", "tok", "r1", &list, Some("Lobby")).ok().unwrap();
    let expected = object(vec![
        ("success", serde_json::Value::Bool(true)),
        (
            "msg",
            object(vec![
                (
                    "list",
                    serde_json::Value::Array(
                        list.iter().map(|t| serde_json::from_str::<serde_json::Value>(t).unwrap()).collect(),
                    ),
                ),
                ("me", object(vec![("token", text("tok")), ("name", text("alice"))])),
                ("room_token", text("r1")),
                ("room_name", text("Lobby")),
            ]),
        ),
    ]);
    assert_eq!(body, expected.to_string());
    let empty = history("a", "t", "r", &Vec::new(), Some("n")).ok().unwrap();
    assert!(empty.starts_with("{\"msg\":{\"list\":[],"));
}

#[test]
fn history_of_unknown_room_fails() {
    match history("alice", "tok", "r9", &Vec::new(), None) {
        Err(e) => {
            assert_eq!(e.0, "r9的房间不存在");
            assert_eq!(e.1, 400);
        }
        Ok(_) => panic!("expected a failure"),
    }
}

fn who() -> Result<(String, String, String), HandleError<true>> {
    Ok(("alice".to_string(), "id1".to_string(), "r1".to_string()))
}

const RANDOM: [u8; 16] = [0xff, 0x01, 0x23, 0x45, 0x67, 0x89, 0xab, 0xcd, 0xef, 0x10, 0x32, 0x54, 0x76, 0x98, 0xba, 0xdc];

#[test]
fn upload_target_needs_authorization_file_and_name() {
    let refused: Result<(String, String, String), HandleError<true>> =
        Err(HandleError::new("authorization is not passed".to_string(), 404));
    match upload_target(refused, Some("/tmp/x.png"), Some("a.png"), RANDOM) {
        Err(e) => assert_eq!((e.0.as_str(), e.1), ("authorization is not passed", 404)),
        Ok(_) => panic!("expected a refusal"),
    }
    match upload_target(who(), None, Some("a.png"), RANDOM) {
        Err(e) => assert_eq!((e.0.as_str(), e.1), ("file not found in request", 400)),
        Ok(_) => panic!("expected a failure"),
    }
    match upload_target(who(), Some("/tmp/x.png"), None, RANDOM) {
        Err(e) => assert_eq!((e.0.as_str(), e.1), ("file'name not found in request", 400)),
        Ok(_) => panic!("expected a failure"),
    }
}

#[test]
fn upload_target_names_file_by_v4_uuid_of_random_bytes() {
    let t = upload_target(who(), Some("/tmp/salvo/abc.png"), Some("cat.png"), RANDOM).ok().unwrap();
    assert_eq!(t.file_name, "cat.png");
    assert_eq!(t.stored_name, "ff012345-6789-4bcd-af10-32547698badc");
    let parsed = uuid::Uuid::parse_str(&t.stored_name).unwrap();
    assert_eq!(parsed.get_version_num(), 4);
    assert_eq!(t.dest, format!("./static/upload/{}.png", t.stored_name));
    assert_eq!(t.url, format!("/static/upload/{}.png", t.stored_name));
    let z = upload_target(who(), Some("/tmp/a.txt"), Some("f"), [0u8; 16]).ok().unwrap();
    assert_eq!(z.stored_name, "00000000-0000-4000-8000-000000000000");
    let n = upload_target(who(), Some("/tmp/salvo/noext"), Some("f"), RANDOM).ok().unwrap();
    assert_eq!(n.url, format!("/static/upload/{}.", n.stored_name));
}

#[test]
fn upload_answers() {
    let t = upload_target(who(), Some("/tmp/a.jpg"), Some("me \"1\".jpg"), RANDOM).ok().unwrap();
    match upload(&t, Err("No such file".to_string()), true, 3) {
        Err(e) => assert_eq!((e.0.as_str(), e.1), ("file not found in request: No such file", 400)),
        Ok(_) => panic!("expected a failure"),
    }
    let body = upload(&t, Ok(()), true, 1234).ok().unwrap();
    let expected = object(vec![
        ("success", serde_json::Value::Bool(true)),
        (
            "msg",
            object(vec![
                ("file_name", text("me \"1\".jpg")),
                ("url", text(&t.url)),
                ("is_picture", serde_json::Value::Bool(true)),
                ("size", serde_json::Value::from(1234u64)),
            ]),
        ),
    ]);
    assert_eq!(body, expected.to_string());
    let body = upload(&t, Ok(()), false, 0).ok().unwrap();
    assert!(body.contains("\"is_picture\":false,\"size\":0,"));
}
