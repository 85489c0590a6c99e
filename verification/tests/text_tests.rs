use chatroom::controller::digest::{identity_token, password_digest};
use chatroom::keys::{key_order, KeyOrder};
use chatroom::controller::{check_login, HandleError, JwtClaims};
use chatroom::text::{push_decimal, push_hex_lower, push_signed_decimal};

#[test]
fn key_order_compares_by_characters() {
    assert_eq!(key_order("a", "b"), KeyOrder::Less);
    assert_eq!(key_order("b", "a"), KeyOrder::Greater);
    assert_eq!(key_order("ab", "ab"), KeyOrder::Equal);
    assert_eq!(key_order("ab", "abc"), KeyOrder::Less);
    assert_eq!(key_order("abc", "ab"), KeyOrder::Greater);
    assert_eq!(key_order("", ""), KeyOrder::Equal);
    assert_eq!(key_order("", "x"), KeyOrder::Less);
    assert_eq!(key_order("z", "é"), KeyOrder::Less);
    assert_eq!(key_order("房间", "房子"), "房间".cmp("房子").into_order());
}

trait IntoOrder {
    fn into_order(self) -> KeyOrder;
}

impl IntoOrder for std::cmp::Ordering {
    fn into_order(self) -> KeyOrder {
        match self {
            std::cmp::Ordering::Less => KeyOrder::Less,
            std::cmp::Ordering::Equal => KeyOrder::Equal,
            std::cmp::Ordering::Greater => KeyOrder::Greater,
        }
    }
}

#[test]
fn key_order_agrees_with_string_order() {
    let words = ["", "a", "ab", "b", "Z", "aé", "a\u{1}", "房间", "zz", "a b"];
    for x in words.iter() {
        for y in words.iter() {
            assert_eq!(key_order(x, y), x.cmp(y).into_order(), "{:?} {:?}", x, y);
        }
    }
}

fn quoted_in_error_body(msg: &str) -> String {
    let e: HandleError<true> = HandleError::new(msg.to_string(), 1);
    let body = e.write();
    let start = "{\"reason\":{\"code\":1,\"msg\":".len();
    let end = body.len() - "},\"success\":false}".len();
    body[start..end].to_string()
}

#[test]
fn json_strings_are_escaped_like_json() {
    assert_eq!(quoted_in_error_body("plain"), "\"plain\"");
    assert_eq!(quoted_in_error_body("a\"b\\c\nd\te\r\u{8}\u{c}"), "\"a\\\"b\\\\c\\nd\\te\\r\\b\\f\"");
    assert_eq!(quoted_in_error_body("\u{1}\u{1f}"), "\"\\u0001\\u001f\"");
    assert_eq!(quoted_in_error_body("/房间\u{7f}"), "\"/房间\u{7f}\"");
    assert_eq!(quoted_in_error_body(""), "\"\"");
}

#[test]
fn decimal_forms() {
    let mut s = String::new();
    push_decimal(&mut s, 0);
    assert_eq!(s, "0");
    let mut s = String::from("x");
    push_decimal(&mut s, 18446744073709551615);
    assert_eq!(s, "x18446744073709551615");
    let mut s = String::new();
    push_signed_decimal(&mut s, -5);
    assert_eq!(s, "-5");
    let mut s = String::new();
    push_signed_decimal(&mut s, i64::MIN);
    assert_eq!(s, i64::MIN.to_string());
    let mut s = String::new();
    push_signed_decimal(&mut s, 1700000000);
    assert_eq!(s, "1700000000");
}

#[test]
fn hex_lower_of_bytes() {
    let mut s = String::new();
    push_hex_lower(&mut s, &[0x00, 0xff, 0x1a, 0x09]);
    assert_eq!(s, "00ff1a09");
    let mut s = String::new();
    push_hex_lower(&mut s, &[]);
    assert_eq!(s, "");
}

#[test]
fn claims_strings_in_debug_form() {
    let c = JwtClaims {
        name: "a\"b".to_string(),
        identity_token: "it's\n".to_string(),
        room_token: "r".to_string(),
        exp: -3,
    };
    assert_eq!(
        check_login(true, Some(&c)),
        format!("JwtClaims {{ name: {:?}, identity_token: {:?}, room_token: {:?}, exp: -3 }}", "a\"b", "it's\n", "r")
    );
    assert!(check_login(true, Some(&c)).starts_with("JwtClaims { name: \"a\\\"b\""));
}

#[test]
fn password_digest_is_md5_hex() {
    assert_eq!(password_digest("abc"), "900150983cd24fb0d6963f7d28e17f72");
    assert_eq!(password_digest(""), "d41d8cd98f00b204e9800998ecf8427e");
    assert_eq!(password_digest("secret"), "5ebe2294ecd0e0f08eab7690d2a6ee69");
    assert_eq!(password_digest("密码"), "a8105204604a0b11e916f3879aae3b0b");
}

#[test]
fn identity_token_is_md5_of_joined_credentials() {
    let t = identity_token("alice", "5ebe2294ecd0e0f08eab7690d2a6ee69", "room1");
    assert_eq!(t, "4ab0ef1b7bf624b2973107b0974bd087");
    assert_eq!(t.len(), 32);
    assert_eq!(t, identity_token("alice", "5ebe2294ecd0e0f08eab7690d2a6ee69", "room1"));
    assert_ne!(t, identity_token("alice", "5ebe2294ecd0e0f08eab7690d2a6ee69", "room2"));
}
