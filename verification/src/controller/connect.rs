//! A person's chat connection: who may connect, what joining and leaving
//! tell the room service, and which received frames are chat messages that
//! are stored and passed on.
use vstd::prelude::*;

use crate::controller::HandleError;
use crate::room::RoomMessage;
use crate::text::{decimal, json_quote, json_string, push_decimal};

verus! {

/// `text` is a JSON document (as `serde_json::from_str` accepts it).
pub uninterp spec fn json_parses(text: Seq<char>) -> bool;

/// What the member `key` of the JSON document `text` holds, as serde_json
/// reads it: `None` where there is no such member (or the document is not
/// an object), `Some(None)` where the member is not a number that fits a
/// `u64`, `Some(Some(n))` where it is the number `n`.
pub uninterp spec fn json_member_u64(text: Seq<char>, key: Seq<char>) -> Option<Option<u64>>;

/// Reads the member `key` of a JSON document as a `u64`, through
/// `serde_json::from_str` into a `serde_json::Value`, then `Value::get` and
/// `Value::as_u64`. Claimed: the result is `None` exactly when the text is
/// not JSON (`json_parses`), and otherwise holds `json_member_u64(text,
/// key)`; both are functions of the arguments alone. What JSON documents are
/// and how serde_json reads a member are left to the names.
#[verifier::external_body]
fn json_member(text: &str, key: &str) -> (r: Option<Option<Option<u64>>>)
    ensures
        r is None <==> !json_parses(text@),
        r matches Some(m) ==> m == json_member_u64(text@, key@),
{
    match serde_json::from_str::<serde_json::Value>(text) {
        Err(_) => None,
        Ok(v) => match v.get(key) {
            None => Some(None),
            Some(m) => Some(Some(m.as_u64())),
        },
    }
}

/// What the `type` member of a text says, given what serde_json reads.
pub open spec fn message_type_of(text: Seq<char>) -> MessageType {
    if !json_parses(text) {
        MessageType::NotJson
    } else {
        match json_member_u64(text, "type"@) {
            None => MessageType::Untyped,
            Some(None) => MessageType::NotANumber,
            Some(Some(n)) => MessageType::Number(n),
        }
    }
}

/// What the `type` member of a received text says.
#[derive(PartialEq, Eq, Structural, Clone, Copy, Debug)]
pub enum MessageType {
    /// The text is not JSON.
    NotJson,
    /// The text has no `type` member.
    Untyped,
    /// The `type` member is not a number that fits a `u64`.
    NotANumber,
    /// The `type` member is this number.
    Number(u64),
}

/// Reads the `type` member of a received text.
pub fn classify(text: &str) -> (k: MessageType)
    ensures
        k == message_type_of(text@),
{
    match json_member(text, "type") {
        None => MessageType::NotJson,
        Some(None) => MessageType::Untyped,
        Some(Some(None)) => MessageType::NotANumber,
        Some(Some(Some(n))) => MessageType::Number(n),
    }
}

/// The type number of control messages, which are neither stored nor passed on.
pub const CONTROL_TYPE: u64 = 4;

/// A chat message is a text whose `type` is a number other than the control type.
pub open spec fn is_chat(k: MessageType) -> bool {
    k matches MessageType::Number(n) && n != CONTROL_TYPE
}

/// A person connected to the chat of a room.
pub struct Session {
    pub name: String,
    pub identity_token: String,
    pub room_token: String,
}

/// A frame received on the connection.
pub enum Frame {
    /// A text frame.
    Text(String),
    /// A frame that is not text (binary, ping, ...).
    Other,
    /// Reading failed: the client went away.
    Failed,
}

/// A chat message as it is stored.
pub struct MessageRecord {
    pub identity_token: String,
    pub owner_name: String,
    pub room_token: String,
    pub message: String,
}

/// What to do with a received frame.
pub enum FrameAction {
    /// Nothing.
    Skip,
    /// Store the record, then tell the room service.
    StoreAndForward(MessageRecord, RoomMessage),
    /// Tell the room service these two messages, in order, and stop reading.
    Leave(RoomMessage, RoomMessage),
}

/// The JSON of a notice to a room: `{"message":..,"type":..}`.
pub open spec fn notice_json(text: Seq<char>, kind: u64) -> Seq<char> {
    "{\"message\":"@ + json_string(text) + ",\"type\":"@ + decimal(kind as nat) + "}"@
}

/// The notice that a person joined the room.
pub open spec fn join_notice(name: Seq<char>) -> Seq<char> {
    notice_json(name + " 加入了聊天室"@, 1)
}

/// The notice that a person left the room.
pub open spec fn leave_notice(name: Seq<char>) -> Seq<char> {
    notice_json(name + " 退出了聊天室"@, 3)
}

/// `m` joins connection `conn` to the session's room under its identity.
pub open spec fn is_open(m: RoomMessage, conn: u64, s: Session) -> bool {
    m matches RoomMessage::Open(c, r, i) && c == conn && r@ == s.room_token@ && i@ == s.identity_token@
}

/// `m` sends `text` to the session's room on behalf of the session.
pub open spec fn is_receive(m: RoomMessage, text: Seq<char>, s: Session) -> bool {
    m matches RoomMessage::Receive(t, r, i) && t@ == text && r@ == s.room_token@ && i@ == s.identity_token@
}

/// `m` takes the session out of its room.
pub open spec fn is_close(m: RoomMessage, s: Session) -> bool {
    m matches RoomMessage::Close(r, i) && r@ == s.room_token@ && i@ == s.identity_token@
}

/// Who may open a chat connection: a person whose token authorized the
/// request, where the room service can be reached. Anyone else is refused
/// (`None`, answered with "bad request").
pub fn connect(person: Result<(String, String, String), HandleError<true>>, has_room_service: bool) -> (s: Option<Session>)
    ensures
        match s {
            Some(s) => person matches Ok((n, i, r)) && has_room_service && s.name@ == n@
                && s.identity_token@ == i@ && s.room_token@ == r@,
            None => !(person is Ok && has_room_service),
        },
{
    match person {
        Ok((name, identity_token, room_token)) => {
            if has_room_service {
                Some(Session { name, identity_token, room_token })
            } else {
                None
            }
        },
        Err(_) => None,
    }
}

/// Writes a notice to the room.
fn notice(name: &str, what: &str, kind: u64) -> (t: String)
    ensures
        t@ == notice_json(name@ + what@, kind),
{
    let mut text = String::from_str(name);
    text.append(what);
    let mut t = String::from_str("{\"message\":");
    t.append(json_quote(text.as_str()).as_str());
    t.append(",\"type\":");
    push_decimal(&mut t, kind);
    t.append("}");
    t
}

/// What joining tells the room service, for the connection numbered `conn`:
/// first the connection joins the room, then the room hears that the person
/// joined.
pub fn join(session: &Session, conn: u64) -> (msgs: (RoomMessage, RoomMessage))
    ensures
        is_open(msgs.0, conn, *session),
        is_receive(msgs.1, join_notice(session.name@), *session),
{
    let open = RoomMessage::Open(conn, session.room_token.clone(), session.identity_token.clone());
    let text = notice(session.name.as_str(), " 加入了聊天室", 1);
    let said = RoomMessage::Receive(text, session.room_token.clone(), session.identity_token.clone());
    (open, said)
}

/// What leaving tells the room service: first the person leaves the room,
/// then the room hears that the person left.
pub fn leave(session: &Session) -> (msgs: (RoomMessage, RoomMessage))
    ensures
        is_close(msgs.0, *session),
        is_receive(msgs.1, leave_notice(session.name@), *session),
{
    let close = RoomMessage::Close(session.room_token.clone(), session.identity_token.clone());
    let text = notice(session.name.as_str(), " 退出了聊天室", 3);
    let said = RoomMessage::Receive(text, session.room_token.clone(), session.identity_token.clone());
    (close, said)
}

/// What to do with a received frame, given what its `type` member says
/// (only looked at for a text frame): a chat message is stored as sent by
/// the session and passed on to the room unchanged; a failed read means the
/// person left; anything else is skipped.
pub fn frame_action(session: &Session, frame: Frame, kind: MessageType) -> (act: FrameAction)
    ensures
        match frame {
            Frame::Failed => act matches FrameAction::Leave(a, b) && is_close(a, *session)
                && is_receive(b, leave_notice(session.name@), *session),
            Frame::Other => act is Skip,
            Frame::Text(text) => if is_chat(kind) {
                act matches FrameAction::StoreAndForward(rec, fwd) && rec.identity_token@ == session.identity_token@
                    && rec.owner_name@ == session.name@ && rec.room_token@ == session.room_token@
                    && rec.message@ == text@ && is_receive(fwd, text@, *session)
            } else {
                act is Skip
            },
        },
{
    match frame {
        Frame::Failed => {
            let (a, b) = leave(session);
            FrameAction::Leave(a, b)
        },
        Frame::Other => FrameAction::Skip,
        Frame::Text(text) => {
            let chat = match kind {
                MessageType::Number(n) => n != CONTROL_TYPE,
                _ => false,
            };
            if chat {
                let rec = MessageRecord {
                    identity_token: session.identity_token.clone(),
                    owner_name: session.name.clone(),
                    room_token: session.room_token.clone(),
                    message: text.clone(),
                };
                let fwd = RoomMessage::Receive(text, session.room_token.clone(), session.identity_token.clone());
                FrameAction::StoreAndForward(rec, fwd)
            } else {
                FrameAction::Skip
            }
        },
    }
}

/// What to do with a received frame: its `type` member is read, then
/// `frame_action` decides. A text frame is stored and passed on exactly when
/// it is JSON whose `type` member is a number other than the control type.
pub fn on_frame(session: &Session, frame: Frame) -> (act: FrameAction)
    ensures
        match frame {
            Frame::Failed => act matches FrameAction::Leave(a, b) && is_close(a, *session)
                && is_receive(b, leave_notice(session.name@), *session),
            Frame::Other => act is Skip,
            Frame::Text(text) => if is_chat(message_type_of(text@)) {
                act matches FrameAction::StoreAndForward(rec, fwd) && rec.identity_token@ == session.identity_token@
                    && rec.owner_name@ == session.name@ && rec.room_token@ == session.room_token@
                    && rec.message@ == text@ && is_receive(fwd, text@, *session)
            } else {
                act is Skip
            },
        },
{
    let kind = match &frame {
        Frame::Text(text) => classify(text.as_str()),
        _ => MessageType::NotJson,
    };
    frame_action(session, frame, kind)
}

/// Which received texts are chat messages: exactly those whose `type` is a
/// number other than 4. Every other number is a chat message; 4, a type that
/// is not a number, a missing type and a text that is not JSON are not.
pub proof fn lemma_chat_types(k: MessageType)
    ensures
        is_chat(k) <==> (k matches MessageType::Number(n) && n != 4),
        forall|n: u64| n != 4 ==> #[trigger] is_chat(MessageType::Number(n)),
        !is_chat(MessageType::Number(4)),
        !is_chat(MessageType::NotJson) && !is_chat(MessageType::Untyped) && !is_chat(MessageType::NotANumber),
{
}

} // verus!
