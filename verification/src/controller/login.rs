//! Logging in to a room, as a sequence of steps: the handler reads the
//! form, asks the database and signs the token as each step asks, and hands
//! back what came of it.
use vstd::prelude::*;

use crate::controller::digest::{identity_source, identity_token, md5_hex, password_digest};
use crate::controller::{error_json, HandleError, JwtClaims};
use crate::text::{json_quote, json_string};

verus! {

/// How long a login token is valid: one day, in seconds.
pub const TOKEN_LIFETIME: i64 = 86400;

/// Where a login stands.
pub enum LoginState {
    /// Waiting for the number of rooms with the token.
    CountingRooms { name: String, pass: String, room_token: String },
    /// Waiting for the number of participants with these credentials.
    CountingParticipants { name: String, room_token: String, pass_md5: String },
    /// Waiting for the token to be signed; `registered` tells whether the
    /// participant is known already.
    Signing { name: String, room_token: String, pass_md5: String, registered: bool },
    /// Waiting for the new participant to be stored.
    Registering { token: String },
    /// The login has been answered.
    Done,
}

/// What came of signing a token.
pub enum SignOutcome {
    /// The service has no secret key to sign with.
    NoSecret,
    /// Signing failed, with the error's text.
    Failed(String),
    /// The signed token.
    Token(String),
}

/// What the handler hands back.
pub enum LoginEvent {
    /// The number of rooms with the token.
    RoomCount(u64),
    /// The number of participants with the credentials, and the time now
    /// (seconds since the Unix epoch).
    ParticipantCount(u64, i64),
    /// What came of signing.
    Signed(SignOutcome),
    /// The new participant was stored.
    Registered,
    /// The database failed, with the error's text.
    DbFailed(String),
}

/// What the handler is asked to do next.
pub enum LoginAction {
    /// Count the rooms with this token.
    CountRooms(String),
    /// Count the participants with this name, room token and password digest.
    CountParticipants { name: String, room_token: String, pass_md5: String },
    /// Sign a token carrying these claims.
    Sign(JwtClaims),
    /// Store a participant with this name, room token and password digest.
    Register { name: String, room_token: String, pass_md5: String },
    /// Answer with this JSON body.
    Respond(String),
    /// Answer with this failure.
    Fail(HandleError<true>),
}

/// A login state in spec terms.
pub enum LoginStateView {
    CountingRooms { name: Seq<char>, pass: Seq<char>, room_token: Seq<char> },
    CountingParticipants { name: Seq<char>, room_token: Seq<char>, pass_md5: Seq<char> },
    Signing { name: Seq<char>, room_token: Seq<char>, pass_md5: Seq<char>, registered: bool },
    Registering { token: Seq<char> },
    Done,
}

/// A login event in spec terms.
pub enum LoginEventView {
    RoomCount(nat),
    ParticipantCount(nat, int),
    NoSecret,
    SignFailed(Seq<char>),
    Token(Seq<char>),
    Registered,
    DbFailed(Seq<char>),
}

/// A login action in spec terms; claims as (name, identity token, room
/// token, expiry), a failure as (reason, code).
pub enum LoginActionView {
    CountRooms(Seq<char>),
    CountParticipants { name: Seq<char>, room_token: Seq<char>, pass_md5: Seq<char> },
    Sign { name: Seq<char>, identity_token: Seq<char>, room_token: Seq<char>, exp: int },
    Register { name: Seq<char>, room_token: Seq<char>, pass_md5: Seq<char> },
    Respond(Seq<char>),
    Fail(Seq<char>, u16),
}

impl View for LoginState {
    type V = LoginStateView;

    open spec fn view(&self) -> LoginStateView {
        match self {
            LoginState::CountingRooms { name, pass, room_token } => LoginStateView::CountingRooms {
                name: name@,
                pass: pass@,
                room_token: room_token@,
            },
            LoginState::CountingParticipants { name, room_token, pass_md5 } => LoginStateView::CountingParticipants {
                name: name@,
                room_token: room_token@,
                pass_md5: pass_md5@,
            },
            LoginState::Signing { name, room_token, pass_md5, registered } => LoginStateView::Signing {
                name: name@,
                room_token: room_token@,
                pass_md5: pass_md5@,
                registered: *registered,
            },
            LoginState::Registering { token } => LoginStateView::Registering { token: token@ },
            LoginState::Done => LoginStateView::Done,
        }
    }
}

impl View for LoginEvent {
    type V = LoginEventView;

    open spec fn view(&self) -> LoginEventView {
        match self {
            LoginEvent::RoomCount(n) => LoginEventView::RoomCount(*n as nat),
            LoginEvent::ParticipantCount(n, now) => LoginEventView::ParticipantCount(*n as nat, *now as int),
            LoginEvent::Signed(SignOutcome::NoSecret) => LoginEventView::NoSecret,
            LoginEvent::Signed(SignOutcome::Failed(m)) => LoginEventView::SignFailed(m@),
            LoginEvent::Signed(SignOutcome::Token(t)) => LoginEventView::Token(t@),
            LoginEvent::Registered => LoginEventView::Registered,
            LoginEvent::DbFailed(m) => LoginEventView::DbFailed(m@),
        }
    }
}

impl View for LoginAction {
    type V = LoginActionView;

    open spec fn view(&self) -> LoginActionView {
        match self {
            LoginAction::CountRooms(r) => LoginActionView::CountRooms(r@),
            LoginAction::CountParticipants { name, room_token, pass_md5 } => LoginActionView::CountParticipants {
                name: name@,
                room_token: room_token@,
                pass_md5: pass_md5@,
            },
            LoginAction::Sign(c) => LoginActionView::Sign {
                name: c.name@,
                identity_token: c.identity_token@,
                room_token: c.room_token@,
                exp: c.exp as int,
            },
            LoginAction::Register { name, room_token, pass_md5 } => LoginActionView::Register {
                name: name@,
                room_token: room_token@,
                pass_md5: pass_md5@,
            },
            LoginAction::Respond(b) => LoginActionView::Respond(b@),
            LoginAction::Fail(e) => LoginActionView::Fail(e.0@, e.1),
        }
    }
}

/// The answer to a login into a room that does not exist.
pub open spec fn no_such_room_json() -> Seq<char> {
    error_json("不存在该房间"@, 400)
}

/// The answer to a successful login: `{"success":true,"token":..}`.
pub open spec fn token_json(token: Seq<char>) -> Seq<char> {
    "{\"success\":true,\"token\":"@ + json_string(token) + "}"@
}

/// The failure of a request without the form field `key`.
pub open spec fn missing_field(key: Seq<char>) -> LoginActionView {
    LoginActionView::Fail(key + " is required"@, 400)
}

/// How a login starts from the form fields `name`, `pass` and `room_token`:
/// the first one missing fails the request; with all three, the rooms with
/// the token are counted.
pub open spec fn login_start(
    name: Option<Seq<char>>,
    pass: Option<Seq<char>>,
    room_token: Option<Seq<char>>,
) -> (LoginStateView, LoginActionView) {
    match (name, pass, room_token) {
        (None, _, _) => (LoginStateView::Done, missing_field("name"@)),
        (Some(_), None, _) => (LoginStateView::Done, missing_field("pass"@)),
        (Some(_), Some(_), None) => (LoginStateView::Done, missing_field("room_token"@)),
        (Some(n), Some(p), Some(r)) => (
            LoginStateView::CountingRooms { name: n, pass: p, room_token: r },
            LoginActionView::CountRooms(r),
        ),
    }
}

/// The events that a login state waits for.
pub open spec fn login_accepts(s: LoginStateView, e: LoginEventView) -> bool {
    match (s, e) {
        (LoginStateView::CountingRooms { .. }, LoginEventView::RoomCount(_)) => true,
        (LoginStateView::CountingParticipants { .. }, LoginEventView::ParticipantCount(_, now)) =>
            now + TOKEN_LIFETIME <= i64::MAX,
        (LoginStateView::Signing { .. }, LoginEventView::NoSecret) => true,
        (LoginStateView::Signing { .. }, LoginEventView::SignFailed(_)) => true,
        (LoginStateView::Signing { .. }, LoginEventView::Token(_)) => true,
        (LoginStateView::Registering { .. }, LoginEventView::Registered) => true,
        (LoginStateView::CountingRooms { .. }, LoginEventView::DbFailed(_)) => true,
        (LoginStateView::CountingParticipants { .. }, LoginEventView::DbFailed(_)) => true,
        (LoginStateView::Registering { .. }, LoginEventView::DbFailed(_)) => true,
        _ => false,
    }
}

/// One step of a login:
/// - no room with the token: answered with "不存在该房间" (code 400);
/// - a room: the participants with the name, room and password digest are counted;
/// - then a token is signed for the name, the identity token (MD5 of
///   `name/password digest/room token`) and the room, expiring a day from now;
/// - no secret key, or a failed signing, fails the request (400);
/// - with the token, a participant not known yet is stored first; then the
///   answer carries the token;
/// - a failing database fails the request with the error's text (400).
pub open spec fn login_next(s: LoginStateView, e: LoginEventView) -> (LoginStateView, LoginActionView) {
    match (s, e) {
        (_, LoginEventView::DbFailed(m)) => (LoginStateView::Done, LoginActionView::Fail(m, 400)),
        (LoginStateView::CountingRooms { name, pass, room_token }, LoginEventView::RoomCount(n)) => if n == 0 {
            (LoginStateView::Done, LoginActionView::Respond(no_such_room_json()))
        } else {
            let pass_md5 = md5_hex(pass);
            (
                LoginStateView::CountingParticipants { name, room_token, pass_md5 },
                LoginActionView::CountParticipants { name, room_token, pass_md5 },
            )
        },
        (
            LoginStateView::CountingParticipants { name, room_token, pass_md5 },
            LoginEventView::ParticipantCount(n, now),
        ) => (
            LoginStateView::Signing { name, room_token, pass_md5, registered: n != 0 },
            LoginActionView::Sign {
                name,
                identity_token: md5_hex(identity_source(name, pass_md5, room_token)),
                room_token,
                exp: now + TOKEN_LIFETIME,
            },
        ),
        (LoginStateView::Signing { .. }, LoginEventView::NoSecret) => (
            LoginStateView::Done,
            LoginActionView::Fail("cannot generate token"@, 400),
        ),
        (LoginStateView::Signing { .. }, LoginEventView::SignFailed(m)) => (
            LoginStateView::Done,
            LoginActionView::Fail(m, 400),
        ),
        (LoginStateView::Signing { name, room_token, pass_md5, registered }, LoginEventView::Token(t)) => if registered {
            (LoginStateView::Done, LoginActionView::Respond(token_json(t)))
        } else {
            (LoginStateView::Registering { token: t }, LoginActionView::Register { name, room_token, pass_md5 })
        },
        (LoginStateView::Registering { token }, LoginEventView::Registered) => (
            LoginStateView::Done,
            LoginActionView::Respond(token_json(token)),
        ),
        _ => (LoginStateView::Done, LoginActionView::Fail(Seq::empty(), 400)),
    }
}

/// Starts a login from the form fields.
pub fn login(name: Option<String>, pass: Option<String>, room_token: Option<String>) -> (r: (LoginState, LoginAction))
    ensures
        (r.0@, r.1@) == login_start(
            match name { Some(n) => Some(n@), None => None },
            match pass { Some(p) => Some(p@), None => None },
            match room_token { Some(t) => Some(t@), None => None },
        ),
{
    proof {
        reveal_strlit("name");
        reveal_strlit("pass");
        reveal_strlit("room_token");
    }
    let name = match name {
        Some(n) => n,
        None => {
            return (LoginState::Done, LoginAction::Fail(HandleError::required("name")));
        },
    };
    let pass = match pass {
        Some(p) => p,
        None => {
            return (LoginState::Done, LoginAction::Fail(HandleError::required("pass")));
        },
    };
    let room_token = match room_token {
        Some(r) => r,
        None => {
            return (LoginState::Done, LoginAction::Fail(HandleError::required("room_token")));
        },
    };
    let count = LoginAction::CountRooms(room_token.clone());
    (LoginState::CountingRooms { name, pass, room_token }, count)
}

/// The body of a successful login.
fn token_body(token: &str) -> (b: String)
    ensures
        b@ == token_json(token@),
{
    let mut b = String::from_str("{\"success\":true,\"token\":");
    b.append(json_quote(token).as_str());
    b.append("}");
    b
}

/// Takes a login one step further: from where it stands and what came of
/// the last action, to where it stands next and the next action.
pub fn login_step(state: LoginState, event: LoginEvent) -> (r: (LoginState, LoginAction))
    requires
        login_accepts(state@, event@),
    ensures
        (r.0@, r.1@) == login_next(state@, event@),
{
    match (state, event) {
        (_, LoginEvent::DbFailed(m)) => (LoginState::Done, LoginAction::Fail(HandleError::from_message(m))),
        (LoginState::CountingRooms { name, pass, room_token }, LoginEvent::RoomCount(n)) => {
            if n == 0 {
                let e: HandleError<true> = HandleError::new(String::from_str("不存在该房间"), 400);
                (LoginState::Done, LoginAction::Respond(e.write()))
            } else {
                let pass_md5 = password_digest(pass.as_str());
                let act = LoginAction::CountParticipants {
                    name: name.clone(),
                    room_token: room_token.clone(),
                    pass_md5: pass_md5.clone(),
                };
                (LoginState::CountingParticipants { name, room_token, pass_md5 }, act)
            }
        },
        (LoginState::CountingParticipants { name, room_token, pass_md5 }, LoginEvent::ParticipantCount(n, now)) => {
            let identity = identity_token(name.as_str(), pass_md5.as_str(), room_token.as_str());
            let claims = JwtClaims {
                name: name.clone(),
                identity_token: identity,
                room_token: room_token.clone(),
                exp: now + TOKEN_LIFETIME,
            };
            (LoginState::Signing { name, room_token, pass_md5, registered: n != 0 }, LoginAction::Sign(claims))
        },
        (LoginState::Signing { .. }, LoginEvent::Signed(SignOutcome::NoSecret)) => {
            (LoginState::Done, LoginAction::Fail(HandleError::new(String::from_str("cannot generate token"), 400)))
        },
        (LoginState::Signing { .. }, LoginEvent::Signed(SignOutcome::Failed(m))) => {
            (LoginState::Done, LoginAction::Fail(HandleError::from_message(m)))
        },
        (LoginState::Signing { name, room_token, pass_md5, registered }, LoginEvent::Signed(SignOutcome::Token(t))) => {
            if registered {
                let body = token_body(t.as_str());
                (LoginState::Done, LoginAction::Respond(body))
            } else {
                (LoginState::Registering { token: t }, LoginAction::Register { name, room_token, pass_md5 })
            }
        },
        (LoginState::Registering { token }, LoginEvent::Registered) => {
            let body = token_body(token.as_str());
            (LoginState::Done, LoginAction::Respond(body))
        },
        (_, _) => (LoginState::Done, LoginAction::Fail(HandleError::new(String::new(), 400))),
    }
}

/// How many steps at most a login state is from being answered.
pub open spec fn login_rank(s: LoginStateView) -> nat {
    match s {
        LoginStateView::CountingRooms { .. } => 4,
        LoginStateView::CountingParticipants { .. } => 3,
        LoginStateView::Signing { .. } => 2,
        LoginStateView::Registering { .. } => 1,
        LoginStateView::Done => 0,
    }
}

/// A login always comes to an answer: every step it takes brings it closer
/// to done, and a done login waits for nothing.
pub proof fn lemma_login_progress(s: LoginStateView, e: LoginEventView)
    ensures
        login_accepts(s, e) ==> login_rank(login_next(s, e).0) < login_rank(s),
        !login_accepts(LoginStateView::Done, e),
{
}

/// A login answers exactly when it is done: each step that leaves it done
/// answers (with a body or a failure), and each other step asks for more.
pub proof fn lemma_login_answers_when_done(s: LoginStateView, e: LoginEventView)
    requires
        login_accepts(s, e),
    ensures
        (login_next(s, e).0 is Done) <==> (login_next(s, e).1 is Respond || login_next(s, e).1 is Fail),
{
}

/// The token of a login carries the identity of the credentials: after a
/// room was found and the participants counted at time `now`, the claims to
/// sign hold the name, the room token, the MD5 of
/// `name/MD5(password)/room token` as identity, and expire a day after `now`.
pub proof fn lemma_login_claims(
    name: Seq<char>,
    pass: Seq<char>,
    room_token: Seq<char>,
    rooms: nat,
    participants: nat,
    now: int,
)
    requires
        rooms > 0,
        now + TOKEN_LIFETIME <= i64::MAX,
    ensures
        ({
            let s0 = LoginStateView::CountingRooms { name, pass, room_token };
            let (s1, _) = login_next(s0, LoginEventView::RoomCount(rooms));
            let (_, a2) = login_next(s1, LoginEventView::ParticipantCount(participants, now));
            &&& login_accepts(s1, LoginEventView::ParticipantCount(participants, now))
            &&& a2 == LoginActionView::Sign {
                name,
                identity_token: md5_hex(identity_source(name, md5_hex(pass), room_token)),
                room_token,
                exp: now + TOKEN_LIFETIME,
            }
        }),
{
}

/// A participant is stored only when none with the credentials was found:
/// once the token is signed, a login registers the participant exactly when
/// the count was zero, and answers with the token either way.
pub proof fn lemma_login_registers_new_participants(
    name: Seq<char>,
    room_token: Seq<char>,
    pass_md5: Seq<char>,
    participants: nat,
    now: int,
    token: Seq<char>,
)
    requires
        now + TOKEN_LIFETIME <= i64::MAX,
    ensures
        ({
            let s1 = LoginStateView::CountingParticipants { name, room_token, pass_md5 };
            let (s2, _) = login_next(s1, LoginEventView::ParticipantCount(participants, now));
            let (s3, a3) = login_next(s2, LoginEventView::Token(token));
            &&& (a3 is Register) <==> participants == 0
            &&& participants == 0 ==> login_next(s3, LoginEventView::Registered) == (
                LoginStateView::Done,
                LoginActionView::Respond(token_json(token)),
            )
            &&& participants != 0 ==> a3 == LoginActionView::Respond(token_json(token))
        }),
{
}

/// A login into a room that does not exist is answered at once with the
/// failure body, and nothing is counted, signed or stored.
pub proof fn lemma_login_unknown_room(name: Seq<char>, pass: Seq<char>, room_token: Seq<char>)
    ensures
        login_next(LoginStateView::CountingRooms { name, pass, room_token }, LoginEventView::RoomCount(0)) == (
            LoginStateView::Done,
            LoginActionView::Respond(no_such_room_json()),
        ),
{
}

/// Where a login of `name` with `pass` into `room` stands, it holds these
/// credentials: the password itself only before the rooms are counted, its
/// digest from then on.
pub open spec fn holds_credentials(s: LoginStateView, name: Seq<char>, pass: Seq<char>, room: Seq<char>) -> bool {
    match s {
        LoginStateView::CountingRooms { name: n, pass: p, room_token: r } => n == name && p == pass && r == room,
        LoginStateView::CountingParticipants { name: n, room_token: r, pass_md5: h } => n == name && r == room
            && h == md5_hex(pass),
        LoginStateView::Signing { name: n, room_token: r, pass_md5: h, .. } => n == name && r == room && h
            == md5_hex(pass),
        LoginStateView::Registering { .. } => true,
        LoginStateView::Done => true,
    }
}

/// What an action of that login hands out of the credentials: the name and
/// the room, the password only as its MD5 hex, and as identity the MD5 hex of
/// `name/MD5 hex of the password/room`.
pub open spec fn hands_out_digest_only(a: LoginActionView, name: Seq<char>, pass: Seq<char>, room: Seq<char>) -> bool {
    match a {
        LoginActionView::CountRooms(r) => r == room,
        LoginActionView::CountParticipants { name: n, room_token: r, pass_md5: h } => n == name && r == room
            && h == md5_hex(pass),
        LoginActionView::Sign { name: n, identity_token: i, room_token: r, .. } => n == name && r == room && i
            == md5_hex(identity_source(name, md5_hex(pass), room)),
        LoginActionView::Register { name: n, room_token: r, pass_md5: h } => n == name && r == room && h
            == md5_hex(pass),
        LoginActionView::Respond(_) => true,
        LoginActionView::Fail(_, _) => true,
    }
}

/// The password never leaves a login but as its digest: a login started
/// from the form holds its credentials, and every step keeps holding them
/// and hands out, of the password, only its MD5 hex (stored and compared as
/// `pass`), and as identity only the MD5 hex of `name/digest/room`.
pub proof fn lemma_login_password_only_as_digest(
    name: Seq<char>,
    pass: Seq<char>,
    room: Seq<char>,
    s: LoginStateView,
    e: LoginEventView,
)
    ensures
        holds_credentials(login_start(Some(name), Some(pass), Some(room)).0, name, pass, room),
        hands_out_digest_only(login_start(Some(name), Some(pass), Some(room)).1, name, pass, room),
        holds_credentials(s, name, pass, room) && login_accepts(s, e) ==> {
            &&& holds_credentials(login_next(s, e).0, name, pass, room)
            &&& hands_out_digest_only(login_next(s, e).1, name, pass, room)
        },
{
}

/// Logins with the same form sign the same claims but for the expiry: the
/// name, room and identity agree, and the expiries differ by the time
/// between the two participant counts.
pub proof fn lemma_login_same_form_same_claims(
    name: Seq<char>,
    pass: Seq<char>,
    room: Seq<char>,
    rooms1: nat,
    rooms2: nat,
    participants1: nat,
    participants2: nat,
    now1: int,
    now2: int,
)
    requires
        rooms1 > 0,
        rooms2 > 0,
        now1 + TOKEN_LIFETIME <= i64::MAX,
        now2 + TOKEN_LIFETIME <= i64::MAX,
    ensures
        ({
            let s0 = LoginStateView::CountingRooms { name, pass, room_token: room };
            let a1 = login_next(login_next(s0, LoginEventView::RoomCount(rooms1)).0, LoginEventView::ParticipantCount(participants1, now1)).1;
            let a2 = login_next(login_next(s0, LoginEventView::RoomCount(rooms2)).0, LoginEventView::ParticipantCount(participants2, now2)).1;
            &&& a1 matches LoginActionView::Sign { name: n1, identity_token: i1, room_token: r1, exp: e1 }
            &&& a2 matches LoginActionView::Sign { name: n2, identity_token: i2, room_token: r2, exp: e2 }
            &&& n1 == n2 && i1 == i2 && r1 == r2
            &&& e2 - e1 == now2 - now1
        }),
{
    lemma_login_claims(name, pass, room, rooms1, participants1, now1);
    lemma_login_claims(name, pass, room, rooms2, participants2, now2);
}

/// A login goes on only with all three form fields: a missing `name` fails
/// the request with "name is required" (400) whatever else was sent; with
/// the name, a missing `pass` fails with "pass is required"; with both, a
/// missing `room_token` fails with "room_token is required". Only a full
/// form counts the rooms, of the room token sent, and keeps name and
/// password as sent.
pub proof fn lemma_login_needs_every_field(
    name: Option<Seq<char>>,
    pass: Option<Seq<char>>,
    room_token: Option<Seq<char>>,
)
    ensures
        name is None ==> login_start(name, pass, room_token) == (
            LoginStateView::Done,
            LoginActionView::Fail("name is required"@, 400),
        ),
        name is Some && pass is None ==> login_start(name, pass, room_token) == (
            LoginStateView::Done,
            LoginActionView::Fail("pass is required"@, 400),
        ),
        name is Some && pass is Some && room_token is None ==> login_start(name, pass, room_token) == (
            LoginStateView::Done,
            LoginActionView::Fail("room_token is required"@, 400),
        ),
        login_start(name, pass, room_token).0 !is Done <==> (name is Some && pass is Some && room_token is Some),
        name is Some && pass is Some && room_token is Some ==> login_start(name, pass, room_token) == (
            LoginStateView::CountingRooms {
                name: name.unwrap(),
                pass: pass.unwrap(),
                room_token: room_token.unwrap(),
            },
            LoginActionView::CountRooms(room_token.unwrap()),
        ),
{
    reveal_strlit("name");
    reveal_strlit("pass");
    reveal_strlit("room_token");
    reveal_strlit(" is required");
    reveal_strlit("name is required");
    reveal_strlit("pass is required");
    reveal_strlit("room_token is required");
    assert("name"@ + " is required"@ =~= "name is required"@);
    assert("pass"@ + " is required"@ =~= "pass is required"@);
    assert("room_token"@ + " is required"@ =~= "room_token is required"@);
}

} // verus!
