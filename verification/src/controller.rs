//! The request handling of the chat service: errors and their bodies, the
//! claims carried by a login token, and what each handler answers.
use vstd::prelude::*;

use crate::controller::digest::lemma_hex_lower_shape;
use crate::text::{
    debug_quote, debug_quoted, decimal, hex_digit, hex_lower, json_quote, json_string, push_decimal,
    push_signed_decimal, signed_decimal,
};

pub mod connect;
pub mod digest;
pub mod login;

verus! {

/// The JSON body of a failed request: `{"reason":{"code":..,"msg":..},"success":false}`.
pub open spec fn error_json(msg: Seq<char>, code: u16) -> Seq<char> {
    "{\"reason\":{\"code\":"@ + decimal(code as nat) + ",\"msg\":"@ + json_string(msg)
        + "},\"success\":false}"@
}

/// A failed request: the reason and the status code it is reported with.
/// With `IS_JSON` the failure is answered with a JSON body, otherwise with
/// a plain text.
pub struct HandleError<const IS_JSON: bool>(pub String, pub u16);

impl<const IS_JSON: bool> HandleError<IS_JSON> {
    /// A failure with the given reason and code.
    pub fn new(v: String, code: u16) -> (e: Self)
        ensures
            e.0@ == v@,
            e.1 == code,
    {
        HandleError(v, code)
    }

    /// The failure that an error turns into: its text, reported with 400.
    pub fn from_message(v: String) -> (e: Self)
        ensures
            e.0@ == v@,
            e.1 == 400,
    {
        HandleError(v, 400)
    }

    /// The failure of a request that lacks the form field `key`.
    pub fn required(key: &str) -> (e: Self)
        ensures
            e.0@ == key@ + " is required"@,
            e.1 == 400,
    {
        let mut v = String::from_str(key);
        v.append(" is required");
        HandleError(v, 400)
    }

    /// The body the failure is answered with.
    pub fn write(&self) -> (body: String)
        ensures
            body@ == (if IS_JSON {
                error_json(self.0@, self.1)
            } else {
                "request fails"@
            }),
    {
        if IS_JSON {
            let mut body = String::from_str("{\"reason\":{\"code\":");
            push_decimal(&mut body, self.1 as u64);
            body.append(",\"msg\":");
            let quoted = json_quote(self.0.as_str());
            body.append(quoted.as_str());
            body.append("},\"success\":false}");
            body
        } else {
            String::from_str("request fails")
        }
    }
}

/// What a login token says of its bearer, and when it expires (seconds
/// since the Unix epoch).
pub struct JwtClaims {
    pub name: String,
    pub identity_token: String,
    pub room_token: String,
    pub exp: i64,
}

/// The `Debug` form of the claims: `JwtClaims { name: .., identity_token: ..,
/// room_token: .., exp: .. }`, each string in its `Debug` form.
pub open spec fn claims_debug(c: JwtClaims) -> Seq<char> {
    "JwtClaims { name: "@ + debug_quoted(c.name@) + ", identity_token: "@ + debug_quoted(c.identity_token@)
        + ", room_token: "@ + debug_quoted(c.room_token@) + ", exp: "@ + signed_decimal(c.exp as int)
        + " }"@
}

/// The failure of a request whose token did not authorize it.
pub open spec fn not_authorized(e: HandleError<true>) -> bool {
    e.0@ == "authorization is not passed"@ && e.1 == 404
}

/// The person behind an authorized request: name, identity token and room
/// token from the claims of the token. A request that was not authorized,
/// or whose claims are missing, fails with 404.
pub fn get_person_from_jwt(authorized: bool, claims: Option<&JwtClaims>) -> (r: Result<
    (String, String, String),
    HandleError<true>,
>)
    ensures
        match r {
            Ok((name, identity_token, room_token)) => {
                &&& authorized
                &&& claims matches Some(c)
                &&& name@ == c.name@
                &&& identity_token@ == c.identity_token@
                &&& room_token@ == c.room_token@
            },
            Err(e) => {
                &&& !(authorized && claims is Some)
                &&& not_authorized(e)
            },
        },
{
    if authorized {
        match claims {
            Some(d) => {
                return Ok((d.name.clone(), d.identity_token.clone(), d.room_token.clone()));
            },
            None => {},
        }
    }
    Err(HandleError::new(String::from_str("authorization is not passed"), 404))
}

/// The text that checking a login answers: the claims in their `Debug` form
/// when the token authorized the request, `unauthorized` otherwise.
pub fn check_login(authorized: bool, claims: Option<&JwtClaims>) -> (body: String)
    requires
        authorized ==> claims is Some,
    ensures
        body@ == (if authorized {
            claims_debug(*claims.unwrap())
        } else {
            "unauthorized"@
        }),
{
    if authorized {
        let c = claims.unwrap();
        let mut body = String::from_str("JwtClaims { name: ");
        body.append(debug_quote(c.name.as_str()).as_str());
        body.append(", identity_token: ");
        body.append(debug_quote(c.identity_token.as_str()).as_str());
        body.append(", room_token: ");
        body.append(debug_quote(c.room_token.as_str()).as_str());
        body.append(", exp: ");
        push_signed_decimal(&mut body, c.exp);
        body.append(" }");
        body
    } else {
        String::from_str("unauthorized")
    }
}

/// The items joined by `,`.
pub open spec fn comma_joined(items: Seq<Seq<char>>) -> Seq<char>
    decreases items.len(),
{
    if items.len() == 0 {
        Seq::empty()
    } else if items.len() == 1 {
        items[0]
    } else {
        comma_joined(items.drop_last()) + seq![','] + items.last()
    }
}

/// A JSON array of items that are JSON texts already.
pub open spec fn json_array(items: Seq<Seq<char>>) -> Seq<char> {
    seq!['['] + comma_joined(items) + seq![']']
}

/// The JSON body that the message history of a room is answered with.
pub open spec fn history_json(
    list: Seq<Seq<char>>,
    name: Seq<char>,
    identity_token: Seq<char>,
    room_token: Seq<char>,
    room_name: Seq<char>,
) -> Seq<char> {
    "{\"msg\":{\"list\":"@ + json_array(list) + ",\"me\":{\"name\":"@ + json_string(name) + ",\"token\":"@
        + json_string(identity_token) + "},\"room_name\":"@ + json_string(room_name) + ",\"room_token\":"@
        + json_string(room_token) + "},\"success\":true}"@
}

/// The failure of asking for the history of a room that does not exist.
pub open spec fn no_such_room(e: HandleError<true>, room_token: Seq<char>) -> bool {
    e.0@ == room_token + "的房间不存在"@ && e.1 == 400
}

/// Appends `[item,item,...]`.
fn push_json_array(out: &mut String, items: &Vec<String>)
    ensures
        final(out)@ == old(out)@ + json_array(items@.map_values(|t: String| t@)),
{
    let ghost all = items@.map_values(|t: String| t@);
    let ghost start = out@;
    out.append("[");
    proof {
        reveal_strlit("[");
        assert(comma_joined(all.take(0)) =~= Seq::<char>::empty());
        assert(out@ =~= start + seq!['['] + comma_joined(all.take(0)));
    }
    let mut i: usize = 0;
    while i < items.len()
        invariant
            all == items@.map_values(|t: String| t@),
            i <= items@.len(),
            out@ == start + seq!['['] + comma_joined(all.take(i as int)),
        decreases items@.len() - i,
    {
        proof {
            reveal_strlit(",");
            assert(all.take(i as int + 1).drop_last() =~= all.take(i as int));
            assert(all.take(i as int + 1).last() == items@[i as int]@);
        }
        if i > 0 {
            out.append(",");
        } else {
            assert(all.take(1) =~= seq![items@[0]@]);
        }
        out.append(items[i].as_str());
        i = i + 1;
    }
    out.append("]");
    proof {
        reveal_strlit("[");
        reveal_strlit("]");
        assert(all.take(i as int) =~= all);
    }
    assert(out@ =~= start + json_array(all));
}

/// The answer to a request for the message history of the person's room:
/// the stored messages (each a JSON text, in the order they were stored),
/// the person, and the room's token and name. A room that does not exist
/// fails with 400.
pub fn history(
    name: &str,
    identity_token: &str,
    room_token: &str,
    list: &Vec<String>,
    room_name: Option<&str>,
) -> (r: Result<String, HandleError<true>>)
    ensures
        match room_name {
            None => r matches Err(e) && no_such_room(e, room_token@),
            Some(room_name) => r matches Ok(body) && body@ == history_json(
                list@.map_values(|t: String| t@),
                name@,
                identity_token@,
                room_token@,
                room_name@,
            ),
        },
{
    let room_name = match room_name {
        Some(n) => n,
        None => {
            let mut v = String::from_str(room_token);
            v.append("的房间不存在");
            return Err(HandleError::new(v, 400));
        },
    };
    let mut body = String::from_str("{\"msg\":{\"list\":");
    push_json_array(&mut body, list);
    body.append(",\"me\":{\"name\":");
    body.append(json_quote(name).as_str());
    body.append(",\"token\":");
    body.append(json_quote(identity_token).as_str());
    body.append("},\"room_name\":");
    body.append(json_quote(room_name).as_str());
    body.append(",\"room_token\":");
    body.append(json_quote(room_token).as_str());
    body.append("},\"success\":true}");
    Ok(body)
}

/// A hyphenated lower-case UUID of version 4 in text: 36 characters,
/// hyphens at 8, 13, 18 and 23, lower-case hex digits elsewhere, `4` at 14
/// and one of `8`, `9`, `a`, `b` at 19.
pub open spec fn is_uuid_v4_text(t: Seq<char>) -> bool {
    &&& t.len() == 36
    &&& forall|i: int| 0 <= i < 36 ==> {
        let c = #[trigger] t[i];
        if i == 8 || i == 13 || i == 18 || i == 23 {
            c == '-'
        } else {
            ('0' <= c <= '9') || ('a' <= c <= 'f')
        }
    }
    &&& t[14] == '4'
    &&& (t[19] == '8' || t[19] == '9' || t[19] == 'a' || t[19] == 'b')
}

/// The extension of the last component of a path, as `Path::extension`
/// finds it, or the empty text where it finds none or it is not UTF-8.
pub uninterp spec fn path_extension_of(path: Seq<char>) -> Seq<char>;

/// The 16 bytes of a version-4 UUID made from random bytes: the high
/// nibble of byte 6 set to the version 4, the two high bits of byte 8 set to
/// the variant `10`.
pub open spec fn v4_bytes(random: Seq<u8>) -> Seq<u8> {
    random.update(6, (random[6] & 0x0f) | 0x40).update(8, (random[8] & 0x3f) | 0x80)
}

/// The hyphenated lower-case form of 16 bytes: hex digits in groups of 4, 2,
/// 2, 2 and 6 bytes, joined by `-`.
pub open spec fn hyphenated(b: Seq<u8>) -> Seq<char> {
    hex_lower(b.subrange(0, 4)) + seq!['-'] + hex_lower(b.subrange(4, 6)) + seq!['-'] + hex_lower(
        b.subrange(6, 8),
    ) + seq!['-'] + hex_lower(b.subrange(8, 10)) + seq!['-'] + hex_lower(b.subrange(10, 16))
}

/// The text of the version-4 UUID made from the random bytes.
pub open spec fn uuid_v4_text(random: Seq<u8>) -> Seq<char> {
    hyphenated(v4_bytes(random))
}

/// The name of an uploaded file, made from 16 random bytes through
/// `uuid::Builder::from_random_bytes` and the `Display` form of the UUID.
/// Claimed: the result is `uuid_v4_text(random)`: the crate sets the version
/// and variant bits (`with_version`, `with_variant`) and writes the bytes
/// as hyphenated lower-case hex.
#[verifier::external_body]
fn uuid_v4_name(random: [u8; 16]) -> (n: String)
    ensures
        n@ == uuid_v4_text(random@),
{
    uuid::Builder::from_random_bytes(random).into_uuid().to_string()
}

/// The hex digits of byte `k` stand at `2 k` and `2 k + 1`.
proof fn lemma_hex_lower_at(bytes: Seq<u8>, k: int)
    requires
        0 <= k < bytes.len(),
    ensures
        hex_lower(bytes).len() == 2 * bytes.len(),
        hex_lower(bytes)[2 * k] == hex_digit((bytes[k] / 16) as int),
        hex_lower(bytes)[2 * k + 1] == hex_digit((bytes[k] % 16) as int),
    decreases bytes.len(),
{
    lemma_hex_lower_shape(bytes);
    if k < bytes.len() - 1 {
        lemma_hex_lower_at(bytes.drop_last(), k);
        lemma_hex_lower_shape(bytes.drop_last());
        assert(bytes.drop_last()[k] == bytes[k]);
    }
}

/// The text of a version-4 UUID made from 16 bytes has the shape of one.
pub proof fn lemma_uuid_v4_text_shape(random: Seq<u8>)
    requires
        random.len() == 16,
    ensures
        is_uuid_v4_text(uuid_v4_text(random)),
{
    let b = v4_bytes(random);
    let t = uuid_v4_text(random);
    let g0 = hex_lower(b.subrange(0, 4));
    let g1 = hex_lower(b.subrange(4, 6));
    let g2 = hex_lower(b.subrange(6, 8));
    let g3 = hex_lower(b.subrange(8, 10));
    let g4 = hex_lower(b.subrange(10, 16));
    lemma_hex_lower_shape(b.subrange(0, 4));
    lemma_hex_lower_shape(b.subrange(4, 6));
    lemma_hex_lower_shape(b.subrange(6, 8));
    lemma_hex_lower_shape(b.subrange(8, 10));
    lemma_hex_lower_shape(b.subrange(10, 16));
    assert(t.len() == 36);
    assert forall|i: int| 0 <= i < 36 implies {
        let c = #[trigger] t[i];
        if i == 8 || i == 13 || i == 18 || i == 23 {
            c == '-'
        } else {
            ('0' <= c <= '9') || ('a' <= c <= 'f')
        }
    } by {
        if i < 8 {
            assert(t[i] == g0[i]);
        } else if i < 13 {
            assert(i == 8 || t[i] == g1[i - 9]);
        } else if i < 18 {
            assert(i == 13 || t[i] == g2[i - 14]);
        } else if i < 23 {
            assert(i == 18 || t[i] == g3[i - 19]);
        } else {
            assert(i == 23 || t[i] == g4[i - 24]);
        }
    }
    let x: u8 = random[6];
    let y: u8 = random[8];
    let v = (x & 0x0f) | 0x40;
    let w = (y & 0x3f) | 0x80;
    assert(((x & 0x0f) | 0x40) / 16 == 4) by (bit_vector);
    assert(8 <= ((y & 0x3f) | 0x80) / 16 <= 11) by (bit_vector);
    assert(b.subrange(6, 8)[0] == v);
    assert(b.subrange(8, 10)[0] == w);
    lemma_hex_lower_at(b.subrange(6, 8), 0);
    lemma_hex_lower_at(b.subrange(8, 10), 0);
    assert(t[14] == g2[0]);
    assert(t[19] == g3[0]);
}

/// The extension of a path, through `std::path::Path::extension`.
/// Claimed: the result is `path_extension_of(path)`, a function of the path
/// alone within one build (how a path splits into components depends on
/// the target's path separators).
#[verifier::external_body]
fn path_extension(path: &str) -> (e: String)
    ensures
        e@ == path_extension_of(path@),
{
    std::path::Path::new(path).extension().unwrap_or_default().to_str().unwrap_or_default().to_string()
}

/// Where an uploaded file goes: the name it was sent under, the name it is
/// stored under, the path it is copied to and the URL it is served at.
pub struct UploadTarget {
    pub file_name: String,
    pub stored_name: String,
    pub dest: String,
    pub url: String,
}

/// The failure of an upload without a file.
pub open spec fn no_file(e: HandleError<true>) -> bool {
    e.0@ == "file not found in request"@ && e.1 == 400
}

/// The failure of an upload whose file has no name.
pub open spec fn no_file_name(e: HandleError<true>) -> bool {
    e.0@ == "file'name not found in request"@ && e.1 == 400
}

/// Where an uploaded file goes, given who asks, the path it was received
/// at, the name it was sent under and 16 random bytes: the version-4 UUID
/// made from the bytes, with the extension of the received file, under
/// `./static/upload/` on disk and `/static/upload/` on the web. A request
/// that was not authorized fails with the person's failure before anything
/// else; without a file, or without a file name, the upload fails with 400.
pub fn upload_target(
    person: Result<(String, String, String), HandleError<true>>,
    received_path: Option<&str>,
    sent_name: Option<&str>,
    random: [u8; 16],
) -> (r: Result<UploadTarget, HandleError<true>>)
    ensures
        match (person, received_path, sent_name) {
            (Err(refused), _, _) => r matches Err(e) && e.0@ == refused.0@ && e.1 == refused.1,
            (Ok(_), None, _) => r matches Err(e) && no_file(e),
            (Ok(_), Some(_), None) => r matches Err(e) && no_file_name(e),
            (Ok(_), Some(path), Some(name)) => r matches Ok(t) && {
                let ext = path_extension_of(path@);
                &&& t.file_name@ == name@
                &&& t.stored_name@ == uuid_v4_text(random@)
                &&& is_uuid_v4_text(t.stored_name@)
                &&& t.dest@ == "./static/upload/"@ + t.stored_name@ + "."@ + ext
                &&& t.url@ == "/static/upload/"@ + t.stored_name@ + "."@ + ext
            },
        },
{
    if let Err(refused) = person {
        return Err(refused);
    }
    let path = match received_path {
        Some(p) => p,
        None => {
            return Err(HandleError::new(String::from_str("file not found in request"), 400));
        },
    };
    let name = match sent_name {
        Some(n) => n,
        None => {
            return Err(HandleError::new(String::from_str("file'name not found in request"), 400));
        },
    };
    let ext = path_extension(path);
    let stored = uuid_v4_name(random);
    proof {
        lemma_uuid_v4_text_shape(random@);
    }
    let mut dest = String::from_str("./static/upload/");
    dest.append(stored.as_str());
    dest.append(".");
    dest.append(ext.as_str());
    let mut url = String::from_str("/static/upload/");
    url.append(stored.as_str());
    url.append(".");
    url.append(ext.as_str());
    Ok(UploadTarget { file_name: String::from_str(name), stored_name: stored, dest, url })
}

/// `true` or `false` in JSON.
pub open spec fn json_bool(b: bool) -> Seq<char> {
    if b {
        "true"@
    } else {
        "false"@
    }
}

/// The JSON body that a stored upload is answered with.
pub open spec fn upload_json(file_name: Seq<char>, is_picture: bool, size: u64, url: Seq<char>) -> Seq<char> {
    "{\"msg\":{\"file_name\":"@ + json_string(file_name) + ",\"is_picture\":"@ + json_bool(is_picture)
        + ",\"size\":"@ + decimal(size as nat) + ",\"url\":"@ + json_string(url) + "},\"success\":true}"@
}

/// The answer to an upload once the file was copied to `target.dest` (or
/// failed to be, with the error's text): whether it is a picture, its size
/// and where it is served. A failed copy fails with 400.
pub fn upload(target: &UploadTarget, copied: Result<(), String>, is_picture: bool, size: u64) -> (r: Result<
    String,
    HandleError<true>,
>)
    ensures
        match copied {
            Err(m) => r matches Err(e) && e.0@ == "file not found in request: "@ + m@ && e.1 == 400,
            Ok(_) => r matches Ok(body) && body@ == upload_json(target.file_name@, is_picture, size, target.url@),
        },
{
    if let Err(m) = copied {
        let mut v = String::from_str("file not found in request: ");
        v.append(m.as_str());
        return Err(HandleError::new(v, 400));
    }
    let mut body = String::from_str("{\"msg\":{\"file_name\":");
    body.append(json_quote(target.file_name.as_str()).as_str());
    body.append(",\"is_picture\":");
    if is_picture {
        body.append("true");
    } else {
        body.append("false");
    }
    body.append(",\"size\":");
    push_decimal(&mut body, size);
    body.append(",\"url\":");
    body.append(json_quote(target.url.as_str()).as_str());
    body.append("},\"success\":true}");
    Ok(body)
}

/// Where item `i` starts in the JSON array of `items`: after `[` and after
/// each earlier item and its `,`.
pub open spec fn item_start(items: Seq<Seq<char>>, i: int) -> int
    decreases i,
{
    if i <= 0 {
        1
    } else {
        item_start(items, i - 1) + items[i - 1].len() + 1
    }
}

/// `item_start` depends only on the items before `i`.
proof fn lemma_item_start_prefix(items: Seq<Seq<char>>, other: Seq<Seq<char>>, i: int)
    requires
        0 <= i <= items.len(),
        i <= other.len(),
        forall|j: int| 0 <= j < i ==> items[j] == other[j],
    ensures
        item_start(items, i) == item_start(other, i),
    decreases i,
{
    if i > 0 {
        lemma_item_start_prefix(items, other, i - 1);
    }
}

/// Items start further on the later they come.
proof fn lemma_item_start_mono(items: Seq<Seq<char>>, i: int, j: int)
    requires
        0 <= i <= j <= items.len(),
    ensures
        item_start(items, i) + (j - i) <= item_start(items, j),
    decreases j - i,
{
    if i < j {
        lemma_item_start_mono(items, i, j - 1);
        assert(item_start(items, j) == item_start(items, j - 1) + items[j - 1].len() + 1);
    }
}

/// One item of the joined text, given the joined text of the items before
/// the last.
proof fn lemma_comma_joined_step(items: Seq<Seq<char>>, i: int)
    requires
        items.len() >= 2,
        0 <= i < items.len(),
        ({
            let init = items.drop_last();
            &&& comma_joined(init).len() == item_start(init, init.len() as int) - 2
            &&& i < init.len() ==> comma_joined(init).subrange(
                item_start(init, i) - 1,
                item_start(init, i) - 1 + init[i].len(),
            ) == init[i]
            &&& i < init.len() - 1 ==> comma_joined(init)[item_start(init, i) - 1 + init[i].len()] == ','
        }),
    ensures
        comma_joined(items).subrange(item_start(items, i) - 1, item_start(items, i) - 1 + items[i].len()) == items[i],
        i < items.len() - 1 ==> comma_joined(items)[item_start(items, i) - 1 + items[i].len()] == ',',
{
    let n = items.len() as int;
    let init = items.drop_last();
    let ci = comma_joined(init);
    let c = comma_joined(items);
    assert(c == ci + seq![','] + items[n - 1]);
    lemma_item_start_prefix(items, init, i);
    lemma_item_start_prefix(items, init, n - 1);
    let st = item_start(items, i);
    if i < n - 1 {
        assert(init[i] == items[i]);
        lemma_item_start_mono(init, i + 1, n - 1);
        assert(item_start(init, i) == st);
        assert(item_start(init, i + 1) == item_start(init, i) + init[i].len() + 1);
        assert(ci.len() == item_start(init, n - 1) - 2);
        assert(st - 1 + items[i].len() <= ci.len());
        assert(st >= 1) by {
            lemma_item_start_mono(init, 0, i);
        }
        assert forall|k: int| 0 <= k < items[i].len() implies #[trigger] c.subrange(st - 1, st - 1 + items[i].len())[k]
            == ci.subrange(st - 1, st - 1 + items[i].len())[k] by {
            assert(c[st - 1 + k] == ci[st - 1 + k]);
        }
        assert(c.subrange(st - 1, st - 1 + items[i].len()) =~= ci.subrange(st - 1, st - 1 + items[i].len()));
        if i < n - 2 {
            assert(c[st - 1 + items[i].len()] == ci[st - 1 + items[i].len()]);
        }
    } else {
        assert(st == ci.len() + 2);
        assert(c.subrange(st - 1, st - 1 + items[i].len()) =~= items[i]);
    }
}

/// The items joined by `,`: item `i` stands at `item_start(i) - 1`, each
/// but the last is followed by `,`, and nothing else is there.
proof fn lemma_comma_joined_items(items: Seq<Seq<char>>)
    requires
        items.len() > 0,
    ensures
        comma_joined(items).len() == item_start(items, items.len() as int) - 2,
        forall|i: int| 0 <= i < items.len() ==> comma_joined(items).subrange(
            item_start(items, i) - 1,
            item_start(items, i) - 1 + items[i].len(),
        ) == #[trigger] items[i],
        forall|i: int| 0 <= i < items.len() - 1 ==> comma_joined(items)[item_start(items, i) - 1 + (#[trigger] items[i]).len()] == ',',
    decreases items.len(),
{
    let n = items.len() as int;
    if n == 1 {
        assert(comma_joined(items) == items[0]);
        assert(item_start(items, 1) == item_start(items, 0) + items[0].len() + 1);
        assert(comma_joined(items).subrange(0, items[0].len() as int) =~= items[0]);
    } else {
        let init = items.drop_last();
        lemma_comma_joined_items(init);
        lemma_item_start_prefix(items, init, n - 1);
        assert(item_start(items, n) == item_start(items, n - 1) + items[n - 1].len() + 1);
        assert forall|i: int| 0 <= i < n implies comma_joined(items).subrange(
            item_start(items, i) - 1,
            item_start(items, i) - 1 + items[i].len(),
        ) == #[trigger] items[i] by {
            if i < n - 1 {
                assert(init[i] == items[i]);
            }
            lemma_comma_joined_step(items, i);
        }
        assert forall|i: int| 0 <= i < n - 1 implies comma_joined(items)[item_start(items, i) - 1 + (#[trigger] items[i]).len()] == ',' by {
            assert(init[i] == items[i]);
            lemma_comma_joined_step(items, i);
        }
    }
}

/// The JSON array of texts holds exactly the given items, in order: it
/// opens with `[`, item `i` stands at `item_start(items, i)`, each item but
/// the last is followed by `,`, the last by the closing `]`, and the array
/// ends there (an array of no items is `[]`).
pub proof fn lemma_json_array_items(items: Seq<Seq<char>>)
    ensures
        json_array(items)[0] == '[',
        items.len() == 0 ==> json_array(items) == seq!['[', ']'],
        items.len() > 0 ==> json_array(items).len() == item_start(items, items.len() as int),
        forall|i: int| 0 <= i < items.len() ==> json_array(items).subrange(
            item_start(items, i),
            item_start(items, i) + items[i].len(),
        ) == #[trigger] items[i],
        forall|i: int| 0 <= i < items.len() ==> json_array(items)[item_start(items, i) + (#[trigger] items[i]).len()]
            == (if i == items.len() - 1 { ']' } else { ',' }),
{
    let a = json_array(items);
    if items.len() == 0 {
        assert(a =~= seq!['[', ']']);
    } else {
        lemma_comma_joined_items(items);
        assert forall|i: int| 0 <= i < items.len() implies a.subrange(
            item_start(items, i),
            item_start(items, i) + items[i].len(),
        ) == #[trigger] items[i] && a[item_start(items, i) + items[i].len()]
            == (if i == items.len() - 1 { ']' } else { ',' }) by {
            lemma_json_array_item(items, i);
        }
    }
}

/// One item of a non-empty JSON array of texts.
proof fn lemma_json_array_item(items: Seq<Seq<char>>, i: int)
    requires
        0 <= i < items.len(),
        comma_joined(items).len() == item_start(items, items.len() as int) - 2,
        comma_joined(items).subrange(item_start(items, i) - 1, item_start(items, i) - 1 + items[i].len()) == items[i],
        i < items.len() - 1 ==> comma_joined(items)[item_start(items, i) - 1 + items[i].len()] == ',',
    ensures
        json_array(items).subrange(item_start(items, i), item_start(items, i) + items[i].len()) == items[i],
        json_array(items)[item_start(items, i) + items[i].len()] == (if i == items.len() - 1 { ']' } else { ',' }),
{
    let n = items.len() as int;
    let a = json_array(items);
    let c = comma_joined(items);
    let st = item_start(items, i);
    let len = items[i].len() as int;
    assert(a == seq!['['] + c + seq![']']);
    lemma_item_start_mono(items, 0, i);
    lemma_item_start_mono(items, i + 1, n);
    assert(item_start(items, i + 1) == st + len + 1);
    assert(st >= 1 && st + len <= c.len() + 1);
    assert forall|k: int| 0 <= k < len implies #[trigger] a.subrange(st, st + len)[k] == c.subrange(st - 1, st - 1 + len)[k] by {
        assert(a[st + k] == c[st - 1 + k]);
    }
    assert(a.subrange(st, st + len) =~= c.subrange(st - 1, st - 1 + len));
    if i < n - 1 {
        assert(a[st + len] == c[st - 1 + len]);
    } else {
        assert(st + len == c.len() + 1);
    }
}

/// The history body lists the stored messages right after its opening
/// `{"msg":{"list":`: the array of exactly the given items, each at its
/// place, followed by the person's part.
pub proof fn lemma_history_lists_every_message(
    list: Seq<Seq<char>>,
    name: Seq<char>,
    identity_token: Seq<char>,
    room_token: Seq<char>,
    room_name: Seq<char>,
)
    ensures
        ({
            let body = history_json(list, name, identity_token, room_token, room_name);
            let a = json_array(list);
            &&& body.subrange(0, 15) == "{\"msg\":{\"list\":"@
            &&& body.subrange(15, 15 + (a.len() as int)) == a
            &&& forall|i: int| 0 <= i < list.len() ==> body.subrange(
                15 + item_start(list, i),
                15 + item_start(list, i) + list[i].len(),
            ) == #[trigger] list[i]
            &&& body.subrange(15 + (a.len() as int), 15 + (a.len() as int) + 8) == ",\"me\":{\""@
        }),
{
    reveal_strlit("{\"msg\":{\"list\":");
    reveal_strlit(",\"me\":{\"name\":");
    reveal_strlit(",\"me\":{\"");
    lemma_json_array_items(list);
    let body = history_json(list, name, identity_token, room_token, room_name);
    let a = json_array(list);
    let head = "{\"msg\":{\"list\":"@;
    let me = ",\"me\":{\"name\":"@;
    let tail = me + json_string(name) + ",\"token\":"@ + json_string(identity_token) + "},\"room_name\":"@
        + json_string(room_name) + ",\"room_token\":"@ + json_string(room_token) + "},\"success\":true}"@;
    assert(body =~= head + a + tail);
    let al = a.len() as int;
    assert(head.len() == 15);
    assert(me.len() == 14);
    lemma_three_parts(head, a, tail);
    assert forall|i: int| 0 <= i < list.len() implies body.subrange(
        15 + item_start(list, i),
        15 + item_start(list, i) + list[i].len(),
    ) == #[trigger] list[i] by {
        let st = item_start(list, i);
        let len = list[i].len() as int;
        lemma_item_start_mono(list, 0, i);
        lemma_item_start_mono(list, i + 1, list.len() as int);
        lemma_subrange_of_subrange(body, 15, 15 + al, st, st + len);
    }
    assert(tail.subrange(0, 8) =~= ",\"me\":{\""@);
    lemma_subrange_of_subrange(body, 15 + al, body.len() as int, 0, 8);
}

/// The parts of `x + y + z` stand where their lengths put them.
proof fn lemma_three_parts(x: Seq<char>, y: Seq<char>, z: Seq<char>)
    ensures
        (x + y + z).subrange(0, x.len() as int) == x,
        (x + y + z).subrange(x.len() as int, (x.len() + y.len()) as int) == y,
        (x + y + z).subrange((x.len() + y.len()) as int, (x.len() + y.len() + z.len()) as int) == z,
{
    assert((x + y + z).subrange(0, x.len() as int) =~= x);
    assert((x + y + z).subrange(x.len() as int, (x.len() + y.len()) as int) =~= y);
    assert((x + y + z).subrange((x.len() + y.len()) as int, (x.len() + y.len() + z.len()) as int) =~= z);
}

/// A piece of a piece is a piece of the whole.
proof fn lemma_subrange_of_subrange(s: Seq<char>, p: int, q: int, m: int, n: int)
    requires
        0 <= p <= q <= s.len(),
        0 <= m <= n <= q - p,
    ensures
        s.subrange(p, q).subrange(m, n) == s.subrange(p + m, p + n),
{
    assert(s.subrange(p, q).subrange(m, n) =~= s.subrange(p + m, p + n));
}

/// Where `mid` stands in `pre + mid + post`.
proof fn lemma_part(whole: Seq<char>, pre: Seq<char>, mid: Seq<char>, post: Seq<char>)
    requires
        whole == pre + mid + post,
    ensures
        whole.subrange(pre.len() as int, (pre.len() + mid.len()) as int) == mid,
        whole.len() == pre.len() + mid.len() + post.len(),
{
    lemma_three_parts(pre, mid, post);
}

/// The upload body tells whether the file is a picture by the flag alone:
/// right after `{"msg":{"file_name":`, the file name as a JSON string and
/// `,"is_picture":` stands `true` for a picture and `false` otherwise,
/// whatever the size and URL; then `,"size":` and the size in decimal.
pub proof fn lemma_upload_reports_picture_flag(file_name: Seq<char>, is_picture: bool, size: u64, url: Seq<char>)
    ensures
        ({
            let body = upload_json(file_name, is_picture, size, url);
            let k = 34 + json_string(file_name).len() as int;
            let flag = if is_picture { seq!['t', 'r', 'u', 'e'] } else { seq!['f', 'a', 'l', 's', 'e'] };
            let fl = flag.len() as int;
            let dl = decimal(size as nat).len() as int;
            &&& body.subrange(0, 20) == "{\"msg\":{\"file_name\":"@
            &&& body.subrange(20, k - 14) == json_string(file_name)
            &&& body.subrange(k, k + fl) == flag
            &&& body.subrange(k + fl + 8, k + fl + 8 + dl) == decimal(size as nat)
        }),
{
    reveal_strlit("{\"msg\":{\"file_name\":");
    reveal_strlit(",\"is_picture\":");
    reveal_strlit(",\"size\":");
    reveal_strlit("true");
    reveal_strlit("false");
    let body = upload_json(file_name, is_picture, size, url);
    let head = "{\"msg\":{\"file_name\":"@;
    let fname = json_string(file_name);
    let pic = ",\"is_picture\":"@;
    let flag = json_bool(is_picture);
    let sz = ",\"size\":"@;
    let dec = decimal(size as nat);
    let rest = ",\"url\":"@ + json_string(url) + "},\"success\":true}"@;
    assert(head.len() == 20 && pic.len() == 14 && sz.len() == 8);
    assert(flag =~= (if is_picture { seq!['t', 'r', 'u', 'e'] } else { seq!['f', 'a', 'l', 's', 'e'] }));
    assert(body =~= head + fname + (pic + flag + sz + dec + rest));
    lemma_part(body, head, fname, pic + flag + sz + dec + rest);
    lemma_three_parts(head, fname, pic + flag + sz + dec + rest);
    assert(body =~= (head + fname + pic) + flag + (sz + dec + rest));
    lemma_part(body, head + fname + pic, flag, sz + dec + rest);
    assert(body =~= (head + fname + pic + flag + sz) + dec + rest);
    lemma_part(body, head + fname + pic + flag + sz, dec, rest);
}

/// The checked body shows every field of the claims whole, each at its
/// place: the name, the identity token and the room token in their `Debug`
/// form and the expiry in decimal, between the field labels of `JwtClaims`.
pub proof fn lemma_check_login_shows_claims(c: JwtClaims)
    ensures
        ({
            let body = claims_debug(c);
            let n = debug_quoted(c.name@);
            let i = debug_quoted(c.identity_token@);
            let r = debug_quoted(c.room_token@);
            let e = signed_decimal(c.exp as int);
            let nl = n.len() as int;
            let il = i.len() as int;
            let rl = r.len() as int;
            let el = e.len() as int;
            &&& body.subrange(0, 18) == "JwtClaims { name: "@
            &&& body.subrange(18, 18 + nl) == n
            &&& body.subrange(36 + nl, 36 + nl + il) == i
            &&& body.subrange(50 + nl + il, 50 + nl + il + rl) == r
            &&& body.subrange(57 + nl + il + rl, 57 + nl + il + rl + el) == e
            &&& body.len() == 59 + nl + il + rl + el
        }),
{
    reveal_strlit("JwtClaims { name: ");
    reveal_strlit(", identity_token: ");
    reveal_strlit(", room_token: ");
    reveal_strlit(", exp: ");
    reveal_strlit(" }");
    let body = claims_debug(c);
    let l1 = "JwtClaims { name: "@;
    let l2 = ", identity_token: "@;
    let l3 = ", room_token: "@;
    let l4 = ", exp: "@;
    let l5 = " }"@;
    let n = debug_quoted(c.name@);
    let i = debug_quoted(c.identity_token@);
    let r = debug_quoted(c.room_token@);
    let e = signed_decimal(c.exp as int);
    assert(l1.len() == 18 && l2.len() == 18 && l3.len() == 14 && l4.len() == 7 && l5.len() == 2);
    assert(body =~= l1 + n + (l2 + i + l3 + r + l4 + e + l5));
    lemma_part(body, l1, n, l2 + i + l3 + r + l4 + e + l5);
    lemma_three_parts(l1, n, l2 + i + l3 + r + l4 + e + l5);
    assert(body =~= (l1 + n + l2) + i + (l3 + r + l4 + e + l5));
    lemma_part(body, l1 + n + l2, i, l3 + r + l4 + e + l5);
    assert(body =~= (l1 + n + l2 + i + l3) + r + (l4 + e + l5));
    lemma_part(body, l1 + n + l2 + i + l3, r, l4 + e + l5);
    assert(body =~= (l1 + n + l2 + i + l3 + r + l4) + e + l5);
    lemma_part(body, l1 + n + l2 + i + l3 + r + l4, e, l5);
}

} // verus!
