//! Password digests and identity tokens: lower-case hex MD5.
use vstd::prelude::*;

use crate::text::{hex_lower, push_hex_lower};

verus! {

/// The MD5 digest of the UTF-8 bytes of `text`.
pub uninterp spec fn md5_digest_of(text: Seq<char>) -> Seq<u8>;

/// The digest of `text` written as 32 lower-case hex digits.
pub open spec fn md5_hex(text: Seq<char>) -> Seq<char> {
    hex_lower(md5_digest_of(text))
}

/// What the identity token of a person in a room is the digest of:
/// name, password digest and room token, joined by `/`.
pub open spec fn identity_source(name: Seq<char>, pass_md5: Seq<char>, room_token: Seq<char>) -> Seq<char> {
    name + seq!['/'] + pass_md5 + seq!['/'] + room_token
}

/// The MD5 digest of the bytes of `text`, through `md5::compute`.
/// Claimed: the result is `md5_digest_of(text)` and has 16 bytes (the
/// crate's `Digest` wraps a `[u8; 16]`).
#[verifier::external_body]
fn md5_of_text(text: &str) -> (d: Vec<u8>)
    ensures
        d@ == md5_digest_of(text@),
        d@.len() == 16,
{
    md5::compute(text).0.to_vec()
}

/// The stored form of a password: its MD5 digest in lower-case hex.
pub fn password_digest(pass: &str) -> (h: String)
    ensures
        h@ == md5_hex(pass@),
        is_hex32(h@),
{
    let d = md5_of_text(pass);
    let mut h = String::new();
    push_hex_lower(&mut h, d.as_slice());
    proof {
        lemma_hex_lower_shape(d@);
    }
    h
}

/// The identity token of a person in a room: the lower-case hex MD5 of
/// `name/pass_md5/room_token`.
pub fn identity_token(name: &str, pass_md5: &str, room_token: &str) -> (t: String)
    ensures
        t@ == md5_hex(identity_source(name@, pass_md5@, room_token@)),
        is_hex32(t@),
{
    let mut source = String::from_str(name);
    source.append("/");
    source.append(pass_md5);
    source.append("/");
    source.append(room_token);
    proof {
        reveal_strlit("/");
        assert(source@ =~= identity_source(name@, pass_md5@, room_token@));
    }
    let d = md5_of_text(source.as_str());
    let mut t = String::new();
    push_hex_lower(&mut t, d.as_slice());
    proof {
        lemma_hex_lower_shape(d@);
    }
    t
}

/// Hex of `n` bytes has `2 n` digits, each a lower-case hex digit.
pub proof fn lemma_hex_lower_shape(bytes: Seq<u8>)
    ensures
        hex_lower(bytes).len() == 2 * bytes.len(),
        forall|i: int| 0 <= i < hex_lower(bytes).len() ==> {
            let c = #[trigger] hex_lower(bytes)[i];
            ('0' <= c <= '9') || ('a' <= c <= 'f')
        },
    decreases bytes.len(),
{
    if bytes.len() > 0 {
        lemma_hex_lower_shape(bytes.drop_last());
        let b = bytes.last();
        assert(b / 16 < 16 && b % 16 < 16);
        let h = hex_lower(bytes);
        let p = hex_lower(bytes.drop_last());
        assert forall|i: int| 0 <= i < h.len() implies {
            let c = #[trigger] h[i];
            ('0' <= c <= '9') || ('a' <= c <= 'f')
        } by {
            if i < p.len() {
                assert(h[i] == p[i]);
            }
        }
    }
}

/// 32 lower-case hex digits: the shape of every digest this module writes.
pub open spec fn is_hex32(t: Seq<char>) -> bool {
    &&& t.len() == 32
    &&& forall|i: int| 0 <= i < 32 ==> {
        let c = #[trigger] t[i];
        ('0' <= c <= '9') || ('a' <= c <= 'f')
    }
}

} // verus!
