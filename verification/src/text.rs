//! Text that the service writes: JSON strings, decimal numbers, lower-case
//! hex, and the `Debug` form of a string.
use vstd::prelude::*;

verus! {

/// The lower-case hex digit of `n` (below 16).
pub open spec fn hex_digit(n: int) -> char {
    if n < 10 {
        (48 + n) as char
    } else {
        (87 + n) as char
    }
}

/// The decimal digit of `n` (below 10).
pub open spec fn decimal_digit(n: int) -> char {
    (48 + n) as char
}

/// How JSON writes one character inside a string: `"` and `\` behind a
/// backslash, the control characters with a short escape where JSON has one
/// and as `\u00xx` otherwise, every other character as itself.
pub open spec fn json_escape_char(c: char) -> Seq<char> {
    if c == '"' {
        seq!['\\', '"']
    } else if c == '\\' {
        seq!['\\', '\\']
    } else if c == '\u{8}' {
        seq!['\\', 'b']
    } else if c == '\t' {
        seq!['\\', 't']
    } else if c == '\n' {
        seq!['\\', 'n']
    } else if c == '\u{c}' {
        seq!['\\', 'f']
    } else if c == '\r' {
        seq!['\\', 'r']
    } else if (c as u32) < 0x20 {
        seq!['\\', 'u', '0', '0', hex_digit(((c as u32) / 16) as int), hex_digit(((c as u32) % 16) as int)]
    } else {
        seq![c]
    }
}

/// The characters of `s`, each escaped for a JSON string.
pub open spec fn json_escaped(s: Seq<char>) -> Seq<char>
    decreases s.len(),
{
    if s.len() == 0 {
        Seq::empty()
    } else {
        json_escaped(s.drop_last()) + json_escape_char(s.last())
    }
}

/// `s` as a JSON string literal, quotes included.
pub open spec fn json_string(s: Seq<char>) -> Seq<char> {
    seq!['"'] + json_escaped(s) + seq!['"']
}

/// The decimal digits of `n`, without leading zeros.
pub open spec fn decimal(n: nat) -> Seq<char>
    decreases n,
{
    if n < 10 {
        seq![decimal_digit(n as int)]
    } else {
        decimal(n / 10).push(decimal_digit((n % 10) as int))
    }
}

/// The decimal form of `n`, with `-` in front of a negative number.
pub open spec fn signed_decimal(n: int) -> Seq<char> {
    if n < 0 {
        seq!['-'] + decimal((-n) as nat)
    } else {
        decimal(n as nat)
    }
}

/// The two lower-case hex digits of each byte, in order.
pub open spec fn hex_lower(bytes: Seq<u8>) -> Seq<char>
    decreases bytes.len(),
{
    if bytes.len() == 0 {
        Seq::empty()
    } else {
        hex_lower(bytes.drop_last()) + seq![
            hex_digit((bytes.last() / 16) as int),
            hex_digit((bytes.last() % 16) as int),
        ]
    }
}

/// The `Debug` form of a string: quoted, with the characters that `Debug`
/// escapes escaped.
pub uninterp spec fn debug_quoted(s: Seq<char>) -> Seq<char>;

/// Writes a string as a JSON string literal through `serde_json::to_string`.
/// Claimed: the result is `json_string(s)`, the escaping of serde_json's
/// compact formatter (quote, backslash and control characters escaped,
/// control characters without a short escape as `\u00` and two lower-case
/// hex digits, everything else as is). Serialising a `str` cannot fail.
#[verifier::external_body]
pub(crate) fn json_quote(s: &str) -> (r: String)
    ensures
        r@ == json_string(s@),
{
    serde_json::to_string(s).unwrap_or_default()
}

/// The `Debug` form of a string, as `format!("{:?}", s)` writes it.
/// Claimed: the result is `debug_quoted(s)`, a function of `s` alone; what
/// that form is is not stated.
#[verifier::external_body]
pub(crate) fn debug_quote(s: &str) -> (r: String)
    ensures
        r@ == debug_quoted(s@),
{
    format!("{:?}", s)
}

/// Appends one character, through `String::push`.
/// Claimed: the string gains `c` at its end.
#[verifier::external_body]
pub(crate) fn push_char(s: &mut String, c: char)
    ensures
        final(s)@ == old(s)@.push(c),
{
    s.push(c)
}

/// The lower-case hex digit of `n`.
pub fn hex_char(n: u8) -> (c: char)
    requires
        n < 16,
    ensures
        c == hex_digit(n as int),
{
    if n < 10 {
        (48u8 + n) as char
    } else {
        (87u8 + n) as char
    }
}

/// Appends the decimal digits of `n`.
pub fn push_decimal(out: &mut String, n: u64)
    ensures
        final(out)@ == old(out)@ + decimal(n as nat),
    decreases n,
{
    if n >= 10 {
        push_decimal(out, n / 10);
    }
    let d: u8 = (n % 10) as u8;
    push_char(out, (48u8 + d) as char);
    proof {
        if n < 10 {
            assert(decimal(n as nat) =~= seq![decimal_digit(n as int)]);
        }
    }
    assert(out@ =~= old(out)@ + decimal(n as nat));
}

/// Appends the decimal form of `n`, with its sign.
pub fn push_signed_decimal(out: &mut String, n: i64)
    ensures
        final(out)@ == old(out)@ + signed_decimal(n as int),
{
    if n < 0 {
        push_char(out, '-');
        let m: u64 = ((-(n + 1)) as u64) + 1;
        push_decimal(out, m);
        assert(out@ =~= old(out)@ + signed_decimal(n as int));
    } else {
        push_decimal(out, n as u64);
    }
}

/// Appends the lower-case hex form of the bytes.
pub fn push_hex_lower(out: &mut String, bytes: &[u8])
    ensures
        final(out)@ == old(out)@ + hex_lower(bytes@),
{
    let ghost start = out@;
    let mut i: usize = 0;
    while i < bytes.len()
        invariant
            i <= bytes@.len(),
            out@ == start + hex_lower(bytes@.take(i as int)),
        decreases bytes@.len() - i,
    {
        let b = bytes[i];
        push_char(out, hex_char(b / 16));
        push_char(out, hex_char(b % 16));
        proof {
            assert(bytes@.take(i as int + 1).drop_last() =~= bytes@.take(i as int));
            assert(bytes@.take(i as int + 1).last() == b);
        }
        assert(out@ =~= start + hex_lower(bytes@.take(i as int + 1)));
        i = i + 1;
    }
    assert(bytes@.take(i as int) =~= bytes@);
}

} // verus!
