//! The greetd IPC requests: compact JSON objects with their keys in sorted
//! order, each sent behind a native-endian 32-bit length.
use crate::text::{append, chars_of, string_of};
use vstd::prelude::*;

verus! {

/// Responses longer than this are refused before they are read.
pub const MAX_MESSAGE: u32 = 65536;

pub open spec fn hex_lower(n: int) -> char {
    if n < 10 {
        (('0' as int) + n) as char
    } else {
        (('a' as int) + n - 10) as char
    }
}

/// How one character is written inside a JSON string: quote and backslash
/// escaped, the control characters below U+0020 as `\b`, `\t`, `\n`, `\f`,
/// `\r` or `\u00XX` (lower-case hex), everything else as it is.
pub open spec fn json_escaped(c: char) -> Seq<char> {
    if c == '"' {
        seq!['\\', '"']
    } else if c == '\\' {
        seq!['\\', '\\']
    } else if c == '\u{8}' {
        seq!['\\', 'b']
    } else if c == '\t' {
        seq!['\\', 't']
    } else if c == '\n' {
        seq!['\\', 'n']
    } else if c == '\u{c}' {
        seq!['\\', 'f']
    } else if c == '\r' {
        seq!['\\', 'r']
    } else if (c as u32) < 0x20 {
        seq!['\\', 'u', '0', '0', hex_lower((c as int) / 16), hex_lower((c as int) % 16)]
    } else {
        seq![c]
    }
}

pub open spec fn json_chars(s: Seq<char>) -> Seq<char>
    decreases s.len(),
{
    if s.len() == 0 {
        Seq::empty()
    } else {
        json_chars(s.drop_last()) + json_escaped(s.last())
    }
}

/// A JSON string literal for `s`.
pub open spec fn json_string(s: Seq<char>) -> Seq<char> {
    seq!['"'] + json_chars(s) + seq!['"']
}

pub open spec fn json_items(items: Seq<Seq<char>>) -> Seq<char>
    decreases items.len(),
{
    if items.len() == 0 {
        Seq::empty()
    } else if items.len() == 1 {
        json_string(items[0])
    } else {
        json_items(items.drop_last()) + seq![','] + json_string(items.last())
    }
}

/// A JSON array of strings.
pub open spec fn json_array(items: Seq<Seq<char>>) -> Seq<char> {
    seq!['['] + json_items(items) + seq![']']
}

pub open spec fn create_session_of(username: Seq<char>) -> Seq<char> {
    "{\"type\":\"create_session\",\"username\":"@ + json_string(username) + "}"@
}

pub open spec fn post_auth_response_of(response: Option<Seq<char>>) -> Seq<char> {
    "{\"response\":"@ + (match response {
        Some(r) => json_string(r),
        None => "null"@,
    }) + ",\"type\":\"post_auth_message_response\"}"@
}

pub open spec fn start_session_of(cmd: Seq<Seq<char>>, env: Seq<Seq<char>>) -> Seq<char> {
    "{\"cmd\":"@ + json_array(cmd) + ",\"env\":"@ + json_array(env) + ",\"type\":\"start_session\"}"@
}

pub open spec fn cancel_session_of() -> Seq<char> {
    "{\"type\":\"cancel_session\"}"@
}

/// A text as a JSON string literal, written by `serde_json` (the `Display`
/// of `serde_json::Value::String`). The contract states serde_json's string
/// escaping (`format_escaped_str`): `"` and `\` escaped, the control
/// characters below U+0020 as `\b`, `\t`, `\n`, `\f`, `\r` or `\u00XX` with
/// lower-case hex digits, every other character as it is.
#[verifier::external_body]
fn json_quoted(s: &str) -> (r: String)
    ensures
        r@ == json_string(s@),
{
    serde_json::Value::String(s.to_string()).to_string()
}

fn push_string(out: &mut Vec<char>, s: &str)
    ensures
        final(out)@ == old(out)@ + json_string(s@),
{
    let quoted = json_quoted(s);
    append(out, &chars_of(quoted.as_str()));
}

fn push_array(out: &mut Vec<char>, items: &Vec<String>)
    ensures
        final(out)@ == old(out)@ + json_array(items@.map_values(|s: String| s@)),
{
    let ghost start = out@;
    let ghost all = items@.map_values(|s: String| s@);
    out.push('[');
    let mut i: usize = 0;
    while i < items.len()
        invariant
            i <= items.len(),
            all == items@.map_values(|s: String| s@),
            out@ == start + seq!['['] + json_items(all.take(i as int)),
        decreases items.len() - i,
    {
        let ghost before = out@;
        assert(all.take(i + 1).drop_last() =~= all.take(i as int));
        assert(all.take(i + 1).last() == items@[i as int]@);
        if i > 0 {
            out.push(',');
        } else {
            assert(all.take(1)[0] == all[0]);
        }
        push_string(out, items[i].as_str());
        assert(out@ =~= start + seq!['['] + json_items(all.take(i + 1)));
        i += 1;
    }
    assert(all.take(items.len() as int) =~= all);
    out.push(']');
    assert(out@ =~= start + json_array(all));
}

/// `{"type":"create_session","username":…}`.
pub fn create_session(username: &str) -> (r: String)
    ensures
        r@ == create_session_of(username@),
{
    let mut out = chars_of("{\"type\":\"create_session\",\"username\":");
    push_string(&mut out, username);
    append(&mut out, &chars_of("}"));
    string_of(&out)
}

/// `{"response":…,"type":"post_auth_message_response"}`, with `null` for no
/// answer.
pub fn post_auth_response(response: Option<&str>) -> (r: String)
    ensures
        r@ == post_auth_response_of(
            match response {
                Some(t) => Some(t@),
                None => None,
            },
        ),
{
    let mut out = chars_of("{\"response\":");
    match response {
        Some(t) => push_string(&mut out, t),
        None => append(&mut out, &chars_of("null")),
    }
    append(&mut out, &chars_of(",\"type\":\"post_auth_message_response\"}"));
    string_of(&out)
}

/// `{"cmd":[…],"env":[…],"type":"start_session"}`.
pub fn start_session(cmd: &Vec<String>, env: &Vec<String>) -> (r: String)
    ensures
        r@ == start_session_of(cmd@.map_values(|s: String| s@), env@.map_values(|s: String| s@)),
{
    let mut out = chars_of("{\"cmd\":");
    push_array(&mut out, cmd);
    append(&mut out, &chars_of(",\"env\":"));
    push_array(&mut out, env);
    append(&mut out, &chars_of(",\"type\":\"start_session\"}"));
    string_of(&out)
}

/// `{"type":"cancel_session"}`.
pub fn cancel_session() -> (r: String)
    ensures
        r@ == cancel_session_of(),
{
    string_of(&chars_of("{\"type\":\"cancel_session\"}"))
}

pub open spec fn too_large(len: u32) -> Seq<char> {
    "Message too large: "@ + crate::text::decimal_text(len as nat) + " bytes"@
}

/// The payload size a response header announces, refused above
/// [`MAX_MESSAGE`].
pub fn payload_length(len: u32) -> (r: Result<usize, String>)
    ensures
        len <= MAX_MESSAGE ==> r == Ok::<usize, String>(len as usize),
        len > MAX_MESSAGE ==> (r matches Err(e) && e@ == too_large(len)),
{
    if len > MAX_MESSAGE {
        let mut out = chars_of("Message too large: ");
        append(&mut out, &crate::text::decimal_of(len as u64));
        append(&mut out, &chars_of(" bytes"));
        return Err(string_of(&out));
    }
    Ok(len as usize)
}

} // verus!
