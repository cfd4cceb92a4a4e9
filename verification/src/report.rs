//! The body of the message that reports a diagnostic to the listening Scout process.
use vstd::prelude::*;

verus! {

/// The compact JSON text of the value that `serde_json` parses from `text`, as it prints that
/// value again; none when the text is not JSON.
pub uninterp spec fn json_reprint(text: Seq<char>) -> Option<Seq<char>>;

/// The lower-case hexadecimal digit of `n`, below sixteen.
pub open spec fn hex_digit(n: u32) -> char {
    if n < 10 { (48 + n) as char } else { (87 + n) as char }
}

/// How a character stands inside a JSON string: quote, backslash and the control
/// characters are escaped (the five with short escapes by them, the others as `\u00XX`);
/// every other character stands for itself.
pub open spec fn json_char_escape(c: char) -> Seq<char> {
    if c == '"' {
        seq!['\\', '"']
    } else if c == '\\' {
        seq!['\\', '\\']
    } else if c == '\u{8}' {
        seq!['\\', 'b']
    } else if c == '\u{9}' {
        seq!['\\', 't']
    } else if c == '\u{a}' {
        seq!['\\', 'n']
    } else if c == '\u{c}' {
        seq!['\\', 'f']
    } else if c == '\u{d}' {
        seq!['\\', 'r']
    } else if (c as u32) < 0x20 {
        seq!['\\', 'u', '0', '0', hex_digit((c as u32) / 16), hex_digit((c as u32) % 16)]
    } else {
        seq![c]
    }
}

/// The characters of `s`, each as it stands inside a JSON string.
pub open spec fn json_escaped(s: Seq<char>) -> Seq<char>
    decreases s.len(),
{
    if s.len() == 0 {
        Seq::empty()
    } else {
        json_escaped(s.drop_last()) + json_char_escape(s.last())
    }
}

/// The JSON string literal of `s`.
pub open spec fn json_string_literal(s: Seq<char>) -> Seq<char> {
    seq!['"'] + json_escaped(s) + seq!['"']
}

/// Calls `serde_json::from_str::<serde_json::Value>` and prints the value it parses with the
/// `Display` of `serde_json::Value`; the contract claims only that the outcome depends on the
/// text alone (named, not stated).
#[verifier::external_body]
fn json_compact(text: &str) -> (r: Option<String>)
    ensures
        match r {
            Some(s) => json_reprint(text@) == Some(s@),
            None => json_reprint(text@) is None,
        },
{
    match serde_json::from_str::<serde_json::Value>(text) {
        Ok(value) => Some(value.to_string()),
        Err(_) => None,
    }
}

/// Calls `serde_json::to_string` on a string slice: the contract claims that the result is the
/// JSON string literal of the slice, escaped as `serde_json` escapes it. Serializing a string
/// into memory does not fail.
#[verifier::external_body]
fn json_string(s: &str) -> (r: String)
    ensures
        r@ == json_string_literal(s@),
{
    match serde_json::to_string(s) {
        Ok(text) => text,
        Err(_) => String::new(),
    }
}

/// The text of the report object: the crate's name under `crate`, then the message under
/// `message`, with no white space, as a JSON object prints with its keys in order.
pub open spec fn report_object_text(krate: Seq<char>, message: Seq<char>) -> Seq<char> {
    "{\"crate\":"@ + json_string_literal(krate) + ",\"message\":"@ + message + "}"@
}

/// The body that reports the diagnostic line `captured` of the crate `krate`: when the line
/// is a JSON value, the object that pairs the crate's name with that value; else the line
/// itself.
pub fn vulnerability_body(captured: &str, krate: &str) -> (r: String)
    ensures
        r@ == match json_reprint(captured@) {
            Some(m) => report_object_text(krate@, m),
            None => captured@,
        },
{
    match json_compact(captured) {
        Some(message) => {
            let mut body = String::from_str("{\"crate\":");
            let name = json_string(krate);
            body.append(name.as_str());
            body.append(",\"message\":");
            body.append(message.as_str());
            body.append("}");
            body
        },
        None => String::from_str(captured),
    }
}

} // verus!
