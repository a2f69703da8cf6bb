//! The text forms that travel over the Realtime WebSocket: JSON string
//! literals, Base64 audio, and the fields of the server's JSON events.

use vstd::prelude::*;
use base64::Engine;

verus! {

/// A lower-case hexadecimal digit.
pub open spec fn hex_digit(d: nat) -> char {
    "0123456789abcdef"@[d as int]
}

/// How a JSON string literal writes one character: `"` and `\` and the
/// control characters below U+0020 are escaped, everything else is kept.
pub open spec fn json_escape(c: char) -> Seq<char> {
    if c == '"' {
        seq!['\\', '"']
    } else if c == '\\' {
        seq!['\\', '\\']
    } else if c == '\u{8}' {
        seq!['\\', 'b']
    } else if c == '\u{c}' {
        seq!['\\', 'f']
    } else if c == '\n' {
        seq!['\\', 'n']
    } else if c == '\r' {
        seq!['\\', 'r']
    } else if c == '\t' {
        seq!['\\', 't']
    } else if (c as u32) < 32 {
        seq!['\\', 'u', '0', '0', hex_digit((c as u32 / 16) as nat), hex_digit((c as u32 % 16) as nat)]
    } else {
        seq![c]
    }
}

/// The escaped characters of a JSON string literal.
pub open spec fn json_escaped(s: Seq<char>) -> Seq<char>
    decreases s.len(),
{
    if s.len() == 0 {
        Seq::empty()
    } else {
        json_escaped(s.drop_last()) + json_escape(s.last())
    }
}

/// The JSON string literal for `s`.
pub open spec fn json_quoted(s: Seq<char>) -> Seq<char> {
    seq!['"'] + json_escaped(s) + seq!['"']
}

/// `serde_json::to_string` of a string: its JSON string literal.
///
/// The crate writes `"`, then each character as the escape table of its
/// serializer gives it (short escapes for `"`, `\`, backspace, form feed,
/// line feed, carriage return and tab, `\u00XX` with lower-case hex digits
/// for the other characters below U+0020, every other character as it is),
/// then `"`. Serializing a string into memory cannot fail.
#[verifier::external_body]
pub(crate) fn json_string(s: &str) -> (r: String)
    ensures
        r@ == json_quoted(s@),
{
    match serde_json::to_string(s) {
        Ok(text) => text,
        Err(_) => String::new(),
    }
}

/// The Base64 digit for a six-bit value, standard alphabet.
pub open spec fn base64_digit(v: nat) -> char {
    "ABCDEFGHIJKLMNOPQRSTUVWXYZabcdefghijklmnopqrstuvwxyz0123456789+/"@[v as int]
}

/// Standard Base64 (RFC 4648, section 4) with `=` padding.
pub open spec fn base64_encoded(b: Seq<u8>) -> Seq<char>
    decreases b.len(),
{
    if b.len() == 0 {
        Seq::empty()
    } else if b.len() == 1 {
        seq![base64_digit((b[0] / 4) as nat), base64_digit(((b[0] % 4) * 16) as nat), '=', '=']
    } else if b.len() == 2 {
        seq![
            base64_digit((b[0] / 4) as nat),
            base64_digit(((b[0] % 4) * 16 + b[1] / 16) as nat),
            base64_digit(((b[1] % 16) * 4) as nat),
            '=',
        ]
    } else {
        seq![
            base64_digit((b[0] / 4) as nat),
            base64_digit(((b[0] % 4) * 16 + b[1] / 16) as nat),
            base64_digit(((b[1] % 16) * 4 + b[2] / 64) as nat),
            base64_digit((b[2] % 64) as nat),
        ] + base64_encoded(b.skip(3))
    }
}

/// `base64::engine::general_purpose::STANDARD.encode`: standard Base64 with
/// padding.
///
/// The engine panics when the encoded length does not fit in `usize`; the
/// `requires` keeps the input well below that.
#[verifier::external_body]
pub(crate) fn base64_standard(bytes: &[u8]) -> (r: String)
    requires
        bytes@.len() <= usize::MAX / 2,
    ensures
        r@ == base64_encoded(bytes@),
{
    base64::engine::general_purpose::STANDARD.encode(bytes)
}

/// The fields of a server event that the transcriber reads, as plain text.
pub struct ServerMessage {
    /// `type`, when it is a string.
    pub kind: Option<String>,
    /// `item_id`, when it is a string.
    pub item_id: Option<String>,
    /// `delta`, when it is a string.
    pub delta: Option<String>,
    /// `transcript`, when it is a string.
    pub transcript: Option<String>,
    /// `error.message`, when it is a string.
    pub error_message: Option<String>,
    /// The whole event, written back as compact JSON.
    pub text: String,
}

pub struct ServerMessageView {
    pub kind: Option<Seq<char>>,
    pub item_id: Option<Seq<char>>,
    pub delta: Option<Seq<char>>,
    pub transcript: Option<Seq<char>>,
    pub error_message: Option<Seq<char>>,
    pub text: Seq<char>,
}

pub open spec fn opt_text(o: Option<String>) -> Option<Seq<char>> {
    match o {
        Some(s) => Some(s@),
        None => None,
    }
}

impl View for ServerMessage {
    type V = ServerMessageView;

    open spec fn view(&self) -> ServerMessageView {
        ServerMessageView {
            kind: opt_text(self.kind),
            item_id: opt_text(self.item_id),
            delta: opt_text(self.delta),
            transcript: opt_text(self.transcript),
            error_message: opt_text(self.error_message),
            text: self.text@,
        }
    }
}

/// What `serde_json` reads from a server event text: the fields above, or,
/// for text that is not JSON, the parser's error message.
pub uninterp spec fn decoded_server_message(text: Seq<char>) -> Result<ServerMessageView, Seq<char>>;

/// Parses a server event with `serde_json::from_str` into a
/// `serde_json::Value` and takes its string fields (`Value` indexing and
/// `as_str`) and its compact text (`Value::to_string`).
#[verifier::external_body]
pub(crate) fn decode_server_message(text: &str) -> (r: Result<ServerMessage, String>)
    ensures
        match r {
            Ok(m) => decoded_server_message(text@) == Ok::<ServerMessageView, Seq<char>>(m@),
            Err(e) => decoded_server_message(text@) == Err::<ServerMessageView, Seq<char>>(e@),
        },
{
    let event: serde_json::Value = match serde_json::from_str(text) {
        Ok(event) => event,
        Err(error) => return Err(error.to_string()),
    };
    Ok(ServerMessage {
        kind: event["type"].as_str().map(String::from),
        item_id: event["item_id"].as_str().map(String::from),
        delta: event["delta"].as_str().map(String::from),
        transcript: event["transcript"].as_str().map(String::from),
        error_message: event["error"]["message"].as_str().map(String::from),
        text: event.to_string(),
    })
}

} // verus!
