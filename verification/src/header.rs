//! An extra header that a client sends with its connection request, given
//! as `NAME: VALUE` text. The name is checked and normalized by the `http`
//! crate, headers that the WebSocket handshake manages are refused, and the
//! value is kept as sensitive.
use vstd::prelude::*;
use vstd::utf8::encode_utf8;
use crate::request::{
    copy_range, first_index, first_index_of, lemma_first_index_bounds, skip_white, skip_white_from,
    trim_end_from, trim_end_white,
};
use crate::text::{chars_equal, chars_of, string_from_chars};

verus! {

/// Why header text was refused.
#[derive(Debug, Clone, PartialEq, Eq)]
pub enum ConnectionHeaderError {
    MissingSeparator,
    EmptyName,
    InvalidName,
    InvalidValue,
    /// Holds the normalized name.
    ReservedName(String),
}

/// A header with a valid lowercase name, not one that the handshake manages,
/// and a valid value. No `Debug`: the value is a secret.
#[derive(Clone)]
pub struct ConnectionHeader {
    name: String,
    value: String,
}

impl View for ConnectionHeader {
    type V = (Seq<char>, Seq<char>);

    closed spec fn view(&self) -> (Seq<char>, Seq<char>) {
        (self.name@, self.value@)
    }
}

/// `s` without leading and trailing white space, as `str::trim` gives it.
pub open spec fn trimmed(s: Seq<char>) -> Seq<char> {
    trim_end_white(skip_white(s))
}

/// A byte that may stand in a header name: an RFC 7230 token character.
pub open spec fn is_token_byte(b: u8) -> bool {
    ||| 48 <= b <= 57
    ||| 65 <= b <= 90
    ||| 97 <= b <= 122
    ||| b == 33 || b == 35 || b == 36 || b == 37 || b == 38 || b == 39 || b == 42 || b == 43
    ||| b == 45 || b == 46 || b == 94 || b == 95 || b == 96 || b == 124 || b == 126
}

/// Bytes that `http` accepts as a header name: one to 65535 token bytes.
pub open spec fn header_name_valid(bytes: Seq<u8>) -> bool {
    &&& 1 <= bytes.len() <= 65535
    &&& forall|i: int| 0 <= i < bytes.len() ==> is_token_byte(#[trigger] bytes[i])
}

/// A byte with ASCII capitals made lowercase.
pub open spec fn lower_byte(b: u8) -> u8 {
    if 65 <= b <= 90 {
        (b + 32) as u8
    } else {
        b
    }
}

/// The text of a normalized header name.
pub open spec fn lowered_name(bytes: Seq<u8>) -> Seq<char> {
    Seq::new(bytes.len(), |i: int| lower_byte(bytes[i]) as char)
}

/// Bytes that `http` accepts as a header value: tab, or 32 and above but 127.
pub open spec fn header_value_valid(bytes: Seq<u8>) -> bool {
    forall|i: int|
        0 <= i < bytes.len() ==> ((#[trigger] bytes[i] >= 32 && bytes[i] != 127) || bytes[i] == 9)
}

/// Names that the WebSocket client sets itself.
pub open spec fn is_reserved_name(name: Seq<char>) -> bool {
    ||| name == "host"@
    ||| name == "connection"@
    ||| name == "upgrade"@
    ||| name == "sec-websocket-key"@
    ||| name == "sec-websocket-version"@
    ||| name == "sec-websocket-protocol"@
    ||| name == "sec-websocket-extensions"@
}

/// What parsing header text gives: the error, or the normalized name and the
/// trimmed value. The text is split at its first colon.
pub enum HeaderParse {
    MissingSeparator,
    EmptyName,
    InvalidName,
    InvalidValue,
    ReservedName(Seq<char>),
    Parsed(Seq<char>, Seq<char>),
}

pub open spec fn header_parse(text: Seq<char>) -> HeaderParse {
    let colon = first_index(text, ':');
    if colon >= text.len() {
        HeaderParse::MissingSeparator
    } else {
        let name = trimmed(text.take(colon));
        let value = trimmed(text.skip(colon + 1));
        let name_bytes = encode_utf8(name);
        if name.len() == 0 {
            HeaderParse::EmptyName
        } else if !header_name_valid(name_bytes) {
            HeaderParse::InvalidName
        } else if is_reserved_name(lowered_name(name_bytes)) {
            HeaderParse::ReservedName(lowered_name(name_bytes))
        } else if !header_value_valid(encode_utf8(value)) {
            HeaderParse::InvalidValue
        } else {
            HeaderParse::Parsed(lowered_name(name_bytes), value)
        }
    }
}

/// Checks a header name with `http::HeaderName::from_bytes`, which accepts
/// one to 65535 token bytes and lowers ASCII capitals, and gives back the
/// normalized name's text.
#[verifier::external_body]
fn normalized_header_name(bytes: &[u8]) -> (res: Option<String>)
    ensures
        res is Some <==> header_name_valid(bytes@),
        res matches Some(name) ==> name@ == lowered_name(bytes@),
{
    http::HeaderName::from_bytes(bytes).ok().map(|name| name.as_str().to_owned())
}

/// Checks a header value with `http::HeaderValue::from_str`, which accepts
/// text whose bytes are all tab or at least 32 and not 127.
#[verifier::external_body]
fn header_value_accepted(text: &str) -> (res: bool)
    ensures
        res == header_value_valid(encode_utf8(text@)),
{
    http::HeaderValue::from_str(text).is_ok()
}

/// Whether a normalized name is one that the WebSocket client manages.
fn is_reserved(name: &str) -> (res: bool)
    ensures
        res == is_reserved_name(name@),
{
    let n = chars_of(name);
    chars_equal(n.as_slice(), chars_of("host").as_slice()) || chars_equal(
        n.as_slice(),
        chars_of("connection").as_slice(),
    ) || chars_equal(n.as_slice(), chars_of("upgrade").as_slice()) || chars_equal(
        n.as_slice(),
        chars_of("sec-websocket-key").as_slice(),
    ) || chars_equal(n.as_slice(), chars_of("sec-websocket-version").as_slice()) || chars_equal(
        n.as_slice(),
        chars_of("sec-websocket-protocol").as_slice(),
    ) || chars_equal(n.as_slice(), chars_of("sec-websocket-extensions").as_slice())
}

/// The characters of `s` without leading and trailing white space.
fn trim_chars(s: &Vec<char>) -> (res: Vec<char>)
    ensures
        res@ == trimmed(s@),
{
    let start = skip_white_from(s, 0);
    let end = trim_end_from(s, start);
    proof {
        assert(s@.skip(0) =~= s@);
    }
    copy_range(s, start, end)
}

impl ConnectionHeader {
    /// The normalized header name.
    pub fn name(&self) -> (res: &str)
        ensures
            res@ == self@.0,
    {
        self.name.as_str()
    }

    /// The header value.
    pub fn value(&self) -> (res: &str)
        ensures
            res@ == self@.1,
    {
        self.value.as_str()
    }

    /// Parses `NAME: VALUE` text, split at its first colon, with white space
    /// trimmed from both parts.
    pub fn parse(header: &str) -> (res: Result<ConnectionHeader, ConnectionHeaderError>)
        ensures
            match (res, header_parse(header@)) {
                (Ok(h), HeaderParse::Parsed(name, value)) => h@ == (name, value),
                (Err(ConnectionHeaderError::MissingSeparator), HeaderParse::MissingSeparator) => true,
                (Err(ConnectionHeaderError::EmptyName), HeaderParse::EmptyName) => true,
                (Err(ConnectionHeaderError::InvalidName), HeaderParse::InvalidName) => true,
                (Err(ConnectionHeaderError::InvalidValue), HeaderParse::InvalidValue) => true,
                (Err(ConnectionHeaderError::ReservedName(s)), HeaderParse::ReservedName(name)) => s@
                    == name,
                _ => false,
            },
    {
        let text = chars_of(header);
        let colon = first_index_of(&text, ':');
        proof {
            lemma_first_index_bounds(text@, ':');
        }
        if colon >= text.len() {
            return Err(ConnectionHeaderError::MissingSeparator);
        }
        let before = copy_range(&text, 0, colon);
        let after = copy_range(&text, colon + 1, text.len());
        proof {
            assert(before@ =~= text@.take(colon as int));
            assert(after@ =~= text@.skip(colon + 1));
        }
        let name = trim_chars(&before);
        let value = trim_chars(&after);
        if name.len() == 0 {
            return Err(ConnectionHeaderError::EmptyName);
        }
        let name_text = string_from_chars(name.as_slice());
        let normalized = match normalized_header_name(name_text.as_str().as_bytes()) {
            Some(n) => n,
            None => {
                return Err(ConnectionHeaderError::InvalidName);
            },
        };
        if is_reserved(normalized.as_str()) {
            return Err(ConnectionHeaderError::ReservedName(normalized));
        }
        let value_text = string_from_chars(value.as_slice());
        if !header_value_accepted(value_text.as_str()) {
            return Err(ConnectionHeaderError::InvalidValue);
        }
        Ok(ConnectionHeader { name: normalized, value: value_text })
    }
}

impl std::str::FromStr for ConnectionHeader {
    type Err = ConnectionHeaderError;

    fn from_str(header: &str) -> Result<ConnectionHeader, ConnectionHeaderError> {
        ConnectionHeader::parse(header)
    }
}

/// The message that describes a refusal.
pub open spec fn header_error_text(e: ConnectionHeaderError) -> Seq<char> {
    match e {
        ConnectionHeaderError::MissingSeparator => "header must use NAME: VALUE syntax"@,
        ConnectionHeaderError::EmptyName => "header name must not be empty"@,
        ConnectionHeaderError::InvalidName => "invalid header name"@,
        ConnectionHeaderError::InvalidValue => "invalid value for header"@,
        ConnectionHeaderError::ReservedName(name) => "header `"@ + name@
            + "` is managed by the WebSocket client"@,
    }
}

impl ConnectionHeaderError {
    /// The message of this refusal.
    pub fn message(&self) -> (res: String)
        ensures
            res@ == header_error_text(*self),
    {
        match self {
            ConnectionHeaderError::MissingSeparator => "header must use NAME: VALUE syntax".to_owned(),
            ConnectionHeaderError::EmptyName => "header name must not be empty".to_owned(),
            ConnectionHeaderError::InvalidName => "invalid header name".to_owned(),
            ConnectionHeaderError::InvalidValue => "invalid value for header".to_owned(),
            ConnectionHeaderError::ReservedName(name) => {
                let mut out = chars_of("header `");
                let mut middle = chars_of(name.as_str());
                let mut tail = chars_of("` is managed by the WebSocket client");
                out.append(&mut middle);
                out.append(&mut tail);
                string_from_chars(out.as_slice())
            },
        }
    }
}

} // verus!
