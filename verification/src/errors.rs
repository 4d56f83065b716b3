//! The application-wide error of commands: a kind the frontend can switch
//! on and a message. Errors that come from other libraries (the database,
//! the file system, image decoding, JSON) are held by their message.

use vstd::prelude::*;
use crate::paths::{path_debug_text, PathError};

verus! {

#[verifier::external_type_specification]
#[verifier::external_body]
pub struct ExIoError(std::io::Error);

/// An error of a command.
#[derive(Debug)]
pub enum AppError {
    Config(String),
    Database(String),
    Io(String),
    Image(String),
    Path(PathError),
    Serde(String),
    NotFound(String),
    InvalidInput(String),
    Other(String),
}

/// The stable machine-readable kind of an error.
pub open spec fn kind_of(e: AppError) -> Seq<char> {
    match e {
        AppError::Config(_) => "config"@,
        AppError::Database(_) => "database"@,
        AppError::Io(_) => "io"@,
        AppError::Image(_) => "image"@,
        AppError::Path(_) => "path"@,
        AppError::Serde(_) => "serde"@,
        AppError::NotFound(_) => "not_found"@,
        AppError::InvalidInput(_) => "invalid_input"@,
        AppError::Other(_) => "other"@,
    }
}

/// The message of an error: a prefix naming the kind, then the detail.
pub open spec fn message_of(e: AppError) -> Seq<char> {
    match e {
        AppError::Config(d) => "configuration error: "@ + d@,
        AppError::Database(d) => "database error: "@ + d@,
        AppError::Io(d) => "filesystem error: "@ + d@,
        AppError::Image(d) => "image error: "@ + d@,
        AppError::Path(p) => "invalid path: "@ + ("unsafe path segment: "@ + path_debug_text(
            p->UnsafeSegment_0@,
        )),
        AppError::Serde(d) => "serialization error: "@ + d@,
        AppError::NotFound(d) => "not found: "@ + d@,
        AppError::InvalidInput(d) => "invalid input: "@ + d@,
        AppError::Other(d) => d@,
    }
}

impl AppError {
    /// The stable kind, used by the frontend for branching.
    pub fn kind(&self) -> (r: &'static str)
        ensures
            r@ == kind_of(*self),
    {
        match self {
            AppError::Config(_) => "config",
            AppError::Database(_) => "database",
            AppError::Io(_) => "io",
            AppError::Image(_) => "image",
            AppError::Path(_) => "path",
            AppError::Serde(_) => "serde",
            AppError::NotFound(_) => "not_found",
            AppError::InvalidInput(_) => "invalid_input",
            AppError::Other(_) => "other",
        }
    }

    /// The message shown to the user.
    pub fn message(&self) -> (r: String)
        ensures
            r@ == message_of(*self),
    {
        let (prefix, detail) = match self {
            AppError::Config(d) => ("configuration error: ", d.clone()),
            AppError::Database(d) => ("database error: ", d.clone()),
            AppError::Io(d) => ("filesystem error: ", d.clone()),
            AppError::Image(d) => ("image error: ", d.clone()),
            AppError::Path(p) => ("invalid path: ", p.message()),
            AppError::Serde(d) => ("serialization error: ", d.clone()),
            AppError::NotFound(d) => ("not found: ", d.clone()),
            AppError::InvalidInput(d) => ("invalid input: ", d.clone()),
            AppError::Other(d) => ("", d.clone()),
        };
        let mut r = String::from_str(prefix);
        r.append(detail.as_str());
        proof {
            reveal_strlit("");
            assert(""@ + detail@ =~= detail@);
        }
        r
    }
}

impl From<PathError> for AppError {
    fn from(e: PathError) -> (r: AppError) {
        AppError::Path(e)
    }
}

impl vstd::std_specs::convert::FromSpecImpl<PathError> for AppError {
    open spec fn obeys_from_spec() -> bool {
        true
    }

    open spec fn from_spec(e: PathError) -> AppError {
        AppError::Path(e)
    }
}

/// Calls `<std::io::Error as Display>::fmt` through `to_string`. The text
/// of an operating-system error comes from the operating system, so nothing
/// is claimed of it.
#[verifier::external_body]
fn io_error_text(e: &std::io::Error) -> (r: String) {
    e.to_string()
}

/// A file-system error becomes [`AppError::Io`] holding its text. That text
/// comes from the operating system, so the conversion follows no spec of
/// its own (`obeys_from_spec` is false); `from` states the variant.
impl From<std::io::Error> for AppError {
    fn from(e: std::io::Error) -> (r: AppError)
        ensures
            r is Io,
    {
        AppError::Io(io_error_text(&e))
    }
}

impl vstd::std_specs::convert::FromSpecImpl<std::io::Error> for AppError {
    open spec fn obeys_from_spec() -> bool {
        false
    }

    open spec fn from_spec(e: std::io::Error) -> AppError {
        AppError::Io(vstd::pervasive::arbitrary())
    }
}

/// The bridge for commands that answer with a `String`: the error's
/// message. A `String` is not fixed by its text in specs, so the conversion
/// follows no spec of its own (`obeys_from_spec` is false); `from` states
/// the text.
impl From<AppError> for String {
    fn from(e: AppError) -> (r: String)
        ensures
            r@ == message_of(e),
    {
        e.message()
    }
}

impl vstd::std_specs::convert::FromSpecImpl<AppError> for String {
    open spec fn obeys_from_spec() -> bool {
        false
    }

    open spec fn from_spec(e: AppError) -> String {
        choose|s: String| s@ == message_of(e)
    }
}

/// A lowercase hexadecimal digit.
pub open spec fn hex_digit(v: int) -> char {
    if v < 10 {
        ((0x30 + v) as u32) as char
    } else {
        ((0x61 + v - 10) as u32) as char
    }
}

/// How `serde_json` writes one character inside a string: `"` and `\`
/// behind a backslash, the control characters U+0008, U+0009, U+000A,
/// U+000C and U+000D as `\b`, `\t`, `\n`, `\f`, `\r`, the other control
/// characters below U+0020 as `\u00` and two lowercase hex digits, and
/// every other character as itself.
pub open spec fn json_escape_char(c: char) -> Seq<char> {
    let v = c as u32;
    if c == '"' {
        seq!['\\', '"']
    } else if c == '\\' {
        seq!['\\', '\\']
    } else if v == 8 {
        seq!['\\', 'b']
    } else if v == 9 {
        seq!['\\', 't']
    } else if v == 10 {
        seq!['\\', 'n']
    } else if v == 12 {
        seq!['\\', 'f']
    } else if v == 13 {
        seq!['\\', 'r']
    } else if v < 0x20 {
        seq!['\\', 'u', '0', '0', hex_digit((v / 16) as int), hex_digit((v % 16) as int)]
    } else {
        seq![c]
    }
}

/// The characters of `s`, each escaped as in a JSON string.
pub open spec fn json_escaped(s: Seq<char>) -> Seq<char>
    decreases s.len(),
{
    if s.len() == 0 {
        Seq::<char>::empty()
    } else {
        json_escaped(s.drop_last()) + json_escape_char(s.last())
    }
}

/// How `serde_json` writes the string `s`: in double quotes, each character
/// escaped by [`json_escape_char`].
pub open spec fn json_string_text(s: Seq<char>) -> Seq<char> {
    seq!['"'] + json_escaped(s) + seq!['"']
}

/// Calls `serde_json::to_string` on a string (`format_escaped_str` with
/// its `ESCAPE` table). Claims that the text is [`json_string_text`] of it. Writing a string into memory cannot fail, so
/// the error arm (an empty text) is never taken.
#[verifier::external_body]
fn json_string(s: &str) -> (r: String)
    ensures
        r@ == json_string_text(s@),
{
    match serde_json::to_string(s) {
        Ok(t) => t,
        Err(_) => String::new(),
    }
}

/// The JSON object an error is sent to the frontend as: its kind and its
/// message, in that order.
pub open spec fn tagged_json(e: AppError) -> Seq<char> {
    "{\"kind\":"@ + json_string_text(kind_of(e)) + ",\"message\":"@ + json_string_text(
        message_of(e),
    ) + "}"@
}

impl AppError {
    /// The error as the tagged JSON object `{"kind": ..., "message": ...}`
    /// the frontend switches on.
    pub fn to_tagged_json(&self) -> (r: String)
        ensures
            r@ == tagged_json(*self),
    {
        let kind = json_string(self.kind());
        let message = self.message();
        let message = json_string(message.as_str());
        let mut r = String::from_str("{\"kind\":");
        r.append(kind.as_str());
        r.append(",\"message\":");
        r.append(message.as_str());
        r.append("}");
        r
    }
}

} // verus!
