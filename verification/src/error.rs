//! Errors of the library and the dual (text / JSON) way they are reported.
use vstd::prelude::*;
use crate::output::OutputFormat;
use crate::text::{owned, push_str};

pub mod reasons;

verus! {

/// An error that carries one of the canonical `reasons` and a message.
#[derive(Debug)]
pub struct HomeosError {
    pub reason: &'static str,
    pub message: String,
}

impl HomeosError {
    /// An error with the given reason and message.
    pub fn new(reason: &'static str, message: String) -> (r: Self)
        ensures
            r.reason == reason,
            r.message@ == message@,
    {
        HomeosError { reason, message }
    }

    /// The text the error displays as: its message.
    pub fn to_string(&self) -> (r: String)
        ensures
            r@ == self.message@,
    {
        self.message.clone()
    }
}

/// Any error a command can end with: a classified `HomeosError`, or an
/// unclassified failure that only has a message.
#[derive(Debug)]
pub enum Failure {
    Homeos(HomeosError),
    Other(String),
}

/// The message of a failure.
pub open spec fn failure_message(f: Failure) -> Seq<char> {
    match f {
        Failure::Homeos(e) => e.message@,
        Failure::Other(m) => m@,
    }
}

impl Failure {
    /// The text the failure displays as.
    pub fn to_string(&self) -> (r: String)
        ensures
            r@ == failure_message(*self),
    {
        match self {
            Failure::Homeos(e) => e.message.clone(),
            Failure::Other(m) => m.clone(),
        }
    }
}

/// The canonical reason of a failure: that of a `HomeosError`, otherwise `internal-error`.
pub open spec fn reason_of(f: Failure) -> &'static str {
    match f {
        Failure::Homeos(e) => e.reason,
        Failure::Other(_) => reasons::INTERNAL_ERROR,
    }
}

/// Resolves the canonical kebab-case reason for an error.
pub fn reason_for(err: &Failure) -> (r: &'static str)
    ensures
        r == reason_of(*err),
{
    match err {
        Failure::Homeos(e) => e.reason,
        Failure::Other(_) => reasons::INTERNAL_ERROR,
    }
}

/// The lowercase hexadecimal digit of `n` (below 16).
pub open spec fn hex_digit(n: int) -> char {
    seq!['0', '1', '2', '3', '4', '5', '6', '7', '8', '9', 'a', 'b', 'c', 'd', 'e', 'f'][n]
}

/// How serde_json writes one character inside a JSON string: `"` and `\`
/// behind a backslash; backspace, tab, line feed, form feed and carriage
/// return as `\b \t \n \f \r`; the other characters below U+0020 as
/// `\u00` and two lowercase hex digits; every other character as itself.
pub open spec fn json_char(c: char) -> Seq<char> {
    let n = c as int;
    if c == '"' {
        seq!['\\', '"']
    } else if c == '\\' {
        seq!['\\', '\\']
    } else if n == 8 {
        seq!['\\', 'b']
    } else if n == 9 {
        seq!['\\', 't']
    } else if n == 10 {
        seq!['\\', 'n']
    } else if n == 12 {
        seq!['\\', 'f']
    } else if n == 13 {
        seq!['\\', 'r']
    } else if n < 32 {
        seq!['\\', 'u', '0', '0', hex_digit(n / 16), hex_digit(n % 16)]
    } else {
        seq![c]
    }
}

/// The characters of `s`, each written as `json_char` writes it.
pub open spec fn json_escaped(s: Seq<char>) -> Seq<char>
    decreases s.len(),
{
    if s.len() == 0 {
        Seq::empty()
    } else {
        json_escaped(s.drop_last()) + json_char(s.last())
    }
}

/// The JSON encoding of a string value as serde_json writes it: the escaped
/// characters between double quotes.
pub open spec fn json_quoted(s: Seq<char>) -> Seq<char> {
    seq!['"'] + json_escaped(s) + seq!['"']
}

/// Encodes `s` as a JSON string with `serde_json` (`Value::String` written
/// through its `Display`, which escapes as serde_json's escape table does):
/// claimed to be `json_quoted(s)`.
#[verifier::external_body]
pub(crate) fn json_string(s: &str) -> (r: String)
    ensures
        r@ == json_quoted(s@),
{
    serde_json::Value::String(s.to_string()).to_string()
}

/// The JSON error object written to stdout in JSON mode (keys in the order
/// serde_json writes them).
pub open spec fn error_payload(reason: Seq<char>, message: Seq<char>) -> Seq<char> {
    "{\"error\":{\"message\":"@ + json_quoted(message) + ",\"reason\":"@ + json_quoted(reason) + "}}"@
}

/// The line written to stderr in both modes.
pub open spec fn error_line(message: Seq<char>) -> Seq<char> {
    "Error: "@ + message
}

/// The lines a top-level error is reported with: the JSON payload for stdout
/// (JSON mode only) and the `Error: <message>` line for stderr.
pub fn report_lines(err: &Failure, format: OutputFormat) -> (r: (Option<String>, String))
    ensures
        format == OutputFormat::Json ==> (r.0 matches Some(p) && p@ == error_payload(
            reason_of(*err)@,
            failure_message(*err),
        )),
        format == OutputFormat::Text ==> r.0 is None,
        r.1@ == error_line(failure_message(*err)),
{
    let message = err.to_string();
    let reason = reason_for(err);
    let stdout_line = match format {
        OutputFormat::Json => {
            let mut p = owned("{\"error\":{\"message\":");
            push_str(&mut p, json_string(message.as_str()).as_str());
            push_str(&mut p, ",\"reason\":");
            push_str(&mut p, json_string(reason).as_str());
            push_str(&mut p, "}}");
            Some(p)
        },
        OutputFormat::Text => None,
    };
    let mut line = owned("Error: ");
    push_str(&mut line, message.as_str());
    (stdout_line, line)
}

} // verus!
