use vstd::prelude::*;

use crate::json::{encode_json_string, json_string_literal};
use crate::text::{decimal, owned, push_decimal, push_str, string_of};

verus! {

broadcast use vstd::string::group_string_axioms;

/// What can go wrong while a request is served.
#[derive(Debug, Clone, PartialEq, Eq)]
pub enum AppError {
    /// A form field that the request needs is absent or unreadable.
    MissingField(String),
    /// The template could not be compiled or rendered; holds the engine's message.
    Template(String),
    /// Reading from or writing to a process or file failed; holds the message.
    Io(String),
    /// The object store refused an operation; holds the message.
    Storage(String),
    /// The PDF could not be produced or post-processed; holds the reason.
    PrinceStatus(String),
    /// The work did not finish within this many seconds.
    Timeout(u64),
    /// A background task could not be joined; holds the message.
    Join(String),
    /// The request carried no matching bearer token.
    Unauthorized,
}

/// The text that an error reads as.
pub open spec fn error_message(e: AppError) -> Seq<char> {
    match e {
        AppError::MissingField(f) => "Missing required field: "@ + f@,
        AppError::Template(m) => "Template rendering failed: "@ + m@,
        AppError::Io(m) => "I/O error: "@ + m@,
        AppError::Storage(m) => "Storage error: "@ + m@,
        AppError::PrinceStatus(m) => "Prince failed: "@ + m@,
        AppError::Timeout(secs) => "Operation timed out after "@ + decimal(secs as nat) + "s"@,
        AppError::Join(m) => "Internal Task Error: "@ + m@,
        AppError::Unauthorized => "Unauthorized"@,
    }
}

/// The HTTP status that answers an error.
pub open spec fn error_status(e: AppError) -> u16 {
    match e {
        AppError::MissingField(_) => 400,
        AppError::Template(_) => 400,
        AppError::Timeout(_) => 408,
        _ => 500,
    }
}

/// The JSON object `{"error": message}` as compact text.
pub open spec fn json_error_body(message: Seq<char>) -> Seq<char> {
    "{\"error\":"@ + json_string_literal(message) + "}"@
}

/// The body that answers an error: a missing field is named in plain text,
/// a client-side failure carries its message in JSON, and a failure on the
/// server's side is reported without its details.
pub open spec fn error_body(e: AppError) -> Seq<char> {
    match e {
        AppError::MissingField(f) => "Missing "@ + f@,
        AppError::Template(_) => json_error_body(error_message(e)),
        AppError::Timeout(_) => json_error_body(error_message(e)),
        _ => json_error_body("Internal server error"@),
    }
}

/// A failure on the server's side is answered with status 500 and a fixed
/// message: nothing of its cause reaches the client.  A request that lacks a
/// field or holds a broken template is answered with 400, and one that took
/// too long with 408, each with the error's own message.
pub proof fn law_error_answers(e: AppError)
    ensures
        error_status(e) == 500 <==> !(e is MissingField || e is Template || e is Timeout),
        error_status(e) == 500 ==> error_body(e) == json_error_body("Internal server error"@),
        (e is Template || e is Timeout) ==> error_body(e) == json_error_body(error_message(e)),
        e matches AppError::MissingField(f) ==> error_body(e) == "Missing "@ + f@,
{
}

/// The answer to a failed request.
#[derive(Debug, Clone, PartialEq, Eq)]
pub struct ErrorResponse {
    /// The HTTP status code.
    pub status: u16,
    /// The body text.
    pub body: String,
    /// Whether the body is JSON (else plain text).
    pub is_json: bool,
}

impl AppError {
    /// The text that this error reads as.
    pub fn message(&self) -> (res: String)
        ensures
            res@ == error_message(*self),
    {
        match self {
            AppError::MissingField(f) => owned("Missing required field: ").concat(f.as_str()),
            AppError::Template(m) => owned("Template rendering failed: ").concat(m.as_str()),
            AppError::Io(m) => owned("I/O error: ").concat(m.as_str()),
            AppError::Storage(m) => owned("Storage error: ").concat(m.as_str()),
            AppError::PrinceStatus(m) => owned("Prince failed: ").concat(m.as_str()),
            AppError::Timeout(secs) => {
                let mut out: Vec<char> = Vec::new();
                push_str(&mut out, "Operation timed out after ");
                push_decimal(&mut out, *secs);
                push_str(&mut out, "s");
                string_of(&out)
            },
            AppError::Join(m) => owned("Internal Task Error: ").concat(m.as_str()),
            AppError::Unauthorized => owned("Unauthorized"),
        }
    }

    /// The status and body that answer this error.
    pub fn into_response(&self) -> (res: ErrorResponse)
        ensures
            res.status == error_status(*self),
            res.body@ == error_body(*self),
            res.is_json == !(*self is MissingField),
    {
        match self {
            AppError::MissingField(f) => ErrorResponse {
                status: 400,
                body: owned("Missing ").concat(f.as_str()),
                is_json: false,
            },
            AppError::Template(_) => ErrorResponse {
                status: 400,
                body: json_error(&self.message()),
                is_json: true,
            },
            AppError::Timeout(_) => ErrorResponse {
                status: 408,
                body: json_error(&self.message()),
                is_json: true,
            },
            _ => ErrorResponse {
                status: 500,
                body: json_error(&owned("Internal server error")),
                is_json: true,
            },
        }
    }
}

/// The JSON object `{"error": message}` as compact text.
pub fn json_error(message: &String) -> (res: String)
    ensures
        res@ == json_error_body(message@),
{
    owned("{\"error\":").concat(encode_json_string(message.as_str()).as_str()).concat("}")
}

} // verus!
