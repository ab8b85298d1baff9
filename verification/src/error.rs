//! The error type of the server and the HTTP status code of each error.

use askama::Error as TemplateError;
use vstd::prelude::*;

verus! {

/// `std::io::Error`, carried through as an opaque value.
#[verifier::external_type_specification]
#[verifier::external_body]
pub struct ExIoError(std::io::Error);

/// `std::str::Utf8Error`, carried through as an opaque value.
#[verifier::external_type_specification]
#[verifier::external_body]
pub struct ExUtf8Error(std::str::Utf8Error);

/// `askama::Error`, carried through as an opaque value.
#[verifier::external_type_specification]
#[verifier::external_body]
pub struct ExTemplateError(TemplateError);

/// Everything that can go wrong while serving a request.
#[derive(Debug)]
pub enum Error {
    Io(std::io::Error),
    Utf8(std::str::Utf8Error),
    EmptyRequest,
    InvalidRequestLine,
    BadRequest(String),
    NotFound(String),
    InternalServerError(String),
    Template(TemplateError),
    ValidationError(String),
    MultipartError(String),
}

/// The status code that answers an error: 404 for what is not found, 500 for
/// failures on the server's side, 400 for every fault of the request.
pub open spec fn status_of(e: Error) -> u16 {
    match e {
        Error::NotFound(_) => 404,
        Error::Io(_) | Error::InternalServerError(_) | Error::Template(_) => 500,
        _ => 400,
    }
}

/// Whether `e` is `Error::BadRequest` with the message `m`.
pub open spec fn is_bad_request(e: Error, m: Seq<char>) -> bool {
    e matches Error::BadRequest(s) && s@ == m
}

/// Whether `e` is `Error::NotFound` with the message `m`.
pub open spec fn is_not_found(e: Error, m: Seq<char>) -> bool {
    e matches Error::NotFound(s) && s@ == m
}

/// Whether `e` is `Error::ValidationError` with the message `m`.
pub open spec fn is_validation_error(e: Error, m: Seq<char>) -> bool {
    e matches Error::ValidationError(s) && s@ == m
}

/// Whether `e` is `Error::MultipartError` with the message `m`.
pub open spec fn is_multipart_error(e: Error, m: Seq<char>) -> bool {
    e matches Error::MultipartError(s) && s@ == m
}

/// An error described by its variant and message, for the variants that carry a message.
pub enum ErrorSpec {
    BadRequest(Seq<char>),
    NotFound(Seq<char>),
    Validation(Seq<char>),
    Multipart(Seq<char>),
}

/// Whether `e` is the error that `s` describes.
pub open spec fn error_fits(e: Error, s: ErrorSpec) -> bool {
    match s {
        ErrorSpec::BadRequest(m) => is_bad_request(e, m),
        ErrorSpec::NotFound(m) => is_not_found(e, m),
        ErrorSpec::Validation(m) => is_validation_error(e, m),
        ErrorSpec::Multipart(m) => is_multipart_error(e, m),
    }
}

impl Error {
    pub fn status_code(&self) -> (code: u16)
        ensures
            code == status_of(*self),
    {
        match self {
            Error::BadRequest(_) => 400,
            Error::NotFound(_) => 404,
            Error::Io(_) => 500,
            Error::Utf8(_) => 400,
            Error::EmptyRequest => 400,
            Error::InvalidRequestLine => 400,
            Error::InternalServerError(_) => 500,
            Error::Template(_) => 500,
            Error::ValidationError(_) => 400,
            Error::MultipartError(_) => 400,
        }
    }
}

/// A `BadRequest` error with the given message.
pub fn bad_request(m: &str) -> (e: Error)
    ensures
        is_bad_request(e, m@),
{
    Error::BadRequest(m.to_string())
}

/// A `NotFound` error with the given message.
pub fn not_found(m: &str) -> (e: Error)
    ensures
        is_not_found(e, m@),
{
    Error::NotFound(m.to_string())
}

/// The text of an I/O error (its `Display`). Nothing is said of it: for
/// errors of the operating system it depends on the machine.
#[verifier::external_body]
fn io_error_text(e: &std::io::Error) -> String {
    format!("{}", e)
}

/// The text of a UTF-8 error (its `Display`); nothing is said of it.
#[verifier::external_body]
fn utf8_error_text(e: &std::str::Utf8Error) -> String {
    format!("{}", e)
}

/// The text of a template error (its `Display`); nothing is said of it.
#[verifier::external_body]
fn template_error_text(e: &TemplateError) -> String {
    format!("{}", e)
}

/// The text of an error whose message is its own.
pub open spec fn error_text(e: Error) -> Option<Seq<char>> {
    match e {
        Error::EmptyRequest => Some("Empty request"@),
        Error::InvalidRequestLine => Some("Invalid request line"@),
        Error::BadRequest(m) => Some("Bad request: "@ + m@),
        Error::NotFound(m) => Some("Not found: "@ + m@),
        Error::InternalServerError(m) => Some("Internal server error: "@ + m@),
        Error::ValidationError(m) => Some("Slug validation error: "@ + m@),
        Error::MultipartError(m) => Some("Multipart parsing error: "@ + m@),
        _ => None,
    }
}

/// The start of the text of an error that carries an outside error.
pub open spec fn error_text_prefix(e: Error) -> Seq<char> {
    match e {
        Error::Io(_) => "IO error: "@,
        Error::Utf8(_) => "UTF-8 decoding error: "@,
        _ => "Template error: "@,
    }
}

fn prefixed(prefix: &str, rest: &str) -> (s: String)
    ensures
        s@ == prefix@ + rest@,
{
    let mut v = crate::text::chars_of(prefix);
    crate::text::push_str(&mut v, rest);
    crate::text::string_of(v.as_slice())
}

impl Error {
    /// The text that describes the error (what its `Display` shows).
    pub fn message(&self) -> (m: String)
        ensures
            match error_text(*self) {
                Some(t) => m@ == t,
                None => crate::text::starts_with(m@, error_text_prefix(*self)),
            },
    {
        match self {
            Error::Io(e) => {
                let t = io_error_text(e);
                let m = prefixed("IO error: ", t.as_str());
                assert(m@.take("IO error: "@.len() as int) =~= "IO error: "@);
                m
            },
            Error::Utf8(e) => {
                let t = utf8_error_text(e);
                let m = prefixed("UTF-8 decoding error: ", t.as_str());
                assert(m@.take("UTF-8 decoding error: "@.len() as int) =~= "UTF-8 decoding error: "@);
                m
            },
            Error::EmptyRequest => "Empty request".to_string(),
            Error::InvalidRequestLine => "Invalid request line".to_string(),
            Error::BadRequest(s) => prefixed("Bad request: ", s.as_str()),
            Error::NotFound(s) => prefixed("Not found: ", s.as_str()),
            Error::InternalServerError(s) => prefixed("Internal server error: ", s.as_str()),
            Error::Template(e) => {
                let t = template_error_text(e);
                let m = prefixed("Template error: ", t.as_str());
                assert(m@.take("Template error: "@.len() as int) =~= "Template error: "@);
                m
            },
            Error::ValidationError(s) => prefixed("Slug validation error: ", s.as_str()),
            Error::MultipartError(s) => prefixed("Multipart parsing error: ", s.as_str()),
        }
    }
}

} // verus!
