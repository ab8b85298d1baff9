//! Responses and the text of the HTTP messages that carry them.

use crate::text::{chars_of, decimal, str_len, push_decimal, push_str, string_of};
use vstd::prelude::*;

verus! {

pub enum ResponseBody {
    Html(String),
    Binary(Vec<u8>, &'static str),
}

pub struct Response {
    pub status: u16,
    pub body: ResponseBody,
}

/// The page that sends the browser on to `location`.
pub open spec fn redirect_page(location: Seq<char>) -> Seq<char> {
    "<html><head><meta http-equiv=\"refresh\" content=\"0; url="@ + location
        + "\"></head><body>Redirecting to <a href=\""@ + location + "\">"@ + location
        + "</a></body></html>"@
}

impl Response {
    pub fn html(status: u16, content: String) -> (r: Self)
        ensures
            r.status == status,
            r.body == ResponseBody::Html(content),
    {
        Response { status, body: ResponseBody::Html(content) }
    }

    pub fn not_found_with_html(html: String) -> (r: Self)
        ensures
            r.status == 404,
            r.body == ResponseBody::Html(html),
    {
        Self::html(404, html)
    }

    pub fn binary(status: u16, data: Vec<u8>, content_type: &'static str) -> (r: Self)
        ensures
            r.status == status,
            r.body == ResponseBody::Binary(data, content_type),
    {
        Response { status, body: ResponseBody::Binary(data, content_type) }
    }

    /// A `303 See Other` answer whose page redirects to `location`.
    pub fn redirect(location: &str) -> (r: Self)
        ensures
            r.status == 303,
            r.body matches ResponseBody::Html(h) && h@ == redirect_page(location@),
    {
        let mut v: Vec<char> = chars_of("<html><head><meta http-equiv=\"refresh\" content=\"0; url=");
        push_str(&mut v, location);
        push_str(&mut v, "\"></head><body>Redirecting to <a href=\"");
        push_str(&mut v, location);
        push_str(&mut v, "\">");
        push_str(&mut v, location);
        push_str(&mut v, "</a></body></html>");
        let html = string_of(v.as_slice());
        Response::html(303, html)
    }
}

/// The status line of a response with the given code.
pub open spec fn status_line_text(code: u16) -> Seq<char> {
    "HTTP/1.1 "@ + decimal(code as nat)
}

/// `HTTP/1.1 <code>`.
pub fn status_line(code: u16) -> (s: String)
    ensures
        s@ == status_line_text(code),
{
    let mut v = chars_of("HTTP/1.1 ");
    push_decimal(code as usize, &mut v);
    string_of(v.as_slice())
}

/// `HTTP/1.1 <code> Bad Request`, the status line that answers a request
/// that could not be read.
pub fn failure_status_line(code: u16) -> (s: String)
    ensures
        s@ == status_line_text(code) + " Bad Request"@,
{
    let mut v = chars_of("HTTP/1.1 ");
    push_decimal(code as usize, &mut v);
    push_str(&mut v, " Bad Request");
    string_of(v.as_slice())
}

/// The whole message that carries an HTML page; the length counts UTF-8 bytes.
pub open spec fn html_message_text(status_line: Seq<char>, content: Seq<char>) -> Seq<char> {
    status_line + "\r\nContent-Type: text/html; charset=utf-8\r\nContent-Length: "@ + decimal(
        str_len(content) as nat,
    ) + "\r\n\r\n"@ + content
}

/// The head of a message that carries `len` bytes of the given type.
pub open spec fn binary_header_text(status_line: Seq<char>, content_type: Seq<char>, len: nat) -> Seq<
    char,
> {
    status_line + "\r\nContent-Type: "@ + content_type + "\r\nContent-Length: "@ + decimal(len)
        + "\r\n\r\n"@
}

/// The message that `send_html` writes.
pub fn html_message(status_line: &str, content: &str) -> (s: String)
    ensures
        s@ == html_message_text(status_line@, content@),
{
    let mut v = chars_of(status_line);
    push_str(&mut v, "\r\nContent-Type: text/html; charset=utf-8\r\nContent-Length: ");
    push_decimal(content.len(), &mut v);
    push_str(&mut v, "\r\n\r\n");
    push_str(&mut v, content);
    string_of(v.as_slice())
}

/// The head that `send_binary` writes before the data.
pub fn binary_header(status_line: &str, content_type: &str, len: usize) -> (s: String)
    ensures
        s@ == binary_header_text(status_line@, content_type@, len as nat),
{
    let mut v = chars_of(status_line);
    push_str(&mut v, "\r\nContent-Type: ");
    push_str(&mut v, content_type);
    push_str(&mut v, "\r\nContent-Length: ");
    push_decimal(len, &mut v);
    push_str(&mut v, "\r\n\r\n");
    string_of(v.as_slice())
}

} // verus!
