//! The response value and its wire encoding.

use crate::text::{decimal, decimal_text};
use vstd::prelude::*;
use vstd::utf8::encode_utf8;

verus! {

/// What a `Response` holds, as mathematical values.
pub struct ResponseView {
    pub status: u32,
    pub body: Seq<char>,
    pub content_type: Option<Seq<char>>,
}

/// An HTTP response: a status code, a body and an optional content type.
#[derive(Debug)]
pub struct Response {
    /// The status code.
    pub status: u32,
    /// The body.
    pub body: String,
    /// The value of the `Content-Type` header; `None` sends no such header.
    pub content_type: Option<String>,
}

impl View for Response {
    type V = ResponseView;

    open spec fn view(&self) -> ResponseView {
        ResponseView {
            status: self.status,
            body: self.body@,
            content_type: match self.content_type {
                Some(t) => Some(t@),
                None => None,
            },
        }
    }
}

impl ResponseView {
    /// The response every request starts from: status 404, nothing else.
    pub open spec fn not_found() -> ResponseView {
        ResponseView { status: 404, body: Seq::empty(), content_type: None }
    }

    /// A response with the given status, body and content type.
    pub open spec fn typed(status: u32, body: Seq<char>, content_type: Seq<char>) -> ResponseView {
        ResponseView { status, body, content_type: Some(content_type) }
    }
}

/// The text of the message that carries a response: the status line, the
/// length of the body in bytes, the content type where there is one, a blank
/// line, and the body.
pub open spec fn wire_text(r: ResponseView) -> Seq<char> {
    "HTTP/1.1 "@ + decimal(r.status as nat) + "\r\n"@ + "Content-Length: "@ + decimal(
        encode_utf8(r.body).len(),
    ) + "\r\n"@ + (match r.content_type {
        Some(t) => "Content-Type: "@ + t + "\r\n"@,
        None => Seq::empty(),
    }) + "\r\n"@ + r.body
}

/// The bytes that carry a response: its message text in UTF-8.
pub open spec fn wire(r: ResponseView) -> Seq<u8> {
    encode_utf8(wire_text(r))
}

impl Clone for Response {
    fn clone(&self) -> (r: Response)
        ensures
            r@ == self@,
    {
        Response {
            status: self.status,
            body: self.body.clone(),
            content_type: match &self.content_type {
                Some(t) => Some(t.clone()),
                None => None,
            },
        }
    }
}

impl Response {
    /// A response made of exactly the given parts.
    pub fn new(status: u32, body: String, content_type: Option<String>) -> (r: Response)
        ensures
            r.status == status,
            r.body == body,
            r.content_type == content_type,
    {
        Response { status, body, content_type }
    }

    /// An empty response with the given status; nothing of the receiver is kept.
    pub fn status(&self, status: u32) -> (r: Response)
        ensures
            r@ == (ResponseView { status, body: Seq::empty(), content_type: None }),
    {
        Response { status, body: String::new(), content_type: None }
    }

    /// A JSON response; the receiver's content type plays no part.
    pub fn json(&self, status: u32, body: String) -> (r: Response)
        ensures
            r@ == ResponseView::typed(status, body@, "application/json"@),
            r.body == body,
    {
        Response { status, body, content_type: Some("application/json".to_owned()) }
    }

    /// An HTML response; the receiver's content type plays no part.
    pub fn html(&self, status: u32, body: String) -> (r: Response)
        ensures
            r@ == ResponseView::typed(status, body@, "text/html"@),
            r.body == body,
    {
        Response { status, body, content_type: Some("text/html".to_owned()) }
    }

    /// A plain-text response; the receiver's content type plays no part.
    pub fn text(&self, status: u32, body: String) -> (r: Response)
        ensures
            r@ == ResponseView::typed(status, body@, "text/plain"@),
            r.body == body,
    {
        Response { status, body, content_type: Some("text/plain".to_owned()) }
    }

    /// A redirect to `location`: an empty body, and a content type that
    /// carries the `Location` header on a line of its own.
    pub fn redirect(&self, status: u32, location: String) -> (r: Response)
        ensures
            r@ == ResponseView::typed(
                status,
                Seq::empty(),
                "text/html\r\nLocation: "@ + location@,
            ),
    {
        let content_type = String::from_str("text/html\r\nLocation: ").concat(location.as_str());
        Response { status, body: String::new(), content_type: Some(content_type) }
    }

    /// Writes the response to `stream`: appends the bytes of its message.
    pub fn send(&self, stream: &mut Vec<u8>)
        ensures
            final(stream)@ == old(stream)@ + wire(self@),
    {
        let mut message = String::from_str("HTTP/1.1 ");
        message.append(decimal_text(self.status as u64).as_str());
        message.append("\r\n");
        message.append("Content-Length: ");
        message.append(decimal_text(self.body.as_str().as_bytes().len() as u64).as_str());
        message.append("\r\n");
        match &self.content_type {
            Some(t) => {
                message.append("Content-Type: ");
                message.append(t.as_str());
                message.append("\r\n");
            },
            None => {},
        }
        message.append("\r\n");
        message.append(self.body.as_str());
        assert(message@ =~= wire_text(self@));
        let bytes = message.as_str().as_bytes();
        let mut i: usize = 0;
        while i < bytes.len()
            invariant
                i <= bytes.len(),
                bytes@ == wire(self@),
                stream@ == old(stream)@ + bytes@.take(i as int),
            decreases bytes.len() - i,
        {
            stream.push(bytes[i]);
            i += 1;
        }
    }
}

} // verus!
