//! How a request is answered: the status, the headers and the body.

use crate::text;
use vstd::prelude::*;
use vstd::string::*;

verus! {

/// What a response carries.
#[derive(Debug)]
pub enum Body {
    Empty,
    Text(String),
    Bytes(Vec<u8>),
}

/// A [`Body`] with its contents as a sequence.
pub enum BodyView {
    Empty,
    Text(Seq<char>),
    Bytes(Seq<u8>),
}

impl View for Body {
    type V = BodyView;

    open spec fn view(&self) -> BodyView {
        match *self {
            Body::Empty => BodyView::Empty,
            Body::Text(s) => BodyView::Text(s@),
            Body::Bytes(b) => BodyView::Bytes(b@),
        }
    }
}

/// A response, with the headers that may be set on it.
#[derive(Debug)]
pub struct Reply {
    pub status: u16,
    pub content_type: Option<String>,
    pub cache_control: Option<String>,
    pub etag: Option<String>,
    pub body: Body,
}

/// A [`Reply`] with its texts as character sequences.
pub struct ReplyView {
    pub status: u16,
    pub content_type: Option<Seq<char>>,
    pub cache_control: Option<Seq<char>>,
    pub etag: Option<Seq<char>>,
    pub body: BodyView,
}

impl View for Reply {
    type V = ReplyView;

    open spec fn view(&self) -> ReplyView {
        ReplyView {
            status: self.status,
            content_type: text::opt_string(self.content_type),
            cache_control: text::opt_string(self.cache_control),
            etag: text::opt_string(self.etag),
            body: self.body@,
        }
    }
}

/// A response in plain text, with no word on caching.
pub open spec fn plain_text(status: u16, message: Seq<char>) -> ReplyView {
    ReplyView {
        status,
        content_type: Some("text/plain; charset=utf-8"@),
        cache_control: None,
        etag: None,
        body: BodyView::Text(message),
    }
}

/// Answers in plain text.
pub fn text_reply(status: u16, message: &str) -> (r: Reply)
    ensures
        r@ == plain_text(status, message@),
{
    Reply {
        status,
        content_type: Some("text/plain; charset=utf-8".to_owned()),
        cache_control: None,
        etag: None,
        body: Body::Text(message.to_owned()),
    }
}

/// An answer in plain text has its message as the body, whole, and says nothing
/// of caching.
pub proof fn plain_text_is_its_message(status: u16, message: Seq<char>)
    ensures
        ({
            let r = plain_text(status, message);
            &&& r.status == status
            &&& r.body == BodyView::Text(message)
            &&& r.content_type == Some("text/plain; charset=utf-8"@)
            &&& r.cache_control is None
            &&& r.etag is None
        }),
{
}

/// The views of answers keep all that they hold.
pub proof fn replies_are_kept(r: Reply)
    ensures
        r@.status == r.status,
        r@.content_type == text::opt_string(r.content_type),
        r@.cache_control == text::opt_string(r.cache_control),
        r@.etag == text::opt_string(r.etag),
        match r.body {
            Body::Empty => r@.body is Empty,
            Body::Text(s) => r@.body == BodyView::Text(s@),
            Body::Bytes(b) => r@.body == BodyView::Bytes(b@),
        },
{
}

} // verus!
