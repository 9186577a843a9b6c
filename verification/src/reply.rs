//! Replies to requests.
use crate::state::{add_header, header_views};
use vstd::prelude::*;

verus! {

/// The body of a reply.
#[derive(Debug, Clone)]
pub enum Body {
    Empty,
    Text(String),
    Bytes(Vec<u8>),
}

/// A reply to a request.
#[derive(Debug, Clone)]
pub struct Reply {
    pub status: u16,
    pub headers: Vec<(String, String)>,
    pub body: Body,
}

/// What the body of a reply holds.
pub enum BodyView {
    Empty,
    Text(Seq<char>),
    Bytes(Seq<u8>),
}

/// What a [`Reply`] holds, as mathematical values.
pub struct ReplyView {
    pub status: u16,
    pub headers: Seq<(Seq<char>, Seq<char>)>,
    pub body: BodyView,
}

impl View for Body {
    type V = BodyView;

    open spec fn view(&self) -> BodyView {
        match *self {
            Body::Empty => BodyView::Empty,
            Body::Text(t) => BodyView::Text(t@),
            Body::Bytes(b) => BodyView::Bytes(b@),
        }
    }
}

impl View for Reply {
    type V = ReplyView;

    open spec fn view(&self) -> ReplyView {
        ReplyView { status: self.status, headers: header_views(self.headers@), body: self.body@ }
    }
}

/// A reply that says in plain words what happened.
pub open spec fn plain(status: u16, words: Seq<char>) -> ReplyView {
    ReplyView { status, headers: seq![], body: BodyView::Text(words) }
}

/// A reply that says in plain words what happened.
pub fn plain_reply(status: u16, words: &str) -> (r: Reply)
    ensures
        r@ == plain(status, words@),
{
    let r = Reply { status, headers: Vec::new(), body: Body::Text(words.to_owned()) };
    assert(header_views(r.headers@) =~= seq![]);
    r
}

/// The headers of a resource: its type, that any page may use it, and how long it may be kept.
pub open spec fn resource_headers(content_type: Seq<char>, cache_control: Seq<char>) -> Seq<
    (Seq<char>, Seq<char>),
> {
    seq![
        ("content-type"@, content_type),
        ("access-control-allow-origin"@, "*"@),
        ("cache-control"@, cache_control),
    ]
}

/// The headers of a resource.
pub fn make_resource_headers(content_type: &str, cache_control: &str) -> (r: Vec<(String, String)>)
    ensures
        header_views(r@) == resource_headers(content_type@, cache_control@),
{
    let mut headers: Vec<(String, String)> = Vec::new();
    assert(header_views(headers@) =~= seq![]);
    add_header(&mut headers, "content-type", content_type);
    add_header(&mut headers, "access-control-allow-origin", "*");
    add_header(&mut headers, "cache-control", cache_control);
    assert(header_views(headers@) =~= resource_headers(content_type@, cache_control@));
    headers
}

/// A reply with the bytes of a resource.
pub open spec fn resource(
    content_type: Seq<char>,
    cache_control: Seq<char>,
    data: Seq<u8>,
) -> ReplyView {
    ReplyView {
        status: 200,
        headers: resource_headers(content_type, cache_control),
        body: BodyView::Bytes(data),
    }
}

/// A reply with the bytes of a resource.
pub fn resource_reply(content_type: &str, cache_control: &str, data: Vec<u8>) -> (r: Reply)
    ensures
        r@ == resource(content_type@, cache_control@, data@),
{
    Reply {
        status: 200,
        headers: make_resource_headers(content_type, cache_control),
        body: Body::Bytes(data),
    }
}

/// A status of success.
pub open spec fn is_success(status: u16) -> bool {
    200 <= status < 300
}

/// Whether a status is one of success.
pub fn succeeds(status: u16) -> (r: bool)
    ensures
        r == is_success(status),
{
    200 <= status && status < 300
}

// ─── Laws ────────────────────────────────────────────────────────────────────

/// The statuses of success are those that three digits write with a two in front.
pub proof fn law_success_is_the_two_hundreds(status: u16)
    ensures
        is_success(status) <==> status / 100 == 2,
{
}

/// A reply in plain words has these words and no headers, and a reply with a resource has its bytes,
/// as they are, with the headers of its type, of every page's leave to use it, and of its keeping.
pub proof fn law_replies_carry_what_they_are_given(
    status: u16,
    words: Seq<char>,
    content_type: Seq<char>,
    cache_control: Seq<char>,
    data: Seq<u8>,
)
    ensures
        plain(status, words).status == status,
        plain(status, words).headers.len() == 0,
        plain(status, words).body == BodyView::Text(words),
        resource(content_type, cache_control, data).status == 200,
        resource(content_type, cache_control, data).body == BodyView::Bytes(data),
        resource(content_type, cache_control, data).headers.len() == 3,
        resource(content_type, cache_control, data).headers[0] == ("content-type"@, content_type),
        resource(content_type, cache_control, data).headers[1] == (
            "access-control-allow-origin"@,
            "*"@,
        ),
        resource(content_type, cache_control, data).headers[2] == ("cache-control"@, cache_control),
{
}

} // verus!
