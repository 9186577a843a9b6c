//! The provincial channels: finding their streams, and serving playlists, segments and keys.
use crate::cache;
use crate::cache::CacheStats;
use crate::cctv::make_list_headers;
use crate::cctv;
use crate::db;
use crate::db::{clone_opt, Channel};
use crate::foreign;
use crate::foreign::md5_digest;
use crate::m3u8;
use crate::m3u8::{decode_url, is_auth_error, m3u_entry, rewrite_playlist};
use crate::native;
use crate::reply;
use crate::reply::{plain_reply, resource_reply, succeeds, Body, BodyView, Reply, ReplyView};
use crate::state;
use crate::state::{add_header, header_views, AppState, ChannelFacts};
use crate::store::Moment;
use crate::text;
use crate::text::str_equal;
use vstd::prelude::*;
use vstd::utf8::encode_utf8;

verus! {

// ─── What is known of the channels ───────────────────────────────────────────

/// The facts with a stream address that was found for a channel at the time `at`.
pub open spec fn with_stream(
    m: Map<Seq<char>, ChannelFacts>,
    id: Seq<char>,
    url: Seq<char>,
    at: u128,
) -> Map<Seq<char>, ChannelFacts> {
    m.insert(
        id,
        ChannelFacts {
            stream_url: Some(url),
            stream_url_fetched_at: Some(at),
            ..state::facts_of(m, id)
        },
    )
}

/// The facts without the stream address of a channel.
pub open spec fn without_stream(m: Map<Seq<char>, ChannelFacts>, id: Seq<char>) -> Map<
    Seq<char>,
    ChannelFacts,
> {
    m.insert(id, ChannelFacts { stream_url: None, ..state::facts_of(m, id) })
}

/// The facts with a channel that is being fetched, or is not any more.
pub open spec fn with_fetching(
    m: Map<Seq<char>, ChannelFacts>,
    id: Seq<char>,
    fetching: bool,
) -> Map<Seq<char>, ChannelFacts> {
    m.insert(id, ChannelFacts { fetching, ..state::facts_of(m, id) })
}

/// Two states differ in the stream cache and in what they know of the channels at most.
pub open spec fn same_but_streams(a: &AppState, b: &AppState) -> bool {
    a.same_setup(b) && a.segment_cache == b.segment_cache && a.m3u8_cache == b.m3u8_cache
}

/// Remembers the stream address that was found for a channel.
pub fn remember_stream(state: &mut AppState, channel_id: &str, url: &str, at: u128)
    ensures
        final(state).channel_states@ == with_stream(
            old(state).channel_states@,
            channel_id@,
            url@,
            at,
        ),
        same_but_streams(final(state), old(state)),
        final(state).stream_cache == old(state).stream_cache,
{
    let mut s = state.get_or_create_channel_state(channel_id);
    s.stream_url = Some(url.to_owned());
    s.stream_url_fetched_at = Some(at);
    state.channel_states.put(channel_id, s);
    assert(state.channel_states@ =~= with_stream(
        old(state).channel_states@,
        channel_id@,
        url@,
        at,
    ));
}

/// Forgets the stream address of a channel.
pub fn forget_stream(state: &mut AppState, channel_id: &str)
    ensures
        final(state).channel_states@ == without_stream(old(state).channel_states@, channel_id@),
        same_but_streams(final(state), old(state)),
        final(state).stream_cache == old(state).stream_cache,
{
    let mut s = state.get_or_create_channel_state(channel_id);
    s.stream_url = None;
    state.channel_states.put(channel_id, s);
    assert(state.channel_states@ =~= without_stream(old(state).channel_states@, channel_id@));
}

/// Notes that a channel is being fetched, or is not any more.
pub fn mark_fetching(state: &mut AppState, channel_id: &str, fetching: bool)
    ensures
        final(state).channel_states@ == with_fetching(
            old(state).channel_states@,
            channel_id@,
            fetching,
        ),
        same_but_streams(final(state), old(state)),
        final(state).stream_cache == old(state).stream_cache,
{
    let mut s = state.get_or_create_channel_state(channel_id);
    s.fetching = fetching;
    state.channel_states.put(channel_id, s);
    assert(state.channel_states@ =~= with_fetching(
        old(state).channel_states@,
        channel_id@,
        fetching,
    ));
}

// ─── Finding a stream ────────────────────────────────────────────────────────

/// A page that is opened in the browser to find a stream.
#[derive(Debug, Clone)]
pub struct BrowseRequest {
    pub page_url: String,
    pub m3u8_match: String,
    pub user_agent: String,
    pub timeout_ms: u64,
    pub mgtv_sid: Option<String>,
}

/// What a [`BrowseRequest`] holds.
pub struct BrowseView {
    pub page_url: Seq<char>,
    pub m3u8_match: Seq<char>,
    pub user_agent: Seq<char>,
    pub timeout_ms: u64,
    pub mgtv_sid: Option<Seq<char>>,
}

impl View for BrowseRequest {
    type V = BrowseView;

    open spec fn view(&self) -> BrowseView {
        BrowseView {
            page_url: self.page_url@,
            m3u8_match: self.m3u8_match@,
            user_agent: self.user_agent@,
            timeout_ms: self.timeout_ms,
            mgtv_sid: foreign::opt_view(self.mgtv_sid),
        }
    }
}

/// A request whose reply is waited for a given time.
#[derive(Debug, Clone)]
pub struct TimedRequest {
    pub url: String,
    pub headers: Vec<(String, String)>,
    pub timeout_ms: u64,
}

/// What a [`TimedRequest`] holds.
pub struct RequestView {
    pub url: Seq<char>,
    pub headers: Seq<(Seq<char>, Seq<char>)>,
    pub timeout_ms: u64,
}

impl View for TimedRequest {
    type V = RequestView;

    open spec fn view(&self) -> RequestView {
        RequestView {
            url: self.url@,
            headers: header_views(self.headers@),
            timeout_ms: self.timeout_ms,
        }
    }
}

/// What finding a stream does next.
#[derive(Debug, Clone)]
pub enum EnsureStep {
    /// Have the native library sign the channel's address.
    Sign,
    /// Wait some milliseconds for another request that is fetching the channel.
    Wait(u64),
    /// Ask whether a cached address is still alive.
    Probe(TimedRequest),
    /// Wait for the turn to use the browser.
    Queue,
    /// Open a page in the browser.
    Browse(BrowseRequest),
    /// End with a stream address, or without one.
    Done(Option<String>),
}

/// What an [`EnsureStep`] holds.
pub enum EnsureView {
    Sign,
    Wait(u64),
    Probe(RequestView),
    Queue,
    Browse(BrowseView),
    Done(Option<Seq<char>>),
}

impl View for EnsureStep {
    type V = EnsureView;

    open spec fn view(&self) -> EnsureView {
        match *self {
            EnsureStep::Sign => EnsureView::Sign,
            EnsureStep::Wait(ms) => EnsureView::Wait(ms),
            EnsureStep::Probe(r) => EnsureView::Probe(r@),
            EnsureStep::Queue => EnsureView::Queue,
            EnsureStep::Browse(b) => EnsureView::Browse(b@),
            EnsureStep::Done(u) => EnsureView::Done(foreign::opt_view(u)),
        }
    }
}

/// The question whether a stream of a channel is alive.
pub open spec fn probe(s: &AppState, id: Seq<char>, url: Seq<char>, timeout_ms: u64) -> RequestView {
    RequestView {
        url,
        headers: state::request_headers(
            state::rule_of(s.rules(), id),
            foreign::url_origin(url),
            s.user_agent@,
            id,
        ),
        timeout_ms,
    }
}

/// The question whether a stream of a channel is alive.
pub fn make_probe(state: &AppState, channel_id: &str, url: &str, timeout_ms: u64) -> (r:
    TimedRequest)
    ensures
        r@ == probe(state, channel_id@, url@, timeout_ms),
{
    TimedRequest {
        url: url.to_owned(),
        headers: state.referer_headers(channel_id, url),
        timeout_ms,
    }
}

/// How finding a stream starts. A signed channel is signed. For any other, an address that is
/// known is the result; where another request is fetching the channel, that is waited for; a
/// cached address is probed; and otherwise the browser is needed.
pub open spec fn ensure_start(
    s: &AppState,
    id: Seq<char>,
    page: Seq<char>,
    signer_loaded: bool,
    now: Moment,
) -> EnsureView {
    let facts = state::facts_of(s.channel_states@, id);
    if state::is_signed(id) {
        if signer_loaded {
            EnsureView::Sign
        } else {
            EnsureView::Done(None)
        }
    } else if facts.stream_url is Some {
        EnsureView::Done(facts.stream_url)
    } else if facts.fetching {
        EnsureView::Wait(300)
    } else {
        match cache::found_at(s.stream_cache@, cache::stream_key(id, page), now.wall) {
            Some(url) => EnsureView::Probe(probe(s, id, url, 8_000)),
            None => EnsureView::Queue,
        }
    }
}

/// The stream cache is looked into when finding a stream starts.
pub open spec fn ensure_looks_up(s: &AppState, id: Seq<char>) -> bool {
    let facts = state::facts_of(s.channel_states@, id);
    !state::is_signed(id) && facts.stream_url is None && !facts.fetching
}

/// Starts finding a stream of a channel whose page is at `original_url`.
pub fn ensure_stream_url(
    state: &mut AppState,
    channel_id: &str,
    original_url: &str,
    signer_loaded: bool,
    now: Moment,
) -> (r: EnsureStep)
    ensures
        r@ == ensure_start(old(state), channel_id@, original_url@, signer_loaded, now),
        final(state).channel_states@ == if state::is_signed(channel_id@) {
            old(state).channel_states@
        } else {
            state::opened(old(state).channel_states@, channel_id@)
        },
        final(state).stream_cache@ == if ensure_looks_up(old(state), channel_id@) {
            cache::left_at(
                old(state).stream_cache@,
                cache::stream_key(channel_id@, original_url@),
                now.wall,
            )
        } else {
            old(state).stream_cache@
        },
        same_but_streams(final(state), old(state)),
{
    if state.is_signed_channel(channel_id) {
        return if signer_loaded {
            EnsureStep::Sign
        } else {
            EnsureStep::Done(None)
        };
    }
    let s = state.get_or_create_channel_state(channel_id);
    if let Some(url) = s.stream_url {
        return EnsureStep::Done(Some(url));
    }
    if s.fetching {
        return EnsureStep::Wait(300);
    }
    match state.stream_cache.get_at(channel_id, original_url, now.wall) {
        Some(url) => EnsureStep::Probe(make_probe(state, channel_id, url.as_str(), 8_000)),
        None => EnsureStep::Queue,
    }
}

/// Goes on after the native library was asked: a signed address is cached, remembered and the
/// result.
pub fn ensure_signed(
    state: &mut AppState,
    channel_id: &str,
    original_url: &str,
    signed: Option<String>,
    now: Moment,
) -> (r: Option<String>)
    ensures
        r == signed,
        match signed {
            Some(url) => {
                &&& final(state).stream_cache@ == cache::set_at_leaves(
                    old(state).stream_cache@,
                    channel_id@,
                    original_url@,
                    url@,
                    "native_signer"@,
                    old(state).stream_cache.ttl(),
                    now.wall,
                )
                &&& final(state).channel_states@ == with_stream(
                    old(state).channel_states@,
                    channel_id@,
                    url@,
                    now.mono,
                )
            },
            None => {
                &&& final(state).stream_cache@ == old(state).stream_cache@
                &&& final(state).channel_states@ == old(state).channel_states@
            },
        },
        same_but_streams(final(state), old(state)),
{
    if let Some(url) = &signed {
        state.stream_cache.set_at(
            channel_id,
            original_url,
            url.as_str(),
            "native_signer",
            now.wall,
        );
        remember_stream(state, channel_id, url.as_str(), now.mono);
    }
    signed
}

/// Goes on after another request was waited for: the result is what is known by then.
pub fn ensure_waited(state: &mut AppState, channel_id: &str) -> (r: Option<String>)
    ensures
        foreign::opt_view(r) == state::facts_of(
            old(state).channel_states@,
            channel_id@,
        ).stream_url,
        final(state).channel_states@ == state::opened(old(state).channel_states@, channel_id@),
        final(state).stream_cache == old(state).stream_cache,
        same_but_streams(final(state), old(state)),
{
    let s = state.get_or_create_channel_state(channel_id);
    s.stream_url
}

/// A stream is alive: it answered in time, and with success.
pub open spec fn is_alive(status: Option<u16>) -> bool {
    status matches Some(n) && reply::is_success(n)
}

/// Whether a stream is alive, where `status` is that of its answer, if one came in time.
pub fn answers(status: Option<u16>) -> (r: bool)
    ensures
        r == is_alive(status),
{
    match status {
        Some(n) => succeeds(n),
        None => false,
    }
}

/// Goes on after a cached address was probed: one that is alive is remembered and the result; any
/// other is forgotten, and the browser is needed.
pub fn ensure_probed(
    state: &mut AppState,
    channel_id: &str,
    original_url: &str,
    cached_url: &str,
    status: Option<u16>,
    now: Moment,
) -> (r: EnsureStep)
    ensures
        r@ == (if is_alive(status) {
            EnsureView::Done(Some(cached_url@))
        } else {
            EnsureView::Queue
        }),
        final(state).channel_states@ == if is_alive(status) {
            with_stream(old(state).channel_states@, channel_id@, cached_url@, now.mono)
        } else {
            old(state).channel_states@
        },
        final(state).stream_cache@ == if is_alive(status) {
            old(state).stream_cache@
        } else {
            cache::without_key(
                old(state).stream_cache@,
                cache::stream_key(channel_id@, original_url@),
            )
        },
        same_but_streams(final(state), old(state)),
{
    if answers(status) {
        remember_stream(state, channel_id, cached_url, now.mono);
        EnsureStep::Done(Some(cached_url.to_owned()))
    } else {
        state.stream_cache.invalidate(channel_id, original_url);
        EnsureStep::Queue
    }
}

/// The page that is opened to find a stream of a channel: that of its rule, or else its own.
pub open spec fn browse(s: &AppState, id: Seq<char>, page: Seq<char>) -> BrowseView {
    let rule = state::rule_of(s.rules(), id);
    BrowseView {
        page_url: match rule {
            Some(r) => db::text_or(r.target_url, page),
            None => page,
        },
        m3u8_match: match rule {
            Some(r) => db::text_or(r.m3u8_match, ".m3u8"@),
            None => ".m3u8"@,
        },
        user_agent: s.user_agent@,
        timeout_ms: s.fetch_timeout_ms,
        mgtv_sid: match state::first_with(s.provincial(), state::channel_id(), id) {
            Some(c) => c.sid,
            None => None,
        },
    }
}

/// The page that is opened to find a stream of a channel.
pub fn make_browse(state: &AppState, channel_id: &str, original_url: &str) -> (r: BrowseRequest)
    ensures
        r@ == browse(state, channel_id@, original_url@),
{
    let (page_url, m3u8_match) = match state.site_rule_for(channel_id) {
        Some(rule) => (
            db::string_or(&rule.target_url, original_url),
            db::string_or(&rule.m3u8_match, ".m3u8"),
        ),
        None => (original_url.to_owned(), ".m3u8".to_owned()),
    };
    let mgtv_sid = match state.find_channel(channel_id) {
        Some(c) => clone_opt(&c.sid),
        None => None,
    };
    BrowseRequest {
        page_url,
        m3u8_match,
        user_agent: state.user_agent.clone(),
        timeout_ms: state.fetch_timeout_ms,
        mgtv_sid,
    }
}

/// Goes on after the turn to use the browser was waited for: the page is opened, and the channel
/// is being fetched from then on.
pub fn ensure_admitted(
    state: &mut AppState,
    channel_id: &str,
    original_url: &str,
    admitted: bool,
) -> (r: EnsureStep)
    ensures
        r@ == (if admitted {
            EnsureView::Browse(browse(old(state), channel_id@, original_url@))
        } else {
            EnsureView::Done(None)
        }),
        final(state).channel_states@ == if admitted {
            with_fetching(old(state).channel_states@, channel_id@, true)
        } else {
            old(state).channel_states@
        },
        final(state).stream_cache == old(state).stream_cache,
        same_but_streams(final(state), old(state)),
{
    if !admitted {
        return EnsureStep::Done(None);
    }
    mark_fetching(state, channel_id, true);
    EnsureStep::Browse(make_browse(state, channel_id, original_url))
}

/// Goes on after the browser was used: the channel is not being fetched any more, and an address
/// that was found is remembered, cached and the result.
pub fn ensure_browsed(
    state: &mut AppState,
    channel_id: &str,
    original_url: &str,
    found: Option<String>,
    now: Moment,
) -> (r: Option<String>)
    ensures
        r == found,
        match found {
            Some(url) => {
                &&& final(state).channel_states@ == with_stream(
                    with_fetching(old(state).channel_states@, channel_id@, false),
                    channel_id@,
                    url@,
                    now.mono,
                )
                &&& final(state).stream_cache@ == cache::set_at_leaves(
                    old(state).stream_cache@,
                    channel_id@,
                    original_url@,
                    url@,
                    "browser"@,
                    old(state).stream_cache.ttl(),
                    now.wall,
                )
            },
            None => {
                &&& final(state).channel_states@ == with_fetching(
                    old(state).channel_states@,
                    channel_id@,
                    false,
                )
                &&& final(state).stream_cache@ == old(state).stream_cache@
            },
        },
        same_but_streams(final(state), old(state)),
{
    mark_fetching(state, channel_id, false);
    if let Some(url) = &found {
        remember_stream(state, channel_id, url.as_str(), now.mono);
        state.stream_cache.set_at(channel_id, original_url, url.as_str(), "browser", now.wall);
    }
    found
}

// ─── Playlists ───────────────────────────────────────────────────────────────

/// Why a playlist that was fetched is not served.
#[derive(Debug, Clone, Copy, PartialEq, Eq, Structural)]
pub enum FetchError {
    /// There was no reply, or it could not be read.
    Transport,
    /// The reply refused for want of authorisation.
    Auth(u16),
    /// The reply had another status than success.
    Http(u16),
}

/// Why a reply with this status and this body, in lower case, is no playlist to serve.
pub open spec fn playlist_fault(status: u16, lower: Seq<char>) -> Option<FetchError> {
    if m3u8::refuses(status, lower) {
        Some(FetchError::Auth(status))
    } else if !reply::is_success(status) {
        Some(FetchError::Http(status))
    } else {
        None
    }
}

/// Why a reply is no playlist to serve, where `refused` says whether it refused for want of
/// authorisation.
pub fn fault_of(status: u16, refused: bool) -> (r: Option<FetchError>)
    ensures
        r == (if refused {
            Some(FetchError::Auth(status))
        } else if !reply::is_success(status) {
            Some(FetchError::Http(status))
        } else {
            None
        }),
{
    if refused {
        Some(FetchError::Auth(status))
    } else if !succeeds(status) {
        Some(FetchError::Http(status))
    } else {
        None
    }
}

/// The key under which a rewritten playlist is cached.
pub open spec fn playlist_key(id: Seq<char>, stream_url: Seq<char>) -> Seq<char> {
    id + ":"@ + stream_url
}

/// The key under which a rewritten playlist is cached.
pub fn make_playlist_key(channel_id: &str, stream_url: &str) -> (r: String)
    ensures
        r@ == playlist_key(channel_id@, stream_url@),
{
    let mut key = channel_id.to_owned();
    key.append(":");
    key.append(stream_url);
    key
}

/// The headers of a request for the playlist of a stream.
pub open spec fn playlist_headers(s: &AppState, id: Seq<char>, stream_url: Seq<char>) -> Seq<
    (Seq<char>, Seq<char>),
> {
    seq![("Cache-Control"@, "no-cache"@), ("Pragma"@, "no-cache"@)] + state::request_headers(
        state::rule_of(s.rules(), id),
        foreign::url_origin(stream_url),
        s.user_agent@,
        id,
    )
}

/// Puts a list of headers behind another.
fn add_headers(headers: &mut Vec<(String, String)>, more: &Vec<(String, String)>)
    ensures
        header_views(final(headers)@) == header_views(old(headers)@) + header_views(more@),
{
    let ghost start = header_views(headers@);
    let ghost rest = header_views(more@);
    let mut i: usize = 0;
    assert(start =~= start + rest.take(0));
    while i < more.len()
        invariant
            i <= more@.len(),
            rest == header_views(more@),
            start == header_views(old(headers)@),
            header_views(headers@) == start + rest.take(i as int),
        decreases more.len() - i,
    {
        add_header(headers, more[i].0.as_str(), more[i].1.as_str());
        assert(rest[i as int] == (more@[i as int].0@, more@[i as int].1@));
        assert(rest.take(i + 1) =~= rest.take(i as int).push(rest[i as int]));
        assert(header_views(headers@) =~= start + rest.take(i + 1));
        i = i + 1;
    }
    assert(rest.take(rest.len() as int) =~= rest);
}

/// The headers of a request for the playlist of a stream.
pub fn make_playlist_headers(state: &AppState, channel_id: &str, stream_url: &str) -> (r: Vec<
    (String, String),
>)
    ensures
        header_views(r@) == playlist_headers(state, channel_id@, stream_url@),
{
    let mut headers: Vec<(String, String)> = Vec::new();
    assert(header_views(headers@) =~= seq![]);
    add_header(&mut headers, "Cache-Control", "no-cache");
    add_header(&mut headers, "Pragma", "no-cache");
    assert(header_views(headers@) =~= seq![
        ("Cache-Control"@, "no-cache"@),
        ("Pragma"@, "no-cache"@),
    ]);
    let more = state.referer_headers(channel_id, stream_url);
    add_headers(&mut headers, &more);
    headers
}

/// The reply with a playlist whose tag is `etag`, to a request that has the playlist with the tag
/// `known` already.
pub open spec fn tagged_reply(
    content: Seq<char>,
    etag: Seq<char>,
    known: Option<Seq<char>>,
) -> ReplyView {
    if known == Some(etag) {
        ReplyView { status: 304, headers: seq![], body: BodyView::Empty }
    } else {
        ReplyView {
            status: 200,
            headers: reply::resource_headers(
                "application/vnd.apple.mpegurl"@,
                "no-cache, no-store, must-revalidate"@,
            ).push(("ETag"@, etag)),
            body: BodyView::Text(content),
        }
    }
}

/// The tag of a playlist.
pub open spec fn etag(content: Seq<char>) -> Seq<char> {
    foreign::md5_hex(encode_utf8(content))
}

/// The characters of an optional text.
pub open spec fn opt_str(s: Option<&str>) -> Option<Seq<char>> {
    match s {
        Some(t) => Some(t@),
        None => None,
    }
}

/// The reply with a playlist whose tag is `etag`.
pub fn make_tagged_reply(content: String, etag: &str, if_none_match: Option<&str>) -> (r: Reply)
    ensures
        r@ == tagged_reply(content@, etag@, opt_str(if_none_match)),
{
    let fresh = match if_none_match {
        Some(known) => str_equal(known, etag),
        None => false,
    };
    if fresh {
        let r = Reply { status: 304, headers: Vec::new(), body: Body::Empty };
        assert(header_views(r.headers@) =~= seq![]);
        r
    } else {
        let mut headers = reply::make_resource_headers(
            "application/vnd.apple.mpegurl",
            "no-cache, no-store, must-revalidate",
        );
        add_header(&mut headers, "ETag", etag);
        Reply { status: 200, headers, body: Body::Text(content) }
    }
}

/// The reply with a playlist.
pub fn playlist_reply(content: String, if_none_match: Option<&str>) -> (r: Reply)
    ensures
        r@ == tagged_reply(content@, etag(content@), opt_str(if_none_match)),
{
    let tag = md5_digest(content.as_str().as_bytes());
    make_tagged_reply(content, tag.as_str(), if_none_match)
}

/// The reply where no playlist could be had.
pub open spec fn unavailable() -> ReplyView {
    ReplyView {
        status: 503,
        headers: seq![("access-control-allow-origin"@, "*"@)],
        body: BodyView::Text("Temporary unavailable"@),
    }
}

/// The reply where no playlist could be had.
pub fn unavailable_reply() -> (r: Reply)
    ensures
        r@ == unavailable(),
{
    let mut headers: Vec<(String, String)> = Vec::new();
    assert(header_views(headers@) =~= seq![]);
    add_header(&mut headers, "access-control-allow-origin", "*");
    assert(header_views(headers@) =~= seq![("access-control-allow-origin"@, "*"@)]);
    Reply { status: 503, headers, body: Body::Text("Temporary unavailable".to_owned()) }
}

/// A request for the playlist of a channel.
#[derive(Debug, Clone)]
pub struct PlaylistJob {
    pub channel_id: String,
    pub page_url: String,
    pub host: String,
    /// The first attempt has failed.
    pub retried: bool,
}

/// What a request for a playlist does next.
#[derive(Debug, Clone)]
pub enum PlaylistStep {
    /// Find a stream of the channel.
    Ensure,
    /// Fetch a playlist: its address and the headers of the request.
    Fetch(String, Vec<(String, String)>),
    /// Reply.
    Done(Reply),
}

/// What a [`PlaylistStep`] holds.
pub enum PlaylistStepView {
    Ensure,
    Fetch(Seq<char>, Seq<(Seq<char>, Seq<char>)>),
    Done(ReplyView),
}

impl View for PlaylistStep {
    type V = PlaylistStepView;

    open spec fn view(&self) -> PlaylistStepView {
        match *self {
            PlaylistStep::Ensure => PlaylistStepView::Ensure,
            PlaylistStep::Fetch(u, h) => PlaylistStepView::Fetch(u@, header_views(h@)),
            PlaylistStep::Done(r) => PlaylistStepView::Done(r@),
        }
    }
}

/// Starts a request for the playlist of a channel, with finding a stream as its first step; or the
/// reply where there is no such channel.
pub fn proxy_playlist(state: &AppState, channel_id: &str, host: &str) -> (r: Result<
    PlaylistJob,
    Reply,
>)
    ensures
        match state::first_with(state.provincial(), state::channel_id(), channel_id@) {
            Some(c) => {
                &&& r is Ok
                &&& r->Ok_0.channel_id@ == channel_id@
                &&& r->Ok_0.page_url@ == c.url
                &&& r->Ok_0.host@ == host@
                &&& !r->Ok_0.retried
            },
            None => r is Err && r->Err_0@ == reply::plain(404, "Channel not found"@),
        },
{
    match state.find_channel(channel_id) {
        Some(c) => Ok(
            PlaylistJob {
                channel_id: channel_id.to_owned(),
                page_url: c.url.clone(),
                host: host.to_owned(),
                retried: false,
            },
        ),
        None => Err(plain_reply(404, "Channel not found")),
    }
}

/// A reply to the request for a playlist, if one came and could be read: its status and its text.
pub open spec fn opt_response(r: Option<(u16, String)>) -> Option<(u16, Seq<char>)> {
    match r {
        Some(p) => Some((p.0, p.1@)),
        None => None,
    }
}

/// What asking for the playlist at `url` gives: a playlist to serve, in which every resource is
/// routed through the proxy, or why there is none.
pub open spec fn fetch_outcome(
    response: Option<(u16, Seq<char>)>,
    url: Seq<char>,
    host: Seq<char>,
    id: Seq<char>,
) -> Result<Seq<char>, FetchError> {
    match response {
        Some((status, text)) => match playlist_fault(status, foreign::lowercase(text)) {
            Some(e) => Err(e),
            None => Ok(m3u8::rewritten(text, url, host, id)),
        },
        None => Err(FetchError::Transport),
    }
}

/// Rewrites and caches the playlist at `stream_url`, if the reply to the request for it holds one
/// to serve.
pub fn fetch_and_rewrite_m3u8(
    state: &mut AppState,
    stream_url: &str,
    proxy_host: &str,
    channel_id: &str,
    response: Option<(u16, String)>,
    now: Moment,
) -> (r: Result<String, FetchError>)
    ensures
        match fetch_outcome(opt_response(response), stream_url@, proxy_host@, channel_id@) {
            Ok(content) => {
                &&& r is Ok
                &&& r->Ok_0@ == content
                &&& m3u8::leads_back((response->0).1@, stream_url@)
                &&& cache::timed_set(
                    old(state).m3u8_cache@,
                    final(state).m3u8_cache@,
                    playlist_key(channel_id@, stream_url@),
                    content,
                    old(state).m3u8_cache.limit(),
                    10,
                    old(state).m3u8_cache.ttl(),
                    now.mono,
                )
            },
            Err(e) => {
                &&& r == Err::<String, FetchError>(e)
                &&& final(state).m3u8_cache == old(state).m3u8_cache
            },
        },
        final(state).same_setup(old(state)),
        final(state).stream_cache == old(state).stream_cache,
        final(state).segment_cache == old(state).segment_cache,
        final(state).channel_states == old(state).channel_states,
{
    let (status, text) = match response {
        Some(r) => r,
        None => return Err(FetchError::Transport),
    };
    let refused = is_auth_error(status, text.as_str());
    if let Some(e) = fault_of(status, refused) {
        return Err(e);
    }
    let content = rewrite_playlist(text.as_str(), stream_url, proxy_host, channel_id);
    let key = make_playlist_key(channel_id, stream_url);
    state.m3u8_cache.set_at(key, content.clone(), now.mono);
    Ok(content)
}

/// What a request for a playlist does after a failed attempt: try once more, or give up.
pub open spec fn after_failure(retried: bool) -> PlaylistStepView {
    if retried {
        PlaylistStepView::Done(unavailable())
    } else {
        PlaylistStepView::Ensure
    }
}

impl PlaylistJob {
    /// Goes on after a stream was looked for: a playlist that is cached is the reply, any other is
    /// fetched.
    pub fn ensured(
        &self,
        state: &mut AppState,
        stream_url: Option<String>,
        if_none_match: Option<&str>,
        now: Moment,
    ) -> (r: PlaylistStep)
        ensures
            match stream_url {
                Some(url) => {
                    let key = playlist_key(self.channel_id@, url@);
                    let ttl = old(state).m3u8_cache.ttl();
                    &&& r@ == match cache::timed_found(
                        old(state).m3u8_cache@,
                        key,
                        ttl,
                        now.mono,
                    ) {
                        Some(content) => PlaylistStepView::Done(
                            tagged_reply(content, etag(content), opt_str(if_none_match)),
                        ),
                        None => PlaylistStepView::Fetch(
                            url@,
                            playlist_headers(old(state), self.channel_id@, url@),
                        ),
                    }
                    &&& final(state).m3u8_cache@ == cache::timed_left(
                        old(state).m3u8_cache@,
                        key,
                        ttl,
                        now.mono,
                    )
                },
                None => {
                    &&& r@ == PlaylistStepView::Done(unavailable())
                    &&& final(state).m3u8_cache@ == old(state).m3u8_cache@
                },
            },
            final(state).same_setup(old(state)),
            final(state).stream_cache == old(state).stream_cache,
            final(state).segment_cache == old(state).segment_cache,
            final(state).channel_states == old(state).channel_states,
    {
        let url = match stream_url {
            Some(u) => u,
            None => return PlaylistStep::Done(unavailable_reply()),
        };
        let key = make_playlist_key(self.channel_id.as_str(), url.as_str());
        match state.m3u8_cache.get_at(key.as_str(), now.mono) {
            Some(content) => PlaylistStep::Done(playlist_reply(content, if_none_match)),
            None => {
                let headers = make_playlist_headers(
                    state,
                    self.channel_id.as_str(),
                    url.as_str(),
                );
                PlaylistStep::Fetch(url, headers)
            },
        }
    }

    /// Goes on after the playlist at `stream_url` was asked for. A playlist to serve is rewritten,
    /// cached and the reply. Any other outcome makes the proxy forget the stream, and is tried
    /// once more.
    pub fn fetched(
        &mut self,
        state: &mut AppState,
        stream_url: &str,
        response: Option<(u16, String)>,
        if_none_match: Option<&str>,
        now: Moment,
    ) -> (r: PlaylistStep)
        ensures
            match fetch_outcome(
                opt_response(response),
                stream_url@,
                old(self).host@,
                old(self).channel_id@,
            ) {
                Ok(content) => {
                    &&& r@ == PlaylistStepView::Done(
                        tagged_reply(content, etag(content), opt_str(if_none_match)),
                    )
                    &&& m3u8::leads_back((response->0).1@, stream_url@)
                    &&& cache::timed_set(
                        old(state).m3u8_cache@,
                        final(state).m3u8_cache@,
                        playlist_key(old(self).channel_id@, stream_url@),
                        content,
                        old(state).m3u8_cache.limit(),
                        10,
                        old(state).m3u8_cache.ttl(),
                        now.mono,
                    )
                    &&& final(state).stream_cache == old(state).stream_cache
                    &&& final(state).channel_states == old(state).channel_states
                    &&& *final(self) == *old(self)
                },
                Err(_) => {
                    &&& r@ == after_failure(old(self).retried)
                    &&& final(state).m3u8_cache@ == old(state).m3u8_cache@.remove(
                        playlist_key(old(self).channel_id@, stream_url@),
                    )
                    &&& final(state).stream_cache@ == cache::without_key(
                        old(state).stream_cache@,
                        cache::stream_key(old(self).channel_id@, old(self).page_url@),
                    )
                    &&& final(state).channel_states@ == without_stream(
                        old(state).channel_states@,
                        old(self).channel_id@,
                    )
                    &&& final(self).retried
                    &&& final(self).channel_id == old(self).channel_id
                    &&& final(self).page_url == old(self).page_url
                    &&& final(self).host == old(self).host
                },
            },
            final(state).same_setup(old(state)),
            final(state).segment_cache == old(state).segment_cache,
    {
        match fetch_and_rewrite_m3u8(
            state,
            stream_url,
            self.host.as_str(),
            self.channel_id.as_str(),
            response,
            now,
        ) {
            Ok(content) => return PlaylistStep::Done(playlist_reply(content, if_none_match)),
            Err(_) => {},
        }
        let key = make_playlist_key(self.channel_id.as_str(), stream_url);
        forget_stream(state, self.channel_id.as_str());
        state.stream_cache.invalidate(self.channel_id.as_str(), self.page_url.as_str());
        state.m3u8_cache.remove(key.as_str());
        if self.retried {
            PlaylistStep::Done(unavailable_reply())
        } else {
            self.retried = true;
            PlaylistStep::Ensure
        }
    }
}

// ─── Segments and keys ───────────────────────────────────────────────────────

/// The resources that a playlist names.
#[derive(Debug, Clone, Copy, PartialEq, Eq, Structural)]
pub enum ResourceKind {
    Segment,
    Key,
}

/// The content type of a resource.
pub open spec fn content_type(kind: ResourceKind) -> Seq<char> {
    match kind {
        ResourceKind::Segment => "video/mp2t"@,
        ResourceKind::Key => "application/octet-stream"@,
    }
}

/// How long a resource may be kept.
pub open spec fn cache_control(kind: ResourceKind) -> Seq<char> {
    match kind {
        ResourceKind::Segment => "public, max-age=8"@,
        ResourceKind::Key => "no-cache"@,
    }
}

/// The reply with a resource.
pub open spec fn kind_reply(kind: ResourceKind, data: Seq<u8>) -> ReplyView {
    reply::resource(content_type(kind), cache_control(kind), data)
}

/// The reply with a resource.
fn make_kind_reply(kind: ResourceKind, data: Vec<u8>) -> (r: Reply)
    ensures
        r@ == kind_reply(kind, data@),
{
    match kind {
        ResourceKind::Segment => resource_reply("video/mp2t", "public, max-age=8", data),
        ResourceKind::Key => resource_reply("application/octet-stream", "no-cache", data),
    }
}

/// What a request for a resource does next.
#[derive(Debug, Clone)]
pub enum ResourceStep {
    /// Fetch the resource.
    Fetch(TimedRequest),
    /// Reply.
    Done(Reply),
}

/// What a [`ResourceStep`] holds.
pub enum ResourceStepView {
    Fetch(RequestView),
    Done(ReplyView),
}

impl View for ResourceStep {
    type V = ResourceStepView;

    open spec fn view(&self) -> ResourceStepView {
        match *self {
            ResourceStep::Fetch(r) => ResourceStepView::Fetch(r@),
            ResourceStep::Done(r) => ResourceStepView::Done(r@),
        }
    }
}

/// The request for a resource of a channel.
pub open spec fn resource_request(s: &AppState, id: Seq<char>, url: Seq<char>) -> RequestView {
    RequestView {
        url,
        headers: seq![("Accept-Encoding"@, "identity"@)] + state::request_headers(
            state::rule_of(s.rules(), id),
            foreign::url_origin(url),
            s.user_agent@,
            id,
        ),
        timeout_ms: s.proxy_timeout_ms,
    }
}

/// How a request for a resource starts: one that is cached is the reply, any other is fetched.
pub open spec fn resource_start(
    s: &AppState,
    id: Seq<char>,
    encoded: Seq<char>,
    kind: ResourceKind,
    now: u128,
) -> ResourceStepView {
    match m3u8::decoded_url(encoded) {
        Ok(url) => match cache::timed_found(
            s.segment_cache@,
            url,
            s.segment_cache.ttl(),
            now,
        ) {
            Some(data) => ResourceStepView::Done(kind_reply(kind, data)),
            None => ResourceStepView::Fetch(resource_request(s, id, url)),
        },
        Err(_) => ResourceStepView::Done(reply::plain(400, "Invalid URL"@)),
    }
}

/// What the start of a request for a resource leaves of the segment cache.
pub open spec fn resource_start_leaves(s: &AppState, encoded: Seq<char>, now: u128) -> Map<
    Seq<char>,
    cache::TimedRecord<Seq<u8>>,
> {
    match m3u8::decoded_url(encoded) {
        Ok(url) => cache::timed_left(s.segment_cache@, url, s.segment_cache.ttl(), now),
        Err(_) => s.segment_cache@,
    }
}

/// Two states differ in the segment cache at most.
pub open spec fn same_but_segments(a: &AppState, b: &AppState) -> bool {
    a.same_setup(b) && a.stream_cache == b.stream_cache && a.m3u8_cache == b.m3u8_cache
        && a.channel_states == b.channel_states
}

/// Starts a request for a resource of a channel.
pub fn proxy_resource(
    state: &mut AppState,
    channel_id: &str,
    encoded: &str,
    kind: ResourceKind,
    now: Moment,
) -> (r: ResourceStep)
    ensures
        r@ == resource_start(old(state), channel_id@, encoded@, kind, now.mono),
        final(state).segment_cache@ == resource_start_leaves(old(state), encoded@, now.mono),
        same_but_segments(final(state), old(state)),
{
    let url = match decode_url(encoded) {
        Ok(u) => u,
        Err(_) => return ResourceStep::Done(plain_reply(400, "Invalid URL")),
    };
    match state.segment_cache.get_at(url.as_str(), now.mono) {
        Some(data) => ResourceStep::Done(make_kind_reply(kind, data)),
        None => {
            let mut headers: Vec<(String, String)> = Vec::new();
            assert(header_views(headers@) =~= seq![]);
            add_header(&mut headers, "Accept-Encoding", "identity");
            assert(header_views(headers@) =~= seq![("Accept-Encoding"@, "identity"@)]);
            let more = state.referer_headers(channel_id, url.as_str());
            add_headers(&mut headers, &more);
            ResourceStep::Fetch(TimedRequest { url, headers, timeout_ms: state.proxy_timeout_ms })
        },
    }
}

/// Starts a request for a segment of a channel.
pub fn proxy_segment(state: &mut AppState, channel_id: &str, encoded: &str, now: Moment) -> (r:
    ResourceStep)
    ensures
        r@ == resource_start(
            old(state),
            channel_id@,
            encoded@,
            ResourceKind::Segment,
            now.mono,
        ),
        final(state).segment_cache@ == resource_start_leaves(old(state), encoded@, now.mono),
        same_but_segments(final(state), old(state)),
{
    proxy_resource(state, channel_id, encoded, ResourceKind::Segment, now)
}

/// Starts a request for a key of a channel.
pub fn proxy_key(state: &mut AppState, channel_id: &str, encoded: &str, now: Moment) -> (r:
    ResourceStep)
    ensures
        r@ == resource_start(old(state), channel_id@, encoded@, ResourceKind::Key, now.mono),
        final(state).segment_cache@ == resource_start_leaves(old(state), encoded@, now.mono),
        same_but_segments(final(state), old(state)),
{
    proxy_resource(state, channel_id, encoded, ResourceKind::Key, now)
}

/// The reply where a resource was waited for in vain.
pub fn resource_timed_out() -> (r: Reply)
    ensures
        r@ == reply::plain(502, "Upstream timeout"@),
{
    plain_reply(502, "Upstream timeout")
}

/// Goes on after the status of a reply came: one that refuses for want of authorisation makes the
/// proxy forget the stream, and gives the reply. With any other the body is read.
pub fn resource_status(state: &mut AppState, channel_id: &str, status: u16) -> (r: Option<Reply>)
    ensures
        match r {
            Some(reply) => (status == 401 || status == 403) && reply@ == reply::plain(
                403,
                "Token expired"@,
            ),
            None => status != 401 && status != 403,
        },
        final(state).channel_states@ == if status == 401 || status == 403 {
            without_stream(old(state).channel_states@, channel_id@)
        } else {
            old(state).channel_states@
        },
        same_but_streams(final(state), old(state)),
        final(state).stream_cache == old(state).stream_cache,
{
    proof {
        reveal_strlit("");
    }
    if is_auth_error(status, "") {
        forget_stream(state, channel_id);
        Some(plain_reply(403, "Token expired"))
    } else {
        None
    }
}

/// Ends a request for the resource at `url` with its body, which is cached; nothing where it could
/// not be read.
pub fn resource_fetched(
    state: &mut AppState,
    url: &str,
    kind: ResourceKind,
    body: Option<Vec<u8>>,
    now: Moment,
) -> (r: Reply)
    ensures
        match body {
            Some(data) => {
                &&& r@ == kind_reply(kind, data@)
                &&& cache::timed_set(
                    old(state).segment_cache@,
                    final(state).segment_cache@,
                    url@,
                    data@,
                    old(state).segment_cache.limit(),
                    1,
                    old(state).segment_cache.ttl(),
                    now.mono,
                )
            },
            None => {
                &&& r@ == reply::plain(502, "Read error"@)
                &&& final(state).segment_cache@ == old(state).segment_cache@
            },
        },
        same_but_segments(final(state), old(state)),
{
    match body {
        Some(data) => {
            let copy = data.clone();
            assert(copy@ =~= data@);
            state.segment_cache.set_at(url.to_owned(), copy, now.mono);
            make_kind_reply(kind, data)
        },
        None => plain_reply(502, "Read error"),
    }
}

// ─── Lists and administration ────────────────────────────────────────────────

/// The entries of provincial channels, one after another.
pub open spec fn channel_entries(list: Seq<db::ChannelRecord>, host: Seq<char>) -> Seq<char>
    decreases list.len(),
{
    if list.len() == 0 {
        seq![]
    } else {
        channel_entries(list.drop_last(), host) + m3u8::entry(
            list.last().id,
            list.last().name,
            db::text_or(list.last().group_name, "其他"@),
            host,
        )
    }
}

/// Puts the entries of the provincial channels behind a text.
pub fn append_channel_entries(out: &mut String, list: &Vec<Channel>, host: &str)
    ensures
        final(out)@ == old(out)@ + channel_entries(db::channel_records(list@), host@),
{
    let ghost records = db::channel_records(list@);
    let mut i: usize = 0;
    assert(records.take(0) =~= seq![]);
    assert(out@ =~= old(out)@ + channel_entries(records.take(0), host@));
    while i < list.len()
        invariant
            i <= list@.len(),
            records == db::channel_records(list@),
            out@ == old(out)@ + channel_entries(records.take(i as int), host@),
        decreases list.len() - i,
    {
        let c = &list[i];
        let group = db::string_or(&c.group_name, "其他");
        let one = m3u_entry(c.id.as_str(), c.name.as_str(), group.as_str(), host);
        proof {
            assert(records.take(i + 1).drop_last() =~= records.take(i as int));
            assert(records.take(i + 1).last() == c@);
        }
        out.append(one.as_str());
        assert(out@ =~= old(out)@ + channel_entries(records.take(i + 1), host@));
        i = i + 1;
    }
    assert(records.take(records.len() as int) =~= records);
}

/// The list of the provincial channels.
pub fn live_m3u(state: &AppState, host: &str) -> (r: Reply)
    ensures
        r@ == (ReplyView {
            status: 200,
            headers: cctv::list_headers(),
            body: BodyView::Text("#EXTM3U\n"@ + channel_entries(state.provincial(), host@)),
        }),
{
    let mut out = "#EXTM3U\n".to_owned();
    append_channel_entries(&mut out, &state.channels, host);
    Reply { status: 200, headers: make_list_headers(), body: Body::Text(out) }
}

/// The counts of the stream cache.
pub fn admin_cache(state: &AppState) -> (r: CacheStats)
    ensures
        r.total_entries == state.stream_cache@.dom().len(),
        exists|now: i128|
            crate::store::is_wall_reading(now) && r.valid_entries == (#[trigger] cache::only_valid(
                state.stream_cache@,
                now,
            )).dom().len(),
        exists|keys: Seq<Seq<char>>| #[trigger]
            crate::store::lists_keys(state.stream_cache@, keys) && r.total_hits
                == cache::total_hits(state.stream_cache@, keys),
{
    state.stream_cache.stats()
}

/// The reply to a request for a poll pass.
pub fn admin_refresh() -> (r: Reply)
    ensures
        r@ == reply::plain(200, "Polling triggered"@),
{
    plain_reply(200, "Polling triggered")
}

/// The number of channels of a list whose addresses are signed.
pub open spec fn signed_count(list: Seq<db::ChannelRecord>) -> nat
    decreases list.len(),
{
    if list.len() == 0 {
        0
    } else {
        signed_count(list.drop_last()) + if state::is_signed(list.last().id) {
            1nat
        } else {
            0
        }
    }
}

/// The number of channels of a list whose addresses are signed; every other one needs the browser.
pub fn count_signed(list: &Vec<Channel>) -> (r: usize)
    ensures
        r == signed_count(db::channel_records(list@)),
        r <= list@.len(),
{
    let ghost records = db::channel_records(list@);
    let mut n: usize = 0;
    let mut i: usize = 0;
    assert(records.take(0) =~= seq![]);
    while i < list.len()
        invariant
            n <= i <= list@.len(),
            records == db::channel_records(list@),
            n == signed_count(records.take(i as int)),
        decreases list.len() - i,
    {
        proof {
            assert(records.take(i + 1).drop_last() =~= records.take(i as int));
            assert(records.take(i + 1).last() == list@[i as int]@);
        }
        if state::is_signed_id(list[i].id.as_str()) {
            n = n + 1;
        }
        i = i + 1;
    }
    assert(records.take(records.len() as int) =~= records);
    n
}

// ─── Polling ─────────────────────────────────────────────────────────────────

/// What polling a channel does next.
#[derive(Debug, Clone)]
pub enum PollStep {
    /// Go on with the next channel.
    Next,
    /// Ask whether a cached address is still alive.
    Probe(TimedRequest),
    /// Find a stream of the channel, whose page is at the address.
    Find(String),
}

/// What a [`PollStep`] holds.
pub enum PollView {
    Next,
    Probe(RequestView),
    Find(Seq<char>),
}

impl View for PollStep {
    type V = PollView;

    open spec fn view(&self) -> PollView {
        match *self {
            PollStep::Next => PollView::Next,
            PollStep::Probe(r) => PollView::Probe(r@),
            PollStep::Find(u) => PollView::Find(u@),
        }
    }
}

/// The milliseconds between two channels of a poll pass.
pub const POLL_PAUSE_MS: u64 = 300;

/// A channel is polled: it is there, its rule does not exempt it, and its address is not signed.
pub open spec fn is_polled(s: &AppState, id: Seq<char>) -> bool {
    &&& state::first_with(s.provincial(), state::channel_id(), id) is Some
    &&& state::rule_of(s.rules(), id) matches Some(r) ==> r.is_polled
    &&& !state::is_signed(id)
}

/// How polling a channel starts.
pub open spec fn poll_start(s: &AppState, id: Seq<char>, now: Moment) -> PollView {
    if is_polled(s, id) {
        let page = state::first_with(s.provincial(), state::channel_id(), id)->0.url;
        match cache::found_at(s.stream_cache@, cache::stream_key(id, page), now.wall) {
            Some(url) => PollView::Probe(probe(s, id, url, 5_000)),
            None => PollView::Find(page),
        }
    } else {
        PollView::Next
    }
}

/// Starts polling a channel.
pub fn run_poller(state: &mut AppState, channel_id: &str, now: Moment) -> (r: PollStep)
    ensures
        r@ == poll_start(old(state), channel_id@, now),
        final(state).stream_cache@ == if is_polled(old(state), channel_id@) {
            cache::left_at(
                old(state).stream_cache@,
                cache::stream_key(
                    channel_id@,
                    state::first_with(
                        old(state).provincial(),
                        state::channel_id(),
                        channel_id@,
                    )->0.url,
                ),
                now.wall,
            )
        } else {
            old(state).stream_cache@
        },
        same_but_streams(final(state), old(state)),
        final(state).channel_states == old(state).channel_states,
{
    let page = match state.find_channel(channel_id) {
        Some(c) => c.url.clone(),
        None => return PollStep::Next,
    };
    if let Some(rule) = state.site_rule_for(channel_id) {
        if !rule.is_polled {
            return PollStep::Next;
        }
    }
    if state.is_signed_channel(channel_id) {
        return PollStep::Next;
    }
    match state.stream_cache.get_at(channel_id, page.as_str(), now.wall) {
        Some(url) => PollStep::Probe(make_probe(state, channel_id, url.as_str(), 5_000)),
        None => PollStep::Find(page),
    }
}

/// Goes on polling a channel after its cached address was probed: one that is alive is cached anew;
/// any other is forgotten, and a stream is looked for.
pub fn poll_probed(
    state: &mut AppState,
    channel_id: &str,
    page_url: &str,
    cached_url: &str,
    status: Option<u16>,
    now: Moment,
) -> (r: PollStep)
    ensures
        r@ == (if is_alive(status) {
            PollView::Next
        } else {
            PollView::Find(page_url@)
        }),
        final(state).stream_cache@ == if is_alive(status) {
            cache::set_at_leaves(
                old(state).stream_cache@,
                channel_id@,
                page_url@,
                cached_url@,
                "poller_refresh"@,
                old(state).stream_cache.ttl(),
                now.wall,
            )
        } else {
            cache::without_key(
                old(state).stream_cache@,
                cache::stream_key(channel_id@, page_url@),
            )
        },
        final(state).channel_states@ == if is_alive(status) {
            old(state).channel_states@
        } else {
            without_stream(old(state).channel_states@, channel_id@)
        },
        same_but_streams(final(state), old(state)),
{
    if answers(status) {
        state.stream_cache.set_at(channel_id, page_url, cached_url, "poller_refresh", now.wall);
        PollStep::Next
    } else {
        state.stream_cache.invalidate(channel_id, page_url);
        forget_stream(state, channel_id);
        PollStep::Find(page_url.to_owned())
    }
}

/// Ends a poll pass: entries that are no longer valid go.
pub fn poll_finished(state: &mut AppState, now: Moment)
    ensures
        final(state).stream_cache@ == cache::only_valid(old(state).stream_cache@, now.wall),
        same_but_streams(final(state), old(state)),
        final(state).channel_states == old(state).channel_states,
{
    state.stream_cache.cleanup_expired_at(now.wall);
}

// ─── Laws ────────────────────────────────────────────────────────────────────

/// A stream that was found for a channel is the result of every later search, until it is
/// forgotten: nothing is signed, probed or browsed for it. Signed channels, which are signed anew
/// each time, are left out.
pub proof fn law_known_stream_is_the_result(
    before: Map<Seq<char>, ChannelFacts>,
    s: &AppState,
    id: Seq<char>,
    page: Seq<char>,
    url: Seq<char>,
    at: u128,
    signer_loaded: bool,
    now: Moment,
)
    requires
        s.channel_states@ == with_stream(before, id, url, at),
        !state::is_signed(id),
    ensures
        ensure_start(s, id, page, signer_loaded, now) == EnsureView::Done(Some(url)),
        !ensure_looks_up(s, id),
{
}

/// After a playlist has failed, its stream is known to neither the channel nor the stream cache:
/// the next search of a channel that no other request is fetching needs the browser.
pub proof fn law_failed_stream_is_not_used_again(
    facts: Map<Seq<char>, ChannelFacts>,
    streams: Map<Seq<char>, cache::StreamRecord>,
    s: &AppState,
    id: Seq<char>,
    page: Seq<char>,
    signer_loaded: bool,
    now: Moment,
)
    requires
        s.channel_states@ == without_stream(facts, id),
        s.stream_cache@ == cache::without_key(streams, cache::stream_key(id, page)),
        !state::is_signed(id),
        !state::facts_of(facts, id).fetching,
    ensures
        ensure_start(s, id, page, signer_loaded, now) == EnsureView::Queue,
{
}

/// Once the browser was used for a channel, the channel is not being fetched any more, whether a
/// stream was found or not.
pub proof fn law_browsing_ends_the_fetch(
    m: Map<Seq<char>, ChannelFacts>,
    id: Seq<char>,
    url: Seq<char>,
    at: u128,
)
    ensures
        !state::facts_of(with_fetching(m, id, false), id).fetching,
        !state::facts_of(with_stream(with_fetching(m, id, false), id, url, at), id).fetching,
{
}

/// What is noted of one channel changes nothing for another.
pub proof fn law_channels_are_independent(
    m: Map<Seq<char>, ChannelFacts>,
    id: Seq<char>,
    other: Seq<char>,
    url: Seq<char>,
    at: u128,
    fetching: bool,
)
    requires
        id != other,
    ensures
        state::facts_of(with_stream(m, id, url, at), other) == state::facts_of(m, other),
        state::facts_of(without_stream(m, id), other) == state::facts_of(m, other),
        state::facts_of(with_fetching(m, id, fetching), other) == state::facts_of(m, other),
        state::facts_of(state::opened(m, id), other) == state::facts_of(m, other),
{
}

/// A playlist is asked for twice at most: an attempt that fails is followed by another one only
/// where none has failed before.
pub proof fn law_second_failure_ends_the_request()
    ensures
        after_failure(false) is Ensure,
        after_failure(true) == PlaylistStepView::Done(unavailable()),
{
}

/// A playlist is not sent again to a request that names its tag; every other request gets it whole,
/// with its tag.
pub proof fn law_known_playlist_is_not_sent_again(content: Seq<char>, known: Option<Seq<char>>)
    ensures
        known == Some(etag(content)) ==> tagged_reply(content, etag(content), known).status == 304
            && tagged_reply(content, etag(content), known).body is Empty,
        known != Some(etag(content)) ==> tagged_reply(content, etag(content), known).status == 200
            && tagged_reply(content, etag(content), known).body == BodyView::Text(content)
            && tagged_reply(content, etag(content), known).headers.last() == ("ETag"@, etag(content)),
{
}

/// A playlist that was served is served again from the cache, to every request for the same stream
/// of the channel, until its time has run out.
pub proof fn law_served_playlist_is_served_from_the_cache(
    before: Map<Seq<char>, cache::TimedRecord<Seq<char>>>,
    after: Map<Seq<char>, cache::TimedRecord<Seq<char>>>,
    id: Seq<char>,
    url: Seq<char>,
    content: Seq<char>,
    limit: usize,
    ttl_ms: u64,
    set_at: u128,
    now: u128,
)
    requires
        cache::timed_set(before, after, playlist_key(id, url), content, limit, 10, ttl_ms, set_at),
        !cache::outlived(set_at, ttl_ms, now),
    ensures
        cache::timed_found(after, playlist_key(id, url), ttl_ms, now) == Some(content),
{
    cache::law_timed_get_finds_what_was_set(
        before,
        after,
        playlist_key(id, url),
        content,
        limit,
        10,
        ttl_ms,
        set_at,
        now,
    );
}

/// An address that a rewritten playlist gives for a resource is asked back for that resource: the
/// request that it leads to is for the URL that the playlist named, unless the cache holds it.
pub proof fn law_routed_resource_is_requested(
    s: &AppState,
    playlist: Seq<char>,
    url: Seq<char>,
    origin: foreign::Origin,
    i: int,
    id: Seq<char>,
    kind: ResourceKind,
    now: u128,
)
    requires
        foreign::url_origin(url) == Some(origin),
        m3u8::leads_back(playlist, url),
        0 <= i < text::lines(playlist).len(),
        m3u8::line_resource(text::lines(playlist)[i], origin, url) is Some,
    ensures
        ({
            let target = m3u8::line_resource(text::lines(playlist)[i], origin, url)->0;
            let encoded = foreign::base64url(encode_utf8(target));
            resource_start(s, id, encoded, kind, now) == match cache::timed_found(
                s.segment_cache@,
                target,
                s.segment_cache.ttl(),
                now,
            ) {
                Some(data) => ResourceStepView::Done(kind_reply(kind, data)),
                None => ResourceStepView::Fetch(resource_request(s, id, target)),
            }
        }),
{
    assert(m3u8::line_leads_back(text::lines(playlist)[i], origin, url));
}

/// A segment or key that was fetched is served again from the cache, without another request to
/// its source, until its time has run out.
pub proof fn law_fetched_resource_is_served_from_the_cache(
    before: Map<Seq<char>, cache::TimedRecord<Seq<u8>>>,
    s: &AppState,
    id: Seq<char>,
    encoded: Seq<char>,
    url: Seq<char>,
    kind: ResourceKind,
    data: Seq<u8>,
    set_at: u128,
    now: u128,
)
    requires
        m3u8::decoded_url(encoded) == Ok::<Seq<char>, m3u8::DecodeUrlError>(url),
        cache::timed_set(
            before,
            s.segment_cache@,
            url,
            data,
            s.segment_cache.limit(),
            1,
            s.segment_cache.ttl(),
            set_at,
        ),
        !cache::outlived(set_at, s.segment_cache.ttl(), now),
    ensures
        resource_start(s, id, encoded, kind, now) == ResourceStepView::Done(
            kind_reply(kind, data),
        ),
{
    cache::law_timed_get_finds_what_was_set(
        before,
        s.segment_cache@,
        url,
        data,
        s.segment_cache.limit(),
        1,
        s.segment_cache.ttl(),
        set_at,
        now,
    );
}

/// Signed channels, and those whose rule exempts them, are never polled.
pub proof fn law_exempt_channels_are_not_polled(s: &AppState, id: Seq<char>, now: Moment)
    requires
        state::is_signed(id) || (state::rule_of(s.rules(), id) matches Some(r) && !r.is_polled),
    ensures
        poll_start(s, id, now) is Next,
{
}

/// At most all channels of a list are signed, and all of them exactly where none needs the browser.
pub proof fn law_signed_count_is_bounded(list: Seq<db::ChannelRecord>)
    ensures
        signed_count(list) <= list.len(),
        signed_count(list) == list.len() <==> forall|i: int|
            0 <= i < list.len() ==> state::is_signed(#[trigger] list[i].id),
    decreases list.len(),
{
    if list.len() > 0 {
        let rest = list.drop_last();
        law_signed_count_is_bounded(rest);
        assert(forall|i: int| 0 <= i < rest.len() ==> rest[i] == list[i]);
        if signed_count(list) == list.len() {
            assert forall|i: int| 0 <= i < list.len() implies state::is_signed(
                #[trigger] list[i].id,
            ) by {
                if i < rest.len() {
                    assert(state::is_signed(rest[i].id));
                }
            }
        }
        if forall|i: int| 0 <= i < list.len() ==> state::is_signed(#[trigger] list[i].id) {
            assert forall|i: int| 0 <= i < rest.len() implies state::is_signed(
                #[trigger] rest[i].id,
            ) by {
                assert(rest[i] == list[i]);
            }
            assert(state::is_signed(list[list.len() - 1].id));
        }
    }
}

/// A reply with a status of the two hundreds whose text, in lower case, holds none of the seven
/// words is a playlist to serve, rewritten for the address that was asked, whatever else it holds.
/// One with the status 401 or 403, or with one of the words, is refused; any other is a failure with
/// its status; and where none came, that is the failure.
pub proof fn law_playlists_are_served_unless_refused(
    status: u16,
    content: Seq<char>,
    url: Seq<char>,
    host: Seq<char>,
    id: Seq<char>,
)
    ensures
        ({
            let lower = foreign::lowercase(content);
            let worded = text::contains(lower, "txsecret"@) || text::contains(lower, "txtime"@)
                || text::contains(lower, "auth_key"@) || text::contains(lower, "auth failed"@)
                || text::contains(lower, "auth expired"@) || text::contains(lower, "signature"@)
                || text::contains(lower, "unauthorized"@);
            let outcome = fetch_outcome(Some((status, content)), url, host, id);
            &&& !worded && status / 100 == 2 ==> outcome == Ok::<Seq<char>, FetchError>(
                m3u8::rewritten(content, url, host, id),
            )
            &&& worded || status == 401 || status == 403 ==> outcome == Err::<Seq<char>, FetchError>(
                FetchError::Auth(status),
            )
            &&& !worded && status / 100 != 2 && status != 401 && status != 403 ==> outcome == Err::<
                Seq<char>,
                FetchError,
            >(FetchError::Http(status))
        }),
        fetch_outcome(None, url, host, id) == Err::<Seq<char>, FetchError>(FetchError::Transport),
{
    let lower = foreign::lowercase(content);
    m3u8::law_refusals_are_told_by_seven_words(status, lower);
}

/// A stream is taken as alive exactly where it answered with a status of the two hundreds.
pub proof fn law_streams_that_answer_are_alive(status: u16)
    ensures
        is_alive(Some(status)) <==> status / 100 == 2,
        !is_alive(None),
{
}

/// What is noted of a channel is what was found: its stream, and when; forgetting the stream, or
/// noting that the channel is being fetched, changes nothing else of it.
pub proof fn law_notes_say_what_was_found(
    m: Map<Seq<char>, ChannelFacts>,
    id: Seq<char>,
    url: Seq<char>,
    at: u128,
    fetching: bool,
)
    ensures
        ({
            let f = state::facts_of(m, id);
            let found = state::facts_of(with_stream(m, id, url, at), id);
            let forgotten = state::facts_of(without_stream(m, id), id);
            let marked = state::facts_of(with_fetching(m, id, fetching), id);
            &&& found.stream_url == Some(url) && found.stream_url_fetched_at == Some(at)
            &&& found.fetching == f.fetching && found.viewer_count == f.viewer_count
            &&& forgotten.stream_url is None && forgotten.stream_url_fetched_at
                == f.stream_url_fetched_at
            &&& forgotten.fetching == f.fetching && forgotten.viewer_count == f.viewer_count
            &&& marked.fetching == fetching && marked.stream_url == f.stream_url
            &&& marked.stream_url_fetched_at == f.stream_url_fetched_at && marked.viewer_count
                == f.viewer_count
        }),
{
}

/// A channel that is not signed, has no stream, and is being fetched by no other request is looked up
/// in the stream cache: the address that is set there for it and its page, and is still valid, is
/// probed, for eight seconds at most; without one the browser is needed. While another request
/// fetches the channel, that is waited for.
pub proof fn law_cached_streams_are_probed(
    s: &AppState,
    id: Seq<char>,
    page: Seq<char>,
    signer_loaded: bool,
    now: Moment,
)
    requires
        !state::is_signed(id),
        state::facts_of(s.channel_states@, id).stream_url is None,
    ensures
        ({
            let step = ensure_start(s, id, page, signer_loaded, now);
            let fetching = state::facts_of(s.channel_states@, id).fetching;
            let cached = cache::found_at(
                s.stream_cache@,
                cache::stream_key(id, page),
                now.wall,
            );
            &&& fetching ==> step == EnsureView::Wait(300) && !ensure_looks_up(s, id)
            &&& !fetching ==> ensure_looks_up(s, id)
            &&& !fetching && cached is None ==> step is Queue
            &&& !fetching && cached is Some ==> step is Probe && (step->Probe_0).url == cached->0 && (
            step->Probe_0).timeout_ms == 8_000
        }),
{
}

/// A signed channel is signed by the native library wherever that is loaded, whatever is known or
/// cached of it, and has no stream where it is not.
pub proof fn law_signed_channels_are_signed_anew(
    s: &AppState,
    id: Seq<char>,
    page: Seq<char>,
    now: Moment,
)
    requires
        state::is_signed(id),
    ensures
        ensure_start(s, id, page, true, now) is Sign,
        ensure_start(s, id, page, false, now) == EnsureView::Done(None),
        !ensure_looks_up(s, id),
{
}

/// The request that asks whether a stream is alive, that for its playlist and that for a resource
/// name the address that is asked for, and all end with the headers of the channel's requests for
/// that address; the one for a playlist asks for no cached one, before these.
pub proof fn law_requests_go_to_their_address(
    s: &AppState,
    id: Seq<char>,
    url: Seq<char>,
    timeout_ms: u64,
)
    ensures
        ({
            let common = state::request_headers(
                state::rule_of(s.rules(), id),
                foreign::url_origin(url),
                s.user_agent@,
                id,
            );
            &&& probe(s, id, url, timeout_ms).url == url
            &&& probe(s, id, url, timeout_ms).timeout_ms == timeout_ms
            &&& probe(s, id, url, timeout_ms).headers == common
            &&& resource_request(s, id, url).url == url
            &&& resource_request(s, id, url).timeout_ms == s.proxy_timeout_ms
            &&& resource_request(s, id, url).headers[0] == ("Accept-Encoding"@, "identity"@)
            &&& resource_request(s, id, url).headers.skip(1) == common
            &&& playlist_headers(s, id, url)[0] == ("Cache-Control"@, "no-cache"@)
            &&& playlist_headers(s, id, url)[1] == ("Pragma"@, "no-cache"@)
            &&& playlist_headers(s, id, url).skip(2) == common
        }),
{
    let common = state::request_headers(
        state::rule_of(s.rules(), id),
        foreign::url_origin(url),
        s.user_agent@,
        id,
    );
    assert(resource_request(s, id, url).headers.skip(1) =~= common);
    assert(playlist_headers(s, id, url).skip(2) =~= common);
}

/// The page that is opened for a channel is the one that its rule names, or else its own; what is
/// looked for is what its rule names, or else a playlist; and the channel that is clicked on is the
/// one that the list of channels gives for it.
pub proof fn law_rules_say_what_is_browsed(s: &AppState, id: Seq<char>, page: Seq<char>)
    ensures
        ({
            let b = browse(s, id, page);
            let rule = state::rule_of(s.rules(), id);
            let channel = state::first_with(s.provincial(), state::channel_id(), id);
            &&& rule is None ==> b.page_url == page && b.m3u8_match == ".m3u8"@
            &&& rule is Some && (rule->0).target_url is None ==> b.page_url == page
            &&& rule is Some && (rule->0).target_url is Some ==> Some(b.page_url) == (
            rule->0).target_url
            &&& rule is Some && (rule->0).m3u8_match is None ==> b.m3u8_match == ".m3u8"@
            &&& rule is Some && (rule->0).m3u8_match is Some ==> Some(b.m3u8_match) == (
            rule->0).m3u8_match
            &&& channel is None ==> b.mgtv_sid is None
            &&& channel is Some ==> b.mgtv_sid == (channel->0).sid
            &&& b.user_agent == s.user_agent@
            &&& b.timeout_ms == s.fetch_timeout_ms
        }),
{
}

/// Playlists of different streams of a channel are cached apart, and so are those of one stream for
/// different channels.
pub proof fn law_playlist_keys_tell_streams_apart(
    id: Seq<char>,
    other_id: Seq<char>,
    url: Seq<char>,
    other_url: Seq<char>,
)
    ensures
        playlist_key(id, url) == playlist_key(id, other_url) ==> url == other_url,
        playlist_key(id, url) == playlist_key(other_id, url) ==> id == other_id,
{
    let a = id + ":"@ + url;
    let b = id + ":"@ + other_url;
    let c = other_id + ":"@ + url;
    assert(a.len() == id.len() + ":"@.len() + url.len());
    assert(b.len() == id.len() + ":"@.len() + other_url.len());
    assert(c.len() == other_id.len() + ":"@.len() + url.len());
    if playlist_key(id, url) == playlist_key(id, other_url) {
        let n = (id + ":"@).len() as int;
        assert forall|i: int| 0 <= i < url.len() implies url[i] == other_url[i] by {
            assert(a[n + i] == url[i] && b[n + i] == other_url[i]);
        }
        assert(url =~= other_url);
    }
    if playlist_key(id, url) == playlist_key(other_id, url) {
        assert forall|i: int| 0 <= i < id.len() implies id[i] == other_id[i] by {
            assert(a[i] == id[i] && c[i] == other_id[i]);
        }
        assert(id =~= other_id);
    }
}

/// A request whose address cannot be decoded is answered so; one whose resource is not cached is
/// fetched from the address that was decoded; and one whose resource is cached gets its bytes, as
/// they are, as a segment that may be kept for eight seconds or as a key that may not be kept.
pub proof fn law_resources_are_served_as_they_are(
    s: &AppState,
    id: Seq<char>,
    encoded: Seq<char>,
    url: Seq<char>,
    data: Seq<u8>,
    kind: ResourceKind,
    now: u128,
)
    ensures
        m3u8::decoded_url(encoded) is Err ==> resource_start(s, id, encoded, kind, now)
            == ResourceStepView::Done(
            ReplyView { status: 400, headers: seq![], body: BodyView::Text("Invalid URL"@) },
        ) && resource_start_leaves(s, encoded, now) == s.segment_cache@,
        m3u8::decoded_url(encoded) == Ok::<Seq<char>, m3u8::DecodeUrlError>(url)
            && !s.segment_cache@.dom().contains(url) ==> (resource_start(s, id, encoded, kind, now)
            matches ResourceStepView::Fetch(r) && r.url == url) && resource_start_leaves(
            s,
            encoded,
            now,
        ) == s.segment_cache@,
        m3u8::decoded_url(encoded) == Ok::<Seq<char>, m3u8::DecodeUrlError>(url)
            && cache::timed_found(s.segment_cache@, url, s.segment_cache.ttl(), now) == Some(data)
            ==> resource_start(s, id, encoded, kind, now) == ResourceStepView::Done(
            kind_reply(kind, data),
        ) && resource_start_leaves(s, encoded, now) == s.segment_cache@,
        kind_reply(kind, data).status == 200,
        kind_reply(kind, data).body == BodyView::Bytes(data),
        kind_reply(ResourceKind::Segment, data).headers == seq![
            ("content-type"@, "video/mp2t"@),
            ("access-control-allow-origin"@, "*"@),
            ("cache-control"@, "public, max-age=8"@),
        ],
        kind_reply(ResourceKind::Key, data).headers == seq![
            ("content-type"@, "application/octet-stream"@),
            ("access-control-allow-origin"@, "*"@),
            ("cache-control"@, "no-cache"@),
        ],
{
}

/// A channel that is listed, is not signed, and has no rule that exempts it is polled: an address that
/// is cached for it is probed, for five seconds at most, and without one a stream is looked for on its
/// page. A channel that is not listed is passed over.
pub proof fn law_listed_channels_are_polled(
    s: &AppState,
    id: Seq<char>,
    channel: db::ChannelRecord,
    now: Moment,
)
    ensures
        state::first_with(s.provincial(), state::channel_id(), id) is None ==> poll_start(s, id, now)
            is Next,
        state::first_with(s.provincial(), state::channel_id(), id) == Some(channel)
            && !state::is_signed(id) && (state::rule_of(s.rules(), id) is None || (state::rule_of(
            s.rules(),
            id,
        )->0).is_polled) ==> match cache::found_at(
            s.stream_cache@,
            cache::stream_key(id, channel.url),
            now.wall,
        ) {
            Some(url) => poll_start(s, id, now) is Probe && (poll_start(s, id, now)->Probe_0).url
                == url && (poll_start(s, id, now)->Probe_0).timeout_ms == 5_000,
            None => poll_start(s, id, now) == PollView::Find(channel.url),
        },
{
}

/// The entries of two lists of channels, one behind the other, are those of the one and then those of
/// the other, and the signed channels of both are counted; that of one channel is its entry, in its
/// group, or in the last one where it has none.
pub proof fn law_channel_entries_follow_the_list(
    a: Seq<db::ChannelRecord>,
    b: Seq<db::ChannelRecord>,
    c: db::ChannelRecord,
    host: Seq<char>,
)
    ensures
        channel_entries(a + b, host) == channel_entries(a, host) + channel_entries(b, host),
        signed_count(a + b) == signed_count(a) + signed_count(b),
        c.group_name matches Some(group) ==> channel_entries(seq![c], host) == m3u8::entry(
            c.id,
            c.name,
            group,
            host,
        ),
        c.group_name is None ==> channel_entries(seq![c], host) == m3u8::entry(
            c.id,
            c.name,
            "其他"@,
            host,
        ),
    decreases b.len(),
{
    if b.len() > 0 {
        law_channel_entries_follow_the_list(a, b.drop_last(), c, host);
        assert((a + b).drop_last() =~= a + b.drop_last());
        assert((a + b).last() == b.last());
        assert(channel_entries(a + b, host) =~= channel_entries(a, host) + channel_entries(b, host));
    } else {
        assert(a + b =~= a);
        assert(channel_entries(a, host) + channel_entries(b, host) =~= channel_entries(a, host));
    }
    reveal_with_fuel(channel_entries, 2);
    assert(seq![c].drop_last() =~= seq![]);
    let group = db::text_or(c.group_name, "其他"@);
    assert(channel_entries(seq![c], host) =~= m3u8::entry(c.id, c.name, group, host));
}

/// A playlist is sent whole, with the type and the keeping of a playlist, to a request that names no
/// tag or another; a request that names its tag gets neither headers nor a body. The tag is the digest
/// of all its bytes. Where no playlist can be had, the reply says so, to any page.
pub proof fn law_playlists_are_sent_whole(
    content: Seq<char>,
    tag: Seq<char>,
    known: Option<Seq<char>>,
)
    ensures
        known != Some(tag) ==> tagged_reply(content, tag, known) == (ReplyView {
            status: 200,
            headers: seq![
                ("content-type"@, "application/vnd.apple.mpegurl"@),
                ("access-control-allow-origin"@, "*"@),
                ("cache-control"@, "no-cache, no-store, must-revalidate"@),
                ("ETag"@, tag),
            ],
            body: BodyView::Text(content),
        }),
        etag(content) == foreign::md5_hex(encode_utf8(content)),
        known == Some(tag) ==> tagged_reply(content, tag, known) == (ReplyView {
            status: 304,
            headers: seq![],
            body: BodyView::Empty,
        }),
        after_failure(true) == PlaylistStepView::Done(
            ReplyView {
                status: 503,
                headers: seq![("access-control-allow-origin"@, "*"@)],
                body: BodyView::Text("Temporary unavailable"@),
            },
        ),
{
    assert(reply::resource_headers(
        "application/vnd.apple.mpegurl"@,
        "no-cache, no-store, must-revalidate"@,
    ).push(("ETag"@, tag)) =~= seq![
        ("content-type"@, "application/vnd.apple.mpegurl"@),
        ("access-control-allow-origin"@, "*"@),
        ("cache-control"@, "no-cache, no-store, must-revalidate"@),
        ("ETag"@, tag),
    ]);
}

} // verus!
