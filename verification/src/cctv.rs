//! The CCTV channels: their list, their playlists and their segments.
use crate::db;
use crate::db::CctvChannel;
use crate::foreign;
use crate::m3u8;
use crate::m3u8::{
    decode_url, fix_cctv_url, m3u_entry, rewrite_playlist, select_highest_bandwidth, DecodeUrlError,
};
use crate::native::TsDecryptor;
use crate::native;
use crate::reply;
use crate::reply::{make_resource_headers, plain_reply, resource_reply, Body, BodyView, Reply, ReplyView};
use crate::state;
use crate::state::{add_header, header_views, AppState};
use crate::text;
use crate::text::{chars_of, holds};
use vstd::prelude::*;

verus! {

/// The host that a request names, or another where it names none.
pub fn host_from_headers(host: Option<&str>, fallback: &str) -> (r: String)
    ensures
        r@ == (match host {
            Some(h) => h@,
            None => fallback@,
        }),
{
    match host {
        Some(h) => h.to_owned(),
        None => fallback.to_owned(),
    }
}

// ─── The channel list ────────────────────────────────────────────────────────

/// The channels stand in ascending order of their sort order.
pub open spec fn is_sorted(list: Seq<db::CctvRecord>) -> bool {
    forall|i: int, j: int|
        0 <= i < j < list.len() ==> (#[trigger] list[i]).sort_order <= (
        #[trigger] list[j]).sort_order
}

/// `order` holds the channels of `list`, in ascending order of their sort order.
pub open spec fn is_listing(order: Seq<db::CctvRecord>, list: Seq<db::CctvRecord>) -> bool {
    is_sorted(order) && order.to_multiset() == list.to_multiset()
}

/// The entries of CCTV channels, one after another.
pub open spec fn cctv_entries(list: Seq<db::CctvRecord>, host: Seq<char>) -> Seq<char>
    decreases list.len(),
{
    if list.len() == 0 {
        seq![]
    } else {
        cctv_entries(list.drop_last(), host) + m3u8::entry(
            list.last().id,
            list.last().name,
            "CCTV"@,
            host,
        )
    }
}

/// The records of some channels.
pub open spec fn ref_records(v: Seq<&CctvChannel>) -> Seq<db::CctvRecord> {
    v.map_values(|c: &CctvChannel| c@)
}

/// The channels of a list in ascending order of their sort order.
pub fn sorted_channels<'a>(list: &'a Vec<CctvChannel>) -> (r: Vec<&'a CctvChannel>)
    ensures
        is_listing(ref_records(r@), db::cctv_records(list@)),
{
    let ghost records = db::cctv_records(list@);
    let mut out: Vec<&'a CctvChannel> = Vec::new();
    let mut i: usize = 0;
    proof {
        assert(ref_records(out@) =~= seq![]);
        assert(records.take(0) =~= seq![]);
    }
    while i < list.len()
        invariant
            i <= list@.len(),
            records == db::cctv_records(list@),
            is_listing(ref_records(out@), records.take(i as int)),
        decreases list.len() - i,
    {
        let c: &'a CctvChannel = &list[i];
        let ghost before = ref_records(out@);
        let mut at: usize = 0;
        while at < out.len() && out[at].sort_order <= c.sort_order
            invariant
                at <= out@.len(),
                before == ref_records(out@),
                forall|j: int| 0 <= j < at ==> (#[trigger] before[j]).sort_order <= c.sort_order,
            decreases out.len() - at,
        {
            assert(before[at as int] == out@[at as int]@);
            at = at + 1;
        }
        out.insert(at, c);
        proof {
            broadcast use vstd::seq_lib::group_to_multiset_ensures;

            let after = before.insert(at as int, c@);
            assert(ref_records(out@) =~= after);
            assert(records.take(i + 1) =~= records.take(i as int).push(c@));
            assert(is_sorted(after)) by {
                assert forall|j: int, k: int| 0 <= j < k < after.len() implies (
                #[trigger] after[j]).sort_order <= (#[trigger] after[k]).sort_order by {
                    if at < before.len() {
                        assert(before[at as int].sort_order > c.sort_order);
                    }
                }
            }
            assert(after.to_multiset() =~= records.take(i + 1).to_multiset());
        }
        i = i + 1;
    }
    assert(records.take(records.len() as int) =~= records);
    out
}

/// Puts the entries of the CCTV channels behind a text.
pub fn append_cctv_entries(out: &mut String, list: &Vec<CctvChannel>, host: &str)
    ensures
        exists|order: Seq<db::CctvRecord>| #[trigger]
            is_listing(order, db::cctv_records(list@)) && final(out)@ == old(out)@ + cctv_entries(
                order,
                host@,
            ),
{
    let sorted = sorted_channels(list);
    let ghost order = ref_records(sorted@);
    let mut i: usize = 0;
    assert(order.take(0) =~= seq![]);
    assert(out@ =~= old(out)@ + cctv_entries(order.take(0), host@));
    while i < sorted.len()
        invariant
            i <= sorted@.len(),
            order == ref_records(sorted@),
            out@ == old(out)@ + cctv_entries(order.take(i as int), host@),
        decreases sorted.len() - i,
    {
        let c = sorted[i];
        let one = m3u_entry(c.id.as_str(), c.name.as_str(), "CCTV", host);
        proof {
            assert(order.take(i + 1).drop_last() =~= order.take(i as int));
            assert(order.take(i + 1).last() == c@);
        }
        out.append(one.as_str());
        assert(out@ =~= old(out)@ + cctv_entries(order.take(i + 1), host@));
        i = i + 1;
    }
    assert(order.take(order.len() as int) =~= order);
    assert(is_listing(order, db::cctv_records(list@)));
}

/// The headers of a channel list.
pub open spec fn list_headers() -> Seq<(Seq<char>, Seq<char>)> {
    seq![
        ("content-type"@, "audio/x-mpegurl; charset=utf-8"@),
        ("access-control-allow-origin"@, "*"@),
    ]
}

/// The headers of a channel list.
pub fn make_list_headers() -> (r: Vec<(String, String)>)
    ensures
        header_views(r@) == list_headers(),
{
    let mut headers: Vec<(String, String)> = Vec::new();
    assert(header_views(headers@) =~= seq![]);
    add_header(&mut headers, "content-type", "audio/x-mpegurl; charset=utf-8");
    add_header(&mut headers, "access-control-allow-origin", "*");
    assert(header_views(headers@) =~= list_headers());
    headers
}

/// The list of the CCTV channels.
pub fn live_m3u(state: &AppState, host: &str) -> (r: Reply)
    ensures
        exists|order: Seq<db::CctvRecord>| #[trigger]
            is_listing(order, state.cctv()) && r@ == (ReplyView {
                status: 200,
                headers: list_headers(),
                body: BodyView::Text("#EXTM3U\n"@ + cctv_entries(order, host@)),
            }),
{
    let mut out = "#EXTM3U\n".to_owned();
    append_cctv_entries(&mut out, &state.cctv_channels, host);
    let r = Reply { status: 200, headers: make_list_headers(), body: Body::Text(out) };
    proof {
        let order = choose|order: Seq<db::CctvRecord>| #[trigger]
            is_listing(order, state.cctv()) && out@ == "#EXTM3U\n"@ + cctv_entries(order, host@);
        assert(is_listing(order, state.cctv()) && r@.body == BodyView::Text(
            "#EXTM3U\n"@ + cctv_entries(order, host@),
        ));
    }
    r
}

// ─── Playlists ───────────────────────────────────────────────────────────────

/// A playlist that lists variants and no segments.
pub open spec fn is_master(playlist: Seq<char>) -> bool {
    text::contains(playlist, "#EXT-X-STREAM-INF"@) && !text::contains(playlist, "#EXTINF"@)
}

/// A playlist that lists segments.
pub open spec fn lists_segments(playlist: Seq<char>) -> bool {
    text::contains(playlist, "#EXTINF"@) || text::contains(playlist, ".ts"@)
}

/// Whether a playlist lists variants and no segments.
pub fn is_master_playlist(playlist: &str) -> (r: bool)
    ensures
        r == is_master(playlist@),
{
    let t = chars_of(playlist);
    holds(t.as_slice(), "#EXT-X-STREAM-INF") && !holds(t.as_slice(), "#EXTINF")
}

/// Whether a playlist lists segments.
pub fn has_segments(playlist: &str) -> (r: bool)
    ensures
        r == lists_segments(playlist@),
{
    let t = chars_of(playlist);
    holds(t.as_slice(), "#EXTINF") || holds(t.as_slice(), ".ts")
}

/// The addresses at which the playlist of a channel is looked for, in order.
pub open spec fn candidates(c: db::CctvRecord) -> Seq<Seq<char>> {
    match c.fallback_url {
        Some(f) => seq![m3u8::fixed_cctv_url(c.m3u8_url), m3u8::fixed_cctv_url(f)],
        None => seq![m3u8::fixed_cctv_url(c.m3u8_url)],
    }
}

/// The search for the playlist of a channel.
#[derive(Debug, Clone)]
pub struct PlaylistSearch {
    pub channel_id: String,
    pub host: String,
    pub candidates: Vec<String>,
    /// The candidate that is being looked at.
    pub at: usize,
    /// The variant of that candidate that was asked for, if it listed variants.
    pub variant: Option<String>,
}

/// What a [`PlaylistSearch`] holds, as mathematical values.
pub struct SearchView {
    pub channel_id: Seq<char>,
    pub host: Seq<char>,
    pub candidates: Seq<Seq<char>>,
    pub at: int,
    pub variant: Option<Seq<char>>,
}

impl View for PlaylistSearch {
    type V = SearchView;

    open spec fn view(&self) -> SearchView {
        SearchView {
            channel_id: self.channel_id@,
            host: self.host@,
            candidates: foreign::string_views(self.candidates@),
            at: self.at as int,
            variant: foreign::opt_view(self.variant),
        }
    }
}

/// What a search does next.
#[derive(Debug, Clone)]
pub enum SearchStep {
    /// Fetch the text at an address.
    Fetch(String),
    /// Reply.
    Done(Reply),
}

/// What a [`SearchStep`] holds.
pub enum SearchStepView {
    Fetch(Seq<char>),
    Done(ReplyView),
}

impl View for SearchStep {
    type V = SearchStepView;

    open spec fn view(&self) -> SearchStepView {
        match *self {
            SearchStep::Fetch(u) => SearchStepView::Fetch(u@),
            SearchStep::Done(r) => SearchStepView::Done(r@),
        }
    }
}

/// The reply with a playlist that was found.
pub open spec fn playlist_reply(
    playlist: Seq<char>,
    url: Seq<char>,
    host: Seq<char>,
    id: Seq<char>,
) -> ReplyView {
    ReplyView {
        status: 200,
        headers: reply::resource_headers("application/x-mpegURL"@, "no-cache"@),
        body: BodyView::Text(m3u8::rewritten(playlist, url, host, id)),
    }
}

/// The search has a candidate to look at.
pub open spec fn is_searching(s: SearchView) -> bool {
    0 <= s.at < s.candidates.len()
}

/// The search goes on with the next candidate, or ends where there is none.
pub open spec fn next_candidate(s: SearchView) -> (SearchView, SearchStepView) {
    let next = SearchView { at: s.at + 1, variant: None, ..s };
    if s.at + 1 < s.candidates.len() {
        (next, SearchStepView::Fetch(s.candidates[s.at + 1]))
    } else {
        (next, SearchStepView::Done(reply::plain(502, "Upstream error"@)))
    }
}

/// The search ends with a playlist that lists segments, and goes on without one.
pub open spec fn weigh(s: SearchView, url: Seq<char>, playlist: Seq<char>) -> (
    SearchView,
    SearchStepView,
) {
    if lists_segments(playlist) {
        (s, SearchStepView::Done(playlist_reply(playlist, url, s.host, s.channel_id)))
    } else {
        next_candidate(s)
    }
}

/// How a search goes on with what was fetched. One without a candidate is at its end.
pub open spec fn search_step(s: SearchView, fetched: Option<Seq<char>>) -> (
    SearchView,
    SearchStepView,
) {
    if !is_searching(s) {
        (s, SearchStepView::Done(reply::plain(502, "Upstream error"@)))
    } else {
        search_on(s, fetched)
    }
}

/// How a search with a candidate goes on with what was fetched.
pub open spec fn search_on(s: SearchView, fetched: Option<Seq<char>>) -> (
    SearchView,
    SearchStepView,
) {
    match fetched {
        Some(playlist) => match s.variant {
            Some(url) => weigh(s, url, playlist),
            None => if is_master(playlist) {
                match m3u8::selected(playlist, s.candidates[s.at]) {
                    Some(url) => (
                        SearchView { variant: Some(url), ..s },
                        SearchStepView::Fetch(url),
                    ),
                    None => next_candidate(s),
                }
            } else {
                weigh(s, s.candidates[s.at], playlist)
            },
        },
        None => next_candidate(s),
    }
}

/// The search with which a request for the playlist of a channel starts.
pub open spec fn search_start(c: db::CctvRecord, id: Seq<char>, host: Seq<char>) -> SearchView {
    SearchView { channel_id: id, host, candidates: candidates(c), at: 0, variant: None }
}

/// Starts a request for the playlist of a channel: the search and the address to fetch first, or
/// the reply where there is no such channel.
pub fn proxy_playlist(state: &AppState, channel_id: &str, host: &str) -> (r: Result<
    (PlaylistSearch, String),
    Reply,
>)
    ensures
        match state::first_with(state.cctv(), state::cctv_id(), channel_id@) {
            Some(c) => r is Ok && r->Ok_0.0@ == search_start(c, channel_id@, host@) && r->Ok_0.1@
                == m3u8::fixed_cctv_url(c.m3u8_url),
            None => r is Err && r->Err_0@ == reply::plain(404, "Not Found"@),
        },
{
    match state.find_cctv(channel_id) {
        Some(c) => {
            let first = fix_cctv_url(c.m3u8_url.as_str());
            let mut list: Vec<String> = Vec::new();
            list.push(first.clone());
            if let Some(f) = &c.fallback_url {
                list.push(fix_cctv_url(f.as_str()));
            }
            assert(foreign::string_views(list@) =~= candidates(c@));
            let search = PlaylistSearch {
                channel_id: channel_id.to_owned(),
                host: host.to_owned(),
                candidates: list,
                at: 0,
                variant: None,
            };
            Ok((search, first))
        },
        None => Err(plain_reply(404, "Not Found")),
    }
}

impl PlaylistSearch {
    /// Goes on with the next candidate.
    fn advance(&mut self) -> (r: SearchStep)
        requires
            is_searching(old(self)@),
        ensures
            (final(self)@, r@) == next_candidate(old(self)@),
    {
        let n: usize = self.candidates.len();
        self.at = self.at + 1;
        self.variant = None;
        if self.at < n {
            assert(foreign::string_views(self.candidates@)[self.at as int]
                == self.candidates@[self.at as int]@);
            SearchStep::Fetch(self.candidates[self.at].clone())
        } else {
            SearchStep::Done(plain_reply(502, "Upstream error"))
        }
    }

    /// Replies with a playlist that lists segments, and goes on without one.
    fn consider(&mut self, url: String, playlist: String) -> (r: SearchStep)
        requires
            is_searching(old(self)@),
        ensures
            (final(self)@, r@) == weigh(old(self)@, url@, playlist@),
    {
        if has_segments(playlist.as_str()) {
            let body = rewrite_playlist(
                playlist.as_str(),
                url.as_str(),
                self.host.as_str(),
                self.channel_id.as_str(),
            );
            SearchStep::Done(
                Reply {
                    status: 200,
                    headers: make_resource_headers("application/x-mpegURL", "no-cache"),
                    body: Body::Text(body),
                },
            )
        } else {
            self.advance()
        }
    }

    /// Goes on with what was fetched; nothing where the fetch failed.
    pub fn fetched(&mut self, body: Option<String>) -> (r: SearchStep)
        ensures
            (final(self)@, r@) == search_step(old(self)@, foreign::opt_view(body)),
    {
        if self.at >= self.candidates.len() {
            return SearchStep::Done(plain_reply(502, "Upstream error"));
        }
        let playlist = match body {
            Some(t) => t,
            None => return self.advance(),
        };
        if let Some(url) = &self.variant {
            let url = url.clone();
            return self.consider(url, playlist);
        }
        assert(foreign::string_views(self.candidates@)[self.at as int]
            == self.candidates@[self.at as int]@);
        let url = self.candidates[self.at].clone();
        if is_master_playlist(playlist.as_str()) {
            match select_highest_bandwidth(playlist.as_str(), url.as_str()) {
                Some(variant) => {
                    self.variant = Some(variant.clone());
                    SearchStep::Fetch(variant)
                },
                None => self.advance(),
            }
        } else {
            self.consider(url, playlist)
        }
    }
}

// ─── Segments ────────────────────────────────────────────────────────────────

/// Starts a request for a segment: the address to fetch, or the reply where the encoded part of
/// the request names none.
pub fn proxy_ts(encoded: &str) -> (r: Result<String, Reply>)
    ensures
        match m3u8::decoded_url(encoded@) {
            Ok(url) => r is Ok && r->Ok_0@ == url,
            Err(DecodeUrlError::Utf8) => r is Err && r->Err_0@ == reply::plain(
                400,
                "Bad URL encoding"@,
            ),
            Err(DecodeUrlError::Base64) => r is Err && r->Err_0@ == reply::plain(
                400,
                "Bad base64"@,
            ),
        },
{
    match decode_url(encoded) {
        Ok(url) => Ok(url),
        Err(DecodeUrlError::Utf8) => Err(plain_reply(400, "Bad URL encoding")),
        Err(DecodeUrlError::Base64) => Err(plain_reply(400, "Bad base64")),
    }
}

/// The reply to a request for a segment, where `data` was fetched and `decrypted` is what the
/// native library gave back for it, if it was asked: the decrypted form where it is used, and
/// otherwise the data as it came.
pub open spec fn segment_reply(data: Option<Seq<u8>>, decrypted: Option<Seq<u8>>) -> ReplyView {
    match data {
        Some(d) => reply::resource(
            "video/mp2t"@,
            "public, max-age=5"@,
            match native::accepted(d, decrypted) {
                Some(o) => o,
                None => d,
            },
        ),
        None => reply::plain(502, "TS upstream error"@),
    }
}

/// The reply to a request for a segment.
pub fn ts_reply(data: Option<Vec<u8>>, decrypted: Option<Vec<u8>>) -> (r: Reply)
    ensures
        r@ == segment_reply(native::opt_bytes(data), native::opt_bytes(decrypted)),
{
    match data {
        Some(d) => {
            let payload = match TsDecryptor::decrypt(d.as_slice(), decrypted) {
                Some(o) => o,
                None => d,
            };
            resource_reply("video/mp2t", "public, max-age=5", payload)
        },
        None => plain_reply(502, "TS upstream error"),
    }
}

/// The reply to a request for a key, where `data` was fetched: the bytes as they came.
pub open spec fn raw_reply(data: Option<Seq<u8>>) -> ReplyView {
    match data {
        Some(k) => reply::resource("video/mp2t"@, "public, max-age=5"@, k),
        None => reply::plain(502, "TS upstream error"@),
    }
}

/// The reply to a request for a key, which is never decrypted.
pub fn key_reply(data: Option<Vec<u8>>) -> (r: Reply)
    ensures
        r@ == raw_reply(native::opt_bytes(data)),
{
    match data {
        Some(k) => resource_reply("video/mp2t", "public, max-age=5", k),
        None => plain_reply(502, "TS upstream error"),
    }
}

/// The headers of every request to the CCTV servers.
pub fn upstream_headers() -> (r: Vec<(String, String)>)
    ensures
        header_views(r@) == seq![
            ("Referer"@, "https://tv.cctv.com/"@),
            ("Origin"@, "https://tv.cctv.com"@),
            ("Accept"@, "*/*"@),
        ],
{
    let mut headers: Vec<(String, String)> = Vec::new();
    assert(header_views(headers@) =~= seq![]);
    add_header(&mut headers, "Referer", "https://tv.cctv.com/");
    add_header(&mut headers, "Origin", "https://tv.cctv.com");
    add_header(&mut headers, "Accept", "*/*");
    assert(header_views(headers@) =~= seq![
        ("Referer"@, "https://tv.cctv.com/"@),
        ("Origin"@, "https://tv.cctv.com"@),
        ("Accept"@, "*/*"@),
    ]);
    headers
}

/// The seconds after which a request to the CCTV servers is given up.
pub const TIMEOUT_SECS: u64 = 6;

// ─── Laws ────────────────────────────────────────────────────────────────────

/// What looking at a candidate finds, where `fetch` gives the text at each address: the address
/// and the text of a playlist that lists segments.
pub open spec fn candidate_result(
    url: Seq<char>,
    fetch: spec_fn(Seq<char>) -> Option<Seq<char>>,
) -> Option<(Seq<char>, Seq<char>)> {
    match fetch(url) {
        Some(playlist) => if is_master(playlist) {
            match m3u8::selected(playlist, url) {
                Some(variant) => match fetch(variant) {
                    Some(t) => if lists_segments(t) {
                        Some((variant, t))
                    } else {
                        None
                    },
                    None => None,
                },
                None => None,
            }
        } else if lists_segments(playlist) {
            Some((url, playlist))
        } else {
            None
        },
        None => None,
    }
}

/// The reply that the candidates from the one at `at` on give: that of the first which leads to a
/// playlist that lists segments.
pub open spec fn answer(s: SearchView, fetch: spec_fn(Seq<char>) -> Option<Seq<char>>) -> ReplyView
    decreases s.candidates.len() - s.at,
{
    if 0 <= s.at < s.candidates.len() {
        match candidate_result(s.candidates[s.at], fetch) {
            Some(found) => playlist_reply(found.1, found.0, s.host, s.channel_id),
            None => answer(SearchView { at: s.at + 1, variant: None, ..s }, fetch),
        }
    } else {
        reply::plain(502, "Upstream error"@)
    }
}

/// The reply with which a search ends, where `fetch` gives the text at each address.
pub open spec fn run(s: SearchView, fetch: spec_fn(Seq<char>) -> Option<Seq<char>>) -> ReplyView
    decreases
            s.candidates.len() - s.at,
            if s.variant is None {
                1int
            } else {
                0int
            },
{
    if 0 <= s.at < s.candidates.len() {
        let url = match s.variant {
            Some(u) => u,
            None => s.candidates[s.at],
        };
        let (next, step) = search_step(s, fetch(url));
        match step {
            SearchStepView::Done(r) => r,
            SearchStepView::Fetch(_) => run(next, fetch),
        }
    } else {
        reply::plain(502, "Upstream error"@)
    }
}

/// A search ends with the playlist of the first candidate that leads to one, and with an error
/// only where none does.
pub proof fn law_search_finds_the_first_playlist(
    s: SearchView,
    fetch: spec_fn(Seq<char>) -> Option<Seq<char>>,
)
    requires
        is_searching(s),
        s.variant is None,
    ensures
        run(s, fetch) == answer(s, fetch),
    decreases s.candidates.len() - s.at,
{
    reveal_with_fuel(run, 3);
    let next = next_candidate(s).0;
    if s.at + 1 < s.candidates.len() {
        law_search_finds_the_first_playlist(next, fetch);
    } else {
        assert(answer(next, fetch) == reply::plain(502, "Upstream error"@));
    }
}

/// A key is served as it came, with the status of success, however long it is; where none came, the
/// reply says so.
pub proof fn law_keys_are_served_raw(key: Seq<u8>)
    ensures
        raw_reply(Some(key)).status == 200,
        raw_reply(Some(key)).body == BodyView::Bytes(key),
        raw_reply(None).status == 502,
        raw_reply(None).body == BodyView::Text("TS upstream error"@),
{
}

/// Data that is shorter than a packet is passed on as it came.
pub proof fn law_short_data_is_passed_on(data: Seq<u8>, decrypted: Option<Seq<u8>>)
    requires
        data.len() < native::PACKET_LEN,
    ensures
        segment_reply(Some(data), decrypted).body == BodyView::Bytes(data),
{
}

/// The address that a search asked for last.
pub open spec fn asked(s: SearchView) -> Seq<char> {
    match s.variant {
        Some(url) => url,
        None => s.candidates[s.at],
    }
}

/// A playlist that holds a segment is served, whatever else it holds: one with `#EXTINF`, and one with
/// `.ts` that lists no variants or was itself asked for as a variant. The reply has the status of
/// success, and the playlist as it is rewritten for the address that it came from.
pub proof fn law_playlists_with_segments_are_served(s: SearchView, playlist: Seq<char>)
    requires
        0 <= s.at < s.candidates.len(),
        text::contains(playlist, "#EXTINF"@) || (text::contains(playlist, ".ts"@) && (s.variant is Some
            || !text::contains(playlist, "#EXT-X-STREAM-INF"@))),
    ensures
        search_on(s, Some(playlist)) == search_step(s, Some(playlist)),
        search_step(s, Some(playlist)).0 == s,
        search_step(s, Some(playlist)).1 == SearchStepView::Done(
            ReplyView {
                status: 200,
                headers: seq![
                    ("content-type"@, "application/x-mpegURL"@),
                    ("access-control-allow-origin"@, "*"@),
                    ("cache-control"@, "no-cache"@),
                ],
                body: BodyView::Text(m3u8::rewritten(playlist, asked(s), s.host, s.channel_id)),
            },
        ),
{
}

/// A playlist that lists variants and no segments is followed: the variant that is selected of it is
/// asked for next, and what comes is that of a variant. Where none can be selected, it is as good as
/// nothing.
pub proof fn law_master_playlists_are_followed(s: SearchView, playlist: Seq<char>)
    requires
        0 <= s.at < s.candidates.len(),
        s.variant is None,
        text::contains(playlist, "#EXT-X-STREAM-INF"@),
        !text::contains(playlist, "#EXTINF"@),
    ensures
        match m3u8::selected(playlist, s.candidates[s.at]) {
            Some(url) => search_step(s, Some(playlist)) == (
                SearchView { variant: Some(url), ..s },
                SearchStepView::Fetch(url),
            ),
            None => search_step(s, Some(playlist)) == search_step(s, None),
        },
{
}

/// A text that holds no segment and lists no variants is as good as nothing; and after nothing the
/// next candidate is asked for, or, where there is none, the search ends with an error.
pub proof fn law_useless_playlists_are_passed_over(s: SearchView, playlist: Seq<char>)
    requires
        0 <= s.at < s.candidates.len(),
        !text::contains(playlist, "#EXTINF"@),
        !text::contains(playlist, ".ts"@),
        s.variant is Some || !text::contains(playlist, "#EXT-X-STREAM-INF"@),
    ensures
        search_step(s, Some(playlist)) == search_step(s, None),
        search_step(s, None).0 == (SearchView { at: s.at + 1, variant: None, ..s }),
        s.at + 1 < s.candidates.len() ==> search_step(s, None).1 == SearchStepView::Fetch(
            s.candidates[s.at + 1],
        ),
        s.at + 1 >= s.candidates.len() ==> search_step(s, None).1 == SearchStepView::Done(
            ReplyView { status: 502, headers: seq![], body: BodyView::Text("Upstream error"@) },
        ),
{
}

/// A search looks at the address of the channel first, and at its other address, if it has one, next;
/// each in the form that the proxy prefers.
pub proof fn law_searches_begin_with_the_channels_address(
    c: db::CctvRecord,
    id: Seq<char>,
    host: Seq<char>,
)
    ensures
        search_start(c, id, host).at == 0,
        search_start(c, id, host).variant is None,
        search_start(c, id, host).channel_id == id,
        search_start(c, id, host).host == host,
        search_start(c, id, host).candidates.len() == if c.fallback_url is Some {
            2int
        } else {
            1int
        },
        search_start(c, id, host).candidates[0] == m3u8::fixed_cctv_url(c.m3u8_url),
        c.fallback_url matches Some(f) ==> search_start(c, id, host).candidates[1]
            == m3u8::fixed_cctv_url(f),
{
}

/// A segment is served as the native library decrypted it where each of its first packets, ten at
/// most, begins with the synchronisation byte; where one does not, where nothing came back, and where
/// there is no whole packet, it is served as it came.
pub proof fn law_segments_are_served_decrypted_or_raw(
    data: Seq<u8>,
    decrypted: Option<Seq<u8>>,
    i: int,
)
    ensures
        segment_reply(Some(data), decrypted).status == 200,
        segment_reply(Some(data), decrypted).headers == seq![
            ("content-type"@, "video/mp2t"@),
            ("access-control-allow-origin"@, "*"@),
            ("cache-control"@, "public, max-age=5"@),
        ],
        decrypted is None || data.len() < 188 ==> segment_reply(Some(data), decrypted).body
            == BodyView::Bytes(data),
        decrypted matches Some(out) && data.len() >= 188 && (forall|k: int|
            0 <= k < 10 && 188 * (k + 1) <= data.len() ==> #[trigger] native::is_marked(out, k))
            ==> segment_reply(Some(data), decrypted).body == BodyView::Bytes(decrypted->0),
        decrypted matches Some(out) && 0 <= i < 10 && 188 * (i + 1) <= data.len() && !native::is_marked(
            out,
            i,
        ) ==> segment_reply(Some(data), decrypted).body
            == BodyView::Bytes(data),
        segment_reply(None, decrypted) == (ReplyView {
            status: 502,
            headers: seq![],
            body: BodyView::Text("TS upstream error"@),
        }),
{
    native::law_decryption_is_used_where_packets_are_whole(data, decrypted, i);
}

/// The entries of two lists of channels, one behind the other, are those of the one and then those of
/// the other; and that of one channel is its entry, in the group `CCTV`.
pub proof fn law_entries_follow_the_list(
    a: Seq<db::CctvRecord>,
    b: Seq<db::CctvRecord>,
    c: db::CctvRecord,
    host: Seq<char>,
)
    ensures
        cctv_entries(a + b, host) == cctv_entries(a, host) + cctv_entries(b, host),
        cctv_entries(seq![c], host) == m3u8::entry(c.id, c.name, "CCTV"@, host),
    decreases b.len(),
{
    if b.len() > 0 {
        law_entries_follow_the_list(a, b.drop_last(), c, host);
        assert((a + b).drop_last() =~= a + b.drop_last());
        assert((a + b).last() == b.last());
        assert(cctv_entries(a + b, host) =~= cctv_entries(a, host) + cctv_entries(b, host));
    } else {
        assert(a + b =~= a);
        assert(cctv_entries(a, host) + cctv_entries(b, host) =~= cctv_entries(a, host));
    }
    reveal_with_fuel(cctv_entries, 2);
    assert(seq![c].drop_last() =~= seq![]);
    assert(cctv_entries(seq![c], host) =~= m3u8::entry(c.id, c.name, "CCTV"@, host));
}

/// The order in which channels are listed: each of them as often as it is there, and none with a sort
/// order below that of one before it.
pub proof fn law_channels_are_listed_in_order(
    order: Seq<db::CctvRecord>,
    list: Seq<db::CctvRecord>,
    c: db::CctvRecord,
    i: int,
    j: int,
)
    requires
        is_listing(order, list),
    ensures
        order.len() == list.len(),
        order.to_multiset().count(c) == list.to_multiset().count(c),
        0 <= i < j < order.len() ==> order[i].sort_order <= order[j].sort_order,
{
    broadcast use vstd::seq_lib::group_to_multiset_ensures;

    assert(order.to_multiset().len() == list.to_multiset().len());
}

/// A search that has no candidate left stays at its end, whatever comes.
pub proof fn law_ended_searches_stay_ended(s: SearchView, fetched: Option<Seq<char>>)
    requires
        s.at >= s.candidates.len(),
    ensures
        search_step(s, fetched) == (
            s,
            SearchStepView::Done(
                ReplyView { status: 502, headers: seq![], body: BodyView::Text("Upstream error"@) },
            ),
        ),
{
}

} // verus!
