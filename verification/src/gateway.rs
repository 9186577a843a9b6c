//! The gateway: which part of the proxy serves a request, and the list of all channels.
use crate::cctv;
use crate::cctv::{append_cctv_entries, PlaylistSearch};
use crate::db;
use crate::foreign;
use crate::m3u8;
use crate::provincial;
use crate::provincial::{append_channel_entries, PlaylistJob, ResourceKind, ResourceStep};
use crate::reply;
use crate::reply::{Body, BodyView, Reply, ReplyView};
use crate::state;
use crate::state::{add_header, header_views, AppState};
use crate::store::Moment;
use crate::text;
use crate::text::{lemma_contains_itself, lemma_part_contains};
use vstd::prelude::*;

verus! {

/// A channel is served as a CCTV channel: it is one of them, or its id in lower case begins with
/// `cctv`.
pub open spec fn goes_to_cctv(s: &AppState, id: Seq<char>) -> bool {
    state::first_with(s.cctv(), state::cctv_id(), id) is Some || text::starts_with(
        foreign::lowercase(id),
        "cctv"@,
    )
}

/// How a request for a playlist starts.
#[derive(Debug)]
pub enum PlaylistStart {
    /// As one for a CCTV channel: the search and the address to fetch first, or the reply.
    Cctv(Result<(PlaylistSearch, String), Reply>),
    /// As one for a provincial channel, or with the reply.
    Provincial(Result<PlaylistJob, Reply>),
}

/// Starts a request for the playlist of a channel.
pub fn smart_playlist(state: &AppState, channel_id: &str, host: &str) -> (r: PlaylistStart)
    ensures
        match r {
            PlaylistStart::Cctv(start) => goes_to_cctv(state, channel_id@) && match state::first_with(
                state.cctv(),
                state::cctv_id(),
                channel_id@,
            ) {
                Some(c) => start is Ok && start->Ok_0.0@ == cctv::search_start(
                    c,
                    channel_id@,
                    host@,
                ) && start->Ok_0.1@ == m3u8::fixed_cctv_url(c.m3u8_url),
                None => start is Err && start->Err_0@ == reply::plain(404, "Not Found"@),
            },
            PlaylistStart::Provincial(start) => !goes_to_cctv(state, channel_id@)
                && match state::first_with(state.provincial(), state::channel_id(), channel_id@) {
                Some(c) => start is Ok && start->Ok_0.channel_id@ == channel_id@
                    && start->Ok_0.page_url@ == c.url && start->Ok_0.host@ == host@
                    && !start->Ok_0.retried,
                None => start is Err && start->Err_0@ == reply::plain(404, "Channel not found"@),
            },
        },
{
    if state.is_cctv(channel_id) {
        PlaylistStart::Cctv(cctv::proxy_playlist(state, channel_id, host))
    } else {
        PlaylistStart::Provincial(provincial::proxy_playlist(state, channel_id, host))
    }
}

/// How a request for a segment or a key starts.
#[derive(Debug)]
pub enum ResourceStart {
    /// As one for a segment of a CCTV channel: the address to fetch, or the reply.
    Cctv(Result<String, Reply>),
    /// As one for a key of a CCTV channel: the address to fetch, or the reply.
    CctvKey(Result<String, Reply>),
    /// As one for a resource of a provincial channel.
    Provincial(ResourceStep),
}

/// A request for a resource of a CCTV channel starts with the address that it names, or ends with
/// the reply where it names none.
pub open spec fn starts_at(encoded: Seq<char>, start: Result<String, Reply>) -> bool {
    match m3u8::decoded_url(encoded) {
        Ok(url) => start is Ok && start->Ok_0@ == url,
        Err(m3u8::DecodeUrlError::Utf8) => start is Err && start->Err_0@ == reply::plain(
            400,
            "Bad URL encoding"@,
        ),
        Err(m3u8::DecodeUrlError::Base64) => start is Err && start->Err_0@ == reply::plain(
            400,
            "Bad base64"@,
        ),
    }
}

/// A request for a resource starts as it is due to the channel that it names, and to the kind of
/// the resource.
pub open spec fn starts_resource(
    s: &AppState,
    id: Seq<char>,
    encoded: Seq<char>,
    kind: ResourceKind,
    now: u128,
    r: ResourceStart,
) -> bool {
    match r {
        ResourceStart::Cctv(start) => goes_to_cctv(s, id) && kind == ResourceKind::Segment
            && starts_at(encoded, start),
        ResourceStart::CctvKey(start) => goes_to_cctv(s, id) && kind == ResourceKind::Key
            && starts_at(encoded, start),
        ResourceStart::Provincial(step) => !goes_to_cctv(s, id) && step@
            == provincial::resource_start(s, id, encoded, kind, now),
    }
}

/// Starts a request under the path of CCTV segments, which provincial segments may use too.
pub fn cctv_ts_or_provincial_segment(
    state: &mut AppState,
    channel_id: &str,
    encoded: &str,
    now: Moment,
) -> (r: ResourceStart)
    ensures
        starts_resource(
            old(state),
            channel_id@,
            encoded@,
            ResourceKind::Segment,
            now.mono,
            r,
        ),
        final(state).segment_cache@ == if goes_to_cctv(old(state), channel_id@) {
            old(state).segment_cache@
        } else {
            provincial::resource_start_leaves(old(state), encoded@, now.mono)
        },
        provincial::same_but_segments(final(state), old(state)),
{
    if state.is_cctv(channel_id) {
        ResourceStart::Cctv(cctv::proxy_ts(encoded))
    } else {
        ResourceStart::Provincial(provincial::proxy_segment(state, channel_id, encoded, now))
    }
}

/// Starts a request for a key. Those of CCTV channels are fetched as their segments are, and served
/// as they come.
pub fn smart_key(state: &mut AppState, channel_id: &str, encoded: &str, now: Moment) -> (r:
    ResourceStart)
    ensures
        starts_resource(old(state), channel_id@, encoded@, ResourceKind::Key, now.mono, r),
        final(state).segment_cache@ == if goes_to_cctv(old(state), channel_id@) {
            old(state).segment_cache@
        } else {
            provincial::resource_start_leaves(old(state), encoded@, now.mono)
        },
        provincial::same_but_segments(final(state), old(state)),
{
    if state.is_cctv(channel_id) {
        ResourceStart::CctvKey(cctv::proxy_ts(encoded))
    } else {
        ResourceStart::Provincial(provincial::proxy_key(state, channel_id, encoded, now))
    }
}

/// The headers of the list of all channels.
pub open spec fn merged_headers() -> Seq<(Seq<char>, Seq<char>)> {
    seq![
        ("content-type"@, "audio/x-mpegurl; charset=utf-8"@),
        ("content-disposition"@, "inline; filename=\"live.m3u\""@),
        ("access-control-allow-origin"@, "*"@),
    ]
}

/// The list of all channels, with the CCTV channels as they stand in `order`.
pub open spec fn merged_list(
    order: Seq<db::CctvRecord>,
    channels: Seq<db::ChannelRecord>,
    host: Seq<char>,
) -> Seq<char> {
    "#EXTM3U\n"@ + cctv::cctv_entries(order, host) + provincial::channel_entries(channels, host)
}

/// The list of all channels: the CCTV channels in their order, then the provincial ones.
pub fn merged_m3u(state: &AppState, host: &str) -> (r: Reply)
    ensures
        exists|order: Seq<db::CctvRecord>| #[trigger]
            cctv::is_listing(order, state.cctv()) && r@ == (ReplyView {
                status: 200,
                headers: merged_headers(),
                body: BodyView::Text(merged_list(order, state.provincial(), host@)),
            }),
{
    let mut headers: Vec<(String, String)> = Vec::new();
    assert(header_views(headers@) =~= seq![]);
    add_header(&mut headers, "content-type", "audio/x-mpegurl; charset=utf-8");
    add_header(&mut headers, "content-disposition", "inline; filename=\"live.m3u\"");
    add_header(&mut headers, "access-control-allow-origin", "*");
    assert(header_views(headers@) =~= merged_headers());

    let mut out = "#EXTM3U\n".to_owned();
    append_cctv_entries(&mut out, &state.cctv_channels, host);
    let ghost head = out@;
    append_channel_entries(&mut out, &state.channels, host);
    let r = Reply { status: 200, headers, body: Body::Text(out) };
    proof {
        let order = choose|order: Seq<db::CctvRecord>| #[trigger]
            cctv::is_listing(order, state.cctv()) && head == "#EXTM3U\n"@ + cctv::cctv_entries(
                order,
                host@,
            );
        assert(cctv::is_listing(order, state.cctv()) && r@.body == BodyView::Text(
            merged_list(order, state.provincial(), host@),
        ));
    }
    r
}

// ─── Laws ────────────────────────────────────────────────────────────────────

/// The entry of a channel stands in the entries of every list that holds the channel.
proof fn lemma_cctv_entry(list: Seq<db::CctvRecord>, host: Seq<char>, i: int)
    requires
        0 <= i < list.len(),
    ensures
        text::contains(
            cctv::cctv_entries(list, host),
            m3u8::entry(list[i].id, list[i].name, "CCTV"@, host),
        ),
    decreases list.len(),
{
    let rest = cctv::cctv_entries(list.drop_last(), host);
    let last = m3u8::entry(list.last().id, list.last().name, "CCTV"@, host);
    let one = m3u8::entry(list[i].id, list[i].name, "CCTV"@, host);
    if i == list.len() - 1 {
        lemma_contains_itself(one);
        lemma_part_contains(rest, one, seq![], one);
    } else {
        lemma_cctv_entry(list.drop_last(), host, i);
        lemma_part_contains(seq![], rest, last, one);
    }
    assert(rest + last + seq![] =~= rest + last);
    assert(seq![] + rest + last =~= rest + last);
}

/// The entry of a provincial channel stands in the entries of every list that holds the channel.
proof fn lemma_channel_entry(list: Seq<db::ChannelRecord>, host: Seq<char>, i: int)
    requires
        0 <= i < list.len(),
    ensures
        text::contains(
            provincial::channel_entries(list, host),
            m3u8::entry(
                list[i].id,
                list[i].name,
                db::text_or(list[i].group_name, "其他"@),
                host,
            ),
        ),
    decreases list.len(),
{
    let rest = provincial::channel_entries(list.drop_last(), host);
    let last = m3u8::entry(
        list.last().id,
        list.last().name,
        db::text_or(list.last().group_name, "其他"@),
        host,
    );
    let one = m3u8::entry(
        list[i].id,
        list[i].name,
        db::text_or(list[i].group_name, "其他"@),
        host,
    );
    if i == list.len() - 1 {
        lemma_contains_itself(one);
        lemma_part_contains(rest, one, seq![], one);
    } else {
        lemma_channel_entry(list.drop_last(), host, i);
        lemma_part_contains(seq![], rest, last, one);
    }
    assert(rest + last + seq![] =~= rest + last);
    assert(seq![] + rest + last =~= rest + last);
}

/// The list of all channels holds the entry of every channel, CCTV or provincial.
pub proof fn law_every_channel_is_listed(
    order: Seq<db::CctvRecord>,
    cctv_channels: Seq<db::CctvRecord>,
    channels: Seq<db::ChannelRecord>,
    host: Seq<char>,
)
    requires
        cctv::is_listing(order, cctv_channels),
    ensures
        forall|i: int|
            0 <= i < cctv_channels.len() ==> text::contains(
                merged_list(order, channels, host),
                m3u8::entry((#[trigger] cctv_channels[i]).id, cctv_channels[i].name, "CCTV"@, host),
            ),
        forall|i: int|
            0 <= i < channels.len() ==> text::contains(
                merged_list(order, channels, host),
                m3u8::entry(
                    (#[trigger] channels[i]).id,
                    channels[i].name,
                    db::text_or(channels[i].group_name, "其他"@),
                    host,
                ),
            ),
{
    broadcast use vstd::seq_lib::group_to_multiset_ensures;

    let all = merged_list(order, channels, host);
    let head = "#EXTM3U\n"@;
    let first = cctv::cctv_entries(order, host);
    let second = provincial::channel_entries(channels, host);
    assert forall|i: int| 0 <= i < cctv_channels.len() implies text::contains(
        all,
        m3u8::entry((#[trigger] cctv_channels[i]).id, cctv_channels[i].name, "CCTV"@, host),
    ) by {
        let c = cctv_channels[i];
        let one = m3u8::entry(c.id, c.name, "CCTV"@, host);
        assert(cctv_channels.contains(c));
        assert(order.to_multiset().count(c) > 0);
        assert(order.contains(c));
        let j = choose|j: int| 0 <= j < order.len() && order[j] == c;
        lemma_cctv_entry(order, host, j);
        lemma_part_contains(head, first, second, one);
    }
    assert forall|i: int| 0 <= i < channels.len() implies text::contains(
        all,
        m3u8::entry(
            (#[trigger] channels[i]).id,
            channels[i].name,
            db::text_or(channels[i].group_name, "其他"@),
            host,
        ),
    ) by {
        let c = channels[i];
        let one = m3u8::entry(c.id, c.name, db::text_or(c.group_name, "其他"@), host);
        lemma_channel_entry(channels, host, i);
        lemma_part_contains(head + first, second, seq![], one);
        assert(head + first + second + seq![] =~= all);
    }
}

/// A channel is served as a CCTV channel where the list of these has its id, and where its id in lower
/// case begins with the four letters; any other is not.
pub proof fn law_channels_go_where_they_belong(s: &AppState, id: Seq<char>, i: int)
    ensures
        0 <= i < s.cctv().len() && s.cctv()[i].id == id ==> goes_to_cctv(s, id),
        foreign::lowercase(id).len() >= 4 && foreign::lowercase(id).take(4) == seq![
            'c',
            'c',
            't',
            'v',
        ] ==> goes_to_cctv(s, id),
        goes_to_cctv(s, id) ==> (foreign::lowercase(id).len() >= 4 && foreign::lowercase(id).take(4)
            == seq!['c', 'c', 't', 'v']) || exists|k: int|
            0 <= k < s.cctv().len() && (#[trigger] s.cctv()[k]).id == id,
{
    let ids = state::ids_of(s.cctv(), state::cctv_id());
    let lower = foreign::lowercase(id);
    state::lemma_place_from(ids, id, 0);
    reveal_strlit("cctv");
    assert("cctv"@ =~= seq!['c', 'c', 't', 'v']);
    if lower.len() >= 4 {
        assert(lower.subrange(0, 4) =~= lower.take(4));
    }
    if 0 <= i < s.cctv().len() && s.cctv()[i].id == id {
        assert(ids[i] == id);
    }
    if let Some(k) = state::place(ids, id) {
        assert(s.cctv()[k].id == ids[k]);
    }
}

/// The list of all channels begins with its header; the CCTV channels follow, and then the provincial
/// ones.
pub proof fn law_lists_begin_with_their_header(
    order: Seq<db::CctvRecord>,
    channels: Seq<db::ChannelRecord>,
    host: Seq<char>,
)
    ensures
        merged_list(order, channels, host) == "#EXTM3U\n"@ + cctv::cctv_entries(order, host)
            + provincial::channel_entries(channels, host),
        merged_list(seq![], channels, host) == "#EXTM3U\n"@ + provincial::channel_entries(
            channels,
            host,
        ),
        merged_list(order, seq![], host) == "#EXTM3U\n"@ + cctv::cctv_entries(order, host),
{
    assert(merged_list(seq![], channels, host) =~= "#EXTM3U\n"@ + provincial::channel_entries(
        channels,
        host,
    ));
    assert(merged_list(order, seq![], host) =~= "#EXTM3U\n"@ + cctv::cctv_entries(order, host));
}

/// A request for a resource of a CCTV channel starts with exactly the address that its path decodes
/// to, and is refused where that decodes to none; the request of any other channel starts as one of a
/// provincial channel.
pub proof fn law_resources_start_where_they_belong(
    s: &AppState,
    id: Seq<char>,
    encoded: Seq<char>,
    kind: ResourceKind,
    now: u128,
    r: ResourceStart,
)
    requires
        starts_resource(s, id, encoded, kind, now, r),
    ensures
        r is Provincial <==> !goes_to_cctv(s, id),
        r is Cctv <==> goes_to_cctv(s, id) && kind == ResourceKind::Segment,
        r is CctvKey <==> goes_to_cctv(s, id) && kind == ResourceKind::Key,
        r matches ResourceStart::Cctv(start) ==> match start {
            Ok(url) => m3u8::decoded_url(encoded) == Ok::<Seq<char>, m3u8::DecodeUrlError>(url@),
            Err(reply) => m3u8::decoded_url(encoded) is Err && reply@.status == 400,
        },
        r matches ResourceStart::CctvKey(start) ==> match start {
            Ok(url) => m3u8::decoded_url(encoded) == Ok::<Seq<char>, m3u8::DecodeUrlError>(url@),
            Err(reply) => m3u8::decoded_url(encoded) is Err && reply@.status == 400,
        },
{
}

} // verus!
