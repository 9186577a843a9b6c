//! The state that all requests share: channels, rules, caches and what is known of each channel.
use crate::cache::{M3u8Cache, SegmentCache, StreamCache};
use crate::db;
use crate::db::{clone_opt, AppDb, CctvChannel, Channel, SiteRule};
use crate::foreign;
use crate::foreign::{parse_url, UrlOrigin};
use crate::m3u8;
use crate::m3u8::make_scheme_host;
use crate::store::{insert, lookup, Stored, Ticker};
use crate::text;
use crate::text::{str_begins_with, str_equal};
use dashmap::DashMap;
use vstd::prelude::*;

verus! {

// ─── What is known of a channel ──────────────────────────────────────────────

/// What is known of a provincial channel.
#[derive(Debug, Clone)]
pub struct ChannelState {
    pub stream_url: Option<String>,
    /// In nanoseconds of the shared clock.
    pub stream_url_fetched_at: Option<u128>,
    pub fetching: bool,
    pub viewer_count: u32,
}

/// What a [`ChannelState`] holds, as mathematical values.
pub struct ChannelFacts {
    pub stream_url: Option<Seq<char>>,
    pub stream_url_fetched_at: Option<u128>,
    pub fetching: bool,
    pub viewer_count: u32,
}

/// Nothing is known of a channel yet.
pub open spec fn no_facts() -> ChannelFacts {
    ChannelFacts {
        stream_url: None,
        stream_url_fetched_at: None,
        fetching: false,
        viewer_count: 0,
    }
}

impl View for ChannelState {
    type V = ChannelFacts;

    open spec fn view(&self) -> ChannelFacts {
        ChannelFacts {
            stream_url: foreign::opt_view(self.stream_url),
            stream_url_fetched_at: self.stream_url_fetched_at,
            fetching: self.fetching,
            viewer_count: self.viewer_count,
        }
    }
}

impl Default for ChannelState {
    fn default() -> (r: Self)
        ensures
            r@ == no_facts(),
    {
        ChannelState {
            stream_url: None,
            stream_url_fetched_at: None,
            fetching: false,
            viewer_count: 0,
        }
    }
}

/// The contents of a table of channel states.
pub uninterp spec fn channel_contents(m: DashMap<String, ChannelState>) -> Map<
    Seq<char>,
    ChannelFacts,
>;

impl Stored for ChannelState {
    type Record = ChannelFacts;

    open spec fn record(&self) -> ChannelFacts {
        self@
    }

    open spec fn contents(m: DashMap<String, Self>) -> Map<Seq<char>, ChannelFacts> {
        channel_contents(m)
    }
}

/// `DashMap::new`. Believed: the table is empty.
#[verifier::external_body]
fn new_channel_table() -> (r: DashMap<String, ChannelState>)
    ensures
        channel_contents(r).dom() == Set::<Seq<char>>::empty(),
{
    DashMap::new()
}

/// What is known of each channel that was asked for.
pub struct ChannelTable {
    inner: DashMap<String, ChannelState>,
}

impl View for ChannelTable {
    type V = Map<Seq<char>, ChannelFacts>;

    closed spec fn view(&self) -> Map<Seq<char>, ChannelFacts> {
        channel_contents(self.inner)
    }
}

/// The facts of a channel, where none are known those of a channel that was never asked for.
pub open spec fn facts_of(m: Map<Seq<char>, ChannelFacts>, id: Seq<char>) -> ChannelFacts {
    if m.dom().contains(id) {
        m[id]
    } else {
        no_facts()
    }
}

/// The facts with those of a channel among them.
pub open spec fn opened(m: Map<Seq<char>, ChannelFacts>, id: Seq<char>) -> Map<
    Seq<char>,
    ChannelFacts,
> {
    m.insert(id, facts_of(m, id))
}

impl ChannelTable {
    /// A table that knows nothing.
    pub fn new() -> (r: Self)
        ensures
            r@ == Map::<Seq<char>, ChannelFacts>::empty(),
    {
        let r = ChannelTable { inner: new_channel_table() };
        assert(r@ =~= Map::<Seq<char>, ChannelFacts>::empty());
        r
    }

    /// The state of a channel, which is made where there is none.
    pub fn get_or_create(&mut self, id: &str) -> (r: ChannelState)
        ensures
            r@ == facts_of(old(self)@, id@),
            final(self)@ == opened(old(self)@, id@),
    {
        match lookup(&self.inner, id) {
            Some(found) => {
                assert(self@ =~= opened(self@, id@));
                found
            },
            None => {
                insert(&mut self.inner, id.to_owned(), ChannelState::default());
                ChannelState::default()
            },
        }
    }

    /// Sets the state of a channel.
    pub fn put(&mut self, id: &str, state: ChannelState)
        ensures
            final(self)@ == old(self)@.insert(id@, state@),
    {
        insert(&mut self.inner, id.to_owned(), state);
    }
}

// ─── Lists keyed by id ───────────────────────────────────────────────────────

/// The first place at which a list of ids has `id`, from place `k` on.
pub open spec fn place_from(ids: Seq<Seq<char>>, id: Seq<char>, k: int) -> Option<int>
    decreases ids.len() - k,
{
    if k >= ids.len() {
        None
    } else if ids[k] == id {
        Some(k)
    } else {
        place_from(ids, id, k + 1)
    }
}

/// The first place at which a list of ids has `id`.
pub open spec fn place(ids: Seq<Seq<char>>, id: Seq<char>) -> Option<int> {
    place_from(ids, id, 0)
}

/// What [`place_from`] gives.
pub proof fn lemma_place_from(ids: Seq<Seq<char>>, id: Seq<char>, k: int)
    requires
        0 <= k,
    ensures
        match place_from(ids, id, k) {
            Some(i) => k <= i < ids.len() && ids[i] == id && forall|j: int|
                k <= j < i ==> ids[j] != id,
            None => forall|j: int| k <= j < ids.len() ==> ids[j] != id,
        },
    decreases ids.len() - k,
{
    if k < ids.len() && ids[k] != id {
        lemma_place_from(ids, id, k + 1);
    }
}

/// The ids of a list.
pub open spec fn ids_of<R>(list: Seq<R>, id: spec_fn(R) -> Seq<char>) -> Seq<Seq<char>> {
    list.map_values(id)
}

/// A list with one item for each id: of several with one id the last stays, at the place of the
/// first.
pub open spec fn keyed<R>(list: Seq<R>, id: spec_fn(R) -> Seq<char>) -> Seq<R>
    decreases list.len(),
{
    if list.len() == 0 {
        list
    } else {
        let before = keyed(list.drop_last(), id);
        match place(ids_of(before, id), id(list.last())) {
            Some(i) => before.update(i, list.last()),
            None => before.push(list.last()),
        }
    }
}

/// The item of an id: the last of the list that has it.
pub open spec fn last_with<R>(list: Seq<R>, id: spec_fn(R) -> Seq<char>, key: Seq<char>) -> Option<
    R,
>
    decreases list.len(),
{
    if list.len() == 0 {
        None
    } else if id(list.last()) == key {
        Some(list.last())
    } else {
        last_with(list.drop_last(), id, key)
    }
}

/// The first item of a list that has an id.
pub open spec fn first_with<R>(
    list: Seq<R>,
    id: spec_fn(R) -> Seq<char>,
    key: Seq<char>,
) -> Option<R> {
    match place(ids_of(list, id), key) {
        Some(i) => Some(list[i]),
        None => None,
    }
}

/// A keyed list repeats no id, and has for each id the item that came last.
pub proof fn law_keyed_list_has_the_last_of_each<R>(
    list: Seq<R>,
    id: spec_fn(R) -> Seq<char>,
    key: Seq<char>,
)
    ensures
        ids_of(keyed(list, id), id).no_duplicates(),
        first_with(keyed(list, id), id, key) == last_with(list, id, key),
    decreases list.len(),
{
    let out = keyed(list, id);
    lemma_place_from(ids_of(out, id), key, 0);
    if list.len() > 0 {
        let before = keyed(list.drop_last(), id);
        let last = list.last();
        let ids = ids_of(before, id);
        law_keyed_list_has_the_last_of_each(list.drop_last(), id, key);
        lemma_place_from(ids, id(last), 0);
        lemma_place_from(ids, key, 0);
        match place(ids, id(last)) {
            Some(i) => {
                assert(ids_of(out, id) =~= ids);
                if key == id(last) {
                    assert(out[i] == last);
                } else if place(ids, key) is Some {
                    let at = place(ids, key)->0;
                    assert(ids[at] != ids[i]);
                    assert(out[at] == before[at]);
                }
            },
            None => {
                let grown = ids.push(id(last));
                assert(ids_of(out, id) =~= grown);
                if key == id(last) {
                    assert(grown[before.len() as int] == key);
                    assert(forall|j: int| 0 <= j < before.len() ==> grown[j] == ids[j]);
                } else if place(ids, key) is Some {
                    let at = place(ids, key)->0;
                    assert(grown[at] == key);
                    assert(forall|j: int| 0 <= j < at ==> grown[j] == ids[j]);
                    assert(out[at] == before[at]);
                } else {
                    assert(forall|j: int| 0 <= j < before.len() ==> grown[j] == ids[j]);
                }
            },
        }
    }
}

/// The id of a channel record.
pub open spec fn cctv_id() -> spec_fn(db::CctvRecord) -> Seq<char> {
    |c: db::CctvRecord| c.id
}

/// The id of a provincial channel record.
pub open spec fn channel_id() -> spec_fn(db::ChannelRecord) -> Seq<char> {
    |c: db::ChannelRecord| c.id
}

/// The place of a channel in a list.
pub fn cctv_place(list: &Vec<CctvChannel>, id: &str) -> (r: Option<usize>)
    ensures
        match r {
            Some(i) => i < list@.len() && place(
                ids_of(db::cctv_records(list@), cctv_id()),
                id@,
            ) == Some(i as int),
            None => place(ids_of(db::cctv_records(list@), cctv_id()), id@) is None,
        },
{
    let ghost ids = ids_of(db::cctv_records(list@), cctv_id());
    let mut i: usize = 0;
    while i < list.len()
        invariant
            i <= list@.len(),
            ids == ids_of(db::cctv_records(list@), cctv_id()),
            place(ids, id@) == place_from(ids, id@, i as int),
        decreases list.len() - i,
    {
        assert(ids[i as int] == list@[i as int].id@);
        if str_equal(list[i].id.as_str(), id) {
            return Some(i);
        }
        i = i + 1;
    }
    None
}

/// The place of a provincial channel in a list.
pub fn channel_place(list: &Vec<Channel>, id: &str) -> (r: Option<usize>)
    ensures
        match r {
            Some(i) => i < list@.len() && place(
                ids_of(db::channel_records(list@), channel_id()),
                id@,
            ) == Some(i as int),
            None => place(ids_of(db::channel_records(list@), channel_id()), id@) is None,
        },
{
    let ghost ids = ids_of(db::channel_records(list@), channel_id());
    let mut i: usize = 0;
    while i < list.len()
        invariant
            i <= list@.len(),
            ids == ids_of(db::channel_records(list@), channel_id()),
            place(ids, id@) == place_from(ids, id@, i as int),
        decreases list.len() - i,
    {
        assert(ids[i as int] == list@[i as int].id@);
        if str_equal(list[i].id.as_str(), id) {
            return Some(i);
        }
        i = i + 1;
    }
    None
}

/// A copy of a channel.
pub fn clone_cctv(c: &CctvChannel) -> (r: CctvChannel)
    ensures
        r@ == c@,
{
    CctvChannel {
        id: c.id.clone(),
        name: c.name.clone(),
        m3u8_url: c.m3u8_url.clone(),
        fallback_url: clone_opt(&c.fallback_url),
        sort_order: c.sort_order,
        enabled: c.enabled,
    }
}

/// A copy of a provincial channel.
pub fn clone_channel(c: &Channel) -> (r: Channel)
    ensures
        r@ == c@,
{
    Channel {
        id: c.id.clone(),
        name: c.name.clone(),
        url: c.url.clone(),
        group_name: clone_opt(&c.group_name),
        channel_type: c.channel_type.clone(),
        sid: clone_opt(&c.sid),
        jstv_id: clone_opt(&c.jstv_id),
    }
}

/// The channels of a list, one for each id.
pub fn key_cctv(list: &Vec<CctvChannel>) -> (r: Vec<CctvChannel>)
    ensures
        db::cctv_records(r@) == keyed(db::cctv_records(list@), cctv_id()),
{
    let ghost records = db::cctv_records(list@);
    let mut out: Vec<CctvChannel> = Vec::new();
    let mut i: usize = 0;
    assert(records.take(0) =~= seq![]);
    assert(db::cctv_records(out@) =~= seq![]);
    while i < list.len()
        invariant
            i <= list@.len(),
            records == db::cctv_records(list@),
            db::cctv_records(out@) == keyed(records.take(i as int), cctv_id()),
        decreases list.len() - i,
    {
        let c = clone_cctv(&list[i]);
        let ghost before = out@;
        proof {
            assert(records.take(i + 1).drop_last() =~= records.take(i as int));
            assert(records.take(i + 1).last() == c@);
        }
        match cctv_place(&out, list[i].id.as_str()) {
            Some(j) => {
                out.set(j, c);
                assert(db::cctv_records(out@) =~= db::cctv_records(before).update(j as int, c@));
            },
            None => {
                out.push(c);
                assert(db::cctv_records(out@) =~= db::cctv_records(before).push(c@));
            },
        }
        i = i + 1;
    }
    assert(records.take(records.len() as int) =~= records);
    out
}

/// The provincial channels of a list, one for each id.
pub fn key_channels(list: &Vec<Channel>) -> (r: Vec<Channel>)
    ensures
        db::channel_records(r@) == keyed(db::channel_records(list@), channel_id()),
{
    let ghost records = db::channel_records(list@);
    let mut out: Vec<Channel> = Vec::new();
    let mut i: usize = 0;
    assert(records.take(0) =~= seq![]);
    assert(db::channel_records(out@) =~= seq![]);
    while i < list.len()
        invariant
            i <= list@.len(),
            records == db::channel_records(list@),
            db::channel_records(out@) == keyed(records.take(i as int), channel_id()),
        decreases list.len() - i,
    {
        let c = clone_channel(&list[i]);
        let ghost before = out@;
        proof {
            assert(records.take(i + 1).drop_last() =~= records.take(i as int));
            assert(records.take(i + 1).last() == c@);
        }
        match channel_place(&out, list[i].id.as_str()) {
            Some(j) => {
                out.set(j, c);
                assert(db::channel_records(out@) =~= db::channel_records(before).update(
                    j as int,
                    c@,
                ));
            },
            None => {
                out.push(c);
                assert(db::channel_records(out@) =~= db::channel_records(before).push(c@));
            },
        }
        i = i + 1;
    }
    assert(records.take(records.len() as int) =~= records);
    out
}

// ─── Rules ───────────────────────────────────────────────────────────────────

/// The channel's address is signed by the native library.
pub open spec fn is_signed(id: Seq<char>) -> bool {
    text::starts_with(id, "js_"@) || text::starts_with(id, "zj_"@) || text::starts_with(id, "sd_"@)
        || text::starts_with(id, "sh_"@)
}

/// Whether the channel's address is signed by the native library.
pub fn is_signed_id(id: &str) -> (r: bool)
    ensures
        r == is_signed(id@),
{
    str_begins_with(id, "js_") || str_begins_with(id, "zj_") || str_begins_with(id, "sd_")
        || str_begins_with(id, "sh_")
}

/// The place of the first rule, from place `k` on, whose prefix the channel's id begins with.
pub open spec fn rule_place_from(rules: Seq<db::RuleRecord>, id: Seq<char>, k: int) -> Option<int>
    decreases rules.len() - k,
{
    if k >= rules.len() {
        None
    } else if text::starts_with(id, rules[k].prefix) {
        Some(k)
    } else {
        rule_place_from(rules, id, k + 1)
    }
}

/// The rule of a channel: the first whose prefix the channel's id begins with.
pub open spec fn rule_of(rules: Seq<db::RuleRecord>, id: Seq<char>) -> Option<db::RuleRecord> {
    match rule_place_from(rules, id, 0) {
        Some(i) => Some(rules[i]),
        None => None,
    }
}

/// A list of request headers, as character sequences.
pub open spec fn header_views(v: Seq<(String, String)>) -> Seq<(Seq<char>, Seq<char>)> {
    v.map_values(|h: (String, String)| (h.0@, h.1@))
}

/// The headers that say where a request comes from: those of the channel's rule, or, where it has
/// no rule, the origin of the stream itself.
pub open spec fn origin_headers(
    rule: Option<db::RuleRecord>,
    origin: Option<foreign::Origin>,
) -> Seq<(Seq<char>, Seq<char>)> {
    match rule {
        Some(r) => {
            let referer = match r.referer {
                Some(t) => seq![("Referer"@, t)],
                None => seq![],
            };
            match r.origin {
                Some(t) => referer.push(("Origin"@, t)),
                None => referer,
            }
        },
        None => match origin {
            Some(o) => seq![
                ("Referer"@, m3u8::scheme_host(o) + "/"@),
                ("Origin"@, m3u8::scheme_host(o)),
            ],
            None => seq![],
        },
    }
}

/// The user agent that the Shanghai channels ask for.
pub open spec fn shanghai_agent() -> Seq<char> {
    "Mozilla/5.0 (Windows NT 10.0; Win64; x64) AppleWebKit/537.36 (KHTML, like Gecko) Chrome/150.0.0.0 Safari/537.36"@
}

/// The headers of a request for a stream of a channel.
pub open spec fn request_headers(
    rule: Option<db::RuleRecord>,
    origin: Option<foreign::Origin>,
    user_agent: Seq<char>,
    id: Seq<char>,
) -> Seq<(Seq<char>, Seq<char>)> {
    let general = seq![
        ("Accept"@, "*/*"@),
        ("Accept-Language"@, "zh-CN,zh;q=0.9"@),
        ("Accept-Encoding"@, "identity"@),
        ("Connection"@, "keep-alive"@),
    ];
    let agent = if text::starts_with(id, "sh_"@) {
        shanghai_agent()
    } else {
        user_agent
    };
    (general + origin_headers(rule, origin)).push(("User-Agent"@, agent))
}

/// Puts a header behind a list of headers.
pub fn add_header(headers: &mut Vec<(String, String)>, name: &str, value: &str)
    ensures
        header_views(final(headers)@) == header_views(old(headers)@).push((name@, value@)),
{
    let ghost before = headers@;
    headers.push((name.to_owned(), value.to_owned()));
    assert(header_views(headers@) =~= header_views(before).push((name@, value@)));
}

/// The rule of a channel is the first whose prefix its id begins with.
pub proof fn law_first_rule_applies(rules: Seq<db::RuleRecord>, id: Seq<char>, i: int)
    requires
        0 <= i < rules.len(),
        text::starts_with(id, rules[i].prefix),
        forall|j: int| 0 <= j < i ==> !text::starts_with(id, (#[trigger] rules[j]).prefix),
    ensures
        rule_of(rules, id) == Some(rules[i]),
{
    lemma_rules_passed_over(rules, id, 0, i);
}

/// Rules whose prefix an id does not begin with are passed over.
proof fn lemma_rules_passed_over(rules: Seq<db::RuleRecord>, id: Seq<char>, k: int, i: int)
    requires
        0 <= k <= i < rules.len(),
        forall|j: int| k <= j < i ==> !text::starts_with(id, (#[trigger] rules[j]).prefix),
    ensures
        rule_place_from(rules, id, k) == rule_place_from(rules, id, i),
    decreases i - k,
{
    if k < i {
        lemma_rules_passed_over(rules, id, k + 1, i);
    }
}

// ─── The shared state ────────────────────────────────────────────────────────

/// The state that all requests share.
pub struct AppState {
    pub cctv_channels: Vec<CctvChannel>,
    pub channels: Vec<Channel>,
    pub site_rules: Vec<SiteRule>,
    pub global_dom_filter: String,
    pub user_agent: String,
    pub blocked_domains: Vec<String>,
    pub fetch_timeout_ms: u64,
    pub proxy_timeout_ms: u64,
    pub decrypt_cache_ttl_ms: u64,
    pub poll_interval_ms: u64,
    pub stream_cache: StreamCache,
    pub segment_cache: SegmentCache,
    pub m3u8_cache: M3u8Cache,
    pub channel_states: ChannelTable,
    pub chrome_path: String,
    pub clock: Ticker,
}

impl AppState {
    /// The records of the CCTV channels.
    pub open spec fn cctv(&self) -> Seq<db::CctvRecord> {
        db::cctv_records(self.cctv_channels@)
    }

    /// The records of the provincial channels.
    pub open spec fn provincial(&self) -> Seq<db::ChannelRecord> {
        db::channel_records(self.channels@)
    }

    /// The records of the site rules.
    pub open spec fn rules(&self) -> Seq<db::RuleRecord> {
        db::rule_records(self.site_rules@)
    }

    /// Two states differ in their caches and in what they know of the channels at most.
    pub open spec fn same_setup(&self, other: &AppState) -> bool {
        &&& self.cctv_channels == other.cctv_channels
        &&& self.channels == other.channels
        &&& self.site_rules == other.site_rules
        &&& self.global_dom_filter == other.global_dom_filter
        &&& self.user_agent == other.user_agent
        &&& self.blocked_domains == other.blocked_domains
        &&& self.fetch_timeout_ms == other.fetch_timeout_ms
        &&& self.proxy_timeout_ms == other.proxy_timeout_ms
        &&& self.decrypt_cache_ttl_ms == other.decrypt_cache_ttl_ms
        &&& self.poll_interval_ms == other.poll_interval_ms
        &&& self.stream_cache.ttl() == other.stream_cache.ttl()
        &&& self.segment_cache.ttl() == other.segment_cache.ttl()
        &&& self.segment_cache.limit() == other.segment_cache.limit()
        &&& self.m3u8_cache.ttl() == other.m3u8_cache.ttl()
        &&& self.m3u8_cache.limit() == other.m3u8_cache.limit()
        &&& self.segment_cache.clock() == other.segment_cache.clock()
        &&& self.m3u8_cache.clock() == other.m3u8_cache.clock()
        &&& self.chrome_path == other.chrome_path
        &&& self.clock == other.clock
    }

    /// The state with which the proxy starts: one channel for each id of the database, and empty
    /// caches.
    pub fn new(db: AppDb, chrome_path: String) -> (r: Self)
        ensures
            r.cctv() == keyed(db::cctv_records(db.cctv_channels@), cctv_id()),
            r.provincial() == keyed(db::channel_records(db.channels@), channel_id()),
            r.site_rules == db.site_rules,
            r.global_dom_filter == db.global_dom_filter,
            r.user_agent == db.user_agent,
            r.blocked_domains == db.blocked_domains,
            r.fetch_timeout_ms == db.fetch_timeout_ms,
            r.proxy_timeout_ms == db.proxy_timeout_ms,
            r.decrypt_cache_ttl_ms == db.decrypt_cache_ttl_ms,
            r.poll_interval_ms == db.poll_interval_ms,
            r.stream_cache@ == Map::<Seq<char>, crate::cache::StreamRecord>::empty(),
            r.stream_cache.ttl() == db.decrypt_cache_ttl_ms,
            r.segment_cache@ == Map::<
                Seq<char>,
                crate::cache::TimedRecord<Seq<u8>>,
            >::empty(),
            r.segment_cache.ttl() == 10_000,
            r.segment_cache.limit() == 80,
            r.m3u8_cache@ == Map::<
                Seq<char>,
                crate::cache::TimedRecord<Seq<char>>,
            >::empty(),
            r.m3u8_cache.ttl() == 1_500,
            r.m3u8_cache.limit() == 200,
            r.segment_cache.clock() == r.clock,
            r.m3u8_cache.clock() == r.clock,
            r.channel_states@ == Map::<Seq<char>, ChannelFacts>::empty(),
            r.chrome_path == chrome_path,
    {
        let clock = Ticker::start();
        AppState {
            cctv_channels: key_cctv(&db.cctv_channels),
            channels: key_channels(&db.channels),
            site_rules: db.site_rules,
            global_dom_filter: db.global_dom_filter,
            user_agent: db.user_agent,
            blocked_domains: db.blocked_domains,
            fetch_timeout_ms: db.fetch_timeout_ms,
            proxy_timeout_ms: db.proxy_timeout_ms,
            decrypt_cache_ttl_ms: db.decrypt_cache_ttl_ms,
            poll_interval_ms: db.poll_interval_ms,
            stream_cache: StreamCache::new(db.decrypt_cache_ttl_ms),
            segment_cache: SegmentCache::with_clock(10_000, 80, clock),
            m3u8_cache: M3u8Cache::with_clock(1_500, 200, clock),
            channel_states: ChannelTable::new(),
            chrome_path,
            clock,
        }
    }

    /// The CCTV channel with an id.
    pub fn find_cctv(&self, channel_id: &str) -> (r: Option<&CctvChannel>)
        ensures
            match r {
                Some(c) => first_with(self.cctv(), cctv_id(), channel_id@) == Some(c@),
                None => first_with(self.cctv(), cctv_id(), channel_id@) is None,
            },
    {
        match cctv_place(&self.cctv_channels, channel_id) {
            Some(i) => Some(&self.cctv_channels[i]),
            None => None,
        }
    }

    /// The provincial channel with an id.
    pub fn find_channel(&self, id: &str) -> (r: Option<&Channel>)
        ensures
            match r {
                Some(c) => first_with(self.provincial(), channel_id(), id@) == Some(c@),
                None => first_with(self.provincial(), channel_id(), id@) is None,
            },
    {
        match channel_place(&self.channels, id) {
            Some(i) => Some(&self.channels[i]),
            None => None,
        }
    }

    /// Whether a channel is served as a CCTV channel, where `lower` is its id in lower case.
    pub fn is_cctv_given(&self, channel_id: &str, lower: &str) -> (r: bool)
        ensures
            r == (first_with(self.cctv(), cctv_id(), channel_id@) is Some || text::starts_with(
                lower@,
                "cctv"@,
            )),
    {
        self.find_cctv(channel_id).is_some() || str_begins_with(lower, "cctv")
    }

    /// Whether a channel is served as a CCTV channel: it is one of them, or its id begins with
    /// `cctv` in whatever case.
    pub fn is_cctv(&self, channel_id: &str) -> (r: bool)
        ensures
            r == (first_with(self.cctv(), cctv_id(), channel_id@) is Some || text::starts_with(
                foreign::lowercase(channel_id@),
                "cctv"@,
            )),
    {
        let lower = channel_id.to_lowercase();
        self.is_cctv_given(channel_id, lower.as_str())
    }

    /// Whether the channel's address is signed by the native library.
    pub fn is_signed_channel(&self, channel_id: &str) -> (r: bool)
        ensures
            r == is_signed(channel_id@),
    {
        is_signed_id(channel_id)
    }

    /// The state of a channel, which is made where there is none.
    pub fn get_or_create_channel_state(&mut self, channel_id: &str) -> (r: ChannelState)
        ensures
            r@ == facts_of(old(self).channel_states@, channel_id@),
            final(self).channel_states@ == opened(old(self).channel_states@, channel_id@),
            final(self).same_setup(old(self)),
            final(self).stream_cache == old(self).stream_cache,
            final(self).segment_cache == old(self).segment_cache,
            final(self).m3u8_cache == old(self).m3u8_cache,
    {
        self.channel_states.get_or_create(channel_id)
    }

    /// The rule of a channel: the first whose prefix the channel's id begins with.
    pub fn site_rule_for(&self, channel_id: &str) -> (r: Option<&SiteRule>)
        ensures
            match r {
                Some(rule) => rule_of(self.rules(), channel_id@) == Some(rule@),
                None => rule_of(self.rules(), channel_id@) is None,
            },
    {
        let mut i: usize = 0;
        while i < self.site_rules.len()
            invariant
                i <= self.site_rules@.len(),
                rule_place_from(self.rules(), channel_id@, 0) == rule_place_from(
                    self.rules(),
                    channel_id@,
                    i as int,
                ),
            decreases self.site_rules.len() - i,
        {
            assert(self.rules()[i as int] == self.site_rules@[i as int]@);
            if str_begins_with(channel_id, self.site_rules[i].prefix.as_str()) {
                return Some(&self.site_rules[i]);
            }
            i = i + 1;
        }
        None
    }

    /// The headers of a request for a stream of a channel, where `origin` is that of the stream.
    pub fn headers_from(&self, channel_id: &str, origin: Option<UrlOrigin>) -> (r: Vec<
        (String, String),
    >)
        ensures
            header_views(r@) == request_headers(
                rule_of(self.rules(), channel_id@),
                foreign::opt_origin(origin),
                self.user_agent@,
                channel_id@,
            ),
    {
        let mut headers: Vec<(String, String)> = Vec::new();
        assert(header_views(headers@) =~= seq![]);
        add_header(&mut headers, "Accept", "*/*");
        add_header(&mut headers, "Accept-Language", "zh-CN,zh;q=0.9");
        add_header(&mut headers, "Accept-Encoding", "identity");
        add_header(&mut headers, "Connection", "keep-alive");
        let ghost general = header_views(headers@);
        assert(general =~= seq![
            ("Accept"@, "*/*"@),
            ("Accept-Language"@, "zh-CN,zh;q=0.9"@),
            ("Accept-Encoding"@, "identity"@),
            ("Connection"@, "keep-alive"@),
        ]);
        let ghost rule_record = rule_of(self.rules(), channel_id@);
        let ghost origin_record = foreign::opt_origin(origin);
        if let Some(rule) = self.site_rule_for(channel_id) {
            if let Some(t) = &rule.referer {
                add_header(&mut headers, "Referer", t.as_str());
            }
            if let Some(t) = &rule.origin {
                add_header(&mut headers, "Origin", t.as_str());
            }
        } else if let Some(o) = origin {
            let place_of_origin = make_scheme_host(&o);
            let mut referer = place_of_origin.clone();
            referer.append("/");
            add_header(&mut headers, "Referer", referer.as_str());
            add_header(&mut headers, "Origin", place_of_origin.as_str());
        }
        assert(header_views(headers@) =~= general + origin_headers(rule_record, origin_record));
        if str_begins_with(channel_id, "sh_") {
            add_header(
                &mut headers,
                "User-Agent",
                "Mozilla/5.0 (Windows NT 10.0; Win64; x64) AppleWebKit/537.36 (KHTML, like Gecko) Chrome/150.0.0.0 Safari/537.36",
            );
        } else {
            add_header(&mut headers, "User-Agent", self.user_agent.as_str());
        }
        headers
    }

    /// The headers of a request for the stream at `stream_url` of a channel.
    pub fn referer_headers(&self, channel_id: &str, stream_url: &str) -> (r: Vec<(String, String)>)
        ensures
            header_views(r@) == request_headers(
                rule_of(self.rules(), channel_id@),
                foreign::url_origin(stream_url@),
                self.user_agent@,
                channel_id@,
            ),
    {
        match parse_url(stream_url) {
            Ok(o) => self.headers_from(channel_id, Some(o)),
            Err(_) => self.headers_from(channel_id, None),
        }
    }
}

// ─── Laws ────────────────────────────────────────────────────────────────────

/// The channels whose addresses are signed are those whose ids begin with the letters of one of
/// four provinces and an underscore.
pub proof fn law_signed_channels_are_those_of_four_provinces(id: Seq<char>)
    ensures
        is_signed(id) <==> id.len() >= 3 && id[2] == '_' && ((id[0] == 'j' && id[1] == 's') || (id[0]
            == 'z' && id[1] == 'j') || (id[0] == 's' && id[1] == 'd') || (id[0] == 's' && id[1]
            == 'h')),
{
    reveal_strlit("js_");
    reveal_strlit("zj_");
    reveal_strlit("sd_");
    reveal_strlit("sh_");
    assert("js_"@ =~= seq!['j', 's', '_']);
    assert("zj_"@ =~= seq!['z', 'j', '_']);
    assert("sd_"@ =~= seq!['s', 'd', '_']);
    assert("sh_"@ =~= seq!['s', 'h', '_']);
    if id.len() >= 3 {
        let head = id.subrange(0, 3);
        assert(head[0] == id[0] && head[1] == id[1] && head[2] == id[2]);
        assert(head =~= seq![id[0], id[1], id[2]]);
        if is_signed(id) {
            assert(head == seq!['j', 's', '_'] || head == seq!['z', 'j', '_'] || head == seq![
                's',
                'd',
                '_',
            ] || head == seq!['s', 'h', '_']);
        }
    }
}

/// An item is found by its id where no item before it has that id, and nothing is found where no
/// item has it.
pub proof fn law_first_item_of_an_id_is_found<R>(
    list: Seq<R>,
    id: spec_fn(R) -> Seq<char>,
    key: Seq<char>,
    i: int,
)
    ensures
        0 <= i < list.len() && id(list[i]) == key && (forall|j: int|
            0 <= j < i ==> id(#[trigger] list[j]) != key) ==> first_with(list, id, key) == Some(
            list[i],
        ),
        (forall|j: int| 0 <= j < list.len() ==> id(#[trigger] list[j]) != key) ==> first_with(
            list,
            id,
            key,
        ) is None,
{
    let ids = ids_of(list, id);
    lemma_place_from(ids, key, 0);
    assert(forall|j: int| 0 <= j < list.len() ==> #[trigger] ids[j] == id(list[j]));
    if 0 <= i < list.len() && id(list[i]) == key && (forall|j: int|
        0 <= j < i ==> id(#[trigger] list[j]) != key) {
        assert(ids[i] == key);
        let at = place(ids, key)->0;
        assert(ids[at] == key);
        if at < i {
            assert(id(list[at]) != key);
        }
    }
    if forall|j: int| 0 <= j < list.len() ==> id(#[trigger] list[j]) != key {
        if let Some(at) = place(ids, key) {
            assert(ids[at] == key && id(list[at]) != key);
        }
    }
}

/// A channel has no rule where its id begins with the prefix of none.
pub proof fn law_no_rule_applies_without_its_prefix(rules: Seq<db::RuleRecord>, id: Seq<char>)
    requires
        forall|j: int|
            0 <= j < rules.len() ==> !text::starts_with(id, (#[trigger] rules[j]).prefix),
    ensures
        rule_of(rules, id) is None,
{
    if rules.len() > 0 {
        lemma_rules_passed_over(rules, id, 0, rules.len() - 1);
        assert(rule_place_from(rules, id, rules.len() as int) is None);
    }
}

/// The headers of a request: four that all requests have; then, where the channel has a rule, the
/// referer and the origin that the rule names, each as it is, or, where it has none, those of the
/// stream's own origin; and the user agent last, which is that of the proxy but for the channels of
/// one province.
pub proof fn law_requests_name_where_they_come_from(
    rule: Option<db::RuleRecord>,
    origin: Option<foreign::Origin>,
    user_agent: Seq<char>,
    id: Seq<char>,
)
    ensures
        ({
            let h = request_headers(rule, origin, user_agent, id);
            let referer = match rule {
                Some(r) => r.referer,
                None => match origin {
                    Some(o) => Some(
                        o.scheme + "://"@ + (match o.host {
                            Some(host) => host,
                            None => seq![],
                        }) + "/"@,
                    ),
                    None => None,
                },
            };
            let source = match rule {
                Some(r) => r.origin,
                None => match origin {
                    Some(o) => Some(
                        o.scheme + "://"@ + match o.host {
                            Some(host) => host,
                            None => seq![],
                        },
                    ),
                    None => None,
                },
            };
            let n: int = if referer is Some {
                5
            } else {
                4
            };
            let m: int = if source is Some {
                n + 1
            } else {
                n
            };
            &&& h.len() == m + 1
            &&& h[0] == ("Accept"@, "*/*"@)
            &&& h[1] == ("Accept-Language"@, "zh-CN,zh;q=0.9"@)
            &&& h[2] == ("Accept-Encoding"@, "identity"@)
            &&& h[3] == ("Connection"@, "keep-alive"@)
            &&& (referer is Some ==> h[4] == ("Referer"@, referer->0))
            &&& (source is Some ==> h[n] == ("Origin"@, source->0))
            &&& h[m].0 == "User-Agent"@
            &&& (!(id.len() >= 3 && id[0] == 's' && id[1] == 'h' && id[2] == '_') ==> h[m].1
                == user_agent)
            &&& (id.len() >= 3 && id[0] == 's' && id[1] == 'h' && id[2] == '_' ==> h[m].1
                == "Mozilla/5.0 (Windows NT 10.0; Win64; x64) AppleWebKit/537.36 (KHTML, like Gecko) Chrome/150.0.0.0 Safari/537.36"@)
        }),
{
    reveal_strlit("sh_");
    assert("sh_"@ =~= seq!['s', 'h', '_']);
    if id.len() >= 3 {
        let head = id.subrange(0, 3);
        assert(head[0] == id[0] && head[1] == id[1] && head[2] == id[2]);
        assert(head =~= seq![id[0], id[1], id[2]]);
    }
    assert(text::starts_with(id, "sh_"@) <==> id.len() >= 3 && id[0] == 's' && id[1] == 'h' && id[2]
        == '_');
}

/// A channel that was never asked for has no stream, is not being fetched and has no viewers; and to
/// open what is known of a channel keeps it.
pub proof fn law_unknown_channels_have_nothing(m: Map<Seq<char>, ChannelFacts>, id: Seq<char>)
    ensures
        !m.dom().contains(id) ==> facts_of(m, id).stream_url is None && facts_of(
            m,
            id,
        ).stream_url_fetched_at is None && !facts_of(m, id).fetching && facts_of(m, id).viewer_count
            == 0,
        m.dom().contains(id) ==> facts_of(m, id) == m[id],
        opened(m, id).dom() == m.dom().insert(id),
        facts_of(opened(m, id), id) == facts_of(m, id),
{
    assert(opened(m, id).dom() =~= m.dom().insert(id));
}

/// The item of an id is the one that no item with that id follows, and there is none where no item
/// has it.
pub proof fn law_last_item_of_an_id_counts<R>(
    list: Seq<R>,
    id: spec_fn(R) -> Seq<char>,
    key: Seq<char>,
    i: int,
)
    ensures
        0 <= i < list.len() && id(list[i]) == key && (forall|j: int|
            i < j < list.len() ==> id(#[trigger] list[j]) != key) ==> last_with(list, id, key)
            == Some(list[i]),
        (forall|j: int| 0 <= j < list.len() ==> id(#[trigger] list[j]) != key) ==> last_with(
            list,
            id,
            key,
        ) is None,
    decreases list.len(),
{
    if list.len() > 0 {
        let rest = list.drop_last();
        assert(forall|j: int| 0 <= j < rest.len() ==> rest[j] == list[j]);
        law_last_item_of_an_id_counts(rest, id, key, i);
        assert(list[list.len() - 1] == list.last());
    }
}

/// A list that repeats no id is keyed as it is, in its order.
pub proof fn law_lists_without_repeats_stay<R>(list: Seq<R>, id: spec_fn(R) -> Seq<char>)
    requires
        forall|i: int, j: int|
            0 <= i < j < list.len() ==> id(#[trigger] list[i]) != id(#[trigger] list[j]),
    ensures
        keyed(list, id) == list,
    decreases list.len(),
{
    if list.len() > 0 {
        let rest = list.drop_last();
        law_lists_without_repeats_stay(rest, id);
        let ids = ids_of(rest, id);
        lemma_place_from(ids, id(list.last()), 0);
        if let Some(at) = place(ids, id(list.last())) {
            assert(ids[at] == id(rest[at]));
            assert(id(list[at]) != id(list[list.len() - 1]));
        }
        assert(keyed(list, id) =~= list);
    }
}

} // verus!
