//! Caches: stream addresses by channel and host, media segments and rewritten playlists.
use crate::foreign;
use crate::foreign::{parse_url, write_json_object, Member, MemberView, Param, ParamView};
use crate::m3u8;
use crate::store;
use crate::store::{
    count, insert, lookup, pairs, remove, stamps, wall_nanos, Stamped, Stored, Ticker,
    NANOS_PER_MILLI,
};
use dashmap::DashMap;
use vstd::prelude::*;

verus! {

// ─── Stream addresses ────────────────────────────────────────────────────────

/// A stream address that was found for a channel.
#[derive(Debug, Clone)]
pub struct StreamEntry {
    pub channel_id: String,
    pub original_url: String,
    pub stream_url: String,
    pub source: String,
    /// In nanoseconds from the Unix epoch.
    pub expires_at: i128,
    pub hit_count: u64,
}

/// What a [`StreamEntry`] holds, as character sequences and numbers.
pub struct StreamRecord {
    pub channel_id: Seq<char>,
    pub original_url: Seq<char>,
    pub stream_url: Seq<char>,
    pub source: Seq<char>,
    pub expires_at: i128,
    pub hit_count: u64,
}

impl View for StreamEntry {
    type V = StreamRecord;

    open spec fn view(&self) -> StreamRecord {
        StreamRecord {
            channel_id: self.channel_id@,
            original_url: self.original_url@,
            stream_url: self.stream_url@,
            source: self.source@,
            expires_at: self.expires_at,
            hit_count: self.hit_count,
        }
    }
}

/// The contents of a table of stream addresses.
pub uninterp spec fn stream_contents(m: DashMap<String, StreamEntry>) -> Map<
    Seq<char>,
    StreamRecord,
>;

impl Stored for StreamEntry {
    type Record = StreamRecord;

    open spec fn record(&self) -> StreamRecord {
        self@
    }

    open spec fn contents(m: DashMap<String, Self>) -> Map<Seq<char>, StreamRecord> {
        stream_contents(m)
    }
}

/// `DashMap::new`. Believed: the table is empty.
#[verifier::external_body]
fn new_stream_table() -> (r: DashMap<String, StreamEntry>)
    ensures
        stream_contents(r).dom() == Set::<Seq<char>>::empty(),
{
    DashMap::new()
}

/// `DashMap::retain` with the test [`StreamEntry::is_valid_at`]. Believed: the keys whose values
/// pass the test stay, with their values, and no others.
#[verifier::external_body]
fn retain_valid(m: &mut DashMap<String, StreamEntry>, now: i128)
    ensures
        stream_contents(*final(m)) == only_valid(stream_contents(*old(m)), now),
{
    m.retain(|_, e| e.is_valid_at(now));
}

impl StreamEntry {
    /// Whether the entry is valid at the time `now`.
    pub fn is_valid_at(&self, now: i128) -> (r: bool)
        ensures
            r == valid_at(self@, now),
    {
        self.expires_at > now
    }

    /// Whether the entry is valid by the wall clock.
    pub fn is_valid(&self) -> (r: bool)
        ensures
            exists|now: i128|
                store::is_wall_reading(now) && r == #[trigger] valid_at(self@, now),
    {
        let now: i128 = wall_nanos();
        self.is_valid_at(now)
    }
}

/// A record is valid at the time `now`.
pub open spec fn valid_at(r: StreamRecord, now: i128) -> bool {
    r.expires_at > now
}

/// The entries that are valid at the time `now`.
pub open spec fn only_valid(m: Map<Seq<char>, StreamRecord>, now: i128) -> Map<
    Seq<char>,
    StreamRecord,
> {
    m.restrict(Set::new(|k: Seq<char>| m.dom().contains(k) && m[k].expires_at > now))
}

/// The key of a channel's address: its id and the host of the page that it was found on. Nothing
/// where the address of the page cannot be read.
pub open spec fn stream_key(channel_id: Seq<char>, url: Seq<char>) -> Option<Seq<char>> {
    match foreign::url_origin(url) {
        Some(o) => Some(channel_id + ":"@ + m3u8::host_or_empty(o)),
        None => None,
    }
}

/// The end of a time to live that begins at `now`, or the end of all time where it lies behind
/// that.
pub open spec fn deadline(now: i128, ttl_ms: u64) -> i128 {
    if now + ttl_ms * NANOS_PER_MILLI > i128::MAX {
        i128::MAX
    } else {
        (now + ttl_ms * NANOS_PER_MILLI) as i128
    }
}

/// What looking a key up at the time `now` finds: the address of a valid entry.
pub open spec fn found_at(
    m: Map<Seq<char>, StreamRecord>,
    key: Option<Seq<char>>,
    now: i128,
) -> Option<Seq<char>> {
    match key {
        Some(k) => if m.dom().contains(k) && m[k].expires_at > now {
            Some(m[k].stream_url)
        } else {
            None
        },
        None => None,
    }
}

/// What looking a key up at the time `now` leaves: an entry that is no longer valid goes, a valid
/// one counts the look-up.
pub open spec fn left_at(
    m: Map<Seq<char>, StreamRecord>,
    key: Option<Seq<char>>,
    now: i128,
) -> Map<Seq<char>, StreamRecord> {
    match key {
        Some(k) => if !m.dom().contains(k) {
            m
        } else if m[k].expires_at > now {
            m.insert(
                k,
                StreamRecord { hit_count: m[k].hit_count.wrapping_add(1u64), ..m[k] },
            )
        } else {
            m.remove(k)
        },
        None => m,
    }
}

/// What setting an address at the time `now` leaves.
pub open spec fn set_at_leaves(
    m: Map<Seq<char>, StreamRecord>,
    channel_id: Seq<char>,
    url: Seq<char>,
    stream_url: Seq<char>,
    source: Seq<char>,
    ttl_ms: u64,
    now: i128,
) -> Map<Seq<char>, StreamRecord> {
    match stream_key(channel_id, url) {
        Some(k) => m.insert(
            k,
            StreamRecord {
                channel_id,
                original_url: url,
                stream_url,
                source,
                expires_at: deadline(now, ttl_ms),
                hit_count: 0,
            },
        ),
        None => m,
    }
}

/// What forgetting a key leaves.
pub open spec fn without_key(m: Map<Seq<char>, StreamRecord>, key: Option<Seq<char>>) -> Map<
    Seq<char>,
    StreamRecord,
> {
    match key {
        Some(k) => m.remove(k),
        None => m,
    }
}

/// The look-ups that all entries have counted, wrapped around at the end of the counter's range.
pub open spec fn total_hits(m: Map<Seq<char>, StreamRecord>, keys: Seq<Seq<char>>) -> u64
    decreases keys.len(),
{
    if keys.len() == 0 {
        0
    } else {
        total_hits(m, keys.drop_last()).wrapping_add(m[keys.last()].hit_count)
    }
}

/// Counts of a cache.
#[derive(Debug, Clone, Copy)]
pub struct CacheStats {
    pub total_entries: usize,
    pub valid_entries: usize,
    pub total_hits: u64,
}

impl CacheStats {
    /// The members of the JSON text of the counts.
    pub open spec fn members(&self) -> Seq<(Seq<char>, MemberView)> {
        seq![
            (
                "total_entries"@,
                MemberView::Plain(ParamView::Number(self.total_entries as u64)),
            ),
            (
                "valid_entries"@,
                MemberView::Plain(ParamView::Number(self.valid_entries as u64)),
            ),
            ("total_hits"@, MemberView::Plain(ParamView::Number(self.total_hits))),
        ]
    }

    /// The counts as JSON text.
    pub fn to_text(&self) -> (r: String)
        ensures
            r@ == foreign::json_object(self.members()),
    {
        let mut members: Vec<(String, Member)> = Vec::new();
        members.push(
            (
                "total_entries".to_owned(),
                Member::Plain(Param::Number(self.total_entries as u64)),
            ),
        );
        members.push(
            (
                "valid_entries".to_owned(),
                Member::Plain(Param::Number(self.valid_entries as u64)),
            ),
        );
        members.push(("total_hits".to_owned(), Member::Plain(Param::Number(self.total_hits))));
        assert(foreign::member_views(members@) =~= self.members());
        write_json_object(&members)
    }
}

/// Stream addresses that were found, each for a time. Keyed by channel id and host.
pub struct StreamCache {
    inner: DashMap<String, StreamEntry>,
    ttl_ms: u64,
}

impl View for StreamCache {
    type V = Map<Seq<char>, StreamRecord>;

    closed spec fn view(&self) -> Map<Seq<char>, StreamRecord> {
        stream_contents(self.inner)
    }
}

impl StreamCache {
    /// How long an entry is valid, in milliseconds.
    pub closed spec fn ttl(&self) -> u64 {
        self.ttl_ms
    }

    /// An empty cache whose entries are valid for `ttl_ms` milliseconds.
    pub fn new(ttl_ms: u64) -> (r: Self)
        ensures
            r@ == Map::<Seq<char>, StreamRecord>::empty(),
            r@.dom().finite(),
            r.ttl() == ttl_ms,
    {
        let r = StreamCache { inner: new_stream_table(), ttl_ms };
        assert(r@ =~= Map::<Seq<char>, StreamRecord>::empty());
        r
    }

    /// The key of a channel's address.
    pub fn make_key(channel_id: &str, url: &str) -> (r: Option<String>)
        ensures
            match r {
                Some(k) => stream_key(channel_id@, url@) == Some(k@),
                None => stream_key(channel_id@, url@) is None,
            },
    {
        match parse_url(url) {
            Ok(o) => {
                let mut key = channel_id.to_owned();
                key.append(":");
                if let Some(h) = &o.host {
                    key.append(h.as_str());
                } else {
                    assert(key@ =~= stream_key(channel_id@, url@)->0);
                }
                Some(key)
            },
            Err(_) => None,
        }
    }

    /// The address of a channel that is valid at the time `now`.
    pub fn get_at(&mut self, channel_id: &str, original_url: &str, now: i128) -> (r: Option<String>)
        ensures
            foreign::opt_view(r) == found_at(old(self)@, stream_key(channel_id@, original_url@), now),
            final(self)@ == left_at(old(self)@, stream_key(channel_id@, original_url@), now),
            final(self).ttl() == old(self).ttl(),
    {
        let key = match Self::make_key(channel_id, original_url) {
            Some(k) => k,
            None => return None,
        };
        match lookup(&self.inner, key.as_str()) {
            Some(found) => {
                if !found.is_valid_at(now) {
                    remove(&mut self.inner, key.as_str());
                    return None;
                }
                let mut counted = found;
                let url = counted.stream_url.clone();
                counted.hit_count = counted.hit_count.wrapping_add(1);
                insert(&mut self.inner, key, counted);
                Some(url)
            },
            None => None,
        }
    }

    /// The address of a channel that is valid by the wall clock.
    pub fn get(&mut self, channel_id: &str, original_url: &str) -> (r: Option<String>)
        ensures
            exists|now: i128|
                {
                    &&& store::is_wall_reading(now)
                    &&& foreign::opt_view(r) == #[trigger] found_at(
                        old(self)@,
                        stream_key(channel_id@, original_url@),
                        now,
                    )
                    &&& final(self)@ == left_at(
                        old(self)@,
                        stream_key(channel_id@, original_url@),
                        now,
                    )
                },
            final(self).ttl() == old(self).ttl(),
    {
        let now: i128 = wall_nanos();
        self.get_at(channel_id, original_url, now)
    }

    /// Sets the address of a channel at the time `now`.
    pub fn set_at(
        &mut self,
        channel_id: &str,
        original_url: &str,
        stream_url: &str,
        source: &str,
        now: i128,
    )
        ensures
            final(self)@ == set_at_leaves(
                old(self)@,
                channel_id@,
                original_url@,
                stream_url@,
                source@,
                old(self).ttl(),
                now,
            ),
            final(self).ttl() == old(self).ttl(),
    {
        let key = match Self::make_key(channel_id, original_url) {
            Some(k) => k,
            None => return ,
        };
        let life: i128 = self.ttl_ms as i128 * 1_000_000;
        let expires_at: i128 = if now > i128::MAX - life {
            i128::MAX
        } else {
            now + life
        };
        insert(
            &mut self.inner,
            key,
            StreamEntry {
                channel_id: channel_id.to_owned(),
                original_url: original_url.to_owned(),
                stream_url: stream_url.to_owned(),
                source: source.to_owned(),
                expires_at,
                hit_count: 0,
            },
        );
    }

    /// Sets the address of a channel by the wall clock.
    pub fn set(&mut self, channel_id: &str, original_url: &str, stream_url: &str, source: &str)
        ensures
            exists|now: i128|
                store::is_wall_reading(now) && final(self)@ == #[trigger] set_at_leaves(
                    old(self)@,
                    channel_id@,
                    original_url@,
                    stream_url@,
                    source@,
                    old(self).ttl(),
                    now,
                ),
            final(self).ttl() == old(self).ttl(),
    {
        let now: i128 = wall_nanos();
        self.set_at(channel_id, original_url, stream_url, source, now);
    }

    /// Forgets the address of a channel.
    pub fn invalidate(&mut self, channel_id: &str, original_url: &str)
        ensures
            final(self)@ == without_key(old(self)@, stream_key(channel_id@, original_url@)),
            final(self).ttl() == old(self).ttl(),
    {
        if let Some(key) = Self::make_key(channel_id, original_url) {
            remove(&mut self.inner, key.as_str());
        }
    }

    /// Forgets every entry that is not valid at the time `now`.
    pub fn cleanup_expired_at(&mut self, now: i128)
        ensures
            final(self)@ == only_valid(old(self)@, now),
            final(self).ttl() == old(self).ttl(),
    {
        retain_valid(&mut self.inner, now);
    }

    /// Forgets every entry that is not valid by the wall clock.
    pub fn cleanup_expired(&mut self)
        ensures
            exists|now: i128|
                store::is_wall_reading(now) && final(self)@ == #[trigger] only_valid(
                    old(self)@,
                    now,
                ),
            final(self).ttl() == old(self).ttl(),
    {
        let now: i128 = wall_nanos();
        self.cleanup_expired_at(now);
    }

    /// The entries, in no particular order.
    pub fn all_entries(&self) -> (r: Vec<StreamEntry>)
        ensures
            exists|keys: Seq<Seq<char>>|
                #[trigger] store::lists_keys(self@, keys) && keys.len() == r@.len() && forall|
                    i: int,
                |
                    0 <= i < r@.len() ==> (#[trigger] r@[i])@ == self@[keys[i]],
    {
        let listed = pairs(&self.inner);
        let ghost keys = store::pair_keys(listed@);
        let mut out: Vec<StreamEntry> = Vec::new();
        let mut i: usize = 0;
        while i < listed.len()
            invariant
                i <= listed@.len(),
                out@.len() == i,
                keys == store::pair_keys(listed@),
                forall|j: int|
                    0 <= j < listed@.len() ==> self@[(#[trigger] listed@[j]).0@]
                        == listed@[j].1.record(),
                forall|j: int| 0 <= j < i ==> (#[trigger] out@[j])@ == self@[keys[j]],
            decreases listed.len() - i,
        {
            let e = &listed[i].1;
            assert(keys[i as int] == listed@[i as int].0@);
            assert(self@[keys[i as int]] == listed@[i as int].1.record());
            out.push(
                StreamEntry {
                    channel_id: e.channel_id.clone(),
                    original_url: e.original_url.clone(),
                    stream_url: e.stream_url.clone(),
                    source: e.source.clone(),
                    expires_at: e.expires_at,
                    hit_count: e.hit_count,
                },
            );
            i = i + 1;
        }
        assert(store::lists_keys(self@, keys));
        out
    }

    /// The counts of the cache at the time `now`.
    pub fn stats_at(&self, now: i128) -> (r: CacheStats)
        ensures
            r.total_entries == self@.dom().len(),
            r.valid_entries == only_valid(self@, now).dom().len(),
            exists|keys: Seq<Seq<char>>| #[trigger]
                store::lists_keys(self@, keys) && r.total_hits == total_hits(self@, keys),
    {
        let listed = pairs(&self.inner);
        let ghost keys = store::pair_keys(listed@);
        let ghost mut ok: Set<Seq<char>> = Set::empty();
        let mut valid: usize = 0;
        let mut hits: u64 = 0;
        let mut i: usize = 0;
        assert(keys.take(0) =~= seq![]);
        while i < listed.len()
            invariant
                i <= listed@.len(),
                keys == store::pair_keys(listed@),
                store::lists_keys(self@, keys),
                forall|j: int|
                    0 <= j < listed@.len() ==> self@[(#[trigger] listed@[j]).0@]
                        == listed@[j].1.record(),
                hits == total_hits(self@, keys.take(i as int)),
                valid <= i,
                ok.finite(),
                valid == ok.len(),
                forall|k: Seq<char>| #[trigger]
                    ok.contains(k) <==> keys.take(i as int).contains(k) && self@[k].expires_at
                        > now,
            decreases listed.len() - i,
        {
            let e = &listed[i].1;
            let ghost key = keys[i as int];
            proof {
                assert(key == listed@[i as int].0@);
                assert(self@[key] == e@);
                assert(keys.take(i + 1).drop_last() =~= keys.take(i as int));
                assert(keys.take(i + 1).last() == key);
                store::lemma_next_key(keys, i as int);
            }
            if e.is_valid_at(now) {
                valid = valid + 1;
                proof {
                    ok = ok.insert(key);
                }
            }
            hits = hits.wrapping_add(e.hit_count);
            i = i + 1;
        }
        proof {
            assert(keys.take(keys.len() as int) =~= keys);
            assert(ok =~= only_valid(self@, now).dom()) by {
                assert forall|k: Seq<char>| #[trigger]
                    ok.contains(k) <==> only_valid(self@, now).dom().contains(k) by {
                    assert(keys.contains(k) <==> self@.dom().contains(k));
                }
            }
            keys.unique_seq_to_set();
            assert(keys.to_set() =~= self@.dom()) by {
                assert forall|k: Seq<char>| #[trigger]
                    keys.to_set().contains(k) <==> self@.dom().contains(k) by {
                    assert(keys.contains(k) <==> self@.dom().contains(k));
                }
            }
        }
        CacheStats { total_entries: listed.len(), valid_entries: valid, total_hits: hits }
    }

    /// The counts of the cache by the wall clock.
    pub fn stats(&self) -> (r: CacheStats)
        ensures
            r.total_entries == self@.dom().len(),
            exists|now: i128|
                store::is_wall_reading(now) && r.valid_entries == (#[trigger] only_valid(
                    self@,
                    now,
                )).dom().len(),
            exists|keys: Seq<Seq<char>>| #[trigger]
                store::lists_keys(self@, keys) && r.total_hits == total_hits(self@, keys),
    {
        let now: i128 = wall_nanos();
        self.stats_at(now)
    }
}

proof fn lemma_hits_fold(m: Map<Seq<char>, StreamRecord>, keys: Seq<Seq<char>>)
    ensures
        total_hits(m, keys) == keys.fold_left(
            0u64,
            |sum: u64, k: Seq<char>| sum.wrapping_add(m[k].hit_count),
        ),
    decreases keys.len(),
{
    if keys.len() > 0 {
        lemma_hits_fold(m, keys.drop_last());
    }
}

/// The number of look-ups counted is the same in whatever order the entries are met.
pub proof fn law_hits_do_not_depend_on_order(
    m: Map<Seq<char>, StreamRecord>,
    keys: Seq<Seq<char>>,
    others: Seq<Seq<char>>,
)
    requires
        store::lists_keys(m, keys),
        store::lists_keys(m, others),
    ensures
        total_hits(m, keys) == total_hits(m, others),
{
    broadcast use vstd::seq_lib::group_to_multiset_ensures;

    assert(keys.to_multiset() =~= others.to_multiset()) by {
        keys.lemma_multiset_has_no_duplicates();
        others.lemma_multiset_has_no_duplicates();
        assert forall|k: Seq<char>| keys.to_multiset().count(k) == others.to_multiset().count(k) by {
            assert(keys.contains(k) <==> others.contains(k));
        }
    }
    lemma_hits_fold(m, keys);
    lemma_hits_fold(m, others);
    vstd::seq_lib::lemma_fold_left_permutation(
        keys,
        others,
        |sum: u64, k: Seq<char>| sum.wrapping_add(m[k].hit_count),
        0u64,
    );
}

/// An address that was set is found under the same channel and host as long as it is valid, and
/// not afterwards.
pub proof fn law_get_finds_what_was_set(
    m: Map<Seq<char>, StreamRecord>,
    channel_id: Seq<char>,
    url: Seq<char>,
    stream_url: Seq<char>,
    source: Seq<char>,
    ttl_ms: u64,
    set_time: i128,
    get_time: i128,
)
    requires
        stream_key(channel_id, url) is Some,
    ensures
        found_at(
            set_at_leaves(m, channel_id, url, stream_url, source, ttl_ms, set_time),
            stream_key(channel_id, url),
            get_time,
        ) == (if get_time < deadline(set_time, ttl_ms) {
            Some(stream_url)
        } else {
            None
        }),
{
}

/// An entry that is set at a reading of the wall clock expires its whole time to live later: the
/// end of all time does not cut it short.
pub proof fn law_readings_leave_the_time_to_live_whole(now: i128, ttl_ms: u64)
    requires
        store::is_wall_reading(now),
    ensures
        deadline(now, ttl_ms) == now + ttl_ms * NANOS_PER_MILLI,
{
    assert(0 <= ttl_ms * NANOS_PER_MILLI <= u64::MAX * NANOS_PER_MILLI) by (nonlinear_arith)
        requires
            ttl_ms <= u64::MAX,
            NANOS_PER_MILLI == 1_000_000,
    ;
}

/// A channel whose page address cannot be read has no cached address: setting one changes nothing
/// and looking it up finds nothing.
pub proof fn law_unreadable_pages_are_not_cached(
    m: Map<Seq<char>, StreamRecord>,
    channel_id: Seq<char>,
    url: Seq<char>,
    stream_url: Seq<char>,
    source: Seq<char>,
    ttl_ms: u64,
    now: i128,
)
    requires
        foreign::url_origin(url) is None,
    ensures
        set_at_leaves(m, channel_id, url, stream_url, source, ttl_ms, now) == m,
        found_at(m, stream_key(channel_id, url), now) is None,
{
}

/// Two pages on one host share the entry of a channel.
pub proof fn law_pages_of_one_host_share_an_entry(
    channel_id: Seq<char>,
    url: Seq<char>,
    other: Seq<char>,
)
    requires
        foreign::url_origin(url) is Some,
        foreign::url_origin(other) is Some,
        m3u8::host_or_empty(foreign::url_origin(url)->0) == m3u8::host_or_empty(
            foreign::url_origin(other)->0,
        ),
    ensures
        stream_key(channel_id, url) == stream_key(channel_id, other),
{
}

/// An address that was forgotten is not found.
pub proof fn law_invalidated_is_not_found(
    m: Map<Seq<char>, StreamRecord>,
    key: Option<Seq<char>>,
    now: i128,
)
    ensures
        found_at(without_key(m, key), key, now) is None,
{
}

/// Forgetting the entries that are not valid changes no look-up, at that time or later.
pub proof fn law_cleanup_changes_no_look_up(
    m: Map<Seq<char>, StreamRecord>,
    key: Option<Seq<char>>,
    clean_time: i128,
    get_time: i128,
)
    requires
        clean_time <= get_time,
    ensures
        found_at(only_valid(m, clean_time), key, get_time) == found_at(m, key, get_time),
{
}

// ─── Segments and playlists ──────────────────────────────────────────────────

/// Data with the time at which it was put into a cache, in nanoseconds of the cache's clock.
#[derive(Debug, Clone)]
pub struct TimedEntry<T> {
    pub data: T,
    pub inserted: u128,
}

/// What a [`TimedEntry`] holds, as mathematical values.
pub struct TimedRecord<D> {
    pub data: D,
    pub inserted: u128,
}

/// The contents of a table of media segments.
pub uninterp spec fn segment_contents(m: DashMap<String, TimedEntry<Vec<u8>>>) -> Map<
    Seq<char>,
    TimedRecord<Seq<u8>>,
>;

/// The contents of a table of playlists.
pub uninterp spec fn playlist_contents(m: DashMap<String, TimedEntry<String>>) -> Map<
    Seq<char>,
    TimedRecord<Seq<char>>,
>;

impl Stored for TimedEntry<Vec<u8>> {
    type Record = TimedRecord<Seq<u8>>;

    open spec fn record(&self) -> TimedRecord<Seq<u8>> {
        TimedRecord { data: self.data@, inserted: self.inserted }
    }

    open spec fn contents(m: DashMap<String, Self>) -> Map<Seq<char>, TimedRecord<Seq<u8>>> {
        segment_contents(m)
    }
}

impl Stored for TimedEntry<String> {
    type Record = TimedRecord<Seq<char>>;

    open spec fn record(&self) -> TimedRecord<Seq<char>> {
        TimedRecord { data: self.data@, inserted: self.inserted }
    }

    open spec fn contents(m: DashMap<String, Self>) -> Map<Seq<char>, TimedRecord<Seq<char>>> {
        playlist_contents(m)
    }
}

impl Stamped for TimedEntry<Vec<u8>> {
    open spec fn stamp_of(r: TimedRecord<Seq<u8>>) -> u128 {
        r.inserted
    }

    fn stamp(&self) -> (r: u128) {
        self.inserted
    }
}

impl Stamped for TimedEntry<String> {
    open spec fn stamp_of(r: TimedRecord<Seq<char>>) -> u128 {
        r.inserted
    }

    fn stamp(&self) -> (r: u128) {
        self.inserted
    }
}

/// `DashMap::new`. Believed: the table is empty.
#[verifier::external_body]
fn new_segment_table() -> (r: DashMap<String, TimedEntry<Vec<u8>>>)
    ensures
        segment_contents(r).dom() == Set::<Seq<char>>::empty(),
{
    DashMap::new()
}

/// `DashMap::new`. Believed: the table is empty.
#[verifier::external_body]
fn new_playlist_table() -> (r: DashMap<String, TimedEntry<String>>)
    ensures
        playlist_contents(r).dom() == Set::<Seq<char>>::empty(),
{
    DashMap::new()
}

/// More than `ttl_ms` milliseconds lie between the times `inserted` and `now`.
pub open spec fn outlived(inserted: u128, ttl_ms: u64, now: u128) -> bool {
    now - inserted > ttl_ms * NANOS_PER_MILLI
}

/// Whether more than `ttl_ms` milliseconds lie between the times `inserted` and `now`.
pub fn is_outlived(inserted: u128, ttl_ms: u64, now: u128) -> (r: bool)
    ensures
        r == outlived(inserted, ttl_ms, now),
{
    let life: u128 = ttl_ms as u128 * 1_000_000;
    now > inserted && now - inserted > life
}

/// What looking a key up at the time `now` finds.
pub open spec fn timed_found<D>(
    m: Map<Seq<char>, TimedRecord<D>>,
    key: Seq<char>,
    ttl_ms: u64,
    now: u128,
) -> Option<D> {
    if m.dom().contains(key) && !outlived(m[key].inserted, ttl_ms, now) {
        Some(m[key].data)
    } else {
        None
    }
}

/// What looking a key up at the time `now` leaves: an entry that has outlived its time goes.
pub open spec fn timed_left<D>(
    m: Map<Seq<char>, TimedRecord<D>>,
    key: Seq<char>,
    ttl_ms: u64,
    now: u128,
) -> Map<Seq<char>, TimedRecord<D>> {
    if m.dom().contains(key) && outlived(m[key].inserted, ttl_ms, now) {
        m.remove(key)
    } else {
        m
    }
}

/// The keys whose entries have outlived their time at the time `now`.
pub open spec fn outlived_keys<D>(
    m: Map<Seq<char>, TimedRecord<D>>,
    ttl_ms: u64,
    now: u128,
) -> Set<Seq<char>> {
    Set::new(|k: Seq<char>| m.dom().contains(k) && outlived(m[k].inserted, ttl_ms, now))
}

/// The keys that make room in a cache of at most `max_size` entries: where it is full, `limit` of
/// those whose entries have outlived their time, or all of them where there are fewer.
pub open spec fn makes_room<D>(
    m: Map<Seq<char>, TimedRecord<D>>,
    gone: Set<Seq<char>>,
    max_size: usize,
    limit: nat,
    ttl_ms: u64,
    now: u128,
) -> bool {
    if m.dom().len() >= max_size {
        let expired = outlived_keys(m, ttl_ms, now);
        &&& gone.finite()
        &&& gone.subset_of(expired)
        &&& gone.len() == if limit <= expired.len() {
            limit
        } else {
            expired.len()
        }
    } else {
        gone == Set::<Seq<char>>::empty()
    }
}

/// Setting a key at the time `now` turns the contents `m` into the contents `next`: some entries
/// make room, and the new one is there.
pub open spec fn timed_set<D>(
    m: Map<Seq<char>, TimedRecord<D>>,
    next: Map<Seq<char>, TimedRecord<D>>,
    key: Seq<char>,
    data: D,
    max_size: usize,
    limit: nat,
    ttl_ms: u64,
    now: u128,
) -> bool {
    exists|gone: Set<Seq<char>>| #[trigger]
        makes_room(m, gone, max_size, limit, ttl_ms, now) && next == m.remove_keys(gone).insert(
            key,
            TimedRecord { data, inserted: now },
        )
}

/// Media segments, each for a time.
pub struct SegmentCache {
    inner: DashMap<String, TimedEntry<Vec<u8>>>,
    ttl_ms: u64,
    max_size: usize,
    clock: Ticker,
}

impl View for SegmentCache {
    type V = Map<Seq<char>, TimedRecord<Seq<u8>>>;

    closed spec fn view(&self) -> Map<Seq<char>, TimedRecord<Seq<u8>>> {
        segment_contents(self.inner)
    }
}

impl SegmentCache {
    /// How long an entry is served, in milliseconds.
    pub closed spec fn ttl(&self) -> u64 {
        self.ttl_ms
    }

    /// The number of entries from which on old ones make room.
    pub closed spec fn limit(&self) -> usize {
        self.max_size
    }

    /// The clock that the cache goes by.
    pub closed spec fn clock(&self) -> Ticker {
        self.clock
    }

    /// An empty cache.
    pub fn new(ttl_ms: u64, max_size: usize) -> (r: Self)
        ensures
            r@ == Map::<Seq<char>, TimedRecord<Seq<u8>>>::empty(),
            r.ttl() == ttl_ms,
            r.limit() == max_size,
            r@.dom().finite(),
    {
        Self::with_clock(ttl_ms, max_size, Ticker::start())
    }

    /// An empty cache that goes by a given clock.
    pub fn with_clock(ttl_ms: u64, max_size: usize, clock: Ticker) -> (r: Self)
        ensures
            r@ == Map::<Seq<char>, TimedRecord<Seq<u8>>>::empty(),
            r.ttl() == ttl_ms,
            r.limit() == max_size,
            r.clock() == clock,
            r@.dom().finite(),
    {
        let r = SegmentCache { inner: new_segment_table(), ttl_ms, max_size, clock };
        assert(r@ =~= Map::<Seq<char>, TimedRecord<Seq<u8>>>::empty());
        r
    }

    /// The segment at an address, at the time `now` of the cache's clock.
    pub fn get_at(&mut self, url: &str, now: u128) -> (r: Option<Vec<u8>>)
        ensures
            match r {
                Some(data) => timed_found(old(self)@, url@, old(self).ttl(), now) == Some(data@),
                None => timed_found(old(self)@, url@, old(self).ttl(), now) is None,
            },
            final(self)@ == timed_left(old(self)@, url@, old(self).ttl(), now),
            final(self).ttl() == old(self).ttl(),
            final(self).limit() == old(self).limit(),
            final(self).clock() == old(self).clock(),
            old(self)@.dom().finite() ==> final(self)@.dom().finite(),
    {
        match lookup(&self.inner, url) {
            Some(found) => {
                if is_outlived(found.inserted, self.ttl_ms, now) {
                    remove(&mut self.inner, url);
                    return None;
                }
                Some(found.data)
            },
            None => None,
        }
    }

    /// The segment at an address.
    pub fn get(&mut self, url: &str) -> (r: Option<Vec<u8>>)
        ensures
            exists|now: u128|
                {
                    &&& store::is_tick(now)
                    &&& match r {
                        Some(data) => timed_found(old(self)@, url@, old(self).ttl(), now) == Some(
                            data@,
                        ),
                        None => timed_found(old(self)@, url@, old(self).ttl(), now) is None,
                    }
                    &&& final(self)@ == #[trigger] timed_left(
                        old(self)@,
                        url@,
                        old(self).ttl(),
                        now,
                    )
                },
            final(self).ttl() == old(self).ttl(),
            final(self).limit() == old(self).limit(),
            final(self).clock() == old(self).clock(),
            old(self)@.dom().finite() ==> final(self)@.dom().finite(),
    {
        let now: u128 = self.clock.nanos();
        self.get_at(url, now)
    }

    /// Sets the segment at an address, at the time `now` of the cache's clock. Where the cache is
    /// full, one entry that has outlived its time makes room, if there is one.
    pub fn set_at(&mut self, url: String, data: Vec<u8>, now: u128)
        ensures
            timed_set(
                old(self)@,
                final(self)@,
                url@,
                data@,
                old(self).limit(),
                1,
                old(self).ttl(),
                now,
            ),
            final(self).ttl() == old(self).ttl(),
            final(self).limit() == old(self).limit(),
            final(self).clock() == old(self).clock(),
            old(self)@.dom().finite() ==> final(self)@.dom().finite(),
    {
        let ghost mut gone: Set<Seq<char>> = Set::empty();
        if count(&self.inner) >= self.max_size {
            let listed = stamps(&self.inner);
            let victims = outlived_of(&listed, self.ttl_ms, now, 1);
            proof {
                lemma_victims_make_room(
                    self@,
                    listed@,
                    self.max_size,
                    1,
                    self.ttl_ms,
                    now,
                );
                gone = foreign::string_views(victims@).to_set();
            }
            remove_all(&mut self.inner, &victims);
        } else {
            assert(self@.remove_keys(gone) =~= self@);
        }
        insert(&mut self.inner, url, TimedEntry { data, inserted: now });
        assert(makes_room(old(self)@, gone, old(self).limit(), 1, old(self).ttl(), now));
        proof {
            if old(self)@.dom().finite() {
                law_timed_contents_stay_finite(
                    old(self)@,
                    self@,
                    url@,
                    data@,
                    old(self).limit(),
                    1,
                    old(self).ttl(),
                    now,
                );
            }
        }
    }

    /// Sets the segment at an address.
    pub fn set(&mut self, url: String, data: Vec<u8>)
        ensures
            exists|now: u128|
                store::is_tick(now) && #[trigger] timed_set(
                    old(self)@,
                    final(self)@,
                    url@,
                    data@,
                    old(self).limit(),
                    1,
                    old(self).ttl(),
                    now,
                ),
            final(self).ttl() == old(self).ttl(),
            final(self).limit() == old(self).limit(),
            final(self).clock() == old(self).clock(),
            old(self)@.dom().finite() ==> final(self)@.dom().finite(),
    {
        let now: u128 = self.clock.nanos();
        self.set_at(url, data, now);
    }
}

/// Rewritten playlists, each for a short time.
pub struct M3u8Cache {
    inner: DashMap<String, TimedEntry<String>>,
    ttl_ms: u64,
    max_size: usize,
    clock: Ticker,
}

impl View for M3u8Cache {
    type V = Map<Seq<char>, TimedRecord<Seq<char>>>;

    closed spec fn view(&self) -> Map<Seq<char>, TimedRecord<Seq<char>>> {
        playlist_contents(self.inner)
    }
}

impl M3u8Cache {
    /// How long an entry is served, in milliseconds.
    pub closed spec fn ttl(&self) -> u64 {
        self.ttl_ms
    }

    /// The number of entries from which on old ones make room.
    pub closed spec fn limit(&self) -> usize {
        self.max_size
    }

    /// The clock that the cache goes by.
    pub closed spec fn clock(&self) -> Ticker {
        self.clock
    }

    /// An empty cache.
    pub fn new(ttl_ms: u64, max_size: usize) -> (r: Self)
        ensures
            r@ == Map::<Seq<char>, TimedRecord<Seq<char>>>::empty(),
            r.ttl() == ttl_ms,
            r.limit() == max_size,
            r@.dom().finite(),
    {
        Self::with_clock(ttl_ms, max_size, Ticker::start())
    }

    /// An empty cache that goes by a given clock.
    pub fn with_clock(ttl_ms: u64, max_size: usize, clock: Ticker) -> (r: Self)
        ensures
            r@ == Map::<Seq<char>, TimedRecord<Seq<char>>>::empty(),
            r.ttl() == ttl_ms,
            r.limit() == max_size,
            r.clock() == clock,
            r@.dom().finite(),
    {
        let r = M3u8Cache { inner: new_playlist_table(), ttl_ms, max_size, clock };
        assert(r@ =~= Map::<Seq<char>, TimedRecord<Seq<char>>>::empty());
        r
    }

    /// The playlist of a key, at the time `now` of the cache's clock.
    pub fn get_at(&mut self, key: &str, now: u128) -> (r: Option<String>)
        ensures
            match r {
                Some(data) => timed_found(old(self)@, key@, old(self).ttl(), now) == Some(data@),
                None => timed_found(old(self)@, key@, old(self).ttl(), now) is None,
            },
            final(self)@ == timed_left(old(self)@, key@, old(self).ttl(), now),
            final(self).ttl() == old(self).ttl(),
            final(self).limit() == old(self).limit(),
            final(self).clock() == old(self).clock(),
            old(self)@.dom().finite() ==> final(self)@.dom().finite(),
    {
        match lookup(&self.inner, key) {
            Some(found) => {
                if is_outlived(found.inserted, self.ttl_ms, now) {
                    remove(&mut self.inner, key);
                    return None;
                }
                Some(found.data)
            },
            None => None,
        }
    }

    /// The playlist of a key.
    pub fn get(&mut self, key: &str) -> (r: Option<String>)
        ensures
            exists|now: u128|
                {
                    &&& store::is_tick(now)
                    &&& match r {
                        Some(data) => timed_found(old(self)@, key@, old(self).ttl(), now) == Some(
                            data@,
                        ),
                        None => timed_found(old(self)@, key@, old(self).ttl(), now) is None,
                    }
                    &&& final(self)@ == #[trigger] timed_left(
                        old(self)@,
                        key@,
                        old(self).ttl(),
                        now,
                    )
                },
            final(self).ttl() == old(self).ttl(),
            final(self).limit() == old(self).limit(),
            final(self).clock() == old(self).clock(),
            old(self)@.dom().finite() ==> final(self)@.dom().finite(),
    {
        let now: u128 = self.clock.nanos();
        self.get_at(key, now)
    }

    /// Sets the playlist of a key, at the time `now` of the cache's clock. Where the cache is
    /// full, up to ten entries that have outlived their time make room.
    pub fn set_at(&mut self, key: String, content: String, now: u128)
        ensures
            timed_set(
                old(self)@,
                final(self)@,
                key@,
                content@,
                old(self).limit(),
                10,
                old(self).ttl(),
                now,
            ),
            final(self).ttl() == old(self).ttl(),
            final(self).limit() == old(self).limit(),
            final(self).clock() == old(self).clock(),
            old(self)@.dom().finite() ==> final(self)@.dom().finite(),
    {
        let ghost mut gone: Set<Seq<char>> = Set::empty();
        if count(&self.inner) >= self.max_size {
            let listed = stamps(&self.inner);
            let victims = outlived_of(&listed, self.ttl_ms, now, 10);
            proof {
                lemma_victims_make_room(
                    self@,
                    listed@,
                    self.max_size,
                    10,
                    self.ttl_ms,
                    now,
                );
                gone = foreign::string_views(victims@).to_set();
            }
            remove_all(&mut self.inner, &victims);
        } else {
            assert(self@.remove_keys(gone) =~= self@);
        }
        insert(&mut self.inner, key, TimedEntry { data: content, inserted: now });
        assert(makes_room(old(self)@, gone, old(self).limit(), 10, old(self).ttl(), now));
        proof {
            if old(self)@.dom().finite() {
                law_timed_contents_stay_finite(
                    old(self)@,
                    self@,
                    key@,
                    content@,
                    old(self).limit(),
                    10,
                    old(self).ttl(),
                    now,
                );
            }
        }
    }

    /// Sets the playlist of a key.
    pub fn set(&mut self, key: String, content: String)
        ensures
            exists|now: u128|
                store::is_tick(now) && #[trigger] timed_set(
                    old(self)@,
                    final(self)@,
                    key@,
                    content@,
                    old(self).limit(),
                    10,
                    old(self).ttl(),
                    now,
                ),
            final(self).ttl() == old(self).ttl(),
            final(self).limit() == old(self).limit(),
            final(self).clock() == old(self).clock(),
            old(self)@.dom().finite() ==> final(self)@.dom().finite(),
    {
        let now: u128 = self.clock.nanos();
        self.set_at(key, content, now);
    }

    /// Forgets the playlist of a key.
    pub fn remove(&mut self, key: &str)
        ensures
            final(self)@ == old(self)@.remove(key@),
            final(self).ttl() == old(self).ttl(),
            final(self).limit() == old(self).limit(),
            final(self).clock() == old(self).clock(),
            old(self)@.dom().finite() ==> final(self)@.dom().finite(),
    {
        remove(&mut self.inner, key);
    }
}

/// The first `limit` keys of a list whose times have been outlived.
pub open spec fn victims_of(listed: Seq<(String, u128)>, ttl_ms: u64, now: u128, limit: nat) -> Seq<
    Seq<char>,
>
    decreases listed.len(),
{
    if listed.len() == 0 {
        seq![]
    } else {
        let before = victims_of(listed.drop_last(), ttl_ms, now, limit);
        if before.len() < limit && outlived(listed.last().1, ttl_ms, now) {
            before.push(listed.last().0@)
        } else {
            before
        }
    }
}

/// What [`victims_of`] picks of a list without repetitions: keys whose times have been outlived, each
/// once, and all of them where they are fewer than the limit.
proof fn lemma_victims_of(listed: Seq<(String, u128)>, ttl_ms: u64, now: u128, limit: nat)
    requires
        store::pair_keys(listed).no_duplicates(),
    ensures
        ({
            let v = victims_of(listed, ttl_ms, now, limit);
            &&& v.no_duplicates()
            &&& v.len() <= limit
            &&& forall|k: Seq<char>| #[trigger]
                v.contains(k) ==> exists|j: int|
                    0 <= j < listed.len() && (#[trigger] listed[j]).0@ == k && outlived(
                        listed[j].1,
                        ttl_ms,
                        now,
                    )
            &&& v.len() < limit ==> forall|j: int|
                0 <= j < listed.len() && outlived((#[trigger] listed[j]).1, ttl_ms, now)
                    ==> v.contains(listed[j].0@)
        }),
    decreases listed.len(),
{
    if listed.len() > 0 {
        let rest = listed.drop_last();
        let before = victims_of(rest, ttl_ms, now, limit);
        let v = victims_of(listed, ttl_ms, now, limit);
        let last = listed.last();
        let keys = store::pair_keys(listed);
        assert(store::pair_keys(rest) =~= keys.drop_last());
        lemma_victims_of(rest, ttl_ms, now, limit);
        assert(!before.contains(last.0@)) by {
            if before.contains(last.0@) {
                let j = choose|j: int|
                    0 <= j < rest.len() && (#[trigger] rest[j]).0@ == last.0@ && outlived(
                        rest[j].1,
                        ttl_ms,
                        now,
                    );
                assert(keys[j] == keys[listed.len() - 1]);
            }
        }
        assert forall|k: Seq<char>| #[trigger] v.contains(k) implies exists|j: int|
            0 <= j < listed.len() && (#[trigger] listed[j]).0@ == k && outlived(
                listed[j].1,
                ttl_ms,
                now,
            ) by {
            if before.contains(k) {
                let j = choose|j: int|
                    0 <= j < rest.len() && (#[trigger] rest[j]).0@ == k && outlived(
                        rest[j].1,
                        ttl_ms,
                        now,
                    );
                assert(listed[j] == rest[j]);
            } else {
                let j = choose|j: int| 0 <= j < v.len() && v[j] == k;
                assert(j < before.len() ==> before[j] == k);
                assert(listed[listed.len() - 1].0@ == k);
            }
        }
        if v.len() < limit {
            assert forall|j: int|
                0 <= j < listed.len() && outlived((#[trigger] listed[j]).1, ttl_ms, now) implies v.contains(
                listed[j].0@,
            ) by {
                if j < rest.len() {
                    assert(rest[j] == listed[j]);
                    let at = choose|at: int| 0 <= at < before.len() && before[at] == listed[j].0@;
                    assert(v[at] == listed[j].0@);
                } else {
                    assert(v[before.len() as int] == listed[j].0@);
                }
            }
        }
    }
}

/// The keys that [`victims_of`] picks of the list of a full cache make room in it.
proof fn lemma_victims_make_room<D>(
    m: Map<Seq<char>, TimedRecord<D>>,
    listed: Seq<(String, u128)>,
    max_size: usize,
    limit: nat,
    ttl_ms: u64,
    now: u128,
)
    requires
        m.dom().len() >= max_size,
        store::lists_keys(m, store::pair_keys(listed)),
        forall|i: int|
            0 <= i < listed.len() ==> m[(#[trigger] listed[i]).0@].inserted == listed[i].1,
    ensures
        makes_room(
            m,
            victims_of(listed, ttl_ms, now, limit).to_set(),
            max_size,
            limit,
            ttl_ms,
            now,
        ),
{
    let keys = store::pair_keys(listed);
    let v = victims_of(listed, ttl_ms, now, limit);
    let gone = v.to_set();
    let expired = outlived_keys(m, ttl_ms, now);
    lemma_victims_of(listed, ttl_ms, now, limit);
    v.unique_seq_to_set();
    vstd::seq_lib::seq_to_set_is_finite(keys);
    assert forall|k: Seq<char>| gone.contains(k) implies expired.contains(k) by {
        assert(v.contains(k));
        let j = choose|j: int|
            0 <= j < listed.len() && (#[trigger] listed[j]).0@ == k && outlived(
                listed[j].1,
                ttl_ms,
                now,
            );
        assert(keys[j] == k);
        assert(keys.contains(k));
    }
    assert(expired.subset_of(keys.to_set())) by {
        assert forall|k: Seq<char>| expired.contains(k) implies keys.to_set().contains(k) by {
            assert(keys.contains(k) <==> m.dom().contains(k));
        }
    }
    vstd::set_lib::lemma_len_subset(expired, keys.to_set());
    vstd::set_lib::lemma_len_subset(gone, expired);
    if v.len() < limit {
        assert forall|k: Seq<char>| expired.contains(k) implies gone.contains(k) by {
            assert(keys.contains(k) <==> m.dom().contains(k));
            let j = choose|j: int| 0 <= j < keys.len() && keys[j] == k;
            assert(listed[j].0@ == k);
            assert(v.contains(listed[j].0@));
        }
        assert(gone =~= expired);
    }
}

/// The first `limit` keys of a list whose times have been outlived.
fn outlived_of(listed: &Vec<(String, u128)>, ttl_ms: u64, now: u128, limit: usize) -> (r: Vec<
    String,
>)
    ensures
        foreign::string_views(r@) == victims_of(listed@, ttl_ms, now, limit as nat),
{
    let mut out: Vec<String> = Vec::new();
    let mut i: usize = 0;
    assert(listed@.take(0) =~= seq![]);
    assert(foreign::string_views(out@) =~= seq![]);
    while i < listed.len()
        invariant
            i <= listed@.len(),
            foreign::string_views(out@) == victims_of(
                listed@.take(i as int),
                ttl_ms,
                now,
                limit as nat,
            ),
        decreases listed.len() - i,
    {
        proof {
            assert(listed@.take(i + 1).drop_last() =~= listed@.take(i as int));
            assert(listed@.take(i + 1).last() == listed@[i as int]);
        }
        if out.len() < limit && is_outlived(listed[i].1, ttl_ms, now) {
            let ghost before = out@;
            let key = listed[i].0.clone();
            out.push(key);
            assert(foreign::string_views(out@) =~= foreign::string_views(before).push(key@));
        }
        i = i + 1;
    }
    assert(listed@.take(listed@.len() as int) =~= listed@);
    out
}

/// Removes some keys from a table.
fn remove_all<V: Stored>(m: &mut DashMap<String, V>, keys: &Vec<String>)
    ensures
        V::contents(*final(m)) == V::contents(*old(m)).remove_keys(
            foreign::string_views(keys@).to_set(),
        ),
{
    let ghost views = foreign::string_views(keys@);
    let mut i: usize = 0;
    assert(V::contents(*m) =~= V::contents(*m).remove_keys(views.take(0).to_set()));
    while i < keys.len()
        invariant
            i <= keys@.len(),
            views == foreign::string_views(keys@),
            V::contents(*m) == V::contents(*old(m)).remove_keys(views.take(i as int).to_set()),
        decreases keys.len() - i,
    {
        remove(m, keys[i].as_str());
        proof {
            let next = views.take(i + 1);
            let before = views.take(i as int);
            assert(views[i as int] == keys@[i as int]@);
            assert forall|k: Seq<char>| next.to_set().contains(k) <==> before.to_set().contains(k)
                || k == views[i as int] by {
                if before.contains(k) {
                    let j = choose|j: int| 0 <= j < before.len() && before[j] == k;
                    assert(next[j] == k);
                }
                if k == views[i as int] {
                    assert(next[i as int] == k);
                }
                if next.contains(k) && k != views[i as int] {
                    let j = choose|j: int| 0 <= j < next.len() && next[j] == k;
                    assert(before[j] == k);
                }
            }
            assert(V::contents(*m) =~= V::contents(*old(m)).remove_keys(next.to_set()));
        }
        i = i + 1;
    }
    assert(views.take(views.len() as int) =~= views);
}

/// Data that was set is found as long as its time has not been outlived, and not afterwards.
pub proof fn law_timed_get_finds_what_was_set<D>(
    m: Map<Seq<char>, TimedRecord<D>>,
    next: Map<Seq<char>, TimedRecord<D>>,
    key: Seq<char>,
    data: D,
    max_size: usize,
    limit: nat,
    ttl_ms: u64,
    set_time: u128,
    get_time: u128,
)
    requires
        timed_set(m, next, key, data, max_size, limit, ttl_ms, set_time),
    ensures
        timed_found(next, key, ttl_ms, get_time) == (if outlived(set_time, ttl_ms, get_time) {
            None
        } else {
            Some(data)
        }),
{
}

/// Setting a key loses no data that is still served: what another key finds then, it still finds.
pub proof fn law_timed_set_loses_nothing_served<D>(
    m: Map<Seq<char>, TimedRecord<D>>,
    next: Map<Seq<char>, TimedRecord<D>>,
    key: Seq<char>,
    data: D,
    max_size: usize,
    limit: nat,
    ttl_ms: u64,
    now: u128,
    other: Seq<char>,
)
    requires
        timed_set(m, next, key, data, max_size, limit, ttl_ms, now),
        other != key,
    ensures
        timed_found(next, other, ttl_ms, now) == timed_found(m, other, ttl_ms, now),
{
}

/// Contents that are finite stay finite when a key is set, looked up or forgotten.
pub proof fn law_timed_contents_stay_finite<D>(
    m: Map<Seq<char>, TimedRecord<D>>,
    next: Map<Seq<char>, TimedRecord<D>>,
    key: Seq<char>,
    data: D,
    max_size: usize,
    limit: nat,
    ttl_ms: u64,
    now: u128,
)
    requires
        timed_set(m, next, key, data, max_size, limit, ttl_ms, now),
        m.dom().finite(),
    ensures
        next.dom().finite(),
        timed_left(m, key, ttl_ms, now).dom().finite(),
        m.remove(key).dom().finite(),
{
    let gone = choose|gone: Set<Seq<char>>| #[trigger]
        makes_room(m, gone, max_size, limit, ttl_ms, now) && next == m.remove_keys(gone).insert(
            key,
            TimedRecord { data, inserted: now },
        );
    assert(m.remove_keys(gone).dom() =~= m.dom().difference(gone));
}

/// A full cache does not grow when a key is set while an entry has outlived its time.
pub proof fn law_full_cache_does_not_grow<D>(
    m: Map<Seq<char>, TimedRecord<D>>,
    next: Map<Seq<char>, TimedRecord<D>>,
    key: Seq<char>,
    data: D,
    max_size: usize,
    limit: nat,
    ttl_ms: u64,
    now: u128,
    expired: Seq<char>,
)
    requires
        timed_set(m, next, key, data, max_size, limit, ttl_ms, now),
        m.dom().finite(),
        m.dom().len() >= max_size,
        limit >= 1,
        m.dom().contains(expired),
        outlived(m[expired].inserted, ttl_ms, now),
    ensures
        next.dom().len() <= m.dom().len(),
{
    let gone = choose|gone: Set<Seq<char>>| #[trigger]
        makes_room(m, gone, max_size, limit, ttl_ms, now) && next == m.remove_keys(gone).insert(
            key,
            TimedRecord { data, inserted: now },
        );
    let all = outlived_keys(m, ttl_ms, now);
    assert(all.subset_of(m.dom()));
    vstd::set_lib::lemma_len_subset(all, m.dom());
    assert(all.contains(expired));
    assert(all.len() >= 1) by {
        assert(all.remove(expired).len() == all.len() - 1);
    }
    let rest = m.remove_keys(gone);
    assert(rest.dom() =~= m.dom().difference(gone));
    assert(rest.dom().len() + gone.len() == m.dom().len()) by {
        assert(m.dom() =~= rest.dom().union(gone));
        assert(rest.dom().disjoint(gone));
        vstd::set_lib::lemma_set_disjoint_lens(rest.dom(), gone);
    }
    assert(next.dom() =~= rest.dom().insert(key));
}

/// Contents that are finite stay finite whatever is done with the stream cache.
pub proof fn law_stream_contents_stay_finite(
    m: Map<Seq<char>, StreamRecord>,
    channel_id: Seq<char>,
    url: Seq<char>,
    stream_url: Seq<char>,
    source: Seq<char>,
    ttl_ms: u64,
    now: i128,
)
    requires
        m.dom().finite(),
    ensures
        set_at_leaves(m, channel_id, url, stream_url, source, ttl_ms, now).dom().finite(),
        left_at(m, stream_key(channel_id, url), now).dom().finite(),
        without_key(m, stream_key(channel_id, url)).dom().finite(),
        only_valid(m, now).dom().finite(),
{
    assert(only_valid(m, now).dom().subset_of(m.dom()));
    vstd::set_lib::lemma_len_subset(only_valid(m, now).dom(), m.dom());
}

/// Below its limit, a cache that is set keeps every entry under another key.
pub proof fn law_timed_set_evicts_only_when_full<D>(
    m: Map<Seq<char>, TimedRecord<D>>,
    next: Map<Seq<char>, TimedRecord<D>>,
    key: Seq<char>,
    data: D,
    max_size: usize,
    limit: nat,
    ttl_ms: u64,
    now: u128,
)
    requires
        timed_set(m, next, key, data, max_size, limit, ttl_ms, now),
        m.dom().len() < max_size,
    ensures
        next == m.insert(key, TimedRecord { data, inserted: now }),
{
    assert(m.remove_keys(Set::<Seq<char>>::empty()) =~= m);
}

/// An entry is found for its time to live, in milliseconds of a million nanoseconds each, from when
/// it was put in: at the last of these nanoseconds still, at the next no more. What is found is its
/// data, and finding it takes nothing away; an entry that has outlived its time goes.
pub proof fn law_timed_entries_live_their_milliseconds<D>(
    m: Map<Seq<char>, TimedRecord<D>>,
    key: Seq<char>,
    ttl_ms: u64,
    now: u128,
)
    ensures
        !m.dom().contains(key) ==> timed_found(m, key, ttl_ms, now) is None && timed_left(
            m,
            key,
            ttl_ms,
            now,
        ) == m,
        m.dom().contains(key) && now <= m[key].inserted + ttl_ms * 1_000_000 ==> timed_found(
            m,
            key,
            ttl_ms,
            now,
        ) == Some(m[key].data) && timed_left(m, key, ttl_ms, now) == m,
        m.dom().contains(key) && now > m[key].inserted + ttl_ms * 1_000_000 ==> timed_found(
            m,
            key,
            ttl_ms,
            now,
        ) is None && timed_left(m, key, ttl_ms, now) == m.remove(key),
{
}

/// What putting an entry in leaves: the entry, with its data and its time; of the others only such
/// as were there, unchanged; and all of those that have not outlived their time.
pub proof fn law_timed_entries_stay_unchanged<D>(
    m: Map<Seq<char>, TimedRecord<D>>,
    next: Map<Seq<char>, TimedRecord<D>>,
    key: Seq<char>,
    other: Seq<char>,
    data: D,
    max_size: usize,
    limit: nat,
    ttl_ms: u64,
    now: u128,
)
    requires
        timed_set(m, next, key, data, max_size, limit, ttl_ms, now),
        other != key,
    ensures
        next.dom().contains(key) && next[key].data == data && next[key].inserted == now,
        next.dom().contains(other) ==> m.dom().contains(other) && next[other] == m[other],
        m.dom().contains(other) && now <= m[other].inserted + ttl_ms * 1_000_000
            ==> next.dom().contains(other),
{
    let gone = choose|gone: Set<Seq<char>>| #[trigger]
        makes_room(m, gone, max_size, limit, ttl_ms, now) && next == m.remove_keys(gone).insert(
            key,
            TimedRecord { data, inserted: now },
        );
    if m.dom().len() >= max_size {
        assert(gone.subset_of(outlived_keys(m, ttl_ms, now)));
    }
    if gone.contains(other) {
        assert(outlived_keys(m, ttl_ms, now).contains(other));
    }
}

/// An address that is set for a channel is found from then on for its time to live, in milliseconds
/// of a million nanoseconds each, and no longer; and it is found again after it was found.
pub proof fn law_addresses_live_their_milliseconds(
    m: Map<Seq<char>, StreamRecord>,
    channel_id: Seq<char>,
    page: Seq<char>,
    stream_url: Seq<char>,
    source: Seq<char>,
    ttl_ms: u64,
    now: i128,
    first: i128,
    second: i128,
)
    requires
        foreign::url_origin(page) is Some,
        now + ttl_ms * 1_000_000 <= i128::MAX,
        first <= second,
    ensures
        ({
            let key = stream_key(channel_id, page);
            let set = set_at_leaves(m, channel_id, page, stream_url, source, ttl_ms, now);
            let read = left_at(set, key, first);
            &&& second < now + ttl_ms * 1_000_000 ==> found_at(set, key, second) == Some(stream_url)
                && found_at(read, key, second) == Some(stream_url)
            &&& second >= now + ttl_ms * 1_000_000 ==> found_at(set, key, second) is None
                && found_at(read, key, second) is None
            &&& key is Some
            &&& set.dom() == m.dom().insert(key->0)
            &&& set[key->0].hit_count == 0
            &&& set[key->0].channel_id == channel_id
            &&& set[key->0].original_url == page
            &&& set[key->0].source == source
        }),
{
    let key = stream_key(channel_id, page);
    let set = set_at_leaves(m, channel_id, page, stream_url, source, ttl_ms, now);
    assert(set.dom() =~= m.dom().insert(key->0));
}

/// Finding an address counts one look-up more and changes nothing else of its entry; looking for one
/// changes no other entry.
pub proof fn law_look_ups_are_counted(
    m: Map<Seq<char>, StreamRecord>,
    key: Seq<char>,
    other: Seq<char>,
    now: i128,
)
    requires
        other != key,
    ensures
        found_at(m, Some(key), now) is Some ==> left_at(m, Some(key), now).dom() == m.dom(),
        found_at(m, Some(key), now) is Some && m[key].hit_count < u64::MAX ==> left_at(
            m,
            Some(key),
            now,
        )[key].hit_count == m[key].hit_count + 1,
        found_at(m, Some(key), now) is Some ==> (StreamRecord {
            hit_count: m[key].hit_count,
            ..left_at(m, Some(key), now)[key]
        }) == m[key],
        found_at(m, Some(key), now) is None ==> left_at(m, Some(key), now) == m.remove(key),
        left_at(m, Some(key), now).dom().contains(other) == m.dom().contains(other),
        m.dom().contains(other) ==> left_at(m, Some(key), now)[other] == m[other],
{
    let left = left_at(m, Some(key), now);
    if found_at(m, Some(key), now) is Some {
        assert(left.dom() =~= m.dom());
    } else {
        assert(left =~= m.remove(key));
    }
}

/// The entries that are left over when the others are cleared away are those that expire later.
pub proof fn law_cleanup_keeps_what_expires_later(
    m: Map<Seq<char>, StreamRecord>,
    key: Seq<char>,
    now: i128,
)
    ensures
        only_valid(m, now).dom().contains(key) <==> m.dom().contains(key) && m[key].expires_at > now,
        only_valid(m, now).dom().contains(key) ==> only_valid(m, now)[key] == m[key],
        m.dom().contains(key) ==> (valid_at(m[key], now) <==> now < m[key].expires_at),
{
}

/// Two channels never share an entry on one page, nor does a channel share one between pages of
/// different hosts.
pub proof fn law_keys_tell_channels_and_hosts_apart(
    channel_id: Seq<char>,
    other_id: Seq<char>,
    page: Seq<char>,
    other_page: Seq<char>,
)
    requires
        foreign::url_origin(page) is Some,
        foreign::url_origin(other_page) is Some,
    ensures
        stream_key(channel_id, page) is Some,
        stream_key(channel_id, page) == stream_key(other_id, page) ==> channel_id == other_id,
        stream_key(channel_id, page) == stream_key(channel_id, other_page) ==> m3u8::host_or_empty(
            foreign::url_origin(page)->0,
        ) == m3u8::host_or_empty(foreign::url_origin(other_page)->0),
{
    let host = m3u8::host_or_empty(foreign::url_origin(page)->0);
    let other_host = m3u8::host_or_empty(foreign::url_origin(other_page)->0);
    let a = channel_id + ":"@ + host;
    let b = other_id + ":"@ + host;
    let c = channel_id + ":"@ + other_host;
    assert(a.len() == channel_id.len() + ":"@.len() + host.len());
    assert(b.len() == other_id.len() + ":"@.len() + host.len());
    assert(c.len() == channel_id.len() + ":"@.len() + other_host.len());
    if stream_key(channel_id, page) == stream_key(other_id, page) {
        assert(a == b);
        assert forall|i: int| 0 <= i < channel_id.len() implies channel_id[i] == other_id[i] by {
            assert(a[i] == channel_id[i] && b[i] == other_id[i]);
        }
        assert(channel_id =~= other_id);
    }
    if stream_key(channel_id, page) == stream_key(channel_id, other_page) {
        assert(a == c);
        let n = (channel_id + ":"@).len() as int;
        assert forall|i: int| 0 <= i < host.len() implies host[i] == other_host[i] by {
            assert(a[n + i] == host[i] && c[n + i] == other_host[i]);
        }
        assert(host =~= other_host);
    }
}

/// The look-ups of all entries are those of each, summed up.
pub proof fn law_hits_are_summed_up(
    m: Map<Seq<char>, StreamRecord>,
    keys: Seq<Seq<char>>,
    key: Seq<char>,
)
    ensures
        total_hits(m, seq![]) == 0,
        total_hits(m, keys) + m[key].hit_count <= u64::MAX ==> total_hits(m, keys.push(key))
            == total_hits(m, keys) + m[key].hit_count,
{
    assert(keys.push(key).drop_last() =~= keys);
}

/// The counts are written under their names, each as it is.
pub proof fn law_counts_are_written_as_they_are(stats: CacheStats)
    requires
        stats.total_entries <= u64::MAX,
        stats.valid_entries <= u64::MAX,
    ensures
        stats.members().len() == 3,
        stats.members()[0] == (
            "total_entries"@,
            MemberView::Plain(ParamView::Number(stats.total_entries as u64)),
        ),
        stats.members()[1] == (
            "valid_entries"@,
            MemberView::Plain(ParamView::Number(stats.valid_entries as u64)),
        ),
        stats.members()[2] == ("total_hits"@, MemberView::Plain(ParamView::Number(stats.total_hits))),
{
}

} // verus!
