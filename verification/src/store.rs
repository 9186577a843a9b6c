//! Hash tables keyed by text, and the clocks by which their entries age.
use crate::foreign::{time_since, time_since_epoch};
use dashmap::DashMap;
use vstd::prelude::*;

verus! {

/// The concurrent hash table of the `dashmap` crate.
#[verifier::external_type_specification]
#[verifier::external_body]
#[verifier::reject_recursive_types(K)]
#[verifier::reject_recursive_types(V)]
#[verifier::reject_recursive_types(S)]
pub struct ExDashMap<K, V, S>(dashmap::DashMap<K, V, S>);

/// A type of values that a table can hold. The contents of a table map the characters of each key
/// to the record of its value.
pub(crate) trait Stored: Sized + Clone {
    /// What a value holds, as mathematical values.
    type Record;

    /// The record of a value. A clone has the same.
    spec fn record(&self) -> Self::Record;

    /// The contents of a table of such values. Each type gives a name without a definition for them:
    /// what is known of them is what the functions below say.
    spec fn contents(m: DashMap<String, Self>) -> Map<Seq<char>, Self::Record>;
}

/// A type of values that carry the time at which they were put into a table.
pub(crate) trait Stamped: Stored {
    /// The time that a record carries.
    spec fn stamp_of(r: Self::Record) -> u128;

    /// The time that a value carries.
    fn stamp(&self) -> (r: u128)
        ensures
            r == Self::stamp_of(self.record()),
    ;
}

/// `keys` lists each key of the contents exactly once.
pub open spec fn lists_keys<R>(contents: Map<Seq<char>, R>, keys: Seq<Seq<char>>) -> bool {
    &&& keys.no_duplicates()
    &&& forall|k: Seq<char>| #[trigger] keys.contains(k) <==> contents.dom().contains(k)
}

/// The next key of a list without repetitions is not among those before it, and becomes one of
/// them.
pub proof fn lemma_next_key(keys: Seq<Seq<char>>, i: int)
    requires
        0 <= i < keys.len(),
        keys.no_duplicates(),
    ensures
        !keys.take(i).contains(keys[i]),
        forall|k: Seq<char>| #[trigger]
            keys.take(i + 1).contains(k) <==> keys.take(i).contains(k) || k == keys[i],
{
    let before = keys.take(i);
    let next = keys.take(i + 1);
    if before.contains(keys[i]) {
        let j = choose|j: int| 0 <= j < before.len() && before[j] == keys[i];
        assert(keys[j] == keys[i]);
    }
    assert forall|k: Seq<char>| #[trigger] next.contains(k) <==> before.contains(k) || k
        == keys[i] by {
        if before.contains(k) {
            let j = choose|j: int| 0 <= j < before.len() && before[j] == k;
            assert(next[j] == k);
        }
        if k == keys[i] {
            assert(next[i] == k);
        }
        if next.contains(k) && k != keys[i] {
            let j = choose|j: int| 0 <= j < next.len() && next[j] == k;
            assert(before[j] == k);
        }
    }
}

/// The keys of a list of pairs.
pub open spec fn pair_keys<T>(pairs: Seq<(String, T)>) -> Seq<Seq<char>> {
    pairs.map_values(|p: (String, T)| p.0@)
}

/// `DashMap::get`, with a clone of the value. Believed: it finds the value of the key, if the
/// table has one.
#[verifier::external_body]
pub(crate) fn lookup<V: Stored>(m: &DashMap<String, V>, key: &str) -> (r: Option<V>)
    ensures
        match r {
            Some(v) => V::contents(*m).dom().contains(key@) && V::contents(*m)[key@] == v.record(),
            None => !V::contents(*m).dom().contains(key@),
        },
{
    m.get(key).map(|e| e.value().clone())
}

/// `DashMap::insert`. Believed: the key then has the value, and every other key keeps its own.
#[verifier::external_body]
pub(crate) fn insert<V: Stored>(m: &mut DashMap<String, V>, key: String, value: V)
    ensures
        V::contents(*final(m)) == V::contents(*old(m)).insert(key@, value.record()),
{
    m.insert(key, value);
}

/// `DashMap::remove`. Believed: the key then has no value, and every other key keeps its own.
#[verifier::external_body]
pub(crate) fn remove<V: Stored>(m: &mut DashMap<String, V>, key: &str)
    ensures
        V::contents(*final(m)) == V::contents(*old(m)).remove(key@),
{
    m.remove(key);
}

/// `DashMap::len`. Believed: it is the number of keys.
#[verifier::external_body]
pub(crate) fn count<V: Stored>(m: &DashMap<String, V>) -> (r: usize)
    ensures
        r == V::contents(*m).dom().len(),
{
    m.len()
}

/// `DashMap::iter`, with a clone of each key and each value. Believed: it meets each key once, with
/// its value. Nothing is said of the order.
#[verifier::external_body]
pub(crate) fn pairs<V: Stored>(m: &DashMap<String, V>) -> (r: Vec<(String, V)>)
    ensures
        lists_keys(V::contents(*m), pair_keys(r@)),
        forall|i: int|
            0 <= i < r@.len() ==> V::contents(*m)[(#[trigger] r@[i]).0@] == r@[i].1.record(),
{
    m.iter().map(|e| (e.key().clone(), e.value().clone())).collect()
}

/// `DashMap::iter`, with a clone of each key and the time that its value carries. Believed: it
/// meets each key once, with its value. Nothing is said of the order.
#[verifier::external_body]
pub(crate) fn stamps<V: Stamped>(m: &DashMap<String, V>) -> (r: Vec<(String, u128)>)
    ensures
        lists_keys(V::contents(*m), pair_keys(r@)),
        forall|i: int|
            0 <= i < r@.len() ==> V::stamp_of(V::contents(*m)[(#[trigger] r@[i]).0@]) == r@[i].1,
{
    m.iter().map(|e| (e.key().clone(), e.value().stamp())).collect()
}

// ─── Clocks ──────────────────────────────────────────────────────────────────

/// The nanoseconds in a millisecond.
pub const NANOS_PER_MILLI: u128 = 1_000_000;

/// The nanoseconds in a second.
pub const NANOS_PER_SEC: u128 = 1_000_000_000;

/// The longest time that a clock can tell, in nanoseconds: it counts whole seconds in 64 bits, and
/// the nanoseconds of the rest in 32.
pub open spec fn longest_span() -> int {
    u64::MAX * NANOS_PER_SEC + u32::MAX
}

/// A position that the wall clock can read, in nanoseconds from the Unix epoch.
pub open spec fn is_wall_reading(now: i128) -> bool {
    -longest_span() <= now <= longest_span()
}

/// A time that a monotonic clock can read, in nanoseconds from its start.
pub open spec fn is_tick(now: u128) -> bool {
    now <= longest_span()
}

/// A time in nanoseconds, where a clock tells it as whole seconds and the nanoseconds of the rest.
pub fn span_nanos(span: (u64, u32)) -> (r: u128)
    ensures
        r == span.0 * NANOS_PER_SEC + span.1,
        r <= longest_span(),
{
    assert(span.0 * NANOS_PER_SEC <= u64::MAX * NANOS_PER_SEC) by (nonlinear_arith)
        requires
            span.0 <= u64::MAX,
    ;
    span.0 as u128 * NANOS_PER_SEC + span.1 as u128
}

/// The position of a reading of the wall clock, in nanoseconds from the Unix epoch: those since the
/// epoch, or, as an error, those until it. Readings beyond the range stand at its end.
pub open spec fn epoch_position(reading: Result<u128, u128>) -> i128 {
    match reading {
        Ok(n) => if n <= i128::MAX {
            n as i128
        } else {
            i128::MAX
        },
        Err(n) => if n <= i128::MAX {
            (-(n as int)) as i128
        } else {
            i128::MIN
        },
    }
}

/// The position of a reading of the wall clock, in nanoseconds from the Unix epoch.
pub fn epoch_nanos(reading: Result<u128, u128>) -> (r: i128)
    ensures
        r == epoch_position(reading),
{
    match reading {
        Ok(n) => if n <= i128::MAX as u128 {
            n as i128
        } else {
            i128::MAX
        },
        Err(n) => if n <= i128::MAX as u128 {
            -(n as i128)
        } else {
            i128::MIN
        },
    }
}

/// The wall clock, in nanoseconds from the Unix epoch. Where in its range it stands rests on the
/// machine alone; the ends of [`epoch_position`] are never reached.
pub fn wall_nanos() -> (r: i128)
    ensures
        is_wall_reading(r),
{
    match time_since_epoch() {
        Ok(span) => epoch_nanos(Ok(span_nanos(span))),
        Err(span) => epoch_nanos(Err(span_nanos(span))),
    }
}

/// A point in time, as the two clocks read it.
#[derive(Debug, Clone, Copy, PartialEq, Eq, Structural)]
pub struct Moment {
    /// Of the wall clock, in nanoseconds from the Unix epoch.
    pub wall: i128,
    /// Of the monotonic clock, in nanoseconds from its start.
    pub mono: u128,
}

/// A monotonic clock, which counts from its start.
#[derive(Debug, Clone, Copy)]
pub struct Ticker {
    started: std::time::Instant,
}

impl Ticker {
    /// A clock that starts now.
    pub fn start() -> Self {
        Ticker { started: std::time::Instant::now() }
    }

    /// The nanoseconds since the start. How many there are rests on the machine alone, within what
    /// a clock can tell.
    pub fn nanos(&self) -> (r: u128)
        ensures
            is_tick(r),
    {
        span_nanos(time_since(&self.started))
    }

    /// The present, as this clock and the wall clock read it.
    pub fn moment(&self) -> (r: Moment)
        ensures
            is_wall_reading(r.wall),
            is_tick(r.mono),
    {
        Moment { wall: wall_nanos(), mono: self.nanos() }
    }
}

// ─── Laws ────────────────────────────────────────────────────────────────────

/// A reading of so many nanoseconds since the epoch stands at that number, and one of so many until
/// it at the same number below zero, as long as the range holds it; later readings never stand
/// before earlier ones.
pub proof fn law_readings_keep_their_order(n: u128, m: u128)
    ensures
        n <= i128::MAX ==> epoch_position(Ok(n)) == n,
        n <= i128::MAX ==> epoch_position(Err(n)) == -n,
        n <= m ==> epoch_position(Ok(n)) <= epoch_position(Ok(m)),
        n <= m ==> epoch_position(Err(m)) <= epoch_position(Err(n)),
        epoch_position(Err(n)) <= epoch_position(Ok(m)),
{
}

} // verus!
