use tv_proxy::cache::{M3u8Cache, SegmentCache, StreamCache, StreamEntry};
use tv_proxy::store::{epoch_nanos, span_nanos, wall_nanos, Ticker};

const MILLI: i128 = 1_000_000;

fn entry(expires_at: i128) -> StreamEntry {
    StreamEntry {
        channel_id: "c".to_string(),
        original_url: "http://h/p".to_string(),
        stream_url: "http://h/s.m3u8".to_string(),
        source: "browser".to_string(),
        expires_at,
        hit_count: 0,
    }
}

#[test]
fn entries_are_valid_until_they_expire() {
    assert!(entry(11).is_valid_at(10));
    assert!(!entry(10).is_valid_at(10));
    assert!(entry(i128::MAX).is_valid());
    assert!(!entry(0).is_valid());
}

#[test]
fn clocks_run() {
    let wall = wall_nanos();
    // 2020 and 2120, in nanoseconds from the epoch.
    assert!(wall > 1_577_836_800_000_000_000 && wall < 4_733_510_400_000_000_000);
    let clock = Ticker::start();
    let first = clock.nanos();
    let mut second = clock.nanos();
    while second == first {
        second = clock.nanos();
    }
    assert!(second > first);
    let moment = clock.moment();
    assert!(moment.wall >= wall && moment.mono >= second);
}

#[test]
fn readings_of_the_wall_clock() {
    assert_eq!(epoch_nanos(Ok(5)), 5);
    assert_eq!(epoch_nanos(Err(5)), -5);
    assert_eq!(epoch_nanos(Ok(u128::MAX)), i128::MAX);
    assert_eq!(epoch_nanos(Err(u128::MAX)), i128::MIN);
}

#[test]
fn times_are_told_in_seconds_and_the_rest() {
    assert_eq!(span_nanos((3, 5)), 3_000_000_005);
    assert_eq!(span_nanos((0, 0)), 0);
    assert_eq!(span_nanos((u64::MAX, 999_999_999)), 18_446_744_073_709_551_615_999_999_999);
}

#[test]
fn times_to_live_are_not_cut_short() {
    let mut cache = StreamCache::new(u64::MAX);
    cache.set_at("c", "http://h/p", "http://h/s.m3u8", "browser", 7);
    assert_eq!(cache.all_entries()[0].expires_at, 7 + u64::MAX as i128 * MILLI);
}

#[test]
fn keys_hold_the_channel_and_the_host() {
    assert_eq!(
        StreamCache::make_key("gd_1", "https://www.gdtv.cn:8443/tv/1?x=2"),
        Some("gd_1:www.gdtv.cn".to_string())
    );
    assert_eq!(StreamCache::make_key("gd_1", "data:text/plain,x"), Some("gd_1:".to_string()));
    assert_eq!(StreamCache::make_key("gd_1", "no address"), None);
}

#[test]
fn what_was_set_is_found_until_it_expires() {
    let mut cache = StreamCache::new(1_000);
    cache.set_at("c", "http://h/p", "http://h/s.m3u8", "browser", 0);
    assert_eq!(
        cache.get_at("c", "http://h/other", 999 * MILLI),
        Some("http://h/s.m3u8".to_string())
    );
    assert_eq!(cache.get_at("d", "http://h/p", 0), None);
    assert_eq!(cache.get_at("c", "http://h/p", 1_000 * MILLI), None);
    assert_eq!(cache.all_entries().len(), 0);
}

#[test]
fn pages_without_an_address_are_not_cached() {
    let mut cache = StreamCache::new(1_000);
    cache.set("c", "no address", "http://h/s.m3u8", "browser");
    assert_eq!(cache.get("c", "no address"), None);
    assert_eq!(cache.stats().total_entries, 0);
}

#[test]
fn hits_are_counted() {
    let mut cache = StreamCache::new(60_000);
    cache.set("a", "http://h/p", "http://h/1", "browser");
    cache.set("b", "http://h/p", "http://h/2", "native_signer");
    assert!(cache.get("a", "http://h/p").is_some());
    assert!(cache.get("a", "http://h/p").is_some());
    assert!(cache.get("b", "http://h/p").is_some());
    let stats = cache.stats();
    assert_eq!((stats.total_entries, stats.valid_entries, stats.total_hits), (2, 2, 3));
    let mut entries = cache.all_entries();
    entries.sort_by(|x, y| x.channel_id.cmp(&y.channel_id));
    assert_eq!(entries[0].hit_count, 2);
    assert_eq!(entries[0].stream_url, "http://h/1");
    assert_eq!(entries[0].original_url, "http://h/p");
    assert_eq!(entries[1].source, "native_signer");
    cache.set("a", "http://h/p", "http://h/3", "browser");
    assert_eq!(cache.stats().total_hits, 1);
}

#[test]
fn counts_as_text() {
    let mut cache = StreamCache::new(1_000);
    cache.set_at("a", "http://h/p", "http://h/1", "browser", 0);
    cache.get_at("a", "http://h/p", 0);
    assert_eq!(
        cache.stats_at(1_000 * MILLI).to_text(),
        "{\"total_entries\":1,\"total_hits\":1,\"valid_entries\":0}"
    );
}

#[test]
fn a_full_cache_with_an_outlived_entry_does_not_grow() {
    let mut cache = SegmentCache::new(1, 2);
    cache.set_at("a".to_string(), vec![1], 0);
    cache.set_at("b".to_string(), vec![2], 0);
    cache.set_at("c".to_string(), vec![3], 2_000_000);
    let left = ["a", "b", "c"].iter().filter(|k| cache.get_at(k, 0).is_some()).count();
    assert_eq!(left, 2);
}

#[test]
fn invalidated_entries_are_not_found() {
    let mut cache = StreamCache::new(60_000);
    cache.set("a", "http://h/p", "http://h/1", "browser");
    cache.set("b", "http://h/p", "http://h/2", "browser");
    cache.invalidate("a", "http://h/elsewhere");
    cache.invalidate("b", "no address");
    assert_eq!(cache.get("a", "http://h/p"), None);
    assert_eq!(cache.get("b", "http://h/p"), Some("http://h/2".to_string()));
}

#[test]
fn cleaning_up_removes_expired_entries_only() {
    let mut cache = StreamCache::new(1_000);
    cache.set_at("old", "http://h/p", "http://h/1", "browser", 0);
    cache.set_at("new", "http://h/p", "http://h/2", "browser", 500 * MILLI);
    let stats = cache.stats_at(1_000 * MILLI);
    assert_eq!((stats.total_entries, stats.valid_entries), (2, 1));
    cache.cleanup_expired_at(1_000 * MILLI);
    let left = cache.all_entries();
    assert_eq!(left.len(), 1);
    assert_eq!(left[0].channel_id, "new");
    cache.cleanup_expired();
    assert_eq!(cache.all_entries().len(), 0);
}

#[test]
fn segments_are_found_until_they_are_outlived() {
    let mut cache = SegmentCache::new(10, 4);
    cache.set_at("u".to_string(), vec![1, 2], 0);
    assert_eq!(cache.get_at("u", 10_000_000), Some(vec![1, 2]));
    assert_eq!(cache.get_at("u", 10_000_001), None);
    assert_eq!(cache.get_at("u", 0), None);
}

#[test]
fn a_full_segment_cache_evicts_one_outlived_entry() {
    let mut cache = SegmentCache::new(1, 3);
    for name in ["a", "b", "c"] {
        cache.set_at(name.to_string(), vec![0], 0);
    }
    cache.set_at("d".to_string(), vec![9], 2_000_000);
    let mut kept = 0;
    for name in ["a", "b", "c"] {
        if cache.get_at(name, 0).is_some() {
            kept += 1;
        }
    }
    assert_eq!(kept, 2);
    assert_eq!(cache.get_at("d", 2_000_000), Some(vec![9]));
}

#[test]
fn a_full_segment_cache_loses_nothing_that_is_served() {
    let mut cache = SegmentCache::new(1_000, 1);
    cache.set_at("a".to_string(), vec![1], 0);
    cache.set_at("b".to_string(), vec![2], 0);
    assert_eq!(cache.get_at("a", 0), Some(vec![1]));
    assert_eq!(cache.get_at("b", 0), Some(vec![2]));
}

#[test]
fn a_full_playlist_cache_evicts_ten_outlived_entries() {
    let mut cache = M3u8Cache::new(1, 12);
    for i in 0..12 {
        cache.set_at(format!("k{}", i), "x".to_string(), 0);
    }
    cache.set_at("new".to_string(), "y".to_string(), 2_000_000);
    let mut kept = 0;
    for i in 0..12 {
        if cache.get_at(&format!("k{}", i), 0).is_some() {
            kept += 1;
        }
    }
    assert_eq!(kept, 2);
}

#[test]
fn caches_read_their_clock() {
    let mut segments = SegmentCache::new(3_600_000, 2);
    segments.set("u".to_string(), vec![7]);
    assert_eq!(segments.get("u"), Some(vec![7]));
    let mut playlists = M3u8Cache::new(3_600_000, 2);
    playlists.set("k".to_string(), "text".to_string());
    assert_eq!(playlists.get("k"), Some("text".to_string()));
    playlists.remove("k");
    assert_eq!(playlists.get("k"), None);
}
