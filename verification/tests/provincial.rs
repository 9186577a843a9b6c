use tv_proxy::db::{AppDb, ChannelRow, ConfigValues, RuleRow};
use tv_proxy::gateway::{
    cctv_ts_or_provincial_segment, merged_m3u, smart_key, smart_playlist, PlaylistStart,
    ResourceStart,
};
use tv_proxy::provincial::{
    admin_cache, admin_refresh, count_signed, ensure_admitted, ensure_browsed, ensure_probed,
    ensure_signed, ensure_stream_url, ensure_waited, fault_of, fetch_and_rewrite_m3u8, live_m3u,
    make_tagged_reply, playlist_reply, poll_finished, poll_probed, proxy_playlist, proxy_segment,
    resource_fetched, resource_status, resource_timed_out, run_poller, EnsureStep, FetchError,
    PlaylistStep, PollStep, ResourceKind, ResourceStep,
};
use tv_proxy::reply::{Body, Reply};
use tv_proxy::state::AppState;
use tv_proxy::store::Moment;

const PAGE: &str = "http://h/page";
const STREAM: &str = "http://cdn/live.m3u8";
const MILLI: i128 = 1_000_000;

fn state() -> AppState {
    let config = ConfigValues {
        user_agent: Some("UA".to_string()),
        blocked_domains: None,
        poll_interval_ms: None,
        decrypt_cache_ttl_ms: Some("1000".to_string()),
        fetch_timeout_ms: None,
        proxy_timeout_ms: None,
        jstv_auth_enabled: None,
        global_dom_filter: None,
    };
    let channel = |id: &str, group: Option<&str>, sid: Option<&str>| ChannelRow {
        id: id.to_string(),
        name: id.to_string(),
        url: PAGE.to_string(),
        group_name: group.map(|s| s.to_string()),
        channel_type: None,
        sid: sid.map(|s| s.to_string()),
        jstv_id: None,
    };
    let rule = |prefix: &str, is_polled: i64| RuleRow {
        prefix: prefix.to_string(),
        name: prefix.to_string(),
        target_url: Some("http://h/target".to_string()),
        m3u8_match: Some("live".to_string()),
        referer: None,
        origin: None,
        dom_filter: None,
        selectors: None,
        action_script: None,
        is_polled: Some(is_polled),
    };
    let db = AppDb::load(
        &config,
        &vec![],
        &vec![
            channel("gd_1", Some("GD"), None),
            channel("hn_1", None, Some("280")),
            channel("js_1", None, None),
            channel("un_1", None, None),
        ],
        &vec![rule("gd_", 1), rule("un_", 0)],
    );
    AppState::new(db, "chrome".to_string())
}

fn at(ms: i128) -> Moment {
    Moment { wall: ms * MILLI, mono: (ms * MILLI) as u128 }
}

fn words(reply: &Reply) -> (u16, &str) {
    match &reply.body {
        Body::Text(t) => (reply.status, t),
        other => panic!("{:?}", other),
    }
}

fn found(step: EnsureStep) -> Option<String> {
    match step {
        EnsureStep::Done(u) => u,
        other => panic!("{:?}", other),
    }
}

fn reply_of(step: PlaylistStep) -> Reply {
    match step {
        PlaylistStep::Done(r) => r,
        other => panic!("{:?}", other),
    }
}

#[test]
fn signed_channels_are_signed_each_time() {
    let mut s = state();
    assert!(matches!(ensure_stream_url(&mut s, "js_1", PAGE, true, at(0)), EnsureStep::Sign));
    assert_eq!(found(ensure_stream_url(&mut s, "js_1", PAGE, false, at(0))), None);
    assert_eq!(ensure_signed(&mut s, "js_1", PAGE, None, at(0)), None);
    assert_eq!(admin_cache(&s).total_entries, 0);
    let url = ensure_signed(&mut s, "js_1", PAGE, Some(STREAM.to_string()), at(0));
    assert_eq!(url, Some(STREAM.to_string()));
    assert_eq!(s.stream_cache.all_entries()[0].source, "native_signer");
    assert!(matches!(ensure_stream_url(&mut s, "js_1", PAGE, true, at(0)), EnsureStep::Sign));
}

#[test]
fn browsing_finds_a_stream_that_is_then_known() {
    let mut s = state();
    assert!(matches!(ensure_stream_url(&mut s, "gd_1", PAGE, true, at(0)), EnsureStep::Queue));
    match ensure_admitted(&mut s, "gd_1", PAGE, true) {
        EnsureStep::Browse(b) => {
            assert_eq!(b.page_url, "http://h/target");
            assert_eq!(b.m3u8_match, "live");
            assert_eq!(b.user_agent, "UA");
            assert_eq!(b.timeout_ms, 20_000);
            assert_eq!(b.mgtv_sid, None);
        }
        other => panic!("{:?}", other),
    }
    assert!(matches!(
        ensure_stream_url(&mut s, "gd_1", PAGE, true, at(0)),
        EnsureStep::Wait(300)
    ));
    assert_eq!(ensure_waited(&mut s, "gd_1"), None);
    let url = ensure_browsed(&mut s, "gd_1", PAGE, Some(STREAM.to_string()), at(5));
    assert_eq!(url, Some(STREAM.to_string()));
    assert_eq!(ensure_waited(&mut s, "gd_1"), Some(STREAM.to_string()));
    assert_eq!(
        found(ensure_stream_url(&mut s, "gd_1", PAGE, true, at(9_999))),
        Some(STREAM.to_string())
    );
    let c = s.get_or_create_channel_state("gd_1");
    assert!(!c.fetching);
    assert_eq!(c.stream_url_fetched_at, Some(5_000_000));
    assert_eq!(s.stream_cache.all_entries()[0].source, "browser");
}

#[test]
fn browsing_in_vain_ends_the_fetch() {
    let mut s = state();
    match ensure_admitted(&mut s, "hn_1", PAGE, true) {
        EnsureStep::Browse(b) => {
            assert_eq!(b.page_url, PAGE);
            assert_eq!(b.m3u8_match, ".m3u8");
            assert_eq!(b.mgtv_sid, Some("280".to_string()));
        }
        other => panic!("{:?}", other),
    }
    assert_eq!(ensure_browsed(&mut s, "hn_1", PAGE, None, at(0)), None);
    assert!(!s.get_or_create_channel_state("hn_1").fetching);
    assert_eq!(found(ensure_admitted(&mut s, "hn_1", PAGE, false)), None);
}

#[test]
fn cached_streams_are_probed() {
    let mut s = state();
    s.stream_cache.set_at("gd_1", PAGE, STREAM, "browser", 0);
    match ensure_stream_url(&mut s, "gd_1", PAGE, true, at(1)) {
        EnsureStep::Probe(p) => {
            assert_eq!(p.url, STREAM);
            assert_eq!(p.timeout_ms, 8_000);
            assert!(p.headers.contains(&("User-Agent".to_string(), "UA".to_string())));
        }
        other => panic!("{:?}", other),
    }
    let step = ensure_probed(&mut s, "gd_1", PAGE, STREAM, Some(404), at(1));
    assert!(matches!(step, EnsureStep::Queue));
    assert_eq!(admin_cache(&s).total_entries, 0);

    s.stream_cache.set_at("gd_1", PAGE, STREAM, "browser", 0);
    let step = ensure_probed(&mut s, "gd_1", PAGE, STREAM, Some(206), at(1));
    assert_eq!(found(step), Some(STREAM.to_string()));
    assert_eq!(ensure_waited(&mut s, "gd_1"), Some(STREAM.to_string()));
    assert_eq!(ensure_waited(&mut s, "un_1"), None);
}

#[test]
fn faults_of_playlists() {
    assert_eq!(fault_of(200, false), None);
    assert_eq!(fault_of(299, false), None);
    assert_eq!(fault_of(199, false), Some(FetchError::Http(199)));
    assert_eq!(fault_of(300, false), Some(FetchError::Http(300)));
    assert_eq!(fault_of(403, true), Some(FetchError::Auth(403)));
}

#[test]
fn playlists_are_rewritten_or_refused() {
    let mut s = state();
    let mut ask = |r: Option<(u16, String)>| {
        fetch_and_rewrite_m3u8(&mut s, "http://h/p.m3u8", "p", "gd_1", r, at(0))
    };
    assert_eq!(ask(None), Err(FetchError::Transport));
    assert_eq!(ask(Some((404, "gone".to_string()))), Err(FetchError::Http(404)));
    assert_eq!(ask(Some((200, "Auth Failed".to_string()))), Err(FetchError::Auth(200)));
    assert_eq!(
        ask(Some((200, "s.ts".to_string()))),
        Ok("http://p/gd_1/segment/aHR0cDovL2gvcy50cw".to_string())
    );
}

#[test]
fn playlist_is_fetched_once_and_then_cached() {
    let mut s = state();
    let mut job = proxy_playlist(&s, "gd_1", "p").unwrap();
    assert_eq!(job.page_url, PAGE);
    match job.ensured(&mut s, Some(STREAM.to_string()), None, at(0)) {
        PlaylistStep::Fetch(url, headers) => {
            assert_eq!(url, STREAM);
            assert_eq!(headers[0], ("Cache-Control".to_string(), "no-cache".to_string()));
            assert_eq!(headers[1], ("Pragma".to_string(), "no-cache".to_string()));
        }
        other => panic!("{:?}", other),
    }
    let body = Some((200, "http://h/s.ts".to_string()));
    let reply = reply_of(job.fetched(&mut s, STREAM, body, None, at(0)));
    let content = "http://p/gd_1/segment/aHR0cDovL2gvcy50cw";
    assert_eq!(words(&reply), (200, content));
    let tag = reply.headers[3].1.clone();

    let again = proxy_playlist(&s, "gd_1", "p").unwrap();
    let step = again.ensured(&mut s, Some(STREAM.to_string()), None, at(1_500));
    assert_eq!(words(&reply_of(step)), (200, content));
    let step = again.ensured(&mut s, Some(STREAM.to_string()), Some(&tag), at(1_500));
    let unchanged = reply_of(step);
    assert_eq!(unchanged.status, 304);
    assert!(matches!(unchanged.body, Body::Empty));
    let step = again.ensured(&mut s, Some(STREAM.to_string()), None, at(1_501));
    assert!(matches!(step, PlaylistStep::Fetch(_, _)));
}

#[test]
fn failed_playlist_is_tried_once_more() {
    let mut s = state();
    ensure_browsed(&mut s, "gd_1", PAGE, Some(STREAM.to_string()), at(0));
    let mut job = proxy_playlist(&s, "gd_1", "p").unwrap();
    let step = job.fetched(&mut s, STREAM, Some((403, String::new())), None, at(0));
    assert!(matches!(step, PlaylistStep::Ensure));
    assert_eq!(ensure_waited(&mut s, "gd_1"), None);
    assert!(matches!(ensure_stream_url(&mut s, "gd_1", PAGE, true, at(0)), EnsureStep::Queue));
    let reply = reply_of(job.fetched(&mut s, STREAM, None, None, at(0)));
    assert_eq!(words(&reply), (503, "Temporary unavailable"));
    assert_eq!(
        reply.headers,
        vec![("access-control-allow-origin".to_string(), "*".to_string())]
    );
}

#[test]
fn playlist_without_a_stream_is_unavailable() {
    let mut s = state();
    let job = proxy_playlist(&s, "gd_1", "p").unwrap();
    assert_eq!(reply_of(job.ensured(&mut s, None, None, at(0))).status, 503);
    assert_eq!(words(&proxy_playlist(&s, "gd_9", "p").unwrap_err()), (404, "Channel not found"));
}

#[test]
fn tags_are_digests() {
    let reply = playlist_reply("hello".to_string(), None);
    assert_eq!(
        reply.headers,
        vec![
            ("content-type".to_string(), "application/vnd.apple.mpegurl".to_string()),
            ("access-control-allow-origin".to_string(), "*".to_string()),
            ("cache-control".to_string(), "no-cache, no-store, must-revalidate".to_string()),
            ("ETag".to_string(), "5d41402abc4b2a76b9719d911017c592".to_string()),
        ]
    );
    assert_eq!(words(&reply), (200, "hello"));
    assert_eq!(make_tagged_reply("x".to_string(), "t", Some("t")).status, 304);
    assert_eq!(make_tagged_reply("x".to_string(), "t", Some("u")).status, 200);
}

#[test]
fn segments_are_fetched_once_and_then_cached() {
    let mut s = state();
    let encoded = "aHR0cDovL2gvcy50cw";
    match proxy_segment(&mut s, "gd_1", encoded, at(0)) {
        ResourceStep::Fetch(r) => {
            assert_eq!(r.url, "http://h/s.ts");
            assert_eq!(r.timeout_ms, 8_000);
            assert_eq!(r.headers[0], ("Accept-Encoding".to_string(), "identity".to_string()));
        }
        other => panic!("{:?}", other),
    }
    let reply =
        resource_fetched(&mut s, "http://h/s.ts", ResourceKind::Segment, Some(vec![1, 2]), at(0));
    assert!(matches!(&reply.body, Body::Bytes(b) if b == &vec![1, 2]));
    assert_eq!(reply.headers[0].1, "video/mp2t");
    assert_eq!(reply.headers[2].1, "public, max-age=8");
    match proxy_segment(&mut s, "gd_1", encoded, at(10_000)) {
        ResourceStep::Done(r) => assert!(matches!(r.body, Body::Bytes(b) if b == vec![1, 2])),
        other => panic!("{:?}", other),
    }
    assert!(matches!(
        proxy_segment(&mut s, "gd_1", encoded, at(10_001)),
        ResourceStep::Fetch(_)
    ));
    match proxy_segment(&mut s, "gd_1", "a*b", at(0)) {
        ResourceStep::Done(r) => assert_eq!(words(&r), (400, "Invalid URL")),
        other => panic!("{:?}", other),
    }
}

#[test]
fn routed_segments_are_requested_back() {
    let mut s = state();
    let r = Some((200, "#EXTINF:1,\n一/二.ts?k=\u{2713}".to_string()));
    let text = fetch_and_rewrite_m3u8(&mut s, "https://h/live/p.m3u8", "p", "gd_1", r, at(0)).unwrap();
    let encoded = text.lines().nth(1).unwrap().strip_prefix("http://p/gd_1/segment/").unwrap();
    match proxy_segment(&mut s, "gd_1", encoded, at(0)) {
        ResourceStep::Fetch(request) => {
            assert_eq!(request.url, "https://h/live/一/二.ts?k=\u{2713}")
        }
        other => panic!("{:?}", other),
    }
}

#[test]
fn resources_that_cannot_be_had() {
    let mut s = state();
    assert_eq!(words(&resource_timed_out()), (502, "Upstream timeout"));
    let reply = resource_fetched(&mut s, "http://h/k", ResourceKind::Key, None, at(0));
    assert_eq!(words(&reply), (502, "Read error"));
    ensure_browsed(&mut s, "gd_1", PAGE, Some(STREAM.to_string()), at(0));
    assert!(resource_status(&mut s, "gd_1", 404).is_none());
    assert_eq!(ensure_waited(&mut s, "gd_1"), Some(STREAM.to_string()));
    assert_eq!(words(&resource_status(&mut s, "gd_1", 403).unwrap()), (403, "Token expired"));
    assert_eq!(ensure_waited(&mut s, "gd_1"), None);
}

#[test]
fn provincial_list() {
    let reply = live_m3u(&state(), "h");
    let (status, t) = words(&reply);
    assert_eq!(status, 200);
    assert!(t.starts_with("#EXTM3U\n#EXTINF:-1 tvg-id=\"gd_1\" tvg-name=\"gd_1\" group-title=\"GD\",gd_1\nhttp://h/gd_1/playlist.m3u8\n"));
    assert!(t.contains("tvg-id=\"hn_1\" tvg-name=\"hn_1\" group-title=\"其他\""));
    assert_eq!(t.matches("#EXTINF").count(), 4);
    assert_eq!(words(&admin_refresh()), (200, "Polling triggered"));
    assert_eq!(count_signed(&state().channels), 1);
}

#[test]
fn exempt_channels_are_not_polled() {
    let mut s = state();
    for id in ["js_1", "un_1", "gd_9"] {
        assert!(matches!(run_poller(&mut s, id, at(0)), PollStep::Next));
    }
    match run_poller(&mut s, "hn_1", at(0)) {
        PollStep::Find(page) => assert_eq!(page, PAGE),
        other => panic!("{:?}", other),
    }
}

#[test]
fn live_streams_are_kept_by_polling() {
    let mut s = state();
    s.stream_cache.set_at("gd_1", PAGE, STREAM, "browser", 0);
    match run_poller(&mut s, "gd_1", at(900)) {
        PollStep::Probe(p) => {
            assert_eq!(p.url, STREAM);
            assert_eq!(p.timeout_ms, 5_000);
        }
        other => panic!("{:?}", other),
    }
    let step = poll_probed(&mut s, "gd_1", PAGE, STREAM, Some(200), at(900));
    assert!(matches!(step, PollStep::Next));
    assert_eq!(s.stream_cache.all_entries()[0].source, "poller_refresh");
    assert_eq!(s.stream_cache.get_at("gd_1", PAGE, 1_899 * MILLI), Some(STREAM.to_string()));
    poll_finished(&mut s, at(1_899));
    assert_eq!(admin_cache(&s).total_entries, 1);
    poll_finished(&mut s, at(1_900));
    assert_eq!(admin_cache(&s).total_entries, 0);
}

#[test]
fn dead_streams_are_forgotten_by_polling() {
    let mut s = state();
    ensure_browsed(&mut s, "gd_1", PAGE, Some(STREAM.to_string()), at(0));
    let step = poll_probed(&mut s, "gd_1", PAGE, STREAM, None, at(0));
    assert!(matches!(step, PollStep::Find(_)));
    assert_eq!(admin_cache(&s).total_entries, 0);
    assert_eq!(ensure_waited(&mut s, "gd_1"), None);
}

#[test]
fn gateway_tells_the_channels_apart() {
    let mut s = state();
    assert!(matches!(smart_playlist(&s, "hunan", "p"), PlaylistStart::Cctv(Ok(_))));
    match smart_playlist(&s, "CCTV99", "p") {
        PlaylistStart::Cctv(Err(r)) => assert_eq!(words(&r), (404, "Not Found")),
        other => panic!("{:?}", other),
    }
    assert!(matches!(smart_playlist(&s, "gd_1", "p"), PlaylistStart::Provincial(Ok(_))));
    match smart_playlist(&s, "gd_9", "p") {
        PlaylistStart::Provincial(Err(r)) => assert_eq!(words(&r), (404, "Channel not found")),
        other => panic!("{:?}", other),
    }
    match cctv_ts_or_provincial_segment(&mut s, "cctv1", "aHR0cDovL2gvcy50cw", at(0)) {
        ResourceStart::Cctv(Ok(url)) => assert_eq!(url, "http://h/s.ts"),
        other => panic!("{:?}", other),
    }
    assert!(matches!(
        cctv_ts_or_provincial_segment(&mut s, "gd_1", "aHR0cDovL2gvcy50cw", at(0)),
        ResourceStart::Provincial(ResourceStep::Fetch(_))
    ));
    assert!(matches!(
        smart_key(&mut s, "cctv1", "a*b", at(0)),
        ResourceStart::CctvKey(Err(_))
    ));
    match smart_key(&mut s, "cctv1", "aHR0cDovL2gvcy50cw", at(0)) {
        ResourceStart::CctvKey(Ok(url)) => assert_eq!(url, "http://h/s.ts"),
        other => panic!("{:?}", other),
    }
    resource_fetched(&mut s, "http://h/s.ts", ResourceKind::Key, Some(vec![5; 16]), at(0));
    match smart_key(&mut s, "gd_1", "aHR0cDovL2gvcy50cw", at(0)) {
        ResourceStart::Provincial(ResourceStep::Done(r)) => {
            assert_eq!(r.headers[0].1, "application/octet-stream");
            assert_eq!(r.headers[2].1, "no-cache");
        }
        other => panic!("{:?}", other),
    }
}

#[test]
fn merged_list_holds_every_channel() {
    let reply = merged_m3u(&state(), "h");
    assert_eq!(
        reply.headers[1],
        ("content-disposition".to_string(), "inline; filename=\"live.m3u\"".to_string())
    );
    let (status, t) = words(&reply);
    assert_eq!(status, 200);
    assert_eq!(t.matches("#EXTINF").count(), 34);
    assert!(t.find("\"cgtndoc\"").unwrap() < t.find("\"gd_1\"").unwrap());
}
