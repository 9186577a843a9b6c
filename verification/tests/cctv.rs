use tv_proxy::cctv::{
    host_from_headers, key_reply, live_m3u, proxy_playlist, proxy_ts, ts_reply, upstream_headers, SearchStep,
};
use tv_proxy::db::{AppDb, CctvRow, ConfigValues};
use tv_proxy::reply::{Body, Reply};
use tv_proxy::state::AppState;

fn state() -> AppState {
    let config = ConfigValues {
        user_agent: None,
        blocked_domains: None,
        poll_interval_ms: None,
        decrypt_cache_ttl_ms: None,
        fetch_timeout_ms: None,
        proxy_timeout_ms: None,
        jstv_auth_enabled: None,
        global_dom_filter: None,
    };
    let row = |id: &str, sort_order: i64| CctvRow {
        id: id.to_string(),
        name: id.to_uppercase(),
        m3u8_url: "http://h/a/index.m3u8".to_string(),
        fallback_url: Some("http://b/p.m3u8".to_string()),
        sort_order,
        enabled: 1,
    };
    let db = AppDb::load(&config, &vec![row("cctv2", 2), row("cctv1", 1)], &vec![], &vec![]);
    AppState::new(db, "chrome".to_string())
}

fn text(reply: &Reply) -> &str {
    match &reply.body {
        Body::Text(t) => t,
        other => panic!("{:?}", other),
    }
}

fn done(step: SearchStep) -> Reply {
    match step {
        SearchStep::Done(r) => r,
        other => panic!("{:?}", other),
    }
}

fn fetch(step: SearchStep) -> String {
    match step {
        SearchStep::Fetch(u) => u,
        other => panic!("{:?}", other),
    }
}

#[test]
fn hosts_of_requests() {
    assert_eq!(host_from_headers(Some("h:1"), "localhost:3000"), "h:1");
    assert_eq!(host_from_headers(None, "localhost:3000"), "localhost:3000");
}

#[test]
fn cctv_list_is_sorted() {
    let reply = live_m3u(&state(), "h");
    assert_eq!(reply.status, 200);
    assert_eq!(
        reply.headers[0],
        ("content-type".to_string(), "audio/x-mpegurl; charset=utf-8".to_string())
    );
    let t = text(&reply);
    assert!(t.starts_with("#EXTM3U\n#EXTINF:-1 tvg-id=\"cctv1\""));
    assert!(t.find("\"cctv1\"").unwrap() < t.find("\"cctv2\"").unwrap());
    assert!(t.find("\"cctv2\"").unwrap() < t.find("\"hunan\"").unwrap());
    assert_eq!(t.matches("#EXTINF").count(), 32);
}

#[test]
fn unknown_cctv_channel_is_not_found() {
    let reply = proxy_playlist(&state(), "nope", "h").unwrap_err();
    assert_eq!(reply.status, 404);
    assert_eq!(text(&reply), "Not Found");
}

#[test]
fn media_playlist_is_served_at_once() {
    let (mut search, first) = proxy_playlist(&state(), "cctv1", "p").unwrap();
    assert_eq!(first, "http://h/a_720P/playlist.m3u8?wsApp=HLS");
    let reply = done(search.fetched(Some("#EXTINF:1,\nhttp://h/s.ts".to_string())));
    assert_eq!(reply.status, 200);
    assert_eq!(text(&reply), "#EXTINF:1,\nhttp://p/cctv1/segment/aHR0cDovL2gvcy50cw");
    assert_eq!(reply.headers[2], ("cache-control".to_string(), "no-cache".to_string()));
}

#[test]
fn variant_with_the_highest_bandwidth_is_followed() {
    let (mut search, _) = proxy_playlist(&state(), "cctv1", "p").unwrap();
    let master = "#EXT-X-STREAM-INF:BANDWIDTH=1\nlow.m3u8\n#EXT-X-STREAM-INF:BANDWIDTH=2\nhigh.m3u8";
    assert_eq!(
        fetch(search.fetched(Some(master.to_string()))),
        "http://h/a_720P/high.m3u8"
    );
    let reply = done(search.fetched(Some("s.ts".to_string())));
    assert!(text(&reply).starts_with("http://p/cctv1/segment/"));
}

#[test]
fn fallback_is_tried_and_then_given_up() {
    let (mut search, _) = proxy_playlist(&state(), "cctv1", "p").unwrap();
    assert_eq!(fetch(search.fetched(None)), "http://b/p.m3u8");
    let reply = done(search.fetched(Some("no playlist".to_string())));
    assert_eq!(reply.status, 502);
    assert_eq!(text(&reply), "Upstream error");
    assert_eq!(done(search.fetched(Some("#EXTINF:1,\na.ts".to_string()))).status, 502);
}

#[test]
fn segments_of_cctv_channels() {
    assert_eq!(proxy_ts("aHR0cDovL2gvcy50cw").unwrap(), "http://h/s.ts");
    assert_eq!(text(&proxy_ts("a*b").unwrap_err()), "Bad base64");
    assert_eq!(text(&proxy_ts("__4").unwrap_err()), "Bad URL encoding");
    assert_eq!(proxy_ts("__4").unwrap_err().status, 400);

    let mut good = vec![0u8; 188];
    good[0] = 0x47;
    let bytes = |r: Reply| match r.body {
        Body::Bytes(b) => b,
        other => panic!("{:?}", other),
    };
    assert_eq!(bytes(ts_reply(Some(vec![1; 188]), Some(good.clone()))), good);
    assert_eq!(bytes(ts_reply(Some(vec![1; 188]), Some(vec![0; 188]))), vec![1; 188]);
    assert_eq!(bytes(ts_reply(Some(vec![1; 187]), Some(good))), vec![1; 187]);
    let failed = ts_reply(None, None);
    assert_eq!((failed.status, text(&failed)), (502, "TS upstream error"));
}

#[test]
fn keys_of_cctv_channels_are_served_raw() {
    let reply = key_reply(Some(vec![9; 200]));
    assert_eq!(reply.status, 200);
    assert!(matches!(reply.body, Body::Bytes(b) if b == vec![9; 200]));
    let failed = key_reply(None);
    assert_eq!((failed.status, text(&failed)), (502, "TS upstream error"));
}

#[test]
fn headers_of_requests_to_cctv() {
    assert_eq!(
        upstream_headers(),
        vec![
            ("Referer".to_string(), "https://tv.cctv.com/".to_string()),
            ("Origin".to_string(), "https://tv.cctv.com".to_string()),
            ("Accept".to_string(), "*/*".to_string()),
        ]
    );
}
