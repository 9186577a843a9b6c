use tv_proxy::db::{AppDb, ChannelRow, CctvRow, ConfigValues, RuleRow};
use tv_proxy::state::AppState;

fn state() -> AppState {
    let config = ConfigValues {
        user_agent: Some("UA".to_string()),
        blocked_domains: None,
        poll_interval_ms: None,
        decrypt_cache_ttl_ms: None,
        fetch_timeout_ms: None,
        proxy_timeout_ms: None,
        jstv_auth_enabled: None,
        global_dom_filter: None,
    };
    let cctv = |id: &str, name: &str| CctvRow {
        id: id.to_string(),
        name: name.to_string(),
        m3u8_url: "http://h/p.m3u8".to_string(),
        fallback_url: None,
        sort_order: 1,
        enabled: 1,
    };
    let channel = |id: &str, name: &str| ChannelRow {
        id: id.to_string(),
        name: name.to_string(),
        url: "http://h/page".to_string(),
        group_name: None,
        channel_type: None,
        sid: None,
        jstv_id: None,
    };
    let rule = |prefix: &str, referer: Option<&str>, origin: Option<&str>| RuleRow {
        prefix: prefix.to_string(),
        name: prefix.to_string(),
        target_url: None,
        m3u8_match: None,
        referer: referer.map(|s| s.to_string()),
        origin: origin.map(|s| s.to_string()),
        dom_filter: None,
        selectors: None,
        action_script: None,
        is_polled: None,
    };
    let db = AppDb::load(
        &config,
        &vec![cctv("x", "first"), cctv("x", "second")],
        &vec![channel("gd_1", "first"), channel("gd_2", "other"), channel("gd_1", "second")],
        &vec![rule("gd_", Some("https://r/"), None), rule("gd_2", None, Some("https://o"))],
    );
    AppState::new(db, "chrome".to_string())
}

fn header<'a>(headers: &'a [(String, String)], name: &str) -> Option<&'a str> {
    headers.iter().find(|h| h.0 == name).map(|h| h.1.as_str())
}

#[test]
fn each_id_has_its_last_channel() {
    let s = state();
    assert_eq!(s.find_cctv("x").unwrap().name, "second");
    assert_eq!(s.find_channel("gd_1").unwrap().name, "second");
    assert_eq!(s.find_channel("gd_2").unwrap().name, "other");
    assert!(s.find_channel("gd_3").is_none());
    assert_eq!(s.channels.len(), 2);
    assert_eq!(s.chrome_path, "chrome");
}

#[test]
fn cctv_channels_by_list_and_by_id() {
    let s = state();
    assert!(s.is_cctv("x"));
    assert!(s.is_cctv("hunan"));
    assert!(s.is_cctv("CCTV5plus"));
    assert!(s.is_cctv("cctv_unknown"));
    assert!(!s.is_cctv("gd_1"));
    assert!(!s.is_cctv_given("CCTV5", "CCTV5"));
}

#[test]
fn signed_channels_by_prefix() {
    let s = state();
    for id in ["js_1", "zj_1", "sd_1", "sh_1"] {
        assert!(s.is_signed_channel(id));
    }
    assert!(!s.is_signed_channel("gd_js_1"));
}

#[test]
fn first_rule_with_a_prefix_applies() {
    let s = state();
    assert_eq!(s.site_rule_for("gd_2").unwrap().prefix, "gd_");
    assert!(s.site_rule_for("hb_1").is_none());
}

#[test]
fn headers_by_rule_and_by_address() {
    let s = state();
    let by_rule = s.referer_headers("gd_1", "https://cdn.h:8443/a/b.ts");
    assert_eq!(by_rule.len(), 6);
    assert_eq!(header(&by_rule, "Referer"), Some("https://r/"));
    assert_eq!(header(&by_rule, "Origin"), None);
    assert_eq!(header(&by_rule, "User-Agent"), Some("UA"));
    let by_address = s.referer_headers("hb_1", "https://cdn.h:8443/a/b.ts");
    assert_eq!(by_address[0], ("Accept".to_string(), "*/*".to_string()));
    assert_eq!(header(&by_address, "Accept-Language"), Some("zh-CN,zh;q=0.9"));
    assert_eq!(header(&by_address, "Accept-Encoding"), Some("identity"));
    assert_eq!(header(&by_address, "Connection"), Some("keep-alive"));
    assert_eq!(header(&by_address, "Referer"), Some("https://cdn.h/"));
    assert_eq!(header(&by_address, "Origin"), Some("https://cdn.h"));
    let unreadable = s.referer_headers("hb_1", "no address");
    assert_eq!(header(&unreadable, "Referer"), None);
    let shanghai = s.referer_headers("sh_1", "https://cdn.h/a");
    assert_eq!(
        header(&shanghai, "User-Agent"),
        Some(
            "Mozilla/5.0 (Windows NT 10.0; Win64; x64) AppleWebKit/537.36 (KHTML, like Gecko) \
             Chrome/150.0.0.0 Safari/537.36"
        )
    );
}

#[test]
fn channels_start_unknown() {
    let mut s = state();
    let c = s.get_or_create_channel_state("gd_1");
    assert_eq!(c.stream_url, None);
    assert_eq!(c.stream_url_fetched_at, None);
    assert!(!c.fetching);
    assert_eq!(c.viewer_count, 0);
}
