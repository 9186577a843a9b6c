use tv_proxy::db::{AppDb, ChannelRow, CctvRow, ConfigValues, RuleRow, BUILTIN_COUNT};

fn no_config() -> ConfigValues {
    ConfigValues {
        user_agent: None,
        blocked_domains: None,
        poll_interval_ms: None,
        decrypt_cache_ttl_ms: None,
        fetch_timeout_ms: None,
        proxy_timeout_ms: None,
        jstv_auth_enabled: None,
        global_dom_filter: None,
    }
}

fn row(id: &str, sort_order: i64) -> CctvRow {
    CctvRow {
        id: id.to_string(),
        name: id.to_uppercase(),
        m3u8_url: "http://h/p.m3u8".to_string(),
        fallback_url: None,
        sort_order,
        enabled: 1,
    }
}

#[test]
fn an_empty_database_has_the_defaults() {
    let db = AppDb::load(&no_config(), &vec![], &vec![], &vec![]);
    assert_eq!(db.user_agent, "Mozilla/5.0 (Windows NT 10.0; Win64; x64)");
    assert!(db.blocked_domains.is_empty());
    assert_eq!(db.poll_interval_ms, 1_500_000);
    assert_eq!(db.decrypt_cache_ttl_ms, 1_800_000);
    assert_eq!(db.fetch_timeout_ms, 20_000);
    assert_eq!(db.proxy_timeout_ms, 8_000);
    assert!(!db.jstv_auth_enabled);
    assert_eq!(db.global_dom_filter, "");
    assert_eq!(db.cctv_channels.len(), BUILTIN_COUNT);
    assert_eq!(db.cctv_channels[0].id, "hunan");
    assert_eq!(db.cctv_channels[0].sort_order, 19);
    assert_eq!(db.cctv_channels[29].name, "CGTN纪录");
    assert_eq!(db.cctv_channels[29].sort_order, 48);
    assert!(db.cctv_channels.iter().all(|c| c.enabled && c.fallback_url.is_none()));
}

#[test]
fn configured_values_are_used() {
    let mut config = no_config();
    config.user_agent = Some("agent".to_string());
    config.blocked_domains = Some("[\"a.com\", \"b.com\"]".to_string());
    config.poll_interval_ms = Some("5".to_string());
    config.decrypt_cache_ttl_ms = Some("ten".to_string());
    config.fetch_timeout_ms = Some("-1".to_string());
    config.jstv_auth_enabled = Some("true".to_string());
    config.global_dom_filter = Some("filter".to_string());
    let db = AppDb::load(&config, &vec![], &vec![], &vec![]);
    assert_eq!(db.user_agent, "agent");
    assert_eq!(db.blocked_domains, vec!["a.com".to_string(), "b.com".to_string()]);
    assert_eq!(db.poll_interval_ms, 5);
    assert_eq!(db.decrypt_cache_ttl_ms, 1_800_000);
    assert_eq!(db.fetch_timeout_ms, 20_000);
    assert!(db.jstv_auth_enabled);
    assert_eq!(db.global_dom_filter, "filter");
    config.blocked_domains = Some("[1, 2]".to_string());
    config.jstv_auth_enabled = Some("TRUE".to_string());
    let db = AppDb::load(&config, &vec![], &vec![], &vec![]);
    assert!(db.blocked_domains.is_empty());
    assert!(!db.jstv_auth_enabled);
}

#[test]
fn channels_that_are_always_offered_follow_those_of_the_rows() {
    let rows = vec![row("cctv1", 40), row("hunan", 3)];
    let db = AppDb::load(&no_config(), &rows, &vec![], &vec![]);
    assert_eq!(db.cctv_channels.len(), 2 + BUILTIN_COUNT - 1);
    assert_eq!(db.cctv_channels[1].id, "hunan");
    assert_eq!(db.cctv_channels[1].m3u8_url, "http://h/p.m3u8");
    assert_eq!(db.cctv_channels[2].id, "dongfang_ws");
    assert_eq!(db.cctv_channels[2].sort_order, 42);
    let mut ids: Vec<String> = db.cctv_channels.iter().map(|c| c.id.clone()).collect();
    ids.sort();
    ids.dedup();
    assert_eq!(ids.len(), db.cctv_channels.len());
}

#[test]
fn disabled_rows_are_not_offered() {
    let mut hunan = row("hunan", 90);
    hunan.enabled = 0;
    let db = AppDb::load(&no_config(), &vec![row("cctv1", 5), hunan.clone()], &vec![], &vec![]);
    assert!(db.cctv_channels.iter().all(|c| c.id != "hunan"));
    assert_eq!(db.cctv_channels.len(), 1 + BUILTIN_COUNT - 1);
    assert_eq!(db.cctv_channels[1].id, "dongfang_ws");
    assert_eq!(db.cctv_channels[1].sort_order, 7);
    let mut again = hunan.clone();
    again.enabled = 1;
    let db = AppDb::load(&no_config(), &vec![hunan, again], &vec![], &vec![]);
    assert_eq!(db.cctv_channels.iter().filter(|c| c.id == "hunan").count(), 1);
}

#[test]
fn sort_orders_wrap_around() {
    let db = AppDb::load(&no_config(), &vec![row("x", i64::MAX)], &vec![], &vec![]);
    assert_eq!(db.cctv_channels[1].sort_order, i64::MIN);
}

#[test]
fn rows_without_a_type_or_a_poll_mark_have_the_defaults() {
    let channel = ChannelRow {
        id: "gd_1".to_string(),
        name: "GD".to_string(),
        url: "http://h/p".to_string(),
        group_name: None,
        channel_type: None,
        sid: Some("7".to_string()),
        jstv_id: None,
    };
    let mut rule = RuleRow {
        prefix: "gd_".to_string(),
        name: "GD".to_string(),
        target_url: None,
        m3u8_match: None,
        referer: None,
        origin: None,
        dom_filter: None,
        selectors: None,
        action_script: None,
        is_polled: None,
    };
    let db = AppDb::load(&no_config(), &vec![], &vec![channel.clone()], &vec![rule.clone()]);
    assert_eq!(db.channels[0].channel_type, "m3u8");
    assert_eq!(db.channels[0].sid, Some("7".to_string()));
    assert!(db.site_rules[0].is_polled);
    rule.is_polled = Some(0);
    let mut global = rule.clone();
    global.prefix = "global".to_string();
    let rules = vec![global, rule.clone()];
    let db = AppDb::load(&no_config(), &vec![], &vec![], &rules);
    assert_eq!(db.site_rules.len(), 1);
    assert_eq!(db.site_rules[0].prefix, "gd_");
    let db = AppDb::load(&no_config(), &vec![], &vec![channel], &vec![rule]);
    assert!(!db.site_rules[0].is_polled);
}
