use tv_proxy::browser::{
    is_stream_request, read_devtools_port, Action, BrowserHandle, BrowserNeed, BrowserPool,
    PortLine, RequestWait,
};
use tv_proxy::foreign::Param;

const SECOND: u128 = 1_000_000_000;

fn texts(steps: &[Action]) -> Vec<String> {
    steps
        .iter()
        .map(|a| match a {
            Action::Send(c) => c.to_text(),
            Action::Sleep(ms) => format!("sleep {}", ms),
            Action::Await(needle, ms) => format!("await {} {}", needle, ms),
        })
        .collect()
}

#[test]
fn ports_are_read() {
    let line = "[1:2] DevTools listening on ws://h:9222/devtools/browser/x:y";
    assert_eq!(read_devtools_port(line), PortLine::Port(9222));
    assert_eq!(
        read_devtools_port("a:b DevTools listening on ws://h:70000/x"),
        PortLine::Invalid
    );
    assert_eq!(read_devtools_port("a:b DevTools listening on ws://h:/x"), PortLine::Invalid);
    assert_eq!(read_devtools_port("DevTools listening on ws://h"), PortLine::Silent);
    assert_eq!(read_devtools_port("a:b:c:9222/x"), PortLine::Silent);
}

#[test]
fn addresses_of_tabs() {
    let browser = BrowserHandle { port: 9222 };
    assert_eq!(browser.new_tab(), "http://127.0.0.1:9222/json/new");
    assert_eq!(browser.close_tab("AB"), "http://127.0.0.1:9222/json/close/AB");
    let args = BrowserHandle::spawn();
    assert_eq!(args.len(), 9);
    assert_eq!(args[0], "--headless");
    assert_eq!(args[8], "--remote-debugging-address=127.0.0.1");
}

#[test]
fn default_visit_in_full() {
    let steps = texts(&BrowserHandle::fetch_default("http://h/\"p\"", ".m3u8", "UA"));
    assert_eq!(steps.len(), 7);
    assert_eq!(steps[0], "{\"id\":1,\"method\":\"Network.enable\",\"params\":{}}");
    assert_eq!(
        steps[1],
        "{\"id\":2,\"method\":\"Network.setUserAgentOverride\",\"params\":{\"userAgent\":\"UA\"}}"
    );
    assert_eq!(
        steps[2],
        "{\"id\":3,\"method\":\"Network.setBlockedURLs\",\"params\":{\"urls\":[\"*.jpg\",\"*.jpeg\",\
         \"*.png\",\"*.gif\",\"*.webp\",\"*.woff\",\"*.woff2\",\"*.ttf\",\"*.mp4\",\"*.mp3\"]}}"
    );
    assert_eq!(
        steps[3],
        "{\"id\":10,\"method\":\"Page.navigate\",\"params\":{\"url\":\"http://h/\\\"p\\\"\"}}"
    );
    assert_eq!(steps[4], "sleep 800");
    assert_eq!(
        steps[5],
        "{\"id\":11,\"method\":\"Runtime.evaluate\",\"params\":{\"expression\":\
         \"document.querySelectorAll('video').forEach(v => v.play().catch(()=>{}))\"}}"
    );
    assert_eq!(steps[6], "await .m3u8 25000");
}

#[test]
fn mango_visit_clicks_on_the_channel() {
    let steps = BrowserHandle::fetch_mgtv("http://h/p", "280", "UA");
    assert_eq!(steps.len(), 11);
    match &steps[7] {
        Action::Send(c) => {
            assert_eq!(c.id, 13);
            match &c.params[0].1 {
                Param::Text(t) => assert!(t.contains("'a[data-channel-sid=\"280\"]';")),
                other => panic!("{:?}", other),
            }
            assert!(c.to_text().contains("\"returnByValue\":true"));
        }
        other => panic!("{:?}", other),
    }
    let all = texts(&steps);
    assert_eq!(all[4], "sleep 5000");
    assert_eq!(all[8], "sleep 500");
    assert_eq!(all[10], "await .m3u8 12000");
}

#[test]
fn numbers_of_commands_ascend() {
    for steps in [
        BrowserHandle::fetch_default("p", "m", "u"),
        BrowserHandle::fetch_mgtv("p", "s", "u"),
    ] {
        let mut last = 0;
        for step in &steps {
            if let Action::Send(c) = step {
                assert!(c.id > last);
                last = c.id;
            }
        }
    }
}

#[test]
fn requests_to_streams() {
    assert!(is_stream_request("http://h/live.m3u8?k=1", ".m3u8"));
    assert!(!is_stream_request("http://h/live.mpd", ".m3u8"));
    for url in ["http://h/a.m3u8.ts", "http://log.h/a.m3u8", "http://h/beacon.m3u8", "http://h/collect.m3u8"] {
        assert!(!is_stream_request(url, ".m3u8"), "{}", url);
    }
}

#[test]
fn messages_of_the_browser() {
    let wait = RequestWait::wait_for_request(".m3u8", 100, 0);
    let hit = "{\"method\":\"Network.requestWillBeSent\",\"params\":{\"request\":{\"url\":\"http://h/a.m3u8\"}}}";
    assert_eq!(wait.received(hit), Some("http://h/a.m3u8".to_string()));
    let other = "{\"method\":\"Network.responseReceived\",\"params\":{\"request\":{\"url\":\"http://h/a.m3u8\"}}}";
    assert_eq!(wait.received(other), None);
    assert_eq!(wait.received("{\"method\":\"Network.requestWillBeSent\"}"), None);
    assert_eq!(wait.received("{\"method\":7}"), None);
    assert_eq!(wait.received("no json"), None);
    let any = RequestWait::wait_for_request("", 100, 0);
    assert_eq!(
        any.received("{\"method\":\"Network.requestWillBeSent\"}"),
        Some(String::new())
    );
}

#[test]
fn waits_end() {
    let wait = RequestWait::wait_for_request("x", 100, 5);
    assert!(wait.goes_on(100_000_004));
    assert!(!wait.goes_on(100_000_005));
    assert_eq!(RequestWait::wait_for_request("x", 1, u128::MAX).deadline, u128::MAX);
}

#[test]
fn failed_starts_are_not_repeated_at_once() {
    let mut pool = BrowserPool::new("chrome".to_string());
    assert_eq!(pool.ensure_browser(0), BrowserNeed::Start);
    pool.started(false, 7);
    assert_eq!(pool.ensure_browser(7 + 30 * SECOND - 1), BrowserNeed::BackOff);
    assert_eq!(pool.ensure_browser(0), BrowserNeed::BackOff);
    assert_eq!(pool.ensure_browser(7 + 30 * SECOND), BrowserNeed::Start);
    pool.started(true, 40 * SECOND);
    assert_eq!(pool.ensure_browser(40 * SECOND), BrowserNeed::Ready);
    assert_eq!(pool.chrome_path, "chrome");
}

#[test]
fn visits_by_kind_of_channel() {
    let pool = BrowserPool::new("chrome".to_string());
    let plain = pool.fetch("http://h/p", "live.m3u8", "UA", 20_000, None);
    assert_eq!(plain.timeout_ms, 20_000);
    assert_eq!(texts(&plain.steps)[6], "await live.m3u8 25000");
    let mango = pool.fetch("http://h/p", "live.m3u8", "UA", 20_000, Some("280"));
    assert_eq!(texts(&mango.steps)[10], "await .m3u8 12000");
}
