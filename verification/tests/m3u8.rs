use tv_proxy::m3u8::{
    bandwidth_of, classify_line, decode_url, directory_of, fix_cctv_url, is_auth_error, is_refusal, m3u_entry,
    resolve_url, rewrite_playlist, select_highest_bandwidth, DecodeUrlError, LineKind,
};

const BASE: &str = "https://example.com/live/stream/playlist.m3u8";

fn chars(s: &str) -> Vec<char> {
    s.chars().collect()
}

#[test]
fn test_rewrite_relative_segments() {
    let playlist = "#EXTM3U\n#EXTINF:6.0,\nseg001.ts\nseg002.ts";
    let result = rewrite_playlist(
        playlist,
        "https://example.com/live/stream/playlist.m3u8",
        "localhost:3000",
        "cctv1",
    );
    assert!(result.contains("http://localhost:3000/cctv1/segment/"));
}

#[test]
fn test_select_highest_bandwidth() {
    let master = "#EXTM3U\n\
        #EXT-X-STREAM-INF:BANDWIDTH=500000\nlow.m3u8\n\
        #EXT-X-STREAM-INF:BANDWIDTH=2000000\nhigh.m3u8";
    let result = select_highest_bandwidth(master, "https://cdn.example.com/live/index.m3u8");
    assert!(result.unwrap().contains("high.m3u8"));
}

#[test]
fn test_fix_cctv_url() {
    let url = "https://ldncctvwbcdcnc.v.wscdns.com/ldncctvwbcd/cdrmldcctv1_1/index.m3u8?BR=td";
    // URL contains BR= so should not be rewritten
    assert_eq!(fix_cctv_url(url), url);

    let url2 = "https://example.com/channel/index.m3u8";
    let fixed = fix_cctv_url(url2);
    assert!(fixed.contains("_720P/playlist.m3u8"));
}

#[test]
fn selected_variant_is_resolved_against_the_playlist() {
    let master = "#EXTM3U\n#EXT-X-STREAM-INF:BANDWIDTH=1\nlow.m3u8\n\
        #EXT-X-STREAM-INF:BANDWIDTH=2,RESOLUTION=1x1\nhigh.m3u8";
    assert_eq!(
        select_highest_bandwidth(master, "https://cdn.example.com/live/index.m3u8"),
        Some("https://cdn.example.com/live/high.m3u8".to_string())
    );
    assert_eq!(select_highest_bandwidth(master, "no address"), None);
}

#[test]
fn first_of_two_equal_variants_is_selected() {
    let master = "#EXT-X-STREAM-INF:BANDWIDTH=7\na.m3u8\n#EXT-X-STREAM-INF:BANDWIDTH=7\nb.m3u8";
    assert_eq!(
        select_highest_bandwidth(master, "http://h/x"),
        Some("http://h/a.m3u8".to_string())
    );
}

#[test]
fn variants_without_a_readable_bandwidth_are_passed_over() {
    let master = "#EXT-X-STREAM-INF:BANDWIDTH=fast\na.m3u8\n#EXT-X-STREAM-INF:CODECS=x\nb.m3u8";
    assert_eq!(select_highest_bandwidth(master, "http://h/x"), None);
}

#[test]
fn references_are_resolved() {
    assert_eq!(resolve_url("http://other/a.m3u8", "http://h/x/y"), "http://other/a.m3u8");
    assert_eq!(resolve_url("a.m3u8", "http://h/x/y"), "http://h/x/a.m3u8");
    assert_eq!(resolve_url("/a.m3u8", "http://h/x/y"), "http://h/a.m3u8");
    assert_eq!(resolve_url("a.m3u8", "no address"), "a.m3u8");
}

#[test]
fn relative_segment_is_routed_exactly() {
    let text = rewrite_playlist("#EXTM3U\nseg001.ts", BASE, "localhost:3000", "cctv1");
    assert_eq!(
        text,
        "#EXTM3U\nhttp://localhost:3000/cctv1/segment/\
         aHR0cHM6Ly9leGFtcGxlLmNvbS9saXZlL3N0cmVhbS9zZWcwMDEudHM"
    );
}

#[test]
fn rooted_and_absolute_segments_are_routed_exactly() {
    let text = rewrite_playlist("/abs/a.ts\r\nhttp://cdn.example.net/x.ts\n", BASE, "p", "id");
    assert_eq!(
        text,
        "http://p/id/segment/aHR0cHM6Ly9leGFtcGxlLmNvbS9hYnMvYS50cw\n\
         http://p/id/segment/aHR0cDovL2Nkbi5leGFtcGxlLm5ldC94LnRz"
    );
}

#[test]
fn keys_and_initial_segments_are_routed_exactly() {
    let text = rewrite_playlist(
        "#EXT-X-KEY:METHOD=AES-128,URI=\"key.bin\",IV=0x1\n#EXT-X-MAP:URI=\"init.mp4\"",
        BASE,
        "p",
        "id",
    );
    assert_eq!(
        text,
        "#EXT-X-KEY:METHOD=AES-128,\
         URI=\"http://p/id/key/aHR0cHM6Ly9leGFtcGxlLmNvbS9saXZlL3N0cmVhbS9rZXkuYmlu\",IV=0x1\n\
         #EXT-X-MAP:URI=\"http://p/id/segment/\
         aHR0cHM6Ly9leGFtcGxlLmNvbS9saXZlL3N0cmVhbS9pbml0Lm1wNA\""
    );
}

#[test]
fn other_lines_are_kept() {
    let playlist = "#EXTM3U\n\n  #EXTINF:6.0,\nhttp://log.example.com/x.gif\nplain\n#EXT-X-KEY:METHOD=NONE";
    assert_eq!(rewrite_playlist(playlist, BASE, "p", "id"), playlist);
    assert_eq!(rewrite_playlist("seg001.ts", "no address", "p", "id"), "seg001.ts");
}

#[test]
fn kinds_of_lines() {
    assert_eq!(classify_line(&chars("  ")), LineKind::Plain);
    assert_eq!(classify_line(&chars("#EXT-X-KEY:URI=\"k\"")), LineKind::Key);
    assert_eq!(classify_line(&chars("#EXT-X-MAP:URI=\"m\"")), LineKind::InitSegment);
    assert_eq!(classify_line(&chars("a.ts")), LineKind::Segment);
    assert_eq!(classify_line(&chars("https://h/report.gif")), LineKind::Plain);
}

#[test]
fn bandwidth_is_an_attribute_of_its_own() {
    let master = "#EXT-X-STREAM-INF:AVERAGE-BANDWIDTH=100,BANDWIDTH=900\na.m3u8\n\
        #EXT-X-STREAM-INF:BANDWIDTH=500\nb.m3u8";
    assert_eq!(
        select_highest_bandwidth(master, "http://h/m.m3u8"),
        Some("http://h/a.m3u8".to_string())
    );
    let band = |line: &str| bandwidth_of(&chars(line));
    assert_eq!(band("#EXT-X-STREAM-INF:BANDWIDTH=7,AVERAGE-BANDWIDTH=9"), Some(7));
    assert_eq!(band("#EXT-X-STREAM-INF:PROGRAM-ID=1, BANDWIDTH=8"), Some(8));
    assert_eq!(band("#EXT-X-STREAM-INF:NAME=\"a,BANDWIDTH=1\",BANDWIDTH=2"), Some(2));
    assert_eq!(band("#EXT-X-STREAM-INF:AVERAGE-BANDWIDTH=9"), Some(9));
    assert_eq!(band("#EXT-X-STREAM-INF:PROGRAM-ID=1;BANDWIDTH=5"), Some(5));
    assert_eq!(band("#EXT-X-STREAM-INF:NAME=\"x,BANDWIDTH=6"), Some(6));
    assert_eq!(band("#EXT-X-STREAM-INF:CODECS=x"), None);
    assert_eq!(band("#EXT-X-STREAM-INF:BANDWIDTH=x"), Some(0));
}

#[test]
fn a_single_bandwidth_is_read_wherever_it_stands() {
    let master = "#EXT-X-STREAM-INF:PROGRAM-ID=1;BANDWIDTH=5\na.m3u8";
    assert_eq!(
        select_highest_bandwidth(master, "http://h/m.m3u8"),
        Some("http://h/a.m3u8".to_string())
    );
}

#[test]
fn segments_are_routed_whatever_words_they_hold() {
    assert_eq!(
        rewrite_playlist("catalog.ts", "http://h/l/p.m3u8", "p:1", "c"),
        "http://p:1/c/segment/aHR0cDovL2gvbC9jYXRhbG9nLnRz"
    );
    for line in [
        "report.ts",
        "report/seg1.ts?beacon=1",
        "https://cdn.x.com/collect/a.m4s",
        "https://catalog.x.com/a.ts",
        "b.php?type=plain",
    ] {
        assert_eq!(classify_line(&chars(line)), LineKind::Segment, "{}", line);
    }
}

#[test]
fn reports_are_not_routed() {
    for line in [
        "https://log.x.com/beacon",
        "https://log.x.com/a.ts",
        "//a.log.x.com/p",
        "http://beacon.x.com/",
        "/report?x=1",
        "v1/collect/x",
        "beacon.gif#f",
        "log.php",
        "a?report",
        "https://mylog.x.com/i.gif",
        "reporter/a",
    ] {
        assert_eq!(classify_line(&chars(line)), LineKind::Plain, "{}", line);
    }
}

#[test]
fn directory_of_an_address() {
    let url = chars("http://h/a/b.m3u8");
    assert_eq!(directory_of(&url).to_vec(), chars("http://h/a/"));
    let bare = chars("b");
    assert_eq!(directory_of(&bare).to_vec(), bare);
}

#[test]
fn routed_address_reads_back() {
    let text = rewrite_playlist("频道/一.ts", "https://h/live/p.m3u8", "p", "id");
    let encoded = text.strip_prefix("http://p/id/segment/").unwrap();
    assert_eq!(decode_url(encoded), Ok("https://h/live/频道/一.ts".to_string()));
}

#[test]
fn undecodable_addresses_are_told_apart() {
    assert_eq!(decode_url("aHR0cDovL2gvcy50cw"), Ok("http://h/s.ts".to_string()));
    assert_eq!(decode_url("a*b"), Err(DecodeUrlError::Base64));
    assert_eq!(decode_url("aHR0cDovL2gvcy50cw=="), Err(DecodeUrlError::Base64));
    assert_eq!(decode_url("__4"), Err(DecodeUrlError::Utf8));
}

#[test]
fn fixing_an_address_twice_is_fixing_it_once() {
    let once = fix_cctv_url("https://example.com/channel/index.m3u8?x=1");
    assert_eq!(once, "https://example.com/channel_720P/playlist.m3u8?wsApp=HLS");
    assert_eq!(fix_cctv_url(&once), once);
    let other = "https://example.com/index.m3u8?b=200-2100";
    assert_eq!(fix_cctv_url(other), other);
}

#[test]
fn refusals_by_status_and_by_words() {
    assert!(is_auth_error(401, ""));
    assert!(is_auth_error(403, "fine"));
    assert!(!is_auth_error(200, "#EXTM3U"));
    assert!(!is_auth_error(500, ""));
    for words in [
        "TXSecret",
        "txTime",
        "AUTH_KEY",
        "Auth Failed",
        "auth expired",
        "bad Signature",
        "Unauthorized",
    ] {
        assert!(is_auth_error(200, words), "{}", words);
    }
    assert!(!is_refusal(200, "TXSecret"));
    assert!(is_refusal(200, "txsecret"));
}

#[test]
fn entry_of_a_channel() {
    assert_eq!(
        m3u_entry("cctv1", "CCTV-1", "CCTV", "h:1"),
        "#EXTINF:-1 tvg-id=\"cctv1\" tvg-name=\"CCTV-1\" group-title=\"CCTV\",CCTV-1\n\
         http://h:1/cctv1/playlist.m3u8\n"
    );
}
