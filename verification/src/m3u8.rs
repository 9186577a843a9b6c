//! Playlists: choosing a variant, routing every resource through the proxy, and channel entries.
use crate::foreign::{
    base64url, base64url_bytes, base64url_decode, base64url_encode, is_base64url_char, join_url,
    lowercase, opt_view, parse_url, url_joined, url_origin, Origin, UrlOrigin,
};
use crate::text::{
    after, append_chars, before, begins_with, chars_of, contains, decimal, ends_with, find,
    finishes_with, holds, is_digit, is_white_space, join, law_decimal_reads_back,
    law_line_feeds_split, lemma_chars_occur, lemma_contains_itself,
    lemma_decimal_digits, lemma_find_contains, lemma_find_from, lemma_find_is, lemma_first_of,
    lemma_join_front, lemma_occurs_chars, lemma_part_contains, lemma_split_first, lines, occurs_at,
    parse_decimal, parse_u64, part_after, part_before, replace_all, replaced, search, slice_views, split_lines,
    stands_at, starts_with, text_of, trim, trimmed, white_space,
};
use vstd::prelude::*;
use vstd::slice::slice_subrange;
use vstd::utf8::{decode_utf8, encode_utf8, valid_utf8};

verus! {

// ─── Models ──────────────────────────────────────────────────────────────────

/// A variant of a master playlist: its bandwidth and the reference to its media playlist.
pub struct Variant {
    pub bandwidth: u64,
    pub uri: Seq<char>,
}

/// A text ends inside a quoted string.
pub open spec fn in_quotes(s: Seq<char>) -> bool
    decreases s.len(),
{
    if s.len() == 0 {
        false
    } else if s.last() == '"' {
        !in_quotes(s.drop_last())
    } else {
        in_quotes(s.drop_last())
    }
}

/// The attribute whose name and equals sign are `name` begins at place `i` of a line: they stand
/// there outside quotes, behind a colon, a comma or white space, and so are not the end of a longer
/// name.
pub open spec fn is_attribute_at(line: Seq<char>, name: Seq<char>, i: int) -> bool {
    &&& 0 < i
    &&& occurs_at(line, name, i)
    &&& line[i - 1] == ':' || line[i - 1] == ',' || is_white_space(line[i - 1])
    &&& !in_quotes(line.take(i))
}

/// The first place not below `k` at which the attribute begins.
pub open spec fn attribute_from(line: Seq<char>, name: Seq<char>, k: int) -> Option<int>
    decreases line.len() - k,
{
    if k >= line.len() {
        None
    } else if is_attribute_at(line, name, k) {
        Some(k)
    } else {
        attribute_from(line, name, k + 1)
    }
}

/// The number that a line gives behind a `BANDWIDTH=` at place `i`: the digits up to the next comma
/// or the next `BANDWIDTH=`, or zero where they are no number.
pub open spec fn digits_at(line: Seq<char>, i: int) -> u64 {
    match parse_decimal(
        before(before(line.skip(i + "BANDWIDTH="@.len()), "BANDWIDTH="@), ","@),
        u64::MAX as nat,
    ) {
        Some(n) => n as u64,
        None => 0,
    }
}

/// The bandwidth that a stream line gives: that of its attribute `BANDWIDTH`, or, where it has none,
/// the number behind the first `BANDWIDTH=` that it holds. Nothing where it holds none.
pub open spec fn stream_bandwidth(line: Seq<char>) -> Option<u64> {
    match attribute_from(line, "BANDWIDTH="@, 0) {
        Some(i) => Some(digits_at(line, i)),
        None => match find(line, "BANDWIDTH="@) {
            Some(i) => Some(digits_at(line, i)),
            None => None,
        },
    }
}

/// The variants that some lines list, and the bandwidth announced for the next reference.
pub open spec fn scan_variants(ls: Seq<Seq<char>>) -> (Seq<Variant>, u64)
    decreases ls.len(),
{
    if ls.len() == 0 {
        (seq![], 0)
    } else {
        let (found, announced) = scan_variants(ls.drop_last());
        let t = trim(ls.last());
        if starts_with(t, "#EXT-X-STREAM-INF"@) {
            match stream_bandwidth(t) {
                Some(b) => (found, b),
                None => (found, announced),
            }
        } else if t.len() > 0 && !starts_with(t, "#"@) && announced > 0 {
            (found.push(Variant { bandwidth: announced, uri: t }), 0)
        } else {
            (found, announced)
        }
    }
}

/// The variants of a master playlist, in the order in which they stand.
pub open spec fn variants(playlist: Seq<char>) -> Seq<Variant> {
    scan_variants(lines(playlist)).0
}

/// The variant at `i` has the highest bandwidth, and is the first that has it.
pub open spec fn is_best(vs: Seq<Variant>, i: int) -> bool {
    &&& 0 <= i < vs.len()
    &&& forall|j: int| 0 <= j < vs.len() ==> (#[trigger] vs[j]).bandwidth <= vs[i].bandwidth
    &&& forall|j: int| 0 <= j < i ==> (#[trigger] vs[j]).bandwidth < vs[i].bandwidth
}

/// The place of the best of some variants, of which there is one at least.
pub open spec fn best_place(vs: Seq<Variant>) -> int
    decreases vs.len(),
{
    if vs.len() <= 1 {
        0
    } else {
        let before = best_place(vs.drop_last());
        if vs.last().bandwidth > vs[before].bandwidth {
            vs.len() - 1
        } else {
            before
        }
    }
}

/// The reference of the best variant of a master playlist.
pub open spec fn best_uri(playlist: Seq<char>) -> Option<Seq<char>> {
    if variants(playlist).len() == 0 {
        None
    } else {
        Some(variants(playlist)[best_place(variants(playlist))].uri)
    }
}

/// The URL of the best variant of a master playlist at `base`.
pub open spec fn selected(playlist: Seq<char>, base: Seq<char>) -> Option<Seq<char>> {
    match url_origin(base) {
        Some(_) => match best_uri(playlist) {
            Some(uri) => Some(resolved(uri, base)),
            None => None,
        },
        None => None,
    }
}

/// The URL that a reference in a playlist at `base` stands for.
pub open spec fn resolved(href: Seq<char>, base: Seq<char>) -> Seq<char> {
    if starts_with(href, "http"@) {
        href
    } else {
        joined_or_self(href, base)
    }
}

/// `href` resolved against `base`, or `href` itself where it cannot be.
pub open spec fn joined_or_self(href: Seq<char>, base: Seq<char>) -> Seq<char> {
    match url_joined(base, href) {
        Some(u) => u,
        None => href,
    }
}

/// How a line of a media playlist is treated.
#[derive(Debug, Clone, Copy, PartialEq, Eq, Structural)]
pub enum LineKind {
    /// It stays as it is.
    Plain,
    /// Its `URI` attribute names an encryption key.
    Key,
    /// Its `URI` attribute names an initialisation segment.
    InitSegment,
    /// It is a reference to a media segment.
    Segment,
}

/// A reference without its query and its fragment.
pub open spec fn bare_reference(t: Seq<char>) -> Seq<char> {
    before(before(t, "?"@), "#"@)
}

/// The host and the path of a reference that names a host, without the slashes before them.
pub open spec fn host_and_path(t: Seq<char>) -> Option<Seq<char>> {
    if starts_with(t, "//"@) {
        Some(t.skip(2))
    } else if starts_with(t, "http"@) {
        after(t, "://"@)
    } else {
        None
    }
}

/// The host of a reference, or nothing.
pub open spec fn reference_host(t: Seq<char>) -> Seq<char> {
    match host_and_path(t) {
        Some(rest) => before(rest, "/"@),
        None => seq![],
    }
}

/// The path of a reference.
pub open spec fn reference_path(t: Seq<char>) -> Seq<char> {
    match host_and_path(t) {
        Some(rest) => match after(rest, "/"@) {
            Some(path) => path,
            None => seq![],
        },
        None => t,
    }
}

/// A label of a host is that of a statistics service.
pub open spec fn is_tracking_host(host: Seq<char>) -> bool {
    let labels = "."@ + host + "."@;
    ||| contains("."@ + host, ".log."@)
    ||| contains(labels, ".report."@)
    ||| contains(labels, ".beacon."@)
    ||| contains(labels, ".collect."@)
}

/// A reference holds a word that those of statistics services hold.
pub open spec fn has_tracking_word(t: Seq<char>) -> bool {
    contains(t, "log."@) || contains(t, "report"@) || contains(t, "beacon"@) || contains(
        t,
        "collect"@,
    )
}

/// A path ends as that of a media file does.
pub open spec fn is_media_path(path: Seq<char>) -> bool {
    ||| ends_with(path, ".ts"@)
    ||| ends_with(path, ".m4s"@)
    ||| ends_with(path, ".mp4"@)
    ||| ends_with(path, ".m4a"@)
    ||| ends_with(path, ".m4v"@)
    ||| ends_with(path, ".aac"@)
    ||| ends_with(path, ".mp3"@)
    ||| ends_with(path, ".vtt"@)
}

/// A reference that only reports to a statistics service: its host is that of one, or it holds the
/// word of one and its path is not that of a media file.
pub open spec fn is_tracking(t: Seq<char>) -> bool {
    let bare = bare_reference(t);
    is_tracking_host(reference_host(bare)) || (has_tracking_word(t) && !is_media_path(
        reference_path(bare),
    ))
}

/// How a line of a media playlist is treated.
pub open spec fn line_kind(line: Seq<char>) -> LineKind {
    let t = trim(line);
    if t.len() == 0 {
        LineKind::Plain
    } else if starts_with(t, "#EXT-X-KEY"@) && contains(t, "URI="@) {
        LineKind::Key
    } else if starts_with(t, "#EXT-X-MAP"@) && contains(t, "URI="@) {
        LineKind::InitSegment
    } else if starts_with(t, "#"@) || is_tracking(t) {
        LineKind::Plain
    } else if !contains(t, "."@) && !contains(t, "/"@) && !contains(t, "?"@) {
        LineKind::Plain
    } else {
        LineKind::Segment
    }
}

/// The value of the first `URI="..."` of a line.
pub open spec fn attr_uri(t: Seq<char>) -> Option<Seq<char>> {
    match after(t, "URI=\""@) {
        Some(rest) => match find(rest, "\""@) {
            Some(end) => Some(rest.take(end)),
            None => None,
        },
        None => None,
    }
}

/// An `URI` attribute with the given value.
pub open spec fn uri_attr(value: Seq<char>) -> Seq<char> {
    "URI=\""@ + value + "\""@
}

/// The address under which the proxy serves a resource of a channel.
pub open spec fn proxy_route(
    host: Seq<char>,
    id: Seq<char>,
    action: Seq<char>,
    encoded: Seq<char>,
) -> Seq<char> {
    "http://"@ + host + "/"@ + id + "/"@ + action + "/"@ + encoded
}

/// The address under which the proxy serves the resource at `url`.
pub open spec fn routed(
    host: Seq<char>,
    id: Seq<char>,
    action: Seq<char>,
    url: Seq<char>,
) -> Seq<char> {
    proxy_route(host, id, action, base64url(encode_utf8(url)))
}

/// A line with its `URI` attribute routed through the proxy.
pub open spec fn rewrite_attr(
    t: Seq<char>,
    action: Seq<char>,
    base: Seq<char>,
    host: Seq<char>,
    id: Seq<char>,
) -> Seq<char> {
    match attr_uri(t) {
        Some(uri) => replace_all(
            t,
            uri_attr(uri),
            uri_attr(routed(host, id, action, joined_or_self(uri, base))),
        ),
        None => t,
    }
}

/// The scheme and the host of an origin.
pub open spec fn scheme_host(o: Origin) -> Seq<char> {
    o.scheme + "://"@ + host_or_empty(o)
}

/// The host of an origin, or nothing.
pub open spec fn host_or_empty(o: Origin) -> Seq<char> {
    match o.host {
        Some(h) => h,
        None => seq![],
    }
}

/// The last index at which `c` stands in `s`.
pub open spec fn last_index(s: Seq<char>, c: char) -> Option<int>
    decreases s.len(),
{
    if s.len() == 0 {
        None
    } else if s.last() == c {
        Some(s.len() - 1)
    } else {
        last_index(s.drop_last(), c)
    }
}

/// A URL up to its last slash, or all of it where it has none.
pub open spec fn directory(url: Seq<char>) -> Seq<char> {
    match last_index(url, '/') {
        Some(i) => url.take(i + 1),
        None => url,
    }
}

/// The absolute URL of a segment reference in a playlist at `url`.
pub open spec fn segment_url(t: Seq<char>, origin: Origin, url: Seq<char>) -> Seq<char> {
    if starts_with(t, "http"@) {
        t
    } else if starts_with(t, "/"@) {
        scheme_host(origin) + t
    } else {
        directory(url) + t
    }
}

/// A line of a media playlist at `url`, with its resource routed through the proxy.
pub open spec fn rewrite_line(
    line: Seq<char>,
    origin: Origin,
    url: Seq<char>,
    host: Seq<char>,
    id: Seq<char>,
) -> Seq<char> {
    let t = trim(line);
    match line_kind(line) {
        LineKind::Plain => line,
        LineKind::Key => rewrite_attr(t, "key"@, url, host, id),
        LineKind::InitSegment => rewrite_attr(t, "segment"@, url, host, id),
        LineKind::Segment => routed(host, id, "segment"@, segment_url(t, origin, url)),
    }
}

/// The lines of a media playlist at `url`, each with its resource routed through the proxy.
pub open spec fn rewritten_lines(
    playlist: Seq<char>,
    origin: Origin,
    url: Seq<char>,
    host: Seq<char>,
    id: Seq<char>,
) -> Seq<Seq<char>> {
    lines(playlist).map_values(|line: Seq<char>| rewrite_line(line, origin, url, host, id))
}

/// A media playlist at `url` with every resource routed through the proxy. A playlist whose URL
/// cannot be read stays as it is.
pub open spec fn rewritten(
    playlist: Seq<char>,
    url: Seq<char>,
    host: Seq<char>,
    id: Seq<char>,
) -> Seq<char> {
    match url_origin(url) {
        Some(origin) => join(rewritten_lines(playlist, origin, url, host, id), "\n"@),
        None => playlist,
    }
}

/// Why the encoded part of a proxied address names no URL.
#[derive(Debug, Clone, Copy, PartialEq, Eq, Structural)]
pub enum DecodeUrlError {
    /// It is no Base64 text.
    Base64,
    /// Its bytes are no UTF-8 text.
    Utf8,
}

/// The URL that the encoded part of a proxied address names.
pub open spec fn decoded_url(encoded: Seq<char>) -> Result<Seq<char>, DecodeUrlError> {
    match base64url_bytes(encoded) {
        Some(bytes) => if valid_utf8(bytes) {
            Ok(decode_utf8(bytes))
        } else {
            Err(DecodeUrlError::Utf8)
        },
        None => Err(DecodeUrlError::Base64),
    }
}

/// The URL of the resource that a line of a media playlist at `url` refers to, if it refers to
/// one.
pub open spec fn line_resource(line: Seq<char>, origin: Origin, url: Seq<char>) -> Option<
    Seq<char>,
> {
    let t = trim(line);
    match line_kind(line) {
        LineKind::Plain => None,
        LineKind::Segment => Some(segment_url(t, origin, url)),
        _ => match attr_uri(t) {
            Some(uri) => Some(joined_or_self(uri, url)),
            None => None,
        },
    }
}

/// The encoded part of a proxied address names a URL: it decodes to that URL, and holds characters
/// of the URL-safe alphabet only, so that it is one component of a path.
pub open spec fn names_url(encoded: Seq<char>, url: Seq<char>) -> bool {
    &&& decoded_url(encoded) == Ok::<Seq<char>, DecodeUrlError>(url)
    &&& forall|k: int| 0 <= k < encoded.len() ==> is_base64url_char(#[trigger] encoded[k])
}

/// The address that a rewritten line gives for the resource of a line leads back to it: the
/// encoded part of the address names the URL of the resource.
pub open spec fn line_leads_back(line: Seq<char>, origin: Origin, url: Seq<char>) -> bool {
    line_resource(line, origin, url) matches Some(target) ==> names_url(
        base64url(encode_utf8(target)),
        target,
    )
}

/// Every address in the rewritten form of a media playlist at `url` leads back to the resource
/// that the playlist named.
pub open spec fn leads_back(playlist: Seq<char>, url: Seq<char>) -> bool {
    url_origin(url) matches Some(origin) ==> forall|i: int|
        0 <= i < lines(playlist).len() ==> line_leads_back(
            #[trigger] lines(playlist)[i],
            origin,
            url,
        )
}

/// A CCTV address in the form that the proxy prefers: the 720P playlist in place of an index
/// playlist that asks for no other bit rate.
pub open spec fn fixed_cctv_url(url: Seq<char>) -> Seq<char> {
    if contains(url, "/index.m3u8"@) && !contains(url, "b=200-2100"@) && !contains(url, "BR="@) {
        before(url, "/index.m3u8"@) + "_720P/playlist.m3u8?wsApp=HLS"@
    } else {
        url
    }
}

/// A reply with this status and this body, in lower case, refuses for want of authorisation.
pub open spec fn refuses(status: u16, lower: Seq<char>) -> bool {
    ||| status == 403
    ||| status == 401
    ||| contains(lower, "txsecret"@)
    ||| contains(lower, "txtime"@)
    ||| contains(lower, "auth_key"@)
    ||| contains(lower, "auth failed"@)
    ||| contains(lower, "auth expired"@)
    ||| contains(lower, "signature"@)
    ||| contains(lower, "unauthorized"@)
}

/// The entry of a channel in a channel list.
pub open spec fn entry(id: Seq<char>, name: Seq<char>, group: Seq<char>, host: Seq<char>) -> Seq<
    char,
> {
    "#EXTINF:-1 tvg-id=\""@ + id + "\" tvg-name=\""@ + name + "\" group-title=\""@ + group + "\","@
        + name + "\nhttp://"@ + host + "/"@ + id + "/playlist.m3u8\n"@
}

// ─── Variants ────────────────────────────────────────────────────────────────

/// Whether a text ends inside a quoted string.
pub fn ends_in_quotes(s: &[char]) -> (r: bool)
    ensures
        r == in_quotes(s@),
{
    let mut open = false;
    let mut i: usize = 0;
    while i < s.len()
        invariant
            i <= s@.len(),
            open == in_quotes(s@.take(i as int)),
        decreases s.len() - i,
    {
        assert(s@.take(i + 1).drop_last() =~= s@.take(i as int));
        if s[i] == '"' {
            open = !open;
        }
        i = i + 1;
    }
    assert(s@.take(s@.len() as int) =~= s@);
    open
}

/// The first place at which the attribute of a line begins.
pub fn attribute_place(line: &[char], name: &str) -> (r: Option<usize>)
    ensures
        match r {
            Some(i) => attribute_from(line@, name@, 0) == Some(i as int) && i + name@.len()
                <= line@.len(),
            None => attribute_from(line@, name@, 0) is None,
        },
{
    let needle = chars_of(name);
    let mut i: usize = 0;
    while i < line.len()
        invariant
            i <= line@.len(),
            needle@ == name@,
            attribute_from(line@, name@, 0) == attribute_from(line@, name@, i as int),
        decreases line.len() - i,
    {
        if i > 0 && stands_at(line, needle.as_slice(), i) && (line[i - 1] == ':' || line[i - 1]
            == ',' || white_space(line[i - 1])) {
            let head = slice_subrange(line, 0, i);
            assert(head@ =~= line@.take(i as int));
            if !ends_in_quotes(head) {
                return Some(i);
            }
        }
        i = i + 1;
    }
    None
}

/// The number that a line gives behind a `BANDWIDTH=` at place `i`.
fn read_digits_at(line: &[char], i: usize) -> (r: u64)
    requires
        i + "BANDWIDTH="@.len() <= line@.len(),
    ensures
        r == digits_at(line@, i as int),
{
    let name = "BANDWIDTH=";
    let width: usize = chars_of(name).len();
    let n: usize = line.len();
    let rest = slice_subrange(line, i + width, n);
    assert(rest@ =~= line@.skip(i + name@.len()));
    match parse_u64(part_before(part_before(rest, name), ",")) {
        Some(b) => b,
        None => 0,
    }
}

/// The bandwidth that a stream line gives.
pub fn bandwidth_of(line: &[char]) -> (r: Option<u64>)
    ensures
        r == stream_bandwidth(line@),
{
    let name = "BANDWIDTH=";
    match attribute_place(line, name) {
        Some(i) => Some(read_digits_at(line, i)),
        None => match search(line, name) {
            Some(i) => Some(read_digits_at(line, i)),
            None => None,
        },
    }
}

/// The reference of the variant with the highest bandwidth, the first of them where several have
/// it.
pub fn best_variant(text: &str) -> (r: Option<String>)
    ensures
        opt_view(r) == best_uri(text@),
{
    let all = chars_of(text);
    let ls = split_lines(all.as_slice());
    let ghost seqs = lines(text@);
    let mut best_bw: u64 = 0;
    let mut best: Option<&[char]> = None;
    let ghost mut best_at: int = 0;
    let mut announced: u64 = 0;
    let mut i: usize = 0;
    assert(seqs.take(0) =~= seq![]);
    while i < ls.len()
        invariant
            i <= ls@.len(),
            seqs == lines(text@),
            slice_views(ls@) == seqs,
            ls@.len() == seqs.len(),
            announced == scan_variants(seqs.take(i as int)).1,
            match best {
                Some(uri) => {
                    &&& is_best(scan_variants(seqs.take(i as int)).0, best_at)
                    &&& scan_variants(seqs.take(i as int)).0[best_at].uri == uri@
                    &&& scan_variants(seqs.take(i as int)).0[best_at].bandwidth == best_bw
                },
                None => scan_variants(seqs.take(i as int)).0.len() == 0 && best_bw == 0,
            },
        decreases ls.len() - i,
    {
        let t = trimmed(ls[i]);
        let ghost so_far = scan_variants(seqs.take(i as int)).0;
        proof {
            assert(seqs.take(i + 1).drop_last() =~= seqs.take(i as int));
            assert(seqs.take(i + 1).last() == seqs[i as int]);
            assert(slice_views(ls@)[i as int] == ls@[i as int]@);
        }
        if begins_with(t, "#EXT-X-STREAM-INF") {
            if let Some(b) = bandwidth_of(t) {
                announced = b;
            }
        } else if t.len() > 0 && !begins_with(t, "#") && announced > 0 {
            proof {
                let grown = so_far.push(Variant { bandwidth: announced, uri: t@ });
                assert(scan_variants(seqs.take(i + 1)).0 == grown);
                assert(grown[so_far.len() as int].bandwidth == announced);
                assert forall|j: int| 0 <= j < so_far.len() implies grown[j] == so_far[j] by {}
                if announced > best_bw {
                    best_at = so_far.len() as int;
                }
            }
            if announced > best_bw {
                best_bw = announced;
                best = Some(t);
            }
            announced = 0;
        }
        i = i + 1;
    }
    assert(seqs.take(seqs.len() as int) =~= seqs);
    match best {
        Some(uri) => {
            proof {
                law_best_place_is_best(variants(text@));
                law_best_variant_is_unique(variants(text@), best_at, best_place(variants(text@)));
            }
            Some(text_of(uri))
        },
        None => None,
    }
}

/// The URL that a reference in a playlist at `base` stands for.
pub fn resolve_url(href: &str, base: &str) -> (r: String)
    ensures
        r@ == resolved(href@, base@),
{
    let t = chars_of(href);
    if begins_with(t.as_slice(), "http") {
        href.to_owned()
    } else {
        join_or_self(href, base)
    }
}

/// `href` resolved against `base`, or `href` itself where it cannot be.
pub fn join_or_self(href: &str, base: &str) -> (r: String)
    ensures
        r@ == joined_or_self(href@, base@),
{
    match join_url(base, href) {
        Ok(u) => u,
        Err(_) => href.to_owned(),
    }
}

/// The URL of the variant with the highest bandwidth of a master playlist at `base_url`. Nothing
/// where `base_url` is no absolute URL, or where the playlist lists no variant.
pub fn select_highest_bandwidth(text: &str, base_url: &str) -> (r: Option<String>)
    ensures
        opt_view(r) == selected(text@, base_url@),
{
    match parse_url(base_url) {
        Ok(_) => match best_variant(text) {
            Some(uri) => Some(resolve_url(uri.as_str(), base_url)),
            None => None,
        },
        Err(_) => None,
    }
}

// ─── Rewriting ───────────────────────────────────────────────────────────────

/// The host and the path of a reference, which may both be empty.
pub fn split_reference<'a>(t: &'a [char]) -> (r: (&'a [char], &'a [char]))
    ensures
        r.0@ == reference_host(t@),
        r.1@ == reference_path(t@),
{
    let n: usize = t.len();
    let none = slice_subrange(t, 0, 0);
    assert(none@ =~= seq![]);
    let named = if begins_with(t, "//") {
        proof {
            reveal_strlit("//");
        }
        let rest = slice_subrange(t, 2, n);
        assert(rest@ =~= t@.skip(2));
        Some(rest)
    } else if begins_with(t, "http") {
        part_after(t, "://")
    } else {
        None
    };
    match named {
        Some(rest) => {
            let path = match part_after(rest, "/") {
                Some(p) => p,
                None => none,
            };
            (part_before(rest, "/"), path)
        },
        None => (none, t),
    }
}

/// A text with another before it and a third behind it.
fn enclosed(head: &str, s: &[char], tail: &str) -> (r: Vec<char>)
    ensures
        r@ == head@ + s@ + tail@,
{
    let mut out = chars_of(head);
    append_chars(&mut out, s);
    append_chars(&mut out, chars_of(tail).as_slice());
    out
}

/// Whether a label of a host is that of a statistics service.
pub fn names_tracking_host(host: &[char]) -> (r: bool)
    ensures
        r == is_tracking_host(host@),
{
    proof {
        reveal_strlit("");
        assert("."@ + host@ + ""@ =~= "."@ + host@);
    }
    let open = enclosed(".", host, "");
    let labels = enclosed(".", host, ".");
    let s = labels.as_slice();
    holds(open.as_slice(), ".log.") || holds(s, ".report.") || holds(s, ".beacon.") || holds(
        s,
        ".collect.",
    )
}

/// Whether a reference holds a word that those of statistics services hold.
pub fn holds_tracking_word(t: &[char]) -> (r: bool)
    ensures
        r == has_tracking_word(t@),
{
    holds(t, "log.") || holds(t, "report") || holds(t, "beacon") || holds(t, "collect")
}

/// Whether a path ends as that of a media file does.
pub fn names_media(path: &[char]) -> (r: bool)
    ensures
        r == is_media_path(path@),
{
    finishes_with(path, ".ts") || finishes_with(path, ".m4s") || finishes_with(path, ".mp4")
        || finishes_with(path, ".m4a") || finishes_with(path, ".m4v") || finishes_with(path, ".aac")
        || finishes_with(path, ".mp3") || finishes_with(path, ".vtt")
}

/// Whether a reference only reports to a statistics service.
pub fn only_reports(t: &[char]) -> (r: bool)
    ensures
        r == is_tracking(t@),
{
    let (host, path) = split_reference(part_before(part_before(t, "?"), "#"));
    names_tracking_host(host) || (holds_tracking_word(t) && !names_media(path))
}

/// How a line of a media playlist is treated.
pub fn classify_line(line: &[char]) -> (r: LineKind)
    ensures
        r == line_kind(line@),
{
    let t = trimmed(line);
    if t.len() == 0 {
        LineKind::Plain
    } else if begins_with(t, "#EXT-X-KEY") && holds(t, "URI=") {
        LineKind::Key
    } else if begins_with(t, "#EXT-X-MAP") && holds(t, "URI=") {
        LineKind::InitSegment
    } else if begins_with(t, "#") || only_reports(t) {
        LineKind::Plain
    } else if !holds(t, ".") && !holds(t, "/") && !holds(t, "?") {
        LineKind::Plain
    } else {
        LineKind::Segment
    }
}

/// The value of the first `URI="..."` of a line.
pub fn uri_of_line(t: &[char]) -> (r: Option<String>)
    ensures
        match r {
            Some(uri) => attr_uri(t@) == Some(uri@),
            None => attr_uri(t@) is None,
        },
{
    let open = "URI=\"";
    let width: usize = chars_of(open).len();
    let n: usize = t.len();
    match search(t, open) {
        Some(i) => {
            let rest = slice_subrange(t, i + width, n);
            assert(rest@ =~= t@.skip(i + open@.len()));
            match search(rest, "\"") {
                Some(end) => {
                    let value = slice_subrange(rest, 0, end);
                    assert(value@ =~= rest@.take(end as int));
                    Some(text_of(value))
                },
                None => None,
            }
        },
        None => None,
    }
}

/// An `URI` attribute with the given value.
pub fn make_uri_attr(value: &str) -> (r: Vec<char>)
    ensures
        r@ == uri_attr(value@),
{
    let mut out = chars_of("URI=\"");
    append_chars(&mut out, chars_of(value).as_slice());
    append_chars(&mut out, chars_of("\"").as_slice());
    out
}

/// A line in which every `URI` attribute with the value `from` has the value `to` instead.
pub fn replace_uri(t: &[char], from: &str, to: &str) -> (r: String)
    ensures
        r@ == replace_all(t@, uri_attr(from@), uri_attr(to@)),
{
    let old_attr = make_uri_attr(from);
    let new_attr = make_uri_attr(to);
    proof {
        reveal_strlit("URI=\"");
    }
    let out = replaced(t, old_attr.as_slice(), new_attr.as_slice());
    text_of(out.as_slice())
}

/// The address under which the proxy serves a resource of a channel.
pub fn make_proxy_route(host: &str, id: &str, action: &str, encoded: &str) -> (r: String)
    ensures
        r@ == proxy_route(host@, id@, action@, encoded@),
{
    let mut out = "http://".to_owned();
    out.append(host);
    out.append("/");
    out.append(id);
    out.append("/");
    out.append(action);
    out.append("/");
    out.append(encoded);
    out
}

/// The address under which the proxy serves the resource at `url`.
pub fn route_url(host: &str, id: &str, action: &str, url: &str) -> (r: String)
    ensures
        r@ == routed(host@, id@, action@, url@),
        names_url(base64url(encode_utf8(url@)), url@),
{
    let encoded = base64url_encode(url.as_bytes());
    proof {
        law_encoded_url_reads_back(url@, encoded@);
    }
    make_proxy_route(host, id, action, encoded.as_str())
}

/// A line with its `URI` attribute routed through the proxy.
pub fn rewrite_attr_uri(t: &[char], action: &str, base: &str, host: &str, id: &str) -> (r: String)
    ensures
        r@ == rewrite_attr(t@, action@, base@, host@, id@),
        attr_uri(t@) matches Some(uri) ==> names_url(
            base64url(encode_utf8(joined_or_self(uri, base@))),
            joined_or_self(uri, base@),
        ),
{
    match uri_of_line(t) {
        Some(uri) => {
            let url = join_or_self(uri.as_str(), base);
            let route = route_url(host, id, action, url.as_str());
            replace_uri(t, uri.as_str(), route.as_str())
        },
        None => text_of(t),
    }
}

/// The scheme and the host of an origin.
pub fn make_scheme_host(origin: &UrlOrigin) -> (r: String)
    ensures
        r@ == scheme_host(origin@),
{
    let mut out = origin.scheme.clone();
    out.append("://");
    if let Some(h) = &origin.host {
        out.append(h.as_str());
    } else {
        assert(out@ =~= scheme_host(origin@));
    }
    out
}

/// A URL up to its last slash.
pub fn directory_of(url: &[char]) -> (r: &[char])
    ensures
        r@ == directory(url@),
{
    let n: usize = url.len();
    let mut i: usize = n;
    assert(url@.take(n as int) =~= url@);
    while i > 0
        invariant
            i <= n == url@.len(),
            last_index(url@, '/') == last_index(url@.take(i as int), '/'),
        decreases i,
    {
        if url[i - 1] == '/' {
            let out = slice_subrange(url, 0, i);
            assert(out@ =~= url@.take(i as int));
            return out;
        }
        assert(url@.take(i as int).drop_last() =~= url@.take(i - 1));
        i = i - 1;
    }
    assert(url@.take(0).len() == 0);
    url
}

/// The absolute URL of a segment reference in a playlist at `url`.
pub fn make_segment_url(t: &[char], origin: &UrlOrigin, url: &str) -> (r: String)
    ensures
        r@ == segment_url(t@, origin@, url@),
{
    if begins_with(t, "http") {
        text_of(t)
    } else {
        let mut out = if begins_with(t, "/") {
            make_scheme_host(origin)
        } else {
            let whole = chars_of(url);
            text_of(directory_of(whole.as_slice()))
        };
        out.append(text_of(t).as_str());
        out
    }
}

/// A line of a media playlist at `url`, with its resource routed through the proxy.
pub fn route_line(line: &[char], origin: &UrlOrigin, url: &str, host: &str, id: &str) -> (r: String)
    ensures
        r@ == rewrite_line(line@, origin@, url@, host@, id@),
        line_leads_back(line@, origin@, url@),
{
    let t = trimmed(line);
    match classify_line(line) {
        LineKind::Plain => text_of(line),
        LineKind::Key => rewrite_attr_uri(t, "key", url, host, id),
        LineKind::InitSegment => rewrite_attr_uri(t, "segment", url, host, id),
        LineKind::Segment => {
            let target = make_segment_url(t, origin, url);
            route_url(host, id, "segment", target.as_str())
        },
    }
}

/// A media playlist at `url`, whose origin is known, with every resource routed through the
/// proxy.
pub fn rewrite_lines(text: &str, origin: &UrlOrigin, url: &str, host: &str, id: &str) -> (r: String)
    ensures
        r@ == join(rewritten_lines(text@, origin@, url@, host@, id@), "\n"@),
        forall|i: int|
            0 <= i < lines(text@).len() ==> line_leads_back(
                #[trigger] lines(text@)[i],
                origin@,
                url@,
            ),
{
    let all = chars_of(text);
    let ls = split_lines(all.as_slice());
    let ghost parts = rewritten_lines(text@, origin@, url@, host@, id@);
    let mut out = String::new();
    let mut i: usize = 0;
    assert(parts.take(0) =~= seq![]);
    while i < ls.len()
        invariant
            i <= ls@.len(),
            slice_views(ls@) == lines(text@),
            ls@.len() == lines(text@).len(),
            parts == rewritten_lines(text@, origin@, url@, host@, id@),
            parts.len() == ls@.len(),
            out@ == join(parts.take(i as int), "\n"@),
            forall|j: int|
                0 <= j < i ==> line_leads_back(#[trigger] lines(text@)[j], origin@, url@),
        decreases ls.len() - i,
    {
        let line = route_line(ls[i], origin, url, host, id);
        proof {
            assert(slice_views(ls@)[i as int] == ls@[i as int]@);
            assert(line@ == parts[i as int]);
            assert(parts.take(i + 1).drop_last() =~= parts.take(i as int));
            assert(parts.take(i + 1).last() == parts[i as int]);
        }
        if i > 0 {
            out.append("\n");
        }
        out.append(line.as_str());
        proof {
            if i == 0 {
                assert(out@ =~= line@);
                assert(join(parts.take(1), "\n"@) == parts[0]);
            }
        }
        i = i + 1;
    }
    assert(parts.take(parts.len() as int) =~= parts);
    out
}

/// A media playlist at `final_url` with every resource routed through the proxy at `proxy_host`,
/// under the path of the channel. A playlist whose URL cannot be read stays as it is.
pub fn rewrite_playlist(text: &str, final_url: &str, proxy_host: &str, channel_id: &str) -> (r:
    String)
    ensures
        r@ == rewritten(text@, final_url@, proxy_host@, channel_id@),
        leads_back(text@, final_url@),
{
    match parse_url(final_url) {
        Ok(origin) => rewrite_lines(text, &origin, final_url, proxy_host, channel_id),
        Err(_) => text.to_owned(),
    }
}

/// The URL that the encoded part of a proxied address names.
pub fn decode_url(encoded: &str) -> (r: Result<String, DecodeUrlError>)
    ensures
        match r {
            Ok(u) => decoded_url(encoded@) == Ok::<Seq<char>, DecodeUrlError>(u@),
            Err(e) => decoded_url(encoded@) == Err::<Seq<char>, DecodeUrlError>(e),
        },
{
    match base64url_decode(encoded) {
        Ok(bytes) => match String::from_utf8(bytes) {
            Ok(u) => Ok(u),
            Err(_) => Err(DecodeUrlError::Utf8),
        },
        Err(_) => Err(DecodeUrlError::Base64),
    }
}

/// A text that decodes to the bytes of a URL names that URL.
pub proof fn law_encoded_url_reads_back(url: Seq<char>, encoded: Seq<char>)
    requires
        base64url_bytes(encoded) == Some(encode_utf8(url)),
    ensures
        decoded_url(encoded) == Ok::<Seq<char>, DecodeUrlError>(url),
{
    broadcast use {vstd::utf8::encode_utf8_valid_utf8, vstd::utf8::encode_utf8_decode_utf8};

}

// ─── Addresses, refusals and channel lists ───────────────────────────────────

/// A CCTV address in the form that the proxy prefers.
pub fn fix_cctv_url(url: &str) -> (r: String)
    ensures
        r@ == fixed_cctv_url(url@),
{
    let t = chars_of(url);
    if holds(t.as_slice(), "/index.m3u8") && !holds(t.as_slice(), "b=200-2100") && !holds(
        t.as_slice(),
        "BR=",
    ) {
        proof {
            lemma_find_contains(url@, "/index.m3u8"@);
        }
        if let Some(pos) = search(t.as_slice(), "/index.m3u8") {
            let head = slice_subrange(t.as_slice(), 0, pos);
            assert(head@ =~= url@.take(pos as int));
            let mut out = text_of(head);
            out.append("_720P/playlist.m3u8?wsApp=HLS");
            return out;
        }
    }
    url.to_owned()
}

/// Whether a reply with this status and this body, in lower case, refuses for want of
/// authorisation.
pub fn is_refusal(status: u16, lower: &str) -> (r: bool)
    ensures
        r == refuses(status, lower@),
{
    if status == 403 || status == 401 {
        return true;
    }
    let t = chars_of(lower);
    let s = t.as_slice();
    holds(s, "txsecret") || holds(s, "txtime") || holds(s, "auth_key") || holds(s, "auth failed")
        || holds(s, "auth expired") || holds(s, "signature") || holds(s, "unauthorized")
}

/// Whether a reply refuses for want of authorisation. An empty body refuses nothing by itself.
pub fn is_auth_error(status: u16, body: &str) -> (r: bool)
    ensures
        r == refuses(status, lowercase(body@)),
        body@.len() == 0 ==> r == (status == 403 || status == 401),
{
    let lower = body.to_lowercase();
    proof {
        if body@.len() == 0 {
            assert(lower@.len() == 0);
            reveal_strlit("txsecret");
            reveal_strlit("txtime");
            reveal_strlit("auth_key");
            reveal_strlit("auth failed");
            reveal_strlit("auth expired");
            reveal_strlit("signature");
            reveal_strlit("unauthorized");
        }
    }
    is_refusal(status, lower.as_str())
}

/// The entry of a channel in a channel list.
pub fn m3u_entry(channel_id: &str, name: &str, group: &str, proxy_host: &str) -> (r: String)
    ensures
        r@ == entry(channel_id@, name@, group@, proxy_host@),
{
    let mut out = "#EXTINF:-1 tvg-id=\"".to_owned();
    out.append(channel_id);
    out.append("\" tvg-name=\"");
    out.append(name);
    out.append("\" group-title=\"");
    out.append(group);
    out.append("\",");
    out.append(name);
    out.append("\nhttp://");
    out.append(proxy_host);
    out.append("/");
    out.append(channel_id);
    out.append("/playlist.m3u8\n");
    out
}

// ─── Laws ────────────────────────────────────────────────────────────────────

/// The variant that is chosen is the best: no other has a higher bandwidth, and none before it has
/// the same.
pub proof fn law_best_place_is_best(vs: Seq<Variant>)
    requires
        vs.len() > 0,
    ensures
        is_best(vs, best_place(vs)),
    decreases vs.len(),
{
    if vs.len() > 1 {
        let rest = vs.drop_last();
        law_best_place_is_best(rest);
        assert forall|j: int| 0 <= j < rest.len() implies rest[j] == vs[j] by {}
    }
}

/// A master playlist has at most one best variant: of two, neither stands before the other.
pub proof fn law_best_variant_is_unique(vs: Seq<Variant>, i: int, j: int)
    requires
        is_best(vs, i),
        is_best(vs, j),
    ensures
        i == j,
{
    if i < j {
        assert(vs[i].bandwidth < vs[j].bandwidth);
    } else if j < i {
        assert(vs[j].bandwidth < vs[i].bandwidth);
    }
}

/// The bandwidth of a stream line is that of the first attribute `BANDWIDTH`, whatever longer names
/// end in the same letters before it.
pub proof fn law_first_attribute_is_read(line: Seq<char>, i: int)
    requires
        is_attribute_at(line, "BANDWIDTH="@, i),
        forall|j: int| 0 <= j < i ==> !is_attribute_at(line, "BANDWIDTH="@, j),
    ensures
        stream_bandwidth(line) == Some(digits_at(line, i)),
{
    reveal_strlit("BANDWIDTH=");
    lemma_attribute_from(line, "BANDWIDTH="@, 0, i);
}

/// A stream line that holds `BANDWIDTH=` once gives the number behind it, wherever it stands.
pub proof fn law_only_bandwidth_is_read(line: Seq<char>, i: int)
    requires
        occurs_at(line, "BANDWIDTH="@, i),
        forall|j: int| j != i ==> !occurs_at(line, "BANDWIDTH="@, j),
    ensures
        stream_bandwidth(line) == Some(digits_at(line, i)),
{
    lemma_find_is(line, "BANDWIDTH="@, 0, i);
    lemma_attribute_occurs(line, "BANDWIDTH="@, 0);
}

/// A stream line gives no bandwidth exactly where it holds no `BANDWIDTH=`.
pub proof fn law_bandwidth_is_missing_only_without_its_name(line: Seq<char>)
    ensures
        stream_bandwidth(line) is None <==> !contains(line, "BANDWIDTH="@),
{
    lemma_find_contains(line, "BANDWIDTH="@);
    lemma_attribute_occurs(line, "BANDWIDTH="@, 0);
}

/// An attribute that is found is one, and so its name stands there.
proof fn lemma_attribute_occurs(line: Seq<char>, name: Seq<char>, k: int)
    requires
        0 <= k,
    ensures
        attribute_from(line, name, k) matches Some(i) ==> occurs_at(line, name, i),
    decreases line.len() - k,
{
    if k < line.len() && !is_attribute_at(line, name, k) {
        lemma_attribute_occurs(line, name, k + 1);
    }
}

/// What some lines list, longer lists with the same beginning list too.
proof fn lemma_variants_stay(ls: Seq<Seq<char>>, n: int, k: int)
    requires
        0 <= n <= ls.len(),
        0 <= k < scan_variants(ls.take(n)).0.len(),
    ensures
        k < scan_variants(ls).0.len(),
        scan_variants(ls).0[k] == scan_variants(ls.take(n)).0[k],
    decreases ls.len(),
{
    if n == ls.len() {
        assert(ls.take(n) =~= ls);
    } else {
        assert(ls.drop_last().take(n) =~= ls.take(n));
        lemma_variants_stay(ls.drop_last(), n, k);
    }
}

/// A reference that stands directly behind a stream line with a bandwidth above zero is listed as a
/// variant of that bandwidth, and so the playlist has a best variant.
pub proof fn law_announced_references_are_variants(playlist: Seq<char>, i: int)
    requires
        0 <= i,
        i + 1 < lines(playlist).len(),
        starts_with(trim(lines(playlist)[i]), "#EXT-X-STREAM-INF"@),
        stream_bandwidth(trim(lines(playlist)[i])) matches Some(b) && b > 0,
        trim(lines(playlist)[i + 1]).len() > 0,
        !starts_with(trim(lines(playlist)[i + 1]), "#"@),
    ensures
        variants(playlist).contains(
            Variant {
                bandwidth: stream_bandwidth(trim(lines(playlist)[i]))->0,
                uri: trim(lines(playlist)[i + 1]),
            },
        ),
        best_uri(playlist) is Some,
{
    let ls = lines(playlist);
    let t = trim(ls[i + 1]);
    let first = ls.take(i + 1);
    let both = ls.take(i + 2);
    assert(both.drop_last() =~= first);
    assert(first.last() == ls[i]);
    assert(both.last() == ls[i + 1]);
    assert(!starts_with(t, "#EXT-X-STREAM-INF"@)) by {
        reveal_strlit("#");
        reveal_strlit("#EXT-X-STREAM-INF");
        if starts_with(t, "#EXT-X-STREAM-INF"@) {
            lemma_occurs_chars(t, "#EXT-X-STREAM-INF"@, 0);
            assert(t[0int + 0] == '#');
            lemma_chars_occur(t, "#"@, 0);
        }
    }
    let k = scan_variants(first).0.len() as int;
    lemma_variants_stay(ls, i + 2, k);
    assert(variants(playlist)[k] == scan_variants(both).0[k]);
}

/// In a line without quotes, an attribute begins wherever its name and its equals sign stand behind
/// a colon, a comma or white space.
pub proof fn law_attributes_of_a_line_without_quotes(line: Seq<char>, name: Seq<char>, i: int)
    requires
        !line.contains('"'),
    ensures
        is_attribute_at(line, name, i) <==> 0 < i && occurs_at(line, name, i) && (line[i - 1]
            == ':' || line[i - 1] == ',' || is_white_space(line[i - 1])),
{
    if 0 < i && occurs_at(line, name, i) {
        let head = line.take(i);
        assert forall|j: int| 0 <= j < head.len() implies head[j] != '"' by {
            assert(line.contains(line[j]));
        }
        lemma_unquoted(head);
    }
}

/// A text without quotes does not end inside a quoted string.
proof fn lemma_unquoted(s: Seq<char>)
    requires
        forall|j: int| 0 <= j < s.len() ==> s[j] != '"',
    ensures
        !in_quotes(s),
    decreases s.len(),
{
    if s.len() > 0 {
        lemma_unquoted(s.drop_last());
    }
}

/// Places at which no attribute begins are passed over.
proof fn lemma_attribute_from(line: Seq<char>, name: Seq<char>, k: int, i: int)
    requires
        0 <= k <= i,
        name.len() > 0,
        is_attribute_at(line, name, i),
        forall|j: int| k <= j < i ==> !is_attribute_at(line, name, j),
    ensures
        attribute_from(line, name, k) == Some(i),
    decreases i - k,
{
    if k < i {
        lemma_attribute_from(line, name, k + 1, i);
    }
}

/// What stands in a text before the first `p` stands in the text.
proof fn lemma_before_contains(s: Seq<char>, p: Seq<char>, q: Seq<char>)
    requires
        contains(before(s, p), q),
    ensures
        contains(s, q),
{
    lemma_find_from(s, p, 0);
    if let Some(i) = find(s, p) {
        lemma_part_contains(seq![], s.take(i), s.skip(i), q);
        assert(seq![] + s.take(i) + s.skip(i) =~= s);
    }
}

/// What stands in a text after the first `p` stands in the text.
proof fn lemma_after_contains(s: Seq<char>, p: Seq<char>, q: Seq<char>)
    requires
        after(s, p) is Some,
        contains(after(s, p)->0, q),
    ensures
        contains(s, q),
{
    lemma_find_from(s, p, 0);
    let i = find(s, p)->0;
    let at = i + p.len();
    lemma_part_contains(s.take(at), s.skip(at), seq![], q);
    assert(s.take(at) + s.skip(at) + seq![] =~= s);
}

/// What stands in the path of a reference stands in the reference.
proof fn lemma_path_contains(t: Seq<char>, q: Seq<char>)
    requires
        contains(reference_path(t), q),
        q.len() > 0,
    ensures
        contains(t, q),
{
    reveal_strlit("//");
    if let Some(rest) = host_and_path(t) {
        match after(rest, "/"@) {
            Some(path) => lemma_after_contains(rest, "/"@, q),
            None => {
                let k = choose|k: int| occurs_at(Seq::<char>::empty(), q, k);
                assert(false);
            },
        }
        if starts_with(t, "//"@) {
            lemma_part_contains(t.take(2), t.skip(2), seq![], q);
            assert(t.take(2) + t.skip(2) + seq![] =~= t);
        } else {
            lemma_after_contains(t, "://"@, q);
        }
    }
}

/// A path that ends with a suffix which begins with a dot holds a dot.
proof fn lemma_suffix_dot(path: Seq<char>, suffix: Seq<char>)
    requires
        ends_with(path, suffix),
        suffix.len() > 0,
        suffix[0] == '.',
    ensures
        contains(path, "."@),
{
    reveal_strlit(".");
    let at = path.len() - suffix.len();
    lemma_occurs_chars(path, suffix, at);
    assert(path[at + 0] == suffix[0]);
    lemma_chars_occur(path, "."@, at);
}

/// A reference to a media file is a segment, whatever words it holds, unless its host is that of a
/// statistics service: `catalog.ts` is one.
pub proof fn law_media_references_are_segments(line: Seq<char>)
    requires
        !starts_with(trim(line), "#"@),
        is_media_path(reference_path(bare_reference(trim(line)))),
        !is_tracking_host(reference_host(bare_reference(trim(line)))),
    ensures
        line_kind(line) == LineKind::Segment,
{
    let t = trim(line);
    let bare = bare_reference(t);
    let path = reference_path(bare);
    reveal_strlit(".");
    reveal_strlit(".ts");
    reveal_strlit(".m4s");
    reveal_strlit(".mp4");
    reveal_strlit(".m4a");
    reveal_strlit(".m4v");
    reveal_strlit(".aac");
    reveal_strlit(".mp3");
    reveal_strlit(".vtt");
    if ends_with(path, ".ts"@) {
        lemma_suffix_dot(path, ".ts"@);
    } else if ends_with(path, ".m4s"@) {
        lemma_suffix_dot(path, ".m4s"@);
    } else if ends_with(path, ".mp4"@) {
        lemma_suffix_dot(path, ".mp4"@);
    } else if ends_with(path, ".m4a"@) {
        lemma_suffix_dot(path, ".m4a"@);
    } else if ends_with(path, ".m4v"@) {
        lemma_suffix_dot(path, ".m4v"@);
    } else if ends_with(path, ".aac"@) {
        lemma_suffix_dot(path, ".aac"@);
    } else if ends_with(path, ".mp3"@) {
        lemma_suffix_dot(path, ".mp3"@);
    } else {
        lemma_suffix_dot(path, ".vtt"@);
    }
    lemma_path_contains(bare, "."@);
    lemma_before_contains(before(t, "?"@), "#"@, "."@);
    lemma_before_contains(t, "?"@, "."@);
    let at = choose|at: int| occurs_at(t, "."@, at);
    lemma_occurs_chars(t, "."@, at);
    lemma_line_not_tagged(t);
}

/// A text that does not begin with `#` begins with no tag.
proof fn lemma_line_not_tagged(t: Seq<char>)
    requires
        !starts_with(t, "#"@),
    ensures
        !starts_with(t, "#EXT-X-KEY"@),
        !starts_with(t, "#EXT-X-MAP"@),
{
    reveal_strlit("#");
    reveal_strlit("#EXT-X-KEY");
    reveal_strlit("#EXT-X-MAP");
    if starts_with(t, "#EXT-X-KEY"@) {
        lemma_occurs_chars(t, "#EXT-X-KEY"@, 0);
        assert(t[0int + 0] == '#');
        lemma_chars_occur(t, "#"@, 0);
    }
    if starts_with(t, "#EXT-X-MAP"@) {
        lemma_occurs_chars(t, "#EXT-X-MAP"@, 0);
        assert(t[0int + 0] == '#');
        lemma_chars_occur(t, "#"@, 0);
    }
}

/// Rewriting works line by line: each line of the result depends on the line in its place alone.
pub proof fn law_rewriting_works_line_by_line(
    playlist: Seq<char>,
    origin: Origin,
    url: Seq<char>,
    host: Seq<char>,
    id: Seq<char>,
)
    requires
        url_origin(url) == Some(origin),
    ensures
        rewritten(playlist, url, host, id) == join(
            rewritten_lines(playlist, origin, url, host, id),
            "\n"@,
        ),
        rewritten_lines(playlist, origin, url, host, id).len() == lines(playlist).len(),
        forall|i: int|
            0 <= i < lines(playlist).len() ==> (#[trigger] rewritten_lines(
                playlist,
                origin,
                url,
                host,
                id,
            )[i]) == rewrite_line(lines(playlist)[i], origin, url, host, id),
{
}

/// Rewriting keeps the number of lines, and keeps every line that names no resource.
pub proof fn law_rewriting_keeps_plain_lines(
    playlist: Seq<char>,
    origin: Origin,
    url: Seq<char>,
    host: Seq<char>,
    id: Seq<char>,
)
    ensures
        rewritten_lines(playlist, origin, url, host, id).len() == lines(playlist).len(),
        forall|i: int|
            0 <= i < lines(playlist).len() && line_kind(lines(playlist)[i]) == LineKind::Plain ==> (
            #[trigger] rewritten_lines(playlist, origin, url, host, id)[i]) == lines(playlist)[i],
{
}

/// Rewriting routes every segment through the proxy: the rewritten line is an address on the
/// proxy's host, under the channel's segment path.
pub proof fn law_segments_are_routed(
    line: Seq<char>,
    origin: Origin,
    url: Seq<char>,
    host: Seq<char>,
    id: Seq<char>,
)
    requires
        line_kind(line) == LineKind::Segment,
    ensures
        starts_with(
            rewrite_line(line, origin, url, host, id),
            "http://"@ + host + "/"@ + id + "/segment/"@,
        ),
{
    reveal_strlit("/segment/");
    reveal_strlit("/");
    reveal_strlit("segment");
    let encoded = base64url(encode_utf8(segment_url(trim(line), origin, url)));
    assert("/segment/"@ =~= "/"@ + "segment"@ + "/"@);
    let head = "http://"@ + host + "/"@ + id + "/segment/"@;
    assert(rewrite_line(line, origin, url, host, id) =~= head + encoded);
    assert((head + encoded).subrange(0, head.len() as int) =~= head);
}

/// The first `URI` attribute of a line begins where the search for its opening finds it.
proof fn lemma_attr_stands_first(t: Seq<char>, uri: Seq<char>)
    requires
        attr_uri(t) == Some(uri),
    ensures
        find(t, uri_attr(uri)) is Some,
        find(t, uri_attr(uri)) == find(t, "URI=\""@),
{
    let open = "URI=\""@;
    let quote = "\""@;
    let from = uri_attr(uri);
    lemma_find_from(t, open, 0);
    let i = find(t, open)->0;
    lemma_occurs_chars(t, open, i);
    let rest = t.skip(i + open.len());
    lemma_find_from(rest, quote, 0);
    let end = find(rest, quote)->0;
    lemma_occurs_chars(rest, quote, end);
    assert forall|k: int| 0 <= k < from.len() implies #[trigger] t[i + k] == from[k] by {
        if k >= open.len() + uri.len() {
            let q = k - open.len() - uri.len();
            assert(rest[end + q] == quote[q]);
        } else if k >= open.len() {
            assert(rest[k - open.len()] == uri[k - open.len()]);
        }
    }
    lemma_chars_occur(t, from, i);
    assert forall|j: int| 0 <= j < i implies !occurs_at(t, from, j) by {
        if occurs_at(t, from, j) {
            lemma_occurs_chars(t, from, j);
            assert forall|k: int| 0 <= k < open.len() implies #[trigger] t[j + k] == open[k] by {
                assert(from[k] == open[k]);
            }
            lemma_chars_occur(t, open, j);
        }
    }
    lemma_find_is(t, from, 0, i);
}

/// A line whose part before `i` has no opening of a `URI` attribute, and that goes on with such an
/// attribute, has the value of that attribute.
proof fn lemma_attr_read_back(head: Seq<char>, to: Seq<char>, tail: Seq<char>)
    requires
        forall|k: int| 0 <= k < to.len() ==> to[k] != '"',
        forall|j: int| 0 <= j < head.len() ==> !occurs_at(head + "URI=\""@, "URI=\""@, j),
    ensures
        attr_uri(head + uri_attr(to) + tail) == Some(to),
{
    let open = "URI=\""@;
    let quote = "\""@;
    reveal_strlit("\"");
    let out = head + uri_attr(to) + tail;
    let i = head.len() as int;
    assert forall|k: int| 0 <= k < open.len() implies #[trigger] out[i + k] == open[k] by {}
    lemma_chars_occur(out, open, i);
    assert forall|j: int| 0 <= j < i implies !occurs_at(out, open, j) by {
        if occurs_at(out, open, j) {
            lemma_occurs_chars(out, open, j);
            let short = head + open;
            assert forall|k: int| 0 <= k < open.len() implies #[trigger] short[j + k] == open[k] by {
                assert(out[j + k] == open[k]);
            }
            lemma_chars_occur(short, open, j);
        }
    }
    lemma_find_is(out, open, 0, i);
    let value = out.skip(i + open.len());
    let n = to.len() as int;
    assert(value =~= to + quote + tail);
    assert forall|k: int| 0 <= k < quote.len() implies #[trigger] value[n + k] == quote[k] by {}
    lemma_chars_occur(value, quote, n);
    assert forall|j: int| 0 <= j < n implies !occurs_at(value, quote, j) by {
        if occurs_at(value, quote, j) {
            lemma_occurs_chars(value, quote, j);
            assert(value[j + 0] == quote[0]);
            assert(value[j] == to[j]);
        }
    }
    lemma_find_is(value, quote, 0, n);
    assert(value.take(n) =~= to);
}

/// Replacing the value of a line's `URI` attribute by one without quotes gives a line whose `URI`
/// attribute has that value.
pub proof fn law_replaced_uri_reads_back(t: Seq<char>, uri: Seq<char>, to: Seq<char>)
    requires
        attr_uri(t) == Some(uri),
        forall|k: int| 0 <= k < to.len() ==> to[k] != '"',
    ensures
        attr_uri(replace_all(t, uri_attr(uri), uri_attr(to))) == Some(to),
{
    let open = "URI=\""@;
    let from = uri_attr(uri);
    lemma_attr_stands_first(t, uri);
    lemma_find_from(t, open, 0);
    lemma_find_from(t, from, 0);
    reveal_strlit("URI=\"");
    let i = find(t, open)->0;
    lemma_occurs_chars(t, open, i);
    let head = t.take(i);
    let tail = replace_all(t.skip(i + from.len()), from, uri_attr(to));
    assert forall|j: int| 0 <= j < head.len() implies !occurs_at(head + open, open, j) by {
        if occurs_at(head + open, open, j) {
            lemma_occurs_chars(head + open, open, j);
            assert forall|k: int| 0 <= k < open.len() implies #[trigger] t[j + k] == open[k] by {
                assert((head + open)[j + k] == open[k]);
                if j + k >= i {
                    assert(t[i + (j + k - i)] == open[j + k - i]);
                }
            }
            lemma_chars_occur(t, open, j);
        }
    }
    lemma_attr_read_back(head, to, tail);
}

/// Rewriting routes every key and every initialisation segment through the proxy: where the line
/// gives an address, the rewritten line gives the one under which the proxy serves it. Hosts and
/// ids with a quote, which would end the attribute, are left out.
pub proof fn law_attributes_are_routed(
    line: Seq<char>,
    origin: Origin,
    url: Seq<char>,
    host: Seq<char>,
    id: Seq<char>,
)
    requires
        line_kind(line) == LineKind::Key || line_kind(line) == LineKind::InitSegment,
        attr_uri(trim(line)) is Some,
        line_leads_back(line, origin, url),
        !host.contains('"'),
        !id.contains('"'),
    ensures
        line_resource(line, origin, url) is Some,
        attr_uri(rewrite_line(line, origin, url, host, id)) == Some(
            routed(
                host,
                id,
                if line_kind(line) == LineKind::Key {
                    "key"@
                } else {
                    "segment"@
                },
                line_resource(line, origin, url)->0,
            ),
        ),
{
    let t = trim(line);
    let uri = attr_uri(t)->0;
    let action = if line_kind(line) == LineKind::Key {
        "key"@
    } else {
        "segment"@
    };
    let target = joined_or_self(uri, url);
    let encoded = base64url(encode_utf8(target));
    let to = routed(host, id, action, target);
    reveal_strlit("http://");
    reveal_strlit("/");
    reveal_strlit("key");
    reveal_strlit("segment");
    assert(names_url(encoded, target));
    let first = "http://"@ + host;
    let second = first + "/"@ + id;
    let third = second + "/"@ + action + "/"@;
    assert(to =~= third + encoded);
    assert forall|k: int| 0 <= k < to.len() implies to[k] != '"' by {
        if k < "http://"@.len() {
            assert(to[k] == "http://"@[k]);
        } else if k < first.len() {
            assert(to[k] == host[k - "http://"@.len()]);
        } else if k < first.len() + 1 {
            assert(to[k] == '/');
        } else if k < second.len() {
            assert(to[k] == id[k - first.len() - 1]);
        } else if k < second.len() + 1 {
            assert(to[k] == '/');
        } else if k < second.len() + 1 + action.len() {
            assert(to[k] == action[k - second.len() - 1]);
        } else if k < third.len() {
            assert(to[k] == '/');
        } else {
            assert(to[k] == encoded[k - third.len()]);
            assert(is_base64url_char(encoded[k - third.len()]));
        }
    }
    law_replaced_uri_reads_back(t, uri, to);
}

/// Fixing a CCTV address twice is fixing it once.
pub proof fn law_fixing_twice_is_fixing_once(url: Seq<char>)
    ensures
        fixed_cctv_url(fixed_cctv_url(url)) == fixed_cctv_url(url),
{
    let p = "/index.m3u8"@;
    let tail = "_720P/playlist.m3u8?wsApp=HLS"@;
    if fixed_cctv_url(url) != url {
        lemma_find_from(url, p, 0);
        let pos = find(url, p)->0;
        let head = url.take(pos);
        let out = head + tail;
        assert(before(url, p) == head);
        reveal_strlit("/index.m3u8");
        reveal_strlit("_720P/playlist.m3u8?wsApp=HLS");
        assert forall|i: int| !occurs_at(out, p, i) by {
            if occurs_at(out, p, i) {
                let cut = out.subrange(i, i + p.len());
                assert(forall|k: int| 0 <= k < p.len() ==> out[i + k] == cut[k]);
                if i + p.len() <= head.len() {
                    assert(url.subrange(i, i + p.len()) =~= cut);
                    assert(occurs_at(url, p, i));
                } else if i <= head.len() {
                    let k = head.len() - i;
                    assert(out[i + k] == '_');
                    assert(cut[k] == p[k]);
                } else {
                    assert(cut[0] == '/');
                    assert(cut[1] == 'i');
                    assert(out[i] == tail[i - head.len()]);
                    assert(out[i + 1] == tail[i + 1 - head.len()]);
                }
            }
        }
    }
}

/// A reply with status 401 or 403 refuses, whatever its body holds.
pub proof fn law_refusal_by_status(status: u16, lower: Seq<char>)
    requires
        status == 401 || status == 403,
    ensures
        refuses(status, lower),
{
}

// ─── What rewriting is for ───────────────────────────────────────────────────

/// The rewritten form of a segment line is an address of the proxy, under the segment path of the
/// channel, whose last part decodes to the address of the segment. A line that gives a whole address
/// stands for that address, to the last character. A line that begins with a slash stands for itself
/// behind the scheme and the host of the playlist. Any other stands for itself behind the address of
/// the playlist up to its last slash.
pub proof fn law_segments_lead_to_their_source(
    line: Seq<char>,
    origin: Origin,
    url: Seq<char>,
    host: Seq<char>,
    id: Seq<char>,
)
    requires
        line_kind(line) == LineKind::Segment,
        line_leads_back(line, origin, url),
    ensures
        exists|encoded: Seq<char>, head: Seq<char>|
            {
                &&& rewrite_line(line, origin, url, host, id) == "http://"@ + host + "/"@ + id
                    + "/segment/"@ + encoded
                &&& #[trigger] decoded_url(encoded) == Ok::<Seq<char>, DecodeUrlError>(
                    #[trigger] (head + trim(line)),
                )
                &&& if starts_with(trim(line), "http"@) {
                    head.len() == 0
                } else if starts_with(trim(line), "/"@) {
                    head == origin.scheme + "://"@ + match origin.host {
                        Some(h) => h,
                        None => seq![],
                    }
                } else {
                    &&& head == url.take(head.len() as int)
                    &&& head.len() <= url.len()
                    &&& head.len() > 0 && head.last() == '/' && !url.skip(
                        head.len() as int,
                    ).contains('/') || head == url && !url.contains('/')
                }
            },
{
    let t = trim(line);
    let target = segment_url(t, origin, url);
    let encoded = base64url(encode_utf8(target));
    assert(names_url(encoded, target));
    reveal_strlit("/segment/");
    reveal_strlit("/");
    reveal_strlit("segment");
    assert("/segment/"@ =~= "/"@ + "segment"@ + "/"@);
    assert(rewrite_line(line, origin, url, host, id) =~= "http://"@ + host + "/"@ + id
        + "/segment/"@ + encoded);
    let head = target.take(target.len() - t.len());
    lemma_last_index(url, '/');
    if starts_with(t, "http"@) {
        assert(head =~= seq![]);
    } else if starts_with(t, "/"@) {
        assert(head =~= scheme_host(origin));
    } else {
        assert(head =~= directory(url));
        assert(url.take(url.len() as int) =~= url);
    }
    assert(head + t =~= target);
    assert(decoded_url(encoded) == Ok::<Seq<char>, DecodeUrlError>(head + t));
}

/// What [`last_index`] gives.
proof fn lemma_last_index(s: Seq<char>, c: char)
    ensures
        match last_index(s, c) {
            Some(i) => 0 <= i < s.len() && s[i] == c && !s.skip(i + 1).contains(c),
            None => !s.contains(c),
        },
    decreases s.len(),
{
    if s.len() > 0 {
        let rest = s.drop_last();
        if s.last() == c {
            assert(s.skip(s.len() as int) =~= seq![]);
        } else {
            lemma_last_index(rest, c);
            match last_index(rest, c) {
                Some(i) => {
                    let tail = s.skip(i + 1);
                    if tail.contains(c) {
                        let j = choose|j: int| 0 <= j < tail.len() && tail[j] == c;
                        assert(rest.skip(i + 1)[j] == c);
                    }
                },
                None => {
                    if s.contains(c) {
                        let j = choose|j: int| 0 <= j < s.len() && s[j] == c;
                        assert(rest[j] == c);
                    }
                },
            }
        }
    }
}

/// A line of a key, or of an initialisation segment, keeps everything but its address: in place of
/// the address stands one of the proxy, under the key path or the segment path of the channel, whose
/// last part decodes to the address that was there, joined to that of the playlist where it can be.
pub proof fn law_attributes_lead_to_their_source(
    line: Seq<char>,
    origin: Origin,
    url: Seq<char>,
    host: Seq<char>,
    id: Seq<char>,
    a: Seq<char>,
    u: Seq<char>,
    b: Seq<char>,
    is_key: bool,
)
    requires
        trim(line) == a + ("URI=\""@ + u + "\""@) + b,
        starts_with(a, if is_key {
            "#EXT-X-KEY"@
        } else {
            "#EXT-X-MAP"@
        }),
        !a.contains('"'),
        !u.contains('"'),
        !contains(b, "URI=\""@ + u + "\""@),
        line_leads_back(line, origin, url),
    ensures
        exists|encoded: Seq<char>|
            {
                &&& rewrite_line(line, origin, url, host, id) == a + ("URI=\""@ + ("http://"@ + host
                    + "/"@ + id + if is_key {
                    "/key/"@
                } else {
                    "/segment/"@
                } + encoded) + "\""@) + b
                &&& #[trigger] decoded_url(encoded) == Ok::<Seq<char>, DecodeUrlError>(
                    match url_joined(url, u) {
                        Some(whole) => whole,
                        None => u,
                    },
                )
            },
{
    let t = trim(line);
    let from = uri_attr(u);
    lemma_attr_kind(line, a, u, b, is_key);
    lemma_attr_found(t, a, u, b);
    let target = joined_or_self(u, url);
    let encoded = base64url(encode_utf8(target));
    assert(names_url(encoded, target));
    let action = if is_key {
        "key"@
    } else {
        "segment"@
    };
    let to = uri_attr(routed(host, id, action, target));
    lemma_attr_replaced(t, a, u, b, to);
    let addr = "http://"@ + host + "/"@ + id + if is_key {
        "/key/"@
    } else {
        "/segment/"@
    } + encoded;
    assert(routed(host, id, action, target) == addr) by {
        assert("/segment/"@ =~= "/"@ + "segment"@ + "/"@) by {
            reveal_strlit("/");
            reveal_strlit("segment");
            reveal_strlit("/segment/");
        }
        assert("/key/"@ =~= "/"@ + "key"@ + "/"@) by {
            reveal_strlit("/");
            reveal_strlit("key");
            reveal_strlit("/key/");
        }
        assert(routed(host, id, action, target) =~= addr);
    }
    assert(decoded_url(encoded) == Ok::<Seq<char>, DecodeUrlError>(target));
}

/// The kind of a line with an address in an attribute is told by its tag.
proof fn lemma_attr_kind(line: Seq<char>, a: Seq<char>, u: Seq<char>, b: Seq<char>, is_key: bool)
    requires
        trim(line) == a + ("URI=\""@ + u + "\""@) + b,
        starts_with(a, if is_key {
            "#EXT-X-KEY"@
        } else {
            "#EXT-X-MAP"@
        }),
    ensures
        line_kind(line) == if is_key {
            LineKind::Key
        } else {
            LineKind::InitSegment
        },
{
    let t = trim(line);
    let n = a.len() as int;
    let tag = if is_key {
        "#EXT-X-KEY"@
    } else {
        "#EXT-X-MAP"@
    };
    reveal_strlit("URI=\"");
    reveal_strlit("URI=");
    reveal_strlit("#EXT-X-KEY");
    reveal_strlit("#EXT-X-MAP");
    assert(t.subrange(n, n + 4) =~= "URI="@);
    assert(occurs_at(t, "URI="@, n));
    lemma_occurs_chars(a, tag, 0);
    assert forall|k: int| 0 <= k < tag.len() implies #[trigger] t[0 + k] == tag[k] by {
        assert(a[0 + k] == tag[k]);
    }
    lemma_chars_occur(t, tag, 0);
    if !is_key && starts_with(t, "#EXT-X-KEY"@) {
        lemma_occurs_chars(t, "#EXT-X-KEY"@, 0);
        assert(t[0int + 7] == 'K');
        assert(t[0int + 7] == 'M');
    }
}

/// The attribute of a line does not begin before it is written, where no quote stands before it.
proof fn lemma_attr_first(t: Seq<char>, a: Seq<char>, u: Seq<char>, b: Seq<char>, j: int)
    requires
        t == a + ("URI=\""@ + u + "\""@) + b,
        !a.contains('"'),
        0 <= j < a.len(),
    ensures
        !occurs_at(t, "URI=\""@, j),
{
    let open = "URI=\""@;
    let n = a.len() as int;
    reveal_strlit("URI=\"");
    if occurs_at(t, open, j) {
        lemma_occurs_chars(t, open, j);
        assert(t[j + 4] == '"');
        if j + 4 < n {
            assert(a[j + 4] == '"');
        } else {
            assert(t[j + 4] == open[j + 4 - n]);
        }
    }
}

/// The address of an attribute is what stands between its quotes.
proof fn lemma_attr_found(t: Seq<char>, a: Seq<char>, u: Seq<char>, b: Seq<char>)
    requires
        t == a + ("URI=\""@ + u + "\""@) + b,
        !a.contains('"'),
        !u.contains('"'),
    ensures
        attr_uri(t) == Some(u),
{
    let open = "URI=\""@;
    let n = a.len() as int;
    reveal_strlit("URI=\"");
    reveal_strlit("\"");
    assert(t.subrange(n, n + 5) =~= open);
    assert forall|j: int| 0 <= j < n implies !occurs_at(t, open, j) by {
        lemma_attr_first(t, a, u, b, j);
    }
    lemma_find_is(t, open, 0, n);
    let rest = t.skip(n + 5);
    assert(rest =~= u + "\""@ + b);
    lemma_find_quote(u, b);
    assert(rest.take(u.len() as int) =~= u);
}

/// Replacing an attribute that stands in a line once changes nothing else of the line.
proof fn lemma_attr_replaced(
    t: Seq<char>,
    a: Seq<char>,
    u: Seq<char>,
    b: Seq<char>,
    to: Seq<char>,
)
    requires
        t == a + ("URI=\""@ + u + "\""@) + b,
        !a.contains('"'),
        !contains(b, "URI=\""@ + u + "\""@),
    ensures
        replace_all(t, uri_attr(u), to) == a + to + b,
{
    let open = "URI=\""@;
    let from = uri_attr(u);
    let n = a.len() as int;
    reveal_strlit("URI=\"");
    reveal_strlit("\"");
    assert(t.subrange(n, n + from.len()) =~= from);
    assert forall|j: int| 0 <= j < n implies !occurs_at(t, from, j) by {
        if occurs_at(t, from, j) {
            lemma_occurs_chars(t, from, j);
            assert forall|k: int| 0 <= k < open.len() implies #[trigger] t[j + k] == open[k] by {
                assert(t[j + k] == from[k]);
            }
            lemma_chars_occur(t, open, j);
            lemma_attr_first(t, a, u, b, j);
        }
    }
    lemma_find_is(t, from, 0, n);
    assert(t.take(n) =~= a);
    assert(t.skip(n + from.len()) =~= b);
    lemma_find_contains(b, from);
    assert(replace_all(b, from, to) == b);
    assert(replace_all(t, from, to) =~= a + to + b);
}

/// The first quote behind a text without quotes.
proof fn lemma_find_quote(u: Seq<char>, b: Seq<char>)
    requires
        !u.contains('"'),
    ensures
        find(u + "\""@ + b, "\""@) == Some(u.len() as int),
{
    reveal_strlit("\"");
    let p = "\""@;
    let s = u + p + b;
    let n = u.len() as int;
    assert(s.subrange(n, n + 1) =~= p);
    assert forall|j: int| 0 <= j < n implies !occurs_at(s, p, j) by {
        if occurs_at(s, p, j) {
            lemma_occurs_chars(s, p, j);
            assert(s[j + 0] == '"');
            assert(u[j] == '"');
        }
    }
    lemma_find_is(s, p, 0, n);
}

/// Rewriting a playlist is rewriting its first line and the rest, and putting them together again; a
/// playlist of one line is rewritten as that line.
pub proof fn law_rewriting_goes_on_behind_a_line(
    head: Seq<char>,
    rest: Seq<char>,
    origin: Origin,
    url: Seq<char>,
    host: Seq<char>,
    id: Seq<char>,
)
    requires
        url_origin(url) == Some(origin),
        !head.contains('\n'),
        head.len() == 0 || head.last() != '\r',
        rest.len() > 0,
    ensures
        rewritten(head + seq!['\n'] + rest, url, host, id) == rewrite_line(
            head,
            origin,
            url,
            host,
            id,
        ) + seq!['\n'] + rewritten(rest, url, host, id),
        head.len() > 0 ==> rewritten(head, url, host, id) == rewrite_line(
            head,
            origin,
            url,
            host,
            id,
        ),
{
    reveal_strlit("\n");
    let whole = head + seq!['\n'] + rest;
    law_line_feeds_split(head, rest);
    lemma_lines_some(rest);
    let first = rewrite_line(head, origin, url, host, id);
    let others = rewritten_lines(rest, origin, url, host, id);
    assert(rewritten_lines(whole, origin, url, host, id) =~= seq![first] + others);
    lemma_join_front(first, others, "\n"@);
    assert("\n"@ =~= seq!['\n']);
    if head.len() > 0 {
        assert(rewritten_lines(head, origin, url, host, id) =~= seq![first]);
    }
}

/// A text that is not empty has a line.
proof fn lemma_lines_some(s: Seq<char>)
    requires
        s.len() > 0,
    ensures
        lines(s).len() > 0,
{
}

/// A playlist whose own address cannot be read stays as it is.
pub proof fn law_unreadable_addresses_change_nothing(
    playlist: Seq<char>,
    url: Seq<char>,
    host: Seq<char>,
    id: Seq<char>,
)
    requires
        url_origin(url) is None,
    ensures
        rewritten(playlist, url, host, id) == playlist,
{
}

/// What the encoded part of an address decodes to: the text whose bytes it stands for. It is refused
/// exactly where it stands for no bytes, or for bytes that are no text.
pub proof fn law_decoding_gives_the_text_of_the_bytes(encoded: Seq<char>, url: Seq<char>)
    ensures
        base64url_bytes(encoded) == Some(encode_utf8(url)) <==> decoded_url(encoded) == Ok::<
            Seq<char>,
            DecodeUrlError,
        >(url),
        base64url_bytes(encoded) is None <==> decoded_url(encoded) == Err::<
            Seq<char>,
            DecodeUrlError,
        >(DecodeUrlError::Base64),
{
    broadcast use {
        vstd::utf8::encode_utf8_valid_utf8,
        vstd::utf8::encode_utf8_decode_utf8,
        vstd::utf8::decode_utf8_encode_utf8,
    };

}

// ─── Which lines are segments ────────────────────────────────────────────────

/// A line whose text, without white space around it, is not empty, begins with no `#`, and holds a
/// dot, a slash or a question mark is a segment, unless the word of a statistics service stands in
/// it: whatever else it holds.
pub proof fn law_references_without_words_are_segments(line: Seq<char>)
    requires
        trim(line).len() > 0,
        trim(line)[0] != '#',
        trim(line).contains('.') || trim(line).contains('/') || trim(line).contains('?'),
        !contains(trim(line), "log."@),
        !contains(trim(line), "report"@),
        !contains(trim(line), "beacon"@),
        !contains(trim(line), "collect"@),
    ensures
        line_kind(line) == LineKind::Segment,
{
    let t = trim(line);
    lemma_not_tag(t);
    lemma_holds_one(t, '.');
    lemma_holds_one(t, '/');
    lemma_holds_one(t, '?');
    reveal_strlit(".");
    reveal_strlit("/");
    reveal_strlit("?");
    assert("."@ =~= seq!['.'] && "/"@ =~= seq!['/'] && "?"@ =~= seq!['?']);
    lemma_line_not_tagged(t);
    lemma_tracking_host_words(t);
}

/// A text that begins with another character than `#` does not begin with `#`.
proof fn lemma_not_tag(t: Seq<char>)
    requires
        t.len() > 0,
    ensures
        starts_with(t, "#"@) <==> t[0] == '#',
{
    reveal_strlit("#");
    if starts_with(t, "#"@) {
        lemma_occurs_chars(t, "#"@, 0);
        assert(t[0int + 0] == '#');
    }
    if t[0] == '#' {
        lemma_chars_occur(t, "#"@, 0);
    }
}

/// A text holds a character exactly where it holds the text of that character.
proof fn lemma_holds_one(t: Seq<char>, c: char)
    ensures
        contains(t, seq![c]) <==> t.contains(c),
{
    if t.contains(c) {
        let i = choose|i: int| 0 <= i < t.len() && t[i] == c;
        assert(t.subrange(i, i + 1) =~= seq![c]);
        assert(occurs_at(t, seq![c], i));
    }
    if contains(t, seq![c]) {
        let i = choose|i: int| occurs_at(t, seq![c], i);
        lemma_occurs_chars(t, seq![c], i);
        assert(t[i + 0] == c);
    }
}

/// What stands in the host of a reference stands in the reference.
proof fn lemma_host_contains(t: Seq<char>, q: Seq<char>)
    requires
        contains(reference_host(t), q),
        q.len() > 0,
    ensures
        contains(t, q),
{
    reveal_strlit("//");
    match host_and_path(t) {
        Some(rest) => {
            lemma_before_contains(rest, "/"@, q);
            if starts_with(t, "//"@) {
                lemma_part_contains(t.take(2), t.skip(2), seq![], q);
                assert(t.take(2) + t.skip(2) + seq![] =~= t);
            } else {
                lemma_after_contains(t, "://"@, q);
            }
        },
        None => {
            let k = choose|k: int| occurs_at(Seq::<char>::empty(), q, k);
            assert(false);
        },
    }
}

/// A label between two dots stands in the host, where the dots around the host are not of it.
proof fn lemma_label(host: Seq<char>, word: Seq<char>)
    requires
        contains("."@ + host + "."@, "."@ + word + "."@),
    ensures
        contains(host, word),
{
    reveal_strlit(".");
    let labels = "."@ + host + "."@;
    let p = "."@ + word + "."@;
    let k = choose|k: int| occurs_at(labels, p, k);
    lemma_occurs_chars(labels, p, k);
    assert forall|i: int| 0 <= i < word.len() implies #[trigger] host[k + i] == word[i] by {
        assert(labels[k + (i + 1)] == p[i + 1]);
    }
    lemma_chars_occur(host, word, k);
}

/// A host of a statistics service holds one of the words.
proof fn lemma_host_words(host: Seq<char>)
    requires
        is_tracking_host(host),
    ensures
        contains(host, "log."@) || contains(host, "report"@) || contains(host, "beacon"@) || contains(
            host,
            "collect"@,
        ),
{
    reveal_strlit(".");
    reveal_strlit("log.");
    reveal_strlit(".log.");
    reveal_strlit("report");
    reveal_strlit(".report.");
    reveal_strlit("beacon");
    reveal_strlit(".beacon.");
    reveal_strlit("collect");
    reveal_strlit(".collect.");
    assert(".report."@ =~= "."@ + "report"@ + "."@);
    assert(".beacon."@ =~= "."@ + "beacon"@ + "."@);
    assert(".collect."@ =~= "."@ + "collect"@ + "."@);
    let labels = "."@ + host + "."@;
    if contains(labels, ".report."@) {
        lemma_label(host, "report"@);
    } else if contains(labels, ".beacon."@) {
        lemma_label(host, "beacon"@);
    } else if contains(labels, ".collect."@) {
        lemma_label(host, "collect"@);
    } else {
        let open = "."@ + host;
        let k = choose|k: int| occurs_at(open, ".log."@, k);
        lemma_occurs_chars(open, ".log."@, k);
        assert forall|i: int| 0 <= i < 4 implies #[trigger] host[k + i] == "log."@[i] by {
            assert(open[k + (i + 1)] == ".log."@[i + 1]);
        }
        lemma_chars_occur(host, "log."@, k);
    }
}

/// Where the host of a reference is that of a statistics service, its word stands in the reference.
proof fn lemma_tracking_host_words(t: Seq<char>)
    requires
        !contains(t, "log."@),
        !contains(t, "report"@),
        !contains(t, "beacon"@),
        !contains(t, "collect"@),
    ensures
        !is_tracking(t),
{
    let bare = bare_reference(t);
    let host = reference_host(bare);
    reveal_strlit("log.");
    reveal_strlit("report");
    reveal_strlit("beacon");
    reveal_strlit("collect");
    if is_tracking_host(host) {
        lemma_host_words(host);
        if contains(host, "log."@) {
            lemma_host_contains(bare, "log."@);
            lemma_before_contains(before(t, "?"@), "#"@, "log."@);
            lemma_before_contains(t, "?"@, "log."@);
        } else if contains(host, "report"@) {
            lemma_host_contains(bare, "report"@);
            lemma_before_contains(before(t, "?"@), "#"@, "report"@);
            lemma_before_contains(t, "?"@, "report"@);
        } else if contains(host, "beacon"@) {
            lemma_host_contains(bare, "beacon"@);
            lemma_before_contains(before(t, "?"@), "#"@, "beacon"@);
            lemma_before_contains(t, "?"@, "beacon"@);
        } else {
            lemma_host_contains(bare, "collect"@);
            lemma_before_contains(before(t, "?"@), "#"@, "collect"@);
            lemma_before_contains(t, "?"@, "collect"@);
        }
    }
}

/// A media file: what the last part of its address ends with.
pub open spec fn is_media_suffix(suffix: Seq<char>) -> bool {
    ||| suffix == ".ts"@
    ||| suffix == ".m4s"@
    ||| suffix == ".mp4"@
    ||| suffix == ".m4a"@
    ||| suffix == ".m4v"@
    ||| suffix == ".aac"@
    ||| suffix == ".mp3"@
    ||| suffix == ".vtt"@
}

/// A line with the word of a statistics service, and without the suffix of a media file anywhere, is
/// kept as it is.
pub proof fn law_reports_are_kept(
    line: Seq<char>,
    word: Seq<char>,
    origin: Origin,
    url: Seq<char>,
    host: Seq<char>,
    id: Seq<char>,
)
    requires
        trim(line).len() > 0,
        trim(line)[0] != '#',
        word == "log."@ || word == "report"@ || word == "beacon"@ || word == "collect"@,
        contains(trim(line), word),
        forall|suffix: Seq<char>| #[trigger]
            is_media_suffix(suffix) ==> !contains(trim(line), suffix),
    ensures
        rewrite_line(line, origin, url, host, id) == line,
{
    let t = trim(line);
    let bare = bare_reference(t);
    let path = reference_path(bare);
    lemma_not_tag(t);
    lemma_line_not_tagged(t);
    if is_media_path(path) {
        let suffix = lemma_media_suffix(path);
        lemma_ends_contains(path, suffix);
        lemma_path_contains(bare, suffix);
        lemma_before_contains(before(t, "?"@), "#"@, suffix);
        lemma_before_contains(t, "?"@, suffix);
        assert(is_media_suffix(suffix));
    }
}

/// The suffix that a media path ends with.
proof fn lemma_media_suffix(path: Seq<char>) -> (suffix: Seq<char>)
    requires
        is_media_path(path),
    ensures
        is_media_suffix(suffix),
        ends_with(path, suffix),
        suffix.len() > 0,
{
    reveal_strlit(".ts");
    reveal_strlit(".m4s");
    reveal_strlit(".mp4");
    reveal_strlit(".m4a");
    reveal_strlit(".m4v");
    reveal_strlit(".aac");
    reveal_strlit(".mp3");
    reveal_strlit(".vtt");
    if ends_with(path, ".ts"@) {
        ".ts"@
    } else if ends_with(path, ".m4s"@) {
        ".m4s"@
    } else if ends_with(path, ".mp4"@) {
        ".mp4"@
    } else if ends_with(path, ".m4a"@) {
        ".m4a"@
    } else if ends_with(path, ".m4v"@) {
        ".m4v"@
    } else if ends_with(path, ".aac"@) {
        ".aac"@
    } else if ends_with(path, ".mp3"@) {
        ".mp3"@
    } else {
        ".vtt"@
    }
}

/// A text holds what it ends with.
proof fn lemma_ends_contains(s: Seq<char>, p: Seq<char>)
    requires
        ends_with(s, p),
    ensures
        contains(s, p),
{
    assert(occurs_at(s, p, s.len() - p.len()));
}

/// A media file is a segment, whatever words its address holds, where it is given by its path, with
/// or without a query.
pub proof fn law_media_files_are_segments(
    line: Seq<char>,
    path: Seq<char>,
    suffix: Seq<char>,
    query: Seq<char>,
)
    requires
        trim(line) == path + query,
        query.len() == 0 || query[0] == '?',
        is_media_suffix(suffix),
        ends_with(path, suffix),
        path[0] != '#',
        !path.contains('?'),
        !path.contains('#'),
        !starts_with(path, "//"@),
        !starts_with(path, "http"@),
    ensures
        line_kind(line) == LineKind::Segment,
{
    let t = trim(line);
    lemma_bare(path, query);
    lemma_suffix_len(suffix);
    lemma_not_tag(t);
    assert(t[0] == path[0]);
    lemma_media_is(path, suffix);
    assert(host_and_path(path) is None);
    lemma_empty_host();
    law_media_references_are_segments(line);
}

/// A media file is a segment, whatever words its path and its query hold, where it is given by its
/// whole address, and its host holds none of the words.
pub proof fn law_media_files_at_hosts_are_segments(
    line: Seq<char>,
    scheme: Seq<char>,
    host: Seq<char>,
    path: Seq<char>,
    suffix: Seq<char>,
    query: Seq<char>,
)
    requires
        scheme == "http"@ || scheme == "https"@,
        trim(line) == scheme + "://"@ + host + "/"@ + path + query,
        query.len() == 0 || query[0] == '?',
        is_media_suffix(suffix),
        ends_with(path, suffix),
        !host.contains('/'),
        !host.contains('?'),
        !host.contains('#'),
        !path.contains('?'),
        !path.contains('#'),
        !contains(host, "log."@),
        !contains(host, "report"@),
        !contains(host, "beacon"@),
        !contains(host, "collect"@),
    ensures
        line_kind(line) == LineKind::Segment,
{
    let t = trim(line);
    let whole = scheme + "://"@ + host + "/"@ + path;
    lemma_address_parts(scheme, host, path);
    assert(t =~= whole + query);
    lemma_bare(whole, query);
    lemma_not_tag(t);
    assert(t[0] == 'h');
    lemma_media_is(path, suffix);
    if is_tracking_host(host) {
        lemma_host_words(host);
    }
    law_media_references_are_segments(line);
}

/// The host and the path of an address that has neither a query nor a fragment.
proof fn lemma_address_parts(scheme: Seq<char>, host: Seq<char>, path: Seq<char>)
    requires
        scheme == "http"@ || scheme == "https"@,
        !host.contains('/'),
        !host.contains('?'),
        !host.contains('#'),
        !path.contains('?'),
        !path.contains('#'),
    ensures
        ({
            let whole = scheme + "://"@ + host + "/"@ + path;
            &&& whole.len() > 0 && whole[0] == 'h'
            &&& !whole.contains('?') && !whole.contains('#')
            &&& reference_host(whole) == host
            &&& reference_path(whole) == path
        }),
{
    let whole = scheme + "://"@ + host + "/"@ + path;
    reveal_strlit("http");
    reveal_strlit("https");
    reveal_strlit("://");
    reveal_strlit("/");
    reveal_strlit("//");
    assert(!whole.contains('?') && !whole.contains('#')) by {
        if whole.contains('?') || whole.contains('#') {
            let c = if whole.contains('?') {
                '?'
            } else {
                '#'
            };
            let j = choose|j: int| 0 <= j < whole.len() && whole[j] == c;
            let n = scheme.len() + 3;
            if j >= n && j < n + host.len() {
                assert(host[j - n] == c);
            } else if j > n + host.len() {
                assert(path[j - n - host.len() - 1] == c);
            }
        }
    }
    assert(whole.subrange(0, 4) =~= "http"@);
    assert(!starts_with(whole, "//"@)) by {
        if starts_with(whole, "//"@) {
            lemma_occurs_chars(whole, "//"@, 0);
            assert(whole[0int + 0] == '/');
        }
    }
    let p = "://"@;
    let rest = host + "/"@ + path;
    let n = scheme.len() as int;
    assert(whole.subrange(n, n + 3) =~= p);
    assert forall|j: int| 0 <= j < n implies !occurs_at(whole, p, j) by {
        if occurs_at(whole, p, j) {
            lemma_occurs_chars(whole, p, j);
            assert(whole[j + 0] == ':');
        }
    }
    lemma_find_is(whole, p, 0, n);
    assert(whole.skip(n + 3) =~= rest);
    assert(host_and_path(whole) == Some(rest));
    lemma_split_first(host, "/"@, path);
    assert("/"@ =~= seq!['/']);
}

/// A reference without a query is itself; its query is left out.
proof fn lemma_bare(path: Seq<char>, query: Seq<char>)
    requires
        query.len() == 0 || query[0] == '?',
        !path.contains('?'),
        !path.contains('#'),
    ensures
        bare_reference(path + query) == path,
{
    reveal_strlit("?");
    reveal_strlit("#");
    let s = path + query;
    if query.len() == 0 {
        assert(s =~= path);
        lemma_find_contains(s, "?"@);
        lemma_holds_one(s, '?');
        assert("?"@ =~= seq!['?']);
        assert(before(s, "?"@) == path);
    } else {
        assert(s =~= path + "?"@ + query.skip(1));
        lemma_split_first(path, "?"@, query.skip(1));
    }
    lemma_find_contains(path, "#"@);
    lemma_holds_one(path, '#');
    assert("#"@ =~= seq!['#']);
}

/// A path that ends with the suffix of a media file is that of one.
proof fn lemma_media_is(path: Seq<char>, suffix: Seq<char>)
    requires
        is_media_suffix(suffix),
        ends_with(path, suffix),
    ensures
        is_media_path(path),
{
}

/// The suffix of a media file is not empty.
proof fn lemma_suffix_len(suffix: Seq<char>)
    requires
        is_media_suffix(suffix),
    ensures
        suffix.len() > 0,
{
    reveal_strlit(".ts");
    reveal_strlit(".m4s");
    reveal_strlit(".mp4");
    reveal_strlit(".m4a");
    reveal_strlit(".m4v");
    reveal_strlit(".aac");
    reveal_strlit(".mp3");
    reveal_strlit(".vtt");
}

/// No host is that of a statistics service where there is none.
proof fn lemma_empty_host()
    ensures
        !is_tracking_host(seq![]),
{
    let none = Seq::<char>::empty();
    if is_tracking_host(none) {
        lemma_host_words(none);
        reveal_strlit("log.");
        reveal_strlit("report");
        reveal_strlit("beacon");
        reveal_strlit("collect");
    }
}

/// A line whose text is empty is kept as it is; so is one that begins with `#` and is neither that of
/// a key nor that of an initialisation segment, and one without a dot, a slash or a question mark.
pub proof fn law_other_lines_are_kept(
    line: Seq<char>,
    origin: Origin,
    url: Seq<char>,
    host: Seq<char>,
    id: Seq<char>,
)
    requires
        ({
            let t = trim(line);
            ||| t.len() == 0
            ||| t[0] == '#' && !starts_with(t, "#EXT-X-KEY"@) && !starts_with(t, "#EXT-X-MAP"@)
            ||| t[0] != '#' && !t.contains('.') && !t.contains('/') && !t.contains('?')
        }),
    ensures
        rewrite_line(line, origin, url, host, id) == line,
{
    let t = trim(line);
    if t.len() > 0 {
        lemma_not_tag(t);
        lemma_holds_one(t, '.');
        lemma_holds_one(t, '/');
        lemma_holds_one(t, '?');
        reveal_strlit(".");
        reveal_strlit("/");
        reveal_strlit("?");
        assert("."@ =~= seq!['.'] && "/"@ =~= seq!['/'] && "?"@ =~= seq!['?']);
        if t[0] != '#' {
            lemma_line_not_tagged(t);
        }
    }
}

/// A head without the separator stays before it.
proof fn lemma_before_head(head: Seq<char>, s: Seq<char>, c: char)
    requires
        !head.contains(c),
    ensures
        before(head + s, seq![c]) == head + before(s, seq![c]),
{
    let p = seq![c];
    let whole = head + s;
    lemma_find_contains(s, p);
    lemma_find_contains(whole, p);
    lemma_holds_one(s, c);
    lemma_holds_one(whole, c);
    lemma_find_from(s, p, 0);
    match find(s, p) {
        Some(i) => {
            lemma_occurs_chars(s, p, i);
            let n = head.len() + i;
            assert(s[i + 0] == c);
            assert(whole.subrange(n, n + 1) =~= p);
            assert forall|j: int| 0 <= j < n implies !occurs_at(whole, p, j) by {
                if occurs_at(whole, p, j) {
                    lemma_occurs_chars(whole, p, j);
                    assert(whole[j + 0] == c);
                    if j < head.len() {
                        assert(head[j] == c);
                    } else {
                        let k = j - head.len();
                        assert(s.subrange(k, k + 1) =~= p);
                        assert(occurs_at(s, p, k));
                    }
                }
            }
            lemma_find_is(whole, p, 0, n);
            assert(whole.take(n) =~= head + s.take(i));
        },
        None => {
            assert(!whole.contains(c)) by {
                if whole.contains(c) {
                    let j = choose|j: int| 0 <= j < whole.len() && whole[j] == c;
                    if j < head.len() {
                        assert(head[j] == c);
                    } else {
                        assert(s[j - head.len()] == c);
                    }
                }
            }
        },
    }
}

/// The words are letters only.
proof fn lemma_word_letters(word: Seq<char>)
    requires
        word == "log"@ || word == "report"@ || word == "beacon"@ || word == "collect"@,
    ensures
        forall|k: int| 0 <= k < word.len() ==> 'a' <= #[trigger] word[k] <= 'z',
{
    reveal_strlit("log");
    reveal_strlit("report");
    reveal_strlit("beacon");
    reveal_strlit("collect");
}

/// A word between dots is a label of a host.
proof fn lemma_label_of_host(a: Seq<char>, word: Seq<char>, end: Seq<char>)
    requires
        a.len() == 0 || a.last() == '.',
    ensures
        contains("."@ + (a + word + "."@ + end), "."@ + word + "."@),
        contains("."@ + (a + word + "."@ + end) + "."@, "."@ + word + "."@),
{
    reveal_strlit(".");
    let label = "."@ + word + "."@;
    let open = "."@ + (a + word + "."@ + end);
    let k = a.len() as int;
    assert(open[k] == '.') by {
        if a.len() > 0 {
            assert(open[k] == a[k - 1]);
        }
    }
    assert(open.subrange(k, k + label.len()) =~= label);
    assert(occurs_at(open, label, k));
    lemma_part_contains(seq![], open, "."@, label);
    assert(seq![] + open + "."@ =~= open + "."@);
}

/// The host of a whole address begins with what stands behind the scheme, as far as that is of the
/// host.
proof fn lemma_host_of_address(scheme: Seq<char>, known: Seq<char>, rest: Seq<char>) -> (end: Seq<
    char,
>)
    requires
        scheme == "http"@ || scheme == "https"@,
        !known.contains('/'),
        !known.contains('?'),
        !known.contains('#'),
    ensures
        reference_host(bare_reference(scheme + "://"@ + known + rest)) == known + end,
{
    let front = scheme + "://"@;
    let head = front + known;
    let t = head + rest;
    reveal_strlit("http");
    reveal_strlit("https");
    reveal_strlit("://");
    reveal_strlit("//");
    assert("/"@ =~= seq!['/'] && "?"@ =~= seq!['?'] && "#"@ =~= seq!['#']) by {
        reveal_strlit("/");
        reveal_strlit("?");
        reveal_strlit("#");
    }
    assert forall|c: char| c == '?' || c == '#' implies !head.contains(c) by {
        if head.contains(c) {
            let j = choose|j: int| 0 <= j < head.len() && head[j] == c;
            if j >= front.len() {
                assert(known[j - front.len()] == c);
            }
        }
    }
    lemma_before_head(head, rest, '?');
    let cut = before(rest, "?"@);
    lemma_before_head(head, cut, '#');
    let tail = before(cut, "#"@);
    let bare = bare_reference(t);
    assert(bare == head + tail);
    let p = "://"@;
    let n = scheme.len() as int;
    assert(bare.subrange(0, 4) =~= "http"@);
    assert(!starts_with(bare, "//"@)) by {
        if starts_with(bare, "//"@) {
            lemma_occurs_chars(bare, "//"@, 0);
            assert(bare[0int + 0] == '/');
        }
    }
    assert(bare.subrange(n, n + 3) =~= p);
    assert forall|j: int| 0 <= j < n implies !occurs_at(bare, p, j) by {
        if occurs_at(bare, p, j) {
            lemma_occurs_chars(bare, p, j);
            assert(bare[j + 0] == ':');
        }
    }
    lemma_find_is(bare, p, 0, n);
    assert(bare.skip(n + 3) =~= known + tail);
    lemma_before_head(known, tail, '/');
    before(tail, "/"@)
}

/// A line that gives the whole address of something at a statistics service is kept as it is, also
/// where it ends as a media file does: one of the words is a label of its host.
pub proof fn law_statistics_hosts_are_kept(
    line: Seq<char>,
    scheme: Seq<char>,
    a: Seq<char>,
    word: Seq<char>,
    rest: Seq<char>,
    origin: Origin,
    url: Seq<char>,
    host: Seq<char>,
    id: Seq<char>,
)
    requires
        scheme == "http"@ || scheme == "https"@,
        word == "log"@ || word == "report"@ || word == "beacon"@ || word == "collect"@,
        trim(line) == scheme + "://"@ + a + word + "."@ + rest,
        a.len() == 0 || a.last() == '.',
        !a.contains('/'),
        !a.contains('?'),
        !a.contains('#'),
    ensures
        rewrite_line(line, origin, url, host, id) == line,
{
    let t = trim(line);
    let known = a + word + "."@;
    lemma_word_letters(word);
    assert forall|c: char| c == '/' || c == '?' || c == '#' implies !known.contains(c) by {
        reveal_strlit(".");
        if known.contains(c) {
            let j = choose|j: int| 0 <= j < known.len() && known[j] == c;
            if j < a.len() {
                assert(a[j] == c);
            } else if j < a.len() + word.len() {
                assert(word[j - a.len()] == c);
            }
        }
    }
    assert(t =~= scheme + "://"@ + known + rest);
    let end = lemma_host_of_address(scheme, known, rest);
    let site = reference_host(bare_reference(t));
    assert(site == a + word + "."@ + end);
    lemma_label_of_host(a, word, end);
    assert(is_tracking_host(site)) by {
        reveal_strlit(".");
        reveal_strlit("log");
        reveal_strlit("report");
        reveal_strlit("beacon");
        reveal_strlit("collect");
        reveal_strlit(".log.");
        reveal_strlit(".report.");
        reveal_strlit(".beacon.");
        reveal_strlit(".collect.");
        let label = "."@ + word + "."@;
        assert(label =~= ".log."@ || label =~= ".report."@ || label =~= ".beacon."@ || label
            =~= ".collect."@);
    }
    assert(t.len() > 0 && t[0] == 'h') by {
        reveal_strlit("http");
        reveal_strlit("https");
    }
    lemma_not_tag(t);
    lemma_line_not_tagged(t);
}

// ─── Which variant is chosen ─────────────────────────────────────────────────

/// A number in decimal digits that stands behind `BANDWIDTH=`, up to a comma or the end of the line,
/// is the bandwidth of a stream line that holds `BANDWIDTH=` once: whatever the number, up to the
/// highest that 64 bits hold.
pub proof fn law_written_bandwidth_is_read(line: Seq<char>, a: Seq<char>, n: u64, rest: Seq<char>)
    requires
        line == a + "BANDWIDTH="@ + decimal(n as nat) + rest,
        rest.len() == 0 || rest[0] == ',',
        forall|j: int| j != a.len() ==> !occurs_at(line, "BANDWIDTH="@, j),
    ensures
        stream_bandwidth(line) == Some(n),
{
    let i = a.len() as int;
    reveal_strlit("BANDWIDTH=");
    assert(line.subrange(i, i + 10) =~= "BANDWIDTH="@);
    law_only_bandwidth_is_read(line, i);
    lemma_digits_written(line, a, n, rest);
}

/// A number in decimal digits that stands behind the attribute `BANDWIDTH`, up to a comma, another
/// `BANDWIDTH=` or the end of the line, is the bandwidth of a stream line, where every `BANDWIDTH=`
/// before it ends a longer name.
pub proof fn law_bandwidth_attribute_is_read(line: Seq<char>, a: Seq<char>, n: u64, rest: Seq<char>)
    requires
        line == a + "BANDWIDTH="@ + decimal(n as nat) + rest,
        rest.len() == 0 || rest[0] == ',' || starts_with(rest, "BANDWIDTH="@),
        a.len() > 0,
        a.last() == ':' || a.last() == ',' || is_white_space(a.last()),
        !a.contains('"'),
        forall|j: int|
            0 <= j < a.len() && occurs_at(line, "BANDWIDTH="@, j) ==> j > 0 && (#[trigger] line[j - 1]
                == '-' || 'A' <= line[j - 1] <= 'Z' || '0' <= line[j - 1] <= '9'),
    ensures
        stream_bandwidth(line) == Some(n),
{
    let i = a.len() as int;
    let name = "BANDWIDTH="@;
    reveal_strlit("BANDWIDTH=");
    assert(line.subrange(i, i + 10) =~= name);
    assert(line.take(i) =~= a);
    assert forall|j: int| 0 <= j < a.len() implies a[j] != '"' by {
        assert(a.contains(a[j]));
    }
    lemma_unquoted(a);
    assert(line[i - 1] == a.last());
    assert(is_attribute_at(line, name, i));
    assert forall|j: int| 0 <= j < i implies !is_attribute_at(line, name, j) by {
        if is_attribute_at(line, name, j) {
            assert(occurs_at(line, name, j));
            let c = line[j - 1];
            assert(!is_white_space(c));
        }
    }
    law_first_attribute_is_read(line, i);
    lemma_digits_written(line, a, n, rest);
}

/// A bandwidth that stands between quotes, in the value of another attribute, is passed over: the one
/// that is read is that of the attribute behind the quotes.
pub proof fn law_quoted_bandwidth_is_passed_over(
    line: Seq<char>,
    a: Seq<char>,
    quoted: Seq<char>,
    b: Seq<char>,
    n: u64,
    rest: Seq<char>,
)
    requires
        line == a + seq!['"'] + quoted + seq!['"'] + b + "BANDWIDTH="@ + decimal(n as nat) + rest,
        !a.contains('"'),
        !quoted.contains('"'),
        !b.contains('"'),
        b.len() > 0,
        b.last() == ':' || b.last() == ',' || is_white_space(b.last()),
        rest.len() == 0 || rest[0] == ',' || starts_with(rest, "BANDWIDTH="@),
        forall|j: int|
            0 <= j < a.len() + 2 + quoted.len() + b.len() && #[trigger] occurs_at(
                line,
                "BANDWIDTH="@,
                j,
            ) ==> a.len() < j <= a.len() + 1 + quoted.len(),
    ensures
        stream_bandwidth(line) == Some(n),
{
    let name = "BANDWIDTH="@;
    let front = a + seq!['"'] + quoted + seq!['"'] + b;
    let i = front.len() as int;
    reveal_strlit("BANDWIDTH=");
    assert(line =~= front + name + decimal(n as nat) + rest);
    assert(line.subrange(i, i + 10) =~= name);
    assert(line.take(i) =~= front);
    let opened = a + seq!['"'];
    let closed = a + seq!['"'] + quoted + seq!['"'];
    assert(opened.drop_last() =~= a);
    assert forall|j: int| 0 <= j < a.len() implies a[j] != '"' by {
        assert(a.contains(a[j]));
    }
    lemma_unquoted(a);
    assert(in_quotes(opened));
    lemma_quotes_last(opened, quoted);
    assert(closed.drop_last() =~= opened + quoted);
    assert(!in_quotes(closed));
    lemma_quotes_last(closed, b);
    assert(line[i - 1] == b.last());
    assert(is_attribute_at(line, name, i));
    assert forall|j: int| 0 <= j < i implies !is_attribute_at(line, name, j) by {
        if occurs_at(line, name, j) {
            let part = quoted.take(j - a.len() - 1);
            assert(line.take(j) =~= opened + part);
            assert forall|k: int| 0 <= k < part.len() implies part[k] != '"' by {
                assert(quoted.contains(quoted[k]));
            }
            assert(!part.contains('"'));
            lemma_quotes_last(opened, part);
        }
    }
    law_first_attribute_is_read(line, i);
    lemma_digits_written(line, front, n, rest);
}

/// A text without quotes behind another changes nothing of whether a quoted string is open.
proof fn lemma_quotes_last(s: Seq<char>, part: Seq<char>)
    requires
        !part.contains('"'),
    ensures
        in_quotes(s + part) == in_quotes(s),
    decreases part.len(),
{
    if part.len() == 0 {
        assert(s + part =~= s);
    } else {
        let less = part.drop_last();
        assert forall|k: int| 0 <= k < less.len() implies less[k] != '"' by {
            assert(part.contains(part[k]));
        }
        assert(!less.contains('"'));
        lemma_quotes_last(s, less);
        assert((s + part).drop_last() =~= s + less);
        assert((s + part).last() == part.last());
        assert(part.contains(part.last()));
    }
}

/// The digits that are written behind `BANDWIDTH=` are those that are read.
proof fn lemma_digits_written(line: Seq<char>, a: Seq<char>, n: u64, rest: Seq<char>)
    requires
        line == a + "BANDWIDTH="@ + decimal(n as nat) + rest,
        rest.len() == 0 || rest[0] == ',' || starts_with(rest, "BANDWIDTH="@),
    ensures
        digits_at(line, a.len() as int) == n,
{
    let i = a.len() as int;
    let name = "BANDWIDTH="@;
    let digits = decimal(n as nat);
    reveal_strlit("BANDWIDTH=");
    assert(","@ =~= seq![',']) by {
        reveal_strlit(",");
    }
    let tail = line.skip(i + 10);
    assert(tail =~= digits + rest);
    lemma_decimal_digits(n as nat);
    assert(!digits.contains(',') && !digits.contains('B')) by {
        assert forall|k: int| 0 <= k < digits.len() implies digits[k] != ',' && digits[k] != 'B' by {
            assert(is_digit(digits[k]));
        }
    }
    lemma_before_word(digits, rest, name);
    let mid = before(rest, name);
    lemma_find_from(rest, name, 0);
    if starts_with(rest, name) {
        lemma_find_is(rest, name, 0, 0);
        assert(mid =~= seq![]);
    } else if rest.len() > 0 {
        if let Some(k) = find(rest, name) {
            lemma_occurs_chars(rest, name, k);
            assert(rest[k + 0] == 'B');
            assert(k > 0);
        }
        assert(mid.len() > 0 && mid[0] == ',');
    }
    lemma_before_head(digits, mid, ',');
    if mid.len() > 0 {
        assert(mid =~= seq![] + ","@ + mid.skip(1));
        lemma_split_first(seq![], ","@, mid.skip(1));
    } else {
        lemma_find_contains(mid, ","@);
        lemma_holds_one(mid, ',');
    }
    assert(before(before(tail, name), ","@) =~= digits);
    law_decimal_reads_back(n as nat, u64::MAX as nat);
}

/// What stands before a word in a text whose head lacks the first letter of the word is the head, and
/// what stands before the word in the rest.
proof fn lemma_before_word(head: Seq<char>, s: Seq<char>, p: Seq<char>)
    requires
        p.len() > 0,
        !head.contains(p[0]),
    ensures
        before(head + s, p) == head + before(s, p),
{
    let whole = head + s;
    let m = head.len() as int;
    assert forall|j: int| occurs_at(whole, p, j) implies j >= m && #[trigger] occurs_at(s, p, j - m) by {
        lemma_occurs_chars(whole, p, j);
        assert(whole[j + 0] == p[0]);
        if j < m {
            assert(head[j] == p[0]);
        }
        assert forall|x: int| 0 <= x < p.len() implies #[trigger] s[(j - m) + x] == p[x] by {
            assert(whole[j + x] == p[x]);
        }
        lemma_chars_occur(s, p, j - m);
    }
    lemma_find_from(s, p, 0);
    lemma_find_from(whole, p, 0);
    match find(s, p) {
        Some(i) => {
            lemma_occurs_chars(s, p, i);
            assert forall|x: int| 0 <= x < p.len() implies #[trigger] whole[(m + i) + x] == p[x] by {
                assert(s[i + x] == p[x]);
            }
            lemma_chars_occur(whole, p, m + i);
            assert forall|j: int| 0 <= j < m + i implies !occurs_at(whole, p, j) by {
                if occurs_at(whole, p, j) {
                    assert(occurs_at(s, p, j - m));
                }
            }
            lemma_find_is(whole, p, 0, m + i);
            assert(whole.take(m + i) =~= head + s.take(i));
        },
        None => {
            if let Some(j) = find(whole, p) {
                assert(occurs_at(s, p, j - m));
            }
        },
    }
}

/// A variant of a playlist is announced: its reference is a line that stands behind a stream line of
/// its bandwidth, which is above zero.
pub open spec fn is_announced(playlist: Seq<char>, v: Variant, i: int, j: int) -> bool {
    &&& 0 <= i < j < lines(playlist).len()
    &&& starts_with(trim(lines(playlist)[i]), "#EXT-X-STREAM-INF"@)
    &&& stream_bandwidth(trim(lines(playlist)[i])) == Some(v.bandwidth)
    &&& trim(lines(playlist)[j]) == v.uri
    &&& v.bandwidth > 0
    &&& v.uri.len() > 0 && v.uri[0] != '#'
}

/// Every variant of some lines is announced by two of them, and so is a bandwidth without a
/// reference by one.
proof fn lemma_scan_announced(ls: Seq<Seq<char>>, k: int)
    ensures
        0 <= k < scan_variants(ls).0.len() ==> exists|i: int, j: int|
            0 <= i < j < ls.len() && starts_with(trim(#[trigger] ls[i]), "#EXT-X-STREAM-INF"@)
                && stream_bandwidth(trim(ls[i])) == Some(scan_variants(ls).0[k].bandwidth) && trim(
                #[trigger] ls[j],
            ) == scan_variants(ls).0[k].uri && scan_variants(ls).0[k].bandwidth > 0
                && scan_variants(ls).0[k].uri.len() > 0 && scan_variants(ls).0[k].uri[0] != '#',
        scan_variants(ls).1 > 0 ==> exists|i: int|
            0 <= i < ls.len() && starts_with(trim(#[trigger] ls[i]), "#EXT-X-STREAM-INF"@)
                && stream_bandwidth(trim(ls[i])) == Some(scan_variants(ls).1),
    decreases ls.len(),
{
    if ls.len() > 0 {
        let rest = ls.drop_last();
        lemma_scan_announced(rest, k);
        let (found, announced) = scan_variants(rest);
        let t = trim(ls.last());
        let n = ls.len() - 1;
        assert(ls[n] == ls.last());
        if 0 <= k < found.len() {
            let (i, j) = choose|i: int, j: int|
                0 <= i < j < rest.len() && starts_with(
                    trim(#[trigger] rest[i]),
                    "#EXT-X-STREAM-INF"@,
                ) && stream_bandwidth(trim(rest[i])) == Some(found[k].bandwidth) && trim(
                    #[trigger] rest[j],
                ) == found[k].uri && found[k].bandwidth > 0 && found[k].uri.len() > 0
                    && found[k].uri[0] != '#';
            assert(ls[i] == rest[i] && ls[j] == rest[j]);
        }
        if announced > 0 {
            let i = choose|i: int|
                0 <= i < rest.len() && starts_with(trim(#[trigger] rest[i]), "#EXT-X-STREAM-INF"@)
                    && stream_bandwidth(trim(rest[i])) == Some(announced);
            assert(ls[i] == rest[i]);
            if t.len() > 0 {
                lemma_not_tag(t);
            }
            if k == found.len() && scan_variants(ls).0.len() > found.len() {
                assert(0 <= i < n < ls.len() && starts_with(
                    trim(ls[i]),
                    "#EXT-X-STREAM-INF"@,
                ) && trim(ls[n]) == scan_variants(ls).0[k].uri);
            }
        }
    }
}

/// The variant that is selected is one that the playlist announces, of a bandwidth that no reference
/// directly behind a stream line surpasses; its address is its reference where that begins with
/// `http`, and otherwise the reference joined to the address of the playlist, where it can be. A
/// playlist with such a reference has one selected.
pub proof fn law_highest_bandwidth_is_selected(playlist: Seq<char>, base: Seq<char>, i: int)
    requires
        url_origin(base) is Some,
        0 <= i,
        i + 1 < lines(playlist).len(),
        starts_with(trim(lines(playlist)[i]), "#EXT-X-STREAM-INF"@),
        stream_bandwidth(trim(lines(playlist)[i])) matches Some(b) && b > 0,
        trim(lines(playlist)[i + 1]).len() > 0,
        trim(lines(playlist)[i + 1])[0] != '#',
    ensures
        exists|v: Variant, p: int, q: int| #[trigger]
            is_announced(playlist, v, p, q) && v.bandwidth >= stream_bandwidth(
                trim(lines(playlist)[i]),
            )->0 && selected(playlist, base) == Some(
                if starts_with(v.uri, "http"@) {
                    v.uri
                } else {
                    match url_joined(base, v.uri) {
                        Some(u) => u,
                        None => v.uri,
                    }
                },
            ),
{
    let ls = lines(playlist);
    lemma_not_tag(trim(ls[i + 1]));
    law_announced_references_are_variants(playlist, i);
    let vs = variants(playlist);
    let own = Variant { bandwidth: stream_bandwidth(trim(ls[i]))->0, uri: trim(ls[i + 1]) };
    let at = choose|at: int| 0 <= at < vs.len() && vs[at] == own;
    law_best_place_is_best(vs);
    let k = best_place(vs);
    assert(vs[at].bandwidth <= vs[k].bandwidth);
    lemma_scan_announced(ls, k);
    let (p, q) = choose|p: int, q: int|
        0 <= p < q < ls.len() && starts_with(trim(#[trigger] ls[p]), "#EXT-X-STREAM-INF"@)
            && stream_bandwidth(trim(ls[p])) == Some(vs[k].bandwidth) && trim(#[trigger] ls[q])
            == vs[k].uri && vs[k].bandwidth > 0 && vs[k].uri.len() > 0 && vs[k].uri[0] != '#';
    assert(is_announced(playlist, vs[k], p, q));
}

/// Nothing is selected where no stream line has a bandwidth above zero, and nothing of a playlist
/// whose own address cannot be read.
pub proof fn law_nothing_is_selected_without_a_bandwidth(playlist: Seq<char>, base: Seq<char>)
    requires
        url_origin(base) is None || forall|i: int|
            0 <= i < lines(playlist).len() && starts_with(
                trim(#[trigger] lines(playlist)[i]),
                "#EXT-X-STREAM-INF"@,
            ) ==> stream_bandwidth(trim(lines(playlist)[i])) is None || stream_bandwidth(
                trim(lines(playlist)[i]),
            ) == Some(0u64),
    ensures
        selected(playlist, base) is None,
{
    let ls = lines(playlist);
    let vs = variants(playlist);
    if vs.len() > 0 {
        lemma_scan_announced(ls, 0);
        if url_origin(base) is Some {
            let (p, q) = choose|p: int, q: int|
                0 <= p < q < ls.len() && starts_with(trim(#[trigger] ls[p]), "#EXT-X-STREAM-INF"@)
                    && stream_bandwidth(trim(ls[p])) == Some(vs[0].bandwidth) && trim(
                    #[trigger] ls[q],
                ) == vs[0].uri && vs[0].bandwidth > 0 && vs[0].uri.len() > 0 && vs[0].uri[0] != '#';
            assert(stream_bandwidth(trim(ls[p])) is Some);
        }
    }
}

// ─── Addresses, refusals and entries ─────────────────────────────────────────

/// A CCTV address is fixed by putting the 720P playlist in the place of the first `/index.m3u8` and
/// all that follows it; an address without one, and one that asks for a bit rate, stays as it is.
pub proof fn law_index_playlists_are_replaced(url: Seq<char>, head: Seq<char>, tail: Seq<char>)
    ensures
        url == head + "/index.m3u8"@ + tail && !contains(head + "/index.m3u"@, "/index.m3u8"@)
            && !contains(url, "b=200-2100"@) && !contains(url, "BR="@) ==> fixed_cctv_url(url) == head
            + "_720P/playlist.m3u8?wsApp=HLS"@,
        !contains(url, "/index.m3u8"@) || contains(url, "b=200-2100"@) || contains(url, "BR="@)
            ==> fixed_cctv_url(url) == url,
{
    let p = "/index.m3u8"@;
    assert(p.len() > 0 && p.drop_last() =~= "/index.m3u"@) by {
        reveal_strlit("/index.m3u8");
        reveal_strlit("/index.m3u");
    }
    if url == head + p + tail && !contains(head + "/index.m3u"@, p) {
        lemma_first_of(head, p, tail);
        lemma_find_contains(url, p);
        assert(url.take(head.len() as int) =~= head);
    }
}

/// A reply refuses exactly where its status is 401 or 403, or its body, in lower case, holds one of
/// the seven words.
pub proof fn law_refusals_are_told_by_seven_words(status: u16, lower: Seq<char>)
    ensures
        refuses(status, lower) ==> status == 401 || status == 403 || exists|word: Seq<char>|
            #[trigger] contains(lower, word) && (word == "txsecret"@ || word == "txtime"@ || word
                == "auth_key"@ || word == "auth failed"@ || word == "auth expired"@ || word
                == "signature"@ || word == "unauthorized"@),
        forall|word: Seq<char>| #[trigger]
            contains(lower, word) && (word == "txsecret"@ || word == "txtime"@ || word == "auth_key"@
                || word == "auth failed"@ || word == "auth expired"@ || word == "signature"@ || word
                == "unauthorized"@) ==> refuses(status, lower),
        status == 401 || status == 403 ==> refuses(status, lower),
{
}

/// The parts of a line stand in it.
proof fn lemma_first_line(
    a: Seq<char>,
    b: Seq<char>,
    c: Seq<char>,
    d: Seq<char>,
    e: Seq<char>,
    f: Seq<char>,
)
    ensures
        starts_with(a + b + c + d + c + e + f, a),
        contains(a + b + c + d + c + e + f, b),
        contains(a + b + c + d + c + e + f, d),
        contains(a + b + c + d + c + e + f, e),
        ends_with(a + b + c + d + c + e + f, f),
{
    let first = a + b + c + d + c + e + f;
    lemma_contains_itself(b);
    lemma_contains_itself(d);
    lemma_contains_itself(e);
    assert(first =~= a + b + (c + d + c + e + f));
    lemma_part_contains(a, b, c + d + c + e + f, b);
    assert(first =~= (a + b + c) + d + (c + e + f));
    lemma_part_contains(a + b + c, d, c + e + f, d);
    lemma_part_contains(a + b + c + d + c, e, f, e);
    assert(first.subrange(0, a.len() as int) =~= a);
    assert(first.subrange(first.len() - f.len(), first.len() as int) =~= f);
}

/// Putting the parts of an entry together in one go, or line by line, is the same.
proof fn lemma_entry_parts(
    a: Seq<char>,
    b: Seq<char>,
    id: Seq<char>,
    q: Seq<char>,
    s: Seq<char>,
    d: Seq<char>,
    name: Seq<char>,
    e: Seq<char>,
    group: Seq<char>,
    f: Seq<char>,
    n: Seq<char>,
    h: Seq<char>,
    host: Seq<char>,
    slash: Seq<char>,
    end: Seq<char>,
)
    ensures
        (a + b) + id + (q + s + d) + name + (q + s + e) + group + (q + f) + name + (n + h) + host
            + slash + id + (end + n) =~= ((a + (b + id + q) + s + (d + name + q) + s + (e + group + q)
            + (f + name)) + n) + h + host + slash + id + end + n,
{
}

/// An entry of a channel list is two lines: one that ends with the name of the channel behind a
/// comma, and gives its id, its name and its group; and the address of its playlist on the host.
pub proof fn law_entries_are_two_lines(
    id: Seq<char>,
    name: Seq<char>,
    group: Seq<char>,
    host: Seq<char>,
)
    ensures
        exists|first: Seq<char>|
            {
                &&& entry(id, name, group, host) == #[trigger] (first + seq!['\n']) + "http://"@ + host
                    + "/"@ + id + "/playlist.m3u8"@ + seq!['\n']
                &&& starts_with(first, "#EXTINF:-1 "@)
                &&& ends_with(first, ","@ + name)
                &&& contains(first, "tvg-id=\""@ + id + "\""@)
                &&& contains(first, "tvg-name=\""@ + name + "\""@)
                &&& contains(first, "group-title=\""@ + group + "\""@)
            },
{
    assert("#EXTINF:-1 tvg-id=\""@ =~= "#EXTINF:-1 "@ + "tvg-id=\""@) by {
        reveal_strlit("#EXTINF:-1 tvg-id=\"");
        reveal_strlit("#EXTINF:-1 ");
        reveal_strlit("tvg-id=\"");
    }
    assert("\" tvg-name=\""@ =~= "\""@ + " "@ + "tvg-name=\""@) by {
        reveal_strlit("\" tvg-name=\"");
        reveal_strlit("\"");
        reveal_strlit(" ");
        reveal_strlit("tvg-name=\"");
    }
    assert("\" group-title=\""@ =~= "\""@ + " "@ + "group-title=\""@) by {
        reveal_strlit("\" group-title=\"");
        reveal_strlit("\"");
        reveal_strlit(" ");
        reveal_strlit("group-title=\"");
    }
    assert("\","@ =~= "\""@ + ","@) by {
        reveal_strlit("\",");
        reveal_strlit("\"");
        reveal_strlit(",");
    }
    assert("\nhttp://"@ =~= seq!['\n'] + "http://"@) by {
        reveal_strlit("\nhttp://");
        reveal_strlit("http://");
    }
    assert("/playlist.m3u8\n"@ =~= "/playlist.m3u8"@ + seq!['\n']) by {
        reveal_strlit("/playlist.m3u8\n");
        reveal_strlit("/playlist.m3u8");
    }
    let a = "#EXTINF:-1 "@;
    let b = "tvg-id=\""@ + id + "\""@;
    let d = "tvg-name=\""@ + name + "\""@;
    let e = "group-title=\""@ + group + "\""@;
    let f = ","@ + name;
    let first = a + b + " "@ + d + " "@ + e + f;
    lemma_first_line(a, b, " "@, d, e, f);
    lemma_entry_parts(
        a,
        "tvg-id=\""@,
        id,
        "\""@,
        " "@,
        "tvg-name=\""@,
        name,
        "group-title=\""@,
        group,
        ","@,
        seq!['\n'],
        "http://"@,
        host,
        "/"@,
        "/playlist.m3u8"@,
    );
    assert(entry(id, name, group, host) == (first + seq!['\n']) + "http://"@ + host + "/"@ + id
        + "/playlist.m3u8"@ + seq!['\n']);
}

} // verus!
