//! What the library takes from other crates and from the parts of `std` that carry no contract
//! of their own. Every item here states, in its contract, what is believed of the call it makes.
use base64::engine::general_purpose::URL_SAFE_NO_PAD;
use base64::Engine;
use vstd::prelude::*;
use vstd::utf8::{decode_utf8, valid_utf8};

verus! {

// ─── url ─────────────────────────────────────────────────────────────────────

/// The error of the `url` crate's parser.
#[verifier::external_type_specification]
#[verifier::external_body]
pub struct ExUrlParseError(url::ParseError);

/// The scheme of an absolute URL, and its host where it has one.
#[derive(Debug, Clone)]
pub struct UrlOrigin {
    pub scheme: String,
    pub host: Option<String>,
}

/// What a [`UrlOrigin`] holds, as character sequences.
pub struct Origin {
    pub scheme: Seq<char>,
    pub host: Option<Seq<char>>,
}

impl View for UrlOrigin {
    type V = Origin;

    open spec fn view(&self) -> Origin {
        Origin { scheme: self.scheme@, host: opt_view(self.host) }
    }
}

/// The characters of an optional string.
pub open spec fn opt_view(s: Option<String>) -> Option<Seq<char>> {
    match s {
        Some(t) => Some(t@),
        None => None,
    }
}

/// What an optional [`UrlOrigin`] holds.
pub open spec fn opt_origin(o: Option<UrlOrigin>) -> Option<Origin> {
    match o {
        Some(origin) => Some(origin@),
        None => None,
    }
}

/// The origin of the text `s` read as an absolute URL, or nothing where it is none.
pub uninterp spec fn url_origin(s: Seq<char>) -> Option<Origin>;

/// The reference `href` resolved against the absolute URL `base`, or nothing where either of them
/// cannot be read.
pub uninterp spec fn url_joined(base: Seq<char>, href: Seq<char>) -> Option<Seq<char>>;

/// `url::Url::parse`, of whose result the scheme and the host are kept (`Url::scheme`,
/// `Url::host_str`). Believed: whether the text parses, and these two parts, depend on the text
/// alone.
#[verifier::external_body]
pub(crate) fn parse_url(s: &str) -> (r: Result<UrlOrigin, url::ParseError>)
    ensures
        match r {
            Ok(o) => url_origin(s@) == Some(o@),
            Err(_) => url_origin(s@) is None,
        },
{
    url::Url::parse(s).map(|u| UrlOrigin {
        scheme: u.scheme().to_string(),
        host: u.host_str().map(|h| h.to_string()),
    })
}

/// `url::Url::join` on the URL that `url::Url::parse` reads from `base`, as text. Believed: the
/// result depends on the two texts alone.
#[verifier::external_body]
pub(crate) fn join_url(base: &str, href: &str) -> (r: Result<String, url::ParseError>)
    ensures
        match r {
            Ok(u) => url_joined(base@, href@) == Some(u@),
            Err(_) => url_joined(base@, href@) is None,
        },
{
    url::Url::parse(base).and_then(|u| u.join(href)).map(|u| u.to_string())
}

// ─── base64 ──────────────────────────────────────────────────────────────────

/// The error of the `base64` crate's decoder.
#[verifier::external_type_specification]
#[verifier::external_body]
pub struct ExDecodeError(base64::DecodeError);

/// The URL-safe Base64 text, without padding, of some bytes.
pub uninterp spec fn base64url(data: Seq<u8>) -> Seq<char>;

/// The bytes that a URL-safe Base64 text without padding stands for, or nothing where it is none.
pub uninterp spec fn base64url_bytes(s: Seq<char>) -> Option<Seq<u8>>;

/// A character of the URL-safe Base64 alphabet.
pub open spec fn is_base64url_char(c: char) -> bool {
    ('A' <= c <= 'Z') || ('a' <= c <= 'z') || ('0' <= c <= '9') || c == '-' || c == '_'
}

/// `Engine::encode` of the engine `URL_SAFE_NO_PAD`. Believed: the text depends on the bytes
/// alone, holds characters of the URL-safe alphabet only, and the same engine decodes it to the
/// same bytes.
#[verifier::external_body]
pub(crate) fn base64url_encode(data: &[u8]) -> (r: String)
    ensures
        r@ == base64url(data@),
        base64url_bytes(r@) == Some(data@),
        forall|i: int| 0 <= i < r@.len() ==> is_base64url_char(#[trigger] r@[i]),
{
    URL_SAFE_NO_PAD.encode(data)
}

/// `Engine::decode` of the engine `URL_SAFE_NO_PAD`. Believed: whether the text decodes, and to
/// which bytes, depends on the text alone.
#[verifier::external_body]
pub(crate) fn base64url_decode(s: &str) -> (r: Result<Vec<u8>, base64::DecodeError>)
    ensures
        match r {
            Ok(b) => base64url_bytes(s@) == Some(b@),
            Err(_) => base64url_bytes(s@) is None,
        },
{
    URL_SAFE_NO_PAD.decode(s.as_bytes())
}

// ─── md5 ─────────────────────────────────────────────────────────────────────

/// The MD5 digest of some bytes in lower-case hexadecimal digits.
pub uninterp spec fn md5_hex(data: Seq<u8>) -> Seq<char>;

/// `md5::compute`, written with its `LowerHex` format. Believed: the text depends on the bytes
/// alone.
#[verifier::external_body]
pub(crate) fn md5_digest(data: &[u8]) -> (r: String)
    ensures
        r@ == md5_hex(data@),
{
    format!("{:x}", md5::compute(data))
}

// ─── serde_json ──────────────────────────────────────────────────────────────

/// The error of the `serde_json` crate's parser.
#[verifier::external_type_specification]
#[verifier::external_body]
pub struct ExJsonError(serde_json::Error);

/// The strings of a JSON text that is an array of strings, or nothing where it is none.
pub uninterp spec fn json_strings(s: Seq<char>) -> Option<Seq<Seq<char>>>;

/// The characters of each string of a list.
pub open spec fn string_views(v: Seq<String>) -> Seq<Seq<char>> {
    v.map_values(|s: String| s@)
}

/// `serde_json::from_str` at the type `Vec<String>`. Believed: the result depends on the text
/// alone, and `[]` is the empty list.
#[verifier::external_body]
pub(crate) fn parse_json_strings(s: &str) -> (r: Result<Vec<String>, serde_json::Error>)
    ensures
        match r {
            Ok(v) => json_strings(s@) == Some(string_views(v@)),
            Err(_) => json_strings(s@) is None,
        },
        s@ == "[]"@ ==> r is Ok && r->Ok_0@.len() == 0,
{
    serde_json::from_str(s)
}

/// The characters of each string of a list.
pub open spec fn str_views(v: Seq<&str>) -> Seq<Seq<char>> {
    v.map_values(|s: &str| s@)
}

/// The string at a path of member names in a JSON text, or nothing where the text is no JSON; of a
/// JSON text without a string there, the string is missing.
pub uninterp spec fn json_text_at(s: Seq<char>, path: Seq<Seq<char>>) -> Option<Option<Seq<char>>>;

/// `serde_json::from_str` at the type `serde_json::Value`, then `Value`'s index operator for each
/// name of the path, then `Value::as_str`. Believed: the result depends on the text and the path
/// alone.
#[verifier::external_body]
pub(crate) fn read_json_text(s: &str, path: &Vec<&str>) -> (r: Result<
    Option<String>,
    serde_json::Error,
>)
    ensures
        match r {
            Ok(t) => json_text_at(s@, str_views(path@)) == Some(opt_view(t)),
            Err(_) => json_text_at(s@, str_views(path@)) is None,
        },
{
    serde_json::from_str::<serde_json::Value>(s).map(
        |v| path.iter().fold(&v, |at, name| &at[*name]).as_str().map(|t| t.to_string()),
    )
}

/// A plain value of a JSON object.
#[derive(Debug, Clone)]
pub enum Param {
    Flag(bool),
    Number(u64),
    Text(String),
    Texts(Vec<String>),
}

/// What a [`Param`] holds.
pub enum ParamView {
    Flag(bool),
    Number(u64),
    Text(Seq<char>),
    Texts(Seq<Seq<char>>),
}

impl View for Param {
    type V = ParamView;

    open spec fn view(&self) -> ParamView {
        match *self {
            Param::Flag(b) => ParamView::Flag(b),
            Param::Number(n) => ParamView::Number(n),
            Param::Text(t) => ParamView::Text(t@),
            Param::Texts(v) => ParamView::Texts(string_views(v@)),
        }
    }
}

/// The names and the values of some plain members.
pub open spec fn param_views(v: Seq<(String, Param)>) -> Seq<(Seq<char>, ParamView)> {
    v.map_values(|p: (String, Param)| (p.0@, p.1@))
}

/// A member of a JSON object: a plain value, or an object of plain values.
#[derive(Debug, Clone)]
pub enum Member {
    Plain(Param),
    Object(Vec<(String, Param)>),
}

/// What a [`Member`] holds.
pub enum MemberView {
    Plain(ParamView),
    Object(Seq<(Seq<char>, ParamView)>),
}

impl View for Member {
    type V = MemberView;

    open spec fn view(&self) -> MemberView {
        match *self {
            Member::Plain(p) => MemberView::Plain(p@),
            Member::Object(v) => MemberView::Object(param_views(v@)),
        }
    }
}

/// The names and the values of some members.
pub open spec fn member_views(v: Seq<(String, Member)>) -> Seq<(Seq<char>, MemberView)> {
    v.map_values(|p: (String, Member)| (p.0@, p.1@))
}

/// The JSON text of an object.
pub uninterp spec fn json_object(members: Seq<(Seq<char>, MemberView)>) -> Seq<char>;

/// The text form of the `serde_json::Value` that is an object with the given members. Believed: it
/// depends on the members alone.
#[verifier::external_body]
pub(crate) fn write_json_object(members: &Vec<(String, Member)>) -> (r: String)
    ensures
        r@ == json_object(member_views(members@)),
{
    let plain = |p: &Param| match p {
        Param::Flag(b) => serde_json::Value::from(*b),
        Param::Number(n) => serde_json::Value::from(*n),
        Param::Text(t) => serde_json::Value::from(t.as_str()),
        Param::Texts(v) => serde_json::Value::from(v.clone()),
    };
    let all = members.iter().map(|(name, m)| (name.clone(), match m {
        Member::Plain(p) => plain(p),
        Member::Object(v) => serde_json::Value::Object(
            v.iter().map(|(k, p)| (k.clone(), plain(p))).collect(),
        ),
    }));
    serde_json::Value::Object(all.collect()).to_string()
}

// ─── std ─────────────────────────────────────────────────────────────────────

/// The error of [`String::from_utf8`].
#[verifier::external_type_specification]
#[verifier::external_body]
pub struct ExFromUtf8Error(std::string::FromUtf8Error);

/// [`String::from_utf8`] reads valid UTF-8, and only that.
pub assume_specification[ String::from_utf8 ](vec: Vec<u8>) -> (r: Result<
    String,
    std::string::FromUtf8Error,
>)
    ensures
        match r {
            Ok(s) => valid_utf8(vec@) && s@ == decode_utf8(vec@),
            Err(_) => !valid_utf8(vec@),
        },
;

/// The lower-case form of a text.
pub uninterp spec fn lowercase(s: Seq<char>) -> Seq<char>;

/// An ASCII character.
pub open spec fn is_ascii_char(c: char) -> bool {
    (c as u32) < 128
}

/// The lower-case form of an ASCII character.
pub open spec fn ascii_lower(c: char) -> char {
    if 'A' <= c <= 'Z' {
        ((c as u32) + 32) as char
    } else {
        c
    }
}

/// [`str::to_lowercase`] gives a text that depends on the given one alone; of ASCII text it
/// lowers each letter and keeps every other character.
pub assume_specification[ str::to_lowercase ](s: &str) -> (r: String)
    ensures
        r@ == lowercase(s@),
        (forall|i: int| 0 <= i < s@.len() ==> is_ascii_char(#[trigger] s@[i])) ==> r@ =~= s@.map_values(
            |c: char| ascii_lower(c),
        ),
;

/// An instant of the monotonic clock.
#[verifier::external_type_specification]
#[verifier::external_body]
pub struct ExInstant(std::time::Instant);

/// [`std::time::Instant::now`] reads the monotonic clock; nothing is said of the instant.
pub assume_specification[ std::time::Instant::now ]() -> std::time::Instant
;

/// [`std::time::Instant::elapsed`], as whole seconds and the nanoseconds of the rest. Nothing is
/// said of the reading.
#[verifier::external_body]
pub(crate) fn time_since(start: &std::time::Instant) -> (r: (u64, u32)) {
    let d = start.elapsed();
    (d.as_secs(), d.subsec_nanos())
}

/// [`std::time::SystemTime::elapsed`] of the Unix epoch, as whole seconds and the nanoseconds of
/// the rest: the time that has passed since then, or as an error the time that is still to come.
/// Nothing is said of the reading.
#[verifier::external_body]
pub(crate) fn time_since_epoch() -> (r: Result<(u64, u32), (u64, u32)>) {
    match std::time::UNIX_EPOCH.elapsed() {
        Ok(d) => Ok((d.as_secs(), d.subsec_nanos())),
        Err(e) => Err((e.duration().as_secs(), e.duration().subsec_nanos())),
    }
}

} // verus!
