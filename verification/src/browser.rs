//! The headless browser: how it is started, what it is told over the DevTools protocol, and which
//! of the requests that it makes is the stream.
use crate::foreign;
use crate::foreign::{
    read_json_text, str_views, write_json_object, Member, MemberView, Param, ParamView,
};
use crate::store::NANOS_PER_MILLI;
use crate::text;
use crate::text::{
    chars_of, decimal_of, holds, law_decimal_reads_back, lemma_decimal_digits, lemma_find_from,
    lemma_occurs_chars, lemma_split_first, nth_field, parse_u64, part_before, str_equal,
};
use vstd::prelude::*;

verus! {

// ─── Starting ────────────────────────────────────────────────────────────────

/// The strings of a list, as their owner's.
fn owned_texts(list: &Vec<&str>) -> (r: Vec<String>)
    ensures
        foreign::string_views(r@) == str_views(list@),
{
    let ghost all = str_views(list@);
    let mut out: Vec<String> = Vec::new();
    let mut i: usize = 0;
    while i < list.len()
        invariant
            i <= list@.len(),
            all == str_views(list@),
            foreign::string_views(out@) =~= all.take(i as int),
        decreases list.len() - i,
    {
        let one: &str = list[i];
        out.push(one.to_owned());
        assert(all.take(i + 1) =~= all.take(i as int).push(one@));
        i = i + 1;
    }
    assert(all.take(all.len() as int) =~= all);
    out
}

/// The arguments with which the browser is started.
pub open spec fn launch_flags() -> Seq<Seq<char>> {
    seq![
        "--headless"@,
        "--no-sandbox"@,
        "--disable-setuid-sandbox"@,
        "--disable-dev-shm-usage"@,
        "--mute-audio"@,
        "--autoplay-policy=no-user-gesture-required"@,
        "--disable-blink-features=AutomationControlled"@,
        "--remote-debugging-port=0"@,
        "--remote-debugging-address=127.0.0.1"@,
    ]
}

/// What a line that the browser writes says of its DevTools port.
#[derive(Debug, Clone, Copy, PartialEq, Eq, Structural)]
pub enum PortLine {
    /// Nothing.
    Silent,
    /// The port.
    Port(u16),
    /// Something else in the port's place.
    Invalid,
}

/// What a line that the browser writes says of its DevTools port: the number before a `/` in the
/// field after the third colon of the line that announces the DevTools.
pub open spec fn devtools_port(line: Seq<char>) -> PortLine {
    if text::contains(line, "DevTools listening on ws://"@) {
        match text::field(line, ":"@, 3) {
            Some(f) => match text::parse_decimal(text::before(f, "/"@), u16::MAX as nat) {
                Some(n) => PortLine::Port(n as u16),
                None => PortLine::Invalid,
            },
            None => PortLine::Silent,
        }
    } else {
        PortLine::Silent
    }
}

/// What a line that the browser writes says of its DevTools port.
pub fn read_devtools_port(line: &str) -> (r: PortLine)
    ensures
        r == devtools_port(line@),
{
    let t = chars_of(line);
    if !holds(t.as_slice(), "DevTools listening on ws://") {
        return PortLine::Silent;
    }
    match nth_field(t.as_slice(), ":", 3) {
        Some(f) => match parse_u64(part_before(f, "/")) {
            Some(n) => if n <= u16::MAX as u64 {
                PortLine::Port(n as u16)
            } else {
                PortLine::Invalid
            },
            None => PortLine::Invalid,
        },
        None => PortLine::Silent,
    }
}

/// The seconds within which a browser that starts has to write its DevTools port.
pub const START_SECS: u64 = 15;

// ─── Commands ────────────────────────────────────────────────────────────────

/// A command of the DevTools protocol.
#[derive(Debug, Clone)]
pub struct Command {
    pub id: u64,
    pub method: String,
    pub params: Vec<(String, Param)>,
}

/// What a [`Command`] holds.
pub struct CommandView {
    pub id: u64,
    pub method: Seq<char>,
    pub params: Seq<(Seq<char>, ParamView)>,
}

impl View for Command {
    type V = CommandView;

    open spec fn view(&self) -> CommandView {
        CommandView {
            id: self.id,
            method: self.method@,
            params: foreign::param_views(self.params@),
        }
    }
}

/// A copy of some strings.
fn clone_texts(list: &Vec<String>) -> (r: Vec<String>)
    ensures
        foreign::string_views(r@) == foreign::string_views(list@),
{
    let mut out: Vec<String> = Vec::new();
    let mut i: usize = 0;
    while i < list.len()
        invariant
            i <= list@.len(),
            out@.len() == i,
            forall|j: int| 0 <= j < i ==> (#[trigger] out@[j])@ == list@[j]@,
        decreases list.len() - i,
    {
        out.push(list[i].clone());
        i = i + 1;
    }
    assert(foreign::string_views(out@) =~= foreign::string_views(list@));
    out
}

/// A copy of some parameters.
fn clone_params(params: &Vec<(String, Param)>) -> (r: Vec<(String, Param)>)
    ensures
        foreign::param_views(r@) == foreign::param_views(params@),
{
    let mut out: Vec<(String, Param)> = Vec::new();
    let mut i: usize = 0;
    while i < params.len()
        invariant
            i <= params@.len(),
            out@.len() == i,
            forall|j: int|
                0 <= j < i ==> (#[trigger] out@[j]).0@ == params@[j].0@ && out@[j].1@
                    == params@[j].1@,
        decreases params.len() - i,
    {
        let value = match &params[i].1 {
            Param::Flag(b) => Param::Flag(*b),
            Param::Number(n) => Param::Number(*n),
            Param::Text(t) => Param::Text(t.clone()),
            Param::Texts(v) => Param::Texts(clone_texts(v)),
        };
        out.push((params[i].0.clone(), value));
        i = i + 1;
    }
    assert(foreign::param_views(out@) =~= foreign::param_views(params@));
    out
}

impl Command {
    /// The command as it is sent.
    pub fn to_text(&self) -> (r: String)
        ensures
            r@ == foreign::json_object(
                seq![
                    ("id"@, MemberView::Plain(ParamView::Number(self@.id))),
                    ("method"@, MemberView::Plain(ParamView::Text(self@.method))),
                    ("params"@, MemberView::Object(self@.params)),
                ],
            ),
    {
        let params = clone_params(&self.params);
        let mut members: Vec<(String, Member)> = Vec::new();
        members.push(("id".to_owned(), Member::Plain(Param::Number(self.id))));
        members.push(("method".to_owned(), Member::Plain(Param::Text(self.method.clone()))));
        members.push(("params".to_owned(), Member::Object(params)));
        assert(foreign::member_views(members@) =~= seq![
            ("id"@, MemberView::Plain(ParamView::Number(self@.id))),
            ("method"@, MemberView::Plain(ParamView::Text(self@.method))),
            ("params"@, MemberView::Object(self@.params)),
        ]);
        write_json_object(&members)
    }
}

/// A step of a visit to a page.
#[derive(Debug, Clone)]
pub enum Action {
    /// Send a command.
    Send(Command),
    /// Do nothing for some milliseconds.
    Sleep(u64),
    /// Wait some milliseconds for a request whose address holds a text.
    Await(String, u64),
}

/// What an [`Action`] holds.
pub enum ActionView {
    Send(CommandView),
    Sleep(u64),
    Await(Seq<char>, u64),
}

impl View for Action {
    type V = ActionView;

    open spec fn view(&self) -> ActionView {
        match *self {
            Action::Send(c) => ActionView::Send(c@),
            Action::Sleep(ms) => ActionView::Sleep(ms),
            Action::Await(needle, ms) => ActionView::Await(needle@, ms),
        }
    }
}

/// What each step of a visit holds.
pub open spec fn action_views(v: Seq<Action>) -> Seq<ActionView> {
    v.map_values(|a: Action| a@)
}

/// The step that sends a command.
pub open spec fn sends(
    id: u64,
    method: Seq<char>,
    params: Seq<(Seq<char>, ParamView)>,
) -> ActionView {
    ActionView::Send(CommandView { id, method, params })
}

/// The step that sends a command with one parameter.
fn send_one(id: u64, method: &str, name: &str, value: Param) -> (r: Action)
    ensures
        r@ == sends(id, method@, seq![(name@, value@)]),
{
    let mut params: Vec<(String, Param)> = Vec::new();
    params.push((name.to_owned(), value));
    assert(foreign::param_views(params@) =~= seq![(name@, value@)]);
    Action::Send(Command { id, method: method.to_owned(), params })
}

/// The step that runs a script in the page.
pub open spec fn evaluates(id: u64, script: Seq<char>) -> ActionView {
    sends(id, "Runtime.evaluate"@, seq![("expression"@, ParamView::Text(script))])
}

/// The step that runs a script in the page.
fn evaluate(id: u64, script: &str) -> (r: Action)
    ensures
        r@ == evaluates(id, script@),
{
    send_one(id, "Runtime.evaluate", "expression", Param::Text(script.to_owned()))
}

/// The steps that prepare a page: its requests are reported, the browser gives a name for itself,
/// and addresses that match a pattern are not loaded.
pub open spec fn setup_steps(user_agent: Seq<char>, blocked: Seq<Seq<char>>) -> Seq<ActionView> {
    seq![
        sends(1, "Network.enable"@, seq![]),
        sends(
            2,
            "Network.setUserAgentOverride"@,
            seq![("userAgent"@, ParamView::Text(user_agent))],
        ),
        sends(3, "Network.setBlockedURLs"@, seq![("urls"@, ParamView::Texts(blocked))]),
    ]
}

/// The steps that prepare a page.
pub fn setup_page(user_agent: &str, blocked: Vec<String>) -> (r: Vec<Action>)
    ensures
        action_views(r@) == setup_steps(user_agent@, foreign::string_views(blocked@)),
{
    let none: Vec<(String, Param)> = Vec::new();
    assert(foreign::param_views(none@) =~= seq![]);
    let mut steps: Vec<Action> = Vec::new();
    steps.push(
        Action::Send(Command { id: 1, method: "Network.enable".to_owned(), params: none }),
    );
    steps.push(
        send_one(
            2,
            "Network.setUserAgentOverride",
            "userAgent",
            Param::Text(user_agent.to_owned()),
        ),
    );
    steps.push(send_one(3, "Network.setBlockedURLs", "urls", Param::Texts(blocked)));
    assert(action_views(steps@) =~= setup_steps(user_agent@, foreign::string_views(blocked@)));
    steps
}

// ─── Visits ──────────────────────────────────────────────────────────────────

/// The addresses that no visit loads: pictures and fonts.
pub open spec fn picture_patterns() -> Seq<Seq<char>> {
    seq![
        "*.jpg"@,
        "*.jpeg"@,
        "*.png"@,
        "*.gif"@,
        "*.webp"@,
        "*.woff"@,
        "*.woff2"@,
        "*.ttf"@,
    ]
}

/// The addresses that no visit loads: pictures and fonts.
fn make_picture_patterns() -> (r: Vec<String>)
    ensures
        foreign::string_views(r@) == picture_patterns(),
{
    let list = vec!["*.jpg", "*.jpeg", "*.png", "*.gif", "*.webp", "*.woff", "*.woff2", "*.ttf"];
    assert(str_views(list@) =~= picture_patterns());
    owned_texts(&list)
}

/// The script that starts the videos of a page.
pub open spec fn play_script() -> Seq<char> {
    "document.querySelectorAll('video').forEach(v => v.play().catch(()=>{}))"@
}

/// A visit to a page that requests its stream by itself.
pub open spec fn default_visit(
    page_url: Seq<char>,
    m3u8_match: Seq<char>,
    user_agent: Seq<char>,
) -> Seq<ActionView> {
    setup_steps(user_agent, picture_patterns() + seq!["*.mp4"@, "*.mp3"@]) + seq![
        sends(10, "Page.navigate"@, seq![("url"@, ParamView::Text(page_url))]),
        ActionView::Sleep(800),
        evaluates(11, play_script()),
        ActionView::Await(m3u8_match, 25_000),
    ]
}

/// The script that closes the dialogues of a page.
pub open spec fn close_script() -> Seq<char> {
    "\n        ['.m-close', '.modal-close', '.ext-close', '.close-btn', '.dialog-close']\n            .forEach(s => document.querySelector(s)?.click());\n    "@
}

/// The script that takes the videos of a page back to their beginning.
pub open spec fn reset_script() -> Seq<char> {
    "document.querySelectorAll('video').forEach(v => { v.pause(); v.removeAttribute('src'); v.load(); })"@
}

/// The script that clicks on a channel.
pub open spec fn click_script(sid: Seq<char>) -> Seq<char> {
    "\n        (function() {\n            const selector = 'a[data-channel-sid=\""@ + sid
        + "\"]';\n            const el = document.querySelector(selector);\n            if (!el) return false;\n            el.scrollIntoView({ behavior: 'instant', block: 'center' });\n            el.click();\n            return true;\n        })()\n        "@
}

/// The script that clicks on a channel.
pub fn make_click_script(sid: &str) -> (r: String)
    ensures
        r@ == click_script(sid@),
{
    let mut out = "\n        (function() {\n            const selector = 'a[data-channel-sid=\"".to_owned();
    out.append(sid);
    out.append(
        "\"]';\n            const el = document.querySelector(selector);\n            if (!el) return false;\n            el.scrollIntoView({ behavior: 'instant', block: 'center' });\n            el.click();\n            return true;\n        })()\n        ",
    );
    out
}

/// A visit to a page of Mango TV, where a channel is clicked on.
pub open spec fn mgtv_visit(
    page_url: Seq<char>,
    sid: Seq<char>,
    user_agent: Seq<char>,
) -> Seq<ActionView> {
    setup_steps(user_agent, picture_patterns()) + seq![
        sends(10, "Page.navigate"@, seq![("url"@, ParamView::Text(page_url))]),
        ActionView::Sleep(5_000),
        evaluates(11, close_script()),
        evaluates(12, reset_script()),
        sends(
            13,
            "Runtime.evaluate"@,
            seq![
                ("expression"@, ParamView::Text(click_script(sid))),
                ("returnByValue"@, ParamView::Flag(true)),
            ],
        ),
        ActionView::Sleep(500),
        evaluates(14, play_script()),
        ActionView::Await(".m3u8"@, 12_000),
    ]
}

/// A visit that is given up after some time.
#[derive(Debug, Clone)]
pub struct Visit {
    pub steps: Vec<Action>,
    pub timeout_ms: u64,
}

/// A browser that is running.
#[derive(Debug, Clone, Copy)]
pub struct BrowserHandle {
    /// The DevTools port.
    pub port: u16,
}

impl BrowserHandle {
    /// The arguments with which the browser is started.
    pub fn spawn() -> (r: Vec<String>)
        ensures
            foreign::string_views(r@) == launch_flags(),
    {
        let list = vec![
            "--headless",
            "--no-sandbox",
            "--disable-setuid-sandbox",
            "--disable-dev-shm-usage",
            "--mute-audio",
            "--autoplay-policy=no-user-gesture-required",
            "--disable-blink-features=AutomationControlled",
            "--remote-debugging-port=0",
            "--remote-debugging-address=127.0.0.1",
        ];
        assert(str_views(list@) =~= launch_flags());
        owned_texts(&list)
    }

    /// The address that opens a tab.
    pub fn new_tab(&self) -> (r: String)
        ensures
            r@ == "http://127.0.0.1:"@ + text::decimal(self.port as nat) + "/json/new"@,
    {
        let mut out = "http://127.0.0.1:".to_owned();
        out.append(decimal_of(self.port as u64).as_str());
        out.append("/json/new");
        out
    }

    /// The address that closes a tab.
    pub fn close_tab(&self, id: &str) -> (r: String)
        ensures
            r@ == "http://127.0.0.1:"@ + text::decimal(self.port as nat) + "/json/close/"@ + id@,
    {
        let mut out = "http://127.0.0.1:".to_owned();
        out.append(decimal_of(self.port as u64).as_str());
        out.append("/json/close/");
        out.append(id);
        out
    }

    /// A visit to a page that requests its stream by itself.
    pub fn fetch_default(page_url: &str, m3u8_match: &str, user_agent: &str) -> (r: Vec<Action>)
        ensures
            action_views(r@) == default_visit(page_url@, m3u8_match@, user_agent@),
    {
        let mut blocked = make_picture_patterns();
        blocked.push("*.mp4".to_owned());
        blocked.push("*.mp3".to_owned());
        assert(foreign::string_views(blocked@) =~= picture_patterns() + seq!["*.mp4"@, "*.mp3"@]);
        let mut steps = setup_page(user_agent, blocked);
        steps.push(send_one(10, "Page.navigate", "url", Param::Text(page_url.to_owned())));
        steps.push(Action::Sleep(800));
        steps.push(
            evaluate(
                11,
                "document.querySelectorAll('video').forEach(v => v.play().catch(()=>{}))",
            ),
        );
        steps.push(Action::Await(m3u8_match.to_owned(), 25_000));
        assert(action_views(steps@) =~= default_visit(page_url@, m3u8_match@, user_agent@));
        steps
    }

    /// A visit to a page of Mango TV, where a channel is clicked on.
    pub fn fetch_mgtv(page_url: &str, sid: &str, user_agent: &str) -> (r: Vec<Action>)
        ensures
            action_views(r@) == mgtv_visit(page_url@, sid@, user_agent@),
    {
        let mut steps = setup_page(user_agent, make_picture_patterns());
        steps.push(send_one(10, "Page.navigate", "url", Param::Text(page_url.to_owned())));
        steps.push(Action::Sleep(5_000));
        steps.push(
            evaluate(
                11,
                "\n        ['.m-close', '.modal-close', '.ext-close', '.close-btn', '.dialog-close']\n            .forEach(s => document.querySelector(s)?.click());\n    ",
            ),
        );
        steps.push(
            evaluate(
                12,
                "document.querySelectorAll('video').forEach(v => { v.pause(); v.removeAttribute('src'); v.load(); })",
            ),
        );
        let script = make_click_script(sid);
        let mut params: Vec<(String, Param)> = Vec::new();
        params.push(("expression".to_owned(), Param::Text(script)));
        params.push(("returnByValue".to_owned(), Param::Flag(true)));
        assert(foreign::param_views(params@) =~= seq![
            ("expression"@, ParamView::Text(click_script(sid@))),
            ("returnByValue"@, ParamView::Flag(true)),
        ]);
        steps.push(
            Action::Send(Command { id: 13, method: "Runtime.evaluate".to_owned(), params }),
        );
        steps.push(Action::Sleep(500));
        steps.push(
            evaluate(
                14,
                "document.querySelectorAll('video').forEach(v => v.play().catch(()=>{}))",
            ),
        );
        steps.push(Action::Await(".m3u8".to_owned(), 12_000));
        assert(action_views(steps@) =~= mgtv_visit(page_url@, sid@, user_agent@));
        steps
    }
}

// ─── Requests ────────────────────────────────────────────────────────────────

/// A request goes to a stream: its address holds a text, and is none of a segment, a log, a beacon
/// or a collector.
pub open spec fn is_stream(url: Seq<char>, needle: Seq<char>) -> bool {
    &&& text::contains(url, needle)
    &&& !text::contains(url, ".ts"@)
    &&& !text::contains(url, "log."@)
    &&& !text::contains(url, "beacon"@)
    &&& !text::contains(url, "collect"@)
}

/// Whether a request goes to a stream.
pub fn is_stream_request(url: &str, needle: &str) -> (r: bool)
    ensures
        r == is_stream(url@, needle@),
{
    let t = chars_of(url);
    holds(t.as_slice(), needle) && !holds(t.as_slice(), ".ts") && !holds(t.as_slice(), "log.")
        && !holds(t.as_slice(), "beacon") && !holds(t.as_slice(), "collect")
}

/// What a message of the browser says: its method, and the address of its request, where it holds
/// these as strings.
#[derive(Debug, Clone)]
pub struct DevToolsMessage {
    pub method: Option<String>,
    pub request_url: Option<String>,
}

/// What a [`DevToolsMessage`] holds, as character sequences.
pub struct DevToolsFields {
    pub method: Option<Seq<char>>,
    pub request_url: Option<Seq<char>>,
}

impl View for DevToolsMessage {
    type V = DevToolsFields;

    open spec fn view(&self) -> DevToolsFields {
        DevToolsFields {
            method: foreign::opt_view(self.method),
            request_url: foreign::opt_view(self.request_url),
        }
    }
}

/// What a text that the browser sends says, or nothing where it is no message.
pub open spec fn message_fields(message: Seq<char>) -> Option<DevToolsFields> {
    match (
        foreign::json_text_at(message, seq!["method"@]),
        foreign::json_text_at(message, seq!["params"@, "request"@, "url"@]),
    ) {
        (Some(method), Some(request_url)) => Some(DevToolsFields { method, request_url }),
        _ => None,
    }
}

/// What a text that the browser sends says, or nothing where it is no message.
pub fn read_message(message: &str) -> (r: Option<DevToolsMessage>)
    ensures
        match r {
            Some(m) => message_fields(message@) == Some(m@),
            None => message_fields(message@) is None,
        },
{
    let to_method = vec!["method"];
    assert(str_views(to_method@) =~= seq!["method"@]);
    let method = match read_json_text(message, &to_method) {
        Ok(t) => t,
        Err(_) => return None,
    };
    let to_url = vec!["params", "request", "url"];
    assert(str_views(to_url@) =~= seq!["params"@, "request"@, "url"@]);
    match read_json_text(message, &to_url) {
        Ok(request_url) => Some(DevToolsMessage { method, request_url }),
        Err(_) => None,
    }
}

/// The stream that a message of the browser tells of, where `fields` are those of the message.
pub open spec fn stream_of(fields: DevToolsFields, needle: Seq<char>) -> Option<
    Seq<char>,
> {
    let url = match fields.request_url {
        Some(u) => u,
        None => ""@,
    };
    if fields.method == Some("Network.requestWillBeSent"@) && is_stream(url, needle) {
        Some(url)
    } else {
        None
    }
}

/// The stream that a message of the browser tells of.
pub fn stream_in_message(message: &DevToolsMessage, needle: &str) -> (r: Option<String>)
    ensures
        foreign::opt_view(r) == stream_of(message@, needle@),
{
    let reports = match &message.method {
        Some(m) => str_equal(m.as_str(), "Network.requestWillBeSent"),
        None => false,
    };
    if !reports {
        return None;
    }
    let url = match &message.request_url {
        Some(u) => u.clone(),
        None => "".to_owned(),
    };
    if is_stream_request(url.as_str(), needle) {
        Some(url)
    } else {
        None
    }
}

/// The wait for a request to a stream.
#[derive(Debug, Clone)]
pub struct RequestWait {
    /// What the address holds.
    pub needle: String,
    /// When the wait ends, in nanoseconds of the monotonic clock.
    pub deadline: u128,
}

/// The time some milliseconds after `now`, at most the last one that can be told.
pub open spec fn later(now: u128, ms: u64) -> u128 {
    if now + ms * NANOS_PER_MILLI <= u128::MAX {
        (now + ms * NANOS_PER_MILLI) as u128
    } else {
        u128::MAX
    }
}

impl RequestWait {
    /// A wait of some milliseconds.
    pub fn wait_for_request(needle: &str, timeout_ms: u64, now: u128) -> (r: Self)
        ensures
            r.needle@ == needle@,
            r.deadline == later(now, timeout_ms),
    {
        assert(timeout_ms * NANOS_PER_MILLI <= u64::MAX * NANOS_PER_MILLI) by (nonlinear_arith);
        let span: u128 = timeout_ms as u128 * NANOS_PER_MILLI;
        RequestWait { needle: needle.to_owned(), deadline: now.saturating_add(span) }
    }

    /// Whether the wait goes on.
    pub fn goes_on(&self, now: u128) -> (r: bool)
        ensures
            r == (now < self.deadline),
    {
        now < self.deadline
    }

    /// The stream that a message of the browser tells of; a text that is no message tells of none.
    pub fn received(&self, message: &str) -> (r: Option<String>)
        ensures
            foreign::opt_view(r) == match message_fields(message@) {
                Some(fields) => stream_of(fields, self.needle@),
                None => None,
            },
    {
        match read_message(message) {
            Some(m) => stream_in_message(&m, self.needle.as_str()),
            None => None,
        }
    }
}

// ─── The pool ────────────────────────────────────────────────────────────────

/// The milliseconds for which no browser is started after one could not be.
pub const BACKOFF_MS: u64 = 30_000;

/// What has to happen before the browser can be used.
#[derive(Debug, Clone, Copy, PartialEq, Eq, Structural)]
pub enum BrowserNeed {
    /// It cannot be used now.
    BackOff,
    /// It has to be started.
    Start,
    /// Nothing.
    Ready,
}

/// The browser that all requests share.
#[derive(Debug, Clone)]
pub struct BrowserPool {
    pub chrome_path: String,
    /// The browser was started.
    pub running: bool,
    /// When the browser could not be started last, in nanoseconds of the monotonic clock; nothing
    /// where it was started since.
    pub last_fail: Option<u128>,
}

impl BrowserPool {
    /// A browser that runs has been started since the last failure.
    pub open spec fn is_consistent(&self) -> bool {
        self.running ==> self.last_fail is None
    }

    /// A time is within the pause after the last failure.
    pub open spec fn backs_off(&self, now: u128) -> bool {
        self.last_fail matches Some(t) && now - t < BACKOFF_MS * NANOS_PER_MILLI
    }

    /// A browser that was not started yet.
    pub fn new(chrome_path: String) -> (r: Self)
        ensures
            r.chrome_path == chrome_path,
            !r.running,
            r.last_fail is None,
            r.is_consistent(),
    {
        BrowserPool { chrome_path, running: false, last_fail: None }
    }

    /// What has to happen before the browser can be used.
    pub open spec fn need(&self, now: u128) -> BrowserNeed {
        if self.backs_off(now) {
            BrowserNeed::BackOff
        } else if self.running {
            BrowserNeed::Ready
        } else {
            BrowserNeed::Start
        }
    }

    /// What has to happen before the browser can be used.
    pub fn ensure_browser(&self, now: u128) -> (r: BrowserNeed)
        ensures
            r == self.need(now),
    {
        if let Some(t) = self.last_fail {
            if now.saturating_sub(t) < BACKOFF_MS as u128 * NANOS_PER_MILLI {
                return BrowserNeed::BackOff;
            }
        }
        if self.running {
            BrowserNeed::Ready
        } else {
            BrowserNeed::Start
        }
    }

    /// Notes whether the browser could be started.
    pub fn started(&mut self, ok: bool, now: u128)
        ensures
            final(self).chrome_path == old(self).chrome_path,
            final(self).running == (ok || old(self).running),
            final(self).last_fail == (if ok {
                None
            } else {
                Some(now)
            }),
            !old(self).running ==> final(self).is_consistent(),
    {
        if ok {
            self.running = true;
            self.last_fail = None;
        } else {
            self.last_fail = Some(now);
        }
    }

    /// The visit that finds the stream of a page: that of Mango TV for a channel with a number
    /// there, and otherwise the one to a page that requests its stream by itself.
    pub fn fetch(
        &self,
        page_url: &str,
        m3u8_match: &str,
        user_agent: &str,
        fetch_timeout_ms: u64,
        mgtv_sid: Option<&str>,
    ) -> (r: Visit)
        ensures
            action_views(r.steps@) == match mgtv_sid {
                Some(sid) => mgtv_visit(page_url@, sid@, user_agent@),
                None => default_visit(page_url@, m3u8_match@, user_agent@),
            },
            r.timeout_ms == fetch_timeout_ms,
    {
        let steps = match mgtv_sid {
            Some(sid) => BrowserHandle::fetch_mgtv(page_url, sid, user_agent),
            None => BrowserHandle::fetch_default(page_url, m3u8_match, user_agent),
        };
        Visit { steps, timeout_ms: fetch_timeout_ms }
    }
}

// ─── Laws ────────────────────────────────────────────────────────────────────

/// A port that stands after the third colon of the line that announces the DevTools is read,
/// whatever follows it.
pub proof fn law_announced_port_is_read(
    first: Seq<char>,
    second: Seq<char>,
    third: Seq<char>,
    port: u16,
    rest: Seq<char>,
)
    requires
        !first.contains(':'),
        !second.contains(':'),
        !third.contains(':'),
        text::contains(
            first + ":"@ + (second + ":"@ + (third + ":"@ + (text::decimal(port as nat) + "/"@
                + rest))),
            "DevTools listening on ws://"@,
        ),
    ensures
        devtools_port(
            first + ":"@ + (second + ":"@ + (third + ":"@ + (text::decimal(port as nat) + "/"@
                + rest))),
        ) == PortLine::Port(port),
{
    reveal_strlit(":");
    reveal_strlit("/");
    let digits = text::decimal(port as nat);
    let fourth = digits + "/"@ + rest;
    let line = first + ":"@ + (second + ":"@ + (third + ":"@ + fourth));
    lemma_split_first(first, ":"@, second + ":"@ + (third + ":"@ + fourth));
    lemma_split_first(second, ":"@, third + ":"@ + fourth);
    lemma_split_first(third, ":"@, fourth);
    reveal_with_fuel(text::field, 4);
    let f = text::before(fourth, ":"@);
    assert(text::field(line, ":"@, 3) == Some(f));
    lemma_decimal_digits(port as nat);
    assert(!digits.contains(':') && !digits.contains('/')) by {
        if digits.contains(':') {
            let j = choose|j: int| 0 <= j < digits.len() && digits[j] == ':';
            assert(text::is_digit(digits[j]));
        }
        if digits.contains('/') {
            let j = choose|j: int| 0 <= j < digits.len() && digits[j] == '/';
            assert(text::is_digit(digits[j]));
        }
    }
    lemma_find_from(fourth, ":"@, 0);
    match text::find(fourth, ":"@) {
        Some(i) => {
            lemma_occurs_chars(fourth, ":"@, i);
            assert(fourth[i + 0] == ':');
            assert(i > digits.len()) by {
                if i < digits.len() {
                    assert(digits[i] == ':');
                } else if i == digits.len() {
                    assert(fourth[i] == '/');
                }
            }
            let tail = rest.take(i - digits.len() - 1);
            assert(f =~= digits + "/"@ + tail);
            lemma_split_first(digits, "/"@, tail);
        },
        None => {
            lemma_split_first(digits, "/"@, rest);
        },
    }
    law_decimal_reads_back(port as nat, u16::MAX as nat);
}

/// The numbers of the commands of a visit ascend, so that each has its own, and the visit ends with
/// the wait for a request.
pub open spec fn is_orderly(steps: Seq<ActionView>) -> bool {
    &&& forall|i: int, j: int|
        0 <= i < j < steps.len() && (#[trigger] steps[i]) is Send && (#[trigger] steps[j]) is Send
            ==> (steps[i]->Send_0).id < (steps[j]->Send_0).id
    &&& steps.len() > 0
    &&& steps.last() is Await
}

/// Every visit numbers its commands in ascending order, and ends with the wait for a request.
pub proof fn law_visits_are_orderly(
    page_url: Seq<char>,
    m3u8_match: Seq<char>,
    sid: Seq<char>,
    user_agent: Seq<char>,
)
    ensures
        is_orderly(default_visit(page_url, m3u8_match, user_agent)),
        is_orderly(mgtv_visit(page_url, sid, user_agent)),
{
}

/// Whatever the browser tells, a stream that is taken from it is an address that holds what was
/// looked for, and is none of a segment, a log, a beacon or a collector.
pub proof fn law_found_streams_were_looked_for(
    fields: DevToolsFields,
    needle: Seq<char>,
)
    ensures
        stream_of(fields, needle) matches Some(url) ==> is_stream(url, needle)
            && (fields.request_url == Some(url) || url == ""@),
{
}

/// After a browser could not be started, none is started until the pause is over, and then one is.
pub proof fn law_failed_start_backs_off(pool: &BrowserPool, failed_at: u128, now: u128)
    requires
        pool.last_fail == Some(failed_at),
        pool.is_consistent(),
    ensures
        now - failed_at < BACKOFF_MS * NANOS_PER_MILLI ==> pool.need(now) == BrowserNeed::BackOff,
        now - failed_at >= BACKOFF_MS * NANOS_PER_MILLI ==> pool.need(now) == BrowserNeed::Start,
{
}

/// A browser that was started is used from then on, without another start.
pub proof fn law_running_browser_is_used(pool: &BrowserPool, now: u128)
    requires
        pool.running,
        pool.is_consistent(),
    ensures
        pool.need(now) == BrowserNeed::Ready,
{
}

/// A message that reports a request yields the address of the request where that holds what is looked
/// for and none of the four words, whatever else it holds; and a message yields an address only so.
pub proof fn law_reported_streams_are_found(fields: DevToolsFields, needle: Seq<char>, url: Seq<char>)
    ensures
        fields.method == Some("Network.requestWillBeSent"@) && fields.request_url == Some(url)
            && text::contains(url, needle) && !text::contains(url, ".ts"@) && !text::contains(
            url,
            "log."@,
        ) && !text::contains(url, "beacon"@) && !text::contains(url, "collect"@) ==> stream_of(
            fields,
            needle,
        ) == Some(url),
        stream_of(fields, needle) == Some(url) ==> fields.method == Some(
            "Network.requestWillBeSent"@,
        ) && text::contains(url, needle) && !text::contains(url, ".ts"@) && !text::contains(
            url,
            "log."@,
        ) && !text::contains(url, "beacon"@) && !text::contains(url, "collect"@),
{
}

/// The address of a request and the method stand in a message where the protocol puts them; a text
/// that is no JSON is no message.
pub proof fn law_messages_are_read(message: Seq<char>, method: Seq<char>, url: Seq<char>)
    ensures
        foreign::json_text_at(message, seq!["method"@]) == Some(Some(method))
            && foreign::json_text_at(message, seq!["params"@, "request"@, "url"@]) == Some(
            Some(url),
        ) ==> (message_fields(message) matches Some(fields) && fields.method == Some(method)
            && fields.request_url == Some(url)),
        foreign::json_text_at(message, seq!["method"@]) is None ==> message_fields(message) is None,
{
}

/// A wait ends its milliseconds after it began: at no time before is it over, and at every time from
/// then on.
pub proof fn law_waits_last_their_time(now: u128, ms: u64, at: u128)
    requires
        now + ms * 1_000_000 <= u128::MAX,
    ensures
        at < later(now, ms) <==> at < now + ms * 1_000_000,
{
}

/// After a browser could not be started, half a minute passes before the next start, to the
/// nanosecond; a time before the failure counts as no time.
pub proof fn law_half_a_minute_passes_between_starts(
    pool: &BrowserPool,
    failed_at: u128,
    now: u128,
)
    requires
        pool.last_fail == Some(failed_at),
        !pool.running,
    ensures
        pool.need(now) == BrowserNeed::BackOff <==> now < failed_at + 30_000_000_000,
        pool.need(now) == BrowserNeed::Start <==> now >= failed_at + 30_000_000_000,
{
}

/// Every visit opens the page that it was given, names the browser as it was told, and waits at its
/// end for what it was told to look for; that of Mango TV looks for a playlist, and runs a script that
/// holds the number of the channel.
pub proof fn law_visits_do_what_they_were_told(
    page_url: Seq<char>,
    m3u8_match: Seq<char>,
    sid: Seq<char>,
    user_agent: Seq<char>,
)
    ensures
        opens(default_visit(page_url, m3u8_match, user_agent), page_url),
        opens(mgtv_visit(page_url, sid, user_agent), page_url),
        names_itself(default_visit(page_url, m3u8_match, user_agent), user_agent),
        names_itself(mgtv_visit(page_url, sid, user_agent), user_agent),
        default_visit(page_url, m3u8_match, user_agent).last() == ActionView::Await(
            m3u8_match,
            25_000,
        ),
        mgtv_visit(page_url, sid, user_agent).last() == ActionView::Await(".m3u8"@, 12_000),
        exists|i: int, script: Seq<char>|
            0 <= i < mgtv_visit(page_url, sid, user_agent).len() && (#[trigger] mgtv_visit(
                page_url,
                sid,
                user_agent,
            )[i]) is Send && (mgtv_visit(page_url, sid, user_agent)[i]->Send_0).params[0].1
                == ParamView::Text(script) && #[trigger] text::contains(
                script,
                sid,
            ),
{
    let plain = default_visit(page_url, m3u8_match, user_agent);
    let mango = mgtv_visit(page_url, sid, user_agent);
    assert(plain[3] == sends(10, "Page.navigate"@, seq![("url"@, ParamView::Text(page_url))]));
    assert(mango[3] == sends(10, "Page.navigate"@, seq![("url"@, ParamView::Text(page_url))]));
    assert(plain[1] == sends(
        2,
        "Network.setUserAgentOverride"@,
        seq![("userAgent"@, ParamView::Text(user_agent))],
    ));
    assert(mango[1] == sends(
        2,
        "Network.setUserAgentOverride"@,
        seq![("userAgent"@, ParamView::Text(user_agent))],
    ));
    let script = click_script(sid);
    assert(mango[7] is Send && (mango[7]->Send_0).params[0].1 == ParamView::Text(script));
    assert(text::contains(script, sid)) by {
        let head =
            "\n        (function() {\n            const selector = 'a[data-channel-sid=\""@;
        let tail = script.skip((head.len() + sid.len()) as int);
        text::lemma_contains_itself(sid);
        text::lemma_part_contains(head, sid, tail, sid);
        assert(script =~= head + sid + tail);
    }
}

/// A visit opens a page.
pub open spec fn opens(steps: Seq<ActionView>, page_url: Seq<char>) -> bool {
    exists|i: int|
        0 <= i < steps.len() && (#[trigger] steps[i]) is Send && (steps[i]->Send_0).method
            == "Page.navigate"@ && (steps[i]->Send_0).params == seq![
            ("url"@, ParamView::Text(page_url)),
        ]
}

/// A visit gives the browser a name.
pub open spec fn names_itself(steps: Seq<ActionView>, user_agent: Seq<char>) -> bool {
    exists|i: int|
        0 <= i < steps.len() && (#[trigger] steps[i]) is Send && (steps[i]->Send_0).method
            == "Network.setUserAgentOverride"@ && (steps[i]->Send_0).params == seq![
            ("userAgent"@, ParamView::Text(user_agent)),
        ]
}

/// A line that does not announce the DevTools says nothing of their port, whatever numbers it holds.
pub proof fn law_other_lines_are_silent(line: Seq<char>)
    requires
        !text::contains(line, "DevTools listening on ws://"@),
    ensures
        devtools_port(line) is Silent,
{
}

/// Every visit has its requests reported before all else, and blocks pictures and fonts before the
/// page is opened; that of Mango TV leaves the page five seconds before it acts on it, and half a
/// second between the click and the play.
pub proof fn law_visits_prepare_the_page(
    page_url: Seq<char>,
    m3u8_match: Seq<char>,
    sid: Seq<char>,
    user_agent: Seq<char>,
    k: int,
)
    requires
        0 <= k < 8,
    ensures
        ({
            let plain = default_visit(page_url, m3u8_match, user_agent);
            let mango = mgtv_visit(page_url, sid, user_agent);
            let blocked = seq![
                "*.jpg"@,
                "*.jpeg"@,
                "*.png"@,
                "*.gif"@,
                "*.webp"@,
                "*.woff"@,
                "*.woff2"@,
                "*.ttf"@,
            ];
            &&& plain[0] is Send && (plain[0]->Send_0).method == "Network.enable"@
            &&& mango[0] is Send && (mango[0]->Send_0).method == "Network.enable"@
            &&& plain[2] is Send && (plain[2]->Send_0).method == "Network.setBlockedURLs"@
            &&& mango[2] is Send && (mango[2]->Send_0).method == "Network.setBlockedURLs"@
            &&& ((plain[2]->Send_0).params[0].1 matches ParamView::Texts(t) && t[k] == blocked[k])
            &&& ((mango[2]->Send_0).params[0].1 matches ParamView::Texts(t) && t == blocked)
            &&& mango.len() == 11
            &&& mango[4] == ActionView::Sleep(5_000)
            &&& mango[8] == ActionView::Sleep(500)
        }),
{
}

/// What is run in a page, in this order: on one of Mango TV the dialogues are closed, the videos taken
/// back to their beginning, the channel clicked on, of which the browser tells the result, and the
/// videos played; on any other the videos are played.
pub proof fn law_scripts_run_in_order(
    page_url: Seq<char>,
    m3u8_match: Seq<char>,
    sid: Seq<char>,
    user_agent: Seq<char>,
)
    ensures
        ({
            let plain = default_visit(page_url, m3u8_match, user_agent);
            let mango = mgtv_visit(page_url, sid, user_agent);
            let closing = "\n        ['.m-close', '.modal-close', '.ext-close', '.close-btn', '.dialog-close']\n            .forEach(s => document.querySelector(s)?.click());\n    "@;
            let resetting = "document.querySelectorAll('video').forEach(v => { v.pause(); v.removeAttribute('src'); v.load(); })"@;
            let playing = "document.querySelectorAll('video').forEach(v => v.play().catch(()=>{}))"@;
            &&& runs(mango[5], closing)
            &&& runs(mango[6], resetting)
            &&& runs(mango[7], click_script(sid))
            &&& (mango[7]->Send_0).params[1] == ("returnByValue"@, ParamView::Flag(true))
            &&& runs(mango[9], playing)
            &&& exists|i: int| 3 < i < plain.len() - 1 && #[trigger] runs(plain[i], playing)
        }),
{
    let plain = default_visit(page_url, m3u8_match, user_agent);
    assert(plain[5] == evaluates(11, play_script()));
    assert(runs(plain[5], play_script()));
}

/// A step runs a script in the page.
pub open spec fn runs(step: ActionView, script: Seq<char>) -> bool {
    &&& step is Send
    &&& (step->Send_0).method == "Runtime.evaluate"@
    &&& (step->Send_0).params.len() > 0
    &&& (step->Send_0).params[0] == ("expression"@, ParamView::Text(script))
}

} // verus!
