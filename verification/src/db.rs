//! The channel database: its rows, their defaults, and the channels that are always there.
use crate::foreign;
use crate::foreign::{opt_view, parse_json_strings};
use crate::text;
use crate::text::{chars_of, parse_u64, str_equal};
use vstd::prelude::*;

verus! {

/// A channel whose stream is taken directly from a content network.
#[derive(Debug, Clone)]
pub struct CctvChannel {
    pub id: String,
    pub name: String,
    pub m3u8_url: String,
    pub fallback_url: Option<String>,
    pub sort_order: i64,
    pub enabled: bool,
}

/// A provincial channel, whose stream address has to be found first.
#[derive(Debug, Clone)]
pub struct Channel {
    pub id: String,
    pub name: String,
    pub url: String,
    pub group_name: Option<String>,
    pub channel_type: String,
    pub sid: Option<String>,
    pub jstv_id: Option<String>,
}

/// How the channels whose ids begin with `prefix` are treated.
#[derive(Debug, Clone)]
pub struct SiteRule {
    pub prefix: String,
    pub name: String,
    pub target_url: Option<String>,
    pub m3u8_match: Option<String>,
    pub referer: Option<String>,
    pub origin: Option<String>,
    pub dom_filter: Option<String>,
    pub selectors: Option<String>,
    pub action_script: Option<String>,
    pub is_polled: bool,
}

/// Everything that the database holds.
#[derive(Debug, Clone)]
pub struct AppDb {
    pub cctv_channels: Vec<CctvChannel>,
    pub channels: Vec<Channel>,
    pub site_rules: Vec<SiteRule>,
    pub global_dom_filter: String,
    pub user_agent: String,
    pub blocked_domains: Vec<String>,
    pub poll_interval_ms: u64,
    pub decrypt_cache_ttl_ms: u64,
    pub fetch_timeout_ms: u64,
    pub proxy_timeout_ms: u64,
    pub jstv_auth_enabled: bool,
}

/// A row of the table `cctv_channels`.
#[derive(Debug, Clone)]
pub struct CctvRow {
    pub id: String,
    pub name: String,
    pub m3u8_url: String,
    pub fallback_url: Option<String>,
    pub sort_order: i64,
    pub enabled: i64,
}

/// A row of the table `channels`.
#[derive(Debug, Clone)]
pub struct ChannelRow {
    pub id: String,
    pub name: String,
    pub url: String,
    pub group_name: Option<String>,
    pub channel_type: Option<String>,
    pub sid: Option<String>,
    pub jstv_id: Option<String>,
}

/// A row of the table `site_rules`.
#[derive(Debug, Clone)]
pub struct RuleRow {
    pub prefix: String,
    pub name: String,
    pub target_url: Option<String>,
    pub m3u8_match: Option<String>,
    pub referer: Option<String>,
    pub origin: Option<String>,
    pub dom_filter: Option<String>,
    pub selectors: Option<String>,
    pub action_script: Option<String>,
    pub is_polled: Option<i64>,
}

/// The values of the table `sys_config`, and the page filter of the rule `global`, where the
/// database holds them.
#[derive(Debug, Clone)]
pub struct ConfigValues {
    pub user_agent: Option<String>,
    pub blocked_domains: Option<String>,
    pub poll_interval_ms: Option<String>,
    pub decrypt_cache_ttl_ms: Option<String>,
    pub fetch_timeout_ms: Option<String>,
    pub proxy_timeout_ms: Option<String>,
    pub jstv_auth_enabled: Option<String>,
    pub global_dom_filter: Option<String>,
}

// ─── Models ──────────────────────────────────────────────────────────────────

/// A satellite channel that is always offered.
pub struct BuiltinChannel {
    pub id: Seq<char>,
    pub name: Seq<char>,
    pub url: Seq<char>,
}

/// The number of channels that are always offered.
pub const BUILTIN_COUNT: usize = 30;

/// The channels that are always offered, by their place.
pub open spec fn builtin(i: int) -> BuiltinChannel {
    if i == 0 {
        BuiltinChannel { id: "hunan"@, name: "湖南卫视"@, url: "https://pull-hls.mgtv.com/sdlive/hnwstv/index.m3u8"@ }
    } else if i == 1 {
        BuiltinChannel { id: "dongfang_ws"@, name: "东方卫视"@, url: "https://live-cdn.kankanews.com/live/dongfang/playlist.m3u8"@ }
    } else if i == 2 {
        BuiltinChannel { id: "anhui"@, name: "安徽卫视"@, url: "https://ahlive.ahrtv.cn/ahrtv/live/ahtv1/playlist.m3u8"@ }
    } else if i == 3 {
        BuiltinChannel { id: "beijing"@, name: "北京卫视"@, url: "https://live.btime.com/btv2/index.m3u8"@ }
    } else if i == 4 {
        BuiltinChannel { id: "chongqing"@, name: "重庆卫视"@, url: "https://live.cqnews.net/livestream/cqws_720p/playlist.m3u8"@ }
    } else if i == 5 {
        BuiltinChannel { id: "tianjin"@, name: "天津卫视"@, url: "https://iptv.hitv.com/tianjin/index.m3u8"@ }
    } else if i == 6 {
        BuiltinChannel { id: "liaoning"@, name: "辽宁卫视"@, url: "https://lntv-live.lntv.cn/lntvlive/lnws/index.m3u8"@ }
    } else if i == 7 {
        BuiltinChannel { id: "jilin"@, name: "吉林卫视"@, url: "https://live.jlntv.cn/jlntv/ws/index.m3u8"@ }
    } else if i == 8 {
        BuiltinChannel { id: "heilongjiang"@, name: "黑龙江卫视"@, url: "https://hljlive.hljntv.cn/hljlive/weishi/index.m3u8"@ }
    } else if i == 9 {
        BuiltinChannel { id: "shanxi_ws"@, name: "山西卫视"@, url: "https://live.sxtvs.net/sxtvs/sxws/index.m3u8"@ }
    } else if i == 10 {
        BuiltinChannel { id: "shanxi2_ws"@, name: "陕西卫视"@, url: "https://live.sxrtv.com/sxrtv/sxws/index.m3u8"@ }
    } else if i == 11 {
        BuiltinChannel { id: "sichuan"@, name: "四川卫视"@, url: "https://sclive.scstv.com/sctv/scws/playlist.m3u8"@ }
    } else if i == 12 {
        BuiltinChannel { id: "yunnan"@, name: "云南卫视"@, url: "https://ynlive.yntv.cn/yntv/ynws/index.m3u8"@ }
    } else if i == 13 {
        BuiltinChannel { id: "guizhou"@, name: "贵州卫视"@, url: "https://gzlive.gztv.com/gztv/gzws/index.m3u8"@ }
    } else if i == 14 {
        BuiltinChannel { id: "guangxi"@, name: "广西卫视"@, url: "https://live.gxtv.cn/gxtv/gxws/index.m3u8"@ }
    } else if i == 15 {
        BuiltinChannel { id: "neimenggu"@, name: "内蒙古卫视"@, url: "https://iptv.nmgtv.cn/nmgtv/nmws/index.m3u8"@ }
    } else if i == 16 {
        BuiltinChannel { id: "xinjiang"@, name: "新疆卫视"@, url: "https://live.xjtvs.com.cn/xjtvs/xjws/index.m3u8"@ }
    } else if i == 17 {
        BuiltinChannel { id: "xizang"@, name: "西藏卫视"@, url: "https://live.xzrtv.cn/xzrtv/xzws/index.m3u8"@ }
    } else if i == 18 {
        BuiltinChannel { id: "gansu"@, name: "甘肃卫视"@, url: "https://live.gstv.com.cn/gstv/gsws/index.m3u8"@ }
    } else if i == 19 {
        BuiltinChannel { id: "qinghai"@, name: "青海卫视"@, url: "https://live.qhtv.cn/qhtv/qhws/index.m3u8"@ }
    } else if i == 20 {
        BuiltinChannel { id: "ningxia"@, name: "宁夏卫视"@, url: "https://iptv.nxtv.cn/nxtv/nxws/index.m3u8"@ }
    } else if i == 21 {
        BuiltinChannel { id: "hainan"@, name: "海南卫视"@, url: "https://live.hitv.com/hitv/hnws/index.m3u8"@ }
    } else if i == 22 {
        BuiltinChannel { id: "jiangxi"@, name: "江西卫视"@, url: "https://live.jxntv.cn/jxntv/jxws/index.m3u8"@ }
    } else if i == 23 {
        BuiltinChannel { id: "henan"@, name: "河南卫视"@, url: "https://live.haolvtv.com/haolvtv/hnws/index.m3u8"@ }
    } else if i == 24 {
        BuiltinChannel { id: "hubei"@, name: "湖北卫视"@, url: "https://live.cjyun.org/hubeitv/hbws/index.m3u8"@ }
    } else if i == 25 {
        BuiltinChannel { id: "fujian"@, name: "福建卫视"@, url: "https://fjlive.sea.fjrtv.cn/fjrtv/fjws/index.m3u8"@ }
    } else if i == 26 {
        BuiltinChannel { id: "fenghuang_zhongwen"@, name: "凤凰中文"@, url: "https://hls.ifeng.com/live/Phoenix_Chinese_HD/index.m3u8"@ }
    } else if i == 27 {
        BuiltinChannel { id: "fenghuang_zixun"@, name: "凤凰资讯"@, url: "https://hls.ifeng.com/live/Phoenix_InfoNews_HD/index.m3u8"@ }
    } else if i == 28 {
        BuiltinChannel { id: "cgtn"@, name: "CGTN"@, url: "https://news.cgtn.com/resource/live/english/cgtn-news.m3u8"@ }
    } else {
        BuiltinChannel { id: "cgtndoc"@, name: "CGTN纪录"@, url: "https://news.cgtn.com/resource/live/cgtn-doc/cgtn-doc.m3u8"@ }
    }
}

/// What a channel holds, as character sequences and numbers.
pub struct CctvRecord {
    pub id: Seq<char>,
    pub name: Seq<char>,
    pub m3u8_url: Seq<char>,
    pub fallback_url: Option<Seq<char>>,
    pub sort_order: i64,
    pub enabled: bool,
}

impl View for CctvChannel {
    type V = CctvRecord;

    open spec fn view(&self) -> CctvRecord {
        CctvRecord {
            id: self.id@,
            name: self.name@,
            m3u8_url: self.m3u8_url@,
            fallback_url: opt_view(self.fallback_url),
            sort_order: self.sort_order,
            enabled: self.enabled,
        }
    }
}

/// The records of a list of channels.
pub open spec fn cctv_records(v: Seq<CctvChannel>) -> Seq<CctvRecord> {
    v.map_values(|c: CctvChannel| c@)
}

/// The channel that a row stands for.
pub open spec fn cctv_of_row(row: CctvRow) -> CctvRecord {
    CctvRecord {
        id: row.id@,
        name: row.name@,
        m3u8_url: row.m3u8_url@,
        fallback_url: opt_view(row.fallback_url),
        sort_order: row.sort_order,
        enabled: row.enabled != 0,
    }
}

/// A channel of the list has this id.
pub open spec fn has_id(list: Seq<CctvRecord>, id: Seq<char>) -> bool {
    exists|i: int| 0 <= i < list.len() && (#[trigger] list[i]).id == id
}

/// The highest sort order of a list that is not empty.
pub open spec fn max_order(list: Seq<CctvRecord>) -> i64
    decreases list.len(),
{
    if list.len() <= 1 {
        list[0].sort_order
    } else if max_order(list.drop_last()) < list.last().sort_order {
        list.last().sort_order
    } else {
        max_order(list.drop_last())
    }
}

/// The sort order after which the channels that are always offered follow.
pub open spec fn last_order(list: Seq<CctvRecord>) -> i64 {
    if list.len() == 0 {
        18
    } else {
        max_order(list)
    }
}

/// The channel at place `i` of those that are always offered, behind the order `last`. Orders wrap
/// around at the end of their range.
pub open spec fn builtin_record(i: int, last: i64) -> CctvRecord {
    CctvRecord {
        id: builtin(i).id,
        name: builtin(i).name,
        m3u8_url: builtin(i).url,
        fallback_url: None,
        sort_order: last.wrapping_add(1i64).wrapping_add(i as i64),
        enabled: true,
    }
}

/// The channels of the rows that are enabled, in the order of the rows.
pub open spec fn enabled_records(rows: Seq<CctvRow>) -> Seq<CctvRecord>
    decreases rows.len(),
{
    if rows.len() == 0 {
        seq![]
    } else if rows.last().enabled == 1 {
        enabled_records(rows.drop_last()).push(cctv_of_row(rows.last()))
    } else {
        enabled_records(rows.drop_last())
    }
}

/// The ids of some rows, enabled or not.
pub open spec fn row_ids(rows: Seq<CctvRow>) -> Seq<Seq<char>> {
    rows.map_values(|row: CctvRow| row.id@)
}

/// A list with the first `k` of the channels that are always offered behind it, without those
/// whose id it has already, or whose id is one of `taken`.
pub open spec fn with_builtins(list: Seq<CctvRecord>, taken: Seq<Seq<char>>, k: nat) -> Seq<
    CctvRecord,
>
    decreases k,
{
    if k == 0 {
        list
    } else {
        let before = with_builtins(list, taken, (k - 1) as nat);
        if has_id(before, builtin(k - 1).id) || taken.contains(builtin(k - 1).id) {
            before
        } else {
            before.push(builtin_record(k - 1, last_order(list)))
        }
    }
}

/// What a provincial channel holds, as character sequences.
pub struct ChannelRecord {
    pub id: Seq<char>,
    pub name: Seq<char>,
    pub url: Seq<char>,
    pub group_name: Option<Seq<char>>,
    pub channel_type: Seq<char>,
    pub sid: Option<Seq<char>>,
    pub jstv_id: Option<Seq<char>>,
}

impl View for Channel {
    type V = ChannelRecord;

    open spec fn view(&self) -> ChannelRecord {
        ChannelRecord {
            id: self.id@,
            name: self.name@,
            url: self.url@,
            group_name: opt_view(self.group_name),
            channel_type: self.channel_type@,
            sid: opt_view(self.sid),
            jstv_id: opt_view(self.jstv_id),
        }
    }
}

/// The records of a list of provincial channels.
pub open spec fn channel_records(v: Seq<Channel>) -> Seq<ChannelRecord> {
    v.map_values(|c: Channel| c@)
}

/// The provincial channel that a row stands for; its type is `m3u8` where the row has none.
pub open spec fn channel_of_row(row: ChannelRow) -> ChannelRecord {
    ChannelRecord {
        id: row.id@,
        name: row.name@,
        url: row.url@,
        group_name: opt_view(row.group_name),
        channel_type: text_or(opt_view(row.channel_type), "m3u8"@),
        sid: opt_view(row.sid),
        jstv_id: opt_view(row.jstv_id),
    }
}

/// What a site rule holds, as character sequences.
pub struct RuleRecord {
    pub prefix: Seq<char>,
    pub name: Seq<char>,
    pub target_url: Option<Seq<char>>,
    pub m3u8_match: Option<Seq<char>>,
    pub referer: Option<Seq<char>>,
    pub origin: Option<Seq<char>>,
    pub dom_filter: Option<Seq<char>>,
    pub selectors: Option<Seq<char>>,
    pub action_script: Option<Seq<char>>,
    pub is_polled: bool,
}

impl View for SiteRule {
    type V = RuleRecord;

    open spec fn view(&self) -> RuleRecord {
        RuleRecord {
            prefix: self.prefix@,
            name: self.name@,
            target_url: opt_view(self.target_url),
            m3u8_match: opt_view(self.m3u8_match),
            referer: opt_view(self.referer),
            origin: opt_view(self.origin),
            dom_filter: opt_view(self.dom_filter),
            selectors: opt_view(self.selectors),
            action_script: opt_view(self.action_script),
            is_polled: self.is_polled,
        }
    }
}

/// The records of a list of site rules.
pub open spec fn rule_records(v: Seq<SiteRule>) -> Seq<RuleRecord> {
    v.map_values(|r: SiteRule| r@)
}

/// The site rule that a row stands for; it is polled unless the row says zero.
pub open spec fn rule_of_row(row: RuleRow) -> RuleRecord {
    RuleRecord {
        prefix: row.prefix@,
        name: row.name@,
        target_url: opt_view(row.target_url),
        m3u8_match: opt_view(row.m3u8_match),
        referer: opt_view(row.referer),
        origin: opt_view(row.origin),
        dom_filter: opt_view(row.dom_filter),
        selectors: opt_view(row.selectors),
        action_script: opt_view(row.action_script),
        is_polled: row.is_polled != Some(0i64),
    }
}

/// The site rules of some rows, in the order of the rows, without those whose prefix is `global`.
pub open spec fn site_rules_of(rows: Seq<RuleRow>) -> Seq<RuleRecord>
    decreases rows.len(),
{
    if rows.len() == 0 {
        seq![]
    } else if rows.last().prefix@ != "global"@ {
        site_rules_of(rows.drop_last()).push(rule_of_row(rows.last()))
    } else {
        site_rules_of(rows.drop_last())
    }
}

/// A text, or another in place of a missing one.
pub open spec fn text_or(found: Option<Seq<char>>, other: Seq<char>) -> Seq<char> {
    match found {
        Some(t) => t,
        None => other,
    }
}

/// The number that a text writes, or another where there is no text or it writes none.
pub open spec fn number_or(found: Option<Seq<char>>, other: u64) -> u64 {
    match found {
        Some(t) => match text::parse_decimal(t, u64::MAX as nat) {
            Some(n) => n as u64,
            None => other,
        },
        None => other,
    }
}

/// The strings of a JSON list, or none where there is no text or it is no such list.
pub open spec fn strings_or_none(found: Option<Seq<char>>) -> Seq<Seq<char>> {
    match found {
        Some(t) => match foreign::json_strings(t) {
            Some(v) => v,
            None => seq![],
        },
        None => seq![],
    }
}

// ─── Loading ─────────────────────────────────────────────────────────────────

/// A copy of an optional string.
pub fn clone_opt(s: &Option<String>) -> (r: Option<String>)
    ensures
        r == *s,
{
    match s {
        Some(t) => Some(t.clone()),
        None => None,
    }
}

/// The string, or a copy of another in place of a missing one.
pub fn string_or(found: &Option<String>, other: &str) -> (r: String)
    ensures
        r@ == text_or(opt_view(*found), other@),
{
    match found {
        Some(t) => t.clone(),
        None => other.to_owned(),
    }
}

/// The number that a string writes, or another.
pub fn parse_or(found: &Option<String>, other: u64) -> (r: u64)
    ensures
        r == number_or(opt_view(*found), other),
{
    match found {
        Some(t) => match parse_u64(chars_of(t.as_str()).as_slice()) {
            Some(n) => n,
            None => other,
        },
        None => other,
    }
}

/// The strings of a JSON list, or none.
pub fn list_or_none(found: &Option<String>) -> (r: Vec<String>)
    ensures
        foreign::string_views(r@) == strings_or_none(opt_view(*found)),
{
    let text = string_or(found, "[]");
    match parse_json_strings(text.as_str()) {
        Ok(v) => {
            proof {
                if found is None {
                    assert(foreign::string_views(v@) =~= seq![]);
                }
            }
            v
        },
        Err(_) => {
            let none: Vec<String> = Vec::new();
            assert(foreign::string_views(none@) =~= seq![]);
            none
        },
    }
}

/// The id, the name and the address of a channel that is always offered.
fn builtin_channel(i: usize) -> (r: (&'static str, &'static str, &'static str))
    requires
        i < BUILTIN_COUNT,
    ensures
        r.0@ == builtin(i as int).id,
        r.1@ == builtin(i as int).name,
        r.2@ == builtin(i as int).url,
{
    if i == 0 {
        ("hunan", "湖南卫视", "https://pull-hls.mgtv.com/sdlive/hnwstv/index.m3u8")
    } else if i == 1 {
        ("dongfang_ws", "东方卫视", "https://live-cdn.kankanews.com/live/dongfang/playlist.m3u8")
    } else if i == 2 {
        ("anhui", "安徽卫视", "https://ahlive.ahrtv.cn/ahrtv/live/ahtv1/playlist.m3u8")
    } else if i == 3 {
        ("beijing", "北京卫视", "https://live.btime.com/btv2/index.m3u8")
    } else if i == 4 {
        ("chongqing", "重庆卫视", "https://live.cqnews.net/livestream/cqws_720p/playlist.m3u8")
    } else if i == 5 {
        ("tianjin", "天津卫视", "https://iptv.hitv.com/tianjin/index.m3u8")
    } else if i == 6 {
        ("liaoning", "辽宁卫视", "https://lntv-live.lntv.cn/lntvlive/lnws/index.m3u8")
    } else if i == 7 {
        ("jilin", "吉林卫视", "https://live.jlntv.cn/jlntv/ws/index.m3u8")
    } else if i == 8 {
        ("heilongjiang", "黑龙江卫视", "https://hljlive.hljntv.cn/hljlive/weishi/index.m3u8")
    } else if i == 9 {
        ("shanxi_ws", "山西卫视", "https://live.sxtvs.net/sxtvs/sxws/index.m3u8")
    } else if i == 10 {
        ("shanxi2_ws", "陕西卫视", "https://live.sxrtv.com/sxrtv/sxws/index.m3u8")
    } else if i == 11 {
        ("sichuan", "四川卫视", "https://sclive.scstv.com/sctv/scws/playlist.m3u8")
    } else if i == 12 {
        ("yunnan", "云南卫视", "https://ynlive.yntv.cn/yntv/ynws/index.m3u8")
    } else if i == 13 {
        ("guizhou", "贵州卫视", "https://gzlive.gztv.com/gztv/gzws/index.m3u8")
    } else if i == 14 {
        ("guangxi", "广西卫视", "https://live.gxtv.cn/gxtv/gxws/index.m3u8")
    } else if i == 15 {
        ("neimenggu", "内蒙古卫视", "https://iptv.nmgtv.cn/nmgtv/nmws/index.m3u8")
    } else if i == 16 {
        ("xinjiang", "新疆卫视", "https://live.xjtvs.com.cn/xjtvs/xjws/index.m3u8")
    } else if i == 17 {
        ("xizang", "西藏卫视", "https://live.xzrtv.cn/xzrtv/xzws/index.m3u8")
    } else if i == 18 {
        ("gansu", "甘肃卫视", "https://live.gstv.com.cn/gstv/gsws/index.m3u8")
    } else if i == 19 {
        ("qinghai", "青海卫视", "https://live.qhtv.cn/qhtv/qhws/index.m3u8")
    } else if i == 20 {
        ("ningxia", "宁夏卫视", "https://iptv.nxtv.cn/nxtv/nxws/index.m3u8")
    } else if i == 21 {
        ("hainan", "海南卫视", "https://live.hitv.com/hitv/hnws/index.m3u8")
    } else if i == 22 {
        ("jiangxi", "江西卫视", "https://live.jxntv.cn/jxntv/jxws/index.m3u8")
    } else if i == 23 {
        ("henan", "河南卫视", "https://live.haolvtv.com/haolvtv/hnws/index.m3u8")
    } else if i == 24 {
        ("hubei", "湖北卫视", "https://live.cjyun.org/hubeitv/hbws/index.m3u8")
    } else if i == 25 {
        ("fujian", "福建卫视", "https://fjlive.sea.fjrtv.cn/fjrtv/fjws/index.m3u8")
    } else if i == 26 {
        ("fenghuang_zhongwen", "凤凰中文", "https://hls.ifeng.com/live/Phoenix_Chinese_HD/index.m3u8")
    } else if i == 27 {
        ("fenghuang_zixun", "凤凰资讯", "https://hls.ifeng.com/live/Phoenix_InfoNews_HD/index.m3u8")
    } else if i == 28 {
        ("cgtn", "CGTN", "https://news.cgtn.com/resource/live/english/cgtn-news.m3u8")
    } else {
        ("cgtndoc", "CGTN纪录", "https://news.cgtn.com/resource/live/cgtn-doc/cgtn-doc.m3u8")
    }
}

/// Whether a channel of the list has this id.
fn list_has_id(list: &Vec<CctvChannel>, id: &str) -> (r: bool)
    ensures
        r == has_id(cctv_records(list@), id@),
{
    let mut i: usize = 0;
    while i < list.len()
        invariant
            i <= list@.len(),
            forall|j: int| 0 <= j < i ==> (#[trigger] cctv_records(list@)[j]).id != id@,
        decreases list.len() - i,
    {
        assert(cctv_records(list@)[i as int] == list@[i as int]@);
        if str_equal(list[i].id.as_str(), id) {
            return true;
        }
        i = i + 1;
    }
    false
}

/// Whether a row has this id, enabled or not.
fn rows_have_id(rows: &Vec<CctvRow>, id: &str) -> (r: bool)
    ensures
        r == row_ids(rows@).contains(id@),
{
    let mut i: usize = 0;
    while i < rows.len()
        invariant
            i <= rows@.len(),
            forall|j: int| 0 <= j < i ==> (#[trigger] row_ids(rows@)[j]) != id@,
        decreases rows.len() - i,
    {
        assert(row_ids(rows@)[i as int] == rows@[i as int].id@);
        if str_equal(rows[i].id.as_str(), id) {
            return true;
        }
        i = i + 1;
    }
    false
}

/// The channels of the rows that are enabled.
fn cctv_from_rows(rows: &Vec<CctvRow>) -> (r: Vec<CctvChannel>)
    ensures
        cctv_records(r@) == enabled_records(rows@),
{
    let mut out: Vec<CctvChannel> = Vec::new();
    let mut i: usize = 0;
    assert(cctv_records(out@) =~= enabled_records(rows@.take(0)));
    while i < rows.len()
        invariant
            i <= rows@.len(),
            cctv_records(out@) == enabled_records(rows@.take(i as int)),
        decreases rows.len() - i,
    {
        let row = &rows[i];
        let ghost before = out@;
        assert(rows@.take(i + 1).drop_last() =~= rows@.take(i as int));
        if row.enabled == 1 {
            out.push(
                CctvChannel {
                    id: row.id.clone(),
                    name: row.name.clone(),
                    m3u8_url: row.m3u8_url.clone(),
                    fallback_url: clone_opt(&row.fallback_url),
                    sort_order: row.sort_order,
                    enabled: row.enabled != 0,
                },
            );
            assert(out@.last()@ == cctv_of_row(*row));
            assert(cctv_records(out@) =~= cctv_records(before).push(out@.last()@));
        }
        i = i + 1;
    }
    assert(rows@.take(rows@.len() as int) =~= rows@);
    out
}

/// The sort order after which the channels that are always offered follow.
fn find_last_order(list: &Vec<CctvChannel>) -> (r: i64)
    ensures
        r == last_order(cctv_records(list@)),
{
    if list.len() == 0 {
        return 18;
    }
    let ghost records = cctv_records(list@);
    let mut best: i64 = list[0].sort_order;
    let mut i: usize = 1;
    assert(records.take(1)[0] == records[0]);
    while i < list.len()
        invariant
            1 <= i <= list@.len(),
            records == cctv_records(list@),
            best == max_order(records.take(i as int)),
        decreases list.len() - i,
    {
        assert(records.take(i + 1).drop_last() =~= records.take(i as int));
        assert(records.take(i + 1).last() == list@[i as int]@);
        if list[i].sort_order > best {
            best = list[i].sort_order;
        }
        i = i + 1;
    }
    assert(records.take(records.len() as int) =~= records);
    best
}

/// Puts the channels that are always offered behind a list, without those whose id it or a row has
/// already.
pub fn append_builtins(list: &mut Vec<CctvChannel>, rows: &Vec<CctvRow>)
    ensures
        cctv_records(final(list)@) == with_builtins(
            cctv_records(old(list)@),
            row_ids(rows@),
            BUILTIN_COUNT as nat,
        ),
{
    let last: i64 = find_last_order(list);
    let mut i: usize = 0;
    while i < BUILTIN_COUNT
        invariant
            i <= BUILTIN_COUNT,
            last == last_order(cctv_records(old(list)@)),
            cctv_records(list@) == with_builtins(
                cctv_records(old(list)@),
                row_ids(rows@),
                i as nat,
            ),
        decreases BUILTIN_COUNT - i,
    {
        let (id, name, url) = builtin_channel(i);
        if !list_has_id(list, id) && !rows_have_id(rows, id) {
            let ghost before = list@;
            list.push(
                CctvChannel {
                    id: id.to_owned(),
                    name: name.to_owned(),
                    m3u8_url: url.to_owned(),
                    fallback_url: None,
                    sort_order: last.wrapping_add(1).wrapping_add(i as i64),
                    enabled: true,
                },
            );
            assert(list@.last()@ == builtin_record(i as int, last));
            assert(cctv_records(list@) =~= cctv_records(before).push(list@.last()@));
        }
        i = i + 1;
    }
}

/// The provincial channels that some rows stand for.
fn channels_from_rows(rows: &Vec<ChannelRow>) -> (r: Vec<Channel>)
    ensures
        channel_records(r@) == rows@.map_values(|row: ChannelRow| channel_of_row(row)),
{
    let mut out: Vec<Channel> = Vec::new();
    let mut i: usize = 0;
    while i < rows.len()
        invariant
            i <= rows@.len(),
            out@.len() == i,
            forall|j: int| 0 <= j < i ==> (#[trigger] out@[j])@ == channel_of_row(rows@[j]),
        decreases rows.len() - i,
    {
        let row = &rows[i];
        out.push(
            Channel {
                id: row.id.clone(),
                name: row.name.clone(),
                url: row.url.clone(),
                group_name: clone_opt(&row.group_name),
                channel_type: string_or(&row.channel_type, "m3u8"),
                sid: clone_opt(&row.sid),
                jstv_id: clone_opt(&row.jstv_id),
            },
        );
        i = i + 1;
    }
    assert(channel_records(out@) =~= rows@.map_values(|row: ChannelRow| channel_of_row(row)));
    out
}

/// The site rules of some rows.
fn rules_from_rows(rows: &Vec<RuleRow>) -> (r: Vec<SiteRule>)
    ensures
        rule_records(r@) == site_rules_of(rows@),
        forall|i: int| 0 <= i < r@.len() ==> (#[trigger] r@[i]).prefix@ != "global"@,
{
    let mut out: Vec<SiteRule> = Vec::new();
    let mut i: usize = 0;
    assert(rule_records(out@) =~= site_rules_of(rows@.take(0)));
    while i < rows.len()
        invariant
            i <= rows@.len(),
            rule_records(out@) == site_rules_of(rows@.take(i as int)),
            forall|j: int| 0 <= j < out@.len() ==> (#[trigger] out@[j]).prefix@ != "global"@,
        decreases rows.len() - i,
    {
        let row = &rows[i];
        let ghost before = out@;
        assert(rows@.take(i + 1).drop_last() =~= rows@.take(i as int));
        if str_equal(row.prefix.as_str(), "global") {
            i = i + 1;
            continue;
        }
        out.push(
            SiteRule {
                prefix: row.prefix.clone(),
                name: row.name.clone(),
                target_url: clone_opt(&row.target_url),
                m3u8_match: clone_opt(&row.m3u8_match),
                referer: clone_opt(&row.referer),
                origin: clone_opt(&row.origin),
                dom_filter: clone_opt(&row.dom_filter),
                selectors: clone_opt(&row.selectors),
                action_script: clone_opt(&row.action_script),
                is_polled: match row.is_polled {
                    Some(n) => n != 0,
                    None => true,
                },
            },
        );
        assert(out@.last()@ == rule_of_row(*row));
        assert(rule_records(out@) =~= rule_records(before).push(out@.last()@));
        i = i + 1;
    }
    assert(rows@.take(rows@.len() as int) =~= rows@);
    out
}

impl AppDb {
    /// The database that some configuration values and rows stand for. Missing values have their
    /// defaults. The channels that are always offered stand behind those of the enabled rows,
    /// without those that a row has already, enabled or not. The rule `global` is no site rule.
    pub fn load(
        config: &ConfigValues,
        cctv_rows: &Vec<CctvRow>,
        channel_rows: &Vec<ChannelRow>,
        rule_rows: &Vec<RuleRow>,
    ) -> (r: AppDb)
        ensures
            cctv_records(r.cctv_channels@) == with_builtins(
                enabled_records(cctv_rows@),
                row_ids(cctv_rows@),
                BUILTIN_COUNT as nat,
            ),
            channel_records(r.channels@) == channel_rows@.map_values(
                |row: ChannelRow| channel_of_row(row),
            ),
            rule_records(r.site_rules@) == site_rules_of(rule_rows@),
            forall|i: int|
                0 <= i < r.site_rules@.len() ==> (#[trigger] r.site_rules@[i]).prefix@
                    != "global"@,
            r.global_dom_filter@ == text_or(opt_view(config.global_dom_filter), seq![]),
            r.user_agent@ == text_or(
                opt_view(config.user_agent),
                "Mozilla/5.0 (Windows NT 10.0; Win64; x64)"@,
            ),
            foreign::string_views(r.blocked_domains@) == strings_or_none(
                opt_view(config.blocked_domains),
            ),
            r.poll_interval_ms == number_or(opt_view(config.poll_interval_ms), 1_500_000),
            r.decrypt_cache_ttl_ms == number_or(opt_view(config.decrypt_cache_ttl_ms), 1_800_000),
            r.fetch_timeout_ms == number_or(opt_view(config.fetch_timeout_ms), 20_000),
            r.proxy_timeout_ms == number_or(opt_view(config.proxy_timeout_ms), 8_000),
            r.jstv_auth_enabled == (opt_view(config.jstv_auth_enabled) == Some("true"@)),
    {
        let mut cctv_channels = cctv_from_rows(cctv_rows);
        append_builtins(&mut cctv_channels, cctv_rows);
        AppDb {
            cctv_channels,
            channels: channels_from_rows(channel_rows),
            site_rules: rules_from_rows(rule_rows),
            global_dom_filter: match &config.global_dom_filter {
                Some(t) => t.clone(),
                None => String::new(),
            },
            user_agent: string_or(&config.user_agent, "Mozilla/5.0 (Windows NT 10.0; Win64; x64)"),
            blocked_domains: list_or_none(&config.blocked_domains),
            poll_interval_ms: parse_or(&config.poll_interval_ms, 1_500_000),
            decrypt_cache_ttl_ms: parse_or(&config.decrypt_cache_ttl_ms, 1_800_000),
            fetch_timeout_ms: parse_or(&config.fetch_timeout_ms, 20_000),
            proxy_timeout_ms: parse_or(&config.proxy_timeout_ms, 8_000),
            jstv_auth_enabled: match &config.jstv_auth_enabled {
                Some(t) => str_equal(t.as_str(), "true"),
                None => false,
            },
        }
    }
}

// ─── Laws ────────────────────────────────────────────────────────────────────

/// No two channels of the list have the same id.
pub open spec fn unique_ids(list: Seq<CctvRecord>) -> bool {
    forall|i: int, j: int| 0 <= i < j < list.len() ==> (#[trigger] list[i]).id != (#[trigger] list[j]).id
}

/// Putting the channels that are always offered behind a list keeps the list: its channels stay,
/// and stay first.
pub proof fn law_builtins_keep_the_list(list: Seq<CctvRecord>, taken: Seq<Seq<char>>, k: nat)
    ensures
        list.len() <= with_builtins(list, taken, k).len(),
        with_builtins(list, taken, k).take(list.len() as int) =~= list,
    decreases k,
{
    if k > 0 {
        law_builtins_keep_the_list(list, taken, (k - 1) as nat);
        let before = with_builtins(list, taken, (k - 1) as nat);
        assert(with_builtins(list, taken, k).take(list.len() as int) =~= before.take(
            list.len() as int,
        ));
    }
}

/// Every channel that is always offered has its id in the list that results, unless its id is
/// taken.
pub proof fn law_builtins_are_offered(
    list: Seq<CctvRecord>,
    taken: Seq<Seq<char>>,
    k: nat,
    i: int,
)
    requires
        0 <= i < k,
        !taken.contains(builtin(i).id),
    ensures
        has_id(with_builtins(list, taken, k), builtin(i).id),
    decreases k,
{
    let before = with_builtins(list, taken, (k - 1) as nat);
    let after = with_builtins(list, taken, k);
    if i < k - 1 {
        law_builtins_are_offered(list, taken, (k - 1) as nat, i);
        let at = choose|j: int| 0 <= j < before.len() && (#[trigger] before[j]).id == builtin(i).id;
        assert(after[at] == before[at]);
    } else if !has_id(before, builtin(i).id) {
        assert(after[before.len() as int].id == builtin(i).id);
    }
}

/// A channel whose id is taken is not added: it is in the list that results only where it was in
/// the list before.
pub proof fn law_taken_ids_are_not_added(
    list: Seq<CctvRecord>,
    taken: Seq<Seq<char>>,
    k: nat,
    id: Seq<char>,
)
    requires
        taken.contains(id),
        !has_id(list, id),
    ensures
        !has_id(with_builtins(list, taken, k), id),
    decreases k,
{
    if k > 0 {
        law_taken_ids_are_not_added(list, taken, (k - 1) as nat, id);
        let before = with_builtins(list, taken, (k - 1) as nat);
        let after = with_builtins(list, taken, k);
        if has_id(after, id) {
            let at = choose|j: int| 0 <= j < after.len() && (#[trigger] after[j]).id == id;
            if at < before.len() {
                assert(before[at].id == id);
            }
        }
    }
}

/// A channel of the enabled rows is that of a row which is enabled.
proof fn lemma_enabled_rows(rows: Seq<CctvRow>, id: Seq<char>)
    requires
        has_id(enabled_records(rows), id),
    ensures
        exists|i: int| 0 <= i < rows.len() && (#[trigger] rows[i]).id@ == id && rows[i].enabled == 1,
    decreases rows.len(),
{
    if rows.len() > 0 {
        let rest = rows.drop_last();
        let all = enabled_records(rows);
        let before = enabled_records(rest);
        let at = choose|j: int| 0 <= j < all.len() && (#[trigger] all[j]).id == id;
        if at < before.len() {
            assert(before[at].id == id);
            lemma_enabled_rows(rest, id);
            let i = choose|i: int|
                0 <= i < rest.len() && (#[trigger] rest[i]).id@ == id && rest[i].enabled == 1;
            assert(rows[i].id@ == id && rows[i].enabled == 1);
        } else {
            assert(rows[rows.len() - 1].id@ == id);
        }
    }
}

/// A channel whose rows are all disabled is not offered, also where it is one of those that are
/// always offered otherwise.
pub proof fn law_disabled_rows_are_not_offered(rows: Seq<CctvRow>, i: int)
    requires
        0 <= i < rows.len(),
        forall|j: int|
            0 <= j < rows.len() && (#[trigger] rows[j]).id@ == rows[i].id@ ==> rows[j].enabled != 1,
    ensures
        !has_id(
            with_builtins(enabled_records(rows), row_ids(rows), BUILTIN_COUNT as nat),
            rows[i].id@,
        ),
{
    let id = rows[i].id@;
    assert(row_ids(rows)[i] == id);
    if has_id(enabled_records(rows), id) {
        lemma_enabled_rows(rows, id);
    }
    law_taken_ids_are_not_added(
        enabled_records(rows),
        row_ids(rows),
        BUILTIN_COUNT as nat,
        id,
    );
}

/// A list without a repeated id gets none by the channels that are always offered.
pub proof fn law_builtins_repeat_no_id(list: Seq<CctvRecord>, taken: Seq<Seq<char>>, k: nat)
    requires
        unique_ids(list),
    ensures
        unique_ids(with_builtins(list, taken, k)),
    decreases k,
{
    if k > 0 {
        law_builtins_repeat_no_id(list, taken, (k - 1) as nat);
    }
}

/// The channels of two lists of rows, one behind the other, are those of the one and then those of
/// the other; a row is listed, with what it holds, exactly where it is enabled.
pub proof fn law_enabled_rows_are_listed_in_order(a: Seq<CctvRow>, b: Seq<CctvRow>, row: CctvRow)
    ensures
        enabled_records(a + b) == enabled_records(a) + enabled_records(b),
        row.enabled != 1 ==> enabled_records(seq![row]).len() == 0,
        row.enabled == 1 ==> enabled_records(seq![row]) == seq![
            CctvRecord {
                id: row.id@,
                name: row.name@,
                m3u8_url: row.m3u8_url@,
                fallback_url: opt_view(row.fallback_url),
                sort_order: row.sort_order,
                enabled: true,
            },
        ],
    decreases b.len(),
{
    if b.len() > 0 {
        law_enabled_rows_are_listed_in_order(a, b.drop_last(), row);
        assert((a + b).drop_last() =~= a + b.drop_last());
        assert(enabled_records(a + b) =~= enabled_records(a) + enabled_records(b));
    } else {
        assert(a + b =~= a);
        assert(enabled_records(a) + enabled_records(b) =~= enabled_records(a));
    }
    reveal_with_fuel(enabled_records, 2);
    assert(seq![row].drop_last() =~= seq![]);
}

/// The site rules of two lists of rows, one behind the other, are those of the one and then those of
/// the other; a row is a rule, with what it holds, unless its prefix is `global`, and it is polled
/// unless it says zero.
pub proof fn law_site_rules_are_kept_in_order(a: Seq<RuleRow>, b: Seq<RuleRow>, row: RuleRow)
    ensures
        site_rules_of(a + b) == site_rules_of(a) + site_rules_of(b),
        row.prefix@ == "global"@ ==> site_rules_of(seq![row]).len() == 0,
        row.prefix@ != "global"@ ==> site_rules_of(seq![row]) == seq![
            RuleRecord {
                prefix: row.prefix@,
                name: row.name@,
                target_url: opt_view(row.target_url),
                m3u8_match: opt_view(row.m3u8_match),
                referer: opt_view(row.referer),
                origin: opt_view(row.origin),
                dom_filter: opt_view(row.dom_filter),
                selectors: opt_view(row.selectors),
                action_script: opt_view(row.action_script),
                is_polled: row.is_polled is None || row.is_polled->0 != 0,
            },
        ],
    decreases b.len(),
{
    if b.len() > 0 {
        law_site_rules_are_kept_in_order(a, b.drop_last(), row);
        assert((a + b).drop_last() =~= a + b.drop_last());
        assert(site_rules_of(a + b) =~= site_rules_of(a) + site_rules_of(b));
    } else {
        assert(a + b =~= a);
        assert(site_rules_of(a) + site_rules_of(b) =~= site_rules_of(a));
    }
    reveal_with_fuel(site_rules_of, 2);
    assert(seq![row].drop_last() =~= seq![]);
}

/// A provincial channel is what its row holds; one without a type is a playlist.
pub proof fn law_provincial_rows_are_kept(row: ChannelRow)
    ensures
        channel_of_row(row).id == row.id@,
        channel_of_row(row).name == row.name@,
        channel_of_row(row).url == row.url@,
        channel_of_row(row).group_name == opt_view(row.group_name),
        channel_of_row(row).sid == opt_view(row.sid),
        channel_of_row(row).jstv_id == opt_view(row.jstv_id),
        row.channel_type matches Some(t) ==> channel_of_row(row).channel_type == t@,
        row.channel_type is None ==> channel_of_row(row).channel_type == "m3u8"@,
{
}

/// A setting of a number is the number that its digits write, whichever of the range it is; the
/// default stands in where there is none, where a character is no digit, and where the number is
/// beyond the range.
pub proof fn law_number_settings_are_read(n: nat, found: Seq<char>, i: int, other: u64)
    ensures
        n <= u64::MAX ==> number_or(Some(text::decimal(n)), other) == n,
        number_or(None, other) == other,
        found.len() == 0 ==> number_or(Some(found), other) == other,
        0 < i < found.len() && !('0' <= found[i] <= '9') ==> number_or(Some(found), other) == other,
{
    if n <= u64::MAX {
        text::law_decimal_reads_back(n, u64::MAX as nat);
    }
    text::law_numbers_are_digits(found, u64::MAX as nat, 0);
}

/// A setting that is there is taken as it is, and the default stands in for one that is not; a list
/// of strings that cannot be read is empty.
pub proof fn law_settings_are_taken_as_they_are(
    found: Seq<char>,
    other: Seq<char>,
    strings: Seq<Seq<char>>,
)
    ensures
        text_or(Some(found), other) == found,
        text_or(None, other) == other,
        foreign::json_strings(found) == Some(strings) ==> strings_or_none(Some(found)) == strings,
        foreign::json_strings(found) is None ==> strings_or_none(Some(found)).len() == 0,
        strings_or_none(None).len() == 0,
{
}

/// The channels that are always offered follow behind the highest sort order of a list, which one of
/// its channels has and none exceeds, and behind 18 where the list is empty; each by its place.
pub proof fn law_builtins_follow_the_highest_order(list: Seq<CctvRecord>, i: int, place: int)
    requires
        0 <= place < 30,
    ensures
        0 <= i < list.len() ==> list[i].sort_order <= last_order(list),
        list.len() > 0 ==> exists|k: int|
            0 <= k < list.len() && (#[trigger] list[k]).sort_order == last_order(list),
        list.len() == 0 ==> last_order(list) == 18,
        last_order(list) + 1 + place <= i64::MAX ==> builtin_record(place, last_order(list)).sort_order
            == last_order(list) + 1 + place,
        builtin_record(place, last_order(list)).enabled,
        builtin_record(place, last_order(list)).fallback_url is None,
        builtin_record(place, last_order(list)).id == builtin(place).id,
        builtin_record(place, last_order(list)).name == builtin(place).name,
        builtin_record(place, last_order(list)).m3u8_url == builtin(place).url,
{
    if list.len() > 0 {
        lemma_max_order(list, i);
    }
}

/// The highest sort order is that of a channel, and no channel exceeds it.
proof fn lemma_max_order(list: Seq<CctvRecord>, i: int)
    requires
        list.len() > 0,
    ensures
        0 <= i < list.len() ==> list[i].sort_order <= max_order(list),
        exists|k: int| 0 <= k < list.len() && (#[trigger] list[k]).sort_order == max_order(list),
    decreases list.len(),
{
    if list.len() <= 1 {
        assert(list[0].sort_order == max_order(list));
    } else {
        let rest = list.drop_last();
        lemma_max_order(rest, i);
        let at = choose|k: int|
            0 <= k < rest.len() && (#[trigger] rest[k]).sort_order == max_order(rest);
        assert(list[at] == rest[at]);
        assert(list[list.len() - 1] == list.last());
    }
}

/// A channel that is put behind a list is one of those that are always offered, as it stands there.
pub proof fn law_only_builtins_are_added(
    list: Seq<CctvRecord>,
    taken: Seq<Seq<char>>,
    k: nat,
    i: int,
)
    requires
        list.len() <= i < with_builtins(list, taken, k).len(),
    ensures
        exists|place: int|
            0 <= place < k && with_builtins(list, taken, k)[i] == #[trigger] builtin_record(
                place,
                last_order(list),
            ) && !taken.contains(builtin(place).id) && !has_id(list, builtin(place).id),
    decreases k,
{
    if k > 0 {
        let before = with_builtins(list, taken, (k - 1) as nat);
        if i < before.len() {
            law_only_builtins_are_added(list, taken, (k - 1) as nat, i);
        } else {
            law_builtins_keep_the_list(list, taken, (k - 1) as nat);
            if has_id(list, builtin(k - 1).id) {
                let at = choose|j: int|
                    0 <= j < list.len() && (#[trigger] list[j]).id == builtin(k - 1).id;
                assert(before.take(list.len() as int)[at] == list[at]);
                assert(before[at].id == builtin(k - 1).id);
                assert(has_id(before, builtin(k - 1).id));
            }
            assert(with_builtins(list, taken, k)[i] == builtin_record(k - 1, last_order(list)));
        }
    }
}

/// The channel with this id, name and address is always offered, at this place.
pub open spec fn is_builtin(i: int, id: Seq<char>, name: Seq<char>, url: Seq<char>) -> bool {
    builtin(i).id == id && builtin(i).name == name && builtin(i).url == url
}

/// The channels that are always offered, each with its name and its address.
pub proof fn law_builtins_by_place()
    ensures
        is_builtin(0, "hunan"@, "湖南卫视"@, "https://pull-hls.mgtv.com/sdlive/hnwstv/index.m3u8"@),
        is_builtin(1, "dongfang_ws"@, "东方卫视"@, "https://live-cdn.kankanews.com/live/dongfang/playlist.m3u8"@),
        is_builtin(2, "anhui"@, "安徽卫视"@, "https://ahlive.ahrtv.cn/ahrtv/live/ahtv1/playlist.m3u8"@),
        is_builtin(3, "beijing"@, "北京卫视"@, "https://live.btime.com/btv2/index.m3u8"@),
        is_builtin(4, "chongqing"@, "重庆卫视"@, "https://live.cqnews.net/livestream/cqws_720p/playlist.m3u8"@),
        is_builtin(5, "tianjin"@, "天津卫视"@, "https://iptv.hitv.com/tianjin/index.m3u8"@),
        is_builtin(6, "liaoning"@, "辽宁卫视"@, "https://lntv-live.lntv.cn/lntvlive/lnws/index.m3u8"@),
        is_builtin(7, "jilin"@, "吉林卫视"@, "https://live.jlntv.cn/jlntv/ws/index.m3u8"@),
        is_builtin(8, "heilongjiang"@, "黑龙江卫视"@, "https://hljlive.hljntv.cn/hljlive/weishi/index.m3u8"@),
        is_builtin(9, "shanxi_ws"@, "山西卫视"@, "https://live.sxtvs.net/sxtvs/sxws/index.m3u8"@),
        is_builtin(10, "shanxi2_ws"@, "陕西卫视"@, "https://live.sxrtv.com/sxrtv/sxws/index.m3u8"@),
        is_builtin(11, "sichuan"@, "四川卫视"@, "https://sclive.scstv.com/sctv/scws/playlist.m3u8"@),
        is_builtin(12, "yunnan"@, "云南卫视"@, "https://ynlive.yntv.cn/yntv/ynws/index.m3u8"@),
        is_builtin(13, "guizhou"@, "贵州卫视"@, "https://gzlive.gztv.com/gztv/gzws/index.m3u8"@),
        is_builtin(14, "guangxi"@, "广西卫视"@, "https://live.gxtv.cn/gxtv/gxws/index.m3u8"@),
        is_builtin(15, "neimenggu"@, "内蒙古卫视"@, "https://iptv.nmgtv.cn/nmgtv/nmws/index.m3u8"@),
        is_builtin(16, "xinjiang"@, "新疆卫视"@, "https://live.xjtvs.com.cn/xjtvs/xjws/index.m3u8"@),
        is_builtin(17, "xizang"@, "西藏卫视"@, "https://live.xzrtv.cn/xzrtv/xzws/index.m3u8"@),
        is_builtin(18, "gansu"@, "甘肃卫视"@, "https://live.gstv.com.cn/gstv/gsws/index.m3u8"@),
        is_builtin(19, "qinghai"@, "青海卫视"@, "https://live.qhtv.cn/qhtv/qhws/index.m3u8"@),
        is_builtin(20, "ningxia"@, "宁夏卫视"@, "https://iptv.nxtv.cn/nxtv/nxws/index.m3u8"@),
        is_builtin(21, "hainan"@, "海南卫视"@, "https://live.hitv.com/hitv/hnws/index.m3u8"@),
        is_builtin(22, "jiangxi"@, "江西卫视"@, "https://live.jxntv.cn/jxntv/jxws/index.m3u8"@),
        is_builtin(23, "henan"@, "河南卫视"@, "https://live.haolvtv.com/haolvtv/hnws/index.m3u8"@),
        is_builtin(24, "hubei"@, "湖北卫视"@, "https://live.cjyun.org/hubeitv/hbws/index.m3u8"@),
        is_builtin(25, "fujian"@, "福建卫视"@, "https://fjlive.sea.fjrtv.cn/fjrtv/fjws/index.m3u8"@),
        is_builtin(26, "fenghuang_zhongwen"@, "凤凰中文"@, "https://hls.ifeng.com/live/Phoenix_Chinese_HD/index.m3u8"@),
        is_builtin(27, "fenghuang_zixun"@, "凤凰资讯"@, "https://hls.ifeng.com/live/Phoenix_InfoNews_HD/index.m3u8"@),
        is_builtin(28, "cgtn"@, "CGTN"@, "https://news.cgtn.com/resource/live/english/cgtn-news.m3u8"@),
        is_builtin(29, "cgtndoc"@, "CGTN纪录"@, "https://news.cgtn.com/resource/live/cgtn-doc/cgtn-doc.m3u8"@),
{
}

} // verus!
