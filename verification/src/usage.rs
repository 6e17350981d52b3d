//! ChatGPT usage limits: reading the usage payload that the backend returns
//! (and that limit caches keep), classifying a profile as ok, near its limit
//! or limited, and ranking the usable profiles so that the one with the most
//! headroom comes first.
use crate::auth::{is_chatgpt_mode, opt_view, AuthMode, AuthSummary};
use crate::text::{cat, decimal, decimal_string, owned, text_less, text_lt, lemma_text_lt_asymmetric, lemma_text_lt_irreflexive, lemma_text_lt_total, lemma_text_lt_transitive};
use vstd::multiset::Multiset;
use vstd::prelude::*;

verus! {

/// The position of `100.0` in `f64::total_cmp` order.
pub const HUNDRED_ORDER: i64 = 4636737291354636288i64;

/// The position of `90.0` in `f64::total_cmp` order.
pub const NINETY_ORDER: i64 = 4636033603912859648i64;

/// The length of the five-hour window, in minutes.
pub const FIVE_HOUR_WINDOW_MINUTES: i64 = 300i64;

/// The length of the weekly window, in minutes.
pub const WEEKLY_WINDOW_MINUTES: i64 = 10080i64;

/// A usage percentage. The backend reports it as a JSON number, which is an
/// `f64`; the library compares it by `order`, the integer that
/// `f64::total_cmp` compares for that value, and shows it as `shown`, the
/// value rendered with no decimals.
#[derive(Debug)]
pub struct Percent {
    pub order: i64,
    pub shown: String,
}

impl Percent {
    /// `0.0`.
    pub fn zero() -> (p: Percent)
        ensures
            p.order == 0,
            p.shown@ == "0"@,
    {
        Percent { order: 0, shown: owned("0") }
    }

    /// `100.0`.
    pub fn hundred() -> (p: Percent)
        ensures
            p.order == HUNDRED_ORDER,
            p.shown@ == "100"@,
    {
        Percent { order: HUNDRED_ORDER, shown: owned("100") }
    }

    pub fn copy(&self) -> (p: Percent)
        ensures
            p == *self,
    {
        Percent { order: self.order, shown: self.shown.clone() }
    }
}

pub fn copy_percent(p: &Option<Percent>) -> (r: Option<Percent>)
    ensures
        r == *p,
{
    match p {
        Some(v) => Some(v.copy()),
        None => None,
    }
}

/// How close a profile is to its usage limits.
#[derive(Debug, Clone, Copy, PartialEq, Eq, Structural)]
pub enum LimitStatus {
    Normal,
    NearLimit,
    Limited,
    Unknown,
}

/// One window of a usage payload, as the fields under
/// `/rate_limit/<window>/` read: `used_percent` as a number,
/// `window_minutes` and `limit_window_seconds` as integers.
#[derive(Debug)]
pub struct PayloadWindow {
    pub used_percent: Option<Percent>,
    pub window_minutes: Option<i64>,
    pub limit_window_seconds: Option<i64>,
}

/// The parts of a usage payload that the limit logic reads:
/// `/rate_limit_reached_type/type` as a string, and the primary and
/// secondary windows.
#[derive(Debug)]
pub struct UsagePayload {
    pub reached_type: Option<String>,
    pub primary: PayloadWindow,
    pub secondary: PayloadWindow,
}

/// A usage window that reports how much of it is used.
#[derive(Debug)]
pub struct UsageWindow {
    pub used_percent: Percent,
    pub window_minutes: Option<i64>,
    pub is_secondary: bool,
}

/// Rust's `/` on integers, which rounds toward zero.
pub open spec fn div_toward_zero(a: int, b: int) -> int
    recommends
        b > 0,
{
    if a >= 0 {
        a / b
    } else {
        -((-a) / b)
    }
}

/// The length of a window in minutes. `seconds_fallback` selects the reading
/// that also accepts `limit_window_seconds` (whole minutes of it) when
/// `window_minutes` is missing.
pub open spec fn window_minutes_of(w: PayloadWindow, seconds_fallback: bool) -> Option<i64> {
    if w.window_minutes is Some {
        w.window_minutes
    } else if seconds_fallback && w.limit_window_seconds is Some {
        Some(div_toward_zero(w.limit_window_seconds->0 as int, 60) as i64)
    } else {
        None
    }
}

pub open spec fn window_of(w: PayloadWindow, is_secondary: bool, seconds_fallback: bool) -> Option<
    UsageWindow,
> {
    match w.used_percent {
        Some(p) => Some(
            UsageWindow {
                used_percent: p,
                window_minutes: window_minutes_of(w, seconds_fallback),
                is_secondary,
            },
        ),
        None => None,
    }
}

pub open spec fn opt_seq<T>(o: Option<T>) -> Seq<T> {
    match o {
        Some(v) => seq![v],
        None => seq![],
    }
}

/// The windows of a payload that report usage: the primary one, then the
/// secondary one.
pub open spec fn windows_of(p: UsagePayload, seconds_fallback: bool) -> Seq<UsageWindow> {
    opt_seq(window_of(p.primary, false, seconds_fallback)) + opt_seq(
        window_of(p.secondary, true, seconds_fallback),
    )
}

pub open spec fn max_i(a: int, b: int) -> int {
    if a < b {
        b
    } else {
        a
    }
}

/// The highest usage among the windows, starting from `0.0`.
pub open spec fn peak_order(ws: Seq<UsageWindow>) -> int
    decreases ws.len(),
{
    if ws.len() == 0 {
        0
    } else {
        max_i(peak_order(ws.drop_last()), ws.last().used_percent.order as int)
    }
}

/// How the payload classifies a profile: limited when the backend names a
/// reached limit or some window is at 100% or more; near its limit when
/// some window is at 90% or more; ok otherwise.
pub open spec fn status_of(p: UsagePayload, seconds_fallback: bool) -> LimitStatus {
    if p.reached_type matches Some(t) && t@.len() > 0 {
        LimitStatus::Limited
    } else {
        let peak = peak_order(windows_of(p, seconds_fallback));
        if peak >= HUNDRED_ORDER {
            LimitStatus::Limited
        } else if peak >= NINETY_ORDER {
            LimitStatus::NearLimit
        } else {
            LimitStatus::Normal
        }
    }
}

/// A payload window that reports usage at or above the given order.
pub open spec fn window_at_least(w: PayloadWindow, order: i64) -> bool {
    w.used_percent matches Some(x) && x.order >= order
}

/// Law: a payload is limited when the backend names a reached limit or
/// either window is at 100% or more, whatever the other window says; else
/// near its limit when either window is at 90% or more; else ok. It is never
/// unknown.
pub proof fn lemma_limit_status(p: UsagePayload, seconds_fallback: bool)
    ensures
        status_of(p, seconds_fallback) == (if (p.reached_type matches Some(t) && t@.len() > 0)
            || window_at_least(p.primary, HUNDRED_ORDER) || window_at_least(
            p.secondary,
            HUNDRED_ORDER,
        ) {
            LimitStatus::Limited
        } else if window_at_least(p.primary, NINETY_ORDER) || window_at_least(
            p.secondary,
            NINETY_ORDER,
        ) {
            LimitStatus::NearLimit
        } else {
            LimitStatus::Normal
        }),
{
    let ws = windows_of(p, seconds_fallback);
    let a = opt_seq(window_of(p.primary, false, seconds_fallback));
    let b = opt_seq(window_of(p.secondary, true, seconds_fallback));
    assert(ws == a + b);
    let pa: int = match p.primary.used_percent {
        Some(x) => x.order as int,
        None => 0,
    };
    let pb: int = match p.secondary.used_percent {
        Some(x) => x.order as int,
        None => 0,
    };
    assert(peak_order(Seq::<UsageWindow>::empty()) == 0);
    if a.len() == 0 {
        assert(peak_order(a) == 0);
    } else {
        assert(a.drop_last() =~= Seq::<UsageWindow>::empty());
        assert(peak_order(a) == max_i(0, pa));
    }
    if b.len() == 0 {
        assert(ws =~= a);
        assert(peak_order(ws) == peak_order(a));
    } else {
        assert(ws.drop_last() =~= a);
        assert(ws.last() == b[0]);
        assert(peak_order(ws) == max_i(peak_order(a), pb));
    }
    assert(HUNDRED_ORDER > 0 && NINETY_ORDER > 0 && NINETY_ORDER < HUNDRED_ORDER);
}

/// A window is the five-hour or the weekly one when its length is within 5%
/// of that window's length, the length taken as at least zero: the test
/// `m >= expected * 0.95 && m <= expected * 1.05`. For the two window
/// lengths used, `expected * 0.95` and `expected * 1.05` are whole numbers,
/// so it is written here in integers.
pub open spec fn approximately(minutes: int, expected: int) -> bool {
    let m = if minutes < 0 {
        0
    } else {
        minutes
    };
    100 * m >= 95 * expected && 100 * m <= 105 * expected
}

/// The usage windows that a report labels.
#[derive(Debug, Clone, Copy, PartialEq, Eq, Structural)]
pub enum WindowLabel {
    FiveHour,
    Weekly,
}

pub open spec fn label_minutes(label: WindowLabel) -> int {
    match label {
        WindowLabel::FiveHour => FIVE_HOUR_WINDOW_MINUTES as int,
        WindowLabel::Weekly => WEEKLY_WINDOW_MINUTES as int,
    }
}

pub open spec fn matches_label(minutes: Option<i64>, label: WindowLabel) -> bool {
    minutes matches Some(m) && approximately(m as int, label_minutes(label))
}

pub open spec fn is_fallback_for(w: UsageWindow, label: WindowLabel) -> bool {
    match label {
        WindowLabel::FiveHour => !w.is_secondary,
        WindowLabel::Weekly => w.is_secondary,
    }
}

/// The first window whose length matches the label.
pub open spec fn first_matching(ws: Seq<UsageWindow>, label: WindowLabel) -> Option<Percent>
    decreases ws.len(),
{
    if ws.len() == 0 {
        None
    } else if matches_label(ws[0].window_minutes, label) {
        Some(ws[0].used_percent)
    } else {
        first_matching(ws.drop_first(), label)
    }
}

/// The first window in the label's position (primary for five hours,
/// secondary for weekly).
pub open spec fn first_fallback(ws: Seq<UsageWindow>, label: WindowLabel) -> Option<Percent>
    decreases ws.len(),
{
    if ws.len() == 0 {
        None
    } else if is_fallback_for(ws[0], label) {
        Some(ws[0].used_percent)
    } else {
        first_fallback(ws.drop_first(), label)
    }
}

/// The usage a report shows for a label: the window whose length matches the
/// label, or else the window in the label's position.
pub open spec fn labeled_percent(p: UsagePayload, label: WindowLabel, seconds_fallback: bool) -> Option<Percent> {
    let ws = windows_of(p, seconds_fallback);
    if first_matching(ws, label) is Some {
        first_matching(ws, label)
    } else {
        first_fallback(ws, label)
    }
}

/// Whether a window of `minutes` minutes is within 5% of `expected` minutes.
pub fn is_approximate_window(minutes: i64, expected_minutes: i64) -> (b: bool)
    ensures
        b == approximately(minutes as int, expected_minutes as int),
{
    let m: i128 = if minutes < 0 {
        0
    } else {
        minutes as i128
    };
    let e: i128 = expected_minutes as i128;
    100 * m >= 95 * e && 100 * m <= 105 * e
}

/// Whether a window of the given length is the labeled one.
pub fn matches_window_label(window_minutes: Option<i64>, label: WindowLabel) -> (b: bool)
    ensures
        b == matches_label(window_minutes, label),
{
    match window_minutes {
        None => false,
        Some(m) => match label {
            WindowLabel::FiveHour => is_approximate_window(m, FIVE_HOUR_WINDOW_MINUTES),
            WindowLabel::Weekly => is_approximate_window(m, WEEKLY_WINDOW_MINUTES),
        },
    }
}

fn whole_minutes(seconds: i64) -> (m: i64)
    ensures
        m as int == div_toward_zero(seconds as int, 60),
{
    if seconds >= 0 {
        seconds / 60
    } else {
        let pos: i128 = -(seconds as i128);
        let q: i128 = pos / 60;
        (-q) as i64
    }
}

/// The usage window under one payload window, if it reports usage.
pub fn usage_window(w: &PayloadWindow, is_secondary: bool, seconds_fallback: bool) -> (r: Option<
    UsageWindow,
>)
    ensures
        r == window_of(*w, is_secondary, seconds_fallback),
{
    match &w.used_percent {
        None => None,
        Some(p) => {
            let minutes = match w.window_minutes {
                Some(m) => Some(m),
                None => if seconds_fallback {
                    match w.limit_window_seconds {
                        Some(s) => Some(whole_minutes(s)),
                        None => None,
                    }
                } else {
                    None
                },
            };
            Some(UsageWindow { used_percent: p.copy(), window_minutes: minutes, is_secondary })
        },
    }
}

/// The windows of a payload that report usage, primary first.
pub fn usage_windows(p: &UsagePayload, seconds_fallback: bool) -> (r: Vec<UsageWindow>)
    ensures
        r@ == windows_of(*p, seconds_fallback),
{
    let mut ws: Vec<UsageWindow> = Vec::new();
    if let Some(w) = usage_window(&p.primary, false, seconds_fallback) {
        ws.push(w);
    }
    if let Some(w) = usage_window(&p.secondary, true, seconds_fallback) {
        ws.push(w);
    }
    assert(ws@ =~= windows_of(*p, seconds_fallback));
    ws
}

/// Classifies the usage a payload reports (see `status_of`).
pub fn classify_limit_status(p: &UsagePayload, seconds_fallback: bool) -> (s: LimitStatus)
    ensures
        s == status_of(*p, seconds_fallback),
{
    if let Some(t) = &p.reached_type {
        if t.as_str().unicode_len() > 0 {
            return LimitStatus::Limited;
        }
    }
    let ws = usage_windows(p, seconds_fallback);
    let mut peak: i64 = 0;
    let mut i: usize = 0;
    while i < ws.len()
        invariant
            i <= ws.len(),
            peak as int == peak_order(ws@.subrange(0, i as int)),
        decreases ws.len() - i,
    {
        assert(ws@.subrange(0, i + 1).drop_last() =~= ws@.subrange(0, i as int));
        if peak < ws[i].used_percent.order {
            peak = ws[i].used_percent.order;
        }
        i = i + 1;
    }
    assert(ws@.subrange(0, ws.len() as int) =~= ws@);
    if peak >= HUNDRED_ORDER {
        LimitStatus::Limited
    } else if peak >= NINETY_ORDER {
        LimitStatus::NearLimit
    } else {
        LimitStatus::Normal
    }
}

/// The usage a report shows for a label (see `labeled_percent`).
pub fn labeled_window_percent(p: &UsagePayload, label: WindowLabel, seconds_fallback: bool) -> (r:
    Option<Percent>)
    ensures
        r == labeled_percent(*p, label, seconds_fallback),
{
    let ws = usage_windows(p, seconds_fallback);
    let ghost s = ws@;
    let mut i: usize = 0;
    assert(s.subrange(0, s.len() as int) =~= s);
    while i < ws.len()
        invariant
            i <= ws.len(),
            s == ws@,
            s == windows_of(*p, seconds_fallback),
            first_matching(s, label) == first_matching(s.subrange(i as int, s.len() as int), label),
        decreases ws.len() - i,
    {
        assert(s.subrange(i as int, s.len() as int).drop_first() =~= s.subrange(
            i + 1,
            s.len() as int,
        ));
        assert(s.subrange(i as int, s.len() as int)[0] == ws@[i as int]);
        if matches_window_label(ws[i].window_minutes, label) {
            return Some(ws[i].used_percent.copy());
        }
        i = i + 1;
    }
    assert(s.subrange(s.len() as int, s.len() as int).len() == 0);
    let mut k: usize = 0;
    while k < ws.len()
        invariant
            k <= ws.len(),
            s == ws@,
            s == windows_of(*p, seconds_fallback),
            first_matching(s, label) is None,
            first_fallback(s, label) == first_fallback(s.subrange(k as int, s.len() as int), label),
        decreases ws.len() - k,
    {
        assert(s.subrange(k as int, s.len() as int).drop_first() =~= s.subrange(
            k + 1,
            s.len() as int,
        ));
        assert(s.subrange(k as int, s.len() as int)[0] == ws@[k as int]);
        let hit = match label {
            WindowLabel::FiveHour => !ws[k].is_secondary,
            WindowLabel::Weekly => ws[k].is_secondary,
        };
        if hit {
            return Some(ws[k].used_percent.copy());
        }
        k = k + 1;
    }
    assert(s.subrange(s.len() as int, s.len() as int).len() == 0);
    None
}

/// A profile's usage-limit report.
#[derive(Debug)]
pub struct LimitReport {
    pub name: String,
    pub status: LimitStatus,
    pub five_hour_percent: Option<Percent>,
    pub weekly_percent: Option<Percent>,
    pub source: String,
    pub detail: String,
}

/// A limit cache entry, as the logic reads it.
#[derive(Debug)]
pub struct LimitCache {
    pub version: u32,
    pub account_id: String,
    pub observed_at: u64,
    pub status: LimitStatus,
    pub payload: UsagePayload,
}

pub fn copy_report(r: &LimitReport) -> (c: LimitReport)
    ensures
        c == *r,
{
    LimitReport {
        name: r.name.clone(),
        status: r.status,
        five_hour_percent: copy_percent(&r.five_hour_percent),
        weekly_percent: copy_percent(&r.weekly_percent),
        source: r.source.clone(),
        detail: r.detail.clone(),
    }
}

/// A cache entry belongs to the current login when it records the login's
/// ChatGPT account.
pub fn cached_account_matches_auth(cached_account_id: &str, auth: &AuthSummary) -> (b: bool)
    ensures
        b == (opt_view(auth.account_id) == Some(cached_account_id@)),
{
    match &auth.account_id {
        Some(a) => crate::text::text_eq(a.as_str(), cached_account_id),
        None => false,
    }
}

/// The report of a profile whose login decides it without a usage lookup:
/// `None` means the usage must be looked up (a valid ChatGPT login).
pub open spec fn local_report(name: Seq<char>, auth: Option<AuthSummary>, r: Option<LimitReport>) -> bool {
    match auth {
        None => r matches Some(rep) && rep.name@ == name && rep.status == LimitStatus::Unknown
            && rep.five_hour_percent is None && rep.weekly_percent is None && rep.source@ == "local"@
            && rep.detail@ == "missing or invalid auth.json"@,
        Some(a) => if !a.valid {
            r matches Some(rep) && rep.name@ == name && rep.status == LimitStatus::Unknown
                && rep.five_hour_percent is None && rep.weekly_percent is None && rep.source@
                == "local"@ && rep.detail@ == a.message@
        } else if !is_chatgpt_mode(a.mode) {
            r matches Some(rep) && rep.name@ == name && rep.status == LimitStatus::Normal && (
            rep.five_hour_percent matches Some(p) && p.order == 0 && p.shown@ == "0"@) && (
            rep.weekly_percent matches Some(p) && p.order == 0 && p.shown@ == "0"@) && rep.source@
                == "auth"@ && rep.detail@ == "limits not applicable for "@ + a.message@
        } else {
            r is None
        },
    }
}

/// Decides a profile's report from its login alone when no usage lookup is
/// needed: a missing or unreadable `auth.json` or invalid credentials make
/// the status unknown, and a login that is not ChatGPT has no limits.
pub fn limit_report_from_auth(name: &str, auth: Option<&AuthSummary>) -> (r: Option<LimitReport>)
    ensures
        local_report(name@, match auth { Some(a) => Some(*a), None => None }, r),
{
    match auth {
        None => Some(
            LimitReport {
                name: owned(name),
                status: LimitStatus::Unknown,
                five_hour_percent: None,
                weekly_percent: None,
                source: owned("local"),
                detail: owned("missing or invalid auth.json"),
            },
        ),
        Some(a) => {
            if !a.valid {
                Some(
                    LimitReport {
                        name: owned(name),
                        status: LimitStatus::Unknown,
                        five_hour_percent: None,
                        weekly_percent: None,
                        source: owned("local"),
                        detail: a.message.clone(),
                    },
                )
            } else if !(a.mode == AuthMode::Chatgpt || a.mode == AuthMode::ChatgptAuthTokens) {
                Some(
                    LimitReport {
                        name: owned(name),
                        status: LimitStatus::Normal,
                        five_hour_percent: Some(Percent::zero()),
                        weekly_percent: Some(Percent::zero()),
                        source: owned("auth"),
                        detail: cat("limits not applicable for ", a.message.as_str()),
                    },
                )
            } else {
                None
            }
        },
    }
}

/// The report of a profile whose usage lookup failed.
pub fn failed_lookup_report(name: &str, error: &str) -> (r: LimitReport)
    ensures
        r.name@ == name@,
        r.status == LimitStatus::Unknown,
        r.five_hour_percent is None,
        r.weekly_percent is None,
        r.source@ == "remote"@,
        r.detail@ == error@,
{
    LimitReport {
        name: owned(name),
        status: LimitStatus::Unknown,
        five_hour_percent: None,
        weekly_percent: None,
        source: owned("remote"),
        detail: owned(error),
    }
}

/// The report built from a limit cache entry that came from `source`
/// (`seconds_fallback`: see `window_minutes_of`).
pub fn report_from_cache(name: &str, cache: &LimitCache, source: &str, seconds_fallback: bool) -> (r:
    LimitReport)
    ensures
        r.name@ == name@,
        r.status == cache.status,
        r.five_hour_percent == labeled_percent(
            cache.payload,
            WindowLabel::FiveHour,
            seconds_fallback,
        ),
        r.weekly_percent == labeled_percent(cache.payload, WindowLabel::Weekly, seconds_fallback),
        r.source@ == source@,
        r.detail@ == "observed="@ + decimal(cache.observed_at as nat),
{
    LimitReport {
        name: owned(name),
        status: cache.status,
        five_hour_percent: labeled_window_percent(
            &cache.payload,
            WindowLabel::FiveHour,
            seconds_fallback,
        ),
        weekly_percent: labeled_window_percent(&cache.payload, WindowLabel::Weekly, seconds_fallback),
        source: owned(source),
        detail: cat("observed=", decimal_string(cache.observed_at).as_str()),
    }
}

/// The ChatGPT access token and account id that a usage lookup sends, or
/// what is missing.
pub fn fetch_credentials(auth: &AuthSummary) -> (r: Result<(String, String), String>)
    ensures
        auth.access_token is None ==> (r matches Err(e) && e@ == "missing ChatGPT access token"@),
        auth.access_token is Some && auth.account_id is None ==> (r matches Err(e) && e@
            == "missing ChatGPT account id"@),
        auth.access_token is Some && auth.account_id is Some ==> (r matches Ok(p) && p.0@
            == auth.access_token->0@ && p.1@ == auth.account_id->0@),
{
    let token = match &auth.access_token {
        Some(t) => t.clone(),
        None => {
            return Err(owned("missing ChatGPT access token"));
        },
    };
    let account = match &auth.account_id {
        Some(a) => a.clone(),
        None => {
            return Err(owned("missing ChatGPT account id"));
        },
    };
    Ok((token, account))
}

/// The usage endpoint: `CODEX_PROFILES_LIMITS_URL` when set, else the
/// ChatGPT backend's.
pub fn limits_url(env_url: Option<String>) -> (r: String)
    ensures
        r@ == (match env_url {
            Some(u) => u@,
            None => "https://chatgpt.com/backend-api/wham/usage"@,
        }),
{
    match env_url {
        Some(u) => u,
        None => owned("https://chatgpt.com/backend-api/wham/usage"),
    }
}

/// The name a listing gives a status.
pub open spec fn status_text(s: LimitStatus) -> Seq<char> {
    match s {
        LimitStatus::Normal => "ok"@,
        LimitStatus::NearLimit => "near-limit"@,
        LimitStatus::Limited => "limited"@,
        LimitStatus::Unknown => "unknown"@,
    }
}

pub fn status_name(s: LimitStatus) -> (r: String)
    ensures
        r@ == status_text(s),
{
    match s {
        LimitStatus::Normal => owned("ok"),
        LimitStatus::NearLimit => owned("near-limit"),
        LimitStatus::Limited => owned("limited"),
        LimitStatus::Unknown => owned("unknown"),
    }
}

/// How a percentage is shown: `-` when unknown, else the value and `%`.
pub open spec fn percent_text_of(p: Option<Percent>) -> Seq<char> {
    match p {
        Some(v) => v.shown@ + "%"@,
        None => "-"@,
    }
}

pub fn percent_text(p: &Option<Percent>) -> (r: String)
    ensures
        r@ == percent_text_of(*p),
{
    match p {
        Some(v) => cat(v.shown.as_str(), "%"),
        None => owned("-"),
    }
}

/// The order of a percentage, taking an unknown one as `100.0`.
pub open spec fn order_or_hundred(p: Option<Percent>) -> int {
    match p {
        Some(v) => v.order as int,
        None => HUNDRED_ORDER as int,
    }
}

/// How constrained a profile is: the higher of its five-hour and weekly
/// usage, an unknown usage counting as 100%.
pub open spec fn score(r: LimitReport) -> int {
    max_i(order_or_hundred(r.five_hour_percent), order_or_hundred(r.weekly_percent))
}

/// Whether report `a` ranks before report `b`: lower score first, then by
/// name.
pub open spec fn rank_lt(a: LimitReport, b: LimitReport) -> bool {
    score(a) < score(b) || (score(a) == score(b) && text_lt(a.name@, b.name@))
}

/// A profile that may be selected: its status is ok or near its limit.
pub open spec fn usable(r: LimitReport) -> bool {
    r.status == LimitStatus::Normal || r.status == LimitStatus::NearLimit
}

pub open spec fn keep_usable(s: Seq<LimitReport>) -> Seq<LimitReport>
    decreases s.len(),
{
    if s.len() == 0 {
        s
    } else if usable(s.last()) {
        keep_usable(s.drop_last()).push(s.last())
    } else {
        keep_usable(s.drop_last())
    }
}

/// Inserts `r` after every report that does not rank after it.
pub open spec fn rank_insert(s: Seq<LimitReport>, r: LimitReport) -> Seq<LimitReport>
    decreases s.len(),
{
    if s.len() == 0 {
        seq![r]
    } else if rank_lt(r, s[0]) {
        seq![r] + s
    } else {
        seq![s[0]] + rank_insert(s.drop_first(), r)
    }
}

/// The stable sort of the reports by rank.
pub open spec fn rank_sort(s: Seq<LimitReport>) -> Seq<LimitReport>
    decreases s.len(),
{
    if s.len() == 0 {
        s
    } else {
        rank_insert(rank_sort(s.drop_last()), s.last())
    }
}

/// The usable reports, best first.
pub open spec fn ranked(s: Seq<LimitReport>) -> Seq<LimitReport> {
    rank_sort(keep_usable(s))
}

pub open spec fn sorted_by_rank(s: Seq<LimitReport>) -> bool {
    forall|i: int, j: int| 0 <= i < j < s.len() ==> !rank_lt(#[trigger] s[j], #[trigger] s[i])
}

pub fn limit_score(r: &LimitReport) -> (o: i64)
    ensures
        o as int == score(*r),
{
    let five = match &r.five_hour_percent {
        Some(p) => p.order,
        None => HUNDRED_ORDER,
    };
    let weekly = match &r.weekly_percent {
        Some(p) => p.order,
        None => HUNDRED_ORDER,
    };
    if five < weekly {
        weekly
    } else {
        five
    }
}

pub fn ranks_before(a: &LimitReport, b: &LimitReport) -> (r: bool)
    ensures
        r == rank_lt(*a, *b),
{
    let sa = limit_score(a);
    let sb = limit_score(b);
    sa < sb || (sa == sb && text_less(a.name.as_str(), b.name.as_str()))
}

proof fn lemma_rank_insert_at(s: Seq<LimitReport>, r: LimitReport, j: int)
    requires
        0 <= j <= s.len(),
        forall|k: int| 0 <= k < j ==> !rank_lt(r, #[trigger] s[k]),
        j < s.len() ==> rank_lt(r, s[j]),
    ensures
        rank_insert(s, r) == s.insert(j, r),
    decreases s.len(),
{
    if s.len() == 0 {
        assert(s.insert(j, r) =~= seq![r]);
    } else if j == 0 {
        assert(s.insert(0, r) =~= seq![r] + s);
    } else {
        let t = s.drop_first();
        assert forall|k: int| 0 <= k < j - 1 implies !rank_lt(r, #[trigger] t[k]) by {
            assert(t[k] == s[k + 1]);
        }
        if j - 1 < t.len() {
            assert(t[j - 1] == s[j]);
        }
        lemma_rank_insert_at(t, r, j - 1);
        assert(s.insert(j, r) =~= seq![s[0]] + t.insert(j - 1, r));
    }
}

pub proof fn lemma_rank_lt_transitive(a: LimitReport, b: LimitReport, c: LimitReport)
    requires
        rank_lt(a, b),
        rank_lt(b, c),
    ensures
        rank_lt(a, c),
{
    if score(a) == score(b) && score(b) == score(c) {
        lemma_text_lt_transitive(a.name@, b.name@, c.name@);
    }
}

pub proof fn lemma_rank_lt_asymmetric(a: LimitReport, b: LimitReport)
    requires
        rank_lt(a, b),
    ensures
        !rank_lt(b, a),
{
    if score(a) == score(b) {
        lemma_text_lt_asymmetric(a.name@, b.name@);
    }
}

proof fn lemma_rank_insert_sorted(s: Seq<LimitReport>, r: LimitReport)
    requires
        sorted_by_rank(s),
    ensures
        sorted_by_rank(rank_insert(s, r)),
        rank_insert(s, r).to_multiset() == s.to_multiset().insert(r),
    decreases s.len(),
{
    let res = rank_insert(s, r);
    if s.len() == 0 {
        assert(res =~= seq![r]);
        assert(s =~= Seq::<LimitReport>::empty());
        assert(seq![r].to_multiset() =~= Multiset::<LimitReport>::empty().insert(r)) by {
            broadcast use vstd::seq_lib::group_to_multiset_ensures;
            assert(seq![r] =~= Seq::<LimitReport>::empty().push(r));
        }
        assert(s.to_multiset() =~= Multiset::<LimitReport>::empty()) by {
            broadcast use vstd::seq_lib::group_to_multiset_ensures;
        }
    } else if rank_lt(r, s[0]) {
        assert forall|i: int, j: int| 0 <= i < j < res.len() implies !rank_lt(
            #[trigger] res[j],
            #[trigger] res[i],
        ) by {
            if i == 0 {
                // res[0] == r, res[j] == s[j-1]
                assert(res[j] == s[j - 1]);
                if rank_lt(s[j - 1], r) {
                    if j - 1 > 0 {
                        lemma_rank_lt_transitive(s[j - 1], r, s[0]);
                        assert(!rank_lt(s[j - 1], s[0]));
                    } else {
                        lemma_rank_lt_asymmetric(r, s[0]);
                    }
                }
            } else {
                assert(res[i] == s[i - 1] && res[j] == s[j - 1]);
            }
        }
        assert(res =~= seq![r] + s);
        lemma_multiset_prepend(s, r);
    } else {
        let t = s.drop_first();
        assert(sorted_by_rank(t)) by {
            assert forall|i: int, j: int| 0 <= i < j < t.len() implies !rank_lt(
                #[trigger] t[j],
                #[trigger] t[i],
            ) by {
                assert(t[i] == s[i + 1] && t[j] == s[j + 1]);
            }
        }
        lemma_rank_insert_sorted(t, r);
        let rest = rank_insert(t, r);
        assert(res =~= seq![s[0]] + rest);
        assert forall|i: int, j: int| 0 <= i < j < res.len() implies !rank_lt(
            #[trigger] res[j],
            #[trigger] res[i],
        ) by {
            if i == 0 {
                assert(res[j] == rest[j - 1]);
                // every element of rest is r or an element of t
                assert(rest.to_multiset().count(rest[j - 1]) > 0) by {
                    broadcast use vstd::seq_lib::group_to_multiset_ensures;
                    assert(rest.contains(rest[j - 1]));
                }
                let e = rest[j - 1];
                if e != r {
                    assert(t.to_multiset().count(e) > 0);
                    assert(t.contains(e)) by {
                        broadcast use vstd::seq_lib::group_to_multiset_ensures;
                    }
                    let k = choose|k: int| 0 <= k < t.len() && t[k] == e;
                    assert(s[k + 1] == e);
                } else {
                    // !rank_lt(r, s[0]) holds in this branch
                }
            } else {
                assert(res[i] == rest[i - 1] && res[j] == rest[j - 1]);
            }
        }
        lemma_multiset_prepend(rest, s[0]);
        lemma_multiset_prepend(t, s[0]);
        assert(s =~= seq![s[0]] + t);
        assert(s.to_multiset().insert(r) =~= t.to_multiset().insert(r).insert(s[0]));
    }
}

proof fn lemma_multiset_prepend(s: Seq<LimitReport>, x: LimitReport)
    ensures
        (seq![x] + s).to_multiset() == s.to_multiset().insert(x),
{
    broadcast use vstd::seq_lib::group_to_multiset_ensures;

    vstd::seq_lib::lemma_multiset_commutative(seq![x], s);
    assert(seq![x] =~= Seq::<LimitReport>::empty().push(x));
    assert(Seq::<LimitReport>::empty().to_multiset() =~= Multiset::<LimitReport>::empty());
    assert(seq![x].to_multiset() =~= Multiset::<LimitReport>::empty().insert(x));
    assert(s.to_multiset().add(Multiset::<LimitReport>::empty().insert(x)) =~= s.to_multiset().insert(x));
}

/// The stable sort by rank is sorted and holds the same reports.
pub proof fn lemma_rank_sort_sorted(s: Seq<LimitReport>)
    ensures
        sorted_by_rank(rank_sort(s)),
        rank_sort(s).to_multiset() == s.to_multiset(),
    decreases s.len(),
{
    if s.len() == 0 {
    } else {
        lemma_rank_sort_sorted(s.drop_last());
        lemma_rank_insert_sorted(rank_sort(s.drop_last()), s.last());
        broadcast use vstd::seq_lib::group_to_multiset_ensures;
        assert(s =~= s.drop_last().push(s.last()));
    }
}

/// Only usable reports are kept, and every usable one is.
pub proof fn lemma_keep_usable(s: Seq<LimitReport>)
    ensures
        forall|i: int| 0 <= i < keep_usable(s).len() ==> usable(#[trigger] keep_usable(s)[i]),
        forall|r: LimitReport| #[trigger] keep_usable(s).to_multiset().count(r) == (if usable(r) {
            s.to_multiset().count(r)
        } else {
            0
        }),
    decreases s.len(),
{
    broadcast use vstd::seq_lib::group_to_multiset_ensures;

    if s.len() > 0 {
        lemma_keep_usable(s.drop_last());
        assert(s =~= s.drop_last().push(s.last()));
        let k = keep_usable(s.drop_last());
        if usable(s.last()) {
            assert forall|i: int| 0 <= i < keep_usable(s).len() implies usable(
                #[trigger] keep_usable(s)[i],
            ) by {
                if i < k.len() {
                    assert(keep_usable(s)[i] == k[i]);
                }
            }
        }
    } else {
        assert(s.to_multiset() =~= Multiset::<LimitReport>::empty());
    }
}

/// The ranking holds exactly the usable reports, best first.
pub proof fn lemma_ranked(s: Seq<LimitReport>)
    ensures
        sorted_by_rank(ranked(s)),
        forall|r: LimitReport| #[trigger] ranked(s).to_multiset().count(r) == (if usable(r) {
            s.to_multiset().count(r)
        } else {
            0
        }),
        forall|i: int| 0 <= i < ranked(s).len() ==> usable(#[trigger] ranked(s)[i]),
{
    lemma_keep_usable(s);
    lemma_rank_sort_sorted(keep_usable(s));
    let k = keep_usable(s);
    assert forall|i: int| 0 <= i < ranked(s).len() implies usable(#[trigger] ranked(s)[i]) by {
        broadcast use vstd::seq_lib::group_to_multiset_ensures;

        let e = ranked(s)[i];
        assert(ranked(s).contains(e));
        assert(ranked(s).to_multiset().count(e) > 0);
        assert(k.to_multiset().count(e) > 0);
        assert(k.contains(e));
        let j = choose|j: int| 0 <= j < k.len() && k[j] == e;
        assert(usable(k[j]));
    }
}

/// Law: the profile that comes first in the ranking is usable and has the
/// lowest score (the lowest of its five-hour and weekly usage maxima) among
/// all usable profiles, and among those with that score the first name.
pub proof fn lemma_best_is_least_constrained(s: Seq<LimitReport>, r: LimitReport)
    requires
        ranked(s).len() > 0,
        s.contains(r),
        usable(r),
    ensures
        usable(ranked(s)[0]),
        score(ranked(s)[0]) <= score(r),
        score(ranked(s)[0]) == score(r) ==> text_lt(ranked(s)[0].name@, r.name@) || ranked(
            s,
        )[0].name@ == r.name@,
{
    broadcast use vstd::seq_lib::group_to_multiset_ensures;

    lemma_ranked(s);
    let rk = ranked(s);
    assert(s.to_multiset().count(r) > 0);
    assert(rk.to_multiset().count(r) > 0);
    assert(rk.contains(r));
    let j = choose|j: int| 0 <= j < rk.len() && rk[j] == r;
    if j > 0 {
        assert(!rank_lt(rk[j], rk[0]));
    } else {
        lemma_text_lt_irreflexive(r.name@);
    }
    if score(rk[0]) == score(r) && rk[0].name@ != r.name@ && !text_lt(rk[0].name@, r.name@) {
        lemma_text_lt_total(rk[0].name@, r.name@);
    }
}

/// Law: the ranking is empty exactly when no report is usable.
pub proof fn lemma_ranked_empty(s: Seq<LimitReport>)
    ensures
        ranked(s).len() == 0 <==> (forall|i: int| 0 <= i < s.len() ==> !usable(#[trigger] s[i])),
{
    broadcast use vstd::seq_lib::group_to_multiset_ensures;

    lemma_ranked(s);
    if ranked(s).len() == 0 {
        assert forall|i: int| 0 <= i < s.len() implies !usable(#[trigger] s[i]) by {
            if usable(s[i]) {
                assert(s.contains(s[i]));
                assert(ranked(s).to_multiset().count(s[i]) > 0);
                assert(ranked(s).to_multiset() =~= Multiset::<LimitReport>::empty());
            }
        }
    } else {
        assert(usable(ranked(s)[0]));
        assert(ranked(s).contains(ranked(s)[0]));
        assert(ranked(s).to_multiset().count(ranked(s)[0]) > 0);
        assert(s.to_multiset().count(ranked(s)[0]) > 0);
        assert(s.contains(ranked(s)[0]));
    }
}

/// The usable reports, best first: those that are ok or near their limit,
/// sorted by the higher of their five-hour and weekly usage (unknown usage
/// counting as 100%), then by name.
pub fn ranked_profiles(reports: &Vec<LimitReport>) -> (r: Vec<LimitReport>)
    ensures
        r@ == ranked(reports@),
{
    let mut out: Vec<LimitReport> = Vec::new();
    let mut i: usize = 0;
    while i < reports.len()
        invariant
            i <= reports.len(),
            out@ == rank_sort(keep_usable(reports@.subrange(0, i as int))),
        decreases reports.len() - i,
    {
        let ghost pre = reports@.subrange(0, i as int);
        assert(reports@.subrange(0, i + 1).drop_last() =~= pre);
        assert(reports@.subrange(0, i + 1).last() == reports@[i as int]);
        let r = &reports[i];
        if r.status == LimitStatus::Normal || r.status == LimitStatus::NearLimit {
            let mut j: usize = 0;
            while j < out.len() && !ranks_before(r, &out[j])
                invariant
                    j <= out.len(),
                    forall|k: int| 0 <= k < j ==> !rank_lt(*r, #[trigger] out@[k]),
                decreases out.len() - j,
            {
                j = j + 1;
            }
            proof {
                lemma_rank_insert_at(out@, *r, j as int);
                assert(keep_usable(reports@.subrange(0, i + 1)) == keep_usable(pre).push(
                    reports@[i as int],
                ));
                let kp = keep_usable(pre).push(reports@[i as int]);
                assert(kp.drop_last() =~= keep_usable(pre));
            }
            out.insert(j, copy_report(r));
        }
        i = i + 1;
    }
    assert(reports@.subrange(0, reports.len() as int) =~= reports@);
    out
}

} // verus!
