//! Profile pools: the pool file's entries checked and ordered, and the
//! health report of each entry.
use crate::auth::{
    auth_mode_name, auth_store_name, copy_opt, mode_name, opt_view, stored_auth_mode, stored_mode_problem,
    store_name, AuthCredentialsStoreMode, AuthDotJson,
};
use crate::paths::{is_absolute, join, join_path, parent_of, path_is_absolute, path_parent};
use crate::text::{
    blank, cat, decimal, decimal_string, is_blank, lemma_text_lt_total, lemma_text_lt_transitive, owned, text_eq,
    text_less, text_lt,
};
use vstd::prelude::*;

verus! {

broadcast use vstd::seq_lib::group_to_multiset_ensures;

/// A pool entry as the pool file gives it.
#[derive(Debug)]
pub struct PoolProfileToml {
    pub id: String,
    pub codex_home: String,
    pub config_profile: Option<String>,
    pub priority: i64,
    pub cooldown_seconds: Option<u64>,
}

/// The pool file.
#[derive(Debug)]
pub struct PoolToml {
    pub default_strategy: Option<String>,
    pub fallback_cooldown_seconds: Option<u64>,
    pub profiles: Vec<PoolProfileToml>,
}

/// A checked pool entry, its home resolved.
#[derive(Debug, PartialEq, Eq)]
pub struct PoolProfile {
    pub id: String,
    pub codex_home: String,
    pub config_profile: Option<String>,
    pub priority: i64,
    pub cooldown_seconds: Option<u64>,
}

/// A checked pool, entries in the order they are tried.
#[derive(Debug, PartialEq, Eq)]
pub struct PoolConfig {
    pub default_strategy: Option<String>,
    pub fallback_cooldown_seconds: Option<u64>,
    pub profiles: Vec<PoolProfile>,
}

/// A pool entry as plain values.
pub struct PoolEntryView {
    pub id: Seq<char>,
    pub codex_home: Seq<char>,
    pub config_profile: Option<Seq<char>>,
    pub priority: i64,
    pub cooldown_seconds: Option<u64>,
}

/// An entry's home: an absolute one as it is, a relative one under the
/// pool file's directory.
pub open spec fn resolved_home(base_dir: Seq<char>, home: Seq<char>) -> Seq<char> {
    if is_absolute(home) {
        home
    } else {
        join(base_dir, home)
    }
}

pub open spec fn raw_entry(p: PoolProfileToml, base_dir: Seq<char>) -> PoolEntryView {
    PoolEntryView {
        id: p.id@,
        codex_home: resolved_home(base_dir, p.codex_home@),
        config_profile: opt_view(p.config_profile),
        priority: p.priority,
        cooldown_seconds: p.cooldown_seconds,
    }
}

pub open spec fn entry_of(p: PoolProfile) -> PoolEntryView {
    PoolEntryView {
        id: p.id@,
        codex_home: p.codex_home@,
        config_profile: opt_view(p.config_profile),
        priority: p.priority,
        cooldown_seconds: p.cooldown_seconds,
    }
}

pub open spec fn raw_entries(raw: Seq<PoolProfileToml>, base_dir: Seq<char>) -> Seq<PoolEntryView> {
    raw.map_values(|p: PoolProfileToml| raw_entry(p, base_dir))
}

pub open spec fn entries(ps: Seq<PoolProfile>) -> Seq<PoolEntryView> {
    ps.map_values(|p: PoolProfile| entry_of(p))
}

pub open spec fn ids_of(raw: Seq<PoolProfileToml>) -> Seq<Seq<char>> {
    raw.map_values(|p: PoolProfileToml| p.id@)
}

/// Entry `a` is tried before entry `b`: higher priority first, then by id.
pub open spec fn tried_before(a: PoolEntryView, b: PoolEntryView) -> bool {
    a.priority > b.priority || (a.priority == b.priority && text_lt(a.id, b.id))
}

pub open spec fn pool_sorted(s: Seq<PoolEntryView>) -> bool {
    forall|i: int, j: int| 0 <= i < j < s.len() ==> tried_before(#[trigger] s[i], #[trigger] s[j])
}

/// No two entries share an id.
pub open spec fn distinct_ids(s: Seq<PoolEntryView>) -> bool {
    forall|i: int, j: int| 0 <= i < j < s.len() ==> (#[trigger] s[i]).id != (#[trigger] s[j]).id
}

/// The first entry, from `i` on, that is refused, and what is said of it:
/// a blank id, an id repeating an earlier one, or a config profile that is
/// not a valid profile name (`config_profile_ok[i]` says whether entry `i`'s
/// config profile, where it has one, is a valid profile name).
pub open spec fn first_bad_entry(raw: Seq<PoolProfileToml>, config_profile_ok: Seq<bool>, i: int) -> Option<
    Seq<char>,
>
    decreases raw.len() - i,
{
    if i < 0 || i >= raw.len() {
        None
    } else if is_blank(raw[i].id@) {
        Some("pool profile id must not be empty"@)
    } else if ids_of(raw).subrange(0, i).contains(raw[i].id@) {
        Some("duplicate pool profile id `"@ + raw[i].id@ + "`"@)
    } else if raw[i].config_profile is Some && !config_profile_ok[i] {
        Some("invalid config_profile for pool profile `"@ + raw[i].id@ + "`"@)
    } else {
        first_bad_entry(raw, config_profile_ok, i + 1)
    }
}

/// Why a pool file is refused, if it is.
pub open spec fn pool_problem(raw: Seq<PoolProfileToml>, config_profile_ok: Seq<bool>) -> Option<
    Seq<char>,
> {
    if raw.len() == 0 {
        Some("pool config must include at least one [[profiles]] entry"@)
    } else {
        first_bad_entry(raw, config_profile_ok, 0)
    }
}

pub fn resolve_pool_relative_path(base_dir: &str, path: &str) -> (r: String)
    ensures
        r@ == resolved_home(base_dir@, path@),
{
    if path_is_absolute(path) {
        owned(path)
    } else {
        join_path(base_dir, path)
    }
}

/// The directory relative homes are resolved under: the pool file's
/// parent, or `.` when it has none.
pub fn pool_base_dir(pool_path: &str) -> (r: String)
    ensures
        r@ == (match path_parent(pool_path@) {
            Some(p) => p,
            None => "."@,
        }),
{
    match parent_of(pool_path) {
        Some(p) => p,
        None => owned("."),
    }
}

proof fn lemma_tried_before_transitive(a: PoolEntryView, b: PoolEntryView, c: PoolEntryView)
    requires
        tried_before(a, b),
        tried_before(b, c),
    ensures
        tried_before(a, c),
{
    if a.priority == b.priority && b.priority == c.priority {
        lemma_text_lt_transitive(a.id, b.id, c.id);
    }
}

proof fn lemma_insert_sorted(s: Seq<PoolEntryView>, j: int, x: PoolEntryView)
    requires
        pool_sorted(s),
        0 <= j <= s.len(),
        forall|k: int| 0 <= k < j ==> tried_before(#[trigger] s[k], x),
        j < s.len() ==> tried_before(x, s[j]),
    ensures
        pool_sorted(s.insert(j, x)),
{
    let t = s.insert(j, x);
    assert forall|a: int, b: int| 0 <= a < b < t.len() implies tried_before(
        #[trigger] t[a],
        #[trigger] t[b],
    ) by {
        if a < j && b < j {
            assert(t[a] == s[a] && t[b] == s[b]);
        } else if a < j && b == j {
            assert(t[a] == s[a]);
        } else if a < j {
            assert(t[a] == s[a] && t[b] == s[b - 1]);
        } else if a == j {
            assert(t[b] == s[b - 1]);
            if b - 1 > j {
                lemma_tried_before_transitive(x, s[j], s[b - 1]);
            }
        } else {
            assert(t[a] == s[a - 1] && t[b] == s[b - 1]);
        }
    }
}

proof fn lemma_insert_distinct(s: Seq<PoolEntryView>, j: int, x: PoolEntryView)
    requires
        distinct_ids(s),
        0 <= j <= s.len(),
        forall|k: int| 0 <= k < s.len() ==> (#[trigger] s[k]).id != x.id,
    ensures
        distinct_ids(s.insert(j, x)),
{
    let t = s.insert(j, x);
    assert forall|a: int, b: int| 0 <= a < b < t.len() implies (#[trigger] t[a]).id
        != (#[trigger] t[b]).id by {
        if a < j && b < j {
            assert(t[a] == s[a] && t[b] == s[b]);
        } else if a < j && b == j {
            assert(t[a] == s[a]);
        } else if a < j {
            assert(t[a] == s[a] && t[b] == s[b - 1]);
        } else if a == j {
            assert(t[b] == s[b - 1]);
        } else {
            assert(t[a] == s[a - 1] && t[b] == s[b - 1]);
        }
    }
}

proof fn lemma_insert_multiset<A>(s: Seq<A>, j: int, x: A)
    requires
        0 <= j <= s.len(),
    ensures
        s.insert(j, x).to_multiset() =~= s.to_multiset().insert(x),
{
    let t = s.insert(j, x);
    assert(t.remove(j) =~= s);
    assert(t[j] == x);
    assert(t.contains(x));
    assert(t.to_multiset().remove(x) =~= s.to_multiset());
}

/// Whether `left` is tried before `right`.
fn tried_first(left: &PoolProfile, right: &PoolProfile) -> (b: bool)
    ensures
        b == tried_before(entry_of(*left), entry_of(*right)),
{
    left.priority > right.priority || (left.priority == right.priority && text_less(
        left.id.as_str(),
        right.id.as_str(),
    ))
}

impl PoolConfig {
    /// Checks and orders a pool file: it must have an entry, and every
    /// entry a non-blank id of its own and, where it names a config profile,
    /// a valid profile name (the first offence is reported;
    /// `config_profile_ok[i]` is the verdict of the profile-name rules on
    /// entry `i`'s config profile). Relative homes are resolved under
    /// `base_dir`, and the entries are ordered by priority, highest first,
    /// then by id.
    pub fn from_toml(raw: PoolToml, base_dir: &str, config_profile_ok: &Vec<bool>) -> (r: Result<
        PoolConfig,
        String,
    >)
        requires
            config_profile_ok.len() == raw.profiles.len(),
        ensures
            r is Err <==> pool_problem(raw.profiles@, config_profile_ok@) is Some,
            r matches Err(e) ==> pool_problem(raw.profiles@, config_profile_ok@) == Some(e@),
            r matches Ok(c) ==> {
                &&& opt_view(c.default_strategy) == opt_view(raw.default_strategy)
                &&& c.fallback_cooldown_seconds == raw.fallback_cooldown_seconds
                &&& pool_sorted(entries(c.profiles@))
                &&& distinct_ids(entries(c.profiles@))
                &&& entries(c.profiles@).to_multiset() == raw_entries(
                    raw.profiles@,
                    base_dir@,
                ).to_multiset()
            },
    {
        let n = raw.profiles.len();
        if n == 0 {
            return Err(owned("pool config must include at least one [[profiles]] entry"));
        }
        let ghost ids = ids_of(raw.profiles@);
        let ghost all = raw_entries(raw.profiles@, base_dir@);
        let mut out: Vec<PoolProfile> = Vec::new();
        let mut i: usize = 0;
        while i < n
            invariant
                n == raw.profiles.len(),
                i <= n,
                ids == ids_of(raw.profiles@),
                all == raw_entries(raw.profiles@, base_dir@),
                first_bad_entry(raw.profiles@, config_profile_ok@, 0) == first_bad_entry(
                    raw.profiles@,
                    config_profile_ok@,
                    i as int,
                ),
                config_profile_ok.len() == n,
                forall|a: int, b: int| 0 <= a < b < i ==> ids[a] != ids[b],
                pool_sorted(entries(out@)),
                distinct_ids(entries(out@)),
                entries(out@).to_multiset() == all.subrange(0, i as int).to_multiset(),
            decreases n - i,
        {
            let p = &raw.profiles[i];
            assert(ids[i as int] == p.id@);
            if blank(p.id.as_str()) {
                return Err(owned("pool profile id must not be empty"));
            }
            let mut k: usize = 0;
            while k < i
                invariant
                    k <= i,
                    i < n,
                    n == raw.profiles.len(),
                    ids == ids_of(raw.profiles@),
                    p == raw.profiles@[i as int],
                    first_bad_entry(raw.profiles@, config_profile_ok@, 0) == first_bad_entry(
                    raw.profiles@,
                    config_profile_ok@,
                    i as int,
                ),
                config_profile_ok.len() == n,
                    !is_blank(ids[i as int]),
                    forall|m: int| 0 <= m < k ==> ids[m] != ids[i as int],
                decreases i - k,
            {
                assert(ids[k as int] == raw.profiles@[k as int].id@);
                if text_eq(raw.profiles[k].id.as_str(), p.id.as_str()) {
                    assert(ids.subrange(0, i as int)[k as int] == ids[i as int]);
                    let head = cat("duplicate pool profile id `", p.id.as_str());
                    return Err(cat(head.as_str(), "`"));
                }
                k = k + 1;
            }
            if p.config_profile.is_some() && !config_profile_ok[i] {
                let head = cat("invalid config_profile for pool profile `", p.id.as_str());
                return Err(cat(head.as_str(), "`"));
            }
            assert(!ids.subrange(0, i as int).contains(ids[i as int])) by {
                if ids.subrange(0, i as int).contains(ids[i as int]) {
                    let m = choose|m: int|
                        0 <= m < i && ids.subrange(0, i as int)[m] == ids[i as int];
                    assert(ids[m] == ids[i as int]);
                }
            }
            let entry = PoolProfile {
                id: p.id.clone(),
                codex_home: resolve_pool_relative_path(base_dir, p.codex_home.as_str()),
                config_profile: copy_opt(&p.config_profile),
                priority: p.priority,
                cooldown_seconds: p.cooldown_seconds,
            };
            assert(entry_of(entry) == all[i as int]);
            let mut j: usize = 0;
            while j < out.len() && tried_first(&out[j], &entry)
                invariant
                    j <= out.len(),
                    forall|m: int| 0 <= m < j ==> tried_before(#[trigger] entries(out@)[m], entry_of(entry)),
                decreases out.len() - j,
            {
                j = j + 1;
            }
            let ghost s = entries(out@);
            proof {
                assert forall|k: int| 0 <= k < s.len() implies (#[trigger] s[k]).id != entry_of(
                    entry,
                ).id by {
                    let e = s[k];
                    assert(s.contains(e));
                    assert(s.to_multiset().count(e) > 0);
                    assert(all.subrange(0, i as int).contains(e));
                    let m = choose|m: int| 0 <= m < i && all.subrange(0, i as int)[m] == e;
                    assert(all[m] == e);
                    assert(e.id == ids[m]);
                }
                if j < out.len() {
                    let e = s[j as int];
                    assert(e.id != entry_of(entry).id);
                    if e.priority == entry.priority {
                        lemma_text_lt_total(entry.id@, e.id);
                    }
                }
                lemma_insert_distinct(s, j as int, entry_of(entry));
                lemma_insert_sorted(s, j as int, entry_of(entry));
                lemma_insert_multiset(s, j as int, entry_of(entry));
                assert(all.subrange(0, i + 1) =~= all.subrange(0, i as int).push(all[i as int]));
            }
            out.insert(j, entry);
            proof {
                assert(entries(out@) =~= s.insert(j as int, entry_of(entry)));
                assert(first_bad_entry(raw.profiles@, config_profile_ok@, i as int) == first_bad_entry(
                    raw.profiles@,
                    config_profile_ok@,
                    i + 1,
                ));
                assert forall|a: int, b: int| 0 <= a < b < i + 1 implies ids[a] != ids[b] by {
                    if b == i {
                        assert(ids.subrange(0, i as int)[a] == ids[a]);
                    }
                }
            }
            i = i + 1;
        }
        proof {
            assert(all.subrange(0, n as int) =~= all);
            assert(first_bad_entry(raw.profiles@, config_profile_ok@, n as int) is None);
        }
        Ok(
            PoolConfig {
                default_strategy: copy_opt(&raw.default_strategy),
                fallback_cooldown_seconds: raw.fallback_cooldown_seconds,
                profiles: out,
            },
        )
    }
}

/// The outcome of one health check.
#[derive(Debug, Clone, Copy, PartialEq, Eq, Structural)]
pub enum HealthStatus {
    Pass,
    Fail,
}

/// One health check's outcome and what it found.
#[derive(Debug)]
pub struct CheckResult {
    pub status: HealthStatus,
    pub message: String,
}

/// What loading an entry's stored credentials gave: the stored login, none
/// in the configured store, or an error.
#[derive(Debug)]
pub enum AuthLoad {
    Stored(AuthDotJson),
    Missing(AuthCredentialsStoreMode),
    Failed(String),
}

/// The health of one pool entry.
#[derive(Debug)]
pub struct ProfileStatus {
    pub id: String,
    pub codex_home: String,
    pub config_profile: Option<String>,
    pub priority: i64,
    pub cooldown_seconds: Option<u64>,
    pub status: HealthStatus,
    pub config: CheckResult,
    pub auth: CheckResult,
}

/// The health report of a pool.
#[derive(Debug)]
pub struct PoolStatusOutput {
    pub pool: String,
    pub default_strategy: Option<String>,
    pub fallback_cooldown_seconds: Option<u64>,
    pub profiles: Vec<ProfileStatus>,
}

/// The auth check of an entry whose configuration loaded.
pub open spec fn auth_check_of(load: AuthLoad, c: CheckResult) -> bool {
    match load {
        AuthLoad::Stored(auth) => match stored_mode_problem(auth) {
            None => c.status == HealthStatus::Pass && c.message@ == mode_name(
                crate::auth::resolved_mode(auth),
            ),
            Some(p) => c.status == HealthStatus::Fail && c.message@ == p,
        },
        AuthLoad::Missing(store) => c.status == HealthStatus::Fail && c.message@
            == "no stored credentials found in "@ + store_name(store) + " auth storage"@,
        AuthLoad::Failed(e) => c.status == HealthStatus::Fail && c.message@
            == "failed to load auth storage: "@ + e@,
    }
}

/// Law: stored credentials that hold only an OpenAI API key (no recorded
/// mode, no personal access token, no Bedrock key) pass the auth check as
/// `api_key` when the key is not blank, and fail with the missing-key
/// complaint when it is.
pub proof fn lemma_api_key_only_login(auth: AuthDotJson, c: CheckResult)
    requires
        auth.auth_mode is None,
        auth.personal_access_token is None,
        auth.bedrock_api_key is None,
        auth.openai_api_key is Some,
        auth_check_of(AuthLoad::Stored(auth), c),
    ensures
        !is_blank(auth.openai_api_key->0@) ==> c.status == HealthStatus::Pass && c.message@
            == "api_key"@,
        is_blank(auth.openai_api_key->0@) ==> c.status == HealthStatus::Fail && c.message@
            == "API key auth is missing a key"@,
{
}

pub fn check_auth(load: &AuthLoad) -> (c: CheckResult)
    ensures
        auth_check_of(*load, c),
{
    match load {
        AuthLoad::Stored(auth) => match stored_auth_mode(auth) {
            Ok(mode) => CheckResult { status: HealthStatus::Pass, message: auth_mode_name(mode) },
            Err(message) => CheckResult { status: HealthStatus::Fail, message },
        },
        AuthLoad::Missing(store) => {
            let name = auth_store_name(*store);
            let head = cat("no stored credentials found in ", name.as_str());
            CheckResult {
                status: HealthStatus::Fail,
                message: cat(head.as_str(), " auth storage"),
            }
        },
        AuthLoad::Failed(e) => CheckResult {
            status: HealthStatus::Fail,
            message: cat("failed to load auth storage: ", e.as_str()),
        },
    }
}

/// The health of an entry from how loading its configuration went: when it
/// loaded, the configuration passes and its stored credentials are checked;
/// when it did not, both fail. The entry passes when both checks pass.
pub fn check_profile(profile: &PoolProfile, config_load: &Result<AuthLoad, String>) -> (r:
    ProfileStatus)
    ensures
        r.id@ == profile.id@,
        r.codex_home@ == profile.codex_home@,
        opt_view(r.config_profile) == opt_view(profile.config_profile),
        r.priority == profile.priority,
        r.cooldown_seconds == profile.cooldown_seconds,
        match config_load {
            Ok(load) => r.config.status == HealthStatus::Pass && r.config.message@ == "ok"@
                && auth_check_of(*load, r.auth),
            Err(e) => r.config.status == HealthStatus::Fail && r.config.message@ == e@
                && r.auth.status == HealthStatus::Fail && r.auth.message@
                == "skipped because config did not load"@,
        },
        r.status == (if r.config.status == HealthStatus::Pass && r.auth.status
            == HealthStatus::Pass {
            HealthStatus::Pass
        } else {
            HealthStatus::Fail
        }),
{
    let (config, auth) = match config_load {
        Ok(load) => (
            CheckResult { status: HealthStatus::Pass, message: owned("ok") },
            check_auth(load),
        ),
        Err(e) => (
            CheckResult { status: HealthStatus::Fail, message: e.clone() },
            CheckResult {
                status: HealthStatus::Fail,
                message: owned("skipped because config did not load"),
            },
        ),
    };
    let status = if config.status == HealthStatus::Pass && auth.status == HealthStatus::Pass {
        HealthStatus::Pass
    } else {
        HealthStatus::Fail
    };
    ProfileStatus {
        id: profile.id.clone(),
        codex_home: profile.codex_home.clone(),
        config_profile: copy_opt(&profile.config_profile),
        priority: profile.priority,
        cooldown_seconds: profile.cooldown_seconds,
        status,
        config,
        auth,
    }
}

/// Whether some entry of the report failed.
pub fn any_failed(output: &PoolStatusOutput) -> (b: bool)
    ensures
        b == exists|i: int|
            0 <= i < output.profiles.len() && (#[trigger] output.profiles@[i]).status
                == HealthStatus::Fail,
{
    let mut i: usize = 0;
    while i < output.profiles.len()
        invariant
            i <= output.profiles.len(),
            forall|k: int| 0 <= k < i ==> (#[trigger] output.profiles@[k]).status != HealthStatus::Fail,
        decreases output.profiles.len() - i,
    {
        if output.profiles[i].status == HealthStatus::Fail {
            return true;
        }
        i = i + 1;
    }
    false
}

/// The verdict of `pool test`: an error when some entry failed.
pub fn pool_test_verdict(output: &PoolStatusOutput) -> (r: Result<(), String>)
    ensures
        r is Ok <==> forall|i: int|
            0 <= i < output.profiles.len() ==> (#[trigger] output.profiles@[i]).status
                != HealthStatus::Fail,
        r matches Err(e) ==> e@ == "one or more pool profiles failed validation"@,
{
    if any_failed(output) {
        Err(owned("one or more pool profiles failed validation"))
    } else {
        Ok(())
    }
}

/// The decimal rendering of a signed integer.
pub open spec fn signed_decimal(n: int) -> Seq<char> {
    if n < 0 {
        "-"@ + decimal((-n) as nat)
    } else {
        decimal(n as nat)
    }
}

pub fn signed_decimal_string(n: i64) -> (r: String)
    ensures
        r@ == signed_decimal(n as int),
{
    if n < 0 {
        let magnitude: u64 = if n == i64::MIN {
            9223372036854775808u64
        } else {
            (-n) as u64
        };
        let digits = decimal_string(magnitude);
        cat("-", digits.as_str())
    } else {
        decimal_string(n as u64)
    }
}

pub open spec fn health_text(s: HealthStatus) -> Seq<char> {
    match s {
        HealthStatus::Pass => "ok"@,
        HealthStatus::Fail => "fail"@,
    }
}

/// The lines a report shows for one entry: its summary, then the
/// configuration's and the credentials' complaints when they failed.
pub open spec fn status_lines_of(p: ProfileStatus) -> Seq<Seq<char>> {
    seq![
        p.id@ + " "@ + health_text(p.status) + " priority="@ + signed_decimal(p.priority as int)
            + " home="@ + p.codex_home@ + " config_profile="@ + (match p.config_profile {
            Some(c) => c@,
            None => "-"@,
        }) + " auth="@ + p.auth.message@,
    ] + (if p.config.status == HealthStatus::Fail {
        seq!["  config: "@ + p.config.message@]
    } else {
        seq![]
    }) + (if p.auth.status == HealthStatus::Fail {
        seq!["  auth: "@ + p.auth.message@]
    } else {
        seq![]
    })
}

pub open spec fn report_lines_of(ps: Seq<ProfileStatus>) -> Seq<Seq<char>>
    decreases ps.len(),
{
    if ps.len() == 0 {
        seq![]
    } else {
        report_lines_of(ps.drop_last()) + status_lines_of(ps.last())
    }
}

fn health_name(s: HealthStatus) -> (r: String)
    ensures
        r@ == health_text(s),
{
    match s {
        HealthStatus::Pass => owned("ok"),
        HealthStatus::Fail => owned("fail"),
    }
}

/// The text report of a pool's health: a heading naming the pool file, then
/// each entry's lines.
pub fn pool_status_lines(output: &PoolStatusOutput) -> (r: Vec<String>)
    ensures
        r@.map_values(|s: String| s@) == seq!["Profile pool: "@ + output.pool@] + report_lines_of(
            output.profiles@,
        ),
{
    let mut out: Vec<String> = Vec::new();
    out.push(cat("Profile pool: ", output.pool.as_str()));
    let mut i: usize = 0;
    while i < output.profiles.len()
        invariant
            i <= output.profiles.len(),
            out@.map_values(|s: String| s@) == seq!["Profile pool: "@ + output.pool@]
                + report_lines_of(output.profiles@.subrange(0, i as int)),
        decreases output.profiles.len() - i,
    {
        let p = &output.profiles[i];
        let ghost before = out@.map_values(|s: String| s@);
        let status = health_name(p.status);
        let priority = signed_decimal_string(p.priority);
        let config_profile = match &p.config_profile {
            Some(c) => c.clone(),
            None => owned("-"),
        };
        let a = cat(p.id.as_str(), " ");
        let b = cat(a.as_str(), status.as_str());
        let c = cat(b.as_str(), " priority=");
        let d = cat(c.as_str(), priority.as_str());
        let e = cat(d.as_str(), " home=");
        let f = cat(e.as_str(), p.codex_home.as_str());
        let g = cat(f.as_str(), " config_profile=");
        let h = cat(g.as_str(), config_profile.as_str());
        let k = cat(h.as_str(), " auth=");
        let line = cat(k.as_str(), p.auth.message.as_str());
        out.push(line);
        let ghost mut added: Seq<Seq<char>> = seq![line@];
        if p.config.status == HealthStatus::Fail {
            let l = cat("  config: ", p.config.message.as_str());
            proof {
                added = added.push(l@);
            }
            out.push(l);
        }
        if p.auth.status == HealthStatus::Fail {
            let l = cat("  auth: ", p.auth.message.as_str());
            proof {
                added = added.push(l@);
            }
            out.push(l);
        }
        proof {
            assert(out@.map_values(|s: String| s@) =~= before + added);
            assert(added =~= status_lines_of(*p));
            let q = output.profiles@.subrange(0, i + 1);
            assert(q.drop_last() =~= output.profiles@.subrange(0, i as int));
            assert(q.last() == *p);
        }
        i = i + 1;
    }
    assert(output.profiles@.subrange(0, output.profiles.len() as int) =~= output.profiles@);
    out
}

} // verus!
