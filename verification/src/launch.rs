//! Choosing the profile a launch runs with, the failover candidates it
//! carries, and what the `codex-profiles` commands print.
use crate::failover::{first_named, first_not_in, FailoverView, ProfileAuthCandidateConfig, ProfileAuthFailoverConfig};
use crate::profiles_root::{limit_file_of, profile_auth_of, shell_quote, shell_quoted, ProfilesRoot};
use crate::text::{cat, join_spaced, owned, pad_right, padded, spaced, texts};
use crate::usage::{
    copy_report, percent_text, percent_text_of, ranked, status_name, status_text, LimitReport,
};
use vstd::prelude::*;

verus! {

/// A launch prepared on the best usable profile: the project home it runs
/// in, the profile, the project id, and the failover setup.
#[derive(Debug)]
pub struct BestProfileLaunch {
    pub codex_home: String,
    pub active_profile: String,
    pub project_id: String,
    pub failover: ProfileAuthFailoverConfig,
}

/// The best usable profile of a ranking (see `usage::ranked_profiles`).
pub fn best_profile(ranked_reports: &Vec<LimitReport>) -> (r: Result<LimitReport, String>)
    ensures
        ranked_reports.len() == 0 ==> (r matches Err(e) && e@ == "no usable profile found"@),
        ranked_reports.len() > 0 ==> r == Ok::<LimitReport, String>(ranked_reports@[0]),
{
    if ranked_reports.len() == 0 {
        return Err(owned("no usable profile found"));
    }
    Ok(copy_report(&ranked_reports[0]))
}

/// The failover candidate for a profile: its stored login and its limit
/// cache under the root.
pub open spec fn candidate_of(root: Seq<char>, name: Seq<char>) -> (
    Seq<char>,
    Seq<char>,
    Option<Seq<char>>,
) {
    (name, profile_auth_of(root, name), Some(limit_file_of(root, name)))
}

pub open spec fn candidate_view(c: ProfileAuthCandidateConfig) -> (
    Seq<char>,
    Seq<char>,
    Option<Seq<char>>,
) {
    (
        c.name@,
        c.auth_file@,
        match c.limit_file {
            Some(f) => Some(f@),
            None => None,
        },
    )
}

/// The failover setup of a launch on a ranking: the best profile is active,
/// and every ranked profile is a candidate, in ranking order.
pub fn best_launch_failover(root: &ProfilesRoot, ranked_reports: &Vec<LimitReport>) -> (r: Result<
    ProfileAuthFailoverConfig,
    String,
>)
    ensures
        ranked_reports.len() == 0 ==> (r matches Err(e) && e@ == "no usable profile found"@),
        ranked_reports.len() > 0 ==> (r matches Ok(c) && {
            &&& c.active_profile@ == ranked_reports@[0].name@
            &&& c.candidates.len() == ranked_reports.len()
            &&& forall|i: int|
                0 <= i < ranked_reports.len() ==> candidate_view(#[trigger] c.candidates@[i])
                    == candidate_of(root.root@, ranked_reports@[i].name@)
        }),
{
    if ranked_reports.len() == 0 {
        return Err(owned("no usable profile found"));
    }
    let mut candidates: Vec<ProfileAuthCandidateConfig> = Vec::new();
    let mut i: usize = 0;
    while i < ranked_reports.len()
        invariant
            i <= ranked_reports.len(),
            candidates.len() == i,
            forall|k: int|
                0 <= k < i ==> candidate_view(#[trigger] candidates@[k]) == candidate_of(
                    root.root@,
                    ranked_reports@[k].name@,
                ),
        decreases ranked_reports.len() - i,
    {
        let name = &ranked_reports[i].name;
        candidates.push(
            ProfileAuthCandidateConfig {
                name: name.clone(),
                auth_file: root.profile_auth_file(name.as_str()),
                limit_file: Some(root.limit_file(name.as_str())),
            },
        );
        i = i + 1;
    }
    Ok(
        ProfileAuthFailoverConfig {
            active_profile: ranked_reports[0].name.clone(),
            candidates,
        },
    )
}

/// Law: a launch's failover starts on the best profile, and when nothing is
/// limited yet and the profiles' names differ, a usage limit on it switches
/// to the second-ranked profile (the active one is marked limited).
pub proof fn lemma_launch_failover_order(s: FailoverView)
    requires
        s.candidates.len() >= 1,
        s.active == s.candidates[0].name,
        s.limited == Set::<Seq<char>>::empty(),
        forall|i: int, j: int|
            0 <= i < j < s.candidates.len() ==> #[trigger] s.candidates[i].name
                != #[trigger] s.candidates[j].name,
    ensures
        s.active_candidate() == Some(s.candidates[0]),
        s.candidates.len() >= 2 ==> s.cycle() == Some(
            s.mark().switch_to(s.candidates[1].name),
        ),
        s.candidates.len() == 1 ==> s.cycle() is None,
{
    let cs = s.candidates;
    let lim = s.limited.insert(s.active);
    assert(first_named(cs, s.active) == Some(cs[0]));
    let rest = cs.drop_first();
    assert(lim.contains(cs[0].name));
    if cs.len() >= 2 {
        assert(rest[0] == cs[1]);
        assert(cs[0].name != cs[1].name);
        assert(!lim.contains(rest[0].name));
        assert(first_not_in(rest, lim) == Some(cs[1]));
        assert(first_not_in(cs, lim) == Some(cs[1]));
    } else {
        assert(rest.len() == 0);
        assert(first_not_in(rest, lim) is None);
    }
}

/// What a `codex-profiles` command reports on success.
#[derive(Debug)]
pub enum ProfilesMessage {
    RootReady { root: String },
    Created { home: String },
    Added { name: String },
    Imported { name: String },
    LoggedIn { name: String },
    Selected { name: String },
    Current { name: String, home: String },
    Removed { name: String },
    Home { home: String },
    ExportHome { home: String },
    UsingProject { id: String, name: String, home: String },
    UsingProfile { name: String, home: String },
}

pub open spec fn message_of(m: ProfilesMessage) -> Seq<char> {
    match m {
        ProfilesMessage::RootReady { root } => root@,
        ProfilesMessage::Created { home } => "created "@ + home@,
        ProfilesMessage::Added { name } => "added "@ + name@,
        ProfilesMessage::Imported { name } => "imported "@ + name@,
        ProfilesMessage::LoggedIn { name } => "logged in "@ + name@,
        ProfilesMessage::Selected { name } => "selected "@ + name@,
        ProfilesMessage::Current { name, home } => name@ + "\t"@ + home@,
        ProfilesMessage::Removed { name } => "removed "@ + name@,
        ProfilesMessage::Home { home } => home@,
        ProfilesMessage::ExportHome { home } => "export CODEX_HOME="@ + shell_quoted(home@),
        ProfilesMessage::UsingProject { id, name, home } => "Using project "@ + id@
            + " with profile "@ + name@ + "; CODEX_HOME="@ + home@,
        ProfilesMessage::UsingProfile { name, home } => "Using profile "@ + name@
            + "; CODEX_HOME="@ + home@,
    }
}

pub fn message_text(m: &ProfilesMessage) -> (r: String)
    ensures
        r@ == message_of(*m),
{
    match m {
        ProfilesMessage::RootReady { root } => root.clone(),
        ProfilesMessage::Created { home } => cat("created ", home.as_str()),
        ProfilesMessage::Added { name } => cat("added ", name.as_str()),
        ProfilesMessage::Imported { name } => cat("imported ", name.as_str()),
        ProfilesMessage::LoggedIn { name } => cat("logged in ", name.as_str()),
        ProfilesMessage::Selected { name } => cat("selected ", name.as_str()),
        ProfilesMessage::Current { name, home } => {
            let a = cat(name.as_str(), "\t");
            cat(a.as_str(), home.as_str())
        },
        ProfilesMessage::Removed { name } => cat("removed ", name.as_str()),
        ProfilesMessage::Home { home } => home.clone(),
        ProfilesMessage::ExportHome { home } => {
            let q = shell_quote(home.as_str());
            cat("export CODEX_HOME=", q.as_str())
        },
        ProfilesMessage::UsingProject { id, name, home } => {
            let a = cat("Using project ", id.as_str());
            let b = cat(a.as_str(), " with profile ");
            let c = cat(b.as_str(), name.as_str());
            let d = cat(c.as_str(), "; CODEX_HOME=");
            cat(d.as_str(), home.as_str())
        },
        ProfilesMessage::UsingProfile { name, home } => {
            let a = cat("Using profile ", name.as_str());
            let b = cat(a.as_str(), "; CODEX_HOME=");
            cat(b.as_str(), home.as_str())
        },
    }
}

/// The lines `project` prints: the id, the root and the home.
pub fn project_lines(id: &str, root: &str, home: &str) -> (r: Vec<String>)
    ensures
        texts(r@) == seq!["id\t"@ + id@, "root\t"@ + root@, "CODEX_HOME\t"@ + home@],
{
    let r = vec![cat("id\t", id), cat("root\t", root), cat("CODEX_HOME\t", home)];
    assert(texts(r@) =~= seq!["id\t"@ + id@, "root\t"@ + root@, "CODEX_HOME\t"@ + home@]);
    r
}

/// The line `best` prints for the best profile.
pub open spec fn best_line_of(r: LimitReport) -> Seq<char> {
    "best="@ + r.name@ + " status="@ + status_text(r.status) + " 5h="@ + percent_text_of(
        r.five_hour_percent,
    ) + " weekly="@ + percent_text_of(r.weekly_percent) + " "@ + r.detail@
}

pub fn best_line(r: &LimitReport) -> (s: String)
    ensures
        s@ == best_line_of(*r),
{
    let status = status_name(r.status);
    let five = percent_text(&r.five_hour_percent);
    let weekly = percent_text(&r.weekly_percent);
    let a = cat("best=", r.name.as_str());
    let b = cat(a.as_str(), " status=");
    let c = cat(b.as_str(), status.as_str());
    let d = cat(c.as_str(), " 5h=");
    let e = cat(d.as_str(), five.as_str());
    let f = cat(e.as_str(), " weekly=");
    let g = cat(f.as_str(), weekly.as_str());
    let h = cat(g.as_str(), " ");
    cat(h.as_str(), r.detail.as_str())
}

pub open spec fn limits_header() -> Seq<char> {
    padded("PROFILE"@, 24) + " "@ + padded("STATUS"@, 10) + " "@ + padded("5H"@, 10) + " "@
        + padded("WEEKLY"@, 10) + " "@ + padded("SOURCE"@, 8) + " "@ + "DETAIL"@
}

pub open spec fn limits_row(r: LimitReport) -> Seq<char> {
    padded(r.name@, 24) + " "@ + padded(status_text(r.status), 10) + " "@ + padded(
        percent_text_of(r.five_hour_percent),
        10,
    ) + " "@ + padded(percent_text_of(r.weekly_percent), 10) + " "@ + padded(r.source@, 8) + " "@
        + r.detail@
}

/// The lines `limits` prints: a header, then one row per profile.
pub fn limits_table(reports: &Vec<LimitReport>) -> (r: Vec<String>)
    ensures
        r.len() == reports.len() + 1,
        r@[0]@ == limits_header(),
        forall|i: int| 0 <= i < reports.len() ==> #[trigger] r@[i + 1]@ == limits_row(reports@[i]),
{
    let header_cells = vec![
        pad_right("PROFILE", 24),
        pad_right("STATUS", 10),
        pad_right("5H", 10),
        pad_right("WEEKLY", 10),
        pad_right("SOURCE", 8),
        owned("DETAIL"),
    ];
    let header = join_spaced(&header_cells);
    proof {
        let t = texts(header_cells@);
        assert(t.subrange(0, 5).drop_last() =~= t.subrange(0, 4));
        assert(t.subrange(0, 4).drop_last() =~= t.subrange(0, 3));
        assert(t.subrange(0, 3).drop_last() =~= t.subrange(0, 2));
        assert(t.subrange(0, 2).drop_last() =~= t.subrange(0, 1));
        assert(t.drop_last() =~= t.subrange(0, 5));
        reveal_with_fuel(spaced, 7);
        assert(spaced(t) =~= limits_header());
    }
    let mut out: Vec<String> = vec![header];
    let mut i: usize = 0;
    while i < reports.len()
        invariant
            i <= reports.len(),
            out.len() == i + 1,
            out@[0]@ == limits_header(),
            forall|k: int| 0 <= k < i ==> #[trigger] out@[k + 1]@ == limits_row(reports@[k]),
        decreases reports.len() - i,
    {
        let r = &reports[i];
        let status = status_name(r.status);
        let five = percent_text(&r.five_hour_percent);
        let weekly = percent_text(&r.weekly_percent);
        let cells = vec![
            pad_right(r.name.as_str(), 24),
            pad_right(status.as_str(), 10),
            pad_right(five.as_str(), 10),
            pad_right(weekly.as_str(), 10),
            pad_right(r.source.as_str(), 8),
            r.detail.clone(),
        ];
        let row = join_spaced(&cells);
        proof {
            let t = texts(cells@);
            assert(t.subrange(0, 5).drop_last() =~= t.subrange(0, 4));
            assert(t.subrange(0, 4).drop_last() =~= t.subrange(0, 3));
            assert(t.subrange(0, 3).drop_last() =~= t.subrange(0, 2));
            assert(t.subrange(0, 2).drop_last() =~= t.subrange(0, 1));
            assert(t.drop_last() =~= t.subrange(0, 5));
            reveal_with_fuel(spaced, 7);
            assert(spaced(t) =~= limits_row(*r));
        }
        out.push(row);
        i = i + 1;
    }
    out
}

} // verus!
