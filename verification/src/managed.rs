//! The summary shown after the managed profiles' usage limits are
//! refreshed.
use crate::text::{cat, decimal, owned, usize_decimal};
use crate::usage::{
    percent_text, percent_text_of, ranked, ranked_profiles, LimitReport,
    LimitStatus,
};
use vstd::prelude::*;

verus! {

/// How many reports have status `st`.
pub open spec fn count_status(s: Seq<LimitReport>, st: LimitStatus) -> nat
    decreases s.len(),
{
    if s.len() == 0 {
        0
    } else {
        count_status(s.drop_last(), st) + (if s.last().status == st {
            1nat
        } else {
            0nat
        })
    }
}

pub open spec fn plural(n: nat) -> Seq<char> {
    if n == 1 {
        ""@
    } else {
        "s"@
    }
}

/// The plural ending for a count of things: none for one, `s` otherwise.
pub fn plural_suffix(count: usize) -> (r: String)
    ensures
        r@ == plural(count as nat),
{
    if count == 1 {
        owned("")
    } else {
        owned("s")
    }
}

/// Which profile is best, if any is usable (see `usage::ranked`).
pub open spec fn availability_of(s: Seq<LimitReport>) -> Seq<char> {
    if ranked(s).len() > 0 {
        "Best available: `"@ + ranked(s)[0].name@ + "` (5h "@ + percent_text_of(
            ranked(s)[0].five_hour_percent,
        ) + ", weekly "@ + percent_text_of(ranked(s)[0].weekly_percent) + ")."@
    } else {
        "No usable managed profile is currently available."@
    }
}

/// The counts of limited and unknown profiles, where there are any.
pub open spec fn tally_of(s: Seq<LimitReport>) -> Seq<char> {
    let limited = count_status(s, LimitStatus::Limited);
    let unknown = count_status(s, LimitStatus::Unknown);
    if limited > 0 && unknown > 0 {
        " ("@ + decimal(limited) + " limited, "@ + decimal(unknown) + " unknown)"@
    } else if limited > 0 {
        " ("@ + decimal(limited) + " limited)"@
    } else if unknown > 0 {
        " ("@ + decimal(unknown) + " unknown)"@
    } else {
        ""@
    }
}

/// The refresh summary for the managed profiles' reports.
pub open spec fn refresh_message_of(s: Seq<LimitReport>) -> Seq<char> {
    if s.len() == 0 {
        "No managed profiles found. Add one with `codex-profiles add NAME`."@
    } else {
        "Refreshed "@ + decimal(s.len()) + " managed profile"@ + plural(s.len()) + ". "@
            + availability_of(s) + tally_of(s)
    }
}

/// Whether a report has status `st`.
pub open spec fn has_status(st: LimitStatus) -> spec_fn(LimitReport) -> bool {
    |r: LimitReport| r.status == st
}

/// Law: the count of reports with a status is the number of such reports,
/// and it is positive exactly when some report has that status.
pub proof fn lemma_count_status(s: Seq<LimitReport>, st: LimitStatus)
    ensures
        count_status(s, st) == s.filter(has_status(st)).len(),
        count_status(s, st) > 0 <==> exists|i: int| 0 <= i < s.len() && (#[trigger] s[i]).status == st,
    decreases s.len(),
{
    reveal(Seq::filter);
    if s.len() > 0 {
        lemma_count_status(s.drop_last(), st);
        if exists|i: int| 0 <= i < s.drop_last().len() && (#[trigger] s.drop_last()[i]).status == st {
            let i = choose|i: int| 0 <= i < s.drop_last().len() && (#[trigger] s.drop_last()[i]).status == st;
            assert(s[i] == s.drop_last()[i]);
        }
        if exists|i: int| 0 <= i < s.len() && (#[trigger] s[i]).status == st {
            let i = choose|i: int| 0 <= i < s.len() && (#[trigger] s[i]).status == st;
            if i < s.len() - 1 {
                assert(s.drop_last()[i] == s[i]);
            }
        }
    }
}

/// The length of a refresh message's opening sentence, "Refreshed N managed
/// profile(s). ".
pub open spec fn head_len(s: Seq<LimitReport>) -> int {
    ("Refreshed "@ + decimal(s.len()) + " managed profile"@ + plural(s.len()) + ". "@).len() as int
}

/// Law: a refresh of some profiles is reported as "Refreshed N managed
/// profile(s). ", followed by the best usable profile by rank with its
/// five-hour and weekly usage, or the notice that none is usable. When
/// L > 0 reports are limited or U > 0 are unknown, the message ends with the
/// parenthesized tally " (L limited)", " (L limited, U unknown)" or
/// " (U unknown)"; with neither it ends with the availability sentence's
/// full stop.
pub proof fn lemma_refresh_message_parts(s: Seq<LimitReport>)
    requires
        s.len() > 0,
    ensures
        ({
            let msg = refresh_message_of(s);
            let limited = s.filter(has_status(LimitStatus::Limited)).len();
            let unknown = s.filter(has_status(LimitStatus::Unknown)).len();
            &&& ("Refreshed "@ + decimal(s.len()) + " managed profile"@ + (if s.len() == 1 {
                ""@
            } else {
                "s"@
            }) + ". "@).is_prefix_of(msg)
            &&& ranked(s).len() > 0 ==> ("Best available: `"@ + ranked(s)[0].name@ + "` (5h "@
                + percent_text_of(ranked(s)[0].five_hour_percent) + ", weekly "@
                + percent_text_of(ranked(s)[0].weekly_percent) + ")."@).is_prefix_of(
                msg.subrange(head_len(s), msg.len() as int),
            )
            &&& ranked(s).len() == 0 ==> ("No usable managed profile is currently available."@).is_prefix_of(
                msg.subrange(head_len(s), msg.len() as int),
            )
            &&& limited > 0 && unknown == 0 ==> (" ("@ + decimal(limited)
                + " limited)"@).is_suffix_of(msg)
            &&& limited > 0 && unknown > 0 ==> (" ("@ + decimal(limited) + " limited, "@
                + decimal(unknown) + " unknown)"@).is_suffix_of(msg)
            &&& limited == 0 && unknown > 0 ==> (" ("@ + decimal(unknown)
                + " unknown)"@).is_suffix_of(msg)
            &&& limited == 0 && unknown == 0 ==> msg.last() == '.'
        }),
{
    lemma_count_status(s, LimitStatus::Limited);
    lemma_count_status(s, LimitStatus::Unknown);
    let limited = count_status(s, LimitStatus::Limited);
    let unknown = count_status(s, LimitStatus::Unknown);
    let head = "Refreshed "@ + decimal(s.len()) + " managed profile"@ + plural(s.len()) + ". "@;
    let msg = refresh_message_of(s);
    let base = head + availability_of(s);
    let t = tally_of(s);
    assert(msg =~= head + (availability_of(s) + t));
    assert(msg.subrange(0, head.len() as int) =~= head);
    assert(msg =~= base + t);
    assert(msg.subrange(msg.len() - t.len(), msg.len() as int) =~= t);
    assert(head.len() == head_len(s));
    assert(msg.subrange(head_len(s), msg.len() as int) =~= availability_of(s) + t);
    assert(msg.subrange(head_len(s), msg.len() as int).subrange(0, availability_of(s).len() as int)
        =~= availability_of(s));
    if limited == 0 && unknown == 0 {
        reveal_strlit("");
        reveal_strlit(").");
        reveal_strlit("No usable managed profile is currently available.");
        assert(t =~= Seq::<char>::empty());
        assert(msg =~= base);
        assert(availability_of(s).last() == '.');
        assert(msg.last() == availability_of(s).last());
    }
}

fn count_with_status(reports: &Vec<LimitReport>, st: LimitStatus) -> (n: usize)
    ensures
        n == count_status(reports@, st),
{
    let mut n: usize = 0;
    let mut i: usize = 0;
    while i < reports.len()
        invariant
            i <= reports.len(),
            n == count_status(reports@.subrange(0, i as int), st),
            n <= i,
        decreases reports.len() - i,
    {
        let ghost q = reports@.subrange(0, i + 1);
        assert(q.drop_last() =~= reports@.subrange(0, i as int));
        if reports[i].status == st {
            n = n + 1;
        }
        i = i + 1;
    }
    assert(reports@.subrange(0, reports.len() as int) =~= reports@);
    n
}

/// Summarizes a refresh: how many profiles were refreshed, the best usable
/// one with its five-hour and weekly usage (or that none is usable), and
/// how many are limited or unknown.
pub fn format_refresh_message(reports: &Vec<LimitReport>) -> (r: String)
    ensures
        r@ == refresh_message_of(reports@),
{
    if reports.len() == 0 {
        return owned("No managed profiles found. Add one with `codex-profiles add NAME`.");
    }
    let ranked_reports = ranked_profiles(reports);
    let availability = if ranked_reports.len() > 0 {
        let best = &ranked_reports[0];
        let five = percent_text(&best.five_hour_percent);
        let weekly = percent_text(&best.weekly_percent);
        let a = cat("Best available: `", best.name.as_str());
        let b = cat(a.as_str(), "` (5h ");
        let c = cat(b.as_str(), five.as_str());
        let d = cat(c.as_str(), ", weekly ");
        let e = cat(d.as_str(), weekly.as_str());
        cat(e.as_str(), ").")
    } else {
        owned("No usable managed profile is currently available.")
    };
    let limited = count_with_status(reports, LimitStatus::Limited);
    let unknown = count_with_status(reports, LimitStatus::Unknown);
    let tally = if limited > 0 && unknown > 0 {
        let a = cat(" (", usize_decimal(limited).as_str());
        let b = cat(a.as_str(), " limited, ");
        let c = cat(b.as_str(), usize_decimal(unknown).as_str());
        cat(c.as_str(), " unknown)")
    } else if limited > 0 {
        let a = cat(" (", usize_decimal(limited).as_str());
        cat(a.as_str(), " limited)")
    } else if unknown > 0 {
        let a = cat(" (", usize_decimal(unknown).as_str());
        cat(a.as_str(), " unknown)")
    } else {
        owned("")
    };
    let n = usize_decimal(reports.len());
    let plural_text = plural_suffix(reports.len());
    let a = cat("Refreshed ", n.as_str());
    let b = cat(a.as_str(), " managed profile");
    let c = cat(b.as_str(), plural_text.as_str());
    let d = cat(c.as_str(), ". ");
    let e = cat(d.as_str(), availability.as_str());
    cat(e.as_str(), tally.as_str())
}

} // verus!
