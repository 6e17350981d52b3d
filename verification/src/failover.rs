//! Runtime auth failover between the managed profiles of one launch. When the
//! active profile hits its usage limit (or the user asks for the next
//! profile), the active profile is marked limited and the first candidate
//! that is not limited becomes the next one; the caller copies its
//! `auth.json` into the project home, reloads auth and records the switch.
use crate::auth::{copy_opt, opt_view};
use crate::paths::{join, join_path};
use crate::text::text_eq;
use crate::usage::{Percent, HUNDRED_ORDER};
use vstd::prelude::*;
use vstd::seq_lib::seq_to_set_is_finite;
use vstd::set_lib::*;

verus! {

/// One profile that failover may switch to.
#[derive(Debug)]
pub struct ProfileAuthCandidateConfig {
    pub name: String,
    pub auth_file: String,
    pub limit_file: Option<String>,
}

/// The failover setup of a launch: the profile in use and the candidates in
/// the order they are tried.
#[derive(Debug)]
pub struct ProfileAuthFailoverConfig {
    pub active_profile: String,
    pub candidates: Vec<ProfileAuthCandidateConfig>,
}

/// A failover candidate: its name, where its `auth.json` is, and where its
/// limit cache is written, if anywhere.
#[derive(Debug)]
pub struct ProfileAuthCandidate {
    pub name: String,
    pub auth_file: String,
    pub limit_file: Option<String>,
}

pub struct CandidateView {
    pub name: Seq<char>,
    pub auth_file: Seq<char>,
    pub limit_file: Option<Seq<char>>,
}

impl View for ProfileAuthCandidate {
    type V = CandidateView;

    open spec fn view(&self) -> CandidateView {
        CandidateView {
            name: self.name@,
            auth_file: self.auth_file@,
            limit_file: opt_view(self.limit_file),
        }
    }
}

pub open spec fn config_view(c: ProfileAuthCandidateConfig) -> CandidateView {
    CandidateView { name: c.name@, auth_file: c.auth_file@, limit_file: opt_view(c.limit_file) }
}

pub open spec fn opt_candidate(o: Option<ProfileAuthCandidate>) -> Option<CandidateView> {
    match o {
        Some(c) => Some(c@),
        None => None,
    }
}

/// The first candidate whose name is not in `limited`.
pub open spec fn first_not_in(cs: Seq<CandidateView>, limited: Set<Seq<char>>) -> Option<
    CandidateView,
>
    decreases cs.len(),
{
    if cs.len() == 0 {
        None
    } else if !limited.contains(cs[0].name) {
        Some(cs[0])
    } else {
        first_not_in(cs.drop_first(), limited)
    }
}

/// The first candidate named `name`.
pub open spec fn first_named(cs: Seq<CandidateView>, name: Seq<char>) -> Option<CandidateView>
    decreases cs.len(),
{
    if cs.len() == 0 {
        None
    } else if cs[0].name == name {
        Some(cs[0])
    } else {
        first_named(cs.drop_first(), name)
    }
}

/// The state of failover: the project home whose `auth.json` is replaced,
/// the candidates, the active profile and the profiles marked limited.
pub struct FailoverView {
    pub codex_home: Seq<char>,
    pub candidates: Seq<CandidateView>,
    pub active: Seq<char>,
    pub limited: Set<Seq<char>>,
}

impl FailoverView {
    /// The active profile is marked limited.
    pub open spec fn mark(self) -> FailoverView {
        FailoverView { limited: self.limited.insert(self.active), ..self }
    }

    /// The candidate to switch to: the first one not marked limited.
    pub open spec fn first_unlimited(self) -> Option<CandidateView> {
        first_not_in(self.candidates, self.limited)
    }

    /// The candidate of the active profile.
    pub open spec fn active_candidate(self) -> Option<CandidateView> {
        first_named(self.candidates, self.active)
    }

    /// The switch to profile `name` is recorded.
    pub open spec fn switch_to(self, name: Seq<char>) -> FailoverView {
        FailoverView { active: name, ..self }
    }

    /// The names of the candidates.
    pub open spec fn names(self) -> Set<Seq<char>> {
        self.candidates.map_values(|c: CandidateView| c.name).to_set()
    }

    /// The candidate names not marked limited.
    pub open spec fn remaining(self) -> Set<Seq<char>> {
        self.names().difference(self.limited)
    }

    /// One usage-limit step: mark the active profile limited and switch to
    /// the next candidate; `None` when there is none.
    pub open spec fn cycle(self) -> Option<FailoverView> {
        match self.mark().first_unlimited() {
            Some(c) => Some(self.mark().switch_to(c.name)),
            None => None,
        }
    }

    /// `k` usage-limit steps in a row; `None` once a step finds no candidate.
    pub open spec fn run(self, k: nat) -> Option<FailoverView>
        decreases k,
    {
        if k == 0 {
            Some(self)
        } else {
            match self.run((k - 1) as nat) {
                Some(t) => t.cycle(),
                None => None,
            }
        }
    }
}

/// Failover between the candidate profiles of one launch.
#[derive(Debug)]
pub struct ProfileAuthFailover {
    codex_home: String,
    candidates: Vec<ProfileAuthCandidate>,
    active_profile: String,
    limited_profiles: Vec<String>,
}

/// What to do when the active profile hits its usage limit: the candidate
/// that was active (whose limit cache is written), and the candidate to
/// switch to, if any.
#[derive(Debug)]
pub struct UsageLimitSwitch {
    pub limited: Option<ProfileAuthCandidate>,
    pub next: Option<ProfileAuthCandidate>,
}

pub fn copy_candidate(c: &ProfileAuthCandidate) -> (r: ProfileAuthCandidate)
    ensures
        r == *c,
{
    ProfileAuthCandidate {
        name: c.name.clone(),
        auth_file: c.auth_file.clone(),
        limit_file: copy_opt(&c.limit_file),
    }
}

impl View for ProfileAuthFailover {
    type V = FailoverView;

    closed spec fn view(&self) -> FailoverView {
        FailoverView {
            codex_home: self.codex_home@,
            candidates: self.candidates@.map_values(|c: ProfileAuthCandidate| c@),
            active: self.active_profile@,
            limited: Set::new(
                |n: Seq<char>|
                    exists|i: int|
                        0 <= i < self.limited_profiles.len() && #[trigger] self.limited_profiles@[i]@
                            == n,
            ),
        }
    }
}

impl ProfileAuthFailover {
    /// Failover over the configured candidates, starting from the configured
    /// active profile with nothing marked limited; `None` when there are no
    /// candidates.
    pub fn new(codex_home: String, config: ProfileAuthFailoverConfig) -> (r: Option<Self>)
        ensures
            r is None <==> config.candidates.len() == 0,
            r matches Some(f) ==> f@ == (FailoverView {
                codex_home: codex_home@,
                candidates: config.candidates@.map_values(
                    |c: ProfileAuthCandidateConfig| config_view(c),
                ),
                active: config.active_profile@,
                limited: Set::empty(),
            }),
    {
        if config.candidates.len() == 0 {
            return None;
        }
        let mut candidates: Vec<ProfileAuthCandidate> = Vec::new();
        let mut i: usize = 0;
        while i < config.candidates.len()
            invariant
                i <= config.candidates.len(),
                candidates.len() == i,
                forall|k: int|
                    0 <= k < i ==> #[trigger] candidates@[k]@ == config_view(config.candidates@[k]),
            decreases config.candidates.len() - i,
        {
            let c = &config.candidates[i];
            candidates.push(
                ProfileAuthCandidate {
                    name: c.name.clone(),
                    auth_file: c.auth_file.clone(),
                    limit_file: copy_opt(&c.limit_file),
                },
            );
            i = i + 1;
        }
        assert(candidates@.map_values(|c: ProfileAuthCandidate| c@) =~= config.candidates@.map_values(
            |c: ProfileAuthCandidateConfig| config_view(c),
        ));
        let f = ProfileAuthFailover {
            codex_home,
            candidates,
            active_profile: config.active_profile,
            limited_profiles: Vec::new(),
        };
        assert(f@.limited =~= Set::<Seq<char>>::empty());
        Some(f)
    }

    /// Where the active profile's `auth.json` goes: `auth.json` in the
    /// project home.
    pub fn auth_destination(&self) -> (r: String)
        ensures
            r@ == join(self@.codex_home, "auth.json"@),
    {
        join_path(self.codex_home.as_str(), "auth.json")
    }

    /// The name of the active profile.
    pub fn active_profile(&self) -> (r: String)
        ensures
            r@ == self@.active,
    {
        self.active_profile.clone()
    }

    fn is_limited(&self, name: &str) -> (b: bool)
        ensures
            b == self@.limited.contains(name@),
    {
        let mut i: usize = 0;
        while i < self.limited_profiles.len()
            invariant
                i <= self.limited_profiles.len(),
                forall|j: int| 0 <= j < i ==> self.limited_profiles@[j]@ != name@,
            decreases self.limited_profiles.len() - i,
        {
            if text_eq(self.limited_profiles[i].as_str(), name) {
                return true;
            }
            i = i + 1;
        }
        false
    }

    /// Marks the active profile limited and returns the first candidate that
    /// is not limited.
    pub fn next_candidate_after_marking_active_limited(&mut self) -> (r: Option<
        ProfileAuthCandidate,
    >)
        ensures
            final(self)@ == old(self)@.mark(),
            opt_candidate(r) == old(self)@.mark().first_unlimited(),
    {
        let active = self.active_profile.clone();
        self.limited_profiles.push(active);
        assert(self@.limited =~= old(self)@.limited.insert(old(self)@.active)) by {
            assert forall|n: Seq<char>| self@.limited.contains(n) implies old(
                self,
            )@.limited.insert(old(self)@.active).contains(n) by {
                let i = choose|i: int|
                    0 <= i < self.limited_profiles.len() && #[trigger] self.limited_profiles@[i]@
                        == n;
                if i < old(self).limited_profiles.len() {
                    assert(old(self).limited_profiles@[i] == self.limited_profiles@[i]);
                }
            }
            assert forall|n: Seq<char>| old(self)@.limited.insert(old(self)@.active).contains(
                n,
            ) implies self@.limited.contains(n) by {
                if n == old(self)@.active {
                    assert(self.limited_profiles@[old(self).limited_profiles.len() as int]@ == n);
                } else {
                    let i = choose|i: int|
                        0 <= i < old(self).limited_profiles.len()
                            && #[trigger] old(self).limited_profiles@[i]@ == n;
                    assert(self.limited_profiles@[i] == old(self).limited_profiles@[i]);
                }
            }
        }
        assert(self@ =~= old(self)@.mark());
        let ghost cs = self@.candidates;
        let mut i: usize = 0;
        assert(cs.subrange(0, cs.len() as int) =~= cs);
        while i < self.candidates.len()
            invariant
                i <= self.candidates.len(),
                cs == self@.candidates,
                cs.len() == self.candidates.len(),
                self@ == old(self)@.mark(),
                first_not_in(cs, self@.limited) == first_not_in(
                    cs.subrange(i as int, cs.len() as int),
                    self@.limited,
                ),
            decreases self.candidates.len() - i,
        {
            let ghost sub = cs.subrange(i as int, cs.len() as int);
            assert(sub.drop_first() =~= cs.subrange(i + 1, cs.len() as int));
            assert(sub[0] == self.candidates@[i as int]@);
            if !self.is_limited(self.candidates[i].name.as_str()) {
                return Some(copy_candidate(&self.candidates[i]));
            }
            i = i + 1;
        }
        assert(cs.subrange(cs.len() as int, cs.len() as int).len() == 0);
        None
    }

    /// The candidate of the active profile.
    pub fn active_candidate(&self) -> (r: Option<ProfileAuthCandidate>)
        ensures
            opt_candidate(r) == self@.active_candidate(),
    {
        let ghost cs = self@.candidates;
        let mut i: usize = 0;
        assert(cs.subrange(0, cs.len() as int) =~= cs);
        while i < self.candidates.len()
            invariant
                i <= self.candidates.len(),
                cs == self@.candidates,
                cs.len() == self.candidates.len(),
                first_named(cs, self@.active) == first_named(
                    cs.subrange(i as int, cs.len() as int),
                    self@.active,
                ),
            decreases self.candidates.len() - i,
        {
            let ghost sub = cs.subrange(i as int, cs.len() as int);
            assert(sub.drop_first() =~= cs.subrange(i + 1, cs.len() as int));
            assert(sub[0] == self.candidates@[i as int]@);
            if text_eq(self.candidates[i].name.as_str(), self.active_profile.as_str()) {
                return Some(copy_candidate(&self.candidates[i]));
            }
            i = i + 1;
        }
        assert(cs.subrange(cs.len() as int, cs.len() as int).len() == 0);
        None
    }

    /// Records that the project home now holds the auth of profile `name`.
    pub fn record_switch(&mut self, name: &str)
        ensures
            final(self)@ == old(self)@.switch_to(name@),
    {
        self.active_profile = crate::text::owned(name);
        assert(self@ =~= old(self)@.switch_to(name@));
    }

    /// The decision when the active profile hits its usage limit: the
    /// candidate that was active, and the next one after marking the active
    /// profile limited.
    pub fn plan_usage_limit_switch(&mut self) -> (r: UsageLimitSwitch)
        ensures
            final(self)@ == old(self)@.mark(),
            opt_candidate(r.limited) == old(self)@.active_candidate(),
            opt_candidate(r.next) == old(self)@.mark().first_unlimited(),
    {
        let limited = self.active_candidate();
        let next = self.next_candidate_after_marking_active_limited();
        UsageLimitSwitch { limited, next }
    }
}

proof fn lemma_first_not_in(cs: Seq<CandidateView>, limited: Set<Seq<char>>)
    ensures
        first_not_in(cs, limited) matches Some(c) ==> !limited.contains(c.name) && cs.contains(c),
        first_not_in(cs, limited) is None <==> (forall|i: int|
            0 <= i < cs.len() ==> limited.contains(#[trigger] cs[i].name)),
    decreases cs.len(),
{
    if cs.len() > 0 {
        lemma_first_not_in(cs.drop_first(), limited);
        if let Some(c) = first_not_in(cs.drop_first(), limited) {
            let k = choose|k: int| 0 <= k < cs.drop_first().len() && cs.drop_first()[k] == c;
            assert(cs[k + 1] == c);
        }
        if limited.contains(cs[0].name) {
            assert forall|i: int| 0 <= i < cs.len() && (forall|j: int|
                0 <= j < cs.drop_first().len() ==> limited.contains(
                    #[trigger] cs.drop_first()[j].name,
                )) implies limited.contains(#[trigger] cs[i].name) by {
                if i > 0 {
                    assert(cs[i] == cs.drop_first()[i - 1]);
                }
            }
            assert forall|j: int|
                0 <= j < cs.drop_first().len() && (forall|i: int|
                    0 <= i < cs.len() ==> limited.contains(
                        #[trigger] cs[i].name,
                    )) implies limited.contains(#[trigger] cs.drop_first()[j].name) by {
                assert(cs.drop_first()[j] == cs[j + 1]);
            }
        } else {
            assert(cs.contains(cs[0]));
        }
    }
}

/// Law: a usage-limit step finds no next candidate exactly when every
/// candidate is marked limited once the active profile is.
pub proof fn lemma_no_next_means_all_limited(s: FailoverView)
    ensures
        s.cycle() is None <==> (forall|i: int|
            0 <= i < s.candidates.len() ==> s.limited.insert(s.active).contains(
                #[trigger] s.candidates[i].name,
            )),
{
    lemma_first_not_in(s.candidates, s.limited.insert(s.active));
}

/// Law: the candidate that failover switches to is never one marked limited,
/// and is the first such in candidate order; the profile that was active is
/// marked limited and stays so.
pub proof fn lemma_next_is_first_unlimited(s: FailoverView)
    ensures
        s.cycle() matches Some(t) ==> {
            &&& !t.limited.contains(t.active)
            &&& t.limited == s.limited.insert(s.active)
            &&& t.names().contains(t.active)
            &&& exists|k: int|
                0 <= k < s.candidates.len() && s.candidates[k].name == t.active && forall|j: int|
                    0 <= j < k ==> t.limited.contains(#[trigger] s.candidates[j].name)
        },
{
    let lim = s.limited.insert(s.active);
    lemma_first_not_in(s.candidates, lim);
    if let Some(t) = s.cycle() {
        let c = s.mark().first_unlimited()->0;
        lemma_first_not_in_index(s.candidates, lim);
        let k = choose|k: int|
            0 <= k < s.candidates.len() && s.candidates[k] == c && forall|j: int|
                0 <= j < k ==> lim.contains(#[trigger] s.candidates[j].name);
        assert(s.candidates.map_values(|c: CandidateView| c.name)[k] == c.name);
        assert(s.candidates.map_values(|c: CandidateView| c.name).contains(c.name));
    }
}

proof fn lemma_first_not_in_index(cs: Seq<CandidateView>, limited: Set<Seq<char>>)
    ensures
        first_not_in(cs, limited) matches Some(c) ==> exists|k: int|
            0 <= k < cs.len() && cs[k] == c && forall|j: int|
                0 <= j < k ==> limited.contains(#[trigger] cs[j].name),
    decreases cs.len(),
{
    if cs.len() > 0 && limited.contains(cs[0].name) {
        lemma_first_not_in_index(cs.drop_first(), limited);
        if let Some(c) = first_not_in(cs, limited) {
            let k = choose|k: int|
                0 <= k < cs.drop_first().len() && cs.drop_first()[k] == c && forall|j: int|
                    0 <= j < k ==> limited.contains(#[trigger] cs.drop_first()[j].name);
            assert(cs[k + 1] == c);
            assert forall|j: int| 0 <= j < k + 1 implies limited.contains(#[trigger] cs[j].name) by {
                if j > 0 {
                    assert(cs[j] == cs.drop_first()[j - 1]);
                }
            }
        }
    } else if cs.len() > 0 {
        assert(cs[0] == cs[0]);
    }
}

proof fn lemma_run_invariant(s: FailoverView, k: nat)
    requires
        k >= 1,
        s.limited.finite(),
        s.run(k) is Some,
    ensures
        ({
            let t = s.run(k)->0;
            &&& t.remaining().contains(t.active)
            &&& t.remaining().len() + k <= s.names().len() + 1
            &&& s.remaining().contains(s.active) ==> t.remaining().len() + k <= s.names().len()
            &&& t.names() == s.names()
            &&& t.candidates == s.candidates
            &&& t.limited.finite()
        }),
    decreases k,
{
    let n = s.names();
    assert(n.finite()) by {
        seq_to_set_is_finite(s.candidates.map_values(|c: CandidateView| c.name));
    }
    if k == 1 {
        assert(s.run(0) == Some(s));
        let t = s.cycle()->0;
        lemma_next_is_first_unlimited(s);
        assert(t.names() == n);
        assert(t.remaining().subset_of(n));
        lemma_len_subset(t.remaining(), n);
        if s.remaining().contains(s.active) {
            assert(t.remaining() =~= s.remaining().remove(s.active));
            assert(s.remaining().subset_of(n));
            lemma_len_subset(s.remaining(), n);
        }
    } else {
        lemma_run_invariant(s, (k - 1) as nat);
        let t = s.run((k - 1) as nat)->0;
        let u = t.cycle()->0;
        assert(s.run(k) == t.cycle());
        lemma_next_is_first_unlimited(t);
        assert(u.names() == t.names());
        assert(u.remaining() =~= t.remaining().remove(t.active));
        assert(t.remaining().finite()) by {
            lemma_len_subset(t.remaining(), n);
        }
    }
}

/// Law: failover switches at most once per distinct candidate. Starting from
/// any state, `k` usage-limit steps in a row can all find a next candidate
/// only when `k` is at most the number of candidate names, so a run of usage
/// limits always ends with no next profile.
pub proof fn lemma_switches_bounded(s: FailoverView, k: nat)
    requires
        s.limited.finite(),
        s.run(k) is Some,
    ensures
        k <= s.names().len(),
{
    if k >= 1 {
        lemma_run_invariant(s, k);
        let t = s.run(k)->0;
        assert(t.remaining().len() >= 1) by {
            assert(t.remaining().finite()) by {
                lemma_len_subset(t.remaining(), t.names());
                seq_to_set_is_finite(s.candidates.map_values(|c: CandidateView| c.name));
            }
            lemma_set_empty_equivalency_len(t.remaining());
        }
    }
}

/// Some candidate named `x` comes before every candidate named `y`.
pub open spec fn comes_before(cs: Seq<CandidateView>, x: Seq<char>, y: Seq<char>) -> bool {
    exists|ia: int|
        0 <= ia < cs.len() && cs[ia].name == x && forall|j: int|
            0 <= j < cs.len() && #[trigger] cs[j].name == y ==> ia < j
}

/// The profile active after `a` usage-limit steps in a row.
pub open spec fn switched(s: FailoverView, a: nat) -> Seq<char> {
    (s.run(a)->0).active
}

proof fn lemma_run_prefix(s: FailoverView, k: nat)
    requires
        s.run(k) is Some,
    ensures
        forall|c: nat| c <= k ==> #[trigger] s.run(c) is Some,
    decreases k,
{
    if k > 0 {
        assert(s.run((k - 1) as nat) is Some);
        lemma_run_prefix(s, (k - 1) as nat);
    }
}

/// What `k >= 1` usage-limit steps in a row leave: the same candidates, the
/// starting profile and every profile switched to before the last marked
/// limited, the marks only growing, and the profile now active not marked
/// and preceded in candidate order only by marked candidates.
proof fn lemma_run_history(s: FailoverView, k: nat)
    requires
        k >= 1,
        s.run(k) is Some,
    ensures
        ({
            let t = s.run(k)->0;
            &&& t.candidates == s.candidates
            &&& s.limited.insert(s.active).subset_of(t.limited)
            &&& !t.limited.contains(t.active)
            &&& forall|c: nat|
                1 <= c < k ==> #[trigger] s.run(c) is Some && t.limited.contains(switched(s, c))
            &&& forall|c: nat|
                1 <= c <= k ==> #[trigger] s.run(c) is Some && (s.run(c)->0).limited.subset_of(
                    t.limited,
                )
            &&& exists|kk: int|
                0 <= kk < s.candidates.len() && s.candidates[kk].name == t.active && forall|j: int|
                    0 <= j < kk ==> t.limited.contains(#[trigger] s.candidates[j].name)
        }),
    decreases k,
{
    lemma_run_prefix(s, k);
    if k == 1 {
        assert(s.run(0) == Some(s));
        lemma_next_is_first_unlimited(s);
        let t = s.run(1)->0;
        assert(t == s.cycle()->0);
        assert(t.candidates == s.candidates);
    } else {
        lemma_run_history(s, (k - 1) as nat);
        let t = s.run((k - 1) as nat)->0;
        assert(s.run(k) == t.cycle());
        let u = t.cycle()->0;
        lemma_next_is_first_unlimited(t);
        assert(u.limited == t.limited.insert(t.active));
        assert(u.candidates == t.candidates);
        assert forall|c: nat| 1 <= c < k implies #[trigger] s.run(c) is Some && u.limited.contains(
            switched(s, c),
        ) by {
            if c < k - 1 {
                assert(t.limited.contains(switched(s, c)));
            } else {
                assert(switched(s, c) == t.active);
            }
        }
        assert forall|c: nat| 1 <= c <= k implies #[trigger] s.run(c) is Some && (s.run(
            c,
        )->0).limited.subset_of(u.limited) by {
            if c <= k - 1 {
                assert((s.run(c)->0).limited.subset_of(t.limited));
            }
        }
    }
}

/// Law: usage-limit steps in a row from a starting profile that is a
/// candidate and not marked limited switch to profiles that are pairwise
/// distinct, never the starting one, and in candidate order; so there are
/// at most one fewer of them than there are candidates.
pub proof fn lemma_switch_sequence(s: FailoverView, k: nat)
    requires
        s.limited.finite(),
        s.remaining().contains(s.active),
        s.run(k) is Some,
    ensures
        k + 1 <= s.candidates.len(),
        forall|a: nat| 1 <= a <= k ==> #[trigger] switched(s, a) != s.active,
        forall|a: nat, b: nat| 1 <= a < b <= k ==> #[trigger] switched(s, a) != #[trigger] switched(s, b),
        forall|a: nat, b: nat|
            1 <= a < b <= k ==> comes_before(
                s.candidates,
                #[trigger] switched(s, a),
                #[trigger] switched(s, b),
            ),
{
    let names = s.candidates.map_values(|c: CandidateView| c.name);
    names.lemma_cardinality_of_set();
    if k >= 1 {
        lemma_run_invariant(s, k);
        let t = s.run(k)->0;
        assert(t.remaining().len() >= 1) by {
            assert(t.remaining().finite()) by {
                lemma_len_subset(t.remaining(), t.names());
                seq_to_set_is_finite(names);
            }
            lemma_set_empty_equivalency_len(t.remaining());
        }
    } else {
        assert(s.names().contains(s.active));
        assert(s.names().len() >= 1) by {
            seq_to_set_is_finite(names);
            lemma_set_empty_equivalency_len(s.names());
        }
    }
    lemma_run_prefix(s, k);
    assert forall|a: nat| 1 <= a <= k implies #[trigger] switched(s, a) != s.active by {
        lemma_run_history(s, a);
    }
    assert forall|a: nat, b: nat| 1 <= a < b <= k implies #[trigger] switched(s, a)
        != #[trigger] switched(s, b) by {
        lemma_run_history(s, b);
        assert(s.run(a) is Some);
    }
    assert forall|a: nat, b: nat| 1 <= a < b <= k implies comes_before(
        s.candidates,
        #[trigger] switched(s, a),
        #[trigger] switched(s, b),
    ) by {
        lemma_run_history(s, a);
        lemma_run_history(s, b);
        let ta = s.run(a)->0;
        let tb = s.run(b)->0;
        assert(s.run(a) is Some);
        assert(ta.limited.subset_of(tb.limited));
        assert(tb.limited.contains(switched(s, a)));
        let ia = choose|kk: int|
            0 <= kk < s.candidates.len() && s.candidates[kk].name == ta.active && forall|j: int|
                0 <= j < kk ==> ta.limited.contains(#[trigger] s.candidates[j].name);
        assert forall|j: int|
            0 <= j < s.candidates.len() && s.candidates[j].name == switched(s, b) implies ia < j by {
            if j < ia {
                assert(ta.limited.contains(s.candidates[j].name));
            }
        }
        assert(s.candidates[ia].name == switched(s, a));
    }
}

/// Law: once a usage-limit step finds no next candidate, marking the active
/// profile again changes nothing and still finds none.
pub proof fn lemma_no_next_stays_none(s: FailoverView)
    requires
        s.mark().first_unlimited() is None,
    ensures
        s.mark().mark() == s.mark(),
        s.mark().mark().first_unlimited() is None,
{
    assert(s.mark().mark().limited =~= s.mark().limited);
}

/// One window of the rate limits that a usage-limit error reports.
#[derive(Debug)]
pub struct RateLimitWindow {
    pub used_percent: Percent,
    pub window_minutes: Option<i64>,
    pub resets_at: Option<i64>,
}

/// The rate limits that a usage-limit error reports.
#[derive(Debug)]
pub struct RateLimitSnapshot {
    pub primary: Option<RateLimitWindow>,
    pub secondary: Option<RateLimitWindow>,
}

/// A usage-limit error, as far as the limit cache reads it: when the limit
/// resets (Unix seconds), the reported rate limits, and the serialized kind
/// of limit that was reached.
#[derive(Debug)]
pub struct UsageLimitReachedError {
    pub resets_at: Option<i64>,
    pub rate_limits: Option<RateLimitSnapshot>,
    pub rate_limit_reached_type: Option<String>,
}

/// One window of the payload written to a limited profile's cache. An outer
/// `None` in `window_minutes` means the field is left out.
#[derive(Debug)]
pub struct LimitedWindow {
    pub used_percent: Percent,
    pub window_minutes: Option<Option<i64>>,
    pub reset_after_seconds: Option<i64>,
    pub reset_at: Option<i64>,
}

/// The payload written to a limited profile's cache: a rate limit that is
/// not allowed and reached, its windows, and the kind of limit reached
/// (written as `{"type": ...}`).
#[derive(Debug)]
pub struct LimitedPayload {
    pub primary_window: Option<LimitedWindow>,
    pub secondary_window: Option<LimitedWindow>,
    pub rate_limit_reached_type: Option<String>,
}

/// Seconds from `observed_at` until `resets_at`, when the difference fits
/// (`observed_at` is taken as at most `i64::MAX`).
pub open spec fn reset_after(resets_at: i64, observed_at: u64) -> Option<i64> {
    let o: int = if observed_at > i64::MAX {
        i64::MAX as int
    } else {
        observed_at as int
    };
    if resets_at - o >= i64::MIN {
        Some((resets_at - o) as i64)
    } else {
        None
    }
}

pub open spec fn window_payload_spec(w: RateLimitWindow, observed_at: u64) -> LimitedWindow {
    LimitedWindow {
        used_percent: w.used_percent,
        window_minutes: Some(w.window_minutes),
        reset_after_seconds: match w.resets_at {
            Some(r) => reset_after(r, observed_at),
            None => None,
        },
        reset_at: w.resets_at,
    }
}

/// The window written when the error only says when the limit resets: fully
/// used, with no window length.
pub open spec fn reset_only_spec(resets_at: i64, observed_at: u64, hundred: Percent) -> LimitedWindow {
    LimitedWindow {
        used_percent: hundred,
        window_minutes: None,
        reset_after_seconds: reset_after(resets_at, observed_at),
        reset_at: Some(resets_at),
    }
}

pub open spec fn is_hundred(p: Percent) -> bool {
    p.order == HUNDRED_ORDER && p.shown@ == "100"@
}

/// The payload recorded for a usage-limit error observed at `observed_at`:
/// the reported primary window, or else a fully used window that resets when
/// the error says; the reported secondary window; and the kind reached.
pub open spec fn limited_payload_of(e: UsageLimitReachedError, observed_at: u64, p: LimitedPayload) -> bool {
    &&& match (e.rate_limits, e.resets_at) {
        (Some(RateLimitSnapshot { primary: Some(w), .. }), _) => p.primary_window == Some(
            window_payload_spec(w, observed_at),
        ),
        (_, Some(r)) => p.primary_window matches Some(lw) && lw.window_minutes is None
            && lw.reset_after_seconds == reset_after(r, observed_at) && lw.reset_at == Some(r)
            && is_hundred(lw.used_percent),
        (_, None) => p.primary_window is None,
    }
    &&& p.secondary_window == match e.rate_limits {
        Some(RateLimitSnapshot { secondary: Some(w), .. }) => Some(window_payload_spec(w, observed_at)),
        _ => None,
    }
    &&& p.rate_limit_reached_type == e.rate_limit_reached_type
}

fn reset_after_seconds(resets_at: i64, observed_at: u64) -> (r: Option<i64>)
    ensures
        r == reset_after(resets_at, observed_at),
{
    let o: i64 = if observed_at > i64::MAX as u64 {
        i64::MAX
    } else {
        observed_at as i64
    };
    resets_at.checked_sub(o)
}

fn window_payload(w: &RateLimitWindow, observed_at: u64) -> (r: LimitedWindow)
    ensures
        r == window_payload_spec(*w, observed_at),
{
    LimitedWindow {
        used_percent: w.used_percent.copy(),
        window_minutes: Some(w.window_minutes),
        reset_after_seconds: match w.resets_at {
            Some(r) => reset_after_seconds(r, observed_at),
            None => None,
        },
        reset_at: w.resets_at,
    }
}

/// The payload recorded in a limited profile's cache (see
/// `limited_payload_of`).
pub fn limited_payload(e: &UsageLimitReachedError, observed_at: u64) -> (p: LimitedPayload)
    ensures
        limited_payload_of(*e, observed_at, p),
{
    let primary = match &e.rate_limits {
        Some(RateLimitSnapshot { primary: Some(w), .. }) => Some(window_payload(w, observed_at)),
        _ => match e.resets_at {
            Some(r) => Some(
                LimitedWindow {
                    used_percent: Percent::hundred(),
                    window_minutes: None,
                    reset_after_seconds: reset_after_seconds(r, observed_at),
                    reset_at: Some(r),
                },
            ),
            None => None,
        },
    };
    let secondary = match &e.rate_limits {
        Some(RateLimitSnapshot { secondary: Some(w), .. }) => Some(window_payload(w, observed_at)),
        _ => None,
    };
    LimitedPayload {
        primary_window: primary,
        secondary_window: secondary,
        rate_limit_reached_type: copy_opt(&e.rate_limit_reached_type),
    }
}

/// The fields of a stored `auth.json` that name its ChatGPT account:
/// `/tokens/account_id` and the top-level `account_id`. The outer `Option`
/// says whether the field is there, the inner one whether it is a string.
#[derive(Debug)]
pub struct AccountIdFields {
    pub nested: Option<Option<String>>,
    pub top: Option<Option<String>>,
}

/// The account a limited cache entry is recorded for: the nested account id
/// when that field is there, else the top-level one; an error naming the
/// auth file when the chosen field is missing or not a string.
pub fn auth_account_id(fields: &AccountIdFields, auth_file: &str) -> (r: Result<String, String>)
    ensures
        ({
            let chosen = if fields.nested is Some {
                fields.nested
            } else {
                fields.top
            };
            match chosen {
                Some(Some(id)) => r matches Ok(v) && v@ == id@,
                _ => r matches Err(m) && m@ == "missing ChatGPT account id in "@ + auth_file@,
            }
        }),
{
    let chosen = match &fields.nested {
        Some(v) => v,
        None => match &fields.top {
            Some(v) => v,
            None => {
                return Err(crate::text::cat("missing ChatGPT account id in ", auth_file));
            },
        },
    };
    match chosen {
        Some(id) => Ok(id.clone()),
        None => Err(crate::text::cat("missing ChatGPT account id in ", auth_file)),
    }
}

} // verus!
