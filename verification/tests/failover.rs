use codex_profiles::failover::auth_account_id;
use codex_profiles::failover::limited_payload;
use codex_profiles::failover::AccountIdFields;
use codex_profiles::failover::ProfileAuthCandidateConfig;
use codex_profiles::failover::ProfileAuthFailover;
use codex_profiles::failover::ProfileAuthFailoverConfig;
use codex_profiles::failover::RateLimitSnapshot;
use codex_profiles::failover::RateLimitWindow;
use codex_profiles::failover::UsageLimitReachedError;
use codex_profiles::usage::Percent;

fn percent(value: f64) -> Percent {
    let bits = value.to_bits() as i64;
    let order = bits ^ ((((bits >> 63) as u64) >> 1) as i64);
    Percent {
        order,
        shown: format!("{value:.0}"),
    }
}

fn candidate(name: &str) -> ProfileAuthCandidateConfig {
    ProfileAuthCandidateConfig {
        name: name.to_string(),
        auth_file: format!("/tmp/profiles/{name}/auth.json"),
        limit_file: None,
    }
}

fn two_profile_failover() -> ProfileAuthFailover {
    ProfileAuthFailover::new(
        "/tmp/project-home".to_string(),
        ProfileAuthFailoverConfig {
            active_profile: "main".to_string(),
            candidates: vec![candidate("main"), candidate("backup")],
        },
    )
    .expect("two candidates should enable failover")
}

#[test]
fn limited_payload_preserves_reset_deadline() {
    let payload = limited_payload(
        &UsageLimitReachedError {
            resets_at: None,
            rate_limits: Some(RateLimitSnapshot {
                primary: Some(RateLimitWindow {
                    used_percent: percent(100.0),
                    window_minutes: Some(300),
                    resets_at: Some(200),
                }),
                secondary: Some(RateLimitWindow {
                    used_percent: percent(80.0),
                    window_minutes: Some(10080),
                    resets_at: Some(500),
                }),
            }),
            rate_limit_reached_type: None,
        },
        100,
    );

    let primary = payload.primary_window.expect("primary window");
    assert_eq!(primary.used_percent.shown, "100");
    assert_eq!(primary.window_minutes, Some(Some(300)));
    assert_eq!(primary.reset_after_seconds, Some(100));
    assert_eq!(primary.reset_at, Some(200));
    let secondary = payload.secondary_window.expect("secondary window");
    assert_eq!(secondary.used_percent.shown, "80");
    assert_eq!(secondary.window_minutes, Some(Some(10080)));
    assert_eq!(secondary.reset_after_seconds, Some(400));
    assert_eq!(secondary.reset_at, Some(500));
    assert_eq!(payload.rate_limit_reached_type, None);
}

#[test]
fn limited_payload_without_windows_uses_reset_time() {
    let payload = limited_payload(
        &UsageLimitReachedError {
            resets_at: Some(1_000),
            rate_limits: None,
            rate_limit_reached_type: Some("primary".to_string()),
        },
        400,
    );
    let primary = payload.primary_window.expect("reset-only window");
    assert_eq!(primary.used_percent.shown, "100");
    assert_eq!(primary.window_minutes, None);
    assert_eq!(primary.reset_after_seconds, Some(600));
    assert_eq!(primary.reset_at, Some(1_000));
    assert!(payload.secondary_window.is_none());
    assert_eq!(payload.rate_limit_reached_type, Some("primary".to_string()));

    let none = limited_payload(
        &UsageLimitReachedError {
            resets_at: None,
            rate_limits: None,
            rate_limit_reached_type: None,
        },
        u64::MAX,
    );
    assert!(none.primary_window.is_none());

    let overflow = limited_payload(
        &UsageLimitReachedError {
            resets_at: Some(i64::MIN),
            rate_limits: None,
            rate_limit_reached_type: None,
        },
        5,
    );
    assert_eq!(overflow.primary_window.expect("window").reset_after_seconds, None);
}

#[test]
fn switch_after_usage_limit_moves_to_next_profile_then_stops() {
    let mut failover = two_profile_failover();
    assert_eq!(failover.auth_destination(), "/tmp/project-home/auth.json");

    let first = failover.plan_usage_limit_switch();
    assert_eq!(first.limited.expect("active candidate").name, "main");
    let next = first.next.expect("backup is not limited");
    assert_eq!(next.name, "backup");
    assert_eq!(next.auth_file, "/tmp/profiles/backup/auth.json");
    failover.record_switch(&next.name);
    assert_eq!(failover.active_profile(), "backup");

    let second = failover.plan_usage_limit_switch();
    assert_eq!(second.limited.expect("active candidate").name, "backup");
    assert!(second.next.is_none());
}

#[test]
fn switch_to_next_profile_marks_active_limited() {
    let mut failover = two_profile_failover();
    let next = failover
        .next_candidate_after_marking_active_limited()
        .expect("backup");
    assert_eq!(next.name, "backup");
    failover.record_switch(&next.name);
    assert!(failover.next_candidate_after_marking_active_limited().is_none());
}

#[test]
fn single_candidate_is_configured_but_has_no_next_profile() {
    let mut failover = ProfileAuthFailover::new(
        "/tmp/project-home".to_string(),
        ProfileAuthFailoverConfig {
            active_profile: "main".to_string(),
            candidates: vec![candidate("main")],
        },
    )
    .expect("one candidate should keep managed profile mode configured");

    assert!(failover.next_candidate_after_marking_active_limited().is_none());
}

#[test]
fn no_candidates_means_no_failover() {
    assert!(ProfileAuthFailover::new(
        "/tmp/project-home".to_string(),
        ProfileAuthFailoverConfig {
            active_profile: "main".to_string(),
            candidates: Vec::new(),
        },
    )
    .is_none());
}

#[test]
fn account_id_comes_from_tokens_first() {
    let nested = AccountIdFields {
        nested: Some(Some("n".to_string())),
        top: Some(Some("t".to_string())),
    };
    assert_eq!(auth_account_id(&nested, "/a"), Ok("n".to_string()));
    let top = AccountIdFields {
        nested: None,
        top: Some(Some("t".to_string())),
    };
    assert_eq!(auth_account_id(&top, "/a"), Ok("t".to_string()));
    let not_text = AccountIdFields {
        nested: Some(None),
        top: Some(Some("t".to_string())),
    };
    assert_eq!(
        auth_account_id(&not_text, "/a/auth.json"),
        Err("missing ChatGPT account id in /a/auth.json".to_string())
    );
}

#[test]
fn successive_switches_go_forward_through_distinct_candidates() {
    let mut failover = ProfileAuthFailover::new(
        "/tmp/project-home".to_string(),
        ProfileAuthFailoverConfig {
            active_profile: "b".to_string(),
            candidates: vec![candidate("a"), candidate("b"), candidate("c")],
        },
    )
    .expect("candidates");
    let mut switched = Vec::new();
    while let Some(next) = failover.next_candidate_after_marking_active_limited() {
        failover.record_switch(&next.name);
        switched.push(next.name);
    }
    assert_eq!(switched, vec!["a".to_string(), "c".to_string()]);
    // Once no candidate is left, later steps find none either.
    assert!(failover.plan_usage_limit_switch().next.is_none());
    assert!(failover.next_candidate_after_marking_active_limited().is_none());
}
