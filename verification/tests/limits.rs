use codex_profiles::auth::AuthMode;
use codex_profiles::auth::AuthSummary;
use codex_profiles::launch::best_line;
use codex_profiles::launch::best_profile;
use codex_profiles::launch::limits_table;
use codex_profiles::managed::format_refresh_message;
use codex_profiles::managed::plural_suffix;
use codex_profiles::usage::cached_account_matches_auth;
use codex_profiles::usage::classify_limit_status;
use codex_profiles::usage::failed_lookup_report;
use codex_profiles::usage::is_approximate_window;
use codex_profiles::usage::labeled_window_percent;
use codex_profiles::usage::limits_url;
use codex_profiles::usage::limit_report_from_auth;
use codex_profiles::usage::percent_text;
use codex_profiles::usage::ranked_profiles;
use codex_profiles::usage::report_from_cache;
use codex_profiles::usage::status_name;
use codex_profiles::usage::LimitCache;
use codex_profiles::usage::LimitReport;
use codex_profiles::usage::LimitStatus;
use codex_profiles::usage::PayloadWindow;
use codex_profiles::usage::Percent;
use codex_profiles::usage::UsagePayload;
use codex_profiles::usage::WindowLabel;

/// A percentage as the backend reports it: ordered as `f64::total_cmp`
/// orders it, shown with no decimals.
fn percent(value: f64) -> Percent {
    let bits = value.to_bits() as i64;
    let order = bits ^ ((((bits >> 63) as u64) >> 1) as i64);
    Percent {
        order,
        shown: format!("{value:.0}"),
    }
}

fn window(used: Option<f64>, minutes: Option<i64>) -> PayloadWindow {
    PayloadWindow {
        used_percent: used.map(percent),
        window_minutes: minutes,
        limit_window_seconds: None,
    }
}

fn payload(reached: Option<&str>, five: f64, weekly: f64) -> UsagePayload {
    UsagePayload {
        reached_type: reached.map(str::to_string),
        primary: window(Some(five), Some(300)),
        secondary: window(Some(weekly), Some(10080)),
    }
}

fn report(name: &str, status: LimitStatus, five: Option<f64>, weekly: Option<f64>) -> LimitReport {
    LimitReport {
        name: name.to_string(),
        status,
        five_hour_percent: five.map(percent),
        weekly_percent: weekly.map(percent),
        source: "cache".to_string(),
        detail: "observed=1".to_string(),
    }
}

fn cached_report(name: &str, five: f64, weekly: f64) -> LimitReport {
    let payload = payload(None, five, weekly);
    let status = classify_limit_status(&payload, false);
    let cache = LimitCache {
        version: 1,
        account_id: name.to_string(),
        observed_at: 1,
        status,
        payload,
    };
    report_from_cache(name, &cache, "cache", false)
}

fn shown(p: &Option<Percent>) -> Option<String> {
    p.as_ref().map(|p| p.shown.clone())
}

#[test]
fn limit_status_classifies_usage_payloads() {
    let ok = payload(None, 10.0, 20.0);
    let near = payload(None, 91.0, 20.0);
    let limited = payload(Some("primary"), 10.0, 20.0);

    assert_eq!(classify_limit_status(&ok, false), LimitStatus::Normal);
    assert_eq!(classify_limit_status(&near, false), LimitStatus::NearLimit);
    assert_eq!(classify_limit_status(&limited, false), LimitStatus::Limited);
}

#[test]
fn classify_limit_status_edges() {
    assert_eq!(
        classify_limit_status(&payload(None, 90.0, 0.0), false),
        LimitStatus::NearLimit
    );
    assert_eq!(
        classify_limit_status(&payload(None, 89.0, 0.0), false),
        LimitStatus::Normal
    );
    assert_eq!(
        classify_limit_status(&payload(None, 0.0, 100.0), false),
        LimitStatus::Limited
    );
    // An empty reached type does not count as limited.
    assert_eq!(
        classify_limit_status(&payload(Some(""), 10.0, 20.0), false),
        LimitStatus::Normal
    );
    let empty = UsagePayload {
        reached_type: None,
        primary: window(None, None),
        secondary: window(None, None),
    };
    assert_eq!(classify_limit_status(&empty, false), LimitStatus::Normal);
}

#[test]
fn labeled_window_percent_prefers_matching_length_then_position() {
    // Windows listed in swapped order are still found by their length.
    let swapped = UsagePayload {
        reached_type: None,
        primary: window(Some(70.0), Some(10080)),
        secondary: window(Some(30.0), Some(300)),
    };
    assert_eq!(
        shown(&labeled_window_percent(&swapped, WindowLabel::FiveHour, false)),
        Some("30".to_string())
    );
    assert_eq!(
        shown(&labeled_window_percent(&swapped, WindowLabel::Weekly, false)),
        Some("70".to_string())
    );
    // Without lengths the primary window is the five-hour one.
    let unlabeled = UsagePayload {
        reached_type: None,
        primary: window(Some(12.0), None),
        secondary: window(Some(34.0), None),
    };
    assert_eq!(
        shown(&labeled_window_percent(&unlabeled, WindowLabel::FiveHour, false)),
        Some("12".to_string())
    );
    assert_eq!(
        shown(&labeled_window_percent(&unlabeled, WindowLabel::Weekly, false)),
        Some("34".to_string())
    );
}

#[test]
fn window_length_falls_back_to_seconds_when_asked() {
    let p = UsagePayload {
        reached_type: None,
        primary: PayloadWindow {
            used_percent: Some(percent(40.0)),
            window_minutes: None,
            limit_window_seconds: Some(604_800),
        },
        secondary: window(None, None),
    };
    assert_eq!(
        shown(&labeled_window_percent(&p, WindowLabel::Weekly, true)),
        Some("40".to_string())
    );
    assert_eq!(shown(&labeled_window_percent(&p, WindowLabel::Weekly, false)), None);
}

#[test]
fn approximate_window_allows_five_percent() {
    assert!(is_approximate_window(285, 300));
    assert!(is_approximate_window(315, 300));
    assert!(!is_approximate_window(284, 300));
    assert!(!is_approximate_window(316, 300));
    assert!(!is_approximate_window(-5, 300));
}

#[test]
fn cached_limit_account_must_match_current_auth() {
    let auth = AuthSummary {
        mode: AuthMode::Chatgpt,
        email: Some("user@example.com".to_string()),
        access_token: Some("access-token".to_string()),
        account_id: Some("current-account".to_string()),
        valid: true,
        message: "chatgpt".to_string(),
    };

    assert!(cached_account_matches_auth("current-account", &auth));
    assert!(!cached_account_matches_auth("old-account", &auth));
}

#[test]
fn best_profile_penalizes_weekly_usage() {
    let reports = vec![
        cached_report("weekly-hot", 20.0, 95.0),
        cached_report("balanced", 50.0, 50.0),
    ];

    let ranked = ranked_profiles(&reports);
    let best = best_profile(&ranked).expect("a usable profile");

    assert_eq!(best.name, "balanced");
    assert_eq!(shown(&best.five_hour_percent), Some("50".to_string()));
    assert_eq!(shown(&best.weekly_percent), Some("50".to_string()));
}

#[test]
fn ranking_keeps_usable_profiles_best_first_then_by_name() {
    let reports = vec![
        report("zeta", LimitStatus::Normal, Some(10.0), Some(10.0)),
        report("gone", LimitStatus::Limited, Some(100.0), Some(10.0)),
        report("alpha", LimitStatus::Normal, Some(10.0), Some(5.0)),
        report("near", LimitStatus::NearLimit, Some(92.0), Some(10.0)),
        report("mystery", LimitStatus::Unknown, None, None),
        report("half", LimitStatus::Normal, None, Some(1.0)),
    ];
    let names: Vec<String> = ranked_profiles(&reports)
        .into_iter()
        .map(|r| r.name)
        .collect();
    assert_eq!(names, vec!["alpha", "zeta", "near", "half"]);
}

#[test]
fn no_usable_profile_is_an_error() {
    let reports = vec![report("gone", LimitStatus::Limited, Some(100.0), Some(1.0))];
    let ranked = ranked_profiles(&reports);
    assert!(ranked.is_empty());
    assert_eq!(best_profile(&ranked).unwrap_err(), "no usable profile found");
}

#[test]
fn reports_from_login_alone() {
    let missing = limit_report_from_auth("a", None).expect("decided locally");
    assert_eq!(missing.status, LimitStatus::Unknown);
    assert_eq!(missing.detail, "missing or invalid auth.json");
    assert_eq!(missing.source, "local");

    let api = AuthSummary {
        mode: AuthMode::ApiKey,
        email: None,
        access_token: None,
        account_id: None,
        valid: true,
        message: "api_key".to_string(),
    };
    let r = limit_report_from_auth("b", Some(&api)).expect("decided locally");
    assert_eq!(r.status, LimitStatus::Normal);
    assert_eq!(percent_text(&r.five_hour_percent), "0%");
    assert_eq!(r.detail, "limits not applicable for api_key");
    assert_eq!(r.source, "auth");

    let chatgpt = AuthSummary {
        mode: AuthMode::Chatgpt,
        email: None,
        access_token: Some("t".to_string()),
        account_id: Some("acct".to_string()),
        valid: true,
        message: "chatgpt".to_string(),
    };
    assert!(limit_report_from_auth("c", Some(&chatgpt)).is_none());

    let failed = failed_lookup_report("d", "boom");
    assert_eq!(failed.status, LimitStatus::Unknown);
    assert_eq!(failed.source, "remote");
    assert_eq!(failed.detail, "boom");
}

#[test]
fn status_and_percent_texts() {
    assert_eq!(status_name(LimitStatus::Normal), "ok");
    assert_eq!(status_name(LimitStatus::NearLimit), "near-limit");
    assert_eq!(status_name(LimitStatus::Limited), "limited");
    assert_eq!(status_name(LimitStatus::Unknown), "unknown");
    assert_eq!(percent_text(&None), "-");
    assert_eq!(percent_text(&Some(percent(42.0))), "42%");
}

#[test]
fn best_line_and_limits_table() {
    let r = cached_report("balanced", 50.0, 50.0);
    assert_eq!(
        best_line(&r),
        "best=balanced status=ok 5h=50% weekly=50% observed=1"
    );
    let lines = limits_table(&vec![r]);
    assert_eq!(
        lines[0],
        format!(
            "{:<24} {:<10} {:<10} {:<10} {:<8} DETAIL",
            "PROFILE", "STATUS", "5H", "WEEKLY", "SOURCE"
        )
    );
    assert_eq!(
        lines[1],
        format!(
            "{:<24} {:<10} {:<10} {:<10} {:<8} {}",
            "balanced", "ok", "50%", "50%", "cache", "observed=1"
        )
    );
}

#[test]
fn refresh_message_with_no_profiles() {
    assert_eq!(
        format_refresh_message(&Vec::new()),
        "No managed profiles found. Add one with `codex-profiles add NAME`."
    );
}

#[test]
fn refresh_message_names_best_api_key_profile() {
    let api = AuthSummary {
        mode: AuthMode::ApiKey,
        email: None,
        access_token: None,
        account_id: None,
        valid: true,
        message: "api_key".to_string(),
    };
    let reports = vec![limit_report_from_auth("main", Some(&api)).expect("local")];
    assert_eq!(
        format_refresh_message(&reports),
        "Refreshed 1 managed profile. Best available: `main` (5h 0%, weekly 0%)."
    );
}

#[test]
fn refresh_message_counts_limited_and_unknown() {
    let reports = vec![
        report("a", LimitStatus::Limited, Some(100.0), Some(3.0)),
        report("b", LimitStatus::Unknown, None, None),
        report("c", LimitStatus::Limited, Some(100.0), Some(3.0)),
    ];
    assert_eq!(
        format_refresh_message(&reports),
        "Refreshed 3 managed profiles. No usable managed profile is currently available. (2 limited, 1 unknown)"
    );
    let reports = vec![
        report("b", LimitStatus::Unknown, None, None),
        report("c", LimitStatus::NearLimit, Some(91.0), Some(3.0)),
    ];
    assert_eq!(
        format_refresh_message(&reports),
        "Refreshed 2 managed profiles. Best available: `c` (5h 91%, weekly 3%). (1 unknown)"
    );
}

#[test]
fn limits_url_defaults_to_chatgpt_backend() {
    assert_eq!(limits_url(None), "https://chatgpt.com/backend-api/wham/usage");
    assert_eq!(limits_url(Some("http://localhost/u".to_string())), "http://localhost/u");
}

#[test]
fn plural_suffix_only_for_counts_other_than_one() {
    assert_eq!(plural_suffix(0), "s");
    assert_eq!(plural_suffix(1), "");
    assert_eq!(plural_suffix(2), "s");
}
