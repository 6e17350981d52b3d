use codex_profiles::auth::AuthMode;
use codex_profiles::auth::AuthSummary;
use codex_profiles::launch::best_launch_failover;
use codex_profiles::launch::message_text;
use codex_profiles::launch::project_lines;
use codex_profiles::launch::ProfilesMessage;
use codex_profiles::profiles_root::clears_current;
use codex_profiles::profiles_root::require_auth;
use codex_profiles::profiles_root::selected_names;
use codex_profiles::profiles_root::source_auth_path;
use codex_profiles::profiles_root::template_entry_pairs;
use codex_profiles::profiles_root::default_root;
use codex_profiles::profiles_root::exe_name;
use codex_profiles::profiles_root::home_dir;
use codex_profiles::profiles_root::is_valid_name;
use codex_profiles::profiles_root::listed_profile_names;
use codex_profiles::profiles_root::profile_listing;
use codex_profiles::profiles_root::resolve_codex_bin;
use codex_profiles::profiles_root::resolve_root;
use codex_profiles::profiles_root::shell_quote;
use codex_profiles::profiles_root::ProfileEntry;
use codex_profiles::profiles_root::ProfilesRoot;
use codex_profiles::project_id::project_id_for_root;
use codex_profiles::project_id::resolve_project_id;
use codex_profiles::project_id::slugify;
use codex_profiles::project_id::stable_hash;
use codex_profiles::usage::limit_report_from_auth;
use codex_profiles::usage::ranked_profiles;

fn api_summary() -> AuthSummary {
    AuthSummary {
        mode: AuthMode::ApiKey,
        email: None,
        access_token: None,
        account_id: None,
        valid: true,
        message: "api_key".to_string(),
    }
}

#[test]
fn project_ids_are_stable_and_include_slug() {
    let first = project_id_for_root("/tmp/Agent Coordinator");
    let second = project_id_for_root("/tmp/Agent Coordinator");

    assert_eq!(first, second);
    assert!(first.starts_with("agent-coordinator-"));
}

#[test]
fn project_id_ends_with_twelve_hex_digits_of_the_fnv_hash() {
    let root = "/tmp/Agent Coordinator";
    let id = project_id_for_root(root);
    let expected = format!(
        "agent-coordinator-{:012x}",
        stable_hash(root.as_bytes()) & 0xffff_ffff_ffff
    );
    assert_eq!(id, expected);
    // FNV-1a 64 of the empty input is the offset basis; of "a" it is the
    // published test value.
    assert_eq!(stable_hash(b""), 0xcbf2_9ce4_8422_2325);
    assert_eq!(stable_hash(b"a"), 0xaf63_dc4c_8601_ec8c);
    assert_eq!(project_id_for_root("/").len(), "project-".len() + 12);
    assert!(project_id_for_root("/").starts_with("project-"));
    assert!(project_id_for_root("/tmp/__").starts_with("project-"));
    // A generated id is a valid name unless it is too long.
    assert!(is_valid_name(&id));
    let long_root = format!("/tmp/{}", "x".repeat(60));
    assert!(!is_valid_name(&project_id_for_root(&long_root)));
}

#[test]
fn slugify_collapses_separators() {
    assert_eq!(slugify("Agent Coordinator"), "agent-coordinator");
    assert_eq!(slugify("--Hello__World--"), "hello-world");
    assert_eq!(slugify("a.b c"), "a-b-c");
    assert_eq!(slugify("Ünïcode 2"), "n-code-2");
    assert_eq!(slugify("***"), "");
    assert_eq!(slugify(""), "");
}

#[test]
fn default_root_matches_legacy_switcher_location() {
    assert_eq!(
        default_root("/home/alice"),
        "/home/alice/.config/codex-switch"
    );
}

#[test]
fn root_resolution_order() {
    assert_eq!(
        resolve_root(Some("/given".to_string()), Some("/env".to_string()), None),
        Ok("/given".to_string())
    );
    assert_eq!(
        resolve_root(None, Some("/env".to_string()), Some("/home/a".to_string())),
        Ok("/env".to_string())
    );
    assert_eq!(
        resolve_root(None, None, Some("/home/a".to_string())),
        Ok("/home/a/.config/codex-switch".to_string())
    );
    assert_eq!(
        resolve_root(None, None, None),
        Err("could not resolve home directory".to_string())
    );
    assert_eq!(
        home_dir(None, Some("C:/Users/a".to_string())),
        Some("C:/Users/a".to_string())
    );
}

#[test]
fn codex_bin_resolution_order() {
    assert_eq!(
        resolve_codex_bin(Some("/a".to_string()), Some("/b".to_string()), Some("/c".to_string())),
        "/a"
    );
    assert_eq!(resolve_codex_bin(None, Some("/b".to_string()), Some("/c".to_string())), "/b");
    assert_eq!(resolve_codex_bin(None, None, Some("/c".to_string())), "/c");
    assert_eq!(resolve_codex_bin(None, None, None), "codex");
    assert_eq!(exe_name("codex", true), "codex.exe");
    assert_eq!(exe_name("codex", false), "codex");
}

#[test]
fn profile_names() {
    assert!(is_valid_name("main"));
    assert!(is_valid_name("a.b_c-1"));
    assert!(is_valid_name(&"a".repeat(64)));
    assert!(!is_valid_name(&"a".repeat(65)));
    assert!(!is_valid_name(""));
    assert!(!is_valid_name(".hidden"));
    assert!(!is_valid_name("../bad"));
    assert!(!is_valid_name("a/b"));
    assert!(!is_valid_name("é"));
}

#[test]
fn import_list_and_remove_profile_stays_under_root() {
    let root = ProfilesRoot::new("/tmp/codex-profiles".to_string());
    assert_eq!(root.profile_home("main"), "/tmp/codex-profiles/homes/main");
    assert_eq!(
        root.profile_auth_file("main"),
        "/tmp/codex-profiles/homes/main/auth.json"
    );
    assert_eq!(root.limit_file("main"), "/tmp/codex-profiles/limits/main.json");
    assert_eq!(root.current_file(), "/tmp/codex-profiles/current");
    assert_eq!(root.project_home("w-1"), "/tmp/codex-profiles/projects/w-1");
    assert_eq!(
        root.managed_dirs(),
        vec![
            "/tmp/codex-profiles/homes",
            "/tmp/codex-profiles/projects",
            "/tmp/codex-profiles/handoffs",
            "/tmp/codex-profiles/limits",
            "/tmp/codex-profiles/runs",
            "/tmp/codex-profiles/template-home",
        ]
    );
    assert_eq!(root.current_name_from(Some("main\n")), Ok("main".to_string()));
    assert_eq!(
        root.current_name_from(None),
        Err("no current profile selected; run `codex-profiles use NAME`".to_string())
    );
    assert_eq!(
        root.validate_name("../main"),
        Err("invalid profile name `../main`".to_string())
    );
    assert_eq!(root.require_profile("main", true), Ok(()));
    assert_eq!(
        root.require_profile("main", false),
        Err("profile `main` does not exist or has no auth.json".to_string())
    );
    assert_eq!(
        root.resolve_name(None, Some(" main \n")),
        Ok("main".to_string())
    );
    assert_eq!(
        root.resolve_name(Some("other"), Some("main")),
        Ok("other".to_string())
    );
    assert!(clears_current(Some("main\n"), "main"));
    assert!(!clears_current(Some("other\n"), "main"));
    assert!(!clears_current(None, "main"));

    let listed = listed_profile_names(&vec![
        "main".to_string(),
        ".tmp".to_string(),
        "backup".to_string(),
        "main".to_string(),
        "bad name".to_string(),
        "alpha".to_string(),
    ]);
    assert_eq!(listed, vec!["alpha", "backup", "main"]);
}

#[test]
fn profile_listing_rows() {
    let entries = vec![
        ProfileEntry {
            name: "main".to_string(),
            home: "/r/homes/main".to_string(),
            auth: Some(api_summary()),
            sessions: 3,
        },
        ProfileEntry {
            name: "broken".to_string(),
            home: "/r/homes/broken".to_string(),
            auth: None,
            sessions: 0,
        },
    ];
    let lines = profile_listing(&entries);
    assert_eq!(
        lines[0],
        format!(
            "{:<24} {:<24} {:<28} {:<8} CODEX_HOME",
            "PROFILE", "AUTH", "EMAIL", "SESSIONS"
        )
    );
    assert_eq!(
        lines[1],
        format!(
            "{:<24} {:<24} {:<28} {:<8} {}",
            "main", "api_key", "-", 3, "/r/homes/main"
        )
    );
    assert_eq!(
        lines[2],
        format!(
            "{:<24} {:<24} {:<28} {:<8} {}",
            "broken", "missing", "-", 0, "/r/homes/broken"
        )
    );
}

#[test]
fn shell_quote_escapes_single_quotes() {
    assert_eq!(shell_quote("/tmp/a b"), "'/tmp/a b'");
    assert_eq!(shell_quote("it's"), "'it'\\''s'");
    assert_eq!(
        message_text(&ProfilesMessage::ExportHome {
            home: "/r/homes/o'neil".to_string()
        }),
        "export CODEX_HOME='/r/homes/o'\\''neil'"
    );
}

#[test]
fn command_messages() {
    assert_eq!(
        message_text(&ProfilesMessage::UsingProject {
            id: "w-1".to_string(),
            name: "main".to_string(),
            home: "/r/projects/w-1".to_string(),
        }),
        "Using project w-1 with profile main; CODEX_HOME=/r/projects/w-1"
    );
    assert_eq!(
        message_text(&ProfilesMessage::Current {
            name: "main".to_string(),
            home: "/r/homes/main".to_string(),
        }),
        "main\t/r/homes/main"
    );
    assert_eq!(
        message_text(&ProfilesMessage::Removed {
            name: "main".to_string()
        }),
        "removed main"
    );
    assert_eq!(
        project_lines("w-1", "/src/w", "/r/projects/w-1"),
        vec!["id\tw-1", "root\t/src/w", "CODEX_HOME\t/r/projects/w-1"]
    );
}

#[test]
fn best_profile_launch_prepares_project_home_and_failover_candidates() {
    let root = ProfilesRoot::new("/tmp/codex-profiles".to_string());
    let api = api_summary();
    let reports = vec![
        limit_report_from_auth("main", Some(&api)).expect("local"),
        limit_report_from_auth("backup", Some(&api)).expect("local"),
    ];
    let ranked = ranked_profiles(&reports);
    let failover = best_launch_failover(&root, &ranked).expect("a usable profile");

    assert_eq!(failover.active_profile, "backup");
    let names: Vec<String> = failover
        .candidates
        .iter()
        .map(|candidate| candidate.name.clone())
        .collect();
    assert_eq!(names, vec!["backup".to_string(), "main".to_string()]);
    assert_eq!(
        failover.candidates[0].auth_file,
        "/tmp/codex-profiles/homes/backup/auth.json"
    );
    assert_eq!(
        failover.candidates[0].limit_file,
        Some("/tmp/codex-profiles/limits/backup.json".to_string())
    );

    let project_id = resolve_project_id(None, "/tmp/workspace").expect("id");
    assert!(project_id.starts_with("workspace-"));
    assert_eq!(
        resolve_project_id(Some("../x"), "/tmp/workspace"),
        Err("invalid project id `../x`".to_string())
    );
    assert!(best_launch_failover(&root, &Vec::new()).is_err());
}

#[test]
fn login_and_import_sources() {
    assert_eq!(require_auth("/h/auth.json", true), Ok(()));
    assert_eq!(
        require_auth("/h/auth.json", false),
        Err("Codex login completed without creating /h/auth.json".to_string())
    );
    assert_eq!(
        source_auth_path("/old-home", true, true, false),
        Ok("/old-home/auth.json".to_string())
    );
    assert_eq!(
        source_auth_path("/old-home", true, false, false),
        Err("auth source not found: /old-home".to_string())
    );
    assert_eq!(
        source_auth_path("/a/auth.json", false, false, true),
        Ok("/a/auth.json".to_string())
    );
    let pairs = template_entry_pairs("/r/template-home", "/r/homes/main");
    assert_eq!(pairs.len(), 6);
    assert_eq!(
        pairs[0],
        (
            "/r/template-home/config.toml".to_string(),
            "/r/homes/main/config.toml".to_string()
        )
    );
    assert_eq!(pairs[5].1, "/r/homes/main/memories");
}

#[test]
fn limits_look_at_requested_or_all_profiles() {
    let listed = vec!["a".to_string(), "b".to_string()];
    assert_eq!(selected_names(&Vec::new(), &listed), listed);
    assert_eq!(
        selected_names(&vec!["b".to_string()], &listed),
        vec!["b".to_string()]
    );
}
