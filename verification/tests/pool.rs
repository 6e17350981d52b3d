use codex_profiles::auth::stored_auth_mode;
use codex_profiles::auth::AgentIdentityStorage;
use codex_profiles::auth::AuthCredentialsStoreMode;
use codex_profiles::auth::AuthDotJson;
use codex_profiles::auth::AuthMode;
use codex_profiles::auth::IdTokenInfo;
use codex_profiles::auth::TokenData;
use codex_profiles::pool::any_failed;
use codex_profiles::pool::check_profile;
use codex_profiles::pool::pool_base_dir;
use codex_profiles::pool::pool_status_lines;
use codex_profiles::pool::pool_test_verdict;
use codex_profiles::pool::resolve_pool_relative_path;
use codex_profiles::pool::signed_decimal_string;
use codex_profiles::pool::AuthLoad;
use codex_profiles::pool::HealthStatus;
use codex_profiles::pool::PoolConfig;
use codex_profiles::pool::PoolProfile;
use codex_profiles::pool::PoolProfileToml;
use codex_profiles::pool::PoolStatusOutput;
use codex_profiles::pool::PoolToml;

fn entry(id: &str, home: &str, config_profile: Option<&str>, priority: i64, cooldown: Option<u64>) -> PoolProfileToml {
    PoolProfileToml {
        id: id.to_string(),
        codex_home: home.to_string(),
        config_profile: config_profile.map(str::to_string),
        priority,
        cooldown_seconds: cooldown,
    }
}

fn api_key_auth(key: &str) -> AuthDotJson {
    AuthDotJson {
        auth_mode: Some(AuthMode::ApiKey),
        openai_api_key: Some(key.to_string()),
        tokens: None,
        last_refresh: None,
        agent_identity: None,
        personal_access_token: None,
        bedrock_api_key: None,
    }
}

#[test]
fn pool_config_resolves_relative_homes_and_sorts_by_priority() {
    let raw = PoolToml {
        default_strategy: Some("priority".to_string()),
        fallback_cooldown_seconds: Some(3600),
        profiles: vec![
            entry("backup", "backup-home", None, 5, None),
            entry("main", "main-home", Some("work"), 10, Some(120)),
        ],
    };
    let config = PoolConfig::from_toml(raw, "/tmp/pool", &vec![true, true]).expect("valid pool");

    assert_eq!(
        config.profiles,
        vec![
            PoolProfile {
                id: "main".to_string(),
                codex_home: "/tmp/pool/main-home".to_string(),
                config_profile: Some("work".to_string()),
                priority: 10,
                cooldown_seconds: Some(120),
            },
            PoolProfile {
                id: "backup".to_string(),
                codex_home: "/tmp/pool/backup-home".to_string(),
                config_profile: None,
                priority: 5,
                cooldown_seconds: None,
            },
        ]
    );
    assert_eq!(config.default_strategy, Some("priority".to_string()));
    assert_eq!(config.fallback_cooldown_seconds, Some(3600));
}

#[test]
fn pool_config_rejects_duplicate_ids() {
    let raw = PoolToml {
        default_strategy: None,
        fallback_cooldown_seconds: None,
        profiles: vec![
            entry("main", "/tmp/main", None, 0, None),
            entry("main", "/tmp/other", None, 0, None),
        ],
    };
    let err = PoolConfig::from_toml(raw, "/tmp", &vec![true, true]).expect_err("duplicate ids should be rejected");

    assert_eq!(err, "duplicate pool profile id `main`");
}

#[test]
fn pool_config_rejects_empty_pool_and_blank_ids() {
    let empty = PoolToml {
        default_strategy: None,
        fallback_cooldown_seconds: None,
        profiles: Vec::new(),
    };
    assert_eq!(
        PoolConfig::from_toml(empty, "/tmp", &Vec::new()).unwrap_err(),
        "pool config must include at least one [[profiles]] entry"
    );
    let blank = PoolToml {
        default_strategy: None,
        fallback_cooldown_seconds: None,
        profiles: vec![entry("ok", "/a", None, 0, None), entry("  ", "/b", None, 0, None)],
    };
    assert_eq!(
        PoolConfig::from_toml(blank, "/tmp", &vec![true, true]).unwrap_err(),
        "pool profile id must not be empty"
    );
}

#[test]
fn pool_config_orders_equal_priorities_by_id_and_keeps_absolute_homes() {
    let raw = PoolToml {
        default_strategy: None,
        fallback_cooldown_seconds: None,
        profiles: vec![
            entry("c", "/abs/c", None, 1, None),
            entry("a", "rel/a", None, 1, None),
            entry("b", "b", None, -3, None),
            entry("d", "d", None, 7, None),
        ],
    };
    let config = PoolConfig::from_toml(raw, "/base/", &vec![true; 4]).expect("valid pool");
    let order: Vec<(String, String)> = config
        .profiles
        .into_iter()
        .map(|p| (p.id, p.codex_home))
        .collect();
    assert_eq!(
        order,
        vec![
            ("d".to_string(), "/base/d".to_string()),
            ("a".to_string(), "/base/rel/a".to_string()),
            ("c".to_string(), "/abs/c".to_string()),
            ("b".to_string(), "/base/b".to_string()),
        ]
    );
    assert_eq!(resolve_pool_relative_path("", "x"), "x");
}

#[test]
fn stored_auth_mode_accepts_api_key_auth() {
    let auth = api_key_auth("sk-test");

    assert_eq!(stored_auth_mode(&auth), Ok(AuthMode::ApiKey));
}

#[test]
fn stored_auth_mode_rejects_empty_api_key_auth() {
    let auth = api_key_auth(" ");

    assert_eq!(
        stored_auth_mode(&auth),
        Err("API key auth is missing a key".to_string())
    );
}

#[test]
fn stored_auth_mode_reports_each_missing_credential() {
    let mut auth = api_key_auth("unused");
    auth.auth_mode = Some(AuthMode::Chatgpt);
    assert_eq!(
        stored_auth_mode(&auth),
        Err("ChatGPT auth is missing tokens".to_string())
    );
    auth.tokens = Some(TokenData {
        id_token: IdTokenInfo {
            email: None,
            chatgpt_account_id: None,
        },
        access_token: "access".to_string(),
        refresh_token: " ".to_string(),
        account_id: None,
    });
    assert_eq!(
        stored_auth_mode(&auth),
        Err("ChatGPT auth is missing a refresh token".to_string())
    );
    auth.auth_mode = Some(AuthMode::AgentIdentity);
    assert_eq!(
        stored_auth_mode(&auth),
        Err("agent identity auth is missing auth material".to_string())
    );
    auth.agent_identity = Some(AgentIdentityStorage {
        has_auth_material: false,
    });
    assert_eq!(
        stored_auth_mode(&auth),
        Err("agent identity auth material is empty".to_string())
    );
    auth.auth_mode = Some(AuthMode::BedrockApiKey);
    assert_eq!(
        stored_auth_mode(&auth),
        Err("Bedrock API key auth is missing a key".to_string())
    );
    auth.auth_mode = None;
    auth.openai_api_key = None;
    auth.personal_access_token = Some("pat".to_string());
    assert_eq!(stored_auth_mode(&auth), Ok(AuthMode::PersonalAccessToken));
}

fn main_profile() -> PoolProfile {
    PoolProfile {
        id: "main".to_string(),
        codex_home: "/tmp/home".to_string(),
        config_profile: None,
        priority: -2,
        cooldown_seconds: None,
    }
}

#[test]
fn check_profile_combines_config_and_auth_checks() {
    let ok = check_profile(&main_profile(), &Ok(AuthLoad::Stored(api_key_auth("sk-test"))));
    assert_eq!(ok.status, HealthStatus::Pass);
    assert_eq!(ok.config.message, "ok");
    assert_eq!(ok.auth.message, "api_key");

    let missing = check_profile(
        &main_profile(),
        &Ok(AuthLoad::Missing(AuthCredentialsStoreMode::Keyring)),
    );
    assert_eq!(missing.status, HealthStatus::Fail);
    assert_eq!(missing.config.status, HealthStatus::Pass);
    assert_eq!(
        missing.auth.message,
        "no stored credentials found in keyring auth storage"
    );

    let broken = check_profile(&main_profile(), &Err("bad config".to_string()));
    assert_eq!(broken.status, HealthStatus::Fail);
    assert_eq!(broken.config.message, "bad config");
    assert_eq!(broken.auth.message, "skipped because config did not load");

    let failed = check_profile(&main_profile(), &Ok(AuthLoad::Failed("denied".to_string())));
    assert_eq!(failed.auth.message, "failed to load auth storage: denied");

    let output = PoolStatusOutput {
        pool: "/tmp/pool.toml".to_string(),
        default_strategy: None,
        fallback_cooldown_seconds: None,
        profiles: vec![ok, broken],
    };
    assert!(any_failed(&output));
    assert_eq!(
        pool_test_verdict(&output).unwrap_err(),
        "one or more pool profiles failed validation"
    );
    assert_eq!(
        pool_status_lines(&output),
        vec![
            "Profile pool: /tmp/pool.toml".to_string(),
            "main ok priority=-2 home=/tmp/home config_profile=- auth=api_key".to_string(),
            "main fail priority=-2 home=/tmp/home config_profile=- auth=skipped because config did not load".to_string(),
            "  config: bad config".to_string(),
            "  auth: skipped because config did not load".to_string(),
        ]
    );
}

#[test]
fn signed_decimal_handles_extremes() {
    assert_eq!(signed_decimal_string(0), "0");
    assert_eq!(signed_decimal_string(-15), "-15");
    assert_eq!(signed_decimal_string(i64::MIN), i64::MIN.to_string());
    assert_eq!(signed_decimal_string(i64::MAX), i64::MAX.to_string());
}

#[test]
fn pool_paths_resolve_against_the_pool_file() {
    assert_eq!(pool_base_dir("/tmp/pool/pool.toml"), "/tmp/pool");
    assert_eq!(pool_base_dir("pool.toml"), "");
    assert_eq!(pool_base_dir("/"), ".");
    assert_eq!(resolve_pool_relative_path("/tmp/pool", "/abs"), "/abs");
}

#[test]
fn pool_config_rejects_invalid_config_profile_after_id_checks() {
    let raw = PoolToml {
        default_strategy: None,
        fallback_cooldown_seconds: None,
        profiles: vec![
            entry("main", "/tmp/main", Some("bad name"), 0, None),
            entry("other", "/tmp/other", None, 0, None),
        ],
    };
    assert_eq!(
        PoolConfig::from_toml(raw, "/tmp", &vec![false, false]).unwrap_err(),
        "invalid config_profile for pool profile `main`"
    );
    // An entry without a config profile is not judged by the verdict.
    let raw = PoolToml {
        default_strategy: None,
        fallback_cooldown_seconds: None,
        profiles: vec![entry("main", "/tmp/main", None, 0, None)],
    };
    assert!(PoolConfig::from_toml(raw, "/tmp", &vec![false]).is_ok());
    // The id checks of an entry come before its config profile.
    let raw = PoolToml {
        default_strategy: None,
        fallback_cooldown_seconds: None,
        profiles: vec![
            entry("main", "/tmp/main", None, 0, None),
            entry("main", "/tmp/x", Some("bad"), 0, None),
        ],
    };
    assert_eq!(
        PoolConfig::from_toml(raw, "/tmp", &vec![true, false]).unwrap_err(),
        "duplicate pool profile id `main`"
    );
}
