use codex_profiles::provider_shortcuts::avalai_cli_overrides;
use codex_profiles::provider_shortcuts::prepend_avalai_cli_overrides;
use codex_profiles::provider_shortcuts::prepend_overrides;
use codex_profiles::provider_shortcuts::OverrideValue;

#[test]
fn avalai_overrides_define_openai_compatible_provider() {
    let overrides = avalai_cli_overrides();

    assert_eq!(
        overrides,
        vec![
            (
                "model_provider".to_string(),
                OverrideValue::Text("avalai".to_string())
            ),
            (
                "model".to_string(),
                OverrideValue::Text("deepseek-v4-pro".to_string())
            ),
            (
                "model_providers.avalai.name".to_string(),
                OverrideValue::Text("AvalAI".to_string())
            ),
            (
                "model_providers.avalai.base_url".to_string(),
                OverrideValue::Text("https://api.avalai.ir/v1".to_string())
            ),
            (
                "model_providers.avalai.env_key".to_string(),
                OverrideValue::Text("AVALAI_API_KEY".to_string())
            ),
            (
                "model_providers.avalai.env_key_instructions".to_string(),
                OverrideValue::Text(
                    "Set the AVALAI_API_KEY environment variable to your AvalAI API key."
                        .to_string()
                )
            ),
            (
                "model_providers.avalai.wire_api".to_string(),
                OverrideValue::Text("responses".to_string())
            ),
            (
                "model_providers.avalai.requires_openai_auth".to_string(),
                OverrideValue::Boolean(false)
            ),
            (
                "model_providers.avalai.supports_websockets".to_string(),
                OverrideValue::Boolean(false)
            ),
        ]
    );
}

#[test]
fn prepend_avalai_overrides_keeps_user_overrides_last() {
    let mut overrides = vec![
        (
            "model_providers.avalai.base_url".to_string(),
            OverrideValue::Text("https://avalai.example.test/v1".to_string()),
        ),
        (
            "model".to_string(),
            OverrideValue::Text("user-selected-model".to_string()),
        ),
    ];

    prepend_avalai_cli_overrides(&mut overrides);

    assert_eq!(
        overrides.last(),
        Some(&(
            "model".to_string(),
            OverrideValue::Text("user-selected-model".to_string())
        ))
    );
    assert_eq!(overrides.len(), 11);
    assert_eq!(overrides[0].0, "model_provider");
    assert_eq!(overrides[9].0, "model_providers.avalai.base_url");
}

#[test]
fn prepend_to_no_user_overrides_gives_the_shortcut() {
    let mut overrides = Vec::new();
    prepend_avalai_cli_overrides(&mut overrides);
    assert_eq!(overrides, avalai_cli_overrides());
}

#[test]
fn prepend_overrides_keeps_any_user_values_last() {
    let mut overrides = vec![("model".to_string(), 7_i64), ("x".to_string(), 8)];
    prepend_overrides(vec![("model".to_string(), 1)], &mut overrides);
    assert_eq!(
        overrides,
        vec![
            ("model".to_string(), 1),
            ("model".to_string(), 7),
            ("x".to_string(), 8)
        ]
    );
}
