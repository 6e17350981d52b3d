//! The `--avalai` shortcut: the configuration overrides that select the
//! AvalAI OpenAI-compatible provider, placed before the user's own so that
//! the user's overrides win.
use crate::text::owned;
use vstd::prelude::*;

verus! {

pub const AVALAI_PROVIDER_ID: &'static str = "avalai";

pub const AVALAI_DEFAULT_MODEL: &'static str = "deepseek-v4-pro";

pub const AVALAI_DEFAULT_BASE_URL: &'static str = "https://api.avalai.ir/v1";

pub const AVALAI_API_KEY_ENV_VAR: &'static str = "AVALAI_API_KEY";

pub const AVALAI_ENV_KEY_INSTRUCTIONS: &'static str =
    "Set the AVALAI_API_KEY environment variable to your AvalAI API key.";

/// The value of a configuration override, as the TOML value it stands for.
#[derive(Debug, PartialEq, Eq)]
pub enum OverrideValue {
    Text(String),
    Boolean(bool),
}

/// An override's key and value as plain values.
pub open spec fn override_view(o: (String, OverrideValue)) -> (Seq<char>, Option<Seq<char>>, bool) {
    match o.1 {
        OverrideValue::Text(s) => (o.0@, Some(s@), false),
        OverrideValue::Boolean(b) => (o.0@, None, b),
    }
}

pub open spec fn overrides_view(v: Seq<(String, OverrideValue)>) -> Seq<
    (Seq<char>, Option<Seq<char>>, bool),
> {
    v.map_values(|o: (String, OverrideValue)| override_view(o))
}

/// The AvalAI overrides, in order.
pub open spec fn avalai_overrides_spec() -> Seq<(Seq<char>, Option<Seq<char>>, bool)> {
    seq![
        ("model_provider"@, Some("avalai"@), false),
        ("model"@, Some("deepseek-v4-pro"@), false),
        ("model_providers.avalai.name"@, Some("AvalAI"@), false),
        ("model_providers.avalai.base_url"@, Some("https://api.avalai.ir/v1"@), false),
        ("model_providers.avalai.env_key"@, Some("AVALAI_API_KEY"@), false),
        (
            "model_providers.avalai.env_key_instructions"@,
            Some("Set the AVALAI_API_KEY environment variable to your AvalAI API key."@),
            false,
        ),
        ("model_providers.avalai.wire_api"@, Some("responses"@), false),
        ("model_providers.avalai.requires_openai_auth"@, None, false),
        ("model_providers.avalai.supports_websockets"@, None, false),
    ]
}

fn text_override(key: &str, value: &str) -> (r: (String, OverrideValue))
    ensures
        override_view(r) == (key@, Some(value@), false),
{
    (owned(key), OverrideValue::Text(owned(value)))
}

fn flag_override(key: &str, value: bool) -> (r: (String, OverrideValue))
    ensures
        override_view(r) == (key@, None::<Seq<char>>, value),
{
    (owned(key), OverrideValue::Boolean(value))
}

/// The overrides that select AvalAI: its provider id and default model, and
/// the provider's name, base URL, key variable, key instructions, wire API,
/// and that it needs no OpenAI login and no websockets.
pub fn avalai_cli_overrides() -> (r: Vec<(String, OverrideValue)>)
    ensures
        overrides_view(r@) == avalai_overrides_spec(),
{
    let r = vec![
        text_override("model_provider", AVALAI_PROVIDER_ID),
        text_override("model", AVALAI_DEFAULT_MODEL),
        text_override("model_providers.avalai.name", "AvalAI"),
        text_override("model_providers.avalai.base_url", AVALAI_DEFAULT_BASE_URL),
        text_override("model_providers.avalai.env_key", AVALAI_API_KEY_ENV_VAR),
        text_override("model_providers.avalai.env_key_instructions", AVALAI_ENV_KEY_INSTRUCTIONS),
        text_override("model_providers.avalai.wire_api", "responses"),
        flag_override("model_providers.avalai.requires_openai_auth", false),
        flag_override("model_providers.avalai.supports_websockets", false),
    ];
    assert(overrides_view(r@) =~= avalai_overrides_spec());
    r
}

/// Puts `front` before the given overrides. Later overrides win, so the
/// given ones keep the last word: they stay, unchanged and in order, at the
/// end.
pub fn prepend_overrides<V>(front: Vec<(String, V)>, overrides: &mut Vec<(String, V)>)
    ensures
        final(overrides)@ == front@ + old(overrides)@,
{
    let mut all = front;
    all.append(overrides);
    std::mem::swap(overrides, &mut all);
}

/// Puts the AvalAI overrides before the given ones, which keep the last
/// word (see `prepend_overrides`).
pub fn prepend_avalai_cli_overrides(overrides: &mut Vec<(String, OverrideValue)>)
    ensures
        overrides_view(final(overrides)@) == avalai_overrides_spec() + overrides_view(
            old(overrides)@,
        ),
        final(overrides)@ == final(overrides)@.subrange(0, 9) + old(overrides)@,
{
    let ghost user = old(overrides)@;
    let avalai = avalai_cli_overrides();
    let ghost front = avalai@;
    prepend_overrides(avalai, overrides);
    assert(overrides_view(overrides@) =~= avalai_overrides_spec() + overrides_view(user));
    assert(overrides@ =~= overrides@.subrange(0, 9) + user);
}

} // verus!
