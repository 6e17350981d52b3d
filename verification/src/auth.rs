//! What a stored `auth.json` holds and how it is judged: which auth mode it
//! resolves to, whether its credential material is present, and the summary
//! that profile listings and limit lookups work from.
use crate::text::{blank, is_blank, owned};
use vstd::prelude::*;

verus! {

/// How a Codex home authenticates.
#[derive(Debug, Clone, Copy, PartialEq, Eq, Structural)]
pub enum AuthMode {
    ApiKey,
    Chatgpt,
    ChatgptAuthTokens,
    AgentIdentity,
    PersonalAccessToken,
    BedrockApiKey,
}

/// Claims read from the ChatGPT id token.
#[derive(Debug)]
pub struct IdTokenInfo {
    pub email: Option<String>,
    pub chatgpt_account_id: Option<String>,
}

/// ChatGPT tokens stored in `auth.json`.
#[derive(Debug)]
pub struct TokenData {
    pub id_token: IdTokenInfo,
    pub access_token: String,
    pub refresh_token: String,
    pub account_id: Option<String>,
}

/// Stored agent-identity credentials, as far as the checks here read them:
/// whether they carry any auth material.
#[derive(Debug, Clone, Copy)]
pub struct AgentIdentityStorage {
    pub has_auth_material: bool,
}

/// The contents of a Codex home's `auth.json`.
#[derive(Debug)]
pub struct AuthDotJson {
    pub auth_mode: Option<AuthMode>,
    pub openai_api_key: Option<String>,
    pub tokens: Option<TokenData>,
    pub last_refresh: Option<String>,
    pub agent_identity: Option<AgentIdentityStorage>,
    pub personal_access_token: Option<String>,
    pub bedrock_api_key: Option<String>,
}

/// What a profile listing and a limit lookup need to know about a stored
/// login.
#[derive(Debug)]
pub struct AuthSummary {
    pub mode: AuthMode,
    pub email: Option<String>,
    pub access_token: Option<String>,
    pub account_id: Option<String>,
    pub valid: bool,
    pub message: String,
}

/// The mode a stored login is used in: the recorded mode, or else the first
/// credential kind present (personal access token, Bedrock key, API key),
/// or else ChatGPT.
pub open spec fn resolved_mode(auth: AuthDotJson) -> AuthMode {
    if auth.auth_mode is Some {
        auth.auth_mode->0
    } else if auth.personal_access_token is Some {
        AuthMode::PersonalAccessToken
    } else if auth.bedrock_api_key is Some {
        AuthMode::BedrockApiKey
    } else if auth.openai_api_key is Some {
        AuthMode::ApiKey
    } else {
        AuthMode::Chatgpt
    }
}

/// Law: a recorded mode wins; without one, a personal access token, then a
/// Bedrock key, then an OpenAI API key decides the mode, and a login with
/// none of them is a ChatGPT one.
pub proof fn lemma_resolved_mode(auth: AuthDotJson)
    ensures
        auth.auth_mode matches Some(m) ==> resolved_mode(auth) == m,
        auth.auth_mode is None && auth.personal_access_token is Some ==> resolved_mode(auth)
            == AuthMode::PersonalAccessToken,
        auth.auth_mode is None && auth.personal_access_token is None && auth.bedrock_api_key is Some
            ==> resolved_mode(auth) == AuthMode::BedrockApiKey,
        auth.auth_mode is None && auth.personal_access_token is None && auth.bedrock_api_key is None
            && auth.openai_api_key is Some ==> resolved_mode(auth) == AuthMode::ApiKey,
        auth.auth_mode is None && auth.personal_access_token is None && auth.bedrock_api_key is None
            && auth.openai_api_key is None ==> resolved_mode(auth) == AuthMode::Chatgpt,
{
}

/// Law: a login that holds only a non-blank OpenAI API key (no recorded
/// mode, no personal access token, no Bedrock key) is summarized as a valid
/// `api_key` login.
pub proof fn lemma_api_key_only_summary(auth: AuthDotJson, s: AuthSummary)
    requires
        auth.auth_mode is None,
        auth.personal_access_token is None,
        auth.bedrock_api_key is None,
        auth.openai_api_key matches Some(k) && !is_blank(k@),
        summary_of(auth, s),
    ensures
        s.mode == AuthMode::ApiKey,
        s.valid,
        s.message@ == "api_key"@,
{
}

/// A stored text that is present and not blank.
pub open spec fn present(v: Option<String>) -> bool {
    v matches Some(s) && !is_blank(s@)
}

pub open spec fn is_chatgpt_mode(m: AuthMode) -> bool {
    m == AuthMode::Chatgpt || m == AuthMode::ChatgptAuthTokens
}

/// Whether the credential material that `mode` needs is present.
pub open spec fn credentials_present(auth: AuthDotJson, mode: AuthMode) -> bool {
    match mode {
        AuthMode::ApiKey => present(auth.openai_api_key),
        AuthMode::Chatgpt | AuthMode::ChatgptAuthTokens => auth.tokens matches Some(t) && !is_blank(
            t.access_token@,
        ),
        AuthMode::AgentIdentity => auth.agent_identity matches Some(a) && a.has_auth_material,
        AuthMode::PersonalAccessToken => present(auth.personal_access_token),
        AuthMode::BedrockApiKey => auth.bedrock_api_key is Some,
    }
}

/// The label a valid login is listed with, and the complaint about an
/// invalid one.
pub open spec fn summary_message(mode: AuthMode, valid: bool) -> Seq<char> {
    match mode {
        AuthMode::ApiKey => if valid {
            "api_key"@
        } else {
            "missing API key"@
        },
        AuthMode::Chatgpt | AuthMode::ChatgptAuthTokens => if valid {
            "chatgpt"@
        } else {
            "missing ChatGPT access token"@
        },
        AuthMode::AgentIdentity => if valid {
            "agent_identity"@
        } else {
            "missing agent identity auth material"@
        },
        AuthMode::PersonalAccessToken => if valid {
            "personal_access_token"@
        } else {
            "missing personal access token"@
        },
        AuthMode::BedrockApiKey => if valid {
            "bedrock_api_key"@
        } else {
            "missing Bedrock API key"@
        },
    }
}

pub open spec fn opt_view(v: Option<String>) -> Option<Seq<char>> {
    match v {
        Some(s) => Some(s@),
        None => None,
    }
}

/// The ChatGPT account of a login: the stored account id, or else the one
/// from the id token.
pub open spec fn token_account_id(auth: AuthDotJson) -> Option<Seq<char>> {
    match auth.tokens {
        Some(t) => if t.account_id is Some {
            opt_view(t.account_id)
        } else {
            opt_view(t.id_token.chatgpt_account_id)
        },
        None => None,
    }
}

/// The summary of a stored login.
pub open spec fn summary_of(auth: AuthDotJson, s: AuthSummary) -> bool {
    let mode = resolved_mode(auth);
    let valid = credentials_present(auth, mode);
    &&& s.mode == mode
    &&& s.valid == valid
    &&& s.message@ == summary_message(mode, valid)
    &&& opt_view(s.email) == (match auth.tokens {
        Some(t) => opt_view(t.id_token.email),
        None => None,
    })
    &&& opt_view(s.access_token) == (match auth.tokens {
        Some(t) => Some(t.access_token@),
        None => None,
    })
    &&& opt_view(s.account_id) == token_account_id(auth)
}

/// A copy of an optional text.
pub fn copy_opt(v: &Option<String>) -> (r: Option<String>)
    ensures
        r == *v,
{
    match v {
        Some(s) => Some(s.clone()),
        None => None,
    }
}

/// The mode a stored login is used in (see `resolved_mode`).
pub fn resolved_auth_mode(auth: &AuthDotJson) -> (m: AuthMode)
    ensures
        m == resolved_mode(*auth),
{
    if let Some(mode) = auth.auth_mode {
        return mode;
    }
    if auth.personal_access_token.is_some() {
        return AuthMode::PersonalAccessToken;
    }
    if auth.bedrock_api_key.is_some() {
        return AuthMode::BedrockApiKey;
    }
    if auth.openai_api_key.is_some() {
        return AuthMode::ApiKey;
    }
    AuthMode::Chatgpt
}

fn opt_present(v: &Option<String>) -> (b: bool)
    ensures
        b == present(*v),
{
    match v {
        Some(s) => !blank(s.as_str()),
        None => false,
    }
}

/// Summarizes a stored login: its mode, whether its credentials are present,
/// its listing label, and the ChatGPT email, access token and account id.
pub fn auth_summary(auth: &AuthDotJson) -> (s: AuthSummary)
    ensures
        summary_of(*auth, s),
{
    let mode = resolved_auth_mode(auth);
    let valid = match mode {
        AuthMode::ApiKey => opt_present(&auth.openai_api_key),
        AuthMode::Chatgpt | AuthMode::ChatgptAuthTokens => match &auth.tokens {
            Some(t) => !blank(t.access_token.as_str()),
            None => false,
        },
        AuthMode::AgentIdentity => match &auth.agent_identity {
            Some(a) => a.has_auth_material,
            None => false,
        },
        AuthMode::PersonalAccessToken => opt_present(&auth.personal_access_token),
        AuthMode::BedrockApiKey => auth.bedrock_api_key.is_some(),
    };
    let message = match mode {
        AuthMode::ApiKey => if valid {
            owned("api_key")
        } else {
            owned("missing API key")
        },
        AuthMode::Chatgpt | AuthMode::ChatgptAuthTokens => if valid {
            owned("chatgpt")
        } else {
            owned("missing ChatGPT access token")
        },
        AuthMode::AgentIdentity => if valid {
            owned("agent_identity")
        } else {
            owned("missing agent identity auth material")
        },
        AuthMode::PersonalAccessToken => if valid {
            owned("personal_access_token")
        } else {
            owned("missing personal access token")
        },
        AuthMode::BedrockApiKey => if valid {
            owned("bedrock_api_key")
        } else {
            owned("missing Bedrock API key")
        },
    };
    let (email, access_token, account_id) = match &auth.tokens {
        Some(t) => {
            let account = if t.account_id.is_some() {
                copy_opt(&t.account_id)
            } else {
                copy_opt(&t.id_token.chatgpt_account_id)
            };
            (copy_opt(&t.id_token.email), Some(t.access_token.clone()), account)
        },
        None => (None, None, None),
    };
    AuthSummary { mode, email, access_token, account_id, valid, message }
}

/// Why stored credentials are unusable for a pool entry.
pub open spec fn stored_mode_problem(auth: AuthDotJson) -> Option<Seq<char>> {
    match resolved_mode(auth) {
        AuthMode::ApiKey => if present(auth.openai_api_key) {
            None
        } else {
            Some("API key auth is missing a key"@)
        },
        AuthMode::Chatgpt | AuthMode::ChatgptAuthTokens => match auth.tokens {
            None => Some("ChatGPT auth is missing tokens"@),
            Some(t) => if is_blank(t.access_token@) {
                Some("ChatGPT auth is missing an access token"@)
            } else if is_blank(t.refresh_token@) {
                Some("ChatGPT auth is missing a refresh token"@)
            } else {
                None
            },
        },
        AuthMode::AgentIdentity => match auth.agent_identity {
            None => Some("agent identity auth is missing auth material"@),
            Some(a) => if a.has_auth_material {
                None
            } else {
                Some("agent identity auth material is empty"@)
            },
        },
        AuthMode::PersonalAccessToken => if present(auth.personal_access_token) {
            None
        } else {
            Some("personal access token auth is missing a token"@)
        },
        AuthMode::BedrockApiKey => if auth.bedrock_api_key is Some {
            None
        } else {
            Some("Bedrock API key auth is missing a key"@)
        },
    }
}

/// `Ok(())` when `value` is present and not blank, else `Err(message)`.
pub fn require_non_empty(value: Option<&str>, message: &str) -> (r: Result<(), String>)
    ensures
        r is Ok <==> (value matches Some(v) && !is_blank(v@)),
        r matches Err(e) ==> e@ == message@,
{
    match value {
        Some(v) => {
            if !blank(v) {
                Ok(())
            } else {
                Err(owned(message))
            }
        },
        None => Err(owned(message)),
    }
}

fn opt_str(v: &Option<String>) -> (r: Option<&str>)
    ensures
        r is Some == v is Some,
        r matches Some(s) ==> s@ == v->0@,
{
    match v {
        Some(s) => Some(s.as_str()),
        None => None,
    }
}

/// The mode of stored credentials that a pool entry can use, or the reason
/// they are unusable.
pub fn stored_auth_mode(auth: &AuthDotJson) -> (r: Result<AuthMode, String>)
    ensures
        r matches Ok(m) ==> m == resolved_mode(*auth) && stored_mode_problem(*auth) is None,
        r matches Err(e) ==> stored_mode_problem(*auth) == Some(e@),
{
    let mode = resolved_auth_mode(auth);
    match mode {
        AuthMode::ApiKey => {
            require_non_empty(opt_str(&auth.openai_api_key), "API key auth is missing a key")?;
        },
        AuthMode::Chatgpt | AuthMode::ChatgptAuthTokens => {
            let tokens = match &auth.tokens {
                Some(t) => t,
                None => {
                    return Err(owned("ChatGPT auth is missing tokens"));
                },
            };
            require_non_empty(
                Some(tokens.access_token.as_str()),
                "ChatGPT auth is missing an access token",
            )?;
            require_non_empty(
                Some(tokens.refresh_token.as_str()),
                "ChatGPT auth is missing a refresh token",
            )?;
        },
        AuthMode::AgentIdentity => {
            let agent = match &auth.agent_identity {
                Some(a) => a,
                None => {
                    return Err(owned("agent identity auth is missing auth material"));
                },
            };
            if !agent.has_auth_material {
                return Err(owned("agent identity auth material is empty"));
            }
        },
        AuthMode::PersonalAccessToken => {
            require_non_empty(
                opt_str(&auth.personal_access_token),
                "personal access token auth is missing a token",
            )?;
        },
        AuthMode::BedrockApiKey => {
            if auth.bedrock_api_key.is_none() {
                return Err(owned("Bedrock API key auth is missing a key"));
            }
        },
    }
    Ok(mode)
}

pub open spec fn mode_name(mode: AuthMode) -> Seq<char> {
    match mode {
        AuthMode::ApiKey => "api_key"@,
        AuthMode::Chatgpt => "chatgpt"@,
        AuthMode::ChatgptAuthTokens => "chatgpt_auth_tokens"@,
        AuthMode::AgentIdentity => "agent_identity"@,
        AuthMode::PersonalAccessToken => "personal_access_token"@,
        AuthMode::BedrockApiKey => "bedrock_api_key"@,
    }
}

/// The name a pool status report gives an auth mode.
pub fn auth_mode_name(mode: AuthMode) -> (r: String)
    ensures
        r@ == mode_name(mode),
{
    match mode {
        AuthMode::ApiKey => owned("api_key"),
        AuthMode::Chatgpt => owned("chatgpt"),
        AuthMode::ChatgptAuthTokens => owned("chatgpt_auth_tokens"),
        AuthMode::AgentIdentity => owned("agent_identity"),
        AuthMode::PersonalAccessToken => owned("personal_access_token"),
        AuthMode::BedrockApiKey => owned("bedrock_api_key"),
    }
}

/// Where Codex keeps stored credentials.
#[derive(Debug, Clone, Copy, PartialEq, Eq, Structural)]
pub enum AuthCredentialsStoreMode {
    File,
    Keyring,
    Auto,
    Ephemeral,
}

pub open spec fn store_name(mode: AuthCredentialsStoreMode) -> Seq<char> {
    match mode {
        AuthCredentialsStoreMode::File => "file"@,
        AuthCredentialsStoreMode::Keyring => "keyring"@,
        AuthCredentialsStoreMode::Auto => "auto"@,
        AuthCredentialsStoreMode::Ephemeral => "ephemeral"@,
    }
}

/// The name a pool status report gives a credential store.
pub fn auth_store_name(mode: AuthCredentialsStoreMode) -> (r: String)
    ensures
        r@ == store_name(mode),
{
    match mode {
        AuthCredentialsStoreMode::File => owned("file"),
        AuthCredentialsStoreMode::Keyring => owned("keyring"),
        AuthCredentialsStoreMode::Auto => owned("auto"),
        AuthCredentialsStoreMode::Ephemeral => owned("ephemeral"),
    }
}

} // verus!
