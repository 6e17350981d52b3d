//! Managed Codex account profiles: naming and path rules for profile and
//! project homes, usage-limit classification and ranking, runtime auth
//! failover between profiles, profile-pool configuration checks, the
//! `--avalai` provider shortcut, and the command that the `cursor-session`
//! tool runs.
pub mod text;
pub mod auth;
pub mod usage;
pub mod paths;
pub mod failover;
pub mod cursor_session;
pub mod profiles_root;
pub mod project_id;
pub mod project_home;
pub mod provider_shortcuts;
pub mod pool;
pub mod managed;
pub mod launch;
