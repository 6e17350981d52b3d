[package]
name = "codex_profiles"
version = "0.1.0"
edition = "2021"
publish = false

[dependencies]
shlex = "1"
anyhow = "1"
clap = { version = "4", features = ["derive", "env"] }
serde = { version = "1", features = ["derive"] }
serde_json = "1"
toml = "0.8"
dirs = "5"
reqwest = { version = "0.12", default-features = false, features = ["blocking", "json", "rustls-tls"] }
tokio = { version = "1", features = ["rt-multi-thread", "macros"] }
tracing = "0.1"
schemars = "0.8"
rmcp = "*"
