# codex_profiles

A verified library for managed Codex account profiles: the rules for profile
and project names and paths, the classification and ranking of profiles by
their ChatGPT usage limits, runtime failover between the profiles of one
launch, profile-pool configuration checks, the `--avalai` provider shortcut,
and the command that the `cursor-session` MCP tool runs. The functions in
`src/` carry contracts proved by Verus, except five small wrappers whose
contracts are trusted: `string_of` (collecting characters into a `String`),
`parent_of` and `file_name_of` (`Path::parent`, `Path::file_name`),
`shlex_split` (`shlex::split`) and `decode_lossy`
(`String::from_utf8_lossy`).

Layout:

- `src/text.rs`, `src/paths.rs`: text and path helpers (trimming, decimal and
  hexadecimal rendering, parsing, ordering, `PathBuf::join` on Unix).
- `src/auth.rs`: stored logins, their resolved mode and summary.
- `src/usage.rs`, `src/managed.rs`: usage payloads, limit status, ranking and
  the refresh summary.
- `src/profiles_root.rs`, `src/project_id.rs`, `src/project_home.rs`: names,
  the layout of the profiles root, listings, project ids and project homes.
- `src/failover.rs`, `src/launch.rs`: failover state, usage-limit payloads,
  best-profile launches and command messages.
- `src/pool.rs`: pool files and pool health reports.
- `src/provider_shortcuts.rs`: the AvalAI overrides.
- `src/cursor_session.rs`: the `cursor-session` command, its environment,
  output capture and report.
- `app/`: the `codex-profiles` binary and everything that touches the file
  system, processes, the network or floating-point numbers.
- `tests/`: tests of the library on concrete values.

Design notes:

- Sets of texts are kept in `Vec<String>` and read as sets in the
  specifications: the profiles marked limited during failover, and the ids
  already seen while a pool file is checked (a duplicate is found by
  comparing against the earlier entries). vstd specifies `HashSet`, but with
  `String` keys its contracts give nothing to reason with, so the set is
  modelled by a vector whose view is the set of its elements.
- The rules for a valid config-profile name belong to the Codex
  configuration crate; `PoolConfig::from_toml` takes their verdict on each
  pool entry as an argument.
