use codex_profiles::cursor_session::cursor_session_auth_file;
use codex_profiles::cursor_session::passthrough_keys;
use codex_profiles::cursor_session::poll_step;
use codex_profiles::cursor_session::PollStep;
use codex_profiles::cursor_session::prepare_cursor_session_command;
use codex_profiles::cursor_session::read_limited;
use codex_profiles::cursor_session::tool_call_failure_text;
use codex_profiles::cursor_session::CursorSessionEnvironment;
use codex_profiles::cursor_session::CursorSessionProcessOutput;
use codex_profiles::cursor_session::CursorSessionToolCallParam;
use codex_profiles::cursor_session::LimitedOutput;
use codex_profiles::cursor_session::ToolCallFailure;
use codex_profiles::cursor_session::MAX_OUTPUT_MAX_BYTES;

fn empty_env() -> CursorSessionEnvironment {
    CursorSessionEnvironment {
        agent_command: None,
        home: None,
        mode: None,
        model: None,
        timeout_seconds: None,
        output_max_bytes: None,
        passthrough: vec![None; passthrough_keys().len()],
    }
}

fn param(command: &str, cursor_home: &str) -> CursorSessionToolCallParam {
    CursorSessionToolCallParam {
        prompt: "inspect the code".to_string(),
        cwd: None,
        command: Some(command.to_string()),
        cursor_home: Some(cursor_home.to_string()),
        mode: None,
        model: None,
        timeout_seconds: None,
        output_max_bytes: None,
    }
}

fn env_value<'a>(env: &'a [(String, Vec<u8>)], key: &str) -> Option<&'a str> {
    env.iter()
        .find(|(k, _)| k == key)
        .map(|(_, v)| std::str::from_utf8(v).expect("UTF-8 value"))
}

#[test]
fn prepare_cursor_session_command_uses_login_home_without_api_key() {
    let mut env = empty_env();
    let keys = passthrough_keys();
    let path_index = keys.iter().position(|k| k == "PATH").expect("PATH passes through");
    env.passthrough[path_index] = Some(b"/usr/bin".to_vec());

    let prepared = prepare_cursor_session_command(
        &CursorSessionToolCallParam {
            prompt: "inspect the code".to_string(),
            cwd: Some("/tmp/root/workspace".to_string()),
            command: Some("cursor-agent --extra".to_string()),
            cursor_home: Some("/tmp/root/cursor-home".to_string()),
            mode: Some("ask".to_string()),
            model: Some("auto".to_string()),
            timeout_seconds: Some(5),
            output_max_bytes: Some(64),
        },
        "/tmp/root",
        &env,
        true,
    )
    .expect("prepared");

    assert_eq!("cursor-agent", prepared.program);
    assert_eq!(
        vec![
            "--extra",
            "-p",
            "--trust",
            "--mode",
            "ask",
            "--model",
            "auto",
            "--output-format",
            "text",
            "inspect the code",
        ],
        prepared.args
    );
    assert_eq!("/tmp/root/workspace", prepared.cwd);
    assert_eq!(5, prepared.timeout_seconds);
    assert_eq!(64, prepared.output_max_bytes);
    assert_eq!(Some("/tmp/root/cursor-home"), env_value(&prepared.env, "HOME"));
    assert_eq!(
        Some("/tmp/root/cursor-home/.config"),
        env_value(&prepared.env, "XDG_CONFIG_HOME")
    );
    assert_eq!(
        Some("/tmp/root/cursor-home/.cache"),
        env_value(&prepared.env, "XDG_CACHE_HOME")
    );
    assert_eq!(
        Some("/tmp/root/cursor-home/.npm"),
        env_value(&prepared.env, "NPM_CONFIG_CACHE")
    );
    assert_eq!(Some("/usr/bin"), env_value(&prepared.env, "PATH"));
    assert!(env_value(&prepared.env, "CURSOR_API_KEY").is_none());
    assert!(env_value(&prepared.env, "APP_SECRET_KEY").is_none());
    assert_eq!(prepared.env.len(), 5);
}

#[test]
fn prepare_cursor_session_command_defaults_to_configured_workspace() {
    let prepared = prepare_cursor_session_command(
        &param("cursor-agent", "/tmp/root/cursor-home"),
        "/tmp/root/configured-workspace",
        &empty_env(),
        true,
    )
    .expect("prepared");

    assert_eq!("/tmp/root/configured-workspace", prepared.cwd);
    assert_eq!(900, prepared.timeout_seconds);
    assert_eq!(16_000, prepared.output_max_bytes);
    assert_eq!(prepared.args[3], "ask");
    assert_eq!(prepared.args[5], "auto");
}

#[test]
fn prepare_cursor_session_command_requires_mounted_auth_file() {
    let p = param("cursor-agent", "/tmp/root");
    let err = prepare_cursor_session_command(&p, "/tmp/root", &empty_env(), false)
        .expect_err("missing auth profile should fail");

    assert!(
        err.contains("cursor-session auth file is not available"),
        "unexpected error: {err}"
    );
    assert_eq!(
        cursor_session_auth_file(&p, &empty_env()),
        "/tmp/root/.config/cursor/auth.json"
    );
}

#[test]
fn prepare_cursor_session_command_caps_output_limit() {
    let mut p = param("cursor-agent", "/tmp/root/cursor-home");
    p.output_max_bytes = Some(MAX_OUTPUT_MAX_BYTES + 1);
    let prepared =
        prepare_cursor_session_command(&p, "/tmp/root", &empty_env(), true).expect("prepared");

    assert_eq!(MAX_OUTPUT_MAX_BYTES, prepared.output_max_bytes);
}

#[test]
fn prepare_cursor_session_command_reports_bad_settings() {
    let bad_quote = param("cursor-agent 'unterminated", "/h");
    assert_eq!(
        prepare_cursor_session_command(&bad_quote, "/w", &empty_env(), true).unwrap_err(),
        "CURSOR_SESSION_AGENT_COMMAND is empty or invalid"
    );
    let mut zero = param("cursor-agent", "/h");
    zero.timeout_seconds = Some(0);
    assert_eq!(
        prepare_cursor_session_command(&zero, "/w", &empty_env(), true).unwrap_err(),
        "timeout-seconds must be greater than zero"
    );
    let mut none = param("cursor-agent", "/h");
    none.output_max_bytes = Some(0);
    assert_eq!(
        prepare_cursor_session_command(&none, "/w", &empty_env(), true).unwrap_err(),
        "output-max-bytes must be greater than zero"
    );
}

#[test]
fn settings_fall_back_to_environment_then_defaults() {
    let mut env = empty_env();
    env.agent_command = Some("\"my agent\" --flag".to_string());
    env.home = Some("/env-home".to_string());
    env.mode = Some("plan".to_string());
    env.timeout_seconds = Some("42".to_string());
    env.output_max_bytes = Some("not a number".to_string());
    let p = CursorSessionToolCallParam {
        prompt: "q".to_string(),
        cwd: None,
        command: Some("   ".to_string()),
        cursor_home: None,
        mode: None,
        model: Some("  gpt  ".to_string()),
        timeout_seconds: None,
        output_max_bytes: None,
    };
    let prepared = prepare_cursor_session_command(&p, "/w", &env, true).expect("prepared");
    assert_eq!(prepared.program, "my agent");
    assert_eq!(prepared.args[0], "--flag");
    assert_eq!(prepared.args[4], "plan");
    assert_eq!(prepared.args[6], "gpt");
    assert_eq!(prepared.timeout_seconds, 42);
    assert_eq!(prepared.output_max_bytes, 16_000);
    assert_eq!(env_value(&prepared.env, "HOME"), Some("/env-home"));
}

#[test]
fn read_limited_caps_retained_output_and_drains_reader() {
    let output = read_limited(&vec![b"abcdef".to_vec()], 3);

    assert_eq!(
        LimitedOutput {
            bytes: b"abc".to_vec(),
            truncated: true,
        },
        output
    );
}

#[test]
fn read_limited_across_chunks() {
    let chunks = vec![b"ab".to_vec(), b"cd".to_vec(), Vec::new(), b"e".to_vec()];
    let kept = read_limited(&chunks, 5);
    assert_eq!(kept.bytes, b"abcde".to_vec());
    assert!(!kept.truncated);
    let capped = read_limited(&chunks, 3);
    assert_eq!(capped.bytes, b"abc".to_vec());
    assert!(capped.truncated);
}

#[test]
fn process_output_preserves_structured_metadata() {
    let result = CursorSessionProcessOutput {
        stdout: LimitedOutput {
            bytes: b"cursor answer".to_vec(),
            truncated: false,
        },
        stderr: LimitedOutput {
            bytes: Vec::new(),
            truncated: false,
        },
        exit_code: Some(0),
        timed_out: false,
    }
    .into_call_tool_result();

    assert!(!result.is_error);
    assert_eq!(result.content, "cursor answer");
    assert_eq!(result.stderr, "");
    assert_eq!(result.exit_code, Some(0));
    assert!(!result.timed_out);
    assert!(!result.stdout_truncated);
    assert!(!result.stderr_truncated);
    assert_eq!(result.text, "cursor answer");
}

#[test]
fn failed_runs_report_stderr_when_stdout_is_blank() {
    let result = CursorSessionProcessOutput {
        stdout: LimitedOutput {
            bytes: b"  \n".to_vec(),
            truncated: false,
        },
        stderr: LimitedOutput {
            bytes: b"boom \xff\n".to_vec(),
            truncated: true,
        },
        exit_code: Some(2),
        timed_out: false,
    }
    .into_call_tool_result();
    assert!(result.is_error);
    assert_eq!(result.text, "boom \u{fffd}");
    assert!(result.stderr_truncated);

    let timed_out = CursorSessionProcessOutput {
        stdout: LimitedOutput {
            bytes: b"partial".to_vec(),
            truncated: false,
        },
        stderr: LimitedOutput {
            bytes: Vec::new(),
            truncated: false,
        },
        exit_code: None,
        timed_out: true,
    }
    .into_call_tool_result();
    assert!(timed_out.is_error);
    assert_eq!(timed_out.text, "partial");
}

#[test]
fn tool_call_failures_are_explained() {
    assert_eq!(
        tool_call_failure_text(&ToolCallFailure::MissingArguments),
        "Missing arguments for cursor-session tool-call; the `prompt` field is required."
    );
    assert_eq!(
        tool_call_failure_text(&ToolCallFailure::BadArguments("x".to_string())),
        "Failed to parse configuration for cursor-session tool: x"
    );
    assert_eq!(
        tool_call_failure_text(&ToolCallFailure::RunFailed("y".to_string())),
        "Failed to run cursor-session tool: y"
    );
}

#[test]
fn passthrough_values_keep_non_unicode_bytes() {
    let mut env = empty_env();
    let keys = passthrough_keys();
    let lang = keys.iter().position(|k| k == "LANG").expect("LANG passes through");
    env.passthrough[lang] = Some(vec![b'C', 0xff]);
    let prepared = prepare_cursor_session_command(&param("cursor-agent", "/h"), "/w", &env, true)
        .expect("prepared");
    let value = prepared
        .env
        .iter()
        .find(|(k, _)| k == "LANG")
        .map(|(_, v)| v.clone());
    assert_eq!(value, Some(vec![b'C', 0xff]));
    assert_eq!(prepared.env[0].0, "LANG");
}

#[test]
fn polling_finishes_kills_or_waits() {
    assert_eq!(poll_step(true, 10_000, 5), PollStep::Finished);
    assert_eq!(poll_step(false, 5, 5), PollStep::Kill);
    assert_eq!(poll_step(false, 4, 5), PollStep::Wait);
}
