//! The `cursor-session` tool: which Cursor Agent command it runs, with which
//! arguments, working directory, environment, time limit and output cap;
//! how much of the child's output it keeps; and what it reports back.
use crate::auth::opt_view;
use crate::paths::{join, join_path};
use crate::text::{
    blank, cat, decimal, is_blank, lemma_parse_decimal, owned, parse_u64, parse_unsigned,
    parse_usize, texts, trim, trimmed,
};
use vstd::prelude::*;
use vstd::utf8::encode_utf8;

verus! {

pub const DEFAULT_TIMEOUT_SECONDS: u64 = 900u64;

pub const DEFAULT_OUTPUT_MAX_BYTES: usize = 16000usize;

pub const MAX_OUTPUT_MAX_BYTES: usize = 16000usize;

/// Client-supplied configuration for the `cursor-session` tool-call.
#[derive(Debug)]
pub struct CursorSessionToolCallParam {
    /// The task or question to send to Cursor Agent.
    pub prompt: String,
    /// Working directory for Cursor Agent; defaults to the server's.
    pub cwd: Option<String>,
    /// Cursor Agent command to execute.
    pub command: Option<String>,
    /// Cursor login-profile home directory.
    pub cursor_home: Option<String>,
    /// Cursor mode.
    pub mode: Option<String>,
    /// Cursor model.
    pub model: Option<String>,
    /// Maximum runtime in seconds.
    pub timeout_seconds: Option<u64>,
    /// Maximum stdout/stderr bytes retained from the child process.
    pub output_max_bytes: Option<usize>,
}

/// The environment variables that the tool reads: the defaults it takes
/// settings from, and the values of the variables it passes through to the
/// child, in the order of `passthrough_keys`, as the bytes of the
/// platform's environment value (`None` when unset).
#[derive(Debug)]
pub struct CursorSessionEnvironment {
    pub agent_command: Option<String>,
    pub home: Option<String>,
    pub mode: Option<String>,
    pub model: Option<String>,
    pub timeout_seconds: Option<String>,
    pub output_max_bytes: Option<String>,
    pub passthrough: Vec<Option<Vec<u8>>>,
}

/// A command ready to run.
#[derive(Debug)]
pub struct PreparedCursorSessionCommand {
    pub program: String,
    pub args: Vec<String>,
    pub cwd: String,
    pub env: Vec<(String, Vec<u8>)>,
    pub timeout_seconds: u64,
    pub output_max_bytes: usize,
}

/// The variables passed through from the server's environment to the child.
pub open spec fn passthrough_key_list() -> Seq<Seq<char>> {
    seq![
        "ALL_PROXY"@,
        "PATH"@,
        "LANG"@,
        "LC_ALL"@,
        "SSL_CERT_FILE"@,
        "SSL_CERT_DIR"@,
        "HTTP_PROXY"@,
        "HTTPS_PROXY"@,
        "NO_PROXY"@,
        "all_proxy"@,
        "http_proxy"@,
        "https_proxy"@,
        "no_proxy"@,
    ]
}

pub fn passthrough_keys() -> (r: Vec<String>)
    ensures
        r@.map_values(|s: String| s@) == passthrough_key_list(),
{
    let r = vec![
        owned("ALL_PROXY"),
        owned("PATH"),
        owned("LANG"),
        owned("LC_ALL"),
        owned("SSL_CERT_FILE"),
        owned("SSL_CERT_DIR"),
        owned("HTTP_PROXY"),
        owned("HTTPS_PROXY"),
        owned("NO_PROXY"),
        owned("all_proxy"),
        owned("http_proxy"),
        owned("https_proxy"),
        owned("no_proxy"),
    ];
    assert(r@.map_values(|s: String| s@) =~= passthrough_key_list());
    r
}

/// A setting: the given value trimmed when it is not blank, else the
/// environment's value when that is not blank, else the default.
pub open spec fn setting(value: Option<Seq<char>>, env: Option<Seq<char>>, default: Seq<char>) -> Seq<
    char,
> {
    if value is Some && !is_blank(value->0) {
        trimmed(value->0)
    } else if env is Some && !is_blank(env->0) {
        env->0
    } else {
        default
    }
}

/// `non_empty_or_env`: see `setting`.
pub fn non_empty_or_env(value: &Option<String>, env_value: &Option<String>, default: &str) -> (r:
    String)
    ensures
        r@ == setting(opt_view(*value), opt_view(*env_value), default@),
{
    if let Some(v) = value {
        if !blank(v.as_str()) {
            return trim(v.as_str());
        }
    }
    if let Some(e) = env_value {
        if !blank(e.as_str()) {
            return e.clone();
        }
    }
    owned(default)
}

/// The Cursor login-profile home the command runs with.
pub open spec fn home_setting(p: CursorSessionToolCallParam, env: CursorSessionEnvironment) -> Seq<
    char,
> {
    setting(opt_view(p.cursor_home), opt_view(env.home), "/cursor-home"@)
}

/// Where the Cursor login of a home is: `.config/cursor/auth.json` in it.
pub open spec fn auth_file_of(home: Seq<char>) -> Seq<char> {
    join(join(join(home, ".config"@), "cursor"@), "auth.json"@)
}

pub fn cursor_session_home(p: &CursorSessionToolCallParam, env: &CursorSessionEnvironment) -> (r:
    String)
    ensures
        r@ == home_setting(*p, *env),
{
    non_empty_or_env(&p.cursor_home, &env.home, "/cursor-home")
}

/// The Cursor auth file that must exist for the tool to run.
pub fn cursor_session_auth_file(p: &CursorSessionToolCallParam, env: &CursorSessionEnvironment) -> (r:
    String)
    ensures
        r@ == auth_file_of(home_setting(*p, *env)),
{
    let home = cursor_session_home(p, env);
    let config = join_path(home.as_str(), ".config");
    let cursor = join_path(config.as_str(), "cursor");
    join_path(cursor.as_str(), "auth.json")
}

/// The time limit: the given one, else the environment's when it parses,
/// else 900 seconds.
pub open spec fn timeout_setting(p: CursorSessionToolCallParam, env: CursorSessionEnvironment) -> nat {
    if p.timeout_seconds is Some {
        p.timeout_seconds->0 as nat
    } else if env.timeout_seconds is Some && parse_unsigned(env.timeout_seconds->0@, u64::MAX as nat) is Some {
        parse_unsigned(env.timeout_seconds->0@, u64::MAX as nat)->0
    } else {
        DEFAULT_TIMEOUT_SECONDS as nat
    }
}

/// The output cap as asked for: the given one, else the environment's when
/// it parses, else 16000 bytes.
pub open spec fn output_setting(p: CursorSessionToolCallParam, env: CursorSessionEnvironment) -> nat {
    if p.output_max_bytes is Some {
        p.output_max_bytes->0 as nat
    } else if env.output_max_bytes is Some && parse_unsigned(env.output_max_bytes->0@, usize::MAX as nat) is Some {
        parse_unsigned(env.output_max_bytes->0@, usize::MAX as nat)->0
    } else {
        DEFAULT_OUTPUT_MAX_BYTES as nat
    }
}

/// The command text to run: the given one, else the environment's, else
/// `cursor-agent`.
pub open spec fn command_setting(p: CursorSessionToolCallParam, env: CursorSessionEnvironment) -> Seq<
    char,
> {
    setting(opt_view(p.command), opt_view(env.agent_command), "cursor-agent"@)
}

/// What `shlex::split` returns for a text: its shell words, or `None` when
/// the text is malformed (an unterminated quote or a trailing backslash).
pub uninterp spec fn shlex_words(s: Seq<char>) -> Option<Seq<Seq<char>>>;

/// `shlex::split`: splits a command line into words with POSIX shell quoting.
#[verifier::external_body]
fn shlex_split(s: &str) -> (r: Option<Vec<String>>)
    ensures
        r matches Some(v) ==> shlex_words(s@) == Some(texts(v@)),
        r is None ==> shlex_words(s@) is None,
{
    shlex::split(s)
}

/// The child's environment: each passthrough variable that is set, in the
/// order of `passthrough_key_list`, then `HOME` as the Cursor home and
/// `XDG_CONFIG_HOME`, `XDG_CACHE_HOME` and `NPM_CONFIG_CACHE` under it
/// (values as their UTF-8 bytes).
pub open spec fn child_env(home: Seq<char>, values: Seq<Option<Vec<u8>>>) -> Seq<
    (Seq<char>, Seq<u8>),
> {
    passthrough_pairs(values, 0) + seq![
        ("HOME"@, encode_utf8(home)),
        ("XDG_CONFIG_HOME"@, encode_utf8(join(home, ".config"@))),
        ("XDG_CACHE_HOME"@, encode_utf8(join(home, ".cache"@))),
        ("NPM_CONFIG_CACHE"@, encode_utf8(join(home, ".npm"@))),
    ]
}

/// The set passthrough variables from position `i` of the key list on.
pub open spec fn passthrough_pairs(values: Seq<Option<Vec<u8>>>, i: int) -> Seq<(Seq<char>, Seq<u8>)>
    decreases passthrough_key_list().len() - i,
{
    if i < 0 || i >= passthrough_key_list().len() {
        seq![]
    } else {
        let rest = passthrough_pairs(values, i + 1);
        if i < values.len() && values[i] is Some {
            seq![(passthrough_key_list()[i], values[i]->0@)] + rest
        } else {
            rest
        }
    }
}

pub open spec fn pair_views(v: Seq<(String, Vec<u8>)>) -> Seq<(Seq<char>, Seq<u8>)> {
    v.map_values(|p: (String, Vec<u8>)| (p.0@, p.1@))
}

/// The UTF-8 bytes of a text.
fn text_bytes(s: &str) -> (r: Vec<u8>)
    ensures
        r@ == encode_utf8(s@),
{
    let b = s.as_bytes();
    assert(b@ == encode_utf8(s@));
    vstd::slice::slice_to_vec(b)
}

/// The variables the child may see: the passthrough ones and the four home
/// variables.
pub open spec fn allowed_child_key(k: Seq<char>) -> bool {
    passthrough_key_list().contains(k) || k == "HOME"@ || k == "XDG_CONFIG_HOME"@ || k
        == "XDG_CACHE_HOME"@ || k == "NPM_CONFIG_CACHE"@
}

proof fn lemma_passthrough_keys_allowed(values: Seq<Option<Vec<u8>>>, i: int)
    ensures
        forall|j: int|
            0 <= j < passthrough_pairs(values, i).len() ==> passthrough_key_list().contains(
                #[trigger] passthrough_pairs(values, i)[j].0,
            ),
    decreases passthrough_key_list().len() - i,
{
    if 0 <= i < passthrough_key_list().len() {
        lemma_passthrough_keys_allowed(values, i + 1);
        let rest = passthrough_pairs(values, i + 1);
        if i < values.len() && values[i] is Some {
            let head = (passthrough_key_list()[i], values[i]->0@);
            assert(passthrough_key_list().contains(head.0));
            assert forall|j: int|
                0 <= j < passthrough_pairs(values, i).len() implies passthrough_key_list().contains(
                #[trigger] passthrough_pairs(values, i)[j].0,
            ) by {
                if j > 0 {
                    assert(passthrough_pairs(values, i)[j] == rest[j - 1]);
                }
            }
        }
    }
}

/// Law: the child never sees a variable outside the passthrough list and the
/// four home variables (no API keys or other secrets of the server).
pub proof fn lemma_child_env_only_allowed(home: Seq<char>, values: Seq<Option<Vec<u8>>>)
    ensures
        forall|j: int|
            0 <= j < child_env(home, values).len() ==> allowed_child_key(
                #[trigger] child_env(home, values)[j].0,
            ),
{
    lemma_passthrough_keys_allowed(values, 0);
    let p = passthrough_pairs(values, 0);
    assert forall|j: int| 0 <= j < child_env(home, values).len() implies allowed_child_key(
        #[trigger] child_env(home, values)[j].0,
    ) by {
        if j < p.len() {
            assert(child_env(home, values)[j] == p[j]);
        }
    }
}

/// The child's environment (see `child_env`).
pub fn cursor_session_child_env(home: &str, values: &Vec<Option<Vec<u8>>>) -> (r: Vec<
    (String, Vec<u8>),
>)
    ensures
        pair_views(r@) == child_env(home@, values@),
{
    let keys = passthrough_keys();
    let mut out: Vec<(String, Vec<u8>)> = Vec::new();
    let n = keys.len();
    let mut i: usize = n;
    assert(keys@.len() == 13) by {
        assert(texts(keys@).len() == passthrough_key_list().len());
    }
    // walk the key list backwards, prepending set values
    let mut rev: Vec<(String, Vec<u8>)> = Vec::new();
    while i > 0
        invariant
            n == keys.len(),
            n == passthrough_key_list().len(),
            i <= n,
            keys@.map_values(|s: String| s@) == passthrough_key_list(),
            pair_views(rev@).reverse() == passthrough_pairs(values@, i as int),
        decreases i,
    {
        i = i - 1;
        let ghost before = rev@;
        if i < values.len() {
            if let Some(v) = &values[i] {
                rev.push((keys[i].clone(), vstd::slice::slice_to_vec(v.as_slice())));
                proof {
                    assert(keys@.map_values(|s: String| s@)[i as int] == keys@[i as int]@);
                    assert(pair_views(rev@) =~= pair_views(before).push(
                        (passthrough_key_list()[i as int], values@[i as int]->0@),
                    ));
                    assert(pair_views(rev@).reverse() =~= seq![
                        (passthrough_key_list()[i as int], values@[i as int]->0@),
                    ] + pair_views(before).reverse());
                }
            }
        }
    }
    let len = rev.len();
    let mut j: usize = 0;
    while j < len
        invariant
            len == rev.len(),
            j <= len,
            pair_views(out@) == pair_views(rev@).reverse().subrange(0, j as int),
        decreases len - j,
    {
        let p = &rev[len - 1 - j];
        let ghost before = out@;
        out.push((p.0.clone(), vstd::slice::slice_to_vec(p.1.as_slice())));
        proof {
            assert(pair_views(out@) =~= pair_views(before).push((p.0@, p.1@)));
            assert(pair_views(rev@).reverse()[j as int] == pair_views(rev@)[len - 1 - j]);
        }
        j = j + 1;
        assert(pair_views(out@) =~= pair_views(rev@).reverse().subrange(0, j as int));
    }
    assert(pair_views(rev@).reverse().subrange(0, len as int) =~= pair_views(rev@).reverse());
    let ghost pass = pair_views(out@);
    let config = join_path(home, ".config");
    let cache = join_path(home, ".cache");
    let npm = join_path(home, ".npm");
    out.push((owned("HOME"), text_bytes(home)));
    out.push((owned("XDG_CONFIG_HOME"), text_bytes(config.as_str())));
    out.push((owned("XDG_CACHE_HOME"), text_bytes(cache.as_str())));
    out.push((owned("NPM_CONFIG_CACHE"), text_bytes(npm.as_str())));
    assert(pair_views(out@) =~= child_env(home@, values@));
    out
}

/// The arguments after the program: the command's remaining words, then
/// print mode, trust, mode, model, text output and the prompt.
pub open spec fn args_of(rest: Seq<Seq<char>>, mode: Seq<char>, model: Seq<char>, prompt: Seq<char>) -> Seq<Seq<char>> {
    rest + seq![
        "-p"@,
        "--trust"@,
        "--mode"@,
        mode,
        "--model"@,
        model,
        "--output-format"@,
        "text"@,
        prompt,
    ]
}

/// What preparing the command gives for given settings, the command's shell
/// words and whether the Cursor auth file exists.
pub open spec fn prepared_spec(
    p: CursorSessionToolCallParam,
    default_cwd: Seq<char>,
    env: CursorSessionEnvironment,
    words: Option<Seq<Seq<char>>>,
    auth_file_exists: bool,
    r: Result<PreparedCursorSessionCommand, String>,
) -> bool {
    let home = home_setting(p, env);
    if !(words matches Some(w) && w.len() > 0) {
        r matches Err(e) && e@ == "CURSOR_SESSION_AGENT_COMMAND is empty or invalid"@
    } else if !auth_file_exists {
        r matches Err(e) && e@ == "cursor-session auth file is not available at "@ + auth_file_of(
            home,
        )
    } else if timeout_setting(p, env) == 0 {
        r matches Err(e) && e@ == "timeout-seconds must be greater than zero"@
    } else if output_setting(p, env) == 0 {
        r matches Err(e) && e@ == "output-max-bytes must be greater than zero"@
    } else {
        r matches Ok(c) && {
            let w = words->0;
            &&& c.program@ == w[0]
            &&& texts(c.args@) == args_of(
                w.drop_first(),
                setting(opt_view(p.mode), opt_view(env.mode), "ask"@),
                setting(opt_view(p.model), opt_view(env.model), "auto"@),
                p.prompt@,
            )
            &&& c.cwd@ == (match p.cwd {
                Some(d) => d@,
                None => default_cwd,
            })
            &&& pair_views(c.env@) == child_env(home, env.passthrough@)
            &&& c.timeout_seconds as nat == timeout_setting(p, env)
            &&& c.output_max_bytes as nat == (if output_setting(p, env)
                > MAX_OUTPUT_MAX_BYTES as nat {
                MAX_OUTPUT_MAX_BYTES as nat
            } else {
                output_setting(p, env)
            })
        }
    }
}

/// Law: a prepared command's output cap is the call's cap, else the
/// environment's `CURSOR_SESSION_OUTPUT_MAX_BYTES` when it is a number, else
/// 16000, and never more than 16000; its time limit is the call's, else the
/// environment's `CURSOR_SESSION_TIMEOUT_SECONDS` when it is a number, else
/// 900 seconds. (`n` and `t` stand for the numbers the environment's texts
/// spell.)
pub proof fn lemma_prepared_limits(
    p: CursorSessionToolCallParam,
    default_cwd: Seq<char>,
    env: CursorSessionEnvironment,
    words: Option<Seq<Seq<char>>>,
    auth_file_exists: bool,
    r: Result<PreparedCursorSessionCommand, String>,
    n: usize,
    t: u64,
)
    requires
        prepared_spec(p, default_cwd, env, words, auth_file_exists, r),
    ensures
        r matches Ok(c) ==> {
            &&& c.output_max_bytes <= 16000
            &&& p.output_max_bytes matches Some(m) ==> c.output_max_bytes == (if m < 16000 {
                m
            } else {
                16000
            })
            &&& (p.output_max_bytes is None && env.output_max_bytes is Some
                && env.output_max_bytes->0@ == decimal(n as nat)) ==> c.output_max_bytes == (if n < 16000 {
                n
            } else {
                16000
            })
            &&& (p.output_max_bytes is None && env.output_max_bytes is None)
                ==> c.output_max_bytes == 16000
            &&& p.timeout_seconds matches Some(m) ==> c.timeout_seconds == m
            &&& (p.timeout_seconds is None && env.timeout_seconds is Some
                && env.timeout_seconds->0@ == decimal(t as nat)) ==> c.timeout_seconds == t
            &&& (p.timeout_seconds is None && env.timeout_seconds is None) ==> c.timeout_seconds
                == 900
        },
{
    lemma_parse_decimal(n as nat, usize::MAX as nat);
    lemma_parse_decimal(t as nat, u64::MAX as nat);
}

fn timeout_seconds_of(p: &CursorSessionToolCallParam, env: &CursorSessionEnvironment) -> (r: u64)
    ensures
        r as nat == timeout_setting(*p, *env),
{
    match p.timeout_seconds {
        Some(t) => t,
        None => match &env.timeout_seconds {
            Some(t) => match parse_u64(t.as_str()) {
                Some(v) => v,
                None => DEFAULT_TIMEOUT_SECONDS,
            },
            None => DEFAULT_TIMEOUT_SECONDS,
        },
    }
}

fn output_max_bytes_of(p: &CursorSessionToolCallParam, env: &CursorSessionEnvironment) -> (r: usize)
    ensures
        r as nat == output_setting(*p, *env),
{
    match p.output_max_bytes {
        Some(t) => t,
        None => match &env.output_max_bytes {
            Some(t) => match parse_usize(t.as_str()) {
                Some(v) => v,
                None => DEFAULT_OUTPUT_MAX_BYTES,
            },
            None => DEFAULT_OUTPUT_MAX_BYTES,
        },
    }
}

/// Prepares the command from the command's shell words (what `shlex::split`
/// gave for `command_setting`) and whether the Cursor auth file exists (see
/// `prepared_spec`).
pub fn prepare_cursor_session_command_from_words(
    p: &CursorSessionToolCallParam,
    default_cwd: &str,
    env: &CursorSessionEnvironment,
    words: Option<Vec<String>>,
    auth_file_exists: bool,
) -> (r: Result<PreparedCursorSessionCommand, String>)
    ensures
        prepared_spec(
            *p,
            default_cwd@,
            *env,
            match words {
                Some(w) => Some(texts(w@)),
                None => None,
            },
            auth_file_exists,
            r,
        ),
{
    let parts = match words {
        Some(w) => w,
        None => {
            return Err(owned("CURSOR_SESSION_AGENT_COMMAND is empty or invalid"));
        },
    };
    if parts.len() == 0 {
        return Err(owned("CURSOR_SESSION_AGENT_COMMAND is empty or invalid"));
    }
    let home = cursor_session_home(p, env);
    if !auth_file_exists {
        let auth_file = cursor_session_auth_file(p, env);
        return Err(cat("cursor-session auth file is not available at ", auth_file.as_str()));
    }
    let mode = non_empty_or_env(&p.mode, &env.mode, "ask");
    let model = non_empty_or_env(&p.model, &env.model, "auto");
    let timeout_seconds = timeout_seconds_of(p, env);
    if timeout_seconds == 0 {
        return Err(owned("timeout-seconds must be greater than zero"));
    }
    let output_max_bytes = output_max_bytes_of(p, env);
    if output_max_bytes == 0 {
        return Err(owned("output-max-bytes must be greater than zero"));
    }
    let output_max_bytes = if output_max_bytes > MAX_OUTPUT_MAX_BYTES {
        MAX_OUTPUT_MAX_BYTES
    } else {
        output_max_bytes
    };
    let program = parts[0].clone();
    let mut args: Vec<String> = Vec::new();
    let mut i: usize = 1;
    while i < parts.len()
        invariant
            1 <= i <= parts.len(),
            texts(args@) == texts(parts@).drop_first().subrange(0, i - 1),
        decreases parts.len() - i,
    {
        let ghost before = args@;
        args.push(parts[i].clone());
        proof {
            assert(args@ =~= before.push(parts@[i as int]));
            assert(texts(args@) =~= texts(before).push(parts@[i as int]@));
            assert(texts(parts@).drop_first()[i - 1] == parts@[i as int]@);
        }
        i = i + 1;
        assert(texts(args@) =~= texts(parts@).drop_first().subrange(0, i - 1));
    }
    assert(texts(parts@).drop_first().subrange(0, parts.len() - 1) =~= texts(parts@).drop_first());
    let ghost rest = texts(args@);
    args.push(owned("-p"));
    args.push(owned("--trust"));
    args.push(owned("--mode"));
    args.push(mode);
    args.push(owned("--model"));
    args.push(model);
    args.push(owned("--output-format"));
    args.push(owned("text"));
    args.push(p.prompt.clone());
    assert(texts(args@) =~= args_of(
        rest,
        setting(opt_view(p.mode), opt_view(env.mode), "ask"@),
        setting(opt_view(p.model), opt_view(env.model), "auto"@),
        p.prompt@,
    ));
    let cwd = match &p.cwd {
        Some(d) => d.clone(),
        None => owned(default_cwd),
    };
    let child = cursor_session_child_env(home.as_str(), &env.passthrough);
    Ok(
        PreparedCursorSessionCommand {
            program,
            args,
            cwd,
            env: child,
            timeout_seconds,
            output_max_bytes,
        },
    )
}

/// Prepares the command the tool runs: splits the command setting into shell
/// words and hands them to `prepare_cursor_session_command_from_words`.
pub fn prepare_cursor_session_command(
    p: &CursorSessionToolCallParam,
    default_cwd: &str,
    env: &CursorSessionEnvironment,
    auth_file_exists: bool,
) -> (r: Result<PreparedCursorSessionCommand, String>)
    ensures
        prepared_spec(
            *p,
            default_cwd@,
            *env,
            shlex_words(command_setting(*p, *env)),
            auth_file_exists,
            r,
        ),
{
    let command = non_empty_or_env(&p.command, &env.agent_command, "cursor-agent");
    let words = shlex_split(command.as_str());
    prepare_cursor_session_command_from_words(p, default_cwd, env, words, auth_file_exists)
}

/// Output read from a child stream, up to a cap: the bytes kept and whether
/// more arrived than the cap.
#[derive(Debug, PartialEq, Eq)]
pub struct LimitedOutput {
    pub bytes: Vec<u8>,
    pub truncated: bool,
}

pub open spec fn min_nat(a: nat, b: nat) -> nat {
    if a < b {
        a
    } else {
        b
    }
}

/// What is kept of the stream `s` under a cap of `max` bytes: its first
/// `max` bytes, and whether it was longer.
pub open spec fn keeps(out: LimitedOutput, s: Seq<u8>, max: nat) -> bool {
    &&& out.bytes@ == s.take(min_nat(s.len(), max) as int)
    &&& out.truncated == (s.len() > max)
}

pub open spec fn flatten(chunks: Seq<Vec<u8>>) -> Seq<u8>
    decreases chunks.len(),
{
    if chunks.len() == 0 {
        seq![]
    } else {
        flatten(chunks.drop_last()) + chunks.last()@
    }
}

impl LimitedOutput {
    pub fn new() -> (r: LimitedOutput)
        ensures
            r.bytes@ == Seq::<u8>::empty(),
            !r.truncated,
    {
        LimitedOutput { bytes: Vec::new(), truncated: false }
    }

    /// Takes in one chunk read from the stream: keeps as much of it as still
    /// fits under `max_bytes`, and notes when some of it does not fit.
    pub fn absorb(&mut self, chunk: &[u8], max_bytes: usize)
        ensures
            ({
                let room: int = if old(self).bytes.len() < max_bytes {
                    max_bytes - old(self).bytes.len()
                } else {
                    0
                };
                &&& final(self).bytes@ == old(self).bytes@ + chunk@.take(
                    if chunk.len() < room {
                        chunk.len() as int
                    } else {
                        room
                    },
                )
                &&& final(self).truncated == (old(self).truncated || chunk.len() > room)
            }),
            forall|s: Seq<u8>| keeps(*old(self), s, max_bytes as nat) ==> keeps(
                *final(self),
                s + chunk@,
                max_bytes as nat,
            ),
    {
        let remaining: usize = if self.bytes.len() < max_bytes {
            max_bytes - self.bytes.len()
        } else {
            0
        };
        let take: usize = if chunk.len() < remaining {
            chunk.len()
        } else {
            remaining
        };
        let ghost before = self.bytes@;
        let mut i: usize = 0;
        while i < take
            invariant
                i <= take,
                take <= chunk.len(),
                self.bytes@ == before + chunk@.subrange(0, i as int),
                self.truncated == old(self).truncated,
                before == old(self).bytes@,
            decreases take - i,
        {
            self.bytes.push(chunk[i]);
            i = i + 1;
            assert(self.bytes@ =~= before + chunk@.subrange(0, i as int));
        }
        if chunk.len() > remaining {
            self.truncated = true;
        }
        assert forall|s: Seq<u8>| keeps(*old(self), s, max_bytes as nat) implies keeps(
            *self,
            s + chunk@,
            max_bytes as nat,
        ) by {
            let t = s + chunk@;
            let k = min_nat(t.len(), max_bytes as nat);
            assert(self.bytes@ =~= t.take(k as int)) by {
                assert(before == s.take(min_nat(s.len(), max_bytes as nat) as int));
                if s.len() >= max_bytes {
                    assert(remaining == 0);
                } else {
                    assert(before.len() == s.len());
                }
            }
        }
    }
}

/// Reads a stream given as the chunks it arrived in, keeping at most
/// `max_bytes` of it.
pub fn read_limited(chunks: &Vec<Vec<u8>>, max_bytes: usize) -> (r: LimitedOutput)
    ensures
        keeps(r, flatten(chunks@), max_bytes as nat),
{
    let mut out = LimitedOutput::new();
    let mut i: usize = 0;
    assert(keeps(out, flatten(chunks@.subrange(0, 0)), max_bytes as nat)) by {
        assert(chunks@.subrange(0, 0).len() == 0);
        assert(out.bytes@ =~= flatten(chunks@.subrange(0, 0)).take(0));
    }
    while i < chunks.len()
        invariant
            i <= chunks.len(),
            keeps(out, flatten(chunks@.subrange(0, i as int)), max_bytes as nat),
        decreases chunks.len() - i,
    {
        out.absorb(chunks[i].as_slice(), max_bytes);
        assert(chunks@.subrange(0, i + 1).drop_last() =~= chunks@.subrange(0, i as int));
        i = i + 1;
    }
    assert(chunks@.subrange(0, chunks.len() as int) =~= chunks@);
    out
}

/// What `String::from_utf8_lossy` gives for some bytes.
pub uninterp spec fn utf8_lossy(bytes: Seq<u8>) -> Seq<char>;

/// `String::from_utf8_lossy`: decodes UTF-8, replacing invalid sequences with
/// U+FFFD. Valid UTF-8 decodes as it is.
#[verifier::external_body]
fn decode_lossy(bytes: &[u8]) -> (r: String)
    ensures
        r@ == utf8_lossy(bytes@),
        vstd::utf8::valid_utf8(bytes@) ==> r@ == vstd::utf8::decode_utf8(bytes@),
{
    String::from_utf8_lossy(bytes).into_owned()
}

impl LimitedOutput {
    /// The kept output as text, trimmed.
    pub fn text(&self) -> (r: String)
        ensures
            r@ == trimmed(utf8_lossy(self.bytes@)),
    {
        let s = decode_lossy(self.bytes.as_slice());
        trim(s.as_str())
    }
}

/// How the child process ended.
#[derive(Debug)]
pub struct CursorSessionProcessOutput {
    pub stdout: LimitedOutput,
    pub stderr: LimitedOutput,
    pub exit_code: Option<i32>,
    pub timed_out: bool,
}

/// What the tool reports: whether it is an error, the text shown to the
/// model, and the structured content.
#[derive(Debug)]
pub struct CursorSessionToolResult {
    pub is_error: bool,
    pub text: String,
    pub content: String,
    pub stderr: String,
    pub exit_code: Option<i32>,
    pub timed_out: bool,
    pub stdout_truncated: bool,
    pub stderr_truncated: bool,
}

impl CursorSessionProcessOutput {
    /// The run succeeded: it finished in time with exit code 0.
    pub fn success(&self) -> (b: bool)
        ensures
            b == (!self.timed_out && self.exit_code == Some(0i32)),
    {
        !self.timed_out && match self.exit_code {
            Some(c) => c == 0,
            None => false,
        }
    }

    /// The report of a finished run: an error unless it succeeded; the model
    /// sees stdout, or stderr when stdout is blank and stderr is not.
    pub fn into_call_tool_result(self) -> (r: CursorSessionToolResult)
        ensures
            r.is_error == !(!self.timed_out && self.exit_code == Some(0i32)),
            r.content@ == trimmed(utf8_lossy(self.stdout.bytes@)),
            r.stderr@ == trimmed(utf8_lossy(self.stderr.bytes@)),
            r.text@ == (if is_blank(r.content@) && !is_blank(r.stderr@) {
                r.stderr@
            } else {
                r.content@
            }),
            r.exit_code == self.exit_code,
            r.timed_out == self.timed_out,
            r.stdout_truncated == self.stdout.truncated,
            r.stderr_truncated == self.stderr.truncated,
    {
        let stdout = self.stdout.text();
        let stderr = self.stderr.text();
        let text = if blank(stdout.as_str()) && !blank(stderr.as_str()) {
            stderr.clone()
        } else {
            stdout.clone()
        };
        let ok = self.success();
        CursorSessionToolResult {
            is_error: !ok,
            text,
            content: stdout,
            stderr,
            exit_code: self.exit_code,
            timed_out: self.timed_out,
            stdout_truncated: self.stdout.truncated,
            stderr_truncated: self.stderr.truncated,
        }
    }
}

/// What to do while waiting for the child: it has exited, its time is up
/// (kill it and report a timeout), or wait and look again.
#[derive(Debug, Clone, Copy, PartialEq, Eq, Structural)]
pub enum PollStep {
    Finished,
    Kill,
    Wait,
}

/// The next step of the wait, from whether the child has exited and the
/// whole seconds elapsed since it started (the time is up once they reach
/// the time limit).
pub fn poll_step(exited: bool, elapsed_seconds: u64, timeout_seconds: u64) -> (r: PollStep)
    ensures
        r == (if exited {
            PollStep::Finished
        } else if elapsed_seconds >= timeout_seconds {
            PollStep::Kill
        } else {
            PollStep::Wait
        }),
{
    if exited {
        PollStep::Finished
    } else if elapsed_seconds >= timeout_seconds {
        PollStep::Kill
    } else {
        PollStep::Wait
    }
}

/// Why a tool-call produced no run.
#[derive(Debug)]
pub enum ToolCallFailure {
    MissingArguments,
    BadArguments(String),
    RunFailed(String),
}

/// The error text the tool-call reports for a failure.
pub fn tool_call_failure_text(f: &ToolCallFailure) -> (r: String)
    ensures
        r@ == match f {
            ToolCallFailure::MissingArguments =>
                "Missing arguments for cursor-session tool-call; the `prompt` field is required."@,
            ToolCallFailure::BadArguments(e) => "Failed to parse configuration for cursor-session tool: "@
                + e@,
            ToolCallFailure::RunFailed(e) => "Failed to run cursor-session tool: "@ + e@,
        },
{
    match f {
        ToolCallFailure::MissingArguments => owned(
            "Missing arguments for cursor-session tool-call; the `prompt` field is required.",
        ),
        ToolCallFailure::BadArguments(e) => cat(
            "Failed to parse configuration for cursor-session tool: ",
            e.as_str(),
        ),
        ToolCallFailure::RunFailed(e) => cat("Failed to run cursor-session tool: ", e.as_str()),
    }
}

} // verus!
