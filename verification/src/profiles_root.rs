//! The managed-profiles root: which names a profile or project may have,
//! where each piece of state lives under the root, how the root, the current
//! profile and the Codex binary are chosen, and how profiles are listed.
use crate::auth::AuthSummary;
use crate::paths::{is_absolute, join, join_path};
use crate::text::{
    cat, char_is_ascii_alnum, chars_of, is_ascii_alnum, lemma_text_lt_total, lemma_text_lt_transitive, owned, pad_right,
    padded, spaced, join_spaced, string_of, text_eq, text_less, text_lt, texts, trim, trimmed, usize_decimal, decimal,
};
use vstd::prelude::*;

verus! {

/// A character a name may hold after its first: an ASCII letter or digit,
/// `.`, `_` or `-`.
pub open spec fn is_name_char(c: char) -> bool {
    is_ascii_alnum(c) || c == '.' || c == '_' || c == '-'
}

/// A valid profile (or project) name: it starts with an ASCII letter or
/// digit, holds only name characters, and is at most 64 bytes long (name
/// characters are ASCII, one byte each).
pub open spec fn valid_name(s: Seq<char>) -> bool {
    &&& s.len() > 0
    &&& is_ascii_alnum(s[0])
    &&& forall|i: int| 1 <= i < s.len() ==> is_name_char(#[trigger] s[i])
    &&& s.len() <= 64
}

pub fn char_is_name_char(c: char) -> (b: bool)
    ensures
        b == is_name_char(c),
{
    char_is_ascii_alnum(c) || c == '.' || c == '_' || c == '-'
}

/// Whether `name` is a valid profile or project name.
pub fn is_valid_name(name: &str) -> (b: bool)
    ensures
        b == valid_name(name@),
{
    let v = chars_of(name);
    if v.len() == 0 || !char_is_ascii_alnum(v[0]) {
        return false;
    }
    let mut i: usize = 1;
    while i < v.len()
        invariant
            1 <= i <= v.len(),
            v@ == name@,
            forall|j: int| 1 <= j < i ==> is_name_char(#[trigger] v@[j]),
        decreases v.len() - i,
    {
        if !char_is_name_char(v[i]) {
            return false;
        }
        i = i + 1;
    }
    v.len() <= 64
}

/// Law: a valid name is a single path component that stays where it is
/// joined: it holds no `/`, is not `.` or `..`, and is not absolute.
pub proof fn lemma_valid_name_is_plain_component(s: Seq<char>)
    requires
        valid_name(s),
    ensures
        !s.contains('/'),
        s != seq!['.'],
        s != seq!['.', '.'],
        !is_absolute(s),
{
    if s.contains('/') {
        let i = choose|i: int| 0 <= i < s.len() && s[i] == '/';
        if i > 0 {
            assert(is_name_char(s[i]));
        }
    }
}

/// The root directory under which all managed profile state lives.
#[derive(Debug)]
pub struct ProfilesRoot {
    pub root: String,
}

pub open spec fn homes_of(root: Seq<char>) -> Seq<char> {
    join(root, "homes"@)
}

pub open spec fn projects_of(root: Seq<char>) -> Seq<char> {
    join(root, "projects"@)
}

pub open spec fn limits_of(root: Seq<char>) -> Seq<char> {
    join(root, "limits"@)
}

/// A profile's Codex home: `homes/<name>`.
pub open spec fn profile_home_of(root: Seq<char>, name: Seq<char>) -> Seq<char> {
    join(homes_of(root), name)
}

/// A profile's stored login: `homes/<name>/auth.json`.
pub open spec fn profile_auth_of(root: Seq<char>, name: Seq<char>) -> Seq<char> {
    join(profile_home_of(root, name), "auth.json"@)
}

/// A profile's cached usage limits: `limits/<name>.json`.
pub open spec fn limit_file_of(root: Seq<char>, name: Seq<char>) -> Seq<char> {
    join(limits_of(root), name + ".json"@)
}

/// The directories the root is made of, in the order they are created.
pub open spec fn managed_dirs_of(root: Seq<char>) -> Seq<Seq<char>> {
    seq![
        homes_of(root),
        projects_of(root),
        join(root, "handoffs"@),
        limits_of(root),
        join(root, "runs"@),
        join(root, "template-home"@),
    ]
}

impl ProfilesRoot {
    pub fn new(root: String) -> (r: Self)
        ensures
            r.root == root,
    {
        ProfilesRoot { root }
    }

    pub fn homes_dir(&self) -> (r: String)
        ensures
            r@ == homes_of(self.root@),
    {
        join_path(self.root.as_str(), "homes")
    }

    pub fn projects_dir(&self) -> (r: String)
        ensures
            r@ == projects_of(self.root@),
    {
        join_path(self.root.as_str(), "projects")
    }

    pub fn handoffs_dir(&self) -> (r: String)
        ensures
            r@ == join(self.root@, "handoffs"@),
    {
        join_path(self.root.as_str(), "handoffs")
    }

    pub fn limits_dir(&self) -> (r: String)
        ensures
            r@ == limits_of(self.root@),
    {
        join_path(self.root.as_str(), "limits")
    }

    pub fn runs_dir(&self) -> (r: String)
        ensures
            r@ == join(self.root@, "runs"@),
    {
        join_path(self.root.as_str(), "runs")
    }

    /// The home whose template entries new homes are seeded from.
    pub fn template_home(&self) -> (r: String)
        ensures
            r@ == join(self.root@, "template-home"@),
    {
        join_path(self.root.as_str(), "template-home")
    }

    /// The file that names the selected profile.
    pub fn current_file(&self) -> (r: String)
        ensures
            r@ == join(self.root@, "current"@),
    {
        join_path(self.root.as_str(), "current")
    }

    pub fn profile_home(&self, name: &str) -> (r: String)
        ensures
            r@ == profile_home_of(self.root@, name@),
    {
        let homes = self.homes_dir();
        join_path(homes.as_str(), name)
    }

    pub fn profile_auth_file(&self, name: &str) -> (r: String)
        ensures
            r@ == profile_auth_of(self.root@, name@),
    {
        let home = self.profile_home(name);
        join_path(home.as_str(), "auth.json")
    }

    pub fn project_home(&self, id: &str) -> (r: String)
        ensures
            r@ == join(projects_of(self.root@), id@),
    {
        let projects = self.projects_dir();
        join_path(projects.as_str(), id)
    }

    pub fn limit_file(&self, name: &str) -> (r: String)
        ensures
            r@ == limit_file_of(self.root@, name@),
    {
        let limits = self.limits_dir();
        let file = cat(name, ".json");
        join_path(limits.as_str(), file.as_str())
    }

    /// The directories `ensure_dirs` creates, in order.
    pub fn managed_dirs(&self) -> (r: Vec<String>)
        ensures
            texts(r@) == managed_dirs_of(self.root@),
    {
        let r = vec![
            self.homes_dir(),
            self.projects_dir(),
            self.handoffs_dir(),
            self.limits_dir(),
            self.runs_dir(),
            self.template_home(),
        ];
        assert(texts(r@) =~= managed_dirs_of(self.root@));
        r
    }

    /// Accepts a valid profile name, and rejects any other.
    pub fn validate_name(&self, name: &str) -> (r: Result<(), String>)
        ensures
            r is Ok <==> valid_name(name@),
            r matches Err(e) ==> e@ == "invalid profile name `"@ + name@ + "`"@,
    {
        if is_valid_name(name) {
            Ok(())
        } else {
            let head = cat("invalid profile name `", name);
            Err(cat(head.as_str(), "`"))
        }
    }

    /// A profile exists when its name is valid and its home holds an
    /// `auth.json` file; `auth_file_exists` says whether
    /// `profile_auth_file(name)` is a file.
    pub fn require_profile(&self, name: &str, auth_file_exists: bool) -> (r: Result<(), String>)
        ensures
            r is Ok <==> valid_name(name@) && auth_file_exists,
            !valid_name(name@) ==> (r matches Err(e) && e@ == "invalid profile name `"@ + name@
                + "`"@),
            valid_name(name@) && !auth_file_exists ==> (r matches Err(e) && e@ == "profile `"@
                + name@ + "` does not exist or has no auth.json"@),
    {
        self.validate_name(name)?;
        if auth_file_exists {
            Ok(())
        } else {
            let head = cat("profile `", name);
            Err(cat(head.as_str(), "` does not exist or has no auth.json"))
        }
    }

    /// The selected profile's name from the contents of the current file
    /// (`None` when it could not be read): the trimmed contents, when they
    /// are a valid name.
    pub fn current_name_from(&self, contents: Option<&str>) -> (r: Result<String, String>)
        ensures
            contents is None ==> (r matches Err(e) && e@
                == "no current profile selected; run `codex-profiles use NAME`"@),
            contents matches Some(c) ==> (if valid_name(trimmed(c@)) {
                r matches Ok(n) && n@ == trimmed(c@)
            } else {
                r matches Err(e) && e@ == "invalid profile name `"@ + trimmed(c@) + "`"@
            }),
    {
        match contents {
            None => Err(owned("no current profile selected; run `codex-profiles use NAME`")),
            Some(c) => {
                let name = trim(c);
                self.validate_name(name.as_str())?;
                Ok(name)
            },
        }
    }

    /// The profile a command acts on: the given name when there is one
    /// (it must be valid), else the selected one (see `current_name_from`).
    pub fn resolve_name(&self, name: Option<&str>, current_contents: Option<&str>) -> (r: Result<
        String,
        String,
    >)
        ensures
            name matches Some(n) ==> (if valid_name(n@) {
                r matches Ok(m) && m@ == n@
            } else {
                r matches Err(e) && e@ == "invalid profile name `"@ + n@ + "`"@
            }),
            name is None ==> (match current_contents {
                None => r matches Err(e) && e@
                    == "no current profile selected; run `codex-profiles use NAME`"@,
                Some(c) => if valid_name(trimmed(c@)) {
                    r matches Ok(m) && m@ == trimmed(c@)
                } else {
                    r matches Err(e) && e@ == "invalid profile name `"@ + trimmed(c@) + "`"@
                },
            }),
    {
        match name {
            Some(n) => {
                self.validate_name(n)?;
                Ok(owned(n))
            },
            None => self.current_name_from(current_contents),
        }
    }
}

/// Whether removing profile `name` also clears the selection: the current
/// file (when it could be read) names it.
pub fn clears_current(current_contents: Option<&str>, name: &str) -> (b: bool)
    ensures
        b == (current_contents matches Some(c) && trimmed(c@) == name@),
{
    match current_contents {
        Some(c) => {
            let t = trim(c);
            text_eq(t.as_str(), name)
        },
        None => false,
    }
}

/// The default root under a home directory: `.config/codex-switch`.
pub open spec fn default_root_of(home: Seq<char>) -> Seq<char> {
    join(join(home, ".config"@), "codex-switch"@)
}

pub fn default_root(home: &str) -> (r: String)
    ensures
        r@ == default_root_of(home@),
{
    let config = join_path(home, ".config");
    join_path(config.as_str(), "codex-switch")
}

/// The home directory: `HOME`, else `USERPROFILE`.
pub fn home_dir(home_var: Option<String>, userprofile_var: Option<String>) -> (r: Option<String>)
    ensures
        r == (if home_var is Some {
            home_var
        } else {
            userprofile_var
        }),
{
    match home_var {
        Some(h) => Some(h),
        None => userprofile_var,
    }
}

/// The profiles root: the given one, else `CODEX_PROFILES_DIR`, else the
/// default root under the home directory.
pub fn resolve_root(given: Option<String>, env_dir: Option<String>, home: Option<String>) -> (r: Result<
    String,
    String,
>)
    ensures
        given is Some ==> r == Ok::<String, String>(given->0),
        given is None && env_dir is Some ==> r == Ok::<String, String>(env_dir->0),
        given is None && env_dir is None ==> (match home {
            Some(h) => r matches Ok(p) && p@ == default_root_of(h@),
            None => r matches Err(e) && e@ == "could not resolve home directory"@,
        }),
{
    if let Some(root) = given {
        return Ok(root);
    }
    if let Some(root) = env_dir {
        return Ok(root);
    }
    match home {
        Some(h) => Ok(default_root(h.as_str())),
        None => Err(owned("could not resolve home directory")),
    }
}

/// An executable's file name on this platform: `.exe` is appended on
/// Windows.
pub fn exe_name(name: &str, windows: bool) -> (r: String)
    ensures
        r@ == (if windows {
            name@ + ".exe"@
        } else {
            name@
        }),
{
    if windows {
        cat(name, ".exe")
    } else {
        owned(name)
    }
}

/// The Codex binary to launch: the configured one, else
/// `CODEX_PROFILES_CODEX_BIN`, else a `codex` beside the running executable
/// when there is one (`sibling`), else `codex` from the search path.
pub fn resolve_codex_bin(configured: Option<String>, env_bin: Option<String>, sibling: Option<String>) -> (r:
    String)
    ensures
        r@ == (if configured is Some {
            configured->0@
        } else if env_bin is Some {
            env_bin->0@
        } else if sibling is Some {
            sibling->0@
        } else {
            "codex"@
        }),
{
    if let Some(path) = configured {
        return path;
    }
    if let Some(path) = env_bin {
        return path;
    }
    if let Some(path) = sibling {
        return path;
    }
    owned("codex")
}

/// Accepts a login that left an `auth.json` in the home (`exists` says
/// whether `auth_file` is a file).
pub fn require_auth(auth_file: &str, exists: bool) -> (r: Result<(), String>)
    ensures
        r is Ok <==> exists,
        r matches Err(e) ==> e@ == "Codex login completed without creating "@ + auth_file@,
{
    if exists {
        Ok(())
    } else {
        Err(cat("Codex login completed without creating ", auth_file))
    }
}

/// Where an import takes the login from: the `auth.json` inside a source
/// directory when that is a file, else the source itself when it is a file.
pub fn source_auth_path(
    source: &str,
    source_is_dir: bool,
    nested_auth_is_file: bool,
    source_is_file: bool,
) -> (r: Result<String, String>)
    ensures
        source_is_dir && nested_auth_is_file ==> (r matches Ok(p) && p@ == join(
            source@,
            "auth.json"@,
        )),
        !(source_is_dir && nested_auth_is_file) && source_is_file ==> (r matches Ok(p) && p@
            == source@),
        !(source_is_dir && nested_auth_is_file) && !source_is_file ==> (r matches Err(e) && e@
            == "auth source not found: "@ + source@),
{
    if source_is_dir && nested_auth_is_file {
        return Ok(join_path(source, "auth.json"));
    }
    if source_is_file {
        return Ok(owned(source));
    }
    Err(cat("auth source not found: ", source))
}

/// The entries a new home takes from the template home.
pub open spec fn template_entry_names() -> Seq<Seq<char>> {
    seq![
        "config.toml"@,
        "requirements.toml"@,
        "skills"@,
        "plugins"@,
        "rules"@,
        "memories"@,
    ]
}

/// For each template entry, where it is in the template home and where it
/// goes in the new home; an entry is copied when it exists in the template
/// and not yet in the home.
pub fn template_entry_pairs(template_home: &str, destination_home: &str) -> (r: Vec<(String, String)>)
    ensures
        r.len() == template_entry_names().len(),
        forall|i: int|
            0 <= i < r.len() ==> (#[trigger] r@[i]).0@ == join(
                template_home@,
                template_entry_names()[i],
            ) && r@[i].1@ == join(destination_home@, template_entry_names()[i]),
{
    let names = vec![
        owned("config.toml"),
        owned("requirements.toml"),
        owned("skills"),
        owned("plugins"),
        owned("rules"),
        owned("memories"),
    ];
    assert(texts(names@) =~= template_entry_names());
    let mut r: Vec<(String, String)> = Vec::new();
    let mut i: usize = 0;
    while i < names.len()
        invariant
            i <= names.len(),
            texts(names@) == template_entry_names(),
            r.len() == i,
            forall|k: int|
                0 <= k < i ==> (#[trigger] r@[k]).0@ == join(
                    template_home@,
                    template_entry_names()[k],
                ) && r@[k].1@ == join(destination_home@, template_entry_names()[k]),
        decreases names.len() - i,
    {
        assert(texts(names@)[i as int] == names@[i as int]@);
        let from = join_path(template_home, names[i].as_str());
        let to = join_path(destination_home, names[i].as_str());
        r.push((from, to));
        i = i + 1;
    }
    r
}

/// Single-quotes a text for a POSIX shell: each `'` becomes `'\''`.
pub open spec fn quote_body(s: Seq<char>) -> Seq<char>
    decreases s.len(),
{
    if s.len() == 0 {
        seq![]
    } else {
        quote_body(s.drop_last()) + (if s.last() == '\'' {
            seq!['\'', '\\', '\'', '\'']
        } else {
            seq![s.last()]
        })
    }
}

pub open spec fn shell_quoted(s: Seq<char>) -> Seq<char> {
    seq!['\''] + quote_body(s) + seq!['\'']
}

pub fn shell_quote(path: &str) -> (r: String)
    ensures
        r@ == shell_quoted(path@),
{
    let v = chars_of(path);
    let mut out: Vec<char> = Vec::new();
    out.push('\'');
    let mut i: usize = 0;
    while i < v.len()
        invariant
            i <= v.len(),
            v@ == path@,
            out@ == seq!['\''] + quote_body(v@.subrange(0, i as int)),
        decreases v.len() - i,
    {
        let c = v[i];
        if c == '\'' {
            out.push('\'');
            out.push('\\');
            out.push('\'');
            out.push('\'');
        } else {
            out.push(c);
        }
        assert(v@.subrange(0, i + 1).drop_last() =~= v@.subrange(0, i as int));
        i = i + 1;
        assert(out@ =~= seq!['\''] + quote_body(v@.subrange(0, i as int)));
    }
    out.push('\'');
    assert(v@.subrange(0, v.len() as int) =~= v@);
    assert(out@ =~= shell_quoted(path@));
    string_of(&out)
}

/// How a POSIX shell reads a word made of quoted and unquoted characters:
/// inside single quotes every character stands for itself until the closing
/// quote; outside them a backslash makes the next character stand for itself
/// and a single quote opens a quoted part.
pub open spec fn sh_read(t: Seq<char>, quoted: bool) -> Seq<char>
    decreases t.len(),
{
    if t.len() == 0 {
        seq![]
    } else if quoted {
        if t[0] == '\'' {
            sh_read(t.drop_first(), false)
        } else {
            seq![t[0]] + sh_read(t.drop_first(), true)
        }
    } else if t[0] == '\'' {
        sh_read(t.drop_first(), true)
    } else if t[0] == '\\' && t.len() >= 2 {
        seq![t[1]] + sh_read(t.subrange(2, t.len() as int), false)
    } else {
        seq![t[0]] + sh_read(t.drop_first(), false)
    }
}

proof fn lemma_quote_body_concat(a: Seq<char>, b: Seq<char>)
    ensures
        quote_body(a + b) == quote_body(a) + quote_body(b),
    decreases b.len(),
{
    if b.len() == 0 {
        assert(a + b =~= a);
        assert(quote_body(a) + quote_body(b) =~= quote_body(a));
    } else {
        lemma_quote_body_concat(a, b.drop_last());
        assert((a + b).drop_last() =~= a + b.drop_last());
        assert((a + b).last() == b.last());
        let piece = if b.last() == '\'' {
            seq!['\'', '\\', '\'', '\'']
        } else {
            seq![b.last()]
        };
        assert(quote_body(a + b) == quote_body(a + b.drop_last()) + piece);
        assert(quote_body(b) == quote_body(b.drop_last()) + piece);
        assert(quote_body(a + b) =~= quote_body(a) + quote_body(b));
    }
}

proof fn lemma_read_quoted(s: Seq<char>, rest: Seq<char>)
    ensures
        sh_read(quote_body(s) + seq!['\''] + rest, true) == s + sh_read(rest, false),
    decreases s.len(),
{
    if s.len() == 0 {
        assert(quote_body(s) =~= Seq::<char>::empty());
        let t = quote_body(s) + seq!['\''] + rest;
        assert(t.drop_first() =~= rest);
        assert(s + sh_read(rest, false) =~= sh_read(rest, false));
    } else {
        let c = s[0];
        let tail = s.drop_first();
        assert(s =~= seq![c] + tail);
        lemma_quote_body_concat(seq![c], tail);
        assert(seq![c].drop_last() =~= Seq::<char>::empty());
        assert(seq![c].last() == c);
        assert(quote_body(Seq::<char>::empty()) =~= Seq::<char>::empty());
        assert(quote_body(seq![c]) == quote_body(seq![c].drop_last()) + (if c == '\'' {
            seq!['\'', '\\', '\'', '\'']
        } else {
            seq![c]
        }));
        let x = quote_body(tail) + seq!['\''] + rest;
        lemma_read_quoted(tail, rest);
        if c == '\'' {
            assert(quote_body(seq![c]) =~= seq!['\'', '\\', '\'', '\'']);
            let t = seq!['\'', '\\', '\'', '\''] + x;
            assert(quote_body(s) + seq!['\''] + rest =~= t);
            let t1 = t.drop_first();
            assert(t1 =~= seq!['\\', '\'', '\''] + x);
            let t2 = t1.subrange(2, t1.len() as int);
            assert(t2 =~= seq!['\''] + x);
            assert(t2.drop_first() =~= x);
            assert(sh_read(t, true) == sh_read(t1, false));
            assert(sh_read(t1, false) == seq!['\''] + sh_read(t2, false));
            assert(sh_read(t2, false) == sh_read(x, true));
            assert(sh_read(t, true) =~= s + sh_read(rest, false));
        } else {
            assert(quote_body(seq![c]) =~= seq![c]);
            let t = seq![c] + x;
            assert(quote_body(s) + seq!['\''] + rest =~= t);
            assert(t.drop_first() =~= x);
            assert(sh_read(t, true) =~= s + sh_read(rest, false));
        }
    }
}

/// Law: a POSIX shell reads a quoted text back as the text itself.
pub proof fn lemma_shell_quote_round_trip(s: Seq<char>)
    ensures
        sh_read(shell_quoted(s), false) == s,
{
    let t = shell_quoted(s);
    assert(t.drop_first() =~= quote_body(s) + seq!['\''] + Seq::<char>::empty());
    lemma_read_quoted(s, Seq::<char>::empty());
    assert(s + sh_read(Seq::<char>::empty(), false) =~= s);
}

/// Texts in strictly ascending order (no text twice).
pub open spec fn strictly_sorted(s: Seq<Seq<char>>) -> bool {
    forall|i: int, j: int| 0 <= i < j < s.len() ==> text_lt(#[trigger] s[i], #[trigger] s[j])
}

proof fn lemma_insert_keeps_sorted(s: Seq<Seq<char>>, j: int, x: Seq<char>)
    requires
        strictly_sorted(s),
        0 <= j <= s.len(),
        forall|k: int| 0 <= k < j ==> text_lt(#[trigger] s[k], x),
        j < s.len() ==> text_lt(x, s[j]),
    ensures
        strictly_sorted(s.insert(j, x)),
{
    let t = s.insert(j, x);
    assert forall|a: int, b: int| 0 <= a < b < t.len() implies text_lt(
        #[trigger] t[a],
        #[trigger] t[b],
    ) by {
        if a < j && b < j {
            assert(t[a] == s[a] && t[b] == s[b]);
        } else if a < j && b == j {
            assert(t[a] == s[a]);
        } else if a < j {
            assert(t[a] == s[a] && t[b] == s[b - 1]);
        } else if a == j {
            assert(t[b] == s[b - 1]);
            if b - 1 > j {
                lemma_text_lt_transitive(x, s[j], s[b - 1]);
            }
        } else {
            assert(t[a] == s[a - 1] && t[b] == s[b - 1]);
        }
    }
}

/// The profiles found under `homes/`: of the given directory names, the
/// valid ones, each once, in ascending order.
pub fn listed_profile_names(dir_names: &Vec<String>) -> (r: Vec<String>)
    ensures
        strictly_sorted(texts(r@)),
        forall|x: Seq<char>| #[trigger]
            texts(r@).contains(x) <==> (valid_name(x) && texts(dir_names@).contains(x)),
{
    let mut out: Vec<String> = Vec::new();
    let mut i: usize = 0;
    while i < dir_names.len()
        invariant
            i <= dir_names.len(),
            strictly_sorted(texts(out@)),
            forall|x: Seq<char>| #[trigger]
                texts(out@).contains(x) <==> (valid_name(x) && texts(
                    dir_names@.subrange(0, i as int),
                ).contains(x)),
        decreases dir_names.len() - i,
    {
        let name = &dir_names[i];
        let ghost pre = texts(dir_names@.subrange(0, i as int));
        let ghost next = texts(dir_names@.subrange(0, i + 1));
        proof {
            assert(next =~= pre.push(name@));
            assert forall|x: Seq<char>| #[trigger] next.contains(x) <==> (pre.contains(x) || x
                == name@) by {
                if next.contains(x) {
                    let k = choose|k: int| 0 <= k < next.len() && next[k] == x;
                    if k < pre.len() {
                        assert(pre[k] == x);
                    }
                }
                if pre.contains(x) {
                    let k = choose|k: int| 0 <= k < pre.len() && pre[k] == x;
                    assert(next[k] == x);
                }
                if x == name@ {
                    assert(next[pre.len() as int] == x);
                }
            }
        }
        if is_valid_name(name.as_str()) {
            let mut j: usize = 0;
            while j < out.len() && text_less(out[j].as_str(), name.as_str())
                invariant
                    j <= out.len(),
                    forall|k: int| 0 <= k < j ==> text_lt(#[trigger] texts(out@)[k], name@),
                decreases out.len() - j,
            {
                j = j + 1;
            }
            let dup = j < out.len() && text_eq(out[j].as_str(), name.as_str());
            if !dup {
                let ghost s = texts(out@);
                proof {
                    if j < out.len() {
                        assert(s[j as int] == out@[j as int]@);
                        lemma_text_lt_total(name@, s[j as int]);
                    }
                    lemma_insert_keeps_sorted(s, j as int, name@);
                }
                out.insert(j, name.clone());
                proof {
                    assert(texts(out@) =~= s.insert(j as int, name@));
                    let t = texts(out@);
                    assert forall|x: Seq<char>| #[trigger] t.contains(x) <==> (s.contains(x) || x
                        == name@) by {
                        if t.contains(x) {
                            let k = choose|k: int| 0 <= k < t.len() && t[k] == x;
                            if k < j {
                                assert(s[k] == x);
                            } else if k > j {
                                assert(s[k - 1] == x);
                            }
                        }
                        if s.contains(x) {
                            let k = choose|k: int| 0 <= k < s.len() && s[k] == x;
                            if k < j {
                                assert(t[k] == x);
                            } else {
                                assert(t[k + 1] == x);
                            }
                        }
                        if x == name@ {
                            assert(t[j as int] == x);
                        }
                    }
                }
            } else {
                proof {
                    assert(texts(out@)[j as int] == name@);
                }
            }
        }
        i = i + 1;
    }
    assert(dir_names@.subrange(0, dir_names.len() as int) =~= dir_names@);
    out
}

/// The profiles a limits command looks at: the requested ones, or every
/// listed profile when none is requested (each requested profile must exist).
pub fn selected_names(requested: &Vec<String>, listed: &Vec<String>) -> (r: Vec<String>)
    ensures
        requested.len() == 0 ==> texts(r@) == texts(listed@),
        requested.len() > 0 ==> texts(r@) == texts(requested@),
{
    let source = if requested.len() == 0 {
        listed
    } else {
        requested
    };
    let mut r: Vec<String> = Vec::new();
    let mut i: usize = 0;
    while i < source.len()
        invariant
            i <= source.len(),
            texts(r@) == texts(source@).subrange(0, i as int),
        decreases source.len() - i,
    {
        let ghost before = r@;
        r.push(source[i].clone());
        assert(r@ =~= before.push(source@[i as int]));
        assert(texts(r@) =~= texts(before).push(source@[i as int]@));
        i = i + 1;
        assert(texts(r@) =~= texts(source@).subrange(0, i as int));
    }
    assert(texts(source@).subrange(0, source.len() as int) =~= texts(source@));
    r
}

/// A profile as listed: its name, home, stored login (when it could be read)
/// and how many session files it holds.
#[derive(Debug)]
pub struct ProfileEntry {
    pub name: String,
    pub home: String,
    pub auth: Option<AuthSummary>,
    pub sessions: usize,
}

/// The login column of a listed profile.
pub open spec fn auth_column_of(auth: Option<AuthSummary>) -> Seq<char> {
    match auth {
        None => "missing"@,
        Some(a) => if a.valid {
            a.message@
        } else {
            "invalid: "@ + a.message@
        },
    }
}

/// The email column of a listed profile.
pub open spec fn email_column_of(auth: Option<AuthSummary>) -> Seq<char> {
    match auth {
        Some(a) => match a.email {
            Some(e) => e@,
            None => "-"@,
        },
        None => "-"@,
    }
}

pub open spec fn listing_header() -> Seq<char> {
    padded("PROFILE"@, 24) + " "@ + padded("AUTH"@, 24) + " "@ + padded("EMAIL"@, 28) + " "@
        + padded("SESSIONS"@, 8) + " "@ + "CODEX_HOME"@
}

pub open spec fn listing_row(e: ProfileEntry) -> Seq<char> {
    padded(e.name@, 24) + " "@ + padded(auth_column_of(e.auth), 24) + " "@ + padded(
        email_column_of(e.auth),
        28,
    ) + " "@ + padded(decimal(e.sessions as nat), 8) + " "@ + e.home@
}

/// Law: a listed profile's row shows, in its AUTH column, `missing` when no
/// login could be read, the login's message when it is valid and
/// `invalid: ` with the message otherwise; in its EMAIL column exactly the
/// email that its stored login carries, and `-` only when there is no
/// readable login or the login carries no email.
pub proof fn lemma_listing_row(e: ProfileEntry)
    ensures
        ({
            let row_with = |login: Seq<char>, email: Seq<char>|
                padded(e.name@, 24) + " "@ + padded(login, 24) + " "@ + padded(email, 28) + " "@
                    + padded(decimal(e.sessions as nat), 8) + " "@ + e.home@;
            let login = if e.auth is None {
                "missing"@
            } else if e.auth->0.valid {
                e.auth->0.message@
            } else {
                "invalid: "@ + e.auth->0.message@
            };
            &&& (e.auth is Some && e.auth->0.email is Some) ==> listing_row(e) == row_with(
                login,
                e.auth->0.email->0@,
            )
            &&& (e.auth is None || e.auth->0.email is None) ==> listing_row(e) == row_with(
                login,
                "-"@,
            )
        }),
{
}

fn auth_column(auth: &Option<AuthSummary>) -> (r: String)
    ensures
        r@ == auth_column_of(*auth),
{
    match auth {
        None => owned("missing"),
        Some(a) => if a.valid {
            a.message.clone()
        } else {
            cat("invalid: ", a.message.as_str())
        },
    }
}

fn email_column(auth: &Option<AuthSummary>) -> (r: String)
    ensures
        r@ == email_column_of(*auth),
{
    match auth {
        Some(a) => match &a.email {
            Some(e) => e.clone(),
            None => owned("-"),
        },
        None => owned("-"),
    }
}

/// The lines `list` prints: a header, then one row per profile.
pub fn profile_listing(entries: &Vec<ProfileEntry>) -> (r: Vec<String>)
    ensures
        r.len() == entries.len() + 1,
        r@[0]@ == listing_header(),
        forall|i: int| 0 <= i < entries.len() ==> #[trigger] r@[i + 1]@ == listing_row(entries@[i]),
{
    let header_cells = vec![
        pad_right("PROFILE", 24),
        pad_right("AUTH", 24),
        pad_right("EMAIL", 28),
        pad_right("SESSIONS", 8),
        owned("CODEX_HOME"),
    ];
    let header = join_spaced(&header_cells);
    proof {
        let t = texts(header_cells@);
        assert(t.subrange(0, 4).drop_last() =~= t.subrange(0, 3));
        assert(t.subrange(0, 3).drop_last() =~= t.subrange(0, 2));
        assert(t.subrange(0, 2).drop_last() =~= t.subrange(0, 1));
        assert(t.drop_last() =~= t.subrange(0, 4));
        reveal_with_fuel(spaced, 6);
        assert(spaced(t) =~= listing_header());
    }
    let mut out: Vec<String> = vec![header];
    let mut i: usize = 0;
    while i < entries.len()
        invariant
            i <= entries.len(),
            out.len() == i + 1,
            out@[0]@ == listing_header(),
            forall|k: int| 0 <= k < i ==> #[trigger] out@[k + 1]@ == listing_row(entries@[k]),
        decreases entries.len() - i,
    {
        let e = &entries[i];
        let auth = auth_column(&e.auth);
        let email = email_column(&e.auth);
        let sessions = usize_decimal(e.sessions);
        let cells = vec![
            pad_right(e.name.as_str(), 24),
            pad_right(auth.as_str(), 24),
            pad_right(email.as_str(), 28),
            pad_right(sessions.as_str(), 8),
            e.home.clone(),
        ];
        let row = join_spaced(&cells);
        proof {
            let t = texts(cells@);
            assert(t.subrange(0, 4).drop_last() =~= t.subrange(0, 3));
            assert(t.subrange(0, 3).drop_last() =~= t.subrange(0, 2));
            assert(t.subrange(0, 2).drop_last() =~= t.subrange(0, 1));
            assert(t.drop_last() =~= t.subrange(0, 4));
            reveal_with_fuel(spaced, 6);
            assert(spaced(t) =~= listing_row(*e));
        }
        out.push(row);
        i = i + 1;
    }
    out
}

} // verus!
