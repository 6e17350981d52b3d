//! Per-project Codex homes: where a project's home lives for a given base
//! home, which project ids are accepted, and the marker that binds a
//! project home to one project root.
use crate::paths::{file_name_of, join, join_path, parent_of, path_file_name, path_parent};
use crate::profiles_root::{char_is_name_char, is_name_char};
use crate::text::{
    cat, char_is_ascii_alnum, chars_of, is_ascii_alnum, is_ws, owned, text_eq, trim, trim_back,
    trim_front, trimmed,
};
use vstd::prelude::*;

verus! {

/// A prepared project home.
#[derive(Debug)]
pub struct ProjectHomeLaunch {
    pub codex_home: String,
    pub base_codex_home: String,
    pub project_id: String,
    pub project_root: String,
}

/// The managed-profiles root a base home belongs to: when the base home is
/// `<root>/homes/<name>`, the `<root>`.
pub open spec fn managed_root_of(base: Seq<char>) -> Option<Seq<char>> {
    match path_parent(base) {
        Some(homes) => if path_file_name(homes) == Some("homes"@) {
            path_parent(homes)
        } else {
            None
        },
        None => None,
    }
}

/// A project's home: `projects/<id>` under the managed-profiles root when
/// the base home is a managed profile's, else under the base home.
pub open spec fn project_home_of(base: Seq<char>, project_id: Seq<char>) -> Seq<char> {
    match managed_root_of(base) {
        Some(root) => join(join(root, "projects"@), project_id),
        None => join(join(base, "projects"@), project_id),
    }
}

fn managed_profile_root(base_codex_home: &str) -> (r: Option<String>)
    ensures
        r matches Some(s) ==> managed_root_of(base_codex_home@) == Some(s@),
        r is None ==> managed_root_of(base_codex_home@) is None,
{
    let homes = parent_of(base_codex_home)?;
    let name = file_name_of(homes.as_str())?;
    if !text_eq(name.as_str(), "homes") {
        return None;
    }
    parent_of(homes.as_str())
}

/// A project's home given the managed-profiles root its base home belongs
/// to, if any (see `managed_root_of`).
pub fn project_home_in(base_codex_home: &str, managed_root: Option<String>, project_id: &str) -> (r:
    String)
    ensures
        r@ == join(
            join(
                match managed_root {
                    Some(root) => root@,
                    None => base_codex_home@,
                },
                "projects"@,
            ),
            project_id@,
        ),
{
    let base = match managed_root {
        Some(root) => root,
        None => owned(base_codex_home),
    };
    let projects = join_path(base.as_str(), "projects");
    join_path(projects.as_str(), project_id)
}

pub fn project_home_for_base(base_codex_home: &str, project_id: &str) -> (r: String)
    ensures
        r@ == project_home_of(base_codex_home@, project_id@),
{
    project_home_in(base_codex_home, managed_profile_root(base_codex_home), project_id)
}

/// The message that refuses project id `id` for `reason`.
pub open spec fn invalid_id_message(id: Seq<char>, reason: Seq<char>) -> Seq<char> {
    "invalid project id `"@ + id + "`: "@ + reason
}

/// Why a project id is refused, if it is: the checks run in order (empty,
/// first character, length in UTF-8 bytes, remaining characters).
pub open spec fn project_id_problem(id: Seq<char>) -> Option<Seq<char>> {
    if id.len() == 0 {
        Some("project id cannot be empty"@)
    } else if !is_ascii_alnum(id[0]) {
        Some(invalid_id_message(id, "must start with an ASCII letter or digit"@))
    } else if vstd::utf8::encode_utf8(id).len() > 64 {
        Some(invalid_id_message(id, "must be 64 bytes or fewer"@))
    } else if exists|i: int| 1 <= i < id.len() && !is_name_char(#[trigger] id[i]) {
        Some(invalid_id_message(id, "use only ASCII letters, digits, '.', '_' or '-'"@))
    } else {
        None
    }
}

fn invalid_project_id(project_id: &str, reason: &str) -> (r: String)
    ensures
        r@ == invalid_id_message(project_id@, reason@),
{
    let head = cat("invalid project id `", project_id);
    let mid = cat(head.as_str(), "`: ");
    cat(mid.as_str(), reason)
}

/// Accepts a project id that can name a directory of its own, and says why
/// any other is refused.
pub fn validate_project_id(project_id: &str) -> (r: Result<(), String>)
    ensures
        r is Ok <==> project_id_problem(project_id@) is None,
        r matches Err(e) ==> project_id_problem(project_id@) == Some(e@),
{
    let v = chars_of(project_id);
    if v.len() == 0 {
        return Err(owned("project id cannot be empty"));
    }
    if !char_is_ascii_alnum(v[0]) {
        return Err(invalid_project_id(project_id, "must start with an ASCII letter or digit"));
    }
    let bytes = project_id.as_bytes();
    assert(bytes@ == vstd::utf8::encode_utf8(project_id@));
    if bytes.len() > 64 {
        return Err(invalid_project_id(project_id, "must be 64 bytes or fewer"));
    }
    let mut i: usize = 1;
    while i < v.len()
        invariant
            1 <= i <= v.len(),
            v@ == project_id@,
            is_ascii_alnum(project_id@[0]),
            vstd::utf8::encode_utf8(project_id@).len() <= 64,
            forall|j: int| 1 <= j < i ==> is_name_char(#[trigger] v@[j]),
        decreases v.len() - i,
    {
        if !char_is_name_char(v[i]) {
            assert(!is_name_char(project_id@[i as int]));
            assert(1 <= i < project_id@.len());
            assert(exists|k: int| 1 <= k < project_id@.len() && !is_name_char(#[trigger] project_id@[k]));
            return Err(
                invalid_project_id(project_id, "use only ASCII letters, digits, '.', '_' or '-'"),
            );
        }
        i = i + 1;
    }
    Ok(())
}

/// The markers that may already bind a project home to a root, in the
/// order they are checked.
pub open spec fn root_marker_names() -> Seq<Seq<char>> {
    seq![".codex-project-root"@, ".codex-profile-project-root"@]
}

pub fn root_marker_files() -> (r: Vec<String>)
    ensures
        r@.map_values(|s: String| s@) == root_marker_names(),
{
    let r = vec![owned(".codex-project-root"), owned(".codex-profile-project-root")];
    assert(r@.map_values(|s: String| s@) =~= root_marker_names());
    r
}

/// The first marker (in order) that binds the home to another root.
pub open spec fn first_conflict(markers: Seq<Option<String>>, expected: Seq<char>) -> Option<Seq<char>>
    decreases markers.len(),
{
    if markers.len() == 0 {
        None
    } else if markers[0] matches Some(m) && trimmed(m@) != expected {
        Some(trimmed(markers[0]->0@))
    } else {
        first_conflict(markers.drop_first(), expected)
    }
}

/// Checks the root markers already in a project home (their contents, in
/// the order of `root_marker_files`; `None` where a marker is absent): each
/// present one must name `expected_root`.
pub fn check_project_root_markers(
    markers: &Vec<Option<String>>,
    expected_root: &str,
    codex_home: &str,
) -> (r: Result<(), String>)
    ensures
        r is Ok <==> first_conflict(markers@, expected_root@) is None,
        r matches Err(e) ==> e@ == "project id is already bound to "@ + first_conflict(
            markers@,
            expected_root@,
        )->0 + "; choose another id or remove "@ + codex_home@,
{
    let mut i: usize = 0;
    assert(markers@.subrange(0, markers@.len() as int) =~= markers@);
    while i < markers.len()
        invariant
            i <= markers.len(),
            first_conflict(markers@, expected_root@) == first_conflict(
                markers@.subrange(i as int, markers@.len() as int),
                expected_root@,
            ),
        decreases markers.len() - i,
    {
        let ghost rest = markers@.subrange(i as int, markers@.len() as int);
        assert(rest[0] == markers@[i as int]);
        assert(rest.drop_first() =~= markers@.subrange(i + 1, markers@.len() as int));
        if let Some(m) = &markers[i] {
            let existing = trim(m.as_str());
            if !text_eq(existing.as_str(), expected_root) {
                let head = cat("project id is already bound to ", existing.as_str());
                let mid = cat(head.as_str(), "; choose another id or remove ");
                return Err(cat(mid.as_str(), codex_home));
            }
        }
        i = i + 1;
    }
    assert(markers@.subrange(markers@.len() as int, markers@.len() as int).len() == 0);
    Ok(())
}

/// Law: a project id stays bound to its first root. Once the root marker
/// holds the line written for root `a` (a path without surrounding
/// whitespace), the check passes for root `b` exactly when `b` is `a`, and
/// otherwise names `a` as the root the id is bound to.
pub proof fn lemma_marker_binds_first_root(a: Seq<char>, b: Seq<char>, markers: Seq<Option<String>>)
    requires
        a.len() == 0 || (!is_ws(a[0]) && !is_ws(a.last())),
        markers.len() == 2,
        markers[0] matches Some(m) && m@ == a + "\n"@,
        markers[1] is None,
    ensures
        first_conflict(markers, b) is None <==> a == b,
        a != b ==> first_conflict(markers, b) == Some(a),
{
    reveal_strlit("\n");
    let x = a + "\n"@;
    assert(x.last() == '\n');
    assert(x.drop_last() =~= a);
    if a.len() == 0 {
        assert(x =~= seq!['\n']);
        assert(x.drop_first() =~= Seq::<char>::empty());
        assert(trim_front(x) == trim_front(x.drop_first()));
        assert(trim_front(x) =~= Seq::<char>::empty());
        assert(trimmed(x) =~= a);
    } else {
        assert(x[0] == a[0]);
        assert(trim_front(x) == x);
        assert(trim_back(x) == trim_back(a));
        assert(trim_back(a) == a);
    }
    assert(trimmed(x) == a);
    let rest = markers.drop_first();
    assert(rest[0] is None);
    assert(rest.drop_first().len() == 0);
    assert(first_conflict(rest.drop_first(), b) is None);
    assert(first_conflict(rest, b) == first_conflict(rest.drop_first(), b));
}

/// A marker file's contents: the value and a newline.
pub fn marker_line(value: &str) -> (r: String)
    ensures
        r@ == value@ + "\n"@,
{
    cat(value, "\n")
}

/// The launch for a project: refused for an invalid project id, else its
/// home under the base home (see `project_home_for_base`).
pub fn project_home_launch(base_codex_home: &str, project_id: &str, project_root: &str) -> (r: Result<
    ProjectHomeLaunch,
    String,
>)
    ensures
        r is Ok <==> project_id_problem(project_id@) is None,
        r matches Err(e) ==> project_id_problem(project_id@) == Some(e@),
        r matches Ok(l) ==> {
            &&& l.codex_home@ == project_home_of(base_codex_home@, project_id@)
            &&& l.base_codex_home@ == base_codex_home@
            &&& l.project_id@ == project_id@
            &&& l.project_root@ == project_root@
        },
{
    validate_project_id(project_id)?;
    Ok(
        ProjectHomeLaunch {
            codex_home: project_home_for_base(base_codex_home, project_id),
            base_codex_home: owned(base_codex_home),
            project_id: owned(project_id),
            project_root: owned(project_root),
        },
    )
}

} // verus!
