//! Paths as texts. Joining follows `PathBuf::push` on Unix; a path's parent
//! and last component come from `std::path::Path`.
use crate::text::{cat, chars_of, owned};
use vstd::prelude::*;

verus! {

/// Whether a path is absolute on Unix: it starts at the root.
pub open spec fn is_absolute(p: Seq<char>) -> bool {
    p.len() > 0 && p[0] == '/'
}

/// `base.join(part)` on Unix: an absolute `part` replaces `base`; otherwise
/// `part` is appended, with a `/` between them unless `base` is empty or
/// already ends with one.
pub open spec fn join(base: Seq<char>, part: Seq<char>) -> Seq<char> {
    if is_absolute(part) {
        part
    } else if base.len() > 0 && base.last() != '/' {
        base + seq!['/'] + part
    } else {
        base + part
    }
}

/// What `Path::parent` returns for a path.
pub uninterp spec fn path_parent(p: Seq<char>) -> Option<Seq<char>>;

/// What `Path::file_name` returns for a path.
pub uninterp spec fn path_file_name(p: Seq<char>) -> Option<Seq<char>>;

pub fn path_is_absolute(p: &str) -> (b: bool)
    ensures
        b == is_absolute(p@),
{
    let v = chars_of(p);
    v.len() > 0 && v[0] == '/'
}

/// `Path::new(base).join(part)`.
pub fn join_path(base: &str, part: &str) -> (r: String)
    ensures
        r@ == join(base@, part@),
{
    if path_is_absolute(part) {
        return owned(part);
    }
    let v = chars_of(base);
    if v.len() > 0 && v[v.len() - 1] != '/' {
        assert(v@.last() == v@[v.len() - 1]);
        let with_sep = cat(base, "/");
        proof {
            reveal_strlit("/");
            assert("/"@ =~= seq!['/']);
        }
        cat(with_sep.as_str(), part)
    } else {
        cat(base, part)
    }
}

/// The parent directory of a path (`Path::parent`). The path is UTF-8, so
/// its parent is too and converts without loss.
#[verifier::external_body]
pub(crate) fn parent_of(p: &str) -> (r: Option<String>)
    ensures
        r matches Some(s) ==> path_parent(p@) == Some(s@),
        r is None ==> path_parent(p@) is None,
{
    std::path::Path::new(p).parent().map(|q| q.to_string_lossy().into_owned())
}

/// The last component of a path, when it is a normal one (`Path::file_name`).
/// The path is UTF-8, so the component is too and converts without loss.
#[verifier::external_body]
pub(crate) fn file_name_of(p: &str) -> (r: Option<String>)
    ensures
        r matches Some(s) ==> path_file_name(p@) == Some(s@),
        r is None ==> path_file_name(p@) is None,
{
    std::path::Path::new(p).file_name().map(|n| n.to_string_lossy().into_owned())
}

} // verus!
