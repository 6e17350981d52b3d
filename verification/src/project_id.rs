//! Stable project ids: the slug of a project root's last component and a
//! 64-bit FNV-1a hash of the root's path bytes.
use crate::paths::{file_name_of, path_file_name};
use crate::profiles_root::{is_name_char, is_valid_name, valid_name};
use crate::text::{
    ascii_lower, cat, char_ascii_lower, char_is_ascii_alnum, chars_of, digit_char, hex_fixed,
    hex_fixed_string, is_ascii_alnum, is_ascii_digit, owned, string_of,
};
use vstd::prelude::*;

verus! {

/// How a character of a directory name appears in its slug: ASCII letters
/// and digits lowercased, anything else as `-`.
pub open spec fn slug_char(c: char) -> char {
    if is_ascii_alnum(c) {
        ascii_lower(c)
    } else {
        '-'
    }
}

/// The maximal runs of characters other than `-`, in order (what
/// `split('-')` gives, without the empty pieces).
pub open spec fn dash_words(t: Seq<char>) -> Seq<Seq<char>>
    decreases t.len(),
{
    if t.len() == 0 {
        seq![]
    } else if t.last() == '-' {
        dash_words(t.drop_last())
    } else if t.len() > 1 && t[t.len() - 2] != '-' {
        let w = dash_words(t.drop_last());
        w.update(w.len() - 1, w.last().push(t.last()))
    } else {
        dash_words(t.drop_last()).push(seq![t.last()])
    }
}

/// Texts joined with `-`.
pub open spec fn join_dash(ws: Seq<Seq<char>>) -> Seq<char>
    decreases ws.len(),
{
    if ws.len() == 0 {
        seq![]
    } else if ws.len() == 1 {
        ws[0]
    } else {
        join_dash(ws.drop_last()) + seq!['-'] + ws.last()
    }
}

/// The slug of a name: its characters mapped by `slug_char`, split at `-`,
/// the empty pieces dropped, and the rest joined with `-`.
pub open spec fn slug(s: Seq<char>) -> Seq<char> {
    join_dash(dash_words(s.map_values(|c: char| slug_char(c))))
}

proof fn lemma_words_nonempty(t: Seq<char>)
    requires
        t.len() > 0,
        t.last() != '-',
    ensures
        dash_words(t).len() > 0,
    decreases t.len(),
{
    if t.len() > 1 && t[t.len() - 2] != '-' {
        lemma_words_nonempty(t.drop_last());
    }
}

proof fn lemma_join_extend_last(w: Seq<Seq<char>>, c: char)
    requires
        w.len() > 0,
    ensures
        join_dash(w.update(w.len() - 1, w.last().push(c))) == join_dash(w).push(c),
{
    let u = w.update(w.len() - 1, w.last().push(c));
    if w.len() > 1 {
        assert(u.drop_last() =~= w.drop_last());
        assert(join_dash(u) =~= join_dash(w).push(c));
    }
}

/// The slug of `value`.
pub fn slugify(value: &str) -> (r: String)
    ensures
        r@ == slug(value@),
{
    let v = chars_of(value);
    let ghost t = v@.map_values(|c: char| slug_char(c));
    let mut out: Vec<char> = Vec::new();
    let mut i: usize = 0;
    while i < v.len()
        invariant
            i <= v.len(),
            t == v@.map_values(|c: char| slug_char(c)),
            out@ == join_dash(dash_words(t.subrange(0, i as int))),
            (out.len() == 0) == (dash_words(t.subrange(0, i as int)).len() == 0),
        decreases v.len() - i,
    {
        let c = v[i];
        let s = if char_is_ascii_alnum(c) {
            char_ascii_lower(c)
        } else {
            '-'
        };
        let ghost p = t.subrange(0, i as int);
        let ghost q = t.subrange(0, i + 1);
        proof {
            assert(q.drop_last() =~= p);
            assert(q.last() == s);
        }
        if s != '-' {
            let joins = i > 0 && {
                let prev = v[i - 1];
                char_is_ascii_alnum(prev)
            };
            proof {
                if i > 0 {
                    assert(q[q.len() - 2] == t[i - 1]);
                    assert(t[i - 1] == slug_char(v@[i - 1]));
                }
            }
            if joins {
                proof {
                    assert(p.last() == t[i - 1]);
                    lemma_words_nonempty(p);
                    lemma_join_extend_last(dash_words(p), s);
                }
                out.push(s);
            } else {
                if out.len() > 0 {
                    out.push('-');
                }
                out.push(s);
                proof {
                    let w = dash_words(p);
                    let w2 = w.push(seq![s]);
                    assert(dash_words(q) == w2);
                    assert(w2.drop_last() =~= w);
                    if w.len() == 0 {
                        assert(out@ =~= seq![s]);
                    } else {
                        assert(out@ =~= join_dash(w) + seq!['-'] + seq![s]);
                    }
                }
            }
        }
        i = i + 1;
    }
    assert(t.subrange(0, v.len() as int) =~= t);
    string_of(&out)
}

pub const FNV_OFFSET_BASIS: u64 = 0xcbf29ce484222325u64;

pub const FNV_PRIME: u64 = 0x100000001b3u64;

/// The FNV-1a state after hashing `bytes` from the offset basis: each byte
/// is xored in, then the state is multiplied by the prime modulo 2^64.
pub open spec fn fnv_state(bytes: Seq<u8>) -> u64
    decreases bytes.len(),
{
    if bytes.len() == 0 {
        FNV_OFFSET_BASIS
    } else {
        (((fnv_state(bytes.drop_last()) ^ (bytes.last() as u64)) as nat * FNV_PRIME as nat)
            % 0x1_0000_0000_0000_0000) as u64
    }
}

/// The stable hash of some bytes: the FNV-1a state, except that a zero
/// state reads as the offset basis.
pub open spec fn stable_hash_of(bytes: Seq<u8>) -> u64 {
    if fnv_state(bytes) == 0 {
        FNV_OFFSET_BASIS
    } else {
        fnv_state(bytes)
    }
}

pub fn stable_hash(bytes: &[u8]) -> (h: u64)
    ensures
        h == stable_hash_of(bytes@),
{
    let mut value: u64 = FNV_OFFSET_BASIS;
    let mut i: usize = 0;
    while i < bytes.len()
        invariant
            i <= bytes.len(),
            value == fnv_state(bytes@.subrange(0, i as int)),
        decreases bytes.len() - i,
    {
        let ghost p = bytes@.subrange(0, i as int);
        value = value ^ (bytes[i] as u64);
        value = value.wrapping_mul(FNV_PRIME);
        proof {
            let q = bytes@.subrange(0, i + 1);
            assert(q.drop_last() =~= p);
            assert(q.last() == bytes@[i as int]);
        }
        i = i + 1;
    }
    assert(bytes@.subrange(0, bytes.len() as int) =~= bytes@);
    if value == 0 {
        FNV_OFFSET_BASIS
    } else {
        value
    }
}

/// The readable part of a project id: the slug of the root's last
/// component, or `project` when it has none or its slug is empty.
pub open spec fn project_base_of(file_name: Option<Seq<char>>) -> Seq<char> {
    match file_name {
        Some(n) => if slug(n).len() > 0 {
            slug(n)
        } else {
            "project"@
        },
        None => "project"@,
    }
}

/// A project's id: its readable part, `-`, and the low 48 bits of the
/// stable hash of the root path's UTF-8 bytes as 12 lowercase hex digits.
pub open spec fn project_id_of(root: Seq<char>) -> Seq<char> {
    project_base_of(path_file_name(root)) + "-"@ + hex_fixed(
        (stable_hash_of(vstd::utf8::encode_utf8(root)) & 0xffff_ffff_ffffu64) as nat,
        12,
    )
}

/// The id of a project root given its last component (`Path::file_name`).
pub fn project_id_from(root: &str, file_name: Option<String>) -> (r: String)
    ensures
        r@ == project_base_of(
            match file_name {
                Some(n) => Some(n@),
                None => None,
            },
        ) + "-"@ + hex_fixed(
            (stable_hash_of(vstd::utf8::encode_utf8(root@)) & 0xffff_ffff_ffffu64) as nat,
            12,
        ),
{
    let base = match file_name {
        Some(name) => {
            let s = slugify(name.as_str());
            if !s.as_str().is_empty() {
                s
            } else {
                owned("project")
            }
        },
        None => owned("project"),
    };
    let h = stable_hash(root.as_bytes());
    let low = h & 0xffff_ffff_ffffu64;
    let hex = hex_fixed_string(low, 12);
    let head = cat(base.as_str(), "-");
    cat(head.as_str(), hex.as_str())
}

pub fn project_id_for_root(root: &str) -> (r: String)
    ensures
        r@ == project_id_of(root@),
{
    project_id_from(root, file_name_of(root))
}

/// A character a slug is made of besides `-`: a lowercase ASCII letter or
/// a digit.
pub open spec fn is_slug_char(c: char) -> bool {
    is_ascii_digit(c) || ('a' <= c && c <= 'z')
}

pub open spec fn slug_word(w: Seq<char>) -> bool {
    w.len() > 0 && forall|m: int| 0 <= m < w.len() ==> is_slug_char(#[trigger] w[m])
}

proof fn lemma_words_shape(t: Seq<char>)
    requires
        forall|i: int| 0 <= i < t.len() ==> (#[trigger] t[i]) == '-' || is_slug_char(t[i]),
    ensures
        forall|k: int| 0 <= k < dash_words(t).len() ==> slug_word(#[trigger] dash_words(t)[k]),
    decreases t.len(),
{
    if t.len() > 0 {
        let p = t.drop_last();
        assert forall|i: int| 0 <= i < p.len() implies (#[trigger] p[i]) == '-' || is_slug_char(
            p[i],
        ) by {
            assert(p[i] == t[i]);
        }
        lemma_words_shape(p);
        let w = dash_words(p);
        let c = t.last();
        if c != '-' {
            assert(is_slug_char(c));
            if t.len() > 1 && t[t.len() - 2] != '-' {
                assert(p.last() == t[t.len() - 2]);
                lemma_words_nonempty(p);
                let nw = w.last().push(c);
                assert(slug_word(w[w.len() - 1]));
                assert forall|m: int| 0 <= m < nw.len() implies is_slug_char(#[trigger] nw[m]) by {
                    if m < w.last().len() {
                        assert(nw[m] == w[w.len() - 1][m]);
                    }
                }
                assert forall|k: int| 0 <= k < dash_words(t).len() implies slug_word(
                    #[trigger] dash_words(t)[k],
                ) by {
                    if k < w.len() - 1 {
                        assert(dash_words(t)[k] == w[k]);
                    } else {
                        assert(dash_words(t)[k] == nw);
                    }
                }
            } else {
                assert forall|k: int| 0 <= k < dash_words(t).len() implies slug_word(
                    #[trigger] dash_words(t)[k],
                ) by {
                    if k < w.len() {
                        assert(dash_words(t)[k] == w[k]);
                    } else {
                        assert(dash_words(t)[k] == seq![c]);
                    }
                }
            }
        }
    }
}

proof fn lemma_join_shape(ws: Seq<Seq<char>>)
    requires
        forall|k: int| 0 <= k < ws.len() ==> slug_word(#[trigger] ws[k]),
    ensures
        (join_dash(ws).len() == 0) == (ws.len() == 0),
        join_dash(ws).len() > 0 ==> is_slug_char(join_dash(ws)[0]),
        forall|i: int|
            0 <= i < join_dash(ws).len() ==> (#[trigger] join_dash(ws)[i]) == '-' || is_slug_char(
                join_dash(ws)[i],
            ),
    decreases ws.len(),
{
    if ws.len() == 1 {
        assert(slug_word(ws[0]));
    } else if ws.len() > 1 {
        let front = ws.drop_last();
        assert forall|k: int| 0 <= k < front.len() implies slug_word(#[trigger] front[k]) by {
            assert(front[k] == ws[k]);
        }
        lemma_join_shape(front);
        let j0 = join_dash(front);
        let last = ws.last();
        assert(slug_word(ws[ws.len() - 1]));
        let j = join_dash(ws);
        assert(j == j0 + seq!['-'] + last);
        assert(j[0] == j0[0]);
        assert forall|i: int| 0 <= i < j.len() implies (#[trigger] j[i]) == '-' || is_slug_char(
            j[i],
        ) by {
            if i < j0.len() {
                assert(j[i] == j0[i]);
            } else if i > j0.len() {
                assert(j[i] == last[i - j0.len() - 1]);
            }
        }
    }
}

proof fn lemma_slug_shape(s: Seq<char>)
    ensures
        slug(s).len() > 0 ==> is_slug_char(slug(s)[0]),
        forall|i: int| 0 <= i < slug(s).len() ==> (#[trigger] slug(s)[i]) == '-' || is_slug_char(
            slug(s)[i],
        ),
{
    let t = s.map_values(|c: char| slug_char(c));
    assert forall|i: int| 0 <= i < t.len() implies (#[trigger] t[i]) == '-' || is_slug_char(
        t[i],
    ) by {
        let c = s[i];
        assert(t[i] == slug_char(c));
        if is_ascii_alnum(c) && 'A' <= c && c <= 'Z' {
            assert(('a' as u32) <= (c as u32) + 32 <= ('z' as u32));
        }
    }
    lemma_words_shape(t);
    lemma_join_shape(dash_words(t));
}

proof fn lemma_hex_shape(n: nat, width: nat)
    ensures
        hex_fixed(n, width).len() == width,
        forall|i: int| 0 <= i < width ==> is_slug_char(#[trigger] hex_fixed(n, width)[i]),
    decreases width,
{
    if width > 0 {
        lemma_hex_shape(n / 16, (width - 1) as nat);
        let d = n % 16;
        assert(is_slug_char(digit_char(d))) by {
            if d < 10 {
                assert(('0' as u32) <= (d + 48) <= ('9' as u32));
            } else {
                assert(('a' as u32) <= (d + 87) <= ('z' as u32));
            }
        }
        let h = hex_fixed(n, width);
        let front = hex_fixed(n / 16, (width - 1) as nat);
        assert forall|i: int| 0 <= i < width implies is_slug_char(#[trigger] h[i]) by {
            if i < width - 1 {
                assert(h[i] == front[i]);
            } else {
                assert(h[i] == digit_char(d));
            }
        }
    }
}

/// Law: a generated project id starts with a lowercase letter or digit and
/// holds only lowercase letters, digits and `-`, so it is a valid project
/// name exactly when it is at most 64 characters long.
pub proof fn lemma_project_id_is_name_when_short(root: Seq<char>)
    ensures
        project_id_of(root).len() > 13,
        valid_name(project_id_of(root)) <==> project_id_of(root).len() <= 64,
{
    let base = project_base_of(path_file_name(root));
    let hex = hex_fixed(
        (stable_hash_of(vstd::utf8::encode_utf8(root)) & 0xffff_ffff_ffffu64) as nat,
        12,
    );
    let id = project_id_of(root);
    reveal_strlit("project");
    reveal_strlit("-");
    assert(base.len() > 0 && is_slug_char(base[0]) && forall|i: int|
        0 <= i < base.len() ==> (#[trigger] base[i]) == '-' || is_slug_char(base[i])) by {
        match path_file_name(root) {
            Some(n) => {
                lemma_slug_shape(n);
            },
            None => {},
        }
        if base == "project"@ {
            assert forall|i: int| 0 <= i < base.len() implies (#[trigger] base[i]) == '-'
                || is_slug_char(base[i]) by {
                assert(base[i] == "project"@[i]);
            }
        }
    }
    lemma_hex_shape(
        (stable_hash_of(vstd::utf8::encode_utf8(root)) & 0xffff_ffff_ffffu64) as nat,
        12,
    );
    assert(id == base + "-"@ + hex);
    assert(id[0] == base[0]);
    assert forall|i: int| 1 <= i < id.len() implies is_name_char(#[trigger] id[i]) by {
        if i < base.len() {
            assert(id[i] == base[i]);
        } else if i > base.len() {
            assert(id[i] == hex[i - base.len() - 1]);
        } else {
            assert(id[i] == '-');
        }
    }
}

/// The id a project runs under: the given one when there is one (it must be
/// a valid name), else the id of its root.
pub fn resolve_project_id(explicit_id: Option<&str>, root: &str) -> (r: Result<String, String>)
    ensures
        explicit_id matches Some(id) ==> (if valid_name(id@) {
            r matches Ok(s) && s@ == id@
        } else {
            r matches Err(e) && e@ == "invalid project id `"@ + id@ + "`"@
        }),
        explicit_id is None ==> (r matches Ok(s) && s@ == project_id_of(root@)),
{
    match explicit_id {
        Some(id) => {
            if !is_valid_name(id) {
                let head = cat("invalid project id `", id);
                return Err(cat(head.as_str(), "`"));
            }
            Ok(owned(id))
        },
        None => Ok(project_id_for_root(root)),
    }
}

} // verus!
