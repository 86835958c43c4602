//! File classification: the binary-extension heuristic that keeps obviously
//! non-text files out of a search, and the normalized project-relative path
//! used for display.

use vstd::prelude::*;
use vstd::string::*;
use crate::text::{contains_seq, occurs_at, matches_at};

verus! {

/// A path separator on either platform.
pub open spec fn is_sep(c: char) -> bool {
    c == '/' || c == '\\'
}

/// ASCII-lowercased code point, for case-insensitive extension comparison.
pub open spec fn lower_code(c: char) -> int {
    if 65 <= c as int && c as int <= 90 {
        c as int + 32
    } else {
        c as int
    }
}

/// ASCII-case-insensitive equality of two character sequences.
pub open spec fn ci_equal(a: Seq<char>, b: Seq<char>) -> bool {
    a.len() == b.len() && (forall|i: int| 0 <= i < a.len() ==> lower_code(a[i]) == lower_code(
        b[i],
    ))
}

/// ASCII-case-insensitive string comparison.
pub fn eq_ignore_case(a: &str, b: &str) -> (r: bool)
    ensures
        r == ci_equal(a@, b@),
{
    let na = a.unicode_len();
    let nb = b.unicode_len();
    if na != nb {
        return false;
    }
    let mut i: usize = 0;
    while i < na
        invariant
            na == a@.len() == b@.len(),
            i <= na,
            forall|j: int| 0 <= j < i ==> lower_code(a@[j]) == lower_code(b@[j]),
        decreases na - i,
    {
        let ca = a.get_char(i) as u32;
        let cb = b.get_char(i) as u32;
        let la = if 65 <= ca && ca <= 90 {
            ca + 32
        } else {
            ca
        };
        let lb = if 65 <= cb && cb <= 90 {
            cb + 32
        } else {
            cb
        };
        if la != lb {
            return false;
        }
        i += 1;
    }
    true
}

/// `d` is the index of the dot that introduces the extension: the final dot
/// of the final path component, not its first character.
pub open spec fn ext_dot_at(path: Seq<char>, d: int) -> bool {
    &&& 0 <= d < path.len()
    &&& path[d] == '.'
    &&& (forall|k: int| d < k < path.len() ==> path[k] != '.' && !is_sep(path[k]))
    &&& d > 0
    &&& !is_sep(path[d - 1])
}

/// The extension of a path, if any: the part of the last component after its
/// final dot.  A component without a dot, or whose only dot is its first
/// character, has no extension.
pub open spec fn spec_extension(path: Seq<char>) -> Option<Seq<char>> {
    if exists|d: int| ext_dot_at(path, d) {
        let d = choose|d: int| ext_dot_at(path, d);
        Some(path.skip(d + 1))
    } else {
        None
    }
}

proof fn lemma_ext_dot_unique(path: Seq<char>, d1: int, d2: int)
    requires
        ext_dot_at(path, d1),
        ext_dot_at(path, d2),
    ensures
        d1 == d2,
{
    if d1 < d2 {
        assert(path[d2] != '.');
    }
    if d2 < d1 {
        assert(path[d1] != '.');
    }
}

/// Extracts the extension of `path`, if it has one.
pub fn extension_of(path: &str) -> (r: Option<String>)
    ensures
        match r {
            Some(e) => spec_extension(path@) == Some(e@),
            None => spec_extension(path@) is None,
        },
{
    let n = path.unicode_len();
    let mut i: usize = n;
    while i > 0
        invariant
            n == path@.len(),
            i <= n,
            forall|k: int| i <= k < n ==> path@[k] != '.' && !is_sep(path@[k]),
        decreases i,
    {
        i -= 1;
        let c = path.get_char(i);
        if c == '.' {
            if i == 0 {
                proof {
                    assert(forall|d: int| !ext_dot_at(path@, d)) by {
                        assert forall|d: int| !ext_dot_at(path@, d) by {
                            if ext_dot_at(path@, d) {
                                assert(d == 0 || path@[d] != '.');
                            }
                        }
                    }
                }
                return None;
            }
            let prev = path.get_char(i - 1);
            if prev == '/' || prev == '\\' {
                proof {
                    assert forall|d: int| !ext_dot_at(path@, d) by {
                        if ext_dot_at(path@, d) {
                            if d < i {
                                assert(path@[i as int] != '.');
                            }
                            if d > i {
                                assert(path@[d] != '.');
                            }
                        }
                    }
                }
                return None;
            }
            let e = path.substring_char(i + 1, n);
            let ext = String::from_str(e);
            proof {
                assert(ext_dot_at(path@, i as int));
                let d = choose|d: int| ext_dot_at(path@, d);
                lemma_ext_dot_unique(path@, d, i as int);
                assert(ext@ =~= path@.skip(i + 1));
            }
            return Some(ext);
        } else if c == '/' || c == '\\' {
            proof {
                assert forall|d: int| !ext_dot_at(path@, d) by {
                    if ext_dot_at(path@, d) {
                        if d <= i {
                            assert(!is_sep(path@[i as int]) || d == i);
                            assert(path@[d] == '.');
                        }
                        if d > i {
                            assert(path@[d] != '.');
                        }
                    }
                }
            }
            return None;
        }
    }
    proof {
        assert forall|d: int| !ext_dot_at(path@, d) by {
            if ext_dot_at(path@, d) {
                assert(path@[d] != '.');
            }
        }
    }
    None
}

/// The fixed denylist of extensions treated as binary: executables,
/// archives, and common image or object formats, compared without regard to
/// ASCII case.
pub open spec fn spec_is_binary_ext(ext: Seq<char>) -> bool {
    ||| ci_equal(ext, "exe"@)
    ||| ci_equal(ext, "dll"@)
    ||| ci_equal(ext, "so"@)
    ||| ci_equal(ext, "dylib"@)
    ||| ci_equal(ext, "bin"@)
    ||| ci_equal(ext, "obj"@)
    ||| ci_equal(ext, "o"@)
    ||| ci_equal(ext, "a"@)
    ||| ci_equal(ext, "lib"@)
    ||| ci_equal(ext, "png"@)
    ||| ci_equal(ext, "jpg"@)
    ||| ci_equal(ext, "jpeg"@)
    ||| ci_equal(ext, "gif"@)
    ||| ci_equal(ext, "bmp"@)
    ||| ci_equal(ext, "ico"@)
    ||| ci_equal(ext, "pdf"@)
    ||| ci_equal(ext, "zip"@)
    ||| ci_equal(ext, "tar"@)
    ||| ci_equal(ext, "gz"@)
    ||| ci_equal(ext, "7z"@)
    ||| ci_equal(ext, "rar"@)
}

/// A path counts as likely binary exactly when it has an extension on the
/// denylist.  A file without an extension is treated as text.  This is a
/// heuristic on the name alone; no content is inspected.
pub open spec fn spec_is_binary(path: Seq<char>) -> bool {
    match spec_extension(path) {
        Some(e) => spec_is_binary_ext(e),
        None => false,
    }
}

/// Decides whether a file is likely binary from its extension alone.
pub fn is_likely_binary(path: &str) -> (r: bool)
    ensures
        r == spec_is_binary(path@),
{
    match extension_of(path) {
        Some(ext) => {
            let e = ext.as_str();
            eq_ignore_case(e, "exe") || eq_ignore_case(e, "dll") || eq_ignore_case(e, "so")
                || eq_ignore_case(e, "dylib") || eq_ignore_case(e, "bin") || eq_ignore_case(
                e,
                "obj",
            ) || eq_ignore_case(e, "o") || eq_ignore_case(e, "a") || eq_ignore_case(e, "lib")
                || eq_ignore_case(e, "png") || eq_ignore_case(e, "jpg") || eq_ignore_case(
                e,
                "jpeg",
            ) || eq_ignore_case(e, "gif") || eq_ignore_case(e, "bmp") || eq_ignore_case(e, "ico")
                || eq_ignore_case(e, "pdf") || eq_ignore_case(e, "zip") || eq_ignore_case(
                e,
                "tar",
            ) || eq_ignore_case(e, "gz") || eq_ignore_case(e, "7z") || eq_ignore_case(e, "rar")
        },
        None => false,
    }
}

/// Every separator turned into a forward slash.
pub open spec fn norm_slash(s: Seq<char>) -> Seq<char> {
    s.map_values(
        |c: char|
            if c == '\\' {
                '/'
            } else {
                c
            },
    )
}

/// Index of the first character that is not a separator (the length if all
/// are).
pub open spec fn first_non_sep(s: Seq<char>) -> int
    decreases s.len(),
{
    if s.len() == 0 {
        0
    } else if is_sep(s[0]) {
        1 + first_non_sep(s.skip(1))
    } else {
        0
    }
}

proof fn lemma_first_non_sep(s: Seq<char>)
    ensures
        0 <= first_non_sep(s) <= s.len(),
        forall|k: int| 0 <= k < first_non_sep(s) ==> is_sep(s[k]),
        first_non_sep(s) < s.len() ==> !is_sep(s[first_non_sep(s)]),
    decreases s.len(),
{
    if s.len() > 0 && is_sep(s[0]) {
        lemma_first_non_sep(s.skip(1));
        assert forall|k: int| 0 <= k < first_non_sep(s) implies is_sep(s[k]) by {
            if k > 0 {
                assert(is_sep(s.skip(1)[k - 1]));
            }
        }
    }
}

/// The display path: the root stripped off when it prefixes the path (along
/// with any separators that follow it), and all separators normalized to
/// forward slashes.  Relativization is for display only and never affects
/// matching.
pub open spec fn spec_relativize(path: Seq<char>, root: Seq<char>) -> Seq<char> {
    if root.is_prefix_of(path) {
        let rest = path.skip(root.len() as int);
        norm_slash(rest.skip(first_non_sep(rest)))
    } else {
        norm_slash(path)
    }
}

fn skip_separators(path: &str, from: usize) -> (r: usize)
    requires
        from <= path@.len(),
    ensures
        from <= r <= path@.len(),
        forall|k: int| from <= k < r ==> is_sep(path@[k]),
        r < path@.len() ==> !is_sep(path@[r as int]),
{
    let n = path.unicode_len();
    let mut i = from;
    while i < n
        invariant
            n == path@.len(),
            from <= i <= n,
            forall|k: int| from <= k < i ==> is_sep(path@[k]),
        decreases n - i,
    {
        let c = path.get_char(i);
        if c != '/' && c != '\\' {
            return i;
        }
        i += 1;
    }
    i
}

/// Computes the normalized project-relative form of `path`.
pub fn relativize(path: &str, root: &str) -> (r: String)
    ensures
        r@ == spec_relativize(path@, root@),
{
    let n = path.unicode_len();
    let rl = root.unicode_len();
    let mut start: usize = 0;
    if rl <= n && matches_at(path, root, 0) {
        proof {
            assert(path@.subrange(0, rl as int) =~= path@.take(rl as int));
            assert(root@.is_prefix_of(path@));
        }
        start = skip_separators(path, rl);
        proof {
            let rest = path@.skip(rl as int);
            lemma_first_non_sep(rest);
            let j1 = first_non_sep(rest);
            let j2 = start - rl;
            assert(forall|k: int| 0 <= k < j2 ==> is_sep(rest[k]));
            if j1 < j2 {
                assert(is_sep(rest[j1]));
            }
            if j2 < j1 {
                assert(is_sep(rest[j2]));
                assert(!is_sep(path@[start as int]));
            }
            assert(j1 == j2);
            assert(rest.skip(j1) =~= path@.skip(start as int));
        }
    } else {
        proof {
            if rl <= n {
                assert(path@.subrange(0, rl as int) =~= path@.take(rl as int));
            }
            assert(!root@.is_prefix_of(path@));
            assert(path@.skip(0) =~= path@);
        }
    }
    let ghost tail = path@.skip(start as int);
    let mut out = String::new();
    let mut i: usize = start;
    proof {
        assert(out@ =~= norm_slash(path@.subrange(start as int, start as int)));
    }
    while i < n
        invariant
            n == path@.len(),
            start <= i <= n,
            out@ == norm_slash(path@.subrange(start as int, i as int)),
        decreases n - i,
    {
        let c = path.get_char(i);
        if c == '\\' {
            out.append("/");
            proof {
                reveal_strlit("/");
                assert(out@ =~= norm_slash(path@.subrange(start as int, i + 1)));
            }
        } else {
            let piece = path.substring_char(i, i + 1);
            out.append(piece);
            proof {
                assert(piece@ =~= seq![path@[i as int]]);
                assert(out@ =~= norm_slash(path@.subrange(start as int, i + 1)));
            }
        }
        i += 1;
    }
    proof {
        assert(path@.subrange(start as int, n as int) =~= tail);
    }
    out
}

proof fn lemma_contains_in_norm(t: Seq<char>, p: Seq<char>)
    requires
        contains_seq(norm_slash(t), p),
        !p.contains('/'),
    ensures
        contains_seq(t, p),
{
    let i = choose|i: int| occurs_at(norm_slash(t), p, i);
    assert(t.subrange(i, i + p.len() as int) =~= p) by {
        assert forall|k: int| 0 <= k < p.len() implies t.subrange(i, i + p.len() as int)[k] == p[k] by {
            assert(norm_slash(t).subrange(i, i + p.len() as int)[k] == p[k]);
            assert(norm_slash(t)[i + k] == p[k]);
            assert(p[k] != '/');
        }
    }
    assert(occurs_at(t, p, i));
}

proof fn lemma_contains_in_skip(t: Seq<char>, k: int, p: Seq<char>)
    requires
        0 <= k <= t.len(),
        contains_seq(t.skip(k), p),
    ensures
        contains_seq(t, p),
{
    let i = choose|i: int| occurs_at(t.skip(k), p, i);
    assert(t.subrange(k + i, k + i + p.len() as int) =~= t.skip(k).subrange(
        i,
        i + p.len() as int,
    ));
    assert(occurs_at(t, p, k + i));
}

/// A relative display path cannot re-introduce an excluded substring: when a
/// pattern with no forward slash does not occur in the full path, it does
/// not occur in the relativized path either.
pub proof fn lemma_relativize_keeps_absence(path: Seq<char>, root: Seq<char>, p: Seq<char>)
    requires
        !contains_seq(path, p),
        !p.contains('/'),
    ensures
        !contains_seq(spec_relativize(path, root), p),
{
    if root.is_prefix_of(path) {
        let rest = path.skip(root.len() as int);
        lemma_first_non_sep(rest);
        let j = first_non_sep(rest);
        if contains_seq(spec_relativize(path, root), p) {
            lemma_contains_in_norm(rest.skip(j), p);
            lemma_contains_in_skip(rest, j, p);
            lemma_contains_in_skip(path, root.len() as int, p);
        }
    } else {
        if contains_seq(spec_relativize(path, root), p) {
            lemma_contains_in_norm(path, p);
        }
    }
}

} // verus!
