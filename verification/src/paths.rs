//! Document paths: resolution against an optional base path, the markdown
//! extension filter, and the deterministic sorted order of located files.
//!
//! Paths are modeled as plain strings with `/` as the separator, as a
//! directory walk hands them over (no trailing separator on a file path).

use vstd::prelude::*;

verus! {

/// A path with every leading `/` removed.
pub open spec fn spec_drop_leading_seps(s: Seq<char>) -> Seq<char>
    decreases s.len(),
{
    if s.len() > 0 && s[0] == '/' {
        spec_drop_leading_seps(s.drop_first())
    } else {
        s
    }
}

/// `file` lies under `base`: `base` is a literal prefix of `file` that ends
/// on a component boundary (the whole path, a prefix followed by `/`, or a
/// prefix that itself ends in `/`).
pub open spec fn spec_is_descendant(file: Seq<char>, base: Seq<char>) -> bool {
    &&& base.len() <= file.len()
    &&& file.take(base.len() as int) == base
    &&& (file.len() == base.len() || file[base.len() as int] == '/' || (base.len() > 0
        && base.last() == '/'))
}

/// The reference path written into a node: the remainder after `base` when
/// `file` lies under it, otherwise `file` itself; either way with every
/// leading separator removed, so that a reference is never rooted at the
/// filesystem root.
pub open spec fn spec_resolve_path(file: Seq<char>, base: Option<Seq<char>>) -> Seq<char> {
    match base {
        Some(b) => {
            if spec_is_descendant(file, b) {
                spec_drop_leading_seps(file.skip(b.len() as int))
            } else {
                spec_drop_leading_seps(file)
            }
        },
        None => spec_drop_leading_seps(file),
    }
}

/// The view of an optional borrowed string.
pub open spec fn spec_opt_str_view(o: Option<&str>) -> Option<Seq<char>> {
    match o {
        Some(s) => Some(s@),
        None => None,
    }
}

/// Whether `p` is a character-for-character prefix of `s`.
pub(crate) fn is_char_prefix(s: &str, p: &str) -> (r: bool)
    ensures
        r == (p@.len() <= s@.len() && s@.take(p@.len() as int) == p@),
{
    let sl = s.unicode_len();
    let pl = p.unicode_len();
    if pl > sl {
        return false;
    }
    let mut t: usize = 0;
    while t < pl
        invariant
            t <= pl,
            pl <= sl,
            pl == p@.len(),
            sl == s@.len(),
            forall|u: int| 0 <= u < t ==> s@[u] == p@[u],
        decreases pl - t,
    {
        if s.get_char(t) != p.get_char(t) {
            proof {
                assert(s@.take(pl as int)[t as int] == s@[t as int]);
            }
            return false;
        }
        t += 1;
    }
    proof {
        assert(s@.take(pl as int) =~= p@);
    }
    true
}

/// Resolve a document path for a reference node: relative to `base_path`
/// when the document lies under it, otherwise the path itself with every
/// leading separator stripped.
pub fn make_relative_path(file_path: &str, base_path: Option<&str>) -> (r: String)
    ensures
        r@ == spec_resolve_path(file_path@, spec_opt_str_view(base_path)),
{
    let flen = file_path.unicode_len();
    match base_path {
        Some(base) => {
            let blen = base.unicode_len();
            let is_desc = if is_char_prefix(file_path, base) {
                if flen == blen {
                    true
                } else if file_path.get_char(blen) == '/' {
                    true
                } else {
                    blen > 0 && base.get_char(blen - 1) == '/'
                }
            } else {
                false
            };
            proof {
                assert(is_desc == spec_is_descendant(file_path@, base@));
            }
            if is_desc {
                let mut start = blen;
                while start < flen && file_path.get_char(start) == '/'
                    invariant
                        blen <= start <= flen,
                        flen == file_path@.len(),
                        spec_drop_leading_seps(file_path@.skip(blen as int))
                            == spec_drop_leading_seps(file_path@.skip(start as int)),
                    decreases flen - start,
                {
                    proof {
                        assert(file_path@.skip(start as int).drop_first() =~= file_path@.skip(
                            start as int + 1,
                        ));
                    }
                    start += 1;
                }
                let rel = file_path.substring_char(start, flen);
                proof {
                    assert(rel@ =~= file_path@.skip(start as int));
                }
                rel.to_owned()
            } else {
                strip_leading_sep(file_path)
            }
        },
        None => strip_leading_sep(file_path),
    }
}

/// A copy of `file_path` with every leading `/` removed.
fn strip_leading_sep(file_path: &str) -> (r: String)
    ensures
        r@ == spec_drop_leading_seps(file_path@),
{
    let flen = file_path.unicode_len();
    let mut start: usize = 0;
    proof {
        assert(file_path@.skip(0) =~= file_path@);
    }
    while start < flen && file_path.get_char(start) == '/'
        invariant
            start <= flen,
            flen == file_path@.len(),
            spec_drop_leading_seps(file_path@) == spec_drop_leading_seps(
                file_path@.skip(start as int),
            ),
        decreases flen - start,
    {
        proof {
            assert(file_path@.skip(start as int).drop_first() =~= file_path@.skip(
                start as int + 1,
            ));
        }
        start += 1;
    }
    let rest = file_path.substring_char(start, flen);
    proof {
        assert(rest@ =~= file_path@.skip(start as int));
    }
    rest.to_owned()
}

/// What `spec_drop_leading_seps` leaves never begins with the separator.
proof fn lemma_drop_leading_seps_not_rooted(s: Seq<char>)
    ensures
        spec_drop_leading_seps(s).len() > 0 ==> spec_drop_leading_seps(s)[0] != '/',
    decreases s.len(),
{
    if s.len() > 0 && s[0] == '/' {
        lemma_drop_leading_seps_not_rooted(s.drop_first());
    }
}

/// A resolved reference path is never rooted at the filesystem root: it
/// never begins with the path separator, whatever the document path and
/// whatever the base.
pub proof fn lemma_resolved_path_not_rooted(file: Seq<char>, base: Option<Seq<char>>)
    ensures
        spec_resolve_path(file, base).len() > 0 ==> spec_resolve_path(file, base)[0] != '/',
{
    match base {
        Some(b) => {
            if spec_is_descendant(file, b) {
                lemma_drop_leading_seps_not_rooted(file.skip(b.len() as int));
            } else {
                lemma_drop_leading_seps_not_rooted(file);
            }
        },
        None => {
            lemma_drop_leading_seps_not_rooted(file);
        },
    }
}

/// The index of the last occurrence of `c` in `s`, or `-1` when absent.
pub open spec fn spec_rfind(s: Seq<char>, c: char) -> int
    decreases s.len(),
{
    if s.len() == 0 {
        -1
    } else if s.last() == c {
        s.len() - 1
    } else {
        spec_rfind(s.drop_last(), c)
    }
}

/// Find the last occurrence of `c` in `s`.
fn rfind_char(s: &str, c: char) -> (r: Option<usize>)
    ensures
        match r {
            Some(i) => spec_rfind(s@, c) == i as int,
            None => spec_rfind(s@, c) == -1,
        },
{
    let len = s.unicode_len();
    let mut i = len;
    proof {
        assert(s@.take(len as int) =~= s@);
    }
    while i > 0
        invariant
            i <= len,
            len == s@.len(),
            spec_rfind(s@, c) == spec_rfind(s@.take(i as int), c),
        decreases i,
    {
        let ch = s.get_char(i - 1);
        proof {
            assert(s@.take(i as int).last() == s@[i as int - 1]);
            assert(s@.take(i as int).drop_last() =~= s@.take(i as int - 1));
        }
        if ch == c {
            return Some(i - 1);
        }
        i -= 1;
    }
    proof {
        assert(s@.take(0).len() == 0);
    }
    None
}

/// The file-name component of a path: everything after the last `/`.
pub open spec fn spec_file_name(p: Seq<char>) -> Seq<char> {
    p.skip(spec_rfind(p, '/') + 1)
}

/// The path names a markdown document: its file-name component has an
/// extension, separated by a `.` that is not the component's first
/// character, and that extension is `md`.
pub open spec fn spec_is_markdown_path(p: Seq<char>) -> bool {
    let name = spec_file_name(p);
    let d = spec_rfind(name, '.');
    d > 0 && name.skip(d + 1) == "md"@
}

/// `spec_rfind` stays within the sequence and below its length.
proof fn lemma_rfind_bounds(s: Seq<char>, c: char)
    ensures
        -1 <= spec_rfind(s, c) < s.len(),
    decreases s.len(),
{
    if s.len() > 0 && s.last() != c {
        lemma_rfind_bounds(s.drop_last(), c);
    }
}

/// Decide whether a path names a markdown document.
pub fn is_markdown_path(path: &str) -> (r: bool)
    ensures
        r == spec_is_markdown_path(path@),
{
    let len = path.unicode_len();
    proof {
        lemma_rfind_bounds(path@, '/');
    }
    let name_start = match rfind_char(path, '/') {
        Some(i) => i + 1,
        None => 0,
    };
    let name = path.substring_char(name_start, len);
    proof {
        assert(name@ =~= spec_file_name(path@));
    }
    let nlen = name.unicode_len();
    match rfind_char(name, '.') {
        Some(d) => {
            proof {
                lemma_rfind_bounds(name@, '.');
                reveal_strlit("md");
            }
            if d > 0 && nlen - d == 3 {
                let c1 = name.get_char(d + 1);
                let c2 = name.get_char(d + 2);
                let r = c1 == 'm' && c2 == 'd';
                proof {
                    let ext = name@.skip(d + 1);
                    assert(ext.len() == 2);
                    assert(ext[0] == name@[d as int + 1]);
                    assert(ext[1] == name@[d as int + 2]);
                    if r {
                        assert(ext =~= "md"@);
                    } else {
                        assert(ext != "md"@);
                    }
                }
                r
            } else {
                proof {
                    if d > 0 {
                        assert(name@.skip(d + 1).len() != 2);
                    }
                }
                false
            }
        },
        None => {
            false
        },
    }
}

/// Strict lexicographic order on character sequences, by code point.
pub open spec fn spec_str_lt(a: Seq<char>, b: Seq<char>) -> bool
    decreases a.len(),
{
    if b.len() == 0 {
        false
    } else if a.len() == 0 {
        true
    } else if (a[0] as int) < (b[0] as int) {
        true
    } else if (b[0] as int) < (a[0] as int) {
        false
    } else {
        spec_str_lt(a.drop_first(), b.drop_first())
    }
}

/// Lexicographic order, allowing equality.
pub open spec fn spec_str_le(a: Seq<char>, b: Seq<char>) -> bool {
    spec_str_lt(a, b) || a == b
}

/// The sequences stand in ascending lexicographic order.
pub open spec fn spec_sorted(s: Seq<Seq<char>>) -> bool {
    forall|i: int, j: int| 0 <= i < j < s.len() ==> spec_str_le(s[i], s[j])
}

/// Lexicographic order is total: two sequences compare one way or the other,
/// or are equal.
pub proof fn lemma_str_lt_connected(a: Seq<char>, b: Seq<char>)
    ensures
        spec_str_lt(a, b) || spec_str_lt(b, a) || a == b,
    decreases a.len(),
{
    if a.len() == 0 && b.len() == 0 {
        assert(a =~= b);
    } else if a.len() > 0 && b.len() > 0 {
        if a[0] as int == b[0] as int {
            lemma_str_lt_connected(a.drop_first(), b.drop_first());
            if a.drop_first() == b.drop_first() {
                assert(a.drop_first().len() == b.drop_first().len());
                assert(a.len() == b.len());
                assert forall|i: int| 0 <= i < a.len() implies a[i] == b[i] by {
                    if i > 0 {
                        assert(a[i] == a.drop_first()[i - 1]);
                        assert(b[i] == b.drop_first()[i - 1]);
                    }
                }
                assert(a =~= b);
            }
        }
    }
}

/// Strict lexicographic order is transitive.
pub proof fn lemma_str_lt_transitive(a: Seq<char>, b: Seq<char>, c: Seq<char>)
    requires
        spec_str_lt(a, b),
        spec_str_lt(b, c),
    ensures
        spec_str_lt(a, c),
    decreases b.len(),
{
    if a.len() > 0 && b.len() > 0 && c.len() > 0 {
        if a[0] as int == b[0] as int && b[0] as int == c[0] as int {
            lemma_str_lt_transitive(a.drop_first(), b.drop_first(), c.drop_first());
        }
    }
}

/// Compare two strings in lexicographic order.
pub fn str_lt(a: &str, b: &str) -> (r: bool)
    ensures
        r == spec_str_lt(a@, b@),
{
    let alen = a.unicode_len();
    let blen = b.unicode_len();
    let mut i: usize = 0;
    proof {
        assert(a@.skip(0) =~= a@);
        assert(b@.skip(0) =~= b@);
    }
    while i < alen && i < blen
        invariant
            i <= alen,
            i <= blen,
            alen == a@.len(),
            blen == b@.len(),
            spec_str_lt(a@, b@) == spec_str_lt(a@.skip(i as int), b@.skip(i as int)),
        decreases alen - i,
    {
        let ca = a.get_char(i);
        let cb = b.get_char(i);
        proof {
            assert(a@.skip(i as int)[0] == a@[i as int]);
            assert(b@.skip(i as int)[0] == b@[i as int]);
        }
        if (ca as u32) < (cb as u32) {
            return true;
        }
        if (cb as u32) < (ca as u32) {
            return false;
        }
        proof {
            assert(a@.skip(i as int).drop_first() =~= a@.skip(i as int + 1));
            assert(b@.skip(i as int).drop_first() =~= b@.skip(i as int + 1));
        }
        i += 1;
    }
    proof {
        assert(a@.skip(i as int).len() == alen - i);
        assert(b@.skip(i as int).len() == blen - i);
    }
    i < blen
}

/// The position at which `x` belongs in the sorted vector `v`: the first
/// index whose element is strictly greater than `x`.
fn find_insert_pos(v: &Vec<String>, x: &str) -> (idx: usize)
    ensures
        idx <= v@.len(),
        forall|t: int| 0 <= t < idx ==> !spec_str_lt(x@, v.deep_view()[t]),
        idx < v@.len() ==> spec_str_lt(x@, v.deep_view()[idx as int]),
{
    let n = v.len();
    let mut i: usize = 0;
    while i < n
        invariant
            i <= n,
            n == v@.len(),
            forall|t: int| 0 <= t < i ==> !spec_str_lt(x@, v.deep_view()[t]),
        decreases n - i,
    {
        if str_lt(x, v[i].as_str()) {
            return i;
        }
        i += 1;
    }
    i
}

/// Insert `x` into the sorted vector `v`, keeping it sorted; the contents
/// grow by exactly `x`.
fn insert_sorted(v: &mut Vec<String>, x: String)
    requires
        spec_sorted(old(v).deep_view()),
    ensures
        spec_sorted(final(v).deep_view()),
        final(v).deep_view().to_multiset() == old(v).deep_view().to_multiset().insert(x@),
        final(v).deep_view().len() == old(v).deep_view().len() + 1,
{
    let ghost oldv = v.deep_view();
    let idx = find_insert_pos(v, x.as_str());
    v.insert(idx, x);
    proof {
        assert(v.deep_view() =~= oldv.insert(idx as int, x@));
        broadcast use vstd::seq_lib::to_multiset_insert;

        assert forall|i: int, j: int| 0 <= i < j < v.deep_view().len() implies spec_str_le(
            v.deep_view()[i],
            v.deep_view()[j],
        ) by {
            let dv = v.deep_view();
            assert(dv.len() == oldv.len() + 1);
            if i < idx {
                assert(dv[i] == oldv[i]);
            }
            if j > idx {
                assert(dv[j] == oldv[j - 1]);
            }
            if i < idx && j == idx {
                lemma_str_lt_connected(x@, oldv[i]);
            } else if i == idx && j > idx {
                assert(spec_str_lt(x@, oldv[idx as int]));
                if j - 1 > idx {
                    assert(spec_str_le(oldv[idx as int], oldv[j - 1]));
                    if oldv[idx as int] != oldv[j - 1] {
                        lemma_str_lt_transitive(x@, oldv[idx as int], oldv[j - 1]);
                    }
                }
            }
        }
    }
}

/// The markdown documents among `paths`, kept in input order.
pub open spec fn spec_md_filter(paths: Seq<Seq<char>>) -> Seq<Seq<char>>
    decreases paths.len(),
{
    if paths.len() == 0 {
        Seq::empty()
    } else if spec_is_markdown_path(paths.last()) {
        spec_md_filter(paths.drop_last()).push(paths.last())
    } else {
        spec_md_filter(paths.drop_last())
    }
}

/// From a walk's candidate paths, keep those that name markdown documents
/// and return them sorted lexicographically, so that row order is
/// deterministic across runs on the same filesystem state.
pub fn find_markdown_files(paths: &Vec<String>) -> (r: Vec<String>)
    ensures
        spec_sorted(r.deep_view()),
        r.deep_view().to_multiset() == spec_md_filter(paths.deep_view()).to_multiset(),
{
    let n = paths.len();
    let mut result: Vec<String> = Vec::new();
    let mut i: usize = 0;
    proof {
        assert(paths.deep_view().take(0) =~= Seq::<Seq<char>>::empty());
        assert(result.deep_view() =~= Seq::<Seq<char>>::empty());
    }
    while i < n
        invariant
            i <= n,
            n == paths@.len(),
            spec_sorted(result.deep_view()),
            result.deep_view().to_multiset() == spec_md_filter(
                paths.deep_view().take(i as int),
            ).to_multiset(),
        decreases n - i,
    {
        let ghost prefix = paths.deep_view().take(i as int);
        let ghost next = paths.deep_view().take(i as int + 1);
        proof {
            assert(next.drop_last() =~= prefix);
            assert(next.last() == paths.deep_view()[i as int]);
            broadcast use vstd::seq_lib::to_multiset_build;

        }
        if is_markdown_path(paths[i].as_str()) {
            let s = paths[i].clone();
            insert_sorted(&mut result, s);
        }
        i += 1;
    }
    proof {
        assert(paths.deep_view().take(n as int) =~= paths.deep_view());
    }
    result
}

} // verus!
