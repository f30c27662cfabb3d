//! Unix path operations on strings, as `std::path::Path` defines them:
//! `join`, `file_name`, `file_stem` and `extension`.
use vstd::prelude::*;
use crate::text::{to_chars, string_of, string_of_range, chars_eq, push_chars};

verus! {

/// Index of the last occurrence of `c` in `s`, or -1.
pub open spec fn rfind_char(s: Seq<char>, c: char) -> int
    decreases s.len(),
{
    if s.len() == 0 {
        -1
    } else if s.last() == c {
        s.len() - 1
    } else {
        rfind_char(s.drop_last(), c)
    }
}

/// `rfind_char` lies in `-1 .. s.len()` and points at `c` when found.
pub proof fn lemma_rfind_char(s: Seq<char>, c: char)
    ensures
        -1 <= rfind_char(s, c) < s.len(),
        rfind_char(s, c) >= 0 ==> s[rfind_char(s, c)] == c,
        forall|k: int| rfind_char(s, c) < k < s.len() ==> s[k] != c,
    decreases s.len(),
{
    if s.len() > 0 && s.last() != c {
        lemma_rfind_char(s.drop_last(), c);
        assert forall|k: int| rfind_char(s, c) < k < s.len() implies s[k] != c by {
            if k < s.len() - 1 {
                assert(s.drop_last()[k] == s[k]);
            }
        }
    }
}

/// One past the last index of `c` in `v[..len]`, or 0 when `c` does
/// not occur there.
pub fn rfind_char_end(v: &Vec<char>, len: usize, c: char) -> (r: usize)
    requires
        len <= v@.len(),
    ensures
        r <= len,
        r == rfind_char(v@.take(len as int), c) + 1,
{
    let mut j = len;
    while j > 0
        invariant
            j <= len <= v@.len(),
            rfind_char(v@.take(len as int), c) == rfind_char(v@.take(j as int), c),
        decreases j,
    {
        assert(v@.take(j as int).drop_last() =~= v@.take(j - 1));
        assert(v@.take(j as int).last() == v@[j - 1]);
        if v[j - 1] == c {
            return j;
        }
        j = j - 1;
    }
    0
}

/// `Path::file_name`: the last normal component, ignoring trailing
/// separators and `.` components; none for an empty path, the root, or
/// a path ending in `..`.
pub open spec fn file_name(p: Seq<char>) -> Option<Seq<char>>
    decreases p.len(),
{
    if p.len() == 0 {
        None
    } else {
        let k = rfind_char(p, '/');
        let seg = p.skip(k + 1);
        if seg.len() == 0 || seg == seq!['.'] {
            if k < 0 || k >= p.len() {
                None
            } else {
                file_name(p.take(k))
            }
        } else if seg == seq!['.', '.'] {
            None
        } else {
            Some(seg)
        }
    }
}

/// Index of the dot that separates stem and extension in a file name,
/// or a value `<= 0` when the name has none (no dot, or only a leading
/// one).
pub open spec fn ext_dot(name: Seq<char>) -> int {
    rfind_char(name, '.')
}

/// `Path::file_stem` applied to a file name.
pub open spec fn stem_of_name(name: Seq<char>) -> Seq<char> {
    if ext_dot(name) <= 0 {
        name
    } else {
        name.take(ext_dot(name))
    }
}

/// `Path::extension` applied to a file name.
pub open spec fn ext_of_name(name: Seq<char>) -> Option<Seq<char>> {
    if ext_dot(name) <= 0 {
        None
    } else {
        Some(name.skip(ext_dot(name) + 1))
    }
}

/// `Path::file_stem`.
pub open spec fn file_stem(p: Seq<char>) -> Option<Seq<char>> {
    match file_name(p) {
        Some(n) => Some(stem_of_name(n)),
        None => None,
    }
}

/// `Path::file_stem` with a fallback, as in
/// `file_stem().and_then(to_str).unwrap_or(default)`.
pub open spec fn stem_or(p: Seq<char>, default: Seq<char>) -> Seq<char> {
    match file_stem(p) {
        Some(s) => s,
        None => default,
    }
}

/// `Path::join` on Unix: an absolute `t` replaces `root`; otherwise a
/// separator is inserted unless `root` is empty or already ends in one.
pub open spec fn join(root: Seq<char>, t: Seq<char>) -> Seq<char> {
    if t.len() > 0 && t[0] == '/' {
        t
    } else if root.len() == 0 || root.last() == '/' {
        root + t
    } else {
        root + seq!['/'] + t
    }
}

/// The bounds `(lo, hi)` of the file name of `v[..len]` inside `v`.
fn file_name_bounds(v: &Vec<char>, len: usize) -> (r: Option<(usize, usize)>)
    requires
        len <= v@.len(),
    ensures
        match r {
            Some((lo, hi)) => lo <= hi <= len && file_name(v@.take(len as int)) == Some(
                v@.subrange(lo as int, hi as int),
            ),
            None => file_name(v@.take(len as int)) is None,
        },
    decreases len,
{
    if len == 0 {
        return None;
    }
    let ghost p = v@.take(len as int);
    let start = rfind_char_end(v, len, '/');
    let ghost k = start - 1;
    proof {
        lemma_rfind_char(p, '/');
    }
    assert(p.skip(k + 1) =~= v@.subrange(start as int, len as int));
    let seg_len = len - start;
    if seg_len == 0 || (seg_len == 1 && v[start] == '.') {
        proof {
            if seg_len == 1 {
                assert(p.skip(k + 1) =~= seq!['.']);
            }
        }
        if start == 0 {
            return None;
        }
        assert(p.take(k) =~= v@.take(k));
        return file_name_bounds(v, start - 1);
    }
    if seg_len == 2 && v[start] == '.' && v[start + 1] == '.' {
        assert(p.skip(k + 1) =~= seq!['.', '.']);
        return None;
    }
    proof {
        if seg_len == 1 {
            assert(p.skip(k + 1)[0] == v@[start as int]);
        }
        if seg_len == 2 {
            assert(p.skip(k + 1)[0] == v@[start as int]);
            assert(p.skip(k + 1)[1] == v@[start + 1]);
        }
    }
    Some((start, len))
}

/// `Path::file_name` of a path string.
pub fn file_name_exec(p: &str) -> (r: Option<String>)
    ensures
        match r {
            Some(s) => file_name(p@) == Some(s@),
            None => file_name(p@) is None,
        },
{
    let v = to_chars(p);
    assert(v@.take(v@.len() as int) =~= v@);
    match file_name_bounds(&v, v.len()) {
        Some((lo, hi)) => Some(string_of_range(&v, lo, hi)),
        None => None,
    }
}

/// The stem of a file name held in `v[lo..hi]`, as bounds inside `v`.
fn stem_bounds(v: &Vec<char>, lo: usize, hi: usize) -> (r: usize)
    requires
        lo <= hi <= v@.len(),
    ensures
        lo <= r <= hi,
        v@.subrange(lo as int, r as int) == stem_of_name(v@.subrange(lo as int, hi as int)),
{
    let ghost name = v@.subrange(lo as int, hi as int);
    let mut j = hi;
    while j > lo
        invariant
            lo <= j <= hi <= v@.len(),
            rfind_char(name, '.') == rfind_char(v@.subrange(lo as int, j as int), '.'),
        ensures
            lo <= j <= hi,
            rfind_char(name, '.') == rfind_char(v@.subrange(lo as int, j as int), '.'),
            j > lo ==> v@[j - 1] == '.',
        decreases j,
    {
        assert(v@.subrange(lo as int, j as int).drop_last() =~= v@.subrange(lo as int, j - 1));
        assert(v@.subrange(lo as int, j as int).last() == v@[j - 1]);
        if v[j - 1] == '.' {
            break;
        }
        j = j - 1;
    }
    proof {
        lemma_rfind_char(name, '.');
    }
    if j > lo {
        assert(v@.subrange(lo as int, j as int).last() == v@[j - 1]);
    }
    if j - lo > 1 {
        assert(rfind_char(name, '.') == j - 1 - lo);
        assert(name.take(j - 1 - lo) =~= v@.subrange(lo as int, j - 1));
        j - 1
    } else {
        hi
    }
}

/// `Path::file_stem` of a path string.
pub fn file_stem_exec(p: &str) -> (r: Option<String>)
    ensures
        match r {
            Some(s) => file_stem(p@) == Some(s@),
            None => file_stem(p@) is None,
        },
{
    let v = to_chars(p);
    assert(v@.take(v@.len() as int) =~= v@);
    match file_name_bounds(&v, v.len()) {
        Some((lo, hi)) => {
            let e = stem_bounds(&v, lo, hi);
            Some(string_of_range(&v, lo, e))
        },
        None => None,
    }
}

/// The file stem of `p`, or `default` when it has none.
pub fn stem_or_exec(p: &str, default: &str) -> (r: String)
    ensures
        r@ == stem_or(p@, default@),
{
    match file_stem_exec(p) {
        Some(s) => s,
        None => {
            let d = to_chars(default);
            string_of(&d)
        },
    }
}

/// Whether the file name `name` has the extension `ext`.
pub fn has_extension(name: &str, ext: &str) -> (r: bool)
    ensures
        r == (ext_of_name(name@) == Some(ext@)),
{
    let v = to_chars(name);
    let e = to_chars(ext);
    let end = rfind_char_end(&v, v.len(), '.');
    assert(v@.take(v@.len() as int) =~= v@);
    if end <= 1 {
        return false;
    }
    let mut tail: Vec<char> = Vec::new();
    let mut i = end;
    while i < v.len()
        invariant
            end <= i <= v@.len(),
            tail@ == v@.subrange(end as int, i as int),
        decreases v.len() - i,
    {
        tail.push(v[i]);
        assert(v@.subrange(end as int, i + 1) =~= v@.subrange(end as int, i as int).push(v@[i as int]));
        i = i + 1;
    }
    assert(v@.skip(end as int) =~= tail@);
    chars_eq(&tail, &e)
}

/// `Path::join` of two path strings.
pub fn join_exec(root: &str, t: &str) -> (r: String)
    ensures
        r@ == join(root@, t@),
{
    let vr = to_chars(root);
    let vt = to_chars(t);
    if vt.len() > 0 && vt[0] == '/' {
        return string_of(&vt);
    }
    let mut out: Vec<char> = Vec::new();
    push_chars(&mut out, &vr);
    if !(vr.len() == 0 || vr[vr.len() - 1] == '/') {
        out.push('/');
    }
    push_chars(&mut out, &vt);
    proof {
        if !(vr@.len() == 0 || vr@.last() == '/') {
            assert(vr@.push('/') =~= vr@ + seq!['/']);
        } else {
            assert(Seq::<char>::empty() + vr@ =~= vr@);
        }
    }
    string_of(&out)
}

/// A file name as a directory listing gives it: not empty, without `/`.
pub open spec fn valid_name(n: Seq<char>) -> bool {
    n.len() > 0 && forall|i: int| 0 <= i < n.len() ==> #[trigger] n[i] != '/'
}

/// The path reached from `d` through the names `comps`, one `join` each.
pub open spec fn path_below(d: Seq<char>, comps: Seq<Seq<char>>) -> Seq<char>
    decreases comps.len(),
{
    if comps.len() == 0 {
        d
    } else {
        path_below(join(d, comps[0]), comps.drop_first())
    }
}

/// What `join` puts before a relative name: the directory, with a
/// separator added unless it is empty or already ends in one.
pub open spec fn dir_prefix(d: Seq<char>) -> Seq<char> {
    if d.len() == 0 || d.last() == '/' {
        d
    } else {
        d + seq!['/']
    }
}

/// Joining a valid name appends it to the directory's prefix; the result
/// is not empty and does not end in a separator.
pub proof fn lemma_join_name(d: Seq<char>, n: Seq<char>)
    requires
        valid_name(n),
    ensures
        join(d, n) == dir_prefix(d) + n,
        join(d, n).len() > 0,
        join(d, n).last() != '/',
{
    assert(n[0] != '/');
    assert(n[n.len() - 1] != '/');
    assert((dir_prefix(d) + n).last() == n[n.len() - 1]);
}

/// A path reached from `a` through valid names is `a` followed by
/// nothing or by a separator and more.
pub proof fn lemma_path_below_extends(a: Seq<char>, comps: Seq<Seq<char>>)
    requires
        a.len() > 0,
        a.last() != '/',
        forall|i: int| 0 <= i < comps.len() ==> valid_name(#[trigger] comps[i]),
    ensures
        path_below(a, comps).len() >= a.len(),
        path_below(a, comps).subrange(0, a.len() as int) == a,
        path_below(a, comps).len() > a.len() ==> path_below(a, comps)[a.len() as int] == '/',
    decreases comps.len(),
{
    if comps.len() > 0 {
        let c = comps[0];
        assert(valid_name(c));
        lemma_join_name(a, c);
        let a2 = join(a, c);
        assert(a2 == a + seq!['/'] + c);
        assert forall|i: int| 0 <= i < comps.drop_first().len() implies valid_name(#[trigger] comps.drop_first()[i]) by {
            assert(comps.drop_first()[i] == comps[i + 1]);
        }
        lemma_path_below_extends(a2, comps.drop_first());
        let r = path_below(a, comps);
        assert(r == path_below(a2, comps.drop_first()));
        assert(r.subrange(0, a2.len() as int) == a2);
        assert(r.subrange(0, a.len() as int) =~= r.subrange(0, a2.len() as int).subrange(0, a.len() as int));
        assert(a2.subrange(0, a.len() as int) =~= a);
        assert(r[a.len() as int] == r.subrange(0, a2.len() as int)[a.len() as int]);
    }
}

/// Two paths reached from the same directory through valid names that
/// start differently are different paths.
pub proof fn lemma_paths_below_differ(d: Seq<char>, c1: Seq<Seq<char>>, c2: Seq<Seq<char>>)
    requires
        c1.len() > 0,
        c2.len() > 0,
        forall|i: int| 0 <= i < c1.len() ==> valid_name(#[trigger] c1[i]),
        forall|i: int| 0 <= i < c2.len() ==> valid_name(#[trigger] c2[i]),
        c1[0] != c2[0],
    ensures
        path_below(d, c1) != path_below(d, c2),
{
    let n1 = c1[0];
    let n2 = c2[0];
    assert(valid_name(n1));
    assert(valid_name(n2));
    lemma_join_name(d, n1);
    lemma_join_name(d, n2);
    let a1 = join(d, n1);
    let a2 = join(d, n2);
    assert forall|i: int| 0 <= i < c1.drop_first().len() implies valid_name(#[trigger] c1.drop_first()[i]) by {
        assert(c1.drop_first()[i] == c1[i + 1]);
    }
    assert forall|i: int| 0 <= i < c2.drop_first().len() implies valid_name(#[trigger] c2.drop_first()[i]) by {
        assert(c2.drop_first()[i] == c2[i + 1]);
    }
    lemma_path_below_extends(a1, c1.drop_first());
    lemma_path_below_extends(a2, c2.drop_first());
    let x = path_below(d, c1);
    let y = path_below(d, c2);
    assert(x == path_below(a1, c1.drop_first()));
    assert(y == path_below(a2, c2.drop_first()));
    let b = dir_prefix(d).len() as int;
    let l1 = n1.len() as int;
    let l2 = n2.len() as int;
    if x == y {
        assert(x.subrange(0, b + l1) == a1);
        assert(y.subrange(0, b + l2) == a2);
        if l1 < l2 {
            assert(a2[b + l1] == n2[l1]);
            assert(y[b + l1] == y.subrange(0, b + l2)[b + l1]);
            if x.len() > a1.len() {
                assert(x[b + l1] == '/');
            }
        } else if l2 < l1 {
            assert(a1[b + l2] == n1[l2]);
            assert(x[b + l2] == x.subrange(0, b + l1)[b + l2]);
            if y.len() > a2.len() {
                assert(y[b + l2] == '/');
            }
        } else {
            assert(n1 =~= a1.subrange(b, b + l1));
            assert(n2 =~= a2.subrange(b, b + l2));
        }
    }
}

} // verus!
