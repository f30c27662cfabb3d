//! Wikilinks: extracting `[[target]]` / `[[target|label]]` links from
//! note text, and resolving a target to a file of the vault.
use vstd::prelude::*;
use crate::text::{to_chars, string_of, string_of_range, trim, trim_range, find, find_from_exec, push_chars,
    is_ws, lemma_trim, lead_ws, trail_ws, contains, occurs_at, lemma_find_from};
use crate::paths::{file_name, file_name_exec, join, join_exec};
use crate::vault::notes::{Entry, name_str};

verus! {

/// End of the run of characters from `i` that are neither `]` nor, when
/// `stop_at_pipe`, `|` (the index of the stopping character, or the end).
pub open spec fn run_end(s: Seq<char>, i: int, stop_at_pipe: bool) -> int
    decreases s.len() - i,
{
    if i < 0 || i >= s.len() {
        i
    } else if s[i] == ']' || (stop_at_pipe && s[i] == '|') {
        i
    } else {
        run_end(s, i + 1, stop_at_pipe)
    }
}

/// The link that starts at index `i`, as `(target_start, target_end,
/// link_end)`: `[[`, a non-empty target without `]` or `|`, optionally
/// `|` and a non-empty label without `]`, then `]]`.  This is the
/// leftmost-first match of `\[\[([^\]\|]+)(?:\|[^\]]+)?\]\]` at `i`.
pub open spec fn link_match_at(s: Seq<char>, i: int) -> Option<(int, int, int)> {
    if 0 <= i && i + 1 < s.len() && s[i] == '[' && s[i + 1] == '[' {
        let e1 = run_end(s, i + 2, true);
        if e1 == i + 2 {
            None
        } else if e1 < s.len() && s[e1] == '|' {
            let e2 = run_end(s, e1 + 1, false);
            if e2 > e1 + 1 && e2 + 1 < s.len() && s[e2] == ']' && s[e2 + 1] == ']' {
                Some((i + 2, e1, e2 + 2))
            } else {
                None
            }
        } else if e1 + 1 < s.len() && s[e1] == ']' && s[e1 + 1] == ']' {
            Some((i + 2, e1, e1 + 2))
        } else {
            None
        }
    } else {
        None
    }
}

/// The trimmed targets of the links found scanning from index `i`, left
/// to right, resuming after the end of each link.
pub open spec fn links_from(s: Seq<char>, i: int) -> Seq<Seq<char>>
    decreases s.len() - i,
{
    if i < 0 || i >= s.len() {
        Seq::empty()
    } else {
        match link_match_at(s, i) {
            // A link always ends after it starts.
            Some((a, b, e)) => if e > i {
                seq![trim(s.subrange(a, b))] + links_from(s, e)
            } else {
                Seq::empty()
            },
            None => links_from(s, i + 1),
        }
    }
}

/// The trimmed wikilink targets of a text, in order of appearance.
pub open spec fn wikilinks(s: Seq<char>) -> Seq<Seq<char>> {
    links_from(s, 0)
}

proof fn lemma_run_end(s: Seq<char>, i: int, p: bool)
    requires
        0 <= i,
    ensures
        i <= run_end(s, i, p),
        i <= s.len() ==> run_end(s, i, p) <= s.len(),
    decreases s.len() - i,
{
    if i < s.len() && !(s[i] == ']' || (p && s[i] == '|')) {
        lemma_run_end(s, i + 1, p);
    }
}

/// No character of a run is a stopping character.
proof fn lemma_run_chars(s: Seq<char>, i: int, p: bool)
    requires
        0 <= i,
    ensures
        forall|k: int| i <= k < run_end(s, i, p) ==> #[trigger] s[k] != ']' && (p ==> s[k] != '|'),
    decreases s.len() - i,
{
    if i < s.len() && !(s[i] == ']' || (p && s[i] == '|')) {
        lemma_run_chars(s, i + 1, p);
    }
}

/// A wikilink target as the scanner yields it: no `]` or `|` in it, and
/// no white space at either end.
pub open spec fn clean_target(t: Seq<char>) -> bool {
    &&& forall|m: int| 0 <= m < t.len() ==> #[trigger] t[m] != ']' && t[m] != '|'
    &&& t.len() > 0 ==> !is_ws(t[0]) && !is_ws(t.last())
}

proof fn lemma_links_from_clean(s: Seq<char>, i: int)
    requires
        0 <= i,
    ensures
        forall|j: int| 0 <= j < links_from(s, i).len() ==> clean_target(#[trigger] links_from(s, i)[j]),
    decreases s.len() - i,
{
    if i < s.len() {
        match link_match_at(s, i) {
            Some((a, b, e)) => {
                if e > i {
                    lemma_links_from_clean(s, e);
                    lemma_run_end(s, i + 2, true);
                    lemma_run_chars(s, i + 2, true);
                    let x = s.subrange(a, b);
                    let t = trim(x);
                    lemma_trim(x);
                    assert forall|m: int| 0 <= m < t.len() implies #[trigger] t[m] != ']' && t[m] != '|' by {
                        assert(t[m] == x[lead_ws(x) + m]);
                        assert(x[lead_ws(x) + m] == s[a + lead_ws(x) + m]);
                    }
                    assert(clean_target(t));
                    let all = links_from(s, i);
                    let rest = links_from(s, e);
                    assert(all == seq![t] + rest);
                    assert forall|j: int| 0 <= j < all.len() implies clean_target(#[trigger] all[j]) by {
                        if j > 0 {
                            assert(all[j] == rest[j - 1]);
                        }
                    }
                } else {
                    assert(links_from(s, i).len() == 0);
                }
            },
            None => {
                lemma_links_from_clean(s, i + 1);
                assert(links_from(s, i) == links_from(s, i + 1));
            },
        }
    }
}

/// Every wikilink target found contains neither `]` nor `|` and has no
/// white space at either end.
pub proof fn lemma_wikilink_targets_clean(s: Seq<char>)
    ensures
        forall|j: int| 0 <= j < wikilinks(s).len() ==> clean_target(#[trigger] wikilinks(s)[j]),
{
    lemma_links_from_clean(s, 0);
}

/// A run from `i` ends at the first stopping character `k`.
proof fn lemma_run_end_at(s: Seq<char>, i: int, k: int, p: bool)
    requires
        0 <= i <= k < s.len(),
        forall|m: int| i <= m < k ==> #[trigger] s[m] != ']' && (p ==> s[m] != '|'),
        s[k] == ']' || (p && s[k] == '|'),
    ensures
        run_end(s, i, p) == k,
    decreases k - i,
{
    if i < k {
        lemma_run_end_at(s, i + 1, k, p);
    }
}

/// `[[t]]` holds one link, to `t` trimmed, when `t` is not empty and
/// holds neither `]` nor `|`.
pub proof fn lemma_single_link(t: Seq<char>)
    requires
        t.len() > 0,
        forall|m: int| 0 <= m < t.len() ==> #[trigger] t[m] != ']' && t[m] != '|',
    ensures
        wikilinks("[["@ + t + "]]"@) == seq![trim(t)],
{
    reveal_strlit("[[");
    reveal_strlit("]]");
    let s = "[["@ + t + "]]"@;
    let l = t.len() as int;
    assert forall|m: int| 0 <= m < l implies #[trigger] s[2 + m] == t[m] by {}
    assert(s[2 + l] == ']' && s[3 + l] == ']');
    assert forall|m: int| 2 <= m < 2 + l implies #[trigger] s[m] != ']' && s[m] != '|' by {
        assert(s[2 + (m - 2)] == t[m - 2]);
    }
    lemma_run_end_at(s, 2, 2 + l, true);
    assert(link_match_at(s, 0) == Some((2int, 2 + l, 4 + l)));
    assert(s.subrange(2, 2 + l) =~= t);
    assert(links_from(s, 4 + l).len() == 0);
    assert(links_from(s, 0) =~= seq![trim(t)] + links_from(s, 4 + l));
}

/// `[[t|d]]` holds one link, to `t` trimmed: the label `d` is dropped.
pub proof fn lemma_labelled_link(t: Seq<char>, d: Seq<char>)
    requires
        t.len() > 0,
        forall|m: int| 0 <= m < t.len() ==> #[trigger] t[m] != ']' && t[m] != '|',
        d.len() > 0,
        forall|m: int| 0 <= m < d.len() ==> #[trigger] d[m] != ']',
    ensures
        wikilinks("[["@ + t + "|"@ + d + "]]"@) == seq![trim(t)],
{
    reveal_strlit("[[");
    reveal_strlit("]]");
    reveal_strlit("|");
    let s = "[["@ + t + "|"@ + d + "]]"@;
    let l = t.len() as int;
    let n = d.len() as int;
    assert forall|m: int| 0 <= m < l implies #[trigger] s[2 + m] == t[m] by {}
    assert forall|m: int| 0 <= m < n implies #[trigger] s[3 + l + m] == d[m] by {}
    assert(s[2 + l] == '|');
    assert(s[3 + l + n] == ']' && s[4 + l + n] == ']');
    assert forall|m: int| 2 <= m < 2 + l implies #[trigger] s[m] != ']' && s[m] != '|' by {
        assert(s[2 + (m - 2)] == t[m - 2]);
    }
    assert forall|m: int| 3 + l <= m < 3 + l + n implies #[trigger] s[m] != ']' && (false ==> s[m] != '|') by {
        assert(s[3 + l + (m - 3 - l)] == d[m - 3 - l]);
    }
    lemma_run_end_at(s, 2, 2 + l, true);
    lemma_run_end_at(s, 3 + l, 3 + l + n, false);
    assert(link_match_at(s, 0) == Some((2int, 2 + l, 5 + l + n)));
    assert(s.subrange(2, 2 + l) =~= t);
    assert(links_from(s, 5 + l + n).len() == 0);
    assert(links_from(s, 0) =~= seq![trim(t)] + links_from(s, 5 + l + n));
}

proof fn lemma_links_from_none(c: Seq<char>, i: int)
    requires
        0 <= i,
        forall|j: int| 0 <= j ==> !occurs_at(c, j, "[["@),
    ensures
        links_from(c, i).len() == 0,
    decreases c.len() - i,
{
    reveal_strlit("[[");
    if i < c.len() {
        if i + 1 < c.len() && c[i] == '[' && c[i + 1] == '[' {
            assert(c.subrange(i, i + 2) =~= "[["@);
            assert(occurs_at(c, i, "[["@));
        }
        assert(link_match_at(c, i) is None);
        lemma_links_from_none(c, i + 1);
    }
}

/// A text without `[[` holds no link.
pub proof fn lemma_no_link(c: Seq<char>)
    requires
        !contains(c, "[["@),
    ensures
        wikilinks(c).len() == 0,
{
    lemma_find_from(c, "[["@, 0);
    lemma_links_from_none(c, 0);
}

/// `run_end` on a vector.
fn run_end_exec(s: &Vec<char>, i: usize, stop_at_pipe: bool) -> (r: usize)
    requires
        i <= s@.len(),
    ensures
        r == run_end(s@, i as int, stop_at_pipe),
        i <= r <= s@.len(),
{
    let mut k = i;
    while k < s.len() && !(s[k] == ']' || (stop_at_pipe && s[k] == '|'))
        invariant
            i <= k <= s@.len(),
            run_end(s@, i as int, stop_at_pipe) == run_end(s@, k as int, stop_at_pipe),
        decreases s@.len() - k,
    {
        k = k + 1;
    }
    k
}

/// The link starting at `i`, if any.
pub fn link_match_at_exec(s: &Vec<char>, i: usize) -> (r: Option<(usize, usize, usize)>)
    ensures
        match r {
            Some((a, b, e)) => link_match_at(s@, i as int) == Some((a as int, b as int, e as int)),
            None => link_match_at(s@, i as int) is None,
        },
{
    if !(i < s.len() && s.len() - i > 1 && s[i] == '[' && s[i + 1] == '[') {
        return None;
    }
    let e1 = run_end_exec(s, i + 2, true);
    if e1 == i + 2 {
        return None;
    }
    if e1 < s.len() && s[e1] == '|' {
        let e2 = run_end_exec(s, e1 + 1, false);
        if e2 > e1 + 1 && e2 < s.len() && s.len() - e2 > 1 && s[e2] == ']' && s[e2 + 1] == ']' {
            return Some((i + 2, e1, e2 + 2));
        }
        return None;
    }
    if e1 < s.len() && s.len() - e1 > 1 && s[e1] == ']' && s[e1 + 1] == ']' {
        return Some((i + 2, e1, e1 + 2));
    }
    None
}

/// Extracts all wikilink targets from markdown content: for each
/// `[[target]]` or `[[target|label]]`, the target with surrounding white
/// space removed, in order of appearance.
pub fn find_wikilinks(content: &str) -> (links: Vec<String>)
    ensures
        links@.map_values(|l: String| l@) == wikilinks(content@),
{
    let s = to_chars(content);
    let mut out: Vec<String> = Vec::new();
    let mut i: usize = 0;
    while i < s.len()
        invariant
            i <= s@.len(),
            s@ == content@,
            out@.map_values(|l: String| l@) + links_from(s@, i as int) == wikilinks(s@),
        decreases s@.len() - i,
    {
        let ghost prev = out@.map_values(|l: String| l@);
        match link_match_at_exec(&s, i) {
            Some((a, b, e)) => {
                proof {
                    lemma_run_end(s@, i + 2, true);
                }
                let (ta, tb) = trim_range(&s, a, b);
                let t = string_of_range(&s, ta, tb);
                out.push(t);
                assert(out@.map_values(|l: String| l@) =~= prev.push(t@));
                assert(prev + (seq![trim(s@.subrange(a as int, b as int))] + links_from(
                    s@,
                    e as int,
                )) =~= prev.push(t@) + links_from(s@, e as int));
                i = e;
            },
            None => {
                i = i + 1;
            },
        }
    }
    assert(links_from(s@, i as int) =~= Seq::<Seq<char>>::empty());
    assert(out@.map_values(|l: String| l@) + Seq::<Seq<char>>::empty() =~= out@.map_values(
        |l: String| l@,
    ));
    out
}

/// Whether the link search descends into a directory of this name:
/// hidden directories and `node_modules` are skipped.
pub open spec fn search_descends(name: Option<String>) -> bool {
    let n = name_str(name);
    !(n.len() > 0 && n[0] == '.') && n != "node_modules"@
}

/// The first file named `filename` found in one entry, depth first.
pub open spec fn entry_search(e: Entry, filename: Seq<char>) -> Option<String>
    decreases e, 1int,
{
    match e {
        Entry::File { path, name } => match name {
            Some(n) => if n@ == filename {
                Some(path)
            } else {
                None
            },
            None => None,
        },
        Entry::Dir { path, name, children } => if search_descends(name) {
            match children {
                Some(c) => search_in(c@, filename),
                None => None,
            }
        } else {
            None
        },
        _ => None,
    }
}

/// The first file named `filename` found in a listing, depth first in
/// listing order; entries that could not be read are passed over.
pub open spec fn search_in(entries: Seq<Entry>, filename: Seq<char>) -> Option<String>
    decreases entries, 0int,
{
    if entries.len() == 0 {
        None
    } else {
        proof {
            assert(decreases_to!(entries => entries[0]));
        }
        match entry_search(entries[0], filename) {
            Some(p) => Some(p),
            None => search_in(entries.drop_first(), filename),
        }
    }
}

/// The search from a directory: nothing when its listing failed.
pub open spec fn search_dir(dir: Entry, filename: Seq<char>) -> Option<String> {
    match dir {
        Entry::Dir { children: Some(c), .. } => search_in(c@, filename),
        _ => None,
    }
}

/// Whether the link search descends into a directory of this name.
pub fn search_descends_exec(name: &Option<String>) -> (r: bool)
    ensures
        r == search_descends(*name),
{
    let n: Vec<char> = match name {
        Some(s) => to_chars(s.as_str()),
        None => Vec::new(),
    };
    let nm = to_chars("node_modules");
    if n.len() > 0 && n[0] == '.' {
        return false;
    }
    !crate::text::chars_eq(&n, &nm)
}

fn search_entries(entries: &Vec<Entry>, filename: &String) -> (r: Option<String>)
    ensures
        r == search_in(entries@, filename@),
    decreases entries,
{
    let mut i: usize = 0;
    assert(entries@.skip(0) =~= entries@);
    while i < entries.len()
        invariant
            i <= entries@.len(),
            search_in(entries@, filename@) == search_in(entries@.skip(i as int), filename@),
        decreases entries@.len() - i,
    {
        let ghost rest = entries@.skip(i as int);
        assert(rest[0] == entries@[i as int]);
        assert(rest.drop_first() =~= entries@.skip(i + 1));
        let found: Option<String> = match &entries[i] {
            Entry::File { path, name } => match name {
                Some(n) => if *n == *filename {
                    Some(path.clone())
                } else {
                    None
                },
                None => None,
            },
            Entry::Dir { name, children, .. } => if search_descends_exec(name) {
                match children {
                    Some(c) => {
                        proof {
                            assert(decreases_to!(entries => entries@[i as int]));
                        }
                        search_entries(c, filename)
                    },
                    None => None,
                }
            } else {
                None
            },
            _ => None,
        };
        assert(found == entry_search(entries@[i as int], filename@));
        if found.is_some() {
            return found;
        }
        i = i + 1;
    }
    assert(entries@.skip(i as int) =~= Seq::<Entry>::empty());
    None
}

/// Searches the directory `dir` and its non-hidden subdirectories for a
/// file named `filename`, returning the path of the first one found.
pub fn search_for_file_path(dir: &Entry, filename: &str) -> (r: Option<String>)
    ensures
        r == search_dir(*dir, filename@),
{
    let f = string_of(&to_chars(filename));
    match dir {
        Entry::Dir { children: Some(c), .. } => search_entries(c, &f),
        _ => None,
    }
}

/// The target of a link without its heading anchor (`note#section`
/// becomes `note`), trimmed.
pub open spec fn link_target(t: Seq<char>) -> Seq<char> {
    trim(
        match find(t, seq!['#']) {
            Some(k) => t.take(k),
            None => t,
        },
    )
}

/// The places where a wikilink target may live: `<root>/<target>.md`,
/// `<root>/<target>`, and, for the search, the file name `<name>.md`
/// where `name` is the last component of the target.
pub struct LinkCandidates {
    pub direct: String,
    pub as_is: String,
    pub file_name: String,
}

/// The candidate paths of a target; none when the target (without its
/// anchor) is empty, a link to the note itself.
pub open spec fn candidates(root: Seq<char>, t: Seq<char>) -> Option<(Seq<char>, Seq<char>, Seq<char>)> {
    let target = link_target(t);
    if target.len() == 0 {
        None
    } else {
        let base = match file_name(target) {
            Some(n) => n,
            None => target,
        };
        Some((join(root, target + ".md"@), join(root, target), base + ".md"@))
    }
}

/// Whether the candidates hold the given views.
pub open spec fn candidates_are(c: LinkCandidates, v: (Seq<char>, Seq<char>, Seq<char>)) -> bool {
    c.direct@ == v.0 && c.as_is@ == v.1 && c.file_name@ == v.2
}

/// The link target without anchor, trimmed.
pub fn link_target_exec(target: &str) -> (r: String)
    ensures
        r@ == link_target(target@),
{
    let t = to_chars(target);
    let mut hash: Vec<char> = Vec::new();
    hash.push('#');
    assert(hash@ =~= seq!['#']);
    let end = match find_from_exec(&t, &hash, 0) {
        Some(k) => k,
        None => t.len(),
    };
    assert(t@.take(t@.len() as int) =~= t@);
    let (a, b) = trim_range(&t, 0, end);
    assert(t@.subrange(0, end as int) =~= t@.take(end as int));
    string_of_range(&t, a, b)
}

/// Computes where a wikilink target may be found under `vault_root`.
pub fn wikilink_candidates(vault_root: &str, target: &str) -> (r: Option<LinkCandidates>)
    ensures
        match r {
            Some(c) => candidates(vault_root@, target@) matches Some(v) && candidates_are(c, v),
            None => candidates(vault_root@, target@) is None,
        },
{
    let t = link_target_exec(target);
    if t.as_str().is_empty() {
        return None;
    }
    let tv = to_chars(t.as_str());
    let mut with_md: Vec<char> = Vec::new();
    push_chars(&mut with_md, &tv);
    crate::text::push_str(&mut with_md, ".md");
    let with_md_s = string_of(&with_md);
    let direct = join_exec(vault_root, with_md_s.as_str());
    let as_is = join_exec(vault_root, t.as_str());
    let base: String = match file_name_exec(t.as_str()) {
        Some(n) => n,
        None => string_of(&tv),
    };
    let mut fname: Vec<char> = Vec::new();
    push_chars(&mut fname, &to_chars(base.as_str()));
    crate::text::push_str(&mut fname, ".md");
    assert(with_md@ =~= t@ + ".md"@);
    assert(fname@ =~= base@ + ".md"@);
    Some(LinkCandidates { direct, as_is, file_name: string_of(&fname) })
}

/// Which candidate paths of a link exist on disk.
#[derive(Clone, Copy)]
pub struct LinkProbe {
    pub direct_exists: bool,
    pub as_is_exists: bool,
}

/// Where a link resolves: the first existing of `<root>/<target>.md`
/// and `<root>/<target>`, else the first file with the target's file
/// name found searching `tree` (the vault root's listing); nothing for
/// an empty target.
pub open spec fn resolution(root: Seq<char>, t: Seq<char>, probe: LinkProbe, tree: Entry) -> Option<
    Seq<char>,
> {
    match candidates(root, t) {
        None => None,
        Some(c) => if probe.direct_exists {
            Some(c.0)
        } else if probe.as_is_exists {
            Some(c.1)
        } else {
            match search_dir(tree, c.2) {
                Some(p) => Some(p@),
                None => None,
            }
        },
    }
}

/// A link resolves when its target is empty (a reference to the note
/// itself) or some file is found for it.
pub open spec fn resolves(root: Seq<char>, t: Seq<char>, probe: LinkProbe, tree: Entry) -> bool {
    candidates(root, t) is None || resolution(root, t, probe, tree) is Some
}

/// Resolves a wikilink to the full path of an existing file, given which
/// of its candidate paths exist (`probe`) and the vault's tree.
pub fn resolve_wikilink_path(vault_root: &str, target: &str, probe: &LinkProbe, tree: &Entry) -> (r:
    Option<String>)
    ensures
        match r {
            Some(p) => resolution(vault_root@, target@, *probe, *tree) == Some(p@),
            None => resolution(vault_root@, target@, *probe, *tree) is None,
        },
{
    match wikilink_candidates(vault_root, target) {
        None => None,
        Some(c) => {
            if probe.direct_exists {
                Some(c.direct)
            } else if probe.as_is_exists {
                Some(c.as_is)
            } else {
                search_for_file_path(tree, c.file_name.as_str())
            }
        },
    }
}

/// Whether a wikilink resolves to an existing file (an empty target is a
/// reference to the note itself and always resolves).
pub fn resolve_wikilink(vault_root: &str, target: &str, probe: &LinkProbe, tree: &Entry) -> (r: bool)
    ensures
        r == resolves(vault_root@, target@, *probe, *tree),
{
    match wikilink_candidates(vault_root, target) {
        None => true,
        Some(_) => resolve_wikilink_path(vault_root, target, probe, tree).is_some(),
    }
}

/// `resolve_wikilink` and `resolve_wikilink_path` agree: a link resolves
/// exactly when it refers to the note itself (its target without anchor
/// is empty, where no path is returned) or a path is found for it.
pub proof fn lemma_resolve_agrees_with_path(root: Seq<char>, t: Seq<char>, probe: LinkProbe, tree: Entry)
    ensures
        resolves(root, t, probe, tree) <==> (link_target(t).len() == 0 || resolution(root, t, probe, tree) is Some),
        link_target(t).len() == 0 ==> resolution(root, t, probe, tree) is None,
{
}

/// `link_target` is already a link target: taking it again changes
/// nothing.
proof fn lemma_link_target_idempotent(t: Seq<char>)
    ensures
        link_target(link_target(t)) == link_target(t),
{
    let x = match find(t, seq!['#']) {
        Some(k) => t.take(k),
        None => t,
    };
    lemma_find_from(t, seq!['#'], 0);
    assert forall|m: int| 0 <= m < x.len() implies #[trigger] x[m] != '#' by {
        if x[m] == '#' {
            assert(t.subrange(m, m + 1) =~= seq!['#']);
            assert(occurs_at(t, m, seq!['#']));
        }
    }
    let lt = trim(x);
    lemma_trim(x);
    assert forall|m: int| 0 <= m < lt.len() implies #[trigger] lt[m] != '#' by {
        assert(lt[m] == x[lead_ws(x) + m]);
    }
    lemma_find_from(lt, seq!['#'], 0);
    if find(lt, seq!['#']) is Some {
        let k = find(lt, seq!['#'])->0;
        assert(lt.subrange(k, k + 1)[0] == lt[k]);
    }
    if lt.len() > 0 {
        assert(lead_ws(lt) == 0);
        assert(trail_ws(lt) == 0);
    }
    assert(trim(lt) =~= lt);
}

/// A link's heading anchor and the white space around its target do not
/// matter: the link has the same candidate paths and resolves to the
/// same file as its bare target; and when that target is not empty,
/// `resolve_wikilink` holds exactly when `resolve_wikilink_path` finds a
/// path.
pub proof fn lemma_resolution_ignores_anchor(root: Seq<char>, t: Seq<char>, probe: LinkProbe, tree: Entry)
    ensures
        candidates(root, t) == candidates(root, link_target(t)),
        resolution(root, t, probe, tree) == resolution(root, link_target(t), probe, tree),
        link_target(t).len() > 0 ==> (resolves(root, t, probe, tree) <==> resolution(root, t, probe, tree) is Some),
{
    lemma_link_target_idempotent(t);
}

/// The probe of the `k`-th link; a link without one has no existing
/// candidate path.
pub open spec fn probe_at(probes: Seq<LinkProbe>, k: int) -> LinkProbe {
    if 0 <= k < probes.len() {
        probes[k]
    } else {
        LinkProbe { direct_exists: false, as_is_exists: false }
    }
}

/// The links from the `k`-th on that do not resolve, in order.
pub open spec fn broken_from(root: Seq<char>, links: Seq<Seq<char>>, probes: Seq<LinkProbe>, tree: Entry, k: int) -> Seq<Seq<char>>
    decreases links.len() - k,
{
    if k < 0 || k >= links.len() {
        Seq::empty()
    } else {
        (if resolves(root, links[k], probe_at(probes, k), tree) {
            Seq::empty()
        } else {
            seq![links[k]]
        }) + broken_from(root, links, probes, tree, k + 1)
    }
}

/// The wikilinks of a note that do not resolve; `probes` tells, for each
/// link in order, which of its candidate paths exist.
pub open spec fn broken_links(root: Seq<char>, content: Seq<char>, probes: Seq<LinkProbe>, tree: Entry) -> Seq<Seq<char>> {
    broken_from(root, wikilinks(content), probes, tree, 0)
}

/// Finds the broken wikilinks of a note's content: the links, in order,
/// for which no file exists in the vault.  `probes[k]` tells which
/// candidate paths of the `k`-th link exist; `tree` is the vault root.
pub fn find_broken_links(vault_root: &str, content: &str, probes: &Vec<LinkProbe>, tree: &Entry) -> (r: Vec<String>)
    ensures
        r@.map_values(|l: String| l@) == broken_links(vault_root@, content@, probes@, *tree),
{
    let links = find_wikilinks(content);
    let ghost ls = links@.map_values(|l: String| l@);
    let mut out: Vec<String> = Vec::new();
    let mut k: usize = 0;
    while k < links.len()
        invariant
            k <= links@.len(),
            ls == links@.map_values(|l: String| l@),
            ls == wikilinks(content@),
            out@.map_values(|l: String| l@) + broken_from(vault_root@, ls, probes@, *tree, k as int)
                == broken_links(vault_root@, content@, probes@, *tree),
        decreases links@.len() - k,
    {
        let probe = if k < probes.len() {
            probes[k]
        } else {
            LinkProbe { direct_exists: false, as_is_exists: false }
        };
        assert(ls[k as int] == links@[k as int]@);
        let ghost prev = out@.map_values(|l: String| l@);
        if !resolve_wikilink(vault_root, links[k].as_str(), &probe, tree) {
            out.push(links[k].clone());
            assert(out@.map_values(|l: String| l@) =~= prev.push(ls[k as int]));
            assert(prev + (seq![ls[k as int]] + broken_from(vault_root@, ls, probes@, *tree, k + 1))
                =~= out@.map_values(|l: String| l@) + broken_from(vault_root@, ls, probes@, *tree, k + 1));
        } else {
            assert(prev + (Seq::<Seq<char>>::empty() + broken_from(vault_root@, ls, probes@, *tree, k + 1))
                =~= out@.map_values(|l: String| l@) + broken_from(vault_root@, ls, probes@, *tree, k + 1));
        }
        k = k + 1;
    }
    assert(out@.map_values(|l: String| l@) + Seq::<Seq<char>>::empty() =~= out@.map_values(|l: String| l@));
    out
}

/// Every broken link reported is one of the links scanned that does not
/// resolve.
pub proof fn lemma_broken_are_unresolved_links(root: Seq<char>, links: Seq<Seq<char>>, probes: Seq<LinkProbe>, tree: Entry, k: int)
    requires
        0 <= k,
    ensures
        forall|j: int| 0 <= j < broken_from(root, links, probes, tree, k).len() ==> exists|m: int|
            k <= m < links.len() && links[m] == #[trigger] broken_from(root, links, probes, tree, k)[j]
                && !resolves(root, links[m], probe_at(probes, m), tree),
    decreases links.len() - k,
{
    if k < links.len() {
        lemma_broken_are_unresolved_links(root, links, probes, tree, k + 1);
        let rest = broken_from(root, links, probes, tree, k + 1);
        let all = broken_from(root, links, probes, tree, k);
        if resolves(root, links[k], probe_at(probes, k), tree) {
            assert(all =~= rest);
            assert forall|j: int| 0 <= j < all.len() implies exists|m: int|
                k <= m < links.len() && links[m] == #[trigger] all[j]
                    && !resolves(root, links[m], probe_at(probes, m), tree) by {
                assert(all[j] == rest[j]);
            }
        } else {
            assert(all =~= seq![links[k]] + rest);
            assert forall|j: int| 0 <= j < all.len() implies exists|m: int|
                k <= m < links.len() && links[m] == #[trigger] all[j]
                    && !resolves(root, links[m], probe_at(probes, m), tree) by {
                if j == 0 {
                    assert(links[k] == all[0]);
                } else {
                    assert(all[j] == rest[j - 1]);
                }
            }
        }
    }
}

/// The broken links of a note are among its wikilinks, and none of them
/// resolves.
pub proof fn lemma_broken_links_are_wikilinks(root: Seq<char>, content: Seq<char>, probes: Seq<LinkProbe>, tree: Entry)
    ensures
        forall|j: int| 0 <= j < broken_links(root, content, probes, tree).len() ==> exists|m: int|
            0 <= m < wikilinks(content).len() && wikilinks(content)[m] == #[trigger] broken_links(root, content, probes, tree)[j]
                && !resolves(root, wikilinks(content)[m], probe_at(probes, m), tree),
{
    lemma_broken_are_unresolved_links(root, wikilinks(content), probes, tree, 0);
}

/// The indices, from `k` on, of the links reported broken, in order.
proof fn broken_indices(root: Seq<char>, links: Seq<Seq<char>>, probes: Seq<LinkProbe>, tree: Entry, k: int) -> (idx: Seq<int>)
    requires
        0 <= k,
    ensures
        idx.len() == broken_from(root, links, probes, tree, k).len(),
        forall|j: int| 0 <= j < idx.len() ==> k <= #[trigger] idx[j] < links.len()
            && broken_from(root, links, probes, tree, k)[j] == links[idx[j]],
        forall|a: int, b: int| 0 <= a < b < idx.len() ==> idx[a] < idx[b],
        forall|m: int| k <= m < links.len() ==> (idx.contains(m) <==> !resolves(root, links[m], probe_at(probes, m), tree)),
    decreases links.len() - k,
{
    if k >= links.len() {
        Seq::empty()
    } else {
        let rest = broken_indices(root, links, probes, tree, k + 1);
        let all = broken_from(root, links, probes, tree, k);
        let tail = broken_from(root, links, probes, tree, k + 1);
        if resolves(root, links[k], probe_at(probes, k), tree) {
            assert(all =~= tail);
            assert(!rest.contains(k)) by {
                if rest.contains(k) {
                    let j = choose|j: int| 0 <= j < rest.len() && rest[j] == k;
                    assert(k + 1 <= rest[j]);
                }
            }
            rest
        } else {
            let idx = seq![k] + rest;
            assert(all =~= seq![links[k]] + tail);
            assert forall|j: int| 0 <= j < idx.len() implies k <= #[trigger] idx[j] < links.len()
                && all[j] == links[idx[j]] by {
                if j > 0 {
                    assert(idx[j] == rest[j - 1]);
                    assert(all[j] == tail[j - 1]);
                }
            }
            assert forall|a: int, b: int| 0 <= a < b < idx.len() implies idx[a] < idx[b] by {
                assert(idx[b] == rest[b - 1]);
                assert(k + 1 <= rest[b - 1]);
                if a > 0 {
                    assert(idx[a] == rest[a - 1]);
                }
            }
            assert forall|m: int| k <= m < links.len() implies (idx.contains(m) <==> !resolves(root, links[m], probe_at(probes, m), tree)) by {
                if m == k {
                    assert(idx[0] == k);
                } else {
                    if idx.contains(m) {
                        let j = choose|j: int| 0 <= j < idx.len() && idx[j] == m;
                        assert(j > 0);
                        assert(rest[j - 1] == m);
                        assert(rest.contains(m));
                    }
                    if rest.contains(m) {
                        let j = choose|j: int| 0 <= j < rest.len() && rest[j] == m;
                        assert(idx[j + 1] == m);
                    }
                }
            }
            idx
        }
    }
}

/// `idx` lists, in increasing order, the indices of the wikilinks of
/// `content` that are reported broken, and those are exactly the links
/// `m` that do not resolve with `probes[m]` (no candidate path existing
/// for links without a probe).
pub open spec fn broken_by_own_probe(idx: Seq<int>, root: Seq<char>, content: Seq<char>, probes: Seq<LinkProbe>, tree: Entry) -> bool {
    &&& idx.len() == broken_links(root, content, probes, tree).len()
    &&& forall|j: int| 0 <= j < idx.len() ==> 0 <= #[trigger] idx[j] < wikilinks(content).len()
        && broken_links(root, content, probes, tree)[j] == wikilinks(content)[idx[j]]
    &&& forall|a: int, b: int| 0 <= a < b < idx.len() ==> idx[a] < idx[b]
    &&& forall|m: int| 0 <= m < wikilinks(content).len() ==> (idx.contains(m) <==> !resolves(
        root,
        #[trigger] wikilinks(content)[m],
        if m < probes.len() {
            probes[m]
        } else {
            LinkProbe { direct_exists: false, as_is_exists: false }
        },
        tree,
    ))
}

/// Each link is judged on its own, by its own probe: the broken links of
/// a note are exactly the links `k`, in order, that do not resolve with
/// `probes[k]` (no candidate path existing for links without a probe).
pub proof fn lemma_broken_links_exact(root: Seq<char>, content: Seq<char>, probes: Seq<LinkProbe>, tree: Entry)
    ensures
        exists|idx: Seq<int>| #[trigger] broken_by_own_probe(idx, root, content, probes, tree),
{
    let idx = broken_indices(root, wikilinks(content), probes, tree, 0);
    assert forall|m: int| 0 <= m < wikilinks(content).len() implies (idx.contains(m) <==> !resolves(
        root,
        #[trigger] wikilinks(content)[m],
        if m < probes.len() {
            probes[m]
        } else {
            LinkProbe { direct_exists: false, as_is_exists: false }
        },
        tree,
    )) by {
        assert(probe_at(probes, m) == (if m < probes.len() {
            probes[m]
        } else {
            LinkProbe { direct_exists: false, as_is_exists: false }
        }));
    }
    assert(broken_by_own_probe(idx, root, content, probes, tree));
}

proof fn lemma_run_end_shift(x: Seq<char>, s: Seq<char>, j: int, p: bool)
    requires
        0 <= j,
    ensures
        run_end(x + s, x.len() + j, p) == x.len() + run_end(s, j, p),
    decreases s.len() - j,
{
    if j < s.len() {
        assert((x + s)[x.len() + j] == s[j]);
        lemma_run_end_shift(x, s, j + 1, p);
    }
}

proof fn lemma_link_match_shift(x: Seq<char>, s: Seq<char>, j: int)
    requires
        0 <= j,
    ensures
        link_match_at(x + s, x.len() + j) == (match link_match_at(s, j) {
            Some((a, b, e)) => Some((a + x.len(), b + x.len(), e + x.len())),
            None => None,
        }),
{
    let y = x + s;
    let o = x.len() as int;
    if j + 1 < s.len() {
        assert(y[o + j] == s[j]);
        assert(y[o + j + 1] == s[j + 1]);
    }
    lemma_run_end_shift(x, s, j + 2, true);
    lemma_run_end(s, j + 2, true);
    let e1 = run_end(s, j + 2, true);
    if e1 < s.len() {
        assert(y[o + e1] == s[e1]);
        lemma_run_end_shift(x, s, e1 + 1, false);
        let e2 = run_end(s, e1 + 1, false);
        lemma_run_end(s, e1 + 1, false);
        if e2 + 1 < s.len() {
            assert(y[o + e2] == s[e2]);
            assert(y[o + e2 + 1] == s[e2 + 1]);
        }
        if e1 + 1 < s.len() {
            assert(y[o + e1 + 1] == s[e1 + 1]);
        }
    }
}

/// Scanning a text after a prefix finds what scanning the text alone
/// finds.
proof fn lemma_links_from_shift(x: Seq<char>, s: Seq<char>, j: int)
    requires
        0 <= j,
    ensures
        links_from(x + s, x.len() + j) == links_from(s, j),
    decreases s.len() - j,
{
    if j < s.len() {
        lemma_link_match_shift(x, s, j);
        match link_match_at(s, j) {
            Some((a, b, e)) => {
                if e > j {
                    lemma_run_end(s, j + 2, true);
                    lemma_links_from_shift(x, s, e);
                    assert((x + s).subrange(a + x.len(), b + x.len()) =~= s.subrange(a, b));
                }
            },
            None => {
                lemma_links_from_shift(x, s, j + 1);
            },
        }
    }
}

proof fn lemma_plain_scan(p: Seq<char>, s: Seq<char>, i: int)
    requires
        0 <= i <= p.len(),
        forall|m: int| 0 <= m < p.len() ==> #[trigger] p[m] != '[',
    ensures
        links_from(p + s, i) == links_from(p + s, p.len() as int),
    decreases p.len() - i,
{
    if i < p.len() {
        assert((p + s)[i] == p[i]);
        assert(link_match_at(p + s, i) is None);
        lemma_plain_scan(p, s, i + 1);
    }
}

/// Text without `[` holds no link and does not change what follows: the
/// links of `p + s` are the links of `s`.
pub proof fn lemma_plain_text_then(p: Seq<char>, s: Seq<char>)
    requires
        forall|m: int| 0 <= m < p.len() ==> #[trigger] p[m] != '[',
    ensures
        wikilinks(p + s) == wikilinks(s),
        wikilinks(p).len() == 0,
{
    lemma_plain_scan(p, s, 0);
    lemma_links_from_shift(p, s, 0);
    lemma_plain_scan(p, Seq::empty(), 0);
    lemma_links_from_shift(p, Seq::<char>::empty(), 0);
    assert(p + Seq::<char>::empty() =~= p);
}

/// A link `[[t]]` in front of any text `s` contributes its trimmed target,
/// followed by the links of `s`.
pub proof fn lemma_link_then(t: Seq<char>, s: Seq<char>)
    requires
        t.len() > 0,
        forall|m: int| 0 <= m < t.len() ==> #[trigger] t[m] != ']' && t[m] != '|',
    ensures
        wikilinks("[["@ + t + "]]"@ + s) == seq![trim(t)] + wikilinks(s),
{
    reveal_strlit("[[");
    reveal_strlit("]]");
    let x = "[["@ + t + "]]"@;
    let y = x + s;
    let l = t.len() as int;
    assert forall|m: int| 0 <= m < l implies #[trigger] y[2 + m] == t[m] by {}
    assert(y[0] == '[' && y[1] == '[');
    assert(y[2 + l] == ']' && y[3 + l] == ']');
    assert forall|m: int| 2 <= m < 2 + l implies #[trigger] y[m] != ']' && y[m] != '|' by {
        assert(y[2 + (m - 2)] == t[m - 2]);
    }
    lemma_run_end_at(y, 2, 2 + l, true);
    assert(link_match_at(y, 0) == Some((2int, 2 + l, 4 + l)));
    assert(y.subrange(2, 2 + l) =~= t);
    assert(x.len() == 4 + l);
    lemma_links_from_shift(x, s, 0);
    assert(links_from(y, 0) =~= seq![trim(t)] + links_from(y, 4 + l));
}

/// A labelled link `[[t|d]]` in front of any text `s` contributes its
/// trimmed target (the label is dropped), followed by the links of `s`.
pub proof fn lemma_labelled_link_then(t: Seq<char>, d: Seq<char>, s: Seq<char>)
    requires
        t.len() > 0,
        forall|m: int| 0 <= m < t.len() ==> #[trigger] t[m] != ']' && t[m] != '|',
        d.len() > 0,
        forall|m: int| 0 <= m < d.len() ==> #[trigger] d[m] != ']',
    ensures
        wikilinks("[["@ + t + "|"@ + d + "]]"@ + s) == seq![trim(t)] + wikilinks(s),
{
    reveal_strlit("[[");
    reveal_strlit("]]");
    reveal_strlit("|");
    let x = "[["@ + t + "|"@ + d + "]]"@;
    let y = x + s;
    let l = t.len() as int;
    let n = d.len() as int;
    assert forall|m: int| 0 <= m < l implies #[trigger] y[2 + m] == t[m] by {}
    assert forall|m: int| 0 <= m < n implies #[trigger] y[3 + l + m] == d[m] by {}
    assert(y[0] == '[' && y[1] == '[');
    assert(y[2 + l] == '|');
    assert(y[3 + l + n] == ']' && y[4 + l + n] == ']');
    assert forall|m: int| 2 <= m < 2 + l implies #[trigger] y[m] != ']' && y[m] != '|' by {
        assert(y[2 + (m - 2)] == t[m - 2]);
    }
    assert forall|m: int| 3 + l <= m < 3 + l + n implies #[trigger] y[m] != ']' && (false ==> y[m] != '|') by {
        assert(y[3 + l + (m - 3 - l)] == d[m - 3 - l]);
    }
    lemma_run_end_at(y, 2, 2 + l, true);
    lemma_run_end_at(y, 3 + l, 3 + l + n, false);
    assert(link_match_at(y, 0) == Some((2int, 2 + l, 5 + l + n)));
    assert(y.subrange(2, 2 + l) =~= t);
    assert(x.len() == 5 + l + n);
    lemma_links_from_shift(x, s, 0);
    assert(links_from(y, 0) =~= seq![trim(t)] + links_from(y, 5 + l + n));
}

/// Links are found wherever they stand: between a text `p` without `[`
/// (line breaks included) and any text `q`, the link `[[t]]` yields its
/// trimmed target, followed by the links of `q`.
pub proof fn lemma_link_between(p: Seq<char>, t: Seq<char>, q: Seq<char>)
    requires
        forall|m: int| 0 <= m < p.len() ==> #[trigger] p[m] != '[',
        t.len() > 0,
        forall|m: int| 0 <= m < t.len() ==> #[trigger] t[m] != ']' && t[m] != '|',
    ensures
        wikilinks(p + "[["@ + t + "]]"@ + q) == wikilinks(p) + seq![trim(t)] + wikilinks(q),
{
    let x = "[["@ + t + "]]"@ + q;
    assert(p + "[["@ + t + "]]"@ + q =~= p + x);
    lemma_plain_text_then(p, x);
    lemma_link_then(t, q);
    assert(wikilinks(p) =~= Seq::<Seq<char>>::empty());
    assert(wikilinks(p) + seq![trim(t)] + wikilinks(q) =~= seq![trim(t)] + wikilinks(q));
}

} // verus!
