//! Finding the markdown notes of a vault in a snapshot of its directory
//! tree.
use vstd::prelude::*;
use crate::paths::{ext_of_name, has_extension, join, valid_name, path_below, lemma_paths_below_differ};
use crate::text::str_eq;
use crate::vault::frontmatter::Frontmatter;

verus! {

/// One entry of a directory listing, as read from disk: its full path,
/// its file name when that is valid UTF-8, and for a directory the
/// listing of its own entries (none when it could not be read).
/// `Unreadable` stands for an entry that the listing failed to yield.
pub enum Entry {
    File { path: String, name: Option<String> },
    Dir { path: String, name: Option<String>, children: Option<Vec<Entry>> },
    Other { path: String, name: Option<String> },
    Unreadable,
}

/// The name used in comparisons: the UTF-8 file name, or empty.
pub open spec fn name_str(name: Option<String>) -> Seq<char> {
    match name {
        Some(n) => n@,
        None => Seq::empty(),
    }
}

/// The entry's name is one of the ignore patterns.
pub open spec fn is_ignored(name: Option<String>, ignore: Seq<String>) -> bool {
    exists|k: int| 0 <= k < ignore.len() && ignore[k]@ == name_str(name)
}

/// The entry's name has the extension `md`.
pub open spec fn is_md(name: Option<String>) -> bool {
    match name {
        Some(n) => ext_of_name(n@) == Some("md"@),
        None => false,
    }
}

/// The notes contributed by one entry of the listing of `dir`: none for
/// an ignored entry or a non-note file, the file itself for a note, and
/// for a directory everything found inside it; the path of the
/// directory whose listing failed otherwise.
pub open spec fn entry_notes(e: Entry, dir: String, ignore: Seq<String>) -> Result<
    Seq<String>,
    String,
>
    decreases e, 1int,
{
    match e {
        Entry::Unreadable => Err(dir),
        Entry::File { path, name } => if is_ignored(name, ignore) || !is_md(name) {
            Ok(Seq::empty())
        } else {
            Ok(seq![path])
        },
        Entry::Dir { path, name, children } => if is_ignored(name, ignore) {
            Ok(Seq::empty())
        } else {
            match children {
                None => Err(path),
                Some(c) => notes_in(c@, path, ignore),
            }
        },
        Entry::Other { .. } => Ok(Seq::empty()),
    }
}

/// The notes found walking `entries` (the listing of directory `dir`)
/// depth first in listing order: files with extension `md`, skipping
/// every entry whose name is ignored, and descending into directories.
/// The walk stops with the path of the first directory whose listing
/// failed.
pub open spec fn notes_in(entries: Seq<Entry>, dir: String, ignore: Seq<String>) -> Result<
    Seq<String>,
    String,
>
    decreases entries, 0int,
{
    if entries.len() == 0 {
        Ok(Seq::empty())
    } else {
        proof {
            assert(decreases_to!(entries => entries[0]));
        }
        match entry_notes(entries[0], dir, ignore) {
            Err(e) => Err(e),
            Ok(h) => match notes_in(entries.drop_first(), dir, ignore) {
                Ok(t) => Ok(h + t),
                Err(e) => Err(e),
            },
        }
    }
}

/// Whether `name` is one of the ignore patterns.
pub fn name_is_ignored(name: &Option<String>, ignore: &Vec<String>) -> (r: bool)
    ensures
        r == is_ignored(*name, ignore@),
{
    let n: String = match name {
        Some(n) => n.clone(),
        None => String::new(),
    };
    let mut k: usize = 0;
    while k < ignore.len()
        invariant
            k <= ignore@.len(),
            n@ == name_str(*name),
            forall|j: int| 0 <= j < k ==> ignore@[j]@ != name_str(*name),
        decreases ignore.len() - k,
    {
        if ignore[k] == n {
            return true;
        }
        k = k + 1;
    }
    false
}

/// Whether `name` has the extension `md`.
pub fn name_is_md(name: &Option<String>) -> (r: bool)
    ensures
        r == is_md(*name),
{
    match name {
        Some(n) => has_extension(n.as_str(), "md"),
        None => false,
    }
}

/// Walks `entries`, the listing of `dir`, appending the notes found.
fn walk_dir(entries: &Vec<Entry>, dir: &String, ignore: &Vec<String>, out: &mut Vec<String>) -> (r:
    Result<(), String>)
    ensures
        match notes_in(entries@, *dir, ignore@) {
            Ok(t) => r is Ok && final(out)@ == old(out)@ + t,
            Err(e) => r == Err::<(), String>(e),
        },
    decreases entries,
{
    let ghost start = out@;
    let mut i: usize = 0;
    proof {
        assert(entries@.skip(0) =~= entries@);
        assert(out@.skip(start.len() as int) =~= Seq::<String>::empty());
        assert(out@.subrange(0, start.len() as int) =~= start);
        match notes_in(entries@, *dir, ignore@) {
            Ok(t) => {
                assert(Seq::<String>::empty() + t =~= t);
            },
            Err(e) => {},
        }
    }
    while i < entries.len()
        invariant
            i <= entries@.len(),
            out@.len() >= start.len(),
            out@.subrange(0, start.len() as int) == start,
            match notes_in(entries@.skip(i as int), *dir, ignore@) {
                Ok(t) => notes_in(entries@, *dir, ignore@) == Ok::<Seq<String>, String>(
                    out@.skip(start.len() as int) + t,
                ),
                Err(e) => notes_in(entries@, *dir, ignore@) == Err::<Seq<String>, String>(e),
            },
        decreases entries@.len() - i,
    {
        let ghost rest = entries@.skip(i as int);
        assert(rest[0] == entries@[i as int]);
        assert(rest.drop_first() =~= entries@.skip(i + 1));
        let ghost before = out@;
        let ghost e = entries@[i as int];
        match &entries[i] {
            Entry::Unreadable => {
                return Err(dir.clone());
            },
            Entry::File { path, name } => {
                if !name_is_ignored(name, ignore) && name_is_md(name) {
                    out.push(path.clone());
                    proof {
                        assert(out@.skip(before.len() as int) =~= seq![*path]);
                    }
                } else {
                    assert(out@.skip(before.len() as int) =~= Seq::<String>::empty());
                }
            },
            Entry::Dir { path, name, children } => {
                if name_is_ignored(name, ignore) {
                    assert(out@.skip(before.len() as int) =~= Seq::<String>::empty());
                } else {
                    match children {
                        None => {
                            return Err(path.clone());
                        },
                        Some(c) => {
                            proof {
                                assert(decreases_to!(entries => entries@[i as int]));
                            }
                            let r = walk_dir(c, path, ignore, out);
                            if r.is_err() {
                                return r;
                            }
                            proof {
                                match notes_in(c@, *path, ignore@) {
                                    Ok(t) => {
                                        assert(out@.skip(before.len() as int) =~= t);
                                    },
                                    Err(_) => {},
                                }
                            }
                        },
                    }
                }
            },
            Entry::Other { .. } => {
                assert(out@.skip(before.len() as int) =~= Seq::<String>::empty());
            },
        }
        proof {
            let h = out@.skip(before.len() as int);
            assert(out@ =~= before + h);
            assert(entry_notes(e, *dir, ignore@) == Ok::<Seq<String>, String>(h));
            assert(out@.subrange(0, start.len() as int) =~= start);
            assert(out@.skip(start.len() as int) =~= before.skip(start.len() as int) + h);
            match notes_in(entries@.skip(i + 1), *dir, ignore@) {
                Ok(t) => {
                    assert(before.skip(start.len() as int) + (h + t) =~= out@.skip(
                        start.len() as int,
                    ) + t);
                },
                Err(e) => {},
            }
        }
        i = i + 1;
    }
    proof {
        assert(entries@.skip(i as int) =~= Seq::<Entry>::empty());
        assert(out@ =~= start + out@.skip(start.len() as int));
        assert(out@.skip(start.len() as int) + Seq::<String>::empty() =~= out@.skip(start.len() as int));
    }
    Ok(())
}

/// Why the vault could not be read.
pub enum VaultError {
    /// A directory (or an entry of it) could not be listed.
    ReadDir(String),
    /// A note could not be read.
    ReadFile(String),
}

/// The notes under the vault's top directory `root`, or the directory
/// whose listing failed (none for an unreadable root entry, which has no
/// path).
pub open spec fn vault_notes(root: Entry, ignore: Seq<String>) -> Result<Seq<String>, Option<String>> {
    match root {
        Entry::Dir { path, children: Some(c), .. } => match notes_in(c@, path, ignore) {
            Ok(t) => Ok(t),
            Err(d) => Err(Some(d)),
        },
        Entry::Dir { path, children: None, .. } => Err(Some(path)),
        Entry::File { path, .. } => Err(Some(path)),
        Entry::Other { path, .. } => Err(Some(path)),
        Entry::Unreadable => Err(None),
    }
}

/// The error reported for a failed walk.
pub open spec fn walk_error(d: Option<String>, e: VaultError) -> bool {
    match d {
        Some(p) => e == VaultError::ReadDir(p),
        None => e matches VaultError::ReadDir(p) && p@.len() == 0,
    }
}

/// Finds all markdown files under `root` (the vault's top directory),
/// respecting ignore patterns: the paths of the notes in depth-first
/// listing order, or the directory whose listing failed.
pub fn find_notes(root: &Entry, ignore: &Vec<String>) -> (r: Result<Vec<String>, VaultError>)
    ensures
        match vault_notes(*root, ignore@) {
            Ok(t) => r matches Ok(v) && v@ == t,
            Err(d) => r matches Err(e) && walk_error(d, e),
        },
{
    match root {
        Entry::Dir { path, children: Some(c), .. } => {
            let mut notes: Vec<String> = Vec::new();
            match walk_dir(c, path, ignore, &mut notes) {
                Ok(()) => {
                    assert(notes@ =~= Seq::<String>::empty() + notes@);
                    Ok(notes)
                },
                Err(p) => Err(VaultError::ReadDir(p)),
            }
        },
        Entry::Dir { path, children: None, .. } => Err(VaultError::ReadDir(path.clone())),
        Entry::File { path, .. } => Err(VaultError::ReadDir(path.clone())),
        Entry::Other { path, .. } => Err(VaultError::ReadDir(path.clone())),
        Entry::Unreadable => Err(VaultError::ReadDir(String::new())),
    }
}

/// A point in time: seconds and nanoseconds since the Unix epoch
/// (negative seconds for earlier times).
#[derive(Clone, Copy)]
pub struct Timestamp {
    pub secs: i64,
    pub nanos: u32,
}

/// What was read about one note: its frontmatter (none when the note
/// could not be read or has none) and its modification time.
pub struct NoteFacts {
    pub frontmatter: Option<Frontmatter>,
    pub modified: Timestamp,
}

/// Basic info about a vault note.
pub struct NoteInfo {
    pub path: String,
    pub frontmatter: Frontmatter,
    pub modified: Timestamp,
}

/// The frontmatter declares type `t`.
pub open spec fn has_type(f: NoteFacts, t: Seq<char>) -> bool {
    f.frontmatter matches Some(fm) && fm.note_type matches Some(nt) && nt@ == t
}

/// The notes among `notes` whose facts (taken in the same order; notes
/// without facts have no frontmatter) declare type `t`.
pub open spec fn typed_notes(notes: Seq<String>, facts: Seq<NoteFacts>, t: Seq<char>) -> Seq<NoteInfo>
    decreases notes.len(),
{
    if notes.len() == 0 {
        Seq::empty()
    } else {
        let head: Seq<NoteInfo> = if facts.len() > 0 && has_type(facts[0], t) {
            seq![NoteInfo { path: notes[0], frontmatter: facts[0].frontmatter->0, modified: facts[0].modified }]
        } else {
            Seq::empty()
        };
        head + typed_notes(notes.drop_first(), if facts.len() > 0 { facts.drop_first() } else { facts }, t)
    }
}

/// Whether a frontmatter declares type `t`.
fn declares_type(fm: &Frontmatter, t: &str) -> (r: bool)
    ensures
        r == (fm.note_type matches Some(nt) && nt@ == t@),
{
    match &fm.note_type {
        Some(nt) => str_eq(nt.as_str(), t),
        None => false,
    }
}

/// Finds the notes with a given frontmatter type.  `facts` holds what was
/// read of each note, in the order `find_notes` lists them.
pub fn find_notes_by_type(root: &Entry, ignore: &Vec<String>, note_type: &str, facts: Vec<NoteFacts>) -> (r: Result<Vec<NoteInfo>, VaultError>)
    ensures
        match vault_notes(*root, ignore@) {
            Ok(ns) => r matches Ok(v) && v@ == typed_notes(ns, facts@, note_type@),
            Err(d) => r matches Err(e) && walk_error(d, e),
        },
{
    let notes = match find_notes(root, ignore) {
        Ok(n) => n,
        Err(e) => return Err(e),
    };
    let mut facts = facts;
    let ghost all_facts = facts@;
    let mut out: Vec<NoteInfo> = Vec::new();
    let mut i: usize = 0;
    assert(notes@.skip(0) =~= notes@);
    while i < notes.len()
        invariant
            i <= notes@.len(),
            out@ + typed_notes(notes@.skip(i as int), facts@, note_type@) == typed_notes(notes@, all_facts, note_type@),
        decreases notes@.len() - i,
    {
        let ghost rest = notes@.skip(i as int);
        let ghost fs = facts@;
        assert(rest[0] == notes@[i as int]);
        assert(rest.drop_first() =~= notes@.skip(i + 1));
        let ghost prev = out@;
        if facts.len() > 0 {
            let f = facts.remove(0);
            assert(facts@ =~= fs.drop_first());
            let NoteFacts { frontmatter, modified } = f;
            let mut pushed = false;
            if let Some(fm) = frontmatter {
                if declares_type(&fm, note_type) {
                    out.push(NoteInfo { path: notes[i].clone(), frontmatter: fm, modified });
                    pushed = true;
                }
            }
            if pushed {
                assert(prev + (seq![out@.last()] + typed_notes(notes@.skip(i + 1), facts@, note_type@))
                    =~= out@ + typed_notes(notes@.skip(i + 1), facts@, note_type@));
            } else {
                assert(prev + (Seq::<NoteInfo>::empty() + typed_notes(notes@.skip(i + 1), facts@, note_type@))
                    =~= out@ + typed_notes(notes@.skip(i + 1), facts@, note_type@));
            }
        } else {
            assert(prev + (Seq::<NoteInfo>::empty() + typed_notes(notes@.skip(i + 1), facts@, note_type@))
                =~= out@ + typed_notes(notes@.skip(i + 1), facts@, note_type@));
        }
        i = i + 1;
    }
    assert(notes@.skip(i as int) =~= Seq::<String>::empty());
    assert(out@ + Seq::<NoteInfo>::empty() =~= out@);
    Ok(out)
}

/// Every pattern of `ignore` is also a pattern of `ignore2`.
pub open spec fn ignore_within(ignore: Seq<String>, ignore2: Seq<String>) -> bool {
    forall|k: int| 0 <= k < ignore.len() ==> exists|m: int| 0 <= m < ignore2.len() && ignore2[m]@ == (#[trigger] ignore[k])@
}

/// Every path of `a` is also a path of `b`.
pub open spec fn notes_within(a: Seq<String>, b: Seq<String>) -> bool {
    forall|x: String| a.contains(x) ==> b.contains(x)
}

proof fn lemma_ignored_within(name: Option<String>, ignore: Seq<String>, ignore2: Seq<String>)
    requires
        ignore_within(ignore, ignore2),
        is_ignored(name, ignore),
    ensures
        is_ignored(name, ignore2),
{
    let k = choose|k: int| 0 <= k < ignore.len() && ignore[k]@ == name_str(name);
    assert(exists|m: int| 0 <= m < ignore2.len() && ignore2[m]@ == ignore[k]@);
}

proof fn lemma_within_concat(a: Seq<String>, b: Seq<String>, a2: Seq<String>, b2: Seq<String>)
    requires
        notes_within(a2, a),
        notes_within(b2, b),
    ensures
        notes_within(a2 + b2, a + b),
{
    assert forall|x: String| (a2 + b2).contains(x) implies (a + b).contains(x) by {
        let i = choose|i: int| 0 <= i < (a2 + b2).len() && (a2 + b2)[i] == x;
        if i < a2.len() {
            assert(a2[i] == x);
            assert(a2.contains(x));
            let j = choose|j: int| 0 <= j < a.len() && a[j] == x;
            assert((a + b)[j] == x);
        } else {
            assert(b2[i - a2.len()] == x);
            assert(b2.contains(x));
            let j = choose|j: int| 0 <= j < b.len() && b[j] == x;
            assert((a + b)[a.len() + j] == x);
        }
    }
}

proof fn lemma_entry_notes_within(e: Entry, dir: String, ignore: Seq<String>, ignore2: Seq<String>)
    requires
        ignore_within(ignore, ignore2),
        entry_notes(e, dir, ignore) is Ok,
    ensures
        entry_notes(e, dir, ignore2) is Ok,
        notes_within(entry_notes(e, dir, ignore2)->Ok_0, entry_notes(e, dir, ignore)->Ok_0),
    decreases e, 1int,
{
    match e {
        Entry::Unreadable => {},
        Entry::File { path, name } => {
            if is_ignored(name, ignore) {
                lemma_ignored_within(name, ignore, ignore2);
            }
        },
        Entry::Dir { path, name, children } => {
            if is_ignored(name, ignore) {
                lemma_ignored_within(name, ignore, ignore2);
            } else if !is_ignored(name, ignore2) {
                match children {
                    None => {},
                    Some(c) => {
                        lemma_notes_in_within(c@, path, ignore, ignore2);
                    },
                }
            }
        },
        Entry::Other { .. } => {},
    }
}

proof fn lemma_notes_in_within(entries: Seq<Entry>, dir: String, ignore: Seq<String>, ignore2: Seq<String>)
    requires
        ignore_within(ignore, ignore2),
        notes_in(entries, dir, ignore) is Ok,
    ensures
        notes_in(entries, dir, ignore2) is Ok,
        notes_within(notes_in(entries, dir, ignore2)->Ok_0, notes_in(entries, dir, ignore)->Ok_0),
    decreases entries, 0int,
{
    if entries.len() > 0 {
        assert(decreases_to!(entries => entries[0]));
        lemma_entry_notes_within(entries[0], dir, ignore, ignore2);
        lemma_notes_in_within(entries.drop_first(), dir, ignore, ignore2);
        lemma_within_concat(
            entry_notes(entries[0], dir, ignore)->Ok_0,
            notes_in(entries.drop_first(), dir, ignore)->Ok_0,
            entry_notes(entries[0], dir, ignore2)->Ok_0,
            notes_in(entries.drop_first(), dir, ignore2)->Ok_0,
        );
    }
}

/// Ignoring more never adds notes or errors: when the walk with `ignore`
/// succeeds, the walk with a larger ignore list succeeds too and finds
/// only notes the first one found.
pub proof fn lemma_more_ignored_fewer_notes(root: Entry, ignore: Seq<String>, ignore2: Seq<String>)
    requires
        ignore_within(ignore, ignore2),
        vault_notes(root, ignore) is Ok,
    ensures
        vault_notes(root, ignore2) is Ok,
        notes_within(vault_notes(root, ignore2)->Ok_0, vault_notes(root, ignore)->Ok_0),
{
    match root {
        Entry::Dir { path, children: Some(c), .. } => {
            lemma_notes_in_within(c@, path, ignore, ignore2);
        },
        _ => {},
    }
}

/// A vault root that is not a directory that could be listed gives an
/// error, whatever the ignore list.
pub proof fn lemma_root_must_be_listed_directory(root: Entry, ignore: Seq<String>)
    requires
        !(root matches Entry::Dir { children: Some(_), .. }),
    ensures
        vault_notes(root, ignore) is Err,
{
}

/// The name of a listed entry, when it has one.
pub open spec fn entry_name(e: Entry) -> Option<Seq<char>> {
    match e {
        Entry::File { name: Some(n), .. } => Some(n@),
        Entry::Dir { name: Some(n), .. } => Some(n@),
        Entry::Other { name: Some(n), .. } => Some(n@),
        _ => None,
    }
}

/// No two entries of a listing carry the same name.
pub open spec fn names_distinct(entries: Seq<Entry>) -> bool {
    forall|i: int, j: int|
        0 <= i < entries.len() && 0 <= j < entries.len() && i != j && (#[trigger] entry_name(entries[i])) is Some
            ==> entry_name(entries[i]) != #[trigger] entry_name(entries[j])
}

/// An entry of the listing of directory `dir` as the file system gives
/// it: it has a valid name, its path is `dir` joined with that name, and
/// a directory's own listing is well formed too.
pub open spec fn entry_well_formed(e: Entry, dir: Seq<char>) -> bool
    decreases e, 1int,
{
    match e {
        Entry::Unreadable => true,
        Entry::File { path, name } => name matches Some(n) && valid_name(n@) && path@ == join(dir, n@),
        Entry::Other { path, name } => name matches Some(n) && valid_name(n@) && path@ == join(dir, n@),
        Entry::Dir { path, name, children } => name matches Some(n) && valid_name(n@) && path@ == join(dir, n@)
            && match children {
                Some(c) => listing_well_formed(c@, path@),
                None => true,
            },
    }
}

/// Every entry of the listing is well formed.
pub open spec fn entries_well_formed(entries: Seq<Entry>, dir: Seq<char>) -> bool
    decreases entries, 0int,
{
    if entries.len() == 0 {
        true
    } else {
        proof {
            assert(decreases_to!(entries => entries[0]));
        }
        entry_well_formed(entries[0], dir) && entries_well_formed(entries.drop_first(), dir)
    }
}

/// A listing of directory `dir` as the file system gives it: well-formed
/// entries with distinct names.
pub open spec fn listing_well_formed(entries: Seq<Entry>, dir: Seq<char>) -> bool
    decreases entries, 1int,
{
    names_distinct(entries) && entries_well_formed(entries, dir)
}

/// A snapshot of a vault as the file system gives it: the root is a
/// directory, and its listing, if it could be read, is well formed.
pub open spec fn tree_well_formed(root: Entry) -> bool {
    match root {
        Entry::Dir { path, children, .. } => match children {
            Some(c) => listing_well_formed(c@, path@),
            None => true,
        },
        _ => false,
    }
}

/// `ignore` lists the name `n`.
pub open spec fn ignores(ignore: Seq<String>, n: Seq<char>) -> bool {
    exists|k: int| 0 <= k < ignore.len() && ignore[k]@ == n
}

/// `x` is reached from `dir` through the names `comps`: none of them
/// ignored, the last one a markdown file name.
pub open spec fn note_path_via(x: Seq<char>, dir: Seq<char>, ignore: Seq<String>, comps: Seq<Seq<char>>) -> bool {
    &&& comps.len() > 0
    &&& x == path_below(dir, comps)
    &&& forall|i: int| 0 <= i < comps.len() ==> valid_name(#[trigger] comps[i]) && !ignores(ignore, comps[i])
    &&& ext_of_name(comps.last()) == Some("md"@)
}

/// `x` lies below `dir`, with no ignored component below `dir`, and names
/// a markdown file.
pub open spec fn note_below(x: Seq<char>, dir: Seq<char>, ignore: Seq<String>) -> bool {
    exists|comps: Seq<Seq<char>>| #[trigger] note_path_via(x, dir, ignore, comps)
}

/// No path occurs twice.
pub open spec fn distinct_paths(v: Seq<String>) -> bool {
    forall|i: int, j: int| 0 <= i < v.len() && 0 <= j < v.len() && i != j ==> (#[trigger] v[i])@ != (#[trigger] v[j])@
}

/// `x` is reached from `dir` through `comps`, whose first name is that
/// of the `k`-th entry of the listing.
pub open spec fn via_entry(x: Seq<char>, dir: Seq<char>, ignore: Seq<String>, entries: Seq<Entry>, k: int, comps: Seq<Seq<char>>) -> bool {
    0 <= k < entries.len() && entry_name(entries[k]) == Some(comps[0]) && note_path_via(x, dir, ignore, comps)
}

/// `x` is reached from `dir` through the name of some entry of the
/// listing.
pub open spec fn found_at(x: Seq<char>, dir: Seq<char>, ignore: Seq<String>, entries: Seq<Entry>) -> bool {
    exists|k: int, comps: Seq<Seq<char>>| #[trigger] via_entry(x, dir, ignore, entries, k, comps)
}

/// What the walk of one entry (or listing) of `dir` yields, under a well
/// formed listing: distinct paths, each reached from `dir` through the
/// name of one of the listing's entries.
pub open spec fn found_below(v: Seq<String>, dir: Seq<char>, ignore: Seq<String>, entries: Seq<Entry>) -> bool {
    &&& distinct_paths(v)
    &&& forall|i: int| 0 <= i < v.len() ==> found_at(#[trigger] v[i]@, dir, ignore, entries)
}

proof fn lemma_entry_found_below(e: Entry, dir: String, ignore: Seq<String>)
    requires
        entry_well_formed(e, dir@),
        entry_notes(e, dir, ignore) is Ok,
    ensures
        found_below(entry_notes(e, dir, ignore)->Ok_0, dir@, ignore, seq![e]),
    decreases e, 1int,
{
    let h = entry_notes(e, dir, ignore)->Ok_0;
    match e {
        Entry::Unreadable => {
            assert(entry_notes(e, dir, ignore) is Err);
        },
        Entry::Other { .. } => {
            assert(h.len() == 0);
        },
        Entry::File { path, name } => {
            if h.len() > 0 {
                let n = name->0;
                let comps = seq![n@];
                assert(comps.drop_first() =~= Seq::<Seq<char>>::empty());
                assert(path@ == join(dir@, n@));
                assert(path_below(join(dir@, n@), Seq::<Seq<char>>::empty()) == join(dir@, n@));
                assert(path_below(dir@, comps) == path_below(join(dir@, comps[0]), comps.drop_first()));
                assert(path_below(dir@, comps) == path@);
                assert(!ignores(ignore, n@)) by {
                    if ignores(ignore, n@) {
                        let k = choose|k: int| 0 <= k < ignore.len() && ignore[k]@ == n@;
                        assert(is_ignored(name, ignore));
                    }
                }
                assert(note_path_via(h[0]@, dir@, ignore, comps));
                assert(seq![e][0] == e);
                assert(h.len() == 1);
                assert(via_entry(h[0]@, dir@, ignore, seq![e], 0, comps));
            }
        },
        Entry::Dir { path, name, children } => {
            if h.len() > 0 {
                let n = name->0;
                let c = children->0;
                assert(listing_well_formed(c@, path@));
                assert(h == notes_in(c@, path, ignore)->Ok_0);
                lemma_listing_found_below(c@, path, ignore);
                assert(distinct_paths(h));
                assert(!ignores(ignore, n@)) by {
                    if ignores(ignore, n@) {
                        let k = choose|k: int| 0 <= k < ignore.len() && ignore[k]@ == n@;
                        assert(is_ignored(name, ignore));
                    }
                }
                assert forall|i: int| 0 <= i < h.len() implies found_at(#[trigger] h[i]@, dir@, ignore, seq![e]) by {
                    let (k2, c2) = choose|k: int, comps: Seq<Seq<char>>| #[trigger] via_entry(h[i]@, path@, ignore, c@, k, comps);
                    let comps = seq![n@] + c2;
                    assert(comps[0] == n@);
                    assert(comps.drop_first() =~= c2);
                    assert(path_below(dir@, comps) == path_below(path@, c2));
                    assert(comps.last() == c2.last());
                    assert forall|j: int| 0 <= j < comps.len() implies valid_name(#[trigger] comps[j]) && !ignores(ignore, comps[j]) by {
                        if j > 0 {
                            assert(comps[j] == c2[j - 1]);
                        }
                    }
                    assert(note_path_via(h[i]@, dir@, ignore, comps));
                    assert(seq![e][0] == e);
                    assert(entry_name(seq![e][0]) == Some(comps[0]));
                    assert(via_entry(h[i]@, dir@, ignore, seq![e], 0, comps));
                }
            }
        },
    }
}

proof fn lemma_listing_found_below(entries: Seq<Entry>, dir: String, ignore: Seq<String>)
    requires
        listing_well_formed(entries, dir@),
        notes_in(entries, dir, ignore) is Ok,
    ensures
        found_below(notes_in(entries, dir, ignore)->Ok_0, dir@, ignore, entries),
    decreases entries, 0int,
{
    if entries.len() > 0 {
        assert(decreases_to!(entries => entries[0]));
        let e0 = entries[0];
        let rest = entries.drop_first();
        assert(names_distinct(rest)) by {
            assert forall|i: int, j: int|
                0 <= i < rest.len() && 0 <= j < rest.len() && i != j && (#[trigger] entry_name(rest[i])) is Some
                    implies entry_name(rest[i]) != #[trigger] entry_name(rest[j]) by {
                assert(rest[i] == entries[i + 1]);
                assert(rest[j] == entries[j + 1]);
            }
        }
        lemma_entry_found_below(e0, dir, ignore);
        lemma_listing_found_below(rest, dir, ignore);
        let h = entry_notes(e0, dir, ignore)->Ok_0;
        let t = notes_in(rest, dir, ignore)->Ok_0;
        let v = notes_in(entries, dir, ignore)->Ok_0;
        assert(v == h + t);
        assert forall|i: int| 0 <= i < v.len() implies found_at(#[trigger] v[i]@, dir@, ignore, entries) by {
            if i < h.len() {
                assert(v[i] == h[i]);
                let (k, comps) = choose|k: int, comps: Seq<Seq<char>>| #[trigger] via_entry(h[i]@, dir@, ignore, seq![e0], k, comps);
                assert(seq![e0][k] == entries[0]);
                assert(via_entry(v[i]@, dir@, ignore, entries, 0, comps));
            } else {
                assert(v[i] == t[i - h.len()]);
                let (k, comps) = choose|k: int, comps: Seq<Seq<char>>| #[trigger] via_entry(t[i - h.len()]@, dir@, ignore, rest, k, comps);
                assert(rest[k] == entries[k + 1]);
                assert(via_entry(v[i]@, dir@, ignore, entries, k + 1, comps));
            }
        }
        assert forall|i: int, j: int| 0 <= i < v.len() && 0 <= j < v.len() && i != j implies (#[trigger] v[i])@ != (#[trigger] v[j])@ by {
            if i < h.len() && j < h.len() {
                assert(v[i] == h[i] && v[j] == h[j]);
            } else if i >= h.len() && j >= h.len() {
                assert(v[i] == t[i - h.len()] && v[j] == t[j - h.len()]);
            } else {
                let (a, b) = if i < h.len() { (i, j) } else { (j, i) };
                assert(v[a] == h[a]);
                assert(v[b] == t[b - h.len()]);
                let (k1, c1) = choose|k: int, comps: Seq<Seq<char>>| #[trigger] via_entry(h[a]@, dir@, ignore, seq![e0], k, comps);
                let (k2, c2) = choose|k: int, comps: Seq<Seq<char>>| #[trigger] via_entry(t[b - h.len()]@, dir@, ignore, rest, k, comps);
                assert(seq![e0][k1] == entries[0]);
                assert(rest[k2] == entries[k2 + 1]);
                assert(entry_name(entries[0]) is Some);
                assert(entry_name(entries[0]) != entry_name(entries[k2 + 1]));
                assert(c1[0] != c2[0]);
                assert(valid_name(c1[0]) && valid_name(c2[0]));
                lemma_paths_below_differ(dir@, c1, c2);
            }
        }
    }
}

/// In a snapshot as the file system gives it, the notes found are
/// distinct paths, and each lies below the vault root, reached through
/// names none of which is ignored, and names a markdown file.
pub proof fn lemma_notes_distinct_below_root(root: Entry, ignore: Seq<String>)
    requires
        tree_well_formed(root),
        vault_notes(root, ignore) is Ok,
    ensures
        distinct_paths(vault_notes(root, ignore)->Ok_0),
        forall|i: int| 0 <= i < vault_notes(root, ignore)->Ok_0.len() ==>
            note_below(#[trigger] (vault_notes(root, ignore)->Ok_0)[i]@, root->Dir_path@, ignore),
{
    match root {
        Entry::Dir { path, children: Some(c), .. } => {
            lemma_listing_found_below(c@, path, ignore);
            let v = vault_notes(root, ignore)->Ok_0;
            assert forall|i: int| 0 <= i < v.len() implies note_below(#[trigger] v[i]@, path@, ignore) by {
                let (k, comps) = choose|k: int, comps: Seq<Seq<char>>| #[trigger] via_entry(v[i]@, path@, ignore, c@, k, comps);
                assert(note_path_via(v[i]@, path@, ignore, comps));
            }
        },
        _ => {},
    }
}

} // verus!
