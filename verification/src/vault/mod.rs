//! The vault: its notes, their frontmatter and their links.
pub mod frontmatter;
pub mod links;
pub mod notes;

use vstd::prelude::*;
use crate::vault::links::{LinkProbe, broken_links, find_broken_links, search_descends, search_descends_exec};
use crate::vault::notes::{Entry, NoteFacts, NoteInfo, VaultError, find_notes, find_notes_by_type,
    typed_notes, vault_notes, walk_error, is_ignored, name_is_ignored, distinct_paths, note_below,
    tree_well_formed, lemma_notes_distinct_below_root};

verus! {

/// The vault root and the names ignored when walking it.
pub struct Vault {
    pub root: String,
    pub ignore: Vec<String>,
}

/// The text of a note and, for each of its wikilinks in order, which
/// candidate paths exist.
pub struct NoteLinks {
    pub content: String,
    pub probes: Vec<LinkProbe>,
}

/// The content read for the `i`-th note, if it could be read.
pub open spec fn file_at(files: Seq<Option<NoteLinks>>, i: int) -> Option<NoteLinks> {
    if 0 <= i < files.len() {
        files[i]
    } else {
        None
    }
}

/// The notes from the `i`-th on that have broken links, each with those
/// links; the first note that could not be read stops the check.
pub open spec fn all_broken(root: Seq<char>, notes: Seq<String>, files: Seq<Option<NoteLinks>>, tree: Entry, i: int) -> Result<Seq<(String, Seq<Seq<char>>)>, VaultError>
    decreases notes.len() - i,
{
    if i < 0 || i >= notes.len() {
        Ok(Seq::empty())
    } else {
        match file_at(files, i) {
            None => Err(VaultError::ReadFile(notes[i])),
            Some(nl) => {
                let b = broken_links(root, nl.content@, nl.probes@, tree);
                match all_broken(root, notes, files, tree, i + 1) {
                    Err(e) => Err(e),
                    Ok(rest) => Ok((if b.len() == 0 {
                        Seq::empty()
                    } else {
                        seq![(notes[i], b)]
                    }) + rest),
                }
            },
        }
    }
}

/// Whether a directory's entries matter to the vault's walks: the note
/// walk reads every directory whose name is not ignored, and the link
/// search every directory that is neither hidden nor `node_modules`.  A
/// directory that neither reads may be left unlisted in a snapshot.
pub fn listing_needed(name: &Option<String>, ignore: &Vec<String>) -> (r: bool)
    ensures
        r == (!is_ignored(*name, ignore@) || search_descends(*name)),
{
    !name_is_ignored(name, ignore) || search_descends_exec(name)
}

/// The view of a check result: each note with its broken links.
pub open spec fn report_view(r: Seq<(String, Vec<String>)>) -> Seq<(String, Seq<Seq<char>>)> {
    r.map_values(|p: (String, Vec<String>)| (p.0, p.1@.map_values(|l: String| l@)))
}

impl Vault {
    /// A vault rooted at `root`, ignoring the names in `ignore`.
    pub fn new(root: String, ignore: Vec<String>) -> (v: Self)
        ensures
            v.root == root,
            v.ignore == ignore,
    {
        Vault { root, ignore }
    }

    /// Finds all markdown files in the vault (whose top directory is
    /// `tree`), respecting the ignore patterns.
    pub fn all_notes(&self, tree: &Entry) -> (r: Result<Vec<String>, VaultError>)
        ensures
            match vault_notes(*tree, self.ignore@) {
                Ok(t) => r matches Ok(v) && v@ == t,
                Err(d) => r matches Err(e) && walk_error(d, e),
            },
    {
        find_notes(tree, &self.ignore)
    }

    /// Finds the notes with a given frontmatter type; `facts` holds what
    /// was read of each note, in the order `all_notes` lists them.
    pub fn notes_by_type(&self, tree: &Entry, note_type: &str, facts: Vec<NoteFacts>) -> (r: Result<Vec<NoteInfo>, VaultError>)
        ensures
            match vault_notes(*tree, self.ignore@) {
                Ok(ns) => r matches Ok(v) && v@ == typed_notes(ns, facts@, note_type@),
                Err(d) => r matches Err(e) && walk_error(d, e),
            },
    {
        find_notes_by_type(tree, &self.ignore, note_type, facts)
    }

    /// Checks a single note's content for broken wikilinks.
    pub fn check_links_in_file(&self, content: &str, probes: &Vec<LinkProbe>, tree: &Entry) -> (r: Vec<String>)
        ensures
            r@.map_values(|l: String| l@) == broken_links(self.root@, content@, probes@, *tree),
    {
        find_broken_links(self.root.as_str(), content, probes, tree)
    }

    /// Checks all notes of the vault for broken wikilinks: each note that
    /// has some, with them, in the order `all_notes` lists the notes.
    /// `files[i]` holds the `i`-th note's content and link probes (none
    /// when it could not be read).
    pub fn check_all_links(&self, tree: &Entry, files: &Vec<Option<NoteLinks>>) -> (r: Result<Vec<(String, Vec<String>)>, VaultError>)
        ensures
            match vault_notes(*tree, self.ignore@) {
                Ok(ns) => match all_broken(self.root@, ns, files@, *tree, 0) {
                    Ok(rep) => r matches Ok(v) && report_view(v@) == rep,
                    Err(e) => r == Err::<Vec<(String, Vec<String>)>, VaultError>(e),
                },
                Err(d) => r matches Err(e) && walk_error(d, e),
            },
    {
        let notes = match self.all_notes(tree) {
            Ok(n) => n,
            Err(e) => return Err(e),
        };
        let mut results: Vec<(String, Vec<String>)> = Vec::new();
        let mut i: usize = 0;
        while i < notes.len()
            invariant
                i <= notes@.len(),
                vault_notes(*tree, self.ignore@) == Ok::<Seq<String>, Option<String>>(notes@),
                match all_broken(self.root@, notes@, files@, *tree, i as int) {
                    Ok(rest) => match all_broken(self.root@, notes@, files@, *tree, 0) {
                        Ok(all) => all == report_view(results@) + rest,
                        Err(_) => false,
                    },
                    Err(e) => all_broken(self.root@, notes@, files@, *tree, 0) == Err::<Seq<(String, Seq<Seq<char>>)>, VaultError>(e),
                },
            decreases notes@.len() - i,
        {
            let ghost prev = report_view(results@);
            if i >= files.len() {
                return Err(VaultError::ReadFile(notes[i].clone()));
            }
            match &files[i] {
                None => {
                    return Err(VaultError::ReadFile(notes[i].clone()));
                },
                Some(nl) => {
                    let broken = find_broken_links(self.root.as_str(), nl.content.as_str(), &nl.probes, tree);
                    if broken.len() > 0 {
                        results.push((notes[i].clone(), broken));
                        assert(report_view(results@) =~= prev.push((notes@[i as int], broken@.map_values(|l: String| l@))));
                    }
                    proof {
                        match all_broken(self.root@, notes@, files@, *tree, i + 1) {
                            Ok(rest) => {
                                let b = broken_links(self.root@, nl.content@, nl.probes@, *tree);
                                if b.len() == 0 {
                                    assert(prev + (Seq::<(String, Seq<Seq<char>>)>::empty() + rest) =~= report_view(results@) + rest);
                                } else {
                                    assert(prev + (seq![(notes@[i as int], b)] + rest) =~= report_view(results@) + rest);
                                }
                            },
                            Err(_) => {},
                        }
                    }
                },
            }
            i = i + 1;
        }
        assert(report_view(results@) + Seq::<(String, Seq<Seq<char>>)>::empty() =~= report_view(results@));
        Ok(results)
    }
}

/// A vault-wide check reports only notes that have broken links, each
/// with at least one.
pub proof fn lemma_report_entries_nonempty(root: Seq<char>, notes: Seq<String>, files: Seq<Option<NoteLinks>>, tree: Entry, i: int)
    requires
        0 <= i,
    ensures
        all_broken(root, notes, files, tree, i) matches Ok(rep) ==> forall|j: int| 0 <= j < rep.len() ==> (#[trigger] rep[j]).1.len() > 0,
    decreases notes.len() - i,
{
    if i < notes.len() {
        lemma_report_entries_nonempty(root, notes, files, tree, i + 1);
        match file_at(files, i) {
            None => {},
            Some(nl) => {
                let b = broken_links(root, nl.content@, nl.probes@, tree);
                match all_broken(root, notes, files, tree, i + 1) {
                    Err(_) => {},
                    Ok(rest) => {
                        let rep = all_broken(root, notes, files, tree, i)->Ok_0;
                        if b.len() == 0 {
                            assert(rep =~= rest);
                        } else {
                            assert(rep =~= seq![(notes[i], b)] + rest);
                            assert forall|j: int| 0 <= j < rep.len() implies (#[trigger] rep[j]).1.len() > 0 by {
                                if j > 0 {
                                    assert(rep[j] == rest[j - 1]);
                                }
                            }
                        }
                    },
                }
            },
        }
    }
}

/// Every note a report names from the `i`-th on is one of `notes[i..]`.
proof fn lemma_report_from_notes(root: Seq<char>, notes: Seq<String>, files: Seq<Option<NoteLinks>>, tree: Entry, i: int)
    requires
        0 <= i,
        all_broken(root, notes, files, tree, i) is Ok,
    ensures
        forall|j: int| 0 <= j < (all_broken(root, notes, files, tree, i)->Ok_0).len() ==> exists|k: int|
            i <= k < notes.len() && notes[k] == (#[trigger] (all_broken(root, notes, files, tree, i)->Ok_0)[j]).0,
        distinct_paths(notes) ==> forall|a: int, b: int|
            0 <= a < (all_broken(root, notes, files, tree, i)->Ok_0).len() && 0 <= b < (all_broken(root, notes, files, tree, i)->Ok_0).len() && a != b
                ==> (#[trigger] (all_broken(root, notes, files, tree, i)->Ok_0)[a]).0@ != (#[trigger] (all_broken(root, notes, files, tree, i)->Ok_0)[b]).0@,
    decreases notes.len() - i,
{
    if i < notes.len() {
        let nl = file_at(files, i)->0;
        lemma_report_from_notes(root, notes, files, tree, i + 1);
        let b = broken_links(root, nl.content@, nl.probes@, tree);
        let rest = all_broken(root, notes, files, tree, i + 1)->Ok_0;
        let rep = all_broken(root, notes, files, tree, i)->Ok_0;
        if b.len() == 0 {
            assert(rep =~= rest);
            assert forall|j: int| 0 <= j < rep.len() implies exists|k: int| i <= k < notes.len() && notes[k] == (#[trigger] rep[j]).0 by {
                let k = choose|k: int| i + 1 <= k < notes.len() && notes[k] == (#[trigger] rest[j]).0;
            }
        } else {
            assert(rep =~= seq![(notes[i], b)] + rest);
            assert forall|j: int| 0 <= j < rep.len() implies exists|k: int| i <= k < notes.len() && notes[k] == (#[trigger] rep[j]).0 by {
                if j > 0 {
                    assert(rep[j] == rest[j - 1]);
                    let k = choose|k: int| i + 1 <= k < notes.len() && notes[k] == (#[trigger] rest[j - 1]).0;
                } else {
                    assert(notes[i] == rep[0].0);
                }
            }
            if distinct_paths(notes) {
                assert forall|a: int, c: int| 0 <= a < rep.len() && 0 <= c < rep.len() && a != c
                    implies (#[trigger] rep[a]).0@ != (#[trigger] rep[c]).0@ by {
                    if a > 0 && c > 0 {
                        assert(rep[a] == rest[a - 1] && rep[c] == rest[c - 1]);
                    } else {
                        let o = if a == 0 { c } else { a };
                        assert(rep[o] == rest[o - 1]);
                        let k = choose|k: int| i + 1 <= k < notes.len() && notes[k] == (#[trigger] rest[o - 1]).0;
                        assert(rep[0].0 == notes[i]);
                        assert(notes[i]@ != notes[k]@);
                    }
                }
            }
        }
    }
}

/// In a snapshot as the file system gives it, a vault-wide link check
/// names each note at most once, and every note it names lies below the
/// vault root, reached through names none of which is ignored.
pub proof fn lemma_check_all_links_distinct(root: Seq<char>, ignore: Seq<String>, files: Seq<Option<NoteLinks>>, tree: Entry)
    requires
        tree_well_formed(tree),
        vault_notes(tree, ignore) is Ok,
        all_broken(root, vault_notes(tree, ignore)->Ok_0, files, tree, 0) is Ok,
    ensures
        ({
            let rep = all_broken(root, vault_notes(tree, ignore)->Ok_0, files, tree, 0)->Ok_0;
            &&& forall|a: int, b: int| 0 <= a < rep.len() && 0 <= b < rep.len() && a != b
                ==> (#[trigger] rep[a]).0@ != (#[trigger] rep[b]).0@
            &&& forall|j: int| 0 <= j < rep.len() ==> note_below((#[trigger] rep[j]).0@, tree->Dir_path@, ignore)
        }),
{
    let ns = vault_notes(tree, ignore)->Ok_0;
    lemma_notes_distinct_below_root(tree, ignore);
    lemma_report_from_notes(root, ns, files, tree, 0);
    let rep = all_broken(root, ns, files, tree, 0)->Ok_0;
    assert forall|j: int| 0 <= j < rep.len() implies note_below((#[trigger] rep[j]).0@, tree->Dir_path@, ignore) by {
        let k = choose|k: int| 0 <= k < ns.len() && ns[k] == (#[trigger] rep[j]).0;
        assert(note_below(ns[k]@, tree->Dir_path@, ignore));
    }
}

} // verus!
