//! The `link-from-hub` action: finding a note's project hub and adding
//! a backlink to it.
use vstd::prelude::*;
use crate::paths::{join, join_exec, stem_or, stem_or_exec};
use crate::text::{to_chars, string_of, contains, contains_exec, find, find_from_exec, occurs_at,
    lemma_find_from, push_chars, push_str, str_contains};
use crate::vault::Vault;
use crate::vault::notes::NoteInfo;
use crate::vault::frontmatter::Frontmatter;
use crate::watcher::{EventView, VaultEvent};

verus! {

/// A backlink to add: the new note's name and the project whose hub
/// should link to it.
pub struct HubLink {
    pub note_name: String,
    pub project: String,
}

/// Whether an event asks for a backlink: a created note whose
/// frontmatter names a project; the note's name is its file stem
/// (`unknown` when it has none).
pub open spec fn hub_link_request(event: EventView, note_frontmatter: Option<Frontmatter>) -> Option<(Seq<char>, Seq<char>)> {
    match event {
        EventView::Created(p) => match note_frontmatter {
            Some(fm) => match fm.project {
                Some(project) => Some((stem_or(p, "unknown"@), project@)),
                None => None,
            },
            None => None,
        },
        _ => None,
    }
}

/// The link-from-hub action for an event: when a note is created whose
/// frontmatter (`note_frontmatter`, read from the note) names a project,
/// the backlink to add to that project's hub; nothing otherwise.
pub fn run(event: &VaultEvent, note_frontmatter: &Option<Frontmatter>) -> (r: Option<HubLink>)
    ensures
        match hub_link_request(event@, *note_frontmatter) {
            Some((name, project)) => r matches Some(l) && l.note_name@ == name && l.project@ == project,
            None => r is None,
        },
{
    match event {
        VaultEvent::FileCreated(p) => match note_frontmatter {
            Some(fm) => match &fm.project {
                Some(project) => Some(HubLink {
                    note_name: stem_or_exec(p.as_str(), "unknown"),
                    project: project.clone(),
                }),
                None => None,
            },
            None => None,
        },
        _ => None,
    }
}

/// The wikilink to a note: `[[name]]`.
pub open spec fn link_to(name: Seq<char>) -> Seq<char> {
    "[["@ + name + "]]"@
}

/// The hub already links to the note, plainly or with a label.
pub open spec fn already_linked(hub: Seq<char>, name: Seq<char>) -> bool {
    contains(hub, link_to(name)) || contains(hub, "[["@ + name + "|"@)
}

/// The hub with a backlink `- [[name]]` added: on the line after the
/// first `## Outputs` heading, or in a new `## Outputs / Handoffs`
/// section at the end; none when the hub already links to the note.
pub open spec fn hub_with_link(hub: Seq<char>, name: Seq<char>) -> Option<Seq<char>> {
    if already_linked(hub, name) {
        None
    } else {
        let new_link = "- "@ + link_to(name);
        match find(hub, "## Outputs"@) {
            Some(pos) => {
                let at = match find(hub.skip(pos), "\n"@) {
                    Some(l) => pos + l,
                    None => hub.len() as int,
                };
                Some(hub.take(at) + "\n"@ + new_link + hub.skip(at))
            },
            None => Some(hub + "\n## Outputs / Handoffs\n\n"@ + new_link + "\n"@),
        }
    }
}

/// Adds a backlink to `note_name` in a project hub's content; none when
/// the hub already links to the note.
pub fn add_hub_link(hub_content: &str, note_name: &str) -> (r: Option<String>)
    ensures
        match hub_with_link(hub_content@, note_name@) {
            Some(h) => r matches Some(s) && s@ == h,
            None => r is None,
        },
{
    let hub = to_chars(hub_content);
    let name = to_chars(note_name);
    let mut plain: Vec<char> = Vec::new();
    push_str(&mut plain, "[[");
    push_chars(&mut plain, &name);
    push_str(&mut plain, "]]");
    let mut labelled: Vec<char> = Vec::new();
    push_str(&mut labelled, "[[");
    push_chars(&mut labelled, &name);
    push_str(&mut labelled, "|");
    if contains_exec(&hub, &plain) || contains_exec(&hub, &labelled) {
        return None;
    }
    let mut new_link: Vec<char> = Vec::new();
    push_str(&mut new_link, "- ");
    push_chars(&mut new_link, &plain);
    let heading = to_chars("## Outputs");
    let mut out: Vec<char> = Vec::new();
    match find_from_exec(&hub, &heading, 0) {
        Some(pos) => {
            let mut nl: Vec<char> = Vec::new();
            push_str(&mut nl, "\n");
            // The end of the heading's line, searched from the heading on.
            let mut tail: Vec<char> = Vec::new();
            let mut k = pos;
            while k < hub.len()
                invariant
                    pos <= k <= hub@.len(),
                    tail@ == hub@.subrange(pos as int, k as int),
                decreases hub@.len() - k,
            {
                tail.push(hub[k]);
                assert(hub@.subrange(pos as int, k + 1) =~= hub@.subrange(pos as int, k as int).push(hub@[k as int]));
                k = k + 1;
            }
            assert(tail@ =~= hub@.skip(pos as int));
            let at = match find_from_exec(&tail, &nl, 0) {
                Some(l) => pos + l,
                None => hub.len(),
            };
            let mut i: usize = 0;
            while i < at
                invariant
                    at <= hub@.len(),
                    i <= at,
                    out@ == hub@.take(i as int),
                decreases at - i,
            {
                out.push(hub[i]);
                assert(hub@.take(i + 1) =~= hub@.take(i as int).push(hub@[i as int]));
                i = i + 1;
            }
            push_str(&mut out, "\n");
            push_chars(&mut out, &new_link);
            let ghost before = out@;
            let mut j = at;
            while j < hub.len()
                invariant
                    at <= j <= hub@.len(),
                    out@ == before + hub@.subrange(at as int, j as int),
                decreases hub@.len() - j,
            {
                out.push(hub[j]);
                assert(hub@.subrange(at as int, j + 1) =~= hub@.subrange(at as int, j as int).push(hub@[j as int]));
                j = j + 1;
            }
            assert(hub@.subrange(at as int, hub@.len() as int) =~= hub@.skip(at as int));
        },
        None => {
            push_chars(&mut out, &hub);
            push_str(&mut out, "\n## Outputs / Handoffs\n\n");
            push_chars(&mut out, &new_link);
            push_str(&mut out, "\n");
        },
    }
    Some(string_of(&out))
}

/// A hub with a backlink added links to the note: adding the same
/// backlink again changes nothing.
pub proof fn lemma_hub_link_idempotent(hub: Seq<char>, name: Seq<char>)
    requires
        hub_with_link(hub, name) is Some,
    ensures
        hub_with_link(hub_with_link(hub, name)->0, name) is None,
{
    reveal_strlit("- ");
    reveal_strlit("[[");
    reveal_strlit("]]");
    reveal_strlit("\n");
    reveal_strlit("\n## Outputs / Handoffs\n\n");
    let h2 = hub_with_link(hub, name)->0;
    let new_link = "- "@ + link_to(name);
    let lk = link_to(name);
    let start: int = match find(hub, "## Outputs"@) {
        Some(pos) => {
            let at = match find(hub.skip(pos), "\n"@) {
                Some(l) => pos + l,
                None => hub.len() as int,
            };
            lemma_find_from(hub, "## Outputs"@, 0);
            lemma_find_from(hub.skip(pos), "\n"@, 0);
            assert(0 <= at <= hub.len());
            assert(h2 == hub.take(at) + "\n"@ + new_link + hub.skip(at));
            assert(h2.subrange(at + 3, at + 3 + lk.len()) =~= lk);
            at + 1 + 2
        },
        None => {
            assert(h2.subrange(hub.len() + 26int, hub.len() + 26int + lk.len()) =~= lk);
            (hub.len() + 26) as int
        },
    };
    assert(h2.subrange(start, start + lk.len()) =~= lk);
    assert(occurs_at(h2, start, lk));
    lemma_find_from(h2, lk, 0);
}

/// The hub is left alone exactly when it already links the note, as
/// `[[name]]` or as `[[name|`; otherwise a line `- [[name]]` is inserted,
/// and the hub's text is kept on both sides of the insertion.
pub proof fn lemma_hub_link_added(hub: Seq<char>, name: Seq<char>)
    ensures
        hub_with_link(hub, name) is None <==> (contains(hub, "[["@ + name + "]]"@) || contains(
            hub,
            "[["@ + name + "|"@,
        )),
        hub_with_link(hub, name) matches Some(h2) ==> {
            &&& contains(h2, "- [["@ + name + "]]"@)
            &&& h2.len() > hub.len()
            &&& exists|at: int|
                0 <= at <= hub.len() && #[trigger] h2.take(at) == hub.take(at) && h2.skip(
                    h2.len() - (hub.len() - at),
                ) == hub.skip(at)
        },
{
    reveal_strlit("- ");
    reveal_strlit("[[");
    reveal_strlit("]]");
    reveal_strlit("\n");
    reveal_strlit("\n## Outputs / Handoffs\n\n");
    reveal_strlit("- [[");
    assert(link_to(name) == "[["@ + name + "]]"@);
    if hub_with_link(hub, name) is Some {
        let h2 = hub_with_link(hub, name)->0;
        let nl = "- "@ + link_to(name);
        assert(nl =~= "- [["@ + name + "]]"@);
        let (start, at): (int, int) = match find(hub, "## Outputs"@) {
            Some(pos) => {
                let at = match find(hub.skip(pos), "\n"@) {
                    Some(l) => pos + l,
                    None => hub.len() as int,
                };
                lemma_find_from(hub, "## Outputs"@, 0);
                lemma_find_from(hub.skip(pos), "\n"@, 0);
                assert(0 <= at <= hub.len());
                assert(h2 == hub.take(at) + "\n"@ + nl + hub.skip(at));
                assert(h2.subrange(at + 1, at + 1 + nl.len()) =~= nl);
                assert(h2.take(at) =~= hub.take(at));
                assert(h2.skip(h2.len() - (hub.len() - at)) =~= hub.skip(at));
                (at + 1, at)
            },
            None => {
                let at = hub.len() as int;
                assert(h2 == hub + "\n## Outputs / Handoffs\n\n"@ + nl + "\n"@);
                assert(h2.subrange(at + 24, at + 24 + nl.len()) =~= nl);
                assert(h2.take(at) =~= hub.take(at));
                assert(h2.skip(h2.len() - (hub.len() - at)) =~= hub.skip(at));
                (at + 24, at)
            },
        };
        assert(occurs_at(h2, start, "- [["@ + name + "]]"@));
        lemma_find_from(h2, "- [["@ + name + "]]"@, 0);
        assert(h2.take(at) == hub.take(at));
    }
}

/// Where a project's hub may be: `<root>/01-projects/<project>.md` and
/// `<root>/01-projects/<project>/<project>.md`.
pub open spec fn hub_paths(root: Seq<char>, project: Seq<char>) -> (Seq<char>, Seq<char>) {
    let dir = join(root, "01-projects"@);
    (join(dir, project + ".md"@), join(join(dir, project), project + ".md"@))
}

/// The two places a project's hub may be.
pub fn hub_candidates(vault: &Vault, project: &str) -> (r: (String, String))
    ensures
        (r.0@, r.1@) == hub_paths(vault.root@, project@),
{
    let dir = join_exec(vault.root.as_str(), "01-projects");
    let mut file: Vec<char> = Vec::new();
    push_str(&mut file, project);
    push_str(&mut file, ".md");
    let file_s = string_of(&file);
    let direct = join_exec(dir.as_str(), file_s.as_str());
    let sub = join_exec(dir.as_str(), project);
    let nested = join_exec(sub.as_str(), file_s.as_str());
    (direct, nested)
}

/// A project note whose stem and the project name contain one another.
pub open spec fn fuzzy_match(p: NoteInfo, project: Seq<char>) -> bool {
    let name = stem_or(p.path@, ""@);
    contains(name, project) || contains(project, name)
}

/// The first project note, in order, that matches fuzzily.
pub open spec fn fuzzy_hub(projects: Seq<NoteInfo>, project: Seq<char>) -> Option<Seq<char>>
    decreases projects.len(),
{
    if projects.len() == 0 {
        None
    } else if fuzzy_match(projects[0], project) {
        Some(projects[0].path@)
    } else {
        fuzzy_hub(projects.drop_first(), project)
    }
}

/// The hub of a project: the direct hub file if it exists, else the
/// one in the project's subfolder if that exists, else the first
/// project note whose name and the project's contain one another.
pub open spec fn project_hub(root: Seq<char>, project: Seq<char>, direct_exists: bool, nested_exists: bool, projects: Seq<NoteInfo>) -> Option<Seq<char>> {
    if direct_exists {
        Some(hub_paths(root, project).0)
    } else if nested_exists {
        Some(hub_paths(root, project).1)
    } else {
        fuzzy_hub(projects, project)
    }
}

/// Finds the project hub, given which of the two hub paths exist and the
/// vault's project notes.
pub fn find_project_hub(vault: &Vault, project: &str, direct_exists: bool, nested_exists: bool, projects: &Vec<NoteInfo>) -> (r: Option<String>)
    ensures
        match project_hub(vault.root@, project@, direct_exists, nested_exists, projects@) {
            Some(h) => r matches Some(s) && s@ == h,
            None => r is None,
        },
{
    let (direct, nested) = hub_candidates(vault, project);
    if direct_exists {
        return Some(direct);
    }
    if nested_exists {
        return Some(nested);
    }
    let mut i: usize = 0;
    assert(projects@.skip(0) =~= projects@);
    while i < projects.len()
        invariant
            i <= projects@.len(),
            !direct_exists,
            !nested_exists,
            fuzzy_hub(projects@, project@) == fuzzy_hub(projects@.skip(i as int), project@),
        decreases projects@.len() - i,
    {
        let ghost rest = projects@.skip(i as int);
        assert(rest[0] == projects@[i as int]);
        assert(rest.drop_first() =~= projects@.skip(i + 1));
        let name = stem_or_exec(projects[i].path.as_str(), "");
        if str_contains(name.as_str(), project) || str_contains(project, name.as_str()) {
            return Some(projects[i].path.clone());
        }
        i = i + 1;
    }
    None
}

} // verus!
