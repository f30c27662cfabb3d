use bridgebot::vault::frontmatter::{assemble_frontmatter, frontmatter_block, update_frontmatter_content, FrontmatterError};
use bridgebot::vault::links::{
    find_broken_links, find_wikilinks, link_target_exec, resolve_wikilink, resolve_wikilink_path,
    search_for_file_path, wikilink_candidates, LinkProbe,
};
use bridgebot::vault::notes::{find_notes, find_notes_by_type, Entry, NoteFacts, Timestamp, VaultError};
use bridgebot::vault::frontmatter::Frontmatter;
use bridgebot::vault::{NoteLinks, Vault};

fn file(path: &str) -> Entry {
    let name = path.rsplit('/').next().unwrap().to_string();
    Entry::File { path: path.to_string(), name: Some(name) }
}

fn dir(path: &str, children: Vec<Entry>) -> Entry {
    let name = path.rsplit('/').next().unwrap().to_string();
    Entry::Dir { path: path.to_string(), name: Some(name), children: Some(children) }
}

fn sample_vault() -> Entry {
    dir(
        "/v",
        vec![
            file("/v/index.md"),
            file("/v/image.png"),
            dir("/v/.obsidian", vec![file("/v/.obsidian/config.md")]),
            dir("/v/notes", vec![file("/v/notes/a.md"), dir("/v/notes/deep", vec![file("/v/notes/deep/b.md")])]),
            dir("/v/.hidden", vec![file("/v/.hidden/secret.md")]),
            dir("/v/node_modules", vec![file("/v/node_modules/pkg.md")]),
            file("/v/.md"),
        ],
    )
}

#[test]
fn test_find_wikilinks() {
    let content = "See [[some-note]] and [[folder/other|display text]] for details.";
    let links = find_wikilinks(content);
    assert_eq!(links, vec!["some-note", "folder/other"]);
}

#[test]
fn test_find_wikilinks_with_anchor() {
    let content = "Check [[note#heading]] for info.";
    let links = find_wikilinks(content);
    assert_eq!(links, vec!["note#heading"]);
}

#[test]
fn wikilink_edge_cases() {
    assert_eq!(find_wikilinks("[[ spaced ]]"), vec!["spaced"]);
    assert!(find_wikilinks("[[]] [[a|]] [[a] b]]").is_empty());
    assert_eq!(find_wikilinks("[[[x]]"), vec!["[x"]);
    assert_eq!(find_wikilinks("[[a|b|c]] [[d]]"), vec!["a", "d"]);
    assert_eq!(find_wikilinks("[[multi\nline]]"), vec!["multi\nline"]);
    assert_eq!(find_wikilinks("[[a]][[b]]"), vec!["a", "b"]);
    assert!(find_wikilinks("no links here [[unterminated").is_empty());
}

#[test]
fn frontmatter_blocks() {
    let content = "---\ntype: task\nstatus: active\ncreated: 2026-03-29\n---\n\n# My Task\n";
    assert_eq!(frontmatter_block(content).unwrap(), "\ntype: task\nstatus: active\ncreated: 2026-03-29");
    assert!(frontmatter_block("# Just a heading\n\nSome content.").is_none());
    assert_eq!(frontmatter_block("  \n---\na: 1\n---").unwrap(), "\na: 1");
    assert!(frontmatter_block("---\nnever closed\n").is_none());
}

#[test]
fn frontmatter_updates() {
    let content = "---\ntype: task\nstatus: active\n---\n\n# My Task\n";
    let updated = update_frontmatter_content(content, "updated", "2026-04-01").ok().unwrap();
    assert!(updated.starts_with("---\ntype: task\nstatus: active\nupdated:"));
    assert!(updated.contains("2026-04-01"));
    assert!(updated.ends_with("\n---\n\n# My Task\n"));
    // Setting an existing key replaces its value in place.
    let again = update_frontmatter_content(&updated, "status", "done").ok().unwrap();
    assert!(again.starts_with("---\ntype: task\nstatus: done\n"));
    assert!(matches!(update_frontmatter_content("# none", "a", "b"), Err(FrontmatterError::NoFrontmatter)));
    assert!(matches!(update_frontmatter_content("---\na: 1\n", "a", "b"), Err(FrontmatterError::Unterminated)));
    assert!(matches!(update_frontmatter_content("---\n- a\n- b\n---\n", "a", "b"), Err(FrontmatterError::InvalidYaml)));
    assert_eq!(assemble_frontmatter("a: 1\n\n", "\n---\nbody"), "---\na: 1\n\n---\nbody");
}

#[test]
fn notes_are_found_depth_first() {
    let ignore = vec![".obsidian".to_string()];
    let notes = find_notes(&sample_vault(), &ignore).ok().unwrap();
    assert_eq!(
        notes,
        vec!["/v/index.md", "/v/notes/a.md", "/v/notes/deep/b.md", "/v/.hidden/secret.md", "/v/node_modules/pkg.md"]
    );
    let vault = Vault::new("/v".to_string(), vec![".obsidian".to_string(), "notes".to_string()]);
    assert_eq!(vault.all_notes(&sample_vault()).ok().unwrap().len(), 3);
}

#[test]
fn unreadable_directories_fail_the_walk() {
    let tree = dir("/v", vec![file("/v/a.md"), Entry::Dir { path: "/v/locked".to_string(), name: Some("locked".to_string()), children: None }]);
    match find_notes(&tree, &vec![]) {
        Err(VaultError::ReadDir(p)) => assert_eq!(p, "/v/locked"),
        _ => panic!("expected an error"),
    }
    // An ignored unreadable directory is never read.
    assert_eq!(find_notes(&tree, &vec!["locked".to_string()]).ok().unwrap(), vec!["/v/a.md"]);
    let tree = dir("/v", vec![Entry::Unreadable]);
    assert!(matches!(find_notes(&tree, &vec![]), Err(VaultError::ReadDir(_))));
}

fn facts(note_type: Option<&str>) -> NoteFacts {
    NoteFacts {
        frontmatter: note_type.map(|t| Frontmatter {
            note_type: Some(t.to_string()),
            status: None,
            created: None,
            updated: None,
            owner: None,
            project: None,
            tags: None,
        }),
        modified: Timestamp { secs: 0, nanos: 0 },
    }
}

#[test]
fn notes_by_type_filter() {
    let tree = dir("/v", vec![file("/v/a.md"), file("/v/b.md"), file("/v/c.md")]);
    let found = find_notes_by_type(&tree, &vec![], "task", vec![facts(Some("task")), facts(None), facts(Some("project"))]).ok().unwrap();
    assert_eq!(found.len(), 1);
    assert_eq!(found[0].path, "/v/a.md");
    let vault = Vault::new("/v".to_string(), vec![]);
    let found = vault.notes_by_type(&tree, "project", vec![facts(Some("project")), facts(Some("project"))]).ok().unwrap();
    assert_eq!(found.len(), 2);
}

#[test]
fn link_candidates_and_search() {
    let c = wikilink_candidates("/v", "folder/note#section ").unwrap();
    assert_eq!(c.direct, "/v/folder/note.md");
    assert_eq!(c.as_is, "/v/folder/note");
    assert_eq!(c.file_name, "note.md");
    assert!(wikilink_candidates("/v", "#heading").is_none());
    assert_eq!(link_target_exec("  a#b#c"), "a");
    let c = wikilink_candidates("/v/", "/abs/x").unwrap();
    assert_eq!(c.direct, "/abs/x.md");
    assert_eq!(c.as_is, "/abs/x");
    assert_eq!(search_for_file_path(&sample_vault(), "b.md").unwrap(), "/v/notes/deep/b.md");
    assert!(search_for_file_path(&sample_vault(), "secret.md").is_none());
    assert!(search_for_file_path(&sample_vault(), "pkg.md").is_none());
    // The search ignores the vault's ignore list but not hidden folders.
    assert!(search_for_file_path(&sample_vault(), "config.md").is_none());
}

#[test]
fn link_resolution() {
    let tree = sample_vault();
    let none = LinkProbe { direct_exists: false, as_is_exists: false };
    assert_eq!(resolve_wikilink_path("/v", "x", &LinkProbe { direct_exists: true, as_is_exists: true }, &tree).unwrap(), "/v/x.md");
    assert_eq!(resolve_wikilink_path("/v", "x.png", &LinkProbe { direct_exists: false, as_is_exists: true }, &tree).unwrap(), "/v/x.png");
    assert_eq!(resolve_wikilink_path("/v", "elsewhere/b", &none, &tree).unwrap(), "/v/notes/deep/b.md");
    assert!(resolve_wikilink_path("/v", "missing", &none, &tree).is_none());
    assert!(resolve_wikilink("/v", "#self", &none, &tree));
    assert!(resolve_wikilink_path("/v", "#self", &none, &tree).is_none());
    assert!(resolve_wikilink("/v", "elsewhere/b", &none, &tree));
    assert!(!resolve_wikilink("/v", "missing", &none, &tree));
}

#[test]
fn broken_links_of_notes() {
    let tree = sample_vault();
    let content = "[[a]] [[missing]] [[#top]] [[b|B]]";
    let none = LinkProbe { direct_exists: false, as_is_exists: false };
    let probes = vec![none, none, none, none];
    assert_eq!(find_broken_links("/v", content, &probes, &tree), vec!["missing"]);
    // Links without a probe count as having no existing candidate path.
    assert_eq!(find_broken_links("/v", "[[index]] [[zzz]]", &vec![], &tree), vec!["zzz"]);
    let vault = Vault::new("/v".to_string(), vec![".obsidian".to_string()]);
    assert_eq!(vault.check_links_in_file("[[nope]]", &vec![none], &tree), vec!["nope"]);
    let files = vec![
        Some(NoteLinks { content: "[[a]]".to_string(), probes: vec![none] }),
        Some(NoteLinks { content: "[[gone]] [[b]]".to_string(), probes: vec![none, none] }),
        Some(NoteLinks { content: "".to_string(), probes: vec![] }),
        Some(NoteLinks { content: "[[x]]".to_string(), probes: vec![LinkProbe { direct_exists: true, as_is_exists: false }] }),
        Some(NoteLinks { content: "[[y]] [[z]]".to_string(), probes: vec![] }),
    ];
    let report = vault.check_all_links(&tree, &files).ok().unwrap();
    assert_eq!(report.len(), 2);
    assert_eq!(report[0].0, "/v/notes/a.md");
    assert_eq!(report[0].1, vec!["gone"]);
    assert_eq!(report[1].0, "/v/node_modules/pkg.md");
    assert_eq!(report[1].1, vec!["y", "z"]);
    let short = vec![Some(NoteLinks { content: "".to_string(), probes: vec![] })];
    match vault.check_all_links(&tree, &short) {
        Err(VaultError::ReadFile(p)) => assert_eq!(p, "/v/notes/a.md"),
        _ => panic!("expected a read error"),
    }
}

#[test]
fn wikilink_targets_are_clean() {
    let text = "[[  a b  ]] [[x|y]] [[\tq\n]] [[[z]] [[ | label]]";
    let links = find_wikilinks(text);
    assert_eq!(links, vec!["a b", "x", "q", "[z", ""]);
    for l in &links {
        assert!(!l.contains(']') && !l.contains('|'));
        assert_eq!(l.trim(), l.as_str());
    }
}

#[test]
fn updated_notes_keep_their_frontmatter() {
    let content = "\n  ---\ntitle: x\r\n---\r\nbody [[link]]\n";
    let updated = update_frontmatter_content(content, "updated", "2026-01-02").ok().unwrap();
    assert!(frontmatter_block(&updated).is_some());
    assert!(updated.ends_with("\n---\r\nbody [[link]]\n"));
    let twice = update_frontmatter_content(&updated, "updated", "2026-01-03").ok().unwrap();
    assert!(frontmatter_block(&twice).is_some());
    assert!(twice.ends_with("\n---\r\nbody [[link]]\n"));
}

#[test]
fn frontmatter_error_messages() {
    assert_eq!(FrontmatterError::NoFrontmatter.message("/v/a.md"), "file has no frontmatter: /v/a.md");
    assert_eq!(FrontmatterError::Unterminated.message("/v/a.md"), "unterminated frontmatter in /v/a.md");
    assert_eq!(FrontmatterError::InvalidYaml.message("/v/a.md"), "parsing frontmatter for update");
}

#[test]
fn single_labelled_and_absent_links() {
    assert_eq!(find_wikilinks("[[ my note ]]"), vec!["my note"]);
    assert_eq!(find_wikilinks("[[ my note |the label]]"), vec!["my note"]);
    assert!(find_wikilinks("[single] [ [x]] plain text").is_empty());
}

#[test]
fn anchors_and_spaces_do_not_change_resolution() {
    let tree = sample_vault();
    let none = LinkProbe { direct_exists: false, as_is_exists: false };
    assert_eq!(
        resolve_wikilink_path("/v", "  elsewhere/b#section ", &none, &tree),
        resolve_wikilink_path("/v", "elsewhere/b", &none, &tree)
    );
    assert!(resolve_wikilink("/v", " elsewhere/b#x", &none, &tree));
    assert!(resolve_wikilink_path("/v", " nothing#x", &none, &tree).is_none());
    assert!(!resolve_wikilink("/v", " nothing#x", &none, &tree));
}

#[test]
fn more_ignored_means_fewer_notes() {
    let few = vec![".obsidian".to_string()];
    let more = vec![".obsidian".to_string(), "deep".to_string(), "index.md".to_string()];
    let all = find_notes(&sample_vault(), &few).ok().unwrap();
    let fewer = find_notes(&sample_vault(), &more).ok().unwrap();
    assert!(fewer.len() < all.len());
    for n in &fewer {
        assert!(all.contains(n));
    }
    assert!(find_notes(&file("/v/index.md"), &few).is_err());
}

#[test]
fn notes_are_distinct_and_below_the_root() {
    let ignore = vec![".obsidian".to_string(), "node_modules".to_string()];
    let notes = find_notes(&sample_vault(), &ignore).ok().unwrap();
    for (i, a) in notes.iter().enumerate() {
        assert!(a.starts_with("/v/"));
        assert!(a.ends_with(".md"));
        assert!(!a.contains("/.obsidian/") && !a.contains("/node_modules/"));
        for b in &notes[i + 1..] {
            assert_ne!(a, b);
        }
    }
}
