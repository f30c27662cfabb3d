use bridgebot::actions::check_links::{changed_file_report, run as check_links_run, vault_report, LinkCheck};
use bridgebot::actions::link_from_hub::{add_hub_link, find_project_hub, hub_candidates, run as hub_run};
use bridgebot::actions::notify_action::{
    days_since_exec, elapsed_days_exec, handle_stale_tasks, parse_days_threshold, run as notify_run,
};
use bridgebot::actions::shell::{shell_command, substitute, ShellError};
use bridgebot::actions::update_frontmatter::{field_to_update, project_name, run as update_run, tasks_to_touch, UpdateTarget};
use bridgebot::actions::{action_kind, dispatch, ActionKind};
use bridgebot::config::RuleConfig;
use bridgebot::vault::frontmatter::Frontmatter;
use bridgebot::vault::notes::{NoteInfo, Timestamp};
use bridgebot::vault::Vault;
use bridgebot::watcher::VaultEvent;

fn rule(name: &str, trigger: &str, action: &str) -> RuleConfig {
    RuleConfig {
        name: name.to_string(),
        trigger: trigger.to_string(),
        action: action.to_string(),
        message: None,
        field: None,
        scope: None,
        command: None,
        enabled: Some(true),
    }
}

fn fm(note_type: &str, status: Option<&str>, updated: Option<&str>, project: Option<&str>) -> Frontmatter {
    Frontmatter {
        note_type: Some(note_type.to_string()),
        status: status.map(|s| s.to_string()),
        created: None,
        updated: updated.map(|s| s.to_string()),
        owner: None,
        project: project.map(|s| s.to_string()),
        tags: None,
    }
}

fn note(path: &str, frontmatter: Frontmatter, modified_secs: i64) -> NoteInfo {
    NoteInfo { path: path.to_string(), frontmatter, modified: Timestamp { secs: modified_secs, nanos: 0 } }
}

// 2026-03-29T12:00:00Z
const NOW: i64 = 1774785600;

#[test]
fn test_parse_days_threshold() {
    assert_eq!(parse_days_threshold("task.active AND task.no_update_days > 7"), Some(7));
    assert_eq!(parse_days_threshold("task.active AND task.no_update_days > 14"), Some(14));
    assert_eq!(parse_days_threshold("vault.file_saved"), None);
}

#[test]
fn threshold_edge_cases() {
    assert_eq!(parse_days_threshold("no_update_days >   30 days"), Some(30));
    assert_eq!(parse_days_threshold("no_update_days >"), None);
    assert_eq!(parse_days_threshold("no_update_days > x"), None);
    assert_eq!(parse_days_threshold("no_update_days < 3"), None);
    assert_eq!(parse_days_threshold("no_update_days > 007"), Some(7));
    assert_eq!(parse_days_threshold("no_update_days > 9223372036854775807"), Some(i64::MAX));
    assert_eq!(parse_days_threshold("no_update_days > 9223372036854775808"), None);
    // The `>` searched for is the first after the key.
    assert_eq!(parse_days_threshold("x > 3 AND no_update_days > 12"), Some(12));
}

#[test]
fn threshold_round_trip_examples() {
    for n in [0u64, 1, 7, 10, 99, 12345, 9223372036854775807] {
        let t = format!("task.active AND task.no_update_days > {n}");
        assert_eq!(parse_days_threshold(&t), Some(n as i64));
    }
}

#[test]
fn days_counting_follows_chrono() {
    // 2026-03-01T00:00:00Z is 28.5 days before NOW.
    let then = 1772323200;
    assert_eq!(days_since_exec(Timestamp { secs: NOW, nanos: 0 }, then), 28);
    // A future date gives a negative count, rounded toward zero.
    assert_eq!(days_since_exec(Timestamp { secs: then, nanos: 0 }, NOW), -28);
    assert_eq!(days_since_exec(Timestamp { secs: then - 1, nanos: 500 }, then + 86400), -1);
    assert_eq!(elapsed_days_exec(Timestamp { secs: NOW, nanos: 0 }, Timestamp { secs: NOW - 3 * 86400, nanos: 1 }), Some(2));
    assert_eq!(elapsed_days_exec(Timestamp { secs: NOW, nanos: 0 }, Timestamp { secs: NOW, nanos: 1 }), None);
}

#[test]
fn stale_tasks_are_notified() {
    let r = rule("stale", "task.active AND task.no_update_days > 7", "notify");
    let tasks = vec![
        note("/v/tasks/write-report.md", fm("task", Some("active"), Some("2026-03-01"), None), NOW),
        note("/v/tasks/fresh.md", fm("task", Some("active"), Some("2026-03-28"), None), NOW),
        note("/v/tasks/done.md", fm("task", Some("done"), Some("2020-01-01"), None), NOW),
        note("/v/tasks/bad-date.md", fm("task", Some("active"), Some("March 1st"), None), NOW),
        note("/v/tasks/by-mtime.md", fm("task", Some("active"), None, None), NOW - 10 * 86400),
    ];
    let out = handle_stale_tasks(&r, &tasks, Timestamp { secs: NOW, nanos: 0 });
    assert_eq!(out.len(), 2);
    assert_eq!(out[0].summary, "bridgebot \u{2014} stale task");
    assert_eq!(out[0].body, "Task 'write-report' has been active for 28 days");
    assert_eq!(out[1].body, "Task 'by-mtime' has been active for 10 days");
}

#[test]
fn stale_threshold_from_trigger_and_custom_message() {
    let mut r = rule("stale", "task.active AND task.no_update_days > 30", "notify");
    r.message = Some("{task.name}: {task.no_update_days}d ({task.name})".to_string());
    let tasks = vec![
        note("/v/a.md", fm("task", Some("active"), Some("2026-03-01"), None), NOW),
        note("/v/b.md", fm("task", Some("active"), Some("2026-01-01"), None), NOW),
    ];
    let out = notify_run(&r, &VaultEvent::Tick, &tasks, Timestamp { secs: NOW, nanos: 0 });
    assert_eq!(out.len(), 1);
    assert_eq!(out[0].body, "b: 87d (b)");
}

#[test]
fn notify_on_saved_file() {
    let r = rule("n", "vault.file_saved", "notify");
    let out = notify_run(&r, &VaultEvent::FileModified("/v/notes/idea.md".to_string()), &vec![], Timestamp { secs: NOW, nanos: 0 });
    assert_eq!(out.len(), 1);
    assert_eq!(out[0].summary, "bridgebot");
    assert_eq!(out[0].body, "bridgebot: event on idea");
    let out = notify_run(&r, &VaultEvent::FileRemoved("/v/notes/idea.md".to_string()), &vec![], Timestamp { secs: NOW, nanos: 0 });
    assert!(out.is_empty());
}

#[test]
fn check_links_scope() {
    let mut r = rule("c", "vault.file_saved", "check-links");
    assert!(matches!(check_links_run(&r, &VaultEvent::Tick), LinkCheck::WholeVault));
    r.scope = Some("changed-file".to_string());
    match check_links_run(&r, &VaultEvent::FileCreated("/v/a.md".to_string())) {
        LinkCheck::ChangedFile(p) => assert_eq!(p, "/v/a.md"),
        _ => panic!("expected a changed-file check"),
    }
    assert!(matches!(check_links_run(&r, &VaultEvent::Tick), LinkCheck::Nothing));
}

#[test]
fn link_reports() {
    assert!(changed_file_report("/v/a.md", &vec![]).is_none());
    let n = changed_file_report("/v/notes/a.md", &vec!["x".to_string(), "y/z".to_string()]).unwrap();
    assert_eq!(n.summary, "bridgebot \u{2014} broken links");
    assert_eq!(n.body, "2 broken link(s) in a: x, y/z");
    assert!(vault_report(&vec![]).is_none());
    let n = vault_report(&vec![
        ("/v/a.md".to_string(), vec!["x".to_string()]),
        ("/v/b.md".to_string(), vec!["y".to_string(), "z".to_string()]),
    ])
    .unwrap();
    assert_eq!(n.body, "3 broken link(s) found in vault");
}

#[test]
fn shell_substitution() {
    let vault = Vault::new("/home/me/vault".to_string(), vec![]);
    let cmd = "echo '{file.name}' in {file} of {vault}";
    assert_eq!(
        substitute(cmd, &VaultEvent::FileModified("/home/me/vault/a/note.md".to_string()), &vault),
        "echo 'note' in /home/me/vault/a/note.md of /home/me/vault"
    );
    assert_eq!(substitute(cmd, &VaultEvent::Tick, &vault), "echo '{file.name}' in {file} of /home/me/vault");
    assert_eq!(substitute("ls -la", &VaultEvent::Tick, &vault), "ls -la");
    let r = rule("sh", "vault.file_saved", "shell");
    match shell_command(&r, &VaultEvent::Tick, &vault) {
        Err(ShellError::NoCommand(n)) => assert_eq!(n, "sh"),
        _ => panic!("expected a missing command"),
    }
}

#[test]
fn hub_links() {
    let hub = "# Project\n\n## Outputs / Handoffs\n- [[old]]\n\n## Notes\n";
    let h2 = add_hub_link(hub, "new-note").unwrap();
    assert_eq!(h2, "# Project\n\n## Outputs / Handoffs\n- [[new-note]]\n- [[old]]\n\n## Notes\n");
    // Adding it again changes nothing.
    assert!(add_hub_link(&h2, "new-note").is_none());
    assert!(add_hub_link("see [[new-note|label]]", "new-note").is_none());
    let h3 = add_hub_link("# Project", "n").unwrap();
    assert_eq!(h3, "# Project\n## Outputs / Handoffs\n\n- [[n]]\n");
    assert!(add_hub_link(&h3, "n").is_none());
    assert_eq!(add_hub_link("## Outputs", "n").unwrap(), "## Outputs\n- [[n]]");
}

#[test]
fn project_hub_lookup() {
    let vault = Vault::new("/v".to_string(), vec![]);
    let (d, n) = hub_candidates(&vault, "alpha");
    assert_eq!(d, "/v/01-projects/alpha.md");
    assert_eq!(n, "/v/01-projects/alpha/alpha.md");
    let projects = vec![
        note("/v/p/beta.md", fm("project", None, None, None), NOW),
        note("/v/p/alpha-site.md", fm("project", None, None, None), NOW),
    ];
    assert_eq!(find_project_hub(&vault, "alpha", true, true, &projects).unwrap(), "/v/01-projects/alpha.md");
    assert_eq!(find_project_hub(&vault, "alpha", false, true, &projects).unwrap(), "/v/01-projects/alpha/alpha.md");
    assert_eq!(find_project_hub(&vault, "alpha", false, false, &projects).unwrap(), "/v/p/alpha-site.md");
    assert!(find_project_hub(&vault, "gamma", false, false, &projects).is_none());
}

#[test]
fn frontmatter_update_targets() {
    let mut r = rule("u", "git.commit AND task.matches_branch", "update-frontmatter");
    assert_eq!(field_to_update(&r), "updated");
    r.field = Some("touched".to_string());
    assert_eq!(field_to_update(&r), "touched");
    let anc: Vec<String> = ["/p/myproject/.git/refs/heads/main", "/p/myproject/.git/refs/heads", "/p/myproject/.git/refs", "/p/myproject/.git", "/p/myproject", "/p", "/"]
        .iter()
        .map(|s| s.to_string())
        .collect();
    let has_git = vec![false, false, false, false, true, false, false];
    assert_eq!(project_name(&anc, &has_git).unwrap(), "myproject");
    assert_eq!(project_name(&anc, &vec![false; 7]).unwrap(), "myproject");
    assert!(project_name(&vec!["/a".to_string(), "/".to_string()], &vec![false, false]).is_none());
    let tasks = vec![
        note("/v/t1.md", fm("task", Some("active"), None, Some("myproject")), NOW),
        note("/v/t2.md", fm("task", Some("done"), None, Some("myproject")), NOW),
        note("/v/t3.md", fm("task", Some("active"), None, Some("other")), NOW),
    ];
    assert_eq!(tasks_to_touch(&tasks, "myproject"), vec!["/v/t1.md".to_string()]);
}

#[test]
fn action_dispatch() {
    assert!(action_kind("notify") == Some(ActionKind::Notify));
    assert!(action_kind("check-links") == Some(ActionKind::CheckLinks));
    assert!(action_kind("link-from-hub") == Some(ActionKind::LinkFromHub));
    assert!(action_kind("update-frontmatter") == Some(ActionKind::UpdateFrontmatter));
    assert!(action_kind("shell") == Some(ActionKind::Shell));
    assert!(action_kind("Notify").is_none());
}

#[test]
fn frontmatter_update_plan() {
    let mut r = rule("u", "git.commit AND task.matches_branch", "update-frontmatter");
    let now = Timestamp { secs: NOW, nanos: 0 };
    let plan = update_run(&r, &VaultEvent::GitRefChanged("/p/x/.git/refs/heads/main".to_string()), now);
    assert_eq!(plan.field, "updated");
    assert_eq!(plan.value.unwrap(), "2026-03-29");
    assert!(matches!(plan.target, UpdateTarget::GitActivity(ref p) if p == "/p/x/.git/refs/heads/main"));
    r.field = Some("reviewed".to_string());
    let plan = update_run(&r, &VaultEvent::FileModified("/v/a.md".to_string()), Timestamp { secs: -1, nanos: 999_999_999 });
    assert_eq!(plan.value.unwrap(), "1969-12-31");
    assert_eq!(plan.field, "reviewed");
    assert!(matches!(plan.target, UpdateTarget::File(ref p) if p == "/v/a.md"));
    assert!(matches!(update_run(&r, &VaultEvent::FileCreated("/v/b.md".to_string()), now).target, UpdateTarget::File(_)));
    assert!(matches!(update_run(&r, &VaultEvent::FileRemoved("/v/b.md".to_string()), now).target, UpdateTarget::Nothing));
    assert!(matches!(update_run(&r, &VaultEvent::Tick, now).target, UpdateTarget::Nothing));
    assert_eq!(update_run(&r, &VaultEvent::Tick, Timestamp { secs: 951_782_400, nanos: 0 }).value.unwrap(), "2000-02-29");
    assert!(update_run(&r, &VaultEvent::Tick, Timestamp { secs: i64::MAX, nanos: 0 }).value.is_none());
}

#[test]
fn hub_link_requests() {
    let created = VaultEvent::FileCreated("/v/out/report.md".to_string());
    let with_project = Some(fm("output", None, None, Some("alpha")));
    let l = hub_run(&created, &with_project).unwrap();
    assert_eq!(l.note_name, "report");
    assert_eq!(l.project, "alpha");
    assert!(hub_run(&created, &Some(fm("output", None, None, None))).is_none());
    assert!(hub_run(&created, &None).is_none());
    assert!(hub_run(&VaultEvent::FileModified("/v/out/report.md".to_string()), &with_project).is_none());
    assert!(hub_run(&VaultEvent::Tick, &with_project).is_none());
}

#[test]
fn error_messages() {
    match dispatch("notfy") {
        Err(e) => assert_eq!(e.message(), "unknown action: notfy"),
        Ok(_) => panic!("expected an unknown action"),
    }
    assert!(matches!(dispatch("shell"), Ok(ActionKind::Shell)));
    let vault = Vault::new("/v".to_string(), vec![]);
    match shell_command(&rule("backup", "vault.file_saved", "shell"), &VaultEvent::Tick, &vault) {
        Err(e) => assert_eq!(e.message(), "rule 'backup' has action 'shell' but no 'command' field"),
        Ok(_) => panic!("expected a missing command"),
    }
}

#[test]
fn threshold_anywhere_in_trigger() {
    assert_eq!(parse_days_threshold("weekly: task.no_update_days > 21d"), Some(21));
    assert_eq!(parse_days_threshold("no_update_d task.no_update_days > 3"), Some(3));
    assert_eq!(parse_days_threshold("task.no_update_days > 5   "), Some(5));
    assert_eq!(parse_days_threshold("task.active AND days > 5"), None);
}
