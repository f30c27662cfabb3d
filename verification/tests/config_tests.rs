use bridgebot::config::{
    check_rule, config_candidates, default_config_str, default_ignore, default_interval, default_true,
    resolve_config_path, validate, Config, ConfigError, DaemonConfig, RuleConfig, DEFAULT_CONFIG,
};
use bridgebot::git::{git_paths, repo_name};

use bridgebot::actions::action_kind;
use bridgebot::actions::check_links::{run as check_links_run, LinkCheck};
use bridgebot::rules::{full_link_check_rules, triggered_rules};
use bridgebot::vault::Vault;
use bridgebot::watcher::{classify_fs_event, daemon_step, path_is_ignored, DaemonAction, DaemonInput, FsEventKind, VaultEvent};

fn rule(name: &str, trigger: &str, action: &str) -> RuleConfig {
    RuleConfig {
        name: name.to_string(),
        trigger: trigger.to_string(),
        action: action.to_string(),
        message: None,
        field: None,
        scope: None,
        command: None,
        enabled: Some(true),
    }
}

fn config(rules: Vec<RuleConfig>, projects: Option<&str>) -> Config {
    Config {
        daemon: DaemonConfig {
            vault: "/v".to_string(),
            projects_dir: projects.map(|p| p.to_string()),
            interval: default_interval(),
            watch_paths: vec![],
            ignore: default_ignore(),
        },
        rules,
    }
}

#[test]
fn defaults() {
    assert_eq!(default_interval(), 300);
    assert_eq!(default_ignore(), vec![".obsidian", ".git", ".trash"]);
    assert_eq!(default_true(), Some(true));
    assert_eq!(default_config_str(), DEFAULT_CONFIG);
    assert!(default_config_str().contains("[[rule]]"));
}

#[test]
fn validation_errors() {
    let ok = config(vec![rule("a", "vault.file_saved", "notify")], Some("/p"));
    assert!(validate(&ok, true, true).is_ok());
    match validate(&ok, false, true) {
        Err(ConfigError::VaultMissing(p)) => assert_eq!(p, "/v"),
        _ => panic!("vault"),
    }
    match validate(&ok, true, false) {
        Err(ConfigError::ProjectsDirMissing(p)) => assert_eq!(p, "/p"),
        _ => panic!("projects"),
    }
    assert!(validate(&config(vec![], None), true, false).is_ok());
    assert!(matches!(check_rule(&rule("", "t", "notify")), Some(ConfigError::EmptyRuleName)));
    assert!(matches!(check_rule(&rule("r", "", "notify")), Some(ConfigError::EmptyTrigger(_))));
    assert!(matches!(check_rule(&rule("r", "t", "")), Some(ConfigError::EmptyAction(_))));
    match validate(&config(vec![rule("a", "t", "shell"), rule("b", "t", "email"), rule("", "", "")], None), true, true) {
        Err(ConfigError::UnknownAction(n, a)) => {
            assert_eq!(n, "b");
            assert_eq!(a, "email");
        }
        _ => panic!("unknown action"),
    }
}

#[test]
fn config_file_search() {
    let c = config_candidates(&Some("/home/me/.config".to_string()), &Some("/home/me".to_string()));
    assert_eq!(c, vec!["bridgebot.toml", "/home/me/.config/bridgebot/bridgebot.toml", "/home/me/.bridgebot.toml"]);
    assert_eq!(config_candidates(&None, &None), vec!["bridgebot.toml"]);
    assert_eq!(resolve_config_path(Some("x.toml".to_string()), &c, &vec![true, true, true]), "x.toml");
    assert_eq!(resolve_config_path(None, &c, &vec![false, false, true]), "/home/me/.bridgebot.toml");
    assert_eq!(resolve_config_path(None, &c, &vec![false, false, false]), "bridgebot.toml");
}

#[test]
fn trigger_table() {
    let cfg = config(vec![], None);
    let vault = Vault::new("/v".to_string(), vec![]);
    let created = VaultEvent::FileCreated("/v/a.md".to_string());
    let modified = VaultEvent::FileModified("/v/a.md".to_string());
    let removed = VaultEvent::FileRemoved("/v/a.md".to_string());
    let git = VaultEvent::GitRefChanged("/p/x/.git/HEAD".to_string());
    let tick = VaultEvent::Tick;
    let output = Some("output".to_string());
    let stale = rule("s", "task.active AND task.no_update_days > 7", "notify");
    assert!(bridgebot::rules::triggers::matches(&stale, &tick, &vault, &cfg, &None));
    assert!(!bridgebot::rules::triggers::matches(&stale, &modified, &vault, &cfg, &None));
    let broken = rule("b", "vault.broken_link", "check-links");
    assert!(bridgebot::rules::triggers::matches(&broken, &tick, &vault, &cfg, &None));
    let out = rule("o", "output.created", "link-from-hub");
    assert!(bridgebot::rules::triggers::matches(&out, &created, &vault, &cfg, &output));
    assert!(!bridgebot::rules::triggers::matches(&out, &created, &vault, &cfg, &Some("task".to_string())));
    assert!(!bridgebot::rules::triggers::matches(&out, &created, &vault, &cfg, &None));
    assert!(!bridgebot::rules::triggers::matches(&out, &modified, &vault, &cfg, &output));
    let saved = rule("f", "vault.file_saved", "check-links");
    assert!(bridgebot::rules::triggers::matches(&saved, &created, &vault, &cfg, &None));
    assert!(bridgebot::rules::triggers::matches(&saved, &modified, &vault, &cfg, &None));
    assert!(!bridgebot::rules::triggers::matches(&saved, &removed, &vault, &cfg, &None));
    assert!(!bridgebot::rules::triggers::matches(&saved, &tick, &vault, &cfg, &None));
    let commit = rule("g", "git.commit AND task.matches_branch", "update-frontmatter");
    assert!(bridgebot::rules::triggers::matches(&commit, &git, &vault, &cfg, &None));
    assert!(!bridgebot::rules::triggers::matches(&commit, &tick, &vault, &cfg, &None));
}

#[test]
fn disabled_rules_never_fire() {
    let mut off = rule("off", "vault.file_saved", "notify");
    off.enabled = Some(false);
    let mut unset = rule("unset", "vault.file_saved", "notify");
    unset.enabled = None;
    let cfg = config(vec![rule("on", "vault.file_saved", "notify"), off, rule("other", "output.created", "notify"), unset], None);
    assert_eq!(triggered_rules(&cfg, &VaultEvent::FileModified("/v/a.md".to_string()), &None), vec![0, 3]);
    assert!(triggered_rules(&cfg, &VaultEvent::Tick, &None).is_empty());
}

#[test]
fn one_shot_link_checks() {
    let mut scoped = rule("scoped", "vault.file_saved", "check-links");
    scoped.scope = Some("changed-file".to_string());
    let mut off = rule("off", "vault.broken_link", "check-links");
    off.enabled = Some(false);
    let cfg = config(vec![scoped, rule("all", "vault.broken_link", "check-links"), off, rule("n", "x", "notify")], None);
    assert_eq!(full_link_check_rules(&cfg), vec![1]);
}

#[test]
fn watcher_classification() {
    let ignore = vec![".obsidian".to_string(), ".git".to_string()];
    match classify_fs_event(FsEventKind::Create, "/v/notes/a.md", &ignore) {
        Some(VaultEvent::FileCreated(p)) => assert_eq!(p, "/v/notes/a.md"),
        _ => panic!("expected a created note"),
    }
    assert!(matches!(classify_fs_event(FsEventKind::Modify, "/v/a.md", &ignore), Some(VaultEvent::FileModified(_))));
    assert!(matches!(classify_fs_event(FsEventKind::Remove, "/v/a.md", &ignore), Some(VaultEvent::FileRemoved(_))));
    assert!(classify_fs_event(FsEventKind::Other, "/v/a.md", &ignore).is_none());
    assert!(classify_fs_event(FsEventKind::Create, "/v/.obsidian/a.md", &ignore).is_none());
    assert!(classify_fs_event(FsEventKind::Create, "/v/a.png", &ignore).is_none());
    assert!(classify_fs_event(FsEventKind::Create, "/v/.md", &ignore).is_none());
    assert!(path_is_ignored("/v/x/.git", &ignore));
    assert!(!path_is_ignored("/v/x.git/a.md", &ignore));
    assert!(path_is_ignored("/", &vec!["/".to_string()]));
    assert!(path_is_ignored("./a", &vec![".".to_string()]));
    assert!(!path_is_ignored("a/./b", &vec![".".to_string()]));
}

#[test]
fn repo_names() {
    assert_eq!(repo_name("/p/myproject"), "myproject");
    assert_eq!(repo_name("/p/myproject/"), "myproject");
    assert_eq!(repo_name("/"), "unknown");
}

#[test]
fn git_watch_paths() {
    let g = git_paths("/p/proj");
    assert_eq!(g.git_dir, "/p/proj/.git");
    assert_eq!(g.refs, "/p/proj/.git/refs");
    assert_eq!(g.head, "/p/proj/.git/HEAD");
    assert_eq!(git_paths("/p/proj/").refs, "/p/proj/.git/refs");
}

#[test]
fn daemon_loop_decisions() {
    match daemon_step(DaemonInput::Received(VaultEvent::FileModified("/v/a.md".to_string()))) {
        DaemonAction::Dispatch(VaultEvent::FileModified(p)) => assert_eq!(p, "/v/a.md"),
        _ => panic!("a received event is dispatched"),
    }
    assert!(matches!(daemon_step(DaemonInput::Received(VaultEvent::Tick)), DaemonAction::Dispatch(VaultEvent::Tick)));
    assert!(matches!(daemon_step(DaemonInput::Lagged(3)), DaemonAction::ReportLag(3)));
    assert!(matches!(daemon_step(DaemonInput::Closed), DaemonAction::Shutdown));
    assert!(matches!(daemon_step(DaemonInput::Interrupted), DaemonAction::Shutdown));
}

#[test]
fn removals_fire_no_rule() {
    let cfg = config(
        vec![
            rule("a", "vault.file_saved", "notify"),
            rule("b", "git.commit AND task.matches_branch", "update-frontmatter"),
            rule("c", "task.active AND task.no_update_days > 7", "notify"),
            rule("d", "vault.broken_link", "check-links"),
            rule("e", "output.created", "link-from-hub"),
        ],
        None,
    );
    assert!(triggered_rules(&cfg, &VaultEvent::FileRemoved("/v/a.md".to_string()), &Some("output".to_string())).is_empty());
}

#[test]
fn full_check_rules_check_the_whole_vault() {
    let mut scoped = rule("scoped", "vault.file_saved", "check-links");
    scoped.scope = Some("changed-file".to_string());
    let mut other_scope = rule("other", "vault.broken_link", "check-links");
    other_scope.scope = Some("elsewhere".to_string());
    let cfg = config(vec![scoped, other_scope, rule("plain", "vault.broken_link", "check-links")], None);
    let chosen = full_link_check_rules(&cfg);
    assert_eq!(chosen, vec![1, 2]);
    for i in chosen {
        for e in [VaultEvent::Tick, VaultEvent::FileModified("/v/a.md".to_string())] {
            assert!(matches!(check_links_run(&cfg.rules[i], &e), LinkCheck::WholeVault));
        }
    }
}

#[test]
fn valid_configs_dispatch_every_rule() {
    let actions = ["notify", "link-from-hub", "check-links", "update-frontmatter", "shell"];
    let rules: Vec<RuleConfig> = actions.iter().map(|a| rule("r", "vault.file_saved", a)).collect();
    let cfg = config(rules, None);
    assert!(validate(&cfg, true, true).is_ok());
    for r in &cfg.rules {
        assert!(action_kind(&r.action).is_some());
    }
    assert!(action_kind("Notify").is_none());
}

#[test]
fn validation_messages() {
    let mut cfg = config(vec![rule("r", "t", "notfy")], None);
    cfg.daemon.vault = "/".to_string();
    match validate(&cfg, true, true) {
        Err(e) => assert_eq!(
            e.message(),
            "rule 'r' has unknown action 'notfy'. Valid actions: notify, link-from-hub, check-links, update-frontmatter, shell"
        ),
        Ok(()) => panic!("expected an unknown action"),
    }
    assert_eq!(ConfigError::VaultMissing("/nowhere".to_string()).message(), "vault path does not exist: /nowhere");
    assert_eq!(ConfigError::ProjectsDirMissing("/p".to_string()).message(), "projects_dir does not exist: /p");
    assert_eq!(ConfigError::EmptyRuleName.message(), "rule name cannot be empty");
    assert_eq!(ConfigError::EmptyTrigger("x".to_string()).message(), "rule 'x' has empty trigger");
    assert_eq!(ConfigError::EmptyAction("x".to_string()).message(), "rule 'x' has empty action");
}
