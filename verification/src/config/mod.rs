//! Daemon configuration: the configuration tree, its defaults, its
//! validation, and where the configuration file is looked for.
use vstd::prelude::*;
use crate::text::{to_chars, string_of, str_eq, push_str};
use crate::paths::{join, join_exec};

verus! {

/// The whole configuration.
pub struct Config {
    pub daemon: DaemonConfig,
    pub rules: Vec<RuleConfig>,
}

/// The `[daemon]` table.
pub struct DaemonConfig {
    /// Path to the vault root.
    pub vault: String,
    /// Path to the projects directory (enables git watching).
    pub projects_dir: Option<String>,
    /// Period of the periodic checks, in seconds.
    pub interval: u64,
    /// Directories within the vault to watch (all when empty).
    pub watch_paths: Vec<String>,
    /// File and directory names to ignore.
    pub ignore: Vec<String>,
}

/// One `[[rule]]`: a trigger and the action it fires.
pub struct RuleConfig {
    /// Human-readable name.
    pub name: String,
    /// Trigger expression (e.g. `task.active AND task.no_update_days > 7`).
    pub trigger: String,
    /// Action to perform.
    pub action: String,
    /// Message template (notify).
    pub message: Option<String>,
    /// Field to update (update-frontmatter).
    pub field: Option<String>,
    /// Scope limiter (e.g. `changed-file`).
    pub scope: Option<String>,
    /// Shell command (shell).
    pub command: Option<String>,
    /// Whether the rule is enabled (absent means enabled).
    pub enabled: Option<bool>,
}

/// Default period of the periodic checks, in seconds.
pub fn default_interval() -> (r: u64)
    ensures
        r == 300,
{
    300
}

/// The names ignored by default.
pub open spec fn default_ignore_names() -> Seq<Seq<char>> {
    seq![".obsidian"@, ".git"@, ".trash"@]
}

/// Default ignore list: `.obsidian`, `.git`, `.trash`.
pub fn default_ignore() -> (r: Vec<String>)
    ensures
        r@.map_values(|s: String| s@) == default_ignore_names(),
{
    let mut v: Vec<String> = Vec::new();
    v.push(string_of(&to_chars(".obsidian")));
    v.push(string_of(&to_chars(".git")));
    v.push(string_of(&to_chars(".trash")));
    assert(v@.map_values(|s: String| s@) =~= default_ignore_names());
    v
}

/// Rules are enabled by default.
pub fn default_true() -> (r: Option<bool>)
    ensures
        r == Some(true),
{
    Some(true)
}

/// Why a configuration is rejected.
pub enum ConfigError {
    /// The vault path does not exist.
    VaultMissing(String),
    /// The projects directory does not exist.
    ProjectsDirMissing(String),
    /// A rule has an empty name.
    EmptyRuleName,
    /// The named rule has an empty trigger.
    EmptyTrigger(String),
    /// The named rule has an empty action.
    EmptyAction(String),
    /// The named rule has an action outside the known ones.
    UnknownAction(String, String),
}

/// The actions a rule may name.
pub open spec fn is_valid_action(a: Seq<char>) -> bool {
    ||| a == "notify"@
    ||| a == "link-from-hub"@
    ||| a == "check-links"@
    ||| a == "update-frontmatter"@
    ||| a == "shell"@
}

/// What is wrong with one rule, checked in this order: name, trigger,
/// action, known action.
pub open spec fn rule_error(r: RuleConfig) -> Option<ConfigError> {
    if r.name@.len() == 0 {
        Some(ConfigError::EmptyRuleName)
    } else if r.trigger@.len() == 0 {
        Some(ConfigError::EmptyTrigger(r.name))
    } else if r.action@.len() == 0 {
        Some(ConfigError::EmptyAction(r.name))
    } else if !is_valid_action(r.action@) {
        Some(ConfigError::UnknownAction(r.name, r.action))
    } else {
        None
    }
}

/// The error of the first faulty rule.
pub open spec fn rules_error(rules: Seq<RuleConfig>) -> Option<ConfigError>
    decreases rules.len(),
{
    if rules.len() == 0 {
        None
    } else {
        match rule_error(rules[0]) {
            Some(e) => Some(e),
            None => rules_error(rules.drop_first()),
        }
    }
}

/// The outcome of validation, given whether the vault path and the
/// projects directory exist.
pub open spec fn validation(config: Config, vault_exists: bool, projects_dir_exists: bool) -> Result<
    (),
    ConfigError,
> {
    if !vault_exists {
        Err(ConfigError::VaultMissing(config.daemon.vault))
    } else if config.daemon.projects_dir is Some && !projects_dir_exists {
        Err(ConfigError::ProjectsDirMissing(config.daemon.projects_dir->0))
    } else {
        match rules_error(config.rules@) {
            Some(e) => Err(e),
            None => Ok(()),
        }
    }
}

/// Whether `a` names a known action.
pub fn valid_action(a: &str) -> (r: bool)
    ensures
        r == is_valid_action(a@),
{
    str_eq(a, "notify") || str_eq(a, "link-from-hub") || str_eq(a, "check-links") || str_eq(
        a,
        "update-frontmatter",
    ) || str_eq(a, "shell")
}

/// The first problem of a single rule.
pub fn check_rule(r: &RuleConfig) -> (e: Option<ConfigError>)
    ensures
        e == rule_error(*r),
{
    if r.name.as_str().is_empty() {
        Some(ConfigError::EmptyRuleName)
    } else if r.trigger.as_str().is_empty() {
        Some(ConfigError::EmptyTrigger(r.name.clone()))
    } else if r.action.as_str().is_empty() {
        Some(ConfigError::EmptyAction(r.name.clone()))
    } else if !valid_action(r.action.as_str()) {
        Some(ConfigError::UnknownAction(r.name.clone(), r.action.clone()))
    } else {
        None
    }
}

/// Validates a configuration: the vault path must exist, so must the
/// projects directory when one is set, and every rule needs a name, a
/// trigger and one of the known actions.  The first problem found is
/// reported.
pub fn validate(config: &Config, vault_exists: bool, projects_dir_exists: bool) -> (r: Result<
    (),
    ConfigError,
>)
    ensures
        r == validation(*config, vault_exists, projects_dir_exists),
{
    if !vault_exists {
        return Err(ConfigError::VaultMissing(config.daemon.vault.clone()));
    }
    match &config.daemon.projects_dir {
        Some(p) => {
            if !projects_dir_exists {
                return Err(ConfigError::ProjectsDirMissing(p.clone()));
            }
        },
        None => {},
    }
    let mut i: usize = 0;
    assert(config.rules@.skip(0) =~= config.rules@);
    while i < config.rules.len()
        invariant
            i <= config.rules@.len(),
            vault_exists,
            config.daemon.projects_dir is Some ==> projects_dir_exists,
            rules_error(config.rules@) == rules_error(config.rules@.skip(i as int)),
        decreases config.rules@.len() - i,
    {
        let ghost rest = config.rules@.skip(i as int);
        assert(rest[0] == config.rules@[i as int]);
        assert(rest.drop_first() =~= config.rules@.skip(i + 1));
        match check_rule(&config.rules[i]) {
            Some(e) => {
                return Err(e);
            },
            None => {},
        }
        i = i + 1;
    }
    assert(config.rules@.skip(i as int) =~= Seq::<RuleConfig>::empty());
    Ok(())
}

/// The configuration written by `init`.
pub const DEFAULT_CONFIG: &'static str = "# bridgebot configuration
# See https://github.com/Blakethefn/bridgebot for documentation

[daemon]
# Path to your Obsidian vault root (required)
vault = \"~/Documents/my-vault\"

# Path to your projects directory (optional, enables git-aware rules)
# projects_dir = \"~/Projects\"

# How often to run periodic checks like staleness, in seconds (default: 300)
interval = 300

# Directories within the vault to watch (empty = watch all)
watch_paths = []

# Directories to ignore
ignore = [\".obsidian\", \".git\", \".trash\"]

# --- Rules ---
# Each [[rule]] defines a trigger condition and an action to take.
#
# Available triggers:
#   task.active AND task.no_update_days > N  \u{2014} stale task detection
#   output.created                           \u{2014} new output note appears
#   vault.file_saved                         \u{2014} any vault file is saved
#   git.commit AND task.matches_branch       \u{2014} commit on a task-linked branch
#   vault.broken_link                        \u{2014} broken wikilink detected
#
# Available actions:
#   notify             \u{2014} send a desktop notification (requires 'message')
#   link-from-hub      \u{2014} auto-backlink a note from its project hub
#   check-links        \u{2014} check for broken wikilinks
#   update-frontmatter \u{2014} update a frontmatter field (requires 'field')
#   shell              \u{2014} run a shell command (requires 'command')

[[rule]]
name = \"stale-task-alert\"
trigger = \"task.active AND task.no_update_days > 7\"
action = \"notify\"
message = \"Task '{task.name}' has been active for {task.no_update_days} days\"

[[rule]]
name = \"broken-link-warning\"
trigger = \"vault.file_saved\"
action = \"check-links\"
scope = \"changed-file\"

[[rule]]
name = \"auto-backlink-output\"
trigger = \"output.created\"
action = \"link-from-hub\"
";

/// The default configuration file's text.
pub fn default_config_str() -> (s: &'static str)
    ensures
        s == DEFAULT_CONFIG,
{
    DEFAULT_CONFIG
}

/// The places a configuration file is looked for, in order:
/// `bridgebot.toml` in the current directory, then
/// `<config_dir>/bridgebot/bridgebot.toml`, then `<home>/.bridgebot.toml`
/// (each of the last two only when that directory is known).
pub open spec fn config_search_order(config_dir: Option<Seq<char>>, home: Option<Seq<char>>) -> Seq<
    Seq<char>,
> {
    let xdg: Seq<Seq<char>> = match config_dir {
        Some(d) => seq![join(join(d, "bridgebot"@), "bridgebot.toml"@)],
        None => Seq::empty(),
    };
    let h: Seq<Seq<char>> = match home {
        Some(d) => seq![join(d, ".bridgebot.toml"@)],
        None => Seq::empty(),
    };
    seq!["bridgebot.toml"@] + xdg + h
}

/// The candidate configuration paths, in the order they are tried.
pub fn config_candidates(config_dir: &Option<String>, home: &Option<String>) -> (r: Vec<String>)
    ensures
        r@.map_values(|s: String| s@) == config_search_order(
            match config_dir {
                Some(d) => Some(d@),
                None => None,
            },
            match home {
                Some(d) => Some(d@),
                None => None,
            },
        ),
{
    let mut v: Vec<String> = Vec::new();
    v.push(string_of(&to_chars("bridgebot.toml")));
    match config_dir {
        Some(d) => {
            let sub = join_exec(d.as_str(), "bridgebot");
            v.push(join_exec(sub.as_str(), "bridgebot.toml"));
        },
        None => {},
    }
    match home {
        Some(h) => {
            v.push(join_exec(h.as_str(), ".bridgebot.toml"));
        },
        None => {},
    }
    let ghost cd = match config_dir {
        Some(d) => Some(d@),
        None => None::<Seq<char>>,
    };
    let ghost hd = match home {
        Some(d) => Some(d@),
        None => None::<Seq<char>>,
    };
    assert(v@.map_values(|s: String| s@) =~= config_search_order(cd, hd));
    v
}

/// The configuration file to use: the explicit one if given, else the
/// first candidate that exists, else `bridgebot.toml`.
pub open spec fn chosen_config(explicit: Option<Seq<char>>, candidates: Seq<Seq<char>>, exists: Seq<bool>) -> Seq<char>
    decreases candidates.len(),
{
    match explicit {
        Some(p) => p,
        None => if candidates.len() == 0 || exists.len() == 0 {
            "bridgebot.toml"@
        } else if exists[0] {
            candidates[0]
        } else {
            chosen_config(None, candidates.drop_first(), exists.drop_first())
        },
    }
}

/// Picks the configuration file: `explicit` if given, else the first of
/// `candidates` for which `exists` holds, else `bridgebot.toml`.
pub fn resolve_config_path(explicit: Option<String>, candidates: &Vec<String>, exists: &Vec<bool>) -> (r: String)
    ensures
        r@ == chosen_config(
            match explicit {
                Some(p) => Some(p@),
                None => None,
            },
            candidates@.map_values(|s: String| s@),
            exists@,
        ),
{
    match explicit {
        Some(p) => p,
        None => {
            let ghost cs = candidates@.map_values(|s: String| s@);
            let mut i: usize = 0;
            assert(cs.skip(0) =~= cs);
            assert(exists@.skip(0) =~= exists@);
            while i < candidates.len() && i < exists.len()
                invariant
                    i <= candidates@.len(),
                    i <= exists@.len(),
                    cs == candidates@.map_values(|s: String| s@),
                    explicit is None,
                    chosen_config(None, cs, exists@) == chosen_config(None, cs.skip(i as int), exists@.skip(i as int)),
                decreases candidates@.len() - i,
            {
                assert(cs.skip(i as int).drop_first() =~= cs.skip(i + 1));
                assert(exists@.skip(i as int).drop_first() =~= exists@.skip(i + 1));
                assert(cs.skip(i as int)[0] == candidates@[i as int]@);
                assert(exists@.skip(i as int)[0] == exists@[i as int]);
                if exists[i] {
                    return candidates[i].clone();
                }
                i = i + 1;
            }
            string_of(&to_chars("bridgebot.toml"))
        },
    }
}

/// The text of a validation error.
pub open spec fn config_error_text(e: ConfigError) -> Seq<char> {
    match e {
        ConfigError::VaultMissing(p) => "vault path does not exist: "@ + p@,
        ConfigError::ProjectsDirMissing(p) => "projects_dir does not exist: "@ + p@,
        ConfigError::EmptyRuleName => "rule name cannot be empty"@,
        ConfigError::EmptyTrigger(n) => "rule '"@ + n@ + "' has empty trigger"@,
        ConfigError::EmptyAction(n) => "rule '"@ + n@ + "' has empty action"@,
        ConfigError::UnknownAction(n, a) => "rule '"@ + n@ + "' has unknown action '"@ + a@
            + "'. Valid actions: notify, link-from-hub, check-links, update-frontmatter, shell"@,
    }
}

impl ConfigError {
    /// The message reported for this error.
    pub fn message(&self) -> (r: String)
        ensures
            r@ == config_error_text(*self),
    {
        let mut out: Vec<char> = Vec::new();
        match self {
            ConfigError::VaultMissing(p) => {
                push_str(&mut out, "vault path does not exist: ");
                push_str(&mut out, p.as_str());
            },
            ConfigError::ProjectsDirMissing(p) => {
                push_str(&mut out, "projects_dir does not exist: ");
                push_str(&mut out, p.as_str());
            },
            ConfigError::EmptyRuleName => {
                push_str(&mut out, "rule name cannot be empty");
            },
            ConfigError::EmptyTrigger(n) => {
                push_str(&mut out, "rule '");
                push_str(&mut out, n.as_str());
                push_str(&mut out, "' has empty trigger");
            },
            ConfigError::EmptyAction(n) => {
                push_str(&mut out, "rule '");
                push_str(&mut out, n.as_str());
                push_str(&mut out, "' has empty action");
            },
            ConfigError::UnknownAction(n, a) => {
                push_str(&mut out, "rule '");
                push_str(&mut out, n.as_str());
                push_str(&mut out, "' has unknown action '");
                push_str(&mut out, a.as_str());
                push_str(&mut out, "'. Valid actions: notify, link-from-hub, check-links, update-frontmatter, shell");
            },
        }
        assert(out@ =~= config_error_text(*self));
        string_of(&out)
    }
}

} // verus!
