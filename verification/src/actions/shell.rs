//! The `shell` action: the command to run, with its template variables
//! filled in.
use vstd::prelude::*;
use crate::config::RuleConfig;
use crate::paths::{stem_or, stem_or_exec};
use crate::text::{to_chars, string_of, push_str, replace_all, replace_chars, contains, lemma_replace_all_absent};
use crate::vault::Vault;
use crate::watcher::{EventView, VaultEvent};

verus! {

/// The path an event is about, if any.
pub open spec fn event_path(e: EventView) -> Option<Seq<char>> {
    match e {
        EventView::Created(p) => Some(p),
        EventView::Modified(p) => Some(p),
        EventView::Removed(p) => Some(p),
        EventView::GitRefChanged(p) => Some(p),
        EventView::Tick => None,
    }
}

/// The command with `{vault}` replaced by the vault root, then, for an
/// event about a file, `{file}` by its path and `{file.name}` by its
/// stem (empty when it has none).
pub open spec fn substituted(command: Seq<char>, event: EventView, root: Seq<char>) -> Seq<char> {
    let r = replace_all(command, "{vault}"@, root);
    match event_path(event) {
        Some(p) => replace_all(replace_all(r, "{file}"@, p), "{file.name}"@, stem_or(p, ""@)),
        None => r,
    }
}

/// Fills in the template variables of a shell command.
pub fn substitute(command: &str, event: &VaultEvent, vault: &Vault) -> (r: String)
    ensures
        r@ == substituted(command@, event@, vault.root@),
{
    proof {
        reveal_strlit("{vault}");
        reveal_strlit("{file}");
        reveal_strlit("{file.name}");
    }
    let c = to_chars(command);
    let r = replace_chars(&c, &to_chars("{vault}"), &to_chars(vault.root.as_str()));
    let path: Option<&String> = match event {
        VaultEvent::FileCreated(p) | VaultEvent::FileModified(p) | VaultEvent::FileRemoved(p)
        | VaultEvent::GitRefChanged(p) => Some(p),
        VaultEvent::Tick => None,
    };
    match path {
        Some(p) => {
            let r2 = replace_chars(&r, &to_chars("{file}"), &to_chars(p.as_str()));
            let stem = stem_or_exec(p.as_str(), "");
            let r3 = replace_chars(&r2, &to_chars("{file.name}"), &to_chars(stem.as_str()));
            string_of(&r3)
        },
        None => string_of(&r),
    }
}

/// Why a shell action cannot run.
pub enum ShellError {
    /// The named rule has action `shell` but no `command`.
    NoCommand(String),
}

/// The command a shell rule runs for an event, with its variables filled
/// in; the rule's name when it has no command.
pub fn shell_command(rule: &RuleConfig, event: &VaultEvent, vault: &Vault) -> (r: Result<String, ShellError>)
    ensures
        match rule.command {
            Some(c) => r matches Ok(s) && s@ == substituted(c@, event@, vault.root@),
            None => r matches Err(ShellError::NoCommand(n)) && n == rule.name,
        },
{
    match &rule.command {
        Some(c) => Ok(substitute(c.as_str(), event, vault)),
        None => Err(ShellError::NoCommand(rule.name.clone())),
    }
}

/// A command that mentions none of the template variables runs as
/// written.
pub proof fn lemma_plain_command_unchanged(command: Seq<char>, event: EventView, root: Seq<char>)
    requires
        !contains(command, "{vault}"@),
        !contains(command, "{file}"@),
        !contains(command, "{file.name}"@),
    ensures
        substituted(command, event, root) == command,
{
    reveal_strlit("{vault}");
    reveal_strlit("{file}");
    reveal_strlit("{file.name}");
    lemma_replace_all_absent(command, "{vault}"@, root);
    match event_path(event) {
        Some(p) => {
            lemma_replace_all_absent(command, "{file}"@, p);
            lemma_replace_all_absent(command, "{file.name}"@, stem_or(p, ""@));
        },
        None => {},
    }
}

/// The text of a shell error.
pub open spec fn shell_error_text(e: ShellError) -> Seq<char> {
    match e {
        ShellError::NoCommand(n) => "rule '"@ + n@ + "' has action 'shell' but no 'command' field"@,
    }
}

impl ShellError {
    /// The message reported for this error.
    pub fn message(&self) -> (r: String)
        ensures
            r@ == shell_error_text(*self),
    {
        let mut out: Vec<char> = Vec::new();
        match self {
            ShellError::NoCommand(n) => {
                push_str(&mut out, "rule '");
                push_str(&mut out, n.as_str());
                push_str(&mut out, "' has action 'shell' but no 'command' field");
            },
        }
        assert(out@ =~= shell_error_text(*self));
        string_of(&out)
    }
}

} // verus!
