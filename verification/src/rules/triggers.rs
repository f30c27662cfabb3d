//! Whether a rule's trigger matches an event.
use vstd::prelude::*;
use crate::config::{Config, RuleConfig};
use crate::text::{contains, str_contains, str_eq};
use crate::vault::Vault;
use crate::watcher::{EventView, VaultEvent};

verus! {

/// Whether `trigger` fires on `event`.  `created_type` is the `type`
/// field of a created note's frontmatter, when the note could be read
/// and has one.
///
/// - on a tick: staleness triggers (mentioning `task.active` and
///   `no_update_days`) and `vault.broken_link`;
/// - on a created file: `output.created` when the note is of type
///   `output`, and `vault.file_saved`;
/// - on a modified file: `vault.file_saved`;
/// - on a removed file: nothing;
/// - on a git ref change: triggers mentioning `git.commit`.
pub open spec fn trigger_matches(trigger: Seq<char>, event: EventView, created_type: Option<Seq<char>>) -> bool {
    match event {
        EventView::Tick => (contains(trigger, "task.active"@) && contains(trigger, "no_update_days"@))
            || trigger == "vault.broken_link"@,
        EventView::Created(_) => (trigger == "output.created"@ && created_type == Some("output"@))
            || trigger == "vault.file_saved"@,
        EventView::Modified(_) => trigger == "vault.file_saved"@,
        EventView::Removed(_) => false,
        EventView::GitRefChanged(_) => contains(trigger, "git.commit"@),
    }
}

/// The view of an optional string.
pub open spec fn opt_view(o: Option<String>) -> Option<Seq<char>> {
    match o {
        Some(s) => Some(s@),
        None => None,
    }
}

/// Staleness checks and the periodic link check fire on ticks.
pub fn matches_tick_trigger(trigger: &str, _vault: &Vault) -> (r: bool)
    ensures
        r == ((contains(trigger@, "task.active"@) && contains(trigger@, "no_update_days"@))
            || trigger@ == "vault.broken_link"@),
{
    if str_contains(trigger, "task.active") && str_contains(trigger, "no_update_days") {
        return true;
    }
    str_eq(trigger, "vault.broken_link")
}

/// `output.created` fires for new notes of type `output`;
/// `vault.file_saved` fires on every created file.
pub fn matches_file_created_trigger(trigger: &str, created_type: &Option<String>, _vault: &Vault) -> (r: bool)
    ensures
        r == ((trigger@ == "output.created"@ && opt_view(*created_type) == Some("output"@))
            || trigger@ == "vault.file_saved"@),
{
    proof {
        reveal_strlit("output.created");
        reveal_strlit("vault.file_saved");
        assert("output.created"@.len() != "vault.file_saved"@.len());
    }
    if str_eq(trigger, "output.created") {
        return match created_type {
            Some(t) => str_eq(t.as_str(), "output"),
            None => false,
        };
    }
    str_eq(trigger, "vault.file_saved")
}

/// `vault.file_saved` fires on every modified file.
pub fn matches_file_modified_trigger(trigger: &str, _vault: &Vault) -> (r: bool)
    ensures
        r == (trigger@ == "vault.file_saved"@),
{
    str_eq(trigger, "vault.file_saved")
}

/// Triggers mentioning `git.commit` fire on git ref changes.
pub fn matches_git_trigger(trigger: &str, _config: &Config) -> (r: bool)
    ensures
        r == contains(trigger@, "git.commit"@),
{
    str_contains(trigger, "git.commit")
}

/// Checks if a rule's trigger matches the current event.
pub fn matches(rule: &RuleConfig, event: &VaultEvent, vault: &Vault, config: &Config, created_type: &Option<String>) -> (r: bool)
    ensures
        r == trigger_matches(rule.trigger@, event@, opt_view(*created_type)),
{
    let trigger = rule.trigger.as_str();
    match event {
        VaultEvent::Tick => matches_tick_trigger(trigger, vault),
        VaultEvent::FileCreated(_) => matches_file_created_trigger(trigger, created_type, vault),
        VaultEvent::FileModified(_) => matches_file_modified_trigger(trigger, vault),
        VaultEvent::FileRemoved(_) => false,
        VaultEvent::GitRefChanged(_) => matches_git_trigger(trigger, config),
    }
}

/// A git ref change fires a trigger exactly when the trigger mentions
/// `git.commit`, whatever the ref's path.
pub proof fn lemma_git_change_fires_commit_triggers(trigger: Seq<char>, path: Seq<char>, created_type: Option<Seq<char>>)
    ensures
        trigger_matches(trigger, EventView::GitRefChanged(path), created_type) == contains(trigger, "git.commit"@),
{
}

/// `vault.file_saved` fires on created and modified files, and on nothing
/// else: not on removals, ticks or git ref changes.
pub proof fn lemma_file_saved_fires_on_saves(path: Seq<char>, created_type: Option<Seq<char>>)
    ensures
        trigger_matches("vault.file_saved"@, EventView::Created(path), created_type),
        trigger_matches("vault.file_saved"@, EventView::Modified(path), created_type),
        !trigger_matches("vault.file_saved"@, EventView::Removed(path), created_type),
        !trigger_matches("vault.file_saved"@, EventView::Tick, created_type),
        !trigger_matches("vault.file_saved"@, EventView::GitRefChanged(path), created_type),
{
    reveal_strlit("vault.file_saved");
    reveal_strlit("git.commit");
    reveal_strlit("task.active");
    reveal_strlit("vault.broken_link");
    let t = "vault.file_saved"@;
    let g = "git.commit"@;
    crate::text::lemma_find_from(t, g, 0);
    assert forall|j: int| 0 <= j implies !crate::text::occurs_at(t, j, g) by {
        if crate::text::occurs_at(t, j, g) {
            assert(t.subrange(j, j + 10)[0] == t[j]);
            assert(t.subrange(j, j + 10)[1] == t[j + 1]);
            assert(t.subrange(j, j + 10)[2] == t[j + 2]);
        }
    }
    crate::text::lemma_find_from(t, "task.active"@, 0);
    assert forall|j: int| 0 <= j implies !crate::text::occurs_at(t, j, "task.active"@) by {
        if crate::text::occurs_at(t, j, "task.active"@) {
            assert(t.subrange(j, j + 11)[0] == t[j]);
            assert(t.subrange(j, j + 11)[1] == t[j + 1]);
        }
    }
    assert(t.len() != "vault.broken_link"@.len());
}

/// Which file is concerned never matters, except through the type of a
/// created note: events of the same kind fire the same triggers.
pub proof fn lemma_event_path_irrelevant(trigger: Seq<char>, p1: Seq<char>, p2: Seq<char>, created_type: Option<Seq<char>>)
    ensures
        trigger_matches(trigger, EventView::Created(p1), created_type) == trigger_matches(trigger, EventView::Created(p2), created_type),
        trigger_matches(trigger, EventView::Modified(p1), created_type) == trigger_matches(trigger, EventView::Modified(p2), created_type),
        trigger_matches(trigger, EventView::Removed(p1), created_type) == trigger_matches(trigger, EventView::Removed(p2), created_type),
        trigger_matches(trigger, EventView::GitRefChanged(p1), created_type) == trigger_matches(trigger, EventView::GitRefChanged(p2), created_type),
{
}

} // verus!
