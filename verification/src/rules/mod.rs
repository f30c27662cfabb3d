//! Evaluating the configured rules against an event.
pub mod triggers;

use vstd::prelude::*;
use crate::config::{Config, RuleConfig};
use crate::text::str_eq;
use crate::vault::Vault;
use crate::watcher::VaultEvent;
use crate::rules::triggers::{opt_view, trigger_matches};

verus! {

/// A rule takes part unless it is explicitly disabled.
pub open spec fn is_enabled(r: RuleConfig) -> bool {
    r.enabled != Some(false)
}

/// Whether one rule fires on an event: it is enabled and its trigger
/// matches.
pub fn rule_fires(rule: &RuleConfig, event: &VaultEvent, vault: &Vault, config: &Config, created_type: &Option<String>) -> (r: bool)
    ensures
        r == (is_enabled(*rule) && trigger_matches(rule.trigger@, event@, opt_view(*created_type))),
{
    let enabled = match rule.enabled {
        Some(b) => b,
        None => true,
    };
    enabled && crate::rules::triggers::matches(rule, event, vault, config, created_type)
}

/// The indices, in order, of the enabled rules whose trigger matches.
pub open spec fn fired(rules: Seq<RuleConfig>, event: crate::watcher::EventView, created_type: Option<Seq<char>>, i: int) -> Seq<usize>
    decreases rules.len() - i,
{
    if i < 0 || i >= rules.len() {
        Seq::empty()
    } else if is_enabled(rules[i]) && trigger_matches(rules[i].trigger@, event, created_type) {
        seq![i as usize] + fired(rules, event, created_type, i + 1)
    } else {
        fired(rules, event, created_type, i + 1)
    }
}

/// The rules to run for an event: the indices, in configuration order,
/// of the enabled rules whose trigger matches it.
pub fn triggered_rules(config: &Config, event: &VaultEvent, created_type: &Option<String>) -> (r: Vec<usize>)
    ensures
        r@ == fired(config.rules@, event@, opt_view(*created_type), 0),
{
    let vault = Vault::new(config.daemon.vault.clone(), config.daemon.ignore.clone());
    let mut out: Vec<usize> = Vec::new();
    let mut i: usize = 0;
    while i < config.rules.len()
        invariant
            i <= config.rules@.len(),
            out@ + fired(config.rules@, event@, opt_view(*created_type), i as int) == fired(
                config.rules@,
                event@,
                opt_view(*created_type),
                0,
            ),
        decreases config.rules@.len() - i,
    {
        let rule = &config.rules[i];
        let enabled = match rule.enabled {
            Some(b) => b,
            None => true,
        };
        if enabled && crate::rules::triggers::matches(rule, event, &vault, config, created_type) {
            let ghost prev = out@;
            out.push(i);
            assert(prev + (seq![i as usize] + fired(config.rules@, event@, opt_view(*created_type), i + 1))
                =~= out@ + fired(config.rules@, event@, opt_view(*created_type), i + 1));
        }
        i = i + 1;
    }
    assert(out@ + Seq::<usize>::empty() =~= out@);
    out
}

/// The rules that ask for a vault-wide link check: enabled `check-links`
/// rules whose scope is not `changed-file`.
pub open spec fn wants_full_check(r: RuleConfig) -> bool {
    is_enabled(r) && r.action@ == "check-links"@ && opt_view(r.scope) != Some("changed-file"@)
}

/// The indices, in order, of the rules that ask for a vault-wide check.
pub open spec fn full_checks(rules: Seq<RuleConfig>, i: int) -> Seq<usize>
    decreases rules.len() - i,
{
    if i < 0 || i >= rules.len() {
        Seq::empty()
    } else if wants_full_check(rules[i]) {
        seq![i as usize] + full_checks(rules, i + 1)
    } else {
        full_checks(rules, i + 1)
    }
}

/// The rules for which a one-shot run performs a vault-wide link check.
pub fn full_link_check_rules(config: &Config) -> (r: Vec<usize>)
    ensures
        r@ == full_checks(config.rules@, 0),
{
    let mut out: Vec<usize> = Vec::new();
    let mut i: usize = 0;
    while i < config.rules.len()
        invariant
            i <= config.rules@.len(),
            out@ + full_checks(config.rules@, i as int) == full_checks(config.rules@, 0),
        decreases config.rules@.len() - i,
    {
        let rule = &config.rules[i];
        let enabled = match rule.enabled {
            Some(b) => b,
            None => true,
        };
        let scoped = match &rule.scope {
            Some(s) => str_eq(s.as_str(), "changed-file"),
            None => false,
        };
        if enabled && str_eq(rule.action.as_str(), "check-links") && !scoped {
            let ghost prev = out@;
            out.push(i);
            assert(prev + (seq![i as usize] + full_checks(config.rules@, i + 1)) =~= out@
                + full_checks(config.rules@, i + 1));
        }
        i = i + 1;
    }
    assert(out@ + Seq::<usize>::empty() =~= out@);
    out
}

/// A rule fires on an event exactly when it is enabled and its trigger
/// matches: the fired indices are those rules, each once, in increasing
/// order.
pub proof fn lemma_fired_exactly(rules: Seq<RuleConfig>, event: crate::watcher::EventView, created_type: Option<Seq<char>>, i: int)
    requires
        0 <= i <= rules.len() <= usize::MAX,
    ensures
        forall|k: int| 0 <= k < rules.len() ==> (fired(rules, event, created_type, i).contains(k as usize)
            <==> (i <= k && is_enabled(rules[k]) && trigger_matches(rules[k].trigger@, event, created_type))),
        forall|a: int, b: int| 0 <= a < b < fired(rules, event, created_type, i).len() ==>
            fired(rules, event, created_type, i)[a] < fired(rules, event, created_type, i)[b],
        forall|a: int| 0 <= a < fired(rules, event, created_type, i).len() ==>
            i <= #[trigger] fired(rules, event, created_type, i)[a] < rules.len(),
    decreases rules.len() - i,
{
    if i < rules.len() {
        lemma_fired_exactly(rules, event, created_type, i + 1);
        let rest = fired(rules, event, created_type, i + 1);
        let all = fired(rules, event, created_type, i);
        if is_enabled(rules[i]) && trigger_matches(rules[i].trigger@, event, created_type) {
            assert(all =~= seq![i as usize] + rest);
            assert forall|a: int| 0 <= a < all.len() implies i <= #[trigger] all[a] < rules.len() by {
                if a > 0 {
                    assert(all[a] == rest[a - 1]);
                }
            }
            assert forall|a: int, b: int| 0 <= a < b < all.len() implies all[a] < all[b] by {
                assert(all[b] == rest[b - 1]);
                if a > 0 {
                    assert(all[a] == rest[a - 1]);
                } else {
                    assert(i + 1 <= rest[b - 1]);
                }
            }
            assert forall|k: int| 0 <= k < rules.len() implies (all.contains(k as usize)
                <==> (i <= k && is_enabled(rules[k]) && trigger_matches(rules[k].trigger@, event, created_type))) by {
                if all.contains(k as usize) {
                    let a = choose|a: int| 0 <= a < all.len() && all[a] == k as usize;
                    if a > 0 {
                        assert(rest[a - 1] == all[a]);
                        assert(rest.contains(k as usize));
                    }
                }
                if i <= k && is_enabled(rules[k]) && trigger_matches(rules[k].trigger@, event, created_type) {
                    if k == i {
                        assert(all[0] == k as usize);
                    } else {
                        assert(rest.contains(k as usize));
                        let a = choose|a: int| 0 <= a < rest.len() && rest[a] == k as usize;
                        assert(all[a + 1] == k as usize);
                    }
                }
            }
        } else {
            assert(all == rest);
            assert forall|k: int| 0 <= k < rules.len() implies (all.contains(k as usize)
                <==> (i <= k && is_enabled(rules[k]) && trigger_matches(rules[k].trigger@, event, created_type))) by {
                if all.contains(k as usize) {
                    assert(rest.contains(k as usize));
                }
            }
        }
    }
}

/// A disabled rule never fires, whatever the event.
pub proof fn lemma_disabled_rule_never_fires(rules: Seq<RuleConfig>, event: crate::watcher::EventView, created_type: Option<Seq<char>>, k: int)
    requires
        0 <= k < rules.len() <= usize::MAX,
        rules[k].enabled == Some(false),
    ensures
        !fired(rules, event, created_type, 0).contains(k as usize),
{
    lemma_fired_exactly(rules, event, created_type, 0);
}

/// Removing a file fires no rule: no trigger reacts to removals.
pub proof fn lemma_removal_fires_nothing(rules: Seq<RuleConfig>, path: Seq<char>, created_type: Option<Seq<char>>, i: int)
    ensures
        fired(rules, crate::watcher::EventView::Removed(path), created_type, i).len() == 0,
    decreases rules.len() - i,
{
    if 0 <= i < rules.len() {
        lemma_removal_fires_nothing(rules, path, created_type, i + 1);
    }
}

/// A rule that asks for a vault-wide link check is one whose
/// check-links action covers the whole vault, whatever the event.
pub proof fn lemma_full_check_rules_check_whole_vault(rules: Seq<RuleConfig>, k: int, event: crate::watcher::EventView)
    requires
        0 <= k < rules.len() <= usize::MAX,
        full_checks(rules, 0).contains(k as usize),
    ensures
        crate::actions::action_named(rules[k].action@) == Some(crate::actions::ActionKind::CheckLinks),
        crate::actions::check_links::link_check_for(rules[k], event) == crate::actions::check_links::LinkCheckView::WholeVault,
{
    lemma_full_checks_members(rules, 0);
    reveal_strlit("check-links");
    reveal_strlit("notify");
    assert(wants_full_check(rules[k]));
    assert("check-links"@.len() != "notify"@.len());
}

proof fn lemma_full_checks_members(rules: Seq<RuleConfig>, i: int)
    requires
        0 <= i,
        rules.len() <= usize::MAX,
    ensures
        forall|k: int| 0 <= k < rules.len() && #[trigger] full_checks(rules, i).contains(k as usize) ==> wants_full_check(rules[k]),
    decreases rules.len() - i,
{
    if i < rules.len() {
        lemma_full_checks_members(rules, i + 1);
        let all = full_checks(rules, i);
        let rest = full_checks(rules, i + 1);
        assert forall|k: int| 0 <= k < rules.len() && #[trigger] all.contains(k as usize) implies wants_full_check(rules[k]) by {
            let a = choose|a: int| 0 <= a < all.len() && all[a] == k as usize;
            if wants_full_check(rules[i]) {
                assert(all == seq![i as usize] + rest);
                if a > 0 {
                    assert(rest[a - 1] == all[a]);
                    assert(rest.contains(k as usize));
                }
            } else {
                assert(all == rest);
                assert(rest.contains(k as usize));
            }
        }
    }
}

/// On a git ref change, the rules that fire are exactly the enabled ones
/// whose trigger mentions `git.commit`.
pub proof fn lemma_git_change_fires(rules: Seq<RuleConfig>, path: Seq<char>, created_type: Option<Seq<char>>, k: int)
    requires
        0 <= k < rules.len() <= usize::MAX,
    ensures
        fired(rules, crate::watcher::EventView::GitRefChanged(path), created_type, 0).contains(k as usize)
            <==> (rules[k].enabled != Some(false) && crate::text::contains(rules[k].trigger@, "git.commit"@)),
{
    lemma_fired_exactly(rules, crate::watcher::EventView::GitRefChanged(path), created_type, 0);
    crate::rules::triggers::lemma_git_change_fires_commit_triggers(rules[k].trigger@, path, created_type);
}

} // verus!
