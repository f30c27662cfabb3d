//! Actions that rules perform, and the decisions behind each of them.
pub mod check_links;
pub mod link_from_hub;
pub mod notify_action;
pub mod shell;
pub mod update_frontmatter;

use vstd::prelude::*;
use crate::text::{str_eq, string_of, push_str};
use crate::config::{Config, RuleConfig, is_valid_action, rule_error, rules_error, validation};

verus! {

/// The actions a rule can perform.
#[derive(Clone, Copy, PartialEq, Eq, Structural)]
pub enum ActionKind {
    Notify,
    CheckLinks,
    LinkFromHub,
    UpdateFrontmatter,
    Shell,
}

/// The action a rule's `action` string names, if it names one.
pub open spec fn action_named(a: Seq<char>) -> Option<ActionKind> {
    if a == "notify"@ {
        Some(ActionKind::Notify)
    } else if a == "check-links"@ {
        Some(ActionKind::CheckLinks)
    } else if a == "link-from-hub"@ {
        Some(ActionKind::LinkFromHub)
    } else if a == "update-frontmatter"@ {
        Some(ActionKind::UpdateFrontmatter)
    } else if a == "shell"@ {
        Some(ActionKind::Shell)
    } else {
        None
    }
}

/// Dispatches on a rule's action string: the action it names, or none
/// for an unknown action.
pub fn action_kind(action: &str) -> (r: Option<ActionKind>)
    ensures
        r == action_named(action@),
{
    if str_eq(action, "notify") {
        Some(ActionKind::Notify)
    } else if str_eq(action, "check-links") {
        Some(ActionKind::CheckLinks)
    } else if str_eq(action, "link-from-hub") {
        Some(ActionKind::LinkFromHub)
    } else if str_eq(action, "update-frontmatter") {
        Some(ActionKind::UpdateFrontmatter)
    } else if str_eq(action, "shell") {
        Some(ActionKind::Shell)
    } else {
        None
    }
}

/// Every action that validation accepts is one the dispatcher knows.
pub proof fn lemma_valid_actions_dispatch(a: Seq<char>)
    requires
        is_valid_action(a),
    ensures
        action_named(a) is Some,
{
}

proof fn lemma_rules_error_none(rules: Seq<RuleConfig>)
    requires
        rules_error(rules) is None,
    ensures
        forall|k: int| 0 <= k < rules.len() ==> rule_error(#[trigger] rules[k]) is None,
    decreases rules.len(),
{
    if rules.len() > 0 {
        lemma_rules_error_none(rules.drop_first());
        assert forall|k: int| 0 <= k < rules.len() implies rule_error(#[trigger] rules[k]) is None by {
            if k > 0 {
                assert(rules[k] == rules.drop_first()[k - 1]);
            }
        }
    }
}

/// A configuration that passes validation never meets an unknown action
/// at dispatch: every one of its rules names an action.
pub proof fn lemma_valid_config_dispatches(config: Config, vault_exists: bool, projects_dir_exists: bool)
    requires
        validation(config, vault_exists, projects_dir_exists) is Ok,
    ensures
        forall|k: int| 0 <= k < config.rules@.len() ==> action_named(#[trigger] config.rules@[k].action@) is Some,
{
    lemma_rules_error_none(config.rules@);
    assert forall|k: int| 0 <= k < config.rules@.len() implies action_named(#[trigger] config.rules@[k].action@) is Some by {
        assert(rule_error(config.rules@[k]) is None);
        lemma_valid_actions_dispatch(config.rules@[k].action@);
    }
}

/// Why a rule's action cannot be dispatched.
pub enum DispatchError {
    /// The rule names this action, which is none of the known ones.
    UnknownAction(String),
}

/// The text of a dispatch error.
pub open spec fn dispatch_error_text(e: DispatchError) -> Seq<char> {
    match e {
        DispatchError::UnknownAction(a) => "unknown action: "@ + a@,
    }
}

impl DispatchError {
    /// The message reported for this error.
    pub fn message(&self) -> (r: String)
        ensures
            r@ == dispatch_error_text(*self),
    {
        let mut out: Vec<char> = Vec::new();
        match self {
            DispatchError::UnknownAction(a) => {
                push_str(&mut out, "unknown action: ");
                push_str(&mut out, a.as_str());
            },
        }
        assert(out@ =~= dispatch_error_text(*self));
        string_of(&out)
    }
}

/// Dispatches a rule's action: the action it names, or the error for an
/// unknown one (no action runs then).
pub fn dispatch(action: &str) -> (r: Result<ActionKind, DispatchError>)
    ensures
        match action_named(action@) {
            Some(k) => r == Ok::<ActionKind, DispatchError>(k),
            None => r matches Err(DispatchError::UnknownAction(a)) && a@ == action@,
        },
{
    match action_kind(action) {
        Some(k) => Ok(k),
        None => Err(DispatchError::UnknownAction(string_of(&crate::text::to_chars(action)))),
    }
}

} // verus!
