//! The `update-frontmatter` action: which field to set, and on which
//! notes.
use vstd::prelude::*;
use crate::config::RuleConfig;
use crate::paths::{file_name, file_name_exec};
use crate::rules::triggers::opt_view;
use crate::text::{to_chars, string_of, str_eq};
use crate::vault::notes::{NoteInfo, Timestamp};
use crate::watcher::{EventView, VaultEvent};

verus! {

/// The field a rule updates: its `field`, else `updated`.
pub open spec fn field_of(rule: RuleConfig) -> Seq<char> {
    match rule.field {
        Some(f) => f@,
        None => "updated"@,
    }
}

/// The field a rule updates.
pub fn field_to_update(rule: &RuleConfig) -> (r: String)
    ensures
        r@ == field_of(*rule),
{
    match &rule.field {
        Some(f) => f.clone(),
        None => string_of(&to_chars("updated")),
    }
}

/// The notes an update-frontmatter rule acts on for an event.
pub enum UpdateTarget {
    /// The active tasks of the project whose git ref changed (the ref's path).
    GitActivity(String),
    /// The created or modified note itself.
    File(String),
    /// Nothing, for other events.
    Nothing,
}

/// An update-frontmatter action: the field to set, the value to set it
/// to (today's date; none when the clock's instant has no calendar date
/// chrono can represent) and where.
pub struct UpdatePlan {
    pub field: String,
    pub value: Option<String>,
    pub target: UpdateTarget,
}

/// The UTC calendar date of the instant `secs` seconds and `nanos`
/// nanoseconds after the Unix epoch, written `%Y-%m-%d` by chrono; none
/// when chrono cannot represent the instant.
pub uninterp spec fn utc_ymd(secs: i64, nanos: u32) -> Option<Seq<char>>;

/// Calls `chrono::DateTime::<Utc>::from_timestamp(secs, nanos)` and
/// formats the result with `%Y-%m-%d`; the result is the one named by
/// `utc_ymd`.
#[verifier::external_body]
fn format_utc_ymd(secs: i64, nanos: u32) -> (r: Option<String>)
    ensures
        match r {
            Some(s) => utc_ymd(secs, nanos) == Some(s@),
            None => utc_ymd(secs, nanos) is None,
        },
{
    chrono::DateTime::from_timestamp(secs, nanos).map(|d| d.format("%Y-%m-%d").to_string())
}

/// The target of an update, as plain values.
pub enum UpdateTargetView {
    GitActivity(Seq<char>),
    File(Seq<char>),
    Nothing,
}

impl View for UpdateTarget {
    type V = UpdateTargetView;

    open spec fn view(&self) -> UpdateTargetView {
        match self {
            UpdateTarget::GitActivity(p) => UpdateTargetView::GitActivity(p@),
            UpdateTarget::File(p) => UpdateTargetView::File(p@),
            UpdateTarget::Nothing => UpdateTargetView::Nothing,
        }
    }
}

/// What an update-frontmatter rule does on an event: a git ref change
/// touches the project's active tasks, a created or modified note is
/// updated itself, other events change nothing.
pub open spec fn update_target_for(event: EventView) -> UpdateTargetView {
    match event {
        EventView::GitRefChanged(p) => UpdateTargetView::GitActivity(p),
        EventView::Created(p) => UpdateTargetView::File(p),
        EventView::Modified(p) => UpdateTargetView::File(p),
        _ => UpdateTargetView::Nothing,
    }
}

/// The update-frontmatter action: the field to set (the rule's `field`,
/// else `updated`), the value (the UTC date of `now`, `%Y-%m-%d`) and the
/// notes to set it on for this event.
pub fn run(rule: &RuleConfig, event: &VaultEvent, now: Timestamp) -> (r: UpdatePlan)
    ensures
        r.field@ == field_of(*rule),
        opt_view(r.value) == utc_ymd(now.secs, now.nanos),
        r.target@ == update_target_for(event@),
{
    let field = field_to_update(rule);
    let value = format_utc_ymd(now.secs, now.nanos);
    let target = match event {
        VaultEvent::GitRefChanged(p) => UpdateTarget::GitActivity(p.clone()),
        VaultEvent::FileCreated(p) | VaultEvent::FileModified(p) => UpdateTarget::File(p.clone()),
        _ => UpdateTarget::Nothing,
    };
    UpdatePlan { field, value, target }
}

/// The path is a `.git` directory.
pub open spec fn is_git_dir(p: Seq<char>) -> bool {
    file_name(p) == Some(".git"@)
}

/// The first ancestor, from index `k` on, that holds a `.git` entry or
/// is itself a `.git` directory.
pub open spec fn repo_ancestor(ancestors: Seq<Seq<char>>, has_git: Seq<bool>, k: int) -> Option<int>
    decreases ancestors.len() - k,
{
    if k < 0 || k >= ancestors.len() {
        None
    } else if (k < has_git.len() && has_git[k]) || is_git_dir(ancestors[k]) {
        Some(k)
    } else {
        repo_ancestor(ancestors, has_git, k + 1)
    }
}

/// The project a git ref path belongs to: the name of the repository
/// directory found among the path's ancestors (`ancestors[0]` is the path
/// itself, each next one the parent of the previous; `has_git[k]` tells
/// whether `ancestors[k]/.git` exists).  When the ancestor found is the
/// `.git` directory, its parent is the repository.
pub open spec fn project_of_ref(ancestors: Seq<Seq<char>>, has_git: Seq<bool>) -> Option<Seq<char>> {
    match repo_ancestor(ancestors, has_git, 0) {
        None => None,
        Some(k) => {
            let repo: Option<Seq<char>> = if is_git_dir(ancestors[k]) {
                if k + 1 < ancestors.len() {
                    Some(ancestors[k + 1])
                } else {
                    None
                }
            } else {
                Some(ancestors[k])
            };
            match repo {
                Some(r) => file_name(r),
                None => None,
            }
        },
    }
}

fn is_git_dir_exec(p: &str) -> (r: bool)
    ensures
        r == is_git_dir(p@),
{
    match file_name_exec(p) {
        Some(n) => str_eq(n.as_str(), ".git"),
        None => false,
    }
}

/// The project name behind a git ref change.
pub fn project_name(ancestors: &Vec<String>, has_git: &Vec<bool>) -> (r: Option<String>)
    ensures
        match project_of_ref(ancestors@.map_values(|s: String| s@), has_git@) {
            Some(n) => r matches Some(s) && s@ == n,
            None => r is None,
        },
{
    let ghost anc = ancestors@.map_values(|s: String| s@);
    let mut k: usize = 0;
    while k < ancestors.len()
        invariant
            k <= ancestors@.len(),
            anc == ancestors@.map_values(|s: String| s@),
            repo_ancestor(anc, has_git@, 0) == repo_ancestor(anc, has_git@, k as int),
        decreases ancestors@.len() - k,
    {
        let git_here = k < has_git.len() && has_git[k];
        let dot_git = is_git_dir_exec(ancestors[k].as_str());
        assert(anc[k as int] == ancestors@[k as int]@);
        if git_here || dot_git {
            let repo: Option<&String> = if dot_git {
                if k + 1 < ancestors.len() {
                    assert(anc[k + 1] == ancestors@[k + 1]@);
                    Some(&ancestors[k + 1])
                } else {
                    None
                }
            } else {
                Some(&ancestors[k])
            };
            return match repo {
                Some(r) => file_name_exec(r.as_str()),
                None => None,
            };
        }
        k = k + 1;
    }
    None
}

/// A task is touched by git activity in `project` when it belongs to that
/// project and is active.
pub open spec fn touched(t: NoteInfo, project: Seq<char>) -> bool {
    opt_view(t.frontmatter.project) == Some(project) && opt_view(t.frontmatter.status) == Some("active"@)
}

/// The paths, in order, of the tasks from the `i`-th on that are touched.
pub open spec fn touched_tasks(tasks: Seq<NoteInfo>, project: Seq<char>, i: int) -> Seq<Seq<char>>
    decreases tasks.len() - i,
{
    if i < 0 || i >= tasks.len() {
        Seq::empty()
    } else if touched(tasks[i], project) {
        seq![tasks[i].path@] + touched_tasks(tasks, project, i + 1)
    } else {
        touched_tasks(tasks, project, i + 1)
    }
}

/// The task notes to update after git activity in `project`: the active
/// tasks of that project, in order.  The branch that changed is not
/// consulted: every active task of the project is touched.
pub fn tasks_to_touch(tasks: &Vec<NoteInfo>, project: &str) -> (r: Vec<String>)
    ensures
        r@.map_values(|s: String| s@) == touched_tasks(tasks@, project@, 0),
{
    let mut out: Vec<String> = Vec::new();
    let mut i: usize = 0;
    while i < tasks.len()
        invariant
            i <= tasks@.len(),
            out@.map_values(|s: String| s@) + touched_tasks(tasks@, project@, i as int) == touched_tasks(tasks@, project@, 0),
        decreases tasks@.len() - i,
    {
        let t = &tasks[i];
        let same_project = match &t.frontmatter.project {
            Some(p) => str_eq(p.as_str(), project),
            None => false,
        };
        let active = match &t.frontmatter.status {
            Some(st) => str_eq(st.as_str(), "active"),
            None => false,
        };
        let ghost prev = out@.map_values(|s: String| s@);
        if same_project && active {
            out.push(t.path.clone());
            assert(out@.map_values(|s: String| s@) =~= prev.push(t.path@));
            assert(prev + (seq![t.path@] + touched_tasks(tasks@, project@, i + 1)) =~= out@.map_values(|s: String| s@) + touched_tasks(tasks@, project@, i + 1));
        }
        i = i + 1;
    }
    assert(out@.map_values(|s: String| s@) + Seq::<Seq<char>>::empty() =~= out@.map_values(|s: String| s@));
    out
}

} // verus!
