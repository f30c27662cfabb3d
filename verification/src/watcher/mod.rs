//! Events of the daemon, and which file-system notifications become
//! vault events.
use vstd::prelude::*;
use crate::text::{to_chars, string_of, chars_eq};
use crate::paths::{file_name, ext_of_name, file_name_exec, has_extension};

verus! {

/// Events the daemon reacts to.
pub enum VaultEvent {
    /// A file in the vault was created.
    FileCreated(String),
    /// A file in the vault was modified.
    FileModified(String),
    /// A file in the vault was removed.
    FileRemoved(String),
    /// A git ref changed (branch switch, commit, ...).
    GitRefChanged(String),
    /// Periodic tick for time-based checks.
    Tick,
}

/// A vault event as plain values.
pub enum EventView {
    Created(Seq<char>),
    Modified(Seq<char>),
    Removed(Seq<char>),
    GitRefChanged(Seq<char>),
    Tick,
}

impl View for VaultEvent {
    type V = EventView;

    open spec fn view(&self) -> EventView {
        match self {
            VaultEvent::FileCreated(p) => EventView::Created(p@),
            VaultEvent::FileModified(p) => EventView::Modified(p@),
            VaultEvent::FileRemoved(p) => EventView::Removed(p@),
            VaultEvent::GitRefChanged(p) => EventView::GitRefChanged(p@),
            VaultEvent::Tick => EventView::Tick,
        }
    }
}

/// The kind of a file-system notification.
pub enum FsEventKind {
    Create,
    Modify,
    Remove,
    Other,
}

/// `p[i..j]` is one piece of `p` between separators.
pub open spec fn is_segment(p: Seq<char>, i: int, j: int) -> bool {
    &&& 0 <= i <= j <= p.len()
    &&& (i == 0 || p[i - 1] == '/')
    &&& (j == p.len() || p[j] == '/')
    &&& forall|k: int| i <= k < j ==> p[k] != '/'
}

/// `s` is one of the ignore patterns.
pub open spec fn listed(ignore: Seq<String>, s: Seq<char>) -> bool {
    exists|k: int| 0 <= k < ignore.len() && ignore[k]@ == s
}

/// Some component of the path (as `Path::components` yields them: the
/// root `/`, a leading `.`, and every non-empty piece other than `.`)
/// is one of the ignore patterns.
pub open spec fn has_ignored_component(p: Seq<char>, ignore: Seq<String>) -> bool {
    ||| (p.len() > 0 && p[0] == '/' && listed(ignore, "/"@))
    ||| (p.len() > 0 && p[0] == '.' && (p.len() == 1 || p[1] == '/') && listed(ignore, "."@))
    ||| exists|i: int, j: int|
        is_segment(p, i, j) && j > i && p.subrange(i, j) != "."@ && listed(ignore, p.subrange(i, j))
}

/// The path names a markdown file.
pub open spec fn is_markdown_path(p: Seq<char>) -> bool {
    match file_name(p) {
        Some(n) => ext_of_name(n) == Some("md"@),
        None => false,
    }
}

/// The vault event for a notification about `path`: none for ignored
/// paths, non-markdown files, and kinds other than create, modify and
/// remove.
pub open spec fn vault_event_for(kind: FsEventKind, path: Seq<char>, ignore: Seq<String>) -> Option<EventView> {
    if has_ignored_component(path, ignore) || !is_markdown_path(path) {
        None
    } else {
        match kind {
            FsEventKind::Create => Some(EventView::Created(path)),
            FsEventKind::Modify => Some(EventView::Modified(path)),
            FsEventKind::Remove => Some(EventView::Removed(path)),
            FsEventKind::Other => None,
        }
    }
}

/// Whether `s` is one of the ignore patterns.
pub fn is_listed(ignore: &Vec<String>, s: &Vec<char>) -> (r: bool)
    ensures
        r == listed(ignore@, s@),
{
    let mut k: usize = 0;
    while k < ignore.len()
        invariant
            k <= ignore@.len(),
            forall|m: int| 0 <= m < k ==> ignore@[m]@ != s@,
        decreases ignore.len() - k,
    {
        let c = to_chars(ignore[k].as_str());
        if chars_eq(&c, s) {
            return true;
        }
        k = k + 1;
    }
    false
}

/// Whether a component of `path` is ignored.
pub fn path_is_ignored(path: &str, ignore: &Vec<String>) -> (r: bool)
    ensures
        r == has_ignored_component(path@, ignore@),
{
    let p = to_chars(path);
    let mut root: Vec<char> = Vec::new();
    root.push('/');
    let mut dot: Vec<char> = Vec::new();
    dot.push('.');
    proof {
        reveal_strlit("/");
        reveal_strlit(".");
        assert(root@ =~= "/"@);
        assert(dot@ =~= "."@);
    }
    if p.len() > 0 && p[0] == '/' && is_listed(ignore, &root) {
        return true;
    }
    if p.len() > 0 && p[0] == '.' && (p.len() == 1 || p[1] == '/') && is_listed(ignore, &dot) {
        return true;
    }
    let ghost first_two = (p@.len() > 0 && p@[0] == '/' && listed(ignore@, "/"@)) || (p@.len()
        > 0 && p@[0] == '.' && (p@.len() == 1 || p@[1] == '/') && listed(ignore@, "."@));
    assert(!first_two);
    let mut seg_start: usize = 0;
    let mut seg: Vec<char> = Vec::new();
    let mut cur: usize = 0;
    while cur < p.len()
        invariant
            seg_start <= cur <= p@.len(),
            seg@ == p@.subrange(seg_start as int, cur as int),
            seg_start == 0 || p@[seg_start - 1] == '/',
            forall|k: int| seg_start <= k < cur ==> p@[k] != '/',
            dot@ == "."@,
            p@ == path@,
            !first_two,
            first_two == ((p@.len() > 0 && p@[0] == '/' && listed(ignore@, "/"@)) || (p@.len()
                > 0 && p@[0] == '.' && (p@.len() == 1 || p@[1] == '/') && listed(ignore@, "."@))),
            forall|i: int, j: int|
                #![trigger is_segment(p@, i, j)]
                is_segment(p@, i, j) && j < cur && j > i && p@.subrange(i, j) != "."@ ==> !listed(
                    ignore@,
                    p@.subrange(i, j),
                ),
        decreases p@.len() - cur,
    {
        if p[cur] == '/' {
            proof {
                assert(is_segment(p@, seg_start as int, cur as int));
                assert forall|i: int| #![trigger is_segment(p@, i, cur as int)]
                    is_segment(p@, i, cur as int) implies i == seg_start by {
                    if i < seg_start {
                        assert(p@[seg_start - 1] == '/');
                    } else if i > seg_start {
                        assert(p@[i - 1] == '/');
                    }
                }
            }
            if seg.len() > 0 && !chars_eq(&seg, &dot) && is_listed(ignore, &seg) {
                assert(is_segment(p@, seg_start as int, cur as int) && cur > seg_start
                    && p@.subrange(seg_start as int, cur as int) != "."@ && listed(
                    ignore@,
                    p@.subrange(seg_start as int, cur as int),
                ));
                return true;
            }
            seg = Vec::new();
            seg_start = cur + 1;
            assert(seg@ =~= p@.subrange(seg_start as int, cur + 1));
        } else {
            seg.push(p[cur]);
            assert(p@.subrange(seg_start as int, cur + 1) =~= p@.subrange(seg_start as int, cur as int).push(p@[cur as int]));
        }
        cur = cur + 1;
    }
    proof {
        assert(is_segment(p@, seg_start as int, cur as int));
        assert forall|i: int| #![trigger is_segment(p@, i, cur as int)]
            is_segment(p@, i, cur as int) implies i == seg_start by {
            if i < seg_start {
                assert(p@[seg_start - 1] == '/');
            } else if i > seg_start {
                assert(p@[i - 1] == '/');
            }
        }
    }
    if seg.len() > 0 && !chars_eq(&seg, &dot) && is_listed(ignore, &seg) {
        assert(is_segment(p@, seg_start as int, cur as int));
        return true;
    }
    proof {
        assert forall|i: int, j: int|
            is_segment(p@, i, j) && j > i && p@.subrange(i, j) != "."@ implies !listed(
                ignore@,
                p@.subrange(i, j),
            ) by {
            if j == cur {
                assert(is_segment(p@, i, cur as int));
            }
        }
    }
    false
}

/// Whether `path` names a markdown file.
pub fn is_markdown_path_exec(path: &str) -> (r: bool)
    ensures
        r == is_markdown_path(path@),
{
    match file_name_exec(path) {
        Some(n) => has_extension(n.as_str(), "md"),
        None => false,
    }
}

/// Turns a file-system notification about `path` into the vault event
/// the rules see, skipping ignored paths, non-markdown files and other
/// kinds of notification.
pub fn classify_fs_event(kind: FsEventKind, path: &str, ignore: &Vec<String>) -> (r: Option<VaultEvent>)
    ensures
        match r {
            Some(e) => vault_event_for(kind, path@, ignore@) == Some(e@),
            None => vault_event_for(kind, path@, ignore@) is None,
        },
{
    if path_is_ignored(path, ignore) || !is_markdown_path_exec(path) {
        return None;
    }
    let p = string_of(&to_chars(path));
    match kind {
        FsEventKind::Create => Some(VaultEvent::FileCreated(p)),
        FsEventKind::Modify => Some(VaultEvent::FileModified(p)),
        FsEventKind::Remove => Some(VaultEvent::FileRemoved(p)),
        FsEventKind::Other => None,
    }
}

/// What the daemon's event loop receives next.
pub enum DaemonInput {
    /// An event came through the channel.
    Received(VaultEvent),
    /// The receiver fell behind and missed this many events.
    Lagged(u64),
    /// Every sender is gone.
    Closed,
    /// The user asked the daemon to stop (Ctrl+C).
    Interrupted,
}

/// What the event loop does with it.
pub enum DaemonAction {
    /// Evaluate the rules against the event, then keep running.
    Dispatch(VaultEvent),
    /// Warn about the missed events, then keep running.
    ReportLag(u64),
    /// Leave the loop.
    Shutdown,
}

/// The loop's decision for an input, as plain values: dispatch a
/// received event, report a lag, stop on a closed channel or an
/// interrupt.
pub open spec fn daemon_decision(input: DaemonInput) -> DaemonAction {
    match input {
        DaemonInput::Received(e) => DaemonAction::Dispatch(e),
        DaemonInput::Lagged(n) => DaemonAction::ReportLag(n),
        DaemonInput::Closed => DaemonAction::Shutdown,
        DaemonInput::Interrupted => DaemonAction::Shutdown,
    }
}

/// One turn of the daemon's event loop.  The loop stops exactly when the
/// channel is closed or the user interrupts it; every event received is
/// dispatched as it came.
pub fn daemon_step(input: DaemonInput) -> (r: DaemonAction)
    ensures
        r == daemon_decision(input),
        (r is Shutdown) <==> (input is Closed || input is Interrupted),
{
    match input {
        DaemonInput::Received(e) => DaemonAction::Dispatch(e),
        DaemonInput::Lagged(n) => DaemonAction::ReportLag(n),
        DaemonInput::Closed => DaemonAction::Shutdown,
        DaemonInput::Interrupted => DaemonAction::Shutdown,
    }
}

} // verus!
