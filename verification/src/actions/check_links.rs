//! The `check-links` action: which notes to check, and the notification
//! summing up what was found.
use vstd::prelude::*;
use crate::actions::notify_action::Notification;
use crate::config::RuleConfig;
use crate::paths::{stem_or, stem_or_exec};
use crate::rules::triggers::opt_view;
use crate::text::{to_chars, string_of, str_eq, dec_int, push_dec_u64, push_chars, push_str};
use crate::watcher::{EventView, VaultEvent};

verus! {

/// What a link check covers.
pub enum LinkCheck {
    /// The note that changed.
    ChangedFile(String),
    /// Every note of the vault.
    WholeVault,
    /// Nothing (a changed-file check on an event without a file).
    Nothing,
}

/// What a link check covers, as plain values.
pub enum LinkCheckView {
    ChangedFile(Seq<char>),
    WholeVault,
    Nothing,
}

impl View for LinkCheck {
    type V = LinkCheckView;

    open spec fn view(&self) -> LinkCheckView {
        match self {
            LinkCheck::ChangedFile(p) => LinkCheckView::ChangedFile(p@),
            LinkCheck::WholeVault => LinkCheckView::WholeVault,
            LinkCheck::Nothing => LinkCheckView::Nothing,
        }
    }
}

/// A rule scoped to `changed-file` checks the created or modified note
/// (nothing on other events); any other rule checks the whole vault.
pub open spec fn link_check_for(rule: RuleConfig, event: EventView) -> LinkCheckView {
    if opt_view(rule.scope) == Some("changed-file"@) {
        match event {
            EventView::Created(p) => LinkCheckView::ChangedFile(p),
            EventView::Modified(p) => LinkCheckView::ChangedFile(p),
            _ => LinkCheckView::Nothing,
        }
    } else {
        LinkCheckView::WholeVault
    }
}

/// The check-links action: decides what to check for this event.
pub fn run(rule: &RuleConfig, event: &VaultEvent) -> (r: LinkCheck)
    ensures
        r@ == link_check_for(*rule, event@),
{
    let scoped = match &rule.scope {
        Some(s) => str_eq(s.as_str(), "changed-file"),
        None => false,
    };
    if scoped {
        match event {
            VaultEvent::FileCreated(p) | VaultEvent::FileModified(p) => LinkCheck::ChangedFile(p.clone()),
            _ => LinkCheck::Nothing,
        }
    } else {
        LinkCheck::WholeVault
    }
}

/// `items` joined with `sep` between consecutive items.
pub open spec fn joined(items: Seq<Seq<char>>, sep: Seq<char>) -> Seq<char>
    decreases items.len(),
{
    if items.len() == 0 {
        Seq::empty()
    } else if items.len() == 1 {
        items[0]
    } else {
        joined(items.drop_last(), sep) + sep + items.last()
    }
}

/// The notification for broken links in one note: none when there are
/// none, else `<n> broken link(s) in <stem>: <links joined by ", ">`.
pub open spec fn changed_file_notice(path: Seq<char>, broken: Seq<Seq<char>>) -> Option<(Seq<char>, Seq<char>)> {
    if broken.len() == 0 {
        None
    } else {
        Some(("bridgebot \u{2014} broken links"@, dec_int(broken.len() as int) + " broken link(s) in "@
            + stem_or(path, "unknown"@) + ": "@ + joined(broken, ", "@)))
    }
}

/// The notification for a vault-wide check: none when no note has
/// broken links, else `<total> broken link(s) found in vault`.
pub open spec fn vault_notice(total: int, notes_with_broken: int) -> Option<(Seq<char>, Seq<char>)> {
    if notes_with_broken == 0 {
        None
    } else {
        Some(("bridgebot \u{2014} broken links"@, dec_int(total) + " broken link(s) found in vault"@))
    }
}

/// The number of broken links over all notes of a report.
pub open spec fn total_links(r: Seq<(String, Vec<String>)>) -> int
    decreases r.len(),
{
    if r.len() == 0 {
        0
    } else {
        total_links(r.drop_last()) + r.last().1@.len()
    }
}

/// Joins strings with a separator.
pub fn join_strings(items: &Vec<String>, sep: &str) -> (r: Vec<char>)
    ensures
        r@ == joined(items@.map_values(|s: String| s@), sep@),
{
    let ghost v = items@.map_values(|s: String| s@);
    let mut out: Vec<char> = Vec::new();
    let mut i: usize = 0;
    while i < items.len()
        invariant
            i <= items@.len(),
            v == items@.map_values(|s: String| s@),
            out@ == joined(v.take(i as int), sep@),
        decreases items@.len() - i,
    {
        let ghost prev = out@;
        if i > 0 {
            push_str(&mut out, sep);
        }
        push_str(&mut out, items[i].as_str());
        proof {
            let t = v.take(i + 1);
            assert(t.drop_last() =~= v.take(i as int));
            assert(t.last() == items@[i as int]@);
            if i == 0 {
                assert(out@ =~= t[0]);
            } else {
                assert(out@ =~= joined(t.drop_last(), sep@) + sep@ + t.last());
            }
        }
        i = i + 1;
    }
    assert(v.take(items@.len() as int) =~= v);
    out
}

/// The notification for broken links found in the note at `path`.
pub fn changed_file_report(path: &str, broken: &Vec<String>) -> (r: Option<Notification>)
    ensures
        match changed_file_notice(path@, broken@.map_values(|s: String| s@)) {
            Some(n) => r matches Some(x) && x@ == n,
            None => r is None,
        },
{
    if broken.len() == 0 {
        return None;
    }
    let mut body: Vec<char> = Vec::new();
    push_dec_u64(&mut body, broken.len() as u64);
    push_str(&mut body, " broken link(s) in ");
    let name = stem_or_exec(path, "unknown");
    push_str(&mut body, name.as_str());
    push_str(&mut body, ": ");
    let j = join_strings(broken, ", ");
    push_chars(&mut body, &j);
    assert(body@ =~= dec_int(broken@.len() as int) + " broken link(s) in "@ + stem_or(path@, "unknown"@)
        + ": "@ + joined(broken@.map_values(|s: String| s@), ", "@));
    Some(Notification {
        summary: string_of(&to_chars("bridgebot \u{2014} broken links")),
        body: string_of(&body),
    })
}

/// The notification summing up a vault-wide check (`results` lists each
/// note with broken links and those links).
pub fn vault_report(results: &Vec<(String, Vec<String>)>) -> (r: Option<Notification>)
    requires
        total_links(results@) <= u64::MAX,
    ensures
        match vault_notice(total_links(results@), results@.len() as int) {
            Some(n) => r matches Some(x) && x@ == n,
            None => r is None,
        },
{
    if results.len() == 0 {
        return None;
    }
    let mut total: u64 = 0;
    let mut i: usize = 0;
    while i < results.len()
        invariant
            i <= results@.len(),
            total_links(results@) <= u64::MAX,
            total == total_links(results@.take(i as int)),
        decreases results@.len() - i,
    {
        proof {
            assert(results@.take(i + 1).drop_last() =~= results@.take(i as int));
            lemma_total_links_prefix(results@, i + 1);
        }
        total = total + results[i].1.len() as u64;
        i = i + 1;
    }
    assert(results@.take(results@.len() as int) =~= results@);
    let mut body: Vec<char> = Vec::new();
    push_dec_u64(&mut body, total);
    push_str(&mut body, " broken link(s) found in vault");
    Some(Notification {
        summary: string_of(&to_chars("bridgebot \u{2014} broken links")),
        body: string_of(&body),
    })
}

/// Prefix sums of link counts never exceed the total.
proof fn lemma_total_links_prefix(r: Seq<(String, Vec<String>)>, k: int)
    requires
        0 <= k <= r.len(),
    ensures
        total_links(r.take(k)) <= total_links(r),
    decreases r.len(),
{
    if k < r.len() {
        assert(r.drop_last().take(k) =~= r.take(k));
        lemma_total_links_prefix(r.drop_last(), k);
    } else {
        assert(r.take(k) =~= r);
    }
}

} // verus!
