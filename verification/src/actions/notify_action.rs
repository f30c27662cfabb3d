//! The `notify` action: stale-task alerts on periodic ticks and a
//! notice for saved files.
use vstd::prelude::*;
use crate::config::RuleConfig;
use crate::paths::{stem_or, stem_or_exec};
use crate::rules::triggers::opt_view;
use crate::text::{to_chars, find, find_from_exec, trim, trim_range, replace_all, replace_chars,
    dec_int, dec_nat, digit_char, push_dec_i64, string_of, str_eq, occurs_at, lemma_find_from_at,
    is_ws, lead_ws, trail_ws, trim_start, trim_end, contains, lemma_find_from, lemma_trail_ws};
use crate::vault::notes::{NoteInfo, Timestamp};
use crate::watcher::{EventView, VaultEvent};

verus! {

/// An ASCII decimal digit.
pub open spec fn is_digit(c: char) -> bool {
    '0' <= c && c <= '9'
}

/// Number of leading ASCII digits.
pub open spec fn digit_run(s: Seq<char>) -> nat
    decreases s.len(),
{
    if s.len() > 0 && is_digit(s[0]) {
        1 + digit_run(s.drop_first())
    } else {
        0
    }
}

/// The value of a string of ASCII digits.
pub open spec fn digits_value(s: Seq<char>) -> nat
    decreases s.len(),
{
    if s.len() == 0 {
        0
    } else {
        digits_value(s.drop_last()) * 10 + (s.last() as nat - '0' as nat) as nat
    }
}

/// The staleness threshold written in a trigger: after the first
/// `no_update_days`, the first `>`, then the digits that open the
/// trimmed rest, read as an `i64`.  None when a part is missing, there
/// are no digits, or the number does not fit an `i64`.
pub open spec fn days_threshold(t: Seq<char>) -> Option<i64> {
    match find(t, "no_update_days"@) {
        None => None,
        Some(pos) => {
            let after = t.skip(pos);
            match find(after, seq!['>']) {
                None => None,
                Some(g) => {
                    let num = trim(after.skip(g + 1));
                    let ds = num.take(digit_run(num) as int);
                    if ds.len() == 0 || digits_value(ds) > i64::MAX {
                        None
                    } else {
                        Some(digits_value(ds) as i64)
                    }
                },
            }
        },
    }
}

/// Parses the `N` of `task.no_update_days > N` out of a trigger string.
pub fn parse_days_threshold(trigger: &str) -> (r: Option<i64>)
    ensures
        r == days_threshold(trigger@),
{
    let t = to_chars(trigger);
    let key = to_chars("no_update_days");
    let pos = match find_from_exec(&t, &key, 0) {
        None => return None,
        Some(p) => p,
    };
    let mut after: Vec<char> = Vec::new();
    let mut i = pos;
    while i < t.len()
        invariant
            pos <= i <= t@.len(),
            after@ == t@.subrange(pos as int, i as int),
        decreases t@.len() - i,
    {
        after.push(t[i]);
        assert(t@.subrange(pos as int, i + 1) =~= t@.subrange(pos as int, i as int).push(
            t@[i as int],
        ));
        i = i + 1;
    }
    assert(after@ =~= t@.skip(pos as int));
    let mut gt: Vec<char> = Vec::new();
    gt.push('>');
    assert(gt@ =~= seq!['>']);
    let g = match find_from_exec(&after, &gt, 0) {
        None => return None,
        Some(g) => g,
    };
    proof {
        assert(after@.subrange(g as int, g + 1) == seq!['>']);
    }
    let (a, b) = trim_range(&after, g + 1, after.len());
    assert(after@.skip(g + 1) =~= after@.subrange(g + 1, after@.len() as int));
    let ghost num = after@.subrange(a as int, b as int);
    let mut k = a;
    let mut v: u128 = 0;
    let mut overflow = false;
    while k < b && '0' <= after[k] && after[k] <= '9'
        invariant
            a <= k <= b <= after@.len(),
            num == after@.subrange(a as int, b as int),
            digit_run(num) == (k - a) + digit_run(after@.subrange(k as int, b as int)),
            overflow ==> digits_value(after@.subrange(a as int, k as int)) > i64::MAX,
            !overflow ==> v == digits_value(after@.subrange(a as int, k as int)),
            !overflow ==> v <= i64::MAX,
        decreases b - k,
    {
        let ghost t2 = after@.subrange(k as int, b as int);
        assert(t2[0] == after@[k as int]);
        assert(t2.drop_first() =~= after@.subrange(k + 1, b as int));
        let ghost p2 = after@.subrange(a as int, k + 1);
        assert(p2.drop_last() =~= after@.subrange(a as int, k as int));
        assert(p2.last() == after@[k as int]);
        let d = (after[k] as u32 - '0' as u32) as u128;
        if !overflow {
            v = v * 10 + d;
            if v > 9223372036854775807u128 {
                overflow = true;
            }
        }
        k = k + 1;
    }
    proof {
        let t2 = after@.subrange(k as int, b as int);
        if k < b {
            assert(t2[0] == after@[k as int]);
        }
        assert(digit_run(t2) == 0);
        assert(num.take(digit_run(num) as int) =~= after@.subrange(a as int, k as int));
    }
    if k == a || overflow {
        None
    } else {
        Some(v as i64)
    }
}

/// Decimal notation consists of digits, is never empty, and reads back
/// as the number.
pub proof fn lemma_dec_nat_digits(n: nat)
    ensures
        dec_nat(n).len() >= 1,
        forall|i: int| 0 <= i < dec_nat(n).len() ==> is_digit(#[trigger] dec_nat(n)[i]),
        digits_value(dec_nat(n)) == n,
    decreases n,
{
    let d = n % 10;
    assert(digit_char(d) as nat - '0' as nat == d);
    assert(is_digit(digit_char(d)));
    if n >= 10 {
        lemma_dec_nat_digits(n / 10);
        let s = dec_nat(n);
        assert(s.drop_last() =~= dec_nat(n / 10));
        assert(s.last() == digit_char(d));
        assert((n / 10) * 10 + d == n);
        assert(digits_value(s) == digits_value(dec_nat(n / 10)) * 10 + d);
        assert forall|i: int| 0 <= i < s.len() implies is_digit(#[trigger] s[i]) by {
            if i < s.len() - 1 {
                assert(s[i] == dec_nat(n / 10)[i]);
            }
        }
    } else {
        assert(dec_nat(n).drop_last() =~= Seq::<char>::empty());
        assert(dec_nat(n).last() == digit_char(d));
        assert(d == n);
        assert(digits_value(dec_nat(n)) == digits_value(Seq::<char>::empty()) * 10 + d);
    }
}

/// A run of digits followed by nothing or by a non-digit is the whole
/// digit prefix.
proof fn lemma_digit_run_prefix(a: Seq<char>, b: Seq<char>)
    requires
        forall|i: int| 0 <= i < a.len() ==> is_digit(#[trigger] a[i]),
        b.len() == 0 || !is_digit(b[0]),
    ensures
        digit_run(a + b) == a.len(),
    decreases a.len(),
{
    if a.len() > 0 {
        assert forall|i: int| 0 <= i < a.drop_first().len() implies is_digit(#[trigger] a.drop_first()[i]) by {
            assert(a.drop_first()[i] == a[i + 1]);
        }
        lemma_digit_run_prefix(a.drop_first(), b);
        assert((a + b).drop_first() =~= a.drop_first() + b);
        assert((a + b)[0] == a[0]);
    } else {
        assert(a + b =~= b);
    }
}

/// A trigger without `no_update_days` has no threshold.
pub proof fn lemma_threshold_absent(t: Seq<char>)
    requires
        !contains(t, "no_update_days"@),
    ensures
        days_threshold(t) is None,
{
}

/// Whatever precedes it (without `no_update_days` of its own) and
/// whatever follows it (not starting with a digit), a trigger holding
/// `task.no_update_days > N` has threshold `N`, for every `N` that fits an
/// `i64`.
pub proof fn lemma_threshold_in_trigger(pfx: Seq<char>, n: nat, sfx: Seq<char>)
    requires
        n <= i64::MAX,
        !contains(pfx, "no_update_days"@),
        sfx.len() == 0 || !is_digit(sfx[0]),
    ensures
        days_threshold(pfx + "task.no_update_days > "@ + dec_nat(n) + sfx) == Some(n as i64),
{
    reveal_strlit("task.no_update_days > ");
    reveal_strlit("no_update_days");
    let mid = "task.no_update_days > "@;
    let key = "no_update_days"@;
    assert(mid =~= seq!['t', 'a', 's', 'k', '.', 'n', 'o', '_', 'u', 'p', 'd', 'a', 't', 'e', '_', 'd', 'a', 'y', 's', ' ', '>', ' ']);
    assert(key =~= seq!['n', 'o', '_', 'u', 'p', 'd', 'a', 't', 'e', '_', 'd', 'a', 'y', 's']);
    let d = dec_nat(n);
    lemma_dec_nat_digits(n);
    let t = pfx + mid + d + sfx;
    let p = pfx.len() as int;
    assert(t.len() == p + 22 + d.len() + sfx.len());
    assert forall|k: int| 0 <= k < 22 implies #[trigger] t[p + k] == mid[k] by {}
    // The key occurs where the trigger writes it ...
    assert(t.subrange(p + 5, p + 19) =~= key);
    // ... and nowhere before.
    lemma_find_from(pfx, key, 0);
    assert forall|j: int| 0 <= j < p + 5 implies !occurs_at(t, j, key) by {
        if occurs_at(t, j, key) {
            assert forall|m: int| 0 <= m < 14 implies #[trigger] t[j + m] == key[m] by {
                assert(t.subrange(j, j + 14)[m] == t[j + m]);
            }
            if j + 14 <= p {
                assert(pfx.subrange(j, j + 14) =~= t.subrange(j, j + 14));
                assert(occurs_at(pfx, j, key));
            } else if j < p {
                let c = p - j;
                assert(t[j + c] == key[c]);
                assert(t[p + 0] == 't');
                assert(c == 7);
                assert(t[j + 8] == key[8]);
                assert(t[p + 1] == 'a');
            } else {
                assert(t[j + 0] == key[0]);
                assert(t[p + (j - p)] == mid[j - p]);
            }
        }
    }
    lemma_find_from_at(t, key, 0, p + 5);
    let after = t.skip(p + 5);
    assert forall|k: int| 0 <= k < 17 implies #[trigger] after[k] == mid[k + 5] by {
        assert(after[k] == t[p + (k + 5)]);
    }
    assert(after.subrange(15, 16) =~= seq!['>']);
    assert forall|j: int| 0 <= j < 15 implies !occurs_at(after, j, seq!['>']) by {
        if occurs_at(after, j, seq!['>']) {
            assert(after.subrange(j, j + 1)[0] == after[j]);
            assert(after[j] == mid[j + 5]);
        }
    }
    lemma_find_from_at(after, seq!['>'], 0, 15);
    let rest = after.skip(16);
    assert(rest =~= seq![' '] + (d + sfx));
    assert(!is_ws(d[0]));
    assert(rest.drop_first() =~= d + sfx);
    assert((d + sfx)[0] == d[0]);
    assert(lead_ws(d + sfx) == 0);
    assert(lead_ws(rest) == 1);
    assert(trim_start(rest) =~= d + sfx);
    let ds = d + sfx;
    lemma_trail_ws(ds);
    if trail_ws(ds) > sfx.len() {
        assert(is_ws(ds[d.len() - 1]));
        assert(ds[d.len() - 1] == d[d.len() - 1]);
    }
    let kept = (ds.len() - trail_ws(ds)) as int;
    let sfx2 = sfx.take(kept - d.len());
    assert(trim_end(ds) =~= d + sfx2);
    assert(trim(rest) =~= d + sfx2);
    if sfx2.len() > 0 {
        assert(sfx2[0] == sfx[0]);
    }
    lemma_digit_run_prefix(d, sfx2);
    assert((d + sfx2).take(d.len() as int) =~= d);
}

/// A staleness trigger written `task.active AND task.no_update_days > N`
/// has threshold `N`, for every `N` that fits an `i64`.
pub proof fn lemma_threshold_round_trip(n: nat)
    requires
        n <= i64::MAX,
    ensures
        days_threshold("task.active AND task.no_update_days > "@ + dec_nat(n)) == Some(n as i64),
{
    reveal_strlit("task.active AND task.no_update_days > ");
    reveal_strlit("task.active AND ");
    reveal_strlit("task.no_update_days > ");
    reveal_strlit("no_update_days");
    let pfx = "task.active AND "@;
    assert("task.active AND task.no_update_days > "@ =~= pfx + "task.no_update_days > "@);
    assert(pfx =~= seq!['t', 'a', 's', 'k', '.', 'a', 'c', 't', 'i', 'v', 'e', ' ', 'A', 'N', 'D', ' ']);
    assert("no_update_days"@[0] == 'n');
    assert forall|j: int| 0 <= j implies !occurs_at(pfx, j, "no_update_days"@) by {
        if occurs_at(pfx, j, "no_update_days"@) {
            assert(pfx.subrange(j, j + 14)[0] == pfx[j]);
        }
    }
    lemma_find_from(pfx, "no_update_days"@, 0);
    lemma_threshold_in_trigger(pfx, n, Seq::empty());
    assert(pfx + "task.no_update_days > "@ + dec_nat(n) + Seq::<char>::empty()
        =~= "task.active AND task.no_update_days > "@ + dec_nat(n));
}

/// A desktop notification to show.
pub struct Notification {
    pub summary: String,
    pub body: String,
}

impl View for Notification {
    type V = (Seq<char>, Seq<char>);

    open spec fn view(&self) -> (Seq<char>, Seq<char>) {
        (self.summary@, self.body@)
    }
}

/// The Unix timestamp of midnight UTC on the date that chrono reads from
/// `s` with the format `%Y-%m-%d`; none when `s` is not such a date.
pub uninterp spec fn ymd_midnight(s: Seq<char>) -> Option<i64>;

/// Calls `chrono::NaiveDate::parse_from_str(s, "%Y-%m-%d")` and turns
/// the date into the timestamp of its midnight UTC
/// (`and_hms_opt(0, 0, 0)`, `and_utc`, `timestamp`); the result is the
/// one named by `ymd_midnight`.
#[verifier::external_body]
fn parse_ymd_midnight(s: &str) -> (r: Option<i64>)
    ensures
        r == ymd_midnight(s@),
{
    chrono::NaiveDate::parse_from_str(s, "%Y-%m-%d").ok().map(
        |d| d.and_hms_opt(0, 0, 0).unwrap().and_utc().timestamp(),
    )
}

/// Division rounding toward zero, as Rust's `/` on integers.
pub open spec fn trunc_div(a: int, b: int) -> int {
    if a >= 0 {
        a / b
    } else {
        -((-a) / b)
    }
}

/// `(now - then).num_days()` in chrono, for `then` a whole second:
/// the whole seconds of the difference (rounded toward zero), divided
/// by 86400 rounding toward zero.
pub open spec fn days_since(now: Timestamp, then: int) -> int {
    let diff = now.secs - then;
    let whole = if diff < 0 && now.nanos > 0 {
        diff + 1
    } else {
        diff
    };
    trunc_div(whole, 86400)
}

/// Whole days elapsed from `m` to `now` (`SystemTime::elapsed` in whole
/// seconds, divided by 86400); none when `m` is later than `now`.
pub open spec fn elapsed_days(now: Timestamp, m: Timestamp) -> Option<int> {
    let d = (now.secs - m.secs) * 1000000000 + (now.nanos - m.nanos);
    if d < 0 {
        None
    } else {
        Some((d / 1000000000) / 86400)
    }
}

/// Whole days between a date's midnight and `now`, as chrono counts them.
pub fn days_since_exec(now: Timestamp, then: i64) -> (r: i64)
    ensures
        r == days_since(now, then as int),
{
    let diff: i128 = now.secs as i128 - then as i128;
    let whole: i128 = if diff < 0 && now.nanos > 0 {
        diff + 1
    } else {
        diff
    };
    if whole >= 0 {
        let w = whole as u128;
        let q = w / 86400;
        assert(q <= w);
        q as i64
    } else {
        let w = (-whole) as u128;
        let q = w / 86400;
        assert(q <= w);
        -(q as i64)
    }
}

/// Whole days elapsed since `m`, if `m` is not in the future.
pub fn elapsed_days_exec(now: Timestamp, m: Timestamp) -> (r: Option<i64>)
    ensures
        match elapsed_days(now, m) {
            Some(d) => r == Some(d as i64),
            None => r is None,
        },
{
    let d: i128 = (now.secs as i128 - m.secs as i128) * 1000000000 + (now.nanos as i128 - m.nanos as i128);
    if d < 0 {
        None
    } else {
        let w = d as u128;
        let secs = w / 1000000000;
        let days = secs / 86400;
        assert(days <= secs <= w);
        Some(days as i64)
    }
}

/// How many days a task has gone without update: from its `updated`
/// date when set (none if that is not a `%Y-%m-%d` date), else from its
/// file's modification time.
pub open spec fn task_days(t: NoteInfo, now: Timestamp) -> Option<int> {
    match t.frontmatter.updated {
        Some(u) => match ymd_midnight(u@) {
            Some(ts) => Some(days_since(now, ts as int)),
            None => None,
        },
        None => elapsed_days(now, t.modified),
    }
}

/// The staleness threshold of a rule: the days in its trigger, else 7.
pub open spec fn threshold_of(rule: RuleConfig) -> int {
    match days_threshold(rule.trigger@) {
        Some(n) => n as int,
        None => 7,
    }
}

/// The template of stale-task messages.
pub open spec fn stale_template(message: Option<String>) -> Seq<char> {
    match message {
        Some(m) => m@,
        None => "Task '{task.name}' has been active for {task.no_update_days} days"@,
    }
}

/// A stale-task message: the template with `{task.name}` replaced by the
/// task's name, then `{task.no_update_days}` by the number of days.
pub open spec fn stale_message(message: Option<String>, name: Seq<char>, days: int) -> Seq<char> {
    replace_all(replace_all(stale_template(message), "{task.name}"@, name), "{task.no_update_days}"@, dec_int(days))
}

/// The notice for one task: active tasks whose days without update
/// exceed the threshold.
pub open spec fn stale_notice(rule: RuleConfig, t: NoteInfo, now: Timestamp) -> Option<(Seq<char>, Seq<char>)> {
    if opt_view(t.frontmatter.status) != Some("active"@) {
        None
    } else {
        match task_days(t, now) {
            Some(d) => if d > threshold_of(rule) {
                Some(("bridgebot \u{2014} stale task"@, stale_message(rule.message, stem_or(t.path@, "unknown"@), d)))
            } else {
                None
            },
            None => None,
        }
    }
}

/// The notices for the tasks from the `i`-th on, in order.
pub open spec fn stale_notices(rule: RuleConfig, tasks: Seq<NoteInfo>, now: Timestamp, i: int) -> Seq<(Seq<char>, Seq<char>)>
    decreases tasks.len() - i,
{
    if i < 0 || i >= tasks.len() {
        Seq::empty()
    } else {
        (match stale_notice(rule, tasks[i], now) {
            Some(n) => seq![n],
            None => Seq::empty(),
        }) + stale_notices(rule, tasks, now, i + 1)
    }
}

/// The notification for a saved file: the rule's message (default
/// `bridgebot: event on {file}`) with `{file}` replaced by the file's
/// stem.
pub open spec fn file_notice(rule: RuleConfig, path: Seq<char>) -> (Seq<char>, Seq<char>) {
    let template = match rule.message {
        Some(m) => m@,
        None => "bridgebot: event on {file}"@,
    };
    ("bridgebot"@, replace_all(template, "{file}"@, stem_or(path, "unknown"@)))
}

/// The notifications of the notify action for an event.
pub open spec fn notify_plan(rule: RuleConfig, event: EventView, tasks: Seq<NoteInfo>, now: Timestamp) -> Seq<(Seq<char>, Seq<char>)> {
    match event {
        EventView::Tick => stale_notices(rule, tasks, now, 0),
        EventView::Created(p) => seq![file_notice(rule, p)],
        EventView::Modified(p) => seq![file_notice(rule, p)],
        _ => Seq::empty(),
    }
}

/// Days without update of a task, if they can be told.
fn task_days_exec(t: &NoteInfo, now: Timestamp) -> (r: Option<i64>)
    ensures
        match task_days(*t, now) {
            Some(d) => r == Some(d as i64),
            None => r is None,
        },
{
    match &t.frontmatter.updated {
        Some(u) => match parse_ymd_midnight(u.as_str()) {
            Some(ts) => Some(days_since_exec(now, ts)),
            None => None,
        },
        None => elapsed_days_exec(now, t.modified),
    }
}

/// The stale-task message for a task.
fn stale_message_exec(message: &Option<String>, name: &String, days: i64) -> (r: String)
    ensures
        r@ == stale_message(*message, name@, days as int),
{
    let template: Vec<char> = match message {
        Some(m) => to_chars(m.as_str()),
        None => to_chars("Task '{task.name}' has been active for {task.no_update_days} days"),
    };
    let pat1 = to_chars("{task.name}");
    let pat2 = to_chars("{task.no_update_days}");
    proof {
        reveal_strlit("{task.name}");
        reveal_strlit("{task.no_update_days}");
    }
    let step1 = replace_chars(&template, &pat1, &to_chars(name.as_str()));
    let mut num: Vec<char> = Vec::new();
    push_dec_i64(&mut num, days);
    assert(num@ =~= dec_int(days as int));
    let step2 = replace_chars(&step1, &pat2, &num);
    string_of(&step2)
}

/// The stale-task notifications for `tasks`, in order.
pub fn handle_stale_tasks(rule: &RuleConfig, tasks: &Vec<NoteInfo>, now: Timestamp) -> (r: Vec<Notification>)
    ensures
        r@.map_values(|n: Notification| n@) == stale_notices(*rule, tasks@, now, 0),
{
    let threshold: i64 = match parse_days_threshold(rule.trigger.as_str()) {
        Some(n) => n,
        None => 7,
    };
    let mut out: Vec<Notification> = Vec::new();
    let mut i: usize = 0;
    while i < tasks.len()
        invariant
            i <= tasks@.len(),
            threshold == threshold_of(*rule),
            out@.map_values(|n: Notification| n@) + stale_notices(*rule, tasks@, now, i as int)
                == stale_notices(*rule, tasks@, now, 0),
        decreases tasks@.len() - i,
    {
        let t = &tasks[i];
        let ghost prev = out@.map_values(|n: Notification| n@);
        let active = match &t.frontmatter.status {
            Some(st) => str_eq(st.as_str(), "active"),
            None => false,
        };
        let mut pushed = false;
        if active {
            match task_days_exec(t, now) {
                Some(d) => {
                    if d > threshold {
                        let name = stem_or_exec(t.path.as_str(), "unknown");
                        let body = stale_message_exec(&rule.message, &name, d);
                        let summary = string_of(&to_chars("bridgebot \u{2014} stale task"));
                        out.push(Notification { summary, body });
                        pushed = true;
                    }
                },
                None => {},
            }
        }
        proof {
            let rest = stale_notices(*rule, tasks@, now, i + 1);
            match stale_notice(*rule, tasks@[i as int], now) {
                Some(n) => {
                    assert(pushed);
                    assert(out@.map_values(|n: Notification| n@) =~= prev.push(n));
                    assert(prev + (seq![n] + rest) =~= out@.map_values(|n: Notification| n@) + rest);
                },
                None => {
                    assert(!pushed);
                    assert(out@.map_values(|n: Notification| n@) =~= prev);
                    assert(prev + (Seq::<(Seq<char>, Seq<char>)>::empty() + rest) =~= prev + rest);
                },
            }
        }
        i = i + 1;
    }
    assert(out@.map_values(|n: Notification| n@) + Seq::<(Seq<char>, Seq<char>)>::empty() =~= out@.map_values(|n: Notification| n@));
    out
}

/// The notification for a saved file.
fn file_notification(rule: &RuleConfig, path: &String) -> (r: Notification)
    ensures
        r@ == file_notice(*rule, path@),
{
    let template: Vec<char> = match &rule.message {
        Some(m) => to_chars(m.as_str()),
        None => to_chars("bridgebot: event on {file}"),
    };
    let pat = to_chars("{file}");
    proof {
        reveal_strlit("{file}");
    }
    let name = stem_or_exec(path.as_str(), "unknown");
    let body = replace_chars(&template, &pat, &to_chars(name.as_str()));
    Notification { summary: string_of(&to_chars("bridgebot")), body: string_of(&body) }
}

/// The notify action: on a tick, one notification per stale active task
/// among `tasks` (the vault's task notes); on a created or modified file,
/// one notification about it; nothing otherwise.  `now` is the current
/// time.
pub fn run(rule: &RuleConfig, event: &VaultEvent, tasks: &Vec<NoteInfo>, now: Timestamp) -> (r: Vec<Notification>)
    ensures
        r@.map_values(|n: Notification| n@) == notify_plan(*rule, event@, tasks@, now),
{
    match event {
        VaultEvent::Tick => handle_stale_tasks(rule, tasks, now),
        VaultEvent::FileCreated(p) | VaultEvent::FileModified(p) => {
            let n = file_notification(rule, p);
            let mut v: Vec<Notification> = Vec::new();
            v.push(n);
            assert(v@.map_values(|n: Notification| n@) =~= seq![n@]);
            v
        },
        _ => {
            let v: Vec<Notification> = Vec::new();
            assert(v@.map_values(|n: Notification| n@) =~= Seq::<(Seq<char>, Seq<char>)>::empty());
            v
        },
    }
}

/// Only active tasks are alerted: a task whose status is not exactly
/// `active` (or has none) never yields a notification, however stale.
pub proof fn lemma_only_active_tasks_alerted(rule: RuleConfig, t: NoteInfo, now: Timestamp)
    requires
        !(t.frontmatter.status matches Some(st) && st@ == "active"@),
    ensures
        stale_notice(rule, t, now) is None,
{
}

/// An alert is raised only when the days without update are known and
/// exceed the rule's threshold (the trigger's days, else 7).
pub proof fn lemma_alert_needs_threshold_exceeded(rule: RuleConfig, t: NoteInfo, now: Timestamp)
    requires
        stale_notice(rule, t, now) is Some,
    ensures
        task_days(t, now) is Some,
        task_days(t, now)->0 > (match days_threshold(rule.trigger@) {
            Some(n) => n as int,
            None => 7,
        }),
        t.frontmatter.status matches Some(st) && st@ == "active"@,
{
}

/// Tasks are judged one by one: the alerts for two lists of tasks are the
/// alerts for the first followed by those for the second.
pub proof fn lemma_stale_notices_concat(rule: RuleConfig, a: Seq<NoteInfo>, b: Seq<NoteInfo>, now: Timestamp)
    ensures
        stale_notices(rule, a + b, now, 0) == stale_notices(rule, a, now, 0) + stale_notices(rule, b, now, 0),
{
    lemma_stale_notices_shift(rule, a, b, now, 0);
    lemma_stale_notices_suffix(rule, a, b, now, 0);
    assert(stale_notices(rule, a, now, a.len() as int) =~= Seq::<(Seq<char>, Seq<char>)>::empty());
    assert(stale_notices(rule, a + b, now, 0) =~= stale_notices(rule, a, now, 0) + stale_notices(rule, a + b, now, a.len() as int));
}

proof fn lemma_stale_notices_shift(rule: RuleConfig, a: Seq<NoteInfo>, b: Seq<NoteInfo>, now: Timestamp, j: int)
    requires
        0 <= j <= b.len(),
    ensures
        stale_notices(rule, a + b, now, a.len() + j) == stale_notices(rule, b, now, j),
    decreases b.len() - j,
{
    if j < b.len() {
        lemma_stale_notices_shift(rule, a, b, now, j + 1);
        assert((a + b)[a.len() + j] == b[j]);
    }
}

proof fn lemma_stale_notices_suffix(rule: RuleConfig, a: Seq<NoteInfo>, b: Seq<NoteInfo>, now: Timestamp, i: int)
    requires
        0 <= i <= a.len(),
    ensures
        stale_notices(rule, a + b, now, i) == stale_notices(rule, a, now, i) + stale_notices(rule, a + b, now, a.len() as int),
    decreases a.len() - i,
{
    if i < a.len() {
        lemma_stale_notices_suffix(rule, a, b, now, i + 1);
        assert((a + b)[i] == a[i]);
        let h: Seq<(Seq<char>, Seq<char>)> = match stale_notice(rule, a[i], now) {
            Some(n) => seq![n],
            None => Seq::empty(),
        };
        assert(h + (stale_notices(rule, a, now, i + 1) + stale_notices(rule, a + b, now, a.len() as int))
            =~= (h + stale_notices(rule, a, now, i + 1)) + stale_notices(rule, a + b, now, a.len() as int));
    } else {
        assert(stale_notices(rule, a, now, i) =~= Seq::<(Seq<char>, Seq<char>)>::empty());
        assert(stale_notices(rule, a + b, now, i) =~= Seq::<(Seq<char>, Seq<char>)>::empty() + stale_notices(rule, a + b, now, a.len() as int));
    }
}

/// A list with no active task raises no alert.
pub proof fn lemma_no_active_no_alerts(rule: RuleConfig, tasks: Seq<NoteInfo>, now: Timestamp, i: int)
    requires
        0 <= i,
        forall|k: int| 0 <= k < tasks.len() ==> !((#[trigger] tasks[k]).frontmatter.status matches Some(st) && st@ == "active"@),
    ensures
        stale_notices(rule, tasks, now, i).len() == 0,
    decreases tasks.len() - i,
{
    if i < tasks.len() {
        lemma_only_active_tasks_alerted(rule, tasks[i], now);
        lemma_no_active_no_alerts(rule, tasks, now, i + 1);
    }
}

} // verus!
