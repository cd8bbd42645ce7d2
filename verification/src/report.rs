//! Reporting a finished worker back to the parent.
//!
//! What did the worker do, and how much of it can the parent afford to read?
use vstd::prelude::*;
use vstd::string::*;

use crate::list::{concat, group_lists, join, views};
use crate::text::{
    char_is_space, chars_of, dec, decimal, ends_with, is_space, joined, space, starts_with,
    string_of, trim, trim_end, trim_start, trimmed, trimmed_end, trimmed_start,
};
use crate::worker::{nothing_to_show, status_label, WorkerStatus, WorkerSummary};

verus! {

broadcast use group_lists;

/// A fan-out group collecting its members' results before reporting as a unit.
pub struct GroupAcc {
    pub group: u64,
    pub request: String,
    pub total: usize,
    pub done: Vec<WorkerSummary>,
}

/// What a `GroupAcc` holds.
pub struct GroupView {
    pub group: u64,
    pub request: Seq<char>,
    pub total: usize,
    pub done: Seq<WorkerSummary>,
}

impl View for GroupAcc {
    type V = GroupView;

    open spec fn view(&self) -> GroupView {
        GroupView {
            group: self.group,
            request: self.request@,
            total: self.total,
            done: self.done@,
        }
    }
}

// ---- what several tasks share -----------------------------------------------

/// Below this many characters a shared opening is not worth a line of its own.
pub const WORTH_HOISTING: usize = 24;

/// How many characters `a` and `b` share at the start.
pub open spec fn common(a: Seq<char>, b: Seq<char>) -> nat
    decreases a.len(),
{
    if a.len() > 0 && b.len() > 0 && a[0] == b[0] {
        1 + common(a.drop_first(), b.drop_first())
    } else {
        0
    }
}

/// How many characters the first `k` of `tasks` share at the start.
pub open spec fn common_all(tasks: Seq<Seq<char>>, k: nat) -> nat
    decreases k,
{
    if k <= 1 {
        tasks[0].len()
    } else {
        let n = common_all(tasks, (k - 1) as nat);
        let m = common(tasks[k - 1], tasks[0]);
        if m < n {
            m
        } else {
            n
        }
    }
}

/// The largest cut of `s`, at most `n`, that stands just behind white space, or 0.
pub open spec fn word_cut(s: Seq<char>, n: nat) -> nat
    decreases n,
{
    if n > 0 && !is_space(s[n - 1]) {
        word_cut(s, (n - 1) as nat)
    } else {
        n
    }
}

/// Where the tasks are cut: behind the last white space of what they all share.
pub open spec fn cut_of(tasks: Seq<Seq<char>>) -> nat {
    word_cut(tasks[0], common_all(tasks, tasks.len()))
}

/// The wording that all `tasks` open with and what is left of each, where there
/// are two tasks or more and the shared wording is worth a line of its own.
pub open spec fn opening(tasks: Seq<Seq<char>>) -> Option<(Seq<char>, Seq<Seq<char>>)> {
    if tasks.len() < 2 {
        None
    } else {
        let n = cut_of(tasks) as int;
        let shared = trim_end(tasks[0].take(n));
        if shared.len() < WORTH_HOISTING {
            None
        } else {
            Some((shared, Seq::new(tasks.len(), |i: int| trim_start(tasks[i].skip(n)))))
        }
    }
}

proof fn lemma_common(a: Seq<char>, b: Seq<char>)
    ensures
        common(a, b) <= a.len(),
        common(a, b) <= b.len(),
        forall|i: int| 0 <= i < common(a, b) ==> a[i] == b[i],
    decreases a.len(),
{
    if a.len() > 0 && b.len() > 0 && a[0] == b[0] {
        lemma_common(a.drop_first(), b.drop_first());
        assert forall|i: int| 0 <= i < common(a, b) implies a[i] == b[i] by {
            if i > 0 {
                assert(a.drop_first()[i - 1] == b.drop_first()[i - 1]);
            }
        }
    }
}

proof fn lemma_common_unique(a: Seq<char>, b: Seq<char>, n: nat)
    requires
        n <= a.len(),
        n <= b.len(),
        forall|i: int| 0 <= i < n ==> a[i] == b[i],
        n < a.len() && n < b.len() ==> a[n as int] != b[n as int],
    ensures
        common(a, b) == n,
    decreases n,
{
    if n > 0 {
        assert(a[0] == b[0]);
        lemma_common_unique(a.drop_first(), b.drop_first(), (n - 1) as nat);
    }
}

proof fn lemma_common_all(tasks: Seq<Seq<char>>, k: nat)
    requires
        1 <= k <= tasks.len(),
    ensures
        forall|i: int|
            0 <= i < k ==> common_all(tasks, k) <= #[trigger] tasks[i].len() && tasks[i].take(
                common_all(tasks, k) as int,
            ) == tasks[0].take(common_all(tasks, k) as int),
    decreases k,
{
    if k > 1 {
        lemma_common_all(tasks, (k - 1) as nat);
        let n = common_all(tasks, k) as int;
        let before = common_all(tasks, (k - 1) as nat) as int;
        lemma_common(tasks[k - 1], tasks[0]);
        assert forall|i: int| 0 <= i < k implies n <= #[trigger] tasks[i].len() && tasks[i].take(n)
            == tasks[0].take(n) by {
            if i < k - 1 {
                assert(tasks[i].take(before) == tasks[0].take(before));
                assert forall|j: int| 0 <= j < n implies tasks[i][j] == tasks[0][j] by {
                    assert(tasks[i].take(before)[j] == tasks[0].take(before)[j]);
                }
            }
            assert(tasks[i].take(n) =~= tasks[0].take(n));
        }
    }
}

proof fn lemma_word_cut(s: Seq<char>, n: nat)
    ensures
        word_cut(s, n) <= n,
    decreases n,
{
    if n > 0 && !is_space(s[n - 1]) {
        lemma_word_cut(s, (n - 1) as nat);
    }
}

/// `s` is white space through and through.
pub open spec fn blank(s: Seq<char>) -> bool {
    forall|i: int| 0 <= i < s.len() ==> is_space(#[trigger] s[i])
}

proof fn lemma_trim_end_splits(s: Seq<char>)
    ensures
        trim_end(s).len() <= s.len(),
        s.take(trim_end(s).len() as int) == trim_end(s),
        blank(s.skip(trim_end(s).len() as int)),
    decreases s.len(),
{
    if s.len() > 0 && is_space(s.last()) {
        let t = s.drop_last();
        lemma_trim_end_splits(t);
        let n = trim_end(s).len() as int;
        assert(space()(s.last()));
        assert(trim_end(s) == trim_end(t));
        assert(s.take(n) =~= t.take(n));
        assert forall|i: int| 0 <= i < s.skip(n).len() implies is_space(#[trigger] s.skip(n)[i]) by {
            if i < t.skip(n).len() {
                assert(t.skip(n)[i] == s.skip(n)[i]);
            }
        }
    } else {
        assert(trim_end(s) == s);
        assert(s.take(s.len() as int) =~= s);
    }
}

proof fn lemma_trim_start_splits(s: Seq<char>)
    ensures
        trim_start(s).len() <= s.len(),
        s.skip(s.len() - trim_start(s).len()) == trim_start(s),
        blank(s.take(s.len() - trim_start(s).len())),
    decreases s.len(),
{
    if s.len() > 0 && is_space(s[0]) {
        let t = s.drop_first();
        lemma_trim_start_splits(t);
        assert(space()(s[0]));
        assert(trim_start(s) == trim_start(t));
        let n = s.len() - trim_start(s).len();
        assert(s.skip(n) =~= t.skip(n - 1));
        assert forall|i: int| 0 <= i < s.take(n).len() implies is_space(#[trigger] s.take(n)[i]) by {
            if i > 0 {
                assert(t.take(n - 1)[i - 1] == s.take(n)[i]);
            }
        }
    } else {
        assert(trim_start(s) == s);
        assert(s.skip(0) =~= s);
    }
}

/// Hoisting loses nothing but white space: every task reads as the shared
/// opening, a run of white space, and its own tail.
pub proof fn opening_reassembles(tasks: Seq<Seq<char>>, i: int)
    requires
        0 <= i < tasks.len(),
    ensures
        opening(tasks) matches Some((shared, tails)) ==> tails.len() == tasks.len() && exists|gap: Seq<char>|
            blank(gap) && tasks[i] == shared + gap + tails[i],
{
    if opening(tasks) is Some {
        let n = cut_of(tasks) as int;
        lemma_common_all(tasks, tasks.len());
        lemma_word_cut(tasks[0], common_all(tasks, tasks.len()));
        let m = common_all(tasks, tasks.len()) as int;
        let t = tasks[i];
        assert(t.take(m) == tasks[0].take(m));
        assert(t.take(n) =~= tasks[0].take(n)) by {
            assert forall|j: int| 0 <= j < n implies t[j] == tasks[0][j] by {
                assert(t.take(m)[j] == tasks[0].take(m)[j]);
            }
        }
        let head = t.take(n);
        let rest = t.skip(n);
        lemma_trim_end_splits(head);
        lemma_trim_start_splits(rest);
        let a = head.skip(trim_end(head).len() as int);
        let b = rest.take(rest.len() - trim_start(rest).len());
        let gap = a + b;
        assert(blank(gap));
        assert(t =~= trim_end(head) + gap + trim_start(rest)) by {
            assert(head =~= head.take(trim_end(head).len() as int) + a);
            assert(rest =~= b + rest.skip(rest.len() - trim_start(rest).len()));
            assert(t =~= head + rest);
        }
    }
}

fn common_len(a: &Vec<char>, b: &Vec<char>) -> (n: usize)
    ensures
        n == common(a@, b@),
        n <= a@.len(),
        n <= b@.len(),
{
    let mut n: usize = 0;
    while n < a.len() && n < b.len()
        invariant
            n <= a@.len(),
            n <= b@.len(),
            forall|i: int| 0 <= i < n ==> a@[i] == b@[i],
        decreases a.len() - n,
    {
        if a[n] != b[n] {
            proof {
                lemma_common_unique(a@, b@, n as nat);
            }
            return n;
        }
        n = n + 1;
    }
    proof {
        lemma_common_unique(a@, b@, n as nat);
    }
    n
}

/// Split a fan-out's tasks into the wording they share and what is left.
///
/// `None` when there is nothing worth sharing: one task, or too little in common
/// to be worth a line of its own.
pub fn common_opening(tasks: &[String]) -> (r: Option<(String, Vec<String>)>)
    ensures
        match r {
            Some(p) => opening(views(tasks@)) == Some((p.0@, views(p.1@))),
            None => opening(views(tasks@)) is None,
        },
{
    if tasks.len() < 2 {
        return None;
    }
    let ghost ts = views(tasks@);
    let first = chars_of(tasks[0].as_str());
    let mut n: usize = first.len();
    let mut k: usize = 1;
    while k < tasks.len()
        invariant
            1 <= k <= tasks@.len(),
            ts == views(tasks@),
            first@ == ts[0],
            n == common_all(ts, k as nat),
            n <= first@.len(),
        decreases tasks.len() - k,
    {
        let t = chars_of(tasks[k].as_str());
        let m = common_len(&t, &first);
        if m < n {
            n = m;
        }
        k = k + 1;
    }
    let ghost all = n as nat;
    while n > 0 && !char_is_space(first[n - 1])
        invariant
            n <= first@.len(),
            first@ == ts[0],
            word_cut(ts[0], n as nat) == word_cut(ts[0], all),
        decreases n,
    {
        n = n - 1;
    }
    let head = string_of(&first, 0, n);
    assert(head@ =~= ts[0].take(n as int));
    let shared = trimmed_end(head.as_str());
    if shared.as_str().unicode_len() < WORTH_HOISTING {
        return None;
    }
    let mut tails: Vec<String> = Vec::new();
    let mut i: usize = 0;
    proof {
        lemma_common_all(ts, ts.len());
        lemma_word_cut(ts[0], all);
    }
    while i < tasks.len()
        invariant
            i <= tasks@.len(),
            ts == views(tasks@),
            n == cut_of(ts),
            forall|j: int| 0 <= j < ts.len() ==> n <= #[trigger] ts[j].len(),
            views(tails@).len() == i,
            forall|j: int| 0 <= j < i ==> views(tails@)[j] == trim_start(#[trigger] ts[j].skip(n as int)),
        decreases tasks.len() - i,
    {
        let t = chars_of(tasks[i].as_str());
        assert(n <= ts[i as int].len());
        let rest = string_of(&t, n, t.len());
        assert(rest@ =~= ts[i as int].skip(n as int));
        tails.push(trimmed_start(rest.as_str()));
        i = i + 1;
    }
    assert(views(tails@) =~= Seq::new(ts.len(), |i: int| trim_start(ts[i].skip(n as int))));
    Some((shared, tails))
}

// ---- groups -----------------------------------------------------------------

/// What a list of groups holds.
pub open spec fn group_views(groups: Seq<GroupAcc>) -> Seq<GroupView> {
    Seq::new(groups.len(), |i: int| groups[i]@)
}

/// The index of the first group with this id, or the length.
pub open spec fn slot(groups: Seq<GroupView>, group: u64) -> nat
    decreases groups.len(),
{
    if groups.len() == 0 || groups[0].group == group {
        0
    } else {
        1 + slot(groups.drop_first(), group)
    }
}

proof fn lemma_slot_unique(groups: Seq<GroupView>, group: u64, n: nat)
    requires
        n <= groups.len(),
        forall|i: int| 0 <= i < n ==> groups[i].group != group,
        n < groups.len() ==> groups[n as int].group == group,
    ensures
        slot(groups, group) == n,
    decreases n,
{
    if n > 0 {
        assert(groups[0].group != group);
        lemma_slot_unique(groups.drop_first(), group, (n - 1) as nat);
    }
}

/// The groups once `worker` is recorded in its own, which is opened if needed.
/// The expected count is the one given now.
pub open spec fn recorded(
    groups: Seq<GroupView>,
    group: u64,
    request: Seq<char>,
    total: usize,
    worker: WorkerSummary,
) -> Seq<GroupView> {
    let i = slot(groups, group) as int;
    if i < groups.len() {
        groups.update(
            i,
            GroupView {
                group: groups[i].group,
                request: groups[i].request,
                total,
                done: groups[i].done.push(worker),
            },
        )
    } else {
        groups.push(GroupView { group, request, total, done: seq![worker] })
    }
}

/// `s` with the element at `i` taken out and the last one in its place.
pub open spec fn swapped_out<A>(s: Seq<A>, i: int) -> Seq<A> {
    s.update(i, s.last()).drop_last()
}

/// Record a finished worker against its group, and hand back the whole group
/// once at least as many members have reported as are expected now.
pub fn record_in_group(
    groups: &mut Vec<GroupAcc>,
    group: u64,
    request: &str,
    total: usize,
    worker: WorkerSummary,
) -> (r: Option<GroupAcc>)
    ensures
        ({
            let all = recorded(group_views(old(groups)@), group, request@, total, worker);
            let i = slot(group_views(old(groups)@), group) as int;
            if all[i].done.len() >= total {
                &&& r is Some
                &&& r->0@ == all[i]
                &&& group_views(final(groups)@) == swapped_out(all, i)
            } else {
                &&& r is None
                &&& group_views(final(groups)@) == all
            }
        }),
{
    let ghost before = group_views(groups@);
    let mut idx: usize = 0;
    while idx < groups.len() && groups[idx].group != group
        invariant
            idx <= groups@.len(),
            before == group_views(groups@),
            forall|i: int| 0 <= i < idx ==> before[i].group != group,
        decreases groups.len() - idx,
    {
        idx = idx + 1;
    }
    proof {
        lemma_slot_unique(before, group, idx as nat);
    }
    let ghost all = recorded(before, group, request@, total, worker);
    if idx == groups.len() {
        let mut done: Vec<WorkerSummary> = Vec::new();
        done.push(worker);
        groups.push(GroupAcc { group, request: request.to_owned(), total, done });
        assert(groups@[idx as int].done@ =~= seq![worker]);
    } else {
        groups[idx].total = total;
        groups[idx].done.push(worker);
    }
    assert(group_views(groups@) =~= all);
    assert(groups@[idx as int]@ == all[idx as int]);
    if groups[idx].done.len() >= total {
        let acc = groups.swap_remove(idx);
        assert(group_views(groups@) =~= swapped_out(all, idx as int));
        Some(acc)
    } else {
        None
    }
}

/// No two groups have the same id.
pub open spec fn distinct_groups(groups: Seq<GroupView>) -> bool {
    forall|i: int, j: int|
        0 <= i < j < groups.len() ==> (#[trigger] groups[i]).group != (#[trigger] groups[j]).group
}

/// A list of groups with distinct ids keeps them distinct when a worker is
/// recorded, whether the group stays or is handed back.
pub proof fn recording_keeps_groups_distinct(
    groups: Seq<GroupView>,
    group: u64,
    request: Seq<char>,
    total: usize,
    worker: WorkerSummary,
)
    requires
        distinct_groups(groups),
    ensures
        distinct_groups(recorded(groups, group, request, total, worker)),
        distinct_groups(
            swapped_out(
                recorded(groups, group, request, total, worker),
                slot(groups, group) as int,
            ),
        ),
{
    lemma_slot(groups, group);
}

proof fn lemma_slot(groups: Seq<GroupView>, group: u64)
    ensures
        slot(groups, group) <= groups.len(),
        slot(groups, group) < groups.len() ==> groups[slot(groups, group) as int].group == group,
        forall|i: int| 0 <= i < slot(groups, group) ==> groups[i].group != group,
    decreases groups.len(),
{
    if groups.len() == 0 || groups[0].group == group {
    } else {
        lemma_slot(groups.drop_first(), group);
        assert forall|i: int| 0 <= i < slot(groups, group) implies groups[i].group != group by {
            if i > 0 {
                assert(groups[i] == groups.drop_first()[i - 1]);
            }
        }
    }
}

/// Recording a worker in one group leaves every other group as it was.
pub proof fn groups_accumulate_independently(
    groups: Seq<GroupView>,
    group: u64,
    request: Seq<char>,
    total: usize,
    worker: WorkerSummary,
    i: int,
)
    requires
        0 <= i < groups.len(),
        groups[i].group != group,
    ensures
        recorded(groups, group, request, total, worker)[i] == groups[i],
        swapped_out(
            recorded(groups, group, request, total, worker),
            slot(groups, group) as int,
        ).contains(groups[i]),
{
    lemma_slot(groups, group);
    let all = recorded(groups, group, request, total, worker);
    let k = slot(groups, group) as int;
    let out = swapped_out(all, k);
    if i < all.len() - 1 {
        assert(out[i] == groups[i]);
    } else {
        assert(out[k] == groups[i]);
    }
}

// ---- text -------------------------------------------------------------------

/// `s` with every line feed turned into a space.
pub open spec fn one_line(s: Seq<char>) -> Seq<char> {
    s.map_values(|c: char| if c == '\n' { ' ' } else { c })
}

/// `s` on one line, cut to `max` characters with an ellipsis.
pub open spec fn truncated(s: Seq<char>, max: nat) -> Seq<char> {
    if s.len() <= max {
        one_line(s)
    } else {
        one_line(s).take(max as int).push('…')
    }
}

/// `s` cut to `max` characters, with a note on a line of its own where it was cut.
pub open spec fn truncated_chars(s: Seq<char>, max: nat) -> Seq<char> {
    if s.len() <= max {
        s
    } else {
        s.take(max as int) + "\n[…truncated]"@
    }
}

/// Cap a block of text, keeping its line structure.
pub fn truncate_chars(s: &str, max: usize) -> (r: String)
    ensures
        r@ == truncated_chars(s@, max as nat),
{
    if s.unicode_len() <= max {
        return s.to_owned();
    }
    let v = chars_of(s);
    let mut kept = string_of(&v, 0, max);
    assert(kept@ =~= s@.take(max as int));
    kept.append("\n[…truncated]");
    kept
}

/// Cap a text for a status row: one line, and an ellipsis where it was cut.
pub fn truncate(s: &str, max: usize) -> (r: String)
    ensures
        r@ == truncated(s@, max as nat),
{
    let v = chars_of(s);
    let end: usize = if v.len() <= max { v.len() } else { max };
    let mut out = String::new();
    let mut i: usize = 0;
    while i < end
        invariant
            i <= end <= v@.len(),
            v@ == s@,
            out@ == one_line(s@).take(i as int),
        decreases end - i,
    {
        out.push(if v[i] == '\n' { ' ' } else { v[i] });
        i = i + 1;
        assert(out@ =~= one_line(s@).take(i as int));
    }
    if v.len() > max {
        out.push('…');
    } else {
        assert(one_line(s@).take(i as int) =~= one_line(s@));
    }
    out
}

/// Per-worker cap on what gets injected into the parent's history.
pub const WORKER_REPORT_LIMIT: usize = 4000;

/// The line that a worker without a result is known by: its result, or what it
/// said last.
pub open spec fn body_of(w: WorkerSummary) -> Seq<char> {
    if trim(w.result@).len() == 0 {
        w.last@
    } else {
        w.result@
    }
}

/// What a worker produced, as the parent model sees it.
pub open spec fn block(w: WorkerSummary) -> Seq<char> {
    let head = "["@ + w.id@ + "] "@ + status_label(w.status) + " — task: "@ + w.task@;
    let files = if w.changed@.len() == 0 {
        head
    } else {
        head + "\nfiles changed: "@ + join(views(w.changed@), ", "@)
    };
    let why = match w.escalation {
        Some(reason) => files + "\nstopped by supervisor: "@ + reason@,
        None => files,
    };
    let warned = if nothing_to_show(w) {
        why
            + "\nWARNING: reported done but changed no files and returned almost no text. Treat this result as unverified — the work may not have happened."@
    } else {
        why
    };
    warned + "\n"@ + truncated_chars(body_of(w), WORKER_REPORT_LIMIT as nat)
}

/// What a worker actually produced, as the parent model should see it. Results
/// are capped: several verbose workers must not blow the parent's context.
pub fn worker_block(w: &WorkerSummary) -> (r: String)
    ensures
        r@ == block(*w),
{
    let mut out = "[".to_owned();
    out.append(w.id.as_str());
    out.append("] ");
    out.append(w.status.label());
    out.append(" — task: ");
    out.append(w.task.as_str());
    if w.changed.len() > 0 {
        out.append("\nfiles changed: ");
        let names = joined(&w.changed, ", ");
        out.append(names.as_str());
    }
    if let Some(reason) = &w.escalation {
        out.append("\nstopped by supervisor: ");
        out.append(reason.as_str());
    }
    if w.did_nothing() {
        out.append(
            "\nWARNING: reported done but changed no files and returned almost no text. Treat this result as unverified — the work may not have happened.",
        );
    }
    let said = trimmed(w.result.as_str());
    let body = if said.as_str().unicode_len() == 0 {
        truncate_chars(w.last.as_str(), WORKER_REPORT_LIMIT)
    } else {
        truncate_chars(w.result.as_str(), WORKER_REPORT_LIMIT)
    };
    out.append("\n");
    out.append(body.as_str());
    out
}

/// The message that carries one finished worker to the parent.
pub fn single_report(w: &WorkerSummary) -> (r: String)
    ensures
        r@ == "A background worker you spawned finished.\n\n"@ + block(*w),
{
    let mut out = "A background worker you spawned finished.\n\n".to_owned();
    let b = worker_block(w);
    out.append(b.as_str());
    out
}

/// The blocks of `done`, each between line feeds.
pub open spec fn blocks(done: Seq<WorkerSummary>) -> Seq<Seq<char>> {
    Seq::new(done.len(), |i: int| "\n"@ + block(done[i]) + "\n"@)
}

/// The message that carries a whole group to the parent.
pub open spec fn group_text(acc: GroupView) -> Seq<char> {
    "The "@ + dec(acc.done.len()) + " background workers for this request finished: "@ + acc.request
        + "\n"@ + concat(blocks(acc.done))
}

/// The message that carries a whole group to the parent: the request, then
/// every member's block.
pub fn group_report(acc: &GroupAcc) -> (r: String)
    ensures
        r@ == group_text(acc@),
{
    let mut out = "The ".to_owned();
    let n = decimal(acc.done.len() as u128);
    out.append(n.as_str());
    out.append(" background workers for this request finished: ");
    out.append(acc.request.as_str());
    out.append("\n");
    let ghost head = out@;
    let ghost all = blocks(acc.done@);
    let mut i: usize = 0;
    assert(all.take(0) =~= seq![]);
    assert(out@ =~= head + concat(all.take(0)));
    while i < acc.done.len()
        invariant
            i <= acc.done@.len(),
            all == blocks(acc.done@),
            out@ == head + concat(all.take(i as int)),
        decreases acc.done.len() - i,
    {
        let ghost before = out@;
        let b = worker_block(&acc.done[i]);
        out.append("\n");
        out.append(b.as_str());
        out.append("\n");
        assert(all.take(i + 1) =~= all.take(i as int).push(all[i as int]));
        assert(out@ =~= before + all[i as int]);
        assert(out@ =~= head + concat(all.take(i + 1)));
        i = i + 1;
    }
    assert(all.take(i as int) =~= all);
    out
}

// ---- the headline -----------------------------------------------------------

/// The mark that leads a finished worker's line: the check outranks the status.
pub open spec fn glyph(w: WorkerSummary) -> Seq<char> {
    match w.check_passed {
        Some(true) => "✓"@,
        Some(false) => "✗"@,
        None => match w.status {
            WorkerStatus::Done => "✓"@,
            WorkerStatus::Failed => "✗"@,
            _ => "◼"@,
        },
    }
}

/// What the check said, if there was one.
pub open spec fn verdict(w: WorkerSummary) -> Seq<char> {
    match w.check_passed {
        Some(true) => " · check passed"@,
        Some(false) => " · CHECK FAILED"@,
        None => seq![],
    }
}

/// `n` in decimal, on two digits at least.
pub open spec fn two_digits(n: nat) -> Seq<char> {
    if n < 10 {
        "0"@ + dec(n)
    } else {
        dec(n)
    }
}

/// How long a worker ran, in whole seconds, once it has finished and unless the
/// clock went backwards.
pub open spec fn took(w: WorkerSummary) -> Seq<char> {
    match w.finished {
        Some(end) => if end < w.started {
            seq![]
        } else {
            let secs = ((end - w.started) / 1_000_000_000) as nat;
            if secs < 60 {
                " in "@ + dec(secs) + "s"@
            } else {
                " in "@ + dec(secs / 60) + "m"@ + two_digits(secs % 60) + "s"@
            }
        },
        None => seq![],
    }
}

/// What the worker changed.
pub open spec fn changed(w: WorkerSummary) -> Seq<char> {
    if w.changed@.len() == 0 {
        " · changed nothing"@
    } else {
        " · changed "@ + join(views(w.changed@), ", "@)
    }
}

/// Why the supervisor stopped the worker, if it did.
pub open spec fn stopped(w: WorkerSummary) -> Seq<char> {
    match w.escalation {
        Some(reason) => " · supervisor stopped it ("@ + reason@ + ")"@,
        None => seq![],
    }
}

/// What to do about a finished worker: look at the diff, the result, and, where
/// something went wrong, the transcript.
pub open spec fn next_steps(w: WorkerSummary) -> Seq<Seq<char>> {
    let diff: Seq<Seq<char>> = if w.changed@.len() == 0 {
        seq![]
    } else {
        seq!["git diff "@ + join(views(w.changed@), " "@)]
    };
    let shown = diff.push("/agents show "@ + w.id@);
    if w.check_passed == Some(false) || w.escalation is Some {
        shown.push("/agents tail "@ + w.id@)
    } else {
        shown
    }
}

/// The worker's own summary, shortened.
pub open spec fn gist(w: WorkerSummary) -> Seq<char> {
    if trim(w.result@).len() == 0 {
        w.last@
    } else {
        truncated(w.result@, 160)
    }
}

/// The transcript line of a finished worker: the facts first, then what to do
/// about it, and the model's own summary last.
pub open spec fn headline(w: WorkerSummary) -> Seq<char> {
    let empty: Seq<char> = if nothing_to_show(w) { " · produced nothing"@ } else { seq![] };
    glyph(w) + " agent "@ + w.id@ + " ["@ + status_label(w.status) + "]"@ + took(w) + verdict(w)
        + changed(w) + stopped(w) + empty + "\n  → "@ + join(next_steps(w), "  ·  "@) + "\n  "@
        + gist(w)
}

fn duration(started: u128, finished: Option<u128>) -> (r: String)
    ensures
        forall|w: WorkerSummary| w.started == started && w.finished == finished ==> r@ == #[trigger] took(w),
{
    let end = match finished {
        Some(end) => end,
        None => {
            return String::new();
        },
    };
    if end < started {
        return String::new();
    }
    let secs: u128 = (end - started) / 1_000_000_000;
    let mut out = " in ".to_owned();
    if secs < 60 {
        let n = decimal(secs);
        out.append(n.as_str());
        out.append("s");
        return out;
    }
    let m = decimal(secs / 60);
    out.append(m.as_str());
    out.append("m");
    let rest: u128 = secs % 60;
    let s = decimal(rest);
    let mut two = String::new();
    if rest < 10 {
        two = "0".to_owned();
        two.append(s.as_str());
    } else {
        two = s;
    }
    out.append(two.as_str());
    out.append("s");
    out
}

/// What a finished worker leaves in the transcript.
pub fn worker_headline(w: &WorkerSummary) -> (r: String)
    ensures
        r@ == headline(*w),
{
    let glyph = match w.check_passed {
        Some(true) => "✓",
        Some(false) => "✗",
        None => match w.status {
            WorkerStatus::Done => "✓",
            WorkerStatus::Failed => "✗",
            _ => "◼",
        },
    };
    let mut next: Vec<String> = Vec::new();
    if w.changed.len() > 0 {
        let mut diff = "git diff ".to_owned();
        let names = joined(&w.changed, " ");
        diff.append(names.as_str());
        next.push(diff);
    }
    let mut show = "/agents show ".to_owned();
    show.append(w.id.as_str());
    next.push(show);
    let failed = match w.check_passed {
        Some(b) => !b,
        None => false,
    };
    if failed || w.escalation.is_some() {
        let mut tail = "/agents tail ".to_owned();
        tail.append(w.id.as_str());
        next.push(tail);
    }
    assert(views(next@) =~= next_steps(*w));
    let mut out = glyph.to_owned();
    out.append(" agent ");
    out.append(w.id.as_str());
    out.append(" [");
    out.append(w.status.label());
    out.append("]");
    let time = duration(w.started, w.finished);
    out.append(time.as_str());
    let check = match w.check_passed {
        Some(true) => " · check passed".to_owned(),
        Some(false) => " · CHECK FAILED".to_owned(),
        None => String::new(),
    };
    out.append(check.as_str());
    let mut touched = " · changed nothing".to_owned();
    if w.changed.len() > 0 {
        touched = " · changed ".to_owned();
        let names = joined(&w.changed, ", ");
        touched.append(names.as_str());
    }
    out.append(touched.as_str());
    let mut why = String::new();
    if let Some(reason) = &w.escalation {
        why = " · supervisor stopped it (".to_owned();
        why.append(reason.as_str());
        why.append(")");
    }
    out.append(why.as_str());
    let empty = if w.did_nothing() { " · produced nothing".to_owned() } else { String::new() };
    out.append(empty.as_str());
    out.append("\n  → ");
    let steps = joined(&next, "  ·  ");
    out.append(steps.as_str());
    out.append("\n  ");
    let said = trimmed(w.result.as_str());
    let summary = if said.as_str().unicode_len() == 0 {
        w.last.clone()
    } else {
        truncate(w.result.as_str(), 160)
    };
    out.append(summary.as_str());
    out
}

// ---- laws -------------------------------------------------------------------

/// However much a worker says, the parent is told a bounded part of it: the text of a
/// block behind its facts is what the worker said, or its start and a note.
pub proof fn a_verbose_worker_is_capped(w: WorkerSummary)
    ensures
        ({
            let shown = truncated_chars(body_of(w), WORKER_REPORT_LIMIT as nat);
            &&& shown.len() <= WORKER_REPORT_LIMIT + 13
            &&& ends_with(block(w), shown)
            &&& body_of(w).len() <= WORKER_REPORT_LIMIT ==> shown == body_of(w)
            &&& body_of(w).len() > WORKER_REPORT_LIMIT ==> starts_with(
                shown,
                body_of(w).take(WORKER_REPORT_LIMIT as int),
            )
        }),
{
    let shown = truncated_chars(body_of(w), WORKER_REPORT_LIMIT as nat);
    reveal_strlit("\n[…truncated]");
    assert("\n[…truncated]"@.len() == 13);
    let b = block(w);
    assert(b.skip(b.len() - shown.len()) =~= shown);
    if body_of(w).len() > WORKER_REPORT_LIMIT {
        let cut = body_of(w).take(WORKER_REPORT_LIMIT as int);
        assert(shown.take(cut.len() as int) =~= cut);
    }
}

/// A headline invents nothing: without a check there is no verdict, a check that failed
/// is never shown as a success, and a worker that changed a file is never said to have
/// produced nothing.
pub proof fn a_headline_invents_nothing(w: WorkerSummary)
    ensures
        w.check_passed is None ==> verdict(w) == Seq::<char>::empty(),
        w.check_passed == Some(false) ==> glyph(w) == "✗"@,
        w.changed@.len() > 0 ==> !nothing_to_show(w),
{
}

/// A finished worker is added to its own group, behind those that finished before it; the
/// first of a request opens the group.
pub proof fn a_worker_joins_its_group(
    groups: Seq<GroupView>,
    group: u64,
    request: Seq<char>,
    total: usize,
    worker: WorkerSummary,
    i: int,
)
    ensures
        0 <= i < groups.len() && groups[i].group == group && (forall|j: int|
            0 <= j < i ==> (#[trigger] groups[j]).group != group) ==> {
            let all = recorded(groups, group, request, total, worker);
            &&& all.len() == groups.len()
            &&& all[i].group == group
            &&& all[i].request == groups[i].request
            &&& all[i].total == total
            &&& all[i].done == groups[i].done.push(worker)
        },
        (forall|j: int| 0 <= j < groups.len() ==> (#[trigger] groups[j]).group != group) ==> {
            let all = recorded(groups, group, request, total, worker);
            &&& all.len() == groups.len() + 1
            &&& all.last().group == group
            &&& all.last().request == request
            &&& all.last().total == total
            &&& all.last().done == seq![worker]
        },
{
    lemma_slot_is_first(groups, group);
    let k = slot(groups, group) as int;
    if 0 <= i < groups.len() && groups[i].group == group && (forall|j: int|
        0 <= j < i ==> (#[trigger] groups[j]).group != group) {
        if k < i {
            assert(groups[k].group != group);
        }
        if i < k {
            assert(groups[i].group != group);
        }
    }
    if (forall|j: int| 0 <= j < groups.len() ==> (#[trigger] groups[j]).group != group) {
        if k < groups.len() {
            assert(groups[k].group != group);
        }
    }
}

proof fn lemma_slot_is_first(groups: Seq<GroupView>, group: u64)
    ensures
        slot(groups, group) <= groups.len(),
        slot(groups, group) < groups.len() ==> groups[slot(groups, group) as int].group == group,
        forall|j: int| 0 <= j < slot(groups, group) ==> (#[trigger] groups[j]).group != group,
    decreases groups.len(),
{
    if groups.len() > 0 && groups[0].group != group {
        let r = groups.drop_first();
        lemma_slot_is_first(r, group);
        assert forall|j: int| 0 <= j < slot(groups, group) implies (#[trigger] groups[j]).group
            != group by {
            if j > 0 {
                assert(r[j - 1].group != group);
            }
        }
    }
}

/// The report of a group holds the report of every worker of it.
pub proof fn a_group_report_holds_every_worker(acc: GroupView, i: int)
    requires
        0 <= i < acc.done.len(),
    ensures
        crate::text::contains(concat(blocks(acc.done)), block(acc.done[i])),
        ends_with(group_text(acc), concat(blocks(acc.done))),
{
    let bs = blocks(acc.done);
    let x = block(acc.done[i]);
    crate::wording::a_part_stands_in_the_whole("\n"@, x, "\n"@);
    crate::wording::a_list_put_together_holds_each(bs, i);
    crate::wording::standing_in_a_part_is_standing_in_the_whole(
        concat(bs.take(i)),
        bs[i],
        concat(bs.skip(i + 1)),
        x,
    );
    let g = group_text(acc);
    let t = concat(bs);
    assert(g.skip(g.len() - t.len()) =~= t);
}

/// A text is cut only past its limit: up to it, only line ends change, and past it the start
/// is kept with a mark behind it.
pub proof fn a_line_is_cut_only_past_its_limit(s: Seq<char>, max: nat)
    ensures
        s.len() <= max ==> truncated(s, max).len() == s.len(),
        s.len() > max ==> truncated(s, max).len() == max + 1 && truncated(s, max).last() == '…',
        forall|i: int|
            0 <= i < s.len() && i < max ==> #[trigger] truncated(s, max)[i] == if s[i] == '\n' {
                ' '
            } else {
                s[i]
            },
        s.len() <= max ==> truncated_chars(s, max) == s,
        s.len() > max ==> truncated_chars(s, max).take(max as int) == s.take(max as int),
{
    if s.len() > max {
        assert(truncated_chars(s, max).take(max as int) =~= s.take(max as int));
    }
}

/// What tasks share is shared by all of them, and ends between two words of the first.
pub proof fn an_opening_is_shared_by_all(tasks: Seq<Seq<char>>, i: int)
    requires
        0 <= i < tasks.len(),
    ensures
        opening(tasks) matches Some((shared, _)) ==> starts_with(tasks[i], shared) && shared.len()
            >= WORTH_HOISTING,
        tasks.len() < 2 ==> opening(tasks) is None,
{
    if let Some((shared, tails)) = opening(tasks) {
        opening_reassembles(tasks, i);
        let gap = choose|gap: Seq<char>| blank(gap) && tasks[i] == shared + gap + tails[i];
        assert(tasks[i].take(shared.len() as int) =~= shared);
    }
}

} // verus!
