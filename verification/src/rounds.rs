//! What a turn must have asked for: every call of a reply is announced, run or refused, and
//! answered, once and in order, before the model is asked again.
use vstd::prelude::*;

use crate::agent::capped;
use crate::command::{Ending, Order};
use crate::event::Emitted;
use crate::json::Tree;
use crate::llm::{Call, Completed, Role, Said};
use crate::tally::{one_more, seen};
use crate::turn::{
    answered, begun, calls_done, compacted, counted, cut_off, failed, finished, invalid_arguments,
    issued, measured, next_step, nudge, polled, recorded, repeat_nudge, repeat_nudges, reported,
    signature, silent, steered, tool_done, validated, Next, Phase, State, TurnSettings,
};

verus! {

// ---- reading orders ---------------------------------------------------------

/// What a reading finds among orders, in order.
pub open spec fn picked<T>(o: Seq<Order>, f: spec_fn(Order) -> Option<T>) -> Seq<T>
    decreases o.len(),
{
    if o.len() == 0 {
        seq![]
    } else {
        match f(o.last()) {
            Some(x) => picked(o.drop_last(), f).push(x),
            None => picked(o.drop_last(), f),
        }
    }
}

/// The messages that are added to the conversation.
pub open spec fn message_in() -> spec_fn(Order) -> Option<Said> {
    |o: Order|
        match o {
            Order::Append(m) => Some(m),
            _ => None,
        }
}

/// The answers to calls that are added to the conversation.
pub open spec fn answer_in() -> spec_fn(Order) -> Option<Said> {
    |o: Order|
        match o {
            Order::Append(m) => if m.role == Role::Tool {
                Some(m)
            } else {
                None
            },
            _ => None,
        }
}

/// The tools that are run, with their arguments.
pub open spec fn run_in() -> spec_fn(Order) -> Option<(Seq<char>, Tree)> {
    |o: Order|
        match o {
            Order::RunTool(name, t) => Some((name, t)),
            _ => None,
        }
}

/// The calls that are announced: the id, the name and the arguments.
pub open spec fn call_in() -> spec_fn(Order) -> Option<(Seq<char>, Seq<char>, Seq<char>)> {
    |o: Order|
        match o {
            Order::Emit(Emitted::ToolCall { id, name, arguments }) => Some((id, name, arguments)),
            _ => None,
        }
}

/// The results that are published: the id, the name, whether it went well, and the text.
pub open spec fn result_in() -> spec_fn(Order) -> Option<
    (Seq<char>, Seq<char>, bool, Seq<char>),
> {
    |o: Order|
        match o {
            Order::Emit(Emitted::ToolResult { id, name, ok, output }) => Some(
                (id, name, ok, output),
            ),
            _ => None,
        }
}

/// How the turn is said to end.
pub open spec fn ending_in() -> spec_fn(Order) -> Option<(Ending, Seq<char>)> {
    |o: Order|
        match o {
            Order::Finish(e, text) => Some((e, text)),
            _ => None,
        }
}

proof fn lemma_picked_cat<T>(a: Seq<Order>, b: Seq<Order>, f: spec_fn(Order) -> Option<T>)
    ensures
        picked(a + b, f) == picked(a, f) + picked(b, f),
    decreases b.len(),
{
    if b.len() == 0 {
        assert(a + b =~= a);
    } else {
        lemma_picked_cat(a, b.drop_last(), f);
        assert((a + b).drop_last() =~= a + b.drop_last());
        assert((a + b).last() == b.last());
    }
    assert(picked(a + b, f) =~= picked(a, f) + picked(b, f));
}

proof fn lemma_picked_one<T>(x: Order, f: spec_fn(Order) -> Option<T>)
    ensures
        picked(seq![x], f) == match f(x) {
            Some(y) => seq![y],
            None => Seq::<T>::empty(),
        },
{
    let o = seq![x];
    assert(o.drop_last() =~= seq![]);
    assert(picked(o.drop_last(), f) =~= Seq::<T>::empty());
    assert(picked(o, f) =~= match f(x) {
        Some(y) => seq![y],
        None => Seq::<T>::empty(),
    });
}

proof fn lemma_picked_none<T>(o: Seq<Order>, f: spec_fn(Order) -> Option<T>)
    requires
        forall|k: int| 0 <= k < o.len() ==> f(#[trigger] o[k]) is None,
    ensures
        picked(o, f) == Seq::<T>::empty(),
    decreases o.len(),
{
    if o.len() > 0 {
        assert(f(o[o.len() - 1]) is None);
        assert forall|k: int| 0 <= k < o.drop_last().len() implies f(
            #[trigger] o.drop_last()[k],
        ) is None by {
            assert(f(o[k]) is None);
        }
        lemma_picked_none(o.drop_last(), f);
    }
    assert(picked(o, f) =~= Seq::<T>::empty());
}

/// Do the orders hold exactly these answers, runs, calls and results?
pub open spec fn holds(
    o: Seq<Order>,
    answers: Seq<Said>,
    runs: Seq<(Seq<char>, Tree)>,
    calls: Seq<(Seq<char>, Seq<char>, Seq<char>)>,
    results: Seq<(Seq<char>, Seq<char>, bool, Seq<char>)>,
) -> bool {
    &&& picked(o, answer_in()) == answers
    &&& picked(o, run_in()) == runs
    &&& picked(o, call_in()) == calls
    &&& picked(o, result_in()) == results
}

/// Do the orders say nothing of any call?
pub open spec fn says_nothing_of_calls(o: Seq<Order>) -> bool {
    holds(o, seq![], seq![], seq![], seq![])
}

proof fn lemma_holds_cat(
    a: Seq<Order>,
    b: Seq<Order>,
)
    ensures
        holds(
            a + b,
            picked(a, answer_in()) + picked(b, answer_in()),
            picked(a, run_in()) + picked(b, run_in()),
            picked(a, call_in()) + picked(b, call_in()),
            picked(a, result_in()) + picked(b, result_in()),
        ),
{
    lemma_picked_cat(a, b, answer_in());
    lemma_picked_cat(a, b, run_in());
    lemma_picked_cat(a, b, call_in());
    lemma_picked_cat(a, b, result_in());
}

proof fn lemma_holds_one(x: Order)
    ensures
        holds(
            seq![x],
            picked(seq![x], answer_in()),
            picked(seq![x], run_in()),
            picked(seq![x], call_in()),
            picked(seq![x], result_in()),
        ),
        picked(seq![x], answer_in()) == match answer_in()(x) {
            Some(y) => seq![y],
            None => Seq::<Said>::empty(),
        },
        picked(seq![x], run_in()) == match run_in()(x) {
            Some(y) => seq![y],
            None => Seq::<(Seq<char>, Tree)>::empty(),
        },
        picked(seq![x], call_in()) == match call_in()(x) {
            Some(y) => seq![y],
            None => Seq::<(Seq<char>, Seq<char>, Seq<char>)>::empty(),
        },
        picked(seq![x], result_in()) == match result_in()(x) {
            Some(y) => seq![y],
            None => Seq::<(Seq<char>, Seq<char>, bool, Seq<char>)>::empty(),
        },
{
    lemma_picked_one(x, answer_in());
    lemma_picked_one(x, run_in());
    lemma_picked_one(x, call_in());
    lemma_picked_one(x, result_in());
}

/// Is this order about something other than a call?
pub open spec fn other(o: Order) -> bool {
    &&& answer_in()(o) is None
    &&& run_in()(o) is None
    &&& call_in()(o) is None
    &&& result_in()(o) is None
}

proof fn lemma_others(o: Seq<Order>)
    requires
        forall|k: int| 0 <= k < o.len() ==> other(#[trigger] o[k]),
    ensures
        says_nothing_of_calls(o),
{
    assert forall|k: int| 0 <= k < o.len() implies answer_in()(#[trigger] o[k]) is None by {
        assert(other(o[k]));
    }
    assert forall|k: int| 0 <= k < o.len() implies run_in()(#[trigger] o[k]) is None by {
        assert(other(o[k]));
    }
    assert forall|k: int| 0 <= k < o.len() implies call_in()(#[trigger] o[k]) is None by {
        assert(other(o[k]));
    }
    assert forall|k: int| 0 <= k < o.len() implies result_in()(#[trigger] o[k]) is None by {
        assert(other(o[k]));
    }
    lemma_picked_none(o, answer_in());
    lemma_picked_none(o, run_in());
    lemma_picked_none(o, call_in());
    lemma_picked_none(o, result_in());
}

proof fn lemma_others_cat(a: Seq<Order>, b: Seq<Order>)
    requires
        forall|k: int| 0 <= k < a.len() ==> other(#[trigger] a[k]),
        forall|k: int| 0 <= k < b.len() ==> other(#[trigger] b[k]),
    ensures
        forall|k: int| 0 <= k < (a + b).len() ==> other(#[trigger] (a + b)[k]),
{
    assert forall|k: int| 0 <= k < (a + b).len() implies other(#[trigger] (a + b)[k]) by {
        if k < a.len() {
            assert((a + b)[k] == a[k]);
        } else {
            assert((a + b)[k] == b[k - a.len()]);
        }
    }
}

// ---- what is owed to each call ----------------------------------------------

/// An answer to a call: a tool's message, under the call's id and name.
pub open spec fn answer_to(c: Call, text: Seq<char>) -> Said {
    Said {
        role: Role::Tool,
        content: Some(text),
        tool_calls: seq![],
        tool_call_id: Some(c.id),
        name: Some(c.name),
        reasoning: None,
        finish_reason: None,
        model: None,
    }
}

/// The calls before `n` whose arguments can be read, each as a run of its tool.
pub open spec fn runs_before(
    calls: Seq<Call>,
    parsed: Seq<Result<Tree, Seq<char>>>,
    n: int,
) -> Seq<(Seq<char>, Tree)>
    decreases n,
{
    if n <= 0 {
        seq![]
    } else {
        match parsed[n - 1] {
            Ok(t) => runs_before(calls, parsed, n - 1).push((calls[n - 1].name, t)),
            Err(_) => runs_before(calls, parsed, n - 1),
        }
    }
}

/// What the call at `k` is answered: what its tool gave back, or why it could not be run.
pub open spec fn reply_text(
    calls: Seq<Call>,
    parsed: Seq<Result<Tree, Seq<char>>>,
    truncated: bool,
    given: Seq<(bool, Seq<char>)>,
    k: int,
) -> Seq<char> {
    match parsed[k] {
        Ok(_) => capped(given[runs_before(calls, parsed, k).len() as int].1),
        Err(e) => capped(invalid_arguments(calls[k].name, e, truncated)),
    }
}

/// Did the call at `k` go well?
pub open spec fn went_well(
    calls: Seq<Call>,
    parsed: Seq<Result<Tree, Seq<char>>>,
    given: Seq<(bool, Seq<char>)>,
    k: int,
) -> bool {
    parsed[k] is Ok && given[runs_before(calls, parsed, k).len() as int].0
}

/// The answers to the first `n` calls.
pub open spec fn answers_before(
    calls: Seq<Call>,
    parsed: Seq<Result<Tree, Seq<char>>>,
    truncated: bool,
    given: Seq<(bool, Seq<char>)>,
    n: int,
) -> Seq<Said> {
    Seq::new(
        n as nat,
        |k: int| answer_to(calls[k], reply_text(calls, parsed, truncated, given, k)),
    )
}

/// The results of the first `n` calls, as they are published.
pub open spec fn results_before(
    calls: Seq<Call>,
    parsed: Seq<Result<Tree, Seq<char>>>,
    truncated: bool,
    given: Seq<(bool, Seq<char>)>,
    n: int,
) -> Seq<(Seq<char>, Seq<char>, bool, Seq<char>)> {
    Seq::new(
        n as nat,
        |k: int|
            (
                calls[k].id,
                calls[k].name,
                went_well(calls, parsed, given, k),
                reply_text(calls, parsed, truncated, given, k),
            ),
    )
}

/// The first `n` calls, as they are announced.
pub open spec fn calls_before(calls: Seq<Call>, n: int) -> Seq<(Seq<char>, Seq<char>, Seq<char>)> {
    Seq::new(n as nat, |k: int| (calls[k].id, calls[k].name, calls[k].arguments))
}

/// How far the round is: the call that runs, or all of them.
pub open spec fn reached(s: State) -> int {
    match s.phase {
        Phase::Running(j) => j as int,
        _ => s.calls.len() as int,
    }
}

/// Is a round as far as it says: every call before the one that runs is announced, run or
/// refused, and answered, once and in order, and the one that runs is announced and run?
pub open spec fn keeps_up(
    s: State,
    o: Seq<Order>,
    calls: Seq<Call>,
    parsed: Seq<Result<Tree, Seq<char>>>,
    truncated: bool,
    given: Seq<(bool, Seq<char>)>,
) -> bool {
    let j = reached(s);
    &&& s.calls == calls
    &&& s.parsed == parsed
    &&& s.truncated == truncated
    &&& 0 <= j <= calls.len()
    &&& s.phase is Running <==> j < calls.len()
    &&& s.phase is Running ==> parsed[j] is Ok && o.len() > 0 && o.last() == Order::RunTool(
        calls[j].name,
        parsed[j]->Ok_0,
    )
    &&& given.len() == runs_before(calls, parsed, j).len()
    &&& holds(
        o,
        answers_before(calls, parsed, truncated, given, j),
        runs_before(calls, parsed, if s.phase is Running { j + 1 } else { j }),
        calls_before(calls, if s.phase is Running { j + 1 } else { j }),
        results_before(calls, parsed, truncated, given, j),
    )
}

proof fn lemma_nudges_are_other(
    calls: Seq<Call>,
    i: int,
    counts: Map<Seq<char>, u32>,
    nudged: Set<Seq<char>>,
    threshold: u32,
)
    ensures
        forall|k: int|
            0 <= k < repeat_nudges(calls, i, counts, nudged, threshold).1.len() ==> other(
                #[trigger] repeat_nudges(calls, i, counts, nudged, threshold).1[k],
            ),
    decreases calls.len() - i,
{
    let all = repeat_nudges(calls, i, counts, nudged, threshold).1;
    if i < 0 || i >= calls.len() {
        assert(all.len() == 0);
    } else {
        let sig = signature(calls[i]);
        if seen(counts, sig) >= threshold && !nudged.contains(sig) {
            let first = nudge(repeat_nudge(calls[i].name));
            let rest = repeat_nudges(calls, i + 1, counts, nudged.insert(sig), threshold).1;
            lemma_nudges_are_other(calls, i + 1, counts, nudged.insert(sig), threshold);
            assert forall|k: int| 0 <= k < first.len() implies other(#[trigger] first[k]) by {
                assert(k == 0 || k == 1);
            }
            lemma_others_cat(first, rest);
            assert(all == first + rest);
        } else {
            lemma_nudges_are_other(calls, i + 1, counts, nudged, threshold);
            assert(all == repeat_nudges(calls, i + 1, counts, nudged, threshold).1);
        }
    }
}

proof fn lemma_calls_done_is_other(s: State)
    ensures
        says_nothing_of_calls(calls_done(s).1),
{
    let t = s.settings.stuck_threshold;
    let n = repeat_nudges(s.calls, 0, s.counts, s.nudged, t);
    lemma_nudges_are_other(s.calls, 0, s.counts, s.nudged, t);
    let m = next_step(State { nudged: n.0, step: s.step + 1, ..s });
    lemma_others_cat(n.1, m.1);
    lemma_others(n.1 + m.1);
}

proof fn lemma_reported(c: Call, ok: bool, text: Seq<char>)
    ensures
        holds(
            reported(c, ok, text),
            seq![answer_to(c, text)],
            seq![],
            seq![],
            seq![(c.id, c.name, ok, text)],
        ),
{
    let a = Order::Emit(Emitted::ToolResult { id: c.id, name: c.name, ok, output: text });
    let b = Order::Append(answer_to(c, text));
    assert(reported(c, ok, text) =~= seq![a] + seq![b]);
    lemma_holds_one(a);
    lemma_holds_one(b);
    lemma_holds_cat(seq![a], seq![b]);
    assert(seq![answer_to(c, text)] =~= Seq::<Said>::empty() + seq![answer_to(c, text)]);
    assert(seq![(c.id, c.name, ok, text)] =~= seq![(c.id, c.name, ok, text)] + Seq::<
        (Seq<char>, Seq<char>, bool, Seq<char>),
    >::empty());
    assert(Seq::<(Seq<char>, Tree)>::empty() + Seq::<(Seq<char>, Tree)>::empty() =~= seq![]);
    assert(Seq::<(Seq<char>, Seq<char>, Seq<char>)>::empty() + Seq::<
        (Seq<char>, Seq<char>, Seq<char>),
    >::empty() =~= seq![]);
}

/// What came before, when the calls from `i` on are taken up.
proof fn lemma_taken_up(
    s: State,
    o: Seq<Order>,
    i: int,
    given: Seq<(bool, Seq<char>)>,
)
    requires
        0 <= i <= s.calls.len(),
        s.calls.len() == s.parsed.len(),
        s.calls.len() <= usize::MAX,
        given.len() == runs_before(s.calls, s.parsed, i).len(),
        holds(
            o,
            answers_before(s.calls, s.parsed, s.truncated, given, i),
            runs_before(s.calls, s.parsed, i),
            calls_before(s.calls, i),
            results_before(s.calls, s.parsed, s.truncated, given, i),
        ),
    ensures
        keeps_up(
            issued(s, i).0,
            o + issued(s, i).1,
            s.calls,
            s.parsed,
            s.truncated,
            given,
        ),
        i <= reached(issued(s, i).0),
    decreases s.calls.len() - i,
{
    let n = issued(s, i);
    if i >= s.calls.len() {
        lemma_calls_done_is_other(s);
        lemma_holds_cat(o, n.1);
        assert(answers_before(s.calls, s.parsed, s.truncated, given, i) + Seq::<Said>::empty()
            =~= answers_before(s.calls, s.parsed, s.truncated, given, i));
        assert(runs_before(s.calls, s.parsed, i) + Seq::<(Seq<char>, Tree)>::empty()
            =~= runs_before(s.calls, s.parsed, i));
        assert(calls_before(s.calls, i) + Seq::<(Seq<char>, Seq<char>, Seq<char>)>::empty()
            =~= calls_before(s.calls, i));
        assert(results_before(s.calls, s.parsed, s.truncated, given, i) + Seq::<
            (Seq<char>, Seq<char>, bool, Seq<char>),
        >::empty() =~= results_before(s.calls, s.parsed, s.truncated, given, i));
    } else {
        let c = s.calls[i];
        let call = Order::Emit(
            Emitted::ToolCall { id: c.id, name: c.name, arguments: c.arguments },
        );
        lemma_holds_one(call);
        lemma_holds_cat(o, seq![call]);
        let a = o + seq![call];
        assert(calls_before(s.calls, i) + seq![(c.id, c.name, c.arguments)] =~= calls_before(
            s.calls,
            i + 1,
        ));
        match s.parsed[i] {
            Ok(t) => {
                let run = Order::RunTool(c.name, t);
                lemma_holds_one(run);
                lemma_holds_cat(a, seq![run]);
                assert(o + n.1 =~= a + seq![run]);
                let x = answers_before(s.calls, s.parsed, s.truncated, given, i);
                let y = runs_before(s.calls, s.parsed, i);
                let z = results_before(s.calls, s.parsed, s.truncated, given, i);
                assert(x + Seq::<Said>::empty() + Seq::<Said>::empty() =~= x);
                assert(y + Seq::<(Seq<char>, Tree)>::empty() + seq![(c.name, t)] =~= y.push(
                    (c.name, t),
                ));
                assert(z + Seq::<(Seq<char>, Seq<char>, bool, Seq<char>)>::empty() + Seq::<
                    (Seq<char>, Seq<char>, bool, Seq<char>),
                >::empty() =~= z);
                assert(calls_before(s.calls, i + 1) + Seq::<
                    (Seq<char>, Seq<char>, Seq<char>),
                >::empty() =~= calls_before(s.calls, i + 1));
                assert((o + n.1).last() == run);
            },
            Err(e) => {
                let text = capped(invalid_arguments(c.name, e, s.truncated));
                let r = reported(c, false, text);
                lemma_reported(c, false, text);
                lemma_holds_cat(a, r);
                let b = a + r;
                let x = answers_before(s.calls, s.parsed, s.truncated, given, i);
                let y = runs_before(s.calls, s.parsed, i);
                let z = results_before(s.calls, s.parsed, s.truncated, given, i);
                assert(x + Seq::<Said>::empty() + seq![answer_to(c, text)] =~= answers_before(
                    s.calls,
                    s.parsed,
                    s.truncated,
                    given,
                    i + 1,
                ));
                assert(y + Seq::<(Seq<char>, Tree)>::empty() + Seq::<
                    (Seq<char>, Tree),
                >::empty() =~= y);
                assert(z + Seq::<(Seq<char>, Seq<char>, bool, Seq<char>)>::empty() + seq![
                    (c.id, c.name, false, text),
                ] =~= results_before(s.calls, s.parsed, s.truncated, given, i + 1));
                assert(calls_before(s.calls, i + 1) + Seq::<
                    (Seq<char>, Seq<char>, Seq<char>),
                >::empty() =~= calls_before(s.calls, i + 1));
                lemma_taken_up(s, b, i + 1, given);
                assert(o + n.1 =~= b + issued(s, i + 1).1);
            },
        }
    }
}

// ---- laws -------------------------------------------------------------------

/// A result goes to the call that ran, and then the round goes on with the very next call:
/// what was in order before it is in order after it, one result further. With the last
/// call answered, and not before, the round is over.
pub proof fn a_result_answers_its_call_and_the_round_goes_on(
    s: State,
    o: Seq<Order>,
    truncated: bool,
    given: Seq<(bool, Seq<char>)>,
    ok: bool,
    raw: Seq<char>,
)
    requires
        s.phase is Running,
        s.calls.len() == s.parsed.len(),
        s.calls.len() <= usize::MAX,
        keeps_up(s, o, s.calls, s.parsed, truncated, given),
    ensures
        ({
            let j = reached(s);
            let n = tool_done(s, j, ok, false, raw);
            &&& keeps_up(n.0, o + n.1, s.calls, s.parsed, truncated, given.push((ok, raw)))
            &&& reached(n.0) > j
            &&& j + 1 < s.calls.len() && s.parsed[j + 1] is Ok ==> n.0.phase == Phase::Running(
                (j + 1) as usize,
            )
            &&& !(n.0.phase is Running) ==> forall|k: int|
                j < k < s.calls.len() ==> (#[trigger] s.parsed[k]) is Err
        }),
{
    let j = reached(s);
    let n = tool_done(s, j, ok, false, raw);
    let c = s.calls[j];
    let text = capped(raw);
    let r = reported(c, ok, text);
    let more = given.push((ok, raw));
    lemma_reported(c, ok, text);
    lemma_holds_cat(o, r);
    let b = o + r;
    lemma_given_more(s.calls, s.parsed, truncated, given, (ok, raw), j);
    lemma_runs_grow(s.calls, s.parsed, j);
    assert(answers_before(s.calls, s.parsed, truncated, given, j) + seq![answer_to(c, text)]
        =~= answers_before(s.calls, s.parsed, truncated, more, j + 1));
    assert(results_before(s.calls, s.parsed, truncated, given, j) + seq![
        (c.id, c.name, ok, text),
    ] =~= results_before(s.calls, s.parsed, truncated, more, j + 1));
    assert(runs_before(s.calls, s.parsed, j + 1) + Seq::<(Seq<char>, Tree)>::empty()
        =~= runs_before(s.calls, s.parsed, j + 1));
    assert(calls_before(s.calls, j + 1) + Seq::<(Seq<char>, Seq<char>, Seq<char>)>::empty()
        =~= calls_before(s.calls, j + 1));
    lemma_taken_up(s, b, j + 1, more);
    assert(o + n.1 =~= b + issued(s, j + 1).1);
    if !(n.0.phase is Running) {
        lemma_none_left(s, j + 1);
    }
}

proof fn lemma_none_left(s: State, i: int)
    requires
        0 <= i <= s.calls.len(),
        !(issued(s, i).0.phase is Running),
    ensures
        forall|k: int| i <= k < s.calls.len() ==> (#[trigger] s.parsed[k]) is Err,
    decreases s.calls.len() - i,
{
    if i < s.calls.len() {
        match s.parsed[i] {
            Ok(_) => {},
            Err(_) => {
                lemma_none_left(s, i + 1);
            },
        }
    }
}

proof fn lemma_runs_grow(calls: Seq<Call>, parsed: Seq<Result<Tree, Seq<char>>>, n: int)
    requires
        n >= 0,
    ensures
        runs_before(calls, parsed, n).len() <= n,
        forall|k: int|
            0 <= k <= n ==> (#[trigger] runs_before(calls, parsed, k)).len() <= runs_before(
                calls,
                parsed,
                n,
            ).len(),
        forall|k: int|
            0 <= k < n && parsed[k] is Ok ==> (#[trigger] runs_before(calls, parsed, k)).len()
                < runs_before(calls, parsed, n).len(),
    decreases n,
{
    if n > 0 {
        lemma_runs_grow(calls, parsed, n - 1);
    }
}

proof fn lemma_given_more(
    calls: Seq<Call>,
    parsed: Seq<Result<Tree, Seq<char>>>,
    truncated: bool,
    given: Seq<(bool, Seq<char>)>,
    x: (bool, Seq<char>),
    n: int,
)
    requires
        n >= 0,
        given.len() == runs_before(calls, parsed, n).len(),
    ensures
        forall|k: int|
            0 <= k < n ==> #[trigger] reply_text(calls, parsed, truncated, given.push(x), k)
                == reply_text(calls, parsed, truncated, given, k),
        forall|k: int|
            0 <= k < n ==> #[trigger] went_well(calls, parsed, given.push(x), k) == went_well(
                calls,
                parsed,
                given,
                k,
            ),
{
    lemma_runs_grow(calls, parsed, n);
    assert forall|k: int| 0 <= k < n implies #[trigger] reply_text(
        calls,
        parsed,
        truncated,
        given.push(x),
        k,
    ) == reply_text(calls, parsed, truncated, given, k) by {
        assert(runs_before(calls, parsed, k).len() <= given.len());
    }
    assert forall|k: int| 0 <= k < n implies #[trigger] went_well(calls, parsed, given.push(x), k)
        == went_well(calls, parsed, given, k) by {
        assert(runs_before(calls, parsed, k).len() <= given.len());
    }
}

/// What a reply says of itself says nothing of its calls' results.
proof fn lemma_recorded_is_other(
    c: Completed,
    parsed: Seq<Result<Tree, Seq<char>>>,
    model: Seq<char>,
)
    ensures
        says_nothing_of_calls(recorded(c, parsed, model)),
{
    lemma_others(recorded(c, parsed, model));
}

/// A reply with calls is taken up from its first call on, unless the turn ends as stuck.
pub proof fn a_reply_takes_up_its_calls(
    s: State,
    c: Completed,
    parsed: Seq<Result<Tree, Seq<char>>>,
)
    requires
        c.tool_calls.len() > 0,
        c.tool_calls.len() == parsed.len(),
        c.tool_calls.len() <= usize::MAX,
        counted(c.tool_calls, 0, s.counts, s.settings.stuck_threshold).1 is None,
    ensures
        keeps_up(
            answered(s, c, parsed).0,
            answered(s, c, parsed).1,
            c.tool_calls,
            parsed,
            cut_off(c),
            seq![],
        ),
        parsed[0] is Ok ==> answered(s, c, parsed).0.phase == Phase::Running(0),
        !(answered(s, c, parsed).0.phase is Running) ==> forall|k: int|
            0 <= k < parsed.len() ==> (#[trigger] parsed[k]) is Err,
{
    let head = recorded(c, parsed, s.settings.model@);
    lemma_recorded_is_other(c, parsed, s.settings.model@);
    let n = answered(s, c, parsed);
    let t = State {
        prompt_tokens: c.usage.prompt_tokens,
        final_text: crate::turn::text_after(s.final_text, c.content),
        truncated: cut_off(c),
        counts: counted(c.tool_calls, 0, s.counts, s.settings.stuck_threshold).0,
        calls: c.tool_calls,
        parsed,
        ..s
    };
    assert(n == (issued(t, 0).0, head + issued(t, 0).1));
    assert(answers_before(t.calls, t.parsed, t.truncated, seq![], 0) =~= seq![]);
    assert(calls_before(t.calls, 0) =~= seq![]);
    assert(results_before(t.calls, t.parsed, t.truncated, seq![], 0) =~= seq![]);
    lemma_taken_up(t, head, 0, seq![]);
    if !(n.0.phase is Running) {
        lemma_none_left(t, 0);
    }
}

/// What a round comes to, given what its tools give back, one after another.
pub open spec fn played(n: Next, given: Seq<(bool, Seq<char>)>) -> Next
    decreases given.len(),
{
    if given.len() == 0 {
        n
    } else {
        let p = played(n, given.drop_last());
        match p.0.phase {
            Phase::Running(j) => {
                let m = tool_done(p.0, j as int, given.last().0, false, given.last().1);
                (m.0, p.1 + m.1)
            },
            _ => p,
        }
    }
}

/// Every call of a reply is answered before the model is asked again: with a result for
/// each call that can be run, each of these was run once, in order, with its own arguments,
/// and each call of the reply has one answer under its own id, in order.
pub proof fn every_call_of_a_reply_is_answered(
    s: State,
    c: Completed,
    parsed: Seq<Result<Tree, Seq<char>>>,
    given: Seq<(bool, Seq<char>)>,
)
    requires
        c.tool_calls.len() > 0,
        c.tool_calls.len() == parsed.len(),
        c.tool_calls.len() <= usize::MAX,
        counted(c.tool_calls, 0, s.counts, s.settings.stuck_threshold).1 is None,
        given.len() <= runs_before(c.tool_calls, parsed, parsed.len() as int).len(),
    ensures
        ({
            let n = played(answered(s, c, parsed), given);
            &&& keeps_up(n.0, n.1, c.tool_calls, parsed, cut_off(c), given)
            &&& !(n.0.phase is Running) <==> given.len() == runs_before(
                c.tool_calls,
                parsed,
                parsed.len() as int,
            ).len()
            &&& !(n.0.phase is Running) ==> holds(
                n.1,
                answers_before(c.tool_calls, parsed, cut_off(c), given, parsed.len() as int),
                runs_before(c.tool_calls, parsed, parsed.len() as int),
                calls_before(c.tool_calls, parsed.len() as int),
                results_before(c.tool_calls, parsed, cut_off(c), given, parsed.len() as int),
            )
        }),
    decreases given.len(),
{
    let calls = c.tool_calls;
    let all = parsed.len() as int;
    a_reply_takes_up_its_calls(s, c, parsed);
    lemma_runs_grow(calls, parsed, all);
    if given.len() > 0 {
        let fewer = given.drop_last();
        every_call_of_a_reply_is_answered(s, c, parsed, fewer);
        let p = played(answered(s, c, parsed), fewer);
        a_result_answers_its_call_and_the_round_goes_on(
            p.0,
            p.1,
            cut_off(c),
            fewer,
            given.last().0,
            given.last().1,
        );
        assert(fewer.push((given.last().0, given.last().1)) =~= given);
    } else {
        assert(given =~= seq![]);
    }
    let n = played(answered(s, c, parsed), given);
    let j = reached(n.0);
    if n.0.phase is Running {
        assert(runs_before(calls, parsed, j).len() < runs_before(calls, parsed, all).len());
    }
}

/// A result that ends the turn is answered to its call and ends it as blocked, with what it
/// said: no other tool is run and the model is not asked again.
pub proof fn a_fatal_result_ends_the_turn(s: State, i: int, ok: bool, raw: Seq<char>)
    requires
        0 <= i < s.calls.len(),
    ensures
        ({
            let n = tool_done(s, i, ok, true, raw);
            &&& n.0.phase == Phase::Over
            &&& holds(
                n.1,
                seq![answer_to(s.calls[i], capped(raw))],
                seq![],
                seq![],
                seq![(s.calls[i].id, s.calls[i].name, ok, capped(raw))],
            )
            &&& picked(n.1, ending_in()) == seq![(Ending::Blocked(capped(raw)), s.final_text)]
        }),
{
    let c = s.calls[i];
    let text = capped(raw);
    let n = tool_done(s, i, ok, true, raw);
    let r = reported(c, ok, text);
    let rest = seq![
        Order::Emit(Emitted::Error(text)),
    ] + finished(s, Ending::Blocked(text)).1;
    assert(n.1 =~= r + rest);
    lemma_reported(c, ok, text);
    lemma_others(rest);
    lemma_holds_cat(r, rest);
    assert(seq![answer_to(c, text)] + Seq::<Said>::empty() =~= seq![answer_to(c, text)]);
    assert(seq![(c.id, c.name, ok, text)] + Seq::<
        (Seq<char>, Seq<char>, bool, Seq<char>),
    >::empty() =~= seq![(c.id, c.name, ok, text)]);
    assert(Seq::<(Seq<char>, Tree)>::empty() + Seq::<(Seq<char>, Tree)>::empty() =~= seq![]);
    assert(Seq::<(Seq<char>, Seq<char>, Seq<char>)>::empty() + Seq::<
        (Seq<char>, Seq<char>, Seq<char>),
    >::empty() =~= seq![]);
    let end = Order::Finish(Ending::Blocked(text), s.final_text);
    let before = n.1.drop_last();
    assert(n.1 =~= before + seq![end]);
    lemma_picked_none(before, ending_in());
    lemma_picked_one(end, ending_in());
    lemma_picked_cat(before, seq![end], ending_in());
    assert(Seq::<(Ending, Seq<char>)>::empty() + seq![(Ending::Blocked(text), s.final_text)]
        =~= seq![(Ending::Blocked(text), s.final_text)]);
}

// ---- the other orders of a turn ---------------------------------------------

/// A message from the user.
pub open spec fn from_user(text: Seq<char>) -> Said {
    Said {
        role: Role::User,
        content: Some(text),
        tool_calls: seq![],
        tool_call_id: None,
        name: None,
        reasoning: None,
        finish_reason: None,
        model: None,
    }
}

proof fn lemma_steered(ms: Seq<Seq<char>>)
    ensures
        picked(steered(ms), message_in()) == Seq::new(ms.len(), |k: int| from_user(ms[k])),
        picked(steered(ms), ending_in()) == Seq::<(Ending, Seq<char>)>::empty(),
    decreases ms.len(),
{
    if ms.len() == 0 {
        assert(picked(steered(ms), message_in()) =~= Seq::new(
            ms.len(),
            |k: int| from_user(ms[k]),
        ));
    } else {
        lemma_steered(ms.drop_last());
        let a = Order::Emit(Emitted::Nudge(ms.last()));
        let b = Order::Append(from_user(ms.last()));
        lemma_picked_one(a, message_in());
        lemma_picked_one(b, message_in());
        lemma_picked_one(a, ending_in());
        lemma_picked_one(b, ending_in());
        lemma_picked_cat(seq![a], seq![b], message_in());
        lemma_picked_cat(seq![a], seq![b], ending_in());
        assert(nudge(ms.last()) =~= seq![a] + seq![b]);
        lemma_picked_cat(steered(ms.drop_last()), nudge(ms.last()), message_in());
        lemma_picked_cat(steered(ms.drop_last()), nudge(ms.last()), ending_in());
        assert(picked(steered(ms), message_in()) =~= Seq::new(
            ms.len(),
            |k: int| from_user(ms[k]),
        ));
        assert(picked(steered(ms), ending_in()) =~= Seq::<(Ending, Seq<char>)>::empty());
    }
}

/// All that was posted to a turn reaches the model, in order and each as a message of its
/// own, and then the history is measured. A cancelled turn ends as aborted instead.
pub proof fn all_that_was_posted_is_passed_on(s: State, ms: Seq<Seq<char>>)
    ensures
        polled(s, false, ms).0 == (State { phase: Phase::Measuring, ..s }),
        picked(polled(s, false, ms).1, message_in()) == Seq::new(
            ms.len(),
            |k: int| from_user(ms[k]),
        ),
        polled(s, false, ms).1.last() == Order::Measure,
        polled(s, true, ms).0.phase == Phase::Over,
        picked(polled(s, true, ms).1, ending_in()) == seq![(Ending::Aborted, s.final_text)],
        picked(polled(s, true, ms).1, message_in()) == Seq::<Said>::empty(),
{
    lemma_steered(ms);
    lemma_picked_one(Order::Measure, message_in());
    lemma_picked_cat(steered(ms), seq![Order::Measure], message_in());
    assert(polled(s, false, ms).1 =~= steered(ms) + seq![Order::Measure]);
    assert(picked(polled(s, false, ms).1, message_in()) =~= Seq::new(
        ms.len(),
        |k: int| from_user(ms[k]),
    ));
    lemma_finished(s, Ending::Aborted);
}

proof fn lemma_finished(s: State, e: Ending)
    ensures
        picked(finished(s, e).1, ending_in()) == seq![(e, s.final_text)],
        picked(finished(s, e).1, message_in()) == Seq::<Said>::empty(),
{
    let o = finished(s, e).1;
    let a = o[0];
    let b = Order::Finish(e, s.final_text);
    assert(o =~= seq![a] + seq![b]);
    lemma_picked_one(a, ending_in());
    lemma_picked_one(b, ending_in());
    lemma_picked_one(a, message_in());
    lemma_picked_one(b, message_in());
    lemma_picked_cat(seq![a], seq![b], ending_in());
    lemma_picked_cat(seq![a], seq![b], message_in());
    assert(picked(o, ending_in()) =~= seq![(e, s.final_text)]);
    assert(picked(o, message_in()) =~= Seq::<Said>::empty());
}

/// History is summarized first just where more than three quarters of the window are
/// taken, by the larger of what was estimated and what the provider counted.
pub proof fn a_full_window_is_compacted_first(s: State, estimate: nat)
    ensures
        ({
            let full = 4 * estimate > 3 * s.settings.context_limit || 4 * s.prompt_tokens > 3
                * s.settings.context_limit;
            &&& full ==> measured(s, estimate) == (
                State { phase: Phase::Compacting, ..s },
                seq![Order::Compact],
            )
            &&& !full ==> measured(s, estimate) == (
                State { phase: Phase::Calling, ..s },
                seq![Order::CallModel],
            )
        }),
{
}

/// However a summary went, the model is called next; a failure is only told.
pub proof fn a_failed_summary_does_not_stop_the_turn(s: State, failure: Option<Seq<char>>)
    ensures
        compacted(s, failure).0 == (State { phase: Phase::Calling, ..s }),
        compacted(s, failure).1.last() == Order::CallModel,
        compacted(s, failure).1.len() == if failure is Some {
            2int
        } else {
            1int
        },
        failure matches Some(e) ==> (compacted(s, failure).1[0] matches Order::Emit(
            Emitted::Error(t),
        ) && crate::text::contains(t, e)),
{
    if let Some(e) = failure {
        let t = "compaction failed: "@ + e;
        let at = "compaction failed: "@.len() as int;
        assert(t.subrange(at, at + e.len()) =~= e);
        assert(crate::text::occurs_at(t, e, at));
    }
}

/// A turn begins with the user's message and nothing else in the conversation, with all
/// its steps and all its retries before it.
pub proof fn a_turn_begins_with_what_was_asked(settings: TurnSettings, input: Seq<char>)
    ensures
        ({
            let n = begun(settings, input);
            &&& picked(n.1, message_in()) == seq![from_user(input)]
            &&& n.1[0] == Order::Append(from_user(input))
            &&& n.0.settings == settings
            &&& n.0.step == 0
            &&& n.0.retries_left == settings.max_retries
            &&& n.0.empty == 0
            &&& n.0.final_text.len() == 0
            &&& settings.max_steps > 0 ==> n.0.phase == Phase::Polling && n.1.last()
                == Order::Poll
            &&& settings.max_steps == 0 ==> n.0.phase == Phase::Over && picked(n.1, ending_in())
                == seq![(Ending::MaxSteps, Seq::<char>::empty())]
        }),
{
    let n = begun(settings, input);
    let a = Order::Append(from_user(input));
    let b = Order::Emit(Emitted::UserMessage(input));
    let rest = n.1.skip(2);
    assert(n.1 =~= seq![a] + (seq![b] + rest));
    lemma_picked_one(a, message_in());
    lemma_picked_one(b, message_in());
    lemma_picked_one(a, ending_in());
    lemma_picked_one(b, ending_in());
    lemma_picked_cat(seq![a], seq![b] + rest, message_in());
    lemma_picked_cat(seq![b], rest, message_in());
    lemma_picked_cat(seq![a], seq![b] + rest, ending_in());
    lemma_picked_cat(seq![b], rest, ending_in());
    if settings.max_steps > 0 {
        assert(rest =~= seq![Order::Poll]);
        lemma_picked_one(Order::Poll, message_in());
    } else {
        assert(rest =~= finished(n.0, Ending::MaxSteps).1);
        lemma_finished(n.0, Ending::MaxSteps);
        assert(picked(n.1, ending_in()) =~= seq![(Ending::MaxSteps, Seq::<char>::empty())]);
    }
    assert(picked(n.1, message_in()) =~= seq![from_user(input)]);
}

/// A check that passes ends the turn as done. One that fails is told to the model, in full,
/// and spends a retry on a fresh attempt; with none left, it ends the turn with the reason.
pub proof fn a_failed_check_spends_a_retry(s: State, check: Seq<char>, why: Seq<char>)
    ensures
        validated(s, check, None).0.phase == Phase::Over,
        picked(validated(s, check, None).1, ending_in()) == seq![(Ending::Done, s.final_text)],
        s.retries_left == 0 ==> validated(s, check, Some(why)).0.phase == Phase::Over && picked(
            validated(s, check, Some(why)).1,
            ending_in(),
        ) == seq![(Ending::ValidationFailed(why), s.final_text)],
        s.retries_left > 0 && s.settings.max_steps > 0 ==> ({
            let n = validated(s, check, Some(why));
            &&& n.0.retries_left == s.retries_left - 1
            &&& n.0.step == 0
            &&& n.0.empty == 0
            &&& n.0.counts == Map::<Seq<char>, u32>::empty()
            &&& n.0.nudged == Set::<Seq<char>>::empty()
            &&& n.0.phase == Phase::Polling
            &&& n.0.final_text == s.final_text
            &&& picked(n.1, ending_in()) == Seq::<(Ending, Seq<char>)>::empty()
            &&& picked(n.1, message_in()).len() == 1
            &&& picked(n.1, message_in())[0].role == Role::User
            &&& picked(n.1, message_in())[0].content matches Some(t) && crate::text::contains(
                t,
                why,
            ) && crate::text::contains(t, check)
        }),
{
    lemma_finished(s, Ending::Done);
    lemma_finished(s, Ending::ValidationFailed(why));
    let p = Order::Emit(Emitted::Validation(true, check));
    lemma_picked_one(p, ending_in());
    lemma_picked_cat(seq![p], finished(s, Ending::Done).1, ending_in());
    assert(picked(validated(s, check, None).1, ending_in()) =~= seq![(Ending::Done, s.final_text)]);
    let q = Order::Emit(Emitted::Validation(false, why));
    lemma_picked_one(q, ending_in());
    lemma_picked_one(q, message_in());
    lemma_picked_cat(seq![q], finished(s, Ending::ValidationFailed(why)).1, ending_in());
    let n = validated(s, check, Some(why));
    if s.retries_left == 0 {
        assert(picked(n.1, ending_in()) =~= seq![(Ending::ValidationFailed(why), s.final_text)]);
    } else if s.settings.max_steps > 0 {
        assert(n.1.len() == 4);
        let r = n.1[1];
        let t = crate::turn::replan(check, why);
        let m = Order::Append(from_user(t));
        assert(n.1 =~= seq![q] + (seq![r] + (seq![m] + seq![Order::Poll])));
        lemma_picked_one(r, message_in());
        lemma_picked_one(m, message_in());
        lemma_picked_one(Order::Poll, message_in());
        lemma_picked_one(r, ending_in());
        lemma_picked_one(m, ending_in());
        lemma_picked_one(Order::Poll, ending_in());
        lemma_picked_cat(seq![m], seq![Order::Poll], message_in());
        lemma_picked_cat(seq![r], seq![m] + seq![Order::Poll], message_in());
        lemma_picked_cat(seq![q], seq![r] + (seq![m] + seq![Order::Poll]), message_in());
        lemma_picked_cat(seq![m], seq![Order::Poll], ending_in());
        lemma_picked_cat(seq![r], seq![m] + seq![Order::Poll], ending_in());
        lemma_picked_cat(seq![q], seq![r] + (seq![m] + seq![Order::Poll]), ending_in());
        assert(picked(n.1, message_in()) =~= seq![from_user(t)]);
        assert(picked(n.1, ending_in()) =~= Seq::<(Ending, Seq<char>)>::empty());
        let at = "The validation check "@.len() as int;
        assert(t.subrange(at, at + check.len()) =~= check);
        assert(crate::text::occurs_at(t, check, at));
        let to = ("The validation check "@ + check + " did not pass:\n\n"@).len() as int;
        assert(t.subrange(to, to + why.len()) =~= why);
        assert(crate::text::occurs_at(t, why, to));
    }
}

/// A reply goes into the conversation as it came: what it said, what it thought, and every
/// call under its own id and name, with its own arguments where these can be read. Nothing
/// of the calls at hand or of earlier counts is lost.
pub proof fn a_reply_is_kept_whole(
    s: State,
    c: Completed,
    parsed: Seq<Result<Tree, Seq<char>>>,
)
    requires
        parsed.len() == c.tool_calls.len(),
    ensures
        ({
            let n = answered(s, c, parsed);
            &&& picked(n.1, message_in()).len() > 0
            &&& picked(n.1, message_in())[0].role == Role::Assistant
            &&& picked(n.1, message_in())[0].content == c.content
            &&& picked(n.1, message_in())[0].reasoning == c.reasoning
            &&& picked(n.1, message_in())[0].finish_reason == c.finish_reason
            &&& picked(n.1, message_in())[0].model == Some(s.settings.model@)
            &&& picked(n.1, message_in())[0].tool_call_id is None
            &&& picked(n.1, message_in())[0].tool_calls.len() == c.tool_calls.len()
            &&& forall|k: int|
                0 <= k < c.tool_calls.len() ==> {
                    let kept = (#[trigger] picked(n.1, message_in())[0].tool_calls[k]);
                    &&& kept.id == c.tool_calls[k].id
                    &&& kept.name == c.tool_calls[k].name
                    &&& parsed[k] is Ok ==> kept.arguments == c.tool_calls[k].arguments
                }
            &&& n.0.prompt_tokens == c.usage.prompt_tokens
            &&& n.0.final_text == if c.content matches Some(t) && t.len() > 0 {
                c.content->0
            } else {
                s.final_text
            }
        }),
{
    let n = answered(s, c, parsed);
    let head = recorded(c, parsed, s.settings.model@);
    let a = head[0];
    let b = head[1];
    let rest = n.1.skip(2);
    let u = State {
        prompt_tokens: c.usage.prompt_tokens,
        final_text: crate::turn::text_after(s.final_text, c.content),
        truncated: cut_off(c),
        ..s
    };
    assert(head.len() >= 2);
    if c.tool_calls.len() > 0 {
        let w = counted(c.tool_calls, 0, s.counts, s.settings.stuck_threshold);
        let v = State { counts: w.0, calls: c.tool_calls, parsed, ..u };
        lemma_issued_keeps_text(v, 0);
    }
    assert(n.1.len() >= head.len() && n.1.take(head.len() as int) =~= head);
    assert(n.1[0] == head[0] && n.1[1] == head[1]) by {
        assert(n.1.take(head.len() as int)[0] == head[0]);
        assert(n.1.take(head.len() as int)[1] == head[1]);
    }
    assert(n.1 =~= seq![a] + (seq![b] + rest));
    lemma_picked_one(a, message_in());
    lemma_picked_one(b, message_in());
    lemma_picked_cat(seq![a], seq![b] + rest, message_in());
    lemma_picked_cat(seq![b], rest, message_in());
    let said = b->Append_0;
    assert(picked(n.1, message_in()) =~= seq![said] + picked(rest, message_in()));
    assert(picked(n.1, message_in())[0] == said);
}

proof fn lemma_issued_keeps_text(s: State, i: int)
    ensures
        issued(s, i).0.final_text == s.final_text,
        issued(s, i).0.prompt_tokens == s.prompt_tokens,
    decreases s.calls.len() - i,
{
    if 0 <= i < s.calls.len() && s.parsed[i] is Err {
        lemma_issued_keeps_text(s, i + 1);
    }
}

/// A reply without calls: one that says something ends the attempt, by the check where
/// there is one; one that says nothing is nudged about, twice, and then the turn is stuck.
pub proof fn a_reply_without_calls_ends_the_attempt(
    s: State,
    c: Completed,
    parsed: Seq<Result<Tree, Seq<char>>>,
)
    requires
        c.tool_calls.len() == 0,
    ensures
        ({
            let n = answered(s, c, parsed);
            &&& !silent(c) && s.settings.validated ==> n.0.phase == Phase::Validating
                && n.1.last() == Order::Validate
            &&& !silent(c) && !s.settings.validated ==> n.0.phase == Phase::Over && n.1.last()
                == Order::Finish(Ending::Done, n.0.final_text)
            &&& silent(c) && s.empty >= 2 ==> n.0.phase == Phase::Over && (n.1.last() matches Order::Finish(
                Ending::Stuck(_),
                t,
            ) && t == n.0.final_text)
            &&& silent(c) && s.empty < 2 ==> n.0.empty == s.empty + 1 && n.0.step == s.step + 1
                && (s.step + 1 < s.settings.max_steps ==> n.0.phase == Phase::Polling
                && n.1.last() == Order::Poll) && (s.step + 1 >= s.settings.max_steps ==> n.0.phase
                == Phase::Over && n.1.last() == Order::Finish(Ending::MaxSteps, n.0.final_text))
        }),
{
}

// ---- repeated calls ---------------------------------------------------------

/// How often a call with these arguments stands among the first `n`.
pub open spec fn times(calls: Seq<Call>, sig: Seq<char>, n: int) -> nat
    decreases n,
{
    if n <= 0 {
        0
    } else {
        times(calls, sig, n - 1) + if signature(calls[n - 1]) == sig {
            1nat
        } else {
            0
        }
    }
}

proof fn lemma_counted(calls: Seq<Call>, i: int, counts: Map<Seq<char>, u32>, threshold: u32, first: Map<Seq<char>, u32>)
    requires
        0 <= i <= calls.len(),
        threshold + 2 <= u32::MAX,
        forall|sig: Seq<char>| #[trigger] seen(counts, sig) == seen(first, sig) + times(calls, sig, i),
        forall|k: int|
            0 <= k < i ==> seen(first, signature(#[trigger] calls[k])) + times(
                calls,
                signature(calls[k]),
                k + 1,
            ) < threshold + 2,
    ensures
        counted(calls, i, counts, threshold).1 is None ==> (forall|sig: Seq<char>| #[trigger]
            seen(counted(calls, i, counts, threshold).0, sig) == seen(first, sig) + times(
                calls,
                sig,
                calls.len() as int,
            )),
        counted(calls, i, counts, threshold).1 is None <==> (forall|k: int|
            0 <= k < calls.len() ==> seen(first, signature(#[trigger] calls[k])) + times(
                calls,
                signature(calls[k]),
                k + 1,
            ) < threshold + 2),
    decreases calls.len() - i,
{
    if i < calls.len() {
        let sig = signature(calls[i]);
        let n = one_more(seen(counts, sig));
        let next = counts.insert(sig, n);
        assert(seen(counts, sig) == seen(first, sig) + times(calls, sig, i));
        assert(times(calls, sig, i + 1) == times(calls, sig, i) + 1);
        if n >= threshold + 2 {
            assert(seen(first, signature(calls[i])) + times(calls, signature(calls[i]), i + 1)
                >= threshold + 2) by {
                assert(n <= seen(counts, sig) + 1);
            }
        } else {
            assert(n == seen(counts, sig) + 1);
            assert forall|x: Seq<char>| #[trigger] seen(next, x) == seen(first, x) + times(
                calls,
                x,
                i + 1,
            ) by {
                assert(seen(counts, x) == seen(first, x) + times(calls, x, i));
            }
            lemma_counted(calls, i + 1, next, threshold, first);
        }
    }
}

/// The turn is stuck just where a call, counted with the same calls before it in this
/// attempt, is made two times more than the threshold allows. Else every call is counted,
/// once each.
pub proof fn a_call_made_too_often_is_stuck(
    calls: Seq<Call>,
    counts: Map<Seq<char>, u32>,
    threshold: u32,
)
    requires
        threshold + 2 <= u32::MAX,
    ensures
        counted(calls, 0, counts, threshold).1 is None <==> (forall|k: int|
            0 <= k < calls.len() ==> seen(counts, signature(#[trigger] calls[k])) + times(
                calls,
                signature(calls[k]),
                k + 1,
            ) < threshold + 2),
        counted(calls, 0, counts, threshold).1 is None ==> (forall|sig: Seq<char>| #[trigger]
            seen(counted(calls, 0, counts, threshold).0, sig) == seen(counts, sig) + times(
                calls,
                sig,
                calls.len() as int,
            )),
{
    lemma_counted(calls, 0, counts, threshold, counts);
}

/// Two calls count as the same just where they name the same tool with the same arguments,
/// unless a name holds the sign that parts the two.
pub proof fn calls_are_told_apart(a: Call, b: Call)
    requires
        !a.name.contains(':'),
        !b.name.contains(':'),
    ensures
        signature(a) == signature(b) <==> a.name == b.name && a.arguments == b.arguments,
{
    if signature(a) == signature(b) {
        reveal_strlit("::");
        let x = signature(a);
        crate::wording::a_cut_gives_the_parts_back(a.name, ':', seq![':'] + a.arguments);
        crate::wording::a_cut_gives_the_parts_back(b.name, ':', seq![':'] + b.arguments);
        assert(x =~= a.name + seq![':'] + (seq![':'] + a.arguments));
        assert(x =~= b.name + seq![':'] + (seq![':'] + b.arguments));
        let p = seq![':'] + a.arguments;
        let q = seq![':'] + b.arguments;
        assert(p == q);
        assert(p.skip(1) =~= a.arguments);
        assert(q.skip(1) =~= b.arguments);
    }
}

/// After a round, the model is told off once for each call that is made too often: the ones
/// that were not told of before, each one time, and all of them are marked as told.
pub proof fn each_repeated_call_is_told_once(
    calls: Seq<Call>,
    i: int,
    counts: Map<Seq<char>, u32>,
    nudged: Set<Seq<char>>,
    threshold: u32,
)
    requires
        0 <= i <= calls.len(),
    ensures
        forall|sig: Seq<char>|
            #[trigger] repeat_nudges(calls, i, counts, nudged, threshold).0.contains(sig) <==> (
            nudged.contains(sig) || seen(counts, sig) >= threshold && exists|k: int|
                i <= k < calls.len() && signature(#[trigger] calls[k]) == sig),
        (forall|k: int|
            i <= k < calls.len() ==> nudged.contains(signature(#[trigger] calls[k])) || seen(
                counts,
                signature(calls[k]),
            ) < threshold) ==> repeat_nudges(calls, i, counts, nudged, threshold).1.len() == 0,
        i < calls.len() && seen(counts, signature(calls[i])) >= threshold && !nudged.contains(
            signature(calls[i]),
        ) ==> ({
            let o = repeat_nudges(calls, i, counts, nudged, threshold).1;
            &&& o.len() >= 2
            &&& o[1] matches Order::Append(m) && m.role == Role::User && (m.content matches Some(
                t,
            ) && crate::text::contains(t, calls[i].name))
        }),
    decreases calls.len() - i,
{
    let all = repeat_nudges(calls, i, counts, nudged, threshold);
    if i < calls.len() {
        let sig = signature(calls[i]);
        let told = seen(counts, sig) >= threshold && !nudged.contains(sig);
        let after = if told {
            nudged.insert(sig)
        } else {
            nudged
        };
        let rest = repeat_nudges(calls, i + 1, counts, after, threshold);
        each_repeated_call_is_told_once(calls, i + 1, counts, after, threshold);
        assert(all.0 == rest.0);
        assert forall|x: Seq<char>| #[trigger] all.0.contains(x) <==> (nudged.contains(x) || seen(
            counts,
            x,
        ) >= threshold && exists|k: int| i <= k < calls.len() && signature(#[trigger] calls[k])
            == x) by {
            assert(rest.0.contains(x) <==> (after.contains(x) || seen(counts, x) >= threshold
                && exists|k: int| i + 1 <= k < calls.len() && signature(#[trigger] calls[k]) == x));
            if exists|k: int| i + 1 <= k < calls.len() && signature(#[trigger] calls[k]) == x {
                let k = choose|k: int| i + 1 <= k < calls.len() && signature(#[trigger] calls[k]) == x;
                assert(i <= k < calls.len() && signature(calls[k]) == x);
            }
            if x == sig {
                assert(i <= i < calls.len() && signature(calls[i]) == x);
            }
        }
        if told {
            let name = calls[i].name;
            let t = repeat_nudge(name);
            let at = "You've made the same `"@.len() as int;
            assert(t.subrange(at, at + name.len()) =~= name);
            assert(crate::text::occurs_at(t, name, at));
            assert(all.1 == nudge(t) + rest.1);
            assert(nudge(t)[1] == Order::Append(crate::llm::plain(Role::User, t)));
            assert(all.1[1] == nudge(t)[1]);
        } else {
            assert(all.1 == rest.1);
        }
        if (forall|k: int|
            i <= k < calls.len() ==> nudged.contains(signature(#[trigger] calls[k])) || seen(
                counts,
                signature(calls[k]),
            ) < threshold) {
            assert(nudged.contains(signature(calls[i])) || seen(counts, sig) < threshold);
            assert(!told);
        }
    }
}

/// A refusal of arguments that cannot be read names the tool and says what is wrong.
pub proof fn a_refusal_says_what_is_wrong(name: Seq<char>, e: Seq<char>, truncated: bool)
    ensures
        crate::text::contains(invalid_arguments(name, e, truncated), name),
        crate::text::contains(invalid_arguments(name, e, truncated), e),
{
    let t = invalid_arguments(name, e, truncated);
    let at = "invalid JSON arguments for `"@.len() as int;
    assert(t.subrange(at, at + name.len()) =~= name);
    assert(crate::text::occurs_at(t, name, at));
    let to = ("invalid JSON arguments for `"@ + name + "`: "@).len() as int;
    assert(t.subrange(to, to + e.len()) =~= e);
    assert(crate::text::occurs_at(t, e, to));
}

/// A model that cannot be asked ends the turn with the reason.
pub proof fn a_model_that_cannot_be_asked_fails_the_turn(s: State, e: Seq<char>)
    ensures
        failed(s, e).0.phase == Phase::Over,
        failed(s, e).1.last() == Order::Fail(e),
        failed(s, e).1.contains(Order::Emit(Emitted::Error(e))),
{
    assert(failed(s, e).1[0] == Order::Emit(Emitted::Error(e)));
}

} // verus!
