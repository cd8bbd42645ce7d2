//! What accounts must come to: each count is a sum over the recorded events, taken field
//! by field.
use vstd::prelude::*;

use crate::event::Event;
use crate::metrics::{
    all_turns, charged, entered, entered_all, fresh_turn, model_label, model_place, nothing,
    observed, Sums, Totals, TurnSums,
};
use crate::session::TimedEvent;
use crate::sorting::{at_most, lemma_antisymmetric, lemma_total, lemma_transitive};

verus! {

// ---- what one event says ----------------------------------------------------

/// Is this the measure of a model call?
pub open spec fn is_call(e: Event) -> bool {
    e is ModelMetrics
}

/// Is this the measure of a helper's call?
pub open spec fn by_helper(e: Event) -> bool {
    e matches Event::ModelMetrics { purpose, .. } && purpose@ == "helper"@
}

/// Does a turn begin with this, where none is open?
pub open spec fn begins(e: Event) -> bool {
    e is UserMessage || e is ModelCallStarted || e is ToolCall || (is_call(e) && !by_helper(e))
}

/// One for each event of a kind.
pub open spec fn once(b: bool) -> nat {
    if b {
        1
    } else {
        0
    }
}

/// The prompt tokens that an event reports.
pub open spec fn prompt_in() -> spec_fn(Event) -> nat {
    |e: Event|
        match e {
            Event::ModelMetrics { prompt_tokens, .. } => prompt_tokens as nat,
            _ => 0,
        }
}

/// The completion tokens that an event reports.
pub open spec fn completion_in() -> spec_fn(Event) -> nat {
    |e: Event|
        match e {
            Event::ModelMetrics { completion_tokens, .. } => completion_tokens as nat,
            _ => 0,
        }
}

/// The reasoning tokens that an event reports.
pub open spec fn reasoning_in() -> spec_fn(Event) -> nat {
    |e: Event|
        match e {
            Event::ModelMetrics { reasoning_tokens, .. } => reasoning_tokens as nat,
            _ => 0,
        }
}

/// The milliseconds that an event reports.
pub open spec fn time_in() -> spec_fn(Event) -> nat {
    |e: Event|
        match e {
            Event::ModelMetrics { total_ms, .. } => total_ms as nat,
            _ => 0,
        }
}

/// The tokens that an event reports as read from a cache, as far as they were sent.
pub open spec fn cached_in() -> spec_fn(Event) -> nat {
    |e: Event|
        match e {
            Event::ModelMetrics { cached_tokens: Some(c), prompt_tokens, .. } => if c
                <= prompt_tokens {
                c as nat
            } else {
                prompt_tokens as nat
            },
            _ => 0,
        }
}

/// The prompt tokens of an event that reports on reading from a cache.
pub open spec fn cache_prompt_in() -> spec_fn(Event) -> nat {
    |e: Event|
        match e {
            Event::ModelMetrics { cached_tokens: Some(_), prompt_tokens, .. } => prompt_tokens as nat,
            _ => 0,
        }
}

/// The tokens that an event reports as written to a cache, as far as they were sent.
pub open spec fn written_in() -> spec_fn(Event) -> nat {
    |e: Event|
        match e {
            Event::ModelMetrics { cache_write_tokens: Some(w), prompt_tokens, .. } => if w
                <= prompt_tokens {
                w as nat
            } else {
                prompt_tokens as nat
            },
            _ => 0,
        }
}

/// One for each model call.
pub open spec fn call_in() -> spec_fn(Event) -> nat {
    |e: Event| once(is_call(e))
}

/// One for each tool call.
pub open spec fn tool_call_in() -> spec_fn(Event) -> nat {
    |e: Event| once(e is ToolCall)
}

/// One for each compaction.
pub open spec fn compaction_in() -> spec_fn(Event) -> nat {
    |e: Event| once(e is Compaction)
}

/// One for each nudge.
pub open spec fn nudge_in() -> spec_fn(Event) -> nat {
    |e: Event| once(e is Nudge)
}

/// One for each call that reports on reading from a cache.
pub open spec fn cache_report_in() -> spec_fn(Event) -> nat {
    |e: Event| once(e matches Event::ModelMetrics { cached_tokens: Some(_), .. })
}

/// One for each call that reports on writing to a cache.
pub open spec fn write_report_in() -> spec_fn(Event) -> nat {
    |e: Event| once(e matches Event::ModelMetrics { cache_write_tokens: Some(_), .. })
}

/// One for each call whose cost is known.
pub open spec fn priced_in() -> spec_fn(Event) -> nat {
    |e: Event| once(e matches Event::ModelMetrics { priced, .. } && priced)
}

/// One for each call whose cost is not known.
pub open spec fn unpriced_in() -> spec_fn(Event) -> nat {
    |e: Event| once(e matches Event::ModelMetrics { priced, .. } && !priced)
}

// ---- what many events say ---------------------------------------------------

/// The sum of what a reading gives of the events from a place to another, of those that
/// are meant.
pub open spec fn summed(
    evs: Seq<TimedEvent>,
    from: int,
    to: int,
    meant: spec_fn(int) -> bool,
    read: spec_fn(Event) -> nat,
) -> nat
    decreases to - from,
{
    if to <= from {
        0
    } else {
        summed(evs, from, to - 1, meant, read) + if meant(to - 1) {
            read(evs[to - 1].event)
        } else {
            0
        }
    }
}

/// The places of the calls whose cost is known, of those that are meant.
pub open spec fn priced_places(
    evs: Seq<TimedEvent>,
    from: int,
    to: int,
    meant: spec_fn(int) -> bool,
) -> Seq<usize>
    decreases to - from,
{
    if to <= from {
        seq![]
    } else if meant(to - 1) && priced_in()(evs[to - 1].event) == 1 {
        priced_places(evs, from, to - 1, meant).push((to - 1) as usize)
    } else {
        priced_places(evs, from, to - 1, meant)
    }
}

/// Is each count the sum of its own field over the events that are meant?
pub open spec fn adds_up(
    s: Sums,
    evs: Seq<TimedEvent>,
    from: int,
    to: int,
    meant: spec_fn(int) -> bool,
) -> bool {
    &&& s.calls == summed(evs, from, to, meant, call_in())
    &&& s.tool_calls == summed(evs, from, to, meant, tool_call_in())
    &&& s.prompt_tokens == summed(evs, from, to, meant, prompt_in())
    &&& s.completion_tokens == summed(evs, from, to, meant, completion_in())
    &&& s.reasoning_tokens == summed(evs, from, to, meant, reasoning_in())
    &&& s.model_ms == summed(evs, from, to, meant, time_in())
    &&& s.compactions == summed(evs, from, to, meant, compaction_in())
    &&& s.nudges == summed(evs, from, to, meant, nudge_in())
    &&& s.cached_tokens == summed(evs, from, to, meant, cached_in())
    &&& s.cache_prompt_tokens == summed(evs, from, to, meant, cache_prompt_in())
    &&& s.cache_reported_calls == summed(evs, from, to, meant, cache_report_in())
    &&& s.cache_write_tokens == summed(evs, from, to, meant, written_in())
    &&& s.cache_write_reported_calls == summed(evs, from, to, meant, write_report_in())
    &&& s.priced_calls == summed(evs, from, to, meant, priced_in())
    &&& s.unpriced_calls == summed(evs, from, to, meant, unpriced_in())
    &&& s.priced == priced_places(evs, from, to, meant)
}

/// Every event is meant.
pub open spec fn every() -> spec_fn(int) -> bool {
    |k: int| true
}

/// The calls of one model are meant.
pub open spec fn of_model(evs: Seq<TimedEvent>, name: Seq<char>) -> spec_fn(int) -> bool {
    |k: int| charged_to(evs[k].event, name)
}

/// Is this a call that is charged to the name? A call that names no model has one of
/// its own.
pub open spec fn charged_to(e: Event, name: Seq<char>) -> bool {
    e matches Event::ModelMetrics { model, .. } && if model@.len() == 0 {
        name == "unknown (legacy)"@
    } else {
        name == model@
    }
}

/// The totals say what they hold, field by field.
pub proof fn totals_say_what_they_hold(t: Totals)
    ensures
        t@.calls == t.calls,
        t@.tool_calls == t.tool_calls,
        t@.prompt_tokens == t.prompt_tokens,
        t@.completion_tokens == t.completion_tokens,
        t@.reasoning_tokens == t.reasoning_tokens,
        t@.model_ms == t.model_ms,
        t@.compactions == t.compactions,
        t@.nudges == t.nudges,
        t@.cached_tokens == t.cached_tokens,
        t@.cache_prompt_tokens == t.cache_prompt_tokens,
        t@.cache_reported_calls == t.cache_reported_calls,
        t@.cache_write_tokens == t.cache_write_tokens,
        t@.cache_write_reported_calls == t.cache_write_reported_calls,
        t@.priced_calls == t.priced_calls,
        t@.unpriced_calls == t.unpriced_calls,
        t@.priced == t.priced@,
{
}

/// Seeing one more event keeps each count the sum of its own field.
pub proof fn one_more_event_adds_its_fields(
    s: Sums,
    evs: Seq<TimedEvent>,
    from: int,
    to: int,
    meant: spec_fn(int) -> bool,
)
    requires
        from <= to,
        adds_up(s, evs, from, to, meant),
    ensures
        meant(to) ==> adds_up(observed(s, evs[to].event@, to as usize), evs, from, to + 1, meant),
        !meant(to) ==> adds_up(s, evs, from, to + 1, meant),
{
    let e = evs[to].event;
    assert(to + 1 - 1 == to);
    if meant(to) {
        match e {
            Event::ModelMetrics { .. } => {},
            _ => {},
        }
    }
}

/// An event that reports nothing leaves a sum as it is.
proof fn lemma_nothing_meant(
    evs: Seq<TimedEvent>,
    from: int,
    to: int,
    meant: spec_fn(int) -> bool,
)
    requires
        forall|k: int| from <= k < to ==> !#[trigger] meant(k),
    ensures
        adds_up(nothing(), evs, from, to, meant),
    decreases to - from,
{
    if from < to {
        lemma_nothing_meant(evs, from, to - 1, meant);
        assert(!meant(to - 1));
    }
}

/// The totals of a session are the sums over its events: each count of the field of that
/// name.
pub proof fn totals_add_up(evs: Seq<TimedEvent>, n: nat)
    ensures
        adds_up(entered_all(evs, n).totals, evs, 0, n as int, every()),
    decreases n,
{
    if n > 0 {
        totals_add_up(evs, (n - 1) as nat);
        one_more_event_adds_its_fields(
            entered_all(evs, (n - 1) as nat).totals,
            evs,
            0,
            n - 1,
            every(),
        );
    }
}

// ---- by model ---------------------------------------------------------------

/// Are the names in order, none twice?
pub open spec fn by_name(ms: Seq<(Seq<char>, Sums)>) -> bool {
    forall|i: int, j: int|
        0 <= i < j < ms.len() ==> at_most((#[trigger] ms[i]).0, (#[trigger] ms[j]).0) && ms[i].0
            != ms[j].0
}

/// Has the name an account?
pub open spec fn accounted(ms: Seq<(Seq<char>, Sums)>, name: Seq<char>) -> bool {
    exists|i: int| 0 <= i < ms.len() && (#[trigger] ms[i]).0 == name
}

proof fn lemma_place(ms: Seq<(Seq<char>, Sums)>, name: Seq<char>)
    requires
        by_name(ms),
    ensures
        ({
            let p = model_place(ms, name, 0);
            &&& 0 <= p <= ms.len()
            &&& accounted(ms, name) <==> p < ms.len() && ms[p].0 == name
            &&& forall|k: int| 0 <= k < p ==> !at_most(name, (#[trigger] ms[k]).0)
            &&& p < ms.len() ==> at_most(name, ms[p].0)
        }),
{
    crate::metrics::lemma_model_place(ms, name, 0);
    let p = model_place(ms, name, 0);
    if accounted(ms, name) {
        let i = choose|i: int| 0 <= i < ms.len() && (#[trigger] ms[i]).0 == name;
        lemma_total(name, name);
        assert(i >= p);
        if i > p {
            assert(at_most(ms[p].0, ms[i].0));
            lemma_antisymmetric(ms[p].0, name);
        }
    }
}

proof fn lemma_charged_by_name(
    ms: Seq<(Seq<char>, Sums)>,
    name: Seq<char>,
    e: crate::event::Emitted,
    at: usize,
)
    requires
        by_name(ms),
    ensures
        by_name(charged(ms, name, e, at)),
{
    lemma_place(ms, name);
    let p = model_place(ms, name, 0);
    let t = charged(ms, name, e, at);
    if !(p < ms.len() && ms[p].0 == name) {
        assert forall|i: int, j: int| 0 <= i < j < t.len() implies at_most(
            (#[trigger] t[i]).0,
            (#[trigger] t[j]).0,
        ) && t[i].0 != t[j].0 by {
            let a = if i < p { i } else { i - 1 };
            let b = if j < p { j } else { j - 1 };
            if i != p {
                assert(t[i] == ms[a]);
            }
            if j != p {
                assert(t[j] == ms[b]);
            }
            if i == p {
                assert(b >= p);
                if b > p {
                    assert(at_most(ms[p].0, ms[b].0) && ms[p].0 != ms[b].0);
                    lemma_transitive(name, ms[p].0, ms[b].0);
                    if ms[b].0 == name {
                        lemma_antisymmetric(ms[p].0, name);
                    }
                }
            } else if j == p {
                lemma_total(name, ms[a].0);
                assert(!at_most(name, ms[a].0));
                if ms[a].0 == name {
                    lemma_total(name, name);
                }
            } else {
                assert(at_most(ms[a].0, ms[b].0) && ms[a].0 != ms[b].0);
            }
        }
    }
}

/// Each model's account is the sum over the calls that name it, the accounts stand in the
/// order of their names, none twice, and every call's model has one.
pub proof fn models_add_up(evs: Seq<TimedEvent>, n: nat)
    ensures
        by_name(entered_all(evs, n).models),
        forall|i: int|
            0 <= i < entered_all(evs, n).models.len() ==> adds_up(
                (#[trigger] entered_all(evs, n).models[i]).1,
                evs,
                0,
                n as int,
                of_model(evs, entered_all(evs, n).models[i].0),
            ),
        forall|k: int, name: Seq<char>|
            0 <= k < n && #[trigger] charged_to(evs[k].event, name) ==> accounted(
                entered_all(evs, n).models,
                name,
            ),
    decreases n,
{
    if n > 0 {
        let m = (n - 1) as nat;
        models_add_up(evs, m);
        let before = entered_all(evs, m).models;
        let after = entered_all(evs, n).models;
        let e = evs[n - 1].event;
        let at = (n - 1) as usize;
        if let Event::ModelMetrics { model, .. } = e {
            let name = model_label(model@);
            assert(after == charged(before, name, e@, at));
            lemma_charged_by_name(before, name, e@, at);
            lemma_place(before, name);
            let p = model_place(before, name, 0);
            let held = p < before.len() && before[p].0 == name;
            assert forall|i: int| 0 <= i < after.len() implies adds_up(
                (#[trigger] after[i]).1,
                evs,
                0,
                n as int,
                of_model(evs, after[i].0),
            ) by {
                let f = of_model(evs, after[i].0);
                if i == p {
                    if held {
                        one_more_event_adds_its_fields(before[p].1, evs, 0, n - 1, f);
                    } else {
                        assert forall|k: int| 0 <= k < n - 1 implies !#[trigger] f(k) by {
                            if charged_to(evs[k].event, name) {
                                assert(accounted(before, name));
                            }
                        }
                        lemma_nothing_meant(evs, 0, n - 1, f);
                        one_more_event_adds_its_fields(nothing(), evs, 0, n - 1, f);
                    }
                } else {
                    let a = if held || i < p { i } else { i - 1 };
                    assert(after[i] == before[a]);
                    assert(before[a].0 != name) by {
                        assert(after[p].0 == name);
                        if i < p {
                            assert(after[i].0 != after[p].0);
                        } else {
                            assert(after[p].0 != after[i].0);
                        }
                    }
                    one_more_event_adds_its_fields(before[a].1, evs, 0, n - 1, f);
                }
            }
            assert forall|k: int, x: Seq<char>|
                0 <= k < n && #[trigger] charged_to(evs[k].event, x) implies accounted(after, x) by {
                if k == n - 1 {
                    assert(after[p].0 == x);
                } else {
                    assert(accounted(before, x));
                    let a = choose|a: int| 0 <= a < before.len() && (#[trigger] before[a]).0 == x;
                    let i = if held || a < p { a } else { a + 1 };
                    assert(after[i].0 == x);
                }
            }
        } else {
            assert(after == before);
            assert forall|i: int| 0 <= i < after.len() implies adds_up(
                (#[trigger] after[i]).1,
                evs,
                0,
                n as int,
                of_model(evs, after[i].0),
            ) by {
                one_more_event_adds_its_fields(
                    before[i].1,
                    evs,
                    0,
                    n - 1,
                    of_model(evs, before[i].0),
                );
            }
            assert forall|k: int, x: Seq<char>|
                0 <= k < n && #[trigger] charged_to(evs[k].event, x) implies accounted(after, x) by {
                assert(k < n - 1);
                assert(accounted(before, x));
            }
        }
    }
}

// ---- by turn ----------------------------------------------------------------

/// The places at which turns end.
pub open spec fn ends(evs: Seq<TimedEvent>, n: nat) -> Seq<int>
    decreases n,
{
    if n == 0 {
        seq![]
    } else if evs[n - 1].event is TurnComplete {
        ends(evs, (n - 1) as nat).push(n - 1)
    } else {
        ends(evs, (n - 1) as nat)
    }
}

/// The place at which the turn after `j` others begins.
pub open spec fn start(ends: Seq<int>, j: int) -> int {
    if j == 0 {
        0
    } else {
        ends[j - 1] + 1
    }
}

/// Has a turn begun among the events from a place to another?
pub open spec fn begun_in(evs: Seq<TimedEvent>, from: int, to: int) -> bool {
    exists|k: int| from <= k < to && begins(#[trigger] evs[k].event)
}

/// The events of a turn are meant: a helper's call only once the turn has begun.
pub open spec fn of_turn(evs: Seq<TimedEvent>, from: int) -> spec_fn(int) -> bool {
    |k: int| !by_helper(evs[k].event) || begun_in(evs, from, k)
}

/// The last event that satisfies a condition, from a place to another, read.
pub open spec fn last_read<T>(
    evs: Seq<TimedEvent>,
    from: int,
    to: int,
    read: spec_fn(Event) -> Option<T>,
) -> Option<T>
    decreases to - from,
{
    if to <= from {
        None
    } else if read(evs[to - 1].event) is Some {
        read(evs[to - 1].event)
    } else {
        last_read(evs, from, to - 1, read)
    }
}

/// The context of a call that is no helper's: its prompt and what it was made of.
pub open spec fn context_read() -> spec_fn(Event) -> Option<
    (u32, Option<crate::llm::ContextBreakdown>),
> {
    |e: Event|
        match e {
            Event::ModelMetrics { purpose, prompt_tokens, context_breakdown, .. } => if purpose@
                == "helper"@ {
                None
            } else {
                Some((prompt_tokens, context_breakdown))
            },
            _ => None,
        }
}

/// How a check went.
pub open spec fn check_read() -> spec_fn(Event) -> Option<bool> {
    |e: Event|
        match e {
            Event::Validation { ok, .. } => Some(ok),
            _ => None,
        }
}

/// Does the account of a turn tell the events from a place to another: their sums, the
/// largest prompt, the last one, and how the last check went?
pub open spec fn tells(t: TurnSums, evs: Seq<TimedEvent>, from: int, to: int) -> bool {
    &&& adds_up(t.totals, evs, from, to, of_turn(evs, from))
    &&& t.validation == last_read(evs, from, to, check_read())
    &&& match last_read(evs, from, to, context_read()) {
        Some(c) => t.last_context == c.0 && t.last_context_breakdown == c.1,
        None => t.last_context == 0 && t.last_context_breakdown is None,
    }
    &&& peaks(t.peak_context, evs, from, to)
}

proof fn lemma_begun_more(evs: Seq<TimedEvent>, from: int, to: int)
    requires
        from <= to,
    ensures
        begun_in(evs, from, to + 1) <==> begun_in(evs, from, to) || begins(evs[to].event),
{
    if begun_in(evs, from, to) {
        let k = choose|k: int| from <= k < to && begins(#[trigger] evs[k].event);
        assert(begins(evs[k].event));
    }
    if begins(evs[to].event) {
        assert(from <= to < to + 1 && begins(evs[to].event));
    }
}

proof fn lemma_tells_more(l: crate::metrics::Ledger, evs: Seq<TimedEvent>, from: int, to: int)
    requires
        0 <= from <= to,
        tells(l.turn, evs, from, to),
        l.has_turn <==> begun_in(evs, from, to),
        !(evs[to].event is TurnComplete),
    ensures
        tells(entered(l, evs[to].event@, to as usize).turn, evs, from, to + 1),
        entered(l, evs[to].event@, to as usize).has_turn <==> begun_in(evs, from, to + 1),
{
    let t = l.turn;
    let m = entered(l, evs[to].event@, to as usize);
    let u = m.turn;
    let ev = evs[to].event;
    let f = of_turn(evs, from);
    lemma_begun_more(evs, from, to);
    one_more_event_adds_its_fields(t.totals, evs, from, to, f);
    assert(f(to) <==> !(by_helper(ev) && !l.has_turn));
    assert(adds_up(u.totals, evs, from, to + 1, f));
    lemma_peak_more(t.peak_context, u.peak_context, evs, from, to);
}

/// Is this the largest prompt of a turn's own calls?
pub open spec fn peaks(p: u32, evs: Seq<TimedEvent>, from: int, to: int) -> bool {
    &&& forall|k: int|
        from <= k < to ==> (context_read()((#[trigger] evs[k]).event) matches Some(c) ==> c.0 <= p)
    &&& p > 0 ==> exists|k: int|
        from <= k < to && (context_read()((#[trigger] evs[k]).event) matches Some(c) && c.0 == p)
}

proof fn lemma_peak_more(p: u32, q: u32, evs: Seq<TimedEvent>, from: int, to: int)
    requires
        from <= to,
        peaks(p, evs, from, to),
        q == (match context_read()(evs[to].event) {
            Some(c) => if p < c.0 {
                c.0
            } else {
                p
            },
            None => p,
        }),
    ensures
        peaks(q, evs, from, to + 1),
{
    if q > 0 {
        if q != p {
            assert(context_read()(evs[to].event) is Some);
        } else {
            let k = choose|k: int|
                from <= k < to && (context_read()((#[trigger] evs[k]).event) matches Some(c) && c.0
                    == p);
            assert(context_read()(evs[k].event) is Some);
        }
    }
}

/// Each event that ends a turn closes one account, which tells the events since the turn
/// before, and how it ended. The open account tells the events since the last end, and is
/// a turn once something began it.
pub proof fn turns_tell_their_events(evs: Seq<TimedEvent>, n: nat)
    ensures
        ({
            let l = entered_all(evs, n);
            let e = ends(evs, n);
            &&& l.turns.len() == e.len()
            &&& tells(l.turn, evs, start(e, e.len() as int), n as int)
            &&& l.has_turn <==> begun_in(evs, start(e, e.len() as int), n as int)
            &&& 0 <= start(e, e.len() as int) <= n
            &&& forall|j: int|
                0 <= j < e.len() ==> {
                    &&& tells(#[trigger] l.turns[j], evs, start(e, j), e[j])
                    &&& evs[e[j]].event matches Event::TurnComplete { outcome }
                        && l.turns[j].outcome == Some(outcome@)
                }
        }),
    decreases n,
{
    let l = entered_all(evs, n);
    let e = ends(evs, n);
    if n == 0 {
        lemma_nothing_meant(evs, 0, 0, of_turn(evs, 0));
    } else {
        let m = (n - 1) as nat;
        turns_tell_their_events(evs, m);
        let before = entered_all(evs, m);
        let es = ends(evs, m);
        let from = start(es, es.len() as int);
        let ev = evs[n - 1].event;
        if ev is TurnComplete {
            assert forall|j: int| 0 <= j < e.len() implies {
                &&& tells(#[trigger] l.turns[j], evs, start(e, j), e[j])
                &&& evs[e[j]].event matches Event::TurnComplete { outcome } && l.turns[j].outcome
                    == Some(outcome@)
            } by {
                if j < es.len() {
                    assert(l.turns[j] == before.turns[j]);
                    assert(e[j] == es[j]);
                    assert(start(e, j) == start(es, j));
                } else {
                    assert(l.turns[j].totals == before.turn.totals);
                    assert(start(e, j) == from);
                    assert(e[j] == n - 1);
                    assert(tells(before.turn, evs, from, n - 1));
                    assert(tells(l.turns[j], evs, from, n - 1));
                }
            }
            let next = start(e, e.len() as int);
            assert(next == n);
            assert(l.turn == fresh_turn(before.turns.len() + 2));
            lemma_nothing_meant(evs, n as int, n as int, of_turn(evs, n as int));
        } else {
            assert(e == es);
            assert(l.turns == before.turns);
            lemma_tells_more(before, evs, from, n - 1);
        }
    }
}

/// The turns of a session are those that ended, and the open one where something began it.
pub proof fn an_open_turn_counts_once_begun(evs: Seq<TimedEvent>, n: nat)
    ensures
        ({
            let e = ends(evs, n);
            let open = begun_in(evs, start(e, e.len() as int), n as int);
            &&& all_turns(entered_all(evs, n)).len() == e.len() + once(open)
            &&& all_turns(entered_all(evs, n)).take(e.len() as int) == entered_all(evs, n).turns
            &&& open ==> all_turns(entered_all(evs, n)).last() == entered_all(evs, n).turn
        }),
{
    turns_tell_their_events(evs, n);
    let l = entered_all(evs, n);
    assert(all_turns(l).take(l.turns.len() as int) =~= l.turns);
}

} // verus!
