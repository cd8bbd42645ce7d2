//! Accounts kept from recorded events: by session, by turn and by model.
//!
//! What is measured in fractions (a cost, a rate) is put into words elsewhere: a total
//! keeps a place for those texts, and says which events they are made of.
use vstd::prelude::*;
use vstd::string::*;

use crate::event::{Emitted, Event};
use crate::llm::ContextBreakdown;
use crate::session::TimedEvent;
use crate::sorting::{at_most, is_at_most};
use crate::text::{opt_view, same};

pub mod adding;
pub mod report;

pub use crate::metrics::report::{report, session_report, WorkerMetrics};

verus! {

/// Totals over events. Unknown prices and absent cache telemetry stay visible in every
/// one.
#[derive(Debug, Clone, Default)]
pub struct Totals {
    pub calls: u128,
    pub tool_calls: u128,
    pub prompt_tokens: u128,
    pub completion_tokens: u128,
    pub reasoning_tokens: u128,
    pub model_ms: u128,
    pub compactions: u128,
    pub nudges: u128,
    pub cached_tokens: u128,
    pub cache_prompt_tokens: u128,
    pub cache_reported_calls: u128,
    pub cache_write_tokens: u128,
    pub cache_write_reported_calls: u128,
    pub priced_calls: u128,
    pub unpriced_calls: u128,
    /// The calls whose cost is known, by their place among the events of their session.
    pub priced: Vec<usize>,
    /// The texts of what is measured in fractions.
    pub shown: Measures,
}

/// The texts of what is measured in fractions, and how the known cost ranks among
/// others.
#[derive(Debug, Clone, Default)]
pub struct Measures {
    pub model_time: String,
    pub known_cost: String,
    pub cache_rate: String,
    pub cost_rank: u64,
}

/// What totals say.
pub struct Sums {
    pub calls: nat,
    pub tool_calls: nat,
    pub prompt_tokens: nat,
    pub completion_tokens: nat,
    pub reasoning_tokens: nat,
    pub model_ms: nat,
    pub compactions: nat,
    pub nudges: nat,
    pub cached_tokens: nat,
    pub cache_prompt_tokens: nat,
    pub cache_reported_calls: nat,
    pub cache_write_tokens: nat,
    pub cache_write_reported_calls: nat,
    pub priced_calls: nat,
    pub unpriced_calls: nat,
    pub priced: Seq<usize>,
}

impl View for Totals {
    type V = Sums;

    open spec fn view(&self) -> Sums {
        Sums {
            calls: self.calls as nat,
            tool_calls: self.tool_calls as nat,
            prompt_tokens: self.prompt_tokens as nat,
            completion_tokens: self.completion_tokens as nat,
            reasoning_tokens: self.reasoning_tokens as nat,
            model_ms: self.model_ms as nat,
            compactions: self.compactions as nat,
            nudges: self.nudges as nat,
            cached_tokens: self.cached_tokens as nat,
            cache_prompt_tokens: self.cache_prompt_tokens as nat,
            cache_reported_calls: self.cache_reported_calls as nat,
            cache_write_tokens: self.cache_write_tokens as nat,
            cache_write_reported_calls: self.cache_write_reported_calls as nat,
            priced_calls: self.priced_calls as nat,
            unpriced_calls: self.unpriced_calls as nat,
            priced: self.priced@,
        }
    }
}

/// Nothing seen yet.
pub open spec fn nothing() -> Sums {
    Sums {
        calls: 0,
        tool_calls: 0,
        prompt_tokens: 0,
        completion_tokens: 0,
        reasoning_tokens: 0,
        model_ms: 0,
        compactions: 0,
        nudges: 0,
        cached_tokens: 0,
        cache_prompt_tokens: 0,
        cache_reported_calls: 0,
        cache_write_tokens: 0,
        cache_write_reported_calls: 0,
        priced_calls: 0,
        unpriced_calls: 0,
        priced: seq![],
    }
}

/// The smaller of two counts.
pub open spec fn least(a: u32, b: u32) -> nat {
    if a < b {
        a as nat
    } else {
        b as nat
    }
}

/// The totals once the event at a place is seen. A provider cannot have cached more than
/// it was sent.
pub open spec fn observed(s: Sums, e: Emitted, at: usize) -> Sums {
    match e {
        Emitted::ModelMetrics {
            purpose: _,
            model: _,
            prompt_tokens,
            completion_tokens,
            reasoning_tokens,
            cached_tokens,
            cache_write_tokens,
            context_breakdown: _,
            total_ms,
            first_output_ms: _,
            priced,
        } => Sums {
            calls: s.calls + 1,
            prompt_tokens: s.prompt_tokens + prompt_tokens as nat,
            completion_tokens: s.completion_tokens + completion_tokens as nat,
            reasoning_tokens: s.reasoning_tokens + reasoning_tokens as nat,
            model_ms: s.model_ms + total_ms as nat,
            cached_tokens: match cached_tokens {
                Some(c) => s.cached_tokens + least(c, prompt_tokens),
                None => s.cached_tokens,
            },
            cache_prompt_tokens: match cached_tokens {
                Some(_) => s.cache_prompt_tokens + prompt_tokens as nat,
                None => s.cache_prompt_tokens,
            },
            cache_reported_calls: match cached_tokens {
                Some(_) => s.cache_reported_calls + 1,
                None => s.cache_reported_calls,
            },
            cache_write_tokens: match cache_write_tokens {
                Some(w) => s.cache_write_tokens + least(w, prompt_tokens),
                None => s.cache_write_tokens,
            },
            cache_write_reported_calls: match cache_write_tokens {
                Some(_) => s.cache_write_reported_calls + 1,
                None => s.cache_write_reported_calls,
            },
            priced_calls: if priced {
                s.priced_calls + 1
            } else {
                s.priced_calls
            },
            unpriced_calls: if priced {
                s.unpriced_calls
            } else {
                s.unpriced_calls + 1
            },
            priced: if priced {
                s.priced.push(at)
            } else {
                s.priced
            },
            ..s
        },
        Emitted::ToolCall { .. } => Sums { tool_calls: s.tool_calls + 1, ..s },
        Emitted::Compaction { .. } => Sums { compactions: s.compactions + 1, ..s },
        Emitted::Nudge(_) => Sums { nudges: s.nudges + 1, ..s },
        _ => s,
    }
}

/// No count is above `n`.
pub open spec fn within(s: Sums, n: int) -> bool {
    &&& s.calls <= n
    &&& s.tool_calls <= n
    &&& s.prompt_tokens <= n
    &&& s.completion_tokens <= n
    &&& s.reasoning_tokens <= n
    &&& s.model_ms <= n
    &&& s.compactions <= n
    &&& s.nudges <= n
    &&& s.cached_tokens <= n
    &&& s.cache_prompt_tokens <= n
    &&& s.cache_reported_calls <= n
    &&& s.cache_write_tokens <= n
    &&& s.cache_write_reported_calls <= n
    &&& s.priced_calls <= n
    &&& s.unpriced_calls <= n
}

/// What one event can add at most.
pub open spec fn one_event() -> int {
    0xffff_ffff_ffff_ffff
}

proof fn lemma_within(s: Sums, e: Emitted, at: usize, n: int)
    requires
        within(s, n),
    ensures
        within(observed(s, e, at), n + one_event()),
{
}

fn smaller(a: u32, b: u32) -> (r: u128)
    ensures
        r == least(a, b),
{
    if a < b {
        a as u128
    } else {
        b as u128
    }
}

impl Totals {
    /// Nothing seen yet.
    pub fn new() -> (r: Totals)
        ensures
            r@ == nothing(),
    {
        let r = Totals {
            calls: 0,
            tool_calls: 0,
            prompt_tokens: 0,
            completion_tokens: 0,
            reasoning_tokens: 0,
            model_ms: 0,
            compactions: 0,
            nudges: 0,
            cached_tokens: 0,
            cache_prompt_tokens: 0,
            cache_reported_calls: 0,
            cache_write_tokens: 0,
            cache_write_reported_calls: 0,
            priced_calls: 0,
            unpriced_calls: 0,
            priced: Vec::new(),
            shown: Measures {
                model_time: String::new(),
                known_cost: String::new(),
                cache_rate: String::new(),
                cost_rank: 0,
            },
        };
        assert(r.priced@ =~= seq![]);
        r
    }

    /// See the event at a place.
    pub fn observe(&mut self, event: &Event, at: usize)
        requires
            within(old(self)@, u128::MAX - one_event()),
        ensures
            final(self)@ == observed(old(self)@, event@, at),
            final(self).shown == old(self).shown,
    {
        match event {
            Event::ModelMetrics {
                purpose: _,
                model: _,
                prompt_tokens,
                completion_tokens,
                reasoning_tokens,
                cached_tokens,
                cache_write_tokens,
                context_breakdown: _,
                total_ms,
                first_output_ms: _,
                priced,
            } => {
                self.calls = self.calls + 1;
                self.prompt_tokens = self.prompt_tokens + *prompt_tokens as u128;
                self.completion_tokens = self.completion_tokens + *completion_tokens as u128;
                self.reasoning_tokens = self.reasoning_tokens + *reasoning_tokens as u128;
                self.model_ms = self.model_ms + *total_ms as u128;
                if let Some(c) = cached_tokens {
                    self.cached_tokens = self.cached_tokens + smaller(*c, *prompt_tokens);
                    self.cache_prompt_tokens = self.cache_prompt_tokens + *prompt_tokens as u128;
                    self.cache_reported_calls = self.cache_reported_calls + 1;
                }
                if let Some(w) = cache_write_tokens {
                    self.cache_write_tokens = self.cache_write_tokens + smaller(
                        *w,
                        *prompt_tokens,
                    );
                    self.cache_write_reported_calls = self.cache_write_reported_calls + 1;
                }
                if *priced {
                    self.priced_calls = self.priced_calls + 1;
                    self.priced.push(at);
                } else {
                    self.unpriced_calls = self.unpriced_calls + 1;
                }
            },
            Event::ToolCall { .. } => {
                self.tool_calls = self.tool_calls + 1;
            },
            Event::Compaction { .. } => {
                self.compactions = self.compactions + 1;
            },
            Event::Nudge { .. } => {
                self.nudges = self.nudges + 1;
            },
            _ => {},
        }
    }
}

/// Two totals taken together.
pub open spec fn added(a: Sums, b: Sums) -> Sums {
    Sums {
        calls: a.calls + b.calls,
        tool_calls: a.tool_calls + b.tool_calls,
        prompt_tokens: a.prompt_tokens + b.prompt_tokens,
        completion_tokens: a.completion_tokens + b.completion_tokens,
        reasoning_tokens: a.reasoning_tokens + b.reasoning_tokens,
        model_ms: a.model_ms + b.model_ms,
        compactions: a.compactions + b.compactions,
        nudges: a.nudges + b.nudges,
        cached_tokens: a.cached_tokens + b.cached_tokens,
        cache_prompt_tokens: a.cache_prompt_tokens + b.cache_prompt_tokens,
        cache_reported_calls: a.cache_reported_calls + b.cache_reported_calls,
        cache_write_tokens: a.cache_write_tokens + b.cache_write_tokens,
        cache_write_reported_calls: a.cache_write_reported_calls + b.cache_write_reported_calls,
        priced_calls: a.priced_calls + b.priced_calls,
        unpriced_calls: a.unpriced_calls + b.unpriced_calls,
        priced: a.priced + b.priced,
    }
}

impl Totals {
    /// Can the other totals be taken in without a count running over?
    pub fn has_room_for(&self, other: &Totals) -> (r: bool)
        ensures
            r == within(added(self@, other@), u128::MAX as int),
    {
        other.calls <= u128::MAX - self.calls && other.tool_calls <= u128::MAX - self.tool_calls
            && other.prompt_tokens <= u128::MAX - self.prompt_tokens && other.completion_tokens
            <= u128::MAX - self.completion_tokens && other.reasoning_tokens <= u128::MAX
            - self.reasoning_tokens && other.model_ms <= u128::MAX - self.model_ms
            && other.compactions <= u128::MAX - self.compactions && other.nudges <= u128::MAX
            - self.nudges && other.cached_tokens <= u128::MAX - self.cached_tokens
            && other.cache_prompt_tokens <= u128::MAX - self.cache_prompt_tokens
            && other.cache_reported_calls <= u128::MAX - self.cache_reported_calls
            && other.cache_write_tokens <= u128::MAX - self.cache_write_tokens
            && other.cache_write_reported_calls <= u128::MAX - self.cache_write_reported_calls
            && other.priced_calls <= u128::MAX - self.priced_calls && other.unpriced_calls
            <= u128::MAX - self.unpriced_calls
    }

    /// Take in the totals of another session.
    pub fn absorb(&mut self, other: &Totals)
        requires
            within(added(old(self)@, other@), u128::MAX as int),
        ensures
            final(self)@ == added(old(self)@, other@),
            final(self).shown == old(self).shown,
    {
        self.calls = self.calls + other.calls;
        self.tool_calls = self.tool_calls + other.tool_calls;
        self.prompt_tokens = self.prompt_tokens + other.prompt_tokens;
        self.completion_tokens = self.completion_tokens + other.completion_tokens;
        self.reasoning_tokens = self.reasoning_tokens + other.reasoning_tokens;
        self.model_ms = self.model_ms + other.model_ms;
        self.compactions = self.compactions + other.compactions;
        self.nudges = self.nudges + other.nudges;
        self.cached_tokens = self.cached_tokens + other.cached_tokens;
        self.cache_prompt_tokens = self.cache_prompt_tokens + other.cache_prompt_tokens;
        self.cache_reported_calls = self.cache_reported_calls + other.cache_reported_calls;
        self.cache_write_tokens = self.cache_write_tokens + other.cache_write_tokens;
        self.cache_write_reported_calls = self.cache_write_reported_calls
            + other.cache_write_reported_calls;
        self.priced_calls = self.priced_calls + other.priced_calls;
        self.unpriced_calls = self.unpriced_calls + other.unpriced_calls;
        let ghost before = self.priced@;
        let mut i: usize = 0;
        assert(self.priced@ =~= before + other.priced@.take(0));
        while i < other.priced.len()
            invariant
                i <= other.priced@.len(),
                self.priced@ == before + other.priced@.take(i as int),
                self@ == (Sums { priced: self.priced@, ..added(old(self)@, other@) }),
                self.shown == old(self).shown,
            decreases other.priced.len() - i,
        {
            self.priced.push(other.priced[i]);
            i = i + 1;
            assert(self.priced@ =~= before + other.priced@.take(i as int));
        }
        assert(other.priced@.take(i as int) =~= other.priced@);
    }
}

// ---- turns and models -------------------------------------------------------

/// The account of one turn.
#[derive(Debug, Default)]
pub struct Turn {
    pub number: u128,
    pub totals: Totals,
    pub outcome: Option<String>,
    pub validation: Option<bool>,
    pub peak_context: u32,
    pub last_context: u32,
    pub last_context_breakdown: Option<ContextBreakdown>,
}

/// What the account of a turn says.
pub struct TurnSums {
    pub number: nat,
    pub totals: Sums,
    pub outcome: Option<Seq<char>>,
    pub validation: Option<bool>,
    pub peak_context: u32,
    pub last_context: u32,
    pub last_context_breakdown: Option<ContextBreakdown>,
}

impl View for Turn {
    type V = TurnSums;

    open spec fn view(&self) -> TurnSums {
        TurnSums {
            number: self.number as nat,
            totals: self.totals@,
            outcome: opt_view(self.outcome),
            validation: self.validation,
            peak_context: self.peak_context,
            last_context: self.last_context,
            last_context_breakdown: self.last_context_breakdown,
        }
    }
}

/// What the accounts of turns say.
pub open spec fn turn_sums(v: Seq<Turn>) -> Seq<TurnSums> {
    Seq::new(v.len(), |i: int| v[i]@)
}

/// What the accounts of models say.
pub open spec fn model_sums(v: Seq<(String, Totals)>) -> Seq<(Seq<char>, Sums)> {
    Seq::new(v.len(), |i: int| (v[i].0@, v[i].1@))
}

/// The accounts of a session.
#[derive(Debug, Default)]
pub struct Accounting {
    pub totals: Totals,
    pub turns: Vec<Turn>,
    /// By name, in order.
    pub models: Vec<(String, Totals)>,
}

/// What the accounts of a session say, with the turn that is open and whether it is one
/// already.
pub struct Ledger {
    pub totals: Sums,
    pub turns: Seq<TurnSums>,
    pub models: Seq<(Seq<char>, Sums)>,
    pub turn: TurnSums,
    pub has_turn: bool,
}

/// A turn in which nothing has happened yet.
pub open spec fn fresh_turn(number: nat) -> TurnSums {
    TurnSums {
        number,
        totals: nothing(),
        outcome: None,
        validation: None,
        peak_context: 0,
        last_context: 0,
        last_context_breakdown: None,
    }
}

/// Nothing accounted for yet.
pub open spec fn blank() -> Ledger {
    Ledger {
        totals: nothing(),
        turns: seq![],
        models: seq![],
        turn: fresh_turn(1),
        has_turn: false,
    }
}

/// The first model, from `i` on, that does not come before the name.
pub open spec fn model_place(ms: Seq<(Seq<char>, Sums)>, name: Seq<char>, i: int) -> int
    decreases ms.len() - i,
{
    if i >= ms.len() || at_most(name, ms[i].0) {
        i
    } else {
        model_place(ms, name, i + 1)
    }
}

/// The models once an event is charged to one.
pub open spec fn charged(
    ms: Seq<(Seq<char>, Sums)>,
    name: Seq<char>,
    e: Emitted,
    at: usize,
) -> Seq<(Seq<char>, Sums)> {
    let p = model_place(ms, name, 0);
    if p < ms.len() && ms[p].0 == name {
        ms.update(p, (name, observed(ms[p].1, e, at)))
    } else {
        ms.insert(p, (name, observed(nothing(), e, at)))
    }
}

/// The name under which a model is accounted for.
pub open spec fn model_label(model: Seq<char>) -> Seq<char> {
    if model.len() == 0 {
        "unknown (legacy)"@
    } else {
        model
    }
}

/// Is this the measure of a helper's call, which belongs to no turn of its own?
pub open spec fn is_helper(e: Emitted) -> bool {
    match e {
        Emitted::ModelMetrics { purpose, .. } => purpose == "helper"@,
        _ => false,
    }
}

/// The accounts once the event at a place is entered.
pub open spec fn entered(l: Ledger, e: Emitted, at: usize) -> Ledger {
    let turn = if is_helper(e) && !l.has_turn {
        l.turn
    } else {
        TurnSums { totals: observed(l.turn.totals, e, at), ..l.turn }
    };
    let m = Ledger { totals: observed(l.totals, e, at), turn, ..l };
    match e {
        Emitted::UserMessage(_) => Ledger { has_turn: true, ..m },
        Emitted::ModelCallStarted => Ledger { has_turn: true, ..m },
        Emitted::ToolCall { .. } => Ledger { has_turn: true, ..m },
        Emitted::ModelMetrics { model, prompt_tokens, context_breakdown, .. } => {
            let models = charged(l.models, model_label(model), e, at);
            if is_helper(e) {
                Ledger { models, ..m }
            } else {
                Ledger {
                    models,
                    has_turn: true,
                    turn: TurnSums {
                        peak_context: if turn.peak_context < prompt_tokens {
                            prompt_tokens
                        } else {
                            turn.peak_context
                        },
                        last_context: prompt_tokens,
                        last_context_breakdown: context_breakdown,
                        ..turn
                    },
                    ..m
                }
            }
        },
        Emitted::Validation(ok, _) => Ledger {
            turn: TurnSums { validation: Some(ok), ..turn },
            ..m
        },
        Emitted::TurnComplete(outcome) => Ledger {
            turns: l.turns.push(TurnSums { outcome: Some(outcome), ..turn }),
            turn: fresh_turn(l.turns.len() + 2),
            has_turn: false,
            ..m
        },
        _ => m,
    }
}

/// The accounts once the first `n` events are entered.
pub open spec fn entered_all(evs: Seq<TimedEvent>, n: nat) -> Ledger
    decreases n,
{
    if n == 0 {
        blank()
    } else {
        entered(entered_all(evs, (n - 1) as nat), evs[n - 1].event@, (n - 1) as usize)
    }
}

/// The turns at the end: the one that is open counts once something happened in it.
pub open spec fn all_turns(l: Ledger) -> Seq<TurnSums> {
    if l.has_turn {
        l.turns.push(l.turn)
    } else {
        l.turns
    }
}

/// No count of any account is above `n`.
pub open spec fn ledger_within(l: Ledger, n: int) -> bool {
    &&& within(l.totals, n)
    &&& within(l.turn.totals, n)
    &&& forall|i: int| 0 <= i < l.models.len() ==> within((#[trigger] l.models[i]).1, n)
}

pub proof fn lemma_model_place(ms: Seq<(Seq<char>, Sums)>, name: Seq<char>, i: int)
    requires
        0 <= i <= ms.len(),
    ensures
        i <= model_place(ms, name, i) <= ms.len(),
        model_place(ms, name, i) < ms.len() ==> at_most(name, ms[model_place(ms, name, i)].0),
        forall|k: int| i <= k < model_place(ms, name, i) ==> !at_most(name, (#[trigger] ms[k]).0),
    decreases ms.len() - i,
{
    if i < ms.len() && !at_most(name, ms[i].0) {
        lemma_model_place(ms, name, i + 1);
    }
}

proof fn lemma_entered_within(l: Ledger, e: Emitted, at: usize, n: int)
    requires
        ledger_within(l, n),
        n >= 0,
    ensures
        ledger_within(entered(l, e, at), n + one_event()),
{
    let m = entered(l, e, at);
    lemma_within(l.totals, e, at, n);
    lemma_within(l.turn.totals, e, at, n);
    lemma_within(nothing(), e, at, n);
    if let Emitted::ModelMetrics { model, .. } = e {
        let name = model_label(model);
        lemma_model_place(l.models, name, 0);
        let p = model_place(l.models, name, 0);
        assert forall|i: int| 0 <= i < m.models.len() implies within(
            (#[trigger] m.models[i]).1,
            n + one_event(),
        ) by {
            if p < l.models.len() && l.models[p].0 == name {
                lemma_within(l.models[p].1, e, at, n);
                if i != p {
                    assert(m.models[i] == l.models[i]);
                }
            } else if i < p {
                assert(m.models[i] == l.models[i]);
            } else if i > p {
                assert(m.models[i] == l.models[i - 1]);
            }
        }
    } else {
        assert(m.models == l.models);
    }
}

fn new_turn(number: u128) -> (r: Turn)
    ensures
        r@ == fresh_turn(number as nat),
{
    Turn {
        number,
        totals: Totals::new(),
        outcome: None,
        validation: None,
        peak_context: 0,
        last_context: 0,
        last_context_breakdown: None,
    }
}

fn charge(models: &mut Vec<(String, Totals)>, name: &str, event: &Event, at: usize)
    requires
        forall|i: int|
            0 <= i < old(models)@.len() ==> within(
                (#[trigger] model_sums(old(models)@)[i]).1,
                u128::MAX - one_event(),
            ),
    ensures
        model_sums(final(models)@) == charged(model_sums(old(models)@), name@, event@, at),
{
    let ghost before = model_sums(models@);
    let mut p: usize = 0;
    while p < models.len() && !is_at_most(name, models[p].0.as_str())
        invariant
            p <= models@.len(),
            models@ == old(models)@,
            before == model_sums(models@),
            model_place(before, name@, 0) == model_place(before, name@, p as int),
        decreases models.len() - p,
    {
        assert(before[p as int].0 == models@[p as int].0@);
        p = p + 1;
    }
    proof {
        if p < before.len() {
            assert(before[p as int].0 == models@[p as int].0@);
        }
    }
    if p < models.len() && same(models[p].0.as_str(), name) {
        let (n, t) = models.remove(p);
        let ghost held = t@;
        assert(before[p as int] == (n@, t@));
        let mut t = t;
        t.observe(event, at);
        models.insert(p, (n, t));
        assert(model_sums(models@) =~= before.update(p as int, (name@, observed(held, event@, at))));
    } else {
        let mut t = Totals::new();
        t.observe(event, at);
        models.insert(p, (name.to_owned(), t));
        assert(model_sums(models@) =~= before.insert(
            p as int,
            (name@, observed(nothing(), event@, at)),
        ));
    }
}

impl Accounting {
    /// The accounts of a session, from its events.
    pub fn from_events(events: &Vec<TimedEvent>) -> (r: Accounting)
        ensures
            ({
                let l = entered_all(events@, events@.len());
                &&& r.totals@ == l.totals
                &&& turn_sums(r.turns@) == all_turns(l)
                &&& model_sums(r.models@) == l.models
            }),
            crate::metrics::adding::adds_up(
                r.totals@,
                events@,
                0,
                events@.len() as int,
                crate::metrics::adding::every(),
            ),
    {
        let mut totals = Totals::new();
        let mut turns: Vec<Turn> = Vec::new();
        let mut models: Vec<(String, Totals)> = Vec::new();
        let mut turn = new_turn(1);
        let mut has_turn = false;
        let mut i: usize = 0;
        assert(turn_sums(turns@) =~= seq![]);
        assert(model_sums(models@) =~= seq![]);
        while i < events.len()
            invariant
                i <= events@.len(),
                turns@.len() <= i,
                (Ledger {
                    totals: totals@,
                    turns: turn_sums(turns@),
                    models: model_sums(models@),
                    turn: turn@,
                    has_turn,
                }) == entered_all(events@, i as nat),
                ledger_within(entered_all(events@, i as nat), i * one_event()),
            decreases events.len() - i,
        {
            let ghost l = entered_all(events@, i as nat);
            let event = &events[i].event;
            proof {
                assert(i * one_event() >= 0) by (nonlinear_arith)
                    requires
                        one_event() >= 0,
                        i >= 0,
                ;
                assert(i * one_event() <= u128::MAX - one_event()) by (nonlinear_arith)
                    requires
                        i < 0xffff_ffff_ffff_ffff,
                        one_event() == 0xffff_ffff_ffff_ffff,
                ;
                lemma_entered_within(l, event@, i, i * one_event());
                assert((i + 1) * one_event() == i * one_event() + one_event()) by (nonlinear_arith);
                assert(l.models.len() == models@.len());
                assert forall|k: int| 0 <= k < models@.len() implies within(
                    (#[trigger] model_sums(models@)[k]).1,
                    u128::MAX - one_event(),
                ) by {
                    assert(within(l.models[k].1, i * one_event()));
                }
                assert(entered_all(events@, (i + 1) as nat) == entered(l, event@, i));
            }
            totals.observe(event, i);
            let helper = match event {
                Event::ModelMetrics { purpose, .. } => same(purpose.as_str(), "helper"),
                _ => false,
            };
            if !(helper && !has_turn) {
                turn.totals.observe(event, i);
            }
            match event {
                Event::UserMessage { .. } => {
                    has_turn = true;
                },
                Event::ModelCallStarted => {
                    has_turn = true;
                },
                Event::ToolCall { .. } => {
                    has_turn = true;
                },
                Event::ModelMetrics { model, prompt_tokens, context_breakdown, .. } => {
                    if !helper {
                        has_turn = true;
                        if turn.peak_context < *prompt_tokens {
                            turn.peak_context = *prompt_tokens;
                        }
                        turn.last_context = *prompt_tokens;
                        turn.last_context_breakdown = *context_breakdown;
                    }
                    if model.as_str().unicode_len() == 0 {
                        charge(&mut models, "unknown (legacy)", event, i);
                    } else {
                        charge(&mut models, model.as_str(), event, i);
                    }
                },
                Event::Validation { ok, .. } => {
                    turn.validation = Some(*ok);
                },
                Event::TurnComplete { outcome } => {
                    turn.outcome = Some(outcome.clone());
                    let ghost held = turns@;
                    turns.push(turn);
                    assert(turn_sums(turns@) =~= turn_sums(held).push(turn@));
                    turn = new_turn(turns.len() as u128 + 1);
                    has_turn = false;
                },
                _ => {},
            }
            i = i + 1;
        }
        if has_turn {
            let ghost held = turns@;
            turns.push(turn);
            assert(turn_sums(turns@) =~= turn_sums(held).push(turn@));
        }
        proof {
            crate::metrics::adding::totals_add_up(events@, events@.len());
        }
        Accounting { totals, turns, models }
    }
}

// ---- laws -------------------------------------------------------------------

/// Every call is priced or counted as unpriced, and what is said of a cache never
/// exceeds what was sent.
pub open spec fn honest(s: Sums) -> bool {
    &&& s.calls == s.priced_calls + s.unpriced_calls
    &&& s.priced_calls == s.priced.len()
    &&& s.cache_reported_calls <= s.calls
    &&& s.cache_write_reported_calls <= s.calls
    &&& s.cached_tokens <= s.cache_prompt_tokens <= s.prompt_tokens
    &&& s.cache_write_tokens <= s.prompt_tokens
}

/// Totals stay honest, whatever is seen.
pub proof fn totals_stay_honest(s: Sums, e: Emitted, at: usize)
    requires
        honest(s),
    ensures
        honest(observed(s, e, at)),
        honest(nothing()),
{
}

/// Taking in a session's totals is the same as seeing its events one by one.
pub proof fn sessions_add_up(a: Sums, b: Sums, e: Emitted, at: usize)
    ensures
        added(a, observed(b, e, at)) == observed(added(a, b), e, at),
        added(a, nothing()) == a,
{
    assert(a.priced + nothing().priced =~= a.priced);
    if let Emitted::ModelMetrics { priced, .. } = e {
        assert(a.priced + b.priced.push(at) =~= (a.priced + b.priced).push(at));
    }
}

/// The calls of all models.
pub open spec fn calls_of(ms: Seq<(Seq<char>, Sums)>) -> nat
    decreases ms.len(),
{
    if ms.len() == 0 {
        0
    } else {
        calls_of(ms.drop_last()) + ms.last().1.calls
    }
}

proof fn lemma_calls_update(ms: Seq<(Seq<char>, Sums)>, p: int, x: (Seq<char>, Sums))
    requires
        0 <= p < ms.len(),
    ensures
        calls_of(ms.update(p, x)) == calls_of(ms) - ms[p].1.calls + x.1.calls,
    decreases ms.len(),
{
    let u = ms.update(p, x);
    if p == ms.len() - 1 {
        assert(u.drop_last() =~= ms.drop_last());
    } else {
        assert(u.drop_last() =~= ms.drop_last().update(p, x));
        lemma_calls_update(ms.drop_last(), p, x);
    }
}

proof fn lemma_calls_insert(ms: Seq<(Seq<char>, Sums)>, p: int, x: (Seq<char>, Sums))
    requires
        0 <= p <= ms.len(),
    ensures
        calls_of(ms.insert(p, x)) == calls_of(ms) + x.1.calls,
    decreases ms.len(),
{
    let u = ms.insert(p, x);
    if p == ms.len() {
        assert(u.drop_last() =~= ms);
    } else {
        assert(u.drop_last() =~= ms.drop_last().insert(p, x));
        assert(u.last() == ms.last());
        lemma_calls_insert(ms.drop_last(), p, x);
    }
}

/// Every call is charged to exactly one model: the calls of all models are the calls of
/// the session.
pub proof fn every_call_has_a_model(evs: Seq<TimedEvent>, n: nat)
    ensures
        calls_of(entered_all(evs, n).models) == entered_all(evs, n).totals.calls,
    decreases n,
{
    if n > 0 {
        every_call_has_a_model(evs, (n - 1) as nat);
        let l = entered_all(evs, (n - 1) as nat);
        let e = evs[n - 1].event@;
        if let Emitted::ModelMetrics { model, .. } = e {
            let name = model_label(model);
            lemma_model_place(l.models, name, 0);
            let p = model_place(l.models, name, 0);
            let at = (n - 1) as usize;
            if p < l.models.len() && l.models[p].0 == name {
                lemma_calls_update(l.models, p, (name, observed(l.models[p].1, e, at)));
            } else {
                lemma_calls_insert(l.models, p, (name, observed(nothing(), e, at)));
            }
        }
    }
}

/// Turns are numbered from one on, without gaps.
pub proof fn turns_are_numbered(evs: Seq<TimedEvent>, n: nat)
    ensures
        ({
            let l = entered_all(evs, n);
            &&& l.turn.number == l.turns.len() + 1
            &&& forall|i: int| 0 <= i < l.turns.len() ==> (#[trigger] l.turns[i]).number == i + 1
        }),
    decreases n,
{
    if n > 0 {
        turns_are_numbered(evs, (n - 1) as nat);
        let l = entered_all(evs, (n - 1) as nat);
        let m = entered_all(evs, n);
        assert forall|i: int| 0 <= i < m.turns.len() implies (#[trigger] m.turns[i]).number == i
            + 1 by {
            if i < l.turns.len() {
                assert(m.turns[i] == l.turns[i]);
            }
        }
    }
}

} // verus!
