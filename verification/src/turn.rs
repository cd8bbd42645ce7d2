//! One user turn, as a state machine.
//!
//! A turn alternates model calls, tool runs and checks, none of which happen here:
//! each method takes in the answer to the last [`Command`] and hands out the next
//! ones.
use vstd::prelude::*;
use vstd::string::*;

use crate::agent::{
    cap_tool_output, capped, over_trigger, should_compact, working_tokens, MAX_EMPTY_COMPLETIONS,
};
use crate::command::{
    ending_label, lemma_orders_push, orders, Command, Ending, Order, TurnOutcome, TurnResult,
};
use crate::event::{Emitted, Event};
use crate::json::{json_read, read_view, Json, Tree};
use crate::list::{group_lists, views};
use crate::llm::{
    calls_view, plain, result_of, Call, Completed, Completion, Message, Role, Said, ToolCall, Usage,
};
use crate::tally::{one_more, seen, Tally, TextSet};
use crate::text::{copy_opt, dec, decimal, opt_view, same, trim, trimmed};

verus! {

broadcast use {group_lists, lemma_orders_push};

/// How a turn is run.
#[derive(Debug)]
pub struct TurnSettings {
    /// The model that is asked.
    pub model: String,
    /// Model calls per attempt.
    pub max_steps: usize,
    /// Attempts after the first one.
    pub max_retries: usize,
    /// Identical calls before a nudge.
    pub stuck_threshold: u32,
    /// The model's window, in tokens.
    pub context_limit: usize,
    /// Is there a check to pass?
    pub validated: bool,
}

/// What the machine waits for.
#[derive(Debug, Clone, Copy, PartialEq, Eq, Structural)]
pub enum Phase {
    /// The answer to [`Command::Poll`].
    Polling,
    /// The answer to [`Command::Measure`].
    Measuring,
    /// The end of [`Command::Compact`].
    Compacting,
    /// The answer to [`Command::CallModel`].
    Calling,
    /// The result of the call at this index.
    Running(usize),
    /// The answer to [`Command::Validate`].
    Validating,
    /// Nothing: the turn is over.
    Over,
}

/// A running turn.
pub struct Turn {
    settings: TurnSettings,
    phase: Phase,
    step: usize,
    retries_left: usize,
    /// How often each call, with its arguments, was made in this attempt.
    counts: Tally,
    /// The calls that were nudged about in this attempt.
    nudged: TextSet,
    /// Empty completions in this attempt.
    empty: u32,
    final_text: String,
    /// The calls of the last completion, with what their arguments read as.
    calls: Vec<ToolCall>,
    parsed: Vec<Result<Json, String>>,
    /// Was the last completion cut off?
    truncated: bool,
    /// The provider's prompt-token count for the last completion.
    prompt_tokens: u32,
}

/// What a running turn knows.
pub struct State {
    pub settings: TurnSettings,
    pub phase: Phase,
    pub step: nat,
    pub retries_left: nat,
    pub counts: Map<Seq<char>, u32>,
    pub nudged: Set<Seq<char>>,
    pub empty: nat,
    pub final_text: Seq<char>,
    pub calls: Seq<Call>,
    pub parsed: Seq<Result<Tree, Seq<char>>>,
    pub truncated: bool,
    pub prompt_tokens: u32,
}

/// What a list of readings came to.
pub open spec fn readings(v: Seq<Result<Json, String>>) -> Seq<Result<Tree, Seq<char>>> {
    Seq::new(v.len(), |i: int| read_view(v[i]))
}

impl View for Turn {
    type V = State;

    closed spec fn view(&self) -> State {
        State {
            settings: self.settings,
            phase: self.phase,
            step: self.step as nat,
            retries_left: self.retries_left as nat,
            counts: self.counts@,
            nudged: self.nudged@,
            empty: self.empty as nat,
            final_text: self.final_text@,
            calls: calls_view(self.calls@),
            parsed: readings(self.parsed@),
            truncated: self.truncated,
            prompt_tokens: self.prompt_tokens,
        }
    }
}

/// The state and the orders that follow.
pub type Next = (State, Seq<Order>);

/// The orders `first`, before those of `n`.
pub open spec fn after(first: Seq<Order>, n: Next) -> Next {
    (n.0, first + n.1)
}

/// The turn ends: its outcome is published, and handed over with the final text.
pub open spec fn finished(s: State, e: Ending) -> Next {
    (
        State { phase: Phase::Over, ..s },
        seq![
            Order::Emit(Emitted::TurnComplete(ending_label(e))),
            Order::Finish(e, s.final_text),
        ],
    )
}

/// The model is done: the check decides, if there is one.
pub open spec fn model_done(s: State) -> Next {
    if s.settings.validated {
        (State { phase: Phase::Validating, ..s }, seq![Order::Validate])
    } else {
        finished(s, Ending::Done)
    }
}

/// The next step of an attempt, or its end where the steps are used up.
pub open spec fn next_step(s: State) -> Next {
    if s.step >= s.settings.max_steps {
        finished(s, Ending::MaxSteps)
    } else {
        (State { phase: Phase::Polling, ..s }, seq![Order::Poll])
    }
}

/// A fresh attempt: nothing counted, nothing nudged about.
pub open spec fn attempt(s: State) -> Next {
    next_step(
        State { step: 0, counts: Map::empty(), nudged: Set::empty(), empty: 0, ..s },
    )
}

/// The turn begins with the user's message.
pub open spec fn begun(settings: TurnSettings, input: Seq<char>) -> Next {
    after(
        seq![Order::Append(plain(Role::User, input)), Order::Emit(Emitted::UserMessage(input))],
        attempt(
            State {
                settings,
                phase: Phase::Over,
                step: 0,
                retries_left: settings.max_retries as nat,
                counts: Map::empty(),
                nudged: Set::empty(),
                empty: 0,
                final_text: seq![],
                calls: seq![],
                parsed: seq![],
                truncated: false,
                prompt_tokens: 0,
            },
        ),
    )
}

/// A message to the model, published as a nudge.
pub open spec fn nudge(text: Seq<char>) -> Seq<Order> {
    seq![Order::Emit(Emitted::Nudge(text)), Order::Append(plain(Role::User, text))]
}

/// The messages that were posted to the turn, each as a nudge.
pub open spec fn steered(messages: Seq<Seq<char>>) -> Seq<Order>
    decreases messages.len(),
{
    if messages.len() == 0 {
        seq![]
    } else {
        steered(messages.drop_last()) + nudge(messages.last())
    }
}

/// After a poll: a cancelled turn is aborted, any other takes what was posted and
/// has its history measured.
pub open spec fn polled(s: State, cancelled: bool, messages: Seq<Seq<char>>) -> Next {
    if cancelled {
        finished(s, Ending::Aborted)
    } else {
        (State { phase: Phase::Measuring, ..s }, steered(messages).push(Order::Measure))
    }
}

/// After the measurement: compact first, or call the model.
pub open spec fn measured(s: State, estimate: nat) -> Next {
    let working = if s.prompt_tokens > estimate { s.prompt_tokens as nat } else { estimate };
    if over_trigger(working, s.settings.context_limit as nat) {
        (State { phase: Phase::Compacting, ..s }, seq![Order::Compact])
    } else {
        (State { phase: Phase::Calling, ..s }, seq![Order::CallModel])
    }
}

/// After compaction, which is best-effort: a failure is published, and the model
/// is called all the same.
pub open spec fn compacted(s: State, failure: Option<Seq<char>>) -> Next {
    (
        State { phase: Phase::Calling, ..s },
        match failure {
            Some(e) => seq![
                Order::Emit(Emitted::Error("compaction failed: "@ + e)),
                Order::CallModel,
            ],
            None => seq![Order::CallModel],
        },
    )
}

/// The model could not be asked: the turn fails.
pub open spec fn failed(s: State, e: Seq<char>) -> Next {
    (
        State { phase: Phase::Over, ..s },
        seq![Order::Emit(Emitted::Error(e)), Order::Fail(e)],
    )
}

/// The calls as they are stored: arguments that do not parse become an empty
/// object, because a provider rejects a history that holds them.
pub open spec fn stored(
    calls: Seq<Call>,
    parsed: Seq<Result<Tree, Seq<char>>>,
) -> Seq<Call> {
    Seq::new(
        calls.len(),
        |i: int|
            if parsed[i] is Err {
                Call { arguments: "{}"@, ..calls[i] }
            } else {
                calls[i]
            },
    )
}

/// Was the completion cut off by the output-token limit?
pub open spec fn cut_off(c: Completed) -> bool {
    c.finish_reason == Some("length"@)
}

/// What is published and stored of every completion.
pub open spec fn recorded(
    c: Completed,
    parsed: Seq<Result<Tree, Seq<char>>>,
    model: Seq<char>,
) -> Seq<Order> {
    let usage = Order::Emit(
        Emitted::Usage {
            prompt_tokens: c.usage.prompt_tokens,
            completion_tokens: c.usage.completion_tokens,
            total_tokens: c.usage.total_tokens,
            reasoning_tokens: c.usage.reasoning_tokens,
            finish_reason: c.finish_reason,
        },
    );
    let message = Order::Append(
        Said {
            role: Role::Assistant,
            content: c.content,
            tool_calls: stored(c.tool_calls, parsed),
            tool_call_id: None,
            name: None,
            reasoning: c.reasoning,
            finish_reason: c.finish_reason,
            model: Some(model),
        },
    );
    match c.content {
        Some(text) if text.len() > 0 => seq![
            usage,
            message,
            Order::Emit(Emitted::AssistantMessage(text)),
        ],
        _ => seq![usage, message],
    }
}

/// The text that stands when the turn ends: the last one that was not empty.
pub open spec fn text_after(before: Seq<char>, content: Option<Seq<char>>) -> Seq<char> {
    match content {
        Some(text) if text.len() > 0 => text,
        _ => before,
    }
}

/// The message to a model that returned nothing.
pub open spec fn empty_nudge(truncated: bool) -> Seq<char> {
    if truncated {
        "Your last response hit the output-token limit while still reasoning, so nothing came back. Skip further deliberation: make the next tool call, or give your answer directly, right now."@
    } else {
        "Your last response was empty. Make a tool call or give your answer."@
    }
}

/// Why a turn whose completions stay empty is stuck.
pub open spec fn empty_stuck(truncated: bool) -> Seq<char> {
    if truncated {
        "the model spent its whole output budget reasoning and never answered — raise max-tokens, or run with --fast / /fast"@
    } else {
        "the model returned an empty response"@
    }
}

/// Is there nothing but white space in the text of a completion?
pub open spec fn silent(c: Completed) -> bool {
    match c.content {
        Some(text) => trim(text).len() == 0,
        None => true,
    }
}

/// A call and its arguments, as one text.
pub open spec fn signature(c: Call) -> Seq<char> {
    c.name + "::"@ + c.arguments
}

/// Why a turn that repeats a call is stuck.
pub open spec fn repeat_stuck(name: Seq<char>, count: u32) -> Seq<char> {
    "repeated `"@ + name + "` "@ + dec(count as nat) + " times with identical arguments"@
}

/// The counts once the calls from `i` on are counted, and the first call that is
/// over the limit, if any.
pub open spec fn counted(
    calls: Seq<Call>,
    i: int,
    counts: Map<Seq<char>, u32>,
    threshold: u32,
) -> (Map<Seq<char>, u32>, Option<Seq<char>>)
    decreases calls.len() - i,
{
    if i < 0 || i >= calls.len() {
        (counts, None)
    } else {
        let sig = signature(calls[i]);
        let n = one_more(seen(counts, sig));
        let next = counts.insert(sig, n);
        if n >= threshold + 2 {
            (next, Some(repeat_stuck(calls[i].name, n)))
        } else {
            counted(calls, i + 1, next, threshold)
        }
    }
}

/// The message for arguments that do not parse.
pub open spec fn invalid_arguments(name: Seq<char>, e: Seq<char>, truncated: bool) -> Seq<char> {
    let hint: Seq<char> = if truncated {
        " — the response was cut off by the output-token limit; make the call smaller (e.g. write the file in parts)"@
    } else {
        seq![]
    };
    "invalid JSON arguments for `"@ + name + "`: "@ + e + hint
}

/// What is published and stored of a tool result.
pub open spec fn reported(c: Call, ok: bool, content: Seq<char>) -> Seq<Order> {
    seq![
        Order::Emit(Emitted::ToolResult { id: c.id, name: c.name, ok, output: content }),
        Order::Append(result_of(c.id, c.name, content)),
    ]
}

/// The message about a call that is made again and again.
pub open spec fn repeat_nudge(name: Seq<char>) -> Seq<char> {
    "You've made the same `"@ + name
        + "` call repeatedly without new information. Step back and try a different approach."@
}

/// What was nudged about, and the nudges, once the calls from `i` on are looked at.
pub open spec fn repeat_nudges(
    calls: Seq<Call>,
    i: int,
    counts: Map<Seq<char>, u32>,
    nudged: Set<Seq<char>>,
    threshold: u32,
) -> (Set<Seq<char>>, Seq<Order>)
    decreases calls.len() - i,
{
    if i < 0 || i >= calls.len() {
        (nudged, seq![])
    } else {
        let sig = signature(calls[i]);
        if seen(counts, sig) >= threshold && !nudged.contains(sig) {
            let (all, rest) = repeat_nudges(calls, i + 1, counts, nudged.insert(sig), threshold);
            (all, nudge(repeat_nudge(calls[i].name)) + rest)
        } else {
            repeat_nudges(calls, i + 1, counts, nudged, threshold)
        }
    }
}

/// The calls are done: nudge about those that repeat, and take the next step.
pub open spec fn calls_done(s: State) -> Next {
    let (nudged, orders) = repeat_nudges(
        s.calls,
        0,
        s.counts,
        s.nudged,
        s.settings.stuck_threshold,
    );
    after(orders, next_step(State { nudged, step: s.step + 1, ..s }))
}

/// The call at `i` is published and run; one whose arguments do not parse gets an
/// error at once, and the next one follows.
pub open spec fn issued(s: State, i: int) -> Next
    decreases s.calls.len() - i,
{
    if i < 0 || i >= s.calls.len() {
        calls_done(s)
    } else {
        let c = s.calls[i];
        let call = Order::Emit(
            Emitted::ToolCall { id: c.id, name: c.name, arguments: c.arguments },
        );
        match s.parsed[i] {
            Ok(t) => (
                State { phase: Phase::Running(i as usize), ..s },
                seq![call, Order::RunTool(c.name, t)],
            ),
            Err(e) => after(
                seq![call] + reported(
                    c,
                    false,
                    capped(invalid_arguments(c.name, e, s.truncated)),
                ),
                issued(s, i + 1),
            ),
        }
    }
}

/// After a completion, given what the arguments of its calls read as.
pub open spec fn answered(s: State, c: Completed, parsed: Seq<Result<Tree, Seq<char>>>) -> Next {
    let t = State {
        prompt_tokens: c.usage.prompt_tokens,
        final_text: text_after(s.final_text, c.content),
        truncated: cut_off(c),
        ..s
    };
    let head = recorded(c, parsed, s.settings.model@);
    if c.tool_calls.len() == 0 {
        if !silent(c) {
            after(head, model_done(t))
        } else if s.empty + 1 > MAX_EMPTY_COMPLETIONS {
            after(head, finished(t, Ending::Stuck(empty_stuck(cut_off(c)))))
        } else {
            after(
                head + nudge(empty_nudge(cut_off(c))),
                next_step(State { empty: s.empty + 1, step: s.step + 1, ..t }),
            )
        }
    } else {
        let (counts, stuck) = counted(
            c.tool_calls,
            0,
            s.counts,
            s.settings.stuck_threshold,
        );
        let u = State { counts, ..t };
        match stuck {
            Some(why) => after(head, finished(u, Ending::Stuck(why))),
            None => after(head, issued(State { calls: c.tool_calls, parsed, ..u }, 0)),
        }
    }
}

/// After a tool ran: its result, cut to the cap, is fed back; a fatal one ends the
/// turn, after any other the next call follows.
pub open spec fn tool_done(s: State, i: int, ok: bool, fatal: bool, raw: Seq<char>) -> Next {
    let content = capped(raw);
    let head = reported(s.calls[i], ok, content);
    if fatal {
        after(
            head.push(Order::Emit(Emitted::Error(content))),
            finished(s, Ending::Blocked(content)),
        )
    } else {
        after(head, issued(s, i + 1))
    }
}

/// The message that has the model try again after a failed check.
pub open spec fn replan(check: Seq<char>, why: Seq<char>) -> Seq<char> {
    "The validation check "@ + check + " did not pass:\n\n"@ + why
        + "\n\nRevise your approach and fix the underlying problem, then finish."@
}

/// After the check: it passed, or the model tries again while retries are left.
pub open spec fn validated(s: State, check: Seq<char>, failure: Option<Seq<char>>) -> Next {
    match failure {
        None => after(
            seq![Order::Emit(Emitted::Validation(true, check))],
            finished(s, Ending::Done),
        ),
        Some(why) => if s.retries_left == 0 {
            after(
                seq![Order::Emit(Emitted::Validation(false, why))],
                finished(s, Ending::ValidationFailed(why)),
            )
        } else {
            let left = (s.retries_left - 1) as nat;
            after(
                seq![
                    Order::Emit(Emitted::Validation(false, why)),
                    Order::Emit(
                        Emitted::Nudge(
                            "validation failed; re-planning ("@ + dec(left) + " retries left)"@,
                        ),
                    ),
                    Order::Append(plain(Role::User, replan(check, why))),
                ],
                attempt(State { retries_left: left, ..s }),
            )
        },
    }
}

/// What the arguments of the calls read as.
pub open spec fn all_read(calls: Seq<Call>) -> Seq<Result<Tree, Seq<char>>> {
    Seq::new(calls.len(), |i: int| json_read(calls[i].arguments))
}

// ---- the machine ------------------------------------------------------------

fn push_nudge(out: &mut Vec<Command>, text: &str)
    ensures
        orders(final(out)@) == orders(old(out)@) + nudge(text@),
{
    let ghost before = orders(out@);
    out.push(Command::Emit(Event::Nudge { reason: text.to_owned() }));
    out.push(Command::Append(Message::user(text)));
    assert(orders(out@) =~= before + nudge(text@));
}

fn sanitized(calls: &Vec<ToolCall>, parsed: &Vec<Result<Json, String>>) -> (r: Vec<ToolCall>)
    requires
        parsed@.len() == calls@.len(),
    ensures
        calls_view(r@) == stored(calls_view(calls@), readings(parsed@)),
{
    let mut r: Vec<ToolCall> = Vec::new();
    let mut i: usize = 0;
    let ghost all = stored(calls_view(calls@), readings(parsed@));
    while i < calls.len()
        invariant
            i <= calls@.len(),
            parsed@.len() == calls@.len(),
            all == stored(calls_view(calls@), readings(parsed@)),
            calls_view(r@) == all.take(i as int),
        decreases calls.len() - i,
    {
        let ghost before = calls_view(r@);
        let mut c = calls[i].copy();
        assert(readings(parsed@)[i as int] == read_view(parsed@[i as int]));
        if parsed[i].is_err() {
            c.arguments = "{}".to_owned();
        }
        assert(c@ == all[i as int]);
        r.push(c);
        assert(calls_view(r@) =~= before.push(c@));
        i = i + 1;
        assert(calls_view(r@) =~= all.take(i as int));
    }
    assert(calls_view(r@) =~= all);
    r
}

fn sign(c: &ToolCall) -> (r: String)
    ensures
        r@ == signature(c@),
{
    let mut s = c.name.clone();
    s.append("::");
    s.append(c.arguments.as_str());
    s
}

/// What the arguments of a list of calls read as.
pub fn read_arguments(calls: &Vec<ToolCall>) -> (r: Vec<Result<Json, String>>)
    ensures
        readings(r@) == all_read(calls_view(calls@)),
{
    let mut r: Vec<Result<Json, String>> = Vec::new();
    let mut i: usize = 0;
    let ghost all = all_read(calls_view(calls@));
    while i < calls.len()
        invariant
            i <= calls@.len(),
            all == all_read(calls_view(calls@)),
            readings(r@) == all.take(i as int),
        decreases calls.len() - i,
    {
        let ghost before = readings(r@);
        r.push(Json::parse(calls[i].arguments.as_str()));
        assert(readings(r@) =~= before.push(all[i as int]));
        i = i + 1;
        assert(readings(r@) =~= all.take(i as int));
    }
    assert(readings(r@) =~= all);
    r
}

impl Turn {
    /// What the machine keeps to: the calls at hand have a reading each, the step
    /// is within the attempt while one is under way, and a call that runs is one
    /// of the calls at hand.
    pub closed spec fn wf(&self) -> bool {
        wf_state(self@)
    }

    /// Begin a turn with the user's message.
    pub fn begin(settings: TurnSettings, input: &str) -> (r: (Turn, Vec<Command>))
        ensures
            r.0.wf(),
            (r.0@, orders(r.1@)) == begun(settings, input@),
    {
        let mut out: Vec<Command> = Vec::new();
        let retries_left = settings.max_retries;
        let mut t = Turn {
            settings,
            phase: Phase::Over,
            step: 0,
            retries_left,
            counts: Tally::new(),
            nudged: TextSet::new(),
            empty: 0,
            final_text: String::new(),
            calls: Vec::new(),
            parsed: Vec::new(),
            truncated: false,
            prompt_tokens: 0,
        };
        assert(calls_view(t.calls@) =~= seq![]);
        assert(readings(t.parsed@) =~= seq![]);
        out.push(Command::Append(Message::user(input)));
        out.push(Command::Emit(Event::UserMessage { text: input.to_owned() }));
        let ghost head = orders(out@);
        t.attempt(&mut out);
        assert(orders(out@) =~= begun(settings, input@).1);
        (t, out)
    }

    /// What the machine waits for.
    pub fn phase(&self) -> (r: Phase)
        ensures
            r == self@.phase,
    {
        self.phase
    }

    fn finish(&mut self, outcome: TurnOutcome, out: &mut Vec<Command>)
        ensures
            final(self)@ == finished(old(self)@, outcome@).0,
            orders(final(out)@) == orders(old(out)@) + finished(old(self)@, outcome@).1,
    {
        let ghost before = orders(out@);
        self.phase = Phase::Over;
        out.push(Command::Emit(Event::TurnComplete { outcome: outcome.label() }));
        out.push(Command::Finish(TurnResult { text: self.final_text.clone(), outcome }));
        assert(orders(out@) =~= before + finished(old(self)@, outcome@).1);
    }

    fn model_done(&mut self, out: &mut Vec<Command>)
        ensures
            final(self)@ == model_done(old(self)@).0,
            orders(final(out)@) == orders(old(out)@) + model_done(old(self)@).1,
    {
        let ghost before = orders(out@);
        if self.settings.validated {
            self.phase = Phase::Validating;
            out.push(Command::Validate);
            assert(orders(out@) =~= before + model_done(old(self)@).1);
        } else {
            self.finish(TurnOutcome::Done, out);
        }
    }

    fn next_step(&mut self, out: &mut Vec<Command>)
        ensures
            final(self)@ == next_step(old(self)@).0,
            orders(final(out)@) == orders(old(out)@) + next_step(old(self)@).1,
    {
        let ghost before = orders(out@);
        if self.step >= self.settings.max_steps {
            self.finish(TurnOutcome::MaxSteps, out);
        } else {
            self.phase = Phase::Polling;
            out.push(Command::Poll);
            assert(orders(out@) =~= before + next_step(old(self)@).1);
        }
    }

    fn attempt(&mut self, out: &mut Vec<Command>)
        ensures
            final(self)@ == attempt(old(self)@).0,
            orders(final(out)@) == orders(old(out)@) + attempt(old(self)@).1,
    {
        self.step = 0;
        self.counts = Tally::new();
        self.nudged = TextSet::new();
        self.empty = 0;
        self.next_step(out);
    }

    /// Take in whether the turn was cancelled and what was posted to it.
    pub fn polled(&mut self, cancelled: bool, messages: Vec<String>) -> (r: Vec<Command>)
        requires
            old(self).wf(),
            old(self)@.phase == Phase::Polling,
        ensures
            final(self).wf(),
            (final(self)@, orders(r@)) == polled(old(self)@, cancelled, views(messages@)),
    {
        let mut out: Vec<Command> = Vec::new();
        if cancelled {
            self.finish(TurnOutcome::Aborted, &mut out);
            assert(orders(out@) =~= polled(old(self)@, cancelled, views(messages@)).1);
            return out;
        }
        let ghost all = views(messages@);
        let mut i: usize = 0;
        assert(all.take(0).len() == 0);
        assert(orders(out@) =~= steered(all.take(0)));
        while i < messages.len()
            invariant
                i <= messages@.len(),
                all == views(messages@),
                orders(out@) == steered(all.take(i as int)),
            decreases messages.len() - i,
        {
            assert(all.take(i + 1).drop_last() =~= all.take(i as int));
            push_nudge(&mut out, messages[i].as_str());
            i = i + 1;
        }
        assert(all.take(i as int) =~= all);
        self.phase = Phase::Measuring;
        out.push(Command::Measure);
        out
    }

    /// Take in how many tokens the session's messages come to.
    pub fn measured(&mut self, estimate: usize) -> (r: Vec<Command>)
        requires
            old(self).wf(),
            old(self)@.phase == Phase::Measuring,
        ensures
            final(self).wf(),
            (final(self)@, orders(r@)) == measured(old(self)@, estimate as nat),
    {
        let mut out: Vec<Command> = Vec::new();
        let working = working_tokens(self.prompt_tokens, estimate);
        if should_compact(working, self.settings.context_limit) {
            self.phase = Phase::Compacting;
            out.push(Command::Compact);
        } else {
            self.phase = Phase::Calling;
            out.push(Command::CallModel);
        }
        assert(orders(out@) =~= measured(old(self)@, estimate as nat).1);
        out
    }

    /// Take in how compaction went.
    pub fn compacted(&mut self, failure: Option<String>) -> (r: Vec<Command>)
        requires
            old(self).wf(),
            old(self)@.phase == Phase::Compacting,
        ensures
            final(self).wf(),
            (final(self)@, orders(r@)) == compacted(old(self)@, opt_view(failure)),
    {
        let ghost e = opt_view(failure);
        let mut out: Vec<Command> = Vec::new();
        if let Some(e) = failure {
            let mut message = "compaction failed: ".to_owned();
            message.append(e.as_str());
            out.push(Command::Emit(Event::Error { message }));
        }
        self.phase = Phase::Calling;
        out.push(Command::CallModel);
        assert(orders(out@) =~= compacted(old(self)@, e).1);
        out
    }

    /// Take in that the model could not be asked.
    pub fn failed(&mut self, e: String) -> (r: Vec<Command>)
        requires
            old(self).wf(),
            old(self)@.phase == Phase::Calling,
        ensures
            final(self).wf(),
            (final(self)@, orders(r@)) == failed(old(self)@, e@),
    {
        let mut out: Vec<Command> = Vec::new();
        self.phase = Phase::Over;
        out.push(Command::Emit(Event::Error { message: e.clone() }));
        out.push(Command::Fail(e));
        assert(orders(out@) =~= failed(old(self)@, e@).1);
        out
    }

    /// Take in a completion.
    pub fn answered(&mut self, c: Completion) -> (r: Vec<Command>)
        requires
            old(self).wf(),
            old(self)@.phase == Phase::Calling,
        ensures
            final(self).wf(),
            (final(self)@, orders(r@)) == answered(
                old(self)@,
                c@,
                all_read(c@.tool_calls),
            ),
    {
        let parsed = read_arguments(&c.tool_calls);
        assert(parsed@.len() == readings(parsed@).len());
        self.answered_with(c, parsed)
    }

    /// Take in a completion, given what the arguments of its calls read as.
    pub fn answered_with(&mut self, c: Completion, parsed: Vec<Result<Json, String>>) -> (r: Vec<
        Command,
    >)
        requires
            old(self).wf(),
            old(self)@.phase == Phase::Calling,
            parsed@.len() == c.tool_calls@.len(),
        ensures
            final(self).wf(),
            (final(self)@, orders(r@)) == answered(old(self)@, c@, readings(parsed@)),
    {
        let ghost s0 = self@;
        let ghost said = c@;
        let ghost read = readings(parsed@);
        let mut out: Vec<Command> = Vec::new();
        self.prompt_tokens = c.usage.prompt_tokens;
        out.push(
            Command::Emit(
                Event::Usage {
                    prompt_tokens: c.usage.prompt_tokens,
                    completion_tokens: c.usage.completion_tokens,
                    total_tokens: c.usage.total_tokens,
                    reasoning_tokens: c.usage.reasoning_tokens,
                    finish_reason: copy_opt(&c.finish_reason),
                },
            ),
        );
        let truncated = match &c.finish_reason {
            Some(f) => same(f.as_str(), "length"),
            None => false,
        };
        self.truncated = truncated;
        let message = Message::assistant(copy_opt(&c.content), sanitized(&c.tool_calls, &parsed));
        let message = message.with_trace(
            copy_opt(&c.reasoning),
            copy_opt(&c.finish_reason),
            Some(self.settings.model.clone()),
        );
        out.push(Command::Append(message));
        let mut silent = true;
        if let Some(text) = &c.content {
            if text.as_str().unicode_len() > 0 {
                out.push(Command::Emit(Event::AssistantMessage { text: text.clone() }));
                self.final_text = text.clone();
            }
            silent = trimmed(text.as_str()).as_str().unicode_len() == 0;
        }
        assert(orders(out@) =~= recorded(said, read, s0.settings.model@));
        let ghost head = orders(out@);
        if c.tool_calls.len() == 0 {
            if !silent {
                self.model_done(&mut out);
                return out;
            }
            if self.empty >= MAX_EMPTY_COMPLETIONS {
                let why = if truncated {
                    "the model spent its whole output budget reasoning and never answered — raise max-tokens, or run with --fast / /fast"
                } else {
                    "the model returned an empty response"
                };
                self.finish(TurnOutcome::Stuck(why.to_owned()), &mut out);
                return out;
            }
            let text = if truncated {
                "Your last response hit the output-token limit while still reasoning, so nothing came back. Skip further deliberation: make the next tool call, or give your answer directly, right now."
            } else {
                "Your last response was empty. Make a tool call or give your answer."
            };
            push_nudge(&mut out, text);
            self.empty = self.empty + 1;
            self.step = self.step + 1;
            self.next_step(&mut out);
            return out;
        }
        let mut i: usize = 0;
        let ghost threshold = self.settings.stuck_threshold;
        while i < c.tool_calls.len()
            invariant
                i <= c.tool_calls@.len(),
                head == orders(out@),
                head == recorded(said, read, s0.settings.model@),
                said == c@,
                read == readings(parsed@),
                s0 == old(self)@,
                wf_state(s0),
                s0.phase == Phase::Calling,
                parsed@.len() == c.tool_calls@.len(),
                said.tool_calls.len() > 0,
                threshold == self.settings.stuck_threshold,
                threshold == s0.settings.stuck_threshold,
                counted(said.tool_calls, i as int, self.counts@, threshold) == counted(
                    said.tool_calls,
                    0,
                    s0.counts,
                    threshold,
                ),
                self@ == (State {
                    prompt_tokens: said.usage.prompt_tokens,
                    final_text: text_after(s0.final_text, said.content),
                    truncated: cut_off(said),
                    counts: self.counts@,
                    ..s0
                }),
            decreases c.tool_calls.len() - i,
        {
            let call = &c.tool_calls[i];
            assert(said.tool_calls[i as int] == call@);
            let sig = sign(call);
            let n = self.counts.bump(sig.as_str());
            if n as u64 >= self.settings.stuck_threshold as u64 + 2 {
                let mut why = "repeated `".to_owned();
                why.append(call.name.as_str());
                why.append("` ");
                let k = decimal(n as u128);
                why.append(k.as_str());
                why.append(" times with identical arguments");
                self.finish(TurnOutcome::Stuck(why), &mut out);
                return out;
            }
            i = i + 1;
        }
        self.calls = c.tool_calls;
        self.parsed = parsed;
        self.issue(0, &mut out);
        out
    }

    /// Take in what a tool returned.
    pub fn tool_done(&mut self, ok: bool, fatal: bool, raw: String) -> (r: Vec<Command>)
        requires
            old(self).wf(),
            old(self)@.phase is Running,
        ensures
            final(self).wf(),
            (final(self)@, orders(r@)) == tool_done(
                old(self)@,
                old(self)@.phase->Running_0 as int,
                ok,
                fatal,
                raw@,
            ),
    {
        let mut out: Vec<Command> = Vec::new();
        let i: usize = match self.phase {
            Phase::Running(i) => i,
            _ => 0,
        };
        let content = cap_tool_output(raw);
        let n = self.calls.len();
        assert(i < n);
        let ghost c = self@.calls[i as int];
        assert(c == self.calls@[i as int]@);
        self.report(i, ok, content.as_str(), &mut out);
        assert(orders(out@) =~= reported(c, ok, content@));
        if fatal {
            out.push(Command::Emit(Event::Error { message: content.clone() }));
            self.finish(TurnOutcome::Blocked(content), &mut out);
        } else {
            self.issue(i + 1, &mut out);
        }
        out
    }

    fn report(&self, i: usize, ok: bool, content: &str, out: &mut Vec<Command>)
        requires
            i < self@.calls.len(),
        ensures
            orders(final(out)@) == orders(old(out)@) + reported(
                self@.calls[i as int],
                ok,
                content@,
            ),
    {
        let ghost before = orders(out@);
        let c = &self.calls[i];
        assert(c@ == self@.calls[i as int]);
        out.push(
            Command::Emit(
                Event::ToolResult {
                    id: c.id.clone(),
                    name: c.name.clone(),
                    ok,
                    output: content.to_owned(),
                },
            ),
        );
        out.push(
            Command::Append(Message::tool_result(c.id.as_str(), c.name.as_str(), content)),
        );
        assert(orders(out@) =~= before + reported(self@.calls[i as int], ok, content@));
    }

    fn issue(&mut self, from: usize, out: &mut Vec<Command>)
        requires
            old(self)@.calls.len() == old(self)@.parsed.len(),
            from <= old(self)@.calls.len(),
            old(self)@.step < old(self)@.settings.max_steps,
            old(self)@.empty <= MAX_EMPTY_COMPLETIONS,
            old(self)@.retries_left <= old(self)@.settings.max_retries,
        ensures
            final(self)@ == issued(old(self)@, from as int).0,
            wf_state(final(self)@),
            orders(final(out)@) == orders(old(out)@) + issued(old(self)@, from as int).1,
    {
        let ghost s0 = self@;
        let ghost before = orders(out@);
        let mut i: usize = from;
        assert(orders(out@) + issued(s0, i as int).1 =~= before + issued(s0, from as int).1);
        while i < self.calls.len()
            invariant
                from <= i <= self.calls@.len(),
                s0 == old(self)@,
                self@ == s0,
                s0.calls.len() == s0.parsed.len(),
                s0.step < s0.settings.max_steps,
                s0.empty <= MAX_EMPTY_COMPLETIONS,
                s0.retries_left <= s0.settings.max_retries,
                before == orders(old(out)@),
                issued(s0, i as int).0 == issued(s0, from as int).0,
                orders(out@) + issued(s0, i as int).1 == before + issued(s0, from as int).1,
            decreases self.calls.len() - i,
        {
            let ghost sofar = orders(out@);
            let ghost c = s0.calls[i as int];
            assert(c == self.calls@[i as int]@);
            assert(s0.parsed[i as int] == read_view(self.parsed@[i as int]));
            out.push(
                Command::Emit(
                    Event::ToolCall {
                        id: self.calls[i].id.clone(),
                        name: self.calls[i].name.clone(),
                        arguments: self.calls[i].arguments.clone(),
                    },
                ),
            );
            match &self.parsed[i] {
                Ok(j) => {
                    out.push(
                        Command::RunTool { name: self.calls[i].name.clone(), arguments: j.copy() },
                    );
                    self.phase = Phase::Running(i);
                    assert(orders(out@) =~= sofar + issued(s0, i as int).1);
                    return;
                },
                Err(e) => {
                    let mut text = "invalid JSON arguments for `".to_owned();
                    text.append(self.calls[i].name.as_str());
                    text.append("`: ");
                    text.append(e.as_str());
                    let hint = if self.truncated {
                        " — the response was cut off by the output-token limit; make the call smaller (e.g. write the file in parts)".to_owned()
                    } else {
                        String::new()
                    };
                    text.append(hint.as_str());
                    let content = cap_tool_output(text);
                    self.report(i, false, content.as_str(), out);
                    assert(orders(out@) + issued(s0, i + 1).1 =~= sofar + issued(
                        s0,
                        i as int,
                    ).1);
                },
            }
            i = i + 1;
        }
        self.wind_up(out);
        assert(orders(out@) =~= before + issued(s0, from as int).1);
    }

    fn wind_up(&mut self, out: &mut Vec<Command>)
        requires
            old(self)@.calls.len() == old(self)@.parsed.len(),
            old(self)@.step < old(self)@.settings.max_steps,
            old(self)@.empty <= MAX_EMPTY_COMPLETIONS,
            old(self)@.retries_left <= old(self)@.settings.max_retries,
        ensures
            final(self)@ == calls_done(old(self)@).0,
            wf_state(final(self)@),
            orders(final(out)@) == orders(old(out)@) + calls_done(old(self)@).1,
    {
        let ghost s0 = self@;
        let ghost before = orders(out@);
        let ghost threshold = s0.settings.stuck_threshold;
        let ghost all = repeat_nudges(s0.calls, 0, s0.counts, s0.nudged, threshold);
        let mut i: usize = 0;
        assert(orders(out@) + all.1 =~= before + all.1);
        while i < self.calls.len()
            invariant
                i <= self.calls@.len(),
                s0 == old(self)@,
                s0.calls.len() == s0.parsed.len(),
                s0.step < s0.settings.max_steps,
                s0.empty <= MAX_EMPTY_COMPLETIONS,
                s0.retries_left <= s0.settings.max_retries,
                threshold == s0.settings.stuck_threshold,
                self@ == (State { nudged: self.nudged@, ..s0 }),
                all == repeat_nudges(s0.calls, 0, s0.counts, s0.nudged, threshold),
                repeat_nudges(s0.calls, i as int, s0.counts, self.nudged@, threshold).0 == all.0,
                orders(out@) + repeat_nudges(
                    s0.calls,
                    i as int,
                    s0.counts,
                    self.nudged@,
                    threshold,
                ).1 == before + all.1,
            decreases self.calls.len() - i,
        {
            let ghost sofar = orders(out@);
            let ghost rest = repeat_nudges(s0.calls, i as int, s0.counts, self.nudged@, threshold);
            assert(s0.calls[i as int] == self.calls@[i as int]@);
            let sig = sign(&self.calls[i]);
            let n = self.counts.get(sig.as_str());
            if n >= self.settings.stuck_threshold && !self.nudged.contains(sig.as_str()) {
                self.nudged.insert(sig.as_str());
                let mut text = "You've made the same `".to_owned();
                text.append(self.calls[i].name.as_str());
                text.append(
                    "` call repeatedly without new information. Step back and try a different approach.",
                );
                push_nudge(out, text.as_str());
                assert(orders(out@) + repeat_nudges(
                    s0.calls,
                    i + 1,
                    s0.counts,
                    self.nudged@,
                    threshold,
                ).1 =~= sofar + rest.1);
            }
            i = i + 1;
        }
        assert(orders(out@) =~= before + all.1);
        self.step = self.step + 1;
        self.next_step(out);
        assert(orders(out@) =~= before + calls_done(s0).1);
    }

    /// Take in how the check went; `check` names it.
    pub fn validated(&mut self, check: &str, failure: Option<String>) -> (r: Vec<Command>)
        requires
            old(self).wf(),
            old(self)@.phase == Phase::Validating,
        ensures
            final(self).wf(),
            (final(self)@, orders(r@)) == validated(old(self)@, check@, opt_view(failure)),
    {
        let ghost s0 = self@;
        let ghost e = opt_view(failure);
        let mut out: Vec<Command> = Vec::new();
        match failure {
            None => {
                out.push(Command::Emit(Event::Validation { ok: true, detail: check.to_owned() }));
                self.finish(TurnOutcome::Done, &mut out);
            },
            Some(why) => {
                out.push(Command::Emit(Event::Validation { ok: false, detail: why.clone() }));
                if self.retries_left == 0 {
                    self.finish(TurnOutcome::ValidationFailed(why), &mut out);
                } else {
                    self.retries_left = self.retries_left - 1;
                    let mut reason = "validation failed; re-planning (".to_owned();
                    let n = decimal(self.retries_left as u128);
                    reason.append(n.as_str());
                    reason.append(" retries left)");
                    out.push(Command::Emit(Event::Nudge { reason }));
                    let mut text = "The validation check ".to_owned();
                    text.append(check);
                    text.append(" did not pass:\n\n");
                    text.append(why.as_str());
                    text.append(
                        "\n\nRevise your approach and fix the underlying problem, then finish.",
                    );
                    out.push(Command::Append(Message::user(text.as_str())));
                    self.attempt(&mut out);
                }
            },
        }
        assert(orders(out@) =~= validated(s0, check@, e).1);
        out
    }
}

/// What a turn keeps to.
pub open spec fn wf_state(s: State) -> bool {
    &&& s.calls.len() == s.parsed.len()
    &&& s.empty <= MAX_EMPTY_COMPLETIONS
    &&& s.retries_left <= s.settings.max_retries
    &&& s.phase != Phase::Over ==> s.step < s.settings.max_steps
    &&& s.phase matches Phase::Running(i) ==> i < s.calls.len()
}

// ---- laws -------------------------------------------------------------------

/// Do the orders end the turn as done?
pub open spec fn ends_done(o: Seq<Order>) -> bool {
    exists|i: int| 0 <= i < o.len() && (#[trigger] o[i] matches Order::Finish(Ending::Done, _))
}

proof fn lemma_no_done(a: Seq<Order>, b: Seq<Order>)
    requires
        !ends_done(a),
        !ends_done(b),
    ensures
        !ends_done(a + b),
{
    if ends_done(a + b) {
        let i = choose|i: int|
            0 <= i < (a + b).len() && (#[trigger] (a + b)[i] matches Order::Finish(Ending::Done, _));
        if i < a.len() {
            assert(a[i] == (a + b)[i]);
        } else {
            assert(b[i - a.len()] == (a + b)[i]);
        }
    }
}

proof fn lemma_steered_not_done(ms: Seq<Seq<char>>)
    ensures
        !ends_done(steered(ms)),
    decreases ms.len(),
{
    if ms.len() > 0 {
        lemma_steered_not_done(ms.drop_last());
        lemma_no_done(steered(ms.drop_last()), nudge(ms.last()));
    }
}

proof fn lemma_next_step_not_done(s: State)
    ensures
        !ends_done(next_step(s).1),
{
}

proof fn lemma_nudges_not_done(
    calls: Seq<Call>,
    i: int,
    counts: Map<Seq<char>, u32>,
    nudged: Set<Seq<char>>,
    threshold: u32,
)
    ensures
        !ends_done(repeat_nudges(calls, i, counts, nudged, threshold).1),
    decreases calls.len() - i,
{
    if i < 0 || i >= calls.len() {
    } else {
        let sig = signature(calls[i]);
        if seen(counts, sig) >= threshold && !nudged.contains(sig) {
            lemma_nudges_not_done(calls, i + 1, counts, nudged.insert(sig), threshold);
            lemma_no_done(
                nudge(repeat_nudge(calls[i].name)),
                repeat_nudges(calls, i + 1, counts, nudged.insert(sig), threshold).1,
            );
        } else {
            lemma_nudges_not_done(calls, i + 1, counts, nudged, threshold);
        }
    }
}

proof fn lemma_issued_not_done(s: State, i: int)
    ensures
        !ends_done(issued(s, i).1),
    decreases s.calls.len() - i,
{
    if i < 0 || i >= s.calls.len() {
        let t = s.settings.stuck_threshold;
        let n = repeat_nudges(s.calls, 0, s.counts, s.nudged, t);
        lemma_nudges_not_done(s.calls, 0, s.counts, s.nudged, t);
        lemma_next_step_not_done(State { nudged: n.0, step: s.step + 1, ..s });
        lemma_no_done(n.1, next_step(State { nudged: n.0, step: s.step + 1, ..s }).1);
    } else if s.parsed[i] is Err {
        let c = s.calls[i];
        let call = Order::Emit(
            Emitted::ToolCall { id: c.id, name: c.name, arguments: c.arguments },
        );
        let content = capped(invalid_arguments(c.name, s.parsed[i]->Err_0, s.truncated));
        lemma_issued_not_done(s, i + 1);
        assert(!ends_done(seq![call] + reported(c, false, content)));
        lemma_no_done(seq![call] + reported(c, false, content), issued(s, i + 1).1);
    }
}

/// Where there is a check, only a passing one ends a turn as done: no poll, no
/// answer and no tool result does, and neither does a failing check.
pub proof fn done_means_the_check_passed(
    s: State,
    cancelled: bool,
    messages: Seq<Seq<char>>,
    estimate: nat,
    failure: Option<Seq<char>>,
    c: Completed,
    parsed: Seq<Result<Tree, Seq<char>>>,
    i: int,
    ok: bool,
    fatal: bool,
    text: Seq<char>,
)
    requires
        s.settings.validated,
    ensures
        !ends_done(begun(s.settings, text).1),
        !ends_done(polled(s, cancelled, messages).1),
        !ends_done(measured(s, estimate).1),
        !ends_done(compacted(s, failure).1),
        !ends_done(failed(s, text).1),
        !ends_done(answered(s, c, parsed).1),
        !ends_done(tool_done(s, i, ok, fatal, text).1),
        ends_done(validated(s, text, failure).1) <==> failure is None,
{
    lemma_steered_not_done(messages);
    lemma_no_done(steered(messages), seq![Order::Measure]);
    assert(steered(messages).push(Order::Measure) =~= steered(messages) + seq![Order::Measure]);
    let t = State {
        prompt_tokens: c.usage.prompt_tokens,
        final_text: text_after(s.final_text, c.content),
        truncated: cut_off(c),
        ..s
    };
    let head = recorded(c, parsed, s.settings.model@);
    assert(!ends_done(head));
    if c.tool_calls.len() == 0 {
        if !silent(c) {
            lemma_no_done(head, model_done(t).1);
        } else if s.empty + 1 > MAX_EMPTY_COMPLETIONS {
            lemma_no_done(head, finished(t, Ending::Stuck(empty_stuck(cut_off(c)))).1);
        } else {
            let u = State { empty: s.empty + 1, step: s.step + 1, ..t };
            lemma_no_done(head, nudge(empty_nudge(cut_off(c))));
            lemma_no_done(head + nudge(empty_nudge(cut_off(c))), next_step(u).1);
        }
    } else {
        let (counts, stuck) = counted(c.tool_calls, 0, s.counts, s.settings.stuck_threshold);
        let u = State { counts, ..t };
        match stuck {
            Some(why) => {
                lemma_no_done(head, finished(u, Ending::Stuck(why)).1);
            },
            None => {
                let w = State { calls: c.tool_calls, parsed, ..u };
                lemma_issued_not_done(w, 0);
                lemma_no_done(head, issued(w, 0).1);
            },
        }
    }
    let content = capped(text);
    let report = reported(s.calls[i], ok, content);
    if fatal {
        let all = report.push(Order::Emit(Emitted::Error(content)));
        lemma_no_done(all, finished(s, Ending::Blocked(content)).1);
    } else {
        lemma_issued_not_done(s, i + 1);
        lemma_no_done(report, issued(s, i + 1).1);
    }
    let check = validated(s, text, failure).1;
    match failure {
        None => {
            assert(check[2] matches Order::Finish(Ending::Done, _));
        },
        Some(why) => {
            if s.retries_left > 0 {
                let left = (s.retries_left - 1) as nat;
                let again = seq![
                    Order::Emit(Emitted::Validation(false, why)),
                    Order::Emit(
                        Emitted::Nudge(
                            "validation failed; re-planning ("@ + dec(left) + " retries left)"@,
                        ),
                    ),
                    Order::Append(plain(Role::User, replan(text, why))),
                ];
                lemma_no_done(again, attempt(State { retries_left: left, ..s }).1);
            }
        },
    }
}

/// How many model calls a turn may still make: the steps left in this attempt,
/// and a full attempt for each retry left.
pub open spec fn calls_left(s: State) -> int {
    s.retries_left * s.settings.max_steps + (s.settings.max_steps - s.step)
}

/// A turn is bounded. Every way back to polling spends a model call, and nothing
/// gives one back, so no turn makes more than `max_steps` calls for each attempt.
pub proof fn a_turn_is_bounded(
    s: State,
    cancelled: bool,
    messages: Seq<Seq<char>>,
    estimate: nat,
    failure: Option<Seq<char>>,
    c: Completed,
    parsed: Seq<Result<Tree, Seq<char>>>,
    i: int,
    ok: bool,
    fatal: bool,
    text: Seq<char>,
)
    requires
        s.step < s.settings.max_steps,
    ensures
        calls_left(begun(s.settings, text).0) == (s.settings.max_retries + 1)
            * s.settings.max_steps,
        calls_left(polled(s, cancelled, messages).0) == calls_left(s),
        calls_left(measured(s, estimate).0) == calls_left(s),
        calls_left(compacted(s, failure).0) == calls_left(s),
        calls_left(failed(s, text).0) == calls_left(s),
        calls_left(answered(s, c, parsed).0) <= calls_left(s),
        calls_left(tool_done(s, i, ok, fatal, text).0) <= calls_left(s),
        calls_left(validated(s, text, failure).0) <= calls_left(s),
        answered(s, c, parsed).0.phase == Phase::Polling ==> calls_left(
            answered(s, c, parsed).0,
        ) < calls_left(s),
        tool_done(s, i, ok, fatal, text).0.phase == Phase::Polling ==> calls_left(
            tool_done(s, i, ok, fatal, text).0,
        ) < calls_left(s),
        validated(s, text, failure).0.phase == Phase::Polling ==> calls_left(
            validated(s, text, failure).0,
        ) < calls_left(s),
{
    let m = s.settings.max_steps as int;
    let r = s.settings.max_retries as int;
    assert(r * m + m == (r + 1) * m) by (nonlinear_arith);
    if c.tool_calls.len() > 0 {
        let (counts, stuck) = counted(c.tool_calls, 0, s.counts, s.settings.stuck_threshold);
        if stuck is None {
            lemma_issued_calls_left(
                State {
                    prompt_tokens: c.usage.prompt_tokens,
                    final_text: text_after(s.final_text, c.content),
                    truncated: cut_off(c),
                    counts,
                    calls: c.tool_calls,
                    parsed,
                    ..s
                },
                0,
            );
        }
    }
    lemma_issued_calls_left(s, i + 1);
    if failure is Some && s.retries_left > 0 {
        let left = s.retries_left - 1;
        assert(left * m + m == s.retries_left * m) by (nonlinear_arith)
            requires
                left == s.retries_left - 1,
        ;
    }
}

proof fn lemma_issued_calls_left(s: State, i: int)
    ensures
        calls_left(issued(s, i).0) <= calls_left(s),
        issued(s, i).0.phase == Phase::Polling ==> calls_left(issued(s, i).0) < calls_left(s),
    decreases s.calls.len() - i,
{
    if i < 0 || i >= s.calls.len() {
    } else if s.parsed[i] is Err {
        lemma_issued_calls_left(s, i + 1);
    }
}

/// What is stored of a completion's calls can always be sent back: each call's
/// arguments read as JSON, or are the empty object; name and id stay.
pub proof fn stored_calls_can_be_sent_back(calls: Seq<Call>, i: int)
    requires
        0 <= i < calls.len(),
    ensures
        ({
            let c = stored(calls, all_read(calls))[i];
            &&& c.name == calls[i].name
            &&& c.id == calls[i].id
            &&& c.arguments == "{}"@ || json_read(c.arguments) is Ok
            &&& json_read(calls[i].arguments) is Ok ==> c == calls[i]
        }),
{
}

} // verus!
