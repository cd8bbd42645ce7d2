//! The supervisor: it watches the events a worker emits and decides whether to
//! nudge the worker back on track or pull it off the floor.
//!
//! [`Supervisor`] is a state machine: events and idle ticks go in, [`Action`]s
//! come out. Durations are whole seconds.
use vstd::prelude::*;
use vstd::string::*;

use crate::event::Event;
use crate::tally::{one_more, seen, Tally, TextSet};
use crate::text::{ascii_lowered, contains, dec, decimal, has_text, lower_ascii, same, trim, trimmed};

verus! {

/// What the supervisor decided to do about a worker.
#[derive(Debug, PartialEq, Eq, Clone)]
pub enum Action {
    /// Inject this directive into the worker's input.
    Nudge(String),
    /// Stop the worker; the string is the reason reported to the parent.
    Escalate(String),
}

/// What an `Action` says.
pub enum ActionView {
    Nudge(Seq<char>),
    Escalate(Seq<char>),
}

impl View for Action {
    type V = ActionView;

    open spec fn view(&self) -> ActionView {
        match self {
            Action::Nudge(s) => ActionView::Nudge(s@),
            Action::Escalate(s) => ActionView::Escalate(s@),
        }
    }
}

/// What an optional `Action` says.
pub open spec fn action_view(a: Option<Action>) -> Option<ActionView> {
    match a {
        Some(a) => Some(a@),
        None => None,
    }
}

/// How closely workers are watched.
#[derive(Debug, Clone, Copy, PartialEq, Eq, Structural)]
pub enum Mode {
    /// No watching at all.
    Off,
    /// Deterministic rules: idle, repeated calls, runaway spend, "I'm blocked".
    Rules,
}

impl Default for Mode {
    fn default() -> (r: Mode)
        ensures
            r == Mode::Rules,
    {
        Mode::Rules
    }
}

/// The mode that a setting names: `off`, `none` and `false` switch watching off,
/// anything else means the rules.
pub open spec fn mode_named(s: Seq<char>) -> Mode {
    let t = ascii_lowered(trim(s));
    if t == "off"@ || t == "none"@ || t == "false"@ {
        Mode::Off
    } else {
        Mode::Rules
    }
}

impl Mode {
    /// Parse `off` / `rules` / `model`. Unknown values fall back to rules.
    pub fn parse(s: &str) -> (r: Mode)
        ensures
            r == mode_named(s@),
    {
        let t = trimmed(s);
        let t = lower_ascii(t.as_str());
        let t = t.as_str();
        if same(t, "off") || same(t, "none") || same(t, "false") {
            Mode::Off
        } else {
            Mode::Rules
        }
    }
}

/// How a worker is watched.
#[derive(Debug, Clone, Copy)]
pub struct SupervisorConfig {
    pub mode: Mode,
    /// No event from the worker for this long: nudge.
    pub idle_timeout: u64,
    /// Nudges allowed before escalating instead.
    pub max_nudges: usize,
    /// Identical tool calls, over the whole run, that trigger a nudge.
    pub repeat_threshold: u32,
    /// Failures of the check in a row before the supervisor steps in. `None` = never.
    pub stuck_check_threshold: Option<u32>,
    /// Cumulative completion tokens before escalating. `None` = unlimited.
    pub token_budget: Option<u32>,
    /// How long a single model call may take before it is treated as hung.
    pub request_timeout: u64,
}

impl Default for SupervisorConfig {
    fn default() -> (r: SupervisorConfig)
        ensures
            r.mode == Mode::Rules,
            r.idle_timeout == 120,
            r.max_nudges == 3,
            r.repeat_threshold == 4,
            r.stuck_check_threshold is None,
            r.token_budget is None,
            r.request_timeout == 600,
    {
        SupervisorConfig {
            mode: Mode::Rules,
            idle_timeout: 120,
            max_nudges: 3,
            repeat_threshold: 4,
            stuck_check_threshold: None,
            token_budget: None,
            request_timeout: 600,
        }
    }
}

impl SupervisorConfig {
    /// Is the worker watched at all?
    pub open spec fn on(self) -> bool {
        self.mode != Mode::Off
    }

    /// Is the worker watched at all?
    pub fn is_on(&self) -> (r: bool)
        ensures
            r == self.on(),
    {
        self.mode != Mode::Off
    }
}

/// Per-worker watcher state.
pub struct Supervisor {
    cfg: SupervisorConfig,
    /// Identical `name::arguments` call counts.
    calls: Tally,
    /// Call signatures already flagged: each is nudged about only once.
    flagged: TextSet,
    nudges: usize,
    completion_tokens: u32,
    blocked_flagged: bool,
    /// Failures of the check in a row, since the last intervention about it.
    check_failures: u32,
    /// Is a model call in flight? While one is, silence means waiting.
    in_flight: bool,
    /// The tool call currently running, if any.
    tool_in_flight: Option<String>,
    tool_idles: usize,
    /// Consecutive idle deadlines that passed while a call was in flight.
    in_flight_idles: usize,
}

/// What a watcher knows.
pub ghost struct Watch {
    pub cfg: SupervisorConfig,
    pub calls: Map<Seq<char>, u32>,
    pub flagged: Set<Seq<char>>,
    pub nudges: nat,
    pub completion_tokens: u32,
    pub blocked_flagged: bool,
    pub check_failures: u32,
    pub in_flight: bool,
    pub tool_in_flight: Option<Seq<char>>,
    pub tool_idles: nat,
    pub in_flight_idles: nat,
}

impl View for Supervisor {
    type V = Watch;

    closed spec fn view(&self) -> Watch {
        Watch {
            cfg: self.cfg,
            calls: self.calls@,
            flagged: self.flagged@,
            nudges: self.nudges as nat,
            completion_tokens: self.completion_tokens,
            blocked_flagged: self.blocked_flagged,
            check_failures: self.check_failures,
            in_flight: self.in_flight,
            tool_in_flight: match self.tool_in_flight {
                Some(name) => Some(name@),
                None => None,
            },
            tool_idles: self.tool_idles as nat,
            in_flight_idles: self.in_flight_idles as nat,
        }
    }
}

/// A watcher that has seen nothing yet.
pub open spec fn fresh(cfg: SupervisorConfig) -> Watch {
    Watch {
        cfg,
        calls: Map::empty(),
        flagged: Set::empty(),
        nudges: 0,
        completion_tokens: 0,
        blocked_flagged: false,
        check_failures: 0,
        in_flight: false,
        tool_in_flight: None,
        tool_idles: 0,
        in_flight_idles: 0,
    }
}

/// `n` and one more, or the largest machine number.
pub open spec fn next_tick(n: nat) -> nat {
    if n < usize::MAX {
        n + 1
    } else {
        n
    }
}

/// `a + b`, or the largest `u32`.
pub open spec fn spent(a: u32, b: u32) -> u32 {
    if a + b <= u32::MAX {
        (a + b) as u32
    } else {
        u32::MAX
    }
}

/// An intervention is a nudge, or an escalation once the nudges run out.
pub open spec fn acted(w: Watch, directive: Seq<char>) -> (Watch, Option<ActionView>) {
    if w.nudges >= w.cfg.max_nudges {
        (
            w,
            Some(
                ActionView::Escalate("still off track after "@ + dec(w.nudges) + " nudges"@),
            ),
        )
    } else {
        (Watch { nudges: w.nudges + 1, ..w }, Some(ActionView::Nudge(directive)))
    }
}

/// The phrases by which a message says that it cannot go on alone.
pub open spec fn blocked_phrases() -> Seq<Seq<char>> {
    seq![
        "i'm blocked"@,
        "i am blocked"@,
        "i am stuck"@,
        "i'm stuck"@,
        "cannot proceed"@,
        "can't proceed"@,
        "unable to proceed"@,
        "need more information"@,
        "need clarification"@,
        "please clarify"@,
    ]
}

/// Does this message read as "I can't continue without you"?
pub open spec fn reads_blocked(text: Seq<char>) -> bool {
    exists|i: int|
        0 <= i < blocked_phrases().len() && contains(
            ascii_lowered(text),
            #[trigger] blocked_phrases()[i],
        )
}

/// The directive for a call that was made once too often.
pub open spec fn repeat_directive(name: Seq<char>, count: u32) -> Seq<char> {
    "You have called `"@ + name + "` "@ + dec(count as nat)
        + " times with identical arguments and learned nothing new. Stop repeating it: state what you actually know, then take a different approach to finish the task."@
}

/// The directive for a worker that waits for an answer.
pub open spec fn blocked_directive() -> Seq<char> {
    "You said you are blocked. You are a background worker — nobody will answer you. Make the most reasonable assumption, say what you assumed, and finish the task."@
}

/// The directive for a worker whose check keeps failing.
pub open spec fn check_directive(count: u32) -> Seq<char> {
    "Your check has failed "@ + dec(count as nat)
        + " times in a row. Stop patching: read what it says, find the cause, and change your approach."@
}

/// The watcher after one event, and what it does about it.
pub open spec fn observed(w: Watch, event: Event) -> (Watch, Option<ActionView>) {
    if !w.cfg.on() {
        (w, None)
    } else {
        match event {
            Event::ModelCallStarted => (Watch { in_flight: true, in_flight_idles: 0, ..w }, None),
            Event::ModelCallFinished => (Watch { in_flight: false, in_flight_idles: 0, ..w }, None),
            Event::Usage { completion_tokens, .. } => {
                let total = spent(w.completion_tokens, completion_tokens);
                let next = Watch { completion_tokens: total, ..w };
                match w.cfg.token_budget {
                    Some(budget) if total > budget => (
                        next,
                        Some(
                            ActionView::Escalate(
                                "token budget exceeded ("@ + dec(total as nat) + " > "@ + dec(
                                    budget as nat,
                                ) + " completion tokens)"@,
                            ),
                        ),
                    ),
                    _ => (next, None),
                }
            },
            Event::ToolResult { .. } => (Watch { tool_in_flight: None, tool_idles: 0, ..w }, None),
            Event::ToolCall { name, arguments, .. } => {
                let sig = name@ + "::"@ + arguments@;
                let count = one_more(seen(w.calls, sig));
                let next = Watch {
                    tool_in_flight: Some(name@),
                    tool_idles: 0,
                    calls: w.calls.insert(sig, count),
                    ..w
                };
                if count < w.cfg.repeat_threshold || w.flagged.contains(sig) {
                    (next, None)
                } else {
                    acted(
                        Watch { flagged: w.flagged.insert(sig), ..next },
                        repeat_directive(name@, count),
                    )
                }
            },
            Event::AssistantMessage { text } => if w.blocked_flagged || !reads_blocked(text@) {
                (w, None)
            } else {
                acted(Watch { blocked_flagged: true, ..w }, blocked_directive())
            },
            Event::Validation { ok, .. } => if ok {
                (Watch { check_failures: 0, ..w }, None)
            } else {
                let count = one_more(w.check_failures);
                match w.cfg.stuck_check_threshold {
                    Some(t) if count >= t => acted(
                        Watch { check_failures: 0, ..w },
                        check_directive(count),
                    ),
                    _ => (Watch { check_failures: count, ..w }, None),
                }
            },
            _ => (w, None),
        }
    }
}

/// The watcher after the worker has been silent for the idle timeout, and what
/// it does about it. While a model call or a tool call runs, silence is waiting:
/// nothing happens until the request timeout, and then the worker is stopped.
pub open spec fn idled(w: Watch) -> (Watch, Option<ActionView>) {
    if !w.cfg.on() {
        (w, None)
    } else if w.in_flight {
        let n = next_tick(w.in_flight_idles);
        let waited = (w.cfg.idle_timeout * n) as nat;
        let next = Watch { in_flight_idles: n, ..w };
        if waited < w.cfg.request_timeout {
            (next, None)
        } else {
            (
                next,
                Some(
                    ActionView::Escalate(
                        "no response from the model for "@ + dec(waited) + "s"@,
                    ),
                ),
            )
        }
    } else {
        match w.tool_in_flight {
            Some(name) => {
                let n = next_tick(w.tool_idles);
                let waited = (w.cfg.idle_timeout * n) as nat;
                let next = Watch { tool_idles: n, ..w };
                if waited < w.cfg.request_timeout {
                    (next, None)
                } else {
                    (
                        next,
                        Some(
                            ActionView::Escalate(
                                "`"@ + name + "` has been running for "@ + dec(waited)
                                    + "s with no result"@,
                            ),
                        ),
                    )
                }
            },
            None => acted(
                w,
                "No progress for "@ + dec(w.cfg.idle_timeout as nat)
                    + "s. Briefly state where you are, then take a concrete next step — or finish with what you have."@,
            ),
        }
    }
}

fn looks_blocked(text: &str) -> (r: bool)
    ensures
        r == reads_blocked(text@),
{
    let t = lower_ascii(text);
    let t = t.as_str();
    let ghost p = blocked_phrases();
    let a = has_text(t, "i'm blocked") || has_text(t, "i am blocked") || has_text(t, "i am stuck") || has_text(
        t,
        "i'm stuck",
    ) || has_text(t, "cannot proceed");
    let b = has_text(t, "can't proceed") || has_text(t, "unable to proceed") || has_text(
        t,
        "need more information",
    ) || has_text(t, "need clarification") || has_text(t, "please clarify");
    proof {
        if a || b {
            assert(contains(t@, p[0]) || contains(t@, p[1]) || contains(t@, p[2]) || contains(
                t@,
                p[3],
            ) || contains(t@, p[4]) || contains(t@, p[5]) || contains(t@, p[6]) || contains(
                t@,
                p[7],
            ) || contains(t@, p[8]) || contains(t@, p[9]));
        }
    }
    a || b
}

impl Supervisor {
    /// A watcher that has seen nothing yet.
    pub fn new(cfg: SupervisorConfig) -> (r: Supervisor)
        ensures
            r@ == fresh(cfg),
    {
        Supervisor {
            cfg,
            calls: Tally::new(),
            flagged: TextSet::new(),
            nudges: 0,
            completion_tokens: 0,
            blocked_flagged: false,
            check_failures: 0,
            in_flight: false,
            tool_in_flight: None,
            tool_idles: 0,
            in_flight_idles: 0,
        }
    }

    /// How long a worker may be silent.
    pub fn idle_timeout(&self) -> (r: u64)
        ensures
            r == self@.cfg.idle_timeout,
    {
        self.cfg.idle_timeout
    }

    /// Is the worker watched at all?
    pub fn is_on(&self) -> (r: bool)
        ensures
            r == self@.cfg.on(),
    {
        self.cfg.is_on()
    }

    /// How many nudges were spent.
    pub fn nudges(&self) -> (r: usize)
        ensures
            r == self@.nudges,
    {
        self.nudges
    }

    /// Observe one worker event.
    pub fn observe(&mut self, event: &Event) -> (r: Option<Action>)
        ensures
            (final(self)@, action_view(r)) == observed(old(self)@, *event),
    {
        if !self.cfg.is_on() {
            return None;
        }
        match event {
            Event::ModelCallStarted => {
                self.in_flight = true;
                self.in_flight_idles = 0;
                None
            },
            Event::ModelCallFinished => {
                self.in_flight = false;
                self.in_flight_idles = 0;
                None
            },
            Event::Usage { completion_tokens, .. } => {
                self.completion_tokens = self.completion_tokens.saturating_add(*completion_tokens);
                match self.cfg.token_budget {
                    Some(budget) if self.completion_tokens > budget => {
                        let mut why = "token budget exceeded (".to_owned();
                        let n = decimal(self.completion_tokens as u128);
                        why.append(n.as_str());
                        why.append(" > ");
                        let n = decimal(budget as u128);
                        why.append(n.as_str());
                        why.append(" completion tokens)");
                        Some(Action::Escalate(why))
                    },
                    _ => None,
                }
            },
            Event::ToolResult { .. } => {
                self.tool_in_flight = None;
                self.tool_idles = 0;
                None
            },
            Event::ToolCall { name, arguments, .. } => {
                self.tool_in_flight = Some(name.clone());
                self.tool_idles = 0;
                let mut sig = name.clone();
                sig.append("::");
                sig.append(arguments.as_str());
                let count = self.calls.bump(sig.as_str());
                if count < self.cfg.repeat_threshold || self.flagged.contains(sig.as_str()) {
                    return None;
                }
                self.flagged.insert(sig.as_str());
                let mut directive = "You have called `".to_owned();
                directive.append(name.as_str());
                directive.append("` ");
                let n = decimal(count as u128);
                directive.append(n.as_str());
                directive.append(
                    " times with identical arguments and learned nothing new. Stop repeating it: state what you actually know, then take a different approach to finish the task.",
                );
                self.act(directive)
            },
            Event::AssistantMessage { text } => {
                if self.blocked_flagged || !looks_blocked(text.as_str()) {
                    return None;
                }
                self.blocked_flagged = true;
                self.act(
                    "You said you are blocked. You are a background worker — nobody will answer you. Make the most reasonable assumption, say what you assumed, and finish the task.".to_owned(),
                )
            },
            Event::Validation { ok, .. } => {
                if *ok {
                    self.check_failures = 0;
                    return None;
                }
                let count: u32 = self.check_failures.saturating_add(1);
                match self.cfg.stuck_check_threshold {
                    Some(t) if count >= t => {
                        self.check_failures = 0;
                        let mut directive = "Your check has failed ".to_owned();
                        let n = decimal(count as u128);
                        directive.append(n.as_str());
                        directive.append(
                            " times in a row. Stop patching: read what it says, find the cause, and change your approach.",
                        );
                        self.act(directive)
                    },
                    _ => {
                        self.check_failures = count;
                        None
                    },
                }
            },
            _ => None,
        }
    }

    /// Called when the worker has emitted nothing for `idle_timeout`.
    pub fn on_idle(&mut self) -> (r: Option<Action>)
        ensures
            (final(self)@, action_view(r)) == idled(old(self)@),
    {
        if !self.cfg.is_on() {
            return None;
        }
        if self.in_flight {
            self.in_flight_idles = self.in_flight_idles.saturating_add(1);
            let waited = wait_time(self.cfg.idle_timeout, self.in_flight_idles);
            if waited < self.cfg.request_timeout as u128 {
                return None;
            }
            let mut why = "no response from the model for ".to_owned();
            let n = decimal(waited);
            why.append(n.as_str());
            why.append("s");
            return Some(Action::Escalate(why));
        }
        if let Some(name) = &self.tool_in_flight {
            self.tool_idles = self.tool_idles.saturating_add(1);
            let waited = wait_time(self.cfg.idle_timeout, self.tool_idles);
            if waited < self.cfg.request_timeout as u128 {
                return None;
            }
            let mut why = "`".to_owned();
            why.append(name.as_str());
            why.append("` has been running for ");
            let n = decimal(waited);
            why.append(n.as_str());
            why.append("s with no result");
            return Some(Action::Escalate(why));
        }
        let mut directive = "No progress for ".to_owned();
        let n = decimal(self.cfg.idle_timeout as u128);
        directive.append(n.as_str());
        directive.append(
            "s. Briefly state where you are, then take a concrete next step — or finish with what you have.",
        );
        self.act(directive)
    }

    /// Turn an intervention into a nudge, or escalate once nudges run out.
    fn act(&mut self, directive: String) -> (r: Option<Action>)
        ensures
            (final(self)@, action_view(r)) == acted(old(self)@, directive@),
    {
        if self.nudges >= self.cfg.max_nudges {
            let mut why = "still off track after ".to_owned();
            let n = decimal(self.nudges as u128);
            why.append(n.as_str());
            why.append(" nudges");
            return Some(Action::Escalate(why));
        }
        self.nudges = self.nudges + 1;
        Some(Action::Nudge(directive))
    }
}

fn wait_time(secs: u64, ticks: usize) -> (r: u128)
    ensures
        r == secs * ticks,
{
    assert(secs * ticks <= u64::MAX * u64::MAX) by (nonlinear_arith)
        requires
            0 <= secs <= u64::MAX,
            0 <= ticks <= u64::MAX,
    ;
    assert(u64::MAX * u64::MAX <= u128::MAX);
    secs as u128 * ticks as u128
}

// ---- laws -------------------------------------------------------------------

/// A watcher that is off never acts and never changes.
pub proof fn off_never_acts(w: Watch, event: Event)
    requires
        w.cfg.mode == Mode::Off,
    ensures
        observed(w, event) == (w, None::<ActionView>),
        idled(w) == (w, None::<ActionView>),
{
}

/// The nudges spent never exceed the allowance, whatever is observed and however
/// often the worker is idle.
pub proof fn nudges_stay_bounded(w: Watch, event: Event)
    requires
        w.nudges <= w.cfg.max_nudges,
    ensures
        observed(w, event).0.nudges <= observed(w, event).0.cfg.max_nudges,
        idled(w).0.nudges <= idled(w).0.cfg.max_nudges,
        fresh(w.cfg).nudges <= w.cfg.max_nudges,
{
}

/// A nudge costs exactly one of the allowance; an escalation and silence cost
/// none.
pub proof fn only_a_nudge_spends(w: Watch, event: Event)
    ensures
        observed(w, event).0.nudges == w.nudges + if observed(w, event).1 matches Some(
            ActionView::Nudge(_),
        ) {
            1nat
        } else {
            0nat
        },
        idled(w).0.nudges == w.nudges + if idled(w).1 matches Some(ActionView::Nudge(_)) {
            1nat
        } else {
            0nat
        },
{
}

/// Once the allowance is spent no nudge follows: an intervention stops the worker.
pub proof fn spent_nudges_escalate(w: Watch, event: Event)
    requires
        w.nudges >= w.cfg.max_nudges,
    ensures
        !(observed(w, event).1 matches Some(ActionView::Nudge(_))),
        !(idled(w).1 matches Some(ActionView::Nudge(_))),
{
}

/// Waiting on a model call or on a running tool is not being stuck: an idle tick
/// in that time is never a nudge, and does nothing before the request timeout.
pub proof fn waiting_is_not_stuck(w: Watch)
    requires
        w.in_flight || w.tool_in_flight is Some,
    ensures
        idled(w).0.nudges == w.nudges,
        !(idled(w).1 matches Some(ActionView::Nudge(_))),
        w.in_flight && w.cfg.idle_timeout * next_tick(w.in_flight_idles) < w.cfg.request_timeout
            ==> idled(w).1 is None,
        !w.in_flight && w.cfg.idle_timeout * next_tick(w.tool_idles) < w.cfg.request_timeout
            ==> idled(w).1 is None,
{
}

/// The same call is nudged about once: after the intervention, making it again
/// does nothing, whatever the arguments' count.
pub proof fn a_repeated_call_is_flagged_once(w: Watch, call: Event, again: Event)
    requires
        w.cfg.on(),
        call is ToolCall,
        again is ToolCall,
        call->ToolCall_name@ == again->ToolCall_name@,
        call->ToolCall_arguments@ == again->ToolCall_arguments@,
        observed(w, call).1 is Some,
    ensures
        observed(observed(w, call).0, again).1 is None,
{
}

/// A blocked message is nudged about once.
pub proof fn a_block_is_flagged_once(w: Watch, said: Event, again: Event)
    requires
        w.cfg.on(),
        said is AssistantMessage,
        again is AssistantMessage,
        observed(w, said).1 is Some,
    ensures
        observed(observed(w, said).0, again).1 is None,
{
}

/// A check that passes ends the run of failures: nothing is done about those before it.
pub proof fn a_passing_check_starts_over(w: Watch, passed: Event, failed: Event)
    requires
        w.cfg.on(),
        w.cfg.stuck_check_threshold matches Some(t) && t > 1,
        passed is Validation && passed->Validation_ok,
        failed is Validation && !failed->Validation_ok,
    ensures
        observed(w, passed).1 is None,
        observed(observed(w, passed).0, failed).1 is None,
{
}

// ---- what a whole run comes to ----------------------------------------------

/// The watcher once the first `n` events of a run are observed.
pub open spec fn watched(cfg: SupervisorConfig, evs: Seq<Event>, n: nat) -> Watch
    decreases n,
{
    if n == 0 {
        fresh(cfg)
    } else {
        observed(watched(cfg, evs, (n - 1) as nat), evs[n - 1]).0
    }
}

/// The completion tokens that the first `n` events report.
pub open spec fn tokens_used(evs: Seq<Event>, n: nat) -> nat
    decreases n,
{
    if n == 0 {
        0
    } else {
        tokens_used(evs, (n - 1) as nat) + match evs[n - 1] {
            Event::Usage { completion_tokens, .. } => completion_tokens as nat,
            _ => 0,
        }
    }
}

/// How often the first `n` events make this call with these arguments.
pub open spec fn calls_made(evs: Seq<Event>, call: Seq<char>, n: nat) -> nat
    decreases n,
{
    if n == 0 {
        0
    } else {
        calls_made(evs, call, (n - 1) as nat) + match evs[n - 1] {
            Event::ToolCall { name, arguments, .. } => if name@ + "::"@ + arguments@ == call {
                1nat
            } else {
                0nat
            },
            _ => 0nat,
        }
    }
}

/// Is the last model call of the first `n` events still out?
pub open spec fn call_is_out(evs: Seq<Event>, n: nat) -> bool
    decreases n,
{
    if n == 0 {
        false
    } else {
        match evs[n - 1] {
            Event::ModelCallStarted => true,
            Event::ModelCallFinished => false,
            _ => call_is_out(evs, (n - 1) as nat),
        }
    }
}

/// The tool that the last call of the first `n` events left running.
pub open spec fn tool_that_runs(evs: Seq<Event>, n: nat) -> Option<Seq<char>>
    decreases n,
{
    if n == 0 {
        None
    } else {
        match evs[n - 1] {
            Event::ToolCall { name, .. } => Some(name@),
            Event::ToolResult { .. } => None,
            _ => tool_that_runs(evs, (n - 1) as nat),
        }
    }
}

/// The failures of the check at the end of the first `n` events, since it last passed.
pub open spec fn failures_in_a_row(evs: Seq<Event>, n: nat) -> nat
    decreases n,
{
    if n == 0 {
        0
    } else {
        match evs[n - 1] {
            Event::Validation { ok, .. } => if ok {
                0
            } else {
                failures_in_a_row(evs, (n - 1) as nat) + 1
            },
            _ => failures_in_a_row(evs, (n - 1) as nat),
        }
    }
}

/// A watcher knows what happened: all the completion tokens that were reported, how often
/// each call was made, what is still running, and how often the check failed in a row.
pub proof fn a_watcher_knows_what_happened(cfg: SupervisorConfig, evs: Seq<Event>, n: nat)
    requires
        cfg.on(),
        n <= evs.len(),
        n < u32::MAX,
    ensures
        ({
            let w = watched(cfg, evs, n);
            &&& w.cfg == cfg
            &&& tokens_used(evs, n) <= u32::MAX ==> w.completion_tokens == tokens_used(evs, n)
            &&& tokens_used(evs, n) > u32::MAX ==> w.completion_tokens == u32::MAX
            &&& forall|call: Seq<char>| #[trigger] seen(w.calls, call) == calls_made(evs, call, n)
            &&& w.in_flight <==> call_is_out(evs, n)
            &&& w.tool_in_flight == tool_that_runs(evs, n)
            &&& cfg.stuck_check_threshold is None ==> w.check_failures == failures_in_a_row(
                evs,
                n,
            )
            &&& failures_in_a_row(evs, n) <= n
            &&& forall|call: Seq<char>| #[trigger] calls_made(evs, call, n) <= n
            &&& forall|call: Seq<char>|
                #[trigger] w.flagged.contains(call) <==> calls_made(evs, call, n) >= 1
                    && calls_made(evs, call, n) >= cfg.repeat_threshold
        }),
    decreases n,
{
    if n > 0 {
        let m = (n - 1) as nat;
        a_watcher_knows_what_happened(cfg, evs, m);
        let u = watched(cfg, evs, m);
        let w = watched(cfg, evs, n);
        let e = evs[n - 1];
        assert forall|call: Seq<char>| #[trigger] calls_made(evs, call, n) <= n by {
            assert(calls_made(evs, call, m) <= m);
        }
        assert forall|call: Seq<char>| #[trigger] seen(w.calls, call) == calls_made(
            evs,
            call,
            n,
        ) by {
            assert(seen(u.calls, call) == calls_made(evs, call, m));
            assert(calls_made(evs, call, m) <= m);
        }
        assert forall|call: Seq<char>| #[trigger] w.flagged.contains(call) <==> calls_made(
            evs,
            call,
            n,
        ) >= 1 && calls_made(evs, call, n) >= cfg.repeat_threshold by {
            assert(u.flagged.contains(call) <==> calls_made(evs, call, m) >= 1 && calls_made(
                evs,
                call,
                m,
            ) >= cfg.repeat_threshold);
            assert(seen(u.calls, call) == calls_made(evs, call, m));
            assert(calls_made(evs, call, m) <= m);
        }
    }
}

/// The watcher steps in when it should, and only then: a worker over its token budget is
/// stopped, and no other for its spending; a call is acted on the first time that it was
/// made as often as the threshold says.
pub proof fn the_watcher_steps_in_when_it_should(cfg: SupervisorConfig, evs: Seq<Event>, n: nat)
    requires
        cfg.on(),
        0 < n <= evs.len(),
        n < u32::MAX,
        tokens_used(evs, n) <= u32::MAX,
    ensures
        ({
            let act = observed(watched(cfg, evs, (n - 1) as nat), evs[n - 1]).1;
            &&& evs[n - 1] is Usage ==> (act is Some <==> (cfg.token_budget matches Some(b)
                && tokens_used(evs, n) > b))
            &&& evs[n - 1] is Usage && act is Some ==> act->0 is Escalate
            &&& evs[n - 1] matches Event::ToolCall { name, arguments, .. } ==> (act is Some <==> {
                let k = calls_made(evs, name@ + "::"@ + arguments@, n);
                k >= cfg.repeat_threshold && (k == 1 || k - 1 < cfg.repeat_threshold)
            })
            &&& evs[n - 1] matches Event::AssistantMessage { text } ==> (act is Some
                ==> reads_blocked(text@))
            &&& (evs[n - 1] is Validation && evs[n - 1]->Validation_ok) ==> act is None
            &&& !(evs[n - 1] is Usage || evs[n - 1] is ToolCall || evs[n - 1] is AssistantMessage
                || evs[n - 1] is Validation) ==> act is None
        }),
{
    let m = (n - 1) as nat;
    a_watcher_knows_what_happened(cfg, evs, m);
    a_watcher_knows_what_happened(cfg, evs, n);
    let u = watched(cfg, evs, m);
    if let Event::ToolCall { name, arguments, .. } = evs[n - 1] {
        let call = name@ + "::"@ + arguments@;
        assert(seen(u.calls, call) == calls_made(evs, call, m));
        assert(calls_made(evs, call, m) <= m);
        assert(u.flagged.contains(call) <==> calls_made(evs, call, m) >= 1 && calls_made(
            evs,
            call,
            m,
        ) >= cfg.repeat_threshold);
    }
}

/// A worker that says for the first time that it is blocked is acted on, and so is one
/// whose check failed as often in a row as is allowed.
pub proof fn a_worker_that_is_stuck_is_acted_on(w: Watch, said: Event, failed: Event)
    requires
        w.cfg.on(),
        said is AssistantMessage,
        failed is Validation,
        !failed->Validation_ok,
    ensures
        !w.blocked_flagged && reads_blocked(said->AssistantMessage_text@) ==> observed(
            w,
            said,
        ).1 is Some,
        w.check_failures < u32::MAX ==> (w.cfg.stuck_check_threshold matches Some(t) ==> (observed(
            w,
            failed,
        ).1 is Some <==> w.check_failures + 1 >= t)),
        w.cfg.stuck_check_threshold is None ==> observed(w, failed).1 is None,
        w.check_failures < u32::MAX && observed(w, failed).1 is None ==> observed(
            w,
            failed,
        ).0.check_failures == w.check_failures + 1,
        observed(w, failed).1 is Some ==> observed(w, failed).0.check_failures == 0,
{
}

/// A silent worker is nudged where nothing of it is running; a call or a tool that takes as
/// long as a request may take has it stopped.
pub proof fn silence_is_acted_on(w: Watch)
    requires
        w.cfg.on(),
    ensures
        !w.in_flight && w.tool_in_flight is None ==> idled(w).1 is Some && (w.nudges
            < w.cfg.max_nudges ==> idled(w).1->0 is Nudge),
        w.in_flight && w.in_flight_idles < usize::MAX && w.cfg.idle_timeout * (w.in_flight_idles
            + 1) >= w.cfg.request_timeout ==> (idled(w).1 matches Some(ActionView::Escalate(_))),
        !w.in_flight && w.tool_in_flight is Some && w.tool_idles < usize::MAX
            && w.cfg.idle_timeout * (w.tool_idles + 1) >= w.cfg.request_timeout ==> (idled(
            w,
        ).1 matches Some(ActionView::Escalate(_))),
        w.in_flight && w.in_flight_idles < usize::MAX ==> idled(w).0.in_flight_idles
            == w.in_flight_idles + 1,
        !w.in_flight && w.tool_in_flight is Some && w.tool_idles < usize::MAX ==> idled(
            w,
        ).0.tool_idles == w.tool_idles + 1,
{
}

/// What begins or ends starts the waiting over.
pub proof fn waiting_starts_over(w: Watch, e: Event)
    requires
        w.cfg.on(),
    ensures
        e is ModelCallStarted || e is ModelCallFinished ==> observed(w, e).0.in_flight_idles == 0,
        e is ToolCall || e is ToolResult ==> observed(w, e).0.tool_idles == 0,
{
}

/// An intervention is a nudge while the allowance lasts, and then the worker is stopped.
pub proof fn an_intervention_nudges_while_it_may(w: Watch, e: Event)
    requires
        w.cfg.on(),
        !(e is Usage),
        observed(w, e).1 is Some,
    ensures
        w.nudges < w.cfg.max_nudges <==> observed(w, e).1->0 is Nudge,
{
}

} // verus!
