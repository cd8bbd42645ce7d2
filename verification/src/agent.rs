//! The agent loop.
//!
//! Two layers. The inner one runs model and tool steps until the model stops
//! calling tools, with stuck detection: repeated identical calls are nudged, then
//! escalated. The outer one runs the task's validation check once the model goes
//! idle; on failure it re-plans, bounded by `max_retries`. A turn ends on a
//! passing check, not on "I'm done".
//!
//! [`Turn`](crate::turn::Turn) is both layers as a state machine: it hands out
//! [`Command`](crate::command::Command)s, and each method takes in the answer to the
//! last one. What it is made of stands here.
use vstd::prelude::*;
use vstd::string::*;

use crate::command::lemma_orders_push;
use crate::json::Number;
use crate::list::{concat, group_lists, views};
use crate::llm::{
    calls_view, effort_word, plain, role_name, role_str, said, Call, ChatRequest, Effort, Message,
    Role, Said, Thinking,
};
use crate::text::{
    byte_len, chars_of, dec, decimal, fit, fitting, opt_view, string_of, trim, trimmed, utf8_len,
};

verus! {

broadcast use {group_lists, lemma_orders_push};

/// Cap, in bytes, on a single tool result that is fed back to the model.
pub const MAX_TOOL_RESULT_BYTES: usize = 24_000;

/// How many empty completions in a row are absorbed with a nudge before the turn
/// is called stuck.
pub const MAX_EMPTY_COMPLETIONS: u32 = 2;

// ---- mailbox and thinking switch --------------------------------------------

/// A mailbox for injecting messages into a running turn.
#[derive(Debug, Default)]
pub struct Steering {
    inbox: Vec<String>,
}

impl View for Steering {
    type V = Seq<Seq<char>>;

    closed spec fn view(&self) -> Seq<Seq<char>> {
        views(self.inbox@)
    }
}

impl Steering {
    /// An empty mailbox.
    pub fn new() -> (r: Steering)
        ensures
            r@ == Seq::<Seq<char>>::empty(),
    {
        let r = Steering { inbox: Vec::new() };
        assert(r@ =~= Seq::<Seq<char>>::empty());
        r
    }

    /// Post a message.
    pub fn push(&mut self, message: &str)
        ensures
            final(self)@ == old(self)@.push(message@),
    {
        self.inbox.push(message.to_owned());
    }

    /// Take everything that was posted, in order.
    pub fn take(&mut self) -> (r: Vec<String>)
        ensures
            views(r@) == old(self)@,
            final(self)@ == Seq::<Seq<char>>::empty(),
    {
        let mut r: Vec<String> = Vec::new();
        r.append(&mut self.inbox);
        assert(views(r@) =~= old(self)@);
        assert(self@ =~= Seq::<Seq<char>>::empty());
        r
    }
}

/// How much the model deliberates before answering, toggleable while a session
/// is running. There is one switch, and no copy of it: whoever needs it shares it behind
/// a lock, so that a toggle is seen by all.
#[derive(Debug, Default)]
pub struct ThinkingMode {
    value: Option<Thinking>,
}

impl View for ThinkingMode {
    type V = Option<Thinking>;

    closed spec fn view(&self) -> Option<Thinking> {
        self.value
    }
}

/// The label of a thinking setting.
pub open spec fn thinking_label(t: Option<Thinking>) -> Option<Seq<char>> {
    match t {
        None => None,
        Some(Thinking::Off) => Some("off"@),
        Some(Thinking::On) => Some("on"@),
        Some(Thinking::Budget(n)) => if n >= 1000 {
            Some(dec((n / 1000) as nat) + "k"@)
        } else {
            Some(dec(n as nat))
        },
        Some(Thinking::Effort(e)) => Some(effort_word(e)),
    }
}

/// The setting once the switch is flipped.
pub open spec fn toggled(t: Option<Thinking>) -> Option<Thinking> {
    Some(
        if t == Some(Thinking::Off) {
            Thinking::On
        } else {
            Thinking::Off
        },
    )
}

/// A first flip turns to fast, unless it is fast already; a second one takes it back.
pub proof fn two_flips_change_no_speed(t: Option<Thinking>)
    ensures
        toggled(t) == Some(Thinking::Off) <==> t != Some(Thinking::Off),
        toggled(toggled(t)) == Some(Thinking::Off) <==> t == Some(Thinking::Off),
{
}

impl ThinkingMode {
    /// A switch set to `value`.
    pub fn new(value: Option<Thinking>) -> (r: ThinkingMode)
        ensures
            r@ == value,
    {
        ThinkingMode { value }
    }

    /// `None` leaves the provider's default alone.
    pub fn get(&self) -> (r: Option<Thinking>)
        ensures
            r == self@,
    {
        self.value
    }

    /// Set the switch.
    pub fn set(&mut self, value: Option<Thinking>)
        ensures
            final(self)@ == value,
    {
        self.value = value;
    }

    /// Is thinking explicitly off?
    pub fn is_fast(&self) -> (r: bool)
        ensures
            r == (self@ == Some(Thinking::Off)),
    {
        match self.value {
            Some(Thinking::Off) => true,
            _ => false,
        }
    }

    /// Flip between fast and thinking; an unset mode turns fast first. Returns
    /// whether fast mode is now on.
    pub fn toggle_fast(&mut self) -> (r: bool)
        ensures
            r == (old(self)@ != Some(Thinking::Off)),
            final(self)@ == toggled(old(self)@),
    {
        let fast = !self.is_fast();
        self.value = Some(if fast { Thinking::Off } else { Thinking::On });
        fast
    }

    /// A short label: `off`, `on`, the budget, or the effort.
    pub fn label(&self) -> (r: Option<String>)
        ensures
            opt_view(r) == thinking_label(self@),
    {
        match self.value {
            None => None,
            Some(Thinking::Off) => Some("off".to_owned()),
            Some(Thinking::On) => Some("on".to_owned()),
            Some(Thinking::Budget(n)) => if n >= 1000 {
                let mut s = decimal((n / 1000) as u128);
                s.append("k");
                Some(s)
            } else {
                Some(decimal(n as u128))
            },
            Some(Thinking::Effort(e)) => Some(e.as_str().to_owned()),
        }
    }
}

// ---- history ----------------------------------------------------------------

/// How many bytes the calls of a message take.
pub open spec fn calls_bytes(calls: Seq<Call>) -> nat
    decreases calls.len(),
{
    if calls.len() == 0 {
        0
    } else {
        calls_bytes(calls.drop_last()) + byte_len(calls.last().name) + byte_len(
            calls.last().arguments,
        )
    }
}

/// How many bytes a message takes: its text and its calls.
pub open spec fn message_bytes(m: Said) -> nat {
    calls_bytes(m.tool_calls) + match m.content {
        Some(c) => byte_len(c),
        None => 0,
    }
}

/// How many bytes a history takes.
pub open spec fn history_bytes(ms: Seq<Said>) -> nat
    decreases ms.len(),
{
    if ms.len() == 0 {
        0
    } else {
        history_bytes(ms.drop_last()) + message_bytes(ms.last())
    }
}

/// The smaller of `n` and `max`.
pub open spec fn capped_at(n: nat, max: nat) -> nat {
    if n <= max {
        n
    } else {
        max
    }
}

fn add_bytes(total: usize, s: &str) -> (r: usize)
    ensures
        r == capped_at((total + byte_len(s@)) as nat, usize::MAX as nat),
{
    let n = utf8_len(s);
    if n > (usize::MAX - total) as u128 {
        usize::MAX
    } else {
        total + n as usize
    }
}

/// Rough token estimate over a history: a quarter of the bytes of its texts and
/// calls, counted up to the largest machine number.
pub fn estimate_tokens(messages: &[Message]) -> (r: usize)
    ensures
        r == capped_at(history_bytes(said(messages@)), usize::MAX as nat) / 4,
{
    let mut total: usize = 0;
    let ghost ms = said(messages@);
    let mut i: usize = 0;
    assert(ms.take(0).len() == 0);
    while i < messages.len()
        invariant
            i <= messages@.len(),
            ms == said(messages@),
            total == capped_at(history_bytes(ms.take(i as int)), usize::MAX as nat),
        decreases messages.len() - i,
    {
        let m = &messages[i];
        let ghost before = history_bytes(ms.take(i as int));
        assert(ms.take(i + 1).drop_last() =~= ms.take(i as int));
        assert(ms.take(i + 1).last() == m@);
        let ghost base: nat = before + match m@.content {
            Some(c) => byte_len(c),
            None => 0,
        };
        if let Some(c) = &m.content {
            total = add_bytes(total, c.as_str());
        }
        let ghost calls = calls_view(m.tool_calls@);
        let mut k: usize = 0;
        assert(calls.take(0).len() == 0);
        while k < m.tool_calls.len()
            invariant
                k <= m.tool_calls@.len(),
                calls == calls_view(m.tool_calls@),
                total == capped_at(base + calls_bytes(calls.take(k as int)), usize::MAX as nat),
            decreases m.tool_calls.len() - k,
        {
            let c = &m.tool_calls[k];
            assert(calls.take(k + 1).drop_last() =~= calls.take(k as int));
            assert(calls.take(k + 1).last() == c@);
            total = add_bytes(total, c.name.as_str());
            total = add_bytes(total, c.arguments.as_str());
            k = k + 1;
        }
        assert(calls.take(k as int) =~= calls);
        i = i + 1;
    }
    assert(ms.take(i as int) =~= ms);
    total / 4
}

/// How many of the messages are the user's.
pub open spec fn user_turns(ms: Seq<Said>) -> nat
    decreases ms.len(),
{
    if ms.len() == 0 {
        0
    } else {
        user_turns(ms.drop_first()) + if ms[0].role == Role::User {
            1nat
        } else {
            0nat
        }
    }
}

/// The index from which on `ms` holds exactly `keep` user turns and which begins
/// one, searched from the end; 0 if there is none.
pub open spec fn turn_start(ms: Seq<Said>, keep: nat, i: int) -> int
    decreases i,
{
    if i <= 0 {
        0
    } else if ms[i].role == Role::User && user_turns(ms.skip(i)) == keep {
        i
    } else {
        turn_start(ms, keep, i - 1)
    }
}

/// Where a history is split: everything from there on is its last `keep` user
/// turns. 0 when there are no more turns than are kept.
pub open spec fn split_point(ms: Seq<Said>, keep: nat) -> int {
    if keep == 0 || user_turns(ms) <= keep {
        0
    } else {
        turn_start(ms, keep, ms.len() - 1)
    }
}

proof fn lemma_user_turns_step(ms: Seq<Said>, i: int)
    requires
        0 <= i < ms.len(),
    ensures
        user_turns(ms.skip(i)) == user_turns(ms.skip(i + 1)) + if ms[i].role == Role::User {
            1nat
        } else {
            0nat
        },
{
    assert(ms.skip(i).drop_first() =~= ms.skip(i + 1));
}

proof fn lemma_user_turns_grow(ms: Seq<Said>, i: int, j: int)
    requires
        0 <= i <= j <= ms.len(),
    ensures
        user_turns(ms.skip(j)) <= user_turns(ms.skip(i)),
    decreases j - i,
{
    if i < j {
        lemma_user_turns_step(ms, i);
        lemma_user_turns_grow(ms, i + 1, j);
    }
}

/// A split keeps exactly the last `keep` user turns and falls on the start of
/// one, wherever there are more turns than are kept.
pub proof fn a_split_keeps_whole_turns(ms: Seq<Said>, keep: nat)
    requires
        keep > 0,
        user_turns(ms) > keep,
    ensures
        0 < split_point(ms, keep) < ms.len(),
        ms[split_point(ms, keep)].role == Role::User,
        user_turns(ms.skip(split_point(ms, keep))) == keep,
{
    assert(ms.skip(0) =~= ms);
    assert(ms.len() > 0);
    assert(user_turns(ms.skip(ms.len() as int)) == 0);
    lemma_turn_start(ms, keep, ms.len() - 1);
}

proof fn lemma_turn_start(ms: Seq<Said>, keep: nat, i: int)
    requires
        keep > 0,
        user_turns(ms) > keep,
        0 <= i < ms.len(),
        user_turns(ms.skip(i + 1)) < keep,
    ensures
        0 < turn_start(ms, keep, i) <= i,
        ms[turn_start(ms, keep, i)].role == Role::User,
        user_turns(ms.skip(turn_start(ms, keep, i))) == keep,
    decreases i,
{
    lemma_user_turns_step(ms, i);
    if i == 0 {
        assert(ms.skip(0) =~= ms);
    } else if ms[i].role == Role::User && user_turns(ms.skip(i)) == keep {
    } else {
        lemma_turn_start(ms, keep, i - 1);
    }
}

proof fn lemma_split_unique(ms: Seq<Said>, keep: nat, i: int)
    requires
        keep > 0,
        0 < i < ms.len(),
        ms[i].role == Role::User,
        user_turns(ms.skip(i)) == keep,
    ensures
        turn_start(ms, keep, ms.len() - 1) == i,
{
    lemma_turn_start_is(ms, keep, ms.len() - 1, i);
}

proof fn lemma_turn_start_is(ms: Seq<Said>, keep: nat, from: int, i: int)
    requires
        keep > 0,
        0 < i <= from < ms.len(),
        ms[i].role == Role::User,
        user_turns(ms.skip(i)) == keep,
    ensures
        turn_start(ms, keep, from) == i,
    decreases from,
{
    if from > i {
        lemma_user_turns_step(ms, i);
        lemma_user_turns_grow(ms, i + 1, from);
        lemma_turn_start_is(ms, keep, from - 1, i);
    }
}

/// Choose a split index so that everything from it onward is the last
/// `keep_turns` user turns. Returns 0 when there is nothing to compact. Splitting
/// on turn boundaries keeps a call and its result together.
pub fn compaction_split(messages: &[Message], keep_turns: usize) -> (r: usize)
    ensures
        r == split_point(said(messages@), keep_turns as nat),
        r <= messages@.len(),
{
    if keep_turns == 0 {
        return 0;
    }
    let ghost ms = said(messages@);
    let ghost keep = keep_turns as nat;
    let mut i: usize = messages.len();
    let mut found: usize = 0;
    let mut at: usize = 0;
    assert(ms.skip(ms.len() as int).len() == 0);
    while i > 0
        invariant
            i <= messages@.len(),
            ms == said(messages@),
            keep == keep_turns,
            keep > 0,
            found == user_turns(ms.skip(i as int)),
            found <= messages@.len() - i,
            found < keep ==> at == 0,
            found >= keep ==> i <= at < messages@.len() && ms[at as int].role == Role::User
                && user_turns(ms.skip(at as int)) == keep,
        decreases i,
    {
        i = i - 1;
        proof {
            lemma_user_turns_step(ms, i as int);
        }
        assert(ms[i as int] == messages@[i as int]@);
        if messages[i].role == Role::User {
            found = found + 1;
            if found == keep_turns {
                at = i;
            }
        }
    }
    assert(ms.skip(0) =~= ms);
    if found <= keep_turns {
        return 0;
    }
    proof {
        if at == 0 {
            assert(user_turns(ms.skip(0)) == keep);
        } else {
            lemma_split_unique(ms, keep, at as int);
        }
    }
    at
}

/// The lines that a message's calls make in a transcript.
pub open spec fn call_lines(role: Seq<char>, calls: Seq<Call>) -> Seq<Seq<char>> {
    Seq::new(
        calls.len(),
        |i: int| "["@ + role + " calls "@ + calls[i].name + "] "@ + calls[i].arguments + "\n"@,
    )
}

/// What a message makes in a transcript: its text, if any, and its calls.
pub open spec fn transcript_part(m: Said) -> Seq<char> {
    let calls = concat(call_lines(role_name(m.role), m.tool_calls));
    match m.content {
        Some(c) => if c.len() == 0 {
            calls
        } else {
            "["@ + role_name(m.role) + "] "@ + c + "\n"@ + calls
        },
        None => calls,
    }
}

/// The parts that a history makes in a transcript.
pub open spec fn transcript_parts(ms: Seq<Said>) -> Seq<Seq<char>> {
    Seq::new(ms.len(), |i: int| transcript_part(ms[i]))
}

fn transcript_entry(m: &Message) -> (r: String)
    ensures
        r@ == transcript_part(m@),
{
    let role = role_str(m.role);
    let ghost name = role_name(m.role);
    let mut head = String::new();
    if let Some(c) = &m.content {
        if c.as_str().unicode_len() > 0 {
            head = "[".to_owned();
            head.append(role);
            head.append("] ");
            head.append(c.as_str());
            head.append("\n");
        }
    }
    let ghost top = head@;
    let ghost all = call_lines(name, calls_view(m.tool_calls@));
    let mut i: usize = 0;
    assert(all.take(0) =~= seq![]);
    assert(head@ =~= top + concat(all.take(0)));
    while i < m.tool_calls.len()
        invariant
            i <= m.tool_calls@.len(),
            role@ == name,
            all == call_lines(name, calls_view(m.tool_calls@)),
            head@ == top + concat(all.take(i as int)),
        decreases m.tool_calls.len() - i,
    {
        let c = &m.tool_calls[i];
        let mut line = "[".to_owned();
        line.append(role);
        line.append(" calls ");
        line.append(c.name.as_str());
        line.append("] ");
        line.append(c.arguments.as_str());
        line.append("\n");
        assert(line@ == all[i as int]);
        assert(all.take(i + 1) =~= all.take(i as int).push(all[i as int]));
        let ghost before = head@;
        head.append(line.as_str());
        assert(head@ =~= top + concat(all.take(i + 1)));
        i = i + 1;
    }
    assert(all.take(i as int) =~= all);
    assert(top.len() == 0 ==> head@ =~= concat(all));
    head
}

/// Render messages as a plain transcript for the summarizer.
pub fn render_transcript(messages: &[Message]) -> (r: String)
    ensures
        r@ == concat(transcript_parts(said(messages@))),
{
    let mut out = String::new();
    let ghost all = transcript_parts(said(messages@));
    let mut i: usize = 0;
    assert(all.take(0) =~= seq![]);
    while i < messages.len()
        invariant
            i <= messages@.len(),
            all == transcript_parts(said(messages@)),
            out@ == concat(all.take(i as int)),
        decreases messages.len() - i,
    {
        let part = transcript_entry(&messages[i]);
        assert(part@ == all[i as int]);
        assert(all.take(i + 1) =~= all.take(i as int).push(all[i as int]));
        out.append(part.as_str());
        i = i + 1;
    }
    assert(all.take(i as int) =~= all);
    out
}

/// A tool result cut to the byte cap on a character boundary, with a notice.
pub open spec fn capped(s: Seq<char>) -> Seq<char> {
    if byte_len(s) <= MAX_TOOL_RESULT_BYTES {
        s
    } else {
        let shown = s.take(fitting(s, MAX_TOOL_RESULT_BYTES as nat) as int);
        shown + "\n\n[output truncated: showed "@ + dec(byte_len(shown)) + " of "@ + dec(byte_len(s))
            + " bytes — narrow the query or read a specific range]"@
    }
}

/// Cut a tool result to the byte cap on a character boundary, with a notice.
pub fn cap_tool_output(s: String) -> (r: String)
    ensures
        r@ == capped(s@),
{
    let len = utf8_len(s.as_str());
    if len <= MAX_TOOL_RESULT_BYTES as u128 {
        return s;
    }
    let v = chars_of(s.as_str());
    let (n, end) = fit(&v, MAX_TOOL_RESULT_BYTES);
    let mut out = string_of(&v, 0, n);
    assert(out@ =~= s@.take(n as int));
    out.append("\n\n[output truncated: showed ");
    let k = decimal(end as u128);
    out.append(k.as_str());
    out.append(" of ");
    let k = decimal(len);
    out.append(k.as_str());
    out.append(" bytes — narrow the query or read a specific range]");
    out
}

/// What the next request will cost in prompt tokens: the provider's count for the
/// last one, or the estimate where that is larger.
pub fn working_tokens(reported: u32, estimate: usize) -> (r: usize)
    ensures
        r == if reported as nat > estimate { reported as nat } else { estimate as nat },
{
    if reported as u64 > estimate as u64 {
        reported as usize
    } else {
        estimate
    }
}

/// Is the history over three quarters of the context limit?
pub open spec fn over_trigger(working: nat, context_limit: nat) -> bool {
    working > context_limit * 3 / 4
}

/// Should old history be summarized before the next request?
pub fn should_compact(working: usize, context_limit: usize) -> (r: bool)
    ensures
        r == over_trigger(working as nat, context_limit as nat),
{
    working as u128 > context_limit as u128 * 3 / 4
}

/// The instructions for summarizing old history.
pub const COMPACTION_PROMPT: &'static str =
    "You are compacting a coding-agent conversation. Summarize the exchange below into concise notes a future agent needs to continue: decisions made, files created or edited, key facts learned, and any unfinished work. Preserve specifics (paths, names, values). Omit chatter.";

/// What to summarize, if anything is old enough: how many messages, and their
/// transcript.
pub fn compaction_plan(messages: &[Message], keep_turns: usize) -> (r: Option<(usize, String)>)
    ensures
        ({
            let n = split_point(said(messages@), keep_turns as nat);
            match r {
                Some(p) => n > 0 && p.0 == n && p.1@ == concat(
                    transcript_parts(said(messages@).take(n)),
                ),
                None => n == 0,
            }
        }),
{
    let split = compaction_split(messages, keep_turns);
    if split == 0 {
        return None;
    }
    let old = vstd::slice::slice_subrange(messages, 0, split);
    assert(said(old@) =~= said(messages@).take(split as int));
    Some((split, render_transcript(old)))
}

/// The answer to one of the harness's own questions: an empty one is an error.
pub fn helper_answer(content: Option<String>) -> (r: Result<String, String>)
    ensures
        match opt_view(content) {
            Some(c) if trim(c).len() > 0 => r matches Ok(s) && s@ == c,
            _ => r matches Err(e) && e@
                == "model returned no content (max_tokens may have been consumed by reasoning — try --fast or a larger budget)"@,
        },
{
    if let Some(c) = content {
        if trimmed(c.as_str()).as_str().unicode_len() > 0 {
            return Ok(c);
        }
    }
    Err(
        "model returned no content (max_tokens may have been consumed by reasoning — try --fast or a larger budget)".to_owned(),
    )
}

// ---- requests ---------------------------------------------------------------

/// What a list of texts says as system messages.
pub open spec fn system_messages(texts: Seq<Seq<char>>) -> Seq<Said> {
    texts.map_values(|t: Seq<char>| plain(Role::System, t))
}

/// What the model is sent in a turn: the stable prompt first, so that a provider can
/// reuse it from call to call; then what is pinned for this turn; then the history.
pub fn conversation(system: &str, pinned: &Vec<String>, history: &[Message]) -> (r: Vec<Message>)
    ensures
        said(r@) == seq![plain(Role::System, system@)] + system_messages(views(pinned@)) + said(
            history@,
        ),
{
    let mut r: Vec<Message> = Vec::new();
    r.push(Message::system(system));
    let ghost first = seq![plain(Role::System, system@)];
    let ghost notes = system_messages(views(pinned@));
    assert(said(r@) =~= first + notes.take(0));
    let mut i: usize = 0;
    while i < pinned.len()
        invariant
            i <= pinned@.len(),
            notes == system_messages(views(pinned@)),
            said(r@) == first + notes.take(i as int),
        decreases pinned.len() - i,
    {
        let ghost before = said(r@);
        let m = Message::system(pinned[i].as_str());
        assert(m@ == notes[i as int]);
        r.push(m);
        assert(said(r@) =~= before.push(m@));
        assert(notes.take(i + 1) =~= notes.take(i as int).push(notes[i as int]));
        i = i + 1;
    }
    assert(notes.take(i as int) =~= notes);
    let ghost head = first + notes;
    let ghost rest = said(history@);
    assert(said(r@) =~= head + rest.take(0));
    let mut k: usize = 0;
    while k < history.len()
        invariant
            k <= history@.len(),
            rest == said(history@),
            said(r@) == head + rest.take(k as int),
        decreases history.len() - k,
    {
        let ghost before = said(r@);
        let m = history[k].copy();
        assert(m@ == rest[k as int]);
        r.push(m);
        assert(said(r@) =~= before.push(m@));
        assert(rest.take(k + 1) =~= rest.take(k as int).push(rest[k as int]));
        k = k + 1;
    }
    assert(rest.take(k as int) =~= rest);
    r
}

/// One of the harness's own questions: no tools, no history, little variation. It is
/// asked without deliberation, whatever the session is set to: its budget is small, and
/// reasoning could consume all of it.
pub fn helper_request(model: &str, system: &str, user: &str, max_tokens: u32) -> (r: ChatRequest)
    ensures
        r.model@ == model@,
        said(r.messages@) == seq![plain(Role::System, system@), plain(Role::User, user@)],
        r.tools@.len() == 0,
        r.temperature matches Some(Number::Real(t)) && t@ == "0.2"@,
        r.top_p is None,
        r.top_k is None,
        r.max_tokens == Some(max_tokens),
        r.thinking == Some(Thinking::Off),
        r.sort is None,
{
    let mut messages: Vec<Message> = Vec::new();
    messages.push(Message::system(system));
    messages.push(Message::user(user));
    assert(said(messages@) =~= seq![plain(Role::System, system@), plain(Role::User, user@)]);
    ChatRequest {
        model: model.to_owned(),
        messages,
        tools: Vec::new(),
        temperature: Some(Number::Real("0.2".to_owned())),
        top_p: None,
        top_k: None,
        max_tokens: Some(max_tokens),
        thinking: Some(Thinking::Off),
        sort: None,
    }
}

// ---- laws -------------------------------------------------------------------

/// The size of a history is the size of all that is in it: of two histories, one behind
/// the other, the sum; of one message, its text and the name and arguments of every call.
pub proof fn a_history_is_as_large_as_its_parts(
    a: Seq<Said>,
    b: Seq<Said>,
    m: Said,
    calls: Seq<Call>,
    c: Call,
)
    ensures
        history_bytes(a + b) == history_bytes(a) + history_bytes(b),
        history_bytes(a.push(m)) == history_bytes(a) + history_bytes(seq![m]),
        history_bytes(seq![Said { tool_calls: calls.push(c), ..m }]) == history_bytes(
            seq![Said { tool_calls: calls, ..m }],
        ) + byte_len(c.name) + byte_len(c.arguments),
        history_bytes(seq![Said { tool_calls: seq![], content: None, ..m }]) == 0,
        m.content matches Some(t) ==> history_bytes(seq![m]) == history_bytes(
            seq![Said { content: None, ..m }],
        ) + byte_len(t),
    decreases b.len(),
{
    let none = Seq::<Said>::empty();
    if b.len() == 0 {
        assert(a + b =~= a);
    } else {
        a_history_is_as_large_as_its_parts(a, b.drop_last(), m, calls, c);
        assert((a + b).drop_last() =~= a + b.drop_last());
        assert((a + b).last() == b.last());
    }
    assert(a.push(m).drop_last() =~= a);
    assert(seq![m].drop_last() =~= none);
    let x = Said { tool_calls: calls.push(c), ..m };
    let y = Said { tool_calls: calls, ..m };
    let z = Said { tool_calls: seq![], content: None, ..m };
    let w = Said { content: None, ..m };
    assert(seq![x].drop_last() =~= none);
    assert(seq![y].drop_last() =~= none);
    assert(seq![z].drop_last() =~= none);
    assert(seq![w].drop_last() =~= none);
    assert(calls.push(c).drop_last() =~= calls);
    assert(history_bytes(none) == 0);
}

/// Where there are no more turns than are kept, or none is to be kept, nothing is
/// summarized; else all but the last turns is, and no less.
pub proof fn only_old_turns_are_summarized(ms: Seq<Said>, keep: nat)
    ensures
        keep == 0 || user_turns(ms) <= keep ==> split_point(ms, keep) == 0,
        keep > 0 && user_turns(ms) > keep ==> user_turns(ms.take(split_point(ms, keep))) + keep
            == user_turns(ms),
{
    if keep > 0 && user_turns(ms) > keep {
        a_split_keeps_whole_turns(ms, keep);
        lemma_turns_part(ms, split_point(ms, keep));
    }
}

proof fn lemma_turns_part(ms: Seq<Said>, i: int)
    requires
        0 <= i <= ms.len(),
    ensures
        user_turns(ms.take(i)) + user_turns(ms.skip(i)) == user_turns(ms),
    decreases i,
{
    if i == 0 {
        assert(ms.skip(0) =~= ms);
    } else {
        let rest = ms.drop_first();
        lemma_turns_part(rest, i - 1);
        assert(ms.take(i).drop_first() =~= rest.take(i - 1));
        assert(ms.skip(i) =~= rest.skip(i - 1));
    }
}

/// The transcript holds every message: its text under its role, and every call with its
/// name and arguments.
pub proof fn the_transcript_holds_every_message(ms: Seq<Said>, i: int, k: int)
    requires
        0 <= i < ms.len(),
    ensures
        ({
            let t = concat(transcript_parts(ms));
            &&& (ms[i].content matches Some(c) && c.len() > 0) ==> crate::text::contains(
                t,
                "["@ + role_name(ms[i].role) + "] "@ + ms[i].content->0 + "\n"@,
            )
            &&& 0 <= k < ms[i].tool_calls.len() ==> crate::text::contains(
                t,
                "["@ + role_name(ms[i].role) + " calls "@ + ms[i].tool_calls[k].name + "] "@
                    + ms[i].tool_calls[k].arguments + "\n"@,
            )
        }),
{
    let parts = transcript_parts(ms);
    let m = ms[i];
    let t = concat(parts);
    let x = concat(parts.take(i));
    let y = concat(parts.skip(i + 1));
    crate::wording::a_list_put_together_holds_each(parts, i);
    assert(t == x + parts[i] + y);
    let rows = call_lines(role_name(m.role), m.tool_calls);
    let head: Seq<char> = match m.content {
        Some(c) => if c.len() == 0 {
            seq![]
        } else {
            "["@ + role_name(m.role) + "] "@ + c + "\n"@
        },
        None => seq![],
    };
    assert(parts[i] =~= head + concat(rows));
    if head.len() > 0 {
        crate::wording::a_part_stands_in_the_whole(seq![], head, concat(rows));
        assert(Seq::<char>::empty() + head + concat(rows) =~= parts[i]);
        crate::wording::standing_in_a_part_is_standing_in_the_whole(x, parts[i], y, head);
    }
    if 0 <= k < m.tool_calls.len() {
        crate::wording::a_list_put_together_holds_each(rows, k);
        crate::wording::standing_in_a_part_is_standing_in_the_whole(
            head,
            concat(rows),
            seq![],
            rows[k],
        );
        assert(head + concat(rows) + Seq::<char>::empty() =~= parts[i]);
        crate::wording::standing_in_a_part_is_standing_in_the_whole(x, parts[i], y, rows[k]);
    }
}

/// A result within the cap is kept as it is. Of a longer one the longest start that fits is
/// kept, and a notice behind it says how much was shown of how much.
pub proof fn a_result_is_cut_only_past_the_cap(s: Seq<char>)
    ensures
        byte_len(s) <= MAX_TOOL_RESULT_BYTES ==> capped(s) == s,
        byte_len(s) > MAX_TOOL_RESULT_BYTES ==> exists|n: int|
            {
                &&& 0 <= n < s.len()
                &&& byte_len(#[trigger] s.take(n)) <= MAX_TOOL_RESULT_BYTES
                &&& byte_len(s.take(n + 1)) > MAX_TOOL_RESULT_BYTES
                &&& capped(s).len() > n
                &&& capped(s).take(n) == s.take(n)
                &&& crate::text::contains(capped(s).skip(n), dec(byte_len(s.take(n))))
                &&& crate::text::contains(capped(s).skip(n), dec(byte_len(s)))
            },
{
    if byte_len(s) > MAX_TOOL_RESULT_BYTES {
        let n = fitting(s, MAX_TOOL_RESULT_BYTES as nat) as int;
        crate::wording::what_fits_is_the_longest_start(s, MAX_TOOL_RESULT_BYTES as nat);
        let shown = s.take(n);
        assert(s.take(s.len() as int) =~= s);
        assert(n < s.len());
        let a = "\n\n[output truncated: showed "@;
        let b = " of "@;
        let c = " bytes — narrow the query or read a specific range]"@;
        let note = a + dec(byte_len(shown)) + b + dec(byte_len(s)) + c;
        assert(capped(s) =~= shown + note);
        assert(capped(s).take(n) =~= shown);
        assert(capped(s).skip(n) =~= note);
        crate::wording::a_part_stands_in_the_whole(
            a,
            dec(byte_len(shown)),
            b + dec(byte_len(s)) + c,
        );
        assert(a + dec(byte_len(shown)) + (b + dec(byte_len(s)) + c) =~= note);
        crate::wording::a_part_stands_in_the_whole(
            a + dec(byte_len(shown)) + b,
            dec(byte_len(s)),
            c,
        );
        reveal_strlit("\n\n[output truncated: showed ");
        assert(s.take(n) == shown);
    }
}

} // verus!
