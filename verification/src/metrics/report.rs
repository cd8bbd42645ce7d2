//! The accounts and measures of a session, as lines of text.
use vstd::prelude::*;
use vstd::string::*;

use crate::event::{Emitted, Event};
use crate::ids::{is_id, uuid_text};
use crate::list::{group_lists, views};
use crate::llm::ContextBreakdown;
use crate::metrics::{Accounting, Totals, Turn};
use crate::paths::{components, path_renamed, same_path, with_file_name};
use crate::ranking::{in_rank, ranked};
use crate::session::TimedEvent;
use crate::tally::TextSet;
use crate::text::{dec, decimal, opt_view, same};
use crate::tools::read::spaces_before;

verus! {

broadcast use group_lists;

// ---- columns ----------------------------------------------------------------

/// `s` with spaces behind it up to a width.
pub open spec fn padded(s: Seq<char>, width: nat) -> Seq<char> {
    if s.len() >= width {
        s
    } else {
        s + Seq::new((width - s.len()) as nat, |i: int| ' ')
    }
}

fn pad(s: &str, width: usize) -> (r: String)
    ensures
        r@ == padded(s@, width as nat),
{
    let mut r = s.to_owned();
    let n: usize = s.unicode_len();
    if n >= width {
        return r;
    }
    let mut i: usize = n;
    assert(r@ =~= s@ + Seq::new(0, |i: int| ' '));
    while i < width
        invariant
            n == s@.len(),
            n <= i <= width,
            r@ == s@ + Seq::new((i - n) as nat, |i: int| ' '),
        decreases width - i,
    {
        r.push(' ');
        i = i + 1;
        assert(r@ =~= s@ + Seq::new((i - n) as nat, |i: int| ' '));
    }
    r
}

fn pad_before(s: &str, width: usize) -> (r: String)
    ensures
        r@ == spaces_before(s@, width as nat),
{
    let mut r = s.to_owned();
    let mut n: usize = s.unicode_len();
    while n < width
        invariant
            n == r@.len(),
            spaces_before(s@, width as nat) == spaces_before(r@, width as nat),
        decreases width - n,
    {
        let mut t = " ".to_owned();
        t.append(r.as_str());
        proof {
            reveal_strlit(" ");
            assert(t@ =~= seq![' '] + r@);
        }
        r = t;
        n = n + 1;
    }
    r
}

/// Two measures on one line.
pub open spec fn pair_line(
    left: Seq<char>,
    left_value: Seq<char>,
    right: Seq<char>,
    right_value: Seq<char>,
) -> Seq<char> {
    "  "@ + padded(left, 11) + " "@ + padded(left_value, 8) + "  "@ + padded(right, 11) + " "@
        + right_value
}

/// Two measures on one line.
pub fn metric_pair_line(left: &str, left_value: &str, right: &str, right_value: &str) -> (r: String)
    ensures
        r@ == pair_line(left@, left_value@, right@, right_value@),
{
    let mut s = "  ".to_owned();
    s.append(pad(left, 11).as_str());
    s.append(" ");
    s.append(pad(left_value, 8).as_str());
    s.append("  ");
    s.append(pad(right, 11).as_str());
    s.append(" ");
    s.append(right_value);
    s
}

// ---- the calls --------------------------------------------------------------

/// The texts of a call's measures.
#[derive(Debug)]
pub struct CallTexts {
    pub ctx: String,
    pub first: String,
    pub total: String,
    pub prompt_rate: String,
    pub decode_rate: String,
}

/// One call of the session's own model.
#[derive(Debug)]
pub struct Sample {
    /// Its place among the events.
    pub at: usize,
    pub ts: u64,
    pub prompt_tokens: u32,
    pub completion_tokens: u32,
    pub reasoning_tokens: u32,
    pub context_breakdown: Option<ContextBreakdown>,
    pub total_ms: u64,
    pub first_output_ms: Option<u64>,
    pub shown: CallTexts,
}

/// What is measured of a call.
pub struct Measured {
    pub at: usize,
    pub ts: u64,
    pub prompt_tokens: u32,
    pub completion_tokens: u32,
    pub reasoning_tokens: u32,
    pub context_breakdown: Option<ContextBreakdown>,
    pub total_ms: u64,
    pub first_output_ms: Option<u64>,
}

impl View for Sample {
    type V = Measured;

    open spec fn view(&self) -> Measured {
        Measured {
            at: self.at,
            ts: self.ts,
            prompt_tokens: self.prompt_tokens,
            completion_tokens: self.completion_tokens,
            reasoning_tokens: self.reasoning_tokens,
            context_breakdown: self.context_breakdown,
            total_ms: self.total_ms,
            first_output_ms: self.first_output_ms,
        }
    }
}

/// What is measured of calls.
pub open spec fn measured(v: Seq<Sample>) -> Seq<Measured> {
    Seq::new(v.len(), |i: int| v[i]@)
}

/// What an event measures: the calls of helpers are left out.
pub open spec fn sample_of(ev: TimedEvent, at: usize) -> Option<Measured> {
    match ev.event@ {
        Emitted::ModelMetrics {
            purpose,
            model: _,
            prompt_tokens,
            completion_tokens,
            reasoning_tokens,
            cached_tokens: _,
            cache_write_tokens: _,
            context_breakdown,
            total_ms,
            first_output_ms,
            priced: _,
        } => if purpose == "helper"@ {
            None
        } else {
            Some(
                Measured {
                    at,
                    ts: ev.ts,
                    prompt_tokens,
                    completion_tokens,
                    reasoning_tokens,
                    context_breakdown,
                    total_ms,
                    first_output_ms,
                },
            )
        },
        _ => None,
    }
}

/// The calls among the first `n` events.
pub open spec fn samples_in(evs: Seq<TimedEvent>, n: nat) -> Seq<Measured>
    decreases n,
{
    if n == 0 {
        seq![]
    } else {
        match sample_of(evs[n - 1], (n - 1) as usize) {
            Some(m) => samples_in(evs, (n - 1) as nat).push(m),
            None => samples_in(evs, (n - 1) as nat),
        }
    }
}

/// The compactions among the first `n` events: the tokens before and after.
pub open spec fn compactions_in(evs: Seq<TimedEvent>, n: nat) -> Seq<(usize, usize)>
    decreases n,
{
    if n == 0 {
        seq![]
    } else {
        let before = compactions_in(evs, (n - 1) as nat);
        match evs[n - 1].event@ {
            Emitted::Compaction { tokens_before, tokens_after, .. } => before.push(
                (tokens_before, tokens_after),
            ),
            _ => before,
        }
    }
}

/// The calls and the compactions of a session, and when it began.
#[derive(Debug)]
pub struct Digest {
    pub start: u64,
    pub samples: Vec<Sample>,
    pub compactions: Vec<(usize, usize)>,
}

/// The calls and the compactions of a session.
pub fn digest(evs: &Vec<TimedEvent>) -> (r: Digest)
    ensures
        r.start == if evs@.len() > 0 {
            evs@[0].ts
        } else {
            0
        },
        measured(r.samples@) == samples_in(evs@, evs@.len()),
        r.compactions@ == compactions_in(evs@, evs@.len()),
{
    let start: u64 = if evs.len() > 0 {
        evs[0].ts
    } else {
        0
    };
    let mut samples: Vec<Sample> = Vec::new();
    let mut compactions: Vec<(usize, usize)> = Vec::new();
    let mut i: usize = 0;
    assert(measured(samples@) =~= seq![]);
    assert(compactions@ =~= seq![]);
    while i < evs.len()
        invariant
            i <= evs@.len(),
            measured(samples@) == samples_in(evs@, i as nat),
            compactions@ == compactions_in(evs@, i as nat),
        decreases evs.len() - i,
    {
        let ev = &evs[i];
        let ghost held = samples@;
        match &ev.event {
            Event::ModelMetrics {
                purpose,
                model: _,
                prompt_tokens,
                completion_tokens,
                reasoning_tokens,
                cached_tokens: _,
                cache_write_tokens: _,
                context_breakdown,
                total_ms,
                first_output_ms,
                priced: _,
            } => {
                if !same(purpose.as_str(), "helper") {
                    let s = Sample {
                        at: i,
                        ts: ev.ts,
                        prompt_tokens: *prompt_tokens,
                        completion_tokens: *completion_tokens,
                        reasoning_tokens: *reasoning_tokens,
                        context_breakdown: *context_breakdown,
                        total_ms: *total_ms,
                        first_output_ms: *first_output_ms,
                        shown: CallTexts {
                            ctx: String::new(),
                            first: String::new(),
                            total: String::new(),
                            prompt_rate: String::new(),
                            decode_rate: String::new(),
                        },
                    };
                    samples.push(s);
                    assert(measured(samples@) =~= measured(held).push(s@));
                }
            },
            Event::Compaction { messages_before: _, messages_after: _, tokens_before, tokens_after } => {
                compactions.push((*tokens_before, *tokens_after));
            },
            _ => {},
        }
        i = i + 1;
    }
    Digest { start, samples, compactions }
}

/// The last of the first `n` calls that no other one sent more than.
pub open spec fn peak_in(ms: Seq<Measured>, n: nat) -> int
    decreases n,
{
    if n <= 1 {
        0
    } else {
        let p = peak_in(ms, (n - 1) as nat);
        if ms[n - 1].prompt_tokens >= ms[p].prompt_tokens {
            n - 1
        } else {
            p
        }
    }
}

/// The sum of numbers.
pub open spec fn sum_of(v: Seq<u64>) -> nat
    decreases v.len(),
{
    if v.len() == 0 {
        0
    } else {
        sum_of(v.drop_last()) + v.last() as nat
    }
}

/// The average of numbers: their sum, as far as it fits, over their count; zero where
/// there are none.
pub fn average_ms(v: &Vec<u64>) -> (r: u64)
    ensures
        r == if v@.len() == 0 {
            0int
        } else if sum_of(v@) > u64::MAX {
            u64::MAX as int / v@.len() as int
        } else {
            sum_of(v@) as int / v@.len() as int
        },
{
    let n = v.len();
    if n == 0 {
        return 0;
    }
    let mut sum: u64 = 0;
    let mut i: usize = 0;
    assert(v@.take(0) =~= Seq::<u64>::empty());
    while i < n
        invariant
            i <= n == v@.len(),
            sum == if sum_of(v@.take(i as int)) > u64::MAX {
                u64::MAX as int
            } else {
                sum_of(v@.take(i as int)) as int
            },
        decreases n - i,
    {
        assert(v@.take(i + 1).drop_last() =~= v@.take(i as int));
        sum = if v[i] > u64::MAX - sum {
            u64::MAX
        } else {
            sum + v[i]
        };
        i = i + 1;
    }
    assert(v@.take(i as int) =~= v@);
    let r: u64 = sum / (n as u64);
    r
}

/// How long the first output took, where it is known.
pub open spec fn first_times_of(ms: Seq<Measured>) -> Seq<u64>
    decreases ms.len(),
{
    if ms.len() == 0 {
        seq![]
    } else {
        match ms.last().first_output_ms {
            Some(t) => first_times_of(ms.drop_last()).push(t),
            None => first_times_of(ms.drop_last()),
        }
    }
}

impl Digest {
    /// The call that sent the most: the last one of those that did.
    pub fn peak(&self) -> (r: usize)
        requires
            self.samples@.len() > 0,
        ensures
            r == peak_in(measured(self.samples@), self.samples@.len()),
            r < self.samples@.len(),
    {
        let ghost all = measured(self.samples@);
        let mut p: usize = 0;
        let mut i: usize = 1;
        while i < self.samples.len()
            invariant
                1 <= i <= self.samples@.len(),
                all == measured(self.samples@),
                p < i,
                p == peak_in(all, i as nat),
            decreases self.samples.len() - i,
        {
            assert(all[i as int].prompt_tokens == self.samples@[i as int].prompt_tokens);
            assert(all[p as int].prompt_tokens == self.samples@[p as int].prompt_tokens);
            if self.samples[i].prompt_tokens >= self.samples[p].prompt_tokens {
                p = i;
            }
            i = i + 1;
        }
        p
    }

    /// How long the first output took, call by call where it is known.
    pub fn first_times(&self) -> (r: Vec<u64>)
        ensures
            r@ == first_times_of(measured(self.samples@)),
    {
        let ghost all = measured(self.samples@);
        let mut r: Vec<u64> = Vec::new();
        let mut i: usize = 0;
        assert(r@ =~= first_times_of(all.take(0)));
        while i < self.samples.len()
            invariant
                i <= self.samples@.len(),
                all == measured(self.samples@),
                r@ == first_times_of(all.take(i as int)),
            decreases self.samples.len() - i,
        {
            assert(all.take(i + 1).drop_last() =~= all.take(i as int));
            assert(all.take(i + 1).last() == self.samples@[i as int]@);
            if let Some(t) = self.samples[i].first_output_ms {
                r.push(t);
            }
            i = i + 1;
        }
        assert(all.take(i as int) =~= all);
        r
    }

    /// How long the calls took.
    pub fn total_times(&self) -> (r: Vec<u64>)
        ensures
            r@ == Seq::new(self.samples@.len(), |i: int| self.samples@[i].total_ms),
    {
        let mut r: Vec<u64> = Vec::new();
        let mut i: usize = 0;
        while i < self.samples.len()
            invariant
                i <= self.samples@.len(),
                r@.len() == i,
                forall|k: int| 0 <= k < i ==> r@[k] == (#[trigger] self.samples@[k]).total_ms,
            decreases self.samples.len() - i,
        {
            r.push(self.samples[i].total_ms);
            i = i + 1;
        }
        assert(r@ =~= Seq::new(self.samples@.len(), |i: int| self.samples@[i].total_ms));
        r
    }
}

/// The sum of a breakdown, as far as it fits.
pub fn context_breakdown_total(b: ContextBreakdown) -> (r: u32)
    ensures
        ({
            let n = b.system_tokens + b.loaded_skill_tokens + b.memory_tokens + b.history_tokens
                + b.latest_user_tokens + b.tool_schema_tokens;
            r == if n > u32::MAX {
                u32::MAX as int
            } else {
                n
            }
        }),
{
    let n: u64 = b.system_tokens as u64 + b.loaded_skill_tokens as u64 + b.memory_tokens as u64
        + b.history_tokens as u64 + b.latest_user_tokens as u64 + b.tool_schema_tokens as u64;
    if n > u32::MAX as u64 {
        u32::MAX
    } else {
        n as u32
    }
}

/// The texts of the measures of a whole session.
#[derive(Debug)]
pub struct SessionTexts {
    pub peak_ctx: String,
    pub avg_first: String,
    pub avg_total: String,
    pub avg_prompt_rate: String,
    pub avg_decode_rate: String,
    /// The parts of the last prompt, where they are known.
    pub parts: PartTexts,
}

/// The texts of the parts of a prompt.
#[derive(Debug)]
pub struct PartTexts {
    pub system: String,
    pub tools: String,
    pub skills: String,
    pub memory: String,
    pub history: String,
    pub latest_user: String,
    pub sum: String,
}

/// The lines on the last call and the averages.
pub open spec fn call_lines(d: Digest, w: SessionTexts) -> Seq<Seq<char>> {
    let last = d.samples@.last();
    seq![
        "Summary"@,
        "  calls "@ + padded(dec(d.samples@.len()), 5) + " compactions "@ + padded(
            dec(d.compactions@.len()),
            5,
        ) + " peak ctx "@ + w.peak_ctx@,
        Seq::<char>::empty(),
        "Latest Call"@,
        pair_line("ctx"@, last.shown.ctx@, "output"@, dec(last.completion_tokens as nat)),
        pair_line("reasoning"@, dec(last.reasoning_tokens as nat), "first"@, last.shown.first@),
        pair_line("total"@, last.shown.total@, "prompt/s"@, last.shown.prompt_rate@),
        "  "@ + padded("decode/s"@, 11) + " "@ + last.shown.decode_rate@,
        Seq::<char>::empty(),
        "Averages"@,
        pair_line("first"@, w.avg_first@, "total"@, w.avg_total@),
        pair_line("prompt/s"@, w.avg_prompt_rate@, "decode/s"@, w.avg_decode_rate@),
    ]
}

/// The lines on the parts of the last prompt.
pub open spec fn part_lines(d: Digest, w: SessionTexts) -> Seq<Seq<char>> {
    if d.samples@.last().context_breakdown is None {
        seq![]
    } else {
        let p = w.parts;
        seq![
            Seq::<char>::empty(),
            "Context Breakdown"@,
            pair_line("system"@, p.system@, "tools"@, p.tools@),
            pair_line("skills"@, p.skills@, "memory"@, p.memory@),
            pair_line("history"@, p.history@, "latest user"@, p.latest_user@),
            pair_line("est sum"@, p.sum@, "provider"@, d.samples@.last().shown.ctx@),
        ]
    }
}

/// The lines on the last compaction.
pub open spec fn compaction_lines(d: Digest) -> Seq<Seq<char>> {
    if d.compactions@.len() == 0 {
        seq![]
    } else {
        let c = d.compactions@.last();
        seq![
            Seq::<char>::empty(),
            "Compaction"@,
            "  latest      ~"@ + dec(c.0 as nat) + " -> ~"@ + dec(c.1 as nat) + " tokens"@,
        ]
    }
}

/// The line of a recent call.
pub open spec fn recent_line(d: Digest, i: int) -> Seq<char> {
    let s = d.samples@[i];
    let age = if s.ts >= d.start {
        (s.ts - d.start) as nat
    } else {
        0
    };
    "  "@ + padded(dec((i + 1) as nat), 4) + " "@ + spaces_before(dec(age), 4) + "s  "@ + padded(
        s.shown.ctx@,
        7,
    ) + " "@ + padded(s.shown.first@, 8) + " "@ + padded(s.shown.total@, 8) + " "@
        + s.shown.decode_rate@
}

/// The first of the last eight calls.
pub open spec fn recent_from(d: Digest) -> int {
    if d.samples@.len() > 8 {
        d.samples@.len() - 8
    } else {
        0
    }
}

/// The lines of the last eight calls.
pub open spec fn recent_lines(d: Digest) -> Seq<Seq<char>> {
    seq![
        Seq::<char>::empty(),
        "Recent Calls"@,
        "  #    age    ctx      first    total    decode/s"@,
    ] + Seq::new(
        (d.samples@.len() - recent_from(d)) as nat,
        |k: int| recent_line(d, recent_from(d) + k),
    )
}

/// The report on a session.
pub open spec fn report_of(d: Digest, w: SessionTexts, accounts: Seq<Seq<char>>) -> Seq<Seq<char>> {
    if d.samples@.len() == 0 {
        seq!["metrics: no model metrics recorded yet"@] + accounts
    } else {
        call_lines(d, w) + part_lines(d, w) + compaction_lines(d) + recent_lines(d) + accounts
    }
}

fn blank_line() -> (r: String)
    ensures
        r@ == Seq::<char>::empty(),
{
    let r = String::new();
    assert(r@ =~= Seq::<char>::empty());
    r
}

fn append_all(out: &mut Vec<String>, more: Vec<String>)
    ensures
        views(final(out)@) == views(old(out)@) + views(more@),
{
    let mut more = more;
    let ghost a = views(out@);
    let ghost b = views(more@);
    out.append(&mut more);
    assert(views(out@) =~= a + b);
}

fn show_calls(d: &Digest, w: &SessionTexts) -> (r: Vec<String>)
    requires
        d.samples@.len() > 0,
    ensures
        views(r@) == call_lines(*d, *w),
{
    let last = &d.samples[d.samples.len() - 1];
    let mut out: Vec<String> = Vec::new();
    out.push("Summary".to_owned());
    let mut s = "  calls ".to_owned();
    s.append(pad(decimal(d.samples.len() as u128).as_str(), 5).as_str());
    s.append(" compactions ");
    s.append(pad(decimal(d.compactions.len() as u128).as_str(), 5).as_str());
    s.append(" peak ctx ");
    s.append(w.peak_ctx.as_str());
    out.push(s);
    out.push(blank_line());
    out.push("Latest Call".to_owned());
    out.push(
        metric_pair_line(
            "ctx",
            last.shown.ctx.as_str(),
            "output",
            decimal(last.completion_tokens as u128).as_str(),
        ),
    );
    out.push(
        metric_pair_line(
            "reasoning",
            decimal(last.reasoning_tokens as u128).as_str(),
            "first",
            last.shown.first.as_str(),
        ),
    );
    out.push(
        metric_pair_line(
            "total",
            last.shown.total.as_str(),
            "prompt/s",
            last.shown.prompt_rate.as_str(),
        ),
    );
    let mut s = "  ".to_owned();
    s.append(pad("decode/s", 11).as_str());
    s.append(" ");
    s.append(last.shown.decode_rate.as_str());
    out.push(s);
    out.push(blank_line());
    out.push("Averages".to_owned());
    out.push(metric_pair_line("first", w.avg_first.as_str(), "total", w.avg_total.as_str()));
    out.push(
        metric_pair_line(
            "prompt/s",
            w.avg_prompt_rate.as_str(),
            "decode/s",
            w.avg_decode_rate.as_str(),
        ),
    );
    assert(views(out@) =~= call_lines(*d, *w));
    out
}

fn show_parts(d: &Digest, w: &SessionTexts) -> (r: Vec<String>)
    requires
        d.samples@.len() > 0,
    ensures
        views(r@) == part_lines(*d, *w),
{
    let last = &d.samples[d.samples.len() - 1];
    let mut out: Vec<String> = Vec::new();
    if last.context_breakdown.is_some() {
        let p = &w.parts;
        out.push(blank_line());
        out.push("Context Breakdown".to_owned());
        out.push(metric_pair_line("system", p.system.as_str(), "tools", p.tools.as_str()));
        out.push(metric_pair_line("skills", p.skills.as_str(), "memory", p.memory.as_str()));
        out.push(
            metric_pair_line("history", p.history.as_str(), "latest user", p.latest_user.as_str()),
        );
        out.push(metric_pair_line("est sum", p.sum.as_str(), "provider", last.shown.ctx.as_str()));
    }
    assert(views(out@) =~= part_lines(*d, *w));
    out
}

fn show_compaction(d: &Digest) -> (r: Vec<String>)
    ensures
        views(r@) == compaction_lines(*d),
{
    let mut out: Vec<String> = Vec::new();
    if d.compactions.len() > 0 {
        let (before, after) = d.compactions[d.compactions.len() - 1];
        out.push(blank_line());
        out.push("Compaction".to_owned());
        let mut s = "  latest      ~".to_owned();
        s.append(decimal(before as u128).as_str());
        s.append(" -> ~");
        s.append(decimal(after as u128).as_str());
        s.append(" tokens");
        out.push(s);
    }
    assert(views(out@) =~= compaction_lines(*d));
    out
}

fn show_recent(d: &Digest) -> (r: Vec<String>)
    ensures
        views(r@) == recent_lines(*d),
{
    let n = d.samples.len();
    let from: usize = if n > 8 {
        n - 8
    } else {
        0
    };
    let mut out: Vec<String> = Vec::new();
    out.push(blank_line());
    out.push("Recent Calls".to_owned());
    out.push("  #    age    ctx      first    total    decode/s".to_owned());
    let ghost all = recent_lines(*d);
    let mut i: usize = from;
    assert(views(out@) =~= all.take(3));
    while i < n
        invariant
            from <= i <= n == d.samples@.len(),
            from == recent_from(*d),
            all == recent_lines(*d),
            views(out@) == all.take(3 + i - from),
        decreases n - i,
    {
        let s = &d.samples[i];
        let age: u64 = if s.ts >= d.start {
            s.ts - d.start
        } else {
            0
        };
        let mut l = "  ".to_owned();
        l.append(pad(decimal(i as u128 + 1).as_str(), 4).as_str());
        l.append(" ");
        l.append(pad_before(decimal(age as u128).as_str(), 4).as_str());
        l.append("s  ");
        l.append(pad(s.shown.ctx.as_str(), 7).as_str());
        l.append(" ");
        l.append(pad(s.shown.first.as_str(), 8).as_str());
        l.append(" ");
        l.append(pad(s.shown.total.as_str(), 8).as_str());
        l.append(" ");
        l.append(s.shown.decode_rate.as_str());
        assert(l@ == recent_line(*d, i as int));
        assert(all[3 + i - from] == l@);
        out.push(l);
        assert(all.take(3 + i + 1 - from) =~= all.take(3 + i - from).push(all[3 + i - from]));
        i = i + 1;
    }
    assert(all.take(3 + i - from) =~= all);
    out
}

/// The report on a session: its calls, then its accounts.
pub fn report(d: &Digest, w: &SessionTexts, accounts: Vec<String>) -> (r: Vec<String>)
    ensures
        views(r@) == report_of(*d, *w, views(accounts@)),
{
    if d.samples.len() == 0 {
        let mut out: Vec<String> = Vec::new();
        out.push("metrics: no model metrics recorded yet".to_owned());
        append_all(&mut out, accounts);
        assert(views(out@) =~= report_of(*d, *w, views(accounts@)));
        return out;
    }
    let mut out = show_calls(d, w);
    append_all(&mut out, show_parts(d, w));
    append_all(&mut out, show_compaction(d));
    append_all(&mut out, show_recent(d));
    append_all(&mut out, accounts);
    out
}

// ---- the accounts -----------------------------------------------------------

/// How a cost is labelled: what is known, and how many calls it leaves out.
pub open spec fn cost_words(t: Totals) -> Seq<char> {
    if t.unpriced_calls == 0 {
        "$"@ + t.shown.known_cost@
    } else {
        "$"@ + t.shown.known_cost@ + " + "@ + dec(t.unpriced_calls as nat) + " unpriced calls"@
    }
}

/// The lines on totals.
pub open spec fn total_lines(t: Totals) -> Seq<Seq<char>> {
    seq![
        "  calls "@ + dec(t.calls as nat) + " tools "@ + dec(t.tool_calls as nat) + " in "@ + dec(
            t.prompt_tokens as nat,
        ) + " out "@ + dec(t.completion_tokens as nat),
        "  reasoning "@ + dec(t.reasoning_tokens as nat) + " model "@ + t.shown.model_time@
            + " cost "@ + cost_words(t),
    ]
}

impl Totals {
    /// How the cost is labelled.
    pub fn cost_label(&self) -> (r: String)
        ensures
            r@ == cost_words(*self),
    {
        let mut s = "$".to_owned();
        s.append(self.shown.known_cost.as_str());
        if self.unpriced_calls > 0 {
            s.append(" + ");
            s.append(decimal(self.unpriced_calls).as_str());
            s.append(" unpriced calls");
        }
        s
    }

    /// The lines on totals.
    pub fn report_lines(&self) -> (r: Vec<String>)
        ensures
            views(r@) == total_lines(*self),
    {
        let mut out: Vec<String> = Vec::new();
        let mut s = "  calls ".to_owned();
        s.append(decimal(self.calls).as_str());
        s.append(" tools ");
        s.append(decimal(self.tool_calls).as_str());
        s.append(" in ");
        s.append(decimal(self.prompt_tokens).as_str());
        s.append(" out ");
        s.append(decimal(self.completion_tokens).as_str());
        out.push(s);
        let mut s = "  reasoning ".to_owned();
        s.append(decimal(self.reasoning_tokens).as_str());
        s.append(" model ");
        s.append(self.shown.model_time.as_str());
        s.append(" cost ");
        s.append(self.cost_label().as_str());
        out.push(s);
        assert(views(out@) =~= total_lines(*self));
        out
    }
}

/// The lines on the cache: what the provider did not report is not shown as zero.
pub open spec fn cache_lines(t: Totals) -> Seq<Seq<char>> {
    seq![
        if t.cache_reported_calls == 0 {
            "  cache n/a (provider did not report it)"@
        } else {
            "  cache "@ + dec(t.cached_tokens as nat) + " / "@ + dec(t.cache_prompt_tokens as nat)
                + " tokens ("@ + t.shown.cache_rate@ + "%; "@ + dec(t.cache_reported_calls as nat)
                + "/"@ + dec(t.calls as nat) + " calls reported)"@
        },
        Seq::<char>::empty(),
    ] + (if t.cache_write_reported_calls > 0 {
        seq![
            "  cache writes "@ + dec(t.cache_write_tokens as nat) + " tokens ("@ + dec(
                t.cache_write_reported_calls as nat,
            ) + "/"@ + dec(t.calls as nat) + " calls reported)"@,
            Seq::<char>::empty(),
        ]
    } else {
        seq![]
    })
}

fn show_cache(t: &Totals) -> (r: Vec<String>)
    ensures
        views(r@) == cache_lines(*t),
{
    let mut out: Vec<String> = Vec::new();
    if t.cache_reported_calls == 0 {
        out.push("  cache n/a (provider did not report it)".to_owned());
    } else {
        let mut s = "  cache ".to_owned();
        s.append(decimal(t.cached_tokens).as_str());
        s.append(" / ");
        s.append(decimal(t.cache_prompt_tokens).as_str());
        s.append(" tokens (");
        s.append(t.shown.cache_rate.as_str());
        s.append("%; ");
        s.append(decimal(t.cache_reported_calls).as_str());
        s.append("/");
        s.append(decimal(t.calls).as_str());
        s.append(" calls reported)");
        out.push(s);
    }
    out.push(blank_line());
    if t.cache_write_reported_calls > 0 {
        let mut s = "  cache writes ".to_owned();
        s.append(decimal(t.cache_write_tokens).as_str());
        s.append(" tokens (");
        s.append(decimal(t.cache_write_reported_calls).as_str());
        s.append("/");
        s.append(decimal(t.calls).as_str());
        s.append(" calls reported)");
        out.push(s);
        out.push(blank_line());
    }
    assert(views(out@) =~= cache_lines(*t));
    out
}

/// The lines on the models.
pub open spec fn model_lines(ms: Seq<(String, Totals)>) -> Seq<Seq<char>> {
    Seq::new(
        ms.len(),
        |i: int|
            "  "@ + ms[i].0@ + ": "@ + cost_words(ms[i].1) + " ("@ + dec(ms[i].1.calls as nat)
                + " calls)"@,
    )
}

fn show_models(ms: &Vec<(String, Totals)>) -> (r: Vec<String>)
    ensures
        views(r@) == model_lines(ms@),
{
    let ghost all = model_lines(ms@);
    let mut out: Vec<String> = Vec::new();
    let mut i: usize = 0;
    assert(views(out@) =~= all.take(0));
    while i < ms.len()
        invariant
            i <= ms@.len(),
            all == model_lines(ms@),
            views(out@) == all.take(i as int),
        decreases ms.len() - i,
    {
        let mut s = "  ".to_owned();
        s.append(ms[i].0.as_str());
        s.append(": ");
        s.append(ms[i].1.cost_label().as_str());
        s.append(" (");
        s.append(decimal(ms[i].1.calls).as_str());
        s.append(" calls)");
        out.push(s);
        assert(all.take(i + 1) =~= all.take(i as int).push(all[i as int]));
        i = i + 1;
    }
    assert(all.take(i as int) =~= all);
    out
}

/// The lines on a turn.
pub open spec fn turn_lines(t: Turn) -> Seq<Seq<char>> {
    seq![
        "  #"@ + dec(t.number as nat) + " "@ + (match t.outcome {
            Some(o) => o@,
            None => "in progress / incomplete"@,
        }) + (match t.validation {
            Some(true) => " (validated)"@,
            Some(false) => " (validation failed)"@,
            None => Seq::<char>::empty(),
        }),
    ] + total_lines(t.totals) + seq![
        "    context last "@ + dec(t.last_context as nat) + " peak "@ + dec(t.peak_context as nat),
    ] + (match t.last_context_breakdown {
        Some(b) => seq![
            "    estimated: system "@ + dec(b.system_tokens as nat) + " tools "@ + dec(
                b.tool_schema_tokens as nat,
            ) + " skills "@ + dec(b.loaded_skill_tokens as nat),
            "    memory "@ + dec(b.memory_tokens as nat) + " history "@ + dec(
                b.history_tokens as nat,
            ) + " user "@ + dec(b.latest_user_tokens as nat),
        ],
        None => seq![],
    })
}

fn show_turn(t: &Turn) -> (r: Vec<String>)
    ensures
        views(r@) == turn_lines(*t),
{
    let mut out: Vec<String> = Vec::new();
    let mut s = "  #".to_owned();
    s.append(decimal(t.number).as_str());
    s.append(" ");
    match &t.outcome {
        Some(o) => s.append(o.as_str()),
        None => s.append("in progress / incomplete"),
    }
    match t.validation {
        Some(true) => s.append(" (validated)"),
        Some(false) => s.append(" (validation failed)"),
        None => {
            assert(s@ =~= s@ + Seq::<char>::empty());
        },
    }
    out.push(s);
    append_all(&mut out, t.totals.report_lines());
    let mut s = "    context last ".to_owned();
    s.append(decimal(t.last_context as u128).as_str());
    s.append(" peak ");
    s.append(decimal(t.peak_context as u128).as_str());
    out.push(s);
    if let Some(b) = t.last_context_breakdown {
        let mut s = "    estimated: system ".to_owned();
        s.append(decimal(b.system_tokens as u128).as_str());
        s.append(" tools ");
        s.append(decimal(b.tool_schema_tokens as u128).as_str());
        s.append(" skills ");
        s.append(decimal(b.loaded_skill_tokens as u128).as_str());
        out.push(s);
        let mut s = "    memory ".to_owned();
        s.append(decimal(b.memory_tokens as u128).as_str());
        s.append(" history ");
        s.append(decimal(b.history_tokens as u128).as_str());
        s.append(" user ");
        s.append(decimal(b.latest_user_tokens as u128).as_str());
        out.push(s);
    }
    assert(views(out@) =~= turn_lines(*t));
    out
}

/// The lines on the first `n` turns.
pub open spec fn turns_lines(ts: Seq<Turn>, n: nat) -> Seq<Seq<char>>
    decreases n,
{
    if n == 0 {
        seq![]
    } else {
        turns_lines(ts, (n - 1) as nat) + turn_lines(ts[n - 1])
    }
}

fn show_turns(ts: &Vec<Turn>) -> (r: Vec<String>)
    ensures
        views(r@) == turns_lines(ts@, ts@.len()),
{
    let mut out: Vec<String> = Vec::new();
    let mut i: usize = 0;
    assert(views(out@) =~= seq![]);
    while i < ts.len()
        invariant
            i <= ts@.len(),
            views(out@) == turns_lines(ts@, i as nat),
        decreases ts.len() - i,
    {
        append_all(&mut out, show_turn(&ts[i]));
        i = i + 1;
    }
    out
}

/// The turns in which a model was called, by their places.
pub open spec fn costly(ts: Seq<Turn>, n: nat) -> Seq<usize>
    decreases n,
{
    if n == 0 {
        seq![]
    } else if ts[n - 1].totals.calls > 0 {
        costly(ts, (n - 1) as nat).push((n - 1) as usize)
    } else {
        costly(ts, (n - 1) as nat)
    }
}

/// The dearer turn comes first.
pub open spec fn dearer(ts: Seq<Turn>) -> spec_fn(usize, usize) -> bool {
    |a: usize, b: usize|
        a < ts.len() && b < ts.len() && ts[a as int].totals.shown.cost_rank
            > ts[b as int].totals.shown.cost_rank
}

/// The line of a turn's cost.
pub open spec fn dear_line(t: Turn) -> Seq<char> {
    "  #"@ + dec(t.number as nat) + " "@ + cost_words(t.totals)
}

/// The lines of the dearest of these turns, five at most.
pub open spec fn dearest_lines(ts: Seq<Turn>, order: Seq<usize>) -> Seq<Seq<char>> {
    if order.len() == 0 {
        seq![]
    } else {
        seq!["Highest Known Turn Costs"@] + Seq::new(
            if order.len() > 5 {
                5
            } else {
                order.len()
            },
            |i: int| dear_line(ts[order[i] as int]),
        )
    }
}

proof fn lemma_costly(ts: Seq<Turn>, n: nat)
    requires
        n <= ts.len(),
        ts.len() <= usize::MAX,
    ensures
        forall|i: int| 0 <= i < costly(ts, n).len() ==> (#[trigger] costly(ts, n)[i]) < ts.len(),
    decreases n,
{
    if n > 0 {
        lemma_costly(ts, (n - 1) as nat);
        let before = costly(ts, (n - 1) as nat);
        assert forall|i: int| 0 <= i < costly(ts, n).len() implies (#[trigger] costly(ts, n)[i])
            < ts.len() by {
            if i < before.len() {
                assert(before[i] < ts.len());
            }
        }
    }
}

fn show_dearest(ts: &Vec<Turn>) -> (r: Vec<String>)
    ensures
        views(r@) == dearest_lines(ts@, ranked(costly(ts@, ts@.len()), dearer(ts@))),
{
    let mut found: Vec<usize> = Vec::new();
    let mut i: usize = 0;
    assert(found@ =~= seq![]);
    while i < ts.len()
        invariant
            i <= ts@.len(),
            found@ == costly(ts@, i as nat),
        decreases ts.len() - i,
    {
        if ts[i].totals.calls > 0 {
            found.push(i);
        }
        i = i + 1;
    }
    let order = in_rank(
        found,
        |a: &usize, b: &usize| -> (c: bool) ensures c == dearer(ts@)(*a, *b) { *a < ts.len() && *b < ts.len() && ts[*a].totals.shown.cost_rank > ts[*b].totals.shown.cost_rank },
        Ghost(dearer(ts@)),
    );
    let ghost all = dearest_lines(ts@, order@);
    let mut out: Vec<String> = Vec::new();
    if order.len() == 0 {
        assert(views(out@) =~= seq![]);
        return out;
    }
    out.push("Highest Known Turn Costs".to_owned());
    let n: usize = if order.len() > 5 {
        5
    } else {
        order.len()
    };
    proof {
        lemma_costly(ts@, ts@.len());
        lemma_ranked_bound(costly(ts@, ts@.len()), dearer(ts@), ts@.len());
    }
    let mut k: usize = 0;
    assert(views(out@) =~= all.take(1));
    while k < n
        invariant
            k <= n <= order@.len(),
            n == if order@.len() > 5 {
                5
            } else {
                order@.len()
            },
            order@.len() > 0,
            forall|i: int| 0 <= i < order@.len() ==> (#[trigger] order@[i]) < ts@.len(),
            all == dearest_lines(ts@, order@),
            views(out@) == all.take(1 + k),
        decreases n - k,
    {
        let at = order[k];
        let t = &ts[at];
        let mut s = "  #".to_owned();
        s.append(decimal(t.number).as_str());
        s.append(" ");
        s.append(t.totals.cost_label().as_str());
        assert(all[1 + k] == s@);
        out.push(s);
        assert(all.take(1 + k + 1) =~= all.take(1 + k).push(all[1 + k]));
        k = k + 1;
    }
    assert(all.take(1 + k) =~= all);
    out
}

proof fn lemma_ranked_bound(s: Seq<usize>, before: spec_fn(usize, usize) -> bool, n: nat)
    requires
        forall|i: int| 0 <= i < s.len() ==> (#[trigger] s[i]) < n,
    ensures
        forall|i: int| 0 <= i < ranked(s, before).len() ==> (#[trigger] ranked(s, before)[i]) < n,
    decreases s.len(),
{
    if s.len() > 0 {
        let t = s.drop_last();
        assert forall|i: int| 0 <= i < t.len() implies (#[trigger] t[i]) < n by {
            assert(t[i] == s[i]);
        }
        lemma_ranked_bound(t, before, n);
        let q = ranked(t, before);
        let p = crate::ranking::place(q, s.last(), before) as int;
        crate::ranking::lemma_place(q, s.last(), before);
        assert forall|i: int| 0 <= i < ranked(s, before).len() implies (#[trigger] ranked(
            s,
            before,
        )[i]) < n by {
            let r = q.insert(p, s.last());
            assert(ranked(s, before) == r);
            if i < p {
                assert(r[i] == q[i]);
            } else if i > p {
                assert(r[i] == q[i - 1]);
            } else {
                assert(r[i] == s.last());
            }
        }
    }
}

/// The lines on the accounts of a session.
pub open spec fn account_lines(a: Accounting) -> Seq<Seq<char>> {
    seq![
        Seq::<char>::empty(),
        "Session Totals"@,
        "  turns "@ + dec(a.turns@.len()) + " compactions "@ + dec(a.totals.compactions as nat)
            + " nudges "@ + dec(a.totals.nudges as nat),
    ] + total_lines(a.totals) + cache_lines(a.totals) + seq![
        "Cost by Model (estimate at configured standard rates)"@,
    ] + model_lines(a.models@) + seq![Seq::<char>::empty(), "Per-Turn History"@] + turns_lines(
        a.turns@,
        a.turns@.len(),
    ) + dearest_lines(a.turns@, ranked(costly(a.turns@, a.turns@.len()), dearer(a.turns@)))
}

impl Accounting {
    /// The lines on the accounts of a session.
    pub fn report(&self) -> (r: Vec<String>)
        ensures
            views(r@) == account_lines(*self),
    {
        let mut out: Vec<String> = Vec::new();
        out.push(blank_line());
        out.push("Session Totals".to_owned());
        let mut s = "  turns ".to_owned();
        s.append(decimal(self.turns.len() as u128).as_str());
        s.append(" compactions ");
        s.append(decimal(self.totals.compactions).as_str());
        s.append(" nudges ");
        s.append(decimal(self.totals.nudges).as_str());
        out.push(s);
        assert(views(out@) =~= seq![Seq::<char>::empty(), "Session Totals"@, s@]);
        append_all(&mut out, self.totals.report_lines());
        append_all(&mut out, show_cache(&self.totals));
        let ghost before = views(out@);
        out.push("Cost by Model (estimate at configured standard rates)".to_owned());
        assert(views(out@) =~= before + seq![
            "Cost by Model (estimate at configured standard rates)"@,
        ]);
        append_all(&mut out, show_models(&self.models));
        let ghost before = views(out@);
        out.push(blank_line());
        out.push("Per-Turn History".to_owned());
        assert(views(out@) =~= before + seq![Seq::<char>::empty(), "Per-Turn History"@]);
        append_all(&mut out, show_turns(&self.turns));
        append_all(&mut out, show_dearest(&self.turns));
        out
    }
}

// ---- workers ----------------------------------------------------------------

/// The accounts of a worker's own session.
#[derive(Debug)]
pub struct WorkerMetrics {
    pub id: String,
    pub session_id: String,
    pub accounting: Accounting,
}

/// What is to be done about a link from a session to a worker's.
#[derive(Debug)]
pub enum Link {
    /// It was followed before.
    Known,
    /// It cannot be followed; this is said.
    Bad(String),
    /// Its session is looked for here first.
    Look(String),
}

/// Decide on a link: only the workers that a session names are loaded, each of them
/// once.
pub fn follow_link(seen: &mut TextSet, id: &str, session_id: &str, path: &str) -> (r: Link)
    ensures
        if old(seen)@.contains(session_id@) {
            r is Known && final(seen)@ == old(seen)@
        } else {
            &&& final(seen)@ == old(seen)@.insert(session_id@)
            &&& if uuid_text(session_id@) is None {
                r matches Link::Bad(w) && w@ == id@ + ": invalid worker session id"@
            } else {
                r matches Link::Look(p) && p@ == path_renamed(path@, session_id@ + ".jsonl"@)
            }
        },
{
    if seen.contains(session_id) {
        return Link::Known;
    }
    seen.insert(session_id);
    if !is_id(session_id) {
        let mut w = id.to_owned();
        w.append(": invalid worker session id");
        return Link::Bad(w);
    }
    let mut name = session_id.to_owned();
    name.append(".jsonl");
    Link::Look(with_file_name(path, name.as_str()))
}

/// What is said of a worker that links to its parent. Paths are compared by their
/// components.
pub fn parent_link(id: &str, worker_path: &str, path: &str) -> (r: Option<String>)
    ensures
        opt_view(r) == if components(worker_path@) == components(path@) {
            Some(id@ + ": worker links to parent"@)
        } else {
            None
        },
{
    if same_path(worker_path, path) {
        let mut w = id.to_owned();
        w.append(": worker links to parent");
        Some(w)
    } else {
        None
    }
}

/// The lines on a worker.
pub open spec fn worker_lines(w: WorkerMetrics) -> Seq<Seq<char>> {
    seq!["  "@ + w.id@ + " ["@ + w.session_id@ + "]"@] + total_lines(w.accounting.totals)
        + Seq::new(
        w.accounting.models@.len(),
        |i: int|
            "    "@ + w.accounting.models@[i].0@ + ": "@ + cost_words(w.accounting.models@[i].1),
    )
}

fn show_worker(w: &WorkerMetrics) -> (r: Vec<String>)
    ensures
        views(r@) == worker_lines(*w),
{
    let mut out: Vec<String> = Vec::new();
    let mut s = "  ".to_owned();
    s.append(w.id.as_str());
    s.append(" [");
    s.append(w.session_id.as_str());
    s.append("]");
    out.push(s);
    assert(views(out@) =~= seq![s@]);
    append_all(&mut out, w.accounting.totals.report_lines());
    let ms = &w.accounting.models;
    let ghost head = views(out@);
    let ghost all = Seq::new(
        ms@.len(),
        |i: int| "    "@ + ms@[i].0@ + ": "@ + cost_words(ms@[i].1),
    );
    let mut i: usize = 0;
    assert(views(out@) =~= head + all.take(0));
    while i < ms.len()
        invariant
            i <= ms@.len(),
            all == Seq::new(
                ms@.len(),
                |i: int| "    "@ + ms@[i].0@ + ": "@ + cost_words(ms@[i].1),
            ),
            views(out@) == head + all.take(i as int),
        decreases ms.len() - i,
    {
        let mut s = "    ".to_owned();
        s.append(ms[i].0.as_str());
        s.append(": ");
        s.append(ms[i].1.cost_label().as_str());
        out.push(s);
        assert(all.take(i + 1) =~= all.take(i as int).push(all[i as int]));
        assert(views(out@) =~= head + all.take(i + 1));
        i = i + 1;
    }
    assert(all.take(i as int) =~= all);
    out
}

/// The lines on the first `n` workers.
pub open spec fn workers_lines(ws: Seq<WorkerMetrics>, n: nat) -> Seq<Seq<char>>
    decreases n,
{
    if n == 0 {
        seq![]
    } else {
        workers_lines(ws, (n - 1) as nat) + worker_lines(ws[n - 1])
    }
}

/// The warnings, indented.
pub open spec fn warning_lines(ws: Seq<Seq<char>>) -> Seq<Seq<char>> {
    Seq::new(ws.len(), |i: int| "  "@ + ws[i])
}

/// The section on workers: nothing where there are none and nothing is to be said.
pub open spec fn worker_section(
    ws: Seq<WorkerMetrics>,
    warnings: Seq<Seq<char>>,
    combined: Totals,
) -> Seq<Seq<char>> {
    if ws.len() == 0 && warnings.len() == 0 {
        seq![]
    } else {
        seq![Seq::<char>::empty(), "Workers (separate sessions)"@] + workers_lines(ws, ws.len())
            + warning_lines(warnings) + seq!["Parent + Available Workers"@] + total_lines(combined)
    }
}

/// The section on workers.
pub fn workers_report(ws: &Vec<WorkerMetrics>, warnings: &Vec<String>, combined: &Totals) -> (r: Vec<
    String,
>)
    ensures
        views(r@) == worker_section(ws@, views(warnings@), *combined),
{
    let mut out: Vec<String> = Vec::new();
    if ws.len() == 0 && warnings.len() == 0 {
        assert(views(out@) =~= seq![]);
        return out;
    }
    out.push(blank_line());
    out.push("Workers (separate sessions)".to_owned());
    let ghost top = seq![Seq::<char>::empty(), "Workers (separate sessions)"@];
    let mut i: usize = 0;
    assert(views(out@) =~= top + workers_lines(ws@, 0));
    while i < ws.len()
        invariant
            i <= ws@.len(),
            views(out@) == top + workers_lines(ws@, i as nat),
        decreases ws.len() - i,
    {
        append_all(&mut out, show_worker(&ws[i]));
        assert(views(out@) =~= top + workers_lines(ws@, (i + 1) as nat));
        i = i + 1;
    }
    let ghost head = views(out@);
    let ghost all = warning_lines(views(warnings@));
    let mut k: usize = 0;
    assert(views(out@) =~= head + all.take(0));
    while k < warnings.len()
        invariant
            k <= warnings@.len(),
            all == warning_lines(views(warnings@)),
            views(out@) == head + all.take(k as int),
        decreases warnings.len() - k,
    {
        let mut s = "  ".to_owned();
        s.append(warnings[k].as_str());
        out.push(s);
        assert(all.take(k + 1) =~= all.take(k as int).push(all[k as int]));
        assert(views(out@) =~= head + all.take(k + 1));
        k = k + 1;
    }
    assert(all.take(k as int) =~= all);
    let ghost before = views(out@);
    out.push("Parent + Available Workers".to_owned());
    assert(views(out@) =~= before + seq!["Parent + Available Workers"@]);
    append_all(&mut out, combined.report_lines());
    assert(views(warnings@).len() == warnings@.len());
    out
}

/// The whole report on a session and its workers.
pub fn session_report(
    d: &Digest,
    w: &SessionTexts,
    accounting: &Accounting,
    workers: &Vec<WorkerMetrics>,
    warnings: &Vec<String>,
    combined: &Totals,
) -> (r: Vec<String>)
    ensures
        views(r@) == report_of(*d, *w, account_lines(*accounting)) + worker_section(
            workers@,
            views(warnings@),
            *combined,
        ),
{
    let mut lines = report(d, w, accounting.report());
    append_all(&mut lines, workers_report(workers, warnings, combined));
    lines
}

/// A call that is no helper's is a sample of just what it reports; nothing else is one.
pub proof fn a_sample_is_what_the_call_reports(ev: TimedEvent, at: usize)
    ensures
        match ev.event {
            Event::ModelMetrics {
                purpose,
                prompt_tokens,
                completion_tokens,
                reasoning_tokens,
                context_breakdown,
                total_ms,
                first_output_ms,
                ..
            } => if purpose@ == "helper"@ {
                sample_of(ev, at) is None
            } else {
                sample_of(ev, at) matches Some(m) && {
                    &&& m.at == at
                    &&& m.ts == ev.ts
                    &&& m.prompt_tokens == prompt_tokens
                    &&& m.completion_tokens == completion_tokens
                    &&& m.reasoning_tokens == reasoning_tokens
                    &&& m.context_breakdown == context_breakdown
                    &&& m.total_ms == total_ms
                    &&& m.first_output_ms == first_output_ms
                }
            },
            _ => sample_of(ev, at) is None,
        },
{
}

/// Every sample stands in its place, and so does every compaction, with what it left of how
/// much.
pub proof fn every_call_and_compaction_is_listed(evs: Seq<TimedEvent>, n: nat)
    requires
        0 < n <= evs.len(),
    ensures
        ({
            let m = (n - 1) as nat;
            &&& sample_of(evs[n - 1], (n - 1) as usize) matches Some(x) ==> samples_in(evs, n)
                == samples_in(evs, m).push(x)
            &&& sample_of(evs[n - 1], (n - 1) as usize) is None ==> samples_in(evs, n)
                == samples_in(evs, m)
            &&& evs[n - 1].event matches Event::Compaction { tokens_before, tokens_after, .. }
                ==> compactions_in(evs, n) == compactions_in(evs, m).push(
                (tokens_before, tokens_after),
            )
            &&& !(evs[n - 1].event is Compaction) ==> compactions_in(evs, n) == compactions_in(
                evs,
                m,
            )
        }),
{
}

/// The peak is the last call with the largest prompt.
pub proof fn the_peak_has_the_largest_prompt(ms: Seq<Measured>, n: nat)
    requires
        0 < n <= ms.len(),
    ensures
        0 <= peak_in(ms, n) < n,
        forall|i: int|
            0 <= i < n ==> (#[trigger] ms[i]).prompt_tokens <= ms[peak_in(ms, n)].prompt_tokens,
        forall|i: int|
            peak_in(ms, n) < i < n ==> (#[trigger] ms[i]).prompt_tokens
                < ms[peak_in(ms, n)].prompt_tokens,
    decreases n,
{
    if n > 1 {
        the_peak_has_the_largest_prompt(ms, (n - 1) as nat);
    }
}

/// A line of totals tells the prompt tokens as what went in, and ends with the completion
/// tokens as what came out; the line behind it begins with the reasoning tokens.
pub proof fn a_total_tells_what_went_in_and_out(t: Totals)
    ensures
        ({
            let l = total_lines(t)[0];
            let out = " out "@ + dec(t.completion_tokens as nat);
            let both = " in "@ + dec(t.prompt_tokens as nat) + out;
            &&& l.len() >= both.len() && l.skip(l.len() - both.len()) == both
            &&& l.take(l.len() - both.len()) == "  calls "@ + dec(t.calls as nat) + " tools "@ + dec(
                t.tool_calls as nat,
            )
        }),
        ({
            let h = "  reasoning "@ + dec(t.reasoning_tokens as nat);
            &&& total_lines(t)[1].len() >= h.len()
            &&& total_lines(t)[1].take(h.len() as int) == h
        }),
{
    let l = total_lines(t)[0];
    let out = " out "@ + dec(t.completion_tokens as nat);
    let both = " in "@ + dec(t.prompt_tokens as nat) + out;
    let head = "  calls "@ + dec(t.calls as nat) + " tools "@ + dec(t.tool_calls as nat);
    assert(l =~= head + both);
    assert(l.skip(l.len() - both.len()) =~= both);
    assert(l.take(l.len() - both.len()) =~= head);
    let h = "  reasoning "@ + dec(t.reasoning_tokens as nat);
    assert(total_lines(t)[1].take(h.len() as int) =~= h);
}

/// The time to the first output is taken of each call that reports one, in order.
pub proof fn each_first_time_is_taken(ms: Seq<Measured>, m: Measured)
    ensures
        m.first_output_ms matches Some(x) ==> first_times_of(ms.push(m)) == first_times_of(ms).push(
            x,
        ),
        m.first_output_ms is None ==> first_times_of(ms.push(m)) == first_times_of(ms),
{
    assert(ms.push(m).drop_last() =~= ms);
}

} // verus!
