//! Fan-out: turning one `/spawn` into several workers.
use vstd::prelude::*;
use vstd::string::*;

use crate::list::{group_lists, join, views};
use crate::report::{truncate, truncated};
use crate::text::{
    any_same, ascii_lowered, begins, char_is_space, chars_of, contains, dec, decimal, has_text, in_set,
    index_where, is_char, is_digit, is_space, joined, lemma_index_where, lines, lines_of,
    lower_ascii, opt_view, parse_nat, parse_number, position, position_of, same, skip_from,
    skip_while, space, starts_with, string_of, trim, trim_start, trimmed, trimmed_start,
    trimmed_start_set, words, words_of,
};
use crate::tools::policy::{dangerous_command, refusal};
use crate::worker::{FanOutReport, SpawnOutcome};

pub use crate::tools::search::matching_files;

verus! {

broadcast use group_lists;

/// How `/spawn` was asked to divide the work.
#[derive(Debug)]
pub enum FanOut {
    /// The planner decides how many, usually one.
    Auto,
    /// `-n N`: exactly N workers.
    Count(usize),
    /// `--each-files <regex>`: one worker per matching file.
    Files(String),
}

/// What a `FanOut` says.
pub enum Division {
    Auto,
    Count(usize),
    Files(Seq<char>),
}

impl View for FanOut {
    type V = Division;

    open spec fn view(&self) -> Division {
        match self {
            FanOut::Auto => Division::Auto,
            FanOut::Count(n) => Division::Count(*n),
            FanOut::Files(p) => Division::Files(p@),
        }
    }
}

/// A parsed `/spawn` line.
#[derive(Debug)]
pub struct SpawnRequest {
    pub fanout: FanOut,
    pub task: String,
    /// `--model provider/model`: run these workers on something else.
    pub model: Option<String>,
    /// A success check that each worker must pass.
    pub validate: Option<String>,
}

/// What a `SpawnRequest` says.
pub struct Spawn {
    pub fanout: Division,
    pub task: Seq<char>,
    pub model: Option<Seq<char>>,
    pub validate: Option<Seq<char>>,
}

impl View for SpawnRequest {
    type V = Spawn;

    open spec fn view(&self) -> Spawn {
        Spawn {
            fanout: self.fanout@,
            task: self.task@,
            model: opt_view(self.model),
            validate: opt_view(self.validate),
        }
    }
}

/// A fan-out waiting on the planner.
#[derive(Debug)]
pub struct PendingFanOut {
    pub task: String,
    /// Model the resulting workers run on, already resolved.
    pub model: Option<String>,
    /// `Some(n)` = exactly n workers; `None` = let the planner decide.
    pub want: Option<usize>,
    pub system: String,
    /// The per-worker check, carried through the planner.
    pub validate: Option<String>,
}

/// How `/spawn` is used.
pub const SPAWN_USAGE: &'static str =
    "usage: /spawn [-n N | --each-files <regex>] [--model <provider/model>] [--until <check>] <task>\nQuote a multi-word check: --until \"cargo test\". A fan-out's check runs in every worker at once, in one directory, so it must be read-only — `zola check`, not `zola build`.";

// ---- parsing ----------------------------------------------------------------

/// `rest` cut at its first white space: the token, and what follows it.
pub open spec fn token(rest: Seq<char>) -> (Seq<char>, Seq<char>) {
    let i = index_where(rest, space()) as int;
    if i < rest.len() {
        (rest.take(i), trim_start(rest.skip(i + 1)))
    } else {
        (rest, seq![])
    }
}

/// One flag value off the front of `rest`: a quoted run taken verbatim, or a
/// single token. No escapes, no nesting.
pub open spec fn flag_value(rest: Seq<char>) -> Result<(Seq<char>, Seq<char>), Seq<char>> {
    let r = trim_start(rest);
    if r.len() > 0 && (r[0] == '"' || r[0] == '\'') {
        let body = r.skip(1);
        let end = index_where(body, is_char(r[0])) as int;
        if end < body.len() {
            Ok((body.take(end), trim_start(body.skip(end + 1))))
        } else {
            Err("has an unterminated "@ + seq![r[0]] + " quote"@)
        }
    } else {
        Ok(token(r))
    }
}

/// What the flags have said so far.
pub struct Flags {
    pub fanout: Division,
    pub explicit: bool,
    pub model: Option<Seq<char>>,
    pub validate: Option<Seq<char>>,
}

/// The flags once `flag` was given with `value`, or why that is refused.
pub open spec fn flag_set(flag: Seq<char>, value: Seq<char>, f: Flags) -> Result<Flags, Seq<char>> {
    if flag == "-n"@ || flag == "--count"@ {
        if f.explicit {
            Err("/spawn: use either -n or --each-files, not both"@)
        } else {
            match parse_nat(value, usize::MAX as nat) {
                None => Err("/spawn: -n wants a number, got `"@ + value + "`"@),
                Some(n) => if n < 1 {
                    Err("/spawn: -n must be at least 1"@)
                } else {
                    Ok(Flags { fanout: Division::Count(n as usize), explicit: true, ..f })
                },
            }
        }
    } else if flag == "--each-files"@ || flag == "--each-file"@ {
        if f.explicit {
            Err("/spawn: use either -n or --each-files, not both"@)
        } else if value.len() == 0 {
            Err("/spawn: --each-files wants a regex"@)
        } else {
            Ok(Flags { fanout: Division::Files(value), explicit: true, ..f })
        }
    } else if flag == "--until"@ || flag == "-u"@ {
        if value.len() == 0 {
            Err("/spawn: --until wants a shell command"@)
        } else {
            match refusal(value) {
                Some(reason) => Err("/spawn: --until refused — "@ + reason),
                None => Ok(Flags { validate: Some(value), ..f }),
            }
        }
    } else if flag == "--model"@ || flag == "-m"@ {
        if value.len() == 0 {
            Err("/spawn: --model wants a `provider/model` spec"@)
        } else {
            Ok(Flags { model: Some(value), ..f })
        }
    } else {
        Err("/spawn: unknown flag `"@ + flag + "`\n"@ + SPAWN_USAGE@)
    }
}

/// The flags at the front of `rest` and what follows them. A token that does not
/// begin with a dash ends the flags, and so does `--`, which is dropped.
pub open spec fn flags_off(rest: Seq<char>, f: Flags) -> Result<(Flags, Seq<char>), Seq<char>>
    decreases rest.len(),
    via flags_shrink
{
    let (flag, after) = token(rest);
    if flag.len() == 0 || flag[0] != '-' {
        Ok((f, rest))
    } else if flag == "--"@ {
        Ok((f, after))
    } else {
        match flag_value(after) {
            Err(e) => Err("/spawn: "@ + flag + " "@ + e),
            Ok((value, left)) => match flag_set(flag, value, f) {
                Err(e) => Err(e),
                Ok(g) => flags_off(left, g),
            },
        }
    }
}

proof fn lemma_trim_start_len(s: Seq<char>)
    ensures
        trim_start(s).len() <= s.len(),
    decreases s.len(),
{
    if s.len() > 0 && is_space(s[0]) {
        lemma_trim_start_len(s.drop_first());
    }
}

proof fn lemma_token_len(s: Seq<char>)
    ensures
        token(s).1.len() <= s.len(),
        token(s).0.len() > 0 ==> token(s).1.len() < s.len(),
{
    lemma_index_where(s, space());
    let i = index_where(s, space()) as int;
    if i < s.len() {
        lemma_trim_start_len(s.skip(i + 1));
    }
}

proof fn lemma_flag_value_len(s: Seq<char>)
    ensures
        flag_value(s) matches Ok((v, left)) ==> left.len() <= s.len(),
{
    lemma_trim_start_len(s);
    let r = trim_start(s);
    lemma_token_len(r);
    if r.len() > 0 {
        let body = r.skip(1);
        lemma_index_where(body, is_char(r[0]));
        let end = index_where(body, is_char(r[0])) as int;
        if end < body.len() {
            lemma_trim_start_len(body.skip(end + 1));
        }
    }
}

#[via_fn]
proof fn flags_shrink(rest: Seq<char>, f: Flags) {
    lemma_token_len(rest);
    lemma_flag_value_len(token(rest).1);
}

/// What a `/spawn` line asks for, or why it is refused.
pub open spec fn spawn_parsed(args: Seq<char>, default_auto: bool) -> Result<Spawn, Seq<char>> {
    let start = Flags {
        fanout: if default_auto {
            Division::Auto
        } else {
            Division::Count(1)
        },
        explicit: false,
        model: None,
        validate: None,
    };
    match flags_off(trim(args), start) {
        Err(e) => Err(e),
        Ok((f, rest)) => if trim(rest).len() == 0 {
            Err(SPAWN_USAGE@)
        } else {
            Ok(
                Spawn {
                    fanout: f.fanout,
                    task: trim(rest),
                    model: f.model,
                    validate: f.validate,
                },
            )
        },
    }
}

fn take_token(rest: &str) -> (r: (String, String))
    ensures
        (r.0@, r.1@) == token(rest@),
{
    let v = chars_of(rest);
    let n = v.len();
    let i = position(&v, 0, n, |c: char| -> (b: bool) ensures b == is_space(c) { char_is_space(c) }, Ghost(space()));
    assert(v@.subrange(0, n as int) =~= rest@);
    let flag = string_of(&v, 0, i);
    if i < n {
        let after = string_of(&v, i + 1, n);
        assert(flag@ =~= rest@.take(i as int));
        assert(after@ =~= rest@.skip(i + 1));
        (flag, trimmed_start(after.as_str()))
    } else {
        assert(flag@ =~= rest@);
        (flag, String::new())
    }
}

fn take_value(rest: &str) -> (r: Result<(String, String), String>)
    ensures
        match r {
            Ok(p) => flag_value(rest@) == Ok::<(Seq<char>, Seq<char>), Seq<char>>((p.0@, p.1@)),
            Err(e) => flag_value(rest@) == Err::<(Seq<char>, Seq<char>), Seq<char>>(e@),
        },
{
    let t = trimmed_start(rest);
    let v = chars_of(t.as_str());
    let n = v.len();
    if n > 0 && (v[0] == '"' || v[0] == '\'') {
        let quote = v[0];
        let end = position_of(&v, 1, n, quote);
        let ghost body = t@.skip(1);
        assert(v@.subrange(1, n as int) =~= body);
        if end < n {
            let value = string_of(&v, 1, end);
            let after = string_of(&v, end + 1, n);
            assert(value@ =~= body.take(end - 1));
            assert(after@ =~= body.skip(end as int));
            return Ok((value, trimmed_start(after.as_str())));
        }
        let mut e = "has an unterminated ".to_owned();
        let mut q = String::new();
        q.push(quote);
        assert(q@ =~= seq![quote]);
        e.append(q.as_str());
        e.append(" quote");
        return Err(e);
    }
    Ok(take_token(t.as_str()))
}

fn to_usize(n: u64) -> (r: usize)
    requires
        n <= usize::MAX,
    ensures
        r == n,
{
    n as usize
}

/// Parse leading flags off a `/spawn` line; everything after them is the task,
/// verbatim.
pub fn parse_spawn(args: &str, default_auto: bool) -> (r: Result<SpawnRequest, String>)
    ensures
        match r {
            Ok(s) => spawn_parsed(args@, default_auto) == Ok::<Spawn, Seq<char>>(s@),
            Err(e) => spawn_parsed(args@, default_auto) == Err::<Spawn, Seq<char>>(e@),
        },
{
    let mut fanout = if default_auto { FanOut::Auto } else { FanOut::Count(1) };
    let mut explicit = false;
    let mut model: Option<String> = None;
    let mut validate: Option<String> = None;
    let mut rest = trimmed(args);
    let ghost start = Flags { fanout: fanout@, explicit, model: None, validate: None };
    loop
        invariant_except_break
            flags_off(
                rest@,
                Flags {
                    fanout: fanout@,
                    explicit,
                    model: opt_view(model),
                    validate: opt_view(validate),
                },
            ) == flags_off(trim(args@), start),
        invariant
            start == (Flags {
                fanout: if default_auto {
                    Division::Auto
                } else {
                    Division::Count(1)
                },
                explicit: false,
                model: None,
                validate: None,
            }),
        ensures
            flags_off(trim(args@), start) == Ok::<(Flags, Seq<char>), Seq<char>>(
                (
                    Flags {
                        fanout: fanout@,
                        explicit,
                        model: opt_view(model),
                        validate: opt_view(validate),
                    },
                    rest@,
                ),
            ),
        decreases rest@.len(),
    {
        let ghost before = rest@;
        let (flag, after) = take_token(rest.as_str());
        proof {
            lemma_token_len(rest@);
            lemma_flag_value_len(after@);
        }
        let flag = flag.as_str();
        if flag.unicode_len() == 0 || flag.get_char(0) != '-' {
            break ;
        }
        if same(flag, "--") {
            rest = after;
            break ;
        }
        let (value, left) = match take_value(after.as_str()) {
            Ok(p) => p,
            Err(e) => {
                let mut msg = "/spawn: ".to_owned();
                msg.append(flag);
                msg.append(" ");
                msg.append(e.as_str());
                return Err(msg);
            },
        };
        let empty = value.as_str().unicode_len() == 0;
        if same(flag, "-n") || same(flag, "--count") {
            if explicit {
                return Err("/spawn: use either -n or --each-files, not both".to_owned());
            }
            let n: u64 = match parse_number(value.as_str(), usize::MAX as u64) {
                Some(n) => n,
                None => {
                    let mut msg = "/spawn: -n wants a number, got `".to_owned();
                    msg.append(value.as_str());
                    msg.append("`");
                    return Err(msg);
                },
            };
            if n < 1 {
                return Err("/spawn: -n must be at least 1".to_owned());
            }
            fanout = FanOut::Count(to_usize(n));
            explicit = true;
        } else if same(flag, "--each-files") || same(flag, "--each-file") {
            if explicit {
                return Err("/spawn: use either -n or --each-files, not both".to_owned());
            }
            if empty {
                return Err("/spawn: --each-files wants a regex".to_owned());
            }
            fanout = FanOut::Files(value);
            explicit = true;
        } else if same(flag, "--until") || same(flag, "-u") {
            if empty {
                return Err("/spawn: --until wants a shell command".to_owned());
            }
            if let Some(reason) = dangerous_command(value.as_str()) {
                let mut msg = "/spawn: --until refused — ".to_owned();
                msg.append(reason.as_str());
                return Err(msg);
            }
            validate = Some(value);
        } else if same(flag, "--model") || same(flag, "-m") {
            if empty {
                return Err("/spawn: --model wants a `provider/model` spec".to_owned());
            }
            model = Some(value);
        } else {
            let mut msg = "/spawn: unknown flag `".to_owned();
            msg.append(flag);
            msg.append("`\n");
            msg.append(SPAWN_USAGE);
            return Err(msg);
        }
        rest = left;
    }
    let task = trimmed(rest.as_str());
    if task.as_str().unicode_len() == 0 {
        return Err(SPAWN_USAGE.to_owned());
    }
    Ok(SpawnRequest { fanout, task, model, validate })
}

// ---- tasks ------------------------------------------------------------------

/// Below this many characters there is no instruction.
pub const MIN_TASK_CHARS: usize = 12;

/// Is this a self-contained instruction? It has some length, and elides nothing.
pub open spec fn usable(task: Seq<char>) -> bool {
    task.len() >= MIN_TASK_CHARS && !contains(task, "..."@) && !contains(task, "…"@)
}

/// What follows the task marker of a line, in any of the spellings that models
/// use, whatever the case. A marker in bold type may have lost its first stars with the
/// list marker.
pub open spec fn marked_task(line: Seq<char>) -> Option<Seq<char>> {
    let lower = ascii_lowered(line);
    if starts_with(lower, "task:"@) {
        Some(line.skip("task:"@.len() as int))
    } else if starts_with(lower, "task**:"@) {
        Some(line.skip("task**:"@.len() as int))
    } else if starts_with(lower, "**task:**"@) {
        Some(line.skip("**task:**"@.len() as int))
    } else if starts_with(lower, "**task**:"@) {
        Some(line.skip("**task**:"@.len() as int))
    } else if starts_with(lower, "`task:`"@) {
        Some(line.skip("`task:`"@.len() as int))
    } else {
        None
    }
}

/// A line without the list marker that a model put before its task.
pub open spec fn without_list_marker(line: Seq<char>) -> Seq<char> {
    trim(skip_while(skip_while(trim(line), |c: char| is_digit(c)), in_set(".)-* "@)))
}

/// The task that a line of planner output holds, if any.
pub open spec fn task_of_line(line: Seq<char>) -> Option<Seq<char>> {
    match marked_task(without_list_marker(line)) {
        Some(rest) => {
            let t = trim(skip_while(rest, in_set("*`: "@)));
            if usable(t) {
                Some(t)
            } else {
                None
            }
        },
        None => None,
    }
}

/// The distinct tasks that the first `n` of `lines` hold, in order.
pub open spec fn tasks_of(lines: Seq<Seq<char>>, n: nat) -> Seq<Seq<char>>
    decreases n,
{
    if n == 0 {
        seq![]
    } else {
        let before = tasks_of(lines, (n - 1) as nat);
        match task_of_line(lines[n - 1]) {
            Some(t) => if before.contains(t) {
                before
            } else {
                before.push(t)
            },
            None => before,
        }
    }
}

/// What a planner's answer amounts to: its marked tasks, as many as wanted, or at
/// most `max` where no number was asked for; or why it is unusable.
pub open spec fn subtasks(text: Seq<char>, want: Option<usize>, max: usize) -> Result<
    Seq<Seq<char>>,
    Seq<char>,
> {
    let all = tasks_of(lines(text), lines(text).len());
    if all.len() == 0 {
        Err("planner returned no `TASK:` lines"@)
    } else {
        match want {
            Some(n) => if all.len() < n {
                Err(
                    "planner returned "@ + dec(all.len()) + " of "@ + dec(n as nat) + " tasks"@,
                )
            } else {
                Ok(all.take(n as int))
            },
            None => {
                let cap = if max == 0 { 1 } else { max as int };
                if all.len() <= cap {
                    Ok(all)
                } else {
                    Ok(all.take(cap))
                }
            },
        }
    }
}

fn usable_subtask(task: &str) -> (r: bool)
    ensures
        r == usable(task@),
{
    task.unicode_len() >= MIN_TASK_CHARS && !has_text(task, "...") && !has_text(task, "…")
}

fn after(line: &str, prefix: &str) -> (r: String)
    requires
        prefix@.len() <= line@.len(),
    ensures
        r@ == line@.skip(prefix@.len() as int),
{
    let v = chars_of(line);
    let r = string_of(&v, prefix.unicode_len(), v.len());
    assert(r@ =~= line@.skip(prefix@.len() as int));
    r
}

fn strip_task_marker(line: &str) -> (r: Option<String>)
    ensures
        opt_view(r) == marked_task(line@),
{
    let lower = lower_ascii(line);
    let lower = lower.as_str();
    if begins(lower, "task:") {
        return Some(after(line, "task:"));
    }
    if begins(lower, "task**:") {
        return Some(after(line, "task**:"));
    }
    if begins(lower, "**task:**") {
        return Some(after(line, "**task:**"));
    }
    if begins(lower, "**task**:") {
        return Some(after(line, "**task**:"));
    }
    if begins(lower, "`task:`") {
        return Some(after(line, "`task:`"));
    }
    None
}

fn strip_list_marker(line: &str) -> (r: String)
    ensures
        r@ == without_list_marker(line@),
{
    let t = trimmed(line);
    let v = chars_of(t.as_str());
    let n = v.len();
    let i = skip_from(&v, 0, n, |c: char| -> (b: bool) ensures b == is_digit(c) { '0' <= c && c <= '9' }, Ghost(|c: char| is_digit(c)));
    assert(v@.subrange(0, n as int) =~= t@);
    let t = string_of(&v, i, n);
    let t = trimmed_start_set(t.as_str(), ".)-* ");
    trimmed(t.as_str())
}

fn line_task(line: &str) -> (r: Option<String>)
    ensures
        opt_view(r) == task_of_line(line@),
{
    let bare = strip_list_marker(line);
    match strip_task_marker(bare.as_str()) {
        None => None,
        Some(rest) => {
            let t = trimmed_start_set(rest.as_str(), "*`: ");
            let t = trimmed(t.as_str());
            if usable_subtask(t.as_str()) {
                Some(t)
            } else {
                None
            }
        },
    }
}

/// Take only the lines the planner marked as tasks; without any, say so.
pub fn parse_subtasks(text: &str, want: Option<usize>, max: usize) -> (r: Result<
    Vec<String>,
    String,
>)
    ensures
        match r {
            Ok(v) => subtasks(text@, want, max) == Ok::<Seq<Seq<char>>, Seq<char>>(views(v@)),
            Err(e) => subtasks(text@, want, max) == Err::<Seq<Seq<char>>, Seq<char>>(e@),
        },
{
    let all = lines_of(text);
    let mut out: Vec<String> = Vec::new();
    let mut i: usize = 0;
    while i < all.len()
        invariant
            i <= all@.len(),
            views(all@) == lines(text@),
            views(out@) == tasks_of(lines(text@), i as nat),
        decreases all.len() - i,
    {
        assert(views(all@)[i as int] == all@[i as int]@);
        if let Some(t) = line_task(all[i].as_str()) {
            if !any_same(&out, t.as_str()) {
                out.push(t);
            }
        }
        i = i + 1;
    }
    if out.len() == 0 {
        return Err("planner returned no `TASK:` lines".to_owned());
    }
    let ghost found = views(out@);
    match want {
        Some(n) => {
            if out.len() < n {
                let mut e = "planner returned ".to_owned();
                let k = decimal(out.len() as u128);
                e.append(k.as_str());
                e.append(" of ");
                let k = decimal(n as u128);
                e.append(k.as_str());
                e.append(" tasks");
                return Err(e);
            }
            out.truncate(n);
            assert(views(out@) =~= found.take(n as int));
            Ok(out)
        },
        None => {
            let cap: usize = if max == 0 { 1 } else { max };
            out.truncate(cap);
            assert(found.len() > cap ==> views(out@) =~= found.take(cap as int));
            assert(found.len() <= cap ==> views(out@) =~= found);
            Ok(out)
        },
    }
}

/// A task with the item that a worker is to do it for.
pub open spec fn assigned(task: Seq<char>, item: Seq<char>) -> Seq<char> {
    task + "\n\nYour assignment: "@ + item
}

/// A worker's task: the request, plus what this particular worker is on.
pub fn assign(task: &str, item: &str) -> (r: String)
    ensures
        r@ == assigned(task@, item@),
{
    let mut r = task.to_owned();
    r.append("\n\nYour assignment: ");
    r.append(item);
    r
}

/// One of `n` takes on the same goal.
pub open spec fn variant(task: Seq<char>, i: nat, n: nat) -> Seq<char> {
    task + "\n\nThis is draft "@ + dec(i) + " of "@ + dec(n)
        + " — take a distinct angle from the other drafts."@
}

/// One of `n` takes on the same goal.
pub fn variant_task(task: &str, i: usize, n: usize) -> (r: String)
    ensures
        r@ == variant(task@, i as nat, n as nat),
{
    let mut r = task.to_owned();
    r.append("\n\nThis is draft ");
    let k = decimal(i as u128);
    r.append(k.as_str());
    r.append(" of ");
    let k = decimal(n as u128);
    r.append(k.as_str());
    r.append(" — take a distinct angle from the other drafts.");
    r
}

/// The tasks to run when there is no usable plan: an explicit count becomes that
/// many variants, anything else the task itself.
pub open spec fn fallback(task: Seq<char>, n: usize, explicit: bool) -> Seq<Seq<char>> {
    if explicit && n > 1 {
        Seq::new(n as nat, |i: int| variant(task, (i + 1) as nat, n as nat))
    } else {
        seq![task]
    }
}

/// No planner: honour an explicit count with variants, otherwise run the task
/// once, unchanged.
pub fn fallback_tasks(task: &str, n: usize, explicit: bool) -> (r: Vec<String>)
    ensures
        views(r@) == fallback(task@, n, explicit),
{
    let mut r: Vec<String> = Vec::new();
    if explicit && n > 1 {
        let mut i: usize = 0;
        while i < n
            invariant
                i <= n,
                views(r@).len() == i,
                forall|j: int| 0 <= j < i ==> #[trigger] views(r@)[j] == variant(task@, (j + 1) as nat, n as nat),
            decreases n - i,
        {
            r.push(variant_task(task, i + 1, n));
            i = i + 1;
        }
        assert(views(r@) =~= fallback(task@, n, explicit));
    } else {
        r.push(task.to_owned());
        assert(views(r@) =~= seq![task@]);
    }
    r
}

// ---- notices ----------------------------------------------------------------

/// The line that says how a worker was started.
pub open spec fn spawn_line(outcome: SpawnOutcome, task: Seq<char>) -> Seq<char> {
    match outcome {
        SpawnOutcome::Started(id) => "spawned "@ + id@ + ": "@ + truncated(task, 80),
        SpawnOutcome::Queued(pos) => "queued (#"@ + dec(pos as nat) + ", all slots busy): "@
            + truncated(task, 80),
    }
}

/// The line that says how a worker was started.
pub fn spawn_notice(outcome: &SpawnOutcome, task: &str) -> (r: String)
    ensures
        r@ == spawn_line(*outcome, task@),
{
    let short = truncate(task, 80);
    match outcome {
        SpawnOutcome::Started(id) => {
            let mut r = "spawned ".to_owned();
            r.append(id.as_str());
            r.append(": ");
            r.append(short.as_str());
            r
        },
        SpawnOutcome::Queued(pos) => {
            let mut r = "queued (#".to_owned();
            let n = decimal(*pos as u128);
            r.append(n.as_str());
            r.append(", all slots busy): ");
            r.append(short.as_str());
            r
        },
    }
}

/// The line that says how a fan-out was started.
pub open spec fn fanout_line(report: FanOutReport) -> Seq<char> {
    let started = if report.started@.len() == 0 {
        "nothing started"@
    } else {
        "spawned "@ + join(views(report.started@), " "@)
    };
    if report.queued > 0 {
        started + " · "@ + dec(report.queued as nat) + " queued"@
    } else {
        started
    }
}

/// The line that says how a fan-out was started.
pub fn fanout_notice(report: &FanOutReport) -> (r: String)
    ensures
        r@ == fanout_line(*report),
{
    let mut r = if report.started.len() == 0 {
        "nothing started".to_owned()
    } else {
        let mut r = "spawned ".to_owned();
        let ids = joined(&report.started, " ");
        r.append(ids.as_str());
        r
    };
    if report.queued > 0 {
        r.append(" · ");
        let n = decimal(report.queued as u128);
        r.append(n.as_str());
        r.append(" queued");
    }
    r
}

// ---- planning ---------------------------------------------------------------

/// What a planning attempt produced, and how.
#[derive(Debug)]
pub struct FanOutPlan {
    pub tasks: Vec<String>,
    pub note: String,
}

/// A one-line peek at a text: its words, cut to `max` characters.
pub open spec fn peek(s: Seq<char>, max: nat) -> Seq<char> {
    let flat = join(words(s), " "@);
    if flat.len() <= max {
        flat
    } else {
        flat.take(max as int) + "…"@
    }
}

fn first_chars(s: &str, max: usize) -> (r: String)
    ensures
        r@ == peek(s@, max as nat),
{
    let w = words_of(s);
    let flat = joined(&w, " ");
    if flat.as_str().unicode_len() <= max {
        return flat;
    }
    let v = chars_of(flat.as_str());
    let mut r = string_of(&v, 0, max);
    assert(r@ =~= flat@.take(max as int));
    r.append("…");
    r
}

/// What every planned task has to respect.
pub const PLAN_RULES: &'static str =
    "The tasks all run AT THE SAME TIME, in the same directory, and cannot talk to each other. So: no task may depend on another task's output, no task may be a step that only makes sense after another finishes, and no two tasks may write the same file. If the work is a sequence of phases rather than parallel pieces, do not describe the phases — split the largest parallel part instead. Begin each task with what makes it DIFFERENT from the others; shared setup (which files to read, context to gather) goes at the end. Tasks that open with the same words are indistinguishable in a list, however different their ends.";

/// The planner's instructions.
pub open spec fn planner_text(want: Option<usize>, max: usize) -> Seq<char> {
    match want {
        Some(n) => "You split a work request into exactly "@ + dec(n as nat) + " tasks for "@ + dec(
            n as nat,
        ) + " independent background workers. If the request contains "@ + dec(n as nat)
            + " distinct pieces of work, write one per line. If it does not divide that way, write "@
            + dec(n as nat)
            + " variations on the same goal, each taking a different angle.\n\n"@ + PLAN_RULES@
            + "\n\nOutput exactly "@ + dec(n as nat)
            + " lines. Every line MUST begin with `TASK: ` followed by one self-contained instruction. Write nothing else — no reasoning, no numbering, no preamble, no blank lines."@,
        None => "You decide whether a work request should be split across independent background workers. Output ONE line — the request restated — unless it obviously contains separate pieces of work that can run in parallel without editing the same files; only then output one line per piece, at most "@
            + dec(max as nat)
            + ". Prefer one line when unsure.\n\nEvery line MUST begin with `TASK: ` followed by one self-contained instruction. Write nothing else — no reasoning, no numbering, no preamble."@,
    }
}

/// The planner's instructions.
pub fn planner_prompt(want: Option<usize>, max: usize) -> (r: String)
    ensures
        r@ == planner_text(want, max),
{
    match want {
        Some(n) => {
            let n = decimal(n as u128);
            let n = n.as_str();
            let mut r = "You split a work request into exactly ".to_owned();
            r.append(n);
            r.append(" tasks for ");
            r.append(n);
            r.append(" independent background workers. If the request contains ");
            r.append(n);
            r.append(
                " distinct pieces of work, write one per line. If it does not divide that way, write ",
            );
            r.append(n);
            r.append(" variations on the same goal, each taking a different angle.\n\n");
            r.append(PLAN_RULES);
            r.append("\n\nOutput exactly ");
            r.append(n);
            r.append(
                " lines. Every line MUST begin with `TASK: ` followed by one self-contained instruction. Write nothing else — no reasoning, no numbering, no preamble, no blank lines.",
            );
            r
        },
        None => {
            let n = decimal(max as u128);
            let mut r =
                "You decide whether a work request should be split across independent background workers. Output ONE line — the request restated — unless it obviously contains separate pieces of work that can run in parallel without editing the same files; only then output one line per piece, at most ".to_owned();
            r.append(n.as_str());
            r.append(
                ". Prefer one line when unsure.\n\nEvery line MUST begin with `TASK: ` followed by one self-contained instruction. Write nothing else — no reasoning, no numbering, no preamble.",
            );
            r
        },
    }
}

/// How many workers a plan is asked for.
pub open spec fn wanted(want: Option<usize>, max: usize) -> usize {
    match want {
        Some(n) => n,
        None => max,
    }
}

/// The plan that follows from what the planner answered: its tasks where they are
/// usable, else a fallback that says why.
pub open spec fn planned(
    task: Seq<char>,
    want: Option<usize>,
    max: usize,
    answer: Result<Seq<char>, Seq<char>>,
) -> (Seq<Seq<char>>, Seq<char>) {
    let instead = fallback(task, wanted(want, max), want is Some);
    match answer {
        Ok(text) => match subtasks(text, want, max) {
            Ok(tasks) => (
                tasks,
                match want {
                    Some(n) => "split into "@ + dec(n as nat) + " task(s), as you asked"@,
                    None => "planner chose to split this into "@ + dec(tasks.len()) + " task(s)"@,
                },
            ),
            Err(why) => (
                instead,
                "planner output unusable ("@ + why + "); running "@ + dec(instead.len())
                    + " variant(s) of the original request instead. Planner said: "@ + peek(
                    text,
                    400,
                ),
            ),
        },
        Err(e) => (
            instead,
            "planner call failed ("@ + e + "); running "@ + dec(instead.len())
                + " variant(s) of the original request"@,
        ),
    }
}

/// What a planner's answer says.
pub open spec fn answer_view(a: Result<String, String>) -> Result<Seq<char>, Seq<char>> {
    match a {
        Ok(s) => Ok(s@),
        Err(e) => Err(e@),
    }
}

/// Divide a request into worker tasks, given what the planner answered. A fan-out
/// that cannot be planned is still work the user asked for: it falls back.
pub fn plan_fanout(
    task: &str,
    want: Option<usize>,
    max: usize,
    answer: Result<String, String>,
) -> (r: FanOutPlan)
    ensures
        (views(r.tasks@), r.note@) == planned(task@, want, max, answer_view(answer)),
{
    let n: usize = match want {
        Some(n) => n,
        None => max,
    };
    match answer {
        Ok(text) => match parse_subtasks(text.as_str(), want, max) {
            Ok(tasks) => {
                let note = match want {
                    Some(n) => {
                        let mut s = "split into ".to_owned();
                        let k = decimal(n as u128);
                        s.append(k.as_str());
                        s.append(" task(s), as you asked");
                        s
                    },
                    None => {
                        let mut s = "planner chose to split this into ".to_owned();
                        let k = decimal(tasks.len() as u128);
                        s.append(k.as_str());
                        s.append(" task(s)");
                        s
                    },
                };
                FanOutPlan { tasks, note }
            },
            Err(why) => {
                let tasks = fallback_tasks(task, n, want.is_some());
                let mut note = "planner output unusable (".to_owned();
                note.append(why.as_str());
                note.append("); running ");
                let k = decimal(tasks.len() as u128);
                note.append(k.as_str());
                note.append(" variant(s) of the original request instead. Planner said: ");
                let said = first_chars(text.as_str(), 400);
                note.append(said.as_str());
                FanOutPlan { tasks, note }
            },
        },
        Err(e) => {
            let tasks = fallback_tasks(task, n, want.is_some());
            let mut note = "planner call failed (".to_owned();
            note.append(e.as_str());
            note.append("); running ");
            let k = decimal(tasks.len() as u128);
            note.append(k.as_str());
            note.append(" variant(s) of the original request");
            FanOutPlan { tasks, note }
        },
    }
}

// ---- laws -------------------------------------------------------------------

/// A plan is never empty, and honours an explicit count exactly: the request is
/// never dropped, whatever the planner answered.
pub proof fn a_plan_is_never_dropped(
    task: Seq<char>,
    want: Option<usize>,
    max: usize,
    answer: Result<Seq<char>, Seq<char>>,
)
    requires
        want matches Some(n) ==> n >= 1,
    ensures
        planned(task, want, max, answer).0.len() >= 1,
        want matches Some(n) ==> planned(task, want, max, answer).0.len() == n,
{
}

/// Every task that a plan takes from a planner's answer is usable, and no two are
/// the same; at most `max` come out where no number was asked for.
pub proof fn planned_tasks_are_usable(text: Seq<char>, want: Option<usize>, max: usize)
    ensures
        subtasks(text, want, max) matches Ok(tasks) ==> {
            &&& forall|i: int| 0 <= i < tasks.len() ==> usable(#[trigger] tasks[i])
            &&& tasks.no_duplicates()
            &&& want is None ==> tasks.len() <= if max == 0 { 1 } else { max as int }
        },
{
    lemma_tasks_of(lines(text), lines(text).len());
}

proof fn lemma_tasks_of(ls: Seq<Seq<char>>, n: nat)
    ensures
        forall|i: int| 0 <= i < tasks_of(ls, n).len() ==> usable(#[trigger] tasks_of(ls, n)[i]),
        tasks_of(ls, n).no_duplicates(),
    decreases n,
{
    if n > 0 {
        lemma_tasks_of(ls, (n - 1) as nat);
    }
}

/// Only a line that carries the task marker becomes work: text without one yields
/// an error.
pub proof fn unmarked_prose_is_never_work(text: Seq<char>, want: Option<usize>, max: usize)
    requires
        forall|i: int|
            0 <= i < lines(text).len() ==> marked_task(
                without_list_marker(#[trigger] lines(text)[i]),
            ) is None,
    ensures
        subtasks(text, want, max) is Err,
{
    lemma_no_tasks(lines(text), lines(text).len());
}

proof fn lemma_no_tasks(ls: Seq<Seq<char>>, n: nat)
    requires
        n <= ls.len(),
        forall|i: int|
            0 <= i < ls.len() ==> marked_task(without_list_marker(#[trigger] ls[i])) is None,
    ensures
        tasks_of(ls, n).len() == 0,
    decreases n,
{
    if n > 0 {
        lemma_no_tasks(ls, (n - 1) as nat);
        assert(marked_task(without_list_marker(ls[n - 1])) is None);
    }
}

// ---- what a request comes to ------------------------------------------------

/// A word is taken off the front up to the first white space, and what follows is left
/// without the white space before it.
pub proof fn a_word_is_taken_off_the_front(word: Seq<char>, gap: char, rest: Seq<char>)
    requires
        forall|i: int| 0 <= i < word.len() ==> !is_space(#[trigger] word[i]),
        is_space(gap),
    ensures
        token(word + seq![gap] + rest) == (word, trim_start(rest)),
        token(word) == (word, Seq::<char>::empty()),
{
    let s = word + seq![gap] + rest;
    let p = space();
    assert forall|k: int| 0 <= k < word.len() implies !p(s[k]) by {
        assert(!is_space(word[k]));
    }
    crate::text::lemma_index_where_unique(s, p, word.len());
    assert(s.take(word.len() as int) =~= word);
    assert(s.skip(word.len() as int + 1) =~= rest);
    assert forall|k: int| 0 <= k < word.len() implies !p(word[k]) by {
        assert(!is_space(word[k]));
    }
    crate::text::lemma_index_where_unique(word, p, word.len());
}

/// A value in quotes is all that stands between them, white space and all.
pub proof fn a_quoted_value_keeps_its_spaces(quote: char, value: Seq<char>, rest: Seq<char>)
    requires
        quote == '"' || quote == '\'',
        !value.contains(quote),
        !is_space(quote),
    ensures
        flag_value(seq![quote] + value + seq![quote] + rest) == Ok::<
            (Seq<char>, Seq<char>),
            Seq<char>,
        >((value, trim_start(rest))),
        flag_value(seq![quote] + value) is Err,
{
    let s = seq![quote] + value + seq![quote] + rest;
    let t = seq![quote] + value;
    lemma_not_trimmed(s);
    lemma_not_trimmed(t);
    let body = s.skip(1);
    let p = is_char(quote);
    assert(body =~= value + seq![quote] + rest);
    assert forall|k: int| 0 <= k < value.len() implies !p(body[k]) by {
        assert(value.contains(value[k]));
    }
    crate::text::lemma_index_where_unique(body, p, value.len());
    assert(body.take(value.len() as int) =~= value);
    assert(body.skip(value.len() as int + 1) =~= rest);
    assert(t.skip(1) =~= value);
    assert forall|k: int| 0 <= k < value.len() implies !p(value[k]) by {
        assert(value.contains(value[k]));
    }
    crate::text::lemma_index_where_unique(value, p, value.len());
}

proof fn lemma_not_trimmed(s: Seq<char>)
    requires
        s.len() > 0,
        !is_space(s[0]),
    ensures
        trim_start(s) == s,
{
    crate::wording::skipping_takes_the_start(s, space());
}

/// Each flag sets its own and leaves the rest alone: how the work is divided, which model
/// runs it, and which check it must pass.
pub proof fn a_flag_sets_its_own(value: Seq<char>, f: Flags, n: nat)
    ensures
        !f.explicit && parse_nat(value, usize::MAX as nat) == Some(n) && n >= 1 ==> flag_set(
            "-n"@,
            value,
            f,
        ) == Ok::<Flags, Seq<char>>(
            Flags { fanout: Division::Count(n as usize), explicit: true, ..f },
        ),
        parse_nat(value, usize::MAX as nat) is None ==> flag_set("-n"@, value, f) is Err,
        !f.explicit && value.len() > 0 ==> flag_set("--each-files"@, value, f) == Ok::<
            Flags,
            Seq<char>,
        >(Flags { fanout: Division::Files(value), explicit: true, ..f }),
        f.explicit ==> flag_set("-n"@, value, f) is Err && flag_set(
            "--each-files"@,
            value,
            f,
        ) is Err,
        value.len() > 0 ==> flag_set("--model"@, value, f) == Ok::<Flags, Seq<char>>(
            Flags { model: Some(value), ..f },
        ),
        value.len() > 0 && refusal(value) is None ==> flag_set("--until"@, value, f) == Ok::<
            Flags,
            Seq<char>,
        >(Flags { validate: Some(value), ..f }),
        refusal(value) is Some ==> flag_set("--until"@, value, f) is Err,
{
    reveal_strlit("-n");
    reveal_strlit("--count");
    reveal_strlit("--each-files");
    reveal_strlit("--each-file");
    reveal_strlit("--until");
    reveal_strlit("-u");
    reveal_strlit("--model");
    reveal_strlit("-m");
    assert("-n"@.len() == 2 && "--count"@.len() == 7 && "--each-files"@.len() == 12
        && "--each-file"@.len() == 11 && "--until"@.len() == 7 && "-u"@.len() == 2
        && "--model"@.len() == 7 && "-m"@.len() == 2);
    assert("--until"@[2] == 'u' && "--count"@[2] == 'c' && "--model"@[2] == 'm');
}

/// A line without flags is the task, whole, divided as is usual.
pub proof fn a_line_without_flags_is_the_task(args: Seq<char>, default_auto: bool)
    requires
        trim(args).len() > 0,
        trim(args)[0] != '-',
        trim(trim(args)) == trim(args),
        !is_space(trim(args)[0]),
    ensures
        spawn_parsed(args, default_auto) == Ok::<Spawn, Seq<char>>(
            Spawn {
                fanout: if default_auto {
                    Division::Auto
                } else {
                    Division::Count(1)
                },
                task: trim(args),
                model: None,
                validate: None,
            },
        ),
{
    let s = trim(args);
    crate::text::lemma_index_where(s, space());
    let (flag, after) = token(s);
    assert(space()(s[0]) == false);
    assert(flag.len() > 0 && flag[0] == s[0]);
}

/// The tasks of a plan are those of its lines, each once, in the order in which they first
/// stand; no other text becomes one.
pub proof fn a_plan_holds_the_tasks_of_its_lines(ls: Seq<Seq<char>>, n: nat)
    requires
        0 < n <= ls.len(),
    ensures
        task_of_line(ls[n - 1]) matches Some(t) ==> tasks_of(ls, n).contains(t),
        ({
            let before = tasks_of(ls, (n - 1) as nat);
            let after = tasks_of(ls, n);
            &&& task_of_line(ls[n - 1]) is None ==> after == before
            &&& task_of_line(ls[n - 1]) matches Some(t) ==> (if before.contains(t) {
                after == before
            } else {
                after == before.push(t)
            })
        }),
        tasks_of(ls, 0).len() == 0,
{
    if let Some(t) = task_of_line(ls[n - 1]) {
        let before = tasks_of(ls, (n - 1) as nat);
        if !before.contains(t) {
            assert(before.push(t)[before.len() as int] == t);
        }
    }
}

/// A plan is used as it stands: the first tasks that were asked for, or up to the limit,
/// and refused where it holds too few.
pub proof fn a_plan_is_used_as_it_stands(text: Seq<char>, n: usize, max: usize)
    requires
        n > 0,
        max > 0,
    ensures
        ({
            let all = tasks_of(lines(text), lines(text).len());
            &&& all.len() >= n ==> subtasks(text, Some(n), max) == Ok::<
                Seq<Seq<char>>,
                Seq<char>,
            >(all.take(n as int))
            &&& all.len() < n ==> subtasks(text, Some(n), max) is Err
            &&& 0 < all.len() <= max ==> subtasks(text, None, max) == Ok::<
                Seq<Seq<char>>,
                Seq<char>,
            >(all)
            &&& all.len() > max ==> subtasks(text, None, max) == Ok::<Seq<Seq<char>>, Seq<char>>(
                all.take(max as int),
            )
            &&& all.len() == 0 ==> subtasks(text, None, max) is Err
        }),
{
}

/// Where there is no plan, the task itself is run: as many drafts as were asked for, each
/// under its own number, or once as it is.
pub proof fn without_a_plan_the_task_itself_runs(
    task: Seq<char>,
    want: Option<usize>,
    max: usize,
    error: Seq<char>,
)
    ensures
        ({
            let p = planned(task, want, max, Err(error));
            &&& want is None ==> p.0 == seq![task]
            &&& want == Some(1usize) ==> p.0 == seq![task]
            &&& want matches Some(n) ==> (n > 1 ==> p.0.len() == n && (forall|i: int|
                0 <= i < n ==> #[trigger] p.0[i] == variant(task, (i + 1) as nat, n as nat)))
        }),
        forall|i: nat, n: nat|
            (#[trigger] variant(task, i, n)).take(task.len() as int) == task,
{
    assert forall|i: nat, n: nat| (#[trigger] variant(task, i, n)).take(task.len() as int)
        == task by {
        assert(variant(task, i, n).take(task.len() as int) =~= task);
    }
}

/// A plan that can be used is used, and one that cannot is not.
pub proof fn a_usable_plan_is_used(
    task: Seq<char>,
    want: Option<usize>,
    max: usize,
    text: Seq<char>,
    error: Seq<char>,
)
    ensures
        subtasks(text, want, max) matches Ok(tasks) ==> planned(task, want, max, Ok(text)).0
            == tasks,
        subtasks(text, want, max) is Err ==> planned(task, want, max, Ok(text)).0 == planned(
            task,
            want,
            max,
            Err(error),
        ).0,
{
}

/// A worker is told its task, and then its own assignment.
pub proof fn an_assignment_follows_the_task(task: Seq<char>, item: Seq<char>)
    ensures
        assigned(task, item).take(task.len() as int) == task,
        assigned(task, item).skip(assigned(task, item).len() - item.len()) == item,
{
    assert(assigned(task, item).take(task.len() as int) =~= task);
    assert(assigned(task, item).skip(assigned(task, item).len() - item.len()) =~= item);
}

} // verus!
