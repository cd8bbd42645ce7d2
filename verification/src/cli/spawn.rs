//! `spawn`: what a fan-out from the command line does with its workers.
use vstd::prelude::*;
use vstd::string::*;

use crate::cli::activity::first_line;
use crate::fanout::{assign, assigned};
use crate::list::{group_lists, join, views};
use crate::text::{dec, decimal, joined, lines, lines_of};
use crate::worker::{status_label, WorkerStatus, WorkerSummary};

verus! {

broadcast use group_lists;

/// One task for each file.
pub fn file_tasks(task: &str, files: &Vec<String>) -> (r: Vec<String>)
    ensures
        views(r@) == Seq::new(files@.len(), |i: int| assigned(task@, files@[i]@)),
{
    let ghost all = Seq::new(files@.len(), |i: int| assigned(task@, files@[i]@));
    let mut r: Vec<String> = Vec::new();
    let mut i: usize = 0;
    assert(views(r@) =~= all.take(0));
    while i < files.len()
        invariant
            i <= files@.len(),
            all == Seq::new(files@.len(), |i: int| assigned(task@, files@[i]@)),
            views(r@) == all.take(i as int),
        decreases files.len() - i,
    {
        r.push(assign(task, files[i].as_str()));
        assert(all.take(i + 1) =~= all.take(i as int).push(all[i as int]));
        i = i + 1;
    }
    assert(all.take(i as int) =~= all);
    r
}

/// The tasks, numbered: each by its first line, or in full.
pub open spec fn task_lines(ts: Seq<Seq<char>>, whole: bool) -> Seq<Seq<char>> {
    if ts.len() > 1 {
        Seq::new(
            ts.len(),
            |i: int|
                "  "@ + dec((i + 1) as nat) + ". "@ + (if whole || lines(ts[i]).len() == 0 {
                    ts[i]
                } else {
                    first_line(ts[i])
                }),
        )
    } else {
        seq![]
    }
}

/// The tasks, numbered; a single one needs no list.
pub fn list_tasks(ts: &Vec<String>, whole: bool) -> (r: Vec<String>)
    ensures
        views(r@) == task_lines(views(ts@), whole),
{
    let ghost all = task_lines(views(ts@), whole);
    let mut r: Vec<String> = Vec::new();
    if ts.len() <= 1 {
        assert(views(r@) =~= all);
        return r;
    }
    let mut i: usize = 0;
    assert(views(r@) =~= all.take(0));
    while i < ts.len()
        invariant
            i <= ts@.len(),
            ts@.len() > 1,
            all == task_lines(views(ts@), whole),
            views(r@) == all.take(i as int),
        decreases ts.len() - i,
    {
        let mut s = "  ".to_owned();
        s.append(decimal(i as u128 + 1).as_str());
        s.append(". ");
        let ls = lines_of(ts[i].as_str());
        assert(views(ts@)[i as int] == ts@[i as int]@);
        assert(views(ls@).len() == ls@.len());
        if whole || ls.len() == 0 {
            s.append(ts[i].as_str());
        } else {
            assert(views(ls@)[0] == ls@[0]@);
            s.append(ls[0].as_str());
        }
        assert(s@ == all[i as int]);
        r.push(s);
        assert(all.take(i + 1) =~= all.take(i as int).push(all[i as int]));
        i = i + 1;
    }
    assert(all.take(i as int) =~= all);
    r
}

/// What the first `n` workers spent.
pub open spec fn spent(ws: Seq<WorkerSummary>, n: nat) -> nat
    decreases n,
{
    if n == 0 {
        0
    } else {
        spent(ws, (n - 1) as nat) + ws[n - 1].tokens as nat
    }
}

/// What the workers spent together: it never reaches the parent's own stream.
pub fn worker_tokens(ws: &Vec<WorkerSummary>) -> (r: u128)
    ensures
        r == spent(ws@, ws@.len()),
{
    let mut sum: u128 = 0;
    let mut i: usize = 0;
    while i < ws.len()
        invariant
            i <= ws@.len(),
            sum == spent(ws@, i as nat),
            sum <= i * 0xffff_ffff_ffff_ffff,
        decreases ws.len() - i,
    {
        proof {
            assert(i * 0xffff_ffff_ffff_ffff <= 0xffff_ffff_ffff_ffff * 0xffff_ffff_ffff_ffff)
                by (nonlinear_arith)
                requires
                    i <= 0xffff_ffff_ffff_ffff,
            ;
            assert((i + 1) * 0xffff_ffff_ffff_ffff == i * 0xffff_ffff_ffff_ffff
                + 0xffff_ffff_ffff_ffff) by (nonlinear_arith);
        }
        sum = sum + ws[i].tokens as u128;
        i = i + 1;
    }
    sum
}

/// How many of the first `n` workers succeeded.
pub open spec fn succeeded(ws: Seq<WorkerSummary>, n: nat) -> nat
    decreases n,
{
    if n == 0 {
        0
    } else {
        succeeded(ws, (n - 1) as nat) + if ws[n - 1].status == WorkerStatus::Done {
            1nat
        } else {
            0
        }
    }
}

fn count_succeeded(ws: &Vec<WorkerSummary>) -> (r: usize)
    ensures
        r == succeeded(ws@, ws@.len()),
{
    let mut n: usize = 0;
    let mut i: usize = 0;
    while i < ws.len()
        invariant
            i <= ws@.len(),
            n <= i,
            n == succeeded(ws@, i as nat),
        decreases ws.len() - i,
    {
        if ws[i].status == WorkerStatus::Done {
            n = n + 1;
        }
        i = i + 1;
    }
    n
}

/// Why a worker failed: what stopped it, or the first line of the last it said.
pub open spec fn reason_of(w: WorkerSummary) -> Seq<char> {
    w.id@ + " ["@ + status_label(w.status) + "] "@ + (match w.escalation {
        Some(e) => e@,
        None => first_line(w.last@),
    })
}

/// Why the workers failed.
pub open spec fn reasons(ws: Seq<WorkerSummary>) -> Seq<Seq<char>> {
    Seq::new(ws.len(), |i: int| reason_of(ws[i]))
}

fn list_reasons(ws: &Vec<WorkerSummary>) -> (r: Vec<String>)
    ensures
        views(r@) == reasons(ws@),
{
    let ghost all = reasons(ws@);
    let mut r: Vec<String> = Vec::new();
    let mut i: usize = 0;
    assert(views(r@) =~= all.take(0));
    while i < ws.len()
        invariant
            i <= ws@.len(),
            all == reasons(ws@),
            views(r@) == all.take(i as int),
        decreases ws.len() - i,
    {
        let w = &ws[i];
        let mut s = w.id.clone();
        s.append(" [");
        s.append(w.status.label());
        s.append("] ");
        match &w.escalation {
            Some(e) => s.append(e.as_str()),
            None => {
                let ls = lines_of(w.last.as_str());
                assert(views(ls@).len() == ls@.len());
                if ls.len() > 0 {
                    assert(views(ls@)[0] == ls@[0]@);
                    s.append(ls[0].as_str());
                } else {
                    assert(s@ =~= s@ + seq![]);
                }
            },
        }
        assert(s@ == reason_of(ws@[i as int]));
        r.push(s);
        assert(all.take(i + 1) =~= all.take(i as int).push(all[i as int]));
        i = i + 1;
    }
    assert(all.take(i as int) =~= all);
    r
}

/// How a fan-out ends once every worker has reported.
#[derive(Debug)]
pub enum SpawnEnd {
    /// Nothing to combine: this is the error.
    Failed(String),
    /// The report is all there is to say.
    Print,
    /// The session's model is asked this, to combine the results.
    Combine(String),
}

/// How a fan-out ends, as it reads.
pub enum End {
    Failed(Seq<char>),
    Print,
    Combine(Seq<char>),
}

impl View for SpawnEnd {
    type V = End;

    open spec fn view(&self) -> End {
        match self {
            SpawnEnd::Failed(e) => End::Failed(e@),
            SpawnEnd::Print => End::Print,
            SpawnEnd::Combine(q) => End::Combine(q@),
        }
    }
}

/// How a fan-out ends. Where every worker failed nothing is combined: a model that is
/// asked to would try to do the whole job itself.
pub open spec fn end_of(
    ws: Seq<WorkerSummary>,
    request: Seq<char>,
    no_synthesis: bool,
    synthesize: bool,
) -> End {
    let n = succeeded(ws, ws.len());
    if n == 0 {
        End::Failed(
            "all "@ + dec(ws.len()) + " workers failed; nothing to synthesize:\n  "@ + join(
                reasons(ws),
                "\n  "@,
            ),
        )
    } else if no_synthesis || !synthesize || n < 2 {
        End::Print
    } else {
        End::Combine(
            "Your "@ + dec(n)
                + " background workers just reported back (above). Combine their results into one answer to the original request: "@
                + request
                + "\n\nThis runs non-interactively and your answer is printed as the final output. Do not ask follow-up questions or offer to do more work; give the finished answer."@,
        )
    }
}

/// How a fan-out ends once every worker has reported.
pub fn spawn_end(ws: &Vec<WorkerSummary>, request: &str, no_synthesis: bool, synthesize: bool) -> (r:
    SpawnEnd)
    ensures
        r@ == end_of(ws@, request@, no_synthesis, synthesize),
{
    let n = count_succeeded(ws);
    if n == 0 {
        let mut s = "all ".to_owned();
        s.append(decimal(ws.len() as u128).as_str());
        s.append(" workers failed; nothing to synthesize:\n  ");
        let why = list_reasons(ws);
        s.append(joined(&why, "\n  ").as_str());
        return SpawnEnd::Failed(s);
    }
    if no_synthesis || !synthesize || n < 2 {
        return SpawnEnd::Print;
    }
    let mut s = "Your ".to_owned();
    s.append(decimal(n as u128).as_str());
    s.append(
        " background workers just reported back (above). Combine their results into one answer to the original request: ",
    );
    s.append(request);
    s.append(
        "\n\nThis runs non-interactively and your answer is printed as the final output. Do not ask follow-up questions or offer to do more work; give the finished answer.",
    );
    SpawnEnd::Combine(s)
}

// ---- laws -------------------------------------------------------------------

/// Nothing is combined unless two workers at least succeeded.
pub proof fn only_results_are_combined(
    ws: Seq<WorkerSummary>,
    request: Seq<char>,
    no_synthesis: bool,
    synthesize: bool,
)
    ensures
        end_of(ws, request, no_synthesis, synthesize) is Combine ==> succeeded(ws, ws.len()) >= 2
            && !no_synthesis && synthesize,
        succeeded(ws, ws.len()) == 0 ==> end_of(ws, request, no_synthesis, synthesize) is Failed,
{
}

} // verus!
