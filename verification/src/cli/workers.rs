//! `/agents` and `/skill`.
use vstd::prelude::*;
use vstd::string::*;

use crate::cli::{complained, rest_from, rest_of, told, word_at, word_or, Line, Said};
use crate::list::{group_lists, join, views};
use crate::text::{dec, decimal, joined, same, trim, trimmed};
use crate::worker::{status_label, WorkerSummary};

verus! {

broadcast use group_lists;

/// What `/agents` is asked to do.
#[derive(Debug)]
pub enum AgentsOrder {
    List,
    Show(String),
    Kill(String),
    Nudge { id: String, message: String },
    DropQueued,
    /// There is only something to say.
    Say(Line),
}

/// What `/agents` is asked to do, as it reads.
pub enum AgentsWish {
    List,
    Show(Seq<char>),
    Kill(Seq<char>),
    Nudge(Seq<char>, Seq<char>),
    DropQueued,
    Say(Said),
}

impl View for AgentsOrder {
    type V = AgentsWish;

    open spec fn view(&self) -> AgentsWish {
        match self {
            AgentsOrder::List => AgentsWish::List,
            AgentsOrder::Show(id) => AgentsWish::Show(id@),
            AgentsOrder::Kill(id) => AgentsWish::Kill(id@),
            AgentsOrder::Nudge { id, message } => AgentsWish::Nudge(id@, message@),
            AgentsOrder::DropQueued => AgentsWish::DropQueued,
            AgentsOrder::Say(l) => AgentsWish::Say(l@),
        }
    }
}

/// What `/agents` is asked to do.
pub open spec fn agents_wish(ws: Seq<Seq<char>>) -> AgentsWish {
    let sub = word_or(ws, 0, "list"@);
    if sub == "list"@ || sub.len() == 0 {
        AgentsWish::List
    } else if sub == "show"@ || sub == "result"@ {
        if ws.len() > 1 {
            AgentsWish::Show(ws[1])
        } else {
            AgentsWish::Say(told("usage: /agents show <id>"@))
        }
    } else if sub == "kill"@ || sub == "stop"@ {
        if ws.len() > 1 {
            AgentsWish::Kill(ws[1])
        } else {
            AgentsWish::Say(told("usage: /agents kill <id>"@))
        }
    } else if sub == "nudge"@ || sub == "steer"@ {
        if ws.len() > 1 && trim(rest_of(ws, 2)).len() > 0 {
            AgentsWish::Nudge(ws[1], rest_of(ws, 2))
        } else {
            AgentsWish::Say(told("usage: /agents nudge <id> <message>"@))
        }
    } else if sub == "drop-queued"@ || sub == "clear-queue"@ {
        AgentsWish::DropQueued
    } else {
        AgentsWish::Say(complained("unknown /agents subcommand: "@ + sub))
    }
}

/// What `/agents` is asked to do, by the words behind it.
pub fn agents_order(ws: &Vec<String>) -> (r: AgentsOrder)
    ensures
        r@ == agents_wish(views(ws@)),
{
    let sub = word_at(ws, 0, "list");
    if ws.len() > 1 {
        assert(views(ws@)[1] == ws@[1]@);
    }
    if same(sub, "list") || sub.unicode_len() == 0 {
        AgentsOrder::List
    } else if same(sub, "show") || same(sub, "result") {
        if ws.len() > 1 {
            AgentsOrder::Show(ws[1].clone())
        } else {
            AgentsOrder::Say(Line::out("usage: /agents show <id>".to_owned()))
        }
    } else if same(sub, "kill") || same(sub, "stop") {
        if ws.len() > 1 {
            AgentsOrder::Kill(ws[1].clone())
        } else {
            AgentsOrder::Say(Line::out("usage: /agents kill <id>".to_owned()))
        }
    } else if same(sub, "nudge") || same(sub, "steer") {
        let message = rest_from(ws, 2);
        if ws.len() > 1 && trimmed(message.as_str()).as_str().unicode_len() > 0 {
            AgentsOrder::Nudge { id: ws[1].clone(), message }
        } else {
            AgentsOrder::Say(Line::out("usage: /agents nudge <id> <message>".to_owned()))
        }
    } else if same(sub, "drop-queued") || same(sub, "clear-queue") {
        AgentsOrder::DropQueued
    } else {
        let mut s = "unknown /agents subcommand: ".to_owned();
        s.append(sub);
        AgentsOrder::Say(Line::err(s))
    }
}

/// A worker in the list.
pub open spec fn agent_words(w: WorkerSummary) -> Seq<char> {
    w.id@ + " ["@ + status_label(w.status) + "] "@ + dec(w.tool_calls as nat) + " tools · "@ + dec(
        w.changed@.len(),
    ) + " changed"@ + (if w.nudges > 0 {
        " · "@ + dec(w.nudges as nat) + " nudges"@
    } else {
        seq![]
    }) + (match w.model {
        Some(m) => " · on "@ + m@,
        None => seq![],
    }) + " — "@ + w.task@
}

/// A worker in the list.
pub fn agent_line(w: &WorkerSummary) -> (r: String)
    ensures
        r@ == agent_words(*w),
{
    let mut s = w.id.clone();
    s.append(" [");
    s.append(w.status.label());
    s.append("] ");
    s.append(decimal(w.tool_calls as u128).as_str());
    s.append(" tools · ");
    s.append(decimal(w.changed.len() as u128).as_str());
    s.append(" changed");
    if w.nudges > 0 {
        let mut n = " · ".to_owned();
        n.append(decimal(w.nudges as u128).as_str());
        n.append(" nudges");
        s.append(n.as_str());
    } else {
        assert(s@ =~= s@ + seq![]);
    }
    match &w.model {
        Some(m) => {
            let mut on = " · on ".to_owned();
            on.append(m.as_str());
            s.append(on.as_str());
        },
        None => {
            assert(s@ =~= s@ + seq![]);
        },
    }
    s.append(" — ");
    s.append(w.task.as_str());
    s
}

/// A worker in full, line by line.
pub open spec fn agent_lines(w: WorkerSummary) -> Seq<Seq<char>> {
    seq![w.id@ + " ["@ + status_label(w.status) + "]"@] + (match w.escalation {
        Some(reason) => seq!["stopped by supervisor: "@ + reason@],
        None => seq![],
    }) + (if w.changed@.len() > 0 {
        seq!["changed: "@ + join(views(w.changed@), ", "@)]
    } else {
        seq![]
    }) + seq![
        if w.result@.len() == 0 {
            w.last@
        } else {
            w.result@
        },
    ]
}

/// A worker in full, line by line.
pub fn agent_detail(w: &WorkerSummary) -> (r: Vec<String>)
    ensures
        views(r@) == agent_lines(*w),
{
    let mut out: Vec<String> = Vec::new();
    let mut s = w.id.clone();
    s.append(" [");
    s.append(w.status.label());
    s.append("]");
    out.push(s);
    if let Some(reason) = &w.escalation {
        let mut s = "stopped by supervisor: ".to_owned();
        s.append(reason.as_str());
        out.push(s);
    }
    if w.changed.len() > 0 {
        let mut s = "changed: ".to_owned();
        s.append(joined(&w.changed, ", ").as_str());
        out.push(s);
    }
    if w.result.as_str().unicode_len() == 0 {
        out.push(w.last.clone());
    } else {
        out.push(w.result.clone());
    }
    assert(views(out@) =~= agent_lines(*w));
    out
}

} // verus!
