//! What the turn loop asks its surroundings to do.
use vstd::prelude::*;
use vstd::string::*;

use crate::event::{Emitted, Event};
use crate::json::{Json, Tree};
use crate::llm::{Message, Said};

verus! {

/// How a user turn ended.
#[derive(Debug, PartialEq, Eq, Clone)]
pub enum TurnOutcome {
    /// Model finished and validation passed, or there was no validator.
    Done,
    /// Validation kept failing until retries were exhausted.
    ValidationFailed(String),
    /// The model got stuck repeating itself and was escalated.
    Stuck(String),
    /// A destructive command was refused and the turn was hard-stopped.
    Blocked(String),
    /// Hit the per-attempt step cap.
    MaxSteps,
    /// Cancelled mid-turn.
    Aborted,
}

/// What a `TurnOutcome` says.
pub enum Ending {
    Done,
    ValidationFailed(Seq<char>),
    Stuck(Seq<char>),
    Blocked(Seq<char>),
    MaxSteps,
    Aborted,
}

impl View for TurnOutcome {
    type V = Ending;

    open spec fn view(&self) -> Ending {
        match self {
            TurnOutcome::Done => Ending::Done,
            TurnOutcome::ValidationFailed(r) => Ending::ValidationFailed(r@),
            TurnOutcome::Stuck(r) => Ending::Stuck(r@),
            TurnOutcome::Blocked(r) => Ending::Blocked(r@),
            TurnOutcome::MaxSteps => Ending::MaxSteps,
            TurnOutcome::Aborted => Ending::Aborted,
        }
    }
}

/// The line for an ending.
pub open spec fn ending_label(e: Ending) -> Seq<char> {
    match e {
        Ending::Done => "done"@,
        Ending::ValidationFailed(r) => "validation failed: "@ + r,
        Ending::Stuck(r) => "stuck: "@ + r,
        Ending::Blocked(r) => "blocked: "@ + r,
        Ending::MaxSteps => "hit step limit"@,
        Ending::Aborted => "aborted"@,
    }
}

impl TurnOutcome {
    /// The line for this outcome.
    pub fn label(&self) -> (r: String)
        ensures
            r@ == ending_label(self@),
    {
        match self {
            TurnOutcome::Done => "done".to_owned(),
            TurnOutcome::ValidationFailed(r) => {
                let mut s = "validation failed: ".to_owned();
                s.append(r.as_str());
                s
            },
            TurnOutcome::Stuck(r) => {
                let mut s = "stuck: ".to_owned();
                s.append(r.as_str());
                s
            },
            TurnOutcome::Blocked(r) => {
                let mut s = "blocked: ".to_owned();
                s.append(r.as_str());
                s
            },
            TurnOutcome::MaxSteps => "hit step limit".to_owned(),
            TurnOutcome::Aborted => "aborted".to_owned(),
        }
    }

    /// Did the turn do what was asked?
    pub fn is_success(&self) -> (r: bool)
        ensures
            r == (self@ is Done),
    {
        match self {
            TurnOutcome::Done => true,
            _ => false,
        }
    }
}

/// Result of a user turn: the final assistant text plus the outcome.
#[derive(Debug)]
pub struct TurnResult {
    pub text: String,
    pub outcome: TurnOutcome,
}

/// One thing for the surroundings of a turn to do.
#[derive(Debug)]
pub enum Command {
    /// Publish an event.
    Emit(Event),
    /// Append a message to the session.
    Append(Message),
    /// Say whether the turn was cancelled, and hand over what was posted to it.
    Poll,
    /// Say how many tokens the session's messages come to.
    Measure,
    /// Summarize old history.
    Compact,
    /// Ask the model for a completion of the session.
    CallModel,
    /// Run a tool.
    RunTool { name: String, arguments: Json },
    /// Run the validation check.
    Validate,
    /// The turn is over.
    Finish(TurnResult),
    /// The turn failed: the model could not be asked.
    Fail(String),
}

/// What a `Command` says.
pub enum Order {
    Emit(Emitted),
    Append(Said),
    Poll,
    Measure,
    Compact,
    CallModel,
    RunTool(Seq<char>, Tree),
    Validate,
    Finish(Ending, Seq<char>),
    Fail(Seq<char>),
}

impl View for Command {
    type V = Order;

    open spec fn view(&self) -> Order {
        match self {
            Command::Emit(e) => Order::Emit(e@),
            Command::Append(m) => Order::Append(m@),
            Command::Poll => Order::Poll,
            Command::Measure => Order::Measure,
            Command::Compact => Order::Compact,
            Command::CallModel => Order::CallModel,
            Command::RunTool { name, arguments } => Order::RunTool(name@, arguments@),
            Command::Validate => Order::Validate,
            Command::Finish(r) => Order::Finish(r.outcome@, r.text@),
            Command::Fail(e) => Order::Fail(e@),
        }
    }
}

/// What a list of commands says.
pub open spec fn orders(v: Seq<Command>) -> Seq<Order> {
    Seq::new(v.len(), |i: int| v[i]@)
}

/// The view of a list that grew by one command.
pub broadcast proof fn lemma_orders_push(v: Seq<Command>, x: Command)
    ensures
        #[trigger] orders(v.push(x)) == orders(v).push(x@),
{
    assert(orders(v.push(x)) =~= orders(v).push(x@));
}

} // verus!
