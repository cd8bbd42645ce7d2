//! The agent's tools: what each may do, and what it reports.
//!
//! A tool's run is split: what it decides and what it says is here, and whatever
//! touches the machine happens in between.
use vstd::prelude::*;
use vstd::string::*;

use crate::paths::{join_path, joined_path};

pub mod approval;
pub mod bash;
pub mod builtin;
pub mod checkpoint;
pub mod doc;
pub mod edit;
pub mod policy;
pub mod read;
pub mod recall;
pub mod search;
pub mod skill;
pub mod web;
pub mod write;

pub use crate::tools::policy::dangerous_command;

verus! {

broadcast use crate::list::group_lists;

/// The structured result of a tool run.
#[derive(Debug, PartialEq, Eq, Clone)]
pub struct ToolOutput {
    pub content: String,
    pub is_error: bool,
    /// If true, the whole turn is aborted.
    pub fatal: bool,
}

/// What a `ToolOutput` says.
pub struct Output {
    pub content: Seq<char>,
    pub is_error: bool,
    pub fatal: bool,
}

impl View for ToolOutput {
    type V = Output;

    open spec fn view(&self) -> Output {
        Output { content: self.content@, is_error: self.is_error, fatal: self.fatal }
    }
}

/// A result.
pub open spec fn fine(content: Seq<char>) -> Output {
    Output { content, is_error: false, fatal: false }
}

/// An error that the model can act on.
pub open spec fn wrong(content: Seq<char>) -> Output {
    Output { content, is_error: true, fatal: false }
}

/// A refusal that ends the turn.
pub open spec fn stop(content: Seq<char>) -> Output {
    Output { content, is_error: true, fatal: true }
}

impl ToolOutput {
    /// A result.
    pub fn ok(content: &str) -> (r: ToolOutput)
        ensures
            r@ == fine(content@),
    {
        ToolOutput { content: content.to_owned(), is_error: false, fatal: false }
    }

    /// An error that the model can act on.
    pub fn error(content: &str) -> (r: ToolOutput)
        ensures
            r@ == wrong(content@),
    {
        ToolOutput { content: content.to_owned(), is_error: true, fatal: false }
    }

    /// A hard stop: the turn should end immediately.
    pub fn blocked(content: &str) -> (r: ToolOutput)
        ensures
            r@ == stop(content@),
    {
        ToolOutput { content: content.to_owned(), is_error: true, fatal: true }
    }
}

/// Where a tool runs. The timeout is in seconds.
#[derive(Debug, Clone)]
pub struct ToolContext {
    pub cwd: String,
    pub session_id: String,
    pub bash_timeout: u64,
    /// Spawned workers propose memories instead of writing them.
    pub is_worker: bool,
}

/// Resolve a possibly relative path argument against the tool's directory.
pub fn resolve_path(ctx: &ToolContext, p: &str) -> (r: String)
    ensures
        r@ == joined_path(ctx.cwd@, p@),
{
    join_path(ctx.cwd.as_str(), p)
}

/// The error for an argument that is not there.
pub open spec fn missing(key: Seq<char>) -> Output {
    wrong("missing required argument: "@ + key)
}

/// The error for an argument that is not there.
pub fn missing_argument(key: &str) -> (r: ToolOutput)
    ensures
        r@ == missing(key@),
{
    let mut s = "missing required argument: ".to_owned();
    s.append(key);
    ToolOutput { content: s, is_error: true, fatal: false }
}

/// The names of the tools that can be run, in the order in which they were registered.
#[derive(Default)]
pub struct ToolRegistry {
    order: Vec<String>,
}

impl View for ToolRegistry {
    type V = Seq<Seq<char>>;

    closed spec fn view(&self) -> Seq<Seq<char>> {
        crate::list::views(self.order@)
    }
}

/// The names once a tool is registered: one that is there keeps its place.
pub open spec fn registered(names: Seq<Seq<char>>, name: Seq<char>) -> Seq<Seq<char>> {
    if names.contains(name) {
        names
    } else {
        names.push(name)
    }
}

impl ToolRegistry {
    /// No tools.
    pub fn new() -> (r: ToolRegistry)
        ensures
            r@ == Seq::<Seq<char>>::empty(),
    {
        let r = ToolRegistry { order: Vec::new() };
        assert(r@ =~= Seq::<Seq<char>>::empty());
        r
    }

    /// Register a tool: a second one of the same name takes the first one's place.
    pub fn register(&mut self, name: &str)
        ensures
            final(self)@ == registered(old(self)@, name@),
    {
        if !crate::text::any_same(&self.order, name) {
            self.order.push(name.to_owned());
        }
    }

    /// Is there a tool of that name?
    pub fn has_tool(&self, name: &str) -> (r: bool)
        ensures
            r == self@.contains(name@),
    {
        crate::text::any_same(&self.order, name)
    }

    /// The names, in the order in which they were registered.
    pub fn names(&self) -> (r: Vec<String>)
        ensures
            crate::list::views(r@) == self@,
    {
        crate::text::copy_texts(&self.order)
    }
}

/// The answer to a call of a tool that is not there: the model is told, and the turn
/// goes on.
pub fn unknown_tool(name: &str) -> (r: ToolOutput)
    ensures
        r@ == wrong("unknown tool: "@ + name@),
{
    let mut s = "unknown tool: ".to_owned();
    s.append(name);
    ToolOutput { content: s, is_error: true, fatal: false }
}

/// No tool is advertised twice, however the tools are registered.
pub proof fn tools_stay_distinct(names: Seq<Seq<char>>, name: Seq<char>)
    requires
        names.no_duplicates(),
    ensures
        registered(names, name).no_duplicates(),
        registered(names, name).contains(name),
        registered(registered(names, name), name) == registered(names, name),
{
    if !names.contains(name) {
        assert(names.push(name)[names.len() as int] == name);
    }
}

/// An answer says what it was made of, and only a stop ends the turn.
pub proof fn an_answer_says_what_it_is(text: Seq<char>)
    ensures
        fine(text).content == text && !fine(text).is_error && !fine(text).fatal,
        wrong(text).content == text && wrong(text).is_error && !wrong(text).fatal,
        stop(text).content == text && stop(text).is_error && stop(text).fatal,
{
}

} // verus!
