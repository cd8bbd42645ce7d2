//! The typed event stream: every step of a turn, as the writers and watchers of
//! the harness see it.
use vstd::prelude::*;

use crate::list::views;
use crate::llm::ContextBreakdown;
use crate::text::opt_view;

verus! {

/// A single event in the agent's lifecycle.
#[derive(Debug, Clone)]
pub enum Event {
    SessionStarted { id: String },
    UserMessage { text: String },
    /// A model call is in flight: until it finishes, silence means waiting.
    ModelCallStarted,
    ModelCallFinished,
    /// One completed model request, as timed around the client call.
    ModelMetrics {
        purpose: String,
        model: String,
        prompt_tokens: u32,
        completion_tokens: u32,
        reasoning_tokens: u32,
        /// What the provider says of its cache, if it says anything.
        cached_tokens: Option<u32>,
        cache_write_tokens: Option<u32>,
        context_breakdown: Option<ContextBreakdown>,
        total_ms: u64,
        first_output_ms: Option<u64>,
        /// Is the cost of the request known?
        priced: bool,
    },
    /// The session's active model changed mid-run.
    ModelChanged { from: String, to: String },
    /// A streamed chunk of model reasoning.
    Thinking { text: String },
    /// A streamed chunk of assistant text.
    MessageDelta { text: String },
    /// The final assembled assistant text for a step.
    AssistantMessage { text: String },
    ToolCall { id: String, name: String, arguments: String },
    ToolResult { id: String, name: String, ok: bool, output: String },
    Usage {
        prompt_tokens: u32,
        completion_tokens: u32,
        total_tokens: u32,
        /// Share of `completion_tokens` spent reasoning rather than answering.
        reasoning_tokens: u32,
        /// Why the completion stopped: `"length"` means it was cut off.
        finish_reason: Option<String>,
    },
    /// The loop stopped to bring the user in.
    Checkpoint { kind: String, subject: String, detail: String },
    /// The loop nudged the model back on track.
    Nudge { reason: String },
    /// Old history was summarized to stay under the context limit.
    Compaction {
        messages_before: usize,
        messages_after: usize,
        tokens_before: usize,
        tokens_after: usize,
    },
    /// Result of running the task's validation check.
    Validation { ok: bool, detail: String },
    /// Which durable memories were injected into the current turn.
    MemoryUsed { ids: Vec<String> },
    /// A setting was not honored, or something is off but not fatal.
    Warning { message: String },
    Error { message: String },
    /// The whole user turn finished, with its final outcome.
    TurnComplete { outcome: String },
}

/// What an `Event` says.
pub enum Emitted {
    SessionStarted(Seq<char>),
    UserMessage(Seq<char>),
    ModelCallStarted,
    ModelCallFinished,
    ModelMetrics {
        purpose: Seq<char>,
        model: Seq<char>,
        prompt_tokens: u32,
        completion_tokens: u32,
        reasoning_tokens: u32,
        cached_tokens: Option<u32>,
        cache_write_tokens: Option<u32>,
        context_breakdown: Option<ContextBreakdown>,
        total_ms: u64,
        first_output_ms: Option<u64>,
        priced: bool,
    },
    ModelChanged(Seq<char>, Seq<char>),
    Thinking(Seq<char>),
    MessageDelta(Seq<char>),
    AssistantMessage(Seq<char>),
    ToolCall { id: Seq<char>, name: Seq<char>, arguments: Seq<char> },
    ToolResult { id: Seq<char>, name: Seq<char>, ok: bool, output: Seq<char> },
    Usage {
        prompt_tokens: u32,
        completion_tokens: u32,
        total_tokens: u32,
        reasoning_tokens: u32,
        finish_reason: Option<Seq<char>>,
    },
    Checkpoint { kind: Seq<char>, subject: Seq<char>, detail: Seq<char> },
    Nudge(Seq<char>),
    Compaction {
        messages_before: usize,
        messages_after: usize,
        tokens_before: usize,
        tokens_after: usize,
    },
    Validation(bool, Seq<char>),
    MemoryUsed(Seq<Seq<char>>),
    Warning(Seq<char>),
    Error(Seq<char>),
    TurnComplete(Seq<char>),
}

impl View for Event {
    type V = Emitted;

    open spec fn view(&self) -> Emitted {
        match self {
            Event::SessionStarted { id } => Emitted::SessionStarted(id@),
            Event::UserMessage { text } => Emitted::UserMessage(text@),
            Event::ModelCallStarted => Emitted::ModelCallStarted,
            Event::ModelCallFinished => Emitted::ModelCallFinished,
            Event::ModelMetrics {
                purpose,
                model,
                prompt_tokens,
                completion_tokens,
                reasoning_tokens,
                cached_tokens,
                cache_write_tokens,
                context_breakdown,
                total_ms,
                first_output_ms,
                priced,
            } => Emitted::ModelMetrics {
                purpose: purpose@,
                model: model@,
                prompt_tokens: *prompt_tokens,
                completion_tokens: *completion_tokens,
                reasoning_tokens: *reasoning_tokens,
                cached_tokens: *cached_tokens,
                cache_write_tokens: *cache_write_tokens,
                context_breakdown: *context_breakdown,
                total_ms: *total_ms,
                first_output_ms: *first_output_ms,
                priced: *priced,
            },
            Event::ModelChanged { from, to } => Emitted::ModelChanged(from@, to@),
            Event::Thinking { text } => Emitted::Thinking(text@),
            Event::MessageDelta { text } => Emitted::MessageDelta(text@),
            Event::AssistantMessage { text } => Emitted::AssistantMessage(text@),
            Event::ToolCall { id, name, arguments } => Emitted::ToolCall {
                id: id@,
                name: name@,
                arguments: arguments@,
            },
            Event::ToolResult { id, name, ok, output } => Emitted::ToolResult {
                id: id@,
                name: name@,
                ok: *ok,
                output: output@,
            },
            Event::Usage {
                prompt_tokens,
                completion_tokens,
                total_tokens,
                reasoning_tokens,
                finish_reason,
            } => Emitted::Usage {
                prompt_tokens: *prompt_tokens,
                completion_tokens: *completion_tokens,
                total_tokens: *total_tokens,
                reasoning_tokens: *reasoning_tokens,
                finish_reason: opt_view(*finish_reason),
            },
            Event::Checkpoint { kind, subject, detail } => Emitted::Checkpoint {
                kind: kind@,
                subject: subject@,
                detail: detail@,
            },
            Event::Nudge { reason } => Emitted::Nudge(reason@),
            Event::Compaction { messages_before, messages_after, tokens_before, tokens_after } => Emitted::Compaction {
                messages_before: *messages_before,
                messages_after: *messages_after,
                tokens_before: *tokens_before,
                tokens_after: *tokens_after,
            },
            Event::Validation { ok, detail } => Emitted::Validation(*ok, detail@),
            Event::MemoryUsed { ids } => Emitted::MemoryUsed(views(ids@)),
            Event::Warning { message } => Emitted::Warning(message@),
            Event::Error { message } => Emitted::Error(message@),
            Event::TurnComplete { outcome } => Emitted::TurnComplete(outcome@),
        }
    }
}

} // verus!
