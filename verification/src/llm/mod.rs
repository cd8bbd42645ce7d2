//! Messages, completions and what a provider is asked for.
use vstd::prelude::*;
use vstd::string::*;

use crate::json::{get_str, list_of, member, str_arg, trees, u64_of, Json, Number, Tree};
use crate::list::group_lists;
use crate::tally::TextSet;
use crate::text::{
    ascii_lowered, contains, copy_opt, dec, decimal, has_text, lower_ascii, opt_view, same, trim,
    trimmed,
};

pub mod openai;
pub mod rescue;

verus! {

broadcast use group_lists;

/// A conversation role.
#[derive(Debug, Clone, Copy, PartialEq, Eq, Structural)]
pub enum Role {
    System,
    User,
    Assistant,
    Tool,
}

/// The name of a role on the wire.
pub open spec fn role_name(r: Role) -> Seq<char> {
    match r {
        Role::System => "system"@,
        Role::User => "user"@,
        Role::Assistant => "assistant"@,
        Role::Tool => "tool"@,
    }
}

/// The name of a role on the wire.
pub fn role_str(role: Role) -> (r: &'static str)
    ensures
        r@ == role_name(role),
{
    match role {
        Role::System => "system",
        Role::User => "user",
        Role::Assistant => "assistant",
        Role::Tool => "tool",
    }
}

/// A single tool invocation requested by the model.
#[derive(Debug, PartialEq, Eq)]
pub struct ToolCall {
    pub id: String,
    pub name: String,
    /// The arguments, as JSON text.
    pub arguments: String,
}

/// What a `ToolCall` says.
pub struct Call {
    pub id: Seq<char>,
    pub name: Seq<char>,
    pub arguments: Seq<char>,
}

impl View for ToolCall {
    type V = Call;

    open spec fn view(&self) -> Call {
        Call { id: self.id@, name: self.name@, arguments: self.arguments@ }
    }
}

/// What a list of calls says.
pub open spec fn calls_view(v: Seq<ToolCall>) -> Seq<Call> {
    Seq::new(v.len(), |i: int| v[i]@)
}

impl Clone for ToolCall {
    fn clone(&self) -> (r: ToolCall)
        ensures
            r@ == self@,
    {
        self.copy()
    }
}

impl ToolCall {
    /// A copy of this call.
    pub fn copy(&self) -> (r: ToolCall)
        ensures
            r@ == self@,
    {
        ToolCall {
            id: self.id.clone(),
            name: self.name.clone(),
            arguments: self.arguments.clone(),
        }
    }
}

/// A copy of a list of calls.
pub fn copy_calls(v: &Vec<ToolCall>) -> (r: Vec<ToolCall>)
    ensures
        calls_view(r@) == calls_view(v@),
{
    let mut r: Vec<ToolCall> = Vec::new();
    let mut i: usize = 0;
    while i < v.len()
        invariant
            i <= v@.len(),
            calls_view(r@) == calls_view(v@).take(i as int),
        decreases v.len() - i,
    {
        let ghost before = calls_view(r@);
        r.push(v[i].copy());
        i = i + 1;
        assert(calls_view(r@) =~= before.push(v@[i - 1]@));
        assert(calls_view(r@) =~= calls_view(v@).take(i as int));
    }
    assert(calls_view(r@) =~= calls_view(v@));
    r
}

/// One conversation message.
#[derive(Debug, PartialEq, Eq)]
pub struct Message {
    pub role: Role,
    pub content: Option<String>,
    pub tool_calls: Vec<ToolCall>,
    /// Links a tool result back to its call.
    pub tool_call_id: Option<String>,
    /// The tool a result came from.
    pub name: Option<String>,
    /// The reasoning the model emitted before this message. Kept for the
    /// transcript only; it never goes back to the provider.
    pub reasoning: Option<String>,
    /// Why the completion that this message came from stopped.
    pub finish_reason: Option<String>,
    /// Which model answered.
    pub model: Option<String>,
}

/// What a `Message` says.
pub struct Said {
    pub role: Role,
    pub content: Option<Seq<char>>,
    pub tool_calls: Seq<Call>,
    pub tool_call_id: Option<Seq<char>>,
    pub name: Option<Seq<char>>,
    pub reasoning: Option<Seq<char>>,
    pub finish_reason: Option<Seq<char>>,
    pub model: Option<Seq<char>>,
}

impl View for Message {
    type V = Said;

    open spec fn view(&self) -> Said {
        Said {
            role: self.role,
            content: opt_view(self.content),
            tool_calls: calls_view(self.tool_calls@),
            tool_call_id: opt_view(self.tool_call_id),
            name: opt_view(self.name),
            reasoning: opt_view(self.reasoning),
            finish_reason: opt_view(self.finish_reason),
            model: opt_view(self.model),
        }
    }
}

/// A message that holds nothing but a text.
pub open spec fn plain(role: Role, text: Seq<char>) -> Said {
    Said {
        role,
        content: Some(text),
        tool_calls: seq![],
        tool_call_id: None,
        name: None,
        reasoning: None,
        finish_reason: None,
        model: None,
    }
}

/// The result of a tool call.
pub open spec fn result_of(id: Seq<char>, name: Seq<char>, content: Seq<char>) -> Said {
    Said { tool_call_id: Some(id), name: Some(name), ..plain(Role::Tool, content) }
}

impl Clone for Message {
    fn clone(&self) -> (r: Message)
        ensures
            r@ == self@,
    {
        self.copy()
    }
}

impl Message {
    fn bare(role: Role, text: &str) -> (r: Message)
        ensures
            r@ == plain(role, text@),
    {
        let r = Message {
            role,
            content: Some(text.to_owned()),
            tool_calls: Vec::new(),
            tool_call_id: None,
            name: None,
            reasoning: None,
            finish_reason: None,
            model: None,
        };
        assert(calls_view(r.tool_calls@) =~= seq![]);
        r
    }

    /// A system message.
    pub fn system(text: &str) -> (r: Message)
        ensures
            r@ == plain(Role::System, text@),
    {
        Message::bare(Role::System, text)
    }

    /// A user message.
    pub fn user(text: &str) -> (r: Message)
        ensures
            r@ == plain(Role::User, text@),
    {
        Message::bare(Role::User, text)
    }

    /// An assistant message.
    pub fn assistant(content: Option<String>, tool_calls: Vec<ToolCall>) -> (r: Message)
        ensures
            r@ == (Said {
                content: opt_view(content),
                tool_calls: calls_view(tool_calls@),
                ..plain(Role::Assistant, seq![])
            }),
    {
        Message {
            role: Role::Assistant,
            content,
            tool_calls,
            tool_call_id: None,
            name: None,
            reasoning: None,
            finish_reason: None,
            model: None,
        }
    }

    /// The result of a tool call.
    pub fn tool_result(call_id: &str, name: &str, content: &str) -> (r: Message)
        ensures
            r@ == result_of(call_id@, name@, content@),
    {
        let mut m = Message::bare(Role::Tool, content);
        m.tool_call_id = Some(call_id.to_owned());
        m.name = Some(name.to_owned());
        m
    }

    /// Attach the provider's reasoning trace, finish reason and model.
    pub fn with_trace(
        self,
        reasoning: Option<String>,
        finish_reason: Option<String>,
        model: Option<String>,
    ) -> (r: Message)
        ensures
            r@ == (Said {
                reasoning: opt_view(reasoning),
                finish_reason: opt_view(finish_reason),
                model: opt_view(model),
                ..self@
            }),
    {
        Message {
            role: self.role,
            content: self.content,
            tool_calls: self.tool_calls,
            tool_call_id: self.tool_call_id,
            name: self.name,
            reasoning,
            finish_reason,
            model,
        }
    }

    /// A copy of this message.
    pub fn copy(&self) -> (r: Message)
        ensures
            r@ == self@,
    {
        Message {
            role: self.role,
            content: copy_opt(&self.content),
            tool_calls: copy_calls(&self.tool_calls),
            tool_call_id: copy_opt(&self.tool_call_id),
            name: copy_opt(&self.name),
            reasoning: copy_opt(&self.reasoning),
            finish_reason: copy_opt(&self.finish_reason),
            model: copy_opt(&self.model),
        }
    }
}

/// What a list of messages says.
pub open spec fn said(v: Seq<Message>) -> Seq<Said> {
    Seq::new(v.len(), |i: int| v[i]@)
}

/// A tool advertised to the model, with the JSON schema of its parameters.
#[derive(Debug, PartialEq, Eq, Clone)]
pub struct ToolDef {
    pub name: String,
    pub description: String,
    pub parameters: Json,
}

/// Token accounting for a completion.
#[derive(Debug, Clone, Copy, PartialEq, Eq, Structural)]
pub struct Usage {
    pub prompt_tokens: u32,
    pub completion_tokens: u32,
    pub total_tokens: u32,
    /// The share of `completion_tokens` spent reasoning, where the provider
    /// breaks it out.
    pub reasoning_tokens: u32,
}

/// Nothing used.
pub open spec fn no_usage() -> Usage {
    Usage { prompt_tokens: 0, completion_tokens: 0, total_tokens: 0, reasoning_tokens: 0 }
}

impl Default for Usage {
    fn default() -> (r: Usage)
        ensures
            r == no_usage(),
    {
        Usage { prompt_tokens: 0, completion_tokens: 0, total_tokens: 0, reasoning_tokens: 0 }
    }
}

/// Rough token estimate for the pieces that were assembled into a prompt.
#[derive(Debug, Clone, Copy, PartialEq, Eq, Structural, Default)]
pub struct ContextBreakdown {
    pub system_tokens: u32,
    pub loaded_skill_tokens: u32,
    pub memory_tokens: u32,
    pub history_tokens: u32,
    pub latest_user_tokens: u32,
    pub tool_schema_tokens: u32,
}

/// Marks a failure that is worth trying again.
#[derive(Debug, Clone, Copy, PartialEq, Eq, Structural)]
pub struct Transient;

/// One link of an error's chain of causes, as the transport reports it.
#[derive(Debug, Clone, Copy, PartialEq, Eq, Structural)]
pub struct Cause {
    /// It carries the [`Transient`] marker.
    pub marked: bool,
    /// It is a transport failure: the connection, a timeout, or the request.
    pub connect: bool,
    pub timeout: bool,
    pub request: bool,
}

/// Is this link worth trying again?
pub open spec fn passing(c: Cause) -> bool {
    c.marked || c.connect || c.timeout || c.request
}

/// Does any cause carry the transient marker, or is it a transport failure?
pub fn is_transient(chain: &Vec<Cause>) -> (r: bool)
    ensures
        r == exists|i: int| 0 <= i < chain@.len() && passing(#[trigger] chain@[i]),
{
    let mut i: usize = 0;
    while i < chain.len()
        invariant
            i <= chain@.len(),
            forall|j: int| 0 <= j < i ==> !passing(#[trigger] chain@[j]),
        decreases chain.len() - i,
    {
        let c = chain[i];
        if c.marked || c.connect || c.timeout || c.request {
            assert(passing(chain@[i as int]));
            return true;
        }
        i = i + 1;
    }
    false
}

/// A request for one model completion. Sampling values are JSON numbers.
#[derive(Debug, Clone)]
pub struct ChatRequest {
    pub model: String,
    pub messages: Vec<Message>,
    pub tools: Vec<ToolDef>,
    pub temperature: Option<Number>,
    pub top_p: Option<Number>,
    pub top_k: Option<u32>,
    pub max_tokens: Option<u32>,
    /// How much the model may deliberate. `None` sends nothing at all.
    pub thinking: Option<Thinking>,
    /// What a router sorts its providers by: `throughput`, `latency` or `price`.
    pub sort: Option<String>,
}

/// How much deliberation to ask for.
#[derive(Debug, Clone, Copy, PartialEq, Eq, Structural)]
pub enum Thinking {
    Off,
    On,
    /// At most this many reasoning tokens before answering.
    Budget(u32),
    /// How hard to think, in the providers' own vocabulary.
    Effort(Effort),
}

/// Reasoning effort levels, lowest to highest.
#[derive(Debug, Clone, Copy, PartialEq, Eq, Structural)]
pub enum Effort {
    Minimal,
    Low,
    Medium,
    High,
    Xhigh,
    Max,
}

/// The effort that a word names, whatever its case and the space around it.
pub open spec fn effort_named(s: Seq<char>) -> Option<Effort> {
    let t = ascii_lowered(trim(s));
    if t == "minimal"@ {
        Some(Effort::Minimal)
    } else if t == "low"@ {
        Some(Effort::Low)
    } else if t == "medium"@ || t == "med"@ {
        Some(Effort::Medium)
    } else if t == "high"@ {
        Some(Effort::High)
    } else if t == "xhigh"@ || t == "x-high"@ {
        Some(Effort::Xhigh)
    } else if t == "max"@ {
        Some(Effort::Max)
    } else {
        None
    }
}

/// The word for an effort.
pub open spec fn effort_word(e: Effort) -> Seq<char> {
    match e {
        Effort::Minimal => "minimal"@,
        Effort::Low => "low"@,
        Effort::Medium => "medium"@,
        Effort::High => "high"@,
        Effort::Xhigh => "xhigh"@,
        Effort::Max => "max"@,
    }
}

impl Effort {
    /// Parse an effort level.
    pub fn parse(s: &str) -> (r: Option<Effort>)
        ensures
            r == effort_named(s@),
    {
        let t = trimmed(s);
        let t = lower_ascii(t.as_str());
        let t = t.as_str();
        if same(t, "minimal") {
            Some(Effort::Minimal)
        } else if same(t, "low") {
            Some(Effort::Low)
        } else if same(t, "medium") || same(t, "med") {
            Some(Effort::Medium)
        } else if same(t, "high") {
            Some(Effort::High)
        } else if same(t, "xhigh") || same(t, "x-high") {
            Some(Effort::Xhigh)
        } else if same(t, "max") {
            Some(Effort::Max)
        } else {
            None
        }
    }

    /// The word for this effort.
    pub fn as_str(self) -> (r: &'static str)
        ensures
            r@ == effort_word(self),
    {
        match self {
            Effort::Minimal => "minimal",
            Effort::Low => "low",
            Effort::Medium => "medium",
            Effort::High => "high",
            Effort::Xhigh => "xhigh",
            Effort::Max => "max",
        }
    }
}

impl Thinking {
    /// Every setting except `Off` means the model reasons.
    pub fn enabled(self) -> (r: bool)
        ensures
            r == (self != Thinking::Off),
    {
        self != Thinking::Off
    }

    /// The token budget, if that is the setting.
    pub fn budget(self) -> (r: Option<u32>)
        ensures
            r == match self {
                Thinking::Budget(n) => Some(n),
                _ => None,
            },
    {
        match self {
            Thinking::Budget(n) => Some(n),
            _ => None,
        }
    }

    /// The effort, if that is the setting.
    pub fn effort(self) -> (r: Option<Effort>)
        ensures
            r == match self {
                Thinking::Effort(e) => Some(e),
                _ => None,
            },
    {
        match self {
            Thinking::Effort(e) => Some(e),
            _ => None,
        }
    }
}

/// How a provider spells "don't think".
#[derive(Debug, Clone, Copy, PartialEq, Eq, Structural)]
pub enum ThinkingDialect {
    /// `reasoning: {"enabled": false}`.
    Reasoning,
    /// `chat_template_kwargs: {"enable_thinking": false}`.
    ChatTemplate,
}

impl Default for ThinkingDialect {
    fn default() -> (r: ThinkingDialect)
        ensures
            r == ThinkingDialect::Reasoning,
    {
        ThinkingDialect::Reasoning
    }
}

/// The dialect that a word names.
pub open spec fn dialect_named(s: Seq<char>) -> Option<ThinkingDialect> {
    let t = ascii_lowered(trim(s));
    if t == "reasoning"@ {
        Some(ThinkingDialect::Reasoning)
    } else if t == "chat-template"@ || t == "chat_template"@ {
        Some(ThinkingDialect::ChatTemplate)
    } else {
        None
    }
}

/// Does the endpoint name one of the hosted gateways?
pub open spec fn hosted(url: Seq<char>) -> bool {
    let u = ascii_lowered(url);
    contains(u, "openrouter.ai"@) || contains(u, "api.openai.com"@) || contains(
        u,
        "api.together.xyz"@,
    ) || contains(u, "api.groq.com"@)
}

/// The dialect that an endpoint most likely takes.
pub open spec fn dialect_guessed(url: Seq<char>) -> ThinkingDialect {
    if hosted(url) {
        ThinkingDialect::Reasoning
    } else {
        ThinkingDialect::ChatTemplate
    }
}

/// The request field that a dialect writes.
pub open spec fn dialect_field(d: ThinkingDialect) -> Seq<char> {
    match d {
        ThinkingDialect::Reasoning => "reasoning"@,
        ThinkingDialect::ChatTemplate => "chat_template_kwargs"@,
    }
}

impl ThinkingDialect {
    /// Can this dialect express a reasoning budget, or only on and off?
    pub fn supports_budget(self) -> (r: bool)
        ensures
            r == (self == ThinkingDialect::Reasoning),
    {
        self == ThinkingDialect::Reasoning
    }

    /// The request field this dialect writes.
    pub fn field(self) -> (r: &'static str)
        ensures
            r@ == dialect_field(self),
    {
        match self {
            ThinkingDialect::Reasoning => "reasoning",
            ThinkingDialect::ChatTemplate => "chat_template_kwargs",
        }
    }

    /// Parse a dialect.
    pub fn parse(s: &str) -> (r: Option<ThinkingDialect>)
        ensures
            r == dialect_named(s@),
    {
        let t = trimmed(s);
        let t = lower_ascii(t.as_str());
        let t = t.as_str();
        if same(t, "reasoning") {
            Some(ThinkingDialect::Reasoning)
        } else if same(t, "chat-template") || same(t, "chat_template") {
            Some(ThinkingDialect::ChatTemplate)
        } else {
            None
        }
    }

    /// Guess from the endpoint when the config doesn't say. Hosted gateways take
    /// `reasoning`; self-hosted serving stacks take the template argument.
    pub fn guess_from_url(base_url: &str) -> (r: ThinkingDialect)
        ensures
            r == dialect_guessed(base_url@),
    {
        let u = lower_ascii(base_url);
        let u = u.as_str();
        if has_text(u, "openrouter.ai") || has_text(u, "api.openai.com") || has_text(
            u,
            "api.together.xyz",
        ) || has_text(u, "api.groq.com") {
            ThinkingDialect::Reasoning
        } else {
            ThinkingDialect::ChatTemplate
        }
    }
}

/// Where a provider's [`ThinkingDialect`] came from.
#[derive(Debug, Clone, Copy, PartialEq, Eq, Structural)]
pub enum DialectSource {
    /// The provider's `thinking-param` said so.
    Explicit,
    /// Inferred from the base URL.
    Guessed,
}

/// Where a dialect came from, in words.
pub open spec fn source_words(s: DialectSource) -> Seq<char> {
    match s {
        DialectSource::Explicit => "from this provider's `thinking-param`"@,
        DialectSource::Guessed => "guessed from the provider's base-url"@,
    }
}

impl DialectSource {
    /// Where the dialect came from, in words.
    pub fn describe(self) -> (r: &'static str)
        ensures
            r@ == source_words(self),
    {
        match self {
            DialectSource::Explicit => "from this provider's `thinking-param`",
            DialectSource::Guessed => "guessed from the provider's base-url",
        }
    }
}

/// The dialect to use and where it came from: what the provider's setting names,
/// where it names one, else a guess from the endpoint.
pub fn dialect_for(base_url: &str, param: &Option<String>) -> (r: (ThinkingDialect, DialectSource))
    ensures
        r == match opt_view(*param) {
            Some(p) => match dialect_named(p) {
                Some(d) => (d, DialectSource::Explicit),
                None => (dialect_guessed(base_url@), DialectSource::Guessed),
            },
            None => (dialect_guessed(base_url@), DialectSource::Guessed),
        },
{
    if let Some(p) = param {
        if let Some(d) = ThinkingDialect::parse(p.as_str()) {
            return (d, DialectSource::Explicit);
        }
    }
    (ThinkingDialect::guess_from_url(base_url), DialectSource::Guessed)
}

/// Incremental events emitted during streaming.
#[derive(Debug, PartialEq, Eq, Clone)]
pub enum StreamEvent {
    /// A chunk of assistant text.
    TextDelta(String),
    /// A chunk of model reasoning. Display-only.
    ReasoningDelta(String),
    /// A tool call began.
    ToolCallStarted { index: usize, id: String, name: String },
    /// A chunk of a tool call's argument JSON.
    ToolCallArgsDelta { index: usize, delta: String },
    /// Final token usage.
    Usage(Usage),
    /// Something about the request was not honored.
    Warning(String),
}

/// What a `StreamEvent` says.
pub enum Streamed {
    TextDelta(Seq<char>),
    ReasoningDelta(Seq<char>),
    ToolCallStarted(nat, Seq<char>, Seq<char>),
    ToolCallArgsDelta(nat, Seq<char>),
    Usage(Usage),
    Warning(Seq<char>),
}

impl View for StreamEvent {
    type V = Streamed;

    open spec fn view(&self) -> Streamed {
        match self {
            StreamEvent::TextDelta(s) => Streamed::TextDelta(s@),
            StreamEvent::ReasoningDelta(s) => Streamed::ReasoningDelta(s@),
            StreamEvent::ToolCallStarted { index, id, name } => Streamed::ToolCallStarted(
                *index as nat,
                id@,
                name@,
            ),
            StreamEvent::ToolCallArgsDelta { index, delta } => Streamed::ToolCallArgsDelta(
                *index as nat,
                delta@,
            ),
            StreamEvent::Usage(u) => Streamed::Usage(*u),
            StreamEvent::Warning(s) => Streamed::Warning(s@),
        }
    }
}

/// What a list of stream events says.
pub open spec fn streamed(v: Seq<StreamEvent>) -> Seq<Streamed> {
    Seq::new(v.len(), |i: int| v[i]@)
}

/// The assembled result of a streamed completion.
#[derive(Debug, PartialEq, Eq, Clone)]
pub struct Completion {
    pub content: Option<String>,
    /// Accumulated reasoning, if the provider exposed it.
    pub reasoning: Option<String>,
    pub tool_calls: Vec<ToolCall>,
    /// Set when a call had to be read out of the text.
    pub rescued: Option<String>,
    pub usage: Usage,
    pub finish_reason: Option<String>,
}

/// What a `Completion` says.
pub struct Completed {
    pub content: Option<Seq<char>>,
    pub reasoning: Option<Seq<char>>,
    pub tool_calls: Seq<Call>,
    pub rescued: Option<Seq<char>>,
    pub usage: Usage,
    pub finish_reason: Option<Seq<char>>,
}

impl View for Completion {
    type V = Completed;

    open spec fn view(&self) -> Completed {
        Completed {
            content: opt_view(self.content),
            reasoning: opt_view(self.reasoning),
            tool_calls: calls_view(self.tool_calls@),
            rescued: opt_view(self.rescued),
            usage: self.usage,
            finish_reason: opt_view(self.finish_reason),
        }
    }
}

impl Default for Completion {
    fn default() -> (r: Completion)
        ensures
            r@ == (Completed {
                content: None,
                reasoning: None,
                tool_calls: seq![],
                rescued: None,
                usage: no_usage(),
                finish_reason: None,
            }),
    {
        let r = Completion {
            content: None,
            reasoning: None,
            tool_calls: Vec::new(),
            rescued: None,
            usage: Usage { prompt_tokens: 0, completion_tokens: 0, total_tokens: 0, reasoning_tokens: 0 },
            finish_reason: None,
        };
        assert(calls_view(r.tool_calls@) =~= seq![]);
        r
    }
}

/// Silence between chunks, in seconds, before a request is abandoned, when a
/// provider does not set its own. It bounds a hang; it does not police slowness.
pub const DEFAULT_STREAM_IDLE_SECS: u64 = 600;

/// The warning for an API key variable that is not exported.
pub open spec fn key_warning(var: Seq<char>, base_url: Seq<char>) -> Seq<char> {
    "warning: $"@ + var + " is not set, so requests to `"@ + base_url
        + "` go out with no API key. Export it, or drop `api-key-env` if the endpoint needs none."@
}

/// The warning for an API key variable that is not exported, the first time the
/// variable comes up.
pub fn missing_key_warning(warned: &mut TextSet, var: &Option<String>, base_url: &str) -> (r: Option<
    String,
>)
    ensures
        match opt_view(*var) {
            Some(v) => {
                &&& final(warned)@ == old(warned)@.insert(v)
                &&& opt_view(r) == if old(warned)@.contains(v) {
                    None
                } else {
                    Some(key_warning(v, base_url@))
                }
            },
            None => final(warned)@ == old(warned)@ && r is None,
        },
{
    match var {
        Some(v) => {
            if warned.contains(v.as_str()) {
                assert(warned@ =~= warned@.insert(v@));
                return None;
            }
            warned.insert(v.as_str());
            let mut w = "warning: $".to_owned();
            w.append(v.as_str());
            w.append(" is not set, so requests to `");
            w.append(base_url);
            w.append(
                "` go out with no API key. Export it, or drop `api-key-env` if the endpoint needs none.",
            );
            Some(w)
        },
        None => None,
    }
}

/// The window that a model list says `model` has: the first entry with that id
/// decides.
pub open spec fn window_in(models: Seq<Tree>, model: Seq<char>) -> Option<u64>
    decreases models.len(),
{
    if models.len() == 0 {
        None
    } else if str_arg(models[0], "id"@) == Some(model) {
        u64_of(member(models[0], "max_model_len"@))
    } else {
        window_in(models.drop_first(), model)
    }
}

/// The window that a provider's `/models` reply says `model` has.
pub open spec fn served_window_of(body: Tree, model: Seq<char>) -> Option<u64> {
    match list_of(member(body, "data"@)) {
        Some(models) => window_in(models, model),
        None => None,
    }
}

/// The window that a provider's `/models` reply says `model` has. Many servers do
/// not say.
pub fn served_window(body: &Json, model: &str) -> (r: Option<u64>)
    ensures
        r == served_window_of(body@, model@),
{
    let data = match body.get("data") {
        Some(d) => d,
        None => {
            return None;
        },
    };
    let models = match data.as_array() {
        Some(m) => m,
        None => {
            return None;
        },
    };
    let ghost all = trees(models@);
    let mut i: usize = 0;
    assert(all.skip(0) =~= all);
    while i < models.len()
        invariant
            i <= models@.len(),
            all == trees(models@),
            window_in(all.skip(i as int), model@) == window_in(all, model@),
            served_window_of(body@, model@) == window_in(all, model@),
        decreases models.len() - i,
    {
        assert(all.skip(i as int).drop_first() =~= all.skip(i + 1));
        assert(all.skip(i as int)[0] == models@[i as int]@);
        if let Some(id) = get_str(&models[i], "id") {
            if same(id, model) {
                return match models[i].get("max_model_len") {
                    Some(n) => n.as_u64(),
                    None => None,
                };
            }
        }
        i = i + 1;
    }
    None
}

/// What to say when the configured window is not the served one, give or take a
/// twentieth.
pub open spec fn mismatch(model: Seq<char>, served: nat, configured: nat) -> Option<Seq<char>> {
    let slack = served / 20;
    if configured > served + slack {
        Some(
            "`"@ + model + "` serves "@ + dec(served) + " tokens but `context` is set to "@ + dec(
                configured,
            )
                + ". Requests will be rejected before compaction ever fires — lower it to "@ + dec(
                served,
            ) + "."@,
        )
    } else if configured + slack < served {
        Some(
            "`"@ + model + "` serves "@ + dec(served) + " tokens but `context` is set to "@ + dec(
                configured,
            )
                + ", so part of the window goes unused and compaction fires early — which throws away work the model then has to redo. Raise it to "@
                + dec(served) + "."@,
        )
    } else {
        None
    }
}

/// Compare the window a server serves with the one that is configured.
pub fn context_mismatch(model: &str, served: usize, configured: usize) -> (r: Option<String>)
    ensures
        opt_view(r) == mismatch(model@, served as nat, configured as nat),
{
    let slack: u128 = served as u128 / 20;
    let too_high = configured as u128 > served as u128 + slack;
    let too_low = configured as u128 + slack < served as u128;
    if !too_high && !too_low {
        return None;
    }
    let mut s = "`".to_owned();
    s.append(model);
    s.append("` serves ");
    let n = decimal(served as u128);
    s.append(n.as_str());
    s.append(" tokens but `context` is set to ");
    let c = decimal(configured as u128);
    s.append(c.as_str());
    if too_high {
        s.append(". Requests will be rejected before compaction ever fires — lower it to ");
    } else {
        s.append(
            ", so part of the window goes unused and compaction fires early — which throws away work the model then has to redo. Raise it to ",
        );
    }
    s.append(n.as_str());
    s.append(".");
    Some(s)
}

/// Parsing the word for an effort gives the effort back.
pub proof fn effort_words_parse_back(e: Effort)
    ensures
        effort_named(effort_word(e)) == Some(e),
{
    reveal_strlit("minimal");
    reveal_strlit("low");
    reveal_strlit("medium");
    reveal_strlit("med");
    reveal_strlit("high");
    reveal_strlit("xhigh");
    reveal_strlit("x-high");
    reveal_strlit("max");
    let w = effort_word(e);
    crate::text::lemma_trim_plain(w);
    assert(ascii_lowered(w) =~= w);
    let words = seq!["minimal"@, "low"@, "medium"@, "high"@, "xhigh"@, "max"@];
    assert("med"@.len() == 3 && "max"@.len() == 3 && "low"@.len() == 3);
    assert("max"@[0] == 'm' && "low"@[0] == 'l' && "med"@[1] == 'e' && "max"@[1] == 'a');
    assert("x-high"@[1] == '-' && "medium"@[0] == 'm' && "x-high"@[0] == 'x');
}

} // verus!
