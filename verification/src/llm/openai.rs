//! The OpenAI-compatible wire format: what a request looks like, and how a
//! streamed reply is put together.
use vstd::prelude::*;
use vstd::string::*;

use crate::json::{fields, group_json, trees, Json, Number, NumberView, Tree};
use crate::list::group_lists;
use crate::llm::{
    calls_view, dialect_field, effort_word, no_usage, role_name, role_str, source_words, streamed,
    Call, ChatRequest, Completed, Completion, DialectSource, Message, Said, StreamEvent, Streamed,
    Thinking, ThinkingDialect, ToolCall, ToolDef, Usage,
};
use crate::text::{
    after_prefix, copy_opt, dec, decimal, in_set, opt_view, replace, replaced, same,
    skip_while_end, strip_prefix, trim, trimmed, trimmed_end_set,
};

verus! {

broadcast use {group_lists, group_json};

// ---- requests ---------------------------------------------------------------

/// The endpoint for a provider's base URL.
pub fn endpoint(base_url: &str) -> (r: String)
    ensures
        r@ == skip_while_end(base_url@, in_set("/"@)) + "/chat/completions"@,
{
    let mut r = trimmed_end_set(base_url, "/");
    r.append("/chat/completions");
    r
}

/// A call, on the wire.
pub open spec fn call_tree(c: Call) -> Tree {
    Tree::Object(
        seq![
            ("id"@, Tree::Text(c.id)),
            ("type"@, Tree::Text("function"@)),
            (
                "function"@,
                Tree::Object(
                    seq![("name"@, Tree::Text(c.name)), ("arguments"@, Tree::Text(c.arguments))],
                ),
            ),
        ],
    )
}

/// A message, on the wire. Its reasoning, finish reason and model are not sent.
pub open spec fn message_tree(m: Said) -> Tree {
    let base = seq![
        ("role"@, Tree::Text(role_name(m.role))),
        (
            "content"@,
            match m.content {
                Some(c) => Tree::Text(c),
                None => Tree::Null,
            },
        ),
    ];
    let calls = if m.tool_calls.len() == 0 {
        base
    } else {
        base.push(
            (
                "tool_calls"@,
                Tree::List(Seq::new(m.tool_calls.len(), |i: int| call_tree(m.tool_calls[i]))),
            ),
        )
    };
    Tree::Object(
        match m.tool_call_id {
            Some(id) => calls.push(("tool_call_id"@, Tree::Text(id))),
            None => calls,
        },
    )
}

fn call_json(c: &ToolCall) -> (r: Json)
    ensures
        r@ == call_tree(c@),
{
    let mut f: Vec<(String, Json)> = Vec::new();
    f.push(("name".to_owned(), Json::text(c.name.as_str())));
    f.push(("arguments".to_owned(), Json::text(c.arguments.as_str())));
    assert(fields(f@) =~= seq![
        ("name"@, Tree::Text(c.name@)),
        ("arguments"@, Tree::Text(c.arguments@)),
    ]);
    let mut o: Vec<(String, Json)> = Vec::new();
    o.push(("id".to_owned(), Json::text(c.id.as_str())));
    o.push(("type".to_owned(), Json::text("function")));
    o.push(("function".to_owned(), Json::Object(f)));
    assert(fields(o@) =~= call_tree(c@)->Object_0);
    Json::Object(o)
}

/// A message, on the wire.
pub fn message_to_json(m: &Message) -> (r: Json)
    ensures
        r@ == message_tree(m@),
{
    let mut o: Vec<(String, Json)> = Vec::new();
    o.push(("role".to_owned(), Json::text(role_str(m.role))));
    o.push(
        (
            "content".to_owned(),
            match &m.content {
                Some(c) => Json::text(c.as_str()),
                None => Json::Null,
            },
        ),
    );
    if m.tool_calls.len() > 0 {
        let mut calls: Vec<Json> = Vec::new();
        let mut i: usize = 0;
        let ghost all = Seq::new(m@.tool_calls.len(), |i: int| call_tree(m@.tool_calls[i]));
        while i < m.tool_calls.len()
            invariant
                i <= m.tool_calls@.len(),
                all == Seq::new(m@.tool_calls.len(), |i: int| call_tree(m@.tool_calls[i])),
                trees(calls@) == all.take(i as int),
            decreases m.tool_calls.len() - i,
        {
            let ghost before = trees(calls@);
            calls.push(call_json(&m.tool_calls[i]));
            assert(trees(calls@) =~= before.push(all[i as int]));
            i = i + 1;
            assert(trees(calls@) =~= all.take(i as int));
        }
        assert(trees(calls@) =~= all);
        o.push(("tool_calls".to_owned(), Json::List(calls)));
    }
    if let Some(id) = &m.tool_call_id {
        o.push(("tool_call_id".to_owned(), Json::text(id.as_str())));
    }
    assert(fields(o@) =~= message_tree(m@)->Object_0);
    Json::Object(o)
}

/// An advertised tool, on the wire.
pub open spec fn tool_tree(t: ToolDef) -> Tree {
    Tree::Object(
        seq![
            ("type"@, Tree::Text("function"@)),
            (
                "function"@,
                Tree::Object(
                    seq![
                        ("name"@, Tree::Text(t.name@)),
                        ("description"@, Tree::Text(t.description@)),
                        ("parameters"@, t.parameters@),
                    ],
                ),
            ),
        ],
    )
}

/// How a thinking setting is spelled: the field, and what it holds. A template
/// argument is a flag and nothing more.
pub open spec fn thinking_field(t: Thinking, d: ThinkingDialect) -> (Seq<char>, Tree) {
    match d {
        ThinkingDialect::Reasoning => (
            "reasoning"@,
            Tree::Object(
                seq![
                    match t {
                        Thinking::Off => ("enabled"@, Tree::Bool(false)),
                        Thinking::On => ("enabled"@, Tree::Bool(true)),
                        Thinking::Budget(n) => (
                            "max_tokens"@,
                            Tree::Number(NumberView::Pos(n as u64)),
                        ),
                        Thinking::Effort(e) => ("effort"@, Tree::Text(effort_word(e))),
                    },
                ],
            ),
        ),
        ThinkingDialect::ChatTemplate => (
            "chat_template_kwargs"@,
            Tree::Object(seq![("enable_thinking"@, Tree::Bool(t != Thinking::Off))]),
        ),
    }
}

/// The entries that a request always has.
pub open spec fn body_base(req: ChatRequest) -> Seq<(Seq<char>, Tree)> {
    seq![
        ("model"@, Tree::Text(req.model@)),
        (
            "messages"@,
            Tree::List(Seq::new(req.messages@.len(), |i: int| message_tree(req.messages@[i]@))),
        ),
        ("stream"@, Tree::Bool(true)),
        ("stream_options"@, Tree::Object(seq![("include_usage"@, Tree::Bool(true))])),
    ]
}

/// `entries`, and `key` with `value` where there is one.
pub open spec fn with_opt(
    entries: Seq<(Seq<char>, Tree)>,
    key: Seq<char>,
    value: Option<Tree>,
) -> Seq<(Seq<char>, Tree)> {
    match value {
        Some(v) => entries.push((key, v)),
        None => entries,
    }
}

/// A whole number as a value.
pub open spec fn whole(n: Option<u32>) -> Option<Tree> {
    match n {
        Some(n) => Some(Tree::Number(NumberView::Pos(n as u64))),
        None => None,
    }
}

/// A number as a value.
pub open spec fn numeric(n: Option<Number>) -> Option<Tree> {
    match n {
        Some(n) => Some(Tree::Number(n@)),
        None => None,
    }
}

/// The body of a request. A setting that was not asked for is not mentioned:
/// providers reject fields that they do not know.
pub open spec fn request_tree(req: ChatRequest, dialect: ThinkingDialect) -> Tree {
    let tools = with_opt(
        body_base(req),
        "tools"@,
        if req.tools@.len() == 0 {
            None
        } else {
            Some(Tree::List(Seq::new(req.tools@.len(), |i: int| tool_tree(req.tools@[i]))))
        },
    );
    let heat = with_opt(tools, "temperature"@, numeric(req.temperature));
    let nucleus = with_opt(heat, "top_p"@, numeric(req.top_p));
    let top = with_opt(nucleus, "top_k"@, whole(req.top_k));
    let cap = with_opt(top, "max_tokens"@, whole(req.max_tokens));
    let routed = with_opt(
        cap,
        "provider"@,
        match req.sort {
            Some(s) => Some(Tree::Object(seq![("sort"@, Tree::Text(s@))])),
            None => None,
        },
    );
    Tree::Object(
        match req.thinking {
            Some(t) => routed.push(thinking_field(t, dialect)),
            None => routed,
        },
    )
}

fn tool_json(t: &ToolDef) -> (r: Json)
    ensures
        r@ == tool_tree(*t),
{
    let mut f: Vec<(String, Json)> = Vec::new();
    f.push(("name".to_owned(), Json::text(t.name.as_str())));
    f.push(("description".to_owned(), Json::text(t.description.as_str())));
    f.push(("parameters".to_owned(), t.parameters.copy()));
    assert(fields(f@) =~= seq![
        ("name"@, Tree::Text(t.name@)),
        ("description"@, Tree::Text(t.description@)),
        ("parameters"@, t.parameters@),
    ]);
    let mut o: Vec<(String, Json)> = Vec::new();
    o.push(("type".to_owned(), Json::text("function")));
    o.push(("function".to_owned(), Json::Object(f)));
    assert(fields(o@) =~= tool_tree(*t)->Object_0);
    Json::Object(o)
}

/// A body with the budget in the field that the provider has for it, where it has one.
pub open spec fn budgeted(
    body: Seq<(Seq<char>, Tree)>,
    t: Option<Thinking>,
    param: Option<Seq<char>>,
) -> Seq<(Seq<char>, Tree)> {
    match (t, param) {
        (Some(Thinking::Budget(n)), Some(p)) => body.push(
            (p, Tree::Number(NumberView::Pos(n as u64))),
        ),
        _ => body,
    }
}

/// Add the budget to a request body, in the field that the provider has for it. A provider
/// that names none is sent none: a strict one rejects a key that it does not know.
pub fn with_budget(body: Json, t: Option<Thinking>, param: &Option<String>) -> (r: Json)
    ensures
        match body@ {
            Tree::Object(b) => r@ == Tree::Object(budgeted(b, t, opt_view(*param))),
            _ => r@ == body@,
        },
{
    match body {
        Json::Object(entries) => {
            let mut o = entries;
            let ghost before = fields(o@);
            if let (Some(Thinking::Budget(n)), Some(p)) = (t, param) {
                o.push((p.clone(), Json::Number(Number::Pos(n as u64))));
                assert(fields(o@) =~= before.push((p@, Tree::Number(NumberView::Pos(n as u64)))));
            }
            Json::Object(o)
        },
        other => other,
    }
}

/// What a setting asks for, where the dialect can only say on or off, and the provider
/// has no field of its own for a budget.
pub open spec fn unsayable(t: Option<Thinking>, d: ThinkingDialect, own_field: bool) -> Option<
    Seq<char>,
> {
    if d == ThinkingDialect::Reasoning {
        None
    } else {
        match t {
            Some(Thinking::Budget(n)) => if own_field {
                None
            } else {
                Some("a thinking budget of "@ + dec(n as nat) + " tokens"@)
            },
            Some(Thinking::Effort(e)) => Some("a thinking effort of "@ + effort_word(e)),
            _ => None,
        }
    }
}

/// What is said of a setting that the provider cannot be told: it counts as plainly on,
/// and that must not pass in silence.
pub open spec fn dropped_setting(
    t: Option<Thinking>,
    d: ThinkingDialect,
    source: DialectSource,
    own_field: bool,
) -> Option<Seq<char>> {
    match unsayable(t, d, own_field) {
        Some(what) => Some(
            what + " cannot be expressed through `"@ + dialect_field(d) + "` ("@ + source_words(
                source,
            ) + "); thinking is just on"@,
        ),
        None => None,
    }
}

/// What is said of a setting that the provider cannot be told.
pub fn setting_warning(
    t: Option<Thinking>,
    d: ThinkingDialect,
    source: DialectSource,
    own_field: bool,
) -> (r: Option<String>)
    ensures
        opt_view(r) == dropped_setting(t, d, source, own_field),
{
    if d == ThinkingDialect::Reasoning {
        return None;
    }
    let mut s = match t {
        Some(Thinking::Budget(n)) => {
            if own_field {
                return None;
            }
            let mut s = "a thinking budget of ".to_owned();
            s.append(decimal(n as u128).as_str());
            s.append(" tokens");
            s
        },
        Some(Thinking::Effort(e)) => {
            let mut s = "a thinking effort of ".to_owned();
            s.append(e.as_str());
            s
        },
        _ => return None,
    };
    s.append(" cannot be expressed through `");
    s.append(d.field());
    s.append("` (");
    s.append(source.describe());
    s.append("); thinking is just on");
    Some(s)
}

fn thinking_json(t: Thinking, d: ThinkingDialect) -> (r: (String, Json))
    ensures
        (r.0@, r.1@) == thinking_field(t, d),
{
    let mut o: Vec<(String, Json)> = Vec::new();
    match d {
        ThinkingDialect::Reasoning => {
            match t {
                Thinking::Off => {
                    o.push(("enabled".to_owned(), Json::Bool(false)));
                },
                Thinking::On => {
                    o.push(("enabled".to_owned(), Json::Bool(true)));
                },
                Thinking::Budget(n) => {
                    o.push(("max_tokens".to_owned(), Json::Number(Number::Pos(n as u64))));
                },
                Thinking::Effort(e) => {
                    o.push(("effort".to_owned(), Json::text(e.as_str())));
                },
            }
            assert(fields(o@) =~= thinking_field(t, d).1->Object_0);
            ("reasoning".to_owned(), Json::Object(o))
        },
        ThinkingDialect::ChatTemplate => {
            o.push(("enable_thinking".to_owned(), Json::Bool(t.enabled())));
            assert(fields(o@) =~= thinking_field(t, d).1->Object_0);
            ("chat_template_kwargs".to_owned(), Json::Object(o))
        },
    }
}

fn number_json(n: &Number) -> (r: Json)
    ensures
        r@ == Tree::Number(n@),
{
    match n {
        Number::Pos(n) => Json::Number(Number::Pos(*n)),
        Number::Neg(n) => Json::Number(Number::Neg(*n)),
        Number::Real(s) => Json::Number(Number::Real(s.clone())),
    }
}

/// Build the body of a request.
pub fn build_request_body(req: &ChatRequest, dialect: ThinkingDialect) -> (r: Json)
    ensures
        r@ == request_tree(*req, dialect),
{
    let mut messages: Vec<Json> = Vec::new();
    let mut i: usize = 0;
    let ghost all = Seq::new(req.messages@.len(), |i: int| message_tree(req.messages@[i]@));
    while i < req.messages.len()
        invariant
            i <= req.messages@.len(),
            all == Seq::new(req.messages@.len(), |i: int| message_tree(req.messages@[i]@)),
            trees(messages@) == all.take(i as int),
        decreases req.messages.len() - i,
    {
        let ghost before = trees(messages@);
        messages.push(message_to_json(&req.messages[i]));
        assert(trees(messages@) =~= before.push(all[i as int]));
        i = i + 1;
        assert(trees(messages@) =~= all.take(i as int));
    }
    assert(trees(messages@) =~= all);
    let mut options: Vec<(String, Json)> = Vec::new();
    options.push(("include_usage".to_owned(), Json::Bool(true)));
    assert(fields(options@) =~= seq![("include_usage"@, Tree::Bool(true))]);
    let mut body: Vec<(String, Json)> = Vec::new();
    body.push(("model".to_owned(), Json::text(req.model.as_str())));
    body.push(("messages".to_owned(), Json::List(messages)));
    body.push(("stream".to_owned(), Json::Bool(true)));
    body.push(("stream_options".to_owned(), Json::Object(options)));
    assert(fields(body@) =~= body_base(*req));
    if req.tools.len() > 0 {
        let mut tools: Vec<Json> = Vec::new();
        let mut i: usize = 0;
        let ghost all = Seq::new(req.tools@.len(), |i: int| tool_tree(req.tools@[i]));
        while i < req.tools.len()
            invariant
                i <= req.tools@.len(),
                all == Seq::new(req.tools@.len(), |i: int| tool_tree(req.tools@[i])),
                trees(tools@) == all.take(i as int),
            decreases req.tools.len() - i,
        {
            let ghost before = trees(tools@);
            tools.push(tool_json(&req.tools[i]));
            assert(trees(tools@) =~= before.push(all[i as int]));
            i = i + 1;
            assert(trees(tools@) =~= all.take(i as int));
        }
        assert(trees(tools@) =~= all);
        body.push(("tools".to_owned(), Json::List(tools)));
    }
    if let Some(t) = &req.temperature {
        body.push(("temperature".to_owned(), number_json(t)));
    }
    if let Some(p) = &req.top_p {
        body.push(("top_p".to_owned(), number_json(p)));
    }
    if let Some(k) = req.top_k {
        body.push(("top_k".to_owned(), Json::Number(Number::Pos(k as u64))));
    }
    if let Some(m) = req.max_tokens {
        body.push(("max_tokens".to_owned(), Json::Number(Number::Pos(m as u64))));
    }
    if let Some(s) = &req.sort {
        let mut by: Vec<(String, Json)> = Vec::new();
        by.push(("sort".to_owned(), Json::text(s.as_str())));
        assert(fields(by@) =~= seq![("sort"@, Tree::Text(s@))]);
        body.push(("provider".to_owned(), Json::Object(by)));
    }
    if let Some(t) = req.thinking {
        body.push(thinking_json(t, dialect));
    }
    Json::Object(body)
}

// ---- the stream -------------------------------------------------------------

/// What a line of the event stream holds.
#[derive(Debug, PartialEq, Eq)]
pub enum SseLine {
    /// Nothing for us.
    Skip,
    /// The end of the stream.
    Done,
    /// A chunk, as JSON text.
    Data(String),
}

/// Take a line of the event stream apart: data lines carry chunks, `[DONE]` ends
/// the stream, and everything else is passed over.
pub fn sse_line(line: &str) -> (r: SseLine)
    ensures
        match strip_prefix(trim(line@), "data:"@) {
            None => r is Skip,
            Some(d) => if trim(d) == "[DONE]"@ {
                r is Done
            } else if trim(d).len() == 0 {
                r is Skip
            } else {
                r matches SseLine::Data(s) && s@ == trim(d)
            },
        },
{
    let line = trimmed(line);
    match after_prefix(line.as_str(), "data:") {
        None => SseLine::Skip,
        Some(d) => {
            let data = trimmed(d.as_str());
            if same(data.as_str(), "[DONE]") {
                SseLine::Done
            } else if data.as_str().unicode_len() == 0 {
                SseLine::Skip
            } else {
                SseLine::Data(data)
            }
        },
    }
}

/// Bytes that arrived and do not make a whole line yet.
pub struct LineBuffer {
    buf: Vec<u8>,
}

impl View for LineBuffer {
    type V = Seq<u8>;

    closed spec fn view(&self) -> Seq<u8> {
        self.buf@
    }
}

/// The lines of `b` that end in a line feed, with it, and what follows the last.
pub open spec fn whole_lines(b: Seq<u8>) -> (Seq<Seq<u8>>, Seq<u8>)
    decreases b.len(),
{
    if b.contains(10u8) {
        let i = b.index_of_first(10u8)->0;
        if 0 <= i < b.len() {
            let (rest, tail) = whole_lines(b.skip(i + 1));
            (seq![b.take(i + 1)] + rest, tail)
        } else {
            (seq![], b)
        }
    } else {
        (seq![], b)
    }
}

/// The bytes held by a list of lines.
pub open spec fn byte_views(v: Seq<Vec<u8>>) -> Seq<Seq<u8>> {
    Seq::new(v.len(), |i: int| v[i]@)
}

impl LineBuffer {
    /// Nothing arrived yet.
    pub fn new() -> (r: LineBuffer)
        ensures
            r@ == Seq::<u8>::empty(),
    {
        LineBuffer { buf: Vec::new() }
    }

    /// Take in bytes, and hand out the lines that are now whole. A line feed is
    /// never part of a longer character, so no character is cut.
    pub fn feed(&mut self, bytes: &[u8]) -> (r: Vec<Vec<u8>>)
        ensures
            (byte_views(r@), final(self)@) == whole_lines(old(self)@ + bytes@),
    {
        let mut all: Vec<u8> = Vec::new();
        all.append(&mut self.buf);
        let mut k: usize = 0;
        while k < bytes.len()
            invariant
                k <= bytes@.len(),
                all@ == old(self)@ + bytes@.take(k as int),
            decreases bytes.len() - k,
        {
            all.push(bytes[k]);
            k = k + 1;
            assert(all@ =~= old(self)@ + bytes@.take(k as int));
        }
        assert(all@ =~= old(self)@ + bytes@);
        let mut r: Vec<Vec<u8>> = Vec::new();
        let mut line: Vec<u8> = Vec::new();
        let mut i: usize = 0;
        let mut start: usize = 0;
        let ghost whole = whole_lines(all@);
        assert(all@.skip(0) =~= all@);
        assert(byte_views(r@) + whole_lines(all@.skip(0)).0 =~= whole.0);
        while i < all.len()
            invariant
                start <= i <= all@.len(),
                line@ == all@.subrange(start as int, i as int),
                forall|j: int| start <= j < i ==> all@[j] != 10u8,
                whole == whole_lines(all@),
                byte_views(r@) + whole_lines(all@.skip(start as int)).0 == whole.0,
                whole_lines(all@.skip(start as int)).1 == whole.1,
            decreases all.len() - i,
        {
            let b = all[i];
            line.push(b);
            if b == 10 {
                let ghost rest = all@.skip(start as int);
                proof {
                    assert(rest[i - start] == 10u8);
                    rest.index_of_first_ensures(10u8);
                    let f = rest.index_of_first(10u8)->0;
                    assert(rest[f] == all@[start + f]);
                    if f < i - start {
                        assert(all@[start + f] != 10u8);
                    }
                    assert(f == i - start);
                    assert(rest.take(f + 1) =~= line@);
                    assert(rest.skip(f + 1) =~= all@.skip(i + 1));
                }
                let ghost before = byte_views(r@);
                let ghost done = line@;
                let mut out: Vec<u8> = Vec::new();
                out.append(&mut line);
                r.push(out);
                assert(byte_views(r@) =~= before.push(done));
                assert(byte_views(r@) + whole_lines(all@.skip(i + 1)).0 =~= before + whole_lines(
                    rest,
                ).0);
                start = i + 1;
            }
            i = i + 1;
            assert(line@ =~= all@.subrange(start as int, i as int));
        }
        proof {
            let rest = all@.skip(start as int);
            assert(!rest.contains(10u8)) by {
                if rest.contains(10u8) {
                    let j = choose|j: int| 0 <= j < rest.len() && rest[j] == 10u8;
                    assert(all@[start + j] == 10u8);
                }
            }
            assert(line@ =~= rest);
            assert(byte_views(r@) =~= byte_views(r@) + whole_lines(rest).0);
        }
        self.buf = line;
        r
    }
}

/// One chunk of a streamed reply.
#[derive(Debug)]
pub struct ChunkResp {
    pub choices: Vec<ChunkChoice>,
    pub usage: Option<Usage>,
}

/// One choice of a chunk.
#[derive(Debug)]
pub struct ChunkChoice {
    pub delta: Delta,
    pub finish_reason: Option<String>,
}

/// What a choice adds.
#[derive(Debug)]
pub struct Delta {
    pub content: Option<String>,
    /// Reasoning, under either of the two names that providers use.
    pub reasoning: Option<String>,
    pub reasoning_content: Option<String>,
    pub tool_calls: Vec<DeltaToolCall>,
}

/// What a choice adds to one tool call.
#[derive(Debug)]
pub struct DeltaToolCall {
    pub index: usize,
    pub id: Option<String>,
    pub function: Option<DeltaFunction>,
}

/// What a choice adds to the function of a tool call.
#[derive(Debug)]
pub struct DeltaFunction {
    pub name: Option<String>,
    pub arguments: Option<String>,
}

/// A tool call that is being put together.
struct AccTool {
    id: String,
    name: String,
    args: String,
    announced: bool,
}

/// What a tool call that is being put together holds.
pub struct Part {
    pub id: Seq<char>,
    pub name: Seq<char>,
    pub args: Seq<char>,
    pub announced: bool,
}

impl AccTool {
    spec fn part(&self) -> Part {
        Part { id: self.id@, name: self.name@, args: self.args@, announced: self.announced }
    }
}

/// A tool call of which nothing is known yet.
pub open spec fn no_part() -> Part {
    Part { id: seq![], name: seq![], args: seq![], announced: false }
}

/// A reply that is being put together.
pub struct Accumulator {
    content: String,
    reasoning: String,
    tools: Vec<AccTool>,
    finish_reason: Option<String>,
    usage: Usage,
}

/// What a reply that is being put together holds.
pub struct Acc {
    pub content: Seq<char>,
    pub reasoning: Seq<char>,
    pub tools: Seq<Part>,
    pub finish_reason: Option<Seq<char>>,
    pub usage: Usage,
}

spec fn parts(v: Seq<AccTool>) -> Seq<Part> {
    Seq::new(v.len(), |i: int| v[i].part())
}

impl View for Accumulator {
    type V = Acc;

    closed spec fn view(&self) -> Acc {
        Acc {
            content: self.content@,
            reasoning: self.reasoning@,
            tools: parts(self.tools@),
            finish_reason: opt_view(self.finish_reason),
            usage: self.usage,
        }
    }
}

/// `s` without the fragments of a `<tool_call>` wrapper that some providers leak
/// into it. Only exact tag tokens, and two broken tails, are removed.
pub open spec fn without_noise(s: Seq<char>) -> Seq<char> {
    let a = replace(s, "</tool_call>"@, ""@);
    let b = replace(a, "<tool_call>"@, ""@);
    let c = replace(b, "</tool_call"@, ""@);
    let d = replace(c, "<tool_call"@, ""@);
    replace(d, "ool_call>"@, ""@)
}

/// Strip the fragments of a `<tool_call>` wrapper.
pub fn strip_toolcall_noise(s: &str) -> (r: String)
    ensures
        r@ == without_noise(s@),
{
    let a = replaced(s, "</tool_call>", "");
    let b = replaced(a.as_str(), "<tool_call>", "");
    let c = replaced(b.as_str(), "</tool_call", "");
    let d = replaced(c.as_str(), "<tool_call", "");
    replaced(d.as_str(), "ool_call>", "")
}

/// `tools`, with blank ones behind them up to `n`.
pub open spec fn padded(tools: Seq<Part>, n: int) -> Seq<Part> {
    if tools.len() >= n {
        tools
    } else {
        tools + Seq::new((n - tools.len()) as nat, |i: int| no_part())
    }
}

/// A call that was named for the first time is announced.
pub open spec fn announce(i: nat, p: Part) -> (Part, Seq<Streamed>) {
    if !p.announced && p.name.len() > 0 {
        (
            Part { announced: true, ..p },
            seq![Streamed::ToolCallStarted(i, p.id, p.name)],
        )
    } else {
        (p, seq![])
    }
}

/// A call once a delta is added, and what is streamed of it.
pub open spec fn part_grown(p: Part, d: DeltaToolCall) -> (Part, Seq<Streamed>) {
    let a = match d.id {
        Some(id) => Part { id: id@, ..p },
        None => p,
    };
    match d.function {
        None => announce(d.index as nat, a),
        Some(f) => {
            let b = match f.name {
                Some(name) if name@.len() > 0 => Part { name: name@, ..a },
                _ => a,
            };
            match f.arguments {
                Some(args) if args@.len() > 0 => {
                    let (c, started) = announce(
                        d.index as nat,
                        Part { args: b.args + args@, ..b },
                    );
                    (c, seq![Streamed::ToolCallArgsDelta(d.index as nat, args@)] + started)
                },
                _ => announce(d.index as nat, b),
            }
        },
    }
}

/// A reply once a call's delta is added.
pub open spec fn call_added(a: Acc, d: DeltaToolCall) -> (Acc, Seq<Streamed>) {
    let tools = padded(a.tools, d.index + 1);
    let (p, events) = part_grown(tools[d.index as int], d);
    (Acc { tools: tools.update(d.index as int, p), ..a }, events)
}

/// A reply once the first `n` of the calls' deltas are added.
pub open spec fn calls_added(a: Acc, ds: Seq<DeltaToolCall>, n: nat) -> (Acc, Seq<Streamed>)
    decreases n,
{
    if n == 0 {
        (a, seq![])
    } else {
        let (b, before) = calls_added(a, ds, (n - 1) as nat);
        let (c, events) = call_added(b, ds[n - 1]);
        (c, before + events)
    }
}

/// The reasoning of a delta: the first of the two names that is there.
pub open spec fn reasoning_of(d: Delta) -> Option<Seq<char>> {
    match d.reasoning {
        Some(r) => Some(r@),
        None => opt_view(d.reasoning_content),
    }
}

/// A reply once a choice is added.
pub open spec fn choice_added(a: Acc, c: ChunkChoice) -> (Acc, Seq<Streamed>) {
    let b = match c.finish_reason {
        Some(f) => Acc { finish_reason: Some(f@), ..a },
        None => a,
    };
    let (d, thought) = match reasoning_of(c.delta) {
        Some(r) if r.len() > 0 => (
            Acc { reasoning: b.reasoning + r, ..b },
            seq![Streamed::ReasoningDelta(r)],
        ),
        _ => (b, seq![]),
    };
    let (e, said) = match c.delta.content {
        Some(t) if without_noise(t@).len() > 0 => (
            Acc { content: d.content + without_noise(t@), ..d },
            seq![Streamed::TextDelta(without_noise(t@))],
        ),
        _ => (d, seq![]),
    };
    let (f, called) = calls_added(e, c.delta.tool_calls@, c.delta.tool_calls@.len());
    (f, thought + said + called)
}

/// A reply once the first `n` choices are added.
pub open spec fn choices_added(a: Acc, cs: Seq<ChunkChoice>, n: nat) -> (Acc, Seq<Streamed>)
    decreases n,
{
    if n == 0 {
        (a, seq![])
    } else {
        let (b, before) = choices_added(a, cs, (n - 1) as nat);
        let (c, events) = choice_added(b, cs[n - 1]);
        (c, before + events)
    }
}

/// A reply once a chunk is added, and what is streamed of it.
pub open spec fn applied(a: Acc, chunk: ChunkResp) -> (Acc, Seq<Streamed>) {
    match chunk.usage {
        Some(u) => {
            let (b, events) = choices_added(
                Acc { usage: u, ..a },
                chunk.choices@,
                chunk.choices@.len(),
            );
            (b, seq![Streamed::Usage(u)] + events)
        },
        None => choices_added(a, chunk.choices@, chunk.choices@.len()),
    }
}

/// Does every call of the chunk have an index that a list can hold?
pub open spec fn indexable(chunk: ChunkResp) -> bool {
    forall|i: int, j: int|
        0 <= i < chunk.choices@.len() && 0 <= j < (#[trigger] chunk.choices@[i]).delta.tool_calls@.len()
            ==> (#[trigger] chunk.choices@[i].delta.tool_calls@[j]).index < usize::MAX
}

proof fn lemma_streamed_push(v: Seq<StreamEvent>, e: StreamEvent)
    ensures
        streamed(v.push(e)) == streamed(v).push(e@),
{
    assert(streamed(v.push(e)) =~= streamed(v).push(e@));
}

impl Accumulator {
    /// An empty reply.
    pub fn new() -> (r: Accumulator)
        ensures
            r@ == (Acc {
                content: seq![],
                reasoning: seq![],
                tools: seq![],
                finish_reason: None,
                usage: no_usage(),
            }),
    {
        let r = Accumulator {
            content: String::new(),
            reasoning: String::new(),
            tools: Vec::new(),
            finish_reason: None,
            usage: Usage { prompt_tokens: 0, completion_tokens: 0, total_tokens: 0, reasoning_tokens: 0 },
        };
        assert(parts(r.tools@) =~= seq![]);
        r
    }

    fn add_call(&mut self, d: &DeltaToolCall, out: &mut Vec<StreamEvent>)
        requires
            d.index < usize::MAX,
        ensures
            final(self)@ == call_added(old(self)@, *d).0,
            streamed(final(out)@) == streamed(old(out)@) + call_added(old(self)@, *d).1,
    {
        let idx = d.index;
        let ghost tools = padded(self@.tools, idx + 1);
        let ghost sent = streamed(out@);
        while self.tools.len() <= idx
            invariant
                idx < usize::MAX,
                tools == padded(self@.tools, idx + 1),
                self@ == (Acc { tools: self@.tools, ..old(self)@ }),
            decreases idx + 1 - self.tools.len(),
        {
            let ghost before = self@.tools;
            self.tools.push(
                AccTool {
                    id: String::new(),
                    name: String::new(),
                    args: String::new(),
                    announced: false,
                },
            );
            assert(self@.tools =~= before.push(no_part()));
            assert(padded(before.push(no_part()), idx + 1) =~= padded(before, idx + 1));
        }
        let ghost p = tools[idx as int];
        assert(self@.tools == tools);
        assert(self.tools@[idx as int].part() == p);
        if let Some(id) = &d.id {
            self.tools[idx].id = id.clone();
        }
        if let Some(f) = &d.function {
            if let Some(name) = &f.name {
                if name.as_str().unicode_len() > 0 {
                    self.tools[idx].name = name.clone();
                }
            }
            if let Some(args) = &f.arguments {
                if args.as_str().unicode_len() > 0 {
                    self.tools[idx].args.append(args.as_str());
                    let ev = StreamEvent::ToolCallArgsDelta { index: idx, delta: args.clone() };
                    proof {
                        lemma_streamed_push(out@, ev);
                    }
                    out.push(ev);
                }
            }
        }
        if !self.tools[idx].announced && self.tools[idx].name.as_str().unicode_len() > 0 {
            self.tools[idx].announced = true;
            let ev = StreamEvent::ToolCallStarted {
                index: idx,
                id: self.tools[idx].id.clone(),
                name: self.tools[idx].name.clone(),
            };
            proof {
                lemma_streamed_push(out@, ev);
            }
            out.push(ev);
        }
        assert(self.tools@[idx as int].part() == part_grown(p, *d).0);
        assert(self@.tools =~= tools.update(idx as int, part_grown(p, *d).0));
        assert(streamed(out@) =~= sent + part_grown(p, *d).1);
    }

    fn add_choice(&mut self, c: &ChunkChoice, out: &mut Vec<StreamEvent>)
        requires
            forall|j: int|
                0 <= j < c.delta.tool_calls@.len() ==> (#[trigger] c.delta.tool_calls@[j]).index
                    < usize::MAX,
        ensures
            final(self)@ == choice_added(old(self)@, *c).0,
            streamed(final(out)@) == streamed(old(out)@) + choice_added(old(self)@, *c).1,
    {
        let ghost s0 = self@;
        let ghost sent = streamed(out@);
        if let Some(f) = &c.finish_reason {
            self.finish_reason = Some(f.clone());
        }
        let thought = match &c.delta.reasoning {
            Some(r) => Some(r.clone()),
            None => copy_opt(&c.delta.reasoning_content),
        };
        if let Some(r) = thought {
            if r.as_str().unicode_len() > 0 {
                self.reasoning.append(r.as_str());
                let ev = StreamEvent::ReasoningDelta(r);
                proof {
                    lemma_streamed_push(out@, ev);
                }
                out.push(ev);
            }
        }
        if let Some(t) = &c.delta.content {
            let t = strip_toolcall_noise(t.as_str());
            if t.as_str().unicode_len() > 0 {
                self.content.append(t.as_str());
                let ev = StreamEvent::TextDelta(t);
                proof {
                    lemma_streamed_push(out@, ev);
                }
                out.push(ev);
            }
        }
        let ghost e = self@;
        let ghost upto = streamed(out@);
        let ghost ds = c.delta.tool_calls@;
        let mut i: usize = 0;
        assert(streamed(out@) =~= upto + calls_added(e, ds, 0).1);
        while i < c.delta.tool_calls.len()
            invariant
                i <= c.delta.tool_calls@.len(),
                ds == c.delta.tool_calls@,
                forall|j: int| 0 <= j < ds.len() ==> (#[trigger] ds[j]).index < usize::MAX,
                self@ == calls_added(e, ds, i as nat).0,
                streamed(out@) == upto + calls_added(e, ds, i as nat).1,
            decreases c.delta.tool_calls.len() - i,
        {
            let ghost before = streamed(out@);
            self.add_call(&c.delta.tool_calls[i], out);
            i = i + 1;
            assert(streamed(out@) =~= upto + calls_added(e, ds, i as nat).1);
        }
        assert(streamed(out@) =~= sent + choice_added(s0, *c).1);
    }

    /// Add a chunk, and hand out what is streamed of it.
    pub fn apply(&mut self, chunk: &ChunkResp) -> (r: Vec<StreamEvent>)
        requires
            indexable(*chunk),
        ensures
            (final(self)@, streamed(r@)) == applied(old(self)@, *chunk),
    {
        let mut out: Vec<StreamEvent> = Vec::new();
        if let Some(u) = chunk.usage {
            self.usage = u;
            let ev = StreamEvent::Usage(u);
            proof {
                lemma_streamed_push(out@, ev);
            }
            out.push(ev);
        }
        let ghost a = self@;
        let ghost upto = streamed(out@);
        let mut i: usize = 0;
        assert(streamed(out@) =~= upto + choices_added(a, chunk.choices@, 0).1);
        while i < chunk.choices.len()
            invariant
                i <= chunk.choices@.len(),
                indexable(*chunk),
                self@ == choices_added(a, chunk.choices@, i as nat).0,
                streamed(out@) == upto + choices_added(a, chunk.choices@, i as nat).1,
            decreases chunk.choices.len() - i,
        {
            self.add_choice(&chunk.choices[i], &mut out);
            i = i + 1;
            assert(streamed(out@) =~= upto + choices_added(a, chunk.choices@, i as nat).1);
        }
        assert(streamed(out@) =~= applied(old(self)@, *chunk).1);
        out
    }

    /// The finished reply. A call that was never named is dropped; one without an
    /// id or arguments gets them.
    pub fn into_completion(self) -> (r: Completion)
        ensures
            r@ == completion_of(self@),
    {
        let mut calls: Vec<ToolCall> = Vec::new();
        let ghost all = parts(self.tools@);
        let mut i: usize = 0;
        assert(calls_view(calls@) =~= assembled(all, 0));
        while i < self.tools.len()
            invariant
                i <= self.tools@.len(),
                all == parts(self.tools@),
                calls_view(calls@) == assembled(all, i as nat),
            decreases self.tools.len() - i,
        {
            let t = &self.tools[i];
            assert(all[i as int] == t.part());
            let ghost before = calls_view(calls@);
            if t.name.as_str().unicode_len() > 0 {
                let id = if t.id.as_str().unicode_len() == 0 {
                    let mut s = "call_".to_owned();
                    let n = decimal(calls.len() as u128);
                    s.append(n.as_str());
                    s
                } else {
                    t.id.clone()
                };
                let arguments = if t.args.as_str().unicode_len() == 0 {
                    "{}".to_owned()
                } else {
                    t.args.clone()
                };
                let c = ToolCall { id, name: t.name.clone(), arguments };
                calls.push(c);
                assert(calls_view(calls@) =~= before.push(c@));
            }
            i = i + 1;
        }
        let content = if self.content.as_str().unicode_len() == 0 {
            None
        } else {
            Some(self.content)
        };
        let reasoning = if self.reasoning.as_str().unicode_len() == 0 {
            None
        } else {
            Some(self.reasoning)
        };
        Completion {
            content,
            reasoning,
            tool_calls: calls,
            rescued: None,
            usage: self.usage,
            finish_reason: self.finish_reason,
        }
    }
}

/// The calls that the first `n` parts make.
pub open spec fn assembled(tools: Seq<Part>, n: nat) -> Seq<Call>
    decreases n,
{
    if n == 0 {
        seq![]
    } else {
        let before = assembled(tools, (n - 1) as nat);
        let t = tools[n - 1];
        if t.name.len() == 0 {
            before
        } else {
            before.push(
                Call {
                    id: if t.id.len() == 0 {
                        "call_"@ + dec(before.len())
                    } else {
                        t.id
                    },
                    name: t.name,
                    arguments: if t.args.len() == 0 {
                        "{}"@
                    } else {
                        t.args
                    },
                },
            )
        }
    }
}

/// A text, or nothing where it is empty.
pub open spec fn unless_empty(s: Seq<char>) -> Option<Seq<char>> {
    if s.len() == 0 {
        None
    } else {
        Some(s)
    }
}

/// The completion that a reply makes.
pub open spec fn completion_of(a: Acc) -> Completed {
    Completed {
        content: unless_empty(a.content),
        reasoning: unless_empty(a.reasoning),
        tool_calls: assembled(a.tools, a.tools.len()),
        rescued: None,
        usage: a.usage,
        finish_reason: a.finish_reason,
    }
}

// ---- laws -------------------------------------------------------------------

/// A setting is never dropped in silence: one that the provider cannot be told is warned
/// about, and no other is.
pub proof fn no_setting_is_dropped_in_silence(
    t: Thinking,
    d: ThinkingDialect,
    source: DialectSource,
    own_field: bool,
)
    ensures
        dropped_setting(Some(t), d, source, own_field) is Some <==> d
            == ThinkingDialect::ChatTemplate && (t is Effort || (t is Budget && !own_field)),
        dropped_setting(None, d, source, own_field) is None,
{
}

/// What a message says of how it came about (its reasoning, why it ended, and which
/// model wrote it) is never sent back.
pub proof fn traces_are_never_sent(
    m: Said,
    reasoning: Option<Seq<char>>,
    finish_reason: Option<Seq<char>>,
    model: Option<Seq<char>>,
)
    ensures
        message_tree(Said { reasoning, finish_reason, model, ..m }) == message_tree(m),
{
}

/// Feeding a stream in two pieces gives the lines, and leaves the rest, that
/// feeding it at once does: where the pieces are cut does not matter.
pub proof fn lines_do_not_depend_on_the_cut(a: Seq<u8>, b: Seq<u8>)
    ensures
        ({
            let first = whole_lines(a);
            let second = whole_lines(first.1 + b);
            whole_lines(a + b) == (first.0 + second.0, second.1)
        }),
    decreases a.len(),
{
    let first = whole_lines(a);
    if a.contains(10u8) {
        a.index_of_first_ensures(10u8);
        let i = a.index_of_first(10u8)->0;
        let c = a + b;
        assert(c[i] == 10u8);
        c.index_of_first_ensures(10u8);
        let k = c.index_of_first(10u8)->0;
        assert(k == i) by {
            if k < i {
                assert(a[k] == c[k]);
            }
        }
        assert(c.take(i + 1) =~= a.take(i + 1));
        assert(c.skip(i + 1) =~= a.skip(i + 1) + b);
        lines_do_not_depend_on_the_cut(a.skip(i + 1), b);
        let inner = whole_lines(a.skip(i + 1));
        let second = whole_lines(inner.1 + b);
        assert(whole_lines(c).0 =~= seq![a.take(i + 1)] + (inner.0 + second.0));
        assert(first.0 + second.0 =~= seq![a.take(i + 1)] + (inner.0 + second.0));
    } else {
        assert(first.0 + whole_lines(a + b).0 =~= whole_lines(a + b).0);
    }
}

/// A request mentions a thinking setting only where one was asked for, and then
/// under the one name that the dialect has for it.
pub proof fn thinking_is_sent_only_when_asked(req: ChatRequest, d: ThinkingDialect)
    ensures
        req.thinking is None ==> forall|i: int|
            0 <= i < request_tree(req, d)->Object_0.len() ==> {
                let key = (#[trigger] request_tree(req, d)->Object_0[i]).0;
                key != "reasoning"@ && key != "chat_template_kwargs"@
            },
        req.thinking matches Some(t) ==> request_tree(req, d)->Object_0.last() == thinking_field(
            t,
            d,
        ),
{
    reveal_strlit("model");
    reveal_strlit("messages");
    reveal_strlit("stream");
    reveal_strlit("stream_options");
    reveal_strlit("tools");
    reveal_strlit("temperature");
    reveal_strlit("top_p");
    reveal_strlit("top_k");
    reveal_strlit("max_tokens");
    reveal_strlit("provider");
    reveal_strlit("reasoning");
    reveal_strlit("chat_template_kwargs");
    assert("reasoning"@.len() == 9);
    assert("chat_template_kwargs"@.len() == 20);
}

// ---- what a stream comes to ---------------------------------------------------

/// What is told by a list of stream events, taken in order, as far as `f` hears it.
pub open spec fn told(es: Seq<Streamed>, f: spec_fn(Streamed) -> Seq<char>) -> Seq<char>
    decreases es.len(),
{
    if es.len() == 0 {
        seq![]
    } else {
        told(es.drop_last(), f) + f(es.last())
    }
}

/// Hears the text.
pub open spec fn text_in() -> spec_fn(Streamed) -> Seq<char> {
    |e: Streamed|
        match e {
            Streamed::TextDelta(t) => t,
            _ => Seq::<char>::empty(),
        }
}

/// Hears the reasoning.
pub open spec fn thought_in() -> spec_fn(Streamed) -> Seq<char> {
    |e: Streamed|
        match e {
            Streamed::ReasoningDelta(t) => t,
            _ => Seq::<char>::empty(),
        }
}

/// Hears the arguments of the call at `i`.
pub open spec fn args_in(i: nat) -> spec_fn(Streamed) -> Seq<char> {
    |e: Streamed|
        match e {
            Streamed::ToolCallArgsDelta(k, t) => if k == i {
                t
            } else {
                Seq::<char>::empty()
            },
            _ => Seq::<char>::empty(),
        }
}

/// The arguments that the call at `i` has so far.
pub open spec fn args_at(tools: Seq<Part>, i: nat) -> Seq<char> {
    if i < tools.len() {
        tools[i as int].args
    } else {
        Seq::<char>::empty()
    }
}

/// Did the reply grow by what was streamed, and by nothing else?
pub open spec fn grew_by(a: Acc, b: Acc, es: Seq<Streamed>) -> bool {
    &&& b.content == a.content + told(es, text_in())
    &&& b.reasoning == a.reasoning + told(es, thought_in())
    &&& forall|i: nat|
        #[trigger] args_at(b.tools, i) == args_at(a.tools, i) + told(es, args_in(i))
}

proof fn lemma_told_cat(a: Seq<Streamed>, b: Seq<Streamed>, f: spec_fn(Streamed) -> Seq<char>)
    ensures
        told(a + b, f) == told(a, f) + told(b, f),
    decreases b.len(),
{
    if b.len() == 0 {
        assert(a + b =~= a);
        assert(told(a, f) + told(b, f) =~= told(a, f));
    } else {
        lemma_told_cat(a, b.drop_last(), f);
        assert((a + b).drop_last() =~= a + b.drop_last());
        assert(told(a + b, f) =~= told(a, f) + told(b, f));
    }
}

proof fn lemma_told_one(e: Streamed, f: spec_fn(Streamed) -> Seq<char>)
    ensures
        told(seq![e], f) == f(e),
{
    assert(told(seq![e].drop_last(), f) =~= Seq::<char>::empty());
    assert(told(seq![e], f) =~= f(e));
}

proof fn lemma_grew_cat(a: Acc, b: Acc, c: Acc, x: Seq<Streamed>, y: Seq<Streamed>)
    requires
        grew_by(a, b, x),
        grew_by(b, c, y),
    ensures
        grew_by(a, c, x + y),
{
    lemma_told_cat(x, y, text_in());
    lemma_told_cat(x, y, thought_in());
    assert(c.content =~= a.content + told(x + y, text_in()));
    assert(c.reasoning =~= a.reasoning + told(x + y, thought_in()));
    assert forall|i: nat| #[trigger] args_at(c.tools, i) == args_at(a.tools, i) + told(
        x + y,
        args_in(i),
    ) by {
        lemma_told_cat(x, y, args_in(i));
        assert(args_at(b.tools, i) == args_at(a.tools, i) + told(x, args_in(i)));
        assert(args_at(c.tools, i) =~= args_at(a.tools, i) + told(x + y, args_in(i)));
    }
}

proof fn lemma_grew_none(a: Acc, b: Acc)
    requires
        a.content == b.content,
        a.reasoning == b.reasoning,
        a.tools == b.tools,
    ensures
        grew_by(a, b, seq![]),
{
    assert(b.content =~= a.content + told(seq![], text_in()));
    assert(b.reasoning =~= a.reasoning + told(seq![], thought_in()));
    assert forall|i: nat| #[trigger] args_at(b.tools, i) == args_at(a.tools, i) + told(
        seq![],
        args_in(i),
    ) by {
        assert(args_at(b.tools, i) =~= args_at(a.tools, i) + told(seq![], args_in(i)));
    }
}

/// What a delta brings to the arguments of the call at `i`.
pub open spec fn args_brought(d: DeltaToolCall, i: nat) -> Seq<char> {
    if d.index == i {
        match d.function {
            Some(f) => match f.arguments {
                Some(x) => x@,
                None => Seq::<char>::empty(),
            },
            None => Seq::<char>::empty(),
        }
    } else {
        Seq::<char>::empty()
    }
}

/// A delta of a call touches that call alone. What it brings of the arguments is put
/// behind those that are there and is streamed; a name that is not empty, and an id, take
/// the place of what was there; anything that it does not bring stays.
pub proof fn a_delta_touches_its_call_alone(a: Acc, d: DeltaToolCall)
    ensures
        ({
            let (b, es) = call_added(a, d);
            let k = d.index as int;
            &&& b.content == a.content && b.reasoning == a.reasoning && b.usage == a.usage
                && b.finish_reason == a.finish_reason
            &&& k < b.tools.len() && a.tools.len() <= b.tools.len()
            &&& forall|i: int| 0 <= i < a.tools.len() && i != k ==> b.tools[i] == a.tools[i]
            &&& forall|i: int|
                a.tools.len() <= i < b.tools.len() && i != k ==> (#[trigger] b.tools[i]).name.len()
                    == 0
            &&& forall|i: nat| #[trigger] told(es, args_in(i)) == args_brought(d, i)
            &&& told(es, text_in()).len() == 0 && told(es, thought_in()).len() == 0
            &&& (d.id matches Some(id) ==> b.tools[k].id == id@)
            &&& (d.id is None && k < a.tools.len() ==> b.tools[k].id == a.tools[k].id)
            &&& ((d.function matches Some(f) && f.name matches Some(n) && n@.len() > 0)
                ==> b.tools[k].name == d.function->0.name->0@)
            &&& ((d.function is None || d.function->0.name is None || d.function->0.name->0@.len()
                == 0) && k < a.tools.len() ==> b.tools[k].name == a.tools[k].name)
        }),
        grew_by(a, call_added(a, d).0, call_added(a, d).1),
{
    let (b, es) = call_added(a, d);
    let k = d.index as int;
    let tools = padded(a.tools, k + 1);
    assert forall|i: nat| #[trigger] told(es, args_in(i)) == args_brought(d, i) by {
        lemma_told_events(tools[k], d, args_in(i));
        assert(told(es, args_in(i)) =~= args_brought(d, i));
    }
    lemma_told_events(tools[k], d, text_in());
    lemma_told_events(tools[k], d, thought_in());
    assert(told(es, text_in()) =~= Seq::<char>::empty());
    assert(told(es, thought_in()) =~= Seq::<char>::empty());
    assert(b.content =~= a.content + told(es, text_in()));
    assert(b.reasoning =~= a.reasoning + told(es, thought_in()));
    assert forall|i: nat| #[trigger] args_at(b.tools, i) == args_at(a.tools, i) + told(
        es,
        args_in(i),
    ) by {
        assert(told(es, args_in(i)) == args_brought(d, i));
        assert(args_at(b.tools, i) =~= args_at(a.tools, i) + args_brought(d, i));
    }
}

proof fn lemma_told_events(p: Part, d: DeltaToolCall, f: spec_fn(Streamed) -> Seq<char>)
    requires
        forall|i: nat, x: Seq<char>, y: Seq<char>|
            #[trigger] f(Streamed::ToolCallStarted(i, x, y)) == Seq::<char>::empty(),
    ensures
        told(part_grown(p, d).1, f) == (match d.function {
            Some(g) => match g.arguments {
                Some(x) if x@.len() > 0 => f(Streamed::ToolCallArgsDelta(d.index as nat, x@)),
                _ => Seq::<char>::empty(),
            },
            None => Seq::<char>::empty(),
        }),
{
    let es = part_grown(p, d).1;
    let n = es.len() as int;
    if n == 1 {
        lemma_told_one(es[0], f);
        assert(es =~= seq![es[0]]);
    } else if n == 2 {
        lemma_told_cat(seq![es[0]], seq![es[1]], f);
        lemma_told_one(es[0], f);
        lemma_told_one(es[1], f);
        assert(es =~= seq![es[0]] + seq![es[1]]);
        assert(told(es, f) =~= f(es[0]));
    }
}

proof fn lemma_calls_grow(a: Acc, ds: Seq<DeltaToolCall>, n: nat)
    requires
        n <= ds.len(),
    ensures
        grew_by(a, calls_added(a, ds, n).0, calls_added(a, ds, n).1),
        told(calls_added(a, ds, n).1, text_in()).len() == 0,
        told(calls_added(a, ds, n).1, thought_in()).len() == 0,
        calls_added(a, ds, n).0.usage == a.usage,
        calls_added(a, ds, n).0.finish_reason == a.finish_reason,
        forall|i: nat|
            #[trigger] told(calls_added(a, ds, n).1, args_in(i)) == all_args_brought(ds, n, i),
    decreases n,
{
    if n == 0 {
        lemma_grew_none(a, a);
    } else {
        lemma_calls_grow(a, ds, (n - 1) as nat);
        let (b, before) = calls_added(a, ds, (n - 1) as nat);
        let (c, es) = call_added(b, ds[n - 1]);
        a_delta_touches_its_call_alone(b, ds[n - 1]);
        lemma_grew_cat(a, b, c, before, es);
        lemma_told_cat(before, es, text_in());
        lemma_told_cat(before, es, thought_in());
        assert forall|i: nat|
            #[trigger] told(calls_added(a, ds, n).1, args_in(i)) == all_args_brought(ds, n, i) by {
            lemma_told_cat(before, es, args_in(i));
            assert(told(before, args_in(i)) == all_args_brought(ds, (n - 1) as nat, i));
            assert(told(es, args_in(i)) == args_brought(ds[n - 1], i));
        }
    }
}

/// What the first `n` deltas bring to the arguments of the call at `i`, in order.
pub open spec fn all_args_brought(ds: Seq<DeltaToolCall>, n: nat, i: nat) -> Seq<char>
    decreases n,
{
    if n == 0 {
        seq![]
    } else {
        all_args_brought(ds, (n - 1) as nat, i) + args_brought(ds[n - 1], i)
    }
}

/// What the first `n` choices of a chunk say, in order.
pub open spec fn text_brought(cs: Seq<ChunkChoice>, n: nat) -> Seq<char>
    decreases n,
{
    if n == 0 {
        seq![]
    } else {
        text_brought(cs, (n - 1) as nat) + match cs[n - 1].delta.content {
            Some(t) => without_noise(t@),
            None => Seq::<char>::empty(),
        }
    }
}

/// What the first `n` choices of a chunk reason, in order, under either name.
pub open spec fn thought_brought(cs: Seq<ChunkChoice>, n: nat) -> Seq<char>
    decreases n,
{
    if n == 0 {
        seq![]
    } else {
        let d = cs[n - 1].delta;
        thought_brought(cs, (n - 1) as nat) + match (d.reasoning, d.reasoning_content) {
            (Some(r), _) => r@,
            (None, Some(r)) => r@,
            (None, None) => Seq::<char>::empty(),
        }
    }
}

/// What the first `n` choices of a chunk bring to the arguments of the call at `i`.
pub open spec fn arguments_brought(cs: Seq<ChunkChoice>, n: nat, i: nat) -> Seq<char>
    decreases n,
{
    if n == 0 {
        seq![]
    } else {
        let ds = cs[n - 1].delta.tool_calls@;
        arguments_brought(cs, (n - 1) as nat, i) + all_args_brought(ds, ds.len(), i)
    }
}

proof fn lemma_choice_grows(a: Acc, c: ChunkChoice)
    ensures
        ({
            let (b, es) = choice_added(a, c);
            let one = seq![c];
            &&& grew_by(a, b, es)
            &&& b.usage == a.usage
            &&& b.finish_reason == match c.finish_reason {
                Some(f) => Some(f@),
                None => a.finish_reason,
            }
            &&& told(es, text_in()) == text_brought(one, 1)
            &&& told(es, thought_in()) == thought_brought(one, 1)
            &&& forall|i: nat| #[trigger] told(es, args_in(i)) == arguments_brought(one, 1, i)
        }),
{
    let one = seq![c];
    let b = match c.finish_reason {
        Some(f) => Acc { finish_reason: Some(f@), ..a },
        None => a,
    };
    let (d, thought) = match reasoning_of(c.delta) {
        Some(r) if r.len() > 0 => (
            Acc { reasoning: b.reasoning + r, ..b },
            seq![Streamed::ReasoningDelta(r)],
        ),
        _ => (b, Seq::<Streamed>::empty()),
    };
    let (e, said) = match c.delta.content {
        Some(t) if without_noise(t@).len() > 0 => (
            Acc { content: d.content + without_noise(t@), ..d },
            seq![Streamed::TextDelta(without_noise(t@))],
        ),
        _ => (d, Seq::<Streamed>::empty()),
    };
    let ds = c.delta.tool_calls@;
    let (f, called) = calls_added(e, ds, ds.len());
    lemma_calls_grow(e, ds, ds.len());
    lemma_grew_none(a, b);
    if thought.len() > 0 {
        lemma_grew_one(b, d, thought[0]);
        assert(thought =~= seq![thought[0]]);
    } else {
        lemma_grew_none(b, d);
        assert(thought =~= seq![]);
    }
    if said.len() > 0 {
        lemma_grew_one(d, e, said[0]);
        assert(said =~= seq![said[0]]);
    } else {
        lemma_grew_none(d, e);
        assert(said =~= seq![]);
    }
    lemma_grew_cat(a, b, d, seq![], thought);
    assert(Seq::<Streamed>::empty() + thought =~= thought);
    lemma_grew_cat(a, d, e, thought, said);
    lemma_grew_cat(a, e, f, thought + said, called);
    let es = choice_added(a, c).1;
    assert(choice_added(a, c) == (f, thought + said + called));
    lemma_heard(thought, said, called, text_in());
    lemma_heard(thought, said, called, thought_in());
    assert(one[0] == c);
    assert(text_brought(one, 0) =~= seq![]);
    assert(thought_brought(one, 0) =~= seq![]);
    assert(told(es, text_in()) =~= text_brought(one, 1));
    assert(told(es, thought_in()) =~= thought_brought(one, 1));
    assert forall|i: nat| #[trigger] told(es, args_in(i)) == arguments_brought(one, 1, i) by {
        lemma_heard(thought, said, called, args_in(i));
        assert(told(called, args_in(i)) == all_args_brought(ds, ds.len(), i));
        assert(arguments_brought(one, 0, i) =~= seq![]);
        assert(told(es, args_in(i)) =~= arguments_brought(one, 1, i));
    }
}

proof fn lemma_grew_one(a: Acc, b: Acc, e: Streamed)
    requires
        a.tools == b.tools,
        (e matches Streamed::TextDelta(t) && b.content == a.content + t && b.reasoning
            == a.reasoning) || (e matches Streamed::ReasoningDelta(t) && b.reasoning == a.reasoning
            + t && b.content == a.content),
    ensures
        grew_by(a, b, seq![e]),
{
    lemma_told_one(e, text_in());
    lemma_told_one(e, thought_in());
    assert(b.content =~= a.content + told(seq![e], text_in()));
    assert(b.reasoning =~= a.reasoning + told(seq![e], thought_in()));
    assert forall|i: nat| #[trigger] args_at(b.tools, i) == args_at(a.tools, i) + told(
        seq![e],
        args_in(i),
    ) by {
        lemma_told_one(e, args_in(i));
        assert(args_at(b.tools, i) =~= args_at(a.tools, i) + told(seq![e], args_in(i)));
    }
}

proof fn lemma_heard(
    thought: Seq<Streamed>,
    said: Seq<Streamed>,
    called: Seq<Streamed>,
    f: spec_fn(Streamed) -> Seq<char>,
)
    requires
        thought.len() <= 1,
        said.len() <= 1,
    ensures
        told(thought + said + called, f) == (if thought.len() == 1 {
            f(thought[0])
        } else {
            Seq::<char>::empty()
        }) + (if said.len() == 1 {
            f(said[0])
        } else {
            Seq::<char>::empty()
        }) + told(called, f),
{
    lemma_told_cat(thought + said, called, f);
    lemma_told_cat(thought, said, f);
    if thought.len() == 1 {
        lemma_told_one(thought[0], f);
        assert(thought =~= seq![thought[0]]);
    }
    if said.len() == 1 {
        lemma_told_one(said[0], f);
        assert(said =~= seq![said[0]]);
    }
}

proof fn lemma_choices_grow(a: Acc, cs: Seq<ChunkChoice>, n: nat)
    requires
        n <= cs.len(),
    ensures
        ({
            let (b, es) = choices_added(a, cs, n);
            &&& grew_by(a, b, es)
            &&& b.usage == a.usage
            &&& told(es, text_in()) == text_brought(cs, n)
            &&& told(es, thought_in()) == thought_brought(cs, n)
            &&& forall|i: nat| #[trigger] told(es, args_in(i)) == arguments_brought(cs, n, i)
            &&& forall|k: int|
                0 <= k < n && (#[trigger] cs[k]).finish_reason is Some && (forall|j: int|
                    k < j < n ==> (#[trigger] cs[j]).finish_reason is None) ==> b.finish_reason
                    == opt_view(cs[k].finish_reason)
            &&& (forall|k: int| 0 <= k < n ==> (#[trigger] cs[k]).finish_reason is None)
                ==> b.finish_reason == a.finish_reason
        }),
    decreases n,
{
    if n == 0 {
        lemma_grew_none(a, a);
    } else {
        let m = (n - 1) as nat;
        lemma_choices_grow(a, cs, m);
        let (b, before) = choices_added(a, cs, m);
        let (c, es) = choice_added(b, cs[n - 1]);
        let one = seq![cs[n - 1]];
        lemma_choice_grows(b, cs[n - 1]);
        lemma_grew_cat(a, b, c, before, es);
        lemma_told_cat(before, es, text_in());
        lemma_told_cat(before, es, thought_in());
        assert(one[0] == cs[n - 1]);
        assert(text_brought(one, 0) =~= seq![] && thought_brought(one, 0) =~= seq![]);
        assert(told(before + es, text_in()) =~= text_brought(cs, n));
        assert(told(before + es, thought_in()) =~= thought_brought(cs, n));
        assert forall|i: nat| #[trigger] told(before + es, args_in(i)) == arguments_brought(
            cs,
            n,
            i,
        ) by {
            lemma_told_cat(before, es, args_in(i));
            assert(told(es, args_in(i)) == arguments_brought(one, 1, i));
            assert(arguments_brought(one, 0, i) =~= seq![]);
            assert(told(before, args_in(i)) == arguments_brought(cs, m, i));
            assert(told(before + es, args_in(i)) =~= arguments_brought(cs, n, i));
        }
        assert forall|k: int|
            0 <= k < n && (#[trigger] cs[k]).finish_reason is Some && (forall|j: int|
                k < j < n ==> (#[trigger] cs[j]).finish_reason is None) implies c.finish_reason
            == opt_view(cs[k].finish_reason) by {
            if k < n - 1 {
                assert(cs[n - 1].finish_reason is None);
            }
        }
        if forall|k: int| 0 <= k < n ==> (#[trigger] cs[k]).finish_reason is None {
            assert(cs[n - 1].finish_reason is None);
        }
    }
}

/// A chunk is taken in whole. The reply grows, in order, by exactly what is streamed of the
/// chunk, and that is what the chunk's choices say, reason and bring of arguments. The last
/// reason for ending stands, and the usage where the chunk has one.
pub proof fn a_chunk_is_taken_in_whole(a: Acc, chunk: ChunkResp)
    ensures
        ({
            let (b, es) = applied(a, chunk);
            let cs = chunk.choices@;
            &&& b.content == a.content + told(es, text_in())
            &&& b.reasoning == a.reasoning + told(es, thought_in())
            &&& forall|i: nat|
                #[trigger] args_at(b.tools, i) == args_at(a.tools, i) + told(es, args_in(i))
            &&& told(es, text_in()) == text_brought(cs, cs.len())
            &&& told(es, thought_in()) == thought_brought(cs, cs.len())
            &&& forall|i: nat|
                #[trigger] told(es, args_in(i)) == arguments_brought(cs, cs.len(), i)
            &&& b.usage == match chunk.usage {
                Some(u) => u,
                None => a.usage,
            }
            &&& forall|k: int|
                0 <= k < cs.len() && (#[trigger] cs[k]).finish_reason is Some && (forall|j: int|
                    k < j < cs.len() ==> (#[trigger] cs[j]).finish_reason is None)
                    ==> b.finish_reason == opt_view(cs[k].finish_reason)
            &&& (forall|k: int| 0 <= k < cs.len() ==> (#[trigger] cs[k]).finish_reason is None)
                ==> b.finish_reason == a.finish_reason
        }),
{
    let cs = chunk.choices@;
    match chunk.usage {
        Some(u) => {
            let a1 = Acc { usage: u, ..a };
            lemma_choices_grow(a1, cs, cs.len());
            let (b, es) = choices_added(a1, cs, cs.len());
            let first = seq![Streamed::Usage(u)];
            lemma_told_one(Streamed::Usage(u), text_in());
            lemma_told_one(Streamed::Usage(u), thought_in());
            lemma_told_cat(first, es, text_in());
            lemma_told_cat(first, es, thought_in());
            assert(told(first + es, text_in()) =~= told(es, text_in()));
            assert(told(first + es, thought_in()) =~= told(es, thought_in()));
            assert forall|i: nat| #[trigger] told(first + es, args_in(i)) == told(es, args_in(i)) by {
                lemma_told_one(Streamed::Usage(u), args_in(i));
                lemma_told_cat(first, es, args_in(i));
                assert(told(first + es, args_in(i)) =~= told(es, args_in(i)));
            }
            assert forall|i: nat| #[trigger] args_at(b.tools, i) == args_at(a.tools, i) + told(
                first + es,
                args_in(i),
            ) by {
                assert(told(first + es, args_in(i)) == told(es, args_in(i)));
                assert(args_at(b.tools, i) == args_at(a1.tools, i) + told(es, args_in(i)));
            }
            assert forall|i: nat| #[trigger] told(first + es, args_in(i)) == arguments_brought(
                cs,
                cs.len(),
                i,
            ) by {
                assert(told(es, args_in(i)) == arguments_brought(cs, cs.len(), i));
            }
        },
        None => {
            lemma_choices_grow(a, cs, cs.len());
        },
    }
}

/// The reply once the first `n` chunks are taken in, and all that was streamed.
pub open spec fn reply_of(chunks: Seq<ChunkResp>, n: nat) -> (Acc, Seq<Streamed>)
    decreases n,
{
    if n == 0 {
        (
            Acc {
                content: seq![],
                reasoning: seq![],
                tools: seq![],
                finish_reason: None,
                usage: no_usage(),
            },
            seq![],
        )
    } else {
        let (a, before) = reply_of(chunks, (n - 1) as nat);
        let (b, es) = applied(a, chunks[n - 1]);
        (b, before + es)
    }
}

/// Everything that the chunks say, in order.
pub open spec fn all_said(chunks: Seq<ChunkResp>, n: nat) -> Seq<char>
    decreases n,
{
    if n == 0 {
        seq![]
    } else {
        let cs = chunks[n - 1].choices@;
        all_said(chunks, (n - 1) as nat) + text_brought(cs, cs.len())
    }
}

/// Everything that the chunks reason, in order.
pub open spec fn all_thought(chunks: Seq<ChunkResp>, n: nat) -> Seq<char>
    decreases n,
{
    if n == 0 {
        seq![]
    } else {
        let cs = chunks[n - 1].choices@;
        all_thought(chunks, (n - 1) as nat) + thought_brought(cs, cs.len())
    }
}

proof fn lemma_reply(chunks: Seq<ChunkResp>, n: nat)
    requires
        n <= chunks.len(),
    ensures
        ({
            let (a, es) = reply_of(chunks, n);
            &&& a.content == told(es, text_in()) && a.content == all_said(chunks, n)
            &&& a.reasoning == told(es, thought_in()) && a.reasoning == all_thought(chunks, n)
            &&& forall|i: nat| #[trigger] args_at(a.tools, i) == told(es, args_in(i))
            &&& forall|k: int|
                0 <= k < n && (#[trigger] chunks[k]).usage is Some && (forall|j: int|
                    k < j < n ==> (#[trigger] chunks[j]).usage is None) ==> a.usage
                    == chunks[k].usage->0
        }),
    decreases n,
{
    if n > 0 {
        let m = (n - 1) as nat;
        lemma_reply(chunks, m);
        let (a, before) = reply_of(chunks, m);
        let (b, es) = applied(a, chunks[n - 1]);
        a_chunk_is_taken_in_whole(a, chunks[n - 1]);
        lemma_told_cat(before, es, text_in());
        lemma_told_cat(before, es, thought_in());
        assert forall|i: nat| #[trigger] args_at(b.tools, i) == told(before + es, args_in(i)) by {
            lemma_told_cat(before, es, args_in(i));
            assert(args_at(a.tools, i) == told(before, args_in(i)));
        }
        assert forall|k: int|
            0 <= k < n && (#[trigger] chunks[k]).usage is Some && (forall|j: int|
                k < j < n ==> (#[trigger] chunks[j]).usage is None) implies b.usage
            == chunks[k].usage->0 by {
            if k < n - 1 {
                assert(chunks[n - 1].usage is None);
            }
        }
    }
}

/// A finished reply holds all that was streamed, in order, and nothing else: its content is
/// every text one behind the other, its reasoning every thought, and each call that was
/// named has all of its arguments. The usage is the last that was reported.
pub proof fn a_reply_is_all_that_was_streamed(chunks: Seq<ChunkResp>)
    ensures
        ({
            let (a, es) = reply_of(chunks, chunks.len());
            let c = completion_of(a);
            let whole = all_said(chunks, chunks.len());
            let thought = all_thought(chunks, chunks.len());
            &&& told(es, text_in()) == whole && told(es, thought_in()) == thought
            &&& whole.len() > 0 ==> c.content == Some(whole)
            &&& whole.len() == 0 ==> c.content is None
            &&& thought.len() > 0 ==> c.reasoning == Some(thought)
            &&& thought.len() == 0 ==> c.reasoning is None
            &&& forall|i: int|
                0 <= i < a.tools.len() && (#[trigger] a.tools[i]).name.len() > 0 ==> {
                    let k = named_before(a.tools, i as nat) as int;
                    &&& k < c.tool_calls.len()
                    &&& c.tool_calls[k].name == a.tools[i].name
                    &&& told(es, args_in(i as nat)).len() > 0 ==> c.tool_calls[k].arguments
                        == told(es, args_in(i as nat))
                }
            &&& c.tool_calls.len() == named_before(a.tools, a.tools.len())
            &&& forall|k: int|
                0 <= k < chunks.len() && (#[trigger] chunks[k]).usage is Some && (forall|j: int|
                    k < j < chunks.len() ==> (#[trigger] chunks[j]).usage is None) ==> c.usage
                    == chunks[k].usage->0
            &&& c.finish_reason == a.finish_reason
        }),
{
    let n = chunks.len();
    lemma_reply(chunks, n);
    let (a, es) = reply_of(chunks, n);
    let c = completion_of(a);
    named_calls_come_out(a.tools, a.tools.len());
    assert forall|i: int| 0 <= i < a.tools.len() && (#[trigger] a.tools[i]).name.len() > 0 implies {
        let k = named_before(a.tools, i as nat) as int;
        &&& k < c.tool_calls.len()
        &&& c.tool_calls[k].name == a.tools[i].name
        &&& told(es, args_in(i as nat)).len() > 0 ==> c.tool_calls[k].arguments == told(
            es,
            args_in(i as nat),
        )
    } by {
        assert(args_at(a.tools, i as nat) == told(es, args_in(i as nat)));
    }
}

/// How many of the first `n` calls were named.
pub open spec fn named_before(tools: Seq<Part>, n: nat) -> nat
    decreases n,
{
    if n == 0 {
        0
    } else {
        named_before(tools, (n - 1) as nat) + if tools[n - 1].name.len() > 0 {
            1nat
        } else {
            0
        }
    }
}

/// Every call that was named comes out, in its order, with its name, its id where it has
/// one, and its arguments, or an empty object; and no other does.
pub proof fn named_calls_come_out(tools: Seq<Part>, n: nat)
    requires
        n <= tools.len(),
    ensures
        assembled(tools, n).len() == named_before(tools, n),
        forall|i: int|
            0 <= i < n && (#[trigger] tools[i]).name.len() > 0 ==> {
                let k = named_before(tools, i as nat) as int;
                let c = assembled(tools, n)[k];
                &&& k < assembled(tools, n).len()
                &&& c.name == tools[i].name
                &&& tools[i].id.len() > 0 ==> c.id == tools[i].id
                &&& tools[i].id.len() == 0 ==> c.id == "call_"@ + dec(k as nat)
                &&& tools[i].args.len() > 0 ==> c.arguments == tools[i].args
                &&& tools[i].args.len() == 0 ==> c.arguments == "{}"@
            },
    decreases n,
{
    if n > 0 {
        named_calls_come_out(tools, (n - 1) as nat);
        let before = assembled(tools, (n - 1) as nat);
        let all = assembled(tools, n);
        assert forall|i: int| 0 <= i < n && (#[trigger] tools[i]).name.len() > 0 implies {
            let k = named_before(tools, i as nat) as int;
            let c = all[k];
            &&& k < all.len()
            &&& c.name == tools[i].name
            &&& tools[i].id.len() > 0 ==> c.id == tools[i].id
            &&& tools[i].id.len() == 0 ==> c.id == "call_"@ + dec(k as nat)
            &&& tools[i].args.len() > 0 ==> c.arguments == tools[i].args
            &&& tools[i].args.len() == 0 ==> c.arguments == "{}"@
        } by {
            if i < n - 1 {
                let k = named_before(tools, i as nat) as int;
                assert(k < before.len());
                assert(all[k] == before[k]);
            }
        }
    }
}

// ---- what a request says ----------------------------------------------------

/// The entries of an object.
pub open spec fn entries(t: Tree) -> Seq<(Seq<char>, Tree)> {
    match t {
        Tree::Object(e) => e,
        _ => seq![],
    }
}

/// One for what is there.
pub open spec fn one_if(b: bool) -> nat {
    if b {
        1
    } else {
        0
    }
}

proof fn lemma_with_opt(e: Seq<(Seq<char>, Tree)>, key: Seq<char>, value: Option<Tree>)
    ensures
        with_opt(e, key, value).len() == e.len() + one_if(value is Some),
        forall|x: (Seq<char>, Tree)| #[trigger]
            e.contains(x) ==> with_opt(e, key, value).contains(x),
        value matches Some(v) ==> with_opt(e, key, value).contains((key, v)),
{
    if let Some(v) = value {
        let w = e.push((key, v));
        assert(w[e.len() as int] == (key, v));
        assert forall|x: (Seq<char>, Tree)| #[trigger] e.contains(x) implies w.contains(x) by {
            let i = choose|i: int| 0 <= i < e.len() && e[i] == x;
            assert(w[i] == x);
        }
    }
}

/// A request says all that it was asked to say and nothing else: the model, every message
/// in order, every tool, each setting that is given under its own name and with its own
/// value, and that the reply is to be streamed with its usage.
pub proof fn a_request_says_all_that_was_asked(req: ChatRequest, d: ThinkingDialect)
    ensures
        ({
            let b = entries(request_tree(req, d));
            &&& request_tree(req, d) is Object
            &&& b.contains(("model"@, Tree::Text(req.model@)))
            &&& b.contains(
                (
                    "messages"@,
                    Tree::List(
                        Seq::new(req.messages@.len(), |i: int| message_tree(req.messages@[i]@)),
                    ),
                ),
            )
            &&& b.contains(("stream"@, Tree::Bool(true)))
            &&& b.contains(
                ("stream_options"@, Tree::Object(seq![("include_usage"@, Tree::Bool(true))])),
            )
            &&& req.tools@.len() > 0 ==> b.contains(
                (
                    "tools"@,
                    Tree::List(Seq::new(req.tools@.len(), |i: int| tool_tree(req.tools@[i]))),
                ),
            )
            &&& req.temperature matches Some(n) ==> b.contains(("temperature"@, Tree::Number(n@)))
            &&& req.top_p matches Some(n) ==> b.contains(("top_p"@, Tree::Number(n@)))
            &&& req.top_k matches Some(n) ==> b.contains(
                ("top_k"@, Tree::Number(NumberView::Pos(n as u64))),
            )
            &&& req.max_tokens matches Some(n) ==> b.contains(
                ("max_tokens"@, Tree::Number(NumberView::Pos(n as u64))),
            )
            &&& req.sort matches Some(s) ==> b.contains(
                ("provider"@, Tree::Object(seq![("sort"@, Tree::Text(s@))])),
            )
            &&& req.thinking matches Some(t) ==> b.contains(thinking_field(t, d))
            &&& b.len() == 4 + one_if(req.tools@.len() > 0) + one_if(req.temperature is Some)
                + one_if(req.top_p is Some) + one_if(req.top_k is Some) + one_if(
                req.max_tokens is Some,
            ) + one_if(req.sort is Some) + one_if(req.thinking is Some)
        }),
{
    let base = body_base(req);
    let m = ("model"@, Tree::Text(req.model@));
    let ms = (
        "messages"@,
        Tree::List(Seq::new(req.messages@.len(), |i: int| message_tree(req.messages@[i]@))),
    );
    let st = ("stream"@, Tree::Bool(true));
    let so = ("stream_options"@, Tree::Object(seq![("include_usage"@, Tree::Bool(true))]));
    assert(base[0] == m && base[1] == ms && base[2] == st && base[3] == so);
    let tl: Option<Tree> = if req.tools@.len() == 0 {
        None
    } else {
        Some(Tree::List(Seq::new(req.tools@.len(), |i: int| tool_tree(req.tools@[i]))))
    };
    let a1 = with_opt(base, "tools"@, tl);
    let a2 = with_opt(a1, "temperature"@, numeric(req.temperature));
    let a3 = with_opt(a2, "top_p"@, numeric(req.top_p));
    let a4 = with_opt(a3, "top_k"@, whole(req.top_k));
    let a5 = with_opt(a4, "max_tokens"@, whole(req.max_tokens));
    let sv: Option<Tree> = match req.sort {
        Some(s) => Some(Tree::Object(seq![("sort"@, Tree::Text(s@))])),
        None => None,
    };
    let a6 = with_opt(a5, "provider"@, sv);
    let fv: Option<Tree> = match req.thinking {
        Some(t) => Some(thinking_field(t, d).1),
        None => None,
    };
    let fk: Seq<char> = match req.thinking {
        Some(t) => thinking_field(t, d).0,
        None => seq![],
    };
    let a7 = with_opt(a6, fk, fv);
    assert(entries(request_tree(req, d)) =~= a7);
    lemma_with_opt(base, "tools"@, tl);
    lemma_with_opt(a1, "temperature"@, numeric(req.temperature));
    lemma_with_opt(a2, "top_p"@, numeric(req.top_p));
    lemma_with_opt(a3, "top_k"@, whole(req.top_k));
    lemma_with_opt(a4, "max_tokens"@, whole(req.max_tokens));
    lemma_with_opt(a5, "provider"@, sv);
    lemma_with_opt(a6, fk, fv);
    assert(base.contains(m) && base.contains(ms) && base.contains(st) && base.contains(so));
}

/// A message is sent with its role, its text, every call with its id, its name and its
/// arguments, and the call that it answers.
pub proof fn a_message_is_sent_whole(m: Said, k: int)
    ensures
        ({
            let b = entries(message_tree(m));
            &&& b.contains(("role"@, Tree::Text(role_name(m.role))))
            &&& m.content matches Some(c) ==> b.contains(("content"@, Tree::Text(c)))
            &&& m.content is None ==> b.contains(("content"@, Tree::Null))
            &&& m.tool_call_id matches Some(id) ==> b.contains(("tool_call_id"@, Tree::Text(id)))
            &&& m.tool_calls.len() > 0 ==> exists|cs: Seq<Tree>|
                {
                    &&& #[trigger] b.contains(("tool_calls"@, Tree::List(cs)))
                    &&& cs.len() == m.tool_calls.len()
                    &&& forall|i: int|
                        0 <= i < cs.len() ==> {
                            let e = entries(#[trigger] cs[i]);
                            &&& e.contains(("id"@, Tree::Text(m.tool_calls[i].id)))
                            &&& e.contains(("type"@, Tree::Text("function"@)))
                            &&& e.contains(
                                (
                                    "function"@,
                                    Tree::Object(
                                        seq![
                                            ("name"@, Tree::Text(m.tool_calls[i].name)),
                                            ("arguments"@, Tree::Text(m.tool_calls[i].arguments)),
                                        ],
                                    ),
                                ),
                            )
                        }
                }
            &&& b.len() == 2 + one_if(m.tool_calls.len() > 0) + one_if(m.tool_call_id is Some)
        }),
{
    let b = entries(message_tree(m));
    assert(b[0] == ("role"@, Tree::Text(role_name(m.role))));
    assert(b[1].0 == "content"@);
    assert(b.contains(b[0]) && b.contains(b[1]));
    if m.tool_call_id is Some {
        assert(b.contains(b[b.len() - 1]));
    }
    if m.tool_calls.len() > 0 {
        let cs = Seq::new(m.tool_calls.len(), |i: int| call_tree(m.tool_calls[i]));
        assert(b[2] == ("tool_calls"@, Tree::List(cs)));
        assert(b.contains(b[2]));
        assert forall|i: int| 0 <= i < cs.len() implies ({
            let e = entries(#[trigger] cs[i]);
            &&& e.contains(("id"@, Tree::Text(m.tool_calls[i].id)))
            &&& e.contains(("type"@, Tree::Text("function"@)))
            &&& e.contains(
                (
                    "function"@,
                    Tree::Object(
                        seq![
                            ("name"@, Tree::Text(m.tool_calls[i].name)),
                            ("arguments"@, Tree::Text(m.tool_calls[i].arguments)),
                        ],
                    ),
                ),
            )
        }) by {
            let e = entries(cs[i]);
            assert(e.contains(e[0]) && e.contains(e[1]) && e.contains(e[2]));
        }
    }
}

/// A tool is sent with its name, its description and its parameters.
pub proof fn a_tool_is_sent_whole(t: ToolDef)
    ensures
        ({
            let b = entries(tool_tree(t));
            &&& b.len() == 2
            &&& b.contains(("type"@, Tree::Text("function"@)))
            &&& exists|f: Seq<(Seq<char>, Tree)>|
                {
                    &&& #[trigger] b.contains(("function"@, Tree::Object(f)))
                    &&& f.len() == 3
                    &&& f.contains(("name"@, Tree::Text(t.name@)))
                    &&& f.contains(("description"@, Tree::Text(t.description@)))
                    &&& f.contains(("parameters"@, t.parameters@))
                }
        }),
{
    let b = entries(tool_tree(t));
    assert(b.contains(b[0]) && b.contains(b[1]));
    let f = entries(b[1].1);
    assert(f.contains(f[0]) && f.contains(f[1]) && f.contains(f[2]));
    assert(b[1] == ("function"@, Tree::Object(f)));
}

/// How much to think is said in the words of the dialect: whether at all, for how many
/// tokens, or how hard; where it can only be said whether, anything but off is on.
pub proof fn thinking_is_said_in_the_dialect(t: Thinking)
    ensures
        thinking_field(t, ThinkingDialect::ChatTemplate).1 == Tree::Object(
            seq![("enable_thinking"@, Tree::Bool(!(t is Off)))],
        ),
        t is Off ==> thinking_field(t, ThinkingDialect::Reasoning).1 == Tree::Object(
            seq![("enabled"@, Tree::Bool(false))],
        ),
        t is On ==> thinking_field(t, ThinkingDialect::Reasoning).1 == Tree::Object(
            seq![("enabled"@, Tree::Bool(true))],
        ),
        t matches Thinking::Budget(n) ==> thinking_field(t, ThinkingDialect::Reasoning).1
            == Tree::Object(seq![("max_tokens"@, Tree::Number(NumberView::Pos(n as u64)))]),
        t matches Thinking::Effort(e) ==> thinking_field(t, ThinkingDialect::Reasoning).1
            == Tree::Object(seq![("effort"@, Tree::Text(effort_word(e)))]),
{
}

/// The bytes of a list of pieces, one behind the other.
pub open spec fn flat(ps: Seq<Seq<u8>>) -> Seq<u8>
    decreases ps.len(),
{
    if ps.len() == 0 {
        seq![]
    } else {
        ps[0] + flat(ps.drop_first())
    }
}

/// No byte of a stream is lost: the whole lines, each of which ends at its only line end,
/// and what is left over, which holds none, are the bytes that came.
pub proof fn no_byte_of_a_stream_is_lost(b: Seq<u8>)
    ensures
        flat(whole_lines(b).0) + whole_lines(b).1 == b,
        !whole_lines(b).1.contains(10u8),
        forall|i: int|
            0 <= i < whole_lines(b).0.len() ==> (#[trigger] whole_lines(b).0[i]).len() > 0
                && whole_lines(b).0[i].last() == 10u8 && !whole_lines(b).0[i].drop_last().contains(
                10u8,
            ),
    decreases b.len(),
{
    if b.contains(10u8) {
        let i = b.index_of_first(10u8)->0;
        b.index_of_first_ensures(10u8);
        let r = b.skip(i + 1);
        no_byte_of_a_stream_is_lost(r);
        let (rest, tail) = whole_lines(r);
        let all = whole_lines(b).0;
        assert(all =~= seq![b.take(i + 1)] + rest);
        assert(all.drop_first() =~= rest);
        assert(flat(all) == b.take(i + 1) + flat(rest));
        assert(flat(all) + tail =~= b.take(i + 1) + (flat(rest) + tail));
        assert(b.take(i + 1) + r =~= b);
        assert forall|k: int| 0 <= k < all.len() implies (#[trigger] all[k]).len() > 0
            && all[k].last() == 10u8 && !all[k].drop_last().contains(10u8) by {
            if k > 0 {
                assert(all[k] == rest[k - 1]);
            } else {
                let first = b.take(i + 1).drop_last();
                if first.contains(10u8) {
                    let j = choose|j: int| 0 <= j < first.len() && first[j] == 10u8;
                    assert(b[j] == 10u8);
                }
            }
        }
    } else {
        assert(flat(Seq::<Seq<u8>>::empty()) + b =~= b);
    }
}

/// A text that holds no fragment of a call's wrapper is kept as it is.
pub proof fn a_clean_text_is_kept(s: Seq<char>)
    requires
        !crate::text::contains(s, "</tool_call>"@),
        !crate::text::contains(s, "<tool_call>"@),
        !crate::text::contains(s, "</tool_call"@),
        !crate::text::contains(s, "<tool_call"@),
        !crate::text::contains(s, "ool_call>"@),
    ensures
        without_noise(s) == s,
{
    reveal_strlit("</tool_call>");
    reveal_strlit("<tool_call>");
    reveal_strlit("</tool_call");
    reveal_strlit("<tool_call");
    reveal_strlit("ool_call>");
    crate::wording::replacing_touches_the_occurrences_alone(s, "</tool_call>"@, ""@);
    crate::wording::replacing_touches_the_occurrences_alone(s, "<tool_call>"@, ""@);
    crate::wording::replacing_touches_the_occurrences_alone(s, "</tool_call"@, ""@);
    crate::wording::replacing_touches_the_occurrences_alone(s, "<tool_call"@, ""@);
    crate::wording::replacing_touches_the_occurrences_alone(s, "ool_call>"@, ""@);
}

} // verus!
