//! Reading a tool call the model wrote as text.
//!
//! Small models drop out of structured tool calling under load and write the call
//! into their prose, most often into their reasoning. Two shapes are understood:
//! `<function=NAME>…</function>` and a JSON object that names a tool, fenced or
//! alone in its field. Anything else stays text, and nothing is read out of the
//! text of a reply that has structured calls.
use vstd::prelude::*;
use vstd::string::*;

use crate::json::{
    field, fields, get_str, group_json, json_read, json_written, member, number_read, opt_tree, put,
    put_in, str_arg, text_of, Json, Tree,
};
use crate::list::{group_lists, join, views};
use crate::llm::{calls_view, Call, Completed, Completion, ToolCall, ToolDef};
use crate::text::{
    after_prefix, ascii_lowered, begins, chars_of, contains, dec, decimal, ends, ends_with, find,
    find_from, has_text, index_from, index_where, is_char, joined, lemma_find_from, lower_ascii,
    opt_view, position_of, same, starts_with, string_of, strip_prefix, trim, trim_set, trimmed,
    trimmed_set,
};

verus! {

broadcast use {group_lists, group_json};

/// What is known of an advertised tool.
pub struct Tool {
    pub name: Seq<char>,
    pub parameters: Tree,
}

/// What is known of the advertised tools.
pub open spec fn tools_view(tools: Seq<ToolDef>) -> Seq<Tool> {
    Seq::new(tools.len(), |i: int| Tool { name: tools[i].name@, parameters: tools[i].parameters@ })
}

/// The first tool of that name.
pub open spec fn tool_named(tools: Seq<Tool>, name: Seq<char>) -> Option<Tool>
    decreases tools.len(),
{
    if tools.len() == 0 {
        None
    } else if tools[0].name == name {
        Some(tools[0])
    } else {
        tool_named(tools.drop_first(), name)
    }
}

fn find_tool(tools: &[ToolDef], name: &str) -> (r: Option<usize>)
    ensures
        match r {
            Some(i) => i < tools@.len() && tool_named(tools_view(tools@), name@) == Some(
                tools_view(tools@)[i as int],
            ),
            None => tool_named(tools_view(tools@), name@) is None,
        },
{
    let ghost all = tools_view(tools@);
    let mut i: usize = 0;
    assert(all.skip(0) =~= all);
    while i < tools.len()
        invariant
            i <= tools@.len(),
            all == tools_view(tools@),
            tool_named(all.skip(i as int), name@) == tool_named(all, name@),
        decreases tools.len() - i,
    {
        assert(all.skip(i as int).drop_first() =~= all.skip(i + 1));
        if same(tools[i].name.as_str(), name) {
            return Some(i);
        }
        i = i + 1;
    }
    assert(all.skip(i as int).len() == 0);
    None
}

// ---- values -----------------------------------------------------------------

/// `s` without one line end at its start.
pub open spec fn without_first_newline(s: Seq<char>) -> Seq<char> {
    if starts_with(s, "\r\n"@) {
        s.skip(2)
    } else if starts_with(s, "\n"@) {
        s.skip(1)
    } else {
        s
    }
}

/// `s` without one line end at its end.
pub open spec fn without_last_newline(s: Seq<char>) -> Seq<char> {
    if ends_with(s, "\r\n"@) {
        s.take(s.len() - 2)
    } else if ends_with(s, "\n"@) {
        s.take(s.len() - 1)
    } else {
        s
    }
}

/// `s` without the one line end that the convention puts behind the open tag and
/// before the close tag, and no more.
pub fn trim_one_newline(s: &str) -> (r: String)
    ensures
        r@ == without_last_newline(without_first_newline(s@)),
{
    proof {
        reveal_strlit("\r\n");
        reveal_strlit("\n");
    }
    let v = chars_of(s);
    let n = v.len();
    let from: usize = if begins(s, "\r\n") {
        2
    } else if begins(s, "\n") {
        1
    } else {
        0
    };
    let t = string_of(&v, from, n);
    assert(t@ =~= without_first_newline(s@));
    let to: usize = if ends(t.as_str(), "\r\n") {
        n - 2
    } else if ends(t.as_str(), "\n") {
        n - 1
    } else {
        n
    };
    let r = string_of(&v, from, to);
    assert(r@ =~= without_last_newline(t@));
    r
}

/// The type that a tool's schema gives a parameter, if it does.
pub open spec fn parameter_type(parameters: Tree, key: Seq<char>) -> Option<Seq<char>> {
    match member(parameters, "properties"@) {
        Some(p) => match member(p, key) {
            Some(s) => str_arg(s, "type"@),
            None => None,
        },
        None => None,
    }
}

/// A parameter's value: of the type that the schema gives it, where the text reads
/// as one, else the text itself.
pub open spec fn coerced(raw: Seq<char>, key: Seq<char>, parameters: Tree) -> Tree {
    let text = trim(raw);
    let ty = parameter_type(parameters, key);
    if ty == Some("integer"@) || ty == Some("number"@) {
        match number_read(text) {
            Some(n) => Tree::Number(n),
            None => Tree::Text(raw),
        }
    } else if ty == Some("boolean"@) {
        if text == "true"@ {
            Tree::Bool(true)
        } else if text == "false"@ {
            Tree::Bool(false)
        } else {
            Tree::Text(raw)
        }
    } else if ty == Some("array"@) || ty == Some("object"@) {
        match json_read(text) {
            Ok(t) => t,
            Err(_) => Tree::Text(raw),
        }
    } else {
        Tree::Text(raw)
    }
}

fn coerce(raw: &str, key: &str, parameters: &Json) -> (r: Json)
    ensures
        r@ == coerced(raw@, key@, parameters@),
{
    let ty: Option<&str> = match parameters.get("properties") {
        Some(p) => match p.get(key) {
            Some(s) => get_str(s, "type"),
            None => None,
        },
        None => None,
    };
    let text = trimmed(raw);
    if let Some(ty) = ty {
        if same(ty, "integer") || same(ty, "number") {
            if let Some(n) = Json::parse_number(text.as_str()) {
                return Json::Number(n);
            }
        } else if same(ty, "boolean") {
            if same(text.as_str(), "true") {
                return Json::Bool(true);
            }
            if same(text.as_str(), "false") {
                return Json::Bool(false);
            }
        } else if same(ty, "array") || same(ty, "object") {
            if let Ok(j) = Json::parse(text.as_str()) {
                return j;
            }
        }
    }
    Json::text(raw)
}

// ---- the tagged shape -------------------------------------------------------

/// The parameters in `body` from `cur` on, put to those in `args`. A missing tag
/// means the block was cut off.
pub open spec fn parameters_from(
    body: Seq<char>,
    cur: int,
    args: Seq<(Seq<char>, Tree)>,
    schema: Tree,
) -> Option<Seq<(Seq<char>, Tree)>>
    decreases body.len() - cur,
    via parameters_shrink
{
    match find_from(body, "<parameter="@, cur) {
        None => Some(args),
        Some(p) => {
            let key_start = p + "<parameter="@.len();
            let g = index_where(body.skip(key_start), is_char('>'));
            if key_start + g >= body.len() {
                None
            } else {
                let key = trim_set(trim(body.subrange(key_start, key_start + g)), "\""@);
                let from = key_start + g + 1;
                match find_from(body, "</parameter>"@, from) {
                    None => None,
                    Some(e) => if cur < 0 {
                        None
                    } else {
                        let raw = without_last_newline(
                            without_first_newline(body.subrange(from, e)),
                        );
                        parameters_from(
                            body,
                            e + "</parameter>"@.len(),
                            put(args, key, coerced(raw, key, schema)),
                            schema,
                        )
                    },
                }
            }
        },
    }
}

#[via_fn]
proof fn parameters_shrink(
    body: Seq<char>,
    cur: int,
    args: Seq<(Seq<char>, Tree)>,
    schema: Tree,
) {
    if cur >= 0 {
        lemma_find_from(body, "<parameter="@, cur);
        if let Some(p) = find_from(body, "<parameter="@, cur) {
            let key_start = p + "<parameter="@.len();
            let g = index_where(body.skip(key_start), is_char('>'));
            lemma_find_from(body, "</parameter>"@, key_start + g + 1);
        }
    }
}

/// The call that `<function=NAME>…</function>` at the head of `s` makes, and how
/// many characters it takes. The name has to be an advertised tool's, and the
/// block may not open another one.
pub open spec fn tagged_call(s: Seq<char>, tools: Seq<Tool>) -> Option<(nat, Call)> {
    match strip_prefix(s, "<function="@) {
        None => None,
        Some(after) => {
            let gt = index_where(after, is_char('>')) as int;
            if gt >= after.len() {
                None
            } else {
                let name = trim_set(trim(after.take(gt)), "\""@);
                match (tool_named(tools, name), find(after, "</function>"@)) {
                    (Some(def), Some(close)) => if close < gt {
                        None
                    } else {
                        let body = after.subrange(gt + 1, close);
                        if contains(body, "<function="@) {
                            None
                        } else {
                            match parameters_from(body, 0, seq![], def.parameters) {
                                Some(args) => Some(
                                    (
                                        ("<function="@.len() + close + "</function>"@.len()) as nat,
                                        Call {
                                            id: seq![],
                                            name,
                                            arguments: json_written(Tree::Object(args)),
                                        },
                                    ),
                                ),
                                None => None,
                            }
                        }
                    },
                    _ => None,
                }
            }
        },
    }
}

fn parse_parameters(body: &str, schema: &Json) -> (r: Option<Vec<(String, Json)>>)
    ensures
        match r {
            Some(a) => parameters_from(body@, 0, seq![], schema@) == Some(fields(a@)),
            None => parameters_from(body@, 0, seq![], schema@) is None,
        },
{
    let v = chars_of(body);
    let n = v.len();
    let open = chars_of("<parameter=");
    let close = chars_of("</parameter>");
    let mut args: Vec<(String, Json)> = Vec::new();
    let mut cur: usize = 0;
    assert(fields(args@) =~= seq![]);
    proof {
        reveal_strlit("</parameter>");
    }
    loop
        invariant
            cur <= n == v@.len(),
            v@ == body@,
            open@ == "<parameter="@,
            close@ == "</parameter>"@,
            close@.len() > 0,
            parameters_from(body@, cur as int, fields(args@), schema@) == parameters_from(
                body@,
                0,
                seq![],
                schema@,
            ),
        decreases n - cur,
    {
        let p = match index_from(&v, &open, cur) {
            Some(p) => p,
            None => {
                return Some(args);
            },
        };
        let key_start: usize = p + open.len();
        let gt = position_of(&v, key_start, n, '>');
        assert(v@.subrange(key_start as int, n as int) =~= body@.skip(key_start as int));
        if gt >= n {
            return None;
        }
        let key = string_of(&v, key_start, gt);
        let key = trimmed(key.as_str());
        let key = trimmed_set(key.as_str(), "\"");
        let from: usize = gt + 1;
        let end = match index_from(&v, &close, from) {
            Some(e) => e,
            None => {
                return None;
            },
        };
        let raw = string_of(&v, from, end);
        let raw = trim_one_newline(raw.as_str());
        let value = coerce(raw.as_str(), key.as_str(), schema);
        put_in(&mut args, key.as_str(), value);
        cur = end + close.len();
    }
}

/// Parse `<function=NAME>…</function>` at the head of `s`.
fn parse_xml(s: &str, tools: &[ToolDef]) -> (r: Option<(usize, ToolCall)>)
    ensures
        match r {
            Some(p) => tagged_call(s@, tools_view(tools@)) == Some((p.0 as nat, p.1@)) && p.0
                <= s@.len(),
            None => tagged_call(s@, tools_view(tools@)) is None,
        },
{
    let after = match after_prefix(s, "<function=") {
        Some(a) => a,
        None => {
            return None;
        },
    };
    let head = "<function=".unicode_len();
    let v = chars_of(after.as_str());
    let n = v.len();
    let whole = s.unicode_len();
    assert(whole == head + n);
    let gt = position_of(&v, 0, n, '>');
    assert(v@.subrange(0, n as int) =~= after@);
    if gt >= n {
        return None;
    }
    let name = string_of(&v, 0, gt);
    assert(name@ =~= after@.take(gt as int));
    let name = trimmed(name.as_str());
    let name = trimmed_set(name.as_str(), "\"");
    let t = match find_tool(tools, name.as_str()) {
        Some(t) => t,
        None => {
            return None;
        },
    };
    let tag = chars_of("</function>");
    let close = match index_from(&v, &tag, 0) {
        Some(c) => c,
        None => {
            return None;
        },
    };
    if close < gt {
        return None;
    }
    proof {
        reveal_strlit("</function>");
        assert(v@.subrange(close as int, close + tag@.len())[0] == '<');
        assert(close != gt);
    }
    let body = string_of(&v, gt + 1, close);
    if has_text(body.as_str(), "<function=") {
        return None;
    }
    let args = match parse_parameters(body.as_str(), &tools[t].parameters) {
        Some(a) => a,
        None => {
            return None;
        },
    };
    let arguments = Json::Object(args).written();
    let len: usize = head + (close + tag.len());
    let call = ToolCall { id: String::new(), name, arguments };
    assert(call.id@ =~= seq![]);
    Some((len, call))
}

// ---- the object shape -------------------------------------------------------

/// Is this one of the keys that a call has?
pub open spec fn call_key(k: Seq<char>) -> bool {
    k == "name"@ || k == "arguments"@ || k == "parameters"@
}

/// What an object that is a call asks for: the tool, and its arguments as given.
/// It names an advertised tool and has no other keys.
pub open spec fn requested(t: Tree, tools: Seq<Tool>) -> Option<(Seq<char>, Option<Tree>)> {
    match t {
        Tree::Object(entries) => if forall|i: int|
            0 <= i < entries.len() ==> call_key((#[trigger] entries[i]).0) {
            match text_of(field(entries, "name"@)) {
                Some(name) => if tool_named(tools, name) is Some {
                    Some(
                        (
                            name,
                            match field(entries, "arguments"@) {
                                Some(a) => Some(a),
                                None => field(entries, "parameters"@),
                            },
                        ),
                    )
                } else {
                    None
                },
                None => None,
            }
        } else {
            None
        },
        _ => None,
    }
}

/// The arguments of a call as an object: none, an object, or the text of one.
pub open spec fn arguments_object(raw: Option<Tree>) -> Option<Tree> {
    match raw {
        None => Some(Tree::Object(seq![])),
        Some(Tree::Object(e)) => Some(Tree::Object(e)),
        Some(Tree::Text(t)) => match json_read(t) {
            Ok(Tree::Object(e)) => Some(Tree::Object(e)),
            _ => None,
        },
        Some(_) => None,
    }
}

/// The call that a text makes, if it is an object that is one.
pub open spec fn object_call(s: Seq<char>, tools: Seq<Tool>) -> Option<Call> {
    match json_read(s) {
        Ok(t) => match requested(t, tools) {
            Some((name, raw)) => match arguments_object(raw) {
                Some(args) => Some(Call { id: seq![], name, arguments: json_written(args) }),
                None => None,
            },
            None => None,
        },
        Err(_) => None,
    }
}

/// What an object that is a call asks for.
pub fn requested_call<'a>(j: &'a Json, tools: &[ToolDef]) -> (r: Option<(&'a str, Option<&'a Json>)>)
    ensures
        match r {
            Some(p) => requested(j@, tools_view(tools@)) == Some((p.0@, opt_tree(p.1))),
            None => requested(j@, tools_view(tools@)) is None,
        },
{
    let entries = match j.as_object() {
        Some(e) => e,
        None => {
            return None;
        },
    };
    let ghost all = fields(entries@);
    let mut i: usize = 0;
    while i < entries.len()
        invariant
            i <= entries@.len(),
            all == fields(entries@),
            j@ == Tree::Object(all),
            forall|k: int| 0 <= k < i ==> call_key((#[trigger] all[k]).0),
        decreases entries.len() - i,
    {
        let k = entries[i].0.as_str();
        if !(same(k, "name") || same(k, "arguments") || same(k, "parameters")) {
            assert(!call_key(all[i as int].0));
            return None;
        }
        i = i + 1;
    }
    let name = match get_str(j, "name") {
        Some(n) => n,
        None => {
            return None;
        },
    };
    if find_tool(tools, name).is_none() {
        return None;
    }
    let raw = match j.get("arguments") {
        Some(a) => Some(a),
        None => j.get("parameters"),
    };
    Some((name, raw))
}

/// A JSON object that is a tool call: `{"name": "bash", "arguments": {…}}`.
fn parse_call_object(s: &str, tools: &[ToolDef]) -> (r: Option<ToolCall>)
    ensures
        match r {
            Some(c) => object_call(s@, tools_view(tools@)) == Some(c@),
            None => object_call(s@, tools_view(tools@)) is None,
        },
{
    let j = match Json::parse(s) {
        Ok(j) => j,
        Err(_) => {
            return None;
        },
    };
    let (name, raw) = match requested_call(&j, tools) {
        Some(p) => p,
        None => {
            return None;
        },
    };
    let arguments = match raw {
        None => {
            let none: Vec<(String, Json)> = Vec::new();
            assert(fields(none@) =~= seq![]);
            Json::Object(none).written()
        },
        Some(a) => match a {
            Json::Object(_) => a.written(),
            Json::Text(t) => match Json::parse(t.as_str()) {
                Ok(inner) => match &inner {
                    Json::Object(_) => inner.written(),
                    _ => {
                        return None;
                    },
                },
                Err(_) => {
                    return None;
                },
            },
            _ => {
                return None;
            },
        },
    };
    let call = ToolCall { id: String::new(), name: name.to_owned(), arguments };
    assert(call.id@ =~= seq![]);
    Some(call)
}

/// The call that a fenced object at the head of `s` makes, and how many characters
/// the fence takes. The fence is untagged or tagged as JSON.
pub open spec fn fenced_call(s: Seq<char>, tools: Seq<Tool>) -> Option<(nat, Call)> {
    match strip_prefix(s, "```"@) {
        None => None,
        Some(after) => {
            let nl = index_where(after, is_char('\n')) as int;
            if nl >= after.len() {
                None
            } else {
                let tag = trim(after.take(nl));
                if tag.len() > 0 && ascii_lowered(tag) != "json"@ {
                    None
                } else {
                    match find_from(after, "```"@, nl + 1) {
                        None => None,
                        Some(close) => match object_call(
                            trim(after.subrange(nl + 1, close)),
                            tools,
                        ) {
                            Some(call) => Some(
                                (("```"@.len() + close + "```"@.len()) as nat, call),
                            ),
                            None => None,
                        },
                    }
                }
            }
        },
    }
}

/// Parse a fenced object at the head of `s`.
fn parse_fenced(s: &str, tools: &[ToolDef]) -> (r: Option<(usize, ToolCall)>)
    ensures
        match r {
            Some(p) => fenced_call(s@, tools_view(tools@)) == Some((p.0 as nat, p.1@)) && p.0
                <= s@.len(),
            None => fenced_call(s@, tools_view(tools@)) is None,
        },
{
    let after = match after_prefix(s, "```") {
        Some(a) => a,
        None => {
            return None;
        },
    };
    let fence = chars_of("```");
    let head = fence.len();
    let v = chars_of(after.as_str());
    let n = v.len();
    let whole = s.unicode_len();
    assert(whole == head + n);
    let nl = position_of(&v, 0, n, '\n');
    assert(v@.subrange(0, n as int) =~= after@);
    if nl >= n {
        return None;
    }
    let tag = string_of(&v, 0, nl);
    assert(tag@ =~= after@.take(nl as int));
    let tag = trimmed(tag.as_str());
    if tag.as_str().unicode_len() > 0 {
        let low = lower_ascii(tag.as_str());
        if !same(low.as_str(), "json") {
            return None;
        }
    }
    let close = match index_from(&v, &fence, nl + 1) {
        Some(c) => c,
        None => {
            return None;
        },
    };
    let body = string_of(&v, nl + 1, close);
    let body = trimmed(body.as_str());
    match parse_call_object(body.as_str(), tools) {
        Some(call) => Some((head + (close + head), call)),
        None => None,
    }
}

// ---- a whole field ----------------------------------------------------------

/// Where the next opener stands from `cursor` on, and whether it is the tagged one.
pub open spec fn next_opener(text: Seq<char>, cursor: int) -> Option<(int, bool)> {
    match (find_from(text, "<function="@, cursor), find_from(text, "```"@, cursor)) {
        (None, None) => None,
        (Some(a), None) => Some((a, true)),
        (None, Some(b)) => Some((b, false)),
        (Some(a), Some(b)) => if a <= b {
            Some((a, true))
        } else {
            Some((b, false))
        },
    }
}

/// The call that the opener at the head of `s` makes, if any.
pub open spec fn call_at(s: Seq<char>, tagged: bool, tools: Seq<Tool>) -> Option<(nat, Call)> {
    if tagged {
        tagged_call(s, tools)
    } else {
        fenced_call(s, tools)
    }
}

/// How long an opener is.
pub open spec fn opener_len(tagged: bool) -> nat {
    if tagged {
        "<function="@.len()
    } else {
        "```"@.len()
    }
}

/// The calls in `text` from `cursor` on, and the text without them. What is no
/// call is kept, opener and all.
pub open spec fn scanned(text: Seq<char>, cursor: int, tools: Seq<Tool>) -> (Seq<Call>, Seq<char>)
    decreases text.len() - cursor,
    via scan_shrinks
{
    if cursor < 0 {
        (seq![], text)
    } else {
        match next_opener(text, cursor) {
            None => (seq![], text.skip(cursor)),
            Some((start, tagged)) => match call_at(text.skip(start), tagged, tools) {
                Some((len, call)) => {
                    let (calls, kept) = scanned(text, start + len, tools);
                    (seq![call] + calls, text.subrange(cursor, start) + kept)
                },
                None => {
                    let next = start + opener_len(tagged);
                    let (calls, kept) = scanned(text, next, tools);
                    (calls, text.subrange(cursor, next) + kept)
                },
            },
        }
    }
}

proof fn lemma_opener(text: Seq<char>, cursor: int)
    requires
        0 <= cursor,
    ensures
        next_opener(text, cursor) matches Some((start, tagged)) ==> cursor <= start && start
            + opener_len(tagged) <= text.len() && opener_len(tagged) > 0,
{
    reveal_strlit("<function=");
    reveal_strlit("```");
    lemma_find_from(text, "<function="@, cursor);
    lemma_find_from(text, "```"@, cursor);
}

proof fn lemma_call_len(s: Seq<char>, tagged: bool, tools: Seq<Tool>)
    ensures
        call_at(s, tagged, tools) matches Some((len, call)) ==> 0 < len <= s.len(),
{
    reveal_strlit("<function=");
    reveal_strlit("```");
    if tagged {
        if let Some(after) = strip_prefix(s, "<function="@) {
            lemma_find_from(after, "</function>"@, 0);
        }
    } else {
        if let Some(after) = strip_prefix(s, "```"@) {
            let nl = index_where(after, is_char('\n')) as int;
            lemma_find_from(after, "```"@, nl + 1);
        }
    }
}

#[via_fn]
proof fn scan_shrinks(text: Seq<char>, cursor: int, tools: Seq<Tool>) {
    if cursor >= 0 {
        lemma_opener(text, cursor);
        if let Some((start, tagged)) = next_opener(text, cursor) {
            lemma_call_len(text.skip(start), tagged, tools);
        }
    }
}

/// The calls in a field, and its text without them. A bare object counts only
/// where it is the entire field.
pub open spec fn extracted(text: Seq<char>, tools: Seq<Tool>) -> (Seq<Call>, Seq<char>) {
    let (calls, kept) = scanned(text, 0, tools);
    if calls.len() == 0 {
        match object_call(trim(text), tools) {
            Some(call) => (seq![call], seq![]),
            None => (calls, kept),
        }
    } else {
        (calls, kept)
    }
}

proof fn lemma_calls_push(v: Seq<ToolCall>, c: ToolCall)
    ensures
        calls_view(v.push(c)) == calls_view(v).push(c@),
{
    assert(calls_view(v.push(c)) =~= calls_view(v).push(c@));
}

/// Pull every tool call out of one field, returning the calls and the text with
/// those blocks removed.
fn extract(text: &str, tools: &[ToolDef]) -> (r: (Vec<ToolCall>, String))
    ensures
        (calls_view(r.0@), r.1@) == extracted(text@, tools_view(tools@)),
{
    let v = chars_of(text);
    let n = v.len();
    let tag = chars_of("<function=");
    let fence = chars_of("```");
    let mut calls: Vec<ToolCall> = Vec::new();
    let mut kept = String::new();
    let mut cursor: usize = 0;
    let ghost ts = tools_view(tools@);
    let ghost all = scanned(text@, 0, ts);
    assert(calls_view(calls@) + all.0 =~= all.0);
    assert(kept@ + all.1 =~= all.1);
    loop
        invariant
            cursor <= n == v@.len(),
            v@ == text@,
            tag@ == "<function="@,
            fence@ == "```"@,
            ts == tools_view(tools@),
            calls_view(calls@) + scanned(text@, cursor as int, ts).0 == all.0,
            kept@ + scanned(text@, cursor as int, ts).1 == all.1,
        ensures
            calls_view(calls@) == all.0,
            kept@ + text@.skip(cursor as int) == all.1,
            cursor <= n,
        decreases n - cursor,
    {
        let ghost rest = scanned(text@, cursor as int, ts);
        let ghost c0 = calls_view(calls@);
        let ghost k0 = kept@;
        let x = index_from(&v, &tag, cursor);
        let f = index_from(&v, &fence, cursor);
        proof {
            lemma_opener(text@, cursor as int);
        }
        let (start, tagged): (usize, bool) = match (x, f) {
            (None, None) => {
                assert(calls_view(calls@) =~= all.0);
                break ;
            },
            (Some(a), None) => (a, true),
            (None, Some(b)) => (b, false),
            (Some(a), Some(b)) => if a <= b {
                (a, true)
            } else {
                (b, false)
            },
        };
        let s = string_of(&v, start, n);
        assert(s@ =~= text@.skip(start as int));
        proof {
            lemma_call_len(s@, tagged, ts);
        }
        let parsed = if tagged {
            parse_xml(s.as_str(), tools)
        } else {
            parse_fenced(s.as_str(), tools)
        };
        match parsed {
            Some((len, call)) => {
                let before = string_of(&v, cursor, start);
                kept.append(before.as_str());
                proof {
                    lemma_calls_push(calls@, call);
                }
                calls.push(call);
                let ghost next = scanned(text@, start + len, ts);
                assert(calls_view(calls@) + next.0 =~= c0 + rest.0);
                assert(kept@ + next.1 =~= k0 + rest.1);
                cursor = start + len;
            },
            None => {
                let step: usize = if tagged {
                    tag.len()
                } else {
                    fence.len()
                };
                let to: usize = start + step;
                let before = string_of(&v, cursor, to);
                kept.append(before.as_str());
                let ghost next = scanned(text@, to as int, ts);
                assert(kept@ + next.1 =~= k0 + rest.1);
                cursor = to;
            },
        }
    }
    let tail = string_of(&v, cursor, n);
    assert(tail@ =~= text@.skip(cursor as int));
    kept.append(tail.as_str());
    if calls.len() == 0 {
        let whole = trimmed(text);
        if let Some(call) = parse_call_object(whole.as_str(), tools) {
            let mut one: Vec<ToolCall> = Vec::new();
            proof {
                lemma_calls_push(one@, call);
            }
            one.push(call);
            let none = String::new();
            assert(calls_view(one@) =~= seq![call@]);
            assert(none@ =~= seq![]);
            return (one, none);
        }
    }
    (calls, kept)
}

// ---- a whole reply ----------------------------------------------------------

/// The calls with their ids: each gets its own.
pub open spec fn numbered(calls: Seq<Call>) -> Seq<Call> {
    Seq::new(calls.len(), |i: int| Call { id: "text_call_"@ + dec(i as nat), ..calls[i] })
}

/// The names of the calls.
pub open spec fn names_of(calls: Seq<Call>) -> Seq<Seq<char>> {
    Seq::new(calls.len(), |i: int| calls[i].name)
}

/// What the calls are called in the note.
pub open spec fn what_was_written(calls: Seq<Call>) -> Seq<char> {
    if calls.len() == 1 {
        "its `"@ + calls[0].name + "` call"@
    } else {
        dec(calls.len()) + " tool calls (`"@ + join(names_of(calls), "`, `"@) + "`)"@
    }
}

/// The note that says a call was read out of a field.
pub open spec fn rescue_note(calls: Seq<Call>, place: Seq<char>) -> Seq<char> {
    "the model wrote "@ + what_was_written(calls) + " as text in `"@ + place
        + "` instead of using the API's tool-call field; worksmith read it and ran it anyway. Said once per session — a model doing this is drifting out of structured tool calling, which is worth knowing when choosing one."@
}

/// What is left of a field once its calls are taken out: nothing, where only white
/// space is.
pub open spec fn leftover(kept: Seq<char>) -> Option<Seq<char>> {
    if trim(kept).len() == 0 {
        None
    } else {
        Some(kept)
    }
}

/// The calls in a field that may not be there.
pub open spec fn calls_in(text: Option<Seq<char>>, tools: Seq<Tool>) -> Seq<Call> {
    match text {
        Some(t) => extracted(t, tools).0,
        None => seq![],
    }
}

/// A reply once the calls in its text are promoted, and the note that says so. The
/// content comes first, then the reasoning; a reply with structured calls, or
/// without any call in its text, stays as it is.
pub open spec fn rescued(c: Completed, tools: Seq<Tool>) -> (Completed, Option<Seq<char>>) {
    if c.tool_calls.len() > 0 {
        (c, None)
    } else if calls_in(c.content, tools).len() > 0 {
        let (calls, kept) = extracted(c.content->0, tools);
        (
            Completed { tool_calls: numbered(calls), content: leftover(kept), ..c },
            Some(rescue_note(calls, "content"@)),
        )
    } else if calls_in(c.reasoning, tools).len() > 0 {
        let (calls, kept) = extracted(c.reasoning->0, tools);
        (
            Completed { tool_calls: numbered(calls), reasoning: leftover(kept), ..c },
            Some(rescue_note(calls, "reasoning"@)),
        )
    } else {
        (c, None)
    }
}

fn promote(calls: Vec<ToolCall>, place: &str) -> (r: (Vec<ToolCall>, String))
    ensures
        calls_view(r.0@) == numbered(calls_view(calls@)),
        r.1@ == rescue_note(calls_view(calls@), place@),
{
    let ghost all = calls_view(calls@);
    let mut out: Vec<ToolCall> = Vec::new();
    let mut names: Vec<String> = Vec::new();
    let mut i: usize = 0;
    while i < calls.len()
        invariant
            i <= calls@.len(),
            all == calls_view(calls@),
            calls_view(out@) == numbered(all).take(i as int),
            views(names@) == names_of(all).take(i as int),
        decreases calls.len() - i,
    {
        let mut c = calls[i].copy();
        let mut id = "text_call_".to_owned();
        let n = decimal(i as u128);
        id.append(n.as_str());
        c.id = id;
        names.push(c.name.clone());
        proof {
            lemma_calls_push(out@, c);
        }
        out.push(c);
        i = i + 1;
        assert(calls_view(out@) =~= numbered(all).take(i as int));
        assert(views(names@) =~= names_of(all).take(i as int));
    }
    assert(calls_view(out@) =~= numbered(all));
    assert(views(names@) =~= names_of(all));
    let what = if names.len() == 1 {
        let mut s = "its `".to_owned();
        assert(views(names@)[0] == names@[0]@);
        s.append(names[0].as_str());
        s.append("` call");
        s
    } else {
        let mut s = decimal(names.len() as u128);
        s.append(" tool calls (`");
        let list = joined(&names, "`, `");
        s.append(list.as_str());
        s.append("`)");
        s
    };
    let mut note = "the model wrote ".to_owned();
    note.append(what.as_str());
    note.append(" as text in `");
    note.append(place);
    note.append(
        "` instead of using the API's tool-call field; worksmith read it and ran it anyway. Said once per session — a model doing this is drifting out of structured tool calling, which is worth knowing when choosing one.",
    );
    (out, note)
}

fn left(kept: String) -> (r: Option<String>)
    ensures
        opt_view(r) == leftover(kept@),
{
    if trimmed(kept.as_str()).as_str().unicode_len() == 0 {
        None
    } else {
        Some(kept)
    }
}

/// Promote a tool call the model wrote as text, if there is one to promote.
///
/// Returns a note to show the user when something was promoted, and `None` when
/// the completion was left exactly as it arrived.
pub fn rescue_text_tool_calls(completion: &mut Completion, tools: &[ToolDef]) -> (r: Option<String>)
    ensures
        (final(completion)@, opt_view(r)) == rescued(old(completion)@, tools_view(tools@)),
{
    if completion.tool_calls.len() > 0 {
        return None;
    }
    if let Some(text) = &completion.content {
        let (calls, kept) = extract(text.as_str(), tools);
        if calls.len() > 0 {
            let (calls, note) = promote(calls, "content");
            completion.tool_calls = calls;
            completion.content = left(kept);
            return Some(note);
        }
    }
    if let Some(text) = &completion.reasoning {
        let (calls, kept) = extract(text.as_str(), tools);
        if calls.len() > 0 {
            let (calls, note) = promote(calls, "reasoning");
            completion.tool_calls = calls;
            completion.reasoning = left(kept);
            return Some(note);
        }
    }
    None
}

// ---- laws -------------------------------------------------------------------

/// A reply with structured calls is never reinterpreted, and one in whose text no
/// call is found is not touched.
pub proof fn a_reply_is_touched_only_to_promote(c: Completed, tools: Seq<Tool>)
    ensures
        c.tool_calls.len() > 0 ==> rescued(c, tools) == (c, None::<Seq<char>>),
        rescued(c, tools).1 is None ==> rescued(c, tools).0 == c,
        rescued(c, tools).1 is Some ==> rescued(c, tools).0.tool_calls.len() > 0,
{
}

proof fn lemma_scanned_advertised(text: Seq<char>, cursor: int, tools: Seq<Tool>)
    ensures
        forall|i: int|
            0 <= i < scanned(text, cursor, tools).0.len() ==> tool_named(
                tools,
                (#[trigger] scanned(text, cursor, tools).0[i]).name,
            ) is Some,
    decreases text.len() - cursor,
{
    if cursor >= 0 {
        lemma_opener(text, cursor);
        if let Some((start, tagged)) = next_opener(text, cursor) {
            lemma_call_len(text.skip(start), tagged, tools);
            match call_at(text.skip(start), tagged, tools) {
                Some((len, call)) => {
                    lemma_scanned_advertised(text, start + len, tools);
                    let rest = scanned(text, start + len, tools).0;
                    let all = scanned(text, cursor, tools).0;
                    assert forall|i: int| 0 <= i < all.len() implies tool_named(
                        tools,
                        (#[trigger] all[i]).name,
                    ) is Some by {
                        if i > 0 {
                            assert(all[i] == rest[i - 1]);
                        }
                    }
                },
                None => {
                    lemma_scanned_advertised(text, start + opener_len(tagged), tools);
                },
            }
        }
    }
}

/// Every call that is promoted names an advertised tool, and has its own id.
pub proof fn promoted_calls_are_advertised(c: Completed, tools: Seq<Tool>, i: int)
    requires
        c.tool_calls.len() == 0,
        0 <= i < rescued(c, tools).0.tool_calls.len(),
    ensures
        tool_named(tools, rescued(c, tools).0.tool_calls[i].name) is Some,
        rescued(c, tools).0.tool_calls[i].id == "text_call_"@ + dec(i as nat),
{
    if let Some(t) = c.content {
        lemma_scanned_advertised(t, 0, tools);
    }
    if let Some(t) = c.reasoning {
        lemma_scanned_advertised(t, 0, tools);
    }
}

/// A text in which no call is found is left as it is, to the last character.
pub proof fn a_text_without_calls_is_left_alone(text: Seq<char>, cursor: int, tools: Seq<Tool>)
    requires
        0 <= cursor <= text.len(),
        scanned(text, cursor, tools).0.len() == 0,
    ensures
        scanned(text, cursor, tools).1 == text.skip(cursor),
    decreases text.len() - cursor,
{
    if let Some((start, tagged)) = next_opener(text, cursor) {
        lemma_opener_fits(text, cursor);
        match call_at(text.skip(start), tagged, tools) {
            Some((len, call)) => {
                let rest = scanned(text, start + len, tools);
                assert(scanned(text, cursor, tools).0 == seq![call] + rest.0);
            },
            None => {
                let next = start + opener_len(tagged);
                a_text_without_calls_is_left_alone(text, next, tools);
                assert(text.subrange(cursor, next) + text.skip(next) =~= text.skip(cursor));
            },
        }
    }
}

proof fn lemma_opener_fits(text: Seq<char>, cursor: int)
    requires
        0 <= cursor <= text.len(),
    ensures
        next_opener(text, cursor) matches Some((start, tagged)) ==> cursor <= start && start
            + opener_len(tagged) <= text.len() && opener_len(tagged) > 0,
{
    lemma_find_from(text, "<function="@, cursor);
    lemma_find_from(text, "```"@, cursor);
    reveal_strlit("<function=");
    reveal_strlit("```");
}

/// An argument has the type that the tool gives it, where it can be read as that; else it is
/// the text as it was written.
pub proof fn an_argument_has_its_type(raw: Seq<char>, key: Seq<char>, parameters: Tree)
    ensures
        ({
            let ty = parameter_type(parameters, key);
            let v = coerced(raw, key, parameters);
            &&& v == Tree::Text(raw) || ty is Some
            &&& ty == Some("string"@) || ty is None ==> v == Tree::Text(raw)
            &&& ty == Some("integer"@) || ty == Some("number"@) ==> (match number_read(trim(raw)) {
                Some(n) => v == Tree::Number(n),
                None => v == Tree::Text(raw),
            })
            &&& ty == Some("boolean"@) ==> (trim(raw) == "true"@ ==> v == Tree::Bool(true)) && (
            trim(raw) == "false"@ ==> v == Tree::Bool(false)) && (trim(raw) != "true"@ && trim(raw)
                != "false"@ ==> v == Tree::Text(raw))
            &&& ty == Some("array"@) || ty == Some("object"@) ==> (match json_read(trim(raw)) {
                Ok(t) => v == t,
                Err(_) => v == Tree::Text(raw),
            })
        }),
{
    reveal_strlit("string");
    reveal_strlit("integer");
    reveal_strlit("number");
    reveal_strlit("boolean");
    reveal_strlit("array");
    reveal_strlit("object");
    reveal_strlit("true");
    reveal_strlit("false");
    assert("string"@[0] == 's' && "integer"@[0] == 'i' && "number"@[0] == 'n' && "boolean"@[0]
        == 'b' && "array"@[0] == 'a' && "object"@[0] == 'o' && "true"@[0] == 't' && "false"@[0]
        == 'f');
}

/// An object that asks for a tool is a call of that tool with the arguments that it gives,
/// and of no tool that is not offered.
pub proof fn an_object_asks_for_an_offered_tool(t: Tree, tools: Seq<Tool>)
    ensures
        requested(t, tools) matches Some((name, args)) ==> t is Object && text_of(
            field(t->Object_0, "name"@),
        ) == Some(name) && (exists|i: int|
            0 <= i < tools.len() && (#[trigger] tools[i]).name == name) && (field(
            t->Object_0,
            "arguments"@,
        ) is Some ==> args == field(t->Object_0, "arguments"@)) && (field(
            t->Object_0,
            "arguments"@,
        ) is None ==> args == field(t->Object_0, "parameters"@)),
{
    if let Some((name, args)) = requested(t, tools) {
        lemma_offered(tools, name);
    }
}

proof fn lemma_offered(tools: Seq<Tool>, name: Seq<char>)
    ensures
        tool_named(tools, name) is Some <==> exists|i: int|
            0 <= i < tools.len() && (#[trigger] tools[i]).name == name,
        tool_named(tools, name) matches Some(t) ==> t.name == name,
    decreases tools.len(),
{
    if tools.len() > 0 {
        let r = tools.drop_first();
        lemma_offered(r, name);
        if tools[0].name == name {
        } else if tool_named(r, name) is Some {
            let i = choose|i: int| 0 <= i < r.len() && (#[trigger] r[i]).name == name;
            assert(tools[i + 1].name == name);
        } else if exists|i: int| 0 <= i < tools.len() && (#[trigger] tools[i]).name == name {
            let i = choose|i: int| 0 <= i < tools.len() && (#[trigger] tools[i]).name == name;
            assert(r[i - 1].name == name);
        }
    }
}

/// What is promoted keeps its order, its names and its arguments, under ids of its own; the
/// answer is looked at before the reasoning, and what is left of the text stays in its place.
pub proof fn what_is_promoted_is_what_was_written(c: Completed, tools: Seq<Tool>)
    requires
        c.tool_calls.len() == 0,
    ensures
        ({
            let r = rescued(c, tools).0;
            let said = calls_in(c.content, tools);
            let thought = calls_in(c.reasoning, tools);
            let calls = if said.len() > 0 {
                said
            } else {
                thought
            };
            &&& r.tool_calls.len() == calls.len()
            &&& forall|i: int|
                0 <= i < calls.len() ==> (#[trigger] r.tool_calls[i]).name == calls[i].name
                    && r.tool_calls[i].arguments == calls[i].arguments
            &&& said.len() > 0 ==> r.reasoning == c.reasoning
            &&& said.len() == 0 ==> r.content == c.content
            &&& said.len() == 0 && thought.len() == 0 ==> rescued(c, tools) == (
                c,
                None::<Seq<char>>,
            )
            &&& said.len() + thought.len() > 0 ==> rescued(c, tools).1 is Some
            &&& r.usage == c.usage && r.finish_reason == c.finish_reason
        }),
{
}

} // verus!
