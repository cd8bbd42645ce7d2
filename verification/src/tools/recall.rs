//! `memory` and `knowledge`: the model's own access to what is known.
//!
//! "What did we decide?" is a question for memory; "what does the document say?" is one
//! for knowledge.
use vstd::prelude::*;
use vstd::string::*;

use crate::json::{get_str, get_u64, group_json, i64_of, member, str_arg, u64_of, Json, Tree};
use crate::knowledge::{Chunk, IndexStats};
use crate::list::{concat, group_lists};
use crate::memory::{
    between, durable_kind, is_kind, kind_refusal, not_a_kind, scope_named, Hit, MemoryRow, Row, Scope,
};
use crate::text::{dec, dec_int, decimal, decimal_int, same};
use crate::tools::web::{action_of, or_text};
use crate::tools::{fine, missing, missing_argument, wrong, ToolOutput};

verus! {

broadcast use {group_json, group_lists};

/// Durable memory across sessions.
pub struct MemoryTool;

/// Full-text search over the project's own documents and source.
pub struct KnowledgeTool;

/// How many results a search returns by default.
pub const DEFAULT_LIMIT: usize = 5;

/// How many results are asked for: what is said, between one and twenty.
pub open spec fn recall_limit(args: Tree) -> int {
    match u64_of(member(args, "limit"@)) {
        None => DEFAULT_LIMIT as int,
        Some(n) => between(n as int, 1, 20),
    }
}

/// How many results are asked for.
pub fn limit_of(args: &Json) -> (r: usize)
    ensures
        r == recall_limit(args@),
{
    match get_u64(args, "limit") {
        None => DEFAULT_LIMIT,
        Some(n) => if n < 1 {
            1
        } else if n > 20 {
            20
        } else {
            n as usize
        },
    }
}

/// What a call of the memory tool asks for.
#[derive(Debug)]
pub enum MemoryCall {
    /// Nothing that can be done.
    Refused(ToolOutput),
    Search { query: String, limit: usize },
    Remember { scope: Scope, kind: String, subject: String, content: String, importance: i64 },
}

/// What a call says is to be remembered.
pub open spec fn importance_of(args: Tree) -> int {
    match i64_of(member(args, "importance"@)) {
        None => 60,
        Some(n) => between(n as int, 0, 100),
    }
}

/// Where it is to be remembered: in the project, unless it says otherwise.
pub open spec fn scope_of(args: Tree) -> Scope {
    match str_arg(args, "scope"@) {
        None => Scope::Project,
        Some(s) => match scope_named(s) {
            Some(scope) => scope,
            None => Scope::Project,
        },
    }
}

/// What a call of the memory tool asks for.
pub fn memory_call(args: &Json) -> (r: MemoryCall)
    ensures
        ({
            let action = action_of(args@);
            let k = or_text(str_arg(args@, "kind"@), "fact"@);
            let subj = str_arg(args@, "subject"@);
            let cont = str_arg(args@, "content"@);
            if action == "search"@ {
                match str_arg(args@, "query"@) {
                    None => r matches MemoryCall::Refused(o) && o@ == missing("query"@),
                    Some(q) => r matches MemoryCall::Search { query, limit } && query@ == q
                        && limit == recall_limit(args@),
                }
            } else if action == "remember"@ {
                if !durable_kind(k) {
                    r matches MemoryCall::Refused(o) && o@ == wrong(not_a_kind(k))
                } else if subj is None || cont is None {
                    r matches MemoryCall::Refused(o) && o@ == wrong(
                        "remember needs both `subject` and `content`"@,
                    )
                } else {
                    r matches MemoryCall::Remember { scope, kind, subject, content, importance }
                        && scope == scope_of(args@) && kind@ == k && subject@ == subj->0
                        && content@ == cont->0 && importance == importance_of(args@)
                }
            } else {
                r matches MemoryCall::Refused(o) && o@ == wrong(
                    "unknown action `"@ + action + "` (search|remember)"@,
                )
            }
        }),
{
    let action = match get_str(args, "action") {
        Some(a) => a,
        None => "search",
    };
    if same(action, "search") {
        return match get_str(args, "query") {
            None => MemoryCall::Refused(missing_argument("query")),
            Some(q) => MemoryCall::Search { query: q.to_owned(), limit: limit_of(args) },
        };
    }
    if !same(action, "remember") {
        let mut s = "unknown action `".to_owned();
        s.append(action);
        s.append("` (search|remember)");
        return MemoryCall::Refused(ToolOutput::error(s.as_str()));
    }
    let kind = match get_str(args, "kind") {
        Some(k) => k,
        None => "fact",
    };
    if !is_kind(kind) {
        return MemoryCall::Refused(ToolOutput::error(kind_refusal(kind).as_str()));
    }
    let subject = get_str(args, "subject");
    let content = get_str(args, "content");
    match (subject, content) {
        (Some(s), Some(c)) => {
            let scope = match get_str(args, "scope") {
                None => Scope::Project,
                Some(w) => match Scope::parse(w) {
                    Some(scope) => scope,
                    None => Scope::Project,
                },
            };
            let said = match args.get("importance") {
                Some(v) => v.as_i64(),
                None => None,
            };
            let importance: i64 = match said {
                None => 60,
                Some(n) => if n < 0 {
                    0
                } else if n > 100 {
                    100
                } else {
                    n
                },
            };
            MemoryCall::Remember {
                scope,
                kind: kind.to_owned(),
                subject: s.to_owned(),
                content: c.to_owned(),
                importance,
            }
        },
        _ => MemoryCall::Refused(ToolOutput::error("remember needs both `subject` and `content`")),
    }
}

/// How a hit reads.
pub open spec fn hit_line(r: Row) -> Seq<char> {
    "["@ + r.scope + "/"@ + r.kind + "] "@ + r.subject + ": "@ + r.content + "\n"@
}

/// How the hits read.
pub open spec fn hit_lines(hits: Seq<Hit>) -> Seq<Seq<char>> {
    Seq::new(hits.len(), |i: int| hit_line(hits[i].row@))
}

/// The answer to a search of memory.
pub fn show_hits(hits: &Vec<Hit>) -> (r: ToolOutput)
    ensures
        r@ == if hits@.len() == 0 {
            fine("(no memories matched — nothing has been recorded on this)"@)
        } else {
            fine(concat(hit_lines(hits@)))
        },
{
    if hits.len() == 0 {
        return ToolOutput::ok("(no memories matched — nothing has been recorded on this)");
    }
    let ghost all = hit_lines(hits@);
    let mut out = String::new();
    let mut i: usize = 0;
    assert(out@ =~= concat(all.take(0)));
    while i < hits.len()
        invariant
            i <= hits@.len(),
            all == hit_lines(hits@),
            out@ == concat(all.take(i as int)),
        decreases hits.len() - i,
    {
        let row = &hits[i].row;
        let mut line = "[".to_owned();
        line.append(row.scope.as_str());
        line.append("/");
        line.append(row.kind.as_str());
        line.append("] ");
        line.append(row.subject.as_str());
        line.append(": ");
        line.append(row.content.as_str());
        line.append("\n");
        out.append(line.as_str());
        assert(all.take(i + 1) =~= all.take(i as int).push(all[i as int]));
        i = i + 1;
    }
    assert(all.take(i as int) =~= all);
    ToolOutput::ok(out.as_str())
}

/// A memory's label.
pub open spec fn label(r: Row) -> Seq<char> {
    r.id + " ["@ + r.scope + "/"@ + r.kind + "] "@ + r.subject
}

/// The answer to a write: `new` says that it was written, and was not known before.
/// What a worker writes is a proposal.
pub fn show_write(row: &MemoryRow, new: bool, is_worker: bool) -> (r: ToolOutput)
    ensures
        r@ == fine(
            if !new {
                "already known ("@ + row@.id + "): "@ + row@.subject + ": "@ + row@.content
                    + " — nothing written"@
            } else if is_worker {
                "proposed "@ + label(row@) + " — pending approval by the main session"@
            } else {
                "remembered "@ + label(row@)
            },
        ),
{
    if !new {
        let mut s = "already known (".to_owned();
        s.append(row.id.as_str());
        s.append("): ");
        s.append(row.subject.as_str());
        s.append(": ");
        s.append(row.content.as_str());
        s.append(" — nothing written");
        return ToolOutput::ok(s.as_str());
    }
    let mut l = row.id.clone();
    l.append(" [");
    l.append(row.scope.as_str());
    l.append("/");
    l.append(row.kind.as_str());
    l.append("] ");
    l.append(row.subject.as_str());
    let mut s = if is_worker {
        "proposed ".to_owned()
    } else {
        "remembered ".to_owned()
    };
    s.append(l.as_str());
    if is_worker {
        s.append(" — pending approval by the main session");
    }
    ToolOutput::ok(s.as_str())
}

/// What a call of the knowledge tool asks for.
#[derive(Debug)]
pub enum KnowledgeCall {
    /// Nothing that can be done.
    Refused(ToolOutput),
    Search { query: String, limit: usize },
    Index,
}

/// What a call of the knowledge tool asks for.
pub fn knowledge_call(args: &Json) -> (r: KnowledgeCall)
    ensures
        ({
            let action = action_of(args@);
            if action == "index"@ {
                r is Index
            } else if action == "search"@ {
                match str_arg(args@, "query"@) {
                    None => r matches KnowledgeCall::Refused(o) && o@ == missing("query"@),
                    Some(q) => r matches KnowledgeCall::Search { query, limit } && query@ == q
                        && limit == recall_limit(args@),
                }
            } else {
                r matches KnowledgeCall::Refused(o) && o@ == wrong(
                    "unknown action `"@ + action + "` (search|index)"@,
                )
            }
        }),
{
    let action = match get_str(args, "action") {
        Some(a) => a,
        None => "search",
    };
    if same(action, "index") {
        return KnowledgeCall::Index;
    }
    if same(action, "search") {
        return match get_str(args, "query") {
            None => KnowledgeCall::Refused(missing_argument("query")),
            Some(q) => KnowledgeCall::Search { query: q.to_owned(), limit: limit_of(args) },
        };
    }
    let mut s = "unknown action `".to_owned();
    s.append(action);
    s.append("` (search|index)");
    KnowledgeCall::Refused(ToolOutput::error(s.as_str()))
}

/// The answer to a rebuild of the index.
pub fn show_index(stats: IndexStats, pruned: usize) -> (r: ToolOutput)
    ensures
        r@ == fine(
            "indexed "@ + dec(stats.files as nat) + " file(s) into "@ + dec(stats.chunks as nat)
                + " chunk(s); "@ + dec(stats.skipped_unchanged as nat) + " unchanged, "@ + dec(
                pruned as nat,
            ) + " stale source(s) removed"@,
        ),
{
    let mut s = "indexed ".to_owned();
    s.append(decimal(stats.files as u128).as_str());
    s.append(" file(s) into ");
    s.append(decimal(stats.chunks as u128).as_str());
    s.append(" chunk(s); ");
    s.append(decimal(stats.skipped_unchanged as u128).as_str());
    s.append(" unchanged, ");
    s.append(decimal(pruned as u128).as_str());
    s.append(" stale source(s) removed");
    ToolOutput::ok(s.as_str())
}

/// How the chunks read.
pub open spec fn chunk_lines(cs: Seq<Chunk>) -> Seq<Seq<char>> {
    Seq::new(
        cs.len(),
        |i: int|
            "--- "@ + cs[i].source@ + " (chunk "@ + dec_int(cs[i].ord as int) + ")\n"@ + cs[i].text@
                + "\n\n"@,
    )
}

/// The answer to a search of the project's own text.
pub fn show_chunks(cs: &Vec<Chunk>) -> (r: ToolOutput)
    ensures
        r@ == if cs@.len() == 0 {
            fine("(no matches in the project's own documents or source)"@)
        } else {
            fine(concat(chunk_lines(cs@)))
        },
{
    if cs.len() == 0 {
        return ToolOutput::ok("(no matches in the project's own documents or source)");
    }
    let ghost all = chunk_lines(cs@);
    let mut out = String::new();
    let mut i: usize = 0;
    assert(out@ =~= concat(all.take(0)));
    while i < cs.len()
        invariant
            i <= cs@.len(),
            all == chunk_lines(cs@),
            out@ == concat(all.take(i as int)),
        decreases cs.len() - i,
    {
        let c = &cs[i];
        let mut line = "--- ".to_owned();
        line.append(c.source.as_str());
        line.append(" (chunk ");
        line.append(decimal_int(c.ord).as_str());
        line.append(")\n");
        line.append(c.text.as_str());
        line.append("\n\n");
        out.append(line.as_str());
        assert(all.take(i + 1) =~= all.take(i as int).push(all[i as int]));
        i = i + 1;
    }
    assert(all.take(i as int) =~= all);
    ToolOutput::ok(out.as_str())
}

// ---- laws -------------------------------------------------------------------

/// Every memory that was found is shown, with what it says, and so is every chunk, with where
/// it is from.
pub proof fn all_that_was_found_is_shown(hits: Seq<Hit>, cs: Seq<Chunk>, i: int)
    ensures
        0 <= i < hits.len() ==> crate::text::contains(
            concat(hit_lines(hits)),
            hit_line(hits[i].row@),
        ),
        0 <= i < cs.len() ==> crate::text::contains(concat(chunk_lines(cs)), chunk_lines(cs)[i])
            && crate::text::contains(chunk_lines(cs)[i], cs[i].text@) && crate::text::contains(
            chunk_lines(cs)[i],
            cs[i].source@,
        ),
{
    if 0 <= i < hits.len() {
        crate::wording::a_list_put_together_holds_each(hit_lines(hits), i);
    }
    if 0 <= i < cs.len() {
        crate::wording::a_list_put_together_holds_each(chunk_lines(cs), i);
        let x = chunk_lines(cs)[i];
        let source = cs[i].source@;
        let text = cs[i].text@;
        let a = "--- "@.len() as int;
        assert(x.subrange(a, a + source.len()) =~= source);
        assert(crate::text::occurs_at(x, source, a));
        let b = ("--- "@ + source + " (chunk "@ + dec_int(cs[i].ord as int) + ")\n"@).len() as int;
        assert(x.subrange(b, b + text.len()) =~= text);
        assert(crate::text::occurs_at(x, text, b));
    }
}

/// As many are looked for as the call says, within bounds; and what a call says of a memory
/// is what is stored of it.
pub proof fn a_call_says_how_many_and_how_important(args: Tree)
    ensures
        u64_of(member(args, "limit"@)) matches Some(n) ==> (1 <= n <= 20 ==> recall_limit(args) == n)
            && 1 <= recall_limit(args) <= 20,
        i64_of(member(args, "importance"@)) matches Some(n) ==> (0 <= n <= 100 ==> importance_of(
            args,
        ) == n) && 0 <= importance_of(args) <= 100,
        str_arg(args, "scope"@) == Some("global"@) ==> scope_of(args) == Scope::Global,
        str_arg(args, "scope"@) is None ==> scope_of(args) == Scope::Project,
{
}

} // verus!
