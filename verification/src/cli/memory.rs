//! `/memory` and `/knowledge`.
use vstd::prelude::*;
use vstd::string::*;

use crate::cli::{complained, rest_from, rest_of, told, word_at, word_or, Line, Said};
use crate::knowledge::{Chunk, IndexStats};
use crate::list::{group_lists, join, views};
use crate::memory::{scope_named, short, short_id, IdMatch, MemoryRow, Row, Scope};
use crate::text::{
    dec, dec_int, decimal, decimal_int, joined, parse_nat, parse_number, same, trim, trimmed,
};

verus! {

broadcast use group_lists;

/// What `/memory` is asked to do.
#[derive(Debug)]
pub enum MemoryOrder {
    Mine(usize),
    Search(String),
    Pending,
    ApproveAll,
    Approve(String),
    Extract,
    List(Option<Scope>),
    Show(String),
    Forget(String),
    Add { scope: Scope, kind: String, subject: String, content: String },
    /// There is only something to say.
    Say(Line),
}

/// What `/memory` is asked to do, as it reads.
pub enum MemoryWish {
    Mine(usize),
    Search(Seq<char>),
    Pending,
    ApproveAll,
    Approve(Seq<char>),
    Extract,
    List(Option<Scope>),
    Show(Seq<char>),
    Forget(Seq<char>),
    Add { scope: Scope, kind: Seq<char>, subject: Seq<char>, content: Seq<char> },
    Say(Said),
}

impl View for MemoryOrder {
    type V = MemoryWish;

    open spec fn view(&self) -> MemoryWish {
        match self {
            MemoryOrder::Mine(n) => MemoryWish::Mine(*n),
            MemoryOrder::Search(q) => MemoryWish::Search(q@),
            MemoryOrder::Pending => MemoryWish::Pending,
            MemoryOrder::ApproveAll => MemoryWish::ApproveAll,
            MemoryOrder::Approve(t) => MemoryWish::Approve(t@),
            MemoryOrder::Extract => MemoryWish::Extract,
            MemoryOrder::List(s) => MemoryWish::List(*s),
            MemoryOrder::Show(t) => MemoryWish::Show(t@),
            MemoryOrder::Forget(t) => MemoryWish::Forget(t@),
            MemoryOrder::Add { scope, kind, subject, content } => MemoryWish::Add {
                scope: *scope,
                kind: kind@,
                subject: subject@,
                content: content@,
            },
            MemoryOrder::Say(l) => MemoryWish::Say(l@),
        }
    }
}

/// How many sessions are mined: ten, or what is said.
pub open spec fn mine_limit(ws: Seq<Seq<char>>) -> usize {
    if ws.len() > 1 {
        match parse_nat(ws[1], usize::MAX as nat) {
            Some(n) => n as usize,
            None => 10,
        }
    } else {
        10
    }
}

/// What is asked for with an id.
pub open spec fn with_id(ws: Seq<Seq<char>>, approve: bool, show: bool) -> MemoryWish {
    if ws.len() > 1 {
        if approve {
            if ws[1] == "all"@ {
                MemoryWish::ApproveAll
            } else {
                MemoryWish::Approve(ws[1])
            }
        } else if show {
            MemoryWish::Show(ws[1])
        } else {
            MemoryWish::Forget(ws[1])
        }
    } else if approve {
        MemoryWish::Say(told("usage: /memory approve <id|all>"@))
    } else if show {
        MemoryWish::Say(complained("usage: /memory show <id>"@))
    } else {
        MemoryWish::Say(complained("usage: /memory forget <id>"@))
    }
}

/// What is asked for with a memory's own words.
pub open spec fn to_add(ws: Seq<Seq<char>>) -> MemoryWish {
    if ws.len() > 3 && scope_named(ws[1]) is Some && rest_of(ws, 4).len() > 0 {
        MemoryWish::Add {
            scope: scope_named(ws[1])->0,
            kind: ws[2],
            subject: ws[3],
            content: rest_of(ws, 4),
        }
    } else {
        MemoryWish::Say(
            complained(
                "usage: /memory add <global|project> <decision|constraint|preference|fact|lesson> <subject> <content...>"@,
            ),
        )
    }
}

/// What `/memory` is asked to do.
pub open spec fn memory_wish(ws: Seq<Seq<char>>) -> MemoryWish {
    let sub = word_or(ws, 0, "list"@);
    if sub == "mine"@ {
        MemoryWish::Mine(mine_limit(ws))
    } else if sub == "search"@ || sub == "find"@ {
        if trim(rest_of(ws, 1)).len() == 0 {
            MemoryWish::Say(told("usage: /memory search <query>"@))
        } else {
            MemoryWish::Search(rest_of(ws, 1))
        }
    } else if sub == "pending"@ || sub == "proposed"@ {
        MemoryWish::Pending
    } else if sub == "approve"@ {
        with_id(ws, true, false)
    } else if sub == "extract"@ || sub == "distill"@ {
        MemoryWish::Extract
    } else if sub == "list"@ || sub.len() == 0 {
        MemoryWish::List(None)
    } else if sub == "global"@ {
        MemoryWish::List(Some(Scope::Global))
    } else if sub == "project"@ {
        MemoryWish::List(Some(Scope::Project))
    } else if sub == "show"@ {
        with_id(ws, false, true)
    } else if sub == "forget"@ {
        with_id(ws, false, false)
    } else if sub == "add"@ {
        to_add(ws)
    } else {
        MemoryWish::Say(complained("unknown /memory subcommand: "@ + sub))
    }
}

fn order_with_id(ws: &Vec<String>, approve: bool, show: bool) -> (r: MemoryOrder)
    ensures
        r@ == with_id(views(ws@), approve, show),
{
    if ws.len() > 1 {
        assert(views(ws@)[1] == ws@[1]@);
        let id = ws[1].clone();
        if approve {
            if same(id.as_str(), "all") {
                MemoryOrder::ApproveAll
            } else {
                MemoryOrder::Approve(id)
            }
        } else if show {
            MemoryOrder::Show(id)
        } else {
            MemoryOrder::Forget(id)
        }
    } else if approve {
        MemoryOrder::Say(Line::out("usage: /memory approve <id|all>".to_owned()))
    } else if show {
        MemoryOrder::Say(Line::err("usage: /memory show <id>".to_owned()))
    } else {
        MemoryOrder::Say(Line::err("usage: /memory forget <id>".to_owned()))
    }
}

fn order_to_add(ws: &Vec<String>) -> (r: MemoryOrder)
    ensures
        r@ == to_add(views(ws@)),
{
    if ws.len() > 3 {
        let ghost all = views(ws@);
        assert(all[1] == ws@[1]@ && all[2] == ws@[2]@ && all[3] == ws@[3]@);
        let content = rest_from(ws, 4);
        if let Some(scope) = Scope::parse(ws[1].as_str()) {
            if content.as_str().unicode_len() > 0 {
                return MemoryOrder::Add {
                    scope,
                    kind: ws[2].clone(),
                    subject: ws[3].clone(),
                    content,
                };
            }
        }
    }
    MemoryOrder::Say(
        Line::err(
            "usage: /memory add <global|project> <decision|constraint|preference|fact|lesson> <subject> <content...>".to_owned(),
        ),
    )
}

/// What `/memory` is asked to do, by the words behind it.
pub fn memory_order(ws: &Vec<String>) -> (r: MemoryOrder)
    ensures
        r@ == memory_wish(views(ws@)),
{
    let sub = word_at(ws, 0, "list");
    if same(sub, "mine") {
        let mut limit: usize = 10;
        if ws.len() > 1 {
            assert(views(ws@)[1] == ws@[1]@);
            if let Some(n) = parse_number(ws[1].as_str(), usize::MAX as u64) {
                limit = n as usize;
            }
        }
        MemoryOrder::Mine(limit)
    } else if same(sub, "search") || same(sub, "find") {
        let query = rest_from(ws, 1);
        if trimmed(query.as_str()).as_str().unicode_len() == 0 {
            MemoryOrder::Say(Line::out("usage: /memory search <query>".to_owned()))
        } else {
            MemoryOrder::Search(query)
        }
    } else if same(sub, "pending") || same(sub, "proposed") {
        MemoryOrder::Pending
    } else if same(sub, "approve") {
        order_with_id(ws, true, false)
    } else if same(sub, "extract") || same(sub, "distill") {
        MemoryOrder::Extract
    } else if same(sub, "list") || sub.unicode_len() == 0 {
        MemoryOrder::List(None)
    } else if same(sub, "global") {
        MemoryOrder::List(Some(Scope::Global))
    } else if same(sub, "project") {
        MemoryOrder::List(Some(Scope::Project))
    } else if same(sub, "show") {
        order_with_id(ws, false, true)
    } else if same(sub, "forget") {
        order_with_id(ws, false, false)
    } else if same(sub, "add") {
        order_to_add(ws)
    } else {
        let mut s = "unknown /memory subcommand: ".to_owned();
        s.append(sub);
        MemoryOrder::Say(Line::err(s))
    }
}

// ---- how memories read ------------------------------------------------------

/// `[scope/kind] subject`.
pub open spec fn tagged(r: Row) -> Seq<char> {
    "["@ + r.scope + "/"@ + r.kind + "] "@ + r.subject
}

fn tag(r: &MemoryRow) -> (s: String)
    ensures
        s@ == tagged(r@),
{
    let mut s = "[".to_owned();
    s.append(r.scope.as_str());
    s.append("/");
    s.append(r.kind.as_str());
    s.append("] ");
    s.append(r.subject.as_str());
    s
}

/// A hit, with its score in words.
pub fn hit_line(r: &MemoryRow, score: &str) -> (s: String)
    ensures
        s@ == score@ + "  "@ + r@.id + "  "@ + tagged(r@) + ": "@ + r@.content,
{
    let mut s = score.to_owned();
    s.append("  ");
    s.append(r.id.as_str());
    s.append("  ");
    s.append(tag(r).as_str());
    s.append(": ");
    s.append(r.content.as_str());
    s
}

/// A proposal, with what can be done about it.
pub fn proposal_line(r: &MemoryRow) -> (s: String)
    ensures
        s@ == r@.id + "  "@ + tagged(r@) + ": "@ + r@.content + "  (/memory approve "@ + r@.id
            + " | /memory forget "@ + r@.id + ")"@,
{
    let mut s = r.id.clone();
    s.append("  ");
    s.append(tag(r).as_str());
    s.append(": ");
    s.append(r.content.as_str());
    s.append("  (/memory approve ");
    s.append(r.id.as_str());
    s.append(" | /memory forget ");
    s.append(r.id.as_str());
    s.append(")");
    s
}

/// A memory in the list.
pub fn memory_line(r: &MemoryRow) -> (s: String)
    ensures
        s@ == short(r@.id) + "  "@ + tagged(r@) + "  (imp "@ + dec_int(r@.importance as int)
            + ")\n    "@ + r@.content,
{
    let mut s = short_id(r.id.as_str());
    s.append("  ");
    s.append(tag(r).as_str());
    s.append("  (imp ");
    s.append(decimal_int(r.importance).as_str());
    s.append(")\n    ");
    s.append(r.content.as_str());
    s
}

/// A memory in full.
pub fn memory_detail(r: &MemoryRow) -> (s: String)
    ensures
        s@ == "["@ + r@.scope + "] "@ + r@.subject + " ("@ + r@.kind + ") importance="@ + dec_int(
            r@.importance as int,
        ) + " status="@ + r@.status + "\n"@ + r@.content,
{
    let mut s = "[".to_owned();
    s.append(r.scope.as_str());
    s.append("] ");
    s.append(r.subject.as_str());
    s.append(" (");
    s.append(r.kind.as_str());
    s.append(") importance=");
    s.append(decimal_int(r.importance).as_str());
    s.append(" status=");
    s.append(r.status.as_str());
    s.append("\n");
    s.append(r.content.as_str());
    s
}

/// What became of a distilled memory.
pub fn distilled_line(r: &MemoryRow, new: bool) -> (s: String)
    ensures
        s@ == if new {
            "remembered "@ + r@.id + " "@ + tagged(r@) + ": "@ + r@.content
        } else {
            "already known: "@ + r@.subject + ": "@ + r@.content
        },
{
    if new {
        let mut s = "remembered ".to_owned();
        s.append(r.id.as_str());
        s.append(" ");
        s.append(tag(r).as_str());
        s.append(": ");
        s.append(r.content.as_str());
        s
    } else {
        let mut s = "already known: ".to_owned();
        s.append(r.subject.as_str());
        s.append(": ");
        s.append(r.content.as_str());
        s
    }
}

/// The short forms of ids.
pub open spec fn shorts(ids: Seq<Seq<char>>) -> Seq<Seq<char>> {
    Seq::new(ids.len(), |i: int| short(ids[i]))
}

/// What was resolved: the id, or what is said instead.
pub fn resolved_id(typed: &str, m: IdMatch) -> (r: Result<String, String>)
    ensures
        match m {
            IdMatch::Unique(id) => r matches Ok(x) && x@ == id@,
            IdMatch::Unknown => r matches Err(e) && e@ == "(no memory matching `"@ + typed@ + "`)"@,
            IdMatch::Ambiguous(ids) => r matches Err(e) && e@ == "`"@ + typed@ + "` matches "@ + dec(
                ids@.len(),
            ) + ": "@ + join(shorts(views(ids@)), ", "@),
        },
{
    match m {
        IdMatch::Unique(id) => Ok(id),
        IdMatch::Unknown => {
            let mut s = "(no memory matching `".to_owned();
            s.append(typed);
            s.append("`)");
            Err(s)
        },
        IdMatch::Ambiguous(ids) => {
            let ghost want = shorts(views(ids@));
            let mut shown: Vec<String> = Vec::new();
            let mut i: usize = 0;
            assert(views(shown@) =~= want.take(0));
            while i < ids.len()
                invariant
                    i <= ids@.len(),
                    want == shorts(views(ids@)),
                    views(shown@) == want.take(i as int),
                decreases ids.len() - i,
            {
                shown.push(short_id(ids[i].as_str()));
                assert(want.take(i + 1) =~= want.take(i as int).push(want[i as int]));
                i = i + 1;
            }
            assert(want.take(i as int) =~= want);
            let mut s = "`".to_owned();
            s.append(typed);
            s.append("` matches ");
            s.append(decimal(ids.len() as u128).as_str());
            s.append(": ");
            s.append(joined(&shown, ", ").as_str());
            Err(s)
        },
    }
}

// ---- /knowledge -------------------------------------------------------------

/// What `/knowledge` is asked to do.
#[derive(Debug)]
pub enum KnowledgeOrder {
    Index,
    Search(String),
    Status,
    /// There is only something to say.
    Say(Line),
}

/// What `/knowledge` is asked to do, by the words behind it.
pub fn knowledge_order(ws: &Vec<String>) -> (r: KnowledgeOrder)
    ensures
        ({
            let all = views(ws@);
            let sub = word_or(all, 0, "status"@);
            if sub == "index"@ || sub == "reindex"@ {
                r is Index
            } else if sub == "search"@ || sub == "find"@ {
                if trim(rest_of(all, 1)).len() == 0 {
                    r matches KnowledgeOrder::Say(l) && l@ == told(
                        "usage: /knowledge search <query>"@,
                    )
                } else {
                    r matches KnowledgeOrder::Search(q) && q@ == rest_of(all, 1)
                }
            } else if sub == "status"@ || sub.len() == 0 {
                r is Status
            } else {
                r matches KnowledgeOrder::Say(l) && l@ == complained(
                    "unknown /knowledge subcommand: "@ + sub,
                )
            }
        }),
{
    let sub = word_at(ws, 0, "status");
    if same(sub, "index") || same(sub, "reindex") {
        KnowledgeOrder::Index
    } else if same(sub, "search") || same(sub, "find") {
        let query = rest_from(ws, 1);
        if trimmed(query.as_str()).as_str().unicode_len() == 0 {
            KnowledgeOrder::Say(Line::out("usage: /knowledge search <query>".to_owned()))
        } else {
            KnowledgeOrder::Search(query)
        }
    } else if same(sub, "status") || sub.unicode_len() == 0 {
        KnowledgeOrder::Status
    } else {
        let mut s = "unknown /knowledge subcommand: ".to_owned();
        s.append(sub);
        KnowledgeOrder::Say(Line::err(s))
    }
}

/// What an indexing pass did.
pub fn index_line(stats: IndexStats, pruned: usize) -> (r: String)
    ensures
        r@ == "indexed "@ + dec(stats.files as nat) + " file(s) → "@ + dec(stats.chunks as nat)
            + " chunk(s) · "@ + dec(stats.skipped_unchanged as nat) + " unchanged · "@ + dec(
            pruned as nat,
        ) + " stale removed"@,
{
    let mut s = "indexed ".to_owned();
    s.append(decimal(stats.files as u128).as_str());
    s.append(" file(s) → ");
    s.append(decimal(stats.chunks as u128).as_str());
    s.append(" chunk(s) · ");
    s.append(decimal(stats.skipped_unchanged as u128).as_str());
    s.append(" unchanged · ");
    s.append(decimal(pruned as u128).as_str());
    s.append(" stale removed");
    s
}

/// A chunk that was found.
pub fn chunk_line(c: &Chunk) -> (r: String)
    ensures
        r@ == "--- "@ + c.source@ + " (chunk "@ + dec_int(c.ord as int) + ")\n"@ + c.text@ + "\n"@,
{
    let mut s = "--- ".to_owned();
    s.append(c.source.as_str());
    s.append(" (chunk ");
    s.append(decimal_int(c.ord).as_str());
    s.append(")\n");
    s.append(c.text.as_str());
    s.append("\n");
    s
}

/// What is added is what was typed: the scope, the kind, the subject and then all of the
/// remaining words, and each of the four has to be there.
pub proof fn what_is_added_is_what_was_typed(ws: Seq<Seq<char>>)
    requires
        ws.len() > 0,
        ws[0] == "add"@,
    ensures
        match memory_wish(ws) {
            MemoryWish::Add { scope, kind, subject, content } => {
                &&& ws.len() > 4
                &&& ws[1] == match scope {
                    Scope::Global => "global"@,
                    Scope::Project => "project"@,
                }
                &&& kind == ws[2]
                &&& subject == ws[3]
                &&& content == join(ws.subrange(4, ws.len() as int), " "@)
            },
            MemoryWish::Say(l) => l.err && (ws.len() < 5 || (ws[1] != "global"@ && ws[1]
                != "project"@) || join(ws.subrange(4, ws.len() as int), " "@).len() == 0),
            _ => false,
        },
{
    lemma_commands_differ();
    if ws.len() >= 4 {
        assert(ws.skip(4) =~= ws.subrange(4, ws.len() as int));
        if ws.len() == 4 {
            assert(ws.skip(4) =~= seq![]);
        }
    }
}

/// An id goes to the command that was asked for, whatever the id is; a limit or a query
/// is the one that was typed.
pub proof fn a_command_acts_on_what_was_named(id: Seq<char>, n: usize, query: Seq<char>)
    ensures
        memory_wish(seq!["show"@, id]) == MemoryWish::Show(id),
        memory_wish(seq!["forget"@, id]) == MemoryWish::Forget(id),
        id != "all"@ ==> memory_wish(seq!["approve"@, id]) == MemoryWish::Approve(id),
        memory_wish(seq!["approve"@, "all"@]) == MemoryWish::ApproveAll,
        memory_wish(seq!["mine"@, dec(n as nat)]) == MemoryWish::Mine(n),
        trim(query).len() > 0 ==> memory_wish(seq!["search"@, query]) == MemoryWish::Search(query),
        trim(query).len() > 0 ==> memory_wish(seq!["find"@, query]) == MemoryWish::Search(query),
{
    lemma_commands_differ();
    crate::wording::a_number_reads_back(n as nat, usize::MAX as nat, 0);
    assert(seq!["search"@, query].skip(1) =~= seq![query]);
    assert(seq!["find"@, query].skip(1) =~= seq![query]);
    assert(seq![query].drop_last() =~= seq![]);
    assert(join(seq![query], " "@) =~= query);
}

proof fn lemma_commands_differ()
    ensures
        "add"@.len() == 3,
        "mine"@.len() == 4 && "mine"@[0] == 'm',
        "search"@.len() == 6 && "search"@[0] == 's',
        "find"@.len() == 4 && "find"@[0] == 'f',
        "pending"@.len() == 7 && "pending"@[0] == 'p' && "pending"@[1] == 'e',
        "proposed"@.len() == 8,
        "approve"@.len() == 7 && "approve"@[0] == 'a',
        "extract"@.len() == 7 && "extract"@[0] == 'e',
        "distill"@.len() == 7 && "distill"@[0] == 'd',
        "list"@.len() == 4 && "list"@[0] == 'l',
        "global"@.len() == 6 && "global"@[0] == 'g',
        "project"@.len() == 7 && "project"@[0] == 'p' && "project"@[1] == 'r',
        "show"@.len() == 4 && "show"@[0] == 's',
        "forget"@.len() == 6 && "forget"@[0] == 'f',
{
    reveal_strlit("add");
    reveal_strlit("mine");
    reveal_strlit("search");
    reveal_strlit("find");
    reveal_strlit("pending");
    reveal_strlit("proposed");
    reveal_strlit("approve");
    reveal_strlit("extract");
    reveal_strlit("distill");
    reveal_strlit("list");
    reveal_strlit("global");
    reveal_strlit("project");
    reveal_strlit("show");
    reveal_strlit("forget");
}

} // verus!
