//! Durable memory: distilled decisions, constraints, preferences, facts and lessons.
//!
//! The rows live in two databases, one for everything and one for the project; what is
//! here decides what a row becomes, which rows are worth showing, and how they read.
use vstd::prelude::*;
use vstd::string::*;

use crate::list::{concat, group_lists, join, views};
use crate::paths::{file_name, parent, path_name, path_parent};
use crate::ranking::{in_rank, is_ranking, ranked, ranking_puts_in_order};
use crate::sorting::{at_most, is_at_most, lemma_total, lemma_transitive, ordered, sorted_texts};
use crate::text::{
    any_same, ascii_lowered, byte_len, chars_of, copy_opt, fit, fitting, joined, lemma_byte_len_cat,
    lines, lines_of, lower_ascii, lowercase, opt_view, parse_int, parse_integer, pieces_at_most, same,
    split_at_most, string_of, terms, terms_of, trim, trimmed, utf8_len, words, words_of,
};

verus! {

broadcast use group_lists;

/// Which database a memory lives in.
#[derive(Debug, Clone, Copy, PartialEq, Eq, Structural)]
pub enum Scope {
    Global,
    Project,
}

/// The word for a scope.
pub open spec fn scope_word(s: Scope) -> Seq<char> {
    match s {
        Scope::Global => "global"@,
        Scope::Project => "project"@,
    }
}

/// The scope that a word names.
pub open spec fn scope_named(s: Seq<char>) -> Option<Scope> {
    if s == "global"@ {
        Some(Scope::Global)
    } else if s == "project"@ {
        Some(Scope::Project)
    } else {
        None
    }
}

impl Scope {
    /// The word for a scope.
    pub fn as_str(&self) -> (r: &'static str)
        ensures
            r@ == scope_word(*self),
    {
        match self {
            Scope::Global => "global",
            Scope::Project => "project",
        }
    }

    /// The scope that a word names.
    pub fn parse(s: &str) -> (r: Option<Scope>)
        ensures
            r == scope_named(s@),
    {
        if same(s, "global") {
            Some(Scope::Global)
        } else if same(s, "project") {
            Some(Scope::Project)
        } else {
            None
        }
    }
}

/// Is this one of the five kinds of durable memory? Everything else is not durable
/// memory.
pub open spec fn durable_kind(k: Seq<char>) -> bool {
    k == "decision"@ || k == "constraint"@ || k == "preference"@ || k == "fact"@ || k == "lesson"@
}

/// Is this one of the five kinds of durable memory?
pub fn is_kind(k: &str) -> (r: bool)
    ensures
        r == durable_kind(k@),
{
    same(k, "decision") || same(k, "constraint") || same(k, "preference") || same(k, "fact")
        || same(k, "lesson")
}

/// A stored memory.
#[derive(Debug)]
pub struct MemoryRow {
    pub id: String,
    pub scope: String,
    pub kind: String,
    pub subject: String,
    pub content: String,
    pub importance: i64,
    pub created_at: i64,
    pub updated_at: i64,
    pub supersedes_id: Option<String>,
    pub status: String,
}

/// What a stored memory says.
pub struct Row {
    pub id: Seq<char>,
    pub scope: Seq<char>,
    pub kind: Seq<char>,
    pub subject: Seq<char>,
    pub content: Seq<char>,
    pub importance: i64,
    pub created_at: i64,
    pub updated_at: i64,
    pub supersedes_id: Option<Seq<char>>,
    pub status: Seq<char>,
}

impl View for MemoryRow {
    type V = Row;

    open spec fn view(&self) -> Row {
        Row {
            id: self.id@,
            scope: self.scope@,
            kind: self.kind@,
            subject: self.subject@,
            content: self.content@,
            importance: self.importance,
            created_at: self.created_at,
            updated_at: self.updated_at,
            supersedes_id: opt_view(self.supersedes_id),
            status: self.status@,
        }
    }
}

/// What a list of stored memories says.
pub open spec fn rows(v: Seq<MemoryRow>) -> Seq<Row> {
    Seq::new(v.len(), |i: int| v[i]@)
}

impl Clone for MemoryRow {
    fn clone(&self) -> (r: MemoryRow)
        ensures
            r@ == self@,
    {
        self.copy()
    }
}

impl MemoryRow {
    /// The same memory once more.
    pub fn copy(&self) -> (r: MemoryRow)
        ensures
            r@ == self@,
    {
        MemoryRow {
            id: self.id.clone(),
            scope: self.scope.clone(),
            kind: self.kind.clone(),
            subject: self.subject.clone(),
            content: self.content.clone(),
            importance: self.importance,
            created_at: self.created_at,
            updated_at: self.updated_at,
            supersedes_id: copy_opt(&self.supersedes_id),
            status: self.status.clone(),
        }
    }
}

// ---- what a row becomes -----------------------------------------------------

/// What is said of a kind that is not durable.
pub open spec fn not_a_kind(kind: Seq<char>) -> Seq<char> {
    "invalid kind `"@ + kind
        + "`; expected one of [\"decision\", \"constraint\", \"preference\", \"fact\", \"lesson\"]"@
}

/// What is said of a kind that is not durable.
pub fn kind_refusal(kind: &str) -> (r: String)
    ensures
        r@ == not_a_kind(kind@),
{
    let mut e = "invalid kind `".to_owned();
    e.append(kind);
    e.append(
        "`; expected one of [\"decision\", \"constraint\", \"preference\", \"fact\", \"lesson\"]",
    );
    e
}

/// Why a memory of this kind cannot be written there.
pub open spec fn write_refused(scope: Scope, has_project: bool, kind: Seq<char>) -> Option<Seq<char>> {
    if !durable_kind(kind) {
        Some(not_a_kind(kind))
    } else if scope == Scope::Project && !has_project {
        Some("no project memory database open (not in a project directory)"@)
    } else {
        None
    }
}

/// A new row.
pub open spec fn new_row(
    scope: Scope,
    kind: Seq<char>,
    subject: Seq<char>,
    content: Seq<char>,
    importance: i64,
    id: Seq<char>,
    ts: i64,
) -> Row {
    Row {
        id,
        scope: scope_word(scope),
        kind,
        subject,
        content,
        importance,
        created_at: ts,
        updated_at: ts,
        supersedes_id: None,
        status: "active"@,
    }
}

/// A new active memory.
pub fn remember(
    scope: Scope,
    has_project: bool,
    kind: &str,
    subject: &str,
    content: &str,
    importance: i64,
    id: &str,
    ts: i64,
) -> (r: Result<MemoryRow, String>)
    ensures
        match r {
            Ok(row) => write_refused(scope, has_project, kind@) is None && row@ == new_row(
                scope,
                kind@,
                subject@,
                content@,
                importance,
                id@,
                ts,
            ),
            Err(e) => write_refused(scope, has_project, kind@) == Some(e@),
        },
{
    if !is_kind(kind) {
        return Err(kind_refusal(kind));
    }
    if scope == Scope::Project && !has_project {
        return Err("no project memory database open (not in a project directory)".to_owned());
    }
    Ok(
        MemoryRow {
            id: id.to_owned(),
            scope: scope.as_str().to_owned(),
            kind: kind.to_owned(),
            subject: subject.to_owned(),
            content: content.to_owned(),
            importance,
            created_at: ts,
            updated_at: ts,
            supersedes_id: None,
            status: "active".to_owned(),
        },
    )
}

/// A row that waits for approval.
pub open spec fn proposed_row(row: Row) -> Row {
    Row { status: "proposed"@, ..row }
}

/// A worker's candidate: stored, but not active until it is approved. Workers propose,
/// they do not persist.
pub fn propose(
    scope: Scope,
    has_project: bool,
    kind: &str,
    subject: &str,
    content: &str,
    importance: i64,
    id: &str,
    ts: i64,
) -> (r: Result<MemoryRow, String>)
    ensures
        match r {
            Ok(row) => write_refused(scope, has_project, kind@) is None && row@ == proposed_row(
                new_row(scope, kind@, subject@, content@, importance, id@, ts),
            ),
            Err(e) => write_refused(scope, has_project, kind@) == Some(e@),
        },
{
    let mut row = match remember(scope, has_project, kind, subject, content, importance, id, ts) {
        Ok(row) => row,
        Err(e) => return Err(e),
    };
    row.status = "proposed".to_owned();
    Ok(row)
}

/// A new memory that supersedes `old_id`.
pub fn supersede(
    scope: Scope,
    has_project: bool,
    old_id: &str,
    kind: &str,
    subject: &str,
    content: &str,
    importance: i64,
    id: &str,
    ts: i64,
) -> (r: Result<MemoryRow, String>)
    ensures
        match r {
            Ok(row) => write_refused(scope, has_project, kind@) is None && row@ == (Row {
                supersedes_id: Some(old_id@),
                ..new_row(scope, kind@, subject@, content@, importance, id@, ts)
            }),
            Err(e) => write_refused(scope, has_project, kind@) == Some(e@),
        },
{
    let mut row = match remember(scope, has_project, kind, subject, content, importance, id, ts) {
        Ok(row) => row,
        Err(e) => return Err(e),
    };
    row.supersedes_id = Some(old_id.to_owned());
    Ok(row)
}

/// A memory that another one took the place of. It stays, with all it said.
pub open spec fn retired_row(row: Row, ts: i64) -> Row {
    Row { status: "superseded"@, updated_at: ts, ..row }
}

/// A memory that another one took the place of. It stays, with all it said.
pub fn superseded(row: MemoryRow, ts: i64) -> (r: MemoryRow)
    ensures
        r@ == retired_row(row@, ts),
{
    let mut row = row;
    row.status = "superseded".to_owned();
    row.updated_at = ts;
    row
}

/// A proposal that was approved.
pub open spec fn approved_row(row: Row, ts: i64) -> Row {
    Row { status: "active"@, updated_at: ts, ..row }
}

/// A proposal becomes active; nothing else does.
pub fn approve(row: MemoryRow, ts: i64) -> (r: Option<MemoryRow>)
    ensures
        match r {
            Some(a) => row@.status == "proposed"@ && a@ == approved_row(row@, ts),
            None => row@.status != "proposed"@,
        },
{
    if !same(row.status.as_str(), "proposed") {
        return None;
    }
    let mut row = row;
    row.status = "active".to_owned();
    row.updated_at = ts;
    Some(row)
}

/// The short form of an id: what of its beginning fits into eight bytes.
pub open spec fn short(id: Seq<char>) -> Seq<char> {
    id.take(fitting(id, 8) as int)
}

/// How much of an id to show.
pub const SHORT_ID: usize = 8;

/// The displayable short form of an id.
pub fn short_id(id: &str) -> (r: String)
    ensures
        r@ == short(id@),
{
    let v = chars_of(id);
    let (n, _b) = fit(&v, SHORT_ID);
    let r = string_of(&v, 0, n);
    assert(r@ =~= short(id@));
    r
}

/// Why a proposal cannot take the place of a memory.
pub open spec fn supersede_refused(
    proposal: Row,
    old: Option<Row>,
    proposal_id: Seq<char>,
    old_id: Seq<char>,
) -> Option<Seq<char>> {
    if proposal.status != "proposed"@ {
        Some(short(proposal_id) + " is "@ + proposal.status + ", not proposed"@)
    } else {
        match old {
            None => Some("no active memory "@ + short(old_id) + " in the same scope"@),
            Some(o) => if o.status != "active"@ {
                Some(short(old_id) + " is "@ + o.status + ", not active"@)
            } else if o.scope != proposal.scope || o.kind != proposal.kind || o.subject
                != proposal.subject {
                Some(
                    "supersede requires the same scope, kind, and subject; proposal is ["@
                        + proposal.scope + "/"@ + proposal.kind + "] "@ + proposal.subject
                        + ", existing is ["@ + o.scope + "/"@ + o.kind + "] "@ + o.subject,
                )
            } else {
                None
            },
        }
    }
}

/// Approve a proposal in place of the active memory that it corrects: the old memory
/// and the new one, as they are to be stored.
pub fn approve_superseding(
    proposal: MemoryRow,
    old: Option<MemoryRow>,
    proposal_id: &str,
    old_id: &str,
    ts: i64,
) -> (r: Result<(MemoryRow, MemoryRow), String>)
    ensures
        ({
            let o = match old {
                Some(o) => Some(o@),
                None => None,
            };
            let refused = supersede_refused(proposal@, o, proposal_id@, old_id@);
            match r {
                Ok(pair) => {
                    &&& refused is None
                    &&& pair.0@ == retired_row(o->0, ts)
                    &&& pair.1@ == (Row {
                        supersedes_id: Some(old_id@),
                        ..approved_row(proposal@, ts)
                    })
                },
                Err(e) => refused == Some(e@),
            }
        }),
{
    if !same(proposal.status.as_str(), "proposed") {
        let mut e = short_id(proposal_id);
        e.append(" is ");
        e.append(proposal.status.as_str());
        e.append(", not proposed");
        return Err(e);
    }
    let o = match old {
        Some(o) => o,
        None => {
            let mut e = "no active memory ".to_owned();
            e.append(short_id(old_id).as_str());
            e.append(" in the same scope");
            return Err(e);
        },
    };
    if !same(o.status.as_str(), "active") {
        let mut e = short_id(old_id);
        e.append(" is ");
        e.append(o.status.as_str());
        e.append(", not active");
        return Err(e);
    }
    if !same(o.scope.as_str(), proposal.scope.as_str()) || !same(
        o.kind.as_str(),
        proposal.kind.as_str(),
    ) || !same(o.subject.as_str(), proposal.subject.as_str()) {
        let mut e =
            "supersede requires the same scope, kind, and subject; proposal is [".to_owned();
        e.append(proposal.scope.as_str());
        e.append("/");
        e.append(proposal.kind.as_str());
        e.append("] ");
        e.append(proposal.subject.as_str());
        e.append(", existing is [");
        e.append(o.scope.as_str());
        e.append("/");
        e.append(o.kind.as_str());
        e.append("] ");
        e.append(o.subject.as_str());
        return Err(e);
    }
    let mut p = proposal;
    p.status = "active".to_owned();
    p.supersedes_id = Some(old_id.to_owned());
    p.updated_at = ts;
    Ok((superseded(o, ts), p))
}

// ---- duplicates and reviews -------------------------------------------------

/// `s` with its whitespace collapsed.
pub open spec fn squeezed(s: Seq<char>) -> Seq<char> {
    join(words(s), " "@)
}

/// `s` with its whitespace collapsed.
pub fn squeeze(s: &str) -> (r: String)
    ensures
        r@ == squeezed(s@),
{
    let w = words_of(s);
    joined(&w, " ")
}

/// `s` with whitespace and case collapsed, so that near-identical writes compare
/// equal.
pub open spec fn normal(s: Seq<char>) -> Seq<char> {
    lowercase(squeezed(s))
}

/// `s` with whitespace and case collapsed.
pub fn normalize(s: &str) -> (r: String)
    ensures
        r@ == normal(s@),
{
    squeeze(s).as_str().to_lowercase()
}

/// Does a row say this already?
pub open spec fn duplicates(row: Row, kind: Seq<char>, subject: Seq<char>, content: Seq<char>) -> bool {
    &&& row.subject == subject
    &&& row.kind == kind
    &&& row.status == "active"@ || row.status == "proposed"@
    &&& normal(row.content) == normal(content)
}

/// The first row of a scope that says this already: the same subject and kind, and the
/// same content but for whitespace and case.
pub fn find_duplicate(stored: &Vec<MemoryRow>, kind: &str, subject: &str, content: &str) -> (r: Option<
    usize,
>)
    ensures
        match r {
            Some(i) => {
                &&& i < stored@.len()
                &&& duplicates(stored@[i as int]@, kind@, subject@, content@)
                &&& forall|j: int|
                    0 <= j < i ==> !duplicates(#[trigger] stored@[j]@, kind@, subject@, content@)
            },
            None => forall|j: int|
                0 <= j < stored@.len() ==> !duplicates(
                    #[trigger] stored@[j]@,
                    kind@,
                    subject@,
                    content@,
                ),
        },
{
    let want = normalize(content);
    let mut i: usize = 0;
    while i < stored.len()
        invariant
            i <= stored@.len(),
            want@ == normal(content@),
            forall|j: int|
                0 <= j < i ==> !duplicates(#[trigger] stored@[j]@, kind@, subject@, content@),
        decreases stored.len() - i,
    {
        let row = &stored[i];
        if same(row.subject.as_str(), subject) && same(row.kind.as_str(), kind) && (same(
            row.status.as_str(),
            "active",
        ) || same(row.status.as_str(), "proposed")) && same(
            normalize(row.content.as_str()).as_str(),
            want.as_str(),
        ) {
            return Some(i);
        }
        i = i + 1;
    }
    None
}

/// Does one of the rows say this already?
pub open spec fn known(
    stored: Seq<MemoryRow>,
    kind: Seq<char>,
    subject: Seq<char>,
    content: Seq<char>,
) -> bool {
    exists|i: int| 0 <= i < stored.len() && duplicates(#[trigger] stored[i]@, kind, subject, content)
}

/// Is `r` the first of the rows that says this already?
pub open spec fn is_first_known(
    r: Row,
    stored: Seq<MemoryRow>,
    kind: Seq<char>,
    subject: Seq<char>,
    content: Seq<char>,
) -> bool {
    exists|i: int|
        0 <= i < stored.len() && r == #[trigger] stored[i]@ && duplicates(
            stored[i]@,
            kind,
            subject,
            content,
        ) && forall|j: int|
            0 <= j < i ==> !duplicates(#[trigger] stored[j]@, kind, subject, content)
}

/// Write a memory unless one just like it is there already: the row, and whether it is
/// new. `stored` holds the rows of the scope where it is open. A worker's is a proposal.
pub fn remember_deduped(
    scope: Scope,
    stored: &Option<Vec<MemoryRow>>,
    is_worker: bool,
    kind: &str,
    subject: &str,
    content: &str,
    importance: i64,
    id: &str,
    ts: i64,
) -> (r: Result<(MemoryRow, bool), String>)
    ensures
        match *stored {
            None => r matches Err(e) && e@
                == "no project memory database open (not in a project directory)"@,
            Some(v) => if known(v@, kind@, subject@, content@) {
                r matches Ok(p) && !p.1 && is_first_known(p.0@, v@, kind@, subject@, content@)
            } else if !durable_kind(kind@) {
                r matches Err(e) && e@ == not_a_kind(kind@)
            } else {
                r matches Ok(p) && p.1 && p.0@ == ({
                    let row = new_row(scope, kind@, subject@, content@, importance, id@, ts);
                    if is_worker {
                        proposed_row(row)
                    } else {
                        row
                    }
                })
            },
        },
{
    let v = match stored {
        None => return Err(
            "no project memory database open (not in a project directory)".to_owned(),
        ),
        Some(v) => v,
    };
    if let Some(i) = find_duplicate(v, kind, subject, content) {
        assert(duplicates(v@[i as int]@, kind@, subject@, content@));
        let row = v[i].copy();
        assert(row@ == v@[i as int]@);
        return Ok((row, false));
    }
    let made = if is_worker {
        propose(scope, true, kind, subject, content, importance, id, ts)
    } else {
        remember(scope, true, kind, subject, content, importance, id, ts)
    };
    match made {
        Ok(row) => Ok((row, true)),
        Err(e) => Err(e),
    }
}

/// A proposed memory, and the active rows that it may replace.
#[derive(Debug, Clone)]
pub struct ProposalReview {
    pub proposal: MemoryRow,
    pub existing: Vec<MemoryRow>,
}

/// The rows of `v` that are active and have this subject and kind.
pub open spec fn about(v: Seq<Row>, subject: Seq<char>, kind: Seq<char>) -> Seq<Row>
    decreases v.len(),
{
    if v.len() == 0 {
        seq![]
    } else {
        let before = about(v.drop_last(), subject, kind);
        let r = v.last();
        if r.status == "active"@ && r.subject == subject && r.kind == kind {
            before.push(r)
        } else {
            before
        }
    }
}

fn rows_about(v: &Vec<MemoryRow>, subject: &str, kind: &str) -> (r: Vec<MemoryRow>)
    ensures
        rows(r@) == about(rows(v@), subject@, kind@),
{
    let ghost all = rows(v@);
    let mut r: Vec<MemoryRow> = Vec::new();
    let mut i: usize = 0;
    assert(rows(r@) =~= about(all.take(0), subject@, kind@));
    while i < v.len()
        invariant
            i <= v@.len(),
            all == rows(v@),
            rows(r@) == about(all.take(i as int), subject@, kind@),
        decreases v.len() - i,
    {
        let row = &v[i];
        let ghost next = all.take(i + 1);
        assert(next.drop_last() =~= all.take(i as int));
        assert(next.last() == row@);
        if same(row.status.as_str(), "active") && same(row.subject.as_str(), subject) && same(
            row.kind.as_str(),
            kind,
        ) {
            let ghost before = r@;
            r.push(row.copy());
            assert(rows(r@) =~= rows(before).push(row@));
        }
        i = i + 1;
    }
    assert(all.take(i as int) =~= all);
    r
}

/// The rows that a review of a proposal is held against, or why there is none.
pub open spec fn review_shelf(p: Row, global: Seq<Row>, project: Option<Seq<Row>>) -> Result<
    Seq<Row>,
    Seq<char>,
> {
    match scope_named(p.scope) {
        None => Err("invalid memory scope `"@ + p.scope + "`"@),
        Some(Scope::Global) => Ok(global),
        Some(Scope::Project) => match project {
            Some(rs) => Ok(rs),
            None => Err("no project memory database open (not in a project directory)"@),
        },
    }
}

/// A proposal, with the active rows of the same scope, kind and subject.
pub fn review(proposal: MemoryRow, global: &Vec<MemoryRow>, project: &Option<Vec<MemoryRow>>) -> (r:
    Result<ProposalReview, String>)
    ensures
        ({
            let shelf = review_shelf(
                proposal@,
                rows(global@),
                match project {
                    Some(p) => Some(rows(p@)),
                    None => None,
                },
            );
            match r {
                Ok(v) => {
                    &&& shelf is Ok
                    &&& v.proposal@ == proposal@
                    &&& rows(v.existing@) == about(shelf->Ok_0, proposal@.subject, proposal@.kind)
                },
                Err(e) => shelf == Err::<Seq<Row>, Seq<char>>(e@),
            }
        }),
{
    match Scope::parse(proposal.scope.as_str()) {
        None => {
            let mut e = "invalid memory scope `".to_owned();
            e.append(proposal.scope.as_str());
            e.append("`");
            Err(e)
        },
        Some(Scope::Global) => {
            let existing = rows_about(global, proposal.subject.as_str(), proposal.kind.as_str());
            Ok(ProposalReview { proposal, existing })
        },
        Some(Scope::Project) => match project {
            None => Err("no project memory database open (not in a project directory)".to_owned()),
            Some(p) => {
                let existing = rows_about(p, proposal.subject.as_str(), proposal.kind.as_str());
                Ok(ProposalReview { proposal, existing })
            },
        },
    }
}

/// The result of resolving a short id.
#[derive(Debug, Clone, PartialEq, Eq)]
pub enum IdMatch {
    Unique(String),
    /// Several memories share the prefix: the caller shows them and does not guess.
    Ambiguous(Vec<String>),
    /// No memory has the prefix.
    Unknown,
}

fn distinct(v: Vec<String>) -> (r: Vec<String>)
    requires
        ordered(views(v@)),
    ensures
        ordered(views(r@)),
        views(r@).no_duplicates(),
        forall|x: Seq<char>| views(r@).contains(x) <==> views(v@).contains(x),
{
    let ghost all = views(v@);
    let mut r: Vec<String> = Vec::new();
    let mut i: usize = 0;
    while i < v.len()
        invariant
            i <= v@.len(),
            all == views(v@),
            ordered(all),
            ordered(views(r@)),
            views(r@).no_duplicates(),
            forall|x: Seq<char>| views(r@).contains(x) <==> all.take(i as int).contains(x),
        decreases v.len() - i,
    {
        let ghost t = all.take(i as int);
        let ghost t1 = all.take(i + 1);
        let ghost x = all[i as int];
        assert(t1 =~= t.push(x));
        let ghost before = views(r@);
        assert forall|y: Seq<char>| t1.contains(y) <==> (t.contains(y) || y == x) by {
            if t1.contains(y) {
                let k = choose|k: int| 0 <= k < t1.len() && t1[k] == y;
                if k < t.len() {
                    assert(t[k] == y);
                }
            }
            if t.contains(y) {
                let k = choose|k: int| 0 <= k < t.len() && t[k] == y;
                assert(t1[k] == y);
            }
            assert(t1[i as int] == x);
        }
        if !any_same(&r, v[i].as_str()) {
            r.push(v[i].clone());
            let ghost after = views(r@);
            assert(after == before.push(x));
            assert forall|y: Seq<char>| after.contains(y) <==> (before.contains(y) || y == x) by {
                if after.contains(y) {
                    let k = choose|k: int| 0 <= k < after.len() && after[k] == y;
                    if k < before.len() {
                        assert(before[k] == y);
                    }
                }
                if before.contains(y) {
                    let k = choose|k: int| 0 <= k < before.len() && before[k] == y;
                    assert(after[k] == y);
                }
                assert(after[before.len() as int] == x);
            }
            assert forall|a: int, b: int| 0 <= a < b < after.len() implies at_most(
                #[trigger] after[a],
                #[trigger] after[b],
            ) by {
                if b == before.len() {
                    assert(before.contains(before[a]));
                    assert(t.contains(after[a]));
                    let k = choose|k: int| 0 <= k < t.len() && t[k] == after[a];
                    assert(at_most(all[k], all[i as int]));
                } else {
                    assert(at_most(before[a], before[b]));
                }
            }
            assert forall|a: int, b: int| 0 <= a < after.len() && 0 <= b < after.len() && a != b implies after[a]
                != after[b] by {
                if a == before.len() {
                    assert(before.contains(before[b]));
                } else if b == before.len() {
                    assert(before.contains(before[a]));
                } else {
                    assert(before[a] != before[b]);
                }
            }
        }
        i = i + 1;
    }
    assert(all.take(i as int) =~= all);
    r
}

/// Is `r` what these ids resolve to? `ids` are the ones that were found, without
/// repetition and in order.
pub open spec fn resolves(r: IdMatch, ids: Seq<Seq<char>>) -> bool {
    match r {
        IdMatch::Unknown => ids.len() == 0,
        IdMatch::Unique(id) => ids == seq![id@],
        IdMatch::Ambiguous(v) => ids.len() >= 2 && views(v@) == ids,
    }
}

/// Resolve a possibly abbreviated id, given the ids that begin with it: any
/// unambiguous prefix works.
pub fn resolve_id(prefix: &str, hits: Vec<String>) -> (r: IdMatch)
    ensures
        trim(prefix@).len() == 0 ==> r is Unknown,
        trim(prefix@).len() > 0 ==> exists|ids: Seq<Seq<char>>|
            {
                &&& #[trigger] resolves(r, ids)
                &&& ordered(ids)
                &&& ids.no_duplicates()
                &&& forall|x: Seq<char>| ids.contains(x) <==> views(hits@).contains(x)
            },
{
    if trimmed(prefix).as_str().unicode_len() == 0 {
        return IdMatch::Unknown;
    }
    let ghost found = views(hits@);
    let sorted = sorted_texts(hits);
    proof {
        let s = views(sorted@);
        s.to_multiset_ensures();
        found.to_multiset_ensures();
        assert forall|x: Seq<char>| s.contains(x) <==> found.contains(x) by {
            assert(s.to_multiset().count(x) > 0 <==> s.contains(x));
            assert(found.to_multiset().count(x) > 0 <==> found.contains(x));
        }
    }
    let mut ids = distinct(sorted);
    let ghost named = views(ids@);
    if ids.len() == 0 {
        let r = IdMatch::Unknown;
        assert(resolves(r, named));
        r
    } else if ids.len() == 1 {
        let id = ids.remove(0);
        let r = IdMatch::Unique(id);
        assert(named =~= seq![id@]);
        assert(resolves(r, named));
        r
    } else {
        let r = IdMatch::Ambiguous(ids);
        assert(resolves(r, named));
        r
    }
}

// ---- searching --------------------------------------------------------------

/// Is a word too common to search for?
pub open spec fn common_word(w: Seq<char>) -> bool {
    w == "a"@
        || w == "an"@
        || w == "and"@
        || w == "are"@
        || w == "as"@
        || w == "be"@
        || w == "but"@
        || w == "change"@
        || w == "check"@
        || w == "do"@
        || w == "does"@
        || w == "file"@
        || w == "for"@
        || w == "i"@
        || w == "in"@
        || w == "is"@
        || w == "it"@
        || w == "make"@
        || w == "me"@
        || w == "memory"@
        || w == "rs"@
        || w == "my"@
        || w == "of"@
        || w == "on"@
        || w == "or"@
        || w == "run"@
        || w == "small"@
        || w == "src"@
        || w == "test"@
        || w == "testing"@
        || w == "that"@
        || w == "the"@
        || w == "this"@
        || w == "to"@
        || w == "we"@
        || w == "with"@
}

fn is_query_noise(w: &str) -> (r: bool)
    ensures
        r == common_word(w@),
{
    same(w, "a")
        || same(w, "an")
        || same(w, "and")
        || same(w, "are")
        || same(w, "as")
        || same(w, "be")
        || same(w, "but")
        || same(w, "change")
        || same(w, "check")
        || same(w, "do")
        || same(w, "does")
        || same(w, "file")
        || same(w, "for")
        || same(w, "i")
        || same(w, "in")
        || same(w, "is")
        || same(w, "it")
        || same(w, "make")
        || same(w, "me")
        || same(w, "memory")
        || same(w, "rs")
        || same(w, "my")
        || same(w, "of")
        || same(w, "on")
        || same(w, "or")
        || same(w, "run")
        || same(w, "small")
        || same(w, "src")
        || same(w, "test")
        || same(w, "testing")
        || same(w, "that")
        || same(w, "the")
        || same(w, "this")
        || same(w, "to")
        || same(w, "we")
        || same(w, "with")
}

/// Is a word of a question left out of the search? In a turn's own search the common
/// words and the project's name are.
pub open spec fn noise(w: Seq<char>, turn: Option<Seq<Seq<char>>>) -> bool {
    match turn {
        None => false,
        Some(project) => project.contains(ascii_lowered(w)) || common_word(ascii_lowered(w)),
    }
}

fn is_noise(w: &str, turn: Option<&Vec<String>>) -> (r: bool)
    ensures
        r == noise(
            w@,
            match turn {
                Some(p) => Some(views(p@)),
                None => None,
            },
        ),
{
    match turn {
        None => false,
        Some(project) => {
            let low = lower_ascii(w);
            any_same(project, low.as_str()) || is_query_noise(low.as_str())
        },
    }
}

/// Of these words, the ones that are searched for.
pub open spec fn wanted(ws: Seq<Seq<char>>, turn: Option<Seq<Seq<char>>>) -> Seq<Seq<char>>
    decreases ws.len(),
{
    if ws.len() == 0 {
        seq![]
    } else {
        let before = wanted(ws.drop_last(), turn);
        let w = trim(ws.last());
        if w.len() == 0 || noise(w, turn) {
            before
        } else {
            before.push(ascii_lowered(w))
        }
    }
}

fn query_terms(query: &str, turn: Option<&Vec<String>>) -> (r: Vec<String>)
    ensures
        views(r@) == wanted(
            terms(query@),
            match turn {
                Some(p) => Some(views(p@)),
                None => None,
            },
        ),
{
    let ws = terms_of(query);
    let ghost all = views(ws@);
    let ghost t = match turn {
        Some(p) => Some(views(p@)),
        None => None,
    };
    let mut r: Vec<String> = Vec::new();
    let mut i: usize = 0;
    assert(views(r@) =~= wanted(all.take(0), t));
    while i < ws.len()
        invariant
            i <= ws@.len(),
            all == views(ws@),
            t == (match turn {
                Some(p) => Some(views(p@)),
                None => None,
            }),
            views(r@) == wanted(all.take(i as int), t),
        decreases ws.len() - i,
    {
        let w = trimmed(ws[i].as_str());
        let ghost next = all.take(i + 1);
        assert(next.drop_last() =~= all.take(i as int));
        assert(next.last() == ws@[i as int]@);
        if w.as_str().unicode_len() > 0 && !is_noise(w.as_str(), turn) {
            r.push(lower_ascii(w.as_str()));
        }
        i = i + 1;
    }
    assert(all.take(i as int) =~= all);
    r
}

/// The terms of a turn's own search.
pub fn turn_query_terms(query: &str, project_terms: &Vec<String>) -> (r: Vec<String>)
    ensures
        views(r@) == wanted(terms(query@), Some(views(project_terms@))),
{
    query_terms(query, Some(project_terms))
}

/// A text with every double quote in it doubled.
pub open spec fn doubled(s: Seq<char>) -> Seq<char>
    decreases s.len(),
{
    if s.len() == 0 {
        seq![]
    } else if s[0] == '"' {
        seq!['"', '"'] + doubled(s.drop_first())
    } else {
        seq![s[0]] + doubled(s.drop_first())
    }
}

/// A text in double quotes; a quote inside is doubled, as the query language has it.
pub open spec fn quoted(s: Seq<char>) -> Seq<char> {
    "\""@ + doubled(s) + "\""@
}

fn quote(s: &str) -> (r: String)
    ensures
        r@ == quoted(s@),
{
    let v = chars_of(s);
    let mut r = "\"".to_owned();
    let ghost head = r@;
    let mut i: usize = 0;
    assert(s@.skip(0) =~= s@);
    assert(r@ + doubled(s@.skip(0)) =~= head + doubled(s@));
    while i < v.len()
        invariant
            i <= v@.len(),
            v@ == s@,
            r@ + doubled(s@.skip(i as int)) == head + doubled(s@),
        decreases v.len() - i,
    {
        let ghost before = r@;
        let ghost rest = s@.skip(i as int);
        assert(rest.drop_first() =~= s@.skip(i + 1));
        if v[i] == '"' {
            r.push('"');
        }
        r.push(v[i]);
        assert(r@ + doubled(s@.skip(i + 1)) =~= before + doubled(rest));
        i = i + 1;
    }
    assert(doubled(s@.skip(i as int)) =~= seq![]);
    assert(r@ =~= head + doubled(s@));
    r.push('"');
    proof {
        reveal_strlit("\"");
        assert("\""@ =~= seq!['"']);
    }
    assert(r@ =~= quoted(s@));
    r
}

/// The full-text query for terms: each quoted, because bare punctuation is syntax.
pub open spec fn any_of(ts: Seq<Seq<char>>) -> Seq<char> {
    join(Seq::new(ts.len(), |i: int| quoted(ts[i])), " OR "@)
}

/// The full-text query for terms.
pub fn any_of_terms(ts: &Vec<String>) -> (r: String)
    ensures
        r@ == any_of(views(ts@)),
{
    let ghost all = views(ts@);
    let ghost want = Seq::new(all.len(), |i: int| quoted(all[i]));
    let mut out: Vec<String> = Vec::new();
    let mut i: usize = 0;
    assert(views(out@) =~= want.take(0));
    while i < ts.len()
        invariant
            i <= ts@.len(),
            all == views(ts@),
            want == Seq::new(all.len(), |i: int| quoted(all[i])),
            views(out@) == want.take(i as int),
        decreases ts.len() - i,
    {
        out.push(quote(ts[i].as_str()));
        assert(want.take(i + 1) =~= want.take(i as int).push(want[i as int]));
        i = i + 1;
    }
    assert(want.take(i as int) =~= want);
    joined(&out, " OR ")
}

/// The full-text query for any text.
pub fn fts_query(query: &str) -> (r: String)
    ensures
        r@ == any_of(wanted(terms(query@), None)),
        quote_count(r@) % 2 == 0,
{
    let ts = query_terms(query, None);
    proof {
        any_text_is_a_safe_query(views(ts@));
    }
    any_of_terms(&ts)
}

/// The full-text query of a turn.
pub fn turn_fts_query(query: &str, project_terms: &Vec<String>) -> (r: String)
    ensures
        r@ == any_of(wanted(terms(query@), Some(views(project_terms@)))),
        quote_count(r@) % 2 == 0,
{
    let ts = turn_query_terms(query, project_terms);
    proof {
        any_text_is_a_safe_query(views(ts@));
    }
    any_of_terms(&ts)
}

/// Texts in lower case.
pub open spec fn lowered(ws: Seq<Seq<char>>) -> Seq<Seq<char>> {
    Seq::new(ws.len(), |i: int| ascii_lowered(ws[i]))
}

fn lower_all(ws: &Vec<String>) -> (r: Vec<String>)
    ensures
        views(r@) == lowered(views(ws@)),
{
    let ghost want = lowered(views(ws@));
    let mut r: Vec<String> = Vec::new();
    let mut i: usize = 0;
    assert(views(r@) =~= want.take(0));
    while i < ws.len()
        invariant
            i <= ws@.len(),
            want == lowered(views(ws@)),
            views(r@) == want.take(i as int),
        decreases ws.len() - i,
    {
        r.push(lower_ascii(ws[i].as_str()));
        assert(want.take(i + 1) =~= want.take(i as int).push(want[i as int]));
        i = i + 1;
    }
    assert(want.take(i as int) =~= want);
    r
}

/// How many of the texts are among the others.
pub open spec fn shared(ts: Seq<Seq<char>>, held: Seq<Seq<char>>) -> nat
    decreases ts.len(),
{
    if ts.len() == 0 {
        0
    } else {
        shared(ts.drop_last(), held) + if held.contains(ts.last()) {
            1nat
        } else {
            0
        }
    }
}

/// The words of a row, in lower case.
pub open spec fn row_words(r: Row) -> Seq<Seq<char>> {
    lowered(terms(r.kind + " "@ + r.subject + " "@ + r.content))
}

/// How many of the terms stand in the row as whole words.
pub fn row_exact_term_count(row: &MemoryRow, ts: &Vec<String>) -> (r: usize)
    ensures
        r == shared(views(ts@), row_words(row@)),
{
    let mut text = row.kind.clone();
    text.append(" ");
    text.append(row.subject.as_str());
    text.append(" ");
    text.append(row.content.as_str());
    let ws = terms_of(text.as_str());
    let held = lower_all(&ws);
    let ghost all = views(ts@);
    let mut n: usize = 0;
    let mut i: usize = 0;
    while i < ts.len()
        invariant
            i <= ts@.len(),
            all == views(ts@),
            views(held@) == row_words(row@),
            n == shared(all.take(i as int), row_words(row@)),
            n <= i,
        decreases ts.len() - i,
    {
        let ghost next = all.take(i + 1);
        assert(next.drop_last() =~= all.take(i as int));
        assert(next.last() == ts@[i as int]@);
        if any_same(&held, ts[i].as_str()) {
            n = n + 1;
        }
        i = i + 1;
    }
    assert(all.take(i as int) =~= all);
    n
}

/// The project that a memory database belongs to.
pub open spec fn project_dir(path: Seq<char>) -> Option<Seq<char>> {
    match path_parent(path) {
        None => None,
        Some(dir) => if path_name(dir) == Some(".worksmith"@) {
            path_parent(dir)
        } else {
            None
        },
    }
}

/// The project that a memory database belongs to.
pub fn project_dir_from_memory_path(path: &str) -> (r: Option<String>)
    ensures
        opt_view(r) == project_dir(path@),
{
    match parent(path) {
        None => None,
        Some(dir) => match file_name(dir.as_str()) {
            None => None,
            Some(name) => if same(name.as_str(), ".worksmith") {
                parent(dir.as_str())
            } else {
                None
            },
        },
    }
}

/// The words of a project's name: they tell nothing apart within the project.
pub fn project_terms_from_dir(dir: &str) -> (r: Option<Vec<String>>)
    ensures
        ({
            let ws = match path_name(dir@) {
                None => seq![],
                Some(name) => lowered(terms(name)),
            };
            match r {
                Some(ts) => views(ts@) == ws && ws.len() > 0,
                None => ws.len() == 0,
            }
        }),
{
    match file_name(dir) {
        None => None,
        Some(name) => {
            let ws = terms_of(name.as_str());
            let ts = lower_all(&ws);
            if ts.len() == 0 {
                assert(views(ts@).len() == 0);
                None
            } else {
                Some(ts)
            }
        },
    }
}

// ---- what a turn is told ----------------------------------------------------

/// A search hit: the memory, and how well it matched. A score is the bit pattern of a
/// number that is not negative, which orders as the number does.
#[derive(Debug, Clone)]
pub struct Hit {
    pub row: MemoryRow,
    pub score: u64,
}

/// Hard-bounded memory budget for one model request.
#[derive(Debug, Clone, Copy, PartialEq, Eq, Structural)]
pub struct MemoryCaps {
    pub max_items: usize,
    pub max_chars: usize,
    pub max_item_chars: usize,
}

/// `n`, held between two bounds.
pub open spec fn between(n: int, low: int, high: int) -> int {
    if n < low {
        low
    } else if n > high {
        high
    } else {
        n
    }
}

impl MemoryCaps {
    /// The budget for a context window.
    pub fn for_context(context_window: usize) -> (r: MemoryCaps)
        ensures
            r.max_items == between(context_window as int / 16_000, 2, 8),
            r.max_chars == between(context_window as int / 32, 600, 2_400),
            r.max_item_chars == 320,
    {
        let items: usize = context_window / 16_000;
        let chars: usize = context_window / 32;
        MemoryCaps {
            max_items: if items < 2 {
                2
            } else if items > 8 {
                8
            } else {
                items
            },
            max_chars: if chars < 600 {
                600
            } else if chars > 2_400 {
                2_400
            } else {
                chars
            },
            max_item_chars: 320,
        }
    }
}

/// The score below which a memory is not worth a turn's attention: one fifth.
pub const TURN_MEMORY_MIN_SCORE: u64 = 0x3FC9_9999_9999_999A;

/// What a turn is told from memory.
#[derive(Debug, Clone, PartialEq, Eq)]
pub struct MemoryContext {
    pub text: String,
    pub ids: Vec<String>,
}

/// A better score comes first.
pub open spec fn scores_higher() -> spec_fn(Hit, Hit) -> bool {
    |a: Hit, b: Hit| a.score > b.score
}

/// A better score comes first, then the project's own memory, then the more important,
/// then the newer; ids decide the rest.
pub open spec fn hit_before(a: Hit, b: Hit) -> bool {
    let ap = a.row.scope@ == "project"@;
    let bp = b.row.scope@ == "project"@;
    if a.score != b.score {
        a.score > b.score
    } else if ap != bp {
        ap
    } else if a.row.importance != b.row.importance {
        a.row.importance > b.row.importance
    } else if a.row.updated_at != b.row.updated_at {
        a.row.updated_at > b.row.updated_at
    } else {
        !at_most(b.row.id@, a.row.id@)
    }
}

fn hit_precedes(a: &Hit, b: &Hit) -> (r: bool)
    ensures
        r == hit_before(*a, *b),
{
    let ap = same(a.row.scope.as_str(), "project");
    let bp = same(b.row.scope.as_str(), "project");
    if a.score != b.score {
        a.score > b.score
    } else if ap != bp {
        ap
    } else if a.row.importance != b.row.importance {
        a.row.importance > b.row.importance
    } else if a.row.updated_at != b.row.updated_at {
        a.row.updated_at > b.row.updated_at
    } else {
        !is_at_most(b.row.id.as_str(), a.row.id.as_str())
    }
}

/// The first `n` of a list, or all of it.
pub open spec fn first<T>(s: Seq<T>, n: nat) -> Seq<T> {
    if n < s.len() {
        s.take(n as int)
    } else {
        s
    }
}

/// The best hits of a search, best first.
pub fn best_hits(hits: Vec<Hit>, limit: usize) -> (r: Vec<Hit>)
    ensures
        r@ == first(ranked(hits@, scores_higher()), limit as nat),
{
    let mut r = in_rank(
        hits,
        |a: &Hit, b: &Hit| -> (c: bool) ensures c == scores_higher()(*a, *b) { a.score > b.score },
        Ghost(scores_higher()),
    );
    if limit < r.len() {
        r.truncate(limit);
        assert(r@ =~= ranked(hits@, scores_higher()).take(limit as int));
    }
    r
}

/// The hits that are worth a turn's attention: they score, and hold one of the turn's
/// own terms as a whole word.
pub open spec fn relevant(hits: Seq<Hit>, ts: Seq<Seq<char>>) -> Seq<Hit>
    decreases hits.len(),
{
    if hits.len() == 0 {
        seq![]
    } else {
        let before = relevant(hits.drop_last(), ts);
        let h = hits.last();
        if h.score >= TURN_MEMORY_MIN_SCORE && shared(ts, row_words(h.row@)) > 0 {
            before.push(h)
        } else {
            before
        }
    }
}

fn keep_relevant(hits: Vec<Hit>, ts: &Vec<String>) -> (r: Vec<Hit>)
    ensures
        r@ == relevant(hits@, views(ts@)),
{
    let ghost all = hits@;
    let mut rest = hits;
    let mut r: Vec<Hit> = Vec::new();
    let ghost mut done: nat = 0;
    assert(r@ =~= relevant(all.take(0), views(ts@)));
    while rest.len() > 0
        invariant
            done <= all.len(),
            rest@ == all.skip(done as int),
            r@ == relevant(all.take(done as int), views(ts@)),
        decreases rest.len(),
    {
        let h = rest.remove(0);
        assert(h == all[done as int]);
        proof {
            let next = all.take(done as int + 1);
            assert(next.drop_last() =~= all.take(done as int));
            assert(next.last() == h);
            done = done + 1;
            assert(rest@ =~= all.skip(done as int));
        }
        if h.score >= TURN_MEMORY_MIN_SCORE && row_exact_term_count(&h.row, ts) > 0 {
            r.push(h);
        }
    }
    assert(all.take(done as int) =~= all);
    r
}

/// `s` on one line, in at most `max` characters (one, where `max` is zero).
pub open spec fn compact(s: Seq<char>, max: nat) -> Seq<char> {
    let c = squeezed(s);
    if c.len() <= max {
        c
    } else {
        c.take(
            if max == 0 {
                0int
            } else {
                max - 1
            },
        ) + "…"@
    }
}

/// `s` on one line, in at most `max` characters.
pub fn compact_text(text: &str, max_chars: usize) -> (r: String)
    ensures
        r@ == compact(text@, max_chars as nat),
{
    let c = squeeze(text);
    let v = chars_of(c.as_str());
    if v.len() <= max_chars {
        return c;
    }
    let n: usize = if max_chars == 0 {
        0
    } else {
        max_chars - 1
    };
    let mut out = string_of(&v, 0, n);
    assert(out@ =~= c@.take(n as int));
    out.append("…");
    out
}

/// The line that tells a turn of a memory.
pub open spec fn memory_line(r: Row, max_item_chars: nat) -> Seq<char> {
    "- ["@ + r.scope + "/"@ + r.kind + "/"@ + short(r.id) + "] "@ + compact(r.subject, 80) + ": "@
        + compact(r.content, max_item_chars)
}

fn line_of(row: &MemoryRow, max_item_chars: usize) -> (r: String)
    ensures
        r@ == memory_line(row@, max_item_chars as nat),
{
    let mut s = "- [".to_owned();
    s.append(row.scope.as_str());
    s.append("/");
    s.append(row.kind.as_str());
    s.append("/");
    s.append(short_id(row.id.as_str()).as_str());
    s.append("] ");
    s.append(compact_text(row.subject.as_str(), 80).as_str());
    s.append(": ");
    s.append(compact_text(row.content.as_str(), max_item_chars).as_str());
    s
}

/// The lines that tell a turn of these memories.
pub open spec fn memory_lines(hits: Seq<Hit>, max_item_chars: nat) -> Seq<Seq<char>> {
    Seq::new(hits.len(), |i: int| memory_line(hits[i].row@, max_item_chars))
}

/// How many of the lines are told, when the first `i` are and take `used` bytes.
pub open spec fn lines_told(all: Seq<Seq<char>>, caps: MemoryCaps, used: nat, i: nat) -> nat
    decreases all.len() - i,
{
    if i >= all.len() || i >= caps.max_items || used + byte_len(all[i as int]) + 1
        > caps.max_chars {
        i
    } else {
        lines_told(all, caps, used + byte_len(all[i as int]) + 1, i + 1)
    }
}

/// How what a turn is told begins.
pub open spec fn told_head() -> Seq<char> {
    "Relevant memory for this turn:\n"@
}

/// The hits that are told of, in order, before the budget is spent.
pub open spec fn told_of(hits: Seq<Hit>, ts: Seq<Seq<char>>, caps: MemoryCaps) -> Seq<Hit> {
    let limit = if caps.max_items * 3 > usize::MAX {
        usize::MAX as nat
    } else {
        (caps.max_items * 3) as nat
    };
    ranked(
        relevant(first(ranked(hits, scores_higher()), limit), ts),
        |a: Hit, b: Hit| hit_before(a, b),
    )
}

/// What a turn is told from memory: a small, relevant block within the caps, apart from
/// the stable system prompt. `hits` is what the search found.
pub fn turn_context_with_caps(
    hits: Vec<Hit>,
    query: &str,
    project_terms: &Vec<String>,
    caps: MemoryCaps,
) -> (r: Option<MemoryContext>)
    ensures
        ({
            let ts = wanted(terms(query@), Some(views(project_terms@)));
            let told = told_of(hits@, ts, caps);
            let all = memory_lines(told, caps.max_item_chars as nat);
            let n = lines_told(all, caps, byte_len(told_head()), 0) as int;
            match r {
                None => n == 0,
                Some(c) => {
                    &&& 0 < n <= all.len()
                    &&& c.text@ == told_head() + join(all.take(n), "\n"@)
                    &&& views(c.ids@) == Seq::new(n as nat, |i: int| told[i].row.id@)
                },
            }
        }),
{
    let ts = turn_query_terms(query, project_terms);
    let limit: usize = if caps.max_items > usize::MAX / 3 {
        usize::MAX
    } else {
        caps.max_items * 3
    };
    let best = best_hits(hits, limit);
    let kept = keep_relevant(best, &ts);
    let told = in_rank(
        kept,
        |a: &Hit, b: &Hit| -> (c: bool) ensures c == hit_before(*a, *b) { hit_precedes(a, b) },
        Ghost(|a: Hit, b: Hit| hit_before(a, b)),
    );
    assert(told@ == told_of(hits@, views(ts@), caps));
    let ghost all = memory_lines(told@, caps.max_item_chars as nat);
    let mut ids: Vec<String> = Vec::new();
    let mut said: Vec<String> = Vec::new();
    let mut used: u128 = utf8_len("Relevant memory for this turn:\n");
    let mut i: usize = 0;
    let mut open = true;
    assert(views(said@) =~= all.take(0));
    assert(views(ids@) =~= Seq::new(0, |k: int| told@[k].row.id@));
    while open && i < told.len() && i < caps.max_items
        invariant
            i <= told@.len(),
            i <= caps.max_items,
            all == memory_lines(told@, caps.max_item_chars as nat),
            views(said@) == all.take(i as int),
            views(ids@) == Seq::new(i as nat, |k: int| told@[k].row.id@),
            open ==> lines_told(all, caps, used as nat, i as nat) == lines_told(
                all,
                caps,
                byte_len(told_head()),
                0,
            ),
            !open ==> i == lines_told(all, caps, byte_len(told_head()), 0),
            used <= caps.max_chars || i == 0,
            used == byte_len(told_head()) || i > 0,
        decreases
            told.len() - i,
            if open {
                1int
            } else {
                0
            },
    {
        let line = line_of(&told[i].row, caps.max_item_chars);
        assert(line@ == all[i as int]);
        let len = utf8_len(line.as_str());
        if len >= caps.max_chars as u128 || used > caps.max_chars as u128 || used + len + 1
            > caps.max_chars as u128 {
            open = false;
        } else {
            used = used + len + 1;
            ids.push(told[i].row.id.clone());
            said.push(line);
            assert(all.take(i + 1) =~= all.take(i as int).push(all[i as int]));
            assert(Seq::new((i + 1) as nat, |k: int| told@[k].row.id@) =~= Seq::new(
                i as nat,
                |k: int| told@[k].row.id@,
            ).push(told@[i as int].row.id@));
            i = i + 1;
        }
    }
    if said.len() == 0 {
        assert(all.take(i as int).len() == 0);
        return None;
    }
    let mut text = "Relevant memory for this turn:\n".to_owned();
    text.append(joined(&said, "\n").as_str());
    assert(views(said@).len() == i);
    Some(MemoryContext { text, ids })
}

/// What a turn is told from memory, within the budget of its context window.
pub fn turn_context(
    hits: Vec<Hit>,
    query: &str,
    project_terms: &Vec<String>,
    context_window: usize,
) -> (r: Option<MemoryContext>)
    ensures
        ({
            let caps = MemoryCaps {
                max_items: between(context_window as int / 16_000, 2, 8) as usize,
                max_chars: between(context_window as int / 32, 600, 2_400) as usize,
                max_item_chars: 320,
            };
            let ts = wanted(terms(query@), Some(views(project_terms@)));
            let told = told_of(hits@, ts, caps);
            let all = memory_lines(told, 320);
            let n = lines_told(all, caps, byte_len(told_head()), 0) as int;
            match r {
                None => n == 0,
                Some(c) => {
                    &&& 0 < n <= all.len()
                    &&& c.text@ == told_head() + join(all.take(n), "\n"@)
                    &&& views(c.ids@) == Seq::new(n as nat, |i: int| told[i].row.id@)
                },
            }
        }),
{
    turn_context_with_caps(hits, query, project_terms, MemoryCaps::for_context(context_window))
}

// ---- the section for the prompt ---------------------------------------------

/// The more important comes first, then the newer.
pub open spec fn row_before(a: MemoryRow, b: MemoryRow) -> bool {
    if a.importance != b.importance {
        a.importance > b.importance
    } else {
        a.updated_at > b.updated_at
    }
}

fn row_precedes(a: &MemoryRow, b: &MemoryRow) -> (r: bool)
    ensures
        r == row_before(*a, *b),
{
    if a.importance != b.importance {
        a.importance > b.importance
    } else {
        a.updated_at > b.updated_at
    }
}

/// The line of a memory in the section.
pub open spec fn section_line(r: Row) -> Seq<char> {
    "- ["@ + r.kind + "] "@ + r.subject + ": "@ + r.content + "\n"@
}

/// The lines of the memories that are global, or of those that are not.
pub open spec fn section_lines(v: Seq<MemoryRow>, global: bool) -> Seq<Seq<char>>
    decreases v.len(),
{
    if v.len() == 0 {
        seq![]
    } else {
        let before = section_lines(v.drop_last(), global);
        let r = v.last();
        if (r.scope@ == "global"@) == global {
            before.push(section_line(r@))
        } else {
            before
        }
    }
}

/// Lines under a heading; nothing where there are no lines.
pub open spec fn headed(head: Seq<char>, ls: Seq<Seq<char>>) -> Seq<char> {
    if ls.len() == 0 {
        seq![]
    } else {
        head + concat(ls)
    }
}

/// The section for the prompt.
pub open spec fn section(v: Seq<MemoryRow>, limit: nat) -> Seq<char> {
    let shown = first(ranked(v, |a: MemoryRow, b: MemoryRow| row_before(a, b)), limit);
    if shown.len() == 0 {
        seq![]
    } else {
        "<MEMORY>\n"@ + headed("Relevant global memories:\n"@, section_lines(shown, true)) + headed(
            "Relevant project memories:\n"@,
            section_lines(shown, false),
        ) + "</MEMORY>\n"@
    }
}

fn section_part(v: &Vec<MemoryRow>, global: bool, head: &str) -> (r: String)
    ensures
        r@ == headed(head@, section_lines(v@, global)),
{
    let mut ls: Vec<String> = Vec::new();
    let mut i: usize = 0;
    assert(views(ls@) =~= section_lines(v@.take(0), global));
    while i < v.len()
        invariant
            i <= v@.len(),
            views(ls@) == section_lines(v@.take(i as int), global),
        decreases v.len() - i,
    {
        let row = &v[i];
        let ghost next = v@.take(i + 1);
        assert(next.drop_last() =~= v@.take(i as int));
        assert(next.last() == row);
        if same(row.scope.as_str(), "global") == global {
            let mut s = "- [".to_owned();
            s.append(row.kind.as_str());
            s.append("] ");
            s.append(row.subject.as_str());
            s.append(": ");
            s.append(row.content.as_str());
            s.append("\n");
            ls.push(s);
        }
        i = i + 1;
    }
    assert(v@.take(i as int) =~= v@);
    let ghost all = views(ls@);
    if ls.len() == 0 {
        assert(all.len() == 0);
        let none = String::new();
        assert(none@ =~= seq![]);
        return none;
    }
    let mut out = head.to_owned();
    let mut k: usize = 0;
    assert(out@ =~= head@ + concat(all.take(0)));
    while k < ls.len()
        invariant
            k <= ls@.len(),
            all == views(ls@),
            out@ == head@ + concat(all.take(k as int)),
        decreases ls.len() - k,
    {
        out.append(ls[k].as_str());
        assert(all.take(k + 1) =~= all.take(k as int).push(all[k as int]));
        assert(out@ =~= head@ + concat(all.take(k + 1)));
        k = k + 1;
    }
    assert(all.take(k as int) =~= all);
    out
}

/// A compact block of active memories, the important ones first, capped; nothing where
/// there are none.
pub fn memory_section(stored: Vec<MemoryRow>, limit: usize) -> (r: String)
    ensures
        r@ == section(stored@, limit as nat),
{
    let ghost order = |a: MemoryRow, b: MemoryRow| row_before(a, b);
    let mut shown = in_rank(
        stored,
        |a: &MemoryRow, b: &MemoryRow| -> (c: bool) ensures c == row_before(*a, *b) { row_precedes(a, b) },
        Ghost(order),
    );
    if limit < shown.len() {
        shown.truncate(limit);
        assert(shown@ =~= ranked(stored@, order).take(limit as int));
    }
    assert(shown@ == first(ranked(stored@, order), limit as nat));
    if shown.len() == 0 {
        let none = String::new();
        assert(none@ =~= seq![]);
        return none;
    }
    let mut out = "<MEMORY>\n".to_owned();
    out.append(section_part(&shown, true, "Relevant global memories:\n").as_str());
    out.append(section_part(&shown, false, "Relevant project memories:\n").as_str());
    out.append("</MEMORY>\n");
    out
}

// ---- candidates -------------------------------------------------------------

/// The prompt for extraction at the end of a task. Deliberately biased toward saving
/// nothing: a store where every row feels intentional is worth more than a complete
/// one.
pub const EXTRACTION_PROMPT: &'static str = "\
You are evaluating whether anything in a completed coding task should be stored \
as durable agent memory.

Durable memory is information that will materially improve future work.

SAVE when it records: a durable decision; a persistent user preference; a \
requirement or constraint; a non-obvious lesson that prevents repeated work; or \
a durable fact not obvious from the project's own source.

DO NOT SAVE: intermediate reasoning, temporary hypotheses, tool output, file \
contents, line numbers, routine implementation details, completed one-time \
actions, generic programming knowledge, duplicates, or anything unlikely to \
matter again.

Prefer ZERO memories. A normal task produces 0-3. Each memory holds exactly one \
durable idea, stated in one or two sentences.

Output one line per memory, and nothing else:
scope|kind|subject|content|importance

scope: global (true everywhere) or project (this repo only)
kind: decision, constraint, preference, fact, or lesson
subject: a short topic key, 1-4 words
importance: 0-100

If nothing is worth keeping, output exactly: NONE";

/// A memory that the extractor proposed, before it is written anywhere.
#[derive(Debug, Clone, PartialEq, Eq)]
pub struct Candidate {
    pub scope: Scope,
    pub kind: String,
    pub subject: String,
    pub content: String,
    pub importance: i64,
}

/// What a candidate says.
pub struct Idea {
    pub scope: Scope,
    pub kind: Seq<char>,
    pub subject: Seq<char>,
    pub content: Seq<char>,
    pub importance: int,
}

impl View for Candidate {
    type V = Idea;

    open spec fn view(&self) -> Idea {
        Idea {
            scope: self.scope,
            kind: self.kind@,
            subject: self.subject@,
            content: self.content@,
            importance: self.importance as int,
        }
    }
}

/// What a list of candidates says.
pub open spec fn ideas(v: Seq<Candidate>) -> Seq<Idea> {
    Seq::new(v.len(), |i: int| v[i]@)
}

/// What a line of the extractor says, if it is well-formed.
pub open spec fn idea_in(line: Seq<char>) -> Option<Idea> {
    let l = trim(line);
    let parts = split_at_most(l, '|', 5);
    if l.len() == 0 || ascii_lowered(l) == "none"@ || parts.len() < 4 {
        None
    } else {
        let kind = lowercase(trim(parts[1]));
        match scope_named(lowercase(trim(parts[0]))) {
            None => None,
            Some(scope) => if !durable_kind(kind) || trim(parts[2]).len() == 0 || trim(
                parts[3],
            ).len() == 0 {
                None
            } else {
                Some(
                    Idea {
                        scope,
                        kind,
                        subject: trim(parts[2]),
                        content: trim(parts[3]),
                        importance: if parts.len() > 4 {
                            match parse_int(trim(parts[4])) {
                                Some(n) => between(n, 0, 100),
                                None => 60,
                            }
                        } else {
                            60
                        },
                    },
                )
            },
        }
    }
}

/// What the well-formed lines of the extractor say.
pub open spec fn ideas_in(ls: Seq<Seq<char>>) -> Seq<Idea>
    decreases ls.len(),
{
    if ls.len() == 0 {
        seq![]
    } else {
        match idea_in(ls.last()) {
            Some(x) => ideas_in(ls.drop_last()).push(x),
            None => ideas_in(ls.drop_last()),
        }
    }
}

fn parse_candidate(line: &str) -> (r: Option<Candidate>)
    ensures
        match r {
            Some(c) => idea_in(line@) == Some(c@),
            None => idea_in(line@) is None,
        },
{
    let l = trimmed(line);
    if l.as_str().unicode_len() == 0 || same(lower_ascii(l.as_str()).as_str(), "none") {
        return None;
    }
    let parts = pieces_at_most(l.as_str(), '|', 5);
    let ghost all = views(parts@);
    assert(all == split_at_most(trim(line@), '|', 5));
    if parts.len() < 4 {
        return None;
    }
    let scope = match Scope::parse(trimmed(parts[0].as_str()).as_str().to_lowercase().as_str()) {
        Some(s) => s,
        None => return None,
    };
    let kind = trimmed(parts[1].as_str()).as_str().to_lowercase();
    if !is_kind(kind.as_str()) {
        return None;
    }
    let subject = trimmed(parts[2].as_str());
    let content = trimmed(parts[3].as_str());
    if subject.as_str().unicode_len() == 0 || content.as_str().unicode_len() == 0 {
        return None;
    }
    let mut importance: i64 = 60;
    if parts.len() > 4 {
        if let Some(n) = parse_integer(trimmed(parts[4].as_str()).as_str()) {
            importance = if n < 0 {
                0
            } else if n > 100 {
                100
            } else {
                n
            };
        }
    }
    Some(Candidate { scope, kind, subject, content, importance })
}

/// The extractor's `scope|kind|subject|content|importance` lines. Junk lines are
/// dropped: a malformed suggestion does not cost the well-formed ones.
pub fn parse_candidates(text: &str) -> (r: Vec<Candidate>)
    ensures
        ideas(r@) == ideas_in(lines(text@)),
{
    let ls = lines_of(text);
    let ghost all = views(ls@);
    let mut out: Vec<Candidate> = Vec::new();
    let mut i: usize = 0;
    assert(ideas(out@) =~= ideas_in(all.take(0)));
    while i < ls.len()
        invariant
            i <= ls@.len(),
            all == views(ls@),
            ideas(out@) == ideas_in(all.take(i as int)),
        decreases ls.len() - i,
    {
        let ghost next = all.take(i + 1);
        assert(next.drop_last() =~= all.take(i as int));
        assert(next.last() == ls@[i as int]@);
        if let Some(c) = parse_candidate(ls[i].as_str()) {
            let ghost before = out@;
            out.push(c);
            assert(ideas(out@) =~= ideas(before).push(c@));
        }
        i = i + 1;
    }
    assert(all.take(i as int) =~= all);
    out
}

// ---- laws -------------------------------------------------------------------

proof fn lemma_told_fits(all: Seq<Seq<char>>, caps: MemoryCaps, used: nat, i: nat)
    requires
        i <= all.len(),
        i <= caps.max_items,
        i > 0 ==> used <= caps.max_chars,
        used == byte_len(told_head()) + byte_len(join(all.take(i as int), "\n"@)) + if i > 0 {
            1nat
        } else {
            0
        },
    ensures
        ({
            let n = lines_told(all, caps, used, i);
            &&& i <= n <= all.len()
            &&& n <= caps.max_items
            &&& n > 0 ==> byte_len(told_head() + join(all.take(n as int), "\n"@)) <= caps.max_chars
        }),
    decreases all.len() - i,
{
    if i >= all.len() || i >= caps.max_items || used + byte_len(all[i as int]) + 1 > caps.max_chars {
        lemma_byte_len_cat(told_head(), join(all.take(i as int), "\n"@));
    } else {
        let t = all.take(i as int);
        let x = all[i as int];
        assert(all.take(i as int + 1) =~= t.push(x));
        assert(join(t.push(x), "\n"@) == if t.len() == 0 {
            x
        } else {
            join(t, "\n"@) + "\n"@ + x
        });
        reveal_strlit("\n");
        assert("\n"@ =~= seq!['\n']);
        assert(byte_len("\n"@) == 1) by {
            assert("\n"@.drop_last() =~= Seq::<char>::empty());
            assert(byte_len("\n"@.drop_last()) == 0);
        }
        if i > 0 {
            lemma_byte_len_cat(join(t, "\n"@) + "\n"@, x);
            lemma_byte_len_cat(join(t, "\n"@), "\n"@);
        } else {
            assert(join(t, "\n"@).len() == 0);
            assert(byte_len(join(t, "\n"@)) == 0);
        }
        lemma_told_fits(all, caps, used + byte_len(x) + 1, i + 1);
    }
}

/// The budget is hard: what a turn is told fits into the bytes and the number of items
/// that it has.
pub proof fn what_is_told_fits(hits: Seq<Hit>, caps: MemoryCaps)
    ensures
        ({
            let all = memory_lines(hits, caps.max_item_chars as nat);
            let n = lines_told(all, caps, byte_len(told_head()), 0);
            &&& n <= caps.max_items
            &&& n > 0 ==> byte_len(told_head() + join(all.take(n as int), "\n"@)) <= caps.max_chars
        }),
{
    let all = memory_lines(hits, caps.max_item_chars as nat);
    assert(join(all.take(0), "\n"@).len() == 0);
    assert(byte_len(join(all.take(0), "\n"@)) == 0);
    lemma_told_fits(all, caps, byte_len(told_head()), 0);
}

/// Every candidate can be stored: its kind is durable, its subject and content are not
/// empty, and its importance is a percentage.
pub proof fn candidates_are_storable(ls: Seq<Seq<char>>)
    ensures
        forall|i: int|
            0 <= i < ideas_in(ls).len() ==> {
                let x = #[trigger] ideas_in(ls)[i];
                durable_kind(x.kind) && x.subject.len() > 0 && x.content.len() > 0 && 0
                    <= x.importance <= 100
            },
    decreases ls.len(),
{
    if ls.len() > 0 {
        candidates_are_storable(ls.drop_last());
        let before = ideas_in(ls.drop_last());
        assert forall|i: int| 0 <= i < ideas_in(ls).len() implies {
            let x = #[trigger] ideas_in(ls)[i];
            durable_kind(x.kind) && x.subject.len() > 0 && x.content.len() > 0 && 0 <= x.importance
                <= 100
        } by {
            if i < before.len() {
                assert(ideas_in(ls)[i] == before[i]);
            }
        }
    }
}

/// Junk costs nothing: a line that is not well-formed leaves the candidates of the
/// others as they are.
pub proof fn junk_is_dropped(before: Seq<Seq<char>>, junk: Seq<char>, after: Seq<Seq<char>>)
    requires
        idea_in(junk) is None,
    ensures
        ideas_in(before.push(junk) + after) == ideas_in(before + after),
    decreases after.len(),
{
    let a = before.push(junk) + after;
    let b = before + after;
    if after.len() == 0 {
        assert(a.drop_last() =~= before);
        assert(b =~= before);
    } else {
        assert(a.drop_last() =~= before.push(junk) + after.drop_last());
        assert(b.drop_last() =~= before + after.drop_last());
        junk_is_dropped(before, junk, after.drop_last());
    }
}

/// The order of a turn's hits is one: what is told first is never worse than what
/// follows it.
pub proof fn the_best_hits_come_first()
    ensures
        is_ranking(|a: Hit, b: Hit| hit_before(a, b)),
        is_ranking(scores_higher()),
        is_ranking(|a: MemoryRow, b: MemoryRow| row_before(a, b)),
{
    let p = |a: Hit, b: Hit| hit_before(a, b);
    assert forall|a: Hit, b: Hit| #[trigger] p(a, b) implies !p(b, a) by {
        lemma_total(a.row.id@, b.row.id@);
    }
    assert forall|a: Hit, b: Hit, c: Hit| !(#[trigger] p(a, b)) && !(#[trigger] p(b, c)) implies !p(
        a,
        c,
    ) by {
        if at_most(b.row.id@, a.row.id@) && at_most(c.row.id@, b.row.id@) {
            lemma_transitive(c.row.id@, b.row.id@, a.row.id@);
        }
    }
}

/// A memory is only ever superseded by one of the same scope, kind and subject.
pub proof fn superseding_stays_on_the_subject(
    proposal: Row,
    old: Row,
    proposal_id: Seq<char>,
    old_id: Seq<char>,
)
    requires
        supersede_refused(proposal, Some(old), proposal_id, old_id) is None,
    ensures
        old.status == "active"@,
        proposal.status == "proposed"@,
        old.scope == proposal.scope,
        old.kind == proposal.kind,
        old.subject == proposal.subject,
{
}

/// What a worker writes, or what is mined, is not active until it is approved; and
/// approval changes nothing else about it.
pub proof fn proposals_wait_for_approval(row: Row, ts: i64)
    ensures
        proposed_row(row).status != "active"@,
        approved_row(proposed_row(row), ts) == (Row { status: "active"@, updated_at: ts, ..row }),
{
    reveal_strlit("proposed");
    reveal_strlit("active");
    assert("proposed"@.len() == 8 && "active"@.len() == 6);
}

/// A memory is never silently overwritten: one that was superseded is no longer active,
/// and still says all that it said.
pub proof fn nothing_is_overwritten(old: Row, ts: i64)
    ensures
        ({
            let r = retired_row(old, ts);
            &&& r.status != "active"@
            &&& r.id == old.id && r.scope == old.scope && r.kind == old.kind
            &&& r.subject == old.subject && r.content == old.content
            &&& r.importance == old.importance && r.created_at == old.created_at
            &&& r.supersedes_id == old.supersedes_id
        }),
{
    reveal_strlit("superseded");
    reveal_strlit("active");
    assert("superseded"@.len() == 10 && "active"@.len() == 6);
}

/// Does every double quote in a text come as one of a pair, so that none ends the quoted
/// term that the text stands in?
pub open spec fn paired(s: Seq<char>) -> bool
    decreases s.len(),
{
    if s.len() == 0 {
        true
    } else if s[0] == '"' {
        s.len() >= 2 && s[1] == '"' && paired(s.skip(2))
    } else {
        paired(s.drop_first())
    }
}

/// How many double quotes a text has.
pub open spec fn quote_count(s: Seq<char>) -> nat
    decreases s.len(),
{
    if s.len() == 0 {
        0
    } else {
        quote_count(s.drop_last()) + if s.last() == '"' {
            1nat
        } else {
            0
        }
    }
}

proof fn lemma_quote_count(a: Seq<char>, b: Seq<char>)
    ensures
        quote_count(a + b) == quote_count(a) + quote_count(b),
    decreases b.len(),
{
    if b.len() == 0 {
        assert(a + b =~= a);
    } else {
        lemma_quote_count(a, b.drop_last());
        assert((a + b).drop_last() =~= a + b.drop_last());
    }
}

proof fn lemma_doubled(s: Seq<char>)
    ensures
        paired(doubled(s)),
        quote_count(doubled(s)) % 2 == 0,
    decreases s.len(),
{
    if s.len() > 0 {
        let rest = doubled(s.drop_first());
        lemma_doubled(s.drop_first());
        let d = doubled(s);
        if s[0] == '"' {
            let two = seq!['"', '"'];
            assert(d.skip(2) =~= rest);
            lemma_quote_count(two, rest);
            assert(two.drop_last() =~= seq!['"']);
            assert(quote_count(two.drop_last().drop_last()) == 0);
            assert(quote_count(two.drop_last()) == 1);
        } else {
            let one = seq![s[0]];
            assert(d.drop_first() =~= rest);
            lemma_quote_count(one, rest);
            assert(quote_count(one.drop_last()) == 0);
            assert(one.last() == s[0]);
        }
    }
}

proof fn lemma_joined_quotes(parts: Seq<Seq<char>>)
    requires
        forall|i: int| 0 <= i < parts.len() ==> quote_count(#[trigger] parts[i]) % 2 == 0,
    ensures
        quote_count(join(parts, " OR "@)) % 2 == 0,
    decreases parts.len(),
{
    if parts.len() > 0 {
        let front = parts.drop_last();
        let x = parts.last();
        assert forall|i: int| 0 <= i < front.len() implies quote_count(#[trigger] front[i]) % 2
            == 0 by {
            assert(front[i] == parts[i]);
        }
        lemma_joined_quotes(front);
        assert(parts =~= front.push(x));
        assert(quote_count(x) % 2 == 0) by {
            assert(x == parts[parts.len() - 1]);
        }
        reveal_strlit(" OR ");
        let or = " OR "@;
        assert(or =~= seq![' ', 'O', 'R', ' ']);
        assert(quote_count(or) == 0) by {
            let a = or.drop_last();
            let b = a.drop_last();
            let c = b.drop_last();
            assert(quote_count(c.drop_last()) == 0);
            assert(quote_count(c) == 0 && quote_count(b) == 0 && quote_count(a) == 0);
        }
        lemma_quote_count(join(front, or), or);
        lemma_quote_count(join(front, or) + or, x);
    }
}

/// Any text is a safe query: in each term of it no quote stands alone, so that none ends
/// the term, and the quotes of the whole come in pairs.
pub proof fn any_text_is_a_safe_query(ts: Seq<Seq<char>>)
    ensures
        forall|i: int|
            0 <= i < ts.len() ==> quoted(#[trigger] ts[i]) == seq!['"'] + doubled(ts[i]) + seq!['"']
                && paired(doubled(ts[i])),
        quote_count(any_of(ts)) % 2 == 0,
{
    reveal_strlit("\"");
    let mark = "\""@;
    assert(mark =~= seq!['"']);
    let parts = Seq::new(ts.len(), |i: int| quoted(ts[i]));
    assert(quote_count(mark) == 1) by {
        assert(quote_count(mark.drop_last()) == 0);
    }
    assert forall|i: int| 0 <= i < ts.len() implies quote_count(#[trigger] parts[i]) % 2 == 0
        && paired(doubled(ts[i])) by {
        lemma_doubled(ts[i]);
        lemma_quote_count(mark, doubled(ts[i]));
        lemma_quote_count(mark + doubled(ts[i]), mark);
    }
    assert forall|i: int| 0 <= i < ts.len() implies quoted(#[trigger] ts[i]) == seq!['"'] + doubled(
        ts[i],
    ) + seq!['"'] && paired(doubled(ts[i])) by {
        assert(quote_count(parts[i]) % 2 == 0);
    }
    lemma_joined_quotes(parts);
}

// ---- what must hold of stored memories --------------------------------------

/// Two memories are the same just where they are on the same subject, of the same kind, and
/// say the same but for case and white space; and one that was superseded is the same as
/// none.
pub proof fn sameness_is_of_what_is_said(
    row: Row,
    kind: Seq<char>,
    subject: Seq<char>,
    content: Seq<char>,
)
    ensures
        duplicates(row, kind, subject, content) ==> row.kind == kind && row.subject == subject && (
        row.status == "active"@ || row.status == "proposed"@) && lowercase(
            join(words(row.content), " "@),
        ) == lowercase(join(words(content), " "@)),
        row.kind == kind && row.subject == subject && words(row.content) == words(content) && (
        row.status == "active"@ || row.status == "proposed"@) ==> duplicates(
            row,
            kind,
            subject,
            content,
        ),
        row.status == "superseded"@ ==> !duplicates(row, kind, subject, content),
{
    reveal_strlit("superseded");
    reveal_strlit("active");
    reveal_strlit("proposed");
    assert("superseded"@.len() == 10 && "active"@.len() == 6 && "proposed"@.len() == 8);
}

/// A memory that is written holds what was given, and nothing is known of it but that.
pub proof fn a_memory_holds_what_was_given(
    scope: Scope,
    kind: Seq<char>,
    subject: Seq<char>,
    content: Seq<char>,
    importance: i64,
    id: Seq<char>,
    ts: i64,
)
    ensures
        ({
            let r = new_row(scope, kind, subject, content, importance, id, ts);
            &&& r.id == id
            &&& scope_named(r.scope) == Some(scope)
            &&& r.kind == kind
            &&& r.subject == subject
            &&& r.content == content
            &&& r.importance == importance
            &&& r.created_at == ts
            &&& r.updated_at == ts
            &&& r.supersedes_id is None
            &&& r.status == "active"@
            &&& proposed_row(r) == (Row { status: "proposed"@, ..r })
            &&& duplicates(r, kind, subject, content)
            &&& duplicates(proposed_row(r), kind, subject, content)
        }),
{
    reveal_strlit("global");
    reveal_strlit("project");
    assert("global"@.len() == 6 && "project"@.len() == 7);
}

/// A write is refused just where its kind is none of the durable ones, or it is for a
/// project and there is none.
pub proof fn only_what_is_durable_is_written(scope: Scope, has_project: bool, kind: Seq<char>)
    ensures
        write_refused(scope, has_project, kind) is None <==> (kind == "decision"@ || kind
            == "constraint"@ || kind == "preference"@ || kind == "fact"@ || kind == "lesson"@) && (
        scope == Scope::Global || has_project),
        !durable_kind(kind) ==> (write_refused(scope, has_project, kind) matches Some(e)
            && crate::text::contains(e, kind)),
{
    if !durable_kind(kind) {
        crate::wording::a_part_stands_in_the_whole(
            "invalid kind `"@,
            kind,
            "`; expected one of [\"decision\", \"constraint\", \"preference\", \"fact\", \"lesson\"]"@,
        );
    }
}

/// What is compared with a proposal is every active memory on its subject and of its kind,
/// once each and in order, and no other.
pub proof fn what_a_proposal_is_compared_with(
    v: Seq<Row>,
    r: Row,
    subject: Seq<char>,
    kind: Seq<char>,
)
    ensures
        r.status == "active"@ && r.subject == subject && r.kind == kind ==> about(
            v.push(r),
            subject,
            kind,
        ) == about(v, subject, kind).push(r),
        !(r.status == "active"@ && r.subject == subject && r.kind == kind) ==> about(
            v.push(r),
            subject,
            kind,
        ) == about(v, subject, kind),
        about(seq![], subject, kind).len() == 0,
        forall|x: Row|
            #[trigger] about(v, subject, kind).contains(x) <==> v.contains(x) && x.status
                == "active"@ && x.subject == subject && x.kind == kind,
    decreases v.len(),
{
    assert(v.push(r).drop_last() =~= v);
    if v.len() > 0 {
        let w = v.drop_last();
        let y = v.last();
        what_a_proposal_is_compared_with(w, y, subject, kind);
        assert(w.push(y) =~= v);
        let a = about(w, subject, kind);
        assert forall|x: Row| #[trigger] about(v, subject, kind).contains(x) <==> v.contains(x)
            && x.status == "active"@ && x.subject == subject && x.kind == kind by {
            assert(a.contains(x) <==> w.contains(x) && x.status == "active"@ && x.subject == subject
                && x.kind == kind);
            lemma_push_holds(w, y, x);
            lemma_push_holds(a, y, x);
        }
    }
}

proof fn lemma_push_holds<T>(s: Seq<T>, y: T, x: T)
    ensures
        s.push(y).contains(x) <==> s.contains(x) || x == y,
{
    if s.contains(x) {
        let i = choose|i: int| 0 <= i < s.len() && s[i] == x;
        assert(s.push(y)[i] == x);
    }
    if x == y {
        assert(s.push(y)[s.len() as int] == x);
    }
}

/// The terms of a query are its words, in order and in small letters, but for those that
/// say nothing: outside a turn none says nothing, in a turn the common words and those of
/// the project's name do.
pub proof fn a_query_keeps_what_says_something(
    ws: Seq<Seq<char>>,
    w: Seq<char>,
    project: Seq<Seq<char>>,
)
    ensures
        wanted(seq![], None).len() == 0,
        wanted(seq![], Some(project)).len() == 0,
        trim(w).len() > 0 ==> wanted(ws.push(w), None) == wanted(ws, None).push(
            ascii_lowered(trim(w)),
        ),
        trim(w).len() == 0 ==> wanted(ws.push(w), None) == wanted(ws, None),
        ({
            let says_nothing = trim(w).len() == 0 || project.contains(ascii_lowered(trim(w)))
                || common_word(ascii_lowered(trim(w)));
            &&& says_nothing ==> wanted(ws.push(w), Some(project)) == wanted(ws, Some(project))
            &&& !says_nothing ==> wanted(ws.push(w), Some(project)) == wanted(
                ws,
                Some(project),
            ).push(ascii_lowered(trim(w)))
        }),
{
    assert(ws.push(w).drop_last() =~= ws);
}

/// How many terms a memory shares with a query: none just where it holds none of them, and
/// one more for each that it holds.
pub proof fn terms_are_shared_one_by_one(
    ts: Seq<Seq<char>>,
    t: Seq<char>,
    held: Seq<Seq<char>>,
)
    ensures
        shared(ts.push(t), held) == shared(ts, held) + if held.contains(t) {
            1nat
        } else {
            0
        },
        shared(ts, held) > 0 <==> exists|i: int| 0 <= i < ts.len() && held.contains(#[trigger] ts[i]),
    decreases ts.len(),
{
    assert(ts.push(t).drop_last() =~= ts);
    if ts.len() > 0 {
        let us = ts.drop_last();
        terms_are_shared_one_by_one(us, ts.last(), held);
        if shared(us, held) > 0 {
            let i = choose|i: int| 0 <= i < us.len() && held.contains(#[trigger] us[i]);
            assert(held.contains(ts[i]));
        }
        if held.contains(ts.last()) {
            assert(held.contains(ts[ts.len() - 1]));
        }
        if exists|i: int| 0 <= i < ts.len() && held.contains(#[trigger] ts[i]) {
            let i = choose|i: int| 0 <= i < ts.len() && held.contains(#[trigger] ts[i]);
            if i < us.len() {
                assert(held.contains(us[i]));
            }
        }
    }
}

/// What a memory is found by: its kind, its subject and its content, in small letters.
pub proof fn a_memory_is_found_by_all_its_words(r: Row)
    ensures
        row_words(r) == Seq::new(
            terms(r.kind + " "@ + r.subject + " "@ + r.content).len(),
            |i: int| ascii_lowered(terms(r.kind + " "@ + r.subject + " "@ + r.content)[i]),
        ),
{
    assert(row_words(r) =~= Seq::new(
        terms(r.kind + " "@ + r.subject + " "@ + r.content).len(),
        |i: int| ascii_lowered(terms(r.kind + " "@ + r.subject + " "@ + r.content)[i]),
    ));
}

/// The memories that are told in a turn are hits that score enough and share a term with
/// the query, and the first of two is the one that scores higher; of equal ones that of the
/// project, then the more important, then the newer.
pub proof fn what_is_told_is_relevant(
    hits: Seq<Hit>,
    ts: Seq<Seq<char>>,
    caps: MemoryCaps,
    i: int,
    j: int,
)
    requires
        0 <= i < j < told_of(hits, ts, caps).len(),
    ensures
        ({
            let a = told_of(hits, ts, caps)[i];
            let b = told_of(hits, ts, caps)[j];
            let ap = a.row.scope@ == "project"@;
            let bp = b.row.scope@ == "project"@;
            &&& a.score >= b.score
            &&& a.score == b.score && bp ==> ap
            &&& a.score == b.score && ap == bp ==> a.row.importance >= b.row.importance
            &&& a.score == b.score && ap == bp && a.row.importance == b.row.importance
                ==> a.row.updated_at >= b.row.updated_at
        }),
{
    let limit = if caps.max_items * 3 > usize::MAX {
        usize::MAX as nat
    } else {
        (caps.max_items * 3) as nat
    };
    let kept = relevant(first(ranked(hits, scores_higher()), limit), ts);
    let f = |a: Hit, b: Hit| hit_before(a, b);
    the_best_hits_come_first();
    ranking_puts_in_order(kept, f);
    assert(!f(told_of(hits, ts, caps)[j], told_of(hits, ts, caps)[i]));
}

/// Every memory that is told in a turn is one of the hits, scores enough, and shares a term
/// with the query.
pub proof fn nothing_else_is_told(
    hits: Seq<Hit>,
    ts: Seq<Seq<char>>,
    caps: MemoryCaps,
    h: Hit,
)
    requires
        told_of(hits, ts, caps).contains(h),
    ensures
        hits.contains(h),
        h.score >= TURN_MEMORY_MIN_SCORE,
        exists|i: int| 0 <= i < ts.len() && row_words(h.row@).contains(#[trigger] ts[i]),
{
    let limit = if caps.max_items * 3 > usize::MAX {
        usize::MAX as nat
    } else {
        (caps.max_items * 3) as nat
    };
    let top = ranked(hits, scores_higher());
    let few = first(top, limit);
    let kept = relevant(few, ts);
    let f = |a: Hit, b: Hit| hit_before(a, b);
    the_best_hits_come_first();
    ranking_puts_in_order(kept, f);
    ranking_puts_in_order(hits, scores_higher());
    lemma_same_things(told_of(hits, ts, caps), kept, h);
    lemma_relevant_holds(few, ts, h);
    terms_are_shared_one_by_one(ts, seq![], row_words(h.row@));
    let k = choose|k: int| 0 <= k < few.len() && few[k] == h;
    assert(top[k] == h);
    lemma_same_things(top, hits, h);
}

proof fn lemma_same_things<T>(a: Seq<T>, b: Seq<T>, x: T)
    requires
        a.to_multiset() == b.to_multiset(),
        a.contains(x),
    ensures
        b.contains(x),
{
    a.to_multiset_ensures();
    b.to_multiset_ensures();
    assert(a.to_multiset().count(x) > 0);
    assert(b.to_multiset().count(x) > 0);
}

proof fn lemma_relevant_holds(hits: Seq<Hit>, ts: Seq<Seq<char>>, h: Hit)
    ensures
        relevant(hits, ts).contains(h) <==> hits.contains(h) && h.score >= TURN_MEMORY_MIN_SCORE
            && shared(ts, row_words(h.row@)) > 0,
    decreases hits.len(),
{
    if hits.len() > 0 {
        lemma_relevant_holds(hits.drop_last(), ts, h);
        lemma_push_holds(hits.drop_last(), hits.last(), h);
        lemma_push_holds(relevant(hits.drop_last(), ts), hits.last(), h);
        assert(hits.drop_last().push(hits.last()) =~= hits);
    }
}

/// As much is told as there is room for: the next memory is left out only where the count
/// is reached or its line does not fit any more.
pub proof fn as_much_is_told_as_fits(all: Seq<Seq<char>>, caps: MemoryCaps, used: nat, i: nat)
    requires
        i <= all.len(),
    ensures
        ({
            let n = lines_told(all, caps, used, i);
            &&& i <= n <= all.len()
            &&& n < all.len() ==> n >= caps.max_items || used + bytes_of(all, i, n) + byte_len(
                all[n as int],
            ) + 1 > caps.max_chars
        }),
    decreases all.len() - i,
{
    if !(i >= all.len() || i >= caps.max_items || used + byte_len(all[i as int]) + 1
        > caps.max_chars) {
        as_much_is_told_as_fits(all, caps, used + byte_len(all[i as int]) + 1, i + 1);
    }
}

/// The size of the lines from one place to another, each with its end.
pub open spec fn bytes_of(all: Seq<Seq<char>>, from: nat, to: nat) -> nat
    decreases to - from,
{
    if from >= to {
        0
    } else {
        byte_len(all[from as int]) + 1 + bytes_of(all, from + 1, to)
    }
}

/// A text that is short enough once its white space is squeezed is shown so; of a longer
/// one a start is shown, with a mark, that together are as long as is allowed.
pub proof fn a_short_text_is_shown_whole(s: Seq<char>, max: nat)
    ensures
        squeezed(s) == join(words(s), " "@),
        squeezed(s).len() <= max ==> compact(s, max) == squeezed(s),
        squeezed(s).len() > max && max > 0 ==> compact(s, max).len() == max && compact(s, max).take(
            max - 1,
        ) == squeezed(s).take(max - 1) && compact(s, max).last() == '…',
{
    reveal_strlit("…");
    if squeezed(s).len() > max && max > 0 {
        assert(compact(s, max).take(max - 1) =~= squeezed(s).take(max - 1));
    }
}

/// A memory's line tells where it belongs, what kind it is, which one it is, and what it is
/// about and says.
pub proof fn a_line_tells_the_memory(r: Row, max: nat)
    ensures
        memory_line(r, max) == "- ["@ + r.scope + "/"@ + r.kind + "/"@ + short(r.id) + "] "@ + compact(
            r.subject,
            80,
        ) + ": "@ + compact(r.content, max),
        section_line(r) == "- ["@ + r.kind + "] "@ + r.subject + ": "@ + r.content + "\n"@,
        short(r.id).len() <= r.id.len(),
        short(r.id) == r.id.take(short(r.id).len() as int),
{
    crate::wording::what_fits_is_the_longest_start(r.id, 8);
    assert(short(r.id) =~= r.id.take(short(r.id).len() as int));
}

/// What the prompt is told at the start is the most important memories, the newer of two
/// that are equal: none that is left out comes before one that is told.
pub proof fn the_most_important_memories_are_told(v: Seq<MemoryRow>, limit: nat, i: int, j: int)
    requires
        0 <= i < limit <= j < v.len(),
    ensures
        ({
            let all = ranked(v, |a: MemoryRow, b: MemoryRow| row_before(a, b));
            &&& all.to_multiset() == v.to_multiset()
            &&& first(all, limit) == all.take(limit as int)
            &&& all[i].importance >= all[j].importance
            &&& all[i].importance == all[j].importance ==> all[i].updated_at >= all[j].updated_at
        }),
{
    let f = |a: MemoryRow, b: MemoryRow| row_before(a, b);
    the_best_hits_come_first();
    ranking_puts_in_order(v, f);
    let all = ranked(v, f);
    assert(!f(all[j], all[i]));
}

/// A section holds the line of every memory that is shown, each under its own heading and
/// no other: those that are global under one, all others under the other.
pub proof fn each_memory_stands_in_its_section(v: Seq<MemoryRow>, r: MemoryRow)
    ensures
        r.scope@ == "global"@ ==> section_lines(v.push(r), true) == section_lines(v, true).push(
            section_line(r@),
        ) && section_lines(v.push(r), false) == section_lines(v, false),
        r.scope@ != "global"@ ==> section_lines(v.push(r), false) == section_lines(v, false).push(
            section_line(r@),
        ) && section_lines(v.push(r), true) == section_lines(v, true),
        section_lines(seq![], true).len() == 0,
        section_lines(seq![], false).len() == 0,
{
    assert(v.push(r).drop_last() =~= v);
}

proof fn lemma_cut(a: Seq<char>, sep: char, rest: Seq<char>, n: nat)
    requires
        !a.contains(sep),
        n >= 2,
    ensures
        split_at_most(a + seq![sep] + rest, sep, n) == seq![a] + split_at_most(
            rest,
            sep,
            (n - 1) as nat,
        ),
{
    let s = a + seq![sep] + rest;
    crate::wording::a_cut_gives_the_parts_back(a, sep, rest);
    let i = crate::text::index_where(s, crate::text::is_char(sep)) as int;
    assert(s.take(i) == a && s.skip(i + 1) == rest);
}

/// A line of five fields reads as its fields: the scope, the kind, the subject, the content,
/// and how important it is, from none to a hundred.
pub proof fn a_line_reads_as_its_fields(
    scope: Seq<char>,
    kind: Seq<char>,
    subject: Seq<char>,
    content: Seq<char>,
    importance: Seq<char>,
)
    requires
        !scope.contains('|'),
        !kind.contains('|'),
        !subject.contains('|'),
        !content.contains('|'),
        ({
            let line = scope + seq!['|'] + (kind + seq!['|'] + (subject + seq!['|'] + (content
                + seq!['|'] + importance)));
            trim(line) == line && ascii_lowered(line) != "none"@
        }),
    ensures
        ({
            let line = scope + seq!['|'] + (kind + seq!['|'] + (subject + seq!['|'] + (content
                + seq!['|'] + importance)));
            let s = scope_named(lowercase(trim(scope)));
            let k = lowercase(trim(kind));
            let ok = s is Some && durable_kind(k) && trim(subject).len() > 0 && trim(
                content,
            ).len() > 0;
            &&& !ok ==> idea_in(line) is None
            &&& ok ==> (idea_in(line) matches Some(x) && {
                &&& x.scope == s->0
                &&& x.kind == k
                &&& x.subject == trim(subject)
                &&& x.content == trim(content)
                &&& parse_int(trim(importance)) is None ==> x.importance == 60
                &&& parse_int(trim(importance)) matches Some(n) ==> x.importance
                    == if n < 0 {
                    0
                } else if n > 100 {
                    100
                } else {
                    n
                }
            })
        }),
{
    let d = content + seq!['|'] + importance;
    let c = subject + seq!['|'] + d;
    let b = kind + seq!['|'] + c;
    let line = scope + seq!['|'] + b;
    lemma_cut(scope, '|', b, 5);
    lemma_cut(kind, '|', c, 4);
    lemma_cut(subject, '|', d, 3);
    lemma_cut(content, '|', importance, 2);
    assert(split_at_most(importance, '|', 1) =~= seq![importance]);
    assert(split_at_most(line, '|', 5) =~= seq![scope, kind, subject, content, importance]);
}

} // verus!
