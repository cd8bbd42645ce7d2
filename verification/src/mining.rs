//! Mining past sessions for durable memory.
//!
//! The archive is read afterwards, when a session is finished and its shape is visible.
//! Everything mined lands as a proposal, never as an active memory, and in the project
//! that the session ran in.
use vstd::prelude::*;
use vstd::string::*;

use crate::list::{concat, group_lists, views};
use crate::llm::{calls_view, said, Call, Message, Role, Said};
use crate::memory::{
    first, ideas, ideas_in, parse_candidates, Candidate, Idea, Scope,
};
use crate::ranking::{in_rank, ranked};
use crate::text::{chars_of, dec, decimal, lines, opt_view, same, string_of, trim, trimmed};

verus! {

broadcast use group_lists;

/// A session with fewer messages is a false start, a one-liner or an abandoned run.
pub const MIN_MESSAGES: usize = 12;

/// How much of a session is shown: the tail is where conclusions live.
pub const MAX_MESSAGES: usize = 60;

/// How much of a message is shown, in characters.
pub const MAX_BODY: usize = 2_000;

/// The token budget for one classification.
pub const CLASSIFY_TOKENS: u32 = 512;

/// What one mining run did.
#[derive(Debug, Clone, Default, PartialEq, Eq)]
pub struct MineReport {
    /// Sessions belonging to this project.
    pub found: usize,
    /// Skipped because they were already mined.
    pub already_mined: usize,
    /// Skipped as too short to be worth a model call.
    pub too_short: usize,
    /// Sessions actually sent to the classifier.
    pub read: usize,
    /// New proposals created.
    pub proposed: usize,
    /// Candidates that duplicated something already stored.
    pub duplicates: usize,
    /// Sessions that could not be read or classified.
    pub failed: Vec<String>,
}

/// What a report says.
pub struct Mined {
    pub found: nat,
    pub already_mined: nat,
    pub too_short: nat,
    pub read: nat,
    pub proposed: nat,
    pub duplicates: nat,
    pub failed: Seq<Seq<char>>,
}

impl View for MineReport {
    type V = Mined;

    open spec fn view(&self) -> Mined {
        Mined {
            found: self.found as nat,
            already_mined: self.already_mined as nat,
            too_short: self.too_short as nat,
            read: self.read as nat,
            proposed: self.proposed as nat,
            duplicates: self.duplicates as nat,
            failed: views(self.failed@),
        }
    }
}

/// One session queued for classification.
#[derive(Debug, Clone, PartialEq, Eq)]
pub struct MineItem {
    pub id: String,
    pub transcript: String,
}

/// What was decided: the work to do, and the accounting already settled.
#[derive(Debug, Clone, Default, PartialEq, Eq)]
pub struct MinePlan {
    pub items: Vec<MineItem>,
    pub report: MineReport,
}

/// The sessions of a queue: the id and the transcript of each.
pub open spec fn queued(v: Seq<MineItem>) -> Seq<(Seq<char>, Seq<char>)> {
    Seq::new(v.len(), |i: int| (v[i].id@, v[i].transcript@))
}

// ---- choosing ---------------------------------------------------------------

/// A transcript that was found: where it is, where its session ran, and when it was
/// changed last.
#[derive(Debug)]
pub struct Found {
    pub path: String,
    pub cwd: Option<String>,
    pub mtime: u128,
}

/// The newer comes first.
pub open spec fn newer() -> spec_fn(Found, Found) -> bool {
    |a: Found, b: Found| a.mtime > b.mtime
}

/// The transcripts of a project.
pub open spec fn of_project(v: Seq<Found>, want: Seq<char>) -> Seq<Found>
    decreases v.len(),
{
    if v.len() == 0 {
        seq![]
    } else if opt_view(v.last().cwd) == Some(want) {
        of_project(v.drop_last(), want).push(v.last())
    } else {
        of_project(v.drop_last(), want)
    }
}

/// The sessions recorded for a project, newest first: recent work is likelier to still
/// be true.
pub fn sessions_for_project(found: Vec<Found>, want: &str) -> (r: Vec<Found>)
    ensures
        r@ == ranked(of_project(found@, want@), newer()),
{
    let ghost all = found@;
    let mut rest = found;
    let mut mine: Vec<Found> = Vec::new();
    let ghost mut done: nat = 0;
    assert(mine@ =~= of_project(all.take(0), want@));
    while rest.len() > 0
        invariant
            done <= all.len(),
            rest@ == all.skip(done as int),
            mine@ == of_project(all.take(done as int), want@),
        decreases rest.len(),
    {
        let f = rest.remove(0);
        assert(f == all[done as int]);
        proof {
            let next = all.take(done as int + 1);
            assert(next.drop_last() =~= all.take(done as int));
            assert(next.last() == f);
            done = done + 1;
            assert(rest@ =~= all.skip(done as int));
        }
        let here = match &f.cwd {
            Some(c) => same(c.as_str(), want),
            None => false,
        };
        if here {
            mine.push(f);
        }
    }
    assert(all.take(done as int) =~= all);
    in_rank(
        mine,
        |a: &Found, b: &Found| -> (c: bool) ensures c == newer()(*a, *b) { a.mtime > b.mtime },
        Ghost(newer()),
    )
}

/// How a message is labelled for the classifier; `None` where it is not shown. Tool
/// output never becomes durable memory: it is re-derivable, and bulky.
pub open spec fn mined_label(role: Role) -> Option<Seq<char>> {
    match role {
        Role::System => None,
        Role::Tool => None,
        Role::User => Some("user"@),
        Role::Assistant => Some("assistant"@),
    }
}

/// The body of a message, as it is shown.
pub open spec fn mined_body(label: Seq<char>, content: Option<Seq<char>>) -> Seq<char> {
    match content {
        None => seq![],
        Some(c) => if trim(c).len() == 0 {
            seq![]
        } else {
            "["@ + label + "] "@ + first(c, MAX_BODY as nat) + "\n"@
        },
    }
}

/// The calls of a message, as they are shown: by name only.
pub open spec fn mined_calls(label: Seq<char>, calls: Seq<Call>) -> Seq<Seq<char>> {
    Seq::new(calls.len(), |i: int| "["@ + label + " called "@ + calls[i].name + "]\n"@)
}

/// A message, as it is shown to the classifier.
pub open spec fn mined_part(m: Said) -> Seq<char> {
    match mined_label(m.role) {
        None => seq![],
        Some(label) => mined_body(label, m.content) + concat(mined_calls(label, m.tool_calls)),
    }
}

/// The messages, as they are shown to the classifier.
pub open spec fn mined_parts(ms: Seq<Said>) -> Seq<Seq<char>> {
    Seq::new(ms.len(), |i: int| mined_part(ms[i]))
}

/// The last of the messages that are shown at all.
pub open spec fn tail(ms: Seq<Said>, max: nat) -> Seq<Said> {
    if ms.len() > max {
        ms.skip(ms.len() - max)
    } else {
        ms
    }
}

/// A session, as it is shown to the classifier.
pub open spec fn mined(ms: Seq<Said>, max: nat) -> Seq<char> {
    concat(mined_parts(tail(ms, max)))
}

fn render_message(m: &Message) -> (r: String)
    ensures
        r@ == mined_part(m@),
{
    let label = match m.role {
        Role::System | Role::Tool => {
            let none = String::new();
            assert(none@ =~= seq![]);
            return none;
        },
        Role::User => "user",
        Role::Assistant => "assistant",
    };
    let mut out = String::new();
    assert(out@ =~= seq![]);
    if let Some(c) = &m.content {
        if trimmed(c.as_str()).as_str().unicode_len() > 0 {
            let v = chars_of(c.as_str());
            let n: usize = if v.len() > MAX_BODY {
                MAX_BODY
            } else {
                v.len()
            };
            let body = string_of(&v, 0, n);
            assert(body@ =~= first(c@, MAX_BODY as nat));
            out = "[".to_owned();
            out.append(label);
            out.append("] ");
            out.append(body.as_str());
            out.append("\n");
        }
    }
    let ghost head = mined_body(label@, m@.content);
    assert(out@ == head);
    let ghost all = mined_calls(label@, m@.tool_calls);
    let mut i: usize = 0;
    assert(out@ =~= head + concat(all.take(0)));
    while i < m.tool_calls.len()
        invariant
            i <= m.tool_calls@.len(),
            all == mined_calls(label@, m@.tool_calls),
            m@.tool_calls == calls_view(m.tool_calls@),
            out@ == head + concat(all.take(i as int)),
        decreases m.tool_calls.len() - i,
    {
        let ghost before = out@;
        let mut line = "[".to_owned();
        line.append(label);
        line.append(" called ");
        line.append(m.tool_calls[i].name.as_str());
        line.append("]\n");
        assert(line@ == all[i as int]);
        out.append(line.as_str());
        assert(all.take(i + 1) =~= all.take(i as int).push(all[i as int]));
        assert(out@ =~= head + concat(all.take(i + 1)));
        i = i + 1;
    }
    assert(all.take(i as int) =~= all);
    out
}

/// The last messages of a session, as they are shown to the classifier: what must never
/// become durable memory is left out.
pub fn render_recent(msgs: &Vec<Message>, max_messages: usize) -> (r: String)
    ensures
        r@ == mined(said(msgs@), max_messages as nat),
{
    let n = msgs.len();
    let start: usize = if n > max_messages {
        n - max_messages
    } else {
        0
    };
    let ghost shown = tail(said(msgs@), max_messages as nat);
    let ghost all = mined_parts(shown);
    assert(shown =~= said(msgs@).skip(start as int));
    let mut out = String::new();
    let mut i: usize = start;
    assert(out@ =~= concat(all.take(0)));
    while i < n
        invariant
            start <= i <= n == msgs@.len(),
            shown == said(msgs@).skip(start as int),
            all == mined_parts(shown),
            out@ == concat(all.take(i - start)),
        decreases n - i,
    {
        let part = render_message(&msgs[i]);
        assert(shown[i - start] == msgs@[i as int]@);
        assert(part@ == all[i - start]);
        out.append(part.as_str());
        assert(all.take(i + 1 - start) =~= all.take(i - start).push(all[i - start]));
        i = i + 1;
    }
    assert(all.take(i - start) =~= all);
    out
}

/// A session, as it is shown to the classifier.
pub fn render_for_mining(msgs: &Vec<Message>) -> (r: String)
    ensures
        r@ == mined(said(msgs@), MAX_MESSAGES as nat),
{
    render_recent(msgs, MAX_MESSAGES)
}

/// Did the user say anything at all?
pub open spec fn asked(ms: Seq<Said>) -> bool {
    exists|i: int| 0 <= i < ms.len() && (#[trigger] ms[i]).role is User
}

fn has_user(msgs: &Vec<Message>) -> (r: bool)
    ensures
        r == asked(said(msgs@)),
{
    let mut i: usize = 0;
    while i < msgs.len()
        invariant
            i <= msgs@.len(),
            forall|j: int| 0 <= j < i ==> !((#[trigger] said(msgs@)[j]).role is User),
        decreases msgs.len() - i,
    {
        if let Role::User = msgs[i].role {
            assert(said(msgs@)[i as int].role is User);
            return true;
        }
        i = i + 1;
    }
    false
}

/// Is a session worth a model call?
pub open spec fn worth_reading(ms: Seq<Said>) -> bool {
    asked(ms) && ms.len() >= MIN_MESSAGES && trim(
        mined(ms, MAX_MESSAGES as nat),
    ).len() > 0
}

/// What is known of a session of the project.
#[derive(Debug)]
pub enum MineInput {
    /// It was mined before.
    Mined,
    /// It cannot be read.
    Unreadable(String),
    /// Its messages.
    Messages(Vec<Message>),
}

impl MinePlan {
    /// Nothing chosen yet of the `found` sessions.
    pub fn new(found: usize) -> (r: MinePlan)
        ensures
            queued(r.items@) == Seq::<(Seq<char>, Seq<char>)>::empty(),
            r.report@ == (Mined {
                found: found as nat,
                already_mined: 0,
                too_short: 0,
                read: 0,
                proposed: 0,
                duplicates: 0,
                failed: seq![],
            }),
    {
        let r = MinePlan {
            items: Vec::new(),
            report: MineReport {
                found,
                already_mined: 0,
                too_short: 0,
                read: 0,
                proposed: 0,
                duplicates: 0,
                failed: Vec::new(),
            },
        };
        assert(queued(r.items@) =~= Seq::<(Seq<char>, Seq<char>)>::empty());
        assert(views(r.report.failed@) =~= seq![]);
        r
    }

    /// Are as many queued as may be?
    pub fn is_full(&self, limit: usize) -> (r: bool)
        ensures
            r == (queued(self.items@).len() >= limit),
    {
        self.items.len() >= limit
    }

    /// Decide on one session: queue it, or settle it. The result says whether to mark
    /// it as mined now: a finished short session will not grow.
    pub fn consider(&mut self, id: &str, input: MineInput) -> (mark: bool)
        requires
            old(self).report.already_mined < usize::MAX,
            old(self).report.too_short < usize::MAX,
            old(self).items@.len() < usize::MAX,
        ensures
            mark == (input matches MineInput::Messages(ms) && !worth_reading(said(ms@))),
            match input {
                MineInput::Mined => {
                    &&& queued(final(self).items@) == queued(old(self).items@)
                    &&& final(self).report@ == (Mined {
                        already_mined: old(self).report@.already_mined + 1,
                        read: queued(old(self).items@).len(),
                        ..old(self).report@
                    })
                },
                MineInput::Unreadable(e) => {
                    &&& queued(final(self).items@) == queued(old(self).items@)
                    &&& final(self).report@ == (Mined {
                        failed: old(self).report@.failed.push(id@ + ": "@ + e@),
                        read: queued(old(self).items@).len(),
                        ..old(self).report@
                    })
                },
                MineInput::Messages(ms) => if worth_reading(said(ms@)) {
                    &&& queued(final(self).items@) == queued(old(self).items@).push(
                        (id@, mined(said(ms@), MAX_MESSAGES as nat)),
                    )
                    &&& final(self).report@ == (Mined {
                        read: queued(old(self).items@).len() + 1,
                        ..old(self).report@
                    })
                } else {
                    &&& queued(final(self).items@) == queued(old(self).items@)
                    &&& final(self).report@ == (Mined {
                        too_short: old(self).report@.too_short + 1,
                        read: queued(old(self).items@).len(),
                        ..old(self).report@
                    })
                },
            },
    {
        let mut mark = false;
        match input {
            MineInput::Mined => {
                self.report.already_mined = self.report.already_mined + 1;
            },
            MineInput::Unreadable(e) => {
                let mut s = id.to_owned();
                s.append(": ");
                s.append(e.as_str());
                self.report.failed.push(s);
            },
            MineInput::Messages(ms) => {
                let transcript = render_for_mining(&ms);
                if !has_user(&ms) || ms.len() < MIN_MESSAGES || trimmed(
                    transcript.as_str(),
                ).as_str().unicode_len() == 0 {
                    self.report.too_short = self.report.too_short + 1;
                    mark = true;
                } else {
                    let ghost before = self.items@;
                    self.items.push(MineItem { id: id.to_owned(), transcript });
                    assert(queued(self.items@) =~= queued(before).push((id@, transcript@)));
                }
            },
        }
        self.report.read = self.items.len();
        mark
    }
}

// ---- filing -----------------------------------------------------------------

/// What the classifier's answer proposes. The scope is forced: what a session taught is
/// its project's, and a wrong guess would pollute every other one.
pub open spec fn project_ideas(text: Seq<char>) -> Seq<Idea> {
    let all = ideas_in(lines(text));
    Seq::new(all.len(), |i: int| Idea { scope: Scope::Project, ..all[i] })
}

/// What the classifier's answer proposes, all of it for the project.
pub fn proposals(text: &str) -> (r: Vec<Candidate>)
    ensures
        ideas(r@) == project_ideas(text@),
{
    let all = parse_candidates(text);
    let mut out: Vec<Candidate> = Vec::new();
    let mut i: usize = 0;
    assert(ideas(out@) =~= project_ideas(text@).take(0));
    while i < all.len()
        invariant
            i <= all@.len(),
            ideas(all@) == ideas_in(lines(text@)),
            ideas(out@) == project_ideas(text@).take(i as int),
        decreases all.len() - i,
    {
        let c = &all[i];
        assert(ideas(all@)[i as int] == c@);
        let ghost before = out@;
        let p = Candidate {
            scope: Scope::Project,
            kind: c.kind.clone(),
            subject: c.subject.clone(),
            content: c.content.clone(),
            importance: c.importance,
        };
        out.push(p);
        assert(ideas(out@) =~= ideas(before).push(p@));
        assert(project_ideas(text@)[i as int] == p@);
        assert(ideas(out@) =~= project_ideas(text@).take(i + 1));
        i = i + 1;
    }
    assert(project_ideas(text@).take(i as int) =~= project_ideas(text@));
    out
}

/// What became of a proposal.
#[derive(Debug)]
pub enum Filed {
    /// It was stored.
    New,
    /// It was known already.
    Known,
    /// It could not be stored.
    Failed(String),
}

/// The report once the first `n` proposals of a session are filed.
pub open spec fn filed(r: Mined, id: Seq<char>, fs: Seq<Filed>, n: nat) -> Mined
    decreases n,
{
    if n == 0 {
        r
    } else {
        let b = filed(r, id, fs, (n - 1) as nat);
        match fs[n - 1] {
            Filed::New => Mined { proposed: b.proposed + 1, ..b },
            Filed::Known => Mined { duplicates: b.duplicates + 1, ..b },
            Filed::Failed(e) => Mined { failed: b.failed.push(id + ": "@ + e@), ..b },
        }
    }
}

/// How many of the first `n` proposals were stored.
pub open spec fn new_ones(fs: Seq<Filed>, n: nat) -> nat
    decreases n,
{
    if n == 0 {
        0
    } else {
        new_ones(fs, (n - 1) as nat) + if fs[n - 1] is New {
            1nat
        } else {
            0
        }
    }
}

impl MineReport {
    /// Record what became of a session's proposals. The result says with how many of
    /// them the session is marked as mined; one that could not be classified is not
    /// marked.
    pub fn record(&mut self, id: &str, res: Result<Vec<Filed>, String>) -> (r: Option<usize>)
        requires
            res matches Ok(fs) ==> old(self).proposed + fs@.len() <= usize::MAX && old(
                self,
            ).duplicates + fs@.len() <= usize::MAX,
        ensures
            match res {
                Ok(fs) => {
                    &&& final(self)@ == filed(old(self)@, id@, fs@, fs@.len())
                    &&& r == Some(new_ones(fs@, fs@.len()) as usize)
                },
                Err(e) => {
                    &&& final(self)@ == (Mined {
                        failed: old(self)@.failed.push(id@ + ": "@ + e@),
                        ..old(self)@
                    })
                    &&& r is None
                },
            },
    {
        match res {
            Err(e) => {
                let mut s = id.to_owned();
                s.append(": ");
                s.append(e.as_str());
                self.failed.push(s);
                None
            },
            Ok(fs) => {
                let mut kept: usize = 0;
                let mut i: usize = 0;
                while i < fs.len()
                    invariant
                        i <= fs@.len(),
                        old(self).proposed + fs@.len() <= usize::MAX,
                        old(self).duplicates + fs@.len() <= usize::MAX,
                        self.proposed <= old(self).proposed + i,
                        self.duplicates <= old(self).duplicates + i,
                        kept == new_ones(fs@, i as nat),
                        kept <= i,
                        self@ == filed(old(self)@, id@, fs@, i as nat),
                    decreases fs.len() - i,
                {
                    match &fs[i] {
                        Filed::New => {
                            self.proposed = self.proposed + 1;
                            kept = kept + 1;
                        },
                        Filed::Known => {
                            self.duplicates = self.duplicates + 1;
                        },
                        Filed::Failed(e) => {
                            let mut s = id.to_owned();
                            s.append(": ");
                            s.append(e.as_str());
                            self.failed.push(s);
                        },
                    }
                    i = i + 1;
                }
                Some(kept)
            },
        }
    }

    /// One line on what the run did.
    pub fn summary(&self) -> (r: String)
        ensures
            r@ == mined_line(self@),
    {
        if self.found == 0 {
            return "no past sessions recorded for this project".to_owned();
        }
        let mut s = "mined ".to_owned();
        s.append(decimal(self.read as u128).as_str());
        s.append(" of ");
        s.append(decimal(self.found as u128).as_str());
        s.append(" sessions — ");
        s.append(decimal(self.proposed as u128).as_str());
        s.append(" proposals");
        append_count(&mut s, self.duplicates, " already known");
        append_count(&mut s, self.already_mined, " previously mined");
        append_count(&mut s, self.too_short, " too short");
        append_count(&mut s, self.failed.len(), " failed");
        if self.proposed > 0 {
            s.append(" — review with /memory pending");
        } else {
            assert(s@ =~= s@ + seq![]);
        }
        s
    }
}

/// A count that is worth saying.
pub open spec fn counted(n: nat, what: Seq<char>) -> Seq<char> {
    if n > 0 {
        ", "@ + dec(n) + what
    } else {
        seq![]
    }
}

fn append_count(out: &mut String, n: usize, what: &str)
    ensures
        final(out)@ == old(out)@ + counted(n as nat, what@),
{
    if n > 0 {
        out.append(", ");
        out.append(decimal(n as u128).as_str());
        out.append(what);
    }
    assert(out@ =~= old(out)@ + counted(n as nat, what@));
}

/// One line on what a run did.
pub open spec fn mined_line(m: Mined) -> Seq<char> {
    if m.found == 0 {
        "no past sessions recorded for this project"@
    } else {
        "mined "@ + dec(m.read) + " of "@ + dec(m.found) + " sessions — "@ + dec(m.proposed)
            + " proposals"@ + counted(m.duplicates, " already known"@) + counted(
            m.already_mined,
            " previously mined"@,
        ) + counted(m.too_short, " too short"@) + counted(m.failed.len(), " failed"@) + (
        if m.proposed > 0 {
            " — review with /memory pending"@
        } else {
            seq![]
        })
    }
}

// ---- laws -------------------------------------------------------------------

/// Tool output is never shown to the classifier, whatever it holds.
pub proof fn tool_output_is_never_mined(m: Said)
    requires
        m.role is Tool,
    ensures
        mined_part(m) == Seq::<char>::empty(),
{
}

/// Every proposal of a session is accounted for: it is stored, known, or failed.
pub proof fn every_proposal_is_accounted_for(r: Mined, id: Seq<char>, fs: Seq<Filed>)
    ensures
        ({
            let after = filed(r, id, fs, fs.len());
            &&& (after.proposed - r.proposed) + (after.duplicates - r.duplicates) + (
            after.failed.len() - r.failed.len()) == fs.len()
            &&& after.proposed - r.proposed == new_ones(fs, fs.len())
        }),
{
    lemma_filed(r, id, fs, fs.len());
}

proof fn lemma_filed(r: Mined, id: Seq<char>, fs: Seq<Filed>, n: nat)
    requires
        n <= fs.len(),
    ensures
        ({
            let after = filed(r, id, fs, n);
            &&& (after.proposed - r.proposed) + (after.duplicates - r.duplicates) + (
            after.failed.len() - r.failed.len()) == n
            &&& after.proposed - r.proposed == new_ones(fs, n)
        }),
    decreases n,
{
    if n > 0 {
        lemma_filed(r, id, fs, (n - 1) as nat);
    }
}

/// Nothing that is mined reaches beyond its project.
pub proof fn mining_stays_in_the_project(text: Seq<char>, i: int)
    requires
        0 <= i < project_ideas(text).len(),
    ensures
        project_ideas(text)[i].scope == Scope::Project,
{
}

/// What is mined are the last messages of a session, in order, each as long as is allowed
/// and under who said it; every call is told by its name alone.
pub proof fn the_last_messages_are_mined(ms: Seq<Said>, max: nat, i: int, k: int)
    requires
        0 <= i < tail(ms, max).len(),
    ensures
        ms.len() <= max ==> tail(ms, max) == ms,
        ms.len() > max ==> tail(ms, max).len() == max && tail(ms, max)[i] == ms[ms.len() - max + i],
        (tail(ms, max)[i].role is User || tail(ms, max)[i].role is Assistant) && (tail(
            ms,
            max,
        )[i].content matches Some(c) && trim(c).len() > 0) ==> crate::text::contains(
            mined(ms, max),
            first(tail(ms, max)[i].content->0, MAX_BODY as nat),
        ),
{
    let t = tail(ms, max);
    let parts = mined_parts(t);
    let m = t[i];
    if (m.role is User || m.role is Assistant) && (m.content matches Some(c) && trim(c).len()
        > 0) {
        let label = mined_label(m.role)->0;
        let x = first(m.content->0, MAX_BODY as nat);
        let calls = concat(mined_calls(label, m.tool_calls));
        let head = "["@ + label + "] "@;
        crate::wording::a_part_stands_in_the_whole(head, x, "\n"@ + calls);
        assert(parts[i] =~= head + x + ("\n"@ + calls));
        crate::wording::a_list_put_together_holds_each(parts, i);
        crate::wording::standing_in_a_part_is_standing_in_the_whole(
            concat(parts.take(i)),
            parts[i],
            concat(parts.skip(i + 1)),
            x,
        );
    }
}

/// The sessions that are mined are those of the project, all of them, the newest first.
pub proof fn the_sessions_of_the_project_are_mined(v: Seq<Found>, want: Seq<char>)
    ensures
        forall|x: Found|
            #[trigger] of_project(v, want).contains(x) <==> v.contains(x) && opt_view(x.cwd) == Some(
                want,
            ),
    decreases v.len(),
{
    if v.len() > 0 {
        let w = v.drop_last();
        let y = v.last();
        the_sessions_of_the_project_are_mined(w, want);
        let a = of_project(w, want);
        assert forall|x: Found| #[trigger] of_project(v, want).contains(x) <==> v.contains(x)
            && opt_view(x.cwd) == Some(want) by {
            assert(a.contains(x) <==> w.contains(x) && opt_view(x.cwd) == Some(want));
            assert(v =~= w.push(y));
            if w.contains(x) {
                let j = choose|j: int| 0 <= j < w.len() && w[j] == x;
                assert(v[j] == x);
            }
            if v.contains(x) && x != y {
                let j = choose|j: int| 0 <= j < v.len() && v[j] == x;
                assert(w[j] == x);
            }
            if x == y {
                assert(v[v.len() - 1] == x);
                assert(a.push(y)[a.len() as int] == x);
            }
            if a.contains(x) {
                let j = choose|j: int| 0 <= j < a.len() && a[j] == x;
                assert(a.push(y)[j] == x);
            }
        }
    }
}

/// How many of the first `n` were filed in one way.
pub open spec fn so_filed(fs: Seq<Filed>, how: spec_fn(Filed) -> bool, n: nat) -> nat
    decreases n,
{
    if n == 0 {
        0
    } else {
        so_filed(fs, how, (n - 1) as nat) + if how(fs[n - 1]) {
            1nat
        } else {
            0
        }
    }
}

/// Each proposal is counted once, by how it was filed.
pub proof fn each_proposal_is_counted_by_how_it_was_filed(
    r: Mined,
    id: Seq<char>,
    fs: Seq<Filed>,
    n: nat,
)
    requires
        n <= fs.len(),
    ensures
        ({
            let m = filed(r, id, fs, n);
            &&& m.proposed == r.proposed + so_filed(fs, |f: Filed| f is New, n)
            &&& m.duplicates == r.duplicates + so_filed(fs, |f: Filed| f is Known, n)
            &&& m.failed.len() == r.failed.len() + so_filed(fs, |f: Filed| f is Failed, n)
            &&& m.found == r.found && m.read == r.read && m.too_short == r.too_short
                && m.already_mined == r.already_mined
            &&& new_ones(fs, n) == so_filed(fs, |f: Filed| f is New, n)
        }),
    decreases n,
{
    if n > 0 {
        each_proposal_is_counted_by_how_it_was_filed(r, id, fs, (n - 1) as nat);
    }
}

/// A proposal that is mined is one of the ideas of the answer, kept for the project.
pub proof fn a_mined_proposal_is_an_idea_of_the_answer(text: Seq<char>, i: int)
    requires
        0 <= i < project_ideas(text).len(),
    ensures
        project_ideas(text).len() == ideas_in(lines(text)).len(),
        project_ideas(text)[i].kind == ideas_in(lines(text))[i].kind,
        project_ideas(text)[i].subject == ideas_in(lines(text))[i].subject,
        project_ideas(text)[i].content == ideas_in(lines(text))[i].content,
        project_ideas(text)[i].importance == ideas_in(lines(text))[i].importance,
        project_ideas(text)[i].scope == Scope::Project,
{
}

} // verus!
