//! Sessions: the append-only transcript, and the conversation it replays to.
//!
//! Reading and writing the file happens elsewhere: an entry comes in with its id, and
//! what an operation is to record goes out.
use vstd::prelude::*;
use vstd::string::*;

use crate::event::Event;
use crate::list::{group_lists, views};
use crate::llm::{plain, said, Message, Role, Said};
use crate::text::{copy_opt, opt_view, same};

pub mod store;

verus! {

broadcast use group_lists;

/// What an entry of the transcript records.
#[derive(Debug, Clone)]
pub enum Recorded {
    /// Where the session runs, and its id.
    Meta { cwd: Option<String>, id: Option<String> },
    /// A message; `None` where it cannot be read.
    Message(Option<Message>),
    /// Old history was summarized; the rest is kept from this entry on. An old marker
    /// has no summary.
    Compaction { summary: Option<String>, kept_from: Option<String> },
    /// Anything else.
    Other,
}

/// One line of the transcript.
#[derive(Debug, Clone)]
pub struct SessionEntry {
    pub id: String,
    pub data: Recorded,
}

/// An event with the time it happened, in seconds since the start of 1970.
#[derive(Debug, Clone)]
pub struct TimedEvent {
    pub ts: u64,
    pub event: Event,
}

/// How a summary re-enters the conversation.
pub open spec fn summary_said(summary: Seq<char>) -> Said {
    plain(Role::User, "[Summary of earlier conversation]\n"@ + summary)
}

/// How a summary re-enters the conversation.
pub fn summary_message(summary: &str) -> (r: Message)
    ensures
        r@ == summary_said(summary@),
{
    let mut s = "[Summary of earlier conversation]\n".to_owned();
    s.append(summary);
    Message::user(s.as_str())
}

/// A session: its conversation, and the entry of each message.
#[derive(Debug)]
pub struct Session {
    id: String,
    last_id: Option<String>,
    messages: Vec<Message>,
    message_ids: Vec<String>,
    cwd: String,
}

/// What a session holds.
pub struct Conversation {
    pub id: Seq<char>,
    pub last_id: Option<Seq<char>>,
    pub messages: Seq<Said>,
    pub ids: Seq<Seq<char>>,
    pub cwd: Seq<char>,
}

impl View for Session {
    type V = Conversation;

    closed spec fn view(&self) -> Conversation {
        Conversation {
            id: self.id@,
            last_id: opt_view(self.last_id),
            messages: said(self.messages@),
            ids: views(self.message_ids@),
            cwd: self.cwd@,
        }
    }
}

/// Nothing replayed yet.
pub open spec fn blank() -> Conversation {
    Conversation { id: seq![], last_id: None, messages: seq![], ids: seq![], cwd: seq![] }
}

/// The index of the first of `ids` that is `id`, or the length.
pub open spec fn id_index(ids: Seq<Seq<char>>, id: Seq<char>) -> nat
    decreases ids.len(),
{
    if ids.len() == 0 || ids[0] == id {
        0
    } else {
        1 + id_index(ids.drop_first(), id)
    }
}

/// The conversation once everything before `split` is summed up.
pub open spec fn summed_up(c: Conversation, summary: Seq<char>, split: int, entry: Seq<char>) -> Conversation {
    Conversation {
        messages: seq![summary_said(summary)] + c.messages.skip(split),
        ids: seq![entry] + c.ids.skip(split),
        last_id: Some(entry),
        ..c
    }
}

/// Something that a live session does, each time writing one entry.
pub enum Deed {
    /// It begins: where it runs, and its id.
    Create(Seq<char>, Seq<char>),
    /// It takes in a message.
    Append(Said),
    /// It records something that is no part of the conversation.
    Note,
    /// It sums up everything before this index.
    Compact(Seq<char>, nat),
}

/// Where a conversation is split: no later than at its end.
pub open spec fn split_at(c: Conversation, split: nat) -> int {
    if split <= c.messages.len() {
        split as int
    } else {
        c.messages.len() as int
    }
}

/// The entry of the first message that a split keeps, if it keeps one.
pub open spec fn first_kept(c: Conversation, split: nat) -> Option<Seq<char>> {
    if split_at(c, split) < c.messages.len() {
        Some(c.ids[split_at(c, split)])
    } else {
        None
    }
}

/// The conversation of a live session once it did something, and wrote that entry.
pub open spec fn done(c: Conversation, deed: Deed, entry: Seq<char>) -> Conversation {
    let d = Conversation { last_id: Some(entry), ..c };
    match deed {
        Deed::Create(cwd, id) => Conversation { cwd, id, ..d },
        Deed::Append(m) => Conversation {
            messages: d.messages.push(m),
            ids: d.ids.push(entry),
            ..d
        },
        Deed::Note => d,
        Deed::Compact(summary, split) => summed_up(c, summary, split_at(c, split), entry),
    }
}

/// The conversation once an entry is replayed. A compaction is replayed too: without
/// it a resumed session would come back over its limit.
pub open spec fn replayed(c: Conversation, e: SessionEntry) -> Conversation {
    let d = Conversation { last_id: Some(e.id@), ..c };
    match e.data {
        Recorded::Meta { cwd, id } => Conversation {
            cwd: match cwd {
                Some(x) => x@,
                None => d.cwd,
            },
            id: match id {
                Some(x) => x@,
                None => d.id,
            },
            ..d
        },
        Recorded::Message(m) => match m {
            Some(m) => Conversation {
                messages: d.messages.push(m@),
                ids: d.ids.push(e.id@),
                ..d
            },
            None => d,
        },
        Recorded::Compaction { summary, kept_from } => match summary {
            None => d,
            Some(s) => {
                let start = match kept_from {
                    Some(k) => if id_index(d.ids, k@) < d.ids.len() {
                        id_index(d.ids, k@) as int
                    } else {
                        d.messages.len() as int
                    },
                    None => d.messages.len() as int,
                };
                summed_up(d, s@, start, e.id@)
            },
        },
        Recorded::Other => d,
    }
}

/// The conversation once the first `n` entries are replayed.
pub open spec fn replayed_all(es: Seq<SessionEntry>, n: nat) -> Conversation
    decreases n,
{
    if n == 0 {
        blank()
    } else {
        replayed(replayed_all(es, (n - 1) as nat), es[n - 1])
    }
}

proof fn lemma_id_index(ids: Seq<Seq<char>>, id: Seq<char>)
    ensures
        id_index(ids, id) <= ids.len(),
        id_index(ids, id) < ids.len() ==> ids[id_index(ids, id) as int] == id,
        forall|i: int| 0 <= i < id_index(ids, id) ==> ids[i] != id,
    decreases ids.len(),
{
    if ids.len() > 0 && ids[0] != id {
        lemma_id_index(ids.drop_first(), id);
        assert forall|i: int| 0 <= i < id_index(ids, id) implies ids[i] != id by {
            if i > 0 {
                assert(ids[i] == ids.drop_first()[i - 1]);
            }
        }
    }
}

proof fn lemma_id_index_is(ids: Seq<Seq<char>>, id: Seq<char>, n: nat)
    requires
        n <= ids.len(),
        n < ids.len() ==> ids[n as int] == id,
        forall|i: int| 0 <= i < n ==> ids[i] != id,
    ensures
        id_index(ids, id) == n,
{
    lemma_id_index(ids, id);
    let m = id_index(ids, id);
    if m < n {
        assert(ids[m as int] != id);
    } else if n < m {
        assert(ids[n as int] != id);
    }
}

proof fn lemma_said_push(v: Seq<Message>, m: Message)
    ensures
        said(v.push(m)) == said(v).push(m@),
{
    assert(said(v.push(m)) =~= said(v).push(m@));
}

fn tail_messages(v: &Vec<Message>, first: Message, from: usize) -> (r: Vec<Message>)
    requires
        from <= v@.len(),
    ensures
        said(r@) == seq![first@] + said(v@).skip(from as int),
{
    let mut r: Vec<Message> = Vec::new();
    let ghost all = said(v@);
    let ghost top = first@;
    r.push(first);
    let mut i: usize = from;
    assert(said(r@) =~= seq![top] + all.subrange(from as int, from as int));
    while i < v.len()
        invariant
            from <= i <= v@.len(),
            all == said(v@),
            said(r@) == seq![top] + all.subrange(from as int, i as int),
        decreases v.len() - i,
    {
        let m = v[i].copy();
        proof {
            lemma_said_push(r@, m);
        }
        r.push(m);
        i = i + 1;
        assert(said(r@) =~= seq![top] + all.subrange(from as int, i as int));
    }
    assert(all.subrange(from as int, i as int) =~= all.skip(from as int));
    r
}

fn tail_ids(v: &Vec<String>, first: String, from: usize) -> (r: Vec<String>)
    requires
        from <= v@.len(),
    ensures
        views(r@) == seq![first@] + views(v@).skip(from as int),
{
    let mut r: Vec<String> = Vec::new();
    let ghost all = views(v@);
    let ghost top = first@;
    r.push(first);
    let mut i: usize = from;
    assert(views(r@) =~= seq![top] + all.subrange(from as int, from as int));
    while i < v.len()
        invariant
            from <= i <= v@.len(),
            all == views(v@),
            views(r@) == seq![top] + all.subrange(from as int, i as int),
        decreases v.len() - i,
    {
        r.push(v[i].clone());
        i = i + 1;
        assert(views(r@) =~= seq![top] + all.subrange(from as int, i as int));
    }
    assert(all.subrange(from as int, i as int) =~= all.skip(from as int));
    r
}

impl Session {
    /// Every message has the id of its entry.
    pub closed spec fn wf(&self) -> bool {
        self.messages@.len() == self.message_ids@.len()
    }

    /// A session of which nothing is replayed yet.
    pub fn new() -> (r: Session)
        ensures
            r.wf(),
            r@ == blank(),
    {
        let r = Session {
            id: String::new(),
            last_id: None,
            messages: Vec::new(),
            message_ids: Vec::new(),
            cwd: String::new(),
        };
        assert(r.id@ =~= seq![]);
        assert(r.cwd@ =~= seq![]);
        assert(said(r.messages@) =~= seq![]);
        assert(views(r.message_ids@) =~= seq![]);
        r
    }

    /// A fresh session, whose first entry was written.
    pub fn create(id: &str, cwd: &str, entry: &str) -> (r: Session)
        ensures
            r.wf(),
            r@ == done(blank(), Deed::Create(cwd@, id@), entry@),
    {
        let mut r = Session::new();
        r.id = id.to_owned();
        r.cwd = cwd.to_owned();
        r.last_id = Some(entry.to_owned());
        r
    }

    /// Replay an entry.
    pub fn replay(&mut self, e: SessionEntry)
        requires
            old(self).wf(),
        ensures
            final(self).wf(),
            final(self)@ == replayed(old(self)@, e),
    {
        let id = e.id;
        self.last_id = Some(id.clone());
        match e.data {
            Recorded::Meta { cwd, id } => {
                if let Some(c) = cwd {
                    self.cwd = c;
                }
                if let Some(i) = id {
                    self.id = i;
                }
            },
            Recorded::Message(m) => {
                if let Some(m) = m {
                    proof {
                        lemma_said_push(self.messages@, m);
                    }
                    self.messages.push(m);
                    self.message_ids.push(id);
                }
            },
            Recorded::Compaction { summary, kept_from } => {
                if let Some(s) = summary {
                    let mut start: usize = self.messages.len();
                    if let Some(k) = kept_from {
                        let at = self.find_id(k.as_str());
                        if at < self.message_ids.len() {
                            start = at;
                        }
                    }
                    self.sum_up(s.as_str(), start, id.as_str());
                }
            },
            Recorded::Other => {},
        }
    }

    fn find_id(&self, id: &str) -> (r: usize)
        ensures
            r == id_index(self@.ids, id@),
            r <= self.message_ids@.len(),
    {
        let ghost ids = views(self.message_ids@);
        let mut i: usize = 0;
        while i < self.message_ids.len() && !same(self.message_ids[i].as_str(), id)
            invariant
                i <= self.message_ids@.len(),
                ids == views(self.message_ids@),
                forall|j: int| 0 <= j < i ==> ids[j] != id@,
            decreases self.message_ids.len() - i,
        {
            i = i + 1;
        }
        proof {
            lemma_id_index_is(ids, id@, i as nat);
        }
        i
    }

    fn sum_up(&mut self, summary: &str, split: usize, entry: &str)
        requires
            old(self).wf(),
            split <= old(self)@.messages.len(),
        ensures
            final(self).wf(),
            final(self)@ == summed_up(old(self)@, summary@, split as int, entry@),
    {
        assert(views(self.message_ids@).len() == said(self.messages@).len());
        let messages = tail_messages(&self.messages, summary_message(summary), split);
        let ids = tail_ids(&self.message_ids, entry.to_owned(), split);
        proof {
            assert(said(messages@).len() == views(ids@).len());
        }
        self.messages = messages;
        self.message_ids = ids;
        self.last_id = Some(entry.to_owned());
    }

    /// Name a session that its transcript does not name.
    pub fn name_if_unnamed(&mut self, stem: &str)
        requires
            old(self).wf(),
        ensures
            final(self).wf(),
            final(self)@ == (Conversation {
                id: if old(self)@.id.len() == 0 {
                    stem@
                } else {
                    old(self)@.id
                },
                ..old(self)@
            }),
    {
        if self.id.as_str().unicode_len() == 0 {
            self.id = stem.to_owned();
        }
    }

    /// The session's id.
    pub fn id(&self) -> (r: &str)
        ensures
            r@ == self@.id,
    {
        self.id.as_str()
    }

    /// Where the session runs.
    pub fn cwd(&self) -> (r: &str)
        ensures
            r@ == self@.cwd,
    {
        self.cwd.as_str()
    }

    /// The conversation.
    pub fn messages(&self) -> (r: &Vec<Message>)
        ensures
            said(r@) == self@.messages,
    {
        &self.messages
    }

    /// The entry that the next one follows.
    pub fn last_id(&self) -> (r: Option<String>)
        ensures
            opt_view(r) == self@.last_id,
    {
        copy_opt(&self.last_id)
    }

    /// Take note of an entry that was written and is no message.
    pub fn wrote(&mut self, entry: &str)
        requires
            old(self).wf(),
        ensures
            final(self).wf(),
            final(self)@ == done(old(self)@, Deed::Note, entry@),
    {
        self.last_id = Some(entry.to_owned());
    }

    /// Append a message whose entry was written.
    pub fn append_message(&mut self, msg: Message, entry: &str)
        requires
            old(self).wf(),
        ensures
            final(self).wf(),
            final(self)@ == done(old(self)@, Deed::Append(msg@), entry@),
    {
        proof {
            lemma_said_push(self.messages@, msg);
        }
        self.messages.push(msg);
        self.message_ids.push(entry.to_owned());
        self.last_id = Some(entry.to_owned());
    }

    /// What a compaction at `split` records: the entry of the first message that is
    /// kept, and how many are.
    pub fn compaction_record(&self, split: usize) -> (r: (Option<String>, usize))
        requires
            self.wf(),
        ensures
            opt_view(r.0) == first_kept(self@, split as nat),
            r.1 == self@.messages.len() - split_at(self@, split as nat),
    {
        let n = self.messages.len();
        let at: usize = if split <= n {
            split
        } else {
            n
        };
        let kept = if at < n {
            assert(views(self.message_ids@)[at as int] == self.message_ids@[at as int]@);
            Some(self.message_ids[at].clone())
        } else {
            None
        };
        (kept, n - at)
    }

    /// Collapse everything before `split` into a summary, whose entry was written, and
    /// keep the rest verbatim.
    pub fn compact(&mut self, summary: &str, split: usize, entry: &str)
        requires
            old(self).wf(),
        ensures
            final(self).wf(),
            final(self)@ == done(old(self)@, Deed::Compact(summary@, split as nat), entry@),
    {
        let n = self.messages.len();
        let at: usize = if split <= n {
            split
        } else {
            n
        };
        self.sum_up(summary, at, entry);
    }
}

/// Open a session: replay its entries.
pub fn open(entries: Vec<SessionEntry>) -> (r: Session)
    ensures
        r.wf(),
        r@ == replayed_all(entries@, entries@.len()),
{
    let mut s = Session::new();
    let ghost all = entries@;
    let mut rest = entries;
    let ghost mut done: nat = 0;
    while rest.len() > 0
        invariant
            s.wf(),
            done <= all.len(),
            rest@ == all.skip(done as int),
            s@ == replayed_all(all, done),
        decreases rest.len(),
    {
        let e = rest.remove(0);
        assert(e == all[done as int]);
        s.replay(e);
        proof {
            done = done + 1;
            assert(rest@ =~= all.skip(done as int));
        }
    }
    s
}

/// Is an event written into the transcript? Streamed pieces are not: they say nothing
/// that the message does not.
pub fn is_recorded(ev: &Event) -> (r: bool)
    ensures
        r == !(ev is MessageDelta || ev is Thinking),
{
    match ev {
        Event::MessageDelta { .. } => false,
        Event::Thinking { .. } => false,
        _ => true,
    }
}

/// The first of the sessions for a directory that no other one is newer than.
pub open spec fn most_recent(s: Seq<(bool, u128)>, n: nat) -> Option<int>
    decreases n,
{
    if n == 0 {
        None
    } else {
        let before = most_recent(s, (n - 1) as nat);
        if !s[n - 1].0 {
            before
        } else {
            match before {
                Some(i) => if s[i].1 >= s[n - 1].1 {
                    Some(i)
                } else {
                    Some(n - 1)
                },
                None => Some(n - 1),
            }
        }
    }
}

/// The most recent session for a directory: of each, whether it is one, and when it
/// was changed last.
pub fn most_recent_for_cwd(s: &Vec<(bool, u128)>) -> (r: Option<usize>)
    ensures
        match r {
            Some(i) => most_recent(s@, s@.len()) == Some(i as int) && i < s@.len(),
            None => most_recent(s@, s@.len()) is None,
        },
{
    let mut best: Option<usize> = None;
    let mut i: usize = 0;
    while i < s.len()
        invariant
            i <= s@.len(),
            match best {
                Some(b) => most_recent(s@, i as nat) == Some(b as int) && b < i,
                None => most_recent(s@, i as nat) is None,
            },
        decreases s.len() - i,
    {
        if s[i].0 {
            best = match best {
                Some(b) => if s[b].1 >= s[i].1 {
                    Some(b)
                } else {
                    Some(i)
                },
                None => Some(i),
            };
        }
        i = i + 1;
    }
    best
}

// ---- laws -------------------------------------------------------------------

/// Every message has an entry of its own.
pub open spec fn sound(c: Conversation) -> bool {
    c.messages.len() == c.ids.len() && c.ids.no_duplicates()
}

/// Is an entry the record of what a live session does next? A compaction records the
/// summary and the entry of the first message that it keeps.
pub open spec fn is_record(c: Conversation, deed: Deed, e: SessionEntry) -> bool {
    match deed {
        Deed::Create(cwd, id) => e.data matches Recorded::Meta { cwd: x, id: y } && opt_view(x)
            == Some(cwd) && opt_view(y) == Some(id),
        Deed::Append(m) => e.data matches Recorded::Message(x) && x is Some && x->0@ == m,
        Deed::Note => e.data is Other,
        Deed::Compact(summary, split) => e.data matches Recorded::Compaction {
            summary: x,
            kept_from: k,
        } && opt_view(x) == Some(summary) && opt_view(k) == first_kept(c, split),
    }
}

/// Replaying the record of what a live session did is doing it.
pub proof fn a_record_replays_to_the_deed(c: Conversation, deed: Deed, e: SessionEntry)
    requires
        sound(c),
        is_record(c, deed, e),
    ensures
        replayed(c, e) == done(c, deed, e.id@),
{
    if let Deed::Compact(summary, split) = deed {
        let at = split_at(c, split);
        if at < c.messages.len() {
            lemma_id_index_is(c.ids, c.ids[at], at as nat);
        }
    }
}

/// The conversation of a live session once it did the first `n` of these things, each
/// writing its entry.
pub open spec fn lived(deeds: Seq<Deed>, es: Seq<SessionEntry>, n: nat) -> Conversation
    decreases n,
{
    if n == 0 {
        blank()
    } else {
        done(lived(deeds, es, (n - 1) as nat), deeds[n - 1], es[n - 1].id@)
    }
}

/// Has every entry an id of its own?
pub open spec fn own_ids(es: Seq<SessionEntry>) -> bool {
    forall|i: int, j: int| 0 <= i < j < es.len() ==> (#[trigger] es[i]).id@ != (#[trigger] es[j]).id@
}

proof fn lemma_reload(deeds: Seq<Deed>, es: Seq<SessionEntry>, n: nat)
    requires
        n <= es.len(),
        deeds.len() == es.len(),
        own_ids(es),
        forall|i: int|
            0 <= i < es.len() ==> is_record(
                lived(deeds, es, i as nat),
                #[trigger] deeds[i],
                #[trigger] es[i],
            ),
    ensures
        replayed_all(es, n) == lived(deeds, es, n),
        sound(lived(deeds, es, n)),
        forall|k: int|
            0 <= k < lived(deeds, es, n).ids.len() ==> exists|i: int|
                0 <= i < n && (#[trigger] es[i]).id@ == #[trigger] lived(deeds, es, n).ids[k],
    decreases n,
{
    if n > 0 {
        let m = (n - 1) as nat;
        lemma_reload(deeds, es, m);
        let c = lived(deeds, es, m);
        let e = es[n - 1];
        let d = lived(deeds, es, n);
        assert(is_record(lived(deeds, es, (n - 1) as nat), deeds[n - 1], es[n - 1]));
        a_record_replays_to_the_deed(c, deeds[n - 1], e);
        assert(!c.ids.contains(e.id@)) by {
            if c.ids.contains(e.id@) {
                let k = choose|k: int| 0 <= k < c.ids.len() && c.ids[k] == e.id@;
                let i = choose|i: int| 0 <= i < m && (#[trigger] es[i]).id@ == c.ids[k];
                assert(es[i].id@ != es[n - 1].id@);
            }
        }
        entries_keep_a_session_sound(c, e);
        assert forall|k: int| 0 <= k < d.ids.len() implies exists|i: int|
            0 <= i < n && (#[trigger] es[i]).id@ == #[trigger] d.ids[k] by {
            if d.ids[k] == e.id@ {
                assert(es[n - 1].id@ == d.ids[k]);
            } else {
                assert(c.ids.contains(d.ids[k]));
                let j = choose|j: int| 0 <= j < c.ids.len() && c.ids[j] == d.ids[k];
                let i = choose|i: int| 0 <= i < m && (#[trigger] es[i]).id@ == c.ids[j];
                assert(es[i].id@ == d.ids[k]);
            }
        }
    }
}

/// A reload gives back what the live session had. Whatever a session does from its
/// beginning, in whatever order it takes in messages, records events and is compacted: as
/// long as every entry has an id of its own, replaying all entries gives the same
/// conversation, id and directory.
pub proof fn a_reload_gives_back_the_session(deeds: Seq<Deed>, es: Seq<SessionEntry>)
    requires
        deeds.len() == es.len(),
        own_ids(es),
        forall|i: int|
            0 <= i < es.len() ==> is_record(
                lived(deeds, es, i as nat),
                #[trigger] deeds[i],
                #[trigger] es[i],
            ),
    ensures
        replayed_all(es, es.len()) == lived(deeds, es, es.len()),
{
    lemma_reload(deeds, es, es.len());
}

/// A conversation stays sound as long as its entries have ids of their own.
pub proof fn entries_keep_a_session_sound(c: Conversation, e: SessionEntry)
    requires
        sound(c),
        !c.ids.contains(e.id@),
    ensures
        sound(replayed(c, e)),
{
    let d = replayed(c, e);
    match e.data {
        Recorded::Message(Some(m)) => {
            assert forall|i: int, j: int| 0 <= i < j < d.ids.len() implies d.ids[i] != d.ids[j] by {
                if j == c.ids.len() {
                    assert(c.ids[i] != e.id@);
                }
            }
        },
        Recorded::Compaction { summary, kept_from } => {
            if summary is Some {
                if let Some(k) = kept_from {
                    lemma_id_index(c.ids, k@);
                }
                let start = c.ids.len() - (d.ids.len() - 1);
                assert(d.ids =~= seq![e.id@] + c.ids.skip(start));
                assert forall|i: int, j: int| 0 <= i < j < d.ids.len() implies d.ids[i] != d.ids[j] by {
                    assert(d.ids[j] == c.ids[start + j - 1]);
                    if i > 0 {
                        assert(d.ids[i] == c.ids[start + i - 1]);
                    }
                }
            }
        },
        _ => {},
    }
}

/// A compaction never loses what it keeps: the kept messages stand behind the summary,
/// unchanged and in order.
pub proof fn a_compaction_keeps_the_rest(
    c: Conversation,
    summary: Seq<char>,
    split: int,
    entry: Seq<char>,
    i: int,
)
    requires
        0 <= split <= i < c.messages.len(),
    ensures
        summed_up(c, summary, split, entry).messages[i - split + 1] == c.messages[i],
        summed_up(c, summary, split, entry).messages.len() == c.messages.len() - split + 1,
{
}

/// The messages that the first `n` entries record.
pub open spec fn messages_in(es: Seq<SessionEntry>, n: nat) -> Seq<Said>
    decreases n,
{
    if n == 0 {
        seq![]
    } else {
        match es[n - 1].data {
            Recorded::Message(Some(m)) => messages_in(es, (n - 1) as nat).push(m@),
            _ => messages_in(es, (n - 1) as nat),
        }
    }
}

/// The entries, among the first `n`, that record a message.
pub open spec fn message_entries(es: Seq<SessionEntry>, n: nat) -> Seq<Seq<char>>
    decreases n,
{
    if n == 0 {
        seq![]
    } else {
        match es[n - 1].data {
            Recorded::Message(Some(_)) => message_entries(es, (n - 1) as nat).push(es[n - 1].id@),
            _ => message_entries(es, (n - 1) as nat),
        }
    }
}

/// A transcript in which nothing was summed up comes back whole: every message, in order,
/// under the entry that recorded it, with the place and the name that were recorded last,
/// and the last entry of all as the one to go on from.
pub proof fn a_transcript_comes_back_whole(es: Seq<SessionEntry>, n: nat)
    requires
        n <= es.len(),
        forall|i: int| 0 <= i < n ==> !((#[trigger] es[i]).data is Compaction),
    ensures
        replayed_all(es, n).messages == messages_in(es, n),
        replayed_all(es, n).ids == message_entries(es, n),
        n > 0 ==> replayed_all(es, n).last_id == Some(es[n - 1].id@),
        n > 0 ==> (es[n - 1].data matches Recorded::Meta { cwd: Some(x), .. } ==> replayed_all(
            es,
            n,
        ).cwd == x@),
        n > 0 ==> (es[n - 1].data matches Recorded::Meta { id: Some(x), .. } ==> replayed_all(
            es,
            n,
        ).id == x@),
        n > 0 && !(es[n - 1].data is Meta) ==> replayed_all(es, n).cwd == replayed_all(
            es,
            (n - 1) as nat,
        ).cwd && replayed_all(es, n).id == replayed_all(es, (n - 1) as nat).id,
    decreases n,
{
    if n > 0 {
        a_transcript_comes_back_whole(es, (n - 1) as nat);
    }
}

/// What a live session holds is all that was said to it: a message is added at the end, a
/// note adds nothing, and summing up puts one message, which tells the summary, in the
/// place of all those before the split and of no other.
pub proof fn a_live_session_loses_only_what_is_summed_up(
    c: Conversation,
    m: Said,
    summary: Seq<char>,
    split: nat,
    entry: Seq<char>,
)
    requires
        c.messages.len() == c.ids.len(),
    ensures
        done(c, Deed::Append(m), entry).messages == c.messages.push(m),
        done(c, Deed::Append(m), entry).ids == c.ids.push(entry),
        done(c, Deed::Note, entry) == (Conversation { last_id: Some(entry), ..c }),
        ({
            let d = done(c, Deed::Compact(summary, split), entry);
            let gone = if split <= c.messages.len() {
                split as int
            } else {
                c.messages.len() as int
            };
            &&& d.messages.len() == c.messages.len() - gone + 1
            &&& d.ids.len() == d.messages.len()
            &&& d.messages[0].role == Role::User
            &&& d.messages[0].content matches Some(t) && crate::text::contains(t, summary)
            &&& d.ids[0] == entry
            &&& forall|k: int|
                gone <= k < c.messages.len() ==> d.messages[k - gone + 1] == #[trigger] c.messages[k]
                    && d.ids[k - gone + 1] == c.ids[k]
            &&& d.id == c.id
            &&& d.cwd == c.cwd
        }),
{
    let t = "[Summary of earlier conversation]\n"@ + summary;
    let at = "[Summary of earlier conversation]\n"@.len() as int;
    assert(t.subrange(at, at + summary.len()) =~= summary);
    assert(crate::text::occurs_at(t, summary, at));
}

/// The session that is gone on with is one for the directory, and of those none was changed
/// later; where there is none for the directory, none is chosen.
pub proof fn the_latest_session_is_gone_on_with(s: Seq<(bool, u128)>, n: nat)
    requires
        n <= s.len(),
    ensures
        match most_recent(s, n) {
            Some(i) => 0 <= i < n && s[i].0 && (forall|j: int|
                0 <= j < n && (#[trigger] s[j]).0 ==> s[j].1 <= s[i].1) && (forall|j: int|
                0 <= j < i && (#[trigger] s[j]).0 ==> s[j].1 < s[i].1),
            None => forall|j: int| 0 <= j < n ==> !(#[trigger] s[j]).0,
        },
    decreases n,
{
    if n > 0 {
        the_latest_session_is_gone_on_with(s, (n - 1) as nat);
    }
}

} // verus!
