//! Deciding whether to use a project's own configuration.
//!
//! A project's configuration is code: it can name a command that runs unattended and
//! an address to which prompts are sent. So it is asked about once per project, and
//! the answer is remembered by content: trusting a file does not bless whatever that
//! file becomes.
use vstd::prelude::*;
use vstd::string::*;

use crate::list::{group_lists, views};
use crate::text::{ascii_lowered, ends, ends_with, lower_ascii, same, trim, trimmed};
use crate::toml_value::{
    entries_view, group_toml, leaf_text, render_leaf, toml_read, Toml, TomlTree,
};

pub use crate::digest::fingerprint;

verus! {

broadcast use {group_lists, group_toml};

/// What was decided about one project.
#[derive(Debug, Clone, Copy, PartialEq, Eq, Structural)]
pub enum Decision {
    /// Use the project's configuration.
    Trust,
    /// Ignore it.
    Ignore,
}

/// One remembered answer.
#[derive(Debug)]
pub struct Record {
    /// The fingerprint of the file when the decision was made.
    pub fingerprint: String,
    pub decision: Decision,
    /// When, in seconds since the start of 1970.
    pub decided_at: u64,
}

/// What a remembered answer says.
pub struct Remembered {
    pub fingerprint: Seq<char>,
    pub decision: Decision,
    pub decided_at: u64,
}

impl View for Record {
    type V = Remembered;

    open spec fn view(&self) -> Remembered {
        Remembered {
            fingerprint: self.fingerprint@,
            decision: self.decision,
            decided_at: self.decided_at,
        }
    }
}

/// The remembered answers, by the project's resolved path.
#[derive(Debug, Default)]
pub struct TrustStore {
    projects: Vec<(String, Record)>,
}

spec fn first_for(s: Seq<(String, Record)>, key: Seq<char>) -> nat
    decreases s.len(),
{
    if s.len() == 0 || s[0].0@ == key {
        0
    } else {
        1 + first_for(s.drop_first(), key)
    }
}

spec fn answers(s: Seq<(String, Record)>) -> Map<Seq<char>, Remembered> {
    Map::new(
        |k: Seq<char>| first_for(s, k) < s.len(),
        |k: Seq<char>| s[first_for(s, k) as int].1@,
    )
}

impl View for TrustStore {
    type V = Map<Seq<char>, Remembered>;

    closed spec fn view(&self) -> Map<Seq<char>, Remembered> {
        answers(self.projects@)
    }
}

proof fn lemma_first_for(s: Seq<(String, Record)>, key: Seq<char>)
    ensures
        first_for(s, key) <= s.len(),
        first_for(s, key) < s.len() ==> s[first_for(s, key) as int].0@ == key,
        forall|i: int| 0 <= i < first_for(s, key) ==> (#[trigger] s[i]).0@ != key,
    decreases s.len(),
{
    if s.len() > 0 && s[0].0@ != key {
        lemma_first_for(s.drop_first(), key);
        assert forall|i: int| 0 <= i < first_for(s, key) implies (#[trigger] s[i]).0@ != key by {
            if i > 0 {
                assert(s[i] == s.drop_first()[i - 1]);
            }
        }
    }
}

proof fn lemma_first_for_is(s: Seq<(String, Record)>, key: Seq<char>, n: nat)
    requires
        n <= s.len(),
        n < s.len() ==> s[n as int].0@ == key,
        forall|i: int| 0 <= i < n ==> (#[trigger] s[i]).0@ != key,
    ensures
        first_for(s, key) == n,
{
    lemma_first_for(s, key);
    let m = first_for(s, key);
    if m < n {
        assert(s[m as int].0@ != key);
    } else if n < m {
        assert(s[n as int].0@ != key);
    }
}

/// The standing decision, if the file still has the content it had when the decision
/// was made.
pub open spec fn standing(
    answers: Map<Seq<char>, Remembered>,
    project: Seq<char>,
    fingerprint: Seq<char>,
) -> Option<Decision> {
    if answers.dom().contains(project) && answers[project].fingerprint == fingerprint {
        Some(answers[project].decision)
    } else {
        None
    }
}

/// Was a project trusted before, under other content than this?
pub open spec fn trusted_otherwise(
    answers: Map<Seq<char>, Remembered>,
    project: Seq<char>,
    print: Seq<char>,
) -> bool {
    answers.dom().contains(project) && answers[project].decision == Decision::Trust
        && answers[project].fingerprint != print
}

impl TrustStore {
    /// No project stands in the store twice.
    pub closed spec fn wf(&self) -> bool {
        forall|i: int, j: int|
            0 <= i < j < self.projects@.len() ==> (#[trigger] self.projects@[i]).0@ != (
            #[trigger] self.projects@[j]).0@
    }

    /// Nothing is decided yet.
    pub fn new() -> (r: TrustStore)
        ensures
            r.wf(),
            r@ == Map::<Seq<char>, Remembered>::empty(),
    {
        let r = TrustStore { projects: Vec::new() };
        assert(r@ =~= Map::<Seq<char>, Remembered>::empty());
        r
    }

    fn find(&self, project: &str) -> (r: usize)
        ensures
            r == first_for(self.projects@, project@),
            r <= self.projects@.len(),
    {
        let mut i: usize = 0;
        while i < self.projects.len() && !same(self.projects[i].0.as_str(), project)
            invariant
                i <= self.projects@.len(),
                forall|j: int| 0 <= j < i ==> (#[trigger] self.projects@[j]).0@ != project@,
            decreases self.projects.len() - i,
        {
            i = i + 1;
        }
        proof {
            lemma_first_for_is(self.projects@, project@, i as nat);
        }
        i
    }

    /// The standing decision for a project, if its file still has the content it had
    /// when the decision was made. The path is resolved.
    pub fn decision_for(&self, project: &str, fingerprint: &str) -> (r: Option<Decision>)
        ensures
            r == standing(self@, project@, fingerprint@),
    {
        let i = self.find(project);
        if i < self.projects.len() && same(
            self.projects[i].1.fingerprint.as_str(),
            fingerprint,
        ) {
            Some(self.projects[i].1.decision)
        } else {
            None
        }
    }

    /// Was this project decided about before, under different content?
    pub fn was_decided_under_other_content(&self, project: &str, fingerprint: &str) -> (r: bool)
        ensures
            r == (self@.dom().contains(project@) && self@[project@].fingerprint != fingerprint@),
    {
        let i = self.find(project);
        i < self.projects.len() && !same(self.projects[i].1.fingerprint.as_str(), fingerprint)
    }

    /// Was this project trusted before, under different content?
    pub fn was_trusted_under_other_content(&self, project: &str, fingerprint: &str) -> (r: bool)
        ensures
            r == trusted_otherwise(self@, project@, fingerprint@),
    {
        let i = self.find(project);
        i < self.projects.len() && self.projects[i].1.decision == Decision::Trust && !same(
            self.projects[i].1.fingerprint.as_str(),
            fingerprint,
        )
    }

    /// Remember a decision about a project's content.
    pub fn record(&mut self, project: &str, fingerprint: &str, decision: Decision, now: u64)
        requires
            old(self).wf(),
        ensures
            final(self).wf(),
            final(self)@ == old(self)@.insert(
                project@,
                Remembered { fingerprint: fingerprint@, decision, decided_at: now },
            ),
    {
        let ghost a = self.projects@;
        let i = self.find(project);
        proof {
            lemma_first_for(a, project@);
        }
        let rec = Record { fingerprint: fingerprint.to_owned(), decision, decided_at: now };
        let ghost says = rec@;
        if i < self.projects.len() {
            self.projects[i].1 = rec;
        } else {
            self.projects.push((project.to_owned(), rec));
        }
        let ghost b = self.projects@;
        proof {
            let n = i as nat;
            assert forall|x: int, y: int| 0 <= x < y < b.len() implies (#[trigger] b[x]).0@ != (
            #[trigger] b[y]).0@ by {
                if y < a.len() {
                    assert(a[x].0@ != a[y].0@);
                } else {
                    assert(a[x].0@ != project@);
                }
            }
            lemma_first_for_is(b, project@, n);
            assert forall|q: Seq<char>| q != project@ implies (first_for(b, q) < b.len()
                <==> first_for(a, q) < a.len()) && (first_for(a, q) < a.len() ==> first_for(b, q)
                == first_for(a, q)) by {
                lemma_first_for(a, q);
                let f = first_for(a, q);
                if f < a.len() {
                    assert forall|j: int| 0 <= j < f implies (#[trigger] b[j]).0@ != q by {
                        assert(a[j].0@ != q);
                    }
                    lemma_first_for_is(b, q, f);
                } else {
                    assert forall|j: int| 0 <= j < b.len() implies (#[trigger] b[j]).0@ != q by {
                        if j < a.len() {
                            assert(a[j].0@ != q);
                        }
                    }
                    lemma_first_for_is(b, q, b.len());
                }
            }
            let m = answers(a).insert(project@, says);
            assert forall|q: Seq<char>| answers(b).dom().contains(q) implies answers(b)[q] == m[q] by {
                if q != project@ {
                    lemma_first_for(a, q);
                }
            }
            assert(answers(b) =~= m);
        }
    }

    /// Forget a project's decision, so that the next run asks again. Says whether
    /// there was one.
    pub fn revoke(&mut self, project: &str) -> (r: bool)
        requires
            old(self).wf(),
        ensures
            final(self).wf(),
            r == old(self)@.dom().contains(project@),
            final(self)@ == old(self)@.remove(project@),
    {
        let ghost a = self.projects@;
        let i = self.find(project);
        proof {
            lemma_first_for(a, project@);
        }
        if i >= self.projects.len() {
            assert(answers(a).remove(project@) =~= answers(a));
            return false;
        }
        self.projects.remove(i);
        let ghost b = self.projects@;
        proof {
            let n = i as int;
            assert forall|x: int, y: int| 0 <= x < y < b.len() implies (#[trigger] b[x]).0@ != (
            #[trigger] b[y]).0@ by {
                let x2 = if x < n { x } else { x + 1 };
                let y2 = if y < n { y } else { y + 1 };
                assert(a[x2].0@ != a[y2].0@);
            }
            assert forall|j: int| 0 <= j < b.len() implies (#[trigger] b[j]).0@ != project@ by {
                if j < n {
                    assert(a[j].0@ != a[n].0@);
                } else {
                    assert(a[n].0@ != a[j + 1].0@);
                }
            }
            lemma_first_for_is(b, project@, b.len());
            assert forall|q: Seq<char>| q != project@ implies (first_for(b, q) < b.len()
                <==> first_for(a, q) < a.len()) && (first_for(a, q) < a.len() ==> b[first_for(
                b,
                q,
            ) as int] == a[first_for(a, q) as int]) by {
                lemma_first_for(a, q);
                let f = first_for(a, q);
                if f < a.len() {
                    let g = if f < n { f as int } else { f - 1 };
                    assert forall|j: int| 0 <= j < g implies (#[trigger] b[j]).0@ != q by {
                        if j < n {
                            assert(a[j].0@ != q);
                        } else {
                            assert(a[j + 1].0@ != q);
                        }
                    }
                    lemma_first_for_is(b, q, g as nat);
                } else {
                    assert forall|j: int| 0 <= j < b.len() implies (#[trigger] b[j]).0@ != q by {
                        if j < n {
                            assert(a[j].0@ != q);
                        } else {
                            assert(a[j + 1].0@ != q);
                        }
                    }
                    lemma_first_for_is(b, q, b.len());
                }
            }
            let m = answers(a).remove(project@);
            assert forall|q: Seq<char>| answers(b).dom().contains(q) implies answers(b)[q] == m[q] by {
                lemma_first_for(b, q);
            }
            assert(answers(b) =~= m);
        }
        true
    }
}

// ---- the question -----------------------------------------------------------

/// Why a key deserves a warning rather than a plain listing.
pub open spec fn why_it_matters(key: Seq<char>) -> Option<Seq<char>> {
    if key == "agent.validate"@ {
        Some("runs as a shell command on your machine, after every turn"@)
    } else if ends_with(key, ".base-url"@) {
        Some("your prompts and file contents would be sent here"@)
    } else if key == "model"@ {
        Some("chooses which model, and therefore which provider, is used"@)
    } else if key == "agents.model"@ {
        Some("chooses the model spawned workers run on"@)
    } else {
        None
    }
}

/// Why a key deserves a warning, if it does.
pub fn consequence(key: &str) -> (r: Option<&'static str>)
    ensures
        match r {
            Some(s) => why_it_matters(key@) == Some(s@),
            None => why_it_matters(key@) is None,
        },
{
    if same(key, "agent.validate") {
        return Some("runs as a shell command on your machine, after every turn");
    }
    if ends(key, ".base-url") {
        return Some("your prompts and file contents would be sent here");
    }
    if same(key, "model") {
        return Some("chooses which model, and therefore which provider, is used");
    }
    if same(key, "agents.model") {
        return Some("chooses the model spawned workers run on");
    }
    None
}

/// One setting that a file makes: its key, its value, and why it matters.
pub type SettingLine = (String, String, Option<&'static str>);

/// What a setting line says.
pub struct Line {
    pub key: Seq<char>,
    pub value: Seq<char>,
    pub why: Option<Seq<char>>,
}

/// What a list of setting lines says.
pub open spec fn lines_view(v: Seq<SettingLine>) -> Seq<Line> {
    Seq::new(v.len(), |i: int| line_view(v[i]))
}

/// What a setting line says.
pub open spec fn line_view(l: SettingLine) -> Line {
    Line {
        key: l.0@,
        value: l.1@,
        why: match l.2 {
            Some(s) => Some(s@),
            None => None,
        },
    }
}

/// The key of an entry, below a prefix.
pub open spec fn dotted(prefix: Seq<char>, key: Seq<char>) -> Seq<char> {
    if prefix.len() == 0 {
        key
    } else {
        prefix + "."@ + key
    }
}

/// The settings that a value makes, each with its dotted key.
pub open spec fn flattened(t: TomlTree, prefix: Seq<char>) -> Seq<Line>
    decreases t, 0nat,
{
    match t {
        TomlTree::Table(e) => flattened_entries(e, prefix, e.len()),
        _ => seq![
            Line { key: prefix, value: leaf_text(t), why: why_it_matters(prefix) },
        ],
    }
}

/// The settings that the first `n` entries of a table make.
pub open spec fn flattened_entries(
    e: Seq<(Seq<char>, TomlTree)>,
    prefix: Seq<char>,
    n: nat,
) -> Seq<Line>
    decreases e, n,
{
    if n == 0 || n > e.len() {
        seq![]
    } else {
        flattened_entries(e, prefix, (n - 1) as nat) + flattened(
            e[n - 1].1,
            dotted(prefix, e[n - 1].0),
        )
    }
}

fn flatten(v: &Toml, prefix: &str, out: &mut Vec<SettingLine>)
    ensures
        lines_view(final(out)@) == lines_view(old(out)@) + flattened(v@, prefix@),
    decreases *v,
{
    let ghost before = lines_view(out@);
    match v {
        Toml::Table(entries) => {
            let ghost e = entries_view(entries@);
            let mut i: usize = 0;
            assert(lines_view(out@) =~= before + flattened_entries(e, prefix@, 0));
            while i < entries.len()
                invariant
                    i <= entries@.len(),
                    *v == Toml::Table(*entries),
                    v@ == TomlTree::Table(e),
                    e == entries_view(entries@),
                    lines_view(out@) == before + flattened_entries(e, prefix@, i as nat),
                decreases entries.len() - i,
            {
                assert(decreases_to!(*v => v->Table_0));
                assert(decreases_to!(v->Table_0 => v->Table_0@[i as int]));
                assert(decreases_to!(entries@[i as int] => entries@[i as int].1));
                assert(e[i as int] == (entries@[i as int].0@, entries@[i as int].1@));
                let key = if prefix.unicode_len() == 0 {
                    entries[i].0.clone()
                } else {
                    let mut k = prefix.to_owned();
                    k.append(".");
                    k.append(entries[i].0.as_str());
                    k
                };
                flatten(&entries[i].1, key.as_str(), out);
                i = i + 1;
                assert(lines_view(out@) =~= before + flattened_entries(e, prefix@, i as nat));
            }
        },
        _ => {
            let value = render_leaf(v);
            let line = (prefix.to_owned(), value, consequence(prefix));
            out.push(line);
            assert(lines_view(out@) =~= before + flattened(v@, prefix@));
        },
    }
}

/// The lines among the first `n` that matter, or those that do not.
pub open spec fn lines_that(s: Seq<Line>, matter: bool, n: nat) -> Seq<Line>
    decreases n,
{
    if n == 0 {
        seq![]
    } else if (s[n - 1].why is Some) == matter {
        lines_that(s, matter, (n - 1) as nat).push(s[n - 1])
    } else {
        lines_that(s, matter, (n - 1) as nat)
    }
}

/// What a file would change: the settings that matter first, otherwise in order. A file
/// that does not parse says so.
pub open spec fn described(text: Seq<char>) -> Seq<Line> {
    match toml_read(text) {
        None => seq![
            Line {
                key: "(unparseable)"@,
                value: "this file is not valid TOML"@,
                why: Some("worksmith would fail to load it"@),
            },
        ],
        Some(t) => ranked(flattened(t, seq![])),
    }
}

/// The settings that matter first, otherwise in order.
pub open spec fn ranked(s: Seq<Line>) -> Seq<Line> {
    lines_that(s, true, s.len()) + lines_that(s, false, s.len())
}

fn rank(all: Vec<SettingLine>) -> (r: Vec<SettingLine>)
    ensures
        lines_view(r@) == ranked(lines_view(all@)),
{
    let ghost s = lines_view(all@);
    let mut first: Vec<SettingLine> = Vec::new();
    let mut rest: Vec<SettingLine> = Vec::new();
    let mut i: usize = 0;
    assert(lines_view(first@) =~= seq![]);
    assert(lines_view(rest@) =~= seq![]);
    while i < all.len()
        invariant
            i <= all@.len(),
            s == lines_view(all@),
            lines_view(first@) == lines_that(s, true, i as nat),
            lines_view(rest@) == lines_that(s, false, i as nat),
        decreases all.len() - i,
    {
        let line = (all[i].0.clone(), all[i].1.clone(), all[i].2);
        assert(line_view(line) == s[i as int]);
        if all[i].2.is_some() {
            let ghost before = lines_view(first@);
            first.push(line);
            assert(lines_view(first@) =~= before.push(s[i as int]));
        } else {
            let ghost before = lines_view(rest@);
            rest.push(line);
            assert(lines_view(rest@) =~= before.push(s[i as int]));
        }
        i = i + 1;
    }
    let ghost a = lines_view(first@);
    let ghost b = lines_view(rest@);
    first.append(&mut rest);
    assert(lines_view(first@) =~= a + b);
    first
}

/// What a parsed file would change.
pub fn describe_table(table: &Toml) -> (r: Vec<SettingLine>)
    ensures
        lines_view(r@) == ranked(flattened(table@, seq![])),
{
    let mut out: Vec<SettingLine> = Vec::new();
    let none = String::new();
    assert(none@ =~= seq![]);
    assert(lines_view(out@) =~= seq![]);
    flatten(table, none.as_str(), &mut out);
    assert(lines_view(out@) =~= flattened(table@, seq![]));
    rank(out)
}

/// What a file would change.
pub fn describe_settings(text: &str) -> (r: Vec<SettingLine>)
    ensures
        lines_view(r@) == described(text@),
{
    match Toml::parse(text) {
        Some(table) => describe_table(&table),
        None => {
            let mut out: Vec<SettingLine> = Vec::new();
            out.push(
                (
                    "(unparseable)".to_owned(),
                    "this file is not valid TOML".to_owned(),
                    Some("worksmith would fail to load it"),
                ),
            );
            assert(lines_view(out@) =~= described(text@));
            out
        },
    }
}

/// What the user is being asked about.
#[derive(Debug, Clone, PartialEq, Eq)]
pub struct TrustPrompt {
    pub config_path: String,
    pub fingerprint: String,
    /// Key, value, and why it matters, for the settings that can run code or move data.
    pub settings: Vec<SettingLine>,
    /// True when this project was trusted before and the file has since changed.
    pub changed_since_trusted: bool,
}

/// Build the question for a project's file: its bytes, and its text.
pub fn prompt_for(
    project: &str,
    config_path: &str,
    bytes: &[u8],
    text: &str,
    store: &TrustStore,
) -> (r: TrustPrompt)
    ensures
        r.config_path@ == config_path@,
        r.fingerprint@ == crate::digest::print_of(bytes@),
        lines_view(r.settings@) == described(text@),
        r.changed_since_trusted == (store@.dom().contains(project@) && store@[project@].decision
            == Decision::Trust && store@[project@].fingerprint != crate::digest::print_of(bytes@)),
{
    let print = fingerprint(bytes);
    let changed = store.was_trusted_under_other_content(project, print.as_str());
    TrustPrompt {
        config_path: config_path.to_owned(),
        settings: describe_settings(text),
        changed_since_trusted: changed,
        fingerprint: print,
    }
}

/// How a project's configuration is decided about before a run.
#[derive(Debug, Clone, Copy, PartialEq, Eq, Structural)]
pub enum TrustStep {
    /// There is nothing to decide.
    Settled,
    /// It is trusted, because the caller says so.
    Trusted,
    /// It is ignored, and that is said, because nobody can be asked.
    Ignored,
    /// Ask.
    Ask,
}

/// How a project's configuration is decided about before a run: only an undecided one
/// is a question, and only somebody who is there can be asked.
pub fn trust_step(pending: bool, told_to: bool, interactive: bool) -> (r: TrustStep)
    ensures
        r == if !pending {
            TrustStep::Settled
        } else if told_to {
            TrustStep::Trusted
        } else if interactive {
            TrustStep::Ask
        } else {
            TrustStep::Ignored
        },
{
    if !pending {
        TrustStep::Settled
    } else if told_to {
        TrustStep::Trusted
    } else if interactive {
        TrustStep::Ask
    } else {
        TrustStep::Ignored
    }
}

/// What is said where nobody can be asked.
pub fn ignored_note(config_path: &str) -> (r: String)
    ensures
        r@ == "note: ignoring "@ + config_path@
            + " — this project's config has not been trusted.\nRun worksmith here interactively to decide, or pass --trust-project."@,
{
    let mut s = "note: ignoring ".to_owned();
    s.append(config_path);
    s.append(
        " — this project's config has not been trusted.\nRun worksmith here interactively to decide, or pass --trust-project.",
    );
    s
}

/// How a setting is put before the user: one that matters stands out, with the reason.
pub open spec fn setting_words(l: Line) -> Seq<char> {
    match l.why {
        Some(why) => "  ! "@ + l.key + " = "@ + l.value + "\n      "@ + why,
        None => "    "@ + l.key + " = "@ + l.value,
    }
}

/// The question about a project's configuration, line by line.
pub open spec fn question(path: Seq<char>, settings: Seq<Line>, changed: bool) -> Seq<Seq<char>> {
    seq![
        if changed {
            "\nThis project's worksmith config has CHANGED since you trusted it:"@
        } else {
            "\nThis project has its own worksmith config:"@
        },
        "  "@ + path,
        Seq::<char>::empty(),
    ] + Seq::new(settings.len(), |i: int| setting_words(settings[i])) + seq![Seq::<char>::empty()]
}

/// The question about a project's configuration, line by line: every setting is shown
/// before anyone says yes.
pub fn question_lines(p: &TrustPrompt) -> (r: Vec<String>)
    ensures
        views(r@) == question(
            p.config_path@,
            lines_view(p.settings@),
            p.changed_since_trusted,
        ),
{
    let ghost settings = lines_view(p.settings@);
    let ghost whole = question(p.config_path@, settings, p.changed_since_trusted);
    let mut out: Vec<String> = Vec::new();
    if p.changed_since_trusted {
        out.push("\nThis project's worksmith config has CHANGED since you trusted it:".to_owned());
    } else {
        out.push("\nThis project has its own worksmith config:".to_owned());
    }
    let mut s = "  ".to_owned();
    s.append(p.config_path.as_str());
    out.push(s);
    let none = String::new();
    assert(none@ =~= Seq::<char>::empty());
    out.push(none);
    let mut i: usize = 0;
    assert(views(out@) =~= whole.take(3));
    while i < p.settings.len()
        invariant
            i <= p.settings@.len(),
            settings == lines_view(p.settings@),
            whole == question(p.config_path@, settings, p.changed_since_trusted),
            views(out@) == whole.take(3 + i),
        decreases p.settings.len() - i,
    {
        let l = &p.settings[i];
        assert(settings[i as int] == line_view(*l));
        let mut s = String::new();
        match l.2 {
            Some(why) => {
                s = "  ! ".to_owned();
                s.append(l.0.as_str());
                s.append(" = ");
                s.append(l.1.as_str());
                s.append("\n      ");
                s.append(why);
            },
            None => {
                s = "    ".to_owned();
                s.append(l.0.as_str());
                s.append(" = ");
                s.append(l.1.as_str());
            },
        }
        assert(s@ == setting_words(settings[i as int]));
        assert(whole[3 + i] == s@);
        out.push(s);
        assert(whole.take(3 + i + 1) =~= whole.take(3 + i).push(whole[3 + i]));
        i = i + 1;
    }
    let none = String::new();
    assert(none@ =~= Seq::<char>::empty());
    out.push(none);
    assert(views(out@) =~= whole);
    out
}

/// An answer to the question.
#[derive(Debug)]
pub enum TrustAnswer {
    Yes,
    No,
    View,
    Unclear(String),
}

/// An answer to the question. Saying nothing is no.
pub fn read_answer(line: &str) -> (r: TrustAnswer)
    ensures
        ({
            let a = ascii_lowered(trim(line@));
            if a == "y"@ || a == "yes"@ {
                r is Yes
            } else if a == "n"@ || a == "no"@ || a.len() == 0 {
                r is No
            } else if a == "v"@ || a == "view"@ {
                r is View
            } else {
                r matches TrustAnswer::Unclear(s) && s@ == a
            }
        }),
{
    let a = lower_ascii(trimmed(line).as_str());
    let s = a.as_str();
    if same(s, "y") || same(s, "yes") {
        TrustAnswer::Yes
    } else if same(s, "n") || same(s, "no") || s.unicode_len() == 0 {
        TrustAnswer::No
    } else if same(s, "v") || same(s, "view") {
        TrustAnswer::View
    } else {
        TrustAnswer::Unclear(a)
    }
}

// ---- laws -------------------------------------------------------------------

/// A decision holds for the content it was made about, and for no other.
pub proof fn a_decision_is_about_its_content(
    answers: Map<Seq<char>, Remembered>,
    project: Seq<char>,
    print: Seq<char>,
    other: Seq<char>,
    decision: Decision,
    now: u64,
)
    ensures
        ({
            let after = answers.insert(
                project,
                Remembered { fingerprint: print, decision, decided_at: now },
            );
            &&& standing(after, project, print) == Some(decision)
            &&& other != print ==> standing(after, project, other) is None
        }),
{
}

/// Only a project that was trusted can have changed since it was: one that was ignored,
/// or never decided about, has not.
pub proof fn only_what_was_trusted_can_have_changed(
    answers: Map<Seq<char>, Remembered>,
    project: Seq<char>,
    r: Remembered,
    print: Seq<char>,
)
    ensures
        trusted_otherwise(answers.insert(project, r), project, print) == (r.decision
            == Decision::Trust && r.fingerprint != print),
        !trusted_otherwise(answers.remove(project), project, print),
        trusted_otherwise(answers, project, print) ==> standing(answers, project, print) is None,
{
}

/// Deciding about one project, or revoking its decision, leaves every other as it was;
/// a revoked one is asked about again.
pub proof fn projects_are_decided_apart(
    answers: Map<Seq<char>, Remembered>,
    project: Seq<char>,
    elsewhere: Seq<char>,
    r: Remembered,
    print: Seq<char>,
)
    ensures
        elsewhere != project ==> standing(answers.insert(project, r), elsewhere, print) == standing(
            answers,
            elsewhere,
            print,
        ),
        elsewhere != project ==> standing(answers.remove(project), elsewhere, print) == standing(
            answers,
            elsewhere,
            print,
        ),
        standing(answers.remove(project), project, print) is None,
{
}

/// The settings that matter lead, and no setting is left out or made up.
pub proof fn what_matters_comes_first(s: Seq<Line>)
    ensures
        ranked(s).len() == s.len(),
        forall|i: int, j: int|
            0 <= i < j < ranked(s).len() && (#[trigger] ranked(s)[j]).why is Some ==> (
            #[trigger] ranked(s)[i]).why is Some,
        forall|i: int| 0 <= i < s.len() ==> ranked(s).contains(#[trigger] s[i]),
{
    lemma_lines_that(s, s.len());
    let a = lines_that(s, true, s.len());
    let b = lines_that(s, false, s.len());
    let r = ranked(s);
    assert forall|i: int, j: int| 0 <= i < j < r.len() && (#[trigger] r[j]).why is Some implies (
    #[trigger] r[i]).why is Some by {
        if j >= a.len() {
            assert(r[j] == b[j - a.len()]);
        }
        if i < a.len() {
            assert(r[i] == a[i]);
        }
    }
    assert forall|i: int| 0 <= i < s.len() implies r.contains(#[trigger] s[i]) by {
        if s[i].why is Some {
            let k = choose|k: int| 0 <= k < a.len() && a[k] == s[i];
            assert(r[k] == s[i]);
        } else {
            let k = choose|k: int| 0 <= k < b.len() && b[k] == s[i];
            assert(r[a.len() + k] == s[i]);
        }
    }
}

proof fn lemma_lines_that(s: Seq<Line>, n: nat)
    requires
        n <= s.len(),
    ensures
        lines_that(s, true, n).len() + lines_that(s, false, n).len() == n,
        forall|i: int|
            0 <= i < lines_that(s, true, n).len() ==> (#[trigger] lines_that(s, true, n)[i]).why is Some,
        forall|i: int|
            0 <= i < lines_that(s, false, n).len() ==> (#[trigger] lines_that(s, false, n)[i]).why is None,
        forall|i: int|
            0 <= i < n ==> if (#[trigger] s[i]).why is Some {
                lines_that(s, true, n).contains(s[i])
            } else {
                lines_that(s, false, n).contains(s[i])
            },
    decreases n,
{
    if n > 0 {
        lemma_lines_that(s, (n - 1) as nat);
        let m = s[n - 1].why is Some;
        let before = lines_that(s, m, (n - 1) as nat);
        let after = lines_that(s, m, n);
        assert(after[before.len() as int] == s[n - 1]);
        assert forall|i: int| 0 <= i < n implies if (#[trigger] s[i]).why is Some {
            lines_that(s, true, n).contains(s[i])
        } else {
            lines_that(s, false, n).contains(s[i])
        } by {
            if i < n - 1 && (s[i].why is Some) == m {
                let k = choose|k: int| 0 <= k < before.len() && before[k] == s[i];
                assert(after[k] == s[i]);
            }
        }
    }
}

/// Every setting of a file is told, under its full name, with its value and why it matters
/// where it does: what is under a table is told under the table's name and its own.
pub proof fn every_setting_is_told(e: Seq<(Seq<char>, TomlTree)>, prefix: Seq<char>, i: int)
    requires
        0 <= i < e.len(),
    ensures
        forall|l: Line|
            #[trigger] flattened(e[i].1, dotted(prefix, e[i].0)).contains(l) ==> flattened(
                TomlTree::Table(e),
                prefix,
            ).contains(l),
        !(e[i].1 is Table) ==> flattened(TomlTree::Table(e), prefix).contains(
            Line {
                key: if prefix.len() == 0 {
                    e[i].0
                } else {
                    prefix + "."@ + e[i].0
                },
                value: leaf_text(e[i].1),
                why: why_it_matters(dotted(prefix, e[i].0)),
            },
        ),
{
    assert forall|l: Line| #[trigger] flattened(e[i].1, dotted(prefix, e[i].0)).contains(
        l,
    ) implies flattened(TomlTree::Table(e), prefix).contains(l) by {
        lemma_entry_told(e, prefix, i, e.len(), l);
    }
    if !(e[i].1 is Table) {
        let k = dotted(prefix, e[i].0);
        let l = Line { key: k, value: leaf_text(e[i].1), why: why_it_matters(k) };
        assert(flattened(e[i].1, k)[0] == l);
        assert(flattened(e[i].1, k).contains(l));
    }
}

proof fn lemma_entry_told(
    e: Seq<(Seq<char>, TomlTree)>,
    prefix: Seq<char>,
    i: int,
    n: nat,
    l: Line,
)
    requires
        0 <= i < n <= e.len(),
        flattened(e[i].1, dotted(prefix, e[i].0)).contains(l),
    ensures
        flattened_entries(e, prefix, n).contains(l),
    decreases n,
{
    let a = flattened_entries(e, prefix, (n - 1) as nat);
    let b = flattened(e[n - 1].1, dotted(prefix, e[n - 1].0));
    if i == n - 1 {
        let j = choose|j: int| 0 <= j < b.len() && b[j] == l;
        assert((a + b)[a.len() + j] == l);
    } else {
        lemma_entry_told(e, prefix, i, (n - 1) as nat, l);
        let j = choose|j: int| 0 <= j < a.len() && a[j] == l;
        assert((a + b)[j] == l);
    }
}

/// What can run a command, send data elsewhere or choose who is asked is said to matter,
/// and nothing else is.
pub proof fn what_can_do_harm_is_said_to_matter(key: Seq<char>, provider: Seq<char>)
    ensures
        why_it_matters(provider + ".base-url"@) is Some,
        why_it_matters("agent.validate"@) is Some,
        why_it_matters("model"@) is Some,
        why_it_matters("agents.model"@) is Some,
        why_it_matters(key) is Some ==> key == "agent.validate"@ || key == "model"@ || key
            == "agents.model"@ || ends_with(key, ".base-url"@),
{
    let k = provider + ".base-url"@;
    assert(k.skip(k.len() - ".base-url"@.len()) =~= ".base-url"@);
}

/// The question shows every setting, in order, and nothing between them.
pub proof fn the_question_shows_every_setting(
    path: Seq<char>,
    settings: Seq<Line>,
    changed: bool,
    i: int,
)
    requires
        0 <= i < settings.len(),
    ensures
        question(path, settings, changed).len() == settings.len() + 4,
        question(path, settings, changed)[1] == "  "@ + path,
        question(path, settings, changed)[i + 3] == setting_words(settings[i]),
{
}

} // verus!
