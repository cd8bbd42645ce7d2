//! What a command is allowed to do without asking.
//!
//! Two tiers. A catastrophic command is refused outright: there is no version of
//! it worth confirming. An outward-facing or irreversible one is put to the
//! user. Everything else runs. This is pattern matching on a shell string, a
//! heuristic and not a boundary.
use vstd::prelude::*;
use vstd::string::*;

use crate::patterns::{match_each, regex_error, regex_match};

pub use crate::paths::path_escapes_cwd;

verus! {

/// What to do with a command before running it.
#[derive(Debug, PartialEq, Eq)]
pub enum Decision {
    /// Run it.
    Allow,
    /// Ask the user first, showing this reason.
    Ask(String),
    /// Never run it, for this reason.
    Refuse(String),
}

/// What a `Decision` says.
pub enum Ruling {
    Allow,
    Ask(Seq<char>),
    Refuse(Seq<char>),
}

impl View for Decision {
    type V = Ruling;

    open spec fn view(&self) -> Ruling {
        match self {
            Decision::Allow => Ruling::Allow,
            Decision::Ask(s) => Ruling::Ask(s@),
            Decision::Refuse(s) => Ruling::Refuse(s@),
        }
    }
}

/// A table of patterns and reasons, as texts.
pub open spec fn rows(t: Seq<(&'static str, &'static str)>) -> Seq<(Seq<char>, Seq<char>)> {
    Seq::new(t.len(), |i: int| (t[i].0@, t[i].1@))
}

/// Catastrophic and unrecoverable: no prompt.
pub open spec fn refuse_table() -> Seq<(Seq<char>, Seq<char>)> {
    seq![
        (":\\s*\\(\\s*\\)\\s*\\{"@, "fork bomb"@),
        ("\\bdd\\b[^|;&]*\\bof=/dev/"@, "dd writing to a device"@),
        ("\\bmkfs\\b"@, "filesystem format (mkfs)"@),
        (">\\s*/dev/(sd|nvme|disk|hd|mmcblk)"@, "write to a block device"@),
        ("(?:curl|wget)\\b[^|]*\\|\\s*(?:sudo\\s+)?(?:sh|bash|zsh|fish)\\b"@, "piping a remote script straight into a shell"@),
        ("\\bch(?:mod|own)\\b[^|;&]*-R[^|;&]*\\s(?:/|~|\\$HOME)(?:\\s|$)"@, "recursive permission change on / or home"@),
        ("\\brm\\b[^|;&]*\\s-\\S*[rR]\\S*[^|;&]*\\s(?:-\\S+\\s+)*(?:/|/\\*|~|~/|\\$HOME|\\.|\\.\\.|\\*|/etc|/usr|/bin|/sbin|/var|/lib|/System|/Library|/boot|/dev)(?:/\\s|\\s|$)"@, "recursive rm of a dangerous path (/, ~, ., .., *, or a system dir)"@),
    ]
}

/// Legitimate, but outward-facing or hard to undo: these get a prompt.
pub open spec fn ask_table() -> Seq<(Seq<char>, Seq<char>)> {
    seq![
        ("\\bgit\\s+push\\b"@, "pushes commits to a remote"@),
        ("\\bgit\\s+remote\\s+(?:add|set-url|remove|rm)\\b"@, "changes where the repo pushes to"@),
        ("\\bgit\\s+(?:tag\\s+-d|push\\s+--delete)\\b"@, "deletes a tag"@),
        ("\\bgh\\b\\s+(?:pr|issue|release|repo|api|workflow)\\b"@, "acts on GitHub"@),
        ("\\bglab\\b"@, "acts on GitLab"@),
        ("\\b(?:cargo|npm|pnpm|yarn)\\s+publish\\b|\\btwine\\s+upload\\b|\\bgem\\s+push\\b"@, "publishes a package to a public registry"@),
        ("\\bdocker\\s+push\\b"@, "pushes a container image"@),
        ("\\bgit\\s+push\\b[^|;&]*(?:--force|-f)\\b"@, "force-pushes, overwriting remote history"@),
        ("\\bgit\\s+reset\\s+--hard\\b"@, "discards uncommitted work"@),
        ("\\bgit\\s+clean\\s+-\\S*[fd]"@, "deletes untracked files"@),
        ("\\bgit\\s+checkout\\s+--\\s"@, "discards changes to files"@),
        ("(?:^|[;&|]\\s*)sudo\\b"@, "runs as root"@),
        ("\\b(?:ssh|scp|rsync)\\b[^|;&]*\\S+@\\S+"@, "acts on a remote host"@),
        ("\\bcurl\\b[^|;&]*(?:-X\\s*(?:POST|PUT|PATCH|DELETE)|--data|-d\\s|-F\\s|--upload-file|-T\\s)"@, "sends data to a remote server"@),
        ("\\bwget\\b[^|;&]*--post"@, "sends data to a remote server"@),
        ("\\b(?:terraform|pulumi)\\s+(?:apply|destroy)\\b|\\bkubectl\\s+(?:apply|delete|create)\\b"@, "changes deployed infrastructure"@),
        ("\\baws\\s+\\S+\\s+(?:put|create|delete|update)\\S*\\b"@, "changes cloud resources"@),
        ("(?:^|[;&|]\\s*)(?:brew|apt|apt-get|yum|dnf|pacman)\\s+(?:install|remove|uninstall|upgrade)\\b"@, "installs or removes software system-wide"@),
    ]
}

/// The patterns of the refuse tier, with their reasons.
pub fn refuse_patterns() -> (r: Vec<(&'static str, &'static str)>)
    ensures
        rows(r@) == refuse_table(),
{
    let r = vec![
        (":\\s*\\(\\s*\\)\\s*\\{", "fork bomb"),
        ("\\bdd\\b[^|;&]*\\bof=/dev/", "dd writing to a device"),
        ("\\bmkfs\\b", "filesystem format (mkfs)"),
        (">\\s*/dev/(sd|nvme|disk|hd|mmcblk)", "write to a block device"),
        ("(?:curl|wget)\\b[^|]*\\|\\s*(?:sudo\\s+)?(?:sh|bash|zsh|fish)\\b", "piping a remote script straight into a shell"),
        ("\\bch(?:mod|own)\\b[^|;&]*-R[^|;&]*\\s(?:/|~|\\$HOME)(?:\\s|$)", "recursive permission change on / or home"),
        ("\\brm\\b[^|;&]*\\s-\\S*[rR]\\S*[^|;&]*\\s(?:-\\S+\\s+)*(?:/|/\\*|~|~/|\\$HOME|\\.|\\.\\.|\\*|/etc|/usr|/bin|/sbin|/var|/lib|/System|/Library|/boot|/dev)(?:/\\s|\\s|$)", "recursive rm of a dangerous path (/, ~, ., .., *, or a system dir)"),
    ];
    assert(rows(r@) =~= refuse_table());
    r
}

/// The patterns of the ask tier, with their reasons.
pub fn ask_patterns() -> (r: Vec<(&'static str, &'static str)>)
    ensures
        rows(r@) == ask_table(),
{
    let r = vec![
        ("\\bgit\\s+push\\b", "pushes commits to a remote"),
        ("\\bgit\\s+remote\\s+(?:add|set-url|remove|rm)\\b", "changes where the repo pushes to"),
        ("\\bgit\\s+(?:tag\\s+-d|push\\s+--delete)\\b", "deletes a tag"),
        ("\\bgh\\b\\s+(?:pr|issue|release|repo|api|workflow)\\b", "acts on GitHub"),
        ("\\bglab\\b", "acts on GitLab"),
        ("\\b(?:cargo|npm|pnpm|yarn)\\s+publish\\b|\\btwine\\s+upload\\b|\\bgem\\s+push\\b", "publishes a package to a public registry"),
        ("\\bdocker\\s+push\\b", "pushes a container image"),
        ("\\bgit\\s+push\\b[^|;&]*(?:--force|-f)\\b", "force-pushes, overwriting remote history"),
        ("\\bgit\\s+reset\\s+--hard\\b", "discards uncommitted work"),
        ("\\bgit\\s+clean\\s+-\\S*[fd]", "deletes untracked files"),
        ("\\bgit\\s+checkout\\s+--\\s", "discards changes to files"),
        ("(?:^|[;&|]\\s*)sudo\\b", "runs as root"),
        ("\\b(?:ssh|scp|rsync)\\b[^|;&]*\\S+@\\S+", "acts on a remote host"),
        ("\\bcurl\\b[^|;&]*(?:-X\\s*(?:POST|PUT|PATCH|DELETE)|--data|-d\\s|-F\\s|--upload-file|-T\\s)", "sends data to a remote server"),
        ("\\bwget\\b[^|;&]*--post", "sends data to a remote server"),
        ("\\b(?:terraform|pulumi)\\s+(?:apply|destroy)\\b|\\bkubectl\\s+(?:apply|delete|create)\\b", "changes deployed infrastructure"),
        ("\\baws\\s+\\S+\\s+(?:put|create|delete|update)\\S*\\b", "changes cloud resources"),
        ("(?:^|[;&|]\\s*)(?:brew|apt|apt-get|yum|dnf|pacman)\\s+(?:install|remove|uninstall|upgrade)\\b", "installs or removes software system-wide"),
    ];
    assert(rows(r@) =~= ask_table());
    r
}

/// Does `pat` match `cmd`? A pattern that does not compile matches nothing.
pub open spec fn hits(pat: Seq<char>, cmd: Seq<char>) -> bool {
    regex_error(pat) is None && regex_match(pat, cmd)
}

/// Which rows of a table match `cmd`.
pub open spec fn flags(table: Seq<(Seq<char>, Seq<char>)>, cmd: Seq<char>) -> Seq<bool> {
    Seq::new(table.len(), |i: int| hits(table[i].0, cmd))
}

/// The index of the first `true` in `f`, or the length.
pub open spec fn first_true(f: Seq<bool>) -> nat
    decreases f.len(),
{
    if f.len() == 0 || f[0] {
        0
    } else {
        1 + first_true(f.drop_first())
    }
}

/// The ruling for a command on which these rows of the two tables match: the
/// first refusal, else the first question, else leave to run.
pub open spec fn ruling(refuse: Seq<bool>, ask: Seq<bool>) -> Ruling {
    if first_true(refuse) < refuse.len() {
        Ruling::Refuse(refuse_table()[first_true(refuse) as int].1)
    } else if first_true(ask) < ask.len() {
        Ruling::Ask(ask_table()[first_true(ask) as int].1)
    } else {
        Ruling::Allow
    }
}

/// The ruling for a shell command.
pub open spec fn classified(cmd: Seq<char>) -> Ruling {
    ruling(flags(refuse_table(), cmd), flags(ask_table(), cmd))
}

/// Why a command is refused, if it is.
pub open spec fn refusal(cmd: Seq<char>) -> Option<Seq<char>> {
    match classified(cmd) {
        Ruling::Refuse(reason) => Some(reason),
        _ => None,
    }
}

proof fn lemma_first_true(f: Seq<bool>, n: nat)
    requires
        n <= f.len(),
        n < f.len() ==> f[n as int],
        forall|i: int| 0 <= i < n ==> !f[i],
    ensures
        first_true(f) == n,
    decreases n,
{
    if n > 0 {
        assert(!f[0]);
        lemma_first_true(f.drop_first(), (n - 1) as nat);
    }
}

fn first_set(f: &Vec<bool>) -> (n: usize)
    ensures
        n == first_true(f@),
        n <= f@.len(),
{
    let mut n: usize = 0;
    while n < f.len() && !f[n]
        invariant
            n <= f@.len(),
            forall|i: int| 0 <= i < n ==> !f@[i],
        decreases f.len() - n,
    {
        n = n + 1;
    }
    proof {
        lemma_first_true(f@, n as nat);
    }
    n
}

/// The decision for a command on which these rows of the two tables match.
pub fn decide(refuse: &Vec<bool>, ask: &Vec<bool>) -> (r: Decision)
    requires
        refuse@.len() == refuse_table().len(),
        ask@.len() == ask_table().len(),
    ensures
        r@ == ruling(refuse@, ask@),
{
    let i = first_set(refuse);
    if i < refuse.len() {
        let t = refuse_patterns();
        assert(rows(t@)[i as int].1 == t@[i as int].1@);
        return Decision::Refuse(t[i].1.to_owned());
    }
    let i = first_set(ask);
    if i < ask.len() {
        let t = ask_patterns();
        assert(rows(t@)[i as int].1 == t@[i as int].1@);
        return Decision::Ask(t[i].1.to_owned());
    }
    Decision::Allow
}

fn matches_pattern(pat: &str, cmd: &str) -> (r: bool)
    ensures
        r == hits(pat@, cmd@),
{
    let mut one: Vec<String> = Vec::new();
    one.push(cmd.to_owned());
    assert(one@[0]@ == cmd@);
    match match_each(pat, &one) {
        Ok(found) => found[0],
        Err(_) => false,
    }
}

fn flags_of(table: &Vec<(&'static str, &'static str)>, cmd: &str) -> (f: Vec<bool>)
    ensures
        f@ == flags(rows(table@), cmd@),
{
    let mut f: Vec<bool> = Vec::new();
    let mut i: usize = 0;
    while i < table.len()
        invariant
            i <= table@.len(),
            f@ == flags(rows(table@), cmd@).take(i as int),
        decreases table.len() - i,
    {
        f.push(matches_pattern(table[i].0, cmd));
        i = i + 1;
        assert(f@ =~= flags(rows(table@), cmd@).take(i as int));
    }
    assert(f@ =~= flags(rows(table@), cmd@));
    f
}

/// Classify a shell command.
pub fn classify(cmd: &str) -> (r: Decision)
    ensures
        r@ == classified(cmd@),
{
    let refuse = flags_of(&refuse_patterns(), cmd);
    let ask = flags_of(&ask_patterns(), cmd);
    decide(&refuse, &ask)
}

/// Does this command hit the refuse tier, and why? This is no sandbox, but it
/// hard-stops the classic disasters.
pub fn dangerous_command(cmd: &str) -> (r: Option<String>)
    ensures
        match r {
            Some(reason) => refusal(cmd@) == Some(reason@),
            None => refusal(cmd@) is None,
        },
{
    match classify(cmd) {
        Decision::Refuse(reason) => Some(reason),
        _ => None,
    }
}

/// A command that is refused is never merely asked about, and one that matches
/// no pattern of either table runs without asking.
pub proof fn refusal_outranks_asking(cmd: Seq<char>)
    ensures
        (exists|i: int| 0 <= i < refuse_table().len() && hits(#[trigger] refuse_table()[i].0, cmd))
            <==> classified(cmd) is Refuse,
        classified(cmd) is Allow <==> {
            &&& forall|i: int|
                0 <= i < refuse_table().len() ==> !hits(#[trigger] refuse_table()[i].0, cmd)
            &&& forall|i: int| 0 <= i < ask_table().len() ==> !hits(#[trigger] ask_table()[i].0, cmd)
        },
{
    lemma_first_set(flags(refuse_table(), cmd));
    lemma_first_set(flags(ask_table(), cmd));
    let f = flags(refuse_table(), cmd);
    let g = flags(ask_table(), cmd);
    assert forall|i: int| 0 <= i < f.len() implies f[i] == hits(
        #[trigger] refuse_table()[i].0,
        cmd,
    ) by {}
    assert forall|i: int| 0 <= i < g.len() implies g[i] == hits(#[trigger] ask_table()[i].0, cmd) by {}
    if classified(cmd) is Refuse {
        let n = first_true(f) as int;
        assert(hits(refuse_table()[n].0, cmd));
    }
    if classified(cmd) is Ask {
        let n = first_true(g) as int;
        assert(hits(ask_table()[n].0, cmd));
    }
}

proof fn lemma_first_set(f: Seq<bool>)
    ensures
        first_true(f) <= f.len(),
        first_true(f) < f.len() ==> f[first_true(f) as int],
        forall|i: int| 0 <= i < first_true(f) ==> !f[i],
    decreases f.len(),
{
    if f.len() > 0 && !f[0] {
        lemma_first_set(f.drop_first());
        assert forall|i: int| 0 <= i < first_true(f) implies !f[i] by {
            if i > 0 {
                assert(f[i] == f.drop_first()[i - 1]);
            }
        }
    }
}

/// The reason that is given is that of the first row that matches, in the tier that decides.
pub proof fn the_first_match_gives_the_reason(cmd: Seq<char>, i: int)
    ensures
        0 <= i < refuse_table().len() && hits(refuse_table()[i].0, cmd) && (forall|j: int|
            0 <= j < i ==> !hits(#[trigger] refuse_table()[j].0, cmd)) ==> classified(cmd)
            == Ruling::Refuse(refuse_table()[i].1),
        !(classified(cmd) is Refuse) && 0 <= i < ask_table().len() && hits(ask_table()[i].0, cmd)
            && (forall|j: int| 0 <= j < i ==> !hits(#[trigger] ask_table()[j].0, cmd))
            ==> classified(cmd) == Ruling::Ask(ask_table()[i].1),
{
    let f = flags(refuse_table(), cmd);
    let g = flags(ask_table(), cmd);
    if 0 <= i < refuse_table().len() && hits(refuse_table()[i].0, cmd) && (forall|j: int|
        0 <= j < i ==> !hits(#[trigger] refuse_table()[j].0, cmd)) {
        assert forall|j: int| 0 <= j < i implies !f[j] by {
            assert(!hits(refuse_table()[j].0, cmd));
        }
        lemma_first_true(f, i as nat);
    }
    if 0 <= i < ask_table().len() && hits(ask_table()[i].0, cmd) && (forall|j: int|
        0 <= j < i ==> !hits(#[trigger] ask_table()[j].0, cmd)) {
        assert forall|j: int| 0 <= j < i implies !g[j] by {
            assert(!hits(ask_table()[j].0, cmd));
        }
        lemma_first_true(g, i as nat);
    }
}

} // verus!
