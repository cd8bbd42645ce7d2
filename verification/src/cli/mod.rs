//! What the command line and the line-based prompt decide.
//!
//! Reading, printing and running happen elsewhere: what was typed comes in as text, and
//! what is to be done or said goes out.
use vstd::prelude::*;
use vstd::string::*;

use crate::list::{group_lists, join, views};
use crate::text::{
    after_prefix, joined_range, opt_view, same, starts_with, strip_prefix, trim, trimmed, words,
    words_of,
};

pub mod activity;
pub mod memory;
pub mod spawn;
pub mod startup;
pub mod workers;

verus! {

broadcast use group_lists;

/// One line to print: where an error goes is not where an answer goes.
#[derive(Debug)]
pub struct Line {
    pub text: String,
    pub err: bool,
}

/// What a line says.
pub struct Said {
    pub text: Seq<char>,
    pub err: bool,
}

impl View for Line {
    type V = Said;

    open spec fn view(&self) -> Said {
        Said { text: self.text@, err: self.err }
    }
}

/// An answer.
pub open spec fn told(text: Seq<char>) -> Said {
    Said { text, err: false }
}

/// A complaint.
pub open spec fn complained(text: Seq<char>) -> Said {
    Said { text, err: true }
}

impl Line {
    /// An answer.
    pub fn out(text: String) -> (r: Line)
        ensures
            r@ == told(text@),
    {
        Line { text, err: false }
    }

    /// A complaint.
    pub fn err(text: String) -> (r: Line)
        ensures
            r@ == complained(text@),
    {
        Line { text, err: true }
    }
}

// ---- modes ------------------------------------------------------------------

/// How a run shows itself.
#[derive(Debug, Clone, Copy, PartialEq, Eq, Structural)]
pub enum OutputMode {
    Tui,
    Repl,
    Print,
    Json,
}

/// How a run shows itself: the full screen needs a terminal.
pub fn output_mode(mode: &Option<String>, print: bool, plain: bool, terminal: bool) -> (r: OutputMode)
    ensures
        r == if opt_view(*mode) == Some("json"@) {
            OutputMode::Json
        } else if print {
            OutputMode::Print
        } else if plain || !terminal {
            OutputMode::Repl
        } else {
            OutputMode::Tui
        },
{
    let json = match mode {
        Some(m) => same(m.as_str(), "json"),
        None => false,
    };
    if json {
        OutputMode::Json
    } else if print {
        OutputMode::Print
    } else if plain || !terminal {
        OutputMode::Repl
    } else {
        OutputMode::Tui
    }
}

/// Is one prompt run and its answer printed?
pub fn is_one_shot(has_prompt: bool, mode: OutputMode) -> (r: bool)
    ensures
        r == (has_prompt && (mode == OutputMode::Print || mode == OutputMode::Json)),
{
    has_prompt && (mode == OutputMode::Print || mode == OutputMode::Json)
}

/// Who answers "may I?".
#[derive(Debug, Clone, Copy, PartialEq, Eq, Structural)]
pub enum Answerer {
    /// Everything is allowed.
    Everything,
    /// The user is asked, and remembered.
    User,
    /// Nobody is there: it is refused.
    Nobody,
}

/// Who answers depends on whether anyone is watching.
pub fn answerer(approve_all: bool, mode: OutputMode) -> (r: Answerer)
    ensures
        r == if approve_all {
            Answerer::Everything
        } else if mode == OutputMode::Tui {
            Answerer::User
        } else {
            Answerer::Nobody
        },
{
    if approve_all {
        Answerer::Everything
    } else if mode == OutputMode::Tui {
        Answerer::User
    } else {
        Answerer::Nobody
    }
}

// ---- what was typed ---------------------------------------------------------

/// What was typed at the prompt.
#[derive(Debug)]
pub enum Typed {
    Nothing,
    Leave,
    Compact,
    /// The success check is asked about or set.
    Validate(String),
    /// A command, without its slash. One that nobody knows is a message after all.
    Command(String),
    Message(String),
}

/// What was typed, as it reads.
pub enum Entry {
    Nothing,
    Leave,
    Compact,
    Validate(Seq<char>),
    Command(Seq<char>),
    Message(Seq<char>),
}

impl View for Typed {
    type V = Entry;

    open spec fn view(&self) -> Entry {
        match self {
            Typed::Nothing => Entry::Nothing,
            Typed::Leave => Entry::Leave,
            Typed::Compact => Entry::Compact,
            Typed::Validate(s) => Entry::Validate(s@),
            Typed::Command(s) => Entry::Command(s@),
            Typed::Message(s) => Entry::Message(s@),
        }
    }
}

/// What an input is.
pub open spec fn entry_of(input: Seq<char>) -> Entry {
    let t = trim(input);
    if t.len() == 0 {
        Entry::Nothing
    } else if t == "exit"@ || t == "quit"@ {
        Entry::Leave
    } else if t == "/compact"@ {
        Entry::Compact
    } else {
        match strip_prefix(t, "/validate"@) {
            Some(rest) => Entry::Validate(trim(rest)),
            None => match strip_prefix(t, "/"@) {
                Some(cmd) => Entry::Command(cmd),
                None => Entry::Message(t),
            },
        }
    }
}

/// What was typed at the prompt.
pub fn typed(input: &str) -> (r: Typed)
    ensures
        r@ == entry_of(input@),
{
    let t = trimmed(input);
    let s = t.as_str();
    if s.unicode_len() == 0 {
        return Typed::Nothing;
    }
    if same(s, "exit") || same(s, "quit") {
        return Typed::Leave;
    }
    if same(s, "/compact") {
        return Typed::Compact;
    }
    if let Some(rest) = after_prefix(s, "/validate") {
        return Typed::Validate(trimmed(rest.as_str()));
    }
    match after_prefix(s, "/") {
        Some(cmd) => Typed::Command(cmd),
        None => Typed::Message(t),
    }
}

/// The success check after it was asked about or set: `off` and `none` clear it.
pub open spec fn check_after(check: Option<Seq<char>>, rest: Seq<char>) -> Option<Seq<char>> {
    if rest.len() == 0 {
        check
    } else if rest == "off"@ || rest == "none"@ {
        None
    } else {
        Some(rest)
    }
}

/// What is said of the success check.
pub open spec fn check_words(check: Option<Seq<char>>, rest: Seq<char>) -> Seq<char> {
    if rest.len() == 0 {
        match check {
            Some(c) => "validation: `"@ + c + "`"@,
            None => "validation: (none) — use `/validate <command>`"@,
        }
    } else if rest == "off"@ || rest == "none"@ {
        "validation cleared"@
    } else {
        "validation: `"@ + rest + "` must pass before a task is done"@
    }
}

/// Ask about the success check, or set it.
pub fn set_check(check: &mut Option<String>, rest: &str) -> (r: String)
    ensures
        opt_view(*final(check)) == check_after(opt_view(*old(check)), rest@),
        r@ == check_words(opt_view(*old(check)), rest@),
{
    if rest.unicode_len() == 0 {
        return match check {
            Some(c) => {
                let mut s = "validation: `".to_owned();
                s.append(c.as_str());
                s.append("`");
                s
            },
            None => "validation: (none) — use `/validate <command>`".to_owned(),
        };
    }
    if same(rest, "off") || same(rest, "none") {
        *check = None;
        return "validation cleared".to_owned();
    }
    *check = Some(rest.to_owned());
    let mut s = "validation: `".to_owned();
    s.append(rest);
    s.append("` must pass before a task is done");
    s
}

/// The commands of the prompt.
#[derive(Debug, Clone, Copy, PartialEq, Eq, Structural)]
pub enum Head {
    Quit,
    Help,
    New,
    Memory,
    Knowledge,
    Skill,
    Spawn,
    Agents,
    Unknown,
}

/// The command that a word names.
pub open spec fn head_named(w: Seq<char>) -> Head {
    if w == "quit"@ || w == "exit"@ || w == "q"@ {
        Head::Quit
    } else if w == "help"@ || w == "h"@ {
        Head::Help
    } else if w == "new"@ {
        Head::New
    } else if w == "memory"@ || w == "mem"@ {
        Head::Memory
    } else if w == "knowledge"@ || w == "know"@ {
        Head::Knowledge
    } else if w == "skill"@ || w == "skills"@ {
        Head::Skill
    } else if w == "spawn"@ {
        Head::Spawn
    } else if w == "agents"@ || w == "workers"@ {
        Head::Agents
    } else {
        Head::Unknown
    }
}

/// The word at a place, or another one where there is none.
pub open spec fn word_or(ws: Seq<Seq<char>>, i: int, other: Seq<char>) -> Seq<char> {
    if i < ws.len() {
        ws[i]
    } else {
        other
    }
}

/// The words from a place on, as one text.
pub open spec fn rest_of(ws: Seq<Seq<char>>, i: int) -> Seq<char> {
    if i <= ws.len() {
        join(ws.skip(i), " "@)
    } else {
        seq![]
    }
}

/// The word at a place, or another one where there is none.
pub(crate) fn word_at<'a>(ws: &'a Vec<String>, i: usize, other: &'a str) -> (r: &'a str)
    ensures
        r@ == word_or(views(ws@), i as int, other@),
{
    if i < ws.len() {
        assert(views(ws@)[i as int] == ws@[i as int]@);
        ws[i].as_str()
    } else {
        other
    }
}

/// The words from a place on, as one text.
pub(crate) fn rest_from(ws: &Vec<String>, i: usize) -> (r: String)
    ensures
        r@ == rest_of(views(ws@), i as int),
{
    let n = ws.len();
    if i <= n {
        assert(views(ws@).subrange(i as int, n as int) =~= views(ws@).skip(i as int));
        joined_range(ws, i, n, " ")
    } else {
        let none = String::new();
        assert(none@ =~= seq![]);
        none
    }
}

/// Which command was given, and the words behind it.
pub fn command_head(cmd: &str) -> (r: (Head, Vec<String>))
    ensures
        ({
            let ws = words(cmd@);
            &&& r.0 == if ws.len() > 0 {
                head_named(ws[0])
            } else {
                Head::Unknown
            }
            &&& views(r.1@) == if ws.len() > 0 {
                ws.skip(1)
            } else {
                ws
            }
        }),
{
    let mut ws = words_of(cmd);
    let ghost all = views(ws@);
    if ws.len() == 0 {
        return (Head::Unknown, ws);
    }
    let w = ws.remove(0);
    assert(w@ == all[0]);
    assert(views(ws@) =~= all.skip(1));
    let w = w.as_str();
    let head = if same(w, "quit") || same(w, "exit") || same(w, "q") {
        Head::Quit
    } else if same(w, "help") || same(w, "h") {
        Head::Help
    } else if same(w, "new") {
        Head::New
    } else if same(w, "memory") || same(w, "mem") {
        Head::Memory
    } else if same(w, "knowledge") || same(w, "know") {
        Head::Knowledge
    } else if same(w, "skill") || same(w, "skills") {
        Head::Skill
    } else if same(w, "spawn") {
        Head::Spawn
    } else if same(w, "agents") || same(w, "workers") {
        Head::Agents
    } else {
        Head::Unknown
    };
    (head, ws)
}

/// What the help says.
pub const HELP: &'static str =
    "commands:\n  /help                    this help\n  /quit                    exit\n  /new                     start a new session\n  /memory [list|global|project]  list memories\n  /memory show <id>        show a memory\n  /memory forget <id>      delete a memory\n  /memory add <scope> <kind> <subject> <content...>\n  /memory search <query>   search memories\n  /memory extract          distill this session into memories\n  /memory mine [n]         mine past sessions of this project\n  /memory pending | /memory approve <id>   review proposals\n  /knowledge [index|search <query>|status]  the project's own text\n  /skill [name]            list skills, or load one\n  /spawn [-n N | --each-files <regex>] <task>   background worker(s)\n  /agents [list|show <id>|kill <id>|nudge <id> <msg>|drop-queued]\n  /validate <cmd|off>      success check for a turn\n  @path                    include a file's contents in your message";

// ---- laws -------------------------------------------------------------------

/// Nothing that was typed is lost: what is no command stays a message, as it was typed
/// but for the white space around it.
pub proof fn plain_text_stays_a_message(input: Seq<char>)
    requires
        trim(input).len() > 0,
        trim(input) != "exit"@,
        trim(input) != "quit"@,
        !starts_with(trim(input), "/"@),
    ensures
        entry_of(input) == Entry::Message(trim(input)),
{
    let t = trim(input);
    reveal_strlit("/compact");
    reveal_strlit("/validate");
    reveal_strlit("/");
    if t == "/compact"@ {
        assert(t.take(1) =~= "/"@);
    }
    if starts_with(t, "/validate"@) {
        assert(t[0] == t.take(9)[0]);
        assert(t.take(1) =~= "/"@);
    }
}

/// A check that is set stays until it is cleared or set anew: asking about it changes
/// nothing.
pub proof fn asking_changes_no_check(check: Option<Seq<char>>, rest: Seq<char>)
    ensures
        check_after(check, seq![]) == check,
        check_after(check_after(check, rest), seq![]) == check_after(check, rest),
{
}

/// What is typed behind a slash is a command, whole; a check is set by what is typed behind
/// its command, and cleared by the words for it.
pub proof fn a_slash_makes_a_command(input: Seq<char>, check: Option<Seq<char>>)
    ensures
        trim(input).len() > 0 && trim(input)[0] == '/' && trim(input) != "/compact"@
            && strip_prefix(trim(input), "/validate"@) is None ==> entry_of(input)
            == Entry::Command(trim(input).skip(1)),
        strip_prefix(trim(input), "/validate"@) matches Some(rest) ==> (trim(input) != "/compact"@
            ==> entry_of(input) == Entry::Validate(trim(rest))),
        trim(input).len() == 0 ==> entry_of(input) is Nothing,
        check_after(check, "off"@) is None,
        check_after(check, "none"@) is None,
        input.len() > 0 && input != "off"@ && input != "none"@ ==> check_after(check, input) == Some(
            input,
        ),
{
    reveal_strlit("/");
    reveal_strlit("off");
    reveal_strlit("none");
    reveal_strlit("exit");
    reveal_strlit("quit");
    reveal_strlit("/validate");
    let t = trim(input);
    assert("/"@ =~= seq!['/']);
    if t.len() > 0 && t[0] == '/' {
        assert(t.take(1) =~= "/"@);
        assert("exit"@[0] == 'e' && "quit"@[0] == 'q');
    }
    if strip_prefix(t, "/validate"@) is Some {
        assert("/validate"@[0] == '/');
        assert(t.take("/validate"@.len() as int)[0] == '/');
        assert(t[0] == '/');
        assert("exit"@[0] == 'e' && "quit"@[0] == 'q');
    }
}

} // verus!
