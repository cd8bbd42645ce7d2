//! `checkpoint`: stop and bring the user in.
//!
//! A checkpoint is not a report: it is a point where the user gets a say, is told one
//! thing worth knowing, or writes the hard part. What is enforced here is the cap.
use vstd::prelude::*;
use vstd::string::*;

use crate::json::{get_str, str_arg, Json, Tree};
use crate::list::views;
use crate::paths::{join_path, joined_path};
use crate::text::{
    ascii_lower, char_ascii_lower, chars_of, cut_once, dec, decimal, is_ascii_alnum, opt_view,
    parse_nat, parse_number, same, split_once, trim, trim_set, trimmed, trimmed_set,
};
use crate::tools::{fine, wrong, Output, ToolContext, ToolOutput};

verus! {

/// Brings the user in.
pub struct CheckpointTool;

/// How many checkpoints a turn has.
pub const CHECKPOINTS_PER_TURN: usize = 3;

/// How long the name of a decision may become.
pub const SLUG_CHARS: usize = 48;

/// The name that `s` makes from index `i` on, behind what it made so far: letters and
/// digits in lower case, a single hyphen for anything between, up to the cap.
pub open spec fn slug_from(s: Seq<char>, i: int, out: Seq<char>) -> Seq<char>
    decreases s.len() - i,
{
    if i < 0 || i >= s.len() {
        out
    } else {
        let next = if is_ascii_alnum(s[i]) {
            out.push(ascii_lower(s[i]))
        } else if out.len() > 0 && out.last() == '-' {
            out
        } else {
            out.push('-')
        };
        if next.len() >= SLUG_CHARS {
            next
        } else {
            slug_from(s, i + 1, next)
        }
    }
}

/// The name of a decision about `subject`.
pub open spec fn slug(subject: Seq<char>) -> Seq<char> {
    let s = trim_set(slug_from(subject, 0, seq![]), "-"@);
    if s.len() == 0 {
        "decision"@
    } else {
        s
    }
}

/// `Pin the worker model` becomes `pin-the-worker-model`, capped so that a long
/// subject does not become a long filename.
pub fn slugify(subject: &str) -> (r: String)
    ensures
        r@ == slug(subject@),
{
    let v = chars_of(subject);
    let mut out = String::new();
    let mut len: usize = 0;
    let mut dash = false;
    let mut i: usize = 0;
    assert(out@ =~= seq![]);
    while i < v.len() && len < SLUG_CHARS
        invariant
            i <= v@.len(),
            v@ == subject@,
            len == out@.len(),
            len <= SLUG_CHARS,
            dash == (out@.len() > 0 && out@.last() == '-'),
            len < SLUG_CHARS ==> slug_from(subject@, i as int, out@) == slug_from(
                subject@,
                0,
                seq![],
            ),
            len >= SLUG_CHARS ==> out@ == slug_from(subject@, 0, seq![]),
        decreases v.len() - i,
    {
        let c = v[i];
        let plain = ('a' <= c && c <= 'z') || ('A' <= c && c <= 'Z') || ('0' <= c && c <= '9');
        if plain {
            let low = char_ascii_lower(c);
            out.push(low);
            len = len + 1;
            dash = false;
            assert(low != '-');
        } else if !dash {
            out.push('-');
            len = len + 1;
            dash = true;
        }
        i = i + 1;
    }
    let s = trimmed_set(out.as_str(), "-");
    if s.as_str().unicode_len() == 0 {
        "decision".to_owned()
    } else {
        s
    }
}

/// The number that a file's name begins with, before a hyphen.
pub open spec fn number_of(name: Seq<char>) -> Option<nat> {
    match split_once(name, '-') {
        Some((head, _)) => parse_nat(head, u32::MAX as nat),
        None => None,
    }
}

/// The highest number that one of the first `n` names begins with.
pub open spec fn highest(names: Seq<Seq<char>>, n: nat) -> nat
    decreases n,
{
    if n == 0 {
        0
    } else {
        let before = highest(names, (n - 1) as nat);
        match number_of(names[n - 1]) {
            Some(k) => if k > before {
                k
            } else {
                before
            },
            None => before,
        }
    }
}

/// The number for the next decision, given the names that are there: they read in the
/// order in which they were taken.
pub fn next_number(names: &Vec<String>) -> (r: u64)
    ensures
        r == highest(views(names@), names@.len()) + 1,
{
    let mut top: u64 = 0;
    let mut i: usize = 0;
    while i < names.len()
        invariant
            i <= names@.len(),
            top == highest(views(names@), i as nat),
            top <= u32::MAX,
        decreases names.len() - i,
    {
        assert(views(names@)[i as int] == names@[i as int]@);
        if let Some((head, _)) = cut_once(names[i].as_str(), '-') {
            if let Some(k) = parse_number(head.as_str(), u32::MAX as u64) {
                if k > top {
                    top = k;
                }
            }
        }
        i = i + 1;
    }
    top + 1
}

/// `n` in decimal, on four digits at least.
pub open spec fn four_digits(n: nat) -> Seq<char> {
    if n < 10 {
        "000"@ + dec(n)
    } else if n < 100 {
        "00"@ + dec(n)
    } else if n < 1000 {
        "0"@ + dec(n)
    } else {
        dec(n)
    }
}

/// The name of a decision's file.
pub open spec fn decision_name(number: nat, subject: Seq<char>) -> Seq<char> {
    four_digits(number) + "-"@ + slug(subject) + ".md"@
}

/// The name of a decision's file.
pub fn decision_file(number: u64, subject: &str) -> (r: String)
    ensures
        r@ == decision_name(number as nat, subject@),
{
    let n = decimal(number as u128);
    let mut s = if number < 10 {
        "000".to_owned()
    } else if number < 100 {
        "00".to_owned()
    } else if number < 1000 {
        "0".to_owned()
    } else {
        String::new()
    };
    s.append(n.as_str());
    assert(s@ =~= four_digits(number as nat));
    s.append("-");
    let name = slugify(subject);
    s.append(name.as_str());
    s.append(".md");
    s
}

/// A decision record: the user's answer is its body, in their own words.
pub fn decision_body(subject: &str, question: &str, answer: &str) -> (r: String)
    ensures
        r@ == "# "@ + subject@ + "\n\n## Question\n\n"@ + question@ + "\n\n## Decision\n\n"@ + answer@
            + "\n"@,
{
    let mut s = "# ".to_owned();
    s.append(subject);
    s.append("\n\n## Question\n\n");
    s.append(question);
    s.append("\n\n## Decision\n\n");
    s.append(answer);
    s.append("\n");
    s
}

/// Where decisions are filed.
pub fn decisions_dir(ctx: &ToolContext, dir: &str) -> (r: String)
    ensures
        r@ == joined_path(ctx.cwd@, dir@),
{
    join_path(ctx.cwd.as_str(), dir)
}

/// What is said of a decision that was filed: one that git ignores will not reach the
/// history it was written for.
pub open spec fn filed(rel: Seq<char>, ignored: bool) -> Seq<char> {
    if ignored {
        "filed at "@ + rel
            + " — but git is ignoring that path, so this decision will not reach the history it was written for. Tell the user to un-ignore it or set `decisions-dir` to somewhere tracked."@
    } else {
        "filed at "@ + rel
    }
}

/// What is said of a decision that was filed.
pub fn filed_note(rel: &str, ignored: bool) -> (r: String)
    ensures
        r@ == filed(rel@, ignored),
{
    let mut s = "filed at ".to_owned();
    s.append(rel);
    if ignored {
        s.append(
            " — but git is ignoring that path, so this decision will not reach the history it was written for. Tell the user to un-ignore it or set `decisions-dir` to somewhere tracked.",
        );
    }
    s
}

/// What a checkpoint comes to.
#[derive(Debug)]
pub enum CheckpointStep {
    /// Answer with this.
    Reply(ToolOutput),
    /// Put the question to the user.
    Ask { subject: String, question: String },
    /// Show it to the user, and answer with the note's text.
    Show(ToolOutput),
}

/// What a `CheckpointStep` says.
pub enum CheckpointNext {
    Reply(Output),
    Ask(Seq<char>, Seq<char>),
    Show(Output),
}

impl View for CheckpointStep {
    type V = CheckpointNext;

    open spec fn view(&self) -> CheckpointNext {
        match self {
            CheckpointStep::Reply(o) => CheckpointNext::Reply(o@),
            CheckpointStep::Ask { subject, question } => CheckpointNext::Ask(subject@, question@),
            CheckpointStep::Show(o) => CheckpointNext::Show(o@),
        }
    }
}

/// The trimmed text of an argument; empty where there is none.
pub open spec fn text_arg(args: Tree, key: Seq<char>) -> Seq<char> {
    match str_arg(args, key) {
        Some(s) => trim(s),
        None => seq![],
    }
}

/// What a checkpoint comes to, and how many are left of the turn's. Every kind spends
/// one, and one that says nothing spends none.
pub open spec fn checkpoint_asked(args: Tree, left: nat) -> (nat, CheckpointNext) {
    let kind = match str_arg(args, "kind"@) {
        Some(k) => k,
        None => "note"@,
    };
    let subject = text_arg(args, "subject"@);
    let detail = text_arg(args, "detail"@);
    if subject.len() == 0 || detail.len() == 0 {
        (left, CheckpointNext::Reply(wrong("checkpoint needs both `subject` and `detail`"@)))
    } else if left == 0 {
        (
            left,
            CheckpointNext::Reply(
                wrong(
                    "no checkpoints left this turn — carry on with the work and raise it in your summary at the end instead."@,
                ),
            ),
        )
    } else {
        (
            (left - 1) as nat,
            if kind == "ask"@ {
                CheckpointNext::Ask(subject, detail)
            } else if kind == "note"@ || kind == "yours"@ {
                CheckpointNext::Show(fine("Shown to the user. Carry on."@))
            } else {
                CheckpointNext::Reply(
                    wrong(
                        "unknown checkpoint kind `"@ + kind + "` (use ask, note, or yours)"@,
                    ),
                )
            },
        )
    }
}

fn arg_text(args: &Json, key: &str) -> (r: String)
    ensures
        r@ == text_arg(args@, key@),
{
    match get_str(args, key) {
        Some(s) => trimmed(s),
        None => {
            let none = String::new();
            assert(none@ =~= seq![]);
            none
        },
    }
}

/// The answer to the user's answer, which is filed; where there is none, the model
/// decides.
pub open spec fn answer_told(answer: Option<Seq<char>>, note: Seq<char>) -> Output {
    match answer {
        Some(a) if trim(a).len() > 0 => fine(
            "The user answered: "@ + trim(a) + "\n\nBuild that. Decision "@ + note + "."@,
        ),
        _ => fine(
            "No answer — nobody watching, or they skipped it. Decide it yourself, say which way you went and why, and carry on."@,
        ),
    }
}

impl CheckpointTool {
    /// What a checkpoint comes to; `left` is how many the turn still has.
    pub fn request(args: &Json, left: &mut usize) -> (r: CheckpointStep)
        ensures
            (*final(left) as nat, r@) == checkpoint_asked(args@, *old(left) as nat),
    {
        let subject = arg_text(args, "subject");
        let detail = arg_text(args, "detail");
        if subject.as_str().unicode_len() == 0 || detail.as_str().unicode_len() == 0 {
            return CheckpointStep::Reply(
                ToolOutput::error("checkpoint needs both `subject` and `detail`"),
            );
        }
        if *left == 0 {
            return CheckpointStep::Reply(
                ToolOutput::error(
                    "no checkpoints left this turn — carry on with the work and raise it in your summary at the end instead.",
                ),
            );
        }
        *left = *left - 1;
        let kind = match get_str(args, "kind") {
            Some(k) => k,
            None => "note",
        };
        if same(kind, "ask") {
            CheckpointStep::Ask { subject, question: detail }
        } else if same(kind, "note") || same(kind, "yours") {
            CheckpointStep::Show(ToolOutput::ok("Shown to the user. Carry on."))
        } else {
            let mut s = "unknown checkpoint kind `".to_owned();
            s.append(kind);
            s.append("` (use ask, note, or yours)");
            CheckpointStep::Reply(ToolOutput { content: s, is_error: true, fatal: false })
        }
    }

    /// What is to be filed of the user's answer: nothing, where there is none.
    pub fn to_file(answer: &Option<String>) -> (r: Option<String>)
        ensures
            opt_view(r) == match opt_view(*answer) {
                Some(a) if trim(a).len() > 0 => Some(trim(a)),
                _ => None,
            },
    {
        match answer {
            Some(a) => {
                let t = trimmed(a.as_str());
                if t.as_str().unicode_len() > 0 {
                    Some(t)
                } else {
                    None
                }
            },
            None => None,
        }
    }

    /// The answer to the user's answer; `note` says where it was filed.
    pub fn answered(answer: &Option<String>, note: &str) -> (r: ToolOutput)
        ensures
            r@ == answer_told(opt_view(*answer), note@),
    {
        match CheckpointTool::to_file(answer) {
            Some(a) => {
                let mut s = "The user answered: ".to_owned();
                s.append(a.as_str());
                s.append("\n\nBuild that. Decision ");
                s.append(note);
                s.append(".");
                ToolOutput { content: s, is_error: false, fatal: false }
            },
            None => ToolOutput::ok(
                "No answer — nobody watching, or they skipped it. Decide it yourself, say which way you went and why, and carry on.",
            ),
        }
    }
}

// ---- laws -------------------------------------------------------------------

/// Every checkpoint that says something spends one of the turn's, whatever its kind;
/// with none left it is an error, and nobody is asked.
pub proof fn every_kind_spends_the_budget(args: Tree, left: nat)
    requires
        text_arg(args, "subject"@).len() > 0,
        text_arg(args, "detail"@).len() > 0,
    ensures
        left > 0 ==> checkpoint_asked(args, left).0 == left - 1,
        left == 0 ==> checkpoint_asked(args, left).0 == 0 && (checkpoint_asked(args, left).1 matches
            CheckpointNext::Reply(o) && o.is_error),
{
}

/// A question that nobody answers is not an error: the work goes on.
pub proof fn silence_is_no_error(answer: Option<Seq<char>>, note: Seq<char>)
    ensures
        !answer_told(answer, note).is_error,
        !answer_told(answer, note).fatal,
{
}

/// The next decision has a number above every one that is there, so they read in the
/// order in which they were taken.
pub proof fn numbers_grow(names: Seq<Seq<char>>, n: nat, i: int)
    requires
        0 <= i < n <= names.len(),
    ensures
        number_of(names[i]) matches Some(k) ==> k < highest(names, n) + 1,
    decreases n,
{
    if i < n - 1 {
        numbers_grow(names, (n - 1) as nat, i);
    }
}

/// A checkpoint that says what it is about and what it is costs one of those that are left,
/// and a question reaches the user as it was put; without either, or with none left, nothing
/// is asked and nothing is spent.
pub proof fn a_question_reaches_the_user_as_it_was_put(args: Tree, left: nat)
    ensures
        ({
            let subject = text_arg(args, "subject"@);
            let detail = text_arg(args, "detail"@);
            let r = checkpoint_asked(args, left);
            let whole = subject.len() > 0 && detail.len() > 0;
            &&& !whole || left == 0 ==> r.0 == left && (r.1 matches CheckpointNext::Reply(o)
                && o.is_error && !o.fatal)
            &&& whole && left > 0 ==> r.0 == left - 1
            &&& whole && left > 0 && str_arg(args, "kind"@) == Some("ask"@) ==> r.1
                == CheckpointNext::Ask(subject, detail)
            &&& r.1 matches CheckpointNext::Ask(s, d) ==> str_arg(args, "kind"@) == Some("ask"@)
                && s == subject && d == detail
            &&& whole && left > 0 && (str_arg(args, "kind"@) is None || str_arg(args, "kind"@)
                == Some("note"@) || str_arg(args, "kind"@) == Some("yours"@))
                ==> r.1 is Show
        }),
{
    reveal_strlit("ask");
    reveal_strlit("note");
    reveal_strlit("yours");
    assert("ask"@.len() == 3 && "note"@.len() == 4 && "yours"@.len() == 5);
}

/// The next number is one above every number that is taken, and where there is any it is one
/// above one of them.
pub proof fn the_next_number_is_just_above(names: Seq<Seq<char>>, n: nat)
    requires
        n <= names.len(),
    ensures
        forall|i: int|
            0 <= i < n ==> (number_of(#[trigger] names[i]) matches Some(k) ==> k <= highest(
                names,
                n,
            )),
        highest(names, n) > 0 ==> exists|i: int|
            0 <= i < n && number_of(#[trigger] names[i]) == Some(highest(names, n)),
    decreases n,
{
    if n > 0 {
        let m = (n - 1) as nat;
        the_next_number_is_just_above(names, m);
        if highest(names, n) > 0 {
            if highest(names, n) == highest(names, m) {
                let i = choose|i: int|
                    0 <= i < m && number_of(#[trigger] names[i]) == Some(highest(names, m));
                assert(number_of(names[i]) == Some(highest(names, n)));
            } else {
                assert(number_of(names[n - 1]) == Some(highest(names, n)));
            }
        }
    }
}

/// What the user answered is told to the model; silence tells it to decide.
pub proof fn an_answer_is_passed_on(answer: Seq<char>, note: Seq<char>)
    ensures
        trim(answer).len() > 0 ==> crate::text::contains(
            answer_told(Some(answer), note).content,
            trim(answer),
        ),
        trim(answer).len() == 0 ==> answer_told(Some(answer), note) == answer_told(None, note),
{
    crate::wording::a_part_stands_in_the_whole(
        "The user answered: "@,
        trim(answer),
        "\n\nBuild that. Decision "@ + note + "."@,
    );
    let t = "The user answered: "@ + trim(answer) + "\n\nBuild that. Decision "@ + note + "."@;
    assert("The user answered: "@ + trim(answer) + ("\n\nBuild that. Decision "@ + note + "."@)
        =~= t);
}

} // verus!
