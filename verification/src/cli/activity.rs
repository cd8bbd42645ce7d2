//! How a run shows itself line by line, and what a message brings along.
use vstd::prelude::*;
use vstd::string::*;

use crate::event::{Emitted, Event};
use crate::list::{concat, group_lists, views};
use crate::report::{truncate, truncated};
use crate::text::{
    after_prefix, dec, decimal, lines, lines_of, strip_prefix, words, words_of,
};

verus! {

broadcast use group_lists;

/// What is printed of an event.
#[derive(Debug)]
pub struct Activity {
    pub text: String,
    /// Does a line end behind it?
    pub ends_line: bool,
    /// Does it go to the error stream?
    pub err: bool,
}

/// What is printed of an event, as it reads.
pub struct Shown {
    pub text: Seq<char>,
    pub ends_line: bool,
    pub err: bool,
}

impl View for Activity {
    type V = Shown;

    open spec fn view(&self) -> Shown {
        Shown { text: self.text@, ends_line: self.ends_line, err: self.err }
    }
}

/// A line of its own. Where only the answer is to be printed, it goes to the error
/// stream.
pub open spec fn row(text: Seq<char>, print_mode: bool) -> Option<Shown> {
    Some(Shown { text, ends_line: true, err: print_mode })
}

/// A piece of a line.
pub open spec fn piece(text: Seq<char>) -> Option<Shown> {
    Some(Shown { text, ends_line: false, err: false })
}

/// The first line of a text.
pub open spec fn first_line(s: Seq<char>) -> Seq<char> {
    if lines(s).len() > 0 {
        lines(s)[0]
    } else {
        seq![]
    }
}

/// How many lines there are besides the first.
pub open spec fn more_lines(s: Seq<char>) -> Seq<char> {
    if lines(s).len() > 1 {
        " (+"@ + dec((lines(s).len() - 1) as nat) + " more lines)"@
    } else {
        seq![]
    }
}

/// What is printed of an event. In print mode only the final answer belongs on the
/// standard output.
pub open spec fn activity(e: Emitted, print_mode: bool) -> Option<Shown> {
    match e {
        Emitted::Thinking(text) => if print_mode {
            None
        } else {
            piece("\x1b[2m"@ + text + "\x1b[0m"@)
        },
        Emitted::MessageDelta(text) => if print_mode {
            None
        } else {
            piece(text)
        },
        Emitted::ToolCall { id: _, name, arguments } => row(
            "\n\x1b[2m⚙ "@ + name + " "@ + truncated(arguments, 160) + "\x1b[0m"@,
            print_mode,
        ),
        Emitted::ToolResult { id: _, name: _, ok, output } => row(
            "\x1b[2m  → "@ + (if ok {
                "ok"@
            } else {
                "error"@
            }) + ": "@ + truncated(first_line(output), 160) + more_lines(output) + "\x1b[0m"@,
            print_mode,
        ),
        Emitted::Nudge(reason) => row("\x1b[33m↻ "@ + reason + "\x1b[0m"@, print_mode),
        Emitted::Compaction { messages_before, messages_after, .. } => row(
            "\x1b[2m⟲ compacted context: "@ + dec(messages_before as nat) + " → "@ + dec(
                messages_after as nat,
            ) + " messages\x1b[0m"@,
            print_mode,
        ),
        Emitted::Validation(ok, detail) => if ok {
            row(
                "\x1b[32m✓ validation passed: "@ + truncated(detail, 120) + "\x1b[0m"@,
                print_mode,
            )
        } else {
            row(
                "\x1b[31m✗ validation failed: "@ + truncated(detail, 200) + "\x1b[0m"@,
                print_mode,
            )
        },
        Emitted::Error(message) => row("\x1b[31merror:\x1b[0m "@ + message, print_mode),
        Emitted::TurnComplete(_) => if print_mode {
            None
        } else {
            row(seq![], false)
        },
        _ => None,
    }
}

/// What is printed of an event, as it reads.
pub open spec fn shown(a: Option<Activity>) -> Option<Shown> {
    match a {
        Some(a) => Some(a@),
        None => None,
    }
}

fn wrapped(before: &str, text: &str, after: &str) -> (r: String)
    ensures
        r@ == before@ + text@ + after@,
{
    let mut s = before.to_owned();
    s.append(text);
    s.append(after);
    s
}

fn show_result(ok: bool, output: &str) -> (r: String)
    ensures
        r@ == "\x1b[2m  → "@ + (if ok {
            "ok"@
        } else {
            "error"@
        }) + ": "@ + truncated(first_line(output@), 160) + more_lines(output@) + "\x1b[0m"@,
{
    let ls = lines_of(output);
    let ghost all = views(ls@);
    let first = if ls.len() > 0 {
        assert(all[0] == ls@[0]@);
        ls[0].clone()
    } else {
        String::new()
    };
    assert(first@ =~= first_line(output@));
    let mut s = "\x1b[2m  → ".to_owned();
    s.append(
        if ok {
            "ok"
        } else {
            "error"
        },
    );
    s.append(": ");
    s.append(truncate(first.as_str(), 160).as_str());
    if ls.len() > 1 {
        let mut more = " (+".to_owned();
        more.append(decimal((ls.len() - 1) as u128).as_str());
        more.append(" more lines)");
        s.append(more.as_str());
    } else {
        assert(s@ =~= s@ + seq![]);
    }
    s.append("\x1b[0m");
    s
}

/// What is printed of an event.
pub fn render_activity(ev: &Event, print_mode: bool) -> (r: Option<Activity>)
    ensures
        shown(r) == activity(ev@, print_mode),
{
    let text = match ev {
        Event::Thinking { text } => {
            return if print_mode {
                None
            } else {
                Some(
                    Activity {
                        text: wrapped("\x1b[2m", text.as_str(), "\x1b[0m"),
                        ends_line: false,
                        err: false,
                    },
                )
            };
        },
        Event::MessageDelta { text } => {
            return if print_mode {
                None
            } else {
                Some(Activity { text: text.clone(), ends_line: false, err: false })
            };
        },
        Event::ToolCall { id: _, name, arguments } => {
            let mut s = "\n\x1b[2m⚙ ".to_owned();
            s.append(name.as_str());
            s.append(" ");
            s.append(truncate(arguments.as_str(), 160).as_str());
            s.append("\x1b[0m");
            s
        },
        Event::ToolResult { id: _, name: _, ok, output } => show_result(*ok, output.as_str()),
        Event::Nudge { reason } => wrapped("\x1b[33m↻ ", reason.as_str(), "\x1b[0m"),
        Event::Compaction { messages_before, messages_after, tokens_before: _, tokens_after: _ } => {
            let mut s = "\x1b[2m⟲ compacted context: ".to_owned();
            s.append(decimal(*messages_before as u128).as_str());
            s.append(" → ");
            s.append(decimal(*messages_after as u128).as_str());
            s.append(" messages\x1b[0m");
            s
        },
        Event::Validation { ok, detail } => if *ok {
            wrapped(
                "\x1b[32m✓ validation passed: ",
                truncate(detail.as_str(), 120).as_str(),
                "\x1b[0m",
            )
        } else {
            wrapped(
                "\x1b[31m✗ validation failed: ",
                truncate(detail.as_str(), 200).as_str(),
                "\x1b[0m",
            )
        },
        Event::Error { message } => {
            let mut s = "\x1b[31merror:\x1b[0m ".to_owned();
            s.append(message.as_str());
            s
        },
        Event::TurnComplete { outcome: _ } => {
            return if print_mode {
                None
            } else {
                let none = String::new();
                assert(none@ =~= seq![]);
                Some(Activity { text: none, ends_line: true, err: false })
            };
        },
        _ => return None,
    };
    Some(Activity { text, ends_line: true, err: print_mode })
}

// ---- files in a message -----------------------------------------------------

/// The paths that the first `n` words mention: `@path`.
pub open spec fn mentioned(ws: Seq<Seq<char>>, n: nat) -> Seq<Seq<char>>
    decreases n,
{
    if n == 0 {
        seq![]
    } else {
        match strip_prefix(ws[n - 1], "@"@) {
            Some(p) => mentioned(ws, (n - 1) as nat).push(p),
            None => mentioned(ws, (n - 1) as nat),
        }
    }
}

/// The paths that a message mentions.
pub fn file_mentions(input: &str) -> (r: Vec<String>)
    ensures
        views(r@) == mentioned(words(input@), words(input@).len()),
{
    let ws = words_of(input);
    let ghost all = views(ws@);
    let mut r: Vec<String> = Vec::new();
    let mut i: usize = 0;
    assert(views(r@) =~= seq![]);
    while i < ws.len()
        invariant
            i <= ws@.len(),
            all == views(ws@),
            views(r@) == mentioned(all, i as nat),
        decreases ws.len() - i,
    {
        assert(all[i as int] == ws@[i as int]@);
        if let Some(p) = after_prefix(ws[i].as_str(), "@") {
            r.push(p);
        }
        i = i + 1;
    }
    r
}

/// How files come along with a message: those that cannot be read do not.
pub open spec fn attachments(files: Seq<(String, Option<String>)>) -> Seq<Seq<char>> {
    Seq::new(
        files.len(),
        |i: int|
            match files[i].1 {
                Some(c) => "\n\n<file path=\""@ + files[i].0@ + "\">\n"@ + c@ + "\n</file>"@,
                None => Seq::<char>::empty(),
            },
    )
}

/// A message with the files that it mentions.
pub fn expand_file_mentions(input: &str, files: &Vec<(String, Option<String>)>) -> (r: String)
    ensures
        r@ == input@ + concat(attachments(files@)),
{
    let ghost all = attachments(files@);
    let mut out = input.to_owned();
    let mut i: usize = 0;
    assert(out@ =~= input@ + concat(all.take(0)));
    while i < files.len()
        invariant
            i <= files@.len(),
            all == attachments(files@),
            out@ == input@ + concat(all.take(i as int)),
        decreases files.len() - i,
    {
        let ghost before = out@;
        match &files[i].1 {
            Some(c) => {
                let mut s = "\n\n<file path=\"".to_owned();
                s.append(files[i].0.as_str());
                s.append("\">\n");
                s.append(c.as_str());
                s.append("\n</file>");
                assert(s@ == all[i as int]);
                out.append(s.as_str());
            },
            None => {
                assert(out@ =~= out@ + all[i as int]);
            },
        }
        assert(all.take(i + 1) =~= all.take(i as int).push(all[i as int]));
        assert(out@ =~= input@ + concat(all.take(i + 1)));
        i = i + 1;
    }
    assert(all.take(i as int) =~= all);
    out
}

// ---- laws -------------------------------------------------------------------

/// In print mode nothing but the answer reaches the standard output.
pub proof fn print_mode_keeps_the_output_clean(e: Emitted)
    ensures
        activity(e, true) matches Some(a) ==> a.err,
{
}

} // verus!
