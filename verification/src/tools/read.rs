//! `read`: a text file, or a range of its lines, with line numbers.
use vstd::prelude::*;
use vstd::string::*;

use crate::json::{get_u64, member, u64_of, Json, Tree};
use crate::list::{concat, group_lists, views};
use crate::text::{dec, decimal, lines, lines_of};
use crate::tools::{fine, Output, ToolOutput};

verus! {

broadcast use group_lists;

/// Reads files.
pub struct ReadTool;

/// `n` in decimal, on six columns at least.
pub open spec fn line_number(n: nat) -> Seq<char> {
    spaces_before(dec(n), 6)
}

/// `s` with spaces before it up to a width.
pub open spec fn spaces_before(s: Seq<char>, width: nat) -> Seq<char>
    decreases width - s.len(),
{
    if s.len() >= width {
        s
    } else {
        spaces_before(seq![' '] + s, width)
    }
}

/// A line with its number, counted from 1.
pub open spec fn numbered_line(i: int, line: Seq<char>) -> Seq<char> {
    line_number((i + 1) as nat) + "\t"@ + line + "\n"@
}

/// The first line that is shown, counted from 0.
pub open spec fn first_line(args: Tree) -> nat {
    match u64_of(member(args, "offset"@)) {
        Some(n) => if n >= 1 {
            (n - 1) as nat
        } else {
            0
        },
        None => 0,
    }
}

/// How many of the lines from `from` on are shown.
pub open spec fn shown_count(total: nat, from: nat, limit: Option<u64>) -> nat {
    let rest = if from <= total {
        (total - from) as nat
    } else {
        0
    };
    match limit {
        Some(n) => if n < rest {
            n as nat
        } else {
            rest
        },
        None => rest,
    }
}

/// The lines that are shown, with their numbers.
pub open spec fn shown_lines(ls: Seq<Seq<char>>, from: nat, limit: Option<u64>) -> Seq<Seq<char>> {
    Seq::new(
        shown_count(ls.len(), from, limit),
        |i: int| numbered_line(from + i, ls[from + i]),
    )
}

/// What a file's text reads as.
pub open spec fn file_shown(text: Seq<char>, args: Tree) -> Output {
    let shown = shown_lines(lines(text), first_line(args), u64_of(member(args, "limit"@)));
    if shown.len() == 0 {
        fine("(no lines in range or empty file)"@)
    } else {
        fine(concat(shown))
    }
}

fn pad_number(n: u128) -> (r: String)
    ensures
        r@ == line_number(n as nat),
{
    let mut s = decimal(n);
    let mut len: usize = s.as_str().unicode_len();
    while len < 6
        invariant
            len == s@.len(),
            spaces_before(s@, 6) == line_number(n as nat),
        decreases 6 - len,
    {
        let mut t = String::new();
        t.push(' ');
        t.append(s.as_str());
        assert(t@ =~= seq![' '] + s@);
        s = t;
        len = len + 1;
    }
    s
}

impl ReadTool {
    /// What a file's text reads as: its lines in the range, with their numbers.
    pub fn show(text: &str, args: &Json) -> (r: ToolOutput)
        ensures
            r@ == file_shown(text@, args@),
    {
        let all = lines_of(text);
        let total = all.len();
        let limit = get_u64(args, "limit");
        let from: u64 = match get_u64(args, "offset") {
            Some(n) => if n >= 1 {
                n - 1
            } else {
                0
            },
            None => 0,
        };
        let ghost ls = lines(text@);
        let ghost shown = shown_lines(ls, from as nat, limit);
        if from >= total as u64 {
            return ToolOutput::ok("(no lines in range or empty file)");
        }
        let from: usize = from as usize;
        let rest: usize = total - from;
        let count: usize = match limit {
            Some(n) => if n < rest as u64 {
                n as usize
            } else {
                rest
            },
            None => rest,
        };
        if count == 0 {
            return ToolOutput::ok("(no lines in range or empty file)");
        }
        let mut out = String::new();
        let mut i: usize = 0;
        assert(shown.take(0) =~= seq![]);
        while i < count
            invariant
                i <= count == shown.len(),
                from + count <= total,
                total == all@.len(),
                ls == views(all@),
                shown == shown_lines(ls, from as nat, limit),
                out@ == concat(shown.take(i as int)),
            decreases count - i,
        {
            assert(ls[from + i] == all@[from + i]@);
            let mut line = pad_number((from + i) as u128 + 1);
            line.append("\t");
            line.append(all[from + i].as_str());
            line.append("\n");
            assert(line@ == shown[i as int]);
            assert(shown.take(i + 1) =~= shown.take(i as int).push(shown[i as int]));
            out.append(line.as_str());
            i = i + 1;
        }
        assert(shown.take(i as int) =~= shown);
        ToolOutput { content: out, is_error: false, fatal: false }
    }
}

// ---- laws -------------------------------------------------------------------

/// Is this a line under its number: the number, on six columns where it fits, a tab, and
/// the line as it is?
pub open spec fn is_row(row: Seq<char>, n: nat, line: Seq<char>) -> bool {
    exists|pad: Seq<char>|
        {
            &&& row == #[trigger] (pad + dec(n)) + seq!['\t'] + line + seq!['\n']
            &&& forall|i: int| 0 <= i < pad.len() ==> pad[i] == ' '
            &&& pad.len() + dec(n).len() == if dec(n).len() < 6 {
                6
            } else {
                dec(n).len()
            }
        }
}

proof fn lemma_spaces_before(s: Seq<char>, width: nat, n: nat, pad: Seq<char>)
    requires
        s == pad + dec(n),
        forall|i: int| 0 <= i < pad.len() ==> pad[i] == ' ',
        pad.len() > 0 ==> s.len() <= width,
    ensures
        exists|p: Seq<char>|
            {
                &&& spaces_before(s, width) == #[trigger] (p + dec(n))
                &&& forall|i: int| 0 <= i < p.len() ==> p[i] == ' '
                &&& p.len() + dec(n).len() == if dec(n).len() < width {
                    width
                } else {
                    dec(n).len()
                }
            },
    decreases width - s.len(),
{
    if s.len() < width {
        let more = seq![' '] + pad;
        assert(seq![' '] + s =~= more + dec(n));
        lemma_spaces_before(seq![' '] + s, width, n, more);
    } else {
        assert(spaces_before(s, width) == pad + dec(n));
    }
}

/// Each line of the range is shown once, in order, under its own number counted from one;
/// and nothing else is: the range begins at the line that is asked for, or at the first,
/// and ends after as many lines as are asked for, or with the file.
pub proof fn the_lines_asked_for_are_shown(text: Seq<char>, args: Tree)
    ensures
        ({
            let ls = lines(text);
            let from: int = match u64_of(member(args, "offset"@)) {
                Some(n) => if n == 0 {
                    1
                } else {
                    n as int
                },
                None => 1,
            };
            let past = ls.len() as int + 1;
            let end: int = match u64_of(member(args, "limit"@)) {
                Some(n) => if from + n <= past {
                    from + n
                } else {
                    past
                },
                None => past,
            };
            &&& end <= from ==> file_shown(text, args) == fine(
                "(no lines in range or empty file)"@,
            )
            &&& end > from ==> exists|rows: Seq<Seq<char>>|
                {
                    &&& rows.len() == end - from
                    &&& file_shown(text, args) == fine(#[trigger] concat(rows))
                    &&& forall|k: int|
                        0 <= k < rows.len() ==> is_row(
                            #[trigger] rows[k],
                            (from + k) as nat,
                            ls[from + k - 1],
                        )
                }
        }),
{
    let ls = lines(text);
    let first = first_line(args);
    let limit = u64_of(member(args, "limit"@));
    let rows = shown_lines(ls, first, limit);
    assert forall|k: int| 0 <= k < rows.len() implies is_row(
        #[trigger] rows[k],
        (first + 1 + k) as nat,
        ls[first + k],
    ) by {
        let n = (first + k + 1) as nat;
        let line = ls[first + k];
        lemma_spaces_before(dec(n), 6, n, seq![]);
        assert(dec(n) =~= Seq::<char>::empty() + dec(n));
        lemma_spaces_before(dec(n), 6, n, Seq::<char>::empty());
        let p = choose|p: Seq<char>|
            {
                &&& spaces_before(dec(n), 6) == #[trigger] (p + dec(n))
                &&& forall|i: int| 0 <= i < p.len() ==> p[i] == ' '
                &&& p.len() + dec(n).len() == if dec(n).len() < 6 {
                    6nat
                } else {
                    dec(n).len()
                }
            };
        reveal_strlit("\t");
        reveal_strlit("\n");
        assert("\t"@ =~= seq!['\t']);
        assert("\n"@ =~= seq!['\n']);
        assert(rows[k] == (p + dec(n)) + seq!['\t'] + line + seq!['\n']);
    }
    if rows.len() > 0 {
        assert(file_shown(text, args) == fine(concat(rows)));
    }
}

} // verus!
