//! The outline of a markdown text: its headings, and the sections under them.
use vstd::prelude::*;
use vstd::string::*;

use crate::list::{group_lists, join, views};
use crate::text::{
    all_digits, begins, chars_of, find, find_in, is_digit, joined_range, lines, lines_of, lowercase,
    same, starts_with, string_of, trim, trim_start, trimmed, trimmed_start,
};

verus! {

broadcast use group_lists;

/// The fence that is open behind a line, given the one that was open before it.
pub open spec fn fence_step(open: Option<Seq<char>>, line: Seq<char>) -> Option<Seq<char>> {
    let t = trim_start(line);
    match open {
        Some(f) => if starts_with(t, f) {
            None
        } else {
            Some(f)
        },
        None => if starts_with(t, "```"@) {
            Some("```"@)
        } else if starts_with(t, "~~~"@) {
            Some("~~~"@)
        } else {
            None
        },
    }
}

/// The fence that is open behind the first `n` lines.
pub open spec fn fence(ls: Seq<Seq<char>>, n: nat) -> Option<Seq<char>>
    decreases n,
{
    if n == 0 {
        None
    } else {
        fence_step(fence(ls, (n - 1) as nat), ls[n - 1])
    }
}

/// How many `#` a line begins with.
pub open spec fn hashes(line: Seq<char>) -> nat
    decreases line.len(),
{
    if line.len() > 0 && line[0] == '#' {
        1 + hashes(line.drop_first())
    } else {
        0
    }
}

/// The level and the title that a line would have as a heading.
pub open spec fn title_of(line: Seq<char>) -> Option<(nat, Seq<char>)> {
    let h = hashes(line);
    if 1 <= h <= 4 && h < line.len() && line[h as int] == ' ' {
        Some((h, trim(line.skip(h as int + 1))))
    } else {
        None
    }
}

/// The heading on line `i`, if there is one: in a fence there is none.
pub open spec fn heading_at(ls: Seq<Seq<char>>, i: int) -> Option<(nat, Seq<char>)> {
    if fence(ls, i as nat) is None && fence(ls, (i + 1) as nat) is None {
        title_of(ls[i])
    } else {
        None
    }
}

/// The headings on the first `n` lines.
pub open spec fn headings_in(ls: Seq<Seq<char>>, n: nat) -> Seq<(nat, Seq<char>)>
    decreases n,
{
    if n == 0 {
        seq![]
    } else {
        match heading_at(ls, n - 1) {
            Some(h) => headings_in(ls, (n - 1) as nat).push(h),
            None => headings_in(ls, (n - 1) as nat),
        }
    }
}

/// The headings of a text.
pub open spec fn headings_of(text: Seq<char>) -> Seq<(nat, Seq<char>)> {
    headings_in(lines(text), lines(text).len())
}

/// What a list of headings says.
pub open spec fn outline(v: Seq<(usize, String)>) -> Seq<(nat, Seq<char>)> {
    Seq::new(v.len(), |i: int| (v[i].0 as nat, v[i].1@))
}

fn count_hashes(v: &Vec<char>) -> (n: usize)
    ensures
        n == hashes(v@),
        n <= v@.len(),
{
    let mut n: usize = 0;
    assert(v@.skip(0) =~= v@);
    while n < v.len() && v[n] == '#'
        invariant
            n <= v@.len(),
            hashes(v@) == n + hashes(v@.skip(n as int)),
        decreases v.len() - n,
    {
        assert(v@.skip(n as int).drop_first() =~= v@.skip(n + 1));
        n = n + 1;
    }
    n
}

fn read_title(line: &str) -> (r: Option<(usize, String)>)
    ensures
        match r {
            Some(h) => title_of(line@) == Some((h.0 as nat, h.1@)),
            None => title_of(line@) is None,
        },
{
    let v = chars_of(line);
    let n = count_hashes(&v);
    if n < 1 || n > 4 || n >= v.len() || v[n] != ' ' {
        return None;
    }
    let end = v.len();
    let rest = string_of(&v, n + 1, end);
    assert(rest@ =~= line@.skip(n + 1));
    Some((n, trimmed(rest.as_str())))
}

/// Which fence is open.
#[derive(Debug, Clone, Copy)]
enum Fence {
    Closed,
    Ticks,
    Tildes,
}

spec fn fence_view(f: Fence) -> Option<Seq<char>> {
    match f {
        Fence::Closed => None,
        Fence::Ticks => Some("```"@),
        Fence::Tildes => Some("~~~"@),
    }
}

fn next_fence(f: Fence, line: &str) -> (r: Fence)
    ensures
        fence_view(r) == fence_step(fence_view(f), line@),
{
    let t = trimmed_start(line);
    match f {
        Fence::Ticks => if begins(t.as_str(), "```") {
            Fence::Closed
        } else {
            f
        },
        Fence::Tildes => if begins(t.as_str(), "~~~") {
            Fence::Closed
        } else {
            f
        },
        Fence::Closed => if begins(t.as_str(), "```") {
            Fence::Ticks
        } else if begins(t.as_str(), "~~~") {
            Fence::Tildes
        } else {
            Fence::Closed
        },
    }
}

fn read_heading(before: Fence, after: Fence, line: &str) -> (r: Option<(usize, String)>)
    ensures
        match r {
            Some(h) => fence_view(before) is None && fence_view(after) is None && title_of(line@)
                == Some((h.0 as nat, h.1@)),
            None => fence_view(before) is Some || fence_view(after) is Some || title_of(line@) is None,
        },
{
    match (before, after) {
        (Fence::Closed, Fence::Closed) => read_title(line),
        _ => None,
    }
}

/// The headings of a markdown text, `#` through `####`, with their levels. What stands
/// in a fenced code block is no heading.
pub fn headings(text: &str) -> (r: Vec<(usize, String)>)
    ensures
        outline(r@) == headings_of(text@),
{
    let ls = lines_of(text);
    let ghost all = views(ls@);
    let mut out: Vec<(usize, String)> = Vec::new();
    let mut f = Fence::Closed;
    let mut i: usize = 0;
    assert(outline(out@) =~= seq![]);
    while i < ls.len()
        invariant
            i <= ls@.len(),
            all == views(ls@),
            fence_view(f) == fence(all, i as nat),
            outline(out@) == headings_in(all, i as nat),
        decreases ls.len() - i,
    {
        let next = next_fence(f, ls[i].as_str());
        assert(all[i as int] == ls@[i as int]@);
        assert(fence(all, (i + 1) as nat) == fence_step(fence(all, i as nat), all[i as int]));
        if let Some(h) = read_heading(f, next, ls[i].as_str()) {
            let ghost before = out@;
            out.push(h);
            assert(outline(out@) =~= outline(before).push((h.0 as nat, h.1@)));
        }
        f = next;
        i = i + 1;
    }
    out
}

/// The title without case and without a leading list number.
pub open spec fn plain_heading(title: Seq<char>) -> Seq<char> {
    let t = trim(title);
    lowercase(
        match find(t, ". "@) {
            Some(i) => if all_digits(t.take(i)) {
                t.skip(i + 2)
            } else {
                t
            },
            None => t,
        },
    )
}

/// The title in lower case, without a leading list number.
pub fn normalize_heading(title: &str) -> (r: String)
    ensures
        r@ == plain_heading(title@),
{
    proof {
        reveal_strlit(". ");
    }
    let t = trimmed(title);
    match find_in(t.as_str(), ". ") {
        None => t.as_str().to_lowercase(),
        Some(i) => {
            let v = chars_of(t.as_str());
            proof {
                crate::text::lemma_find(t@, ". "@);
            }
            let mut k: usize = 0;
            while k < i && v[k] >= '0' && v[k] <= '9'
                invariant
                    k <= i <= v@.len(),
                    v@ == t@,
                    forall|j: int| 0 <= j < k ==> is_digit(#[trigger] v@[j]),
                decreases i - k,
            {
                k = k + 1;
            }
            let ghost number = t@.take(i as int);
            if k == i && i > 0 {
                assert(all_digits(number)) by {
                    assert forall|j: int| 0 <= j < number.len() implies is_digit(
                        #[trigger] number[j],
                    ) by {
                        assert(number[j] == v@[j]);
                    }
                }
                let end = v.len();
                let rest = string_of(&v, i + 2, end);
                assert(rest@ =~= t@.skip(i + 2));
                rest.as_str().to_lowercase()
            } else {
                assert(!all_digits(number)) by {
                    if all_digits(number) {
                        assert(is_digit(number[k as int]));
                        assert(number[k as int] == v@[k as int]);
                    }
                }
                t.as_str().to_lowercase()
            }
        },
    }
}

/// The first line from `i` on that opens the section: a heading of this level and
/// title.
pub open spec fn section_start(ls: Seq<Seq<char>>, level: nat, title: Seq<char>, i: int) -> int
    decreases ls.len() - i,
{
    if i >= ls.len() || heading_at(ls, i) == Some((level, title)) {
        i
    } else {
        section_start(ls, level, title, i + 1)
    }
}

/// The first line from `i` on with a heading as shallow as the level, or shallower.
pub open spec fn section_end(ls: Seq<Seq<char>>, level: nat, i: int) -> int
    decreases ls.len() - i,
{
    if i >= ls.len() || (heading_at(ls, i) matches Some(h) && h.0 <= level) {
        i
    } else {
        section_end(ls, level, i + 1)
    }
}

/// The section under a heading, to the next heading as shallow or shallower.
pub open spec fn section_of(text: Seq<char>, level: nat, title: Seq<char>) -> Seq<char> {
    let ls = lines(text);
    let start = section_start(ls, level, title, 0);
    if start >= ls.len() {
        seq![]
    } else {
        join(ls.subrange(start, section_end(ls, level, start + 1)), "\n"@)
    }
}

pub proof fn lemma_section_start(ls: Seq<Seq<char>>, level: nat, title: Seq<char>, i: int)
    requires
        0 <= i <= ls.len(),
    ensures
        i <= section_start(ls, level, title, i) <= ls.len(),
        section_start(ls, level, title, i) < ls.len() ==> heading_at(
            ls,
            section_start(ls, level, title, i),
        ) == Some((level, title)),
        forall|k: int|
            i <= k < section_start(ls, level, title, i) ==> #[trigger] heading_at(ls, k) != Some(
                (level, title),
            ),
    decreases ls.len() - i,
{
    if i < ls.len() && heading_at(ls, i) != Some((level, title)) {
        lemma_section_start(ls, level, title, i + 1);
    }
}

pub proof fn lemma_section_end(ls: Seq<Seq<char>>, level: nat, i: int)
    requires
        0 <= i <= ls.len(),
    ensures
        i <= section_end(ls, level, i) <= ls.len(),
        section_end(ls, level, i) < ls.len() ==> (heading_at(ls, section_end(ls, level, i)) matches Some(
            h,
        ) && h.0 <= level),
        forall|k: int|
            i <= k < section_end(ls, level, i) ==> (#[trigger] heading_at(ls, k) matches Some(h)
                ==> h.0 > level),
    decreases ls.len() - i,
{
    if i < ls.len() && !(heading_at(ls, i) matches Some(h) && h.0 <= level) {
        lemma_section_end(ls, level, i + 1);
    }
}

/// The section under a heading, to the next heading as shallow or shallower; fences
/// count as they do for the headings.
pub fn section_slice(text: &str, level: usize, title: &str) -> (r: String)
    ensures
        r@ == section_of(text@, level as nat, title@),
{
    let ls = lines_of(text);
    let n = ls.len();
    let ghost all = views(ls@);
    let mut f = Fence::Closed;
    let mut i: usize = 0;
    let mut start: Option<usize> = None;
    let mut end: Option<usize> = None;
    while i < n && end.is_none()
        invariant
            i <= n == ls@.len(),
            all == views(ls@),
            end is None ==> fence_view(f) == fence(all, i as nat),
            start is None ==> end is None && section_start(all, level as nat, title@, 0)
                == section_start(all, level as nat, title@, i as int),
            start matches Some(s) ==> s < n && s < i && s == section_start(
                all,
                level as nat,
                title@,
                0,
            ) && (end is None ==> section_end(all, level as nat, s + 1) == section_end(
                all,
                level as nat,
                i as int,
            )),
            end matches Some(e) ==> (start matches Some(s) && e == section_end(
                all,
                level as nat,
                s + 1,
            ) && s < e <= n),
        decreases
            n - i,
            if end is None {
                1int
            } else {
                0
            },
    {
        let line = ls[i].as_str();
        let next = next_fence(f, line);
        assert(all[i as int] == line@);
        assert(fence(all, (i + 1) as nat) == fence_step(fence(all, i as nat), all[i as int]));
        let h = read_heading(f, next, line);
        match start {
            Some(s) => {
                let shallow = match &h {
                    Some(x) => x.0 <= level,
                    None => false,
                };
                if shallow {
                    end = Some(i);
                }
            },
            None => {
                let opens = match &h {
                    Some(x) => x.0 == level && same(x.1.as_str(), title),
                    None => false,
                };
                if opens {
                    start = Some(i);
                }
            },
        }
        if end.is_none() {
            f = next;
            i = i + 1;
        }
    }
    match start {
        None => {
            let none = String::new();
            assert(none@ =~= seq![]);
            none
        },
        Some(s) => {
            let e: usize = match end {
                Some(e) => e,
                None => n,
            };
            joined_range(&ls, s, e, "\n")
        },
    }
}

// ---- laws -------------------------------------------------------------------

/// A section keeps its subsections and stops at a peer: every heading inside it is
/// deeper than its own, and the line that ends it, if any, holds one that is not.
pub proof fn a_section_stops_at_a_peer(ls: Seq<Seq<char>>, level: nat, title: Seq<char>, k: int)
    requires
        section_start(ls, level, title, 0) < ls.len(),
    ensures
        ({
            let start = section_start(ls, level, title, 0);
            let end = section_end(ls, level, start + 1);
            &&& start < end <= ls.len()
            &&& heading_at(ls, start) == Some((level, title))
            &&& start < k < end ==> (heading_at(ls, k) matches Some(h) ==> h.0 > level)
            &&& end < ls.len() ==> (heading_at(ls, end) matches Some(h) && h.0 <= level)
        }),
{
    lemma_section_start(ls, level, title, 0);
    lemma_section_end(ls, level, section_start(ls, level, title, 0) + 1);
}

/// Every heading that is listed can be fetched: its section starts on a line that holds
/// it.
pub proof fn a_listed_heading_has_a_section(ls: Seq<Seq<char>>, i: int)
    requires
        0 <= i < headings_in(ls, ls.len()).len(),
    ensures
        ({
            let h = headings_in(ls, ls.len())[i];
            section_start(ls, h.0, h.1, 0) < ls.len()
        }),
{
    let h = headings_in(ls, ls.len())[i];
    lemma_heading_line(ls, ls.len(), i);
    let k = choose|k: int| 0 <= k < ls.len() && heading_at(ls, k) == Some(h);
    lemma_section_start(ls, h.0, h.1, 0);
    if section_start(ls, h.0, h.1, 0) == ls.len() {
        assert(heading_at(ls, k) != Some((h.0, h.1)));
    }
}

proof fn lemma_heading_line(ls: Seq<Seq<char>>, n: nat, i: int)
    requires
        n <= ls.len(),
        0 <= i < headings_in(ls, n).len(),
    ensures
        exists|k: int| 0 <= k < n && heading_at(ls, k) == Some(headings_in(ls, n)[i]),
    decreases n,
{
    if n > 0 {
        let before = headings_in(ls, (n - 1) as nat);
        if i < before.len() {
            lemma_heading_line(ls, (n - 1) as nat, i);
            let k = choose|k: int| 0 <= k < n - 1 && heading_at(ls, k) == Some(before[i]);
            assert(heading_at(ls, k) == Some(headings_in(ls, n)[i]));
        } else {
            assert(heading_at(ls, n - 1) == Some(headings_in(ls, n)[i]));
        }
    }
}

/// A line of hashes, a space and a title is a heading of that level, up to the fourth.
pub proof fn a_heading_has_its_level_and_title(level: nat, title: Seq<char>)
    ensures
        ({
            let line = Seq::new(level, |i: int| '#') + seq![' '] + title;
            &&& 1 <= level <= 4 ==> title_of(line) == Some((level, trim(title)))
            &&& level == 0 || level > 4 ==> title_of(line) is None
        }),
{
    lemma_hashes(level, seq![' '] + title);
    let line = Seq::new(level, |i: int| '#') + seq![' '] + title;
    assert(line =~= Seq::new(level, |i: int| '#') + (seq![' '] + title));
    assert(line.skip(level as int + 1) =~= title);
}

proof fn lemma_hashes(level: nat, rest: Seq<char>)
    requires
        rest.len() > 0,
        rest[0] != '#',
    ensures
        hashes(Seq::new(level, |i: int| '#') + rest) == level,
    decreases level,
{
    let s = Seq::new(level, |i: int| '#') + rest;
    if level == 0 {
        assert(s =~= rest);
    } else {
        lemma_hashes((level - 1) as nat, rest);
        assert(s.drop_first() =~= Seq::new((level - 1) as nat, |i: int| '#') + rest);
    }
}

/// The headings of a text are those of its lines, in order, but for what stands in a block of
/// code.
pub proof fn headings_are_those_outside_of_code(ls: Seq<Seq<char>>, n: nat)
    requires
        0 < n <= ls.len(),
    ensures
        ({
            let before = headings_in(ls, (n - 1) as nat);
            let after = headings_in(ls, n);
            let code = fence(ls, (n - 1) as nat) is Some || fence(ls, n) is Some;
            &&& code || title_of(ls[n - 1]) is None ==> after == before
            &&& !code && title_of(ls[n - 1]) is Some ==> after == before.push(
                title_of(ls[n - 1])->0,
            )
        }),
{
}

/// A block of code begins at a line of ticks or tildes and ends at the next line of the same.
pub proof fn code_ends_where_it_began(open: Seq<char>, line: Seq<char>)
    ensures
        starts_with(trim_start(line), open) ==> fence_step(Some(open), line) is None,
        !starts_with(trim_start(line), open) ==> fence_step(Some(open), line) == Some(open),
        starts_with(trim_start(line), "```"@) ==> fence_step(None, line) == Some("```"@),
        !starts_with(trim_start(line), "```"@) && !starts_with(trim_start(line), "~~~"@)
            ==> fence_step(None, line) is None,
{
}

} // verus!
