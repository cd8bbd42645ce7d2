//! `grep`, `find` and `ls`.
//!
//! Walking the tree and reading files happens elsewhere. A pattern that does not
//! compile is an error, not an empty answer.
use vstd::prelude::*;
use vstd::string::*;

use crate::list::{concat, group_lists, join, views};
use crate::patterns::{match_each, regex_error, regex_match};
use crate::sorting::{ordered, sorted_texts};
use crate::text::{
    dec, decimal, joined, lines, lines_of, opt_view, same, trim_end, trimmed_end,
};
use crate::tools::{fine, wrong, Output, ToolOutput};

verus! {

broadcast use group_lists;

/// Searches the contents of files.
pub struct GrepTool;

/// Searches the names of files.
pub struct FindTool;

/// Lists a directory.
pub struct LsTool;

/// How many hits are shown.
pub const MAX_HITS: usize = 500;

/// How many files are looked at.
pub const MAX_FILES: usize = 10_000;

/// Is this a directory that is not entered?
pub fn skipped_dir(name: &str) -> (r: bool)
    ensures
        r == (name@ == ".git"@ || name@ == "target"@ || name@ == "node_modules"@ || name@
            == ".worksmith"@),
{
    same(name, ".git") || same(name, "target") || same(name, "node_modules") || same(
        name,
        ".worksmith",
    )
}

/// A hit: the file, the line's number, and the line.
pub open spec fn hit_line(file: Seq<char>, number: nat, line: Seq<char>) -> Seq<char> {
    file + ":"@ + dec(number) + ":"@ + trim_end(line) + "\n"@
}

/// What the hits say so far.
pub struct Hits {
    pub text: Seq<char>,
    pub count: nat,
}

/// The line that says the hits were cut off.
pub open spec fn cut_note(what: Seq<char>) -> Seq<char> {
    "... (truncated at "@ + dec(MAX_HITS as nat) + " "@ + what + ")\n"@
}

/// The hits once one more is added: at the cap, a note ends them.
pub open spec fn hit_added(h: Hits, line: Seq<char>, what: Seq<char>) -> Hits {
    Hits {
        text: if h.count + 1 >= MAX_HITS {
            h.text + line + cut_note(what)
        } else {
            h.text + line
        },
        count: h.count + 1,
    }
}

/// The hits once the first `n` lines of a file are looked at, given which of them
/// match. At the cap nothing is added.
pub open spec fn lines_searched(
    h: Hits,
    file: Seq<char>,
    ls: Seq<Seq<char>>,
    found: Seq<bool>,
    n: nat,
) -> Hits
    decreases n,
{
    if n == 0 {
        h
    } else {
        let before = lines_searched(h, file, ls, found, (n - 1) as nat);
        if before.count < MAX_HITS && found[n - 1] {
            hit_added(before, hit_line(file, n, ls[n - 1]), "matches"@)
        } else {
            before
        }
    }
}

/// Which of the texts a pattern matches.
pub open spec fn matched(pat: Seq<char>, texts: Seq<Seq<char>>) -> Seq<bool> {
    Seq::new(texts.len(), |i: int| regex_match(pat, texts[i]))
}

/// A search under way.
pub struct Search {
    out: String,
    hits: usize,
}

impl View for Search {
    type V = Hits;

    closed spec fn view(&self) -> Hits {
        Hits { text: self.out@, count: self.hits as nat }
    }
}

impl Search {
    /// Never more hits than the cap.
    pub closed spec fn wf(&self) -> bool {
        self.hits <= MAX_HITS
    }

    /// Nothing found yet.
    pub fn new() -> (r: Search)
        ensures
            r.wf(),
            r@ == (Hits { text: seq![], count: 0 }),
    {
        let r = Search { out: String::new(), hits: 0 };
        assert(r.out@ =~= seq![]);
        r
    }

    /// Is the cap reached?
    pub fn is_full(&self) -> (r: bool)
        requires
            self.wf(),
        ensures
            r == (self@.count >= MAX_HITS),
    {
        self.hits >= MAX_HITS
    }

    fn add_hit(&mut self, line: &str, what: &str)
        requires
            old(self).wf(),
            old(self)@.count < MAX_HITS,
        ensures
            final(self).wf(),
            final(self)@ == hit_added(old(self)@, line@, what@),
    {
        self.out.append(line);
        self.hits = self.hits + 1;
        if self.hits >= MAX_HITS {
            let mut note = "... (truncated at ".to_owned();
            let n = decimal(MAX_HITS as u128);
            note.append(n.as_str());
            note.append(" ");
            note.append(what);
            note.append(")\n");
            self.out.append(note.as_str());
        }
    }

    /// Add the lines of a file that match, given which do.
    pub fn add_lines(&mut self, file: &str, ls: &Vec<String>, found: &Vec<bool>)
        requires
            old(self).wf(),
            found@.len() == ls@.len(),
        ensures
            final(self).wf(),
            final(self)@ == lines_searched(old(self)@, file@, views(ls@), found@, ls@.len()),
    {
        let ghost all = views(ls@);
        let mut i: usize = 0;
        while i < ls.len()
            invariant
                i <= ls@.len(),
                found@.len() == ls@.len(),
                all == views(ls@),
                self.wf(),
                self@ == lines_searched(old(self)@, file@, all, found@, i as nat),
            decreases ls.len() - i,
        {
            assert(all[i as int] == ls@[i as int]@);
            if self.hits < MAX_HITS && found[i] {
                let mut line = file.to_owned();
                line.append(":");
                let n = decimal(i as u128 + 1);
                line.append(n.as_str());
                line.append(":");
                let t = trimmed_end(ls[i].as_str());
                line.append(t.as_str());
                line.append("\n");
                self.add_hit(line.as_str(), "matches");
            }
            i = i + 1;
        }
    }

    /// Search the text of a file. The error is the pattern's.
    pub fn grep(&mut self, pattern: &str, file: &str, text: &str) -> (r: Result<(), String>)
        requires
            old(self).wf(),
        ensures
            final(self).wf(),
            match regex_error(pattern@) {
                Some(e) => final(self)@ == old(self)@ && (r matches Err(t) && t@
                    == "invalid regex: "@ + e),
                None => r is Ok && final(self)@ == lines_searched(
                    old(self)@,
                    file@,
                    lines(text@),
                    matched(pattern@, lines(text@)),
                    lines(text@).len(),
                ),
            },
    {
        let ls = lines_of(text);
        match match_each(pattern, &ls) {
            Err(e) => {
                let mut s = "invalid regex: ".to_owned();
                s.append(e.as_str());
                Err(s)
            },
            Ok(found) => {
                assert(found@ =~= matched(pattern@, views(ls@))) by {
                    assert forall|i: int| 0 <= i < found@.len() implies found@[i] == regex_match(
                        pattern@,
                        views(ls@)[i],
                    ) by {
                        assert(views(ls@)[i] == ls@[i]@);
                    }
                }
                self.add_lines(file, &ls, &found);
                Ok(())
            },
        }
    }

    /// What was found, as an answer.
    pub fn report(&self) -> (r: ToolOutput)
        ensures
            r@ == hits_told(self@),
    {
        if self.out.as_str().unicode_len() == 0 {
            ToolOutput::ok("(no matches)")
        } else {
            ToolOutput { content: self.out.clone(), is_error: false, fatal: false }
        }
    }
}

/// Why nothing can be searched for: the pattern does not compile. That is said before any
/// file is looked at.
pub fn pattern_problem(pattern: &str) -> (r: Option<String>)
    ensures
        opt_view(r) == match regex_error(pattern@) {
            Some(e) => Some("invalid regex: "@ + e),
            None => None,
        },
{
    let none: Vec<String> = Vec::new();
    match match_each(pattern, &none) {
        Err(e) => {
            let mut s = "invalid regex: ".to_owned();
            s.append(e.as_str());
            Some(s)
        },
        Ok(_) => None,
    }
}

/// What was found, as an answer.
pub open spec fn hits_told(h: Hits) -> Output {
    if h.text.len() == 0 {
        fine("(no matches)"@)
    } else {
        fine(h.text)
    }
}

/// The hits among the first `n` names, given which match.
pub open spec fn names_searched(
    shown: Seq<Seq<char>>,
    found: Seq<bool>,
    n: nat,
) -> Hits
    decreases n,
{
    if n == 0 {
        Hits { text: seq![], count: 0 }
    } else {
        let before = names_searched(shown, found, (n - 1) as nat);
        if before.count < MAX_HITS && found[n - 1] {
            hit_added(before, shown[n - 1] + "\n"@, "results"@)
        } else {
            before
        }
    }
}

impl FindTool {
    /// The files whose names match, given which do; `shown` is how each is shown.
    pub fn pick(shown: &Vec<String>, found: &Vec<bool>) -> (r: ToolOutput)
        requires
            found@.len() == shown@.len(),
        ensures
            r@ == hits_told(names_searched(views(shown@), found@, shown@.len())),
    {
        let ghost all = views(shown@);
        let mut s = Search::new();
        let mut i: usize = 0;
        while i < shown.len()
            invariant
                i <= shown@.len(),
                found@.len() == shown@.len(),
                all == views(shown@),
                s.wf(),
                s@ == names_searched(all, found@, i as nat),
            decreases shown.len() - i,
        {
            assert(all[i as int] == shown@[i as int]@);
            if s.hits < MAX_HITS && found[i] {
                let mut line = shown[i].clone();
                line.append("\n");
                s.add_hit(line.as_str(), "results");
            }
            i = i + 1;
        }
        s.report()
    }

    /// The files whose names match a pattern.
    pub fn find(pattern: &str, names: &Vec<String>, shown: &Vec<String>) -> (r: ToolOutput)
        requires
            names@.len() == shown@.len(),
        ensures
            r@ == match regex_error(pattern@) {
                Some(e) => wrong("invalid regex: "@ + e),
                None => hits_told(
                    names_searched(
                        views(shown@),
                        matched(pattern@, views(names@)),
                        shown@.len(),
                    ),
                ),
            },
    {
        match match_each(pattern, names) {
            Err(e) => {
                let mut s = "invalid regex: ".to_owned();
                s.append(e.as_str());
                ToolOutput { content: s, is_error: true, fatal: false }
            },
            Ok(found) => {
                assert(found@ =~= matched(pattern@, views(names@))) by {
                    assert forall|i: int| 0 <= i < found@.len() implies found@[i] == regex_match(
                        pattern@,
                        views(names@)[i],
                    ) by {
                        assert(views(names@)[i] == names@[i]@);
                    }
                }
                FindTool::pick(shown, &found)
            },
        }
    }
}

/// The names among the first `n` that are picked.
pub open spec fn picked(shown: Seq<Seq<char>>, found: Seq<bool>, n: nat) -> Seq<Seq<char>>
    decreases n,
{
    if n == 0 {
        seq![]
    } else if found[n - 1] {
        picked(shown, found, (n - 1) as nat).push(shown[n - 1])
    } else {
        picked(shown, found, (n - 1) as nat)
    }
}

/// The files whose names match a pattern, in order: `names` are the names alone, and
/// `shown` is how each file is told. The error is the pattern's.
pub fn matching_files(pattern: &str, names: &Vec<String>, shown: &Vec<String>) -> (r: Result<
    Vec<String>,
    String,
>)
    requires
        names@.len() == shown@.len(),
    ensures
        match regex_error(pattern@) {
            Some(e) => r matches Err(t) && t@ == "invalid regex: "@ + e,
            None => r matches Ok(v) && views(v@) == picked(
                views(shown@),
                matched(pattern@, views(names@)),
                shown@.len(),
            ),
        },
{
    match match_each(pattern, names) {
        Err(e) => {
            let mut s = "invalid regex: ".to_owned();
            s.append(e.as_str());
            Err(s)
        },
        Ok(found) => {
            let ghost m = matched(pattern@, views(names@));
            assert(found@ =~= m) by {
                assert forall|i: int| 0 <= i < found@.len() implies found@[i] == regex_match(
                    pattern@,
                    views(names@)[i],
                ) by {
                    assert(views(names@)[i] == names@[i]@);
                }
            }
            let mut r: Vec<String> = Vec::new();
            let mut i: usize = 0;
            assert(views(r@) =~= seq![]);
            while i < shown.len()
                invariant
                    i <= shown@.len(),
                    found@.len() == shown@.len(),
                    found@ == m,
                    views(r@) == picked(views(shown@), m, i as nat),
                decreases shown.len() - i,
            {
                assert(views(shown@)[i as int] == shown@[i as int]@);
                if found[i] {
                    r.push(shown[i].clone());
                }
                i = i + 1;
            }
            Ok(r)
        },
    }
}

/// A directory's entry as it is listed: a directory has a slash.
pub open spec fn entry_shown(name: Seq<char>, is_dir: bool) -> Seq<char> {
    if is_dir {
        name + "/"@
    } else {
        name
    }
}

/// The entries of a directory as they are listed.
pub open spec fn entries_shown(entries: Seq<(String, bool)>) -> Seq<Seq<char>> {
    Seq::new(entries.len(), |i: int| entry_shown(entries[i].0@, entries[i].1))
}

impl LsTool {
    /// The entries of a directory, in order.
    pub fn list(entries: &Vec<(String, bool)>) -> (r: ToolOutput)
        ensures
            entries@.len() == 0 ==> r@ == fine("(empty directory)"@),
            entries@.len() > 0 ==> exists|names: Seq<Seq<char>>|
                {
                    &&& ordered(names)
                    &&& names.to_multiset() == entries_shown(entries@).to_multiset()
                    &&& r@ == fine(#[trigger] join(names, "\n"@))
                },
    {
        if entries.len() == 0 {
            return ToolOutput::ok("(empty directory)");
        }
        let ghost all = entries_shown(entries@);
        let mut names: Vec<String> = Vec::new();
        let mut i: usize = 0;
        while i < entries.len()
            invariant
                i <= entries@.len(),
                all == entries_shown(entries@),
                views(names@) == all.take(i as int),
            decreases entries.len() - i,
        {
            let mut n = entries[i].0.clone();
            if entries[i].1 {
                n.append("/");
            }
            names.push(n);
            i = i + 1;
            assert(views(names@) =~= all.take(i as int));
        }
        assert(views(names@) =~= all);
        let sorted = sorted_texts(names);
        let text = joined(&sorted, "\n");
        assert(ordered(views(sorted@)));
        ToolOutput { content: text, is_error: false, fatal: false }
    }
}

/// A search shows no more hits than the cap, however many files there are.
pub proof fn hits_stay_bounded(
    h: Hits,
    file: Seq<char>,
    ls: Seq<Seq<char>>,
    found: Seq<bool>,
    n: nat,
)
    requires
        h.count <= MAX_HITS,
    ensures
        lines_searched(h, file, ls, found, n).count <= MAX_HITS,
        h.count == MAX_HITS ==> lines_searched(h, file, ls, found, n) == h,
    decreases n,
{
    if n > 0 {
        hits_stay_bounded(h, file, ls, found, (n - 1) as nat);
    }
}

/// The places among the first `n` that match, in order.
pub open spec fn places(found: Seq<bool>, n: nat) -> Seq<int>
    decreases n,
{
    if n == 0 {
        seq![]
    } else if found[n - 1] {
        places(found, (n - 1) as nat).push(n - 1)
    } else {
        places(found, (n - 1) as nat)
    }
}

/// The smaller of two numbers.
pub open spec fn at_most_so_many(n: nat, max: int) -> nat {
    if n <= max {
        n
    } else {
        max as nat
    }
}

/// The rows of the first `k` hits in a file.
pub open spec fn hit_rows(
    file: Seq<char>,
    ls: Seq<Seq<char>>,
    at: Seq<int>,
    k: nat,
) -> Seq<Seq<char>> {
    Seq::new(
        k,
        |i: int| file + ":"@ + dec((at[i] + 1) as nat) + ":"@ + trim_end(ls[at[i]]) + "\n"@,
    )
}

/// Every line that matches is shown once, in order, with its file and its own number
/// counted from one, until the cap is reached; then a note says so, and nothing follows.
pub proof fn every_match_is_shown_up_to_the_cap(
    h: Hits,
    file: Seq<char>,
    ls: Seq<Seq<char>>,
    found: Seq<bool>,
    n: nat,
)
    requires
        h.count <= MAX_HITS,
        n <= ls.len(),
        found.len() == ls.len(),
    ensures
        ({
            let at = places(found, n);
            let k = at_most_so_many(at.len(), MAX_HITS - h.count);
            let m = lines_searched(h, file, ls, found, n);
            &&& m.count == h.count + k
            &&& m.text == h.text + concat(hit_rows(file, ls, at, k)) + if k > 0 && m.count
                == MAX_HITS {
                cut_note("matches"@)
            } else {
                seq![]
            }
        }),
    decreases n,
{
    let at = places(found, n);
    let k = at_most_so_many(at.len(), MAX_HITS - h.count);
    let m = lines_searched(h, file, ls, found, n);
    if n == 0 {
        assert(hit_rows(file, ls, at, k) =~= seq![]);
        assert(m.text =~= h.text + concat(seq![]) + seq![]);
    } else {
        let fewer = (n - 1) as nat;
        every_match_is_shown_up_to_the_cap(h, file, ls, found, fewer);
        let before = lines_searched(h, file, ls, found, fewer);
        let old = places(found, fewer);
        let j = at_most_so_many(old.len(), MAX_HITS - h.count);
        if found[n - 1] && before.count < MAX_HITS {
            let row = hit_line(file, n, ls[n - 1]);
            assert(j == old.len() && k == j + 1);
            assert(hit_rows(file, ls, at, k) =~= hit_rows(file, ls, old, j).push(row));
            assert(concat(hit_rows(file, ls, old, j).push(row)) == concat(
                hit_rows(file, ls, old, j),
            ) + row);
            assert(before.text =~= h.text + concat(hit_rows(file, ls, old, j)));
            if m.count == MAX_HITS {
                assert(m.text =~= h.text + concat(hit_rows(file, ls, at, k)) + cut_note(
                    "matches"@,
                ));
            } else {
                assert(m.text =~= h.text + concat(hit_rows(file, ls, at, k)) + seq![]);
            }
        } else {
            assert(k == j);
            assert(hit_rows(file, ls, at, k) =~= hit_rows(file, ls, old, j));
        }
    }
}

/// The rows of the first `k` names.
pub open spec fn name_rows(shown: Seq<Seq<char>>, at: Seq<int>, k: nat) -> Seq<Seq<char>> {
    Seq::new(k, |i: int| shown[at[i]] + "\n"@)
}

/// Every name that matches is listed once, in order, until the cap is reached; then a note
/// says so, and nothing follows.
pub proof fn every_name_is_listed_up_to_the_cap(shown: Seq<Seq<char>>, found: Seq<bool>, n: nat)
    requires
        n <= shown.len(),
        found.len() == shown.len(),
    ensures
        ({
            let at = places(found, n);
            let k = at_most_so_many(at.len(), MAX_HITS as int);
            let m = names_searched(shown, found, n);
            &&& m.count == k
            &&& m.text == concat(name_rows(shown, at, k)) + if k == MAX_HITS {
                cut_note("results"@)
            } else {
                seq![]
            }
        }),
        picked(shown, found, n) == Seq::new(
            places(found, n).len(),
            |i: int| shown[places(found, n)[i]],
        ),
    decreases n,
{
    let at = places(found, n);
    let k = at_most_so_many(at.len(), MAX_HITS as int);
    let m = names_searched(shown, found, n);
    if n == 0 {
        assert(name_rows(shown, at, k) =~= seq![]);
        assert(m.text =~= concat(seq![]) + seq![]);
        assert(picked(shown, found, n) =~= Seq::new(at.len(), |i: int| shown[at[i]]));
    } else {
        let fewer = (n - 1) as nat;
        every_name_is_listed_up_to_the_cap(shown, found, fewer);
        let before = names_searched(shown, found, fewer);
        let old = places(found, fewer);
        let j = at_most_so_many(old.len(), MAX_HITS as int);
        assert(picked(shown, found, n) =~= Seq::new(at.len(), |i: int| shown[at[i]]));
        if found[n - 1] && before.count < MAX_HITS {
            let row = shown[n - 1] + "\n"@;
            assert(j == old.len() && k == j + 1);
            assert(name_rows(shown, at, k) =~= name_rows(shown, old, j).push(row));
            assert(concat(name_rows(shown, old, j).push(row)) == concat(name_rows(shown, old, j))
                + row);
            assert(before.text =~= concat(name_rows(shown, old, j)));
            if m.count == MAX_HITS {
                assert(m.text =~= concat(name_rows(shown, at, k)) + cut_note("results"@));
            } else {
                assert(m.text =~= concat(name_rows(shown, at, k)) + seq![]);
            }
        } else {
            assert(k == j);
            assert(name_rows(shown, at, k) =~= name_rows(shown, old, j));
        }
    }
}

/// The places that match are just those, in order.
pub proof fn the_places_are_those_that_match(found: Seq<bool>, n: nat)
    requires
        n <= found.len(),
    ensures
        forall|i: int|
            0 <= i < places(found, n).len() ==> 0 <= (#[trigger] places(found, n)[i]) < n
                && found[places(found, n)[i]],
        forall|i: int, j: int|
            0 <= i < j < places(found, n).len() ==> (#[trigger] places(found, n)[i]) < (
            #[trigger] places(found, n)[j]),
        forall|p: int| 0 <= p < n && found[p] ==> places(found, n).contains(p),
    decreases n,
{
    if n > 0 {
        let fewer = (n - 1) as nat;
        the_places_are_those_that_match(found, fewer);
        let old = places(found, fewer);
        let all = places(found, n);
        assert forall|p: int| 0 <= p < n && found[p] implies all.contains(p) by {
            if p == n - 1 {
                assert(all[all.len() - 1] == p);
            } else {
                assert(old.contains(p));
                let i = choose|i: int| 0 <= i < old.len() && old[i] == p;
                assert(all[i] == p);
            }
        }
    }
}

/// Which texts a pattern matches is asked of each text by itself.
pub proof fn each_text_is_matched_by_itself(pat: Seq<char>, texts: Seq<Seq<char>>, i: int)
    requires
        0 <= i < texts.len(),
    ensures
        matched(pat, texts).len() == texts.len(),
        matched(pat, texts)[i] == regex_match(pat, texts[i]),
{
}

/// A directory is told from a file by the slash behind its name.
pub proof fn a_directory_has_a_slash(name: Seq<char>)
    ensures
        entry_shown(name, true) == name + seq!['/'],
        entry_shown(name, false) == name,
{
    reveal_strlit("/");
    assert("/"@ =~= seq!['/']);
}

} // verus!
