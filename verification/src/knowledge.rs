//! Project knowledge: the project's own text, cut into chunks and indexed for search.
//!
//! Knowledge is not memory: it is bulk source material that can always be rebuilt from
//! the files.
use vstd::prelude::*;
use vstd::string::*;

use crate::list::{concat, group_lists, join, views};
use crate::memory::{any_of, any_of_terms, any_text_is_a_safe_query, quote_count};
use crate::text::{
    chars_of, is_space, lines, lines_of, pieces_between, same, space, split_from, string_of, trim,
    trim_end, trim_marks, trim_start, trimmed, trimmed_end, trimmed_marks, words, words_of,
};

verus! {

broadcast use group_lists;

/// Roughly a paragraph or two: small enough that a hit is readable in a tool result,
/// large enough to carry context.
pub const CHUNK_CHARS: usize = 1_200;

/// No file bigger than this is indexed.
pub const MAX_FILE_BYTES: u64 = 524_288;

/// How long an index is trusted before a search re-checks the tree, in seconds.
pub const FRESH_SECS: i64 = 60;

/// One search hit: the chunk, and where it came from.
#[derive(Debug, Clone)]
pub struct Chunk {
    pub source: String,
    pub ord: i64,
    pub text: String,
}

/// What an indexing pass did.
#[derive(Debug, Clone, Copy, PartialEq, Eq, Structural, Default)]
pub struct IndexStats {
    pub files: usize,
    pub chunks: usize,
    pub skipped_unchanged: usize,
}

/// Is a file with this extension worth indexing?
pub open spec fn indexable(ext: Seq<char>) -> bool {
    ext == "md"@ || ext == "markdown"@ || ext == "txt"@ || ext == "rst"@ || ext == "rs"@ || ext
        == "toml"@ || ext == "yaml"@ || ext == "yml"@ || ext == "json"@ || ext == "py"@ || ext
        == "js"@ || ext == "ts"@ || ext == "tsx"@ || ext == "jsx"@ || ext == "go"@ || ext == "sh"@
        || ext == "sql"@ || ext == "html"@ || ext == "css"@
}

/// Is a file with this extension worth indexing? Chunking a lockfile just poisons the
/// search results.
pub fn is_indexable(ext: &str) -> (r: bool)
    ensures
        r == indexable(ext@),
{
    same(ext, "md") || same(ext, "markdown") || same(ext, "txt") || same(ext, "rst") || same(
        ext,
        "rs",
    ) || same(ext, "toml") || same(ext, "yaml") || same(ext, "yml") || same(ext, "json") || same(
        ext,
        "py",
    ) || same(ext, "js") || same(ext, "ts") || same(ext, "tsx") || same(ext, "jsx") || same(
        ext,
        "go",
    ) || same(ext, "sh") || same(ext, "sql") || same(ext, "html") || same(ext, "css")
}

/// What an indexing pass does with a file.
#[derive(Debug, Clone, Copy, PartialEq, Eq, Structural)]
pub enum IndexStep {
    /// It is not worth indexing.
    Skip,
    /// It has not changed since it was indexed.
    Unchanged,
    /// It is read and indexed anew.
    Read,
}

/// What an indexing pass does with a file, given its size, when it changed and when the
/// indexed text had changed.
pub fn index_step(ext: &str, bytes: u64, mtime: i64, indexed: Option<i64>) -> (r: IndexStep)
    ensures
        r == if !indexable(ext@) || bytes > MAX_FILE_BYTES {
            IndexStep::Skip
        } else if indexed == Some(mtime) {
            IndexStep::Unchanged
        } else {
            IndexStep::Read
        },
{
    if !is_indexable(ext) || bytes > MAX_FILE_BYTES {
        return IndexStep::Skip;
    }
    match indexed {
        Some(t) => if t == mtime {
            IndexStep::Unchanged
        } else {
            IndexStep::Read
        },
        None => IndexStep::Read,
    }
}

/// Must the index be brought up to date before a search? It must where it is empty, was
/// never made, or is older than `max_age_secs`.
pub fn is_stale(last: Option<i64>, now: i64, max_age_secs: i64, chunks: i64) -> (r: bool)
    ensures
        r == (chunks <= 0 || match last {
            Some(t) => now - t > max_age_secs,
            None => true,
        }),
{
    let old = match last {
        Some(t) => (now as i128) - (t as i128) > (max_age_secs as i128),
        None => true,
    };
    old || chunks <= 0
}

// ---- cutting ----------------------------------------------------------------

/// Text that is being packed: what is finished, and what is still growing.
pub struct Packing {
    pub out: Seq<Seq<char>>,
    pub cur: Seq<char>,
}

/// Nothing packed yet.
pub open spec fn unpacked() -> Packing {
    Packing { out: seq![], cur: seq![] }
}

/// The growing text is finished, if there is any.
pub open spec fn flushed(p: Packing) -> Packing {
    if p.cur.len() > 0 {
        Packing { out: p.out.push(p.cur), cur: seq![] }
    } else {
        p
    }
}

/// What is packed at the end; a blank rest is dropped.
pub open spec fn finished(p: Packing) -> Seq<Seq<char>> {
    if trim(p.cur).len() > 0 {
        p.out.push(p.cur)
    } else {
        p.out
    }
}

/// A line, cut into pieces of at most `max` characters.
pub open spec fn cut(line: Seq<char>, max: nat) -> Seq<Seq<char>>
    decreases line.len(),
{
    if max == 0 || line.len() <= max {
        seq![line]
    } else {
        seq![line.take(max as int)] + cut(line.skip(max as int), max)
    }
}

/// The first `n` lines, each cut into pieces of at most `max` characters.
pub open spec fn all_cut(ls: Seq<Seq<char>>, n: nat, max: nat) -> Seq<Seq<char>>
    decreases n,
{
    if n == 0 {
        seq![]
    } else {
        all_cut(ls, (n - 1) as nat, max) + cut(ls[n - 1], max)
    }
}

/// One line is added, on a new piece where it would not fit. What has nothing to read in
/// it is no piece.
pub open spec fn line_added(p: Packing, line: Seq<char>, max: nat) -> Packing {
    let q = if p.cur.len() > 0 && p.cur.len() + line.len() > max {
        Packing { out: finished(p), cur: seq![] }
    } else {
        p
    };
    Packing { cur: q.cur + line + "\n"@, ..q }
}

/// The first `n` lines are added.
pub open spec fn lines_added(ls: Seq<Seq<char>>, n: nat, max: nat) -> Packing
    decreases n,
{
    if n == 0 {
        unpacked()
    } else {
        line_added(lines_added(ls, (n - 1) as nat, max), ls[n - 1], max)
    }
}

/// A long paragraph, broken on line boundaries; a line that is too long by itself is cut.
pub open spec fn broken(s: Seq<char>, max: nat) -> Seq<Seq<char>> {
    let ls = all_cut(lines(s), lines(s).len(), max);
    finished(lines_added(ls, ls.len(), max))
}

fn flush(out: &mut Vec<String>, cur: &mut String)
    ensures
        (Packing { out: views(final(out)@), cur: final(cur)@ }) == flushed(
            Packing { out: views(old(out)@), cur: old(cur)@ },
        ),
{
    if cur.as_str().unicode_len() > 0 {
        out.push(cur.clone());
        *cur = String::new();
        assert(cur@ =~= seq![]);
    }
}

fn finish(out: Vec<String>, cur: String) -> (r: Vec<String>)
    ensures
        views(r@) == finished(Packing { out: views(out@), cur: cur@ }),
{
    let mut r = out;
    if trimmed(cur.as_str()).as_str().unicode_len() > 0 {
        r.push(cur);
    }
    r
}

fn cut_line(line: &str, max: usize, out: &mut Vec<String>)
    ensures
        views(final(out)@) == views(old(out)@) + cut(line@, max as nat),
{
    let v = chars_of(line);
    let n = v.len();
    let ghost before = views(out@);
    let mut at: usize = 0;
    assert(line@.skip(0) =~= line@);
    assert(views(out@) + cut(line@.skip(0), max as nat) =~= before + cut(line@, max as nat));
    while max > 0 && n - at > max
        invariant
            at <= n == v@.len(),
            v@ == line@,
            views(out@) + cut(line@.skip(at as int), max as nat) == before + cut(line@, max as nat),
        decreases n - at,
    {
        let ghost held = views(out@);
        let ghost rest = line@.skip(at as int);
        let piece = string_of(&v, at, at + max);
        assert(piece@ =~= rest.take(max as int));
        assert(rest.skip(max as int) =~= line@.skip(at + max));
        out.push(piece);
        assert(views(out@) + cut(line@.skip(at + max), max as nat) =~= held + cut(
            rest,
            max as nat,
        ));
        at = at + max;
    }
    let last = string_of(&v, at, n);
    assert(last@ =~= line@.skip(at as int));
    let ghost held = views(out@);
    out.push(last);
    assert(views(out@) =~= held + cut(line@.skip(at as int), max as nat));
}

fn cut_lines(s: &str, max: usize) -> (r: Vec<String>)
    ensures
        views(r@) == all_cut(lines(s@), lines(s@).len(), max as nat),
{
    let ls = lines_of(s);
    let ghost all = views(ls@);
    let mut r: Vec<String> = Vec::new();
    let mut i: usize = 0;
    assert(views(r@) =~= seq![]);
    while i < ls.len()
        invariant
            i <= ls@.len(),
            all == views(ls@),
            views(r@) == all_cut(all, i as nat, max as nat),
        decreases ls.len() - i,
    {
        cut_line(ls[i].as_str(), max, &mut r);
        i = i + 1;
    }
    r
}

/// A long paragraph, broken on line boundaries; a line that is too long by itself is cut.
pub fn hard_split(s: &str, max: usize) -> (r: Vec<String>)
    ensures
        views(r@) == broken(s@, max as nat),
{
    let ls = cut_lines(s, max);
    let ghost all = views(ls@);
    let mut out: Vec<String> = Vec::new();
    let mut cur = String::new();
    let mut i: usize = 0;
    assert(views(out@) =~= seq![]);
    assert(cur@ =~= seq![]);
    while i < ls.len()
        invariant
            i <= ls@.len(),
            all == views(ls@),
            (Packing { out: views(out@), cur: cur@ }) == lines_added(all, i as nat, max as nat),
        decreases ls.len() - i,
    {
        let line = ls[i].as_str();
        let have: usize = cur.as_str().unicode_len();
        let more: usize = line.unicode_len();
        if have > 0 && (have > max || more > max - have) {
            out = finish(out, cur);
            cur = String::new();
            assert(cur@ =~= seq![]);
        }
        cur.append(line);
        cur.append("\n");
        i = i + 1;
    }
    finish(out, cur)
}

/// One paragraph is added, in a new chunk where it would not fit. A paragraph that is
/// far too long is broken up.
pub open spec fn para_added(p: Packing, raw: Seq<char>) -> Packing {
    let para = trim_end(raw);
    if trim(para).len() == 0 {
        p
    } else {
        let q = if p.cur.len() > 0 && p.cur.len() + para.len() > CHUNK_CHARS {
            flushed(p)
        } else {
            p
        };
        let w = if q.cur.len() > 0 {
            Packing { cur: q.cur + "\n\n"@, ..q }
        } else {
            q
        };
        if para.len() > CHUNK_CHARS * 2 {
            let pieces = broken(para, CHUNK_CHARS as nat);
            if pieces.len() == 0 {
                w
            } else {
                let f = flushed(w);
                Packing { out: f.out + pieces, ..f }
            }
        } else {
            Packing { cur: w.cur + para, ..w }
        }
    }
}

/// The first `n` paragraphs are added.
pub open spec fn paras_added(ps: Seq<Seq<char>>, n: nat) -> Packing
    decreases n,
{
    if n == 0 {
        unpacked()
    } else {
        para_added(paras_added(ps, (n - 1) as nat), ps[n - 1])
    }
}

/// The paragraphs of a text.
pub open spec fn paragraphs(text: Seq<char>) -> Seq<Seq<char>> {
    split_from(text, "\n\n"@, 0)
}

/// The chunks of a text.
pub open spec fn chunked(text: Seq<char>) -> Seq<Seq<char>> {
    finished(paras_added(paragraphs(text), paragraphs(text).len()))
}

/// The chunks of a text: paragraphs, packed up to the chunk size. Cutting on the
/// boundaries of prose keeps a hit readable. Whatever the text, no chunk is longer than
/// twice the chunk size, and none is blank.
pub fn chunk_text(text: &str) -> (r: Vec<String>)
    ensures
        views(r@) == chunked(text@),
        forall|i: int|
            0 <= i < r@.len() ==> (#[trigger] r@[i])@.len() <= 2 * CHUNK_CHARS && trim(
                r@[i]@,
            ).len() > 0,
{
    proof {
        reveal_strlit("\n\n");
        every_chunk_is_bounded_and_can_be_read(text@);
    }
    let ps = pieces_between(text, "\n\n");
    let ghost all = views(ps@);
    let mut out: Vec<String> = Vec::new();
    let mut cur = String::new();
    let mut i: usize = 0;
    assert(views(out@) =~= seq![]);
    assert(cur@ =~= seq![]);
    while i < ps.len()
        invariant
            i <= ps@.len(),
            all == views(ps@),
            (Packing { out: views(out@), cur: cur@ }) == paras_added(all, i as nat),
        decreases ps.len() - i,
    {
        let para = trimmed_end(ps[i].as_str());
        if trimmed(para.as_str()).as_str().unicode_len() > 0 {
            let have: usize = cur.as_str().unicode_len();
            let more: usize = para.as_str().unicode_len();
            if have > 0 && (have > CHUNK_CHARS || more > CHUNK_CHARS - have) {
                flush(&mut out, &mut cur);
            }
            if cur.as_str().unicode_len() > 0 {
                cur.append("\n\n");
            }
            if more > CHUNK_CHARS * 2 {
                let mut pieces = hard_split(para.as_str(), CHUNK_CHARS);
                if pieces.len() > 0 {
                    flush(&mut out, &mut cur);
                    let ghost before = views(out@);
                    let ghost new = views(pieces@);
                    out.append(&mut pieces);
                    assert(views(out@) =~= before + new);
                }
            } else {
                cur.append(para.as_str());
            }
        }
        i = i + 1;
    }
    let r = finish(out, cur);
    assert forall|i: int| 0 <= i < r@.len() implies (#[trigger] r@[i])@.len() <= 2 * CHUNK_CHARS
        && trim(r@[i]@).len() > 0 by {
        assert(views(r@)[i] == r@[i]@);
        assert(chunked(text@)[i] == r@[i]@);
    }
    r
}

// ---- searching --------------------------------------------------------------

/// Of these words, what is searched for.
pub open spec fn searched(ws: Seq<Seq<char>>) -> Seq<Seq<char>>
    decreases ws.len(),
{
    if ws.len() == 0 {
        seq![]
    } else if trim_marks(ws.last()).len() == 0 {
        searched(ws.drop_last())
    } else {
        searched(ws.drop_last()).push(trim_marks(ws.last()))
    }
}

/// The full-text query for any text: each term is quoted, and a quote inside a term is
/// doubled, so that it does not end the term.
pub fn fts_query(query: &str) -> (r: String)
    ensures
        r@ == any_of(searched(words(query@))),
        quote_count(r@) % 2 == 0,
{
    let ws = words_of(query);
    let ghost all = views(ws@);
    let mut out: Vec<String> = Vec::new();
    let mut i: usize = 0;
    assert(views(out@) =~= searched(all.take(0)));
    while i < ws.len()
        invariant
            i <= ws@.len(),
            all == views(ws@),
            views(out@) == searched(all.take(i as int)),
        decreases ws.len() - i,
    {
        let ghost next = all.take(i + 1);
        assert(next.drop_last() =~= all.take(i as int));
        assert(next.last() == ws@[i as int]@);
        let w = trimmed_marks(ws[i].as_str());
        if w.as_str().unicode_len() > 0 {
            out.push(w);
        }
        i = i + 1;
    }
    assert(all.take(i as int) =~= all);
    proof {
        any_text_is_a_safe_query(views(out@));
    }
    any_of_terms(&out)
}

// ---- laws -------------------------------------------------------------------

/// A text with something to read in it.
pub open spec fn legible(s: Seq<char>) -> bool {
    exists|i: int| 0 <= i < s.len() && !is_space(#[trigger] s[i])
}

proof fn lemma_trim_start(s: Seq<char>)
    ensures
        trim_start(s).len() <= s.len(),
        trim_start(s) == s.skip(s.len() - trim_start(s).len()),
        trim_start(s).len() > 0 ==> !is_space(trim_start(s)[0]),
    decreases s.len(),
{
    if s.len() > 0 && space()(s[0]) {
        lemma_trim_start(s.drop_first());
        let t = trim_start(s);
        assert(s.drop_first().skip(s.len() - 1 - t.len()) =~= s.skip(s.len() - t.len()));
    } else {
        assert(s.skip(0) =~= s);
    }
}

proof fn lemma_legible(s: Seq<char>)
    requires
        trim(s).len() > 0,
    ensures
        legible(s),
{
    lemma_trim_start(s);
    let t = trim_start(s);
    if t.len() == 0 {
        assert(trim_end(t).len() == 0);
    }
    assert(t[0] == s[s.len() - t.len()]);
}

proof fn lemma_not_blank(s: Seq<char>, k: int)
    requires
        0 <= k < s.len(),
        !is_space(s[k]),
    ensures
        trim_start(s).len() >= s.len() - k,
        trim(s).len() > 0,
    decreases s.len(),
{
    if space()(s[0]) {
        lemma_not_blank(s.drop_first(), k - 1);
    } else {
        lemma_ends_in_text(s);
    }
}

proof fn lemma_ends_in_text(s: Seq<char>)
    requires
        s.len() > 0,
        !is_space(s[0]),
    ensures
        trim_end(s).len() > 0,
    decreases s.len(),
{
    if space()(s.last()) {
        lemma_ends_in_text(s.drop_last());
    }
}

proof fn lemma_cut(line: Seq<char>, max: nat)
    requires
        max > 0,
    ensures
        forall|i: int| 0 <= i < cut(line, max).len() ==> (#[trigger] cut(line, max)[i]).len() <= max,
    decreases line.len(),
{
    if line.len() > max {
        let rest = cut(line.skip(max as int), max);
        lemma_cut(line.skip(max as int), max);
        assert forall|i: int| 0 <= i < cut(line, max).len() implies (#[trigger] cut(
            line,
            max,
        )[i]).len() <= max by {
            if i > 0 {
                assert(cut(line, max)[i] == rest[i - 1]);
            }
        }
    }
}

proof fn lemma_all_cut(ls: Seq<Seq<char>>, n: nat, max: nat)
    requires
        max > 0,
        n <= ls.len(),
    ensures
        forall|i: int|
            0 <= i < all_cut(ls, n, max).len() ==> (#[trigger] all_cut(ls, n, max)[i]).len() <= max,
    decreases n,
{
    if n > 0 {
        let a = all_cut(ls, (n - 1) as nat, max);
        let b = cut(ls[n - 1], max);
        lemma_all_cut(ls, (n - 1) as nat, max);
        lemma_cut(ls[n - 1], max);
        assert forall|i: int| 0 <= i < all_cut(ls, n, max).len() implies (#[trigger] all_cut(
            ls,
            n,
            max,
        )[i]).len() <= max by {
            if i < a.len() {
                assert(all_cut(ls, n, max)[i] == a[i]);
            } else {
                assert(all_cut(ls, n, max)[i] == b[i - a.len()]);
            }
        }
    }
}

/// Can each of these be read, and is none longer than `max`?
pub open spec fn readable(s: Seq<Seq<char>>, max: nat) -> bool {
    forall|i: int| 0 <= i < s.len() ==> (#[trigger] s[i]).len() <= max && trim(s[i]).len() > 0
}

proof fn lemma_lines_added(ls: Seq<Seq<char>>, n: nat, max: nat)
    requires
        n <= ls.len(),
        forall|i: int| 0 <= i < ls.len() ==> (#[trigger] ls[i]).len() <= max,
    ensures
        lines_added(ls, n, max).cur.len() <= max + 1,
        readable(lines_added(ls, n, max).out, max + 1),
    decreases n,
{
    reveal_strlit("\n");
    if n > 0 {
        lemma_lines_added(ls, (n - 1) as nat, max);
        let before = lines_added(ls, (n - 1) as nat, max);
        let after = lines_added(ls, n, max);
        assert(ls[n - 1].len() <= max);
        assert forall|i: int| 0 <= i < after.out.len() implies (#[trigger] after.out[i]).len() <= max
            + 1 && trim(after.out[i]).len() > 0 by {
            if i < before.out.len() {
                assert(after.out[i] == before.out[i]);
            }
        }
    }
}

proof fn lemma_broken(s: Seq<char>, max: nat)
    requires
        max > 0,
    ensures
        readable(broken(s, max), max + 1),
{
    let ls = all_cut(lines(s), lines(s).len(), max);
    lemma_all_cut(lines(s), lines(s).len(), max);
    lemma_lines_added(ls, ls.len(), max);
}

proof fn lemma_paras(ps: Seq<Seq<char>>, n: nat)
    requires
        n <= ps.len(),
    ensures
        ({
            let p = paras_added(ps, n);
            &&& p.cur.len() <= 2 * CHUNK_CHARS
            &&& p.cur.len() > 0 ==> trim(p.cur).len() > 0
            &&& readable(p.out, (2 * CHUNK_CHARS) as nat)
        }),
    decreases n,
{
    reveal_strlit("\n\n");
    if n > 0 {
        lemma_paras(ps, (n - 1) as nat);
        let p = paras_added(ps, (n - 1) as nat);
        let d = paras_added(ps, n);
        let raw = ps[n - 1];
        let para = trim_end(raw);
        if trim(para).len() > 0 {
            if para.len() > CHUNK_CHARS * 2 {
                let pieces = broken(para, CHUNK_CHARS as nat);
                lemma_broken(para, CHUNK_CHARS as nat);
                let f = flushed(p);
                assert(d.out =~= f.out + pieces);
                assert forall|i: int| 0 <= i < d.out.len() implies (#[trigger] d.out[i]).len() <= 2
                    * CHUNK_CHARS && trim(d.out[i]).len() > 0 by {
                    if i >= f.out.len() {
                        assert(d.out[i] == pieces[i - f.out.len()]);
                    } else if i < p.out.len() {
                        assert(d.out[i] == p.out[i]);
                    }
                }
            } else {
                lemma_legible(para);
                let k = choose|k: int| 0 <= k < para.len() && !is_space(#[trigger] para[k]);
                let at = d.cur.len() - para.len();
                assert(d.cur[at + k] == para[k]);
                lemma_not_blank(d.cur, at + k);
                assert forall|i: int| 0 <= i < d.out.len() implies (#[trigger] d.out[i]).len() <= 2
                    * CHUNK_CHARS && trim(d.out[i]).len() > 0 by {
                    if i < p.out.len() {
                        assert(d.out[i] == p.out[i]);
                    }
                }
            }
        }
    }
}

/// Whatever the text, each of its chunks has something to read in it, and is no longer
/// than twice the chunk size: an oversized paragraph is broken up, and so is an oversized
/// line.
pub proof fn every_chunk_is_bounded_and_can_be_read(text: Seq<char>)
    ensures
        forall|i: int|
            0 <= i < chunked(text).len() ==> (#[trigger] chunked(text)[i]).len() <= 2 * CHUNK_CHARS
                && trim(chunked(text)[i]).len() > 0,
{
    let ps = paragraphs(text);
    lemma_paras(ps, ps.len());
    let p = paras_added(ps, ps.len());
    assert forall|i: int| 0 <= i < chunked(text).len() implies (#[trigger] chunked(text)[i]).len()
        <= 2 * CHUNK_CHARS && trim(chunked(text)[i]).len() > 0 by {
        if i < p.out.len() {
            assert(chunked(text)[i] == p.out[i]);
        }
    }
}

// ---- nothing is lost --------------------------------------------------------

/// The characters of a text that are not white space, in order.
pub open spec fn ink(s: Seq<char>) -> Seq<char>
    decreases s.len(),
{
    if s.len() == 0 {
        seq![]
    } else if is_space(s.last()) {
        ink(s.drop_last())
    } else {
        ink(s.drop_last()).push(s.last())
    }
}

/// The same of a list of texts.
pub open spec fn ink_of(ps: Seq<Seq<char>>) -> Seq<char> {
    ink(concat(ps))
}

pub proof fn lemma_ink_cat(a: Seq<char>, b: Seq<char>)
    ensures
        ink(a + b) == ink(a) + ink(b),
    decreases b.len(),
{
    if b.len() == 0 {
        assert(a + b =~= a);
        assert(ink(a) + ink(b) =~= ink(a));
    } else {
        lemma_ink_cat(a, b.drop_last());
        assert((a + b).drop_last() =~= a + b.drop_last());
        assert((a + b).last() == b.last());
        assert(ink(a + b) =~= ink(a) + ink(b));
    }
}

pub proof fn lemma_ink_blank(s: Seq<char>)
    requires
        forall|i: int| 0 <= i < s.len() ==> is_space(#[trigger] s[i]),
    ensures
        ink(s) == Seq::<char>::empty(),
    decreases s.len(),
{
    if s.len() > 0 {
        assert(is_space(s[s.len() - 1]));
        lemma_ink_blank(s.drop_last());
    }
    assert(ink(s) =~= Seq::<char>::empty());
}

pub proof fn lemma_ink_trim(s: Seq<char>)
    ensures
        ink(trim(s)) == ink(s),
        ink(trim_end(s)) == ink(s),
        trim(s).len() == 0 ==> ink(s) == Seq::<char>::empty(),
{
    crate::wording::trimming_takes_white_space_alone(s);
    let t = trim(s);
    let (a, b) = choose|a: Seq<char>, b: Seq<char>|
        s == #[trigger] (a + t + b) && crate::wording::all_of(a, space()) && crate::wording::all_of(
            b,
            space(),
        );
    assert forall|i: int| 0 <= i < a.len() implies is_space(#[trigger] a[i]) by {
        assert(space()(a[i]));
    }
    assert forall|i: int| 0 <= i < b.len() implies is_space(#[trigger] b[i]) by {
        assert(space()(b[i]));
    }
    lemma_ink_blank(a);
    lemma_ink_blank(b);
    lemma_ink_cat(a, t);
    lemma_ink_cat(a + t, b);
    assert(ink(s) =~= ink(t));
    if t.len() == 0 {
        assert(ink(t) =~= Seq::<char>::empty());
    }
    crate::wording::skipping_takes_the_end(s, space());
    let u = trim_end(s);
    let c = s.skip(u.len() as int);
    assert(s =~= u + c);
    assert forall|i: int| 0 <= i < c.len() implies is_space(#[trigger] c[i]) by {
        assert(space()(c[i]));
    }
    lemma_ink_blank(c);
    lemma_ink_cat(u, c);
    assert(ink(s) =~= ink(u));
}

pub proof fn lemma_ink_join(ps: Seq<Seq<char>>, sep: Seq<char>)
    requires
        ink(sep) == Seq::<char>::empty(),
    ensures
        ink(join(ps, sep)) == ink_of(ps),
    decreases ps.len(),
{
    if ps.len() == 0 {
    } else if ps.len() == 1 {
        assert(concat(ps.drop_last()) =~= Seq::<char>::empty());
        assert(concat(ps) =~= ps[0]);
    } else {
        lemma_ink_join(ps.drop_last(), sep);
        lemma_ink_cat(join(ps.drop_last(), sep), sep);
        lemma_ink_cat(join(ps.drop_last(), sep) + sep, ps.last());
        lemma_ink_cat(concat(ps.drop_last()), ps.last());
        assert(ink(join(ps, sep)) =~= ink_of(ps));
    }
}

proof fn lemma_concat_cat(a: Seq<Seq<char>>, b: Seq<Seq<char>>)
    ensures
        concat(a + b) == concat(a) + concat(b),
    decreases b.len(),
{
    if b.len() == 0 {
        assert(a + b =~= a);
        assert(concat(a) + concat(b) =~= concat(a));
    } else {
        lemma_concat_cat(a, b.drop_last());
        assert((a + b).drop_last() =~= a + b.drop_last());
        assert(concat(a + b) =~= concat(a) + concat(b));
    }
}

pub proof fn lemma_ink_lines(s: Seq<char>)
    ensures
        ink_of(lines(s)) == ink(s),
    decreases s.len(),
{
    let p = crate::text::is_char('\n');
    crate::text::lemma_index_where(s, p);
    let i = crate::text::index_where(s, p) as int;
    if s.len() == 0 {
    } else if i < s.len() {
        let head = s.take(i);
        let rest = s.skip(i + 1);
        let first = crate::text::strip_cr(head);
        lemma_ink_lines(rest);
        assert(lines(s) == seq![first] + lines(rest));
        crate::wording::lemma_concat_first(first, lines(rest));
        lemma_ink_cat(first, concat(lines(rest)));
        assert(s[i] == '\n');
        assert(ink(seq!['\n']) =~= Seq::<char>::empty()) by {
            lemma_ink_blank(seq!['\n']);
        }
        assert(s =~= head + seq!['\n'] + rest);
        lemma_ink_cat(head, seq!['\n']);
        lemma_ink_cat(head + seq!['\n'], rest);
        let tail = head.skip(first.len() as int);
        assert(head =~= first + tail);
        assert(ink(tail) =~= Seq::<char>::empty()) by {
            assert forall|k: int| 0 <= k < tail.len() implies is_space(#[trigger] tail[k]) by {
                assert(tail[k] == '\r');
            }
            lemma_ink_blank(tail);
        }
        lemma_ink_cat(first, tail);
        assert(ink(head) =~= ink(first));
        assert(ink_of(lines(s)) =~= ink(s));
    } else {
        assert(lines(s).drop_last() =~= seq![]);
        assert(concat(lines(s).drop_last()) =~= Seq::<char>::empty());
        assert(concat(lines(s)) =~= s);
    }
}

proof fn lemma_ink_cut(line: Seq<char>, max: nat)
    ensures
        concat(cut(line, max)) == line,
    decreases line.len(),
{
    if max == 0 || line.len() <= max {
        let c = seq![line];
        assert(c.drop_last() =~= seq![]);
        assert(concat(c.drop_last()) =~= Seq::<char>::empty());
        assert(concat(c) =~= line);
    } else {
        let rest = line.skip(max as int);
        lemma_ink_cut(rest, max);
        crate::wording::lemma_concat_first(line.take(max as int), cut(rest, max));
        assert(line.take(max as int) + rest =~= line);
    }
}

proof fn lemma_ink_all_cut(ls: Seq<Seq<char>>, n: nat, max: nat)
    requires
        n <= ls.len(),
    ensures
        concat(all_cut(ls, n, max)) == concat(ls.take(n as int)),
    decreases n,
{
    if n == 0 {
        assert(ls.take(0) =~= seq![]);
    } else {
        let m = (n - 1) as nat;
        lemma_ink_all_cut(ls, m, max);
        lemma_ink_cut(ls[n - 1], max);
        lemma_concat_cat(all_cut(ls, m, max), cut(ls[n - 1], max));
        assert(ls.take(n as int) =~= ls.take(m as int).push(ls[n - 1]));
    }
}

/// What a packing holds so far.
pub open spec fn packed_ink(p: Packing) -> Seq<char> {
    ink_of(p.out) + ink(p.cur)
}

proof fn lemma_ink_finished(p: Packing)
    ensures
        ink_of(finished(p)) == packed_ink(p),
        packed_ink(flushed(p)) == packed_ink(p),
{
    lemma_ink_cat(concat(p.out), p.cur);
    lemma_ink_trim(p.cur);
    if trim(p.cur).len() == 0 {
        assert(packed_ink(p) =~= ink_of(p.out));
    }
    if p.cur.len() > 0 {
        assert(packed_ink(flushed(p)) =~= packed_ink(p));
    }
}

proof fn lemma_ink_lines_added(ls: Seq<Seq<char>>, n: nat, max: nat)
    requires
        n <= ls.len(),
    ensures
        packed_ink(lines_added(ls, n, max)) == ink_of(ls.take(n as int)),
    decreases n,
{
    if n == 0 {
        assert(ls.take(0) =~= seq![]);
        assert(packed_ink(unpacked()) =~= Seq::<char>::empty());
    } else {
        let m = (n - 1) as nat;
        lemma_ink_lines_added(ls, m, max);
        let p = lines_added(ls, m, max);
        let line = ls[n - 1];
        lemma_ink_finished(p);
        let q = if p.cur.len() > 0 && p.cur.len() + line.len() > max {
            Packing { out: finished(p), cur: seq![] }
        } else {
            p
        };
        assert(packed_ink(q) =~= packed_ink(p));
        reveal_strlit("\n");
        lemma_ink_blank("\n"@);
        lemma_ink_cat(q.cur, line);
        lemma_ink_cat(q.cur + line, "\n"@);
        assert(ls.take(n as int) =~= ls.take(m as int).push(line));
        lemma_ink_cat(concat(ls.take(m as int)), line);
        assert(packed_ink(lines_added(ls, n, max)) =~= packed_ink(q) + ink(line));
    }
}

proof fn lemma_ink_broken(s: Seq<char>, max: nat)
    ensures
        ink_of(broken(s, max)) == ink(s),
{
    let raw = lines(s);
    let ls = all_cut(raw, raw.len(), max);
    lemma_ink_lines_added(ls, ls.len(), max);
    lemma_ink_finished(lines_added(ls, ls.len(), max));
    assert(ls.take(ls.len() as int) =~= ls);
    lemma_ink_all_cut(raw, raw.len(), max);
    assert(raw.take(raw.len() as int) =~= raw);
    lemma_ink_lines(s);
}

proof fn lemma_ink_para(p: Packing, raw: Seq<char>)
    ensures
        packed_ink(para_added(p, raw)) == packed_ink(p) + ink(raw),
{
    let para = trim_end(raw);
    lemma_ink_trim(raw);
    lemma_ink_trim(para);
    lemma_ink_finished(p);
    if trim(para).len() == 0 {
        assert(packed_ink(p) + ink(raw) =~= packed_ink(p));
    } else {
        let q = if p.cur.len() > 0 && p.cur.len() + para.len() > CHUNK_CHARS {
            flushed(p)
        } else {
            p
        };
        let w = if q.cur.len() > 0 {
            Packing { cur: q.cur + "\n\n"@, ..q }
        } else {
            q
        };
        reveal_strlit("\n\n");
        lemma_ink_blank("\n\n"@);
        lemma_ink_cat(q.cur, "\n\n"@);
        assert(packed_ink(w) =~= packed_ink(p));
        if para.len() > CHUNK_CHARS * 2 {
            let pieces = broken(para, CHUNK_CHARS as nat);
            lemma_ink_broken(para, CHUNK_CHARS as nat);
            if pieces.len() == 0 {
                assert(ink(para) =~= Seq::<char>::empty());
                assert(packed_ink(w) =~= packed_ink(p) + ink(raw));
            } else {
                let f = flushed(w);
                lemma_ink_finished(w);
                lemma_concat_cat(f.out, pieces);
                lemma_ink_cat(concat(f.out), concat(pieces));
                assert(f.cur.len() == 0);
                assert(packed_ink(Packing { out: f.out + pieces, ..f }) =~= packed_ink(f) + ink(
                    para,
                ));
            }
        } else {
            lemma_ink_cat(w.cur, para);
            assert(packed_ink(Packing { cur: w.cur + para, ..w }) =~= packed_ink(w) + ink(para));
        }
    }
}

proof fn lemma_ink_paras(ps: Seq<Seq<char>>, n: nat)
    requires
        n <= ps.len(),
    ensures
        packed_ink(paras_added(ps, n)) == ink_of(ps.take(n as int)),
    decreases n,
{
    if n == 0 {
        assert(ps.take(0) =~= seq![]);
        assert(packed_ink(unpacked()) =~= Seq::<char>::empty());
    } else {
        let m = (n - 1) as nat;
        lemma_ink_paras(ps, m);
        lemma_ink_para(paras_added(ps, m), ps[n - 1]);
        assert(ps.take(n as int) =~= ps.take(m as int).push(ps[n - 1]));
        lemma_ink_cat(concat(ps.take(m as int)), ps[n - 1]);
    }
}

/// No word of a text is lost when it is cut into chunks: one behind the other, the chunks
/// hold its characters, in order, but for white space.
pub proof fn no_word_is_lost_in_chunks(text: Seq<char>)
    ensures
        ink(concat(chunked(text))) == ink(text),
{
    let ps = paragraphs(text);
    reveal_strlit("\n\n");
    crate::wording::parting_loses_nothing(text, "\n\n"@, 0);
    assert(text.skip(0) =~= text);
    lemma_ink_blank("\n\n"@);
    lemma_ink_join(ps, "\n\n"@);
    lemma_ink_paras(ps, ps.len());
    assert(ps.take(ps.len() as int) =~= ps);
    lemma_ink_finished(paras_added(ps, ps.len()));
}

} // verus!
