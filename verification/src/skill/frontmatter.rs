//! The frontmatter of a skill: a deliberately narrow subset of YAML.
use vstd::prelude::*;
use vstd::string::*;

use crate::list::{group_lists, join, views};
use crate::text::{
    after_prefix, begins, chars_of, cut_once, in_set, index_where, is_char, joined, lemma_index_where,
    lines, lines_of, opt_view, position_of, same, skip_while, split_once, starts_with, string_of,
    strip_prefix, trim, trim_end, trimmed, trimmed_end, trimmed_start_set,
};

verus! {

broadcast use group_lists;

/// Where the line that begins at `at` ends: behind its newline, or at the end.
pub open spec fn line_end(s: Seq<char>, at: int) -> int {
    let i = at + index_where(s.skip(at), is_char('\n'));
    if i < s.len() {
        i + 1
    } else {
        s.len() as int
    }
}

/// The first line from `at` on that closes the block: where it begins, and where it
/// ends.
pub open spec fn closing_fence(s: Seq<char>, at: int) -> Option<(int, int)>
    decreases s.len() - at,
    via closing_fence_shrinks
{
    if at < 0 || at >= s.len() {
        None
    } else if trim_end(s.subrange(at, line_end(s, at))) == "---"@ {
        Some((at, line_end(s, at)))
    } else {
        closing_fence(s, line_end(s, at))
    }
}

#[via_fn]
proof fn closing_fence_shrinks(s: Seq<char>, at: int) {
    if 0 <= at < s.len() {
        lemma_index_where(s.skip(at), is_char('\n'));
    }
}

/// The block and the body behind an opening fence.
pub open spec fn block_and_body(s: Seq<char>) -> Option<(Seq<char>, Seq<char>)> {
    match closing_fence(s, 0) {
        Some((a, b)) => Some((s.take(a), s.skip(b))),
        None => None,
    }
}

/// The block and the body behind an opening fence.
pub fn find_closing_fence(rest: &str) -> (r: Option<(String, String)>)
    ensures
        match r {
            Some(p) => block_and_body(rest@) == Some((p.0@, p.1@)),
            None => block_and_body(rest@) is None,
        },
{
    let v = chars_of(rest);
    let n = v.len();
    let mut at: usize = 0;
    while at < n
        invariant
            at <= n == v@.len(),
            v@ == rest@,
            closing_fence(rest@, 0) == closing_fence(rest@, at as int),
        decreases n - at,
    {
        let i = position_of(&v, at, n, '\n');
        assert(v@.subrange(at as int, n as int) =~= rest@.skip(at as int));
        let end: usize = if i < n {
            i + 1
        } else {
            n
        };
        assert(end == line_end(rest@, at as int));
        let line = string_of(&v, at, end);
        if same(trimmed_end(line.as_str()).as_str(), "---") {
            let block = string_of(&v, 0, at);
            let body = string_of(&v, end, n);
            assert(block@ =~= rest@.take(at as int));
            assert(body@ =~= rest@.skip(end as int));
            return Some((block, body));
        }
        at = end;
    }
    None
}

/// The text behind the opening fence.
pub open spec fn opened(text: Seq<char>) -> Option<Seq<char>> {
    match strip_prefix(skip_while(text, in_set("\u{feff}"@)), "---"@) {
        Some(rest) => Some(skip_while(rest, in_set("\r\n"@))),
        None => None,
    }
}

fn open_block(text: &str) -> (r: Option<String>)
    ensures
        opt_view(r) == opened(text@),
{
    let t = trimmed_start_set(text, "\u{feff}");
    match after_prefix(t.as_str(), "---") {
        Some(rest) => Some(trimmed_start_set(rest.as_str(), "\r\n")),
        None => None,
    }
}

/// Everything behind the frontmatter; all of it where there is none.
pub open spec fn body_of(text: Seq<char>) -> Seq<char> {
    match opened(text) {
        None => text,
        Some(rest) => match block_and_body(rest) {
            Some((_, body)) => body,
            None => text,
        },
    }
}

/// Everything behind the frontmatter; all of it where there is none.
pub fn strip_frontmatter(text: &str) -> (r: String)
    ensures
        r@ == body_of(text@),
{
    match open_block(text) {
        None => text.to_owned(),
        Some(rest) => match find_closing_fence(rest.as_str()) {
            Some((_block, body)) => body,
            None => text.to_owned(),
        },
    }
}

/// `s` without the quotes around it.
pub open spec fn unquoted(s: Seq<char>) -> Seq<char> {
    let t = trim(s);
    if t.len() >= 2 && ((t[0] == '"' && t.last() == '"') || (t[0] == '\'' && t.last() == '\'')) {
        t.subrange(1, t.len() - 1)
    } else {
        t
    }
}

/// `s` without the quotes around it.
pub fn unquote(s: &str) -> (r: String)
    ensures
        r@ == unquoted(s@),
{
    let t = trimmed(s);
    let v = chars_of(t.as_str());
    let n = v.len();
    if n >= 2 && ((v[0] == '"' && v[n - 1] == '"') || (v[0] == '\'' && v[n - 1] == '\'')) {
        string_of(&v, 1, n - 1)
    } else {
        t
    }
}

/// Does a line belong to the block scalar or the map above it?
pub open spec fn belongs(line: Seq<char>) -> bool {
    starts_with(line, " "@) || trim(line).len() == 0
}

fn is_continued(line: &str) -> (r: bool)
    ensures
        r == belongs(line@),
{
    begins(line, " ") || trimmed(line).as_str().unicode_len() == 0
}

/// The first line from `i` on that does not belong to what is above it.
pub open spec fn block_end(ls: Seq<Seq<char>>, i: int) -> int
    decreases ls.len() - i,
{
    if i >= ls.len() || !belongs(ls[i]) {
        i
    } else {
        block_end(ls, i + 1)
    }
}

/// Texts without the white space around them.
pub open spec fn trimmed_all(ls: Seq<Seq<char>>) -> Seq<Seq<char>> {
    Seq::new(ls.len(), |i: int| trim(ls[i]))
}

/// Is a line passed over: blank, a comment, or part of something above it?
pub open spec fn passed_over(line: Seq<char>) -> bool {
    let t = trim(line);
    t.len() == 0 || starts_with(t, "#"@) || starts_with(line, " "@) || starts_with(line, "\t"@)
        || starts_with(t, "-"@)
}

fn is_passed_over(line: &str) -> (r: bool)
    ensures
        r == passed_over(line@),
{
    let t = trimmed(line);
    t.as_str().unicode_len() == 0 || begins(t.as_str(), "#") || begins(line, " ") || begins(
        line,
        "\t",
    ) || begins(t.as_str(), "-")
}

/// Fields in front of others.
pub open spec fn preceded(
    a: Seq<(Seq<char>, Seq<char>)>,
    r: Result<Seq<(Seq<char>, Seq<char>)>, Seq<char>>,
) -> Result<Seq<(Seq<char>, Seq<char>)>, Seq<char>> {
    match r {
        Ok(b) => Ok(a + b),
        Err(e) => Err(e),
    }
}

/// The fields from line `i` on. A block scalar takes the indented lines that follow it;
/// a bare key introduces a nested map or list, which is passed over.
pub open spec fn fields_from(ls: Seq<Seq<char>>, i: int) -> Result<
    Seq<(Seq<char>, Seq<char>)>,
    Seq<char>,
>
    decreases ls.len() - i,
    via fields_from_shrinks
{
    if i >= ls.len() {
        Ok(seq![])
    } else if passed_over(ls[i]) {
        fields_from(ls, i + 1)
    } else {
        let t = trim(ls[i]);
        match split_once(t, ':') {
            None => Err("frontmatter line is not `key: value`: "@ + t),
            Some((k, v)) => {
                let key = trim(k);
                let value = trim(v);
                let j = block_end(ls, i + 1);
                if starts_with(value, "|"@) || starts_with(value, ">"@) {
                    let sep = if starts_with(value, ">"@) {
                        " "@
                    } else {
                        "\n"@
                    };
                    let text = trim(join(trimmed_all(ls.subrange(i + 1, j)), sep));
                    preceded(seq![(key, text)], fields_from(ls, j))
                } else if value.len() == 0 {
                    fields_from(ls, j)
                } else {
                    preceded(seq![(key, unquoted(value))], fields_from(ls, i + 1))
                }
            },
        }
    }
}

#[via_fn]
proof fn fields_from_shrinks(ls: Seq<Seq<char>>, i: int) {
    if i < ls.len() {
        lemma_block_end(ls, i + 1);
    }
}

proof fn lemma_block_end(ls: Seq<Seq<char>>, i: int)
    ensures
        i <= block_end(ls, i),
        i <= ls.len() ==> block_end(ls, i) <= ls.len(),
    decreases ls.len() - i,
{
    if i < ls.len() && belongs(ls[i]) {
        lemma_block_end(ls, i + 1);
    }
}

/// What a list of fields says.
pub open spec fn fields(v: Seq<(String, String)>) -> Seq<(Seq<char>, Seq<char>)> {
    Seq::new(v.len(), |i: int| (v[i].0@, v[i].1@))
}

fn find_block_end(ls: &Vec<String>, from: usize) -> (j: usize)
    requires
        from <= ls@.len(),
    ensures
        from <= j <= ls@.len(),
        j == block_end(views(ls@), from as int),
{
    let ghost all = views(ls@);
    let mut j: usize = from;
    while j < ls.len() && is_continued(ls[j].as_str())
        invariant
            from <= j <= ls@.len(),
            all == views(ls@),
            block_end(all, from as int) == block_end(all, j as int),
        decreases ls.len() - j,
    {
        assert(all[j as int] == ls@[j as int]@);
        j = j + 1;
    }
    assert(j < ls@.len() ==> all[j as int] == ls@[j as int]@);
    j
}

fn trim_each(ls: &Vec<String>, from: usize, to: usize) -> (r: Vec<String>)
    requires
        from <= to <= ls@.len(),
    ensures
        views(r@) == trimmed_all(views(ls@).subrange(from as int, to as int)),
{
    let ghost want = trimmed_all(views(ls@).subrange(from as int, to as int));
    let mut r: Vec<String> = Vec::new();
    let mut i: usize = from;
    assert(views(r@) =~= want.take(0));
    while i < to
        invariant
            from <= i <= to <= ls@.len(),
            want == trimmed_all(views(ls@).subrange(from as int, to as int)),
            views(r@) == want.take(i - from),
        decreases to - i,
    {
        r.push(trimmed(ls[i].as_str()));
        assert(want.take(i + 1 - from) =~= want.take(i - from).push(want[i - from]));
        i = i + 1;
    }
    assert(want.take(i - from) =~= want);
    r
}

/// The fields of a frontmatter block, or why there are none.
pub open spec fn frontmatter(text: Seq<char>) -> Result<Seq<(Seq<char>, Seq<char>)>, Seq<char>> {
    match opened(text) {
        None => Err("missing `---` frontmatter block"@),
        Some(rest) => match block_and_body(rest) {
            None => Err("frontmatter block is not closed by `---`"@),
            Some((block, _)) => fields_from(lines(block), 0),
        },
    }
}

proof fn lemma_preceded(
    a: Seq<(Seq<char>, Seq<char>)>,
    x: (Seq<char>, Seq<char>),
    r: Result<Seq<(Seq<char>, Seq<char>)>, Seq<char>>,
)
    ensures
        preceded(a, preceded(seq![x], r)) == preceded(a.push(x), r),
{
    if let Ok(b) = r {
        assert(a + (seq![x] + b) =~= a.push(x) + b);
    }
}

/// The fields of a frontmatter block. Anything that is not understood is an error.
pub fn parse_frontmatter(text: &str) -> (r: Result<Vec<(String, String)>, String>)
    ensures
        match r {
            Ok(v) => frontmatter(text@) == Ok::<Seq<(Seq<char>, Seq<char>)>, Seq<char>>(
                fields(v@),
            ),
            Err(e) => frontmatter(text@) == Err::<Seq<(Seq<char>, Seq<char>)>, Seq<char>>(e@),
        },
{
    let rest = match open_block(text) {
        Some(rest) => rest,
        None => return Err("missing `---` frontmatter block".to_owned()),
    };
    let block = match find_closing_fence(rest.as_str()) {
        Some((block, _body)) => block,
        None => return Err("frontmatter block is not closed by `---`".to_owned()),
    };
    let ls = lines_of(block.as_str());
    let ghost all = views(ls@);
    let mut out: Vec<(String, String)> = Vec::new();
    let mut i: usize = 0;
    proof {
        assert(fields(out@) =~= seq![]);
        if let Ok(b) = fields_from(all, 0) {
            assert(fields(out@) + b =~= b);
        }
    }
    while i < ls.len()
        invariant
            i <= ls@.len(),
            all == views(ls@),
            frontmatter(text@) == fields_from(all, 0),
            preceded(fields(out@), fields_from(all, i as int)) == fields_from(all, 0),
        decreases ls.len() - i,
    {
        let line = ls[i].as_str();
        assert(all[i as int] == line@);
        if is_passed_over(line) {
            i = i + 1;
        } else {
            let t = trimmed(line);
            let (k, v) = match cut_once(t.as_str(), ':') {
                Some(p) => p,
                None => {
                    let mut e = "frontmatter line is not `key: value`: ".to_owned();
                    e.append(t.as_str());
                    return Err(e);
                },
            };
            let key = trimmed(k.as_str());
            let value = trimmed(v.as_str());
            let ghost before = out@;
            let folds = begins(value.as_str(), ">");
            if begins(value.as_str(), "|") || folds {
                let j = find_block_end(&ls, i + 1);
                let parts = trim_each(&ls, i + 1, j);
                let whole = if folds {
                    joined(&parts, " ")
                } else {
                    joined(&parts, "\n")
                };
                let text = trimmed(whole.as_str());
                proof {
                    lemma_preceded(fields(before), (key@, text@), fields_from(all, j as int));
                }
                out.push((key, text));
                assert(fields(out@) =~= fields(before).push((key@, text@)));
                i = j;
            } else if value.as_str().unicode_len() == 0 {
                i = find_block_end(&ls, i + 1);
            } else {
                let plain = unquote(value.as_str());
                proof {
                    lemma_preceded(fields(before), (key@, plain@), fields_from(all, i + 1));
                }
                out.push((key, plain));
                assert(fields(out@) =~= fields(before).push((key@, plain@)));
                i = i + 1;
            }
        }
    }
    proof {
        assert(fields(out@) + seq![] =~= fields(out@));
    }
    Ok(out)
}

// ---- laws -------------------------------------------------------------------

/// The block and the body of a text are what stands before and behind the line that parts
/// them: nothing else is lost.
pub proof fn block_and_body_are_the_text(s: Seq<char>)
    ensures
        block_and_body(s) matches Some((block, body)) ==> exists|line: Seq<char>|
            s == #[trigger] (block + line + body) && trim_end(line) == "---"@,
{
    if s.len() > 0 {
        lemma_closing_fence(s, 0);
    }
    if let Some((block, body)) = block_and_body(s) {
        let (a, b) = closing_fence(s, 0)->0;
        let line = s.subrange(a, b);
        assert(s =~= block + line + body);
    }
}

proof fn lemma_closing_fence(s: Seq<char>, at: int)
    requires
        0 <= at,
    ensures
        closing_fence(s, at) matches Some((a, b)) ==> at <= a < b <= s.len() && trim_end(
            s.subrange(a, b),
        ) == "---"@,
    decreases s.len() - at,
{
    if at < s.len() {
        lemma_index_where(s.skip(at), is_char('\n'));
        assert(at < line_end(s, at) <= s.len());
        if trim_end(s.subrange(at, line_end(s, at))) != "---"@ {
            lemma_closing_fence(s, line_end(s, at));
        }
    }
}

/// A line that says a key and a value is read as just these, before the lines behind it.
pub proof fn a_line_says_a_key_and_a_value(
    ls: Seq<Seq<char>>,
    i: int,
    key: Seq<char>,
    value: Seq<char>,
)
    requires
        0 <= i < ls.len(),
        !passed_over(ls[i]),
        trim(ls[i]) == key + seq![':'] + value,
        !key.contains(':'),
        trim(value).len() > 0,
        !starts_with(trim(value), "|"@),
        !starts_with(trim(value), ">"@),
    ensures
        fields_from(ls, i) == match fields_from(ls, i + 1) {
            Ok(rest) => Ok(seq![(trim(key), unquoted(trim(value)))] + rest),
            Err(e) => Err(e),
        },
{
    crate::wording::a_cut_gives_the_parts_back(key, ':', value);
}

/// Quotes around a value are taken off, both or none.
pub proof fn quotes_are_taken_off_in_pairs(s: Seq<char>, quote: char)
    requires
        quote == '"' || quote == '\'',
        trim(seq![quote] + s + seq![quote]) == seq![quote] + s + seq![quote],
    ensures
        unquoted(seq![quote] + s + seq![quote]) == s,
{
    let t = seq![quote] + s + seq![quote];
    assert(t.subrange(1, t.len() - 1) =~= s);
}

/// A text that opens no block is all body.
pub proof fn a_text_without_a_block_is_all_body(text: Seq<char>)
    ensures
        opened(text) is None ==> body_of(text) == text && frontmatter(text) is Err,
        (opened(text) matches Some(rest) && block_and_body(rest) is None) ==> body_of(text) == text
            && frontmatter(text) is Err,
        opened(text) matches Some(rest) ==> (block_and_body(rest) matches Some((block, body))
            ==> body_of(text) == body && frontmatter(text) == fields_from(lines(block), 0)),
{
}

} // verus!
