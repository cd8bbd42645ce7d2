//! What holds of the operations on texts: cutting a text apart loses nothing, putting it
//! together again gives it back, and a replacement touches only what it replaces.
use vstd::prelude::*;

use crate::list::join;
use crate::text::{
    all_digits, ascii_lowered, byte_len, contains, count_matches, dec, digits_value, find_from, fitting,
    in_set, index_where, is_char, is_digit, is_space, lemma_byte_len_grows,
    lemma_find_from, lemma_index_where, lines, not_alnum, occurs_at, parse_nat, replace,
    replace_first, skip_while, skip_while_end, space, split, split_from, split_once, starts_with,
    strip_cr, terms, trim, trim_end, trim_start, words,
};

verus! {

// ---- putting together -------------------------------------------------------

/// A list put together, its first text apart.
pub proof fn lemma_join_first(x: Seq<char>, ps: Seq<Seq<char>>, sep: Seq<char>)
    requires
        ps.len() > 0,
    ensures
        join(seq![x] + ps, sep) == x + sep + join(ps, sep),
    decreases ps.len(),
{
    let all = seq![x] + ps;
    assert(all.drop_last() =~= seq![x] + ps.drop_last());
    assert(all.last() == ps.last());
    if ps.len() == 1 {
        assert(all.drop_last() =~= seq![x]);
        assert(join(all.drop_last(), sep) == x);
        assert(join(ps, sep) == ps[0]);
        assert(join(all, sep) == join(all.drop_last(), sep) + sep + all.last());
        assert(join(all, sep) =~= x + sep + join(ps, sep));
    } else {
        lemma_join_first(x, ps.drop_last(), sep);
        assert(join(all, sep) =~= x + sep + join(ps, sep));
    }
}

/// A list put together, its first text growing at the front.
proof fn lemma_join_grow(y: Seq<char>, ps: Seq<Seq<char>>, sep: Seq<char>)
    requires
        ps.len() > 0,
    ensures
        join(ps.update(0, y + ps[0]), sep) == y + join(ps, sep),
    decreases ps.len(),
{
    let all = ps.update(0, y + ps[0]);
    if ps.len() > 1 {
        lemma_join_grow(y, ps.drop_last(), sep);
        assert(all.drop_last() =~= ps.drop_last().update(0, y + ps[0]));
        assert(join(all, sep) =~= y + join(ps, sep));
    }
}

// ---- finding ----------------------------------------------------------------

proof fn lemma_starts(s: Seq<char>, pat: Seq<char>)
    ensures
        starts_with(s, pat) <==> occurs_at(s, pat, 0),
{
    if pat.len() <= s.len() {
        assert(s.take(pat.len() as int) =~= s.subrange(0, pat.len() as int));
    }
}

proof fn lemma_occurs_behind(s: Seq<char>, pat: Seq<char>, n: int, k: int)
    requires
        0 <= n <= s.len(),
        0 <= k,
    ensures
        occurs_at(s.skip(n), pat, k) <==> occurs_at(s, pat, n + k),
{
    if n + k + pat.len() <= s.len() {
        assert(s.skip(n).subrange(k, k + pat.len()) =~= s.subrange(n + k, n + k + pat.len()));
    }
}

/// A text is counted in exactly where it stands.
pub proof fn nothing_is_counted_where_nothing_stands(s: Seq<char>, pat: Seq<char>)
    requires
        pat.len() > 0,
    ensures
        count_matches(s, pat) == 0 <==> !contains(s, pat),
    decreases s.len(),
{
    lemma_starts(s, pat);
    if s.len() == 0 {
        if contains(s, pat) {
            let k = choose|k: int| occurs_at(s, pat, k);
            assert(occurs_at(s, pat, k));
        }
    } else if starts_with(s, pat) {
        assert(occurs_at(s, pat, 0));
    } else {
        nothing_is_counted_where_nothing_stands(s.skip(1), pat);
        if contains(s, pat) {
            let k = choose|k: int| occurs_at(s, pat, k);
            assert(k > 0);
            lemma_occurs_behind(s, pat, 1, k - 1);
            assert(occurs_at(s.skip(1), pat, k - 1));
        }
        if contains(s.skip(1), pat) {
            let k = choose|k: int| occurs_at(s.skip(1), pat, k);
            lemma_occurs_behind(s, pat, 1, k);
            assert(occurs_at(s, pat, k + 1));
        }
    }
}

// ---- replacing --------------------------------------------------------------

/// Do these pieces make up the text, with `pat` between each two and in none of them?
pub open spec fn made_of(s: Seq<char>, ps: Seq<Seq<char>>, pat: Seq<char>) -> bool {
    &&& ps.len() > 0
    &&& s == join(ps, pat)
    &&& forall|i: int| 0 <= i < ps.len() ==> !contains(#[trigger] ps[i], pat)
}

proof fn lemma_replaced(s: Seq<char>, from: Seq<char>, to: Seq<char>) -> (ps: Seq<Seq<char>>)
    requires
        from.len() > 0,
    ensures
        made_of(s, ps, from),
        replace(s, from, to) == join(ps, to),
        ps.len() == count_matches(s, from) + 1,
        starts_with(s, from) ==> ps[0].len() == 0,
    decreases s.len(),
{
    lemma_starts(s, from);
    let none = Seq::<char>::empty();
    assert(!contains(none, from)) by {
        if contains(none, from) {
            let k = choose|k: int| occurs_at(none, from, k);
            assert(occurs_at(none, from, k));
        }
    }
    if s.len() == 0 {
        let ps = seq![none];
        assert(join(ps, from) =~= s);
        assert(join(ps, to) =~= s);
        ps
    } else if starts_with(s, from) {
        let n = from.len() as int;
        let rest = lemma_replaced(s.skip(n), from, to);
        let ps = seq![none] + rest;
        lemma_join_first(none, rest, from);
        lemma_join_first(none, rest, to);
        assert(s =~= from + s.skip(n));
        assert(join(ps, from) =~= s);
        assert(join(ps, to) =~= replace(s, from, to));
        ps
    } else {
        let rest = lemma_replaced(s.skip(1), from, to);
        let first = seq![s[0]];
        let ps = rest.update(0, first + rest[0]);
        lemma_join_grow(first, rest, from);
        lemma_join_grow(first, rest, to);
        assert(s =~= first + s.skip(1));
        assert(join(ps, from) =~= s);
        let p = first + rest[0];
        assert(!contains(p, from)) by {
            if contains(p, from) {
                let k = choose|k: int| occurs_at(p, from, k);
                assert(occurs_at(p, from, k));
                if k > 0 {
                    lemma_occurs_behind(p, from, 1, k - 1);
                    assert(p.skip(1) =~= rest[0]);
                    assert(occurs_at(rest[0], from, k - 1));
                } else {
                    lemma_join_starts(ps, from);
                    assert(s.subrange(0, from.len() as int) =~= p.subrange(0, from.len() as int));
                    assert(occurs_at(s, from, 0));
                }
            }
        }
        ps
    }
}

proof fn lemma_join_starts(ps: Seq<Seq<char>>, sep: Seq<char>)
    requires
        ps.len() > 0,
    ensures
        ps[0].len() <= join(ps, sep).len(),
        join(ps, sep).take(ps[0].len() as int) == ps[0],
    decreases ps.len(),
{
    if ps.len() > 1 {
        lemma_join_starts(ps.drop_last(), sep);
        let n = ps[0].len() as int;
        assert(join(ps, sep).take(n) =~= join(ps.drop_last(), sep).take(n));
    } else {
        assert(join(ps, sep).take(ps[0].len() as int) =~= ps[0]);
    }
}

/// To replace every occurrence is to cut the text at each of them and to put the pieces
/// together again with the new text in between: as many are replaced as were counted, and
/// nothing between them changes.
pub proof fn replacing_touches_the_occurrences_alone(s: Seq<char>, from: Seq<char>, to: Seq<char>)
    requires
        from.len() > 0,
    ensures
        exists|ps: Seq<Seq<char>>|
            #[trigger] made_of(s, ps, from) && replace(s, from, to) == join(ps, to) && ps.len()
                == count_matches(s, from) + 1,
        !contains(s, from) ==> replace(s, from, to) == s && replace_first(s, from, to) == s,
{
    let ps = lemma_replaced(s, from, to);
    assert(made_of(s, ps, from));
    if !contains(s, from) {
        nothing_is_counted_where_nothing_stands(s, from);
        assert(ps =~= seq![ps[0]]);
        crate::text::lemma_find(s, from);
    }
}

/// Where a text stands exactly once, replacing it puts the new text in its place and leaves
/// what is before it and what is behind it.
pub proof fn the_only_occurrence_is_replaced(
    a: Seq<char>,
    from: Seq<char>,
    b: Seq<char>,
    to: Seq<char>,
)
    requires
        from.len() > 0,
        forall|k: int| #[trigger] occurs_at(a + from + b, from, k) ==> k == a.len(),
    ensures
        count_matches(a + from + b, from) == 1,
        replace(a + from + b, from, to) == a + to + b,
        replace_first(a + from + b, from, to) == a + to + b,
    decreases a.len(),
{
    let s = a + from + b;
    lemma_starts(s, from);
    assert(s.subrange(a.len() as int, a.len() as int + from.len()) =~= from);
    assert(occurs_at(s, from, a.len() as int));
    lemma_find_from(s, from, 0);
    let f = find_from(s, from, 0);
    assert(f is Some) by {
        if f is None {
            assert(!occurs_at(s, from, a.len() as int));
        }
    }
    assert(occurs_at(s, from, f->0));
    assert(s.take(a.len() as int) =~= a);
    assert(s.skip(a.len() as int + from.len()) =~= b);
    if a.len() == 0 {
        assert(s.skip(from.len() as int) =~= b);
        assert(!contains(b, from)) by {
            if contains(b, from) {
                let k = choose|k: int| occurs_at(b, from, k);
                assert(occurs_at(b, from, k));
                lemma_occurs_behind(s, from, from.len() as int, k);
                assert(occurs_at(s, from, from.len() + k));
            }
        }
        nothing_is_counted_where_nothing_stands(b, from);
        replacing_touches_the_occurrences_alone(b, from, to);
        assert(a + to + b =~= to + b);
    } else {
        assert(!starts_with(s, from));
        let c = a.skip(1);
        assert(s.skip(1) =~= c + from + b);
        assert forall|k: int| #[trigger] occurs_at(c + from + b, from, k) implies k == c.len() by {
            lemma_occurs_behind(s, from, 1, k);
            assert(occurs_at(s, from, k + 1));
        }
        the_only_occurrence_is_replaced(c, from, b, to);
        assert(seq![s[0]] + (c + to + b) =~= a + to + b);
    }
}

// ---- cutting ----------------------------------------------------------------

/// Cutting at a character and putting the pieces together again gives the text back, and no
/// piece holds the character.
pub proof fn splitting_loses_nothing(s: Seq<char>, sep: char)
    ensures
        join(split(s, sep), seq![sep]) == s,
        split(s, sep).len() > 0,
        forall|i: int| 0 <= i < split(s, sep).len() ==> !(#[trigger] split(s, sep)[i]).contains(sep),
    decreases s.len(),
{
    let p = is_char(sep);
    lemma_index_where(s, p);
    let i = index_where(s, p) as int;
    let ps = split(s, sep);
    if i < s.len() {
        let rest = split(s.skip(i + 1), sep);
        splitting_loses_nothing(s.skip(i + 1), sep);
        lemma_join_first(s.take(i), rest, seq![sep]);
        assert(s =~= s.take(i) + seq![sep] + s.skip(i + 1));
        assert forall|k: int| 0 <= k < ps.len() implies !(#[trigger] ps[k]).contains(sep) by {
            if k == 0 {
                if ps[0].contains(sep) {
                    let j = choose|j: int| 0 <= j < i && s.take(i)[j] == sep;
                    assert(p(s[j]));
                }
            } else {
                assert(ps[k] == rest[k - 1]);
            }
        }
    } else {
        assert(join(ps, seq![sep]) =~= s);
        if s.contains(sep) {
            let j = choose|j: int| 0 <= j < s.len() && s[j] == sep;
            assert(p(s[j]));
        }
    }
}

/// Cutting once at a character parts the text at the first of them.
pub proof fn one_cut_is_at_the_first(s: Seq<char>, sep: char)
    ensures
        match split_once(s, sep) {
            Some((a, b)) => s == a + seq![sep] + b && !a.contains(sep),
            None => !s.contains(sep),
        },
{
    let p = is_char(sep);
    lemma_index_where(s, p);
    let i = index_where(s, p) as int;
    if i < s.len() {
        assert(s =~= s.take(i) + seq![sep] + s.skip(i + 1));
        if s.take(i).contains(sep) {
            let j = choose|j: int| 0 <= j < i && s.take(i)[j] == sep;
            assert(p(s[j]));
        }
    } else if s.contains(sep) {
        let j = choose|j: int| 0 <= j < s.len() && s[j] == sep;
        assert(p(s[j]));
    }
}

/// Given the two parts, a cut gives them back.
pub proof fn a_cut_gives_the_parts_back(a: Seq<char>, sep: char, b: Seq<char>)
    requires
        !a.contains(sep),
    ensures
        split_once(a + seq![sep] + b, sep) == Some((a, b)),
{
    let s = a + seq![sep] + b;
    let p = is_char(sep);
    assert forall|k: int| 0 <= k < a.len() implies !p(s[k]) by {
        assert(a.contains(a[k]));
    }
    crate::text::lemma_index_where_unique(s, p, a.len());
    assert(s.take(a.len() as int) =~= a);
    assert(s.skip(a.len() as int + 1) =~= b);
}

/// Cutting at a text and putting the pieces together again gives the rest of the text back.
pub proof fn parting_loses_nothing(s: Seq<char>, pat: Seq<char>, at: int)
    requires
        pat.len() > 0,
        0 <= at <= s.len(),
    ensures
        split_from(s, pat, at).len() > 0,
        join(split_from(s, pat, at), pat) == s.skip(at),
    decreases s.len() - at,
{
    lemma_find_from(s, pat, at);
    match find_from(s, pat, at) {
        Some(i) => {
            parting_loses_nothing(s, pat, i + pat.len());
            lemma_join_first(s.subrange(at, i), split_from(s, pat, i + pat.len()), pat);
            assert(s.skip(at) =~= s.subrange(at, i) + pat + s.skip(i + pat.len()));
        },
        None => {
            assert(join(split_from(s, pat, at), pat) =~= s.skip(at));
        },
    }
}

/// The lines of a text are what stands between its line feeds: without carriage returns,
/// they give the text back, but for a line feed at its end; and no line holds one.
pub proof fn lines_lose_nothing(s: Seq<char>)
    ensures
        forall|i: int| 0 <= i < lines(s).len() ==> !(#[trigger] lines(s)[i]).contains('\n'),
        !s.contains('\r') ==> (join(lines(s), seq!['\n']) == s || join(lines(s), seq!['\n']) + seq![
            '\n',
        ] == s),
        s.len() == 0 <==> lines(s).len() == 0,
    decreases s.len(),
{
    let p = is_char('\n');
    lemma_index_where(s, p);
    let i = index_where(s, p) as int;
    let ls = lines(s);
    let sep = seq!['\n'];
    if s.len() == 0 {
        assert(join(ls, sep) =~= s);
    } else if i < s.len() {
        let rest = lines(s.skip(i + 1));
        lines_lose_nothing(s.skip(i + 1));
        let head = strip_cr(s.take(i));
        assert forall|k: int| 0 <= k < ls.len() implies !(#[trigger] ls[k]).contains('\n') by {
            if k == 0 {
                if head.contains('\n') {
                    let j = choose|j: int| 0 <= j < head.len() && head[j] == '\n';
                    assert(p(s[j]));
                }
            } else {
                assert(ls[k] == rest[k - 1]);
            }
        }
        if !s.contains('\r') {
            assert(head == s.take(i)) by {
                if i > 0 && s.take(i).last() == '\r' {
                    assert(s.contains(s[i - 1]));
                }
            }
            assert(!s.skip(i + 1).contains('\r')) by {
                if s.skip(i + 1).contains('\r') {
                    let t = s.skip(i + 1);
                    let j = choose|j: int| 0 <= j < t.len() && t[j] == '\r';
                    assert(s.contains(s[i + 1 + j]));
                }
            }
            assert(s =~= head + sep + s.skip(i + 1));
            if rest.len() == 0 {
                assert(ls =~= seq![head]);
                assert(join(ls, sep) + sep =~= s);
            } else {
                lemma_join_first(head, rest, sep);
                assert(ls == seq![head] + rest);
                if join(rest, sep) == s.skip(i + 1) {
                    assert(join(ls, sep) =~= s);
                } else {
                    assert(join(ls, sep) + sep =~= s);
                }
            }
        }
    } else {
        assert(join(ls, sep) =~= s);
        if s.contains('\n') {
            let j = choose|j: int| 0 <= j < s.len() && s[j] == '\n';
            assert(p(s[j]));
        }
    }
}

// ---- trimming ---------------------------------------------------------------

/// Are all characters of these kind?
pub open spec fn all_of(s: Seq<char>, p: spec_fn(char) -> bool) -> bool {
    forall|i: int| 0 <= i < s.len() ==> p(#[trigger] s[i])
}

/// Skipping at the start takes off what is of the kind, all of it, and nothing else.
pub proof fn skipping_takes_the_start(s: Seq<char>, p: spec_fn(char) -> bool)
    ensures
        ({
            let t = skip_while(s, p);
            &&& t.len() <= s.len()
            &&& t == s.skip(s.len() - t.len())
            &&& all_of(s.take(s.len() - t.len()), p)
            &&& t.len() > 0 ==> !p(t[0])
        }),
    decreases s.len(),
{
    let t = skip_while(s, p);
    if s.len() > 0 && p(s[0]) {
        let r = s.drop_first();
        skipping_takes_the_start(r, p);
        assert(r.skip(r.len() - t.len()) =~= s.skip(s.len() - t.len()));
        let n = s.len() - t.len();
        assert forall|i: int| 0 <= i < n implies p(#[trigger] s.take(n)[i]) by {
            if i > 0 {
                assert(r.take(n - 1)[i - 1] == s[i]);
            }
        }
    } else {
        assert(s.skip(0) =~= s);
    }
}

/// Skipping at the end takes off what is of the kind, all of it, and nothing else.
pub proof fn skipping_takes_the_end(s: Seq<char>, p: spec_fn(char) -> bool)
    ensures
        ({
            let t = skip_while_end(s, p);
            &&& t.len() <= s.len()
            &&& t == s.take(t.len() as int)
            &&& all_of(s.skip(t.len() as int), p)
            &&& t.len() > 0 ==> !p(t.last())
        }),
    decreases s.len(),
{
    let t = skip_while_end(s, p);
    let n = t.len() as int;
    if s.len() > 0 && p(s.last()) {
        let r = s.drop_last();
        skipping_takes_the_end(r, p);
        assert(r.take(n) =~= s.take(n));
        assert forall|i: int| 0 <= i < s.len() - n implies p(#[trigger] s.skip(n)[i]) by {
            if n + i < r.len() {
                assert(r.skip(n)[i] == s[n + i]);
            }
        }
    } else {
        assert(s.take(n) =~= s);
    }
}

/// Trimming takes white space off both ends, all of it, and nothing else.
pub proof fn trimming_takes_white_space_alone(s: Seq<char>)
    ensures
        ({
            let t = trim(s);
            &&& t.len() > 0 ==> !is_space(t[0]) && !is_space(t.last())
            &&& exists|a: Seq<char>, b: Seq<char>|
                s == #[trigger] (a + t + b) && all_of(a, space()) && all_of(b, space())
        }),
{
    let u = trim_start(s);
    let t = trim(s);
    skipping_takes_the_start(s, space());
    skipping_takes_the_end(u, space());
    let a = s.take(s.len() - u.len());
    let b = u.skip(t.len() as int);
    assert(s =~= a + t + b);
    if t.len() > 0 {
        assert(t[0] == u[0]);
    }
}

/// The words of a text: none is empty or holds white space, and one behind the other they
/// are the text without its white space.
pub proof fn words_are_the_text_without_its_spaces(s: Seq<char>)
    ensures
        forall|i: int|
            0 <= i < words(s).len() ==> (#[trigger] words(s)[i]).len() > 0 && all_of(
                words(s)[i],
                |c: char| !is_space(c),
            ),
        crate::list::concat(words(s)) == s.filter(|c: char| !is_space(c)),
    decreases s.len(),
{
    let q = |c: char| !is_space(c);
    let ws = words(s);
    lemma_index_where(s, space());
    if s.len() == 0 {
        assert(crate::list::concat(ws) =~= s.filter(q)) by {
            reveal(Seq::filter);
        }
    } else if is_space(s[0]) {
        words_are_the_text_without_its_spaces(s.skip(1));
        lemma_filter_cat(seq![s[0]], s.skip(1), q);
        assert(s =~= seq![s[0]] + s.skip(1));
        lemma_filter_none(seq![s[0]], q);
        assert(s.filter(q) =~= s.skip(1).filter(q));
    } else {
        let n = index_where(s, space()) as int;
        let rest = words(s.skip(n));
        words_are_the_text_without_its_spaces(s.skip(n));
        lemma_filter_cat(s.take(n), s.skip(n), q);
        assert(s =~= s.take(n) + s.skip(n));
        assert forall|i: int| 0 <= i < n implies q(#[trigger] s.take(n)[i]) by {
            assert(!space()(s[i]));
        }
        lemma_filter_all(s.take(n), q);
        lemma_concat_first(s.take(n), rest);
        assert forall|i: int| 0 <= i < ws.len() implies (#[trigger] ws[i]).len() > 0 && all_of(
            ws[i],
            q,
        ) by {
            if i > 0 {
                assert(ws[i] == rest[i - 1]);
            }
        }
    }
}

/// The terms of a text: none is empty or holds anything but letters and digits, and one
/// behind the other they are the letters and digits of the text.
pub proof fn terms_are_the_letters_and_digits(s: Seq<char>)
    ensures
        forall|i: int|
            0 <= i < terms(s).len() ==> (#[trigger] terms(s)[i]).len() > 0 && all_of(
                terms(s)[i],
                |c: char| crate::text::is_alphanumeric(c),
            ),
        crate::list::concat(terms(s)) == s.filter(|c: char| crate::text::is_alphanumeric(c)),
    decreases s.len(),
{
    let q = |c: char| crate::text::is_alphanumeric(c);
    let ws = terms(s);
    lemma_index_where(s, not_alnum());
    if s.len() == 0 {
        assert(crate::list::concat(ws) =~= s.filter(q)) by {
            reveal(Seq::filter);
        }
    } else if !crate::text::is_alphanumeric(s[0]) {
        terms_are_the_letters_and_digits(s.skip(1));
        lemma_filter_cat(seq![s[0]], s.skip(1), q);
        assert(s =~= seq![s[0]] + s.skip(1));
        lemma_filter_none(seq![s[0]], q);
        assert(s.filter(q) =~= s.skip(1).filter(q));
    } else {
        let n = index_where(s, not_alnum()) as int;
        let rest = terms(s.skip(n));
        terms_are_the_letters_and_digits(s.skip(n));
        lemma_filter_cat(s.take(n), s.skip(n), q);
        assert(s =~= s.take(n) + s.skip(n));
        assert forall|i: int| 0 <= i < n implies q(#[trigger] s.take(n)[i]) by {
            assert(!not_alnum()(s[i]));
        }
        lemma_filter_all(s.take(n), q);
        lemma_concat_first(s.take(n), rest);
        assert forall|i: int| 0 <= i < ws.len() implies (#[trigger] ws[i]).len() > 0 && all_of(
            ws[i],
            q,
        ) by {
            if i > 0 {
                assert(ws[i] == rest[i - 1]);
            }
        }
    }
}

/// Filtering two texts, one behind the other.
pub proof fn lemma_filter_cat<T>(a: Seq<T>, b: Seq<T>, q: spec_fn(T) -> bool)
    ensures
        (a + b).filter(q) == a.filter(q) + b.filter(q),
    decreases b.len(),
{
    reveal(Seq::filter);
    if b.len() == 0 {
        assert(a + b =~= a);
        assert(a.filter(q) + b.filter(q) =~= a.filter(q));
    } else {
        lemma_filter_cat(a, b.drop_last(), q);
        assert((a + b).drop_last() =~= a + b.drop_last());
        assert((a + b).filter(q) =~= a.filter(q) + b.filter(q));
    }
}

proof fn lemma_filter_all(s: Seq<char>, q: spec_fn(char) -> bool)
    requires
        all_of(s, q),
    ensures
        s.filter(q) == s,
    decreases s.len(),
{
    reveal(Seq::filter);
    if s.len() > 0 {
        let r = s.drop_last();
        assert forall|i: int| 0 <= i < r.len() implies q(#[trigger] r[i]) by {
            assert(q(s[i]));
        }
        lemma_filter_all(r, q);
        assert(q(s[s.len() - 1]));
        assert(s =~= r.push(s.last()));
    } else {
        assert(s.filter(q) =~= s);
    }
}

proof fn lemma_filter_none(s: Seq<char>, q: spec_fn(char) -> bool)
    requires
        s.len() == 1,
        !q(s[0]),
    ensures
        s.filter(q).len() == 0,
{
    reveal(Seq::filter);
    assert(s.drop_last().filter(q) =~= seq![]);
}

/// A list of texts, one behind the other, the first apart.
pub proof fn lemma_concat_first(x: Seq<char>, ps: Seq<Seq<char>>)
    ensures
        crate::list::concat(seq![x] + ps) == x + crate::list::concat(ps),
    decreases ps.len(),
{
    let all = seq![x] + ps;
    if ps.len() == 0 {
        assert(all =~= seq![x]);
        assert(all.drop_last() =~= seq![]);
        assert(crate::list::concat(all.drop_last()) =~= seq![]);
        assert(all.last() == x);
        assert(crate::list::concat(all) =~= x + crate::list::concat(ps));
    } else {
        lemma_concat_first(x, ps.drop_last());
        assert(all.drop_last() =~= seq![x] + ps.drop_last());
        assert(crate::list::concat(all) =~= x + crate::list::concat(ps));
    }
}

// ---- numbers ----------------------------------------------------------------

/// The digits of a number spell it.
pub proof fn lemma_dec(n: nat)
    ensures
        all_digits(dec(n)),
        digits_value(dec(n)) == n,
    decreases n,
{
    let d = dec(n);
    if n < 10 {
        assert(d.drop_last() =~= seq![]);
        assert(digits_value(d.drop_last()) == 0);
    } else {
        lemma_dec(n / 10);
        assert(d.drop_last() =~= dec(n / 10));
        assert forall|i: int| 0 <= i < d.len() implies is_digit(#[trigger] d[i]) by {
            if i < d.len() - 1 {
                assert(d[i] == dec(n / 10)[i]);
            }
        }
    }
}

/// A number that is written reads back as itself, wherever it is within bounds; so two
/// numbers are never written alike.
pub proof fn a_number_reads_back(n: nat, max: nat, m: nat)
    ensures
        parse_nat(dec(n), max) == if n <= max {
            Some(n)
        } else {
            None
        },
        dec(n) == dec(m) ==> n == m,
{
    lemma_dec(n);
    lemma_dec(m);
    assert(is_digit(dec(n)[0]));
}

// ---- lengths ----------------------------------------------------------------

/// What fits is the longest start of a text that takes no more bytes than allowed.
pub proof fn what_fits_is_the_longest_start(s: Seq<char>, max: nat)
    ensures
        fitting(s, max) <= s.len(),
        byte_len(s.take(fitting(s, max) as int)) <= max,
        forall|k: int|
            fitting(s, max) < k <= s.len() ==> #[trigger] byte_len(s.take(k)) > max,
    decreases s.len(),
{
    let n = fitting(s, max);
    assert(s.take(s.len() as int) =~= s);
    if !(s.len() == 0 || byte_len(s) <= max) {
        let r = s.drop_last();
        what_fits_is_the_longest_start(r, max);
        assert(r.take(n as int) =~= s.take(n as int));
        assert forall|k: int| n < k <= s.len() implies #[trigger] byte_len(s.take(k)) > max by {
            if k < s.len() {
                assert(r.take(k) =~= s.take(k));
                assert(byte_len(r.take(k)) > max);
            }
        }
    }
}

/// Lowering changes no length, no character that is not an ASCII capital, and is done once
/// for all.
pub proof fn lowering_is_done_once(s: Seq<char>)
    ensures
        ascii_lowered(s).len() == s.len(),
        ascii_lowered(ascii_lowered(s)) == ascii_lowered(s),
        forall|i: int|
            0 <= i < s.len() && !('A' <= s[i] <= 'Z') ==> #[trigger] ascii_lowered(s)[i] == s[i],
        forall|i: int|
            0 <= i < s.len() ==> !('A' <= #[trigger] ascii_lowered(s)[i] <= 'Z'),
{
    assert(ascii_lowered(ascii_lowered(s)) =~= ascii_lowered(s));
}

/// What stands between two texts stands in the whole.
pub proof fn a_part_stands_in_the_whole(a: Seq<char>, x: Seq<char>, b: Seq<char>)
    ensures
        crate::text::contains(a + x + b, x),
{
    let s = a + x + b;
    let at = a.len() as int;
    assert(s.subrange(at, at + x.len()) =~= x);
    assert(crate::text::occurs_at(s, x, at));
}

/// What stands in a text stands in every text around it.
pub proof fn standing_in_a_part_is_standing_in_the_whole(
    a: Seq<char>,
    x: Seq<char>,
    b: Seq<char>,
    y: Seq<char>,
)
    requires
        crate::text::contains(x, y),
    ensures
        crate::text::contains(a + x + b, y),
{
    let i = choose|i: int| #[trigger] crate::text::occurs_at(x, y, i);
    let s = a + x + b;
    let at = a.len() as int + i;
    assert(s.subrange(at, at + y.len()) =~= x.subrange(i, i + y.len()));
    assert(crate::text::occurs_at(s, y, at));
}

/// Each text of a list stands in the list put together, behind all those before it and
/// before all those behind it.
pub proof fn a_list_put_together_holds_each(parts: Seq<Seq<char>>, i: int)
    requires
        0 <= i < parts.len(),
    ensures
        crate::list::concat(parts) == crate::list::concat(parts.take(i)) + parts[i]
            + crate::list::concat(parts.skip(i + 1)),
        crate::text::contains(crate::list::concat(parts), parts[i]),
    decreases parts.len(),
{
    let last = parts.len() - 1;
    let rest = parts.drop_last();
    if i == last {
        assert(rest =~= parts.take(i));
        assert(parts.skip(i + 1) =~= seq![]);
        assert(crate::list::concat(parts.skip(i + 1)) =~= seq![]);
        assert(crate::list::concat(parts) =~= crate::list::concat(parts.take(i)) + parts[i]
            + crate::list::concat(parts.skip(i + 1)));
    } else {
        a_list_put_together_holds_each(rest, i);
        assert(rest.take(i) =~= parts.take(i));
        assert(parts.skip(i + 1).drop_last() =~= rest.skip(i + 1));
        assert(crate::list::concat(parts) =~= crate::list::concat(parts.take(i)) + parts[i]
            + crate::list::concat(parts.skip(i + 1)));
    }
    a_part_stands_in_the_whole(
        crate::list::concat(parts.take(i)),
        parts[i],
        crate::list::concat(parts.skip(i + 1)),
    );
}

/// Each text of a list stands in the list joined.
pub proof fn a_joined_list_holds_each(parts: Seq<Seq<char>>, sep: Seq<char>, i: int)
    requires
        0 <= i < parts.len(),
    ensures
        crate::text::contains(join(parts, sep), parts[i]),
    decreases parts.len(),
{
    if parts.len() == 1 {
        a_part_stands_in_the_whole(seq![], parts[0], seq![]);
        assert(Seq::<char>::empty() + parts[0] + Seq::<char>::empty() =~= parts[0]);
    } else if i == parts.len() - 1 {
        a_part_stands_in_the_whole(join(parts.drop_last(), sep) + sep, parts[i], seq![]);
        assert(join(parts.drop_last(), sep) + sep + parts[i] + Seq::<char>::empty() =~= join(
            parts,
            sep,
        ));
    } else {
        a_joined_list_holds_each(parts.drop_last(), sep, i);
        standing_in_a_part_is_standing_in_the_whole(
            seq![],
            join(parts.drop_last(), sep),
            sep + parts.last(),
            parts[i],
        );
        assert(Seq::<char>::empty() + join(parts.drop_last(), sep) + (sep + parts.last())
            =~= join(parts, sep));
    }
}

} // verus!
