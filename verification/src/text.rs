//! Text as sequences of characters.
//!
//! Every string rule of the library is stated over `Seq<char>`, the view of
//! `str` and `String`. This module holds the shared vocabulary: trimming,
//! splitting, searching, replacing, joining, and decimal numbers.
use vstd::prelude::*;
use vstd::string::*;

use crate::list::{group_lists, join, views};

verus! {

broadcast use group_lists;

// ---- views and conversions --------------------------------------------------

/// `String::push` appends one character.
pub assume_specification[ String::push ](s: &mut String, c: char)
    ensures
        final(s)@ == old(s)@.push(c),
;

/// The characters of `s`, in order.
pub fn chars_of(s: &str) -> (v: Vec<char>)
    ensures
        v@ == s@,
{
    let mut v: Vec<char> = Vec::new();
    for c in it: s.chars()
        invariant
            v@ == it.seq().take(it.index()),
            it.seq() == s@,
    {
        v.push(c);
    }
    v
}

/// The string made of `v[from..to]`.
pub fn string_of(v: &Vec<char>, from: usize, to: usize) -> (s: String)
    requires
        from <= to <= v@.len(),
    ensures
        s@ == v@.subrange(from as int, to as int),
{
    let mut s = String::new();
    let mut i: usize = from;
    while i < to
        invariant
            from <= i <= to <= v@.len(),
            s@ == v@.subrange(from as int, i as int),
        decreases to - i,
    {
        s.push(v[i]);
        i = i + 1;
        assert(v@.subrange(from as int, i as int) =~= v@.subrange(from as int, i - 1).push(v@[i - 1]));
    }
    s
}

// ---- predicates on characters -----------------------------------------------

/// The Unicode `White_Space` characters.
pub open spec fn is_space(c: char) -> bool {
    ||| '\u{9}' <= c <= '\u{d}'
    ||| c == ' '
    ||| c == '\u{85}'
    ||| c == '\u{a0}'
    ||| c == '\u{1680}'
    ||| '\u{2000}' <= c <= '\u{200a}'
    ||| c == '\u{2028}'
    ||| c == '\u{2029}'
    ||| c == '\u{202f}'
    ||| c == '\u{205f}'
    ||| c == '\u{3000}'
}

/// Is `c` white space?
pub fn char_is_space(c: char) -> (b: bool)
    ensures
        b == is_space(c),
{
    ('\u{9}' <= c && c <= '\u{d}') || c == ' ' || c == '\u{85}' || c == '\u{a0}' || c
        == '\u{1680}' || ('\u{2000}' <= c && c <= '\u{200a}') || c == '\u{2028}' || c
        == '\u{2029}' || c == '\u{202f}' || c == '\u{205f}' || c == '\u{3000}'
}


/// The predicate `is_space`, as a value.
pub open spec fn space() -> spec_fn(char) -> bool {
    |c: char| is_space(c)
}

/// The predicate "is the character `x`".
pub open spec fn is_char(x: char) -> spec_fn(char) -> bool {
    |c: char| c == x
}

/// The predicate "is one of `set`".
pub open spec fn in_set(set: Seq<char>) -> spec_fn(char) -> bool {
    |c: char| set.contains(c)
}

/// An ASCII decimal digit.
pub open spec fn is_digit(c: char) -> bool {
    '0' <= c <= '9'
}

/// An ASCII letter.
pub open spec fn is_ascii_letter(c: char) -> bool {
    ('a' <= c <= 'z') || ('A' <= c <= 'Z')
}

/// An ASCII letter or digit.
pub open spec fn is_ascii_alnum(c: char) -> bool {
    is_ascii_letter(c) || is_digit(c)
}

/// What `char::is_alphanumeric` says of a character.
pub uninterp spec fn is_alphanumeric(c: char) -> bool;

/// `char::is_alphanumeric` depends on the character alone; on ASCII it holds of
/// the letters and the digits.
pub assume_specification[ char::is_alphanumeric ](c: char) -> (b: bool)
    ensures
        b == is_alphanumeric(c),
        c < '\u{80}' ==> b == is_ascii_alnum(c),
;

/// The ASCII lower-case form of a character.
pub open spec fn ascii_lower(c: char) -> char {
    if 'A' <= c <= 'Z' {
        ((c as u8) + 32) as u8 as char
    } else {
        c
    }
}

/// The ASCII lower-case form of `c`.
pub fn char_ascii_lower(c: char) -> (r: char)
    ensures
        r == ascii_lower(c),
{
    if 'A' <= c && c <= 'Z' {
        ((c as u8) + 32) as char
    } else {
        c
    }
}

/// `s` with its ASCII letters in lower case.
pub open spec fn ascii_lowered(s: Seq<char>) -> Seq<char> {
    s.map_values(|c: char| ascii_lower(c))
}

/// `s` with its ASCII letters in lower case.
pub fn lower_ascii(s: &str) -> (r: String)
    ensures
        r@ == ascii_lowered(s@),
{
    let v = chars_of(s);
    let mut r = String::new();
    let mut i: usize = 0;
    while i < v.len()
        invariant
            i <= v@.len(),
            v@ == s@,
            r@ == ascii_lowered(s@).take(i as int),
        decreases v.len() - i,
    {
        r.push(char_ascii_lower(v[i]));
        i = i + 1;
        assert(r@ =~= ascii_lowered(s@).take(i as int));
    }
    assert(r@ =~= ascii_lowered(s@));
    r
}

/// What `str::to_lowercase` makes of a text.
pub uninterp spec fn lowercase(s: Seq<char>) -> Seq<char>;

/// `str::to_lowercase` depends on the text alone; ASCII text is lowered
/// character by character.
pub assume_specification[ str::to_lowercase ](s: &str) -> (r: String)
    ensures
        r@ == lowercase(s@),
        (forall|i: int| 0 <= i < s@.len() ==> s@[i] < '\u{80}') ==> r@ == ascii_lowered(s@),
;

// ---- equality ---------------------------------------------------------------

/// Do two texts read the same?
pub fn same(a: &str, b: &str) -> (r: bool)
    ensures
        r == (a@ == b@),
{
    a.to_owned() == b.to_owned()
}

/// Is `x` one of the texts in `v`?
pub fn any_same(v: &Vec<String>, x: &str) -> (r: bool)
    ensures
        r == views(v@).contains(x@),
{
    let mut i: usize = 0;
    while i < v.len()
        invariant
            i <= v.len(),
            forall|j: int| 0 <= j < i ==> v@[j]@ != x@,
        decreases v.len() - i,
    {
        if same(v[i].as_str(), x) {
            assert(views(v@)[i as int] == x@);
            return true;
        }
        i = i + 1;
    }
    assert(!views(v@).contains(x@)) by {
        if views(v@).contains(x@) {
            let j = choose|j: int| 0 <= j < views(v@).len() && views(v@)[j] == x@;
            assert(v@[j]@ == x@);
        }
    }
    false
}

/// A copy of a list of texts.
pub fn copy_texts(v: &Vec<String>) -> (r: Vec<String>)
    ensures
        views(r@) == views(v@),
{
    let mut r: Vec<String> = Vec::new();
    let mut i: usize = 0;
    while i < v.len()
        invariant
            i <= v.len(),
            views(r@) == views(v@).take(i as int),
        decreases v.len() - i,
    {
        r.push(v[i].clone());
        i = i + 1;
        assert(views(r@) =~= views(v@).take(i as int));
    }
    assert(views(v@).take(i as int) =~= views(v@));
    r
}

// ---- trimming ---------------------------------------------------------------

/// `s` without the longest prefix on which `p` holds.
pub open spec fn skip_while(s: Seq<char>, p: spec_fn(char) -> bool) -> Seq<char>
    decreases s.len(),
{
    if s.len() > 0 && p(s[0]) {
        skip_while(s.drop_first(), p)
    } else {
        s
    }
}

/// `s` without the longest suffix on which `p` holds.
pub open spec fn skip_while_end(s: Seq<char>, p: spec_fn(char) -> bool) -> Seq<char>
    decreases s.len(),
{
    if s.len() > 0 && p(s.last()) {
        skip_while_end(s.drop_last(), p)
    } else {
        s
    }
}

/// `s` without leading white space.
pub open spec fn trim_start(s: Seq<char>) -> Seq<char> {
    skip_while(s, space())
}

/// `s` without trailing white space.
pub open spec fn trim_end(s: Seq<char>) -> Seq<char> {
    skip_while_end(s, space())
}

/// `s` without white space at either end.
pub open spec fn trim(s: Seq<char>) -> Seq<char> {
    trim_end(trim_start(s))
}

/// `s` without the characters of `set` at either end.
pub open spec fn trim_set(s: Seq<char>, set: Seq<char>) -> Seq<char> {
    skip_while_end(skip_while(s, in_set(set)), in_set(set))
}

/// A text that neither begins nor ends with white space is not trimmed.
pub proof fn lemma_trim_plain(s: Seq<char>)
    requires
        s.len() > 0 ==> !is_space(s[0]) && !is_space(s.last()),
    ensures
        trim(s) == s,
{
}

/// The first index in `[from, to]` behind the leading part on which `f` holds.
pub fn skip_from<F: Fn(char) -> bool>(
    v: &Vec<char>,
    from: usize,
    to: usize,
    f: F,
    p: Ghost<spec_fn(char) -> bool>,
) -> (i: usize)
    requires
        from <= to <= v@.len(),
        forall|c: char| f.requires((c,)),
        forall|c: char, b: bool| f.ensures((c,), b) ==> b == p@(c),
    ensures
        from <= i <= to,
        v@.subrange(i as int, to as int) == skip_while(v@.subrange(from as int, to as int), p@),
{
    let mut i: usize = from;
    while i < to
        invariant
            from <= i <= to <= v@.len(),
            forall|c: char| f.requires((c,)),
            forall|c: char, b: bool| f.ensures((c,), b) ==> b == p@(c),
            skip_while(v@.subrange(i as int, to as int), p@) == skip_while(
                v@.subrange(from as int, to as int),
                p@,
            ),
        decreases to - i,
    {
        let c = v[i];
        if !f(c) {
            return i;
        }
        assert(v@.subrange(i as int, to as int).drop_first() =~= v@.subrange(i + 1, to as int));
        i = i + 1;
    }
    i
}

/// The last index in `[from, to]` before the trailing part on which `f` holds.
pub fn skip_back<F: Fn(char) -> bool>(
    v: &Vec<char>,
    from: usize,
    to: usize,
    f: F,
    p: Ghost<spec_fn(char) -> bool>,
) -> (i: usize)
    requires
        from <= to <= v@.len(),
        forall|c: char| f.requires((c,)),
        forall|c: char, b: bool| f.ensures((c,), b) ==> b == p@(c),
    ensures
        from <= i <= to,
        v@.subrange(from as int, i as int) == skip_while_end(
            v@.subrange(from as int, to as int),
            p@,
        ),
{
    let mut i: usize = to;
    while i > from
        invariant
            from <= i <= to <= v@.len(),
            forall|c: char| f.requires((c,)),
            forall|c: char, b: bool| f.ensures((c,), b) ==> b == p@(c),
            skip_while_end(v@.subrange(from as int, i as int), p@) == skip_while_end(
                v@.subrange(from as int, to as int),
                p@,
            ),
        decreases i,
    {
        let c = v[i - 1];
        if !f(c) {
            return i;
        }
        assert(v@.subrange(from as int, i as int).drop_last() =~= v@.subrange(from as int, i - 1));
        i = i - 1;
    }
    i
}

/// The bounds of `v[from..to]` once white space is trimmed off both ends.
pub fn trim_bounds(v: &Vec<char>, from: usize, to: usize) -> (b: (usize, usize))
    requires
        from <= to <= v@.len(),
    ensures
        from <= b.0 <= b.1 <= to,
        v@.subrange(b.0 as int, b.1 as int) == trim(v@.subrange(from as int, to as int)),
{
    let i = skip_from(v, from, to, |c: char| -> (b: bool) ensures b == is_space(c) { char_is_space(c) }, Ghost(space()));
    let j = skip_back(v, i, to, |c: char| -> (b: bool) ensures b == is_space(c) { char_is_space(c) }, Ghost(space()));
    (i, j)
}

/// `s` without white space at either end.
pub fn trimmed(s: &str) -> (r: String)
    ensures
        r@ == trim(s@),
{
    let v = chars_of(s);
    let n = v.len();
    let b = trim_bounds(&v, 0, n);
    assert(v@.subrange(0, n as int) =~= s@);
    string_of(&v, b.0, b.1)
}

/// `s` without leading white space.
pub fn trimmed_start(s: &str) -> (r: String)
    ensures
        r@ == trim_start(s@),
{
    let v = chars_of(s);
    let n = v.len();
    let i = skip_from(&v, 0, n, |c: char| -> (b: bool) ensures b == is_space(c) { char_is_space(c) }, Ghost(space()));
    assert(v@.subrange(0, n as int) =~= s@);
    string_of(&v, i, n)
}

/// `s` without trailing white space.
pub fn trimmed_end(s: &str) -> (r: String)
    ensures
        r@ == trim_end(s@),
{
    let v = chars_of(s);
    let n = v.len();
    let i = skip_back(&v, 0, n, |c: char| -> (b: bool) ensures b == is_space(c) { char_is_space(c) }, Ghost(space()));
    assert(v@.subrange(0, n as int) =~= s@);
    string_of(&v, 0, i)
}

/// Is `c` one of the characters of `set`?
pub fn char_in(c: char, set: &str) -> (r: bool)
    ensures
        r == set@.contains(c),
{
    let v = chars_of(set);
    let mut i: usize = 0;
    while i < v.len()
        invariant
            i <= v.len(),
            v@ == set@,
            forall|j: int| 0 <= j < i ==> v@[j] != c,
        decreases v.len() - i,
    {
        if v[i] == c {
            return true;
        }
        i = i + 1;
    }
    false
}

/// `s` without the characters of `set` at either end.
pub fn trimmed_set(s: &str, set: &str) -> (r: String)
    ensures
        r@ == trim_set(s@, set@),
{
    let v = chars_of(s);
    let n = v.len();
    let i = skip_from(&v, 0, n, |c: char| -> (b: bool) ensures b == set@.contains(c) { char_in(c, set) }, Ghost(in_set(set@)));
    let j = skip_back(&v, i, n, |c: char| -> (b: bool) ensures b == set@.contains(c) { char_in(c, set) }, Ghost(in_set(set@)));
    assert(v@.subrange(0, n as int) =~= s@);
    string_of(&v, i, j)
}

/// `s` without the characters of `set` at its start.
pub fn trimmed_start_set(s: &str, set: &str) -> (r: String)
    ensures
        r@ == skip_while(s@, in_set(set@)),
{
    let v = chars_of(s);
    let n = v.len();
    let i = skip_from(&v, 0, n, |c: char| -> (b: bool) ensures b == set@.contains(c) { char_in(c, set) }, Ghost(in_set(set@)));
    assert(v@.subrange(0, n as int) =~= s@);
    string_of(&v, i, n)
}

/// `s` without the characters of `set` at its end.
pub fn trimmed_end_set(s: &str, set: &str) -> (r: String)
    ensures
        r@ == skip_while_end(s@, in_set(set@)),
{
    let v = chars_of(s);
    let n = v.len();
    let i = skip_back(&v, 0, n, |c: char| -> (b: bool) ensures b == set@.contains(c) { char_in(c, set) }, Ghost(in_set(set@)));
    assert(v@.subrange(0, n as int) =~= s@);
    string_of(&v, 0, i)
}

// ---- searching --------------------------------------------------------------

/// Does `pat` stand in `s` at index `i`?
pub open spec fn occurs_at(s: Seq<char>, pat: Seq<char>, i: int) -> bool {
    0 <= i && i + pat.len() <= s.len() && s.subrange(i, i + pat.len()) == pat
}

/// Does `pat` stand anywhere in `s`?
pub open spec fn contains(s: Seq<char>, pat: Seq<char>) -> bool {
    exists|i: int| #[trigger] occurs_at(s, pat, i)
}

/// The first index from `i` on at which `pat` stands in `s`.
pub open spec fn find_from(s: Seq<char>, pat: Seq<char>, i: int) -> Option<int>
    decreases s.len() + 1 - i,
{
    if i + pat.len() > s.len() {
        None
    } else if occurs_at(s, pat, i) {
        Some(i)
    } else {
        find_from(s, pat, i + 1)
    }
}

/// The first index at which `pat` stands in `s`.
pub open spec fn find(s: Seq<char>, pat: Seq<char>) -> Option<int> {
    find_from(s, pat, 0)
}

/// `find_from` finds the first occurrence, if there is one.
pub proof fn lemma_find_from(s: Seq<char>, pat: Seq<char>, i: int)
    requires
        0 <= i,
    ensures
        match find_from(s, pat, i) {
            Some(j) => i <= j && occurs_at(s, pat, j) && forall|k: int|
                i <= k < j ==> !#[trigger] occurs_at(s, pat, k),
            None => forall|k: int| i <= k ==> !#[trigger] occurs_at(s, pat, k),
        },
    decreases s.len() + 1 - i,
{
    if i + pat.len() > s.len() {
    } else if occurs_at(s, pat, i) {
    } else {
        lemma_find_from(s, pat, i + 1);
    }
}

/// `find` finds something exactly where `contains` holds.
pub proof fn lemma_find(s: Seq<char>, pat: Seq<char>)
    ensures
        find(s, pat) is Some <==> contains(s, pat),
        find(s, pat) matches Some(j) ==> occurs_at(s, pat, j),
{
    lemma_find_from(s, pat, 0);
    if contains(s, pat) {
        let k = choose|k: int| occurs_at(s, pat, k);
        assert(occurs_at(s, pat, k));
    }
}

/// Does `pat` stand in `v` at index `i`?
pub fn stands_at(v: &Vec<char>, pat: &Vec<char>, i: usize) -> (r: bool)
    ensures
        r == occurs_at(v@, pat@, i as int),
{
    if i > v.len() || v.len() - i < pat.len() {
        return false;
    }
    let mut k: usize = 0;
    while k < pat.len()
        invariant
            k <= pat.len(),
            i + pat.len() <= v.len(),
            forall|j: int| 0 <= j < k ==> v@[i + j] == pat@[j],
        decreases pat.len() - k,
    {
        if v[i + k] != pat[k] {
            assert(v@.subrange(i as int, i + pat@.len())[k as int] != pat@[k as int]);
            return false;
        }
        k = k + 1;
    }
    assert(v@.subrange(i as int, i + pat@.len()) =~= pat@);
    true
}

/// The first index from `from` on at which `pat` stands in `v`.
pub fn index_from(v: &Vec<char>, pat: &Vec<char>, from: usize) -> (r: Option<usize>)
    ensures
        match r {
            Some(i) => find_from(v@, pat@, from as int) == Some(i as int),
            None => find_from(v@, pat@, from as int) is None,
        },
        r matches Some(i) ==> from <= i && i + pat@.len() <= v@.len() && occurs_at(v@, pat@, i as int),
{
    if from > v.len() {
        return None;
    }
    let mut i: usize = from;
    while i <= v.len() && v.len() - i >= pat.len()
        invariant
            from <= i <= v.len() + 1,
            find_from(v@, pat@, i as int) == find_from(v@, pat@, from as int),
        decreases v.len() + 1 - i,
    {
        if stands_at(v, pat, i) {
            return Some(i);
        }
        if i == v.len() {
            assert(v@.subrange(i as int, i as int) =~= pat@);
            return None;
        }
        i = i + 1;
    }
    None
}

/// The first index at which `pat` stands in `s`.
pub fn find_in(s: &str, pat: &str) -> (r: Option<usize>)
    ensures
        match r {
            Some(i) => find(s@, pat@) == Some(i as int),
            None => find(s@, pat@) is None,
        },
        r is Some <==> contains(s@, pat@),
        r matches Some(i) ==> i + pat@.len() <= s@.len(),
{
    proof {
        lemma_find(s@, pat@);
    }
    let v = chars_of(s);
    let p = chars_of(pat);
    index_from(&v, &p, 0)
}

/// Does `pat` stand anywhere in `s`?
pub fn has_text(s: &str, pat: &str) -> (r: bool)
    ensures
        r == contains(s@, pat@),
{
    find_in(s, pat).is_some()
}

/// Does `s` begin with `p`?
pub open spec fn starts_with(s: Seq<char>, p: Seq<char>) -> bool {
    p.len() <= s.len() && s.take(p.len() as int) == p
}

/// Does `s` end with `p`?
pub open spec fn ends_with(s: Seq<char>, p: Seq<char>) -> bool {
    p.len() <= s.len() && s.skip(s.len() - p.len()) == p
}

/// Does `s` begin with `p`?
pub fn begins(s: &str, p: &str) -> (r: bool)
    ensures
        r == starts_with(s@, p@),
{
    let v = chars_of(s);
    let q = chars_of(p);
    assert(p@.len() <= s@.len() ==> s@.take(p@.len() as int) =~= s@.subrange(0, p@.len() as int));
    stands_at(&v, &q, 0)
}

/// Does `s` end with `p`?
pub fn ends(s: &str, p: &str) -> (r: bool)
    ensures
        r == ends_with(s@, p@),
{
    let v = chars_of(s);
    let q = chars_of(p);
    if q.len() > v.len() {
        return false;
    }
    assert(s@.skip(s@.len() - p@.len()) =~= s@.subrange(s@.len() - p@.len(), s@.len() as int));
    stands_at(&v, &q, v.len() - q.len())
}

/// What follows the prefix `p` of `s`, if `s` begins with it.
pub open spec fn strip_prefix(s: Seq<char>, p: Seq<char>) -> Option<Seq<char>> {
    if starts_with(s, p) {
        Some(s.skip(p.len() as int))
    } else {
        None
    }
}

/// The view of an optional text.
pub open spec fn opt_view(o: Option<String>) -> Option<Seq<char>> {
    match o {
        Some(s) => Some(s@),
        None => None,
    }
}

/// A copy of an optional text.
pub fn copy_opt(o: &Option<String>) -> (r: Option<String>)
    ensures
        opt_view(r) == opt_view(*o),
{
    match o {
        Some(s) => Some(s.clone()),
        None => None,
    }
}

/// What follows the prefix `p` of `s`, if `s` begins with it.
pub fn after_prefix(s: &str, p: &str) -> (r: Option<String>)
    ensures
        opt_view(r) == strip_prefix(s@, p@),
{
    if begins(s, p) {
        let n = p.unicode_len();
        let v = chars_of(s);
        let m = v.len();
        let t = string_of(&v, n, m);
        assert(t@ =~= s@.skip(p@.len() as int));
        Some(t)
    } else {
        None
    }
}

/// The number of leading characters of `s` on which `p` fails.
pub open spec fn index_where(s: Seq<char>, p: spec_fn(char) -> bool) -> nat
    decreases s.len(),
{
    if s.len() == 0 || p(s[0]) {
        0
    } else {
        1 + index_where(s.drop_first(), p)
    }
}

/// `index_where` is the index of the first character on which `p` holds, or the
/// length.
pub proof fn lemma_index_where(s: Seq<char>, p: spec_fn(char) -> bool)
    ensures
        index_where(s, p) <= s.len(),
        index_where(s, p) < s.len() ==> p(s[index_where(s, p) as int]),
        forall|i: int| 0 <= i < index_where(s, p) ==> !p(s[i]),
    decreases s.len(),
{
    if s.len() == 0 || p(s[0]) {
    } else {
        lemma_index_where(s.drop_first(), p);
        assert forall|i: int| 0 <= i < index_where(s, p) implies !p(s[i]) by {
            if i > 0 {
                assert(s[i] == s.drop_first()[i - 1]);
            }
        }
    }
}

/// An index that satisfies what `lemma_index_where` says is `index_where`.
pub proof fn lemma_index_where_unique(s: Seq<char>, p: spec_fn(char) -> bool, n: nat)
    requires
        n <= s.len(),
        n < s.len() ==> p(s[n as int]),
        forall|i: int| 0 <= i < n ==> !p(s[i]),
    ensures
        index_where(s, p) == n,
{
    lemma_index_where(s, p);
    let m = index_where(s, p);
    if m < n {
        assert(!p(s[m as int]));
    } else if n < m {
        assert(!p(s[n as int]));
    }
}

/// The first index in `[from, to]` at which `f` holds, or `to`.
pub fn position<F: Fn(char) -> bool>(
    v: &Vec<char>,
    from: usize,
    to: usize,
    f: F,
    p: Ghost<spec_fn(char) -> bool>,
) -> (i: usize)
    requires
        from <= to <= v@.len(),
        forall|c: char| f.requires((c,)),
        forall|c: char, b: bool| f.ensures((c,), b) ==> b == p@(c),
    ensures
        from <= i <= to,
        i - from == index_where(v@.subrange(from as int, to as int), p@),
{
    let mut i: usize = from;
    while i < to
        invariant
            from <= i <= to <= v@.len(),
            forall|c: char| f.requires((c,)),
            forall|c: char, b: bool| f.ensures((c,), b) ==> b == p@(c),
            forall|j: int| from <= j < i ==> !p@(v@[j]),
        decreases to - i,
    {
        let c = v[i];
        if f(c) {
            proof {
                lemma_index_where_unique(v@.subrange(from as int, to as int), p@, (i - from) as nat);
            }
            return i;
        }
        i = i + 1;
    }
    proof {
        lemma_index_where_unique(v@.subrange(from as int, to as int), p@, (i - from) as nat);
    }
    i
}

/// The first index in `[from, to]` at which the character `x` stands, or `to`.
pub fn position_of(v: &Vec<char>, from: usize, to: usize, x: char) -> (i: usize)
    requires
        from <= to <= v@.len(),
    ensures
        from <= i <= to,
        i - from == index_where(v@.subrange(from as int, to as int), is_char(x)),
        i < to ==> v@[i as int] == x,
{
    let i = position(v, from, to, |c: char| -> (b: bool) ensures b == (c == x) { c == x }, Ghost(is_char(x)));
    proof {
        lemma_index_where(v@.subrange(from as int, to as int), is_char(x));
    }
    i
}


// ---- splitting --------------------------------------------------------------

/// The pieces of `s` between the occurrences of `sep`.
pub open spec fn split(s: Seq<char>, sep: char) -> Seq<Seq<char>>
    decreases s.len(),
{
    let i = index_where(s, is_char(sep)) as int;
    if i < s.len() {
        seq![s.take(i)] + split(s.skip(i + 1), sep)
    } else {
        seq![s]
    }
}

/// `s` without one trailing carriage return.
pub open spec fn strip_cr(s: Seq<char>) -> Seq<char> {
    if s.len() > 0 && s.last() == '\r' {
        s.drop_last()
    } else {
        s
    }
}

/// The lines of `s`: each ends at a line feed, which is dropped together with a
/// carriage return before it; a text that ends in a line feed has no empty last
/// line.
pub open spec fn lines(s: Seq<char>) -> Seq<Seq<char>>
    decreases s.len(),
{
    if s.len() == 0 {
        seq![]
    } else {
        let i = index_where(s, is_char('\n')) as int;
        if i < s.len() {
            seq![strip_cr(s.take(i))] + lines(s.skip(i + 1))
        } else {
            seq![s]
        }
    }
}

/// The maximal runs of characters of `s` that are not white space.
pub open spec fn words(s: Seq<char>) -> Seq<Seq<char>>
    decreases s.len(),
    via words_shrink
{
    if s.len() == 0 {
        seq![]
    } else if is_space(s[0]) {
        words(s.skip(1))
    } else {
        let n = index_where(s, space()) as int;
        seq![s.take(n)] + words(s.skip(n))
    }
}

#[via_fn]
proof fn words_shrink(s: Seq<char>) {
    lemma_index_where(s, space());
}

/// `s` cut at the first `sep`, which belongs to neither part.
pub open spec fn split_once(s: Seq<char>, sep: char) -> Option<(Seq<char>, Seq<char>)> {
    let i = index_where(s, is_char(sep)) as int;
    if i < s.len() {
        Some((s.take(i), s.skip(i + 1)))
    } else {
        None
    }
}

/// The pieces of `s` between the occurrences of `sep`.
pub fn pieces(s: &str, sep: char) -> (r: Vec<String>)
    ensures
        views(r@) == split(s@, sep),
{
    let v = chars_of(s);
    let n = v.len();
    let mut r: Vec<String> = Vec::new();
    let mut at: usize = 0;
    assert(s@.skip(0) =~= s@);
    assert(views(r@) + split(s@.skip(0), sep) =~= split(s@, sep));
    loop
        invariant
            at <= n == v@.len(),
            v@ == s@,
            views(r@) + split(s@.skip(at as int), sep) == split(s@, sep),
        decreases n - at,
    {
        let i = position_of(&v, at, n, sep);
        assert(v@.subrange(at as int, n as int) =~= s@.skip(at as int));
        let ghost before = views(r@);
        let ghost rest = s@.skip(at as int);
        r.push(string_of(&v, at, i));
        if i < n {
            assert(rest.take(i - at) =~= s@.subrange(at as int, i as int));
            assert(rest.skip(i - at + 1) =~= s@.skip(i + 1));
            assert(views(r@) + split(s@.skip(i + 1), sep) =~= before + split(rest, sep));
            at = i + 1;
        } else {
            assert(s@.subrange(at as int, i as int) =~= rest);
            assert(views(r@) =~= before + split(rest, sep));
            return r;
        }
    }
}

/// The lines of `s`.
pub fn lines_of(s: &str) -> (r: Vec<String>)
    ensures
        views(r@) == lines(s@),
{
    let v = chars_of(s);
    let n = v.len();
    let mut r: Vec<String> = Vec::new();
    let mut at: usize = 0;
    assert(s@.skip(0) =~= s@);
    assert(views(r@) + lines(s@.skip(0)) =~= lines(s@));
    while at < n
        invariant
            at <= n == v@.len(),
            v@ == s@,
            views(r@) + lines(s@.skip(at as int)) == lines(s@),
        decreases n - at,
    {
        let i = position_of(&v, at, n, '\n');
        assert(v@.subrange(at as int, n as int) =~= s@.skip(at as int));
        let ghost before = views(r@);
        let ghost rest = s@.skip(at as int);
        if i < n {
            assert(rest.take(i - at) =~= s@.subrange(at as int, i as int));
            assert(rest.skip(i - at + 1) =~= s@.skip(i + 1));
            let end: usize = if i > at && v[i - 1] == '\r' { i - 1 } else { i };
            assert(strip_cr(rest.take(i - at)) =~= s@.subrange(at as int, end as int));
            r.push(string_of(&v, at, end));
            assert(views(r@) + lines(s@.skip(i + 1)) =~= before + lines(rest));
            at = i + 1;
        } else {
            r.push(string_of(&v, at, n));
            assert(s@.subrange(at as int, n as int) =~= rest);
            assert(views(r@) =~= before + lines(rest));
            at = n;
            assert(s@.skip(n as int).len() == 0);
            assert(views(r@) + lines(s@.skip(n as int)) =~= views(r@));
        }
    }
    assert(s@.skip(at as int).len() == 0);
    assert(views(r@) =~= views(r@) + lines(s@.skip(at as int)));
    r
}

/// The maximal runs of characters of `s` that are not white space.
pub fn words_of(s: &str) -> (r: Vec<String>)
    ensures
        views(r@) == words(s@),
{
    let v = chars_of(s);
    let n = v.len();
    let mut r: Vec<String> = Vec::new();
    let mut at: usize = 0;
    assert(s@.skip(0) =~= s@);
    assert(views(r@) + words(s@.skip(0)) =~= words(s@));
    while at < n
        invariant
            at <= n == v@.len(),
            v@ == s@,
            views(r@) + words(s@.skip(at as int)) == words(s@),
        decreases n - at,
    {
        let ghost rest = s@.skip(at as int);
        if char_is_space(v[at]) {
            assert(rest.skip(1) =~= s@.skip(at + 1));
            at = at + 1;
        } else {
            let i = position(&v, at, n, |c: char| -> (b: bool) ensures b == is_space(c) { char_is_space(c) }, Ghost(space()));
            assert(v@.subrange(at as int, n as int) =~= rest);
            proof {
                lemma_index_where(rest, space());
            }
            let ghost before = views(r@);
            r.push(string_of(&v, at, i));
            assert(rest.take(i - at) =~= s@.subrange(at as int, i as int));
            assert(rest.skip(i - at) =~= s@.skip(i as int));
            assert(views(r@) + words(s@.skip(i as int)) =~= before + words(rest));
            at = i;
        }
    }
    assert(s@.skip(at as int).len() == 0);
    assert(views(r@) =~= views(r@) + words(s@.skip(at as int)));
    r
}

/// `s` cut at the first `sep`.
pub fn cut_once(s: &str, sep: char) -> (r: Option<(String, String)>)
    ensures
        match r {
            Some(p) => split_once(s@, sep) == Some((p.0@, p.1@)),
            None => split_once(s@, sep) is None,
        },
{
    let v = chars_of(s);
    let n = v.len();
    let i = position_of(&v, 0, n, sep);
    assert(v@.subrange(0, n as int) =~= s@);
    if i < n {
        let a = string_of(&v, 0, i);
        let b = string_of(&v, i + 1, n);
        assert(a@ =~= s@.take(i as int));
        assert(b@ =~= s@.skip(i + 1));
        Some((a, b))
    } else {
        None
    }
}

/// The predicate "is neither a letter nor a digit".
pub open spec fn not_alnum() -> spec_fn(char) -> bool {
    |c: char| !is_alphanumeric(c)
}

/// The maximal runs of letters and digits of `s`.
pub open spec fn terms(s: Seq<char>) -> Seq<Seq<char>>
    decreases s.len(),
    via terms_shrink
{
    if s.len() == 0 {
        seq![]
    } else if !is_alphanumeric(s[0]) {
        terms(s.skip(1))
    } else {
        let n = index_where(s, not_alnum()) as int;
        seq![s.take(n)] + terms(s.skip(n))
    }
}

#[via_fn]
proof fn terms_shrink(s: Seq<char>) {
    lemma_index_where(s, not_alnum());
}

/// The maximal runs of letters and digits of `s`.
pub fn terms_of(s: &str) -> (r: Vec<String>)
    ensures
        views(r@) == terms(s@),
{
    let v = chars_of(s);
    let n = v.len();
    let mut r: Vec<String> = Vec::new();
    let mut at: usize = 0;
    assert(s@.skip(0) =~= s@);
    assert(views(r@) + terms(s@.skip(0)) =~= terms(s@));
    while at < n
        invariant
            at <= n == v@.len(),
            v@ == s@,
            views(r@) + terms(s@.skip(at as int)) == terms(s@),
        decreases n - at,
    {
        let ghost rest = s@.skip(at as int);
        if !v[at].is_alphanumeric() {
            assert(rest.skip(1) =~= s@.skip(at + 1));
            at = at + 1;
        } else {
            let i = position(&v, at, n, |c: char| -> (b: bool) ensures b == !is_alphanumeric(c) { !c.is_alphanumeric() }, Ghost(not_alnum()));
            assert(v@.subrange(at as int, n as int) =~= rest);
            proof {
                lemma_index_where(rest, not_alnum());
            }
            let ghost before = views(r@);
            r.push(string_of(&v, at, i));
            assert(rest.take(i - at) =~= s@.subrange(at as int, i as int));
            assert(rest.skip(i - at) =~= s@.skip(i as int));
            assert(views(r@) + terms(s@.skip(i as int)) =~= before + terms(rest));
            at = i;
        }
    }
    assert(s@.skip(at as int).len() == 0);
    assert(views(r@) =~= views(r@) + terms(s@.skip(at as int)));
    r
}

/// `s` from `at` on, cut at every occurrence of `pat`.
pub open spec fn split_from(s: Seq<char>, pat: Seq<char>, at: int) -> Seq<Seq<char>>
    decreases s.len() - at,
    via split_from_shrinks
{
    if pat.len() == 0 || at < 0 {
        seq![s.skip(at)]
    } else {
        match find_from(s, pat, at) {
            Some(i) => seq![s.subrange(at, i)] + split_from(s, pat, i + pat.len()),
            None => seq![s.skip(at)],
        }
    }
}

#[via_fn]
proof fn split_from_shrinks(s: Seq<char>, pat: Seq<char>, at: int) {
    if at >= 0 {
        lemma_find_from(s, pat, at);
    }
}

/// `s`, cut at every occurrence of `pat`.
pub fn pieces_between(s: &str, pat: &str) -> (r: Vec<String>)
    requires
        pat@.len() > 0,
    ensures
        views(r@) == split_from(s@, pat@, 0),
{
    let v = chars_of(s);
    let p = chars_of(pat);
    let n = v.len();
    let mut r: Vec<String> = Vec::new();
    let mut at: usize = 0;
    assert(views(r@) + split_from(s@, pat@, 0) =~= split_from(s@, pat@, 0));
    loop
        invariant
            at <= n == v@.len(),
            v@ == s@,
            p@ == pat@,
            pat@.len() > 0,
            views(r@) + split_from(s@, pat@, at as int) == split_from(s@, pat@, 0),
        decreases n - at,
    {
        let ghost before = views(r@);
        match index_from(&v, &p, at) {
            None => {
                r.push(string_of(&v, at, n));
                assert(s@.subrange(at as int, n as int) =~= s@.skip(at as int));
                assert(views(r@) =~= before + split_from(s@, pat@, at as int));
                return r;
            },
            Some(i) => {
                r.push(string_of(&v, at, i));
                assert(views(r@) + split_from(s@, pat@, i + pat@.len()) =~= before + split_from(
                    s@,
                    pat@,
                    at as int,
                ));
                at = i + p.len();
            },
        }
    }
}

/// `s` without anything but letters and digits at either end.
pub open spec fn trim_marks(s: Seq<char>) -> Seq<char> {
    skip_while_end(skip_while(s, not_alnum()), not_alnum())
}

/// `s` without anything but letters and digits at either end.
pub fn trimmed_marks(s: &str) -> (r: String)
    ensures
        r@ == trim_marks(s@),
{
    let v = chars_of(s);
    let n = v.len();
    let i = skip_from(&v, 0, n, |c: char| -> (b: bool) ensures b == !is_alphanumeric(c) { !c.is_alphanumeric() }, Ghost(not_alnum()));
    let j = skip_back(&v, i, n, |c: char| -> (b: bool) ensures b == !is_alphanumeric(c) { !c.is_alphanumeric() }, Ghost(not_alnum()));
    assert(v@.subrange(0, n as int) =~= s@);
    string_of(&v, i, j)
}

/// `s` cut at the first occurrences of `sep` into at most `n` pieces.
pub open spec fn split_at_most(s: Seq<char>, sep: char, n: nat) -> Seq<Seq<char>>
    decreases n,
{
    let i = index_where(s, is_char(sep)) as int;
    if n <= 1 || i >= s.len() {
        seq![s]
    } else {
        seq![s.take(i)] + split_at_most(s.skip(i + 1), sep, (n - 1) as nat)
    }
}

/// `s` cut at the first occurrences of `sep` into at most `n` pieces.
pub fn pieces_at_most(s: &str, sep: char, n: usize) -> (r: Vec<String>)
    ensures
        views(r@) == split_at_most(s@, sep, n as nat),
{
    let v = chars_of(s);
    let len = v.len();
    let mut r: Vec<String> = Vec::new();
    let mut at: usize = 0;
    let mut left: usize = n;
    assert(s@.skip(0) =~= s@);
    assert(views(r@) + split_at_most(s@.skip(0), sep, n as nat) =~= split_at_most(s@, sep, n as nat));
    while left > 1
        invariant
            at <= len == v@.len(),
            v@ == s@,
            views(r@) + split_at_most(s@.skip(at as int), sep, left as nat) == split_at_most(
                s@,
                sep,
                n as nat,
            ),
        decreases left,
    {
        let i = position_of(&v, at, len, sep);
        assert(v@.subrange(at as int, len as int) =~= s@.skip(at as int));
        let ghost before = views(r@);
        let ghost rest = s@.skip(at as int);
        r.push(string_of(&v, at, i));
        if i >= len {
            assert(s@.subrange(at as int, i as int) =~= rest);
            assert(views(r@) =~= before + split_at_most(rest, sep, left as nat));
            return r;
        }
        assert(rest.take(i - at) =~= s@.subrange(at as int, i as int));
        assert(rest.skip(i - at + 1) =~= s@.skip(i + 1));
        assert(views(r@) + split_at_most(s@.skip(i + 1), sep, (left - 1) as nat) =~= before
            + split_at_most(rest, sep, left as nat));
        at = i + 1;
        left = left - 1;
    }
    let ghost before = views(r@);
    r.push(string_of(&v, at, len));
    assert(s@.subrange(at as int, len as int) =~= s@.skip(at as int));
    assert(views(r@) =~= before + split_at_most(s@.skip(at as int), sep, left as nat));
    r
}

// ---- joining ----------------------------------------------------------------

/// The texts of `v` with `sep` between each two.
pub fn joined(v: &Vec<String>, sep: &str) -> (r: String)
    ensures
        r@ == join(views(v@), sep@),
{
    joined_range(v, 0, v.len(), sep)
}

/// The texts `v[from..to]` with `sep` between each two.
pub fn joined_range(v: &Vec<String>, from: usize, to: usize, sep: &str) -> (r: String)
    requires
        from <= to <= v@.len(),
    ensures
        r@ == join(views(v@).subrange(from as int, to as int), sep@),
        from == 0 && to == v@.len() ==> r@ == join(views(v@), sep@),
{
    let mut r = String::new();
    let mut i: usize = from;
    while i < to
        invariant
            from <= i <= to <= v@.len(),
            r@ == join(views(v@).subrange(from as int, i as int), sep@),
        decreases to - i,
    {
        if i > from {
            r.append(sep);
        }
        r.append(v[i].as_str());
        assert(views(v@).subrange(from as int, i + 1) =~= views(v@).subrange(from as int, i as int).push(
            v@[i as int]@,
        ));
        assert(i == from ==> r@ =~= v@[i as int]@);
        i = i + 1;
    }
    assert(from == 0 && to == v@.len() ==> views(v@).subrange(0, to as int) =~= views(v@));
    r
}

// ---- replacing --------------------------------------------------------------

/// `s` with `to` before its first character and behind each one.
pub open spec fn intersperse(s: Seq<char>, to: Seq<char>) -> Seq<char>
    decreases s.len(),
{
    if s.len() == 0 {
        to
    } else {
        to + seq![s[0]] + intersperse(s.skip(1), to)
    }
}

/// `s` with every occurrence of `from`, taken from the left without overlap,
/// replaced by `to`. An empty `from` occurs before each character and at the end.
pub open spec fn replace(s: Seq<char>, from: Seq<char>, to: Seq<char>) -> Seq<char>
    decreases s.len(),
{
    if from.len() == 0 {
        intersperse(s, to)
    } else if s.len() == 0 {
        s
    } else if starts_with(s, from) {
        to + replace(s.skip(from.len() as int), from, to)
    } else {
        seq![s[0]] + replace(s.skip(1), from, to)
    }
}

/// How many occurrences of `pat`, taken from the left without overlap, `s` holds.
pub open spec fn count_matches(s: Seq<char>, pat: Seq<char>) -> nat
    decreases s.len(),
{
    if pat.len() == 0 {
        s.len() + 1
    } else if s.len() == 0 {
        0
    } else if starts_with(s, pat) {
        1 + count_matches(s.skip(pat.len() as int), pat)
    } else {
        count_matches(s.skip(1), pat)
    }
}

/// `s` with the first occurrence of `from` replaced by `to`.
pub open spec fn replace_first(s: Seq<char>, from: Seq<char>, to: Seq<char>) -> Seq<char> {
    match find(s, from) {
        Some(i) => s.take(i) + to + s.skip(i + from.len()),
        None => s,
    }
}

fn push_range(out: &mut String, v: &Vec<char>, from: usize, to: usize)
    requires
        from <= to <= v@.len(),
    ensures
        final(out)@ == old(out)@ + v@.subrange(from as int, to as int),
{
    let t = string_of(v, from, to);
    out.append(t.as_str());
}

/// `s` with every occurrence of `from` replaced by `to`.
pub fn replaced(s: &str, from: &str, to: &str) -> (r: String)
    ensures
        r@ == replace(s@, from@, to@),
{
    let v = chars_of(s);
    let p = chars_of(from);
    let n = v.len();
    let mut out = String::new();
    let mut at: usize = 0;
    assert(s@.skip(0) =~= s@);
    if p.len() == 0 {
        assert(out@ + intersperse(s@.skip(0), to@) =~= intersperse(s@, to@));
        while at < n
            invariant
                at <= n == v@.len(),
                v@ == s@,
                out@ + intersperse(s@.skip(at as int), to@) == intersperse(s@, to@),
            decreases n - at,
        {
            let ghost before = out@;
            let ghost rest = s@.skip(at as int);
            out.append(to);
            out.push(v[at]);
            assert(rest.skip(1) =~= s@.skip(at + 1));
            assert(out@ + intersperse(s@.skip(at + 1), to@) =~= before + intersperse(rest, to@));
            at = at + 1;
        }
        out.append(to);
        return out;
    }
    assert(out@ + replace(s@.skip(0), from@, to@) =~= replace(s@, from@, to@));
    while at < n
        invariant
            at <= n == v@.len(),
            v@ == s@,
            p@ == from@,
            p@.len() > 0,
            out@ + replace(s@.skip(at as int), from@, to@) == replace(s@, from@, to@),
        decreases n - at,
    {
        let ghost before = out@;
        let ghost rest = s@.skip(at as int);
        assert(rest.len() >= p@.len() ==> rest.take(p@.len() as int) =~= v@.subrange(at as int, at + p@.len()));
        if stands_at(&v, &p, at) {
            out.append(to);
            assert(rest.skip(p@.len() as int) =~= s@.skip(at + p@.len()));
            assert(out@ + replace(s@.skip(at + p@.len()), from@, to@) =~= before + replace(rest, from@, to@));
            at = at + p.len();
        } else {
            out.push(v[at]);
            assert(rest.skip(1) =~= s@.skip(at + 1));
            assert(out@ + replace(s@.skip(at + 1), from@, to@) =~= before + replace(rest, from@, to@));
            at = at + 1;
        }
    }
    assert(s@.skip(at as int).len() == 0);
    assert(out@ =~= out@ + replace(s@.skip(at as int), from@, to@));
    out
}

/// How many occurrences of `pat`, taken from the left without overlap, `s`
/// holds; the largest machine number where that does not fit.
pub fn matches_in(s: &str, pat: &str) -> (r: usize)
    ensures
        r == if count_matches(s@, pat@) <= usize::MAX { count_matches(s@, pat@) } else { usize::MAX as nat },
{
    let v = chars_of(s);
    let p = chars_of(pat);
    let n = v.len();
    if p.len() == 0 {
        return n.saturating_add(1);
    }
    let mut count: usize = 0;
    let mut at: usize = 0;
    assert(s@.skip(0) =~= s@);
    while at < n
        invariant
            at <= n == v@.len(),
            v@ == s@,
            p@ == pat@,
            p@.len() > 0,
            count <= at,
            count + count_matches(s@.skip(at as int), pat@) == count_matches(s@, pat@),
        decreases n - at,
    {
        let ghost rest = s@.skip(at as int);
        assert(rest.len() >= p@.len() ==> rest.take(p@.len() as int) =~= v@.subrange(at as int, at + p@.len()));
        if stands_at(&v, &p, at) {
            assert(rest.skip(p@.len() as int) =~= s@.skip(at + p@.len()));
            at = at + p.len();
            count = count + 1;
        } else {
            assert(rest.skip(1) =~= s@.skip(at + 1));
            at = at + 1;
        }
    }
    assert(s@.skip(at as int).len() == 0);
    count
}

/// `s` with the first occurrence of `from` replaced by `to`.
pub fn replaced_first(s: &str, from: &str, to: &str) -> (r: String)
    ensures
        r@ == replace_first(s@, from@, to@),
{
    let v = chars_of(s);
    let p = chars_of(from);
    match index_from(&v, &p, 0) {
        None => s.to_owned(),
        Some(i) => {
            let mut out = string_of(&v, 0, i);
            out.append(to);
            let n = v.len();
            push_range(&mut out, &v, i + p.len(), n);
            assert(s@.take(i as int) =~= s@.subrange(0, i as int));
            assert(s@.skip(i + from@.len()) =~= s@.subrange(i + from@.len(), s@.len() as int));
            out
        },
    }
}

// ---- numbers ----------------------------------------------------------------

/// The digit character for `d`, below ten.
pub open spec fn digit_char(d: nat) -> char {
    (48 + d) as u8 as char
}

/// `n` in decimal.
pub open spec fn dec(n: nat) -> Seq<char>
    decreases n,
{
    if n < 10 {
        seq![digit_char(n)]
    } else {
        dec(n / 10).push(digit_char(n % 10))
    }
}

/// An integer in decimal, with a minus sign below zero.
pub open spec fn dec_int(n: int) -> Seq<char> {
    if n < 0 {
        seq!['-'] + dec((-n) as nat)
    } else {
        dec(n as nat)
    }
}

/// `n` in decimal.
pub fn decimal(n: u128) -> (r: String)
    ensures
        r@ == dec(n as nat),
    decreases n,
{
    let c = (48 + (n % 10) as u8) as char;
    if n < 10 {
        let mut s = String::new();
        s.push(c);
        assert(s@ =~= seq![digit_char(n as nat)]);
        s
    } else {
        let mut s = decimal(n / 10);
        s.push(c);
        s
    }
}

/// `n` in decimal.
pub fn decimal_int(n: i64) -> (r: String)
    ensures
        r@ == dec_int(n as int),
{
    if n < 0 {
        let mut s = String::new();
        s.push('-');
        assert(s@ =~= seq!['-']);
        let t = decimal((-(n as i128)) as u128);
        s.append(t.as_str());
        s
    } else {
        decimal(n as u128)
    }
}

/// The value of a string of decimal digits.
pub open spec fn digits_value(s: Seq<char>) -> nat
    decreases s.len(),
{
    if s.len() == 0 {
        0
    } else {
        digits_value(s.drop_last()) * 10 + (s.last() as nat - 48) as nat
    }
}

/// Is `s` made of decimal digits, at least one?
pub open spec fn all_digits(s: Seq<char>) -> bool {
    s.len() > 0 && forall|i: int| 0 <= i < s.len() ==> is_digit(#[trigger] s[i])
}

/// The number that `s` spells in decimal, with an optional plus sign, where it is
/// at most `max`.
pub open spec fn parse_nat(s: Seq<char>, max: nat) -> Option<nat> {
    let t = if s.len() > 0 && s[0] == '+' { s.skip(1) } else { s };
    if all_digits(t) && digits_value(t) <= max {
        Some(digits_value(t))
    } else {
        None
    }
}

proof fn lemma_digits_grow(s: Seq<char>, i: int)
    requires
        0 <= i <= s.len(),
    ensures
        digits_value(s.take(i)) <= digits_value(s),
    decreases s.len() - i,
{
    if i == s.len() {
        assert(s.take(i) =~= s);
    } else {
        lemma_digits_grow(s, i + 1);
        assert(s.take(i + 1).drop_last() =~= s.take(i));
    }
}

/// The number that `s` spells in decimal, with an optional plus sign, where it is
/// at most `max`.
pub fn parse_number(s: &str, max: u64) -> (r: Option<u64>)
    ensures
        match r {
            Some(n) => parse_nat(s@, max as nat) == Some(n as nat),
            None => parse_nat(s@, max as nat) is None,
        },
{
    let v = chars_of(s);
    let n = v.len();
    let from: usize = if n > 0 && v[0] == '+' { 1 } else { 0 };
    let ghost t = s@.skip(from as int);
    assert(s@.skip(0) =~= s@);
    if from == n {
        return None;
    }
    let mut value: u64 = 0;
    let mut i: usize = from;
    assert(t.take(0).len() == 0);
    while i < n
        invariant
            from <= i <= n == v@.len(),
            v@ == s@,
            t == s@.skip(from as int),
            t == if s@.len() > 0 && s@[0] == '+' { s@.skip(1) } else { s@ },
            value as nat == digits_value(t.take(i - from)),
            value <= max,
            forall|j: int| 0 <= j < i - from ==> is_digit(#[trigger] t[j]),
        decreases n - i,
    {
        let c = v[i];
        assert(t[i - from] == c);
        if !('0' <= c && c <= '9') {
            assert(!is_digit(t[i - from]));
            return None;
        }
        let d: u64 = (c as u32 - 48) as u64;
        assert(t.take(i - from + 1).drop_last() =~= t.take(i - from));
        assert(t.take(i - from + 1).last() == c);
        let next: u128 = (value as u128) * 10 + d as u128;
        if next > max as u128 {
            proof {
                lemma_digits_grow(t, i - from + 1);
            }
            return None;
        }
        value = next as u64;
        i = i + 1;
    }
    assert(t.take(i - from) =~= t);
    Some(value)
}

/// Where the first character stands that is no digit, or the length.
pub open spec fn digits_end(s: Seq<char>) -> nat {
    index_where(s, |c: char| !is_digit(c))
}

/// Why `s` does not spell a number up to `max`: the first thing that is wrong with it,
/// from the left.
pub open spec fn number_fault(s: Seq<char>, max: nat) -> Seq<char> {
    let t = if s.len() > 1 && s[0] == '+' { s.skip(1) } else { s };
    let n = digits_end(t) as int;
    if s.len() == 0 {
        "cannot parse integer from empty string"@
    } else if n < t.len() && digits_value(t.take(n)) <= max {
        "invalid digit found in string"@
    } else {
        "number too large to fit in target type"@
    }
}

/// Why `s` does not spell a number up to `max`.
pub fn fault_of(s: &str, max: u64) -> (r: &'static str)
    ensures
        r@ == number_fault(s@, max as nat),
{
    let v = chars_of(s);
    let n = v.len();
    if n == 0 {
        return "cannot parse integer from empty string";
    }
    let start: usize = if n > 1 && v[0] == '+' {
        1
    } else {
        0
    };
    let ghost t = s@.skip(start as int);
    assert(s@.skip(0) =~= s@);
    let mut k: usize = start;
    while k < n && '0' <= v[k] && v[k] <= '9'
        invariant
            start <= k <= n == v@.len(),
            v@ == s@,
            t == s@.skip(start as int),
            forall|i: int| 0 <= i < k - start ==> is_digit(#[trigger] t[i]),
        decreases n - k,
    {
        assert(t[k - start] == v@[k as int]);
        k = k + 1;
    }
    let ghost stop = |c: char| !is_digit(c);
    proof {
        if k < n {
            assert(t[k - start] == v@[k as int]);
        }
        lemma_index_where_unique(t, stop, (k - start) as nat);
    }
    if k == n {
        return "number too large to fit in target type";
    }
    if k == start {
        assert(t.take(0) =~= seq![]);
        assert(digits_value(t.take(0)) == 0);
        return "invalid digit found in string";
    }
    let digits = string_of(&v, start, k);
    assert(digits@ =~= t.take(k - start));
    assert(digits@[0] == t[0]);
    assert(all_digits(digits@));
    if parse_number(digits.as_str(), max).is_some() {
        "invalid digit found in string"
    } else {
        "number too large to fit in target type"
    }
}

/// The integer that `s` spells in decimal, with an optional sign, where it fits into
/// 64 bits.
pub open spec fn parse_int(s: Seq<char>) -> Option<int> {
    if s.len() > 0 && s[0] == '-' {
        let t = s.skip(1);
        if all_digits(t) && digits_value(t) <= 0x8000_0000_0000_0000 {
            Some(-(digits_value(t) as int))
        } else {
            None
        }
    } else {
        match parse_nat(s, 0x7fff_ffff_ffff_ffff) {
            Some(n) => Some(n as int),
            None => None,
        }
    }
}

/// The integer that `s` spells in decimal, with an optional sign.
pub fn parse_integer(s: &str) -> (r: Option<i64>)
    ensures
        match r {
            Some(n) => parse_int(s@) == Some(n as int),
            None => parse_int(s@) is None,
        },
{
    if s.unicode_len() > 0 && s.get_char(0) == '-' {
        let v = chars_of(s);
        let n = v.len();
        let t = string_of(&v, 1, n);
        assert(t@ =~= s@.skip(1));
        if n > 1 && v[1] == '+' {
            assert(!is_digit(t@[0]));
            return None;
        }
        match parse_number(t.as_str(), 0x8000_0000_0000_0000) {
            Some(k) => Some((-(k as i128)) as i64),
            None => None,
        }
    } else {
        match parse_number(s, 0x7fff_ffff_ffff_ffff) {
            Some(k) => Some(k as i64),
            None => None,
        }
    }
}

// ---- lengths ----------------------------------------------------------------

/// How many bytes a character takes in UTF-8.
pub open spec fn width(c: char) -> nat {
    if (c as u32) < 0x80 {
        1
    } else if (c as u32) < 0x800 {
        2
    } else if (c as u32) < 0x10000 {
        3
    } else {
        4
    }
}

/// How many bytes a text takes in UTF-8.
pub open spec fn byte_len(s: Seq<char>) -> nat
    decreases s.len(),
{
    if s.len() == 0 {
        0
    } else {
        byte_len(s.drop_last()) + width(s.last())
    }
}

/// How many bytes `c` takes in UTF-8.
pub fn char_width(c: char) -> (n: usize)
    ensures
        n == width(c),
        1 <= n <= 4,
{
    if (c as u32) < 0x80 {
        1
    } else if (c as u32) < 0x800 {
        2
    } else if (c as u32) < 0x10000 {
        3
    } else {
        4
    }
}

/// A text takes as many bytes as its encoding has.
pub proof fn lemma_byte_len(s: Seq<char>)
    ensures
        byte_len(s) == vstd::utf8::encode_utf8(s).len(),
    decreases s.len(),
{
    if s.len() > 0 {
        let first = seq![s[0]];
        let rest = s.drop_first();
        lemma_byte_len(rest);
        lemma_byte_len_cat(first, rest);
        assert(first + rest =~= s);
        assert(byte_len(first.drop_last()) == 0);
        assert(first.last() == s[0]);
        vstd::utf8::char_is_scalar(s[0]);
    }
}

/// How many bytes `s` takes in UTF-8.
pub fn utf8_len(s: &str) -> (n: u128)
    ensures
        n == byte_len(s@),
        n <= usize::MAX,
{
    proof {
        lemma_byte_len(s@);
    }
    s.as_bytes().len() as u128
}

/// How many characters of `s` fit into `max` bytes.
pub open spec fn fitting(s: Seq<char>, max: nat) -> nat
    decreases s.len(),
{
    if s.len() == 0 || byte_len(s) <= max {
        s.len()
    } else {
        fitting(s.drop_last(), max)
    }
}

/// The bytes of two texts, one behind the other.
pub proof fn lemma_byte_len_cat(a: Seq<char>, b: Seq<char>)
    ensures
        byte_len(a + b) == byte_len(a) + byte_len(b),
    decreases b.len(),
{
    if b.len() == 0 {
        assert(a + b =~= a);
    } else {
        assert((a + b).drop_last() =~= a + b.drop_last());
        lemma_byte_len_cat(a, b.drop_last());
    }
}

/// A longer text takes no fewer bytes.
pub proof fn lemma_byte_len_grows(s: Seq<char>, i: int, j: int)
    requires
        0 <= i <= j <= s.len(),
    ensures
        byte_len(s.take(i)) <= byte_len(s.take(j)),
        j - i <= byte_len(s.take(j)) - byte_len(s.take(i)),
    decreases j - i,
{
    if i < j {
        lemma_byte_len_grows(s, i, j - 1);
        assert(s.take(j).drop_last() =~= s.take(j - 1));
    }
}

proof fn lemma_fitting_is(s: Seq<char>, max: nat, n: int)
    requires
        0 <= n <= s.len(),
        byte_len(s.take(n)) <= max,
        n < s.len() ==> byte_len(s.take(n + 1)) > max,
    ensures
        fitting(s, max) == n,
    decreases s.len(),
{
    assert(s.take(s.len() as int) =~= s);
    if n < s.len() {
        lemma_byte_len_grows(s, n + 1, s.len() as int);
        let t = s.drop_last();
        assert(t.take(n) =~= s.take(n));
        if n < t.len() {
            assert(t.take(n + 1) =~= s.take(n + 1));
        }
        lemma_fitting_is(t, max, n);
    }
}

/// How many characters of `v` fit into `max` bytes, and how many bytes they take.
pub fn fit(v: &Vec<char>, max: usize) -> (r: (usize, usize))
    ensures
        r.0 == fitting(v@, max as nat),
        r.0 <= v@.len(),
        r.1 == byte_len(v@.take(r.0 as int)),
        r.1 <= max,
{
    let mut n: usize = 0;
    let mut used: usize = 0;
    assert(v@.take(0).len() == 0);
    while n < v.len()
        invariant
            n <= v@.len(),
            used == byte_len(v@.take(n as int)),
            used <= max,
        decreases v.len() - n,
    {
        let w = char_width(v[n]);
        assert(v@.take(n + 1).drop_last() =~= v@.take(n as int));
        if w > max - used {
            proof {
                lemma_fitting_is(v@, max as nat, n as int);
            }
            return (n, used);
        }
        used = used + w;
        n = n + 1;
    }
    proof {
        lemma_fitting_is(v@, max as nat, n as int);
    }
    (n, used)
}

} // verus!
