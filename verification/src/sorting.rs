//! Lists of texts in lexicographic order.
use vstd::prelude::*;
use vstd::string::*;

use crate::list::{group_lists, views};
use crate::text::chars_of;

verus! {

broadcast use group_lists;

/// `a` comes before `b` or is the same, character by character.
pub open spec fn at_most(a: Seq<char>, b: Seq<char>) -> bool
    decreases a.len(),
{
    if a.len() == 0 {
        true
    } else if b.len() == 0 {
        false
    } else if a[0] != b[0] {
        a[0] < b[0]
    } else {
        at_most(a.drop_first(), b.drop_first())
    }
}

/// Each text comes before the next or is the same.
pub open spec fn ordered(s: Seq<Seq<char>>) -> bool {
    forall|i: int, j: int| 0 <= i < j < s.len() ==> at_most(#[trigger] s[i], #[trigger] s[j])
}

pub proof fn lemma_total(a: Seq<char>, b: Seq<char>)
    ensures
        at_most(a, b) || at_most(b, a),
    decreases a.len(),
{
    if a.len() > 0 && b.len() > 0 && a[0] == b[0] {
        lemma_total(a.drop_first(), b.drop_first());
    }
}

pub proof fn lemma_antisymmetric(a: Seq<char>, b: Seq<char>)
    requires
        at_most(a, b),
        at_most(b, a),
    ensures
        a == b,
    decreases a.len(),
{
    if a.len() > 0 && b.len() > 0 {
        lemma_antisymmetric(a.drop_first(), b.drop_first());
        assert(a =~= seq![a[0]] + a.drop_first());
        assert(b =~= seq![b[0]] + b.drop_first());
    } else {
        assert(a =~= b);
    }
}

pub proof fn lemma_transitive(a: Seq<char>, b: Seq<char>, c: Seq<char>)
    requires
        at_most(a, b),
        at_most(b, c),
    ensures
        at_most(a, c),
    decreases a.len(),
{
    if a.len() > 0 && b.len() > 0 && c.len() > 0 && a[0] == b[0] && b[0] == c[0] {
        lemma_transitive(a.drop_first(), b.drop_first(), c.drop_first());
    }
}

/// Does `a` come before `b`, or are they the same?
pub fn is_at_most(a: &str, b: &str) -> (r: bool)
    ensures
        r == at_most(a@, b@),
{
    let x = chars_of(a);
    let y = chars_of(b);
    let mut i: usize = 0;
    assert(a@.skip(0) =~= a@);
    assert(b@.skip(0) =~= b@);
    while i < x.len() && i < y.len()
        invariant
            i <= x@.len(),
            i <= y@.len(),
            x@ == a@,
            y@ == b@,
            at_most(a@.skip(i as int), b@.skip(i as int)) == at_most(a@, b@),
        decreases x.len() - i,
    {
        if x[i] != y[i] {
            return x[i] < y[i];
        }
        assert(a@.skip(i as int).drop_first() =~= a@.skip(i + 1));
        assert(b@.skip(i as int).drop_first() =~= b@.skip(i + 1));
        i = i + 1;
    }
    i == x.len()
}

fn insert_ordered(v: &mut Vec<String>, x: String)
    requires
        ordered(views(old(v)@)),
    ensures
        ordered(views(final(v)@)),
        views(final(v)@).to_multiset() == views(old(v)@).to_multiset().insert(x@),
{
    let ghost before = views(v@);
    let mut i: usize = 0;
    while i < v.len() && is_at_most(v[i].as_str(), x.as_str())
        invariant
            i <= v@.len(),
            views(v@) == before,
            forall|j: int| 0 <= j < i ==> at_most(#[trigger] before[j], x@),
        decreases v.len() - i,
    {
        assert(before[i as int] == v@[i as int]@);
        i = i + 1;
    }
    let ghost t = x@;
    v.insert(i, x);
    let ghost after = views(v@);
    assert(after =~= before.insert(i as int, t));
    proof {
        before.to_multiset_ensures();
        vstd::seq_lib::to_multiset_insert(before, i as int, t);
        assert forall|a: int, b: int| 0 <= a < b < after.len() implies at_most(
            #[trigger] after[a],
            #[trigger] after[b],
        ) by {
            if i < before.len() {
                lemma_total(before[i as int], t);
                assert(at_most(t, before[i as int]));
            }
            if b < i {
                assert(at_most(before[a], before[b]));
            } else if b == i {
                assert(at_most(before[a], t));
            } else if a > i {
                assert(at_most(before[a - 1], before[b - 1]));
            } else {
                if b - 1 > i {
                    assert(at_most(before[i as int], before[b - 1]));
                    lemma_transitive(t, before[i as int], before[b - 1]);
                }
                if a < i {
                    assert(at_most(before[a], before[b - 1]));
                }
            }
        }
    }
}

/// The same texts, in order.
pub fn sorted_texts(v: Vec<String>) -> (r: Vec<String>)
    ensures
        ordered(views(r@)),
        views(r@).to_multiset() == views(v@).to_multiset(),
        r@.len() == v@.len(),
{
    let mut r: Vec<String> = Vec::new();
    let mut i: usize = 0;
    assert(views(v@).take(0) =~= views(r@));
    while i < v.len()
        invariant
            i <= v@.len(),
            ordered(views(r@)),
            views(r@).to_multiset() == views(v@).take(i as int).to_multiset(),
        decreases v.len() - i,
    {
        insert_ordered(&mut r, v[i].clone());
        proof {
            let s = views(v@);
            s.take(i as int).to_multiset_ensures();
            assert(s.take(i + 1) =~= s.take(i as int).push(s[i as int]));
        }
        i = i + 1;
    }
    proof {
        assert(views(v@).take(i as int) =~= views(v@));
        views(r@).to_multiset_ensures();
        views(v@).to_multiset_ensures();
    }
    r
}

} // verus!
