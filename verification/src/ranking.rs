//! Putting a list in order without moving what ranks alike.
use vstd::multiset::Multiset;
use vstd::prelude::*;

verus! {

/// Where `x` goes in a ranked list: before the first that it must precede.
pub open spec fn place<T>(s: Seq<T>, x: T, before: spec_fn(T, T) -> bool) -> nat
    decreases s.len(),
{
    if s.len() == 0 || before(x, s[0]) {
        0
    } else {
        1 + place(s.drop_first(), x, before)
    }
}

/// The ranked list with `x` at its place.
pub open spec fn placed<T>(s: Seq<T>, x: T, before: spec_fn(T, T) -> bool) -> Seq<T> {
    s.insert(place(s, x, before) as int, x)
}

/// The list in order: what ranks alike stays as it stood.
pub open spec fn ranked<T>(s: Seq<T>, before: spec_fn(T, T) -> bool) -> Seq<T>
    decreases s.len(),
{
    if s.len() == 0 {
        seq![]
    } else {
        placed(ranked(s.drop_last(), before), s.last(), before)
    }
}

pub proof fn lemma_place<T>(s: Seq<T>, x: T, before: spec_fn(T, T) -> bool)
    ensures
        place(s, x, before) <= s.len(),
        place(s, x, before) < s.len() ==> before(x, s[place(s, x, before) as int]),
        forall|i: int| 0 <= i < place(s, x, before) ==> !before(x, s[i]),
    decreases s.len(),
{
    if s.len() > 0 && !before(x, s[0]) {
        lemma_place(s.drop_first(), x, before);
        assert forall|i: int| 0 <= i < place(s, x, before) implies !before(x, s[i]) by {
            if i > 0 {
                assert(s[i] == s.drop_first()[i - 1]);
            }
        }
    }
}

proof fn lemma_place_is<T>(s: Seq<T>, x: T, before: spec_fn(T, T) -> bool, n: nat)
    requires
        n <= s.len(),
        n < s.len() ==> before(x, s[n as int]),
        forall|i: int| 0 <= i < n ==> !before(x, s[i]),
    ensures
        place(s, x, before) == n,
{
    lemma_place(s, x, before);
    let m = place(s, x, before);
    if m < n {
        assert(!before(x, s[m as int]));
    } else if n < m {
        assert(!before(x, s[n as int]));
    }
}

/// The list in order: `precedes` says what must precede what.
pub(crate) fn in_rank<T, F: Fn(&T, &T) -> bool>(
    v: Vec<T>,
    precedes: F,
    Ghost(before): Ghost<spec_fn(T, T) -> bool>,
) -> (r: Vec<T>)
    requires
        forall|a: T, b: T| #[trigger] precedes.requires((&a, &b)),
        forall|a: T, b: T, c: bool| #[trigger] precedes.ensures((&a, &b), c) ==> c == before(a, b),
    ensures
        r@ == ranked(v@, before),
{
    let ghost all = v@;
    let mut rest = v;
    let mut r: Vec<T> = Vec::new();
    let ghost mut done: nat = 0;
    while rest.len() > 0
        invariant
            forall|a: T, b: T| #[trigger] precedes.requires((&a, &b)),
            forall|a: T, b: T, c: bool| #[trigger]
                precedes.ensures((&a, &b), c) ==> c == before(a, b),
            done <= all.len(),
            rest@ == all.skip(done as int),
            r@ == ranked(all.take(done as int), before),
        decreases rest.len(),
    {
        let x = rest.remove(0);
        assert(x == all[done as int]);
        let mut i: usize = 0;
        while i < r.len() && !precedes(&x, &r[i])
            invariant
                forall|a: T, b: T| #[trigger] precedes.requires((&a, &b)),
                forall|a: T, b: T, c: bool| #[trigger]
                    precedes.ensures((&a, &b), c) ==> c == before(a, b),
                i <= r@.len(),
                forall|j: int| 0 <= j < i ==> !before(x, r@[j]),
            decreases r.len() - i,
        {
            i = i + 1;
        }
        proof {
            lemma_place_is(r@, x, before, i as nat);
        }
        r.insert(i, x);
        proof {
            let next = all.take(done as int + 1);
            assert(next.drop_last() =~= all.take(done as int));
            assert(next.last() == x);
            done = done + 1;
            assert(rest@ =~= all.skip(done as int));
        }
    }
    assert(all.take(done as int) =~= all);
    r
}

/// What must precede is an order in which some may rank alike.
pub open spec fn is_ranking<T>(before: spec_fn(T, T) -> bool) -> bool {
    &&& forall|a: T, b: T| #[trigger] before(a, b) ==> !before(b, a)
    &&& forall|a: T, b: T, c: T|
        !(#[trigger] before(a, b)) && !(#[trigger] before(b, c)) ==> !before(a, c)
}

/// A ranked list holds the same elements, and none stands behind one that it must
/// precede.
pub proof fn ranking_puts_in_order<T>(s: Seq<T>, before: spec_fn(T, T) -> bool)
    requires
        is_ranking(before),
    ensures
        ranked(s, before).to_multiset() == s.to_multiset(),
        ranked(s, before).len() == s.len(),
        forall|i: int, j: int|
            0 <= i < j < s.len() ==> !before(
                #[trigger] ranked(s, before)[j],
                #[trigger] ranked(s, before)[i],
            ),
    decreases s.len(),
{
    if s.len() == 0 {
        assert(ranked(s, before) =~= s);
    } else {
        let t = s.drop_last();
        let x = s.last();
        ranking_puts_in_order(t, before);
        let q = ranked(t, before);
        lemma_place(q, x, before);
        let n = place(q, x, before) as int;
        let r = ranked(s, before);
        assert(r =~= q.insert(n, x));
        assert(r =~= q.take(n) + seq![x] + q.skip(n));
        assert(q =~= q.take(n) + q.skip(n));
        q.to_multiset_ensures();
        t.to_multiset_ensures();
        assert(s =~= t.push(x));
        assert(q.insert(n, x).to_multiset() =~= q.to_multiset().insert(x)) by {
            q.insert_ensures(n, x);
            vstd::seq_lib::lemma_multiset_commutative(q.take(n) + seq![x], q.skip(n));
            vstd::seq_lib::lemma_multiset_commutative(q.take(n), seq![x]);
            vstd::seq_lib::lemma_multiset_commutative(q.take(n), q.skip(n));
            seq![x].to_multiset_ensures();
            Seq::<T>::empty().to_multiset_ensures();
            assert(seq![x] =~= Seq::<T>::empty().push(x));
            assert(seq![x].to_multiset() =~= Multiset::empty().insert(x));
        }
        assert forall|i: int, j: int| 0 <= i < j < s.len() implies !before(
            #[trigger] r[j],
            #[trigger] r[i],
        ) by {
            if j < n {
                assert(!before(q[j], q[i]));
            } else if j == n {
                assert(!before(x, q[i]));
            } else if i > n {
                assert(!before(q[j - 1], q[i - 1]));
            } else {
                assert(r[j] == q[j - 1]);
                if i == n {
                    assert(before(x, q[n]));
                    assert(!before(q[n], x));
                    if j - 1 > n {
                        assert(!before(q[j - 1], q[n]));
                        assert(!before(q[j - 1], x));
                    }
                } else {
                    assert(!before(q[j - 1], q[i]));
                }
            }
        }
    }
}

proof fn lemma_place_map<T, U>(
    s: Seq<T>,
    x: T,
    f: spec_fn(T) -> U,
    before: spec_fn(T, T) -> bool,
    precedes: spec_fn(U, U) -> bool,
)
    requires
        forall|a: T, b: T| #[trigger] before(a, b) == precedes(f(a), f(b)),
    ensures
        place(s.map_values(f), f(x), precedes) == place(s, x, before),
    decreases s.len(),
{
    if s.len() > 0 && !before(x, s[0]) {
        assert(s.map_values(f).drop_first() =~= s.drop_first().map_values(f));
        lemma_place_map(s.drop_first(), x, f, before, precedes);
    }
}

/// Where an order looks only at what the elements say, what they say is ranked as they
/// are.
pub proof fn lemma_ranked_map<T, U>(
    s: Seq<T>,
    f: spec_fn(T) -> U,
    before: spec_fn(T, T) -> bool,
    precedes: spec_fn(U, U) -> bool,
)
    requires
        forall|a: T, b: T| #[trigger] before(a, b) == precedes(f(a), f(b)),
    ensures
        ranked(s, before).map_values(f) == ranked(s.map_values(f), precedes),
    decreases s.len(),
{
    if s.len() == 0 {
        assert(ranked(s, before).map_values(f) =~= ranked(s.map_values(f), precedes));
    } else {
        let t = s.drop_last();
        lemma_ranked_map(t, f, before, precedes);
        assert(s.map_values(f).drop_last() =~= t.map_values(f));
        let q = ranked(t, before);
        lemma_place_map(q, s.last(), f, before, precedes);
        lemma_place(q, s.last(), before);
        let n = place(q, s.last(), before) as int;
        assert(q.insert(n, s.last()).map_values(f) =~= q.map_values(f).insert(n, f(s.last())));
    }
}

} // verus!
