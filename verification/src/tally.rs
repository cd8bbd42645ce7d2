//! Counters and sets keyed by text.
use vstd::prelude::*;
use vstd::string::*;

use crate::list::{group_lists, views};
use crate::text::{any_same, same};

verus! {

broadcast use group_lists;

/// The index of the first entry for `k`, or the length.
spec fn first_key(e: Seq<(String, u32)>, k: Seq<char>) -> nat
    decreases e.len(),
{
    if e.len() == 0 || e[0].0@ == k {
        0
    } else {
        1 + first_key(e.drop_first(), k)
    }
}

/// The list, read as a map.
spec fn table(e: Seq<(String, u32)>) -> Map<Seq<char>, u32> {
    Map::new(
        |k: Seq<char>| first_key(e, k) < e.len(),
        |k: Seq<char>| e[first_key(e, k) as int].1,
    )
}

proof fn lemma_first_key(e: Seq<(String, u32)>, k: Seq<char>)
    ensures
        first_key(e, k) <= e.len(),
        first_key(e, k) < e.len() ==> e[first_key(e, k) as int].0@ == k,
        forall|i: int| 0 <= i < first_key(e, k) ==> #[trigger] e[i].0@ != k,
    decreases e.len(),
{
    if e.len() > 0 && e[0].0@ != k {
        lemma_first_key(e.drop_first(), k);
        assert forall|i: int| 0 <= i < first_key(e, k) implies #[trigger] e[i].0@ != k by {
            if i > 0 {
                assert(e[i] == e.drop_first()[i - 1]);
            }
        }
    }
}

proof fn lemma_first_key_is(e: Seq<(String, u32)>, k: Seq<char>, n: nat)
    requires
        n <= e.len(),
        n < e.len() ==> e[n as int].0@ == k,
        forall|i: int| 0 <= i < n ==> #[trigger] e[i].0@ != k,
    ensures
        first_key(e, k) == n,
{
    lemma_first_key(e, k);
    let m = first_key(e, k);
    if m < n {
        assert(e[m as int].0@ != k);
    } else if n < m {
        assert(e[n as int].0@ != k);
    }
}

/// A list that differs from `a` in its first entry for `k` alone is the table of
/// `a` with `k` put in.
proof fn lemma_table_insert(a: Seq<(String, u32)>, b: Seq<(String, u32)>, k: Seq<char>, n: u32)
    requires
        ({
            let i = first_key(a, k) as int;
            &&& i < b.len()
            &&& b.len() == if i < a.len() { a.len() } else { a.len() + 1 }
            &&& b[i].0@ == k
            &&& b[i].1 == n
            &&& forall|j: int| 0 <= j < b.len() && j != i ==> #[trigger] b[j] == a[j]
        }),
    ensures
        table(b) == table(a).insert(k, n),
{
    let i = first_key(a, k) as int;
    lemma_first_key(a, k);
    lemma_first_key_is(b, k, i as nat);
    let m = table(a).insert(k, n);
    assert forall|q: Seq<char>| q != k implies (first_key(b, q) < b.len() <==> first_key(a, q)
        < a.len()) && (first_key(a, q) < a.len() ==> first_key(b, q) == first_key(a, q)) by {
        lemma_first_key(a, q);
        let f = first_key(a, q);
        if f < a.len() {
            assert forall|j: int| 0 <= j < f implies #[trigger] b[j].0@ != q by {
                assert(a[j].0@ != q);
            }
            lemma_first_key_is(b, q, f);
        } else {
            assert forall|j: int| 0 <= j < b.len() implies #[trigger] b[j].0@ != q by {
                if j < a.len() {
                    assert(a[j].0@ != q);
                }
            }
            lemma_first_key_is(b, q, b.len());
        }
    }
    assert forall|q: Seq<char>| table(b).dom().contains(q) implies table(b)[q] == m[q] by {
        if q != k {
            lemma_first_key(a, q);
        }
    }
    assert(table(b) =~= m);
}

/// How often each of a number of texts was seen.
pub struct Tally {
    entries: Vec<(String, u32)>,
}

impl View for Tally {
    type V = Map<Seq<char>, u32>;

    closed spec fn view(&self) -> Map<Seq<char>, u32> {
        table(self.entries@)
    }
}

/// How often `k` was seen.
pub open spec fn seen(m: Map<Seq<char>, u32>, k: Seq<char>) -> u32 {
    if m.dom().contains(k) {
        m[k]
    } else {
        0
    }
}

/// `n` and one more, or the largest count there is.
pub open spec fn one_more(n: u32) -> u32 {
    if n < u32::MAX {
        (n + 1) as u32
    } else {
        n
    }
}

impl Tally {
    /// Nothing seen yet.
    pub fn new() -> (r: Tally)
        ensures
            r@ == Map::<Seq<char>, u32>::empty(),
    {
        let r = Tally { entries: Vec::new() };
        assert(r@ =~= Map::<Seq<char>, u32>::empty());
        r
    }

    /// How often `k` was seen.
    pub fn get(&self, k: &str) -> (n: u32)
        ensures
            n == seen(self@, k@),
    {
        let mut i: usize = 0;
        while i < self.entries.len()
            invariant
                i <= self.entries@.len(),
                forall|j: int| 0 <= j < i ==> #[trigger] self.entries@[j].0@ != k@,
            decreases self.entries.len() - i,
        {
            if same(self.entries[i].0.as_str(), k) {
                proof {
                    lemma_first_key_is(self.entries@, k@, i as nat);
                }
                return self.entries[i].1;
            }
            i = i + 1;
        }
        proof {
            lemma_first_key_is(self.entries@, k@, i as nat);
        }
        0
    }

    /// Count one more sighting of `k`, and say how many there have been.
    pub fn bump(&mut self, k: &str) -> (n: u32)
        ensures
            n == one_more(seen(old(self)@, k@)),
            final(self)@ == old(self)@.insert(k@, n),
    {
        let ghost before = self.entries@;
        let mut i: usize = 0;
        while i < self.entries.len()
            invariant
                i <= self.entries@.len(),
                self.entries@ == before,
                before == old(self).entries@,
                forall|j: int| 0 <= j < i ==> #[trigger] before[j].0@ != k@,
            decreases self.entries.len() - i,
        {
            if same(self.entries[i].0.as_str(), k) {
                proof {
                    lemma_first_key_is(before, k@, i as nat);
                }
                let n: u32 = self.entries[i].1.saturating_add(1);
                self.entries[i].1 = n;
                proof {
                    lemma_table_insert(before, self.entries@, k@, n);
                }
                return n;
            }
            i = i + 1;
        }
        proof {
            lemma_first_key_is(before, k@, i as nat);
        }
        self.entries.push((k.to_owned(), 1));
        proof {
            lemma_table_insert(before, self.entries@, k@, 1);
        }
        1
    }
}

proof fn lemma_push_contains(s: Seq<Seq<char>>, x: Seq<char>, q: Seq<char>)
    ensures
        s.push(x).contains(q) <==> s.contains(q) || q == x,
{
    if s.contains(q) {
        let j = choose|j: int| 0 <= j < s.len() && s[j] == q;
        assert(s.push(x)[j] == q);
    }
    if q == x {
        assert(s.push(x)[s.len() as int] == q);
    }
}

/// A set of texts.
pub struct TextSet {
    items: Vec<String>,
}

impl View for TextSet {
    type V = Set<Seq<char>>;

    closed spec fn view(&self) -> Set<Seq<char>> {
        views(self.items@).to_set()
    }
}

impl TextSet {
    /// The empty set.
    pub fn new() -> (r: TextSet)
        ensures
            r@ == Set::<Seq<char>>::empty(),
    {
        let r = TextSet { items: Vec::new() };
        assert(r@ =~= Set::<Seq<char>>::empty());
        r
    }

    /// Is `k` in the set?
    pub fn contains(&self, k: &str) -> (r: bool)
        ensures
            r == self@.contains(k@),
    {
        any_same(&self.items, k)
    }

    /// Take `k` out of the set.
    pub fn remove(&mut self, k: &str)
        ensures
            final(self)@ == old(self)@.remove(k@),
    {
        let ghost before = views(self.items@);
        let mut kept: Vec<String> = Vec::new();
        let mut i: usize = 0;
        while i < self.items.len()
            invariant
                i <= self.items@.len(),
                before == views(self.items@),
                before == views(old(self).items@),
                forall|q: Seq<char>|
                    #[trigger] views(kept@).contains(q) <==> before.take(i as int).contains(q) && q
                        != k@,
            decreases self.items.len() - i,
        {
            let ghost sofar = views(kept@);
            let ghost x = before[i as int];
            assert(before.take(i + 1) =~= before.take(i as int).push(x));
            if !same(self.items[i].as_str(), k) {
                kept.push(self.items[i].clone());
            }
            assert forall|q: Seq<char>| #[trigger] views(kept@).contains(q) <==> before.take(
                i + 1,
            ).contains(q) && q != k@ by {
                lemma_push_contains(before.take(i as int), x, q);
                lemma_push_contains(sofar, x, q);
                assert(sofar.contains(q) <==> before.take(i as int).contains(q) && q != k@);
            }
            i = i + 1;
        }
        assert(before.take(i as int) =~= before);
        self.items = kept;
        assert(views(kept@).to_set() =~= before.to_set().remove(k@));
    }

    /// Put `k` into the set.
    pub fn insert(&mut self, k: &str)
        ensures
            final(self)@ == old(self)@.insert(k@),
    {
        let ghost before = views(self.items@);
        if any_same(&self.items, k) {
            assert(before.to_set() =~= before.to_set().insert(k@));
        } else {
            self.items.push(k.to_owned());
            assert forall|q: Seq<char>| before.push(k@).contains(q) <==> before.contains(q) || q == k@ by {
                lemma_push_contains(before, k@, q);
            }
            assert(before.push(k@).to_set() =~= before.to_set().insert(k@));
        }
    }
}

} // verus!
