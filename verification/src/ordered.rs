//! Lists of entries in the order of their keys.
use vstd::prelude::*;
use vstd::string::*;

use crate::sorting::{at_most, is_at_most};
use crate::text::same;

verus! {

/// The entries of a list, their keys as texts.
pub open spec fn pairs<T>(v: Seq<(String, T)>) -> Seq<(Seq<char>, T)> {
    Seq::new(v.len(), |i: int| (v[i].0@, v[i].1))
}

/// The entries once `key` holds `value`: in place of what it held, or before the first
/// entry with a larger key.
pub open spec fn put_pair<T>(s: Seq<(Seq<char>, T)>, key: Seq<char>, value: T) -> Seq<
    (Seq<char>, T),
>
    decreases s.len(),
{
    if s.len() == 0 {
        seq![(key, value)]
    } else if s[0].0 == key {
        seq![(key, value)] + s.drop_first()
    } else if at_most(key, s[0].0) {
        seq![(key, value)] + s
    } else {
        seq![s[0]] + put_pair(s.drop_first(), key, value)
    }
}

/// Does an entry have that key?
pub open spec fn has_key<T>(s: Seq<(Seq<char>, T)>, key: Seq<char>) -> bool {
    exists|i: int| 0 <= i < s.len() && (#[trigger] s[i]).0 == key
}

/// The entries with their values changed by `f`.
pub open spec fn map_values<T, U>(s: Seq<(Seq<char>, T)>, f: spec_fn(T) -> U) -> Seq<
    (Seq<char>, U),
> {
    Seq::new(s.len(), |i: int| (s[i].0, f(s[i].1)))
}

/// Changing the values and putting one in can change places.
pub proof fn lemma_put_map<T, U>(
    s: Seq<(Seq<char>, T)>,
    key: Seq<char>,
    value: T,
    f: spec_fn(T) -> U,
)
    ensures
        map_values(put_pair(s, key, value), f) == put_pair(map_values(s, f), key, f(value)),
    decreases s.len(),
{
    let m = map_values(s, f);
    if s.len() == 0 {
        assert(map_values(put_pair(s, key, value), f) =~= put_pair(m, key, f(value)));
    } else {
        assert(m.drop_first() =~= map_values(s.drop_first(), f));
        if s[0].0 == key {
            assert(map_values(put_pair(s, key, value), f) =~= put_pair(m, key, f(value)));
        } else if at_most(key, s[0].0) {
            assert(map_values(put_pair(s, key, value), f) =~= put_pair(m, key, f(value)));
        } else {
            lemma_put_map(s.drop_first(), key, value, f);
            assert(map_values(put_pair(s, key, value), f) =~= put_pair(m, key, f(value)));
        }
    }
}

/// What is in the list once an entry is put in: that entry, and old ones.
pub proof fn lemma_put_members<T>(s: Seq<(Seq<char>, T)>, key: Seq<char>, value: T)
    ensures
        forall|i: int|
            0 <= i < put_pair(s, key, value).len() ==> (#[trigger] put_pair(s, key, value)[i]) == (
                key,
                value,
            ) || s.contains(put_pair(s, key, value)[i]),
        has_key(put_pair(s, key, value), key),
    decreases s.len(),
{
    let r = put_pair(s, key, value);
    if s.len() == 0 {
        assert(r[0].0 == key);
    } else if s[0].0 == key {
        assert(r[0].0 == key);
        assert forall|i: int| 0 <= i < r.len() implies (#[trigger] r[i]) == (key, value)
            || s.contains(r[i]) by {
            if i > 0 {
                assert(s[i] == r[i]);
            }
        }
    } else if at_most(key, s[0].0) {
        assert(r[0].0 == key);
        assert forall|i: int| 0 <= i < r.len() implies (#[trigger] r[i]) == (key, value)
            || s.contains(r[i]) by {
            if i > 0 {
                assert(s[i - 1] == r[i]);
            }
        }
    } else {
        let t = s.drop_first();
        lemma_put_members(t, key, value);
        let p = put_pair(t, key, value);
        let k = choose|k: int| 0 <= k < p.len() && (#[trigger] p[k]).0 == key;
        assert(r[k + 1].0 == key);
        assert forall|i: int| 0 <= i < r.len() implies (#[trigger] r[i]) == (key, value)
            || s.contains(r[i]) by {
            if i == 0 {
                assert(s[0] == r[0]);
            } else {
                assert(r[i] == p[i - 1]);
                if p[i - 1] != (key, value) {
                    let j = choose|j: int| 0 <= j < t.len() && t[j] == p[i - 1];
                    assert(s[j + 1] == t[j]);
                }
            }
        }
    }
}

proof fn lemma_put_at<T>(s: Seq<(Seq<char>, T)>, key: Seq<char>, value: T, n: int)
    requires
        0 <= n <= s.len(),
        forall|i: int| 0 <= i < n ==> !at_most(key, (#[trigger] s[i]).0) && s[i].0 != key,
        n < s.len() ==> at_most(key, s[n].0) || s[n].0 == key,
    ensures
        put_pair(s, key, value) == if n < s.len() && s[n].0 == key {
            s.update(n, (key, value))
        } else {
            s.insert(n, (key, value))
        },
    decreases n,
{
    if n > 0 {
        assert(!at_most(key, s[0].0) && s[0].0 != key);
        lemma_put_at(s.drop_first(), key, value, n - 1);
    }
    if n < s.len() && s[n].0 == key {
        assert(put_pair(s, key, value) =~= s.update(n, (key, value)));
    } else {
        assert(put_pair(s, key, value) =~= s.insert(n, (key, value)));
    }
}

/// Let `key` hold `value`.
pub fn put_entry<T>(v: &mut Vec<(String, T)>, key: &str, value: T)
    ensures
        pairs(final(v)@) == put_pair(pairs(old(v)@), key@, value),
{
    let ghost before = pairs(v@);
    let mut i: usize = 0;
    while i < v.len() && !same(v[i].0.as_str(), key) && !is_at_most(key, v[i].0.as_str())
        invariant
            i <= v@.len(),
            before == pairs(v@),
            forall|j: int|
                0 <= j < i ==> !at_most(key@, (#[trigger] before[j]).0) && before[j].0 != key@,
        decreases v.len() - i,
    {
        assert(before[i as int].0 == v@[i as int].0@);
        i = i + 1;
    }
    proof {
        if i < v@.len() {
            assert(before[i as int].0 == v@[i as int].0@);
        }
        lemma_put_at(before, key@, value, i as int);
    }
    if i < v.len() && same(v[i].0.as_str(), key) {
        v[i].1 = value;
        assert(pairs(v@) =~= before.update(i as int, (key@, value)));
    } else {
        v.insert(i, (key.to_owned(), value));
        assert(pairs(v@) =~= before.insert(i as int, (key@, value)));
    }
}

/// Does an entry have that key?
pub fn holds_key<T>(v: &Vec<(String, T)>, key: &str) -> (r: bool)
    ensures
        r == has_key(pairs(v@), key@),
{
    let ghost all = pairs(v@);
    let mut i: usize = 0;
    while i < v.len()
        invariant
            i <= v@.len(),
            all == pairs(v@),
            forall|j: int| 0 <= j < i ==> (#[trigger] all[j]).0 != key@,
        decreases v.len() - i,
    {
        if same(v[i].0.as_str(), key) {
            assert(all[i as int].0 == key@);
            return true;
        }
        i = i + 1;
    }
    false
}

// ---- laws -------------------------------------------------------------------

/// Do the keys stand in order, none twice?
pub open spec fn in_order<T>(s: Seq<(Seq<char>, T)>) -> bool {
    forall|i: int, j: int|
        0 <= i < j < s.len() ==> at_most((#[trigger] s[i]).0, (#[trigger] s[j]).0) && s[i].0
            != s[j].0
}

/// The value that stands under a key.
pub open spec fn value_of<T>(s: Seq<(Seq<char>, T)>, key: Seq<char>) -> Option<T>
    decreases s.len(),
{
    if s.len() == 0 {
        None
    } else if s[0].0 == key {
        Some(s[0].1)
    } else {
        value_of(s.drop_first(), key)
    }
}

/// There is a value under a key just where the key is there.
pub proof fn a_key_has_a_value<T>(s: Seq<(Seq<char>, T)>, key: Seq<char>)
    ensures
        value_of(s, key) is Some <==> has_key(s, key),
        forall|i: int|
            0 <= i < s.len() && in_order(s) ==> value_of(s, (#[trigger] s[i]).0) == Some(s[i].1),
    decreases s.len(),
{
    if s.len() > 0 {
        let r = s.drop_first();
        a_key_has_a_value(r, key);
        if s[0].0 == key {
            assert(has_key(s, key));
        } else if has_key(r, key) {
            let i = choose|i: int| 0 <= i < r.len() && (#[trigger] r[i]).0 == key;
            assert(s[i + 1].0 == key);
        } else if has_key(s, key) {
            let i = choose|i: int| 0 <= i < s.len() && (#[trigger] s[i]).0 == key;
            assert(r[i - 1].0 == key);
        }
        if in_order(s) {
            lemma_in_order_rest(s);
            assert forall|i: int| 0 <= i < s.len() implies value_of(s, (#[trigger] s[i]).0) == Some(
                s[i].1,
            ) by {
                if i > 0 {
                    a_key_has_a_value(r, s[i].0);
                    assert(s[0].0 != s[i].0);
                    assert(r[i - 1] == s[i]);
                }
            }
        }
    }
}

proof fn lemma_in_order_rest<T>(s: Seq<(Seq<char>, T)>)
    requires
        in_order(s),
        s.len() > 0,
    ensures
        in_order(s.drop_first()),
{
    let r = s.drop_first();
    assert forall|i: int, j: int| 0 <= i < j < r.len() implies at_most(
        (#[trigger] r[i]).0,
        (#[trigger] r[j]).0,
    ) && r[i].0 != r[j].0 by {
        assert(at_most(s[i + 1].0, s[j + 1].0) && s[i + 1].0 != s[j + 1].0);
    }
}

proof fn lemma_in_order_first<T>(x: (Seq<char>, T), s: Seq<(Seq<char>, T)>)
    requires
        in_order(s),
        forall|i: int| 0 <= i < s.len() ==> at_most(x.0, (#[trigger] s[i]).0) && x.0 != s[i].0,
    ensures
        in_order(seq![x] + s),
{
    let t = seq![x] + s;
    assert forall|i: int, j: int| 0 <= i < j < t.len() implies at_most(
        (#[trigger] t[i]).0,
        (#[trigger] t[j]).0,
    ) && t[i].0 != t[j].0 by {
        assert(t[j] == s[j - 1]);
        if i > 0 {
            assert(t[i] == s[i - 1]);
        }
    }
}

/// Putting a value under a key puts it there, changes nothing under any other key, and
/// keeps the order.
pub proof fn putting_changes_one_key<T>(
    s: Seq<(Seq<char>, T)>,
    key: Seq<char>,
    value: T,
    other: Seq<char>,
)
    requires
        in_order(s),
    ensures
        in_order(put_pair(s, key, value)),
        value_of(put_pair(s, key, value), key) == Some(value),
        other != key ==> value_of(put_pair(s, key, value), other) == value_of(s, other),
    decreases s.len(),
{
    let one = seq![(key, value)];
    let none = Seq::<(Seq<char>, T)>::empty();
    assert(one.drop_first() =~= none);
    if s.len() == 0 {
        assert(value_of(none, other) is None);
    } else {
        let r = s.drop_first();
        lemma_in_order_rest(s);
        if s[0].0 == key {
            let t = one + r;
            assert(t.drop_first() =~= r);
            assert forall|i: int| 0 <= i < r.len() implies at_most(key, (#[trigger] r[i]).0) && key
                != r[i].0 by {
                assert(at_most(s[0].0, s[i + 1].0) && s[0].0 != s[i + 1].0);
            }
            lemma_in_order_first((key, value), r);
        } else if at_most(key, s[0].0) {
            let t = one + s;
            assert(t.drop_first() =~= s);
            assert forall|i: int| 0 <= i < s.len() implies at_most(key, (#[trigger] s[i]).0) && key
                != s[i].0 by {
                if i > 0 {
                    assert(at_most(s[0].0, s[i].0) && s[0].0 != s[i].0);
                    crate::sorting::lemma_transitive(key, s[0].0, s[i].0);
                    if s[i].0 == key {
                        crate::sorting::lemma_antisymmetric(key, s[0].0);
                    }
                }
            }
            lemma_in_order_first((key, value), s);
        } else {
            let p = put_pair(r, key, value);
            let t = seq![s[0]] + p;
            assert(t.drop_first() =~= p);
            putting_changes_one_key(r, key, value, other);
            lemma_put_members(r, key, value);
            crate::sorting::lemma_total(key, s[0].0);
            assert forall|i: int| 0 <= i < p.len() implies at_most(s[0].0, (#[trigger] p[i]).0)
                && s[0].0 != p[i].0 by {
                if p[i] != (key, value) {
                    let j = choose|j: int| 0 <= j < r.len() && r[j] == p[i];
                    assert(at_most(s[0].0, s[j + 1].0) && s[0].0 != s[j + 1].0);
                }
            }
            lemma_in_order_first(s[0], p);
        }
    }
}

} // verus!
