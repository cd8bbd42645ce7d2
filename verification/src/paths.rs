//! Paths as texts.
use vstd::prelude::*;
use vstd::string::*;

use crate::list::{group_lists, join, views};
use crate::sorting::{at_most, is_at_most, lemma_antisymmetric, lemma_total, lemma_transitive};
use crate::text::{
    begins, chars_of, ends, ends_with, index_where, is_char, joined, joined_range,
    lemma_index_where, lemma_index_where_unique, lowercase, opt_view, pieces, same, split,
    starts_with, string_of,
};

verus! {

broadcast use group_lists;

/// Does a path begin at the root?
pub open spec fn absolute(p: Seq<char>) -> bool {
    starts_with(p, "/"@)
}

/// Does a path begin at the root?
pub fn is_absolute(p: &str) -> (r: bool)
    ensures
        r == absolute(p@),
{
    begins(p, "/")
}

/// `p`, seen from `base`: an absolute path stands for itself, any other one is
/// appended, with a separator where one is missing.
pub open spec fn joined_path(base: Seq<char>, p: Seq<char>) -> Seq<char> {
    if absolute(p) {
        p
    } else if base.len() == 0 || ends_with(base, "/"@) {
        base + p
    } else {
        base + "/"@ + p
    }
}

/// `p`, seen from `base`.
pub fn join_path(base: &str, p: &str) -> (r: String)
    ensures
        r@ == joined_path(base@, p@),
{
    if is_absolute(p) {
        return p.to_owned();
    }
    let mut r = base.to_owned();
    if base.unicode_len() > 0 && !ends(base, "/") {
        r.append("/");
    }
    r.append(p);
    r
}

/// What `std::path::Path::strip_prefix` leaves of a path.
pub uninterp spec fn path_below(path: Seq<char>, base: Seq<char>) -> Option<Seq<char>>;

/// What `std::path::Path::file_name` says of a path.
pub uninterp spec fn path_name(path: Seq<char>) -> Option<Seq<char>>;

/// What `std::path::Path::parent` says of a path.
pub uninterp spec fn path_parent(path: Seq<char>) -> Option<Seq<char>>;

/// What `std::path::Path::with_file_name` makes of a path.
pub uninterp spec fn path_renamed(path: Seq<char>, name: Seq<char>) -> Seq<char>;

/// What `std::path::Path::with_extension` makes of a path.
pub uninterp spec fn path_retyped(path: Seq<char>, ext: Seq<char>) -> Seq<char>;

/// `std::path::Path::with_file_name` depends on the path and the name alone.
#[verifier::external_body]
pub(crate) fn with_file_name(path: &str, name: &str) -> (r: String)
    ensures
        r@ == path_renamed(path@, name@),
{
    std::path::Path::new(path).with_file_name(name).display().to_string()
}

/// `std::path::Path::with_extension` depends on the path and the extension alone;
/// it panics on an extension that holds a separator.
#[verifier::external_body]
pub(crate) fn with_extension(path: &str, ext: &str) -> (r: String)
    requires
        !ext@.contains('/'),
    ensures
        r@ == path_retyped(path@, ext@),
{
    std::path::Path::new(path).with_extension(ext).display().to_string()
}

/// `std::path::Path::strip_prefix` depends on the two paths alone: it leaves what
/// follows `base`, component by component, where `path` begins with it.
#[verifier::external_body]
pub(crate) fn below(path: &str, base: &str) -> (r: Option<String>)
    ensures
        opt_view(r) == path_below(path@, base@),
{
    match std::path::Path::new(path).strip_prefix(base) {
        Ok(rest) => Some(rest.display().to_string()),
        Err(_) => None,
    }
}

/// `std::path::Path::file_name` depends on the path alone.
#[verifier::external_body]
pub(crate) fn file_name(path: &str) -> (r: Option<String>)
    ensures
        opt_view(r) == path_name(path@),
{
    std::path::Path::new(path).file_name().map(|n| n.to_string_lossy().into_owned())
}

/// `std::path::Path::parent` depends on the path alone.
#[verifier::external_body]
pub(crate) fn parent(path: &str) -> (r: Option<String>)
    ensures
        opt_view(r) == path_parent(path@),
{
    std::path::Path::new(path).parent().map(|p| p.display().to_string())
}

/// `path`, as seen from `cwd` where it lies below it.
pub open spec fn relative_to(path: Seq<char>, cwd: Seq<char>) -> Seq<char> {
    match path_below(path, cwd) {
        Some(rest) => rest,
        None => path,
    }
}

/// `path`, as seen from `cwd` where it lies below it.
pub fn display_rel(cwd: &str, path: &str) -> (r: String)
    ensures
        r@ == relative_to(path@, cwd@),
{
    match below(path, cwd) {
        Some(rest) => rest,
        None => path.to_owned(),
    }
}

/// The index of the last `.` in a name, or the length where there is none.
pub open spec fn last_dot(name: Seq<char>) -> int
    decreases name.len(),
{
    if name.len() == 0 {
        -1
    } else if name.last() == '.' {
        name.len() - 1
    } else {
        last_dot(name.drop_last())
    }
}

/// What follows the last `.` of a file's name, unless that `.` begins the name.
pub open spec fn extension_of(name: Seq<char>) -> Option<Seq<char>> {
    if name != ".."@ && last_dot(name) > 0 {
        Some(name.skip(last_dot(name) + 1))
    } else {
        None
    }
}

/// What stands before the last `.` of a file's name, unless that `.` begins it.
pub open spec fn stem_of(name: Seq<char>) -> Seq<char> {
    if name != ".."@ && last_dot(name) > 0 {
        name.take(last_dot(name))
    } else {
        name
    }
}

fn dot_index(v: &Vec<char>) -> (r: Option<usize>)
    ensures
        match r {
            Some(i) => last_dot(v@) == i && i < v@.len(),
            None => last_dot(v@) == -1,
        },
{
    let mut i: usize = v.len();
    assert(v@.take(i as int) =~= v@);
    while i > 0
        invariant
            i <= v@.len(),
            last_dot(v@.take(i as int)) == last_dot(v@),
        decreases i,
    {
        assert(v@.take(i as int).drop_last() =~= v@.take(i - 1));
        if v[i - 1] == '.' {
            return Some(i - 1);
        }
        i = i - 1;
    }
    None
}

/// The extension of a file's name.
pub fn extension(name: &str) -> (r: Option<String>)
    ensures
        opt_view(r) == extension_of(name@),
{
    if crate::text::same(name, "..") {
        return None;
    }
    let v = chars_of(name);
    match dot_index(&v) {
        Some(i) if i > 0 => {
            let n = v.len();
            let r = string_of(&v, i + 1, n);
            assert(r@ =~= name@.skip(i + 1));
            Some(r)
        },
        _ => None,
    }
}

/// A file's name without its extension.
pub fn stem(name: &str) -> (r: String)
    ensures
        r@ == stem_of(name@),
{
    if crate::text::same(name, "..") {
        return name.to_owned();
    }
    let v = chars_of(name);
    match dot_index(&v) {
        Some(i) if i > 0 => {
            let r = string_of(&v, 0, i);
            assert(r@ =~= name@.take(i as int));
            r
        },
        _ => name.to_owned(),
    }
}

/// The extension of a path in lower case; empty where there is none.
pub open spec fn ext_of(path: Seq<char>) -> Seq<char> {
    match path_name(path) {
        Some(name) => match extension_of(name) {
            Some(e) => lowercase(e),
            None => seq![],
        },
        None => seq![],
    }
}

/// The extension of a path in lower case; empty where there is none.
pub fn ext(path: &str) -> (r: String)
    ensures
        r@ == ext_of(path@),
{
    if let Some(name) = file_name(path) {
        if let Some(e) = extension(name.as_str()) {
            return e.as_str().to_lowercase();
        }
    }
    String::new()
}

// ---- components -------------------------------------------------------------

/// The named steps among the first `n` pieces of a path.
pub open spec fn steps(ps: Seq<Seq<char>>, n: nat) -> Seq<Seq<char>>
    decreases n,
{
    if n == 0 {
        seq![]
    } else if ps[n - 1].len() == 0 || ps[n - 1] == "."@ {
        steps(ps, (n - 1) as nat)
    } else {
        steps(ps, (n - 1) as nat).push(ps[n - 1])
    }
}

/// The components of a path: where it begins, if that is said, and its named steps.
pub open spec fn components(p: Seq<char>) -> Seq<Seq<char>> {
    let ps = split(p, '/');
    (if absolute(p) {
        seq!["/"@]
    } else if ps[0] == "."@ {
        seq!["."@]
    } else {
        seq![]
    }) + steps(ps, ps.len())
}

fn components_of(p: &str) -> (r: Vec<String>)
    ensures
        views(r@) == components(p@),
{
    let ps = pieces(p, '/');
    let ghost all = views(ps@);
    let mut r: Vec<String> = Vec::new();
    assert(all.len() > 0);
    if is_absolute(p) {
        r.push("/".to_owned());
    } else if same(ps[0].as_str(), ".") {
        r.push(".".to_owned());
    }
    let ghost head = views(r@);
    assert(head =~= (if absolute(p@) {
        seq!["/"@]
    } else if all[0] == "."@ {
        seq!["."@]
    } else {
        seq![]
    }));
    let mut i: usize = 0;
    assert(views(r@) =~= head + steps(all, 0));
    while i < ps.len()
        invariant
            i <= ps@.len(),
            all == views(ps@),
            views(r@) == head + steps(all, i as nat),
        decreases ps.len() - i,
    {
        assert(all[i as int] == ps@[i as int]@);
        if ps[i].as_str().unicode_len() > 0 && !same(ps[i].as_str(), ".") {
            r.push(ps[i].clone());
            assert(views(r@) =~= head + steps(all, i as nat).push(all[i as int]));
        }
        i = i + 1;
    }
    r
}

/// Is a list of texts the start of another?
pub open spec fn leads(a: Seq<Seq<char>>, b: Seq<Seq<char>>) -> bool {
    a.len() <= b.len() && b.take(a.len() as int) == a
}

fn is_lead(a: &Vec<String>, b: &Vec<String>) -> (r: bool)
    ensures
        r == leads(views(a@), views(b@)),
{
    if a.len() > b.len() {
        return false;
    }
    let ghost x = views(a@);
    let ghost y = views(b@);
    let mut i: usize = 0;
    while i < a.len()
        invariant
            i <= a@.len() <= b@.len(),
            x == views(a@),
            y == views(b@),
            forall|j: int| 0 <= j < i ==> #[trigger] x[j] == y[j],
        decreases a.len() - i,
    {
        assert(x[i as int] == a@[i as int]@ && y[i as int] == b@[i as int]@);
        if !same(a[i].as_str(), b[i].as_str()) {
            assert(y.take(x.len() as int)[i as int] != x[i as int]);
            return false;
        }
        i = i + 1;
    }
    assert(y.take(x.len() as int) =~= x);
    true
}

/// Do two paths have the same components?
pub fn same_path(a: &str, b: &str) -> (r: bool)
    ensures
        r == (components(a@) == components(b@)),
{
    let x = components_of(a);
    let y = components_of(b);
    let r = x.len() == y.len() && is_lead(&x, &y);
    proof {
        let p = components(a@);
        let q = components(b@);
        if p.len() == q.len() {
            assert(q.take(p.len() as int) =~= q);
        }
    }
    r
}

// ---- resolving --------------------------------------------------------------

/// Does a resolved path lie outside a resolved directory?
pub open spec fn escapes(path: Seq<char>, cwd: Seq<char>) -> bool {
    !leads(components(cwd), components(path))
}

/// The way behind the start of a path; nothing, where it does not start so.
pub open spec fn way_behind(path: Seq<Seq<char>>, start: Seq<Seq<char>>) -> Seq<Seq<char>> {
    if leads(start, path) {
        path.skip(start.len() as int)
    } else {
        seq![]
    }
}

/// One step from a place: `..` leads up, but not beyond the root.
pub open spec fn stepped(at: Seq<Seq<char>>, step: Seq<char>) -> Seq<Seq<char>> {
    if step == "/"@ {
        seq![step]
    } else if step == "."@ {
        at
    } else if step == ".."@ {
        if at.len() > 0 && at.last() != "/"@ {
            at.drop_last()
        } else {
            at
        }
    } else {
        at.push(step)
    }
}

/// Where the first `n` steps of a way lead to.
pub open spec fn landed(from: Seq<Seq<char>>, way: Seq<Seq<char>>, n: nat) -> Seq<Seq<char>>
    decreases n,
{
    if n == 0 {
        from
    } else {
        stepped(landed(from, way, (n - 1) as nat), way[n - 1])
    }
}

/// The components of a path resolved as far as the filesystem goes: from the canonical
/// form of its nearest ancestor that exists, along the rest of the path.
pub open spec fn destination(path: Seq<char>, ancestor: Seq<char>, canonical: Seq<char>) -> Seq<
    Seq<char>,
> {
    let way = way_behind(components(path), components(ancestor));
    landed(components(canonical), way, way.len())
}

/// The path with these components.
pub open spec fn path_text(cs: Seq<Seq<char>>) -> Seq<char> {
    if cs.len() > 0 && cs[0] == "/"@ {
        "/"@ + join(cs.skip(1), "/"@)
    } else {
        join(cs, "/"@)
    }
}

/// Is a text a name: not empty, without a separator, and not `.`?
pub open spec fn is_step(c: Seq<char>) -> bool {
    c.len() > 0 && !c.contains('/') && c != "."@
}

/// Can these be the components of a path? Only the first says where the path begins.
pub open spec fn sound(cs: Seq<Seq<char>>) -> bool {
    forall|i: int|
        0 <= i < cs.len() ==> is_step(#[trigger] cs[i]) || (i == 0 && (cs[i] == "/"@ || cs[i]
            == "."@))
}

proof fn lemma_split_cat(a: Seq<char>, b: Seq<char>)
    ensures
        split(a + seq!['/'] + b, '/') == split(a, '/') + split(b, '/'),
    decreases a.len(),
{
    let c = a + seq!['/'] + b;
    let p = is_char('/');
    lemma_index_where(a, p);
    let i = index_where(a, p) as int;
    if i < a.len() {
        lemma_index_where_unique(c, p, i as nat);
        assert(c.take(i) =~= a.take(i));
        assert(c.skip(i + 1) =~= a.skip(i + 1) + seq!['/'] + b);
        lemma_split_cat(a.skip(i + 1), b);
        assert(split(c, '/') =~= split(a, '/') + split(b, '/'));
    } else {
        lemma_index_where_unique(c, p, a.len());
        assert(c.take(a.len() as int) =~= a);
        assert(c.skip(a.len() as int + 1) =~= b);
    }
}

proof fn lemma_split_parts(s: Seq<char>)
    ensures
        split(s, '/').len() > 0,
        forall|i: int| 0 <= i < split(s, '/').len() ==> !(#[trigger] split(s, '/')[i]).contains('/'),
    decreases s.len(),
{
    let p = is_char('/');
    lemma_index_where(s, p);
    let i = index_where(s, p) as int;
    if i < s.len() {
        let rest = split(s.skip(i + 1), '/');
        lemma_split_parts(s.skip(i + 1));
        assert(!s.take(i).contains('/')) by {
            if s.take(i).contains('/') {
                let k = choose|k: int| 0 <= k < i && s.take(i)[k] == '/';
                assert(p(s[k]));
            }
        }
        assert forall|k: int| 0 <= k < split(s, '/').len() implies !(#[trigger] split(
            s,
            '/',
        )[k]).contains('/') by {
            if k > 0 {
                assert(split(s, '/')[k] == rest[k - 1]);
            }
        }
    } else {
        assert(!s.contains('/')) by {
            if s.contains('/') {
                let k = choose|k: int| 0 <= k < s.len() && s[k] == '/';
                assert(p(s[k]));
            }
        }
    }
}

proof fn lemma_split_one(c: Seq<char>)
    requires
        !c.contains('/'),
    ensures
        split(c, '/') == seq![c],
{
    let p = is_char('/');
    assert forall|k: int| 0 <= k < c.len() implies !p(c[k]) by {
        assert(c.contains(c[k]));
    }
    lemma_index_where_unique(c, p, c.len());
}

proof fn lemma_split_join(cs: Seq<Seq<char>>)
    requires
        cs.len() > 0,
        forall|i: int| 0 <= i < cs.len() ==> !(#[trigger] cs[i]).contains('/'),
    ensures
        split(join(cs, "/"@), '/') == cs,
    decreases cs.len(),
{
    reveal_strlit("/");
    assert("/"@ =~= seq!['/']);
    lemma_split_one(cs.last());
    if cs.len() == 1 {
        assert(cs =~= seq![cs[0]]);
    } else {
        let front = cs.drop_last();
        lemma_split_join(front);
        lemma_split_cat(join(front, "/"@), cs.last());
        assert(cs =~= front + seq![cs.last()]);
    }
}

proof fn lemma_steps(ps: Seq<Seq<char>>, n: nat)
    requires
        n <= ps.len(),
        forall|i: int| 0 <= i < ps.len() ==> !(#[trigger] ps[i]).contains('/'),
    ensures
        forall|i: int| 0 <= i < steps(ps, n).len() ==> is_step(#[trigger] steps(ps, n)[i]),
    decreases n,
{
    if n > 0 {
        lemma_steps(ps, (n - 1) as nat);
        let before = steps(ps, (n - 1) as nat);
        assert forall|i: int| 0 <= i < steps(ps, n).len() implies is_step(
            #[trigger] steps(ps, n)[i],
        ) by {
            if i < before.len() {
                assert(steps(ps, n)[i] == before[i]);
            }
        }
    }
}

proof fn lemma_all_steps(ps: Seq<Seq<char>>, from: nat, n: nat)
    requires
        from <= n <= ps.len(),
        forall|i: int| from <= i < ps.len() ==> is_step(#[trigger] ps[i]),
        steps(ps, from).len() == 0,
    ensures
        steps(ps, n) == ps.subrange(from as int, n as int),
    decreases n,
{
    if n > from {
        lemma_all_steps(ps, from, (n - 1) as nat);
        assert(is_step(ps[n - 1]));
        assert(ps.subrange(from as int, n as int) =~= ps.subrange(from as int, n - 1).push(
            ps[n - 1],
        ));
    } else {
        assert(steps(ps, n) =~= ps.subrange(from as int, n as int));
    }
}

/// The components of a path are sound.
pub proof fn lemma_components_sound(p: Seq<char>)
    ensures
        sound(components(p)),
{
    let ps = split(p, '/');
    lemma_split_parts(p);
    lemma_steps(ps, ps.len());
    let st = steps(ps, ps.len());
    let cs = components(p);
    assert forall|i: int| 0 <= i < cs.len() implies is_step(#[trigger] cs[i]) || (i == 0 && (cs[i]
        == "/"@ || cs[i] == "."@)) by {
        let k = i - (cs.len() - st.len());
        if k >= 0 {
            assert(cs[i] == st[k]);
        }
    }
}

/// A path that is put together from sound components has these components.
pub proof fn lemma_path_text(cs: Seq<Seq<char>>)
    requires
        sound(cs),
    ensures
        components(path_text(cs)) == cs,
{
    reveal_strlit("/");
    reveal_strlit(".");
    assert("/"@ =~= seq!['/']);
    assert("."@ =~= seq!['.']);
    let t = path_text(cs);
    if cs.len() > 0 && cs[0] == "/"@ {
        let rest = cs.skip(1);
        let j = join(rest, "/"@);
        let none = Seq::<char>::empty();
        assert(t =~= none + seq!['/'] + j);
        lemma_split_cat(none, j);
        lemma_split_one(none);
        assert forall|i: int| 0 <= i < rest.len() implies is_step(#[trigger] rest[i]) by {
            assert(rest[i] == cs[i + 1]);
        }
        let ps = split(t, '/');
        assert(t.take(1) =~= "/"@);
        if rest.len() == 0 {
            lemma_split_one(j);
            assert(ps =~= seq![none, none]);
            assert(ps[0].len() == 0 && ps[1].len() == 0);
            assert(steps(ps, 0) =~= seq![]);
            assert(steps(ps, 1) =~= seq![]);
            assert(steps(ps, 2) =~= seq![]);
        } else {
            lemma_split_join(rest);
            assert(ps =~= seq![none] + rest);
            assert(steps(ps, 0) =~= seq![]);
            assert(steps(ps, 1) =~= seq![]);
            assert forall|i: int| 1 <= i < ps.len() implies is_step(#[trigger] ps[i]) by {
                assert(ps[i] == rest[i - 1]);
            }
            lemma_all_steps(ps, 1, ps.len());
            assert(ps.subrange(1, ps.len() as int) =~= rest);
        }
        assert(components(t) =~= cs);
    } else if cs.len() == 0 {
        lemma_split_one(t);
        let ps = split(t, '/');
        assert(steps(ps, 0) =~= seq![]);
        assert(steps(ps, 1) =~= seq![]);
        assert(components(t) =~= cs);
    } else {
        assert forall|i: int| 0 <= i < cs.len() implies !(#[trigger] cs[i]).contains('/') by {
            if cs[i] == "."@ {
                assert(cs[i][0] == '.');
            }
        }
        lemma_split_join(cs);
        lemma_first_of_join(cs);
        let ps = split(t, '/');
        assert(!absolute(t)) by {
            if absolute(t) {
                assert(t.take(1)[0] == "/"@[0]);
                assert(cs[0].contains(cs[0][0]));
            }
        }
        assert(steps(ps, 0) =~= seq![]);
        if cs[0] == "."@ {
            assert(steps(ps, 1) =~= seq![]);
            lemma_all_steps(ps, 1, ps.len());
        } else {
            lemma_all_steps(ps, 0, ps.len());
        }
        assert(components(t) =~= cs);
    }
}

proof fn lemma_first_of_join(cs: Seq<Seq<char>>)
    requires
        cs.len() > 0,
        cs[0].len() > 0,
    ensures
        join(cs, "/"@).len() > 0,
        join(cs, "/"@)[0] == cs[0][0],
    decreases cs.len(),
{
    if cs.len() > 1 {
        lemma_first_of_join(cs.drop_last());
    }
}

proof fn lemma_landed(from: Seq<Seq<char>>, way: Seq<Seq<char>>, n: nat)
    requires
        n <= way.len(),
        sound(from),
        forall|i: int|
            0 <= i < way.len() ==> is_step(#[trigger] way[i]) || way[i] == "/"@ || way[i] == "."@,
    ensures
        sound(landed(from, way, n)),
    decreases n,
{
    if n > 0 {
        lemma_landed(from, way, (n - 1) as nat);
        let at = landed(from, way, (n - 1) as nat);
        let to = landed(from, way, n);
        assert(is_step(way[n - 1]) || way[n - 1] == "/"@ || way[n - 1] == "."@);
        assert forall|i: int| 0 <= i < to.len() implies is_step(#[trigger] to[i]) || (i == 0 && (
        to[i] == "/"@ || to[i] == "."@)) by {
            if i < at.len() && to[i] == at[i] {
                assert(is_step(at[i]) || (i == 0 && (at[i] == "/"@ || at[i] == "."@)));
            }
        }
    }
}

fn take_step(at: &mut Vec<String>, step: &str)
    ensures
        views(final(at)@) == stepped(views(old(at)@), step@),
{
    let ghost before = views(at@);
    proof {
        reveal_strlit("/");
        reveal_strlit(".");
        reveal_strlit("..");
        assert("/"@.len() == 1 && "."@.len() == 1 && ".."@.len() == 2);
        assert("/"@[0] != "."@[0]);
    }
    if same(step, "/") {
        *at = Vec::new();
        at.push(step.to_owned());
        assert(views(at@) =~= seq![step@]);
    } else if same(step, "..") {
        let n = at.len();
        if n > 0 {
            assert(before.last() == at@[n - 1]@);
            if !same(at[n - 1].as_str(), "/") {
                at.truncate(n - 1);
                assert(views(at@) =~= before.drop_last());
            }
        }
    } else if !same(step, ".") {
        at.push(step.to_owned());
    }
}

fn show_path(cs: &Vec<String>) -> (r: String)
    ensures
        r@ == path_text(views(cs@)),
{
    let ghost all = views(cs@);
    let n = cs.len();
    if n > 0 {
        assert(all[0] == cs@[0]@);
        if same(cs[0].as_str(), "/") {
            let mut r = "/".to_owned();
            let rest = joined_range(cs, 1, n, "/");
            assert(all.skip(1) =~= all.subrange(1, n as int));
            r.append(rest.as_str());
            return r;
        }
    }
    joined(cs, "/")
}

/// A path resolved as far as the filesystem goes: the nearest ancestor that exists, in
/// its canonical form, and the rest of the path behind it. What does not exist cannot be
/// a link, so a `..` in the rest leads back to where it came from.
pub fn resolved(path: &str, ancestor: &str, canonical: &str) -> (r: String)
    ensures
        r@ == path_text(destination(path@, ancestor@, canonical@)),
        components(r@) == destination(path@, ancestor@, canonical@),
{
    let whole = components_of(path);
    let start = components_of(ancestor);
    let mut at = components_of(canonical);
    let ghost from = views(at@);
    let ghost way = way_behind(views(whole@), views(start@));
    if is_lead(&start, &whole) {
        let first = start.len();
        let mut i: usize = first;
        while i < whole.len()
            invariant
                first <= i <= whole@.len(),
                first == start@.len(),
                leads(views(start@), views(whole@)),
                way == views(whole@).skip(first as int),
                views(at@) == landed(from, way, (i - first) as nat),
            decreases whole.len() - i,
        {
            assert(way[i - first] == whole@[i as int]@);
            take_step(&mut at, whole[i].as_str());
            i = i + 1;
        }
    }
    proof {
        lemma_components_sound(path@);
        lemma_components_sound(canonical@);
        let all = components(path@);
        assert forall|i: int| 0 <= i < way.len() implies is_step(#[trigger] way[i]) || way[i] == "/"@
            || way[i] == "."@ by {
            assert(way[i] == all[i + start@.len()]);
        }
        lemma_landed(from, way, way.len());
        lemma_path_text(views(at@));
    }
    show_path(&at)
}

/// Does `path` leave `cwd`? Both are resolved. Leaving the directory that the agent
/// was pointed at is its own kind of surprise.
pub fn path_escapes_cwd(path: &str, cwd: &str) -> (r: bool)
    ensures
        r == escapes(path@, cwd@),
{
    !is_lead(&components_of(cwd), &components_of(path))
}

// ---- order ------------------------------------------------------------------

/// The root comes before `.`, that before `..`, and that before any name.
pub open spec fn component_rank(c: Seq<char>) -> int {
    if c == "/"@ {
        0
    } else if c == "."@ {
        1
    } else if c == ".."@ {
        2
    } else {
        3
    }
}

/// `a` comes before `b` or is the same.
pub open spec fn component_at_most(a: Seq<char>, b: Seq<char>) -> bool {
    component_rank(a) < component_rank(b) || (component_rank(a) == component_rank(b) && at_most(
        a,
        b,
    ))
}

/// `a` comes before `b` or is the same, component by component.
pub open spec fn components_at_most(a: Seq<Seq<char>>, b: Seq<Seq<char>>) -> bool
    decreases a.len(),
{
    if a.len() == 0 {
        true
    } else if b.len() == 0 {
        false
    } else if a[0] != b[0] {
        component_at_most(a[0], b[0])
    } else {
        components_at_most(a.drop_first(), b.drop_first())
    }
}

/// The path `a` comes before `b`, or they are the same.
pub open spec fn path_at_most(a: Seq<char>, b: Seq<char>) -> bool {
    components_at_most(components(a), components(b))
}

pub proof fn lemma_components_total(a: Seq<Seq<char>>, b: Seq<Seq<char>>)
    ensures
        components_at_most(a, b) || components_at_most(b, a),
    decreases a.len(),
{
    if a.len() > 0 && b.len() > 0 {
        if a[0] == b[0] {
            lemma_components_total(a.drop_first(), b.drop_first());
        } else {
            lemma_total(a[0], b[0]);
        }
    }
}

pub proof fn lemma_components_transitive(a: Seq<Seq<char>>, b: Seq<Seq<char>>, c: Seq<Seq<char>>)
    requires
        components_at_most(a, b),
        components_at_most(b, c),
    ensures
        components_at_most(a, c),
    decreases a.len(),
{
    if a.len() > 0 && b.len() > 0 && c.len() > 0 {
        if a[0] == b[0] && b[0] == c[0] {
            lemma_components_transitive(a.drop_first(), b.drop_first(), c.drop_first());
        } else if a[0] != b[0] && b[0] != c[0] {
            if a[0] == c[0] {
                lemma_antisymmetric(a[0], b[0]);
            } else if at_most(a[0], b[0]) && at_most(b[0], c[0]) {
                lemma_transitive(a[0], b[0], c[0]);
            }
        }
    }
}

fn is_component_at_most(a: &str, b: &str) -> (r: bool)
    ensures
        r == component_at_most(a@, b@),
{
    let x = rank_of(a);
    let y = rank_of(b);
    x < y || (x == y && is_at_most(a, b))
}

fn rank_of(c: &str) -> (r: u8)
    ensures
        r == component_rank(c@),
{
    if same(c, "/") {
        0
    } else if same(c, ".") {
        1
    } else if same(c, "..") {
        2
    } else {
        3
    }
}

/// Does the path `a` come before `b`, or are they the same?
pub fn is_path_at_most(a: &str, b: &str) -> (r: bool)
    ensures
        r == path_at_most(a@, b@),
{
    let x = components_of(a);
    let y = components_of(b);
    let ghost s = components(a@);
    let ghost t = components(b@);
    let mut i: usize = 0;
    assert(s.skip(0) =~= s);
    assert(t.skip(0) =~= t);
    while i < x.len() && i < y.len()
        invariant
            i <= x@.len(),
            i <= y@.len(),
            s == components(a@),
            t == components(b@),
            views(x@) == s,
            views(y@) == t,
            components_at_most(s.skip(i as int), t.skip(i as int)) == components_at_most(s, t),
        decreases x.len() - i,
    {
        assert(s[i as int] == x@[i as int]@);
        assert(t[i as int] == y@[i as int]@);
        if !same(x[i].as_str(), y[i].as_str()) {
            return is_component_at_most(x[i].as_str(), y[i].as_str());
        }
        assert(s.skip(i as int).drop_first() =~= s.skip(i + 1));
        assert(t.skip(i as int).drop_first() =~= t.skip(i + 1));
        i = i + 1;
    }
    i == x.len()
}

// ---- laws -------------------------------------------------------------------

/// No `..` is left in a resolved path: none can hide where it leads to.
pub proof fn no_way_up_is_left(from: Seq<Seq<char>>, way: Seq<Seq<char>>, n: nat)
    requires
        n <= way.len(),
        !from.contains(".."@),
    ensures
        !landed(from, way, n).contains(".."@),
    decreases n,
{
    if n > 0 {
        no_way_up_is_left(from, way, (n - 1) as nat);
        let at = landed(from, way, (n - 1) as nat);
        let to = landed(from, way, n);
        if to.contains(".."@) {
            let k = choose|k: int| 0 <= k < to.len() && to[k] == ".."@;
            if k < at.len() && to[k] == at[k] {
                assert(at.contains(".."@));
            }
            reveal_strlit("/");
            reveal_strlit("..");
            assert("/"@.len() == 1 && ".."@.len() == 2);
        }
    }
}

/// A path that goes out of a directory through one that does not exist is noticed, as it
/// would be if it went out directly.
pub proof fn a_detour_does_not_hide_an_escape(
    cwd: Seq<char>,
    dir: Seq<char>,
    name: Seq<char>,
    file: Seq<char>,
    path: Seq<char>,
    resolved: Seq<char>,
)
    requires
        components(cwd).len() > 1,
        is_step(name) && name != ".."@,
        is_step(file) && file != ".."@ && file != components(cwd).last(),
        components(path) == components(dir) + seq![name, ".."@, ".."@, file],
        components(resolved) == destination(path, dir, cwd),
    ensures
        escapes(resolved, cwd),
{
    let d = components(cwd);
    let all = components(path);
    let start = components(dir);
    let way = seq![name, ".."@, ".."@, file];
    assert(all.take(start.len() as int) =~= start);
    assert(all.skip(start.len() as int) =~= way);
    reveal_strlit("/");
    reveal_strlit(".");
    reveal_strlit("..");
    assert("/"@ =~= seq!['/'] && "."@ =~= seq!['.']);
    assert("/"@.len() == 1 && "."@.len() == 1 && ".."@.len() == 2);
    assert(name != "/"@) by {
        if name == "/"@ {
            assert(name[0] == '/');
        }
    }
    assert(file != "/"@) by {
        if file == "/"@ {
            assert(file[0] == '/');
        }
    }
    lemma_components_sound(cwd);
    assert(d.last() == d[d.len() - 1]);
    assert(d.last() != "/"@) by {
        if d.last() == "/"@ {
            assert(d.last()[0] == '/');
        }
    }
    assert(landed(d, way, 0) == d);
    assert(way[0] == name && way[1] == ".."@ && way[2] == ".."@ && way[3] == file);
    assert(landed(d, way, 1) =~= d.push(name));
    assert(landed(d, way, 2) =~= d);
    assert(landed(d, way, 3) =~= d.drop_last());
    assert(landed(d, way, 4) =~= d.drop_last().push(file));
    let to = components(resolved);
    assert(to == d.drop_last().push(file));
    if leads(d, to) {
        assert(to.take(d.len() as int)[d.len() - 1] == file);
    }
}

/// A path seen from a place is the path itself where it is absolute, and else the place with
/// the path behind it.
pub proof fn a_path_is_seen_from_its_place(base: Seq<char>, p: Seq<char>)
    ensures
        absolute(p) ==> joined_path(base, p) == p,
        !absolute(p) ==> joined_path(base, p).take(base.len() as int) == base && joined_path(
            base,
            p,
        ).skip(joined_path(base, p).len() - p.len()) == p && joined_path(base, p).len()
            <= base.len() + 1 + p.len(),
{
    reveal_strlit("/");
    if !absolute(p) {
        let j = joined_path(base, p);
        assert(j.take(base.len() as int) =~= base);
        assert(j.skip(j.len() - p.len()) =~= p);
    }
}

/// A path stays in a directory just where it leads through it, step by step.
pub proof fn a_path_stays_where_it_leads_through(path: Seq<char>, cwd: Seq<char>)
    ensures
        !escapes(path, cwd) <==> components(cwd).len() <= components(path).len() && forall|i: int|
            0 <= i < components(cwd).len() ==> components(path)[i] == #[trigger] components(cwd)[i],
{
    let a = components(cwd);
    let b = components(path);
    if a.len() <= b.len() && (forall|i: int| 0 <= i < a.len() ==> b[i] == #[trigger] a[i]) {
        assert(b.take(a.len() as int) =~= a);
    }
    if leads(a, b) {
        assert forall|i: int| 0 <= i < a.len() implies b[i] == #[trigger] a[i] by {
            assert(b.take(a.len() as int)[i] == a[i]);
        }
    }
}

} // verus!
