//! TOML values, as the `toml` crate reads and writes them.
use vstd::prelude::*;
use vstd::string::*;

use crate::text::same;

verus! {

/// A TOML value. A table lists its entries in order; a number with a fraction and a
/// date are kept as they are written.
#[derive(Debug, PartialEq, Eq)]
pub enum Toml {
    Text(String),
    Integer(i64),
    Real(String),
    Boolean(bool),
    Datetime(String),
    List(Vec<Toml>),
    Table(Vec<(String, Toml)>),
}

/// What a `Toml` says.
pub enum TomlTree {
    Text(Seq<char>),
    Integer(i64),
    Real(Seq<char>),
    Boolean(bool),
    Datetime(Seq<char>),
    List(Seq<TomlTree>),
    Table(Seq<(Seq<char>, TomlTree)>),
}

/// What a `Toml` says.
pub open spec fn toml_tree(t: Toml) -> TomlTree
    decreases t,
{
    match t {
        Toml::Text(s) => TomlTree::Text(s@),
        Toml::Integer(n) => TomlTree::Integer(n),
        Toml::Real(s) => TomlTree::Real(s@),
        Toml::Boolean(b) => TomlTree::Boolean(b),
        Toml::Datetime(s) => TomlTree::Datetime(s@),
        Toml::List(v) => TomlTree::List(
            Seq::new(
                v@.len(),
                |i: int| if 0 <= i < v@.len() { toml_tree(v@[i]) } else { TomlTree::Integer(0) },
            ),
        ),
        Toml::Table(v) => TomlTree::Table(
            Seq::new(
                v@.len(),
                |i: int|
                    if 0 <= i < v@.len() {
                        (v@[i].0@, toml_tree(v@[i].1))
                    } else {
                        (seq![], TomlTree::Integer(0))
                    },
            ),
        ),
    }
}

impl View for Toml {
    type V = TomlTree;

    open spec fn view(&self) -> TomlTree {
        toml_tree(*self)
    }
}

/// What a list of values says.
pub open spec fn items_view(v: Seq<Toml>) -> Seq<TomlTree> {
    Seq::new(v.len(), |i: int| v[i]@)
}

/// What the entries of a table say.
pub open spec fn entries_view(v: Seq<(String, Toml)>) -> Seq<(Seq<char>, TomlTree)> {
    Seq::new(v.len(), |i: int| (v[i].0@, v[i].1@))
}

/// A list says what its items say.
pub broadcast proof fn lemma_toml_list(v: Vec<Toml>)
    ensures
        #[trigger] toml_tree(Toml::List(v)) == TomlTree::List(items_view(v@)),
{
    assert(toml_tree(Toml::List(v))->List_0 =~= items_view(v@));
}

/// A table says what its entries say.
pub broadcast proof fn lemma_toml_table(v: Vec<(String, Toml)>)
    ensures
        #[trigger] toml_tree(Toml::Table(v)) == TomlTree::Table(entries_view(v@)),
{
    assert(toml_tree(Toml::Table(v))->Table_0 =~= entries_view(v@));
}

/// The view of a table that grew by one entry.
pub broadcast proof fn lemma_toml_push(v: Seq<(String, Toml)>, x: (String, Toml))
    ensures
        #[trigger] entries_view(v.push(x)) == entries_view(v).push((x.0@, x.1@)),
{
    assert(entries_view(v.push(x)) =~= entries_view(v).push((x.0@, x.1@)));
}

/// The view of a list that grew by one value.
pub broadcast proof fn lemma_toml_item_push(v: Seq<Toml>, x: Toml)
    ensures
        #[trigger] items_view(v.push(x)) == items_view(v).push(x@),
{
    assert(items_view(v.push(x)) =~= items_view(v).push(x@));
}

/// How the views of lists and tables are made up.
pub broadcast group group_toml {
    lemma_toml_list,
    lemma_toml_table,
    lemma_toml_push,
    lemma_toml_item_push,
}

/// The value type of `toml`.
#[verifier::external_type_specification]
#[verifier::external_body]
pub struct ExTomlValue(toml::Value);

/// Turns a `toml::Value` into plain data, variant by variant.
#[verifier::external_body]
fn from_value(v: toml::Value) -> (t: Toml) {
    match v {
        toml::Value::String(s) => Toml::Text(s),
        toml::Value::Integer(n) => Toml::Integer(n),
        toml::Value::Float(x) => Toml::Real(x.to_string()),
        toml::Value::Boolean(b) => Toml::Boolean(b),
        toml::Value::Datetime(d) => Toml::Datetime(d.to_string()),
        toml::Value::Array(v) => Toml::List(v.into_iter().map(from_value).collect()),
        toml::Value::Table(m) => Toml::Table(
            m.into_iter().map(|(k, v)| (k, from_value(v))).collect(),
        ),
    }
}

/// Turns plain data into a `toml::Value`, variant by variant.
#[verifier::external_body]
fn to_value(t: &Toml) -> (v: toml::Value) {
    match t {
        Toml::Text(s) => toml::Value::String(s.clone()),
        Toml::Integer(n) => toml::Value::Integer(*n),
        Toml::Real(s) => toml::Value::Float(s.parse().unwrap_or_default()),
        Toml::Boolean(b) => toml::Value::Boolean(*b),
        Toml::Datetime(s) => s.parse().map_or(toml::Value::Boolean(false), toml::Value::Datetime),
        Toml::List(v) => toml::Value::Array(v.iter().map(to_value).collect()),
        Toml::Table(v) => toml::Value::Table(
            v.iter().map(|(k, x)| (k.clone(), to_value(x))).collect(),
        ),
    }
}

/// The table that `toml::from_str` reads from a document, if it reads one.
pub uninterp spec fn toml_read(text: Seq<char>) -> Option<TomlTree>;

/// The text that `toml::Value::to_string` writes for a value.
pub uninterp spec fn toml_written(t: TomlTree) -> Seq<char>;

/// The text that the debug format writes for a `toml::Value`.
pub uninterp spec fn toml_debug(t: TomlTree) -> Seq<char>;

/// `toml::from_str` into a `Table` depends on the text alone; what it reads is a table.
#[verifier::external_body]
fn read(text: &str) -> (r: Option<Toml>)
    ensures
        match r {
            Some(t) => toml_read(text@) == Some(t@) && t is Table,
            None => toml_read(text@) is None,
        },
{
    toml::from_str::<toml::Table>(text).ok().map(|t| from_value(toml::Value::Table(t)))
}

/// `toml::Value::to_string` depends on the value alone.
#[verifier::external_body]
fn write(t: &Toml) -> (r: String)
    ensures
        r@ == toml_written(t@),
{
    to_value(t).to_string()
}

/// The debug format of a `toml::Value` depends on the value alone.
#[verifier::external_body]
fn debug(t: &Toml) -> (r: String)
    ensures
        r@ == toml_debug(t@),
{
    format!("{:?}", to_value(t))
}

/// A value that is no table, in a listing: a text as it is, anything else as it is
/// written.
pub open spec fn leaf_text(t: TomlTree) -> Seq<char> {
    match t {
        TomlTree::Text(s) => s,
        _ => toml_written(t),
    }
}

/// A value that is no table, in a listing.
pub fn render_leaf(t: &Toml) -> (r: String)
    ensures
        r@ == leaf_text(t@),
{
    match t {
        Toml::Text(s) => s.clone(),
        _ => write(t),
    }
}

/// The value of the first entry for `key`.
pub open spec fn entry(e: Seq<(Seq<char>, TomlTree)>, key: Seq<char>) -> Option<TomlTree>
    decreases e.len(),
{
    if e.len() == 0 {
        None
    } else if e[0].0 == key {
        Some(e[0].1)
    } else {
        entry(e.drop_first(), key)
    }
}

/// What a table holds under `key`.
pub open spec fn held(t: TomlTree, key: Seq<char>) -> Option<TomlTree> {
    match t {
        TomlTree::Table(e) => entry(e, key),
        _ => None,
    }
}

impl Clone for Toml {
    fn clone(&self) -> (r: Toml)
        ensures
            r@ == self@,
    {
        self.copy()
    }
}

impl Toml {
    /// Read a document.
    pub fn parse(text: &str) -> (r: Option<Toml>)
        ensures
            match r {
                Some(t) => toml_read(text@) == Some(t@) && t is Table,
                None => toml_read(text@) is None,
            },
    {
        read(text)
    }

    /// Write this value.
    pub fn written(&self) -> (r: String)
        ensures
            r@ == toml_written(self@),
    {
        write(self)
    }

    /// This value in the debug format.
    pub fn debugged(&self) -> (r: String)
        ensures
            r@ == toml_debug(self@),
    {
        debug(self)
    }

    /// What this table holds under `key`.
    pub fn get(&self, key: &str) -> (r: Option<&Toml>)
        ensures
            match r {
                Some(x) => held(self@, key@) == Some(x@),
                None => held(self@, key@) is None,
            },
    {
        broadcast use group_toml;

        match self {
            Toml::Table(v) => {
                let ghost e = entries_view(v@);
                let mut i: usize = 0;
                assert(e.skip(0) =~= e);
                assert(self@ == TomlTree::Table(e));
                while i < v.len()
                    invariant
                        i <= v@.len(),
                        self@ == TomlTree::Table(e),
                        e == entries_view(v@),
                        entry(e.skip(i as int), key@) == entry(e, key@),
                    decreases v.len() - i,
                {
                    assert(e.skip(i as int).drop_first() =~= e.skip(i + 1));
                    assert(e[i as int] == (v@[i as int].0@, v@[i as int].1@));
                    if same(v[i].0.as_str(), key) {
                        return Some(&v[i].1);
                    }
                    i = i + 1;
                }
                assert(e.skip(i as int).len() == 0);
                None
            },
            _ => None,
        }
    }

    /// A copy of this value.
    pub fn copy(&self) -> (r: Toml)
        ensures
            r@ == self@,
        decreases *self,
    {
        broadcast use group_toml;

        match self {
            Toml::Text(s) => Toml::Text(s.clone()),
            Toml::Integer(n) => Toml::Integer(*n),
            Toml::Real(s) => Toml::Real(s.clone()),
            Toml::Boolean(b) => Toml::Boolean(*b),
            Toml::Datetime(s) => Toml::Datetime(s.clone()),
            Toml::List(v) => {
                let mut r: Vec<Toml> = Vec::new();
                let mut i: usize = 0;
                while i < v.len()
                    invariant
                        i <= v@.len(),
                        *self == Toml::List(*v),
                        items_view(r@) == items_view(v@).take(i as int),
                    decreases v.len() - i,
                {
                    let ghost before = items_view(r@);
                    assert(decreases_to!(*self => self->List_0));
                    assert(decreases_to!(self->List_0 => self->List_0@[i as int]));
                    let x = v[i].copy();
                    r.push(x);
                    i = i + 1;
                    assert(items_view(r@) == before.push(items_view(v@)[i - 1]));
                    assert(items_view(r@) =~= items_view(v@).take(i as int));
                }
                assert(items_view(r@) =~= items_view(v@));
                Toml::List(r)
            },
            Toml::Table(v) => {
                let mut r: Vec<(String, Toml)> = Vec::new();
                let mut i: usize = 0;
                while i < v.len()
                    invariant
                        i <= v@.len(),
                        *self == Toml::Table(*v),
                        entries_view(r@) == entries_view(v@).take(i as int),
                    decreases v.len() - i,
                {
                    let ghost before = entries_view(r@);
                    assert(decreases_to!(*self => self->Table_0));
                    assert(decreases_to!(self->Table_0 => self->Table_0@[i as int]));
                    assert(decreases_to!(v@[i as int] => v@[i as int].1));
                    let x = v[i].1.copy();
                    r.push((v[i].0.clone(), x));
                    i = i + 1;
                    assert(entries_view(r@) == before.push(entries_view(v@)[i - 1]));
                    assert(entries_view(r@) =~= entries_view(v@).take(i as int));
                }
                assert(entries_view(r@) =~= entries_view(v@));
                Toml::Table(r)
            },
        }
    }
}

/// Do two values say the same?
pub fn same_toml(a: &Toml, b: &Toml) -> (r: bool)
    ensures
        r == (a@ == b@),
    decreases *a,
{
    broadcast use group_toml;

    match (a, b) {
        (Toml::Text(x), Toml::Text(y)) => same(x.as_str(), y.as_str()),
        (Toml::Integer(x), Toml::Integer(y)) => *x == *y,
        (Toml::Real(x), Toml::Real(y)) => same(x.as_str(), y.as_str()),
        (Toml::Boolean(x), Toml::Boolean(y)) => *x == *y,
        (Toml::Datetime(x), Toml::Datetime(y)) => same(x.as_str(), y.as_str()),
        (Toml::List(x), Toml::List(y)) => {
            if x.len() != y.len() {
                assert(items_view(x@).len() != items_view(y@).len());
                return false;
            }
            let mut i: usize = 0;
            while i < x.len()
                invariant
                    i <= x@.len(),
                    x@.len() == y@.len(),
                    *a == Toml::List(*x),
                    a@ == TomlTree::List(items_view(x@)),
                    b@ == TomlTree::List(items_view(y@)),
                    forall|j: int| 0 <= j < i ==> #[trigger] items_view(x@)[j] == items_view(y@)[j],
                decreases x.len() - i,
            {
                assert(decreases_to!(*a => a->List_0));
                assert(decreases_to!(a->List_0 => a->List_0@[i as int]));
                if !same_toml(&x[i], &y[i]) {
                    assert(items_view(x@)[i as int] != items_view(y@)[i as int]);
                    return false;
                }
                i = i + 1;
            }
            assert(items_view(x@) =~= items_view(y@));
            true
        },
        (Toml::Table(x), Toml::Table(y)) => {
            if x.len() != y.len() {
                assert(entries_view(x@).len() != entries_view(y@).len());
                return false;
            }
            let mut i: usize = 0;
            while i < x.len()
                invariant
                    i <= x@.len(),
                    x@.len() == y@.len(),
                    *a == Toml::Table(*x),
                    a@ == TomlTree::Table(entries_view(x@)),
                    b@ == TomlTree::Table(entries_view(y@)),
                    forall|j: int|
                        0 <= j < i ==> #[trigger] entries_view(x@)[j] == entries_view(y@)[j],
                decreases x.len() - i,
            {
                assert(decreases_to!(*a => a->Table_0));
                assert(decreases_to!(a->Table_0 => a->Table_0@[i as int]));
                assert(decreases_to!(x@[i as int] => x@[i as int].1));
                if !same(x[i].0.as_str(), y[i].0.as_str()) || !same_toml(&x[i].1, &y[i].1) {
                    assert(entries_view(x@)[i as int] != entries_view(y@)[i as int]);
                    return false;
                }
                i = i + 1;
            }
            assert(entries_view(x@) =~= entries_view(y@));
            true
        },
        _ => false,
    }
}

} // verus!
