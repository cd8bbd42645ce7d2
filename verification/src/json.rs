//! JSON values, as `serde_json` reads and writes them.
//!
//! [`Json`] holds a value as plain data, so that the rules which look into one
//! can be stated and proved. `serde_json` still does the reading and the writing.
use vstd::prelude::*;
use vstd::string::*;

use crate::text::same;

verus! {

/// A JSON number.
#[derive(Debug, Clone, PartialEq, Eq)]
pub enum Number {
    /// An integer that is not negative.
    Pos(u64),
    /// A negative integer.
    Neg(i64),
    /// Any other number: the shortest text that reads back as the same one.
    Real(String),
}

/// A JSON value. An object lists its entries in order.
#[derive(Debug, PartialEq, Eq)]
pub enum Json {
    Null,
    Bool(bool),
    Number(Number),
    Text(String),
    List(Vec<Json>),
    Object(Vec<(String, Json)>),
}

/// What a `Number` says.
pub enum NumberView {
    Pos(u64),
    Neg(i64),
    Real(Seq<char>),
}

/// What a `Json` says.
pub enum Tree {
    Null,
    Bool(bool),
    Number(NumberView),
    Text(Seq<char>),
    List(Seq<Tree>),
    Object(Seq<(Seq<char>, Tree)>),
}

impl View for Number {
    type V = NumberView;

    open spec fn view(&self) -> NumberView {
        match self {
            Number::Pos(n) => NumberView::Pos(*n),
            Number::Neg(n) => NumberView::Neg(*n),
            Number::Real(s) => NumberView::Real(s@),
        }
    }
}

/// What a `Json` says.
pub open spec fn tree(j: Json) -> Tree
    decreases j,
{
    match j {
        Json::Null => Tree::Null,
        Json::Bool(b) => Tree::Bool(b),
        Json::Number(n) => Tree::Number(n@),
        Json::Text(s) => Tree::Text(s@),
        Json::List(v) => Tree::List(
            Seq::new(v@.len(), |i: int| if 0 <= i < v@.len() { tree(v@[i]) } else { Tree::Null }),
        ),
        Json::Object(v) => Tree::Object(
            Seq::new(
                v@.len(),
                |i: int|
                    if 0 <= i < v@.len() {
                        (v@[i].0@, tree(v@[i].1))
                    } else {
                        (seq![], Tree::Null)
                    },
            ),
        ),
    }
}

impl View for Json {
    type V = Tree;

    open spec fn view(&self) -> Tree {
        tree(*self)
    }
}

/// What a list of values says.
pub open spec fn trees(v: Seq<Json>) -> Seq<Tree> {
    Seq::new(v.len(), |i: int| v[i]@)
}

/// What the entries of an object say.
pub open spec fn fields(v: Seq<(String, Json)>) -> Seq<(Seq<char>, Tree)> {
    Seq::new(v.len(), |i: int| (v[i].0@, v[i].1@))
}

/// A list says what its items say.
pub broadcast proof fn lemma_list_view(v: Vec<Json>)
    ensures
        #[trigger] tree(Json::List(v)) == Tree::List(trees(v@)),
{
    assert(tree(Json::List(v))->List_0 =~= trees(v@));
}

/// An object says what its entries say.
pub broadcast proof fn lemma_object_view(v: Vec<(String, Json)>)
    ensures
        #[trigger] tree(Json::Object(v)) == Tree::Object(fields(v@)),
{
    assert(tree(Json::Object(v))->Object_0 =~= fields(v@));
}

/// The view of a list that grew by one value.
pub broadcast proof fn lemma_trees_push(v: Seq<Json>, x: Json)
    ensures
        #[trigger] trees(v.push(x)) == trees(v).push(x@),
{
    assert(trees(v.push(x)) =~= trees(v).push(x@));
}

/// The view of an object that grew by one entry.
pub broadcast proof fn lemma_fields_push(v: Seq<(String, Json)>, x: (String, Json))
    ensures
        #[trigger] fields(v.push(x)) == fields(v).push((x.0@, x.1@)),
{
    assert(fields(v.push(x)) =~= fields(v).push((x.0@, x.1@)));
}

/// How the views of lists and objects are made up.
pub broadcast group group_json {
    lemma_list_view,
    lemma_object_view,
    lemma_trees_push,
    lemma_fields_push,
}

/// The value type of `serde_json`.
#[verifier::external_type_specification]
#[verifier::external_body]
pub struct ExValue(serde_json::Value);

/// Turns a `serde_json::Value` into plain data, variant by variant.
#[verifier::external_body]
fn from_value(v: serde_json::Value) -> (j: Json) {
    match v {
        serde_json::Value::Null => Json::Null,
        serde_json::Value::Bool(b) => Json::Bool(b),
        serde_json::Value::Number(n) => Json::Number(match (n.as_u64(), n.as_i64()) {
            (Some(n), _) => Number::Pos(n),
            (None, Some(n)) => Number::Neg(n),
            (None, None) => Number::Real(n.to_string()),
        }),
        serde_json::Value::String(s) => Json::Text(s),
        serde_json::Value::Array(v) => Json::List(v.into_iter().map(from_value).collect()),
        serde_json::Value::Object(m) => Json::Object(
            m.into_iter().map(|(k, v)| (k, from_value(v))).collect(),
        ),
    }
}

/// Turns plain data into a `serde_json::Value`, variant by variant. The text of a number
/// is read by `str::parse`, which gives the nearest number, so that a number that was read
/// and is written again stays the same; a text that is none becomes null.
#[verifier::external_body]
fn to_value(j: &Json) -> (v: serde_json::Value) {
    match j {
        Json::Null => serde_json::Value::Null,
        Json::Bool(b) => (*b).into(),
        Json::Number(Number::Pos(n)) => (*n).into(),
        Json::Number(Number::Neg(n)) => (*n).into(),
        Json::Number(Number::Real(s)) => s.parse().ok().and_then(serde_json::Number::from_f64).into(),
        Json::Text(s) => s.clone().into(),
        Json::List(v) => v.iter().map(to_value).collect(),
        Json::Object(v) => serde_json::Value::Object(
            v.iter().map(|(k, x)| (k.clone(), to_value(x))).collect(),
        ),
    }
}

/// The value that `serde_json::from_str` reads from a text, or its message.
pub uninterp spec fn json_read(text: Seq<char>) -> Result<Tree, Seq<char>>;

/// The text that `serde_json::Value::to_string` writes for a value.
pub uninterp spec fn json_written(t: Tree) -> Seq<char>;

/// The text that `serde_json::to_string_pretty` writes for a value.
pub uninterp spec fn json_pretty(t: Tree) -> Seq<char>;

/// The number that `serde_json::Number` reads from a text, if it is one.
pub uninterp spec fn number_read(text: Seq<char>) -> Option<NumberView>;

/// What a reading came to.
pub open spec fn read_view(r: Result<Json, String>) -> Result<Tree, Seq<char>> {
    match r {
        Ok(j) => Ok(j@),
        Err(e) => Err(e@),
    }
}

/// `serde_json::from_str` into a `Value` depends on the text alone.
#[verifier::external_body]
fn read(text: &str) -> (r: Result<Json, String>)
    ensures
        read_view(r) == json_read(text@),
{
    match serde_json::from_str::<serde_json::Value>(text) {
        Ok(v) => Ok(from_value(v)),
        Err(e) => Err(e.to_string()),
    }
}

/// `serde_json::Value::to_string` depends on the value alone.
#[verifier::external_body]
fn write(j: &Json) -> (r: String)
    ensures
        r@ == json_written(j@),
{
    to_value(j).to_string()
}

/// `serde_json::to_string_pretty` of a `Value` depends on the value alone, and does
/// not fail.
#[verifier::external_body]
fn write_pretty(j: &Json) -> (r: String)
    ensures
        r@ == json_pretty(j@),
{
    serde_json::to_string_pretty(&to_value(j)).unwrap_or_default()
}

/// `str::parse` into a `serde_json::Number` depends on the text alone.
#[verifier::external_body]
fn read_number(text: &str) -> (r: Option<Number>)
    ensures
        match r {
            Some(n) => number_read(text@) == Some(n@),
            None => number_read(text@) is None,
        },
{
    match text.parse::<serde_json::Number>().map(|n| from_value(serde_json::Value::Number(n))) {
        Ok(Json::Number(n)) => Some(n),
        _ => None,
    }
}

/// The value of the first entry for `key`.
pub open spec fn field(entries: Seq<(Seq<char>, Tree)>, key: Seq<char>) -> Option<Tree>
    decreases entries.len(),
{
    if entries.len() == 0 {
        None
    } else if entries[0].0 == key {
        Some(entries[0].1)
    } else {
        field(entries.drop_first(), key)
    }
}

/// What an object holds under `key`; nothing else holds anything.
pub open spec fn member(t: Tree, key: Seq<char>) -> Option<Tree> {
    match t {
        Tree::Object(entries) => field(entries, key),
        _ => None,
    }
}

/// The text of a value that is one.
pub open spec fn text_of(t: Option<Tree>) -> Option<Seq<char>> {
    match t {
        Some(Tree::Text(s)) => Some(s),
        _ => None,
    }
}

/// The flag of a value that is one.
pub open spec fn bool_of(t: Option<Tree>) -> Option<bool> {
    match t {
        Some(Tree::Bool(b)) => Some(b),
        _ => None,
    }
}

/// The number of a value that is an integer and not negative.
pub open spec fn u64_of(t: Option<Tree>) -> Option<u64> {
    match t {
        Some(Tree::Number(NumberView::Pos(n))) => Some(n),
        _ => None,
    }
}

/// The number of a value that is an integer and fits.
pub open spec fn i64_of(t: Option<Tree>) -> Option<i64> {
    match t {
        Some(Tree::Number(NumberView::Pos(n))) => if n <= i64::MAX {
            Some(n as i64)
        } else {
            None
        },
        Some(Tree::Number(NumberView::Neg(n))) => Some(n),
        _ => None,
    }
}

/// The items of a value that is a list.
pub open spec fn list_of(t: Option<Tree>) -> Option<Seq<Tree>> {
    match t {
        Some(Tree::List(v)) => Some(v),
        _ => None,
    }
}

/// What an optional value says.
pub open spec fn opt_tree(j: Option<&Json>) -> Option<Tree> {
    match j {
        Some(j) => Some(j@),
        None => None,
    }
}

proof fn lemma_field_step(entries: Seq<(Seq<char>, Tree)>, key: Seq<char>, i: int)
    requires
        0 <= i < entries.len(),
    ensures
        field(entries.skip(i), key) == if entries[i].0 == key {
            Some(entries[i].1)
        } else {
            field(entries.skip(i + 1), key)
        },
{
    assert(entries.skip(i).drop_first() =~= entries.skip(i + 1));
}

impl Clone for Json {
    fn clone(&self) -> (r: Json)
        ensures
            r@ == self@,
    {
        self.copy()
    }
}

impl Json {
    /// Read a value.
    pub fn parse(text: &str) -> (r: Result<Json, String>)
        ensures
            read_view(r) == json_read(text@),
    {
        read(text)
    }

    /// Read a number.
    pub fn parse_number(text: &str) -> (r: Option<Number>)
        ensures
            match r {
                Some(n) => number_read(text@) == Some(n@),
                None => number_read(text@) is None,
            },
    {
        read_number(text)
    }

    /// Write this value.
    pub fn written(&self) -> (r: String)
        ensures
            r@ == json_written(self@),
    {
        write(self)
    }

    /// Write this value over several lines.
    pub fn pretty(&self) -> (r: String)
        ensures
            r@ == json_pretty(self@),
    {
        write_pretty(self)
    }

    /// A text value.
    pub fn text(s: &str) -> (r: Json)
        ensures
            r@ == Tree::Text(s@),
    {
        Json::Text(s.to_owned())
    }

    /// What this object holds under `key`.
    pub fn get(&self, key: &str) -> (r: Option<&Json>)
        ensures
            opt_tree(r) == member(self@, key@),
            r matches Some(x) ==> decreases_to!(self => x),
    {
        broadcast use group_json;

        match self {
            Json::Object(v) => {
                let ghost e = fields(v@);
                let mut i: usize = 0;
                assert(e.skip(0) =~= e);
                assert(self@ == Tree::Object(e));
                while i < v.len()
                    invariant
                        i <= v@.len(),
                        *self == Json::Object(*v),
                        self@ == Tree::Object(e),
                        e == fields(v@),
                        field(e.skip(i as int), key@) == field(e, key@),
                    decreases v.len() - i,
                {
                    proof {
                        lemma_field_step(e, key@, i as int);
                    }
                    if same(v[i].0.as_str(), key) {
                        assert(e[i as int] == (v@[i as int].0@, v@[i as int].1@));
                        return Some(&v[i].1);
                    }
                    i = i + 1;
                }
                assert(e.skip(i as int).len() == 0);
                None
            },
            _ => None,
        }
    }

    /// The text of this value, if it is one.
    pub fn as_str(&self) -> (r: Option<&str>)
        ensures
            match r {
                Some(s) => text_of(Some(self@)) == Some(s@),
                None => text_of(Some(self@)) is None,
            },
    {
        match self {
            Json::Text(s) => Some(s.as_str()),
            _ => None,
        }
    }

    /// The flag of this value, if it is one.
    pub fn as_bool(&self) -> (r: Option<bool>)
        ensures
            r == bool_of(Some(self@)),
    {
        match self {
            Json::Bool(b) => Some(*b),
            _ => None,
        }
    }

    /// The number of this value, if it is an integer and not negative.
    pub fn as_u64(&self) -> (r: Option<u64>)
        ensures
            r == u64_of(Some(self@)),
    {
        match self {
            Json::Number(Number::Pos(n)) => Some(*n),
            _ => None,
        }
    }

    /// The number of this value, if it is an integer and fits.
    pub fn as_i64(&self) -> (r: Option<i64>)
        ensures
            r == i64_of(Some(self@)),
    {
        match self {
            Json::Number(Number::Pos(n)) => if *n <= i64::MAX as u64 {
                Some(*n as i64)
            } else {
                None
            },
            Json::Number(Number::Neg(n)) => Some(*n),
            _ => None,
        }
    }

    /// The items of this value, if it is a list.
    pub fn as_array(&self) -> (r: Option<&Vec<Json>>)
        ensures
            match r {
                Some(v) => list_of(Some(self@)) == Some(trees(v@)) && *self == Json::List(*v),
                None => list_of(Some(self@)) is None,
            },
    {
        broadcast use group_json;

        match self {
            Json::List(v) => Some(v),
            _ => None,
        }
    }

    /// The entries of this value, if it is an object.
    pub fn as_object(&self) -> (r: Option<&Vec<(String, Json)>>)
        ensures
            match r {
                Some(v) => self@ == Tree::Object(fields(v@)) && *self == Json::Object(*v),
                None => !(self@ is Object),
            },
    {
        broadcast use group_json;

        match self {
            Json::Object(v) => Some(v),
            _ => None,
        }
    }

    /// A copy of this value.
    pub fn copy(&self) -> (r: Json)
        ensures
            r@ == self@,
        decreases *self,
    {
        broadcast use group_json;

        match self {
            Json::Null => Json::Null,
            Json::Bool(b) => Json::Bool(*b),
            Json::Number(Number::Pos(n)) => Json::Number(Number::Pos(*n)),
            Json::Number(Number::Neg(n)) => Json::Number(Number::Neg(*n)),
            Json::Number(Number::Real(s)) => Json::Number(Number::Real(s.clone())),
            Json::Text(s) => Json::Text(s.clone()),
            Json::List(v) => {
                let mut r: Vec<Json> = Vec::new();
                let mut i: usize = 0;
                while i < v.len()
                    invariant
                        i <= v@.len(),
                        *self == Json::List(*v),
                        trees(r@) == trees(v@).take(i as int),
                    decreases v.len() - i,
                {
                    let ghost before = trees(r@);
                    assert(decreases_to!(*self => self->List_0));
                    assert(decreases_to!(self->List_0 => self->List_0@[i as int]));
                    let x = v[i].copy();
                    r.push(x);
                    i = i + 1;
                    assert(trees(r@) == before.push(trees(v@)[i - 1]));
                    assert(trees(r@) =~= trees(v@).take(i as int));
                }
                assert(trees(r@) =~= trees(v@));
                Json::List(r)
            },
            Json::Object(v) => {
                let mut r: Vec<(String, Json)> = Vec::new();
                let mut i: usize = 0;
                while i < v.len()
                    invariant
                        i <= v@.len(),
                        *self == Json::Object(*v),
                        fields(r@) == fields(v@).take(i as int),
                    decreases v.len() - i,
                {
                    let ghost before = fields(r@);
                    assert(decreases_to!(*self => self->Object_0));
                    assert(decreases_to!(self->Object_0 => self->Object_0@[i as int]));
                    assert(decreases_to!(v@[i as int] => v@[i as int].1));
                    let x = v[i].1.copy();
                    r.push((v[i].0.clone(), x));
                    i = i + 1;
                    assert(fields(r@) == before.push(fields(v@)[i - 1]));
                    assert(fields(r@) =~= fields(v@).take(i as int));
                }
                assert(fields(r@) =~= fields(v@));
                Json::Object(r)
            },
        }
    }
}

/// Do two values say the same?
pub fn same_json(a: &Json, b: &Json) -> (r: bool)
    ensures
        r == (a@ == b@),
    decreases *a,
{
    broadcast use group_json;

    match (a, b) {
        (Json::Null, Json::Null) => true,
        (Json::Bool(x), Json::Bool(y)) => *x == *y,
        (Json::Number(x), Json::Number(y)) => match (x, y) {
            (Number::Pos(m), Number::Pos(n)) => *m == *n,
            (Number::Neg(m), Number::Neg(n)) => *m == *n,
            (Number::Real(m), Number::Real(n)) => same(m.as_str(), n.as_str()),
            _ => false,
        },
        (Json::Text(x), Json::Text(y)) => same(x.as_str(), y.as_str()),
        (Json::List(x), Json::List(y)) => {
            if x.len() != y.len() {
                assert(trees(x@).len() != trees(y@).len());
                return false;
            }
            let mut i: usize = 0;
            while i < x.len()
                invariant
                    i <= x@.len(),
                    x@.len() == y@.len(),
                    *a == Json::List(*x),
                    a@ == Tree::List(trees(x@)),
                    b@ == Tree::List(trees(y@)),
                    forall|j: int| 0 <= j < i ==> #[trigger] trees(x@)[j] == trees(y@)[j],
                decreases x.len() - i,
            {
                assert(decreases_to!(*a => a->List_0));
                assert(decreases_to!(a->List_0 => a->List_0@[i as int]));
                if !same_json(&x[i], &y[i]) {
                    assert(trees(x@)[i as int] != trees(y@)[i as int]);
                    return false;
                }
                i = i + 1;
            }
            assert(trees(x@) =~= trees(y@));
            true
        },
        (Json::Object(x), Json::Object(y)) => {
            if x.len() != y.len() {
                assert(fields(x@).len() != fields(y@).len());
                return false;
            }
            let mut i: usize = 0;
            while i < x.len()
                invariant
                    i <= x@.len(),
                    x@.len() == y@.len(),
                    *a == Json::Object(*x),
                    a@ == Tree::Object(fields(x@)),
                    b@ == Tree::Object(fields(y@)),
                    forall|j: int| 0 <= j < i ==> #[trigger] fields(x@)[j] == fields(y@)[j],
                decreases x.len() - i,
            {
                assert(decreases_to!(*a => a->Object_0));
                assert(decreases_to!(a->Object_0 => a->Object_0@[i as int]));
                assert(decreases_to!(x@[i as int] => x@[i as int].1));
                if !same(x[i].0.as_str(), y[i].0.as_str()) || !same_json(&x[i].1, &y[i].1) {
                    assert(fields(x@)[i as int] != fields(y@)[i as int]);
                    return false;
                }
                i = i + 1;
            }
            assert(fields(x@) =~= fields(y@));
            true
        },
        _ => false,
    }
}

/// The text under `key`, if the object holds one there.
pub open spec fn str_arg(t: Tree, key: Seq<char>) -> Option<Seq<char>> {
    text_of(member(t, key))
}

/// The text under `key`, if the object holds one there.
pub fn get_str<'a>(j: &'a Json, key: &str) -> (r: Option<&'a str>)
    ensures
        match r {
            Some(s) => str_arg(j@, key@) == Some(s@),
            None => str_arg(j@, key@) is None,
        },
{
    match j.get(key) {
        Some(v) => v.as_str(),
        None => None,
    }
}

/// The number under `key`, if the object holds one there that is not negative.
pub fn get_u64(j: &Json, key: &str) -> (r: Option<u64>)
    ensures
        r == u64_of(member(j@, key@)),
{
    match j.get(key) {
        Some(v) => v.as_u64(),
        None => None,
    }
}

/// The flag under `key`, if the object holds one there.
pub fn get_bool(j: &Json, key: &str) -> (r: Option<bool>)
    ensures
        r == bool_of(member(j@, key@)),
{
    match j.get(key) {
        Some(v) => v.as_bool(),
        None => None,
    }
}

/// The entries of an object once `key` holds `value`: in place of what it held,
/// or at the end.
pub open spec fn put(
    entries: Seq<(Seq<char>, Tree)>,
    key: Seq<char>,
    value: Tree,
) -> Seq<(Seq<char>, Tree)>
    decreases entries.len(),
{
    if entries.len() == 0 {
        seq![(key, value)]
    } else if entries[0].0 == key {
        seq![(key, value)] + entries.drop_first()
    } else {
        seq![entries[0]] + put(entries.drop_first(), key, value)
    }
}

proof fn lemma_put_at(entries: Seq<(Seq<char>, Tree)>, key: Seq<char>, value: Tree, n: nat)
    requires
        n <= entries.len(),
        forall|i: int| 0 <= i < n ==> #[trigger] entries[i].0 != key,
        n < entries.len() ==> entries[n as int].0 == key,
    ensures
        put(entries, key, value) == if n < entries.len() {
            entries.update(n as int, (key, value))
        } else {
            entries.push((key, value))
        },
    decreases n,
{
    if n > 0 {
        assert(entries[0].0 != key);
        lemma_put_at(entries.drop_first(), key, value, (n - 1) as nat);
        if n < entries.len() {
            assert(put(entries, key, value) =~= entries.update(n as int, (key, value)));
        } else {
            assert(put(entries, key, value) =~= entries.push((key, value)));
        }
    } else {
        if n < entries.len() {
            assert(put(entries, key, value) =~= entries.update(0, (key, value)));
        } else {
            assert(put(entries, key, value) =~= entries.push((key, value)));
        }
    }
}

/// Let `key` hold `value`.
pub fn put_in(entries: &mut Vec<(String, Json)>, key: &str, value: Json)
    ensures
        fields(final(entries)@) == put(fields(old(entries)@), key@, value@),
{
    broadcast use group_json;

    let ghost before = fields(entries@);
    let mut i: usize = 0;
    while i < entries.len() && !same(entries[i].0.as_str(), key)
        invariant
            i <= entries@.len(),
            before == fields(entries@),
            forall|j: int| 0 <= j < i ==> #[trigger] before[j].0 != key@,
        decreases entries.len() - i,
    {
        i = i + 1;
    }
    proof {
        lemma_put_at(before, key@, value@, i as nat);
    }
    if i < entries.len() {
        entries[i].1 = value;
        assert(fields(entries@) =~= before.update(i as int, (key@, value@)));
    } else {
        entries.push((key.to_owned(), value));
    }
}

/// An object holds under a key what its first entry of that key says, and nothing where
/// no entry has it.
pub proof fn the_first_entry_of_a_key_counts(entries: Seq<(Seq<char>, Tree)>, key: Seq<char>)
    ensures
        match field(entries, key) {
            Some(v) => exists|i: int|
                0 <= i < entries.len() && #[trigger] entries[i] == (key, v) && forall|j: int|
                    0 <= j < i ==> (#[trigger] entries[j]).0 != key,
            None => forall|i: int| 0 <= i < entries.len() ==> (#[trigger] entries[i]).0 != key,
        },
    decreases entries.len(),
{
    if entries.len() > 0 && entries[0].0 != key {
        let rest = entries.drop_first();
        the_first_entry_of_a_key_counts(rest, key);
        match field(rest, key) {
            Some(v) => {
                let i = choose|i: int|
                    0 <= i < rest.len() && #[trigger] rest[i] == (key, v) && forall|j: int|
                        0 <= j < i ==> (#[trigger] rest[j]).0 != key;
                assert(entries[i + 1] == (key, v));
                assert forall|j: int| 0 <= j < i + 1 implies (#[trigger] entries[j]).0 != key by {
                    if j > 0 {
                        assert(rest[j - 1] == entries[j]);
                    }
                }
            },
            None => {
                assert forall|i: int| 0 <= i < entries.len() implies (#[trigger] entries[i]).0
                    != key by {
                    if i > 0 {
                        assert(rest[i - 1] == entries[i]);
                    }
                }
            },
        }
    } else if entries.len() > 0 {
        assert(entries[0] == (key, entries[0].1));
    }
}

/// What is put under a key is held there, every other key holds what it held, and no
/// entry is lost.
pub proof fn a_put_value_is_held(
    entries: Seq<(Seq<char>, Tree)>,
    key: Seq<char>,
    value: Tree,
    other: Seq<char>,
)
    ensures
        field(put(entries, key, value), key) == Some(value),
        other != key ==> field(put(entries, key, value), other) == field(entries, other),
        put(entries, key, value).len() == entries.len() + if field(entries, key) is None {
            1nat
        } else {
            0nat
        },
    decreases entries.len(),
{
    reveal_with_fuel(field, 2);
    let after = put(entries, key, value);
    if entries.len() == 0 {
        assert(after.drop_first() =~= Seq::empty());
    } else if entries[0].0 == key {
        assert(after.drop_first() =~= entries.drop_first());
    } else {
        a_put_value_is_held(entries.drop_first(), key, value, other);
        assert(after.drop_first() =~= put(entries.drop_first(), key, value));
    }
}

} // verus!
