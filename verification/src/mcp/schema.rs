//! Looking into the values that a remote tool gives and takes.
use vstd::prelude::*;
use vstd::string::*;

use crate::json::{fields, get_str, group_json, str_arg, trees, Json, Tree};
use crate::text::{ascii_lowered, begins, contains, has_text, lower_ascii, same, starts_with};

verus! {

broadcast use group_json;

/// Does a key name a credential?
pub open spec fn secret_key(key: Seq<char>) -> bool {
    let k = ascii_lowered(key);
    contains(k, "password"@) || contains(k, "secret"@) || contains(k, "token"@) || contains(
        k,
        "api_key"@,
    ) || contains(k, "apikey"@) || contains(k, "authorization"@)
}

fn is_secret(key: &str) -> (r: bool)
    ensures
        r == secret_key(key@),
{
    let k = lower_ascii(key);
    let k = k.as_str();
    has_text(k, "password") || has_text(k, "secret") || has_text(k, "token") || has_text(k, "api_key")
        || has_text(k, "apikey") || has_text(k, "authorization")
}

/// A value with what stands under a credential's name blotted out, at any depth.
pub open spec fn redacted(t: Tree) -> Tree
    decreases t,
{
    match t {
        Tree::Object(e) => Tree::Object(
            Seq::new(
                e.len(),
                |i: int|
                    if 0 <= i < e.len() {
                        (
                            e[i].0,
                            if secret_key(e[i].0) {
                                Tree::Text("[redacted]"@)
                            } else {
                                redacted(e[i].1)
                            },
                        )
                    } else {
                        (seq![], Tree::Null)
                    },
            ),
        ),
        Tree::List(v) => Tree::List(
            Seq::new(
                v.len(),
                |i: int| if 0 <= i < v.len() { redacted(v[i]) } else { Tree::Null },
            ),
        ),
        _ => t,
    }
}

/// Blot out what stands under a credential's name.
pub fn redact(j: &Json) -> (r: Json)
    ensures
        r@ == redacted(j@),
    decreases *j,
{
    match j {
        Json::Object(e) => {
            let ghost all = redacted(j@)->Object_0;
            let mut out: Vec<(String, Json)> = Vec::new();
            let mut i: usize = 0;
            while i < e.len()
                invariant
                    i <= e@.len(),
                    *j == Json::Object(*e),
                    j@ == Tree::Object(fields(e@)),
                    all == redacted(j@)->Object_0,
                    fields(out@) == all.take(i as int),
                decreases e.len() - i,
            {
                assert(decreases_to!(*j => j->Object_0));
                assert(decreases_to!(j->Object_0 => j->Object_0@[i as int]));
                assert(decreases_to!(e@[i as int] => e@[i as int].1));
                let ghost before = fields(out@);
                let value = if is_secret(e[i].0.as_str()) {
                    Json::text("[redacted]")
                } else {
                    redact(&e[i].1)
                };
                assert(fields(e@)[i as int] == (e@[i as int].0@, e@[i as int].1@));
                out.push((e[i].0.clone(), value));
                assert(fields(out@) =~= before.push(all[i as int]));
                i = i + 1;
                assert(fields(out@) =~= all.take(i as int));
            }
            assert(fields(out@) =~= all);
            Json::Object(out)
        },
        Json::List(v) => {
            let ghost all = redacted(j@)->List_0;
            let mut out: Vec<Json> = Vec::new();
            let mut i: usize = 0;
            while i < v.len()
                invariant
                    i <= v@.len(),
                    *j == Json::List(*v),
                    j@ == Tree::List(trees(v@)),
                    all == redacted(j@)->List_0,
                    trees(out@) == all.take(i as int),
                decreases v.len() - i,
            {
                assert(decreases_to!(*j => j->List_0));
                assert(decreases_to!(j->List_0 => j->List_0@[i as int]));
                let ghost before = trees(out@);
                let value = redact(&v[i]);
                assert(trees(v@)[i as int] == v@[i as int]@);
                out.push(value);
                assert(trees(out@) =~= before.push(all[i as int]));
                i = i + 1;
                assert(trees(out@) =~= all.take(i as int));
            }
            assert(trees(out@) =~= all);
            Json::List(out)
        },
        _ => j.copy(),
    }
}

/// Is this an entry that refers to something outside the schema?
pub open spec fn refers_out(key: Seq<char>, value: Tree) -> bool {
    (key == "$ref"@ || key == "$dynamicRef"@) && (value matches Tree::Text(s) && !starts_with(
        s,
        "#"@,
    ))
}

/// Does a schema refer to something outside itself, at any depth?
pub open spec fn remote_ref(t: Tree) -> bool
    decreases t,
{
    match t {
        Tree::Object(e) => exists|i: int|
            0 <= i < e.len() && (refers_out((#[trigger] e[i]).0, e[i].1) || remote_ref(e[i].1)),
        Tree::List(v) => exists|i: int| 0 <= i < v.len() && remote_ref(#[trigger] v[i]),
        _ => false,
    }
}

proof fn lemma_entry_refers(e: Seq<(Seq<char>, Tree)>, i: int)
    requires
        0 <= i < e.len(),
        refers_out(e[i].0, e[i].1) || remote_ref(e[i].1),
    ensures
        remote_ref(Tree::Object(e)),
{
    let t = Tree::Object(e);
    assert(t->Object_0[i] == e[i]);
    assert(remote_ref(t));
}

proof fn lemma_item_refers(v: Seq<Tree>, i: int)
    requires
        0 <= i < v.len(),
        remote_ref(v[i]),
    ensures
        remote_ref(Tree::List(v)),
{
    let t = Tree::List(v);
    assert(t->List_0[i] == v[i]);
    assert(remote_ref(t));
}

fn has_remote_ref(j: &Json) -> (r: bool)
    ensures
        r == remote_ref(j@),
    decreases *j,
{
    match j {
        Json::Object(e) => {
            let ghost all = fields(e@);
            let mut i: usize = 0;
            while i < e.len()
                invariant
                    i <= e@.len(),
                    *j == Json::Object(*e),
                    j@ == Tree::Object(all),
                    all == fields(e@),
                    forall|k: int|
                        0 <= k < i ==> !refers_out((#[trigger] all[k]).0, all[k].1) && !remote_ref(
                            all[k].1,
                        ),
                decreases e.len() - i,
            {
                assert(decreases_to!(*j => j->Object_0));
                assert(decreases_to!(j->Object_0 => j->Object_0@[i as int]));
                assert(decreases_to!(e@[i as int] => e@[i as int].1));
                assert(all[i as int] == (e@[i as int].0@, e@[i as int].1@));
                let key = e[i].0.as_str();
                if same(key, "$ref") || same(key, "$dynamicRef") {
                    if let Some(s) = e[i].1.as_str() {
                        if !begins(s, "#") {
                            proof {
                                lemma_entry_refers(all, i as int);
                            }
                            return true;
                        }
                    }
                }
                if has_remote_ref(&e[i].1) {
                    proof {
                        lemma_entry_refers(all, i as int);
                    }
                    return true;
                }
                i = i + 1;
            }
            false
        },
        Json::List(v) => {
            let ghost all = trees(v@);
            let mut i: usize = 0;
            while i < v.len()
                invariant
                    i <= v@.len(),
                    *j == Json::List(*v),
                    j@ == Tree::List(all),
                    all == trees(v@),
                    forall|k: int| 0 <= k < i ==> !remote_ref(#[trigger] all[k]),
                decreases v.len() - i,
            {
                assert(decreases_to!(*j => j->List_0));
                assert(decreases_to!(j->List_0 => j->List_0@[i as int]));
                assert(all[i as int] == v@[i as int]@);
                if has_remote_ref(&v[i]) {
                    proof {
                        lemma_item_refers(all, i as int);
                    }
                    return true;
                }
                i = i + 1;
            }
            false
        },
        _ => false,
    }
}

/// Why a schema cannot be used, if it cannot: its root has to be an object, and it
/// may refer to nothing outside itself.
pub open spec fn schema_problem(t: Tree) -> Option<Seq<char>> {
    if str_arg(t, "type"@) != Some("object"@) {
        Some(
            "provider tool schema must have an object root; schema was not translated"@,
        )
    } else if remote_ref(t) {
        Some(
            "external JSON Schema references unsupported; schema was not translated"@,
        )
    } else {
        None
    }
}

/// Why a schema cannot be used, if it cannot.
pub fn validate_schema(schema: &Json) -> (r: Option<String>)
    ensures
        crate::text::opt_view(r) == schema_problem(schema@),
{
    let rooted = match get_str(schema, "type") {
        Some(t) => same(t, "object"),
        None => false,
    };
    if !rooted {
        return Some(
            "provider tool schema must have an object root; schema was not translated".to_owned(),
        );
    }
    if has_remote_ref(schema) {
        return Some(
            "external JSON Schema references unsupported; schema was not translated".to_owned(),
        );
    }
    None
}

// ---- laws -------------------------------------------------------------------

/// Does a value hold a text under a credential's name, at any depth, other than the
/// mark that stands for one?
pub open spec fn shows_secret(t: Tree) -> bool
    decreases t,
{
    match t {
        Tree::Object(e) => exists|i: int|
            0 <= i < e.len() && if secret_key((#[trigger] e[i]).0) {
                e[i].1 != Tree::Text("[redacted]"@)
            } else {
                shows_secret(e[i].1)
            },
        Tree::List(v) => exists|i: int| 0 <= i < v.len() && shows_secret(#[trigger] v[i]),
        _ => false,
    }
}

/// A redacted value shows nothing under a credential's name, however deep it lies.
pub proof fn redaction_hides_every_secret(t: Tree)
    ensures
        !shows_secret(redacted(t)),
    decreases t,
{
    match t {
        Tree::Object(e) => {
            let r = redacted(t)->Object_0;
            assert forall|i: int| 0 <= i < r.len() implies !(if secret_key((#[trigger] r[i]).0) {
                r[i].1 != Tree::Text("[redacted]"@)
            } else {
                shows_secret(r[i].1)
            }) by {
                redaction_hides_every_secret(e[i].1);
            }
        },
        Tree::List(v) => {
            let r = redacted(t)->List_0;
            assert forall|i: int| 0 <= i < r.len() implies !shows_secret(#[trigger] r[i]) by {
                redaction_hides_every_secret(v[i]);
            }
        },
        _ => {},
    }
}

/// Redacting twice changes nothing more.
pub proof fn redaction_is_stable(t: Tree)
    ensures
        redacted(redacted(t)) == redacted(t),
    decreases t,
{
    match t {
        Tree::Object(e) => {
            let r = redacted(t)->Object_0;
            let rr = redacted(redacted(t))->Object_0;
            assert forall|i: int| 0 <= i < r.len() implies rr[i] == r[i] by {
                redaction_is_stable(e[i].1);
            }
            assert(rr =~= r);
        },
        Tree::List(v) => {
            let r = redacted(t)->List_0;
            let rr = redacted(redacted(t))->List_0;
            assert forall|i: int| 0 <= i < r.len() implies rr[i] == r[i] by {
                redaction_is_stable(v[i]);
            }
            assert(rr =~= r);
        },
        _ => {},
    }
}

} // verus!
