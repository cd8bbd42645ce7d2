//! `edit`: exact-match replacement, one or more edits per call.
//!
//! An edit's old text has to match exactly, and uniquely unless every occurrence is
//! asked for. The edits apply in order to the text, which is written once: if any
//! edit fails, nothing is.
use vstd::prelude::*;
use vstd::string::*;

use crate::json::{
    bool_of, get_bool, get_str, list_of, member, str_arg, trees, Json, Tree,
};
use crate::list::join;
use crate::text::{
    contains, count_matches, dec, decimal, matches_in, occurs_at, replace, replace_first, replaced,
    replaced_first,
};
use crate::tools::{fine, missing, missing_argument, wrong, Output, ToolOutput};
use crate::wording::{
    made_of, nothing_is_counted_where_nothing_stands, replacing_touches_the_occurrences_alone,
    the_only_occurrence_is_replaced,
};

verus! {

/// Replaces text in files.
pub struct EditTool;

/// One replacement.
#[derive(Debug)]
pub struct EditOp {
    pub old: String,
    pub new: String,
    pub replace_all: bool,
}

/// What an `EditOp` says.
pub struct Edit {
    pub old: Seq<char>,
    pub new: Seq<char>,
    pub all: bool,
}

impl View for EditOp {
    type V = Edit;

    open spec fn view(&self) -> Edit {
        Edit { old: self.old@, new: self.new@, all: self.replace_all }
    }
}

/// What a list of edits says.
pub open spec fn edits(v: Seq<EditOp>) -> Seq<Edit> {
    Seq::new(v.len(), |i: int| v[i]@)
}

/// The edit that an object holds, if it holds one.
pub open spec fn edit_in(t: Tree) -> Option<Edit> {
    match str_arg(t, "old_string"@) {
        None => None,
        Some(old) => Some(
            Edit {
                old,
                new: match str_arg(t, "new_string"@) {
                    Some(n) => n,
                    None => seq![],
                },
                all: bool_of(member(t, "replace_all"@)) == Some(true),
            },
        ),
    }
}

/// The edits in the first `n` of a list put behind `first`, or the error for the first
/// that is none.
pub open spec fn edits_in(first: Seq<Edit>, list: Seq<Tree>, n: nat) -> Result<Seq<Edit>, Seq<char>>
    decreases n,
{
    if n == 0 {
        Ok(first)
    } else {
        match edits_in(first, list, (n - 1) as nat) {
            Err(e) => Err(e),
            Ok(before) => match edit_in(list[n - 1]) {
                Some(e) => Ok(before.push(e)),
                None => Err("edits["@ + dec((n - 1) as nat) + "]: missing old_string"@),
            },
        }
    }
}

/// The edits that a call asks for: the single one, then those of the list.
pub open spec fn edits_asked(args: Tree) -> Result<Seq<Edit>, Seq<char>> {
    let first: Seq<Edit> = match edit_in(args) {
        Some(e) => seq![e],
        None => seq![],
    };
    match list_of(member(args, "edits"@)) {
        Some(list) => edits_in(first, list, list.len()),
        None => Ok(first),
    }
}

/// How many occurrences are counted: as many as a machine number holds.
pub open spec fn counted(s: Seq<char>, pat: Seq<char>) -> nat {
    if count_matches(s, pat) <= usize::MAX {
        count_matches(s, pat)
    } else {
        usize::MAX as nat
    }
}

/// The text once an edit is applied and how many replacements were made, or why it
/// cannot be: `i` is its place in the call, `path` the file.
pub open spec fn edit_applied(text: Seq<char>, e: Edit, i: nat, path: Seq<char>) -> Result<
    (Seq<char>, nat),
    Seq<char>,
> {
    let n = counted(text, e.old);
    if n == 0 {
        Err("edit "@ + dec(i + 1) + ": old_string not found in "@ + path)
    } else if n > 1 && !e.all {
        Err(
            "edit "@ + dec(i + 1) + ": old_string is ambiguous ("@ + dec(n)
                + " matches) — add surrounding context or set replace_all"@,
        )
    } else if e.all {
        Ok((replace(text, e.old, e.new), n))
    } else {
        Ok((replace_first(text, e.old, e.new), 1))
    }
}

/// The text once the first `n` edits are applied, and how many replacements were
/// made; or the first error.
pub open spec fn edits_applied(text: Seq<char>, es: Seq<Edit>, n: nat, path: Seq<char>) -> Result<
    (Seq<char>, nat),
    Seq<char>,
>
    decreases n,
{
    if n == 0 {
        Ok((text, 0))
    } else {
        match edits_applied(text, es, (n - 1) as nat, path) {
            Err(e) => Err(e),
            Ok((t, done)) => match edit_applied(t, es[n - 1], (n - 1) as nat, path) {
                Err(e) => Err(e),
                Ok((u, more)) => Ok((u, done + more)),
            },
        }
    }
}

proof fn lemma_edit_error(text: Seq<char>, es: Seq<Edit>, n: nat, path: Seq<char>)
    requires
        n <= es.len(),
        edits_applied(text, es, n, path) is Err,
    ensures
        edits_applied(text, es, es.len(), path) == edits_applied(text, es, n, path),
    decreases es.len() - n,
{
    if n < es.len() {
        lemma_edit_error(text, es, n + 1, path);
    }
}

proof fn lemma_edits_in_error(first: Seq<Edit>, list: Seq<Tree>, n: nat)
    requires
        n <= list.len(),
        edits_in(first, list, n) is Err,
    ensures
        edits_in(first, list, list.len()) == edits_in(first, list, n),
    decreases list.len() - n,
{
    if n < list.len() {
        lemma_edits_in_error(first, list, n + 1);
    }
}

fn read_edit(j: &Json) -> (r: Option<EditOp>)
    ensures
        match r {
            Some(e) => edit_in(j@) == Some(e@),
            None => edit_in(j@) is None,
        },
{
    match get_str(j, "old_string") {
        None => None,
        Some(old) => {
            let new = match get_str(j, "new_string") {
                Some(n) => n.to_owned(),
                None => {
                    let none = String::new();
                    assert(none@ =~= seq![]);
                    none
                },
            };
            let replace_all = match get_bool(j, "replace_all") {
                Some(b) => b,
                None => false,
            };
            Some(EditOp { old: old.to_owned(), new, replace_all })
        },
    }
}

proof fn lemma_edits_push(v: Seq<EditOp>, e: EditOp)
    ensures
        edits(v.push(e)) == edits(v).push(e@),
{
    assert(edits(v.push(e)) =~= edits(v).push(e@));
}

/// The edits that a call asks for.
pub fn collect_ops(args: &Json) -> (r: Result<Vec<EditOp>, String>)
    ensures
        match edits_asked(args@) {
            Ok(es) => r matches Ok(v) && edits(v@) == es,
            Err(e) => r matches Err(t) && t@ == e,
        },
{
    let mut ops: Vec<EditOp> = Vec::new();
    assert(edits(ops@) =~= seq![]);
    if let Some(e) = read_edit(args) {
        proof {
            lemma_edits_push(ops@, e);
        }
        ops.push(e);
        assert(edits(ops@) =~= seq![e@]);
    }
    let ghost first = edits(ops@);
    if let Some(list) = args.get("edits") {
        if let Some(list) = list.as_array() {
            let ghost all = trees(list@);
            let mut i: usize = 0;
            while i < list.len()
                invariant
                    i <= list@.len(),
                    all == trees(list@),
                    edits_asked(args@) == edits_in(first, all, all.len()),
                    edits_in(first, all, i as nat) == Ok::<Seq<Edit>, Seq<char>>(edits(ops@)),
                decreases list.len() - i,
            {
                assert(all[i as int] == list@[i as int]@);
                match read_edit(&list[i]) {
                    Some(e) => {
                        proof {
                            lemma_edits_push(ops@, e);
                        }
                        ops.push(e);
                    },
                    None => {
                        proof {
                            lemma_edits_in_error(first, all, (i + 1) as nat);
                        }
                        let mut s = "edits[".to_owned();
                        let n = decimal(i as u128);
                        s.append(n.as_str());
                        s.append("]: missing old_string");
                        return Err(s);
                    },
                }
                i = i + 1;
            }
        }
    }
    Ok(ops)
}

/// What a call asks for: the file and the edits, or why nothing is done.
pub open spec fn edit_request(args: Tree) -> Result<(Seq<char>, Seq<Edit>), Output> {
    match str_arg(args, "path"@) {
        None => Err(missing("path"@)),
        Some(path) => match edits_asked(args) {
            Err(e) => Err(wrong(e)),
            Ok(es) => if es.len() == 0 {
                Err(wrong("no edits provided (need old_string/new_string or edits[])"@))
            } else {
                Ok((path, es))
            },
        },
    }
}

impl EditTool {
    /// What a call asks for: the file and the edits.
    pub fn request(args: &Json) -> (r: Result<(String, Vec<EditOp>), ToolOutput>)
        ensures
            match edit_request(args@) {
                Ok((path, es)) => r matches Ok(p) && p.0@ == path && edits(p.1@) == es,
                Err(o) => r matches Err(t) && t@ == o,
            },
    {
        let path = match get_str(args, "path") {
            Some(p) => p.to_owned(),
            None => return Err(missing_argument("path")),
        };
        match collect_ops(args) {
            Err(e) => Err(ToolOutput::error(e.as_str())),
            Ok(ops) => {
                assert(edits(ops@).len() == ops@.len());
                if ops.len() == 0 {
                    Err(
                        ToolOutput::error(
                            "no edits provided (need old_string/new_string or edits[])",
                        ),
                    )
                } else {
                    Ok((path, ops))
                }
            },
        }
    }

    /// The text once the edits are applied, and how many replacements were made; or
    /// the first error, and then nothing is to be written. `path` is only named.
    pub fn apply(text: &str, ops: &Vec<EditOp>, path: &str) -> (r: Result<(String, u128), String>)
        ensures
            match edits_applied(text@, edits(ops@), ops@.len(), path@) {
                Ok((t, n)) => r matches Ok(p) && p.0@ == t && p.1 == n,
                Err(e) => r matches Err(t) && t@ == e,
            },
    {
        let mut content = text.to_owned();
        let mut applied: u128 = 0;
        let ghost es = edits(ops@);
        let mut i: usize = 0;
        while i < ops.len()
            invariant
                i <= ops@.len(),
                es == edits(ops@),
                edits_applied(text@, es, i as nat, path@) == Ok::<(Seq<char>, nat), Seq<char>>(
                    (content@, applied as nat),
                ),
                applied <= i * usize::MAX,
            decreases ops.len() - i,
        {
            let op = &ops[i];
            assert(es[i as int] == op@);
            proof {
                if edits_applied(text@, es, (i + 1) as nat, path@) is Err {
                    lemma_edit_error(text@, es, (i + 1) as nat, path@);
                }
                assert(i * usize::MAX + usize::MAX == (i + 1) * usize::MAX) by (nonlinear_arith);
                assert((i + 1) * usize::MAX <= u64::MAX * u64::MAX) by (nonlinear_arith)
                    requires
                        i + 1 <= u64::MAX,
                        usize::MAX <= u64::MAX,
                ;
                assert(u64::MAX * u64::MAX <= u128::MAX);
            }
            let count = matches_in(content.as_str(), op.old.as_str());
            if count == 0 {
                let mut s = "edit ".to_owned();
                let n = decimal(i as u128 + 1);
                s.append(n.as_str());
                s.append(": old_string not found in ");
                s.append(path);
                return Err(s);
            }
            if count > 1 && !op.replace_all {
                let mut s = "edit ".to_owned();
                let n = decimal(i as u128 + 1);
                s.append(n.as_str());
                s.append(": old_string is ambiguous (");
                let n = decimal(count as u128);
                s.append(n.as_str());
                s.append(" matches) — add surrounding context or set replace_all");
                return Err(s);
            }
            if op.replace_all {
                content = replaced(content.as_str(), op.old.as_str(), op.new.as_str());
                applied = applied + count as u128;
            } else {
                content = replaced_first(content.as_str(), op.old.as_str(), op.new.as_str());
                applied = applied + 1;
            }
            i = i + 1;
        }
        Ok((content, applied))
    }

    /// The answer once the text was written.
    pub fn report(edits: usize, replacements: u128, path: &str) -> (r: ToolOutput)
        ensures
            r@ == fine(
                "applied "@ + dec(edits as nat) + " edit(s) ("@ + dec(replacements as nat)
                    + " replacement(s)) to "@ + path@,
            ),
    {
        let mut s = "applied ".to_owned();
        let n = decimal(edits as u128);
        s.append(n.as_str());
        s.append(" edit(s) (");
        let n = decimal(replacements);
        s.append(n.as_str());
        s.append(" replacement(s)) to ");
        s.append(path);
        ToolOutput { content: s, is_error: false, fatal: false }
    }
}

// ---- laws -------------------------------------------------------------------

/// An edit that is not told to replace every occurrence replaces the only one, so a
/// call that succeeds has touched nothing that it did not name.
pub proof fn a_single_edit_is_unique(text: Seq<char>, e: Edit, i: nat, path: Seq<char>)
    requires
        !e.all,
    ensures
        edit_applied(text, e, i, path) is Ok <==> counted(text, e.old) == 1,
        edit_applied(text, e, i, path) matches Ok((t, n)) ==> n == 1 && t == replace_first(
            text,
            e.old,
            e.new,
        ),
{
}

/// The edits are all or nothing: where one fails, the call fails with its error,
/// whatever the others would have done.
pub proof fn edits_are_all_or_nothing(text: Seq<char>, es: Seq<Edit>, k: nat, path: Seq<char>)
    requires
        k <= es.len(),
        edits_applied(text, es, k, path) is Err,
    ensures
        edits_applied(text, es, es.len(), path) == edits_applied(text, es, k, path),
{
    lemma_edit_error(text, es, k, path);
}

/// An edit whose old text stands exactly once puts the new text in its place: what is before
/// it and what is behind it stay, whether or not every occurrence was asked for.
pub proof fn an_edit_replaces_its_text_in_place(
    a: Seq<char>,
    e: Edit,
    b: Seq<char>,
    i: nat,
    path: Seq<char>,
)
    requires
        e.old.len() > 0,
        forall|k: int| #[trigger] occurs_at(a + e.old + b, e.old, k) ==> k == a.len(),
    ensures
        edit_applied(a + e.old + b, e, i, path) == Ok::<(Seq<char>, nat), Seq<char>>(
            (a + e.new + b, 1),
        ),
{
    the_only_occurrence_is_replaced(a, e.old, b, e.new);
}

/// An edit of every occurrence parts the text at each of them and puts the parts together
/// again around the new text; as many replacements are reported as there are occurrences. An
/// edit whose text does not stand anywhere fails, and so does one whose text stands more than
/// once without every occurrence being asked for.
pub proof fn an_edit_of_all_replaces_each(text: Seq<char>, e: Edit, i: nat, path: Seq<char>)
    requires
        e.old.len() > 0,
    ensures
        edit_applied(text, e, i, path) is Err <==> !contains(text, e.old) || (!e.all
            && count_matches(text, e.old) > 1),
        e.all ==> (edit_applied(text, e, i, path) matches Ok((t, n)) ==> exists|
            ps: Seq<Seq<char>>,
        |
            #[trigger] made_of(text, ps, e.old) && t == join(ps, e.new) && (n == ps.len() - 1 || n
                == usize::MAX)),
{
    nothing_is_counted_where_nothing_stands(text, e.old);
    replacing_touches_the_occurrences_alone(text, e.old, e.new);
}

/// Two replacements are the same but for the place of the edit that failed.
pub open spec fn alike(
    a: Result<(Seq<char>, nat), Seq<char>>,
    b: Result<(Seq<char>, nat), Seq<char>>,
) -> bool {
    match (a, b) {
        (Ok(x), Ok(y)) => x == y,
        (Err(_), Err(_)) => true,
        _ => false,
    }
}

/// Edits apply in order to the same text: applying a list of edits is applying the first part
/// of the list, and then the rest of it to what came out, with the replacements of both added
/// up; it fails where either fails.
pub proof fn edits_apply_one_after_another(
    text: Seq<char>,
    first: Seq<Edit>,
    then: Seq<Edit>,
    path: Seq<char>,
)
    ensures
        ({
            let all = first + then;
            let whole = edits_applied(text, all, all.len(), path);
            match edits_applied(text, first, first.len(), path) {
                Err(e) => whole == Err::<(Seq<char>, nat), Seq<char>>(e),
                Ok((t, n)) => alike(
                    whole,
                    match edits_applied(t, then, then.len(), path) {
                        Ok((u, m)) => Ok((u, n + m)),
                        Err(e) => Err(e),
                    },
                ),
            }
        }),
        edits_applied(text, seq![], 0, path) == Ok::<(Seq<char>, nat), Seq<char>>((text, 0)),
        first.len() == 1 ==> alike(
            edits_applied(text, first, 1, path),
            edit_applied(text, first[0], 0, path),
        ),
{
    lemma_edits_first(text, first, then, first.len(), path);
    lemma_edits_then(text, first, then, then.len(), path);
    let all = first + then;
    if edits_applied(text, first, first.len(), path) is Err {
        lemma_edit_error(text, all, first.len(), path);
    }
    if first.len() == 1 {
        assert(edits_applied(text, first, 0, path) == Ok::<(Seq<char>, nat), Seq<char>>((text, 0)));
    }
}

proof fn lemma_edits_first(
    text: Seq<char>,
    first: Seq<Edit>,
    then: Seq<Edit>,
    n: nat,
    path: Seq<char>,
)
    requires
        n <= first.len(),
    ensures
        edits_applied(text, first + then, n, path) == edits_applied(text, first, n, path),
    decreases n,
{
    if n > 0 {
        lemma_edits_first(text, first, then, (n - 1) as nat, path);
        assert((first + then)[n - 1] == first[n - 1]);
    }
}

proof fn lemma_edits_then(
    text: Seq<char>,
    first: Seq<Edit>,
    then: Seq<Edit>,
    n: nat,
    path: Seq<char>,
)
    requires
        n <= then.len(),
    ensures
        edits_applied(text, first, first.len(), path) matches Ok((t, k)) ==> alike(
            edits_applied(text, first + then, first.len() + n, path),
            match edits_applied(t, then, n, path) {
                Ok((u, m)) => Ok((u, k + m)),
                Err(e) => Err(e),
            },
        ),
    decreases n,
{
    lemma_edits_first(text, first, then, first.len(), path);
    if n > 0 {
        lemma_edits_then(text, first, then, (n - 1) as nat, path);
        assert((first + then)[first.len() + n - 1] == then[n - 1]);
    }
}

/// Two edits whose texts stand apart, each exactly once, both take place: the result holds
/// both new texts, and what was before, between and behind them.
pub proof fn two_edits_both_take_place(
    a: Seq<char>,
    x: Edit,
    b: Seq<char>,
    y: Edit,
    c: Seq<char>,
    path: Seq<char>,
)
    requires
        x.old.len() > 0,
        y.old.len() > 0,
        forall|k: int|
            #[trigger] occurs_at(a + x.old + (b + y.old + c), x.old, k) ==> k == a.len(),
        forall|k: int|
            #[trigger] occurs_at((a + x.new + b) + y.old + c, y.old, k) ==> k == (a + x.new
                + b).len(),
    ensures
        edits_applied(a + x.old + (b + y.old + c), seq![x, y], 2, path) == Ok::<
            (Seq<char>, nat),
            Seq<char>,
        >((a + x.new + b + y.new + c, 2)),
{
    let text = a + x.old + (b + y.old + c);
    let es = seq![x, y];
    an_edit_replaces_its_text_in_place(a, x, b + y.old + c, 0, path);
    an_edit_replaces_its_text_in_place(a + x.new + b, y, c, 1, path);
    assert(a + x.new + (b + y.old + c) =~= (a + x.new + b) + y.old + c);
    assert(edits_applied(text, es, 0, path) == Ok::<(Seq<char>, nat), Seq<char>>((text, 0)));
    assert(edits_applied(text, es, 1, path) == Ok::<(Seq<char>, nat), Seq<char>>(
        (a + x.new + (b + y.old + c), 1),
    ));
}

/// A call asks for every edit that it lists, in order and as it says it, behind the single
/// one where it has that: none is left out, and one without an old text fails the call.
pub proof fn every_listed_edit_is_asked_for(args: Tree, list: Seq<Tree>)
    requires
        list_of(member(args, "edits"@)) == Some(list),
    ensures
        ({
            let one: int = if str_arg(args, "old_string"@) is Some {
                1
            } else {
                0
            };
            match edits_asked(args) {
                Ok(es) => {
                    &&& es.len() == one + list.len()
                    &&& one == 1 ==> es[0].old == str_arg(args, "old_string"@)->0
                    &&& forall|k: int|
                        0 <= k < list.len() ==> Some((#[trigger] es[one + k]).old) == str_arg(
                            list[k],
                            "old_string"@,
                        ) && (str_arg(list[k], "new_string"@) matches Some(n) ==> es[one + k].new
                            == n) && (str_arg(list[k], "new_string"@) is None ==> es[one
                            + k].new.len() == 0) && (es[one + k].all <==> bool_of(
                            member(list[k], "replace_all"@),
                        ) == Some(true))
                },
                Err(_) => exists|k: int|
                    0 <= k < list.len() && str_arg(#[trigger] list[k], "old_string"@) is None,
            }
        }),
{
    let first: Seq<Edit> = match edit_in(args) {
        Some(e) => seq![e],
        None => seq![],
    };
    lemma_listed(first, list, list.len());
    if let Ok(es) = edits_asked(args) {
        let one = first.len() as int;
        assert forall|k: int| 0 <= k < list.len() implies Some((#[trigger] es[one + k]).old)
            == str_arg(list[k], "old_string"@) && (str_arg(list[k], "new_string"@) matches Some(n)
            ==> es[one + k].new == n) && (str_arg(list[k], "new_string"@) is None ==> es[one
            + k].new.len() == 0) && (es[one + k].all <==> bool_of(
            member(list[k], "replace_all"@),
        ) == Some(true)) by {
            assert(edit_in(list[k]) == Some(es[one + k]));
        }
        if one == 1 {
            assert(es[0] == first[0]);
        }
    }
}

proof fn lemma_listed(first: Seq<Edit>, list: Seq<Tree>, n: nat)
    requires
        n <= list.len(),
    ensures
        match edits_in(first, list, n) {
            Ok(es) => {
                &&& es.len() == first.len() + n
                &&& forall|k: int| 0 <= k < first.len() ==> es[k] == first[k]
                &&& forall|k: int|
                    0 <= k < n ==> edit_in(list[k]) == Some(#[trigger] es[first.len() + k])
            },
            Err(_) => exists|k: int|
                0 <= k < n && str_arg(#[trigger] list[k], "old_string"@) is None,
        },
    decreases n,
{
    if n > 0 {
        lemma_listed(first, list, (n - 1) as nat);
        match edits_in(first, list, (n - 1) as nat) {
            Ok(before) => {
                if let Ok(es) = edits_in(first, list, n) {
                    assert forall|k: int| 0 <= k < n implies edit_in(list[k]) == Some(
                        #[trigger] es[first.len() + k],
                    ) by {
                        if k < n - 1 {
                            assert(es[first.len() + k] == before[first.len() + k]);
                        }
                    }
                } else {
                    assert(str_arg(list[n - 1], "old_string"@) is None);
                }
            },
            Err(_) => {},
        }
    }
}

} // verus!
