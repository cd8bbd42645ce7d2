//! `write`: create or overwrite a file, and show what changed.
use vstd::prelude::*;
use vstd::string::*;

use crate::text::{byte_len, dec, decimal, utf8_len};
use crate::tools::{fine, ToolOutput};

verus! {

/// Writes files.
pub struct WriteTool;

/// What happened to a line.
#[derive(Debug, Clone, Copy, PartialEq, Eq, Structural)]
pub enum Change {
    Equal,
    Delete,
    Insert,
}

/// The changes, line by line, that `similar::TextDiff::from_lines` finds.
pub uninterp spec fn line_changes(old: Seq<char>, new: Seq<char>) -> Seq<Change>;

/// The unified diff that `similar` writes for two texts.
pub uninterp spec fn diff_text(
    old: Seq<char>,
    new: Seq<char>,
    radius: usize,
    before: Seq<char>,
    after: Seq<char>,
) -> Seq<char>;

/// `similar::TextDiff::from_lines` depends on the two texts alone; its changes are
/// handed over in order.
#[verifier::external_body]
fn changes(old: &str, new: &str) -> (r: Vec<Change>)
    ensures
        r@ == line_changes(old@, new@),
{
    similar::TextDiff::from_lines(old, new).iter_all_changes().map(|c| match c.tag() {
        similar::ChangeTag::Equal => Change::Equal,
        similar::ChangeTag::Delete => Change::Delete,
        similar::ChangeTag::Insert => Change::Insert,
    }).collect()
}

/// `similar::TextDiff::unified_diff` depends on the two texts, the radius and the
/// headers alone. It doubles the radius, which must not overflow.
#[verifier::external_body]
fn unified(old: &str, new: &str, radius: usize, before: &str, after: &str) -> (r: String)
    requires
        radius <= usize::MAX / 2,
    ensures
        r@ == diff_text(old@, new@, radius, before@, after@),
{
    similar::TextDiff::from_lines(old, new).unified_diff().context_radius(radius).header(
        before,
        after,
    ).to_string()
}

/// How many of the first `n` changes are of that kind.
pub open spec fn count_of(cs: Seq<Change>, kind: Change, n: nat) -> nat
    decreases n,
{
    if n == 0 {
        0
    } else {
        count_of(cs, kind, (n - 1) as nat) + if cs[n - 1] == kind {
            1nat
        } else {
            0nat
        }
    }
}

/// How many of the changes are of that kind.
pub fn count_changes(cs: &Vec<Change>, kind: Change) -> (r: usize)
    ensures
        r == count_of(cs@, kind, cs@.len()),
{
    let mut n: usize = 0;
    let mut i: usize = 0;
    while i < cs.len()
        invariant
            i <= cs@.len(),
            n == count_of(cs@, kind, i as nat),
            n <= i,
        decreases cs.len() - i,
    {
        if cs[i] == kind {
            n = n + 1;
        }
        i = i + 1;
    }
    n
}

/// A summary line for the changes, given how many lines came and went.
pub open spec fn change_summary(label: Seq<char>, inserted: nat, deleted: nat) -> Seq<char> {
    label + " (+"@ + dec(inserted) + " -"@ + dec(deleted) + ")"@
}

/// A summary line and the diff, given the changes.
pub open spec fn diff_shown(label: Seq<char>, cs: Seq<Change>, body: Seq<char>) -> Seq<char> {
    let inserted = count_of(cs, Change::Insert, cs.len());
    let deleted = count_of(cs, Change::Delete, cs.len());
    if inserted == 0 && deleted == 0 {
        change_summary(label, inserted, deleted) + " — no changes"@
    } else {
        change_summary(label, inserted, deleted) + "\n"@ + body
    }
}

/// A summary line and the diff, given the changes.
pub fn show_diff(label: &str, cs: &Vec<Change>, body: &str) -> (r: String)
    ensures
        r@ == diff_shown(label@, cs@, body@),
{
    let inserted = count_changes(cs, Change::Insert);
    let deleted = count_changes(cs, Change::Delete);
    let mut s = label.to_owned();
    s.append(" (+");
    let n = decimal(inserted as u128);
    s.append(n.as_str());
    s.append(" -");
    let n = decimal(deleted as u128);
    s.append(n.as_str());
    s.append(")");
    if inserted == 0 && deleted == 0 {
        s.append(" — no changes");
    } else {
        s.append("\n");
        s.append(body);
    }
    s
}

/// A summary line and unified diff of a file change.
pub fn unified_diff(label: &str, old: &str, new: &str) -> (r: String)
    ensures
        r@ == diff_shown(
            label@,
            line_changes(old@, new@),
            diff_text(old@, new@, 3, "before"@, "after"@),
        ),
{
    let cs = changes(old, new);
    let body = unified(old, new, 3, "before", "after");
    show_diff(label, &cs, body.as_str())
}

/// What is said of a file that was written.
pub open spec fn write_label(existed: bool, path: Seq<char>, content: Seq<char>) -> Seq<char> {
    (if existed {
        "overwrote"@
    } else {
        "created"@
    }) + " "@ + path + " ("@ + dec(byte_len(content)) + " bytes)"@
}

impl WriteTool {
    /// The answer once a file was written.
    pub fn report(existed: bool, path: &str, old: &str, content: &str) -> (r: ToolOutput)
        ensures
            r@ == fine(
                diff_shown(
                    write_label(existed, path@, content@),
                    line_changes(old@, content@),
                    diff_text(old@, content@, 3, "before"@, "after"@),
                ),
            ),
    {
        let mut label = if existed {
            "overwrote".to_owned()
        } else {
            "created".to_owned()
        };
        label.append(" ");
        label.append(path);
        label.append(" (");
        let n = decimal(utf8_len(content));
        label.append(n.as_str());
        label.append(" bytes)");
        let s = unified_diff(label.as_str(), old, content);
        ToolOutput { content: s, is_error: false, fatal: false }
    }
}

// ---- laws -------------------------------------------------------------------

/// The lines that came and the lines that went are counted apart, each once: with the ones
/// that stayed they are all the lines there are.
pub proof fn every_change_is_counted_once(cs: Seq<Change>, n: nat)
    requires
        n <= cs.len(),
    ensures
        count_of(cs, Change::Insert, n) + count_of(cs, Change::Delete, n) + count_of(
            cs,
            Change::Equal,
            n,
        ) == n,
        forall|kind: Change|
            #[trigger] count_of(cs, kind, n) == 0 <==> (forall|i: int| 0 <= i < n ==> cs[i] != kind),
    decreases n,
{
    if n > 0 {
        every_change_is_counted_once(cs, (n - 1) as nat);
        assert forall|kind: Change| #[trigger] count_of(cs, kind, n) == 0 <==> (forall|i: int|
            0 <= i < n ==> cs[i] != kind) by {
            let fewer = count_of(cs, kind, (n - 1) as nat);
            if count_of(cs, kind, n) == 0 {
                assert(fewer == 0);
                assert forall|i: int| 0 <= i < n implies cs[i] != kind by {
                    if i == n - 1 {
                        assert(cs[n - 1] != kind);
                    }
                }
            }
            if (forall|i: int| 0 <= i < n ==> cs[i] != kind) {
                assert(cs[n - 1] != kind);
                assert(fewer == 0);
            }
        }
    }
}

/// A change is shown under its label with what came before what went, and with the diff
/// where there is one; that nothing changed is said just where nothing did.
pub proof fn a_change_is_told_in_numbers(label: Seq<char>, cs: Seq<Change>, body: Seq<char>)
    ensures
        ({
            let inserted = count_of(cs, Change::Insert, cs.len());
            let deleted = count_of(cs, Change::Delete, cs.len());
            let head = label + " (+"@ + dec(inserted) + " -"@ + dec(deleted) + ")"@;
            &&& (exists|i: int| 0 <= i < cs.len() && cs[i] != Change::Equal) ==> diff_shown(
                label,
                cs,
                body,
            ) == head + "\n"@ + body
            &&& (forall|i: int| 0 <= i < cs.len() ==> cs[i] == Change::Equal) ==> diff_shown(
                label,
                cs,
                body,
            ) == head + " — no changes"@
        }),
{
    every_change_is_counted_once(cs, cs.len());
    if (forall|i: int| 0 <= i < cs.len() ==> cs[i] == Change::Equal) {
        assert(count_of(cs, Change::Insert, cs.len()) == 0);
        assert(count_of(cs, Change::Delete, cs.len()) == 0);
    } else {
        let i = choose|i: int| 0 <= i < cs.len() && cs[i] != Change::Equal;
        assert(cs[i] == Change::Insert || cs[i] == Change::Delete);
    }
}

/// A file that was there is overwritten and any other is created, and the label tells its
/// size in bytes.
pub proof fn the_label_tells_what_was_written(path: Seq<char>, content: Seq<char>)
    ensures
        write_label(true, path, content) == "overwrote "@ + path + " ("@ + dec(byte_len(content))
            + " bytes)"@,
        write_label(false, path, content) == "created "@ + path + " ("@ + dec(byte_len(content))
            + " bytes)"@,
{
    reveal_strlit("overwrote ");
    reveal_strlit("overwrote");
    reveal_strlit("created ");
    reveal_strlit("created");
    reveal_strlit(" ");
    assert("overwrote"@ + " "@ =~= "overwrote "@);
    assert("created"@ + " "@ =~= "created "@);
}

} // verus!
