//! Unique ids, as the `uuid` crate reads and makes them.
use vstd::prelude::*;
use vstd::string::*;

use crate::text::{opt_view, same};

verus! {

/// The hyphenated lower-case form of the id that `uuid::Uuid::parse_str` reads from
/// a text, if it reads one.
pub uninterp spec fn uuid_text(s: Seq<char>) -> Option<Seq<char>>;

/// Is a text in the hyphenated lower-case form: groups of hexadecimal digits?
pub open spec fn hyphenated(s: Seq<char>) -> bool {
    &&& s.len() == 36
    &&& forall|i: int|
        0 <= i < 36 ==> if i == 8 || i == 13 || i == 18 || i == 23 {
            #[trigger] s[i] == '-'
        } else {
            ('0' <= s[i] && s[i] <= '9') || ('a' <= s[i] && s[i] <= 'f')
        }
}

/// `uuid::Uuid::parse_str` depends on the text alone, and `to_string` of what it reads
/// has the hyphenated lower-case form.
#[verifier::external_body]
fn parse_uuid(s: &str) -> (r: Option<String>)
    ensures
        opt_view(r) == uuid_text(s@),
        r matches Some(t) ==> hyphenated(t@),
{
    uuid::Uuid::parse_str(s).ok().map(|u| u.to_string())
}

/// `uuid::Uuid::new_v4` makes a random id; whichever it is, its text has the hyphenated
/// lower-case form and reads back as itself.
#[verifier::external_body]
fn random_uuid() -> (r: String)
    ensures
        uuid_text(r@) == Some(r@),
        hyphenated(r@),
{
    uuid::Uuid::new_v4().to_string()
}

/// Does a text read as an id, in any of its spellings?
pub fn is_id(s: &str) -> (r: bool)
    ensures
        r == (uuid_text(s@) is Some),
{
    parse_uuid(s).is_some()
}

/// Is a text an id in its one canonical spelling?
pub open spec fn canonical(s: Seq<char>) -> bool {
    uuid_text(s) == Some(s)
}

/// Is a text an id in its one canonical spelling, given what it reads as?
pub fn reads_as_itself(s: &str, read: &Option<String>) -> (r: bool)
    ensures
        r == (opt_view(*read) == Some(s@)),
{
    match read {
        Some(t) => same(t.as_str(), s),
        None => false,
    }
}

/// Is a text an id in its one canonical spelling?
pub fn is_canonical(s: &str) -> (r: bool)
    ensures
        r == canonical(s@),
        r ==> hyphenated(s@),
{
    reads_as_itself(s, &parse_uuid(s))
}

/// A fresh id, in its canonical spelling.
pub fn fresh() -> (r: String)
    ensures
        canonical(r@),
        hyphenated(r@),
{
    random_uuid()
}

} // verus!
