//! Regular expressions, as the `regex` crate reads them.
use vstd::prelude::*;

verus! {

/// The message with which `regex::Regex::new` refuses a pattern, if it does.
pub uninterp spec fn regex_error(pat: Seq<char>) -> Option<Seq<char>>;

/// What `regex::Regex::is_match` says of a text, for a pattern that compiles.
pub uninterp spec fn regex_match(pat: Seq<char>, text: Seq<char>) -> bool;

/// Which of `texts` the pattern matches.
///
/// `regex::Regex::new` compiles the pattern or refuses it with a message, and
/// `regex::Regex::is_match` then says of each text whether it holds a match.
/// Both depend on nothing but the pattern and the text.
#[verifier::external_body]
pub(crate) fn match_each(pat: &str, texts: &Vec<String>) -> (r: Result<Vec<bool>, String>)
    ensures
        match r {
            Ok(found) => regex_error(pat@) is None && found@.len() == texts@.len() && forall|i: int|
                0 <= i < texts@.len() ==> found@[i] == regex_match(pat@, #[trigger] texts@[i]@),
            Err(e) => regex_error(pat@) == Some(e@),
        },
{
    match regex::Regex::new(pat) {
        Ok(re) => Ok(texts.iter().map(|t| re.is_match(t)).collect()),
        Err(e) => Err(e.to_string()),
    }
}

} // verus!
