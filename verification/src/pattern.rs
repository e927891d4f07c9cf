//! Matching port names against regular expressions.
use vstd::prelude::*;
use regex::Regex;

verus! {

/// Whether the regular expression `pattern` finds a match anywhere in `text`;
/// nothing where `pattern` is no regular expression that can be compiled.
pub uninterp spec fn regex_match(pattern: Seq<char>, text: Seq<char>) -> Option<bool>;

/// Compiles `pattern` with `regex::Regex::new` and asks `Regex::is_match`
/// whether it matches anywhere in `text`.
///
/// The contract gives the answer a name and claims no more of it than that
/// it depends on the two texts alone: compilation fails or succeeds by the
/// pattern, under the crate's fixed default limits, and the search reads
/// nothing but the compiled pattern and the text.
#[verifier::external_body]
pub(crate) fn pattern_matches(pattern: &str, text: &str) -> (found: Option<bool>)
    ensures
        found == regex_match(pattern@, text@),
{
    match Regex::new(pattern) {
        Ok(regex) => Some(regex.is_match(text)),
        Err(_) => None,
    }
}

/// Whether `i` is the place of the first of `names` that `pattern` matches.
pub open spec fn is_first_match(pattern: Seq<char>, names: Seq<String>, i: int) -> bool {
    &&& 0 <= i < names.len()
    &&& regex_match(pattern, names[i]@) == Some(true)
    &&& forall|j: int| 0 <= j < i ==> regex_match(pattern, (#[trigger] names[j])@) == Some(false)
}

/// Whether `i` is the place of the first of `names` at which `pattern`
/// gives no answer, all names before it being unmatched.
pub open spec fn is_first_failure(pattern: Seq<char>, names: Seq<String>, i: int) -> bool {
    &&& 0 <= i < names.len()
    &&& regex_match(pattern, names[i]@) is None
    &&& forall|j: int| 0 <= j < i ==> regex_match(pattern, (#[trigger] names[j])@) == Some(false)
}

/// Searches `names`, in order, for the first that the regular expression
/// `pattern` matches. Fails at the first name for which the pattern gives no
/// answer because it cannot be compiled.
pub fn first_match(pattern: &str, names: &Vec<String>) -> (place: Result<Option<usize>, ()>)
    ensures
        match place {
            Ok(Some(i)) => is_first_match(pattern@, names@, i as int),
            Ok(None) => forall|j: int|
                0 <= j < names@.len() ==> regex_match(pattern@, (#[trigger] names@[j])@) == Some(
                    false,
                ),
            Err(_) => exists|i: int| is_first_failure(pattern@, names@, i),
        },
{
    let n = names.len();
    let mut i: usize = 0;
    while i < n
        invariant
            n == names@.len(),
            i <= n,
            forall|j: int|
                0 <= j < i ==> regex_match(pattern@, (#[trigger] names@[j])@) == Some(false),
        decreases n - i,
    {
        match pattern_matches(pattern, names[i].as_str()) {
            Some(true) => {
                return Ok(Some(i));
            },
            Some(false) => {},
            None => {
                assert(is_first_failure(pattern@, names@, i as int));
                return Err(());
            },
        }
        i += 1;
    }
    Ok(None)
}

} // verus!
