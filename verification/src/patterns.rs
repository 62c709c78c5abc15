//! Regular-expression rewriting and matching, done by the `regex` crate.
//!
//! A pattern is compiled with `regex::Regex::new` at each use; the text that
//! a pattern rewrites or captures is named by an uninterpreted spec function
//! of the pattern, the text and the replacement or group.

use vstd::prelude::*;

verus! {

/// What `Regex::replace_all` returns for the compiled `pattern` on `haystack`
/// with `replacement`; `None` when `pattern` does not compile.
pub uninterp spec fn regex_replace_all_result(
    pattern: Seq<char>,
    haystack: Seq<char>,
    replacement: Seq<char>,
) -> Option<Seq<char>>;

/// The text of capture group `group` of the leftmost match of the compiled
/// `pattern` in `haystack`, as `Regex::captures` and `Captures::get` give it;
/// `None` when `pattern` does not compile, nothing matches, or the group did
/// not take part in the match.
pub uninterp spec fn regex_capture_result(
    pattern: Seq<char>,
    haystack: Seq<char>,
    group: nat,
) -> Option<Seq<char>>;

/// Compiles `pattern` with `regex::Regex::new` and calls `Regex::replace_all`
/// on `haystack` with `replacement` (`$n` in it stands for group `n`). The
/// contract claims that the result is a function of the three strings, and
/// two facts of the cleanup patterns, where `\s` is Unicode white space:
/// - `([(\[])\s+` compiles, and replacing its matches by `$1` leaves no `(`
///   or `[` followed by white space: each match keeps its bracket and drops
///   the whole white-space run after it, and a bracket with white space after
///   it outside the matches would itself start a match.
/// - The dash-quote, quote-opening and split-word patterns, with their
///   replacements, keep a text free of that: their matches and replacements
///   hold no bracket, and each replacement starts with a character of the
///   match that is not white space (a dash, a quote or a letter).
#[verifier::external_body]
pub(crate) fn regex_replace_all(pattern: &str, haystack: &str, replacement: &str) -> (r: Option<String>)
    ensures
        match r {
            Some(s) => regex_replace_all_result(pattern@, haystack@, replacement@) == Some(s@),
            None => regex_replace_all_result(pattern@, haystack@, replacement@) is None,
        },
        pattern@ == crate::taz::normalize::RE_OPENING@ && replacement@
            == crate::taz::normalize::KEEP_FIRST@ ==> r is Some
            && crate::taz::normalize::no_space_after_opening(r.unwrap()@),
        crate::taz::normalize::keeps_openings_tight(pattern@, replacement@)
            && crate::taz::normalize::no_space_after_opening(haystack@) ==> (r matches Some(s)
            ==> crate::taz::normalize::no_space_after_opening(s@)),
{
    match regex::Regex::new(pattern) {
        Ok(re) => Some(re.replace_all(haystack, replacement).into_owned()),
        Err(_) => None,
    }
}

/// Compiles `pattern` with `regex::Regex::new` and returns the text of group
/// `group` of `Regex::captures` on `haystack`. The contract claims that the
/// result is a function of the pattern, the haystack and the group, and, for
/// the article-id pattern `(?:%21|!)(\d+)(?:/|$)`, two facts of the leftmost
/// match: group 1 (`\d+`, one or more digits) is never empty when it matched;
/// and where the first `!` or `%21` of the haystack is a `!` followed by ASCII
/// digits and a `/`, the leftmost match starts there and group 1 is exactly
/// those digits (no match can start earlier, and `\d+` takes the whole digit
/// run because a `/` ends it).
#[verifier::external_body]
pub(crate) fn regex_capture(pattern: &str, haystack: &str, group: usize) -> (r: Option<String>)
    ensures
        match r {
            Some(s) => regex_capture_result(pattern@, haystack@, group as nat) == Some(s@),
            None => regex_capture_result(pattern@, haystack@, group as nat) is None,
        },
        pattern@ == crate::identity::ARTICLE_ID_PATTERN@ && group == 1 ==> (r matches Some(s)
            ==> s@.len() > 0),
        pattern@ == crate::identity::ARTICLE_ID_PATTERN@ && group == 1
            && crate::identity::first_bang_id(haystack@) is Some ==> r is Some && Some(
            r.unwrap()@) == crate::identity::first_bang_id(haystack@),
{
    match regex::Regex::new(pattern) {
        Ok(re) => re.captures(haystack).and_then(|c| c.get(group)).map(|m| m.as_str().to_owned()),
        Err(_) => None,
    }
}

} // verus!
