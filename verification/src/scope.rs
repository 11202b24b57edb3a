//! The scope of a directory search.

use vstd::prelude::*;
use crate::text::same_text;

verus! {

/// How far below its base a search reaches.
#[derive(Clone, Copy, Debug, PartialEq, Eq, Structural)]
pub enum SearchScope {
    /// The base entry alone.
    Base,
    /// The entries directly below the base.
    OneLevel,
    /// The base and everything below it.
    Subtree,
}

/// The scope that a lower-case word names, if it names one.
pub open spec fn scope_named(word: Seq<char>) -> Option<SearchScope> {
    if word == "base"@ {
        Some(SearchScope::Base)
    } else if word == "one"@ {
        Some(SearchScope::OneLevel)
    } else if word == "subtree"@ {
        Some(SearchScope::Subtree)
    } else {
        None
    }
}

/// What `str::to_lowercase` returns for a string.
pub uninterp spec fn lowercase_of(s: Seq<char>) -> Seq<char>;

/// Calls `str::to_lowercase`. The result is named `lowercase_of`: the
/// lower-case form of a string by Unicode's tables, the same for the same
/// string everywhere.
#[verifier::external_body]
fn lowercase(s: &str) -> (lower: String)
    ensures
        lower@ == lowercase_of(s@),
{
    s.to_lowercase()
}

/// The scope that `word` names, written in lower case.
pub fn scope_from_word(word: &str) -> (scope: Option<SearchScope>)
    ensures
        scope == scope_named(word@),
{
    if same_text(word, "base") {
        Some(SearchScope::Base)
    } else if same_text(word, "one") {
        Some(SearchScope::OneLevel)
    } else if same_text(word, "subtree") {
        Some(SearchScope::Subtree)
    } else {
        None
    }
}

/// The scope that `s` names, whatever the case of its letters.
pub fn parse_scope(s: &str) -> (scope: Option<SearchScope>)
    ensures
        scope == scope_named(lowercase_of(s@)),
{
    let lower = lowercase(s);
    scope_from_word(lower.as_str())
}

} // verus!
