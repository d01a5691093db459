//! The calls into `fancy_regex` and `semver`, and the one into `str` that
//! vstd leaves open. Verus takes the contracts in this file on trust.

use vstd::prelude::*;

verus! {

/// Whether `fancy_regex::Regex::new` accepts `pattern`.
pub uninterp spec fn pattern_is_valid(pattern: Seq<char>) -> bool;

/// What a regex compiled from `pattern` with default options says of `text`:
/// `Some(found)` where `fancy_regex::Regex::is_match` returns `Ok(found)`,
/// `None` where the pattern does not compile or the match is given up.
pub uninterp spec fn match_outcome(pattern: Seq<char>, text: Seq<char>) -> Option<bool>;

/// Whether `semver::Version::parse` accepts `text`.
pub uninterp spec fn version_is_valid(text: Seq<char>) -> bool;

/// Whether `semver::VersionReq::parse` accepts `text`.
pub uninterp spec fn requirement_is_valid(text: Seq<char>) -> bool;

/// Whether the version requirement written as `requirement` admits the
/// version written as `version`: `Some` of what `semver::VersionReq::matches`
/// returns, `None` where either text does not parse.
pub uninterp spec fn requirement_outcome(requirement: Seq<char>, version: Seq<char>) -> Option<
    bool,
>;

/// Calls `fancy_regex::Regex::new` and reports whether it returned `Ok`.
/// The result is a function of the pattern alone; the contract names it.
#[verifier::external_body]
pub(crate) fn pattern_compiles(pattern: &str) -> (ok: bool)
    ensures
        ok == pattern_is_valid(pattern@),
{
    fancy_regex::Regex::new(pattern).is_ok()
}

/// Compiles `pattern` with `fancy_regex::Regex::new` and asks
/// `fancy_regex::Regex::is_match` whether it matches anywhere in `text`.
/// Both calls are deterministic in their arguments; the contract names the
/// result and claims nothing else of it.
#[verifier::external_body]
pub(crate) fn pattern_matches(pattern: &str, text: &str) -> (outcome: Option<bool>)
    ensures
        outcome == match_outcome(pattern@, text@),
{
    match fancy_regex::Regex::new(pattern) {
        Ok(regex) => match regex.is_match(text) {
            Ok(found) => Some(found),
            Err(_) => None,
        },
        Err(_) => None,
    }
}

/// Calls `semver::Version::parse` and reports whether it returned `Ok`.
#[verifier::external_body]
pub(crate) fn version_parses(text: &str) -> (ok: bool)
    ensures
        ok == version_is_valid(text@),
{
    semver::Version::parse(text).is_ok()
}

/// Calls `semver::VersionReq::parse` and reports whether it returned `Ok`.
#[verifier::external_body]
pub(crate) fn requirement_parses(text: &str) -> (ok: bool)
    ensures
        ok == requirement_is_valid(text@),
{
    semver::VersionReq::parse(text).is_ok()
}

/// Parses both texts and calls `semver::VersionReq::matches` on the results.
/// The contract names the result and claims nothing else of it.
#[verifier::external_body]
pub(crate) fn requirement_admits(requirement: &str, version: &str) -> (outcome: Option<bool>)
    ensures
        outcome == requirement_outcome(requirement@, version@),
{
    match (semver::VersionReq::parse(requirement), semver::Version::parse(version)) {
        (Ok(req), Ok(ver)) => Some(req.matches(&ver)),
        _ => None,
    }
}

/// Calls `str::starts_with` with a string pattern, which std documents as
/// true exactly when the pattern is a prefix of the slice.
#[verifier::external_body]
pub(crate) fn text_starts_with(text: &str, prefix: &str) -> (r: bool)
    ensures
        r == prefix@.is_prefix_of(text@),
{
    text.starts_with(prefix)
}

} // verus!
