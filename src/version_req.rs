use vstd::prelude::*;

verus! {

/// Whether `s` is a well-formed version-requirement expression (caret, tilde,
/// wildcard, comparison operators, exact pins, comma-separated lists).
pub uninterp spec fn is_version_req(s: Seq<char>) -> bool;

/// Relies on semver::VersionReq::parse: it succeeds exactly on the strings of
/// Cargo's requirement grammar, and its outcome depends on the text alone.
#[verifier::external_body]
pub(crate) fn parses_as_version_req(s: &str) -> (r: bool)
    ensures
        r == is_version_req(s@),
{
    semver::VersionReq::parse(s).is_ok()
}

} // verus!
