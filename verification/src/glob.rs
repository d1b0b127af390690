//! The glob matching of `globset`, named and called through trusted wrappers.
//! Each pattern is compiled into a one-glob `GlobSet`: `GlobSetBuilder::build`
//! reports a pattern whose matcher cannot be compiled as an error, where
//! `Glob::compile_matcher` would panic.

use vstd::prelude::*;
use globset::{Glob, GlobBuilder, GlobSetBuilder};

verus! {

/// Whether `globset` accepts `pattern` (default options): `Glob::new`
/// parses it and the one-glob `GlobSet` made of it builds.
pub uninterp spec fn glob_parses(pattern: Seq<char>) -> bool;

/// Whether the one-glob `GlobSet` that `globset` builds from `pattern`
/// (default options) matches the path `path`.
pub uninterp spec fn glob_matches(pattern: Seq<char>, path: Seq<char>) -> bool;

/// Whether `pattern`, built by `globset` case-insensitively into a
/// one-glob `GlobSet`, is accepted and matches the path `path`.
pub uninterp spec fn glob_matches_nocase(pattern: Seq<char>, path: Seq<char>) -> bool;

/// Calls `globset::Glob::new(pattern)` and, where that succeeds,
/// `GlobSetBuilder::build` on a set of that one glob; reports whether both
/// succeeded. Trusted: the result is `glob_parses` of the pattern.
#[verifier::external_body]
pub(crate) fn glob_check(pattern: &str) -> (ok: bool)
    ensures
        ok == glob_parses(pattern@),
{
    match Glob::new(pattern) {
        Ok(glob) => GlobSetBuilder::new().add(glob).build().is_ok(),
        Err(_) => false,
    }
}

/// Builds the one-glob `GlobSet` of `pattern` as `glob_check` does and
/// calls `GlobSet::is_match` on `path`; a pattern that does not build
/// matches nothing. Trusted: the result is `glob_matches` of the two.
#[verifier::external_body]
pub(crate) fn glob_is_match(pattern: &str, path: &str) -> (m: bool)
    requires
        glob_parses(pattern@),
    ensures
        m == glob_matches(pattern@, path@),
{
    match Glob::new(pattern) {
        Ok(glob) => match GlobSetBuilder::new().add(glob).build() {
            Ok(set) => set.is_match(path),
            Err(_) => false,
        },
        Err(_) => false,
    }
}

/// Builds `pattern` with `globset::GlobBuilder` set case-insensitive into a
/// one-glob `GlobSet` and, where that succeeds, calls `GlobSet::is_match`
/// on `path`; a pattern that does not build matches nothing. Trusted: the
/// result is `glob_matches_nocase` of the two.
#[verifier::external_body]
pub(crate) fn glob_is_match_nocase(pattern: &str, path: &str) -> (m: bool)
    ensures
        m == glob_matches_nocase(pattern@, path@),
{
    match GlobBuilder::new(pattern).case_insensitive(true).build() {
        Ok(glob) => match GlobSetBuilder::new().add(glob).build() {
            Ok(set) => set.is_match(path),
            Err(_) => false,
        },
        Err(_) => false,
    }
}

} // verus!
