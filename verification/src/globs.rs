//! The trusted boundary around glob matching.
//!
//! The configured overrides (files to ignore, tests to ignore or always
//! run, files whose change triggers every test) are glob sets; building and
//! matching them is the glob crate's work, named here so the selection
//! contracts can speak about it.

use vstd::prelude::*;

verus! {

#[verifier::external_type_specification]
#[verifier::external_body]
pub struct ExGlobSet(globset::GlobSet);

#[verifier::external_type_specification]
#[verifier::external_body]
pub struct ExGlobError(globset::Error);

/// The patterns a glob set was built from.
pub uninterp spec fn glob_set_patterns(g: globset::GlobSet) -> Set<Seq<char>>;

/// Does the glob crate accept this list of patterns and build a matcher
/// from it? Success depends on the pattern texts alone. (The set is built
/// as one combined matcher, so this is a predicate of the whole list: the
/// crate's source does not promise that success splits per pattern.)
pub uninterp spec fn glob_set_ok(patterns: Seq<Seq<char>>) -> bool;

/// Whether the single glob pattern matches the path; matching depends on
/// the pattern and the path alone.
pub uninterp spec fn glob_match(pattern: Seq<char>, path: Seq<char>) -> bool;

/// Does some pattern of the set match the path?
pub open spec fn matches_any(g: globset::GlobSet, path: Seq<char>) -> bool {
    exists|p: Seq<char>| glob_set_patterns(g).contains(p) && glob_match(p, path)
}

/// Relies on globset::Glob::new, GlobSetBuilder::add and
/// GlobSetBuilder::build: whether the build succeeds depends on the pattern
/// texts alone, an empty list always builds, and a successfully built set
/// holds exactly the given patterns.
#[verifier::external_body]
pub(crate) fn build_glob_set_raw(globs: &Vec<String>) -> (r: Result<
    globset::GlobSet,
    globset::Error,
>)
    ensures
        r is Ok <==> glob_set_ok(globs.deep_view()),
        globs.len() == 0 ==> r is Ok,
        r matches Ok(g) ==> glob_set_patterns(g) == globs.deep_view().to_set(),
{
    let mut builder = globset::GlobSetBuilder::new();
    for glob in globs {
        builder.add(globset::Glob::new(glob)?);
    }
    builder.build()
}

/// Relies on globset::GlobSet::is_match: true exactly when some pattern of
/// the set matches the path.
#[verifier::external_body]
pub(crate) fn glob_set_matches(g: &globset::GlobSet, path: &str) -> (r: bool)
    ensures
        r == (exists|p: Seq<char>| glob_set_patterns(*g).contains(p) && glob_match(p, path@)),
        r == matches_any(*g, path@),
{
    g.is_match(path)
}

/// Relies on the Display implementation of the glob crate's error type.
#[verifier::external_body]
pub(crate) fn glob_error_message(e: &globset::Error) -> (r: String) {
    e.to_string()
}

} // verus!
