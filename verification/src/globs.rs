//! Trusted boundary around the `globset` crate: glob compilation and
//! set matching, with the pattern list of a builder or a compiled set
//! carried as ghost contents.

use vstd::prelude::*;

verus! {

#[verifier::external_type_specification]
#[verifier::external_body]
pub struct ExGlob(globset::Glob);

#[verifier::external_type_specification]
#[verifier::external_body]
pub struct ExGlobSet(globset::GlobSet);

#[verifier::external_type_specification]
#[verifier::external_body]
pub struct ExGlobSetBuilder(globset::GlobSetBuilder);

#[verifier::external_type_specification]
#[verifier::external_body]
pub struct ExGlobError(globset::Error);

/// Whether a pattern is valid glob syntax, i.e. whether `globset::Glob::new`
/// accepts it; a function of the pattern alone.
pub uninterp spec fn glob_ok(pattern: Seq<char>) -> bool;

/// Whether a glob pattern matches a path; a function of the pattern and the
/// path alone.
pub uninterp spec fn glob_matches(pattern: Seq<char>, path: Seq<char>) -> bool;

/// The pattern a compiled `globset::Glob` was built from.
pub uninterp spec fn glob_pattern(g: globset::Glob) -> Seq<char>;

/// The patterns added to a `globset::GlobSetBuilder` so far, in order.
pub uninterp spec fn builder_patterns(b: globset::GlobSetBuilder) -> Seq<Seq<char>>;

/// The patterns a `globset::GlobSet` was built from, in order. A built set
/// keeps only compiled matching strategies, not the pattern strings, so this
/// records the set's build provenance rather than anything recoverable from
/// the value itself; nothing here compares two sets, so each built set simply
/// carries the patterns it was built from.
pub uninterp spec fn globset_patterns(s: globset::GlobSet) -> Seq<Seq<char>>;

/// Whether compiling a pattern list into a `globset::GlobSet` succeeds; a
/// function of the pattern list alone.
pub uninterp spec fn globset_build_ok(patterns: Seq<Seq<char>>) -> bool;

/// Relies on globset::Glob::new: parses one glob pattern; the result is a
/// function of the pattern alone, and it is `Ok` exactly on valid glob syntax.
#[verifier::external_body]
pub(crate) fn glob_new(pattern: &str) -> (r: Result<globset::Glob, globset::Error>)
    ensures
        r is Ok <==> glob_ok(pattern@),
        r matches Ok(g) ==> glob_pattern(g) == pattern@,
{
    globset::Glob::new(pattern)
}

/// Relies on globset::GlobSetBuilder::new: a fresh builder holds no patterns.
#[verifier::external_body]
pub(crate) fn builder_new() -> (b: globset::GlobSetBuilder)
    ensures
        builder_patterns(b) == Seq::<Seq<char>>::empty(),
{
    globset::GlobSetBuilder::new()
}

/// Relies on globset::GlobSetBuilder::add: appends one compiled glob to the
/// builder's pattern list.
#[verifier::external_body]
pub(crate) fn builder_add(b: &mut globset::GlobSetBuilder, g: globset::Glob)
    ensures
        builder_patterns(*final(b)) == builder_patterns(*old(b)).push(glob_pattern(g)),
{
    b.add(g);
}

/// Relies on globset::GlobSetBuilder::build: compiling is a deterministic
/// function of the added patterns, so its verdict is named; on success the
/// set holds exactly the builder's patterns, in order.
#[verifier::external_body]
pub(crate) fn builder_build(b: &globset::GlobSetBuilder) -> (r: Result<
    globset::GlobSet,
    globset::Error,
>)
    ensures
        r is Ok <==> globset_build_ok(builder_patterns(*b)),
        r matches Ok(s) ==> globset_patterns(s) == builder_patterns(*b),
{
    b.build()
}

/// Relies on globset::GlobSet::is_match: true exactly when some glob of the
/// set matches the path.
#[verifier::external_body]
pub(crate) fn set_is_match(s: &globset::GlobSet, path: &str) -> (r: bool)
    ensures
        r == (exists|i: int|
            0 <= i < globset_patterns(*s).len()
                && #[trigger] glob_matches(globset_patterns(*s)[i], path@)),
{
    s.is_match(path)
}

} // verus!
