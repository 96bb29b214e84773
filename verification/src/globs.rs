//! Trusted declarations around the glob-based ignore filter: compiling
//! ignore patterns into a matcher set and testing relative paths against it.

use vstd::prelude::*;

verus! {

#[verifier::external_type_specification]
#[verifier::external_body]
pub struct ExGlob(globset::Glob);

#[verifier::external_type_specification]
#[verifier::external_body]
pub struct ExGlobSet(globset::GlobSet);

#[verifier::external_type_specification]
#[verifier::external_body]
pub struct ExGlobSetBuilder(globset::GlobSetBuilder);

#[verifier::external_type_specification]
#[verifier::external_body]
pub struct ExGlobError(globset::Error);

/// Whether a pattern is a valid glob, as `globset::Glob::new` decides it.
pub uninterp spec fn glob_ok(pattern: Seq<char>) -> bool;

/// The pattern a compiled `globset::Glob` holds.
pub uninterp spec fn glob_pattern(g: globset::Glob) -> Seq<char>;

/// The patterns a `globset::GlobSetBuilder` holds, in insertion order.
pub uninterp spec fn builder_patterns(b: globset::GlobSetBuilder) -> Seq<Seq<char>>;

/// The patterns a built `globset::GlobSet` holds.
pub uninterp spec fn set_patterns(s: globset::GlobSet) -> Seq<Seq<char>>;

/// Whether `globset::GlobSetBuilder::build` succeeds on a builder holding
/// these patterns; the outcome depends on the patterns alone.
pub uninterp spec fn set_builds(pats: Seq<Seq<char>>) -> bool;

/// Whether the glob compiled from `pattern` matches the slash-normalized
/// relative path `path`, as `globset::GlobSet::is_match` decides it.
/// Candidate normalization and the default backslash-escape setting depend
/// on the compile target, so for patterns or paths containing backslashes
/// this names the result on the current target; on the slash-normalized
/// relative paths this library feeds it, it is a pure function.
pub uninterp spec fn glob_match(pattern: Seq<char>, path: Seq<char>) -> bool;

/// Relies on globset::Glob::new: compiling a pattern succeeds or fails
/// deterministically in the pattern, and a compiled glob carries its
/// pattern.
#[verifier::external_body]
pub fn glob_new(pattern: &str) -> (r: Result<globset::Glob, globset::Error>)
    ensures
        r is Ok <==> glob_ok(pattern@),
        r matches Ok(g) ==> glob_pattern(g) == pattern@,
{
    globset::Glob::new(pattern)
}

/// Relies on globset::GlobSetBuilder::new: a fresh builder holds no
/// patterns.
#[verifier::external_body]
pub fn builder_new() -> (r: globset::GlobSetBuilder)
    ensures
        builder_patterns(r) == Seq::<Seq<char>>::empty(),
{
    globset::GlobSetBuilder::new()
}

/// Relies on globset::GlobSetBuilder::add: it appends the glob (and so its
/// pattern) to the builder.
#[verifier::external_body]
pub fn builder_add(b: &mut globset::GlobSetBuilder, g: globset::Glob)
    ensures
        builder_patterns(*final(b)) == builder_patterns(*old(b)).push(glob_pattern(g)),
{
    b.add(g);
}

/// Relies on globset::GlobSetBuilder::build: whether the matcher set can be
/// assembled depends on the held patterns alone, and a successfully built
/// set holds exactly the builder's patterns.
#[verifier::external_body]
pub fn builder_build(b: &globset::GlobSetBuilder) -> (r: Result<
    globset::GlobSet,
    globset::Error,
>)
    ensures
        r is Ok <==> set_builds(builder_patterns(*b)),
        r matches Ok(s) ==> set_patterns(s) == builder_patterns(*b),
{
    b.build()
}

/// Relies on globset::GlobSet::is_match: a set matches a path exactly when
/// one of its patterns' globs does, deterministically in the patterns and
/// the slash-normalized relative path.
#[verifier::external_body]
pub fn set_is_match(s: &globset::GlobSet, path: &str) -> (r: bool)
    ensures
        r == (exists|i: int|
            0 <= i < set_patterns(*s).len() && glob_match(#[trigger] set_patterns(*s)[i], path@)),
{
    s.is_match(path)
}

} // verus!
