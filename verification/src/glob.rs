//! Compiled glob matchers. Compilation and matching are done by the
//! `globset` crate; the library speaks of them through two named results,
//! `glob_set_compiles` and `glob_set_matches`, both functions of the patterns
//! (and the candidate path) alone.

use vstd::prelude::*;

verus! {

/// Whether a pattern list compiles into a glob matcher. Names the success of
/// building a `globset::GlobSet` from the patterns (brace expansion
/// included), which depends on the pattern texts alone.
pub uninterp spec fn glob_set_compiles(patterns: Seq<Seq<char>>) -> bool;

/// Whether the matcher compiled from `patterns` matches `path`. Names the
/// result of `globset::GlobSet::is_match`, a function of the compiled
/// patterns and the candidate path alone.
pub uninterp spec fn glob_set_matches(patterns: Seq<Seq<char>>, path: Seq<char>) -> bool;

#[verifier::external_type_specification]
#[verifier::external_body]
pub struct ExGlobSet(globset::GlobSet);

/// A compiled set of glob patterns, remembering the patterns it was built
/// from.
pub struct GlobMatcher {
    set: globset::GlobSet,
    patterns: Ghost<Seq<Seq<char>>>,
}

/// Relies on globset::Glob::new and globset::GlobSetBuilder::build: compiles
/// the pattern list into one matcher, failing exactly when the patterns do
/// not compile.
#[verifier::external_body]
fn build_glob_set_raw(patterns: &Vec<String>) -> (r: Option<globset::GlobSet>)
    ensures
        r is Some <==> glob_set_compiles(patterns.deep_view()),
{
    let mut builder = globset::GlobSetBuilder::new();
    for pattern in patterns.iter() {
        match globset::Glob::new(pattern) {
            Ok(glob) => {
                builder.add(glob);
            },
            Err(_) => {
                return None;
            },
        }
    }
    builder.build().ok()
}

impl GlobMatcher {
    /// The patterns this matcher was compiled from.
    pub closed spec fn patterns(&self) -> Seq<Seq<char>> {
        self.patterns@
    }

    /// Compile a pattern list; `None` exactly when the patterns are
    /// malformed.
    pub fn build(patterns: &Vec<String>) -> (r: Option<GlobMatcher>)
        ensures
            r matches Some(m) ==> m.patterns() == patterns.deep_view(),
            r is Some <==> glob_set_compiles(patterns.deep_view()),
    {
        match build_glob_set_raw(patterns) {
            Some(set) => Some(GlobMatcher { set, patterns: Ghost(patterns.deep_view()) }),
            None => None,
        }
    }

    /// Relies on globset::GlobSet::is_match: whether any compiled pattern
    /// matches the path.
    #[verifier::external_body]
    pub fn is_match(&self, path: &str) -> (r: bool)
        ensures
            r == glob_set_matches(self.patterns(), path@),
    {
        self.set.is_match(path)
    }
}

} // verus!
