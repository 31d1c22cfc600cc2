//! The immutable description of one search: pattern sets, filters, depth
//! bound and output mode, validated once before any traversal.
use vstd::prelude::*;

use crate::matcher::ac_builds;
use crate::matcher::PatternMatcher;
use crate::text::sets_invalid;

verus! {

/// Which entry kinds are reported.
#[derive(Clone, Copy, Debug, PartialEq, Eq, Structural)]
pub enum KindFilter {
    Any,
    FilesOnly,
    DirsOnly,
}

/// How results are delivered: every match as a line, only the final count, or
/// only the closing statistics.
#[derive(Clone, Copy, Debug, PartialEq, Eq, Structural)]
pub enum OutputMode {
    Verbose,
    CountOnly,
    CountWithStats,
}

/// Why a request could not be built.
#[derive(Clone, Copy, Debug, PartialEq, Eq, Structural)]
pub enum SearchError {
    /// The include set is empty, or some pattern is the empty string.
    InvalidPattern,
    /// The matching automaton could not be built (a resource limit of the
    /// matching crate); never hit by ordinary pattern sets.
    MatcherBuild,
}

/// Depth bound applied when a request does not choose one.
pub const DEFAULT_MAX_DEPTH: u32 = 250;

/// Everything one traversal needs: the matcher over both pattern sets, the
/// entry filters and the depth bound.
pub struct SearchRequest {
    pub matcher: PatternMatcher,
    pub kind_filter: KindFilter,
    pub extensions: Vec<String>,
    pub suppress_hidden: bool,
    pub hidden_prunes_subtree: bool,
    pub max_depth: u32,
    pub mode: OutputMode,
}

impl SearchRequest {
    pub open spec fn wf(self) -> bool {
        self.matcher.wf()
    }

    /// Build a request. The pattern sets are rejected exactly when the
    /// include set is empty or some pattern is the empty string; on every
    /// other input the request is built exactly when the matching crate can
    /// build both automata, which it refuses only at its own resource limits.
    pub fn new(
        includes: Vec<String>,
        excludes: Vec<String>,
        case_insensitive: bool,
        kind_filter: KindFilter,
        extensions: Vec<String>,
        suppress_hidden: bool,
        hidden_prunes_subtree: bool,
        max_depth: u32,
        mode: OutputMode,
    ) -> (r: Result<SearchRequest, SearchError>)
        ensures
            sets_invalid(includes.deep_view(), excludes.deep_view()) <==> r == Err::<
                SearchRequest,
                SearchError,
            >(SearchError::InvalidPattern),
            !sets_invalid(includes.deep_view(), excludes.deep_view()) ==> (r is Ok <==> ac_builds(
                includes.deep_view(),
                case_insensitive,
            ) && ac_builds(excludes.deep_view(), case_insensitive)),
            !sets_invalid(includes.deep_view(), excludes.deep_view()) ==> (r is Ok || r == Err::<
                SearchRequest,
                SearchError,
            >(SearchError::MatcherBuild)),
            r matches Ok(q) ==> {
                &&& q.wf()
                &&& q.matcher.includes == includes
                &&& q.matcher.excludes == excludes
                &&& q.matcher.case_insensitive == case_insensitive
                &&& q.kind_filter == kind_filter
                &&& q.extensions == extensions
                &&& q.suppress_hidden == suppress_hidden
                &&& q.hidden_prunes_subtree == hidden_prunes_subtree
                &&& q.max_depth == max_depth
                &&& q.mode == mode
            },
    {
        match PatternMatcher::new(includes, excludes, case_insensitive) {
            Err(e) => Err(e),
            Ok(matcher) => Ok(
                SearchRequest {
                    matcher,
                    kind_filter,
                    extensions,
                    suppress_hidden,
                    hidden_prunes_subtree,
                    max_depth,
                    mode,
                },
            ),
        }
    }
}

} // verus!
