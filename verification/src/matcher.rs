//! Multi-pattern substring matching over an include set and an exclude set,
//! case-sensitive or ASCII case-insensitive. The simultaneous search is done
//! by an Aho-Corasick automaton of the `aho_corasick` crate, held behind
//! trusted wrappers whose contracts speak the character-level model of
//! `crate::text`.
use vstd::prelude::*;
use vstd::string::StrSliceExecFns;
use vstd::string::StringExecFns;

use aho_corasick::AhoCorasick;

use crate::request::SearchError;
use crate::text::any_pattern_contained;
use crate::text::chars_equal;
use crate::text::contains_pattern;
use crate::text::find_first_occurrence;
use crate::text::first_occurrence_at;
use crate::text::occurs_at;
use crate::text::sets_invalid;

verus! {

#[verifier::external_type_specification]
#[verifier::external_body]
pub struct ExAhoCorasick(AhoCorasick);

/// The patterns an automaton was built from, in order.
pub uninterp spec fn ac_patterns(ac: AhoCorasick) -> Seq<Seq<char>>;

/// Whether an automaton was built for ASCII case-insensitive matching.
pub uninterp spec fn ac_case_insensitive(ac: AhoCorasick) -> bool;

/// Whether the matching crate can build an automaton from these patterns
/// under this case flag: a deterministic function of its arguments, false
/// only on the crate's own resource limits, never for ordinary pattern sets.
pub uninterp spec fn ac_builds(patterns: Seq<Seq<char>>, ci: bool) -> bool;

/// Relies on aho_corasick::AhoCorasickBuilder: `build` stores the given
/// patterns, `ascii_case_insensitive` folds ASCII letters on both sides of
/// every later comparison; `build` fails only on its own resource limits,
/// deterministically in its arguments.
#[verifier::external_body]
fn ac_build(patterns: &Vec<String>, ci: bool) -> (r: Option<AhoCorasick>)
    ensures
        (r is Some) == ac_builds(patterns.deep_view(), ci),
        r matches Some(ac) ==> ac_patterns(ac) == patterns.deep_view()
            && ac_case_insensitive(ac) == ci,
{
    aho_corasick::AhoCorasickBuilder::new().ascii_case_insensitive(ci).build(patterns).ok()
}

/// Relies on aho_corasick::AhoCorasick::is_match: true iff some pattern of
/// the automaton occurs in the haystack as a contiguous substring, comparing
/// ASCII letters without case when the automaton was built that way.
#[verifier::external_body]
fn ac_is_match(ac: &AhoCorasick, text: &str) -> (r: bool)
    ensures
        r == any_pattern_contained(ac_patterns(*ac), text@, ac_case_insensitive(*ac)),
{
    ac.is_match(text)
}

/// One piece of a name split for rendering: its text, and whether it is the
/// matched substring.
pub struct Span {
    pub text: String,
    pub is_match: bool,
}

pub ghost struct SpecSpan {
    pub text: Seq<char>,
    pub is_match: bool,
}

impl View for Span {
    type V = SpecSpan;

    open spec fn view(&self) -> SpecSpan {
        SpecSpan { text: self.text@, is_match: self.is_match }
    }
}

impl DeepView for Span {
    type V = SpecSpan;

    open spec fn deep_view(&self) -> SpecSpan {
        self.view()
    }
}

/// The name split around its first occurrence of an include pattern of length
/// `l` at position `i`: prefix, matched substring, suffix.
pub open spec fn spec_split_spans(name: Seq<char>, i: int, l: int) -> Seq<SpecSpan> {
    seq![
        SpecSpan { text: name.subrange(0, i), is_match: false },
        SpecSpan { text: name.subrange(i, i + l), is_match: true },
        SpecSpan { text: name.subrange(i + l, name.len() as int), is_match: false },
    ]
}

/// Tests a name against a non-empty include set and a possibly empty exclude
/// set, all patterns at once.
pub struct PatternMatcher {
    pub includes: Vec<String>,
    pub excludes: Vec<String>,
    pub case_insensitive: bool,
    pub include_ac: AhoCorasick,
    pub exclude_ac: AhoCorasick,
}

impl PatternMatcher {
    /// The pattern sets a matcher may hold: a non-empty include set, and no
    /// empty pattern anywhere.
    pub open spec fn patterns_wf(self) -> bool {
        &&& self.includes@.len() > 0
        &&& forall|k: int| 0 <= k < self.includes@.len() ==> self.includes@[k]@.len() > 0
        &&& forall|k: int| 0 <= k < self.excludes@.len() ==> self.excludes@[k]@.len() > 0
    }

    /// The two automata hold exactly the two pattern sets, under the chosen
    /// case sensitivity.
    pub closed spec fn automata_wf(self) -> bool {
        &&& ac_patterns(self.include_ac) == self.includes.deep_view()
        &&& ac_case_insensitive(self.include_ac) == self.case_insensitive
        &&& ac_patterns(self.exclude_ac) == self.excludes.deep_view()
        &&& ac_case_insensitive(self.exclude_ac) == self.case_insensitive
    }

    pub open spec fn wf(self) -> bool {
        &&& self.patterns_wf()
        &&& self.automata_wf()
    }

    /// What the matcher accepts: some include pattern occurs in the name, and
    /// no exclude pattern does.
    pub open spec fn spec_matches(self, name: Seq<char>) -> bool {
        &&& any_pattern_contained(self.includes.deep_view(), name, self.case_insensitive)
        &&& !any_pattern_contained(self.excludes.deep_view(), name, self.case_insensitive)
    }

    /// Build a matcher. The pattern sets are rejected exactly when the
    /// include set is empty or some pattern is the empty string; on every
    /// other input the matcher is built exactly when the matching crate can
    /// build both automata, which it refuses only at its own resource limits.
    pub fn new(includes: Vec<String>, excludes: Vec<String>, case_insensitive: bool) -> (r: Result<
        PatternMatcher,
        SearchError,
    >)
        ensures
            sets_invalid(includes.deep_view(), excludes.deep_view()) <==> r == Err::<
                PatternMatcher,
                SearchError,
            >(SearchError::InvalidPattern),
            !sets_invalid(includes.deep_view(), excludes.deep_view()) ==> (r is Ok <==> ac_builds(
                includes.deep_view(),
                case_insensitive,
            ) && ac_builds(excludes.deep_view(), case_insensitive)),
            !sets_invalid(includes.deep_view(), excludes.deep_view()) ==> (r is Ok || r == Err::<
                PatternMatcher,
                SearchError,
            >(SearchError::MatcherBuild)),
            r matches Ok(m) ==> {
                &&& m.wf()
                &&& m.includes == includes
                &&& m.excludes == excludes
                &&& m.case_insensitive == case_insensitive
            },
    {
        proof {
            assert(includes.deep_view().len() == includes@.len());
            assert(forall|k: int|
                0 <= k < includes@.len() ==> includes.deep_view()[k] == includes@[k]@);
            assert(excludes.deep_view().len() == excludes@.len());
            assert(forall|k: int|
                0 <= k < excludes@.len() ==> excludes.deep_view()[k] == excludes@[k]@);
        }
        if includes.len() == 0 {
            return Err(SearchError::InvalidPattern);
        }
        if has_empty_pattern(&includes) || has_empty_pattern(&excludes) {
            proof {
                if exists|k: int| 0 <= k < includes@.len() && includes@[k]@.len() == 0 {
                    let k = choose|k: int| 0 <= k < includes@.len() && includes@[k]@.len() == 0;
                    assert(includes.deep_view()[k].len() == 0);
                } else {
                    let k = choose|k: int| 0 <= k < excludes@.len() && excludes@[k]@.len() == 0;
                    assert(excludes.deep_view()[k].len() == 0);
                }
            }
            return Err(SearchError::InvalidPattern);
        }
        let include_ac = match ac_build(&includes, case_insensitive) {
            Some(ac) => ac,
            None => {
                return Err(SearchError::MatcherBuild);
            },
        };
        let exclude_ac = match ac_build(&excludes, case_insensitive) {
            Some(ac) => ac,
            None => {
                return Err(SearchError::MatcherBuild);
            },
        };
        Ok(PatternMatcher { includes, excludes, case_insensitive, include_ac, exclude_ac })
    }

    /// True iff at least one include pattern occurs in `name` as a contiguous
    /// substring and no exclude pattern does, comparing ASCII letters without
    /// case when the matcher is case-insensitive.
    pub fn matches(&self, name: &str) -> (r: bool)
        requires
            self.wf(),
        ensures
            r == self.spec_matches(name@),
    {
        ac_is_match(&self.include_ac, name) && !ac_is_match(&self.exclude_ac, name)
    }

    /// Split `name` around the first occurrence of any include pattern into
    /// prefix, matched substring and suffix; a name in which no include
    /// pattern occurs comes back whole, as a single unmatched span.
    pub fn highlight(&self, name: &str) -> (r: Vec<Span>)
        requires
            self.wf(),
        ensures
            spec_highlight_ok(*self, name@, r.deep_view()),
    {
        match find_first_occurrence(&self.includes, name, self.case_insensitive) {
            None => {
                let mut spans: Vec<Span> = Vec::new();
                spans.push(Span { text: String::from_str(name), is_match: false });
                proof {
                    assert(spans.deep_view() =~= seq![
                        SpecSpan { text: name@, is_match: false },
                    ]);
                }
                spans
            },
            Some((i, k)) => {
                let len: usize = name.unicode_len();
                let plen: usize = self.includes[k].as_str().unicode_len();
                proof {
                    assert(self.includes.deep_view()[k as int] == self.includes@[k as int]@);
                    assert(occurs_at(
                        self.includes.deep_view()[k as int],
                        name@,
                        i as int,
                        self.case_insensitive,
                    ));
                }
                let prefix: &str = name.substring_char(0, i);
                let mid: &str = name.substring_char(i, i + plen);
                let suffix: &str = name.substring_char(i + plen, len);
                let mut spans: Vec<Span> = Vec::new();
                spans.push(Span { text: String::from_str(prefix), is_match: false });
                spans.push(Span { text: String::from_str(mid), is_match: true });
                spans.push(Span { text: String::from_str(suffix), is_match: false });
                proof {
                    assert(spans.deep_view() =~= spec_split_spans(name@, i as int, plen as int));
                    assert(contains_pattern(
                        self.includes.deep_view()[k as int],
                        name@,
                        self.case_insensitive,
                    ));
                }
                spans
            },
        }
    }
}

/// Some pattern of `pats` is the empty string.
fn has_empty_pattern(pats: &Vec<String>) -> (r: bool)
    ensures
        r == exists|k: int| 0 <= k < pats@.len() && pats@[k]@.len() == 0,
{
    let n: usize = pats.len();
    let mut k: usize = 0;
    while k < n
        invariant
            n == pats@.len(),
            k <= n,
            forall|q: int| 0 <= q < k ==> pats@[q]@.len() > 0,
        decreases n - k,
    {
        if pats[k].as_str().is_empty() {
            return true;
        }
        k += 1;
    }
    false
}

/// What `highlight` hands back: the name split around the first occurrence of
/// an include pattern, or the name whole when no include pattern occurs.
pub open spec fn spec_highlight_ok(
    m: PatternMatcher,
    name: Seq<char>,
    spans: Seq<SpecSpan>,
) -> bool {
    if any_pattern_contained(m.includes.deep_view(), name, m.case_insensitive) {
        exists|i: int, k: int|
            #[trigger] first_occurrence_at(m.includes.deep_view(), name, m.case_insensitive, i, k)
                && spans == spec_split_spans(name, i, m.includes.deep_view()[k].len() as int)
    } else {
        spans == seq![SpecSpan { text: name, is_match: false }]
    }
}

/// With case-sensitivity off, matching is invariant under ASCII case changes
/// of the name: two names equal character for character up to ASCII case are
/// accepted or refused together.
pub proof fn lemma_case_fold_invariant(m: PatternMatcher, a: Seq<char>, b: Seq<char>)
    requires
        m.case_insensitive,
        a.len() == b.len(),
        forall|i: int| 0 <= i < a.len() ==> chars_equal(a[i], b[i], true),
    ensures
        m.spec_matches(a) == m.spec_matches(b),
{
    lemma_any_contained_fold_invariant(m.includes.deep_view(), a, b);
    lemma_any_contained_fold_invariant(m.excludes.deep_view(), a, b);
}

/// Occurrence of a pattern is invariant under ASCII case changes of the text
/// when comparing case-insensitively.
proof fn lemma_occurs_fold_invariant(pat: Seq<char>, a: Seq<char>, b: Seq<char>, i: int)
    requires
        a.len() == b.len(),
        forall|q: int| 0 <= q < a.len() ==> chars_equal(a[q], b[q], true),
    ensures
        occurs_at(pat, a, i, true) == occurs_at(pat, b, i, true),
{
    if occurs_at(pat, a, i, true) {
        assert forall|j: int| 0 <= j < pat.len() implies chars_equal(pat[j], b[i + j], true) by {
            assert(chars_equal(pat[j], a[i + j], true));
            assert(chars_equal(a[i + j], b[i + j], true));
        }
    }
    if occurs_at(pat, b, i, true) {
        assert forall|j: int| 0 <= j < pat.len() implies chars_equal(pat[j], a[i + j], true) by {
            assert(chars_equal(pat[j], b[i + j], true));
            assert(chars_equal(a[i + j], b[i + j], true));
        }
    }
}

proof fn lemma_any_contained_fold_invariant(pats: Seq<Seq<char>>, a: Seq<char>, b: Seq<char>)
    requires
        a.len() == b.len(),
        forall|q: int| 0 <= q < a.len() ==> chars_equal(a[q], b[q], true),
    ensures
        any_pattern_contained(pats, a, true) == any_pattern_contained(pats, b, true),
{
    if any_pattern_contained(pats, a, true) {
        let k = choose|k: int| 0 <= k < pats.len() && contains_pattern(pats[k], a, true);
        let i = choose|i: int| occurs_at(pats[k], a, i, true);
        lemma_occurs_fold_invariant(pats[k], a, b, i);
        assert(occurs_at(pats[k], b, i, true));
    }
    if any_pattern_contained(pats, b, true) {
        let k = choose|k: int| 0 <= k < pats.len() && contains_pattern(pats[k], b, true);
        let i = choose|i: int| occurs_at(pats[k], b, i, true);
        lemma_occurs_fold_invariant(pats[k], a, b, i);
        assert(occurs_at(pats[k], a, i, true));
    }
}

/// Exclude precedence: a name in which any exclude pattern occurs is refused,
/// whatever the include patterns say of it.
pub proof fn lemma_exclude_precedence(m: PatternMatcher, name: Seq<char>)
    requires
        any_pattern_contained(m.excludes.deep_view(), name, m.case_insensitive),
    ensures
        !m.spec_matches(name),
{
}

} // verus!
