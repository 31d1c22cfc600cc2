//! The traversal engine: a depth-bounded, pruning walk over a directory
//! snapshot. Every visited entry is counted; entries the filter lets through
//! are tested against the matcher; unreadable directories yield one warning
//! each and never abort the walk.
use vstd::prelude::*;
use vstd::string::StringExecFns;

use crate::filter::should_consider;
use crate::filter::should_descend;
use crate::filter::spec_should_consider;
use crate::filter::spec_should_descend;
use crate::request::OutputMode;
use crate::request::SearchRequest;
use crate::stats::SearchStats;
use crate::text::str_eq;
use crate::tree::lemma_size_list_take_le;
use crate::tree::lemma_size_list_take_step;
use crate::tree::size_list;
use crate::tree::EntryKind;
use crate::tree::ErrorClass;
use crate::tree::TreeNode;

verus! {

/// Path of a child of directory `parent` named `name`.
pub open spec fn spec_join(parent: Seq<char>, name: Seq<char>) -> Seq<char> {
    parent + seq!['/'] + name
}

/// Join a directory path and a child name with the path separator.
pub fn join_path(parent: &str, name: &str) -> (r: String)
    ensures
        r@ == spec_join(parent@, name@),
{
    let mut s: String = String::from_str(parent);
    s.append("/");
    s.append(name);
    proof {
        reveal_strlit("/");
        assert(s@ =~= spec_join(parent@, name@));
    }
    s
}

/// Resolve the root argument of a search: a bare "." names the current
/// working directory, any other argument names itself. The caller supplies
/// what the working directory is; the decision is made here.
pub fn resolve_root(path: &str, cwd: &str) -> (r: String)
    ensures
        path@ == "."@ ==> r@ == cwd@,
        path@ != "."@ ==> r@ == path@,
{
    if str_eq(path, ".") {
        String::from_str(cwd)
    } else {
        String::from_str(path)
    }
}

/// One visited entry: the path of the directory that holds it, the node
/// itself, and its depth below the search root.
pub ghost struct SpecVisit {
    pub parent: Seq<char>,
    pub node: TreeNode,
    pub depth: int,
}

pub ghost struct SpecMatch {
    pub parent: Seq<char>,
    pub name: Seq<char>,
}

pub ghost struct SpecWarning {
    pub path: Seq<char>,
    pub class: ErrorClass,
}

/// One reported match: the directory that holds the entry, and its name.
#[derive(Clone, Debug, PartialEq, Eq)]
pub struct MatchRecord {
    pub parent: String,
    pub name: String,
}

impl MatchRecord {
    /// The printed line of one match: the holding directory and the name,
    /// joined by the path separator.
    pub fn line(&self) -> (r: String)
        ensures
            r@ == spec_join(self.parent@, self.name@),
    {
        join_path(self.parent.as_str(), self.name.as_str())
    }
}

impl View for MatchRecord {
    type V = SpecMatch;

    open spec fn view(&self) -> SpecMatch {
        SpecMatch { parent: self.parent@, name: self.name@ }
    }
}

impl DeepView for MatchRecord {
    type V = SpecMatch;

    open spec fn deep_view(&self) -> SpecMatch {
        self.view()
    }
}

/// One warning: the subtree that could not be read, and why.
#[derive(Clone, Debug, PartialEq, Eq)]
pub struct Warning {
    pub path: String,
    pub class: ErrorClass,
}

impl View for Warning {
    type V = SpecWarning;

    open spec fn view(&self) -> SpecWarning {
        SpecWarning { path: self.path@, class: self.class }
    }
}

impl DeepView for Warning {
    type V = SpecWarning;

    open spec fn deep_view(&self) -> SpecWarning {
        self.view()
    }
}

/// Everything one traversal returns: the matches (in verbose mode), the
/// warnings, and the counters.
pub struct SearchOutcome {
    pub matches: Vec<MatchRecord>,
    pub warnings: Vec<Warning>,
    pub stats: SearchStats,
}

/// The visited set of the subtree of `n`, itself visited at `depth` inside
/// directory `parent`: `n` first, then, if the filter descends into it, the
/// visited sets of its children in order.
pub open spec fn spec_visits(req: SearchRequest, n: TreeNode, parent: Seq<char>, depth: int) -> Seq<
    SpecVisit,
>
    decreases n,
{
    seq![SpecVisit { parent: parent, node: n, depth: depth }] + if spec_should_descend(
        req,
        n,
        depth,
    ) {
        spec_visits_list(req, n.children@, spec_join(parent, n.name@), depth + 1)
    } else {
        Seq::<SpecVisit>::empty()
    }
}

/// The visited set of a child list of directory `dirpath`, the children
/// standing at `depth`.
pub open spec fn spec_visits_list(
    req: SearchRequest,
    cs: Seq<TreeNode>,
    dirpath: Seq<char>,
    depth: int,
) -> Seq<SpecVisit>
    decreases cs,
{
    if cs.len() == 0 {
        Seq::<SpecVisit>::empty()
    } else {
        spec_visits_list(req, cs.drop_last(), dirpath, depth) + spec_visits(
            req,
            cs.last(),
            dirpath,
            depth,
        )
    }
}

/// A visited entry that is reported: the filter considers it and the matcher
/// accepts its name.
pub open spec fn visit_matched(req: SearchRequest, v: SpecVisit) -> bool {
    spec_should_consider(req, v.node) && req.matcher.spec_matches(v.node.name@)
}

pub open spec fn match_of(v: SpecVisit) -> SpecMatch {
    SpecMatch { parent: v.parent, name: v.node.name@ }
}

/// A visited entry that yields a warning: a directory the walk descends into
/// whose listing failed.
pub open spec fn visit_warned(req: SearchRequest, v: SpecVisit) -> bool {
    spec_should_descend(req, v.node, v.depth) && v.node.read_error is Some
}

pub open spec fn warning_of(v: SpecVisit) -> SpecWarning {
    SpecWarning { path: spec_join(v.parent, v.node.name@), class: v.node.read_error->Some_0 }
}

/// The matches of a visited set, in visiting order.
pub open spec fn spec_matches_seq(req: SearchRequest, visits: Seq<SpecVisit>) -> Seq<SpecMatch> {
    visits.filter(|v: SpecVisit| visit_matched(req, v)).map_values(|v: SpecVisit| match_of(v))
}

/// The warnings of a visited set, in visiting order.
pub open spec fn spec_warnings_seq(req: SearchRequest, visits: Seq<SpecVisit>) -> Seq<
    SpecWarning,
> {
    visits.filter(|v: SpecVisit| visit_warned(req, v)).map_values(|v: SpecVisit| warning_of(v))
}

/// The visited set of a whole search: the root itself is not an entry; its
/// children stand at depth one. An unresolvable root yields no visits.
pub open spec fn spec_root_visits(
    req: SearchRequest,
    root_path: Seq<char>,
    root: TreeNode,
) -> Seq<SpecVisit> {
    if root.kind == EntryKind::Dir && root.read_error is None {
        spec_visits_list(req, root.children@, root_path, 1)
    } else {
        Seq::<SpecVisit>::empty()
    }
}

/// The warnings of a whole search: one warning for an unresolvable root,
/// else the warnings of the visited set.
pub open spec fn spec_root_warnings(
    req: SearchRequest,
    root_path: Seq<char>,
    root: TreeNode,
) -> Seq<SpecWarning> {
    if !(root.kind == EntryKind::Dir) {
        seq![SpecWarning { path: root_path, class: ErrorClass::Other }]
    } else if root.read_error is Some {
        seq![SpecWarning { path: root_path, class: root.read_error->Some_0 }]
    } else {
        spec_warnings_seq(req, spec_visits_list(req, root.children@, root_path, 1))
    }
}

/// Matches and warnings split over a split of the visited set.
proof fn lemma_outputs_add(req: SearchRequest, a: Seq<SpecVisit>, b: Seq<SpecVisit>)
    ensures
        spec_matches_seq(req, a + b) == spec_matches_seq(req, a) + spec_matches_seq(req, b),
        spec_warnings_seq(req, a + b) == spec_warnings_seq(req, a) + spec_warnings_seq(req, b),
{
    Seq::<SpecVisit>::filter_distributes_over_add(a, b, |v: SpecVisit| visit_matched(req, v));
    Seq::<SpecVisit>::filter_distributes_over_add(a, b, |v: SpecVisit| visit_warned(req, v));
    let fa = a.filter(|v: SpecVisit| visit_matched(req, v));
    let fb = b.filter(|v: SpecVisit| visit_matched(req, v));
    assert((fa + fb).map_values(|v: SpecVisit| match_of(v)) =~= fa.map_values(
        |v: SpecVisit| match_of(v),
    ) + fb.map_values(|v: SpecVisit| match_of(v)));
    let wa = a.filter(|v: SpecVisit| visit_warned(req, v));
    let wb = b.filter(|v: SpecVisit| visit_warned(req, v));
    assert((wa + wb).map_values(|v: SpecVisit| warning_of(v)) =~= wa.map_values(
        |v: SpecVisit| warning_of(v),
    ) + wb.map_values(|v: SpecVisit| warning_of(v)));
}

/// Matches and warnings of a single visit.
proof fn lemma_outputs_singleton(req: SearchRequest, v: SpecVisit)
    ensures
        spec_matches_seq(req, seq![v]) == if visit_matched(req, v) {
            seq![match_of(v)]
        } else {
            Seq::<SpecMatch>::empty()
        },
        spec_warnings_seq(req, seq![v]) == if visit_warned(req, v) {
            seq![warning_of(v)]
        } else {
            Seq::<SpecWarning>::empty()
        },
{
    reveal_with_fuel(Seq::<SpecVisit>::filter, 2);
    let s = seq![v];
    assert(s.drop_last() =~= Seq::<SpecVisit>::empty());
    assert(s.last() == v);
    if visit_matched(req, v) {
        assert(s.filter(|x: SpecVisit| visit_matched(req, x)) =~= seq![v]);
        assert(seq![v].map_values(|x: SpecVisit| match_of(x)) =~= seq![match_of(v)]);
    } else {
        assert(s.filter(|x: SpecVisit| visit_matched(req, x)) =~= Seq::<SpecVisit>::empty());
        assert(Seq::<SpecVisit>::empty().map_values(|x: SpecVisit| match_of(x)) =~= Seq::<
            SpecMatch,
        >::empty());
    }
    if visit_warned(req, v) {
        assert(s.filter(|x: SpecVisit| visit_warned(req, x)) =~= seq![v]);
        assert(seq![v].map_values(|x: SpecVisit| warning_of(x)) =~= seq![warning_of(v)]);
    } else {
        assert(s.filter(|x: SpecVisit| visit_warned(req, x)) =~= Seq::<SpecVisit>::empty());
        assert(Seq::<SpecVisit>::empty().map_values(|x: SpecVisit| warning_of(x)) =~= Seq::<
            SpecWarning,
        >::empty());
    }
}

/// The empty visited set yields nothing.
proof fn lemma_outputs_empty(req: SearchRequest)
    ensures
        spec_matches_seq(req, Seq::<SpecVisit>::empty()) == Seq::<SpecMatch>::empty(),
        spec_warnings_seq(req, Seq::<SpecVisit>::empty()) == Seq::<SpecWarning>::empty(),
{
    reveal(Seq::filter);
    assert(Seq::<SpecVisit>::empty().filter(|v: SpecVisit| visit_matched(req, v)).map_values(
        |v: SpecVisit| match_of(v),
    ) =~= Seq::<SpecMatch>::empty());
    assert(Seq::<SpecVisit>::empty().filter(|v: SpecVisit| visit_warned(req, v)).map_values(
        |v: SpecVisit| warning_of(v),
    ) =~= Seq::<SpecWarning>::empty());
}

/// No visited set yields more matches or warnings than visits.
proof fn lemma_outputs_len(req: SearchRequest, vs: Seq<SpecVisit>)
    ensures
        spec_matches_seq(req, vs).len() <= vs.len(),
        spec_warnings_seq(req, vs).len() <= vs.len(),
{
    vs.lemma_filter_len(|v: SpecVisit| visit_matched(req, v));
    vs.lemma_filter_len(|v: SpecVisit| visit_warned(req, v));
}

/// One more child visited extends the visited set by that child's subtree.
proof fn lemma_visits_list_take_step(
    req: SearchRequest,
    cs: Seq<TreeNode>,
    dirpath: Seq<char>,
    depth: int,
    i: int,
)
    requires
        0 <= i < cs.len(),
    ensures
        spec_visits_list(req, cs.take(i + 1), dirpath, depth) == spec_visits_list(
            req,
            cs.take(i),
            dirpath,
            depth,
        ) + spec_visits(req, cs[i], dirpath, depth),
{
    assert(cs.take(i + 1).drop_last() =~= cs.take(i));
    assert(cs.take(i + 1).last() == cs[i]);
}

/// A subtree never yields more visits than it has entries.
proof fn lemma_visits_len_le_size(req: SearchRequest, n: TreeNode, parent: Seq<char>, depth: int)
    ensures
        spec_visits(req, n, parent, depth).len() <= n.size(),
    decreases n,
{
    if spec_should_descend(req, n, depth) {
        lemma_visits_list_len_le_size(req, n.children@, spec_join(parent, n.name@), depth + 1);
    }
}

/// A child list never yields more visits than its subtrees have entries.
proof fn lemma_visits_list_len_le_size(
    req: SearchRequest,
    cs: Seq<TreeNode>,
    dirpath: Seq<char>,
    depth: int,
)
    ensures
        spec_visits_list(req, cs, dirpath, depth).len() <= size_list(cs),
    decreases cs,
{
    if cs.len() > 0 {
        lemma_visits_list_len_le_size(req, cs.drop_last(), dirpath, depth);
        lemma_visits_len_le_size(req, cs.last(), dirpath, depth);
    }
}

/// What one walking step guarantees: the accumulator has grown by exactly
/// the outputs of the subtree, matches kept only in verbose mode.
pub open spec fn walk_post(
    req: SearchRequest,
    visits: Seq<SpecVisit>,
    pre: SearchOutcome,
    post: SearchOutcome,
) -> bool {
    &&& post.matches.deep_view() == pre.matches.deep_view() + if req.mode == OutputMode::Verbose {
        spec_matches_seq(req, visits)
    } else {
        Seq::<SpecMatch>::empty()
    }
    &&& post.warnings.deep_view() == pre.warnings.deep_view() + spec_warnings_seq(req, visits)
    &&& post.stats.entries == pre.stats.entries + visits.len()
    &&& post.stats.hits == pre.stats.hits + spec_matches_seq(req, visits).len()
}

/// Visit the subtree of `n`, which stands at `depth` inside directory
/// `parent`.
fn walk(req: &SearchRequest, n: &TreeNode, parent: &String, depth: u64, acc: &mut SearchOutcome)
    requires
        req.wf(),
        n.wf(),
        old(acc).stats.entries + n.size() <= u64::MAX,
        old(acc).stats.hits + n.size() <= u64::MAX,
    ensures
        walk_post(*req, spec_visits(*req, *n, parent@, depth as int), *old(acc), *final(acc)),
    decreases n,
{
    let ghost v_self = SpecVisit { parent: parent@, node: *n, depth: depth as int };
    let ghost visits = spec_visits(*req, *n, parent@, depth as int);
    proof {
        lemma_outputs_singleton(*req, v_self);
    }
    acc.stats.entries = acc.stats.entries + 1;
    let considered = should_consider(req, n);
    if considered && req.matcher.matches(n.name.as_str()) {
        acc.stats.hits = acc.stats.hits + 1;
        if req.mode == OutputMode::Verbose {
            let record = MatchRecord { parent: parent.clone(), name: n.name.clone() };
            let ghost old_dv = acc.matches.deep_view();
            acc.matches.push(record);
            proof {
                assert(acc.matches.deep_view() =~= old_dv + seq![match_of(v_self)]);
            }
        }
    }
    let descend = should_descend(req, n, depth);
    if descend {
        let childpath: String = join_path(parent.as_str(), n.name.as_str());
        match n.read_error {
            Some(class) => {
                let ghost old_wv = acc.warnings.deep_view();
                acc.warnings.push(Warning { path: childpath, class });
                proof {
                    assert(acc.warnings.deep_view() =~= old_wv + seq![warning_of(v_self)]);
                    assert(n.children@.len() == 0);
                    assert(spec_visits_list(
                        *req,
                        n.children@,
                        spec_join(parent@, n.name@),
                        depth as int + 1,
                    ) =~= Seq::<SpecVisit>::empty());
                }
            },
            None => {
                walk_list(req, &n.children, &childpath, depth + 1, acc);
                proof {
                    lemma_outputs_add(
                        *req,
                        seq![v_self],
                        spec_visits_list(
                            *req,
                            n.children@,
                            spec_join(parent@, n.name@),
                            depth as int + 1,
                        ),
                    );
                    assert(acc.matches.deep_view() =~= old(acc).matches.deep_view() + if req.mode
                        == OutputMode::Verbose {
                        spec_matches_seq(*req, visits)
                    } else {
                        Seq::<SpecMatch>::empty()
                    });
                    assert(acc.warnings.deep_view() =~= old(acc).warnings.deep_view()
                        + spec_warnings_seq(*req, visits));
                }
            },
        }
    } else {
        proof {
            assert(visits =~= seq![v_self]);
        }
    }
    proof {
        assert(acc.matches.deep_view() =~= old(acc).matches.deep_view() + if req.mode
            == OutputMode::Verbose {
            spec_matches_seq(*req, visits)
        } else {
            Seq::<SpecMatch>::empty()
        });
        assert(acc.warnings.deep_view() =~= old(acc).warnings.deep_view() + spec_warnings_seq(
            *req,
            visits,
        ));
    }
}

/// Visit every child of a directory in order.
fn walk_list(
    req: &SearchRequest,
    cs: &Vec<TreeNode>,
    dirpath: &String,
    depth: u64,
    acc: &mut SearchOutcome,
)
    requires
        req.wf(),
        forall|j: int| 0 <= j < cs@.len() ==> (#[trigger] cs@[j]).wf(),
        old(acc).stats.entries + size_list(cs@) <= u64::MAX,
        old(acc).stats.hits + size_list(cs@) <= u64::MAX,
    ensures
        walk_post(*req, spec_visits_list(*req, cs@, dirpath@, depth as int), *old(acc), *final(acc)),
    decreases cs@,
{
    let m: usize = cs.len();
    let mut i: usize = 0;
    proof {
        assert(cs@.take(0) =~= Seq::<TreeNode>::empty());
        assert(spec_visits_list(*req, cs@.take(0), dirpath@, depth as int) =~= Seq::<
            SpecVisit,
        >::empty());
        assert(acc.matches.deep_view() =~= old(acc).matches.deep_view() + Seq::<
            SpecMatch,
        >::empty());
        assert(acc.warnings.deep_view() =~= old(acc).warnings.deep_view() + Seq::<
            SpecWarning,
        >::empty());
        lemma_outputs_empty(*req);
    }
    while i < m
        invariant
            req.wf(),
            forall|j: int| 0 <= j < cs@.len() ==> (#[trigger] cs@[j]).wf(),
            m == cs@.len(),
            i <= m,
            old(acc).stats.entries + size_list(cs@) <= u64::MAX,
            old(acc).stats.hits + size_list(cs@) <= u64::MAX,
            walk_post(
                *req,
                spec_visits_list(*req, cs@.take(i as int), dirpath@, depth as int),
                *old(acc),
                *acc,
            ),
        decreases m - i,
    {
        let ghost prefix = spec_visits_list(*req, cs@.take(i as int), dirpath@, depth as int);
        proof {
            lemma_visits_list_len_le_size(*req, cs@.take(i as int), dirpath@, depth as int);
            lemma_size_list_take_step(cs@, i as int);
            lemma_size_list_take_le(cs@, i as int + 1);
            lemma_outputs_len(*req, prefix);
        }
        walk(req, &cs[i], dirpath, depth, acc);
        proof {
            lemma_visits_list_take_step(*req, cs@, dirpath@, depth as int, i as int);
            lemma_outputs_add(
                *req,
                prefix,
                spec_visits(*req, cs@[i as int], dirpath@, depth as int),
            );
            assert(acc.matches.deep_view() =~= old(acc).matches.deep_view() + if req.mode
                == OutputMode::Verbose {
                spec_matches_seq(
                    *req,
                    spec_visits_list(*req, cs@.take(i as int + 1), dirpath@, depth as int),
                )
            } else {
                Seq::<SpecMatch>::empty()
            });
            assert(acc.warnings.deep_view() =~= old(acc).warnings.deep_view() + spec_warnings_seq(
                *req,
                spec_visits_list(*req, cs@.take(i as int + 1), dirpath@, depth as int),
            ));
        }
        i += 1;
    }
    proof {
        assert(cs@.take(m as int) =~= cs@);
    }
}

/// What one whole search returns, determined by the request and the snapshot
/// alone: counters equal to the visited set and its matches, the match
/// records themselves in verbose mode, and the warnings.
pub open spec fn run_post(
    req: SearchRequest,
    root_path: Seq<char>,
    root: TreeNode,
    r: SearchOutcome,
) -> bool {
    &&& r.stats.entries == spec_root_visits(req, root_path, root).len()
    &&& r.stats.hits == spec_matches_seq(req, spec_root_visits(req, root_path, root)).len()
    &&& r.matches.deep_view() == if req.mode == OutputMode::Verbose {
        spec_matches_seq(req, spec_root_visits(req, root_path, root))
    } else {
        Seq::<SpecMatch>::empty()
    }
    &&& r.warnings.deep_view() == spec_root_warnings(req, root_path, root)
}

/// Run one search over a snapshot: visit the root's children depth-first,
/// count every visited entry, report the entries the filter and the matcher
/// accept, and warn once for the root or for any directory that could not be
/// read.
pub fn run(req: &SearchRequest, root_path: &String, root: &TreeNode) -> (r: SearchOutcome)
    requires
        req.wf(),
        root.wf(),
        root.size() <= u64::MAX,
    ensures
        run_post(*req, root_path@, *root, r),
{
    let mut acc = SearchOutcome {
        matches: Vec::<MatchRecord>::new(),
        warnings: Vec::<Warning>::new(),
        stats: SearchStats { entries: 0, hits: 0 },
    };
    proof {
        lemma_outputs_empty(*req);
        assert(acc.matches.deep_view() =~= Seq::<SpecMatch>::empty());
        assert(acc.warnings.deep_view() =~= Seq::<SpecWarning>::empty());
    }
    if !(root.kind == EntryKind::Dir) {
        acc.warnings.push(Warning { path: root_path.clone(), class: ErrorClass::Other });
        proof {
            assert(acc.warnings.deep_view() =~= spec_root_warnings(*req, root_path@, *root));
        }
        return acc;
    }
    match root.read_error {
        Some(class) => {
            acc.warnings.push(Warning { path: root_path.clone(), class });
            proof {
                assert(acc.warnings.deep_view() =~= spec_root_warnings(*req, root_path@, *root));
            }
            acc
        },
        None => {
            walk_list(req, &root.children, root_path, 1, &mut acc);
            proof {
                assert(acc.matches.deep_view() =~= Seq::<SpecMatch>::empty() + if req.mode
                    == OutputMode::Verbose {
                    spec_matches_seq(*req, spec_root_visits(*req, root_path@, *root))
                } else {
                    Seq::<SpecMatch>::empty()
                });
                assert(Seq::<SpecMatch>::empty() + spec_matches_seq(
                    *req,
                    spec_root_visits(*req, root_path@, *root),
                ) =~= spec_matches_seq(*req, spec_root_visits(*req, root_path@, *root)));
                assert(Seq::<SpecWarning>::empty() + spec_warnings_seq(
                    *req,
                    spec_root_visits(*req, root_path@, *root),
                ) =~= spec_warnings_seq(*req, spec_root_visits(*req, root_path@, *root)));
            }
            acc
        },
    }
}

/// An element of the left or right part of a split sequence.
proof fn lemma_seq_add_contains<T>(a: Seq<T>, b: Seq<T>, v: T)
    requires
        (a + b).contains(v),
    ensures
        a.contains(v) || b.contains(v),
{
    let i = choose|i: int| 0 <= i < (a + b).len() && (a + b)[i] == v;
    if i < a.len() {
        assert(a[i] == v);
    } else {
        assert(b[i - a.len()] == v);
    }
}

/// Pruning blocks a subtree: when the filter refuses to descend into an
/// entry, that entry's subtree contributes the entry itself and nothing else
/// to the visited set — no descendant of a pruned entry is ever visited.
pub proof fn lemma_prune_blocks_subtree(
    req: SearchRequest,
    n: TreeNode,
    parent: Seq<char>,
    depth: int,
)
    requires
        !spec_should_descend(req, n, depth),
    ensures
        spec_visits(req, n, parent, depth) == seq![
            SpecVisit { parent: parent, node: n, depth: depth },
        ],
{
    assert(spec_visits(req, n, parent, depth) =~= seq![
        SpecVisit { parent: parent, node: n, depth: depth },
    ]);
}

/// Every entry visited within a subtree stands at the subtree's depth or
/// below it.
pub proof fn lemma_visit_depth_min(req: SearchRequest, n: TreeNode, parent: Seq<char>, depth: int)
    ensures
        forall|v: SpecVisit|
            spec_visits(req, n, parent, depth).contains(v) ==> v.depth >= depth,
    decreases n,
{
    let v_self = SpecVisit { parent: parent, node: n, depth: depth };
    if spec_should_descend(req, n, depth) {
        lemma_visit_depth_min_list(req, n.children@, spec_join(parent, n.name@), depth + 1);
    }
    assert forall|v: SpecVisit|
        spec_visits(req, n, parent, depth).contains(v) implies v.depth >= depth by {
        if spec_should_descend(req, n, depth) {
            lemma_seq_add_contains(
                seq![v_self],
                spec_visits_list(req, n.children@, spec_join(parent, n.name@), depth + 1),
                v,
            );
            if seq![v_self].contains(v) {
                assert(v == v_self);
            }
        } else {
            lemma_seq_add_contains(seq![v_self], Seq::<SpecVisit>::empty(), v);
            assert(v == v_self);
        }
    }
}

proof fn lemma_visit_depth_min_list(
    req: SearchRequest,
    cs: Seq<TreeNode>,
    dirpath: Seq<char>,
    depth: int,
)
    ensures
        forall|v: SpecVisit|
            spec_visits_list(req, cs, dirpath, depth).contains(v) ==> v.depth >= depth,
    decreases cs,
{
    if cs.len() > 0 {
        lemma_visit_depth_min_list(req, cs.drop_last(), dirpath, depth);
        lemma_visit_depth_min(req, cs.last(), dirpath, depth);
        assert forall|v: SpecVisit|
            spec_visits_list(req, cs, dirpath, depth).contains(v) implies v.depth >= depth by {
            lemma_seq_add_contains(
                spec_visits_list(req, cs.drop_last(), dirpath, depth),
                spec_visits(req, cs.last(), dirpath, depth),
                v,
            );
        }
    }
}

/// Depth boundary: once a subtree stands within the depth bound, nothing in
/// it is visited below one step past the bound — descending into a directory
/// demands its own depth be within the bound, so its children never stand
/// deeper than the bound plus one.
pub proof fn lemma_visit_depth_max(req: SearchRequest, n: TreeNode, parent: Seq<char>, depth: int)
    requires
        depth <= req.max_depth as int + 1,
    ensures
        forall|v: SpecVisit|
            spec_visits(req, n, parent, depth).contains(v) ==> v.depth <= req.max_depth as int
                + 1,
    decreases n,
{
    let v_self = SpecVisit { parent: parent, node: n, depth: depth };
    if spec_should_descend(req, n, depth) {
        lemma_visit_depth_max_list(req, n.children@, spec_join(parent, n.name@), depth + 1);
    }
    assert forall|v: SpecVisit|
        spec_visits(req, n, parent, depth).contains(v) implies v.depth <= req.max_depth as int
        + 1 by {
        if spec_should_descend(req, n, depth) {
            lemma_seq_add_contains(
                seq![v_self],
                spec_visits_list(req, n.children@, spec_join(parent, n.name@), depth + 1),
                v,
            );
            if seq![v_self].contains(v) {
                assert(v == v_self);
            }
        } else {
            lemma_seq_add_contains(seq![v_self], Seq::<SpecVisit>::empty(), v);
            assert(v == v_self);
        }
    }
}

proof fn lemma_visit_depth_max_list(
    req: SearchRequest,
    cs: Seq<TreeNode>,
    dirpath: Seq<char>,
    depth: int,
)
    requires
        depth <= req.max_depth as int + 1,
    ensures
        forall|v: SpecVisit|
            spec_visits_list(req, cs, dirpath, depth).contains(v) ==> v.depth <= req.max_depth
                as int + 1,
    decreases cs,
{
    if cs.len() > 0 {
        lemma_visit_depth_max_list(req, cs.drop_last(), dirpath, depth);
        lemma_visit_depth_max(req, cs.last(), dirpath, depth);
        assert forall|v: SpecVisit|
            spec_visits_list(req, cs, dirpath, depth).contains(v) implies v.depth <= req.max_depth
            as int + 1 by {
            lemma_seq_add_contains(
                spec_visits_list(req, cs.drop_last(), dirpath, depth),
                spec_visits(req, cs.last(), dirpath, depth),
                v,
            );
        }
    }
}

/// An entry visited at the starting depth of a child list is one of those
/// children, inside that very directory.
proof fn lemma_top_level_visits(
    req: SearchRequest,
    cs: Seq<TreeNode>,
    dirpath: Seq<char>,
    depth: int,
)
    ensures
        forall|v: SpecVisit|
            spec_visits_list(req, cs, dirpath, depth).contains(v) && v.depth == depth
                ==> v.parent == dirpath && cs.contains(v.node),
    decreases cs,
{
    if cs.len() > 0 {
        lemma_top_level_visits(req, cs.drop_last(), dirpath, depth);
        let last = cs.last();
        let v_last = SpecVisit { parent: dirpath, node: last, depth: depth };
        assert forall|v: SpecVisit|
            spec_visits_list(req, cs, dirpath, depth).contains(v) && v.depth
                == depth implies v.parent == dirpath && cs.contains(v.node) by {
            lemma_seq_add_contains(
                spec_visits_list(req, cs.drop_last(), dirpath, depth),
                spec_visits(req, last, dirpath, depth),
                v,
            );
            if spec_visits_list(req, cs.drop_last(), dirpath, depth).contains(v) {
                let j = choose|j: int|
                    0 <= j < cs.drop_last().len() && cs.drop_last()[j] == v.node;
                assert(cs[j] == v.node);
            } else {
                if spec_should_descend(req, last, depth) {
                    lemma_seq_add_contains(
                        seq![v_last],
                        spec_visits_list(
                            req,
                            last.children@,
                            spec_join(dirpath, last.name@),
                            depth + 1,
                        ),
                        v,
                    );
                    if !seq![v_last].contains(v) {
                        lemma_visit_depth_min_list(
                            req,
                            last.children@,
                            spec_join(dirpath, last.name@),
                            depth + 1,
                        );
                    } else {
                        assert(v == v_last);
                        assert(cs[cs.len() - 1] == v.node);
                    }
                } else {
                    lemma_seq_add_contains(seq![v_last], Seq::<SpecVisit>::empty(), v);
                    assert(v == v_last);
                    assert(cs[cs.len() - 1] == v.node);
                }
            }
        }
    }
}

/// With a depth bound of zero, exactly the root's direct children can be
/// visited: every visited entry stands at depth one, directly inside the
/// root — none of the children's own children is visited.
pub proof fn lemma_depth_zero_only_direct_children(
    req: SearchRequest,
    root_path: Seq<char>,
    root: TreeNode,
)
    requires
        req.max_depth == 0,
    ensures
        forall|v: SpecVisit|
            spec_root_visits(req, root_path, root).contains(v) ==> v.depth == 1 && v.parent
                == root_path && root.children@.contains(v.node),
{
    if root.kind == EntryKind::Dir && root.read_error is None {
        lemma_visit_depth_min_list(req, root.children@, root_path, 1);
        lemma_visit_depth_max_list(req, root.children@, root_path, 1);
        lemma_top_level_visits(req, root.children@, root_path, 1);
    }
}

/// Idempotence: what `run` returns is a function of the request and the
/// snapshot alone, so two runs over an unchanged snapshot yield identical
/// match records, warnings and counters.
pub proof fn lemma_runs_agree(
    req: SearchRequest,
    root_path: Seq<char>,
    root: TreeNode,
    r1: SearchOutcome,
    r2: SearchOutcome,
)
    requires
        run_post(req, root_path, root, r1),
        run_post(req, root_path, root, r2),
    ensures
        r1.matches.deep_view() == r2.matches.deep_view(),
        r1.warnings.deep_view() == r2.warnings.deep_view(),
        r1.stats == r2.stats,
{
}

} // verus!
