//! The pure entry filter: whether a visited entry is descended into
//! (pruning), and whether it is a match candidate at all (post-filtering).
//! Pruning and post-filtering are orthogonal: a directory refused by the kind
//! filter is still descended into.
use vstd::prelude::*;

use crate::request::KindFilter;
use crate::request::SearchRequest;
use crate::text::extension_matches;
use crate::text::spec_extension_matches;
use crate::tree::EntryKind;
use crate::tree::TreeNode;

verus! {

/// The traversal descends into `n`, visited at `depth`: only a directory, and
/// only while `depth` is within the bound; a hidden directory prunes its
/// whole subtree when hidden entries are suppressed and the request asks for
/// subtree pruning. Symbolic links are never descended, whatever they point
/// to.
pub open spec fn spec_should_descend(req: SearchRequest, n: TreeNode, depth: int) -> bool {
    &&& n.kind == EntryKind::Dir
    &&& depth <= req.max_depth as int
    &&& !(req.suppress_hidden && n.hidden && req.hidden_prunes_subtree)
}

/// How the extension allow-list reads an entry: a file must carry one of the
/// listed extensions exactly; a directory passes only under the
/// directories-only kind filter; a symbolic link never passes.
pub open spec fn spec_extension_rule(req: SearchRequest, n: TreeNode) -> bool {
    match n.kind {
        EntryKind::File => spec_extension_matches(n.name@, req.extensions.deep_view()),
        EntryKind::Dir => req.kind_filter == KindFilter::DirsOnly,
        EntryKind::Symlink => false,
    }
}

/// A visited entry is a match candidate: never a symbolic link, never a
/// suppressed hidden entry, within the kind filter, and within the extension
/// allow-list when one is set.
pub open spec fn spec_should_consider(req: SearchRequest, n: TreeNode) -> bool {
    &&& n.kind != EntryKind::Symlink
    &&& !(req.suppress_hidden && n.hidden)
    &&& (req.kind_filter == KindFilter::FilesOnly ==> n.kind == EntryKind::File)
    &&& (req.kind_filter == KindFilter::DirsOnly ==> n.kind == EntryKind::Dir)
    &&& (req.extensions@.len() > 0 ==> spec_extension_rule(req, n))
}

/// Decide descent into `n` visited at `depth`.
pub fn should_descend(req: &SearchRequest, n: &TreeNode, depth: u64) -> (r: bool)
    ensures
        r == spec_should_descend(*req, *n, depth as int),
{
    n.kind == EntryKind::Dir && depth <= req.max_depth as u64 && !(req.suppress_hidden && n.hidden
        && req.hidden_prunes_subtree)
}

/// Decide whether `n` is a match candidate.
pub fn should_consider(req: &SearchRequest, n: &TreeNode) -> (r: bool)
    ensures
        r == spec_should_consider(*req, *n),
{
    if n.kind == EntryKind::Symlink {
        return false;
    }
    if req.suppress_hidden && n.hidden {
        return false;
    }
    if req.kind_filter == KindFilter::FilesOnly && !(n.kind == EntryKind::File) {
        return false;
    }
    if req.kind_filter == KindFilter::DirsOnly && !(n.kind == EntryKind::Dir) {
        return false;
    }
    if req.extensions.len() > 0 {
        match n.kind {
            EntryKind::File => extension_matches(n.name.as_str(), &req.extensions),
            EntryKind::Dir => req.kind_filter == KindFilter::DirsOnly,
            EntryKind::Symlink => false,
        }
    } else {
        true
    }
}

} // verus!
