//! The in-memory snapshot of a directory subtree that a traversal walks: one
//! node per filesystem entry, with the listing of an unreadable directory
//! replaced by the class of its read error.
use vstd::prelude::*;

verus! {

/// The kind of one filesystem entry. A symbolic link is reported as such
/// whatever it points to; it is never followed.
#[derive(Clone, Copy, Debug, PartialEq, Eq, Structural)]
pub enum EntryKind {
    File,
    Dir,
    Symlink,
}

/// Why a directory could not be read.
#[derive(Clone, Copy, Debug, PartialEq, Eq, Structural)]
pub enum ErrorClass {
    NotFound,
    PermissionDenied,
    Other,
}

/// One filesystem entry: its name, kind, hidden-state as the platform
/// resolves it, the class of its read error if its listing failed, and its
/// children if it is a readable directory.
pub struct TreeNode {
    pub name: String,
    pub kind: EntryKind,
    pub hidden: bool,
    pub read_error: Option<ErrorClass>,
    pub children: Vec<TreeNode>,
}

impl TreeNode {
    /// Shape of a well-formed snapshot: only a directory has children or a
    /// read error, and an unreadable directory has no children.
    pub open spec fn wf(self) -> bool
        decreases self,
    {
        &&& (self.kind != EntryKind::Dir ==> self.children@.len() == 0 && self.read_error is None)
        &&& (self.read_error is Some ==> self.children@.len() == 0)
        &&& forall|i: int| 0 <= i < self.children@.len() ==> (#[trigger] self.children@[i]).wf()
    }

    /// Number of entries in the subtree, this node included.
    pub open spec fn size(self) -> nat
        decreases self,
    {
        1 + size_list(self.children@)
    }
}

/// Total number of entries in the subtrees of a child list.
pub open spec fn size_list(cs: Seq<TreeNode>) -> nat
    decreases cs,
{
    if cs.len() == 0 {
        0
    } else {
        size_list(cs.drop_last()) + cs.last().size()
    }
}

/// Prefix sums of subtree sizes: one more child adds its subtree size.
pub proof fn lemma_size_list_take_step(cs: Seq<TreeNode>, i: int)
    requires
        0 <= i < cs.len(),
    ensures
        size_list(cs.take(i + 1)) == size_list(cs.take(i)) + cs[i].size(),
{
    assert(cs.take(i + 1).drop_last() =~= cs.take(i));
    assert(cs.take(i + 1).last() == cs[i]);
}

/// A prefix of a child list never holds more entries than the whole list.
pub proof fn lemma_size_list_take_le(cs: Seq<TreeNode>, i: int)
    requires
        0 <= i <= cs.len(),
    ensures
        size_list(cs.take(i)) <= size_list(cs),
    decreases cs.len() - i,
{
    if i == cs.len() {
        assert(cs.take(i) =~= cs);
    } else {
        lemma_size_list_take_step(cs, i);
        lemma_size_list_take_le(cs, i + 1);
    }
}

} // verus!
