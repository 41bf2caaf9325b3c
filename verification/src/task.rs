//! Compaction requests and the vnodes they name.

use vstd::prelude::*;

verus! {

/// Identifier of a vnode, a shard of one time-series table on this node.
pub type VnodeId = u32;

/// A request to compact the files of one vnode.
///
/// Two tasks are duplicates exactly when they are structurally equal: the
/// same kind of compaction asked of the same vnode.
#[derive(Debug, Clone, Copy, PartialEq, Eq, Hash, Structural)]
pub enum CompactTask {
    /// Merge the files of a level into the next one.
    Normal(VnodeId),
    /// Merge freshly flushed delta files into the levels below them.
    Delta(VnodeId),
}

impl CompactTask {
    /// The vnode a task is about, whatever its kind.
    pub open spec fn spec_vnode_id(&self) -> VnodeId {
        match *self {
            CompactTask::Normal(vnode_id) => vnode_id,
            CompactTask::Delta(vnode_id) => vnode_id,
        }
    }

    /// The vnode that the task is about.
    #[verifier::when_used_as_spec(spec_vnode_id)]
    pub fn vnode_id(&self) -> (vnode_id: VnodeId)
        ensures
            vnode_id == self.spec_vnode_id(),
    {
        match self {
            CompactTask::Normal(vnode_id) => *vnode_id,
            CompactTask::Delta(vnode_id) => *vnode_id,
        }
    }
}

} // verus!
