//! The deduplicating queue of pending compaction tasks, which also issues the
//! lock that serializes the compactions of one vnode.

use crate::task::{CompactTask, VnodeId};
use std::collections::HashMap;
use std::sync::Arc;
use tokio::sync::Mutex;
use vstd::prelude::*;

verus! {

/// `tokio::sync::Mutex`, the asynchronous lock a compaction worker holds
/// while it merges the files of a vnode. Its inside is never looked at here.
#[verifier::external_type_specification]
#[verifier::external_body]
#[verifier::reject_recursive_types(T)]
pub struct ExMutex<T: ?Sized>(Mutex<T>);

/// The shared handle that serializes compactions of one vnode.
pub type VnodeLock = Arc<Mutex<()>>;

/// Calls `tokio::sync::Mutex::new`, which makes a new, unlocked lock. Nothing
/// is claimed of the result.
#[verifier::external_body]
fn new_mutex() -> (lock: Mutex<()>) {
    Mutex::new(())
}

/// Calls `Arc::clone`, which hands out another pointer to the same
/// allocation: the clone is the very lock that `lock` points to.
#[verifier::external_body]
fn share_vnode_lock(lock: &VnodeLock) -> (shared: VnodeLock)
    ensures
        shared == *lock,
{
    Arc::clone(lock)
}

/// Why a processor could not hand out its batch.
#[derive(Debug, Clone, Copy, PartialEq, Eq, Structural)]
pub enum ProcessorError {
    /// A pending task names a vnode for which no lock was ever created.
    MissingVnodeLock { vnode_id: VnodeId },
}

/// What a [`CompactProcessor`] holds, as mathematics.
pub struct ProcessorView {
    /// The pending tasks, oldest first.
    pub pending: Seq<CompactTask>,
    /// The lock of every vnode that a task was ever queued for.
    pub vnode_locks: Map<VnodeId, VnodeLock>,
}

impl ProcessorView {
    /// Every pending task finds the lock of its vnode.
    pub open spec fn locks_cover_pending(self) -> bool {
        forall|i: int|
            0 <= i < self.pending.len() ==> self.vnode_locks.contains_key(
                #[trigger] self.pending[i].vnode_id(),
            )
    }

    /// No task is pending twice, and every pending task finds its lock.
    pub open spec fn wf(self) -> bool {
        &&& self.pending.no_duplicates()
        &&& self.locks_cover_pending()
    }
}

/// The pending sequence after `task` was offered to it: unchanged if an equal
/// task is already waiting, else longer by `task` at its end.
pub open spec fn pending_after_insert(pending: Seq<CompactTask>, task: CompactTask) -> Seq<
    CompactTask,
> {
    if pending.contains(task) {
        pending
    } else {
        pending.push(task)
    }
}

/// Whether offering `task` to a processor leads from `before` to `after`.
///
/// An equal task that is already pending leaves everything as it was. Else
/// the task is queued behind the others, and its vnode has a lock
/// afterwards: the one it had, or a new one where it had none. No other lock
/// is touched.
pub open spec fn is_insert(before: ProcessorView, task: CompactTask, after: ProcessorView) -> bool {
    &&& after.pending == pending_after_insert(before.pending, task)
    &&& before.pending.contains(task) ==> after == before
    &&& !before.pending.contains(task) ==> {
        &&& after.vnode_locks.contains_key(task.vnode_id())
        &&& after.vnode_locks == before.vnode_locks.insert(
            task.vnode_id(),
            after.vnode_locks[task.vnode_id()],
        )
    }
    &&& before.vnode_locks.contains_key(task.vnode_id()) ==> after.vnode_locks
        == before.vnode_locks
}

/// The pending sequence after the tasks of `tasks` were offered to it one
/// after the other.
pub open spec fn pending_after_inserts(pending: Seq<CompactTask>, tasks: Seq<CompactTask>) -> Seq<
    CompactTask,
>
    decreases tasks.len(),
{
    if tasks.len() == 0 {
        pending
    } else {
        pending_after_insert(pending_after_inserts(pending, tasks.drop_last()), tasks.last())
    }
}

/// Whether `task` stands at index `i` of `tasks` and nowhere before it.
pub open spec fn is_first_occurrence(tasks: Seq<CompactTask>, task: CompactTask, i: int) -> bool {
    &&& 0 <= i < tasks.len()
    &&& tasks[i] == task
    &&& forall|j: int| 0 <= j < i ==> tasks[j] != task
}

/// The index at which `task` first stands in `tasks`, for a task that occurs
/// there.
pub open spec fn first_position(tasks: Seq<CompactTask>, task: CompactTask) -> int {
    choose|i: int| is_first_occurrence(tasks, task, i)
}

/// Whether `pending[i]` is the first pending task whose vnode has no lock in
/// `locks`.
pub open spec fn is_first_unlocked(
    pending: Seq<CompactTask>,
    locks: Map<VnodeId, VnodeLock>,
    i: int,
) -> bool {
    &&& 0 <= i < pending.len()
    &&& !locks.contains_key(pending[i].vnode_id())
    &&& forall|j: int| 0 <= j < i ==> locks.contains_key(#[trigger] pending[j].vnode_id())
}

/// Whether `batch` is what draining `processor` hands out: its pending tasks
/// in their order, each with the lock that the processor keeps for its vnode.
pub open spec fn is_batch_of(batch: Seq<(CompactTask, VnodeLock)>, processor: ProcessorView) -> bool {
    &&& batch.len() == processor.pending.len()
    &&& forall|i: int|
        0 <= i < batch.len() ==> {
            &&& (#[trigger] batch[i]).0 == processor.pending[i]
            &&& processor.vnode_locks.contains_key(processor.pending[i].vnode_id())
            &&& batch[i].1 == processor.vnode_locks[processor.pending[i].vnode_id()]
        }
}

/// Coalesces a stream of compaction requests into a batch without duplicates
/// and keeps one lock per vnode for as long as it lives.
pub struct CompactProcessor {
    compact_tasks: Vec<CompactTask>,
    vnode_compaction_limit: HashMap<VnodeId, VnodeLock>,
}

impl View for CompactProcessor {
    type V = ProcessorView;

    closed spec fn view(&self) -> ProcessorView {
        ProcessorView {
            pending: self.compact_tasks@,
            vnode_locks: self.vnode_compaction_limit@,
        }
    }
}

impl CompactProcessor {
    /// The invariant of a processor: see [`ProcessorView::wf`].
    pub open spec fn wf(&self) -> bool {
        self@.wf()
    }

    /// The pending tasks in the order in which they were first requested.
    pub fn compact_tasks(&self) -> (tasks: &Vec<CompactTask>)
        ensures
            tasks@ == self@.pending,
    {
        &self.compact_tasks
    }

    /// Whether no task is pending.
    pub fn is_empty(&self) -> (empty: bool)
        ensures
            empty == (self@.pending.len() == 0),
    {
        self.compact_tasks.len() == 0
    }

    /// Whether a task equal to `task` is pending.
    pub fn contains(&self, task: &CompactTask) -> (found: bool)
        ensures
            found == self@.pending.contains(*task),
    {
        let mut i: usize = 0;
        while i < self.compact_tasks.len()
            invariant
                i <= self.compact_tasks@.len(),
                forall|j: int| 0 <= j < i ==> self.compact_tasks@[j] != *task,
            decreases self.compact_tasks@.len() - i,
        {
            if self.compact_tasks[i] == *task {
                return true;
            }
            i += 1;
        }
        false
    }

    /// The lock of `vnode_id`, if a task was ever queued for that vnode.
    pub fn vnode_lock(&self, vnode_id: VnodeId) -> (lock: Option<VnodeLock>)
        ensures
            lock is Some <==> self@.vnode_locks.contains_key(vnode_id),
            lock matches Some(l) ==> l == self@.vnode_locks[vnode_id],
    {
        match self.vnode_compaction_limit.get(&vnode_id) {
            Some(lock) => Some(share_vnode_lock(lock)),
            None => None,
        }
    }

    /// Queues `task` unless an equal task is already pending, and makes sure
    /// that its vnode has a lock. A lock, once made, is never replaced.
    pub fn insert(&mut self, task: CompactTask)
        ensures
            is_insert(old(self)@, task, final(self)@),
            old(self).wf() ==> final(self).wf(),
    {
        let vnode_id = task.vnode_id();
        if !self.contains(&task) {
            self.compact_tasks.push(task);
            if !self.vnode_compaction_limit.contains_key(&vnode_id) {
                self.vnode_compaction_limit.insert(vnode_id, Arc::new(new_mutex()));
            }
            proof {
                assert(self@.vnode_locks =~= old(self)@.vnode_locks.insert(
                    vnode_id,
                    self@.vnode_locks[vnode_id],
                ));
                if old(self).wf() {
                    lemma_insert_keeps_wf(old(self)@, task, self@);
                }
            }
        }
    }

    /// Drains the processor: leaves nothing pending and hands out every task
    /// that was pending, in order, together with the lock of its vnode. The
    /// locks themselves stay. If some pending task has no lock, the batch is
    /// lost and the error names the vnode of the first such task.
    pub fn take(&mut self) -> (res: Result<Vec<(CompactTask, VnodeLock)>, ProcessorError>)
        ensures
            final(self)@.pending == Seq::<CompactTask>::empty(),
            final(self)@.vnode_locks == old(self)@.vnode_locks,
            res is Ok <==> old(self)@.locks_cover_pending(),
            match res {
                Ok(batch) => is_batch_of(batch@, old(self)@),
                Err(ProcessorError::MissingVnodeLock { vnode_id }) => exists|i: int|
                    is_first_unlocked(old(self)@.pending, old(self)@.vnode_locks, i) && vnode_id
                        == old(self)@.pending[i].vnode_id(),
            },
            final(self).wf(),
    {
        let mut compact_tasks: Vec<CompactTask> = Vec::with_capacity(32);
        std::mem::swap(&mut self.compact_tasks, &mut compact_tasks);
        let mut batch: Vec<(CompactTask, VnodeLock)> = Vec::new();
        let mut i: usize = 0;
        while i < compact_tasks.len()
            invariant
                i <= compact_tasks@.len(),
                compact_tasks@ == old(self)@.pending,
                self.vnode_compaction_limit@ == old(self)@.vnode_locks,
                self.compact_tasks@ == Seq::<CompactTask>::empty(),
                batch@.len() == i,
                forall|j: int|
                    0 <= j < i ==> self.vnode_compaction_limit@.contains_key(
                        #[trigger] compact_tasks@[j].vnode_id(),
                    ),
                forall|j: int|
                    0 <= j < i ==> {
                        &&& (#[trigger] batch@[j]).0 == compact_tasks@[j]
                        &&& self.vnode_compaction_limit@.contains_key(compact_tasks@[j].vnode_id())
                        &&& batch@[j].1 == self.vnode_compaction_limit@[compact_tasks@[j].vnode_id()]
                    },
            decreases compact_tasks@.len() - i,
        {
            let task = compact_tasks[i];
            let vnode_id = task.vnode_id();
            match self.vnode_compaction_limit.get(&vnode_id) {
                Some(lock) => {
                    batch.push((task, share_vnode_lock(lock)));
                },
                None => {
                    assert(is_first_unlocked(old(self)@.pending, old(self)@.vnode_locks, i as int));
                    return Err(ProcessorError::MissingVnodeLock { vnode_id });
                },
            }
            i += 1;
        }
        Ok(batch)
    }
}

impl Default for CompactProcessor {
    /// A processor with nothing pending and no lock yet.
    fn default() -> (processor: Self)
        ensures
            processor@.pending == Seq::<CompactTask>::empty(),
            processor@.vnode_locks == Map::<VnodeId, VnodeLock>::empty(),
            processor.wf(),
    {
        Self { compact_tasks: Vec::with_capacity(32), vnode_compaction_limit: HashMap::with_capacity(32) }
    }
}

/// A task that occurs in a sequence has a first occurrence there, and
/// [`first_position`] is its index.
pub proof fn lemma_first_position(tasks: Seq<CompactTask>, task: CompactTask)
    requires
        tasks.contains(task),
    ensures
        is_first_occurrence(tasks, task, first_position(tasks, task)),
    decreases tasks.len(),
{
    let earlier = tasks.drop_last();
    if earlier.contains(task) {
        lemma_first_position(earlier, task);
        let i = first_position(earlier, task);
        assert(is_first_occurrence(tasks, task, i)) by {
            assert(tasks[i] == earlier[i]);
            assert forall|j: int| 0 <= j < i implies tasks[j] != task by {
                assert(tasks[j] == earlier[j]);
            }
        }
    } else {
        let i = tasks.len() - 1;
        let k = choose|k: int| 0 <= k < tasks.len() && tasks[k] == task;
        if k < i {
            assert(earlier[k] == task);
        }
        assert(is_first_occurrence(tasks, task, i)) by {
            assert forall|j: int| 0 <= j < i implies tasks[j] != task by {
                assert(earlier[j] == tasks[j]);
            }
        }
    }
}

/// A longer sequence does not move the first occurrence of a task that the
/// shorter one already holds.
proof fn lemma_first_position_stable(tasks: Seq<CompactTask>, task: CompactTask)
    requires
        tasks.len() > 0,
        tasks.drop_last().contains(task),
    ensures
        first_position(tasks, task) == first_position(tasks.drop_last(), task),
        first_position(tasks, task) < tasks.len() - 1,
{
    let earlier = tasks.drop_last();
    lemma_first_position(earlier, task);
    let i = first_position(earlier, task);
    assert(tasks[i] == earlier[i]);
    assert(tasks.contains(task));
    lemma_first_position(tasks, task);
    let k = first_position(tasks, task);
    if k < i {
        assert(earlier[k] == tasks[k]);
    }
    if i < k {
        assert(tasks[i] == task);
    }
}

/// What offering `tasks` one by one does to a pending sequence without
/// duplicates: it stays without duplicates and keeps what it held in front,
/// and behind that stands each new task once, in the order of the first
/// occurrences in `tasks`.
pub proof fn lemma_inserts_append_first_occurrences(
    pending: Seq<CompactTask>,
    tasks: Seq<CompactTask>,
)
    requires
        pending.no_duplicates(),
    ensures
        ({
            let after = pending_after_inserts(pending, tasks);
            &&& after.no_duplicates()
            &&& pending.len() <= after.len()
            &&& after.subrange(0, pending.len() as int) == pending
            &&& forall|task: CompactTask|
                after.contains(task) <==> pending.contains(task) || tasks.contains(task)
            &&& forall|k: int|
                pending.len() <= k < after.len() ==> !pending.contains(#[trigger] after[k])
                    && tasks.contains(after[k])
            &&& forall|i: int, j: int|
                pending.len() <= i < j < after.len() ==> first_position(tasks, #[trigger] after[i])
                    < first_position(tasks, #[trigger] after[j])
        }),
    decreases tasks.len(),
{
    let after = pending_after_inserts(pending, tasks);
    if tasks.len() == 0 {
        assert(after.subrange(0, pending.len() as int) =~= pending);
        assert forall|task: CompactTask| !tasks.contains(task) by {}
    } else {
        let earlier = tasks.drop_last();
        let last = tasks.last();
        let before = pending_after_inserts(pending, earlier);
        lemma_inserts_append_first_occurrences(pending, earlier);
        assert forall|task: CompactTask| tasks.contains(task) <==> earlier.contains(task) || task
            == last by {
            if tasks.contains(task) {
                let k = choose|k: int| 0 <= k < tasks.len() && tasks[k] == task;
                if k < tasks.len() - 1 {
                    assert(earlier[k] == task);
                }
            }
            if earlier.contains(task) {
                let k = choose|k: int| 0 <= k < earlier.len() && earlier[k] == task;
                assert(tasks[k] == task);
            }
            if task == last {
                assert(tasks[tasks.len() - 1] == task);
            }
        }
        if before.contains(last) {
            assert(after == before);
            assert forall|i: int, j: int| pending.len() <= i < j < after.len() implies first_position(
                tasks,
                #[trigger] after[i],
            ) < first_position(tasks, #[trigger] after[j]) by {
                lemma_first_position_stable(tasks, after[i]);
                lemma_first_position_stable(tasks, after[j]);
            }
        } else {
            assert(after == before.push(last));
            assert(after.subrange(0, pending.len() as int) =~= before.subrange(
                0,
                pending.len() as int,
            ));
            assert forall|task: CompactTask| after.contains(task) <==> before.contains(task) || task
                == last by {
                if after.contains(task) {
                    let k = choose|k: int| 0 <= k < after.len() && after[k] == task;
                    if k < before.len() {
                        assert(before[k] == task);
                    }
                }
                if before.contains(task) {
                    let k = choose|k: int| 0 <= k < before.len() && before[k] == task;
                    assert(after[k] == task);
                }
                if task == last {
                    assert(after[after.len() - 1] == task);
                }
            }
            assert forall|i: int, j: int|
                0 <= i < after.len() && 0 <= j < after.len() && i != j implies after[i]
                != after[j] by {
                if i < before.len() {
                    assert(before[i] == after[i]);
                }
                if j < before.len() {
                    assert(before[j] == after[j]);
                }
            }
            assert(!earlier.contains(last));
            assert(tasks.contains(last));
            lemma_first_position(tasks, last);
            let at = first_position(tasks, last);
            if at < tasks.len() - 1 {
                assert(earlier[at] == last);
            }
            assert forall|k: int| pending.len() <= k < after.len() implies !pending.contains(
                #[trigger] after[k],
            ) && tasks.contains(after[k]) by {
                if k < before.len() {
                    assert(before[k] == after[k]);
                }
            }
            assert forall|i: int, j: int| pending.len() <= i < j < after.len() implies first_position(
                tasks,
                #[trigger] after[i],
            ) < first_position(tasks, #[trigger] after[j]) by {
                assert(before[i] == after[i]);
                lemma_first_position_stable(tasks, after[i]);
                if j < before.len() {
                    assert(before[j] == after[j]);
                    lemma_first_position_stable(tasks, after[j]);
                }
            }
        }
    }
}

/// Deduplication: whatever tasks are offered to an empty processor, in
/// whatever order and however often, afterwards each distinct task is pending
/// exactly once, and the pending tasks stand in the order in which each was
/// first offered.
pub proof fn lemma_dedup_in_first_occurrence_order(tasks: Seq<CompactTask>)
    ensures
        ({
            let pending = pending_after_inserts(Seq::empty(), tasks);
            &&& pending.no_duplicates()
            &&& forall|task: CompactTask| pending.contains(task) <==> tasks.contains(task)
            &&& forall|i: int|
                0 <= i < pending.len() ==> is_first_occurrence(
                    tasks,
                    #[trigger] pending[i],
                    first_position(tasks, pending[i]),
                )
            &&& forall|i: int, j: int|
                0 <= i < j < pending.len() ==> first_position(tasks, #[trigger] pending[i])
                    < first_position(tasks, #[trigger] pending[j])
        }),
{
    let empty = Seq::<CompactTask>::empty();
    let pending = pending_after_inserts(empty, tasks);
    lemma_inserts_append_first_occurrences(empty, tasks);
    assert forall|task: CompactTask| !empty.contains(task) by {}
    assert forall|i: int| 0 <= i < pending.len() implies is_first_occurrence(
        tasks,
        #[trigger] pending[i],
        first_position(tasks, pending[i]),
    ) by {
        lemma_first_position(tasks, pending[i]);
    }
}

/// An insert keeps a processor well formed: nothing is pending twice, and
/// every pending task finds the lock of its vnode.
pub proof fn lemma_insert_keeps_wf(before: ProcessorView, task: CompactTask, after: ProcessorView)
    requires
        before.wf(),
        is_insert(before, task, after),
    ensures
        after.wf(),
{
    if !before.pending.contains(task) {
        assert forall|i: int, j: int|
            0 <= i < after.pending.len() && 0 <= j < after.pending.len() && i != j implies after.pending[i]
            != after.pending[j] by {
            if i < before.pending.len() {
                assert(before.pending[i] == after.pending[i]);
            }
            if j < before.pending.len() {
                assert(before.pending[j] == after.pending[j]);
            }
        }
        assert forall|i: int| 0 <= i < after.pending.len() implies after.vnode_locks.contains_key(
            #[trigger] after.pending[i].vnode_id(),
        ) by {
            if i < before.pending.len() {
                assert(before.pending[i] == after.pending[i]);
            }
        }
    }
}

/// Lock existence: after any sequence of inserts into a well-formed
/// processor, every pending task finds the lock of its vnode, and the locks
/// that existed at the outset are still the same.
///
/// `states` holds the processor before each insert and after the last one.
pub proof fn lemma_inserts_keep_locks(states: Seq<ProcessorView>, tasks: Seq<CompactTask>, n: int)
    requires
        states.len() == tasks.len() + 1,
        states[0].wf(),
        forall|i: int|
            0 <= i < tasks.len() ==> is_insert(states[i], #[trigger] tasks[i], states[i + 1]),
        0 <= n <= tasks.len(),
    ensures
        states[n].wf(),
        states[n].locks_cover_pending(),
        states[0].vnode_locks.submap_of(states[n].vnode_locks),
        states[n].pending == pending_after_inserts(states[0].pending, tasks.take(n)),
    decreases n,
{
    if n == 0 {
        assert(tasks.take(0).len() == 0);
    } else {
        lemma_inserts_keep_locks(states, tasks, n - 1);
        assert(is_insert(states[n - 1], tasks[n - 1], states[n]));
        lemma_insert_keeps_wf(states[n - 1], tasks[n - 1], states[n]);
        assert(tasks.take(n).drop_last() =~= tasks.take(n - 1));
        assert(tasks.take(n).last() == tasks[n - 1]);
    }
}

} // verus!
