//! The compaction scheduler: when it runs, what it drains on a tick, which of
//! the drained tasks become workers, and how a worker passes through its
//! stages while the count of running compactions follows it.
//!
//! Nothing here sleeps or awaits. The caller ticks once a second, asks the
//! storage engine about each vnode, waits for permits and locks, runs the
//! merge, and tells the job what came of it.

use crate::processor::{
    is_batch_of, is_first_unlocked, pending_after_inserts, CompactProcessor, ProcessorError,
    ProcessorView, VnodeLock,
};
use crate::task::{CompactTask, VnodeId};
use std::collections::VecDeque;
use std::sync::Arc;
use tokio::sync::Semaphore;
use vstd::prelude::*;

verus! {

/// Seconds between two looks of the scheduler at the pending tasks.
pub const COMPACT_BATCH_CHECKING_SECONDS: u64 = 1;

/// The largest number of concurrent compactions that can be configured: the
/// most permits a semaphore takes.
pub const MAX_CONCURRENT_COMPACTION: usize = usize::MAX / 8;

/// `tokio::sync::Semaphore`, which bounds the number of merges that run at the
/// same time. Its inside is never looked at here.
#[verifier::external_type_specification]
#[verifier::external_body]
pub struct ExSemaphore(Semaphore);

/// The number of permits that a semaphore was made with.
pub uninterp spec fn permits_made_with(limit: Semaphore) -> usize;

/// Calls `tokio::sync::Semaphore::new` with `permits`, which makes a semaphore
/// with that many permits to begin with. The call panics above
/// `Semaphore::MAX_PERMITS`, which is `usize::MAX >> 3`, so such a number is
/// not accepted.
#[verifier::external_body]
fn new_semaphore(permits: usize) -> (limit: Semaphore)
    requires
        permits <= MAX_CONCURRENT_COMPACTION,
    ensures
        permits_made_with(limit) == permits,
{
    Semaphore::new(permits)
}

/// The count of running compactions after one more began. The count wraps
/// like the machine integer it is.
pub open spec fn counter_up(n: usize) -> usize {
    if n == usize::MAX {
        0
    } else {
        (n + 1) as usize
    }
}

/// The count of running compactions after one ended. The count wraps like the
/// machine integer it is.
pub open spec fn counter_down(n: usize) -> usize {
    if n == 0 {
        usize::MAX
    } else {
        (n - 1) as usize
    }
}

/// What the scheduler learned about the vnode of a drained task, see
/// [`ProbeAnswers`].
#[derive(Debug, Clone, Copy, PartialEq, Eq, Structural)]
pub enum VnodeProbe {
    /// The engine knows no such vnode any more.
    Missing,
    /// The vnode is being moved and must not be compacted.
    Moving,
    /// The vnode is there and may be compacted, and the picker chose nothing
    /// to merge.
    NothingToCompact,
    /// The picker made a request for the task.
    Picked,
}

/// The answers of the storage engine about the vnode of a drained task, as
/// far as they have come in.
#[derive(Debug, Clone, Copy, PartialEq, Eq)]
pub struct ProbeAnswers {
    /// Whether the engine knows the vnode.
    pub found: Option<bool>,
    /// Whether the vnode says that it may be compacted.
    pub can_compaction: Option<bool>,
    /// Whether the picker made a request for the task.
    pub picked: Option<bool>,
}

/// What is to be asked next about a vnode, or what is known of it.
#[derive(Debug, Clone, Copy, PartialEq, Eq, Structural)]
pub enum ProbeStep {
    /// Look the vnode up.
    Lookup,
    /// Ask the vnode whether it may be compacted.
    CanCompaction,
    /// Ask the picker for a request, on the current version of the vnode.
    Pick,
    /// Nothing more is to be asked.
    Known(VnodeProbe),
}

impl ProbeAnswers {
    /// What is to be asked next, or what is known. A vnode that is not there
    /// is asked nothing, and the picker is not asked about a vnode that must
    /// not be compacted.
    pub open spec fn spec_next(&self) -> ProbeStep {
        match self.found {
            None => ProbeStep::Lookup,
            Some(false) => ProbeStep::Known(VnodeProbe::Missing),
            Some(true) => match self.can_compaction {
                None => ProbeStep::CanCompaction,
                Some(false) => ProbeStep::Known(VnodeProbe::Moving),
                Some(true) => match self.picked {
                    None => ProbeStep::Pick,
                    Some(false) => ProbeStep::Known(VnodeProbe::NothingToCompact),
                    Some(true) => ProbeStep::Known(VnodeProbe::Picked),
                },
            },
        }
    }

    /// No answer yet.
    pub fn new() -> (answers: Self)
        ensures
            answers.found is None,
            answers.can_compaction is None,
            answers.picked is None,
    {
        ProbeAnswers { found: None, can_compaction: None, picked: None }
    }

    /// What is to be asked next about the vnode, or what is known of it.
    #[verifier::when_used_as_spec(spec_next)]
    pub fn next(&self) -> (step: ProbeStep)
        ensures
            step == self.spec_next(),
    {
        match self.found {
            None => ProbeStep::Lookup,
            Some(false) => ProbeStep::Known(VnodeProbe::Missing),
            Some(true) => match self.can_compaction {
                None => ProbeStep::CanCompaction,
                Some(false) => ProbeStep::Known(VnodeProbe::Moving),
                Some(true) => match self.picked {
                    None => ProbeStep::Pick,
                    Some(false) => ProbeStep::Known(VnodeProbe::NothingToCompact),
                    Some(true) => ProbeStep::Known(VnodeProbe::Picked),
                },
            },
        }
    }
}

/// What becomes of one drained task.
pub enum Settled {
    /// No task was waiting in the batch.
    Finished,
    /// The task is dropped; the batch goes on with the next one.
    Skipped,
    /// The task and all that followed it in the batch are dropped.
    Aborted,
    /// A worker is to be started for the task, under the lock of its vnode,
    /// once a permit is free.
    Spawn(CompactTask, VnodeLock),
}

/// The batch and the verdict after the first task of `batch` was probed.
pub open spec fn settle_spec(batch: Seq<(CompactTask, VnodeLock)>, probe: VnodeProbe) -> (
    Seq<(CompactTask, VnodeLock)>,
    Settled,
) {
    if batch.len() == 0 {
        (batch, Settled::Finished)
    } else {
        match probe {
            VnodeProbe::Missing => (batch.skip(1), Settled::Skipped),
            VnodeProbe::Moving => (Seq::empty(), Settled::Aborted),
            VnodeProbe::NothingToCompact => (batch.skip(1), Settled::Skipped),
            VnodeProbe::Picked => (batch.skip(1), Settled::Spawn(batch[0].0, batch[0].1)),
        }
    }
}

/// The tasks drained on one tick that still wait for the scheduler's verdict,
/// each with the lock of its vnode, oldest first.
pub struct CompactBatch {
    tasks: VecDeque<(CompactTask, VnodeLock)>,
}

impl View for CompactBatch {
    type V = Seq<(CompactTask, VnodeLock)>;

    closed spec fn view(&self) -> Seq<(CompactTask, VnodeLock)> {
        self.tasks@
    }
}

impl CompactBatch {
    /// A batch of the given tasks, in their order.
    pub fn new(tasks: Vec<(CompactTask, VnodeLock)>) -> (batch: Self)
        ensures
            batch@ == tasks@,
    {
        let mut tasks = tasks;
        let mut queue: VecDeque<(CompactTask, VnodeLock)> = VecDeque::new();
        let ghost all = tasks@;
        while tasks.len() > 0
            invariant
                tasks@ + queue@ == all,
            decreases tasks@.len(),
        {
            let ghost before = tasks@;
            let ghost queued = queue@;
            match tasks.pop() {
                Some(item) => {
                    queue.push_front(item);
                    assert(tasks@ + queue@ == before + queued);
                },
                None => {},
            }
        }
        assert(queue@ == tasks@ + queue@);
        CompactBatch { tasks: queue }
    }

    /// How many tasks still wait for a verdict.
    pub fn len(&self) -> (n: usize)
        ensures
            n == self@.len(),
    {
        self.tasks.len()
    }

    /// The task whose vnode is to be probed next, if any is left.
    pub fn next_task(&self) -> (task: Option<CompactTask>)
        ensures
            self@.len() == 0 ==> task is None,
            self@.len() > 0 ==> task == Some(self@[0].0),
    {
        if self.tasks.len() == 0 {
            None
        } else {
            Some(self.tasks[0].0)
        }
    }

    /// Decides the first waiting task by what was learned of its vnode.
    ///
    /// A picked task leaves the batch with its lock, to become a worker. A
    /// task whose vnode is missing, or for which nothing was picked, is
    /// dropped. A moving vnode ends the round: its task and every task behind
    /// it are dropped.
    pub fn settle(&mut self, probe: VnodeProbe) -> (settled: Settled)
        ensures
            (final(self)@, settled) == settle_spec(old(self)@, probe),
    {
        match self.tasks.pop_front() {
            None => Settled::Finished,
            Some((task, lock)) => {
                match probe {
                    VnodeProbe::Missing => Settled::Skipped,
                    VnodeProbe::Moving => {
                        self.tasks.clear();
                        Settled::Aborted
                    },
                    VnodeProbe::NothingToCompact => Settled::Skipped,
                    VnodeProbe::Picked => Settled::Spawn(task, lock),
                }
            },
        }
    }
}

/// What the scheduler does after a tick.
pub enum Tick {
    /// Compaction is switched off: the scheduler leaves its loop.
    Exit,
    /// Nothing is pending: the scheduler sleeps until the next tick.
    Idle,
    /// The pending tasks were drained and are to be settled one by one.
    Batch(CompactBatch),
    /// The pending tasks were drained but could not be handed out: the
    /// scheduler leaves its loop.
    Failed(ProcessorError),
}

/// The stage of one compaction worker.
#[derive(Debug, Clone, Copy, PartialEq, Eq, Structural)]
pub enum WorkerStage {
    /// Started with its permit, waiting for the lock of its vnode.
    Waiting,
    /// Counted as running while the merge is under way.
    Merging,
    /// Still counted as running while the version edit of a finished merge is
    /// on its way to the summary writer.
    Forwarding,
    /// Still counted as running while the worker gives back its permit and
    /// leaves its scope.
    Releasing,
    /// The worker is gone and no longer counted.
    Done,
}

/// How a merge ended.
#[derive(Debug, Clone, Copy, PartialEq, Eq, Structural)]
pub enum MergeOutcome {
    /// Files were merged: there is a version edit to record.
    Merged,
    /// There was nothing to compact.
    NothingMerged,
    /// The merge failed. It is not retried.
    Failed,
}

/// What happened to a worker.
#[derive(Debug, Clone, Copy, PartialEq, Eq, Structural)]
pub enum WorkerEvent {
    /// The worker got the lock of its vnode.
    LockAcquired,
    /// The merge returned.
    MergeFinished(MergeOutcome),
    /// The version edit was handed to the summary writer, or the attempt to
    /// hand it over failed.
    SummarySent,
    /// The worker left its scope, on whatever path: the guard that it set up
    /// when it was counted has gone off.
    ScopeLeft,
}

/// What a worker does next.
#[derive(Debug, Clone, Copy, PartialEq, Eq, Structural)]
pub enum WorkerAction {
    /// Run the merge.
    Merge,
    /// Send the version edit and the new files to the summary writer, without
    /// waiting for its reply.
    SendSummary,
    /// Give back the permit and leave the scope, which gives back the lock of
    /// the vnode and sets off the guard.
    Release,
    /// Nothing is to be done: the worker is gone, or the event does not belong
    /// to the stage.
    Stay,
}

/// Whether a worker in `stage` is counted among the running compactions.
pub open spec fn counts_as_running(stage: WorkerStage) -> bool {
    stage == WorkerStage::Merging || stage == WorkerStage::Forwarding || stage
        == WorkerStage::Releasing
}

/// What a [`CompactJob`] holds, as mathematics.
pub struct CompactJobView {
    /// The pending tasks and the vnode locks.
    pub processor: ProcessorView,
    /// Whether the scheduler is meant to run.
    pub enable_compaction: bool,
    /// How many workers are past the check of that flag and not yet done.
    pub running_compactions: usize,
    /// The number of merges that may run at the same time.
    pub max_concurrent_compaction: usize,
}

impl CompactJobView {
    /// The job with another count of running compactions.
    pub open spec fn with_running(self, running_compactions: usize) -> CompactJobView {
        CompactJobView { running_compactions, ..self }
    }

    /// The job with other pending tasks and locks.
    pub open spec fn with_processor(self, processor: ProcessorView) -> CompactJobView {
        CompactJobView { processor, ..self }
    }

    /// The job with nothing pending any more and its locks as they were.
    pub open spec fn drained(self) -> CompactJobView {
        self.with_processor(
            ProcessorView { pending: Seq::empty(), vnode_locks: self.processor.vnode_locks },
        )
    }

    /// The job switched on or off.
    pub open spec fn with_enabled(self, enable_compaction: bool) -> CompactJobView {
        CompactJobView { enable_compaction, ..self }
    }

    /// The limit of concurrency is one that a semaphore takes, and the
    /// processor is well formed.
    pub open spec fn wf(self) -> bool {
        &&& 1 <= self.max_concurrent_compaction <= MAX_CONCURRENT_COMPACTION
        &&& self.processor.wf()
    }
}

/// The job, the stage and the action after `event` reached a worker in
/// `stage`.
///
/// A worker that gets its lock while compaction is switched off ends at once
/// and is never counted. Otherwise it is counted from then on until it leaves
/// its scope, which it does after a merge that found nothing or failed, after
/// the version edit of a successful merge was sent, or on any other path; it
/// is uncounted when it leaves, not before and not twice.
pub open spec fn worker_step_spec(job: CompactJobView, stage: WorkerStage, event: WorkerEvent) -> (
    CompactJobView,
    WorkerStage,
    WorkerAction,
) {
    match (stage, event) {
        (WorkerStage::Waiting, WorkerEvent::LockAcquired) => {
            if job.enable_compaction {
                (
                    job.with_running(counter_up(job.running_compactions)),
                    WorkerStage::Merging,
                    WorkerAction::Merge,
                )
            } else {
                (job, WorkerStage::Done, WorkerAction::Release)
            }
        },
        (WorkerStage::Merging, WorkerEvent::MergeFinished(MergeOutcome::Merged)) => (
            job,
            WorkerStage::Forwarding,
            WorkerAction::SendSummary,
        ),
        (WorkerStage::Merging, WorkerEvent::MergeFinished(_)) => (
            job,
            WorkerStage::Releasing,
            WorkerAction::Release,
        ),
        (WorkerStage::Forwarding, WorkerEvent::SummarySent) => (
            job,
            WorkerStage::Releasing,
            WorkerAction::Release,
        ),
        (WorkerStage::Merging, WorkerEvent::ScopeLeft) => (
            job.with_running(counter_down(job.running_compactions)),
            WorkerStage::Done,
            WorkerAction::Stay,
        ),
        (WorkerStage::Forwarding, WorkerEvent::ScopeLeft) => (
            job.with_running(counter_down(job.running_compactions)),
            WorkerStage::Done,
            WorkerAction::Stay,
        ),
        (WorkerStage::Releasing, WorkerEvent::ScopeLeft) => (
            job.with_running(counter_down(job.running_compactions)),
            WorkerStage::Done,
            WorkerAction::Stay,
        ),
        _ => (job, stage, WorkerAction::Stay),
    }
}

/// The state that the compaction scheduler and its workers share: the
/// processor with the pending tasks, the switch, and the count of running
/// compactions.
pub struct CompactJob {
    compact_processor: CompactProcessor,
    enable_compaction: bool,
    running_compactions: usize,
    max_concurrent_compaction: usize,
}

impl View for CompactJob {
    type V = CompactJobView;

    closed spec fn view(&self) -> CompactJobView {
        CompactJobView {
            processor: self.compact_processor@,
            enable_compaction: self.enable_compaction,
            running_compactions: self.running_compactions,
            max_concurrent_compaction: self.max_concurrent_compaction,
        }
    }
}

impl CompactJob {
    /// The invariant of a job: see [`CompactJobView::wf`].
    pub open spec fn wf(&self) -> bool {
        self@.wf()
    }

    /// A job that is switched off, with nothing pending and nothing running,
    /// which will let `max_concurrent_compaction` merges run at a time.
    pub fn new(max_concurrent_compaction: usize) -> (job: Self)
        requires
            1 <= max_concurrent_compaction <= MAX_CONCURRENT_COMPACTION,
        ensures
            job.wf(),
            job@.processor.pending == Seq::<CompactTask>::empty(),
            job@.processor.vnode_locks.dom() == Set::<VnodeId>::empty(),
            !job@.enable_compaction,
            job@.running_compactions == 0,
            job@.max_concurrent_compaction == max_concurrent_compaction,
    {
        CompactJob {
            compact_processor: CompactProcessor::default(),
            enable_compaction: false,
            running_compactions: 0,
            max_concurrent_compaction,
        }
    }

    /// Whether the scheduler is meant to run.
    pub fn enable_compaction(&self) -> (enabled: bool)
        ensures
            enabled == self@.enable_compaction,
    {
        self.enable_compaction
    }

    /// How many compactions are running.
    pub fn running_compactions(&self) -> (running: usize)
        ensures
            running == self@.running_compactions,
    {
        self.running_compactions
    }

    /// The processor with the pending tasks.
    pub fn compact_processor(&self) -> (processor: &CompactProcessor)
        ensures
            processor@ == self@.processor,
    {
        &self.compact_processor
    }

    /// Takes in the tasks that arrived on the intake channel, in the order of
    /// their arrival: each is queued unless an equal task is already pending.
    ///
    /// Every vnode that a newly queued task names has a lock afterwards. No
    /// lock that existed is replaced, and no other lock is made.
    pub fn start_merge_compact_task_job(&mut self, compact_tasks: Vec<CompactTask>)
        ensures
            final(self)@.processor.pending == pending_after_inserts(
                old(self)@.processor.pending,
                compact_tasks@,
            ),
            old(self)@.processor.vnode_locks.submap_of(final(self)@.processor.vnode_locks),
            forall|vnode_id: VnodeId|
                final(self)@.processor.vnode_locks.contains_key(vnode_id) <==> old(
                    self,
                )@.processor.vnode_locks.contains_key(vnode_id) || exists|i: int|
                    0 <= i < compact_tasks@.len() && !old(self)@.processor.pending.contains(
                        compact_tasks@[i],
                    ) && (#[trigger] compact_tasks@[i]).vnode_id() == vnode_id,
            final(self)@ == old(self)@.with_processor(final(self)@.processor),
            old(self).wf() ==> final(self).wf(),
    {
        let mut i: usize = 0;
        while i < compact_tasks.len()
            invariant
                i <= compact_tasks@.len(),
                self@ == old(self)@.with_processor(self@.processor),
                self@.processor.pending == pending_after_inserts(
                    old(self)@.processor.pending,
                    compact_tasks@.take(i as int),
                ),
                forall|task: CompactTask|
                    old(self)@.processor.pending.contains(task)
                        ==> self@.processor.pending.contains(task),
                forall|j: int|
                    0 <= j < i ==> self@.processor.pending.contains(#[trigger] compact_tasks@[j]),
                forall|task: CompactTask|
                    self@.processor.pending.contains(task) ==> old(self)@.processor.pending.contains(
                        task,
                    ) || exists|j: int| 0 <= j < i && #[trigger] compact_tasks@[j] == task,
                old(self)@.processor.vnode_locks.submap_of(self@.processor.vnode_locks),
                forall|vnode_id: VnodeId|
                    self@.processor.vnode_locks.contains_key(vnode_id) <==> old(
                        self,
                    )@.processor.vnode_locks.contains_key(vnode_id) || exists|j: int|
                        0 <= j < i && !old(self)@.processor.pending.contains(compact_tasks@[j]) && (
                        #[trigger] compact_tasks@[j]).vnode_id() == vnode_id,
                old(self).wf() ==> self.wf(),
            decreases compact_tasks@.len() - i,
        {
            let task = compact_tasks[i];
            let ghost before = self@.processor;
            self.compact_processor.insert(task);
            proof {
                let after = self@.processor;
                let prefix = compact_tasks@.take(i as int + 1);
                assert(prefix.drop_last() =~= compact_tasks@.take(i as int));
                assert(prefix.last() == task);
                assert forall|other: CompactTask| before.pending.contains(other) implies after.pending.contains(
                    other,
                ) by {
                    if !before.pending.contains(task) {
                        let k = choose|k: int| 0 <= k < before.pending.len() && before.pending[k] == other;
                        assert(after.pending[k] == other);
                    }
                }
                assert(after.pending.contains(task)) by {
                    if !before.pending.contains(task) {
                        assert(after.pending[after.pending.len() - 1] == task);
                    }
                }
                assert forall|vnode_id: VnodeId|
                    after.vnode_locks.contains_key(vnode_id) <==> old(
                        self,
                    )@.processor.vnode_locks.contains_key(vnode_id) || exists|j: int|
                        0 <= j < i + 1 && !old(self)@.processor.pending.contains(compact_tasks@[j]) && (
                        #[trigger] compact_tasks@[j]).vnode_id() == vnode_id by {
                    if after.vnode_locks.contains_key(vnode_id) && !before.vnode_locks.contains_key(
                        vnode_id,
                    ) {
                        assert(!old(self)@.processor.pending.contains(compact_tasks@[i as int]));
                        assert(compact_tasks@[i as int].vnode_id() == vnode_id);
                    }
                    if exists|j: int|
                        0 <= j < i + 1 && !old(self)@.processor.pending.contains(compact_tasks@[j]) && (
                        #[trigger] compact_tasks@[j]).vnode_id() == vnode_id {
                        let j = choose|j: int|
                            0 <= j < i + 1 && !old(self)@.processor.pending.contains(compact_tasks@[j])
                                && (#[trigger] compact_tasks@[j]).vnode_id() == vnode_id;
                        if j == i && before.pending.contains(task) {
                            let k = choose|k: int| 0 <= k < i && #[trigger] compact_tasks@[k] == task;
                            assert(compact_tasks@[k].vnode_id() == vnode_id);
                        }
                    }
                }
                assert forall|other: CompactTask| after.pending.contains(other) implies old(
                    self,
                )@.processor.pending.contains(other) || exists|j: int|
                    0 <= j < i + 1 && #[trigger] compact_tasks@[j] == other by {
                    if !before.pending.contains(other) {
                        let k = choose|k: int| 0 <= k < after.pending.len() && after.pending[k] == other;
                        if k < before.pending.len() {
                            assert(before.pending[k] == other);
                        }
                        assert(compact_tasks@[i as int] == other);
                    }
                }
            }
            i += 1;
        }
        assert(compact_tasks@.take(i as int) =~= compact_tasks@);
    }

    /// Switches compaction on, if it is off, and tells whether a scheduler is
    /// to be started: a second start while one runs starts nothing.
    ///
    /// The scheduler that is to be started gets the semaphore that is returned,
    /// made with as many permits as merges may run at a time.
    pub fn start_vnode_compaction_job(&mut self) -> (limit: Option<Arc<Semaphore>>)
        requires
            old(self).wf(),
        ensures
            final(self)@ == old(self)@.with_enabled(true),
            limit is Some <==> !old(self)@.enable_compaction,
            limit matches Some(compaction_limit) ==> permits_made_with(*compaction_limit) == old(
                self,
            )@.max_concurrent_compaction,
    {
        if self.enable_compaction {
            None
        } else {
            self.enable_compaction = true;
            Some(Arc::new(new_semaphore(self.max_concurrent_compaction)))
        }
    }

    /// Switches compaction off. The scheduler leaves its loop at its next
    /// tick, and a worker that has not yet passed the check of the switch ends
    /// without merging. A merge under way is not interrupted.
    pub fn stop_vnode_compaction_job(&mut self)
        ensures
            final(self)@ == old(self)@.with_enabled(false),
    {
        self.enable_compaction = false;
    }

    /// One tick of the scheduler.
    ///
    /// With compaction switched off the scheduler is to exit, and with nothing
    /// pending it is to sleep; the job is untouched in both cases. Otherwise
    /// the pending tasks are drained. They come back as a batch, in order and
    /// each with the lock of its vnode, unless one of them has no lock, which
    /// ends the scheduler.
    pub fn tick(&mut self) -> (tick: Tick)
        ensures
            match tick {
                Tick::Exit => !old(self)@.enable_compaction && final(self)@ == old(self)@,
                Tick::Idle => old(self)@.enable_compaction && old(self)@.processor.pending.len()
                    == 0 && final(self)@ == old(self)@,
                Tick::Batch(batch) => {
                    &&& old(self)@.enable_compaction
                    &&& old(self)@.processor.pending.len() > 0
                    &&& old(self)@.processor.locks_cover_pending()
                    &&& is_batch_of(batch@, old(self)@.processor)
                    &&& final(self)@ == old(self)@.drained()
                },
                Tick::Failed(ProcessorError::MissingVnodeLock { vnode_id }) => {
                    &&& old(self)@.enable_compaction
                    &&& old(self)@.processor.pending.len() > 0
                    &&& !old(self)@.processor.locks_cover_pending()
                    &&& exists|i: int|
                        is_first_unlocked(
                            old(self)@.processor.pending,
                            old(self)@.processor.vnode_locks,
                            i,
                        ) && vnode_id == old(self)@.processor.pending[i].vnode_id()
                    &&& final(self)@ == old(self)@.drained()
                },
            },
            old(self).wf() ==> final(self).wf(),
    {
        if !self.enable_compaction {
            return Tick::Exit;
        }
        if self.compact_processor.is_empty() {
            return Tick::Idle;
        }
        match self.compact_processor.take() {
            Ok(batch) => Tick::Batch(CompactBatch::new(batch)),
            Err(e) => Tick::Failed(e),
        }
    }

    /// Moves a worker on by one event and keeps the count of running
    /// compactions in step with it.
    pub fn worker_step(&mut self, stage: WorkerStage, event: WorkerEvent) -> (next: (
        WorkerStage,
        WorkerAction,
    ))
        ensures
            (final(self)@, next.0, next.1) == worker_step_spec(old(self)@, stage, event),
    {
        match (stage, event) {
            (WorkerStage::Waiting, WorkerEvent::LockAcquired) => {
                if self.enable_compaction {
                    self.running_compactions = self.running_compactions.wrapping_add(1);
                    (WorkerStage::Merging, WorkerAction::Merge)
                } else {
                    (WorkerStage::Done, WorkerAction::Release)
                }
            },
            (WorkerStage::Merging, WorkerEvent::MergeFinished(MergeOutcome::Merged)) => {
                (WorkerStage::Forwarding, WorkerAction::SendSummary)
            },
            (WorkerStage::Merging, WorkerEvent::MergeFinished(_)) => {
                (WorkerStage::Releasing, WorkerAction::Release)
            },
            (WorkerStage::Forwarding, WorkerEvent::SummarySent) => {
                (WorkerStage::Releasing, WorkerAction::Release)
            },
            (WorkerStage::Merging, WorkerEvent::ScopeLeft) => {
                self.running_compactions = self.running_compactions.wrapping_sub(1);
                (WorkerStage::Done, WorkerAction::Stay)
            },
            (WorkerStage::Forwarding, WorkerEvent::ScopeLeft) => {
                self.running_compactions = self.running_compactions.wrapping_sub(1);
                (WorkerStage::Done, WorkerAction::Stay)
            },
            (WorkerStage::Releasing, WorkerEvent::ScopeLeft) => {
                self.running_compactions = self.running_compactions.wrapping_sub(1);
                (WorkerStage::Done, WorkerAction::Stay)
            },
            _ => (stage, WorkerAction::Stay),
        }
    }
}

/// The verdict on a task of which `probe` was learned, when the round has
/// not been ended before.
pub open spec fn verdict_for(item: (CompactTask, VnodeLock), probe: VnodeProbe) -> Settled {
    match probe {
        VnodeProbe::Missing => Settled::Skipped,
        VnodeProbe::Moving => Settled::Aborted,
        VnodeProbe::NothingToCompact => Settled::Skipped,
        VnodeProbe::Picked => Settled::Spawn(item.0, item.1),
    }
}

/// Whether one of the first `k` probes found a moving vnode.
pub open spec fn moved_before(probes: Seq<VnodeProbe>, k: int) -> bool {
    exists|j: int| 0 <= j < k && j < probes.len() && #[trigger] probes[j] == VnodeProbe::Moving
}

/// What is left of `batch`, and the verdicts given, after the tasks were
/// settled one by one with `probes`.
pub open spec fn round_trace(batch: Seq<(CompactTask, VnodeLock)>, probes: Seq<VnodeProbe>) -> (
    Seq<(CompactTask, VnodeLock)>,
    Seq<Settled>,
)
    decreases probes.len(),
{
    if probes.len() == 0 {
        (batch, Seq::empty())
    } else {
        let (rest, verdicts) = round_trace(batch, probes.drop_last());
        let (left, settled) = settle_spec(rest, probes.last());
        (left, verdicts.push(settled))
    }
}

/// A round of the scheduler: the drained tasks are settled in their order,
/// each by what was learned of its own vnode, until one of them is found on
/// a moving vnode. That task and all behind it are dropped, and so no worker
/// is spawned for any of them.
pub proof fn lemma_round_stops_at_moving_vnode(
    batch: Seq<(CompactTask, VnodeLock)>,
    probes: Seq<VnodeProbe>,
)
    ensures
        ({
            let (rest, verdicts) = round_trace(batch, probes);
            &&& verdicts.len() == probes.len()
            &&& forall|k: int|
                0 <= k < probes.len() ==> #[trigger] verdicts[k] == if k < batch.len()
                    && !moved_before(probes, k) {
                    verdict_for(batch[k], probes[k])
                } else {
                    Settled::Finished
                }
            &&& rest == if probes.len() >= batch.len() || moved_before(
                probes,
                probes.len() as int,
            ) {
                Seq::empty()
            } else {
                batch.skip(probes.len() as int)
            }
        }),
    decreases probes.len(),
{
    let (rest, verdicts) = round_trace(batch, probes);
    if probes.len() == 0 {
        assert(batch.skip(0) =~= batch);
        if batch.len() == 0 {
            assert(batch =~= Seq::empty());
        }
    } else {
        let earlier = probes.drop_last();
        let n = earlier.len() as int;
        let (mid, before) = round_trace(batch, earlier);
        lemma_round_stops_at_moving_vnode(batch, earlier);
        assert forall|k: int| 0 <= k <= n implies moved_before(earlier, k) == moved_before(
            probes,
            k,
        ) by {
            if moved_before(earlier, k) {
                let j = choose|j: int|
                    0 <= j < k && j < earlier.len() && #[trigger] earlier[j] == VnodeProbe::Moving;
                assert(probes[j] == VnodeProbe::Moving);
            }
            if moved_before(probes, k) {
                let j = choose|j: int|
                    0 <= j < k && j < probes.len() && #[trigger] probes[j] == VnodeProbe::Moving;
                assert(earlier[j] == VnodeProbe::Moving);
            }
        }
        assert(moved_before(probes, n + 1) == (moved_before(probes, n) || probes[n]
            == VnodeProbe::Moving)) by {
            if moved_before(probes, n + 1) {
                let j = choose|j: int|
                    0 <= j < n + 1 && j < probes.len() && #[trigger] probes[j] == VnodeProbe::Moving;
                if j < n {
                    assert(moved_before(probes, n));
                }
            }
            if moved_before(probes, n) {
                let j = choose|j: int|
                    0 <= j < n && j < probes.len() && #[trigger] probes[j] == VnodeProbe::Moving;
                assert(moved_before(probes, n + 1));
            }
            if probes[n] == VnodeProbe::Moving {
                assert(moved_before(probes, n + 1));
            }
        }
        if n < batch.len() && !moved_before(probes, n) {
            assert(mid == batch.skip(n));
            assert(mid[0] == batch[n]);
            assert(mid.skip(1) =~= batch.skip(n + 1));
            if n + 1 >= batch.len() {
                assert(batch.skip(n + 1) =~= Seq::empty());
            }
        } else {
            assert(mid.len() == 0);
        }
        assert forall|k: int| 0 <= k < probes.len() implies #[trigger] verdicts[k] == if k
            < batch.len() && !moved_before(probes, k) {
            verdict_for(batch[k], probes[k])
        } else {
            Settled::Finished
        } by {
            if k < n {
                assert(verdicts[k] == before[k]);
                assert(probes[k] == earlier[k]);
            }
        }
    }
}

/// The count of running compactions after `k` more began.
pub open spec fn counter_up_by(n: usize, k: nat) -> usize
    decreases k,
{
    if k == 0 {
        n
    } else {
        counter_up(counter_up_by(n, (k - 1) as nat))
    }
}

/// How many of the workers are counted among the running compactions.
pub open spec fn running_workers(stages: Seq<WorkerStage>) -> nat
    decreases stages.len(),
{
    if stages.len() == 0 {
        0
    } else if counts_as_running(stages.last()) {
        running_workers(stages.drop_last()) + 1
    } else {
        running_workers(stages.drop_last())
    }
}

/// What can happen while workers run.
pub enum FleetStep {
    /// An event reaches the worker with this number.
    Worker(int, WorkerEvent),
    /// Compaction is switched on.
    Start,
    /// Compaction is switched off.
    Stop,
}

/// The job and the stages of the workers after one step.
pub open spec fn fleet_step(job: CompactJobView, stages: Seq<WorkerStage>, step: FleetStep) -> (
    CompactJobView,
    Seq<WorkerStage>,
) {
    match step {
        FleetStep::Worker(worker, event) => if 0 <= worker < stages.len() {
            let (next, stage, _) = worker_step_spec(job, stages[worker], event);
            (next, stages.update(worker, stage))
        } else {
            (job, stages)
        },
        FleetStep::Start => (job.with_enabled(true), stages),
        FleetStep::Stop => (job.with_enabled(false), stages),
    }
}

/// The job and the stages of the workers after `steps`, one after the other.
pub open spec fn fleet_run(job: CompactJobView, stages: Seq<WorkerStage>, steps: Seq<FleetStep>) -> (
    CompactJobView,
    Seq<WorkerStage>,
)
    decreases steps.len(),
{
    if steps.len() == 0 {
        (job, stages)
    } else {
        let (mid, at) = fleet_run(job, stages, steps.drop_last());
        fleet_step(mid, at, steps.last())
    }
}

proof fn lemma_running_workers_update(stages: Seq<WorkerStage>, worker: int, stage: WorkerStage)
    requires
        0 <= worker < stages.len(),
    ensures
        running_workers(stages.update(worker, stage)) + (if counts_as_running(stages[worker]) {
            1nat
        } else {
            0nat
        }) == running_workers(stages) + (if counts_as_running(stage) {
            1nat
        } else {
            0nat
        }),
    decreases stages.len(),
{
    let updated = stages.update(worker, stage);
    if worker == stages.len() - 1 {
        assert(updated.drop_last() =~= stages.drop_last());
    } else {
        assert(updated.drop_last() =~= stages.drop_last().update(worker, stage));
        lemma_running_workers_update(stages.drop_last(), worker, stage);
    }
}

/// The count of running compactions follows the workers: whatever happens to
/// whichever worker, and however compaction is switched meanwhile, the count
/// stands above its value at the outset by the number of workers that are
/// past the check of the switch and have not left their scope, if there was
/// no such worker when the count was read.
pub proof fn lemma_running_counter_follows_workers(
    job: CompactJobView,
    stages: Seq<WorkerStage>,
    steps: Seq<FleetStep>,
)
    requires
        running_workers(stages) == 0,
    ensures
        ({
            let (end, at) = fleet_run(job, stages, steps);
            &&& at.len() == stages.len()
            &&& end.running_compactions == counter_up_by(
                job.running_compactions,
                running_workers(at),
            )
            &&& end.processor == job.processor
            &&& end.max_concurrent_compaction == job.max_concurrent_compaction
        }),
    decreases steps.len(),
{
    if steps.len() > 0 {
        lemma_running_counter_follows_workers(job, stages, steps.drop_last());
        let (mid, at) = fleet_run(job, stages, steps.drop_last());
        match steps.last() {
            FleetStep::Worker(worker, event) => {
                if 0 <= worker < at.len() {
                    let (next, stage, _) = worker_step_spec(mid, at[worker], event);
                    lemma_running_workers_update(at, worker, stage);
                }
            },
            FleetStep::Start => {},
            FleetStep::Stop => {},
        }
    }
}

/// Balance of the running counter: once every worker has left its scope, the
/// count of running compactions is back at the value it had before any of
/// them was counted.
pub proof fn lemma_running_counter_balance(
    job: CompactJobView,
    stages: Seq<WorkerStage>,
    steps: Seq<FleetStep>,
)
    requires
        running_workers(stages) == 0,
        running_workers(fleet_run(job, stages, steps).1) == 0,
    ensures
        fleet_run(job, stages, steps).0.running_compactions == job.running_compactions,
{
    lemma_running_counter_follows_workers(job, stages, steps);
}

/// A worker that is done stays done, and nothing that reaches it changes the
/// job: it is counted once and uncounted once, never again.
pub proof fn lemma_done_worker_is_inert(job: CompactJobView, event: WorkerEvent)
    ensures
        worker_step_spec(job, WorkerStage::Done, event) == (
            job,
            WorkerStage::Done,
            WorkerAction::Stay,
        ),
{
}

/// With every pending task under a lock, as the processor keeps them, a tick
/// never fails.
pub proof fn lemma_well_formed_job_drains(job: CompactJobView)
    requires
        job.wf(),
    ensures
        job.processor.locks_cover_pending(),
        job.drained().wf(),
{
}

} // verus!
