use std::sync::Arc;

use tskv_jobs::compact_job::{
    CompactBatch, CompactJob, MergeOutcome, ProbeAnswers, ProbeStep, Settled, Tick, VnodeProbe,
    WorkerAction, WorkerEvent, WorkerStage, COMPACT_BATCH_CHECKING_SECONDS,
    MAX_CONCURRENT_COMPACTION,
};
use tskv_jobs::task::CompactTask;

fn batch_of(job: &mut CompactJob) -> CompactBatch {
    match job.tick() {
        Tick::Batch(batch) => batch,
        _ => panic!("the tick was expected to drain a batch"),
    }
}

#[test]
fn constants_of_the_scheduler() {
    assert_eq!(COMPACT_BATCH_CHECKING_SECONDS, 1);
    assert_eq!(MAX_CONCURRENT_COMPACTION, usize::MAX >> 3);
    assert_eq!(MAX_CONCURRENT_COMPACTION, tokio::sync::Semaphore::MAX_PERMITS);
}

#[test]
fn new_job_is_switched_off_and_idle() {
    let job = CompactJob::new(4);
    assert!(!job.enable_compaction());
    assert_eq!(job.running_compactions(), 0);
    assert!(job.compact_processor().is_empty());
}

#[test]
fn start_is_idempotent() {
    let mut job = CompactJob::new(3);
    let first = job.start_vnode_compaction_job();
    assert!(first.is_some());
    assert!(job.enable_compaction());
    let second = job.start_vnode_compaction_job();
    assert!(second.is_none());
    assert!(job.enable_compaction());
}

#[test]
fn start_after_stop_starts_again() {
    let mut job = CompactJob::new(1);
    assert!(job.start_vnode_compaction_job().is_some());
    job.stop_vnode_compaction_job();
    assert!(!job.enable_compaction());
    assert!(job.start_vnode_compaction_job().is_some());
    assert!(job.enable_compaction());
}

#[test]
fn semaphore_has_the_configured_permits() {
    let mut job = CompactJob::new(3);
    let limit = job.start_vnode_compaction_job().unwrap();
    assert_eq!(limit.available_permits(), 3);
    let mut largest = CompactJob::new(MAX_CONCURRENT_COMPACTION);
    let limit = largest.start_vnode_compaction_job().unwrap();
    assert_eq!(limit.available_permits(), MAX_CONCURRENT_COMPACTION);
}

#[test]
fn intake_dedups_in_arrival_order() {
    let mut job = CompactJob::new(2);
    job.start_merge_compact_task_job(vec![
        CompactTask::Normal(1),
        CompactTask::Normal(2),
        CompactTask::Normal(1),
    ]);
    job.start_merge_compact_task_job(vec![CompactTask::Normal(3), CompactTask::Normal(2)]);
    job.start_merge_compact_task_job(vec![]);
    assert_eq!(
        job.compact_processor().compact_tasks().as_slice(),
        &[
            CompactTask::Normal(1),
            CompactTask::Normal(2),
            CompactTask::Normal(3)
        ]
    );
    for vnode_id in [1, 2, 3] {
        assert!(job.compact_processor().vnode_lock(vnode_id).is_some());
    }
    assert!(job.compact_processor().vnode_lock(4).is_none());
}

#[test]
fn tick_exits_when_switched_off() {
    let mut job = CompactJob::new(2);
    job.start_merge_compact_task_job(vec![CompactTask::Normal(1)]);
    assert!(matches!(job.tick(), Tick::Exit));
    assert_eq!(job.compact_processor().compact_tasks().len(), 1);
    job.start_vnode_compaction_job();
    job.stop_vnode_compaction_job();
    assert!(matches!(job.tick(), Tick::Exit));
    assert_eq!(job.compact_processor().compact_tasks().len(), 1);
}

#[test]
fn tick_idles_with_nothing_pending() {
    let mut job = CompactJob::new(2);
    job.start_vnode_compaction_job();
    assert!(matches!(job.tick(), Tick::Idle));
    assert!(job.enable_compaction());
}

#[test]
fn tick_drains_the_pending_tasks_in_order() {
    let mut job = CompactJob::new(2);
    job.start_vnode_compaction_job();
    job.start_merge_compact_task_job(vec![
        CompactTask::Delta(9),
        CompactTask::Normal(4),
        CompactTask::Delta(9),
    ]);
    let mut batch = batch_of(&mut job);
    assert!(job.compact_processor().is_empty());
    assert_eq!(batch.len(), 2);
    assert_eq!(batch.next_task(), Some(CompactTask::Delta(9)));
    match batch.settle(VnodeProbe::Picked) {
        Settled::Spawn(task, lock) => {
            assert_eq!(task, CompactTask::Delta(9));
            let stored = job.compact_processor().vnode_lock(9).unwrap();
            assert!(Arc::ptr_eq(&lock, &stored));
        }
        _ => panic!("a picked task is spawned"),
    }
    assert_eq!(batch.next_task(), Some(CompactTask::Normal(4)));
    assert!(matches!(job.tick(), Tick::Idle));
}

#[test]
fn vnode_is_asked_in_order() {
    let mut answers = ProbeAnswers::new();
    assert_eq!(
        answers,
        ProbeAnswers {
            found: None,
            can_compaction: None,
            picked: None
        }
    );
    assert_eq!(answers.next(), ProbeStep::Lookup);
    answers.found = Some(true);
    assert_eq!(answers.next(), ProbeStep::CanCompaction);
    answers.can_compaction = Some(true);
    assert_eq!(answers.next(), ProbeStep::Pick);
    answers.picked = Some(true);
    assert_eq!(answers.next(), ProbeStep::Known(VnodeProbe::Picked));
    answers.picked = Some(false);
    assert_eq!(answers.next(), ProbeStep::Known(VnodeProbe::NothingToCompact));
}

#[test]
fn missing_or_moving_vnode_is_asked_no_further() {
    let mut answers = ProbeAnswers::new();
    answers.found = Some(false);
    assert_eq!(answers.next(), ProbeStep::Known(VnodeProbe::Missing));
    answers.can_compaction = Some(true);
    answers.picked = Some(true);
    assert_eq!(answers.next(), ProbeStep::Known(VnodeProbe::Missing));

    let mut answers = ProbeAnswers::new();
    answers.found = Some(true);
    answers.can_compaction = Some(false);
    assert_eq!(answers.next(), ProbeStep::Known(VnodeProbe::Moving));
    answers.picked = Some(true);
    assert_eq!(answers.next(), ProbeStep::Known(VnodeProbe::Moving));

    let mut answers = ProbeAnswers::new();
    answers.can_compaction = Some(false);
    answers.picked = Some(false);
    assert_eq!(answers.next(), ProbeStep::Lookup);
}

#[test]
fn round_skips_missing_and_idle_vnodes() {
    let tasks = vec![
        CompactTask::Normal(1),
        CompactTask::Normal(2),
        CompactTask::Normal(3),
    ];
    let mut job = CompactJob::new(2);
    job.start_vnode_compaction_job();
    job.start_merge_compact_task_job(tasks);
    let mut batch = batch_of(&mut job);
    assert!(matches!(batch.settle(VnodeProbe::Missing), Settled::Skipped));
    assert_eq!(batch.len(), 2);
    assert!(matches!(
        batch.settle(VnodeProbe::NothingToCompact),
        Settled::Skipped
    ));
    assert_eq!(batch.len(), 1);
    assert!(matches!(
        batch.settle(VnodeProbe::Picked),
        Settled::Spawn(CompactTask::Normal(3), _)
    ));
    assert_eq!(batch.len(), 0);
    assert_eq!(batch.next_task(), None);
    assert!(matches!(batch.settle(VnodeProbe::Picked), Settled::Finished));
    assert!(matches!(batch.settle(VnodeProbe::Moving), Settled::Finished));
}

#[test]
fn moving_vnode_drops_the_rest_of_the_round() {
    let mut job = CompactJob::new(2);
    job.start_vnode_compaction_job();
    job.start_merge_compact_task_job(vec![
        CompactTask::Normal(1),
        CompactTask::Normal(2),
        CompactTask::Normal(3),
        CompactTask::Normal(4),
    ]);
    let mut batch = batch_of(&mut job);
    assert!(matches!(
        batch.settle(VnodeProbe::Picked),
        Settled::Spawn(CompactTask::Normal(1), _)
    ));
    assert!(matches!(batch.settle(VnodeProbe::Moving), Settled::Aborted));
    assert_eq!(batch.len(), 0);
    assert_eq!(batch.next_task(), None);
    assert!(matches!(batch.settle(VnodeProbe::Picked), Settled::Finished));
    assert!(job.compact_processor().is_empty());
}

#[test]
fn batch_built_by_hand_keeps_its_order() {
    let mut job = CompactJob::new(1);
    job.start_merge_compact_task_job(vec![CompactTask::Normal(5), CompactTask::Normal(6)]);
    let lock_5 = job.compact_processor().vnode_lock(5).unwrap();
    let lock_6 = job.compact_processor().vnode_lock(6).unwrap();
    let mut batch = CompactBatch::new(vec![
        (CompactTask::Normal(6), lock_6),
        (CompactTask::Normal(5), lock_5),
        (CompactTask::Delta(5), job.compact_processor().vnode_lock(5).unwrap()),
    ]);
    assert_eq!(batch.len(), 3);
    assert_eq!(batch.next_task(), Some(CompactTask::Normal(6)));
    batch.settle(VnodeProbe::Missing);
    assert_eq!(batch.next_task(), Some(CompactTask::Normal(5)));
    batch.settle(VnodeProbe::Missing);
    assert_eq!(batch.next_task(), Some(CompactTask::Delta(5)));
}

#[test]
fn concurrency_cap() {
    let mut job = CompactJob::new(2);
    let limit = job.start_vnode_compaction_job().unwrap();
    job.start_merge_compact_task_job(vec![
        CompactTask::Normal(1),
        CompactTask::Normal(2),
        CompactTask::Normal(3),
        CompactTask::Normal(4),
        CompactTask::Normal(5),
    ]);
    let mut batch = batch_of(&mut job);
    let mut merging = Vec::new();
    let mut held_back = Vec::new();
    while batch.next_task().is_some() {
        match batch.settle(VnodeProbe::Picked) {
            Settled::Spawn(task, _lock) => match limit.clone().try_acquire_owned() {
                Ok(permit) => merging.push((task, permit)),
                Err(_) => held_back.push(task),
            },
            _ => panic!("every task was picked"),
        }
        assert!(merging.len() <= 2);
    }
    assert_eq!(merging.len(), 2);
    assert_eq!(
        held_back,
        vec![
            CompactTask::Normal(3),
            CompactTask::Normal(4),
            CompactTask::Normal(5)
        ]
    );
    assert_eq!(limit.available_permits(), 0);
    merging.pop();
    assert_eq!(limit.available_permits(), 1);
    assert!(limit.clone().try_acquire_owned().is_ok());
}

#[test]
fn worker_counts_itself_until_it_leaves_its_scope() {
    let mut job = CompactJob::new(2);
    job.start_vnode_compaction_job();
    let (stage, action) = job.worker_step(WorkerStage::Waiting, WorkerEvent::LockAcquired);
    assert_eq!((stage, action), (WorkerStage::Merging, WorkerAction::Merge));
    assert_eq!(job.running_compactions(), 1);
    let (stage, action) =
        job.worker_step(stage, WorkerEvent::MergeFinished(MergeOutcome::Merged));
    assert_eq!(
        (stage, action),
        (WorkerStage::Forwarding, WorkerAction::SendSummary)
    );
    assert_eq!(job.running_compactions(), 1);
    let (stage, action) = job.worker_step(stage, WorkerEvent::SummarySent);
    assert_eq!(
        (stage, action),
        (WorkerStage::Releasing, WorkerAction::Release)
    );
    assert_eq!(job.running_compactions(), 1);
    let (stage, action) = job.worker_step(stage, WorkerEvent::ScopeLeft);
    assert_eq!((stage, action), (WorkerStage::Done, WorkerAction::Stay));
    assert_eq!(job.running_compactions(), 0);
}

#[test]
fn worker_that_finds_nothing_or_fails_sends_no_summary() {
    for outcome in [MergeOutcome::NothingMerged, MergeOutcome::Failed] {
        let mut job = CompactJob::new(2);
        job.start_vnode_compaction_job();
        let (stage, _) = job.worker_step(WorkerStage::Waiting, WorkerEvent::LockAcquired);
        assert_eq!(job.running_compactions(), 1);
        let (stage, action) = job.worker_step(stage, WorkerEvent::MergeFinished(outcome));
        assert_eq!(
            (stage, action),
            (WorkerStage::Releasing, WorkerAction::Release)
        );
        assert_eq!(job.running_compactions(), 1);
        let (stage, action) = job.worker_step(stage, WorkerEvent::ScopeLeft);
        assert_eq!((stage, action), (WorkerStage::Done, WorkerAction::Stay));
        assert_eq!(job.running_compactions(), 0);
    }
}

#[test]
fn worker_ends_uncounted_when_compaction_is_off() {
    let mut job = CompactJob::new(2);
    let (stage, action) = job.worker_step(WorkerStage::Waiting, WorkerEvent::LockAcquired);
    assert_eq!((stage, action), (WorkerStage::Done, WorkerAction::Release));
    assert_eq!(job.running_compactions(), 0);
    assert_eq!(
        job.worker_step(stage, WorkerEvent::ScopeLeft),
        (WorkerStage::Done, WorkerAction::Stay)
    );
    assert_eq!(job.running_compactions(), 0);

    job.start_vnode_compaction_job();
    job.stop_vnode_compaction_job();
    let (stage, action) = job.worker_step(WorkerStage::Waiting, WorkerEvent::LockAcquired);
    assert_eq!((stage, action), (WorkerStage::Done, WorkerAction::Release));
    assert_eq!(job.running_compactions(), 0);
}

#[test]
fn merge_under_way_is_not_interrupted_by_a_stop() {
    let mut job = CompactJob::new(2);
    job.start_vnode_compaction_job();
    let (stage, _) = job.worker_step(WorkerStage::Waiting, WorkerEvent::LockAcquired);
    job.stop_vnode_compaction_job();
    assert_eq!(job.running_compactions(), 1);
    let (stage, action) =
        job.worker_step(stage, WorkerEvent::MergeFinished(MergeOutcome::Merged));
    assert_eq!(
        (stage, action),
        (WorkerStage::Forwarding, WorkerAction::SendSummary)
    );
    let (stage, _) = job.worker_step(stage, WorkerEvent::SummarySent);
    let (stage, _) = job.worker_step(stage, WorkerEvent::ScopeLeft);
    assert_eq!(stage, WorkerStage::Done);
    assert_eq!(job.running_compactions(), 0);
}

#[test]
fn worker_that_leaves_early_is_uncounted_once() {
    for merged in [false, true] {
        let mut job = CompactJob::new(2);
        job.start_vnode_compaction_job();
        let (mut stage, _) = job.worker_step(WorkerStage::Waiting, WorkerEvent::LockAcquired);
        if merged {
            stage = job
                .worker_step(stage, WorkerEvent::MergeFinished(MergeOutcome::Merged))
                .0;
        }
        assert_eq!(job.running_compactions(), 1);
        let (stage, action) = job.worker_step(stage, WorkerEvent::ScopeLeft);
        assert_eq!((stage, action), (WorkerStage::Done, WorkerAction::Stay));
        assert_eq!(job.running_compactions(), 0);
        let (stage, action) = job.worker_step(stage, WorkerEvent::ScopeLeft);
        assert_eq!((stage, action), (WorkerStage::Done, WorkerAction::Stay));
        assert_eq!(job.running_compactions(), 0);
    }
    let mut job = CompactJob::new(2);
    job.start_vnode_compaction_job();
    assert_eq!(
        job.worker_step(WorkerStage::Waiting, WorkerEvent::ScopeLeft),
        (WorkerStage::Waiting, WorkerAction::Stay)
    );
    assert_eq!(job.running_compactions(), 0);
}

#[test]
fn running_counter_wraps_like_the_machine_integer() {
    let mut job = CompactJob::new(2);
    job.start_vnode_compaction_job();
    let (stage, _) = job.worker_step(WorkerStage::Merging, WorkerEvent::ScopeLeft);
    assert_eq!(stage, WorkerStage::Done);
    assert_eq!(job.running_compactions(), usize::MAX);
    let (stage, _) = job.worker_step(WorkerStage::Waiting, WorkerEvent::LockAcquired);
    assert_eq!(stage, WorkerStage::Merging);
    assert_eq!(job.running_compactions(), 0);
}

#[test]
fn events_out_of_place_change_nothing() {
    let mut job = CompactJob::new(2);
    job.start_vnode_compaction_job();
    let cases = [
        (WorkerStage::Waiting, WorkerEvent::SummarySent),
        (
            WorkerStage::Waiting,
            WorkerEvent::MergeFinished(MergeOutcome::Merged),
        ),
        (WorkerStage::Merging, WorkerEvent::LockAcquired),
        (WorkerStage::Merging, WorkerEvent::SummarySent),
        (WorkerStage::Forwarding, WorkerEvent::LockAcquired),
        (
            WorkerStage::Forwarding,
            WorkerEvent::MergeFinished(MergeOutcome::Failed),
        ),
        (WorkerStage::Releasing, WorkerEvent::LockAcquired),
        (WorkerStage::Releasing, WorkerEvent::SummarySent),
        (
            WorkerStage::Releasing,
            WorkerEvent::MergeFinished(MergeOutcome::Merged),
        ),
        (WorkerStage::Done, WorkerEvent::LockAcquired),
        (
            WorkerStage::Done,
            WorkerEvent::MergeFinished(MergeOutcome::NothingMerged),
        ),
        (WorkerStage::Done, WorkerEvent::SummarySent),
    ];
    for (stage, event) in cases {
        assert_eq!(job.worker_step(stage, event), (stage, WorkerAction::Stay));
        assert_eq!(job.running_compactions(), 0);
    }
}

#[test]
fn running_counter_balances_over_interleaved_workers() {
    let mut job = CompactJob::new(3);
    job.start_vnode_compaction_job();
    let mut stages = [WorkerStage::Waiting; 4];
    let steps = [
        (0, WorkerEvent::LockAcquired),
        (1, WorkerEvent::LockAcquired),
        (0, WorkerEvent::MergeFinished(MergeOutcome::Merged)),
        (2, WorkerEvent::LockAcquired),
        (1, WorkerEvent::MergeFinished(MergeOutcome::Failed)),
        (0, WorkerEvent::SummarySent),
        (1, WorkerEvent::ScopeLeft),
        (3, WorkerEvent::LockAcquired),
        (0, WorkerEvent::ScopeLeft),
        (2, WorkerEvent::ScopeLeft),
        (3, WorkerEvent::MergeFinished(MergeOutcome::NothingMerged)),
        (3, WorkerEvent::ScopeLeft),
    ];
    let expected = [1, 2, 2, 3, 3, 3, 2, 3, 2, 1, 1, 0];
    for ((worker, event), running) in steps.into_iter().zip(expected) {
        let (stage, _) = job.worker_step(stages[worker], event);
        stages[worker] = stage;
        assert_eq!(job.running_compactions(), running);
    }
    assert!(stages.iter().all(|stage| *stage == WorkerStage::Done));
    assert_eq!(job.running_compactions(), 0);
}
