//! One run of a flush request, as a machine that says what is to be done next.
//!
//! A run flushes the index, marks the sealed memcaches it can claim, enters a
//! summary task for each, flushes them one by one, waits for the summary
//! writer's replies, and reports. When a memcache cannot be flushed, or the
//! summary writer refuses an edit, every memcache that the run had marked is
//! unmarked again before the error goes back to the caller.

use vstd::prelude::*;

verus! {

/// Where a flush run stands.
#[derive(Debug, Clone, Copy, PartialEq, Eq, Structural)]
pub enum FlushStage {
    /// Nothing was done yet.
    Created,
    /// The index is being flushed.
    Index,
    /// The sealed memcaches are being marked as flushing.
    Marking,
    /// A summary task is entered into the flush queue for each marked
    /// memcache.
    Enqueueing,
    /// The marked memcache with this number is being flushed.
    Flushing(usize),
    /// The queue entry of the marked memcache with this number is being
    /// completed.
    Completing(usize),
    /// The reply to the summary task with this number is awaited.
    AwaitingReply(usize),
    /// The marks are being taken back after a failure.
    Erasing,
    /// The tombstones of the index are being cleared.
    Clearing,
    /// The timings of the flush are being reported.
    Reporting,
    /// The run has returned.
    Done,
}

/// What the summary writer answered to one summary task.
#[derive(Debug, PartialEq, Eq)]
pub enum SummaryReply<E> {
    /// The edit was applied.
    Applied,
    /// The edit was refused.
    Failed(E),
    /// The reply channel was dropped without an answer.
    Dropped,
}

/// What happened since the last step of a run.
#[derive(Debug, PartialEq, Eq)]
pub enum FlushEvent<E> {
    /// The run is to begin.
    Begin,
    /// The flush of the index returned.
    IndexFlushed(Result<(), E>),
    /// The sealed memcaches were asked to mark themselves as flushing. The
    /// answers stand in the order of the snapshot: `true` where the mark was
    /// set by this run.
    Marked(Vec<bool>),
    /// The summary tasks were entered into the flush queue.
    Enqueued,
    /// The flush of one memcache returned.
    MemtableFlushed(Result<(), E>),
    /// The queue entry of the flushed memcache was completed.
    Completed,
    /// The summary writer replied, or its reply was lost.
    Replied(SummaryReply<E>),
    /// The marks were taken back.
    Erased,
    /// The tombstones were cleared, or clearing them failed.
    TombstonesCleared,
    /// The timings were reported.
    Reported,
}

/// What is to be done next for a run.
#[derive(Debug, PartialEq, Eq)]
pub enum FlushAction<E> {
    /// Flush the index.
    FlushIndex,
    /// Take the snapshot of sealed memcaches and ask each to mark itself as
    /// flushing.
    MarkMemcaches,
    /// Enter a summary task into the flush queue for each retained memcache,
    /// in their order, under the sequence number of the memcache.
    Enqueue,
    /// Flush the memcache at this position of the snapshot.
    FlushMemtable(usize),
    /// Complete the queue entry of the memcache at this position of the
    /// snapshot with what its flush produced, and wake the summary writer.
    Complete(usize),
    /// Await the reply to the summary task with this number, counted in the
    /// order in which the tasks were entered.
    AwaitReply(usize),
    /// Take back the flushing mark of every retained memcache.
    EraseFlushing,
    /// Clear the tombstones of the index; a failure is ignored.
    ClearTombstones,
    /// Report the timings of the flush.
    ReportMetrics,
    /// Return from the run with this result.
    Return(Result<(), E>),
    /// The event does not belong to the stage: nothing is to be done.
    Nothing,
}

/// The positions of a snapshot at which the mark was set, in ascending order.
pub open spec fn marked_positions(marks: Seq<bool>) -> Seq<usize>
    decreases marks.len(),
{
    if marks.len() == 0 {
        Seq::empty()
    } else if marks.last() {
        marked_positions(marks.drop_last()).push((marks.len() - 1) as usize)
    } else {
        marked_positions(marks.drop_last())
    }
}

/// What a [`FlushRun`] holds, as mathematics.
pub struct FlushRunView<E> {
    /// Where the run stands.
    pub stage: FlushStage,
    /// The positions, in the snapshot, of the memcaches that this run marked.
    pub retained: Seq<usize>,
    /// The error that made the run take its marks back.
    pub failure: Option<E>,
}

impl<E> FlushRunView<E> {
    /// A run that has not begun.
    pub open spec fn fresh() -> FlushRunView<E> {
        FlushRunView { stage: FlushStage::Created, retained: Seq::empty(), failure: None }
    }

    /// The run at another stage.
    pub open spec fn at(self, stage: FlushStage) -> FlushRunView<E> {
        FlushRunView { stage, ..self }
    }

    /// The run on its way back after `error`.
    pub open spec fn failing(self, error: E) -> FlushRunView<E> {
        FlushRunView { stage: FlushStage::Erasing, failure: Some(error), ..self }
    }

    /// Whether the stage fits what the run holds: a memcache or reply that is
    /// being dealt with is one of the retained, and a run that takes its marks
    /// back knows why.
    pub open spec fn wf(self) -> bool {
        match self.stage {
            FlushStage::Enqueueing => self.retained.len() > 0,
            FlushStage::Flushing(k) => k < self.retained.len(),
            FlushStage::Completing(k) => k < self.retained.len(),
            FlushStage::AwaitingReply(k) => k < self.retained.len(),
            FlushStage::Erasing => self.failure is Some,
            _ => true,
        }
    }
}

/// The run and the action after `event` reached a run in the state `run`.
pub open spec fn flush_step_spec<E>(run: FlushRunView<E>, event: FlushEvent<E>) -> (
    FlushRunView<E>,
    FlushAction<E>,
) {
    match (run.stage, event) {
        (FlushStage::Created, FlushEvent::Begin) => (
            run.at(FlushStage::Index),
            FlushAction::FlushIndex,
        ),
        (FlushStage::Index, FlushEvent::IndexFlushed(Ok(_))) => (
            run.at(FlushStage::Marking),
            FlushAction::MarkMemcaches,
        ),
        (FlushStage::Index, FlushEvent::IndexFlushed(Err(error))) => (
            run.at(FlushStage::Done),
            FlushAction::Return(Err(error)),
        ),
        (FlushStage::Marking, FlushEvent::Marked(marks)) => {
            let retained = marked_positions(marks@);
            if retained.len() == 0 {
                (
                    FlushRunView { stage: FlushStage::Done, retained, failure: run.failure },
                    FlushAction::Return(Ok(())),
                )
            } else {
                (
                    FlushRunView { stage: FlushStage::Enqueueing, retained, failure: run.failure },
                    FlushAction::Enqueue,
                )
            }
        },
        (FlushStage::Enqueueing, FlushEvent::Enqueued) => if run.retained.len() > 0 {
            (run.at(FlushStage::Flushing(0)), FlushAction::FlushMemtable(run.retained[0]))
        } else {
            (run, FlushAction::Nothing)
        },
        (FlushStage::Flushing(k), FlushEvent::MemtableFlushed(Ok(_))) => if k
            < run.retained.len() {
            (run.at(FlushStage::Completing(k)), FlushAction::Complete(run.retained[k as int]))
        } else {
            (run, FlushAction::Nothing)
        },
        (FlushStage::Flushing(k), FlushEvent::MemtableFlushed(Err(error))) => (
            run.failing(error),
            FlushAction::EraseFlushing,
        ),
        (FlushStage::Completing(k), FlushEvent::Completed) => if k + 1 < run.retained.len() {
            (
                run.at(FlushStage::Flushing((k + 1) as usize)),
                FlushAction::FlushMemtable(run.retained[k + 1]),
            )
        } else {
            (run.at(FlushStage::AwaitingReply(0)), FlushAction::AwaitReply(0))
        },
        (FlushStage::AwaitingReply(k), FlushEvent::Replied(SummaryReply::Failed(error))) => (
            run.failing(error),
            FlushAction::EraseFlushing,
        ),
        (FlushStage::AwaitingReply(k), FlushEvent::Replied(_)) => if k + 1 < run.retained.len() {
            (
                run.at(FlushStage::AwaitingReply((k + 1) as usize)),
                FlushAction::AwaitReply((k + 1) as usize),
            )
        } else {
            (run.at(FlushStage::Clearing), FlushAction::ClearTombstones)
        },
        (FlushStage::Erasing, FlushEvent::Erased) => match run.failure {
            Some(error) => (
                FlushRunView { stage: FlushStage::Done, retained: run.retained, failure: None },
                FlushAction::Return(Err(error)),
            ),
            None => (run, FlushAction::Nothing),
        },
        (FlushStage::Clearing, FlushEvent::TombstonesCleared) => (
            run.at(FlushStage::Reporting),
            FlushAction::ReportMetrics,
        ),
        (FlushStage::Reporting, FlushEvent::Reported) => (
            run.at(FlushStage::Done),
            FlushAction::Return(Ok(())),
        ),
        _ => (run, FlushAction::Nothing),
    }
}

/// The positions at which `marks` holds `true`, in ascending order.
pub fn retain_marked(marks: &Vec<bool>) -> (retained: Vec<usize>)
    ensures
        retained@ == marked_positions(marks@),
{
    let mut retained: Vec<usize> = Vec::new();
    let mut i: usize = 0;
    while i < marks.len()
        invariant
            i <= marks@.len(),
            retained@ == marked_positions(marks@.take(i as int)),
        decreases marks@.len() - i,
    {
        proof {
            let prefix = marks@.take(i as int + 1);
            assert(prefix.drop_last() =~= marks@.take(i as int));
            assert(prefix.last() == marks@[i as int]);
        }
        if marks[i] {
            retained.push(i);
        }
        i += 1;
    }
    assert(marks@.take(i as int) =~= marks@);
    retained
}

/// One run of a flush request.
pub struct FlushRun<E> {
    stage: FlushStage,
    retained: Vec<usize>,
    failure: Option<E>,
}

impl<E> View for FlushRun<E> {
    type V = FlushRunView<E>;

    closed spec fn view(&self) -> FlushRunView<E> {
        FlushRunView { stage: self.stage, retained: self.retained@, failure: self.failure }
    }
}

impl<E> FlushRun<E> {
    /// A run that has not begun.
    pub fn new() -> (run: Self)
        ensures
            run@ == FlushRunView::<E>::fresh(),
    {
        FlushRun { stage: FlushStage::Created, retained: Vec::new(), failure: None }
    }

    /// Where the run stands.
    pub fn stage(&self) -> (stage: FlushStage)
        ensures
            stage == self@.stage,
    {
        self.stage
    }

    /// The positions, in the snapshot, of the memcaches that this run marked
    /// as flushing, in the order of the snapshot.
    pub fn retained(&self) -> (retained: &Vec<usize>)
        ensures
            retained@ == self@.retained,
    {
        &self.retained
    }

    /// Takes in what happened and says what is to be done next.
    pub fn step(&mut self, event: FlushEvent<E>) -> (action: FlushAction<E>)
        ensures
            (final(self)@, action) == flush_step_spec(old(self)@, event),
    {
        match (self.stage, event) {
            (FlushStage::Created, FlushEvent::Begin) => {
                self.stage = FlushStage::Index;
                FlushAction::FlushIndex
            },
            (FlushStage::Index, FlushEvent::IndexFlushed(Ok(_))) => {
                self.stage = FlushStage::Marking;
                FlushAction::MarkMemcaches
            },
            (FlushStage::Index, FlushEvent::IndexFlushed(Err(error))) => {
                self.stage = FlushStage::Done;
                FlushAction::Return(Err(error))
            },
            (FlushStage::Marking, FlushEvent::Marked(marks)) => {
                self.retained = retain_marked(&marks);
                if self.retained.len() == 0 {
                    self.stage = FlushStage::Done;
                    FlushAction::Return(Ok(()))
                } else {
                    self.stage = FlushStage::Enqueueing;
                    FlushAction::Enqueue
                }
            },
            (FlushStage::Enqueueing, FlushEvent::Enqueued) => {
                if self.retained.len() > 0 {
                    self.stage = FlushStage::Flushing(0);
                    FlushAction::FlushMemtable(self.retained[0])
                } else {
                    FlushAction::Nothing
                }
            },
            (FlushStage::Flushing(k), FlushEvent::MemtableFlushed(Ok(_))) => {
                if k < self.retained.len() {
                    self.stage = FlushStage::Completing(k);
                    FlushAction::Complete(self.retained[k])
                } else {
                    FlushAction::Nothing
                }
            },
            (FlushStage::Flushing(_), FlushEvent::MemtableFlushed(Err(error))) => {
                self.stage = FlushStage::Erasing;
                self.failure = Some(error);
                FlushAction::EraseFlushing
            },
            (FlushStage::Completing(k), FlushEvent::Completed) => {
                let marked = self.retained.len();
                if marked > 0 && k < marked - 1 {
                    self.stage = FlushStage::Flushing(k + 1);
                    FlushAction::FlushMemtable(self.retained[k + 1])
                } else {
                    self.stage = FlushStage::AwaitingReply(0);
                    FlushAction::AwaitReply(0)
                }
            },
            (FlushStage::AwaitingReply(_), FlushEvent::Replied(SummaryReply::Failed(error))) => {
                self.stage = FlushStage::Erasing;
                self.failure = Some(error);
                FlushAction::EraseFlushing
            },
            (FlushStage::AwaitingReply(k), FlushEvent::Replied(_)) => {
                let marked = self.retained.len();
                if marked > 0 && k < marked - 1 {
                    self.stage = FlushStage::AwaitingReply(k + 1);
                    FlushAction::AwaitReply(k + 1)
                } else {
                    self.stage = FlushStage::Clearing;
                    FlushAction::ClearTombstones
                }
            },
            (FlushStage::Erasing, FlushEvent::Erased) => {
                match self.failure.take() {
                    Some(error) => {
                        self.stage = FlushStage::Done;
                        FlushAction::Return(Err(error))
                    },
                    None => FlushAction::Nothing,
                }
            },
            (FlushStage::Clearing, FlushEvent::TombstonesCleared) => {
                self.stage = FlushStage::Reporting;
                FlushAction::ReportMetrics
            },
            (FlushStage::Reporting, FlushEvent::Reported) => {
                self.stage = FlushStage::Done;
                FlushAction::Return(Ok(()))
            },
            _ => FlushAction::Nothing,
        }
    }
}

/// The marked positions are exactly the positions at which the mark was set,
/// each once, in ascending order.
pub proof fn lemma_marked_positions(marks: Seq<bool>)
    requires
        marks.len() <= usize::MAX,
    ensures
        forall|k: int|
            0 <= k < marked_positions(marks).len() ==> (#[trigger] marked_positions(marks)[k])
                < marks.len() && marks[marked_positions(marks)[k] as int],
        forall|j: int, k: int|
            0 <= j < k < marked_positions(marks).len() ==> marked_positions(marks)[j]
                < marked_positions(marks)[k],
        forall|i: int|
            0 <= i < marks.len() && #[trigger] marks[i] ==> exists|k: int|
                0 <= k < marked_positions(marks).len() && #[trigger] marked_positions(marks)[k] == i,
    decreases marks.len(),
{
    if marks.len() > 0 {
        let earlier = marks.drop_last();
        let before = marked_positions(earlier);
        let all = marked_positions(marks);
        lemma_marked_positions(earlier);
        assert forall|i: int| 0 <= i < marks.len() && #[trigger] marks[i] implies exists|k: int|
            0 <= k < all.len() && #[trigger] all[k] == i by {
            if i < earlier.len() {
                assert(earlier[i]);
                let k = choose|k: int| 0 <= k < before.len() && #[trigger] before[k] == i;
                assert(all[k] == i);
            } else {
                assert(all[all.len() - 1] == i);
            }
        }
        assert forall|k: int| 0 <= k < all.len() implies (#[trigger] all[k]) < marks.len()
            && marks[all[k] as int] by {
            if k < before.len() {
                assert(all[k] == before[k]);
                assert(earlier[before[k] as int]);
            }
        }
        assert forall|j: int, k: int| 0 <= j < k < all.len() implies all[j] < all[k] by {
            assert(all[j] == before[j]);
            if k < before.len() {
                assert(all[k] == before[k]);
            }
        }
    }
}

/// The state of a fresh run after `events` reached it one by one, and the
/// actions that it asked for, one for each event.
pub open spec fn run_trace<E>(events: Seq<FlushEvent<E>>) -> (FlushRunView<E>, Seq<FlushAction<E>>)
    decreases events.len(),
{
    if events.len() == 0 {
        (FlushRunView::fresh(), Seq::empty())
    } else {
        let (run, actions) = run_trace(events.drop_last());
        let (next, action) = flush_step_spec(run, events.last());
        (next, actions.push(action))
    }
}

/// How often memcaches were asked to mark themselves.
pub open spec fn markings<E>(actions: Seq<FlushAction<E>>) -> nat
    decreases actions.len(),
{
    if actions.len() == 0 {
        0
    } else if actions.last() is MarkMemcaches {
        markings(actions.drop_last()) + 1
    } else {
        markings(actions.drop_last())
    }
}

/// How often the marks were taken back.
pub open spec fn erasures<E>(actions: Seq<FlushAction<E>>) -> nat
    decreases actions.len(),
{
    if actions.len() == 0 {
        0
    } else if actions.last() is EraseFlushing {
        erasures(actions.drop_last()) + 1
    } else {
        erasures(actions.drop_last())
    }
}

/// The result that the run returned with, if it has returned.
pub open spec fn result_of<E>(actions: Seq<FlushAction<E>>) -> Option<Result<(), E>>
    decreases actions.len(),
{
    if actions.len() == 0 {
        None
    } else {
        match actions.last() {
            FlushAction::Return(result) => Some(result),
            _ => result_of(actions.drop_last()),
        }
    }
}

/// What holds of a run and the actions it has asked for so far.
spec fn trace_inv<E>(run: FlushRunView<E>, actions: Seq<FlushAction<E>>) -> bool {
    &&& run.wf()
    &&& forall|i: int, j: int|
        0 <= i < j < actions.len() && #[trigger] actions[i] is Return ==> #[trigger] actions[j] is Nothing
    &&& match run.stage {
        FlushStage::Created | FlushStage::Index => {
            &&& markings(actions) == 0
            &&& erasures(actions) == 0
            &&& result_of(actions) is None
        },
        FlushStage::Erasing => {
            &&& markings(actions) == 1
            &&& erasures(actions) == 1
            &&& result_of(actions) is None
        },
        FlushStage::Done => {
            &&& markings(actions) <= 1
            &&& match result_of(actions) {
                Some(Ok(_)) => erasures(actions) == 0,
                Some(Err(_)) => erasures(actions) == markings(actions),
                None => false,
            }
        },
        _ => {
            &&& markings(actions) == 1
            &&& erasures(actions) == 0
            &&& result_of(actions) is None
        },
    }
    &&& result_of(actions) is None ==> forall|i: int|
        0 <= i < actions.len() ==> !(#[trigger] actions[i] is Return)
}

proof fn lemma_trace_inv<E>(events: Seq<FlushEvent<E>>)
    ensures
        trace_inv(run_trace(events).0, run_trace(events).1),
        run_trace(events).1.len() == events.len(),
    decreases events.len(),
{
    if events.len() > 0 {
        lemma_trace_inv(events.drop_last());
        let (run, before) = run_trace(events.drop_last());
        let (next, action) = flush_step_spec(run, events.last());
        let actions = before.push(action);
        assert(actions.drop_last() =~= before);
        assert(actions.last() == action);
        assert forall|i: int, j: int|
            0 <= i < j < actions.len() && #[trigger] actions[i] is Return implies #[trigger] actions[j] is Nothing by {
            assert(actions[i] == before[i]);
            if j < before.len() {
                assert(actions[j] == before[j]);
            }
        }
        if result_of(actions) is None {
            assert forall|i: int| 0 <= i < actions.len() implies !(#[trigger] actions[i] is Return) by {
                if i < before.len() {
                    assert(actions[i] == before[i]);
                }
            }
        }
    }
}

/// The marks are taken back exactly once when a flush fails, and never
/// otherwise.
///
/// Whatever events reach a fresh run, in whatever order: it asks at most once
/// for the memcaches to be marked and returns at most once. If it returns an
/// error after it had the memcaches marked, it has asked exactly once for the
/// marks to be taken back; if it returns an error before (the index could not
/// be flushed) or returns success, it has never asked for that.
pub proof fn lemma_marks_are_taken_back_once<E>(events: Seq<FlushEvent<E>>)
    ensures
        ({
            let (run, actions) = run_trace(events);
            &&& run.wf()
            &&& actions.len() == events.len()
            &&& markings(actions) <= 1
            &&& erasures(actions) <= markings(actions)
            &&& run.stage is Done <==> result_of(actions) is Some
            &&& result_of(actions) matches Some(Err(_)) ==> erasures(actions) == markings(actions)
            &&& result_of(actions) matches Some(Ok(_)) ==> erasures(actions) == 0
        }),
{
    lemma_trace_inv(events);
}

/// Nothing follows the return: once a run has asked to return, it asks for
/// nothing more, so the marks were taken back before.
pub proof fn lemma_return_is_last<E>(events: Seq<FlushEvent<E>>, i: int, j: int)
    requires
        0 <= i < j < events.len(),
        run_trace(events).1[i] is Return,
    ensures
        run_trace(events).1[j] is Nothing,
{
    lemma_trace_inv(events);
}

/// The memcaches whose marks are taken back are those that the run marked:
/// once the answers to the marking are in, no step changes what the run
/// retains.
pub proof fn lemma_retained_is_settled<E>(run: FlushRunView<E>, event: FlushEvent<E>)
    requires
        run.stage != FlushStage::Marking,
    ensures
        flush_step_spec(run, event).0.retained == run.retained,
{
}

} // verus!
