//! The queue that puts finished flushes back into the order in which their
//! memcaches were sealed, before their results reach the summary writer.

use crate::task::{CompactTask, VnodeId};
use std::collections::BTreeMap;
use vstd::prelude::*;

verus! {

/// The part of a flush request that the ordering of summaries depends on.
#[derive(Debug, Clone, Copy, PartialEq, Eq, Structural)]
pub struct FlushReq {
    /// The vnode whose memcaches are flushed.
    pub tf_id: VnodeId,
    /// Whether the flush work for the memcache of this entry is finished.
    pub completion: bool,
    /// Whether a delta compaction of the vnode is to follow the flush.
    pub trigger_compact: bool,
}

/// One memcache under flush: the request it belongs to, the summary task that
/// will report it, and what the flush produced once it has finished.
pub struct FlushEntry<T, O> {
    /// The request, with its completion mark.
    pub request: FlushReq,
    /// The summary task prepared for this memcache.
    pub task: T,
    /// The version edit and the files that the flush produced.
    pub output: Option<O>,
}

impl<T, O> FlushEntry<T, O> {
    /// This entry once its flush has finished with `output`.
    pub open spec fn completed(self, output: O) -> FlushEntry<T, O> {
        FlushEntry {
            request: FlushReq { completion: true, ..self.request },
            task: self.task,
            output: Some(output),
        }
    }

    /// The compaction that is to follow this flush, if one was asked for.
    pub open spec fn spec_follow_up(&self) -> Option<CompactTask> {
        if self.request.trigger_compact {
            Some(CompactTask::Delta(self.request.tf_id))
        } else {
            None
        }
    }

    /// The delta compaction of the flushed vnode that is to be requested when
    /// this entry is released, if the request asked for one.
    #[verifier::when_used_as_spec(spec_follow_up)]
    pub fn follow_up(&self) -> (task: Option<CompactTask>)
        ensures
            task == self.spec_follow_up(),
    {
        if self.request.trigger_compact {
            Some(CompactTask::Delta(self.request.tf_id))
        } else {
            None
        }
    }
}

/// Whether the entry of `flush_seq` may be released: it has finished, and so
/// has every entry with a smaller sequence number.
pub open spec fn is_ready<T, O>(queue: Map<u64, FlushEntry<T, O>>, flush_seq: u64) -> bool {
    &&& queue.contains_key(flush_seq)
    &&& forall|earlier: u64|
        queue.contains_key(earlier) && earlier <= flush_seq ==> (
        #[trigger] queue[earlier]).request.completion
}

/// The sequence numbers that may be released from `queue`.
pub open spec fn ready_keys<T, O>(queue: Map<u64, FlushEntry<T, O>>) -> Set<u64> {
    Set::new(|flush_seq: u64| is_ready(queue, flush_seq))
}

/// Whether a drain of `before` releases `released` and leaves `after`:
/// exactly the ready entries leave, as they were, in ascending order of their
/// sequence numbers.
pub open spec fn is_drain<T, O>(
    before: Map<u64, FlushEntry<T, O>>,
    released: Seq<(u64, FlushEntry<T, O>)>,
    after: Map<u64, FlushEntry<T, O>>,
) -> bool {
    &&& after == before.remove_keys(ready_keys(before))
    &&& forall|i: int|
        0 <= i < released.len() ==> is_ready(before, (#[trigger] released[i]).0) && released[i].1
            == before[released[i].0]
    &&& forall|i: int, j: int|
        0 <= i < j < released.len() ==> (#[trigger] released[i]).0 < (#[trigger] released[j]).0
    &&& forall|flush_seq: u64|
        is_ready(before, flush_seq) ==> exists|i: int|
            0 <= i < released.len() && (#[trigger] released[i]).0 == flush_seq
}

/// Calls `BTreeMap::pop_first`, which removes and returns the entry with the
/// smallest key, or returns `None` and leaves the map alone if it is empty.
#[verifier::external_body]
fn pop_first_entry<V>(entries: &mut BTreeMap<u64, V>) -> (first: Option<(u64, V)>)
    ensures
        match first {
            None => old(entries)@.dom() == Set::<u64>::empty() && final(entries)@ == old(entries)@,
            Some((key, value)) => {
                &&& old(entries)@.contains_key(key)
                &&& old(entries)@[key] == value
                &&& forall|other: u64| old(entries)@.contains_key(other) ==> key <= other
                &&& final(entries)@ == old(entries)@.remove(key)
            },
        },
{
    entries.pop_first()
}

/// The entries of the memcaches under flush, by the sequence number at which
/// each memcache was sealed.
pub struct FlushQueue<T, O> {
    entries: BTreeMap<u64, FlushEntry<T, O>>,
}

impl<T, O> View for FlushQueue<T, O> {
    type V = Map<u64, FlushEntry<T, O>>;

    closed spec fn view(&self) -> Map<u64, FlushEntry<T, O>> {
        self.entries@
    }
}

impl<T, O> FlushQueue<T, O> {
    /// An empty queue.
    pub fn new() -> (queue: Self)
        ensures
            queue@ == Map::<u64, FlushEntry<T, O>>::empty(),
    {
        FlushQueue { entries: BTreeMap::new() }
    }

    /// How many entries wait in the queue.
    pub fn len(&self) -> (n: usize)
        ensures
            n == self@.len(),
            self@.dom().finite(),
    {
        self.entries.len()
    }

    /// Whether an entry waits under `flush_seq`.
    pub fn contains(&self, flush_seq: u64) -> (found: bool)
        ensures
            found == self@.contains_key(flush_seq),
    {
        self.entries.contains_key(&flush_seq)
    }

    /// Enters the memcache sealed at `flush_seq`, not yet finished, with the
    /// summary task prepared for it. An entry that waited under the same
    /// number is replaced.
    pub fn insert(&mut self, flush_seq: u64, request: FlushReq, task: T)
        ensures
            final(self)@ == old(self)@.insert(
                flush_seq,
                FlushEntry { request, task, output: None },
            ),
    {
        self.entries.insert(flush_seq, FlushEntry { request, task, output: None });
    }

    /// Records that the flush of the memcache sealed at `flush_seq` has
    /// finished with `output`, and tells whether such an entry was waiting:
    /// if so, the summary writer is to be woken once.
    pub fn complete(&mut self, flush_seq: u64, output: O) -> (found: bool)
        ensures
            found == old(self)@.contains_key(flush_seq),
            found ==> final(self)@ == old(self)@.insert(
                flush_seq,
                old(self)@[flush_seq].completed(output),
            ),
            !found ==> final(self)@ == old(self)@,
    {
        match self.entries.remove(&flush_seq) {
            Some(entry) => {
                let FlushEntry { request, task, output: _ } = entry;
                self.entries.insert(
                    flush_seq,
                    FlushEntry {
                        request: FlushReq {
                            tf_id: request.tf_id,
                            completion: true,
                            trigger_compact: request.trigger_compact,
                        },
                        task,
                        output: Some(output),
                    },
                );
                assert(self@ =~= old(self)@.insert(flush_seq, old(self)@[flush_seq].completed(output)));
                true
            },
            None => {
                assert(self@ =~= old(self)@);
                false
            },
        }
    }

    /// Releases what is ready for the summary writer: the entries are taken
    /// out smallest sequence number first, up to the first one whose flush has
    /// not finished. That entry stays, and so does everything behind it,
    /// finished or not.
    pub fn drain_ready(&mut self) -> (released: Vec<(u64, FlushEntry<T, O>)>)
        ensures
            is_drain(old(self)@, released@, final(self)@),
            forall|i: int, flush_seq: u64|
                0 <= i < released@.len() && #[trigger] final(self)@.contains_key(flush_seq) ==> (
                #[trigger] released@[i]).0 < flush_seq,
    {
        let mut released: Vec<(u64, FlushEntry<T, O>)> = Vec::new();
        let mut blocked = false;
        while !blocked
            invariant
                self@.dom().finite(),
                forall|i: int|
                    0 <= i < released@.len() ==> {
                        &&& old(self)@.contains_key((#[trigger] released@[i]).0)
                        &&& released@[i].1 == old(self)@[released@[i].0]
                        &&& released@[i].1.request.completion
                        &&& !self@.contains_key(released@[i].0)
                    },
                forall|i: int, j: int|
                    0 <= i < j < released@.len() ==> (#[trigger] released@[i]).0 < (
                    #[trigger] released@[j]).0,
                forall|i: int, flush_seq: u64|
                    0 <= i < released@.len() && #[trigger] self@.contains_key(flush_seq) ==> (
                    #[trigger] released@[i]).0 < flush_seq,
                forall|flush_seq: u64| #[trigger]
                    self@.contains_key(flush_seq) ==> old(self)@.contains_key(flush_seq) && self@[flush_seq]
                        == old(self)@[flush_seq],
                forall|flush_seq: u64| #[trigger]
                    old(self)@.contains_key(flush_seq) ==> self@.contains_key(flush_seq) || exists|
                        i: int,
                    |
                        0 <= i < released@.len() && (#[trigger] released@[i]).0 == flush_seq,
                blocked ==> forall|flush_seq: u64| #[trigger]
                    self@.contains_key(flush_seq) ==> !is_ready(old(self)@, flush_seq),
            decreases
                    (if blocked {
                        0
                    } else {
                        self@.dom().len() + 1
                    }),
        {
            let ghost before = self@;
            let ghost sent = released@;
            match pop_first_entry(&mut self.entries) {
                None => {
                    blocked = true;
                    assert(self@ == before);
                },
                Some((flush_seq, entry)) => {
                    assert(before.contains_key(flush_seq));
                    assert(self@ == before.remove(flush_seq));
                    if !entry.request.completion {
                        self.entries.insert(flush_seq, entry);
                        blocked = true;
                        assert(self@ =~= before);
                        assert forall|later: u64| self@.contains_key(later) implies !is_ready(
                            old(self)@,
                            later,
                        ) by {
                            assert(flush_seq <= later);
                            assert(!old(self)@[flush_seq].request.completion);
                        }
                    } else {
                        released.push((flush_seq, entry));
                        assert forall|other: u64| self@.contains_key(other) implies old(
                            self,
                        )@.contains_key(other) && self@[other] == old(self)@[other] by {
                            assert(before.contains_key(other));
                        }
                        assert forall|i: int|
                            0 <= i < released@.len() implies old(self)@.contains_key(
                            (#[trigger] released@[i]).0,
                        ) && released@[i].1 == old(self)@[released@[i].0]
                            && released@[i].1.request.completion && !self@.contains_key(
                            released@[i].0,
                        ) by {
                            if i < sent.len() {
                                assert(released@[i] == sent[i]);
                            }
                        }
                        assert forall|i: int, j: int| 0 <= i < j < released@.len() implies (
                        #[trigger] released@[i]).0 < (#[trigger] released@[j]).0 by {
                            assert(released@[i] == sent[i]);
                            if j < sent.len() {
                                assert(released@[j] == sent[j]);
                            }
                        }
                        assert forall|i: int, later: u64|
                            0 <= i < released@.len() && #[trigger] self@.contains_key(later) implies (
                        #[trigger] released@[i]).0 < later by {
                            if i < sent.len() {
                                assert(released@[i] == sent[i]);
                            }
                        }
                        assert forall|other: u64|
                            old(self)@.contains_key(other) implies self@.contains_key(other)
                            || exists|i: int|
                            0 <= i < released@.len() && (#[trigger] released@[i]).0 == other by {
                            if other == flush_seq {
                                assert(released@[released@.len() - 1].0 == other);
                            } else if !before.contains_key(other) {
                                let i = choose|i: int|
                                    0 <= i < sent.len() && (#[trigger] sent[i]).0 == other;
                                assert(released@[i] == sent[i]);
                            }
                        }
                    }
                },
            }
        }
        proof {
            let ready = ready_keys(old(self)@);
            assert forall|i: int| 0 <= i < released@.len() implies is_ready(
                old(self)@,
                (#[trigger] released@[i]).0,
            ) by {
                let k = released@[i].0;
                assert forall|earlier: u64|
                    old(self)@.contains_key(earlier) && earlier <= k implies (
                #[trigger] old(self)@[earlier]).request.completion by {
                    if self@.contains_key(earlier) {
                        assert(released@[i].0 < earlier);
                    } else {
                        let j = choose|j: int|
                            0 <= j < released@.len() && (#[trigger] released@[j]).0 == earlier;
                        assert(released@[j].1.request.completion);
                    }
                }
            }
            assert(self@ =~= old(self)@.remove_keys(ready));
        }
        released
    }
}

/// The queue together with the sequence numbers that have left it for the
/// summary writer so far, in the order in which they left.
pub struct SummaryLine<T, O> {
    /// The entries that wait.
    pub queue: Map<u64, FlushEntry<T, O>>,
    /// The sequence numbers released so far.
    pub sent: Seq<u64>,
}

/// What can be done to a flush queue.
pub enum QueueOp<T, O> {
    /// A memcache is entered, see [`FlushQueue::insert`].
    Insert(u64, FlushReq, T),
    /// A flush has finished, see [`FlushQueue::complete`].
    Complete(u64, O),
    /// The summary writer releases what is ready, see
    /// [`FlushQueue::drain_ready`].
    Drain,
}

/// The sequence numbers of released entries.
pub open spec fn released_keys<T, O>(released: Seq<(u64, FlushEntry<T, O>)>) -> Seq<u64> {
    Seq::new(released.len(), |i: int| released[i].0)
}

/// Whether `op` leads from `before` to `after`.
pub open spec fn line_step<T, O>(
    before: SummaryLine<T, O>,
    op: QueueOp<T, O>,
    after: SummaryLine<T, O>,
) -> bool {
    match op {
        QueueOp::Insert(flush_seq, request, task) => {
            &&& after.queue == before.queue.insert(
                flush_seq,
                FlushEntry { request, task, output: None },
            )
            &&& after.sent == before.sent
        },
        QueueOp::Complete(flush_seq, output) => {
            &&& after.queue == if before.queue.contains_key(flush_seq) {
                before.queue.insert(flush_seq, before.queue[flush_seq].completed(output))
            } else {
                before.queue
            }
            &&& after.sent == before.sent
        },
        QueueOp::Drain => exists|released: Seq<(u64, FlushEntry<T, O>)>|
            #![auto]
            is_drain(before.queue, released, after.queue) && after.sent == before.sent
                + released_keys(released),
    }
}

/// Whether `lines` is what a queue goes through under `ops`, one line before
/// each operation and one after the last.
pub open spec fn is_history<T, O>(lines: Seq<SummaryLine<T, O>>, ops: Seq<QueueOp<T, O>>) -> bool {
    &&& lines.len() == ops.len() + 1
    &&& forall|i: int| 0 <= i < ops.len() ==> line_step(lines[i], #[trigger] ops[i], lines[i + 1])
}

/// Whether every memcache is entered under a sequence number greater than all
/// that were released before: memcaches are sealed with growing numbers, and
/// a released one was sealed earlier.
pub open spec fn inserts_follow_sent<T, O>(
    lines: Seq<SummaryLine<T, O>>,
    ops: Seq<QueueOp<T, O>>,
) -> bool {
    forall|i: int, k: int|
        0 <= i < ops.len() && 0 <= k < lines[i].sent.len() ==> (#[trigger] ops[i] matches QueueOp::Insert(
            flush_seq,
            _,
            _,
        ) ==> #[trigger] lines[i].sent[k] < flush_seq)
}

/// Whether `sent` ascends strictly and every waiting entry has a greater
/// sequence number than all of it.
pub open spec fn sent_in_order<T, O>(line: SummaryLine<T, O>) -> bool {
    &&& forall|i: int, j: int| 0 <= i < j < line.sent.len() ==> line.sent[i] < line.sent[j]
    &&& forall|k: int, flush_seq: u64|
        0 <= k < line.sent.len() && #[trigger] line.queue.contains_key(flush_seq) ==> #[trigger] line.sent[k]
            < flush_seq
}

/// A hole blocks what lies behind it: while the entry of `hole` has not
/// finished, a drain releases only smaller sequence numbers, and every entry
/// from `hole` on stays in the queue, finished or not.
pub proof fn lemma_hole_blocks<T, O>(
    before: Map<u64, FlushEntry<T, O>>,
    released: Seq<(u64, FlushEntry<T, O>)>,
    after: Map<u64, FlushEntry<T, O>>,
    hole: u64,
)
    requires
        is_drain(before, released, after),
        before.contains_key(hole),
        !before[hole].request.completion,
    ensures
        forall|i: int| 0 <= i < released.len() ==> (#[trigger] released[i]).0 < hole,
        forall|flush_seq: u64|
            hole <= flush_seq && before.contains_key(flush_seq) ==> #[trigger] after.contains_key(
                flush_seq,
            ) && after[flush_seq] == before[flush_seq],
{
    assert forall|i: int| 0 <= i < released.len() implies (#[trigger] released[i]).0 < hole by {
        assert(is_ready(before, released[i].0));
        if hole <= released[i].0 {
            assert(before[hole].request.completion);
        }
    }
    assert forall|flush_seq: u64| hole <= flush_seq && before.contains_key(flush_seq) implies #[trigger] after.contains_key(
        flush_seq,
    ) && after[flush_seq] == before[flush_seq] by {
        if is_ready(before, flush_seq) {
            assert(before[hole].request.completion);
        }
        assert(!ready_keys(before).contains(flush_seq));
    }
}

/// What a drain leaves behind lies behind everything it released.
pub proof fn lemma_drain_splits<T, O>(
    before: Map<u64, FlushEntry<T, O>>,
    released: Seq<(u64, FlushEntry<T, O>)>,
    after: Map<u64, FlushEntry<T, O>>,
)
    requires
        is_drain(before, released, after),
    ensures
        forall|i: int, flush_seq: u64|
            0 <= i < released.len() && #[trigger] after.contains_key(flush_seq) ==> (
            #[trigger] released[i]).0 < flush_seq,
{
    assert forall|i: int, flush_seq: u64|
        0 <= i < released.len() && #[trigger] after.contains_key(flush_seq) implies (
    #[trigger] released[i]).0 < flush_seq by {
        let r = released[i].0;
        assert(is_ready(before, r));
        assert(before.contains_key(flush_seq));
        assert(!ready_keys(before).contains(flush_seq));
        if flush_seq <= r {
            assert forall|earlier: u64|
                before.contains_key(earlier) && earlier <= flush_seq implies (
            #[trigger] before[earlier]).request.completion by {
                assert(earlier <= r);
            }
            assert(is_ready(before, flush_seq));
        }
    }
}

/// One operation keeps the summaries in order, if it does not enter a
/// memcache under a number that is not greater than all that were released.
proof fn lemma_step_keeps_order<T, O>(
    before: SummaryLine<T, O>,
    op: QueueOp<T, O>,
    after: SummaryLine<T, O>,
)
    requires
        sent_in_order(before),
        line_step(before, op, after),
        op matches QueueOp::Insert(flush_seq, _, _) ==> forall|k: int|
            0 <= k < before.sent.len() ==> #[trigger] before.sent[k] < flush_seq,
    ensures
        sent_in_order(after),
{
    match op {
        QueueOp::Insert(flush_seq, request, task) => {},
        QueueOp::Complete(flush_seq, output) => {},
        QueueOp::Drain => {
            let released = choose|released: Seq<(u64, FlushEntry<T, O>)>|
                #![auto]
                is_drain(before.queue, released, after.queue) && after.sent == before.sent
                    + released_keys(released);
            lemma_drain_splits(before.queue, released, after.queue);
            let keys = released_keys(released);
            assert forall|i: int, j: int| 0 <= i < j < after.sent.len() implies after.sent[i]
                < after.sent[j] by {
                if j >= before.sent.len() {
                    let jj = j - before.sent.len();
                    assert(after.sent[j] == released[jj].0);
                    assert(is_ready(before.queue, released[jj].0));
                    if i >= before.sent.len() {
                        let ii = i - before.sent.len();
                        assert(after.sent[i] == released[ii].0);
                    } else {
                        assert(after.sent[i] == before.sent[i]);
                        assert(before.queue.contains_key(released[jj].0));
                    }
                } else {
                    assert(after.sent[i] == before.sent[i]);
                    assert(after.sent[j] == before.sent[j]);
                }
            }
            assert forall|k: int, flush_seq: u64|
                0 <= k < after.sent.len() && #[trigger] after.queue.contains_key(
                    flush_seq,
                ) implies #[trigger] after.sent[k] < flush_seq by {
                assert(before.queue.contains_key(flush_seq));
                if k >= before.sent.len() {
                    let kk = k - before.sent.len();
                    assert(after.sent[k] == released[kk].0);
                } else {
                    assert(after.sent[k] == before.sent[k]);
                }
            }
        },
    }
}

/// Strict order of summaries: however the flushes finish, the summary writer
/// receives the entries in strictly ascending order of their sequence
/// numbers.
///
/// This holds of every history that starts with nothing sent, in which no
/// memcache is entered under a number that an already released one had or
/// exceeded. Every line of such a history has its sent numbers in strictly
/// ascending order, all of them smaller than what still waits.
pub proof fn lemma_summaries_leave_in_order<T, O>(
    lines: Seq<SummaryLine<T, O>>,
    ops: Seq<QueueOp<T, O>>,
    n: int,
)
    requires
        is_history(lines, ops),
        inserts_follow_sent(lines, ops),
        lines[0].sent.len() == 0,
        0 <= n <= ops.len(),
    ensures
        sent_in_order(lines[n]),
    decreases n,
{
    if n > 0 {
        lemma_summaries_leave_in_order(lines, ops, n - 1);
        let i = n - 1;
        assert(line_step(lines[i], ops[i], lines[i + 1]));
        assert(ops[i] matches QueueOp::Insert(flush_seq, _, _) ==> forall|k: int|
            0 <= k < lines[i].sent.len() ==> #[trigger] lines[i].sent[k] < flush_seq);
        lemma_step_keeps_order(lines[i], ops[i], lines[n]);
    }
}

/// Nothing is released before its flush has finished: whatever a drain in a
/// history adds to the sent numbers was waiting with its completion mark set
/// when the drain began.
pub proof fn lemma_sent_only_when_complete<T, O>(
    lines: Seq<SummaryLine<T, O>>,
    ops: Seq<QueueOp<T, O>>,
    i: int,
    k: int,
)
    requires
        is_history(lines, ops),
        0 <= i < ops.len(),
        lines[i].sent.len() <= k < lines[i + 1].sent.len(),
    ensures
        ops[i] is Drain,
        lines[i].queue.contains_key(lines[i + 1].sent[k]),
        lines[i].queue[lines[i + 1].sent[k]].request.completion,
        !lines[i + 1].queue.contains_key(lines[i + 1].sent[k]),
{
    assert(line_step(lines[i], ops[i], lines[i + 1]));
    let before = lines[i];
    let after = lines[i + 1];
    let released = choose|released: Seq<(u64, FlushEntry<T, O>)>|
        #![auto]
        is_drain(before.queue, released, after.queue) && after.sent == before.sent + released_keys(
            released,
        );
    let kk = k - before.sent.len();
    assert(after.sent[k] == released[kk].0);
    assert(is_ready(before.queue, released[kk].0));
    assert(ready_keys(before.queue).contains(released[kk].0));
}

} // verus!
