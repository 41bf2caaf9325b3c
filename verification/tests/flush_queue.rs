use tskv_jobs::flush_queue::{FlushEntry, FlushQueue, FlushReq};
use tskv_jobs::task::CompactTask;

fn request(tf_id: u32, trigger_compact: bool) -> FlushReq {
    FlushReq {
        tf_id,
        completion: false,
        trigger_compact,
    }
}

fn seqs(released: &[(u64, FlushEntry<&'static str, u32>)]) -> Vec<u64> {
    released.iter().map(|(flush_seq, _)| *flush_seq).collect()
}

#[test]
fn flush_fifo() {
    let mut queue: FlushQueue<&'static str, u32> = FlushQueue::new();
    queue.insert(10, request(1, false), "ten");
    queue.insert(20, request(1, false), "twenty");

    assert!(queue.complete(20, 200));
    assert!(queue.drain_ready().is_empty());
    assert_eq!(queue.len(), 2);

    assert!(queue.complete(10, 100));
    let released = queue.drain_ready();
    assert_eq!(seqs(&released), vec![10, 20]);
    assert_eq!(released[0].1.task, "ten");
    assert_eq!(released[0].1.output, Some(100));
    assert!(released[0].1.request.completion);
    assert_eq!(released[1].1.task, "twenty");
    assert_eq!(released[1].1.output, Some(200));
    assert!(released[1].1.request.completion);
    assert_eq!(queue.len(), 0);
}

#[test]
fn new_queue_is_empty() {
    let mut queue: FlushQueue<&'static str, u32> = FlushQueue::new();
    assert_eq!(queue.len(), 0);
    assert!(!queue.contains(1));
    assert!(queue.drain_ready().is_empty());
    assert!(!queue.complete(1, 1));
    assert_eq!(queue.len(), 0);
}

#[test]
fn inserted_entry_is_not_complete() {
    let mut queue: FlushQueue<&'static str, u32> = FlushQueue::new();
    let mut done = request(3, true);
    done.completion = true;
    queue.insert(5, request(3, true), "five");
    assert!(queue.contains(5));
    assert!(queue.drain_ready().is_empty());
    queue.insert(4, done, "four");
    let released = queue.drain_ready();
    assert_eq!(seqs(&released), vec![4]);
    assert_eq!(released[0].1.output, None);
    assert!(queue.contains(5));
    assert!(!queue.contains(4));
}

#[test]
fn drain_releases_the_complete_prefix_only() {
    let mut queue: FlushQueue<&'static str, u32> = FlushQueue::new();
    for flush_seq in [40, 10, 30, 20, 50] {
        queue.insert(flush_seq, request(2, false), "task");
    }
    assert!(queue.complete(10, 1));
    assert!(queue.complete(20, 2));
    assert!(queue.complete(40, 4));
    assert!(queue.complete(50, 5));
    let released = queue.drain_ready();
    assert_eq!(seqs(&released), vec![10, 20]);
    assert_eq!(queue.len(), 3);
    assert!(queue.contains(30) && queue.contains(40) && queue.contains(50));

    assert!(queue.drain_ready().is_empty());
    assert!(queue.complete(30, 3));
    let released = queue.drain_ready();
    assert_eq!(seqs(&released), vec![30, 40, 50]);
    assert_eq!(
        released.iter().map(|r| r.1.output).collect::<Vec<_>>(),
        vec![Some(3), Some(4), Some(5)]
    );
    assert_eq!(queue.len(), 0);
}

#[test]
fn complete_of_an_unknown_entry_changes_nothing() {
    let mut queue: FlushQueue<&'static str, u32> = FlushQueue::new();
    queue.insert(7, request(1, false), "seven");
    assert!(!queue.complete(8, 80));
    assert_eq!(queue.len(), 1);
    assert!(queue.drain_ready().is_empty());
}

#[test]
fn complete_keeps_request_and_task() {
    let mut queue: FlushQueue<&'static str, u32> = FlushQueue::new();
    queue.insert(7, request(11, true), "seven");
    assert!(queue.complete(7, 70));
    let released = queue.drain_ready();
    assert_eq!(released.len(), 1);
    let (flush_seq, entry) = &released[0];
    assert_eq!(*flush_seq, 7);
    assert_eq!(
        entry.request,
        FlushReq {
            tf_id: 11,
            completion: true,
            trigger_compact: true
        }
    );
    assert_eq!(entry.task, "seven");
    assert_eq!(entry.output, Some(70));
}

#[test]
fn insert_replaces_an_entry_with_the_same_number() {
    let mut queue: FlushQueue<&'static str, u32> = FlushQueue::new();
    queue.insert(7, request(1, false), "old");
    assert!(queue.complete(7, 70));
    queue.insert(7, request(2, false), "new");
    assert_eq!(queue.len(), 1);
    assert!(queue.drain_ready().is_empty());
    assert!(queue.complete(7, 71));
    let released = queue.drain_ready();
    assert_eq!(released[0].1.task, "new");
    assert_eq!(released[0].1.request.tf_id, 2);
    assert_eq!(released[0].1.output, Some(71));
}

#[test]
fn follow_up_is_a_delta_compaction_of_the_flushed_vnode() {
    let wanted: FlushEntry<(), ()> = FlushEntry {
        request: request(42, true),
        task: (),
        output: None,
    };
    assert_eq!(wanted.follow_up(), Some(CompactTask::Delta(42)));
    let unwanted: FlushEntry<(), ()> = FlushEntry {
        request: request(42, false),
        task: (),
        output: None,
    };
    assert_eq!(unwanted.follow_up(), None);
}

#[test]
fn extreme_sequence_numbers_keep_their_order() {
    let mut queue: FlushQueue<&'static str, u32> = FlushQueue::new();
    queue.insert(u64::MAX, request(1, false), "last");
    queue.insert(0, request(1, false), "first");
    assert!(queue.complete(u64::MAX, 2));
    assert!(queue.drain_ready().is_empty());
    assert!(queue.complete(0, 1));
    assert_eq!(seqs(&queue.drain_ready()), vec![0, u64::MAX]);
}
