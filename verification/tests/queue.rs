use bar_sink::ingest::Batch;
use bar_sink::queue::MemoryQueue;

fn m(text: &str) -> Vec<u8> {
    text.as_bytes().to_vec()
}

#[test]
fn a_new_queue_is_empty() {
    let mut queue = MemoryQueue::new(2, 10);
    assert_eq!(queue.partitions(), 2);
    assert_eq!(queue.published(0), Some(0));
    assert_eq!(queue.consumed(1), Some(0));
    assert_eq!(queue.committed(1), Some(0));
    assert_eq!(queue.published(2), None);
    assert_eq!(queue.consumed(2), None);
    assert_eq!(queue.committed(2), None);
    assert_eq!(queue.poll(), Vec::new());
}

#[test]
fn publish_appends_to_a_partition() {
    let mut queue = MemoryQueue::new(2, 10);
    assert!(queue.publish(1, m("a")));
    assert!(queue.publish(1, m("b")));
    assert!(!queue.publish(2, m("c")));
    assert_eq!(queue.published(0), Some(0));
    assert_eq!(queue.published(1), Some(2));
}

#[test]
fn poll_hands_out_one_batch_for_each_partition_with_messages() {
    let mut queue = MemoryQueue::new(3, 10);
    queue.publish(0, m("a"));
    queue.publish(2, m("b"));
    queue.publish(2, m("c"));
    assert_eq!(
        queue.poll(),
        vec![
            Batch { marker: 0, messages: vec![m("a")] },
            Batch { marker: 2, messages: vec![m("b"), m("c")] },
        ]
    );
}

#[test]
fn poll_hands_out_at_most_the_fetch_size() {
    let mut queue = MemoryQueue::new(1, 2);
    for text in ["a", "b", "c"] {
        queue.publish(0, m(text));
    }
    assert_eq!(queue.poll(), vec![Batch { marker: 0, messages: vec![m("a"), m("b")] }]);
    assert!(queue.acknowledge(0));
    assert_eq!(queue.consumed(0), Some(2));
    assert_eq!(queue.poll(), vec![Batch { marker: 0, messages: vec![m("c")] }]);
    assert!(queue.acknowledge(0));
    assert_eq!(queue.poll(), Vec::new());
}

#[test]
fn what_is_not_acknowledged_is_delivered_again() {
    let mut queue = MemoryQueue::new(1, 10);
    queue.publish(0, m("a"));
    let first = queue.poll();
    assert_eq!(queue.consumed(0), Some(0));
    queue.publish(0, m("b"));
    assert_eq!(queue.poll(), vec![Batch { marker: 0, messages: vec![m("a"), m("b")] }]);
    assert_eq!(first, vec![Batch { marker: 0, messages: vec![m("a")] }]);
}

#[test]
fn acknowledge_marks_what_the_last_poll_delivered() {
    let mut queue = MemoryQueue::new(2, 10);
    queue.publish(0, m("a"));
    queue.publish(1, m("b"));
    assert!(queue.acknowledge(0));
    assert_eq!(queue.consumed(0), Some(0));
    queue.poll();
    queue.publish(0, m("late"));
    assert!(queue.acknowledge(0));
    assert_eq!(queue.consumed(0), Some(1));
    assert_eq!(queue.consumed(1), Some(0));
    assert!(!queue.acknowledge(2));
    assert!(!queue.acknowledge(u64::MAX));
}

#[test]
fn commit_stores_what_is_consumed() {
    let mut queue = MemoryQueue::new(2, 10);
    queue.publish(0, m("a"));
    queue.publish(1, m("b"));
    queue.poll();
    queue.acknowledge(1);
    assert_eq!(queue.committed(1), Some(0));
    queue.commit();
    assert_eq!(queue.committed(0), Some(0));
    assert_eq!(queue.committed(1), Some(1));
}

#[test]
fn restart_goes_back_to_what_is_committed() {
    let mut queue = MemoryQueue::new(1, 1);
    queue.publish(0, m("a"));
    queue.publish(0, m("b"));
    queue.poll();
    queue.acknowledge(0);
    queue.commit();
    queue.poll();
    queue.acknowledge(0);
    assert_eq!(queue.consumed(0), Some(2));
    queue.restart();
    assert_eq!(queue.consumed(0), Some(1));
    assert_eq!(queue.committed(0), Some(1));
    assert_eq!(queue.poll(), vec![Batch { marker: 0, messages: vec![m("b")] }]);
}

#[test]
fn a_queue_that_fetches_nothing_hands_out_empty_batches() {
    let mut queue = MemoryQueue::new(1, 0);
    queue.publish(0, m("a"));
    assert_eq!(queue.poll(), vec![Batch { marker: 0, messages: Vec::new() }]);
    assert!(queue.acknowledge(0));
    assert_eq!(queue.consumed(0), Some(0));
}
