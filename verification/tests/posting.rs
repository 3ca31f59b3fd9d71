use tension_core::session::arena::{CLASS_COUNT, DEFAULT_RING_CAPACITIES};
use tension_core::session::posting::{PostError, PostingSide, EINVAL, ENOSPC};

/// A posting face whose classes all hold 4096 events.
fn wide() -> PostingSide {
    PostingSide::new([4096; CLASS_COUNT])
}

#[test]
fn test_post_assigns_monotonic_seq() {
    let mut posting = wide();
    let first = posting.post(1, 8, 0, 1, 2, 0.0f32.to_bits(), 0.0f32.to_bits()).expect("queued");
    let second = posting.post(1, 8, 0, 3, 4, 0.0f32.to_bits(), 0.0f32.to_bits()).expect("queued");
    assert_eq!((first, second), (1, 2), "sequence numbers start at 1 and ascend");
    assert_eq!(posting.last_seq(), 2);

    assert_eq!(posting.queue(8).expect("class 8").len(), 2);
    let drained = posting.drain_class(8);
    assert_eq!(drained[0].seq, 1);
    assert_eq!(drained[1].seq, 2);
    assert_eq!(drained[0].source_id, 1);
    assert_eq!((drained[1].a, drained[1].b), (3, 4));
}

#[test]
fn test_post_full_queue_returns_err_and_counts_drop() {
    // Class 0's default capacity is 1: the smallest queue in the table.
    let mut posting = PostingSide::default();
    assert!(posting.post(1, 0, 0, 0, 0, 0, 0).is_ok());
    let refused = posting.post(1, 0, 0, 0, 0, 0, 0).expect_err("full");
    assert_eq!(refused, PostError::QueueFull { class: 0 });
    assert_eq!(refused.errno(), ENOSPC);
    assert_eq!(posting.queue(0).expect("class 0").dropped(), 1);
    assert_eq!(posting.queue(0).expect("class 0").len(), 1, "nothing was overwritten");
    // A refused post consumes no sequence number.
    assert_eq!(posting.last_seq(), 1);
}

#[test]
fn test_post_unknown_class_refused() {
    let mut posting = PostingSide::default();
    let refused = posting.post(1, 15, 0, 0, 0, 0, 0).expect_err("no such class");
    assert_eq!(refused, PostError::UnknownClass { class: 15 });
    assert_eq!(refused.errno(), EINVAL);
    assert!(posting.class_capacity(15).is_none());
    assert!(posting.queue(15).is_none());
}

#[test]
fn test_class_capacity_answers() {
    let posting = PostingSide::default();
    for (class, capacity) in DEFAULT_RING_CAPACITIES.iter().enumerate() {
        assert_eq!(posting.class_capacity(class as u32), Some(*capacity), "class {class}");
        assert_eq!(posting.queue(class as u32).expect("exists").capacity(), *capacity);
    }
    // A wide posting face reports its own numbers, not the table's.
    let wide = wide();
    assert_eq!(wide.class_capacity(0), Some(4096));
}

#[test]
fn test_subscription_defaults_and_toggle() {
    let mut posting = PostingSide::default();
    // Everything is on except FRAME, which is off unless subscribed.
    for class in 0..CLASS_COUNT as u32 {
        let expected = class != 9;
        assert_eq!(posting.is_subscribed(class), expected, "class {class}");
    }
    posting.set_subscribed(9, true).expect("FRAME can be subscribed");
    assert!(posting.is_subscribed(9));
    assert_eq!(
        posting.set_subscribed(99, true).expect_err("no such class"),
        PostError::UnknownClass { class: 99 }
    );
}

#[test]
fn test_pending_classes_are_ascending_and_only_non_empty() {
    let mut posting = wide();
    assert!(posting.pending_classes().is_empty());
    posting.post(1, 8, 0, 0, 0, 0, 0).expect("queued");
    posting.post(1, 4, 0, 0, 0, 0, 0).expect("queued");
    posting.post(1, 8, 0, 0, 0, 0, 0).expect("queued");
    assert_eq!(posting.pending_classes(), vec![4, 8]);
}

#[test]
fn a_signalled_fault_is_pending_until_cleared() {
    let mut posting = wide();
    assert!(!posting.has_pending_faults());
    posting.signal_fault();
    assert!(posting.has_pending_faults());
    posting.clear_fault();
    assert!(!posting.has_pending_faults());
}
