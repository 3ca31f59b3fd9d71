use tension_core::session::apply::{encode_slots, ApplyOutcome, ApplyReport, PendingQueue, PendingSubmission, Rejection, Slot};

fn submission(verb_id: u32) -> PendingSubmission {
    PendingSubmission {
        adapter_index: 0,
        verb_id,
        bytes: vec![1, 0, 0, 0, 0, 0, 0, 0],
        nargs: 1,
    }
}

#[test]
fn the_queue_is_fifo_and_bounded() {
    let mut queue = PendingQueue::with_capacity(2);
    assert!(queue.is_empty());
    assert_eq!(queue.capacity(), 2);
    queue.push(submission(1)).expect("room");
    queue.push(submission(2)).expect("room");
    assert_eq!(queue.len(), 2);
    assert_eq!(queue.push(submission(3)), Err(()), "full");

    let drained: Vec<u32> = queue.drain().into_iter().map(|entry| entry.verb_id).collect();
    assert_eq!(drained, vec![1, 2], "oldest first");
    assert!(queue.is_empty(), "draining empties it");
    queue.push(submission(4)).expect("room again");
}

#[test]
fn the_default_capacity_is_256() {
    assert_eq!(PendingQueue::new().capacity(), PendingQueue::DEFAULT_CAPACITY);
    assert_eq!(PendingQueue::DEFAULT_CAPACITY, 256);
}

#[test]
fn a_slot_encodes_as_the_union_the_adapter_reads() {
    // Eight bytes a slot, little-endian, payload in the bytes its type uses.
    let slots = [
        Slot::I32(-1),
        Slot::I64(-2),
        Slot::F32(1.5f32.to_bits()),
        Slot::F64((-2.25f64).to_bits()),
    ];
    let bytes = encode_slots(&slots);
    assert_eq!(bytes.len(), 32);

    let word = |at: usize| u64::from_le_bytes(bytes[at..at + 8].try_into().expect("eight"));
    assert_eq!(word(0), 0x0000_0000_FFFF_FFFF, "an i32 is its four bytes, rest zero");
    assert_eq!(word(8), (-2i64) as u64);
    assert_eq!(word(16), u64::from(1.5f32.to_bits()));
    assert_eq!(word(24), (-2.25f64).to_bits());
}

#[test]
fn an_empty_slot_list_encodes_to_nothing() {
    assert!(encode_slots(&[]).is_empty());
}

#[test]
fn an_apply_phase_counts_and_reports_refusals() {
    let mut report = ApplyReport::empty();
    assert_eq!(report.apply_one(7, ApplyOutcome::Status(0)), None);
    assert_eq!(report.apply_one(8, ApplyOutcome::NoSuchAdapter), None);
    assert_eq!(report.apply_one(9, ApplyOutcome::NoApplyHook), None);
    assert_eq!(
        report.apply_one(10, ApplyOutcome::Status(-22)),
        Some(Rejection { source_id: 0, class_id: 3, flags: 0, a: 10, b: (-22i32) as u32 })
    );
    assert_eq!(report, ApplyReport { applied: 1, rejected: 1, dropped: 2 });
}
