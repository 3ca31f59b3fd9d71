use tension_core::session::arena::{
    read_event_record, ring_header, ring_offset, set_ring_capacity, set_ring_delivered, set_ring_tail, EventRecord,
    RingHeader, CLASS_COUNT, DEFAULT_RING_CAPACITIES, EVENT_RECORD_SIZE, LAYOUT_FLOOR,
};
use tension_core::session::posting::{ClassQueue, EventFields, PostingSide};
use tension_core::session::subring::{
    append_event_to_subring, compact_subring, event_subring_offset, event_subring_slice,
    flush_class_to_ring, write_event_subring_header, FlushResult, SubringError,
};

/// The default capacities: the widths the frozen table states.
fn capacities() -> [u32; CLASS_COUNT] {
    DEFAULT_RING_CAPACITIES
}

/// Tiny rings, so "full" is three records rather than four thousand.
fn tiny() -> [u32; CLASS_COUNT] {
    [2; CLASS_COUNT]
}

/// A whole arena, the size of the frozen layout.
fn arena_bytes() -> Vec<u8> {
    let mut arena = vec![0u8; LAYOUT_FLOOR];
    for (class, capacity) in capacities().iter().enumerate() {
        write_event_subring_header(&mut arena, &capacities(), class as u32, *capacity)
            .expect("the header fits");
    }
    arena
}

fn record(seq: u64, class: u32) -> EventRecord {
    EventRecord {
        seq,
        class,
        flags: 0,
        a: seq as u32,
        b: 0,
        f0_bits: 1.5f32.to_bits(),
        f1_bits: (-2.25f32).to_bits(),
    }
}

fn header(arena: &[u8], class: u32) -> RingHeader {
    ring_header(arena, ring_offset(&capacities(), class as usize))
}

#[test]
fn test_subring_layout_frozen() {
    let arena = arena_bytes();
    for (class, capacity) in capacities().iter().enumerate() {
        let at = event_subring_offset(&capacities(), class as u32).expect("class exists");
        assert_eq!(
            at,
            ring_offset(&capacities(), class),
            "class {class} sits where the frozen geometry says"
        );
        let (header, slots) = event_subring_slice(&arena, &capacities(), class as u32)
            .expect("the sub-ring is inside the arena");
        assert_eq!(header.capacity, *capacity, "class {class}");
        assert_eq!(header.head, 0);
        assert_eq!(header.tail, 0);
        assert_eq!(header.stride, EVENT_RECORD_SIZE as u32);
        assert_eq!(header.generation, 0);
        assert_eq!(slots.len(), *capacity as usize * EVENT_RECORD_SIZE);
    }
}

#[test]
fn test_append_event_advances_head() {
    let mut arena = arena_bytes();
    let caps = capacities();
    for seq in 1..=3u64 {
        append_event_to_subring(&mut arena, &caps, 7, &record(seq, 7)).expect("room");
    }
    assert_eq!(header(&arena, 7).head, 3);
    assert_eq!(header(&arena, 7).tail, 0, "append never touches the tail");

    let (_, slots) = event_subring_slice(&arena, &caps, 7).expect("in range");
    for seq in 1..=3u64 {
        let at = (seq as usize - 1) * EVENT_RECORD_SIZE;
        let read = read_event_record(slots, at);
        assert_eq!(read, record(seq, 7), "slot {} holds record {seq}", seq - 1);
    }
    assert_eq!(f32::from_bits(read_event_record(slots, 0).f0_bits), 1.5);
    assert_eq!(f32::from_bits(read_event_record(slots, 0).f1_bits), -2.25);
}

#[test]
fn test_append_wraps_and_preserves_contiguity() {
    let mut arena = arena_bytes();
    let caps = tiny();
    write_event_subring_header(&mut arena, &caps, 0, caps[0]).expect("header");
    append_event_to_subring(&mut arena, &caps, 0, &record(1, 0)).expect("slot 0");
    append_event_to_subring(&mut arena, &caps, 0, &record(2, 0)).expect("slot 1");
    assert_eq!(header(&arena, 0).head, 2, "the ring is full");

    set_ring_tail(&mut arena, ring_offset(&caps, 0), 1).expect("tail");

    let reclaimed = compact_subring(&mut arena, &caps, 0).expect("compaction");
    assert_eq!(reclaimed, 1);
    let header_after = header(&arena, 0);
    assert_eq!(header_after.head, 1, "one live record");
    assert_eq!(header_after.tail, 0, "the guest's reclaim is consumed");
    assert_eq!(header_after.generation, 1, "the rebase is visible");

    let (_, slots) = event_subring_slice(&arena, &caps, 0).expect("in range");
    assert_eq!(
        read_event_record(slots, 0),
        record(2, 0),
        "the surviving record was moved to the front"
    );

    append_event_to_subring(&mut arena, &caps, 0, &record(3, 0)).expect("room again");
    let (_, slots) = event_subring_slice(&arena, &caps, 0).expect("in range");
    assert_eq!(read_event_record(slots, 0), record(2, 0));
    assert_eq!(
        read_event_record(slots, EVENT_RECORD_SIZE),
        record(3, 0),
        "the newer record landed behind the survivor: still contiguous from slot 0"
    );
}

#[test]
fn test_append_overflow_returns_full() {
    let mut arena = arena_bytes();
    let caps = tiny();
    write_event_subring_header(&mut arena, &caps, 0, caps[0]).expect("header");
    for seq in 1..=caps[0] as u64 {
        append_event_to_subring(&mut arena, &caps, 0, &record(seq, 0)).expect("room");
    }
    let refused = append_event_to_subring(&mut arena, &caps, 0, &record(99, 0))
        .expect_err("the ring is full and nothing was reclaimed");
    assert_eq!(refused, SubringError::Full { class: 0, capacity: 2 });
    assert_eq!(refused.errno(), -22);
    assert_eq!(header(&arena, 0).head, 2);
    let (_, slots) = event_subring_slice(&arena, &caps, 0).expect("in range");
    assert_eq!(read_event_record(slots, 0), record(1, 0));
    assert_eq!(read_event_record(slots, EVENT_RECORD_SIZE), record(2, 0));
}

/// One event's payload, as a producer posts it.
fn fields(flags: u32, a: u32, b: u32, f0: f32, f1: f32) -> EventFields {
    EventFields { seq: 0, source_id: 1, flags, a, b, f0_bits: f0.to_bits(), f1_bits: f1.to_bits() }
}

#[test]
fn test_flush_class_to_ring_delivers_and_drops() {
    let mut arena = arena_bytes();
    let caps = capacities();
    let mut seq = 0u64;
    let mut queue = ClassQueue::new(0, caps[0]);

    queue.push_sequenced(&mut seq, fields(0x10, 7, 8, 0.5, 0.25)).expect("queued");
    let first = flush_class_to_ring(&mut arena, &caps, 0, &mut queue).expect("flushes");
    assert_eq!(first, FlushResult { delivered: 1, dropped: 0, first_slot: 0 });
    assert_eq!(queue.delivered(), 1);
    assert_eq!(queue.dropped(), 0);
    assert_eq!(header(&arena, 0).head, 1);

    queue.push_sequenced(&mut seq, fields(0x10, 9, 10, 0.0, 0.0)).expect("queued");
    let second = flush_class_to_ring(&mut arena, &caps, 0, &mut queue).expect("flushes");
    assert_eq!(second, FlushResult { delivered: 0, dropped: 1, first_slot: 1 });
    assert_eq!(queue.delivered(), 1);
    assert_eq!(queue.dropped(), 1);
    assert_eq!(header(&arena, 0).head, 1, "nothing was overwritten");

    set_ring_tail(&mut arena, ring_offset(&caps, 0), 1).expect("tail");
    queue.push_sequenced(&mut seq, fields(0x10, 11, 12, 0.0, 0.0)).expect("queued");
    let third = flush_class_to_ring(&mut arena, &caps, 0, &mut queue).expect("flushes");
    assert_eq!(third, FlushResult { delivered: 1, dropped: 0, first_slot: 0 });
    let (_, slots) = event_subring_slice(&arena, &caps, 0).expect("in range");
    let record = read_event_record(slots, 0);
    assert_eq!((record.seq, record.a, record.b), (3, 11, 12));
    assert_eq!((record.flags, record.class), (0x10, 0));
}

#[test]
fn test_flush_refuses_an_unknown_class_and_an_empty_queue_is_free() {
    let mut arena = arena_bytes();
    let caps = capacities();
    let mut queue = ClassQueue::new(4, caps[4]);

    let empty = flush_class_to_ring(&mut arena, &caps, 4, &mut queue)
        .expect("an empty flush is not an error");
    assert_eq!(empty, FlushResult::default());

    let error = flush_class_to_ring(&mut arena, &caps, 5, &mut queue).expect_err("wrong class");
    assert_eq!(error, SubringError::UnknownClass { class: 4 });
}

#[test]
fn test_a_refused_flush_does_not_empty_the_queue() {
    let mut arena = arena_bytes();
    let caps = capacities();
    let mut seq = 0u64;
    let mut queue = ClassQueue::new(4, caps[4]);
    queue.push_sequenced(&mut seq, fields(0, 1, 2, 0.0, 0.0)).expect("queued");
    queue.push_sequenced(&mut seq, fields(0, 3, 4, 0.0, 0.0)).expect("queued");
    assert_eq!(queue.len(), 2);

    let error = flush_class_to_ring(&mut arena, &caps, 5, &mut queue).expect_err("wrong class");
    assert_eq!(error, SubringError::UnknownClass { class: 4 });
    assert_eq!(queue.len(), 2, "the events are still queued");
    assert_eq!(queue.delivered(), 0);

    let flushed = flush_class_to_ring(&mut arena, &caps, 4, &mut queue).expect("flushes");
    assert_eq!(flushed, FlushResult { delivered: 2, dropped: 0, first_slot: 0 });
    assert_eq!(queue.len(), 0);
}

#[test]
fn test_flushed_records_are_ordered_by_seq() {
    let mut arena = arena_bytes();
    let caps = capacities();
    let mut posting = PostingSide::default();
    for producer in 0..4u32 {
        for i in 0..1000u32 {
            posting.post(1, 4, 0, producer, i, 0, 0).expect("class 4 holds 4096");
        }
    }
    let flushed = posting.flush_class(&mut arena, &caps, 4).expect("flushes");
    assert_eq!(flushed, FlushResult { delivered: 4000, dropped: 0, first_slot: 0 });

    let (header, slots) = event_subring_slice(&arena, &caps, 4).expect("in range");
    assert_eq!(header.head, 4000);
    let seqs: Vec<u64> = (0..4000)
        .map(|slot| read_event_record(slots, slot * EVENT_RECORD_SIZE).seq)
        .collect();
    assert!(seqs.windows(2).all(|pair| pair[0] < pair[1]), "the ring holds ascending sequence numbers");
    assert_eq!(seqs, (1..=4000).collect::<Vec<u64>>());
}

#[test]
fn test_header_mismatch_is_refused() {
    let mut arena = arena_bytes();
    let caps = capacities();
    let at = ring_offset(&caps, 6);
    set_ring_capacity(&mut arena, at, caps[6] + 1).expect("write");

    let error = append_event_to_subring(&mut arena, &caps, 6, &record(1, 6)).expect_err("mismatch");
    assert_eq!(
        error,
        SubringError::HeaderMismatch { class: 6, header: caps[6] + 1, expected: caps[6] }
    );
    let (_, slots) = event_subring_slice(&arena, &caps, 6).expect("in range");
    assert_eq!(read_event_record(slots, 0).seq, 0);
}

#[test]
fn a_refused_flush_leaves_the_queue_as_it_was() {
    let mut arena = arena_bytes();
    let caps = capacities();
    let at = ring_offset(&caps, 6);
    set_ring_capacity(&mut arena, at, caps[6] + 1).expect("write");
    let before = arena.clone();
    let mut seq = 0u64;
    let mut queue = ClassQueue::new(6, caps[6]);
    queue.push_sequenced(&mut seq, fields(0x10, 1, 2, 0.0, 0.0)).expect("queued");
    queue.push_sequenced(&mut seq, fields(0x10, 3, 4, 0.0, 0.0)).expect("queued");
    let error = flush_class_to_ring(&mut arena, &caps, 6, &mut queue).expect_err("the header is not the session's");
    assert_eq!(error, SubringError::HeaderMismatch { class: 6, header: caps[6] + 1, expected: caps[6] });
    assert_eq!(queue.len(), 2, "the events stay queued");
    assert_eq!(queue.delivered(), 0);
    assert_eq!(queue.dropped(), 0);
    assert_eq!(arena, before, "and the arena is untouched");
}

#[test]
fn the_delivered_counter_is_set_whole() {
    let mut arena = arena_bytes();
    let caps = capacities();
    let at = ring_offset(&caps, 2);
    for byte in &mut arena[at + 24..at + 32] {
        *byte = 0xFF;
    }
    set_ring_delivered(&mut arena, at, 7).expect("in range");
    let header = ring_header(&arena, at);
    assert_eq!(header.delivered, 7, "the high half a guest wrote is overwritten too");
    assert_eq!(header.capacity, caps[2]);
}
