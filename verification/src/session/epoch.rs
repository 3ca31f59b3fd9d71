//! The epoch: publish, then invoke — the only place the session decides
//! when anything reaches the guest.
//!
//! An epoch alternates the session's own decisions with outside work: the
//! wait for the first event, the adapters' publish hooks, the guest's
//! callbacks and the deferred submissions are performed by the host loop.
//! What is decided here:
//!
//! 1. whether an epoch may run at all (the session is `READY`, and no
//!    callback is on the stack);
//! 2. **publish** — each covered class's queue is drained into its sub-ring,
//!    the class's counters are mirrored into its header, the epoch counter
//!    advances, `FrameState` is written, and the control block is put back to
//!    `READY` if a guest wrote something else there; publishing completes
//!    for the whole epoch before the first callback runs;
//! 3. **invoke** — which callbacks run, in what order, with which arguments:
//!    class by class, one `onBatch` for a batched class, one `onEvent` per
//!    record for a direct one; a class without a callback is still
//!    delivered (the guest reads its ring);
//! 4. what a trapping callback leaves behind: its slot disabled, the session
//!    `FAULTED`, and the fault published in the arena.

use vstd::prelude::*;

use crate::bytes::{le32, same_outside};
use crate::session::arena::{
    control_state, lemma_rings_span_monotone, set_control_fault_code, set_control_state,
    set_ring_delivered, set_ring_dropped, spec_event_record, spec_frame_state, spec_ring_header,
    write_frame_state, FrameStateValues, CLASS_COUNT, EVENT_RECORD_SIZE, EVENT_TABLE_OFFSET,
    EVENT_TABLE_SIZE, FAULT_CALLBACK_TRAP, LAYOUT_FLOOR, MODE_BATCHED, MODE_DIRECT, MODE_POLLED,
    RING_HEADER_SIZE, STATE_FAULTED, STATE_READY, rings_span,
};
use crate::session::posting::{ClassQueue, EventFields, PostingSide, WaitOutcome};
use crate::session::subring::{
    event_subring_offset, flush_compacts, flush_delivered, flush_first_slot, lemma_ring_geometry,
    record_of, ring_at, ring_end, rings_fit, slot_at, FlushResult, SubringError,
};
use crate::session::{session_wf, Session, SessionError, SessionState, SessionView, EIO};

verus! {

/// Which classes an epoch covers, and whether it blocks first.
#[derive(Copy, Clone, Debug, PartialEq, Eq, Structural)]
pub enum EpochMode {
    /// Block up to `timeout_ms` for the first event, then publish every
    /// class (`timeout_ms < 0` blocks indefinitely, `0` never blocks).
    Wait { timeout_ms: i32 },
    /// Never block; publish and invoke only this class.
    Drain { class: u32 },
    /// Never block; publish and invoke every class.
    DrainAll,
}

/// What one epoch did.
#[derive(Copy, Clone, Debug, PartialEq, Eq, Structural)]
pub struct EpochResult {
    /// Records delivered to the guest this epoch: appended to a sub-ring and
    /// either invoked or left for the guest to read.
    pub deliveries: u32,
    /// Whether the epoch ended in a fault (a callback trap).
    pub faulted: bool,
}

impl Default for EpochResult {
    fn default() -> (r: EpochResult)
        ensures
            r == (EpochResult { deliveries: 0, faulted: false }),
    {
        EpochResult { deliveries: 0, faulted: false }
    }
}

/// One class's records this epoch: where they start in the sub-ring and how
/// many there are.
#[derive(Copy, Clone, Debug, PartialEq, Eq, Structural)]
pub struct Delivery {
    pub class: u32,
    pub first_slot: u32,
    pub count: u32,
}

// ── the entry check ───────────────────────────────────────────────────────
/// Why an epoch may not run: the session is not `READY`, or a callback is
/// on the stack (`depth != 0`) and the epoch would nest inside one.
pub open spec fn spec_epoch_refusal(v: SessionView, depth: u32) -> Option<SessionError> {
    if v.state != SessionState::Ready {
        Some(SessionError::NotReady { state: v.state })
    } else if depth != 0 {
        Some(SessionError::Reentrant)
    } else {
        None
    }
}

/// The check every epoch passes first.
pub fn epoch_refusal(session: &Session, depth: u32) -> (r: Option<SessionError>)
    ensures
        r == spec_epoch_refusal(session@, depth),
{
    if session.require_ready() != 0 {
        return Some(SessionError::NotReady { state: session.state() });
    }
    if depth != 0 {
        return Some(SessionError::Reentrant);
    }
    None
}

/// A wait that was woken with nothing to deliver because the session is
/// shutting down is not an epoch: it ends with nothing published.
pub fn wake_ends_epoch(outcome: WaitOutcome, shutting_down: bool) -> (b: bool)
    ensures
        b == (outcome == WaitOutcome::WokenWithNothing && shutting_down),
{
    match outcome {
        WaitOutcome::WokenWithNothing => shutting_down,
        _ => false,
    }
}

/// The classes an epoch in `mode` publishes, in order.
pub open spec fn epoch_classes(mode: EpochMode) -> Seq<u32> {
    match mode {
        EpochMode::Drain { class } => seq![class],
        _ => Seq::new(CLASS_COUNT as nat, |c: int| c as u32),
    }
}

// ── publish ───────────────────────────────────────────────────────────────
/// A count as its 32-bit mirror: saturated at `u32::MAX`.
pub open spec fn saturate(x: u64) -> u32 {
    if x > u32::MAX {
        u32::MAX
    } else {
        x as u32
    }
}

/// A ring header the session could have written: where the guest has
/// reclaimed records of a ring of this capacity, the head is within it.
pub open spec fn ring_sound(s: Seq<u8>, caps: Seq<u32>, c: int) -> bool {
    let h = spec_ring_header(s, ring_at(caps, c));
    (0 < h.tail <= h.head && h.capacity == caps[c]) ==> h.head <= caps[c]
}

/// Every ring header is one the session could have written.
pub open spec fn rings_sound(s: Seq<u8>, caps: Seq<u32>) -> bool {
    forall|c: int| 0 <= c < CLASS_COUNT ==> #[trigger] ring_sound(s, caps, c)
}

/// The memory holds the whole frozen layout the session opened.
pub open spec fn arena_holds_layout(s: Seq<u8>) -> bool {
    LAYOUT_FLOOR <= s.len()
}

/// What flushing class `c`'s queue `q` into an arena whose ring `c` is `a`
/// reports.
pub open spec fn planned_flush(a: Seq<u8>, caps: Seq<u32>, c: u32, q: ClassQueue) -> Result<FlushResult, SubringError> {
    let h = spec_ring_header(a, ring_at(caps, c as int));
    let cap = caps[c as int];
    let n = q.waiting().len() as int;
    if n == 0 {
        Ok(FlushResult { delivered: 0, dropped: 0, first_slot: 0 })
    } else if h.capacity != cap {
        Err(SubringError::HeaderMismatch { class: c, header: h.capacity, expected: cap })
    } else {
        let first = flush_first_slot(h, cap);
        let d = flush_delivered(first, cap, n);
        Ok(FlushResult { delivered: d as u32, dropped: (n - d) as u32, first_slot: first as u32 })
    }
}

/// What publishing class `c` leaves, from ring `c` as it was in `a` and the
/// queue `q`, in the arena `b` and the queue `q2`: the queue emptied and its
/// counters advanced, the counters mirrored into the header, and — when
/// there was something to deliver — the records appended after what the
/// guest has not consumed, compacted first when the ring was full.
pub open spec fn ring_published(a: Seq<u8>, b: Seq<u8>, caps: Seq<u32>, c: u32, q: ClassQueue, q2: ClassQueue) -> bool {
    let at = ring_at(caps, c as int);
    let h = spec_ring_header(a, at);
    let cap = caps[c as int];
    let events = q.waiting();
    let n = events.len() as int;
    let first = flush_first_slot(h, cap);
    let d = if n == 0 { 0 } else { flush_delivered(first, cap, n) };
    &&& q2.waiting() == Seq::<EventFields>::empty()
    &&& q2.spec_class() == q.spec_class()
    &&& q2.spec_capacity() == q.spec_capacity()
    &&& q2.wf()
    &&& q2.spec_delivered() == q.spec_delivered().wrapping_add(d as u64)
    &&& q2.spec_dropped() == q.spec_dropped().wrapping_add((n - d) as u64)
    &&& le32(b, at + 20) == saturate(q2.spec_dropped())
    &&& crate::bytes::le64(b, at + 24) == saturate(q2.spec_delivered())
    &&& n == 0 ==> forall|i: int| at <= i < ring_end(caps, c as int) && !(at + 20 <= i < at + 32) ==> #[trigger] b[i]
        == a[i]
    &&& n > 0 ==> {
        &&& h.capacity == cap
        &&& le32(b, at) == first + d
        &&& le32(b, at + 4) == (if flush_compacts(h, cap) { 0 } else { h.tail as int })
        &&& le32(b, at + 8) == h.capacity
        &&& le32(b, at + 12) == h.stride
        &&& le32(b, at + 16) == (if flush_compacts(h, cap) { h.generation.wrapping_add(1) } else { h.generation })
        &&& forall|k: int| 0 <= k < d ==> #[trigger] spec_event_record(b, slot_at(caps, c as int, first + k))
            == record_of(events[k], c)
        &&& forall|k: int| 0 <= k < first && k < cap ==> #[trigger] spec_event_record(b, slot_at(caps, c as int, k))
            == spec_event_record(a, slot_at(caps, c as int, if flush_compacts(h, cap) { h.tail + k } else { k }))
    }
}

/// Two arenas agree on ring `c`'s bytes.
pub open spec fn agree_on_ring(a: Seq<u8>, b: Seq<u8>, caps: Seq<u32>, c: int) -> bool {
    forall|i: int| ring_at(caps, c) <= i < ring_end(caps, c) ==> #[trigger] a[i] == b[i]
}

/// The high word of a 64-bit value is fixed by the value.
proof fn lemma_high_word(a: Seq<u8>, b: Seq<u8>, at: int)
    requires
        0 <= at,
        at + 8 <= a.len(),
        at + 8 <= b.len(),
        crate::bytes::le64(a, at) == crate::bytes::le64(b, at),
    ensures
        le32(a, at + 4) == le32(b, at + 4),
        le32(a, at) == le32(b, at),
{
    crate::bytes::lemma_le32_bound(a, at);
    crate::bytes::lemma_le32_bound(b, at);
    crate::bytes::lemma_le32_bound(a, at + 4);
    crate::bytes::lemma_le32_bound(b, at + 4);
    let x1 = le32(a, at);
    let y1 = le32(a, at + 4);
    let x2 = le32(b, at);
    let y2 = le32(b, at + 4);
    assert(y1 == y2 && x1 == x2) by (nonlinear_arith)
        requires
            x1 + y1 * 0x1_0000_0000 == x2 + y2 * 0x1_0000_0000,
            0 <= x1 < 0x1_0000_0000,
            0 <= x2 < 0x1_0000_0000,
            0 <= y1,
            0 <= y2,
    ;
}

/// Ring `c` lies inside the event table, its header first, its slots after.
proof fn lemma_ring_span(caps: Seq<u32>, c: int)
    requires
        0 <= c < CLASS_COUNT,
        caps.len() == CLASS_COUNT,
    ensures
        EVENT_TABLE_OFFSET <= ring_at(caps, c),
        ring_at(caps, c) + RING_HEADER_SIZE <= ring_end(caps, c),
        ring_end(caps, c) == ring_at(caps, c) + RING_HEADER_SIZE + EVENT_RECORD_SIZE * caps[c],
        forall|d: int| c < d < CLASS_COUNT ==> ring_end(caps, c) <= #[trigger] ring_at(caps, d),
{
    lemma_ring_geometry(caps, c);
    assert forall|d: int| c < d < CLASS_COUNT implies ring_end(caps, c) <= #[trigger] ring_at(caps, d) by {
        lemma_rings_span_monotone(caps, c + 1, d);
    }
}

/// Reads of ring `c` in arenas that agree on it are the same.
proof fn lemma_agree_reads(a: Seq<u8>, b: Seq<u8>, caps: Seq<u32>, c: int)
    requires
        0 <= c < CLASS_COUNT,
        caps.len() == CLASS_COUNT,
        agree_on_ring(a, b, caps, c),
    ensures
        spec_ring_header(a, ring_at(caps, c)) == spec_ring_header(b, ring_at(caps, c)),
        forall|o: int| 0 <= o <= 28 && o % 4 == 0 ==> #[trigger] le32(a, ring_at(caps, c) + o) == le32(
            b,
            ring_at(caps, c) + o,
        ),
        forall|k: int| 0 <= k < caps[c] ==> #[trigger] spec_event_record(a, slot_at(caps, c, k)) == spec_event_record(
            b,
            slot_at(caps, c, k),
        ),
{
    lemma_ring_span(caps, c);
    let at = ring_at(caps, c);
    crate::session::subring::lemma_header_agree(a, b, at);
    assert forall|o: int| 0 <= o <= 28 && o % 4 == 0 implies #[trigger] le32(a, at + o) == le32(b, at + o) by {
        crate::bytes::lemma_le32_agree(a, b, at + o);
    }
    assert forall|k: int| 0 <= k < caps[c] implies #[trigger] spec_event_record(a, slot_at(caps, c, k))
        == spec_event_record(b, slot_at(caps, c, k)) by {
        let p = slot_at(caps, c, k);
        assert(p + EVENT_RECORD_SIZE <= ring_end(caps, c)) by (nonlinear_arith)
            requires
                p == at + RING_HEADER_SIZE + EVENT_RECORD_SIZE * k,
                ring_end(caps, c) == at + RING_HEADER_SIZE + EVENT_RECORD_SIZE * caps[c],
                k < caps[c],
        ;
        assert forall|j: int| 0 <= j < EVENT_RECORD_SIZE implies #[trigger] a[p + j] == b[p + j] by {
            assert(at <= p + j < ring_end(caps, c));
        }
        crate::session::subring::lemma_record_agree(a, b, p, p);
    }
}

/// A flush of a sound ring, followed by the two counter mirrors, publishes
/// the class.
#[verifier::spinoff_prover]
#[verifier::rlimit(60)]
proof fn lemma_mirrored(
    a0: Seq<u8>,
    a1: Seq<u8>,
    a2: Seq<u8>,
    a3: Seq<u8>,
    caps: Seq<u32>,
    class: u32,
    q0: ClassQueue,
    q1: ClassQueue,
    fr: FlushResult,
    dropped: u32,
    delivered: u32,
)
    requires
        caps.len() == CLASS_COUNT,
        rings_fit(caps),
        class < CLASS_COUNT,
        ring_end(caps, class as int) <= a0.len(),
        ring_sound(a0, caps, class as int),
        q0.wf(),
        q0.spec_class() == class,
        q1.wf(),
        q1.spec_class() == q0.spec_class(),
        q1.spec_capacity() == q0.spec_capacity(),
        crate::session::subring::flush_outcome(a0, a1, caps, class, q0, q1, Ok::<FlushResult, SubringError>(fr)),
        le32(a2, ring_at(caps, class as int) + 20) == dropped,
        same_outside(a1, a2, ring_at(caps, class as int) + 20, ring_at(caps, class as int) + 24),
        crate::bytes::le64(a3, ring_at(caps, class as int) + 24) == delivered,
        same_outside(a2, a3, ring_at(caps, class as int) + 24, ring_at(caps, class as int) + 32),
        dropped == saturate(q1.spec_dropped()),
        delivered == saturate(q1.spec_delivered()),
    ensures
        planned_flush(a0, caps, class, q0) == Ok::<FlushResult, SubringError>(fr),
        ring_published(a0, a3, caps, class, q0, q1),
        ring_sound(a3, caps, class as int),
        same_outside(a0, a3, ring_at(caps, class as int), ring_end(caps, class as int)),
{
    let c = class as int;
    let at = ring_at(caps, c);
    let h = spec_ring_header(a0, at);
    lemma_ring_span(caps, c);
    lemma_ring_geometry(caps, c);
    // The header words the mirrors did not write are the flush's.
    crate::bytes::lemma_le32_agree(a1, a3, at);
    crate::bytes::lemma_le32_agree(a1, a3, at + 4);
    crate::bytes::lemma_le32_agree(a1, a3, at + 8);
    crate::bytes::lemma_le32_agree(a1, a3, at + 12);
    crate::bytes::lemma_le32_agree(a1, a3, at + 16);
    crate::bytes::lemma_le32_agree(a2, a3, at + 20);
    let n = q0.waiting().len() as int;
    if n > 0 {
        lemma_high_word(a0, a1, at + 24);
    } else {
        assert(q0.waiting() =~= Seq::<EventFields>::empty());
    }
    // The records are behind the header.
    assert forall|k: int| 0 <= k < caps[c] implies #[trigger] spec_event_record(a3, slot_at(caps, c, k))
        == spec_event_record(a1, slot_at(caps, c, k)) by {
        let p = slot_at(caps, c, k);
        assert(p + EVENT_RECORD_SIZE <= ring_end(caps, c)) by (nonlinear_arith)
            requires
                p == at + RING_HEADER_SIZE + EVENT_RECORD_SIZE * k,
                ring_end(caps, c) == at + RING_HEADER_SIZE + EVENT_RECORD_SIZE * caps[c],
                k < caps[c],
                0 <= k,
        ;
        assert forall|j: int| 0 <= j < EVENT_RECORD_SIZE implies #[trigger] a3[p + j] == a1[p + j] by {
            assert(at + RING_HEADER_SIZE <= p + j);
        }
        crate::session::subring::lemma_record_agree(a3, a1, p, p);
    }
    let first = flush_first_slot(h, caps[c]);
    if n > 0 && h.capacity == caps[c] {
        let d = flush_delivered(first, caps[c], n);
        assert forall|k: int| 0 <= k < d implies #[trigger] spec_event_record(a3, slot_at(caps, c, first + k))
            == record_of(q0.waiting()[k], class) by {
            assert(0 <= first + k < caps[c]);
            assert(spec_event_record(a1, slot_at(caps, c, first + k)) == record_of(q0.waiting()[k], class));
        }
        assert forall|k: int| 0 <= k < first && k < caps[c] implies #[trigger] spec_event_record(
            a3,
            slot_at(caps, c, k),
        ) == spec_event_record(a0, slot_at(caps, c, if flush_compacts(h, caps[c]) { h.tail + k } else { k })) by {
            assert(spec_event_record(a1, slot_at(caps, c, k)) == spec_event_record(
                a0,
                slot_at(caps, c, if flush_compacts(h, caps[c]) { h.tail + k } else { k }),
            ));
        }
    }
}

/// The 32-bit mirror of a counter.
fn saturate_count(x: u64) -> (r: u32)
    ensures
        r == saturate(x),
{
    if x > u32::MAX as u64 {
        u32::MAX
    } else {
        x as u32
    }
}

/// Publish one class: drain its queue into its sub-ring, then mirror the
/// queue's counters into the ring's header. Nothing outside the class's
/// ring and queue changes.
#[verifier::spinoff_prover]
#[verifier::rlimit(100)]
fn publish_class(posting: &mut PostingSide, arena: &mut [u8], capacities: &[u32; CLASS_COUNT], class: u32) -> (r:
    Result<FlushResult, SessionError>)
    requires
        old(posting).wf(),
        rings_fit(capacities@),
        class < CLASS_COUNT,
        ring_end(capacities@, class as int) <= old(arena)@.len(),
        ring_sound(old(arena)@, capacities@, class as int),
    ensures
        final(posting).wf(),
        final(posting).spec_last_seq() == old(posting).spec_last_seq(),
        final(posting).spec_wait() == old(posting).spec_wait(),
        forall|c: int| 0 <= c < CLASS_COUNT && c != class ==> #[trigger] final(posting).spec_queue(c)
            == old(posting).spec_queue(c),
        forall|c: int| 0 <= c < CLASS_COUNT ==> #[trigger] final(posting).spec_mode(c) == old(posting).spec_mode(c),
        forall|c: int| 0 <= c < CLASS_COUNT ==> #[trigger] final(posting).spec_subscribed(c)
            == old(posting).spec_subscribed(c),
        same_outside(old(arena)@, final(arena)@, ring_at(capacities@, class as int), ring_end(capacities@, class as int)),
        r is Err ==> final(arena)@ == old(arena)@,
        match r {
            Err(e) => planned_flush(old(arena)@, capacities@, class, old(posting).spec_queue(class as int)) matches Err(
                x,
            ) && e == SessionError::Subring(x),
            Ok(fr) => {
                &&& planned_flush(old(arena)@, capacities@, class, old(posting).spec_queue(class as int)) == Ok::<
                    FlushResult,
                    SubringError,
                >(fr)
                &&& ring_published(
                    old(arena)@,
                    final(arena)@,
                    capacities@,
                    class,
                    old(posting).spec_queue(class as int),
                    final(posting).spec_queue(class as int),
                )
                &&& ring_sound(final(arena)@, capacities@, class as int)
            },
        },
{
    let ghost caps = capacities@;
    let ghost c = class as int;
    let ghost a0 = arena@;
    let ghost q0 = posting.spec_queue(c);
    proof {
        lemma_ring_span(caps, c);
        lemma_ring_geometry(caps, c);
        assert(ring_end(caps, c) <= usize::MAX);
        assert(0 <= ring_at(caps, c) <= usize::MAX);
        old(posting).lemma_queue(c);
        let h = spec_ring_header(a0, ring_at(caps, c));
        if 0 < h.tail <= h.head && h.capacity == caps[c] {
            assert(slot_at(caps, c, h.head as int) <= ring_end(caps, c)) by (nonlinear_arith)
                requires
                    slot_at(caps, c, h.head as int) == ring_at(caps, c) + RING_HEADER_SIZE + EVENT_RECORD_SIZE * h.head,
                    ring_end(caps, c) == ring_at(caps, c) + RING_HEADER_SIZE + EVENT_RECORD_SIZE * caps[c],
                    h.head <= caps[c],
            ;
        }
    }
    let flushed = match posting.flush_class(arena, capacities, class) {
        Ok(flushed) => flushed,
        Err(e) => {
            return Err(SessionError::Subring(e));
        },
    };
    let ghost a1 = arena@;
    let at = match event_subring_offset(capacities, class) {
        Ok(at) => at,
        Err(e) => {
            return Err(SessionError::Subring(e));
        },
    };
    assert(at == ring_at(caps, c));
    assert(a1.len() == a0.len());
    let (dropped, delivered) = match posting.queue(class) {
        Some(queue) => (saturate_count(queue.dropped()), saturate_count(queue.delivered())),
        None => {
            return Err(SessionError::Subring(SubringError::UnknownClass { class }));
        },
    };
    match set_ring_dropped(arena, at, dropped) {
        Ok(()) => {},
        Err(e) => {
            return Err(SessionError::Layout(e));
        },
    }
    let ghost a2 = arena@;
    match set_ring_delivered(arena, at, delivered) {
        Ok(()) => {},
        Err(e) => {
            return Err(SessionError::Layout(e));
        },
    }
    proof {
        posting.lemma_queue(c);
        lemma_mirrored(a0, a1, a2, arena@, caps, class, q0, posting.spec_queue(c), flushed, dropped, delivered);
    }
    Ok(flushed)
}

/// Publishing class `c` does the same thing to arenas whose ring `c` is the
/// same, and what it left stays as long as ring `c` is left alone.
proof fn lemma_published_transfer(a: Seq<u8>, a2: Seq<u8>, b: Seq<u8>, b2: Seq<u8>, caps: Seq<u32>, c: u32, q: ClassQueue, q2: ClassQueue)
    requires
        caps.len() == CLASS_COUNT,
        c < CLASS_COUNT,
        ring_sound(a, caps, c as int),
        agree_on_ring(a, a2, caps, c as int),
        agree_on_ring(b, b2, caps, c as int),
        ring_published(a, b, caps, c, q, q2),
    ensures
        ring_published(a2, b2, caps, c, q, q2),
        planned_flush(a, caps, c, q) == planned_flush(a2, caps, c, q),
        ring_sound(a2, caps, c as int),
{
    let ci = c as int;
    let at = ring_at(caps, ci);
    lemma_ring_span(caps, ci);
    lemma_agree_reads(a, a2, caps, ci);
    lemma_agree_reads(b, b2, caps, ci);
    assert(le32(b, at + 20) == le32(b2, at + 20));
    assert(le32(b, at + 24) == le32(b2, at + 24));
    crate::bytes::lemma_le64_agree(b, b2, at + 24);
    let h = spec_ring_header(a, at);
    let cap = caps[ci];
    let n = q.waiting().len() as int;
    if n > 0 {
        assert(le32(b, at) == le32(b2, at));
        assert(le32(b, at + 4) == le32(b2, at + 4));
        assert(le32(b, at + 8) == le32(b2, at + 8));
        assert(le32(b, at + 12) == le32(b2, at + 12));
        assert(le32(b, at + 16) == le32(b2, at + 16));
        let first = flush_first_slot(h, cap);
        let d = flush_delivered(first, cap, n);
        assert forall|k: int| 0 <= k < d implies #[trigger] spec_event_record(b2, slot_at(caps, ci, first + k))
            == record_of(q.waiting()[k], c) by {
            assert(spec_event_record(b, slot_at(caps, ci, first + k)) == record_of(q.waiting()[k], c));
            assert(0 <= first + k < cap);
        }
        assert forall|k: int| 0 <= k < first && k < cap implies #[trigger] spec_event_record(b2, slot_at(caps, ci, k))
            == spec_event_record(a2, slot_at(caps, ci, if flush_compacts(h, cap) { h.tail + k } else { k })) by {
            assert(spec_event_record(b, slot_at(caps, ci, k)) == spec_event_record(
                a,
                slot_at(caps, ci, if flush_compacts(h, cap) { h.tail + k } else { k }),
            ));
            if flush_compacts(h, cap) {
                assert(0 <= h.tail + k < cap);
            }
        }
    } else {
        assert forall|i: int| at <= i < ring_end(caps, ci) && !(at + 20 <= i < at + 32) implies #[trigger] b2[i]
            == a2[i] by {
            assert(b[i] == a[i]);
        }
    }
}

/// Rings of different classes do not overlap.
proof fn lemma_rings_disjoint(a: Seq<u8>, b: Seq<u8>, caps: Seq<u32>, c: int, d: int)
    requires
        caps.len() == CLASS_COUNT,
        0 <= c < CLASS_COUNT,
        0 <= d < CLASS_COUNT,
        c != d,
        a.len() == b.len(),
        ring_end(caps, d) <= a.len(),
        forall|i: int| 0 <= i < a.len() && !(ring_at(caps, c) <= i < ring_end(caps, c)) ==> #[trigger] b[i] == a[i],
    ensures
        agree_on_ring(a, b, caps, d),
{
    lemma_ring_span(caps, c);
    lemma_ring_span(caps, d);
    assert forall|i: int| ring_at(caps, d) <= i < ring_end(caps, d) implies #[trigger] a[i] == b[i] by {
        assert(!(ring_at(caps, c) <= i < ring_end(caps, c)));
    }
}

/// The first refusal publishing `classes[i..]` meets, each class's flush
/// planned from the epoch's starting arena `a` and queues `p`.
pub open spec fn publish_error(a: Seq<u8>, caps: Seq<u32>, p: PostingSide, classes: Seq<u32>, i: int) -> Option<
    SessionError,
>
    decreases classes.len() - i,
{
    if i < 0 || i >= classes.len() {
        None
    } else if classes[i] >= CLASS_COUNT {
        Some(SessionError::Subring(SubringError::UnknownClass { class: classes[i] }))
    } else {
        match planned_flush(a, caps, classes[i], p.spec_queue(classes[i] as int)) {
            Err(x) => Some(SessionError::Subring(x)),
            Ok(_) => publish_error(a, caps, p, classes, i + 1),
        }
    }
}

/// Every refusal publishing meets is the sub-ring machinery's.
pub proof fn lemma_publish_error_is_subring(a: Seq<u8>, caps: Seq<u32>, p: PostingSide, classes: Seq<u32>, i: int)
    ensures
        publish_error(a, caps, p, classes, i) matches Some(e) ==> e is Subring,
    decreases classes.len() - i,
{
    if 0 <= i < classes.len() && classes[i] < CLASS_COUNT {
        lemma_publish_error_is_subring(a, caps, p, classes, i + 1);
    }
}

/// The deliveries publishing `classes[i..]` reports: one per class that had
/// records delivered, in class order.
pub open spec fn publish_deliveries(a: Seq<u8>, caps: Seq<u32>, p: PostingSide, classes: Seq<u32>, i: int) -> Seq<
    Delivery,
>
    decreases classes.len() - i,
{
    if i < 0 || i >= classes.len() {
        Seq::empty()
    } else {
        let rest = publish_deliveries(a, caps, p, classes, i + 1);
        match planned_flush(a, caps, classes[i], p.spec_queue(classes[i] as int)) {
            Ok(fr) => if fr.delivered > 0 {
                seq![Delivery { class: classes[i], first_slot: fr.first_slot, count: fr.delivered }] + rest
            } else {
                rest
            },
            Err(_) => rest,
        }
    }
}

/// Whether class `c` is among the first `n` classes.
pub open spec fn seen(cs: Seq<u32>, n: int, c: int) -> bool {
    exists|k: int| 0 <= k < n && #[trigger] cs[k] == c
}

/// Class `c`'s queue and ring are as they were at the start.
pub open spec fn untouched(a0: Seq<u8>, a: Seq<u8>, p0: PostingSide, p: PostingSide, caps: Seq<u32>, c: int) -> bool {
    p.spec_queue(c) == p0.spec_queue(c) && agree_on_ring(a0, a, caps, c)
}

/// Strictly ascending: no class is published twice.
pub open spec fn ascending(classes: Seq<u32>) -> bool {
    forall|i: int, j: int| 0 <= i < j < classes.len() ==> classes[i] < classes[j]
}

/// Bytes outside the event table, `FrameState`'s header and the control
/// block's state words.
pub open spec fn outside_publish(caps: Seq<u32>, j: int) -> bool {
    &&& !(EVENT_TABLE_OFFSET <= j < EVENT_TABLE_OFFSET + rings_span(caps, CLASS_COUNT as int))
    &&& !(0x1000 <= j < 0x1040)
    &&& !(160 <= j < 172)
}

/// What the publish loop knows after the `i`-th class, from what it knew
/// before it and what the class's publish did.
#[verifier::spinoff_prover]
#[verifier::rlimit(60)]
proof fn lemma_publish_step(
    a0: Seq<u8>,
    cur: Seq<u8>,
    next: Seq<u8>,
    caps: Seq<u32>,
    cs: Seq<u32>,
    i: int,
    p0: PostingSide,
    pcur: PostingSide,
    pnext: PostingSide,
)
    requires
        caps.len() == CLASS_COUNT,
        ascending(cs),
        0 <= i < cs.len(),
        cs[i] < CLASS_COUNT,
        forall|c: int| 0 <= c < CLASS_COUNT ==> #[trigger] ring_end(caps, c) <= a0.len(),
        EVENT_TABLE_OFFSET + rings_span(caps, CLASS_COUNT as int) <= a0.len(),
        cur.len() == a0.len(),
        next.len() == a0.len(),
        rings_sound(a0, caps),
        rings_sound(cur, caps),
        forall|k: int| 0 <= k < i ==> ring_published(
            a0,
            cur,
            caps,
            #[trigger] cs[k],
            p0.spec_queue(cs[k] as int),
            pcur.spec_queue(cs[k] as int),
        ),
        forall|k: int| 0 <= k < i ==> #[trigger] cs[k] < CLASS_COUNT,
        forall|c: int| 0 <= c < CLASS_COUNT && !seen(cs, i, c) ==> #[trigger] untouched(a0, cur, p0, pcur, caps, c),
        forall|j: int| 0 <= j < a0.len() && !(EVENT_TABLE_OFFSET <= j < EVENT_TABLE_OFFSET + rings_span(caps, CLASS_COUNT as int)) ==> #[trigger] cur[j] == a0[j],
        same_outside(cur, next, ring_at(caps, cs[i] as int), ring_end(caps, cs[i] as int)),
        ring_published(cur, next, caps, cs[i], pcur.spec_queue(cs[i] as int), pnext.spec_queue(cs[i] as int)),
        ring_sound(next, caps, cs[i] as int),
        forall|c: int| 0 <= c < CLASS_COUNT && c != cs[i] ==> #[trigger] pnext.spec_queue(c) == pcur.spec_queue(c),
    ensures
        rings_sound(next, caps),
        forall|k: int| 0 <= k < i + 1 ==> ring_published(
            a0,
            next,
            caps,
            #[trigger] cs[k],
            p0.spec_queue(cs[k] as int),
            pnext.spec_queue(cs[k] as int),
        ),
        forall|k: int| 0 <= k < i + 1 ==> #[trigger] cs[k] < CLASS_COUNT,
        forall|c: int| 0 <= c < CLASS_COUNT && !seen(cs, i + 1, c) ==> #[trigger] untouched(a0, next, p0, pnext, caps, c),
        forall|j: int| 0 <= j < a0.len() && !(EVENT_TABLE_OFFSET <= j < EVENT_TABLE_OFFSET + rings_span(caps, CLASS_COUNT as int)) ==> #[trigger] next[j] == a0[j],
{
    let c = cs[i] as int;
    assert(!seen(cs, i, c)) by {
        if seen(cs, i, c) {
            let k = choose|k: int| 0 <= k < i && #[trigger] cs[k] == c;
            assert(cs[k] < cs[i]);
        }
    }
    assert(untouched(a0, cur, p0, pcur, caps, c));
    assert forall|d: int| 0 <= d < CLASS_COUNT && d != c implies agree_on_ring(cur, next, caps, d) by {
        lemma_rings_disjoint(cur, next, caps, c, d);
    }
    // This class's publish, stated from the start.
    lemma_published_transfer(cur, a0, next, next, caps, cs[i], pcur.spec_queue(c), pnext.spec_queue(c));
    assert(pcur.spec_queue(c) == p0.spec_queue(c));
    assert forall|d: int| 0 <= d < CLASS_COUNT implies #[trigger] ring_sound(next, caps, d) by {
        if d != c {
            lemma_agree_reads(cur, next, caps, d);
            assert(ring_sound(cur, caps, d));
        }
    }
    // What earlier classes left stays.
    assert forall|k: int| 0 <= k < i + 1 implies ring_published(
        a0,
        next,
        caps,
        #[trigger] cs[k],
        p0.spec_queue(cs[k] as int),
        pnext.spec_queue(cs[k] as int),
    ) by {
        if k < i {
            assert(cs[k] < cs[i]);
            let d = cs[k] as int;
            assert(ring_published(a0, cur, caps, cs[k], p0.spec_queue(d), pcur.spec_queue(d)));
            assert(pnext.spec_queue(d) == pcur.spec_queue(d));
            assert(agree_on_ring(cur, next, caps, d));
            assert(ring_sound(a0, caps, d));
            lemma_published_transfer(a0, a0, cur, next, caps, cs[k], p0.spec_queue(d), pcur.spec_queue(d));
        }
    }
    assert forall|d: int| 0 <= d < CLASS_COUNT && !seen(cs, i + 1, d) implies #[trigger] untouched(a0, next, p0, pnext, caps, d) by {
        assert(cs[i] != d) by {
            if cs[i] == d {
                assert(seen(cs, i + 1, d));
            }
        }
        assert(!seen(cs, i, d)) by {
            if seen(cs, i, d) {
                let k = choose|k: int| 0 <= k < i && #[trigger] cs[k] == d;
                assert(seen(cs, i + 1, d));
            }
        }
        assert(untouched(a0, cur, p0, pcur, caps, d));
        assert(agree_on_ring(cur, next, caps, d));
    }
    assert forall|j: int| 0 <= j < a0.len() && !(EVENT_TABLE_OFFSET <= j < EVENT_TABLE_OFFSET + rings_span(caps, CLASS_COUNT as int)) implies #[trigger] next[j] == a0[j] by {
        lemma_ring_span(caps, c);
        lemma_ring_geometry(caps, c);
        assert(cur[j] == a0[j]);
    }
}

fn class_list(mode: EpochMode) -> (classes: Vec<u32>)
    ensures
        classes@ == epoch_classes(mode),
        ascending(classes@),
{
    match mode {
        EpochMode::Drain { class } => {
            let v = vec![class];
            proof {
                assert(v@ =~= seq![class]);
            }
            v
        },
        _ => {
            let mut v: Vec<u32> = Vec::new();
            let mut c: u32 = 0;
            while c < CLASS_COUNT as u32
                invariant
                    c <= CLASS_COUNT,
                    v@.len() == c,
                    forall|i: int| 0 <= i < c ==> #[trigger] v@[i] == i as u32,
                decreases CLASS_COUNT - c,
            {
                v.push(c);
                c = c + 1;
            }
            proof {
                assert(v@ =~= Seq::new(CLASS_COUNT as nat, |c: int| c as u32));
            }
            v
        },
    }
}

/// Every class in `cs` was published from `a0`/`p0` into `a`/`p`, and
/// every other class's queue and ring are as they were.
pub open spec fn classes_published(a0: Seq<u8>, a: Seq<u8>, caps: Seq<u32>, p0: PostingSide, p: PostingSide, cs: Seq<u32>) -> bool {
    &&& forall|i: int| 0 <= i < cs.len() ==> #[trigger] cs[i] < CLASS_COUNT
    &&& forall|i: int| 0 <= i < cs.len() ==> ring_published(
        a0,
        a,
        caps,
        #[trigger] cs[i],
        p0.spec_queue(cs[i] as int),
        p.spec_queue(cs[i] as int),
    )
    &&& forall|c: int| 0 <= c < CLASS_COUNT && !cs.contains(c as u32) ==> #[trigger] untouched(a0, a, p0, p, caps, c)
}

/// The posting face kept everything but its queues.
pub open spec fn posting_kept(p0: PostingSide, p: PostingSide) -> bool {
    &&& p.wf()
    &&& p.spec_last_seq() == p0.spec_last_seq()
    &&& p.spec_wait() == p0.spec_wait()
    &&& forall|c: int| 0 <= c < CLASS_COUNT ==> #[trigger] p.spec_mode(c) == p0.spec_mode(c)
    &&& forall|c: int| 0 <= c < CLASS_COUNT ==> #[trigger] p.spec_subscribed(c) == p0.spec_subscribed(c)
}

/// What every step of the publish loop keeps, refused or not.
pub open spec fn publish_frame(a0: Seq<u8>, p0: PostingSide, caps: Seq<u32>, a: Seq<u8>, p: PostingSide) -> bool {
    &&& posting_kept(p0, p)
    &&& rings_sound(a, caps)
    &&& a.len() == a0.len()
    &&& forall|j: int| 0 <= j < a0.len() && !(EVENT_TABLE_OFFSET <= j < EVENT_TABLE_OFFSET + rings_span(caps, CLASS_COUNT as int)) ==> #[trigger] a[j] == a0[j]
}

/// What the publish loop knows after `i` classes: `a`/`p` hold what
/// publishing `cs[..i]` from `a0`/`p0` left, and `ds` the deliveries so far.
#[verifier::opaque]
pub open spec fn publishing(
    a0: Seq<u8>,
    p0: PostingSide,
    caps: Seq<u32>,
    cs: Seq<u32>,
    i: int,
    a: Seq<u8>,
    p: PostingSide,
    ds: Seq<Delivery>,
) -> bool {
    &&& caps.len() == CLASS_COUNT
    &&& ascending(cs)
    &&& rings_fit(caps)
    &&& EVENT_TABLE_OFFSET + rings_span(caps, CLASS_COUNT as int) <= a0.len()
    &&& forall|c: int| 0 <= c < CLASS_COUNT ==> #[trigger] ring_end(caps, c) <= a0.len()
    &&& p0.wf()
    &&& posting_kept(p0, p)
    &&& 0 <= i <= cs.len()
    &&& a.len() == a0.len()
    &&& rings_sound(a0, caps)
    &&& rings_sound(a, caps)
    &&& publish_error(a0, caps, p0, cs, 0) == publish_error(a0, caps, p0, cs, i)
    &&& publish_deliveries(a0, caps, p0, cs, 0) == ds + publish_deliveries(a0, caps, p0, cs, i)
    &&& forall|k: int| 0 <= k < i ==> ring_published(a0, a, caps, #[trigger] cs[k], p0.spec_queue(cs[k] as int), p.spec_queue(cs[k] as int))
    &&& forall|k: int| 0 <= k < i ==> #[trigger] cs[k] < CLASS_COUNT
    &&& forall|c: int| 0 <= c < CLASS_COUNT && !seen(cs, i, c) ==> #[trigger] untouched(a0, a, p0, p, caps, c)
    &&& forall|j: int| 0 <= j < a0.len() && !(EVENT_TABLE_OFFSET <= j < EVENT_TABLE_OFFSET + rings_span(caps, CLASS_COUNT as int)) ==> #[trigger] a[j] == a0[j]
}

/// Publish class `classes[i]`, appending its delivery when it had one.
#[verifier::spinoff_prover]
#[verifier::rlimit(100)]
fn publish_next(
    posting: &mut PostingSide,
    arena: &mut [u8],
    capacities: &[u32; CLASS_COUNT],
    classes: &Vec<u32>,
    i: usize,
    deliveries: &mut Vec<Delivery>,
    Ghost(a0): Ghost<Seq<u8>>,
    Ghost(p0): Ghost<PostingSide>,
) -> (r: Result<(), SessionError>)
    requires
        i < classes.len(),
        publishing(a0, p0, capacities@, classes@, i as int, old(arena)@, *old(posting), old(deliveries)@),
    ensures
        match r {
            Err(e) => publish_error(a0, capacities@, p0, classes@, 0) == Some(e) && publish_frame(
                a0,
                p0,
                capacities@,
                final(arena)@,
                *final(posting),
            ),
            Ok(()) => publishing(a0, p0, capacities@, classes@, i + 1, final(arena)@, *final(posting), final(deliveries)@),
        },
{
    let ghost caps = capacities@;
    let ghost cs = classes@;
    proof {
        reveal(publishing);
    }
    let class = classes[i];
    if class >= CLASS_COUNT as u32 {
        return Err(SessionError::Subring(SubringError::UnknownClass { class }));
    }
    let ghost cur = arena@;
    let ghost pcur = *posting;
    proof {
        let c = class as int;
        assert(publish_error(a0, caps, p0, cs, i as int) is Some ==> publish_error(a0, caps, p0, cs, 0) is Some);
        assert(!seen(cs, i as int, c)) by {
            if seen(cs, i as int, c) {
                let k = choose|k: int| 0 <= k < i && #[trigger] cs[k] == c;
                assert(cs[k] < cs[i as int]);
            }
        }
        assert(untouched(a0, cur, p0, pcur, caps, c));
        assert(ring_sound(cur, caps, c));
        lemma_agree_reads(a0, cur, caps, c);
    }
    let flushed = publish_class(posting, arena, capacities, class);
    let ghost next = arena@;
    match flushed {
        Err(e) => {
            proof {
                assert forall|c: int| 0 <= c < CLASS_COUNT implies #[trigger] posting.spec_mode(c) == p0.spec_mode(c) by {
                    assert(pcur.spec_mode(c) == p0.spec_mode(c));
                }
                assert forall|c: int| 0 <= c < CLASS_COUNT implies #[trigger] posting.spec_subscribed(c) == p0.spec_subscribed(c) by {
                    assert(pcur.spec_subscribed(c) == p0.spec_subscribed(c));
                }
            }
            Err(e)
        },
        Ok(fr) => {
            let ghost ds_before = deliveries@;
            if fr.delivered > 0 {
                deliveries.push(Delivery { class, first_slot: fr.first_slot, count: fr.delivered });
            }
            proof {
                assert(deliveries@ + publish_deliveries(a0, caps, p0, cs, i + 1) =~= ds_before
                    + publish_deliveries(a0, caps, p0, cs, i as int));
                lemma_publish_step(a0, cur, next, caps, cs, i as int, p0, pcur, *posting);
                reveal(publishing);
            }
            Ok(())
        },
    }
}

/// Publish each class in `classes`, in order: the deliveries, or the first
/// refusal.
fn publish_classes(posting: &mut PostingSide, arena: &mut [u8], capacities: &[u32; CLASS_COUNT], classes: &Vec<u32>) -> (r:
    Result<Vec<Delivery>, SessionError>)
    requires
        old(posting).wf(),
        crate::session::config::ring_capacity_error(capacities@) is None,
        arena_holds_layout(old(arena)@),
        rings_sound(old(arena)@, capacities@),
        ascending(classes@),
    ensures
        posting_kept(*old(posting), *final(posting)),
        rings_sound(final(arena)@, capacities@),
        final(arena)@.len() == old(arena)@.len(),
        forall|j: int| 0 <= j < old(arena)@.len() && !(EVENT_TABLE_OFFSET <= j < EVENT_TABLE_OFFSET + rings_span(capacities@, CLASS_COUNT as int)) ==> #[trigger] final(arena)@[j] == old(arena)@[j],
        match r {
            Err(e) => publish_error(old(arena)@, capacities@, *old(posting), classes@, 0) == Some(e),
            Ok(deliveries) => {
                &&& publish_error(old(arena)@, capacities@, *old(posting), classes@, 0) is None
                &&& deliveries@ == publish_deliveries(old(arena)@, capacities@, *old(posting), classes@, 0)
                &&& classes_published(old(arena)@, final(arena)@, capacities@, *old(posting), *final(posting), classes@)
            },
        },
{
    let ghost a0 = arena@;
    let ghost p0 = *posting;
    let ghost caps = capacities@;
    let ghost cs = classes@;
    proof {
        assert(rings_span(caps, CLASS_COUNT as int) <= EVENT_TABLE_SIZE);
        assert forall|c: int| 0 <= c < CLASS_COUNT implies #[trigger] ring_end(caps, c) <= a0.len() by {
            lemma_ring_geometry(caps, c);
        }
        assert forall|c: int| 0 <= c < CLASS_COUNT && !seen(cs, 0, c) implies #[trigger] untouched(a0, a0, p0, p0, caps, c) by {
        }
    }
    let mut deliveries: Vec<Delivery> = Vec::new();
    let mut i: usize = 0;
    proof {
        assert(deliveries@ + publish_deliveries(a0, caps, p0, cs, 0) =~= publish_deliveries(a0, caps, p0, cs, 0));
        reveal(publishing);
    }
    while i < classes.len()
        invariant
            caps == capacities@,
            cs == classes@,
            a0 == old(arena)@,
            p0 == *old(posting),
            publishing(a0, p0, caps, cs, i as int, arena@, *posting, deliveries@),
        decreases cs.len() - i,
    {
        match publish_next(posting, arena, capacities, classes, i, &mut deliveries, Ghost(a0), Ghost(p0)) {
            Ok(()) => {},
            Err(e) => {
                return Err(e);
            },
        }
        i = i + 1;
    }
    proof {
        reveal(publishing);
        assert forall|c: int| 0 <= c < CLASS_COUNT && !cs.contains(c as u32) implies #[trigger] untouched(a0, arena@, p0, *posting, caps, c) by {
            assert(!seen(cs, cs.len() as int, c)) by {
                if seen(cs, cs.len() as int, c) {
                    let k = choose|k: int| 0 <= k < cs.len() && #[trigger] cs[k] == c;
                    assert(cs[k] == c as u32);
                    assert(cs.contains(c as u32));
                }
            }
        }
        assert(deliveries@ =~= deliveries@ + Seq::<Delivery>::empty());
    }
    Ok(deliveries)
}

/// What the end of publish leaves in the arena: the epoch counter and the
/// dropped rollup in `FrameState` with no fault, and the control block's
/// state `READY` (its fault words cleared when it said otherwise).
pub open spec fn epoch_stamped(a: Seq<u8>, b: Seq<u8>, frame_index: u32, dropped: u32) -> bool {
    &&& spec_frame_state(b) == (FrameStateValues { frame_index, dropped_events: dropped, fault_state: 0, last_error: 0 })
    &&& crate::bytes::all_zero(b, 0x1010, 0x1040)
    &&& le32(b, 160) == STATE_READY
    &&& le32(a, 160) != STATE_READY ==> le32(b, 164) == 0 && le32(b, 168) == 0
    &&& le32(a, 160) == STATE_READY ==> forall|j: int| 164 <= j < 172 ==> #[trigger] b[j] == a[j]
}

/// Publish an epoch: every covered class's queue into its ring (counters
/// mirrored), then the epoch counter, `FrameState`, and the control block's
/// state, put back to `READY` (fault code cleared) when it says otherwise.
/// Answers the classes that had records delivered, in class order.
#[verifier::spinoff_prover]
#[verifier::rlimit(60)]
pub fn publish(session: &mut Session, posting: &mut PostingSide, arena: &mut [u8], mode: EpochMode) -> (r: Result<
    Vec<Delivery>,
    SessionError,
>)
    requires
        session_wf(old(session)@),
        old(posting).wf(),
        arena_holds_layout(old(arena)@),
        rings_sound(old(arena)@, old(session)@.ring_capacities),
    ensures
        session_wf(final(session)@),
        posting_kept(*old(posting), *final(posting)),
        rings_sound(final(arena)@, old(session)@.ring_capacities),
        final(arena)@.len() == old(arena)@.len(),
        match r {
            Err(e) => {
                &&& publish_error(old(arena)@, old(session)@.ring_capacities, *old(posting), epoch_classes(mode), 0) == Some(e)
                &&& final(session)@ == old(session)@
            },
            Ok(deliveries) => {
                &&& publish_error(old(arena)@, old(session)@.ring_capacities, *old(posting), epoch_classes(mode), 0) is None
                &&& deliveries@ == publish_deliveries(old(arena)@, old(session)@.ring_capacities, *old(posting), epoch_classes(mode), 0)
                &&& final(session)@ == (SessionView { frame_index: old(session)@.frame_index.wrapping_add(1), ..old(session)@ })
                &&& classes_published(old(arena)@, final(arena)@, old(session)@.ring_capacities, *old(posting), *final(posting), epoch_classes(mode))
                &&& epoch_stamped(old(arena)@, final(arena)@, final(session)@.frame_index, saturate(final(posting).spec_dropped_total(CLASS_COUNT as int)))
                &&& forall|j: int| 0 <= j < old(arena)@.len() && outside_publish(old(session)@.ring_capacities, j) ==> #[trigger] final(arena)@[j] == old(arena)@[j]
            },
        },
{
    let ghost a0 = arena@;
    let capacities = *session.ring_capacities();
    let ghost caps = capacities@;
    let classes = class_list(mode);
    let deliveries = match publish_classes(posting, arena, &capacities, &classes) {
        Ok(deliveries) => deliveries,
        Err(e) => {
            return Err(e);
        },
    };
    // The epoch counter, FrameState, and the control block's state.
    let ghost published = arena@;
    session.bump_frame_index();
    let dropped = saturate_count(posting.dropped_total());
    match write_frame_state(
        arena,
        &FrameStateValues { frame_index: session.frame_index(), dropped_events: dropped, fault_state: 0, last_error: 0 },
    ) {
        Ok(()) => {},
        Err(e) => {
            return Err(SessionError::Layout(e));
        },
    }
    let ghost framed = arena@;
    if control_state(arena) != STATE_READY {
        match set_control_state(arena, STATE_READY) {
            Ok(()) => {},
            Err(e) => {
                return Err(SessionError::Layout(e));
            },
        }
        match set_control_fault_code(arena, 0) {
            Ok(()) => {},
            Err(e) => {
                return Err(SessionError::Layout(e));
            },
        }
    }
    proof {
        let fin = arena@;
        crate::bytes::lemma_le32_agree(framed, fin, 0x1000);
        crate::bytes::lemma_le32_agree(framed, fin, 0x1004);
        crate::bytes::lemma_le32_agree(framed, fin, 0x1008);
        crate::bytes::lemma_le32_agree(framed, fin, 0x100C);
        if le32(a0, 160) == STATE_READY {
            crate::bytes::lemma_le32_agree(a0, framed, 160);
        }
        lemma_stamp_keeps(a0, published, fin, caps, classes@, *old(posting), *posting);
    }
    Ok(deliveries)
}

/// The stamping writes sit below the event table, so what publishing the
/// classes left stays.
#[verifier::spinoff_prover]
proof fn lemma_stamp_keeps(a0: Seq<u8>, published: Seq<u8>, fin: Seq<u8>, caps: Seq<u32>, cs: Seq<u32>, p0: PostingSide, p: PostingSide)
    requires
        caps.len() == CLASS_COUNT,
        crate::session::config::ring_capacity_error(caps) is None,
        published.len() == a0.len(),
        fin.len() == a0.len(),
        arena_holds_layout(a0),
        forall|j: int| 0 <= j < a0.len() && j >= 0x1040 ==> #[trigger] fin[j] == published[j],
        rings_sound(published, caps),
        classes_published(a0, published, caps, p0, p, cs),
        rings_sound(a0, caps),
    ensures
        rings_sound(fin, caps),
        classes_published(a0, fin, caps, p0, p, cs),
{
    assert forall|c: int| 0 <= c < CLASS_COUNT implies agree_on_ring(published, fin, caps, c) by {
        lemma_ring_span(caps, c);
        lemma_ring_geometry(caps, c);
        assert(rings_span(caps, CLASS_COUNT as int) <= EVENT_TABLE_SIZE);
    }
    assert forall|i: int| 0 <= i < cs.len() implies ring_published(
        a0,
        fin,
        caps,
        #[trigger] cs[i],
        p0.spec_queue(cs[i] as int),
        p.spec_queue(cs[i] as int),
    ) by {
        let d = cs[i] as int;
        assert(ring_published(a0, published, caps, cs[i], p0.spec_queue(d), p.spec_queue(d)));
        lemma_published_transfer(a0, a0, published, fin, caps, cs[i], p0.spec_queue(d), p.spec_queue(d));
    }
    assert forall|c: int| 0 <= c < CLASS_COUNT implies #[trigger] ring_sound(fin, caps, c) by {
        lemma_agree_reads(published, fin, caps, c);
        assert(ring_sound(published, caps, c));
    }
    assert forall|c: int| 0 <= c < CLASS_COUNT && !cs.contains(c as u32) implies #[trigger] untouched(a0, fin, p0, p, caps, c) by {
        assert(untouched(a0, published, p0, p, caps, c));
        assert(agree_on_ring(published, fin, caps, c));
        assert forall|i: int| ring_at(caps, c) <= i < ring_end(caps, c) implies #[trigger] a0[i] == fin[i] by {
            assert(a0[i] == published[i]);
            assert(published[i] == fin[i]);
        }
    }
}

// ── invoke ────────────────────────────────────────────────────────────────
/// The guest address of slot `slot` of class `class`'s ring: the arena is
/// the guest's memory from address 0.
pub open spec fn spec_slot_address(caps: Seq<u32>, class: u32, slot: int) -> Option<u32> {
    if class >= CLASS_COUNT || slot_at(caps, class as int, slot) > u32::MAX {
        None
    } else {
        Some(slot_at(caps, class as int, slot) as u32)
    }
}

/// The guest address of a record slot, or `None` when the class does not
/// exist or the address does not fit the guest's 32-bit pointers.
pub fn slot_address(capacities: &[u32; CLASS_COUNT], class: u32, slot: u64) -> (r: Option<u32>)
    requires
        crate::session::config::ring_capacity_error(capacities@) is None,
        slot <= u32::MAX as u64 * 2,
    ensures
        r == spec_slot_address(capacities@, class, slot as int),
{
    proof {
        assert(rings_span(capacities@, CLASS_COUNT as int) <= EVENT_TABLE_SIZE);
    }
    let at = match event_subring_offset(capacities, class) {
        Ok(at) => at,
        Err(_) => {
            return None;
        },
    };
    proof {
        lemma_ring_geometry(capacities@, class as int);
    }
    let address: u64 = at as u64 + RING_HEADER_SIZE as u64 + slot * EVENT_RECORD_SIZE as u64;
    if address <= u32::MAX as u64 {
        Some(address as u32)
    } else {
        None
    }
}

/// One step of the invoke phase.
#[derive(Debug)]
pub enum Invocation {
    /// Call `onBatch(class, ptr, count)`.
    Batch { class: u32, ptr: u32, count: u32 },
    /// Call `onEvent(class, ptr)`.
    Event { class: u32, ptr: u32 },
    /// Stop the epoch with this refusal.
    Refuse(SessionError),
}

/// A class's live delivery mode; a class that does not exist is polled.
pub open spec fn delivery_mode(p: PostingSide, class: u32) -> u32 {
    if class < CLASS_COUNT {
        p.spec_mode(class as int)
    } else {
        MODE_POLLED
    }
}

/// `onEvent` for records `k..count` of a delivery, stopping at the first
/// record with no guest address.
pub open spec fn event_calls(caps: Seq<u32>, class: u32, first: int, count: int, k: int) -> Seq<Invocation>
    decreases count - k,
{
    if k >= count {
        Seq::empty()
    } else {
        match spec_slot_address(caps, class, first + k) {
            None => seq![Invocation::Refuse(SessionError::Subring(SubringError::UnknownClass { class }))],
            Some(ptr) => seq![Invocation::Event { class, ptr }] + event_calls(caps, class, first, count, k + 1),
        }
    }
}

/// The callback a session registered in its batch slot, if any.
pub open spec fn has_batch(v: SessionView) -> bool {
    v.callbacks matches Some(cb) && cb.on_batch is Some
}

/// The callback a session registered in its event slot, if any.
pub open spec fn has_event(v: SessionView) -> bool {
    v.callbacks matches Some(cb) && cb.on_event is Some
}

/// The calls one delivery makes: one `onBatch` for a batched class, one
/// `onEvent` per record for a direct one, none for a class without a live
/// callback (the guest reads its ring itself).
pub open spec fn delivery_calls(v: SessionView, p: PostingSide, caps: Seq<u32>, d: Delivery) -> Seq<Invocation> {
    let mode = delivery_mode(p, d.class);
    if mode == MODE_BATCHED && !v.disabled[0] {
        if has_batch(v) {
            match spec_slot_address(caps, d.class, d.first_slot as int) {
                Some(ptr) => seq![Invocation::Batch { class: d.class, ptr, count: d.count }],
                None => seq![Invocation::Refuse(SessionError::Subring(SubringError::UnknownClass { class: d.class }))],
            }
        } else {
            Seq::empty()
        }
    } else if mode == MODE_DIRECT && !v.disabled[1] {
        if has_event(v) {
            event_calls(caps, d.class, d.first_slot as int, d.count as int, 0)
        } else {
            Seq::empty()
        }
    } else {
        Seq::empty()
    }
}

/// Whether a list of calls ends the epoch with a refusal.
pub open spec fn ends_in_refusal(calls: Seq<Invocation>) -> bool {
    calls.len() > 0 && calls.last() is Refuse
}

/// The invoke phase for deliveries `i..`, in order, stopping at the first
/// refusal.
pub open spec fn invocation_plan(v: SessionView, p: PostingSide, caps: Seq<u32>, ds: Seq<Delivery>, i: int) -> Seq<Invocation>
    decreases ds.len() - i,
{
    if i < 0 || i >= ds.len() {
        Seq::empty()
    } else {
        let calls = delivery_calls(v, p, caps, ds[i]);
        if ends_in_refusal(calls) {
            calls
        } else {
            calls + invocation_plan(v, p, caps, ds, i + 1)
        }
    }
}

/// A slot's guest address, when it has one, is the slot's place.
proof fn lemma_slot_address(caps: Seq<u32>, class: u32, slot: int)
    requires
        0 <= slot,
    ensures
        spec_slot_address(caps, class, slot) matches Some(ptr) ==> ptr == slot_at(caps, class as int, slot),
{
    if class < CLASS_COUNT {
        lemma_rings_span_monotone(caps, 0, class as int);
    }
}

/// The `onEvent` calls for records `k..` of a delivery point at those
/// records' own slots, one after another from slot `first + k`.
proof fn lemma_event_calls_point(caps: Seq<u32>, class: u32, first: int, count: int, k: int)
    requires
        0 <= first,
        0 <= k,
    ensures
        forall|j: int|
            0 <= j < event_calls(caps, class, first, count, k).len() ==> (#[trigger] event_calls(
                caps,
                class,
                first,
                count,
                k,
            )[j] matches Invocation::Event { class: c, ptr } ==> c == class && ptr == slot_at(caps, class as int, first + k + j))
                && !(event_calls(caps, class, first, count, k)[j] is Batch),
    decreases count - k,
{
    if k < count {
        lemma_event_calls_point(caps, class, first, count, k + 1);
        let calls = event_calls(caps, class, first, count, k);
        let rest = event_calls(caps, class, first, count, k + 1);
        if let Some(here) = spec_slot_address(caps, class, first + k) {
            assert(calls == seq![Invocation::Event { class, ptr: here }] + rest);
            assert forall|j: int| 0 <= j < calls.len() implies (#[trigger] calls[j] matches Invocation::Event {
                class: c,
                ptr,
            } ==> c == class && ptr == slot_at(caps, class as int, first + k + j)) && !(calls[j] is Batch) by {
                if j > 0 {
                    assert(calls[j] == rest[j - 1]);
                    assert(first + (k + 1) + (j - 1) == first + k + j);
                    if let Invocation::Event { class: c1, ptr: p1 } = rest[j - 1] {
                        assert(c1 == class && p1 == slot_at(caps, class as int, first + (k + 1) + (j - 1)));
                    }
                } else {
                    assert(calls[0] == Invocation::Event { class, ptr: here });
                    lemma_slot_address(caps, class, first + k);
                }
            }
        }
    }
}

/// A delivery's calls point the guest at the records it delivered: an
/// `onBatch` gets the delivery's class and count and the guest address of
/// the delivery's first slot, the slot the flush wrote its first record to;
/// the `j`th `onEvent` gets the address of slot `first_slot + j`.
pub proof fn lemma_delivery_calls_point(v: SessionView, p: PostingSide, caps: Seq<u32>, d: Delivery)
    ensures
        forall|j: int|
            0 <= j < delivery_calls(v, p, caps, d).len() ==> {
                &&& (#[trigger] delivery_calls(v, p, caps, d)[j] matches Invocation::Batch { class, ptr, count } ==> class
                    == d.class && count == d.count && ptr == slot_at(caps, d.class as int, d.first_slot as int))
                &&& (delivery_calls(v, p, caps, d)[j] matches Invocation::Event { class, ptr } ==> class == d.class
                    && ptr == slot_at(caps, d.class as int, d.first_slot + j))
            },
{
    lemma_event_calls_point(caps, d.class, d.first_slot as int, d.count as int, 0);
    lemma_slot_address(caps, d.class, d.first_slot as int);
    let calls = delivery_calls(v, p, caps, d);
    let events = event_calls(caps, d.class, d.first_slot as int, d.count as int, 0);
    assert forall|j: int| 0 <= j < calls.len() implies {
        &&& (#[trigger] calls[j] matches Invocation::Batch { class, ptr, count } ==> class == d.class && count
            == d.count && ptr == slot_at(caps, d.class as int, d.first_slot as int))
        &&& (calls[j] matches Invocation::Event { class, ptr } ==> class == d.class && ptr == slot_at(
            caps,
            d.class as int,
            d.first_slot + j,
        ))
    } by {
        let mode = delivery_mode(p, d.class);
        if mode == MODE_BATCHED && !v.disabled[0] {
            if has_batch(v) {
                if let Some(ptr) = spec_slot_address(caps, d.class, d.first_slot as int) {
                    assert(calls == seq![Invocation::Batch { class: d.class, ptr, count: d.count }]);
                    assert(calls[j] == Invocation::Batch { class: d.class, ptr, count: d.count });
                    assert(ptr == slot_at(caps, d.class as int, d.first_slot as int));
                } else {
                    assert(calls[j] is Refuse);
                }
            } else {
                assert(calls.len() == 0);
            }
        } else if mode == MODE_DIRECT && !v.disabled[1] {
            if has_event(v) {
                assert(calls == events);
                assert(calls[j] == events[j]);
                assert(d.first_slot + 0 + j == d.first_slot + j);
                if let Invocation::Event { class: c1, ptr: p1 } = events[j] {
                    assert(c1 == d.class && p1 == slot_at(caps, d.class as int, d.first_slot + 0 + j));
                }
                assert(!(events[j] is Batch));
            } else {
                assert(calls.len() == 0);
            }
        } else {
            assert(calls.len() == 0);
        }
    }
}

/// Every `onBatch` an epoch makes belongs to one of its deliveries, and
/// points at that delivery's first slot with that delivery's count.
pub proof fn lemma_plan_batches_point(v: SessionView, p: PostingSide, caps: Seq<u32>, ds: Seq<Delivery>, i: int)
    ensures
        forall|j: int|
            0 <= j < invocation_plan(v, p, caps, ds, i).len() ==> (#[trigger] invocation_plan(v, p, caps, ds, i)[j] matches Invocation::Batch {
                class,
                ptr,
                count,
            } ==> exists|k: int|
                #![trigger ds[k]]
                i <= k < ds.len() && class == ds[k].class && count == ds[k].count && ptr == slot_at(
                    caps,
                    ds[k].class as int,
                    ds[k].first_slot as int,
                )),
    decreases ds.len() - i,
{
    if 0 <= i < ds.len() {
        lemma_plan_batches_point(v, p, caps, ds, i + 1);
        lemma_delivery_calls_point(v, p, caps, ds[i]);
        let calls = delivery_calls(v, p, caps, ds[i]);
        let plan = invocation_plan(v, p, caps, ds, i);
        let rest = invocation_plan(v, p, caps, ds, i + 1);
        assert forall|j: int| 0 <= j < plan.len() implies (#[trigger] plan[j] matches Invocation::Batch {
            class,
            ptr,
            count,
        } ==> exists|k: int|
            #![trigger ds[k]]
            i <= k < ds.len() && class == ds[k].class && count == ds[k].count && ptr == slot_at(
                caps,
                ds[k].class as int,
                ds[k].first_slot as int,
            )) by {
            if j < calls.len() {
                assert(plan[j] == calls[j]);
                let _ = ds[i];
            } else {
                assert(plan[j] == rest[j - calls.len()]);
            }
        }
    }
}

/// The records the first `k` deliveries hand the guest.
pub open spec fn delivered_prefix(ds: Seq<Delivery>, k: int) -> int
    decreases k,
{
    if k <= 0 {
        0
    } else {
        delivered_prefix(ds, k - 1) + ds[k - 1].count
    }
}

/// The records an epoch's deliveries hand the guest, all told.
pub open spec fn delivered_total(ds: Seq<Delivery>) -> int {
    delivered_prefix(ds, ds.len() as int)
}

/// No ring holds more records than fit the event table.
pub proof fn lemma_capacity_bound(caps: Seq<u32>, c: int)
    requires
        caps.len() == CLASS_COUNT,
        crate::session::config::ring_capacity_error(caps) is None,
        0 <= c < CLASS_COUNT,
    ensures
        caps[c] <= 12288,
{
    lemma_rings_span_monotone(caps, 0, c);
    lemma_rings_span_monotone(caps, c + 1, CLASS_COUNT as int);
    assert(rings_span(caps, c + 1) == rings_span(caps, c) + RING_HEADER_SIZE + caps[c] * EVENT_RECORD_SIZE);
}

/// An epoch delivers at most one batch per class, each within its ring.
pub proof fn lemma_deliveries_bound(a: Seq<u8>, caps: Seq<u32>, p: PostingSide, cs: Seq<u32>, i: int)
    requires
        caps.len() == CLASS_COUNT,
        crate::session::config::ring_capacity_error(caps) is None,
        0 <= i <= cs.len(),
        forall|k: int| 0 <= k < cs.len() ==> #[trigger] cs[k] < CLASS_COUNT,
    ensures
        publish_deliveries(a, caps, p, cs, i).len() <= cs.len() - i,
        forall|k: int| 0 <= k < publish_deliveries(a, caps, p, cs, i).len() ==> #[trigger] publish_deliveries(
            a,
            caps,
            p,
            cs,
            i,
        )[k].count <= 12288,
    decreases cs.len() - i,
{
    if i < cs.len() {
        lemma_deliveries_bound(a, caps, p, cs, i + 1);
        let rest = publish_deliveries(a, caps, p, cs, i + 1);
        let all = publish_deliveries(a, caps, p, cs, i);
        match planned_flush(a, caps, cs[i], p.spec_queue(cs[i] as int)) {
            Ok(fr) => {
                if fr.delivered > 0 {
                    let c = cs[i] as int;
                    lemma_capacity_bound(caps, c);
                    let h = spec_ring_header(a, ring_at(caps, c));
                    let first = flush_first_slot(h, caps[c]);
                    assert(first >= 0);
                    assert(fr.delivered <= caps[c]);
                    assert forall|k: int| 0 <= k < all.len() implies #[trigger] all[k].count <= 12288 by {
                        if k > 0 {
                            assert(all[k] == rest[k - 1]);
                        }
                    }
                }
            },
            Err(_) => {},
        }
    }
}

fn event_invocations(capacities: &[u32; CLASS_COUNT], d: Delivery, out: &mut Vec<Invocation>) -> (refused: bool)
    requires
        crate::session::config::ring_capacity_error(capacities@) is None,
    ensures
        final(out)@ == old(out)@ + event_calls(capacities@, d.class, d.first_slot as int, d.count as int, 0),
        refused == ends_in_refusal(event_calls(capacities@, d.class, d.first_slot as int, d.count as int, 0)),
{
    let ghost start = old(out)@;
    let mut k: u32 = 0;
    while k < d.count
        invariant
            crate::session::config::ring_capacity_error(capacities@) is None,
            start == old(out)@,
            k <= d.count,
            out@ + event_calls(capacities@, d.class, d.first_slot as int, d.count as int, k as int) == start
                + event_calls(capacities@, d.class, d.first_slot as int, d.count as int, 0),
            !ends_in_refusal(event_calls(capacities@, d.class, d.first_slot as int, d.count as int, k as int))
                ==> !ends_in_refusal(event_calls(capacities@, d.class, d.first_slot as int, d.count as int, 0)),
            ends_in_refusal(event_calls(capacities@, d.class, d.first_slot as int, d.count as int, k as int))
                ==> ends_in_refusal(event_calls(capacities@, d.class, d.first_slot as int, d.count as int, 0)),
        decreases d.count - k,
    {
        let ghost before = out@;
        let ghost rest = event_calls(capacities@, d.class, d.first_slot as int, d.count as int, k as int + 1);
        match slot_address(capacities, d.class, d.first_slot as u64 + k as u64) {
            Some(ptr) => {
                out.push(Invocation::Event { class: d.class, ptr });
                proof {
                    let here = event_calls(capacities@, d.class, d.first_slot as int, d.count as int, k as int);
                    assert(here == seq![Invocation::Event { class: d.class, ptr }] + rest);
                    assert(out@ + rest =~= before + here);
                    if rest.len() > 0 {
                        assert(here.last() == rest.last());
                    }
                }
            },
            None => {
                out.push(Invocation::Refuse(SessionError::Subring(SubringError::UnknownClass { class: d.class })));
                proof {
                    let here = event_calls(capacities@, d.class, d.first_slot as int, d.count as int, k as int);
                    assert(out@ =~= before + here);
                }
                return true;
            },
        }
        k = k + 1;
    }
    proof {
        assert(out@ =~= out@ + Seq::<Invocation>::empty());
    }
    false
}

/// The invoke phase, as the calls the host makes in order: publishing is
/// complete before the first of them.
pub fn plan_invocations(session: &Session, posting: &PostingSide, deliveries: &Vec<Delivery>) -> (plan: Vec<
    Invocation,
>)
    requires
        session_wf(session@),
        posting.wf(),
    ensures
        plan@ == invocation_plan(session@, *posting, session@.ring_capacities, deliveries@, 0),
{
    let capacities = session.ring_capacities();
    let ghost v = session@;
    let ghost caps = capacities@;
    let ghost ds = deliveries@;
    let mut plan: Vec<Invocation> = Vec::new();
    let mut i: usize = 0;
    while i < deliveries.len()
        invariant
            v == session@,
            caps == capacities@,
            caps == v.ring_capacities,
            session_wf(v),
            posting.wf(),
            ds == deliveries@,
            i <= ds.len(),
            plan@ + invocation_plan(v, *posting, caps, ds, i as int) == invocation_plan(v, *posting, caps, ds, 0),
        decreases ds.len() - i,
    {
        let d = deliveries[i];
        let mode = match posting.mode(d.class) {
            Some(mode) => mode,
            None => MODE_POLLED,
        };
        let ghost before = plan@;
        let ghost calls = delivery_calls(v, *posting, caps, d);
        let callbacks = session.callbacks();
        if mode == MODE_BATCHED && !session.slot_disabled(0) {
            let registered = match callbacks {
                Some(resolved) => resolved.on_batch.is_some(),
                None => false,
            };
            if registered {
                match slot_address(capacities, d.class, d.first_slot as u64) {
                    Some(ptr) => {
                        plan.push(Invocation::Batch { class: d.class, ptr, count: d.count });
                    },
                    None => {
                        plan.push(Invocation::Refuse(SessionError::Subring(SubringError::UnknownClass { class: d.class })));
                        proof {
                            assert(plan@ =~= before + calls);
                        }
                        return plan;
                    },
                }
            }
        } else if mode == MODE_DIRECT && !session.slot_disabled(1) {
            let registered = match callbacks {
                Some(resolved) => resolved.on_event.is_some(),
                None => false,
            };
            if registered {
                if event_invocations(capacities, d, &mut plan) {
                    return plan;
                }
            }
        }
        proof {
            assert(plan@ =~= before + calls);
            assert(!ends_in_refusal(calls));
            assert(plan@ + invocation_plan(v, *posting, caps, ds, i + 1) =~= before + invocation_plan(
                v,
                *posting,
                caps,
                ds,
                i as int,
            ));
        }
        i = i + 1;
    }
    proof {
        assert(plan@ =~= plan@ + Seq::<Invocation>::empty());
    }
    plan
}

// ── a trapping callback ───────────────────────────────────────────────────
/// A callback trapped: disable its slot for the session's lifetime, fault
/// the session, and publish the fault — `FrameState` names the slot, the
/// control block says `FAULTED` with `-EIO` — before the caller sees the
/// refusal it answers with.
pub fn fault_from_trap(
    session: &mut Session,
    posting: &PostingSide,
    arena: &mut [u8],
    slot_index: u32,
    slot: &'static str,
) -> (e: SessionError)
    requires
        session_wf(old(session)@),
        posting.wf(),
        arena_holds_layout(old(arena)@),
    ensures
        e == (SessionError::CallbackTrap { slot }),
        session_wf(final(session)@),
        final(session)@ == (SessionView {
            state: SessionState::Faulted,
            disabled: if slot_index < 2 { old(session)@.disabled.update(slot_index as int, true) } else { old(session)@.disabled },
            ..old(session)@
        }),
        spec_frame_state(final(arena)@) == (FrameStateValues {
            frame_index: old(session)@.frame_index,
            dropped_events: saturate(posting.spec_dropped_total(CLASS_COUNT as int)),
            fault_state: FAULT_CALLBACK_TRAP,
            last_error: slot_index,
        }),
        le32(final(arena)@, 160) == STATE_FAULTED,
        le32(final(arena)@, 164) == (EIO as u32),
        le32(final(arena)@, 168) == 0,
        final(arena)@.len() == old(arena)@.len(),
        forall|j: int| 0 <= j < old(arena)@.len() && !(0x1000 <= j < 0x1040) && !(160 <= j < 172) ==> #[trigger] final(arena)@[j] == old(arena)@[j],
{
    session.disable_slot(slot_index);
    session.fault();
    let dropped = saturate_count(posting.dropped_total());
    let _ = write_frame_state(
        arena,
        &FrameStateValues {
            frame_index: session.frame_index(),
            dropped_events: dropped,
            fault_state: FAULT_CALLBACK_TRAP,
            last_error: slot_index,
        },
    );
    let ghost framed = arena@;
    let _ = set_control_state(arena, STATE_FAULTED);
    let ghost stated = arena@;
    let _ = set_control_fault_code(arena, EIO);
    proof {
        let fin = arena@;
        crate::bytes::lemma_le32_agree(framed, fin, 0x1000);
        crate::bytes::lemma_le32_agree(framed, fin, 0x1004);
        crate::bytes::lemma_le32_agree(framed, fin, 0x1008);
        crate::bytes::lemma_le32_agree(framed, fin, 0x100C);
        crate::bytes::lemma_le32_agree(stated, fin, 160);
    }
    SessionError::CallbackTrap { slot }
}

} // verus!
