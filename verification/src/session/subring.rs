//! The arena side of delivery: the ten per-class sub-rings inside
//! `EVENT_TABLE`, and the transfer that moves what the posting face queued
//! into the ring the guest reads.
//!
//! A sub-ring is a linear buffer of `capacity` slots with two counters:
//! `head`, how many records the session has written and not yet had compacted
//! away (the buffer is dense from slot 0), and `tail`, how many records the
//! guest has consumed. The guest writes `tail`; nothing here writes it except
//! `compact_subring`, which slides the live records to the front, zeroes the
//! tail and bumps the generation. A full ring with nothing reclaimed refuses
//! the append: the session never overwrites a record the guest has not
//! consumed.

use vstd::prelude::*;

use crate::bytes::{le32, same_outside};
use crate::session::arena::{
    ring_header, ring_offset, rings_span, set_ring_generation, set_ring_head, set_ring_tail,
    spec_event_record, spec_ring_header, spec_ring_offset, write_event_record, write_ring_header,
    ring_header_outcome, empty_ring_header, EventRecord, LayoutError, RingHeader, CLASS_COUNT,
    EVENT_RECORD_SIZE, EVENT_TABLE_OFFSET, RING_HEADER_SIZE
};
use crate::session::arena::layout_error_text;
use crate::session::posting::{ClassQueue, EventFields};
use crate::text::{decimal, push_decimal};
use vstd::string::StringExecFns;

verus! {

/// A refusal from the arena side.
#[derive(Copy, Clone, Debug, PartialEq, Eq, Structural)]
pub enum SubringError {
    /// No such class.
    UnknownClass { class: u32 },
    /// The sub-ring has no room: `head == capacity` and the guest has
    /// reclaimed nothing.
    Full { class: u32, capacity: u32 },
    /// The arena slice is too small for the sub-ring the capacities describe.
    Layout(LayoutError),
    /// The header's own `capacity` disagrees with the capacities the session
    /// holds: something else wrote the header.
    HeaderMismatch { class: u32, header: u32, expected: u32 },
}

impl SubringError {
    /// `-EINVAL` throughout.
    pub fn errno(&self) -> (r: i32)
        ensures
            r == -22,
    {
        -22
    }
}

/// The refusal as the session's diagnostic line prints it.
pub open spec fn subring_message(e: SubringError) -> Seq<char> {
    match e {
        SubringError::UnknownClass { class } => "class "@ + decimal(class as nat)
            + " does not exist: this chunk has 0-9"@,
        SubringError::Full { class, capacity } => "class "@ + decimal(class as nat) + "'s ring is full ("@
            + decimal(capacity as nat) + " records, none reclaimed)"@,
        SubringError::Layout(why) => "the sub-ring does not fit the arena: "@ + layout_error_text(why),
        SubringError::HeaderMismatch { class, header, expected } => "class "@ + decimal(class as nat)
            + "'s header claims capacity "@ + decimal(header as nat) + ", but the session's is "@
            + decimal(expected as nat) + ": the arena is not the one session_open wrote"@,
    }
}

impl SubringError {
    /// The refusal as the session's diagnostic line prints it.
    pub fn message(&self) -> (r: String)
        ensures
            r@ == subring_message(*self),
    {
        let mut out = String::new();
        match self {
            SubringError::UnknownClass { class } => {
                out.append("class ");
                push_decimal(&mut out, *class as u64);
                out.append(" does not exist: this chunk has 0-9");
            },
            SubringError::Full { class, capacity } => {
                out.append("class ");
                push_decimal(&mut out, *class as u64);
                out.append("'s ring is full (");
                push_decimal(&mut out, *capacity as u64);
                out.append(" records, none reclaimed)");
            },
            SubringError::Layout(why) => {
                out.append("the sub-ring does not fit the arena: ");
                let text = why.message();
                out.append(text.as_str());
            },
            SubringError::HeaderMismatch { class, header, expected } => {
                out.append("class ");
                push_decimal(&mut out, *class as u64);
                out.append("'s header claims capacity ");
                push_decimal(&mut out, *header as u64);
                out.append(", but the session's is ");
                push_decimal(&mut out, *expected as u64);
                out.append(": the arena is not the one session_open wrote");
            },
        }
        proof {
            assert(out@ =~= subring_message(*self));
        }
        out
    }
}

/// What one flush did.
#[derive(Copy, Clone, Debug, Default, PartialEq, Eq, Structural)]
pub struct FlushResult {
    /// Records appended to the class's sub-ring.
    pub delivered: u32,
    /// Records the ring had no room for.
    pub dropped: u32,
    /// The slot the first delivered record sits in.
    pub first_slot: u32,
}

// ── the geometry ──────────────────────────────────────────────────────────
/// The ten sub-rings' offsets can be computed in a `usize`.
pub open spec fn rings_fit(caps: Seq<u32>) -> bool {
    EVENT_TABLE_OFFSET + rings_span(caps, CLASS_COUNT as int) <= usize::MAX
}

/// Where class `class`'s header sits.
pub open spec fn ring_at(caps: Seq<u32>, class: int) -> int {
    spec_ring_offset(caps, class)
}

/// Where slot `k` of class `class`'s ring sits.
pub open spec fn slot_at(caps: Seq<u32>, class: int, k: int) -> int {
    ring_at(caps, class) + RING_HEADER_SIZE + EVENT_RECORD_SIZE * k
}

/// One past class `class`'s last slot.
pub open spec fn ring_end(caps: Seq<u32>, class: int) -> int {
    slot_at(caps, class, caps[class] as int)
}

/// The `n` records a ring holds from slot `from` on.
pub open spec fn ring_records(s: Seq<u8>, caps: Seq<u32>, class: int, from: int, n: int) -> Seq<EventRecord> {
    Seq::new(n as nat, |k: int| spec_event_record(s, slot_at(caps, class, from + k)))
}

proof fn lemma_span_aligned(caps: Seq<u32>, n: int)
    requires
        0 <= n,
    ensures
        rings_span(caps, n) % 32 == 0,
        rings_span(caps, n) >= 0,
    decreases n,
{
    if n > 0 {
        lemma_span_aligned(caps, n - 1);
        let c = caps[n - 1] as int;
        let prev = rings_span(caps, n - 1);
        assert((prev + 32 + c * 32) % 32 == 0) by (nonlinear_arith)
            requires
                prev % 32 == 0,
                c >= 0,
        ;
    }
}

/// A class's ring lies inside the ten rings' span, and its header is 32-byte
/// aligned.
pub proof fn lemma_ring_geometry(caps: Seq<u32>, class: int)
    requires
        0 <= class < CLASS_COUNT,
        caps.len() == CLASS_COUNT,
    ensures
        ring_at(caps, class) % 32 == 0,
        ring_end(caps, class) == EVENT_TABLE_OFFSET + rings_span(caps, class + 1),
        ring_end(caps, class) <= EVENT_TABLE_OFFSET + rings_span(caps, CLASS_COUNT as int),
        ring_at(caps, class) >= EVENT_TABLE_OFFSET,
{
    lemma_span_aligned(caps, class);
    crate::session::arena::lemma_rings_span_monotone(caps, class + 1, CLASS_COUNT as int);
    crate::session::arena::lemma_rings_span_monotone(caps, 0, class);
}

/// The byte offset of a class's `TableHeader` inside the arena, or
/// `UnknownClass` for a class past the ten.
pub fn event_subring_offset(capacities: &[u32; CLASS_COUNT], class: u32) -> (r: Result<usize, SubringError>)
    requires
        rings_fit(capacities@),
    ensures
        r == (if class >= CLASS_COUNT {
            Err(SubringError::UnknownClass { class })
        } else {
            Ok(ring_at(capacities@, class as int) as usize)
        }),
{
    if class as usize >= CLASS_COUNT {
        return Err(SubringError::UnknownClass { class });
    }
    proof {
        crate::session::arena::lemma_rings_span_monotone(capacities@, class as int, CLASS_COUNT as int);
    }
    Ok(ring_offset(capacities, class as usize))
}

/// A class's `TableHeader` and the `capacity * 32` bytes of slots behind it.
pub fn event_subring_slice<'a>(arena: &'a [u8], capacities: &[u32; CLASS_COUNT], class: u32) -> (r: Result<
    (RingHeader, &'a [u8]),
    SubringError,
>)
    requires
        rings_fit(capacities@),
    ensures
        class >= CLASS_COUNT ==> r == Err::<(RingHeader, &[u8]), SubringError>(SubringError::UnknownClass { class }),
        class < CLASS_COUNT ==> {
            let end = ring_end(capacities@, class as int);
            let start = ring_at(capacities@, class as int) + RING_HEADER_SIZE;
            &&& end > arena@.len() ==> r == Err::<(RingHeader, &[u8]), SubringError>(
                SubringError::Layout(LayoutError::BufferTooSmall { need: end as usize, have: arena@.len() as usize }),
            )
            &&& end <= arena@.len() ==> (r matches Ok((h, slots)) && h == spec_ring_header(
                arena@,
                ring_at(capacities@, class as int),
            ) && slots@ == arena@.subrange(start, end))
        },
{
    let at = event_subring_offset(capacities, class)?;
    proof {
        lemma_ring_geometry(capacities@, class as int);
    }
    let capacity = capacities[class as usize] as usize;
    let slots_at = at + RING_HEADER_SIZE;
    let slots_end = slots_at + capacity * EVENT_RECORD_SIZE;
    if slots_end > arena.len() {
        return Err(SubringError::Layout(LayoutError::BufferTooSmall { need: slots_end, have: arena.len() }));
    }
    Ok((ring_header(arena, at), &arena[slots_at..slots_end]))
}

/// Initialize one class's sub-ring header: empty, at the given capacity.
pub fn write_event_subring_header(
    arena: &mut [u8],
    capacities: &[u32; CLASS_COUNT],
    class: u32,
    capacity: u32,
) -> (r: Result<(), SubringError>)
    requires
        rings_fit(capacities@),
    ensures
        class >= CLASS_COUNT ==> r == Err::<(), SubringError>(SubringError::UnknownClass { class })
            && final(arena)@ == old(arena)@,
        class < CLASS_COUNT ==> {
            let at = ring_at(capacities@, class as int);
            &&& match ring_header_outcome(old(arena)@.len() as int, at) {
                Ok(()) => r is Ok,
                Err(e) => r == Err::<(), SubringError>(SubringError::Layout(e)),
            }
            &&& r is Ok ==> spec_ring_header(final(arena)@, at) == empty_ring_header(capacity)
            &&& r is Ok ==> same_outside(old(arena)@, final(arena)@, at, at + RING_HEADER_SIZE)
            &&& r is Err ==> final(arena)@ == old(arena)@
        },
{
    let at = event_subring_offset(capacities, class)?;
    proof {
        lemma_ring_geometry(capacities@, class as int);
    }
    match write_ring_header(arena, at, capacity) {
        Ok(()) => Ok(()),
        Err(e) => Err(SubringError::Layout(e)),
    }
}

// ── appending ─────────────────────────────────────────────────────────────
/// `b` is `a` with at most the bytes in `[lo1, hi1)` and `[lo2, hi2)`
/// changed.
pub open spec fn same_outside_two(a: Seq<u8>, b: Seq<u8>, lo1: int, hi1: int, lo2: int, hi2: int) -> bool {
    &&& a.len() == b.len()
    &&& forall|i: int| 0 <= i < a.len() && !(lo1 <= i < hi1) && !(lo2 <= i < hi2) ==> #[trigger] b[i] == a[i]
}

/// Whether `append_event_to_subring` accepts, and if not, why.
pub open spec fn append_outcome(s: Seq<u8>, caps: Seq<u32>, class: u32) -> Result<(), SubringError> {
    if class >= CLASS_COUNT {
        Err(SubringError::UnknownClass { class })
    } else {
        let at = ring_at(caps, class as int);
        let h = spec_ring_header(s, at);
        let cap = caps[class as int];
        let slot = slot_at(caps, class as int, h.head as int);
        if h.capacity != cap {
            Err(SubringError::HeaderMismatch { class, header: h.capacity, expected: cap })
        } else if h.head >= cap {
            Err(SubringError::Full { class, capacity: cap })
        } else if s.len() < slot + EVENT_RECORD_SIZE {
            Err(
                SubringError::Layout(
                    LayoutError::BufferTooSmall { need: (slot + EVENT_RECORD_SIZE) as usize, have: s.len() as usize },
                ),
            )
        } else {
            Ok(())
        }
    }
}

/// The 32 bytes at `at_a` in `a` are the 32 bytes at `at_b` in `b`, so the
/// records there read the same.
pub proof fn lemma_record_agree(a: Seq<u8>, b: Seq<u8>, at_a: int, at_b: int)
    requires
        forall|j: int| 0 <= j < EVENT_RECORD_SIZE ==> #[trigger] a[at_a + j] == b[at_b + j],
    ensures
        spec_event_record(a, at_a) == spec_event_record(b, at_b),
{
    lemma_word_agree(a, b, at_a, at_b, 0);
    lemma_word_agree(a, b, at_a, at_b, 1);
    lemma_word_agree(a, b, at_a, at_b, 2);
    lemma_word_agree(a, b, at_a, at_b, 3);
    lemma_word_agree(a, b, at_a, at_b, 4);
    lemma_word_agree(a, b, at_a, at_b, 5);
    lemma_word_agree(a, b, at_a, at_b, 6);
    lemma_word_agree(a, b, at_a, at_b, 7);
}

/// Word `w` of two records whose bytes agree reads the same.
proof fn lemma_word_agree(a: Seq<u8>, b: Seq<u8>, at_a: int, at_b: int, w: int)
    requires
        0 <= w < 8,
        forall|j: int| 0 <= j < EVENT_RECORD_SIZE ==> #[trigger] a[at_a + j] == b[at_b + j],
    ensures
        le32(a, at_a + 4 * w) == le32(b, at_b + 4 * w),
{
    assert(a[at_a + (4 * w)] == b[at_b + (4 * w)]);
    assert(a[at_a + (4 * w + 1)] == b[at_b + (4 * w + 1)]);
    assert(a[at_a + (4 * w + 2)] == b[at_b + (4 * w + 2)]);
    assert(a[at_a + (4 * w + 3)] == b[at_b + (4 * w + 3)]);
}

/// A record outside both changed ranges reads the same after the change.
pub proof fn lemma_record_kept(a: Seq<u8>, b: Seq<u8>, lo1: int, hi1: int, lo2: int, hi2: int, p: int)
    requires
        same_outside_two(a, b, lo1, hi1, lo2, hi2),
        0 <= p,
        p + EVENT_RECORD_SIZE <= a.len(),
        p + EVENT_RECORD_SIZE <= lo1 || hi1 <= p,
        p + EVENT_RECORD_SIZE <= lo2 || hi2 <= p,
    ensures
        spec_event_record(b, p) == spec_event_record(a, p),
{
    assert forall|j: int| 0 <= j < EVENT_RECORD_SIZE implies #[trigger] b[p + j] == a[p + j] by {
        assert(0 <= p + j < a.len());
    }
    lemma_record_agree(b, a, p, p);
}

/// Two buffers that agree on a header's 32 bytes read the same header there.
pub proof fn lemma_header_agree(a: Seq<u8>, b: Seq<u8>, at: int)
    requires
        forall|i: int| at <= i < at + RING_HEADER_SIZE ==> a[i] == b[i],
    ensures
        spec_ring_header(a, at) == spec_ring_header(b, at),
{
    crate::bytes::lemma_le32_agree(a, b, at);
    crate::bytes::lemma_le32_agree(a, b, at + 4);
    crate::bytes::lemma_le32_agree(a, b, at + 8);
    crate::bytes::lemma_le32_agree(a, b, at + 12);
    crate::bytes::lemma_le32_agree(a, b, at + 16);
    crate::bytes::lemma_le32_agree(a, b, at + 20);
    crate::bytes::lemma_le64_agree(a, b, at + 24);
}

/// Append one record to a class's sub-ring, or refuse: write at slot `head`,
/// advance `head`, and never touch `tail`. A full ring is a refusal, not an
/// overwrite.
#[verifier::spinoff_prover]
#[verifier::rlimit(30)]
pub fn append_event_to_subring(
    arena: &mut [u8],
    capacities: &[u32; CLASS_COUNT],
    class: u32,
    record: &EventRecord,
) -> (r: Result<(), SubringError>)
    requires
        rings_fit(capacities@),
        class < CLASS_COUNT ==> ring_at(capacities@, class as int) + RING_HEADER_SIZE <= old(arena)@.len(),
    ensures
        r == append_outcome(old(arena)@, capacities@, class),
        r is Err ==> final(arena)@ == old(arena)@,
        r is Ok ==> {
            let at = ring_at(capacities@, class as int);
            let h = spec_ring_header(old(arena)@, at);
            let slot = slot_at(capacities@, class as int, h.head as int);
            &&& spec_event_record(final(arena)@, slot) == *record
            &&& spec_ring_header(final(arena)@, at) == (RingHeader { head: (h.head + 1) as u32, ..h })
            &&& same_outside_two(old(arena)@, final(arena)@, at, at + 4, slot, slot + EVENT_RECORD_SIZE)
        },
{
    let at = event_subring_offset(capacities, class)?;
    proof {
        lemma_ring_geometry(capacities@, class as int);
    }
    let capacity = capacities[class as usize];
    let header = ring_header(arena, at);
    if header.capacity != capacity {
        return Err(SubringError::HeaderMismatch { class, header: header.capacity, expected: capacity });
    }
    if header.head >= capacity {
        return Err(SubringError::Full { class, capacity });
    }
    proof {
        assert(slot_at(capacities@, class as int, header.head as int) + 32 <= ring_end(capacities@, class as int))
            by (nonlinear_arith)
            requires
                header.head < capacity,
                capacity == capacities@[class as int],
        ;
    }
    let slot = at + RING_HEADER_SIZE + header.head as usize * EVENT_RECORD_SIZE;
    proof {
        assert(slot % 8 == 0) by (nonlinear_arith)
            requires
                slot == at + 32 + header.head * 32,
                at % 32 == 0,
        ;
    }
    match write_event_record(arena, slot, record) {
        Ok(()) => {},
        Err(e) => {
            return Err(SubringError::Layout(e));
        },
    }
    let ghost written = arena@;
    let _ = set_ring_head(arena, at, header.head + 1);
    proof {
        let s = arena@;
        lemma_record_agree(s, written, slot as int, slot as int);
        crate::bytes::lemma_le32_agree(written, s, at + 4);
        crate::bytes::lemma_le32_agree(old(arena)@, s, at + 4);
        crate::bytes::lemma_le32_agree(old(arena)@, s, at + 8);
        crate::bytes::lemma_le32_agree(old(arena)@, s, at + 12);
        crate::bytes::lemma_le32_agree(old(arena)@, s, at + 16);
        crate::bytes::lemma_le32_agree(old(arena)@, s, at + 20);
        crate::bytes::lemma_le64_agree(old(arena)@, s, at + 24);
        crate::bytes::lemma_le32_bound(s, at as int);
    }
    Ok(())
}

// ── compaction ────────────────────────────────────────────────────────────
/// A compaction of this header moves records: the guest has reclaimed
/// something, and its tail does not run past the head.
pub open spec fn reclaims(h: RingHeader) -> bool {
    0 < h.tail <= h.head
}

/// The records a compaction would move lie inside the buffer.
pub open spec fn compaction_in_bounds(s: Seq<u8>, caps: Seq<u32>, class: u32) -> bool {
    class < CLASS_COUNT ==> {
        let at = ring_at(caps, class as int);
        let h = spec_ring_header(s, at);
        (at + RING_HEADER_SIZE <= s.len() && h.capacity == caps[class as int] && reclaims(h))
            ==> slot_at(caps, class as int, h.head as int) <= s.len()
    }
}

/// What a compaction that moves records leaves: the live records `[tail,
/// head)` slid to slot 0 byte for byte, `head` the number of live records,
/// `tail` zero, the generation bumped, and nothing else touched.
pub open spec fn compacted(a: Seq<u8>, b: Seq<u8>, caps: Seq<u32>, class: int) -> bool {
    let at = ring_at(caps, class);
    let h = spec_ring_header(a, at);
    let live = h.head - h.tail;
    let slots = at + RING_HEADER_SIZE;
    let from = slots + EVENT_RECORD_SIZE * h.tail;
    &&& forall|k: int| 0 <= k < EVENT_RECORD_SIZE * live ==> #[trigger] b[slots + k] == a[from + k]
    &&& spec_ring_header(b, at) == (RingHeader {
        head: live as u32,
        tail: 0,
        generation: h.generation.wrapping_add(1),
        ..h
    })
    &&& same_outside_two(a, b, at, at + 20, slots, slots + EVENT_RECORD_SIZE * live)
}


/// Copy `count` bytes from `from` down to `to`, front to back: a forward
/// copy is a correct move when the destination lies below the source.
fn slide_down(arena: &mut [u8], to: usize, from: usize, count: usize)
    requires
        to < from,
        from + count <= old(arena).len(),
    ensures
        final(arena)@.len() == old(arena)@.len(),
        forall|j: int| 0 <= j < count ==> #[trigger] final(arena)@[to + j] == old(arena)@[from + j],
        forall|i: int| 0 <= i < old(arena)@.len() && !(to <= i < to + count) ==> #[trigger] final(arena)@[i]
            == old(arena)@[i],
{
    let mut k: usize = 0;
    while k < count
        invariant
            to < from,
            from + count <= old(arena).len(),
            arena@.len() == old(arena)@.len(),
            k <= count,
            forall|j: int| 0 <= j < k ==> #[trigger] arena@[to + j] == old(arena)@[from + j],
            forall|i: int| 0 <= i < old(arena)@.len() && !(to <= i < to + k) ==> #[trigger] arena@[i] == old(arena)@[i],
        decreases count - k,
    {
        let byte = arena[from + k];
        arena[to + k] = byte;
        k = k + 1;
    }
}

/// Rewrite a header after a compaction: `head` is the live count, `tail`
/// zero, the generation the given one; the rest of the header is kept.
fn rebase_header(arena: &mut [u8], at: usize, live: u32, generation: u32)
    requires
        at + RING_HEADER_SIZE <= old(arena).len(),
        at % 8 == 0,
    ensures
        spec_ring_header(final(arena)@, at as int) == (RingHeader {
            head: live,
            tail: 0,
            generation,
            ..spec_ring_header(old(arena)@, at as int)
        }),
        same_outside(old(arena)@, final(arena)@, at as int, at + 20),
{
    assert(at % 4 == 0 && (at + 4) % 4 == 0 && (at + 16) % 4 == 0);
    let _ = set_ring_head(arena, at, live);
    let ghost one = arena@;
    let _ = set_ring_tail(arena, at, 0);
    let ghost two = arena@;
    let _ = set_ring_generation(arena, at, generation);
    proof {
        let a = old(arena)@;
        let b = arena@;
        crate::bytes::lemma_le32_agree(one, b, at as int);
        crate::bytes::lemma_le32_agree(two, b, at + 4);
        crate::bytes::lemma_le32_agree(a, b, at + 8);
        crate::bytes::lemma_le32_agree(a, b, at + 12);
        crate::bytes::lemma_le32_agree(a, b, at + 20);
        crate::bytes::lemma_le64_agree(a, b, at + 24);
    }
}

/// Make room in a sub-ring from what the guest has reclaimed: slide the live
/// records down to the front, set `head` to their number, zero `tail`, bump
/// the generation. Answers how many slots were freed: zero, and nothing
/// touched, when the guest has reclaimed nothing or wrote a tail past the
/// head.
pub fn compact_subring(arena: &mut [u8], capacities: &[u32; CLASS_COUNT], class: u32) -> (r: Result<u32, SubringError>)
    requires
        rings_fit(capacities@),
        class < CLASS_COUNT ==> ring_at(capacities@, class as int) + RING_HEADER_SIZE <= old(arena)@.len(),
        compaction_in_bounds(old(arena)@, capacities@, class),
    ensures
        class >= CLASS_COUNT ==> r == Err::<u32, SubringError>(SubringError::UnknownClass { class })
            && final(arena)@ == old(arena)@,
        class < CLASS_COUNT ==> {
            let at = ring_at(capacities@, class as int);
            let h = spec_ring_header(old(arena)@, at);
            let cap = capacities@[class as int];
            &&& h.capacity != cap ==> r == Err::<u32, SubringError>(
                SubringError::HeaderMismatch { class, header: h.capacity, expected: cap },
            ) && final(arena)@ == old(arena)@
            &&& h.capacity == cap && !reclaims(h) ==> r == Ok::<u32, SubringError>(0) && final(arena)@ == old(arena)@
            &&& h.capacity == cap && reclaims(h) ==> r == Ok::<u32, SubringError>(h.tail) && compacted(
                old(arena)@,
                final(arena)@,
                capacities@,
                class as int,
            )
        },
{
    let at = event_subring_offset(capacities, class)?;
    proof {
        lemma_ring_geometry(capacities@, class as int);
    }
    let capacity = capacities[class as usize];
    let header = ring_header(arena, at);
    if header.capacity != capacity {
        return Err(SubringError::HeaderMismatch { class, header: header.capacity, expected: capacity });
    }
    let head = header.head as usize;
    let tail = header.tail as usize;
    if tail == 0 || tail > head {
        return Ok(0);
    }
    let slots_at = at + RING_HEADER_SIZE;
    let live = head - tail;
    let ghost a = arena@;
    let len = arena.len();
    proof {
        assert(slots_at + 32 * head <= a.len());
        assert(a.len() == len);
        assert(32 * live <= 32 * head && 32 * tail <= 32 * head) by (nonlinear_arith)
            requires
                live + tail == head,
        ;
    }
    slide_down(arena, slots_at, slots_at + tail * EVENT_RECORD_SIZE, live * EVENT_RECORD_SIZE);
    let ghost moved = arena@;
    proof {
        lemma_header_agree(a, moved, at as int);
    }
    rebase_header(arena, at, live as u32, header.generation.wrapping_add(1));
    proof {
        let b = arena@;
        let from = slots_at + 32 * tail;
        assert forall|k: int| 0 <= k < EVENT_RECORD_SIZE * live implies #[trigger] b[slots_at + k] == a[from + k] by {
            assert(moved[slots_at + k] == a[from + k]);
        }
    }
    Ok(tail as u32)
}

// ── flushing ──────────────────────────────────────────────────────────────
/// The record a queued event becomes in class `class`'s ring: the class is
/// the ring's, never the producer's.
pub open spec fn record_of(f: EventFields, class: u32) -> EventRecord {
    EventRecord { seq: f.seq, class, flags: f.flags, a: f.a, b: f.b, f0_bits: f.f0_bits, f1_bits: f.f1_bits }
}

/// Whether a flush compacts before appending: the ring is full and the guest
/// has reclaimed something.
pub open spec fn flush_compacts(h: RingHeader, cap: u32) -> bool {
    h.head >= cap && reclaims(h)
}

/// The slot a flush starts appending at.
pub open spec fn flush_first_slot(h: RingHeader, cap: u32) -> int {
    if flush_compacts(h, cap) {
        h.head - h.tail
    } else {
        h.head as int
    }
}

/// One past the last byte a flush can change: the ring's end, or, when a
/// compaction moves more live records than the ring has slots (a header no
/// session wrote), the end of what it moves.
pub open spec fn flush_reach(h: RingHeader, cap: u32, caps: Seq<u32>, class: int) -> int {
    if flush_compacts(h, cap) && h.head - h.tail > cap {
        slot_at(caps, class, h.head - h.tail)
    } else {
        ring_end(caps, class)
    }
}

/// How many of `n` records a flush starting at slot `first` delivers.
pub open spec fn flush_delivered(first: int, cap: u32, n: int) -> int {
    if first >= cap {
        0
    } else if n <= cap - first {
        n
    } else {
        cap - first
    }
}

/// Append `records` one by one; a full ring counts a drop. Answers how many
/// were delivered and how many dropped.
#[verifier::spinoff_prover]
#[verifier::rlimit(40)]
fn append_all(arena: &mut [u8], capacities: &[u32; CLASS_COUNT], class: u32, records: &Vec<EventFields>) -> (r: (
    u32,
    u32,
))
    requires
        rings_fit(capacities@),
        class < CLASS_COUNT,
        ring_end(capacities@, class as int) <= old(arena)@.len(),
        spec_ring_header(old(arena)@, ring_at(capacities@, class as int)).capacity == capacities@[class as int],
        records@.len() <= u32::MAX,
    ensures
        ({
            let at = ring_at(capacities@, class as int);
            let h = spec_ring_header(old(arena)@, at);
            let first = h.head as int;
            let d = flush_delivered(first, capacities@[class as int], records@.len() as int);
            &&& r.0 == d
            &&& r.1 == records@.len() - d
            &&& spec_ring_header(final(arena)@, at) == (RingHeader { head: (first + d) as u32, ..h })
            &&& forall|k: int| 0 <= k < d ==> #[trigger] spec_event_record(
                final(arena)@,
                slot_at(capacities@, class as int, first + k),
            ) == record_of(records@[k], class)
            &&& same_outside_two(
                old(arena)@,
                final(arena)@,
                at,
                at + 4,
                slot_at(capacities@, class as int, first),
                slot_at(capacities@, class as int, first + d),
            )
        }),
{
    let ghost caps = capacities@;
    let ghost c = class as int;
    let ghost at = ring_at(caps, c);
    let ghost h = spec_ring_header(old(arena)@, at);
    let ghost first = h.head as int;
    let ghost cap = caps[c];
    proof {
        lemma_ring_geometry(caps, c);
    }
    let mut delivered: u32 = 0;
    let mut dropped: u32 = 0;
    let mut i: usize = 0;
    while i < records.len()
        invariant
            caps == capacities@,
            rings_fit(caps),
            0 <= c < CLASS_COUNT,
            class == c,
            at == ring_at(caps, c),
            at % 32 == 0,
            at >= 0,
            ring_end(caps, c) <= old(arena)@.len(),
            ring_end(caps, c) == slot_at(caps, c, cap as int),
            h == spec_ring_header(old(arena)@, at),
            first == h.head,
            cap == caps[c],
            h.capacity == cap,
            records@.len() <= u32::MAX,
            i <= records@.len(),
            delivered == flush_delivered(first, cap, i as int),
            dropped == i - delivered,
            spec_ring_header(arena@, at) == (RingHeader { head: (first + delivered) as u32, ..h }),
            forall|k: int| 0 <= k < delivered ==> #[trigger] spec_event_record(arena@, slot_at(caps, c, first + k))
                == record_of(records@[k], class),
            same_outside_two(old(arena)@, arena@, at, at + 4, slot_at(caps, c, first), slot_at(caps, c, first + delivered)),
        decreases records@.len() - i,
    {
        let fields = records[i];
        let record = EventRecord {
            seq: fields.seq,
            class,
            flags: fields.flags,
            a: fields.a,
            b: fields.b,
            f0_bits: fields.f0_bits,
            f1_bits: fields.f1_bits,
        };
        let ghost before = arena@;
        proof {
            if first + delivered < cap {
                let fd = first + delivered;
                assert(at + 32 + 32 * fd + 32 <= at + 32 + 32 * cap) by (nonlinear_arith)
                    requires
                        fd < cap,
                ;
            }
        }
        match append_event_to_subring(arena, capacities, class, &record) {
            Ok(()) => {
                proof {
                    let s = arena@;
                    let slot = slot_at(caps, c, first + delivered);
                    assert forall|k: int| 0 <= k < delivered + 1 implies #[trigger] spec_event_record(
                        s,
                        slot_at(caps, c, first + k),
                    ) == record_of(records@[k], class) by {
                        if k < delivered {
                            let p = slot_at(caps, c, first + k);
                            let fk = first + k;
                            let fd = first + delivered;
                            assert(at + 32 + 32 * fk + 32 <= at + 32 + 32 * fd) by (nonlinear_arith)
                                requires
                                    fk < fd,
                            ;
                            assert(fd + 1 <= cap);
                            assert(at + 32 + 32 * fd + 32 <= at + 32 + 32 * cap) by (nonlinear_arith)
                                requires
                                    fd + 1 <= cap,
                            ;
                            lemma_record_kept(before, s, at, at + 4, slot, slot + 32, p);
                        }
                    }
                }
                delivered = delivered + 1;
            },
            Err(_) => {
                dropped = dropped + 1;
            },
        }
        i = i + 1;
    }
    (delivered, dropped)
}

/// What `flush_class_to_ring` does to an arena `a` (leaving `b`) and a queue
/// `q` (leaving `q2`) for a class that exists, answering `r`.
pub open spec fn flush_outcome(
    a: Seq<u8>,
    b: Seq<u8>,
    caps_in: Seq<u32>,
    class: u32,
    q: ClassQueue,
    q2: ClassQueue,
    r: Result<FlushResult, SubringError>,
) -> bool {
            let caps = caps_in;
            let c = class as int;
            let at = ring_at(caps, c);
            let end = ring_end(caps, c);
            let h = spec_ring_header(a, at);
            let cap = caps[c];
            let events = q.waiting();
            let n = events.len() as int;
            let first = flush_first_slot(h, cap);
            let d = flush_delivered(first, cap, n);
            &&& end > a.len() ==> r == Err::<FlushResult, SubringError>(
                SubringError::Layout(LayoutError::BufferTooSmall { need: end as usize, have: a.len() as usize }),
            ) && b == a && q2 == q
            &&& end <= a.len() && q.spec_class() != class ==> r == Err::<FlushResult, SubringError>(
                SubringError::UnknownClass { class: q.spec_class() },
            ) && b == a && q2 == q
            &&& end <= a.len() && q.spec_class() == class && n == 0 ==> r == Ok::<
                FlushResult,
                SubringError,
            >(FlushResult { delivered: 0, dropped: 0, first_slot: 0 }) && b == a
                && q2.waiting() == events && q2.spec_dropped() == q.spec_dropped()
                && q2.spec_delivered() == q.spec_delivered()
            &&& end <= a.len() && q.spec_class() == class && n > 0 && h.capacity != cap ==> r == Err::<
                FlushResult,
                SubringError,
            >(SubringError::HeaderMismatch { class, header: h.capacity, expected: cap }) && b == a && q2 == q
            &&& end <= a.len() && q.spec_class() == class && n > 0 && h.capacity == cap ==> {
                &&& r == Ok::<FlushResult, SubringError>(
                    FlushResult { delivered: d as u32, dropped: (n - d) as u32, first_slot: first as u32 },
                )
                &&& q2.waiting() == Seq::<EventFields>::empty()
                &&& q2.spec_delivered() == q.spec_delivered().wrapping_add(d as u64)
                &&& q2.spec_dropped() == q.spec_dropped().wrapping_add((n - d) as u64)
                &&& forall|k: int| 0 <= k < d ==> #[trigger] spec_event_record(
                    b,
                    slot_at(caps, c, first + k),
                ) == record_of(events[k], class)
                &&& forall|k: int| 0 <= k < first && k < cap ==> #[trigger] spec_event_record(b, slot_at(caps, c, k))
                    == spec_event_record(
                    a,
                    slot_at(caps, c, if flush_compacts(h, cap) { h.tail + k } else { k }),
                )
                &&& spec_ring_header(b, at) == (RingHeader {
                    head: (first + d) as u32,
                    tail: if flush_compacts(h, cap) { 0 } else { h.tail },
                    generation: if flush_compacts(h, cap) { h.generation.wrapping_add(1) } else { h.generation },
                    ..h
                })
                &&& same_outside(a, b, at, flush_reach(h, cap, caps, c))
            }
        }

/// Drain one class's queue into its sub-ring: the publish step of an epoch.
/// The class, the geometry and the ring's header are checked, and the ring
/// made room in, before the queue is touched, so a refused flush leaves the
/// events queued. The ring is made room in once, before appending; then each
/// record is appended or, with no room, counted as dropped. Nothing is ever
/// overwritten.
#[verifier::spinoff_prover]
#[verifier::rlimit(40)]
pub fn flush_class_to_ring(
    arena: &mut [u8],
    capacities: &[u32; CLASS_COUNT],
    class: u32,
    queue: &mut ClassQueue,
) -> (r: Result<FlushResult, SubringError>)
    requires
        rings_fit(capacities@),
        old(queue).wf(),
        compaction_in_bounds(old(arena)@, capacities@, class),
    ensures
        final(queue).wf(),
        final(queue).spec_class() == old(queue).spec_class(),
        final(queue).spec_capacity() == old(queue).spec_capacity(),
        r is Err ==> *final(queue) == *old(queue),
        class >= CLASS_COUNT ==> r == Err::<FlushResult, SubringError>(SubringError::UnknownClass { class })
            && final(arena)@ == old(arena)@ && *final(queue) == *old(queue),
        class < CLASS_COUNT ==> flush_outcome(old(arena)@, final(arena)@, capacities@, class, *old(queue), *final(queue), r),
{
    match event_subring_slice(arena, capacities, class) {
        Ok(_) => {},
        Err(e) => {
            return Err(e);
        },
    }
    if queue.class() != class {
        return Err(SubringError::UnknownClass { class: queue.class() });
    }
    let ghost caps = capacities@;
    let ghost c = class as int;
    let ghost a = arena@;
    proof {
        lemma_ring_geometry(caps, c);
    }
    proof {
        queue.lemma_bounded();
    }
    if queue.is_empty() {
        return Ok(FlushResult { delivered: 0, dropped: 0, first_slot: 0 });
    }
    let at = ring_offset(capacities, class as usize);
    let header = ring_header(arena, at);
    if header.capacity != capacities[class as usize] {
        return Err(SubringError::HeaderMismatch { class, header: header.capacity, expected: capacities[class as usize] });
    }
    if header.head >= capacities[class as usize] {
        match compact_subring(arena, capacities, class) {
            Ok(_) => {},
            Err(e) => {
                return Err(e);
            },
        }
    }
    let ghost prepared = arena@;
    let first_slot = ring_header(arena, at).head;
    let records = queue.drain();
    let (delivered, dropped) = append_all(arena, capacities, class, &records);
    queue.note_flushed(delivered, dropped);
    proof {
        let h = spec_ring_header(a, at as int);
        let cap = caps[c];
        let first = first_slot as int;
        let d = delivered as int;
        let end = ring_end(caps, c);
        let fin = arena@;
        assert(first == flush_first_slot(h, cap));
        assert forall|k: int| 0 <= k < first && k < cap implies #[trigger] spec_event_record(fin, slot_at(caps, c, k))
            == spec_event_record(a, slot_at(caps, c, if flush_compacts(h, cap) { h.tail + k } else { k })) by {
            let p = slot_at(caps, c, k);
            assert(at + 32 + 32 * k + 32 <= at + 32 + 32 * first) by (nonlinear_arith)
                requires
                    k < first,
            ;
            assert(at + 32 + 32 * k + 32 <= at + 32 + 32 * cap) by (nonlinear_arith)
                requires
                    k < cap,
            ;
            lemma_record_kept(prepared, fin, at as int, at + 4, slot_at(caps, c, first), slot_at(caps, c, first + d), p);
            if flush_compacts(h, cap) {
                let from = slot_at(caps, c, h.tail + k);
                assert forall|j: int| 0 <= j < EVENT_RECORD_SIZE implies #[trigger] prepared[p + j] == a[from + j] by {
                    let slots = at + 32;
                    assert(p + j == slots + (32 * k + j));
                    assert(from + j == slots + 32 * h.tail + (32 * k + j));
                    assert(32 * k + j < 32 * (h.head - h.tail)) by (nonlinear_arith)
                        requires
                            k < h.head - h.tail,
                            0 <= j < 32,
                    ;
                }
                lemma_record_agree(prepared, a, p, from);
            }
        }
        let reach = flush_reach(h, cap, caps, c);
        if d > 0 {
            assert(at + 32 + 32 * (first + d) <= at + 32 + 32 * cap) by (nonlinear_arith)
                requires
                    first + d <= cap,
            ;
        }
        if flush_compacts(h, cap) {
            let live = h.head - h.tail;
            if live <= cap {
                assert(at + 32 + 32 * live <= at + 32 + 32 * cap) by (nonlinear_arith)
                    requires
                        live <= cap,
                ;
            }
        }
        assert forall|i: int| 0 <= i < a.len() && !(at <= i < reach) implies #[trigger] fin[i] == a[i] by {
            assert(fin[i] == prepared[i]);
        }
    }
    Ok(FlushResult { delivered, dropped, first_slot })
}

} // verus!
