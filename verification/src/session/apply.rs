//! Deferred submission: the pending list a callback writes into, and the
//! bookkeeping of the apply phase that drains it.
//!
//! A `queue_*` verb called from inside a callback cannot do its work there, so
//! the session copies the arguments at the moment of the call and applies them
//! in the next epoch's apply phase. A full queue is `-ENOSPC` to the caller,
//! synchronously; a trap does not clear the queue.

use vstd::prelude::*;

use std::collections::VecDeque;

use crate::bytes::{le64, store_u64};
use crate::session::arena::CLASS_SUBMISSION_REJECTED;

verus! {

/// One import argument, as the adapter ABI's value union carries it. The two
/// float kinds travel as their IEEE-754 bit patterns.
#[derive(Clone, Copy, Debug, PartialEq, Eq, Structural)]
pub enum Slot {
    I32(i32),
    I64(i64),
    F32(u32),
    F64(u64),
}

/// One submission the session will apply later: which adapter's verb, the
/// arguments exactly as the import received them, and how many there were.
#[derive(Clone, Debug, PartialEq, Eq)]
pub struct PendingSubmission {
    /// Which loaded adapter registered the verb.
    pub adapter_index: u32,
    /// The adapter's own verb id, which is what its `apply` switches on.
    pub verb_id: u32,
    /// The arguments, in the encoding `encode_slots` writes.
    pub bytes: Vec<u8>,
    /// How many argument slots `bytes` holds.
    pub nargs: u32,
}

/// The pending list: bounded and first-in, first-out.
#[derive(Debug)]
pub struct PendingQueue {
    entries: VecDeque<PendingSubmission>,
    capacity: u32,
}

impl PendingQueue {
    /// The bound a session starts with.
    pub const DEFAULT_CAPACITY: u32 = 256;

    /// The submissions waiting, oldest first.
    pub closed spec fn pending(&self) -> Seq<PendingSubmission> {
        self.entries@
    }

    /// The queue's bound.
    pub closed spec fn bound(&self) -> nat {
        self.capacity as nat
    }

    /// The queue never holds more than its bound, and the bound is at least
    /// one.
    pub closed spec fn wf(&self) -> bool {
        &&& self.capacity >= 1
        &&& self.entries@.len() <= self.capacity
    }

    /// An empty queue at the default bound.
    pub fn new() -> (q: PendingQueue)
        ensures
            q.wf(),
            q.pending() == Seq::<PendingSubmission>::empty(),
            q.bound() == Self::DEFAULT_CAPACITY,
            q.bound() >= 1,
    {
        PendingQueue::with_capacity(PendingQueue::DEFAULT_CAPACITY)
    }

    /// An empty queue bounded at `capacity`, or at one if that is zero.
    pub fn with_capacity(capacity: u32) -> (q: PendingQueue)
        ensures
            q.wf(),
            q.pending() == Seq::<PendingSubmission>::empty(),
            q.bound() == (if capacity == 0 { 1 } else { capacity }),
            q.bound() >= 1,
    {
        PendingQueue {
            entries: VecDeque::new(),
            capacity: if capacity < 1 { 1 } else { capacity },
        }
    }

    /// Append one submission, or refuse because the queue is full. `Err(())`
    /// is the `-ENOSPC` the caller hears: nothing about the refused submission
    /// is remembered.
    pub fn push(&mut self, submission: PendingSubmission) -> (r: Result<(), ()>)
        requires
            old(self).wf(),
        ensures
            final(self).wf(),
            final(self).bound() == old(self).bound(),
            final(self).bound() >= 1,
            r is Err <==> old(self).pending().len() >= old(self).bound(),
            r is Err ==> final(self).pending() == old(self).pending(),
            r is Ok ==> final(self).pending() == old(self).pending().push(submission),
    {
        if self.entries.len() >= self.capacity as usize {
            return Err(());
        }
        self.entries.push_back(submission);
        Ok(())
    }

    /// Take everything pending, oldest first, leaving the queue empty.
    pub fn drain(&mut self) -> (taken: Vec<PendingSubmission>)
        requires
            old(self).wf(),
        ensures
            final(self).wf(),
            final(self).bound() == old(self).bound(),
            final(self).bound() >= 1,
            taken@ == old(self).pending(),
            final(self).pending() == Seq::<PendingSubmission>::empty(),
    {
        let mut taken: Vec<PendingSubmission> = Vec::new();
        while self.entries.len() > 0
            invariant
                self.capacity == old(self).capacity,
                taken@ + self.entries@ == old(self).entries@,
            decreases self.entries@.len(),
        {
            let ghost before = self.entries@;
            match self.entries.pop_front() {
                Some(entry) => {
                    taken.push(entry);
                    proof {
                        assert(taken@ + self.entries@ =~= old(self).entries@) by {
                            assert(before == seq![entry] + self.entries@);
                        }
                    }
                },
                None => {},
            }
        }
        proof {
            assert(taken@ =~= old(self).entries@);
        }
        taken
    }

    /// How many submissions are waiting: what `session_pending` reports.
    pub fn len(&self) -> (n: u32)
        requires
            self.wf(),
        ensures
            n == self.pending().len(),
    {
        self.entries.len() as u32
    }

    /// Whether nothing is waiting.
    pub fn is_empty(&self) -> (b: bool)
        ensures
            b == (self.pending().len() == 0),
    {
        self.entries.len() == 0
    }

    /// The queue's bound.
    pub fn capacity(&self) -> (c: u32)
        ensures
            c == self.bound(),
    {
        self.capacity
    }
}

impl Default for PendingQueue {
    fn default() -> (q: PendingQueue)
        ensures
            q.wf(),
            q.pending() == Seq::<PendingSubmission>::empty(),
            q.bound() == PendingQueue::DEFAULT_CAPACITY,
    {
        PendingQueue::new()
    }
}

/// The eight-byte word a slot travels as: the payload in the bytes its type
/// uses and the rest zero (an `i32`'s upper half is zero, not sign-extended).
pub open spec fn slot_word(slot: Slot) -> u64 {
    match slot {
        Slot::I32(v) => (v as u32) as u64,
        Slot::I64(v) => v as u64,
        Slot::F32(bits) => bits as u64,
        Slot::F64(bits) => bits,
    }
}

fn slot_to_word(slot: Slot) -> (w: u64)
    ensures
        w == slot_word(slot),
{
    match slot {
        Slot::I32(v) => (v as u32) as u64,
        Slot::I64(v) => v as u64,
        Slot::F32(bits) => bits as u64,
        Slot::F64(bits) => bits,
    }
}

/// Serialize one import's arguments into the bytes an adapter's `apply`
/// reads: eight bytes per slot, little-endian, in the order received.
pub fn encode_slots(slots: &[Slot]) -> (bytes: Vec<u8>)
    requires
        8 * slots@.len() <= usize::MAX,
    ensures
        bytes@.len() == 8 * slots@.len(),
        forall|i: int| 0 <= i < slots@.len() ==> #[trigger] le64(bytes@, 8 * i) == slot_word(slots@[i]) as int,
{
    let n = slots.len();
    let mut bytes: Vec<u8> = vec![0u8; 8 * n];
    let s = bytes.as_mut_slice();
    let mut i: usize = 0;
    while i < n
        invariant
            n == slots@.len(),
            8 * n <= usize::MAX,
            i <= n,
            s@.len() == 8 * n,
            forall|j: int| 0 <= j < i ==> #[trigger] le64(s@, 8 * j) == slot_word(slots@[j]) as int,
        decreases n - i,
    {
        let ghost before = s@;
        store_u64(s, 8 * i, slot_to_word(slots[i]));
        proof {
            assert forall|j: int| 0 <= j < i + 1 implies #[trigger] le64(s@, 8 * j) == slot_word(slots@[j]) as int by {
                if j < i {
                    crate::bytes::lemma_le64_agree(before, s@, 8 * j);
                }
            }
        }
        i = i + 1;
    }
    bytes
}

/// What one apply phase did.
#[derive(Copy, Clone, Debug, Default, PartialEq, Eq, Structural)]
pub struct ApplyReport {
    /// Submissions the adapter accepted (its `apply` returned 0).
    pub applied: u32,
    /// Submissions the adapter refused; each became a `SUBMISSION_REJECTED`.
    pub rejected: u32,
    /// Submissions dropped without being handed to an adapter.
    pub dropped: u32,
}

/// How one pending submission fared in the apply phase.
#[derive(Copy, Clone, Debug, PartialEq, Eq, Structural)]
pub enum ApplyOutcome {
    /// No loaded adapter has the submission's index.
    NoSuchAdapter,
    /// The adapter registered no `apply` hook.
    NoApplyHook,
    /// The hook ran and answered this status.
    Status(i32),
}

impl ApplyReport {
    /// A report with nothing counted.
    pub fn empty() -> (r: ApplyReport)
        ensures
            r == (ApplyReport { applied: 0, rejected: 0, dropped: 0 }),
    {
        ApplyReport { applied: 0, rejected: 0, dropped: 0 }
    }

    /// Count one submission's outcome. The answer is whether the outcome is a
    /// refusal, which the session reports as a `SUBMISSION_REJECTED` event.
    pub fn record(&mut self, outcome: ApplyOutcome) -> (rejected: bool)
        requires
            old(self).applied < u32::MAX,
            old(self).rejected < u32::MAX,
            old(self).dropped < u32::MAX,
        ensures
            rejected == (outcome matches ApplyOutcome::Status(s) && s != 0),
            *final(self) == (match outcome {
                ApplyOutcome::NoSuchAdapter | ApplyOutcome::NoApplyHook => ApplyReport {
                    dropped: (old(self).dropped + 1) as u32,
                    ..*old(self)
                },
                ApplyOutcome::Status(s) => if s == 0 {
                    ApplyReport { applied: (old(self).applied + 1) as u32, ..*old(self) }
                } else {
                    ApplyReport { rejected: (old(self).rejected + 1) as u32, ..*old(self) }
                },
            }),
    {
        match outcome {
            ApplyOutcome::NoSuchAdapter | ApplyOutcome::NoApplyHook => {
                self.dropped = self.dropped + 1;
                false
            },
            ApplyOutcome::Status(status) => {
                if status == 0 {
                    self.applied = self.applied + 1;
                    false
                } else {
                    self.rejected = self.rejected + 1;
                    true
                }
            },
        }
    }
}

/// The event the session posts for a submission its adapter refused: a
/// `SUBMISSION_REJECTED` from source 0 (the session itself), carrying the
/// verb in `a` and the adapter's status in `b`.
#[derive(Copy, Clone, Debug, PartialEq, Eq, Structural)]
pub struct Rejection {
    pub source_id: u32,
    pub class_id: u32,
    pub flags: u32,
    pub a: u32,
    pub b: u32,
}

/// The rejection the session posts for verb `verb_id` refused with `status`.
pub open spec fn rejection_of(verb_id: u32, status: i32) -> Rejection {
    Rejection { source_id: 0, class_id: CLASS_SUBMISSION_REJECTED, flags: 0, a: verb_id, b: status as u32 }
}

impl ApplyReport {
    /// One submission through the apply phase: its outcome counted and, when
    /// the adapter refused it, the rejection to post for it.
    pub fn apply_one(&mut self, verb_id: u32, outcome: ApplyOutcome) -> (post: Option<Rejection>)
        requires
            old(self).applied < u32::MAX,
            old(self).rejected < u32::MAX,
            old(self).dropped < u32::MAX,
        ensures
            *final(self) == (match outcome {
                ApplyOutcome::NoSuchAdapter | ApplyOutcome::NoApplyHook => ApplyReport {
                    dropped: (old(self).dropped + 1) as u32,
                    ..*old(self)
                },
                ApplyOutcome::Status(s) => if s == 0 {
                    ApplyReport { applied: (old(self).applied + 1) as u32, ..*old(self) }
                } else {
                    ApplyReport { rejected: (old(self).rejected + 1) as u32, ..*old(self) }
                },
            }),
            post == (match outcome {
                ApplyOutcome::Status(s) => if s != 0 {
                    Some(rejection_of(verb_id, s))
                } else {
                    None
                },
                _ => None,
            }),
    {
        let rejected = self.record(outcome);
        match outcome {
            ApplyOutcome::Status(status) => if rejected {
                Some(Rejection { source_id: 0, class_id: CLASS_SUBMISSION_REJECTED, flags: 0, a: verb_id, b: status as u32 })
            } else {
                None
            },
            _ => None,
        }
    }
}

/// Sweep every in-flight job to `FAILED` in a fatal fault's publish phase.
/// This layout defines no job records yet, so there is nothing to sweep: the
/// arena is left as it is and the answer is zero jobs.
pub fn sweep_jobs_to_failed(arena_bytes: &mut [u8], reason: i32) -> (swept: u32)
    ensures
        swept == 0,
        final(arena_bytes)@ == old(arena_bytes)@,
{
    0
}

} // verus!
