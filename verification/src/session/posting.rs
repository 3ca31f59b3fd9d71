//! The posting face: the host side of an adapter's `post_event`, and the
//! per-class queues the epoch drains into the arena.
//!
//! One bounded queue per class, with a session-global sequence number
//! attached to each event as it is queued. Nothing here touches guest memory.
//! The model is sequential: whoever shares a `PostingSide` between threads
//! holds it behind one lock, which makes that lock the authority on order.

use vstd::prelude::*;

use std::collections::VecDeque;

use crate::session::arena::{CLASS_COUNT, DEFAULT_CLASS_MODES, MODE_POLLED};
use crate::session::subring::{
    compaction_in_bounds, flush_class_to_ring, flush_outcome, rings_fit, FlushResult, SubringError,
};
use crate::text::{decimal, push_decimal};
use vstd::string::StringExecFns;

verus! {

/// `-EINVAL` at this boundary.
pub const EINVAL: i32 = -22;

/// `-ENOSPC`: a class queue is full.
pub const ENOSPC: i32 = -28;

/// What a producer hands over: the payload of one event. `seq` is assigned
/// when the event is queued; `source_id` is host-side provenance. The two
/// payload floats travel as their IEEE-754 bit patterns.
#[derive(Copy, Clone, Debug, PartialEq, Eq, Structural)]
pub struct EventFields {
    pub seq: u64,
    pub source_id: u32,
    pub flags: u32,
    pub a: u32,
    pub b: u32,
    pub f0_bits: u32,
    pub f1_bits: u32,
}

/// A refusal from the posting face.
#[derive(Copy, Clone, Debug, PartialEq, Eq, Structural)]
pub enum PostError {
    /// The class's queue is full. Never blocks, never overwrites.
    QueueFull { class: u32 },
    /// No such class.
    UnknownClass { class: u32 },
    /// No such event source.
    UnknownSource { source: u32 },
}

impl PostError {
    /// The errno this refusal crosses the ABI with: `-ENOSPC` for a full
    /// queue, `-EINVAL` otherwise.
    pub fn errno(&self) -> (r: i32)
        ensures
            r == (if *self is QueueFull { ENOSPC } else { EINVAL }),
    {
        match self {
            PostError::QueueFull { .. } => ENOSPC,
            PostError::UnknownClass { .. } | PostError::UnknownSource { .. } => EINVAL,
        }
    }
}

/// The refusal as a diagnostic line prints it.
pub open spec fn post_message(e: PostError) -> Seq<char> {
    match e {
        PostError::QueueFull { class } => "class "@ + decimal(class as nat)
            + "'s queue is full: the event was not queued"@,
        PostError::UnknownClass { class } => "class "@ + decimal(class as nat)
            + " does not exist: this chunk has 0-9"@,
        PostError::UnknownSource { source } => "event source "@ + decimal(source as nat)
            + " was never registered"@,
    }
}

impl PostError {
    /// The refusal as a diagnostic line prints it.
    pub fn message(&self) -> (r: String)
        ensures
            r@ == post_message(*self),
    {
        let mut out = String::new();
        match self {
            PostError::QueueFull { class } => {
                out.append("class ");
                push_decimal(&mut out, *class as u64);
                out.append("'s queue is full: the event was not queued");
            },
            PostError::UnknownClass { class } => {
                out.append("class ");
                push_decimal(&mut out, *class as u64);
                out.append(" does not exist: this chunk has 0-9");
            },
            PostError::UnknownSource { source } => {
                out.append("event source ");
                push_decimal(&mut out, *source as u64);
                out.append(" was never registered");
            },
        }
        proof {
            assert(out@ =~= post_message(*self));
        }
        out
    }
}

/// The sequence numbers of `events` ascend strictly, and each lies in
/// `1..=last`.
pub open spec fn seqs_ordered(events: Seq<EventFields>, last: u64) -> bool {
    &&& forall|i: int, j: int| 0 <= i < j < events.len() ==> #[trigger] events[i].seq < #[trigger] events[j].seq
    &&& forall|i: int| 0 <= i < events.len() ==> 1 <= #[trigger] events[i].seq <= last
}

/// One class's queue: bounded, first-in first-out, with the two counters a
/// producer and the epoch both want to see.
#[derive(Debug)]
pub struct ClassQueue {
    class: u32,
    capacity: u32,
    events: VecDeque<EventFields>,
    dropped: u64,
    delivered: u64,
}

impl ClassQueue {
    /// The events waiting, oldest first.
    pub closed spec fn waiting(&self) -> Seq<EventFields> {
        self.events@
    }

    /// The class this queue serves.
    pub closed spec fn spec_class(&self) -> u32 {
        self.class
    }

    /// The queue's bound.
    pub closed spec fn spec_capacity(&self) -> u32 {
        self.capacity
    }

    /// Events refused or dropped, cumulative (wrapping).
    pub closed spec fn spec_dropped(&self) -> u64 {
        self.dropped
    }

    /// Events handed to the arena, cumulative (wrapping).
    pub closed spec fn spec_delivered(&self) -> u64 {
        self.delivered
    }

    /// The queue holds no more than its bound, and the bound is at least one.
    pub closed spec fn wf(&self) -> bool {
        &&& self.capacity >= 1
        &&& self.events@.len() <= self.capacity
    }

    /// A well-formed queue holds no more than its bound, which is at least one.
    pub proof fn lemma_bounded(&self)
        requires
            self.wf(),
        ensures
            self.waiting().len() <= self.spec_capacity(),
            self.spec_capacity() >= 1,
    {
    }

    /// An empty queue for `class`, bounded at `capacity` (at least one).
    pub fn new(class: u32, capacity: u32) -> (q: ClassQueue)
        ensures
            q.wf(),
            q.spec_class() == class,
            q.spec_capacity() == (if capacity == 0 { 1 } else { capacity }),
            q.waiting() == Seq::<EventFields>::empty(),
            q.spec_dropped() == 0,
            q.spec_delivered() == 0,
    {
        ClassQueue {
            class,
            capacity: if capacity < 1 { 1 } else { capacity },
            events: VecDeque::new(),
            dropped: 0,
            delivered: 0,
        }
    }

    /// The class this queue serves.
    pub fn class(&self) -> (c: u32)
        ensures
            c == self.spec_class(),
    {
        self.class
    }

    /// How many events the queue holds before it stops accepting them.
    pub fn capacity(&self) -> (c: u32)
        ensures
            c == self.spec_capacity(),
    {
        self.capacity
    }

    /// How many events are waiting.
    pub fn len(&self) -> (n: usize)
        ensures
            n == self.waiting().len(),
    {
        self.events.len()
    }

    /// Whether nothing is waiting.
    pub fn is_empty(&self) -> (b: bool)
        ensures
            b == (self.waiting().len() == 0),
    {
        self.events.len() == 0
    }

    /// Append one event, taking its sequence number: `next_seq` is advanced
    /// and the new value is the event's. A full queue is refused before the
    /// counter is touched, so a refused post consumes no sequence number; it
    /// counts a drop instead.
    pub fn push_sequenced(&mut self, next_seq: &mut u64, fields: EventFields) -> (r: Result<u64, PostError>)
        requires
            old(self).wf(),
            *old(next_seq) < u64::MAX,
        ensures
            final(self).wf(),
            final(self).spec_class() == old(self).spec_class(),
            final(self).spec_capacity() == old(self).spec_capacity(),
            final(self).spec_delivered() == old(self).spec_delivered(),
            r is Err <==> old(self).waiting().len() >= old(self).spec_capacity(),
            r is Err ==> {
                &&& r == Err::<u64, PostError>(PostError::QueueFull { class: old(self).spec_class() })
                &&& *final(next_seq) == *old(next_seq)
                &&& final(self).waiting() == old(self).waiting()
                &&& final(self).spec_dropped() == old(self).spec_dropped().wrapping_add(1)
            },
            r is Ok ==> {
                &&& r == Ok::<u64, PostError>((*old(next_seq) + 1) as u64)
                &&& *final(next_seq) == *old(next_seq) + 1
                &&& final(self).waiting() == old(self).waiting().push(
                    EventFields { seq: (*old(next_seq) + 1) as u64, ..fields },
                )
                &&& final(self).spec_dropped() == old(self).spec_dropped()
            },
    {
        if self.events.len() >= self.capacity as usize {
            self.dropped = self.dropped.wrapping_add(1);
            return Err(PostError::QueueFull { class: self.class });
        }
        *next_seq = *next_seq + 1;
        let seq = *next_seq;
        self.events.push_back(EventFields { seq, ..fields });
        Ok(seq)
    }

    /// Take everything waiting, in post order.
    pub fn drain(&mut self) -> (taken: Vec<EventFields>)
        requires
            old(self).wf(),
        ensures
            final(self).wf(),
            taken@ == old(self).waiting(),
            final(self).waiting() == Seq::<EventFields>::empty(),
            final(self).spec_class() == old(self).spec_class(),
            final(self).spec_capacity() == old(self).spec_capacity(),
            final(self).spec_dropped() == old(self).spec_dropped(),
            final(self).spec_delivered() == old(self).spec_delivered(),
    {
        let mut taken: Vec<EventFields> = Vec::new();
        while self.events.len() > 0
            invariant
                self.capacity == old(self).capacity,
                self.class == old(self).class,
                self.dropped == old(self).dropped,
                self.delivered == old(self).delivered,
                taken@ + self.events@ == old(self).events@,
            decreases self.events@.len(),
        {
            let ghost before = self.events@;
            match self.events.pop_front() {
                Some(entry) => {
                    taken.push(entry);
                    proof {
                        assert(taken@ + self.events@ =~= old(self).events@) by {
                            assert(before == seq![entry] + self.events@);
                        }
                    }
                },
                None => {},
            }
        }
        proof {
            assert(taken@ =~= old(self).events@);
        }
        taken
    }

    /// Record what one flush did with what it drained.
    pub fn note_flushed(&mut self, delivered: u32, dropped: u32)
        requires
            old(self).wf(),
        ensures
            final(self).wf(),
            final(self).spec_delivered() == old(self).spec_delivered().wrapping_add(delivered as u64),
            final(self).spec_dropped() == old(self).spec_dropped().wrapping_add(dropped as u64),
            final(self).waiting() == old(self).waiting(),
            final(self).spec_class() == old(self).spec_class(),
            final(self).spec_capacity() == old(self).spec_capacity(),
    {
        if delivered > 0 {
            self.delivered = self.delivered.wrapping_add(delivered as u64);
        }
        if dropped > 0 {
            self.dropped = self.dropped.wrapping_add(dropped as u64);
        }
    }

    /// Events this class refused or could not deliver.
    pub fn dropped(&self) -> (n: u64)
        ensures
            n == self.spec_dropped(),
    {
        self.dropped
    }

    /// Events this class handed to the arena.
    pub fn delivered(&self) -> (n: u64)
        ensures
            n == self.spec_delivered(),
    {
        self.delivered
    }
}

/// What wakes a blocked wait: the two states that are not "an event arrived".
#[derive(Copy, Clone, Debug, Default, PartialEq, Eq, Structural)]
pub struct WaitState {
    /// A fault is waiting to be delivered.
    pub pending_faults: bool,
    /// The session is closing: stop waiting, deliver nothing.
    pub shutdown: bool,
}

/// Why a wait returned.
#[derive(Copy, Clone, Debug, PartialEq, Eq, Structural)]
pub enum WaitOutcome {
    /// At least one class queue has an event.
    Events,
    /// The timeout expired with nothing to publish.
    TimedOut,
    /// A fault or a shutdown was signalled.
    WokenWithNothing,
}

/// What a waiter does on one look at the queues and the wait state: return
/// with an outcome, or sleep again (`None`). Events win over a fault or a
/// shutdown, and both win over an expired deadline.
pub open spec fn spec_wait_step(any_pending: bool, state: WaitState, deadline_passed: bool) -> Option<WaitOutcome> {
    if any_pending {
        Some(WaitOutcome::Events)
    } else if state.pending_faults || state.shutdown {
        Some(WaitOutcome::WokenWithNothing)
    } else if deadline_passed {
        Some(WaitOutcome::TimedOut)
    } else {
        None
    }
}

/// One look of a blocked wait: the decision half of `session_wait`'s loop.
pub fn wait_step(any_pending: bool, state: WaitState, deadline_passed: bool) -> (r: Option<WaitOutcome>)
    ensures
        r == spec_wait_step(any_pending, state, deadline_passed),
{
    if any_pending {
        Some(WaitOutcome::Events)
    } else if state.pending_faults || state.shutdown {
        Some(WaitOutcome::WokenWithNothing)
    } else if deadline_passed {
        Some(WaitOutcome::TimedOut)
    } else {
        None
    }
}

/// The session's posting face: ten class queues, the sequence counter they
/// share, each class's subscription and live delivery mode, and the wait
/// state a blocked `session_wait` looks at.
#[derive(Debug)]
pub struct PostingSide {
    queues: Vec<ClassQueue>,
    next_seq: u64,
    subscribed: Vec<bool>,
    modes: Vec<u32>,
    wait: WaitState,
}

impl PostingSide {
    /// The events class `c` has waiting.
    pub closed spec fn class_events(&self, c: int) -> Seq<EventFields> {
        self.queues@[c].waiting()
    }

    /// Class `c`'s queue.
    pub closed spec fn spec_queue(&self, c: int) -> ClassQueue {
        self.queues@[c]
    }

    /// The last sequence number handed out.
    pub closed spec fn spec_last_seq(&self) -> u64 {
        self.next_seq
    }

    /// Whether class `c` has a subscriber.
    pub closed spec fn spec_subscribed(&self, c: int) -> bool {
        self.subscribed@[c]
    }

    /// Class `c`'s live delivery mode.
    pub closed spec fn spec_mode(&self, c: int) -> u32 {
        self.modes@[c]
    }

    /// The wait state.
    pub closed spec fn spec_wait(&self) -> WaitState {
        self.wait
    }

    /// Ten queues, each serving its own class and well formed; within each
    /// queue the sequence numbers ascend and none exceeds the counter.
    pub closed spec fn wf(&self) -> bool {
        &&& self.queues@.len() == CLASS_COUNT
        &&& self.subscribed@.len() == CLASS_COUNT
        &&& self.modes@.len() == CLASS_COUNT
        &&& forall|c: int| 0 <= c < CLASS_COUNT ==> (#[trigger] self.queues@[c]).wf()
        &&& forall|c: int| 0 <= c < CLASS_COUNT ==> (#[trigger] self.queues@[c]).spec_class() == c
        &&& forall|c: int| 0 <= c < CLASS_COUNT ==> seqs_ordered(#[trigger] self.queues@[c].waiting(), self.next_seq)
    }

    /// A well-formed posting face's queue for class `c` is well formed and
    /// serves `c`.
    pub proof fn lemma_queue(&self, c: int)
        requires
            self.wf(),
            0 <= c < CLASS_COUNT,
        ensures
            self.spec_queue(c).wf(),
            self.spec_queue(c).spec_class() == c,
            self.class_events(c) == self.spec_queue(c).waiting(),
    {
    }

    /// Build the posting face for a set of per-class capacities: every queue
    /// empty, every class subscribed but the polled one, every mode its
    /// default, no sequence number handed out.
    pub fn new(capacities: [u32; CLASS_COUNT]) -> (p: PostingSide)
        ensures
            p.wf(),
            p.spec_last_seq() == 0,
            p.spec_wait() == (WaitState { pending_faults: false, shutdown: false }),
            forall|c: int| 0 <= c < CLASS_COUNT ==> #[trigger] p.class_events(c) == Seq::<EventFields>::empty(),
            forall|c: int| 0 <= c < CLASS_COUNT ==> (#[trigger] p.spec_queue(c)).spec_capacity()
                == (if capacities@[c] == 0 { 1 } else { capacities@[c] }),
            forall|c: int| 0 <= c < CLASS_COUNT ==> (#[trigger] p.spec_queue(c)).spec_dropped() == 0,
            forall|c: int| 0 <= c < CLASS_COUNT ==> (#[trigger] p.spec_queue(c)).spec_delivered() == 0,
            forall|c: int| 0 <= c < CLASS_COUNT ==> #[trigger] p.spec_mode(c) == DEFAULT_CLASS_MODES@[c],
            forall|c: int| 0 <= c < CLASS_COUNT ==> #[trigger] p.spec_subscribed(c) == (DEFAULT_CLASS_MODES@[c] != MODE_POLLED),
    {
        let modes_table = DEFAULT_CLASS_MODES;
        let mut queues: Vec<ClassQueue> = Vec::new();
        let mut subscribed: Vec<bool> = Vec::new();
        let mut modes: Vec<u32> = Vec::new();
        let mut class: usize = 0;
        while class < CLASS_COUNT
            invariant
                class <= CLASS_COUNT,
                modes_table@ == DEFAULT_CLASS_MODES@,
                queues@.len() == class,
                subscribed@.len() == class,
                modes@.len() == class,
                forall|c: int| 0 <= c < class ==> (#[trigger] queues@[c]).wf(),
                forall|c: int| 0 <= c < class ==> (#[trigger] queues@[c]).spec_class() == c,
                forall|c: int| 0 <= c < class ==> (#[trigger] queues@[c]).waiting() == Seq::<EventFields>::empty(),
                forall|c: int| 0 <= c < class ==> (#[trigger] queues@[c]).spec_capacity()
                    == (if capacities@[c] == 0 { 1 } else { capacities@[c] }),
                forall|c: int| 0 <= c < class ==> (#[trigger] queues@[c]).spec_dropped() == 0,
                forall|c: int| 0 <= c < class ==> (#[trigger] queues@[c]).spec_delivered() == 0,
                forall|c: int| 0 <= c < class ==> #[trigger] modes@[c] == DEFAULT_CLASS_MODES@[c],
                forall|c: int| 0 <= c < class ==> #[trigger] subscribed@[c] == (DEFAULT_CLASS_MODES@[c] != MODE_POLLED),
            decreases CLASS_COUNT - class,
        {
            queues.push(ClassQueue::new(class as u32, capacities[class]));
            subscribed.push(modes_table[class] != MODE_POLLED);
            modes.push(modes_table[class]);
            class = class + 1;
        }
        PostingSide {
            queues,
            next_seq: 0,
            subscribed,
            modes,
            wait: WaitState { pending_faults: false, shutdown: false },
        }
    }

    // ── the wait side ─────────────────────────────────────────────────────
    /// Set the shutdown flag: the session is closing.
    pub fn set_shutdown(&mut self)
        requires
            old(self).wf(),
        ensures
            final(self).wf(),
            final(self).spec_wait() == (WaitState { shutdown: true, ..old(self).spec_wait() }),
            final(self).spec_last_seq() == old(self).spec_last_seq(),
            forall|c: int| 0 <= c < CLASS_COUNT ==> #[trigger] final(self).spec_queue(c) == old(self).spec_queue(c),
    {
        self.wait.shutdown = true;
    }

    /// Set the fault flag: a fault is one of the three things that end a wait.
    pub fn signal_fault(&mut self)
        requires
            old(self).wf(),
        ensures
            final(self).wf(),
            final(self).spec_wait() == (WaitState { pending_faults: true, ..old(self).spec_wait() }),
            final(self).spec_last_seq() == old(self).spec_last_seq(),
            forall|c: int| 0 <= c < CLASS_COUNT ==> #[trigger] final(self).spec_queue(c) == old(self).spec_queue(c),
    {
        self.wait.pending_faults = true;
    }

    /// Clear the fault flag: an epoch that has delivered the fault resets it.
    pub fn clear_fault(&mut self)
        requires
            old(self).wf(),
        ensures
            final(self).wf(),
            final(self).spec_wait() == (WaitState { pending_faults: false, ..old(self).spec_wait() }),
            final(self).spec_last_seq() == old(self).spec_last_seq(),
            forall|c: int| 0 <= c < CLASS_COUNT ==> #[trigger] final(self).spec_queue(c) == old(self).spec_queue(c),
    {
        self.wait.pending_faults = false;
    }

    /// Whether a fault is waiting to be delivered.
    pub fn has_pending_faults(&self) -> (b: bool)
        ensures
            b == self.spec_wait().pending_faults,
    {
        self.wait.pending_faults
    }

    /// Clear the shutdown flag: a fresh `session_open` on a closed session.
    pub fn clear_shutdown(&mut self)
        requires
            old(self).wf(),
        ensures
            final(self).wf(),
            final(self).spec_wait() == (WaitState { shutdown: false, ..old(self).spec_wait() }),
            final(self).spec_last_seq() == old(self).spec_last_seq(),
            forall|c: int| 0 <= c < CLASS_COUNT ==> #[trigger] final(self).spec_queue(c) == old(self).spec_queue(c),
    {
        self.wait.shutdown = false;
    }

    /// Whether the session has been told to stop.
    pub fn is_shutdown(&self) -> (b: bool)
        ensures
            b == self.spec_wait().shutdown,
    {
        self.wait.shutdown
    }

    /// The wait state, for one look of a blocked wait.
    pub fn wait_state(&self) -> (w: WaitState)
        ensures
            w == self.spec_wait(),
    {
        self.wait
    }

    // ── modes and counters ────────────────────────────────────────────────
    /// A class's live delivery mode; `None` for a class that does not exist.
    pub fn mode(&self, class_id: u32) -> (r: Option<u32>)
        requires
            self.wf(),
        ensures
            r == (if class_id < CLASS_COUNT { Some(self.spec_mode(class_id as int)) } else { None::<u32> }),
    {
        if (class_id as usize) < self.modes.len() {
            Some(self.modes[class_id as usize])
        } else {
            None
        }
    }

    /// Set a class's mode and subscription in one step: what
    /// `session_subscribe` does and `session_unsubscribe` undoes.
    pub fn set_delivery(&mut self, class_id: u32, mode: u32, subscribed: bool) -> (r: Result<(), PostError>)
        requires
            old(self).wf(),
        ensures
            final(self).wf(),
            r is Err <==> class_id >= CLASS_COUNT,
            r is Err ==> r == Err::<(), PostError>(PostError::UnknownClass { class: class_id }),
            final(self).spec_last_seq() == old(self).spec_last_seq(),
            final(self).spec_wait() == old(self).spec_wait(),
            forall|c: int| 0 <= c < CLASS_COUNT ==> #[trigger] final(self).spec_queue(c) == old(self).spec_queue(c),
            forall|c: int| 0 <= c < CLASS_COUNT ==> #[trigger] final(self).spec_mode(c)
                == (if c == class_id { mode } else { old(self).spec_mode(c) }),
            forall|c: int| 0 <= c < CLASS_COUNT ==> #[trigger] final(self).spec_subscribed(c)
                == (if c == class_id { subscribed } else { old(self).spec_subscribed(c) }),
    {
        if class_id as usize >= self.modes.len() {
            return Err(PostError::UnknownClass { class: class_id });
        }
        self.modes.set(class_id as usize, mode);
        self.subscribed.set(class_id as usize, subscribed);
        Ok(())
    }

    /// The sum of every class's dropped counter (wrapping).
    pub open spec fn spec_dropped_total(&self, n: int) -> u64
        decreases n,
    {
        if n <= 0 {
            0
        } else {
            self.spec_dropped_total(n - 1).wrapping_add(self.spec_queue(n - 1).spec_dropped())
        }
    }

    /// The sum of every class's dropped counter: `FrameState.droppedEvents`.
    pub fn dropped_total(&self) -> (total: u64)
        requires
            self.wf(),
        ensures
            total == self.spec_dropped_total(CLASS_COUNT as int),
    {
        let mut total: u64 = 0;
        let mut class: usize = 0;
        while class < CLASS_COUNT
            invariant
                self.wf(),
                class <= CLASS_COUNT,
                total == self.spec_dropped_total(class as int),
            decreases CLASS_COUNT - class,
        {
            total = total.wrapping_add(self.queues[class].dropped());
            class = class + 1;
        }
        total
    }

    /// Post one event: assign its sequence number, then queue it. Never
    /// blocks on a full queue; a refused post takes no sequence number.
    pub fn post(
        &mut self,
        source_id: u32,
        class_id: u32,
        flags: u32,
        a: u32,
        b: u32,
        f0_bits: u32,
        f1_bits: u32,
    ) -> (r: Result<u64, PostError>)
        requires
            old(self).wf(),
            old(self).spec_last_seq() < u64::MAX,
        ensures
            final(self).wf(),
            final(self).spec_wait() == old(self).spec_wait(),
            forall|c: int| 0 <= c < CLASS_COUNT ==> #[trigger] final(self).spec_mode(c) == old(self).spec_mode(c),
            forall|c: int| 0 <= c < CLASS_COUNT ==> #[trigger] final(self).spec_subscribed(c) == old(self).spec_subscribed(c),
            forall|c: int| 0 <= c < CLASS_COUNT && c != class_id ==> #[trigger] final(self).spec_queue(c) == old(self).spec_queue(c),
            class_id >= CLASS_COUNT ==> {
                &&& r == Err::<u64, PostError>(PostError::UnknownClass { class: class_id })
                &&& final(self).spec_last_seq() == old(self).spec_last_seq()
            },
            class_id < CLASS_COUNT ==> {
                let q = old(self).spec_queue(class_id as int);
                let q2 = final(self).spec_queue(class_id as int);
                &&& q2.spec_capacity() == q.spec_capacity()
                &&& q2.spec_delivered() == q.spec_delivered()
                &&& if q.waiting().len() >= q.spec_capacity() {
                    &&& r == Err::<u64, PostError>(PostError::QueueFull { class: class_id })
                    &&& final(self).spec_last_seq() == old(self).spec_last_seq()
                    &&& q2.waiting() == q.waiting()
                    &&& q2.spec_dropped() == q.spec_dropped().wrapping_add(1)
                } else {
                    let seq = (old(self).spec_last_seq() + 1) as u64;
                    &&& r == Ok::<u64, PostError>(seq)
                    &&& final(self).spec_last_seq() == seq
                    &&& q2.waiting() == q.waiting().push(
                        EventFields { seq, source_id, flags, a, b, f0_bits, f1_bits },
                    )
                    &&& q2.spec_dropped() == q.spec_dropped()
                }
            },
    {
        if class_id as usize >= self.queues.len() {
            return Err(PostError::UnknownClass { class: class_id });
        }
        let c = class_id as usize;
        let ghost old_last = self.next_seq;
        let fields = EventFields { seq: 0, source_id, flags, a, b, f0_bits, f1_bits };
        let mut next = self.next_seq;
        let mut queue = self.queues.remove(c);
        let r = queue.push_sequenced(&mut next, fields);
        self.queues.insert(c, queue);
        self.next_seq = next;
        proof {
            assert forall|k: int| 0 <= k < CLASS_COUNT implies seqs_ordered(#[trigger] self.queues@[k].waiting(), self.next_seq) by {
                let ev = self.queues@[k].waiting();
                if k != c {
                    assert(self.queues@[k] == old(self).queues@[k]);
                    assert(seqs_ordered(old(self).queues@[k].waiting(), old_last));
                } else {
                    assert(seqs_ordered(old(self).queues@[k].waiting(), old_last));
                }
            }
        }
        r
    }

    /// The last sequence number handed out (0 before the first post).
    pub fn last_seq(&self) -> (s: u64)
        ensures
            s == self.spec_last_seq(),
    {
        self.next_seq
    }

    /// A class's queue capacity; `None` for a class that does not exist.
    pub fn class_capacity(&self, class_id: u32) -> (r: Option<u32>)
        requires
            self.wf(),
        ensures
            r == (if class_id < CLASS_COUNT {
                Some(self.spec_queue(class_id as int).spec_capacity())
            } else {
                None::<u32>
            }),
    {
        if (class_id as usize) < self.queues.len() {
            Some(self.queues[class_id as usize].capacity())
        } else {
            None
        }
    }

    /// A class's queue; `None` for a class that does not exist.
    pub fn queue(&self, class_id: u32) -> (r: Option<&ClassQueue>)
        requires
            self.wf(),
        ensures
            r == (if class_id < CLASS_COUNT {
                Some(&self.spec_queue(class_id as int))
            } else {
                None::<&ClassQueue>
            }),
    {
        if (class_id as usize) < self.queues.len() {
            Some(&self.queues[class_id as usize])
        } else {
            None
        }
    }

    /// Take class `class_id`'s waiting events, in post order.
    pub fn drain_class(&mut self, class_id: u32) -> (taken: Vec<EventFields>)
        requires
            old(self).wf(),
            class_id < CLASS_COUNT,
        ensures
            final(self).wf(),
            taken@ == old(self).class_events(class_id as int),
            final(self).class_events(class_id as int) == Seq::<EventFields>::empty(),
            final(self).spec_last_seq() == old(self).spec_last_seq(),
            final(self).spec_wait() == old(self).spec_wait(),
            final(self).spec_queue(class_id as int).spec_capacity() == old(self).spec_queue(class_id as int).spec_capacity(),
            final(self).spec_queue(class_id as int).spec_dropped() == old(self).spec_queue(class_id as int).spec_dropped(),
            final(self).spec_queue(class_id as int).spec_delivered() == old(self).spec_queue(class_id as int).spec_delivered(),
            forall|c: int| 0 <= c < CLASS_COUNT && c != class_id ==> #[trigger] final(self).spec_queue(c) == old(self).spec_queue(c),
            forall|c: int| 0 <= c < CLASS_COUNT ==> #[trigger] final(self).spec_mode(c) == old(self).spec_mode(c),
            forall|c: int| 0 <= c < CLASS_COUNT ==> #[trigger] final(self).spec_subscribed(c) == old(self).spec_subscribed(c),
    {
        let c = class_id as usize;
        let mut queue = self.queues.remove(c);
        let taken = queue.drain();
        self.queues.insert(c, queue);
        proof {
            assert forall|k: int| 0 <= k < CLASS_COUNT implies seqs_ordered(#[trigger] self.queues@[k].waiting(), self.next_seq) by {
                if k != c {
                    assert(self.queues@[k] == old(self).queues@[k]);
                }
            }
        }
        taken
    }

    /// Drain class `class_id`'s queue into its sub-ring: the publish step of
    /// an epoch. A class past the ten is refused with nothing touched;
    /// otherwise the flush does to the arena and the class's queue exactly
    /// what `flush_class_to_ring` does, and every other queue is untouched.
    pub fn flush_class(&mut self, arena: &mut [u8], capacities: &[u32; CLASS_COUNT], class_id: u32) -> (r: Result<
        FlushResult,
        SubringError,
    >)
        requires
            old(self).wf(),
            rings_fit(capacities@),
            compaction_in_bounds(old(arena)@, capacities@, class_id),
        ensures
            final(self).wf(),
            final(self).spec_last_seq() == old(self).spec_last_seq(),
            final(self).spec_wait() == old(self).spec_wait(),
            forall|c: int| 0 <= c < CLASS_COUNT && c != class_id ==> #[trigger] final(self).spec_queue(c) == old(self).spec_queue(c),
            forall|c: int| 0 <= c < CLASS_COUNT ==> #[trigger] final(self).spec_mode(c) == old(self).spec_mode(c),
            forall|c: int| 0 <= c < CLASS_COUNT ==> #[trigger] final(self).spec_subscribed(c) == old(self).spec_subscribed(c),
            class_id >= CLASS_COUNT ==> r == Err::<FlushResult, SubringError>(SubringError::UnknownClass { class: class_id })
                && final(arena)@ == old(arena)@ && final(self).spec_queue(class_id as int) == old(self).spec_queue(class_id as int),
            class_id < CLASS_COUNT ==> flush_outcome(
                old(arena)@,
                final(arena)@,
                capacities@,
                class_id,
                old(self).spec_queue(class_id as int),
                final(self).spec_queue(class_id as int),
                r,
            ),
            class_id < CLASS_COUNT ==> final(self).spec_queue(class_id as int).spec_capacity() == old(self).spec_queue(
                class_id as int,
            ).spec_capacity(),
    {
        if class_id as usize >= self.queues.len() {
            return Err(SubringError::UnknownClass { class: class_id });
        }
        let c = class_id as usize;
        let mut queue = self.queues.remove(c);
        let r = flush_class_to_ring(arena, capacities, class_id, &mut queue);
        self.queues.insert(c, queue);
        proof {
            assert forall|k: int| 0 <= k < CLASS_COUNT implies seqs_ordered(#[trigger] self.queues@[k].waiting(), self.next_seq) by {
                if k != c {
                    assert(self.queues@[k] == old(self).queues@[k]);
                }
            }
        }
        r
    }

    /// Record what one flush of class `class_id` did.
    pub fn note_flushed(&mut self, class_id: u32, delivered: u32, dropped: u32)
        requires
            old(self).wf(),
            class_id < CLASS_COUNT,
        ensures
            final(self).wf(),
            final(self).spec_last_seq() == old(self).spec_last_seq(),
            final(self).spec_wait() == old(self).spec_wait(),
            final(self).class_events(class_id as int) == old(self).class_events(class_id as int),
            final(self).spec_queue(class_id as int).spec_delivered()
                == old(self).spec_queue(class_id as int).spec_delivered().wrapping_add(delivered as u64),
            final(self).spec_queue(class_id as int).spec_dropped()
                == old(self).spec_queue(class_id as int).spec_dropped().wrapping_add(dropped as u64),
            final(self).spec_queue(class_id as int).spec_capacity() == old(self).spec_queue(class_id as int).spec_capacity(),
            forall|c: int| 0 <= c < CLASS_COUNT && c != class_id ==> #[trigger] final(self).spec_queue(c) == old(self).spec_queue(c),
            forall|c: int| 0 <= c < CLASS_COUNT ==> #[trigger] final(self).spec_mode(c) == old(self).spec_mode(c),
            forall|c: int| 0 <= c < CLASS_COUNT ==> #[trigger] final(self).spec_subscribed(c) == old(self).spec_subscribed(c),
    {
        let c = class_id as usize;
        let mut queue = self.queues.remove(c);
        queue.note_flushed(delivered, dropped);
        self.queues.insert(c, queue);
        proof {
            assert forall|k: int| 0 <= k < CLASS_COUNT implies seqs_ordered(#[trigger] self.queues@[k].waiting(), self.next_seq) by {
                if k != c {
                    assert(self.queues@[k] == old(self).queues@[k]);
                }
            }
        }
    }

    /// Whether anyone wants this class's events; `false` for a class that
    /// does not exist.
    pub fn is_subscribed(&self, class_id: u32) -> (b: bool)
        requires
            self.wf(),
        ensures
            b == (class_id < CLASS_COUNT && self.spec_subscribed(class_id as int)),
    {
        if (class_id as usize) < self.subscribed.len() {
            self.subscribed[class_id as usize]
        } else {
            false
        }
    }

    /// Subscribe or unsubscribe a class.
    pub fn set_subscribed(&mut self, class_id: u32, on: bool) -> (r: Result<(), PostError>)
        requires
            old(self).wf(),
        ensures
            final(self).wf(),
            r is Err <==> class_id >= CLASS_COUNT,
            r is Err ==> r == Err::<(), PostError>(PostError::UnknownClass { class: class_id }),
            final(self).spec_last_seq() == old(self).spec_last_seq(),
            final(self).spec_wait() == old(self).spec_wait(),
            forall|c: int| 0 <= c < CLASS_COUNT ==> #[trigger] final(self).spec_queue(c) == old(self).spec_queue(c),
            forall|c: int| 0 <= c < CLASS_COUNT ==> #[trigger] final(self).spec_mode(c) == old(self).spec_mode(c),
            forall|c: int| 0 <= c < CLASS_COUNT ==> #[trigger] final(self).spec_subscribed(c)
                == (if c == class_id { on } else { old(self).spec_subscribed(c) }),
    {
        if class_id as usize >= self.subscribed.len() {
            return Err(PostError::UnknownClass { class: class_id });
        }
        self.subscribed.set(class_id as usize, on);
        Ok(())
    }

    /// The classes below `n` with events waiting, ascending.
    pub open spec fn spec_pending_classes(&self, n: int) -> Seq<u32>
        decreases n,
    {
        if n <= 0 {
            Seq::empty()
        } else if self.class_events(n - 1).len() > 0 {
            self.spec_pending_classes(n - 1).push((n - 1) as u32)
        } else {
            self.spec_pending_classes(n - 1)
        }
    }

    /// Every class with events waiting, ascending by class id: the order the
    /// epoch publishes in.
    pub fn pending_classes(&self) -> (r: Vec<u32>)
        requires
            self.wf(),
        ensures
            r@ == self.spec_pending_classes(CLASS_COUNT as int),
    {
        let mut out: Vec<u32> = Vec::new();
        let mut class: usize = 0;
        while class < CLASS_COUNT
            invariant
                self.wf(),
                class <= CLASS_COUNT,
                out@ == self.spec_pending_classes(class as int),
            decreases CLASS_COUNT - class,
        {
            if !self.queues[class].is_empty() {
                out.push(class as u32);
            }
            class = class + 1;
        }
        out
    }
}

impl Default for PostingSide {
    fn default() -> (p: PostingSide)
        ensures
            p.wf(),
            p.spec_last_seq() == 0,
            forall|c: int| 0 <= c < CLASS_COUNT ==> #[trigger] p.class_events(c) == Seq::<EventFields>::empty(),
    {
        PostingSide::new(crate::session::arena::DEFAULT_RING_CAPACITIES)
    }
}

} // verus!
