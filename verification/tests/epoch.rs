use tension_core::session::arena::{
    layout_hash, read_event_record, read_frame_state, ring_header, FrameStateValues, RingHeader,
    ABI_VERSION, CALLBACKS_SIZE, DEFAULT_MAX_ARENA_SIZE, FAULT_CALLBACK_TRAP, LAYOUT_FLOOR, MODE_BATCHED,
    MODE_DIRECT, RING_HEADER_SIZE, STATE_FAULTED,
};
use tension_core::session::config;
use tension_core::session::epoch::{EpochMode, Invocation};
use tension_core::session::host::{wait_mode, SessionHost, TableEntry};
use tension_core::session::posting::PostingSide;
use tension_core::session::subring::event_subring_offset;
use tension_core::session::{
    plan_memory, MemoryImport, ResolvedCallbacks, Session, SessionState, EBADF, EBUSY, EINVAL, EIO,
    WASM_PAGE_BYTES,
};

/// Where the harness puts the config, the callbacks record and the
/// subscription in the guest's memory: above the arena, in the guest's heap.
const CFG: u32 = 8_401_152;
const CALLBACKS: u32 = 8_401_408;
const SUBSCRIPTION: u32 = 8_401_536;
const CFG_LEN: u32 = 82;
const NONCE: u64 = 0x0BAD_5EED_0000_0001;

/// What the guest's callbacks saw, in the order they ran.
#[derive(Default)]
struct Seen {
    /// `(class, ptr, count)` per `onBatch` call.
    batches: Vec<(u32, u32, u32)>,
    /// `(class, seq)` per `onEvent` call: the record's own seq, read at the
    /// pointer the call was handed.
    events: Vec<(u32, u64)>,
}

/// A guest with `session::memory` imported at 132 pages (4096 at most), its
/// arena prepared, and a host around it. Its exported table holds the batch
/// callback at index 1 and the event callback at 2.
struct Harness {
    host: SessionHost,
    memory: Vec<u8>,
    table: Vec<TableEntry>,
    seen: Seen,
    /// Whether `onBatch` traps when it is called.
    batch_traps: bool,
}

impl Harness {
    fn new(callbacks: Option<(u32, u32)>) -> Harness {
        let import = MemoryImport {
            module: "session".to_string(),
            name: "memory".to_string(),
            shared: false,
            minimum: 132,
            maximum: Some(4096),
        };
        let plan = plan_memory(&[import]).expect("a plan");
        let mut session = Session::new(plan);
        let mut memory = vec![0u8; plan.declared_min_pages as usize * WASM_PAGE_BYTES];
        session.prepare_arena(&mut memory).expect("the arena is prepared");
        session.verify_post_instantiate(&memory).expect("the arena survived instantiation");
        let mut host = SessionHost::new(PostingSide::default());
        host.install(session);

        let (ptr, len) = match callbacks {
            Some(_) => (CALLBACKS as i64, CALLBACKS_SIZE as i64),
            None => (0, 0),
        };
        let entries = vec![
            (config::KEY_ABI_VERSION, ABI_VERSION as i64),
            (config::KEY_LAYOUT_HASH, layout_hash() as i64),
            (config::KEY_ARENA_SIZE, LAYOUT_FLOOR as i64),
            (config::KEY_MAX_ARENA_SIZE, DEFAULT_MAX_ARENA_SIZE as i64),
            (config::KEY_CALLBACKS_PTR, ptr),
            (config::KEY_CALLBACKS_LEN, len),
        ];
        let tlv = config::encode(&entries);
        assert_eq!(tlv.len() as u32, CFG_LEN);
        memory[CFG as usize..CFG as usize + tlv.len()].copy_from_slice(&tlv);
        if let Some((batch, event)) = callbacks {
            let at = CALLBACKS as usize;
            memory[at..at + 2].copy_from_slice(&ABI_VERSION.to_le_bytes());
            memory[at + 2..at + 4].copy_from_slice(&2u16.to_le_bytes());
            memory[at + 8..at + 12].copy_from_slice(&batch.to_le_bytes());
            memory[at + 12..at + 16].copy_from_slice(&event.to_le_bytes());
        }
        let table = vec![
            TableEntry::Null,
            TableEntry::Func { batch_shaped: true, event_shaped: false },
            TableEntry::Func { batch_shaped: false, event_shaped: true },
            TableEntry::Null,
        ];
        Harness { host, memory, table, seen: Seen::default(), batch_traps: false }
    }

    /// `session::open(CFG, 82)`.
    fn open(&mut self) -> i32 {
        let request = match self.host.session_open_request(&self.memory, CFG, CFG_LEN) {
            Ok(request) => request,
            Err(errno) => return errno,
        };
        let resolved = match &request.record {
            Some(record) => Session::resolve_callbacks(Some(&self.table), record),
            None => Ok(ResolvedCallbacks::none()),
        };
        self.host.session_open_apply(&mut self.memory, &request, resolved, NONCE)
    }

    /// `session::subscribe` with a `Subscription` for `class` in `mode`.
    fn subscribe(&mut self, class: u32, mode: u32) -> i32 {
        let at = SUBSCRIPTION as usize;
        self.memory[at..at + 4].copy_from_slice(&class.to_le_bytes());
        self.memory[at + 4..at + 8].copy_from_slice(&mode.to_le_bytes());
        self.host.session_subscribe(&self.memory, SUBSCRIPTION)
    }

    /// One epoch in `mode`: the entry check, the publish phase, then every call the
    /// plan holds, at depth 1.
    fn epoch(&mut self, mode: EpochMode) -> i32 {
        if let Some(errno) = self.host.epoch_guard() {
            return errno;
        }
        assert!(self.host.rings_intact(&self.memory), "the rings are the session's own");
        let published = match self.host.epoch_publish(&mut self.memory, mode) {
            Ok(published) => published,
            Err(errno) => return errno,
        };
        for call in published.plan {
            match call {
                Invocation::Batch { class, ptr, count } => {
                    if self.batch_traps {
                        self.host.set_depth(0);
                        return self.host.epoch_trap(&mut self.memory, 0, "onBatch");
                    }
                    self.host.set_depth(1);
                    self.seen.batches.push((class, ptr, count));
                    self.host.set_depth(0);
                }
                Invocation::Event { class, ptr } => {
                    self.host.set_depth(1);
                    let record = read_event_record(&self.memory, ptr as usize);
                    self.seen.events.push((class, record.seq));
                    self.host.set_depth(0);
                }
                Invocation::Refuse(e) => return e.errno(),
            }
        }
        published.result.deliveries as i32
    }

    fn wait(&mut self, timeout_ms: i32) -> i32 {
        self.epoch(wait_mode(timeout_ms))
    }

    fn post(&mut self, class: u32, a: u32, b: u32) -> u64 {
        self.host
            .posting_mut()
            .post(1, class, 0, a, b, 0.5f32.to_bits(), 0.25f32.to_bits())
            .expect("the queue has room")
    }

    fn header(&self, class: u32) -> RingHeader {
        let capacities = *self.host.session().expect("session").ring_capacities();
        let at = event_subring_offset(&capacities, class).expect("class exists");
        ring_header(&self.memory, at)
    }

    fn frame_state(&self) -> FrameStateValues {
        read_frame_state(&self.memory)
    }

    fn session_state(&self) -> SessionState {
        self.host.session().expect("session").state()
    }
}

#[test]
fn test_wait_times_out_with_no_events() {
    let mut h = Harness::new(Some((1, 2)));
    assert_eq!(h.open(), 0, "the open succeeded");
    assert_eq!(h.subscribe(4, MODE_BATCHED), 0, "the subscribe succeeded");
    assert_eq!(h.wait(50), 0, "a timeout with nothing to deliver is 0");
    assert!(h.seen.batches.is_empty(), "no callback ran");
}

#[test]
fn test_wait_not_ready_refused() {
    let mut h = Harness::new(Some((1, 2)));
    // No `open`: the session is UNINIT, so the wait refuses.
    assert_eq!(h.wait(10), EBADF);
}

#[test]
fn test_wait_from_callback_refused() {
    let mut h = Harness::new(Some((1, 2)));
    h.host.set_depth(1);
    h.open();
    assert_eq!(h.wait(10), EBUSY);
    h.host.set_depth(0);
}

#[test]
fn test_drain_one_class_ignores_others() {
    let mut h = Harness::new(Some((1, 2)));
    assert_eq!(h.open(), 0);
    assert_eq!(h.subscribe(4, MODE_BATCHED), 0);
    h.post(4, 1, 0);
    h.post(8, 2, 0);
    assert_eq!(h.epoch(EpochMode::Drain { class: 4 }), 1, "only class 4 was drained");
    assert_eq!(h.header(4).head, 1, "class 4 published");
    assert_eq!(h.header(8).head, 0, "class 8 was left alone");
}

#[test]
fn test_drain_all_drains_every_class() {
    let mut h = Harness::new(None);
    assert_eq!(h.open(), 0);
    h.post(4, 1, 0);
    h.post(8, 2, 0);
    h.post(0, 3, 0);
    // `drain(class)` covers one class.
    assert_eq!(h.epoch(EpochMode::Drain { class: 4 }), 1);
    assert_eq!(h.header(4).head, 1);
    assert_eq!(h.header(8).head, 0);
    // A zero-timeout wait drains every class.
    assert_eq!(h.wait(0), 2);
    assert_eq!(h.header(8).head, 1);
    assert_eq!(h.header(0).head, 1);
}

#[test]
fn test_no_callback_still_delivers_to_ring() {
    let mut h = Harness::new(Some((0, 0)));
    assert_eq!(h.open(), 0);
    h.post(4, 11, 12);
    assert_eq!(h.wait(10), 1, "the record was delivered without a callback");
    assert!(h.seen.batches.is_empty(), "no callback ran");
    let capacities = *h.host.session().expect("session").ring_capacities();
    let first = event_subring_offset(&capacities, 4).expect("class") + RING_HEADER_SIZE;
    let record = read_event_record(&h.memory, first);
    assert_eq!(record.class, 4);
    assert_eq!((record.a, record.b), (11, 12));
}

#[test]
fn test_batched_callback_fires_once() {
    let mut h = Harness::new(Some((1, 2)));
    assert_eq!(h.open(), 0);
    assert_eq!(h.subscribe(4, MODE_BATCHED), 0);
    for i in 0..100u32 {
        h.post(4, i, 0);
    }
    assert_eq!(h.wait(1000), 100);
    assert_eq!(h.seen.batches.len(), 1, "one batch, not one hundred calls");
    let (class, ptr, count) = h.seen.batches[0];
    assert_eq!(class, 4);
    assert_eq!(count, 100);
    // The pointer the callback was handed is the ring's first slot.
    let capacities = *h.host.session().expect("session").ring_capacities();
    let expected = event_subring_offset(&capacities, 4).expect("class") + RING_HEADER_SIZE;
    assert_eq!(ptr as usize, expected);
}

#[test]
fn test_direct_callback_fires_per_event() {
    let mut h = Harness::new(Some((1, 2)));
    assert_eq!(h.open(), 0);
    assert_eq!(h.subscribe(1, MODE_DIRECT), 0);
    for i in 0..100u32 {
        h.post(1, i, 0);
    }
    assert_eq!(h.wait(1000), 100);
    assert_eq!(h.seen.events.len(), 100, "one call per record for DIRECT");
    let (class, seq) = *h.seen.events.last().expect("calls");
    assert_eq!(class, 1);
    assert_eq!(seq, 100, "the last record's seq");
}

#[test]
fn test_subscribe_updates_mode() {
    let mut h = Harness::new(Some((1, 2)));
    assert_eq!(h.open(), 0);
    assert_eq!(h.subscribe(1, MODE_DIRECT), 0);
    h.post(1, 1, 0);
    assert_eq!(h.wait(10), 1, "the subscribed wait delivered");
    assert_eq!(h.seen.events.len(), 1, "DIRECT ran the event callback");
    assert_eq!(h.host.session_unsubscribe(1), 0);
    assert_eq!(h.wait(10), 0);
    assert_eq!(h.seen.events.len(), 1, "nothing new was delivered");
}

#[test]
fn test_unsubscribe_resets_mode() {
    let mut h = Harness::new(Some((1, 2)));
    assert_eq!(h.open(), 0);
    // Class 4's default is BATCHED; subscribe it as DIRECT, then unsubscribe.
    assert_eq!(h.subscribe(4, MODE_DIRECT), 0);
    assert_eq!(h.host.posting().mode(4), Some(MODE_DIRECT));
    assert_eq!(h.host.session_unsubscribe(4), 0);
    assert_eq!(h.host.posting().mode(4), Some(MODE_BATCHED));
    assert!(!h.host.posting().is_subscribed(4), "unsubscribed");
}

#[test]
fn test_dropped_counter_mirrors_to_header() {
    // Class 7's ring holds 64 records. The first epoch fills it; the second
    // finds it full with the guest's tail still at zero, so the record drops.
    let mut h = Harness::new(None);
    assert_eq!(h.open(), 0);
    for i in 0..64u32 {
        h.post(7, i, 0);
    }
    assert_eq!(h.wait(10), 64);
    assert_eq!(h.header(7).head, 64, "the ring is full");
    assert_eq!(h.header(7).dropped, 0, "and nothing was dropped yet");

    h.post(7, 999, 0);
    h.wait(10);
    let header = h.header(7);
    assert_eq!(header.head, 64, "nothing was overwritten");
    assert_eq!(header.dropped, 1, "the record the ring had no room for");
    assert!(h.frame_state().dropped_events >= 1, "and it rolls up into FrameState");
}

#[test]
fn test_delivered_counter_mirrors_to_header() {
    let mut h = Harness::new(None);
    assert_eq!(h.open(), 0);
    for i in 0..5u32 {
        h.post(4, i, 0);
    }
    assert_eq!(h.wait(10), 5);
    assert_eq!(h.header(4).delivered, 5);
    assert_eq!(h.header(4).head, 5);
}

#[test]
fn test_callback_trap_faults_session() {
    let mut h = Harness::new(Some((1, 0)));
    h.batch_traps = true;
    assert_eq!(h.open(), 0);
    assert_eq!(h.subscribe(4, MODE_BATCHED), 0);
    h.post(4, 1, 0);
    assert_eq!(h.wait(1000), EIO, "a trap is -EIO");
    assert_eq!(h.session_state(), SessionState::Faulted);
    let frame = h.frame_state();
    assert_eq!(frame.fault_state, FAULT_CALLBACK_TRAP);
    assert_eq!(frame.last_error, 0, "the onBatch slot");
    assert_eq!(tension_core::session::arena::control_state(&h.memory), STATE_FAULTED);
    assert!(h.host.session().expect("session").slot_disabled(0));
    // A faulted session refuses the next epoch.
    assert_eq!(h.wait(10), EBADF);
}

#[test]
fn test_pending_is_zero_and_refused_from_a_callback() {
    let mut h = Harness::new(Some((1, 2)));
    assert_eq!(h.open(), 0);
    assert_eq!(h.host.session_pending(), 0, "nothing is deferred");

    let mut h = Harness::new(Some((1, 2)));
    h.host.set_depth(1);
    h.open();
    assert_eq!(h.host.session_pending(), EBUSY);
}

#[test]
fn test_subscribe_validates_the_record() {
    let mut h = Harness::new(Some((1, 2)));
    assert_eq!(h.open(), 0);
    // A Subscription naming a class this layout does not have.
    assert_eq!(h.subscribe(15, MODE_BATCHED), EINVAL);

    // And a mode that is not a delivery mode.
    let mut h = Harness::new(Some((1, 2)));
    assert_eq!(h.open(), 0);
    assert_eq!(h.subscribe(4, 99), EINVAL);
}

#[test]
fn a_zero_timeout_wait_is_a_drain_of_every_class() {
    assert_eq!(wait_mode(0), EpochMode::DrainAll);
    assert_eq!(wait_mode(25), EpochMode::Wait { timeout_ms: 25 });
    assert_eq!(wait_mode(-1), EpochMode::Wait { timeout_ms: -1 });
}

#[test]
fn verbs_without_an_open_session_are_refused() {
    let mut h = Harness::new(Some((1, 2)));
    assert_eq!(h.subscribe(4, MODE_BATCHED), EBADF);
    assert_eq!(h.host.session_unsubscribe(4), EBADF);
    assert_eq!(h.host.session_pending(), EBADF);
    assert_eq!(h.epoch(EpochMode::Drain { class: 4 }), EBADF);
}

#[test]
fn an_unknown_class_is_refused_by_unsubscribe() {
    let mut h = Harness::new(Some((1, 2)));
    assert_eq!(h.open(), 0);
    assert_eq!(h.host.session_unsubscribe(10), EINVAL);
}
