//! The session's verbs, as the guest calls them: `open`, `close`, `wait`,
//! `drain`, `subscribe`, `unsubscribe`, `pending`.
//!
//! Each verb answers the guest with `0`, a count, or a negative errno. The
//! host's state is held here as plain values: the session (absent until one
//! is installed), the posting face, the deferred-submission queue, and the
//! callback depth. The guest's memory is handed to each verb as bytes.
//!
//! Two verbs need work that only the host loop can do. `open` resolves the
//! callbacks record against the guest's exported table: `session_open_request`
//! reads and checks everything up to that point, the host resolves the
//! record (`Session::resolve_callbacks`, over a plain description of the
//! table), and `session_open_apply` finishes. An epoch (`wait`, `drain`) blocks and
//! calls the guest: `epoch_guard` refuses what may not run, `epoch_publish`
//! publishes and answers the calls to make, `epoch_trap` records a trapping
//! callback, and the `deliveries` of the `EpochResult` that `epoch_publish`
//! answers are what the guest is told once every call has returned.

use vstd::prelude::*;

use crate::bytes::le32;
use crate::session::apply::PendingQueue;
use crate::session::arena::{
    read_callbacks, read_subscription, spec_callbacks, spec_subscription, CallbacksRecord, CLASS_COUNT,
    DEFAULT_CLASS_MODES, MODE_BATCHED, MODE_DIRECT, MODE_POLLED, MODE_RING, SUBSCRIPTION_SIZE, ABI_VERSION,
};
use crate::session::config::{
    decode, decode_error, decoded_from, validate_with_regions, validation_error, SessionConfig,
};
use crate::session::epoch::{
    arena_holds_layout, classes_published, delivered_prefix, delivered_total, epoch_classes, epoch_refusal,
    epoch_stamped, fault_from_trap, invocation_plan, lemma_deliveries_bound, plan_invocations, publish,
    publish_deliveries, publish_error, ring_sound, rings_sound, saturate, EpochMode, EpochResult, Invocation
};
use crate::session::posting::PostingSide;
use crate::session::{
    open_guard_error, open_state_error, opened, session_errno, session_wf, ResolvedCallbacks, Session, SessionError, SessionState, SessionView, EBADF, EBUSY,
    EINVAL,
};

verus! {

// ── resolving the callbacks record ────────────────────────────────────────
/// What the guest's exported function table holds at one index, as far as
/// the callbacks record needs to know.
#[derive(Copy, Clone, Debug, PartialEq, Eq, Structural)]
pub enum TableEntry {
    /// A null entry.
    Null,
    /// A function, and whether its signature is `onBatch`'s
    /// (`(i32, i32, i32) -> i32`) or `onEvent`'s (`(i32, i32) -> i32`).
    Func { batch_shaped: bool, event_shaped: bool },
}

/// Which slot a callback is resolved for.
#[derive(Copy, Clone, Debug, PartialEq, Eq, Structural)]
pub enum CallbackShape {
    Batch,
    Event,
}

/// What resolving `index` for a slot of `shape` answers.
pub open spec fn spec_resolve_callback(table: Seq<TableEntry>, index: u32, slot: &'static str, shape: CallbackShape) -> Result<
    u32,
    SessionError,
> {
    if index >= table.len() {
        Err(SessionError::CallbackSlot { slot, why: "the index is past the end of the exported table" })
    } else {
        match table[index as int] {
            TableEntry::Null => Err(SessionError::CallbackSlot { slot, why: "the index holds no function (a null entry)" }),
            TableEntry::Func { batch_shaped, event_shaped } => if (shape == CallbackShape::Batch && batch_shaped) || (
            shape == CallbackShape::Event && event_shaped) {
                Ok(index)
            } else {
                Err(
                    SessionError::CallbackSlot {
                        slot,
                        why: "the function's signature does not match the declared one",
                    },
                )
            },
        }
    }
}

/// What resolving a whole record answers.
pub open spec fn spec_resolve_callbacks(table: Option<Seq<TableEntry>>, record: CallbacksRecord) -> Result<
    ResolvedCallbacks,
    SessionError,
> {
    if record.on_batch == 0 && record.on_event == 0 {
        Ok(ResolvedCallbacks { on_batch: None, on_event: None })
    } else {
        match table {
            None => Err(SessionError::TableMissing { slot: if record.on_batch != 0 { "onBatch" } else { "onEvent" } }),
            Some(t) => {
                let batch = if record.on_batch == 0 {
                    Ok(None::<u32>)
                } else {
                    match spec_resolve_callback(t, record.on_batch, "onBatch", CallbackShape::Batch) {
                        Ok(i) => Ok(Some(i)),
                        Err(e) => Err(e),
                    }
                };
                match batch {
                    Err(e) => Err(e),
                    Ok(on_batch) => if record.on_event == 0 {
                        Ok(ResolvedCallbacks { on_batch, on_event: None })
                    } else {
                        match spec_resolve_callback(t, record.on_event, "onEvent", CallbackShape::Event) {
                            Ok(i) => Ok(ResolvedCallbacks { on_batch, on_event: Some(i) }),
                            Err(e) => Err(e),
                        }
                    },
                }
            },
        }
    }
}

impl Session {
    /// Resolve one callback slot: a table index that must hold a function of
    /// the slot's signature. Index 0 never reaches here — zero is "absent".
    pub fn resolve_callback(table: &[TableEntry], index: u32, slot: &'static str, shape: CallbackShape) -> (r: Result<
        u32,
        SessionError,
    >)
        ensures
            r == spec_resolve_callback(table@, index, slot, shape),
    {
        if index as usize >= table.len() {
            return Err(SessionError::CallbackSlot { slot, why: "the index is past the end of the exported table" });
        }
        match table[index as usize] {
            TableEntry::Null => Err(SessionError::CallbackSlot { slot, why: "the index holds no function (a null entry)" }),
            TableEntry::Func { batch_shaped, event_shaped } => {
                if (shape == CallbackShape::Batch && batch_shaped) || (shape == CallbackShape::Event && event_shaped) {
                    Ok(index)
                } else {
                    Err(
                        SessionError::CallbackSlot {
                            slot,
                            why: "the function's signature does not match the declared one",
                        },
                    )
                }
            },
        }
    }

    /// Resolve the whole callbacks record. A record with both slots zero is
    /// legal and needs no table: a guest that registers nothing polls.
    pub fn resolve_callbacks(table: Option<&[TableEntry]>, record: &CallbacksRecord) -> (r: Result<
        ResolvedCallbacks,
        SessionError,
    >)
        ensures
            r == spec_resolve_callbacks(
                match table {
                    Some(t) => Some(t@),
                    None => None,
                },
                *record,
            ),
    {
        if record.on_batch == 0 && record.on_event == 0 {
            return Ok(ResolvedCallbacks::none());
        }
        let table = match table {
            Some(t) => t,
            None => {
                return Err(
                    SessionError::TableMissing { slot: if record.on_batch != 0 { "onBatch" } else { "onEvent" } },
                );
            },
        };
        let on_batch = if record.on_batch == 0 {
            None
        } else {
            match Session::resolve_callback(table, record.on_batch, "onBatch", CallbackShape::Batch) {
                Ok(i) => Some(i),
                Err(e) => {
                    return Err(e);
                },
            }
        };
        let on_event = if record.on_event == 0 {
            None
        } else {
            match Session::resolve_callback(table, record.on_event, "onEvent", CallbackShape::Event) {
                Ok(i) => Some(i),
                Err(e) => {
                    return Err(e);
                },
            }
        };
        Ok(ResolvedCallbacks { on_batch, on_event })
    }
}

// ── the host's state ──────────────────────────────────────────────────────
/// What `session_open` has read and checked before the callbacks record is
/// resolved: the accepted configuration, and the record the guest pointed
/// at (`None` when it registered nothing).
#[derive(Debug)]
pub struct OpenRequest {
    pub config: SessionConfig,
    pub record: Option<CallbacksRecord>,
}

/// The host's side of a guest: the installed session, the posting face,
/// the deferred submissions, and how deep in a callback the guest is.
#[derive(Debug)]
pub struct SessionHost {
    session: Option<Session>,
    posting: PostingSide,
    pending: PendingQueue,
    depth: u32,
}

/// `len` bytes at `ptr` of `memory`, or `None` when the range does not fit.
pub open spec fn guest_range(memory: Seq<u8>, ptr: u32, len: u32) -> Option<Seq<u8>> {
    if ptr + len > memory.len() {
        None
    } else {
        Some(memory.subrange(ptr as int, ptr + len))
    }
}

/// Copy `len` bytes at `ptr` out of the guest's memory, or `None` when the
/// range does not fit.
pub fn read_guest(memory: &[u8], ptr: u32, len: u32) -> (r: Option<Vec<u8>>)
    ensures
        match r {
            Some(bytes) => guest_range(memory@, ptr, len) == Some(bytes@),
            None => guest_range(memory@, ptr, len) is None,
        },
{
    let start = ptr as usize;
    if start > memory.len() || memory.len() - start < len as usize {
        return None;
    }
    let end = start + len as usize;
    let mut out: Vec<u8> = Vec::new();
    let mut i = start;
    while i < end
        invariant
            start <= i <= end <= memory.len(),
            out@ == memory@.subrange(start as int, i as int),
        decreases end - i,
    {
        out.push(memory[i]);
        proof {
            assert(out@ =~= memory@.subrange(start as int, i + 1));
        }
        i = i + 1;
    }
    Some(out)
}

/// The mode `session_wait(timeout_ms)` runs its epoch in: a zero timeout
/// never blocks, which is exactly draining every class.
pub fn wait_mode(timeout_ms: i32) -> (mode: EpochMode)
    ensures
        mode == (if timeout_ms == 0 { EpochMode::DrainAll } else { EpochMode::Wait { timeout_ms } }),
{
    if timeout_ms == 0 {
        EpochMode::DrainAll
    } else {
        EpochMode::Wait { timeout_ms }
    }
}

/// What an epoch's publish phase answers: the calls the host makes, in
/// order, and what the epoch reports when they all return.
#[derive(Debug)]
pub struct Published {
    pub plan: Vec<Invocation>,
    pub result: EpochResult,
}

/// A `Subscription`'s mode is one of the four delivery modes.
pub open spec fn is_delivery_mode(mode: u32) -> bool {
    mode == MODE_DIRECT || mode == MODE_BATCHED || mode == MODE_RING || mode == MODE_POLLED
}

impl SessionHost {
    pub closed spec fn spec_session(&self) -> Option<SessionView> {
        match self.session {
            Some(s) => Some(s@),
            None => None,
        }
    }

    pub closed spec fn spec_posting(&self) -> PostingSide {
        self.posting
    }

    pub closed spec fn spec_pending(&self) -> PendingQueue {
        self.pending
    }

    pub closed spec fn spec_depth(&self) -> u32 {
        self.depth
    }

    /// The session (when one is installed), the posting face and the
    /// pending queue are each well formed.
    pub closed spec fn wf(&self) -> bool {
        &&& self.session matches Some(s) ==> session_wf(s@)
        &&& self.posting.wf()
        &&& self.pending.wf()
    }

    /// A host with no session yet, around a posting face.
    pub fn new(posting: PostingSide) -> (h: SessionHost)
        requires
            posting.wf(),
        ensures
            h.wf(),
            h.spec_session() is None,
            h.spec_posting() == posting,
            h.spec_pending().pending() == Seq::<crate::session::apply::PendingSubmission>::empty(),
            h.spec_depth() == 0,
    {
        SessionHost { session: None, posting, pending: PendingQueue::new(), depth: 0 }
    }

    /// Install the guest's session.
    pub fn install(&mut self, session: Session)
        requires
            old(self).wf(),
            session_wf(session@),
        ensures
            final(self).wf(),
            final(self).spec_session() == Some(session@),
            final(self).spec_posting() == old(self).spec_posting(),
            final(self).spec_pending() == old(self).spec_pending(),
            final(self).spec_depth() == old(self).spec_depth(),
    {
        self.session = Some(session);
    }

    /// The installed session.
    pub fn session(&self) -> (r: Option<&Session>)
        ensures
            match r {
                Some(s) => self.spec_session() == Some(s@),
                None => self.spec_session() is None,
            },
    {
        match &self.session {
            Some(s) => Some(s),
            None => None,
        }
    }

    /// The posting face.
    pub fn posting(&self) -> (r: &PostingSide)
        ensures
            *r == self.spec_posting(),
    {
        &self.posting
    }

    /// The posting face, for an adapter that posts.
    pub fn posting_mut(&mut self) -> (r: &mut PostingSide)
        ensures
            *r == old(self).spec_posting(),
            final(self).spec_posting() == *final(r),
            final(self).spec_session() == old(self).spec_session(),
            final(self).spec_pending() == old(self).spec_pending(),
            final(self).spec_depth() == old(self).spec_depth(),
    {
        &mut self.posting
    }

    /// The deferred submissions.
    pub fn pending(&self) -> (r: &PendingQueue)
        ensures
            *r == self.spec_pending(),
    {
        &self.pending
    }

    /// How deep in a callback the guest is: 0 outside one.
    pub fn depth(&self) -> (r: u32)
        ensures
            r == self.spec_depth(),
    {
        self.depth
    }

    /// Set the callback depth around a callback invocation.
    pub fn set_depth(&mut self, depth: u32)
        ensures
            final(self).spec_depth() == depth,
            final(self).spec_session() == old(self).spec_session(),
            final(self).spec_posting() == old(self).spec_posting(),
            final(self).spec_pending() == old(self).spec_pending(),
            old(self).wf() ==> final(self).wf(),
    {
        self.depth = depth;
    }

    /// The guard every verb but `open` and `close` runs first: `-EBUSY`
    /// from inside a callback, then `-EBADF` unless a `READY` session is
    /// installed.
    fn verb_refusal(&self) -> (r: Option<i32>)
        ensures
            r == (if self.spec_depth() != 0 {
                Some(EBUSY)
            } else if !(self.spec_session() matches Some(v) && v.state == SessionState::Ready) {
                Some(EBADF)
            } else {
                None::<i32>
            }),
    {
        if self.depth != 0 {
            return Some(EBUSY);
        }
        match &self.session {
            Some(s) => {
                if s.require_ready() != 0 {
                    Some(EBADF)
                } else {
                    None
                }
            },
            None => Some(EBADF),
        }
    }

    /// `session::subscribe(sub_ptr)`: read a `Subscription` and set its
    /// class's delivery mode, subscribed.
    pub fn session_subscribe(&mut self, memory: &[u8], sub_ptr: u32) -> (rc: i32)
        requires
            old(self).wf(),
        ensures
            final(self).wf(),
            final(self).spec_session() == old(self).spec_session(),
            final(self).spec_pending() == old(self).spec_pending(),
            final(self).spec_depth() == old(self).spec_depth(),
            ({
                let refusal = if old(self).spec_depth() != 0 {
                    Some(EBUSY)
                } else if !(old(self).spec_session() matches Some(v) && v.state == SessionState::Ready) {
                    Some(EBADF)
                } else {
                    None::<i32>
                };
                let bytes = guest_range(memory@, sub_ptr, SUBSCRIPTION_SIZE as u32);
                let sub = spec_subscription(memory@, sub_ptr as int);
                &&& refusal is Some ==> rc == refusal->0 && final(self).spec_posting() == old(self).spec_posting()
                &&& refusal is None && (bytes is None || sub.class >= CLASS_COUNT || !is_delivery_mode(sub.mode))
                    ==> rc == EINVAL && final(self).spec_posting() == old(self).spec_posting()
                &&& refusal is None && bytes is Some && sub.class < CLASS_COUNT && is_delivery_mode(sub.mode) ==> {
                    let p = old(self).spec_posting();
                    let q = final(self).spec_posting();
                    &&& rc == 0
                    &&& q.spec_mode(sub.class as int) == sub.mode
                    &&& q.spec_subscribed(sub.class as int)
                    &&& forall|c: int| 0 <= c < CLASS_COUNT && c != sub.class ==> #[trigger] q.spec_mode(c) == p.spec_mode(c)
                        && q.spec_subscribed(c) == p.spec_subscribed(c)
                    &&& forall|c: int| 0 <= c < CLASS_COUNT ==> #[trigger] q.spec_queue(c) == p.spec_queue(c)
                }
            }),
    {
        if let Some(errno) = self.verb_refusal() {
            return errno;
        }
        let bytes = match read_guest(memory, sub_ptr, SUBSCRIPTION_SIZE as u32) {
            Some(bytes) => bytes,
            None => {
                return EINVAL;
            },
        };
        let subscription = read_subscription(bytes.as_slice(), 0);
        proof {
            assert(spec_subscription(bytes@, 0) == spec_subscription(memory@, sub_ptr as int)) by {
                assert forall|k: int| 0 <= k < 16 implies #[trigger] bytes@[k] == memory@[sub_ptr + k] by {}
                crate::bytes::lemma_le32_agree_at(bytes@, memory@, 0, sub_ptr as int);
                crate::bytes::lemma_le32_agree_at(bytes@, memory@, 4, sub_ptr + 4);
                crate::bytes::lemma_le32_agree_at(bytes@, memory@, 8, sub_ptr + 8);
                crate::bytes::lemma_le32_agree_at(bytes@, memory@, 12, sub_ptr + 12);
            }
        }
        if subscription.class as usize >= CLASS_COUNT {
            return EINVAL;
        }
        if !(subscription.mode == MODE_DIRECT || subscription.mode == MODE_BATCHED || subscription.mode == MODE_RING
            || subscription.mode == MODE_POLLED) {
            return EINVAL;
        }
        match self.posting.set_delivery(subscription.class, subscription.mode, true) {
            Ok(()) => 0,
            Err(e) => e.errno(),
        }
    }

    /// `session::unsubscribe(class)`: back to the class's default mode, and
    /// off.
    pub fn session_unsubscribe(&mut self, class: u32) -> (rc: i32)
        requires
            old(self).wf(),
        ensures
            final(self).wf(),
            final(self).spec_session() == old(self).spec_session(),
            final(self).spec_pending() == old(self).spec_pending(),
            final(self).spec_depth() == old(self).spec_depth(),
            ({
                let refusal = if old(self).spec_depth() != 0 {
                    Some(EBUSY)
                } else if !(old(self).spec_session() matches Some(v) && v.state == SessionState::Ready) {
                    Some(EBADF)
                } else {
                    None::<i32>
                };
                &&& refusal is Some ==> rc == refusal->0 && final(self).spec_posting() == old(self).spec_posting()
                &&& refusal is None && class >= CLASS_COUNT ==> rc == EINVAL && final(self).spec_posting() == old(
                    self,
                ).spec_posting()
                &&& refusal is None && class < CLASS_COUNT ==> {
                    let p = old(self).spec_posting();
                    let q = final(self).spec_posting();
                    &&& rc == 0
                    &&& q.spec_mode(class as int) == DEFAULT_CLASS_MODES@[class as int]
                    &&& !q.spec_subscribed(class as int)
                    &&& forall|c: int| 0 <= c < CLASS_COUNT && c != class ==> #[trigger] q.spec_mode(c) == p.spec_mode(c)
                        && q.spec_subscribed(c) == p.spec_subscribed(c)
                    &&& forall|c: int| 0 <= c < CLASS_COUNT ==> #[trigger] q.spec_queue(c) == p.spec_queue(c)
                }
            }),
    {
        if let Some(errno) = self.verb_refusal() {
            return errno;
        }
        if class as usize >= CLASS_COUNT {
            return EINVAL;
        }
        let modes = DEFAULT_CLASS_MODES;
        let default_mode = modes[class as usize];
        match self.posting.set_delivery(class, default_mode, false) {
            Ok(()) => 0,
            Err(e) => e.errno(),
        }
    }

    /// The first half of `session::open(cfg_ptr, cfg_len)`: the session's
    /// state, the config's bytes, its decoding and its checks, and the
    /// callbacks record it points at. What is left is resolving the record
    /// against the guest's table and `session_open_apply`.
    #[verifier::rlimit(40)]
    pub fn session_open_request(&self, memory: &[u8], cfg_ptr: u32, cfg_len: u32) -> (r: Result<OpenRequest, i32>)
        requires
            self.wf(),
        ensures
            self.spec_session() is None ==> r == Err::<OpenRequest, i32>(EBADF),
            self.spec_session() matches Some(v) ==> {
                let cfg = guest_range(memory@, cfg_ptr, cfg_len);
                &&& open_state_error(v.state) is Some ==> r == Err::<OpenRequest, i32>(EBUSY)
                &&& open_state_error(v.state) is None && cfg is None ==> r == Err::<OpenRequest, i32>(EINVAL)
                &&& (open_state_error(v.state) is None && cfg is Some && decode_error(cfg->0) is Some) ==> r == Err::<
                    OpenRequest,
                    i32,
                >(EINVAL)
                &&& r matches Ok(req) ==> {
                    &&& open_state_error(v.state) is None
                    &&& cfg is Some
                    &&& decode_error(cfg->0) is None
                    &&& decoded_from(cfg->0, req.config)
                    &&& validation_error(req.config, ABI_VERSION as u32, v.layout_hash, v.required) is None
                    &&& req.config.callbacks_len == 0 ==> req.record is None
                    &&& req.config.callbacks_len != 0 ==> guest_range(
                        memory@,
                        req.config.callbacks_ptr,
                        req.config.callbacks_len,
                    ) is Some && req.record == Some(spec_callbacks(memory@, req.config.callbacks_ptr as int))
                }
                &&& (r is Err && open_state_error(v.state) is None && cfg is Some && decode_error(cfg->0) is None) ==> {
                    &&& r == Err::<OpenRequest, i32>(EINVAL)
                    &&& exists|d: SessionConfig| #[trigger] decoded_from(cfg->0, d) && (validation_error(
                        d,
                        ABI_VERSION as u32,
                        v.layout_hash,
                        v.required,
                    ) is Some || guest_range(memory@, d.callbacks_ptr, d.callbacks_len) is None)
                }
            },
    {
        let session = match &self.session {
            Some(s) => s,
            None => {
                return Err(EBADF);
            },
        };
        if !(session.state() == SessionState::Uninit || session.state() == SessionState::Closed) {
            return Err(EBUSY);
        }
        let cfg = match read_guest(memory, cfg_ptr, cfg_len) {
            Some(cfg) => cfg,
            None => {
                return Err(EINVAL);
            },
        };
        let config = match decode(cfg.as_slice()) {
            Ok(config) => config,
            Err(e) => {
                return Err(e.errno());
            },
        };
        match validate_with_regions(&config, ABI_VERSION as u32, session.layout_hash(), session.required_regions()) {
            Ok(()) => {},
            Err(e) => {
                return Err(e.errno());
            },
        }
        if config.callbacks_len == 0 {
            return Ok(OpenRequest { config, record: None });
        }
        let bytes = match read_guest(memory, config.callbacks_ptr, config.callbacks_len) {
            Some(bytes) => bytes,
            None => {
                return Err(EINVAL);
            },
        };
        proof {
            assert(crate::session::config::callbacks_error(config) is None);
        }
        let record = read_callbacks(bytes.as_slice(), 0);
        proof {
            let m = memory@;
            let at = config.callbacks_ptr as int;
            assert forall|k: int| 0 <= k < 16 implies #[trigger] bytes@[k] == m[at + k] by {}
            crate::bytes::lemma_le32_agree_at(bytes@, m, 0, at);
            crate::bytes::lemma_le32_agree_at(bytes@, m, 4, at + 4);
            crate::bytes::lemma_le32_agree_at(bytes@, m, 8, at + 8);
            crate::bytes::lemma_le32_agree_at(bytes@, m, 12, at + 12);
            assert(bytes@[0] == m[at] && bytes@[1] == m[at + 1] && bytes@[2] == m[at + 2] && bytes@[3] == m[at + 3]);
        }
        Ok(OpenRequest { config, record: Some(record) })
    }

    /// The second half of `session::open`: the callbacks resolved (or the
    /// refusal resolving them met), apply the open. An accepted open leaves
    /// the session `READY` and lifts a close's shutdown flag, so the fresh
    /// session does not answer every wait as if it were closing.
    pub fn session_open_apply(
        &mut self,
        memory: &mut [u8],
        request: &OpenRequest,
        resolved: Result<ResolvedCallbacks, SessionError>,
        nonce: u64,
    ) -> (rc: i32)
        requires
            old(self).wf(),
            old(self).spec_session() matches Some(v) && v.memory_base + crate::session::arena::CANARY_STRIDE
                <= usize::MAX,
        ensures
            final(self).wf(),
            final(self).spec_pending() == old(self).spec_pending(),
            final(self).spec_depth() == old(self).spec_depth(),
            ({
                let v = old(self).spec_session()->0;
                let record = match request.record {
                    Some(rec) => rec,
                    None => (CallbacksRecord { abi_version: ABI_VERSION, slot_count: 0, flags: 0, on_batch: 0, on_event: 0 }),
                };
                let refusal = open_guard_error(v, old(memory)@.len() as int, request.config, record);
                &&& resolved matches Err(e) ==> rc == session_errno(e)
                &&& resolved is Ok && refusal is Some ==> rc == session_errno(refusal->0)
                &&& rc != 0 ==> final(memory)@ == old(memory)@ && final(self).spec_session() == old(self).spec_session()
                    && final(self).spec_posting() == old(self).spec_posting()
                &&& rc == 0 ==> {
                    &&& resolved is Ok
                    &&& refusal is None
                    &&& final(self).spec_session() matches Some(w) && w.state == SessionState::Ready && w.callbacks
                        == Some(resolved->Ok_0)
                    &&& opened(final(memory)@, request.config, v.initial_pages, v.max_pages, nonce)
                    &&& !final(self).spec_posting().spec_wait().shutdown
                }
            }),
    {
        let resolved = match resolved {
            Ok(resolved) => resolved,
            Err(e) => {
                return e.errno();
            },
        };
        let record = match request.record {
            Some(record) => record,
            None => CallbacksRecord::absent(),
        };
        let mut session = self.session.take().unwrap();
        let outcome = session.apply_open(memory, &request.config, &record, resolved, nonce);
        self.session = Some(session);
        match outcome {
            Ok(()) => {
                self.posting.clear_shutdown();
                0
            },
            Err(e) => e.errno(),
        }
    }

    /// `session::close()`: idempotent from every state. A blocked wait must
    /// not be left holding the guest when the session goes away, so the
    /// posting face is told to shut down whatever the close answered.
    pub fn session_close(&mut self, memory: &mut [u8]) -> (rc: i32)
        requires
            old(self).wf(),
        ensures
            final(self).wf(),
            final(self).spec_pending() == old(self).spec_pending(),
            final(self).spec_depth() == old(self).spec_depth(),
            old(self).spec_session() is None ==> rc == EBADF && final(self).spec_session() is None && final(memory)@
                == old(memory)@ && final(self).spec_posting() == old(self).spec_posting(),
            old(self).spec_session() matches Some(v) ==> {
                &&& final(self).spec_session() matches Some(w) && crate::session::close_effect(
                    v,
                    old(memory)@,
                    w,
                    final(memory)@,
                    if rc == 0 { Ok(()) } else { Err(SessionError::Layout(crate::session::arena::LayoutError::BufferTooSmall { need: 256, have: old(memory)@.len() as usize })) },
                )
                &&& final(self).spec_posting().spec_wait().shutdown
                &&& rc == 0 || rc == EINVAL
            },
    {
        let mut session = match self.session.take() {
            Some(session) => session,
            None => {
                return EBADF;
            },
        };
        let outcome = session.close(memory);
        self.posting.set_shutdown();
        self.session = Some(session);
        match outcome {
            Ok(()) => 0,
            Err(e) => e.errno(),
        }
    }

    /// An epoch verb's refusal: `-EBADF` with no session installed, then the
    /// epoch's own refusals (`-EBADF` unless `READY`, `-EBUSY` inside a
    /// callback).
    pub fn epoch_guard(&self) -> (r: Option<i32>)
        requires
            self.wf(),
        ensures
            r == (match self.spec_session() {
                None => Some(EBADF),
                Some(v) => match crate::session::epoch::spec_epoch_refusal(v, self.spec_depth()) {
                    Some(e) => Some(session_errno(e)),
                    None => None::<i32>,
                },
            }),
    {
        match &self.session {
            None => Some(EBADF),
            Some(session) => match epoch_refusal(session, self.depth) {
                Some(e) => Some(e.errno()),
                None => None,
            },
        }
    }

    /// Whether every ring header in the arena is one the session could have
    /// written (see `ring_sound`): what an epoch needs of the arena.
    pub fn rings_intact(&self, memory: &[u8]) -> (b: bool)
        requires
            self.wf(),
            self.spec_session() is Some,
            arena_holds_layout(memory@),
        ensures
            b == rings_sound(memory@, self.spec_session()->0.ring_capacities),
    {
        let session = self.session.as_ref().unwrap();
        let capacities = session.ring_capacities();
        let ghost caps = capacities@;
        proof {
            assert(crate::session::arena::rings_span(caps, CLASS_COUNT as int) <= crate::session::arena::EVENT_TABLE_SIZE);
        }
        let mut c: u32 = 0;
        while c < CLASS_COUNT as u32
            invariant
                c <= CLASS_COUNT,
                caps == capacities@,
                caps == self.spec_session()->0.ring_capacities,
                crate::session::config::ring_capacity_error(caps) is None,
                arena_holds_layout(memory@),
                forall|k: int| 0 <= k < c ==> #[trigger] ring_sound(memory@, caps, k),
            decreases CLASS_COUNT - c,
        {
            let at = match crate::session::subring::event_subring_offset(capacities, c) {
                Ok(at) => at,
                Err(_) => {
                    return false;
                },
            };
            proof {
                crate::session::subring::lemma_ring_geometry(caps, c as int);
            }
            let h = crate::session::arena::ring_header(memory, at);
            if 0 < h.tail && h.tail <= h.head && h.capacity == capacities[c as usize] && h.head > capacities[c as usize] {
                proof {
                    assert(!ring_sound(memory@, caps, c as int));
                }
                return false;
            }
            c = c + 1;
        }
        true
    }

    /// An epoch's publish phase: every covered class into its ring, the
    /// counters, `FrameState` and the control block; then the calls the
    /// host makes, and the count the guest is told when they all return.
    #[verifier::rlimit(40)]
    pub fn epoch_publish(&mut self, memory: &mut [u8], mode: EpochMode) -> (r: Result<Published, i32>)
        requires
            old(self).wf(),
            old(self).spec_session() is Some,
            arena_holds_layout(old(memory)@),
            rings_sound(old(memory)@, old(self).spec_session()->0.ring_capacities),
        ensures
            final(self).wf(),
            final(self).spec_pending() == old(self).spec_pending(),
            final(self).spec_depth() == old(self).spec_depth(),
            ({
                let v = old(self).spec_session()->0;
                let caps = v.ring_capacities;
                let p0 = old(self).spec_posting();
                let cs = epoch_classes(mode);
                match r {
                    Err(n) => n == EINVAL && publish_error(old(memory)@, caps, p0, cs, 0) is Some
                        && final(self).spec_session() == old(self).spec_session(),
                    Ok(published) => {
                        let ds = publish_deliveries(old(memory)@, caps, p0, cs, 0);
                        let w = final(self).spec_session()->0;
                        let p = final(self).spec_posting();
                        &&& publish_error(old(memory)@, caps, p0, cs, 0) is None
                        &&& final(self).spec_session() == Some(SessionView { frame_index: v.frame_index.wrapping_add(1), ..v })
                        &&& classes_published(old(memory)@, final(memory)@, caps, p0, p, cs)
                        &&& epoch_stamped(old(memory)@, final(memory)@, w.frame_index, saturate(p.spec_dropped_total(CLASS_COUNT as int)))
                        &&& published.plan@ == invocation_plan(w, p, caps, ds, 0)
                        &&& published.result == (EpochResult { deliveries: delivered_total(ds) as u32, faulted: false })
                    },
                }
            }),
    {
        let mut session = self.session.take().unwrap();
        let ghost a0 = memory@;
        let ghost p0 = self.posting;
        let outcome = publish(&mut session, &mut self.posting, memory, mode);
        let deliveries = match outcome {
            Ok(deliveries) => deliveries,
            Err(e) => {
                proof {
                    crate::session::epoch::lemma_publish_error_is_subring(a0, old(self).spec_session()->0.ring_capacities, p0, epoch_classes(mode), 0);
                }
                self.session = Some(session);
                return Err(e.errno());
            },
        };
        let plan = plan_invocations(&session, &self.posting, &deliveries);
        self.session = Some(session);
        let ghost ds = deliveries@;
        proof {
            lemma_deliveries_bound(a0, session@.ring_capacities, p0, epoch_classes(mode), 0);
        }
        let mut total: u32 = 0;
        let mut k: usize = 0;
        while k < deliveries.len()
            invariant
                ds == deliveries@,
                k <= ds.len(),
                ds.len() <= CLASS_COUNT,
                forall|j: int| 0 <= j < ds.len() ==> #[trigger] ds[j].count <= 12288,
                total == delivered_prefix(ds, k as int),
                total <= 12288 * k,
            decreases ds.len() - k,
        {
            total = total + deliveries[k].count;
            k = k + 1;
        }
        Ok(Published { plan, result: EpochResult { deliveries: total, faulted: false } })
    }

    /// A callback trapped during the invoke phase: the session faults, the
    /// slot is disabled, the fault is published, and the verb answers
    /// `-EIO`.
    pub fn epoch_trap(&mut self, memory: &mut [u8], slot_index: u32, slot: &'static str) -> (rc: i32)
        requires
            old(self).wf(),
            old(self).spec_session() is Some,
            arena_holds_layout(old(memory)@),
        ensures
            final(self).wf(),
            rc == crate::session::EIO,
            final(self).spec_posting() == old(self).spec_posting(),
            final(self).spec_pending() == old(self).spec_pending(),
            final(self).spec_depth() == old(self).spec_depth(),
            ({
                let v = old(self).spec_session()->0;
                &&& final(self).spec_session() == Some(SessionView {
                    state: SessionState::Faulted,
                    disabled: if slot_index < 2 { v.disabled.update(slot_index as int, true) } else { v.disabled },
                    ..v
                })
                &&& crate::session::arena::spec_frame_state(final(memory)@) == (crate::session::arena::FrameStateValues {
                    frame_index: v.frame_index,
                    dropped_events: saturate(old(self).spec_posting().spec_dropped_total(CLASS_COUNT as int)),
                    fault_state: crate::session::arena::FAULT_CALLBACK_TRAP,
                    last_error: slot_index,
                })
                &&& le32(final(memory)@, 160) == crate::session::arena::STATE_FAULTED
                &&& le32(final(memory)@, 164) == (crate::session::EIO as u32)
            }),
    {
        let mut session = self.session.take().unwrap();
        let e = fault_from_trap(&mut session, &self.posting, memory, slot_index, slot);
        self.session = Some(session);
        e.errno()
    }

    /// `session::pending()`: how many deferred submissions wait to be
    /// applied.
    pub fn session_pending(&self) -> (rc: i32)
        requires
            self.wf(),
        ensures
            rc == (if self.spec_depth() != 0 {
                EBUSY
            } else if !(self.spec_session() matches Some(v) && v.state == SessionState::Ready) {
                EBADF
            } else {
                self.spec_pending().pending().len() as i32
            }),
    {
        if let Some(errno) = self.verb_refusal() {
            return errno;
        }
        self.pending.len() as i32
    }
}

} // verus!
