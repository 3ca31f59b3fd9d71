//! The session: the memory the guest imports, the arena the guest reads, and
//! the state machine the open and close verbs drive.
//!
//! The sequencing that makes the checks meaningful:
//!
//! 1. Before instantiation the session zeroes the whole band the module
//!    claims, writes the header page's structures, and lays the canary
//!    lattice over the reserved gap (`Session::prepare_arena`).
//! 2. After instantiation, before the guest runs, it re-reads the control
//!    block's triple, checks the region band is still zero, and verifies the
//!    lattice (`Session::verify_post_instantiate`).
//! 3. `session_open` validates the config in a fixed order, writes the ring
//!    headers, and moves to `READY`; a refusal leaves everything untouched
//!    (`Session::apply_open`).
//! 4. `session_close` is idempotent from every state (`Session::close`).

use vstd::prelude::*;

pub mod arena;
pub mod config;
pub mod apply;
pub mod posting;
pub mod subring;
pub mod epoch;
pub mod host;

use crate::bytes::{all_zero, le32, le64, load_u64, same_outside};
use crate::session::arena::{
    lemma_control_block_kept, lemma_manifest_entry_kept, lemma_region_entry_kept, lemma_session_info_kept,
    canary_block_holds, canary_expected, canary_lattice_ok, control_block_written, control_layout_hash,
    control_magic, control_region_count, empty_ring_header, layout_error_text, layout_hash,
    manifest_entry_written, region_entry_written, ring_offset, rings_span, session_info_written,
    set_control_fault_code, set_control_nonce, set_control_state, spec_canary_word, spec_layout_hash,
    spec_ring_header, spec_ring_offset, verify_band_is_zero, verify_canary_lattice, write_canary_lattice,
    write_control_block, write_manifest, write_region_table, write_ring_header, write_session_info,
    zero_band, CallbacksRecord, LayoutError, SessionInfoValues, ABI_VERSION, CALLBACKS_SLOTS, CANARY_STRIDE,
    CLASS_COUNT, DEFAULT_MAX_ARENA_SIZE, DEFAULT_RING_CAPACITIES, EVENT_TABLE_OFFSET, EVENT_TABLE_SIZE,
    HEADER_PAGE_SIZE, LAYOUT_FLOOR, MAGIC, REGION_COUNT, STATE_CLOSED, STATE_FAULTED, STATE_READY,
    STATE_UNINIT, TYPE_COUNT,
};
use crate::session::config::{
    config_message, validate_with_regions, validation_error, ConfigError, RegionNeed, SessionConfig,
};
use crate::session::subring::{lemma_header_agree, lemma_ring_geometry, subring_message, SubringError};
use crate::text::{decimal, hex, hex_padded, push_decimal, push_hex, push_hex_padded};
use vstd::string::StringExecFns;

verus! {

/// The errno every refusal of a malformed or mismatched request reports.
pub const EINVAL: i32 = -22;

/// The verb's state does not allow it.
pub const EBUSY: i32 = -16;

/// No session at all, or no such handle.
pub const EBADF: i32 = -9;

/// A callback trapped: the entry point that pumped returns `-EIO`.
pub const EIO: i32 = -5;

/// A wasm page, in bytes.
pub const WASM_PAGE_BYTES: usize = 65536;

/// The host's ceiling when a module declares no maximum, in pages (64 MiB).
pub const HOST_CAP_PAGES: u32 = 1024;

/// The placeholder live arena until `session_open` reads the real value: the
/// smallest legal arena.
pub const DEFAULT_ARENA_SIZE: u32 = 0x5F6020;

/// The session's state machine. The arena's control block carries the same
/// values as its report; this is the authoritative machine.
#[derive(Copy, Clone, Debug, PartialEq, Eq, Structural)]
pub enum SessionState {
    /// Memory exists; the structural arena is written; nothing validated.
    Uninit,
    /// `session_open` succeeded.
    Ready,
    /// Terminal until closed: a callback trap, an adapter fault, or a tamper.
    Faulted,
    /// `session_close` completed.
    Closed,
}

/// The value the control block reports for a state.
pub open spec fn state_value(s: SessionState) -> u32 {
    match s {
        SessionState::Uninit => STATE_UNINIT,
        SessionState::Ready => STATE_READY,
        SessionState::Faulted => STATE_FAULTED,
        SessionState::Closed => STATE_CLOSED,
    }
}

/// A state's name, as a diagnostic prints it.
pub open spec fn state_name(s: SessionState) -> Seq<char> {
    match s {
        SessionState::Uninit => "Uninit"@,
        SessionState::Ready => "Ready"@,
        SessionState::Faulted => "Faulted"@,
        SessionState::Closed => "Closed"@,
    }
}

impl SessionState {
    /// The value the control block reports for this state.
    pub fn value(&self) -> (r: u32)
        ensures
            r == state_value(*self),
    {
        match self {
            SessionState::Uninit => STATE_UNINIT,
            SessionState::Ready => STATE_READY,
            SessionState::Faulted => STATE_FAULTED,
            SessionState::Closed => STATE_CLOSED,
        }
    }

    fn name(&self) -> (r: &'static str)
        ensures
            r@ == state_name(*self),
    {
        match self {
            SessionState::Uninit => "Uninit",
            SessionState::Ready => "Ready",
            SessionState::Faulted => "Faulted",
            SessionState::Closed => "Closed",
        }
    }
}

/// A refusal from the memory lifecycle. Every variant names what failed.
#[derive(Debug)]
pub enum SessionError {
    /// The verb needs a state the session is not in.
    NotUninit { state: SessionState },
    /// The `session_open` config was refused, with the decoder's reason.
    Config(ConfigError),
    /// The `Callbacks` record's ABI version is not this build's.
    CallbacksAbi { guest: u16, session: u16 },
    /// The `Callbacks` record claims more slots than this build defines.
    CallbacksSlots { count: u16 },
    /// A callbacks slot is filled but the guest exports no function table.
    TableMissing { slot: &'static str },
    /// A callbacks slot could not be resolved to a function of its signature.
    CallbackSlot { slot: &'static str, why: &'static str },
    /// The module declares no memory import at all.
    NoMemoryImport,
    /// The module declares more than one memory import.
    MultipleMemoryImports,
    /// The memory import is under a name the session does not define.
    MemoryImportName { module: String, name: String },
    /// The import is a shared memory; the arena is not shared.
    SharedMemoryUnsupported,
    /// The module's declared minimum exceeds the host's cap.
    CapBelowMinimum { min: u32, cap: u32 },
    /// A declared page count does not fit the `u32` the ABI uses.
    PageCountOutOfRange { which: &'static str, pages: u64 },
    /// The engine refused to create the memory.
    MemoryNew(String),
    /// The memory could not be defined in the linker.
    Link(String),
    /// The arena's frozen layout does not fit the band the module claims.
    ArenaDoesNotFit { need: usize, have: usize },
    /// A structural write failed.
    Layout(LayoutError),
    /// The control block is not what the session wrote before instantiation.
    ControlBlock { field: &'static str, expected: u64, found: u64 },
    /// A canary block in the reserved gap was overwritten.
    Canary { offset: usize, expected: (u64, u64), found: (u64, u64) },
    /// The region band is not zero: something wrote into the arena before the
    /// guest ran.
    BandNotZero { offset: usize },
    /// A verb that needs READY found another state.
    NotReady { state: SessionState },
    /// A verb that would run an epoch inside an epoch was called from a
    /// callback.
    Reentrant,
    /// A delivery callback trapped.
    CallbackTrap { slot: &'static str },
    /// The sub-ring machinery refused.
    Subring(SubringError),
    /// The arena memory is not installed, so nothing can deliver.
    ArenaLost,
}

/// The errno a refusal crosses the boundary with.
pub open spec fn session_errno(e: SessionError) -> i32 {
    match e {
        SessionError::NotUninit { .. } => EBUSY,
        SessionError::NotReady { .. } => EBADF,
        SessionError::Reentrant => EBUSY,
        SessionError::CallbackTrap { .. } => EIO,
        _ => EINVAL,
    }
}

impl SessionError {
    /// The errno the guest sees: `-EINVAL` for every refusal but a state the
    /// verb cannot run in (`-EBUSY` for an open on a live session, `-EBADF`
    /// for a verb that needs READY), a callback that would start an epoch
    /// inside an epoch (`-EBUSY`), and a callback trap (`-EIO`).
    pub fn errno(&self) -> (r: i32)
        ensures
            r == session_errno(*self),
    {
        match self {
            SessionError::NotUninit { .. } => EBUSY,
            SessionError::NotReady { .. } => EBADF,
            SessionError::Reentrant => EBUSY,
            SessionError::CallbackTrap { .. } => EIO,
            _ => EINVAL,
        }
    }
}

/// The refusal as the session's diagnostic line prints it.
pub open spec fn session_message(e: SessionError) -> Seq<char> {
    match e {
        SessionError::NotUninit { state } => "session_open is refused in state "@ + state_name(state) + ": the guest must close first"@,
        SessionError::Config(why) => config_message(why),
        SessionError::CallbacksAbi { guest, session } => "the Callbacks record states abiVersion "@ + decimal(guest as nat) + "; this session is "@ + decimal(session as nat),
        SessionError::CallbacksSlots { count } => "the Callbacks record states "@ + decimal(count as nat) + " slots; this chunk defines 2 (a host cannot validate a signature it does not know)"@,
        SessionError::TableMissing { slot } => "the `"@ + slot@ + "` slot is set but the guest exports no `table`; a callback slot is an index into the module's exported function table (`asc --exportTable`)"@,
        SessionError::CallbackSlot { slot, why } => "the `"@ + slot@ + "` callback could not be resolved: "@ + why@,
        SessionError::NoMemoryImport => "the module declares no memory import; the session owns the arena, so every session guest must import it as env::memory or session::memory"@,
        SessionError::MultipleMemoryImports => "the module declares more than one memory import; the session provides one arena"@,
        SessionError::MemoryImportName { module, name } => "the module imports a memory as `"@ + module@ + "`::`"@ + name@ + "`; the session defines env::memory and session::memory"@,
        SessionError::SharedMemoryUnsupported => "the module imports a shared memory; the session's arena memory is not shared"@,
        SessionError::CapBelowMinimum { min, cap } => "the module declares a minimum of "@ + decimal(min as nat) + " pages, above the host's cap of "@ + decimal(cap as nat) + ": a smaller minimum or a larger HOST_CAP_PAGES is needed"@,
        SessionError::PageCountOutOfRange { which, pages } => "the declared "@ + which@ + " of "@ + decimal(pages as nat) + " pages does not fit a u32"@,
        SessionError::MemoryNew(why) => "the memory could not be created: "@ + why@,
        SessionError::Link(why) => "the arena memory could not be defined in the linker: "@ + why@,
        SessionError::ArenaDoesNotFit { need, have } => "the arena needs "@ + decimal(need as nat) + " bytes but the memory provides "@ + decimal(have as nat) + ": the guest's --memoryBase (= max_arena_size) and its declared memory size disagree"@,
        SessionError::Layout(why) => "the arena layout could not be written: "@ + layout_error_text(why),
        SessionError::ControlBlock { field, expected, found } => "the arena control block's "@ + field@ + " is "@ + hex(found as nat) + ", not the "@ + hex(expected as nat) + " the session wrote before instantiation"@,
        SessionError::Canary { offset, expected, found } => "the reserved gap's canary at "@ + hex(offset as nat) + " was overwritten: expected "@ + hex_padded(expected.0 as nat, 16) + "/"@ + hex_padded(expected.1 as nat, 16) + ", found "@ + hex_padded(found.0 as nat, 16) + "/"@ + hex_padded(found.1 as nat, 16),
        SessionError::BandNotZero { offset } => "the region band is not zero at "@ + hex(offset as nat) + ": something wrote into the arena before the guest ran (a --memoryBase or data-segment overlap)"@,
        SessionError::NotReady { state } => "this verb needs a READY session; the session is "@ + state_name(state),
        SessionError::Reentrant => "this verb cannot run inside a callback: it would start an epoch within one"@,
        SessionError::CallbackTrap { slot } => "the `"@ + slot@ + "` callback trapped: the slot is disabled and the session is FAULTED"@,
        SessionError::Subring(why) => subring_message(why),
        SessionError::ArenaLost => "the arena memory is not installed in the host state, so nothing can be delivered"@,
    }
}

impl SessionError {
    /// The refusal as the session's diagnostic line prints it.
    pub fn message(&self) -> (r: String)
        ensures
            r@ == session_message(*self),
    {
        let mut out = String::new();
        match self {
            SessionError::NotUninit { state } => {
                out.append("session_open is refused in state ");
                out.append(state.name());
                out.append(": the guest must close first");
            },
            SessionError::Config(why) => {
                let text = why.message();
                out.append(text.as_str());
            },
            SessionError::CallbacksAbi { guest, session } => {
                out.append("the Callbacks record states abiVersion ");
                push_decimal(&mut out, *guest as u64);
                out.append("; this session is ");
                push_decimal(&mut out, *session as u64);
            },
            SessionError::CallbacksSlots { count } => {
                out.append("the Callbacks record states ");
                push_decimal(&mut out, *count as u64);
                out.append(" slots; this chunk defines 2 (a host cannot validate a signature it does not know)");
            },
            SessionError::TableMissing { slot } => {
                out.append("the `");
                out.append(slot);
                out.append("` slot is set but the guest exports no `table`; a callback slot is an index into the module's exported function table (`asc --exportTable`)");
            },
            SessionError::CallbackSlot { slot, why } => {
                out.append("the `");
                out.append(slot);
                out.append("` callback could not be resolved: ");
                out.append(why);
            },
            SessionError::NoMemoryImport => {
                out.append("the module declares no memory import; the session owns the arena, so every session guest must import it as env::memory or session::memory");
            },
            SessionError::MultipleMemoryImports => {
                out.append("the module declares more than one memory import; the session provides one arena");
            },
            SessionError::MemoryImportName { module, name } => {
                out.append("the module imports a memory as `");
                out.append(module.as_str());
                out.append("`::`");
                out.append(name.as_str());
                out.append("`; the session defines env::memory and session::memory");
            },
            SessionError::SharedMemoryUnsupported => {
                out.append("the module imports a shared memory; the session's arena memory is not shared");
            },
            SessionError::CapBelowMinimum { min, cap } => {
                out.append("the module declares a minimum of ");
                push_decimal(&mut out, *min as u64);
                out.append(" pages, above the host's cap of ");
                push_decimal(&mut out, *cap as u64);
                out.append(": a smaller minimum or a larger HOST_CAP_PAGES is needed");
            },
            SessionError::PageCountOutOfRange { which, pages } => {
                out.append("the declared ");
                out.append(which);
                out.append(" of ");
                push_decimal(&mut out, *pages as u64);
                out.append(" pages does not fit a u32");
            },
            SessionError::MemoryNew(why) => {
                out.append("the memory could not be created: ");
                out.append(why.as_str());
            },
            SessionError::Link(why) => {
                out.append("the arena memory could not be defined in the linker: ");
                out.append(why.as_str());
            },
            SessionError::ArenaDoesNotFit { need, have } => {
                out.append("the arena needs ");
                push_decimal(&mut out, *need as u64);
                out.append(" bytes but the memory provides ");
                push_decimal(&mut out, *have as u64);
                out.append(": the guest's --memoryBase (= max_arena_size) and its declared memory size disagree");
            },
            SessionError::Layout(why) => {
                out.append("the arena layout could not be written: ");
                let text = why.message();
                out.append(text.as_str());
            },
            SessionError::ControlBlock { field, expected, found } => {
                out.append("the arena control block's ");
                out.append(field);
                out.append(" is ");
                push_hex(&mut out, *found as u64);
                out.append(", not the ");
                push_hex(&mut out, *expected as u64);
                out.append(" the session wrote before instantiation");
            },
            SessionError::Canary { offset, expected, found } => {
                out.append("the reserved gap's canary at ");
                push_hex(&mut out, *offset as u64);
                out.append(" was overwritten: expected ");
                push_hex_padded(&mut out, expected.0, 16);
                out.append("/");
                push_hex_padded(&mut out, expected.1, 16);
                out.append(", found ");
                push_hex_padded(&mut out, found.0, 16);
                out.append("/");
                push_hex_padded(&mut out, found.1, 16);
            },
            SessionError::BandNotZero { offset } => {
                out.append("the region band is not zero at ");
                push_hex(&mut out, *offset as u64);
                out.append(": something wrote into the arena before the guest ran (a --memoryBase or data-segment overlap)");
            },
            SessionError::NotReady { state } => {
                out.append("this verb needs a READY session; the session is ");
                out.append(state.name());
            },
            SessionError::Reentrant => {
                out.append("this verb cannot run inside a callback: it would start an epoch within one");
            },
            SessionError::CallbackTrap { slot } => {
                out.append("the `");
                out.append(slot);
                out.append("` callback trapped: the slot is disabled and the session is FAULTED");
            },
            SessionError::Subring(why) => {
                let text = why.message();
                out.append(text.as_str());
            },
            SessionError::ArenaLost => {
                out.append("the arena memory is not installed in the host state, so nothing can be delivered");
            },
        }
        proof {
            assert(out@ =~= session_message(*self));
        }
        out
    }
}

// ── the module's memory import ─────────────────────────────────────────────
/// One memory import a module declares, as the engine reports it.
#[derive(Clone, Debug, PartialEq, Eq)]
pub struct MemoryImport {
    pub module: String,
    pub name: String,
    pub shared: bool,
    pub minimum: u64,
    pub maximum: Option<u64>,
}

/// The memory the host provides for a module: its declared page counts and
/// the ceiling the host caps it to.
#[derive(Copy, Clone, Debug, PartialEq, Eq, Structural)]
pub struct MemoryPlan {
    pub declared_min_pages: u32,
    pub declared_max_pages: Option<u32>,
    pub max_pages: u32,
}

/// The host's ceiling for a declared maximum: the declared one capped at
/// `HOST_CAP_PAGES`, or the cap when none is declared.
pub open spec fn capped_max(declared: Option<u32>) -> u32 {
    match declared {
        Some(p) => if p < HOST_CAP_PAGES { p } else { HOST_CAP_PAGES },
        None => HOST_CAP_PAGES,
    }
}

/// What the host makes of a module's memory imports: exactly one, under
/// `env::memory` or `session::memory`, unshared, with page counts that fit a
/// u32 and a minimum the cap can hold.
pub open spec fn memory_plan(imports: Seq<MemoryImport>) -> Result<MemoryPlan, SessionError> {
    if imports.len() == 0 {
        Err(SessionError::NoMemoryImport)
    } else if imports.len() > 1 {
        Err(SessionError::MultipleMemoryImports)
    } else {
        let d = imports[0];
        if !((d.module@ == "env"@ || d.module@ == "session"@) && d.name@ == "memory"@) {
            Err(SessionError::MemoryImportName { module: d.module, name: d.name })
        } else if d.shared {
            Err(SessionError::SharedMemoryUnsupported)
        } else if d.minimum > u32::MAX {
            Err(SessionError::PageCountOutOfRange { which: "minimum", pages: d.minimum })
        } else if d.maximum matches Some(p) && p > u32::MAX {
            Err(SessionError::PageCountOutOfRange { which: "maximum", pages: d.maximum->0 })
        } else {
            let min = d.minimum as u32;
            let declared_max = match d.maximum {
                Some(p) => Some(p as u32),
                None => None,
            };
            let max = capped_max(declared_max);
            if max < min {
                Err(SessionError::CapBelowMinimum { min, cap: max })
            } else {
                Ok(MemoryPlan { declared_min_pages: min, declared_max_pages: declared_max, max_pages: max })
            }
        }
    }
}

/// The host never provides more memory than the module declares or than
/// it caps: an accepted plan keeps the import's own page counts, and its
/// maximum is the declared maximum when that is within the cap and the cap
/// otherwise (the cap when none is declared), never below the minimum.
pub proof fn lemma_plan_within_bounds(imports: Seq<MemoryImport>)
    requires
        memory_plan(imports) is Ok,
    ensures
        ({
            let plan = memory_plan(imports)->Ok_0;
            let d = imports[0];
            &&& imports.len() == 1
            &&& plan.declared_min_pages == d.minimum
            &&& plan.declared_min_pages <= plan.max_pages
            &&& plan.max_pages <= HOST_CAP_PAGES
            &&& d.maximum matches Some(m) ==> {
                &&& plan.declared_max_pages == Some(m as u32)
                &&& m <= u32::MAX
                &&& plan.max_pages <= m
                &&& (plan.max_pages == m || plan.max_pages == HOST_CAP_PAGES)
            }
            &&& d.maximum is None ==> plan.declared_max_pages is None && plan.max_pages == HOST_CAP_PAGES
        }),
{
}

fn same_text(a: &String, b: &str) -> (r: bool)
    ensures
        r == (a@ == b@),
{
    let other = String::from_str(b);
    *a == other
}

/// Read a module's memory imports and decide the memory the host provides:
/// the host mirrors what the guest's build declares and caps it.
pub fn plan_memory(imports: &[MemoryImport]) -> (r: Result<MemoryPlan, SessionError>)
    ensures
        r == memory_plan(imports@),
        r matches Ok(plan) ==> plan.max_pages <= HOST_CAP_PAGES && plan.declared_min_pages <= plan.max_pages && (
        plan.declared_max_pages matches Some(m) ==> plan.max_pages <= m),
{
    proof {
        if memory_plan(imports@) is Ok {
            lemma_plan_within_bounds(imports@);
        }
    }
    if imports.len() == 0 {
        return Err(SessionError::NoMemoryImport);
    }
    if imports.len() > 1 {
        return Err(SessionError::MultipleMemoryImports);
    }
    let d = &imports[0];
    let module_ok = same_text(&d.module, "env") || same_text(&d.module, "session");
    if !(module_ok && same_text(&d.name, "memory")) {
        return Err(SessionError::MemoryImportName { module: d.module.clone(), name: d.name.clone() });
    }
    if d.shared {
        return Err(SessionError::SharedMemoryUnsupported);
    }
    if d.minimum > 0xFFFF_FFFF {
        return Err(SessionError::PageCountOutOfRange { which: "minimum", pages: d.minimum });
    }
    let declared_min_pages = d.minimum as u32;
    let declared_max_pages = match d.maximum {
        Some(pages) => {
            if pages > 0xFFFF_FFFF {
                return Err(SessionError::PageCountOutOfRange { which: "maximum", pages });
            }
            Some(pages as u32)
        },
        None => None,
    };
    let max_pages = match declared_max_pages {
        Some(pages) => if pages < HOST_CAP_PAGES { pages } else { HOST_CAP_PAGES },
        None => HOST_CAP_PAGES,
    };
    if max_pages < declared_min_pages {
        return Err(SessionError::CapBelowMinimum { min: declared_min_pages, cap: max_pages });
    }
    Ok(MemoryPlan { declared_min_pages, declared_max_pages, max_pages })
}

// ── the session ───────────────────────────────────────────────────────────
/// The guest's delivery callbacks, resolved once at open: the function-table
/// index each filled slot was pinned to.
#[derive(Copy, Clone, Debug, PartialEq, Eq, Structural)]
pub struct ResolvedCallbacks {
    /// `i32 (class, table_ptr, count)`.
    pub on_batch: Option<u32>,
    /// `i32 (class, ptr)`.
    pub on_event: Option<u32>,
}

impl ResolvedCallbacks {
    /// No slot filled.
    pub fn none() -> (r: ResolvedCallbacks)
        ensures
            r == (ResolvedCallbacks { on_batch: None, on_event: None }),
    {
        ResolvedCallbacks { on_batch: None, on_event: None }
    }

    /// Whether the guest registered nothing at all.
    pub fn is_empty(&self) -> (b: bool)
        ensures
            b == (self.on_batch is None && self.on_event is None),
    {
        self.on_batch.is_none() && self.on_event.is_none()
    }

    /// How many slots are filled.
    pub fn count(&self) -> (n: u32)
        ensures
            n == (if self.on_batch is Some { 1int } else { 0int }) + (if self.on_event is Some { 1int } else { 0int }),
    {
        let mut n: u32 = 0;
        if self.on_batch.is_some() {
            n = n + 1;
        }
        if self.on_event.is_some() {
            n = n + 1;
        }
        n
    }
}

impl Default for ResolvedCallbacks {
    fn default() -> (r: ResolvedCallbacks)
        ensures
            r == (ResolvedCallbacks { on_batch: None, on_event: None }),
    {
        ResolvedCallbacks::none()
    }
}

/// Everything the session knows, as plain values.
#[verifier::ext_equal]
pub struct SessionView {
    pub state: SessionState,
    pub declared_min_pages: u32,
    pub declared_max_pages: Option<u32>,
    pub memory_base: u32,
    pub initial_pages: u32,
    pub max_pages: u32,
    pub arena_size: u32,
    pub max_arena_size: u32,
    pub layout_hash: u32,
    pub required: Seq<RegionNeed>,
    pub callbacks: Option<ResolvedCallbacks>,
    pub disabled: Seq<bool>,
    pub ring_capacities: Seq<u32>,
    pub rejections: u32,
    pub frame_index: u32,
}

/// The session's host-side state. The arena is the guest's view of the same
/// facts.
#[derive(Debug)]
pub struct Session {
    declared_min_pages: u32,
    declared_max_pages: Option<u32>,
    memory_base: u32,
    initial_pages: u32,
    max_pages: u32,
    arena_size: u32,
    max_arena_size: u32,
    layout_hash: u32,
    required_regions: Vec<RegionNeed>,
    callbacks: Option<ResolvedCallbacks>,
    disabled_slots: [bool; 2],
    ring_capacities: [u32; CLASS_COUNT],
    rejections: u32,
    frame_index: u32,
    state: SessionState,
}

impl View for Session {
    type V = SessionView;

    closed spec fn view(&self) -> SessionView {
        SessionView {
            state: self.state,
            declared_min_pages: self.declared_min_pages,
            declared_max_pages: self.declared_max_pages,
            memory_base: self.memory_base,
            initial_pages: self.initial_pages,
            max_pages: self.max_pages,
            arena_size: self.arena_size,
            max_arena_size: self.max_arena_size,
            layout_hash: self.layout_hash,
            required: self.required_regions@,
            callbacks: self.callbacks,
            disabled: self.disabled_slots@,
            ring_capacities: self.ring_capacities@,
            rejections: self.rejections,
            frame_index: self.frame_index,
        }
    }
}

/// What every session keeps true: the guest's memory base is its reserved
/// ceiling, the live arena holds the frozen layout and fits the ceiling, the
/// hash is this build's, and the ring capacities fit `EVENT_TABLE`.
pub open spec fn session_wf(v: SessionView) -> bool {
    &&& v.memory_base == v.max_arena_size
    &&& LAYOUT_FLOOR <= v.arena_size <= v.max_arena_size
    &&& v.layout_hash == spec_layout_hash()
    &&& v.ring_capacities.len() == CLASS_COUNT
    &&& v.disabled.len() == 2
    &&& crate::session::config::ring_capacity_error(v.ring_capacities) is None
    &&& v.initial_pages == v.declared_min_pages
}

proof fn lemma_default_capacities_fit()
    ensures
        crate::session::config::ring_capacity_error(DEFAULT_RING_CAPACITIES@) is None,
{
    let caps = DEFAULT_RING_CAPACITIES@;
    assert(caps[0] == 1 && caps[1] == 256 && caps[2] == 256 && caps[3] == 64 && caps[4] == 4096);
    assert(caps[5] == 4096 && caps[6] == 256 && caps[7] == 64 && caps[8] == 1024 && caps[9] == 256);
    assert(rings_span(caps, 0) == 0);
    assert(rings_span(caps, 1) == 64);
    assert(rings_span(caps, 2) == 64 + 32 + 256 * 32);
    assert(rings_span(caps, 3) == rings_span(caps, 2) + 32 + 256 * 32);
    assert(rings_span(caps, 4) == rings_span(caps, 3) + 32 + 64 * 32);
    assert(rings_span(caps, 5) == rings_span(caps, 4) + 32 + 4096 * 32);
    assert(rings_span(caps, 6) == rings_span(caps, 5) + 32 + 4096 * 32);
    assert(rings_span(caps, 7) == rings_span(caps, 6) + 32 + 256 * 32);
    assert(rings_span(caps, 8) == rings_span(caps, 7) + 32 + 64 * 32);
    assert(rings_span(caps, 9) == rings_span(caps, 8) + 32 + 1024 * 32);
    assert(rings_span(caps, 10) == rings_span(caps, 9) + 32 + 256 * 32);
    assert(rings_span(caps, 10) <= EVENT_TABLE_SIZE);
    assert(crate::session::config::first_zero_capacity(caps, 10) is None) by {
        reveal_with_fuel(crate::session::config::first_zero_capacity, 11);
    }
}

impl Session {
    /// The session for a planned memory: nothing validated, the placeholder
    /// arena and ceiling, this build's hash and default capacities, state
    /// `UNINIT`.
    pub fn new(plan: MemoryPlan) -> (s: Session)
        requires
            plan.declared_min_pages <= plan.max_pages,
        ensures
            session_wf(s@),
            s@ == (SessionView {
                state: SessionState::Uninit,
                declared_min_pages: plan.declared_min_pages,
                declared_max_pages: plan.declared_max_pages,
                memory_base: DEFAULT_MAX_ARENA_SIZE as u32,
                initial_pages: plan.declared_min_pages,
                max_pages: plan.max_pages,
                arena_size: DEFAULT_ARENA_SIZE,
                max_arena_size: DEFAULT_MAX_ARENA_SIZE as u32,
                layout_hash: spec_layout_hash(),
                required: Seq::empty(),
                callbacks: None,
                disabled: seq![false, false],
                ring_capacities: DEFAULT_RING_CAPACITIES@,
                rejections: 0,
                frame_index: 0,
            }),
    {
        proof {
            lemma_default_capacities_fit();
        }
        let s = Session {
            declared_min_pages: plan.declared_min_pages,
            declared_max_pages: plan.declared_max_pages,
            memory_base: DEFAULT_MAX_ARENA_SIZE as u32,
            initial_pages: plan.declared_min_pages,
            max_pages: plan.max_pages,
            arena_size: DEFAULT_ARENA_SIZE,
            max_arena_size: DEFAULT_MAX_ARENA_SIZE as u32,
            layout_hash: layout_hash(),
            required_regions: Vec::new(),
            callbacks: None,
            disabled_slots: [false, false],
            ring_capacities: DEFAULT_RING_CAPACITIES,
            rejections: 0,
            frame_index: 0,
            state: SessionState::Uninit,
        };
        proof {
            assert(s@.disabled =~= seq![false, false]);
            assert(s@.required =~= Seq::<RegionNeed>::empty());
        }
        s
    }

    /// Hand the session the regions the loaded capabilities declared.
    pub fn set_required_regions(&mut self, required: Vec<RegionNeed>)
        requires
            session_wf(old(self)@),
        ensures
            session_wf(final(self)@),
            final(self)@ == (SessionView { required: required@, ..old(self)@ }),
    {
        self.required_regions = required;
    }

    /// What the capabilities declared.
    pub fn required_regions(&self) -> (r: &[RegionNeed])
        ensures
            r@ == self@.required,
    {
        self.required_regions.as_slice()
    }

    /// The authoritative state machine.
    pub fn state(&self) -> (r: SessionState)
        ensures
            r == self@.state,
    {
        self.state
    }

    /// The live arena size.
    pub fn arena_size(&self) -> (r: u32)
        ensures
            r == self@.arena_size,
    {
        self.arena_size
    }

    /// The reserved ceiling, also the guest's `memoryBase`.
    pub fn max_arena_size(&self) -> (r: u32)
        ensures
            r == self@.max_arena_size,
    {
        self.max_arena_size
    }

    /// Where the guest's own segments and heap begin.
    pub fn memory_base(&self) -> (r: u32)
        ensures
            r == self@.memory_base,
    {
        self.memory_base
    }

    /// The page counts the memory was created with.
    pub fn pages(&self) -> (r: (u32, u32))
        ensures
            r == (self@.initial_pages, self@.max_pages),
    {
        (self.initial_pages, self.max_pages)
    }

    /// The pages the module declared.
    pub fn declared_pages(&self) -> (r: (u32, Option<u32>))
        ensures
            r == (self@.declared_min_pages, self@.declared_max_pages),
    {
        (self.declared_min_pages, self.declared_max_pages)
    }

    /// The shape hash this session was built against.
    pub fn layout_hash(&self) -> (r: u32)
        ensures
            r == self@.layout_hash,
    {
        self.layout_hash
    }

    /// The check every delivery verb makes first: `READY`, or `-EBADF`.
    pub fn require_ready(&self) -> (r: i32)
        ensures
            r == (if self@.state == SessionState::Ready { 0 } else { EBADF }),
    {
        if self.state == SessionState::Ready {
            0
        } else {
            EBADF
        }
    }

    /// The callbacks this session resolved at open.
    pub fn callbacks(&self) -> (r: Option<&ResolvedCallbacks>)
        ensures
            r == (match self@.callbacks {
                Some(c) => Some(&c),
                None => None::<&ResolvedCallbacks>,
            }),
    {
        match &self.callbacks {
            Some(c) => Some(c),
            None => None,
        }
    }

    /// Whether a callback trap has disabled this slot; a slot that does not
    /// exist reads as disabled.
    pub fn slot_disabled(&self, slot: usize) -> (b: bool)
        requires
            session_wf(self@),
        ensures
            b == (if slot < 2 { self@.disabled[slot as int] } else { true }),
    {
        if slot < 2 {
            self.disabled_slots[slot]
        } else {
            true
        }
    }

    /// Disable a slot: a trapping callback is never entered again.
    pub fn disable_slot(&mut self, slot: u32)
        requires
            session_wf(old(self)@),
        ensures
            session_wf(final(self)@),
            final(self)@ == (SessionView {
                disabled: if slot < 2 { old(self)@.disabled.update(slot as int, true) } else { old(self)@.disabled },
                ..old(self)@
            }),
    {
        if slot < 2 {
            self.disabled_slots[slot as usize] = true;
        }
        proof {
            assert(self@.disabled =~= (if slot < 2 { old(self)@.disabled.update(slot as int, true) } else { old(self)@.disabled }));
        }
    }

    /// The live ring capacities this session opened with.
    pub fn ring_capacities(&self) -> (r: &[u32; CLASS_COUNT])
        ensures
            r@ == self@.ring_capacities,
    {
        &self.ring_capacities
    }

    /// The epoch counter, as `FrameState.frameIndex` reports it.
    pub fn frame_index(&self) -> (r: u32)
        ensures
            r == self@.frame_index,
    {
        self.frame_index
    }

    /// Advance the epoch counter (wrapping).
    pub fn bump_frame_index(&mut self)
        requires
            session_wf(old(self)@),
        ensures
            session_wf(final(self)@),
            final(self)@ == (SessionView { frame_index: old(self)@.frame_index.wrapping_add(1), ..old(self)@ }),
    {
        self.frame_index = self.frame_index.wrapping_add(1);
    }

    /// Terminal until closed: a callback trap or an adapter fault.
    pub fn fault(&mut self)
        requires
            session_wf(old(self)@),
        ensures
            session_wf(final(self)@),
            final(self)@ == (SessionView { state: SessionState::Faulted, ..old(self)@ }),
    {
        self.state = SessionState::Faulted;
    }

    /// One deferred submission failed to apply (saturating count).
    pub fn note_rejection(&mut self)
        requires
            session_wf(old(self)@),
        ensures
            session_wf(final(self)@),
            final(self)@ == (SessionView {
                rejections: if old(self)@.rejections == u32::MAX { u32::MAX } else { (old(self)@.rejections + 1) as u32 },
                ..old(self)@
            }),
    {
        self.rejections = self.rejections.saturating_add(1);
    }

    /// How many submissions have been rejected this session.
    pub fn rejections(&self) -> (r: u32)
        ensures
            r == self@.rejections,
    {
        self.rejections
    }
}

// ── preparing and verifying the arena ─────────────────────────────────────
/// The band the module claims as its own, limited to the memory there is.
pub open spec fn claimed_band(declared_min_pages: u32, len: int) -> int {
    let declared = declared_min_pages * WASM_PAGE_BYTES;
    if declared < len { declared } else { len }
}

/// What the arena needs before the guest exists: the frozen layout and the
/// reserved gap up to the guest's memory base.
pub open spec fn arena_need(memory_base: u32) -> int {
    if LAYOUT_FLOOR > memory_base { LAYOUT_FLOOR as int } else { memory_base as int }
}

/// `SessionInfo` as the session states it before an open.
pub open spec fn placeholder_info(v: SessionView) -> SessionInfoValues {
    SessionInfoValues {
        arena_size: v.arena_size,
        max_arena_size: v.max_arena_size,
        memory_base: v.memory_base,
        initial_pages: v.initial_pages,
        max_pages: v.max_pages,
        open_nonce: 0,
        class_capacities: DEFAULT_RING_CAPACITIES,
    }
}

/// The arena as it is laid out before the guest exists: the header page's
/// structures written, everything else up to the layout's end zero, the
/// lattice over the reserved gap.
pub open spec fn laid_out(s: Seq<u8>, total_size: u32, info: SessionInfoValues, memory_base: u32) -> bool {
    &&& control_block_written(s, total_size)
    &&& session_info_written(s, info)
    &&& forall|k: int| 0 <= k < REGION_COUNT ==> #[trigger] region_entry_written(s, k)
    &&& forall|k: int| 0 <= k < TYPE_COUNT ==> #[trigger] manifest_entry_written(s, k)
    &&& all_zero(s, 40, 256)
    &&& all_zero(s, 352, 0x200)
    &&& all_zero(s, 0x368, LAYOUT_FLOOR as int)
    &&& canary_lattice_ok(s, LAYOUT_FLOOR as int, memory_base as int)
}

/// The arena the session prepared.
pub open spec fn arena_prepared(s: Seq<u8>, v: SessionView) -> bool {
    laid_out(s, v.max_arena_size, placeholder_info(v), v.memory_base)
}

fn lay_out_header(data: &mut [u8], band: usize, total_size: u32, info: &SessionInfoValues)
    requires
        band <= old(data)@.len(),
        band >= LAYOUT_FLOOR,
    ensures
        control_block_written(final(data)@, total_size),
        session_info_written(final(data)@, *info),
        all_zero(final(data)@, 40, 256),
        all_zero(final(data)@, 352, band as int),
        final(data)@.len() == old(data)@.len(),
        forall|i: int| band <= i < old(data)@.len() ==> #[trigger] final(data)@[i] == old(data)@[i],
{
    let _ = zero_band(data, 0, band);
    let _ = write_control_block(data, total_size);
    let ghost d2 = data@;
    let _ = write_session_info(data, info);
    proof {
        lemma_control_block_kept(d2, data@, total_size);
    }
}

fn lay_out_tables(data: &mut [u8], memory_base: u32)
    requires
        old(data)@.len() >= LAYOUT_FLOOR,
        old(data)@.len() >= memory_base,
        memory_base + CANARY_STRIDE <= usize::MAX,
    ensures
        forall|k: int| 0 <= k < REGION_COUNT ==> #[trigger] region_entry_written(final(data)@, k),
        forall|k: int| 0 <= k < TYPE_COUNT ==> #[trigger] manifest_entry_written(final(data)@, k),
        canary_lattice_ok(final(data)@, LAYOUT_FLOOR as int, memory_base as int),
        final(data)@.len() == old(data)@.len(),
        forall|i: int| 0 <= i < old(data)@.len() && !(0x200 <= i < 0x368) && !(LAYOUT_FLOOR <= i < memory_base)
            ==> #[trigger] final(data)@[i] == old(data)@[i],
{
    let _ = write_region_table(data);
    let ghost d4 = data@;
    let _ = write_manifest(data);
    let ghost d5 = data@;
    assert(LAYOUT_FLOOR % 8 == 0);
    let _ = write_canary_lattice(data, LAYOUT_FLOOR, memory_base as usize);
    proof {
        let d6 = data@;
        assert forall|k: int| 0 <= k < REGION_COUNT implies #[trigger] region_entry_written(d6, k) by {
            lemma_region_entry_kept(d4, d6, k);
        }
        assert forall|k: int| 0 <= k < TYPE_COUNT implies #[trigger] manifest_entry_written(d6, k) by {
            lemma_manifest_entry_kept(d5, d6, k);
        }
    }
}

fn lay_out(data: &mut [u8], band: usize, total_size: u32, info: &SessionInfoValues, memory_base: u32)
    requires
        band <= old(data)@.len(),
        band >= LAYOUT_FLOOR,
        band >= memory_base,
        memory_base + CANARY_STRIDE <= usize::MAX,
    ensures
        laid_out(final(data)@, total_size, *info, memory_base),
        final(data)@.len() == old(data)@.len(),
        forall|i: int| band <= i < old(data)@.len() ==> #[trigger] final(data)@[i] == old(data)@[i],
{
    lay_out_header(data, band, total_size, info);
    let ghost d3 = data@;
    lay_out_tables(data, memory_base);
    proof {
        let d6 = data@;
        lemma_control_block_kept(d3, d6, total_size);
        lemma_session_info_kept(d3, d6, *info);
        assert(all_zero(d6, 0x368, LAYOUT_FLOOR as int)) by {
            assert forall|i: int| 0x368 <= i < LAYOUT_FLOOR implies #[trigger] d6[i] == 0 by {
                assert(d6[i] == d3[i]);
            }
        }
    }
}

impl Session {
    /// Write the structural arena, before instantiation: zero the whole band
    /// the module claims first, then write the header page's structures, then
    /// the reserved gap's lattice. Refused, with nothing written, when the
    /// claimed band cannot hold the layout and the gap.
    pub fn prepare_arena(&mut self, data: &mut [u8]) -> (r: Result<(), SessionError>)
        requires
            session_wf(old(self)@),
            old(self)@.memory_base + CANARY_STRIDE <= usize::MAX,
        ensures
            session_wf(final(self)@),
            ({
                let v = old(self)@;
                let band = claimed_band(v.declared_min_pages, old(data)@.len() as int);
                let need = arena_need(v.memory_base);
                &&& band < need ==> (r matches Err(SessionError::ArenaDoesNotFit { need: n, have: h })
                    && n == need && h == band && final(data)@ == old(data)@ && final(self)@ == v)
                &&& band >= need ==> r is Ok && final(self)@ == (SessionView { state: SessionState::Uninit, ..v })
                    && arena_prepared(final(data)@, v) && final(data)@.len() == old(data)@.len()
                    && forall|i: int| band <= i < old(data)@.len() ==> #[trigger] final(data)@[i] == old(data)@[i]
            }),
    {
        let ghost v = self@;
        let declared_band: u64 = (self.declared_min_pages as u64) * (WASM_PAGE_BYTES as u64);
        let len = data.len();
        let band: usize = if declared_band < len as u64 { declared_band as usize } else { len };
        let need: usize = if LAYOUT_FLOOR > self.memory_base as usize { LAYOUT_FLOOR } else { self.memory_base as usize };
        if band < need {
            return Err(SessionError::ArenaDoesNotFit { need, have: band });
        }
        let info = SessionInfoValues {
            arena_size: self.arena_size,
            max_arena_size: self.max_arena_size,
            memory_base: self.memory_base,
            initial_pages: self.initial_pages,
            max_pages: self.max_pages,
            open_nonce: 0,
            class_capacities: DEFAULT_RING_CAPACITIES,
        };
        lay_out(data, band, self.max_arena_size, &info, self.memory_base);
        self.state = SessionState::Uninit;
        proof {
            assert(self@ =~= (SessionView { state: SessionState::Uninit, ..v }));
        }
        Ok(())
    }
}

/// The control block's triple as the session wrote it, or the first field
/// that disagrees: magic, layout hash, region count.
pub open spec fn control_triple_error(s: Seq<u8>, hash: u32) -> Option<SessionError> {
    if le64(s, 0) != MAGIC {
        Some(SessionError::ControlBlock { field: "magic", expected: MAGIC, found: le64(s, 0) as u64 })
    } else if le32(s, 20) != hash {
        Some(SessionError::ControlBlock { field: "layout_hash", expected: hash as u64, found: le32(s, 20) as u64 })
    } else if le32(s, 24) != REGION_COUNT {
        Some(SessionError::ControlBlock { field: "region_count", expected: REGION_COUNT as u64, found: le32(s, 24) as u64 })
    } else {
        None
    }
}

/// `e` reports the first damaged canary block of the lattice over
/// `[start, stop)`, with the words it expected and the words it found.
pub open spec fn canary_refusal(s: Seq<u8>, start: int, stop: int, e: SessionError) -> bool {
    e matches SessionError::Canary { offset, expected, found } && {
        &&& exists|k: int| #![trigger canary_block_holds(s, start + CANARY_STRIDE * k)] k >= 0 && offset == start
            + CANARY_STRIDE * k
        &&& offset + 16 <= stop
        &&& !canary_block_holds(s, offset as int)
        &&& canary_lattice_ok(s, start, offset as int)
        &&& expected == (spec_canary_word(offset as int), !spec_canary_word(offset as int))
        &&& found == (le64(s, offset as int) as u64, le64(s, offset + 8) as u64)
    }
}

/// `e` reports the first nonzero byte of the band `[start, stop)`.
pub open spec fn band_refusal(s: Seq<u8>, start: int, stop: int, e: SessionError) -> bool {
    e matches SessionError::BandNotZero { offset } && start <= offset < stop && s[offset as int] != 0 && all_zero(
        s,
        start,
        offset as int,
    )
}

/// The lattice over `[start, end)` verified, or the refusal its first damaged
/// block earns.
pub open spec fn canary_outcome(s: Seq<u8>, start: int, end: int, r: Result<(), SessionError>) -> bool {
    let stop = if end < s.len() { end } else { s.len() as int };
    match r {
        Ok(()) => canary_lattice_ok(s, start, stop),
        Err(e) => canary_refusal(s, start, stop, e),
    }
}

fn check_canaries(data: &[u8], start: usize, end: usize) -> (r: Result<(), SessionError>)
    requires
        start + CANARY_STRIDE <= usize::MAX,
        end + CANARY_STRIDE <= usize::MAX,
    ensures
        canary_outcome(data@, start as int, end as int, r),
{
    match verify_canary_lattice(data, start, end) {
        Ok(()) => Ok(()),
        Err(offset) => {
            let expected = canary_expected(offset);
            let found = (load_u64(data, offset), load_u64(data, offset + 8));
            Err(SessionError::Canary { offset, expected, found })
        },
    }
}

fn check_control_triple(data: &[u8], hash: u32) -> (r: Result<(), SessionError>)
    requires
        data@.len() >= 256,
    ensures
        r == (match control_triple_error(data@, hash) {
            Some(e) => Err(e),
            None => Ok(()),
        }),
{
    let magic = control_magic(data);
    if magic != MAGIC {
        return Err(SessionError::ControlBlock { field: "magic", expected: MAGIC, found: magic });
    }
    let found_hash = control_layout_hash(data) as u64;
    if found_hash != hash as u64 {
        return Err(SessionError::ControlBlock { field: "layout_hash", expected: hash as u64, found: found_hash });
    }
    let regions = control_region_count(data) as u64;
    if regions != REGION_COUNT as u64 {
        return Err(SessionError::ControlBlock { field: "region_count", expected: REGION_COUNT as u64, found: regions });
    }
    Ok(())
}

/// What `verify_post_instantiate` answers: the memory reaches the guest's
/// base, the control block's triple holds, the region band is zero, the
/// lattice is intact, checked in that order.
pub open spec fn post_instantiate_outcome(s: Seq<u8>, v: SessionView, r: Result<(), SessionError>) -> bool {
    if s.len() < v.memory_base {
        r matches Err(SessionError::ArenaDoesNotFit { need, have }) && need == v.memory_base && have == s.len()
    } else if control_triple_error(s, v.layout_hash) is Some {
        r == Err::<(), SessionError>(control_triple_error(s, v.layout_hash)->0)
    } else if !all_zero(s, HEADER_PAGE_SIZE as int, LAYOUT_FLOOR as int) {
        r matches Err(e) && band_refusal(s, HEADER_PAGE_SIZE as int, LAYOUT_FLOOR as int, e)
    } else {
        canary_outcome(s, LAYOUT_FLOOR as int, v.memory_base as int, r)
    }
}

impl Session {
    /// Verify the arena after instantiation has run the module's data
    /// segments, before the guest runs: the control block's triple, the region
    /// band still all zero, and the reserved gap's lattice.
    pub fn verify_post_instantiate(&self, data: &[u8]) -> (r: Result<(), SessionError>)
        requires
            session_wf(self@),
            self@.memory_base + CANARY_STRIDE <= usize::MAX,
        ensures
            post_instantiate_outcome(data@, self@, r),
    {
        let memory_base = self.memory_base as usize;
        if data.len() < memory_base {
            return Err(SessionError::ArenaDoesNotFit { need: memory_base, have: data.len() });
        }
        check_control_triple(data, self.layout_hash)?;
        match verify_band_is_zero(data, HEADER_PAGE_SIZE, LAYOUT_FLOOR) {
            Ok(()) => {},
            Err(offset) => {
                return Err(SessionError::BandNotZero { offset });
            },
        }
        check_canaries(data, LAYOUT_FLOOR, memory_base)
    }
}

// ── opening and closing ───────────────────────────────────────────────────
/// The open check on the state: `UNINIT` and `CLOSED` may open; `READY` and
/// `FAULTED` may not.
pub open spec fn open_state_error(state: SessionState) -> Option<SessionError> {
    match state {
        SessionState::Uninit | SessionState::Closed => None,
        _ => Some(SessionError::NotUninit { state }),
    }
}

/// The `Callbacks` record's own header: this build's ABI version, and no
/// more slots than this build can validate.
pub open spec fn callbacks_record_error(record: CallbacksRecord) -> Option<SessionError> {
    if record.abi_version != ABI_VERSION {
        Some(SessionError::CallbacksAbi { guest: record.abi_version, session: ABI_VERSION })
    } else if record.slot_count > CALLBACKS_SLOTS {
        Some(SessionError::CallbacksSlots { count: record.slot_count })
    } else {
        None
    }
}

/// Everything `apply_open` checks before it looks at the arena, in order:
/// the state, the record's header, the config's own checks, and that both
/// stated sizes fit the memory.
pub open spec fn open_guard_error(v: SessionView, len: int, d: SessionConfig, record: CallbacksRecord) -> Option<SessionError> {
    if open_state_error(v.state) is Some {
        open_state_error(v.state)
    } else if callbacks_record_error(record) is Some {
        callbacks_record_error(record)
    } else if validation_error(d, ABI_VERSION as u32, v.layout_hash, v.required) is Some {
        Some(SessionError::Config(validation_error(d, ABI_VERSION as u32, v.layout_hash, v.required)->0))
    } else if d.arena_size > len {
        Some(SessionError::ArenaDoesNotFit { need: d.arena_size as usize, have: len as usize })
    } else if d.max_arena_size > len {
        Some(SessionError::ArenaDoesNotFit { need: d.max_arena_size as usize, have: len as usize })
    } else {
        None
    }
}

/// What the arena's re-check at open answers: the control block's triple,
/// then the lattice over the gap both the session and the guest agree on.
pub open spec fn open_preconditions_outcome(s: Seq<u8>, v: SessionView, memory_base: int, r: Result<(), SessionError>) -> bool {
    match control_triple_error(s, v.layout_hash) {
        Some(e) => r == Err::<(), SessionError>(e),
        None => {
            let end = if memory_base < v.memory_base { memory_base } else { v.memory_base as int };
            if end > LAYOUT_FLOOR {
                canary_outcome(s, LAYOUT_FLOOR as int, end, r)
            } else {
                r is Ok
            }
        },
    }
}

/// `SessionInfo` as an open states it.
pub open spec fn opened_info(d: SessionConfig, initial_pages: u32, max_pages: u32, nonce: u64) -> SessionInfoValues {
    SessionInfoValues {
        arena_size: d.arena_size,
        max_arena_size: d.max_arena_size,
        memory_base: d.max_arena_size,
        initial_pages,
        max_pages,
        open_nonce: nonce,
        class_capacities: d.ring_capacities,
    }
}

/// The arena an open leaves: the control block restated at the new ceiling
/// and reporting `READY` with no fault and the open's nonce, `SessionInfo`
/// echoing the config, and every class's ring header empty at its capacity.
pub open spec fn opened(s: Seq<u8>, d: SessionConfig, initial_pages: u32, max_pages: u32, nonce: u64) -> bool {
    &&& control_block_written(s, d.max_arena_size)
    &&& le32(s, 160) == STATE_READY
    &&& le32(s, 164) == 0
    &&& le32(s, 168) == 0
    &&& le64(s, 176) == nonce
    &&& session_info_written(s, opened_info(d, initial_pages, max_pages, nonce))
    &&& forall|c: int| 0 <= c < CLASS_COUNT ==> #[trigger] spec_ring_header(s, spec_ring_offset(d.ring_capacities@, c))
        == empty_ring_header(d.ring_capacities@[c])
}

/// The bytes an open may change: the control block's header and tail,
/// `SessionInfo`, and the sub-rings' span.
pub open spec fn open_touches(d: SessionConfig, i: int) -> bool {
    ||| 0 <= i < 40
    ||| 160 <= i < 184
    ||| 256 <= i < 352
    ||| EVENT_TABLE_OFFSET <= i < EVENT_TABLE_OFFSET + rings_span(d.ring_capacities@, CLASS_COUNT as int)
}

fn write_open_control(arena: &mut [u8], total_size: u32, nonce: u64)
    requires
        old(arena)@.len() >= 256,
    ensures
        control_block_written(final(arena)@, total_size),
        le32(final(arena)@, 160) == STATE_READY,
        le32(final(arena)@, 164) == 0,
        le32(final(arena)@, 168) == 0,
        le64(final(arena)@, 176) == nonce,
        final(arena)@.len() == old(arena)@.len(),
        forall|i: int| 0 <= i < old(arena)@.len() && !(0 <= i < 40) && !(160 <= i < 184) ==> #[trigger] final(arena)@[i]
            == old(arena)@[i],
{
    let _ = write_control_block(arena, total_size);
    let ghost a1 = arena@;
    let _ = set_control_state(arena, STATE_READY);
    let ghost a2 = arena@;
    let _ = set_control_fault_code(arena, 0);
    let ghost a3 = arena@;
    let _ = set_control_nonce(arena, nonce);
    proof {
        let a4 = arena@;
        lemma_control_block_kept(a1, a4, total_size);
        crate::bytes::lemma_le32_agree(a2, a4, 160);
        crate::bytes::lemma_le32_agree(a3, a4, 164);
        crate::bytes::lemma_le32_agree(a3, a4, 168);
    }
}

#[verifier::spinoff_prover]
#[verifier::rlimit(40)]
fn write_ring_headers(arena: &mut [u8], capacities: &[u32; CLASS_COUNT])
    requires
        rings_span(capacities@, CLASS_COUNT as int) <= EVENT_TABLE_SIZE,
        EVENT_TABLE_OFFSET + EVENT_TABLE_SIZE <= old(arena)@.len(),
    ensures
        forall|c: int| 0 <= c < CLASS_COUNT ==> #[trigger] spec_ring_header(final(arena)@, spec_ring_offset(capacities@, c))
            == empty_ring_header(capacities@[c]),
        same_outside(
            old(arena)@,
            final(arena)@,
            EVENT_TABLE_OFFSET as int,
            EVENT_TABLE_OFFSET + rings_span(capacities@, CLASS_COUNT as int),
        ),
{
    let ghost caps = capacities@;
    let ghost span = rings_span(caps, CLASS_COUNT as int);
    let mut class: usize = 0;
    while class < CLASS_COUNT
        invariant
            caps == capacities@,
            span == rings_span(caps, CLASS_COUNT as int),
            span <= EVENT_TABLE_SIZE,
            EVENT_TABLE_OFFSET + EVENT_TABLE_SIZE <= old(arena)@.len(),
            class <= CLASS_COUNT,
            same_outside(old(arena)@, arena@, EVENT_TABLE_OFFSET as int, EVENT_TABLE_OFFSET + rings_span(caps, class as int)),
            forall|c: int| 0 <= c < class ==> #[trigger] spec_ring_header(arena@, spec_ring_offset(caps, c))
                == empty_ring_header(caps[c]),
        decreases CLASS_COUNT - class,
    {
        proof {
            lemma_ring_geometry(caps, class as int);
            crate::session::arena::lemma_rings_span_monotone(caps, class as int, CLASS_COUNT as int);
        }
        let at = ring_offset(capacities, class);
        let ghost before = arena@;
        let _ = write_ring_header(arena, at, capacities[class]);
        proof {
            assert forall|c: int| 0 <= c < class + 1 implies #[trigger] spec_ring_header(arena@, spec_ring_offset(caps, c))
                == empty_ring_header(caps[c]) by {
                if c < class {
                    lemma_ring_geometry(caps, c);
                    crate::session::arena::lemma_rings_span_monotone(caps, c + 1, class as int);
                    lemma_header_agree(before, arena@, spec_ring_offset(caps, c));
                }
            }
        }
        class = class + 1;
    }
}

impl Session {
    fn open_state_check(&self) -> (r: Result<(), SessionError>)
        ensures
            r == (match open_state_error(self@.state) {
                Some(e) => Err(e),
                None => Ok(()),
            }),
    {
        match self.state {
            SessionState::Uninit | SessionState::Closed => Ok(()),
            other => Err(SessionError::NotUninit { state: other }),
        }
    }

    fn check_callbacks_record(&self, record: &CallbacksRecord) -> (r: Result<(), SessionError>)
        ensures
            r == (match callbacks_record_error(*record) {
                Some(e) => Err(e),
                None => Ok(()),
            }),
    {
        if record.abi_version != ABI_VERSION {
            return Err(SessionError::CallbacksAbi { guest: record.abi_version, session: ABI_VERSION });
        }
        if record.slot_count > CALLBACKS_SLOTS {
            return Err(SessionError::CallbacksSlots { count: record.slot_count });
        }
        Ok(())
    }

    fn verify_open_preconditions(&self, arena_bytes: &[u8], memory_base: usize) -> (r: Result<(), SessionError>)
        requires
            arena_bytes@.len() >= 256,
            self@.memory_base + CANARY_STRIDE <= usize::MAX,
        ensures
            open_preconditions_outcome(arena_bytes@, self@, memory_base as int, r),
    {
        check_control_triple(arena_bytes, self.layout_hash)?;
        let end = if memory_base < self.memory_base as usize { memory_base } else { self.memory_base as usize };
        if end > LAYOUT_FLOOR {
            check_canaries(arena_bytes, LAYOUT_FLOOR, end)
        } else {
            Ok(())
        }
    }

    /// The second half of `session_open`: everything after the guest's bytes
    /// are in hand and the callbacks are resolved. Every check runs before
    /// any write, so a refusal changes nothing; an accepted open restates the
    /// control block, reports `READY` with `nonce`, echoes the config in
    /// `SessionInfo`, writes every ring header, and moves to `READY`.
    #[verifier::spinoff_prover]
    #[verifier::rlimit(60)]
    pub fn apply_open(
        &mut self,
        arena_bytes: &mut [u8],
        decoded: &SessionConfig,
        callbacks_record: &CallbacksRecord,
        resolved: ResolvedCallbacks,
        nonce: u64,
    ) -> (r: Result<(), SessionError>)
        requires
            session_wf(old(self)@),
            old(self)@.memory_base + CANARY_STRIDE <= usize::MAX,
        ensures
            ({
                let v = old(self)@;
                let len = old(arena_bytes)@.len() as int;
                let refusal = open_guard_error(v, len, *decoded, *callbacks_record);
                &&& refusal is Some ==> r == Err::<(), SessionError>(refusal->0)
                &&& refusal is None ==> open_preconditions_outcome(
                    old(arena_bytes)@,
                    v,
                    decoded.max_arena_size as int,
                    match r {
                        Ok(()) => Ok(()),
                        Err(e) => Err(e),
                    },
                )
                &&& r is Err ==> final(arena_bytes)@ == old(arena_bytes)@ && final(self)@ == v
                &&& r is Ok ==> {
                    &&& refusal is None
                    &&& final(self)@ == (SessionView {
                        state: SessionState::Ready,
                        arena_size: decoded.arena_size,
                        max_arena_size: decoded.max_arena_size,
                        memory_base: decoded.max_arena_size,
                        ring_capacities: decoded.ring_capacities@,
                        callbacks: Some(resolved),
                        ..v
                    })
                    &&& opened(final(arena_bytes)@, *decoded, v.initial_pages, v.max_pages, nonce)
                    &&& final(arena_bytes)@.len() == old(arena_bytes)@.len()
                    &&& forall|i: int| 0 <= i < len && !open_touches(*decoded, i) ==> #[trigger] final(arena_bytes)@[i]
                        == old(arena_bytes)@[i]
                }
            }),
            session_wf(final(self)@),
    {
        let ghost v = self@;
        self.open_state_check()?;
        self.check_callbacks_record(callbacks_record)?;
        match validate_with_regions(decoded, ABI_VERSION as u32, self.layout_hash, self.required_regions.as_slice()) {
            Ok(()) => {},
            Err(e) => {
                return Err(SessionError::Config(e));
            },
        }
        let memory_size = arena_bytes.len();
        if decoded.arena_size as usize > memory_size {
            return Err(SessionError::ArenaDoesNotFit { need: decoded.arena_size as usize, have: memory_size });
        }
        if decoded.max_arena_size as usize > memory_size {
            return Err(SessionError::ArenaDoesNotFit { need: decoded.max_arena_size as usize, have: memory_size });
        }
        self.verify_open_preconditions(arena_bytes, decoded.max_arena_size as usize)?;
        let ghost a0 = arena_bytes@;
        write_open_control(arena_bytes, decoded.max_arena_size, nonce);
        let ghost a1 = arena_bytes@;
        let info = SessionInfoValues {
            arena_size: decoded.arena_size,
            max_arena_size: decoded.max_arena_size,
            memory_base: decoded.max_arena_size,
            initial_pages: self.initial_pages,
            max_pages: self.max_pages,
            open_nonce: nonce,
            class_capacities: decoded.ring_capacities,
        };
        let _ = write_session_info(arena_bytes, &info);
        let ghost a2 = arena_bytes@;
        write_ring_headers(arena_bytes, &decoded.ring_capacities);
        proof {
            let a3 = arena_bytes@;
            lemma_control_block_kept(a1, a3, decoded.max_arena_size);
            crate::bytes::lemma_le32_agree(a1, a3, 160);
            crate::bytes::lemma_le32_agree(a1, a3, 164);
            crate::bytes::lemma_le32_agree(a1, a3, 168);
            crate::bytes::lemma_le64_agree(a1, a3, 176);
            lemma_session_info_kept(a2, a3, info);
        }
        self.arena_size = decoded.arena_size;
        self.max_arena_size = decoded.max_arena_size;
        self.memory_base = decoded.max_arena_size;
        self.ring_capacities = decoded.ring_capacities;
        self.callbacks = Some(resolved);
        self.state = SessionState::Ready;
        Ok(())
    }

    /// The host's own open: the same `apply_open` the verb reaches, with the
    /// config built here (this build's ABI and hash, the stated sizes, no
    /// callbacks record, the default capacities) and the callbacks the caller
    /// resolved.
    pub fn open_from_host_with_callbacks(
        &mut self,
        arena_bytes: &mut [u8],
        arena_size: u32,
        max_arena_size: u32,
        record: &CallbacksRecord,
        resolved: ResolvedCallbacks,
        nonce: u64,
    ) -> (r: Result<(), SessionError>)
        requires
            session_wf(old(self)@),
            old(self)@.memory_base + CANARY_STRIDE <= usize::MAX,
        ensures
            session_wf(final(self)@),
            ({
                let d = host_config(old(self)@, arena_size, max_arena_size);
                let refusal = open_guard_error(old(self)@, old(arena_bytes)@.len() as int, d, *record);
                &&& refusal is Some ==> r == Err::<(), SessionError>(refusal->0)
                &&& r is Err ==> final(arena_bytes)@ == old(arena_bytes)@ && final(self)@ == old(self)@
                &&& r is Ok ==> refusal is None && final(self)@.state == SessionState::Ready && opened(
                    final(arena_bytes)@,
                    d,
                    old(self)@.initial_pages,
                    old(self)@.max_pages,
                    nonce,
                )
            }),
    {
        let decoded = SessionConfig {
            abi_version: ABI_VERSION as u32,
            layout_hash: self.layout_hash,
            arena_size,
            max_arena_size,
            callbacks_ptr: 0,
            callbacks_len: 0,
            ring_capacities: DEFAULT_RING_CAPACITIES,
            ring_stated: [false; CLASS_COUNT],
        };
        proof {
            assert(decoded == host_config(self@, arena_size, max_arena_size));
        }
        self.apply_open(arena_bytes, &decoded, record, resolved, nonce)
    }

    /// The host's own open with no callbacks at all.
    pub fn open_from_host(&mut self, arena_bytes: &mut [u8], arena_size: u32, max_arena_size: u32, nonce: u64) -> (r:
        Result<(), SessionError>)
        requires
            session_wf(old(self)@),
            old(self)@.memory_base + CANARY_STRIDE <= usize::MAX,
        ensures
            session_wf(final(self)@),
            ({
                let d = host_config(old(self)@, arena_size, max_arena_size);
                let refusal = open_guard_error(
                    old(self)@,
                    old(arena_bytes)@.len() as int,
                    d,
                    CallbacksRecord { abi_version: ABI_VERSION, slot_count: 0, flags: 0, on_batch: 0, on_event: 0 },
                );
                &&& refusal is Some ==> r == Err::<(), SessionError>(refusal->0)
                &&& r is Err ==> final(arena_bytes)@ == old(arena_bytes)@ && final(self)@ == old(self)@
                &&& r is Ok ==> refusal is None && final(self)@.state == SessionState::Ready && opened(
                    final(arena_bytes)@,
                    d,
                    old(self)@.initial_pages,
                    old(self)@.max_pages,
                    nonce,
                )
            }),
    {
        self.open_from_host_with_callbacks(
            arena_bytes,
            arena_size,
            max_arena_size,
            &CallbacksRecord::absent(),
            ResolvedCallbacks::none(),
            nonce,
        )
    }

    /// Close the session. Idempotent from every state: a closed session
    /// answers `Ok` and changes nothing; any other reports `CLOSED` in the
    /// control block, drops its callbacks, and moves to `CLOSED`. The memory
    /// and the rest of the arena are left alone.
    pub fn close(&mut self, arena_bytes: &mut [u8]) -> (r: Result<(), SessionError>)
        requires
            session_wf(old(self)@),
        ensures
            session_wf(final(self)@),
            close_effect(old(self)@, old(arena_bytes)@, final(self)@, final(arena_bytes)@, r),
    {
        if self.state == SessionState::Closed {
            return Ok(());
        }
        match set_control_state(arena_bytes, STATE_CLOSED) {
            Ok(()) => {},
            Err(e) => {
                return Err(SessionError::Layout(e));
            },
        }
        self.callbacks = None;
        self.state = SessionState::Closed;
        Ok(())
    }
}

/// The config the host's own open builds.
pub open spec fn host_config(v: SessionView, arena_size: u32, max_arena_size: u32) -> SessionConfig {
    SessionConfig {
        abi_version: ABI_VERSION as u32,
        layout_hash: v.layout_hash,
        arena_size,
        max_arena_size,
        callbacks_ptr: 0,
        callbacks_len: 0,
        ring_capacities: DEFAULT_RING_CAPACITIES,
        ring_stated: [false; CLASS_COUNT],
    }
}

/// What `close` does: nothing to a closed session; otherwise the control
/// block reports `CLOSED` (refused, with nothing changed, when the arena is
/// too short to hold a control block), the callbacks are dropped and the
/// state is `CLOSED`.
pub open spec fn close_effect(v: SessionView, a: Seq<u8>, w: SessionView, b: Seq<u8>, r: Result<(), SessionError>) -> bool {
    if v.state == SessionState::Closed {
        r is Ok && w == v && b == a
    } else if a.len() < 256 {
        r matches Err(SessionError::Layout(e)) && e == (LayoutError::BufferTooSmall { need: 256, have: a.len() as usize })
            && w == v && b == a
    } else {
        &&& r is Ok
        &&& w == (SessionView { state: SessionState::Closed, callbacks: None, ..v })
        &&& le32(b, 160) == STATE_CLOSED
        &&& same_outside(a, b, 160, 164)
    }
}

/// Closing is idempotent: a second close after a successful one changes
/// nothing and answers `Ok`.
pub proof fn lemma_close_idempotent(
    v: SessionView,
    a: Seq<u8>,
    w: SessionView,
    b: Seq<u8>,
    w2: SessionView,
    c: Seq<u8>,
    r2: Result<(), SessionError>,
)
    requires
        close_effect(v, a, w, b, Ok(())),
        close_effect(w, b, w2, c, r2),
    ensures
        w.state == SessionState::Closed,
        r2 is Ok,
        w2 == w,
        c == b,
{
}

} // verus!
