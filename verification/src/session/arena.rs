//! The arena's layout: offsets, region table, manifest, and the shape hash.
//!
//! Pure arithmetic over a byte slice. The layout is frozen: the twelve region
//! kinds are `kind == index`, every region's offset is a constant, and
//! `arena_size` only selects how much of the band is live.
//!
//! ```text
//! 0x000  ArenaControl          256 B
//! 0x100  SessionInfo           128 B
//! 0x200  RegionDesc[12]        288 B   (24 B each, kind == index)
//! 0x320  manifest               72 B   (9 types x 8 B)
//! 0x1000 FRAME_STATE ... BUFFER_POOL, up to LAYOUT_FLOOR (0x5F6020)
//! ```

use vstd::prelude::*;
use vstd::string::{StringExecFns, StringSliceAdditionalSpecFns};

use crate::bytes::{
    all_zero, le16, le32, le64, load_u16, load_u32, load_u64, same_outside, store_u16, store_u32,
    store_u64,
};

verus! {

/// ASCII `TNSARENA`, little-endian in one `u64`.
pub const MAGIC: u64 = 0x414E_4552_4153_4E54;

/// The arena's own layout version.
pub const FORMAT_VERSION: u16 = 1;

/// The wire catalogue's version.
pub const SCHEMA_VERSION: u16 = 1;

/// The adapter ABI version the arena was written for.
pub const ABI_VERSION: u16 = 1;

// ── the header page ───────────────────────────────────────────────────────
pub const CONTROL_OFFSET: usize = 0x000;

pub const CONTROL_SIZE: usize = 256;

pub const SESSION_INFO_OFFSET: usize = 0x100;

pub const SESSION_INFO_SIZE: usize = 128;

pub const REGION_TABLE_OFFSET: usize = 0x200;

pub const REGION_DESC_SIZE: usize = 24;

pub const REGION_COUNT: usize = 12;

pub const MANIFEST_OFFSET: usize = 0x320;

pub const MANIFEST_ENTRY_SIZE: usize = 8;

pub const HEADER_PAGE_SIZE: usize = 0x1000;

// ── ArenaControl fields ───────────────────────────────────────────────────
pub const CONTROL_MAGIC: usize = 0;

pub const CONTROL_FORMAT_VERSION: usize = 8;

pub const CONTROL_SCHEMA_VERSION: usize = 10;

pub const CONTROL_ABI_VERSION: usize = 12;

pub const CONTROL_FLAGS: usize = 14;

pub const CONTROL_TOTAL_SIZE: usize = 16;

pub const CONTROL_LAYOUT_HASH: usize = 20;

pub const CONTROL_REGION_COUNT: usize = 24;

pub const CONTROL_REGION_TABLE_OFF: usize = 28;

pub const CONTROL_MANIFEST_OFF: usize = 32;

pub const CONTROL_MANIFEST_LEN: usize = 36;

/// The session-owned tail begins here.
pub const CONTROL_STATE: usize = 160;

pub const CONTROL_FAULT_CODE: usize = 164;

pub const CONTROL_FAULT_DETAIL: usize = 168;

pub const CONTROL_SESSION_NONCE: usize = 176;

// ── SessionInfo fields ────────────────────────────────────────────────────
pub const SESSION_INFO_MAGIC: usize = 0;

pub const SESSION_INFO_ABI_VERSION: usize = 8;

pub const SESSION_INFO_SCHEMA_VERSION: usize = 10;

pub const SESSION_INFO_FLAGS: usize = 12;

pub const SESSION_INFO_ARENA_SIZE: usize = 16;

pub const SESSION_INFO_MAX_ARENA_SIZE: usize = 20;

pub const SESSION_INFO_MEMORY_BASE: usize = 24;

pub const SESSION_INFO_INITIAL_PAGES: usize = 28;

pub const SESSION_INFO_MAX_PAGES: usize = 32;

pub const SESSION_INFO_LAYOUT_HASH: usize = 36;

pub const SESSION_INFO_REGION_COUNT: usize = 40;

pub const SESSION_INFO_CLASS_COUNT: usize = 44;

pub const SESSION_INFO_CLASS_CAPACITY: usize = 48;

pub const SESSION_INFO_OPEN_NONCE: usize = 88;

// ── the session state machine's values ───────────────────────────────────
pub const STATE_UNINIT: u32 = 0;

pub const STATE_READY: u32 = 1;

pub const STATE_FAULTED: u32 = 2;

pub const STATE_CLOSED: u32 = 3;

/// `FrameState.faultState` reasons.
pub const FAULT_CALLBACK_TRAP: u32 = 1;

pub const FAULT_DEVICE_LOST: u32 = 2;

pub const FAULT_OOM: u32 = 3;

pub const FAULT_SHUTDOWN: u32 = 4;

// ── event classes and delivery modes ──────────────────────────────────────
/// The ten classes, in the frozen id order (urgent first).
pub const CLASS_COUNT: usize = 10;

pub const MODE_DIRECT: u32 = 1;

pub const MODE_BATCHED: u32 = 2;

pub const MODE_RING: u32 = 3;

pub const MODE_POLLED: u32 = 4;

/// One `EventRecord`, in bytes: the stride of every class sub-ring.
pub const EVENT_RECORD_SIZE: usize = 32;

/// One sub-ring's header (`TableHeader`), in bytes.
pub const RING_HEADER_SIZE: usize = 32;

/// `TableHeader` fields.
pub const TABLE_HEAD: usize = 0;

pub const TABLE_TAIL: usize = 4;

pub const TABLE_CAPACITY: usize = 8;

pub const TABLE_STRIDE: usize = 12;

pub const TABLE_GENERATION: usize = 16;

pub const TABLE_DROPPED: usize = 20;

pub const TABLE_DELIVERED: usize = 24;

/// `EventRecord` fields.
pub const EVENT_SEQ: usize = 0;

pub const EVENT_CLASS: usize = 8;

pub const EVENT_FLAGS: usize = 12;

pub const EVENT_A: usize = 16;

pub const EVENT_B: usize = 20;

pub const EVENT_F0: usize = 24;

pub const EVENT_F1: usize = 28;

/// `RegionDesc` fields.
pub const REGION_DESC_KIND: usize = 0;

pub const REGION_DESC_FLAGS: usize = 4;

pub const REGION_DESC_OFFSET: usize = 8;

pub const REGION_DESC_SIZE_FIELD: usize = 12;

pub const REGION_DESC_ALIGN: usize = 16;

pub const REGION_DESC_RESERVED: usize = 20;

/// `StringHalf` fields.
pub const STRING_HALF_OFFSET: usize = 0;

pub const STRING_HALF_LENGTH: usize = 4;

pub const STRING_HALF_CAPACITY: usize = 8;

pub const STRING_HALF_FLAGS: usize = 12;

/// `Subscription` fields.
pub const SUBSCRIPTION_CLASS: usize = 0;

pub const SUBSCRIPTION_MODE: usize = 4;

pub const SUBSCRIPTION_FLAGS: usize = 8;

pub const SUBSCRIPTION_RESERVED: usize = 12;

/// `FrameState` fields.
pub const FRAME_INDEX: usize = 0;

pub const FRAME_DROPPED_EVENTS: usize = 4;

pub const FRAME_FAULT_STATE: usize = 8;

pub const FRAME_LAST_ERROR: usize = 12;

/// Where the defined part of `FrameState` ends.
pub const FRAME_STATE_HEADER: usize = 64;

/// `Callbacks` fields.
pub const CALLBACKS_ABI_VERSION: usize = 0;

pub const CALLBACKS_SLOT_COUNT: usize = 2;

pub const CALLBACKS_FLAGS: usize = 4;

pub const CALLBACKS_ON_BATCH: usize = 8;

pub const CALLBACKS_ON_EVENT: usize = 12;

/// The slots this build defines.
pub const CALLBACKS_SLOTS: u16 = 2;

/// The ten class ids, by name.
pub const CLASS_DEVICE_LOST: u32 = 0;

pub const CLASS_JOB_FAILED: u32 = 1;

pub const CLASS_RESOURCE_FAILED: u32 = 2;

pub const CLASS_SUBMISSION_REJECTED: u32 = 3;

pub const CLASS_JOB_DONE: u32 = 4;

pub const CLASS_RESOURCE_READY: u32 = 5;

pub const CLASS_INPUT_KEY: u32 = 6;

pub const CLASS_INPUT_MOUSE: u32 = 7;

pub const CLASS_LOG: u32 = 8;

pub const CLASS_FRAME: u32 = 9;

/// The default ring capacity per class, in class-id order.
pub const DEFAULT_RING_CAPACITIES: [u32; CLASS_COUNT] = [
    1,
    256,
    256,
    64,
    4096,
    4096,
    256,
    64,
    1024,
    256,
];

/// The default delivery mode per class, in class-id order.
pub const DEFAULT_CLASS_MODES: [u32; CLASS_COUNT] = [
    MODE_DIRECT,
    MODE_DIRECT,
    MODE_DIRECT,
    MODE_DIRECT,
    MODE_BATCHED,
    MODE_BATCHED,
    MODE_BATCHED,
    MODE_BATCHED,
    MODE_BATCHED,
    MODE_POLLED,
];

/// `class_info`'s flags word: the class is subscribed.
pub const CLASS_FLAG_SUBSCRIBED: u32 = 1;

/// Region descriptor `flags` bits.
pub const RD_GUEST_WRITES: u32 = 1;

pub const RD_SESSION_WRITES: u32 = 2;

pub const RD_WRITES_ONCE: u32 = 4;

pub const RD_BYTES: u32 = 8;

/// The twelve region kinds, in the frozen order (`kind == index`).
pub const REGION_CONTROL: u32 = 0;

pub const REGION_SESSION_INFO: u32 = 1;

pub const REGION_FRAME_STATE: u32 = 2;

pub const REGION_JOB: u32 = 3;

pub const REGION_RESOURCE: u32 = 4;

pub const REGION_EVENT_TABLE: u32 = 5;

pub const REGION_STRING: u32 = 6;

pub const REGION_RESOURCE_REQ: u32 = 7;

pub const REGION_SCENE: u32 = 8;

pub const REGION_MATERIAL: u32 = 9;

pub const REGION_RENDERABLE: u32 = 10;

pub const REGION_BUFFER_POOL: u32 = 11;

/// Region sizes; every one is a multiple of 16.
pub const FRAME_STATE_SIZE: usize = 4096;

pub const JOB_SIZE: usize = 49152;

pub const RESOURCE_SIZE: usize = 49152;

pub const EVENT_TABLE_SIZE: usize = 393216;

pub const STRING_HALF_SIZE: usize = 16;

pub const STRING_SIZE: usize = 1048608;

pub const RESOURCE_REQ_SIZE: usize = 49152;

pub const SCENE_SIZE: usize = 262144;

pub const MATERIAL_SIZE: usize = 65536;

pub const RENDERABLE_SIZE: usize = 131072;

pub const BUFFER_POOL_SIZE: usize = 4194304;

// The band, in kind order.
pub const FRAME_STATE_OFFSET: usize = 0x1000;

pub const JOB_OFFSET: usize = 0x2000;

pub const RESOURCE_OFFSET: usize = 0xE000;

pub const EVENT_TABLE_OFFSET: usize = 0x1A000;

pub const STRING_OFFSET: usize = 0x7A000;

pub const RESOURCE_REQ_OFFSET: usize = 0x17A020;

pub const SCENE_OFFSET: usize = 0x186020;

pub const MATERIAL_OFFSET: usize = 0x1C6020;

pub const RENDERABLE_OFFSET: usize = 0x1D6020;

pub const BUFFER_POOL_OFFSET: usize = 0x1F6020;

/// One past the last byte the frozen layout uses.
pub const LAYOUT_FLOOR: usize = 0x5F6020;

/// The default reserved ceiling, and therefore the default `memoryBase`.
pub const DEFAULT_MAX_ARENA_SIZE: usize = 0x80_0000;

/// The number of protocol types in the manifest.
pub const TYPE_COUNT: usize = 9;

pub const MANIFEST_LEN: usize = 72;

/// The `Callbacks` record's size, as the manifest pins it.
pub const CALLBACKS_SIZE: usize = 64;

/// The `Subscription` record's size, as the manifest pins it.
pub const SUBSCRIPTION_SIZE: usize = 16;

/// The stride between canary blocks.
pub const CANARY_STRIDE: usize = 4096;

/// The bytes each canary block occupies: a value and its complement.
pub const CANARY_BLOCK: usize = 16;

/// The constant a block's value is folded with.
pub const CANARY_MAGIC: u64 = 0x9E37_79B9_7F4A_7C15;


// ── errors ────────────────────────────────────────────────────────────────
/// A layout write that cannot be performed. Every variant names the numbers.
#[derive(Copy, Clone, Debug, PartialEq, Eq, Structural)]
pub enum LayoutError {
    /// The arena slice is smaller than the write needs.
    BufferTooSmall { need: usize, have: usize },
    /// A write would land at an offset that is not a multiple of its alignment.
    Misaligned { offset: usize, align: usize },
}

/// A layout refusal as its diagnostic prints it: the variant and its numbers.
pub open spec fn layout_error_text(e: LayoutError) -> Seq<char> {
    match e {
        LayoutError::BufferTooSmall { need, have } => "BufferTooSmall { need: "@ + crate::text::decimal(
            need as nat,
        ) + ", have: "@ + crate::text::decimal(have as nat) + " }"@,
        LayoutError::Misaligned { offset, align } => "Misaligned { offset: "@ + crate::text::decimal(
            offset as nat,
        ) + ", align: "@ + crate::text::decimal(align as nat) + " }"@,
    }
}

impl LayoutError {
    /// The refusal as its diagnostic prints it.
    pub fn message(&self) -> (r: String)
        ensures
            r@ == layout_error_text(*self),
    {
        let mut out = String::new();
        match self {
            LayoutError::BufferTooSmall { need, have } => {
                out.append("BufferTooSmall { need: ");
                crate::text::push_decimal(&mut out, *need as u64);
                out.append(", have: ");
                crate::text::push_decimal(&mut out, *have as u64);
                out.append(" }");
            },
            LayoutError::Misaligned { offset, align } => {
                out.append("Misaligned { offset: ");
                crate::text::push_decimal(&mut out, *offset as u64);
                out.append(", align: ");
                crate::text::push_decimal(&mut out, *align as u64);
                out.append(" }");
            },
        }
        proof {
            assert(out@ =~= layout_error_text(*self));
        }
        out
    }
}

// ── primitive writes ──────────────────────────────────────────────────────
/// The whole-structure bounds check every writer starts with.
fn require(arena: &[u8], need: usize) -> (r: Result<(), LayoutError>)
    ensures
        r == (if arena@.len() < need {
            Err(LayoutError::BufferTooSmall { need, have: arena@.len() as usize })
        } else {
            Ok(())
        }),
{
    if arena.len() < need {
        return Err(LayoutError::BufferTooSmall { need, have: arena.len() });
    }
    Ok(())
}

/// What `put_u16` does to a buffer of the given length.
pub open spec fn put16_outcome(len: int, at: int) -> Result<(), LayoutError> {
    if at + 2 > len {
        Err(LayoutError::BufferTooSmall { need: (at + 2) as usize, have: len as usize })
    } else {
        Ok(())
    }
}

/// What `put_u32` does to a buffer of the given length.
pub open spec fn put32_outcome(len: int, at: int) -> Result<(), LayoutError> {
    if at + 4 > len {
        Err(LayoutError::BufferTooSmall { need: (at + 4) as usize, have: len as usize })
    } else if at % 4 != 0 {
        Err(LayoutError::Misaligned { offset: at as usize, align: 4 })
    } else {
        Ok(())
    }
}

/// What `put_u64` does to a buffer of the given length.
pub open spec fn put64_outcome(len: int, at: int) -> Result<(), LayoutError> {
    if at + 8 > len {
        Err(LayoutError::BufferTooSmall { need: (at + 8) as usize, have: len as usize })
    } else if at % 8 != 0 {
        Err(LayoutError::Misaligned { offset: at as usize, align: 8 })
    } else {
        Ok(())
    }
}

fn put_u16(arena: &mut [u8], at: usize, value: u16) -> (r: Result<(), LayoutError>)
    requires
        at + 2 <= usize::MAX,
    ensures
        r == put16_outcome(old(arena)@.len() as int, at as int),
        r is Ok ==> le16(final(arena)@, at as int) == value as int,
        r is Ok ==> same_outside(old(arena)@, final(arena)@, at as int, at + 2),
        r is Err ==> final(arena)@ == old(arena)@,
{
    let end = at + 2;
    if end > arena.len() {
        return Err(LayoutError::BufferTooSmall { need: end, have: arena.len() });
    }
    store_u16(arena, at, value);
    Ok(())
}

fn put_u32(arena: &mut [u8], at: usize, value: u32) -> (r: Result<(), LayoutError>)
    requires
        at + 4 <= usize::MAX,
    ensures
        r == put32_outcome(old(arena)@.len() as int, at as int),
        r is Ok ==> le32(final(arena)@, at as int) == value as int,
        r is Ok ==> same_outside(old(arena)@, final(arena)@, at as int, at + 4),
        r is Err ==> final(arena)@ == old(arena)@,
{
    let end = at + 4;
    if end > arena.len() {
        return Err(LayoutError::BufferTooSmall { need: end, have: arena.len() });
    }
    if at % 4 != 0 {
        return Err(LayoutError::Misaligned { offset: at, align: 4 });
    }
    store_u32(arena, at, value);
    Ok(())
}

fn put_u64(arena: &mut [u8], at: usize, value: u64) -> (r: Result<(), LayoutError>)
    requires
        at + 8 <= usize::MAX,
    ensures
        r == put64_outcome(old(arena)@.len() as int, at as int),
        r is Ok ==> le64(final(arena)@, at as int) == value as int,
        r is Ok ==> same_outside(old(arena)@, final(arena)@, at as int, at + 8),
        r is Err ==> final(arena)@ == old(arena)@,
{
    let end = at + 8;
    if end > arena.len() {
        return Err(LayoutError::BufferTooSmall { need: end, have: arena.len() });
    }
    if at % 8 != 0 {
        return Err(LayoutError::Misaligned { offset: at, align: 8 });
    }
    store_u64(arena, at, value);
    Ok(())
}

/// The 32-bit little-endian word at `at`.
pub fn u32_at(arena: &[u8], at: usize) -> (r: u32)
    requires
        at + 4 <= arena.len(),
    ensures
        r as int == le32(arena@, at as int),
{
    load_u32(arena, at)
}

// ── the catalogues ────────────────────────────────────────────────────────
/// A class's name, by id.
pub open spec fn spec_class_name(id: u32) -> Seq<char> {
    if id == 0 {
        "DEVICE_LOST"@
    } else if id == 1 {
        "JOB_FAILED"@
    } else if id == 2 {
        "RESOURCE_FAILED"@
    } else if id == 3 {
        "SUBMISSION_REJECTED"@
    } else if id == 4 {
        "JOB_DONE"@
    } else if id == 5 {
        "RESOURCE_READY"@
    } else if id == 6 {
        "INPUT_KEY"@
    } else if id == 7 {
        "INPUT_MOUSE"@
    } else if id == 8 {
        "LOG"@
    } else if id == 9 {
        "FRAME"@
    } else {
        "<unknown>"@
    }
}

/// A class's name, or `"<unknown>"` for an id this build does not define.
pub fn class_name(id: u32) -> (r: &'static str)
    ensures
        r@ == spec_class_name(id),
{
    match id {
        0 => "DEVICE_LOST",
        1 => "JOB_FAILED",
        2 => "RESOURCE_FAILED",
        3 => "SUBMISSION_REJECTED",
        4 => "JOB_DONE",
        5 => "RESOURCE_READY",
        6 => "INPUT_KEY",
        7 => "INPUT_MOUSE",
        8 => "LOG",
        9 => "FRAME",
        _ => "<unknown>",
    }
}

/// The region kinds' names, in kind order: diagnostics only, not part of the
/// wire and not an input to the layout hash.
pub const REGION_NAMES: [&'static str; REGION_COUNT] = [
    "CONTROL",
    "SESSION_INFO",
    "FRAME_STATE",
    "JOB",
    "RESOURCE",
    "EVENT_TABLE",
    "STRING",
    "RESOURCE_REQ",
    "SCENE",
    "MATERIAL",
    "RENDERABLE",
    "BUFFER_POOL",
];

/// A region kind's name, for diagnostics only.
pub open spec fn spec_region_name(kind: u32) -> Seq<char> {
    if kind == 0 {
        "CONTROL"@
    } else if kind == 1 {
        "SESSION_INFO"@
    } else if kind == 2 {
        "FRAME_STATE"@
    } else if kind == 3 {
        "JOB"@
    } else if kind == 4 {
        "RESOURCE"@
    } else if kind == 5 {
        "EVENT_TABLE"@
    } else if kind == 6 {
        "STRING"@
    } else if kind == 7 {
        "RESOURCE_REQ"@
    } else if kind == 8 {
        "SCENE"@
    } else if kind == 9 {
        "MATERIAL"@
    } else if kind == 10 {
        "RENDERABLE"@
    } else if kind == 11 {
        "BUFFER_POOL"@
    } else {
        "<unknown>"@
    }
}

/// The name of a region kind, or `"<unknown>"` for a kind this layout does
/// not define.
pub fn region_name(kind: u32) -> (r: &'static str)
    ensures
        r@ == spec_region_name(kind),
{
    match kind {
        0 => "CONTROL",
        1 => "SESSION_INFO",
        2 => "FRAME_STATE",
        3 => "JOB",
        4 => "RESOURCE",
        5 => "EVENT_TABLE",
        6 => "STRING",
        7 => "RESOURCE_REQ",
        8 => "SCENE",
        9 => "MATERIAL",
        10 => "RENDERABLE",
        11 => "BUFFER_POOL",
        _ => "<unknown>",
    }
}

/// One region's descriptor: exactly the 24 bytes the guest reads at
/// `0x200 + kind * 24`.
#[derive(Copy, Clone, Debug, PartialEq, Eq, Structural)]
pub struct RegionDesc {
    pub kind: u32,
    pub flags: u32,
    pub offset: u32,
    pub size: u32,
    pub align: u32,
}

/// The frozen region table, in kind order (`kind == index`).
pub open spec fn spec_region(kind: int) -> RegionDesc {
    if kind == 0 {
        RegionDesc { kind: 0, flags: 6, offset: 0, size: 256, align: 64 }
    } else if kind == 1 {
        RegionDesc { kind: 1, flags: 6, offset: 0x100, size: 128, align: 16 }
    } else if kind == 2 {
        RegionDesc { kind: 2, flags: 2, offset: 0x1000, size: 4096, align: 16 }
    } else if kind == 3 {
        RegionDesc { kind: 3, flags: 2, offset: 0x2000, size: 49152, align: 16 }
    } else if kind == 4 {
        RegionDesc { kind: 4, flags: 2, offset: 0xE000, size: 49152, align: 16 }
    } else if kind == 5 {
        RegionDesc { kind: 5, flags: 2, offset: 0x1A000, size: 393216, align: 16 }
    } else if kind == 6 {
        RegionDesc { kind: 6, flags: 3, offset: 0x7A000, size: 1048608, align: 16 }
    } else if kind == 7 {
        RegionDesc { kind: 7, flags: 1, offset: 0x17A020, size: 49152, align: 16 }
    } else if kind == 8 {
        RegionDesc { kind: 8, flags: 1, offset: 0x186020, size: 262144, align: 16 }
    } else if kind == 9 {
        RegionDesc { kind: 9, flags: 1, offset: 0x1C6020, size: 65536, align: 16 }
    } else if kind == 10 {
        RegionDesc { kind: 10, flags: 1, offset: 0x1D6020, size: 131072, align: 16 }
    } else {
        RegionDesc { kind: 11, flags: 9, offset: 0x1F6020, size: 4194304, align: 16 }
    }
}

/// The frozen region table, in kind order.
pub fn regions() -> (r: [RegionDesc; REGION_COUNT])
    ensures
        forall|i: int| 0 <= i < REGION_COUNT ==> #[trigger] r@[i] == spec_region(i),
{
    let r = [
        RegionDesc { kind: 0, flags: RD_SESSION_WRITES | RD_WRITES_ONCE, offset: 0, size: 256, align: 64 },
        RegionDesc { kind: 1, flags: RD_SESSION_WRITES | RD_WRITES_ONCE, offset: 0x100, size: 128, align: 16 },
        RegionDesc { kind: 2, flags: RD_SESSION_WRITES, offset: 0x1000, size: 4096, align: 16 },
        RegionDesc { kind: 3, flags: RD_SESSION_WRITES, offset: 0x2000, size: 49152, align: 16 },
        RegionDesc { kind: 4, flags: RD_SESSION_WRITES, offset: 0xE000, size: 49152, align: 16 },
        RegionDesc { kind: 5, flags: RD_SESSION_WRITES, offset: 0x1A000, size: 393216, align: 16 },
        RegionDesc { kind: 6, flags: RD_GUEST_WRITES | RD_SESSION_WRITES, offset: 0x7A000, size: 1048608, align: 16 },
        RegionDesc { kind: 7, flags: RD_GUEST_WRITES, offset: 0x17A020, size: 49152, align: 16 },
        RegionDesc { kind: 8, flags: RD_GUEST_WRITES, offset: 0x186020, size: 262144, align: 16 },
        RegionDesc { kind: 9, flags: RD_GUEST_WRITES, offset: 0x1C6020, size: 65536, align: 16 },
        RegionDesc { kind: 10, flags: RD_GUEST_WRITES, offset: 0x1D6020, size: 131072, align: 16 },
        RegionDesc { kind: 11, flags: RD_GUEST_WRITES | RD_BYTES, offset: 0x1F6020, size: 4194304, align: 16 },
    ];
    assert(RD_SESSION_WRITES | RD_WRITES_ONCE == 6u32) by (bit_vector);
    assert(RD_GUEST_WRITES | RD_SESSION_WRITES == 3u32) by (bit_vector);
    assert(RD_GUEST_WRITES | RD_BYTES == 9u32) by (bit_vector);
    r
}

/// One region's descriptor, by kind; `None` for a kind this layout does not
/// define.
pub fn region(kind: u32) -> (r: Option<RegionDesc>)
    ensures
        r == (if kind < REGION_COUNT { Some(spec_region(kind as int)) } else { None::<RegionDesc> }),
{
    if (kind as usize) < REGION_COUNT {
        let table = regions();
        Some(table[kind as usize])
    } else {
        None
    }
}

/// One manifest entry: `{ typeId: u16, size: u16, align: u16, pad: u16 }`.
#[derive(Copy, Clone, Debug, PartialEq, Eq, Structural)]
pub struct TypeEntry {
    pub id: u16,
    pub size: u16,
    pub align: u16,
}

/// The protocol types whose sizes and alignments the manifest fixes.
pub open spec fn spec_type_entry(i: int) -> TypeEntry {
    if i == 0 {
        TypeEntry { id: 1, size: 256, align: 8 }
    } else if i == 1 {
        TypeEntry { id: 2, size: 128, align: 8 }
    } else if i == 2 {
        TypeEntry { id: 3, size: 24, align: 4 }
    } else if i == 3 {
        TypeEntry { id: 4, size: 8, align: 2 }
    } else if i == 4 {
        TypeEntry { id: 5, size: 32, align: 8 }
    } else if i == 5 {
        TypeEntry { id: 6, size: 16, align: 4 }
    } else if i == 6 {
        TypeEntry { id: 7, size: 64, align: 4 }
    } else if i == 7 {
        TypeEntry { id: 8, size: 16, align: 4 }
    } else {
        TypeEntry { id: 9, size: 32, align: 4 }
    }
}

/// The protocol type catalogue, in id order.
pub fn types() -> (r: [TypeEntry; TYPE_COUNT])
    ensures
        forall|i: int| 0 <= i < TYPE_COUNT ==> #[trigger] r@[i] == spec_type_entry(i),
{
    [
        TypeEntry { id: 1, size: CONTROL_SIZE as u16, align: 8 },
        TypeEntry { id: 2, size: SESSION_INFO_SIZE as u16, align: 8 },
        TypeEntry { id: 3, size: REGION_DESC_SIZE as u16, align: 4 },
        TypeEntry { id: 4, size: MANIFEST_ENTRY_SIZE as u16, align: 2 },
        TypeEntry { id: 5, size: RING_HEADER_SIZE as u16, align: 8 },
        TypeEntry { id: 6, size: STRING_HALF_SIZE as u16, align: 4 },
        TypeEntry { id: 7, size: 64, align: 4 },
        TypeEntry { id: 8, size: 16, align: 4 },
        TypeEntry { id: 9, size: EVENT_RECORD_SIZE as u16, align: 4 },
    ]
}

/// The control block's header fields, as `write_control_block` leaves them.
pub open spec fn control_block_written(s: Seq<u8>, total_size: u32) -> bool {
    &&& le64(s, 0) == MAGIC as int
    &&& le16(s, 8) == FORMAT_VERSION as int
    &&& le16(s, 10) == SCHEMA_VERSION as int
    &&& le16(s, 12) == ABI_VERSION as int
    &&& le16(s, 14) == 0
    &&& le32(s, 16) == total_size as int
    &&& le32(s, 20) == spec_layout_hash() as int
    &&& le32(s, 24) == REGION_COUNT as int
    &&& le32(s, 28) == REGION_TABLE_OFFSET as int
    &&& le32(s, 32) == MANIFEST_OFFSET as int
    &&& le32(s, 36) == MANIFEST_LEN as int
}

/// Write the arena control block's header. The session-owned tail (state,
/// fault code, nonce) is left alone.
pub fn write_control_block(arena: &mut [u8], total_size: u32) -> (r: Result<(), LayoutError>)
    ensures
        r is Err <==> old(arena)@.len() < CONTROL_SIZE,
        r is Err ==> r == Err::<(), LayoutError>(
            LayoutError::BufferTooSmall { need: CONTROL_SIZE, have: old(arena)@.len() as usize },
        ),
        r is Err ==> final(arena)@ == old(arena)@,
        r is Ok ==> control_block_written(final(arena)@, total_size),
        r is Ok ==> same_outside(old(arena)@, final(arena)@, 0, 40),
{
    require(arena, CONTROL_OFFSET + CONTROL_SIZE)?;
    let hash = layout_hash();
    put_u64(arena, CONTROL_OFFSET + CONTROL_MAGIC, MAGIC)?;
    put_u16(arena, CONTROL_OFFSET + CONTROL_FORMAT_VERSION, FORMAT_VERSION)?;
    put_u16(arena, CONTROL_OFFSET + CONTROL_SCHEMA_VERSION, SCHEMA_VERSION)?;
    put_u16(arena, CONTROL_OFFSET + CONTROL_ABI_VERSION, ABI_VERSION)?;
    put_u16(arena, CONTROL_OFFSET + CONTROL_FLAGS, 0)?;
    put_u32(arena, CONTROL_OFFSET + CONTROL_TOTAL_SIZE, total_size)?;
    put_u32(arena, CONTROL_OFFSET + CONTROL_LAYOUT_HASH, hash)?;
    put_u32(arena, CONTROL_OFFSET + CONTROL_REGION_COUNT, REGION_COUNT as u32)?;
    put_u32(arena, CONTROL_OFFSET + CONTROL_REGION_TABLE_OFF, REGION_TABLE_OFFSET as u32)?;
    put_u32(arena, CONTROL_OFFSET + CONTROL_MANIFEST_OFF, MANIFEST_OFFSET as u32)?;
    put_u32(arena, CONTROL_OFFSET + CONTROL_MANIFEST_LEN, MANIFEST_LEN as u32)?;
    Ok(())
}


/// Everything `session_open` knows and the guest may want to cross-check.
#[derive(Copy, Clone, Debug, PartialEq, Eq)]
pub struct SessionInfoValues {
    pub arena_size: u32,
    pub max_arena_size: u32,
    pub memory_base: u32,
    pub initial_pages: u32,
    pub max_pages: u32,
    pub open_nonce: u64,
    pub class_capacities: [u32; CLASS_COUNT],
}

/// The fixed words of `SessionInfo`, ahead of the per-class capacities.
pub open spec fn session_info_head_written(s: Seq<u8>, v: SessionInfoValues) -> bool {
    &&& le64(s, 256) == MAGIC as int
    &&& le16(s, 264) == ABI_VERSION as int
    &&& le16(s, 266) == SCHEMA_VERSION as int
    &&& le32(s, 268) == 0
    &&& le32(s, 272) == v.arena_size as int
    &&& le32(s, 276) == v.max_arena_size as int
    &&& le32(s, 280) == v.memory_base as int
    &&& le32(s, 284) == v.initial_pages as int
    &&& le32(s, 288) == v.max_pages as int
    &&& le32(s, 292) == spec_layout_hash() as int
    &&& le32(s, 296) == REGION_COUNT as int
    &&& le32(s, 300) == CLASS_COUNT as int
}

/// `SessionInfo` as `write_session_info` leaves it.
pub open spec fn session_info_written(s: Seq<u8>, v: SessionInfoValues) -> bool {
    &&& session_info_head_written(s, v)
    &&& forall|i: int| 0 <= i < CLASS_COUNT ==> #[trigger] le32(s, 304 + 4 * i) == v.class_capacities@[i] as int
    &&& le64(s, 344) == v.open_nonce as int
}

pub proof fn lemma_session_info_head_kept(a: Seq<u8>, b: Seq<u8>, v: SessionInfoValues)
    requires
        session_info_head_written(a, v),
        forall|i: int| 256 <= i < 304 ==> a[i] == b[i],
    ensures
        session_info_head_written(b, v),
{
    crate::bytes::lemma_le64_agree(a, b, 256);
    crate::bytes::lemma_le16_agree(a, b, 264);
    crate::bytes::lemma_le16_agree(a, b, 266);
    crate::bytes::lemma_le32_agree(a, b, 268);
    crate::bytes::lemma_le32_agree(a, b, 272);
    crate::bytes::lemma_le32_agree(a, b, 276);
    crate::bytes::lemma_le32_agree(a, b, 280);
    crate::bytes::lemma_le32_agree(a, b, 284);
    crate::bytes::lemma_le32_agree(a, b, 288);
    crate::bytes::lemma_le32_agree(a, b, 292);
    crate::bytes::lemma_le32_agree(a, b, 296);
    crate::bytes::lemma_le32_agree(a, b, 300);
}

/// The fixed words of `SessionInfo`.
fn write_session_info_head(arena: &mut [u8], values: &SessionInfoValues) -> (r: Result<(), LayoutError>)
    requires
        old(arena)@.len() >= 384,
    ensures
        r is Ok,
        session_info_head_written(final(arena)@, *values),
        same_outside(old(arena)@, final(arena)@, 256, 304),
{
    let hash = layout_hash();
    put_u64(arena, SESSION_INFO_OFFSET + SESSION_INFO_MAGIC, MAGIC)?;
    put_u16(arena, SESSION_INFO_OFFSET + SESSION_INFO_ABI_VERSION, ABI_VERSION)?;
    put_u16(arena, SESSION_INFO_OFFSET + SESSION_INFO_SCHEMA_VERSION, SCHEMA_VERSION)?;
    put_u32(arena, SESSION_INFO_OFFSET + SESSION_INFO_FLAGS, 0)?;
    put_u32(arena, SESSION_INFO_OFFSET + SESSION_INFO_ARENA_SIZE, values.arena_size)?;
    put_u32(arena, SESSION_INFO_OFFSET + SESSION_INFO_MAX_ARENA_SIZE, values.max_arena_size)?;
    put_u32(arena, SESSION_INFO_OFFSET + SESSION_INFO_MEMORY_BASE, values.memory_base)?;
    put_u32(arena, SESSION_INFO_OFFSET + SESSION_INFO_INITIAL_PAGES, values.initial_pages)?;
    put_u32(arena, SESSION_INFO_OFFSET + SESSION_INFO_MAX_PAGES, values.max_pages)?;
    put_u32(arena, SESSION_INFO_OFFSET + SESSION_INFO_LAYOUT_HASH, hash)?;
    put_u32(arena, SESSION_INFO_OFFSET + SESSION_INFO_REGION_COUNT, REGION_COUNT as u32)?;
    put_u32(arena, SESSION_INFO_OFFSET + SESSION_INFO_CLASS_COUNT, CLASS_COUNT as u32)?;
    Ok(())
}

/// Write `SessionInfo`: the session echoes its constants so a guest can assert
/// its own build against them.
pub fn write_session_info(arena: &mut [u8], values: &SessionInfoValues) -> (r: Result<(), LayoutError>)
    ensures
        r is Err <==> old(arena)@.len() < SESSION_INFO_OFFSET + SESSION_INFO_SIZE,
        r is Err ==> r == Err::<(), LayoutError>(
            LayoutError::BufferTooSmall { need: 384, have: old(arena)@.len() as usize },
        ),
        r is Err ==> final(arena)@ == old(arena)@,
        r is Ok ==> session_info_written(final(arena)@, *values),
        r is Ok ==> same_outside(old(arena)@, final(arena)@, 256, 352),
{
    require(arena, SESSION_INFO_OFFSET + SESSION_INFO_SIZE)?;
    write_session_info_head(arena, values)?;
    let ghost head = arena@;
    let mut index: usize = 0;
    while index < CLASS_COUNT
        invariant
            index <= CLASS_COUNT,
            same_outside(head, arena@, 304, 304 + 4 * index),
            same_outside(old(arena)@, head, 256, 304),
            head.len() >= 384,
            forall|i: int| 0 <= i < index ==> #[trigger] le32(arena@, 304 + 4 * i) == values.class_capacities@[i] as int,
        decreases CLASS_COUNT - index,
    {
        let ghost before = arena@;
        let at = SESSION_INFO_OFFSET + SESSION_INFO_CLASS_CAPACITY + index * 4;
        put_u32(arena, at, values.class_capacities[index])?;
        proof {
            assert forall|i: int| 0 <= i < index + 1 implies #[trigger] le32(arena@, 304 + 4 * i)
                == values.class_capacities@[i] as int by {
                if i < index {
                    crate::bytes::lemma_le32_agree(before, arena@, 304 + 4 * i);
                }
            }
        }
        index = index + 1;
    }
    let ghost caps = arena@;
    put_u64(arena, SESSION_INFO_OFFSET + SESSION_INFO_OPEN_NONCE, values.open_nonce)?;
    proof {
        assert forall|i: int| 0 <= i < CLASS_COUNT implies #[trigger] le32(arena@, 304 + 4 * i)
            == values.class_capacities@[i] as int by {
            crate::bytes::lemma_le32_agree(caps, arena@, 304 + 4 * i);
        }
        lemma_session_info_head_kept(head, arena@, *values);
    }
    Ok(())
}

/// Region table entry `k` as `write_region_table` leaves it.
pub open spec fn region_entry_written(s: Seq<u8>, k: int) -> bool {
    let at = 0x200 + 24 * k;
    &&& le32(s, at) == spec_region(k).kind as int
    &&& le32(s, at + 4) == spec_region(k).flags as int
    &&& le32(s, at + 8) == spec_region(k).offset as int
    &&& le32(s, at + 12) == spec_region(k).size as int
    &&& le32(s, at + 16) == spec_region(k).align as int
    &&& le32(s, at + 20) == 0
}

pub proof fn lemma_region_entry_kept(a: Seq<u8>, b: Seq<u8>, k: int)
    requires
        region_entry_written(a, k),
        forall|i: int| 0x200 + 24 * k <= i < 0x200 + 24 * k + 24 ==> a[i] == b[i],
    ensures
        region_entry_written(b, k),
{
    let at = 0x200 + 24 * k;
    crate::bytes::lemma_le32_agree(a, b, at);
    crate::bytes::lemma_le32_agree(a, b, at + 4);
    crate::bytes::lemma_le32_agree(a, b, at + 8);
    crate::bytes::lemma_le32_agree(a, b, at + 12);
    crate::bytes::lemma_le32_agree(a, b, at + 16);
    crate::bytes::lemma_le32_agree(a, b, at + 20);
}

/// Write the region table: the guest reads it at `0x200 + kind * 24`.
pub fn write_region_table(arena: &mut [u8]) -> (r: Result<(), LayoutError>)
    ensures
        r is Err <==> old(arena)@.len() < MANIFEST_OFFSET,
        r is Err ==> r == Err::<(), LayoutError>(
            LayoutError::BufferTooSmall { need: MANIFEST_OFFSET, have: old(arena)@.len() as usize },
        ),
        r is Err ==> final(arena)@ == old(arena)@,
        r is Ok ==> forall|k: int| 0 <= k < REGION_COUNT ==> #[trigger] region_entry_written(final(arena)@, k),
        r is Ok ==> same_outside(old(arena)@, final(arena)@, 0x200, 0x320),
{
    require(arena, REGION_TABLE_OFFSET + REGION_COUNT * REGION_DESC_SIZE)?;
    let table = regions();
    let mut index: usize = 0;
    while index < REGION_COUNT
        invariant
            index <= REGION_COUNT,
            old(arena)@.len() >= 0x320,
            forall|i: int| 0 <= i < REGION_COUNT ==> #[trigger] table@[i] == spec_region(i),
            same_outside(old(arena)@, arena@, 0x200, 0x200 + 24 * index),
            forall|k: int| 0 <= k < index ==> #[trigger] region_entry_written(arena@, k),
        decreases REGION_COUNT - index,
    {
        let ghost before = arena@;
        let region = table[index];
        let at = REGION_TABLE_OFFSET + index * REGION_DESC_SIZE;
        put_u32(arena, at + REGION_DESC_KIND, region.kind)?;
        put_u32(arena, at + REGION_DESC_FLAGS, region.flags)?;
        put_u32(arena, at + REGION_DESC_OFFSET, region.offset)?;
        put_u32(arena, at + REGION_DESC_SIZE_FIELD, region.size)?;
        put_u32(arena, at + REGION_DESC_ALIGN, region.align)?;
        put_u32(arena, at + REGION_DESC_RESERVED, 0)?;
        proof {
            assert forall|k: int| 0 <= k < index + 1 implies #[trigger] region_entry_written(arena@, k) by {
                if k < index {
                    lemma_region_entry_kept(before, arena@, k);
                }
            }
        }
        index = index + 1;
    }
    Ok(())
}

/// Manifest entry `k` as `write_manifest` leaves it.
pub open spec fn manifest_entry_written(s: Seq<u8>, k: int) -> bool {
    let at = 0x320 + 8 * k;
    &&& le16(s, at) == spec_type_entry(k).id as int
    &&& le16(s, at + 2) == spec_type_entry(k).size as int
    &&& le16(s, at + 4) == spec_type_entry(k).align as int
    &&& le16(s, at + 6) == 0
}

/// Write the manifest. `pad` stays zero.
pub fn write_manifest(arena: &mut [u8]) -> (r: Result<(), LayoutError>)
    ensures
        r is Err <==> old(arena)@.len() < MANIFEST_OFFSET + MANIFEST_LEN,
        r is Err ==> r == Err::<(), LayoutError>(
            LayoutError::BufferTooSmall { need: 0x368, have: old(arena)@.len() as usize },
        ),
        r is Err ==> final(arena)@ == old(arena)@,
        r is Ok ==> forall|k: int| 0 <= k < TYPE_COUNT ==> #[trigger] manifest_entry_written(final(arena)@, k),
        r is Ok ==> same_outside(old(arena)@, final(arena)@, 0x320, 0x368),
{
    require(arena, MANIFEST_OFFSET + MANIFEST_LEN)?;
    let table = types();
    let mut index: usize = 0;
    while index < TYPE_COUNT
        invariant
            index <= TYPE_COUNT,
            old(arena)@.len() >= 0x368,
            forall|i: int| 0 <= i < TYPE_COUNT ==> #[trigger] table@[i] == spec_type_entry(i),
            same_outside(old(arena)@, arena@, 0x320, 0x320 + 8 * index),
            forall|k: int| 0 <= k < index ==> #[trigger] manifest_entry_written(arena@, k),
        decreases TYPE_COUNT - index,
    {
        let ghost before = arena@;
        let entry = table[index];
        let at = MANIFEST_OFFSET + index * MANIFEST_ENTRY_SIZE;
        put_u16(arena, at, entry.id)?;
        let ghost s1 = arena@;
        put_u16(arena, at + 2, entry.size)?;
        let ghost s2 = arena@;
        put_u16(arena, at + 4, entry.align)?;
        let ghost s3 = arena@;
        put_u16(arena, at + 6, 0)?;
        proof {
            let a = at as int;
            assert(s1[a] == arena@[a] && s1[a + 1] == arena@[a + 1]);
            assert(s2[a + 2] == arena@[a + 2] && s2[a + 3] == arena@[a + 3]);
            assert(s3[a + 4] == arena@[a + 4] && s3[a + 5] == arena@[a + 5]);
            crate::bytes::lemma_le16_agree(s1, arena@, a);
            crate::bytes::lemma_le16_agree(s2, arena@, a + 2);
            crate::bytes::lemma_le16_agree(s3, arena@, a + 4);
            assert(a == 0x320 + 8 * index);
            assert(le16(arena@, a) == spec_type_entry(index as int).id as int);
            assert(le16(arena@, a + 2) == spec_type_entry(index as int).size as int);
            assert(le16(arena@, a + 4) == spec_type_entry(index as int).align as int);
            assert(le16(arena@, a + 6) == 0);
            assert(manifest_entry_written(arena@, index as int));
            assert(same_outside(before, arena@, a, a + 8));
            assert forall|k: int| 0 <= k < index + 1 implies #[trigger] manifest_entry_written(arena@, k) by {
                if k < index {
                    let a = 0x320 + 8 * k;
                    assert(manifest_entry_written(before, k));
                    assert(before[a] == arena@[a] && before[a + 1] == arena@[a + 1]);
                    assert(before[a + 2] == arena@[a + 2] && before[a + 3] == arena@[a + 3]);
                    assert(before[a + 4] == arena@[a + 4] && before[a + 5] == arena@[a + 5]);
                    assert(before[a + 6] == arena@[a + 6] && before[a + 7] == arena@[a + 7]);
                    crate::bytes::lemma_le16_agree(before, arena@, a);
                    crate::bytes::lemma_le16_agree(before, arena@, a + 2);
                    crate::bytes::lemma_le16_agree(before, arena@, a + 4);
                    crate::bytes::lemma_le16_agree(before, arena@, a + 6);
                }
            }
        }
        index = index + 1;
    }
    Ok(())
}

/// One sub-ring's header.
#[derive(Copy, Clone, Debug, PartialEq, Eq, Structural)]
pub struct RingHeader {
    pub head: u32,
    pub tail: u32,
    pub capacity: u32,
    pub stride: u32,
    pub generation: u32,
    pub dropped: u32,
    pub delivered: u64,
}

/// The header a buffer holds at `at`.
pub open spec fn spec_ring_header(s: Seq<u8>, at: int) -> RingHeader {
    RingHeader {
        head: le32(s, at) as u32,
        tail: le32(s, at + 4) as u32,
        capacity: le32(s, at + 8) as u32,
        stride: le32(s, at + 12) as u32,
        generation: le32(s, at + 16) as u32,
        dropped: le32(s, at + 20) as u32,
        delivered: le64(s, at + 24) as u64,
    }
}

/// The header `write_ring_header` leaves: empty, at `capacity`.
pub open spec fn empty_ring_header(capacity: u32) -> RingHeader {
    RingHeader {
        head: 0,
        tail: 0,
        capacity,
        stride: EVENT_RECORD_SIZE as u32,
        generation: 0,
        dropped: 0,
        delivered: 0,
    }
}

/// What `write_ring_header` answers for a buffer of `len` bytes.
pub open spec fn ring_header_outcome(len: int, at: int) -> Result<(), LayoutError> {
    if len < at + 32 {
        Err(LayoutError::BufferTooSmall { need: (at + 32) as usize, have: len as usize })
    } else if at % 4 != 0 {
        Err(LayoutError::Misaligned { offset: at as usize, align: 4 })
    } else if at % 8 != 0 {
        Err(LayoutError::Misaligned { offset: (at + 24) as usize, align: 8 })
    } else {
        Ok(())
    }
}

/// Write one class's ring header: empty, with the class's capacity and the
/// record stride.
pub fn write_ring_header(arena: &mut [u8], ring_offset: usize, capacity: u32) -> (r: Result<(), LayoutError>)
    requires
        ring_offset + RING_HEADER_SIZE <= usize::MAX,
    ensures
        r == ring_header_outcome(old(arena)@.len() as int, ring_offset as int),
        old(arena)@.len() < ring_offset + 32 || ring_offset % 4 != 0 ==> final(arena)@ == old(arena)@,
        r is Ok ==> spec_ring_header(final(arena)@, ring_offset as int) == empty_ring_header(capacity),
        r is Ok ==> same_outside(old(arena)@, final(arena)@, ring_offset as int, ring_offset + 32),
        r is Err && ring_offset % 4 == 0 && old(arena)@.len() >= ring_offset + 32 ==> {
            &&& same_outside(old(arena)@, final(arena)@, ring_offset as int, ring_offset + 24)
            &&& le32(final(arena)@, ring_offset as int) == 0
            &&& le32(final(arena)@, ring_offset + 4) == 0
            &&& le32(final(arena)@, ring_offset + 8) == capacity as int
            &&& le32(final(arena)@, ring_offset + 12) == EVENT_RECORD_SIZE as int
            &&& le32(final(arena)@, ring_offset + 16) == 0
            &&& le32(final(arena)@, ring_offset + 20) == 0
        },
{
    require(arena, ring_offset + RING_HEADER_SIZE)?;
    write_ring_words(arena, ring_offset, capacity)?;
    let ghost words = arena@;
    put_u64(arena, ring_offset + TABLE_DELIVERED, 0)?;
    proof {
        let a = ring_offset as int;
        crate::bytes::lemma_le32_agree(words, arena@, a);
        crate::bytes::lemma_le32_agree(words, arena@, a + 4);
        crate::bytes::lemma_le32_agree(words, arena@, a + 8);
        crate::bytes::lemma_le32_agree(words, arena@, a + 12);
        crate::bytes::lemma_le32_agree(words, arena@, a + 16);
        crate::bytes::lemma_le32_agree(words, arena@, a + 20);
    }
    Ok(())
}

/// The six 32-bit words of an empty ring header, ahead of `delivered`.
fn write_ring_words(arena: &mut [u8], ring_offset: usize, capacity: u32) -> (r: Result<(), LayoutError>)
    requires
        ring_offset + RING_HEADER_SIZE <= old(arena).len(),
    ensures
        r == (if ring_offset % 4 != 0 {
            Err(LayoutError::Misaligned { offset: ring_offset, align: 4 })
        } else {
            Ok(())
        }),
        r is Err ==> final(arena)@ == old(arena)@,
        r is Ok ==> {
            &&& same_outside(old(arena)@, final(arena)@, ring_offset as int, ring_offset + 24)
            &&& le32(final(arena)@, ring_offset as int) == 0
            &&& le32(final(arena)@, ring_offset + 4) == 0
            &&& le32(final(arena)@, ring_offset + 8) == capacity as int
            &&& le32(final(arena)@, ring_offset + 12) == EVENT_RECORD_SIZE as int
            &&& le32(final(arena)@, ring_offset + 16) == 0
            &&& le32(final(arena)@, ring_offset + 20) == 0
        },
{
    put_u32(arena, ring_offset + TABLE_HEAD, 0)?;
    assert((ring_offset + 4) % 4 == 0 && (ring_offset + 8) % 4 == 0 && (ring_offset + 12) % 4 == 0
        && (ring_offset + 16) % 4 == 0 && (ring_offset + 20) % 4 == 0);
    put_u32(arena, ring_offset + TABLE_TAIL, 0)?;
    put_u32(arena, ring_offset + TABLE_CAPACITY, capacity)?;
    put_u32(arena, ring_offset + TABLE_STRIDE, EVENT_RECORD_SIZE as u32)?;
    put_u32(arena, ring_offset + TABLE_GENERATION, 0)?;
    put_u32(arena, ring_offset + TABLE_DROPPED, 0)?;
    Ok(())
}

/// Set a sub-ring's `head`: how many records it holds.
pub fn set_ring_head(arena: &mut [u8], ring_offset: usize, value: u32) -> (r: Result<(), LayoutError>)
    requires
        ring_offset + 4 <= usize::MAX,
    ensures
        r == put32_outcome(old(arena)@.len() as int, ring_offset as int),
        r is Ok ==> le32(final(arena)@, ring_offset as int) == value as int,
        r is Ok ==> same_outside(old(arena)@, final(arena)@, ring_offset as int, ring_offset + 4),
        r is Err ==> final(arena)@ == old(arena)@,
{
    put_u32(arena, ring_offset + TABLE_HEAD, value)
}

/// Set a sub-ring's `tail`: the guest's reclaim counter.
pub fn set_ring_tail(arena: &mut [u8], ring_offset: usize, value: u32) -> (r: Result<(), LayoutError>)
    requires
        ring_offset + 8 <= usize::MAX,
    ensures
        r == put32_outcome(old(arena)@.len() as int, ring_offset + 4),
        r is Ok ==> le32(final(arena)@, ring_offset + 4) == value as int,
        r is Ok ==> same_outside(old(arena)@, final(arena)@, ring_offset + 4, ring_offset + 8),
        r is Err ==> final(arena)@ == old(arena)@,
{
    put_u32(arena, ring_offset + TABLE_TAIL, value)
}

/// Set a sub-ring's `dropped` counter.
pub fn set_ring_dropped(arena: &mut [u8], ring_offset: usize, value: u32) -> (r: Result<(), LayoutError>)
    requires
        ring_offset + 24 <= usize::MAX,
    ensures
        r == put32_outcome(old(arena)@.len() as int, ring_offset + 20),
        r is Ok ==> le32(final(arena)@, ring_offset + 20) == value as int,
        r is Ok ==> same_outside(old(arena)@, final(arena)@, ring_offset + 20, ring_offset + 24),
        r is Err ==> final(arena)@ == old(arena)@,
{
    put_u32(arena, ring_offset + TABLE_DROPPED, value)
}

/// What setting a sub-ring's 8-byte `delivered` counter at `at` does to a
/// buffer of the given length: the counter is 4-byte aligned, as every
/// header word is.
pub open spec fn put_counter_outcome(len: int, at: int) -> Result<(), LayoutError> {
    if at + 8 > len {
        Err(LayoutError::BufferTooSmall { need: (at + 8) as usize, have: len as usize })
    } else if at % 4 != 0 {
        Err(LayoutError::Misaligned { offset: at as usize, align: 4 })
    } else {
        Ok(())
    }
}

/// Set a sub-ring's `delivered` counter, all eight bytes: the header then
/// reads back `value` whatever the counter held before.
pub fn set_ring_delivered(arena: &mut [u8], ring_offset: usize, value: u32) -> (r: Result<(), LayoutError>)
    requires
        ring_offset + 32 <= usize::MAX,
    ensures
        r == put_counter_outcome(old(arena)@.len() as int, ring_offset + 24),
        r is Ok ==> le64(final(arena)@, ring_offset + 24) == value as int,
        r is Ok ==> same_outside(old(arena)@, final(arena)@, ring_offset + 24, ring_offset + 32),
        r is Err ==> final(arena)@ == old(arena)@,
{
    let at = ring_offset + TABLE_DELIVERED;
    if at + 8 > arena.len() {
        return Err(LayoutError::BufferTooSmall { need: at + 8, have: arena.len() });
    }
    let ghost a0 = arena@;
    match put_u32(arena, at, value) {
        Ok(()) => {},
        Err(e) => {
            return Err(e);
        },
    }
    let ghost a1 = arena@;
    let r = put_u32(arena, at + 4, 0);
    proof {
        assert(r is Ok);
        crate::bytes::lemma_le32_agree(a1, arena@, at as int);
        assert(le64(arena@, at as int) == le32(arena@, at as int) + le32(arena@, at + 4) * 0x1_0000_0000);
    }
    r
}

/// Set a sub-ring's `generation`, bumped once per compaction.
pub fn set_ring_generation(arena: &mut [u8], ring_offset: usize, value: u32) -> (r: Result<(), LayoutError>)
    requires
        ring_offset + 20 <= usize::MAX,
    ensures
        r == put32_outcome(old(arena)@.len() as int, ring_offset + 16),
        r is Ok ==> le32(final(arena)@, ring_offset + 16) == value as int,
        r is Ok ==> same_outside(old(arena)@, final(arena)@, ring_offset + 16, ring_offset + 20),
        r is Err ==> final(arena)@ == old(arena)@,
{
    put_u32(arena, ring_offset + TABLE_GENERATION, value)
}

/// Set a sub-ring's `capacity`.
pub fn set_ring_capacity(arena: &mut [u8], ring_offset: usize, value: u32) -> (r: Result<(), LayoutError>)
    requires
        ring_offset + 12 <= usize::MAX,
    ensures
        r == put32_outcome(old(arena)@.len() as int, ring_offset + 8),
        r is Ok ==> le32(final(arena)@, ring_offset + 8) == value as int,
        r is Ok ==> same_outside(old(arena)@, final(arena)@, ring_offset + 8, ring_offset + 12),
        r is Err ==> final(arena)@ == old(arena)@,
{
    put_u32(arena, ring_offset + TABLE_CAPACITY, value)
}

/// Read one class's ring header.
pub fn ring_header(arena: &[u8], ring_offset: usize) -> (r: RingHeader)
    requires
        ring_offset + RING_HEADER_SIZE <= arena.len(),
    ensures
        r == spec_ring_header(arena@, ring_offset as int),
{
    RingHeader {
        head: load_u32(arena, ring_offset + TABLE_HEAD),
        tail: load_u32(arena, ring_offset + TABLE_TAIL),
        capacity: load_u32(arena, ring_offset + TABLE_CAPACITY),
        stride: load_u32(arena, ring_offset + TABLE_STRIDE),
        generation: load_u32(arena, ring_offset + TABLE_GENERATION),
        dropped: load_u32(arena, ring_offset + TABLE_DROPPED),
        delivered: load_u64(arena, ring_offset + TABLE_DELIVERED),
    }
}

/// The `Callbacks` record as the guest writes it into its own heap.
#[derive(Copy, Clone, Debug, PartialEq, Eq, Structural)]
pub struct CallbacksRecord {
    pub abi_version: u16,
    pub slot_count: u16,
    pub flags: u32,
    pub on_batch: u32,
    pub on_event: u32,
}

impl CallbacksRecord {
    /// The record a guest that registers nothing stands for: every slot
    /// absent, at this build's ABI version.
    pub fn absent() -> (r: CallbacksRecord)
        ensures
            r == (CallbacksRecord { abi_version: ABI_VERSION, slot_count: 0, flags: 0, on_batch: 0, on_event: 0 }),
    {
        CallbacksRecord { abi_version: ABI_VERSION, slot_count: 0, flags: 0, on_batch: 0, on_event: 0 }
    }
}

/// A `Subscription` record as the guest writes it.
#[derive(Copy, Clone, Debug, PartialEq, Eq, Structural)]
pub struct Subscription {
    pub class: u32,
    pub mode: u32,
    pub flags: u32,
    pub reserved: u32,
}

/// The `Subscription` a buffer holds at `at`.
pub open spec fn spec_subscription(s: Seq<u8>, at: int) -> Subscription {
    Subscription {
        class: le32(s, at) as u32,
        mode: le32(s, at + 4) as u32,
        flags: le32(s, at + 8) as u32,
        reserved: le32(s, at + 12) as u32,
    }
}

/// Read a `Subscription` at `at`, whose bounds the caller has checked.
pub fn read_subscription(arena: &[u8], at: usize) -> (r: Subscription)
    requires
        at + SUBSCRIPTION_SIZE <= arena.len(),
    ensures
        r == spec_subscription(arena@, at as int),
{
    Subscription {
        class: load_u32(arena, at + SUBSCRIPTION_CLASS),
        mode: load_u32(arena, at + SUBSCRIPTION_MODE),
        flags: load_u32(arena, at + SUBSCRIPTION_FLAGS),
        reserved: load_u32(arena, at + SUBSCRIPTION_RESERVED),
    }
}

/// The `FrameState` words this layout defines.
#[derive(Copy, Clone, Debug, Default, PartialEq, Eq, Structural)]
pub struct FrameStateValues {
    /// The session's own epoch counter.
    pub frame_index: u32,
    /// The cross-class rollup of dropped events, cumulative.
    pub dropped_events: u32,
    /// `FAULT_*`, or 0 when nothing is wrong.
    pub fault_state: u32,
    /// The slot index a callback trap came from, or 0.
    pub last_error: u32,
}

/// The `FrameState` a buffer holds.
pub open spec fn spec_frame_state(s: Seq<u8>) -> FrameStateValues {
    FrameStateValues {
        frame_index: le32(s, 0x1000) as u32,
        dropped_events: le32(s, 0x1004) as u32,
        fault_state: le32(s, 0x1008) as u32,
        last_error: le32(s, 0x100C) as u32,
    }
}

/// Write the defined part of `FrameState`, zeroing the rest of its header.
pub fn write_frame_state(arena: &mut [u8], values: &FrameStateValues) -> (r: Result<(), LayoutError>)
    ensures
        r is Err <==> old(arena)@.len() < FRAME_STATE_OFFSET + FRAME_STATE_HEADER,
        r is Err ==> r == Err::<(), LayoutError>(
            LayoutError::BufferTooSmall { need: 0x1040, have: old(arena)@.len() as usize },
        ),
        r is Err ==> final(arena)@ == old(arena)@,
        r is Ok ==> spec_frame_state(final(arena)@) == *values,
        r is Ok ==> all_zero(final(arena)@, 0x1010, 0x1040),
        r is Ok ==> same_outside(old(arena)@, final(arena)@, 0x1000, 0x1040),
{
    require(arena, FRAME_STATE_OFFSET + FRAME_STATE_HEADER)?;
    put_u32(arena, FRAME_STATE_OFFSET + FRAME_INDEX, values.frame_index)?;
    put_u32(arena, FRAME_STATE_OFFSET + FRAME_DROPPED_EVENTS, values.dropped_events)?;
    put_u32(arena, FRAME_STATE_OFFSET + FRAME_FAULT_STATE, values.fault_state)?;
    put_u32(arena, FRAME_STATE_OFFSET + FRAME_LAST_ERROR, values.last_error)?;
    let ghost fields = arena@;
    let mut offset: usize = 16;
    while offset < FRAME_STATE_HEADER
        invariant
            16 <= offset <= FRAME_STATE_HEADER,
            offset % 4 == 0,
            fields.len() >= 0x1040,
            same_outside(fields, arena@, 0x1010, 0x1000 + offset),
            all_zero(arena@, 0x1010, 0x1000 + offset),
        decreases FRAME_STATE_HEADER - offset,
    {
        let ghost before = arena@;
        put_u32(arena, FRAME_STATE_OFFSET + offset, 0)?;
        proof {
            let s = arena@;
            let at = 0x1000 + offset;
            crate::bytes::lemma_le16_bound(s, at);
            crate::bytes::lemma_le16_bound(s, at + 2);
            assert(s[at] == 0 && s[at + 1] == 0 && s[at + 2] == 0 && s[at + 3] == 0);
        }
        offset = offset + 4;
    }
    proof {
        crate::bytes::lemma_le32_agree(fields, arena@, 0x1000);
        crate::bytes::lemma_le32_agree(fields, arena@, 0x1004);
        crate::bytes::lemma_le32_agree(fields, arena@, 0x1008);
        crate::bytes::lemma_le32_agree(fields, arena@, 0x100C);
    }
    Ok(())
}

/// Read the defined part of `FrameState` back.
pub fn read_frame_state(arena: &[u8]) -> (r: FrameStateValues)
    requires
        FRAME_STATE_OFFSET + 16 <= arena.len(),
    ensures
        r == spec_frame_state(arena@),
{
    FrameStateValues {
        frame_index: load_u32(arena, FRAME_STATE_OFFSET + FRAME_INDEX),
        dropped_events: load_u32(arena, FRAME_STATE_OFFSET + FRAME_DROPPED_EVENTS),
        fault_state: load_u32(arena, FRAME_STATE_OFFSET + FRAME_FAULT_STATE),
        last_error: load_u32(arena, FRAME_STATE_OFFSET + FRAME_LAST_ERROR),
    }
}

/// One `EventRecord` as it sits in a sub-ring: 32 bytes. The two payload
/// floats travel as their IEEE-754 bit patterns, so a round trip is a
/// comparison rather than a tolerance.
#[derive(Copy, Clone, Debug, PartialEq, Eq, Structural)]
pub struct EventRecord {
    pub seq: u64,
    pub class: u32,
    pub flags: u32,
    pub a: u32,
    pub b: u32,
    pub f0_bits: u32,
    pub f1_bits: u32,
}

/// The `EventRecord` a buffer holds at `at`.
pub open spec fn spec_event_record(s: Seq<u8>, at: int) -> EventRecord {
    EventRecord {
        seq: le64(s, at) as u64,
        class: le32(s, at + 8) as u32,
        flags: le32(s, at + 12) as u32,
        a: le32(s, at + 16) as u32,
        b: le32(s, at + 20) as u32,
        f0_bits: le32(s, at + 24) as u32,
        f1_bits: le32(s, at + 28) as u32,
    }
}

/// What `write_event_record` answers for a buffer of `len` bytes.
pub open spec fn event_record_outcome(len: int, at: int) -> Result<(), LayoutError> {
    if len < at + 32 {
        Err(LayoutError::BufferTooSmall { need: (at + 32) as usize, have: len as usize })
    } else if at % 8 != 0 {
        Err(LayoutError::Misaligned { offset: at as usize, align: 8 })
    } else {
        Ok(())
    }
}

/// The record's words after `seq`, as `write_event_words` leaves them.
pub open spec fn event_words_written(s: Seq<u8>, at: int, record: EventRecord) -> bool {
    &&& le32(s, at + 8) == record.class as int
    &&& le32(s, at + 12) == record.flags as int
    &&& le32(s, at + 16) == record.a as int
    &&& le32(s, at + 20) == record.b as int
    &&& le32(s, at + 24) == record.f0_bits as int
    &&& le32(s, at + 28) == record.f1_bits as int
}

fn write_event_words(arena: &mut [u8], at: usize, record: &EventRecord) -> (r: Result<(), LayoutError>)
    requires
        at + EVENT_RECORD_SIZE <= old(arena).len(),
        at % 8 == 0,
    ensures
        r is Ok,
        event_words_written(final(arena)@, at as int, *record),
        same_outside(old(arena)@, final(arena)@, at + 8, at + 32),
{
    assert((at + 8) % 4 == 0 && (at + 12) % 4 == 0 && (at + 16) % 4 == 0 && (at + 20) % 4 == 0
        && (at + 24) % 4 == 0 && (at + 28) % 4 == 0);
    put_u32(arena, at + EVENT_CLASS, record.class)?;
    put_u32(arena, at + EVENT_FLAGS, record.flags)?;
    put_u32(arena, at + EVENT_A, record.a)?;
    put_u32(arena, at + EVENT_B, record.b)?;
    put_u32(arena, at + EVENT_F0, record.f0_bits)?;
    put_u32(arena, at + EVENT_F1, record.f1_bits)?;
    Ok(())
}

/// Write one `EventRecord` at `at` (an absolute arena offset).
pub fn write_event_record(arena: &mut [u8], at: usize, record: &EventRecord) -> (r: Result<(), LayoutError>)
    requires
        at + EVENT_RECORD_SIZE <= usize::MAX,
    ensures
        r == event_record_outcome(old(arena)@.len() as int, at as int),
        r is Err ==> final(arena)@ == old(arena)@,
        r is Ok ==> spec_event_record(final(arena)@, at as int) == *record,
        r is Ok ==> same_outside(old(arena)@, final(arena)@, at as int, at + 32),
{
    require(arena, at + EVENT_RECORD_SIZE)?;
    put_u64(arena, at + EVENT_SEQ, record.seq)?;
    let ghost seq_written = arena@;
    write_event_words(arena, at, record)?;
    proof {
        crate::bytes::lemma_le64_agree(seq_written, arena@, at as int);
        crate::bytes::lemma_le64_bound(arena@, at as int);
        crate::bytes::lemma_le32_bound(arena@, at + 8);
    }
    Ok(())
}

/// Read one `EventRecord` at `at` (an absolute arena offset).
pub fn read_event_record(arena: &[u8], at: usize) -> (r: EventRecord)
    requires
        at + EVENT_RECORD_SIZE <= arena.len(),
    ensures
        r == spec_event_record(arena@, at as int),
{
    EventRecord {
        seq: load_u64(arena, at + EVENT_SEQ),
        class: load_u32(arena, at + EVENT_CLASS),
        flags: load_u32(arena, at + EVENT_FLAGS),
        a: load_u32(arena, at + EVENT_A),
        b: load_u32(arena, at + EVENT_B),
        f0_bits: load_u32(arena, at + EVENT_F0),
        f1_bits: load_u32(arena, at + EVENT_F1),
    }
}

/// The `Callbacks` record a buffer holds at `at`.
pub open spec fn spec_callbacks(s: Seq<u8>, at: int) -> CallbacksRecord {
    CallbacksRecord {
        abi_version: le16(s, at) as u16,
        slot_count: le16(s, at + 2) as u16,
        flags: le32(s, at + 4) as u32,
        on_batch: le32(s, at + 8) as u32,
        on_event: le32(s, at + 12) as u32,
    }
}

/// Read a `Callbacks` record at `at`, whose bounds the caller has checked.
pub fn read_callbacks(arena: &[u8], at: usize) -> (r: CallbacksRecord)
    requires
        at + 16 <= arena.len(),
    ensures
        r == spec_callbacks(arena@, at as int),
{
    CallbacksRecord {
        abi_version: load_u16(arena, at + CALLBACKS_ABI_VERSION),
        slot_count: load_u16(arena, at + CALLBACKS_SLOT_COUNT),
        flags: load_u32(arena, at + CALLBACKS_FLAGS),
        on_batch: load_u32(arena, at + CALLBACKS_ON_BATCH),
        on_event: load_u32(arena, at + CALLBACKS_ON_EVENT),
    }
}


// ── the shape hash ────────────────────────────────────────────────────────
/// The FNV-1a 32-bit offset basis.
pub const FNV_OFFSET_BASIS: u32 = 0x811C_9DC5;

/// The FNV-1a 32-bit prime.
pub const FNV_PRIME: u32 = 0x0100_0193;

/// One FNV-1a step: fold a byte in, then multiply modulo 2^32.
pub open spec fn fnv_step(h: u32, byte: u8) -> u32 {
    (((h ^ (byte as u32)) as nat * FNV_PRIME as nat) % 0x1_0000_0000) as u32
}

/// FNV-1a over a byte string, starting from `h`.
pub open spec fn fnv_fold(h: u32, bytes: Seq<u8>) -> u32
    decreases bytes.len(),
{
    if bytes.len() == 0 {
        h
    } else {
        fnv_step(fnv_fold(h, bytes.drop_last()), bytes.last())
    }
}

/// The four little-endian bytes of a word.
pub open spec fn word_bytes(w: u32) -> Seq<u8> {
    seq![(w % 256) as u8, (w / 256 % 256) as u8, (w / 65536 % 256) as u8, (w / 16777216) as u8]
}

/// FNV-1a over a word's little-endian bytes.
pub open spec fn hash_word(h: u32, w: u32) -> u32 {
    fnv_fold(h, word_bytes(w))
}

/// FNV-1a over a list of words, each little-endian, in order.
pub open spec fn hash_words(h: u32, ws: Seq<u32>) -> u32
    decreases ws.len(),
{
    if ws.len() == 0 {
        h
    } else {
        hash_word(hash_words(h, ws.drop_last()), ws.last())
    }
}

/// A record field as the hash sees it: its name's bytes, then its offset.
pub open spec fn hash_field(h: u32, name: &str, offset: usize) -> u32 {
    hash_word(fnv_fold(h, name.spec_bytes()), offset as u32)
}

/// The header geometry the hash covers, in order.
pub open spec fn header_words() -> Seq<u32> {
    seq![
        REGION_COUNT as u32,
        REGION_DESC_SIZE as u32,
        MANIFEST_ENTRY_SIZE as u32,
        TYPE_COUNT as u32,
        HEADER_PAGE_SIZE as u32,
        CONTROL_OFFSET as u32,
        CONTROL_SIZE as u32,
        SESSION_INFO_OFFSET as u32,
        SESSION_INFO_SIZE as u32,
        REGION_TABLE_OFFSET as u32,
        MANIFEST_OFFSET as u32,
        LAYOUT_FLOOR as u32,
    ]
}

/// The region table as the hash sees it: kind, flags, size and alignment of
/// the first `n` regions.
pub open spec fn region_words(n: int) -> Seq<u32>
    decreases n,
{
    if n <= 0 {
        Seq::empty()
    } else {
        let r = spec_region(n - 1);
        region_words(n - 1) + seq![r.kind, r.flags, r.size, r.align]
    }
}

/// The type catalogue as the hash sees it: id, size and alignment of the
/// first `n` entries.
pub open spec fn type_words(n: int) -> Seq<u32>
    decreases n,
{
    if n <= 0 {
        Seq::empty()
    } else {
        let t = spec_type_entry(n - 1);
        type_words(n - 1) + seq![t.id as u32, t.size as u32, t.align as u32]
    }
}

/// The scalar constants that decide how a word is read, in order.
pub open spec fn scalar_words() -> Seq<u32> {
    seq![
        CLASS_COUNT as u32,
        MODE_DIRECT,
        MODE_BATCHED,
        MODE_RING,
        MODE_POLLED,
        STATE_UNINIT,
        STATE_READY,
        STATE_FAULTED,
        STATE_CLOSED,
        FAULT_CALLBACK_TRAP,
        FAULT_DEVICE_LOST,
        FAULT_OOM,
        FAULT_SHUTDOWN,
        EVENT_RECORD_SIZE as u32,
        RING_HEADER_SIZE as u32,
    ] + DEFAULT_RING_CAPACITIES@
}
/// The `control` record's fields, name and offset, folded into the hash.
pub open spec fn hash_control_fields(h: u32) -> u32 {
    let h = hash_field(h, "magic", CONTROL_MAGIC);
    let h = hash_field(h, "format_version", CONTROL_FORMAT_VERSION);
    let h = hash_field(h, "schema_version", CONTROL_SCHEMA_VERSION);
    let h = hash_field(h, "abi_version", CONTROL_ABI_VERSION);
    let h = hash_field(h, "flags", CONTROL_FLAGS);
    let h = hash_field(h, "total_size", CONTROL_TOTAL_SIZE);
    let h = hash_field(h, "layout_hash", CONTROL_LAYOUT_HASH);
    let h = hash_field(h, "region_count", CONTROL_REGION_COUNT);
    let h = hash_field(h, "region_table_off", CONTROL_REGION_TABLE_OFF);
    let h = hash_field(h, "manifest_off", CONTROL_MANIFEST_OFF);
    let h = hash_field(h, "manifest_len", CONTROL_MANIFEST_LEN);
    let h = hash_field(h, "state", CONTROL_STATE);
    let h = hash_field(h, "fault_code", CONTROL_FAULT_CODE);
    let h = hash_field(h, "fault_detail", CONTROL_FAULT_DETAIL);
    let h = hash_field(h, "session_nonce", CONTROL_SESSION_NONCE);
    h
}

/// The `session_info` record's fields, name and offset, folded into the hash.
pub open spec fn hash_session_info_fields(h: u32) -> u32 {
    let h = hash_field(h, "magic", SESSION_INFO_MAGIC);
    let h = hash_field(h, "abi_version", SESSION_INFO_ABI_VERSION);
    let h = hash_field(h, "schema_version", SESSION_INFO_SCHEMA_VERSION);
    let h = hash_field(h, "flags", SESSION_INFO_FLAGS);
    let h = hash_field(h, "arena_size", SESSION_INFO_ARENA_SIZE);
    let h = hash_field(h, "max_arena_size", SESSION_INFO_MAX_ARENA_SIZE);
    let h = hash_field(h, "memory_base", SESSION_INFO_MEMORY_BASE);
    let h = hash_field(h, "initial_pages", SESSION_INFO_INITIAL_PAGES);
    let h = hash_field(h, "max_pages", SESSION_INFO_MAX_PAGES);
    let h = hash_field(h, "layout_hash", SESSION_INFO_LAYOUT_HASH);
    let h = hash_field(h, "region_count", SESSION_INFO_REGION_COUNT);
    let h = hash_field(h, "class_count", SESSION_INFO_CLASS_COUNT);
    let h = hash_field(h, "class_capacity", SESSION_INFO_CLASS_CAPACITY);
    let h = hash_field(h, "open_nonce", SESSION_INFO_OPEN_NONCE);
    h
}

/// The `table` record's fields, name and offset, folded into the hash.
pub open spec fn hash_table_fields(h: u32) -> u32 {
    let h = hash_field(h, "head", TABLE_HEAD);
    let h = hash_field(h, "tail", TABLE_TAIL);
    let h = hash_field(h, "capacity", TABLE_CAPACITY);
    let h = hash_field(h, "stride", TABLE_STRIDE);
    let h = hash_field(h, "generation", TABLE_GENERATION);
    let h = hash_field(h, "dropped", TABLE_DROPPED);
    let h = hash_field(h, "delivered", TABLE_DELIVERED);
    h
}

/// The `region_desc` record's fields, name and offset, folded into the hash.
pub open spec fn hash_region_desc_fields(h: u32) -> u32 {
    let h = hash_field(h, "kind", REGION_DESC_KIND);
    let h = hash_field(h, "flags", REGION_DESC_FLAGS);
    let h = hash_field(h, "offset", REGION_DESC_OFFSET);
    let h = hash_field(h, "size", REGION_DESC_SIZE_FIELD);
    let h = hash_field(h, "align", REGION_DESC_ALIGN);
    let h = hash_field(h, "reserved", REGION_DESC_RESERVED);
    h
}

/// The `callbacks` record's fields, name and offset, folded into the hash.
pub open spec fn hash_callbacks_fields(h: u32) -> u32 {
    let h = hash_field(h, "abi_version", CALLBACKS_ABI_VERSION);
    let h = hash_field(h, "slot_count", CALLBACKS_SLOT_COUNT);
    let h = hash_field(h, "flags", CALLBACKS_FLAGS);
    let h = hash_field(h, "on_batch", CALLBACKS_ON_BATCH);
    let h = hash_field(h, "on_event", CALLBACKS_ON_EVENT);
    h
}

/// The `event` record's fields, name and offset, folded into the hash.
pub open spec fn hash_event_fields(h: u32) -> u32 {
    let h = hash_field(h, "seq", EVENT_SEQ);
    let h = hash_field(h, "class", EVENT_CLASS);
    let h = hash_field(h, "flags", EVENT_FLAGS);
    let h = hash_field(h, "a", EVENT_A);
    let h = hash_field(h, "b", EVENT_B);
    let h = hash_field(h, "f0", EVENT_F0);
    let h = hash_field(h, "f1", EVENT_F1);
    h
}

/// The `string_half` record's fields, name and offset, folded into the hash.
pub open spec fn hash_string_half_fields(h: u32) -> u32 {
    let h = hash_field(h, "offset", STRING_HALF_OFFSET);
    let h = hash_field(h, "length", STRING_HALF_LENGTH);
    let h = hash_field(h, "capacity", STRING_HALF_CAPACITY);
    let h = hash_field(h, "flags", STRING_HALF_FLAGS);
    h
}

/// The `subscription` record's fields, name and offset, folded into the hash.
pub open spec fn hash_subscription_fields(h: u32) -> u32 {
    let h = hash_field(h, "class", SUBSCRIPTION_CLASS);
    let h = hash_field(h, "mode", SUBSCRIPTION_MODE);
    let h = hash_field(h, "flags", SUBSCRIPTION_FLAGS);
    let h = hash_field(h, "reserved", SUBSCRIPTION_RESERVED);
    h
}

/// The `frame_state` record's fields, name and offset, folded into the hash.
pub open spec fn hash_frame_state_fields(h: u32) -> u32 {
    let h = hash_field(h, "frame_index", FRAME_INDEX);
    let h = hash_field(h, "dropped_events", FRAME_DROPPED_EVENTS);
    let h = hash_field(h, "fault_state", FRAME_FAULT_STATE);
    let h = hash_field(h, "last_error", FRAME_LAST_ERROR);
    h
}

/// Every record layout a guest reads by offset, in the order the hash takes
/// them.
pub open spec fn hash_all_fields(h: u32) -> u32 {
    let h = hash_control_fields(h);
    let h = hash_session_info_fields(h);
    let h = hash_table_fields(h);
    let h = hash_region_desc_fields(h);
    let h = hash_callbacks_fields(h);
    let h = hash_event_fields(h);
    let h = hash_string_half_fields(h);
    let h = hash_subscription_fields(h);
    let h = hash_frame_state_fields(h);
    h
}

/// The layout hash: FNV-1a over a canonical stream covering everything whose
/// change would silently corrupt a guest: the header geometry, the region
/// table (kind, flags, size, alignment), the type catalogue, the field names
/// and offsets of every record a guest reads, and the scalar constants that
/// decide how a word is read.
#[verifier::opaque]
pub open spec fn spec_layout_hash() -> u32 {
    let h = hash_words(FNV_OFFSET_BASIS, header_words());
    let h = hash_words(h, region_words(REGION_COUNT as int));
    let h = hash_words(h, type_words(TYPE_COUNT as int));
    let h = hash_all_fields(h);
    hash_words(h, scalar_words())
}

fn fnv_byte(h: u32, byte: u8) -> (r: u32)
    ensures
        r == fnv_step(h, byte),
{
    (h ^ (byte as u32)).wrapping_mul(FNV_PRIME)
}

fn fnv_bytes(h: u32, bytes: &[u8]) -> (r: u32)
    ensures
        r == fnv_fold(h, bytes@),
{
    let mut acc = h;
    let mut i: usize = 0;
    while i < bytes.len()
        invariant
            i <= bytes.len(),
            acc == fnv_fold(h, bytes@.take(i as int)),
        decreases bytes.len() - i,
    {
        assert(bytes@.take(i + 1).drop_last() =~= bytes@.take(i as int));
        acc = fnv_byte(acc, bytes[i]);
        i = i + 1;
    }
    assert(bytes@.take(i as int) =~= bytes@);
    acc
}

fn fnv_word(h: u32, w: u32) -> (r: u32)
    ensures
        r == hash_word(h, w),
{
    let b0 = (w % 256) as u8;
    let b1 = (w / 256 % 256) as u8;
    let b2 = (w / 65536 % 256) as u8;
    let b3 = (w / 16777216) as u8;
    let h1 = fnv_byte(h, b0);
    let h2 = fnv_byte(h1, b1);
    let h3 = fnv_byte(h2, b2);
    let h4 = fnv_byte(h3, b3);
    proof {
        let s = word_bytes(w);
        assert(s.drop_last().drop_last().drop_last().drop_last() =~= Seq::<u8>::empty());
        assert(s.drop_last().drop_last().drop_last() =~= seq![b0]);
        assert(s.drop_last().drop_last() =~= seq![b0, b1]);
        assert(s.drop_last() =~= seq![b0, b1, b2]);
        reveal_with_fuel(fnv_fold, 5);
    }
    h4
}

fn fnv_words(h: u32, ws: &[u32]) -> (r: u32)
    ensures
        r == hash_words(h, ws@),
{
    let mut acc = h;
    let mut i: usize = 0;
    while i < ws.len()
        invariant
            i <= ws.len(),
            acc == hash_words(h, ws@.take(i as int)),
        decreases ws.len() - i,
    {
        assert(ws@.take(i + 1).drop_last() =~= ws@.take(i as int));
        acc = fnv_word(acc, ws[i]);
        i = i + 1;
    }
    assert(ws@.take(i as int) =~= ws@);
    acc
}

fn fnv_field(h: u32, name: &str, offset: usize) -> (r: u32)
    ensures
        r == hash_field(h, name, offset),
{
    let h = fnv_bytes(h, name.as_bytes());
    fnv_word(h, offset as u32)
}

fn fnv_control_fields(h: u32) -> (r: u32)
    ensures
        r == hash_control_fields(h),
{
    let h = fnv_field(h, "magic", CONTROL_MAGIC);
    let h = fnv_field(h, "format_version", CONTROL_FORMAT_VERSION);
    let h = fnv_field(h, "schema_version", CONTROL_SCHEMA_VERSION);
    let h = fnv_field(h, "abi_version", CONTROL_ABI_VERSION);
    let h = fnv_field(h, "flags", CONTROL_FLAGS);
    let h = fnv_field(h, "total_size", CONTROL_TOTAL_SIZE);
    let h = fnv_field(h, "layout_hash", CONTROL_LAYOUT_HASH);
    let h = fnv_field(h, "region_count", CONTROL_REGION_COUNT);
    let h = fnv_field(h, "region_table_off", CONTROL_REGION_TABLE_OFF);
    let h = fnv_field(h, "manifest_off", CONTROL_MANIFEST_OFF);
    let h = fnv_field(h, "manifest_len", CONTROL_MANIFEST_LEN);
    let h = fnv_field(h, "state", CONTROL_STATE);
    let h = fnv_field(h, "fault_code", CONTROL_FAULT_CODE);
    let h = fnv_field(h, "fault_detail", CONTROL_FAULT_DETAIL);
    let h = fnv_field(h, "session_nonce", CONTROL_SESSION_NONCE);
    h
}

fn fnv_session_info_fields(h: u32) -> (r: u32)
    ensures
        r == hash_session_info_fields(h),
{
    let h = fnv_field(h, "magic", SESSION_INFO_MAGIC);
    let h = fnv_field(h, "abi_version", SESSION_INFO_ABI_VERSION);
    let h = fnv_field(h, "schema_version", SESSION_INFO_SCHEMA_VERSION);
    let h = fnv_field(h, "flags", SESSION_INFO_FLAGS);
    let h = fnv_field(h, "arena_size", SESSION_INFO_ARENA_SIZE);
    let h = fnv_field(h, "max_arena_size", SESSION_INFO_MAX_ARENA_SIZE);
    let h = fnv_field(h, "memory_base", SESSION_INFO_MEMORY_BASE);
    let h = fnv_field(h, "initial_pages", SESSION_INFO_INITIAL_PAGES);
    let h = fnv_field(h, "max_pages", SESSION_INFO_MAX_PAGES);
    let h = fnv_field(h, "layout_hash", SESSION_INFO_LAYOUT_HASH);
    let h = fnv_field(h, "region_count", SESSION_INFO_REGION_COUNT);
    let h = fnv_field(h, "class_count", SESSION_INFO_CLASS_COUNT);
    let h = fnv_field(h, "class_capacity", SESSION_INFO_CLASS_CAPACITY);
    let h = fnv_field(h, "open_nonce", SESSION_INFO_OPEN_NONCE);
    h
}

fn fnv_table_fields(h: u32) -> (r: u32)
    ensures
        r == hash_table_fields(h),
{
    let h = fnv_field(h, "head", TABLE_HEAD);
    let h = fnv_field(h, "tail", TABLE_TAIL);
    let h = fnv_field(h, "capacity", TABLE_CAPACITY);
    let h = fnv_field(h, "stride", TABLE_STRIDE);
    let h = fnv_field(h, "generation", TABLE_GENERATION);
    let h = fnv_field(h, "dropped", TABLE_DROPPED);
    let h = fnv_field(h, "delivered", TABLE_DELIVERED);
    h
}

fn fnv_region_desc_fields(h: u32) -> (r: u32)
    ensures
        r == hash_region_desc_fields(h),
{
    let h = fnv_field(h, "kind", REGION_DESC_KIND);
    let h = fnv_field(h, "flags", REGION_DESC_FLAGS);
    let h = fnv_field(h, "offset", REGION_DESC_OFFSET);
    let h = fnv_field(h, "size", REGION_DESC_SIZE_FIELD);
    let h = fnv_field(h, "align", REGION_DESC_ALIGN);
    let h = fnv_field(h, "reserved", REGION_DESC_RESERVED);
    h
}

fn fnv_callbacks_fields(h: u32) -> (r: u32)
    ensures
        r == hash_callbacks_fields(h),
{
    let h = fnv_field(h, "abi_version", CALLBACKS_ABI_VERSION);
    let h = fnv_field(h, "slot_count", CALLBACKS_SLOT_COUNT);
    let h = fnv_field(h, "flags", CALLBACKS_FLAGS);
    let h = fnv_field(h, "on_batch", CALLBACKS_ON_BATCH);
    let h = fnv_field(h, "on_event", CALLBACKS_ON_EVENT);
    h
}

fn fnv_event_fields(h: u32) -> (r: u32)
    ensures
        r == hash_event_fields(h),
{
    let h = fnv_field(h, "seq", EVENT_SEQ);
    let h = fnv_field(h, "class", EVENT_CLASS);
    let h = fnv_field(h, "flags", EVENT_FLAGS);
    let h = fnv_field(h, "a", EVENT_A);
    let h = fnv_field(h, "b", EVENT_B);
    let h = fnv_field(h, "f0", EVENT_F0);
    let h = fnv_field(h, "f1", EVENT_F1);
    h
}

fn fnv_string_half_fields(h: u32) -> (r: u32)
    ensures
        r == hash_string_half_fields(h),
{
    let h = fnv_field(h, "offset", STRING_HALF_OFFSET);
    let h = fnv_field(h, "length", STRING_HALF_LENGTH);
    let h = fnv_field(h, "capacity", STRING_HALF_CAPACITY);
    let h = fnv_field(h, "flags", STRING_HALF_FLAGS);
    h
}

fn fnv_subscription_fields(h: u32) -> (r: u32)
    ensures
        r == hash_subscription_fields(h),
{
    let h = fnv_field(h, "class", SUBSCRIPTION_CLASS);
    let h = fnv_field(h, "mode", SUBSCRIPTION_MODE);
    let h = fnv_field(h, "flags", SUBSCRIPTION_FLAGS);
    let h = fnv_field(h, "reserved", SUBSCRIPTION_RESERVED);
    h
}

fn fnv_frame_state_fields(h: u32) -> (r: u32)
    ensures
        r == hash_frame_state_fields(h),
{
    let h = fnv_field(h, "frame_index", FRAME_INDEX);
    let h = fnv_field(h, "dropped_events", FRAME_DROPPED_EVENTS);
    let h = fnv_field(h, "fault_state", FRAME_FAULT_STATE);
    let h = fnv_field(h, "last_error", FRAME_LAST_ERROR);
    h
}

fn fnv_regions(h: u32) -> (r: u32)
    ensures
        r == hash_words(h, region_words(REGION_COUNT as int)),
{
    let table = regions();
    let mut words: Vec<u32> = Vec::new();
    let mut i: usize = 0;
    while i < REGION_COUNT
        invariant
            i <= REGION_COUNT,
            forall|k: int| 0 <= k < REGION_COUNT ==> #[trigger] table@[k] == spec_region(k),
            words@ == region_words(i as int),
        decreases REGION_COUNT - i,
    {
        let region = table[i];
        words.push(region.kind);
        words.push(region.flags);
        words.push(region.size);
        words.push(region.align);
        assert(words@ =~= region_words(i + 1));
        i = i + 1;
    }
    fnv_words(h, words.as_slice())
}

fn fnv_types(h: u32) -> (r: u32)
    ensures
        r == hash_words(h, type_words(TYPE_COUNT as int)),
{
    let table = types();
    let mut words: Vec<u32> = Vec::new();
    let mut i: usize = 0;
    while i < TYPE_COUNT
        invariant
            i <= TYPE_COUNT,
            forall|k: int| 0 <= k < TYPE_COUNT ==> #[trigger] table@[k] == spec_type_entry(k),
            words@ == type_words(i as int),
        decreases TYPE_COUNT - i,
    {
        let entry = table[i];
        words.push(entry.id as u32);
        words.push(entry.size as u32);
        words.push(entry.align as u32);
        assert(words@ =~= type_words(i + 1));
        i = i + 1;
    }
    fnv_words(h, words.as_slice())
}

/// The layout hash: FNV-1a over the canonical shape stream. It deliberately
/// does not cover anything that varies per run (the chosen `arena_size`, the
/// reserved ceiling): those are validated structurally at open.
pub fn layout_hash() -> (r: u32)
    ensures
        r == spec_layout_hash(),
{
    let header: [u32; 12] = [
        REGION_COUNT as u32,
        REGION_DESC_SIZE as u32,
        MANIFEST_ENTRY_SIZE as u32,
        TYPE_COUNT as u32,
        HEADER_PAGE_SIZE as u32,
        CONTROL_OFFSET as u32,
        CONTROL_SIZE as u32,
        SESSION_INFO_OFFSET as u32,
        SESSION_INFO_SIZE as u32,
        REGION_TABLE_OFFSET as u32,
        MANIFEST_OFFSET as u32,
        LAYOUT_FLOOR as u32,
    ];
    assert(header@ =~= header_words());
    let h = fnv_words(FNV_OFFSET_BASIS, &header);
    let h = fnv_regions(h);
    let h = fnv_types(h);
    let h = fnv_control_fields(h);
    let h = fnv_session_info_fields(h);
    let h = fnv_table_fields(h);
    let h = fnv_region_desc_fields(h);
    let h = fnv_callbacks_fields(h);
    let h = fnv_event_fields(h);
    let h = fnv_string_half_fields(h);
    let h = fnv_subscription_fields(h);
    let h = fnv_frame_state_fields(h);
    let mut scalars: Vec<u32> = vec![
        CLASS_COUNT as u32,
        MODE_DIRECT,
        MODE_BATCHED,
        MODE_RING,
        MODE_POLLED,
        STATE_UNINIT,
        STATE_READY,
        STATE_FAULTED,
        STATE_CLOSED,
        FAULT_CALLBACK_TRAP,
        FAULT_DEVICE_LOST,
        FAULT_OOM,
        FAULT_SHUTDOWN,
        EVENT_RECORD_SIZE as u32,
        RING_HEADER_SIZE as u32,
    ];
    let caps = DEFAULT_RING_CAPACITIES;
    let mut i: usize = 0;
    while i < CLASS_COUNT
        invariant
            i <= CLASS_COUNT,
            caps@ == DEFAULT_RING_CAPACITIES@,
            scalars@ =~= scalar_words().take(15 + i),
        decreases CLASS_COUNT - i,
    {
        scalars.push(caps[i]);
        i = i + 1;
    }
    assert(scalar_words().take(25) =~= scalar_words());
    let r = fnv_words(h, scalars.as_slice());
    proof {
        reveal(spec_layout_hash);
    }
    r
}

// ── the reserved gap's belt and braces ────────────────────────────────────
/// The value a canary block carries for a given offset.
pub open spec fn spec_canary_word(offset: int) -> u64 {
    (offset as u64) ^ CANARY_MAGIC
}

/// The block at `at` holds the canary for its offset and its complement.
pub open spec fn canary_block_holds(s: Seq<u8>, at: int) -> bool {
    &&& le64(s, at) == spec_canary_word(at) as int
    &&& le64(s, at + 8) == (!spec_canary_word(at)) as int
}

fn canary_word(offset: usize) -> (r: u64)
    ensures
        r == spec_canary_word(offset as int),
{
    (offset as u64) ^ CANARY_MAGIC
}

/// The two 8-byte words a canary block at `offset` must hold.
pub fn canary_expected(offset: usize) -> (r: (u64, u64))
    ensures
        r.0 == spec_canary_word(offset as int),
        r.1 == !spec_canary_word(offset as int),
{
    let word = canary_word(offset);
    (word, !word)
}

/// What `write_canary_lattice` answers for a buffer of `len` bytes.
pub open spec fn canary_lattice_outcome(len: int, start: int, end: int) -> Result<(), LayoutError> {
    if end > len {
        Err(LayoutError::BufferTooSmall { need: end as usize, have: len as usize })
    } else if start + CANARY_BLOCK <= end && start % 8 != 0 {
        Err(LayoutError::Misaligned { offset: start as usize, align: 8 })
    } else {
        Ok(())
    }
}

proof fn lemma_stride_keeps_alignment(start: int, k: int)
    requires
        k >= 0,
    ensures
        (start + CANARY_STRIDE * k) % 8 == start % 8,
        (start + CANARY_STRIDE * k + 8) % 8 == start % 8,
{
    assert((start + 4096 * k) % 8 == start % 8) by (nonlinear_arith);
    assert((start + 4096 * k + 8) % 8 == start % 8) by (nonlinear_arith);
}

/// Write the canary lattice over `[start, end)`: one 16-byte block every
/// `CANARY_STRIDE`, each carrying `(offset ^ CANARY_MAGIC)` and its
/// complement. Only the blocks change.
pub fn write_canary_lattice(arena: &mut [u8], start: usize, end: usize) -> (r: Result<(), LayoutError>)
    requires
        start + CANARY_STRIDE <= usize::MAX,
        end + CANARY_STRIDE <= usize::MAX,
    ensures
        r == canary_lattice_outcome(old(arena)@.len() as int, start as int, end as int),
        r is Err ==> final(arena)@ == old(arena)@,
        r is Ok ==> forall|j: int| 0 <= j && start + CANARY_STRIDE * j + CANARY_BLOCK <= end
            ==> #[trigger] canary_block_holds(final(arena)@, start + CANARY_STRIDE * j),
        r is Ok ==> same_outside(old(arena)@, final(arena)@, start as int, end as int),
{
    if end > arena.len() {
        return Err(LayoutError::BufferTooSmall { need: end, have: arena.len() });
    }
    let mut at = start;
    let ghost mut k: int = 0;
    while at + CANARY_BLOCK <= end
        invariant
            end <= old(arena)@.len(),
            end + CANARY_STRIDE <= usize::MAX,
            at + CANARY_BLOCK <= usize::MAX,
            k >= 0,
            at == start + CANARY_STRIDE * k,
            k > 0 ==> start % 8 == 0,
            k > 0 ==> start + CANARY_BLOCK <= end,
            k == 0 ==> arena@ == old(arena)@,
            same_outside(old(arena)@, arena@, start as int, end as int),
            forall|j: int| 0 <= j < k ==> #[trigger] canary_block_holds(arena@, start + CANARY_STRIDE * j),
        decreases usize::MAX - at,
    {
        proof {
            lemma_stride_keeps_alignment(start as int, k);
        }
        let ghost before = arena@;
        let word = canary_word(at);
        put_u64(arena, at, word)?;
        let ghost first = arena@;
        put_u64(arena, at + 8, !word)?;
        proof {
            crate::bytes::lemma_le64_agree(first, arena@, at as int);
            assert forall|j: int| 0 <= j < k + 1 implies #[trigger] canary_block_holds(arena@, start + CANARY_STRIDE * j) by {
                if j < k {
                    let b = start + CANARY_STRIDE * j;
                    assert(canary_block_holds(before, b));
                    crate::bytes::lemma_le64_agree(before, arena@, b);
                    crate::bytes::lemma_le64_agree(before, arena@, b + 8);
                }
            }
            k = k + 1;
        }
        at = at + CANARY_STRIDE;
    }
    proof {
        assert forall|j: int| 0 <= j && start + CANARY_STRIDE * j + CANARY_BLOCK <= end
            implies #[trigger] canary_block_holds(arena@, start + CANARY_STRIDE * j) by {
            if j >= k {
                assert(start + CANARY_STRIDE * j >= at);
            }
        }
    }
    Ok(())
}

/// The first offset at or after `start` whose block is damaged, for a lattice
/// checked up to `end`.
pub open spec fn canary_lattice_ok(s: Seq<u8>, start: int, end: int) -> bool {
    forall|j: int| 0 <= j && start + CANARY_STRIDE * j + CANARY_BLOCK <= end
        ==> #[trigger] canary_block_holds(s, start + CANARY_STRIDE * j)
}

/// Verify the lattice over `[start, end)`. `Err(offset)` names the first block
/// whose bytes are not what `write_canary_lattice` wrote.
pub fn verify_canary_lattice(arena: &[u8], start: usize, end: usize) -> (r: Result<(), usize>)
    requires
        start + CANARY_STRIDE <= usize::MAX,
        end + CANARY_STRIDE <= usize::MAX,
    ensures
        ({
            let stop = if end < arena@.len() { end as int } else { arena@.len() as int };
            match r {
                Ok(()) => canary_lattice_ok(arena@, start as int, stop),
                Err(at) => exists|k: int| #![trigger canary_block_holds(arena@, start + CANARY_STRIDE * k)]
                    {
                        &&& k >= 0
                        &&& at == start + CANARY_STRIDE * k
                        &&& at + CANARY_BLOCK <= stop
                        &&& !canary_block_holds(arena@, at as int)
                        &&& canary_lattice_ok(arena@, start as int, at as int)
                    },
            }
        }),
{
    let stop = if end < arena.len() { end } else { arena.len() };
    let mut at = start;
    let ghost mut k: int = 0;
    while at + CANARY_BLOCK <= stop
        invariant
            stop <= arena@.len(),
            stop <= end,
            end + CANARY_STRIDE <= usize::MAX,
            at + CANARY_BLOCK <= usize::MAX,
            stop == (if end < arena@.len() { end as int } else { arena@.len() as int }),
            k >= 0,
            at == start + CANARY_STRIDE * k,
            forall|j: int| 0 <= j < k ==> #[trigger] canary_block_holds(arena@, start + CANARY_STRIDE * j),
        decreases usize::MAX - at,
    {
        let word = canary_word(at);
        let found = load_u64(arena, at);
        let complement = load_u64(arena, at + 8);
        if found != word || complement != !word {
            proof {
                assert(!canary_block_holds(arena@, start + CANARY_STRIDE * k));
                assert forall|j: int| 0 <= j && start + CANARY_STRIDE * j + CANARY_BLOCK <= at
                    implies #[trigger] canary_block_holds(arena@, start + CANARY_STRIDE * j) by {
                    assert(j < k);
                }
            }
            return Err(at);
        }
        at = at + CANARY_STRIDE;
        proof {
            k = k + 1;
        }
    }
    proof {
        assert forall|j: int| 0 <= j && start + CANARY_STRIDE * j + CANARY_BLOCK <= stop
            implies #[trigger] canary_block_holds(arena@, start + CANARY_STRIDE * j) by {
            if j >= k {
                assert(start + CANARY_STRIDE * j >= at);
            }
        }
    }
    Ok(())
}

/// Zero `[start, end)`.
pub fn zero_band(arena: &mut [u8], start: usize, end: usize) -> (r: Result<(), LayoutError>)
    requires
        start <= end,
    ensures
        r is Err <==> end > old(arena)@.len(),
        r is Err ==> r == Err::<(), LayoutError>(
            LayoutError::BufferTooSmall { need: end, have: old(arena)@.len() as usize },
        ),
        r is Err ==> final(arena)@ == old(arena)@,
        r is Ok ==> all_zero(final(arena)@, start as int, end as int),
        r is Ok ==> same_outside(old(arena)@, final(arena)@, start as int, end as int),
{
    if end > arena.len() {
        return Err(LayoutError::BufferTooSmall { need: end, have: arena.len() });
    }
    let mut i = start;
    while i < end
        invariant
            start <= i <= end,
            end <= arena@.len(),
            arena@.len() == old(arena)@.len(),
            all_zero(arena@, start as int, i as int),
            same_outside(old(arena)@, arena@, start as int, end as int),
        decreases end - i,
    {
        arena[i] = 0;
        i = i + 1;
    }
    Ok(())
}

/// Verify `[start, end)` is all zero. `Err(offset)` names the first byte that
/// is not.
pub fn verify_band_is_zero(arena: &[u8], start: usize, end: usize) -> (r: Result<(), usize>)
    requires
        start <= end,
        start <= arena@.len(),
    ensures
        ({
            let stop = if end < arena@.len() { end as int } else { arena@.len() as int };
            match r {
                Ok(()) => all_zero(arena@, start as int, stop),
                Err(at) => start <= at < stop && arena@[at as int] != 0 && all_zero(arena@, start as int, at as int),
            }
        }),
{
    let stop = if end < arena.len() { end } else { arena.len() };
    let mut i = start;
    while i < stop
        invariant
            start <= i <= stop,
            stop <= arena@.len(),
            stop == (if end < arena@.len() { end as int } else { arena@.len() as int }),
            all_zero(arena@, start as int, i as int),
        decreases stop - i,
    {
        if arena[i] != 0 {
            return Err(i);
        }
        i = i + 1;
    }
    Ok(())
}

// ── the EVENT_TABLE's sub-ring arithmetic ─────────────────────────────────
/// The bytes the first `n` sub-rings take: a header plus `capacity` records
/// each, in class-id order.
pub open spec fn rings_span(capacities: Seq<u32>, n: int) -> int
    decreases n,
{
    if n <= 0 {
        0
    } else {
        rings_span(capacities, n - 1) + RING_HEADER_SIZE + capacities[n - 1] * EVENT_RECORD_SIZE
    }
}

/// Where class `class`'s sub-ring starts; a class past the last lands at the
/// table's end.
pub open spec fn spec_ring_offset(capacities: Seq<u32>, class: int) -> int {
    if 0 <= class < CLASS_COUNT {
        EVENT_TABLE_OFFSET + rings_span(capacities, class)
    } else {
        EVENT_TABLE_OFFSET + EVENT_TABLE_SIZE
    }
}

pub proof fn lemma_rings_span_monotone(capacities: Seq<u32>, m: int, n: int)
    requires
        0 <= m <= n,
    ensures
        rings_span(capacities, m) <= rings_span(capacities, n),
        rings_span(capacities, n) <= rings_span(capacities, m) + (n - m) * (RING_HEADER_SIZE + 0xFFFF_FFFF * EVENT_RECORD_SIZE),
    decreases n - m,
{
    if m < n {
        lemma_rings_span_monotone(capacities, m, n - 1);
        let c = capacities[n - 1] as int;
        assert(rings_span(capacities, n) == rings_span(capacities, n - 1) + 32 + c * 32);
        assert(0 <= c <= 0xFFFF_FFFF);
        assert((n - m) * (32 + 0xFFFF_FFFF * 32) == (n - 1 - m) * (32 + 0xFFFF_FFFF * 32) + (32 + 0xFFFF_FFFF * 32)) by (nonlinear_arith);
    }
}

/// The byte offset of class `class`'s sub-ring, given the per-class
/// capacities.
pub fn ring_offset(capacities: &[u32; CLASS_COUNT], class: usize) -> (r: usize)
    requires
        EVENT_TABLE_OFFSET + rings_span(capacities@, if class < CLASS_COUNT { class as int } else { CLASS_COUNT as int }) <= usize::MAX,
    ensures
        r == spec_ring_offset(capacities@, class as int),
{
    let ghost limit = if class < CLASS_COUNT { class as int } else { CLASS_COUNT as int };
    let mut at = EVENT_TABLE_OFFSET;
    let mut index: usize = 0;
    while index < CLASS_COUNT
        invariant
            index <= CLASS_COUNT,
            index <= limit,
            limit == (if class < CLASS_COUNT { class as int } else { CLASS_COUNT as int }),
            at == EVENT_TABLE_OFFSET + rings_span(capacities@, index as int),
            EVENT_TABLE_OFFSET + rings_span(capacities@, limit) <= usize::MAX,
        decreases CLASS_COUNT - index,
    {
        if index == class {
            return at;
        }
        proof {
            lemma_rings_span_monotone(capacities@, index + 1, limit);
        }
        at = at + RING_HEADER_SIZE + (capacities[index] as usize) * EVENT_RECORD_SIZE;
        index = index + 1;
    }
    EVENT_TABLE_OFFSET + EVENT_TABLE_SIZE
}

/// How many bytes the ten sub-rings need.
pub fn ring_bytes(capacities: &[u32; CLASS_COUNT]) -> (r: u64)
    ensures
        r == rings_span(capacities@, CLASS_COUNT as int),
{
    let mut total: u64 = 0;
    let mut index: usize = 0;
    while index < CLASS_COUNT
        invariant
            index <= CLASS_COUNT,
            total == rings_span(capacities@, index as int),
        decreases CLASS_COUNT - index,
    {
        proof {
            lemma_rings_span_monotone(capacities@, 0, index + 1);
            assert(rings_span(capacities@, 0) == 0);
            assert((index + 1) * (32 + 0xFFFF_FFFFint * 32) <= 10 * (32 + 0xFFFF_FFFFint * 32)) by (nonlinear_arith)
                requires
                    index < 10,
            ;
            assert(rings_span(capacities@, index + 1) == total + 32 + capacities@[index as int] * 32);
        }
        total = total + RING_HEADER_SIZE as u64 + (capacities[index] as u64) * EVENT_RECORD_SIZE as u64;
        index = index + 1;
    }
    total
}

// ── the control block's session-owned tail ────────────────────────────────
/// The control block's own report of its magic.
pub fn control_magic(arena: &[u8]) -> (r: u64)
    requires
        CONTROL_OFFSET + CONTROL_MAGIC + 8 <= arena.len(),
    ensures
        r as int == le64(arena@, 0),
{
    load_u64(arena, CONTROL_OFFSET + CONTROL_MAGIC)
}

/// The control block's own report of the layout hash.
pub fn control_layout_hash(arena: &[u8]) -> (r: u32)
    requires
        CONTROL_OFFSET + CONTROL_LAYOUT_HASH + 4 <= arena.len(),
    ensures
        r as int == le32(arena@, 20),
{
    u32_at(arena, CONTROL_OFFSET + CONTROL_LAYOUT_HASH)
}

/// The control block's own report of the region count.
pub fn control_region_count(arena: &[u8]) -> (r: u32)
    requires
        CONTROL_OFFSET + CONTROL_REGION_COUNT + 4 <= arena.len(),
    ensures
        r as int == le32(arena@, 24),
{
    u32_at(arena, CONTROL_OFFSET + CONTROL_REGION_COUNT)
}

/// The control block's own report of the session's state.
pub fn control_state(arena: &[u8]) -> (r: u32)
    requires
        CONTROL_OFFSET + CONTROL_STATE + 4 <= arena.len(),
    ensures
        r as int == le32(arena@, 160),
{
    u32_at(arena, CONTROL_OFFSET + CONTROL_STATE)
}

/// Write the control block's state word.
pub fn set_control_state(arena: &mut [u8], state: u32) -> (r: Result<(), LayoutError>)
    ensures
        r is Err <==> old(arena)@.len() < CONTROL_SIZE,
        r is Err ==> r == Err::<(), LayoutError>(
            LayoutError::BufferTooSmall { need: CONTROL_SIZE, have: old(arena)@.len() as usize },
        ),
        r is Err ==> final(arena)@ == old(arena)@,
        r is Ok ==> le32(final(arena)@, 160) == state as int,
        r is Ok ==> same_outside(old(arena)@, final(arena)@, 160, 164),
{
    require(arena, CONTROL_OFFSET + CONTROL_SIZE)?;
    put_u32(arena, CONTROL_OFFSET + CONTROL_STATE, state)
}

/// Write the control block's fault code, clearing its detail word.
pub fn set_control_fault_code(arena: &mut [u8], code: i32) -> (r: Result<(), LayoutError>)
    ensures
        r is Err <==> old(arena)@.len() < CONTROL_SIZE,
        r is Err ==> r == Err::<(), LayoutError>(
            LayoutError::BufferTooSmall { need: CONTROL_SIZE, have: old(arena)@.len() as usize },
        ),
        r is Err ==> final(arena)@ == old(arena)@,
        r is Ok ==> le32(final(arena)@, 164) == (code as u32) as int,
        r is Ok ==> le32(final(arena)@, 168) == 0,
        r is Ok ==> same_outside(old(arena)@, final(arena)@, 164, 172),
{
    require(arena, CONTROL_OFFSET + CONTROL_SIZE)?;
    put_u32(arena, CONTROL_OFFSET + CONTROL_FAULT_CODE, code as u32)?;
    let ghost coded = arena@;
    put_u32(arena, CONTROL_OFFSET + CONTROL_FAULT_DETAIL, 0)?;
    proof {
        crate::bytes::lemma_le32_agree(coded, arena@, 164);
    }
    Ok(())
}

/// Write the control block's session nonce.
pub fn set_control_nonce(arena: &mut [u8], nonce: u64) -> (r: Result<(), LayoutError>)
    ensures
        r is Err <==> old(arena)@.len() < CONTROL_SIZE,
        r is Err ==> r == Err::<(), LayoutError>(
            LayoutError::BufferTooSmall { need: CONTROL_SIZE, have: old(arena)@.len() as usize },
        ),
        r is Err ==> final(arena)@ == old(arena)@,
        r is Ok ==> le64(final(arena)@, 176) == nonce as int,
        r is Ok ==> same_outside(old(arena)@, final(arena)@, 176, 184),
{
    require(arena, CONTROL_OFFSET + CONTROL_SIZE)?;
    put_u64(arena, CONTROL_OFFSET + CONTROL_SESSION_NONCE, nonce)
}

/// The control block's header survives anything that leaves `[0, 40)`
/// alone.
pub proof fn lemma_control_block_kept(a: Seq<u8>, b: Seq<u8>, total_size: u32)
    requires
        control_block_written(a, total_size),
        forall|i: int| 0 <= i < 40 ==> a[i] == b[i],
    ensures
        control_block_written(b, total_size),
{
    crate::bytes::lemma_le64_agree(a, b, 0);
    crate::bytes::lemma_le16_agree(a, b, 8);
    crate::bytes::lemma_le16_agree(a, b, 10);
    crate::bytes::lemma_le16_agree(a, b, 12);
    crate::bytes::lemma_le16_agree(a, b, 14);
    crate::bytes::lemma_le32_agree(a, b, 16);
    crate::bytes::lemma_le32_agree(a, b, 20);
    crate::bytes::lemma_le32_agree(a, b, 24);
    crate::bytes::lemma_le32_agree(a, b, 28);
    crate::bytes::lemma_le32_agree(a, b, 32);
    crate::bytes::lemma_le32_agree(a, b, 36);
}

/// `SessionInfo` survives anything that leaves `[256, 352)` alone.
pub proof fn lemma_session_info_kept(a: Seq<u8>, b: Seq<u8>, v: SessionInfoValues)
    requires
        session_info_written(a, v),
        forall|i: int| 256 <= i < 352 ==> a[i] == b[i],
    ensures
        session_info_written(b, v),
{
    lemma_session_info_head_kept(a, b, v);
    assert forall|k: int| 0 <= k < CLASS_COUNT implies #[trigger] le32(b, 304 + 4 * k) == v.class_capacities@[k] as int by {
        crate::bytes::lemma_le32_agree(a, b, 304 + 4 * k);
    }
    crate::bytes::lemma_le64_agree(a, b, 344);
}

/// A manifest entry survives anything that leaves its eight bytes alone.
pub proof fn lemma_manifest_entry_kept(a: Seq<u8>, b: Seq<u8>, k: int)
    requires
        manifest_entry_written(a, k),
        forall|i: int| 0x320 + 8 * k <= i < 0x320 + 8 * k + 8 ==> a[i] == b[i],
    ensures
        manifest_entry_written(b, k),
{
    let at = 0x320 + 8 * k;
    crate::bytes::lemma_le16_agree(a, b, at);
    crate::bytes::lemma_le16_agree(a, b, at + 2);
    crate::bytes::lemma_le16_agree(a, b, at + 4);
    crate::bytes::lemma_le16_agree(a, b, at + 6);
}

/// The canary lattice survives anything that leaves its blocks alone.
pub proof fn lemma_canary_kept(a: Seq<u8>, b: Seq<u8>, start: int, end: int)
    requires
        canary_lattice_ok(a, start, end),
        forall|i: int| start <= i < end ==> a[i] == b[i],
    ensures
        canary_lattice_ok(b, start, end),
{
    assert forall|j: int| 0 <= j && start + CANARY_STRIDE * j + CANARY_BLOCK <= end implies #[trigger] canary_block_holds(
        b,
        start + CANARY_STRIDE * j,
    ) by {
        let at = start + CANARY_STRIDE * j;
        assert(canary_block_holds(a, at));
        crate::bytes::lemma_le64_agree(a, b, at);
        crate::bytes::lemma_le64_agree(a, b, at + 8);
    }
}

} // verus!
