//! The `session_open` configuration wire.
//!
//! The host is the strict reader: the guest's SDK writes the stream, and this
//! module validates what it reads and refuses anything that does not match.
//! Every refusal is `-EINVAL` with a reason that names the failed check.
//!
//! ```text
//! argmap := u32 entry_count
//! entry  := u32 key, u8 tag, payload
//! tag 2  := i64 LE: the carrier for every u32 field; a value that does not
//!           fit a u32 is refused rather than truncated.
//! ```
//!
//! Keys 1-6 are the fixed keys below; `0x0100 + n` is `ring_capacity_<n>` for
//! class `n` (the whole `0x0100..0x0200` range is the ring namespace); every
//! other key is ignored. A key that appears twice takes its last value. The
//! first entry must be `abi_version`.

use vstd::prelude::*;

use crate::bytes::{le32, le64, load_u32, load_u64, store_u32, store_u64};
use crate::session::arena::{
    region, ring_bytes, rings_span, spec_region, CALLBACKS_SIZE, CLASS_COUNT,
    DEFAULT_RING_CAPACITIES, EVENT_RECORD_SIZE, EVENT_TABLE_SIZE, LAYOUT_FLOOR, REGION_COUNT,
};
use crate::session::arena::{region_name, spec_region_name};
use crate::session::EINVAL;
use crate::text::{decimal, hex, hex8, push_decimal, push_hex, push_hex8};
use vstd::string::StringExecFns;

verus! {

// ── the key table ─────────────────────────────────────────────────────────
pub const KEY_ABI_VERSION: u32 = 1;

pub const KEY_LAYOUT_HASH: u32 = 2;

pub const KEY_ARENA_SIZE: u32 = 3;

pub const KEY_MAX_ARENA_SIZE: u32 = 4;

pub const KEY_CALLBACKS_PTR: u32 = 5;

pub const KEY_CALLBACKS_LEN: u32 = 6;

/// `0x0100 + class`: one key per event class.
pub const KEY_RING_CAPACITY_BASE: u32 = 0x0100;

/// One past the ring namespace: `0x0100..0x0200`.
pub const KEY_RING_CAPACITY_END: u32 = 0x0200;

/// The only value tag this build reads.
pub const TAG_I64: u8 = 2;

/// One entry's size: the key (4), the tag (1) and the payload (8).
pub const MIN_ENTRY_LEN: usize = 13;

/// The event-record stride the ring arithmetic depends on.
pub const RING_RECORD_STRIDE: usize = EVENT_RECORD_SIZE;

/// The guest's configuration, decoded and defaulted.
#[derive(Clone, Copy, Debug, PartialEq, Eq)]
pub struct SessionConfig {
    pub abi_version: u32,
    pub layout_hash: u32,
    pub arena_size: u32,
    pub max_arena_size: u32,
    pub callbacks_ptr: u32,
    pub callbacks_len: u32,
    /// One entry per class, in class-id order: the stated value where the
    /// guest supplied one, the default otherwise.
    pub ring_capacities: [u32; CLASS_COUNT],
    /// Which capacities the guest actually stated.
    pub ring_stated: [bool; CLASS_COUNT],
}

/// One capability's declared need for a region kind; the adapter's name
/// travels with the kind because a refusal names both.
#[derive(Clone, Debug, PartialEq, Eq)]
pub struct RegionNeed {
    pub kind: u32,
    pub adapter: String,
}

/// A refusal, with the numbers needed to say why.
#[derive(Clone, Debug, PartialEq, Eq)]
pub enum ConfigError {
    /// The byte stream is not the wire format.
    Malformed(&'static str),
    /// The stream ended inside an entry.
    Truncated,
    /// A required key was absent.
    MissingKey(&'static str),
    /// `abi_version` was not the first entry.
    AbiVersionNotFirst,
    /// The guest's ABI version is not the session's.
    AbiVersion { guest: u32, session: u32 },
    /// The guest's compiled-in layout hash is not the session's.
    LayoutHash { guest: u32, session: u32 },
    /// A field did not fit the u32 the wire carries it in.
    ValueOutOfRange(&'static str),
    /// C1: the arena's declared sizes are inconsistent.
    ArenaRelation(&'static str),
    /// C4: the frozen layout does not fit the declared live arena.
    LayoutFit { need: u64, have: u32 },
    /// A ring capacity is zero, or names a class outside the ten.
    RingCapacity { class: u32 },
    /// The capacities together do not fit `EVENT_TABLE`.
    RingTableFit { need: u64, have: u64 },
    /// A callbacks field is out of range.
    Callbacks(&'static str),
    /// A loaded capability asked about a region kind this layout does not
    /// define.
    UnknownRegion { kind: u32, adapter: String },
    /// The live arena ends before a region a loaded capability needs does.
    RegionTruncated { kind: u32, adapter: String, need: u64, have: u32 },
}

impl ConfigError {
    /// Every refusal at this boundary is `-EINVAL`; the reason is the message.
    pub fn errno(&self) -> (r: i32)
        ensures
            r == EINVAL,
    {
        EINVAL
    }
}

// ── the wire, as a reader sees it ─────────────────────────────────────────
/// Where entry `i` starts.
pub open spec fn entry_offset(i: int) -> int {
    4 + MIN_ENTRY_LEN * i
}

/// Entry `i`'s key.
pub open spec fn wire_key(b: Seq<u8>, i: int) -> u32 {
    le32(b, entry_offset(i)) as u32
}

/// Entry `i`'s tag.
pub open spec fn wire_tag(b: Seq<u8>, i: int) -> u8 {
    b[entry_offset(i) + 4]
}

/// Entry `i`'s payload: the i64's eight bytes, read unsigned. A payload fits
/// a u32 exactly when this is at most `u32::MAX` (a negative i64 reads as at
/// least 2^63).
pub open spec fn wire_raw(b: Seq<u8>, i: int) -> int {
    le64(b, entry_offset(i) + 5)
}

/// Entry `i`'s value, where it fits.
pub open spec fn wire_value(b: Seq<u8>, i: int) -> u32 {
    wire_raw(b, i) as u32
}

/// The refusal for a value that does not fit its carrier, by key.
pub open spec fn out_of_range(key: u32) -> ConfigError {
    if key == KEY_ABI_VERSION {
        ConfigError::ValueOutOfRange("abi_version")
    } else if key == KEY_LAYOUT_HASH {
        ConfigError::ValueOutOfRange("layout_hash")
    } else if key == KEY_ARENA_SIZE {
        ConfigError::ValueOutOfRange("arena_size")
    } else if key == KEY_MAX_ARENA_SIZE {
        ConfigError::ValueOutOfRange("max_arena_size")
    } else if key == KEY_CALLBACKS_PTR {
        ConfigError::ValueOutOfRange("callbacks_ptr")
    } else if key == KEY_CALLBACKS_LEN {
        ConfigError::ValueOutOfRange("callbacks_len")
    } else {
        ConfigError::ValueOutOfRange("ring_capacity")
    }
}

/// The refusal entry `i` earns on its own, if any, in the order the reader
/// checks: position of `abi_version`, tag, range, ring class.
pub open spec fn entry_error(b: Seq<u8>, i: int) -> Option<ConfigError> {
    let key = wire_key(b, i);
    if i == 0 && key != KEY_ABI_VERSION {
        Some(ConfigError::AbiVersionNotFirst)
    } else if wire_tag(b, i) != TAG_I64 {
        Some(ConfigError::Malformed("unknown value tag; this build reads tag 2"))
    } else if wire_raw(b, i) > u32::MAX {
        Some(out_of_range(key))
    } else if KEY_RING_CAPACITY_BASE <= key < KEY_RING_CAPACITY_END && key
        - KEY_RING_CAPACITY_BASE >= CLASS_COUNT {
        Some(ConfigError::RingCapacity { class: (key - KEY_RING_CAPACITY_BASE) as u32 })
    } else {
        None
    }
}

/// The first refusal among the first `n` entries.
pub open spec fn first_error(b: Seq<u8>, n: int) -> Option<ConfigError>
    decreases n,
{
    if n <= 0 {
        None
    } else {
        match first_error(b, n - 1) {
            Some(e) => Some(e),
            None => entry_error(b, n - 1),
        }
    }
}

/// The last value given to `key` among the first `n` entries.
pub open spec fn last_value(b: Seq<u8>, n: int, key: u32) -> Option<u32>
    decreases n,
{
    if n <= 0 {
        None
    } else if wire_key(b, n - 1) == key {
        Some(wire_value(b, n - 1))
    } else {
        last_value(b, n - 1, key)
    }
}

/// Class `class`'s capacity after the first `n` entries: the last stated
/// value, or the default.
pub open spec fn decoded_capacity(b: Seq<u8>, n: int, class: int) -> u32 {
    match last_value(b, n, (KEY_RING_CAPACITY_BASE + class) as u32) {
        Some(v) => v,
        None => DEFAULT_RING_CAPACITIES@[class],
    }
}

/// The stream's entry count.
pub open spec fn wire_count(b: Seq<u8>) -> int {
    le32(b, 0)
}

/// Why the stream is refused, if it is: the whole decision in the reader's
/// order.
pub open spec fn decode_error(b: Seq<u8>) -> Option<ConfigError> {
    let n = wire_count(b);
    if b.len() < 4 {
        Some(ConfigError::Truncated)
    } else if n * MIN_ENTRY_LEN > b.len() - 4 {
        Some(ConfigError::Malformed("entry_count exceeds the bytes that follow"))
    } else if first_error(b, n) is Some {
        first_error(b, n)
    } else if b.len() != entry_offset(n) {
        Some(ConfigError::Malformed("trailing bytes after the last entry"))
    } else if last_value(b, n, KEY_ABI_VERSION) is None {
        Some(ConfigError::MissingKey("abi_version"))
    } else if last_value(b, n, KEY_LAYOUT_HASH) is None {
        Some(ConfigError::MissingKey("layout_hash"))
    } else if last_value(b, n, KEY_ARENA_SIZE) is None {
        Some(ConfigError::MissingKey("arena_size"))
    } else if last_value(b, n, KEY_MAX_ARENA_SIZE) is None {
        Some(ConfigError::MissingKey("max_arena_size"))
    } else if last_value(b, n, KEY_CALLBACKS_PTR) is None {
        Some(ConfigError::MissingKey("callbacks_ptr"))
    } else if last_value(b, n, KEY_CALLBACKS_LEN) is None {
        Some(ConfigError::MissingKey("callbacks_len"))
    } else {
        None
    }
}

/// `c` is what an accepted stream decodes to: each key's last value, each
/// ring capacity stated or defaulted.
pub open spec fn decoded_from(b: Seq<u8>, c: SessionConfig) -> bool {
    let n = wire_count(b);
    &&& last_value(b, n, KEY_ABI_VERSION) == Some(c.abi_version)
    &&& last_value(b, n, KEY_LAYOUT_HASH) == Some(c.layout_hash)
    &&& last_value(b, n, KEY_ARENA_SIZE) == Some(c.arena_size)
    &&& last_value(b, n, KEY_MAX_ARENA_SIZE) == Some(c.max_arena_size)
    &&& last_value(b, n, KEY_CALLBACKS_PTR) == Some(c.callbacks_ptr)
    &&& last_value(b, n, KEY_CALLBACKS_LEN) == Some(c.callbacks_len)
    &&& forall|k: int| 0 <= k < CLASS_COUNT ==> #[trigger] c.ring_capacities@[k] == decoded_capacity(b, n, k)
    &&& forall|k: int| 0 <= k < CLASS_COUNT ==> #[trigger] c.ring_stated@[k]
        == (last_value(b, n, (KEY_RING_CAPACITY_BASE + k) as u32) is Some)
}

fn value_out_of_range(key: u32) -> (r: ConfigError)
    ensures
        r == out_of_range(key),
{
    match key {
        KEY_ABI_VERSION => ConfigError::ValueOutOfRange("abi_version"),
        KEY_LAYOUT_HASH => ConfigError::ValueOutOfRange("layout_hash"),
        KEY_ARENA_SIZE => ConfigError::ValueOutOfRange("arena_size"),
        KEY_MAX_ARENA_SIZE => ConfigError::ValueOutOfRange("max_arena_size"),
        KEY_CALLBACKS_PTR => ConfigError::ValueOutOfRange("callbacks_ptr"),
        KEY_CALLBACKS_LEN => ConfigError::ValueOutOfRange("callbacks_len"),
        _ => ConfigError::ValueOutOfRange("ring_capacity"),
    }
}

proof fn lemma_first_error_sticky(b: Seq<u8>, m: int, n: int)
    requires
        0 <= m <= n,
        first_error(b, m) is Some,
    ensures
        first_error(b, n) == first_error(b, m),
    decreases n - m,
{
    if m < n {
        lemma_first_error_sticky(b, m, n - 1);
    }
}

proof fn lemma_first_error_step(b: Seq<u8>, i: int)
    requires
        0 <= i,
        first_error(b, i) is None,
    ensures
        first_error(b, i + 1) == entry_error(b, i),
{
}

/// Decode the `session_open` argument stream: `Ok` exactly when
/// `decode_error` finds nothing to refuse, with every field its key's last
/// value; otherwise the first refusal in the reader's order.
pub fn decode(bytes: &[u8]) -> (r: Result<SessionConfig, ConfigError>)
    ensures
        match r {
            Ok(c) => decode_error(bytes@) is None && decoded_from(bytes@, c),
            Err(e) => decode_error(bytes@) == Some(e),
        },
{
    if bytes.len() < 4 {
        return Err(ConfigError::Truncated);
    }
    let count = load_u32(bytes, 0);
    let remaining = bytes.len() - 4;
    if (count as u64) * (MIN_ENTRY_LEN as u64) > remaining as u64 {
        return Err(ConfigError::Malformed("entry_count exceeds the bytes that follow"));
    }
    let ghost b = bytes@;
    let ghost n = count as int;
    let mut abi_version: Option<u32> = None;
    let mut layout_hash: Option<u32> = None;
    let mut arena_size: Option<u32> = None;
    let mut max_arena_size: Option<u32> = None;
    let mut callbacks_ptr: Option<u32> = None;
    let mut callbacks_len: Option<u32> = None;
    let mut ring_capacities = DEFAULT_RING_CAPACITIES;
    let mut ring_stated = [false; CLASS_COUNT];
    let mut index: u32 = 0;
    let mut at: usize = 4;
    while index < count
        invariant
            b == bytes@,
            n == count as int,
            n == wire_count(b),
            b.len() >= 4,
            n * MIN_ENTRY_LEN <= b.len() - 4,
            index <= count,
            at == entry_offset(index as int),
            first_error(b, index as int) is None,
            abi_version == last_value(b, index as int, KEY_ABI_VERSION),
            layout_hash == last_value(b, index as int, KEY_LAYOUT_HASH),
            arena_size == last_value(b, index as int, KEY_ARENA_SIZE),
            max_arena_size == last_value(b, index as int, KEY_MAX_ARENA_SIZE),
            callbacks_ptr == last_value(b, index as int, KEY_CALLBACKS_PTR),
            callbacks_len == last_value(b, index as int, KEY_CALLBACKS_LEN),
            forall|k: int| 0 <= k < CLASS_COUNT ==> #[trigger] ring_capacities@[k] == decoded_capacity(b, index as int, k),
            forall|k: int| 0 <= k < CLASS_COUNT ==> #[trigger] ring_stated@[k]
                == (last_value(b, index as int, (KEY_RING_CAPACITY_BASE + k) as u32) is Some),
        decreases count - index,
    {
        proof {
            lemma_first_error_step(b, index as int);
            assert(at + 13 <= b.len()) by (nonlinear_arith)
                requires
                    at == 4 + 13 * index,
                    index < n,
                    n * 13 <= b.len() - 4,
            ;
        }
        let key = load_u32(bytes, at);
        if index == 0 && key != KEY_ABI_VERSION {
            proof {
                lemma_first_error_sticky(b, index + 1, n);
            }
            return Err(ConfigError::AbiVersionNotFirst);
        }
        let tag = bytes[at + 4];
        if tag != TAG_I64 {
            proof {
                lemma_first_error_sticky(b, index + 1, n);
            }
            return Err(ConfigError::Malformed("unknown value tag; this build reads tag 2"));
        }
        let raw = load_u64(bytes, at + 5);
        if raw > 0xFFFF_FFFF {
            proof {
                lemma_first_error_sticky(b, index + 1, n);
            }
            return Err(value_out_of_range(key));
        }
        let value = raw as u32;
        let ghost prev_caps = ring_capacities@;
        let ghost prev_stated = ring_stated@;
        if key == KEY_ABI_VERSION {
            abi_version = Some(value);
        } else if key == KEY_LAYOUT_HASH {
            layout_hash = Some(value);
        } else if key == KEY_ARENA_SIZE {
            arena_size = Some(value);
        } else if key == KEY_MAX_ARENA_SIZE {
            max_arena_size = Some(value);
        } else if key == KEY_CALLBACKS_PTR {
            callbacks_ptr = Some(value);
        } else if key == KEY_CALLBACKS_LEN {
            callbacks_len = Some(value);
        } else if KEY_RING_CAPACITY_BASE <= key && key < KEY_RING_CAPACITY_END {
            let class = key - KEY_RING_CAPACITY_BASE;
            if class as usize >= CLASS_COUNT {
                proof {
                lemma_first_error_sticky(b, index + 1, n);
            }
            return Err(ConfigError::RingCapacity { class });
            }
            ring_capacities[class as usize] = value;
            ring_stated[class as usize] = true;
        }
        proof {
            let i = index as int;
            assert(wire_key(b, i) == key);
            assert(wire_value(b, i) == value);
            assert forall|k: int| 0 <= k < CLASS_COUNT implies #[trigger] ring_capacities@[k]
                == decoded_capacity(b, i + 1, k) && ring_stated@[k] == (last_value(
                b,
                i + 1,
                (KEY_RING_CAPACITY_BASE + k) as u32,
            ) is Some) by {
                assert(prev_caps[k] == decoded_capacity(b, i, k));
                assert(prev_stated[k] == (last_value(b, i, (KEY_RING_CAPACITY_BASE + k) as u32) is Some));
            }
        }
        index = index + 1;
        at = at + MIN_ENTRY_LEN;
    }
    if bytes.len() - at != 0 {
        return Err(ConfigError::Malformed("trailing bytes after the last entry"));
    }
    let abi_version = match abi_version {
        Some(v) => v,
        None => { return Err(ConfigError::MissingKey("abi_version")); },
    };
    let layout_hash = match layout_hash {
        Some(v) => v,
        None => { return Err(ConfigError::MissingKey("layout_hash")); },
    };
    let arena_size = match arena_size {
        Some(v) => v,
        None => { return Err(ConfigError::MissingKey("arena_size")); },
    };
    let max_arena_size = match max_arena_size {
        Some(v) => v,
        None => { return Err(ConfigError::MissingKey("max_arena_size")); },
    };
    let callbacks_ptr = match callbacks_ptr {
        Some(v) => v,
        None => { return Err(ConfigError::MissingKey("callbacks_ptr")); },
    };
    let callbacks_len = match callbacks_len {
        Some(v) => v,
        None => { return Err(ConfigError::MissingKey("callbacks_len")); },
    };
    Ok(SessionConfig {
        abi_version,
        layout_hash,
        arena_size,
        max_arena_size,
        callbacks_ptr,
        callbacks_len,
        ring_capacities,
        ring_stated,
    })
}

// ── the checks ────────────────────────────────────────────────────────────
/// `abi_version` matches.
pub fn check_abi(config: &SessionConfig, session_abi: u32) -> (r: Result<(), ConfigError>)
    ensures
        r == (if config.abi_version != session_abi {
            Err(ConfigError::AbiVersion { guest: config.abi_version, session: session_abi })
        } else {
            Ok(())
        }),
{
    if config.abi_version != session_abi {
        return Err(ConfigError::AbiVersion { guest: config.abi_version, session: session_abi });
    }
    Ok(())
}

/// `layout_hash` matches the session's compiled-in shape.
pub fn check_layout_hash(config: &SessionConfig, session_hash: u32) -> (r: Result<(), ConfigError>)
    ensures
        r == (if config.layout_hash != session_hash {
            Err(ConfigError::LayoutHash { guest: config.layout_hash, session: session_hash })
        } else {
            Ok(())
        }),
{
    if config.layout_hash != session_hash {
        return Err(ConfigError::LayoutHash { guest: config.layout_hash, session: session_hash });
    }
    Ok(())
}

/// C1's check: the two sizes are sane relative to each other.
pub open spec fn arena_relation_error(c: SessionConfig) -> Option<ConfigError> {
    if c.arena_size == 0 {
        Some(ConfigError::ArenaRelation("arena_size is zero"))
    } else if c.max_arena_size == 0 {
        Some(ConfigError::ArenaRelation("max_arena_size is zero"))
    } else if c.arena_size % 16 != 0 {
        Some(ConfigError::ArenaRelation("arena_size is not 16-byte aligned"))
    } else if c.max_arena_size % 16 != 0 {
        Some(ConfigError::ArenaRelation("max_arena_size is not 16-byte aligned"))
    } else if c.arena_size > c.max_arena_size {
        Some(ConfigError::ArenaRelation("arena_size exceeds max_arena_size"))
    } else {
        None
    }
}

/// The `Result` a check answers for its finding.
pub open spec fn as_result(e: Option<ConfigError>) -> Result<(), ConfigError> {
    match e {
        Some(e) => Err(e),
        None => Ok(()),
    }
}

/// C1: the two sizes are sane relative to each other.
pub fn check_arena_relation(config: &SessionConfig) -> (r: Result<(), ConfigError>)
    ensures
        r == as_result(arena_relation_error(*config)),
{
    if config.arena_size == 0 {
        return Err(ConfigError::ArenaRelation("arena_size is zero"));
    }
    if config.max_arena_size == 0 {
        return Err(ConfigError::ArenaRelation("max_arena_size is zero"));
    }
    if config.arena_size % 16 != 0 {
        return Err(ConfigError::ArenaRelation("arena_size is not 16-byte aligned"));
    }
    if config.max_arena_size % 16 != 0 {
        return Err(ConfigError::ArenaRelation("max_arena_size is not 16-byte aligned"));
    }
    if config.arena_size > config.max_arena_size {
        return Err(ConfigError::ArenaRelation("arena_size exceeds max_arena_size"));
    }
    Ok(())
}

/// C4's check: the frozen layout fits the declared live arena.
pub open spec fn layout_fit_error(c: SessionConfig) -> Option<ConfigError> {
    if c.arena_size < LAYOUT_FLOOR {
        Some(ConfigError::LayoutFit { need: LAYOUT_FLOOR as u64, have: c.arena_size })
    } else {
        None
    }
}

/// C4: the frozen layout fits the declared live arena.
pub fn check_layout_fit(config: &SessionConfig) -> (r: Result<(), ConfigError>)
    ensures
        r == as_result(layout_fit_error(*config)),
{
    if (config.arena_size as u64) < LAYOUT_FLOOR as u64 {
        return Err(ConfigError::LayoutFit { need: LAYOUT_FLOOR as u64, have: config.arena_size });
    }
    Ok(())
}

/// The first class, below `n`, whose capacity is zero.
pub open spec fn first_zero_capacity(caps: Seq<u32>, n: int) -> Option<int>
    decreases n,
{
    if n <= 0 {
        None
    } else {
        match first_zero_capacity(caps, n - 1) {
            Some(k) => Some(k),
            None => if caps[n - 1] == 0 {
                Some(n - 1)
            } else {
                None
            },
        }
    }
}

/// The ring capacities' check: every class has room for a record, and the
/// ten sub-rings fit `EVENT_TABLE`.
pub open spec fn ring_capacity_error(caps: Seq<u32>) -> Option<ConfigError> {
    match first_zero_capacity(caps, CLASS_COUNT as int) {
        Some(k) => Some(ConfigError::RingCapacity { class: k as u32 }),
        None => if rings_span(caps, CLASS_COUNT as int) > EVENT_TABLE_SIZE {
            Some(
                ConfigError::RingTableFit {
                    need: rings_span(caps, CLASS_COUNT as int) as u64,
                    have: EVENT_TABLE_SIZE as u64,
                },
            )
        } else {
            None
        },
    }
}

/// The ring capacities: every class gets at least one record, and the ten
/// sub-rings fit inside the fixed `EVENT_TABLE`.
pub fn check_ring_capacities(config: &SessionConfig) -> (r: Result<(), ConfigError>)
    ensures
        r == as_result(ring_capacity_error(config.ring_capacities@)),
{
    let mut class: usize = 0;
    while class < CLASS_COUNT
        invariant
            class <= CLASS_COUNT,
            first_zero_capacity(config.ring_capacities@, class as int) is None,
        decreases CLASS_COUNT - class,
    {
        if config.ring_capacities[class] == 0 {
            proof {
                lemma_first_zero_sticky(config.ring_capacities@, class + 1, CLASS_COUNT as int);
            }
            return Err(ConfigError::RingCapacity { class: class as u32 });
        }
        class = class + 1;
    }
    let need = ring_bytes(&config.ring_capacities);
    if need > EVENT_TABLE_SIZE as u64 {
        return Err(ConfigError::RingTableFit { need, have: EVENT_TABLE_SIZE as u64 });
    }
    Ok(())
}

proof fn lemma_first_zero_sticky(caps: Seq<u32>, m: int, n: int)
    requires
        0 <= m <= n,
        first_zero_capacity(caps, m) is Some,
    ensures
        first_zero_capacity(caps, n) == first_zero_capacity(caps, m),
    decreases n - m,
{
    if m < n {
        lemma_first_zero_sticky(caps, m, n - 1);
    }
}

/// The callbacks record's check: absent, or the right size, 4-byte aligned,
/// and in the guest's own heap rather than inside the reserved band.
pub open spec fn callbacks_error(c: SessionConfig) -> Option<ConfigError> {
    if c.callbacks_len == 0 {
        if c.callbacks_ptr != 0 {
            Some(
                ConfigError::Callbacks(
                    "callbacks_len is zero but callbacks_ptr is not: an absent record has no address, so both must be zero",
                ),
            )
        } else {
            None
        }
    } else if c.callbacks_len != CALLBACKS_SIZE {
        Some(
            ConfigError::Callbacks(
                "callbacks_len is neither zero (no record) nor the manifest's Callbacks size",
            ),
        )
    } else if c.callbacks_ptr % 4 != 0 {
        Some(ConfigError::Callbacks("callbacks_ptr is not 4-byte aligned"))
    } else if c.callbacks_ptr < c.max_arena_size {
        Some(
            ConfigError::Callbacks(
                "callbacks_ptr is below max_arena_size: it must live in the guest's heap, not in the reserved band",
            ),
        )
    } else {
        None
    }
}

/// The callbacks record: absent, or the right size, 4-byte aligned, and in
/// the guest's own heap rather than inside the reserved band.
pub fn check_callbacks(config: &SessionConfig) -> (r: Result<(), ConfigError>)
    ensures
        r == as_result(callbacks_error(*config)),
{
    if config.callbacks_len == 0 {
        if config.callbacks_ptr != 0 {
            return Err(
                ConfigError::Callbacks(
                    "callbacks_len is zero but callbacks_ptr is not: an absent record has no address, so both must be zero",
                ),
            );
        }
        return Ok(());
    }
    if config.callbacks_len as usize != CALLBACKS_SIZE {
        return Err(
            ConfigError::Callbacks(
                "callbacks_len is neither zero (no record) nor the manifest's Callbacks size",
            ),
        );
    }
    if config.callbacks_ptr % 4 != 0 {
        return Err(ConfigError::Callbacks("callbacks_ptr is not 4-byte aligned"));
    }
    if config.callbacks_ptr < config.max_arena_size {
        return Err(
            ConfigError::Callbacks(
                "callbacks_ptr is below max_arena_size: it must live in the guest's heap, not in the reserved band",
            ),
        );
    }
    Ok(())
}

/// One declared need's check against a live arena of `arena_size` bytes.
pub open spec fn region_need_error(arena_size: u32, need: RegionNeed) -> Option<ConfigError> {
    if need.kind >= REGION_COUNT {
        Some(ConfigError::UnknownRegion { kind: need.kind, adapter: need.adapter })
    } else {
        let r = spec_region(need.kind as int);
        let end = r.offset + r.size;
        if end > arena_size {
            Some(
                ConfigError::RegionTruncated {
                    kind: need.kind,
                    adapter: need.adapter,
                    need: end as u64,
                    have: arena_size,
                },
            )
        } else {
            None
        }
    }
}

/// The first refusal among the first `n` declared needs.
pub open spec fn required_regions_error(arena_size: u32, needs: Seq<RegionNeed>, n: int) -> Option<ConfigError>
    decreases n,
{
    if n <= 0 {
        None
    } else {
        match required_regions_error(arena_size, needs, n - 1) {
            Some(e) => Some(e),
            None => region_need_error(arena_size, needs[n - 1]),
        }
    }
}

proof fn lemma_required_sticky(arena_size: u32, needs: Seq<RegionNeed>, m: int, n: int)
    requires
        0 <= m <= n,
        required_regions_error(arena_size, needs, m) is Some,
    ensures
        required_regions_error(arena_size, needs, n) == required_regions_error(arena_size, needs, m),
    decreases n - m,
{
    if m < n {
        lemma_required_sticky(arena_size, needs, m, n - 1);
    }
}

/// Every region a loaded capability declared must lie inside the live arena:
/// a kind this layout does not define is refused, and so is a region whose
/// end lies past `arena_size`.
pub fn check_required_regions(config: &SessionConfig, required: &[RegionNeed]) -> (r: Result<(), ConfigError>)
    ensures
        r == as_result(required_regions_error(config.arena_size, required@, required@.len() as int)),
{
    let mut i: usize = 0;
    while i < required.len()
        invariant
            i <= required.len(),
            required_regions_error(config.arena_size, required@, i as int) is None,
        decreases required.len() - i,
    {
        let need = &required[i];
        match region(need.kind) {
            None => {
                let e = ConfigError::UnknownRegion { kind: need.kind, adapter: need.adapter.clone() };
                proof {
                    lemma_required_sticky(config.arena_size, required@, i + 1, required@.len() as int);
                }
                return Err(e);
            },
            Some(desc) => {
                let end = desc.offset as u64 + desc.size as u64;
                if end > config.arena_size as u64 {
                    let e = ConfigError::RegionTruncated {
                        kind: need.kind,
                        adapter: need.adapter.clone(),
                        need: end,
                        have: config.arena_size,
                    };
                    proof {
                        lemma_required_sticky(config.arena_size, required@, i + 1, required@.len() as int);
                    }
                    return Err(e);
                }
            },
        }
        i = i + 1;
    }
    Ok(())
}

/// Every check this module can perform alone, in order: `abi_version`,
/// `layout_hash`, C1, the required regions, C4, the ring capacities, the
/// callbacks. The first refusal wins.
pub open spec fn validation_error(
    c: SessionConfig,
    session_abi: u32,
    session_hash: u32,
    needs: Seq<RegionNeed>,
) -> Option<ConfigError> {
    if c.abi_version != session_abi {
        Some(ConfigError::AbiVersion { guest: c.abi_version, session: session_abi })
    } else if c.layout_hash != session_hash {
        Some(ConfigError::LayoutHash { guest: c.layout_hash, session: session_hash })
    } else if arena_relation_error(c) is Some {
        arena_relation_error(c)
    } else if required_regions_error(c.arena_size, needs, needs.len() as int) is Some {
        required_regions_error(c.arena_size, needs, needs.len() as int)
    } else if layout_fit_error(c) is Some {
        layout_fit_error(c)
    } else if ring_capacity_error(c.ring_capacities@) is Some {
        ring_capacity_error(c.ring_capacities@)
    } else {
        callbacks_error(c)
    }
}

/// Run every check in order; the first failure is returned and later checks
/// are not attempted.
pub fn validate_with_regions(
    config: &SessionConfig,
    session_abi: u32,
    session_hash: u32,
    required: &[RegionNeed],
) -> (r: Result<(), ConfigError>)
    ensures
        r == as_result(validation_error(*config, session_abi, session_hash, required@)),
{
    check_abi(config, session_abi)?;
    check_layout_hash(config, session_hash)?;
    check_arena_relation(config)?;
    check_required_regions(config, required)?;
    check_layout_fit(config)?;
    check_ring_capacities(config)?;
    check_callbacks(config)?;
    Ok(())
}

/// `validate_with_regions` with nothing loaded.
pub fn validate(config: &SessionConfig, session_abi: u32, session_hash: u32) -> (r: Result<(), ConfigError>)
    ensures
        r == as_result(validation_error(*config, session_abi, session_hash, Seq::empty())),
{
    let none: Vec<RegionNeed> = Vec::new();
    let r = validate_with_regions(config, session_abi, session_hash, none.as_slice());
    proof {
        assert(none@ =~= Seq::<RegionNeed>::empty());
    }
    r
}

// ── writing ───────────────────────────────────────────────────────────────
/// `out` is the stream for `entries`: the count, then each entry's key, the
/// i64 tag and the value's eight bytes.
pub open spec fn encoded(out: Seq<u8>, entries: Seq<(u32, i64)>) -> bool {
    &&& out.len() == entry_offset(entries.len() as int)
    &&& wire_count(out) == (entries.len() as u32) as int
    &&& forall|i: int| 0 <= i < entries.len() ==> #[trigger] encoded_entry(out, entries, i)
}

/// Entry `i` of `out` is `entries[i]`.
pub open spec fn encoded_entry(out: Seq<u8>, entries: Seq<(u32, i64)>, i: int) -> bool {
    &&& wire_key(out, i) == entries[i].0
    &&& wire_tag(out, i) == TAG_I64
    &&& wire_raw(out, i) == (entries[i].1 as u64) as int
}

/// Encode a `session_open` stream: the writer the guest's SDK mirrors.
pub fn encode(entries: &[(u32, i64)]) -> (out: Vec<u8>)
    requires
        entry_offset(entries@.len() as int) <= usize::MAX,
    ensures
        encoded(out@, entries@),
{
    let n = entries.len();
    proof {
        assert(4 + 13 * n <= usize::MAX);
    }
    let total = 4 + MIN_ENTRY_LEN * n;
    let mut out: Vec<u8> = vec![0u8; total];
    let s = out.as_mut_slice();
    store_u32(s, 0, n as u32);
    let mut i: usize = 0;
    while i < n
        invariant
            n == entries@.len(),
            i <= n,
            s@.len() == total,
            total == entry_offset(n as int),
            total <= usize::MAX,
            wire_count(s@) == (n as u32) as int,
            forall|j: int| 0 <= j < i ==> #[trigger] encoded_entry(s@, entries@, j),
        decreases n - i,
    {
        proof {
            assert(4 + 13 * i + 13 <= total) by (nonlinear_arith)
                requires
                    i < n,
                    total == 4 + 13 * n,
            ;
        }
        let at = 4 + MIN_ENTRY_LEN * i;
        let (key, value) = entries[i];
        let ghost before = s@;
        store_u32(s, at, key);
        let ghost keyed = s@;
        s[at + 4] = TAG_I64;
        let ghost tagged = s@;
        store_u64(s, at + 5, value as u64);
        proof {
            crate::bytes::lemma_le32_agree(keyed, s@, at as int);
            crate::bytes::lemma_le32_agree(before, s@, 0);
            assert forall|j: int| 0 <= j < i + 1 implies #[trigger] encoded_entry(s@, entries@, j) by {
                if j < i {
                    let a = entry_offset(j);
                    assert(a + 13 <= at);
                    assert(encoded_entry(before, entries@, j));
                    crate::bytes::lemma_le32_agree(before, s@, a);
                    crate::bytes::lemma_le64_agree(before, s@, a + 5);
                } else {
                    assert(s@[at + 4] == tagged[at + 4]);
                }
            }
        }
        i = i + 1;
    }
    out
}

/// The last value `entries` gives `key` among its first `n`.
pub open spec fn last_entry_value(entries: Seq<(u32, i64)>, n: int, key: u32) -> Option<u32>
    decreases n,
{
    if n <= 0 {
        None
    } else if entries[n - 1].0 == key {
        Some(entries[n - 1].1 as u32)
    } else {
        last_entry_value(entries, n - 1, key)
    }
}

/// A list of entries the reader accepts: `abi_version` first, every value
/// fits a u32, every ring key names one of the classes, every required key is
/// present, and the count fits its u32.
pub open spec fn acceptable_entries(entries: Seq<(u32, i64)>) -> bool {
    let n = entries.len() as int;
    &&& 1 <= n <= u32::MAX
    &&& entries[0].0 == KEY_ABI_VERSION
    &&& forall|i: int| 0 <= i < n ==> 0 <= #[trigger] entries[i].1 <= u32::MAX
    &&& forall|i: int| 0 <= i < n && KEY_RING_CAPACITY_BASE <= #[trigger] entries[i].0 < KEY_RING_CAPACITY_END
        ==> entries[i].0 - KEY_RING_CAPACITY_BASE < CLASS_COUNT
    &&& last_entry_value(entries, n, KEY_ABI_VERSION) is Some
    &&& last_entry_value(entries, n, KEY_LAYOUT_HASH) is Some
    &&& last_entry_value(entries, n, KEY_ARENA_SIZE) is Some
    &&& last_entry_value(entries, n, KEY_MAX_ARENA_SIZE) is Some
    &&& last_entry_value(entries, n, KEY_CALLBACKS_PTR) is Some
    &&& last_entry_value(entries, n, KEY_CALLBACKS_LEN) is Some
}

proof fn lemma_prefix_reads_back(out: Seq<u8>, entries: Seq<(u32, i64)>, k: int)
    requires
        encoded(out, entries),
        acceptable_entries(entries),
        0 <= k <= entries.len(),
    ensures
        first_error(out, k) is None,
        forall|key: u32| #[trigger] last_value(out, k, key) == last_entry_value(entries, k, key),
    decreases k,
{
    if k > 0 {
        lemma_prefix_reads_back(out, entries, k - 1);
        let i = k - 1;
        assert(encoded_entry(out, entries, i));
        let v = entries[i].1;
        assert(0 <= v <= u32::MAX);
        assert((v as u64) as int == v);
        assert(wire_value(out, i) == v as u32);
        assert(entry_error(out, i) is None);
        assert forall|key: u32| #[trigger] last_value(out, k, key) == last_entry_value(entries, k, key) by {
            assert(last_value(out, k - 1, key) == last_entry_value(entries, k - 1, key));
        }
    }
}

/// The reader reads back what the writer wrote: an acceptable list of entries,
/// once encoded, decodes without refusal, and every key reads as the last
/// value the list gave it (a duplicate key takes its last value).
pub proof fn lemma_decode_reads_back_encode(out: Seq<u8>, entries: Seq<(u32, i64)>)
    requires
        encoded(out, entries),
        acceptable_entries(entries),
    ensures
        decode_error(out) is None,
        forall|key: u32| #[trigger] last_value(out, wire_count(out), key) == last_entry_value(entries, entries.len() as int, key),
{
    let n = entries.len() as int;
    assert(wire_count(out) == n);
    lemma_prefix_reads_back(out, entries, n);
    assert(n * MIN_ENTRY_LEN == out.len() - 4);
}

/// The refusal as the session's diagnostic line reads it.
pub open spec fn config_message(e: ConfigError) -> Seq<char> {
    match e {
        ConfigError::Malformed(what) => "malformed config: "@ + what@,
        ConfigError::Truncated => "malformed config: the stream ends inside an entry"@,
        ConfigError::MissingKey(key) => "missing required key `"@ + key@ + "`"@,
        ConfigError::AbiVersionNotFirst => "`abi_version` must be the first entry in the stream"@,
        ConfigError::AbiVersion { guest, session } => "abi_version "@ + decimal(guest as nat)
            + " does not match this session's "@ + decimal(session as nat),
        ConfigError::LayoutHash { guest, session } => "layout_hash "@ + hex8(guest)
            + " does not match this session's "@ + hex8(session)
            + ": the guest was built against a different arena shape"@,
        ConfigError::ValueOutOfRange(key) => "`"@ + key@ + "` does not fit the u32 it is carried in"@,
        ConfigError::ArenaRelation(what) => "arena sizes refused: "@ + what@,
        ConfigError::LayoutFit { need, have } => "arena_size "@ + decimal(have as nat)
            + " is below the frozen layout's "@ + decimal(need as nat) + " bytes"@,
        ConfigError::RingCapacity { class } => "ring_capacity_"@ + decimal(class as nat)
            + " is refused: this chunk has classes 0-9"@,
        ConfigError::RingTableFit { need, have } => "ring capacities need "@ + decimal(need as nat)
            + " bytes; EVENT_TABLE holds "@ + decimal(have as nat),
        ConfigError::Callbacks(what) => "callbacks refused: "@ + what@,
        ConfigError::UnknownRegion { kind, adapter } => "the capability `"@ + adapter@
            + "` asked for region kind "@ + decimal(kind as nat)
            + ", which this layout does not define (0-11); no arena_size can satisfy it"@,
        ConfigError::RegionTruncated { kind, adapter, need, have } => "the capability `"@
            + adapter@ + "` needs the "@ + spec_region_name(kind) + " region (kind "@ + decimal(
            kind as nat,
        ) + "), which ends at "@ + decimal(need as nat) + " ("@ + hex(need as nat)
            + "); arena_size is "@ + decimal(have as nat) + " ("@ + hex(have as nat) + ")"@,
    }
}

impl ConfigError {
    /// The refusal's reason, as the session's diagnostic line prints it.
    pub fn message(&self) -> (r: String)
        ensures
            r@ == config_message(*self),
    {
        let mut out = String::new();
        match self {
            ConfigError::Malformed(what) => {
                out.append("malformed config: ");
                out.append(what);
            },
            ConfigError::Truncated => {
                out.append("malformed config: the stream ends inside an entry");
            },
            ConfigError::MissingKey(key) => {
                out.append("missing required key `");
                out.append(key);
                out.append("`");
            },
            ConfigError::AbiVersionNotFirst => {
                out.append("`abi_version` must be the first entry in the stream");
            },
            ConfigError::AbiVersion { guest, session } => {
                out.append("abi_version ");
                push_decimal(&mut out, *guest as u64);
                out.append(" does not match this session's ");
                push_decimal(&mut out, *session as u64);
            },
            ConfigError::LayoutHash { guest, session } => {
                out.append("layout_hash ");
                push_hex8(&mut out, *guest);
                out.append(" does not match this session's ");
                push_hex8(&mut out, *session);
                out.append(": the guest was built against a different arena shape");
            },
            ConfigError::ValueOutOfRange(key) => {
                out.append("`");
                out.append(key);
                out.append("` does not fit the u32 it is carried in");
            },
            ConfigError::ArenaRelation(what) => {
                out.append("arena sizes refused: ");
                out.append(what);
            },
            ConfigError::LayoutFit { need, have } => {
                out.append("arena_size ");
                push_decimal(&mut out, *have as u64);
                out.append(" is below the frozen layout's ");
                push_decimal(&mut out, *need);
                out.append(" bytes");
            },
            ConfigError::RingCapacity { class } => {
                out.append("ring_capacity_");
                push_decimal(&mut out, *class as u64);
                out.append(" is refused: this chunk has classes 0-9");
            },
            ConfigError::RingTableFit { need, have } => {
                out.append("ring capacities need ");
                push_decimal(&mut out, *need);
                out.append(" bytes; EVENT_TABLE holds ");
                push_decimal(&mut out, *have);
            },
            ConfigError::Callbacks(what) => {
                out.append("callbacks refused: ");
                out.append(what);
            },
            ConfigError::UnknownRegion { kind, adapter } => {
                out.append("the capability `");
                out.append(adapter.as_str());
                out.append("` asked for region kind ");
                push_decimal(&mut out, *kind as u64);
                out.append(", which this layout does not define (0-11); no arena_size can satisfy it");
            },
            ConfigError::RegionTruncated { kind, adapter, need, have } => {
                out.append("the capability `");
                out.append(adapter.as_str());
                out.append("` needs the ");
                out.append(region_name(*kind));
                out.append(" region (kind ");
                push_decimal(&mut out, *kind as u64);
                out.append("), which ends at ");
                push_decimal(&mut out, *need);
                out.append(" (");
                push_hex(&mut out, *need);
                out.append("); arena_size is ");
                push_decimal(&mut out, *have as u64);
                out.append(" (");
                push_hex(&mut out, *have as u64);
                out.append(")");
            },
        }
        proof {
            assert(out@ =~= config_message(*self));
        }
        out
    }
}

} // verus!
