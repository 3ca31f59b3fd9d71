//! The solver configuration wire: the strict reader of the guest's
//! `TNSCONF1` blob.
//!
//! A blob is a 64-byte header, an optional block of eight-byte parameter
//! slots (one per set bit of the parameters bitmap, in bit order), and a
//! string table whose entries (method, source, description, world, in that
//! order, an absent one skipped) follow one another to the last byte. The
//! reader refuses anything that does not match, with one distinct error per
//! refusal, and reads nothing past a failed check.
//!
//! Parameters are carried as the IEEE-754 bit patterns the guest wrote: the
//! reader never interprets them as numbers.

use vstd::prelude::*;

use crate::bytes::{all_zero, le16, le32, le64, load_u16, load_u32, load_u64, utf8_text};
use crate::text::{decimal, hex8, hex_padded, push_decimal, push_hex8, push_hex_padded};
use vstd::slice::slice_subrange;
use vstd::string::StringExecFns;
use vstd::utf8::{decode_utf8, valid_utf8};

verus! {

/// `TNSCONF1`.
pub const MAGIC: [u8; 8] = [0x54, 0x4E, 0x53, 0x43, 0x4F, 0x4E, 0x46, 0x31];

/// The header's size in bytes.
pub const HEADER_LEN: usize = 64;

/// The only `format_version` this build reads.
pub const FORMAT_VERSION: u16 = 1;

/// The only `schema_version` this build reads.
pub const SCHEMA_VERSION: u16 = 1;

/// The nine named parameter bits; bits 9-31 are reserved.
pub const PARAMETER_BITS: u32 = 0x1FF;

/// The parameter bit whose slot holds `iterations`, a `u32`.
pub const ITERATIONS_BIT: u32 = 5;

/// Why a wire blob was refused.
#[derive(Debug, PartialEq, Eq)]
pub enum ConfigError {
    /// Fewer bytes than the 64-byte header.
    TooShort { len: usize },
    /// The first eight bytes are not `TNSCONF1`.
    BadMagic,
    /// A `format_version` this build does not read.
    UnknownFormatVersion(u16),
    /// A `schema_version` this build does not read.
    UnknownSchemaVersion(u16),
    /// The reserved header bytes were not zero.
    ReservedNotZero,
    /// `parameters_bitmap` set a bit outside the nine named ones.
    ReservedParameterBits(u32),
    /// `method_len == 0`.
    EmptyMethod,
    /// `source_len == 0`.
    EmptySource,
    /// An offset/length pair reaching outside the blob.
    OutOfBounds { field: &'static str },
    /// `parameters_off` that is neither 0 nor 64, or that disagrees with the
    /// bitmap.
    BadParametersOffset(u32),
    /// The `iterations` slot's upper four bytes were not zero.
    IterationsUpperBits { slot: u64 },
    /// A string entry not at the walk's cursor, running past the blob,
    /// whose prefix disagrees with the header, or that is not UTF-8.
    BadStringEntry { field: &'static str },
    /// The walk did not land exactly on the end of the blob.
    TrailingBytes { walked: usize, len: usize },
    /// `source: "world"` with a nonzero `dim` (the host derives it).
    WorldStatesDim(u32),
    /// `source: "world"` with no world text.
    WorldTextMissing,
    /// World text on a config whose source is not `world`.
    WorldOnNonWorldSource,
}

/// The refusal as a sentence.
pub open spec fn wire_message(e: ConfigError) -> Seq<char> {
    match e {
        ConfigError::TooShort { len } => "blob is "@ + decimal(len as nat) + " bytes; the header alone is 64"@,
        ConfigError::BadMagic => "bad magic (expected TNSCONF1)"@,
        ConfigError::UnknownFormatVersion(v) => "format_version "@ + decimal(v as nat) + " is not read by this build"@,
        ConfigError::UnknownSchemaVersion(v) => "schema_version "@ + decimal(v as nat) + " is not read by this build"@,
        ConfigError::ReservedNotZero => "the reserved header bytes are not zero"@,
        ConfigError::ReservedParameterBits(b) => "parameters_bitmap "@ + hex8(b) + " sets a reserved bit (9-31)"@,
        ConfigError::EmptyMethod => "method_len is 0"@,
        ConfigError::EmptySource => "source_len is 0"@,
        ConfigError::OutOfBounds { field } => field@ + " reaches outside the blob"@,
        ConfigError::BadParametersOffset(off) => "parameters_off "@ + decimal(off as nat)
            + " disagrees with the parameters bitmap"@,
        ConfigError::IterationsUpperBits { slot } => "the iterations slot ("@ + hex_padded(slot as nat, 16)
            + ") has nonzero upper four bytes"@,
        ConfigError::BadStringEntry { field } => field@ + " does not point at a string-table entry inside the blob"@,
        ConfigError::TrailingBytes { walked, len } => "the string table walks "@ + decimal(walked as nat) + " of "@
            + decimal(len as nat) + " bytes"@,
        ConfigError::WorldStatesDim(dim) => "source \"world\" states dim "@ + decimal(dim as nat)
            + "; the host derives it"@,
        ConfigError::WorldTextMissing => "source \"world\" carries no world text"@,
        ConfigError::WorldOnNonWorldSource => "world text on a config whose source is not \"world\""@,
    }
}

impl ConfigError {
    /// The refusal as a sentence.
    pub fn message(&self) -> (r: String)
        ensures
            r@ == wire_message(*self),
    {
        let mut out = String::new();
        match self {
            ConfigError::TooShort { len } => {
                out.append("blob is ");
                push_decimal(&mut out, *len as u64);
                out.append(" bytes; the header alone is 64");
            },
            ConfigError::BadMagic => {
                out.append("bad magic (expected TNSCONF1)");
            },
            ConfigError::UnknownFormatVersion(v) => {
                out.append("format_version ");
                push_decimal(&mut out, *v as u64);
                out.append(" is not read by this build");
            },
            ConfigError::UnknownSchemaVersion(v) => {
                out.append("schema_version ");
                push_decimal(&mut out, *v as u64);
                out.append(" is not read by this build");
            },
            ConfigError::ReservedNotZero => {
                out.append("the reserved header bytes are not zero");
            },
            ConfigError::ReservedParameterBits(b) => {
                out.append("parameters_bitmap ");
                push_hex8(&mut out, *b);
                out.append(" sets a reserved bit (9-31)");
            },
            ConfigError::EmptyMethod => {
                out.append("method_len is 0");
            },
            ConfigError::EmptySource => {
                out.append("source_len is 0");
            },
            ConfigError::OutOfBounds { field } => {
                out.append(field);
                out.append(" reaches outside the blob");
            },
            ConfigError::BadParametersOffset(off) => {
                out.append("parameters_off ");
                push_decimal(&mut out, *off as u64);
                out.append(" disagrees with the parameters bitmap");
            },
            ConfigError::IterationsUpperBits { slot } => {
                out.append("the iterations slot (");
                push_hex_padded(&mut out, *slot, 16);
                out.append(") has nonzero upper four bytes");
            },
            ConfigError::BadStringEntry { field } => {
                out.append(field);
                out.append(" does not point at a string-table entry inside the blob");
            },
            ConfigError::TrailingBytes { walked, len } => {
                out.append("the string table walks ");
                push_decimal(&mut out, *walked as u64);
                out.append(" of ");
                push_decimal(&mut out, *len as u64);
                out.append(" bytes");
            },
            ConfigError::WorldStatesDim(dim) => {
                out.append("source \"world\" states dim ");
                push_decimal(&mut out, *dim as u64);
                out.append("; the host derives it");
            },
            ConfigError::WorldTextMissing => {
                out.append("source \"world\" carries no world text");
            },
            ConfigError::WorldOnNonWorldSource => {
                out.append("world text on a config whose source is not \"world\"");
            },
        }
        out
    }
}

/// A validated blob, as owned values. A parameter is `None` when its bit was
/// clear (the schema's default applies), and otherwise the bit pattern of
/// the `f64` the guest wrote; `iterations` is the `u32` its slot holds.
#[derive(Debug, Default, PartialEq)]
pub struct DecodedConfig {
    pub method: String,
    pub source: String,
    pub description: Option<String>,
    pub dim: u32,
    /// The world's YAML text, for `source: "world"`.
    pub world: Option<String>,
    pub rel_tol: Option<u64>,
    pub abs_tol: Option<u64>,
    pub min_step: Option<u64>,
    pub max_step: Option<u64>,
    pub fixed_step: Option<u64>,
    pub iterations: Option<u32>,
    pub convergence_tol: Option<u64>,
    pub compliance: Option<u64>,
    pub relaxation: Option<u64>,
}

// ── the format, as spec ───────────────────────────────────────────────────
/// Whether parameter bit `k` of `bitmap` is set.
pub open spec fn bit_set(bitmap: u32, k: u32) -> bool {
    (bitmap >> k) % 2 == 1
}

/// How many of the bits below `n` are set.
pub open spec fn bits_below(bitmap: u32, n: int) -> int
    decreases n,
{
    if n <= 0 {
        0
    } else {
        bits_below(bitmap, n - 1) + if bit_set(bitmap, (n - 1) as u32) { 1int } else { 0 }
    }
}

/// Where the string table starts: after the header and one slot per set
/// bit.
pub open spec fn strings_start(bitmap: u32) -> int {
    HEADER_LEN + 8 * bits_below(bitmap, 9)
}

/// Parameter `k`'s raw slot, or `None` when its bit is clear.
pub open spec fn param_slot(s: Seq<u8>, bitmap: u32, k: u32) -> Option<u64> {
    if bit_set(bitmap, k) {
        Some(le64(s, HEADER_LEN + 8 * bits_below(bitmap, k as int)) as u64)
    } else {
        None
    }
}

/// The name a string entry is refused under.
pub open spec fn entry_field(i: int) -> &'static str {
    if i == 0 {
        "method"
    } else if i == 1 {
        "source"
    } else if i == 2 {
        "description"
    } else {
        "world"
    }
}

/// Where entry `i`'s pointer sits in the header (its length follows it):
/// method, source and description back to back from 12, world at 48,
/// after `dim`, `parameters_off` and `parameters_bitmap`.
pub open spec fn entry_field_at(i: int) -> int {
    if i < 3 {
        12 + 8 * i
    } else {
        48
    }
}

/// Entry `i`'s pointer and length, as the header states them.
pub open spec fn entry_ptr(s: Seq<u8>, i: int) -> int {
    le32(s, entry_field_at(i))
}

pub open spec fn entry_len(s: Seq<u8>, i: int) -> int {
    le32(s, entry_field_at(i) + 4)
}

/// Entry `i`'s body.
pub open spec fn entry_body(s: Seq<u8>, i: int) -> Seq<u8> {
    s.subrange(entry_ptr(s, i) + 4, entry_ptr(s, i) + 4 + entry_len(s, i))
}

/// Walk the string table from entry `i`, the cursor at `cursor`: where the
/// walk ends, or the entry it refuses.
pub open spec fn strings_walk(s: Seq<u8>, i: int, cursor: int) -> Result<int, ConfigError>
    decreases 4 - i,
{
    if i >= 4 || i < 0 {
        Ok(cursor)
    } else if entry_len(s, i) == 0 {
        strings_walk(s, i + 1, cursor)
    } else {
        let start = entry_ptr(s, i);
        let end = start + 4 + entry_len(s, i);
        if start != cursor || start + 4 > s.len() || le32(s, start) != entry_len(s, i) || end > s.len()
            || !valid_utf8(entry_body(s, i)) {
            Err(ConfigError::BadStringEntry { field: entry_field(i) })
        } else {
            strings_walk(s, i + 1, end)
        }
    }
}

/// The text of entry `i`, or `None` when it is absent.
pub open spec fn entry_text(s: Seq<u8>, i: int) -> Option<Seq<char>> {
    if entry_len(s, i) == 0 {
        None
    } else {
        Some(decode_utf8(entry_body(s, i)))
    }
}

/// `world`, as bytes.
pub open spec fn world_bytes() -> Seq<u8> {
    seq![0x77u8, 0x6F, 0x72, 0x6C, 0x64]
}

/// The header's magic.
pub open spec fn wire_magic_ok(s: Seq<u8>) -> bool {
    forall|i: int| 0 <= i < 8 ==> #[trigger] s[i] == MAGIC@[i]
}

/// Why the blob `s` is refused, in the order the reader checks; `None` for
/// a blob it accepts.
pub open spec fn wire_error(s: Seq<u8>) -> Option<ConfigError> {
    let bitmap = le32(s, 44) as u32;
    let off = le32(s, 40) as u32;
    if s.len() < HEADER_LEN {
        Some(ConfigError::TooShort { len: s.len() as usize })
    } else if !wire_magic_ok(s) {
        Some(ConfigError::BadMagic)
    } else if le16(s, 8) != FORMAT_VERSION {
        Some(ConfigError::UnknownFormatVersion(le16(s, 8) as u16))
    } else if le16(s, 10) != SCHEMA_VERSION {
        Some(ConfigError::UnknownSchemaVersion(le16(s, 10) as u16))
    } else if !all_zero(s, 56, 64) {
        Some(ConfigError::ReservedNotZero)
    } else if entry_len(s, 0) == 0 {
        Some(ConfigError::EmptyMethod)
    } else if entry_len(s, 1) == 0 {
        Some(ConfigError::EmptySource)
    } else if bitmap > PARAMETER_BITS {
        Some(ConfigError::ReservedParameterBits(bitmap))
    } else if (bitmap == 0 && off != 0) || (bitmap != 0 && off != HEADER_LEN) {
        Some(ConfigError::BadParametersOffset(off))
    } else if strings_start(bitmap) > s.len() {
        Some(ConfigError::OutOfBounds { field: "parameters block" })
    } else if param_slot(s, bitmap, ITERATIONS_BIT) matches Some(raw) && raw >= 0x1_0000_0000 {
        Some(ConfigError::IterationsUpperBits { slot: param_slot(s, bitmap, ITERATIONS_BIT)->0 })
    } else {
        match strings_walk(s, 0, strings_start(bitmap)) {
            Err(e) => Some(e),
            Ok(cursor) => if cursor != s.len() {
                Some(ConfigError::TrailingBytes { walked: cursor as usize, len: s.len() as usize })
            } else if entry_body(s, 1) == world_bytes() {
                if le32(s, 36) != 0 {
                    Some(ConfigError::WorldStatesDim(le32(s, 36) as u32))
                } else if entry_len(s, 3) == 0 {
                    Some(ConfigError::WorldTextMissing)
                } else {
                    None
                }
            } else if entry_len(s, 3) != 0 {
                Some(ConfigError::WorldOnNonWorldSource)
            } else {
                None
            },
        }
    }
}

/// Parameter `k` as a float's bit pattern.
pub open spec fn float_param(d: &DecodedConfig, k: u32) -> Option<u64> {
    if k == 0 {
        d.rel_tol
    } else if k == 1 {
        d.abs_tol
    } else if k == 2 {
        d.min_step
    } else if k == 3 {
        d.max_step
    } else if k == 4 {
        d.fixed_step
    } else if k == 6 {
        d.convergence_tol
    } else if k == 7 {
        d.compliance
    } else {
        d.relaxation
    }
}

/// An optional string's characters.
pub open spec fn text_of(o: Option<String>) -> Option<Seq<char>> {
    match o {
        Some(t) => Some(t@),
        None => None,
    }
}

/// An optional slot's low four bytes.
pub open spec fn low_word(o: Option<u64>) -> Option<u32> {
    match o {
        Some(raw) => Some(raw as u32),
        None => None,
    }
}

/// What an accepted blob decodes to.
pub open spec fn decoded_from(s: Seq<u8>, d: DecodedConfig) -> bool {
    let bitmap = le32(s, 44) as u32;
    &&& Some(d.method@) == entry_text(s, 0)
    &&& Some(d.source@) == entry_text(s, 1)
    &&& text_of(d.description) == entry_text(s, 2)
    &&& text_of(d.world) == entry_text(s, 3)
    &&& d.dim == le32(s, 36)
    &&& d.iterations == low_word(param_slot(s, bitmap, ITERATIONS_BIT))
    &&& forall|k: u32| k < 9 && k != ITERATIONS_BIT ==> #[trigger] float_param(&d, k) == param_slot(s, bitmap, k)
}

/// An accepted blob's parameters, field by field: bit 0 is `relTol`, 1
/// `absTol`, 2 `minStep`, 3 `maxStep`, 4 `fixedStep`, 5 `iterations` (the low
/// word of its slot), 6 `convergenceTol`, 7 `compliance` and 8 `relaxation`;
/// each holds the slot of its own bit, and is `None` when that bit is clear.
pub proof fn lemma_parameters_by_bit(s: Seq<u8>, d: DecodedConfig)
    requires
        decoded_from(s, d),
    ensures
        ({
            let bitmap = le32(s, 44) as u32;
            &&& d.rel_tol == param_slot(s, bitmap, 0)
            &&& d.abs_tol == param_slot(s, bitmap, 1)
            &&& d.min_step == param_slot(s, bitmap, 2)
            &&& d.max_step == param_slot(s, bitmap, 3)
            &&& d.fixed_step == param_slot(s, bitmap, 4)
            &&& d.iterations == (if bit_set(bitmap, 5) {
                Some(le64(s, HEADER_LEN + 8 * bits_below(bitmap, 5)) as u32)
            } else {
                None
            })
            &&& d.convergence_tol == param_slot(s, bitmap, 6)
            &&& d.compliance == param_slot(s, bitmap, 7)
            &&& d.relaxation == param_slot(s, bitmap, 8)
        }),
{
    let bitmap = le32(s, 44) as u32;
    assert(float_param(&d, 0) == param_slot(s, bitmap, 0));
    assert(float_param(&d, 1) == param_slot(s, bitmap, 1));
    assert(float_param(&d, 2) == param_slot(s, bitmap, 2));
    assert(float_param(&d, 3) == param_slot(s, bitmap, 3));
    assert(float_param(&d, 4) == param_slot(s, bitmap, 4));
    assert(float_param(&d, 6) == param_slot(s, bitmap, 6));
    assert(float_param(&d, 7) == param_slot(s, bitmap, 7));
    assert(float_param(&d, 8) == param_slot(s, bitmap, 8));
}

// ── the reader ────────────────────────────────────────────────────────────
/// One string-table entry as the header declares it.
struct Entry {
    field: &'static str,
    ptr: u32,
    len: u32,
}

proof fn lemma_bits_below_bound(bitmap: u32, n: int)
    requires
        0 <= n,
    ensures
        0 <= bits_below(bitmap, n) <= n,
    decreases n,
{
    if n > 0 {
        lemma_bits_below_bound(bitmap, n - 1);
    }
}

/// The name string entry `i` is refused under.
fn entry_name(i: usize) -> (f: &'static str)
    ensures
        f == entry_field(i as int),
{
    if i == 0 {
        "method"
    } else if i == 1 {
        "source"
    } else if i == 2 {
        "description"
    } else {
        "world"
    }
}

proof fn lemma_bits_below_monotone(bitmap: u32, m: int, n: int)
    requires
        0 <= m <= n,
    ensures
        bits_below(bitmap, m) <= bits_below(bitmap, n),
    decreases n - m,
{
    if m < n {
        lemma_bits_below_monotone(bitmap, m, n - 1);
    }
}

/// Where entry `i`'s pointer sits in the header.
fn entry_offset(i: usize) -> (at: usize)
    requires
        i < 4,
    ensures
        at == entry_field_at(i as int),
        at + 8 <= HEADER_LEN,
{
    if i < 3 {
        12 + 8 * i
    } else {
        48
    }
}

/// Count the set bits among the nine named ones.
fn parameter_count(bitmap: u32) -> (n: usize)
    ensures
        n == bits_below(bitmap, 9),
{
    let mut n: usize = 0;
    let mut bit: u32 = 0;
    while bit < 9
        invariant
            bit <= 9,
            n == bits_below(bitmap, bit as int),
            n <= bit,
        decreases 9 - bit,
    {
        if (bitmap >> bit) % 2 == 1 {
            n = n + 1;
        }
        bit = bit + 1;
    }
    n
}

/// A blob with no strings and no parameters yet.
fn empty_config() -> (d: DecodedConfig)
    ensures
        forall|k: u32| k < 9 && k != ITERATIONS_BIT ==> #[trigger] float_param(&d, k) is None,
        d.iterations is None,
{
    DecodedConfig {
        method: String::new(),
        source: String::new(),
        description: None,
        dim: 0,
        world: None,
        rel_tol: None,
        abs_tol: None,
        min_step: None,
        max_step: None,
        fixed_step: None,
        iterations: None,
        convergence_tol: None,
        compliance: None,
        relaxation: None,
    }
}

/// Read the parameter slots, one per set bit in bit order, into a config
/// with no strings. The `iterations` slot's upper four bytes must be zero.
#[verifier::rlimit(40)]
fn read_parameters(bytes: &[u8], bitmap: u32) -> (r: Result<DecodedConfig, ConfigError>)
    requires
        strings_start(bitmap) <= bytes.len(),
    ensures
        r is Err <==> (param_slot(bytes@, bitmap, ITERATIONS_BIT) matches Some(raw) && raw >= 0x1_0000_0000),
        r matches Err(e) ==> e == (ConfigError::IterationsUpperBits {
            slot: param_slot(bytes@, bitmap, ITERATIONS_BIT)->0,
        }),
        r matches Ok(d) ==> {
            &&& d.iterations == low_word(param_slot(bytes@, bitmap, ITERATIONS_BIT))
            &&& forall|k: u32| k < 9 && k != ITERATIONS_BIT ==> #[trigger] float_param(&d, k) == param_slot(
                bytes@,
                bitmap,
                k,
            )
        },
{
    let ghost s = bytes@;
    let mut decoded = empty_config();
    let mut slot = HEADER_LEN;
    let mut bit: u32 = 0;
    while bit < 9
        invariant
            bit <= 9,
            bytes@ == s,
            strings_start(bitmap) <= s.len(),
            slot == HEADER_LEN + 8 * bits_below(bitmap, bit as int),
            forall|k: u32| k < bit && k != ITERATIONS_BIT ==> #[trigger] float_param(&decoded, k) == param_slot(
                s,
                bitmap,
                k,
            ),
            forall|k: u32| bit <= k < 9 && k != ITERATIONS_BIT ==> #[trigger] float_param(&decoded, k) is None,
            bit > ITERATIONS_BIT ==> decoded.iterations == low_word(param_slot(s, bitmap, ITERATIONS_BIT)),
            bit <= ITERATIONS_BIT ==> decoded.iterations is None,
            bit > ITERATIONS_BIT ==> !(param_slot(s, bitmap, ITERATIONS_BIT) matches Some(raw) && raw
                >= 0x1_0000_0000),
        decreases 9 - bit,
    {
        proof {
            lemma_bits_below_bound(bitmap, bit as int + 1);
            lemma_bits_below_monotone(bitmap, bit as int + 1, 9);
        }
        let ghost prev = decoded;
        if (bitmap >> bit) % 2 == 1 {
            let raw = load_u64(bytes, slot);
            if bit == 0 {
                decoded.rel_tol = Some(raw);
            } else if bit == 1 {
                decoded.abs_tol = Some(raw);
            } else if bit == 2 {
                decoded.min_step = Some(raw);
            } else if bit == 3 {
                decoded.max_step = Some(raw);
            } else if bit == 4 {
                decoded.fixed_step = Some(raw);
            } else if bit == 5 {
                if raw >= 0x1_0000_0000 {
                    return Err(ConfigError::IterationsUpperBits { slot: raw });
                }
                decoded.iterations = Some(raw as u32);
            } else if bit == 6 {
                decoded.convergence_tol = Some(raw);
            } else if bit == 7 {
                decoded.compliance = Some(raw);
            } else {
                decoded.relaxation = Some(raw);
            }
            slot = slot + 8;
        }
        proof {
            assert forall|k: u32| k < bit + 1 && k != ITERATIONS_BIT implies #[trigger] float_param(&decoded, k)
                == param_slot(s, bitmap, k) by {
                if k < bit {
                    assert(float_param(&prev, k) == param_slot(s, bitmap, k));
                }
            }
            assert forall|k: u32| bit + 1 <= k < 9 && k != ITERATIONS_BIT implies #[trigger] float_param(
                &decoded,
                k,
            ) is None by {
                assert(float_param(&prev, k) is None);
            }
        }
        bit = bit + 1;
    }
    Ok(decoded)
}

/// Walk the string table from `start`: the four entries' texts, where the
/// walk ended, and whether the source entry is `world`.
#[verifier::rlimit(40)]
fn read_strings(bytes: &[u8], start: usize) -> (r: Result<(Vec<Option<String>>, usize, bool), ConfigError>)
    requires
        HEADER_LEN <= start <= bytes.len(),
        entry_len(bytes@, 1) != 0,
    ensures
        r matches Err(e) ==> strings_walk(bytes@, 0, start as int) == Err::<int, ConfigError>(e),
        r matches Ok((texts, cursor, is_world)) ==> {
            &&& strings_walk(bytes@, 0, start as int) == Ok::<int, ConfigError>(cursor as int)
            &&& texts@.len() == 4
            &&& forall|k: int| 0 <= k < 4 ==> text_of(#[trigger] texts@[k]) == entry_text(bytes@, k)
            &&& (is_world <==> entry_body(bytes@, 1) == world_bytes())
        },
{
    let ghost s = bytes@;
    let mut cursor = start;
    let mut source_is_world = false;
    let mut texts: Vec<Option<String>> = Vec::new();
    let mut i: usize = 0;
    while i < 4
        invariant
            i <= 4,
            bytes@ == s,
            HEADER_LEN <= start <= cursor <= s.len(),
            texts@.len() == i,
            entry_len(s, 1) != 0,
            strings_walk(s, 0, start as int) == strings_walk(s, i as int, cursor as int),
            forall|k: int| 0 <= k < i ==> text_of(#[trigger] texts@[k]) == entry_text(s, k),
            i > 1 ==> (source_is_world <==> entry_body(s, 1) == world_bytes()),
        decreases 4 - i,
    {
        let at = entry_offset(i);
        let entry = Entry { field: entry_name(i), ptr: load_u32(bytes, at), len: load_u32(bytes, at + 4) };
        if entry.len == 0 {
            texts.push(None);
        } else {
            let at = entry.ptr as usize;
            if at != cursor || bytes.len() - at < 4 {
                return Err(ConfigError::BadStringEntry { field: entry.field });
            }
            if load_u32(bytes, at) != entry.len {
                return Err(ConfigError::BadStringEntry { field: entry.field });
            }
            let body = at + 4;
            if bytes.len() - body < entry.len as usize {
                return Err(ConfigError::BadStringEntry { field: entry.field });
            }
            let end = body + entry.len as usize;
            let body_bytes = slice_subrange(bytes, body, end);
            if i == 1 {
                source_is_world = body_bytes.len() == 5 && body_bytes[0] == 0x77 && body_bytes[1] == 0x6F
                    && body_bytes[2] == 0x72 && body_bytes[3] == 0x6C && body_bytes[4] == 0x64;
                proof {
                    assert(body_bytes@ == entry_body(s, 1));
                    if source_is_world {
                        assert(body_bytes@ =~= world_bytes());
                    } else if body_bytes.len() == 5 {
                        assert(body_bytes@ != world_bytes()) by {
                            if body_bytes@ == world_bytes() {
                                assert(body_bytes@[0] == world_bytes()[0]);
                                assert(body_bytes@[1] == world_bytes()[1]);
                                assert(body_bytes@[2] == world_bytes()[2]);
                                assert(body_bytes@[3] == world_bytes()[3]);
                                assert(body_bytes@[4] == world_bytes()[4]);
                            }
                        }
                    }
                }
            }
            let text = match utf8_text(body_bytes) {
                Some(text) => text,
                None => {
                    return Err(ConfigError::BadStringEntry { field: entry.field });
                },
            };
            texts.push(Some(text));
            cursor = end;
        }
        i = i + 1;
    }
    Ok((texts, cursor, source_is_world))
}

/// Decode a configuration blob. Strict: every refusal is a distinct error,
/// and nothing is read past a failed check.
#[verifier::rlimit(40)]
#[verifier::loop_isolation(false)]
pub fn decode_wire(bytes: &[u8]) -> (r: Result<DecodedConfig, ConfigError>)
    ensures
        match r {
            Ok(d) => wire_error(bytes@) is None && decoded_from(bytes@, d),
            Err(e) => wire_error(bytes@) == Some(e),
        },
{
    let ghost s = bytes@;
    if bytes.len() < HEADER_LEN {
        return Err(ConfigError::TooShort { len: bytes.len() });
    }
    let mut i: usize = 0;
    while i < 8
        invariant
            i <= 8,
            bytes@ == s,
            s.len() >= 64,
            forall|k: int| 0 <= k < i ==> #[trigger] s[k] == MAGIC@[k],
        decreases 8 - i,
    {
        if bytes[i] != MAGIC[i] {
            return Err(ConfigError::BadMagic);
        }
        i = i + 1;
    }
    let format_version = load_u16(bytes, 8);
    if format_version != FORMAT_VERSION {
        return Err(ConfigError::UnknownFormatVersion(format_version));
    }
    let schema_version = load_u16(bytes, 10);
    if schema_version != SCHEMA_VERSION {
        return Err(ConfigError::UnknownSchemaVersion(schema_version));
    }
    let mut i: usize = 56;
    while i < 64
        invariant
            56 <= i <= 64,
            bytes@ == s,
            s.len() >= 64,
            all_zero(s, 56, i as int),
        decreases 64 - i,
    {
        if bytes[i] != 0 {
            return Err(ConfigError::ReservedNotZero);
        }
        i = i + 1;
    }
    let method_len = load_u32(bytes, 16);
    let source_len = load_u32(bytes, 24);
    let dim = load_u32(bytes, 36);
    let parameters_off = load_u32(bytes, 40);
    let parameters_bitmap = load_u32(bytes, 44);
    if method_len == 0 {
        return Err(ConfigError::EmptyMethod);
    }
    if source_len == 0 {
        return Err(ConfigError::EmptySource);
    }
    if parameters_bitmap > PARAMETER_BITS {
        return Err(ConfigError::ReservedParameterBits(parameters_bitmap));
    }
    let count = parameter_count(parameters_bitmap);
    proof {
        lemma_bits_below_bound(parameters_bitmap, 9);
    }
    // The parameters block is present exactly when the bitmap is nonzero,
    // and then sits at 64.
    if parameters_bitmap == 0 {
        if parameters_off != 0 {
            return Err(ConfigError::BadParametersOffset(parameters_off));
        }
    } else if parameters_off != HEADER_LEN as u32 {
        return Err(ConfigError::BadParametersOffset(parameters_off));
    }
    let table_start = HEADER_LEN + 8 * count;
    if table_start > bytes.len() {
        return Err(ConfigError::OutOfBounds { field: "parameters block" });
    }
    let mut decoded = match read_parameters(bytes, parameters_bitmap) {
        Ok(decoded) => decoded,
        Err(e) => {
            return Err(e);
        },
    };
    let (mut texts, cursor, source_is_world) = match read_strings(bytes, table_start) {
        Ok(walked) => walked,
        Err(e) => {
            return Err(e);
        },
    };
    if cursor != bytes.len() {
        return Err(ConfigError::TrailingBytes { walked: cursor, len: bytes.len() });
    }
    let ghost with_params = decoded;
    let world = texts.pop().unwrap();
    let description = texts.pop().unwrap();
    let source = texts.pop().unwrap().unwrap();
    let method = texts.pop().unwrap().unwrap();
    decoded.method = method;
    decoded.source = source;
    decoded.description = description;
    decoded.world = world;
    decoded.dim = dim;
    proof {
        crate::bytes::lemma_le32_bound(s, 36);
        assert forall|k: u32| k < 9 && k != ITERATIONS_BIT implies #[trigger] float_param(&decoded, k) == param_slot(
            s,
            parameters_bitmap,
            k,
        ) by {
            assert(float_param(&with_params, k) == param_slot(s, parameters_bitmap, k));
        }
    }
    // The world-source rules: the host derives `dim`, and a world source
    // needs world text.
    if source_is_world {
        if dim != 0 {
            return Err(ConfigError::WorldStatesDim(dim));
        }
        if decoded.world.is_none() {
            return Err(ConfigError::WorldTextMissing);
        }
    } else if decoded.world.is_some() {
        return Err(ConfigError::WorldOnNonWorldSource);
    }
    Ok(decoded)
}

impl DecodedConfig {
    /// The parameters bitmap the shim receives: bit `k` set exactly when
    /// parameter `k` is present.
    pub fn parameters_bitmap(&self) -> (bitmap: u32)
        ensures
            bitmap <= PARAMETER_BITS,
            forall|k: u32| k < 9 && k != ITERATIONS_BIT ==> (bit_set(bitmap, k) <==> #[trigger] float_param(
                self,
                k,
            ) is Some),
            bit_set(bitmap, ITERATIONS_BIT) <==> self.iterations is Some,
    {
        let present = [
            self.rel_tol.is_some(),
            self.abs_tol.is_some(),
            self.min_step.is_some(),
            self.max_step.is_some(),
            self.fixed_step.is_some(),
            self.iterations.is_some(),
            self.convergence_tol.is_some(),
            self.compliance.is_some(),
            self.relaxation.is_some(),
        ];
        let mut bitmap: u32 = 0;
        let mut bit: u32 = 0;
        proof {
            assert forall|k: u32| k < 32 implies !bit_set(0, k) by {
                assert((0u32 >> k) % 2 == 0) by (bit_vector);
            }
            assert(0u32 < (1u32 << 0u32)) by (bit_vector);
        }
        while bit < 9
            invariant
                bit <= 9,
                bitmap < (1u32 << bit),
                forall|k: u32| k < bit ==> (bit_set(bitmap, k) <==> #[trigger] present@[k as int]),
                forall|k: u32| bit <= k < 32 ==> !#[trigger] bit_set(bitmap, k),
            decreases 9 - bit,
        {
            let ghost before = bitmap;
            if present[bit as usize] {
                bitmap = bitmap | (1u32 << bit);
                proof {
                    assert(bitmap < (1u32 << (bit + 1))) by (bit_vector)
                        requires
                            before < (1u32 << bit),
                            bitmap == before | (1u32 << bit),
                            bit < 9,
                    ;
                    assert(bit_set(bitmap, bit)) by (bit_vector)
                        requires
                            bitmap == before | (1u32 << bit),
                            bit < 9,
                    ;
                    assert forall|k: u32| k < 32 && k != bit implies bit_set(bitmap, k) == bit_set(before, k) by {
                        assert((bitmap >> k) % 2 == (before >> k) % 2) by (bit_vector)
                            requires
                                bitmap == before | (1u32 << bit),
                                bit < 9,
                                k < 32,
                                k != bit,
                        ;
                    }
                }
            } else {
                proof {
                    assert(bitmap < (1u32 << (bit + 1))) by (bit_vector)
                        requires
                            bitmap < (1u32 << bit),
                            bit < 9,
                    ;
                }
            }
            bit = bit + 1;
        }
        proof {
            assert(bitmap <= PARAMETER_BITS) by (bit_vector)
                requires
                    bitmap < (1u32 << 9u32),
            ;
            assert forall|k: u32| k < 9 && k != ITERATIONS_BIT implies (bit_set(bitmap, k) <==> #[trigger] float_param(
                self,
                k,
            ) is Some) by {
                assert(present@[k as int] == (float_param(self, k) is Some));
            }
            assert(present@[5] == self.iterations is Some);
        }
        bitmap
    }
}

} // verus!
