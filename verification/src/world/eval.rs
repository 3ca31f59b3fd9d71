//! The compiled-world reader: every structural refusal the binary format
//! declares, checked once, before anything is evaluated.
//!
//! A world file is a 40-byte header, a component table, a connection table
//! and an optional name table, in that order and with nothing between them.
//! `World::load` walks the tables by their entries' tags, accumulates the
//! state vector's length, and refuses a connection whose endpoints do not
//! name component-table entries. What the numbers inside an entry mean
//! (masses, stiffnesses) is the compiler's contract and is not re-checked.

use vstd::prelude::*;

use crate::bytes::{utf8_text, le16, le32, load_u16, load_u32};
use crate::text::{decimal, push_decimal};
use vstd::string::StringExecFns;
use vstd::slice::slice_subrange;
use vstd::utf8::valid_utf8;

verus! {

/// The first eight bytes of every world file: `TNSWORLD`.
pub const MAGIC: [u8; 8] = [0x54, 0x4E, 0x53, 0x57, 0x4F, 0x52, 0x4C, 0x44];

/// The only format version this reader knows.
pub const FORMAT_VERSION: u16 = 1;

/// The header's size, and the component table's fixed start.
pub const HEADER_LEN: u32 = 40;

/// The endpoint sentinel gravity carries in `from` and `to`.
pub const NO_ENDPOINT: u32 = 0xFFFF_FFFF;

/// Component type tags.
pub const TAG_POINT_MASS: u16 = 1;
pub const TAG_KINEMATIC: u16 = 2;
pub const TAG_ANCHOR: u16 = 3;

/// Connection type tags.
pub const TAG_SPRING: u16 = 1;
pub const TAG_PIN: u16 = 2;
pub const TAG_GRAVITY: u16 = 3;

/// Why a world could not be loaded or evaluated.
#[derive(Clone, Debug, PartialEq, Eq)]
pub enum WorldError {
    /// The first eight bytes are not `TNSWORLD`.
    BadMagic,
    /// `format_version` is not the one version this reader knows.
    BadVersion { found: u16 },
    /// `flags`, `reserved` or `reserved2` is nonzero.
    BadFlags,
    /// `dimensions` is not 2 or 3.
    BadDimensions { found: u8 },
    /// A table offset is misaligned, out of range, or disagrees with the
    /// tables' actual extents; or a name entry is malformed.
    BadOffset,
    /// The file ends before its tables do, or a count does not fit inside
    /// its table.
    Truncated,
    /// A connection's endpoints do not name component-table entries,
    /// gravity's are not the sentinel, or a binary connection's ends are
    /// the same component.
    BadReference { connection: u32 },
    /// `y` or `out` is not `dim` slots long.
    DimMismatch { expected: u32, got: usize },
    /// A component type tag this reader cannot size.
    UnsupportedComponent { index: u32, tag: u16, name: Option<String> },
    /// A connection this reader cannot evaluate (a rigid pin), or whose tag
    /// it cannot size.
    UnsupportedConnection { index: u32, tag: u16, name: Option<String> },
}

/// The text after a named or unnamed entry's label.
pub open spec fn entry_label(kind: Seq<char>, index: u32, name: Option<String>) -> Seq<char> {
    match name {
        Some(n) => kind + " `"@ + n@ + "` (index "@ + decimal(index as nat) + ")"@,
        None => kind + " at index "@ + decimal(index as nat),
    }
}

/// The refusal as a sentence.
pub open spec fn world_message(e: WorldError) -> Seq<char> {
    match e {
        WorldError::BadMagic => "not a world file: bad magic"@,
        WorldError::BadVersion { found } => "unsupported format_version "@ + decimal(found as nat)
            + ": this reader implements 1"@,
        WorldError::BadFlags => "reserved header fields (flags, reserved, reserved2) must be zero"@,
        WorldError::BadDimensions { found } => "dimensions must be 2 or 3, found "@ + decimal(found as nat),
        WorldError::BadOffset => "a table offset is misaligned, out of range, or disagrees with the tables' extents"@,
        WorldError::Truncated => "the file ends before its tables do"@,
        WorldError::BadReference { connection } => "connection at index "@ + decimal(connection as nat)
            + " references a component that does not exist (or misuses the endpoint sentinels)"@,
        WorldError::DimMismatch { expected, got } => "expected "@ + decimal(expected as nat) + " state slots, got "@
            + decimal(got as nat),
        WorldError::UnsupportedComponent { index, tag, name } => entry_label("component"@, index, name)
            + ": component type tag "@ + decimal(tag as nat) + " is not implemented in v1"@,
        WorldError::UnsupportedConnection { index, tag, name } => if tag == TAG_PIN {
            entry_label("connection"@, index, name) + ": rigid constraints (`pin`) are not implemented in v1"@
        } else {
            entry_label("connection"@, index, name) + ": connection type tag "@ + decimal(tag as nat)
                + " is not implemented in v1"@
        },
    }
}

fn push_entry_label(out: &mut String, kind: &str, index: u32, name: &Option<String>)
    ensures
        final(out)@ == old(out)@ + entry_label(kind@, index, *name),
{
    out.append(kind);
    match name {
        Some(n) => {
            out.append(" `");
            out.append(n.as_str());
            out.append("` (index ");
            push_decimal(out, index as u64);
            out.append(")");
        },
        None => {
            out.append(" at index ");
            push_decimal(out, index as u64);
        },
    }
}

impl WorldError {
    /// The refusal as a sentence.
    pub fn message(&self) -> (r: String)
        ensures
            r@ == world_message(*self),
    {
        let mut out = String::new();
        match self {
            WorldError::BadMagic => {
                out.append("not a world file: bad magic");
            },
            WorldError::BadVersion { found } => {
                out.append("unsupported format_version ");
                push_decimal(&mut out, *found as u64);
                out.append(": this reader implements 1");
            },
            WorldError::BadFlags => {
                out.append("reserved header fields (flags, reserved, reserved2) must be zero");
            },
            WorldError::BadDimensions { found } => {
                out.append("dimensions must be 2 or 3, found ");
                push_decimal(&mut out, *found as u64);
            },
            WorldError::BadOffset => {
                out.append(
                    "a table offset is misaligned, out of range, or disagrees with the tables' extents",
                );
            },
            WorldError::Truncated => {
                out.append("the file ends before its tables do");
            },
            WorldError::BadReference { connection } => {
                out.append("connection at index ");
                push_decimal(&mut out, *connection as u64);
                out.append(
                    " references a component that does not exist (or misuses the endpoint sentinels)",
                );
            },
            WorldError::DimMismatch { expected, got } => {
                out.append("expected ");
                push_decimal(&mut out, *expected as u64);
                out.append(" state slots, got ");
                push_decimal(&mut out, *got as u64);
            },
            WorldError::UnsupportedComponent { index, tag, name } => {
                push_entry_label(&mut out, "component", *index, name);
                out.append(": component type tag ");
                push_decimal(&mut out, *tag as u64);
                out.append(" is not implemented in v1");
            },
            WorldError::UnsupportedConnection { index, tag, name } => {
                push_entry_label(&mut out, "connection", *index, name);
                if *tag == TAG_PIN {
                    out.append(": rigid constraints (`pin`) are not implemented in v1");
                } else {
                    out.append(": connection type tag ");
                    push_decimal(&mut out, *tag as u64);
                    out.append(" is not implemented in v1");
                }
            },
        }
        out
    }
}

// ── the format, as spec ───────────────────────────────────────────────────
/// A component entry's size by tag, for `d` spatial dimensions.
pub open spec fn component_size_spec(tag: u16, d: int) -> Option<int> {
    if tag == TAG_POINT_MASS {
        Some(16 + 16 * d)
    } else if tag == TAG_KINEMATIC {
        Some(8 + 16 * d)
    } else if tag == TAG_ANCHOR {
        Some(8 + 8 * d)
    } else {
        None
    }
}

/// A connection entry's size by tag, for `d` spatial dimensions.
pub open spec fn connection_size_spec(tag: u16, d: int) -> Option<int> {
    if tag == TAG_SPRING {
        Some(40)
    } else if tag == TAG_PIN || tag == TAG_GRAVITY {
        Some(16 + 8 * d)
    } else {
        None
    }
}

/// Walk the component table from entry `index` at byte `off`, the table
/// ending at `end`: where the walk ends and how many state slots the
/// remaining entries hold, or the first refusal.
pub open spec fn component_walk(s: Seq<u8>, d: int, end: int, count: int, index: int, off: int) -> Result<
    (int, int),
    WorldError,
>
    decreases count - index,
{
    if index >= count {
        Ok((off, 0))
    } else if off + 8 > end {
        Err(WorldError::Truncated)
    } else {
        let tag = le16(s, off) as u16;
        match component_size_spec(tag, d) {
            None => Err(WorldError::UnsupportedComponent { index: index as u32, tag, name: None }),
            Some(size) => if le32(s, off + 4) == 0 {
                Err(WorldError::BadOffset)
            } else if off + size > end {
                Err(WorldError::Truncated)
            } else {
                match component_walk(s, d, end, count, index + 1, off + size) {
                    Err(e) => Err(e),
                    Ok((o, slots)) => Ok((o, slots + if tag != TAG_ANCHOR { 2 * d } else { 0 })),
                }
            },
        }
    }
}

/// Walk the connection table from entry `index` at byte `off`, the table
/// ending at `end` and the component table holding `components` entries:
/// where the walk ends, or the first refusal.
pub open spec fn connection_walk(
    s: Seq<u8>,
    d: int,
    end: int,
    count: int,
    components: int,
    index: int,
    off: int,
) -> Result<int, WorldError>
    decreases count - index,
{
    if index >= count {
        Ok(off)
    } else if off + 16 > end {
        Err(WorldError::Truncated)
    } else {
        let tag = le16(s, off) as u16;
        let from = le32(s, off + 8);
        let to = le32(s, off + 12);
        match connection_size_spec(tag, d) {
            None => Err(WorldError::UnsupportedConnection { index: index as u32, tag, name: None }),
            Some(size) => if off + size > end {
                Err(WorldError::Truncated)
            } else if tag == TAG_GRAVITY && (from != NO_ENDPOINT || to != NO_ENDPOINT) {
                Err(WorldError::BadReference { connection: index as u32 })
            } else if tag != TAG_GRAVITY && (from >= components || to >= components || from == to) {
                Err(WorldError::BadReference { connection: index as u32 })
            } else {
                connection_walk(s, d, end, count, components, index + 1, off + size)
            },
        }
    }
}

/// Walk the name table from byte `off` to the end of the file: each entry a
/// 32-bit length and that many bytes of UTF-8, with no padding.
pub open spec fn names_walk(s: Seq<u8>, off: int) -> Result<(), WorldError>
    decreases s.len() - off,
{
    if off >= s.len() || off < 0 {
        Ok(())
    } else if off + 4 > s.len() {
        Err(WorldError::Truncated)
    } else {
        let end = off + 4 + le32(s, off);
        if end > s.len() {
            Err(WorldError::Truncated)
        } else if !valid_utf8(s.subrange(off + 4, end)) {
            Err(WorldError::BadOffset)
        } else {
            names_walk(s, end)
        }
    }
}

/// A `name_offset` is unnamed (0), or points into the name table at a
/// well-formed entry.
pub open spec fn name_ok(s: Seq<u8>, name_table: int, name_offset: int) -> bool {
    name_offset == 0 || {
        &&& name_table != 0
        &&& name_offset >= name_table
        &&& name_offset + 4 <= s.len()
        &&& name_offset + 4 + le32(s, name_offset) <= s.len()
        &&& valid_utf8(s.subrange(name_offset + 4, name_offset + 4 + le32(s, name_offset)))
    }
}

/// Every component entry's name, from entry `index` at byte `off` on, is
/// well formed.
pub open spec fn component_names_ok(s: Seq<u8>, d: int, name_table: int, count: int, index: int, off: int) -> bool
    decreases count - index,
{
    index >= count || {
        &&& name_ok(s, name_table, le32(s, off + 4))
        &&& match component_size_spec(le16(s, off) as u16, d) {
            Some(size) => component_names_ok(s, d, name_table, count, index + 1, off + size),
            None => false,
        }
    }
}

/// Every connection entry's name, from entry `index` at byte `off` on, is
/// well formed.
pub open spec fn connection_names_ok(s: Seq<u8>, d: int, name_table: int, count: int, index: int, off: int) -> bool
    decreases count - index,
{
    index >= count || {
        &&& name_ok(s, name_table, le32(s, off + 4))
        &&& match connection_size_spec(le16(s, off) as u16, d) {
            Some(size) => connection_names_ok(s, d, name_table, count, index + 1, off + size),
            None => false,
        }
    }
}

/// What a loaded world knows about its bytes.
pub struct WorldShape {
    /// 2 or 3.
    pub dimensions: u8,
    /// The state vector's length.
    pub dim: u32,
    pub component_count: u32,
    pub connection_count: u32,
    pub component_table: int,
    pub connection_table: int,
    /// 0 when the file has no name table.
    pub name_table: int,
}

/// The header's magic.
pub open spec fn magic_ok(s: Seq<u8>) -> bool {
    forall|i: int| 0 <= i < 8 ==> #[trigger] s[i] == MAGIC@[i]
}

/// What loading `s` gives: the shape of the world, or the first refusal,
/// in the order the format's checks run.
pub open spec fn load_spec(s: Seq<u8>) -> Result<WorldShape, WorldError> {
    if s.len() < HEADER_LEN {
        Err(WorldError::Truncated)
    } else if !magic_ok(s) {
        Err(WorldError::BadMagic)
    } else if le16(s, 8) != FORMAT_VERSION {
        Err(WorldError::BadVersion { found: le16(s, 8) as u16 })
    } else if s[13] != 0 || le16(s, 14) != 0 || le32(s, 36) != 0 {
        Err(WorldError::BadFlags)
    } else if s[12] != 2 && s[12] != 3 {
        Err(WorldError::BadDimensions { found: s[12] })
    } else {
        let d = s[12] as int;
        let components = le32(s, 16);
        let connections = le32(s, 20);
        let ctable = le32(s, 24);
        let xtable = le32(s, 28);
        let ntable = le32(s, 32);
        if ctable != HEADER_LEN || xtable < ctable || xtable > s.len() || (ntable != 0 && (ntable
            < xtable || ntable > s.len())) {
            Err(WorldError::BadOffset)
        } else {
            match component_walk(s, d, xtable, components, 0, ctable) {
                Err(e) => Err(e),
                Ok((cend, slots)) => if cend != xtable {
                    Err(WorldError::BadOffset)
                } else {
                    let section_end = if ntable == 0 { s.len() as int } else { ntable };
                    match connection_walk(s, d, section_end, connections, components, 0, xtable) {
                        Err(e) => Err(e),
                        Ok(xend) => if xend != section_end {
                            Err(WorldError::BadOffset)
                        } else {
                            match (if ntable == 0 { Ok(()) } else { names_walk(s, ntable) }) {
                                Err(e) => Err(e),
                                Ok(_) => if component_names_ok(s, d, ntable, components, 0, ctable)
                                    && connection_names_ok(s, d, ntable, connections, 0, xtable) {
                                    Ok(
                                        WorldShape {
                                            dimensions: s[12],
                                            dim: slots as u32,
                                            component_count: components as u32,
                                            connection_count: connections as u32,
                                            component_table: ctable,
                                            connection_table: xtable,
                                            name_table: ntable,
                                        },
                                    )
                                } else {
                                    Err(WorldError::BadOffset)
                                },
                            }
                        },
                    }
                },
            }
        }
    }
}

// ── the reader ────────────────────────────────────────────────────────────
/// A validated world: where its tables are and what its state vector holds.
/// The bytes stay the caller's.
#[derive(Copy, Clone, Debug)]
pub struct World {
    dimensions: u8,
    dim: u32,
    component_count: u32,
    connection_count: u32,
    component_table: usize,
    connection_table: usize,
    name_table: usize,
}

impl View for World {
    type V = WorldShape;

    closed spec fn view(&self) -> WorldShape {
        WorldShape {
            dimensions: self.dimensions,
            dim: self.dim,
            component_count: self.component_count,
            connection_count: self.connection_count,
            component_table: self.component_table as int,
            connection_table: self.connection_table as int,
            name_table: self.name_table as int,
        }
    }
}

/// A component entry's size by tag, for `dimensions` spatial dimensions;
/// `None` for a tag this version does not define.
pub fn component_size(tag: u16, dimensions: usize) -> (r: Option<usize>)
    requires
        dimensions <= 3,
    ensures
        r matches Some(n) ==> component_size_spec(tag, dimensions as int) == Some(n as int),
        r is None ==> component_size_spec(tag, dimensions as int) is None,
{
    if tag == TAG_POINT_MASS {
        Some(16 + 16 * dimensions)
    } else if tag == TAG_KINEMATIC {
        Some(8 + 16 * dimensions)
    } else if tag == TAG_ANCHOR {
        Some(8 + 8 * dimensions)
    } else {
        None
    }
}

/// A connection entry's size by tag, for `dimensions` spatial dimensions;
/// `None` for a tag this version does not define.
pub fn connection_size(tag: u16, dimensions: usize) -> (r: Option<usize>)
    requires
        dimensions <= 3,
    ensures
        r matches Some(n) ==> connection_size_spec(tag, dimensions as int) == Some(n as int),
        r is None ==> connection_size_spec(tag, dimensions as int) is None,
{
    if tag == TAG_SPRING {
        Some(40)
    } else if tag == TAG_PIN || tag == TAG_GRAVITY {
        Some(16 + 8 * dimensions)
    } else {
        None
    }
}

/// Whether the name at `name_offset` is absent or well formed.
fn check_name(bytes: &[u8], name_table: usize, name_offset: u32) -> (ok: bool)
    ensures
        ok == name_ok(bytes@, name_table as int, name_offset as int),
{
    if name_offset == 0 {
        return true;
    }
    let off = name_offset as usize;
    if name_table == 0 || off < name_table || off > bytes.len() || bytes.len() - off < 4 {
        return false;
    }
    let len = load_u32(bytes, off) as usize;
    if bytes.len() - off - 4 < len {
        return false;
    }
    utf8_text(slice_subrange(bytes, off + 4, off + 4 + len)).is_some()
}

impl World {
    /// Read and validate a compiled world: the header, the two tables walked
    /// entry by entry, the name table, and every entry's name.
    #[verifier::rlimit(40)]
    #[verifier::loop_isolation(false)]
    pub fn load(bytes: &[u8]) -> (r: Result<World, WorldError>)
        ensures
            match r {
                Ok(w) => load_spec(bytes@) == Ok::<WorldShape, WorldError>(w@),
                Err(e) => load_spec(bytes@) == Err::<WorldShape, WorldError>(e),
            },
    {
        let ghost s = bytes@;
        if bytes.len() < HEADER_LEN as usize {
            return Err(WorldError::Truncated);
        }
        let mut i: usize = 0;
        while i < 8
            invariant
                i <= 8,
                bytes@ == s,
                s.len() >= 40,
                forall|k: int| 0 <= k < i ==> #[trigger] s[k] == MAGIC@[k],
            decreases 8 - i,
        {
            if bytes[i] != MAGIC[i] {
                return Err(WorldError::BadMagic);
            }
            i = i + 1;
        }
        let format_version = load_u16(bytes, 8);
        if format_version != FORMAT_VERSION {
            return Err(WorldError::BadVersion { found: format_version });
        }
        if bytes[13] != 0 || load_u16(bytes, 14) != 0 || load_u32(bytes, 36) != 0 {
            return Err(WorldError::BadFlags);
        }
        let dimensions = bytes[12];
        if dimensions != 2 && dimensions != 3 {
            return Err(WorldError::BadDimensions { found: dimensions });
        }
        let d = dimensions as usize;
        let component_count = load_u32(bytes, 16);
        let connection_count = load_u32(bytes, 20);
        let component_table = load_u32(bytes, 24) as usize;
        let connection_table = load_u32(bytes, 28) as usize;
        let name_table = load_u32(bytes, 32) as usize;
        if component_table != HEADER_LEN as usize || connection_table < component_table
            || connection_table > bytes.len() || (name_table != 0 && (name_table < connection_table
            || name_table > bytes.len())) {
            return Err(WorldError::BadOffset);
        }
        let ghost dd = d as int;
        let ghost cc = component_count as int;
        let ghost xt = connection_table as int;
        // The component table.
        let mut off = component_table;
        let mut dim: u32 = 0;
        let mut index: u32 = 0;
        while index < component_count
            invariant
                bytes@ == s,
                connection_table <= u32::MAX,
                d == 2 || d == 3,
                dd == d,
                component_table <= off <= connection_table <= s.len(),
                index <= component_count,
                dim as int * 6 <= (off - component_table) as int,
                component_walk(s, dd, xt, cc, 0, component_table as int) == (match component_walk(
                    s,
                    dd,
                    xt,
                    cc,
                    index as int,
                    off as int,
                ) {
                    Err(e) => Err(e),
                    Ok((o, slots)) => Ok((o, slots + dim)),
                }),
            decreases component_count - index,
        {
            if connection_table - off < 8 {
                return Err(WorldError::Truncated);
            }
            let tag = load_u16(bytes, off);
            let name_offset = load_u32(bytes, off + 4);
            let size = match component_size(tag, d) {
                Some(size) => size,
                None => {
                    return Err(WorldError::UnsupportedComponent { index, tag, name: None });
                },
            };
            if name_offset == 0 {
                return Err(WorldError::BadOffset);
            }
            if connection_table - off < size {
                return Err(WorldError::Truncated);
            }
            if tag != TAG_ANCHOR {
                dim = dim + 2 * (d as u32);
            }
            off = off + size;
            index = index + 1;
        }
        if off != connection_table {
            return Err(WorldError::BadOffset);
        }
        // The connection table.
        let section_end = if name_table == 0 { bytes.len() } else { name_table };
        let ghost se = section_end as int;
        let ghost nc = connection_count as int;
        let mut off = connection_table;
        let mut index: u32 = 0;
        while index < connection_count
            invariant
                bytes@ == s,
                d == 2 || d == 3,
                dd == d,
                connection_table <= off <= section_end <= s.len(),
                index <= connection_count,
                cc == component_count,
                connection_walk(s, dd, se, nc, cc, 0, xt) == connection_walk(
                    s,
                    dd,
                    se,
                    nc,
                    cc,
                    index as int,
                    off as int,
                ),
            decreases connection_count - index,
        {
            if section_end - off < 16 {
                return Err(WorldError::Truncated);
            }
            let tag = load_u16(bytes, off);
            let from = load_u32(bytes, off + 8);
            let to = load_u32(bytes, off + 12);
            let size = match connection_size(tag, d) {
                Some(size) => size,
                None => {
                    return Err(WorldError::UnsupportedConnection { index, tag, name: None });
                },
            };
            if section_end - off < size {
                return Err(WorldError::Truncated);
            }
            if tag == TAG_GRAVITY {
                if from != NO_ENDPOINT || to != NO_ENDPOINT {
                    return Err(WorldError::BadReference { connection: index });
                }
            } else {
                if from >= component_count || to >= component_count || from == to {
                    return Err(WorldError::BadReference { connection: index });
                }
            }
            off = off + size;
            index = index + 1;
        }
        if off != section_end {
            return Err(WorldError::BadOffset);
        }
        // The name table.
        if name_table == 0 {
            if off != bytes.len() {
                return Err(WorldError::BadOffset);
            }
        } else {
            let mut off = name_table;
            while off < bytes.len()
                invariant
                    bytes@ == s,
                    name_table <= off <= s.len(),
                    names_walk(s, name_table as int) == names_walk(s, off as int),
                decreases s.len() - off,
            {
                if bytes.len() - off < 4 {
                    return Err(WorldError::Truncated);
                }
                let len = load_u32(bytes, off) as usize;
                if bytes.len() - off - 4 < len {
                    return Err(WorldError::Truncated);
                }
                let end = off + 4 + len;
                if utf8_text(slice_subrange(bytes, off + 4, end)).is_none() {
                    return Err(WorldError::BadOffset);
                }
                off = end;
            }
        }
        // Every entry's name.
        let ghost nt = name_table as int;
        let mut off = component_table;
        let mut index: u32 = 0;
        while index < component_count
            invariant
                bytes@ == s,
                d == 2 || d == 3,
                dd == d,
                index <= component_count,
                component_table <= off <= connection_table <= s.len(),
                component_walk(s, dd, xt, cc, index as int, off as int) is Ok,
                component_names_ok(s, dd, nt, cc, 0, component_table as int) == component_names_ok(
                    s,
                    dd,
                    nt,
                    cc,
                    index as int,
                    off as int,
                ),
            decreases component_count - index,
        {
            proof {
                if off + 8 > xt {
                    assert(component_walk(s, dd, xt, cc, index as int, off as int) == Err::<
                        (int, int),
                        WorldError,
                    >(WorldError::Truncated));
                }
            }
            if !check_name(bytes, name_table, load_u32(bytes, off + 4)) {
                return Err(WorldError::BadOffset);
            }
            let size = match component_size(load_u16(bytes, off), d) {
                Some(size) => size,
                None => {
                    return Err(WorldError::BadOffset);
                },
            };
            off = off + size;
            index = index + 1;
        }
        let mut off = connection_table;
        let mut index: u32 = 0;
        while index < connection_count
            invariant
                bytes@ == s,
                d == 2 || d == 3,
                dd == d,
                index <= connection_count,
                connection_table <= off <= section_end <= s.len(),
                cc == component_count,
                connection_walk(s, dd, se, nc, cc, index as int, off as int) is Ok,
                component_names_ok(s, dd, nt, cc, 0, component_table as int),
                connection_names_ok(s, dd, nt, nc, 0, xt) == connection_names_ok(
                    s,
                    dd,
                    nt,
                    nc,
                    index as int,
                    off as int,
                ),
            decreases connection_count - index,
        {
            proof {
                if off + 16 > se {
                    assert(connection_walk(s, dd, se, nc, cc, index as int, off as int) == Err::<
                        int,
                        WorldError,
                    >(WorldError::Truncated));
                }
            }
            if !check_name(bytes, name_table, load_u32(bytes, off + 4)) {
                return Err(WorldError::BadOffset);
            }
            let size = match connection_size(load_u16(bytes, off), d) {
                Some(size) => size,
                None => {
                    return Err(WorldError::BadOffset);
                },
            };
            off = off + size;
            index = index + 1;
        }
        Ok(
            World {
                dimensions,
                dim,
                component_count,
                connection_count,
                component_table,
                connection_table,
                name_table,
            },
        )
    }

    /// The state vector's length: two slots per dimension for each
    /// component that moves. Zero is legal.
    pub fn dim(&self) -> (r: u32)
        ensures
            r == self@.dim,
    {
        self.dim
    }

    /// The world's spatial dimensionality: 2 or 3.
    pub fn dimensions(&self) -> (r: u8)
        ensures
            r == self@.dimensions,
    {
        self.dimensions
    }

    /// How many component entries the world holds.
    pub fn component_count(&self) -> (r: u32)
        ensures
            r == self@.component_count,
    {
        self.component_count
    }

    /// How many connection entries the world holds.
    pub fn connection_count(&self) -> (r: u32)
        ensures
            r == self@.connection_count,
    {
        self.connection_count
    }

    /// Where the component table starts.
    pub fn component_table(&self) -> (r: usize)
        ensures
            r == self@.component_table,
    {
        self.component_table
    }

    /// Where the connection table starts.
    pub fn connection_table(&self) -> (r: usize)
        ensures
            r == self@.connection_table,
    {
        self.connection_table
    }
}

} // verus!
