//! What the reader makes of what the emitter writes: the bytes of a
//! well-formed world load, and report the world's shape.

use vstd::prelude::*;

use crate::bytes::{le16, le32, lemma_le32_agree_at};
use vstd::utf8::valid_utf8;
use crate::world::compiler::{lemma_components_size_monotone, lemma_connections_size_monotone};
use crate::world::eval::{
    component_names_ok, component_size_spec, component_walk, connection_names_ok, connection_size_spec,
    connection_walk, load_spec, magic_ok, name_ok, names_walk, WorldError, WorldShape, MAGIC,
};
use crate::world::compiler::{
    component_entry, component_name, component_size, component_table, components_size, connection_entry,
    connection_name, connection_names, connection_size, connection_table, connections_size, emitted, fits_offsets,
    le, name_offset, name_table, named_before, words, world_names, Component, Connection, ParsedWorld,
};

verus! {

// ── bytes ─────────────────────────────────────────────────────────────────
proof fn lemma_le_len(x: int, n: nat)
    ensures
        le(x, n).len() == n,
    decreases n,
{
    if n > 0 {
        lemma_le_len(x / 256, (n - 1) as nat);
    }
}

proof fn lemma_words_len(ws: Seq<u64>)
    ensures
        words(ws).len() == 8 * ws.len(),
    decreases ws.len(),
{
    if ws.len() > 0 {
        lemma_words_len(ws.drop_last());
        lemma_le_len(ws.last() as int, 8);
    }
}

/// Two little-endian bytes read back as the value they hold.
proof fn lemma_le16_reads(x: int)
    requires
        0 <= x < 0x1_0000,
    ensures
        le16(le(x, 2), 0) == x,
{
    reveal_with_fuel(le, 3);
    lemma_le_len(x, 2);
    let s = le(x, 2);
    assert(s[0] == (x % 256) as u8);
    assert(s[1] == ((x / 256) % 256) as u8);
}

/// Four little-endian bytes read back as the value they hold.
proof fn lemma_le32_reads(x: int)
    requires
        0 <= x < 0x1_0000_0000,
    ensures
        le32(le(x, 4), 0) == x,
{
    reveal_with_fuel(le, 5);
    lemma_le_len(x, 4);
    let s = le(x, 4);
    assert(s[0] == (x % 256) as u8);
    assert(s[1] == ((x / 256) % 256) as u8);
    assert(s[2] == ((x / 256 / 256) % 256) as u8);
    assert(s[3] == ((x / 256 / 256 / 256) % 256) as u8);
}

/// The 32-bit value at `at` of `s`, where `s` holds `le(x, 4)` there.
pub proof fn lemma_read32(s: Seq<u8>, at: int, x: int)
    requires
        0 <= x < 0x1_0000_0000,
        0 <= at,
        at + 4 <= s.len(),
        s.subrange(at, at + 4) == le(x, 4),
    ensures
        le32(s, at) == x,
{
    lemma_le32_reads(x);
    let b = le(x, 4);
    assert forall|k: int| 0 <= k < 4 implies #[trigger] s[at + k] == b[0 + k] by {
        assert(s.subrange(at, at + 4)[k] == s[at + k]);
    }
    lemma_le32_agree_at(s, b, at, 0);
}

/// The 16-bit value at `at` of `s`, where `s` holds `le(x, 2)` there.
pub proof fn lemma_read16(s: Seq<u8>, at: int, x: int)
    requires
        0 <= x < 0x1_0000,
        0 <= at,
        at + 2 <= s.len(),
        s.subrange(at, at + 2) == le(x, 2),
    ensures
        le16(s, at) == x,
{
    lemma_le16_reads(x);
    let b = le(x, 2);
    assert(s.subrange(at, at + 2)[0] == s[at]);
    assert(s.subrange(at, at + 2)[1] == s[at + 1]);
}


// ── entries ───────────────────────────────────────────────────────────────
/// A component's vectors hold `d` numbers each.
pub open spec fn component_fits(c: Component, d: int) -> bool {
    match c {
        Component::PointMass { position, velocity, .. } => position@.len() == d && velocity@.len() == d,
        Component::Kinematic { position, velocity, .. } => position@.len() == d && velocity@.len() == d,
        Component::Anchor { position, .. } => position@.len() == d,
    }
}

/// A connection's vectors hold `d` numbers, and a spring or pin joins two
/// different components among the first `n`.
pub open spec fn connection_fits(x: Connection, d: int, n: int) -> bool {
    match x {
        Connection::Spring { from, to, .. } => from < n && to < n && from != to,
        Connection::Pin { from, to, offset, .. } => from < n && to < n && from != to && offset@.len() == d,
        Connection::Gravity { acceleration, .. } => acceleration@.len() == d,
    }
}

/// A component's type tag.
pub open spec fn component_tag(c: Component) -> int {
    match c {
        Component::PointMass { .. } => 1,
        Component::Kinematic { .. } => 2,
        Component::Anchor { .. } => 3,
    }
}

/// A connection's type tag.
pub open spec fn connection_tag(x: Connection) -> int {
    match x {
        Connection::Spring { .. } => 1,
        Connection::Pin { .. } => 2,
        Connection::Gravity { .. } => 3,
    }
}

/// A connection's endpoints as written: gravity's are the sentinel.
pub open spec fn endpoints(x: Connection) -> (int, int) {
    match x {
        Connection::Spring { from, to, .. } => (from as int, to as int),
        Connection::Pin { from, to, .. } => (from as int, to as int),
        Connection::Gravity { .. } => (0xFFFF_FFFF, 0xFFFF_FFFF),
    }
}

proof fn lemma_component_entry(c: Component, d: int, name_at: int)
    requires
        component_fits(c, d),
        0 <= name_at < 0x1_0000_0000,
    ensures
        component_entry(c, name_at).len() == component_size(c, d),
        le16(component_entry(c, name_at), 0) == component_tag(c),
        le32(component_entry(c, name_at), 4) == name_at,
{
    let e = component_entry(c, name_at);
    lemma_le_len(component_tag(c), 2);
    lemma_le_len(0, 2);
    lemma_le_len(name_at, 4);
    match c {
        Component::PointMass { mass, position, velocity, .. } => {
            lemma_le_len(mass as int, 8);
            lemma_words_len(position@);
            lemma_words_len(velocity@);
        },
        Component::Kinematic { position, velocity, .. } => {
            lemma_words_len(position@);
            lemma_words_len(velocity@);
        },
        Component::Anchor { position, .. } => {
            lemma_words_len(position@);
        },
    }
    assert(e.subrange(0, 2) =~= le(component_tag(c), 2));
    assert(e.subrange(4, 8) =~= le(name_at, 4));
    lemma_read16(e, 0, component_tag(c));
    lemma_read32(e, 4, name_at);
}

proof fn lemma_connection_entry(x: Connection, d: int, n: int, name_at: int)
    requires
        connection_fits(x, d, n),
        n <= 0x1_0000_0000,
        0 <= name_at < 0x1_0000_0000,
    ensures
        connection_entry(x, name_at).len() == connection_size(x, d),
        le16(connection_entry(x, name_at), 0) == connection_tag(x),
        le32(connection_entry(x, name_at), 4) == name_at,
        le32(connection_entry(x, name_at), 8) == endpoints(x).0,
        le32(connection_entry(x, name_at), 12) == endpoints(x).1,
{
    let e = connection_entry(x, name_at);
    let (from, to) = endpoints(x);
    lemma_le_len(connection_tag(x), 2);
    lemma_le_len(0, 2);
    lemma_le_len(name_at, 4);
    lemma_le_len(from, 4);
    lemma_le_len(to, 4);
    match x {
        Connection::Spring { stiffness, rest_length, damping, .. } => {
            lemma_le_len(stiffness as int, 8);
            lemma_le_len(rest_length as int, 8);
            lemma_le_len(damping as int, 8);
        },
        Connection::Pin { offset, .. } => {
            lemma_words_len(offset@);
        },
        Connection::Gravity { acceleration, .. } => {
            lemma_words_len(acceleration@);
        },
    }
    assert(e.subrange(0, 2) =~= le(connection_tag(x), 2));
    assert(e.subrange(4, 8) =~= le(name_at, 4));
    assert(e.subrange(8, 12) =~= le(from, 4));
    assert(e.subrange(12, 16) =~= le(to, 4));
    lemma_read16(e, 0, connection_tag(x));
    lemma_read32(e, 4, name_at);
    lemma_read32(e, 8, from);
    lemma_read32(e, 12, to);
}


// ── tables ────────────────────────────────────────────────────────────────
proof fn lemma_component_table(cs: Seq<Component>, names: Seq<Seq<u8>>, nt: int, d: int, k: int)
    requires
        0 <= k <= cs.len(),
        0 <= d,
        forall|i: int| 0 <= i < k ==> component_fits(#[trigger] cs[i], d),
        forall|i: int| 0 <= i < k ==> 0 <= nt + #[trigger] name_offset(names, i) < 0x1_0000_0000,
    ensures
        component_table(cs, names, nt, k).len() == components_size(cs, d, k),
        forall|i: int|
            0 <= i < k ==> component_table(cs, names, nt, k).subrange(
                components_size(cs, d, i),
                #[trigger] components_size(cs, d, i + 1),
            ) == component_entry(cs[i], nt + name_offset(names, i)),
    decreases k,
{
    if k > 0 {
        lemma_component_table(cs, names, nt, d, k - 1);
        let t = component_table(cs, names, nt, k - 1);
        let e = component_entry(cs[k - 1], nt + name_offset(names, k - 1));
        assert(component_fits(cs[k - 1], d));
        assert(0 <= nt + name_offset(names, k - 1) < 0x1_0000_0000);
        lemma_component_entry(cs[k - 1], d, nt + name_offset(names, k - 1));
        assert(component_table(cs, names, nt, k) == t + e);
        assert forall|i: int| 0 <= i < k implies (t + e).subrange(
            components_size(cs, d, i),
            #[trigger] components_size(cs, d, i + 1),
        ) == component_entry(cs[i], nt + name_offset(names, i)) by {
            if i < k - 1 {
                crate::world::compiler::lemma_components_size_monotone(cs, d, i + 1, k - 1);
                crate::world::compiler::lemma_components_size_monotone(cs, d, i, i + 1);
                crate::world::compiler::lemma_components_size_monotone(cs, d, 0, i);
                assert((t + e).subrange(components_size(cs, d, i), components_size(cs, d, i + 1)) =~= t.subrange(
                    components_size(cs, d, i),
                    components_size(cs, d, i + 1),
                ));
            } else {
                assert((t + e).subrange(components_size(cs, d, i), components_size(cs, d, i + 1)) =~= e);
            }
        }
    }
}

/// Where connection `j`'s name stands: after the components' names and the
/// named connections before it; 0 when it has none.
pub open spec fn connection_name_at(xs: Seq<Connection>, names: Seq<Seq<u8>>, nt: int, first: int, j: int) -> int {
    if crate::world::compiler::connection_name(xs[j]) is Some {
        nt + name_offset(names, first + crate::world::compiler::named_before(xs, j))
    } else {
        0
    }
}

proof fn lemma_connection_table(
    xs: Seq<Connection>,
    names: Seq<Seq<u8>>,
    nt: int,
    first: int,
    d: int,
    n: int,
    k: int,
)
    requires
        0 <= k <= xs.len(),
        0 <= d,
        n <= 0x1_0000_0000,
        forall|j: int| 0 <= j < k ==> connection_fits(#[trigger] xs[j], d, n),
        forall|j: int| 0 <= j < k ==> 0 <= #[trigger] connection_name_at(xs, names, nt, first, j) < 0x1_0000_0000,
    ensures
        connection_table(xs, names, nt, first, k).len() == connections_size(xs, d, k),
        forall|j: int|
            0 <= j < k ==> connection_table(xs, names, nt, first, k).subrange(
                connections_size(xs, d, j),
                #[trigger] connections_size(xs, d, j + 1),
            ) == connection_entry(xs[j], connection_name_at(xs, names, nt, first, j)),
    decreases k,
{
    if k > 0 {
        lemma_connection_table(xs, names, nt, first, d, n, k - 1);
        let t = connection_table(xs, names, nt, first, k - 1);
        let at = connection_name_at(xs, names, nt, first, k - 1);
        let e = connection_entry(xs[k - 1], at);
        assert(connection_fits(xs[k - 1], d, n));
        assert(0 <= at < 0x1_0000_0000);
        lemma_connection_entry(xs[k - 1], d, n, at);
        assert(connection_table(xs, names, nt, first, k) == t + e);
        assert forall|j: int| 0 <= j < k implies (t + e).subrange(
            connections_size(xs, d, j),
            #[trigger] connections_size(xs, d, j + 1),
        ) == connection_entry(xs[j], connection_name_at(xs, names, nt, first, j)) by {
            if j < k - 1 {
                crate::world::compiler::lemma_connections_size_monotone(xs, d, j + 1, k - 1);
                crate::world::compiler::lemma_connections_size_monotone(xs, d, j, j + 1);
                crate::world::compiler::lemma_connections_size_monotone(xs, d, 0, j);
                assert((t + e).subrange(connections_size(xs, d, j), connections_size(xs, d, j + 1)) =~= t.subrange(
                    connections_size(xs, d, j),
                    connections_size(xs, d, j + 1),
                ));
            } else {
                assert((t + e).subrange(connections_size(xs, d, j), connections_size(xs, d, j + 1)) =~= e);
            }
        }
    }
}

proof fn lemma_name_table(names: Seq<Seq<u8>>, k: int)
    requires
        0 <= k <= names.len(),
        forall|i: int| 0 <= i < k ==> (#[trigger] names[i]).len() < 0x1_0000_0000,
    ensures
        name_table(names, k).len() == name_offset(names, k),
        forall|i: int|
            0 <= i < k ==> name_table(names, k).subrange(
                #[trigger] name_offset(names, i),
                name_offset(names, i) + 4,
            ) == le(names[i].len() as int, 4),
        forall|i: int|
            0 <= i < k ==> name_table(names, k).subrange(name_offset(names, i) + 4, #[trigger] name_offset(names, i + 1))
                == names[i],
    decreases k,
{
    if k > 0 {
        lemma_name_table(names, k - 1);
        let t = name_table(names, k - 1);
        let l = le(names[k - 1].len() as int, 4);
        lemma_le_len(names[k - 1].len() as int, 4);
        let u = t + l + names[k - 1];
        assert(name_table(names, k) == u);
        assert forall|i: int| 0 <= i < k implies u.subrange(
            #[trigger] name_offset(names, i),
            name_offset(names, i) + 4,
        ) == le(names[i].len() as int, 4) by {
            if i < k - 1 {
                crate::world::compiler::lemma_name_offset_monotone(names, i + 1, k - 1);
                crate::world::compiler::lemma_name_offset_monotone(names, 0, i);
                assert(u.subrange(name_offset(names, i), name_offset(names, i) + 4) =~= t.subrange(
                    name_offset(names, i),
                    name_offset(names, i) + 4,
                ));
            } else {
                assert(u.subrange(name_offset(names, i), name_offset(names, i) + 4) =~= l);
            }
        }
        assert forall|i: int| 0 <= i < k implies u.subrange(
            name_offset(names, i) + 4,
            #[trigger] name_offset(names, i + 1),
        ) == names[i] by {
            if i < k - 1 {
                crate::world::compiler::lemma_name_offset_monotone(names, i + 1, k - 1);
                crate::world::compiler::lemma_name_offset_monotone(names, 0, i);
                assert(u.subrange(name_offset(names, i) + 4, name_offset(names, i + 1)) =~= t.subrange(
                    name_offset(names, i) + 4,
                    name_offset(names, i + 1),
                ));
            } else {
                assert(u.subrange(name_offset(names, i) + 4, name_offset(names, i + 1)) =~= names[k - 1]);
            }
        }
    }
}


// ── reading inside a slice ────────────────────────────────────────────────
/// Where `s` holds `e` from `a` on, the 16- and 32-bit values at `a + k`
/// are those of `e` at `k`.
proof fn lemma_reads_within(s: Seq<u8>, a: int, e: Seq<u8>, k: int)
    requires
        0 <= a,
        0 <= k,
        k + 4 <= e.len(),
        a + e.len() <= s.len(),
        s.subrange(a, a + e.len()) == e,
    ensures
        le16(s, a + k) == le16(e, k),
        le32(s, a + k) == le32(e, k),
{
    let w = s.subrange(a, a + e.len());
    assert(w[k] == s[a + k]);
    assert(w[k + 1] == s[a + k + 1]);
    assert(w[k + 2] == s[a + k + 2]);
    assert(w[k + 3] == s[a + k + 3]);
}

/// A slice of a slice.
proof fn lemma_subrange_within(s: Seq<u8>, a: int, b: int, t: Seq<u8>, i: int, j: int)
    requires
        0 <= a <= b <= s.len(),
        s.subrange(a, b) == t,
        0 <= i <= j <= t.len(),
    ensures
        s.subrange(a + i, a + j) == t.subrange(i, j),
{
    assert(s.subrange(a + i, a + j) =~= t.subrange(i, j)) by {
        assert forall|k: int| 0 <= k < j - i implies #[trigger] s.subrange(a + i, a + j)[k] == t.subrange(i, j)[k] by {
            assert(s.subrange(a, b)[i + k] == s[a + i + k]);
        }
    }
}

// ── sizes ─────────────────────────────────────────────────────────────────
pub(crate) proof fn lemma_components_size_floor(cs: Seq<Component>, d: int, k: int)
    requires
        0 <= k,
        0 <= d,
    ensures
        components_size(cs, d, k) >= 8 * k,
    decreases k,
{
    if k > 0 {
        lemma_components_size_floor(cs, d, k - 1);
    }
}

pub(crate) proof fn lemma_connections_size_floor(xs: Seq<Connection>, d: int, k: int)
    requires
        0 <= k,
        0 <= d,
    ensures
        connections_size(xs, d, k) >= 16 * k,
    decreases k,
{
    if k > 0 {
        lemma_connections_size_floor(xs, d, k - 1);
    }
}

pub(crate) proof fn lemma_name_offset_floor(names: Seq<Seq<u8>>, k: int)
    requires
        0 <= k,
    ensures
        name_offset(names, k) >= 4 * k,
    decreases k,
{
    if k > 0 {
        lemma_name_offset_floor(names, k - 1);
    }
}

/// The state slots the components from `i` on hold: `2d` for each one that
/// moves, none for an anchor.
pub open spec fn state_slots(cs: Seq<Component>, d: int, i: int) -> int
    decreases cs.len() - i,
{
    if i >= cs.len() || i < 0 {
        0
    } else {
        (if cs[i] is Anchor { 0 } else { 2 * d }) + state_slots(cs, d, i + 1)
    }
}

// ── the header ────────────────────────────────────────────────────────────
/// The header the emitter writes, field by field.
pub open spec fn header_bytes(dims: u8, n: int, m: int, xt: int, nt: int) -> Seq<u8> {
    seq![0x54u8, 0x4E, 0x53, 0x57, 0x4F, 0x52, 0x4C, 0x44] + le(1, 2) + le(
        crate::world::compiler::SCHEMA_VERSION as int,
        2,
    ) + seq![dims, 0u8] + le(0, 2) + le(n, 4) + le(m, 4) + le(40, 4) + le(xt, 4) + le(nt, 4) + le(0, 4)
}

proof fn lemma_header(dims: u8, n: int, m: int, xt: int, nt: int)
    requires
        0 <= n < 0x1_0000_0000,
        0 <= m < 0x1_0000_0000,
        0 <= xt < 0x1_0000_0000,
        0 <= nt < 0x1_0000_0000,
    ensures
        ({
            let h = header_bytes(dims, n, m, xt, nt);
            &&& h.len() == 40
            &&& magic_ok(h)
            &&& le16(h, 8) == 1
            &&& h[12] == dims
            &&& h[13] == 0
            &&& le16(h, 14) == 0
            &&& le32(h, 16) == n
            &&& le32(h, 20) == m
            &&& le32(h, 24) == 40
            &&& le32(h, 28) == xt
            &&& le32(h, 32) == nt
            &&& le32(h, 36) == 0
        }),
{
    let h = header_bytes(dims, n, m, xt, nt);
    lemma_le_len(1, 2);
    lemma_le_len(crate::world::compiler::SCHEMA_VERSION as int, 2);
    lemma_le_len(0, 2);
    lemma_le_len(n, 4);
    lemma_le_len(m, 4);
    lemma_le_len(40, 4);
    lemma_le_len(xt, 4);
    lemma_le_len(nt, 4);
    lemma_le_len(0, 4);
    assert(h.len() == 40);
    assert(MAGIC@ =~= seq![0x54u8, 0x4E, 0x53, 0x57, 0x4F, 0x52, 0x4C, 0x44]);
    assert(magic_ok(h));
    assert(h.subrange(8, 10) =~= le(1, 2));
    lemma_read16(h, 8, 1);
    assert(h.subrange(14, 16) =~= le(0, 2));
    lemma_read16(h, 14, 0);
    assert(h.subrange(16, 20) =~= le(n, 4));
    lemma_read32(h, 16, n);
    assert(h.subrange(20, 24) =~= le(m, 4));
    lemma_read32(h, 20, m);
    assert(h.subrange(24, 28) =~= le(40, 4));
    lemma_read32(h, 24, 40);
    assert(h.subrange(28, 32) =~= le(xt, 4));
    lemma_read32(h, 28, xt);
    assert(h.subrange(32, 36) =~= le(nt, 4));
    lemma_read32(h, 32, nt);
    assert(h.subrange(36, 40) =~= le(0, 4));
    lemma_read32(h, 36, 0);
}


// ── the walks ─────────────────────────────────────────────────────────────
/// Over entries laid down one after another from byte 40, the component
/// walk reaches the table's end with the slots of the components that
/// move, and every entry's name checks.
proof fn lemma_component_walk(s: Seq<u8>, cs: Seq<Component>, names: Seq<Seq<u8>>, nt: int, d: int, i: int)
    requires
        2 <= d <= 3,
        0 <= i <= cs.len(),
        40 + components_size(cs, d, cs.len() as int) <= s.len(),
        forall|k: int| 0 <= k < cs.len() ==> component_fits(#[trigger] cs[k], d),
        forall|k: int|
            0 <= k < cs.len() ==> s.subrange(
                40 + components_size(cs, d, k),
                40 + #[trigger] components_size(cs, d, k + 1),
            ) == component_entry(cs[k], nt + name_offset(names, k)),
        forall|k: int| 0 <= k < cs.len() ==> 0 < nt + #[trigger] name_offset(names, k) < 0x1_0000_0000,
        forall|k: int| 0 <= k < cs.len() ==> name_ok(s, nt, nt + #[trigger] name_offset(names, k)),
    ensures
        component_walk(s, d, 40 + components_size(cs, d, cs.len() as int), cs.len() as int, i, 40 + components_size(cs, d, i))
            == Ok::<(int, int), WorldError>((40 + components_size(cs, d, cs.len() as int), state_slots(cs, d, i))),
        component_names_ok(s, d, nt, cs.len() as int, i, 40 + components_size(cs, d, i)),
        0 <= state_slots(cs, d, i) <= components_size(cs, d, cs.len() as int) - components_size(cs, d, i),
    decreases cs.len() - i,
{
    if i < cs.len() {
        lemma_component_walk(s, cs, names, nt, d, i + 1);
        let off = 40 + components_size(cs, d, i);
        let at = nt + name_offset(names, i);
        let e = component_entry(cs[i], at);
        assert(component_fits(cs[i], d));
        assert(0 < at < 0x1_0000_0000);
        lemma_component_entry(cs[i], d, at);
        lemma_components_size_monotone(cs, d, i + 1, cs.len() as int);
        lemma_components_size_monotone(cs, d, 0, i);
        assert(s.subrange(off, 40 + components_size(cs, d, i + 1)) == e);
        lemma_reads_within(s, off, e, 0);
        lemma_reads_within(s, off, e, 4);
        assert(name_ok(s, nt, at));
        let tag = le16(s, off) as u16;
        assert(component_size_spec(tag, d) == Some(component_size(cs[i], d)));
    }
}

/// Over entries laid down one after another from `xt`, the connection walk
/// reaches `end`, and every entry's name checks.
#[verifier::rlimit(40)]
#[verifier::spinoff_prover]
proof fn lemma_connection_walk(
    s: Seq<u8>,
    xs: Seq<Connection>,
    names: Seq<Seq<u8>>,
    nt: int,
    first: int,
    d: int,
    n: int,
    xt: int,
    j: int,
)
    requires
        2 <= d <= 3,
        0 <= j <= xs.len(),
        0 <= n <= 0x1_0000_0000,
        0 <= xt,
        xt + connections_size(xs, d, xs.len() as int) <= s.len(),
        forall|k: int| 0 <= k < xs.len() ==> connection_fits(#[trigger] xs[k], d, n),
        forall|k: int|
            0 <= k < xs.len() ==> s.subrange(
                xt + connections_size(xs, d, k),
                xt + #[trigger] connections_size(xs, d, k + 1),
            ) == connection_entry(xs[k], connection_name_at(xs, names, nt, first, k)),
        forall|k: int|
            0 <= k < xs.len() ==> 0 <= #[trigger] connection_name_at(xs, names, nt, first, k) < 0x1_0000_0000,
        forall|k: int| 0 <= k < xs.len() ==> name_ok(s, nt, #[trigger] connection_name_at(xs, names, nt, first, k)),
    ensures
        connection_walk(
            s,
            d,
            xt + connections_size(xs, d, xs.len() as int),
            xs.len() as int,
            n,
            j,
            xt + connections_size(xs, d, j),
        ) == Ok::<int, WorldError>(xt + connections_size(xs, d, xs.len() as int)),
        connection_names_ok(s, d, nt, xs.len() as int, j, xt + connections_size(xs, d, j)),
    decreases xs.len() - j,
{
    if j < xs.len() {
        lemma_connection_walk(s, xs, names, nt, first, d, n, xt, j + 1);
        let off = xt + connections_size(xs, d, j);
        let at = connection_name_at(xs, names, nt, first, j);
        let e = connection_entry(xs[j], at);
        assert(connection_fits(xs[j], d, n));
        assert(0 <= at < 0x1_0000_0000);
        lemma_connection_entry(xs[j], d, n, at);
        lemma_connections_size_monotone(xs, d, j + 1, xs.len() as int);
        lemma_connections_size_monotone(xs, d, 0, j);
        assert(s.subrange(off, xt + connections_size(xs, d, j + 1)) == e);
        lemma_reads_within(s, off, e, 0);
        lemma_reads_within(s, off, e, 4);
        lemma_reads_within(s, off, e, 8);
        lemma_reads_within(s, off, e, 12);
        assert(name_ok(s, nt, at));
        let tag = le16(s, off) as u16;
        assert(connection_size_spec(tag, d) == Some(connection_size(xs[j], d)));
    }
}


/// Over a name table laid down from `nt` to the end of `s`, the name walk
/// from entry `i` succeeds, and every entry from `i` on is a well-formed name.
proof fn lemma_names_walk(s: Seq<u8>, names: Seq<Seq<u8>>, nt: int, i: int)
    requires
        0 < nt,
        0 <= i <= names.len(),
        s.len() == nt + name_offset(names, names.len() as int),
        forall|k: int| 0 <= k < names.len() ==> valid_utf8(#[trigger] names[k]),
        forall|k: int| 0 <= k < names.len() ==> (#[trigger] names[k]).len() < 0x1_0000_0000,
        forall|k: int|
            0 <= k < names.len() ==> s.subrange(nt + #[trigger] name_offset(names, k), nt + name_offset(names, k) + 4)
                == le(names[k].len() as int, 4),
        forall|k: int|
            0 <= k < names.len() ==> s.subrange(nt + name_offset(names, k) + 4, nt + #[trigger] name_offset(names, k + 1))
                == names[k],
    ensures
        names_walk(s, nt + name_offset(names, i)) == Ok::<(), WorldError>(()),
        forall|k: int| i <= k < names.len() ==> name_ok(s, nt, nt + #[trigger] name_offset(names, k)),
    decreases names.len() - i,
{
    if i < names.len() {
        lemma_names_walk(s, names, nt, i + 1);
        let off = nt + name_offset(names, i);
        crate::world::compiler::lemma_name_offset_monotone(names, i + 1, names.len() as int);
        crate::world::compiler::lemma_name_offset_monotone(names, 0, i);
        assert(names[i].len() < 0x1_0000_0000);
        assert(s.subrange(off, off + 4) == le(names[i].len() as int, 4));
        lemma_read32(s, off, names[i].len() as int);
        assert(s.subrange(off + 4, nt + name_offset(names, i + 1)) == names[i]);
        assert(valid_utf8(names[i]));
        assert(name_ok(s, nt, off));
    }
}


// ── names ─────────────────────────────────────────────────────────────────
proof fn lemma_connection_names_valid(xs: Seq<Connection>, k: int)
    ensures
        forall|i: int| 0 <= i < connection_names(xs, k).len() ==> valid_utf8(#[trigger] connection_names(xs, k)[i]),
    decreases k,
{
    if k > 0 {
        lemma_connection_names_valid(xs, k - 1);
        match connection_name(xs[k - 1]) {
            Some(n) => {
                vstd::utf8::encode_utf8_valid_utf8(n@);
                let prev = connection_names(xs, k - 1);
                assert(connection_names(xs, k) == prev.push(crate::world::compiler::text_bytes(n)));
                assert forall|i: int| 0 <= i < connection_names(xs, k).len() implies valid_utf8(
                    #[trigger] connection_names(xs, k)[i],
                ) by {
                    if i < prev.len() {
                        assert(valid_utf8(prev[i]));
                    }
                }
            },
            None => {
                assert(connection_names(xs, k) == connection_names(xs, k - 1));
            },
        }
    }
}

/// Every name the emitter stores is UTF-8.
proof fn lemma_world_names_valid(cs: Seq<Component>, xs: Seq<Connection>)
    ensures
        forall|i: int| 0 <= i < world_names(cs, xs).len() ==> valid_utf8(#[trigger] world_names(cs, xs)[i]),
{
    let names = world_names(cs, xs);
    let n = cs.len() as int;
    lemma_connection_names_valid(xs, xs.len() as int);
    assert forall|i: int| 0 <= i < names.len() implies valid_utf8(#[trigger] names[i]) by {
        if i < n {
            vstd::utf8::encode_utf8_valid_utf8(component_name(cs[i])@);
        } else {
            assert(names[i] == connection_names(xs, xs.len() as int)[i - n]);
        }
    }
}

/// A named connection's name is among the connection names.
proof fn lemma_named_index(xs: Seq<Connection>, j: int)
    requires
        0 <= j < xs.len(),
        connection_name(xs[j]) is Some,
    ensures
        named_before(xs, j) < named_before(xs, xs.len() as int),
{
    assert(named_before(xs, j + 1) == named_before(xs, j) + 1);
    crate::world::compiler::lemma_connection_names_prefix(xs, j + 1, xs.len() as int);
}

/// Each name's length fits its 32-bit field.
proof fn lemma_name_lengths(names: Seq<Seq<u8>>)
    requires
        name_offset(names, names.len() as int) < 0x1_0000_0000,
    ensures
        forall|k: int| 0 <= k < names.len() ==> (#[trigger] names[k]).len() < 0x1_0000_0000,
        forall|k: int| 0 <= k <= names.len() ==> 0 <= #[trigger] name_offset(names, k) < 0x1_0000_0000,
{
    assert forall|k: int| 0 <= k <= names.len() implies 0 <= #[trigger] name_offset(names, k) < 0x1_0000_0000 by {
        crate::world::compiler::lemma_name_offset_monotone(names, k, names.len() as int);
        crate::world::compiler::lemma_name_offset_monotone(names, 0, k);
    }
    assert forall|k: int| 0 <= k < names.len() implies (#[trigger] names[k]).len() < 0x1_0000_0000 by {
        crate::world::compiler::lemma_name_offset_monotone(names, k + 1, names.len() as int);
        crate::world::compiler::lemma_name_offset_monotone(names, 0, k);
    }
}


// ── the law ───────────────────────────────────────────────────────────────
/// A world the format can hold: 2 or 3 dimensions, every offset within its
/// 32-bit field, every vector `dimensions` long, and every spring and pin
/// joining two different components of the world.
pub open spec fn well_formed(w: &ParsedWorld) -> bool {
    let d = w.dimensions as int;
    let cs = w.components@;
    let xs = w.connections@;
    &&& (w.dimensions == 2 || w.dimensions == 3)
    &&& fits_offsets(w)
    &&& forall|i: int| 0 <= i < cs.len() ==> component_fits(#[trigger] cs[i], d)
    &&& forall|j: int| 0 <= j < xs.len() ==> connection_fits(#[trigger] xs[j], d, cs.len() as int)
}

/// The shape a reader should find in a world's emitted bytes.
pub open spec fn emitted_shape(w: &ParsedWorld) -> WorldShape {
    let d = w.dimensions as int;
    let cs = w.components@;
    let xs = w.connections@;
    let xt = 40 + components_size(cs, d, cs.len() as int);
    let end = xt + connections_size(xs, d, xs.len() as int);
    WorldShape {
        dimensions: w.dimensions,
        dim: state_slots(cs, d, 0) as u32,
        component_count: cs.len() as u32,
        connection_count: xs.len() as u32,
        component_table: 40,
        connection_table: xt,
        name_table: if world_names(cs, xs).len() == 0 { 0 } else { end },
    }
}

/// What the emitter writes for a well-formed world, the reader accepts,
/// and finds there the world's dimensions, its component and connection
/// counts, its tables where the emitter put them, and a state vector of
/// `2 * dimensions` slots for every component that is not an anchor.
#[verifier::rlimit(60)]
#[verifier::spinoff_prover]
pub proof fn lemma_emitted_world_loads(w: &ParsedWorld)
    requires
        well_formed(w),
    ensures
        load_spec(emitted(w)) == Ok::<WorldShape, WorldError>(emitted_shape(w)),
        emitted_shape(w).dim as int == state_slots(w.components@, w.dimensions as int, 0),
{
    let d = w.dimensions as int;
    let cs = w.components@;
    let xs = w.connections@;
    let names = world_names(cs, xs);
    let n = cs.len() as int;
    let m = xs.len() as int;
    let csz = components_size(cs, d, n);
    let xsz = connections_size(xs, d, m);
    let nsz = name_offset(names, names.len() as int);
    let xt = 40 + csz;
    let end = xt + xsz;
    let nt = if names.len() == 0 { 0 } else { end };
    lemma_components_size_floor(cs, d, n);
    lemma_connections_size_floor(xs, d, m);
    lemma_name_offset_floor(names, names.len() as int);
    lemma_components_size_monotone(cs, d, 0, n);
    lemma_connections_size_monotone(xs, d, 0, m);
    assert(40 + csz + xsz + nsz <= u32::MAX);
    lemma_name_lengths(names);
    lemma_world_names_valid(cs, xs);
    assert(names.len() == n + named_before(xs, m));

    let h = header_bytes(w.dimensions, n, m, xt, nt);
    lemma_header(w.dimensions, n, m, xt, nt);
    assert forall|i: int| 0 <= i < n implies 0 <= nt + #[trigger] name_offset(names, i) < 0x1_0000_0000 by {
        assert(0 <= name_offset(names, i) < 0x1_0000_0000);
        crate::world::compiler::lemma_name_offset_monotone(names, i, names.len() as int);
    }
    lemma_component_table(cs, names, nt, d, n);
    assert forall|j: int| 0 <= j < m implies 0 <= #[trigger] connection_name_at(xs, names, nt, n, j) < 0x1_0000_0000 by {
        if connection_name(xs[j]) is Some {
            lemma_named_index(xs, j);
            let k = n + named_before(xs, j);
            assert(0 <= name_offset(names, k) < 0x1_0000_0000);
            crate::world::compiler::lemma_name_offset_monotone(names, k, names.len() as int);
        }
    }
    lemma_connection_table(xs, names, nt, n, d, n, m);
    lemma_name_table(names, names.len() as int);
    let ct = component_table(cs, names, nt, n);
    let xtab = connection_table(xs, names, nt, n, m);
    let ntab = name_table(names, names.len() as int);
    let s = emitted(w);
    assert(s == h + ct + xtab + ntab);
    assert(s.len() == end + nsz);
    assert(s.subrange(0, 40) =~= h);
    assert(s.subrange(40, xt) =~= ct);
    assert(s.subrange(xt, end) =~= xtab);
    assert(s.subrange(end, s.len() as int) =~= ntab);

    // the header
    assert forall|i: int| 0 <= i < 40 implies #[trigger] s[i] == h[i] by {
        assert(s.subrange(0, 40)[i] == s[i]);
    }
    assert(magic_ok(s));
    lemma_reads_within(s, 0, h, 8);
    lemma_reads_within(s, 0, h, 14);
    lemma_reads_within(s, 0, h, 16);
    lemma_reads_within(s, 0, h, 20);
    lemma_reads_within(s, 0, h, 24);
    lemma_reads_within(s, 0, h, 28);
    lemma_reads_within(s, 0, h, 32);
    lemma_reads_within(s, 0, h, 36);
    assert(s[12] == w.dimensions);
    assert(s[13] == 0);

    // the entries, where the tables put them
    assert forall|k: int| 0 <= k < n implies s.subrange(
        40 + components_size(cs, d, k),
        40 + #[trigger] components_size(cs, d, k + 1),
    ) == component_entry(cs[k], nt + name_offset(names, k)) by {
        lemma_components_size_monotone(cs, d, 0, k);
        lemma_components_size_monotone(cs, d, k, k + 1);
        lemma_components_size_monotone(cs, d, k + 1, n);
        lemma_subrange_within(s, 40, xt, ct, components_size(cs, d, k), components_size(cs, d, k + 1));
    }
    assert forall|k: int| 0 <= k < m implies s.subrange(
        xt + connections_size(xs, d, k),
        xt + #[trigger] connections_size(xs, d, k + 1),
    ) == connection_entry(xs[k], connection_name_at(xs, names, nt, n, k)) by {
        lemma_connections_size_monotone(xs, d, 0, k);
        lemma_connections_size_monotone(xs, d, k, k + 1);
        lemma_connections_size_monotone(xs, d, k + 1, m);
        lemma_subrange_within(s, xt, end, xtab, connections_size(xs, d, k), connections_size(xs, d, k + 1));
    }

    // the names
    if names.len() > 0 {
        assert forall|k: int| 0 <= k < names.len() implies s.subrange(
            nt + #[trigger] name_offset(names, k),
            nt + name_offset(names, k) + 4,
        ) == le(names[k].len() as int, 4) by {
            crate::world::compiler::lemma_name_offset_monotone(names, k + 1, names.len() as int);
            lemma_subrange_within(s, end, s.len() as int, ntab, name_offset(names, k), name_offset(names, k) + 4);
        }
        assert forall|k: int| 0 <= k < names.len() implies s.subrange(
            nt + name_offset(names, k) + 4,
            nt + #[trigger] name_offset(names, k + 1),
        ) == names[k] by {
            crate::world::compiler::lemma_name_offset_monotone(names, k + 1, names.len() as int);
            lemma_subrange_within(s, end, s.len() as int, ntab, name_offset(names, k) + 4, name_offset(names, k + 1));
        }
        lemma_names_walk(s, names, nt, 0);
    }
    assert forall|k: int| 0 <= k < n implies name_ok(s, nt, nt + #[trigger] name_offset(names, k)) by {
        assert(names.len() > 0);
    }
    assert forall|j: int| 0 <= j < m implies name_ok(s, nt, #[trigger] connection_name_at(xs, names, nt, n, j)) by {
        if connection_name(xs[j]) is Some {
            lemma_named_index(xs, j);
            assert(name_ok(s, nt, nt + name_offset(names, n + named_before(xs, j))));
        }
    }
    assert forall|k: int| 0 <= k < n implies 0 < nt + #[trigger] name_offset(names, k) < 0x1_0000_0000 by {
        assert(names.len() > 0);
        assert(0 <= name_offset(names, k));
        crate::world::compiler::lemma_name_offset_monotone(names, k, names.len() as int);
    }

    // the walks
    lemma_component_walk(s, cs, names, nt, d, 0);
    lemma_connection_walk(s, xs, names, nt, n, d, n, xt, 0);
}

// ── 64-bit fields ─────────────────────────────────────────────────────────
/// Four little-endian bytes of any `x` read back as `x` modulo 2^32.
proof fn lemma_le32_reads_low(x: int)
    requires
        0 <= x,
    ensures
        le32(le(x, 4), 0) == x % 0x1_0000_0000,
{
    reveal_with_fuel(le, 5);
    lemma_le_len(x, 4);
    let s = le(x, 4);
    let x1 = x / 256;
    let x2 = x1 / 256;
    let x3 = x2 / 256;
    assert(s[0] == (x % 256) as u8);
    assert(s[1] == (x1 % 256) as u8);
    assert(s[2] == (x2 % 256) as u8);
    assert(s[3] == (x3 % 256) as u8);
    vstd::arithmetic::div_mod::lemma_mod_breakdown(x, 256, 0x100_0000);
    vstd::arithmetic::div_mod::lemma_mod_breakdown(x1, 256, 0x1_0000);
    vstd::arithmetic::div_mod::lemma_mod_breakdown(x2, 256, 256);
    assert(0x1_0000_0000int == 256 * 0x100_0000int);
    assert(0x100_0000int == 256 * 0x1_0000int);
    assert(0x1_0000int == 256 * 256int);
}

/// Eight little-endian bytes are the low four, then the next four.
proof fn lemma_le8_halves(x: int)
    requires
        0 <= x,
    ensures
        le(x, 8) == le(x, 4) + le(x / 0x1_0000_0000, 4),
{
    reveal_with_fuel(le, 5);
    let x4 = x / 256 / 256 / 256 / 256;
    vstd::arithmetic::div_mod::lemma_div_denominator(x, 256, 256);
    vstd::arithmetic::div_mod::lemma_div_denominator(x, 0x1_0000int, 256);
    vstd::arithmetic::div_mod::lemma_div_denominator(x, 0x100_0000int, 256);
    assert(x4 == x / 0x1_0000_0000);
    assert(le(x / 256 / 256 / 256 / 256, 4) == le(x4, 4));
    assert(le(x, 8) =~= le(x, 4) + le(x / 0x1_0000_0000, 4));
}

/// Eight little-endian bytes read back as the value they hold.
proof fn lemma_le64_reads(x: int)
    requires
        0 <= x < 0x1_0000_0000_0000_0000,
    ensures
        crate::bytes::le64(le(x, 8), 0) == x,
{
    lemma_le8_halves(x);
    lemma_le_len(x, 4);
    let hi = x / 0x1_0000_0000;
    lemma_le_len(hi, 4);
    let s = le(x, 8);
    lemma_le32_reads_low(x);
    lemma_le32_reads_low(hi);
    let a = le(x, 4);
    let b = le(hi, 4);
    assert forall|k: int| 0 <= k < 4 implies #[trigger] s[4 + k] == b[0 + k] by {}
    lemma_le32_agree_at(s, b, 4, 0);
    assert forall|k: int| 0 <= k < 4 implies #[trigger] s[0 + k] == a[0 + k] by {}
    lemma_le32_agree_at(s, a, 0, 0);
    assert(hi < 0x1_0000_0000) by {
        vstd::arithmetic::div_mod::lemma_div_is_ordered(x, 0x1_0000_0000_0000_0000 - 1, 0x1_0000_0000);
    }
    vstd::arithmetic::div_mod::lemma_fundamental_div_mod(x, 0x1_0000_0000);
    assert(hi % 0x1_0000_0000 == hi);
}

/// The 64-bit value at `at` of `s`, where `s` holds `le(x, 8)` there.
proof fn lemma_read64(s: Seq<u8>, at: int, x: int)
    requires
        0 <= x < 0x1_0000_0000_0000_0000,
        0 <= at,
        at + 8 <= s.len(),
        s.subrange(at, at + 8) == le(x, 8),
    ensures
        crate::bytes::le64(s, at) == x,
{
    lemma_le64_reads(x);
    let b = le(x, 8);
    assert forall|k: int| 0 <= k < 8 implies #[trigger] s[at + k] == b[0 + k] by {
        assert(s.subrange(at, at + 8)[k] == s[at + k]);
    }
    assert forall|k: int| 0 <= k < 4 implies #[trigger] s[(at + 4) + k] == b[4 + k] by {
        assert(s[at + (4 + k)] == b[0 + (4 + k)]);
    }
    lemma_le32_agree_at(s, b, at, 0);
    lemma_le32_agree_at(s, b, at + 4, 4);
}

// ── the spring law ────────────────────────────────────────────────────────
/// Where the emitter puts connection `k` of a well-formed world: the
/// entry's bytes, after the header and the component table.
proof fn lemma_emitted_connection(w: &ParsedWorld, k: int)
    requires
        well_formed(w),
        0 <= k < w.connections@.len(),
    ensures
        ({
            let d = w.dimensions as int;
            let cs = w.components@;
            let xs = w.connections@;
            let names = world_names(cs, xs);
            let n = cs.len() as int;
            let xt = 40 + components_size(cs, d, n);
            let nt = if names.len() == 0 { 0 } else { xt + connections_size(xs, d, xs.len() as int) };
            let at = connection_name_at(xs, names, nt, n, k);
            &&& 0 <= at < 0x1_0000_0000
            &&& 0 <= xt + connections_size(xs, d, k)
            &&& xt + connections_size(xs, d, k + 1) <= emitted(w).len()
            &&& emitted(w).subrange(xt + connections_size(xs, d, k), xt + connections_size(xs, d, k + 1))
                == connection_entry(xs[k], at)
        }),
{
    let d = w.dimensions as int;
    let cs = w.components@;
    let xs = w.connections@;
    let names = world_names(cs, xs);
    let n = cs.len() as int;
    let m = xs.len() as int;
    let csz = components_size(cs, d, n);
    let xsz = connections_size(xs, d, m);
    let xt = 40 + csz;
    let end = xt + xsz;
    let nt = if names.len() == 0 { 0 } else { end };
    lemma_components_size_floor(cs, d, n);
    lemma_connections_size_floor(xs, d, m);
    lemma_name_offset_floor(names, names.len() as int);
    lemma_components_size_monotone(cs, d, 0, n);
    lemma_connections_size_monotone(xs, d, 0, m);
    lemma_name_lengths(names);
    assert(names.len() == n + named_before(xs, m));
    let h = header_bytes(w.dimensions, n, m, xt, nt);
    lemma_header(w.dimensions, n, m, xt, nt);
    assert forall|i: int| 0 <= i < n implies 0 <= nt + #[trigger] name_offset(names, i) < 0x1_0000_0000 by {
        assert(0 <= name_offset(names, i) < 0x1_0000_0000);
        crate::world::compiler::lemma_name_offset_monotone(names, i, names.len() as int);
    }
    lemma_component_table(cs, names, nt, d, n);
    assert forall|j: int| 0 <= j < m implies 0 <= #[trigger] connection_name_at(xs, names, nt, n, j) < 0x1_0000_0000 by {
        if connection_name(xs[j]) is Some {
            lemma_named_index(xs, j);
            let i = n + named_before(xs, j);
            assert(0 <= name_offset(names, i) < 0x1_0000_0000);
            crate::world::compiler::lemma_name_offset_monotone(names, i, names.len() as int);
        }
    }
    lemma_connection_table(xs, names, nt, n, d, n, m);
    lemma_name_table(names, names.len() as int);
    let ct = component_table(cs, names, nt, n);
    let xtab = connection_table(xs, names, nt, n, m);
    let ntab = name_table(names, names.len() as int);
    let s = emitted(w);
    assert(s == h + ct + xtab + ntab);
    assert(s.subrange(xt, end) =~= xtab);
    lemma_connections_size_monotone(xs, d, 0, k);
    lemma_connections_size_monotone(xs, d, k, k + 1);
    lemma_connections_size_monotone(xs, d, k + 1, m);
    lemma_subrange_within(s, xt, end, xtab, connections_size(xs, d, k), connections_size(xs, d, k + 1));
}

/// Every spring the emitter writes holds its own numbers where the format
/// puts them: its entry starts at the connection table's offset plus the
/// sizes of the connections before it, and holds tag 1, then its endpoints
/// at +8 and +12, its stiffness at +16, its rest length at +24 and its
/// damping at +32, each as the bits the world gave it.
#[verifier::rlimit(60)]
#[verifier::spinoff_prover]
pub proof fn lemma_spring_fields(w: &ParsedWorld, k: int)
    requires
        well_formed(w),
        0 <= k < w.connections@.len(),
        w.connections@[k] is Spring,
    ensures
        ({
            let s = emitted(w);
            let d = w.dimensions as int;
            let cs = w.components@;
            let xs = w.connections@;
            let o = 40 + components_size(cs, d, cs.len() as int) + connections_size(xs, d, k);
            match xs[k] {
                Connection::Spring { from, to, stiffness, rest_length, damping, .. } => {
                    &&& le16(s, o) == 1
                    &&& le32(s, o + 8) == from
                    &&& le32(s, o + 12) == to
                    &&& crate::bytes::le64(s, o + 16) == stiffness
                    &&& crate::bytes::le64(s, o + 24) == rest_length
                    &&& crate::bytes::le64(s, o + 32) == damping
                },
                _ => true,
            }
        }),
{
    lemma_emitted_connection(w, k);
    let s = emitted(w);
    let d = w.dimensions as int;
    let cs = w.components@;
    let xs = w.connections@;
    let names = world_names(cs, xs);
    let n = cs.len() as int;
    let xt = 40 + components_size(cs, d, n);
    let nt = if names.len() == 0 { 0 } else { xt + connections_size(xs, d, xs.len() as int) };
    let at = connection_name_at(xs, names, nt, n, k);
    let o = xt + connections_size(xs, d, k);
    let e = connection_entry(xs[k], at);
    lemma_components_size_floor(cs, d, n);
    lemma_connections_size_floor(xs, d, xs.len() as int);
    lemma_name_offset_floor(names, names.len() as int);
    assert(n <= 0x1_0000_0000);
    assert(connection_fits(xs[k], d, n));
    lemma_connection_entry(xs[k], d, n, at);
    if let Connection::Spring { from, to, stiffness, rest_length, damping, .. } = xs[k] {
        lemma_le_len(1, 2);
        lemma_le_len(0, 2);
        lemma_le_len(at, 4);
        lemma_le_len(from as int, 4);
        lemma_le_len(to as int, 4);
        lemma_le_len(stiffness as int, 8);
        lemma_le_len(rest_length as int, 8);
        lemma_le_len(damping as int, 8);
        assert(e.subrange(16, 24) =~= le(stiffness as int, 8));
        assert(e.subrange(24, 32) =~= le(rest_length as int, 8));
        assert(e.subrange(32, 40) =~= le(damping as int, 8));
        lemma_read64(e, 16, stiffness as int);
        lemma_read64(e, 24, rest_length as int);
        lemma_read64(e, 32, damping as int);
        lemma_reads_within(s, o, e, 0);
        lemma_reads_within(s, o, e, 8);
        lemma_reads_within(s, o, e, 12);
        lemma_reads64_within(s, o, e, 16);
        lemma_reads64_within(s, o, e, 24);
        lemma_reads64_within(s, o, e, 32);
    }
}

/// Where `s` holds `e` from `a` on, the 64-bit value at `a + k` is that of
/// `e` at `k`.
proof fn lemma_reads64_within(s: Seq<u8>, a: int, e: Seq<u8>, k: int)
    requires
        0 <= a,
        0 <= k,
        k + 8 <= e.len(),
        a + e.len() <= s.len(),
        s.subrange(a, a + e.len()) == e,
    ensures
        crate::bytes::le64(s, a + k) == crate::bytes::le64(e, k),
{
    lemma_reads_within(s, a, e, k);
    lemma_reads_within(s, a, e, k + 4);
}

} // verus!
