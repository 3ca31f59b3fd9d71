//! The world compiler's vocabulary and its emitter: the compiled-in type
//! catalog the author's YAML is validated against, and the writer of the
//! binary world format.
//!
//! A world's numbers are carried as the IEEE-754 bit patterns of the `f64`s
//! the author wrote: the emitter writes them, little-endian, and never
//! interprets them.

use vstd::prelude::*;

use vstd::utf8::encode_utf8;

verus! {

/// The schema version this compiler implements, carried as the compiled
/// bytes' `schema_version`.
pub const SCHEMA_VERSION: u16 = 1;

/// The shape the compiler enforces for one field.
#[derive(Copy, Clone, Debug, PartialEq, Eq, Structural)]
pub enum FieldShape {
    /// A number strictly greater than 0 (`mass`, `stiffness`).
    Positive,
    /// A number greater than or equal to 0 (`rest_length`, `damping`);
    /// optional ones default to 0.
    NonNegative,
    /// A `dimensions`-long list of numbers; optional ones default to all
    /// zeros.
    Vec,
    /// A component name (`from`, `to`).
    ComponentRef,
}

/// One field of a compiled-in type.
#[derive(Copy, Clone, Debug, PartialEq, Eq)]
pub struct FieldSpec {
    pub name: &'static str,
    pub required: bool,
    pub shape: FieldShape,
}

/// One compiled-in type: its name and its fields, in declaration order.
#[derive(Clone, Debug, PartialEq, Eq)]
pub struct TypeSpec {
    pub name: &'static str,
    pub fields: Vec<FieldSpec>,
}

/// Where a reserved name is expected to land when it is implemented.
#[derive(Copy, Clone, Debug, PartialEq, Eq, Structural)]
pub enum ReservedKind {
    Component,
    Connection,
}

/// A name the schema reserves but v1 does not implement.
#[derive(Copy, Clone, Debug, PartialEq, Eq)]
pub struct ReservedSpec {
    pub name: &'static str,
    pub kind: ReservedKind,
}

fn field(name: &'static str, required: bool, shape: FieldShape) -> (f: FieldSpec)
    ensures
        f == (FieldSpec { name, required, shape }),
{
    FieldSpec { name, required, shape }
}

/// The component catalog's type names, in schema order.
pub open spec fn component_type_name(k: int) -> &'static str {
    if k == 0 {
        "point_mass"
    } else if k == 1 {
        "kinematic"
    } else {
        "anchor"
    }
}

/// The component catalog's fields, per type.
pub open spec fn component_fields(k: int) -> Seq<FieldSpec> {
    if k == 0 {
        seq![
            FieldSpec { name: "mass", required: true, shape: FieldShape::Positive },
            FieldSpec { name: "position", required: false, shape: FieldShape::Vec },
            FieldSpec { name: "velocity", required: false, shape: FieldShape::Vec },
        ]
    } else if k == 1 {
        seq![
            FieldSpec { name: "position", required: false, shape: FieldShape::Vec },
            FieldSpec { name: "velocity", required: false, shape: FieldShape::Vec },
        ]
    } else {
        seq![FieldSpec { name: "position", required: false, shape: FieldShape::Vec }]
    }
}

/// The connection catalog's type names, in schema order.
pub open spec fn connection_type_name(k: int) -> &'static str {
    if k == 0 {
        "spring"
    } else if k == 1 {
        "pin"
    } else {
        "gravity"
    }
}

/// The connection catalog's fields, per type.
pub open spec fn connection_fields(k: int) -> Seq<FieldSpec> {
    if k == 0 {
        seq![
            FieldSpec { name: "from", required: true, shape: FieldShape::ComponentRef },
            FieldSpec { name: "to", required: true, shape: FieldShape::ComponentRef },
            FieldSpec { name: "stiffness", required: true, shape: FieldShape::Positive },
            FieldSpec { name: "rest_length", required: true, shape: FieldShape::NonNegative },
            FieldSpec { name: "damping", required: false, shape: FieldShape::NonNegative },
        ]
    } else if k == 1 {
        seq![
            FieldSpec { name: "from", required: true, shape: FieldShape::ComponentRef },
            FieldSpec { name: "to", required: true, shape: FieldShape::ComponentRef },
            FieldSpec { name: "offset", required: true, shape: FieldShape::Vec },
        ]
    } else {
        seq![FieldSpec { name: "acceleration", required: true, shape: FieldShape::Vec }]
    }
}

/// The compiled-in component catalog, in schema order: `point_mass`
/// (`mass` required and positive, `position` and `velocity` vectors),
/// `kinematic` (`position`, `velocity`), `anchor` (`position`).
pub fn component_types() -> (types: Vec<TypeSpec>)
    ensures
        types@.len() == 3,
        forall|k: int| #![trigger types@[k]] 0 <= k < 3 ==> types@[k].name == component_type_name(k) && types@[k].fields@
            == component_fields(k),
{
    let point_mass = TypeSpec {
        name: "point_mass",
        fields: vec![
            field("mass", true, FieldShape::Positive),
            field("position", false, FieldShape::Vec),
            field("velocity", false, FieldShape::Vec),
        ],
    };
    let kinematic = TypeSpec {
        name: "kinematic",
        fields: vec![field("position", false, FieldShape::Vec), field("velocity", false, FieldShape::Vec)],
    };
    let anchor = TypeSpec { name: "anchor", fields: vec![field("position", false, FieldShape::Vec)] };
    let types = vec![point_mass, kinematic, anchor];
    proof {
        assert(types@[0].fields@ =~= seq![
            FieldSpec { name: "mass", required: true, shape: FieldShape::Positive },
            FieldSpec { name: "position", required: false, shape: FieldShape::Vec },
            FieldSpec { name: "velocity", required: false, shape: FieldShape::Vec },
        ]);
        assert(types@[1].fields@ =~= seq![
            FieldSpec { name: "position", required: false, shape: FieldShape::Vec },
            FieldSpec { name: "velocity", required: false, shape: FieldShape::Vec },
        ]);
        assert(types@[2].fields@ =~= seq![FieldSpec { name: "position", required: false, shape: FieldShape::Vec }]);
    }
    types
}

/// The compiled-in connection catalog, in schema order: `spring` (`from`,
/// `to`, positive `stiffness`, non-negative `rest_length`, optional
/// non-negative `damping`), `pin` (`from`, `to`, `offset`), `gravity`
/// (`acceleration`).
pub fn connection_types() -> (types: Vec<TypeSpec>)
    ensures
        types@.len() == 3,
        forall|k: int| #![trigger types@[k]] 0 <= k < 3 ==> types@[k].name == connection_type_name(k) && types@[k].fields@
            == connection_fields(k),
{
    let spring = TypeSpec {
        name: "spring",
        fields: vec![
            field("from", true, FieldShape::ComponentRef),
            field("to", true, FieldShape::ComponentRef),
            field("stiffness", true, FieldShape::Positive),
            field("rest_length", true, FieldShape::NonNegative),
            field("damping", false, FieldShape::NonNegative),
        ],
    };
    let pin = TypeSpec {
        name: "pin",
        fields: vec![
            field("from", true, FieldShape::ComponentRef),
            field("to", true, FieldShape::ComponentRef),
            field("offset", true, FieldShape::Vec),
        ],
    };
    let gravity = TypeSpec { name: "gravity", fields: vec![field("acceleration", true, FieldShape::Vec)] };
    let types = vec![spring, pin, gravity];
    proof {
        assert(types@[0].fields@ =~= seq![
            FieldSpec { name: "from", required: true, shape: FieldShape::ComponentRef },
            FieldSpec { name: "to", required: true, shape: FieldShape::ComponentRef },
            FieldSpec { name: "stiffness", required: true, shape: FieldShape::Positive },
            FieldSpec { name: "rest_length", required: true, shape: FieldShape::NonNegative },
            FieldSpec { name: "damping", required: false, shape: FieldShape::NonNegative },
        ]);
        assert(types@[1].fields@ =~= seq![
            FieldSpec { name: "from", required: true, shape: FieldShape::ComponentRef },
            FieldSpec { name: "to", required: true, shape: FieldShape::ComponentRef },
            FieldSpec { name: "offset", required: true, shape: FieldShape::Vec },
        ]);
        assert(types@[2].fields@ =~= seq![FieldSpec { name: "acceleration", required: true, shape: FieldShape::Vec }]);
    }
    types
}

/// The names the schema reserves but v1 does not implement: `collider` (a
/// component), `motor`, `joint_angle` and `contact` (connections).
pub fn reserved_types() -> (types: Vec<ReservedSpec>)
    ensures
        types@ == seq![
            ReservedSpec { name: "collider", kind: ReservedKind::Component },
            ReservedSpec { name: "motor", kind: ReservedKind::Connection },
            ReservedSpec { name: "joint_angle", kind: ReservedKind::Connection },
            ReservedSpec { name: "contact", kind: ReservedKind::Connection },
        ],
{
    let types = vec![
        ReservedSpec { name: "collider", kind: ReservedKind::Component },
        ReservedSpec { name: "motor", kind: ReservedKind::Connection },
        ReservedSpec { name: "joint_angle", kind: ReservedKind::Connection },
        ReservedSpec { name: "contact", kind: ReservedKind::Connection },
    ];
    proof {
        assert(types@ =~= seq![
            ReservedSpec { name: "collider", kind: ReservedKind::Component },
            ReservedSpec { name: "motor", kind: ReservedKind::Connection },
            ReservedSpec { name: "joint_angle", kind: ReservedKind::Connection },
            ReservedSpec { name: "contact", kind: ReservedKind::Connection },
        ]);
    }
    types
}

// ── the parsed world, and its bytes ──────────────────────────────────────
/// A component as the author's YAML declared it (templates expanded).
#[derive(Debug)]
pub enum Component {
    PointMass { name: String, mass: u64, position: Vec<u64>, velocity: Vec<u64> },
    Kinematic { name: String, position: Vec<u64>, velocity: Vec<u64> },
    Anchor { name: String, position: Vec<u64> },
}

/// A connection, its endpoints resolved to component indices.
#[derive(Debug)]
pub enum Connection {
    Spring { name: Option<String>, from: u32, to: u32, stiffness: u64, rest_length: u64, damping: u64 },
    Pin { name: Option<String>, from: u32, to: u32, offset: Vec<u64> },
    Gravity { name: Option<String>, acceleration: Vec<u64> },
}

/// A component as plain values.
pub enum ComponentV {
    PointMass { name: Seq<char>, mass: u64, position: Seq<u64>, velocity: Seq<u64> },
    Kinematic { name: Seq<char>, position: Seq<u64>, velocity: Seq<u64> },
    Anchor { name: Seq<char>, position: Seq<u64> },
}

impl View for Component {
    type V = ComponentV;

    open spec fn view(&self) -> ComponentV {
        match *self {
            Component::PointMass { name, mass, position, velocity } => ComponentV::PointMass {
                name: name@,
                mass,
                position: position@,
                velocity: velocity@,
            },
            Component::Kinematic { name, position, velocity } => ComponentV::Kinematic {
                name: name@,
                position: position@,
                velocity: velocity@,
            },
            Component::Anchor { name, position } => ComponentV::Anchor { name: name@, position: position@ },
        }
    }
}

/// An optional name as plain text.
pub open spec fn opt_text(o: Option<String>) -> Option<Seq<char>> {
    match o {
        Some(t) => Some(t@),
        None => None,
    }
}

/// A connection as plain values.
pub enum ConnectionV {
    Spring { name: Option<Seq<char>>, from: u32, to: u32, stiffness: u64, rest_length: u64, damping: u64 },
    Pin { name: Option<Seq<char>>, from: u32, to: u32, offset: Seq<u64> },
    Gravity { name: Option<Seq<char>>, acceleration: Seq<u64> },
}

impl View for Connection {
    type V = ConnectionV;

    open spec fn view(&self) -> ConnectionV {
        match *self {
            Connection::Spring { name, from, to, stiffness, rest_length, damping } => ConnectionV::Spring {
                name: opt_text(name),
                from,
                to,
                stiffness,
                rest_length,
                damping,
            },
            Connection::Pin { name, from, to, offset } => ConnectionV::Pin {
                name: opt_text(name),
                from,
                to,
                offset: offset@,
            },
            Connection::Gravity { name, acceleration } => ConnectionV::Gravity {
                name: opt_text(name),
                acceleration: acceleration@,
            },
        }
    }
}

/// A validated world, ready to emit.
#[derive(Debug)]
pub struct ParsedWorld {
    /// 2 or 3.
    pub dimensions: u8,
    /// In declaration order, which is state-slot order.
    pub components: Vec<Component>,
    /// The file's own connections, then the templates'.
    pub connections: Vec<Connection>,
}

/// A world as plain values.
pub struct WorldV {
    pub dimensions: u8,
    pub components: Seq<ComponentV>,
    pub connections: Seq<ConnectionV>,
}

impl View for ParsedWorld {
    type V = WorldV;

    open spec fn view(&self) -> WorldV {
        WorldV {
            dimensions: self.dimensions,
            components: Seq::new(self.components@.len(), |i: int| self.components@[i]@),
            connections: Seq::new(self.connections@.len(), |i: int| self.connections@[i]@),
        }
    }
}

/// `x` as `n` little-endian bytes.
pub open spec fn le(x: int, n: nat) -> Seq<u8>
    decreases n,
{
    if n == 0 {
        Seq::empty()
    } else {
        seq![(x % 256) as u8] + le(x / 256, (n - 1) as nat)
    }
}

/// Eight little-endian bytes per word.
pub open spec fn words(ws: Seq<u64>) -> Seq<u8>
    decreases ws.len(),
{
    if ws.len() == 0 {
        Seq::empty()
    } else {
        words(ws.drop_last()) + le(ws.last() as int, 8)
    }
}

/// A name as the file stores it: UTF-8.
pub open spec fn text_bytes(s: String) -> Seq<u8> {
    encode_utf8(s@)
}

pub open spec fn component_name(c: Component) -> String {
    match c {
        Component::PointMass { name, .. } => name,
        Component::Kinematic { name, .. } => name,
        Component::Anchor { name, .. } => name,
    }
}

pub open spec fn connection_name(x: Connection) -> Option<String> {
    match x {
        Connection::Spring { name, .. } => name,
        Connection::Pin { name, .. } => name,
        Connection::Gravity { name, .. } => name,
    }
}

/// The names of the first `k` connections that have one, in order.
pub open spec fn connection_names(xs: Seq<Connection>, k: int) -> Seq<Seq<u8>>
    decreases k,
{
    if k <= 0 {
        Seq::empty()
    } else {
        match connection_name(xs[k - 1]) {
            Some(n) => connection_names(xs, k - 1).push(text_bytes(n)),
            None => connection_names(xs, k - 1),
        }
    }
}

/// The name table's entries: every component's name in declaration order,
/// then every named connection's.
pub open spec fn world_names(cs: Seq<Component>, xs: Seq<Connection>) -> Seq<Seq<u8>> {
    Seq::new(cs.len(), |i: int| text_bytes(component_name(cs[i]))) + connection_names(xs, xs.len() as int)
}

/// Where name `k` starts within the name table.
pub open spec fn name_offset(names: Seq<Seq<u8>>, k: int) -> int
    decreases k,
{
    if k <= 0 {
        0
    } else {
        name_offset(names, k - 1) + 4 + names[k - 1].len()
    }
}

/// A component entry's size by kind, for `d` dimensions.
pub open spec fn component_size(c: Component, d: int) -> int {
    match c {
        Component::PointMass { .. } => 16 + 16 * d,
        Component::Kinematic { .. } => 8 + 16 * d,
        Component::Anchor { .. } => 8 + 8 * d,
    }
}

/// A connection entry's size by kind, for `d` dimensions.
pub open spec fn connection_size(x: Connection, d: int) -> int {
    match x {
        Connection::Spring { .. } => 40,
        Connection::Pin { .. } => 16 + 8 * d,
        Connection::Gravity { .. } => 16 + 8 * d,
    }
}

/// The size of the first `k` component entries.
pub open spec fn components_size(cs: Seq<Component>, d: int, k: int) -> int
    decreases k,
{
    if k <= 0 {
        0
    } else {
        components_size(cs, d, k - 1) + component_size(cs[k - 1], d)
    }
}

/// The size of the first `k` connection entries.
pub open spec fn connections_size(xs: Seq<Connection>, d: int, k: int) -> int
    decreases k,
{
    if k <= 0 {
        0
    } else {
        connections_size(xs, d, k - 1) + connection_size(xs[k - 1], d)
    }
}

/// A component entry: tag, reserved, name offset, then its numbers.
pub open spec fn component_entry(c: Component, name_at: int) -> Seq<u8> {
    match c {
        Component::PointMass { mass, position, velocity, .. } => le(1, 2) + le(0, 2) + le(name_at, 4) + le(
            mass as int,
            8,
        ) + words(position@) + words(velocity@),
        Component::Kinematic { position, velocity, .. } => le(2, 2) + le(0, 2) + le(name_at, 4) + words(position@)
            + words(velocity@),
        Component::Anchor { position, .. } => le(3, 2) + le(0, 2) + le(name_at, 4) + words(position@),
    }
}

/// A connection entry: tag, reserved, name offset, endpoints, numbers.
pub open spec fn connection_entry(x: Connection, name_at: int) -> Seq<u8> {
    match x {
        Connection::Spring { from, to, stiffness, rest_length, damping, .. } => le(1, 2) + le(0, 2) + le(name_at, 4)
            + le(from as int, 4) + le(to as int, 4) + le(stiffness as int, 8) + le(rest_length as int, 8) + le(
            damping as int,
            8,
        ),
        Connection::Pin { from, to, offset, .. } => le(2, 2) + le(0, 2) + le(name_at, 4) + le(from as int, 4) + le(
            to as int,
            4,
        ) + words(offset@),
        Connection::Gravity { acceleration, .. } => le(3, 2) + le(0, 2) + le(name_at, 4) + le(0xFFFF_FFFF, 4) + le(
            0xFFFF_FFFF,
            4,
        ) + words(acceleration@),
    }
}

/// The first `k` component entries, their names at `names_at` on.
pub open spec fn component_table(cs: Seq<Component>, names: Seq<Seq<u8>>, names_at: int, k: int) -> Seq<u8>
    decreases k,
{
    if k <= 0 {
        Seq::empty()
    } else {
        component_table(cs, names, names_at, k - 1) + component_entry(
            cs[k - 1],
            names_at + name_offset(names, k - 1),
        )
    }
}

/// How many of the first `k` connections are named.
pub open spec fn named_before(xs: Seq<Connection>, k: int) -> int {
    connection_names(xs, k).len() as int
}

/// The first `k` connection entries: a named one's name follows the
/// components' names and the named connections before it; an unnamed one
/// has name offset 0.
pub open spec fn connection_table(xs: Seq<Connection>, names: Seq<Seq<u8>>, names_at: int, first_name: int, k: int) -> Seq<
    u8,
>
    decreases k,
{
    if k <= 0 {
        Seq::empty()
    } else {
        let name_at = if connection_name(xs[k - 1]) is Some {
            names_at + name_offset(names, first_name + named_before(xs, k - 1))
        } else {
            0
        };
        connection_table(xs, names, names_at, first_name, k - 1) + connection_entry(xs[k - 1], name_at)
    }
}

/// The name table's first `k` entries: a 32-bit length, then the bytes.
pub open spec fn name_table(names: Seq<Seq<u8>>, k: int) -> Seq<u8>
    decreases k,
{
    if k <= 0 {
        Seq::empty()
    } else {
        name_table(names, k - 1) + le(names[k - 1].len() as int, 4) + names[k - 1]
    }
}

/// The compiled bytes of a world: the 40-byte header, the component table,
/// the connection table, and (when anything is named) the name table.
pub open spec fn emitted(w: &ParsedWorld) -> Seq<u8> {
    let d = w.dimensions as int;
    let cs = w.components@;
    let xs = w.connections@;
    let names = world_names(cs, xs);
    let xt = 40 + components_size(cs, d, cs.len() as int);
    let end = xt + connections_size(xs, d, xs.len() as int);
    let nt = if names.len() == 0 { 0 } else { end };
    let header = seq![0x54u8, 0x4E, 0x53, 0x57, 0x4F, 0x52, 0x4C, 0x44] + le(1, 2) + le(SCHEMA_VERSION as int, 2)
        + seq![w.dimensions, 0u8] + le(0, 2) + le(cs.len() as int, 4) + le(xs.len() as int, 4) + le(40, 4) + le(
        xt,
        4,
    ) + le(nt, 4) + le(0, 4);
    header + component_table(cs, names, nt, cs.len() as int) + connection_table(
        xs,
        names,
        nt,
        cs.len() as int,
        xs.len() as int,
    ) + name_table(names, names.len() as int)
}

/// Every offset the emitter computes fits the format's 32-bit fields.
pub open spec fn fits_offsets(w: &ParsedWorld) -> bool {
    let d = w.dimensions as int;
    let cs = w.components@;
    let xs = w.connections@;
    let names = world_names(cs, xs);
    40 + components_size(cs, d, cs.len() as int) + connections_size(xs, d, xs.len() as int) + name_offset(
        names,
        names.len() as int,
    ) <= u32::MAX
}

// ── emission ──────────────────────────────────────────────────────────────
/// Append `x` as `n` little-endian bytes.
fn push_le(out: &mut Vec<u8>, x: u64, n: usize)
    ensures
        final(out)@ == old(out)@ + le(x as int, n as nat),
{
    let ghost start = old(out)@;
    let mut v = x;
    let mut i: usize = 0;
    while i < n
        invariant
            start == old(out)@,
            i <= n,
            out@ + le(v as int, (n - i) as nat) == start + le(x as int, n as nat),
        decreases n - i,
    {
        let ghost before = out@;
        out.push((v % 256) as u8);
        proof {
            assert(le(v as int, (n - i) as nat) == seq![(v % 256) as u8] + le(v as int / 256, (n - i - 1) as nat));
            assert(out@ + le((v / 256) as int, (n - i - 1) as nat) =~= before + le(v as int, (n - i) as nat));
        }
        v = v / 256;
        i = i + 1;
    }
    proof {
        assert(out@ =~= out@ + le(v as int, 0));
    }
}

/// Append each word as eight little-endian bytes.
fn push_words(out: &mut Vec<u8>, ws: &Vec<u64>)
    ensures
        final(out)@ == old(out)@ + words(ws@),
{
    let ghost start = old(out)@;
    let mut i: usize = 0;
    while i < ws.len()
        invariant
            start == old(out)@,
            i <= ws.len(),
            out@ == start + words(ws@.take(i as int)),
        decreases ws.len() - i,
    {
        push_le(out, ws[i], 8);
        proof {
            assert(ws@.take(i + 1).drop_last() =~= ws@.take(i as int));
            assert(out@ =~= start + words(ws@.take(i + 1)));
        }
        i = i + 1;
    }
    proof {
        assert(ws@.take(ws.len() as int) =~= ws@);
    }
}

/// Append bytes.
fn push_bytes(out: &mut Vec<u8>, bytes: &[u8])
    ensures
        final(out)@ == old(out)@ + bytes@,
{
    let ghost start = old(out)@;
    let mut i: usize = 0;
    while i < bytes.len()
        invariant
            start == old(out)@,
            i <= bytes.len(),
            out@ == start + bytes@.take(i as int),
        decreases bytes.len() - i,
    {
        out.push(bytes[i]);
        proof {
            assert(out@ =~= start + bytes@.take(i + 1));
        }
        i = i + 1;
    }
    proof {
        assert(bytes@.take(bytes.len() as int) =~= bytes@);
    }
}

fn name_of(c: &Component) -> (r: &String)
    ensures
        *r == component_name(*c),
{
    match c {
        Component::PointMass { name, .. } => name,
        Component::Kinematic { name, .. } => name,
        Component::Anchor { name, .. } => name,
    }
}

fn connection_name_of(x: &Connection) -> (r: Option<&String>)
    ensures
        match r {
            Some(n) => connection_name(*x) == Some(*n),
            None => connection_name(*x) is None,
        },
{
    match x {
        Connection::Spring { name, .. } => name.as_ref(),
        Connection::Pin { name, .. } => name.as_ref(),
        Connection::Gravity { name, .. } => name.as_ref(),
    }
}

pub(crate) proof fn lemma_connection_names_prefix(xs: Seq<Connection>, j: int, k: int)
    requires
        0 <= j <= k <= xs.len(),
    ensures
        connection_names(xs, j).len() <= connection_names(xs, k).len(),
        forall|i: int| 0 <= i < connection_names(xs, j).len() ==> #[trigger] connection_names(xs, j)[i]
            == connection_names(xs, k)[i],
    decreases k - j,
{
    if j < k {
        lemma_connection_names_prefix(xs, j, k - 1);
    }
}

pub(crate) proof fn lemma_name_offset_monotone(names: Seq<Seq<u8>>, j: int, k: int)
    requires
        0 <= j <= k,
    ensures
        name_offset(names, j) <= name_offset(names, k),
    decreases k - j,
{
    if j < k {
        lemma_name_offset_monotone(names, j, k - 1);
    }
}

pub(crate) proof fn lemma_components_size_monotone(cs: Seq<Component>, d: int, j: int, k: int)
    requires
        0 <= j <= k,
        d >= 0,
    ensures
        components_size(cs, d, j) <= components_size(cs, d, k),
    decreases k - j,
{
    if j < k {
        lemma_components_size_monotone(cs, d, j, k - 1);
    }
}

pub(crate) proof fn lemma_connections_size_monotone(xs: Seq<Connection>, d: int, j: int, k: int)
    requires
        0 <= j <= k,
        d >= 0,
    ensures
        connections_size(xs, d, j) <= connections_size(xs, d, k),
    decreases k - j,
{
    if j < k {
        lemma_connections_size_monotone(xs, d, j, k - 1);
    }
}

/// Each name's offset within the name table, and the table's size.
fn name_offsets(world: &ParsedWorld) -> (r: (Vec<u32>, u32))
    requires
        fits_offsets(world),
    ensures
        ({
            let names = world_names(world.components@, world.connections@);
            &&& r.0@.len() == names.len()
            &&& forall|k: int| 0 <= k < names.len() ==> #[trigger] r.0@[k] == name_offset(names, k)
            &&& r.1 == name_offset(names, names.len() as int)
        }),
{
    let ghost cs = world.components@;
    let ghost xs = world.connections@;
    let ghost names = world_names(cs, xs);
    proof {
        lemma_connection_names_prefix(xs, 0, xs.len() as int);
        let d = world.dimensions as int;
        lemma_components_size_monotone(cs, d, 0, cs.len() as int);
        lemma_connections_size_monotone(xs, d, 0, xs.len() as int);
    }
    let mut offsets: Vec<u32> = Vec::new();
    let mut total: u32 = 0;
    let mut i: usize = 0;
    while i < world.components.len()
        invariant
            cs == world.components@,
            xs == world.connections@,
            names == world_names(cs, xs),
            fits_offsets(world),
            name_offset(names, names.len() as int) <= u32::MAX,
            i <= cs.len(),
            offsets@.len() == i,
            forall|k: int| 0 <= k < i ==> #[trigger] offsets@[k] == name_offset(names, k),
            total == name_offset(names, i as int),
        decreases cs.len() - i,
    {
        offsets.push(total);
        let bytes = name_of(&world.components[i]).as_str().as_bytes();
        proof {
            assert(names[i as int] == bytes@);
            lemma_name_offset_monotone(names, i + 1, names.len() as int);
        }
        total = total + 4 + bytes.len() as u32;
        i = i + 1;
    }
    let mut j: usize = 0;
    while j < world.connections.len()
        invariant
            cs == world.components@,
            xs == world.connections@,
            names == world_names(cs, xs),
            name_offset(names, names.len() as int) <= u32::MAX,
            j <= xs.len(),
            offsets@.len() == cs.len() + named_before(xs, j as int),
            forall|k: int| 0 <= k < offsets@.len() ==> #[trigger] offsets@[k] == name_offset(names, k),
            total == name_offset(names, offsets@.len() as int),
        decreases xs.len() - j,
    {
        match connection_name_of(&world.connections[j]) {
            Some(name) => {
                let ghost k = offsets@.len() as int;
                offsets.push(total);
                let bytes = name.as_str().as_bytes();
                proof {
                    lemma_connection_names_prefix(xs, j + 1, xs.len() as int);
                    assert(connection_names(xs, j + 1) == connection_names(xs, j as int).push(text_bytes(*name)));
                    let m = named_before(xs, j as int);
                    assert(connection_names(xs, j + 1)[m] == text_bytes(*name));
                    assert(connection_names(xs, xs.len() as int)[m] == text_bytes(*name));
                    assert(names[k] == connection_names(xs, xs.len() as int)[k - cs.len()]);
                    assert(names[k] == bytes@);
                    lemma_name_offset_monotone(names, k + 1, names.len() as int);
                }
                total = total + 4 + bytes.len() as u32;
            },
            None => {},
        }
        j = j + 1;
    }
    (offsets, total)
}

fn entry_size(c: &Component, d: u32) -> (n: u32)
    requires
        d <= 3,
    ensures
        n == component_size(*c, d as int),
{
    match c {
        Component::PointMass { .. } => 16 + 16 * d,
        Component::Kinematic { .. } => 8 + 16 * d,
        Component::Anchor { .. } => 8 + 8 * d,
    }
}

fn link_size(x: &Connection, d: u32) -> (n: u32)
    requires
        d <= 3,
    ensures
        n == connection_size(*x, d as int),
{
    match x {
        Connection::Spring { .. } => 40,
        Connection::Pin { .. } => 16 + 8 * d,
        Connection::Gravity { .. } => 16 + 8 * d,
    }
}

/// Append one component entry.
fn push_component(out: &mut Vec<u8>, c: &Component, name_at: u32)
    ensures
        final(out)@ == old(out)@ + component_entry(*c, name_at as int),
{
    let ghost start = old(out)@;
    match c {
        Component::PointMass { mass, position, velocity, .. } => {
            push_le(out, 1, 2);
            push_le(out, 0, 2);
            push_le(out, name_at as u64, 4);
            push_le(out, *mass, 8);
            push_words(out, position);
            push_words(out, velocity);
        },
        Component::Kinematic { position, velocity, .. } => {
            push_le(out, 2, 2);
            push_le(out, 0, 2);
            push_le(out, name_at as u64, 4);
            push_words(out, position);
            push_words(out, velocity);
        },
        Component::Anchor { position, .. } => {
            push_le(out, 3, 2);
            push_le(out, 0, 2);
            push_le(out, name_at as u64, 4);
            push_words(out, position);
        },
    }
    proof {
        assert(out@ =~= start + component_entry(*c, name_at as int));
    }
}

/// Append one connection entry.
fn push_connection(out: &mut Vec<u8>, x: &Connection, name_at: u32)
    ensures
        final(out)@ == old(out)@ + connection_entry(*x, name_at as int),
{
    let ghost start = old(out)@;
    match x {
        Connection::Spring { from, to, stiffness, rest_length, damping, .. } => {
            push_le(out, 1, 2);
            push_le(out, 0, 2);
            push_le(out, name_at as u64, 4);
            push_le(out, *from as u64, 4);
            push_le(out, *to as u64, 4);
            push_le(out, *stiffness, 8);
            push_le(out, *rest_length, 8);
            push_le(out, *damping, 8);
        },
        Connection::Pin { from, to, offset, .. } => {
            push_le(out, 2, 2);
            push_le(out, 0, 2);
            push_le(out, name_at as u64, 4);
            push_le(out, *from as u64, 4);
            push_le(out, *to as u64, 4);
            push_words(out, offset);
        },
        Connection::Gravity { acceleration, .. } => {
            push_le(out, 3, 2);
            push_le(out, 0, 2);
            push_le(out, name_at as u64, 4);
            push_le(out, 0xFFFF_FFFF, 4);
            push_le(out, 0xFFFF_FFFF, 4);
            push_words(out, acceleration);
        },
    }
    proof {
        assert(out@ =~= start + connection_entry(*x, name_at as int));
    }
}

/// Whether every offset of a world's bytes fits the format's 32-bit
/// fields.
pub fn fits(world: &ParsedWorld) -> (b: bool)
    requires
        world.dimensions <= 3,
    ensures
        b == fits_offsets(world),
{
    let ghost cs = world.components@;
    let ghost xs = world.connections@;
    let ghost names = world_names(cs, xs);
    let ghost dd = world.dimensions as int;
    let d = world.dimensions as u32;
    proof {
        lemma_components_size_monotone(cs, dd, 0, cs.len() as int);
        lemma_connections_size_monotone(xs, dd, 0, xs.len() as int);
        lemma_name_offset_monotone(names, 0, names.len() as int);
        lemma_connection_names_prefix(xs, 0, xs.len() as int);
    }
    let mut total: u64 = 40;
    let mut i: usize = 0;
    while i < world.components.len()
        invariant
            cs == world.components@,
            xs == world.connections@,
            names == world_names(cs, xs),
            d == dd,
            dd == world.dimensions as int,
            d <= 3,
            i <= cs.len(),
            total == 40 + components_size(cs, dd, i as int),
            total <= u32::MAX,
            0 <= connections_size(xs, dd, xs.len() as int),
            0 <= name_offset(names, names.len() as int),
        decreases cs.len() - i,
    {
        proof {
            lemma_components_size_monotone(cs, dd, i + 1, cs.len() as int);
        }
        total = total + entry_size(&world.components[i], d) as u64;
        if total > 0xFFFF_FFFF {
            return false;
        }
        i = i + 1;
    }
    let mut j: usize = 0;
    while j < world.connections.len()
        invariant
            cs == world.components@,
            xs == world.connections@,
            names == world_names(cs, xs),
            d == dd,
            dd == world.dimensions as int,
            d <= 3,
            j <= xs.len(),
            total == 40 + components_size(cs, dd, cs.len() as int) + connections_size(xs, dd, j as int),
            total <= u32::MAX,
            0 <= name_offset(names, names.len() as int),
        decreases xs.len() - j,
    {
        proof {
            lemma_connections_size_monotone(xs, dd, j + 1, xs.len() as int);
        }
        total = total + link_size(&world.connections[j], d) as u64;
        if total > 0xFFFF_FFFF {
            return false;
        }
        j = j + 1;
    }
    let ghost base = total as int;
    let mut k: usize = 0;
    while k < world.components.len()
        invariant
            cs == world.components@,
            xs == world.connections@,
            names == world_names(cs, xs),
            dd == world.dimensions as int,
            base == 40 + components_size(cs, dd, cs.len() as int) + connections_size(xs, dd, xs.len() as int),
            k <= cs.len(),
            total == base + name_offset(names, k as int),
            total <= u32::MAX,
        decreases cs.len() - k,
    {
        let bytes = name_of(&world.components[k]).as_str().as_bytes();
        proof {
            assert(names[k as int] == bytes@);
            lemma_name_offset_monotone(names, k + 1, names.len() as int);
        }
        if bytes.len() as u64 > 0xFFFF_FFFF {
            return false;
        }
        total = total + 4 + bytes.len() as u64;
        if total > 0xFFFF_FFFF {
            return false;
        }
        k = k + 1;
    }
    let ghost counted = cs.len() as int;
    let mut m: usize = 0;
    while m < world.connections.len()
        invariant
            cs == world.components@,
            xs == world.connections@,
            names == world_names(cs, xs),
            dd == world.dimensions as int,
            base == 40 + components_size(cs, dd, cs.len() as int) + connections_size(xs, dd, xs.len() as int),
            m <= xs.len(),
            total == base + name_offset(names, cs.len() + named_before(xs, m as int)),
            total <= u32::MAX,
        decreases xs.len() - m,
    {
        match connection_name_of(&world.connections[m]) {
            Some(name) => {
                let bytes = name.as_str().as_bytes();
                proof {
                    let k = cs.len() + named_before(xs, m as int);
                    lemma_connection_names_prefix(xs, m + 1, xs.len() as int);
                    assert(connection_names(xs, m + 1) == connection_names(xs, m as int).push(text_bytes(*name)));
                    let q = named_before(xs, m as int);
                    assert(connection_names(xs, m + 1)[q] == text_bytes(*name));
                    assert(connection_names(xs, xs.len() as int)[q] == text_bytes(*name));
                    assert(names[k] == connection_names(xs, xs.len() as int)[k - cs.len()]);
                    assert(names[k] == bytes@);
                    lemma_name_offset_monotone(names, k + 1, names.len() as int);
                    assert(named_before(xs, m + 1) == q + 1);
                }
                if bytes.len() as u64 > 0xFFFF_FFFF {
                    return false;
                }
                total = total + 4 + bytes.len() as u64;
                if total > 0xFFFF_FFFF {
                    return false;
                }
            },
            None => {
                proof {
                    assert(named_before(xs, m + 1) == named_before(xs, m as int));
                }
            },
        }
        m = m + 1;
    }
    proof {
        lemma_connection_names_prefix(xs, xs.len() as int, xs.len() as int);
        assert(names.len() == cs.len() + named_before(xs, xs.len() as int));
    }
    true
}

/// Write the binary world: the header, the component table in declaration
/// order (which is state-slot order), the connection table, and the name
/// table — every component's name, then every named connection's, each a
/// 32-bit length and its UTF-8 bytes. Every offset is from the start of the
/// file.
#[verifier::rlimit(60)]
pub fn emit(world: &ParsedWorld) -> (out: Vec<u8>)
    requires
        world.dimensions == 2 || world.dimensions == 3,
        fits_offsets(world),
    ensures
        out@ == emitted(world),
{
    let ghost cs = world.components@;
    let ghost xs = world.connections@;
    let ghost names = world_names(cs, xs);
    let ghost dd = world.dimensions as int;
    let (offsets, names_len) = name_offsets(world);
    let names_count = offsets.len();
    let d = world.dimensions as u32;
    proof {
        lemma_components_size_monotone(cs, dd, 0, cs.len() as int);
        lemma_connections_size_monotone(xs, dd, 0, xs.len() as int);
        lemma_name_offset_monotone(names, 0, names.len() as int);
    }
    // The tables' extents.
    let mut xt: u32 = 40;
    let mut i: usize = 0;
    while i < world.components.len()
        invariant
            cs == world.components@,
            d == dd,
            dd == world.dimensions as int,
            d <= 3,
            fits_offsets(world),
            0 <= components_size(cs, dd, cs.len() as int),
            0 <= connections_size(xs, dd, xs.len() as int),
            0 <= name_offset(names, names.len() as int),
            xs == world.connections@,
            names == world_names(cs, xs),
            i <= cs.len(),
            xt == 40 + components_size(cs, dd, i as int),
        decreases cs.len() - i,
    {
        proof {
            lemma_components_size_monotone(cs, dd, i + 1, cs.len() as int);
            assert(components_size(cs, dd, i + 1) == components_size(cs, dd, i as int) + component_size(cs[i as int], dd));
            assert(40 + components_size(cs, dd, cs.len() as int) + connections_size(xs, dd, xs.len() as int) + name_offset(names, names.len() as int) <= u32::MAX);
        }
        xt = xt + entry_size(&world.components[i], d);
        i = i + 1;
    }
    let mut end: u32 = xt;
    let mut j: usize = 0;
    while j < world.connections.len()
        invariant
            cs == world.components@,
            xs == world.connections@,
            names == world_names(cs, xs),
            d == dd,
            dd == world.dimensions as int,
            d <= 3,
            fits_offsets(world),
            0 <= name_offset(names, names.len() as int),
            j <= xs.len(),
            xt == 40 + components_size(cs, dd, cs.len() as int),
            end == xt + connections_size(xs, dd, j as int),
        decreases xs.len() - j,
    {
        proof {
            lemma_connections_size_monotone(xs, dd, j + 1, xs.len() as int);
            assert(connections_size(xs, dd, j + 1) == connections_size(xs, dd, j as int) + connection_size(xs[j as int], dd));
            assert(40 + components_size(cs, dd, cs.len() as int) + connections_size(xs, dd, xs.len() as int) + name_offset(names, names.len() as int) <= u32::MAX);
        }
        end = end + link_size(&world.connections[j], d);
        j = j + 1;
    }
    let nt: u32 = if offsets.len() == 0 { 0 } else { end };
    // The header.
    let mut out: Vec<u8> = Vec::new();
    let magic: [u8; 8] = [0x54, 0x4E, 0x53, 0x57, 0x4F, 0x52, 0x4C, 0x44];
    push_bytes(&mut out, &magic);
    push_le(&mut out, 1, 2);
    push_le(&mut out, SCHEMA_VERSION as u64, 2);
    out.push(world.dimensions);
    out.push(0);
    push_le(&mut out, 0, 2);
    push_le(&mut out, world.components.len() as u64, 4);
    push_le(&mut out, world.connections.len() as u64, 4);
    push_le(&mut out, 40, 4);
    push_le(&mut out, xt as u64, 4);
    push_le(&mut out, nt as u64, 4);
    push_le(&mut out, 0, 4);
    let ghost header = out@;
    proof {
        assert(magic@ =~= seq![0x54u8, 0x4E, 0x53, 0x57, 0x4F, 0x52, 0x4C, 0x44]);
        assert(header =~= seq![0x54u8, 0x4E, 0x53, 0x57, 0x4F, 0x52, 0x4C, 0x44] + le(1, 2) + le(
            SCHEMA_VERSION as int,
            2,
        ) + seq![world.dimensions, 0u8] + le(0, 2) + le(cs.len() as int, 4) + le(xs.len() as int, 4) + le(40, 4)
            + le(xt as int, 4) + le(nt as int, 4) + le(0, 4));
    }
    // The component table.
    let mut i: usize = 0;
    while i < world.components.len()
        invariant
            cs == world.components@,
            xs == world.connections@,
            names == world_names(cs, xs),
            offsets@.len() == names.len(),
            forall|k: int| 0 <= k < names.len() ==> #[trigger] offsets@[k] == name_offset(names, k),
            names_len == name_offset(names, names.len() as int),
            fits_offsets(world),
            d == dd,
            dd == world.dimensions as int,
            names_count == names.len(),
            end == 40 + components_size(cs, dd, cs.len() as int) + connections_size(xs, dd, xs.len() as int),
            nt == (if names.len() == 0 { 0 } else { end as int }),
            i <= cs.len(),
            out@ == header + component_table(cs, names, nt as int, i as int),
        decreases cs.len() - i,
    {
        proof {
            lemma_name_offset_monotone(names, i as int, names.len() as int);
            assert(names.len() >= cs.len());
            assert(40 + components_size(cs, dd, cs.len() as int) + connections_size(xs, dd, xs.len() as int) + name_offset(names, names.len() as int) <= u32::MAX);
            assert(offsets@[i as int] == name_offset(names, i as int));
        }
        let name_at = nt + offsets[i];
        push_component(&mut out, &world.components[i], name_at);
        proof {
            assert(out@ =~= header + component_table(cs, names, nt as int, i + 1));
        }
        i = i + 1;
    }
    let ghost with_components = out@;
    // The connection table.
    let mut next_name: usize = world.components.len();
    let mut j: usize = 0;
    while j < world.connections.len()
        invariant
            cs == world.components@,
            xs == world.connections@,
            names == world_names(cs, xs),
            offsets@.len() == names.len(),
            forall|k: int| 0 <= k < names.len() ==> #[trigger] offsets@[k] == name_offset(names, k),
            names_len == name_offset(names, names.len() as int),
            fits_offsets(world),
            d == dd,
            dd == world.dimensions as int,
            names_count == names.len(),
            end == 40 + components_size(cs, dd, cs.len() as int) + connections_size(xs, dd, xs.len() as int),
            nt == (if names.len() == 0 { 0 } else { end as int }),
            j <= xs.len(),
            next_name == cs.len() + named_before(xs, j as int),
            with_components == header + component_table(cs, names, nt as int, cs.len() as int),
            out@ == with_components + connection_table(xs, names, nt as int, cs.len() as int, j as int),
        decreases xs.len() - j,
    {
        proof {
            lemma_connection_names_prefix(xs, j as int, xs.len() as int);
            lemma_connection_names_prefix(xs, j + 1, xs.len() as int);
        }
        let name_at = match connection_name_of(&world.connections[j]) {
            Some(_) => {
                proof {
                    assert(connection_names(xs, j + 1).len() == named_before(xs, j as int) + 1);
                    assert(next_name < names.len());
                    lemma_name_offset_monotone(names, next_name as int, names.len() as int);
                    assert(40 + components_size(cs, dd, cs.len() as int) + connections_size(xs, dd, xs.len() as int) + name_offset(names, names.len() as int) <= u32::MAX);
                    assert(offsets@[next_name as int] == name_offset(names, next_name as int));
                }
                let at = nt + offsets[next_name];
                next_name = next_name + 1;
                at
            },
            None => 0,
        };
        push_connection(&mut out, &world.connections[j], name_at);
        proof {
            assert(out@ =~= with_components + connection_table(xs, names, nt as int, cs.len() as int, j + 1));
        }
        j = j + 1;
    }
    let ghost with_tables = out@;
    // The name table.
    let mut k: usize = 0;
    while k < world.components.len()
        invariant
            cs == world.components@,
            xs == world.connections@,
            names == world_names(cs, xs),
            k <= cs.len(),
            out@ == with_tables + name_table(names, k as int),
        decreases cs.len() - k,
    {
        let bytes = name_of(&world.components[k]).as_str().as_bytes();
        proof {
            assert(names[k as int] == bytes@);
        }
        push_le(&mut out, bytes.len() as u64, 4);
        push_bytes(&mut out, bytes);
        proof {
            assert(out@ =~= with_tables + name_table(names, k + 1));
        }
        k = k + 1;
    }
    let mut j: usize = 0;
    let mut n: usize = world.components.len();
    while j < world.connections.len()
        invariant
            cs == world.components@,
            xs == world.connections@,
            names == world_names(cs, xs),
            j <= xs.len(),
            names_count == names.len(),
            n == cs.len() + named_before(xs, j as int),
            out@ == with_tables + name_table(names, n as int),
        decreases xs.len() - j,
    {
        match connection_name_of(&world.connections[j]) {
            Some(name) => {
                let bytes = name.as_str().as_bytes();
                proof {
                    lemma_connection_names_prefix(xs, j + 1, xs.len() as int);
                    let m = named_before(xs, j as int);
                    assert(connection_names(xs, j + 1)[m] == text_bytes(*name));
                    assert(connection_names(xs, xs.len() as int)[m] == text_bytes(*name));
                    assert(names[n as int] == connection_names(xs, xs.len() as int)[n - cs.len()]);
                    assert(names[n as int] == bytes@);
                    assert(connection_names(xs, j + 1).len() == named_before(xs, j as int) + 1);
                    assert(n < names.len());
                }
                push_le(&mut out, bytes.len() as u64, 4);
                push_bytes(&mut out, bytes);
                proof {
                    assert(out@ =~= with_tables + name_table(names, n + 1));
                }
                n = n + 1;
            },
            None => {},
        }
        j = j + 1;
    }
    proof {
        assert(n == names.len());
    }
    out
}

} // verus!
