//! What the compiler accepts, the format can hold: every world a document
//! compiles to has vectors of its own length and springs and pins that
//! join two different components of it, so its bytes load.

use vstd::prelude::*;

use crate::world::compiler::{
    connection_fields, emitted, fits_offsets, world_names, ComponentV, ConnectionV, FieldSpec, ParsedWorld, WorldV,
};
use crate::world::errors::CompileError;
use crate::world::eval::{load_spec, WorldError, WorldShape};
use crate::world::round_trip::{
    component_fits, connection_fits, emitted_shape, lemma_components_size_floor, lemma_connections_size_floor,
    lemma_emitted_world_loads, lemma_name_offset_floor, well_formed,
};
use crate::world::parse::{
    component_index, component_of, connection_data, connection_keys, connection_kind, connection_label, connection_rest,
    connection_shape, insert_component, insert_connection, missing_field, owner_of, plain_name, resolve_connection,
    text_or_empty, DataV, Owner, ShapeV,
};
use crate::world::document::{
    compiled_as, component_entry, components_upto, connection_entry, connections_upto, produced_upto, world_body,
    world_dimensions, world_of, world_passes, world_templates, world_versioned, LinkingV,
};
use crate::world::templates::{
    bind, body_ctx, expand, expand_components, expand_template, find_template, invocation_args, name_of, substitute,
    templates_upto, BuildingV, ProducedV, TemplateV,
};
use crate::text::decimal;
use crate::world::yaml::{map_get, NodeV};

verus! {

/// A component's vectors hold `d` numbers each.
pub open spec fn component_holds(c: ComponentV, d: int) -> bool {
    match c {
        ComponentV::PointMass { position, velocity, .. } => position.len() == d && velocity.len() == d,
        ComponentV::Kinematic { position, velocity, .. } => position.len() == d && velocity.len() == d,
        ComponentV::Anchor { position, .. } => position.len() == d,
    }
}

/// A connection's vectors hold `d` numbers, and a spring or pin joins two
/// different components among the first `n`.
pub open spec fn connection_holds(x: ConnectionV, d: int, n: int) -> bool {
    match x {
        ConnectionV::Spring { from, to, .. } => from < n && to < n && from != to,
        ConnectionV::Pin { from, to, offset, .. } => from < n && to < n && from != to && offset.len() == d,
        ConnectionV::Gravity { acceleration, .. } => acceleration.len() == d,
    }
}

// ── components ────────────────────────────────────────────────────────────
/// A component the catalog accepts has vectors of the world's length.
#[verifier::rlimit(40)]
proof fn lemma_component_of_holds(es: Seq<(NodeV, NodeV)>, ctx: Seq<char>, d: nat)
    requires
        component_of(es, ctx, d) is Ok,
    ensures
        component_holds(component_of(es, ctx, d)->Ok_0, d as int),
{
    reveal(component_of);
}

// ── the name table ────────────────────────────────────────────────────────
/// Every component a name table knows is among the first `n`, and no two
/// of its entries name the same component.
pub open spec fn names_sound(names: Seq<(Seq<char>, Owner)>, n: int) -> bool {
    &&& forall|k: int|
        0 <= k < names.len() ==> match (#[trigger] names[k]).1 {
            Owner::Component(i) => i < n,
            Owner::Connection => true,
        }
    &&& forall|a: int, b: int|
        0 <= a < names.len() && 0 <= b < names.len() && a != b && (#[trigger] names[a]).1 is Component ==> (
        #[trigger] names[b]).1 != names[a].1
}

/// What a name table says a name owns is one of its entries.
proof fn lemma_owner_found(names: Seq<(Seq<char>, Owner)>, x: Seq<char>) -> (k: int)
    requires
        owner_of(names, x) is Some,
    ensures
        0 <= k < names.len(),
        names[k].0 == x,
        names[k].1 == owner_of(names, x)->0,
    decreases names.len(),
{
    match owner_of(names.drop_last(), x) {
        Some(_) => {
            let k = lemma_owner_found(names.drop_last(), x);
            assert(names[k] == names.drop_last()[k]);
            k
        },
        None => (names.len() - 1) as int,
    }
}

proof fn lemma_insert_component_sound(names: Seq<(Seq<char>, Owner)>, x: Seq<char>, n: int)
    requires
        names_sound(names, n),
        0 <= n <= 0xFFFF_FFFF,
        insert_component(names, x, n as usize) is Ok,
    ensures
        names_sound(insert_component(names, x, n as usize)->Ok_0, n + 1),
{
    let m = insert_component(names, x, n as usize)->Ok_0;
    assert(m == names.push((x, Owner::Component(n as usize))));
    assert forall|a: int, b: int|
        0 <= a < m.len() && 0 <= b < m.len() && a != b && (#[trigger] m[a]).1 is Component implies (
        #[trigger] m[b]).1 != m[a].1 by {
        if a < names.len() && b < names.len() {
            assert(m[a] == names[a] && m[b] == names[b]);
        } else if a < names.len() {
            assert(m[a] == names[a]);
        } else {
            assert(m[b] == names[b]);
        }
    }
    assert forall|k: int| 0 <= k < m.len() implies match (#[trigger] m[k]).1 {
        Owner::Component(i) => i < n + 1,
        Owner::Connection => true,
    } by {
        if k < names.len() {
            assert(m[k] == names[k]);
        }
    }
}

proof fn lemma_insert_connection_sound(names: Seq<(Seq<char>, Owner)>, x: Seq<char>, n: int)
    requires
        names_sound(names, n),
        insert_connection(names, x) is Ok,
    ensures
        names_sound(insert_connection(names, x)->Ok_0, n),
{
    let m = insert_connection(names, x)->Ok_0;
    assert(m == names.push((x, Owner::Connection)));
    assert forall|a: int, b: int|
        0 <= a < m.len() && 0 <= b < m.len() && a != b && (#[trigger] m[a]).1 is Component implies (
        #[trigger] m[b]).1 != m[a].1 by {
        if a < names.len() && b < names.len() {
            assert(m[a] == names[a] && m[b] == names[b]);
        } else if a < names.len() {
            assert(m[a] == names[a]);
        } else {
            assert(m[b] == names[b]);
        }
    }
    assert forall|k: int| 0 <= k < m.len() implies match (#[trigger] m[k]).1 {
        Owner::Component(i) => i < n,
        Owner::Connection => true,
    } by {
        if k < names.len() {
            assert(m[k] == names[k]);
        }
    }
}

/// An endpoint resolves to one of the first `n` components, and two
/// different names to two different ones.
proof fn lemma_component_indices(names: Seq<(Seq<char>, Owner)>, x: Seq<char>, y: Seq<char>, lx: Seq<char>, ly: Seq<char>, n: int)
    requires
        names_sound(names, n),
        component_index(names, x, lx) is Ok,
        component_index(names, y, ly) is Ok,
    ensures
        component_index(names, x, lx)->Ok_0 < n,
        component_index(names, y, ly)->Ok_0 < n,
        x != y ==> component_index(names, x, lx)->Ok_0 != component_index(names, y, ly)->Ok_0,
{
    let kx = lemma_owner_found(names, x);
    let ky = lemma_owner_found(names, y);
    assert(names[kx].1 is Component);
    assert(names[ky].1 is Component);
}

// ── the component passes ──────────────────────────────────────────────────
/// A component pass's state: every component holds the world's vectors,
/// and the name table is sound over them.
pub open spec fn building_sound(b: BuildingV, d: int) -> bool {
    &&& forall|i: int| 0 <= i < b.components.len() ==> component_holds(#[trigger] b.components[i], d)
    &&& b.components.len() <= 0xFFFF_FFFF ==> names_sound(b.names, b.components.len() as int)
}

proof fn lemma_add_component_sound(b: BuildingV, c: ComponentV, d: int, produced: Seq<ProducedV>)
    requires
        building_sound(b, d),
        component_holds(c, d),
        insert_component(b.names, name_of(c), b.components.len() as usize) is Ok,
    ensures
        building_sound(
            BuildingV {
                components: b.components.push(c),
                names: insert_component(b.names, name_of(c), b.components.len() as usize)->Ok_0,
                produced,
            },
            d,
        ),
{
    let n = b.components.len() as int;
    if n <= 0xFFFF_FFFF {
        lemma_insert_component_sound(b.names, name_of(c), n);
    }
    let cs = b.components.push(c);
    assert forall|i: int| 0 <= i < cs.len() implies component_holds(#[trigger] cs[i], d) by {
        if i < n {
            assert(cs[i] == b.components[i]);
        }
    }
}

proof fn lemma_expand_components_sound(
    t: TemplateV,
    bindings: Seq<(Seq<char>, Seq<char>)>,
    d: nat,
    st: BuildingV,
    k: int,
)
    requires
        building_sound(st, d as int),
        expand_components(t, bindings, d, st, k) is Ok,
    ensures
        building_sound(expand_components(t, bindings, d, st, k)->Ok_0, d as int),
    decreases k,
{
    if k > 0 {
        lemma_expand_components_sound(t, bindings, d, st, k - 1);
        let b = expand_components(t, bindings, d, st, k - 1)->Ok_0;
        let bctx = body_ctx(t.name, false, (k - 1) as nat);
        match substitute(t.components[k - 1], bindings) {
            NodeV::Mapping(es) => {
                lemma_component_of_holds(es, bctx, d);
                let c = component_of(es, bctx, d)->Ok_0;
                lemma_add_component_sound(b, c, d as int, b.produced);
            },
            _ => {},
        }
    }
}

proof fn lemma_expand_template_sound(
    es: Seq<(NodeV, NodeV)>,
    ctx: Seq<char>,
    t: TemplateV,
    n: Seq<char>,
    d: nat,
    st: BuildingV,
)
    requires
        building_sound(st, d as int),
        expand_template(es, ctx, t, n, d, st) is Ok,
    ensures
        building_sound(expand_template(es, ctx, t, n, d, st)->Ok_0, d as int),
{
    let args = invocation_args(es, ctx)->Ok_0;
    let bindings = bind(t.params, args);
    lemma_expand_components_sound(t, bindings, d, st, t.components.len() as int);
}

/// An invocation adds only components that hold the world's vectors, under
/// names the table did not have.
proof fn lemma_expand_sound(es: Seq<(NodeV, NodeV)>, ctx: Seq<char>, templates: Seq<TemplateV>, d: nat, st: BuildingV)
    requires
        building_sound(st, d as int),
        expand(es, ctx, templates, d, st) is Ok,
    ensures
        building_sound(expand(es, ctx, templates, d, st)->Ok_0, d as int),
{
    reveal(expand);
    if let Some(NodeV::Str(n)) = map_get(es, "template"@) {
        if let Some(j) = find_template(templates, n) {
            lemma_expand_template_sound(es, ctx, templates[j], n, d, st);
        }
    }
}

proof fn lemma_component_entry_sound(entry: NodeV, i: nat, templates: Seq<TemplateV>, d: nat, st: BuildingV)
    requires
        building_sound(st, d as int),
        component_entry(entry, i, templates, d, st) is Ok,
    ensures
        building_sound(component_entry(entry, i, templates, d, st)->Ok_0, d as int),
{
    reveal(component_entry);
    let ctx = "components["@ + decimal(i) + "]"@;
    if let NodeV::Mapping(es) = entry {
        if map_get(es, "template"@) is Some {
            if map_get(es, "type"@) is None {
                lemma_expand_sound(es, ctx, templates, d, st);
            }
        } else {
            lemma_component_of_holds(es, ctx, d);
            let c = component_of(es, ctx, d)->Ok_0;
            lemma_add_component_sound(st, c, d as int, st.produced);
        }
    }
}

proof fn lemma_components_upto_sound(list: Seq<NodeV>, templates: Seq<TemplateV>, d: nat, k: int)
    requires
        components_upto(list, templates, d, k) is Ok,
    ensures
        building_sound(components_upto(list, templates, d, k)->Ok_0, d as int),
    decreases k,
{
    if k > 0 {
        lemma_components_upto_sound(list, templates, d, k - 1);
        let st = components_upto(list, templates, d, k - 1)->Ok_0;
        lemma_component_entry_sound(list[k - 1], (k - 1) as nat, templates, d, st);
    } else {
        let b = components_upto(list, templates, d, k)->Ok_0;
        assert(b.names.len() == 0);
    }
}

// ── connections ───────────────────────────────────────────────────────────
/// A connection entry's shape as the catalog accepts it: a spring or a pin
/// names both endpoints, by two different names, and every vector holds
/// `d` numbers.
pub open spec fn shape_holds(s: ShapeV, d: int) -> bool {
    match s.data {
        DataV::Spring { .. } => s.from is Some && s.to is Some && s.from != s.to,
        DataV::Pin { offset } => s.from is Some && s.to is Some && s.from != s.to && offset.len() == d,
        DataV::Gravity { acceleration } => acceleration.len() == d,
    }
}

/// Past the missing-field check, every required field is present.
proof fn lemma_required_present(es: Seq<(NodeV, NodeV)>, fields: Seq<FieldSpec>, j: int, i: int)
    requires
        missing_field(es, fields, j) is None,
        0 <= j <= i < fields.len(),
        fields[i].required,
    ensures
        map_get(es, fields[i].name@) is Some,
    decreases i - j,
{
    if j < i {
        lemma_required_present(es, fields, j + 1, i);
    }
}

proof fn lemma_connection_data_holds(es: Seq<(NodeV, NodeV)>, k: int, label: Seq<char>, d: nat)
    requires
        0 <= k < 3,
        connection_data(es, k, label, d) is Ok,
    ensures
        ({
            let data = connection_data(es, k, label, d)->Ok_0;
            &&& k == 0 ==> data is Spring
            &&& k == 1 ==> (data matches DataV::Pin { offset } && offset.len() == d)
            &&& k == 2 ==> (data matches DataV::Gravity { acceleration } && acceleration.len() == d)
        }),
{
}

proof fn lemma_connection_rest_holds(es: Seq<(NodeV, NodeV)>, k: int, name: Option<Seq<char>>, label: Seq<char>, d: nat)
    requires
        0 <= k < 3,
        k < 2 ==> map_get(es, "from"@) is Some && map_get(es, "to"@) is Some,
        connection_rest(es, k, name, label, d) is Ok,
    ensures
        shape_holds(connection_rest(es, k, name, label, d)->Ok_0, d as int),
{
    lemma_connection_data_holds(es, k, label, d);
}

proof fn lemma_keys_then_rest(es: Seq<(NodeV, NodeV)>, k: int, name: Option<Seq<char>>, ctx: Seq<char>, d: nat)
    requires
        connection_keys(es, k, name, ctx, d) is Ok,
    ensures
        missing_field(es, connection_fields(k), 0) is None,
        connection_keys(es, k, name, ctx, d) == connection_rest(es, k, name, connection_label(name, ctx), d),
{
}

proof fn lemma_endpoints_required(es: Seq<(NodeV, NodeV)>, k: int)
    requires
        0 <= k < 2,
        missing_field(es, connection_fields(k), 0) is None,
    ensures
        map_get(es, "from"@) is Some,
        map_get(es, "to"@) is Some,
{
    let fields = connection_fields(k);
    assert(fields[0].name@ == "from"@ && fields[0].required);
    assert(fields[1].name@ == "to"@ && fields[1].required);
    lemma_required_present(es, fields, 0, 0);
    lemma_required_present(es, fields, 0, 1);
}

proof fn lemma_connection_keys_hold(es: Seq<(NodeV, NodeV)>, k: int, name: Option<Seq<char>>, ctx: Seq<char>, d: nat)
    requires
        0 <= k < 3,
        connection_keys(es, k, name, ctx, d) is Ok,
    ensures
        shape_holds(connection_keys(es, k, name, ctx, d)->Ok_0, d as int),
{
    lemma_keys_then_rest(es, k, name, ctx, d);
    if k < 2 {
        lemma_endpoints_required(es, k);
    }
    lemma_connection_rest_holds(es, k, name, connection_label(name, ctx), d);
}

proof fn lemma_connection_shape_holds(es: Seq<(NodeV, NodeV)>, ctx: Seq<char>, d: nat)
    requires
        connection_shape(es, ctx, d) is Ok,
    ensures
        shape_holds(connection_shape(es, ctx, d)->Ok_0, d as int),
{
    reveal(connection_shape);
    if let Some(NodeV::Str(t)) = map_get(es, "type"@) {
        if let Some(k) = connection_kind(t) {
            match map_get(es, "name"@) {
                Some(NodeV::Str(n0)) => {
                    if let Ok(n) = plain_name(n0) {
                        lemma_connection_keys_hold(es, k, Some(n), ctx, d);
                    }
                },
                None => {
                    lemma_connection_keys_hold(es, k, None, ctx, d);
                },
                _ => {},
            }
        }
    }
}

/// A resolved spring or pin joins two different components among the
/// first `n`.
proof fn lemma_resolve_holds(shape: ShapeV, names: Seq<(Seq<char>, Owner)>, ctx: Seq<char>, seen: bool, d: int, n: int)
    requires
        shape_holds(shape, d),
        names_sound(names, n),
        n <= 0xFFFF_FFFF,
        resolve_connection(shape, names, ctx, seen) is Ok,
    ensures
        connection_holds(resolve_connection(shape, names, ctx, seen)->Ok_0.0, d, n),
{
    let label = connection_label(shape.name, ctx);
    match shape.data {
        DataV::Gravity { .. } => {},
        _ => {
            lemma_component_indices(names, text_or_empty(shape.from), text_or_empty(shape.to), label, label, n);
        },
    }
}

/// A connection pass's state, over a world of `n` components: a sound name
/// table, and every connection so far holding.
pub open spec fn linking_sound(l: LinkingV, d: int, n: int) -> bool {
    n <= 0xFFFF_FFFF ==> {
        &&& names_sound(l.names, n)
        &&& forall|j: int| 0 <= j < l.connections.len() ==> connection_holds(#[trigger] l.connections[j], d, n)
    }
}

proof fn lemma_connection_entry_sound(entry: NodeV, ctx: Seq<char>, own: bool, d: nat, st: LinkingV, n: int)
    requires
        linking_sound(st, d as int, n),
        connection_entry(entry, ctx, own, d, st) is Ok,
    ensures
        linking_sound(connection_entry(entry, ctx, own, d, st)->Ok_0, d as int, n),
{
    reveal(connection_entry);
    if n <= 0xFFFF_FFFF {
        if let NodeV::Mapping(es) = entry {
            lemma_connection_shape_holds(es, ctx, d);
            let shape = connection_shape(es, ctx, d)->Ok_0;
            let names = match shape.name {
                Some(x) => {
                    lemma_insert_connection_sound(st.names, x, n);
                    insert_connection(st.names, x)->Ok_0
                },
                None => st.names,
            };
            lemma_resolve_holds(shape, names, ctx, st.seen_gravity, d as int, n);
            let c = resolve_connection(shape, names, ctx, st.seen_gravity)->Ok_0.0;
            let l = connection_entry(entry, ctx, own, d, st)->Ok_0;
            assert(l.connections == st.connections.push(c));
            assert forall|j: int| 0 <= j < l.connections.len() implies connection_holds(
                #[trigger] l.connections[j],
                d as int,
                n,
            ) by {
                if j < st.connections.len() {
                    assert(l.connections[j] == st.connections[j]);
                }
            }
        }
    }
}

proof fn lemma_connections_upto_sound(list: Seq<NodeV>, d: nat, start: LinkingV, k: int, n: int)
    requires
        linking_sound(start, d as int, n),
        connections_upto(list, d, start, k) is Ok,
    ensures
        linking_sound(connections_upto(list, d, start, k)->Ok_0, d as int, n),
    decreases k,
{
    if k > 0 {
        lemma_connections_upto_sound(list, d, start, k - 1, n);
        let st = connections_upto(list, d, start, k - 1)->Ok_0;
        lemma_connection_entry_sound(list[k - 1], "connections["@ + decimal((k - 1) as nat) + "]"@, true, d, st, n);
    }
}

proof fn lemma_produced_upto_sound(ps: Seq<ProducedV>, d: nat, start: LinkingV, k: int, n: int)
    requires
        linking_sound(start, d as int, n),
        produced_upto(ps, d, start, k) is Ok,
    ensures
        linking_sound(produced_upto(ps, d, start, k)->Ok_0, d as int, n),
    decreases k,
{
    if k > 0 {
        lemma_produced_upto_sound(ps, d, start, k - 1, n);
        let st = produced_upto(ps, d, start, k - 1)->Ok_0;
        lemma_connection_entry_sound(
            ps[k - 1].entry,
            body_ctx(ps[k - 1].template, true, ps[k - 1].index),
            false,
            d,
            st,
            n,
        );
    }
}

// ── the world ─────────────────────────────────────────────────────────────
/// A world as the compiler builds it: 2 or 3 dimensions, every component
/// holding vectors of that length, and, over a world whose component count
/// fits 32 bits, every connection holding.
pub open spec fn world_sound(w: WorldV) -> bool {
    let d = w.dimensions as int;
    let n = w.components.len() as int;
    &&& (w.dimensions == 2 || w.dimensions == 3)
    &&& forall|i: int| 0 <= i < n ==> component_holds(#[trigger] w.components[i], d)
    &&& n <= 0xFFFF_FFFF ==> forall|j: int|
        0 <= j < w.connections.len() ==> connection_holds(#[trigger] w.connections[j], d, n)
}

proof fn lemma_world_passes_sound(cl: Seq<NodeV>, xl: Seq<NodeV>, templates: Seq<TemplateV>, d: nat)
    requires
        d == 2 || d == 3,
        world_passes(cl, xl, templates, d) is Ok,
    ensures
        world_sound(world_passes(cl, xl, templates, d)->Ok_0),
{
    reveal(world_passes);
    lemma_components_upto_sound(cl, templates, d, cl.len() as int);
    let b = components_upto(cl, templates, d, cl.len() as int)->Ok_0;
    let n = b.components.len() as int;
    let start = LinkingV { connections: Seq::empty(), names: b.names, seen_gravity: false };
    lemma_connections_upto_sound(xl, d, start, xl.len() as int, n);
    let own = connections_upto(xl, d, start, xl.len() as int)->Ok_0;
    lemma_produced_upto_sound(b.produced, d, own, b.produced.len() as int, n);
}

proof fn lemma_world_body_sound(es: Seq<(NodeV, NodeV)>, d: nat, templates: Seq<TemplateV>)
    requires
        d == 2 || d == 3,
        world_body(es, d, templates) is Ok,
    ensures
        world_sound(world_body(es, d, templates)->Ok_0),
{
    reveal(world_body);
    if let Some(NodeV::Sequence(cl)) = map_get(es, "components"@) {
        if let Some(NodeV::Sequence(xl)) = map_get(es, "connections"@) {
            lemma_world_passes_sound(cl, xl, templates, d);
        }
    }
}

proof fn lemma_world_templates_sound(es: Seq<(NodeV, NodeV)>, d: nat)
    requires
        d == 2 || d == 3,
        world_templates(es, d) is Ok,
    ensures
        world_sound(world_templates(es, d)->Ok_0),
{
    reveal(world_templates);
    match map_get(es, "templates"@) {
        None => lemma_world_body_sound(es, d, Seq::empty()),
        Some(NodeV::Sequence(list)) => {
            let ts = templates_upto(list, d, list.len() as int)->Ok_0;
            lemma_world_body_sound(es, d, ts);
        },
        _ => {},
    }
}

proof fn lemma_world_versioned_sound(es: Seq<(NodeV, NodeV)>)
    requires
        world_versioned(es) is Ok,
    ensures
        world_sound(world_versioned(es)->Ok_0),
{
    reveal(world_versioned);
    lemma_world_templates_sound(es, world_dimensions(es)->Ok_0);
}

/// Every world a document compiles to is sound.
pub proof fn lemma_world_of_sound(root: NodeV)
    requires
        world_of(root) is Ok,
    ensures
        world_sound(world_of(root)->Ok_0),
{
    reveal(world_of);
    if let NodeV::Mapping(es) = root {
        lemma_world_versioned_sound(es);
    }
}

// ── the law ───────────────────────────────────────────────────────────────
proof fn lemma_fits_by_view(w: &ParsedWorld)
    requires
        world_sound(w@),
        fits_offsets(w),
    ensures
        well_formed(w),
{
    let d = w.dimensions as int;
    let cs = w.components@;
    let xs = w.connections@;
    let n = cs.len() as int;
    let names = world_names(cs, xs);
    lemma_components_size_floor(cs, d, n);
    lemma_connections_size_floor(xs, d, xs.len() as int);
    lemma_name_offset_floor(names, names.len() as int);
    assert(n <= 0xFFFF_FFFF);
    assert(w@.components.len() == n);
    assert forall|i: int| 0 <= i < n implies component_fits(#[trigger] cs[i], d) by {
        assert(w@.components[i] == cs[i]@);
        assert(component_holds(w@.components[i], d));
    }
    assert forall|j: int| 0 <= j < xs.len() implies connection_fits(#[trigger] xs[j], d, n) by {
        assert(w@.connections[j] == xs[j]@);
        assert(connection_holds(w@.connections[j], d, n));
    }
}

/// What the compiler accepts, the reader loads: when a document compiles
/// to bytes, they are the emitted bytes of a well-formed world whose view
/// is the document's world, and loading them gives that world's shape.
pub proof fn lemma_compiled_world_loads(root: NodeV, r: Result<Vec<u8>, CompileError>)
    requires
        compiled_as(root, r),
        r is Ok,
    ensures
        exists|pw: ParsedWorld|
            {
                &&& #[trigger] well_formed(&pw)
                &&& pw@ == world_of(root)->Ok_0
                &&& r->Ok_0@ == emitted(&pw)
                &&& load_spec(r->Ok_0@) == Ok::<WorldShape, WorldError>(emitted_shape(&pw))
            },
{
    let w = world_of(root)->Ok_0;
    lemma_world_of_sound(root);
    let pw = choose|pw: ParsedWorld| pw@ == w && fits_offsets(&pw) && r->Ok_0@ == emitted(&pw);
    lemma_fits_by_view(&pw);
    lemma_emitted_world_loads(&pw);
}

} // verus!
