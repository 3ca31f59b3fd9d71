//! The world document: the author's YAML in, the compiled world out.
//!
//! One pass, in the schema's order: the top-level keys, `version`,
//! `dimensions`, the template declarations, the components (an invocation
//! takes its place in the list, so the state slots follow the expanded
//! list), then the file's own connections in order, then the connections
//! the expansions produced, in invocation order.

use vstd::prelude::*;
use vstd::string::StringExecFns;

use crate::text::{decimal, push_decimal, push_signed_decimal, signed_decimal};
use crate::world::compiler::{
    emit, emitted, fits, fits_offsets, Component, ComponentV, Connection, ConnectionV, ParsedWorld, WorldV,
    SCHEMA_VERSION,
};
use crate::world::compiled::lemma_compiled_world_loads;
use crate::world::errors::{CompileError, Span};
use crate::world::eval::load_spec;
use crate::world::parse::{
    cat2, cat3, connection_shape, decimal_text, first_unknown_key, insert_component, insert_connection,
    parse_component, parse_connection_shape, q, quoted, refused, resolve, resolve_connection, texts,
    unknown_key, component_of, NameMap, Owner,
};
use crate::world::templates::{
    body_ctx, decls_view, expand, expand_invocation, name_of, parse_templates, templates_upto, Building,
    BuildingV, ProducedConn, ProducedV, TemplateDecl, TemplateV,
};
use crate::world::yaml::{
    entries_view, get, items_view, lemma_mapping_view, lemma_sequence_view, load_yaml, map_get, node_at, yaml_load, Node,
    NODE_DEPTH,
    NodeV,
};

verus! {

// ── the component list ────────────────────────────────────────────────────
/// Component-list entry `i`: an invocation, or a component added under
/// its name.
#[verifier::opaque]
pub open spec fn component_entry(entry: NodeV, i: nat, templates: Seq<TemplateV>, d: nat, st: BuildingV) -> Result<
    BuildingV,
    Seq<char>,
> {
    let ctx = "components["@ + decimal(i) + "]"@;
    match entry {
        NodeV::Mapping(es) => if map_get(es, "template"@) is Some {
            if map_get(es, "type"@) is Some {
                Err(ctx + ": an entry takes `type` (a component) or `template` (an invocation), not both"@)
            } else {
                expand(es, ctx, templates, d, st)
            }
        } else {
            match component_of(es, ctx, d) {
                Err(m) => Err(m),
                Ok(c) => match insert_component(st.names, name_of(c), st.components.len() as usize) {
                    Err(m) => Err(m),
                    Ok(names) => Ok(BuildingV { components: st.components.push(c), names, produced: st.produced }),
                },
            }
        },
        _ => Err(ctx + " must be a mapping"@),
    }
}

/// The component list's first `k` entries.
pub open spec fn components_upto(list: Seq<NodeV>, templates: Seq<TemplateV>, d: nat, k: int) -> Result<
    BuildingV,
    Seq<char>,
>
    decreases k,
{
    if k <= 0 {
        Ok(BuildingV { components: Seq::empty(), names: Seq::empty(), produced: Seq::empty() })
    } else {
        match components_upto(list, templates, d, k - 1) {
            Err(m) => Err(m),
            Ok(st) => component_entry(list[k - 1], (k - 1) as nat, templates, d, st),
        }
    }
}

proof fn lemma_components_refused(list: Seq<NodeV>, templates: Seq<TemplateV>, d: nat, k: int, m: int)
    requires
        0 <= k <= m,
        components_upto(list, templates, d, k) is Err,
    ensures
        components_upto(list, templates, d, m) == components_upto(list, templates, d, k),
    decreases m - k,
{
    if k < m {
        lemma_components_refused(list, templates, d, k, m - 1);
    }
}

#[verifier::rlimit(40)]
fn add_component_entry(entry: &Node, i: usize, templates: &Vec<TemplateDecl>, d: usize, st: &mut Building) -> (r: Result<
    (),
    CompileError,
>)
    ensures
        match r {
            Ok(_) => component_entry(entry@, i as nat, decls_view(templates@), d as nat, old(st)@) == Ok::<
                BuildingV,
                Seq<char>,
            >(final(st)@),
            Err(e) => refused(e, component_entry(entry@, i as nat, decls_view(templates@), d as nat, old(st)@)),
        },
{
    proof {
        reveal(component_entry);
    }
    let ctx = cat3("components[", decimal_text(i as u64).as_str(), "]");
    let es = match entry {
        Node::Mapping(es) => es,
        _ => {
            return Err(CompileError::new(cat2(ctx.as_str(), " must be a mapping")));
        },
    };
    proof {
        lemma_mapping_view(*entry);
    }
    if get(es, "template").is_some() {
        if get(es, "type").is_some() {
            return Err(
                CompileError::new(
                    cat2(ctx.as_str(), ": an entry takes `type` (a component) or `template` (an invocation), not both"),
                ),
            );
        }
        return expand_invocation(es, ctx.as_str(), templates, d, st);
    }
    let c = match parse_component(es, ctx.as_str(), d) {
        Ok(c) => c,
        Err(e) => {
            return Err(e);
        },
    };
    let index = st.components.len();
    match st.names.add_component(component_name(&c).as_str(), index) {
        Ok(()) => {},
        Err(e) => {
            return Err(e);
        },
    }
    st.components.push(c);
    proof {
        assert(st@.components =~= old(st)@.components.push(c@));
        assert(st@.produced =~= old(st)@.produced);
    }
    Ok(())
}

fn component_name(c: &Component) -> (r: &String)
    ensures
        r@ == name_of(c@),
{
    match c {
        Component::PointMass { name, .. } => name,
        Component::Kinematic { name, .. } => name,
        Component::Anchor { name, .. } => name,
    }
}

fn read_components(list: &Vec<Node>, templates: &Vec<TemplateDecl>, d: usize) -> (r: Result<Building, CompileError>)
    ensures
        match r {
            Ok(b) => components_upto(items_view(list@), decls_view(templates@), d as nat, list@.len() as int) == Ok::<
                BuildingV,
                Seq<char>,
            >(b@),
            Err(e) => refused(e, components_upto(items_view(list@), decls_view(templates@), d as nat, list@.len() as int)),
        },
{
    let ghost view = items_view(list@);
    let mut st = Building { components: Vec::new(), names: NameMap::new(), produced: Vec::new() };
    proof {
        assert(st@.components =~= Seq::<ComponentV>::empty());
        assert(st@.produced =~= Seq::<ProducedV>::empty());
    }
    let mut i: usize = 0;
    while i < list.len()
        invariant
            i <= list.len(),
            view == items_view(list@),
            components_upto(view, decls_view(templates@), d as nat, i as int) == Ok::<BuildingV, Seq<char>>(st@),
        decreases list.len() - i,
    {
        match add_component_entry(&list[i], i, templates, d, &mut st) {
            Ok(()) => {},
            Err(e) => {
                proof {
                    lemma_components_refused(view, decls_view(templates@), d as nat, i + 1, list@.len() as int);
                }
                return Err(e);
            },
        }
        i = i + 1;
    }
    Ok(st)
}

// ── the connections ───────────────────────────────────────────────────────
/// What the connection passes have built: the connections, the name
/// table, and whether a gravity connection was seen.
pub struct LinkingV {
    pub connections: Seq<ConnectionV>,
    pub names: Seq<(Seq<char>, Owner)>,
    pub seen_gravity: bool,
}

/// One connection entry at `ctx`: its shape, its name added, its endpoints
/// resolved. The file's own list refuses an invocation.
#[verifier::opaque]
pub open spec fn connection_entry(entry: NodeV, ctx: Seq<char>, own_list: bool, d: nat, st: LinkingV) -> Result<
    LinkingV,
    Seq<char>,
> {
    match entry {
        NodeV::Mapping(es) => if own_list && map_get(es, "template"@) is Some {
            Err(ctx + ": template invocations may only appear in `components`"@)
        } else {
            match connection_shape(es, ctx, d) {
                Err(m) => Err(m),
                Ok(shape) => match (match shape.name {
                    Some(n) => insert_connection(st.names, n),
                    None => Ok(st.names),
                }) {
                    Err(m) => Err(m),
                    Ok(names) => match resolve_connection(shape, names, ctx, st.seen_gravity) {
                        Err(m) => Err(m),
                        Ok((c, seen)) => Ok(
                            LinkingV { connections: st.connections.push(c), names, seen_gravity: seen },
                        ),
                    },
                },
            }
        },
        _ => Err(ctx + " must be a mapping"@),
    }
}

/// The file's own connection list, its first `k` entries.
pub open spec fn connections_upto(list: Seq<NodeV>, d: nat, start: LinkingV, k: int) -> Result<LinkingV, Seq<char>>
    decreases k,
{
    if k <= 0 {
        Ok(start)
    } else {
        match connections_upto(list, d, start, k - 1) {
            Err(m) => Err(m),
            Ok(st) => connection_entry(list[k - 1], "connections["@ + decimal((k - 1) as nat) + "]"@, true, d, st),
        }
    }
}

/// The produced connections, their first `k`.
pub open spec fn produced_upto(ps: Seq<ProducedV>, d: nat, start: LinkingV, k: int) -> Result<LinkingV, Seq<char>>
    decreases k,
{
    if k <= 0 {
        Ok(start)
    } else {
        match produced_upto(ps, d, start, k - 1) {
            Err(m) => Err(m),
            Ok(st) => connection_entry(
                ps[k - 1].entry,
                body_ctx(ps[k - 1].template, true, ps[k - 1].index),
                false,
                d,
                st,
            ),
        }
    }
}

proof fn lemma_connections_refused(list: Seq<NodeV>, d: nat, start: LinkingV, k: int, m: int)
    requires
        0 <= k <= m,
        connections_upto(list, d, start, k) is Err,
    ensures
        connections_upto(list, d, start, m) == connections_upto(list, d, start, k),
    decreases m - k,
{
    if k < m {
        lemma_connections_refused(list, d, start, k, m - 1);
    }
}

proof fn lemma_produced_refused(ps: Seq<ProducedV>, d: nat, start: LinkingV, k: int, m: int)
    requires
        0 <= k <= m,
        produced_upto(ps, d, start, k) is Err,
    ensures
        produced_upto(ps, d, start, m) == produced_upto(ps, d, start, k),
    decreases m - k,
{
    if k < m {
        lemma_produced_refused(ps, d, start, k, m - 1);
    }
}

/// The connection passes' state.
struct Linking {
    connections: Vec<Connection>,
    names: NameMap,
    seen_gravity: bool,
}

impl View for Linking {
    type V = LinkingV;

    closed spec fn view(&self) -> LinkingV {
        LinkingV {
            connections: Seq::new(self.connections@.len(), |i: int| self.connections@[i]@),
            names: self.names@,
            seen_gravity: self.seen_gravity,
        }
    }
}

#[verifier::rlimit(40)]
fn add_connection_entry(entry: &Node, ctx: &str, own_list: bool, d: usize, st: &mut Linking) -> (r: Result<
    (),
    CompileError,
>)
    ensures
        match r {
            Ok(_) => connection_entry(entry@, ctx@, own_list, d as nat, old(st)@) == Ok::<LinkingV, Seq<char>>(
                final(st)@,
            ),
            Err(e) => refused(e, connection_entry(entry@, ctx@, own_list, d as nat, old(st)@)),
        },
{
    proof {
        reveal(connection_entry);
    }
    let es = match entry {
        Node::Mapping(es) => es,
        _ => {
            return Err(CompileError::new(cat2(ctx, " must be a mapping")));
        },
    };
    proof {
        lemma_mapping_view(*entry);
    }
    if own_list && get(es, "template").is_some() {
        return Err(CompileError::new(cat2(ctx, ": template invocations may only appear in `components`")));
    }
    let shape = match parse_connection_shape(es, ctx, d) {
        Ok(shape) => shape,
        Err(e) => {
            return Err(e);
        },
    };
    match &shape.name {
        Some(n) => match st.names.add_connection(n.as_str()) {
            Ok(()) => {},
            Err(e) => {
                return Err(e);
            },
        },
        None => {},
    }
    let c = match resolve(shape, &st.names, ctx, &mut st.seen_gravity) {
        Ok(c) => c,
        Err(e) => {
            return Err(e);
        },
    };
    st.connections.push(c);
    proof {
        assert(st@.connections =~= old(st)@.connections.push(c@));
    }
    Ok(())
}


fn link_connections(list: &Vec<Node>, d: usize, st: &mut Linking) -> (r: Result<(), CompileError>)
    ensures
        match r {
            Ok(_) => connections_upto(items_view(list@), d as nat, old(st)@, list@.len() as int) == Ok::<
                LinkingV,
                Seq<char>,
            >(final(st)@),
            Err(e) => refused(e, connections_upto(items_view(list@), d as nat, old(st)@, list@.len() as int)),
        },
{
    let ghost view = items_view(list@);
    let ghost start = st@;
    let mut i: usize = 0;
    while i < list.len()
        invariant
            i <= list.len(),
            view == items_view(list@),
            start == old(st)@,
            connections_upto(view, d as nat, start, i as int) == Ok::<LinkingV, Seq<char>>(st@),
        decreases list.len() - i,
    {
        let ctx = cat3("connections[", decimal_text(i as u64).as_str(), "]");
        match add_connection_entry(&list[i], ctx.as_str(), true, d, st) {
            Ok(()) => {},
            Err(e) => {
                proof {
                    lemma_connections_refused(view, d as nat, start, i + 1, list@.len() as int);
                }
                return Err(e);
            },
        }
        i = i + 1;
    }
    Ok(())
}

/// The produced connections' views.
pub open spec fn produced_view(ps: Seq<ProducedConn>) -> Seq<ProducedV> {
    Seq::new(ps.len(), |i: int| ps[i]@)
}

fn link_produced(ps: &Vec<ProducedConn>, d: usize, st: &mut Linking) -> (r: Result<(), CompileError>)
    ensures
        match r {
            Ok(_) => produced_upto(produced_view(ps@), d as nat, old(st)@, ps@.len() as int) == Ok::<
                LinkingV,
                Seq<char>,
            >(final(st)@),
            Err(e) => refused(e, produced_upto(produced_view(ps@), d as nat, old(st)@, ps@.len() as int)),
        },
{
    let ghost view = produced_view(ps@);
    let ghost start = st@;
    let mut i: usize = 0;
    while i < ps.len()
        invariant
            i <= ps.len(),
            view == produced_view(ps@),
            start == old(st)@,
            produced_upto(view, d as nat, start, i as int) == Ok::<LinkingV, Seq<char>>(st@),
        decreases ps.len() - i,
    {
        let p = &ps[i];
        let ctx = crate::world::templates::body_context(p.template.as_str(), true, p.index);
        match add_connection_entry(&p.entry, ctx.as_str(), false, d, st) {
            Ok(()) => {},
            Err(e) => {
                proof {
                    lemma_produced_refused(view, d as nat, start, i + 1, ps@.len() as int);
                }
                return Err(e);
            },
        }
        i = i + 1;
    }
    Ok(())
}

// ── the document ──────────────────────────────────────────────────────────
/// The top-level keys.
pub open spec fn top_keys() -> Seq<Seq<char>> {
    seq!["version"@, "dimensions"@, "components"@, "connections"@, "templates"@]
}

/// A missing top-level key.
pub open spec fn missing_key(key: Seq<char>) -> Seq<char> {
    "missing required top-level key "@ + q(key)
}

/// The world's passes, once its lists are in hand.
#[verifier::opaque]
pub open spec fn world_passes(cl: Seq<NodeV>, xl: Seq<NodeV>, templates: Seq<TemplateV>, d: nat) -> Result<
    WorldV,
    Seq<char>,
> {
    match components_upto(cl, templates, d, cl.len() as int) {
        Err(m) => Err(m),
        Ok(b) => match connections_upto(
            xl,
            d,
            LinkingV { connections: Seq::empty(), names: b.names, seen_gravity: false },
            xl.len() as int,
        ) {
            Err(m) => Err(m),
            Ok(own) => match produced_upto(b.produced, d, own, b.produced.len() as int) {
                Err(m) => Err(m),
                Ok(all) => Ok(WorldV { dimensions: d as u8, components: b.components, connections: all.connections }),
            },
        },
    }
}

/// The world's two lists, then its passes.
#[verifier::opaque]
pub open spec fn world_body(es: Seq<(NodeV, NodeV)>, d: nat, templates: Seq<TemplateV>) -> Result<WorldV, Seq<char>> {
    match map_get(es, "components"@) {
        None => Err(missing_key("components"@)),
        Some(NodeV::Sequence(cl)) => match map_get(es, "connections"@) {
            None => Err(missing_key("connections"@)),
            Some(NodeV::Sequence(xl)) => world_passes(cl, xl, templates, d),
            Some(_) => Err("`connections` must be a list"@),
        },
        Some(_) => Err("`components` must be a list"@),
    }
}

/// The world's templates, then its body.
#[verifier::opaque]
pub open spec fn world_templates(es: Seq<(NodeV, NodeV)>, d: nat) -> Result<WorldV, Seq<char>> {
    match map_get(es, "templates"@) {
        None => world_body(es, d, Seq::empty()),
        Some(NodeV::Sequence(list)) => match templates_upto(list, d, list.len() as int) {
            Err(m) => Err(m),
            Ok(ts) => world_body(es, d, ts),
        },
        Some(_) => Err("`templates` must be a list"@),
    }
}

/// The world's refusal when its root is empty.
pub open spec fn empty_world() -> Seq<char> {
    "the world is empty — expected a mapping with `version`, `dimensions`, `components`, and `connections`"@
}

/// An unsupported `version`, as the refusal reads it.
#[verifier::opaque]
pub open spec fn version_message(v: i64) -> Seq<char> {
    "unsupported schema version "@ + signed_decimal(v as int) + " — this compiler implements schema version "@
        + decimal(SCHEMA_VERSION as nat)
}

fn version_refusal(v: i64) -> (e: CompileError)
    ensures
        e.spec_message() == version_message(v),
        e.spec_span() is None,
{
    proof {
        reveal(version_message);
    }
    let mut m = String::from_str("unsupported schema version ");
    push_signed_decimal(&mut m, v);
    m.append(" — this compiler implements schema version ");
    push_decimal(&mut m, SCHEMA_VERSION as u64);
    CompileError::new(m)
}

/// The world's `dimensions`: 2 or 3.
pub open spec fn world_dimensions(es: Seq<(NodeV, NodeV)>) -> Result<nat, Seq<char>> {
    match map_get(es, "dimensions"@) {
        None => Err(missing_key("dimensions"@)),
        Some(NodeV::Int(n)) => if n == 2 || n == 3 {
            Ok(n as nat)
        } else {
            Err("`dimensions` must be 2 or 3"@)
        },
        Some(_) => Err("`dimensions` must be 2 or 3"@),
    }
}

fn read_dimensions(es: &Vec<(Node, Node)>) -> (r: Result<usize, CompileError>)
    ensures
        match r {
            Ok(d) => world_dimensions(entries_view(es@)) == Ok::<nat, Seq<char>>(d as nat) && (d == 2 || d == 3),
            Err(e) => refused(e, world_dimensions(entries_view(es@))),
        },
{
    match get(es, "dimensions") {
        None => Err(CompileError::new(cat2("missing required top-level key ", quoted("dimensions").as_str()))),
        Some(Node::Int(n)) => {
            if *n == 2 {
                Ok(2)
            } else if *n == 3 {
                Ok(3)
            } else {
                Err(CompileError::new(String::from_str("`dimensions` must be 2 or 3")))
            }
        },
        Some(_) => Err(CompileError::new(String::from_str("`dimensions` must be 2 or 3"))),
    }
}

/// Why the world's `version` is refused: missing, not an integer, or not
/// the schema version this compiler implements.
pub open spec fn version_refused(es: Seq<(NodeV, NodeV)>) -> Option<Seq<char>> {
    match map_get(es, "version"@) {
        None => Some(missing_key("version"@)),
        Some(NodeV::Int(v)) => if v != 1 {
            Some(version_message(v))
        } else {
            None
        },
        Some(_) => Some("`version` must be an integer (the schema version this world targets)"@),
    }
}

fn check_version(es: &Vec<(Node, Node)>) -> (r: Option<CompileError>)
    ensures
        match r {
            Some(e) => version_refused(entries_view(es@)) == Some(e.spec_message()) && e.spec_span() is None,
            None => version_refused(entries_view(es@)) is None,
        },
{
    match get(es, "version") {
        None => Some(CompileError::new(cat2("missing required top-level key ", quoted("version").as_str()))),
        Some(Node::Int(v)) => {
            if *v != 1 {
                Some(version_refusal(*v))
            } else {
                None
            }
        },
        Some(_) => Some(CompileError::new(String::from_str("`version` must be an integer (the schema version this world targets)"))),
    }
}

/// A world mapping whose keys passed: `version` 1, `dimensions` 2 or 3,
/// then the rest.
#[verifier::opaque]
pub open spec fn world_versioned(es: Seq<(NodeV, NodeV)>) -> Result<WorldV, Seq<char>> {
    match version_refused(es) {
        Some(m) => Err(m),
        None => match world_dimensions(es) {
            Err(m) => Err(m),
            Ok(d) => world_templates(es, d),
        },
    }
}

/// A world document: a mapping with only the top-level keys, `version` 1,
/// `dimensions` 2 or 3, then its templates, components and connections.
#[verifier::opaque]
pub open spec fn world_of(root: NodeV) -> Result<WorldV, Seq<char>> {
    match root {
        NodeV::Mapping(es) => match unknown_key(es, top_keys(), 0) {
            Some(key) => Err("unknown top-level key "@ + q(key)),
            None => world_versioned(es),
        },
        NodeV::Null => Err(empty_world()),
        _ => Err("the world must be a YAML mapping"@),
    }
}

#[verifier::rlimit(40)]
fn read_world_passes(cl: &Vec<Node>, xl: &Vec<Node>, templates: &Vec<TemplateDecl>, d: usize) -> (r: Result<
    ParsedWorld,
    CompileError,
>)
    requires
        d == 2 || d == 3,
    ensures
        match r {
            Ok(w) => world_passes(items_view(cl@), items_view(xl@), decls_view(templates@), d as nat) == Ok::<
                WorldV,
                Seq<char>,
            >(w@) && w.dimensions == d,
            Err(e) => refused(e, world_passes(items_view(cl@), items_view(xl@), decls_view(templates@), d as nat)),
        },
{
    proof {
        reveal(world_passes);
    }
    let built = match read_components(cl, templates, d) {
        Ok(b) => b,
        Err(e) => {
            return Err(e);
        },
    };
    let Building { components, names, produced } = built;
    let mut st = Linking { connections: Vec::new(), names, seen_gravity: false };
    proof {
        assert(st@.connections =~= Seq::<ConnectionV>::empty());
    }
    match link_connections(xl, d, &mut st) {
        Ok(()) => {},
        Err(e) => {
            return Err(e);
        },
    }
    proof {
        assert(produced_view(produced@) =~= built@.produced);
    }
    match link_produced(&produced, d, &mut st) {
        Ok(()) => {},
        Err(e) => {
            return Err(e);
        },
    }
    let w = ParsedWorld { dimensions: d as u8, components, connections: st.connections };
    proof {
        assert(w@.components =~= built@.components);
        assert(w@.connections =~= st@.connections);
    }
    Ok(w)
}

#[verifier::rlimit(100)]
#[verifier::spinoff_prover]
fn read_world_body(es: &Vec<(Node, Node)>, d: usize, templates: &Vec<TemplateDecl>) -> (r: Result<
    ParsedWorld,
    CompileError,
>)
    requires
        d == 2 || d == 3,
    ensures
        match r {
            Ok(w) => world_body(entries_view(es@), d as nat, decls_view(templates@)) == Ok::<WorldV, Seq<char>>(w@)
                && w.dimensions == d,
            Err(e) => refused(e, world_body(entries_view(es@), d as nat, decls_view(templates@))),
        },
{
    proof {
        reveal(world_body);
    }
    let cl = match get(es, "components") {
        Some(node) => match node {
            Node::Sequence(cl) => {
                proof {
                    lemma_sequence_view(*node);
                }
                cl
            },
            _ => {
                return Err(CompileError::new(String::from_str("`components` must be a list")));
            },
        },
        None => {
            return Err(CompileError::new(cat2("missing required top-level key ", quoted("components").as_str())));
        },
    };
    let xl = match get(es, "connections") {
        Some(node) => match node {
            Node::Sequence(xl) => {
                proof {
                    lemma_sequence_view(*node);
                }
                xl
            },
            _ => {
                return Err(CompileError::new(String::from_str("`connections` must be a list")));
            },
        },
        None => {
            return Err(CompileError::new(cat2("missing required top-level key ", quoted("connections").as_str())));
        },
    };
    read_world_passes(cl, xl, templates, d)
}

fn read_world_templates(es: &Vec<(Node, Node)>, d: usize) -> (r: Result<ParsedWorld, CompileError>)
    requires
        d == 2 || d == 3,
    ensures
        match r {
            Ok(w) => world_templates(entries_view(es@), d as nat) == Ok::<WorldV, Seq<char>>(w@) && w.dimensions == d,
            Err(e) => refused(e, world_templates(entries_view(es@), d as nat)),
        },
{
    proof {
        reveal(world_templates);
    }
    match get(es, "templates") {
        None => {
            let none: Vec<TemplateDecl> = Vec::new();
            proof {
                assert(decls_view(none@) =~= Seq::<TemplateV>::empty());
            }
            read_world_body(es, d, &none)
        },
        Some(node) => match node {
            Node::Sequence(list) => {
                proof {
                    lemma_sequence_view(*node);
                }
                match parse_templates(list, d) {
                    Ok(ts) => read_world_body(es, d, &ts),
                    Err(e) => Err(e),
                }
            },
            _ => Err(CompileError::new(String::from_str("`templates` must be a list"))),
        },
    }
}

#[verifier::rlimit(30)]
fn read_world_versioned(es: &Vec<(Node, Node)>) -> (r: Result<ParsedWorld, CompileError>)
    ensures
        match r {
            Ok(w) => world_versioned(entries_view(es@)) == Ok::<WorldV, Seq<char>>(w@) && (w.dimensions == 2
                || w.dimensions == 3),
            Err(e) => refused(e, world_versioned(entries_view(es@))),
        },
{
    proof {
        reveal(world_versioned);
    }
    match check_version(es) {
        Some(e) => {
            return Err(e);
        },
        None => {},
    }
    let d = match read_dimensions(es) {
        Ok(d) => d,
        Err(e) => {
            return Err(e);
        },
    };
    read_world_templates(es, d)
}

/// Parse a world document into the world it declares.
#[verifier::rlimit(40)]
pub fn parse_world(root: &Node) -> (r: Result<ParsedWorld, CompileError>)
    ensures
        match r {
            Ok(w) => world_of(root@) == Ok::<WorldV, Seq<char>>(w@) && (w.dimensions == 2 || w.dimensions == 3),
            Err(e) => refused(e, world_of(root@)),
        },
{
    proof {
        reveal(world_of);
    }
    let es = match root {
        Node::Mapping(es) => es,
        Node::Null => {
            return Err(CompileError::new(String::from_str("the world is empty — expected a mapping with `version`, `dimensions`, `components`, and `connections`")));
        },
        _ => {
            return Err(CompileError::new(String::from_str("the world must be a YAML mapping")));
        },
    };
    proof {
        lemma_mapping_view(*root);
    }
    let allowed: Vec<&'static str> = vec!["version", "dimensions", "components", "connections", "templates"];
    proof {
        assert(texts(allowed@) =~= top_keys());
    }
    match first_unknown_key(es, &allowed) {
        Some(key) => {
            return Err(CompileError::new(cat2("unknown top-level key ", quoted(key.as_str()).as_str())));
        },
        None => {},
    }
    read_world_versioned(es)
}


// ── compiling ─────────────────────────────────────────────────────────────
/// The refusal of a world whose bytes would overflow the format's 32-bit
/// offsets.
pub open spec fn too_large() -> Seq<char> {
    "the compiled world does not fit the format's 32-bit offsets"@
}

/// What compiling a document root gives: its refusal, or the bytes of the
/// world it declares (or, for a world past the format's 32-bit offsets,
/// that refusal).
pub open spec fn compiled_as(root: NodeV, r: Result<Vec<u8>, CompileError>) -> bool {
    match world_of(root) {
        Err(m) => r matches Err(e) && e.spec_message() == m && e.spec_span() is None,
        Ok(w) => match r {
            Ok(bytes) => exists|pw: ParsedWorld| pw@ == w && fits_offsets(&pw) && bytes@ == emitted(&pw),
            Err(e) => exists|pw: ParsedWorld| pw@ == w && !fits_offsets(&pw) && e.spec_message() == too_large()
                && e.spec_span() is None,
        },
    }
}

/// Compile a loaded document root into world bytes. Bytes it returns
/// load.
pub fn compile_tree(root: &Node) -> (r: Result<Vec<u8>, CompileError>)
    ensures
        compiled_as(root@, r),
        r matches Ok(bytes) ==> load_spec(bytes@) is Ok,
{
    let world = match parse_world(root) {
        Ok(w) => w,
        Err(e) => {
            return Err(e);
        },
    };
    if !fits(&world) {
        return Err(CompileError::new(String::from_str("the compiled world does not fit the format's 32-bit offsets")));
    }
    let r = Ok(emit(&world));
    proof {
        assert(compiled_as(root@, r));
        lemma_compiled_world_loads(root@, r);
    }
    r
}

/// The refusal of a text holding other than one document.
pub open spec fn document_count_message(n: nat) -> Seq<char> {
    "expected exactly one YAML document, found "@ + decimal(n)
}

/// Compile the author's YAML into world bytes: a scan error with its line
/// and column, a text that is not exactly one document, or the compilation
/// of the one document the loader made of the text. Bytes it returns load.
pub fn compile(text: &str) -> (r: Result<Vec<u8>, CompileError>)
    ensures
        match yaml_load(text@) {
            Err((info, line, col)) => r matches Err(e) && e.spec_message() == "invalid YAML: "@ + info
                && e.spec_span() == Some(Span { line, col }),
            Ok(ts) => if ts.len() != 1 {
                r matches Err(e) && e.spec_message() == document_count_message(ts.len()) && e.spec_span() is None
            } else {
                compiled_as(node_at(ts[0], NODE_DEPTH as nat), r)
            },
        },
        r matches Ok(bytes) ==> load_spec(bytes@) is Ok,
{
    let mut docs = match load_yaml(text) {
        Ok(docs) => docs,
        Err(f) => {
            return Err(CompileError::at(cat2("invalid YAML: ", f.info.as_str()), f.line, f.col));
        },
    };
    if docs.len() != 1 {
        return Err(CompileError::new(cat2("expected exactly one YAML document, found ", decimal_text(docs.len() as u64).as_str())));
    }
    let root = docs.pop().unwrap();
    let r = compile_tree(&root);
    r
}

} // verus!
