//! The world compiler's checks on one entry: a component, a connection's
//! shape, the field values, and the file-wide name table.
//!
//! Every check reads the compiled-in catalog (`component_types`,
//! `connection_types`, `reserved_types`); a refusal is a [`CompileError`]
//! with no location, whose message names the offending entry.

use vstd::prelude::*;
use vstd::string::{StrSliceExecFns, StringExecFns};

use crate::text::{decimal, push_decimal, signed_decimal, push_signed_decimal};
use crate::world::compiler::{
    component_fields, component_type_name, component_types, connection_fields, connection_type_name,
    connection_types, reserved_types, Component, ComponentV, Connection, ConnectionV, FieldShape, FieldSpec, TypeSpec,
};
use crate::world::errors::CompileError;
use crate::world::yaml::{entries_view, get, map_get, node_text, push_node_text, real_value, yaml_real, Node, NodeV};

verus! {

// ── messages ──────────────────────────────────────────────────────────────
/// A name in backquotes.
pub open spec fn q(s: Seq<char>) -> Seq<char> {
    "`"@ + s + "`"@
}

pub fn cat2(a: &str, b: &str) -> (r: String)
    ensures
        r@ == a@ + b@,
{
    let mut r = String::from_str(a);
    r.append(b);
    r
}

pub fn cat3(a: &str, b: &str, c: &str) -> (r: String)
    ensures
        r@ == a@ + b@ + c@,
{
    let mut r = String::from_str(a);
    r.append(b);
    r.append(c);
    r
}

pub fn cat4(a: &str, b: &str, c: &str, d: &str) -> (r: String)
    ensures
        r@ == a@ + b@ + c@ + d@,
{
    let mut r = String::from_str(a);
    r.append(b);
    r.append(c);
    r.append(d);
    r
}

pub fn cat5(a: &str, b: &str, c: &str, d: &str, e: &str) -> (r: String)
    ensures
        r@ == a@ + b@ + c@ + d@ + e@,
{
    let mut r = String::from_str(a);
    r.append(b);
    r.append(c);
    r.append(d);
    r.append(e);
    r
}

/// A name in backquotes.
pub fn quoted(s: &str) -> (r: String)
    ensures
        r@ == q(s@),
{
    cat3("`", s, "`")
}

/// `n` in decimal.
pub fn decimal_text(n: u64) -> (r: String)
    ensures
        r@ == decimal(n as nat),
{
    let mut r = String::new();
    push_decimal(&mut r, n);
    proof {
        assert(r@ =~= decimal(n as nat));
    }
    r
}

/// How a node reads inside a message.
pub fn node_text_string(n: &Node) -> (r: String)
    ensures
        r@ == node_text(n@),
{
    let mut r = String::new();
    push_node_text(&mut r, n);
    proof {
        assert(r@ =~= node_text(n@));
    }
    r
}

/// A refusal with no location.
pub open spec fn refused<T>(e: CompileError, s: Result<T, Seq<char>>) -> bool {
    s == Err::<T, Seq<char>>(e.spec_message()) && e.spec_span() is None
}

fn refuse<T>(message: String) -> (r: Result<T, CompileError>)
    ensures
        r matches Err(e) && e.spec_message() == message@ && e.spec_span() is None,
{
    Err(CompileError::new(message))
}

// ── numbers ───────────────────────────────────────────────────────────────
/// The core-schema number a node holds, as a double's bit pattern: an
/// integer is the double its decimal text reads as (the nearest one); a
/// real is what its text reads as.
pub open spec fn number_of(n: NodeV) -> Option<u64> {
    match n {
        NodeV::Int(i) => yaml_real(signed_decimal(i as int)),
        NodeV::Real(t) => yaml_real(t),
        _ => None,
    }
}

pub fn number_value(n: &Node) -> (r: Option<u64>)
    ensures
        r == number_of(n@),
{
    match n {
        Node::Int(i) => {
            let mut t = String::new();
            push_signed_decimal(&mut t, *i);
            proof {
                assert(t@ =~= signed_decimal(*i as int));
            }
            real_value(t.as_str())
        },
        Node::Real(t) => real_value(t.as_str()),
        _ => None,
    }
}

/// The double with bit pattern `b` is greater than zero: the sign bit is
/// clear, and it is neither +0 nor a NaN (+infinity is the largest such
/// pattern).
pub open spec fn double_positive(b: u64) -> bool {
    0 < b <= 0x7FF0_0000_0000_0000
}

/// The double with bit pattern `b` is greater than or equal to zero: a
/// positive one, +0, or -0.
pub open spec fn double_non_negative(b: u64) -> bool {
    b <= 0x7FF0_0000_0000_0000 || b == 0x8000_0000_0000_0000
}

/// A number field: the number, held to its shape.
pub open spec fn field_number(v: NodeV, label: Seq<char>, field: Seq<char>, shape: FieldShape) -> Result<
    u64,
    Seq<char>,
> {
    match number_of(v) {
        None => Err(label + ": "@ + q(field) + " must be a number"@),
        Some(b) => if shape == FieldShape::Positive && !double_positive(b) {
            Err(label + ": "@ + q(field) + " must be > 0"@)
        } else if shape == FieldShape::NonNegative && !double_non_negative(b) {
            Err(label + ": "@ + q(field) + " must be >= 0"@)
        } else {
            Ok(b)
        },
    }
}

pub fn read_number(v: &Node, label: &str, field: &str, shape: FieldShape) -> (r: Result<u64, CompileError>)
    ensures
        match r {
            Ok(b) => field_number(v@, label@, field@, shape) == Ok::<u64, Seq<char>>(b),
            Err(e) => refused(e, field_number(v@, label@, field@, shape)),
        },
{
    let b = match number_value(v) {
        Some(b) => b,
        None => {
            return refuse(cat4(label, ": ", quoted(field).as_str(), " must be a number"));
        },
    };
    if shape == FieldShape::Positive && !(0 < b && b <= 0x7FF0_0000_0000_0000) {
        return refuse(cat4(label, ": ", quoted(field).as_str(), " must be > 0"));
    }
    if shape == FieldShape::NonNegative && !(b <= 0x7FF0_0000_0000_0000 || b == 0x8000_0000_0000_0000) {
        return refuse(cat4(label, ": ", quoted(field).as_str(), " must be >= 0"));
    }
    Ok(b)
}

/// A vector field: a list of exactly `d` numbers.
pub open spec fn field_vec(v: NodeV, label: Seq<char>, field: Seq<char>, d: nat) -> Result<Seq<u64>, Seq<char>> {
    let bad = label + ": "@ + q(field) + " must be a list of exactly "@ + decimal(d) + " numbers"@;
    match v {
        NodeV::Sequence(items) => if items.len() != d {
            Err(bad)
        } else if exists|i: int| 0 <= i < d && #[trigger] number_of(items[i]) is None {
            Err(bad)
        } else {
            Ok(Seq::new(d, |i: int| number_of(items[i])->0))
        },
        _ => Err(bad),
    }
}

pub fn read_vec(v: &Node, label: &str, field: &str, d: usize) -> (r: Result<Vec<u64>, CompileError>)
    ensures
        match r {
            Ok(ws) => field_vec(v@, label@, field@, d as nat) == Ok::<Seq<u64>, Seq<char>>(ws@),
            Err(e) => refused(e, field_vec(v@, label@, field@, d as nat)),
        },
{
    let items = match v {
        Node::Sequence(items) => items,
        _ => {
            let bad = cat5(label, ": ", quoted(field).as_str(), " must be a list of exactly ", decimal_text(d as u64).as_str());
            return refuse(cat2(bad.as_str(), " numbers"));
        },
    };
    proof {
        crate::world::yaml::lemma_sequence_view(*v);
    }
    if items.len() != d {
        let bad = cat5(label, ": ", quoted(field).as_str(), " must be a list of exactly ", decimal_text(d as u64).as_str());
        return refuse(cat2(bad.as_str(), " numbers"));
    }
    let mut out: Vec<u64> = Vec::new();
    let mut i: usize = 0;
    while i < d
        invariant
            i <= d,
            items.len() == d,
            v@ == NodeV::Sequence(crate::world::yaml::items_view(items@)),
            out.len() == i,
            forall|k: int| 0 <= k < i ==> #[trigger] number_of(items@[k]@) == Some(out@[k]),
        decreases d - i,
    {
        match number_value(&items[i]) {
            Some(b) => {
                out.push(b);
            },
            None => {
                let bad = cat5(label, ": ", quoted(field).as_str(), " must be a list of exactly ", decimal_text(d as u64).as_str());
                proof {
                    let s = crate::world::yaml::items_view(items@);
                    assert(number_of(s[i as int]) is None);
                }
                return refuse(cat2(bad.as_str(), " numbers"));
            },
        }
        i = i + 1;
    }
    proof {
        let s = crate::world::yaml::items_view(items@);
        assert(!exists|k: int| 0 <= k < d && #[trigger] number_of(s[k]) is None) by {
            assert forall|k: int| 0 <= k < d implies !(#[trigger] number_of(s[k]) is None) by {
                assert(number_of(items@[k]@) == Some(out@[k]));
            }
        }
        assert(out@ =~= Seq::new(d as nat, |k: int| number_of(s[k])->0)) by {
            assert forall|k: int| 0 <= k < d implies out@[k] == number_of(s[k])->0 by {
                assert(number_of(items@[k]@) == Some(out@[k]));
            }
        }
    }
    Ok(out)
}

/// `d` zeros: an optional vector's default.
pub fn zeros(d: usize) -> (r: Vec<u64>)
    ensures
        r@ == Seq::new(d as nat, |i: int| 0u64),
{
    let mut r: Vec<u64> = Vec::new();
    let mut i: usize = 0;
    while i < d
        invariant
            i <= d,
            r@ == Seq::new(i as nat, |k: int| 0u64),
        decreases d - i,
    {
        r.push(0);
        proof {
            assert(r@ =~= Seq::new((i + 1) as nat, |k: int| 0u64));
        }
        i = i + 1;
    }
    r
}

// ── names ─────────────────────────────────────────────────────────────────
/// Whether a text starts with `$`: a template parameter reference.
pub open spec fn is_reference(s: Seq<char>) -> bool {
    s.len() > 0 && s[0] == '$'
}

pub fn starts_with_dollar(s: &str) -> (b: bool)
    ensures
        b == is_reference(s@),
{
    s.unicode_len() > 0 && s.get_char(0) == '$'
}

/// A name outside a template body: a parameter reference is refused.
pub open spec fn plain_name(name: Seq<char>) -> Result<Seq<char>, Seq<char>> {
    if is_reference(name) {
        Err(q(name) + " is a template parameter reference; those are valid only inside a template body"@)
    } else {
        Ok(name)
    }
}

pub fn check_plain_name(name: &str) -> (r: Result<String, CompileError>)
    ensures
        match r {
            Ok(n) => plain_name(name@) == Ok::<Seq<char>, Seq<char>>(n@),
            Err(e) => refused(e, plain_name(name@)),
        },
{
    if starts_with_dollar(name) {
        return refuse(cat2(quoted(name).as_str(), " is a template parameter reference; those are valid only inside a template body"));
    }
    Ok(String::from_str(name))
}


// ── the catalog ───────────────────────────────────────────────────────────
/// Two texts are equal.
pub fn same_text(a: &str, b: &str) -> (r: bool)
    ensures
        r == (a@ == b@),
{
    a.to_owned() == b.to_owned()
}

/// The component catalog's index of the type named `name`.
pub open spec fn component_kind(name: Seq<char>) -> Option<int> {
    if name == component_type_name(0)@ {
        Some(0)
    } else if name == component_type_name(1)@ {
        Some(1)
    } else if name == component_type_name(2)@ {
        Some(2)
    } else {
        None
    }
}

/// The connection catalog's index of the type named `name`.
pub open spec fn connection_kind(name: Seq<char>) -> Option<int> {
    if name == connection_type_name(0)@ {
        Some(0)
    } else if name == connection_type_name(1)@ {
        Some(1)
    } else if name == connection_type_name(2)@ {
        Some(2)
    } else {
        None
    }
}

/// A catalog's index of the type named `name`.
fn catalog_index(types: &Vec<TypeSpec>, name: &str) -> (r: Option<usize>)
    requires
        types@.len() == 3,
    ensures
        r == (if name@ == types@[0].name@ {
            Some(0usize)
        } else if name@ == types@[1].name@ {
            Some(1usize)
        } else if name@ == types@[2].name@ {
            Some(2usize)
        } else {
            None::<usize>
        }),
{
    if same_text(name, types[0].name) {
        Some(0)
    } else if same_text(name, types[1].name) {
        Some(1)
    } else if same_text(name, types[2].name) {
        Some(2)
    } else {
        None
    }
}

/// A name the schema reserves.
pub open spec fn is_reserved(name: Seq<char>) -> bool {
    name == "collider"@ || name == "motor"@ || name == "joint_angle"@ || name == "contact"@
}

fn reserved(name: &str) -> (b: bool)
    ensures
        b == is_reserved(name@),
{
    let types = reserved_types();
    let mut i: usize = 0;
    while i < types.len()
        invariant
            i <= types.len(),
            types@ == seq![
                crate::world::compiler::ReservedSpec { name: "collider", kind: crate::world::compiler::ReservedKind::Component },
                crate::world::compiler::ReservedSpec { name: "motor", kind: crate::world::compiler::ReservedKind::Connection },
                crate::world::compiler::ReservedSpec { name: "joint_angle", kind: crate::world::compiler::ReservedKind::Connection },
                crate::world::compiler::ReservedSpec { name: "contact", kind: crate::world::compiler::ReservedKind::Connection },
            ],
            forall|j: int| 0 <= j < i ==> types@[j].name@ != name@,
        decreases types.len() - i,
    {
        if same_text(types[i].name, name) {
            return true;
        }
        i = i + 1;
    }
    proof {
        assert(types@[0].name@ != name@);
        assert(types@[1].name@ != name@);
        assert(types@[2].name@ != name@);
        assert(types@[3].name@ != name@);
    }
    false
}

/// Why a `type:` name is refused in component (or connection) position:
/// reserved, from the other catalog, or unknown.
pub open spec fn type_error(name: Seq<char>, component: bool) -> Seq<char> {
    let position = if component {
        "component"@
    } else {
        "connection"@
    };
    let other = if component {
        "connection"@
    } else {
        "component"@
    };
    if is_reserved(name) {
        "type "@ + q(name) + " is reserved but not implemented in v1"@
    } else if (if component {
        connection_kind(name) is Some
    } else {
        component_kind(name) is Some
    }) {
        q(name) + " is a "@ + other + " type, not a "@ + position + " type"@
    } else {
        "unknown "@ + position + " type "@ + q(name)
    }
}

fn type_refusal(name: &str, component: bool) -> (e: CompileError)
    ensures
        e.spec_message() == type_error(name@, component),
        e.spec_span() is None,
{
    let position = if component {
        "component"
    } else {
        "connection"
    };
    let other = if component {
        "connection"
    } else {
        "component"
    };
    if reserved(name) {
        return CompileError::new(cat3("type ", quoted(name).as_str(), " is reserved but not implemented in v1"));
    }
    let in_other = if component {
        let types = connection_types();
        catalog_index(&types, name).is_some()
    } else {
        let types = component_types();
        catalog_index(&types, name).is_some()
    };
    if in_other {
        return CompileError::new(cat5(quoted(name).as_str(), " is a ", other, " type, not a ", position).concat(" type"));
    }
    CompileError::new(cat4("unknown ", position, " type ", quoted(name).as_str()))
}

// ── the key checks ────────────────────────────────────────────────────────
/// Texts as plain values.
pub open spec fn texts(list: Seq<&'static str>) -> Seq<Seq<char>> {
    Seq::new(list.len(), |j: int| list[j]@)
}

/// The text of the first key, among the entries from `i` on, that
/// `allowed` does not hold.
pub open spec fn unknown_key(entries: Seq<(NodeV, NodeV)>, allowed: Seq<Seq<char>>, i: int) -> Option<Seq<char>>
    decreases entries.len() - i,
{
    if i < 0 || i >= entries.len() {
        None
    } else if allowed.contains(node_text(entries[i].0)) {
        unknown_key(entries, allowed, i + 1)
    } else {
        Some(node_text(entries[i].0))
    }
}

fn holds_text(list: &Vec<&'static str>, t: &String) -> (b: bool)
    ensures
        b == texts(list@).contains(t@),
{
    let mut j: usize = 0;
    while j < list.len()
        invariant
            j <= list.len(),
            forall|k: int| 0 <= k < j ==> list@[k]@ != t@,
        decreases list.len() - j,
    {
        if *t == list[j].to_owned() {
            proof {
                assert(texts(list@)[j as int] == t@);
            }
            return true;
        }
        j = j + 1;
    }
    proof {
        if texts(list@).contains(t@) {
            let k = choose|k: int| 0 <= k < texts(list@).len() && texts(list@)[k] == t@;
            assert(list@[k]@ == t@);
        }
    }
    false
}

/// The first key of a mapping that `allowed` does not hold, as text.
pub fn first_unknown_key(entries: &Vec<(Node, Node)>, allowed: &Vec<&'static str>) -> (r: Option<String>)
    ensures
        match r {
            Some(t) => unknown_key(entries_view(entries@), texts(allowed@), 0) == Some(t@),
            None => unknown_key(entries_view(entries@), texts(allowed@), 0) is None,
        },
{
    let ghost view = entries_view(entries@);
    let mut i: usize = 0;
    while i < entries.len()
        invariant
            i <= entries.len(),
            view == entries_view(entries@),
            unknown_key(view, texts(allowed@), 0) == unknown_key(view, texts(allowed@), i as int),
        decreases entries.len() - i,
    {
        let t = node_text_string(&entries[i].0);
        if !holds_text(allowed, &t) {
            return Some(t);
        }
        i = i + 1;
    }
    None
}

/// The keys a catalog type admits: `type`, `name`, and its fields.
pub open spec fn field_keys(fields: Seq<FieldSpec>) -> Seq<Seq<char>> {
    seq!["type"@, "name"@] + Seq::new(fields.len(), |j: int| fields[j].name@)
}

fn field_key_list(fields: &Vec<FieldSpec>) -> (r: Vec<&'static str>)
    ensures
        texts(r@) == field_keys(fields@),
{
    let mut r: Vec<&'static str> = Vec::new();
    r.push("type");
    r.push("name");
    let mut j: usize = 0;
    while j < fields.len()
        invariant
            j <= fields.len(),
            r@.len() == 2 + j,
            r@[0] == "type",
            r@[1] == "name",
            forall|k: int| 0 <= k < j ==> #[trigger] r@[2 + k] == fields@[k].name,
        decreases fields.len() - j,
    {
        r.push(fields[j].name);
        j = j + 1;
    }
    proof {
        assert(texts(r@) =~= field_keys(fields@)) by {
            assert forall|k: int| 0 <= k < r@.len() implies texts(r@)[k] == field_keys(fields@)[k] by {
                if k >= 2 {
                    assert(r@[2 + (k - 2)] == fields@[k - 2].name);
                }
            }
        }
    }
    r
}

/// The first required field, from the `j`th on, that a mapping lacks.
pub open spec fn missing_field(entries: Seq<(NodeV, NodeV)>, fields: Seq<FieldSpec>, j: int) -> Option<Seq<char>>
    decreases fields.len() - j,
{
    if j < 0 || j >= fields.len() {
        None
    } else if fields[j].required && map_get(entries, fields[j].name@) is None {
        Some(fields[j].name@)
    } else {
        missing_field(entries, fields, j + 1)
    }
}

fn first_missing_field(entries: &Vec<(Node, Node)>, fields: &Vec<FieldSpec>) -> (r: Option<&'static str>)
    ensures
        match r {
            Some(f) => missing_field(entries_view(entries@), fields@, 0) == Some(f@),
            None => missing_field(entries_view(entries@), fields@, 0) is None,
        },
{
    let ghost view = entries_view(entries@);
    let mut j: usize = 0;
    while j < fields.len()
        invariant
            j <= fields.len(),
            view == entries_view(entries@),
            missing_field(view, fields@, 0) == missing_field(view, fields@, j as int),
        decreases fields.len() - j,
    {
        if fields[j].required && get(entries, fields[j].name).is_none() {
            return Some(fields[j].name);
        }
        j = j + 1;
    }
    None
}

/// The value a mapping holds under `key`, a missing one reading as null.
pub open spec fn value_or_null(entries: Seq<(NodeV, NodeV)>, key: Seq<char>) -> NodeV {
    match map_get(entries, key) {
        Some(v) => v,
        None => NodeV::Null,
    }
}

// ── components ────────────────────────────────────────────────────────────
/// An optional vector field: its value, or `d` zeros.
pub open spec fn vector_field(entries: Seq<(NodeV, NodeV)>, label: Seq<char>, field: Seq<char>, d: nat) -> Result<
    Seq<u64>,
    Seq<char>,
> {
    match map_get(entries, field) {
        Some(v) => field_vec(v, label, field, d),
        None => Ok(Seq::new(d, |i: int| 0u64)),
    }
}

fn read_vector_field(entries: &Vec<(Node, Node)>, label: &str, field: &str, d: usize) -> (r: Result<
    Vec<u64>,
    CompileError,
>)
    ensures
        match r {
            Ok(ws) => vector_field(entries_view(entries@), label@, field@, d as nat) == Ok::<Seq<u64>, Seq<char>>(
                ws@,
            ),
            Err(e) => refused(e, vector_field(entries_view(entries@), label@, field@, d as nat)),
        },
{
    match get(entries, field) {
        Some(v) => read_vec(v, label, field, d),
        None => Ok(zeros(d)),
    }
}

/// A component entry's values, once its keys have passed: catalog type
/// `k`, named `name`.
pub open spec fn component_values(entries: Seq<(NodeV, NodeV)>, k: int, name: Seq<char>, label: Seq<char>, d: nat) -> Result<
    ComponentV,
    Seq<char>,
> {
    if k == 0 {
        match field_number(value_or_null(entries, "mass"@), label, "mass"@, component_fields(0)[0].shape) {
            Err(e) => Err(e),
            Ok(mass) => match vector_field(entries, label, "position"@, d) {
                Err(e) => Err(e),
                Ok(position) => match vector_field(entries, label, "velocity"@, d) {
                    Err(e) => Err(e),
                    Ok(velocity) => Ok(ComponentV::PointMass { name, mass, position, velocity }),
                },
            },
        }
    } else if k == 1 {
        match vector_field(entries, label, "position"@, d) {
            Err(e) => Err(e),
            Ok(position) => match vector_field(entries, label, "velocity"@, d) {
                Err(e) => Err(e),
                Ok(velocity) => Ok(ComponentV::Kinematic { name, position, velocity }),
            },
        }
    } else {
        match vector_field(entries, label, "position"@, d) {
            Err(e) => Err(e),
            Ok(position) => Ok(ComponentV::Anchor { name, position }),
        }
    }
}

/// A component entry: its `type` from the catalog, its plain `name`, no
/// unknown and no missing field, then its values.
#[verifier::opaque]
pub open spec fn component_of(entries: Seq<(NodeV, NodeV)>, ctx: Seq<char>, d: nat) -> Result<ComponentV, Seq<char>> {
    match map_get(entries, "type"@) {
        None => Err(ctx + ": missing required field `type`"@),
        Some(NodeV::Str(t)) => match component_kind(t) {
            None => Err(type_error(t, true)),
            Some(k) => match map_get(entries, "name"@) {
                None => Err(ctx + ": missing required field `name`"@),
                Some(NodeV::Str(n0)) => match plain_name(n0) {
                    Err(e) => Err(e),
                    Ok(n) => {
                        let label = "component "@ + q(n);
                        match unknown_key(entries, field_keys(component_fields(k)), 0) {
                            Some(key) => Err(label + " has unknown field "@ + q(key)),
                            None => match missing_field(entries, component_fields(k), 0) {
                                Some(f) => Err(label + " is missing required field "@ + q(f)),
                                None => component_values(entries, k, n, label, d),
                            },
                        }
                    },
                },
                Some(_) => Err(ctx + ": `name` must be a string"@),
            },
        },
        Some(_) => Err(ctx + ": `type` must be a string"@),
    }
}

/// A component entry's values, once its keys have passed.
fn read_component_values(entries: &Vec<(Node, Node)>, k: usize, name: String, label: &str, d: usize) -> (r: Result<
    Component,
    CompileError,
>)
    requires
        k < 3,
    ensures
        match r {
            Ok(c) => component_values(entries_view(entries@), k as int, name@, label@, d as nat) == Ok::<
                ComponentV,
                Seq<char>,
            >(c@),
            Err(e) => refused(e, component_values(entries_view(entries@), k as int, name@, label@, d as nat)),
        },
{
    let types = component_types();
    proof {
        assert(types@[0].fields@ == component_fields(0));
    }
    if k == 0 {
        let shape = types[0].fields[0].shape;
        let mass = match get(entries, "mass") {
            Some(v) => read_number(v, label, "mass", shape),
            None => read_number(&Node::Null, label, "mass", shape),
        };
        let mass = match mass {
            Ok(m) => m,
            Err(e) => {
                return Err(e);
            },
        };
        let position = match read_vector_field(entries, label, "position", d) {
            Ok(p) => p,
            Err(e) => {
                return Err(e);
            },
        };
        let velocity = match read_vector_field(entries, label, "velocity", d) {
            Ok(v) => v,
            Err(e) => {
                return Err(e);
            },
        };
        Ok(Component::PointMass { name, mass, position, velocity })
    } else if k == 1 {
        let position = match read_vector_field(entries, label, "position", d) {
            Ok(p) => p,
            Err(e) => {
                return Err(e);
            },
        };
        let velocity = match read_vector_field(entries, label, "velocity", d) {
            Ok(v) => v,
            Err(e) => {
                return Err(e);
            },
        };
        Ok(Component::Kinematic { name, position, velocity })
    } else {
        let position = match read_vector_field(entries, label, "position", d) {
            Ok(p) => p,
            Err(e) => {
                return Err(e);
            },
        };
        Ok(Component::Anchor { name, position })
    }
}

/// Parse a component entry.
#[verifier::rlimit(40)]
pub fn parse_component(entries: &Vec<(Node, Node)>, ctx: &str, d: usize) -> (r: Result<Component, CompileError>)
    ensures
        match r {
            Ok(c) => component_of(entries_view(entries@), ctx@, d as nat) == Ok::<ComponentV, Seq<char>>(c@),
            Err(e) => refused(e, component_of(entries_view(entries@), ctx@, d as nat)),
        },
{
    proof {
        reveal(component_of);
    }
    let ghost view = entries_view(entries@);
    let kind_name = match get(entries, "type") {
        Some(Node::Str(t)) => t,
        Some(_) => {
            return refuse(cat2(ctx, ": `type` must be a string"));
        },
        None => {
            return refuse(cat2(ctx, ": missing required field `type`"));
        },
    };
    let types = component_types();
    let k = match catalog_index(&types, kind_name.as_str()) {
        Some(k) => k,
        None => {
            return Err(type_refusal(kind_name.as_str(), true));
        },
    };
    proof {
        assert(types@[0].name == component_type_name(0));
        assert(types@[1].name == component_type_name(1));
        assert(types@[2].name == component_type_name(2));
        assert(types@[k as int].fields@ == component_fields(k as int));
    }
    let name = match get(entries, "name") {
        Some(Node::Str(n0)) => match check_plain_name(n0.as_str()) {
            Ok(n) => n,
            Err(e) => {
                return Err(e);
            },
        },
        Some(_) => {
            return refuse(cat2(ctx, ": `name` must be a string"));
        },
        None => {
            return refuse(cat2(ctx, ": missing required field `name`"));
        },
    };
    let label = cat2("component ", quoted(name.as_str()).as_str());
    let fields = &types[k].fields;
    let allowed = field_key_list(fields);
    match first_unknown_key(entries, &allowed) {
        Some(key) => {
            return refuse(cat3(label.as_str(), " has unknown field ", quoted(key.as_str()).as_str()));
        },
        None => {},
    }
    match first_missing_field(entries, fields) {
        Some(f) => {
            return refuse(cat3(label.as_str(), " is missing required field ", quoted(f).as_str()));
        },
        None => {},
    }
    read_component_values(entries, k, name, label.as_str(), d)
}


// ── connections ───────────────────────────────────────────────────────────
/// A connection's kind-specific values.
#[derive(Debug)]
pub enum ConnectionData {
    Spring { stiffness: u64, rest_length: u64, damping: u64 },
    Pin { offset: Vec<u64> },
    Gravity { acceleration: Vec<u64> },
}

/// A connection entry as read, before its endpoints are resolved against
/// the name table.
#[derive(Debug)]
pub struct ConnectionShape {
    pub name: Option<String>,
    pub from: Option<String>,
    pub to: Option<String>,
    pub data: ConnectionData,
}

pub enum DataV {
    Spring { stiffness: u64, rest_length: u64, damping: u64 },
    Pin { offset: Seq<u64> },
    Gravity { acceleration: Seq<u64> },
}

pub struct ShapeV {
    pub name: Option<Seq<char>>,
    pub from: Option<Seq<char>>,
    pub to: Option<Seq<char>>,
    pub data: DataV,
}

impl View for ConnectionShape {
    type V = ShapeV;

    open spec fn view(&self) -> ShapeV {
        ShapeV {
            name: crate::world::compiler::opt_text(self.name),
            from: crate::world::compiler::opt_text(self.from),
            to: crate::world::compiler::opt_text(self.to),
            data: data_view(self.data),
        }
    }
}

pub open spec fn data_view(data: ConnectionData) -> DataV {
    match data {
        ConnectionData::Spring { stiffness, rest_length, damping } => DataV::Spring { stiffness, rest_length, damping },
        ConnectionData::Pin { offset } => DataV::Pin { offset: offset@ },
        ConnectionData::Gravity { acceleration } => DataV::Gravity { acceleration: acceleration@ },
    }
}

/// How a connection is named in a message: by its name, or by where it
/// stands.
pub open spec fn connection_label(name: Option<Seq<char>>, ctx: Seq<char>) -> Seq<char> {
    match name {
        Some(n) => "connection "@ + q(n),
        None => ctx,
    }
}

fn label_for(name: &Option<String>, ctx: &str) -> (r: String)
    ensures
        r@ == connection_label(crate::world::compiler::opt_text(*name), ctx@),
{
    match name {
        Some(n) => cat2("connection ", quoted(n.as_str()).as_str()),
        None => String::from_str(ctx),
    }
}

/// An endpoint field: a plain name, when present.
pub open spec fn endpoint(entries: Seq<(NodeV, NodeV)>, field: Seq<char>, label: Seq<char>) -> Result<
    Option<Seq<char>>,
    Seq<char>,
> {
    match map_get(entries, field) {
        Some(NodeV::Str(v)) => match plain_name(v) {
            Ok(p) => Ok(Some(p)),
            Err(e) => Err(e),
        },
        Some(_) => Err(label + ": "@ + q(field) + " must be a name"@),
        None => Ok(None),
    }
}

fn read_endpoint(entries: &Vec<(Node, Node)>, field: &str, label: &str) -> (r: Result<Option<String>, CompileError>)
    ensures
        match r {
            Ok(o) => endpoint(entries_view(entries@), field@, label@) == Ok::<Option<Seq<char>>, Seq<char>>(
                crate::world::compiler::opt_text(o),
            ),
            Err(e) => refused(e, endpoint(entries_view(entries@), field@, label@)),
        },
{
    match get(entries, field) {
        Some(Node::Str(v)) => match check_plain_name(v.as_str()) {
            Ok(p) => Ok(Some(p)),
            Err(e) => Err(e),
        },
        Some(_) => refuse(cat4(label, ": ", quoted(field).as_str(), " must be a name")),
        None => Ok(None),
    }
}

/// A connection's values by catalog type `k`.
pub open spec fn connection_data(entries: Seq<(NodeV, NodeV)>, k: int, label: Seq<char>, d: nat) -> Result<
    DataV,
    Seq<char>,
> {
    let fields = connection_fields(k);
    if k == 0 {
        match field_number(value_or_null(entries, "stiffness"@), label, "stiffness"@, fields[2].shape) {
            Err(e) => Err(e),
            Ok(stiffness) => match field_number(
                value_or_null(entries, "rest_length"@),
                label,
                "rest_length"@,
                fields[3].shape,
            ) {
                Err(e) => Err(e),
                Ok(rest_length) => match map_get(entries, "damping"@) {
                    Some(v) => match field_number(v, label, "damping"@, fields[4].shape) {
                        Err(e) => Err(e),
                        Ok(damping) => Ok(DataV::Spring { stiffness, rest_length, damping }),
                    },
                    None => Ok(DataV::Spring { stiffness, rest_length, damping: 0 }),
                },
            },
        }
    } else if k == 1 {
        match field_vec(value_or_null(entries, "offset"@), label, "offset"@, d) {
            Err(e) => Err(e),
            Ok(offset) => Ok(DataV::Pin { offset }),
        }
    } else {
        match field_vec(value_or_null(entries, "acceleration"@), label, "acceleration"@, d) {
            Err(e) => Err(e),
            Ok(acceleration) => Ok(DataV::Gravity { acceleration }),
        }
    }
}

fn read_field_number(entries: &Vec<(Node, Node)>, label: &str, field: &str, shape: FieldShape) -> (r: Result<
    u64,
    CompileError,
>)
    ensures
        match r {
            Ok(b) => field_number(value_or_null(entries_view(entries@), field@), label@, field@, shape) == Ok::<
                u64,
                Seq<char>,
            >(b),
            Err(e) => refused(e, field_number(value_or_null(entries_view(entries@), field@), label@, field@, shape)),
        },
{
    match get(entries, field) {
        Some(v) => read_number(v, label, field, shape),
        None => read_number(&Node::Null, label, field, shape),
    }
}

fn read_field_vec(entries: &Vec<(Node, Node)>, label: &str, field: &str, d: usize) -> (r: Result<
    Vec<u64>,
    CompileError,
>)
    ensures
        match r {
            Ok(ws) => field_vec(value_or_null(entries_view(entries@), field@), label@, field@, d as nat) == Ok::<
                Seq<u64>,
                Seq<char>,
            >(ws@),
            Err(e) => refused(e, field_vec(value_or_null(entries_view(entries@), field@), label@, field@, d as nat)),
        },
{
    match get(entries, field) {
        Some(v) => read_vec(v, label, field, d),
        None => read_vec(&Node::Null, label, field, d),
    }
}

/// A spring's numbers.
#[verifier::rlimit(80)]
#[verifier::spinoff_prover]
fn read_spring(entries: &Vec<(Node, Node)>, label: &str) -> (r: Result<ConnectionData, CompileError>)
    ensures
        match r {
            Ok(data) => connection_data(entries_view(entries@), 0, label@, 0) == Ok::<DataV, Seq<char>>(data_view(data)),
            Err(e) => refused(e, connection_data(entries_view(entries@), 0, label@, 0)),
        },
{
    let types = connection_types();
    proof {
    assert(types@[0].fields@ == connection_fields(0));
    }
    let stiffness = match read_field_number(entries, label, "stiffness", types[0].fields[2].shape) {
        Ok(v) => v,
        Err(e) => {
            return Err(e);
        },
    };
    let rest_length = match read_field_number(entries, label, "rest_length", types[0].fields[3].shape) {
        Ok(v) => v,
        Err(e) => {
            return Err(e);
        },
    };
    let damping = match get(entries, "damping") {
        Some(v) => match read_number(v, label, "damping", types[0].fields[4].shape) {
            Ok(v) => v,
            Err(e) => {
                return Err(e);
            },
        },
        None => 0,
    };
    Ok(ConnectionData::Spring { stiffness, rest_length, damping })
}

#[verifier::rlimit(40)]
fn read_connection_data(entries: &Vec<(Node, Node)>, k: usize, label: &str, d: usize) -> (r: Result<
    ConnectionData,
    CompileError,
>)
    requires
        k < 3,
    ensures
        match r {
            Ok(data) => connection_data(entries_view(entries@), k as int, label@, d as nat) == Ok::<DataV, Seq<char>>(
                data_view(data),
            ),
            Err(e) => refused(e, connection_data(entries_view(entries@), k as int, label@, d as nat)),
        },
{
    if k == 0 {
        read_spring(entries, label)
    } else if k == 1 {
        match read_field_vec(entries, label, "offset", d) {
            Ok(offset) => Ok(ConnectionData::Pin { offset }),
            Err(e) => Err(e),
        }
    } else {
        match read_field_vec(entries, label, "acceleration", d) {
            Ok(acceleration) => Ok(ConnectionData::Gravity { acceleration }),
            Err(e) => Err(e),
        }
    }
}

/// A connection entry's endpoints and values, once its keys have passed.
pub open spec fn connection_rest(
    entries: Seq<(NodeV, NodeV)>,
    k: int,
    name: Option<Seq<char>>,
    label: Seq<char>,
    d: nat,
) -> Result<ShapeV, Seq<char>> {
    match endpoint(entries, "from"@, label) {
        Err(e) => Err(e),
        Ok(from) => match endpoint(entries, "to"@, label) {
            Err(e) => Err(e),
            Ok(to) => if from is Some && to is Some && from == to {
                Err(label + " has `from` == `to`"@)
            } else {
                match connection_data(entries, k, label, d) {
                    Err(e) => Err(e),
                    Ok(data) => Ok(ShapeV { name, from, to, data }),
                }
            },
        },
    }
}

/// A connection entry's keys, then its endpoints and values.
pub open spec fn connection_keys(
    entries: Seq<(NodeV, NodeV)>,
    k: int,
    name: Option<Seq<char>>,
    ctx: Seq<char>,
    d: nat,
) -> Result<ShapeV, Seq<char>> {
    let label = connection_label(name, ctx);
    match unknown_key(entries, field_keys(connection_fields(k)), 0) {
        Some(key) => Err(label + " has unknown field "@ + q(key)),
        None => match missing_field(entries, connection_fields(k), 0) {
            Some(f) => Err(label + " is missing required field "@ + q(f)),
            None => connection_rest(entries, k, name, label, d),
        },
    }
}

fn read_connection_keys(entries: &Vec<(Node, Node)>, k: usize, name: Option<String>, ctx: &str, d: usize) -> (r: Result<
    ConnectionShape,
    CompileError,
>)
    requires
        k < 3,
    ensures
        match r {
            Ok(shape) => connection_keys(
                entries_view(entries@),
                k as int,
                crate::world::compiler::opt_text(name),
                ctx@,
                d as nat,
            ) == Ok::<ShapeV, Seq<char>>(shape@),
            Err(e) => refused(
                e,
                connection_keys(entries_view(entries@), k as int, crate::world::compiler::opt_text(name), ctx@, d as nat),
            ),
        },
{
    let types = connection_types();
    proof {
        assert(types@[k as int].fields@ == connection_fields(k as int));
    }
    let label = label_for(&name, ctx);
    let fields = &types[k].fields;
    let allowed = field_key_list(fields);
    match first_unknown_key(entries, &allowed) {
        Some(key) => {
            return refuse(cat3(label.as_str(), " has unknown field ", quoted(key.as_str()).as_str()));
        },
        None => {},
    }
    match first_missing_field(entries, fields) {
        Some(f) => {
            return refuse(cat3(label.as_str(), " is missing required field ", quoted(f).as_str()));
        },
        None => {},
    }
    read_connection_rest(entries, k, name, label.as_str(), d)
}

/// A connection entry's optional plain `name`, then its keys.
pub open spec fn connection_named(entries: Seq<(NodeV, NodeV)>, k: int, ctx: Seq<char>, d: nat) -> Result<
    ShapeV,
    Seq<char>,
> {
    match map_get(entries, "name"@) {
        Some(NodeV::Str(n0)) => match plain_name(n0) {
            Ok(n) => connection_keys(entries, k, Some(n), ctx, d),
            Err(e) => Err(e),
        },
        Some(_) => Err(ctx + ": `name` must be a string"@),
        None => connection_keys(entries, k, None, ctx, d),
    }
}

fn read_connection_named(entries: &Vec<(Node, Node)>, k: usize, ctx: &str, d: usize) -> (r: Result<
    ConnectionShape,
    CompileError,
>)
    requires
        k < 3,
    ensures
        match r {
            Ok(shape) => connection_named(entries_view(entries@), k as int, ctx@, d as nat) == Ok::<ShapeV, Seq<char>>(
                shape@,
            ),
            Err(e) => refused(e, connection_named(entries_view(entries@), k as int, ctx@, d as nat)),
        },
{
    let name = match get(entries, "name") {
        Some(Node::Str(n0)) => match check_plain_name(n0.as_str()) {
            Ok(n) => Some(n),
            Err(e) => {
                return Err(e);
            },
        },
        Some(_) => {
            return refuse(cat2(ctx, ": `name` must be a string"));
        },
        None => None,
    };
    read_connection_keys(entries, k, name, ctx, d)
}

/// A connection entry: its `type` from the catalog, its optional plain
/// `name`, no unknown and no missing field, then its endpoints and values.
#[verifier::opaque]
pub open spec fn connection_shape(entries: Seq<(NodeV, NodeV)>, ctx: Seq<char>, d: nat) -> Result<ShapeV, Seq<char>> {
    match map_get(entries, "type"@) {
        None => Err(ctx + ": missing required field `type`"@),
        Some(NodeV::Str(t)) => match connection_kind(t) {
            None => Err(type_error(t, false)),
            Some(k) => connection_named(entries, k, ctx, d),
        },
        Some(_) => Err(ctx + ": `type` must be a string"@),
    }
}

fn read_connection_rest(entries: &Vec<(Node, Node)>, k: usize, name: Option<String>, label: &str, d: usize) -> (r: Result<
    ConnectionShape,
    CompileError,
>)
    requires
        k < 3,
    ensures
        match r {
            Ok(shape) => connection_rest(
                entries_view(entries@),
                k as int,
                crate::world::compiler::opt_text(name),
                label@,
                d as nat,
            ) == Ok::<ShapeV, Seq<char>>(shape@),
            Err(e) => refused(
                e,
                connection_rest(entries_view(entries@), k as int, crate::world::compiler::opt_text(name), label@, d as nat),
            ),
        },
{
    let from = match read_endpoint(entries, "from", label) {
        Ok(f) => f,
        Err(e) => {
            return Err(e);
        },
    };
    let to = match read_endpoint(entries, "to", label) {
        Ok(t) => t,
        Err(e) => {
            return Err(e);
        },
    };
    let same = match (&from, &to) {
        (Some(f), Some(t)) => *f == *t,
        _ => false,
    };
    if same {
        return refuse(cat2(label, " has `from` == `to`"));
    }
    let data = match read_connection_data(entries, k, label, d) {
        Ok(data) => data,
        Err(e) => {
            return Err(e);
        },
    };
    Ok(ConnectionShape { name, from, to, data })
}

/// Parse a connection entry's shape.
pub fn parse_connection_shape(entries: &Vec<(Node, Node)>, ctx: &str, d: usize) -> (r: Result<
    ConnectionShape,
    CompileError,
>)
    ensures
        match r {
            Ok(shape) => connection_shape(entries_view(entries@), ctx@, d as nat) == Ok::<ShapeV, Seq<char>>(shape@),
            Err(e) => refused(e, connection_shape(entries_view(entries@), ctx@, d as nat)),
        },
{
    proof {
        reveal(connection_shape);
    }
    let kind_name = match get(entries, "type") {
        Some(Node::Str(t)) => t,
        Some(_) => {
            return refuse(cat2(ctx, ": `type` must be a string"));
        },
        None => {
            return refuse(cat2(ctx, ": missing required field `type`"));
        },
    };
    let types = connection_types();
    let k = match catalog_index(&types, kind_name.as_str()) {
        Some(k) => k,
        None => {
            return Err(type_refusal(kind_name.as_str(), false));
        },
    };
    proof {
        assert(types@[0].name == connection_type_name(0));
        assert(types@[1].name == connection_type_name(1));
        assert(types@[2].name == connection_type_name(2));
    }
    read_connection_named(entries, k, ctx, d)
}


// ── the name table ────────────────────────────────────────────────────────
/// What a name in the file-wide table names: a component (by its index),
/// or a connection. Components and connections share one namespace.
#[derive(Copy, Clone, Debug, PartialEq, Eq, Structural)]
pub enum Owner {
    Component(usize),
    Connection,
}

/// The file-wide name table, in insertion order.
#[derive(Debug)]
pub struct NameMap {
    entries: Vec<(String, Owner)>,
}

/// What `n` names in a table: its first entry's owner.
pub open spec fn owner_of(names: Seq<(Seq<char>, Owner)>, n: Seq<char>) -> Option<Owner>
    decreases names.len(),
{
    if names.len() == 0 {
        None
    } else {
        match owner_of(names.drop_last(), n) {
            Some(o) => Some(o),
            None => if names.last().0 == n {
                Some(names.last().1)
            } else {
                None
            },
        }
    }
}

proof fn lemma_owner_prefix(names: Seq<(Seq<char>, Owner)>, n: Seq<char>, j: int)
    requires
        0 <= j <= names.len(),
        owner_of(names.take(j), n) is Some,
    ensures
        owner_of(names, n) == owner_of(names.take(j), n),
    decreases names.len(),
{
    if j < names.len() {
        assert(names.drop_last().take(j) =~= names.take(j));
        lemma_owner_prefix(names.drop_last(), n, j);
    } else {
        assert(names.take(j) =~= names);
    }
}

/// Adding component `n` at `index`: refused when the name is taken.
pub open spec fn insert_component(names: Seq<(Seq<char>, Owner)>, n: Seq<char>, index: usize) -> Result<
    Seq<(Seq<char>, Owner)>,
    Seq<char>,
> {
    match owner_of(names, n) {
        None => Ok(names.push((n, Owner::Component(index)))),
        Some(Owner::Component(_)) => Err("component name "@ + q(n) + " appears twice"@),
        Some(Owner::Connection) => Err("component name "@ + q(n) + " is already used by a connection"@),
    }
}

/// Adding connection `n`: refused when the name is taken.
pub open spec fn insert_connection(names: Seq<(Seq<char>, Owner)>, n: Seq<char>) -> Result<
    Seq<(Seq<char>, Owner)>,
    Seq<char>,
> {
    match owner_of(names, n) {
        None => Ok(names.push((n, Owner::Connection))),
        Some(Owner::Connection) => Err("connection name "@ + q(n) + " appears twice"@),
        Some(Owner::Component(_)) => Err("connection name "@ + q(n) + " is already used by a component"@),
    }
}

/// The component an endpoint names.
pub open spec fn component_index(names: Seq<(Seq<char>, Owner)>, n: Seq<char>, label: Seq<char>) -> Result<
    usize,
    Seq<char>,
> {
    match owner_of(names, n) {
        Some(Owner::Component(i)) => Ok(i),
        Some(Owner::Connection) => Err(label + " references "@ + q(n) + ", which is a connection, not a component"@),
        None => Err(label + " references component "@ + q(n) + ", which does not exist"@),
    }
}

impl View for NameMap {
    type V = Seq<(Seq<char>, Owner)>;

    closed spec fn view(&self) -> Seq<(Seq<char>, Owner)> {
        Seq::new(self.entries@.len(), |i: int| (self.entries@[i].0@, self.entries@[i].1))
    }
}

impl NameMap {
    /// An empty table.
    pub fn new() -> (m: NameMap)
        ensures
            m@ == Seq::<(Seq<char>, Owner)>::empty(),
    {
        let m = NameMap { entries: Vec::new() };
        proof {
            assert(m@ =~= Seq::<(Seq<char>, Owner)>::empty());
        }
        m
    }

    /// What `n` names.
    pub fn owner(&self, n: &str) -> (r: Option<Owner>)
        ensures
            r == owner_of(self@, n@),
    {
        let ghost view = self@;
        let mut i: usize = 0;
        while i < self.entries.len()
            invariant
                i <= self.entries.len(),
                view == self@,
                view.len() == self.entries@.len(),
                owner_of(view.take(i as int), n@) is None,
            decreases self.entries.len() - i,
        {
            if self.entries[i].0 == n.to_owned() {
                proof {
                    assert(view.take(i + 1).drop_last() =~= view.take(i as int));
                    assert(view[i as int] == (self.entries@[i as int].0@, self.entries@[i as int].1));
                    lemma_owner_prefix(view, n@, i + 1);
                }
                return Some(self.entries[i].1);
            }
            proof {
                assert(view.take(i + 1).drop_last() =~= view.take(i as int));
                assert(view[i as int] == (self.entries@[i as int].0@, self.entries@[i as int].1));
            }
            i = i + 1;
        }
        proof {
            assert(view.take(i as int) =~= view);
        }
        None
    }

    fn push(&mut self, n: &str, owner: Owner)
        ensures
            final(self)@ == old(self)@.push((n@, owner)),
    {
        self.entries.push((String::from_str(n), owner));
        proof {
            assert(self@ =~= old(self)@.push((n@, owner)));
        }
    }

    /// Add component `n` at `index`.
    pub fn add_component(&mut self, n: &str, index: usize) -> (r: Result<(), CompileError>)
        ensures
            match insert_component(old(self)@, n@, index) {
                Ok(names) => r is Ok && final(self)@ == names,
                Err(m) => r matches Err(e) && e.spec_message() == m && e.spec_span() is None,
            },
    {
        match self.owner(n) {
            None => {
                self.push(n, Owner::Component(index));
                Ok(())
            },
            Some(Owner::Component(_)) => refuse(cat3("component name ", quoted(n).as_str(), " appears twice")),
            Some(Owner::Connection) => refuse(
                cat3("component name ", quoted(n).as_str(), " is already used by a connection"),
            ),
        }
    }

    /// Add connection `n`.
    pub fn add_connection(&mut self, n: &str) -> (r: Result<(), CompileError>)
        ensures
            match insert_connection(old(self)@, n@) {
                Ok(names) => r is Ok && final(self)@ == names,
                Err(m) => r matches Err(e) && e.spec_message() == m && e.spec_span() is None,
            },
    {
        match self.owner(n) {
            None => {
                self.push(n, Owner::Connection);
                Ok(())
            },
            Some(Owner::Connection) => refuse(cat3("connection name ", quoted(n).as_str(), " appears twice")),
            Some(Owner::Component(_)) => refuse(
                cat3("connection name ", quoted(n).as_str(), " is already used by a component"),
            ),
        }
    }

    /// The component an endpoint names.
    pub fn component(&self, n: &str, label: &str) -> (r: Result<usize, CompileError>)
        ensures
            match r {
                Ok(i) => component_index(self@, n@, label@) == Ok::<usize, Seq<char>>(i),
                Err(e) => refused(e, component_index(self@, n@, label@)),
            },
    {
        match self.owner(n) {
            Some(Owner::Component(i)) => Ok(i),
            Some(Owner::Connection) => refuse(
                cat4(label, " references ", quoted(n).as_str(), ", which is a connection, not a component"),
            ),
            None => refuse(cat4(label, " references component ", quoted(n).as_str(), ", which does not exist")),
        }
    }
}

// ── resolving a connection ───────────────────────────────────────────────
/// An optional text, or nothing.
pub open spec fn text_or_empty(o: Option<Seq<char>>) -> Seq<char> {
    match o {
        Some(t) => t,
        None => Seq::empty(),
    }
}

/// A connection with its endpoints resolved against the name table; at
/// most one gravity connection in the file.
pub open spec fn resolve_connection(shape: ShapeV, names: Seq<(Seq<char>, Owner)>, ctx: Seq<char>, seen_gravity: bool) -> Result<
    (ConnectionV, bool),
    Seq<char>,
> {
    let label = connection_label(shape.name, ctx);
    match shape.data {
        DataV::Spring { stiffness, rest_length, damping } => match component_index(
            names,
            text_or_empty(shape.from),
            label,
        ) {
            Err(e) => Err(e),
            Ok(from) => match component_index(names, text_or_empty(shape.to), label) {
                Err(e) => Err(e),
                Ok(to) => Ok(
                    (
                        ConnectionV::Spring {
                            name: shape.name,
                            from: from as u32,
                            to: to as u32,
                            stiffness,
                            rest_length,
                            damping,
                        },
                        seen_gravity,
                    ),
                ),
            },
        },
        DataV::Pin { offset } => match component_index(names, text_or_empty(shape.from), label) {
            Err(e) => Err(e),
            Ok(from) => match component_index(names, text_or_empty(shape.to), label) {
                Err(e) => Err(e),
                Ok(to) => Ok((ConnectionV::Pin { name: shape.name, from: from as u32, to: to as u32, offset }, seen_gravity)),
            },
        },
        DataV::Gravity { acceleration } => if seen_gravity {
            Err("a second gravity connection is not allowed"@)
        } else {
            Ok((ConnectionV::Gravity { name: shape.name, acceleration }, true))
        },
    }
}

fn text_of_option(o: &Option<String>) -> (r: &str)
    ensures
        r@ == text_or_empty(crate::world::compiler::opt_text(*o)),
{
    match o {
        Some(t) => t.as_str(),
        None => {
            proof {
                reveal_strlit("");
            }
            ""
        },
    }
}

/// Resolve a connection's endpoints.
#[verifier::rlimit(40)]
pub fn resolve(shape: ConnectionShape, names: &NameMap, ctx: &str, seen_gravity: &mut bool) -> (r: Result<
    Connection,
    CompileError,
>)
    ensures
        match r {
            Ok(c) => resolve_connection(shape@, names@, ctx@, *old(seen_gravity)) == Ok::<(ConnectionV, bool), Seq<char>>(
                (c@, *final(seen_gravity)),
            ),
            Err(e) => refused(e, resolve_connection(shape@, names@, ctx@, *old(seen_gravity))),
        },
{
    let label = label_for(&shape.name, ctx);
    let ghost sv = shape@;
    let ConnectionShape { name, from, to, data } = shape;
    match data {
        ConnectionData::Spring { stiffness, rest_length, damping } => {
            let f = match names.component(text_of_option(&from), label.as_str()) {
                Ok(i) => i,
                Err(e) => {
                    return Err(e);
                },
            };
            let t = match names.component(text_of_option(&to), label.as_str()) {
                Ok(i) => i,
                Err(e) => {
                    return Err(e);
                },
            };
            Ok(Connection::Spring { name, from: f as u32, to: t as u32, stiffness, rest_length, damping })
        },
        ConnectionData::Pin { offset } => {
            let f = match names.component(text_of_option(&from), label.as_str()) {
                Ok(i) => i,
                Err(e) => {
                    return Err(e);
                },
            };
            let t = match names.component(text_of_option(&to), label.as_str()) {
                Ok(i) => i,
                Err(e) => {
                    return Err(e);
                },
            };
            Ok(Connection::Pin { name, from: f as u32, to: t as u32, offset })
        },
        ConnectionData::Gravity { acceleration } => {
            if *seen_gravity {
                return refuse(String::from_str("a second gravity connection is not allowed"));
            }
            *seen_gravity = true;
            Ok(Connection::Gravity { name, acceleration })
        },
    }
}

} // verus!
