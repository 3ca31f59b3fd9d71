//! Templates: named bodies of components and connections, with parameters
//! standing in the name positions (`name`, `from`, `to`).
//!
//! A declaration is checked once, eagerly: its keys, its parameters, and
//! each body entry with every parameter standing for itself, so a typo
//! fails even when nothing invokes the template.

use vstd::prelude::*;
use vstd::string::{StrSliceExecFns, StringExecFns};

use crate::text::decimal;
use crate::world::compiler::{Component, ComponentV};
use crate::world::errors::CompileError;
use crate::world::parse::{
    cat2, cat3, cat4, cat5, component_of, connection_shape, decimal_text, is_reference, node_text_string,
    parse_component, parse_connection_shape, q, quoted, refused, starts_with_dollar, texts, unknown_key,
    first_unknown_key, insert_component, NameMap, Owner,
};
use crate::world::yaml::{
    copy_node, entries_view, get, items_view, lemma_mapping_view, lemma_sequence_view, map_get, node_text, Node,
    NodeV,
};

verus! {

// ── substitution ──────────────────────────────────────────────────────────
/// The argument bound to parameter `p`: the first binding's.
pub open spec fn binding_of(bindings: Seq<(Seq<char>, Seq<char>)>, p: Seq<char>) -> Option<Seq<char>>
    decreases bindings.len(),
{
    if bindings.len() == 0 {
        None
    } else {
        match binding_of(bindings.drop_last(), p) {
            Some(a) => Some(a),
            None => if bindings.last().0 == p {
                Some(bindings.last().1)
            } else {
                None
            },
        }
    }
}

/// The keys whose string values name things: `name`, `from`, `to`.
pub open spec fn is_name_key(t: Seq<char>) -> bool {
    t == "name"@ || t == "from"@ || t == "to"@
}

/// One mapping value after substitution: a `$parameter` in a name
/// position becomes its argument; everything else is untouched.
pub open spec fn subst_value(key: NodeV, value: NodeV, bindings: Seq<(Seq<char>, Seq<char>)>) -> NodeV {
    match value {
        NodeV::Str(s) => if is_name_key(node_text(key)) && is_reference(s) {
            match binding_of(bindings, s.drop_first()) {
                Some(a) => NodeV::Str(a),
                None => value,
            }
        } else {
            value
        },
        _ => value,
    }
}

/// A body entry with its parameters replaced by their arguments.
pub open spec fn substitute(entry: NodeV, bindings: Seq<(Seq<char>, Seq<char>)>) -> NodeV {
    match entry {
        NodeV::Mapping(es) => NodeV::Mapping(
            Seq::new(es.len(), |i: int| (es[i].0, subst_value(es[i].0, es[i].1, bindings))),
        ),
        _ => entry,
    }
}

/// Bindings as plain values.
pub open spec fn bindings_view(bindings: Seq<(String, String)>) -> Seq<(Seq<char>, Seq<char>)> {
    Seq::new(bindings.len(), |i: int| (bindings[i].0@, bindings[i].1@))
}

proof fn lemma_binding_prefix(bs: Seq<(Seq<char>, Seq<char>)>, p: Seq<char>, j: int)
    requires
        0 <= j <= bs.len(),
        binding_of(bs.take(j), p) is Some,
    ensures
        binding_of(bs, p) == binding_of(bs.take(j), p),
    decreases bs.len(),
{
    if j < bs.len() {
        assert(bs.drop_last().take(j) =~= bs.take(j));
        lemma_binding_prefix(bs.drop_last(), p, j);
    } else {
        assert(bs.take(j) =~= bs);
    }
}

fn bound_argument<'a>(bindings: &'a Vec<(String, String)>, p: &str) -> (r: Option<&'a String>)
    ensures
        match r {
            Some(a) => binding_of(bindings_view(bindings@), p@) == Some(a@),
            None => binding_of(bindings_view(bindings@), p@) is None,
        },
{
    let ghost view = bindings_view(bindings@);
    let mut i: usize = 0;
    while i < bindings.len()
        invariant
            i <= bindings.len(),
            view == bindings_view(bindings@),
            binding_of(view.take(i as int), p@) is None,
        decreases bindings.len() - i,
    {
        proof {
            assert(view.take(i + 1).drop_last() =~= view.take(i as int));
        }
        if bindings[i].0 == p.to_owned() {
            proof {
                lemma_binding_prefix(view, p@, i + 1);
            }
            return Some(&bindings[i].1);
        }
        i = i + 1;
    }
    proof {
        assert(view.take(i as int) =~= view);
    }
    None
}

fn substitute_value(key: &Node, value: &Node, bindings: &Vec<(String, String)>) -> (r: Node)
    ensures
        r@ == subst_value(key@, value@, bindings_view(bindings@)),
{
    match value {
        Node::Str(s) => {
            let k = node_text_string(key);
            let named = k == "name".to_owned() || k == "from".to_owned() || k == "to".to_owned();
            if named && starts_with_dollar(s.as_str()) {
                let p = s.as_str().substring_char(1, s.as_str().unicode_len());
                proof {
                    assert(p@ =~= s@.drop_first());
                }
                match bound_argument(bindings, p) {
                    Some(a) => Node::Str(a.clone()),
                    None => copy_node(value),
                }
            } else {
                copy_node(value)
            }
        },
        _ => copy_node(value),
    }
}

/// Replace the parameters in a body entry's name positions.
pub fn substitute_entry(entry: &Node, bindings: &Vec<(String, String)>) -> (r: Node)
    ensures
        r@ == substitute(entry@, bindings_view(bindings@)),
{
    match entry {
        Node::Mapping(es) => {
            proof {
                lemma_mapping_view(*entry);
            }
            let mut out: Vec<(Node, Node)> = Vec::new();
            let mut i: usize = 0;
            while i < es.len()
                invariant
                    i <= es.len(),
                    out.len() == i,
                    forall|k: int| 0 <= k < i ==> #[trigger] out@[k].0@ == es@[k].0@,
                    forall|k: int| 0 <= k < i ==> #[trigger] out@[k].1@ == subst_value(
                        es@[k].0@,
                        es@[k].1@,
                        bindings_view(bindings@),
                    ),
                decreases es.len() - i,
            {
                let key = copy_node(&es[i].0);
                let value = substitute_value(&es[i].0, &es[i].1, bindings);
                let ghost prev = out@;
                out.push((key, value));
                proof {
                    assert forall|k: int| 0 <= k < i + 1 implies #[trigger] out@[k].0@ == es@[k].0@ by {
                        if k < i {
                            assert(out@[k] == prev[k]);
                        }
                    }
                    assert forall|k: int| 0 <= k < i + 1 implies #[trigger] out@[k].1@ == subst_value(
                        es@[k].0@,
                        es@[k].1@,
                        bindings_view(bindings@),
                    ) by {
                        if k < i {
                            assert(out@[k] == prev[k]);
                        }
                    }
                }
                i = i + 1;
            }
            let r = Node::Mapping(out);
            proof {
                lemma_mapping_view(r);
                let want = substitute(entry@, bindings_view(bindings@));
                assert(entries_view(out@) =~= want->Mapping_0);
            }
            r
        },
        _ => copy_node(entry),
    }
}


// ── body entries ──────────────────────────────────────────────────────────
/// Texts as plain values.
pub open spec fn strings_view(v: Seq<String>) -> Seq<Seq<char>> {
    Seq::new(v.len(), |i: int| v[i]@)
}

fn holds_string(list: &Vec<String>, t: &str) -> (b: bool)
    ensures
        b == strings_view(list@).contains(t@),
{
    let mut j: usize = 0;
    while j < list.len()
        invariant
            j <= list.len(),
            forall|k: int| 0 <= k < j ==> list@[k]@ != t@,
        decreases list.len() - j,
    {
        if list[j] == t.to_owned() {
            proof {
                assert(strings_view(list@)[j as int] == t@);
            }
            return true;
        }
        j = j + 1;
    }
    proof {
        if strings_view(list@).contains(t@) {
            let k = choose|k: int| 0 <= k < strings_view(list@).len() && strings_view(list@)[k] == t@;
            assert(list@[k]@ == t@);
        }
    }
    false
}

/// An endpoint in a body connection must be a parameter reference.
pub open spec fn endpoint_not_parameter(es: Seq<(NodeV, NodeV)>, field: Seq<char>, tname: Seq<char>) -> Option<
    Seq<char>,
> {
    match map_get(es, field) {
        Some(v) => if v is Str && is_reference(v->Str_0) {
            None
        } else {
            Some(
                "template "@ + q(tname) + ": connection endpoint "@ + q(node_text(v))
                    + " must be a parameter (`$name`)"@,
            )
        },
        None => None,
    }
}

/// A `$name` in a name position must be a declared parameter.
pub open spec fn undeclared_in(es: Seq<(NodeV, NodeV)>, field: Seq<char>, tname: Seq<char>, params: Seq<Seq<char>>) -> Option<
    Seq<char>,
> {
    match map_get(es, field) {
        Some(NodeV::Str(v)) => if is_reference(v) && !params.contains(v.drop_first()) {
            Some("template "@ + q(tname) + " references undeclared parameter "@ + q(v))
        } else {
            None
        },
        _ => None,
    }
}

/// The rules a body entry meets before substitution: a mapping, no nested
/// invocation, a connection's endpoints parameters, every `$name` declared.
pub open spec fn body_entry_refusal(
    entry: NodeV,
    connection: bool,
    tname: Seq<char>,
    params: Seq<Seq<char>>,
    ctx: Seq<char>,
) -> Option<Seq<char>> {
    match entry {
        NodeV::Mapping(es) => if map_get(es, "template"@) is Some {
            Some("template "@ + q(tname) + ": nested template invocations are not supported in v1"@)
        } else if connection && endpoint_not_parameter(es, "from"@, tname) is Some {
            endpoint_not_parameter(es, "from"@, tname)
        } else if connection && endpoint_not_parameter(es, "to"@, tname) is Some {
            endpoint_not_parameter(es, "to"@, tname)
        } else if undeclared_in(es, "name"@, tname, params) is Some {
            undeclared_in(es, "name"@, tname, params)
        } else if undeclared_in(es, "from"@, tname, params) is Some {
            undeclared_in(es, "from"@, tname, params)
        } else {
            undeclared_in(es, "to"@, tname, params)
        },
        _ => Some(ctx + " must be a mapping"@),
    }
}

fn check_endpoint(es: &Vec<(Node, Node)>, field: &str, tname: &str) -> (r: Option<String>)
    ensures
        opt_seq(r) == endpoint_not_parameter(entries_view(es@), field@, tname@),
{
    match get(es, field) {
        Some(v) => {
            let is_param = match v {
                Node::Str(s) => starts_with_dollar(s.as_str()),
                _ => false,
            };
            if is_param {
                None
            } else {
                let m = cat4("template ", quoted(tname).as_str(), ": connection endpoint ", quoted(node_text_string(v).as_str()).as_str());
                Some(cat2(m.as_str(), " must be a parameter (`$name`)"))
            }
        },
        None => None,
    }
}

fn check_declared(es: &Vec<(Node, Node)>, field: &str, tname: &str, params: &Vec<String>) -> (r: Option<String>)
    ensures
        opt_seq(r) == undeclared_in(entries_view(es@), field@, tname@, strings_view(params@)),
{
    match get(es, field) {
        Some(Node::Str(v)) => {
            if starts_with_dollar(v.as_str()) {
                let p = v.as_str().substring_char(1, v.as_str().unicode_len());
                proof {
                    assert(p@ =~= v@.drop_first());
                }
                if !holds_string(params, p) {
                    return Some(cat3("template ", quoted(tname).as_str(), " references undeclared parameter ").concat(quoted(v.as_str()).as_str()));
                }
            }
            None
        },
        _ => None,
    }
}

/// An optional text as plain values.
pub open spec fn opt_seq(o: Option<String>) -> Option<Seq<char>> {
    match o {
        Some(t) => Some(t@),
        None => None,
    }
}

fn check_body_entry(entry: &Node, connection: bool, tname: &str, params: &Vec<String>, ctx: &str) -> (r: Option<String>)
    ensures
        opt_seq(r) == body_entry_refusal(entry@, connection, tname@, strings_view(params@), ctx@),
{
    let es = match entry {
        Node::Mapping(es) => es,
        _ => {
            return Some(cat2(ctx, " must be a mapping"));
        },
    };
    proof {
        lemma_mapping_view(*entry);
    }
    if get(es, "template").is_some() {
        return Some(cat3("template ", quoted(tname).as_str(), ": nested template invocations are not supported in v1"));
    }
    if connection {
        match check_endpoint(es, "from", tname) {
            Some(m) => {
                return Some(m);
            },
            None => {},
        }
        match check_endpoint(es, "to", tname) {
            Some(m) => {
                return Some(m);
            },
            None => {},
        }
    }
    match check_declared(es, "name", tname, params) {
        Some(m) => {
            return Some(m);
        },
        None => {},
    }
    match check_declared(es, "from", tname, params) {
        Some(m) => {
            return Some(m);
        },
        None => {},
    }
    check_declared(es, "to", tname, params)
}

/// Each parameter standing for itself.
pub open spec fn identity(params: Seq<Seq<char>>) -> Seq<(Seq<char>, Seq<char>)> {
    Seq::new(params.len(), |i: int| (params[i], params[i]))
}

fn identity_bindings(params: &Vec<String>) -> (r: Vec<(String, String)>)
    ensures
        bindings_view(r@) == identity(strings_view(params@)),
{
    let mut r: Vec<(String, String)> = Vec::new();
    let mut i: usize = 0;
    while i < params.len()
        invariant
            i <= params.len(),
            r.len() == i,
            forall|k: int| 0 <= k < i ==> #[trigger] r@[k].0@ == params@[k]@ && r@[k].1@ == params@[k]@,
        decreases params.len() - i,
    {
        let ghost prev = r@;
        r.push((params[i].clone(), params[i].clone()));
        proof {
            assert forall|k: int| 0 <= k < i + 1 implies #[trigger] r@[k].0@ == params@[k]@ && r@[k].1@
                == params@[k]@ by {
                if k < i {
                    assert(r@[k] == prev[k]);
                }
            }
        }
        i = i + 1;
    }
    proof {
        assert(bindings_view(r@) =~= identity(strings_view(params@)));
    }
    r
}

/// The context of body entry `k`.
pub open spec fn body_ctx(tname: Seq<char>, connection: bool, k: nat) -> Seq<char> {
    "template "@ + q(tname) + (if connection {
        " connection["@
    } else {
        " component["@
    }) + decimal(k) + "]"@
}

pub(crate) fn body_context(tname: &str, connection: bool, k: usize) -> (r: String)
    ensures
        r@ == body_ctx(tname@, connection, k as nat),
{
    let kind = if connection {
        " connection["
    } else {
        " component["
    };
    cat5("template ", quoted(tname).as_str(), kind, decimal_text(k as u64).as_str(), "]")
}

#[verifier::opaque]
/// Body entry `k`'s refusal when declared: its rules, then the entry with
/// each parameter standing for itself, checked as a component (or a
/// connection).
pub open spec fn body_error(entry: NodeV, k: nat, connection: bool, tname: Seq<char>, params: Seq<Seq<char>>, d: nat) -> Option<
    Seq<char>,
> {
    let bctx = body_ctx(tname, connection, k);
    match body_entry_refusal(entry, connection, tname, params, bctx) {
        Some(m) => Some(m),
        None => match substitute(entry, identity(params)) {
            NodeV::Mapping(es) => if connection {
                match connection_shape(es, bctx, d) {
                    Err(m) => Some(m),
                    Ok(_) => None,
                }
            } else {
                match component_of(es, bctx, d) {
                    Err(m) => Some(m),
                    Ok(_) => None,
                }
            },
            _ => Some(bctx + " must be a mapping"@),
        },
    }
}

/// The first refused body entry, from the `k`th on.
pub open spec fn bodies_error(
    entries: Seq<NodeV>,
    connection: bool,
    tname: Seq<char>,
    params: Seq<Seq<char>>,
    d: nat,
    k: int,
) -> Option<Seq<char>>
    decreases entries.len() - k,
{
    if k < 0 || k >= entries.len() {
        None
    } else if body_error(entries[k], k as nat, connection, tname, params, d) is Some {
        body_error(entries[k], k as nat, connection, tname, params, d)
    } else {
        bodies_error(entries, connection, tname, params, d, k + 1)
    }
}

fn check_body(entry: &Node, k: usize, connection: bool, tname: &str, params: &Vec<String>, d: usize) -> (r: Option<
    CompileError,
>)
    ensures
        match r {
            Some(e) => body_error(entry@, k as nat, connection, tname@, strings_view(params@), d as nat) == Some(
                e.spec_message(),
            ) && e.spec_span() is None,
            None => body_error(entry@, k as nat, connection, tname@, strings_view(params@), d as nat) is None,
        },
{
    proof {
        reveal(body_error);
    }
    let bctx = body_context(tname, connection, k);
    match check_body_entry(entry, connection, tname, params, bctx.as_str()) {
        Some(m) => {
            return Some(CompileError::new(m));
        },
        None => {},
    }
    let identity = identity_bindings(params);
    let substituted = substitute_entry(entry, &identity);
    match &substituted {
        Node::Mapping(es) => {
            proof {
                lemma_mapping_view(substituted);
            }
            if connection {
                match parse_connection_shape(es, bctx.as_str(), d) {
                    Err(e) => Some(e),
                    Ok(_) => None,
                }
            } else {
                match parse_component(es, bctx.as_str(), d) {
                    Err(e) => Some(e),
                    Ok(_) => None,
                }
            }
        },
        _ => Some(CompileError::new(cat2(bctx.as_str(), " must be a mapping"))),
    }
}

fn check_bodies(entries: &Vec<Node>, connection: bool, tname: &str, params: &Vec<String>, d: usize) -> (r: Option<
    CompileError,
>)
    ensures
        match r {
            Some(e) => bodies_error(items_view(entries@), connection, tname@, strings_view(params@), d as nat, 0) == Some(
                e.spec_message(),
            ) && e.spec_span() is None,
            None => bodies_error(items_view(entries@), connection, tname@, strings_view(params@), d as nat, 0) is None,
        },
{
    let ghost view = items_view(entries@);
    let mut k: usize = 0;
    while k < entries.len()
        invariant
            k <= entries.len(),
            view == items_view(entries@),
            bodies_error(view, connection, tname@, strings_view(params@), d as nat, 0) == bodies_error(
                view,
                connection,
                tname@,
                strings_view(params@),
                d as nat,
                k as int,
            ),
        decreases entries.len() - k,
    {
        match check_body(&entries[k], k, connection, tname, params, d) {
            Some(e) => {
                return Some(e);
            },
            None => {},
        }
        k = k + 1;
    }
    None
}


// ── declarations ──────────────────────────────────────────────────────────
/// A declared template.
#[derive(Debug)]
pub struct TemplateDecl {
    pub name: String,
    pub params: Vec<String>,
    pub components: Vec<Node>,
    pub connections: Vec<Node>,
}

pub struct TemplateV {
    pub name: Seq<char>,
    pub params: Seq<Seq<char>>,
    pub components: Seq<NodeV>,
    pub connections: Seq<NodeV>,
}

impl View for TemplateDecl {
    type V = TemplateV;

    open spec fn view(&self) -> TemplateV {
        TemplateV {
            name: self.name@,
            params: strings_view(self.params@),
            components: items_view(self.components@),
            connections: items_view(self.connections@),
        }
    }
}

/// A list of names: each item must be a string.
pub open spec fn all_strings(items: Seq<NodeV>) -> bool {
    forall|j: int| 0 <= j < items.len() ==> #[trigger] items[j] is Str
}

pub open spec fn string_values(items: Seq<NodeV>) -> Seq<Seq<char>> {
    Seq::new(items.len(), |j: int| items[j]->Str_0)
}

/// A sequence's strings, or `None` when an item is not one.
pub fn names_in(items: &Vec<Node>) -> (r: Option<Vec<String>>)
    ensures
        match r {
            Some(v) => all_strings(items_view(items@)) && strings_view(v@) == string_values(items_view(items@)),
            None => !all_strings(items_view(items@)),
        },
{
    let ghost view = items_view(items@);
    let mut out: Vec<String> = Vec::new();
    let mut j: usize = 0;
    while j < items.len()
        invariant
            j <= items.len(),
            view == items_view(items@),
            out.len() == j,
            forall|k: int| 0 <= k < j ==> #[trigger] view[k] is Str && out@[k]@ == view[k]->Str_0,
        decreases items.len() - j,
    {
        match &items[j] {
            Node::Str(s) => {
                let ghost prev = out@;
                out.push(s.clone());
                proof {
                    assert forall|k: int| 0 <= k < j + 1 implies #[trigger] view[k] is Str && out@[k]@
                        == view[k]->Str_0 by {
                        if k < j {
                            assert(out@[k] == prev[k]);
                        }
                    }
                }
            },
            _ => {
                proof {
                    assert(!(view[j as int] is Str));
                }
                return None;
            },
        }
        j = j + 1;
    }
    proof {
        assert(strings_view(out@) =~= string_values(view));
    }
    Some(out)
}

/// A template's parameters: a list of names, or none.
pub open spec fn template_params(es: Seq<(NodeV, NodeV)>, n: Seq<char>) -> Result<Seq<Seq<char>>, Seq<char>> {
    match map_get(es, "parameters"@) {
        Some(NodeV::Sequence(items)) => if !all_strings(items) {
            Err("template "@ + q(n) + ": parameters must be names (strings)"@)
        } else {
            Ok(string_values(items))
        },
        Some(_) => Err("template "@ + q(n) + ": `parameters` must be a list of names"@),
        None => Ok(Seq::empty()),
    }
}

/// The first parameter, from the `j`th on, that an earlier one repeats.
pub open spec fn repeated_param(params: Seq<Seq<char>>, j: int) -> Option<Seq<char>>
    decreases params.len() - j,
{
    if j < 0 || j >= params.len() {
        None
    } else if params.take(j).contains(params[j]) {
        Some(params[j])
    } else {
        repeated_param(params, j + 1)
    }
}

/// A body list: `components` or `connections`, required, a list.
pub open spec fn body_list(es: Seq<(NodeV, NodeV)>, key: Seq<char>, n: Seq<char>) -> Result<Seq<NodeV>, Seq<char>> {
    match map_get(es, key) {
        Some(NodeV::Sequence(items)) => Ok(items),
        Some(_) => Err("template "@ + q(n) + ": "@ + q(key) + " must be a list"@),
        None => Err("template "@ + q(n) + ": missing required field "@ + q(key)),
    }
}

/// The keys a declaration takes.
pub open spec fn declaration_keys() -> Seq<Seq<char>> {
    seq!["name"@, "parameters"@, "components"@, "connections"@]
}

/// A declaration's name is new.
pub open spec fn name_taken(prior: Seq<TemplateV>, n: Seq<char>) -> bool {
    exists|j: int| 0 <= j < prior.len() && #[trigger] prior[j].name == n
}

/// A declaration named `n`: its parameters, its two body lists, and each
/// body entry checked.
#[verifier::opaque]
pub open spec fn template_rest(es: Seq<(NodeV, NodeV)>, n: Seq<char>, d: nat) -> Result<TemplateV, Seq<char>> {
    match template_params(es, n) {
        Err(m) => Err(m),
        Ok(params) => match repeated_param(params, 0) {
            Some(p) => Err("template "@ + q(n) + ": parameter "@ + q(p) + " appears twice"@),
            None => match body_list(es, "components"@, n) {
                Err(m) => Err(m),
                Ok(cs) => match body_list(es, "connections"@, n) {
                    Err(m) => Err(m),
                    Ok(xs) => match bodies_error(cs, false, n, params, d, 0) {
                        Some(m) => Err(m),
                        None => match bodies_error(xs, true, n, params, d, 0) {
                            Some(m) => Err(m),
                            None => Ok(TemplateV { name: n, params, components: cs, connections: xs }),
                        },
                    },
                },
            },
        },
    }
}

/// Declaration `i`, after the declarations `prior`.
#[verifier::opaque]
pub open spec fn template_decl(entry: NodeV, i: nat, prior: Seq<TemplateV>, d: nat) -> Result<TemplateV, Seq<char>> {
    let ctx = "templates["@ + decimal(i) + "]"@;
    match entry {
        NodeV::Mapping(es) => match unknown_key(es, declaration_keys(), 0) {
            Some(key) => Err(ctx + ": unknown field "@ + q(key)),
            None => match map_get(es, "name"@) {
                None => Err(ctx + ": missing required field `name`"@),
                Some(NodeV::Str(n)) => if name_taken(prior, n) {
                    Err("template name "@ + q(n) + " appears twice"@)
                } else {
                    template_rest(es, n, d)
                },
                Some(_) => Err(ctx + ": `name` must be a string"@),
            },
        },
        _ => Err(ctx + " must be a mapping"@),
    }
}

/// The declarations of a `templates` list, the first `k` of them.
pub open spec fn templates_upto(list: Seq<NodeV>, d: nat, k: int) -> Result<Seq<TemplateV>, Seq<char>>
    decreases k,
{
    if k <= 0 {
        Ok(Seq::empty())
    } else {
        match templates_upto(list, d, k - 1) {
            Err(m) => Err(m),
            Ok(prior) => match template_decl(list[k - 1], (k - 1) as nat, prior, d) {
                Err(m) => Err(m),
                Ok(t) => Ok(prior.push(t)),
            },
        }
    }
}

proof fn lemma_templates_refused(list: Seq<NodeV>, d: nat, k: int, m: int)
    requires
        0 <= k <= m,
        templates_upto(list, d, k) is Err,
    ensures
        templates_upto(list, d, m) == templates_upto(list, d, k),
    decreases m - k,
{
    if k < m {
        lemma_templates_refused(list, d, k, m - 1);
    }
}

fn first_repeated(params: &Vec<String>) -> (r: Option<usize>)
    ensures
        match r {
            Some(j) => j < params.len() && repeated_param(strings_view(params@), 0) == Some(params@[j as int]@),
            None => repeated_param(strings_view(params@), 0) is None,
        },
{
    let ghost view = strings_view(params@);
    let mut j: usize = 0;
    while j < params.len()
        invariant
            j <= params.len(),
            view == strings_view(params@),
            repeated_param(view, 0) == repeated_param(view, j as int),
        decreases params.len() - j,
    {
        let mut seen = false;
        let mut i: usize = 0;
        while i < j
            invariant
                i <= j < params.len(),
                view == strings_view(params@),
                seen == exists|k: int| 0 <= k < i && view[k] == view[j as int],
            decreases j - i,
        {
            proof {
                assert(view[i as int] == params@[i as int]@);
                assert(view[j as int] == params@[j as int]@);
            }
            if params[i] == params[j] {
                seen = true;
            }
            i = i + 1;
        }
        proof {
            if seen {
                let k = choose|k: int| 0 <= k < j && view[k] == view[j as int];
                assert(view.take(j as int)[k] == view[j as int]);
            } else if view.take(j as int).contains(view[j as int]) {
                let k = choose|k: int| 0 <= k < view.take(j as int).len() && view.take(j as int)[k] == view[j as int];
                assert(view[k] == view[j as int]);
            }
        }
        if seen {
            return Some(j);
        }
        j = j + 1;
    }
    None
}

fn read_body_list<'a>(es: &'a Vec<(Node, Node)>, key: &str, n: &str) -> (r: Result<&'a Vec<Node>, CompileError>)
    ensures
        match r {
            Ok(items) => body_list(entries_view(es@), key@, n@) == Ok::<Seq<NodeV>, Seq<char>>(items_view(items@)),
            Err(e) => refused(e, body_list(entries_view(es@), key@, n@)),
        },
{
    match get(es, key) {
        Some(node) => match node {
            Node::Sequence(items) => {
                proof {
                    lemma_sequence_view(*node);
                }
                Ok(items)
            },
            _ => Err(CompileError::new(cat5("template ", quoted(n).as_str(), ": ", quoted(key).as_str(), " must be a list"))),
        },
        None => Err(CompileError::new(cat3("template ", quoted(n).as_str(), ": missing required field ").concat(quoted(key).as_str()))),
    }
}

fn copy_items(items: &Vec<Node>) -> (r: Vec<Node>)
    ensures
        items_view(r@) == items_view(items@),
{
    let mut out: Vec<Node> = Vec::new();
    let mut j: usize = 0;
    while j < items.len()
        invariant
            j <= items.len(),
            out.len() == j,
            forall|k: int| 0 <= k < j ==> #[trigger] out@[k]@ == items@[k]@,
        decreases items.len() - j,
    {
        let ghost prev = out@;
        out.push(copy_node(&items[j]));
        proof {
            assert forall|k: int| 0 <= k < j + 1 implies #[trigger] out@[k]@ == items@[k]@ by {
                if k < j {
                    assert(out@[k] == prev[k]);
                }
            }
        }
        j = j + 1;
    }
    proof {
        assert(items_view(out@) =~= items_view(items@));
    }
    out
}

/// The declarations' views.
pub open spec fn decls_view(v: Seq<TemplateDecl>) -> Seq<TemplateV> {
    Seq::new(v.len(), |i: int| v[i]@)
}

fn read_params(es: &Vec<(Node, Node)>, n: &str) -> (r: Result<Vec<String>, CompileError>)
    ensures
        match r {
            Ok(ps) => template_params(entries_view(es@), n@) == Ok::<Seq<Seq<char>>, Seq<char>>(strings_view(ps@)),
            Err(e) => refused(e, template_params(entries_view(es@), n@)),
        },
{
    match get(es, "parameters") {
        Some(node) => match node {
            Node::Sequence(items) => {
                proof {
                    lemma_sequence_view(*node);
                }
                match names_in(items) {
                    Some(ps) => Ok(ps),
                    None => Err(CompileError::new(cat3("template ", quoted(n).as_str(), ": parameters must be names (strings)"))),
                }
            },
            _ => Err(CompileError::new(cat3("template ", quoted(n).as_str(), ": `parameters` must be a list of names"))),
        },
        None => {
            let ps: Vec<String> = Vec::new();
            proof {
                assert(strings_view(ps@) =~= Seq::<Seq<char>>::empty());
            }
            Ok(ps)
        },
    }
}

/// Whether a declaration named `n` came before.
fn declared(prior: &Vec<TemplateDecl>, n: &String) -> (b: bool)
    ensures
        b == name_taken(decls_view(prior@), n@),
{
    let mut j: usize = 0;
    while j < prior.len()
        invariant
            j <= prior.len(),
            forall|k: int| 0 <= k < j ==> prior@[k].name@ != n@,
        decreases prior.len() - j,
    {
        if prior[j].name == *n {
            proof {
                assert(decls_view(prior@)[j as int].name == n@);
            }
            return true;
        }
        j = j + 1;
    }
    proof {
        if name_taken(decls_view(prior@), n@) {
            let k = choose|k: int| 0 <= k < decls_view(prior@).len() && #[trigger] decls_view(prior@)[k].name == n@;
            assert(prior@[k].name@ == n@);
        }
    }
    false
}

/// A declaration named `n`, after its keys and name have passed.
#[verifier::rlimit(40)]
fn read_template_rest(es: &Vec<(Node, Node)>, n: &String, d: usize) -> (r: Result<TemplateDecl, CompileError>)
    ensures
        match r {
            Ok(t) => template_rest(entries_view(es@), n@, d as nat) == Ok::<TemplateV, Seq<char>>(t@),
            Err(e) => refused(e, template_rest(entries_view(es@), n@, d as nat)),
        },
{
    proof {
        reveal(template_rest);
    }
    let params = match read_params(es, n.as_str()) {
        Ok(ps) => ps,
        Err(e) => {
            return Err(e);
        },
    };
    match first_repeated(&params) {
        Some(j) => {
            return Err(CompileError::new(cat5("template ", quoted(n.as_str()).as_str(), ": parameter ", quoted(params[j].as_str()).as_str(), " appears twice")));
        },
        None => {},
    }
    let components = match read_body_list(es, "components", n.as_str()) {
        Ok(items) => items,
        Err(e) => {
            return Err(e);
        },
    };
    let connections = match read_body_list(es, "connections", n.as_str()) {
        Ok(items) => items,
        Err(e) => {
            return Err(e);
        },
    };
    match check_bodies(components, false, n.as_str(), &params, d) {
        Some(e) => {
            return Err(e);
        },
        None => {},
    }
    match check_bodies(connections, true, n.as_str(), &params, d) {
        Some(e) => {
            return Err(e);
        },
        None => {},
    }
    Ok(TemplateDecl { name: n.clone(), params, components: copy_items(components), connections: copy_items(connections) })
}

/// Parse declaration `i`.
#[verifier::rlimit(60)]
#[verifier::spinoff_prover]
fn parse_declaration(entry: &Node, i: usize, prior: &Vec<TemplateDecl>, d: usize) -> (r: Result<TemplateDecl, CompileError>)
    ensures
        match r {
            Ok(t) => template_decl(entry@, i as nat, decls_view(prior@), d as nat) == Ok::<TemplateV, Seq<char>>(t@),
            Err(e) => refused(e, template_decl(entry@, i as nat, decls_view(prior@), d as nat)),
        },
{
    proof {
        reveal(template_decl);
    }
    let ctx = cat3("templates[", decimal_text(i as u64).as_str(), "]");
    let es = match entry {
        Node::Mapping(es) => es,
        _ => {
            return Err(CompileError::new(cat2(ctx.as_str(), " must be a mapping")));
        },
    };
    proof {
        lemma_mapping_view(*entry);
    }
    let allowed: Vec<&'static str> = vec!["name", "parameters", "components", "connections"];
    proof {
        assert(texts(allowed@) =~= declaration_keys());
    }
    match first_unknown_key(es, &allowed) {
        Some(key) => {
            return Err(CompileError::new(cat3(ctx.as_str(), ": unknown field ", quoted(key.as_str()).as_str())));
        },
        None => {},
    }
    let n = match get(es, "name") {
        Some(Node::Str(n)) => n,
        Some(_) => {
            return Err(CompileError::new(cat2(ctx.as_str(), ": `name` must be a string")));
        },
        None => {
            return Err(CompileError::new(cat2(ctx.as_str(), ": missing required field `name`")));
        },
    };
    if declared(prior, n) {
        return Err(CompileError::new(cat3("template name ", quoted(n.as_str()).as_str(), " appears twice")));
    }
    read_template_rest(es, n, d)
}

/// Parse a `templates` list.
pub fn parse_templates(list: &Vec<Node>, d: usize) -> (r: Result<Vec<TemplateDecl>, CompileError>)
    ensures
        match r {
            Ok(ts) => templates_upto(items_view(list@), d as nat, list@.len() as int) == Ok::<Seq<TemplateV>, Seq<char>>(
                decls_view(ts@),
            ),
            Err(e) => refused(e, templates_upto(items_view(list@), d as nat, list@.len() as int)),
        },
{
    let ghost view = items_view(list@);
    let mut out: Vec<TemplateDecl> = Vec::new();
    let mut i: usize = 0;
    proof {
        assert(decls_view(out@) =~= Seq::<TemplateV>::empty());
    }
    while i < list.len()
        invariant
            i <= list.len(),
            view == items_view(list@),
            out.len() == i,
            templates_upto(view, d as nat, i as int) == Ok::<Seq<TemplateV>, Seq<char>>(decls_view(out@)),
        decreases list.len() - i,
    {
        match parse_declaration(&list[i], i, &out, d) {
            Ok(t) => {
                let ghost prev = decls_view(out@);
                out.push(t);
                proof {
                    assert(decls_view(out@) =~= prev.push(out@[i as int]@));
                }
            },
            Err(e) => {
                proof {
                    lemma_templates_refused(view, d as nat, i + 1, list@.len() as int);
                }
                return Err(e);
            },
        }
        i = i + 1;
    }
    Ok(out)
}


// ── invocations ───────────────────────────────────────────────────────────
/// A component's name.
pub open spec fn name_of(c: ComponentV) -> Seq<char> {
    match c {
        ComponentV::PointMass { name, .. } => name,
        ComponentV::Kinematic { name, .. } => name,
        ComponentV::Anchor { name, .. } => name,
    }
}

fn component_name(c: &Component) -> (r: &String)
    ensures
        r@ == name_of(c@),
{
    match c {
        Component::PointMass { name, .. } => name,
        Component::Kinematic { name, .. } => name,
        Component::Anchor { name, .. } => name,
    }
}

/// A connection an expansion produced: held until every component exists.
#[derive(Debug)]
pub struct ProducedConn {
    pub entry: Node,
    pub template: String,
    pub index: usize,
}

pub struct ProducedV {
    pub entry: NodeV,
    pub template: Seq<char>,
    pub index: nat,
}

impl View for ProducedConn {
    type V = ProducedV;

    open spec fn view(&self) -> ProducedV {
        ProducedV { entry: self.entry@, template: self.template@, index: self.index as nat }
    }
}

/// What the component list has built so far: the components, the name
/// table, and the connections expansions produced.
pub struct Building {
    pub components: Vec<Component>,
    pub names: NameMap,
    pub produced: Vec<ProducedConn>,
}

pub struct BuildingV {
    pub components: Seq<ComponentV>,
    pub names: Seq<(Seq<char>, Owner)>,
    pub produced: Seq<ProducedV>,
}

impl View for Building {
    type V = BuildingV;

    open spec fn view(&self) -> BuildingV {
        BuildingV {
            components: Seq::new(self.components@.len(), |i: int| self.components@[i]@),
            names: self.names@,
            produced: Seq::new(self.produced@.len(), |i: int| self.produced@[i]@),
        }
    }
}

/// The declaration named `n`.
pub open spec fn find_template(templates: Seq<TemplateV>, n: Seq<char>) -> Option<int> {
    if exists|j: int| 0 <= j < templates.len() && #[trigger] templates[j].name == n {
        Some(
            choose|j: int|
                0 <= j < templates.len() && templates[j].name == n && forall|k: int|
                    0 <= k < j ==> #[trigger] templates[k].name != n,
        )
    } else {
        None
    }
}

/// An invocation's arguments: a list of names, or none.
pub open spec fn invocation_args(es: Seq<(NodeV, NodeV)>, ctx: Seq<char>) -> Result<Seq<Seq<char>>, Seq<char>> {
    match map_get(es, "args"@) {
        Some(NodeV::Sequence(items)) => if !all_strings(items) {
            Err(ctx + ": template arguments must be names (strings)"@)
        } else {
            Ok(string_values(items))
        },
        Some(_) => Err(ctx + ": `args` must be a list of names"@),
        None => Ok(Seq::empty()),
    }
}

/// The first argument, from the `j`th on, that is a parameter reference.
pub open spec fn reference_arg(args: Seq<Seq<char>>, j: int) -> Option<Seq<char>>
    decreases args.len() - j,
{
    if j < 0 || j >= args.len() {
        None
    } else if is_reference(args[j]) {
        Some(args[j])
    } else {
        reference_arg(args, j + 1)
    }
}

/// Each parameter bound to its argument.
pub open spec fn bind(params: Seq<Seq<char>>, args: Seq<Seq<char>>) -> Seq<(Seq<char>, Seq<char>)> {
    Seq::new(params.len(), |i: int| (params[i], args[i]))
}

/// The expansion's first `k` body components, added in order.
pub open spec fn expand_components(
    t: TemplateV,
    bindings: Seq<(Seq<char>, Seq<char>)>,
    d: nat,
    st: BuildingV,
    k: int,
) -> Result<BuildingV, Seq<char>>
    decreases k,
{
    if k <= 0 {
        Ok(st)
    } else {
        match expand_components(t, bindings, d, st, k - 1) {
            Err(m) => Err(m),
            Ok(b) => {
                let bctx = body_ctx(t.name, false, (k - 1) as nat);
                match substitute(t.components[k - 1], bindings) {
                    NodeV::Mapping(es) => match component_of(es, bctx, d) {
                        Err(m) => Err(m),
                        Ok(c) => match insert_component(b.names, name_of(c), b.components.len() as usize) {
                            Err(m) => Err(m),
                            Ok(names) => Ok(BuildingV { components: b.components.push(c), names, produced: b.produced }),
                        },
                    },
                    _ => Err(bctx + " must be a mapping"@),
                }
            },
        }
    }
}

proof fn lemma_expand_refused(t: TemplateV, bindings: Seq<(Seq<char>, Seq<char>)>, d: nat, st: BuildingV, k: int, m: int)
    requires
        0 <= k <= m,
        expand_components(t, bindings, d, st, k) is Err,
    ensures
        expand_components(t, bindings, d, st, m) == expand_components(t, bindings, d, st, k),
    decreases m - k,
{
    if k < m {
        lemma_expand_refused(t, bindings, d, st, k, m - 1);
    }
}

/// The connections an expansion produces, in body order.
pub open spec fn produced_by(t: TemplateV, bindings: Seq<(Seq<char>, Seq<char>)>) -> Seq<ProducedV> {
    Seq::new(
        t.connections.len(),
        |k: int| ProducedV { entry: substitute(t.connections[k], bindings), template: t.name, index: k as nat },
    )
}

/// An expansion once its arguments are bound: the body components added,
/// the body connections held.
pub open spec fn expand_with(t: TemplateV, bindings: Seq<(Seq<char>, Seq<char>)>, d: nat, st: BuildingV) -> Result<
    BuildingV,
    Seq<char>,
> {
    match expand_components(t, bindings, d, st, t.components.len() as int) {
        Err(m) => Err(m),
        Ok(b) => Ok(BuildingV { components: b.components, names: b.names, produced: b.produced + produced_by(t, bindings) }),
    }
}

/// An invocation of template `t` (named `n`): its arguments, then the
/// expansion.
pub open spec fn expand_template(
    es: Seq<(NodeV, NodeV)>,
    ctx: Seq<char>,
    t: TemplateV,
    n: Seq<char>,
    d: nat,
    st: BuildingV,
) -> Result<BuildingV, Seq<char>> {
    match invocation_args(es, ctx) {
        Err(m) => Err(m),
        Ok(args) => if args.len() != t.params.len() {
            Err(arity_message(n, t.params.len(), args.len()))
        } else {
            match reference_arg(args, 0) {
                Some(a) => Err(ctx + ": template argument "@ + q(a) + " must be a plain name, not a parameter reference"@),
                None => expand_with(t, bind(t.params, args), d, st),
            }
        },
    }
}

/// The invocation keys.
pub open spec fn invocation_keys() -> Seq<Seq<char>> {
    seq!["template"@, "args"@]
}

/// An argument count, as the refusal reads it.
pub open spec fn arity_message(n: Seq<char>, params: nat, args: nat) -> Seq<char> {
    "template "@ + q(n) + " takes "@ + decimal(params) + (if params == 1 {
        " argument"@
    } else {
        " arguments"@
    }) + ", got "@ + decimal(args)
}

/// A template invocation in the component list: its keys, its template,
/// its arguments, then each body component added and each body connection
/// held for the connection pass.
#[verifier::opaque]
pub open spec fn expand(
    es: Seq<(NodeV, NodeV)>,
    ctx: Seq<char>,
    templates: Seq<TemplateV>,
    d: nat,
    st: BuildingV,
) -> Result<BuildingV, Seq<char>> {
    match unknown_key(es, invocation_keys(), 0) {
        Some(key) => Err(ctx + ": a template invocation takes `template` and `args`; there is no "@ + q(key)),
        None => match map_get(es, "template"@) {
            Some(NodeV::Str(n)) => match find_template(templates, n) {
                None => Err("unknown template "@ + q(n)),
                Some(j) => expand_template(es, ctx, templates[j], n, d, st),
            },
            _ => Err(ctx + ": `template` must be a name"@),
        },
    }
}

fn template_index(templates: &Vec<TemplateDecl>, n: &String) -> (r: Option<usize>)
    ensures
        match r {
            Some(j) => find_template(decls_view(templates@), n@) == Some(j as int) && j < templates.len(),
            None => find_template(decls_view(templates@), n@) is None,
        },
{
    let ghost view = decls_view(templates@);
    let mut j: usize = 0;
    while j < templates.len()
        invariant
            j <= templates.len(),
            view == decls_view(templates@),
            forall|k: int| 0 <= k < j ==> #[trigger] view[k].name != n@,
        decreases templates.len() - j,
    {
        if templates[j].name == *n {
            proof {
                assert(view[j as int].name == n@);
                let c = choose|c: int|
                    0 <= c < view.len() && view[c].name == n@ && forall|k: int|
                        0 <= k < c ==> #[trigger] view[k].name != n@;
                if c < j {
                } else if c > j {
                    assert(view[j as int].name != n@);
                }
            }
            return Some(j);
        }
        j = j + 1;
    }
    proof {
        if exists|k: int| 0 <= k < view.len() && #[trigger] view[k].name == n@ {
            let k = choose|k: int| 0 <= k < view.len() && #[trigger] view[k].name == n@;
            assert(view[k].name != n@);
        }
    }
    None
}

fn read_args(es: &Vec<(Node, Node)>, ctx: &str) -> (r: Result<Vec<String>, CompileError>)
    ensures
        match r {
            Ok(args) => invocation_args(entries_view(es@), ctx@) == Ok::<Seq<Seq<char>>, Seq<char>>(strings_view(args@)),
            Err(e) => refused(e, invocation_args(entries_view(es@), ctx@)),
        },
{
    match get(es, "args") {
        Some(node) => match node {
            Node::Sequence(items) => {
                proof {
                    lemma_sequence_view(*node);
                }
                match names_in(items) {
                    Some(args) => Ok(args),
                    None => Err(CompileError::new(cat2(ctx, ": template arguments must be names (strings)"))),
                }
            },
            _ => Err(CompileError::new(cat2(ctx, ": `args` must be a list of names"))),
        },
        None => {
            let args: Vec<String> = Vec::new();
            proof {
                assert(strings_view(args@) =~= Seq::<Seq<char>>::empty());
            }
            Ok(args)
        },
    }
}

fn first_reference(args: &Vec<String>) -> (r: Option<usize>)
    ensures
        match r {
            Some(j) => j < args.len() && reference_arg(strings_view(args@), 0) == Some(args@[j as int]@),
            None => reference_arg(strings_view(args@), 0) is None,
        },
{
    let ghost view = strings_view(args@);
    let mut j: usize = 0;
    while j < args.len()
        invariant
            j <= args.len(),
            view == strings_view(args@),
            reference_arg(view, 0) == reference_arg(view, j as int),
        decreases args.len() - j,
    {
        if starts_with_dollar(args[j].as_str()) {
            return Some(j);
        }
        j = j + 1;
    }
    None
}

fn bindings_for(params: &Vec<String>, args: &Vec<String>) -> (r: Vec<(String, String)>)
    requires
        params.len() == args.len(),
    ensures
        bindings_view(r@) == bind(strings_view(params@), strings_view(args@)),
{
    let mut r: Vec<(String, String)> = Vec::new();
    let mut i: usize = 0;
    while i < params.len()
        invariant
            i <= params.len() == args.len(),
            r.len() == i,
            forall|k: int| 0 <= k < i ==> #[trigger] r@[k].0@ == params@[k]@ && r@[k].1@ == args@[k]@,
        decreases params.len() - i,
    {
        let ghost prev = r@;
        r.push((params[i].clone(), args[i].clone()));
        proof {
            assert forall|k: int| 0 <= k < i + 1 implies #[trigger] r@[k].0@ == params@[k]@ && r@[k].1@
                == args@[k]@ by {
                if k < i {
                    assert(r@[k] == prev[k]);
                }
            }
        }
        i = i + 1;
    }
    proof {
        assert(bindings_view(r@) =~= bind(strings_view(params@), strings_view(args@)));
    }
    r
}

/// Add one body component of an expansion.
#[verifier::rlimit(40)]
fn expand_one(t: &TemplateDecl, k: usize, bindings: &Vec<(String, String)>, d: usize, st: &mut Building) -> (r: Result<
    (),
    CompileError,
>)
    requires
        k < t.components.len(),
    ensures
        ({
            let bctx = body_ctx(t@.name, false, k as nat);
            let b = old(st)@;
            let want: Result<BuildingV, Seq<char>> = match substitute(t@.components[k as int], bindings_view(bindings@)) {
                NodeV::Mapping(es) => match component_of(es, bctx, d as nat) {
                    Err(m) => Err(m),
                    Ok(c) => match insert_component(b.names, name_of(c), b.components.len() as usize) {
                        Err(m) => Err(m),
                        Ok(names) => Ok(BuildingV { components: b.components.push(c), names, produced: b.produced }),
                    },
                },
                _ => Err(bctx + " must be a mapping"@),
            };
            match r {
                Ok(_) => want == Ok::<BuildingV, Seq<char>>(final(st)@),
                Err(e) => refused(e, want),
            }
        }),
{
    let bctx = body_context(t.name.as_str(), false, k);
    let substituted = substitute_entry(&t.components[k], bindings);
    let es = match &substituted {
        Node::Mapping(es) => es,
        _ => {
            return Err(CompileError::new(cat2(bctx.as_str(), " must be a mapping")));
        },
    };
    proof {
        lemma_mapping_view(substituted);
    }
    let c = match parse_component(es, bctx.as_str(), d) {
        Ok(c) => c,
        Err(e) => {
            return Err(e);
        },
    };
    let index = st.components.len();
    match st.names.add_component(component_name(&c).as_str(), index) {
        Ok(()) => {},
        Err(e) => {
            return Err(e);
        },
    }
    let ghost prev = st.components@;
    st.components.push(c);
    proof {
        assert(st@.components =~= old(st)@.components.push(c@));
        assert(st@.produced =~= old(st)@.produced);
    }
    Ok(())
}

/// Add an expansion's body components and hold its body connections.
#[verifier::loop_isolation(false)]
fn expand_bound(t: &TemplateDecl, bindings: &Vec<(String, String)>, d: usize, st: &mut Building) -> (r: Result<
    (),
    CompileError,
>)
    ensures
        match r {
            Ok(_) => expand_with(t@, bindings_view(bindings@), d as nat, old(st)@) == Ok::<BuildingV, Seq<char>>(
                final(st)@,
            ),
            Err(e) => refused(e, expand_with(t@, bindings_view(bindings@), d as nat, old(st)@)),
        },
{
    let ghost tv = t@;
    let ghost bv = bindings_view(bindings@);
    let ghost start = st@;
    let mut k: usize = 0;
    while k < t.components.len()
        invariant
            k <= t.components.len(),
            tv == t@,
            bv == bindings_view(bindings@),
            expand_components(tv, bv, d as nat, start, k as int) == Ok::<BuildingV, Seq<char>>(st@),
        decreases t.components.len() - k,
    {
        match expand_one(t, k, &bindings, d, st) {
            Ok(()) => {},
            Err(e) => {
                proof {
                    lemma_expand_refused(tv, bv, d as nat, start, k + 1, tv.components.len() as int);
                }
                return Err(e);
            },
        }
        k = k + 1;
    }
    let ghost built = st@;
    let mut m: usize = 0;
    while m < t.connections.len()
        invariant
            m <= t.connections.len(),
            tv == t@,
            bv == bindings_view(bindings@),
            st@.components == built.components,
            st@.names == built.names,
            st@.produced == built.produced + produced_by(tv, bv).take(m as int),
        decreases t.connections.len() - m,
    {
        let entry = substitute_entry(&t.connections[m], bindings);
        let ghost prev = st.produced@;
        let ghost before = st@.produced;
        let template = t.name.clone();
        st.produced.push(ProducedConn { entry, template, index: m });
        proof {
            assert(tv.connections[m as int] == t.connections@[m as int]@);
            assert(tv.name == t.name@);
            assert(st.produced@ == prev.push(ProducedConn { entry, template, index: m }));
            let want = built.produced + produced_by(tv, bv).take(m + 1);
            assert(before.len() == prev.len());
            assert(before.len() == built.produced.len() + m);
            assert(st@.produced.len() == want.len());
            assert forall|i: int| 0 <= i < st@.produced.len() implies st@.produced[i] == want[i] by {
                if i < prev.len() {
                    assert(st.produced@[i] == prev[i]);
                    assert(st@.produced[i] == before[i]);
                    assert(before[i] == (built.produced + produced_by(tv, bv).take(m as int))[i]);
                } else {
                    assert(i == built.produced.len() + m);
                    assert(want[i] == produced_by(tv, bv)[m as int]);
                }
            }
            assert(st@.produced =~= want);
        }
        m = m + 1;
    }
    proof {
        assert(produced_by(tv, bv).take(m as int) =~= produced_by(tv, bv));
    }
    Ok(())
}

/// An invocation of a declared template: its arguments, then the
/// expansion.
#[verifier::rlimit(40)]
fn expand_declared(es: &Vec<(Node, Node)>, ctx: &str, t: &TemplateDecl, n: &String, d: usize, st: &mut Building) -> (r: Result<
    (),
    CompileError,
>)
    ensures
        match r {
            Ok(_) => expand_template(entries_view(es@), ctx@, t@, n@, d as nat, old(st)@) == Ok::<BuildingV, Seq<char>>(
                final(st)@,
            ),
            Err(e) => refused(e, expand_template(entries_view(es@), ctx@, t@, n@, d as nat, old(st)@)),
        },
{
    let args = match read_args(es, ctx) {
        Ok(args) => args,
        Err(e) => {
            return Err(e);
        },
    };
    if args.len() != t.params.len() {
        let count = t.params.len();
        let unit = if count == 1 {
            " argument"
        } else {
            " arguments"
        };
        let m = cat5("template ", quoted(n.as_str()).as_str(), " takes ", decimal_text(count as u64).as_str(), unit);
        return Err(CompileError::new(cat3(m.as_str(), ", got ", decimal_text(args.len() as u64).as_str())));
    }
    match first_reference(&args) {
        Some(a) => {
            return Err(CompileError::new(cat4(ctx, ": template argument ", quoted(args[a].as_str()).as_str(), " must be a plain name, not a parameter reference")));
        },
        None => {},
    }
    let bindings = bindings_for(&t.params, &args);
    expand_bound(t, &bindings, d, st)
}

/// Expand a template invocation in the component list.
#[verifier::rlimit(80)]
#[verifier::spinoff_prover]
pub fn expand_invocation(
    es: &Vec<(Node, Node)>,
    ctx: &str,
    templates: &Vec<TemplateDecl>,
    d: usize,
    st: &mut Building,
) -> (r: Result<(), CompileError>)
    ensures
        match r {
            Ok(_) => expand(entries_view(es@), ctx@, decls_view(templates@), d as nat, old(st)@) == Ok::<
                BuildingV,
                Seq<char>,
            >(final(st)@),
            Err(e) => refused(e, expand(entries_view(es@), ctx@, decls_view(templates@), d as nat, old(st)@)),
        },
{
    proof {
        reveal(expand);
    }
    let allowed: Vec<&'static str> = vec!["template", "args"];
    proof {
        assert(texts(allowed@) =~= invocation_keys());
    }
    match first_unknown_key(es, &allowed) {
        Some(key) => {
            return Err(CompileError::new(cat3(ctx, ": a template invocation takes `template` and `args`; there is no ", quoted(key.as_str()).as_str())));
        },
        None => {},
    }
    let n = match get(es, "template") {
        Some(Node::Str(n)) => n,
        _ => {
            return Err(CompileError::new(cat2(ctx, ": `template` must be a name")));
        },
    };
    let j = match template_index(templates, n) {
        Some(j) => j,
        None => {
            return Err(CompileError::new(cat2("unknown template ", quoted(n.as_str()).as_str())));
        },
    };
    expand_declared(es, ctx, &templates[j], n, d, st)
}

} // verus!
