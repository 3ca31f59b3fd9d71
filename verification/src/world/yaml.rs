//! The author's YAML, as the world compiler reads it.
//!
//! `yaml_rust2` loads the text (it resolves anchors, refuses duplicate keys
//! and reports scan errors with a line and column). What it loads is turned
//! into a [`Node`]: the scalars as the loader typed them, the sequences and
//! mappings in document order. The compiler never reads deeper than
//! [`NODE_DEPTH`] levels below the root, so a collection below that depth
//! is kept only as [`Node::Complex`]: nothing the compiler does looks
//! inside one.

use vstd::prelude::*;

use yaml_rust2::yaml::Yaml;
use yaml_rust2::YamlLoader;

use crate::text::{push_signed_decimal, signed_decimal};

verus! {

#[verifier::external_type_specification]
#[verifier::external_body]
pub struct ExYaml(Yaml);

/// How many levels below the root a loaded document is kept.
pub const NODE_DEPTH: u32 = 8;

/// A YAML node.
#[derive(Debug)]
pub enum Node {
    /// `null`, `~`, an empty value, or a scalar the loader could not type.
    Null,
    Bool(bool),
    Int(i64),
    /// A real scalar, as its text.
    Real(String),
    Str(String),
    Sequence(Vec<Node>),
    /// A mapping's entries in document order; its keys are distinct.
    Mapping(Vec<(Node, Node)>),
    /// An alias the loader left unresolved, or a collection deeper than
    /// anything the compiler reads.
    Complex,
}

/// A node's contents as plain values.
pub enum NodeV {
    Null,
    Bool(bool),
    Int(i64),
    Real(Seq<char>),
    Str(Seq<char>),
    Sequence(Seq<NodeV>),
    Mapping(Seq<(NodeV, NodeV)>),
    Complex,
}

pub open spec fn node_view(n: Node) -> NodeV
    decreases n,
{
    match n {
        Node::Null => NodeV::Null,
        Node::Bool(b) => NodeV::Bool(b),
        Node::Int(i) => NodeV::Int(i),
        Node::Real(t) => NodeV::Real(t@),
        Node::Str(s) => NodeV::Str(s@),
        Node::Sequence(items) => NodeV::Sequence(
            Seq::new(
                items@.len(),
                |i: int|
                    if 0 <= i < items@.len() {
                        node_view(items@[i])
                    } else {
                        NodeV::Null
                    },
            ),
        ),
        Node::Mapping(entries) => NodeV::Mapping(
            Seq::new(
                entries@.len(),
                |i: int|
                    if 0 <= i < entries@.len() {
                        (node_view(entries@[i].0), node_view(entries@[i].1))
                    } else {
                        (NodeV::Null, NodeV::Null)
                    },
            ),
        ),
        Node::Complex => NodeV::Complex,
    }
}

impl View for Node {
    type V = NodeV;

    open spec fn view(&self) -> NodeV {
        node_view(*self)
    }
}


// ── loading ──────────────────────────────────────────────────────────────
/// What one loaded node is, one level down: its scalar, or its children
/// as the loader left them.
enum Shallow {
    Null,
    Bool(bool),
    Int(i64),
    Real(String),
    Str(String),
    Sequence(Vec<Yaml>),
    Mapping(Vec<(Yaml, Yaml)>),
    Alias,
}

/// Why the loader refused the text: its message, and the line and column
/// where it stopped.
#[derive(Debug)]
pub struct ScanFailure {
    pub info: String,
    pub line: usize,
    pub col: usize,
}

/// What a loaded YAML node holds, as plain values: the loader's own
/// variants, a list's items and a mapping's entries in the loader's order.
pub enum YamlV {
    Real(Seq<char>),
    Integer(i64),
    String(Seq<char>),
    Boolean(bool),
    Array(Seq<YamlV>),
    Hash(Seq<(YamlV, YamlV)>),
    Alias(usize),
    Null,
    BadValue,
}

/// What a loaded node holds.
pub uninterp spec fn yaml_tree(y: Yaml) -> YamlV;

/// What `YamlLoader::load_from_str` makes of a text: its documents, or the
/// scan error's message, line and column.
pub uninterp spec fn yaml_load(text: Seq<char>) -> Result<Seq<YamlV>, (Seq<char>, usize, usize)>;

/// `YamlLoader::load_from_str`: the text's documents, each what the loader
/// made of it, or the scan error's message and place.
#[verifier::external_body]
fn load_documents(text: &str) -> (r: Result<Vec<Yaml>, ScanFailure>)
    ensures
        match r {
            Ok(docs) => yaml_load(text@) == Ok::<Seq<YamlV>, (Seq<char>, usize, usize)>(
                Seq::new(docs.len() as nat, |i: int| yaml_tree(docs@[i])),
            ),
            Err(f) => yaml_load(text@) == Err::<Seq<YamlV>, (Seq<char>, usize, usize)>((f.info@, f.line, f.col)),
        },
{
    match YamlLoader::load_from_str(text) {
        Ok(docs) => Ok(docs),
        Err(e) => Err(ScanFailure { info: e.info().to_string(), line: e.marker().line(), col: e.marker().col() }),
    }
}

/// A loaded node's variant, one level down: its scalar, or its children
/// as the loader holds them (a mapping's entries in the loader's order);
/// `BadValue` reads as null.
#[verifier::external_body]
fn shallow(y: Yaml) -> (s: Shallow)
    ensures
        match yaml_tree(y) {
            YamlV::Real(t) => s matches Shallow::Real(u) && u@ == t,
            YamlV::Integer(i) => s == Shallow::Int(i),
            YamlV::String(t) => s matches Shallow::Str(u) && u@ == t,
            YamlV::Boolean(b) => s == Shallow::Bool(b),
            YamlV::Array(items) => s matches Shallow::Sequence(v) && v@.len() == items.len() && forall|i: int|
                0 <= i < items.len() ==> yaml_tree(#[trigger] v@[i]) == items[i],
            YamlV::Hash(es) => s matches Shallow::Mapping(v) && v@.len() == es.len() && forall|i: int|
                0 <= i < es.len() ==> yaml_tree((#[trigger] v@[i]).0) == es[i].0 && yaml_tree(v@[i].1) == es[i].1,
            YamlV::Alias(_) => s is Alias,
            YamlV::Null => s is Null,
            YamlV::BadValue => s is Null,
        },
{
    match y {
        Yaml::Real(t) => Shallow::Real(t),
        Yaml::Integer(i) => Shallow::Int(i),
        Yaml::String(t) => Shallow::Str(t),
        Yaml::Boolean(b) => Shallow::Bool(b),
        Yaml::Array(items) => Shallow::Sequence(items),
        Yaml::Hash(entries) => Shallow::Mapping(entries.into_iter().collect()),
        Yaml::Alias(_) => Shallow::Alias,
        Yaml::Null => Shallow::Null,
        Yaml::BadValue => Shallow::Null,
    }
}

/// A loaded node as the compiler reads it, kept `depth` levels deep: the
/// scalars as the loader typed them, a list or a mapping below that depth
/// (and an unresolved alias) as `Complex`, a bad value as null.
pub open spec fn node_at(t: YamlV, depth: nat) -> NodeV
    decreases depth,
{
    match t {
        YamlV::Real(x) => NodeV::Real(x),
        YamlV::Integer(i) => NodeV::Int(i),
        YamlV::String(x) => NodeV::Str(x),
        YamlV::Boolean(b) => NodeV::Bool(b),
        YamlV::Array(items) => if depth == 0 {
            NodeV::Complex
        } else {
            NodeV::Sequence(Seq::new(items.len(), |i: int| node_at(items[i], (depth - 1) as nat)))
        },
        YamlV::Hash(es) => if depth == 0 {
            NodeV::Complex
        } else {
            NodeV::Mapping(
                Seq::new(
                    es.len(),
                    |i: int| (node_at(es[i].0, (depth - 1) as nat), node_at(es[i].1, (depth - 1) as nat)),
                ),
            )
        },
        YamlV::Alias(_) => NodeV::Complex,
        YamlV::Null => NodeV::Null,
        YamlV::BadValue => NodeV::Null,
    }
}

/// A loaded node as a [`Node`], kept `depth` levels deep.
fn node_of(y: Yaml, depth: u32) -> (n: Node)
    ensures
        n@ == node_at(yaml_tree(y), depth as nat),
    decreases depth,
{
    let ghost t = yaml_tree(y);
    match shallow(y) {
        Shallow::Null => Node::Null,
        Shallow::Bool(b) => Node::Bool(b),
        Shallow::Int(i) => Node::Int(i),
        Shallow::Real(t) => Node::Real(t),
        Shallow::Str(t) => Node::Str(t),
        Shallow::Alias => Node::Complex,
        Shallow::Sequence(items) => {
            if depth == 0 {
                return Node::Complex;
            }
            let ghost trees = t->Array_0;
            let ghost want = Seq::new(trees.len(), |i: int| node_at(trees[i], (depth - 1) as nat));
            let mut items = items;
            let mut out: Vec<Node> = Vec::new();
            while items.len() > 0
                invariant
                    depth > 0,
                    want == Seq::new(trees.len(), |i: int| node_at(trees[i], (depth - 1) as nat)),
                    out@.len() + items@.len() == trees.len(),
                    forall|k: int| 0 <= k < items@.len() ==> yaml_tree(#[trigger] items@[k]) == trees[out@.len() + k],
                    forall|j: int| 0 <= j < out@.len() ==> (#[trigger] out@[j])@ == want[j],
                decreases items.len(),
            {
                let ghost before = items@;
                let item = items.remove(0);
                proof {
                    assert forall|k: int| 0 <= k < items@.len() implies yaml_tree(#[trigger] items@[k]) == trees[out@.len() + 1 + k] by {
                        assert(items@[k] == before[k + 1]);
                    }
                    assert(yaml_tree(before[0]) == trees[out@.len() as int]);
                }
                out.push(node_of(item, depth - 1));
            }
            let n = Node::Sequence(out);
            proof {
                assert(n@ == NodeV::Sequence(want)) by {
                    assert(n@->Sequence_0 =~= want);
                }
                assert(node_at(t, depth as nat) == NodeV::Sequence(want)) by {
                    assert(node_at(t, depth as nat)->Sequence_0 =~= want);
                }
            }
            n
        },
        Shallow::Mapping(entries) => {
            if depth == 0 {
                return Node::Complex;
            }
            let ghost trees = t->Hash_0;
            let ghost want = Seq::new(
                trees.len(),
                |i: int| (node_at(trees[i].0, (depth - 1) as nat), node_at(trees[i].1, (depth - 1) as nat)),
            );
            let mut entries = entries;
            let mut out: Vec<(Node, Node)> = Vec::new();
            while entries.len() > 0
                invariant
                    depth > 0,
                    want == Seq::new(
                        trees.len(),
                        |i: int| (node_at(trees[i].0, (depth - 1) as nat), node_at(trees[i].1, (depth - 1) as nat)),
                    ),
                    out@.len() + entries@.len() == trees.len(),
                    forall|k: int|
                        0 <= k < entries@.len() ==> yaml_tree((#[trigger] entries@[k]).0) == trees[out@.len() + k].0
                            && yaml_tree(entries@[k].1) == trees[out@.len() + k].1,
                    forall|j: int| 0 <= j < out@.len() ==> (#[trigger] out@[j]).0@ == want[j].0 && out@[j].1@ == want[j].1,
                decreases entries.len(),
            {
                let ghost before = entries@;
                let (key, value) = entries.remove(0);
                proof {
                    assert forall|k: int| 0 <= k < entries@.len() implies yaml_tree((#[trigger] entries@[k]).0)
                        == trees[out@.len() + 1 + k].0 && yaml_tree(entries@[k].1) == trees[out@.len() + 1 + k].1 by {
                        assert(entries@[k] == before[k + 1]);
                    }
                    assert(yaml_tree(before[0].0) == trees[out@.len() as int].0);
                }
                let key = node_of(key, depth - 1);
                let value = node_of(value, depth - 1);
                out.push((key, value));
            }
            let n = Node::Mapping(out);
            proof {
                assert(n@ == NodeV::Mapping(want)) by {
                    assert(n@->Mapping_0 =~= want);
                }
                assert(node_at(t, depth as nat) == NodeV::Mapping(want)) by {
                    assert(node_at(t, depth as nat)->Mapping_0 =~= want);
                }
            }
            n
        },
    }
}

/// Load the text's YAML documents, each as a [`Node`] kept [`NODE_DEPTH`]
/// levels deep; or why the loader refused it.
pub fn load_yaml(text: &str) -> (r: Result<Vec<Node>, ScanFailure>)
    ensures
        match r {
            Ok(docs) => yaml_load(text@) matches Ok(ts) && docs.len() == ts.len() && forall|i: int|
                0 <= i < docs.len() ==> #[trigger] docs@[i]@ == node_at(ts[i], NODE_DEPTH as nat),
            Err(f) => yaml_load(text@) == Err::<Seq<YamlV>, (Seq<char>, usize, usize)>((f.info@, f.line, f.col)),
        },
{
    let mut loaded = match load_documents(text) {
        Ok(docs) => docs,
        Err(f) => {
            return Err(f);
        },
    };
    let ghost ts = Seq::new(loaded.len() as nat, |i: int| yaml_tree(loaded@[i]));
    let mut docs: Vec<Node> = Vec::new();
    while loaded.len() > 0
        invariant
            yaml_load(text@) == Ok::<Seq<YamlV>, (Seq<char>, usize, usize)>(ts),
            docs.len() + loaded.len() == ts.len(),
            forall|k: int| 0 <= k < loaded@.len() ==> yaml_tree(#[trigger] loaded@[k]) == ts[docs@.len() + k],
            forall|i: int| 0 <= i < docs.len() ==> #[trigger] docs@[i]@ == node_at(ts[i], NODE_DEPTH as nat),
        decreases loaded.len(),
    {
        let ghost before = loaded@;
        let doc = loaded.remove(0);
        proof {
            assert forall|k: int| 0 <= k < loaded@.len() implies yaml_tree(#[trigger] loaded@[k]) == ts[docs@.len() + 1 + k] by {
                assert(loaded@[k] == before[k + 1]);
            }
            assert(yaml_tree(before[0]) == ts[docs@.len() as int]);
        }
        docs.push(node_of(doc, NODE_DEPTH));
    }
    Ok(docs)
}

/// What `Yaml::as_f64` reads from a real scalar with this text: the core
/// schema's `.inf`/`.nan` spellings, or the decimal parse of a text that
/// holds a digit; as the double's bit pattern.
pub uninterp spec fn yaml_real(text: Seq<char>) -> Option<u64>;

/// `Yaml::as_f64` on a real scalar with this text, as the double's bit
/// pattern.
#[verifier::external_body]
pub(crate) fn real_value(text: &str) -> (r: Option<u64>)
    ensures
        r == yaml_real(text@),
{
    Yaml::Real(text.to_owned()).as_f64().map(|x| x.to_bits())
}

// ── reading nodes ────────────────────────────────────────────────────────
/// A copy of a node.
pub fn copy_node(n: &Node) -> (r: Node)
    ensures
        r@ == n@,
    decreases n,
{
    match n {
        Node::Null => Node::Null,
        Node::Bool(b) => Node::Bool(*b),
        Node::Int(i) => Node::Int(*i),
        Node::Real(t) => Node::Real(t.clone()),
        Node::Str(t) => Node::Str(t.clone()),
        Node::Complex => Node::Complex,
        Node::Sequence(items) => {
            let mut out: Vec<Node> = Vec::new();
            let mut i: usize = 0;
            while i < items.len()
                invariant
                    i <= items.len(),
                    *n == Node::Sequence(*items),
                    out.len() == i,
                    forall|k: int| 0 <= k < i ==> #[trigger] out@[k]@ == items@[k]@,
                decreases items.len() - i,
            {
                proof {
                    assert(decreases_to!(*n => (*n)->Sequence_0));
                    assert(decreases_to!(*items => items@));
                    assert(decreases_to!(items@ => items@[i as int]));
                }
                let c = copy_node(&items[i]);
                out.push(c);
                i = i + 1;
            }
            let r = Node::Sequence(out);
            proof {
                assert(i == items.len());
                assert forall|k: int| 0 <= k < out@.len() implies #[trigger] node_view(r)->Sequence_0[k]
                    == node_view(*n)->Sequence_0[k] by {
                    assert(out@[k]@ == items@[k]@);
                }
                assert(node_view(r)->Sequence_0 =~= node_view(*n)->Sequence_0);
            }
            r
        },
        Node::Mapping(entries) => {
            let mut out: Vec<(Node, Node)> = Vec::new();
            let mut i: usize = 0;
            while i < entries.len()
                invariant
                    i <= entries.len(),
                    *n == Node::Mapping(*entries),
                    out.len() == i,
                    forall|k: int| 0 <= k < i ==> #[trigger] out@[k].0@ == entries@[k].0@,
                    forall|k: int| 0 <= k < i ==> #[trigger] out@[k].1@ == entries@[k].1@,
                decreases entries.len() - i,
            {
                proof {
                    assert(decreases_to!(*n => (*n)->Mapping_0));
                    assert(decreases_to!(*entries => entries@));
                    assert(decreases_to!(entries@ => entries@[i as int]));
                    assert(decreases_to!(entries@[i as int] => entries@[i as int].0));
                    assert(decreases_to!(entries@[i as int] => entries@[i as int].1));
                }
                let key = copy_node(&entries[i].0);
                let value = copy_node(&entries[i].1);
                let ghost prev = out@;
                out.push((key, value));
                proof {
                    assert forall|k: int| 0 <= k < i + 1 implies #[trigger] out@[k].0@ == entries@[k].0@ by {
                        if k < i {
                            assert(out@[k] == prev[k]);
                        }
                    }
                    assert forall|k: int| 0 <= k < i + 1 implies #[trigger] out@[k].1@ == entries@[k].1@ by {
                        if k < i {
                            assert(out@[k] == prev[k]);
                        }
                    }
                }
                i = i + 1;
            }
            let r = Node::Mapping(out);
            proof {
                assert(i == entries.len());
                assert forall|k: int| 0 <= k < out@.len() implies #[trigger] node_view(r)->Mapping_0[k]
                    == node_view(*n)->Mapping_0[k] by {
                    assert(out@[k].0@ == entries@[k].0@ && out@[k].1@ == entries@[k].1@);
                }
                assert(node_view(r)->Mapping_0 =~= node_view(*n)->Mapping_0);
            }
            r
        },
    }
}

/// How a node reads inside a message: a scalar's text, `null`, or
/// `<complex>` for a collection.
pub open spec fn node_text(n: NodeV) -> Seq<char> {
    match n {
        NodeV::Str(s) => s,
        NodeV::Int(i) => signed_decimal(i as int),
        NodeV::Real(t) => t,
        NodeV::Bool(b) => if b {
            "true"@
        } else {
            "false"@
        },
        NodeV::Null => "null"@,
        _ => "<complex>"@,
    }
}

/// Append how a node reads inside a message.
pub fn push_node_text(out: &mut String, n: &Node)
    ensures
        final(out)@ == old(out)@ + node_text(n@),
{
    match n {
        Node::Str(t) => out.append(t.as_str()),
        Node::Int(i) => push_signed_decimal(out, *i),
        Node::Real(t) => out.append(t.as_str()),
        Node::Bool(b) => {
            if *b {
                out.append("true");
            } else {
                out.append("false");
            }
        },
        Node::Null => out.append("null"),
        _ => out.append("<complex>"),
    }
}

/// The value a mapping holds under the string key `key`: the first entry
/// whose key is that string (a loaded mapping's keys are distinct).
pub open spec fn map_get(entries: Seq<(NodeV, NodeV)>, key: Seq<char>) -> Option<NodeV> {
    if exists|i: int| 0 <= i < entries.len() && entries[i].0 == NodeV::Str(key) {
        let i = choose|i: int|
            0 <= i < entries.len() && entries[i].0 == NodeV::Str(key) && forall|j: int|
                0 <= j < i ==> entries[j].0 != NodeV::Str(key);
        Some(entries[i].1)
    } else {
        None
    }
}

/// Whether a node is the string `key`.
pub fn is_text(n: &Node, key: &str) -> (b: bool)
    ensures
        b == (n@ == NodeV::Str(key@)),
{
    match n {
        Node::Str(t) => *t == key.to_owned(),
        _ => false,
    }
}

/// A mapping's value under the string key `key`.
pub fn get<'a>(entries: &'a Vec<(Node, Node)>, key: &str) -> (r: Option<&'a Node>)
    ensures
        map_get(entries_view(entries@), key@) == match r {
            Some(v) => Some(v@),
            None => None::<NodeV>,
        },
{
    let ghost view = entries_view(entries@);
    let mut i: usize = 0;
    while i < entries.len()
        invariant
            i <= entries.len(),
            view == entries_view(entries@),
            forall|j: int| 0 <= j < i ==> view[j].0 != NodeV::Str(key@),
        decreases entries.len() - i,
    {
        if is_text(&entries[i].0, key) {
            proof {
                let k = choose|k: int|
                    0 <= k < view.len() && view[k].0 == NodeV::Str(key@) && forall|j: int|
                        0 <= j < k ==> view[j].0 != NodeV::Str(key@);
                assert(view[i as int].0 == NodeV::Str(key@));
                if k < i {
                } else if k > i {
                }
            }
            return Some(&entries[i].1);
        }
        i = i + 1;
    }
    None
}

/// A mapping's entries as plain values.
pub open spec fn entries_view(entries: Seq<(Node, Node)>) -> Seq<(NodeV, NodeV)> {
    Seq::new(entries.len(), |i: int| (entries[i].0@, entries[i].1@))
}

/// A mapping node's entries view agrees with [`entries_view`].
pub proof fn lemma_mapping_view(n: Node)
    requires
        n is Mapping,
    ensures
        n@ == NodeV::Mapping(entries_view(n->Mapping_0@)),
{
    assert(node_view(n)->Mapping_0 =~= entries_view(n->Mapping_0@));
}

/// A sequence node's items view.
pub open spec fn items_view(items: Seq<Node>) -> Seq<NodeV> {
    Seq::new(items.len(), |i: int| items[i]@)
}

pub proof fn lemma_sequence_view(n: Node)
    requires
        n is Sequence,
    ensures
        n@ == NodeV::Sequence(items_view(n->Sequence_0@)),
{
    assert(node_view(n)->Sequence_0 =~= items_view(n->Sequence_0@));
}

} // verus!
