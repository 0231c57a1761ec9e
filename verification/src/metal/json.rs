//! JSON documents as flat lists of nodes, each node before its children.
use serde_json::Value;
use vstd::prelude::*;

use crate::text::same_text;
#[allow(unused_imports)]
use crate::text::texts;

verus! {

/// One value of a document. A number is held by what it can be read as; a
/// float by its bits.
#[derive(Debug)]
pub enum JsonNode {
    Null,
    Bool(bool),
    Number { unsigned: Option<u64>, signed: Option<i64>, float_bits: Option<u64> },
    Text(String),
    /// So many items follow.
    Array(usize),
    /// The values of these keys follow, in this order.
    Object(Vec<String>),
}

#[verifier::ext_equal]
pub enum NodeView {
    Null,
    Bool(bool),
    Number { unsigned: Option<u64>, signed: Option<i64>, float_bits: Option<u64> },
    Text(Seq<char>),
    Array(nat),
    Object(Seq<Seq<char>>),
}

impl View for JsonNode {
    type V = NodeView;

    open spec fn view(&self) -> NodeView {
        match *self {
            JsonNode::Null => NodeView::Null,
            JsonNode::Bool(b) => NodeView::Bool(b),
            JsonNode::Number { unsigned, signed, float_bits } => NodeView::Number {
                unsigned,
                signed,
                float_bits,
            },
            JsonNode::Text(s) => NodeView::Text(s@),
            JsonNode::Array(n) => NodeView::Array(n as nat),
            JsonNode::Object(keys) => NodeView::Object(texts(keys@)),
        }
    }
}

pub open spec fn node_views(nodes: Seq<JsonNode>) -> Seq<NodeView> {
    nodes.map_values(|n: JsonNode| n@)
}

/// A JSON value as the parser gives it.
#[verifier::external_type_specification]
#[verifier::external_body]
pub struct ExValue(serde_json::Value);

/// The nodes of a JSON text, nothing where it is none.
pub uninterp spec fn json_nodes(text: Seq<char>) -> Option<Seq<NodeView>>;

/// What a value holds: its own node, then the nodes of its children, array
/// items and object values in the order in which the value holds them.
pub uninterp spec fn value_nodes(v: Value) -> Seq<NodeView>;

/// The nodes of several values, one after the other.
pub open spec fn all_nodes(vs: Seq<Value>) -> Seq<NodeView>
    decreases vs.len(),
{
    if vs.len() == 0 {
        Seq::empty()
    } else {
        value_nodes(vs[0]) + all_nodes(vs.skip(1))
    }
}

/// `serde_json::from_str` into a `serde_json::Value`. Which texts are JSON,
/// and what they hold, is left to it.
#[verifier::external_body]
pub(crate) fn parse_value(text: &str) -> (r: Option<Value>)
    ensures
        match r {
            Some(v) => json_nodes(text@) == Some(value_nodes(v)),
            None => json_nodes(text@) is None,
        },
{
    serde_json::from_str(text).ok()
}

/// Takes a `serde_json::Value` apart: its own node and its children. A number
/// keeps what `as_u64`, `as_i64` and `as_f64` of `serde_json::Number` give; an
/// object its keys and values in the order of `serde_json::Map`.
#[verifier::external_body]
pub(crate) fn split_value(v: Value) -> (r: (JsonNode, Vec<Value>))
    ensures
        value_nodes(v) == seq![r.0@] + all_nodes(r.1@),
        r.1@.len() == kids(r.0@),
{
    match v {
        Value::Null => (JsonNode::Null, vec![]),
        Value::Bool(b) => (JsonNode::Bool(b), vec![]),
        Value::Number(n) => {
            let float_bits = n.as_f64().map(|x| x.to_bits());
            (JsonNode::Number { unsigned: n.as_u64(), signed: n.as_i64(), float_bits }, vec![])
        },
        Value::String(s) => (JsonNode::Text(s), vec![]),
        Value::Array(a) => (JsonNode::Array(a.len()), a),
        Value::Object(o) => (
            JsonNode::Object(o.keys().cloned().collect()),
            o.into_iter().map(|e| e.1).collect(),
        ),
    }
}

proof fn lemma_all_nodes_append(a: Seq<Value>, b: Seq<Value>)
    ensures
        all_nodes(a + b) == all_nodes(a) + all_nodes(b),
    decreases a.len(),
{
    if a.len() == 0 {
        assert(a + b =~= b);
        assert(all_nodes(a) + all_nodes(b) =~= all_nodes(b));
    } else {
        assert((a + b).skip(1) =~= a.skip(1) + b);
        lemma_all_nodes_append(a.skip(1), b);
        assert(all_nodes(a + b) =~= all_nodes(a) + all_nodes(b));
    }
}

proof fn lemma_one(v: Value)
    ensures
        all_nodes(seq![v]) == value_nodes(v),
{
    reveal_with_fuel(all_nodes, 2);
    assert(seq![v].skip(1) =~= Seq::<Value>::empty());
    assert(value_nodes(v) + Seq::<NodeView>::empty() =~= value_nodes(v));
}

/// Taking the top of a stack apart keeps the nodes that are to come.
proof fn lemma_apart(rest: Seq<Value>, v: Value, node: NodeView, children: Seq<Value>)
    requires
        value_nodes(v) == seq![node] + all_nodes(children),
    ensures
        all_nodes(rest.push(v).reverse()) == seq![node] + all_nodes(
            (rest + children.reverse()).reverse(),
        ),
{
    let below = rest.reverse();
    assert(rest.push(v).reverse() =~= seq![v] + below);
    lemma_all_nodes_append(seq![v], below);
    lemma_one(v);
    assert((rest + children.reverse()).reverse() =~= children + below);
    lemma_all_nodes_append(children, below);
    assert((seq![node] + all_nodes(children)) + all_nodes(below) =~= seq![node] + (all_nodes(
        children,
    ) + all_nodes(below)));
}

fn push_reversed(stack: &mut Vec<Value>, values: Vec<Value>)
    ensures
        final(stack)@ == old(stack)@ + values@.reverse(),
{
    let ghost rest = stack@;
    let ghost children = values@;
    let mut below: Vec<Value> = values;
    assert(children.skip(children.len() as int).reverse() =~= Seq::<Value>::empty());
    assert(children.take(children.len() as int) =~= children);
    while below.len() > 0
        invariant
            below@.len() <= children.len(),
            below@ == children.take(below@.len() as int),
            stack@ == rest + children.skip(below@.len() as int).reverse(),
        decreases below@.len(),
    {
        let ghost m = below@.len() as int;
        match below.pop() {
            Some(c) => {
                proof {
                    assert(c == children[m - 1]);
                    assert(children.take(m).drop_last() =~= children.take(m - 1));
                    assert(children.skip(m - 1).reverse() =~= children.skip(m).reverse().push(c));
                }
                stack.push(c);
                assert(stack@ =~= rest + children.skip(m - 1).reverse());
            },
            None => {},
        }
    }
    assert(children.skip(0) =~= children);
}

/// Reads a JSON text into its nodes.
fn parse_nodes(text: &str) -> (r: Option<Vec<JsonNode>>)
    ensures
        match (r, json_nodes(text@)) {
            (Some(v), Some(s)) => node_views(v@) == s,
            (None, None) => true,
            _ => false,
        },
{
    let root: Value = match parse_value(text) {
        None => {
            return None;
        },
        Some(v) => v,
    };
    let ghost whole = value_nodes(root);
    let mut out: Vec<JsonNode> = Vec::new();
    let mut stack: Vec<Value> = Vec::new();
    stack.push(root);
    proof {
        lemma_one(root);
        assert(stack@.reverse() =~= seq![root]);
        assert(node_views(out@) =~= Seq::<NodeView>::empty());
        assert(Seq::<NodeView>::empty() + whole =~= whole);
    }
    while stack.len() > 0
        invariant
            node_views(out@) + all_nodes(stack@.reverse()) == whole,
        decreases all_nodes(stack@.reverse()).len(),
    {
        let ghost before = stack@;
        let ghost done = node_views(out@);
        match stack.pop() {
            Some(v) => {
                let ghost rest = stack@;
                let parts: (JsonNode, Vec<Value>) = split_value(v);
                let ghost view = parts.0@;
                let ghost children = parts.1@;
                proof {
                    assert(before =~= rest.push(v));
                    lemma_apart(rest, v, view, children);
                }
                out.push(parts.0);
                push_reversed(&mut stack, parts.1);
                proof {
                    assert(node_views(out@) =~= done.push(view));
                    let left = all_nodes(stack@.reverse());
                    assert(done + (seq![view] + left) =~= done.push(view) + left);
                }
            },
            None => {},
        }
    }
    assert(stack@.reverse() =~= Seq::<Value>::empty());
    assert(node_views(out@) + Seq::<NodeView>::empty() =~= node_views(out@));
    Some(out)
}

/// How many children follow a node.
pub open spec fn kids(n: NodeView) -> nat {
    match n {
        NodeView::Array(k) => k,
        NodeView::Object(keys) => keys.len(),
        _ => 0,
    }
}

/// The place behind the next `pending` values from place `i` on.
pub open spec fn end_after(nodes: Seq<NodeView>, i: nat, pending: nat) -> nat
    decreases nodes.len() - i,
{
    if pending == 0 || i >= nodes.len() {
        i
    } else {
        end_after(nodes, i + 1, (pending - 1 + kids(nodes[i as int])) as nat)
    }
}

/// The place of a container's `k`-th child.
pub open spec fn child(nodes: Seq<NodeView>, i: nat, k: nat) -> nat {
    end_after(nodes, i + 1, k)
}

/// The first place of a key.
pub open spec fn key_place(keys: Seq<Seq<char>>, key: Seq<char>, n: nat) -> Option<nat>
    decreases n,
{
    if n == 0 {
        None
    } else {
        match key_place(keys, key, (n - 1) as nat) {
            Some(k) => Some(k),
            None => if keys[n - 1] == key {
                Some((n - 1) as nat)
            } else {
                None
            },
        }
    }
}

/// The place of the value that an object at `at` holds under a key.
pub open spec fn field(nodes: Seq<NodeView>, at: Option<nat>, key: Seq<char>) -> Option<nat> {
    match at {
        None => None,
        Some(i) => if i < nodes.len() && nodes[i as int] is Object {
            let keys = nodes[i as int]->Object_0;
            match key_place(keys, key, keys.len()) {
                None => None,
                Some(k) => if child(nodes, i, k) < nodes.len() {
                    Some(child(nodes, i, k))
                } else {
                    None
                },
            }
        } else {
            None
        },
    }
}

/// The node at a place, where there is one.
pub open spec fn node_at(nodes: Seq<NodeView>, at: Option<nat>) -> Option<NodeView> {
    match at {
        Some(i) => if i < nodes.len() {
            Some(nodes[i as int])
        } else {
            None
        },
        None => None,
    }
}

pub open spec fn object_at(nodes: Seq<NodeView>, at: Option<nat>) -> Option<nat> {
    match node_at(nodes, at) {
        Some(NodeView::Object(_)) => at,
        _ => None,
    }
}

pub open spec fn u64_at(nodes: Seq<NodeView>, at: Option<nat>) -> Option<u64> {
    match node_at(nodes, at) {
        Some(NodeView::Number { unsigned, .. }) => unsigned,
        _ => None,
    }
}

pub open spec fn i64_at(nodes: Seq<NodeView>, at: Option<nat>) -> Option<i64> {
    match node_at(nodes, at) {
        Some(NodeView::Number { signed, .. }) => signed,
        _ => None,
    }
}

pub open spec fn bits_at(nodes: Seq<NodeView>, at: Option<nat>) -> Option<u64> {
    match node_at(nodes, at) {
        Some(NodeView::Number { float_bits, .. }) => float_bits,
        _ => None,
    }
}

pub open spec fn bool_at(nodes: Seq<NodeView>, at: Option<nat>) -> Option<bool> {
    match node_at(nodes, at) {
        Some(NodeView::Bool(b)) => Some(b),
        _ => None,
    }
}

pub open spec fn text_at(nodes: Seq<NodeView>, at: Option<nat>) -> Option<Seq<char>> {
    match node_at(nodes, at) {
        Some(NodeView::Text(s)) => Some(s),
        _ => None,
    }
}

pub open spec fn items_at(nodes: Seq<NodeView>, at: Option<nat>) -> Option<nat> {
    match node_at(nodes, at) {
        Some(NodeView::Array(n)) => Some(n),
        _ => None,
    }
}

/// The place of an array's `k`-th item, where the document holds it.
pub open spec fn item_at(nodes: Seq<NodeView>, at: Option<nat>, k: nat) -> Option<nat> {
    match items_at(nodes, at) {
        None => None,
        Some(n) => if k < n && child(nodes, at->0, k) < nodes.len() {
            Some(child(nodes, at->0, k))
        } else {
            None
        },
    }
}

proof fn lemma_runs_out(nodes: Seq<NodeView>, i: nat, pending: nat)
    requires
        i <= nodes.len(),
        pending >= nodes.len() - i,
    ensures
        end_after(nodes, i, pending) == nodes.len(),
    decreases nodes.len() - i,
{
    if i < nodes.len() {
        lemma_runs_out(nodes, i + 1, (pending - 1 + kids(nodes[i as int])) as nat);
    }
}

/// The exec counterpart of an optional place.
pub open spec fn place(at: Option<usize>) -> Option<nat> {
    match at {
        Some(i) => Some(i as nat),
        None => None,
    }
}

/// A parsed document.
#[derive(Debug)]
pub struct JsonDoc {
    pub nodes: Vec<JsonNode>,
}

impl View for JsonDoc {
    type V = Seq<NodeView>;

    open spec fn view(&self) -> Seq<NodeView> {
        node_views(self.nodes@)
    }
}

impl JsonDoc {
    /// Reads a JSON text.
    pub fn parse(text: &str) -> (r: Option<JsonDoc>)
        ensures
            match (r, json_nodes(text@)) {
                (Some(d), Some(s)) => d@ == s,
                (None, None) => true,
                _ => false,
            },
    {
        match parse_nodes(text) {
            Some(nodes) => Some(JsonDoc { nodes }),
            None => None,
        }
    }

    /// The place of the whole value.
    pub fn root(&self) -> (at: Option<usize>)
        ensures
            place(at) == Some(0nat),
    {
        Some(0)
    }

    fn after(&self, from: usize, count: usize) -> (end: usize)
        requires
            from <= self.nodes@.len(),
        ensures
            end == end_after(self@, from as nat, count as nat),
            from <= end <= self.nodes@.len(),
    {
        let len: usize = self.nodes.len();
        let mut i: usize = from;
        let mut pending: u128 = count as u128;
        while i < len && pending > 0
            invariant
                from <= i <= len == self.nodes@.len(),
                pending <= 0x1_0000_0000_0000_0000_0000,
                end_after(self@, from as nat, count as nat) == end_after(
                    self@,
                    i as nat,
                    pending as nat,
                ),
            decreases len - i,
        {
            if pending >= (len - i) as u128 {
                proof {
                    lemma_runs_out(self@, i as nat, pending as nat);
                }
                return len;
            }
            let more: usize = match &self.nodes[i] {
                JsonNode::Array(n) => *n,
                JsonNode::Object(keys) => keys.len(),
                _ => 0,
            };
            assert(self@[i as int] == self.nodes@[i as int]@);
            assert(more == kids(self@[i as int]));
            pending = pending - 1 + more as u128;
            i = i + 1;
        }
        i
    }

    /// The place of the value that an object holds under a key.
    pub fn field(&self, at: Option<usize>, key: &str) -> (r: Option<usize>)
        ensures
            place(r) == field(self@, place(at), key@),
    {
        let i: usize = match at {
            None => {
                return None;
            },
            Some(i) => i,
        };
        if i >= self.nodes.len() {
            return None;
        }
        assert(self@[i as int] == self.nodes@[i as int]@);
        match &self.nodes[i] {
            JsonNode::Object(keys) => {
                let ghost names = texts(keys@);
                let total: usize = self.nodes.len();
                let mut k: usize = 0;
                while k < keys.len()
                    invariant
                        k <= keys@.len(),
                        names == texts(keys@),
                        i < total == self.nodes@.len(),
                        self@[i as int] == NodeView::Object(names),
                        at == Some(i),
                        key_place(names, key@, k as nat) is None,
                    decreases keys@.len() - k,
                {
                    assert(names[k as int] == keys@[k as int]@);
                    if same_text(keys[k].as_str(), key) {
                        proof {
                            lemma_key_place(names, key@, (k + 1) as nat, names.len());
                        }
                        let c: usize = self.after(i + 1, k);
                        return if c < self.nodes.len() {
                            Some(c)
                        } else {
                            None
                        };
                    }
                    k = k + 1;
                }
                None
            },
            _ => None,
        }
    }

    pub fn object(&self, at: Option<usize>) -> (r: Option<usize>)
        ensures
            place(r) == object_at(self@, place(at)),
    {
        match at {
            Some(i) => {
                if i < self.nodes.len() {
                    assert(self@[i as int] == self.nodes@[i as int]@);
                    match &self.nodes[i] {
                        JsonNode::Object(_) => at,
                        _ => None,
                    }
                } else {
                    None
                }
            },
            None => None,
        }
    }

    pub fn as_u64(&self, at: Option<usize>) -> (r: Option<u64>)
        ensures
            r == u64_at(self@, place(at)),
    {
        match at {
            Some(i) => {
                if i < self.nodes.len() {
                    assert(self@[i as int] == self.nodes@[i as int]@);
                    match &self.nodes[i] {
                        JsonNode::Number { unsigned, .. } => *unsigned,
                        _ => None,
                    }
                } else {
                    None
                }
            },
            None => None,
        }
    }

    pub fn as_i64(&self, at: Option<usize>) -> (r: Option<i64>)
        ensures
            r == i64_at(self@, place(at)),
    {
        match at {
            Some(i) => {
                if i < self.nodes.len() {
                    assert(self@[i as int] == self.nodes@[i as int]@);
                    match &self.nodes[i] {
                        JsonNode::Number { signed, .. } => *signed,
                        _ => None,
                    }
                } else {
                    None
                }
            },
            None => None,
        }
    }

    pub fn as_float_bits(&self, at: Option<usize>) -> (r: Option<u64>)
        ensures
            r == bits_at(self@, place(at)),
    {
        match at {
            Some(i) => {
                if i < self.nodes.len() {
                    assert(self@[i as int] == self.nodes@[i as int]@);
                    match &self.nodes[i] {
                        JsonNode::Number { float_bits, .. } => *float_bits,
                        _ => None,
                    }
                } else {
                    None
                }
            },
            None => None,
        }
    }

    pub fn as_bool(&self, at: Option<usize>) -> (r: Option<bool>)
        ensures
            r == bool_at(self@, place(at)),
    {
        match at {
            Some(i) => {
                if i < self.nodes.len() {
                    assert(self@[i as int] == self.nodes@[i as int]@);
                    match &self.nodes[i] {
                        JsonNode::Bool(b) => Some(*b),
                        _ => None,
                    }
                } else {
                    None
                }
            },
            None => None,
        }
    }

    pub fn as_text(&self, at: Option<usize>) -> (r: Option<&str>)
        ensures
            match (r, text_at(self@, place(at))) {
                (Some(s), Some(t)) => s@ == t,
                (None, None) => true,
                _ => false,
            },
    {
        match at {
            Some(i) => {
                if i < self.nodes.len() {
                    assert(self@[i as int] == self.nodes@[i as int]@);
                    match &self.nodes[i] {
                        JsonNode::Text(s) => Some(s.as_str()),
                        _ => None,
                    }
                } else {
                    None
                }
            },
            None => None,
        }
    }

    /// How many items an array has.
    pub fn items(&self, at: Option<usize>) -> (r: Option<usize>)
        ensures
            place(r) == items_at(self@, place(at)),
    {
        match at {
            Some(i) => {
                if i < self.nodes.len() {
                    assert(self@[i as int] == self.nodes@[i as int]@);
                    match &self.nodes[i] {
                        JsonNode::Array(n) => Some(*n),
                        _ => None,
                    }
                } else {
                    None
                }
            },
            None => None,
        }
    }

    /// The place of an array's item.
    pub fn item(&self, at: Option<usize>, k: usize) -> (r: Option<usize>)
        ensures
            place(r) == item_at(self@, place(at), k as nat),
    {
        match self.items(at) {
            None => None,
            Some(n) => {
                if k >= n {
                    return None;
                }
                match at {
                    None => None,
                    Some(i) => {
                        if i >= self.nodes.len() {
                            return None;
                        }
                        let c: usize = self.after(i + 1, k);
                        if c < self.nodes.len() {
                            Some(c)
                        } else {
                            None
                        }
                    },
                }
            },
        }
    }
}

proof fn lemma_key_place(keys: Seq<Seq<char>>, key: Seq<char>, k: nat, n: nat)
    requires
        k <= n,
        key_place(keys, key, k) is Some,
    ensures
        key_place(keys, key, n) == key_place(keys, key, k),
    decreases n,
{
    if k < n {
        lemma_key_place(keys, key, k, (n - 1) as nat);
    }
}

} // verus!
