//! Tensors of a checkpoint by name, and how its projections are to be loaded.
use vstd::prelude::*;
use vstd::string::*;

use crate::metal::config::{QuantConfig, QuantMode};
#[allow(unused_imports)]
use crate::metal::config::{quant_for, QuantView};
use crate::metal::json::{JsonDoc, JsonNode};
#[allow(unused_imports)]
use crate::metal::json::{field, json_nodes, object_at, text_at, NodeView};
use crate::metal::weights::WeightError;
use crate::text::{distinct_texts, extension, same_text, sorted_texts};
#[allow(unused_imports)]
use crate::text::{ascending, extension_of, in_order, texts};

verus! {

/// Where a name stands among the first `n`.
pub open spec fn name_place(names: Seq<Seq<char>>, name: Seq<char>, n: nat) -> Option<nat>
    decreases n,
{
    if n == 0 {
        None
    } else if names[n - 1] == name {
        Some((n - 1) as nat)
    } else {
        name_place(names, name, (n - 1) as nat)
    }
}

/// A tensor as a shard holds it.
#[derive(Debug)]
pub struct NamedTensor<A> {
    pub name: String,
    pub array: A,
}

pub open spec fn names_of<A>(s: Seq<NamedTensor<A>>) -> Seq<Seq<char>> {
    s.map_values(|t: NamedTensor<A>| t.name@)
}

/// Tensors by name. Of two entries with one name the later one counts.
#[derive(Debug)]
pub struct TensorMap<A> {
    entries: Vec<NamedTensor<A>>,
}

impl<A> View for TensorMap<A> {
    type V = Map<Seq<char>, A>;

    closed spec fn view(&self) -> Map<Seq<char>, A> {
        let names = names_of(self.entries@);
        Map::new(
            |k: Seq<char>| name_place(names, k, names.len()) is Some,
            |k: Seq<char>| self.entries@[name_place(names, k, names.len())->0 as int].array,
        )
    }
}

proof fn lemma_place(names: Seq<Seq<char>>, name: Seq<char>, n: nat)
    requires
        n <= names.len(),
    ensures
        match name_place(names, name, n) {
            Some(p) => p < n && names[p as int] == name,
            None => forall|i: int| 0 <= i < n ==> #[trigger] names[i] != name,
        },
    decreases n,
{
    if n > 0 && names[n - 1] != name {
        lemma_place(names, name, (n - 1) as nat);
    }
}

proof fn lemma_place_front(a: Seq<Seq<char>>, b: Seq<Seq<char>>, name: Seq<char>, n: nat)
    requires
        n <= a.len(),
        n <= b.len(),
        forall|i: int| 0 <= i < n ==> a[i] == b[i],
    ensures
        name_place(a, name, n) == name_place(b, name, n),
    decreases n,
{
    if n > 0 {
        lemma_place_front(a, b, name, (n - 1) as nat);
    }
}

impl<A> TensorMap<A> {
    pub fn new() -> (map: Self)
        ensures
            map@ == Map::<Seq<char>, A>::empty(),
    {
        let map = TensorMap { entries: Vec::new() };
        assert(map@ =~= Map::<Seq<char>, A>::empty());
        map
    }

    fn place_of(&self, name: &str) -> (r: Option<usize>)
        ensures
            match (r, name_place(names_of(self.entries@), name@, self.entries@.len())) {
                (Some(i), Some(p)) => i == p,
                (None, None) => true,
                _ => false,
            },
    {
        let mut k: usize = self.entries.len();
        while k > 0
            invariant
                k <= self.entries@.len(),
                name_place(names_of(self.entries@), name@, self.entries@.len()) == name_place(
                    names_of(self.entries@),
                    name@,
                    k as nat,
                ),
            decreases k,
        {
            assert(names_of(self.entries@)[k - 1] == self.entries@[k - 1].name@);
            if same_text(self.entries[k - 1].name.as_str(), name) {
                return Some(k - 1);
            }
            k = k - 1;
        }
        None
    }

    /// Whether a tensor is there.
    pub fn contains_key(&self, name: &str) -> (r: bool)
        ensures
            r == self@.contains_key(name@),
    {
        self.place_of(name).is_some()
    }

    /// The tensor of a name.
    pub fn tensor_get(&self, name: &str) -> (r: Option<&A>)
        ensures
            match r {
                Some(a) => self@.contains_key(name@) && *a == self@[name@],
                None => !self@.contains_key(name@),
            },
    {
        proof {
            lemma_place(names_of(self.entries@), name@, self.entries@.len());
        }
        match self.place_of(name) {
            Some(i) => Some(&self.entries[i].array),
            None => None,
        }
    }

    /// Adds a tensor. One of the same name is replaced.
    pub fn insert(&mut self, name: String, array: A)
        ensures
            final(self)@ == old(self)@.insert(name@, array),
    {
        let ghost before = *self;
        let ghost text = name@;
        self.entries.push(NamedTensor { name, array });
        proof {
            let was = names_of(before.entries@);
            let now = names_of(self.entries@);
            assert(now =~= was.push(text));
            assert forall|k: Seq<char>| #[trigger]
                self@.contains_key(k) == before@.insert(text, array).contains_key(k) && (
            self@.contains_key(k) ==> self@[k] == before@.insert(text, array)[k]) by {
                lemma_place(was, k, was.len());
                if k != text {
                    lemma_place_front(now, was, k, was.len());
                }
            }
            assert(self@ =~= before@.insert(text, array));
        }
    }
}

/// A checkpoint without weight files.
#[derive(Debug, Clone, Copy, PartialEq, Eq, Structural)]
pub struct NoShards;

/// A map with the first `n` tensors of a shard added in order.
pub open spec fn with_shard<A>(
    map: Map<Seq<char>, A>,
    shard: Seq<NamedTensor<A>>,
    n: nat,
) -> Map<Seq<char>, A>
    decreases n,
{
    if n == 0 {
        map
    } else {
        with_shard(map, shard, (n - 1) as nat).insert(shard[n - 1].name@, shard[n - 1].array)
    }
}

/// The tensors of the first `n` shards: where two have the same name, the
/// later one stays.
pub open spec fn with_shards<A>(shards: Seq<Vec<NamedTensor<A>>>, n: nat) -> Map<Seq<char>, A>
    decreases n,
{
    if n == 0 {
        Map::empty()
    } else {
        with_shard(
            with_shards(shards, (n - 1) as nat),
            shards[n - 1]@,
            shards[n - 1]@.len(),
        )
    }
}

/// Collects the tensors of all shards.
pub fn load_tensor_map<A: Copy>(shards: &Vec<Vec<NamedTensor<A>>>) -> (r: Result<
    TensorMap<A>,
    NoShards,
>)
    ensures
        match r {
            Ok(map) => shards@.len() > 0 && map@ == with_shards(shards@, shards@.len()),
            Err(_) => shards@.len() == 0,
        },
{
    if shards.len() == 0 {
        return Err(NoShards);
    }
    let mut map: TensorMap<A> = TensorMap::new();
    let mut s: usize = 0;
    while s < shards.len()
        invariant
            s <= shards@.len(),
            map@ == with_shards(shards@, s as nat),
        decreases shards@.len() - s,
    {
        let shard: &Vec<NamedTensor<A>> = &shards[s];
        let mut k: usize = 0;
        while k < shard.len()
            invariant
                s < shards@.len(),
                *shard == shards@[s as int],
                k <= shard@.len(),
                map@ == with_shard(with_shards(shards@, s as nat), shard@, k as nat),
            decreases shard@.len() - k,
        {
            map.insert(String::from_str(shard[k].name.as_str()), shard[k].array);
            k = k + 1;
        }
        s = s + 1;
    }
    Ok(map)
}

// ---- which shards ----

/// Names that the index maps weights to, for the first `n` keys.
pub open spec fn mapped_files(
    nodes: Seq<NodeView>,
    at: nat,
    keys: Seq<Seq<char>>,
    n: nat,
) -> Seq<Seq<char>>
    decreases n,
{
    if n == 0 {
        Seq::empty()
    } else {
        let front = mapped_files(nodes, at, keys, (n - 1) as nat);
        match text_at(nodes, field(nodes, Some(at), keys[n - 1])) {
            Some(t) => front.push(t),
            None => front,
        }
    }
}

/// Everything that the index of a checkpoint names as a shard, if it has a
/// weight map.
pub open spec fn index_files(nodes: Seq<NodeView>) -> Option<Seq<Seq<char>>> {
    match object_at(nodes, field(nodes, Some(0), "weight_map"@)) {
        None => None,
        Some(at) => match nodes[at as int] {
            NodeView::Object(keys) => Some(mapped_files(nodes, at, keys, keys.len())),
            _ => None,
        },
    }
}

fn files_of_index(doc: &JsonDoc) -> (r: Option<Vec<String>>)
    ensures
        match (r, index_files(doc@)) {
            (Some(v), Some(s)) => texts(v@) == s,
            (None, None) => true,
            _ => false,
        },
{
    let map: Option<usize> = doc.object(doc.field(doc.root(), "weight_map"));
    match map {
        None => None,
        Some(at) => {
            if at >= doc.nodes.len() {
                return None;
            }
            assert(doc@[at as int] == doc.nodes@[at as int]@);
            match &doc.nodes[at] {
                JsonNode::Object(keys) => {
                    let mut out: Vec<String> = Vec::new();
                    let ghost names = texts(keys@);
                    let mut k: usize = 0;
                    assert(texts(out@) =~= Seq::<Seq<char>>::empty());
                    while k < keys.len()
                        invariant
                            k <= keys@.len(),
                            map == Some(at),
                            names == texts(keys@),
                            texts(out@) == mapped_files(doc@, at as nat, names, k as nat),
                        decreases keys@.len() - k,
                    {
                        assert(names[k as int] == keys@[k as int]@);
                        match doc.as_text(doc.field(map, keys[k].as_str())) {
                            Some(t) => {
                                let ghost before = texts(out@);
                                out.push(String::from_str(t));
                                assert(texts(out@) =~= before.push(t@));
                            },
                            None => {},
                        }
                        k = k + 1;
                    }
                    Some(out)
                },
                _ => None,
            }
        },
    }
}

/// What the index of a checkpoint gives.
#[derive(Debug)]
pub enum ShardIndex {
    /// The index is no JSON.
    Malformed,
    /// No weight map: the directory is listed instead.
    Unmapped,
    /// The shards, in order and without repeats.
    Shards(Vec<String>),
}

/// The shards that the index names, in order, each of them once.
pub fn shards_of_index(text: &str) -> (r: ShardIndex)
    ensures
        match json_nodes(text@) {
            None => r is Malformed,
            Some(nodes) => match index_files(nodes) {
                None => r is Unmapped,
                Some(files) => r matches ShardIndex::Shards(v) && ascending(texts(v@)) && forall|
                    t: Seq<char>,
                | #[trigger] texts(v@).contains(t) <==> files.contains(t),
            },
        },
{
    let doc: JsonDoc = match JsonDoc::parse(text) {
        None => {
            return ShardIndex::Malformed;
        },
        Some(d) => d,
    };
    match files_of_index(&doc) {
        None => ShardIndex::Unmapped,
        Some(files) => {
            let sorted: Vec<String> = sorted_texts(&files);
            let out: Vec<String> = distinct_texts(&sorted);
            proof {
                broadcast use vstd::seq_lib::group_to_multiset_ensures;

                let a = texts(sorted@);
                let b = texts(files@);
                assert forall|t: Seq<char>| #[trigger] texts(out@).contains(t) <==> b.contains(
                    t,
                ) by {
                    assert(a.contains(t) <==> a.to_multiset().count(t) > 0);
                    assert(b.contains(t) <==> b.to_multiset().count(t) > 0);
                }
            }
            ShardIndex::Shards(out)
        },
    }
}

/// Texts in ascending order are fixed by which they are, so an index gives
/// the same shards in whatever order it lists its weights.
pub proof fn ascending_is_unique(a: Seq<Seq<char>>, b: Seq<Seq<char>>)
    requires
        ascending(a),
        ascending(b),
        forall|t: Seq<char>| #[trigger] a.contains(t) <==> b.contains(t),
    ensures
        a == b,
    decreases a.len(),
{
    if a.len() == 0 {
        if b.len() > 0 {
            assert(b.contains(b[0]));
            assert(a.contains(b[0]));
        }
        assert(a =~= b);
    } else {
        let x = a[a.len() - 1];
        assert(a.contains(x));
        assert(b.contains(x));
        let y = b[b.len() - 1];
        assert(b.contains(y));
        assert(a.contains(y));
        let i = choose|i: int| 0 <= i < b.len() && b[i] == x;
        let j = choose|j: int| 0 <= j < a.len() && a[j] == y;
        if x != y {
            assert(crate::text::text_before(b[i], b[b.len() - 1]));
            assert(crate::text::text_before(a[j], a[a.len() - 1]));
            crate::text::text_order_is_total(x, y);
        }
        let p = a.drop_last();
        let q = b.drop_last();
        assert forall|t: Seq<char>| #[trigger] p.contains(t) <==> q.contains(t) by {
            lemma_drop_last_contains(a, t);
            lemma_drop_last_contains(b, t);
            assert(a.contains(t) <==> b.contains(t));
        }
        ascending_is_unique(p, q);
        assert(a =~= p.push(x));
        assert(b =~= q.push(x));
    }
}

proof fn lemma_drop_last_contains(s: Seq<Seq<char>>, t: Seq<char>)
    requires
        ascending(s),
        s.len() > 0,
    ensures
        s.drop_last().contains(t) <==> (s.contains(t) && t != s[s.len() - 1]),
{
    let f = s.drop_last();
    let x = s[s.len() - 1];
    if f.contains(t) {
        let i = choose|i: int| 0 <= i < f.len() && f[i] == t;
        assert(s[i] == t);
        assert(crate::text::text_before(s[i], s[s.len() - 1]));
        crate::text::text_order_is_total(t, x);
    }
    if s.contains(t) && t != x {
        let i = choose|i: int| 0 <= i < s.len() && s[i] == t;
        assert(f[i] == t);
    }
}

/// The shards of a directory without an index, in order: every entry with the
/// weight extension.
pub fn shards_of_listing(names: &Vec<String>) -> (out: Vec<String>)
    ensures
        in_order(texts(out@)),
        texts(out@).to_multiset() == texts(names@).filter(
            |n: Seq<char>| extension_of(n) == Some("safetensors"@),
        ).to_multiset(),
{
    let mut kept: Vec<String> = Vec::new();
    let ghost keep = |n: Seq<char>| extension_of(n) == Some("safetensors"@);
    let mut i: usize = 0;
    proof {
        reveal(Seq::filter);
        assert(texts(names@).take(0) =~= Seq::<Seq<char>>::empty());
        assert(texts(kept@) =~= Seq::<Seq<char>>::empty());
    }
    while i < names.len()
        invariant
            i <= names@.len(),
            keep == (|n: Seq<char>| extension_of(n) == Some("safetensors"@)),
            texts(kept@) == texts(names@).take(i as int).filter(keep),
        decreases names@.len() - i,
    {
        let ghost all = texts(names@);
        let ghost before = texts(kept@);
        proof {
            reveal(Seq::filter);
            assert(all.take(i + 1).drop_last() =~= all.take(i as int));
            assert(all[i as int] == names@[i as int]@);
        }
        let wanted: bool = match extension(names[i].as_str()) {
            Some(e) => same_text(e.as_str(), "safetensors"),
            None => false,
        };
        if wanted {
            kept.push(String::from_str(names[i].as_str()));
            assert(texts(kept@) =~= before.push(all[i as int]));
        }
        i = i + 1;
    }
    assert(texts(names@).take(i as int) =~= texts(names@));
    sorted_texts(&kept)
}

// ---- projections ----

#[derive(Debug, Clone, Copy, PartialEq, Eq, Structural)]
pub enum LoadError {
    MissingWeight,
    MissingQuantizedWeight,
    MissingQuantizedScales,
    MissingQuantizedBiases,
    /// A stack of experts that is not three-dimensional.
    StackRank { rank: usize },
    /// A convolution of an unknown shape.
    ConvShape,
    /// A layer without values that must have its own.
    MissingValueProjection,
    /// A vision tower without the token that stands for images.
    MissingImageToken,
    /// A number of experts that the layer cannot have.
    Experts,
    /// A number that the runtime cannot take.
    TooLarge,
    /// A layer of a kind that the model does not have.
    LayerKind,
    Weight(WeightError),
}

/// How a projection is loaded.
#[derive(Debug, Clone, Copy, PartialEq, Eq, Structural)]
pub enum ProjPlan {
    /// Packed weights with scales.
    Quantized { has_biases: bool, group_size: i32, bits: i32, mode: QuantMode },
    /// The transposed weight.
    Dense,
}

pub open spec fn part(base: Seq<char>, suffix: Seq<char>) -> Seq<char> {
    base + suffix
}

/// The name of a part of a weight.
pub fn part_name(base: &str, suffix: &str) -> (name: String)
    ensures
        name@ == part(base@, suffix@),
{
    let mut name: String = String::from_str(base);
    name.append(suffix);
    name
}

pub open spec fn quantized_plan<A>(t: Map<Seq<char>, A>, base: Seq<char>, q: QuantView) -> Result<
    ProjPlan,
    LoadError,
> {
    let own = quant_for(q, base, q.per_weight.len());
    let has_biases = t.contains_key(part(base, ".biases"@));
    if !has_biases && q.mode == QuantMode::Affine {
        Err(LoadError::MissingQuantizedBiases)
    } else {
        Ok(ProjPlan::Quantized { has_biases, group_size: own.1, bits: own.0, mode: q.mode })
    }
}

fn plan_quantized<A>(tensors: &TensorMap<A>, base: &str, q: &QuantConfig) -> (r: Result<
    ProjPlan,
    LoadError,
>)
    ensures
        r == quantized_plan(tensors@, base@, q@),
{
    let has_biases: bool = tensors.contains_key(part_name(base, ".biases").as_str());
    let affine: bool = match q.mode {
        QuantMode::Affine => true,
        QuantMode::Mxfp4 => false,
    };
    if !has_biases && affine {
        return Err(LoadError::MissingQuantizedBiases);
    }
    let own: (i32, i32) = q.for_base(base);
    Ok(ProjPlan::Quantized { has_biases, group_size: own.1, bits: own.0, mode: q.mode })
}

pub open spec fn quant_view(q: Option<&QuantConfig>) -> Option<QuantView> {
    match q {
        Some(c) => Some(c@),
        None => None,
    }
}

/// A projection is packed where the checkpoint is quantized and has scales
/// for it; affine weights must then have biases. Otherwise it is dense.
pub open spec fn proj_plan<A>(
    t: Map<Seq<char>, A>,
    base: Seq<char>,
    q: Option<QuantView>,
) -> Result<ProjPlan, LoadError> {
    let has_weight = t.contains_key(part(base, ".weight"@));
    if q is Some && t.contains_key(part(base, ".scales"@)) {
        if !has_weight {
            Err(LoadError::MissingQuantizedWeight)
        } else {
            quantized_plan(t, base, q->0)
        }
    } else if !has_weight {
        Err(LoadError::MissingWeight)
    } else {
        Ok(ProjPlan::Dense)
    }
}

/// How to load a projection.
pub fn load_proj_from_tensors<A>(
    tensors: &TensorMap<A>,
    base: &str,
    quantization: Option<&QuantConfig>,
) -> (r: Result<ProjPlan, LoadError>)
    ensures
        r == proj_plan(tensors@, base@, quant_view(quantization)),
{
    let has_weight: bool = tensors.contains_key(part_name(base, ".weight").as_str());
    match quantization {
        Some(q) => {
            if tensors.contains_key(part_name(base, ".scales").as_str()) {
                if !has_weight {
                    return Err(LoadError::MissingQuantizedWeight);
                }
                return plan_quantized(tensors, base, q);
            }
        },
        None => {},
    }
    if has_weight {
        Ok(ProjPlan::Dense)
    } else {
        Err(LoadError::MissingWeight)
    }
}

/// An embedding is a projection whose weight must be there whatever its
/// layout.
pub open spec fn embed_plan<A>(
    t: Map<Seq<char>, A>,
    base: Seq<char>,
    q: Option<QuantView>,
) -> Result<ProjPlan, LoadError> {
    if !t.contains_key(part(base, ".weight"@)) {
        Err(LoadError::MissingWeight)
    } else if q is Some && t.contains_key(part(base, ".scales"@)) {
        quantized_plan(t, base, q->0)
    } else {
        Ok(ProjPlan::Dense)
    }
}

/// How to load an embedding: a packed one is to be dequantized, a dense one
/// taken as it is.
pub fn load_embed_tokens_from_tensors<A>(
    tensors: &TensorMap<A>,
    base: &str,
    quantization: Option<&QuantConfig>,
) -> (r: Result<ProjPlan, LoadError>)
    ensures
        r == embed_plan(tensors@, base@, quant_view(quantization)),
{
    if !tensors.contains_key(part_name(base, ".weight").as_str()) {
        return Err(LoadError::MissingWeight);
    }
    match quantization {
        Some(q) => {
            if tensors.contains_key(part_name(base, ".scales").as_str()) {
                return plan_quantized(tensors, base, q);
            }
        },
        None => {},
    }
    Ok(ProjPlan::Dense)
}

/// The first missing part of a weight with scales and biases.
pub open spec fn triple_fault<A>(t: Map<Seq<char>, A>, base: Seq<char>) -> Option<LoadError> {
    if !t.contains_key(part(base, ".weight"@)) {
        Some(LoadError::MissingQuantizedWeight)
    } else if !t.contains_key(part(base, ".scales"@)) {
        Some(LoadError::MissingQuantizedScales)
    } else if !t.contains_key(part(base, ".biases"@)) {
        Some(LoadError::MissingQuantizedBiases)
    } else {
        None
    }
}

fn check_triple<A>(tensors: &TensorMap<A>, base: &str) -> (r: Option<LoadError>)
    ensures
        r == triple_fault(tensors@, base@),
{
    if !tensors.contains_key(part_name(base, ".weight").as_str()) {
        Some(LoadError::MissingQuantizedWeight)
    } else if !tensors.contains_key(part_name(base, ".scales").as_str()) {
        Some(LoadError::MissingQuantizedScales)
    } else if !tensors.contains_key(part_name(base, ".biases").as_str()) {
        Some(LoadError::MissingQuantizedBiases)
    } else {
        None
    }
}

/// How to load a weight that is packed with a given width.
pub fn load_quantized_with_bits<A>(
    tensors: &TensorMap<A>,
    base: &str,
    group_size: i32,
    bits: i32,
) -> (r: Result<ProjPlan, LoadError>)
    ensures
        r == match triple_fault(tensors@, base@) {
            Some(e) => Err::<ProjPlan, LoadError>(e),
            None => Ok(
                ProjPlan::Quantized { has_biases: true, group_size, bits, mode: QuantMode::Affine },
            ),
        },
{
    match check_triple(tensors, base) {
        Some(e) => Err(e),
        None => Ok(
            ProjPlan::Quantized { has_biases: true, group_size, bits, mode: QuantMode::Affine },
        ),
    }
}

/// Whether a stack of packed experts can be loaded. `rank` is the number of
/// dimensions of its weight.
pub fn load_stacked_quantized<A>(tensors: &TensorMap<A>, base: &str, rank: usize) -> (r: Result<
    (),
    LoadError,
>)
    ensures
        r == match triple_fault(tensors@, base@) {
            Some(e) => Err::<(), LoadError>(e),
            None => if rank == 3 {
                Ok(())
            } else {
                Err(LoadError::StackRank { rank })
            },
        },
{
    match check_triple(tensors, base) {
        Some(e) => Err(e),
        None => if rank == 3 {
            Ok(())
        } else {
            Err(LoadError::StackRank { rank })
        },
    }
}

} // verus!
