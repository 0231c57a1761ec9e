//! What loading finds in a checkpoint.
use vstd::prelude::*;

#[allow(unused_imports)]
use crate::metal::config::{quant_for, QuantView};
#[allow(unused_imports)]
use crate::metal::loader::{
    embed_plan, part, proj_plan, triple_fault, with_shard, with_shards, LoadError, NamedTensor,
    ProjPlan,
};
#[allow(unused_imports)]
use crate::metal::register::{
    conv_turn, weight_of, ConvTurn, Infos, };
#[allow(unused_imports)]
use crate::metal::weights::{
    joined, shared_layout, RowConcat, WeightError, WeightView,
};

verus! {

// ---- shards ----

/// One of the first `n` tensors of a shard has a name.
pub open spec fn holds<A>(shard: Seq<NamedTensor<A>>, name: Seq<char>, n: nat) -> bool {
    exists|k: int| 0 <= k < n && (#[trigger] shard[k]).name@ == name
}

proof fn lemma_shard<A>(map: Map<Seq<char>, A>, shard: Seq<NamedTensor<A>>, name: Seq<char>, n: nat)
    requires
        n <= shard.len(),
    ensures
        with_shard(map, shard, n).contains_key(name) <==> map.contains_key(name) || holds(
            shard,
            name,
            n,
        ),
        !holds(shard, name, n) && map.contains_key(name) ==> with_shard(map, shard, n)[name]
            == map[name],
        forall|k: int|
            0 <= k < n && (#[trigger] shard[k]).name@ == name && (forall|j: int|
                k < j < n ==> (#[trigger] shard[j]).name@ != name) ==> with_shard(
                map,
                shard,
                n,
            )[name] == shard[k].array,
    decreases n,
{
    if n > 0 {
        lemma_shard(map, shard, name, (n - 1) as nat);
        if shard[n - 1].name@ == name {
            assert(holds(shard, name, n));
        } else {
            assert(holds(shard, name, n) <==> holds(shard, name, (n - 1) as nat));
        }
    }
}

/// A checkpoint has the tensors of all its shards and no others; of several
/// with the same name it has the last one of the last shard that names it.
pub proof fn later_shards_win<A>(shards: Seq<Vec<NamedTensor<A>>>, n: nat, name: Seq<char>)
    requires
        n <= shards.len(),
    ensures
        with_shards(shards, n).contains_key(name) <==> exists|s: int|
            0 <= s < n && holds((#[trigger] shards[s])@, name, shards[s]@.len()),
        forall|s: int, k: int|
            0 <= s < n && 0 <= k < shards[s]@.len() && (#[trigger] shards[s]@[k]).name@ == name && (
            forall|j: int| k < j < shards[s]@.len() ==> (#[trigger] shards[s]@[j]).name@ != name)
                && (forall|r: int|
                s < r < n ==> !holds((#[trigger] shards[r])@, name, shards[r]@.len()))
                ==> with_shards(shards, n)[name] == shards[s]@[k].array,
    decreases n,
{
    if n > 0 {
        let m = (n - 1) as nat;
        let before = with_shards(shards, m);
        let last = shards[n - 1]@;
        later_shards_win(shards, m, name);
        lemma_shard(before, last, name, last.len());
        let now = with_shards(shards, n);
        if now.contains_key(name) {
            if holds(last, name, last.len()) {
                assert(holds(shards[n - 1]@, name, shards[n - 1]@.len()));
            } else {
                let s = choose|s: int|
                    0 <= s < m && holds((#[trigger] shards[s])@, name, shards[s]@.len());
                assert(holds(shards[s]@, name, shards[s]@.len()));
            }
        }
        assert forall|s: int, k: int|
            0 <= s < n && 0 <= k < shards[s]@.len() && (#[trigger] shards[s]@[k]).name@ == name && (
            forall|j: int| k < j < shards[s]@.len() ==> (#[trigger] shards[s]@[j]).name@ != name)
                && (forall|r: int|
                s < r < n ==> !holds(
                    (#[trigger] shards[r])@,
                    name,
                    shards[r]@.len(),
                )) implies now[name] == shards[s]@[k].array by {
            assert(holds(shards[s]@, name, shards[s]@.len()));
            if s < n - 1 {
                assert(!holds(shards[n - 1]@, name, shards[n - 1]@.len()));
                assert(before.contains_key(name));
            }
        }
    }
}

// ---- projections ----

/// A projection loads where its weight is there and, if the checkpoint is
/// packed and has scales for it, so are the biases that its format calls for.
/// It loads packed only with scales, and then at the width that the checkpoint
/// gives it; without a packed checkpoint or without scales it loads dense.
pub proof fn projections_load_as_they_are_stored<A>(
    t: Map<Seq<char>, A>,
    base: Seq<char>,
    q: Option<QuantView>,
)
    ensures
        ({
            let weight = t.contains_key(base + ".weight"@);
            let scales = t.contains_key(base + ".scales"@);
            let biases = t.contains_key(base + ".biases"@);
            let packed = q is Some && scales;
            let needed = q is Some && q->0.mode is Affine;
            let p = proj_plan(t, base, q);
            let e = embed_plan(t, base, q);
            &&& p is Ok <==> weight && (packed && needed ==> biases)
            &&& p matches Ok(plan) ==> e == Ok::<ProjPlan, LoadError>(plan)
            &&& e is Ok ==> p == e
            &&& p matches Ok(ProjPlan::Quantized { has_biases, group_size, bits, mode }) ==> {
                &&& packed
                &&& has_biases == biases
                &&& (bits, group_size) == quant_for(q->0, base, q->0.per_weight.len())
                &&& mode == q->0.mode
            }
            &&& p == Ok::<ProjPlan, LoadError>(ProjPlan::Dense) ==> !packed
            &&& !weight && packed ==> p == Err::<ProjPlan, LoadError>(
                LoadError::MissingQuantizedWeight,
            )
            &&& !weight && !packed ==> p == Err::<ProjPlan, LoadError>(LoadError::MissingWeight)
            &&& !weight ==> e == Err::<ProjPlan, LoadError>(LoadError::MissingWeight)
            &&& weight && p is Err ==> p == Err::<ProjPlan, LoadError>(
                LoadError::MissingQuantizedBiases,
            ) && e == p
        }),
{
}

/// A weight has the width and group size that the checkpoint lists for it, the
/// last where it lists several, and the checkpoint's own where it lists none.
pub proof fn a_weights_own_width_counts(q: QuantView, base: Seq<char>, n: nat)
    requires
        n <= q.per_weight.len(),
    ensures
        forall|k: int|
            0 <= k < n && (#[trigger] q.per_weight[k]).name == base && (forall|j: int|
                k < j < n ==> (#[trigger] q.per_weight[j]).name != base) ==> quant_for(q, base, n)
                == (q.per_weight[k].bits, q.per_weight[k].group_size),
        (forall|k: int| 0 <= k < n ==> (#[trigger] q.per_weight[k]).name != base) ==> quant_for(
            q,
            base,
            n,
        ) == (q.bits, q.group_size),
    decreases n,
{
    if n > 0 {
        a_weights_own_width_counts(q, base, (n - 1) as nat);
    }
}

/// A weight of a given width needs all three of its arrays; the first that is
/// missing is named.
pub proof fn packed_weights_need_three_arrays<A>(t: Map<Seq<char>, A>, base: Seq<char>)
    ensures
        triple_fault(t, base) is None <==> t.contains_key(base + ".weight"@) && t.contains_key(
            base + ".scales"@,
        ) && t.contains_key(base + ".biases"@),
        triple_fault(t, base) == Some(LoadError::MissingQuantizedWeight) <==> !t.contains_key(
            base + ".weight"@,
        ),
        triple_fault(t, base) == Some(LoadError::MissingQuantizedScales) ==> !t.contains_key(
            base + ".scales"@,
        ),
        triple_fault(t, base) == Some(LoadError::MissingQuantizedBiases) ==> !t.contains_key(
            base + ".biases"@,
        ),
{
}

// ---- joining ----

/// Two weights are joined packed exactly where both are packed, with the same
/// width, group size, packed inputs, groups and number formats: then rows of
/// the one can follow rows of the other. Where one of them is dense, or their
/// layouts differ, each is made dense first.
pub proof fn packed_rows_are_alike(lhs: WeightView, rhs: WeightView)
    ensures
        joined(lhs, rhs) matches Ok(RowConcat::Packed(l)) ==> {
            &&& lhs matches WeightView::Quantized { w, scales, biases, group_size, bits } && {
                &&& l.bits == bits && l.group_size == group_size
                &&& l.packed_in == w.shape[1] && l.group_cols == scales.shape[1]
                &&& l.w_dtype == w.dtype && l.scales_dtype == scales.dtype
                &&& l.biases_dtype == biases
            }
            &&& rhs matches WeightView::Quantized { w, scales, biases, group_size, bits } && {
                &&& l.bits == bits && l.group_size == group_size
                &&& l.packed_in == w.shape[1] && l.group_cols == scales.shape[1]
                &&& l.w_dtype == w.dtype && l.scales_dtype == scales.dtype
                &&& l.biases_dtype == biases
            }
        },
        lhs is Dense ==> joined(lhs, rhs) == Ok::<RowConcat, WeightError>(RowConcat::Dense),
        (lhs matches WeightView::Quantized { w, scales, biases, group_size, bits } && (rhs matches
            WeightView::Quantized { w: x, scales: y, biases: b, group_size: g, bits: k } && {
            &&& w.shape.len() >= 2 && x.shape.len() >= 2
            &&& scales.shape.len() >= 2 && y.shape.len() >= 2
            &&& w.shape[1] == x.shape[1] && scales.shape[1] == y.shape[1]
            &&& w.dtype == x.dtype && scales.dtype == y.dtype && biases == b
            &&& group_size == g && bits == k
        })) ==> joined(lhs, rhs) matches Ok(RowConcat::Packed(_)),
{
    reveal_with_fuel(shared_layout, 3);
    assert(seq![lhs, rhs][0] == lhs && seq![lhs, rhs][1] == rhs);
}

// ---- convolutions ----

/// A convolution's shape after it was turned.
pub open spec fn turned(shape: Seq<i32>, turn: ConvTurn) -> Seq<i32> {
    match turn {
        ConvTurn::Keep => shape,
        ConvTurn::Swap => seq![shape[0], shape[2], shape[1]],
        ConvTurn::Widen => shape.push(1),
    }
}

/// Every turn makes a convolution channels by kernel by one, and a shape that
/// some turn could make so is turned.
pub proof fn convolutions_turn_into_shape(shape: Seq<i32>, channels: Option<i32>, kernel: i32)
    ensures
        conv_turn(shape, channels, kernel) matches Some(t) ==> {
            let s = turned(shape, t);
            &&& s.len() == 3
            &&& s[1] == kernel && s[2] == 1
            &&& channels matches Some(c) ==> s[0] == c
        },
        shape.len() == 3 && shape[1] == kernel && shape[2] == 1 && (channels is None || shape[0]
            == channels->0) ==> conv_turn(shape, channels, kernel) == Some(ConvTurn::Keep),
        shape.len() == 3 && shape[2] == kernel && shape[1] == 1 && (channels is None || shape[0]
            == channels->0) ==> conv_turn(shape, channels, kernel) is Some,
        shape.len() == 2 && shape[1] == kernel && (channels is None || shape[0] == channels->0)
            ==> conv_turn(shape, channels, kernel) == Some(ConvTurn::Widen),
{
}

/// A dense weight's outputs are the rows of the stored array, which is turned
/// on loading; a packed one keeps them where they are stored.
pub proof fn outputs_are_the_stored_rows(t: Infos, base: Seq<char>, q: Option<QuantView>)
    requires
        t[part(base, ".weight"@)].shape@.len() == 2,
        proj_plan(t, base, q) is Ok,
    ensures
        weight_of(t, base, q) matches Some(w) && w.rows() == Ok::<i32, WeightError>(
            t[part(base, ".weight"@)].shape@[0],
        ),
{
}

} // verus!
