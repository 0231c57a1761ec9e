//! What is read out of a slot's cache.
use vstd::prelude::*;

#[allow(unused_imports)]
use crate::metal::slot::{
    axes_fault, dtype_fault, expected_dtype, gather_fault, group_of, layers_fault, picks,
    range_tokens, read_fault, slice_fault, MetalKvCacheDtype, SlotError, SpecView,
};
#[allow(unused_imports)]
use crate::metal::mlx::Dtype;

verus! {

/// A token range can be taken out of an array exactly where the array has four
/// axes and the range is in order and ends within its tokens.
pub proof fn ranges_lie_within_the_tokens(shape: Seq<i32>, start: usize, end: usize)
    ensures
        slice_fault(shape, start, end) is None <==> shape.len() == 4 && start <= end <= shape[2],
{
}

/// Ranges can be gathered exactly where each can be taken, and then the tokens
/// that are gathered are as many as all ranges hold together.
pub proof fn gathered_ranges_all_fit(shape: Seq<i32>, ranges: Seq<(usize, usize)>)
    ensures
        gather_fault(shape, ranges) is None <==> forall|i: int|
            0 <= i < ranges.len() ==> slice_fault(
                shape,
                (#[trigger] ranges[i]).0,
                ranges[i].1,
            ) is None,
        gather_fault(shape, ranges) is None ==> range_tokens(ranges) >= 0,
    decreases ranges.len(),
{
    if ranges.len() > 0 {
        let front = ranges.drop_last();
        gathered_ranges_all_fit(shape, front);
        if gather_fault(shape, ranges) is None {
            assert forall|i: int| 0 <= i < ranges.len() implies slice_fault(
                shape,
                (#[trigger] ranges[i]).0,
                ranges[i].1,
            ) is None by {
                if i < front.len() {
                    assert(front[i] == ranges[i]);
                }
            }
        }
        if forall|i: int|
            0 <= i < ranges.len() ==> slice_fault(
                shape,
                (#[trigger] ranges[i]).0,
                ranges[i].1,
            ) is None {
            assert forall|i: int| 0 <= i < front.len() implies slice_fault(
                shape,
                (#[trigger] front[i]).0,
                front[i].1,
            ) is None by {
                assert(front[i] == ranges[i]);
            }
            assert(ranges[ranges.len() - 1] == ranges.last());
        }
    }
}

/// Tokens that are gathered add up over the ranges, whatever ranges come after.
pub proof fn gathered_tokens_add_up(a: Seq<(usize, usize)>, b: Seq<(usize, usize)>)
    ensures
        range_tokens(a + b) == range_tokens(a) + range_tokens(b),
        forall|s: usize, e: usize| range_tokens(#[trigger] seq![(s, e)]) == e - s,
    decreases b.len(),
{
    if b.len() == 0 {
        assert(a + b =~= a);
    } else {
        gathered_tokens_add_up(a, b.drop_last());
        assert((a + b).drop_last() =~= a + b.drop_last());
        assert((a + b).last() == b.last());
    }
    assert forall|s: usize, e: usize| range_tokens(#[trigger] seq![(s, e)]) == e - s by {
        reveal_with_fuel(range_tokens, 2);
        let one = seq![(s, e)];
        assert(one.last() == (s, e));
        assert(one.drop_last().len() == 0);
    }
}

proof fn lemma_picks(kind: MetalKvCacheDtype, layers: nat, half: int)
    requires
        0 <= half <= 1,
        layers * group_of(kind) <= usize::MAX,
    ensures
        ({
            let n = group_of(kind) / 2;
            let p = picks(kind, layers, half);
            &&& p.len() == layers * n
            &&& forall|l: int, a: int|
                0 <= l < layers && 0 <= a < n ==> #[trigger] at(p, l * n + a) == l * group_of(kind)
                    + half * n + a
        }),
    decreases layers,
{
    let n = group_of(kind) / 2;
    assert(n == 1 || n == 3);
    if layers > 0 {
        let m = (layers - 1) as nat;
        assert(m * group_of(kind) <= layers * group_of(kind)) by (nonlinear_arith)
            requires
                m <= layers,
                group_of(kind) >= 0,
        ;
        lemma_picks(kind, m, half);
        let before = picks(kind, m, half);
        let p = picks(kind, layers, half);
        assert(layers * n == m * n + n) by (nonlinear_arith)
            requires
                layers == m + 1,
        ;
        assert(layers * group_of(kind) == m * group_of(kind) + group_of(kind)) by (nonlinear_arith)
            requires
                layers == m + 1,
        ;
        assert forall|l: int, a: int| 0 <= l < layers && 0 <= a < n implies #[trigger] at(
            p,
            l * n + a,
        ) == l * group_of(kind) + half * n + a by {
            if l < m {
                assert(l * n + a < m * n && l * n + a >= 0) by (nonlinear_arith)
                    requires
                        0 <= l < m,
                        0 <= a < n,
                ;
                assert(at(before, l * n + a) == l * group_of(kind) + half * n + a);
                assert(p[l * n + a] == before[l * n + a]);
            } else {
                assert(l == m);
                assert(p[m * n + a] == (m * group_of(kind) + half * n + a) as usize);
                assert(0 <= half * n <= n) by (nonlinear_arith)
                    requires
                        0 <= half <= 1,
                        n >= 0,
                ;
                assert(m * group_of(kind) >= 0) by (nonlinear_arith)
                    requires
                        group_of(kind) >= 0,
                ;
            }
        }
    }
}

/// An element, so that an index with a product in it can be looked for.
pub open spec fn at(p: Seq<usize>, i: int) -> usize {
    p[i]
}

/// A prefix read takes every array once, layer by layer: of two per layer the
/// first as keys and the second as values, of six the first three and the last
/// three.
pub proof fn reads_split_keys_and_values(layers: nat)
    requires
        6 * layers <= usize::MAX,
    ensures
        ({
            let k = picks(MetalKvCacheDtype::Bf16, layers, 0);
            let v = picks(MetalKvCacheDtype::Bf16, layers, 1);
            &&& k.len() == layers && v.len() == layers
            &&& forall|l: int|
                0 <= l < layers ==> #[trigger] at(k, l) == 2 * l && at(v, l) == 2 * l + 1
        }),
        ({
            let k = picks(MetalKvCacheDtype::Int8, layers, 0);
            let v = picks(MetalKvCacheDtype::Int8, layers, 1);
            &&& k.len() == 3 * layers && v.len() == 3 * layers
            &&& forall|l: int, a: int|
                0 <= l < layers && 0 <= a < 3 ==> #[trigger] at(k, l * 3 + a) == 6 * l + a && at(
                    v,
                    l * 3 + a,
                ) == 6 * l + 3 + a
        }),
{
    lemma_picks(MetalKvCacheDtype::Bf16, layers, 0);
    lemma_picks(MetalKvCacheDtype::Bf16, layers, 1);
    lemma_picks(MetalKvCacheDtype::Int8, layers, 0);
    lemma_picks(MetalKvCacheDtype::Int8, layers, 1);
    assert(group_of(MetalKvCacheDtype::Bf16) / 2 == 1 && group_of(MetalKvCacheDtype::Int8) / 2
        == 3);
    assert(layers * (group_of(MetalKvCacheDtype::Bf16) / 2) == layers);
    let k = picks(MetalKvCacheDtype::Bf16, layers, 0);
    let v = picks(MetalKvCacheDtype::Bf16, layers, 1);
    assert forall|l: int| 0 <= l < layers implies #[trigger] at(k, l) == 2 * l && at(v, l) == 2 * l
        + 1 by {
        assert(at(k, l * 1 + 0) == 2 * l);
        assert(at(v, l * 1 + 0) == 2 * l + 1);
    }
    let k = picks(MetalKvCacheDtype::Int8, layers, 0);
    let v = picks(MetalKvCacheDtype::Int8, layers, 1);
    assert forall|l: int, a: int| 0 <= l < layers && 0 <= a < 3 implies #[trigger] at(k, l * 3 + a)
        == 6 * l + a && at(v, l * 3 + a) == 6 * l + 3 + a by {
        assert(at(v, l * 3 + a) == 6 * l + 3 + a);
    }
}

/// An array of a layer has its element type, and the tokens of a prefix.
pub open spec fn readable(s: SpecView, dtype: Dtype, cache_len: usize) -> bool {
    s.dtype == dtype && s.shape.len() == 4 && cache_len <= s.shape[2]
}

proof fn lemma_layer_reads(
    arrays: Seq<SpecView>,
    kind: MetalKvCacheDtype,
    layer: int,
    axes: nat,
    cache_len: usize,
)
    requires
        0 <= layer,
    ensures
        dtype_fault(arrays, kind, layer, axes) is None <==> forall|a: int|
            0 <= a < axes ==> (#[trigger] of_layer(arrays, kind, layer, a)).dtype == expected_dtype(
                kind,
                a,
            ),
        axes_fault(arrays, kind, layer, axes, cache_len) is None <==> forall|a: int|
            0 <= a < axes ==> (#[trigger] of_layer(arrays, kind, layer, a)).shape.len() == 4
                && cache_len <= of_layer(arrays, kind, layer, a).shape[2],
    decreases axes,
{
    if axes > 0 {
        lemma_layer_reads(arrays, kind, layer, (axes - 1) as nat, cache_len);
        let last = of_layer(arrays, kind, layer, axes - 1);
        assert(last == arrays[layer * group_of(kind) + axes - 1]);
    }
}

/// One of a layer's arrays.
pub open spec fn of_layer(
    arrays: Seq<SpecView>,
    kind: MetalKvCacheDtype,
    layer: int,
    axis: int,
) -> SpecView {
    arrays[layer * group_of(kind) + axis]
}

/// Layers can be read exactly where each of their arrays has its element type
/// and the tokens of the prefix.
pub proof fn layers_read_where_every_array_does(
    arrays: Seq<SpecView>,
    kind: MetalKvCacheDtype,
    layers: nat,
    cache_len: usize,
)
    ensures
        layers_fault(arrays, kind, layers, cache_len) is None <==> forall|l: int, a: int|
            0 <= l < layers && 0 <= a < group_of(kind) ==> readable(
                #[trigger] of_layer(arrays, kind, l, a),
                expected_dtype(kind, a),
                cache_len,
            ),
    decreases layers,
{
    if layers > 0 {
        let m = (layers - 1) as nat;
        layers_read_where_every_array_does(arrays, kind, m, cache_len);
        lemma_layer_reads(arrays, kind, layers - 1, group_of(kind) as nat, cache_len);
    }
}

/// No more is read than a slot holds, and only from whole layers.
pub proof fn reads_stay_within_the_cache(
    arrays: Seq<SpecView>,
    kind: MetalKvCacheDtype,
    slot_len: usize,
    cache_len: usize,
)
    ensures
        read_fault(arrays, kind, slot_len, cache_len) is None ==> {
            &&& cache_len <= slot_len
            &&& arrays.len() as int % (if kind is Bf16 {
                2int
            } else {
                6
            }) == 0
        },
        cache_len > slot_len ==> read_fault(arrays, kind, slot_len, cache_len) == Some(
            SlotError::BeyondCache { asked: cache_len, cache_len: slot_len },
        ),
{
}

} // verus!
