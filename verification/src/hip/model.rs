//! Host-side pieces of the forward pass: which kernel serves which tensor,
//! where every region lies in a slot's arena, which attention mode every
//! layer runs, and which experts a hash-routed token goes to.
use vstd::prelude::*;

use crate::hip::kv_pool::{Dsv4CompressorShapeElems, Dsv4LayerSlotShape, Dsv4SlotShape};
#[allow(unused_imports)]
use crate::hip::kv_pool::{
    family_ok, layers_elems, lemma_layers_elems_mono, opt_elems,
};
use crate::hip::loader::{Dsv4TensorKind, KQuant, Residency};
#[allow(unused_imports)]
use crate::math::{ceil_div, lemma_ceil_div, max_nat};

verus! {

#[derive(Debug, Clone, Copy, PartialEq, Eq, Structural)]
pub enum GemvKind {
    Q4K,
    Q5K,
    Q6K,
    /// Quantize the activation, then multiply by IQ2_XXS rows.
    MmvqIq2Xxs,
    /// Quantize the activation, then multiply by Q2_K rows.
    MmvqQ2K,
}

pub open spec fn gemv_kind_of(residency: Residency) -> Option<GemvKind> {
    match residency {
        Residency::KeepKQuant(KQuant::Q4K) => Some(GemvKind::Q4K),
        Residency::KeepKQuant(KQuant::Q5K) => Some(GemvKind::Q5K),
        Residency::KeepKQuant(KQuant::Q6K) => Some(GemvKind::Q6K),
        Residency::KeepIq2Xxs => Some(GemvKind::MmvqIq2Xxs),
        Residency::KeepQ2K => Some(GemvKind::MmvqQ2K),
        _ => None,
    }
}

/// Kernel choice for a residency tier; `None` where no matmul kernel exists.
pub fn gemv_kind(residency: Residency) -> (r: Option<GemvKind>)
    ensures
        r == gemv_kind_of(residency),
{
    match residency {
        Residency::KeepKQuant(q) => match q {
            KQuant::Q4K => Some(GemvKind::Q4K),
            KQuant::Q5K => Some(GemvKind::Q5K),
            KQuant::Q6K => Some(GemvKind::Q6K),
        },
        Residency::KeepIq2Xxs => Some(GemvKind::MmvqIq2Xxs),
        Residency::KeepQ2K => Some(GemvKind::MmvqQ2K),
        Residency::DequantBf16 | Residency::DequantF32 | Residency::HostOnly => None,
    }
}

pub open spec fn matmul_bearing(kind: Dsv4TensorKind, ndims: nat, tied: bool) -> bool {
    match kind {
        Dsv4TensorKind::TokenEmbedding => tied,
        Dsv4TensorKind::HyperConnection => ndims >= 2,
        Dsv4TensorKind::HeadHyperConnection => ndims >= 2,
        Dsv4TensorKind::RoutedExpertGateUp => false,
        Dsv4TensorKind::RouterBias => false,
        Dsv4TensorKind::RouterHashTable => false,
        Dsv4TensorKind::Other => false,
        _ => true,
    }
}

/// Whether a tensor takes part in a matmul of the forward pass. Rank tells a
/// hyper-connection's mixer matrix from its vectors; the embedding table
/// multiplies only when it doubles as the tied head.
pub fn is_matmul_bearing(kind: Dsv4TensorKind, ndims: usize, tied: bool) -> (b: bool)
    ensures
        b == matmul_bearing(kind, ndims as nat, tied),
{
    match kind {
        Dsv4TensorKind::TokenEmbedding => tied,
        Dsv4TensorKind::OutputHead | Dsv4TensorKind::AttnQA | Dsv4TensorKind::AttnQB
        | Dsv4TensorKind::AttnKvLatent | Dsv4TensorKind::AttnOutA | Dsv4TensorKind::AttnOutB
        | Dsv4TensorKind::CompressorKv | Dsv4TensorKind::CompressorGate
        | Dsv4TensorKind::IndexerProj | Dsv4TensorKind::IndexerQB
        | Dsv4TensorKind::IndexerCompressKv | Dsv4TensorKind::IndexerCompressGate
        | Dsv4TensorKind::RouterGate | Dsv4TensorKind::RoutedExpertGate
        | Dsv4TensorKind::RoutedExpertUp | Dsv4TensorKind::RoutedExpertDown
        | Dsv4TensorKind::SharedExpertGate | Dsv4TensorKind::SharedExpertUp
        | Dsv4TensorKind::SharedExpertDown => true,
        Dsv4TensorKind::RoutedExpertGateUp => false,
        Dsv4TensorKind::HyperConnection | Dsv4TensorKind::HeadHyperConnection => ndims >= 2,
        Dsv4TensorKind::RouterBias | Dsv4TensorKind::RouterHashTable
        | Dsv4TensorKind::Other => false,
    }
}

/// A tensor as the load gate sees it.
#[derive(Debug, Clone, Copy, PartialEq, Eq, Structural)]
pub struct GatedTensor {
    pub kind: Dsv4TensorKind,
    pub residency: Residency,
    pub ndims: usize,
}

/// Why the load gate refuses a model, with the place of the tensor.
#[derive(Debug, Clone, Copy, PartialEq, Eq, Structural)]
pub enum MatmulGateError {
    /// Fused routed gate/up weights; the forward needs them split.
    FusedGateUp { tensor: usize },
    /// A matmul tensor in a format that no kernel multiplies.
    NoGemv { tensor: usize, kind: Dsv4TensorKind, residency: Residency },
}

pub open spec fn gate_error(t: GatedTensor, index: int, tied: bool) -> Option<MatmulGateError> {
    if t.kind is RoutedExpertGateUp {
        Some(MatmulGateError::FusedGateUp { tensor: index as usize })
    } else if matmul_bearing(t.kind, t.ndims as nat, tied) && gemv_kind_of(t.residency) is None {
        Some(
            MatmulGateError::NoGemv {
                tensor: index as usize,
                kind: t.kind,
                residency: t.residency,
            },
        )
    } else {
        None
    }
}

/// Load gate: every matmul-bearing tensor must be in a format that a kernel
/// multiplies. The first tensor that is not is named.
pub fn validate_matmul_residency(tensors: &[GatedTensor], tied_embeddings: bool) -> (r: Result<
    (),
    MatmulGateError,
>)
    ensures
        match r {
            Ok(_) => forall|i: int|
                0 <= i < tensors@.len() ==> gate_error(
                    #[trigger] tensors@[i],
                    i,
                    tied_embeddings,
                ) is None,
            Err(e) => exists|i: int|
                0 <= i < tensors@.len() && gate_error(
                    #[trigger] tensors@[i],
                    i,
                    tied_embeddings,
                ) == Some(e) && forall|j: int|
                    0 <= j < i ==> gate_error(#[trigger] tensors@[j], j, tied_embeddings) is None,
        },
{
    let mut i: usize = 0;
    while i < tensors.len()
        invariant
            i <= tensors@.len(),
            forall|j: int|
                0 <= j < i ==> gate_error(#[trigger] tensors@[j], j, tied_embeddings) is None,
        decreases tensors@.len() - i,
    {
        let t: GatedTensor = tensors[i];
        if matches!(t.kind, Dsv4TensorKind::RoutedExpertGateUp) {
            let e = MatmulGateError::FusedGateUp { tensor: i };
            assert(gate_error(tensors@[i as int], i as int, tied_embeddings) == Some(e));
            return Err(e);
        }
        if is_matmul_bearing(t.kind, t.ndims, tied_embeddings) && gemv_kind(
            t.residency,
        ).is_none() {
            let e = MatmulGateError::NoGemv { tensor: i, kind: t.kind, residency: t.residency };
            assert(gate_error(tensors@[i as int], i as int, tied_embeddings) == Some(e));
            return Err(e);
        }
        i = i + 1;
    }
    Ok(())
}

#[derive(Debug, Clone, Copy, PartialEq, Eq, Structural)]
pub struct CompressorOffsets {
    pub pending_kv: usize,
    pub pending_score: usize,
    pub prev_overlap_kv: usize,
    pub prev_overlap_score: usize,
    pub compressed: usize,
    /// Capacity of the compressed region in rows of `head_dim` elements.
    pub compressed_rows: usize,
}

#[derive(Debug, Clone, Copy, PartialEq, Eq, Structural)]
pub struct LayerOffsets {
    pub sw_window: usize,
    pub compressor: Option<CompressorOffsets>,
    pub indexer: Option<CompressorOffsets>,
}

/// Where a family's regions lie when the family starts at `base`: one behind
/// the other, in field order.
pub open spec fn family_at(
    base: nat,
    c: Dsv4CompressorShapeElems,
    dim: nat,
    off: CompressorOffsets,
) -> bool {
    &&& off.pending_kv == base
    &&& off.pending_score == off.pending_kv + c.pending_kv
    &&& off.prev_overlap_kv == off.pending_score + c.pending_score
    &&& off.prev_overlap_score == off.prev_overlap_kv + c.prev_overlap_kv
    &&& off.compressed == off.prev_overlap_score + c.prev_overlap_score
    &&& off.compressed_rows == c.compressed as nat / max_nat(dim, 1)
}

/// Where a layer's regions lie when the layer starts at `base`: the window,
/// then the compressor family, then the indexer family.
pub open spec fn layer_at(
    base: nat,
    layer: Dsv4LayerSlotShape,
    head_dim: nat,
    index_head_dim: nat,
    off: LayerOffsets,
) -> bool {
    &&& off.sw_window == base
    &&& off.compressor is Some <==> layer.compressor is Some
    &&& off.indexer is Some <==> layer.indexer is Some
    &&& layer.compressor is Some ==> family_at(
        base + layer.sw_window as nat,
        layer.compressor->0,
        head_dim,
        off.compressor->0,
    )
    &&& layer.indexer is Some ==> family_at(
        base + layer.sw_window as nat + opt_elems(layer.compressor),
        layer.indexer->0,
        index_head_dim,
        off.indexer->0,
    )
}

fn family_offsets(base: usize, elems: &Dsv4CompressorShapeElems, dim: usize) -> (r: (
    CompressorOffsets,
    usize,
))
    requires
        base + elems.elems() <= usize::MAX,
    ensures
        family_at(base as nat, *elems, dim as nat, r.0),
        r.1 == base + elems.elems(),
{
    let pending_score: usize = base + elems.pending_kv;
    let prev_overlap_kv: usize = pending_score + elems.pending_score;
    let prev_overlap_score: usize = prev_overlap_kv + elems.prev_overlap_kv;
    let compressed: usize = prev_overlap_score + elems.prev_overlap_score;
    let rows: usize = elems.compressed / if dim > 0 {
        dim
    } else {
        1
    };
    (
        CompressorOffsets {
            pending_kv: base,
            pending_score,
            prev_overlap_kv,
            prev_overlap_score,
            compressed,
            compressed_rows: rows,
        },
        compressed + elems.compressed,
    )
}

/// Arena layout of a slot: layers in order, additive-exact with the slot's
/// element count.
pub fn slot_layer_offsets(shape: &Dsv4SlotShape, head_dims: (usize, usize)) -> (out: Vec<
    LayerOffsets,
>)
    requires
        shape.elems() <= usize::MAX,
    ensures
        out@.len() == shape.layers@.len(),
        forall|i: int|
            0 <= i < out@.len() ==> layer_at(
                layers_elems(shape.layers@, i as nat),
                shape.layers@[i],
                head_dims.0 as nat,
                head_dims.1 as nat,
                #[trigger] out@[i],
            ),
{
    let (head_dim, index_head_dim) = head_dims;
    let mut cursor: usize = 0;
    let mut out: Vec<LayerOffsets> = Vec::new();
    let mut i: usize = 0;
    while i < shape.layers.len()
        invariant
            i <= shape.layers@.len(),
            head_dims == (head_dim, index_head_dim),
            shape.elems() <= usize::MAX,
            cursor == layers_elems(shape.layers@, i as nat),
            out@.len() == i,
            forall|j: int|
                0 <= j < i ==> layer_at(
                    layers_elems(shape.layers@, j as nat),
                    shape.layers@[j],
                    head_dims.0 as nat,
                    head_dims.1 as nat,
                    #[trigger] out@[j],
                ),
        decreases shape.layers@.len() - i,
    {
        let layer: Dsv4LayerSlotShape = shape.layers[i];
        proof {
            lemma_layers_elems_mono(shape.layers@, (i + 1) as nat, shape.layers@.len());
        }
        let sw_window: usize = cursor;
        cursor = cursor + layer.sw_window;
        let mut compressor: Option<CompressorOffsets> = None;
        if let Some(c) = layer.compressor {
            let (off, next) = family_offsets(cursor, &c, head_dim);
            compressor = Some(off);
            cursor = next;
        }
        let mut indexer: Option<CompressorOffsets> = None;
        if let Some(c) = layer.indexer {
            let (off, next) = family_offsets(cursor, &c, index_head_dim);
            indexer = Some(off);
            cursor = next;
        }
        out.push(LayerOffsets { sw_window, compressor, indexer });
        i = i + 1;
    }
    out
}

/// Where a layer's regions end.
pub open spec fn layer_end(layer: Dsv4LayerSlotShape, off: LayerOffsets) -> nat {
    match (layer.indexer, off.indexer) {
        (Some(c), Some(o)) => (o.compressed + c.compressed) as nat,
        _ => match (layer.compressor, off.compressor) {
            (Some(c), Some(o)) => (o.compressed + c.compressed) as nat,
            _ => (off.sw_window + layer.sw_window) as nat,
        },
    }
}

/// The layout leaves no gap and no overlap: each layer starts where the one
/// before ends, and the last one ends at the slot's element count.
pub proof fn layout_is_additive_exact(
    shape: &Dsv4SlotShape,
    head_dims: (usize, usize),
    out: Seq<LayerOffsets>,
)
    requires
        out.len() == shape.layers@.len(),
        forall|i: int|
            0 <= i < out.len() ==> layer_at(
                layers_elems(shape.layers@, i as nat),
                shape.layers@[i],
                head_dims.0 as nat,
                head_dims.1 as nat,
                #[trigger] out[i],
            ),
    ensures
        out.len() > 0 ==> out[0].sw_window == 0,
        forall|i: int|
            0 <= i < out.len() - 1 ==> layer_end(shape.layers@[i], #[trigger] out[i]) == out[i
                + 1].sw_window,
        out.len() > 0 ==> layer_end(shape.layers@[out.len() - 1], out[out.len() - 1])
            == shape.elems(),
{
    assert forall|i: int| 0 <= i < out.len() implies layer_end(shape.layers@[i], #[trigger] out[i])
        == layers_elems(shape.layers@, (i + 1) as nat) by {}
    if out.len() > 0 {
        assert(layer_at(
            layers_elems(shape.layers@, 0),
            shape.layers@[0],
            head_dims.0 as nat,
            head_dims.1 as nat,
            out[0],
        ));
    }
    assert forall|i: int| 0 <= i < out.len() - 1 implies layer_end(
        shape.layers@[i],
        #[trigger] out[i],
    ) == out[i + 1].sw_window by {
        assert(layer_at(
            layers_elems(shape.layers@, (i + 1) as nat),
            shape.layers@[i + 1],
            head_dims.0 as nat,
            head_dims.1 as nat,
            out[i + 1],
        ));
    }
}

/// The compressed region holds a row for every `ratio` tokens up to the
/// longest sequence: no position that fits the slot runs past it.
pub proof fn compressed_rows_suffice(
    c: Dsv4CompressorShapeElems,
    off: CompressorOffsets,
    base: nat,
    head_dim: nat,
    ratio: nat,
    overlap: bool,
    max_seq_len: nat,
    start_pos: nat,
)
    requires
        family_ok(c, head_dim, ratio, overlap, max_seq_len),
        family_at(base, c, head_dim, off),
        head_dim > 0,
        ratio > 0,
        start_pos < max_seq_len,
    ensures
        (start_pos + 1) / ratio <= off.compressed_rows,
        off.compressed_rows * head_dim == c.compressed,
{
    let rows = max_nat(ceil_div(max_seq_len, ratio), 1);
    assert(head_dim * rows == rows * head_dim) by (nonlinear_arith);
    vstd::arithmetic::div_mod::lemma_div_multiples_vanish(rows as int, head_dim as int);
    lemma_ceil_div(max_seq_len, ratio);
    vstd::arithmetic::div_mod::lemma_div_is_ordered(
        (start_pos + 1) as int,
        max_seq_len as int,
        ratio as int,
    );
}

/// How a layer attends.
#[derive(Debug, Clone, Copy, PartialEq, Eq, Structural)]
pub enum AttentionMode {
    SlidingWindow,
    CompressedSparse,
    HeavilyCompressed,
}

/// A layer's attention mode and compression ratio.
#[derive(Debug, Clone, Copy, PartialEq, Eq, Structural)]
pub struct AttentionLayerPlan {
    pub mode: AttentionMode,
    pub compress_ratio: usize,
}

/// The plans there are among the first `n`.
pub open spec fn planned_layers(
    plans: Seq<Option<AttentionLayerPlan>>,
    n: nat,
) -> Seq<AttentionLayerPlan>
    decreases n,
{
    if n == 0 {
        Seq::empty()
    } else {
        let done = planned_layers(plans, (n - 1) as nat);
        match plans[n - 1] {
            Some(plan) => done.push(plan),
            None => done,
        }
    }
}

/// The attention plans of the layers that have one, in layer order.
pub fn layer_schedule(plans: &[Option<AttentionLayerPlan>]) -> (out: Vec<AttentionLayerPlan>)
    ensures
        out@ == planned_layers(plans@, plans@.len()),
{
    let mut out: Vec<AttentionLayerPlan> = Vec::new();
    let mut i: usize = 0;
    while i < plans.len()
        invariant
            i <= plans@.len(),
            out@ == planned_layers(plans@, i as nat),
        decreases plans@.len() - i,
    {
        if let Some(plan) = plans[i] {
            out.push(plan);
        }
        i = i + 1;
    }
    out
}

/// Why a token cannot be routed.
#[derive(Debug, Clone, Copy, PartialEq, Eq, Structural)]
pub enum RouteError {
    /// A hash-routed layer without its table.
    MissingTable { layer: usize },
    /// The table ends before the token's row.
    TableTooShort { token: u32, table_len: usize },
    /// The table names an expert that is no index.
    InvalidExpert { id: i64 },
}

pub open spec fn is_index(id: i64) -> bool {
    0 <= id <= usize::MAX
}

/// The row of the hash table that belongs to a token.
pub open spec fn hash_row(table: Seq<i64>, token: nat, topk: nat) -> Seq<i64> {
    table.subrange((token * topk) as int, (token * topk + topk) as int)
}

/// Which experts a hash-routed layer takes for a token, from the token's row
/// of the table; `None` for a layer that routes by score.
pub fn route_layer_token(
    layer_idx: usize,
    num_hash_layers: usize,
    topk: usize,
    token: u32,
    tid2eid: Option<&[i64]>,
) -> (r: Result<Option<Vec<usize>>, RouteError>)
    requires
        layer_idx < num_hash_layers && tid2eid is Some ==> token * topk + topk <= usize::MAX,
    ensures
        layer_idx >= num_hash_layers ==> r is Ok && r->Ok_0 is None,
        layer_idx < num_hash_layers ==> match tid2eid {
            None => r == Err::<Option<Vec<usize>>, RouteError>(
                RouteError::MissingTable { layer: layer_idx },
            ),
            Some(table) => if token * topk + topk > table@.len() {
                r == Err::<Option<Vec<usize>>, RouteError>(
                    RouteError::TableTooShort { token, table_len: table@.len() as usize },
                )
            } else {
                let row = hash_row(table@, token as nat, topk as nat);
                match r {
                    Ok(experts) => experts is Some && experts->0@.len() == topk && forall|i: int|
                        0 <= i < topk ==> is_index(row[i]) && #[trigger] experts->0@[i]
                            == row[i],
                    Err(e) => exists|i: int|
                        0 <= i < topk && !is_index(#[trigger] row[i]) && e
                            == (RouteError::InvalidExpert { id: row[i] }) && forall|j: int|
                            0 <= j < i ==> is_index(#[trigger] row[j]),
                }
            },
        },
{
    if layer_idx >= num_hash_layers {
        return Ok(None);
    }
    let table: &[i64] = match tid2eid {
        Some(table) => table,
        None => {
            return Err(RouteError::MissingTable { layer: layer_idx });
        },
    };
    proof {
        assert(token * topk >= 0) by (nonlinear_arith);
    }
    let start: usize = token as usize * topk;
    if start + topk > table.len() {
        return Err(RouteError::TableTooShort { token, table_len: table.len() });
    }
    let ghost row = hash_row(table@, token as nat, topk as nat);
    let mut experts: Vec<usize> = Vec::new();
    let mut i: usize = 0;
    while i < topk
        invariant
            i <= topk,
            start == token * topk,
            start + topk <= table@.len(),
            start + topk <= usize::MAX,
            row == hash_row(table@, token as nat, topk as nat),
            layer_idx < num_hash_layers,
            tid2eid == Some(table),
            experts@.len() == i,
            forall|j: int|
                0 <= j < i ==> is_index(#[trigger] row[j]) && experts@[j] == row[j],
        decreases topk - i,
    {
        let id: i64 = table[start + i];
        assert(row[i as int] == id);
        if id < 0 || id as u64 > usize::MAX as u64 {
            return Err(RouteError::InvalidExpert { id });
        }
        experts.push(id as usize);
        i = i + 1;
    }
    Ok(Some(experts))
}

} // verus!
