//! Assembling a model: the load gate, the routing data that stays on the
//! host, the layer schedule, the arena layout and the scratch sizes.
use vstd::prelude::*;

use crate::bytes::read_le;
#[allow(unused_imports)]
use crate::bytes::le_value;
use crate::hip::config::DeepSeekV4Config;
use crate::hip::forward::{
    lookup_weight, Buf, GlobalWeight, HipDsv4Model, SlotState, WeightEntry, WeightName,
};
#[allow(unused_imports)]
use crate::hip::forward::{find_weight, writes, Launch};
use crate::hip::kv_pool::Dsv4SlotShape;
#[allow(unused_imports)]
use crate::hip::kv_pool::{
    layer_elems, layer_shape_ok, layers_elems, shaped_layers, Dsv4LayerSlotShape,
};
use crate::hip::loader::{
    find_tensor, DeviceTensor, Dsv4TensorKind, GgmlType, PlannedTensor, TensorInfo,
};
#[allow(unused_imports)]
use crate::hip::loader::tensor_named;
use crate::hip::model::{
    layer_schedule, slot_layer_offsets, validate_matmul_residency, AttentionLayerPlan,
    GatedTensor, MatmulGateError,
};
#[allow(unused_imports)]
use crate::hip::model::{gate_error, layer_at, planned_layers};
use crate::math::{div_ceil, max_usize};
#[allow(unused_imports)]
use crate::math::{ceil_div, max_nat};

verus! {

/// Bytes of every scratch buffer.
#[derive(Debug, Clone, Copy, PartialEq, Eq, Structural)]
pub struct ScratchBytes {
    pub token_id: usize,
    pub emb: usize,
    /// Each of the two residual streams.
    pub stream: usize,
    pub normed: usize,
    pub mixes: usize,
    /// Each of the two mixing vectors.
    pub pre_post: usize,
    pub comb: usize,
    pub c_q: usize,
    /// Raw and prepared query, and the attention output.
    pub query: usize,
    /// Raw and prepared key.
    pub key: usize,
    pub latent: usize,
    pub attn_out: usize,
    /// Each of the two compressor inputs.
    pub comp: usize,
    pub idx_q: usize,
    pub idx_w: usize,
    pub selected: usize,
    pub router_logits: usize,
    /// Each of gate, up and activation.
    pub expert: usize,
    /// Each of the expert output and its sum.
    pub expert_out: usize,
    pub x_f32: usize,
    pub y_f32: usize,
    pub q8: usize,
    pub logits_bf16: usize,
}

/// No buffer is smaller than four bytes.
pub open spec fn at_least_4(n: nat) -> nat {
    max_nat(n, 4)
}

impl DeepSeekV4Config {
    /// Width of the residual stream.
    pub open spec fn stream_width(&self) -> nat {
        self.hidden_size as nat * self.hc_mult as nat
    }

    /// Width of all heads.
    pub open spec fn local_width(&self) -> nat {
        self.num_attention_heads as nat * self.head_dim as nat
    }

    /// Rows of a hyper-connection mixer.
    pub open spec fn mix_rows(&self) -> nat {
        (2 + self.hc_mult as nat) * self.hc_mult as nat
    }

    /// Width of the shared expert, which the routed ones share scratch with.
    pub open spec fn expert_width(&self) -> nat {
        self.moe_intermediate_size as nat * max_nat(self.n_shared_experts as nat, 1)
    }

    pub open spec fn index_width(&self) -> nat {
        self.index_n_heads as nat * self.index_head_dim as nat
    }

    /// The longest activation that a product reads.
    pub open spec fn max_k(&self) -> nat {
        max_nat(
            max_nat(max_nat(self.hidden_size as nat, self.expert_width()), self.stream_width()),
            self.q_lora_rank as nat,
        )
    }

    /// The longest row that a product writes.
    pub open spec fn max_n(&self) -> nat {
        max_nat(
            max_nat(
                max_nat(
                    max_nat(self.vocab_size as nat, self.hidden_size as nat),
                    self.expert_width(),
                ),
                self.local_width(),
            ),
            self.mix_rows(),
        )
    }
}

/// Every scratch size fits.
pub open spec fn scratch_fits(c: DeepSeekV4Config, qk: nat, block_bytes: nat) -> bool {
    &&& 4 * c.max_k() <= usize::MAX
    &&& 4 * c.max_n() <= usize::MAX
    &&& 4 * (c.hc_mult as nat * c.hc_mult as nat) <= usize::MAX
    &&& 4 * max_nat(c.head_dim as nat, c.index_head_dim as nat) <= usize::MAX
    &&& 2 * (c.o_groups as nat * c.o_lora_rank as nat) <= usize::MAX
    &&& 2 * c.index_width() <= usize::MAX
    &&& 2 * c.index_n_heads <= usize::MAX
    &&& 4 * c.index_topk <= usize::MAX
    &&& 2 * c.n_routed_experts <= usize::MAX
    &&& ceil_div(c.max_k(), qk) * block_bytes <= usize::MAX
}

fn at_least_four(n: usize) -> (r: usize)
    ensures
        r == at_least_4(n as nat),
{
    max_usize(n, 4)
}

/// The scratch sizes of a model: `qk` values of an activation quantize to a
/// block of `block_bytes`.
pub open spec fn scratch_ok(c: DeepSeekV4Config, qk: nat, block_bytes: nat, r: ScratchBytes) -> bool {
    &&& r.token_id == 4
    &&& r.emb == at_least_4(c.hidden_size as nat * 2)
    &&& r.stream == at_least_4(c.stream_width() * 2)
    &&& r.normed == at_least_4(c.hidden_size as nat * 2)
    &&& r.mixes == at_least_4(c.mix_rows() * 2)
    &&& r.pre_post == at_least_4(c.hc_mult as nat * 4)
    &&& r.comb == at_least_4(c.hc_mult as nat * c.hc_mult as nat * 4)
    &&& r.c_q == at_least_4(c.q_lora_rank as nat * 2)
    &&& r.query == at_least_4(c.local_width() * 2)
    &&& r.key == at_least_4(c.head_dim as nat * 2)
    &&& r.latent == at_least_4(max_nat(c.o_groups as nat * c.o_lora_rank as nat, 1) * 2)
    &&& r.attn_out == at_least_4(c.hidden_size as nat * 2)
    &&& r.comp == at_least_4(2 * max_nat(c.head_dim as nat, c.index_head_dim as nat) * 2)
    &&& r.idx_q == at_least_4(max_nat(c.index_width(), 1) * 2)
    &&& r.idx_w == at_least_4(max_nat(c.index_n_heads as nat, 1) * 2)
    &&& r.selected == at_least_4(max_nat(c.index_topk as nat, 1) * 4)
    &&& r.router_logits == at_least_4(c.n_routed_experts as nat * 2)
    &&& r.expert == at_least_4(c.expert_width() * 2)
    &&& r.expert_out == at_least_4(c.hidden_size as nat * 2)
    &&& r.x_f32 == at_least_4(c.max_k() * 4)
    &&& r.y_f32 == at_least_4(c.max_n() * 4)
    &&& r.q8 == at_least_4(ceil_div(c.max_k(), qk) * block_bytes)
    &&& r.logits_bf16 == at_least_4(c.vocab_size as nat * 2)
}

/// The scratch sizes of a model.
pub fn scratch_bytes(c: &DeepSeekV4Config, qk: usize, block_bytes: usize) -> (r: ScratchBytes)
    requires
        qk > 0,
        scratch_fits(*c, qk as nat, block_bytes as nat),
    ensures
        scratch_ok(*c, qk as nat, block_bytes as nat, r),
{
    let h: usize = c.hidden_size;
    let m: usize = c.hc_mult;
    proof {
        if m > 0 {
            assert(m * m >= m) by (nonlinear_arith)
                requires
                    m >= 1,
            ;
            assert((2 + m) * m >= 2 + m) by (nonlinear_arith)
                requires
                    m >= 1,
            ;
        }
    }
    let stream_dim: usize = h * m;
    let local: usize = c.num_attention_heads * c.head_dim;
    let mix_rows: usize = (2 + m) * m;
    let inter: usize = c.moe_intermediate_size * max_usize(c.n_shared_experts, 1);
    let max_k: usize = max_usize(max_usize(max_usize(h, inter), stream_dim), c.q_lora_rank);
    let max_n: usize = max_usize(
        max_usize(max_usize(max_usize(c.vocab_size, h), inter), local),
        mix_rows,
    );
    let idx_width: usize = c.index_n_heads * c.index_head_dim;
    let latent: usize = max_usize(c.o_groups * c.o_lora_rank, 1);
    let blocks: usize = div_ceil(max_k, qk);
    assert(m * m * 4 == 4 * (m * m)) by (nonlinear_arith);
    ScratchBytes {
        token_id: 4,
        emb: at_least_four(h * 2),
        stream: at_least_four(stream_dim * 2),
        normed: at_least_four(h * 2),
        mixes: at_least_four(mix_rows * 2),
        pre_post: at_least_four(m * 4),
        comb: at_least_four(m * m * 4),
        c_q: at_least_four(c.q_lora_rank * 2),
        query: at_least_four(local * 2),
        key: at_least_four(c.head_dim * 2),
        latent: at_least_four(latent * 2),
        attn_out: at_least_four(h * 2),
        comp: at_least_four(2 * max_usize(c.head_dim, c.index_head_dim) * 2),
        idx_q: at_least_four(max_usize(idx_width, 1) * 2),
        idx_w: at_least_four(max_usize(c.index_n_heads, 1) * 2),
        selected: at_least_four(max_usize(c.index_topk, 1) * 4),
        router_logits: at_least_four(c.n_routed_experts * 2),
        expert: at_least_four(inter * 2),
        expert_out: at_least_four(h * 2),
        x_f32: at_least_four(max_k * 4),
        y_f32: at_least_four(max_n * 4),
        q8: at_least_four(blocks * block_bytes),
        logits_bf16: at_least_four(c.vocab_size * 2),
    }
}

/// Routing data of a layer that the host reads from the model file.
#[derive(Debug, Clone, Copy, PartialEq, Eq, Structural)]
pub struct RoutingSource {
    pub tensor: usize,
    pub layer: usize,
    /// The hash table; otherwise the score bias.
    pub hash_table: bool,
}

/// Why a model cannot be assembled.
#[derive(Debug, Clone, Copy, PartialEq, Eq, Structural)]
pub enum LoadError {
    /// A matmul tensor that no kernel serves.
    Gate(MatmulGateError),
    /// An uploaded tensor, by its place among the uploads, that the model file
    /// does not have.
    NotInFile { upload: usize },
    /// A tensor whose name fits no role.
    Unclassified { tensor: usize },
    /// A hash table that does not hold 64-bit integers.
    HashTableType { tensor: usize, ggml_type: GgmlType },
    /// Not every layer has an attention plan.
    LayerSchedule { have: usize, want: usize },
    /// Neither an output head nor an embedding table was uploaded.
    NoLmHead,
}

/// What a tensor contributes to routing: an error, a source, or nothing.
pub open spec fn routing_of(info: TensorInfo, index: int) -> Result<
    Option<RoutingSource>,
    LoadError,
> {
    match info.role {
        None => Err(LoadError::Unclassified { tensor: index as usize }),
        Some(role) => match role.layer {
            None => Ok(None),
            Some(layer) => match role.kind {
                Dsv4TensorKind::RouterBias => Ok(
                    Some(RoutingSource { tensor: index as usize, layer, hash_table: false }),
                ),
                Dsv4TensorKind::RouterHashTable => if info.ggml_type is I64 {
                    Ok(Some(RoutingSource { tensor: index as usize, layer, hash_table: true }))
                } else {
                    Err(
                        LoadError::HashTableType {
                            tensor: index as usize,
                            ggml_type: info.ggml_type,
                        },
                    )
                },
                _ => Ok(None),
            },
        },
    }
}

/// The routing sources among the first `n` tensors, or the first error.
pub open spec fn routing_upto(tensors: Seq<TensorInfo>, n: nat) -> Result<
    Seq<RoutingSource>,
    LoadError,
>
    decreases n,
{
    if n == 0 {
        Ok(Seq::empty())
    } else {
        match routing_upto(tensors, (n - 1) as nat) {
            Err(e) => Err(e),
            Ok(done) => match routing_of(tensors[n - 1], n - 1) {
                Err(e) => Err(e),
                Ok(None) => Ok(done),
                Ok(Some(source)) => Ok(done.push(source)),
            },
        }
    }
}

proof fn lemma_routing_err(tensors: Seq<TensorInfo>, n: nat, m: nat)
    requires
        n <= m,
        routing_upto(tensors, n) is Err,
    ensures
        routing_upto(tensors, m) == routing_upto(tensors, n),
    decreases m - n,
{
    if n < m {
        lemma_routing_err(tensors, n + 1, m);
    }
}

/// The tensors that the host keeps for routing.
pub fn routing_sources(tensors: &[TensorInfo]) -> (r: Result<Vec<RoutingSource>, LoadError>)
    ensures
        match routing_upto(tensors@, tensors@.len()) {
            Err(e) => r == Err::<Vec<RoutingSource>, LoadError>(e),
            Ok(sources) => r is Ok && r->Ok_0@ == sources,
        },
{
    let mut out: Vec<RoutingSource> = Vec::new();
    let mut i: usize = 0;
    while i < tensors.len()
        invariant
            i <= tensors@.len(),
            routing_upto(tensors@, i as nat) == Ok::<Seq<RoutingSource>, LoadError>(out@),
        decreases tensors@.len() - i,
    {
        let info = &tensors[i];
        proof {
            if routing_of(*info, i as int) is Err {
                lemma_routing_err(tensors@, (i + 1) as nat, tensors@.len());
            }
        }
        match info.role {
            None => {
                return Err(LoadError::Unclassified { tensor: i });
            },
            Some(role) => {
                if let Some(layer) = role.layer {
                    match role.kind {
                        Dsv4TensorKind::RouterBias => {
                            out.push(RoutingSource { tensor: i, layer, hash_table: false });
                        },
                        Dsv4TensorKind::RouterHashTable => {
                            if !matches!(info.ggml_type, GgmlType::I64) {
                                return Err(
                                    LoadError::HashTableType {
                                        tensor: i,
                                        ggml_type: info.ggml_type,
                                    },
                                );
                            }
                            out.push(RoutingSource { tensor: i, layer, hash_table: true });
                        },
                        _ => {},
                    }
                }
            },
        }
        i = i + 1;
    }
    Ok(out)
}

/// A hash table as the model file stores it: 64-bit little-endian integers,
/// a trailing fragment dropped.
pub fn decode_hash_table(data: &[u8]) -> (table: Vec<i64>)
    ensures
        table@.len() == data@.len() / 8,
        forall|i: int|
            0 <= i < table@.len() ==> #[trigger] table@[i] == (le_value(
                data@.subrange(8 * i, 8 * i + 8),
            ) as u64) as i64,
{
    let mut table: Vec<i64> = Vec::new();
    let total: usize = data.len();
    let count: usize = total / 8;
    let mut i: usize = 0;
    while i < count
        invariant
            i <= count,
            count == total / 8,
            total == data@.len(),
            table@.len() == i,
            forall|j: int|
                0 <= j < i ==> #[trigger] table@[j] == (le_value(
                    data@.subrange(8 * j, 8 * j + 8),
                ) as u64) as i64,
        decreases count - i,
    {
        let raw: u64 = read_le(data, 8 * i, 8);
        table.push(raw as i64);
        i = i + 1;
    }
    table
}

/// Elements of the first `n` layers of a slot.
pub open spec fn slot_elems(config: DeepSeekV4Config, max_seq_len: nat, n: nat) -> nat
    decreases n,
{
    if n == 0 {
        0
    } else {
        slot_elems(config, max_seq_len, (n - 1) as nat) + layer_elems(
            config,
            config.compress_ratios@[n - 1] as nat,
            max_seq_len,
        )
    }
}

proof fn lemma_slot_elems(
    config: DeepSeekV4Config,
    max_seq_len: nat,
    layers: Seq<Dsv4LayerSlotShape>,
    n: nat,
)
    requires
        n <= layers.len(),
        forall|i: int|
            0 <= i < layers.len() ==> layer_shape_ok(
                config,
                config.compress_ratios@[i] as nat,
                max_seq_len,
                #[trigger] layers[i],
            ),
    ensures
        layers_elems(layers, n) == slot_elems(config, max_seq_len, n),
    decreases n,
{
    if n > 0 {
        lemma_slot_elems(config, max_seq_len, layers, (n - 1) as nat);
        let layer = layers[n - 1];
        assert(layer_shape_ok(
            config,
            config.compress_ratios@[n - 1] as nat,
            max_seq_len,
            layer,
        ));
    }
}

proof fn lemma_slot_elems_bound(config: DeepSeekV4Config, max_seq_len: nat, n: nat)
    ensures
        forall|i: int|
            0 <= i < n ==> layer_elems(
                config,
                #[trigger] config.compress_ratios@[i] as nat,
                max_seq_len,
            ) <= slot_elems(config, max_seq_len, n),
    decreases n,
{
    if n > 0 {
        lemma_slot_elems_bound(config, max_seq_len, (n - 1) as nat);
    }
}

/// A model ready to run, with the sizes of its scratch, the layout of its
/// slots and the sources of its routing data.
pub struct LoadedModel {
    pub model: HipDsv4Model,
    pub scratch: ScratchBytes,
    pub shape: Dsv4SlotShape,
    pub routing: Vec<RoutingSource>,
}

// ---- joining the uploads with the model file ----

/// The planned tensors as the load gate sees them. A tensor that the model
/// file does not have counts as a matrix.
pub open spec fn gated_of(planned: Seq<PlannedTensor>, tensors: Seq<TensorInfo>) -> Seq<
    GatedTensor,
> {
    Seq::new(
        planned.len(),
        |i: int|
            GatedTensor {
                kind: planned[i].kind,
                residency: planned[i].residency,
                ndims: match tensor_named(tensors, planned[i].name@) {
                    Some(k) => tensors[k as int].dims@.len() as usize,
                    None => 2,
                },
            },
    )
}

/// The planned tensors as the load gate sees them.
pub fn gated_tensors(planned: &[PlannedTensor], tensors: &[TensorInfo]) -> (gated: Vec<GatedTensor>)
    ensures
        gated@ == gated_of(planned@, tensors@),
{
    let mut gated: Vec<GatedTensor> = Vec::new();
    let mut i: usize = 0;
    while i < planned.len()
        invariant
            i <= planned@.len(),
            gated@ == gated_of(planned@, tensors@).take(i as int),
        decreases planned@.len() - i,
    {
        let ndims: usize = match find_tensor(tensors, &planned[i].name) {
            Some(k) => tensors[k].dims.len(),
            None => 2,
        };
        gated.push(
            GatedTensor { kind: planned[i].kind, residency: planned[i].residency, ndims },
        );
        i = i + 1;
        assert(gated@ =~= gated_of(planned@, tensors@).take(i as int));
    }
    assert(gated@ =~= gated_of(planned@, tensors@));
    gated
}

/// The first of the first `n` uploads that the model file does not have.
pub open spec fn missing_upload(
    uploaded: Seq<DeviceTensor>,
    tensors: Seq<TensorInfo>,
    n: nat,
) -> Option<usize>
    decreases n,
{
    if n == 0 {
        None
    } else {
        match missing_upload(uploaded, tensors, (n - 1) as nat) {
            Some(i) => Some(i),
            None => if tensor_named(tensors, uploaded[n - 1].name@) is None {
                Some((n - 1) as usize)
            } else {
                None
            },
        }
    }
}

proof fn lemma_missing_stays(
    uploaded: Seq<DeviceTensor>,
    tensors: Seq<TensorInfo>,
    n: nat,
    m: nat,
)
    requires
        n <= m,
        missing_upload(uploaded, tensors, n) is Some,
    ensures
        missing_upload(uploaded, tensors, m) == missing_upload(uploaded, tensors, n),
    decreases m,
{
    if n < m {
        lemma_missing_stays(uploaded, tensors, n, (m - 1) as nat);
    }
}

/// An upload with the format, row size and dimensions that the model file
/// gives for its name.
pub open spec fn weight_joined(up: DeviceTensor, tensors: Seq<TensorInfo>, w: WeightEntry) -> bool {
    tensor_named(tensors, up.name@) matches Some(k) && {
        let info = tensors[k as int];
        &&& w.name@ == up.name@
        &&& w.residency == up.residency
        &&& w.ggml_type == info.ggml_type
        &&& w.row_bytes == info.row_bytes
        &&& w.dims@ == info.dims@
    }
}

pub open spec fn weights_joined(
    uploaded: Seq<DeviceTensor>,
    tensors: Seq<TensorInfo>,
    weights: Seq<WeightEntry>,
) -> bool {
    &&& weights.len() == uploaded.len()
    &&& forall|i: int|
        0 <= i < weights.len() ==> weight_joined(uploaded[i], tensors, #[trigger] weights[i])
}

fn copy_dims(dims: &Vec<usize>) -> (out: Vec<usize>)
    ensures
        out@ == dims@,
{
    let mut out: Vec<usize> = Vec::new();
    let mut i: usize = 0;
    while i < dims.len()
        invariant
            i <= dims@.len(),
            out@ == dims@.take(i as int),
        decreases dims@.len() - i,
    {
        out.push(dims[i]);
        i = i + 1;
        assert(out@ =~= dims@.take(i as int));
    }
    assert(out@ =~= dims@);
    out
}

/// The table of weights: each upload with what the model file says of its
/// name, or the first upload that the file does not have.
pub fn join_uploads(uploaded: &[DeviceTensor], tensors: &[TensorInfo]) -> (r: Result<
    Vec<WeightEntry>,
    LoadError,
>)
    ensures
        match missing_upload(uploaded@, tensors@, uploaded@.len()) {
            Some(upload) => r == Err::<Vec<WeightEntry>, LoadError>(
                LoadError::NotInFile { upload },
            ),
            None => r is Ok && weights_joined(uploaded@, tensors@, r->Ok_0@),
        },
{
    let mut weights: Vec<WeightEntry> = Vec::new();
    let mut i: usize = 0;
    while i < uploaded.len()
        invariant
            i <= uploaded@.len(),
            missing_upload(uploaded@, tensors@, i as nat) is None,
            weights@.len() == i,
            forall|j: int|
                0 <= j < i ==> weight_joined(uploaded@[j], tensors@, #[trigger] weights@[j]),
        decreases uploaded@.len() - i,
    {
        let up: &DeviceTensor = &uploaded[i];
        match find_tensor(tensors, &up.name) {
            None => {
                proof {
                    lemma_missing_stays(uploaded@, tensors@, (i + 1) as nat, uploaded@.len());
                }
                return Err(LoadError::NotInFile { upload: i });
            },
            Some(k) => {
                weights.push(
                    WeightEntry {
                        name: up.name.clone(),
                        residency: up.residency,
                        ggml_type: tensors[k].ggml_type,
                        row_bytes: tensors[k].row_bytes,
                        dims: copy_dims(&tensors[k].dims),
                    },
                );
            },
        }
        i = i + 1;
    }
    Ok(weights)
}

/// Whether a weight was uploaded.
pub open spec fn is_uploaded(uploaded: Seq<DeviceTensor>, name: WeightName) -> bool {
    exists|i: int| 0 <= i < uploaded.len() && #[trigger] uploaded[i].name@ == name.text()
}

proof fn lemma_found_when_uploaded(
    uploaded: Seq<DeviceTensor>,
    weights: Seq<WeightEntry>,
    name: WeightName,
    n: nat,
)
    requires
        n <= uploaded.len() == weights.len(),
        forall|i: int| 0 <= i < weights.len() ==> #[trigger] weights[i].name@ == uploaded[i].name@,
    ensures
        find_weight(weights, name.text(), n) is Some <==> exists|i: int|
            0 <= i < n && #[trigger] uploaded[i].name@ == name.text(),
    decreases n,
{
    if n > 0 {
        lemma_found_when_uploaded(uploaded, weights, name, (n - 1) as nat);
        assert(weights[n - 1].name@ == uploaded[n - 1].name@);
    }
}

/// The weight that serves as the output head.
pub open spec fn lm_head_of(uploaded: Seq<DeviceTensor>) -> Option<GlobalWeight> {
    if is_uploaded(uploaded, WeightName::Global(GlobalWeight::Output)) {
        Some(GlobalWeight::Output)
    } else if is_uploaded(uploaded, WeightName::Global(GlobalWeight::TokenEmbd)) {
        Some(GlobalWeight::TokenEmbd)
    } else {
        None
    }
}

/// The first tensor without a product that it needs gives this error.
pub open spec fn gate_refuses(tensors: Seq<GatedTensor>, tied: bool, e: MatmulGateError) -> bool {
    exists|i: int|
        0 <= i < tensors.len() && gate_error(#[trigger] tensors[i], i, tied) == Some(e)
            && forall|j: int| 0 <= j < i ==> gate_error(#[trigger] tensors[j], j, tied) is None
}

pub open spec fn gate_passes(tensors: Seq<GatedTensor>, tied: bool) -> bool {
    forall|i: int| 0 <= i < tensors.len() ==> gate_error(#[trigger] tensors[i], i, tied) is None
}

impl HipDsv4Model {
    /// Assembles a model from what was planned and uploaded, or names the
    /// first thing that is missing.
    pub fn new(
        config: DeepSeekV4Config,
        planned: &[PlannedTensor],
        tensors: &[TensorInfo],
        uploaded: &[DeviceTensor],
        plans: &[Option<AttentionLayerPlan>],
        num_slots: usize,
        max_seq_len: usize,
        qk: usize,
        block_bytes: usize,
    ) -> (r: Result<LoadedModel, LoadError>)
        requires
            gate_passes(gated_of(planned@, tensors@), config.tie_word_embeddings)
                && missing_upload(uploaded@, tensors@, uploaded@.len()) is None && routing_upto(
                tensors@,
                tensors@.len(),
            ) is Ok && planned_layers(plans@, plans@.len()).len() == config.num_hidden_layers ==> {
                &&& qk > 0
                &&& scratch_fits(config, qk as nat, block_bytes as nat)
                &&& slot_elems(config, max_seq_len as nat, shaped_layers(config)) <= usize::MAX
            },
        ensures
            ({
                let tied = config.tie_word_embeddings;
                let schedule = planned_layers(plans@, plans@.len());
                let gated = gated_of(planned@, tensors@);
                let missing = missing_upload(uploaded@, tensors@, uploaded@.len());
                match r {
                    Err(LoadError::Gate(e)) => gate_refuses(gated, tied, e),
                    Err(LoadError::NotInFile { upload }) => {
                        &&& gate_passes(gated, tied)
                        &&& missing == Some(upload)
                    },
                    Err(LoadError::LayerSchedule { have, want }) => {
                        &&& gate_passes(gated, tied)
                        &&& missing is None
                        &&& routing_upto(tensors@, tensors@.len()) is Ok
                        &&& have == schedule.len()
                        &&& want == config.num_hidden_layers
                        &&& have != want
                    },
                    Err(LoadError::NoLmHead) => {
                        &&& gate_passes(gated, tied)
                        &&& missing is None
                        &&& routing_upto(tensors@, tensors@.len()) is Ok
                        &&& schedule.len() == config.num_hidden_layers
                        &&& lm_head_of(uploaded@) is None
                    },
                    Err(e) => {
                        &&& gate_passes(gated, tied)
                        &&& missing is None
                        &&& routing_upto(tensors@, tensors@.len()) == Err::<
                            Seq<RoutingSource>,
                            LoadError,
                        >(e)
                    },
                    Ok(loaded) => {
                        &&& gate_passes(gated, tied)
                        &&& missing is None
                        &&& routing_upto(tensors@, tensors@.len()) == Ok::<
                            Seq<RoutingSource>,
                            LoadError,
                        >(loaded.routing@)
                        &&& schedule.len() == config.num_hidden_layers
                        &&& lm_head_of(uploaded@) == Some(loaded.model.lm_head)
                        &&& loaded.model.config == config
                        &&& weights_joined(uploaded@, tensors@, loaded.model.weights@)
                        &&& loaded.model.layer_plans@ == schedule
                        &&& loaded.model.max_seq_len == max_seq_len
                        &&& loaded.model.mixes_bytes == loaded.scratch.mixes
                        &&& scratch_ok(config, qk as nat, block_bytes as nat, loaded.scratch)
                        &&& loaded.model.slots@ == Seq::new(
                            num_slots as nat,
                            |i: int| None::<SlotState>,
                        )
                        &&& loaded.shape.layers@.len() == shaped_layers(config)
                        &&& loaded.shape.max_seq_len == max_seq_len
                        &&& forall|i: int|
                            0 <= i < loaded.shape.layers@.len() ==> layer_shape_ok(
                                config,
                                config.compress_ratios@[i] as nat,
                                max_seq_len as nat,
                                #[trigger] loaded.shape.layers@[i],
                            )
                        &&& loaded.model.offsets@.len() == loaded.shape.layers@.len()
                        &&& forall|i: int|
                            0 <= i < loaded.model.offsets@.len() ==> layer_at(
                                layers_elems(loaded.shape.layers@, i as nat),
                                loaded.shape.layers@[i],
                                config.head_dim as nat,
                                config.index_head_dim as nat,
                                #[trigger] loaded.model.offsets@[i],
                            )
                    },
                }
            }),
    {
        let gated: Vec<GatedTensor> = gated_tensors(planned, tensors);
        if let Err(e) = validate_matmul_residency(gated.as_slice(), config.tie_word_embeddings) {
            return Err(LoadError::Gate(e));
        }
        let weights: Vec<WeightEntry> = match join_uploads(uploaded, tensors) {
            Ok(weights) => weights,
            Err(e) => {
                return Err(e);
            },
        };
        let routing: Vec<RoutingSource> = match routing_sources(tensors) {
            Ok(routing) => routing,
            Err(e) => {
                proof {
                    lemma_routing_errors(tensors@, tensors@.len());
                }
                return Err(e);
            },
        };
        let layer_plans: Vec<AttentionLayerPlan> = layer_schedule(plans);
        if layer_plans.len() != config.num_hidden_layers {
            return Err(
                LoadError::LayerSchedule {
                    have: layer_plans.len(),
                    want: config.num_hidden_layers,
                },
            );
        }
        proof {
            lemma_slot_elems_bound(config, max_seq_len as nat, shaped_layers(config));
        }
        let shape = Dsv4SlotShape::new(&config, max_seq_len);
        proof {
            lemma_slot_elems(config, max_seq_len as nat, shape.layers@, shape.layers@.len());
        }
        let offsets = slot_layer_offsets(&shape, (config.head_dim, config.index_head_dim));
        let scratch = scratch_bytes(&config, qk, block_bytes);
        proof {
            let output = WeightName::Global(GlobalWeight::Output);
            let table = WeightName::Global(GlobalWeight::TokenEmbd);
            assert forall|i: int| 0 <= i < weights@.len() implies #[trigger] weights@[i].name@
                == uploaded@[i].name@ by {
                assert(weight_joined(uploaded@[i], tensors@, weights@[i]));
            }
            lemma_found_when_uploaded(uploaded@, weights@, output, weights@.len());
            lemma_found_when_uploaded(uploaded@, weights@, table, weights@.len());
        }
        let lm_head: GlobalWeight = if lookup_weight(
            &weights,
            WeightName::Global(GlobalWeight::Output),
        ).is_some() {
            GlobalWeight::Output
        } else if lookup_weight(
            &weights,
            WeightName::Global(GlobalWeight::TokenEmbd),
        ).is_some() {
            GlobalWeight::TokenEmbd
        } else {
            return Err(LoadError::NoLmHead);
        };
        let mut slots: Vec<Option<SlotState>> = Vec::new();
        let mut i: usize = 0;
        while i < num_slots
            invariant
                i <= num_slots,
                slots@ == Seq::new(i as nat, |j: int| None::<SlotState>),
            decreases num_slots - i,
        {
            slots.push(None);
            i = i + 1;
            assert(slots@ =~= Seq::new(i as nat, |j: int| None::<SlotState>));
        }
        Ok(
            LoadedModel {
                model: HipDsv4Model {
                    config,
                    weights,
                    layer_plans,
                    offsets,
                    max_seq_len,
                    slots,
                    mixes_bytes: scratch.mixes,
                    lm_head,
                },
                scratch,
                shape,
                routing,
            },
        )
    }
}

proof fn lemma_routing_errors(tensors: Seq<TensorInfo>, n: nat)
    ensures
        routing_upto(tensors, n) matches Err(e) ==> e is Unclassified || e is HashTableType,
    decreases n,
{
    if n > 0 {
        lemma_routing_errors(tensors, (n - 1) as nat);
    }
}

/// What a launcher of the attention path writes.
pub struct LauncherWrites {
    pub launcher: &'static str,
    pub writes: Vec<Buf>,
}

/// The row of the table below that speaks of a launch.
pub open spec fn launcher_row(l: Launch) -> Option<int> {
    match l {
        Launch::PrepareQk { .. } => Some(0),
        Launch::SwaAttention { .. } => Some(1),
        Launch::CompressorUpdate { indexer, .. } => Some(if indexer { 3int } else { 2int }),
        Launch::CsaSelect { .. } => Some(4),
        Launch::HybridAttention { .. } => Some(5),
        _ => None,
    }
}

/// The buffers that each launcher of the attention path writes. Slot buffers
/// persist across steps; scratch is rewritten before every read.
pub fn attention_launcher_writes() -> (table: Vec<LauncherWrites>)
    ensures
        table@.len() == 6,
        forall|l: Launch|
            #![trigger launcher_row(l)]
            launcher_row(l) matches Some(i) ==> table@[i].writes@.to_set() == writes(l),
{
    let table: Vec<LauncherWrites> = vec![
        LauncherWrites {
            launcher: "dsv4_prepare_qk_start_pos_ptr_cuda",
            writes: vec![Buf::QPrepared, Buf::KPrepared],
        },
        LauncherWrites {
            launcher: "dsv4_swa_attention_start_pos_ptr_cuda(write_window_cache=1)",
            writes: vec![Buf::AttnLocal, Buf::SwWindowRing],
        },
        LauncherWrites {
            launcher: "dsv4_compressor_update_start_pos_ptr_cuda(compressor)",
            writes: vec![
                Buf::PendingKv,
                Buf::PendingScore,
                Buf::OverlapKv,
                Buf::OverlapScore,
                Buf::CompressedRows,
            ],
        },
        LauncherWrites {
            launcher: "dsv4_compressor_update_start_pos_ptr_cuda(indexer)",
            writes: vec![
                Buf::IndexerPendingKv,
                Buf::IndexerPendingScore,
                Buf::IndexerOverlapKv,
                Buf::IndexerOverlapScore,
                Buf::IndexerRows,
            ],
        },
        LauncherWrites {
            launcher: "dsv4_csa_select_start_pos_ptr_cuda",
            writes: vec![Buf::Selected],
        },
        LauncherWrites {
            launcher: "dsv4_hybrid_attention_start_pos_ptr_cuda(write_window_cache=1)",
            writes: vec![Buf::AttnLocal, Buf::SwWindowRing],
        },
    ];
    proof {
        let w0 = table@[0].writes@;
        let w1 = table@[1].writes@;
        let w2 = table@[2].writes@;
        let w3 = table@[3].writes@;
        let w4 = table@[4].writes@;
        let w5 = table@[5].writes@;
        assert(w0 =~= seq![Buf::QPrepared, Buf::KPrepared]);
        assert(w1 =~= seq![Buf::AttnLocal, Buf::SwWindowRing]);
        assert(w2 =~= seq![
            Buf::PendingKv,
            Buf::PendingScore,
            Buf::OverlapKv,
            Buf::OverlapScore,
            Buf::CompressedRows,
        ]);
        assert(w3 =~= seq![
            Buf::IndexerPendingKv,
            Buf::IndexerPendingScore,
            Buf::IndexerOverlapKv,
            Buf::IndexerOverlapScore,
            Buf::IndexerRows,
        ]);
        assert(w4 =~= seq![Buf::Selected]);
        assert(w5 =~= seq![Buf::AttnLocal, Buf::SwWindowRing]);
        assert(w0[0] == Buf::QPrepared && w0[1] == Buf::KPrepared);
        assert(w1[0] == Buf::AttnLocal && w1[1] == Buf::SwWindowRing);
        assert(w5[0] == Buf::AttnLocal && w5[1] == Buf::SwWindowRing);
        assert(w0.to_set() =~= set![Buf::QPrepared, Buf::KPrepared]);
        assert(w1.to_set() =~= set![Buf::AttnLocal, Buf::SwWindowRing]);
        assert(w5.to_set() =~= set![Buf::AttnLocal, Buf::SwWindowRing]);
        assert(w4[0] == Buf::Selected);
        assert(w4.to_set() =~= set![Buf::Selected]);
        assert(w2[0] == Buf::PendingKv && w2[1] == Buf::PendingScore && w2[2] == Buf::OverlapKv
            && w2[3] == Buf::OverlapScore && w2[4] == Buf::CompressedRows);
        assert(w2.to_set() =~= set![
            Buf::PendingKv,
            Buf::PendingScore,
            Buf::OverlapKv,
            Buf::OverlapScore,
            Buf::CompressedRows,
        ]);
        assert(w3[0] == Buf::IndexerPendingKv && w3[1] == Buf::IndexerPendingScore && w3[2]
            == Buf::IndexerOverlapKv && w3[3] == Buf::IndexerOverlapScore && w3[4]
            == Buf::IndexerRows);
        assert(w3.to_set() =~= set![
            Buf::IndexerPendingKv,
            Buf::IndexerPendingScore,
            Buf::IndexerOverlapKv,
            Buf::IndexerOverlapScore,
            Buf::IndexerRows,
        ]);
    }
    table
}

} // verus!
