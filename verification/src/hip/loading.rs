//! What planning and uploading a model keep.
use vstd::prelude::*;

#[allow(unused_imports)]
use crate::bytes::le;
#[allow(unused_imports)]
use crate::hip::config::DeepSeekV4Config;
#[allow(unused_imports)]
use crate::hip::forward::GlobalWeight;
#[allow(unused_imports)]
use crate::hip::kv_pool::Dsv4CompressorShapeElems;
#[allow(unused_imports)]
use crate::hip::load::{
    lm_head_of, routing_upto, scratch_ok, RoutingSource, ScratchBytes,
};
#[allow(unused_imports)]
use crate::hip::loader::{
    bf16_rne, bf16_row, device_bytes_of, f32_is_nan, residency_of, tensor_upto, upload_mode,
    upload_steps, DeviceTensor, Dsv4TensorKind, PlannedTensor, TensorInfo,
    UploadMode, UploadStep,
};
#[allow(unused_imports)]
use crate::hip::model::{
    family_at, gemv_kind_of, hash_row, planned_layers, AttentionLayerPlan, CompressorOffsets,
    GemvKind,
};

verus! {

// ---- scratch ----

/// Every scratch buffer holds what the schedule puts there: sixteen-bit
/// vectors two bytes an element, single-precision ones four, and the product
/// scratch the longest activation and the longest output of any product.
pub proof fn scratch_holds_the_schedule(
    c: DeepSeekV4Config,
    qk: nat,
    block_bytes: nat,
    r: ScratchBytes,
)
    requires
        scratch_ok(c, qk, block_bytes, r),
    ensures
        r.token_id >= 4,
        r.emb >= 2 * c.hidden_size,
        r.stream >= 2 * (c.hidden_size * c.hc_mult),
        r.normed >= 2 * c.hidden_size,
        r.mixes >= 2 * ((2 + c.hc_mult) * c.hc_mult),
        r.pre_post >= 4 * c.hc_mult,
        r.comb >= 4 * (c.hc_mult * c.hc_mult),
        r.c_q >= 2 * c.q_lora_rank,
        r.query >= 2 * (c.num_attention_heads * c.head_dim),
        r.key >= 2 * c.head_dim,
        r.latent >= 2 * (c.o_groups * c.o_lora_rank),
        r.attn_out >= 2 * c.hidden_size,
        r.comp >= 4 * c.head_dim,
        r.comp >= 4 * c.index_head_dim,
        r.idx_q >= 2 * (c.index_n_heads * c.index_head_dim),
        r.idx_w >= 2 * c.index_n_heads,
        r.selected >= 4 * c.index_topk,
        r.router_logits >= 2 * c.n_routed_experts,
        r.expert >= 2 * c.moe_intermediate_size,
        r.expert_out >= 2 * c.hidden_size,
        r.x_f32 >= 4 * c.hidden_size,
        r.x_f32 >= 4 * c.moe_intermediate_size,
        r.x_f32 >= 4 * (c.hidden_size * c.hc_mult),
        r.x_f32 >= 4 * c.q_lora_rank,
        r.y_f32 >= 4 * c.vocab_size,
        r.y_f32 >= 4 * c.hidden_size,
        r.y_f32 >= 4 * c.moe_intermediate_size,
        r.y_f32 >= 4 * (c.num_attention_heads * c.head_dim),
        r.y_f32 >= 4 * ((2 + c.hc_mult) * c.hc_mult),
        r.logits_bf16 >= 2 * c.vocab_size,
{
    let shared = if c.n_shared_experts >= 1 {
        c.n_shared_experts as nat
    } else {
        1
    };
    assert(c.moe_intermediate_size * shared >= c.moe_intermediate_size) by (nonlinear_arith)
        requires
            shared >= 1,
    ;
}

// ---- rounding ----

/// A number is rounded to the nearest sixteen-bit one, and between two equally
/// near to the one with an even mantissa; a number that needs no rounding stays
/// as it is, and signs and order are kept.
pub proof fn rounding_is_to_the_nearest_even(bits: u32, other: u32)
    requires
        !f32_is_nan(bits),
    ensures
        -0x8000 <= bf16_rne(bits) * 0x1_0000 - bits <= 0x8000,
        bf16_rne(bits) * 0x1_0000 - bits == 0x8000 || bits - bf16_rne(bits) * 0x1_0000 == 0x8000
            ==> bf16_rne(bits) % 2 == 0,
        bits as nat % 0x1_0000 == 0 ==> bf16_rne(bits) * 0x1_0000 == bits,
        bf16_rne(bits) as nat / 0x8000 == bits as nat / 0x8000_0000,
        !f32_is_nan(other) && bits <= other ==> bf16_rne(bits) <= bf16_rne(other),
{
}

/// A row of numbers becomes two bytes a number, in order.
pub proof fn rows_are_rounded_in_place(row: Seq<u32>, n: nat)
    requires
        n <= row.len(),
    ensures
        bf16_row(row, n).len() == 2 * n,
        forall|i: int|
            0 <= i < n ==> bf16_row(row, n).subrange(2 * i, 2 * i + 2) == le(
                bf16_rne(#[trigger] row[i]) as nat,
                2,
            ),
    decreases n,
{
    if n > 0 {
        let m = (n - 1) as nat;
        rows_are_rounded_in_place(row, m);
        let front = bf16_row(row, m);
        let last = le(bf16_rne(row[n - 1]) as nat, 2);
        crate::bytes::lemma_le_len(bf16_rne(row[n - 1]) as nat, 2);
        let all = bf16_row(row, n);
        assert forall|i: int| 0 <= i < n implies all.subrange(2 * i, 2 * i + 2) == le(
            bf16_rne(#[trigger] row[i]) as nat,
            2,
        ) by {
            if i < m {
                assert(all.subrange(2 * i, 2 * i + 2) =~= front.subrange(2 * i, 2 * i + 2));
            } else {
                assert(all.subrange(2 * i, 2 * i + 2) =~= last);
            }
        }
    }
}

// ---- formats ----

/// A tensor is found where the model file has its name first.
pub proof fn tensors_are_found_by_name(tensors: Seq<TensorInfo>, name: Seq<char>, n: nat)
    requires
        n <= tensors.len(),
    ensures
        match tensor_upto(tensors, name, n) {
            Some(i) => i < n && tensors[i as int].name@ == name && forall|j: int|
                0 <= j < i ==> (#[trigger] tensors[j]).name@ != name,
            None => forall|j: int| 0 <= j < n ==> (#[trigger] tensors[j]).name@ != name,
        },
    decreases n,
{
    if n > 0 {
        tensors_are_found_by_name(tensors, name, (n - 1) as nat);
    }
}

/// A tensor that a product can take as it is stored is kept so, byte for byte,
/// and multiplied by the kernel of its format; the router's tensors stay on the
/// host; everything else becomes sixteen-bit, two bytes an element, and so does
/// an embedding table in a format that no lookup reads.
pub proof fn formats_are_kept_or_widened(kind: Dsv4TensorKind, info: TensorInfo)
    ensures
        ({
            let ty = info.ggml_type;
            let r = residency_of(kind, ty);
            let host = kind is RouterHashTable || kind is RouterBias;
            let blind = kind is TokenEmbedding && (ty is Iq2Xxs || ty is Q2K);
            &&& r is HostOnly <==> host
            &&& gemv_kind_of(r) is Some <==> !host && !blind && (ty is Q4K || ty is Q5K || ty is Q6K
                || ty is Iq2Xxs || ty is Q2K)
            &&& gemv_kind_of(r) == Some(GemvKind::Q4K) ==> ty is Q4K
            &&& gemv_kind_of(r) == Some(GemvKind::Q5K) ==> ty is Q5K
            &&& gemv_kind_of(r) == Some(GemvKind::Q6K) ==> ty is Q6K
            &&& gemv_kind_of(r) == Some(GemvKind::MmvqIq2Xxs) ==> ty is Iq2Xxs
            &&& gemv_kind_of(r) == Some(GemvKind::MmvqQ2K) ==> ty is Q2K
            &&& host ==> upload_mode(r) is None && device_bytes_of(r, info) == Some(0nat)
            &&& gemv_kind_of(r) is Some ==> upload_mode(r) == Some(UploadMode::Raw) && (
            info.byte_len matches Some(n) ==> device_bytes_of(r, info) == Some(n as nat)) && (
            info.byte_len is None ==> device_bytes_of(r, info) is None)
            &&& !host && gemv_kind_of(r) is None ==> upload_mode(r) == Some(UploadMode::Bf16)
                && device_bytes_of(r, info) == Some((2 * info.element_count) as nat)
        }),
{
}

/// Every tensor that the device keeps is uploaded once, in order, with its own
/// bytes and in its own form; no other is.
pub proof fn every_device_tensor_is_uploaded_once(tensors: Seq<PlannedTensor>, n: nat)
    requires
        n <= tensors.len() <= usize::MAX,
    ensures
        ({
            let steps = upload_steps(tensors, n);
            &&& forall|k: int|
                0 <= k < steps.len() ==> {
                    let s = #[trigger] steps[k];
                    &&& s.tensor < n
                    &&& s.bytes == tensors[s.tensor as int].bytes
                    &&& upload_mode(tensors[s.tensor as int].residency) == Some(s.mode)
                }
            &&& forall|j: int, k: int|
                0 <= j < k < steps.len() ==> (#[trigger] steps[j]).tensor < (
                #[trigger] steps[k]).tensor
            &&& forall|i: int|
                0 <= i < n && !((#[trigger] tensors[i]).residency is HostOnly) ==> uploads(
                    steps,
                    i,
                )
        }),
    decreases n,
{
    if n > 0 {
        let m = (n - 1) as nat;
        every_device_tensor_is_uploaded_once(tensors, m);
        let before = upload_steps(tensors, m);
        let steps = upload_steps(tensors, n);
        assert forall|i: int|
            0 <= i < n && !((#[trigger] tensors[i]).residency is HostOnly) implies uploads(
            steps,
            i,
        ) by {
            if i < m {
                assert(uploads(before, i));
                let k = choose|k: int|
                    0 <= k < before.len() && (#[trigger] before[k]).tensor == i;
                assert(steps[k].tensor == i);
            } else {
                assert(steps[steps.len() - 1].tensor == i);
            }
        }
    }
}

/// One of the steps uploads a tensor.
pub open spec fn uploads(steps: Seq<UploadStep>, i: int) -> bool {
    exists|k: int| 0 <= k < steps.len() && (#[trigger] steps[k]).tensor == i
}

// ---- routing and heads ----

/// One of the sources is a tensor.
pub open spec fn is_source(sources: Seq<RoutingSource>, i: int) -> bool {
    exists|k: int| 0 <= k < sources.len() && (#[trigger] sources[k]).tensor == i
}

/// A layer's router bias or its hash table.
pub open spec fn routes_tokens(info: TensorInfo) -> bool {
    info.role matches Some(role) && role.layer is Some && (role.kind is RouterBias
        || role.kind is RouterHashTable)
}

/// The host keeps for routing every layer's router bias and hash table, in
/// order and each once, for its own layer, and nothing else.
pub proof fn routing_keeps_biases_and_tables(tensors: Seq<TensorInfo>, n: nat)
    requires
        n <= tensors.len() <= usize::MAX,
        routing_upto(tensors, n) is Ok,
    ensures
        ({
            let sources = routing_upto(tensors, n)->Ok_0;
            &&& forall|k: int|
                0 <= k < sources.len() ==> {
                    let s = #[trigger] sources[k];
                    &&& s.tensor < n
                    &&& tensors[s.tensor as int].role matches Some(role) && role.layer == Some(
                        s.layer,
                    ) && (if s.hash_table {
                        role.kind is RouterHashTable && tensors[s.tensor as int].ggml_type is I64
                    } else {
                        role.kind is RouterBias
                    })
                }
            &&& forall|j: int, k: int|
                0 <= j < k < sources.len() ==> (#[trigger] sources[j]).tensor < (
                #[trigger] sources[k]).tensor
            &&& forall|i: int|
                0 <= i < n && routes_tokens(#[trigger] tensors[i]) ==> is_source(sources, i)
        }),
    decreases n,
{
    if n > 0 {
        let m = (n - 1) as nat;
        routing_keeps_biases_and_tables(tensors, m);
        let before = routing_upto(tensors, m)->Ok_0;
        let now = routing_upto(tensors, n)->Ok_0;
        assert forall|i: int| 0 <= i < n && routes_tokens(#[trigger] tensors[i]) implies is_source(
            now,
            i,
        ) by {
            if i < m {
                assert(is_source(before, i));
                let k = choose|k: int|
                    0 <= k < before.len() && (#[trigger] before[k]).tensor == i;
                assert(now[k].tensor == i);
            } else {
                assert(now[now.len() - 1].tensor == i);
            }
        }
    }
}

/// The output head is the uploaded output weight, else the uploaded embedding
/// table; without either there is none.
pub proof fn the_head_is_output_or_embedding(uploaded: Seq<DeviceTensor>)
    ensures
        ({
            let has = |name: Seq<char>|
                exists|i: int| 0 <= i < uploaded.len() && #[trigger] uploaded[i].name@ == name;
            let output = has("output.weight"@);
            let embed = has("token_embd.weight"@);
            &&& lm_head_of(uploaded) == Some(GlobalWeight::Output) <==> output
            &&& lm_head_of(uploaded) == Some(GlobalWeight::TokenEmbd) <==> !output && embed
            &&& lm_head_of(uploaded) is None <==> !output && !embed
        }),
{
}

// ---- layers ----

/// A compressor's regions stand one behind the other: none overlaps another.
pub proof fn regions_do_not_overlap(
    base: nat,
    c: Dsv4CompressorShapeElems,
    dim: nat,
    off: CompressorOffsets,
)
    requires
        family_at(base, c, dim, off),
    ensures
        base <= off.pending_kv,
        off.pending_kv + c.pending_kv <= off.pending_score,
        off.pending_score + c.pending_score <= off.prev_overlap_kv,
        off.prev_overlap_kv + c.prev_overlap_kv <= off.prev_overlap_score,
        off.prev_overlap_score + c.prev_overlap_score <= off.compressed,
        off.compressed + c.compressed - base == c.pending_kv + c.pending_score + c.prev_overlap_kv
            + c.prev_overlap_score + c.compressed,
{
}

/// Where every layer has a plan, the schedule is those plans, layer by layer;
/// where one has none, the schedule is shorter than the model.
pub proof fn schedules_follow_the_layers(plans: Seq<Option<AttentionLayerPlan>>, n: nat)
    requires
        n <= plans.len(),
    ensures
        planned_layers(plans, n).len() <= n,
        (forall|i: int| 0 <= i < n ==> #[trigger] plans[i] is Some) ==> planned_layers(plans, n)
            == Seq::new(n, |i: int| plans[i]->0),
        (exists|i: int| 0 <= i < n && #[trigger] plans[i] is None) ==> planned_layers(
            plans,
            n,
        ).len() < n,
    decreases n,
{
    if n > 0 {
        schedules_follow_the_layers(plans, (n - 1) as nat);
        if forall|i: int| 0 <= i < n ==> #[trigger] plans[i] is Some {
            assert(planned_layers(plans, n) =~= Seq::new(n, |i: int| plans[i]->0));
        }
        if exists|i: int| 0 <= i < n && #[trigger] plans[i] is None {
            let i = choose|i: int| 0 <= i < n && #[trigger] plans[i] is None;
            if i < n - 1 {
                assert(plans[i] is None);
            }
        }
    }
}

/// Every token has a row of its own in a hash table: as many experts as are
/// taken for it, behind the rows of the tokens before it.
pub proof fn tokens_have_rows_of_their_own(table: Seq<i64>, token: nat, topk: nat, i: int)
    requires
        0 <= i < topk,
        token * topk + topk <= table.len(),
    ensures
        hash_row(table, token, topk).len() == topk,
        hash_row(table, token, topk)[i] == table[token * topk + i],
        token * topk + topk == (token + 1) * topk,
{
    assert(token * topk + topk == (token + 1) * topk) by (nonlinear_arith);
    assert(token * topk >= 0) by (nonlinear_arith);
}

} // verus!
