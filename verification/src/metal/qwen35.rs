//! Qwen3.5 and Qwen3.6: which weights a checkpoint must hold, and how they are
//! registered with the compiled model.
use vstd::prelude::*;

use crate::metal::config::{
    MetalGdrConfig, MetalModelConfig, MetalQwen35LayerType, MetalQwen35MoeConfig, QuantConfig,
};
#[allow(unused_imports)]
use crate::metal::config::{ConfigView, MoeView, QuantView};
use crate::metal::loader::{load_proj_from_tensors, part_name, LoadError, ProjPlan, TensorMap};
#[allow(unused_imports)]
use crate::metal::loader::{part, proj_plan, quant_view};
use crate::metal::register::{
    check_requests, indexed_name, low_i32, projection_weight, push_request, push_stage, want_dense,
    want_embed, want_norm, want_proj, LoadFault, Request, RuntimeCall, Stage,
};
#[allow(unused_imports)]
use crate::metal::register::{
    bare, first_fault, has_slot, in_order, indexed, lemma_norms_alike_join, norms_alike, req_views,
    stage_norms_alike, stage_views, weight_of, wired, Infos, ReqView, StageView,
};
use crate::metal::mlx::Dtype;
use crate::metal::weights::ArrayInfo;
use crate::text::same_text;

verus! {

// ---- names ----

pub open spec fn is_text_prefix(t: Infos, p: Seq<char>) -> bool {
    t.contains_key(part(p, ".embed_tokens.weight"@)) && t.contains_key(part(p, ".norm.weight"@))
}

/// The prefix of the text weights: the first of three under which there are
/// an embedding and a final norm.
pub open spec fn text_prefix(t: Infos) -> Option<Seq<char>> {
    if is_text_prefix(t, "language_model.model"@) {
        Some("language_model.model"@)
    } else if is_text_prefix(t, "model.language_model"@) {
        Some("model.language_model"@)
    } else if is_text_prefix(t, "model"@) {
        Some("model"@)
    } else {
        None
    }
}

fn has_text_prefix(tensors: &TensorMap<ArrayInfo>, p: &str) -> (r: bool)
    ensures
        r == is_text_prefix(tensors@, p@),
{
    tensors.contains_key(part_name(p, ".embed_tokens.weight").as_str()) && tensors.contains_key(
        part_name(p, ".norm.weight").as_str(),
    )
}

/// Finds the prefix of the text weights.
pub fn detect_prefix(tensors: &TensorMap<ArrayInfo>) -> (r: Option<&'static str>)
    ensures
        match (r, text_prefix(tensors@)) {
            (Some(a), Some(b)) => a@ == b,
            (None, None) => true,
            _ => false,
        },
{
    if has_text_prefix(tensors, "language_model.model") {
        Some("language_model.model")
    } else if has_text_prefix(tensors, "model.language_model") {
        Some("model.language_model")
    } else if has_text_prefix(tensors, "model") {
        Some("model")
    } else {
        None
    }
}

pub open spec fn has_head(t: Infos, base: Seq<char>) -> bool {
    t.contains_key(part(base, ".weight"@)) || t.contains_key(part(base, ".scales"@))
}

/// The output head of its own, if there is one: the first of three names that
/// has a weight or scales. Otherwise the head is the transposed embedding.
pub open spec fn head_of(t: Infos, prefix: Seq<char>) -> Option<Seq<char>> {
    if has_head(t, "lm_head"@) {
        Some("lm_head"@)
    } else if has_head(t, "language_model.lm_head"@) {
        Some("language_model.lm_head"@)
    } else if has_head(t, part(prefix, ".lm_head"@)) {
        Some(part(prefix, ".lm_head"@))
    } else {
        None
    }
}

fn head_is_there(tensors: &TensorMap<ArrayInfo>, base: &str) -> (r: bool)
    ensures
        r == has_head(tensors@, base@),
{
    tensors.contains_key(part_name(base, ".weight").as_str()) || tensors.contains_key(
        part_name(base, ".scales").as_str(),
    )
}

/// Finds the output head.
pub fn load_lm_head(tensors: &TensorMap<ArrayInfo>, prefix: &str) -> (r: Option<String>)
    ensures
        match (r, head_of(tensors@, prefix@)) {
            (Some(a), Some(b)) => a@ == b,
            (None, None) => true,
            _ => false,
        },
{
    if head_is_there(tensors, "lm_head") {
        let name: String = part_name("lm_head", "");
        proof {
            reveal_strlit("");
            assert(name@ =~= "lm_head"@);
        }
        return Some(name);
    }
    if head_is_there(tensors, "language_model.lm_head") {
        let name: String = part_name("language_model.lm_head", "");
        proof {
            reveal_strlit("");
            assert(name@ =~= "language_model.lm_head"@);
        }
        return Some(name);
    }
    let own: String = part_name(prefix, ".lm_head");
    if head_is_there(tensors, own.as_str()) {
        Some(own)
    } else {
        None
    }
}

/// Whether the projections of a linear-attention layer are also registered
/// one by one. They are unless the setting is `0`.
pub fn use_qwen35_cpp_separate_proj(setting: Option<&str>) -> (r: bool)
    ensures
        r == (setting is None || setting->0@ != "0"@),
{
    match setting {
        None => true,
        Some(s) => !same_text(s, "0"),
    }
}

// ---- what a checkpoint must hold ----

/// The weight of a norm.
pub open spec fn norm(p: Seq<char>, suffix: Seq<char>, norms_need_offset: bool) -> ReqView {
    ReqView::Norm { name: part(p, suffix), offset: norms_need_offset }
}

/// The logarithms of a linear-attention layer's decay, in single precision.
pub open spec fn decay(p: Seq<char>) -> ReqView {
    ReqView::As { name: part(p, ".linear_attn.A_log"@), dtype: Dtype::Float32 }
}

pub open spec fn full_attn_loads(p: Seq<char>, norms_need_offset: bool) -> Seq<ReqView> {
    seq![
        ReqView::Proj(part(p, ".self_attn.q_proj"@)),
        ReqView::Proj(part(p, ".self_attn.k_proj"@)),
        ReqView::Proj(part(p, ".self_attn.v_proj"@)),
        ReqView::Proj(part(p, ".self_attn.o_proj"@)),
        norm(p, ".self_attn.q_norm.weight"@, norms_need_offset),
        norm(p, ".self_attn.k_norm.weight"@, norms_need_offset),
    ]
}

/// A linear-attention layer, whose projections must have their numbers of
/// outputs and be fit to be joined two by two. Its own norm is stored in full.
pub open spec fn linear_attn_loads(p: Seq<char>, linear: MetalGdrConfig) -> Seq<ReqView> {
    let qkv = part(p, ".linear_attn.in_proj_qkv"@);
    let z = part(p, ".linear_attn.in_proj_z"@);
    let b = part(p, ".linear_attn.in_proj_b"@);
    let a = part(p, ".linear_attn.in_proj_a"@);
    seq![
        ReqView::Proj(qkv),
        ReqView::Proj(z),
        ReqView::Proj(b),
        ReqView::Proj(a),
        ReqView::Conv {
            name: part(p, ".linear_attn.conv1d.weight"@),
            channels: Some(linear.qkv() as usize as i32),
            kernel: linear.conv_kernel as i32,
        },
        ReqView::Dense(part(p, ".linear_attn.dt_bias"@)),
        decay(p),
        ReqView::Dense(part(p, ".linear_attn.norm.weight"@)),
        ReqView::Proj(part(p, ".linear_attn.out_proj"@)),
        ReqView::Rows(qkv),
        ReqView::Rows(z),
        ReqView::Rows(b),
        ReqView::Join { first: qkv, second: z },
        ReqView::Join { first: b, second: a },
    ]
}

pub open spec fn dense_mlp_loads(p: Seq<char>) -> Seq<ReqView> {
    let gate = part(p, ".mlp.gate_proj"@);
    let up = part(p, ".mlp.up_proj"@);
    seq![
        ReqView::Proj(gate),
        ReqView::Proj(up),
        ReqView::Proj(part(p, ".mlp.down_proj"@)),
        ReqView::Rows(gate),
        ReqView::Join { first: gate, second: up },
    ]
}

/// Why a layer cannot have so many experts, if it cannot.
pub open spec fn expert_fault(m: MoeView) -> Option<LoadError> {
    if m.num_experts > i32::MAX || m.num_experts_per_tok > i32::MAX {
        Some(LoadError::TooLarge)
    } else if m.num_experts == 0 || m.num_experts_per_tok == 0 || m.num_experts_per_tok
        > m.num_experts {
        Some(LoadError::Experts)
    } else {
        None
    }
}

pub open spec fn packed(p: Seq<char>, suffix: Seq<char>, group_size: i32, bits: i32) -> ReqView {
    ReqView::Packed { base: part(p, suffix), group_size, bits }
}

/// The arrays of a layer's experts.
pub open spec fn expert_arrays(p: Seq<char>, m: MoeView) -> Seq<ReqView> {
    seq![
        packed(p, ".mlp.gate"@, m.router_group_size, m.router_bits),
        ReqView::Stack(part(p, ".mlp.switch_mlp.gate_proj"@)),
        ReqView::Stack(part(p, ".mlp.switch_mlp.up_proj"@)),
        ReqView::Stack(part(p, ".mlp.switch_mlp.down_proj"@)),
        packed(p, ".mlp.shared_expert.gate_proj"@, m.expert_group_size, m.expert_bits),
        packed(p, ".mlp.shared_expert.up_proj"@, m.expert_group_size, m.expert_bits),
        packed(p, ".mlp.shared_expert.down_proj"@, m.expert_group_size, m.expert_bits),
        packed(p, ".mlp.shared_expert_gate"@, m.router_group_size, m.router_bits),
    ]
}

pub open spec fn moe_loads(p: Seq<char>, m: MoeView) -> Seq<ReqView> {
    (match expert_fault(m) {
        Some(e) => seq![ReqView::Absent(e)],
        None => Seq::empty(),
    }) + expert_arrays(p, m)
}

pub open spec fn layer_name(prefix: Seq<char>, i: nat) -> Seq<char> {
    indexed(part(prefix, ".layers."@), i)
}

pub open spec fn has_moe(c: ConfigView, i: nat) -> bool {
    c.moe is Some && c.moe->0.has_experts(i)
}

pub open spec fn layer_loads(
    c: ConfigView,
    prefix: Seq<char>,
    i: nat,
    norms_need_offset: bool,
) -> Seq<ReqView> {
    let p = layer_name(prefix, i);
    (match c.layer_types[i as int] {
        MetalQwen35LayerType::FullAttention => full_attn_loads(p, norms_need_offset),
        MetalQwen35LayerType::LinearAttention => linear_attn_loads(p, c.linear),
    }) + (if has_moe(c, i) {
        moe_loads(p, c.moe->0)
    } else {
        dense_mlp_loads(p)
    }) + seq![
        norm(p, ".input_layernorm.weight"@, norms_need_offset),
        norm(p, ".post_attention_layernorm.weight"@, norms_need_offset),
    ]
}

pub open spec fn layers_loads(
    c: ConfigView,
    prefix: Seq<char>,
    n: nat,
    norms_need_offset: bool,
) -> Seq<ReqView>
    decreases n,
{
    if n == 0 {
        Seq::empty()
    } else {
        layers_loads(c, prefix, (n - 1) as nat, norms_need_offset) + layer_loads(
            c,
            prefix,
            (n - 1) as nat,
            norms_need_offset,
        )
    }
}

/// Everything that loading a checkpoint asks for, in order. The first layer's
/// norm is looked at before anything else: it tells whether the norms are
/// stored as their distance from one.
pub open spec fn qwen35_loads(
    c: ConfigView,
    t: Infos,
    prefix: Seq<char>,
    norms_need_offset: bool,
) -> Seq<ReqView> {
    seq![
        ReqView::Dense(part(prefix, ".layers.0.input_layernorm.weight"@)),
        ReqView::Embed(part(prefix, ".embed_tokens"@)),
        norm(prefix, ".norm.weight"@, norms_need_offset),
    ] + (match head_of(t, prefix) {
        Some(h) => seq![ReqView::Proj(h)],
        None => Seq::empty(),
    }) + layers_loads(c, prefix, c.num_hidden_layers as nat, norms_need_offset)
}

fn want_packed(list: &mut Vec<Request>, p: &str, suffix: &str, group_size: i32, bits: i32)
    ensures
        req_views(final(list)@) == req_views(old(list)@).push(
            packed(p@, suffix@, group_size, bits),
        ),
{
    push_request(list, Request::Packed { base: part_name(p, suffix), group_size, bits });
}

pub fn want_stack(list: &mut Vec<Request>, p: &str, suffix: &str)
    ensures
        req_views(final(list)@) == req_views(old(list)@).push(
            ReqView::Stack(part(p@, suffix@)),
        ),
{
    push_request(list, Request::Stack(part_name(p, suffix)));
}

pub fn want_rows(list: &mut Vec<Request>, p: &str, suffix: &str)
    ensures
        req_views(final(list)@) == req_views(old(list)@).push(ReqView::Rows(part(p@, suffix@))),
{
    push_request(list, Request::Rows(part_name(p, suffix)));
}

pub fn want_join(list: &mut Vec<Request>, p: &str, first: &str, second: &str)
    ensures
        req_views(final(list)@) == req_views(old(list)@).push(
            ReqView::Join { first: part(p@, first@), second: part(p@, second@) },
        ),
{
    push_request(
        list,
        Request::Join { first: part_name(p, first), second: part_name(p, second) },
    );
}

fn want_decay(list: &mut Vec<Request>, p: &str)
    ensures
        req_views(final(list)@) == req_views(old(list)@).push(decay(p@)),
{
    push_request(
        list,
        Request::As { name: part_name(p, ".linear_attn.A_log"), dtype: Dtype::Float32 },
    );
}

fn want_full_attn(list: &mut Vec<Request>, p: &str, norms_need_offset: bool)
    ensures
        req_views(final(list)@) == req_views(old(list)@) + full_attn_loads(p@, norms_need_offset),
{
    let ghost before = req_views(list@);
    want_proj(list, p, ".self_attn.q_proj");
    want_proj(list, p, ".self_attn.k_proj");
    want_proj(list, p, ".self_attn.v_proj");
    want_proj(list, p, ".self_attn.o_proj");
    want_norm(list, p, ".self_attn.q_norm.weight", norms_need_offset);
    want_norm(list, p, ".self_attn.k_norm.weight", norms_need_offset);
    assert(req_views(list@) =~= before + full_attn_loads(p@, norms_need_offset));
}

fn want_linear_attn(list: &mut Vec<Request>, p: &str, linear: &MetalGdrConfig)
    requires
        linear.qkv() <= usize::MAX,
    ensures
        req_views(final(list)@) == req_views(old(list)@) + linear_attn_loads(p@, *linear),
{
    let ghost before = req_views(list@);
    want_proj(list, p, ".linear_attn.in_proj_qkv");
    want_proj(list, p, ".linear_attn.in_proj_z");
    want_proj(list, p, ".linear_attn.in_proj_b");
    want_proj(list, p, ".linear_attn.in_proj_a");
    push_request(
        list,
        Request::Conv {
            name: part_name(p, ".linear_attn.conv1d.weight"),
            channels: Some(low_i32(linear.qkv_dim())),
            kernel: low_i32(linear.conv_kernel),
        },
    );
    want_dense(list, p, ".linear_attn.dt_bias");
    want_decay(list, p);
    want_dense(list, p, ".linear_attn.norm.weight");
    want_proj(list, p, ".linear_attn.out_proj");
    want_rows(list, p, ".linear_attn.in_proj_qkv");
    want_rows(list, p, ".linear_attn.in_proj_z");
    want_rows(list, p, ".linear_attn.in_proj_b");
    want_join(list, p, ".linear_attn.in_proj_qkv", ".linear_attn.in_proj_z");
    want_join(list, p, ".linear_attn.in_proj_b", ".linear_attn.in_proj_a");
    assert(req_views(list@) =~= before + linear_attn_loads(p@, *linear));
}

fn want_dense_mlp(list: &mut Vec<Request>, p: &str)
    ensures
        req_views(final(list)@) == req_views(old(list)@) + dense_mlp_loads(p@),
{
    let ghost before = req_views(list@);
    want_proj(list, p, ".mlp.gate_proj");
    want_proj(list, p, ".mlp.up_proj");
    want_proj(list, p, ".mlp.down_proj");
    want_rows(list, p, ".mlp.gate_proj");
    want_join(list, p, ".mlp.gate_proj", ".mlp.up_proj");
    assert(req_views(list@) =~= before + dense_mlp_loads(p@));
}

fn check_experts(m: &MetalQwen35MoeConfig) -> (r: Option<LoadError>)
    ensures
        r == expert_fault(m@),
{
    if m.num_experts > 0x7fff_ffff || m.num_experts_per_tok > 0x7fff_ffff {
        Some(LoadError::TooLarge)
    } else if m.num_experts == 0 || m.num_experts_per_tok == 0 || m.num_experts_per_tok
        > m.num_experts {
        Some(LoadError::Experts)
    } else {
        None
    }
}

fn want_experts(list: &mut Vec<Request>, p: &str, m: &MetalQwen35MoeConfig)
    ensures
        req_views(final(list)@) == req_views(old(list)@) + expert_arrays(p@, m@),
{
    let ghost before = req_views(list@);
    want_packed(list, p, ".mlp.gate", m.router_group_size, m.router_bits);
    want_stack(list, p, ".mlp.switch_mlp.gate_proj");
    want_stack(list, p, ".mlp.switch_mlp.up_proj");
    want_stack(list, p, ".mlp.switch_mlp.down_proj");
    want_packed(list, p, ".mlp.shared_expert.gate_proj", m.expert_group_size, m.expert_bits);
    want_packed(list, p, ".mlp.shared_expert.up_proj", m.expert_group_size, m.expert_bits);
    want_packed(list, p, ".mlp.shared_expert.down_proj", m.expert_group_size, m.expert_bits);
    want_packed(list, p, ".mlp.shared_expert_gate", m.router_group_size, m.router_bits);
    assert(req_views(list@) =~= before + expert_arrays(p@, m@));
}

fn want_moe(list: &mut Vec<Request>, p: &str, m: &MetalQwen35MoeConfig)
    ensures
        req_views(final(list)@) == req_views(old(list)@) + moe_loads(p@, m@),
{
    let ghost before = req_views(list@);
    match check_experts(m) {
        Some(e) => {
            push_request(list, Request::Absent(e));
        },
        None => {},
    }
    want_experts(list, p, m);
    assert(req_views(list@) =~= before + moe_loads(p@, m@));
}

/// Whether a layer holds experts.
fn layer_has_experts(c: &MetalModelConfig, i: usize) -> (r: bool)
    requires
        i < usize::MAX,
    ensures
        r == has_moe(c@, i as nat),
{
    match &c.moe {
        Some(m) => m.is_moe_layer(i),
        None => false,
    }
}

fn layer_of(prefix: &str, i: usize) -> (p: String)
    ensures
        p@ == layer_name(prefix@, i as nat),
{
    let base: String = part_name(prefix, ".layers.");
    indexed_name(base.as_str(), i)
}

fn want_layer(
    list: &mut Vec<Request>,
    c: &MetalModelConfig,
    prefix: &str,
    i: usize,
    norms_need_offset: bool,
)
    requires
        i < c.layer_types@.len(),
        i < usize::MAX,
        c.linear.qkv() <= usize::MAX,
    ensures
        req_views(final(list)@) == req_views(old(list)@) + layer_loads(
            c@,
            prefix@,
            i as nat,
            norms_need_offset,
        ),
{
    let ghost before = req_views(list@);
    let p: String = layer_of(prefix, i);
    match c.layer_types[i] {
        MetalQwen35LayerType::FullAttention => {
            want_full_attn(list, p.as_str(), norms_need_offset);
        },
        MetalQwen35LayerType::LinearAttention => {
            want_linear_attn(list, p.as_str(), &c.linear);
        },
    }
    if layer_has_experts(c, i) {
        match &c.moe {
            Some(m) => {
                want_moe(list, p.as_str(), m);
            },
            None => {},
        }
    } else {
        want_dense_mlp(list, p.as_str());
    }
    want_norm(list, p.as_str(), ".input_layernorm.weight", norms_need_offset);
    want_norm(list, p.as_str(), ".post_attention_layernorm.weight", norms_need_offset);
    assert(req_views(list@) =~= before + layer_loads(
        c@,
        prefix@,
        i as nat,
        norms_need_offset,
    ));
}

/// Why a checkpoint cannot be loaded.
#[derive(Debug, Clone, Copy, PartialEq, Eq, Structural)]
pub enum Qwen35LoadError {
    /// No text weights under any known prefix.
    Prefix,
    Weight(LoadFault),
}

fn quant_of_config(c: &MetalModelConfig) -> (q: Option<&QuantConfig>)
    ensures
        quant_view(q) == c@.quantization,
{
    match &c.quantization {
        Some(q) => Some(q),
        None => None,
    }
}

pub open spec fn qwen35_fault(c: ConfigView, t: Infos, norms_need_offset: bool) -> Option<
    Qwen35LoadError,
> {
    match text_prefix(t) {
        None => Some(Qwen35LoadError::Prefix),
        Some(prefix) => {
            let loads = qwen35_loads(c, t, prefix, norms_need_offset);
            match first_fault(t, c.quantization, loads, loads.len()) {
                Some(f) => Some(Qwen35LoadError::Weight(f)),
                None => None,
            }
        },
    }
}

/// What loading asks for, in order, and whether the checkpoint has it.
/// `norms_need_offset` is what the first layer's norm tells: whether the norms
/// are stored as their distance from one.
pub fn load_qwen35_metal_weights(
    c: &MetalModelConfig,
    tensors: &TensorMap<ArrayInfo>,
    norms_need_offset: bool,
) -> (r: Result<Vec<Request>, Qwen35LoadError>)
    requires
        text_prefix(tensors@) is Some ==> c.num_hidden_layers <= c.layer_types@.len()
            && c.linear.qkv() <= usize::MAX,
    ensures
        match r {
            Ok(loads) => qwen35_fault(c@, tensors@, norms_need_offset) is None && req_views(loads@)
                == qwen35_loads(c@, tensors@, text_prefix(tensors@)->0, norms_need_offset),
            Err(e) => qwen35_fault(c@, tensors@, norms_need_offset) == Some(e),
        },
{
    let prefix: &str = match detect_prefix(tensors) {
        None => {
            return Err(Qwen35LoadError::Prefix);
        },
        Some(p) => p,
    };
    let mut list: Vec<Request> = Vec::new();
    assert(req_views(list@) =~= Seq::<ReqView>::empty());
    want_dense(&mut list, prefix, ".layers.0.input_layernorm.weight");
    want_embed(&mut list, prefix, ".embed_tokens");
    want_norm(&mut list, prefix, ".norm.weight", norms_need_offset);
    match load_lm_head(tensors, prefix) {
        Some(h) => {
            push_request(&mut list, Request::Proj(h));
        },
        None => {},
    }
    let ghost start = req_views(list@);
    let mut i: usize = 0;
    assert(start + layers_loads(c@, prefix@, 0, norms_need_offset) =~= start);
    while i < c.num_hidden_layers
        invariant
            i <= c.num_hidden_layers <= c.layer_types@.len(),
            c.linear.qkv() <= usize::MAX,
            req_views(list@) == start + layers_loads(
                c@,
                prefix@,
                i as nat,
                norms_need_offset,
            ),
        decreases c.num_hidden_layers - i,
    {
        want_layer(&mut list, c, prefix, i, norms_need_offset);
        i = i + 1;
        assert(req_views(list@) =~= start + layers_loads(
            c@,
            prefix@,
            i as nat,
            norms_need_offset,
        ));
    }
    assert(req_views(list@) =~= qwen35_loads(c@, tensors@, prefix@, norms_need_offset));
    match check_requests(tensors, quant_of_config(c), &list) {
        Some(f) => Err(Qwen35LoadError::Weight(f)),
        None => Ok(list),
    }
}

// ---- registration ----

/// Outputs of a projection.
pub open spec fn rows_of(t: Infos, q: Option<QuantView>, base: Seq<char>) -> i32 {
    match weight_of(t, base, q) {
        Some(w) => match w.rows() {
            Ok(n) => n,
            Err(_) => 0,
        },
        None => 0,
    }
}

fn output_rows(tensors: &TensorMap<ArrayInfo>, q: Option<&QuantConfig>, base: &str) -> (n: i32)
    ensures
        n == rows_of(tensors@, quant_view(q), base@),
{
    match projection_weight(tensors, base, q) {
        Some(w) => match w.output_dim() {
            Ok(n) => n,
            Err(_) => 0,
        },
        None => 0,
    }
}

/// Whether a projection is loaded dense.
pub open spec fn is_dense(t: Infos, q: Option<QuantView>, base: Seq<char>) -> bool {
    proj_plan(t, base, q) == Ok::<ProjPlan, LoadError>(ProjPlan::Dense)
}

/// The output head as it is registered.
pub open spec fn head_request(t: Infos, prefix: Seq<char>) -> ReqView {
    match head_of(t, prefix) {
        Some(h) => ReqView::Proj(h),
        None => ReqView::Tied(part(prefix, ".embed_tokens"@)),
    }
}

/// A dense head is replaced by the packed embedding where there is one.
pub open spec fn embed_as_linear(c: ConfigView, t: Infos, prefix: Seq<char>) -> bool {
    let dense = match head_of(t, prefix) {
        Some(h) => is_dense(t, c.quantization, h),
        None => true,
    };
    dense && c.quantization is Some && proj_plan(t, part(prefix, ".embed_tokens"@), c.quantization)
        is Ok
}

pub open spec fn head_stages(
    c: ConfigView,
    t: Infos,
    prefix: Seq<char>,
    rotary_dim: usize,
    norms_need_offset: bool,
) -> Seq<StageView> {
    seq![
        StageView {
            numbers: seq![
                c.num_attention_heads as i32,
                c.num_key_value_heads as i32,
                c.head_dim as i32,
                rotary_dim as i32,
                c.hidden_size as i32,
            ],
            ..bare(RuntimeCall::SetConfig)
        },
        StageView { numbers: seq![1i32], ..bare(RuntimeCall::SetQkGate) },
        StageView {
            adds: seq![head_request(t, prefix)],
            slots: in_order(1),
            arrays: seq![
                ReqView::Embed(part(prefix, ".embed_tokens"@)),
                norm(prefix, ".norm.weight"@, norms_need_offset),
            ],
            ..bare(RuntimeCall::SetEmbed)
        },
    ] + if embed_as_linear(c, t, prefix) {
        seq![
            StageView {
                adds: seq![ReqView::Proj(part(prefix, ".embed_tokens"@))],
                slots: in_order(1),
                ..bare(RuntimeCall::SetEmbedAsLinear)
            },
        ]
    } else {
        Seq::empty()
    }
}

/// The feed-forward weights that come before a layer's attention weights.
pub open spec fn mlp_adds(p: Seq<char>, moe: bool) -> Seq<ReqView> {
    if moe {
        Seq::empty()
    } else {
        seq![
            ReqView::Join { first: part(p, ".mlp.gate_proj"@), second: part(p, ".mlp.up_proj"@) },
            ReqView::Proj(part(p, ".mlp.down_proj"@)),
        ]
    }
}

/// The places of `n` attention weights, which come behind the feed-forward
/// weights but stand before them in the call.
pub open spec fn attn_slots(n: nat, moe: bool) -> Seq<Option<usize>> {
    if moe {
        Seq::new(n, |k: int| Some(k as usize)).push(None).push(None)
    } else {
        Seq::new(n, |k: int| Some((k + 2) as usize)).push(Some(0usize)).push(Some(1usize))
    }
}

pub open spec fn gate_rows(t: Infos, q: Option<QuantView>, p: Seq<char>, moe: bool) -> i32 {
    if moe {
        0
    } else {
        rows_of(t, q, part(p, ".mlp.gate_proj"@))
    }
}

pub open spec fn full_attn_stage(
    t: Infos,
    q: Option<QuantView>,
    p: Seq<char>,
    moe: bool,
    norms_need_offset: bool,
) -> StageView {
    StageView {
        adds: mlp_adds(p, moe) + seq![
            ReqView::Proj(part(p, ".self_attn.q_proj"@)),
            ReqView::Proj(part(p, ".self_attn.k_proj"@)),
            ReqView::Proj(part(p, ".self_attn.v_proj"@)),
            ReqView::Proj(part(p, ".self_attn.o_proj"@)),
        ],
        slots: attn_slots(4, moe),
        arrays: seq![
            norm(p, ".input_layernorm.weight"@, norms_need_offset),
            norm(p, ".post_attention_layernorm.weight"@, norms_need_offset),
            norm(p, ".self_attn.q_norm.weight"@, norms_need_offset),
            norm(p, ".self_attn.k_norm.weight"@, norms_need_offset),
        ],
        numbers: seq![gate_rows(t, q, p, moe)],
        ..bare(RuntimeCall::PushFullAttn)
    }
}

pub open spec fn linear_attn_stage(
    c: ConfigView,
    t: Infos,
    p: Seq<char>,
    moe: bool,
    norms_need_offset: bool,
) -> StageView {
    let q = c.quantization;
    let qkv = part(p, ".linear_attn.in_proj_qkv"@);
    let z = part(p, ".linear_attn.in_proj_z"@);
    let b = part(p, ".linear_attn.in_proj_b"@);
    let a = part(p, ".linear_attn.in_proj_a"@);
    StageView {
        adds: mlp_adds(p, moe) + seq![
            ReqView::Join { first: qkv, second: z },
            ReqView::Join { first: b, second: a },
            ReqView::Proj(part(p, ".linear_attn.out_proj"@)),
        ],
        slots: attn_slots(3, moe),
        arrays: seq![
            norm(p, ".input_layernorm.weight"@, norms_need_offset),
            norm(p, ".post_attention_layernorm.weight"@, norms_need_offset),
            ReqView::Conv {
                name: part(p, ".linear_attn.conv1d.weight"@),
                channels: Some(c.linear.qkv() as usize as i32),
                kernel: c.linear.conv_kernel as i32,
            },
            decay(p),
            ReqView::Dense(part(p, ".linear_attn.dt_bias"@)),
            ReqView::Dense(part(p, ".linear_attn.norm.weight"@)),
        ],
        numbers: seq![
            rows_of(t, q, qkv),
            rows_of(t, q, z),
            rows_of(t, q, b),
            c.linear.conv_kernel as i32,
            c.linear.num_key_heads as i32,
            c.linear.key_dim as i32,
            c.linear.num_value_heads as i32,
            c.linear.value_dim as i32,
            gate_rows(t, q, p, moe),
        ],
        ..bare(RuntimeCall::PushLinearAttn)
    }
}

/// The projections of a linear-attention layer one by one, or only those of
/// its dense feed-forward.
pub open spec fn separate_stages(p: Seq<char>, moe: bool, separate: bool) -> Seq<StageView> {
    let mlp = seq![
        ReqView::Proj(part(p, ".mlp.gate_proj"@)),
        ReqView::Proj(part(p, ".mlp.up_proj"@)),
    ];
    if separate {
        seq![
            StageView {
                adds: seq![
                    ReqView::Proj(part(p, ".linear_attn.in_proj_qkv"@)),
                    ReqView::Proj(part(p, ".linear_attn.in_proj_z"@)),
                    ReqView::Proj(part(p, ".linear_attn.in_proj_b"@)),
                    ReqView::Proj(part(p, ".linear_attn.in_proj_a"@)),
                ] + if moe {
                    Seq::empty()
                } else {
                    mlp
                },
                slots: if moe {
                    in_order(4).push(None).push(None)
                } else {
                    in_order(6)
                },
                ..bare(RuntimeCall::SetSeparateProj)
            },
        ]
    } else if !moe {
        seq![StageView { adds: mlp, slots: in_order(2), ..bare(RuntimeCall::SetSeparateMlp) }]
    } else {
        Seq::empty()
    }
}

pub open spec fn moe_stage(p: Seq<char>, m: MoeView) -> StageView {
    StageView {
        arrays: expert_arrays(p, m),
        numbers: seq![
            m.router_group_size,
            m.router_bits,
            m.expert_group_size,
            m.expert_bits,
            m.num_experts as i32,
            m.num_experts_per_tok as i32,
        ],
        flags: seq![m.norm_topk_prob],
        ..bare(RuntimeCall::SetMoe)
    }
}

pub open spec fn layer_stages(
    c: ConfigView,
    t: Infos,
    prefix: Seq<char>,
    i: nat,
    separate: bool,
    norms_need_offset: bool,
) -> Seq<StageView> {
    let p = layer_name(prefix, i);
    let moe = has_moe(c, i);
    (match c.layer_types[i as int] {
        MetalQwen35LayerType::FullAttention => seq![
            full_attn_stage(t, c.quantization, p, moe, norms_need_offset),
        ],
        MetalQwen35LayerType::LinearAttention => seq![
            linear_attn_stage(c, t, p, moe, norms_need_offset),
        ] + separate_stages(p, moe, separate),
    }) + if moe {
        seq![moe_stage(p, c.moe->0)]
    } else {
        Seq::empty()
    }
}

pub open spec fn layers_stages(
    c: ConfigView,
    t: Infos,
    prefix: Seq<char>,
    n: nat,
    separate: bool,
    norms_need_offset: bool,
) -> Seq<StageView>
    decreases n,
{
    if n == 0 {
        Seq::empty()
    } else {
        layers_stages(c, t, prefix, (n - 1) as nat, separate, norms_need_offset) + layer_stages(
            c,
            t,
            prefix,
            (n - 1) as nat,
            separate,
            norms_need_offset,
        )
    }
}

/// Everything that registering a model does, in order.
pub open spec fn qwen35_program(
    c: ConfigView,
    t: Infos,
    prefix: Seq<char>,
    rotary_dim: usize,
    separate: bool,
    norms_need_offset: bool,
) -> Seq<StageView> {
    head_stages(c, t, prefix, rotary_dim, norms_need_offset) + layers_stages(
        c,
        t,
        prefix,
        c.num_hidden_layers as nat,
        separate,
        norms_need_offset,
    ) + seq![bare(RuntimeCall::Finalize)]
}

/// Collects the stages of a program.
#[derive(Debug)]
pub struct CppQwen35Model {
    pub program: Vec<Stage>,
}

pub fn push_attn_slots(s: &mut Stage, n: usize, moe: bool)
    requires
        old(s).slots@.len() == 0,
        n < 100,
    ensures
        final(s)@ == (StageView { slots: attn_slots(n as nat, moe), ..old(s)@ }),
{
    let ghost before = *s;
    let shift: usize = if moe {
        0
    } else {
        2
    };
    let mut i: usize = 0;
    while i < n
        invariant
            i <= n < 100,
            shift <= 2,
            s.call == before.call && s.adds == before.adds && s.arrays == before.arrays
                && s.numbers == before.numbers && s.flags == before.flags,
            s.slots@.len() == i,
            forall|k: int| 0 <= k < i ==> #[trigger] s.slots@[k] == Some((k + shift) as usize),
        decreases n - i,
    {
        s.slots.push(Some(i + shift));
        i = i + 1;
    }
    if moe {
        s.slots.push(None);
        s.slots.push(None);
    } else {
        s.slots.push(Some(0));
        s.slots.push(Some(1));
    }
    assert(s@ =~= (StageView { slots: attn_slots(n as nat, moe), ..before@ }));
}

fn add_mlp(s: &mut Stage, p: &str, moe: bool)
    requires
        old(s)@.adds.len() == 0,
    ensures
        final(s)@ == (StageView { adds: mlp_adds(p@, moe), ..old(s)@ }),
{
    let ghost before = *s;
    if !moe {
        want_join(&mut s.adds, p, ".mlp.gate_proj", ".mlp.up_proj");
        want_proj(&mut s.adds, p, ".mlp.down_proj");
    }
    assert(s@ =~= (StageView { adds: mlp_adds(p@, moe), ..before@ }));
}

impl CppQwen35Model {
    fn push_head(
        &mut self,
        c: &MetalModelConfig,
        tensors: &TensorMap<ArrayInfo>,
        prefix: &str,
        rotary_dim: usize,
        norms_need_offset: bool,
    )
        ensures
            stage_views(final(self).program@) == stage_views(old(self).program@) + head_stages(
                c@,
                tensors@,
                prefix@,
                rotary_dim,
                norms_need_offset,
            ),
    {
        let ghost before = stage_views(self.program@);
        let q: Option<&QuantConfig> = quant_of_config(c);
        let mut a: Stage = Stage::new(RuntimeCall::SetConfig);
        a.numbers.push(low_i32(c.num_attention_heads));
        a.numbers.push(low_i32(c.num_key_value_heads));
        a.numbers.push(low_i32(c.head_dim));
        a.numbers.push(low_i32(rotary_dim));
        a.numbers.push(low_i32(c.hidden_size));
        let ghost a_view = a@;
        push_stage(&mut self.program, a);
        let mut b: Stage = Stage::new(RuntimeCall::SetQkGate);
        b.numbers.push(1);
        let ghost b_view = b@;
        push_stage(&mut self.program, b);
        let mut d: Stage = Stage::new(RuntimeCall::SetEmbed);
        let head: Option<String> = load_lm_head(tensors, prefix);
        let dense: bool = match &head {
            Some(h) => match load_proj_from_tensors(tensors, h.as_str(), q) {
                Ok(ProjPlan::Dense) => true,
                _ => false,
            },
            None => true,
        };
        match head {
            Some(h) => {
                push_request(&mut d.adds, Request::Proj(h));
            },
            None => {
                push_request(&mut d.adds, Request::Tied(part_name(prefix, ".embed_tokens")));
            },
        }
        d.slots_in_order();
        want_embed(&mut d.arrays, prefix, ".embed_tokens");
        want_norm(&mut d.arrays, prefix, ".norm.weight", norms_need_offset);
        let ghost d_view = d@;
        push_stage(&mut self.program, d);
        let embed: String = part_name(prefix, ".embed_tokens");
        let linear: bool = dense && c.quantization.is_some() && load_proj_from_tensors(
            tensors,
            embed.as_str(),
            q,
        ).is_ok();
        if linear {
            let mut e: Stage = Stage::new(RuntimeCall::SetEmbedAsLinear);
            push_request(&mut e.adds, Request::Proj(embed));
            e.slots_in_order();
            let ghost e_view = e@;
            push_stage(&mut self.program, e);
            let ghost want = head_stages(c@, tensors@, prefix@, rotary_dim, norms_need_offset);
            assert(linear == embed_as_linear(c@, tensors@, prefix@));
            assert(a_view =~= want[0] && b_view =~= want[1] && d_view =~= want[2] && e_view
                =~= want[3]);
        } else {
            let ghost want = head_stages(c@, tensors@, prefix@, rotary_dim, norms_need_offset);
            assert(linear == embed_as_linear(c@, tensors@, prefix@));
            assert(a_view =~= want[0] && b_view =~= want[1] && d_view =~= want[2]);
        }
        assert(stage_views(self.program@) =~= before + head_stages(
            c@,
            tensors@,
            prefix@,
            rotary_dim,
            norms_need_offset,
        ));
    }

    fn full_attn(
        tensors: &TensorMap<ArrayInfo>,
        q: Option<&QuantConfig>,
        p: &str,
        moe: bool,
        norms_need_offset: bool,
    ) -> (s: Stage)
        ensures
            s@ == full_attn_stage(tensors@, quant_view(q), p@, moe, norms_need_offset),
    {
        let mut s: Stage = Stage::new(RuntimeCall::PushFullAttn);
        add_mlp(&mut s, p, moe);
        want_proj(&mut s.adds, p, ".self_attn.q_proj");
        want_proj(&mut s.adds, p, ".self_attn.k_proj");
        want_proj(&mut s.adds, p, ".self_attn.v_proj");
        want_proj(&mut s.adds, p, ".self_attn.o_proj");
        push_attn_slots(&mut s, 4, moe);
        want_norm(&mut s.arrays, p, ".input_layernorm.weight", norms_need_offset);
        want_norm(&mut s.arrays, p, ".post_attention_layernorm.weight", norms_need_offset);
        want_norm(&mut s.arrays, p, ".self_attn.q_norm.weight", norms_need_offset);
        want_norm(&mut s.arrays, p, ".self_attn.k_norm.weight", norms_need_offset);
        s.numbers.push(
            if moe {
                0
            } else {
                output_rows(tensors, q, part_name(p, ".mlp.gate_proj").as_str())
            },
        );
        assert(s@ =~= full_attn_stage(tensors@, quant_view(q), p@, moe, norms_need_offset));
        s
    }

    fn linear_attn(
        c: &MetalModelConfig,
        tensors: &TensorMap<ArrayInfo>,
        p: &str,
        moe: bool,
        norms_need_offset: bool,
    ) -> (s: Stage)
        requires
            c.linear.qkv() <= usize::MAX,
        ensures
            s@ == linear_attn_stage(c@, tensors@, p@, moe, norms_need_offset),
    {
        let q: Option<&QuantConfig> = quant_of_config(c);
        let mut s: Stage = Stage::new(RuntimeCall::PushLinearAttn);
        add_mlp(&mut s, p, moe);
        want_join(&mut s.adds, p, ".linear_attn.in_proj_qkv", ".linear_attn.in_proj_z");
        want_join(&mut s.adds, p, ".linear_attn.in_proj_b", ".linear_attn.in_proj_a");
        want_proj(&mut s.adds, p, ".linear_attn.out_proj");
        push_attn_slots(&mut s, 3, moe);
        want_norm(&mut s.arrays, p, ".input_layernorm.weight", norms_need_offset);
        want_norm(&mut s.arrays, p, ".post_attention_layernorm.weight", norms_need_offset);
        push_request(
            &mut s.arrays,
            Request::Conv {
                name: part_name(p, ".linear_attn.conv1d.weight"),
                channels: Some(low_i32(c.linear.qkv_dim())),
                kernel: low_i32(c.linear.conv_kernel),
            },
        );
        want_decay(&mut s.arrays, p);
        want_dense(&mut s.arrays, p, ".linear_attn.dt_bias");
        want_dense(&mut s.arrays, p, ".linear_attn.norm.weight");
        s.numbers.push(
            output_rows(tensors, q, part_name(p, ".linear_attn.in_proj_qkv").as_str()),
        );
        s.numbers.push(output_rows(tensors, q, part_name(p, ".linear_attn.in_proj_z").as_str()));
        s.numbers.push(output_rows(tensors, q, part_name(p, ".linear_attn.in_proj_b").as_str()));
        s.numbers.push(low_i32(c.linear.conv_kernel));
        s.numbers.push(low_i32(c.linear.num_key_heads));
        s.numbers.push(low_i32(c.linear.key_dim));
        s.numbers.push(low_i32(c.linear.num_value_heads));
        s.numbers.push(low_i32(c.linear.value_dim));
        s.numbers.push(
            if moe {
                0
            } else {
                output_rows(tensors, q, part_name(p, ".mlp.gate_proj").as_str())
            },
        );
        assert(s@ =~= linear_attn_stage(c@, tensors@, p@, moe, norms_need_offset));
        s
    }

    fn push_separate(&mut self, p: &str, moe: bool, separate: bool)
        ensures
            stage_views(final(self).program@) == stage_views(old(self).program@) + separate_stages(
                p@,
                moe,
                separate,
            ),
    {
        let ghost before = stage_views(self.program@);
        let ghost want = separate_stages(p@, moe, separate);
        if separate {
            let mut s: Stage = Stage::new(RuntimeCall::SetSeparateProj);
            want_proj(&mut s.adds, p, ".linear_attn.in_proj_qkv");
            want_proj(&mut s.adds, p, ".linear_attn.in_proj_z");
            want_proj(&mut s.adds, p, ".linear_attn.in_proj_b");
            want_proj(&mut s.adds, p, ".linear_attn.in_proj_a");
            if !moe {
                want_proj(&mut s.adds, p, ".mlp.gate_proj");
                want_proj(&mut s.adds, p, ".mlp.up_proj");
            }
            s.slots_in_order();
            if moe {
                s.slots.push(None);
                s.slots.push(None);
            }
            assert(s@ =~= want[0]);
            push_stage(&mut self.program, s);
        } else if !moe {
            let mut s: Stage = Stage::new(RuntimeCall::SetSeparateMlp);
            want_proj(&mut s.adds, p, ".mlp.gate_proj");
            want_proj(&mut s.adds, p, ".mlp.up_proj");
            s.slots_in_order();
            assert(s@ =~= want[0]);
            push_stage(&mut self.program, s);
        }
        assert(stage_views(self.program@) =~= before + want);
    }

    fn moe(p: &str, m: &MetalQwen35MoeConfig) -> (s: Stage)
        ensures
            s@ == moe_stage(p@, m@),
    {
        let mut s: Stage = Stage::new(RuntimeCall::SetMoe);
        want_experts(&mut s.arrays, p, m);
        s.numbers.push(m.router_group_size);
        s.numbers.push(m.router_bits);
        s.numbers.push(m.expert_group_size);
        s.numbers.push(m.expert_bits);
        s.numbers.push(low_i32(m.num_experts));
        s.numbers.push(low_i32(m.num_experts_per_tok));
        s.flags.push(m.norm_topk_prob);
        assert(s@ =~= moe_stage(p@, m@));
        s
    }

    fn push_layer(
        &mut self,
        c: &MetalModelConfig,
        tensors: &TensorMap<ArrayInfo>,
        prefix: &str,
        i: usize,
        separate: bool,
        norms_need_offset: bool,
    )
        requires
            i < c.layer_types@.len(),
            i < usize::MAX,
            c.linear.qkv() <= usize::MAX,
        ensures
            stage_views(final(self).program@) == stage_views(old(self).program@) + layer_stages(
                c@,
                tensors@,
                prefix@,
                i as nat,
                separate,
                norms_need_offset,
            ),
    {
        let ghost before = stage_views(self.program@);
        let p: String = layer_of(prefix, i);
        let moe: bool = layer_has_experts(c, i);
        match c.layer_types[i] {
            MetalQwen35LayerType::FullAttention => {
                push_stage(
                    &mut self.program,
                    Self::full_attn(
                        tensors,
                        quant_of_config(c),
                        p.as_str(),
                        moe,
                        norms_need_offset,
                    ),
                );
            },
            MetalQwen35LayerType::LinearAttention => {
                push_stage(
                    &mut self.program,
                    Self::linear_attn(c, tensors, p.as_str(), moe, norms_need_offset),
                );
                self.push_separate(p.as_str(), moe, separate);
            },
        }
        if moe {
            match &c.moe {
                Some(m) => {
                    push_stage(&mut self.program, Self::moe(p.as_str(), m));
                },
                None => {},
            }
        }
        assert(stage_views(self.program@) =~= before + layer_stages(
            c@,
            tensors@,
            prefix@,
            i as nat,
            separate,
            norms_need_offset,
        ));
    }

    /// The program that registers the weights of a checkpoint. `rotary_dim` is
    /// the width of the rotated part of a head; `norms_need_offset` tells
    /// whether the norms are stored as their distance from one.
    pub fn build(
        c: &MetalModelConfig,
        tensors: &TensorMap<ArrayInfo>,
        prefix: &str,
        rotary_dim: usize,
        separate: bool,
        norms_need_offset: bool,
    ) -> (b: Self)
        requires
            c.num_hidden_layers <= c.layer_types@.len(),
            c.linear.qkv() <= usize::MAX,
        ensures
            stage_views(b.program@) == qwen35_program(
                c@,
                tensors@,
                prefix@,
                rotary_dim,
                separate,
                norms_need_offset,
            ),
    {
        let mut b = CppQwen35Model { program: Vec::new() };
        assert(stage_views(b.program@) =~= Seq::<StageView>::empty());
        b.push_head(c, tensors, prefix, rotary_dim, norms_need_offset);
        let ghost start = stage_views(b.program@);
        let mut i: usize = 0;
        assert(start + layers_stages(c@, tensors@, prefix@, 0, separate, norms_need_offset) =~= start);
        while i < c.num_hidden_layers
            invariant
                i <= c.num_hidden_layers <= c.layer_types@.len(),
                c.linear.qkv() <= usize::MAX,
                stage_views(b.program@) == start + layers_stages(
                    c@,
                    tensors@,
                    prefix@,
                    i as nat,
                    separate,
                    norms_need_offset,
                ),
            decreases c.num_hidden_layers - i,
        {
            b.push_layer(c, tensors, prefix, i, separate, norms_need_offset);
            i = i + 1;
            assert(stage_views(b.program@) =~= start + layers_stages(
                c@,
                tensors@,
                prefix@,
                i as nat,
                separate,
                norms_need_offset,
            ));
        }
        push_stage(&mut b.program, Stage::new(RuntimeCall::Finalize));
        assert(stage_views(b.program@) =~= qwen35_program(
            c@,
            tensors@,
            prefix@,
            rotary_dim,
            separate,
            norms_need_offset,
        ));
        b
    }
}

/// An attention layer uses each of its registered weights once.
pub proof fn attention_is_wired(
    c: ConfigView,
    t: Infos,
    p: Seq<char>,
    moe: bool,
    norms_need_offset: bool,
)
    ensures
        wired(full_attn_stage(t, c.quantization, p, moe, norms_need_offset)),
        wired(linear_attn_stage(c, t, p, moe, norms_need_offset)),
{
    lemma_attn_wired(full_attn_stage(t, c.quantization, p, moe, norms_need_offset), 4, moe);
    lemma_attn_wired(linear_attn_stage(c, t, p, moe, norms_need_offset), 3, moe);
}

proof fn lemma_attn_wired(s: StageView, n: nat, moe: bool)
    requires
        n < 100,
        s.slots == attn_slots(n, moe),
        s.adds.len() == n + if moe {
            0int
        } else {
            2
        },
    ensures
        wired(s),
{
    assert(s.slots.len() == n + 2);
    assert forall|k: int| 0 <= k < s.adds.len() implies #[trigger] has_slot(s, k) by {
        let j: int = if moe {
            k
        } else if k < 2 {
            n + k
        } else {
            k - 2
        };
        assert(s.slots[j] == Some(k as usize));
    }
}

/// What the first norm tells holds of the whole checkpoint: of the norms that
/// may be stored as their distance from one, every one gets one added or none
/// does, in loading and in registration alike.
pub proof fn norms_are_corrected_alike(
    c: ConfigView,
    t: Infos,
    prefix: Seq<char>,
    rotary_dim: usize,
    separate: bool,
    norms_need_offset: bool,
)
    ensures
        norms_alike(qwen35_loads(c, t, prefix, norms_need_offset), norms_need_offset),
        stage_norms_alike(
            qwen35_program(c, t, prefix, rotary_dim, separate, norms_need_offset),
            norms_need_offset,
        ),
{
    let n = c.num_hidden_layers as nat;
    lemma_layer_norms(c, t, prefix, n, separate, norms_need_offset);
    let head = seq![
        ReqView::Dense(part(prefix, ".layers.0.input_layernorm.weight"@)),
        ReqView::Embed(part(prefix, ".embed_tokens"@)),
        norm(prefix, ".norm.weight"@, norms_need_offset),
    ];
    let output = match head_of(t, prefix) {
        Some(h) => seq![ReqView::Proj(h)],
        None => Seq::empty(),
    };
    let layers = layers_loads(c, prefix, n, norms_need_offset);
    lemma_norms_alike_join(head, output, norms_need_offset);
    lemma_norms_alike_join(head + output, layers, norms_need_offset);
    let program = qwen35_program(c, t, prefix, rotary_dim, separate, norms_need_offset);
    let first = head_stages(c, t, prefix, rotary_dim, norms_need_offset);
    let stages = layers_stages(c, t, prefix, n, separate, norms_need_offset);
    assert forall|i: int| 0 <= i < program.len() implies norms_alike(
        #[trigger] program[i].arrays,
        norms_need_offset,
    ) by {
        if first.len() <= i < first.len() + stages.len() {
            assert(program[i] == stages[i - first.len()]);
        }
    }
}

proof fn lemma_layer_norms(
    c: ConfigView,
    t: Infos,
    prefix: Seq<char>,
    n: nat,
    separate: bool,
    norms_need_offset: bool,
)
    ensures
        norms_alike(layers_loads(c, prefix, n, norms_need_offset), norms_need_offset),
        stage_norms_alike(
            layers_stages(c, t, prefix, n, separate, norms_need_offset),
            norms_need_offset,
        ),
    decreases n,
{
    if n > 0 {
        let i = (n - 1) as nat;
        lemma_layer_norms(c, t, prefix, i, separate, norms_need_offset);
        assert(norms_alike(layer_loads(c, prefix, i, norms_need_offset), norms_need_offset));
        lemma_norms_alike_join(
            layers_loads(c, prefix, i, norms_need_offset),
            layer_loads(c, prefix, i, norms_need_offset),
            norms_need_offset,
        );
        let before = layers_stages(c, t, prefix, i, separate, norms_need_offset);
        let own = layer_stages(c, t, prefix, i, separate, norms_need_offset);
        assert(stage_norms_alike(own, norms_need_offset));
        assert forall|k: int| 0 <= k < (before + own).len() implies norms_alike(
            #[trigger] (before + own)[k].arrays,
            norms_need_offset,
        ) by {
            if k < before.len() {
                assert((before + own)[k] == before[k]);
            } else {
                assert((before + own)[k] == own[k - before.len()]);
            }
        }
    }
}

// ---- sessions ----

#[derive(Debug, Clone, Copy, PartialEq, Eq, Structural)]
pub enum StepError {
    /// Different numbers of key and value arrays.
    Mismatch { keys: usize, values: usize },
    /// Packed arrays that are no triples of values, scales and biases.
    Triples { count: usize },
}

/// Layers of a step over plain pages.
pub fn step_session_paged_bf16(keys: usize, values: usize) -> (r: Result<i32, StepError>)
    ensures
        r == if keys != values {
            Err::<i32, StepError>(StepError::Mismatch { keys, values })
        } else {
            Ok(keys as i32)
        },
{
    if keys != values {
        Err(StepError::Mismatch { keys, values })
    } else {
        Ok(low_i32(keys))
    }
}

/// Layers of a step over packed pages, three arrays each.
pub fn step_session_paged_int8(keys: usize, values: usize) -> (r: Result<i32, StepError>)
    ensures
        r == if keys != values {
            Err::<i32, StepError>(StepError::Mismatch { keys, values })
        } else if keys % 3 != 0 {
            Err(StepError::Triples { count: keys })
        } else {
            Ok((keys / 3) as i32)
        },
{
    if keys != values {
        Err(StepError::Mismatch { keys, values })
    } else if keys % 3 != 0 {
        Err(StepError::Triples { count: keys })
    } else {
        Ok(low_i32(keys / 3))
    }
}

} // verus!
