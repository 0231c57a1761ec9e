//! LFM2.5: which weights a checkpoint must hold, and how they are registered
//! with the compiled model. Layers are gated convolutions or full attention;
//! the first ones have a dense feed-forward, the others experts.
use vstd::prelude::*;

use crate::metal::config::QuantConfig;
#[allow(unused_imports)]
use crate::metal::config::QuantView;
use crate::metal::loader::{load_proj_from_tensors, part_name, LoadError, TensorMap};
#[allow(unused_imports)]
use crate::metal::loader::{part, proj_plan, quant_view};
use crate::metal::qwen35::{push_attn_slots, want_rows, want_stack};
#[allow(unused_imports)]
use crate::metal::qwen35::{attn_slots, rows_of};
use crate::metal::register::{
    check_request, check_requests, indexed_name, low_i32, projection_weight, push_request,
    push_stage, want_dense, want_dense_proj, want_embed, want_proj, LoadFault, Request, RuntimeCall,
    Stage,
};
#[allow(unused_imports)]
use crate::metal::register::{
    bare, first_fault, in_order, indexed, req_views, request_fault, stage_views, Infos, ReqView,
    StageView,
};
use crate::metal::weights::ArrayInfo;

verus! {

#[derive(Debug, Clone, Copy, PartialEq, Eq, Structural)]
pub enum Lfm2LayerKind {
    Conv,
    FullAttention,
    /// No such layer is known to the model.
    LinearAttention,
}

#[derive(Debug, Clone, Copy, PartialEq, Eq, Structural)]
pub struct Lfm2LayerFacts {
    pub kind: Lfm2LayerKind,
    pub moe: bool,
}

#[derive(Debug, Clone, Copy, PartialEq, Eq, Structural)]
pub struct Lfm2MoeFacts {
    pub num_experts: usize,
    pub num_experts_per_tok: usize,
    pub norm_topk_prob: bool,
    pub expert_bits: i32,
    pub expert_group_size: i32,
}

#[derive(Debug)]
pub struct Lfm2Facts {
    pub num_attention_heads: usize,
    pub num_key_value_heads: usize,
    pub head_dim: usize,
    pub hidden_size: usize,
    pub conv_kernel: usize,
    pub moe: Lfm2MoeFacts,
    pub layers: Vec<Lfm2LayerFacts>,
}

// ---- what a checkpoint must hold ----

pub open spec fn has_lfm2_prefix(t: Infos) -> bool {
    t.contains_key(part("model"@, ".embed_tokens.weight"@)) && t.contains_key(
        part("model"@, ".embedding_norm.weight"@),
    )
}

/// The names of the three projections of a dense feed-forward: those of
/// packed checkpoints where the first of them loads, else those of plain ones.
pub open spec fn ffn_names(t: Infos, q: Option<QuantView>, p: Seq<char>) -> (
    Seq<char>,
    Seq<char>,
    Seq<char>,
) {
    if proj_plan(t, part(p, ".feed_forward.gate_proj"@), q) is Ok {
        (
            part(p, ".feed_forward.gate_proj"@),
            part(p, ".feed_forward.up_proj"@),
            part(p, ".feed_forward.down_proj"@),
        )
    } else {
        (
            part(p, ".feed_forward.w1"@),
            part(p, ".feed_forward.w3"@),
            part(p, ".feed_forward.w2"@),
        )
    }
}

pub open spec fn dense_ffn_loads(t: Infos, q: Option<QuantView>, p: Seq<char>) -> Seq<ReqView> {
    let (gate, up, down) = ffn_names(t, q, p);
    seq![
        ReqView::Proj(gate),
        ReqView::Proj(up),
        ReqView::Proj(down),
        ReqView::Rows(gate),
        ReqView::Join { first: gate, second: up },
    ]
}

/// How a layer's experts are stored.
#[derive(Debug, Clone, Copy, PartialEq, Eq, Structural)]
pub enum ExpertStore {
    /// Packed stacks.
    Packed,
    /// Plain stacks.
    Stacked,
    /// One array per expert.
    Single,
}

pub open spec fn expert_store(t: Infos, q: Option<QuantView>, p: Seq<char>) -> ExpertStore {
    let gate = part(p, ".feed_forward.switch_mlp.gate_proj"@);
    if request_fault(t, q, ReqView::Stack(gate)) is None {
        ExpertStore::Packed
    } else if t.contains_key(part(gate, ".weight"@)) {
        ExpertStore::Stacked
    } else {
        ExpertStore::Single
    }
}

pub open spec fn single(p: Seq<char>, suffix: Seq<char>, count: usize) -> ReqView {
    ReqView::Experts { base: part(p, ".feed_forward.experts."@), suffix, count }
}

/// Gate, up and down of a layer's experts.
pub open spec fn expert_loads(store: ExpertStore, p: Seq<char>, count: usize) -> Seq<ReqView> {
    match store {
        ExpertStore::Packed => seq![
            ReqView::Stack(part(p, ".feed_forward.switch_mlp.gate_proj"@)),
            ReqView::Stack(part(p, ".feed_forward.switch_mlp.up_proj"@)),
            ReqView::Stack(part(p, ".feed_forward.switch_mlp.down_proj"@)),
        ],
        ExpertStore::Stacked => seq![
            ReqView::Dense(part(p, ".feed_forward.switch_mlp.gate_proj.weight"@)),
            ReqView::Dense(part(p, ".feed_forward.switch_mlp.up_proj.weight"@)),
            ReqView::Dense(part(p, ".feed_forward.switch_mlp.down_proj.weight"@)),
        ],
        ExpertStore::Single => seq![
            single(p, ".w1.weight"@, count),
            single(p, ".w3.weight"@, count),
            single(p, ".w2.weight"@, count),
        ],
    }
}

pub open spec fn moe_ffn_loads(
    t: Infos,
    q: Option<QuantView>,
    p: Seq<char>,
    m: Lfm2MoeFacts,
) -> Seq<ReqView> {
    (if m.num_experts > i32::MAX || m.num_experts_per_tok > i32::MAX {
        seq![ReqView::Absent(LoadError::TooLarge)]
    } else {
        Seq::empty()
    }) + seq![
        ReqView::DenseProj(part(p, ".feed_forward.gate"@)),
        ReqView::Dense(part(p, ".feed_forward.expert_bias"@)),
    ] + expert_loads(expert_store(t, q, p), p, m.num_experts)
}

pub open spec fn operator_loads(p: Seq<char>, kind: Lfm2LayerKind, kernel: usize) -> Seq<ReqView> {
    match kind {
        Lfm2LayerKind::Conv => seq![
            ReqView::Proj(part(p, ".conv.in_proj"@)),
            conv_request(p, kernel),
            ReqView::Proj(part(p, ".conv.out_proj"@)),
        ],
        Lfm2LayerKind::FullAttention => seq![
            ReqView::Proj(part(p, ".self_attn.q_proj"@)),
            ReqView::Proj(part(p, ".self_attn.k_proj"@)),
            ReqView::Proj(part(p, ".self_attn.v_proj"@)),
            ReqView::Proj(part(p, ".self_attn.out_proj"@)),
            ReqView::Dense(part(p, ".self_attn.q_layernorm.weight"@)),
            ReqView::Dense(part(p, ".self_attn.k_layernorm.weight"@)),
        ],
        Lfm2LayerKind::LinearAttention => seq![ReqView::Absent(LoadError::LayerKind)],
    }
}

pub open spec fn conv_request(p: Seq<char>, kernel: usize) -> ReqView {
    ReqView::Conv { name: part(p, ".conv.conv.weight"@), channels: None, kernel: kernel as i32 }
}

pub open spec fn lfm2_layer(i: nat) -> Seq<char> {
    indexed("model.layers."@, i)
}

pub open spec fn lfm2_layer_loads(f: Lfm2Facts, t: Infos, q: Option<QuantView>, i: nat) -> Seq<
    ReqView,
> {
    let p = lfm2_layer(i);
    let l = f.layers@[i as int];
    seq![
        ReqView::Dense(part(p, ".operator_norm.weight"@)),
        ReqView::Dense(part(p, ".ffn_norm.weight"@)),
    ] + (if l.moe {
        moe_ffn_loads(t, q, p, f.moe)
    } else {
        dense_ffn_loads(t, q, p)
    }) + operator_loads(p, l.kind, f.conv_kernel)
}

pub open spec fn lfm2_layers_loads(f: Lfm2Facts, t: Infos, q: Option<QuantView>, n: nat) -> Seq<
    ReqView,
>
    decreases n,
{
    if n == 0 {
        Seq::empty()
    } else {
        lfm2_layers_loads(f, t, q, (n - 1) as nat) + lfm2_layer_loads(f, t, q, (n - 1) as nat)
    }
}

/// Everything that loading a checkpoint asks for, in order.
pub open spec fn lfm2_loads(f: Lfm2Facts, t: Infos, q: Option<QuantView>) -> Seq<ReqView> {
    seq![
        ReqView::Embed(part("model"@, ".embed_tokens"@)),
        ReqView::Dense(part("model"@, ".embedding_norm.weight"@)),
    ] + lfm2_layers_loads(f, t, q, f.layers@.len())
}

struct FfnNames {
    gate: String,
    up: String,
    down: String,
}

fn find_ffn_names(tensors: &TensorMap<ArrayInfo>, q: Option<&QuantConfig>, p: &str) -> (r: FfnNames)
    ensures
        (r.gate@, r.up@, r.down@) == ffn_names(tensors@, quant_view(q), p@),
{
    let gate: String = part_name(p, ".feed_forward.gate_proj");
    if load_proj_from_tensors(tensors, gate.as_str(), q).is_ok() {
        FfnNames {
            gate,
            up: part_name(p, ".feed_forward.up_proj"),
            down: part_name(p, ".feed_forward.down_proj"),
        }
    } else {
        FfnNames {
            gate: part_name(p, ".feed_forward.w1"),
            up: part_name(p, ".feed_forward.w3"),
            down: part_name(p, ".feed_forward.w2"),
        }
    }
}

/// What a dense feed-forward asks for.
pub fn load_dense_ffn(
    list: &mut Vec<Request>,
    tensors: &TensorMap<ArrayInfo>,
    q: Option<&QuantConfig>,
    p: &str,
)
    ensures
        req_views(final(list)@) == req_views(old(list)@) + dense_ffn_loads(
            tensors@,
            quant_view(q),
            p@,
        ),
{
    let ghost before = req_views(list@);
    let n: FfnNames = find_ffn_names(tensors, q, p);
    proof {
        reveal_strlit("");
        assert(part(n.gate@, ""@) =~= n.gate@);
        assert(part(n.up@, ""@) =~= n.up@);
        assert(part(n.down@, ""@) =~= n.down@);
    }
    want_proj(list, n.gate.as_str(), "");
    want_proj(list, n.up.as_str(), "");
    want_proj(list, n.down.as_str(), "");
    want_rows(list, n.gate.as_str(), "");
    push_request(
        list,
        Request::Join { first: part_name(n.gate.as_str(), ""), second: part_name(n.up.as_str(), "") },
    );
    assert(req_views(list@) =~= before + dense_ffn_loads(tensors@, quant_view(q), p@));
}

/// How the experts of a layer are stored.
pub fn find_expert_store(tensors: &TensorMap<ArrayInfo>, q: Option<&QuantConfig>, p: &str) -> (r:
    ExpertStore)
    ensures
        r == expert_store(tensors@, quant_view(q), p@),
{
    let gate: String = part_name(p, ".feed_forward.switch_mlp.gate_proj");
    let weight: String = part_name(gate.as_str(), ".weight");
    let stack: Request = Request::Stack(gate);
    if check_request(tensors, q, &stack).is_none() {
        ExpertStore::Packed
    } else if tensors.contains_key(weight.as_str()) {
        ExpertStore::Stacked
    } else {
        ExpertStore::Single
    }
}

fn want_single(list: &mut Vec<Request>, p: &str, suffix: &str, count: usize)
    ensures
        req_views(final(list)@) == req_views(old(list)@).push(single(p@, suffix@, count)),
{
    let empty: String = part_name(suffix, "");
    proof {
        reveal_strlit("");
        assert(empty@ =~= suffix@);
    }
    push_request(
        list,
        Request::Experts { base: part_name(p, ".feed_forward.experts."), suffix: empty, count },
    );
}

fn want_experts(list: &mut Vec<Request>, store: ExpertStore, p: &str, count: usize)
    ensures
        req_views(final(list)@) == req_views(old(list)@) + expert_loads(store, p@, count),
{
    let ghost before = req_views(list@);
    match store {
        ExpertStore::Packed => {
            want_stack(list, p, ".feed_forward.switch_mlp.gate_proj");
            want_stack(list, p, ".feed_forward.switch_mlp.up_proj");
            want_stack(list, p, ".feed_forward.switch_mlp.down_proj");
        },
        ExpertStore::Stacked => {
            want_dense(list, p, ".feed_forward.switch_mlp.gate_proj.weight");
            want_dense(list, p, ".feed_forward.switch_mlp.up_proj.weight");
            want_dense(list, p, ".feed_forward.switch_mlp.down_proj.weight");
        },
        ExpertStore::Single => {
            want_single(list, p, ".w1.weight", count);
            want_single(list, p, ".w3.weight", count);
            want_single(list, p, ".w2.weight", count);
        },
    }
    assert(req_views(list@) =~= before + expert_loads(store, p@, count));
}

/// What a layer's experts ask for.
pub fn load_moe_ffn(
    list: &mut Vec<Request>,
    tensors: &TensorMap<ArrayInfo>,
    q: Option<&QuantConfig>,
    p: &str,
    m: &Lfm2MoeFacts,
)
    ensures
        req_views(final(list)@) == req_views(old(list)@) + moe_ffn_loads(
            tensors@,
            quant_view(q),
            p@,
            *m,
        ),
{
    let ghost before = req_views(list@);
    if m.num_experts > 0x7fff_ffff || m.num_experts_per_tok > 0x7fff_ffff {
        push_request(list, Request::Absent(LoadError::TooLarge));
    }
    want_dense_proj(list, p, ".feed_forward.gate");
    want_dense(list, p, ".feed_forward.expert_bias");
    want_experts(list, find_expert_store(tensors, q, p), p, m.num_experts);
    assert(req_views(list@) =~= before + moe_ffn_loads(tensors@, quant_view(q), p@, *m));
}

fn want_conv(list: &mut Vec<Request>, p: &str, kernel: usize)
    ensures
        req_views(final(list)@) == req_views(old(list)@).push(conv_request(p@, kernel)),
{
    push_request(
        list,
        Request::Conv {
            name: part_name(p, ".conv.conv.weight"),
            channels: None,
            kernel: low_i32(kernel),
        },
    );
}

fn want_operator(list: &mut Vec<Request>, p: &str, kind: Lfm2LayerKind, kernel: usize)
    ensures
        req_views(final(list)@) == req_views(old(list)@) + operator_loads(p@, kind, kernel),
{
    let ghost before = req_views(list@);
    match kind {
        Lfm2LayerKind::Conv => {
            want_proj(list, p, ".conv.in_proj");
            want_conv(list, p, kernel);
            want_proj(list, p, ".conv.out_proj");
        },
        Lfm2LayerKind::FullAttention => {
            want_proj(list, p, ".self_attn.q_proj");
            want_proj(list, p, ".self_attn.k_proj");
            want_proj(list, p, ".self_attn.v_proj");
            want_proj(list, p, ".self_attn.out_proj");
            want_dense(list, p, ".self_attn.q_layernorm.weight");
            want_dense(list, p, ".self_attn.k_layernorm.weight");
        },
        Lfm2LayerKind::LinearAttention => {
            push_request(list, Request::Absent(LoadError::LayerKind));
        },
    }
    assert(req_views(list@) =~= before + operator_loads(p@, kind, kernel));
}

fn want_lfm2_layer(
    list: &mut Vec<Request>,
    f: &Lfm2Facts,
    tensors: &TensorMap<ArrayInfo>,
    q: Option<&QuantConfig>,
    i: usize,
)
    requires
        i < f.layers@.len(),
    ensures
        req_views(final(list)@) == req_views(old(list)@) + lfm2_layer_loads(
            *f,
            tensors@,
            quant_view(q),
            i as nat,
        ),
{
    let ghost before = req_views(list@);
    let p: String = indexed_name("model.layers.", i);
    want_dense(list, p.as_str(), ".operator_norm.weight");
    want_dense(list, p.as_str(), ".ffn_norm.weight");
    if f.layers[i].moe {
        load_moe_ffn(list, tensors, q, p.as_str(), &f.moe);
    } else {
        load_dense_ffn(list, tensors, q, p.as_str());
    }
    want_operator(list, p.as_str(), f.layers[i].kind, f.conv_kernel);
    assert(req_views(list@) =~= before + lfm2_layer_loads(*f, tensors@, quant_view(q), i as nat));
}

/// Why a checkpoint cannot be loaded.
#[derive(Debug, Clone, Copy, PartialEq, Eq, Structural)]
pub enum Lfm2LoadError {
    /// No weights under the known prefix.
    Prefix,
    Weight(LoadFault),
}

pub open spec fn lfm2_fault(f: Lfm2Facts, t: Infos, q: Option<QuantView>) -> Option<Lfm2LoadError> {
    if !has_lfm2_prefix(t) {
        Some(Lfm2LoadError::Prefix)
    } else {
        let loads = lfm2_loads(f, t, q);
        match first_fault(t, q, loads, loads.len()) {
            Some(x) => Some(Lfm2LoadError::Weight(x)),
            None => None,
        }
    }
}

/// What loading asks for, in order, and whether the checkpoint has it.
pub fn load_lfm2_metal_weights(
    f: &Lfm2Facts,
    tensors: &TensorMap<ArrayInfo>,
    q: Option<&QuantConfig>,
) -> (r: Result<Vec<Request>, Lfm2LoadError>)
    ensures
        match r {
            Ok(loads) => lfm2_fault(*f, tensors@, quant_view(q)) is None && req_views(loads@)
                == lfm2_loads(*f, tensors@, quant_view(q)),
            Err(e) => lfm2_fault(*f, tensors@, quant_view(q)) == Some(e),
        },
{
    if !tensors.contains_key(part_name("model", ".embed_tokens.weight").as_str())
        || !tensors.contains_key(part_name("model", ".embedding_norm.weight").as_str()) {
        return Err(Lfm2LoadError::Prefix);
    }
    let mut list: Vec<Request> = Vec::new();
    assert(req_views(list@) =~= Seq::<ReqView>::empty());
    want_embed(&mut list, "model", ".embed_tokens");
    want_dense(&mut list, "model", ".embedding_norm.weight");
    let ghost start = req_views(list@);
    let mut i: usize = 0;
    assert(start + lfm2_layers_loads(*f, tensors@, quant_view(q), 0) =~= start);
    while i < f.layers.len()
        invariant
            i <= f.layers@.len(),
            req_views(list@) == start + lfm2_layers_loads(*f, tensors@, quant_view(q), i as nat),
        decreases f.layers@.len() - i,
    {
        want_lfm2_layer(&mut list, f, tensors, q, i);
        i = i + 1;
        assert(req_views(list@) =~= start + lfm2_layers_loads(
            *f,
            tensors@,
            quant_view(q),
            i as nat,
        ));
    }
    assert(req_views(list@) =~= lfm2_loads(*f, tensors@, quant_view(q)));
    match check_requests(tensors, q, &list) {
        Some(x) => Err(Lfm2LoadError::Weight(x)),
        None => Ok(list),
    }
}

// ---- registration ----

pub open spec fn lfm2_head(f: Lfm2Facts, t: Infos, q: Option<QuantView>) -> Seq<StageView> {
    let embed = part("model"@, ".embed_tokens"@);
    seq![
        StageView {
            numbers: seq![
                f.num_attention_heads as i32,
                f.num_key_value_heads as i32,
                f.head_dim as i32,
                f.hidden_size as i32,
                f.conv_kernel as i32,
            ],
            ..bare(RuntimeCall::SetConfig)
        },
        StageView {
            adds: seq![ReqView::Tied(embed)],
            slots: in_order(1),
            arrays: seq![
                ReqView::Embed(embed),
                ReqView::Dense(part("model"@, ".embedding_norm.weight"@)),
            ],
            ..bare(RuntimeCall::SetEmbed)
        },
    ] + if proj_plan(t, embed, q) is Ok {
        seq![
            StageView {
                adds: seq![ReqView::Proj(embed)],
                slots: in_order(1),
                ..bare(RuntimeCall::SetEmbedAsLinear)
            },
        ]
    } else {
        Seq::empty()
    }
}

pub open spec fn ffn_adds(t: Infos, q: Option<QuantView>, p: Seq<char>, moe: bool) -> Seq<ReqView> {
    let (gate, up, down) = ffn_names(t, q, p);
    if moe {
        Seq::empty()
    } else {
        seq![ReqView::Join { first: gate, second: up }, ReqView::Proj(down)]
    }
}

pub open spec fn ffn_rows(t: Infos, q: Option<QuantView>, p: Seq<char>, moe: bool) -> i32 {
    if moe {
        0
    } else {
        rows_of(t, q, ffn_names(t, q, p).0)
    }
}

pub open spec fn lfm2_layer_stage(f: Lfm2Facts, t: Infos, q: Option<QuantView>, i: nat) -> StageView {
    let p = lfm2_layer(i);
    let l = f.layers@[i as int];
    let norms = seq![
        ReqView::Dense(part(p, ".operator_norm.weight"@)),
        ReqView::Dense(part(p, ".ffn_norm.weight"@)),
    ];
    match l.kind {
        Lfm2LayerKind::Conv => StageView {
            adds: ffn_adds(t, q, p, l.moe) + seq![
                ReqView::Proj(part(p, ".conv.in_proj"@)),
                ReqView::Proj(part(p, ".conv.out_proj"@)),
            ],
            slots: attn_slots(2, l.moe),
            arrays: norms + seq![conv_request(p, f.conv_kernel)],
            numbers: seq![ffn_rows(t, q, p, l.moe)],
            ..bare(RuntimeCall::PushConv)
        },
        _ => StageView {
            adds: ffn_adds(t, q, p, l.moe) + seq![
                ReqView::Proj(part(p, ".self_attn.q_proj"@)),
                ReqView::Proj(part(p, ".self_attn.k_proj"@)),
                ReqView::Proj(part(p, ".self_attn.v_proj"@)),
                ReqView::Proj(part(p, ".self_attn.out_proj"@)),
            ],
            slots: attn_slots(4, l.moe),
            arrays: norms + seq![
                ReqView::Dense(part(p, ".self_attn.q_layernorm.weight"@)),
                ReqView::Dense(part(p, ".self_attn.k_layernorm.weight"@)),
            ],
            numbers: seq![ffn_rows(t, q, p, l.moe)],
            ..bare(RuntimeCall::PushFullAttn)
        },
    }
}

/// A stack of a layer's experts as it is registered.
pub open spec fn packed_stack(p: Seq<char>, suffix: Seq<char>, m: Lfm2MoeFacts) -> ReqView {
    ReqView::PackedStack {
        base: part(p, suffix),
        group_size: m.expert_group_size,
        bits: m.expert_bits,
    }
}

/// The call that gives a layer its experts: packed stacks are registered with
/// the experts' width, plain ones handed over. The router is dense either way.
pub open spec fn lfm2_moe_stage(t: Infos, q: Option<QuantView>, p: Seq<char>, m: Lfm2MoeFacts) -> StageView {
    let store = expert_store(t, q, p);
    let own = seq![
        ReqView::DenseProj(part(p, ".feed_forward.gate"@)),
        ReqView::Dense(part(p, ".feed_forward.expert_bias"@)),
    ];
    if store == ExpertStore::Packed {
        StageView {
            adds: seq![
                packed_stack(p, ".feed_forward.switch_mlp.gate_proj"@, m),
                packed_stack(p, ".feed_forward.switch_mlp.up_proj"@, m),
                packed_stack(p, ".feed_forward.switch_mlp.down_proj"@, m),
            ],
            slots: in_order(3),
            arrays: own,
            numbers: seq![
                m.expert_group_size,
                m.expert_bits,
                m.num_experts as i32,
                m.num_experts_per_tok as i32,
            ],
            flags: seq![m.norm_topk_prob],
            ..bare(RuntimeCall::SetMoe)
        }
    } else {
        StageView {
            arrays: own + expert_loads(store, p, m.num_experts),
            numbers: seq![m.num_experts as i32, m.num_experts_per_tok as i32],
            flags: seq![m.norm_topk_prob],
            ..bare(RuntimeCall::SetDenseMoe)
        }
    }
}

pub open spec fn lfm2_layers(f: Lfm2Facts, t: Infos, q: Option<QuantView>, n: nat) -> Seq<StageView>
    decreases n,
{
    if n == 0 {
        Seq::empty()
    } else {
        let i = (n - 1) as nat;
        lfm2_layers(f, t, q, i) + seq![lfm2_layer_stage(f, t, q, i)] + if f.layers@[i as int].moe {
            seq![lfm2_moe_stage(t, q, lfm2_layer(i), f.moe)]
        } else {
            Seq::empty()
        }
    }
}

/// Everything that registering a model does, in order.
pub open spec fn lfm2_program(f: Lfm2Facts, t: Infos, q: Option<QuantView>) -> Seq<StageView> {
    lfm2_head(f, t, q) + lfm2_layers(f, t, q, f.layers@.len()) + seq![bare(RuntimeCall::Finalize)]
}

fn want_packed_stack(list: &mut Vec<Request>, p: &str, suffix: &str, m: &Lfm2MoeFacts)
    ensures
        req_views(final(list)@) == req_views(old(list)@).push(packed_stack(p@, suffix@, *m)),
{
    push_request(
        list,
        Request::PackedStack {
            base: part_name(p, suffix),
            group_size: m.expert_group_size,
            bits: m.expert_bits,
        },
    );
}

/// Collects the stages of a program.
#[derive(Debug)]
pub struct CppLfm2Model {
    pub program: Vec<Stage>,
}

impl CppLfm2Model {
    fn push_head(&mut self, f: &Lfm2Facts, tensors: &TensorMap<ArrayInfo>, q: Option<&QuantConfig>)
        ensures
            stage_views(final(self).program@) == stage_views(old(self).program@) + lfm2_head(
                *f,
                tensors@,
                quant_view(q),
            ),
    {
        let ghost before = stage_views(self.program@);
        let ghost want = lfm2_head(*f, tensors@, quant_view(q));
        let mut a: Stage = Stage::new(RuntimeCall::SetConfig);
        a.numbers.push(low_i32(f.num_attention_heads));
        a.numbers.push(low_i32(f.num_key_value_heads));
        a.numbers.push(low_i32(f.head_dim));
        a.numbers.push(low_i32(f.hidden_size));
        a.numbers.push(low_i32(f.conv_kernel));
        assert(a@ =~= want[0]);
        push_stage(&mut self.program, a);
        let mut b: Stage = Stage::new(RuntimeCall::SetEmbed);
        push_request(&mut b.adds, Request::Tied(part_name("model", ".embed_tokens")));
        b.slots_in_order();
        want_embed(&mut b.arrays, "model", ".embed_tokens");
        want_dense(&mut b.arrays, "model", ".embedding_norm.weight");
        assert(b@ =~= want[1]);
        push_stage(&mut self.program, b);
        let embed: String = part_name("model", ".embed_tokens");
        if load_proj_from_tensors(tensors, embed.as_str(), q).is_ok() {
            let mut d: Stage = Stage::new(RuntimeCall::SetEmbedAsLinear);
            push_request(&mut d.adds, Request::Proj(embed));
            d.slots_in_order();
            assert(d@ =~= want[2]);
            push_stage(&mut self.program, d);
        }
        assert(stage_views(self.program@) =~= before + want);
    }

    fn layer(
        f: &Lfm2Facts,
        tensors: &TensorMap<ArrayInfo>,
        q: Option<&QuantConfig>,
        i: usize,
    ) -> (s: Stage)
        requires
            i < f.layers@.len(),
        ensures
            s@ == lfm2_layer_stage(*f, tensors@, quant_view(q), i as nat),
    {
        let name: String = indexed_name("model.layers.", i);
        let p: &str = name.as_str();
        let l: Lfm2LayerFacts = f.layers[i];
        let conv: bool = match l.kind {
            Lfm2LayerKind::Conv => true,
            _ => false,
        };
        let mut s: Stage = Stage::new(
            if conv {
                RuntimeCall::PushConv
            } else {
                RuntimeCall::PushFullAttn
            },
        );
        let n: FfnNames = find_ffn_names(tensors, q, p);
        let rows: i32 = if l.moe {
            0
        } else {
            match projection_weight(tensors, n.gate.as_str(), q) {
                Some(w) => match w.output_dim() {
                    Ok(x) => x,
                    Err(_) => 0,
                },
                None => 0,
            }
        };
        if !l.moe {
            push_request(&mut s.adds, Request::Join { first: n.gate, second: n.up });
            push_request(&mut s.adds, Request::Proj(n.down));
        }
        want_dense(&mut s.arrays, p, ".operator_norm.weight");
        want_dense(&mut s.arrays, p, ".ffn_norm.weight");
        if conv {
            want_proj(&mut s.adds, p, ".conv.in_proj");
            want_proj(&mut s.adds, p, ".conv.out_proj");
            push_attn_slots(&mut s, 2, l.moe);
            want_conv(&mut s.arrays, p, f.conv_kernel);
        } else {
            want_proj(&mut s.adds, p, ".self_attn.q_proj");
            want_proj(&mut s.adds, p, ".self_attn.k_proj");
            want_proj(&mut s.adds, p, ".self_attn.v_proj");
            want_proj(&mut s.adds, p, ".self_attn.out_proj");
            push_attn_slots(&mut s, 4, l.moe);
            want_dense(&mut s.arrays, p, ".self_attn.q_layernorm.weight");
            want_dense(&mut s.arrays, p, ".self_attn.k_layernorm.weight");
        }
        s.numbers.push(rows);
        assert(s@ =~= lfm2_layer_stage(*f, tensors@, quant_view(q), i as nat));
        s
    }

    fn moe(tensors: &TensorMap<ArrayInfo>, q: Option<&QuantConfig>, p: &str, m: &Lfm2MoeFacts) -> (s:
        Stage)
        ensures
            s@ == lfm2_moe_stage(tensors@, quant_view(q), p@, *m),
    {
        let store: ExpertStore = find_expert_store(tensors, q, p);
        let is_packed: bool = match store {
            ExpertStore::Packed => true,
            _ => false,
        };
        let mut s: Stage = Stage::new(
            if is_packed {
                RuntimeCall::SetMoe
            } else {
                RuntimeCall::SetDenseMoe
            },
        );
        want_dense_proj(&mut s.arrays, p, ".feed_forward.gate");
        want_dense(&mut s.arrays, p, ".feed_forward.expert_bias");
        if is_packed {
            want_packed_stack(&mut s.adds, p, ".feed_forward.switch_mlp.gate_proj", m);
            want_packed_stack(&mut s.adds, p, ".feed_forward.switch_mlp.up_proj", m);
            want_packed_stack(&mut s.adds, p, ".feed_forward.switch_mlp.down_proj", m);
            s.slots_in_order();
            s.numbers.push(m.expert_group_size);
            s.numbers.push(m.expert_bits);
        } else {
            want_experts(&mut s.arrays, store, p, m.num_experts);
        }
        s.numbers.push(low_i32(m.num_experts));
        s.numbers.push(low_i32(m.num_experts_per_tok));
        s.flags.push(m.norm_topk_prob);
        assert(s@ =~= lfm2_moe_stage(tensors@, quant_view(q), p@, *m));
        s
    }

    /// The program that registers the weights of a checkpoint whose layers
    /// are convolutions and full attention.
    pub fn build(f: &Lfm2Facts, tensors: &TensorMap<ArrayInfo>, q: Option<&QuantConfig>) -> (b: Self)
        ensures
            stage_views(b.program@) == lfm2_program(*f, tensors@, quant_view(q)),
    {
        let mut b = CppLfm2Model { program: Vec::new() };
        assert(stage_views(b.program@) =~= Seq::<StageView>::empty());
        b.push_head(f, tensors, q);
        let ghost start = stage_views(b.program@);
        let mut i: usize = 0;
        assert(start + lfm2_layers(*f, tensors@, quant_view(q), 0) =~= start);
        while i < f.layers.len()
            invariant
                i <= f.layers@.len(),
                stage_views(b.program@) == start + lfm2_layers(
                    *f,
                    tensors@,
                    quant_view(q),
                    i as nat,
                ),
            decreases f.layers@.len() - i,
        {
            push_stage(&mut b.program, Self::layer(f, tensors, q, i));
            if f.layers[i].moe {
                let p: String = indexed_name("model.layers.", i);
                push_stage(&mut b.program, Self::moe(tensors, q, p.as_str(), &f.moe));
            }
            i = i + 1;
            assert(stage_views(b.program@) =~= start + lfm2_layers(
                *f,
                tensors@,
                quant_view(q),
                i as nat,
            ));
        }
        push_stage(&mut b.program, Stage::new(RuntimeCall::Finalize));
        assert(stage_views(b.program@) =~= lfm2_program(*f, tensors@, quant_view(q)));
        b
    }
}

// ---- captures ----

/// The first layer among the first `n` that the runtime cannot name.
pub open spec fn layer_id_fault(ids: Seq<usize>, n: nat) -> bool {
    exists|i: int| 0 <= i < n && #[trigger] ids[i] > i32::MAX
}

/// Layers to capture, as the runtime takes them, or nothing where one of them
/// does not fit.
pub fn capture_layers(ids: &Vec<usize>) -> (r: Option<Vec<i32>>)
    ensures
        match r {
            Some(v) => !layer_id_fault(ids@, ids@.len()) && v@ == ids@.map_values(
                |x: usize| x as i32,
            ),
            None => layer_id_fault(ids@, ids@.len()),
        },
{
    let mut out: Vec<i32> = Vec::new();
    let mut i: usize = 0;
    while i < ids.len()
        invariant
            i <= ids@.len(),
            forall|k: int| 0 <= k < i ==> #[trigger] ids@[k] <= i32::MAX,
            out@ == ids@.take(i as int).map_values(|x: usize| x as i32),
        decreases ids@.len() - i,
    {
        if ids[i] > 0x7fff_ffff {
            assert(ids@[i as int] > i32::MAX);
            return None;
        }
        out.push(ids[i] as i32);
        i = i + 1;
        assert(out@ =~= ids@.take(i as int).map_values(|x: usize| x as i32));
    }
    assert(ids@.take(i as int) =~= ids@);
    Some(out)
}

/// How many captures there are to drain, nothing where the runtime gives a
/// negative number.
pub fn drain_captured(count: i32) -> (r: Option<usize>)
    ensures
        r == if count >= 0 {
            Some(count as usize)
        } else {
            None
        },
{
    if count >= 0 {
        Some(count as usize)
    } else {
        None
    }
}

} // verus!
