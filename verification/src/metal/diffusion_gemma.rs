//! Block-diffusion Gemma: how its weights are registered, and what goes into
//! and comes out of a generation.
use vstd::prelude::*;

use crate::metal::loader::{part_name, LoadError, TensorMap};
#[allow(unused_imports)]
use crate::metal::loader::part;
use crate::metal::register::{
    indexed_name, low_i32, push_request, push_stage, want_dense, want_embed, want_proj, Request,
    RuntimeCall, Stage,
};
#[allow(unused_imports)]
use crate::metal::register::{
    bare, has_slot, in_order, indexed, req_views, stage_views, wired, Infos, ReqView, StageView,
};
use crate::metal::weights::ArrayInfo;

verus! {

// ---- what registration needs to know of the text model ----

#[derive(Debug, Clone, Copy, PartialEq, Eq, Structural)]
pub struct GemmaLayerFacts {
    pub is_full: bool,
    pub head_dim: usize,
    pub kv_heads: usize,
    pub rotary_dim: usize,
    /// The layer whose keys and values this one reads, if not its own.
    pub kv_shared: Option<usize>,
}

#[derive(Debug, Clone, Copy, PartialEq, Eq, Structural)]
pub struct PerLayerFacts {
    pub hidden_size: Option<usize>,
    pub vocab_size: Option<usize>,
}

#[derive(Debug, Clone, Copy, PartialEq, Eq, Structural)]
pub struct ExpertFacts {
    pub num_experts: Option<usize>,
    pub top_k: Option<usize>,
}

#[derive(Debug)]
pub struct GemmaTextFacts {
    pub hidden_size: usize,
    pub vocab_size: usize,
    pub num_attention_heads: usize,
    pub sliding_window: usize,
    pub layers: Vec<GemmaLayerFacts>,
    /// Present where the layers have experts.
    pub experts: Option<ExpertFacts>,
    /// Present where the layers have embeddings of their own.
    pub per_layer: Option<PerLayerFacts>,
}

/// A rotary width that the head can have: at least 1, at most the head.
pub fn clamp_rotary(rounded: usize, head_dim: usize) -> (r: usize)
    ensures
        r == if head_dim == 0 {
            0
        } else if rounded < 1 {
            1
        } else if rounded > head_dim {
            head_dim
        } else {
            rounded
        },
{
    let low: usize = if rounded < 1 {
        1
    } else {
        rounded
    };
    if low > head_dim {
        head_dim
    } else {
        low
    }
}

pub open spec fn or_zero(n: Option<usize>) -> usize {
    match n {
        Some(x) => x,
        None => 0,
    }
}

fn get_or_zero(n: Option<usize>) -> (r: usize)
    ensures
        r == or_zero(n),
{
    match n {
        Some(x) => x,
        None => 0,
    }
}

// ---- layers ----

/// Where a layer's values come from.
#[derive(Debug, Clone, Copy, PartialEq, Eq, Structural)]
pub enum ValueSource {
    /// A projection of their own.
    Own,
    /// The keys stand for them.
    Keys,
    /// Nowhere, though the layer needs them.
    Missing,
}

pub open spec fn value_adds(p: Seq<char>, v: ValueSource) -> Seq<ReqView> {
    match v {
        ValueSource::Own => seq![ReqView::Proj(part(p, ".self_attn.v_proj"@))],
        ValueSource::Keys => Seq::empty(),
        ValueSource::Missing => seq![ReqView::Absent(LoadError::MissingValueProjection)],
    }
}

pub open spec fn expert_adds(p: Seq<char>) -> Seq<ReqView> {
    seq![
        ReqView::Dense(part(p, ".pre_feedforward_layernorm_2.weight"@)),
        ReqView::Dense(part(p, ".post_feedforward_layernorm_1.weight"@)),
        ReqView::Dense(part(p, ".post_feedforward_layernorm_2.weight"@)),
        ReqView::Proj(part(p, ".router.proj"@)),
        ReqView::Dense(part(p, ".router.scale"@)),
        ReqView::Dense(part(p, ".router.per_expert_scale"@)),
        ReqView::Proj(part(p, ".experts.gate_up_proj"@)),
        ReqView::Proj(part(p, ".experts.down_proj"@)),
    ]
}

/// The weights of a layer, in the order in which they are registered.
pub open spec fn layer_adds(p: Seq<char>, v: ValueSource, experts: bool) -> Seq<ReqView> {
    seq![
        ReqView::Dense(part(p, ".input_layernorm.weight"@)),
        ReqView::Proj(part(p, ".self_attn.q_proj"@)),
        ReqView::Proj(part(p, ".self_attn.k_proj"@)),
    ] + value_adds(p, v) + seq![
        ReqView::Proj(part(p, ".self_attn.o_proj"@)),
        ReqView::Dense(part(p, ".self_attn.q_norm.weight"@)),
        ReqView::Dense(part(p, ".self_attn.k_norm.weight"@)),
        ReqView::Dense(part(p, ".post_attention_layernorm.weight"@)),
        ReqView::Dense(part(p, ".pre_feedforward_layernorm.weight"@)),
        ReqView::Proj(part(p, ".mlp.gate_proj"@)),
        ReqView::Proj(part(p, ".mlp.up_proj"@)),
        ReqView::Proj(part(p, ".mlp.down_proj"@)),
        ReqView::Dense(part(p, ".post_feedforward_layernorm.weight"@)),
        ReqView::Dense(part(p, ".layer_scalar"@)),
    ] + if experts {
        expert_adds(p)
    } else {
        Seq::empty()
    }
}

/// Where the layer's call takes those weights: the experts stand before the
/// layer's scalar, which is registered before them.
pub open spec fn layer_slots(own_values: bool, experts: bool) -> Seq<Option<usize>> {
    let s: int = if own_values {
        1
    } else {
        0
    };
    seq![
        Some(0usize),
        Some(1usize),
        Some(2usize),
        if own_values {
            Some(3usize)
        } else {
            None
        },
        Some((3 + s) as usize),
        Some((4 + s) as usize),
        Some((5 + s) as usize),
        Some((6 + s) as usize),
        Some((7 + s) as usize),
        Some((8 + s) as usize),
        Some((9 + s) as usize),
        Some((10 + s) as usize),
        Some((11 + s) as usize),
    ] + (if experts {
        seq![
            Some((13 + s) as usize),
            Some((14 + s) as usize),
            Some((15 + s) as usize),
            Some((16 + s) as usize),
            Some((17 + s) as usize),
            Some((18 + s) as usize),
            Some((19 + s) as usize),
            Some((20 + s) as usize),
        ]
    } else {
        seq![None, None, None, None, None, None, None, None]
    }) + seq![Some((12 + s) as usize)]
}

pub open spec fn layer_stage(
    text: GemmaTextFacts,
    layer: GemmaLayerFacts,
    p: Seq<char>,
    v: ValueSource,
) -> StageView {
    StageView {
        call: RuntimeCall::PushLayer,
        adds: layer_adds(p, v, text.experts is Some),
        slots: layer_slots(v != ValueSource::Keys, text.experts is Some),
        arrays: Seq::empty(),
        numbers: seq![
            match layer.kv_shared {
                Some(i) => i as i32,
                None => -1i32,
            },
            text.num_attention_heads as i32,
            layer.kv_heads as i32,
            layer.head_dim as i32,
            layer.rotary_dim as i32,
            text.sliding_window as i32,
            match text.experts {
                Some(e) => or_zero(e.num_experts) as i32,
                None => 0i32,
            },
            match text.experts {
                Some(e) => or_zero(e.top_k) as i32,
                None => 0i32,
            },
        ],
        flags: seq![layer.is_full],
    }
}

fn add_layer_weights(adds: &mut Vec<Request>, p: &str, v: ValueSource, experts: bool)
    requires
        old(adds)@.len() == 0,
    ensures
        req_views(final(adds)@) == layer_adds(p@, v, experts),
{
    assert(req_views(adds@) =~= Seq::<ReqView>::empty());
    want_dense(adds, p, ".input_layernorm.weight");
    want_proj(adds, p, ".self_attn.q_proj");
    want_proj(adds, p, ".self_attn.k_proj");
    match v {
        ValueSource::Own => {
            want_proj(adds, p, ".self_attn.v_proj");
        },
        ValueSource::Keys => {},
        ValueSource::Missing => {
            push_request(adds, Request::Absent(LoadError::MissingValueProjection));
        },
    }
    want_proj(adds, p, ".self_attn.o_proj");
    want_dense(adds, p, ".self_attn.q_norm.weight");
    want_dense(adds, p, ".self_attn.k_norm.weight");
    want_dense(adds, p, ".post_attention_layernorm.weight");
    want_dense(adds, p, ".pre_feedforward_layernorm.weight");
    want_proj(adds, p, ".mlp.gate_proj");
    want_proj(adds, p, ".mlp.up_proj");
    want_proj(adds, p, ".mlp.down_proj");
    want_dense(adds, p, ".post_feedforward_layernorm.weight");
    want_dense(adds, p, ".layer_scalar");
    if experts {
        want_dense(adds, p, ".pre_feedforward_layernorm_2.weight");
        want_dense(adds, p, ".post_feedforward_layernorm_1.weight");
        want_dense(adds, p, ".post_feedforward_layernorm_2.weight");
        want_proj(adds, p, ".router.proj");
        want_dense(adds, p, ".router.scale");
        want_dense(adds, p, ".router.per_expert_scale");
        want_proj(adds, p, ".experts.gate_up_proj");
        want_proj(adds, p, ".experts.down_proj");
    }
    assert(req_views(adds@) =~= layer_adds(p@, v, experts));
}

fn add_layer_slots(own_values: bool, experts: bool) -> (slots: Vec<Option<usize>>)
    ensures
        slots@ == layer_slots(own_values, experts),
{
    let s: usize = if own_values {
        1
    } else {
        0
    };
    let mut slots: Vec<Option<usize>> = Vec::new();
    slots.push(Some(0));
    slots.push(Some(1));
    slots.push(Some(2));
    slots.push(
        if own_values {
            Some(3)
        } else {
            None
        },
    );
    let mut i: usize = 3;
    while i < 12
        invariant
            3 <= i <= 12,
            s == if own_values {
                1usize
            } else {
                0
            },
            slots@.len() == i + 1,
            slots@.take(4) == seq![
                Some(0usize),
                Some(1usize),
                Some(2usize),
                if own_values {
                    Some(3usize)
                } else {
                    None
                },
            ],
            forall|k: int| 4 <= k < i + 1 ==> #[trigger] slots@[k] == Some((k - 1 + s) as usize),
        decreases 12 - i,
    {
        slots.push(Some(i + s));
        i = i + 1;
        assert(slots@.take(4) =~= slots@.take(i as int).take(4));
    }
    assert(forall|k: int| 0 <= k < 4 ==> #[trigger] slots@[k] == slots@.take(4)[k]);
    let ghost front = slots@;
    let mut j: usize = 13;
    while j < 21
        invariant
            13 <= j <= 21,
            s <= 1,
            front.len() == 13,
            slots@.len() == j,
            slots@.take(13) == front,
            forall|k: int|
                13 <= k < j ==> #[trigger] slots@[k] == if experts {
                    Some((k + s) as usize)
                } else {
                    None
                },
        decreases 21 - j,
    {
        slots.push(
            if experts {
                Some(j + s)
            } else {
                None
            },
        );
        j = j + 1;
        assert(slots@.take(13) =~= slots@.take(j - 1).take(13));
    }
    assert(forall|k: int| 0 <= k < 13 ==> #[trigger] slots@[k] == slots@.take(13)[k]);
    slots.push(Some(12 + s));
    assert(slots@ =~= layer_slots(own_values, experts));
    slots
}

/// The stage that registers a layer.
pub fn build_layer_stage(
    text: &GemmaTextFacts,
    layer: &GemmaLayerFacts,
    p: &str,
    v: ValueSource,
) -> (s: Stage)
    ensures
        s@ == layer_stage(*text, *layer, p@, v),
{
    let experts: bool = text.experts.is_some();
    let own: bool = match v {
        ValueSource::Keys => false,
        _ => true,
    };
    let mut s: Stage = Stage::new(RuntimeCall::PushLayer);
    add_layer_weights(&mut s.adds, p, v, experts);
    s.slots = add_layer_slots(own, experts);
    s.numbers.push(
        match layer.kv_shared {
            Some(i) => low_i32(i),
            None => -1,
        },
    );
    s.numbers.push(low_i32(text.num_attention_heads));
    s.numbers.push(low_i32(layer.kv_heads));
    s.numbers.push(low_i32(layer.head_dim));
    s.numbers.push(low_i32(layer.rotary_dim));
    s.numbers.push(low_i32(text.sliding_window));
    let counts: (usize, usize) = match text.experts {
        Some(e) => (get_or_zero(e.num_experts), get_or_zero(e.top_k)),
        None => (0, 0),
    };
    s.numbers.push(low_i32(counts.0));
    s.numbers.push(low_i32(counts.1));
    s.flags.push(layer.is_full);
    assert(s@ =~= layer_stage(*text, *layer, p@, v));
    s
}

spec fn slot_at(j: int, own: bool, experts: bool) -> Option<usize> {
    let s: int = if own {
        1
    } else {
        0
    };
    if j < 3 {
        Some(j as usize)
    } else if j == 3 {
        if own {
            Some(3)
        } else {
            None
        }
    } else if j < 13 {
        Some((j - 1 + s) as usize)
    } else if j < 21 {
        if experts {
            Some((j + s) as usize)
        } else {
            None
        }
    } else {
        Some((12 + s) as usize)
    }
}

/// A layer that can be registered uses each of its weights once.
pub proof fn layer_is_wired(
    text: GemmaTextFacts,
    layer: GemmaLayerFacts,
    p: Seq<char>,
    v: ValueSource,
)
    ensures
        wired(layer_stage(text, layer, p, v)),
{
    let st = layer_stage(text, layer, p, v);
    let own = v != ValueSource::Keys;
    let experts = text.experts is Some;
    let s: int = if own {
        1
    } else {
        0
    };
    assert(st.adds.len() == 13 + s + if experts {
        8int
    } else {
        0
    });
    assert(st.slots.len() == 22);
    assert forall|j: int| 0 <= j < 22 implies #[trigger] st.slots[j] == slot_at(j, own, experts) by {
    }
    assert forall|i: int| 0 <= i < st.adds.len() implies #[trigger] has_slot(st, i) by {
        let j = if i < 3 {
            i
        } else if own && i == 3 {
            3
        } else if i < 12 + s {
            i + 1 - s
        } else if i == 12 + s {
            21
        } else {
            i - s
        };
        assert(st.slots[j] == Some(i as usize));
    }
    assert forall|j: int| 0 <= j < st.slots.len() implies match #[trigger] st.slots[j] {
        Some(i) => i < st.adds.len(),
        None => true,
    } by {
        assert(st.slots[j] == slot_at(j, own, experts));
    }
    assert forall|j: int, k: int|
        0 <= j < k < st.slots.len() && st.slots[j] is Some implies #[trigger] st.slots[j]
        != #[trigger] st.slots[k] by {
        assert(st.slots[j] == slot_at(j, own, experts));
        assert(st.slots[k] == slot_at(k, own, experts));
    }
}

pub open spec fn ple_stage(p: Seq<char>, idx: usize) -> StageView {
    StageView {
        call: RuntimeCall::SetLayerPle,
        adds: seq![
            ReqView::Proj(part(p, ".per_layer_input_gate"@)),
            ReqView::Proj(part(p, ".per_layer_projection"@)),
            ReqView::Dense(part(p, ".post_per_layer_input_norm.weight"@)),
        ],
        slots: in_order(3),
        arrays: Seq::empty(),
        numbers: seq![idx as i32],
        flags: Seq::empty(),
    }
}

/// The stage that gives a layer its own embeddings.
pub fn build_ple_stage(p: &str, idx: usize) -> (s: Stage)
    ensures
        s@ == ple_stage(p@, idx),
{
    let mut s: Stage = Stage::new(RuntimeCall::SetLayerPle);
    want_proj(&mut s.adds, p, ".per_layer_input_gate");
    want_proj(&mut s.adds, p, ".per_layer_projection");
    want_dense(&mut s.adds, p, ".post_per_layer_input_norm.weight");
    s.slots_in_order();
    s.numbers.push(low_i32(idx));
    assert(s@ =~= ple_stage(p@, idx));
    s
}

pub open spec fn config_stage(text: GemmaTextFacts) -> StageView {
    StageView {
        numbers: seq![text.hidden_size as i32, text.vocab_size as i32],
        ..bare(RuntimeCall::SetConfig)
    }
}

pub fn build_config_stage(text: &GemmaTextFacts) -> (s: Stage)
    ensures
        s@ == config_stage(*text),
{
    let mut s: Stage = Stage::new(RuntimeCall::SetConfig);
    s.numbers.push(low_i32(text.hidden_size));
    s.numbers.push(low_i32(text.vocab_size));
    assert(s@ =~= config_stage(*text));
    s
}

/// Embedding, output head and final norm. The head is the transposed
/// embedding, or a projection of the same weights.
pub open spec fn embed_stage(prefix: Seq<char>, tied: bool) -> StageView {
    StageView {
        call: RuntimeCall::SetEmbed,
        adds: seq![
            ReqView::Embed(part(prefix, ".embed_tokens"@)),
            if tied {
                ReqView::Tied(part(prefix, ".embed_tokens"@))
            } else {
                ReqView::Proj(part(prefix, ".embed_tokens"@))
            },
            ReqView::Dense(part(prefix, ".norm.weight"@)),
        ],
        slots: in_order(3),
        arrays: Seq::empty(),
        numbers: Seq::empty(),
        flags: Seq::empty(),
    }
}

pub fn build_embed_stage(prefix: &str, tied: bool) -> (s: Stage)
    ensures
        s@ == embed_stage(prefix@, tied),
{
    let mut s: Stage = Stage::new(RuntimeCall::SetEmbed);
    want_embed(&mut s.adds, prefix, ".embed_tokens");
    if tied {
        push_request(&mut s.adds, Request::Tied(part_name(prefix, ".embed_tokens")));
    } else {
        want_proj(&mut s.adds, prefix, ".embed_tokens");
    }
    want_dense(&mut s.adds, prefix, ".norm.weight");
    s.slots_in_order();
    assert(s@ =~= embed_stage(prefix@, tied));
    s
}

pub open spec fn conditioning_flag_stage(required: bool) -> StageView {
    StageView { flags: seq![required], ..bare(RuntimeCall::RequireSelfConditioning) }
}

pub fn build_conditioning_flag_stage(required: bool) -> (s: Stage)
    ensures
        s@ == conditioning_flag_stage(required),
{
    let mut s: Stage = Stage::new(RuntimeCall::RequireSelfConditioning);
    s.flags.push(required);
    assert(s@ =~= conditioning_flag_stage(required));
    s
}

pub open spec fn per_layer_stage(
    text: GemmaTextFacts,
    facts: PerLayerFacts,
    prefix: Seq<char>,
) -> StageView {
    StageView {
        call: RuntimeCall::SetPerLayerEmbeddings,
        adds: seq![
            ReqView::Embed(part(prefix, ".embed_tokens_per_layer"@)),
            ReqView::Proj(part(prefix, ".per_layer_model_projection"@)),
            ReqView::Dense(part(prefix, ".per_layer_projection_norm.weight"@)),
        ],
        slots: in_order(3),
        arrays: Seq::empty(),
        numbers: seq![
            text.layers@.len() as usize as i32,
            or_zero(facts.hidden_size) as i32,
            match facts.vocab_size {
                Some(v) => v as i32,
                None => text.vocab_size as i32,
            },
        ],
        flags: Seq::empty(),
    }
}

/// The stage that registers the embeddings of all layers.
pub fn build_per_layer_stage(text: &GemmaTextFacts, facts: &PerLayerFacts, prefix: &str) -> (s:
    Stage)
    ensures
        s@ == per_layer_stage(*text, *facts, prefix@),
{
    let mut s: Stage = Stage::new(RuntimeCall::SetPerLayerEmbeddings);
    want_embed(&mut s.adds, prefix, ".embed_tokens_per_layer");
    want_proj(&mut s.adds, prefix, ".per_layer_model_projection");
    want_dense(&mut s.adds, prefix, ".per_layer_projection_norm.weight");
    s.slots_in_order();
    s.numbers.push(low_i32(text.layers.len()));
    s.numbers.push(low_i32(get_or_zero(facts.hidden_size)));
    s.numbers.push(
        match facts.vocab_size {
            Some(v) => low_i32(v),
            None => low_i32(text.vocab_size),
        },
    );
    assert(s@ =~= per_layer_stage(*text, *facts, prefix@));
    s
}

// ---- the program of a block-diffusion model ----

pub open spec fn diffusion_values(t: Infos, p: Seq<char>, is_full: bool) -> ValueSource {
    if t.contains_key(part(p, ".self_attn.v_proj.weight"@)) {
        ValueSource::Own
    } else if is_full {
        ValueSource::Keys
    } else {
        ValueSource::Missing
    }
}

/// Configuration, embedding and, where there are any, per-layer embeddings.
pub open spec fn opening(text: GemmaTextFacts, prefix: Seq<char>, tied: bool) -> Seq<StageView> {
    seq![
        config_stage(text),
        embed_stage(prefix, tied),
        conditioning_flag_stage(!tied),
    ] + match text.per_layer {
        Some(f) => seq![per_layer_stage(text, f, prefix)],
        None => Seq::empty(),
    }
}

/// Starts a program: configuration, embedding, whether the model conditions
/// on itself, per-layer embeddings. A model with a tied head does not.
pub fn build_opening(text: &GemmaTextFacts, prefix: &str, tied: bool) -> (program: Vec<Stage>)
    ensures
        stage_views(program@) == opening(*text, prefix@, tied),
{
    let mut program: Vec<Stage> = Vec::new();
    assert(stage_views(program@) =~= Seq::<StageView>::empty());
    push_stage(&mut program, build_config_stage(text));
    push_stage(&mut program, build_embed_stage(prefix, tied));
    push_stage(&mut program, build_conditioning_flag_stage(!tied));
    match &text.per_layer {
        Some(f) => {
            push_stage(&mut program, build_per_layer_stage(text, f, prefix));
        },
        None => {},
    }
    assert(stage_views(program@) =~= opening(*text, prefix@, tied));
    program
}

pub open spec fn layer_prefix(prefix: Seq<char>, i: nat) -> Seq<char> {
    indexed(part(prefix, ".layers."@), i)
}

/// A layer's own stage, and that of its embeddings where it has any.
pub open spec fn pushed_layer(
    text: GemmaTextFacts,
    prefix: Seq<char>,
    i: nat,
    v: ValueSource,
) -> Seq<StageView> {
    let p = layer_prefix(prefix, i);
    seq![layer_stage(text, text.layers@[i as int], p, v)] + if text.per_layer is Some {
        seq![ple_stage(p, i as usize)]
    } else {
        Seq::empty()
    }
}

pub open spec fn diffusion_layers(text: GemmaTextFacts, t: Infos, prefix: Seq<char>, n: nat) -> Seq<
    StageView,
>
    decreases n,
{
    if n == 0 {
        Seq::empty()
    } else {
        let i = (n - 1) as nat;
        diffusion_layers(text, t, prefix, i) + pushed_layer(
            text,
            prefix,
            i,
            diffusion_values(t, layer_prefix(prefix, i), text.layers@[i as int].is_full),
        )
    }
}

pub open spec fn conditioning_stage(prefix: Seq<char>) -> StageView {
    StageView {
        call: RuntimeCall::SetSelfConditioning,
        adds: seq![
            ReqView::Dense(part(prefix, ".self_conditioning.pre_norm.weight"@)),
            ReqView::Proj(part(prefix, ".self_conditioning.gate_proj"@)),
            ReqView::Proj(part(prefix, ".self_conditioning.up_proj"@)),
            ReqView::Proj(part(prefix, ".self_conditioning.down_proj"@)),
        ],
        slots: in_order(4),
        arrays: Seq::empty(),
        numbers: Seq::empty(),
        flags: Seq::empty(),
    }
}

pub open spec fn diffusion_program(text: GemmaTextFacts, t: Infos) -> Seq<StageView> {
    let prefix = "model.decoder"@;
    opening(text, prefix, false) + diffusion_layers(text, t, prefix, text.layers@.len()) + seq![
        conditioning_stage(prefix),
        bare(RuntimeCall::Finalize),
    ]
}

/// Collects the stages of a program.
#[derive(Debug)]
pub struct CppDiffusionGemmaBuilder {
    pub program: Vec<Stage>,
}

impl CppDiffusionGemmaBuilder {
    /// Adds a layer. One without a value projection reads its keys as values
    /// if it sees all tokens; otherwise the projection is missing.
    pub fn push_layer(
        &mut self,
        text: &GemmaTextFacts,
        tensors: &TensorMap<ArrayInfo>,
        prefix: &str,
        i: usize,
    )
        requires
            i < text.layers@.len(),
        ensures
            stage_views(final(self).program@) == stage_views(old(self).program@) + pushed_layer(
                *text,
                prefix@,
                i as nat,
                diffusion_values(
                    tensors@,
                    layer_prefix(prefix@, i as nat),
                    text.layers@[i as int].is_full,
                ),
            ),
    {
        let base: String = part_name(prefix, ".layers.");
        let p: String = indexed_name(base.as_str(), i);
        let own: String = part_name(p.as_str(), ".self_attn.v_proj.weight");
        let v: ValueSource = if tensors.contains_key(own.as_str()) {
            ValueSource::Own
        } else if text.layers[i].is_full {
            ValueSource::Keys
        } else {
            ValueSource::Missing
        };
        let ghost before = stage_views(self.program@);
        push_stage(&mut self.program, build_layer_stage(text, &text.layers[i], p.as_str(), v));
        if text.per_layer.is_some() {
            push_stage(&mut self.program, build_ple_stage(p.as_str(), i));
        }
        assert(stage_views(self.program@) =~= before + pushed_layer(*text, prefix@, i as nat, v));
    }

    fn set_self_conditioning(&mut self, prefix: &str)
        ensures
            stage_views(final(self).program@) == stage_views(old(self).program@).push(
                conditioning_stage(prefix@),
            ),
    {
        let mut s: Stage = Stage::new(RuntimeCall::SetSelfConditioning);
        want_dense(&mut s.adds, prefix, ".self_conditioning.pre_norm.weight");
        want_proj(&mut s.adds, prefix, ".self_conditioning.gate_proj");
        want_proj(&mut s.adds, prefix, ".self_conditioning.up_proj");
        want_proj(&mut s.adds, prefix, ".self_conditioning.down_proj");
        s.slots_in_order();
        assert(s@ =~= conditioning_stage(prefix@));
        push_stage(&mut self.program, s);
    }

    /// The program that registers a whole model.
    pub fn populate(text: &GemmaTextFacts, tensors: &TensorMap<ArrayInfo>) -> (b: Self)
        ensures
            stage_views(b.program@) == diffusion_program(*text, tensors@),
    {
        let prefix: &str = "model.decoder";
        let mut b = CppDiffusionGemmaBuilder { program: build_opening(text, prefix, false) };
        let ghost start = stage_views(b.program@);
        let mut i: usize = 0;
        assert(start + Seq::<StageView>::empty() =~= start);
        while i < text.layers.len()
            invariant
                i <= text.layers@.len(),
                stage_views(b.program@) == start + diffusion_layers(
                    *text,
                    tensors@,
                    prefix@,
                    i as nat,
                ),
            decreases text.layers@.len() - i,
        {
            b.push_layer(text, tensors, prefix, i);
            i = i + 1;
            assert(stage_views(b.program@) =~= start + diffusion_layers(
                *text,
                tensors@,
                prefix@,
                i as nat,
            ));
        }
        b.set_self_conditioning(prefix);
        push_stage(&mut b.program, Stage::new(RuntimeCall::Finalize));
        assert(stage_views(b.program@) =~= diffusion_program(*text, tensors@));
        b
    }
}

// ---- generation ----

#[derive(Debug, Clone, Copy, PartialEq, Eq, Structural)]
pub enum GenerateError {
    Token { token: u32 },
    MaxNewTokens,
    CanvasLength,
    DenoisingSteps,
    StabilityThreshold,
    ImageCount { count: usize },
    ImageChannels { channels: usize },
    ImageBuffer,
    ImageHeight,
    ImageWidth,
    ImageSoftTokens,
    NegativeLength,
    LengthExceedsBuffer { len: usize, buffer: usize },
    ValidLength { valid: usize, canvas: usize },
}

pub open spec fn fits_i32(n: usize) -> bool {
    n <= i32::MAX
}

fn small(n: usize) -> (r: Option<i32>)
    ensures
        r == if fits_i32(n) {
            Some(n as i32)
        } else {
            None
        },
{
    if n <= 0x7fff_ffff {
        Some(n as i32)
    } else {
        None
    }
}

/// The first token among the first `n` that the runtime cannot take.
pub open spec fn token_fault(tokens: Seq<u32>, n: nat) -> Option<u32>
    decreases n,
{
    if n == 0 {
        None
    } else {
        match token_fault(tokens, (n - 1) as nat) {
            Some(t) => Some(t),
            None => if tokens[n - 1] > i32::MAX {
                Some(tokens[n - 1])
            } else {
                None
            },
        }
    }
}

proof fn lemma_token_fault(tokens: Seq<u32>, k: nat, n: nat)
    requires
        k <= n,
        token_fault(tokens, k) is Some,
    ensures
        token_fault(tokens, n) == token_fault(tokens, k),
    decreases n,
{
    if k < n {
        lemma_token_fault(tokens, k, (n - 1) as nat);
    }
}

/// Token ids as the runtime takes them.
pub fn i32_tokens(tokens: &Vec<u32>) -> (r: Result<Vec<i32>, GenerateError>)
    ensures
        match r {
            Ok(v) => token_fault(tokens@, tokens@.len()) is None && v@ == tokens@.map_values(
                |t: u32| t as i32,
            ),
            Err(e) => token_fault(tokens@, tokens@.len()) is Some && e == GenerateError::Token {
                token: token_fault(tokens@, tokens@.len())->0,
            },
        },
{
    let mut out: Vec<i32> = Vec::new();
    let mut i: usize = 0;
    while i < tokens.len()
        invariant
            i <= tokens@.len(),
            token_fault(tokens@, i as nat) is None,
            out@ == tokens@.take(i as int).map_values(|t: u32| t as i32),
        decreases tokens@.len() - i,
    {
        let t: u32 = tokens[i];
        if t > 0x7fff_ffff {
            proof {
                lemma_token_fault(tokens@, (i + 1) as nat, tokens@.len());
            }
            return Err(GenerateError::Token { token: t });
        }
        out.push(t as i32);
        i = i + 1;
        assert(out@ =~= tokens@.take(i as int).map_values(|t: u32| t as i32));
    }
    assert(tokens@.take(i as int) =~= tokens@);
    Ok(out)
}

/// Sizes of a generation as the runtime takes them.
#[derive(Debug, Clone, Copy, PartialEq, Eq, Structural)]
pub struct DiffusionArgs {
    pub max_new_tokens: i32,
    pub canvas_length: i32,
    pub max_steps: i32,
    pub stability_threshold: i32,
}

/// Checks the sizes of a block-diffusion generation, in order.
pub fn diffusion_args(
    max_new_tokens: usize,
    canvas_length: usize,
    max_steps: usize,
    stability_threshold: usize,
) -> (r: Result<DiffusionArgs, GenerateError>)
    ensures
        r == if !fits_i32(max_new_tokens) {
            Err::<DiffusionArgs, GenerateError>(GenerateError::MaxNewTokens)
        } else if !fits_i32(canvas_length) {
            Err(GenerateError::CanvasLength)
        } else if !fits_i32(max_steps) {
            Err(GenerateError::DenoisingSteps)
        } else if !fits_i32(stability_threshold) {
            Err(GenerateError::StabilityThreshold)
        } else {
            Ok(
                DiffusionArgs {
                    max_new_tokens: max_new_tokens as i32,
                    canvas_length: canvas_length as i32,
                    max_steps: max_steps as i32,
                    stability_threshold: stability_threshold as i32,
                },
            )
        },
{
    let a: i32 = match small(max_new_tokens) {
        Some(a) => a,
        None => {
            return Err(GenerateError::MaxNewTokens);
        },
    };
    let b: i32 = match small(canvas_length) {
        Some(b) => b,
        None => {
            return Err(GenerateError::CanvasLength);
        },
    };
    let c: i32 = match small(max_steps) {
        Some(c) => c,
        None => {
            return Err(GenerateError::DenoisingSteps);
        },
    };
    let d: i32 = match small(stability_threshold) {
        Some(d) => d,
        None => {
            return Err(GenerateError::StabilityThreshold);
        },
    };
    Ok(DiffusionArgs { max_new_tokens: a, canvas_length: b, max_steps: c, stability_threshold: d })
}

/// Checks the size of a causal generation.
pub fn causal_args(max_new_tokens: usize) -> (r: Result<i32, GenerateError>)
    ensures
        r == if fits_i32(max_new_tokens) {
            Ok::<i32, GenerateError>(max_new_tokens as i32)
        } else {
            Err(GenerateError::MaxNewTokens)
        },
{
    match small(max_new_tokens) {
        Some(a) => Ok(a),
        None => Err(GenerateError::MaxNewTokens),
    }
}

/// An image's sizes.
#[derive(Debug, Clone, Copy, PartialEq, Eq, Structural)]
pub struct ImageFacts {
    pub channels: usize,
    pub height: usize,
    pub width: usize,
    pub pixels: usize,
    pub soft_token_count: usize,
}

/// Sizes of a generation with an image as the runtime takes them.
#[derive(Debug, Clone, Copy, PartialEq, Eq, Structural)]
pub struct ImageArgs {
    pub max_new_tokens: i32,
    pub height: i32,
    pub width: i32,
    pub soft_tokens: i32,
}

pub open spec fn image_args(images: Seq<ImageFacts>, max_new_tokens: usize) -> Result<
    ImageArgs,
    GenerateError,
> {
    if images.len() != 1 {
        Err(GenerateError::ImageCount { count: images.len() as usize })
    } else if images[0].channels != 3 {
        Err(GenerateError::ImageChannels { channels: images[0].channels })
    } else if images[0].pixels != 3 * images[0].height * images[0].width {
        Err(GenerateError::ImageBuffer)
    } else if !fits_i32(max_new_tokens) {
        Err(GenerateError::MaxNewTokens)
    } else if !fits_i32(images[0].height) {
        Err(GenerateError::ImageHeight)
    } else if !fits_i32(images[0].width) {
        Err(GenerateError::ImageWidth)
    } else if !fits_i32(images[0].soft_token_count) {
        Err(GenerateError::ImageSoftTokens)
    } else {
        Ok(
            ImageArgs {
                max_new_tokens: max_new_tokens as i32,
                height: images[0].height as i32,
                width: images[0].width as i32,
                soft_tokens: images[0].soft_token_count as i32,
            },
        )
    }
}

/// Checks a generation with an image: exactly one, in three channels, with a
/// value for each of its pixels, and sizes that the runtime can take.
pub fn generate_multimodal(images: &Vec<ImageFacts>, max_new_tokens: usize) -> (r: Result<
    ImageArgs,
    GenerateError,
>)
    ensures
        r == image_args(images@, max_new_tokens),
{
    if images.len() != 1 {
        return Err(GenerateError::ImageCount { count: images.len() });
    }
    let image: ImageFacts = images[0];
    if image.channels != 3 {
        return Err(GenerateError::ImageChannels { channels: image.channels });
    }
    let rows: u128 = 3 * (image.height as u128);
    let fits: bool = match rows.checked_mul(image.width as u128) {
        Some(n) => n == image.pixels as u128,
        None => false,
    };
    if !fits {
        return Err(GenerateError::ImageBuffer);
    }
    let a: i32 = match small(max_new_tokens) {
        Some(a) => a,
        None => {
            return Err(GenerateError::MaxNewTokens);
        },
    };
    let h: i32 = match small(image.height) {
        Some(h) => h,
        None => {
            return Err(GenerateError::ImageHeight);
        },
    };
    let w: i32 = match small(image.width) {
        Some(w) => w,
        None => {
            return Err(GenerateError::ImageWidth);
        },
    };
    let s: i32 = match small(image.soft_token_count) {
        Some(s) => s,
        None => {
            return Err(GenerateError::ImageSoftTokens);
        },
    };
    Ok(ImageArgs { max_new_tokens: a, height: h, width: w, soft_tokens: s })
}

#[derive(Debug, Clone, Copy, PartialEq, Eq, Structural)]
pub enum FinishReason {
    Stop,
    Length,
}

#[derive(Debug, Clone, Copy, PartialEq, Eq, Structural)]
pub struct GenerateStats {
    pub blocks: usize,
    pub denoise_steps: usize,
    pub forced_commits: usize,
    pub adaptive_commits: usize,
}

#[derive(Debug)]
pub struct GenerateOutput {
    pub tokens: Vec<u32>,
    pub finish: FinishReason,
    pub stats: GenerateStats,
}

/// What the runtime wrote beside the tokens.
#[derive(Debug, Clone, Copy, PartialEq, Eq, Structural)]
pub struct GenerateReply {
    pub len: i32,
    pub finish: i32,
    pub blocks: i32,
    pub steps: i32,
    pub forced: i32,
    pub adaptive: i32,
}

pub open spec fn count_or_zero(n: i32) -> usize {
    if n < 0 {
        0
    } else {
        n as usize
    }
}

fn to_count(n: i32) -> (r: usize)
    ensures
        r == count_or_zero(n),
{
    if n < 0 {
        0
    } else {
        n as usize
    }
}

pub open spec fn length_of(buffer: nat, len: i32) -> Result<nat, GenerateError> {
    if len < 0 {
        Err(GenerateError::NegativeLength)
    } else if len > buffer {
        Err(
            GenerateError::LengthExceedsBuffer { len: len as usize, buffer: buffer as usize },
        )
    } else {
        Ok(len as nat)
    }
}

pub open spec fn finish_of(code: i32) -> FinishReason {
    if code == 1 {
        FinishReason::Stop
    } else {
        FinishReason::Length
    }
}

fn take_output(buffer: Vec<u32>, reply: &GenerateReply, stats: GenerateStats) -> (r: Result<
    GenerateOutput,
    GenerateError,
>)
    ensures
        match (r, length_of(buffer@.len(), reply.len)) {
            (Ok(o), Ok(n)) => o.tokens@ == buffer@.take(n as int) && o.finish == finish_of(
                reply.finish,
            ) && o.stats == stats,
            (Err(e), Err(f)) => e == f,
            _ => false,
        },
{
    if reply.len < 0 {
        return Err(GenerateError::NegativeLength);
    }
    let n: usize = reply.len as usize;
    if n > buffer.len() {
        return Err(GenerateError::LengthExceedsBuffer { len: n, buffer: buffer.len() });
    }
    let mut tokens: Vec<u32> = buffer;
    tokens.truncate(n);
    let finish: FinishReason = if reply.finish == 1 {
        FinishReason::Stop
    } else {
        FinishReason::Length
    };
    assert(tokens@ =~= buffer@.take(n as int));
    Ok(GenerateOutput { tokens, finish, stats })
}

/// The result of a block-diffusion generation.
pub fn diffusion_output(buffer: Vec<u32>, reply: &GenerateReply) -> (r: Result<
    GenerateOutput,
    GenerateError,
>)
    ensures
        match (r, length_of(buffer@.len(), reply.len)) {
            (Ok(o), Ok(n)) => o.tokens@ == buffer@.take(n as int) && o.finish == finish_of(
                reply.finish,
            ) && o.stats == (GenerateStats {
                blocks: count_or_zero(reply.blocks),
                denoise_steps: count_or_zero(reply.steps),
                forced_commits: count_or_zero(reply.forced),
                adaptive_commits: count_or_zero(reply.adaptive),
            }),
            (Err(e), Err(f)) => e == f,
            _ => false,
        },
{
    let stats = GenerateStats {
        blocks: to_count(reply.blocks),
        denoise_steps: to_count(reply.steps),
        forced_commits: to_count(reply.forced),
        adaptive_commits: to_count(reply.adaptive),
    };
    take_output(buffer, reply, stats)
}

/// The result of a causal generation: one block and one step per token.
pub fn finalize_output(buffer: Vec<u32>, len: i32, finish: i32) -> (r: Result<
    GenerateOutput,
    GenerateError,
>)
    ensures
        match (r, length_of(buffer@.len(), len)) {
            (Ok(o), Ok(n)) => o.tokens@ == buffer@.take(n as int) && o.finish == finish_of(finish)
                && o.stats == (GenerateStats {
                blocks: n as usize,
                denoise_steps: n as usize,
                forced_commits: 0,
                adaptive_commits: 0,
            }),
            (Err(e), Err(f)) => e == f,
            _ => false,
        },
{
    let stats = GenerateStats {
        blocks: to_count(len),
        denoise_steps: to_count(len),
        forced_commits: 0,
        adaptive_commits: 0,
    };
    let reply = GenerateReply { len, finish, blocks: 0, steps: 0, forced: 0, adaptive: 0 };
    take_output(buffer, &reply, stats)
}

/// Whether a canvas has room for its valid part.
pub fn check_canvas(valid_len: usize, canvas: usize) -> (r: Result<(), GenerateError>)
    ensures
        r == if valid_len <= canvas {
            Ok::<(), GenerateError>(())
        } else {
            Err(GenerateError::ValidLength { valid: valid_len, canvas })
        },
{
    if valid_len <= canvas {
        Ok(())
    } else {
        Err(GenerateError::ValidLength { valid: valid_len, canvas })
    }
}

} // verus!
