//! What a compiled model holds once its program has run.
//!
//! The runtime keeps what each call hands it: a pushed layer gets the weights
//! in its call's places, and what is set behind it belongs to that layer. The
//! laws here say, place by place and by the names in the checkpoint, what every
//! family's program leaves in the model.
use vstd::prelude::*;

#[allow(unused_imports)]
use crate::metal::config::{
    ConfigView, MetalGemma4VisionConfig, QuantView,
};
#[allow(unused_imports)]
use crate::metal::deepseek_ocr::{
    clip_layer_stage, clip_layers, clip_stem_stage, ocr_config_stage, ocr_embed_stage,
    ocr_layer_stage, ocr_layers, ocr_program, ocr_vision, ocr_vision_config_stage, projector_stage,
    sam_block_stage, sam_blocks, sam_stem_stage, OcrTextFacts, OcrVisionFacts,
};
#[allow(unused_imports)]
use crate::metal::dflash::{DFlashDraftConfig, DraftKind};
#[allow(unused_imports)]
use crate::metal::diffusion_gemma::{
    conditioning_stage, diffusion_layers, diffusion_program, diffusion_values, layer_prefix,
    layer_stage, opening, ple_stage, pushed_layer, GemmaTextFacts, ValueSource,
};
#[allow(unused_imports)]
use crate::metal::draft::{
    draft_config_stage, draft_layer, draft_layer_loads, draft_layer_stage, draft_layers,
    draft_layers_loads, draft_loads, draft_offset, draft_program, fc_stage, mtp_norms_stage,
};
#[allow(unused_imports)]
use crate::metal::gemma4::{
    gemma4_program, text_layers, vision_config_stage, vision_layer_stage, vision_layers,
    vision_prefix,
};
#[allow(unused_imports)]
use crate::metal::lfm2::{
    dense_ffn_loads, expert_loads, expert_store, lfm2_fault, lfm2_head, lfm2_layer,
    lfm2_layer_loads, lfm2_layer_stage, lfm2_layers, lfm2_layers_loads, lfm2_loads, lfm2_moe_stage,
    lfm2_program, moe_ffn_loads, operator_loads, Lfm2Facts, };
#[allow(unused_imports)]
use crate::metal::loader::{part, proj_plan, LoadError, ProjPlan};
#[allow(unused_imports)]
use crate::metal::qwen35::{
    dense_mlp_loads, expert_arrays, expert_fault, full_attn_loads, has_moe, head_of, head_stages,
    layer_loads, layer_name, layer_stages, layers_loads, layers_stages, linear_attn_loads, moe_loads,
    moe_stage, norm, qwen35_fault, qwen35_loads, qwen35_program, rows_of, text_prefix,
};
#[allow(unused_imports)]
use crate::metal::register::{
    bare, faults_come_in_order, first_fault, request_fault, Infos, ReqView, RuntimeCall, StageView,
};
#[allow(unused_imports)]
use crate::metal::mlx::Dtype;
#[allow(unused_imports)]
use crate::text::decimal;

verus! {

/// What one call hands to the runtime: the weight in each of its places, if
/// any, its arrays, numbers and flags.
#[verifier::ext_equal]
pub struct Given {
    pub call: RuntimeCall,
    pub weights: Seq<Option<ReqView>>,
    pub arrays: Seq<ReqView>,
    pub numbers: Seq<i32>,
    pub flags: Seq<bool>,
}

pub open spec fn given(s: StageView) -> Given {
    Given {
        call: s.call,
        weights: Seq::new(
            s.slots.len(),
            |j: int|
                match s.slots[j] {
                    Some(i) => Some(s.adds[i as int]),
                    None => None,
                },
        ),
        arrays: s.arrays,
        numbers: s.numbers,
        flags: s.flags,
    }
}

/// A layer: what it was pushed with, and what was set on it behind that.
#[verifier::ext_equal]
pub struct Layer {
    pub own: Given,
    pub more: Seq<Given>,
}

#[verifier::ext_equal]
pub struct Compiled {
    /// What was set on the model as a whole.
    pub settings: Seq<Given>,
    pub layers: Seq<Layer>,
    pub vision_layers: Seq<Given>,
    pub sam_blocks: Seq<Given>,
    pub clip_layers: Seq<Given>,
    pub ready: bool,
    /// A call came that the model could not take: on a layer before there was
    /// one, or once the model was ready.
    pub refused: bool,
}

pub open spec fn untouched() -> Compiled {
    Compiled {
        settings: Seq::empty(),
        layers: Seq::empty(),
        vision_layers: Seq::empty(),
        sam_blocks: Seq::empty(),
        clip_layers: Seq::empty(),
        ready: false,
        refused: false,
    }
}

/// The model behind one call.
pub open spec fn called(m: Compiled, s: StageView) -> Compiled {
    let g = given(s);
    if m.ready {
        Compiled { refused: true, ..m }
    } else {
        match s.call {
            RuntimeCall::PushLayer | RuntimeCall::PushFullAttn | RuntimeCall::PushLinearAttn
            | RuntimeCall::PushConv => Compiled {
                layers: m.layers.push(Layer { own: g, more: Seq::empty() }),
                ..m
            },
            RuntimeCall::SetLayerPle | RuntimeCall::SetSeparateProj | RuntimeCall::SetSeparateMlp
            | RuntimeCall::SetMoe | RuntimeCall::SetDenseMoe => if m.layers.len() == 0 {
                Compiled { refused: true, ..m }
            } else {
                let last = m.layers.last();
                Compiled {
                    layers: m.layers.drop_last().push(
                        Layer { own: last.own, more: last.more.push(g) },
                    ),
                    ..m
                }
            },
            RuntimeCall::PushVisionLayer => Compiled { vision_layers: m.vision_layers.push(g), ..m },
            RuntimeCall::PushSamBlock => Compiled { sam_blocks: m.sam_blocks.push(g), ..m },
            RuntimeCall::PushClipLayer => Compiled { clip_layers: m.clip_layers.push(g), ..m },
            RuntimeCall::Finalize => Compiled { ready: true, ..m },
            _ => Compiled { settings: m.settings.push(g), ..m },
        }
    }
}

/// The model behind the first `n` calls of a program.
#[verifier::opaque]
pub open spec fn run(m: Compiled, p: Seq<StageView>, n: nat) -> Compiled
    decreases n,
{
    if n == 0 {
        m
    } else {
        called(run(m, p, (n - 1) as nat), p[n - 1])
    }
}

/// What a program leaves in the model.
pub open spec fn compiled(p: Seq<StageView>) -> Compiled {
    run(untouched(), p, p.len())
}

proof fn lemma_run_head(m: Compiled, a: Seq<StageView>, b: Seq<StageView>, n: nat)
    requires
        n <= a.len(),
    ensures
        run(m, a + b, n) == run(m, a, n),
    decreases n,
{
    reveal(run);
    if n > 0 {
        lemma_run_head(m, a, b, (n - 1) as nat);
        assert((a + b)[n - 1] == a[n - 1]);
    }
}

proof fn lemma_run_tail(m: Compiled, a: Seq<StageView>, b: Seq<StageView>, n: nat)
    requires
        n <= b.len(),
    ensures
        run(m, a + b, a.len() + n) == run(run(m, a, a.len()), b, n),
    decreases n,
{
    reveal(run);
    if n == 0 {
        lemma_run_head(m, a, b, a.len());
    } else {
        lemma_run_tail(m, a, b, (n - 1) as nat);
        assert((a + b)[a.len() + n - 1] == b[n - 1]);
    }
}

/// A program joined of two runs the one behind the other.
proof fn lemma_run_join(m: Compiled, a: Seq<StageView>, b: Seq<StageView>)
    ensures
        run(m, a + b, (a + b).len()) == run(run(m, a, a.len()), b, b.len()),
{
    lemma_run_tail(m, a, b, b.len());
}

proof fn lemma_run_none(m: Compiled, p: Seq<StageView>)
    ensures
        run(m, p, 0) == m,
{
    reveal(run);
}

proof fn lemma_run_one(m: Compiled, s: StageView)
    ensures
        run(m, seq![s], 1) == called(m, s),
{
    reveal_with_fuel(run, 2);
    assert(seq![s][0] == s);
}

proof fn lemma_run_two(m: Compiled, a: StageView, b: StageView)
    ensures
        run(m, seq![a, b], 2) == called(called(m, a), b),
{
    reveal_with_fuel(run, 3);
    assert(seq![a, b][0] == a && seq![a, b][1] == b);
}

// ---- names ----

/// A name with a number in it.
pub open spec fn numbered(prefix: Seq<char>, i: nat, suffix: Seq<char>) -> Seq<char> {
    prefix + decimal(i) + suffix
}

pub open spec fn proj(name: Seq<char>) -> Option<ReqView> {
    Some(ReqView::Proj(name))
}

pub open spec fn dense(name: Seq<char>) -> Option<ReqView> {
    Some(ReqView::Dense(name))
}

pub open spec fn joined(first: Seq<char>, second: Seq<char>) -> Option<ReqView> {
    Some(ReqView::Join { first, second })
}

// ---- LFM2 ----

/// A layer of an LFM2 model has its operator's projections in the first
/// places, the joined gate and up and the down of its dense feed-forward in the
/// last two, and its norms first among the arrays.
pub open spec fn lfm2_layer_holds(f: Lfm2Facts, t: Infos, q: Option<QuantView>, i: nat, l: Layer) -> bool {
    let p = "model.layers."@;
    let kind = f.layers@[i as int].kind;
    let moe = f.layers@[i as int].moe;
    let plain = !(proj_plan(t, numbered(p, i, ".feed_forward.gate_proj"@), q) is Ok);
    let gate = numbered(
        p,
        i,
        if plain {
            ".feed_forward.w1"@
        } else {
            ".feed_forward.gate_proj"@
        },
    );
    let up = numbered(
        p,
        i,
        if plain {
            ".feed_forward.w3"@
        } else {
            ".feed_forward.up_proj"@
        },
    );
    let down = numbered(
        p,
        i,
        if plain {
            ".feed_forward.w2"@
        } else {
            ".feed_forward.down_proj"@
        },
    );
    let w = l.own.weights;
    let k: int = if kind is Conv {
        2
    } else {
        4
    };
    &&& l.own.call == if kind is Conv {
        RuntimeCall::PushConv
    } else {
        RuntimeCall::PushFullAttn
    }
    &&& w.len() == k + 2
    &&& kind is Conv ==> {
        &&& w[0] == proj(numbered(p, i, ".conv.in_proj"@))
        &&& w[1] == proj(numbered(p, i, ".conv.out_proj"@))
    }
    &&& !(kind is Conv) ==> {
        &&& w[0] == proj(numbered(p, i, ".self_attn.q_proj"@))
        &&& w[1] == proj(numbered(p, i, ".self_attn.k_proj"@))
        &&& w[2] == proj(numbered(p, i, ".self_attn.v_proj"@))
        &&& w[3] == proj(numbered(p, i, ".self_attn.out_proj"@))
    }
    &&& w[k] == if moe {
        None
    } else {
        joined(gate, up)
    }
    &&& w[k + 1] == if moe {
        None
    } else {
        proj(down)
    }
    &&& l.own.arrays == seq![
        ReqView::Dense(numbered(p, i, ".operator_norm.weight"@)),
        ReqView::Dense(numbered(p, i, ".ffn_norm.weight"@)),
    ] + if kind is Conv {
        seq![
            ReqView::Conv {
                name: numbered(p, i, ".conv.conv.weight"@),
                channels: None,
                kernel: f.conv_kernel as i32,
            },
        ]
    } else {
        seq![
            ReqView::Dense(numbered(p, i, ".self_attn.q_layernorm.weight"@)),
            ReqView::Dense(numbered(p, i, ".self_attn.k_layernorm.weight"@)),
        ]
    }
    &&& l.own.numbers == seq![
        if moe {
            0i32
        } else {
            rows_of(t, q, gate)
        },
    ]
    &&& l.own.flags == Seq::<bool>::empty()
    &&& if moe {
        l.more.len() == 1 && lfm2_experts_hold(f, t, q, i, l.more[0])
    } else {
        l.more.len() == 0
    }
}

/// A packed stack of a layer's experts.
pub open spec fn expert_stack(f: Lfm2Facts, i: nat, suffix: Seq<char>) -> Option<ReqView> {
    Some(
        ReqView::PackedStack {
            base: numbered("model.layers."@, i, suffix),
            group_size: f.moe.expert_group_size,
            bits: f.moe.expert_bits,
        },
    )
}

/// One array of each of a layer's experts.
pub open spec fn each_expert(f: Lfm2Facts, i: nat, suffix: Seq<char>) -> ReqView {
    ReqView::Experts {
        base: numbered("model.layers."@, i, ".feed_forward.experts."@),
        suffix,
        count: f.moe.num_experts,
    }
}

/// The experts of an LFM2 layer: gate, up and down, packed as weights where
/// their stacks load, else plain stacks, else one array per expert, of which
/// the third is up and the second is down.
pub open spec fn lfm2_experts_hold(f: Lfm2Facts, t: Infos, q: Option<QuantView>, i: nat, g: Given) -> bool {
    let p = "model.layers."@;
    let m = f.moe;
    let gate = numbered(p, i, ".feed_forward.switch_mlp.gate_proj"@);
    let packed = request_fault(t, q, ReqView::Stack(gate)) is None;
    let stacked = t.contains_key(gate + ".weight"@);
    &&& g.call == if packed {
        RuntimeCall::SetMoe
    } else {
        RuntimeCall::SetDenseMoe
    }
    &&& g.weights == if packed {
        seq![
            expert_stack(f, i, ".feed_forward.switch_mlp.gate_proj"@),
            expert_stack(f, i, ".feed_forward.switch_mlp.up_proj"@),
            expert_stack(f, i, ".feed_forward.switch_mlp.down_proj"@),
        ]
    } else {
        Seq::empty()
    }
    &&& g.arrays == seq![
        ReqView::DenseProj(numbered(p, i, ".feed_forward.gate"@)),
        ReqView::Dense(numbered(p, i, ".feed_forward.expert_bias"@)),
    ] + if packed {
        Seq::empty()
    } else if stacked {
        seq![
            ReqView::Dense(numbered(p, i, ".feed_forward.switch_mlp.gate_proj.weight"@)),
            ReqView::Dense(numbered(p, i, ".feed_forward.switch_mlp.up_proj.weight"@)),
            ReqView::Dense(numbered(p, i, ".feed_forward.switch_mlp.down_proj.weight"@)),
        ]
    } else {
        seq![each_expert(f, i, ".w1.weight"@), each_expert(f, i, ".w3.weight"@), each_expert(f, i, ".w2.weight"@)]
    }
    &&& g.numbers == (if packed {
        seq![m.expert_group_size, m.expert_bits]
    } else {
        Seq::empty()
    }) + seq![m.num_experts as i32, m.num_experts_per_tok as i32]
    &&& g.flags == seq![m.norm_topk_prob]
}

spec fn lfm2_pushed(f: Lfm2Facts, t: Infos, q: Option<QuantView>, i: nat) -> Layer {
    Layer {
        own: given(lfm2_layer_stage(f, t, q, i)),
        more: if f.layers@[i as int].moe {
            seq![given(lfm2_moe_stage(t, q, lfm2_layer(i), f.moe))]
        } else {
            Seq::empty()
        },
    }
}

proof fn lemma_lfm2_layers(m: Compiled, f: Lfm2Facts, t: Infos, q: Option<QuantView>, n: nat)
    requires
        n <= f.layers@.len(),
        !m.ready,
    ensures
        run(m, lfm2_layers(f, t, q, n), lfm2_layers(f, t, q, n).len()) == (Compiled {
            layers: m.layers + Seq::new(n, |i: int| lfm2_pushed(f, t, q, i as nat)),
            ..m
        }),
    decreases n,
{
    let want = |k: nat| m.layers + Seq::new(k, |i: int| lfm2_pushed(f, t, q, i as nat));
    if n == 0 {
        lemma_run_none(m, Seq::empty());
        assert(want(0) =~= m.layers);
    } else {
        let i = (n - 1) as nat;
        lemma_lfm2_layers(m, f, t, q, i);
        let before = lfm2_layers(f, t, q, i);
        let own = lfm2_layer_stage(f, t, q, i);
        let moe = lfm2_moe_stage(t, q, lfm2_layer(i), f.moe);
        let extra = if f.layers@[i as int].moe {
            seq![moe]
        } else {
            Seq::empty()
        };
        let m0 = Compiled { layers: want(i), ..m };
        lemma_run_join(m, before, seq![own]);
        lemma_run_join(m, before + seq![own], extra);
        lemma_run_one(m0, own);
        let m1 = called(m0, own);
        lemma_run_one(m1, moe);
        lemma_run_none(m1, Seq::empty());
        let m2 = if f.layers@[i as int].moe {
            called(m1, moe)
        } else {
            m1
        };
        assert(m2.layers =~= want(n));
    }
}

proof fn lemma_lfm2_holds(f: Lfm2Facts, t: Infos, q: Option<QuantView>, i: nat)
    ensures
        lfm2_layer_holds(f, t, q, i, lfm2_pushed(f, t, q, i)),
{
    let l = lfm2_pushed(f, t, q, i);
    let p = lfm2_layer(i);
    let s = lfm2_layer_stage(f, t, q, i);
    let moe = f.layers@[i as int].moe;
    assert(s.slots.len() == l.own.weights.len());
    if moe {
        let g = l.more[0];
        let store = expert_store(t, q, p);
        assert(g.weights =~= if store is Packed {
            seq![
                expert_stack(f, i, ".feed_forward.switch_mlp.gate_proj"@),
                expert_stack(f, i, ".feed_forward.switch_mlp.up_proj"@),
                expert_stack(f, i, ".feed_forward.switch_mlp.down_proj"@),
            ]
        } else {
            Seq::empty()
        });
        let own = seq![
            ReqView::DenseProj(numbered("model.layers."@, i, ".feed_forward.gate"@)),
            ReqView::Dense(numbered("model.layers."@, i, ".feed_forward.expert_bias"@)),
        ];
        assert(own + Seq::<ReqView>::empty() =~= own);
        assert(Seq::<i32>::empty() + seq![
            f.moe.num_experts as i32,
            f.moe.num_experts_per_tok as i32,
        ] =~= seq![f.moe.num_experts as i32, f.moe.num_experts_per_tok as i32]);
        assert(seq![f.moe.expert_group_size, f.moe.expert_bits] + seq![
            f.moe.num_experts as i32,
            f.moe.num_experts_per_tok as i32,
        ] =~= seq![
            f.moe.expert_group_size,
            f.moe.expert_bits,
            f.moe.num_experts as i32,
            f.moe.num_experts_per_tok as i32,
        ]);
    }
}

proof fn lemma_lfm2_head(f: Lfm2Facts, t: Infos, q: Option<QuantView>)
    ensures
        ({
            let s = lfm2_head(f, t, q);
            let m = run(untouched(), s, s.len());
            &&& m == (Compiled { settings: m.settings, ..untouched() })
            &&& m.settings == Seq::new(s.len(), |k: int| given(s[k]))
        }),
{
    let s = lfm2_head(f, t, q);
    reveal_with_fuel(run, 4);
    assert(run(untouched(), s, s.len()).settings =~= Seq::new(s.len(), |k: int| given(s[k])));
}

/// An LFM2 model ends up ready, with one layer per layer of the checkpoint,
/// each with its own weights in its places; its head is the transposed
/// embedding, or the packed embedding itself where that loads.
#[verifier::rlimit(40)]
pub proof fn lfm2_models_hold_their_weights(f: Lfm2Facts, t: Infos, q: Option<QuantView>)
    ensures
        ({
            let m = compiled(lfm2_program(f, t, q));
            let embed = "model.embed_tokens"@;
            let linear = proj_plan(t, embed, q) is Ok;
            &&& m.ready && !m.refused
            &&& m.layers.len() == f.layers@.len()
            &&& forall|i: int|
                0 <= i < m.layers.len() ==> lfm2_layer_holds(
                    f,
                    t,
                    q,
                    i as nat,
                    #[trigger] m.layers[i],
                )
            &&& m.settings.len() == if linear {
                3int
            } else {
                2
            }
            &&& m.settings[0].call == RuntimeCall::SetConfig
            &&& m.settings[0].numbers == seq![
                f.num_attention_heads as i32,
                f.num_key_value_heads as i32,
                f.head_dim as i32,
                f.hidden_size as i32,
                f.conv_kernel as i32,
            ]
            &&& m.settings[1].call == RuntimeCall::SetEmbed
            &&& m.settings[1].weights == seq![Some(ReqView::Tied(embed))]
            &&& m.settings[1].arrays == seq![
                ReqView::Embed(embed),
                ReqView::Dense("model.embedding_norm.weight"@),
            ]
            &&& linear ==> {
                &&& m.settings[2].call == RuntimeCall::SetEmbedAsLinear
                &&& m.settings[2].weights == seq![proj(embed)]
            }
        }),
{
    let head = lfm2_head(f, t, q);
    let n = f.layers@.len();
    let mid = lfm2_layers(f, t, q, n);
    let end = bare(RuntimeCall::Finalize);
    assert(part("model"@, ".embed_tokens"@) == "model.embed_tokens"@) by {
        reveal_strlit("model");
        reveal_strlit(".embed_tokens");
        reveal_strlit("model.embed_tokens");
        assert(part("model"@, ".embed_tokens"@) =~= "model.embed_tokens"@);
    }
    assert(part("model"@, ".embedding_norm.weight"@) == "model.embedding_norm.weight"@) by {
        reveal_strlit("model");
        reveal_strlit(".embedding_norm.weight");
        reveal_strlit("model.embedding_norm.weight");
        assert(part("model"@, ".embedding_norm.weight"@) =~= "model.embedding_norm.weight"@);
    }
    lemma_lfm2_head(f, t, q);
    let m0 = run(untouched(), head, head.len());
    lemma_run_join(untouched(), head, mid);
    lemma_run_join(untouched(), head + mid, seq![end]);
    lemma_lfm2_layers(m0, f, t, q, n);
    lemma_run_one(run(m0, mid, mid.len()), end);
    let m = compiled(lfm2_program(f, t, q));
    assert forall|i: int| 0 <= i < m.layers.len() implies lfm2_layer_holds(
        f,
        t,
        q,
        i as nat,
        #[trigger] m.layers[i],
    ) by {
        lemma_lfm2_holds(f, t, q, i as nat);
        assert(m.layers[i] == lfm2_pushed(f, t, q, i as nat));
    }
}

// ---- Qwen3.5 ----

/// A layer of a Qwen3.5 model. Full attention has query, key, value and output
/// in the first places; linear attention the joined query-key-value and gate,
/// the joined beta and alpha, and the output. The joined gate and up and the
/// down of a dense feed-forward stand in the last two.
pub open spec fn qwen35_layer_holds(
    c: ConfigView,
    t: Infos,
    prefix: Seq<char>,
    i: nat,
    separate: bool,
    offset: bool,
    l: Layer,
) -> bool {
    let p = prefix + ".layers."@;
    let q = c.quantization;
    let full = c.layer_types[i as int] is FullAttention;
    let moe = c.moe is Some && c.moe->0.has_experts(i);
    let gate = numbered(p, i, ".mlp.gate_proj"@);
    let up = numbered(p, i, ".mlp.up_proj"@);
    let qkv = numbered(p, i, ".linear_attn.in_proj_qkv"@);
    let z = numbered(p, i, ".linear_attn.in_proj_z"@);
    let b = numbered(p, i, ".linear_attn.in_proj_b"@);
    let a = numbered(p, i, ".linear_attn.in_proj_a"@);
    let rows = if moe {
        0i32
    } else {
        rows_of(t, q, gate)
    };
    let norm = |suffix: Seq<char>| ReqView::Norm { name: numbered(p, i, suffix), offset };
    let none = None::<ReqView>;
    &&& full ==> {
        &&& l.own.call == RuntimeCall::PushFullAttn
        &&& l.own.weights == seq![
            proj(numbered(p, i, ".self_attn.q_proj"@)),
            proj(numbered(p, i, ".self_attn.k_proj"@)),
            proj(numbered(p, i, ".self_attn.v_proj"@)),
            proj(numbered(p, i, ".self_attn.o_proj"@)),
            if moe {
                none
            } else {
                joined(gate, up)
            },
            if moe {
                none
            } else {
                proj(numbered(p, i, ".mlp.down_proj"@))
            },
        ]
        &&& l.own.arrays.len() == 4
        &&& l.own.arrays[0] == norm(".input_layernorm.weight"@)
        &&& l.own.arrays[1] == norm(".post_attention_layernorm.weight"@)
        &&& l.own.arrays[2] == norm(".self_attn.q_norm.weight"@)
        &&& l.own.arrays[3] == norm(".self_attn.k_norm.weight"@)
        &&& l.own.numbers == seq![rows]
    }
    &&& !full ==> {
        &&& l.own.call == RuntimeCall::PushLinearAttn
        &&& l.own.weights == seq![
            joined(qkv, z),
            joined(b, a),
            proj(numbered(p, i, ".linear_attn.out_proj"@)),
            if moe {
                none
            } else {
                joined(gate, up)
            },
            if moe {
                none
            } else {
                proj(numbered(p, i, ".mlp.down_proj"@))
            },
        ]
        &&& l.own.arrays.len() == 6
        &&& l.own.arrays[0] == norm(".input_layernorm.weight"@)
        &&& l.own.arrays[1] == norm(".post_attention_layernorm.weight"@)
        &&& l.own.arrays[2] == ReqView::Conv {
            name: numbered(p, i, ".linear_attn.conv1d.weight"@),
            channels: Some(c.linear.qkv() as usize as i32),
            kernel: c.linear.conv_kernel as i32,
        }
        &&& l.own.arrays[3] == ReqView::As {
            name: numbered(p, i, ".linear_attn.A_log"@),
            dtype: Dtype::Float32,
        }
        &&& l.own.arrays[4] == ReqView::Dense(numbered(p, i, ".linear_attn.dt_bias"@))
        &&& l.own.arrays[5] == ReqView::Dense(numbered(p, i, ".linear_attn.norm.weight"@))
        &&& l.own.numbers == seq![
            rows_of(t, q, qkv),
            rows_of(t, q, z),
            rows_of(t, q, b),
            c.linear.conv_kernel as i32,
            c.linear.num_key_heads as i32,
            c.linear.key_dim as i32,
            c.linear.num_value_heads as i32,
            c.linear.value_dim as i32,
            rows,
        ]
    }
    &&& l.own.flags == Seq::<bool>::empty()
    &&& qwen35_extras_hold(c, p, i, full, moe, separate, l.more)
}

/// Behind a linear-attention layer come its projections one by one, where they
/// are wanted, else those of its dense feed-forward; behind a layer with
/// experts come those.
pub open spec fn qwen35_extras_hold(
    c: ConfigView,
    p: Seq<char>,
    i: nat,
    full: bool,
    moe: bool,
    separate: bool,
    more: Seq<Given>,
) -> bool {
    let gate = proj(numbered(p, i, ".mlp.gate_proj"@));
    let up = proj(numbered(p, i, ".mlp.up_proj"@));
    let apart = !full && separate;
    let mlp_only = !full && !separate && !moe;
    &&& more.len() == (if apart || mlp_only {
        1int
    } else {
        0
    }) + (if moe {
        1int
    } else {
        0
    })
    &&& apart ==> {
        &&& more[0].call == RuntimeCall::SetSeparateProj
        &&& more[0].weights == seq![
            proj(numbered(p, i, ".linear_attn.in_proj_qkv"@)),
            proj(numbered(p, i, ".linear_attn.in_proj_z"@)),
            proj(numbered(p, i, ".linear_attn.in_proj_b"@)),
            proj(numbered(p, i, ".linear_attn.in_proj_a"@)),
            if moe {
                None
            } else {
                gate
            },
            if moe {
                None
            } else {
                up
            },
        ]
    }
    &&& mlp_only ==> {
        &&& more[0].call == RuntimeCall::SetSeparateMlp
        &&& more[0].weights == seq![gate, up]
    }
    &&& moe ==> qwen35_experts_hold(c, p, i, more.last())
}

/// The experts of a Qwen3.5 layer: router, the three stacks, and the shared
/// expert with its own gate. Router and shared gate have the router's width,
/// the shared expert that of the experts.
pub open spec fn qwen35_experts_hold(c: ConfigView, p: Seq<char>, i: nat, g: Given) -> bool {
    let m = c.moe->0;
    let routed = |suffix: Seq<char>|
        ReqView::Packed {
            base: numbered(p, i, suffix),
            group_size: m.router_group_size,
            bits: m.router_bits,
        };
    let shared = |suffix: Seq<char>|
        ReqView::Packed {
            base: numbered(p, i, suffix),
            group_size: m.expert_group_size,
            bits: m.expert_bits,
        };
    &&& g.call == RuntimeCall::SetMoe
    &&& g.weights.len() == 0
    &&& g.arrays.len() == 8
    &&& g.arrays[0] == routed(".mlp.gate"@)
    &&& g.arrays[1] == ReqView::Stack(numbered(p, i, ".mlp.switch_mlp.gate_proj"@))
    &&& g.arrays[2] == ReqView::Stack(numbered(p, i, ".mlp.switch_mlp.up_proj"@))
    &&& g.arrays[3] == ReqView::Stack(numbered(p, i, ".mlp.switch_mlp.down_proj"@))
    &&& g.arrays[4] == shared(".mlp.shared_expert.gate_proj"@)
    &&& g.arrays[5] == shared(".mlp.shared_expert.up_proj"@)
    &&& g.arrays[6] == shared(".mlp.shared_expert.down_proj"@)
    &&& g.arrays[7] == routed(".mlp.shared_expert_gate"@)
    &&& g.numbers == seq![
        m.router_group_size,
        m.router_bits,
        m.expert_group_size,
        m.expert_bits,
        m.num_experts as i32,
        m.num_experts_per_tok as i32,
    ]
    &&& g.flags == seq![m.norm_topk_prob]
}

spec fn qwen35_pushed(
    c: ConfigView,
    t: Infos,
    prefix: Seq<char>,
    i: nat,
    separate: bool,
    offset: bool,
) -> Layer {
    let s = layer_stages(c, t, prefix, i, separate, offset);
    Layer { own: given(s[0]), more: Seq::new((s.len() - 1) as nat, |k: int| given(s[k + 1])) }
}

proof fn lemma_qwen35_layer(
    m: Compiled,
    c: ConfigView,
    t: Infos,
    prefix: Seq<char>,
    i: nat,
    separate: bool,
    offset: bool,
)
    requires
        !m.ready,
    ensures
        ({
            let s = layer_stages(c, t, prefix, i, separate, offset);
            run(m, s, s.len()) == (Compiled {
                layers: m.layers.push(qwen35_pushed(c, t, prefix, i, separate, offset)),
                ..m
            })
        }),
{
    let s = layer_stages(c, t, prefix, i, separate, offset);
    let l = qwen35_pushed(c, t, prefix, i, separate, offset);
    assert(1 <= s.len() <= 3);
    reveal_with_fuel(run, 4);
    let m1 = run(m, s, 1);
    let l0 = Layer { own: given(s[0]), more: Seq::empty() };
    assert(m1 =~= Compiled { layers: m.layers.push(l0), ..m });
    if s.len() == 1 {
        assert(l =~= l0);
    } else {
        let l1 = Layer { own: given(s[0]), more: seq![given(s[1])] };
        let m2 = run(m, s, 2);
        assert(m1.layers.drop_last() =~= m.layers);
        assert(Seq::<Given>::empty().push(given(s[1])) =~= seq![given(s[1])]);
        assert(m2 =~= Compiled { layers: m.layers.push(l1), ..m });
        if s.len() == 2 {
            assert(l =~= l1);
        } else {
            let m3 = run(m, s, 3);
            assert(m2.layers.drop_last() =~= m.layers);
            assert(seq![given(s[1])].push(given(s[2])) =~= l.more);
            assert(m3 =~= Compiled { layers: m.layers.push(l), ..m });
        }
    }
}

proof fn lemma_qwen35_layers(
    m: Compiled,
    c: ConfigView,
    t: Infos,
    prefix: Seq<char>,
    n: nat,
    separate: bool,
    offset: bool,
)
    requires
        !m.ready,
    ensures
        ({
            let s = layers_stages(c, t, prefix, n, separate, offset);
            run(m, s, s.len()) == (Compiled {
                layers: m.layers + Seq::new(
                    n,
                    |i: int| qwen35_pushed(c, t, prefix, i as nat, separate, offset),
                ),
                ..m
            })
        }),
    decreases n,
{
    let want = |k: nat|
        m.layers + Seq::new(
            k,
            |i: int| qwen35_pushed(c, t, prefix, i as nat, separate, offset),
        );
    if n == 0 {
        lemma_run_none(m, Seq::empty());
        assert(want(0) =~= m.layers);
    } else {
        let i = (n - 1) as nat;
        lemma_qwen35_layers(m, c, t, prefix, i, separate, offset);
        let m0 = Compiled { layers: want(i), ..m };
        lemma_qwen35_layer(m0, c, t, prefix, i, separate, offset);
        lemma_run_join(
            m,
            layers_stages(c, t, prefix, i, separate, offset),
            layer_stages(c, t, prefix, i, separate, offset),
        );
        assert(m0.layers.push(qwen35_pushed(c, t, prefix, i, separate, offset)) =~= want(n));
    }
}

proof fn lemma_qwen35_holds(
    c: ConfigView,
    t: Infos,
    prefix: Seq<char>,
    i: nat,
    separate: bool,
    offset: bool,
)
    ensures
        qwen35_layer_holds(
            c,
            t,
            prefix,
            i,
            separate,
            offset,
            qwen35_pushed(c, t, prefix, i, separate, offset),
        ),
{
    let l = qwen35_pushed(c, t, prefix, i, separate, offset);
    let p = prefix + ".layers."@;
    let full = c.layer_types[i as int] is FullAttention;
    let moe = has_moe(c, i);
    let gate = numbered(p, i, ".mlp.gate_proj"@);
    let up = numbered(p, i, ".mlp.up_proj"@);
    let none = None::<ReqView>;
    let pair = if moe {
        (none, none)
    } else {
        (joined(gate, up), proj(numbered(p, i, ".mlp.down_proj"@)))
    };
    if full {
        assert(l.own.weights =~= seq![
            proj(numbered(p, i, ".self_attn.q_proj"@)),
            proj(numbered(p, i, ".self_attn.k_proj"@)),
            proj(numbered(p, i, ".self_attn.v_proj"@)),
            proj(numbered(p, i, ".self_attn.o_proj"@)),
            pair.0,
            pair.1,
        ]);
    } else {
        let qkv = numbered(p, i, ".linear_attn.in_proj_qkv"@);
        let z = numbered(p, i, ".linear_attn.in_proj_z"@);
        let b = numbered(p, i, ".linear_attn.in_proj_b"@);
        let a = numbered(p, i, ".linear_attn.in_proj_a"@);
        assert(l.own.weights =~= seq![
            joined(qkv, z),
            joined(b, a),
            proj(numbered(p, i, ".linear_attn.out_proj"@)),
            pair.0,
            pair.1,
        ]);
        if separate {
            assert(l.more[0].weights =~= seq![
                proj(qkv),
                proj(z),
                proj(b),
                proj(a),
                if moe {
                    none
                } else {
                    proj(gate)
                },
                if moe {
                    none
                } else {
                    proj(up)
                },
            ]);
        } else if !moe {
            assert(l.more[0].weights =~= seq![proj(gate), proj(up)]);
        }
    }
    assert(qwen35_extras_hold(c, p, i, full, moe, separate, l.more));
}

proof fn lemma_qwen35_head(
    c: ConfigView,
    t: Infos,
    prefix: Seq<char>,
    rotary_dim: usize,
    offset: bool,
)
    ensures
        ({
            let s = head_stages(c, t, prefix, rotary_dim, offset);
            let m = run(untouched(), s, s.len());
            &&& m == (Compiled { settings: m.settings, ..untouched() })
            &&& m.settings == Seq::new(s.len(), |k: int| given(s[k]))
        }),
{
    let s = head_stages(c, t, prefix, rotary_dim, offset);
    reveal_with_fuel(run, 5);
    assert(run(untouched(), s, s.len()).settings =~= Seq::new(s.len(), |k: int| given(s[k])));
}

/// A Qwen3.5 model ends up ready, with one layer per layer of the checkpoint,
/// each with its own weights in its places. Its head is the first output head
/// that the checkpoint has, else the transposed embedding; a dense head gives
/// way to a packed embedding.
#[verifier::rlimit(40)]
pub proof fn qwen35_models_hold_their_weights(
    c: ConfigView,
    t: Infos,
    prefix: Seq<char>,
    rotary_dim: usize,
    separate: bool,
    offset: bool,
)
    ensures
        ({
            let m = compiled(qwen35_program(c, t, prefix, rotary_dim, separate, offset));
            let embed = prefix + ".embed_tokens"@;
            let there = |base: Seq<char>|
                t.contains_key(base + ".weight"@) || t.contains_key(base + ".scales"@);
            let dense_as = |base: Seq<char>|
                proj_plan(t, base, c.quantization) == Ok::<ProjPlan, LoadError>(ProjPlan::Dense);
            let own_head = prefix + ".lm_head"@;
            let head = if there("lm_head"@) {
                Some("lm_head"@)
            } else if there("language_model.lm_head"@) {
                Some("language_model.lm_head"@)
            } else if there(own_head) {
                Some(own_head)
            } else {
                None
            };
            let linear = c.quantization is Some && proj_plan(t, embed, c.quantization) is Ok && (
            head is None || dense_as(head->0));
            &&& m.ready && !m.refused
            &&& m.layers.len() == c.num_hidden_layers
            &&& forall|i: int|
                0 <= i < m.layers.len() ==> qwen35_layer_holds(
                    c,
                    t,
                    prefix,
                    i as nat,
                    separate,
                    offset,
                    #[trigger] m.layers[i],
                )
            &&& m.settings.len() == if linear {
                4int
            } else {
                3
            }
            &&& m.settings[0].call == RuntimeCall::SetConfig
            &&& m.settings[0].numbers == seq![
                c.num_attention_heads as i32,
                c.num_key_value_heads as i32,
                c.head_dim as i32,
                rotary_dim as i32,
                c.hidden_size as i32,
            ]
            &&& m.settings[1].call == RuntimeCall::SetQkGate && m.settings[1].numbers == seq![1i32]
            &&& m.settings[2].call == RuntimeCall::SetEmbed
            &&& m.settings[2].weights.len() == 1
            &&& m.settings[2].weights[0] == match head {
                Some(h) => proj(h),
                None => Some(ReqView::Tied(embed)),
            }
            &&& m.settings[2].arrays.len() == 2
            &&& m.settings[2].arrays[0] == ReqView::Embed(embed)
            &&& m.settings[2].arrays[1] == ReqView::Norm { name: prefix + ".norm.weight"@, offset }
            &&& linear ==> {
                &&& m.settings[3].call == RuntimeCall::SetEmbedAsLinear
                &&& m.settings[3].weights == seq![proj(embed)]
            }
        }),
{
    let head = head_stages(c, t, prefix, rotary_dim, offset);
    let n = c.num_hidden_layers as nat;
    let mid = layers_stages(c, t, prefix, n, separate, offset);
    let end = bare(RuntimeCall::Finalize);
    lemma_qwen35_head(c, t, prefix, rotary_dim, offset);
    let m0 = run(untouched(), head, head.len());
    lemma_run_join(untouched(), head, mid);
    lemma_run_join(untouched(), head + mid, seq![end]);
    lemma_qwen35_layers(m0, c, t, prefix, n, separate, offset);
    lemma_run_one(run(m0, mid, mid.len()), end);
    let m = compiled(qwen35_program(c, t, prefix, rotary_dim, separate, offset));
    assert forall|i: int| 0 <= i < m.layers.len() implies qwen35_layer_holds(
        c,
        t,
        prefix,
        i as nat,
        separate,
        offset,
        #[trigger] m.layers[i],
    ) by {
        lemma_qwen35_holds(c, t, prefix, i as nat, separate, offset);
        assert(m.layers[i] == qwen35_pushed(c, t, prefix, i as nat, separate, offset));
    }
}

// ---- drafts ----

/// A layer of a draft: its seven projections, then its four norms.
pub open spec fn draft_layer_holds(i: nat, offset: bool, l: Layer) -> bool {
    let p = "layers."@;
    let a = l.own.arrays;
    let norm = |suffix: Seq<char>| ReqView::Norm { name: numbered(p, i, suffix), offset };
    &&& l.own.call == RuntimeCall::PushLayer
    &&& l.own.weights.len() == 0 && l.more.len() == 0
    &&& a.len() == 11
    &&& a[0] == ReqView::Proj(numbered(p, i, ".self_attn.q_proj"@))
    &&& a[1] == ReqView::Proj(numbered(p, i, ".self_attn.k_proj"@))
    &&& a[2] == ReqView::Proj(numbered(p, i, ".self_attn.v_proj"@))
    &&& a[3] == ReqView::Proj(numbered(p, i, ".self_attn.o_proj"@))
    &&& a[4] == ReqView::Proj(numbered(p, i, ".mlp.gate_proj"@))
    &&& a[5] == ReqView::Proj(numbered(p, i, ".mlp.up_proj"@))
    &&& a[6] == ReqView::Proj(numbered(p, i, ".mlp.down_proj"@))
    &&& a[7] == norm(".input_layernorm.weight"@)
    &&& a[8] == norm(".post_attention_layernorm.weight"@)
    &&& a[9] == norm(".self_attn.q_norm.weight"@)
    &&& a[10] == norm(".self_attn.k_norm.weight"@)
}

proof fn lemma_draft_layers(m: Compiled, n: nat, offset: bool)
    requires
        !m.ready,
    ensures
        run(m, draft_layers(n, offset), draft_layers(n, offset).len()) == (Compiled {
            layers: m.layers + Seq::new(
                n,
                |i: int|
                    Layer {
                        own: given(draft_layer_stage(draft_layer(i as nat), offset)),
                        more: Seq::empty(),
                    },
            ),
            ..m
        }),
    decreases n,
{
    let want = |k: nat|
        m.layers + Seq::new(
            k,
            |i: int|
                Layer {
                    own: given(draft_layer_stage(draft_layer(i as nat), offset)),
                    more: Seq::empty(),
                },
        );
    if n == 0 {
        lemma_run_none(m, Seq::empty());
        assert(want(0) =~= m.layers);
    } else {
        let i = (n - 1) as nat;
        let s = draft_layer_stage(draft_layer(i), offset);
        lemma_draft_layers(m, i, offset);
        lemma_run_join(m, draft_layers(i, offset), seq![s]);
        assert(draft_layers(i, offset) + seq![s] =~= draft_layers(n, offset));
        let m0 = Compiled { layers: want(i), ..m };
        lemma_run_one(m0, s);
        assert(called(m0, s).layers =~= want(n));
    }
}

/// A draft ends up ready, with all its layers, each with its own weights, and
/// with the projection that joins it to the target. A head of the one kind has
/// two norms before that projection and a zero in place of the other kind's
/// norm of the target's features, and only its norms are ever corrected.
#[verifier::rlimit(40)]
pub proof fn drafts_hold_their_weights(c: DFlashDraftConfig, norms_need_offset: bool)
    ensures
        ({
            let m = compiled(draft_program(c, norms_need_offset));
            let mtp = c.draft_kind is Qwen35Mtp;
            let offset = mtp && norms_need_offset;
            let norm = |name: Seq<char>| ReqView::Norm { name, offset };
            &&& m.ready && !m.refused
            &&& m.layers.len() == c.dims.num_hidden_layers
            &&& forall|i: int|
                0 <= i < m.layers.len() ==> draft_layer_holds(
                    i as nat,
                    offset,
                    #[trigger] m.layers[i],
                )
            &&& m.settings.len() == if mtp {
                3int
            } else {
                2
            }
            &&& m.settings[0].call == RuntimeCall::SetConfig
            &&& m.settings[0].numbers == seq![
                c.dims.hidden_size as i32,
                c.dims.num_attention_heads as i32,
                c.dims.num_key_value_heads as i32,
                c.dims.head_dim as i32,
                c.dims.num_hidden_layers as i32,
                c.rotary_dim as i32,
                if c.attn_output_gate {
                    1i32
                } else {
                    0i32
                },
                if mtp {
                    1i32
                } else {
                    0i32
                },
            ]
            &&& m.settings[1].call == RuntimeCall::SetFcNorms
            &&& m.settings[1].arrays.len() == 3
            &&& m.settings[1].arrays[0] == ReqView::Proj("fc"@)
            &&& m.settings[1].arrays[1] == if mtp {
                ReqView::Zero(Dtype::Bfloat16)
            } else {
                ReqView::Dense("hidden_norm.weight"@)
            }
            &&& m.settings[1].arrays[2] == norm("norm.weight"@)
            &&& mtp ==> {
                &&& m.settings[2].call == RuntimeCall::SetMtpNorms
                &&& m.settings[2].arrays.len() == 2
                &&& m.settings[2].arrays[0] == norm("pre_fc_norm_embedding.weight"@)
                &&& m.settings[2].arrays[1] == norm("pre_fc_norm_hidden.weight"@)
            }
        }),
{
    let mtp = c.draft_kind == DraftKind::Qwen35Mtp;
    let offset = draft_offset(c.draft_kind, norms_need_offset);
    let n = c.dims.num_hidden_layers as nat;
    let head = seq![draft_config_stage(c)];
    let mid = draft_layers(n, offset);
    let fc = fc_stage(mtp, offset);
    let norms = if mtp {
        seq![mtp_norms_stage(offset)]
    } else {
        Seq::empty()
    };
    let end = bare(RuntimeCall::Finalize);
    let u = untouched();
    lemma_run_join(u, head, mid);
    lemma_run_join(u, head + mid, seq![fc]);
    lemma_run_join(u, head + mid + seq![fc], norms);
    lemma_run_join(u, head + mid + seq![fc] + norms, seq![end]);
    lemma_run_one(u, head[0]);
    let m0 = called(u, head[0]);
    lemma_draft_layers(m0, n, offset);
    let m1 = run(m0, mid, mid.len());
    lemma_run_one(m1, fc);
    let m2 = called(m1, fc);
    lemma_run_one(m2, mtp_norms_stage(offset));
    lemma_run_none(m2, Seq::empty());
    let m3 = run(m2, norms, norms.len());
    lemma_run_one(m3, end);
    assert(part("fc"@, ""@) =~= "fc"@) by {
        reveal_strlit("");
    }
    assert(part("hidden_norm"@, ".weight"@) =~= "hidden_norm.weight"@) by {
        reveal_strlit("hidden_norm");
        reveal_strlit(".weight");
        reveal_strlit("hidden_norm.weight");
    }
    assert(part("norm"@, ".weight"@) =~= "norm.weight"@) by {
        reveal_strlit("norm");
        reveal_strlit(".weight");
        reveal_strlit("norm.weight");
    }
    assert(part("pre_fc_norm_embedding"@, ".weight"@) =~= "pre_fc_norm_embedding.weight"@) by {
        reveal_strlit("pre_fc_norm_embedding");
        reveal_strlit(".weight");
        reveal_strlit("pre_fc_norm_embedding.weight");
    }
    assert(part("pre_fc_norm_hidden"@, ".weight"@) =~= "pre_fc_norm_hidden.weight"@) by {
        reveal_strlit("pre_fc_norm_hidden");
        reveal_strlit(".weight");
        reveal_strlit("pre_fc_norm_hidden.weight");
    }
}

// ---- Gemma ----

/// A text layer of a Gemma model, place by place. Values that the keys stand
/// for have an empty place, and so have the experts of a layer without them.
pub open spec fn gemma_layer_holds(
    text: GemmaTextFacts,
    prefix: Seq<char>,
    i: nat,
    values: Option<ReqView>,
    l: Layer,
) -> bool {
    let p = prefix + ".layers."@;
    let facts = text.layers@[i as int];
    let experts = text.experts is Some;
    let w = l.own.weights;
    &&& l.own.call == RuntimeCall::PushLayer
    &&& w.len() == 22
    &&& w[0] == dense(numbered(p, i, ".input_layernorm.weight"@))
    &&& w[1] == proj(numbered(p, i, ".self_attn.q_proj"@))
    &&& w[2] == proj(numbered(p, i, ".self_attn.k_proj"@))
    &&& w[3] == values
    &&& w[4] == proj(numbered(p, i, ".self_attn.o_proj"@))
    &&& w[5] == dense(numbered(p, i, ".self_attn.q_norm.weight"@))
    &&& w[6] == dense(numbered(p, i, ".self_attn.k_norm.weight"@))
    &&& w[7] == dense(numbered(p, i, ".post_attention_layernorm.weight"@))
    &&& w[8] == dense(numbered(p, i, ".pre_feedforward_layernorm.weight"@))
    &&& w[9] == proj(numbered(p, i, ".mlp.gate_proj"@))
    &&& w[10] == proj(numbered(p, i, ".mlp.up_proj"@))
    &&& w[11] == proj(numbered(p, i, ".mlp.down_proj"@))
    &&& w[12] == dense(numbered(p, i, ".post_feedforward_layernorm.weight"@))
    &&& experts ==> {
        &&& w[13] == dense(numbered(p, i, ".pre_feedforward_layernorm_2.weight"@))
        &&& w[14] == dense(numbered(p, i, ".post_feedforward_layernorm_1.weight"@))
        &&& w[15] == dense(numbered(p, i, ".post_feedforward_layernorm_2.weight"@))
        &&& w[16] == proj(numbered(p, i, ".router.proj"@))
        &&& w[17] == dense(numbered(p, i, ".router.scale"@))
        &&& w[18] == dense(numbered(p, i, ".router.per_expert_scale"@))
        &&& w[19] == proj(numbered(p, i, ".experts.gate_up_proj"@))
        &&& w[20] == proj(numbered(p, i, ".experts.down_proj"@))
    }
    &&& !experts ==> forall|k: int| 13 <= k < 21 ==> #[trigger] w[k] is None
    &&& w[21] == dense(numbered(p, i, ".layer_scalar"@))
    &&& l.own.arrays.len() == 0
    &&& l.own.numbers.len() == 8
    &&& l.own.numbers[0] == match facts.kv_shared {
        Some(k) => k as i32,
        None => -1i32,
    }
    &&& l.own.numbers[1] == text.num_attention_heads as i32
    &&& l.own.numbers[2] == facts.kv_heads as i32
    &&& l.own.numbers[3] == facts.head_dim as i32
    &&& l.own.numbers[4] == facts.rotary_dim as i32
    &&& l.own.numbers[5] == text.sliding_window as i32
    &&& l.own.numbers[6] == match text.experts {
        Some(e) => e.num_experts.unwrap_or(0) as i32,
        None => 0i32,
    }
    &&& l.own.numbers[7] == match text.experts {
        Some(e) => e.top_k.unwrap_or(0) as i32,
        None => 0i32,
    }
    &&& l.own.flags == seq![facts.is_full]
    &&& if text.per_layer is Some {
        &&& l.more.len() == 1
        &&& l.more[0].call == RuntimeCall::SetLayerPle
        &&& l.more[0].weights == seq![
            proj(numbered(p, i, ".per_layer_input_gate"@)),
            proj(numbered(p, i, ".per_layer_projection"@)),
            dense(numbered(p, i, ".post_per_layer_input_norm.weight"@)),
        ]
        &&& l.more[0].numbers == seq![i as usize as i32]
    } else {
        l.more.len() == 0
    }
}

spec fn gemma_pushed(text: GemmaTextFacts, prefix: Seq<char>, i: nat, v: ValueSource) -> Layer {
    let p = layer_prefix(prefix, i);
    Layer {
        own: given(layer_stage(text, text.layers@[i as int], p, v)),
        more: if text.per_layer is Some {
            seq![given(ple_stage(p, i as usize))]
        } else {
            Seq::empty()
        },
    }
}

proof fn lemma_gemma_layer(
    m: Compiled,
    text: GemmaTextFacts,
    prefix: Seq<char>,
    i: nat,
    v: ValueSource,
)
    requires
        !m.ready,
    ensures
        ({
            let s = pushed_layer(text, prefix, i, v);
            run(m, s, s.len()) == (Compiled {
                layers: m.layers.push(gemma_pushed(text, prefix, i, v)),
                ..m
            })
        }),
{
    let s = pushed_layer(text, prefix, i, v);
    let l = gemma_pushed(text, prefix, i, v);
    reveal_with_fuel(run, 3);
    let m1 = run(m, s, 1);
    assert(m1 == called(m, s[0]));
    if text.per_layer is Some {
        assert(m1.layers.drop_last() =~= m.layers);
        assert(Seq::<Given>::empty().push(given(s[1])) =~= l.more);
    } else {
        assert(s.len() == 1);
    }
}

/// What stands in the place of a layer's values.
pub open spec fn values_of(p: Seq<char>, i: nat, v: ValueSource) -> Option<ReqView> {
    match v {
        ValueSource::Own => proj(numbered(p, i, ".self_attn.v_proj"@)),
        ValueSource::Keys => None,
        ValueSource::Missing => Some(ReqView::Absent(LoadError::MissingValueProjection)),
    }
}

proof fn lemma_gemma_holds(text: GemmaTextFacts, prefix: Seq<char>, i: nat, v: ValueSource)
    ensures
        gemma_layer_holds(
            text,
            prefix,
            i,
            values_of(prefix + ".layers."@, i, v),
            gemma_pushed(text, prefix, i, v),
        ),
{
    let l = gemma_pushed(text, prefix, i, v);
    let p = prefix + ".layers."@;
    if text.per_layer is Some {
        assert(l.more[0].weights =~= seq![
            proj(numbered(p, i, ".per_layer_input_gate"@)),
            proj(numbered(p, i, ".per_layer_projection"@)),
            dense(numbered(p, i, ".post_per_layer_input_norm.weight"@)),
        ]);
    }
}

/// The settings with which a Gemma model opens: its width and vocabulary, its
/// embedding, head and final norm, whether it conditions on itself, and the
/// embeddings of its layers where it has any.
pub open spec fn gemma_opens(
    text: GemmaTextFacts,
    prefix: Seq<char>,
    tied: bool,
    settings: Seq<Given>,
) -> bool {
    let embed = prefix + ".embed_tokens"@;
    &&& settings[0].call == RuntimeCall::SetConfig
    &&& settings[0].numbers == seq![text.hidden_size as i32, text.vocab_size as i32]
    &&& settings[1].call == RuntimeCall::SetEmbed
    &&& settings[1].weights == seq![
        Some(ReqView::Embed(embed)),
        if tied {
            Some(ReqView::Tied(embed))
        } else {
            proj(embed)
        },
        dense(prefix + ".norm.weight"@),
    ]
    &&& settings[2].call == RuntimeCall::RequireSelfConditioning
    &&& settings[2].flags == seq![!tied]
    &&& text.per_layer matches Some(f) ==> {
        &&& settings[3].call == RuntimeCall::SetPerLayerEmbeddings
        &&& settings[3].weights == seq![
            Some(ReqView::Embed(prefix + ".embed_tokens_per_layer"@)),
            proj(prefix + ".per_layer_model_projection"@),
            dense(prefix + ".per_layer_projection_norm.weight"@),
        ]
        &&& settings[3].numbers == seq![
            text.layers@.len() as usize as i32,
            f.hidden_size.unwrap_or(0) as i32,
            f.vocab_size.unwrap_or(text.vocab_size) as i32,
        ]
    }
}

proof fn lemma_gemma_opens(text: GemmaTextFacts, prefix: Seq<char>, tied: bool)
    ensures
        ({
            let s = opening(text, prefix, tied);
            let m = run(untouched(), s, s.len());
            &&& m == (Compiled { settings: m.settings, ..untouched() })
            &&& m.settings.len() == s.len() == (if text.per_layer is Some {
                4int
            } else {
                3
            })
            &&& gemma_opens(text, prefix, tied, m.settings)
        }),
{
    let s = opening(text, prefix, tied);
    reveal_with_fuel(run, 5);
    let m = run(untouched(), s, s.len());
    assert(m.settings[0] =~= given(s[0]));
    assert(m.settings[1] =~= given(s[1]));
    assert(m.settings[2] =~= given(s[2]));
    let embed = prefix + ".embed_tokens"@;
    assert(m.settings[1].weights =~= seq![
        Some(ReqView::Embed(embed)),
        if tied {
            Some(ReqView::Tied(embed))
        } else {
            proj(embed)
        },
        dense(prefix + ".norm.weight"@),
    ]);
    if text.per_layer is Some {
        assert(m.settings[3] =~= given(s[3]));
        assert(m.settings[3].weights =~= seq![
            Some(ReqView::Embed(prefix + ".embed_tokens_per_layer"@)),
            proj(prefix + ".per_layer_model_projection"@),
            dense(prefix + ".per_layer_projection_norm.weight"@),
        ]);
        let f = text.per_layer->0;
        assert(m.settings[3].numbers =~= seq![
            text.layers@.len() as usize as i32,
            f.hidden_size.unwrap_or(0) as i32,
            f.vocab_size.unwrap_or(text.vocab_size) as i32,
        ]);
    }
}

proof fn lemma_diffusion_layers(
    m: Compiled,
    text: GemmaTextFacts,
    t: Infos,
    prefix: Seq<char>,
    n: nat,
)
    requires
        !m.ready,
    ensures
        run(
            m,
            diffusion_layers(text, t, prefix, n),
            diffusion_layers(text, t, prefix, n).len(),
        ) == (Compiled {
            layers: m.layers + Seq::new(
                n,
                |i: int|
                    gemma_pushed(
                        text,
                        prefix,
                        i as nat,
                        diffusion_values(
                            t,
                            layer_prefix(prefix, i as nat),
                            text.layers@[i].is_full,
                        ),
                    ),
            ),
            ..m
        }),
    decreases n,
{
    let want = |k: nat|
        m.layers + Seq::new(
            k,
            |i: int|
                gemma_pushed(
                    text,
                    prefix,
                    i as nat,
                    diffusion_values(t, layer_prefix(prefix, i as nat), text.layers@[i].is_full),
                ),
        );
    if n == 0 {
        lemma_run_none(m, Seq::empty());
        assert(want(0) =~= m.layers);
    } else {
        let i = (n - 1) as nat;
        let v = diffusion_values(t, layer_prefix(prefix, i), text.layers@[i as int].is_full);
        lemma_diffusion_layers(m, text, t, prefix, i);
        lemma_run_join(
            m,
            diffusion_layers(text, t, prefix, i),
            pushed_layer(text, prefix, i, v),
        );
        let m0 = Compiled { layers: want(i), ..m };
        lemma_gemma_layer(m0, text, prefix, i, v);
        assert(m0.layers.push(gemma_pushed(text, prefix, i, v)) =~= want(n));
    }
}

/// A block-diffusion model ends up ready, with all its layers, each with its
/// own weights in its places, and with the weights by which it conditions on
/// itself. Where a layer has no value projection, the keys stand for the values
/// of full attention; no other layer can do without.
#[verifier::rlimit(40)]
pub proof fn diffusion_models_hold_their_weights(text: GemmaTextFacts, t: Infos)
    ensures
        ({
            let m = compiled(diffusion_program(text, t));
            let prefix = "model.decoder"@;
            let p = prefix + ".layers."@;
            let per_layer: int = if text.per_layer is Some {
                1
            } else {
                0
            };
            &&& m.ready && !m.refused
            &&& m.layers.len() == text.layers@.len()
            &&& forall|i: int|
                0 <= i < m.layers.len() ==> gemma_layer_holds(
                    text,
                    prefix,
                    i as nat,
                    values_of(
                        p,
                        i as nat,
                        if t.contains_key(numbered(p, i as nat, ".self_attn.v_proj.weight"@)) {
                            ValueSource::Own
                        } else if text.layers@[i].is_full {
                            ValueSource::Keys
                        } else {
                            ValueSource::Missing
                        },
                    ),
                    #[trigger] m.layers[i],
                )
            &&& m.settings.len() == 4 + per_layer
            &&& gemma_opens(text, prefix, false, m.settings)
            &&& m.settings.last().call == RuntimeCall::SetSelfConditioning
            &&& m.settings.last().weights == seq![
                dense(prefix + ".self_conditioning.pre_norm.weight"@),
                proj(prefix + ".self_conditioning.gate_proj"@),
                proj(prefix + ".self_conditioning.up_proj"@),
                proj(prefix + ".self_conditioning.down_proj"@),
            ]
        }),
{
    let prefix = "model.decoder"@;
    let p = prefix + ".layers."@;
    let u = untouched();
    let n = text.layers@.len();
    let open = opening(text, prefix, false);
    let mid = diffusion_layers(text, t, prefix, n);
    let cond = conditioning_stage(prefix);
    let end = bare(RuntimeCall::Finalize);
    lemma_gemma_opens(text, prefix, false);
    let m0 = run(u, open, open.len());
    lemma_run_join(u, open, mid);
    lemma_diffusion_layers(m0, text, t, prefix, n);
    let m1 = run(m0, mid, mid.len());
    lemma_run_join(u, open + mid, seq![cond, end]);
    lemma_run_two(m1, cond, end);
    let m = compiled(diffusion_program(text, t));
    assert(m.settings.last() =~= given(cond));
    assert(given(cond).weights =~= seq![
        dense(prefix + ".self_conditioning.pre_norm.weight"@),
        proj(prefix + ".self_conditioning.gate_proj"@),
        proj(prefix + ".self_conditioning.up_proj"@),
        proj(prefix + ".self_conditioning.down_proj"@),
    ]);
    assert forall|i: int| 0 <= i < m.layers.len() implies gemma_layer_holds(
        text,
        prefix,
        i as nat,
        values_of(
            p,
            i as nat,
            if t.contains_key(numbered(p, i as nat, ".self_attn.v_proj.weight"@)) {
                ValueSource::Own
            } else if text.layers@[i].is_full {
                ValueSource::Keys
            } else {
                ValueSource::Missing
            },
        ),
        #[trigger] m.layers[i],
    ) by {
        lemma_gemma_holds(
            text,
            prefix,
            i as nat,
            diffusion_values(t, layer_prefix(prefix, i as nat), text.layers@[i].is_full),
        );
    }
}

proof fn lemma_text_layers(m: Compiled, text: GemmaTextFacts, prefix: Seq<char>, n: nat)
    requires
        !m.ready,
    ensures
        run(m, text_layers(text, prefix, n), text_layers(text, prefix, n).len()) == (Compiled {
            layers: m.layers + Seq::new(
                n,
                |i: int| gemma_pushed(text, prefix, i as nat, ValueSource::Own),
            ),
            ..m
        }),
    decreases n,
{
    let want = |k: nat|
        m.layers + Seq::new(k, |i: int| gemma_pushed(text, prefix, i as nat, ValueSource::Own));
    if n == 0 {
        lemma_run_none(m, Seq::empty());
        assert(want(0) =~= m.layers);
    } else {
        let i = (n - 1) as nat;
        lemma_text_layers(m, text, prefix, i);
        lemma_run_join(
            m,
            text_layers(text, prefix, i),
            pushed_layer(text, prefix, i, ValueSource::Own),
        );
        let m0 = Compiled { layers: want(i), ..m };
        lemma_gemma_layer(m0, text, prefix, i, ValueSource::Own);
        assert(m0.layers.push(gemma_pushed(text, prefix, i, ValueSource::Own)) =~= want(n));
    }
}

/// A projection between bounds: the projection, the bounds of its input and
/// those of its output.
pub open spec fn bounded(i: nat, suffix: Seq<char>, w: Seq<Option<ReqView>>, k: int) -> bool {
    let base = numbered("vision_tower.encoder.layers."@, i, suffix);
    &&& w[k] == proj(base + ".linear"@)
    &&& w[k + 1] == dense(base + ".input_min"@)
    &&& w[k + 2] == dense(base + ".input_max"@)
    &&& w[k + 3] == dense(base + ".output_min"@)
    &&& w[k + 4] == dense(base + ".output_max"@)
}

/// A layer of the Gemma vision tower, place by place.
pub open spec fn vision_layer_holds(i: nat, g: Given) -> bool {
    let p = "vision_tower.encoder.layers."@;
    let w = g.weights;
    &&& g.call == RuntimeCall::PushVisionLayer
    &&& w.len() == 41
    &&& w[0] == dense(numbered(p, i, ".input_layernorm.weight"@))
    &&& bounded(i, ".self_attn.q_proj"@, w, 1)
    &&& bounded(i, ".self_attn.k_proj"@, w, 6)
    &&& bounded(i, ".self_attn.v_proj"@, w, 11)
    &&& bounded(i, ".self_attn.o_proj"@, w, 16)
    &&& w[21] == dense(numbered(p, i, ".self_attn.q_norm.weight"@))
    &&& w[22] == dense(numbered(p, i, ".self_attn.k_norm.weight"@))
    &&& w[23] == dense(numbered(p, i, ".post_attention_layernorm.weight"@))
    &&& w[24] == dense(numbered(p, i, ".pre_feedforward_layernorm.weight"@))
    &&& bounded(i, ".mlp.gate_proj"@, w, 25)
    &&& bounded(i, ".mlp.up_proj"@, w, 30)
    &&& bounded(i, ".mlp.down_proj"@, w, 35)
    &&& w[40] == dense(numbered(p, i, ".post_feedforward_layernorm.weight"@))
}

proof fn lemma_vision_holds(i: nat)
    ensures
        vision_layer_holds(i, given(vision_layer_stage(i))),
{
    let s = vision_layer_stage(i);
    let w = given(s).weights;
    let p = vision_prefix(i);
    assert(s.adds.len() == 41);
    assert forall|k: int| 0 <= k < 41 implies #[trigger] w[k] == Some(s.adds[k]) by {}
}

proof fn lemma_vision_layers(m: Compiled, n: nat)
    requires
        !m.ready,
    ensures
        run(m, vision_layers(n), vision_layers(n).len()) == (Compiled {
            vision_layers: m.vision_layers + Seq::new(
                n,
                |i: int| given(vision_layer_stage(i as nat)),
            ),
            ..m
        }),
    decreases n,
{
    let want = |k: nat|
        m.vision_layers + Seq::new(k, |i: int| given(vision_layer_stage(i as nat)));
    if n == 0 {
        lemma_run_none(m, Seq::empty());
        assert(want(0) =~= m.vision_layers);
    } else {
        let i = (n - 1) as nat;
        let s = vision_layer_stage(i);
        lemma_vision_layers(m, i);
        lemma_run_join(m, vision_layers(i), seq![s]);
        assert(vision_layers(i) + seq![s] =~= vision_layers(n));
        let m0 = Compiled { vision_layers: want(i), ..m };
        lemma_run_one(m0, s);
        assert(called(m0, s).vision_layers =~= want(n));
    }
}

/// The configuration of the Gemma vision tower and the weights at its ends.
pub open spec fn vision_opens(v: MetalGemma4VisionConfig, token: u32, g: Given) -> bool {
    &&& g.call == RuntimeCall::SetVisionConfig
    &&& g.weights == seq![
        proj("vision_tower.patch_embedder.input_proj"@),
        dense("vision_tower.patch_embedder.position_embedding_table"@),
        proj("embed_vision.embedding_projection"@),
    ]
    &&& g.numbers == seq![
        token as i32,
        v.hidden_size as i32,
        v.intermediate_size as i32,
        v.num_hidden_layers as i32,
        v.num_attention_heads as i32,
        v.num_key_value_heads as i32,
        v.head_dim as i32,
        v.patch_size as i32,
        v.pooling_kernel_size as i32,
        v.default_output_length as i32,
        v.position_embedding_size as i32,
    ]
    &&& g.flags == seq![v.use_clipped_linears]
}

proof fn lemma_vision_opens(v: MetalGemma4VisionConfig, token: u32)
    ensures
        vision_opens(v, token, given(vision_config_stage(v, Some(token)))),
{
    let g = given(vision_config_stage(v, Some(token)));
    reveal_strlit("vision_tower.patch_embedder");
    reveal_strlit(".input_proj");
    reveal_strlit("vision_tower.patch_embedder.input_proj");
    reveal_strlit(".position_embedding_table");
    reveal_strlit("vision_tower.patch_embedder.position_embedding_table");
    reveal_strlit("embed_vision");
    reveal_strlit(".embedding_projection");
    reveal_strlit("embed_vision.embedding_projection");
    assert(part("vision_tower.patch_embedder"@, ".input_proj"@)
        =~= "vision_tower.patch_embedder.input_proj"@);
    assert(part("vision_tower.patch_embedder"@, ".position_embedding_table"@)
        =~= "vision_tower.patch_embedder.position_embedding_table"@);
    assert(part("embed_vision"@, ".embedding_projection"@)
        =~= "embed_vision.embedding_projection"@);
    assert(g.weights =~= seq![
        proj("vision_tower.patch_embedder.input_proj"@),
        dense("vision_tower.patch_embedder.position_embedding_table"@),
        proj("embed_vision.embedding_projection"@),
    ]);
}

/// A Gemma model ends up ready, with all its text layers, each with its own
/// weights in its places and a value projection of its own, and, where it sees,
/// with all layers of its vision tower. A tower without the token that stands
/// for images is handed something that is not there.
#[verifier::rlimit(40)]
pub proof fn gemma4_models_hold_their_weights(
    text: GemmaTextFacts,
    vision: Option<MetalGemma4VisionConfig>,
    image_token: Option<u32>,
)
    ensures
        ({
            let m = compiled(gemma4_program(text, vision, image_token));
            let prefix = "language_model.model"@;
            let p = prefix + ".layers."@;
            let per_layer: int = if text.per_layer is Some {
                1
            } else {
                0
            };
            &&& m.ready && !m.refused
            &&& m.layers.len() == text.layers@.len()
            &&& forall|i: int|
                0 <= i < m.layers.len() ==> gemma_layer_holds(
                    text,
                    prefix,
                    i as nat,
                    proj(numbered(p, i as nat, ".self_attn.v_proj"@)),
                    #[trigger] m.layers[i],
                )
            &&& gemma_opens(text, prefix, true, m.settings)
            &&& match vision {
                None => m.settings.len() == 3 + per_layer && m.vision_layers.len() == 0,
                Some(v) => {
                    &&& m.settings.len() == 4 + per_layer
                    &&& m.vision_layers.len() == v.num_hidden_layers
                    &&& forall|i: int|
                        0 <= i < m.vision_layers.len() ==> vision_layer_holds(
                            i as nat,
                            #[trigger] m.vision_layers[i],
                        )
                    &&& image_token matches Some(k) ==> vision_opens(v, k, m.settings.last())
                    &&& image_token is None ==> given(
                        vision_config_stage(v, image_token),
                    ) == m.settings.last() && vision_config_stage(v, image_token).adds == seq![
                        ReqView::Absent(LoadError::MissingImageToken),
                    ]
                },
            }
        }),
{
    let prefix = "language_model.model"@;
    let u = untouched();
    let n = text.layers@.len();
    let open = opening(text, prefix, true);
    let mid = text_layers(text, prefix, n);
    let end = bare(RuntimeCall::Finalize);
    lemma_gemma_opens(text, prefix, true);
    let m0 = run(u, open, open.len());
    lemma_run_join(u, open, mid);
    lemma_text_layers(m0, text, prefix, n);
    let m1 = run(m0, mid, mid.len());
    let m = compiled(gemma4_program(text, vision, image_token));
    match vision {
        None => {
            lemma_run_join(u, open + mid, Seq::<StageView>::empty());
            lemma_run_join(u, open + mid + Seq::<StageView>::empty(), seq![end]);
            lemma_run_none(m1, Seq::empty());
            lemma_run_one(m1, end);
        },
        Some(v) => {
            let k = v.num_hidden_layers as nat;
            let config = vision_config_stage(v, image_token);
            let tower = seq![config] + vision_layers(k);
            lemma_run_join(u, open + mid, tower);
            lemma_run_join(m1, seq![config], vision_layers(k));
            lemma_run_one(m1, config);
            let m2 = called(m1, config);
            lemma_vision_layers(m2, k);
            let m3 = run(m2, vision_layers(k), vision_layers(k).len());
            lemma_run_join(u, open + mid + tower, seq![end]);
            lemma_run_one(m3, end);
            assert(m.settings.last() == given(config));
            if image_token is Some {
                lemma_vision_opens(v, image_token->0);
            }
            assert forall|i: int| 0 <= i < m.vision_layers.len() implies vision_layer_holds(
                i as nat,
                #[trigger] m.vision_layers[i],
            ) by {
                lemma_vision_holds(i as nat);
            }
        },
    }
    assert forall|i: int| 0 <= i < m.layers.len() implies gemma_layer_holds(
        text,
        prefix,
        i as nat,
        proj(numbered(prefix + ".layers."@, i as nat, ".self_attn.v_proj"@)),
        #[trigger] m.layers[i],
    ) by {
        lemma_gemma_holds(text, prefix, i as nat, ValueSource::Own);
        assert(m.layers[i] == gemma_pushed(text, prefix, i as nat, ValueSource::Own));
    }
}

// ---- DeepSeek-OCR ----

/// A weight in blocks of thirty-two eight-bit elements.
pub open spec fn blocked(name: Seq<char>) -> Option<ReqView> {
    Some(ReqView::Mxfp8 { base: name, group_size: 32, bits: 8 })
}

/// A text layer of a DeepSeek-OCR model, place by place: behind norms and
/// attention three places of a dense feed-forward, then router, experts and
/// shared experts. A layer fills one kind and leaves the other empty.
pub open spec fn ocr_layer_holds(t: OcrTextFacts, i: nat, l: Layer) -> bool {
    let p = "language_model.model.layers."@;
    let moe = t.moe_layers@[i as int];
    let w = l.own.weights;
    &&& l.own.call == RuntimeCall::PushLayer
    &&& l.more.len() == 0 && l.own.arrays.len() == 0
    &&& w.len() == 16
    &&& w[0] == dense(numbered(p, i, ".input_layernorm.weight"@))
    &&& w[1] == dense(numbered(p, i, ".post_attention_layernorm.weight"@))
    &&& w[2] == blocked(numbered(p, i, ".self_attn.q_proj"@))
    &&& w[3] == blocked(numbered(p, i, ".self_attn.k_proj"@))
    &&& w[4] == blocked(numbered(p, i, ".self_attn.v_proj"@))
    &&& w[5] == blocked(numbered(p, i, ".self_attn.o_proj"@))
    &&& !moe ==> {
        &&& w[6] == blocked(numbered(p, i, ".mlp.gate_proj"@))
        &&& w[7] == blocked(numbered(p, i, ".mlp.up_proj"@))
        &&& w[8] == blocked(numbered(p, i, ".mlp.down_proj"@))
        &&& forall|k: int| 9 <= k < 16 ==> #[trigger] w[k] is None
        &&& l.own.numbers == seq![0i32, 0i32]
    }
    &&& moe ==> {
        &&& forall|k: int| 6 <= k < 9 ==> #[trigger] w[k] is None
        &&& w[9] == dense(numbered(p, i, ".mlp.gate.weight"@))
        &&& w[10] == blocked(numbered(p, i, ".mlp.switch_mlp.gate_proj"@))
        &&& w[11] == blocked(numbered(p, i, ".mlp.switch_mlp.up_proj"@))
        &&& w[12] == blocked(numbered(p, i, ".mlp.switch_mlp.down_proj"@))
        &&& w[13] == blocked(numbered(p, i, ".mlp.shared_experts.gate_proj"@))
        &&& w[14] == blocked(numbered(p, i, ".mlp.shared_experts.up_proj"@))
        &&& w[15] == blocked(numbered(p, i, ".mlp.shared_experts.down_proj"@))
        &&& l.own.numbers == seq![t.n_routed_experts as i32, t.num_experts_per_tok as i32]
    }
}

/// A block of the first tower. One that looks at the whole image has no window.
pub open spec fn sam_block_holds(v: OcrVisionFacts, i: nat, g: Given) -> bool {
    let p = "sam_model.blocks."@;
    let w = g.weights;
    &&& g.call == RuntimeCall::PushSamBlock
    &&& w.len() == 14
    &&& w[0] == dense(numbered(p, i, ".norm1.weight"@))
    &&& w[1] == dense(numbered(p, i, ".norm1.bias"@))
    &&& w[2] == dense(numbered(p, i, ".attn.qkv.weight"@))
    &&& w[3] == dense(numbered(p, i, ".attn.qkv.bias"@))
    &&& w[4] == dense(numbered(p, i, ".attn.proj.weight"@))
    &&& w[5] == dense(numbered(p, i, ".attn.proj.bias"@))
    &&& w[6] == dense(numbered(p, i, ".attn.rel_pos_h"@))
    &&& w[7] == dense(numbered(p, i, ".attn.rel_pos_w"@))
    &&& w[8] == dense(numbered(p, i, ".norm2.weight"@))
    &&& w[9] == dense(numbered(p, i, ".norm2.bias"@))
    &&& w[10] == dense(numbered(p, i, ".mlp.lin1.weight"@))
    &&& w[11] == dense(numbered(p, i, ".mlp.lin1.bias"@))
    &&& w[12] == dense(numbered(p, i, ".mlp.lin2.weight"@))
    &&& w[13] == dense(numbered(p, i, ".mlp.lin2.bias"@))
    &&& g.numbers == seq![
        if v.sam_global_attn_indexes@.contains(i as usize) {
            0i32
        } else {
            v.sam_window_size as i32
        },
    ]
}

/// A layer of the second tower.
pub open spec fn clip_layer_holds(i: nat, g: Given) -> bool {
    let p = "vision_model.transformer.layers."@;
    let w = g.weights;
    &&& g.call == RuntimeCall::PushClipLayer
    &&& w.len() == 12
    &&& w[0] == dense(numbered(p, i, ".layer_norm1.weight"@))
    &&& w[1] == dense(numbered(p, i, ".layer_norm1.bias"@))
    &&& w[2] == dense(numbered(p, i, ".self_attn.qkv_proj.weight"@))
    &&& w[3] == dense(numbered(p, i, ".self_attn.qkv_proj.bias"@))
    &&& w[4] == dense(numbered(p, i, ".self_attn.out_proj.weight"@))
    &&& w[5] == dense(numbered(p, i, ".self_attn.out_proj.bias"@))
    &&& w[6] == dense(numbered(p, i, ".layer_norm2.weight"@))
    &&& w[7] == dense(numbered(p, i, ".layer_norm2.bias"@))
    &&& w[8] == dense(numbered(p, i, ".mlp.fc1.weight"@))
    &&& w[9] == dense(numbered(p, i, ".mlp.fc1.bias"@))
    &&& w[10] == dense(numbered(p, i, ".mlp.fc2.weight"@))
    &&& w[11] == dense(numbered(p, i, ".mlp.fc2.bias"@))
}

/// The weights at the ends of the two towers, and those that join them to the
/// text model.
pub open spec fn ocr_ends_hold(sam: Given, clip: Given, joint: Given) -> bool {
    let s = "sam_model"@;
    let c = "vision_model"@;
    &&& sam.call == RuntimeCall::SetSamStem
    &&& sam.weights.len() == 11
    &&& sam.weights[0] == dense(s + ".patch_embed.proj.weight"@)
    &&& sam.weights[1] == dense(s + ".patch_embed.proj.bias"@)
    &&& sam.weights[2] == dense(s + ".pos_embed"@)
    &&& sam.weights[3] == dense(s + ".neck.0.weight"@)
    &&& sam.weights[4] == dense(s + ".neck.1.weight"@)
    &&& sam.weights[5] == dense(s + ".neck.1.bias"@)
    &&& sam.weights[6] == dense(s + ".neck.2.weight"@)
    &&& sam.weights[7] == dense(s + ".neck.3.weight"@)
    &&& sam.weights[8] == dense(s + ".neck.3.bias"@)
    &&& sam.weights[9] == dense(s + ".net_2.weight"@)
    &&& sam.weights[10] == dense(s + ".net_3.weight"@)
    &&& clip.call == RuntimeCall::SetClipStem
    &&& clip.weights.len() == 4
    &&& clip.weights[0] == dense(c + ".embeddings.class_embedding"@)
    &&& clip.weights[1] == dense(c + ".embeddings.position_embedding.weight"@)
    &&& clip.weights[2] == dense(c + ".pre_layrnorm.weight"@)
    &&& clip.weights[3] == dense(c + ".pre_layrnorm.bias"@)
    &&& joint.call == RuntimeCall::SetProjector
    &&& joint.weights.len() == 4
    &&& joint.weights[0] == blocked("projector"@ + ".layers"@)
    &&& joint.weights[1] == dense("projector"@ + ".layers.bias"@)
    &&& joint.weights[2] == dense("image"@ + "_newline"@)
    &&& joint.weights[3] == dense("view"@ + "_separator"@)
}

proof fn lemma_ocr_layers(m: Compiled, t: OcrTextFacts, n: nat)
    requires
        !m.ready,
    ensures
        run(m, ocr_layers(t, n), ocr_layers(t, n).len()) == (Compiled {
            layers: m.layers + Seq::new(
                n,
                |i: int| Layer { own: given(ocr_layer_stage(t, i as nat)), more: Seq::empty() },
            ),
            ..m
        }),
    decreases n,
{
    let want = |k: nat|
        m.layers + Seq::new(
            k,
            |i: int| Layer { own: given(ocr_layer_stage(t, i as nat)), more: Seq::empty() },
        );
    if n == 0 {
        lemma_run_none(m, Seq::empty());
        assert(want(0) =~= m.layers);
    } else {
        let i = (n - 1) as nat;
        let s = ocr_layer_stage(t, i);
        lemma_ocr_layers(m, t, i);
        lemma_run_join(m, ocr_layers(t, i), seq![s]);
        assert(ocr_layers(t, i) + seq![s] =~= ocr_layers(t, n));
        let m0 = Compiled { layers: want(i), ..m };
        lemma_run_one(m0, s);
        assert(called(m0, s).layers =~= want(n));
    }
}

proof fn lemma_sam_blocks(m: Compiled, v: OcrVisionFacts, n: nat)
    requires
        !m.ready,
    ensures
        run(m, sam_blocks(v, n), sam_blocks(v, n).len()) == (Compiled {
            sam_blocks: m.sam_blocks + Seq::new(
                n,
                |i: int| given(sam_block_stage(v, i as nat)),
            ),
            ..m
        }),
    decreases n,
{
    let want = |k: nat|
        m.sam_blocks + Seq::new(k, |i: int| given(sam_block_stage(v, i as nat)));
    if n == 0 {
        lemma_run_none(m, Seq::empty());
        assert(want(0) =~= m.sam_blocks);
    } else {
        let i = (n - 1) as nat;
        let s = sam_block_stage(v, i);
        lemma_sam_blocks(m, v, i);
        lemma_run_join(m, sam_blocks(v, i), seq![s]);
        assert(sam_blocks(v, i) + seq![s] =~= sam_blocks(v, n));
        let m0 = Compiled { sam_blocks: want(i), ..m };
        lemma_run_one(m0, s);
        assert(called(m0, s).sam_blocks =~= want(n));
    }
}

proof fn lemma_clip_layers(m: Compiled, n: nat)
    requires
        !m.ready,
    ensures
        run(m, clip_layers(n), clip_layers(n).len()) == (Compiled {
            clip_layers: m.clip_layers + Seq::new(n, |i: int| given(clip_layer_stage(i as nat))),
            ..m
        }),
    decreases n,
{
    let want = |k: nat| m.clip_layers + Seq::new(k, |i: int| given(clip_layer_stage(i as nat)));
    if n == 0 {
        lemma_run_none(m, Seq::empty());
        assert(want(0) =~= m.clip_layers);
    } else {
        let i = (n - 1) as nat;
        let s = clip_layer_stage(i);
        lemma_clip_layers(m, i);
        lemma_run_join(m, clip_layers(i), seq![s]);
        assert(clip_layers(i) + seq![s] =~= clip_layers(n));
        let m0 = Compiled { clip_layers: want(i), ..m };
        lemma_run_one(m0, s);
        assert(called(m0, s).clip_layers =~= want(n));
    }
}

proof fn lemma_ocr_vision(m: Compiled, v: OcrVisionFacts, image_token: u32)
    requires
        !m.ready,
    ensures
        ({
            let s = ocr_vision(v, image_token);
            let end = run(m, s, s.len());
            &&& end.settings == m.settings + seq![
                given(ocr_vision_config_stage(v, image_token)),
                given(sam_stem_stage()),
                given(clip_stem_stage()),
                given(projector_stage()),
            ]
            &&& end.sam_blocks == m.sam_blocks + Seq::new(
                v.sam_layers as nat,
                |i: int| given(sam_block_stage(v, i as nat)),
            )
            &&& end.clip_layers == m.clip_layers + Seq::new(
                v.num_hidden_layers as nat,
                |i: int| given(clip_layer_stage(i as nat)),
            )
            &&& end.layers == m.layers && end.vision_layers == m.vision_layers
            &&& !end.ready && end.refused == m.refused
        }),
{
    let config = ocr_vision_config_stage(v, image_token);
    let stem = sam_stem_stage();
    let a = seq![config, stem];
    let b = sam_blocks(v, v.sam_layers as nat);
    let c = seq![clip_stem_stage()];
    let d = clip_layers(v.num_hidden_layers as nat);
    let e = seq![projector_stage()];
    lemma_run_join(m, a, b);
    lemma_run_join(m, a + b, c);
    lemma_run_join(m, a + b + c, d);
    lemma_run_join(m, a + b + c + d, e);
    lemma_run_two(m, config, stem);
    let m1 = called(called(m, config), stem);
    lemma_sam_blocks(m1, v, v.sam_layers as nat);
    let m2 = run(m1, b, b.len());
    lemma_run_one(m2, clip_stem_stage());
    let m3 = called(m2, clip_stem_stage());
    lemma_clip_layers(m3, v.num_hidden_layers as nat);
    let m4 = run(m3, d, d.len());
    lemma_run_one(m4, projector_stage());
    let m5 = called(m4, projector_stage());
    assert(m5.settings =~= m.settings + seq![
        given(config),
        given(stem),
        given(clip_stem_stage()),
        given(projector_stage()),
    ]);
}

/// A DeepSeek-OCR model ends up ready, with all its text layers, the blocks of
/// its first tower and the layers of its second, each with its own weights in
/// its places, and with the weights that join the towers to the text.
#[verifier::rlimit(40)]
pub proof fn ocr_models_hold_their_weights(t: OcrTextFacts, v: OcrVisionFacts, image_token: u32)
    ensures
        ({
            let m = compiled(ocr_program(t, v, image_token));
            let text = "language_model.model"@;
            &&& m.ready && !m.refused
            &&& m.layers.len() == t.moe_layers@.len()
            &&& forall|i: int|
                0 <= i < m.layers.len() ==> ocr_layer_holds(t, i as nat, #[trigger] m.layers[i])
            &&& m.sam_blocks.len() == v.sam_layers
            &&& forall|i: int|
                0 <= i < m.sam_blocks.len() ==> sam_block_holds(
                    v,
                    i as nat,
                    #[trigger] m.sam_blocks[i],
                )
            &&& m.clip_layers.len() == v.num_hidden_layers
            &&& forall|i: int|
                0 <= i < m.clip_layers.len() ==> clip_layer_holds(
                    i as nat,
                    #[trigger] m.clip_layers[i],
                )
            &&& m.settings.len() == 6
            &&& m.settings[0].call == RuntimeCall::SetConfig
            &&& m.settings[0].numbers == seq![
                t.hidden_size as i32,
                t.vocab_size as i32,
                t.num_attention_heads as i32,
                t.num_key_value_heads as i32,
                t.head_dim as i32,
                t.v_head_dim as i32,
            ]
            &&& m.settings[1].call == RuntimeCall::SetEmbed
            &&& m.settings[1].weights == seq![
                blocked(text + ".embed_tokens"@),
                blocked("language_model"@ + ".lm_head"@),
                dense(text + ".norm.weight"@),
            ]
            &&& m.settings[1].numbers == seq![t.group_size, t.bits]
            &&& m.settings[2].call == RuntimeCall::SetVisionConfig
            &&& m.settings[2].numbers == seq![
                image_token as i32,
                v.hidden_size as i32,
                v.intermediate_size as i32,
                v.num_hidden_layers as i32,
                v.num_attention_heads as i32,
                v.patch_size as i32,
                v.sam_width as i32,
                v.sam_layers as i32,
                v.sam_heads as i32,
                v.sam_patch_size as i32,
                v.sam_window_size as i32,
                v.sam_image_size as i32,
                v.projector_input_dim as i32,
                v.projector_n_embed as i32,
            ]
            &&& ocr_ends_hold(m.settings[3], m.settings[4], m.settings[5])
        }),
{
    let text = "language_model.model"@;
    let u = untouched();
    let n = t.moe_layers@.len();
    let config = ocr_config_stage(t);
    let embed = ocr_embed_stage(t);
    let head = seq![config, embed];
    let mid = ocr_layers(t, n);
    let sight = ocr_vision(v, image_token);
    let end = bare(RuntimeCall::Finalize);
    lemma_run_two(u, config, embed);
    let m0 = called(called(u, config), embed);
    lemma_run_join(u, head, mid);
    lemma_ocr_layers(m0, t, n);
    let m1 = run(m0, mid, mid.len());
    lemma_run_join(u, head + mid, sight);
    lemma_ocr_vision(m1, v, image_token);
    let m2 = run(m1, sight, sight.len());
    lemma_run_join(u, head + mid + sight, seq![end]);
    lemma_run_one(m2, end);
    assert(m0.settings =~= seq![given(config), given(embed)]);
    let m = compiled(ocr_program(t, v, image_token));
    assert(given(embed).weights =~= seq![
        blocked(text + ".embed_tokens"@),
        blocked("language_model"@ + ".lm_head"@),
        dense(text + ".norm.weight"@),
    ]);
    assert forall|i: int| 0 <= i < m.layers.len() implies ocr_layer_holds(
        t,
        i as nat,
        #[trigger] m.layers[i],
    ) by {
        lemma_ocr_layer_holds(t, i as nat);
    }
    assert forall|i: int| 0 <= i < m.sam_blocks.len() implies sam_block_holds(
        v,
        i as nat,
        #[trigger] m.sam_blocks[i],
    ) by {
        lemma_sam_block_holds(v, i as nat);
    }
    assert forall|i: int| 0 <= i < m.clip_layers.len() implies clip_layer_holds(
        i as nat,
        #[trigger] m.clip_layers[i],
    ) by {
        lemma_clip_layer_holds(i as nat);
    }
    lemma_ocr_ends_hold();
}

proof fn lemma_ocr_layer_holds(t: OcrTextFacts, i: nat)
    ensures
        ocr_layer_holds(
            t,
            i,
            (Layer { own: given(ocr_layer_stage(t, i)), more: Seq::empty() }),
        ),
{
}

proof fn lemma_sam_block_holds(v: OcrVisionFacts, i: nat)
    ensures
        sam_block_holds(v, i, given(sam_block_stage(v, i))),
{
}

proof fn lemma_clip_layer_holds(i: nat)
    ensures
        clip_layer_holds(i, given(clip_layer_stage(i))),
{
}

proof fn lemma_ocr_ends_hold()
    ensures
        ocr_ends_hold(given(sam_stem_stage()), given(clip_stem_stage()), given(projector_stage())),
{
}

// ---- what loads can be registered ----

/// A request can be met.
#[verifier::opaque]
pub open spec fn met(t: Infos, q: Option<QuantView>, r: ReqView) -> bool {
    request_fault(t, q, r) is None
}

/// Every request of a list can be met.
pub open spec fn all_met(t: Infos, q: Option<QuantView>, rs: Seq<ReqView>) -> bool {
    forall|k: int| 0 <= k < rs.len() ==> met(t, q, #[trigger] rs[k])
}

/// Everything that a call hands over is there.
pub open spec fn there(t: Infos, q: Option<QuantView>, g: Given) -> bool {
    &&& forall|k: int|
        0 <= k < g.weights.len() ==> (#[trigger] g.weights[k] matches Some(r) ==> met(t, q, r))
    &&& all_met(t, q, g.arrays)
}

/// Everything that was handed to a layer is there.
pub open spec fn layer_there(t: Infos, q: Option<QuantView>, l: Layer) -> bool {
    &&& there(t, q, l.own)
    &&& forall|k: int| 0 <= k < l.more.len() ==> there(t, q, #[trigger] l.more[k])
}

proof fn lemma_met_parts(t: Infos, q: Option<QuantView>, a: Seq<ReqView>, b: Seq<ReqView>)
    requires
        all_met(t, q, a + b),
    ensures
        all_met(t, q, a),
        all_met(t, q, b),
{
    assert forall|k: int| 0 <= k < a.len() implies met(t, q, #[trigger] a[k]) by {
        assert((a + b)[k] == a[k]);
    }
    assert forall|k: int| 0 <= k < b.len() implies met(t, q, #[trigger] b[k]) by {
        assert((a + b)[a.len() + k] == b[k]);
    }
}

proof fn lemma_lfm2_loads_met(f: Lfm2Facts, t: Infos, q: Option<QuantView>, n: nat, i: nat)
    requires
        i < n,
        all_met(t, q, lfm2_layers_loads(f, t, q, n)),
    ensures
        all_met(t, q, lfm2_layer_loads(f, t, q, i)),
    decreases n,
{
    lemma_met_parts(
        t,
        q,
        lfm2_layers_loads(f, t, q, (n - 1) as nat),
        lfm2_layer_loads(f, t, q, (n - 1) as nat),
    );
    if i + 1 < n {
        lemma_lfm2_loads_met(f, t, q, (n - 1) as nat, i);
    }
}

#[verifier::rlimit(30)]
proof fn lemma_lfm2_layer_there(f: Lfm2Facts, t: Infos, q: Option<QuantView>, i: nat)
    requires
        all_met(t, q, lfm2_layer_loads(f, t, q, i)),
    ensures
        layer_there(t, q, lfm2_pushed(f, t, q, i)),
        !(f.layers@[i as int].kind is LinearAttention),
{
    let p = lfm2_layer(i);
    let l = f.layers@[i as int];
    let norms = seq![
        ReqView::Dense(part(p, ".operator_norm.weight"@)),
        ReqView::Dense(part(p, ".ffn_norm.weight"@)),
    ];
    let ffn = if l.moe {
        moe_ffn_loads(t, q, p, f.moe)
    } else {
        dense_ffn_loads(t, q, p)
    };
    let op = operator_loads(p, l.kind, f.conv_kernel);
    lemma_met_parts(t, q, norms + ffn, op);
    lemma_met_parts(t, q, norms, ffn);
    assert(met(t, q, norms[0]) && met(t, q, norms[1]));
    assert(met(t, q, op[0]));
    if l.kind is LinearAttention {
        reveal(met);
    }
    if l.kind is Conv {
        assert(met(t, q, op[1]) && met(t, q, op[2]));
    } else if l.kind is FullAttention {
        assert(met(t, q, op[1]) && met(t, q, op[2]));
        assert(met(t, q, op[3]) && met(t, q, op[4]));
        assert(met(t, q, op[5]));
    }
    if l.moe {
        let bound = if f.moe.num_experts > i32::MAX || f.moe.num_experts_per_tok > i32::MAX {
            seq![ReqView::Absent(LoadError::TooLarge)]
        } else {
            Seq::empty()
        };
        let router = seq![
            ReqView::DenseProj(part(p, ".feed_forward.gate"@)),
            ReqView::Dense(part(p, ".feed_forward.expert_bias"@)),
        ];
        let store = expert_store(t, q, p);
        let own = expert_loads(store, p, f.moe.num_experts);
        lemma_met_parts(t, q, bound + router, own);
        lemma_met_parts(t, q, bound, router);
        assert(met(t, q, router[0]) && met(t, q, router[1]));
        assert(own.len() == 3);
        assert(met(t, q, own[0]) && met(t, q, own[1])
            && met(t, q, own[2]));
        let s = lfm2_moe_stage(t, q, p, f.moe);
        let g = given(s);
        if store is Packed {
            assert(met(t, q, s.adds[0]) && met(t, q, s.adds[1]) && met(t, q, s.adds[2])) by {
                reveal(met);
            }
        }
        assert(there(t, q, g));
    } else {
        assert(met(t, q, ffn[2]) && met(t, q, ffn[4]));
    }
    let g = given(lfm2_layer_stage(f, t, q, i));
    let s = lfm2_layer_stage(f, t, q, i);
    assert forall|k: int| 0 <= k < s.adds.len() implies met(t, q, #[trigger] s.adds[k]) by {}
    assert(there(t, q, g));
}

/// A checkpoint that an LFM2 model can be loaded from has everything that is
/// handed to the model's layers; and no layer is of a kind that the model does
/// not know.
pub proof fn loaded_lfm2_layers_are_there(f: Lfm2Facts, t: Infos, q: Option<QuantView>, i: nat)
    requires
        lfm2_fault(f, t, q) is None,
        lfm2_loads(f, t, q).len() <= usize::MAX,
        i < f.layers@.len(),
    ensures
        layer_there(t, q, compiled(lfm2_program(f, t, q)).layers[i as int]),
        !(f.layers@[i as int].kind is LinearAttention),
{
    let loads = lfm2_loads(f, t, q);
    let n = f.layers@.len();
    faults_come_in_order(t, q, loads, loads.len());
    assert(all_met(t, q, loads)) by {
        reveal(met);
    }
    let head = seq![
        ReqView::Embed(part("model"@, ".embed_tokens"@)),
        ReqView::Dense(part("model"@, ".embedding_norm.weight"@)),
    ];
    lemma_met_parts(t, q, head, lfm2_layers_loads(f, t, q, n));
    lemma_lfm2_loads_met(f, t, q, n, i);
    lemma_lfm2_layer_there(f, t, q, i);
    lemma_lfm2_pushed(f, t, q, i);
}

proof fn lemma_lfm2_pushed(f: Lfm2Facts, t: Infos, q: Option<QuantView>, i: nat)
    requires
        i < f.layers@.len(),
    ensures
        compiled(lfm2_program(f, t, q)).layers[i as int] == lfm2_pushed(f, t, q, i),
{
    let head = lfm2_head(f, t, q);
    let n = f.layers@.len();
    let mid = lfm2_layers(f, t, q, n);
    let end = bare(RuntimeCall::Finalize);
    lemma_lfm2_head(f, t, q);
    let m0 = run(untouched(), head, head.len());
    lemma_run_join(untouched(), head, mid);
    lemma_run_join(untouched(), head + mid, seq![end]);
    lemma_lfm2_layers(m0, f, t, q, n);
    lemma_run_one(run(m0, mid, mid.len()), end);
}

proof fn lemma_qwen35_loads_met(
    c: ConfigView,
    t: Infos,
    prefix: Seq<char>,
    offset: bool,
    n: nat,
    i: nat,
)
    requires
        i < n,
        all_met(t, c.quantization, layers_loads(c, prefix, n, offset)),
    ensures
        all_met(t, c.quantization, layer_loads(c, prefix, i, offset)),
    decreases n,
{
    lemma_met_parts(
        t,
        c.quantization,
        layers_loads(c, prefix, (n - 1) as nat, offset),
        layer_loads(c, prefix, (n - 1) as nat, offset),
    );
    if i + 1 < n {
        lemma_qwen35_loads_met(c, t, prefix, offset, (n - 1) as nat, i);
    }
}

#[verifier::rlimit(60)]
proof fn lemma_qwen35_layer_there(
    c: ConfigView,
    t: Infos,
    prefix: Seq<char>,
    i: nat,
    separate: bool,
    offset: bool,
)
    requires
        all_met(t, c.quantization, layer_loads(c, prefix, i, offset)),
    ensures
        layer_there(t, c.quantization, qwen35_pushed(c, t, prefix, i, separate, offset)),
{
    let q = c.quantization;
    let p = layer_name(prefix, i);
    let full = c.layer_types[i as int] is FullAttention;
    let moe = has_moe(c, i);
    let attn = if full {
        full_attn_loads(p, offset)
    } else {
        linear_attn_loads(p, c.linear)
    };
    let ffn = if moe {
        moe_loads(p, c.moe->0)
    } else {
        dense_mlp_loads(p)
    };
    let norms = seq![
        norm(p, ".input_layernorm.weight"@, offset),
        norm(p, ".post_attention_layernorm.weight"@, offset),
    ];
    lemma_met_parts(t, q, attn + ffn, norms);
    lemma_met_parts(t, q, attn, ffn);
    assert(met(t, q, norms[0]) && met(t, q, norms[1]));
    assert(met(t, q, attn[0]) && met(t, q, attn[1]) && met(t, q, attn[2]) && met(t, q, attn[3]) && met(t, q, attn[4]) && met(t, q, attn[5]));
    let l = qwen35_pushed(c, t, prefix, i, separate, offset);
    let s = layer_stages(c, t, prefix, i, separate, offset);
    if moe {
        let bound = match expert_fault(c.moe->0) {
            Some(e) => seq![ReqView::Absent(e)],
            None => Seq::empty(),
        };
        lemma_met_parts(t, q, bound, expert_arrays(p, c.moe->0));
        assert(there(t, q, given(moe_stage(p, c.moe->0))));
    } else {
        assert(met(t, q, ffn[0]) && met(t, q, ffn[1]) && met(t, q, ffn[2]) && met(t, q, ffn[4]));
    }
    if !full {
        assert(met(t, q, attn[6]) && met(t, q, attn[7]) && met(t, q, attn[8]) && met(t, q, attn[12]) && met(t, q, attn[13]));
    }
    let own = s[0];
    assert forall|k: int| 0 <= k < own.adds.len() implies met(t, q, #[trigger] own.adds[k]) by {}
    assert(there(t, q, l.own));
    assert forall|k: int| 0 <= k < l.more.len() implies there(t, q, #[trigger] l.more[k]) by {
        let g = l.more[k];
        let x = s[k + 1];
        assert(g == given(x));
        assert forall|j: int| 0 <= j < x.adds.len() implies met(t, q, #[trigger] x.adds[j]) by {}
    }
}

/// A checkpoint that a Qwen3.5 model can be loaded from has everything that is
/// handed to the model's layers.
pub proof fn loaded_qwen35_layers_are_there(
    c: ConfigView,
    t: Infos,
    rotary_dim: usize,
    separate: bool,
    offset: bool,
    i: nat,
)
    requires
        qwen35_fault(c, t, offset) is None,
        qwen35_loads(c, t, text_prefix(t)->0, offset).len() <= usize::MAX,
        i < c.num_hidden_layers,
    ensures
        ({
            let prefix = text_prefix(t)->0;
            let p = qwen35_program(c, t, prefix, rotary_dim, separate, offset);
            layer_there(t, c.quantization, compiled(p).layers[i as int])
        }),
{
    let q = c.quantization;
    let prefix = text_prefix(t)->0;
    let loads = qwen35_loads(c, t, prefix, offset);
    let n = c.num_hidden_layers as nat;
    faults_come_in_order(t, q, loads, loads.len());
    assert(all_met(t, q, loads)) by {
        reveal(met);
    }
    let head = seq![
        ReqView::Dense(part(prefix, ".layers.0.input_layernorm.weight"@)),
        ReqView::Embed(part(prefix, ".embed_tokens"@)),
        norm(prefix, ".norm.weight"@, offset),
    ] + (match head_of(t, prefix) {
        Some(h) => seq![ReqView::Proj(h)],
        None => Seq::empty(),
    });
    lemma_met_parts(t, q, head, layers_loads(c, prefix, n, offset));
    lemma_qwen35_loads_met(c, t, prefix, offset, n, i);
    lemma_qwen35_layer_there(c, t, prefix, i, separate, offset);
    let stages = head_stages(c, t, prefix, rotary_dim, offset);
    let mid = layers_stages(c, t, prefix, n, separate, offset);
    let end = bare(RuntimeCall::Finalize);
    lemma_qwen35_head(c, t, prefix, rotary_dim, offset);
    let m0 = run(untouched(), stages, stages.len());
    lemma_run_join(untouched(), stages, mid);
    lemma_run_join(untouched(), stages + mid, seq![end]);
    lemma_qwen35_layers(m0, c, t, prefix, n, separate, offset);
    lemma_run_one(run(m0, mid, mid.len()), end);
}

proof fn lemma_draft_loads_met(t: Infos, q: Option<QuantView>, n: nat, offset: bool, i: nat)
    requires
        i < n,
        all_met(t, q, draft_layers_loads(n, offset)),
    ensures
        all_met(t, q, draft_layer_loads(draft_layer(i), offset)),
    decreases n,
{
    lemma_met_parts(
        t,
        q,
        draft_layers_loads((n - 1) as nat, offset),
        draft_layer_loads(draft_layer((n - 1) as nat), offset),
    );
    if i + 1 < n {
        lemma_draft_loads_met(t, q, (n - 1) as nat, offset, i);
    }
}

/// A draft that can be loaded has everything that is handed to its layers.
pub proof fn loaded_draft_layers_are_there(
    c: DFlashDraftConfig,
    t: Infos,
    q: Option<QuantView>,
    norms_need_offset: bool,
    i: nat,
)
    requires
        ({
            let loads = draft_loads(
                c.draft_kind,
                c.dims.num_hidden_layers as nat,
                norms_need_offset,
            );
            first_fault(t, q, loads, loads.len()) is None && loads.len() <= usize::MAX
        }),
        i < c.dims.num_hidden_layers,
    ensures
        layer_there(t, q, compiled(draft_program(c, norms_need_offset)).layers[i as int]),
{
    let n = c.dims.num_hidden_layers as nat;
    let mtp = c.draft_kind == DraftKind::Qwen35Mtp;
    let offset = draft_offset(c.draft_kind, norms_need_offset);
    let loads = draft_loads(c.draft_kind, n, norms_need_offset);
    faults_come_in_order(t, q, loads, loads.len());
    assert(all_met(t, q, loads)) by {
        reveal(met);
    }
    let first = if mtp {
        seq![ReqView::Dense(part("layers.0"@, ".input_layernorm.weight"@))]
    } else {
        Seq::empty()
    };
    let ends = if mtp {
        seq![
            norm("pre_fc_norm_embedding"@, ".weight"@, offset),
            norm("pre_fc_norm_hidden"@, ".weight"@, offset),
        ]
    } else {
        seq![ReqView::Dense(part("hidden_norm"@, ".weight"@))]
    };
    let fc = seq![ReqView::Proj(part("fc"@, ""@)), norm("norm"@, ".weight"@, offset)];
    let mid = draft_layers_loads(n, offset);
    lemma_met_parts(t, q, first + mid + ends, fc);
    lemma_met_parts(t, q, first + mid, ends);
    lemma_met_parts(t, q, first, mid);
    lemma_draft_loads_met(t, q, n, offset, i);
    drafts_hold_their_weights(c, norms_need_offset);
    let l = compiled(draft_program(c, norms_need_offset)).layers[i as int];
    assert(draft_layer_holds(i, offset, l));
    let own = draft_layer_loads(draft_layer(i), offset);
    let a = l.own.arrays;
    assert(met(t, q, own[0]) && met(t, q, own[1]) && met(t, q, own[2]) && met(t, q, own[3]));
    assert(met(t, q, own[4]) && met(t, q, own[5]) && met(t, q, own[6]) && met(t, q, own[7]));
    assert(met(t, q, own[8]) && met(t, q, own[9]) && met(t, q, own[10]));
    assert(a[0] == own[0] && a[1] == own[1] && a[2] == own[2] && a[3] == own[3]);
    assert(a[4] == own[8] && a[5] == own[9] && a[6] == own[10]);
    assert(a[7] == own[4] && a[8] == own[5] && a[9] == own[6] && a[10] == own[7]);
    assert forall|k: int| 0 <= k < a.len() implies met(t, q, #[trigger] a[k]) by {}
}

// ---- prefixes ----

/// The text weights of a Qwen3.5 checkpoint are under the first of three
/// prefixes under which there are both an embedding and a final norm.
pub proof fn prefixes_are_tried_in_order(t: Infos)
    ensures
        ({
            let under = |p: Seq<char>|
                t.contains_key(p + ".embed_tokens.weight"@) && t.contains_key(p + ".norm.weight"@);
            let a = "language_model.model"@;
            let b = "model.language_model"@;
            let c = "model"@;
            &&& text_prefix(t) matches Some(p) ==> under(p) && (p == a || p == b || p == c)
            &&& under(a) ==> text_prefix(t) == Some(a)
            &&& !under(a) && under(b) ==> text_prefix(t) == Some(b)
            &&& !under(a) && !under(b) && under(c) ==> text_prefix(t) == Some(c)
            &&& text_prefix(t) is None <==> !under(a) && !under(b) && !under(c)
        }),
{
}

} // verus!
