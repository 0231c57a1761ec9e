//! Gemma4: how its text and vision weights are registered.
use vstd::prelude::*;

use crate::metal::config::MetalGemma4VisionConfig;
use crate::metal::diffusion_gemma::{
    build_layer_stage, build_opening, build_ple_stage, GemmaTextFacts, ValueSource,
};
#[allow(unused_imports)]
use crate::metal::diffusion_gemma::{opening, pushed_layer};
use crate::metal::loader::{part_name, LoadError};
#[allow(unused_imports)]
use crate::metal::loader::part;
use crate::metal::register::{
    indexed_name, low_i32, push_request, push_stage, want_dense, want_proj, Request, RuntimeCall,
    Stage,
};
#[allow(unused_imports)]
use crate::metal::register::{
    bare, has_slot, in_order, indexed, req_views, stage_views, wired, ReqView, StageView,
};

verus! {

/// The four bounds of a clipped projection.
pub open spec fn clip_adds(base: Seq<char>) -> Seq<ReqView> {
    seq![
        ReqView::Dense(part(base, ".input_min"@)),
        ReqView::Dense(part(base, ".input_max"@)),
        ReqView::Dense(part(base, ".output_min"@)),
        ReqView::Dense(part(base, ".output_max"@)),
    ]
}

/// A projection and its bounds.
pub open spec fn clipped_adds(base: Seq<char>) -> Seq<ReqView> {
    seq![ReqView::Proj(part(base, ".linear"@))] + clip_adds(base)
}

fn add_clipped(adds: &mut Vec<Request>, prefix: &str, suffix: &str)
    ensures
        req_views(final(adds)@) == req_views(old(adds)@) + clipped_adds(part(prefix@, suffix@)),
{
    let ghost before = req_views(adds@);
    let base: String = part_name(prefix, suffix);
    want_proj(adds, base.as_str(), ".linear");
    want_dense(adds, base.as_str(), ".input_min");
    want_dense(adds, base.as_str(), ".input_max");
    want_dense(adds, base.as_str(), ".output_min");
    want_dense(adds, base.as_str(), ".output_max");
    assert(req_views(adds@) =~= before + clipped_adds(base@));
}

/// The weights of a vision layer, in the order in which they are registered
/// and in which its call takes them.
pub open spec fn vision_layer_adds(p: Seq<char>) -> Seq<ReqView> {
    seq![ReqView::Dense(part(p, ".input_layernorm.weight"@))] + clipped_adds(
        part(p, ".self_attn.q_proj"@),
    ) + clipped_adds(part(p, ".self_attn.k_proj"@)) + clipped_adds(part(p, ".self_attn.v_proj"@))
        + clipped_adds(part(p, ".self_attn.o_proj"@)) + seq![
        ReqView::Dense(part(p, ".self_attn.q_norm.weight"@)),
        ReqView::Dense(part(p, ".self_attn.k_norm.weight"@)),
        ReqView::Dense(part(p, ".post_attention_layernorm.weight"@)),
        ReqView::Dense(part(p, ".pre_feedforward_layernorm.weight"@)),
    ] + clipped_adds(part(p, ".mlp.gate_proj"@)) + clipped_adds(part(p, ".mlp.up_proj"@))
        + clipped_adds(part(p, ".mlp.down_proj"@)) + seq![
        ReqView::Dense(part(p, ".post_feedforward_layernorm.weight"@)),
    ]
}

pub open spec fn vision_prefix(i: nat) -> Seq<char> {
    indexed("vision_tower.encoder.layers."@, i)
}

pub open spec fn vision_layer_stage(i: nat) -> StageView {
    StageView {
        call: RuntimeCall::PushVisionLayer,
        adds: vision_layer_adds(vision_prefix(i)),
        slots: in_order(41),
        arrays: Seq::empty(),
        numbers: Seq::empty(),
        flags: Seq::empty(),
    }
}

/// The configuration of the vision tower and the weights at its two ends. A
/// tower without the token that stands for images cannot be registered.
pub open spec fn vision_config_stage(
    v: MetalGemma4VisionConfig,
    image_token: Option<u32>,
) -> StageView {
    match image_token {
        None => StageView {
            adds: seq![ReqView::Absent(LoadError::MissingImageToken)],
            ..bare(RuntimeCall::SetVisionConfig)
        },
        Some(token) => StageView {
            call: RuntimeCall::SetVisionConfig,
            adds: seq![
                ReqView::Proj(part("vision_tower.patch_embedder"@, ".input_proj"@)),
                ReqView::Dense(part("vision_tower.patch_embedder"@, ".position_embedding_table"@)),
                ReqView::Proj(part("embed_vision"@, ".embedding_projection"@)),
            ],
            slots: in_order(3),
            arrays: Seq::empty(),
            numbers: seq![
                token as i32,
                v.hidden_size as i32,
                v.intermediate_size as i32,
                v.num_hidden_layers as i32,
                v.num_attention_heads as i32,
                v.num_key_value_heads as i32,
                v.head_dim as i32,
                v.patch_size as i32,
                v.pooling_kernel_size as i32,
                v.default_output_length as i32,
                v.position_embedding_size as i32,
            ],
            flags: seq![v.use_clipped_linears],
        },
    }
}

pub open spec fn vision_layers(n: nat) -> Seq<StageView>
    decreases n,
{
    if n == 0 {
        Seq::empty()
    } else {
        vision_layers((n - 1) as nat).push(vision_layer_stage((n - 1) as nat))
    }
}

pub open spec fn text_layers(text: GemmaTextFacts, prefix: Seq<char>, n: nat) -> Seq<StageView>
    decreases n,
{
    if n == 0 {
        Seq::empty()
    } else {
        let i = (n - 1) as nat;
        text_layers(text, prefix, i) + pushed_layer(text, prefix, i, ValueSource::Own)
    }
}

/// Everything that registering a model does, in order.
pub open spec fn gemma4_program(
    text: GemmaTextFacts,
    vision: Option<MetalGemma4VisionConfig>,
    image_token: Option<u32>,
) -> Seq<StageView> {
    let prefix = "language_model.model"@;
    opening(text, prefix, true) + text_layers(text, prefix, text.layers@.len()) + (match vision {
        Some(v) => seq![vision_config_stage(v, image_token)] + vision_layers(
            v.num_hidden_layers as nat,
        ),
        None => Seq::empty(),
    }) + seq![bare(RuntimeCall::Finalize)]
}

/// Collects the stages of a program.
#[derive(Debug)]
pub struct CppGemma4Builder {
    pub program: Vec<Stage>,
}

impl CppGemma4Builder {
    /// Adds a text layer, which always has values of its own.
    pub fn push_layer(&mut self, text: &GemmaTextFacts, prefix: &str, i: usize)
        requires
            i < text.layers@.len(),
        ensures
            stage_views(final(self).program@) == stage_views(old(self).program@) + pushed_layer(
                *text,
                prefix@,
                i as nat,
                ValueSource::Own,
            ),
    {
        let base: String = part_name(prefix, ".layers.");
        let p: String = indexed_name(base.as_str(), i);
        let ghost before = stage_views(self.program@);
        push_stage(
            &mut self.program,
            build_layer_stage(text, &text.layers[i], p.as_str(), ValueSource::Own),
        );
        if text.per_layer.is_some() {
            push_stage(&mut self.program, build_ple_stage(p.as_str(), i));
        }
        assert(stage_views(self.program@) =~= before + pushed_layer(
            *text,
            prefix@,
            i as nat,
            ValueSource::Own,
        ));
    }

    /// Adds a layer of the vision tower.
    pub fn push_vision_layer(&mut self, i: usize)
        ensures
            stage_views(final(self).program@) == stage_views(old(self).program@).push(
                vision_layer_stage(i as nat),
            ),
    {
        let p: String = indexed_name("vision_tower.encoder.layers.", i);
        let mut s: Stage = Stage::new(RuntimeCall::PushVisionLayer);
        want_dense(&mut s.adds, p.as_str(), ".input_layernorm.weight");
        add_clipped(&mut s.adds, p.as_str(), ".self_attn.q_proj");
        add_clipped(&mut s.adds, p.as_str(), ".self_attn.k_proj");
        add_clipped(&mut s.adds, p.as_str(), ".self_attn.v_proj");
        add_clipped(&mut s.adds, p.as_str(), ".self_attn.o_proj");
        want_dense(&mut s.adds, p.as_str(), ".self_attn.q_norm.weight");
        want_dense(&mut s.adds, p.as_str(), ".self_attn.k_norm.weight");
        want_dense(&mut s.adds, p.as_str(), ".post_attention_layernorm.weight");
        want_dense(&mut s.adds, p.as_str(), ".pre_feedforward_layernorm.weight");
        add_clipped(&mut s.adds, p.as_str(), ".mlp.gate_proj");
        add_clipped(&mut s.adds, p.as_str(), ".mlp.up_proj");
        add_clipped(&mut s.adds, p.as_str(), ".mlp.down_proj");
        want_dense(&mut s.adds, p.as_str(), ".post_feedforward_layernorm.weight");
        assert(req_views(s.adds@) =~= vision_layer_adds(p@));
        s.slots_in_order();
        assert(s@ =~= vision_layer_stage(i as nat));
        push_stage(&mut self.program, s);
    }

    fn vision_config(v: &MetalGemma4VisionConfig, image_token: Option<u32>) -> (s: Stage)
        ensures
            s@ == vision_config_stage(*v, image_token),
    {
        let mut s: Stage = Stage::new(RuntimeCall::SetVisionConfig);
        let token: u32 = match image_token {
            None => {
                push_request(&mut s.adds, Request::Absent(LoadError::MissingImageToken));
                assert(s@ =~= vision_config_stage(*v, image_token));
                return s;
            },
            Some(t) => t,
        };
        want_proj(&mut s.adds, "vision_tower.patch_embedder", ".input_proj");
        want_dense(&mut s.adds, "vision_tower.patch_embedder", ".position_embedding_table");
        want_proj(&mut s.adds, "embed_vision", ".embedding_projection");
        s.slots_in_order();
        s.numbers.push(
            #[verifier::truncate]
            (token as i32),
        );
        s.numbers.push(low_i32(v.hidden_size));
        s.numbers.push(low_i32(v.intermediate_size));
        s.numbers.push(low_i32(v.num_hidden_layers));
        s.numbers.push(low_i32(v.num_attention_heads));
        s.numbers.push(low_i32(v.num_key_value_heads));
        s.numbers.push(low_i32(v.head_dim));
        s.numbers.push(low_i32(v.patch_size));
        s.numbers.push(low_i32(v.pooling_kernel_size));
        s.numbers.push(low_i32(v.default_output_length));
        s.numbers.push(low_i32(v.position_embedding_size));
        s.flags.push(v.use_clipped_linears);
        assert(s@ =~= vision_config_stage(*v, image_token));
        s
    }

    /// Adds the vision tower.
    pub fn set_vision(&mut self, v: &MetalGemma4VisionConfig, image_token: Option<u32>)
        ensures
            stage_views(final(self).program@) == stage_views(old(self).program@) + seq![
                vision_config_stage(*v, image_token),
            ] + vision_layers(v.num_hidden_layers as nat),
    {
        let ghost before = stage_views(self.program@);
        push_stage(&mut self.program, Self::vision_config(v, image_token));
        let ghost start = before + seq![vision_config_stage(*v, image_token)];
        assert(stage_views(self.program@) =~= start + vision_layers(0));
        let mut i: usize = 0;
        while i < v.num_hidden_layers
            invariant
                i <= v.num_hidden_layers,
                stage_views(self.program@) == start + vision_layers(i as nat),
            decreases v.num_hidden_layers - i,
        {
            self.push_vision_layer(i);
            i = i + 1;
            assert(stage_views(self.program@) =~= start + vision_layers(i as nat));
        }
    }

    /// The program that registers a whole model.
    pub fn populate(
        text: &GemmaTextFacts,
        vision: Option<&MetalGemma4VisionConfig>,
        image_token: Option<u32>,
    ) -> (b: Self)
        ensures
            stage_views(b.program@) == gemma4_program(
                *text,
                match vision {
                    Some(v) => Some(*v),
                    None => None,
                },
                image_token,
            ),
    {
        let prefix: &str = "language_model.model";
        let mut b = CppGemma4Builder { program: build_opening(text, prefix, true) };
        let ghost start = stage_views(b.program@);
        let mut i: usize = 0;
        assert(start + text_layers(*text, prefix@, 0) =~= start);
        while i < text.layers.len()
            invariant
                i <= text.layers@.len(),
                stage_views(b.program@) == start + text_layers(*text, prefix@, i as nat),
            decreases text.layers@.len() - i,
        {
            b.push_layer(text, prefix, i);
            i = i + 1;
            assert(stage_views(b.program@) =~= start + text_layers(*text, prefix@, i as nat));
        }
        match vision {
            Some(v) => {
                b.set_vision(v, image_token);
            },
            None => {},
        }
        push_stage(&mut b.program, Stage::new(RuntimeCall::Finalize));
        assert(stage_views(b.program@) =~= gemma4_program(
            *text,
            match vision {
                Some(v) => Some(*v),
                None => None,
            },
            image_token,
        ));
        b
    }
}

/// A vision layer uses each of its weights once.
pub proof fn vision_layer_is_wired(i: nat)
    ensures
        wired(vision_layer_stage(i)),
{
    let s = vision_layer_stage(i);
    assert(s.adds.len() == 41);
    assert forall|k: int| 0 <= k < s.adds.len() implies #[trigger] has_slot(s, k) by {
        assert(s.slots[k] == Some(k as usize));
    }
}

} // verus!
