//! DeepSeek-OCR: how its text, segmentation and vision weights are
//! registered. Text and projector weights have shared exponents; those of the
//! two vision towers are plain arrays.
use vstd::prelude::*;

#[allow(unused_imports)]
use crate::metal::loader::part;
use crate::metal::loader::part_name;
use crate::metal::register::{
    indexed_name, low_i32, push_request, push_stage, want_dense, Request, RuntimeCall, Stage,
};
#[allow(unused_imports)]
use crate::metal::register::{
    bare, has_slot, in_order, indexed, req_views, stage_views, wired, ReqView, StageView,
};

verus! {

/// What registration needs to know of the text model.
#[derive(Debug)]
pub struct OcrTextFacts {
    pub hidden_size: usize,
    pub vocab_size: usize,
    pub num_attention_heads: usize,
    pub num_key_value_heads: usize,
    pub head_dim: usize,
    pub v_head_dim: usize,
    pub n_routed_experts: usize,
    pub num_experts_per_tok: usize,
    /// For each layer, whether it holds experts.
    pub moe_layers: Vec<bool>,
    pub group_size: i32,
    pub bits: i32,
}

/// What registration needs to know of the vision towers.
#[derive(Debug)]
pub struct OcrVisionFacts {
    pub hidden_size: usize,
    pub intermediate_size: usize,
    pub num_hidden_layers: usize,
    pub num_attention_heads: usize,
    pub patch_size: usize,
    pub sam_width: usize,
    pub sam_layers: usize,
    pub sam_heads: usize,
    pub sam_patch_size: usize,
    pub sam_window_size: usize,
    pub sam_image_size: usize,
    pub sam_global_attn_indexes: Vec<usize>,
    pub projector_input_dim: usize,
    pub projector_n_embed: usize,
}

// ---- text ----

pub open spec fn ocr_config_stage(t: OcrTextFacts) -> StageView {
    StageView {
        numbers: seq![
            t.hidden_size as i32,
            t.vocab_size as i32,
            t.num_attention_heads as i32,
            t.num_key_value_heads as i32,
            t.head_dim as i32,
            t.v_head_dim as i32,
        ],
        ..bare(RuntimeCall::SetConfig)
    }
}

/// Elements that share one exponent.
pub const MXFP8_GROUP_SIZE: i32 = 32;

/// Bits of an element beside the shared exponent.
pub const MXFP8_BITS: i32 = 8;

/// A weight with shared exponents, at the width of this family.
pub open spec fn mxfp8(base: Seq<char>) -> ReqView {
    ReqView::Mxfp8 { base, group_size: MXFP8_GROUP_SIZE, bits: MXFP8_BITS }
}

fn want_mxfp8(list: &mut Vec<Request>, prefix: &str, suffix: &str)
    ensures
        req_views(final(list)@) == req_views(old(list)@).push(mxfp8(part(prefix@, suffix@))),
{
    push_request(
        list,
        Request::Mxfp8 {
            base: part_name(prefix, suffix),
            group_size: MXFP8_GROUP_SIZE,
            bits: MXFP8_BITS,
        },
    );
}

/// Embedding, output head and final norm. The first two are followed by their
/// scales in the call.
pub open spec fn ocr_embed_stage(t: OcrTextFacts) -> StageView {
    StageView {
        call: RuntimeCall::SetEmbed,
        adds: seq![
            mxfp8(part("language_model.model"@, ".embed_tokens"@)),
            mxfp8(part("language_model"@, ".lm_head"@)),
            ReqView::Dense(part("language_model.model"@, ".norm.weight"@)),
        ],
        slots: in_order(3),
        arrays: Seq::empty(),
        numbers: seq![t.group_size, t.bits],
        flags: Seq::empty(),
    }
}

pub open spec fn ocr_layer_adds(p: Seq<char>, moe: bool) -> Seq<ReqView> {
    seq![
        ReqView::Dense(part(p, ".input_layernorm.weight"@)),
        ReqView::Dense(part(p, ".post_attention_layernorm.weight"@)),
        mxfp8(part(p, ".self_attn.q_proj"@)),
        mxfp8(part(p, ".self_attn.k_proj"@)),
        mxfp8(part(p, ".self_attn.v_proj"@)),
        mxfp8(part(p, ".self_attn.o_proj"@)),
    ] + if moe {
        seq![
            ReqView::Dense(part(p, ".mlp.gate.weight"@)),
            mxfp8(part(p, ".mlp.switch_mlp.gate_proj"@)),
            mxfp8(part(p, ".mlp.switch_mlp.up_proj"@)),
            mxfp8(part(p, ".mlp.switch_mlp.down_proj"@)),
            mxfp8(part(p, ".mlp.shared_experts.gate_proj"@)),
            mxfp8(part(p, ".mlp.shared_experts.up_proj"@)),
            mxfp8(part(p, ".mlp.shared_experts.down_proj"@)),
        ]
    } else {
        seq![
            mxfp8(part(p, ".mlp.gate_proj"@)),
            mxfp8(part(p, ".mlp.up_proj"@)),
            mxfp8(part(p, ".mlp.down_proj"@)),
        ]
    }
}

/// Where the layer's call takes its weights: three places for a dense
/// feed-forward, then seven for experts, of which a layer fills one kind.
pub open spec fn ocr_layer_slots(moe: bool) -> Seq<Option<usize>> {
    seq![Some(0usize), Some(1usize), Some(2usize), Some(3usize), Some(4usize), Some(5usize)] + if moe {
        seq![
            None,
            None,
            None,
            Some(6usize),
            Some(7usize),
            Some(8usize),
            Some(9usize),
            Some(10usize),
            Some(11usize),
            Some(12usize),
        ]
    } else {
        seq![Some(6usize), Some(7usize), Some(8usize), None, None, None, None, None, None, None]
    }
}

pub open spec fn ocr_layer_stage(t: OcrTextFacts, i: nat) -> StageView {
    let moe = t.moe_layers@[i as int];
    StageView {
        call: RuntimeCall::PushLayer,
        adds: ocr_layer_adds(indexed("language_model.model.layers."@, i), moe),
        slots: ocr_layer_slots(moe),
        arrays: Seq::empty(),
        numbers: seq![
            if moe {
                t.n_routed_experts as i32
            } else {
                0i32
            },
            if moe {
                t.num_experts_per_tok as i32
            } else {
                0i32
            },
        ],
        flags: Seq::empty(),
    }
}

pub open spec fn ocr_layers(t: OcrTextFacts, n: nat) -> Seq<StageView>
    decreases n,
{
    if n == 0 {
        Seq::empty()
    } else {
        ocr_layers(t, (n - 1) as nat).push(ocr_layer_stage(t, (n - 1) as nat))
    }
}

// ---- vision ----

pub open spec fn ocr_vision_config_stage(v: OcrVisionFacts, image_token: u32) -> StageView {
    StageView {
        numbers: seq![
            image_token as i32,
            v.hidden_size as i32,
            v.intermediate_size as i32,
            v.num_hidden_layers as i32,
            v.num_attention_heads as i32,
            v.patch_size as i32,
            v.sam_width as i32,
            v.sam_layers as i32,
            v.sam_heads as i32,
            v.sam_patch_size as i32,
            v.sam_window_size as i32,
            v.sam_image_size as i32,
            v.projector_input_dim as i32,
            v.projector_n_embed as i32,
        ],
        ..bare(RuntimeCall::SetVisionConfig)
    }
}

pub open spec fn sam_stem_stage() -> StageView {
    let p = "sam_model"@;
    StageView {
        adds: seq![
            ReqView::Dense(part(p, ".patch_embed.proj.weight"@)),
            ReqView::Dense(part(p, ".patch_embed.proj.bias"@)),
            ReqView::Dense(part(p, ".pos_embed"@)),
            ReqView::Dense(part(p, ".neck.0.weight"@)),
            ReqView::Dense(part(p, ".neck.1.weight"@)),
            ReqView::Dense(part(p, ".neck.1.bias"@)),
            ReqView::Dense(part(p, ".neck.2.weight"@)),
            ReqView::Dense(part(p, ".neck.3.weight"@)),
            ReqView::Dense(part(p, ".neck.3.bias"@)),
            ReqView::Dense(part(p, ".net_2.weight"@)),
            ReqView::Dense(part(p, ".net_3.weight"@)),
        ],
        slots: in_order(11),
        ..bare(RuntimeCall::SetSamStem)
    }
}

/// Blocks that look at the whole image have no window.
pub open spec fn sam_window(v: OcrVisionFacts, i: nat) -> i32 {
    if v.sam_global_attn_indexes@.contains(i as usize) {
        0
    } else {
        v.sam_window_size as i32
    }
}

pub open spec fn sam_block_stage(v: OcrVisionFacts, i: nat) -> StageView {
    let p = indexed("sam_model.blocks."@, i);
    StageView {
        adds: seq![
            ReqView::Dense(part(p, ".norm1.weight"@)),
            ReqView::Dense(part(p, ".norm1.bias"@)),
            ReqView::Dense(part(p, ".attn.qkv.weight"@)),
            ReqView::Dense(part(p, ".attn.qkv.bias"@)),
            ReqView::Dense(part(p, ".attn.proj.weight"@)),
            ReqView::Dense(part(p, ".attn.proj.bias"@)),
            ReqView::Dense(part(p, ".attn.rel_pos_h"@)),
            ReqView::Dense(part(p, ".attn.rel_pos_w"@)),
            ReqView::Dense(part(p, ".norm2.weight"@)),
            ReqView::Dense(part(p, ".norm2.bias"@)),
            ReqView::Dense(part(p, ".mlp.lin1.weight"@)),
            ReqView::Dense(part(p, ".mlp.lin1.bias"@)),
            ReqView::Dense(part(p, ".mlp.lin2.weight"@)),
            ReqView::Dense(part(p, ".mlp.lin2.bias"@)),
        ],
        slots: in_order(14),
        numbers: seq![sam_window(v, i)],
        ..bare(RuntimeCall::PushSamBlock)
    }
}

pub open spec fn sam_blocks(v: OcrVisionFacts, n: nat) -> Seq<StageView>
    decreases n,
{
    if n == 0 {
        Seq::empty()
    } else {
        sam_blocks(v, (n - 1) as nat).push(sam_block_stage(v, (n - 1) as nat))
    }
}

pub open spec fn clip_stem_stage() -> StageView {
    let p = "vision_model"@;
    StageView {
        adds: seq![
            ReqView::Dense(part(p, ".embeddings.class_embedding"@)),
            ReqView::Dense(part(p, ".embeddings.position_embedding.weight"@)),
            ReqView::Dense(part(p, ".pre_layrnorm.weight"@)),
            ReqView::Dense(part(p, ".pre_layrnorm.bias"@)),
        ],
        slots: in_order(4),
        ..bare(RuntimeCall::SetClipStem)
    }
}

pub open spec fn clip_layer_stage(i: nat) -> StageView {
    let p = indexed("vision_model.transformer.layers."@, i);
    StageView {
        adds: seq![
            ReqView::Dense(part(p, ".layer_norm1.weight"@)),
            ReqView::Dense(part(p, ".layer_norm1.bias"@)),
            ReqView::Dense(part(p, ".self_attn.qkv_proj.weight"@)),
            ReqView::Dense(part(p, ".self_attn.qkv_proj.bias"@)),
            ReqView::Dense(part(p, ".self_attn.out_proj.weight"@)),
            ReqView::Dense(part(p, ".self_attn.out_proj.bias"@)),
            ReqView::Dense(part(p, ".layer_norm2.weight"@)),
            ReqView::Dense(part(p, ".layer_norm2.bias"@)),
            ReqView::Dense(part(p, ".mlp.fc1.weight"@)),
            ReqView::Dense(part(p, ".mlp.fc1.bias"@)),
            ReqView::Dense(part(p, ".mlp.fc2.weight"@)),
            ReqView::Dense(part(p, ".mlp.fc2.bias"@)),
        ],
        slots: in_order(12),
        ..bare(RuntimeCall::PushClipLayer)
    }
}

pub open spec fn clip_layers(n: nat) -> Seq<StageView>
    decreases n,
{
    if n == 0 {
        Seq::empty()
    } else {
        clip_layers((n - 1) as nat).push(clip_layer_stage((n - 1) as nat))
    }
}

pub open spec fn projector_stage() -> StageView {
    StageView {
        adds: seq![
            mxfp8(part("projector"@, ".layers"@)),
            ReqView::Dense(part("projector"@, ".layers.bias"@)),
            ReqView::Dense(part("image"@, "_newline"@)),
            ReqView::Dense(part("view"@, "_separator"@)),
        ],
        slots: in_order(4),
        ..bare(RuntimeCall::SetProjector)
    }
}

/// The two vision towers and what joins them to the text model.
pub open spec fn ocr_vision(v: OcrVisionFacts, image_token: u32) -> Seq<StageView> {
    seq![ocr_vision_config_stage(v, image_token), sam_stem_stage()] + sam_blocks(
        v,
        v.sam_layers as nat,
    ) + seq![clip_stem_stage()] + clip_layers(v.num_hidden_layers as nat) + seq![projector_stage()]
}

/// Everything that registering a model does, in order.
pub open spec fn ocr_program(t: OcrTextFacts, v: OcrVisionFacts, image_token: u32) -> Seq<
    StageView,
> {
    seq![ocr_config_stage(t), ocr_embed_stage(t)] + ocr_layers(t, t.moe_layers@.len())
        + ocr_vision(v, image_token) + seq![bare(RuntimeCall::Finalize)]
}

fn holds_index(list: &Vec<usize>, i: usize) -> (r: bool)
    ensures
        r == list@.contains(i),
{
    let mut k: usize = 0;
    while k < list.len()
        invariant
            k <= list@.len(),
            forall|j: int| 0 <= j < k ==> #[trigger] list@[j] != i,
        decreases list@.len() - k,
    {
        if list[k] == i {
            return true;
        }
        k = k + 1;
    }
    false
}

/// Collects the stages of a program.
#[derive(Debug)]
pub struct CppDeepseekOcrBuilder {
    pub program: Vec<Stage>,
}

impl CppDeepseekOcrBuilder {
    fn set_config(&mut self, t: &OcrTextFacts)
        ensures
            stage_views(final(self).program@) == stage_views(old(self).program@).push(
                ocr_config_stage(*t),
            ),
    {
        let mut s: Stage = Stage::new(RuntimeCall::SetConfig);
        s.numbers.push(low_i32(t.hidden_size));
        s.numbers.push(low_i32(t.vocab_size));
        s.numbers.push(low_i32(t.num_attention_heads));
        s.numbers.push(low_i32(t.num_key_value_heads));
        s.numbers.push(low_i32(t.head_dim));
        s.numbers.push(low_i32(t.v_head_dim));
        assert(s@ =~= ocr_config_stage(*t));
        push_stage(&mut self.program, s);
    }

    fn set_embed(&mut self, t: &OcrTextFacts)
        ensures
            stage_views(final(self).program@) == stage_views(old(self).program@).push(
                ocr_embed_stage(*t),
            ),
    {
        let mut s: Stage = Stage::new(RuntimeCall::SetEmbed);
        want_mxfp8(&mut s.adds, "language_model.model", ".embed_tokens");
        want_mxfp8(&mut s.adds, "language_model", ".lm_head");
        want_dense(&mut s.adds, "language_model.model", ".norm.weight");
        s.slots_in_order();
        s.numbers.push(t.group_size);
        s.numbers.push(t.bits);
        assert(s@ =~= ocr_embed_stage(*t));
        push_stage(&mut self.program, s);
    }

    fn layer_slots(moe: bool) -> (slots: Vec<Option<usize>>)
        ensures
            slots@ == ocr_layer_slots(moe),
    {
        let mut slots: Vec<Option<usize>> = Vec::new();
        let mut i: usize = 0;
        while i < 6
            invariant
                i <= 6,
                slots@.len() == i,
                forall|k: int| 0 <= k < i ==> #[trigger] slots@[k] == Some(k as usize),
            decreases 6 - i,
        {
            slots.push(Some(i));
            i = i + 1;
        }
        while i < 16
            invariant
                6 <= i <= 16,
                slots@.len() == i,
                forall|k: int| 0 <= k < 6 ==> #[trigger] slots@[k] == Some(k as usize),
                forall|k: int|
                    6 <= k < i ==> #[trigger] slots@[k] == if moe && k >= 9 {
                        Some((k - 3) as usize)
                    } else if !moe && k < 9 {
                        Some(k as usize)
                    } else {
                        None
                    },
            decreases 16 - i,
        {
            if moe && i >= 9 {
                slots.push(Some(i - 3));
            } else if !moe && i < 9 {
                slots.push(Some(i));
            } else {
                slots.push(None);
            }
            i = i + 1;
        }
        assert(slots@ =~= ocr_layer_slots(moe));
        slots
    }

    /// Adds a text layer, with experts or a dense feed-forward.
    pub fn push_layer(&mut self, t: &OcrTextFacts, i: usize)
        requires
            i < t.moe_layers@.len(),
        ensures
            stage_views(final(self).program@) == stage_views(old(self).program@).push(
                ocr_layer_stage(*t, i as nat),
            ),
    {
        let name: String = indexed_name("language_model.model.layers.", i);
        let p: &str = name.as_str();
        let moe: bool = t.moe_layers[i];
        let mut s: Stage = Stage::new(RuntimeCall::PushLayer);
        want_dense(&mut s.adds, p, ".input_layernorm.weight");
        want_dense(&mut s.adds, p, ".post_attention_layernorm.weight");
        want_mxfp8(&mut s.adds, p, ".self_attn.q_proj");
        want_mxfp8(&mut s.adds, p, ".self_attn.k_proj");
        want_mxfp8(&mut s.adds, p, ".self_attn.v_proj");
        want_mxfp8(&mut s.adds, p, ".self_attn.o_proj");
        if moe {
            want_dense(&mut s.adds, p, ".mlp.gate.weight");
            want_mxfp8(&mut s.adds, p, ".mlp.switch_mlp.gate_proj");
            want_mxfp8(&mut s.adds, p, ".mlp.switch_mlp.up_proj");
            want_mxfp8(&mut s.adds, p, ".mlp.switch_mlp.down_proj");
            want_mxfp8(&mut s.adds, p, ".mlp.shared_experts.gate_proj");
            want_mxfp8(&mut s.adds, p, ".mlp.shared_experts.up_proj");
            want_mxfp8(&mut s.adds, p, ".mlp.shared_experts.down_proj");
        } else {
            want_mxfp8(&mut s.adds, p, ".mlp.gate_proj");
            want_mxfp8(&mut s.adds, p, ".mlp.up_proj");
            want_mxfp8(&mut s.adds, p, ".mlp.down_proj");
        }
        assert(req_views(s.adds@) =~= ocr_layer_adds(p@, moe));
        s.slots = Self::layer_slots(moe);
        s.numbers.push(
            if moe {
                low_i32(t.n_routed_experts)
            } else {
                0
            },
        );
        s.numbers.push(
            if moe {
                low_i32(t.num_experts_per_tok)
            } else {
                0
            },
        );
        assert(s@ =~= ocr_layer_stage(*t, i as nat));
        push_stage(&mut self.program, s);
    }

    fn vision_config(&mut self, v: &OcrVisionFacts, image_token: u32)
        ensures
            stage_views(final(self).program@) == stage_views(old(self).program@).push(
                ocr_vision_config_stage(*v, image_token),
            ),
    {
        let mut s: Stage = Stage::new(RuntimeCall::SetVisionConfig);
        s.numbers.push(
            #[verifier::truncate]
            (image_token as i32),
        );
        s.numbers.push(low_i32(v.hidden_size));
        s.numbers.push(low_i32(v.intermediate_size));
        s.numbers.push(low_i32(v.num_hidden_layers));
        s.numbers.push(low_i32(v.num_attention_heads));
        s.numbers.push(low_i32(v.patch_size));
        s.numbers.push(low_i32(v.sam_width));
        s.numbers.push(low_i32(v.sam_layers));
        s.numbers.push(low_i32(v.sam_heads));
        s.numbers.push(low_i32(v.sam_patch_size));
        s.numbers.push(low_i32(v.sam_window_size));
        s.numbers.push(low_i32(v.sam_image_size));
        s.numbers.push(low_i32(v.projector_input_dim));
        s.numbers.push(low_i32(v.projector_n_embed));
        assert(s@ =~= ocr_vision_config_stage(*v, image_token));
        push_stage(&mut self.program, s);
    }

    fn sam_stem(&mut self)
        ensures
            stage_views(final(self).program@) == stage_views(old(self).program@).push(
                sam_stem_stage(),
            ),
    {
        let mut s: Stage = Stage::new(RuntimeCall::SetSamStem);
        let p: &str = "sam_model";
        want_dense(&mut s.adds, p, ".patch_embed.proj.weight");
        want_dense(&mut s.adds, p, ".patch_embed.proj.bias");
        want_dense(&mut s.adds, p, ".pos_embed");
        want_dense(&mut s.adds, p, ".neck.0.weight");
        want_dense(&mut s.adds, p, ".neck.1.weight");
        want_dense(&mut s.adds, p, ".neck.1.bias");
        want_dense(&mut s.adds, p, ".neck.2.weight");
        want_dense(&mut s.adds, p, ".neck.3.weight");
        want_dense(&mut s.adds, p, ".neck.3.bias");
        want_dense(&mut s.adds, p, ".net_2.weight");
        want_dense(&mut s.adds, p, ".net_3.weight");
        s.slots_in_order();
        assert(s@ =~= sam_stem_stage());
        push_stage(&mut self.program, s);
    }

    /// Adds a block of the segmentation tower.
    pub fn push_sam_block(&mut self, v: &OcrVisionFacts, i: usize)
        ensures
            stage_views(final(self).program@) == stage_views(old(self).program@).push(
                sam_block_stage(*v, i as nat),
            ),
    {
        let name: String = indexed_name("sam_model.blocks.", i);
        let p: &str = name.as_str();
        let mut s: Stage = Stage::new(RuntimeCall::PushSamBlock);
        want_dense(&mut s.adds, p, ".norm1.weight");
        want_dense(&mut s.adds, p, ".norm1.bias");
        want_dense(&mut s.adds, p, ".attn.qkv.weight");
        want_dense(&mut s.adds, p, ".attn.qkv.bias");
        want_dense(&mut s.adds, p, ".attn.proj.weight");
        want_dense(&mut s.adds, p, ".attn.proj.bias");
        want_dense(&mut s.adds, p, ".attn.rel_pos_h");
        want_dense(&mut s.adds, p, ".attn.rel_pos_w");
        want_dense(&mut s.adds, p, ".norm2.weight");
        want_dense(&mut s.adds, p, ".norm2.bias");
        want_dense(&mut s.adds, p, ".mlp.lin1.weight");
        want_dense(&mut s.adds, p, ".mlp.lin1.bias");
        want_dense(&mut s.adds, p, ".mlp.lin2.weight");
        want_dense(&mut s.adds, p, ".mlp.lin2.bias");
        s.slots_in_order();
        s.numbers.push(
            if holds_index(&v.sam_global_attn_indexes, i) {
                0
            } else {
                low_i32(v.sam_window_size)
            },
        );
        assert(s@ =~= sam_block_stage(*v, i as nat));
        push_stage(&mut self.program, s);
    }

    fn clip_stem(&mut self)
        ensures
            stage_views(final(self).program@) == stage_views(old(self).program@).push(
                clip_stem_stage(),
            ),
    {
        let mut s: Stage = Stage::new(RuntimeCall::SetClipStem);
        let p: &str = "vision_model";
        want_dense(&mut s.adds, p, ".embeddings.class_embedding");
        want_dense(&mut s.adds, p, ".embeddings.position_embedding.weight");
        want_dense(&mut s.adds, p, ".pre_layrnorm.weight");
        want_dense(&mut s.adds, p, ".pre_layrnorm.bias");
        s.slots_in_order();
        assert(s@ =~= clip_stem_stage());
        push_stage(&mut self.program, s);
    }

    /// Adds a layer of the vision tower.
    pub fn push_clip_layer(&mut self, i: usize)
        ensures
            stage_views(final(self).program@) == stage_views(old(self).program@).push(
                clip_layer_stage(i as nat),
            ),
    {
        let name: String = indexed_name("vision_model.transformer.layers.", i);
        let p: &str = name.as_str();
        let mut s: Stage = Stage::new(RuntimeCall::PushClipLayer);
        want_dense(&mut s.adds, p, ".layer_norm1.weight");
        want_dense(&mut s.adds, p, ".layer_norm1.bias");
        want_dense(&mut s.adds, p, ".self_attn.qkv_proj.weight");
        want_dense(&mut s.adds, p, ".self_attn.qkv_proj.bias");
        want_dense(&mut s.adds, p, ".self_attn.out_proj.weight");
        want_dense(&mut s.adds, p, ".self_attn.out_proj.bias");
        want_dense(&mut s.adds, p, ".layer_norm2.weight");
        want_dense(&mut s.adds, p, ".layer_norm2.bias");
        want_dense(&mut s.adds, p, ".mlp.fc1.weight");
        want_dense(&mut s.adds, p, ".mlp.fc1.bias");
        want_dense(&mut s.adds, p, ".mlp.fc2.weight");
        want_dense(&mut s.adds, p, ".mlp.fc2.bias");
        s.slots_in_order();
        assert(s@ =~= clip_layer_stage(i as nat));
        push_stage(&mut self.program, s);
    }

    fn projector(&mut self)
        ensures
            stage_views(final(self).program@) == stage_views(old(self).program@).push(
                projector_stage(),
            ),
    {
        let mut s: Stage = Stage::new(RuntimeCall::SetProjector);
        want_mxfp8(&mut s.adds, "projector", ".layers");
        want_dense(&mut s.adds, "projector", ".layers.bias");
        want_dense(&mut s.adds, "image", "_newline");
        want_dense(&mut s.adds, "view", "_separator");
        s.slots_in_order();
        assert(s@ =~= projector_stage());
        push_stage(&mut self.program, s);
    }

    /// Adds the two vision towers and the projector.
    pub fn set_vision(&mut self, v: &OcrVisionFacts, image_token: u32)
        ensures
            stage_views(final(self).program@) == stage_views(old(self).program@) + ocr_vision(
                *v,
                image_token,
            ),
    {
        let ghost before = stage_views(self.program@);
        self.vision_config(v, image_token);
        self.sam_stem();
        let ghost a = stage_views(self.program@);
        let mut i: usize = 0;
        assert(a + sam_blocks(*v, 0) =~= a);
        while i < v.sam_layers
            invariant
                i <= v.sam_layers,
                stage_views(self.program@) == a + sam_blocks(*v, i as nat),
            decreases v.sam_layers - i,
        {
            self.push_sam_block(v, i);
            i = i + 1;
            assert(stage_views(self.program@) =~= a + sam_blocks(*v, i as nat));
        }
        self.clip_stem();
        let ghost b = stage_views(self.program@);
        let mut k: usize = 0;
        assert(b + clip_layers(0) =~= b);
        while k < v.num_hidden_layers
            invariant
                k <= v.num_hidden_layers,
                stage_views(self.program@) == b + clip_layers(k as nat),
            decreases v.num_hidden_layers - k,
        {
            self.push_clip_layer(k);
            k = k + 1;
            assert(stage_views(self.program@) =~= b + clip_layers(k as nat));
        }
        self.projector();
        assert(stage_views(self.program@) =~= before + ocr_vision(*v, image_token));
    }

    /// The program that registers a whole model.
    pub fn populate(t: &OcrTextFacts, v: &OcrVisionFacts, image_token: u32) -> (b: Self)
        ensures
            stage_views(b.program@) == ocr_program(*t, *v, image_token),
    {
        let mut b = CppDeepseekOcrBuilder { program: Vec::new() };
        assert(stage_views(b.program@) =~= Seq::<StageView>::empty());
        b.set_config(t);
        b.set_embed(t);
        let ghost start = stage_views(b.program@);
        let mut i: usize = 0;
        assert(start + ocr_layers(*t, 0) =~= start);
        while i < t.moe_layers.len()
            invariant
                i <= t.moe_layers@.len(),
                stage_views(b.program@) == start + ocr_layers(*t, i as nat),
            decreases t.moe_layers@.len() - i,
        {
            b.push_layer(t, i);
            i = i + 1;
            assert(stage_views(b.program@) =~= start + ocr_layers(*t, i as nat));
        }
        b.set_vision(v, image_token);
        push_stage(&mut b.program, Stage::new(RuntimeCall::Finalize));
        assert(stage_views(b.program@) =~= ocr_program(*t, *v, image_token));
        b
    }
}

/// A text layer uses each of its weights once, whichever feed-forward it has.
pub proof fn ocr_layer_is_wired(t: OcrTextFacts, i: nat)
    ensures
        wired(ocr_layer_stage(t, i)),
{
    let s = ocr_layer_stage(t, i);
    let moe = t.moe_layers@[i as int];
    assert(s.slots.len() == 16);
    assert(s.adds.len() == if moe {
        13int
    } else {
        9
    });
    assert forall|k: int| 0 <= k < s.adds.len() implies #[trigger] has_slot(s, k) by {
        let j = if moe && k >= 6 {
            k + 3
        } else {
            k
        };
        assert(s.slots[j] == Some(k as usize));
    }
}

} // verus!
