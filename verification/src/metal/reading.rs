//! What a configuration's documents say.
use vstd::prelude::*;

#[allow(unused_imports)]
use crate::metal::config::{
    config_of, eos_of, extended, gemma4_of, generation_of, image_id_of, is_diffusion_gemma_spec,
    layer_types_of, model_of, moe_of, overrides, stop_ids, usize_at, vision_of, ConfigError,
    GenerationView, MetalGemma4VisionConfig, MoeView, QuantView,
    WeightQuantView,
};
#[allow(unused_imports)]
use crate::metal::json::{
    bits_at, bool_at, field, i64_at, item_at, key_place, object_at, text_at, u64_at, NodeView,
};
#[allow(unused_imports)]
use crate::text::parsed_number;

verus! {

/// Of several entries of an object with the same key the first one counts.
pub proof fn the_first_of_a_key_counts(keys: Seq<Seq<char>>, key: Seq<char>, n: nat)
    requires
        n <= keys.len(),
    ensures
        match key_place(keys, key, n) {
            Some(p) => p < n && keys[p as int] == key && forall|j: int|
                0 <= j < p ==> #[trigger] keys[j] != key,
            None => forall|j: int| 0 <= j < n ==> #[trigger] keys[j] != key,
        },
    decreases n,
{
    if n > 0 {
        the_first_of_a_key_counts(keys, key, (n - 1) as nat);
    }
}

/// A number that stands under a key, or else a fallback.
pub open spec fn said(
    nodes: Seq<NodeView>,
    obj: Option<nat>,
    key: Seq<char>,
    fallback: usize,
    n: usize,
) -> bool {
    &&& u64_at(nodes, field(nodes, obj, key)) matches Some(x) ==> n == x as usize
    &&& u64_at(nodes, field(nodes, obj, key)) is None ==> n == fallback
}

/// The layers of a model are of the kinds that the list names, one by one; the
/// first entry that names no known kind is refused.
pub proof fn layers_are_what_the_list_names(nodes: Seq<NodeView>, list: Option<nat>, n: nat)
    requires
        n <= usize::MAX,
    ensures
        match layer_types_of(nodes, list, n) {
            Ok(types) => {
                &&& types.len() == n
                &&& forall|k: int|
                    0 <= k < n ==> text_at(nodes, item_at(nodes, list, k as nat)) == Some(
                        if #[trigger] types[k] is FullAttention {
                            "full_attention"@
                        } else {
                            "linear_attention"@
                        },
                    )
            },
            Err(ConfigError::LayerTypeNotText { index }) => index < n && text_at(
                nodes,
                item_at(nodes, list, index as nat),
            ) is None,
            Err(ConfigError::UnsupportedLayerType { index }) => index < n && (text_at(
                nodes,
                item_at(nodes, list, index as nat),
            ) matches Some(t) && t != "full_attention"@ && t != "linear_attention"@),
            Err(_) => false,
        },
    decreases n,
{
    if n > 0 {
        layers_are_what_the_list_names(nodes, list, (n - 1) as nat);
    }
}

/// A configuration that is read says of the model what stands under the keys,
/// each number under its own, in the text model's object where there is one;
/// it has one layer kind per layer.
pub proof fn configurations_say_what_their_keys_say(
    nodes: Seq<NodeView>,
    generation_not_json: bool,
    generation: Option<Seq<NodeView>>,
)
    requires
        config_of(nodes, generation_not_json, generation) is Ok,
    ensures
        ({
            let c = config_of(nodes, generation_not_json, generation)->Ok_0;
            let root = object_at(nodes, Some(0));
            let nested = object_at(nodes, field(nodes, root, "text_config"@));
            let model = if nested is Some {
                nested
            } else {
                root
            };
            let rope = object_at(nodes, field(nodes, model, "rope_parameters"@));
            let own = field(nodes, root, "quantization"@);
            let packed = if own is Some {
                own
            } else {
                field(nodes, root, "quantization_config"@)
            };
            &&& c.layer_types.len() == c.num_hidden_layers
            &&& said(nodes, model, "hidden_size"@, 2048, c.hidden_size)
            &&& said(nodes, model, "num_attention_heads"@, 16, c.num_attention_heads)
            &&& said(nodes, model, "num_key_value_heads"@, 8, c.num_key_value_heads)
            &&& u64_at(nodes, field(nodes, model, "num_hidden_layers"@)) matches Some(x)
                ==> c.num_hidden_layers == x as usize
            &&& c.num_attention_heads > 0 ==> said(
                nodes,
                model,
                "head_dim"@,
                (c.hidden_size / c.num_attention_heads) as usize,
                c.head_dim,
            )
            &&& said(nodes, model, "linear_num_key_heads"@, 0, c.linear.num_key_heads)
            &&& said(nodes, model, "linear_key_head_dim"@, 0, c.linear.key_dim)
            &&& said(nodes, model, "linear_num_value_heads"@, 0, c.linear.num_value_heads)
            &&& said(nodes, model, "linear_value_head_dim"@, 0, c.linear.value_dim)
            &&& said(nodes, model, "linear_conv_kernel_dim"@, 4, c.linear.conv_kernel)
            &&& c.rms_norm_eps_bits == bits_at(nodes, field(nodes, model, "rms_norm_eps"@))
            &&& bits_at(nodes, field(nodes, rope, "rope_theta"@)) matches Some(b)
                ==> c.rope_theta_bits == Some(b)
            &&& bits_at(nodes, field(nodes, rope, "rope_theta"@)) is None ==> c.rope_theta_bits
                == bits_at(nodes, field(nodes, model, "rope_theta"@))
            &&& c.quantization is Some <==> packed is Some
            &&& c.quantization matches Some(q) ==> {
                &&& i64_at(nodes, field(nodes, packed, "bits"@)) matches Some(x) ==> q.bits
                    == x as i32
                &&& i64_at(nodes, field(nodes, packed, "bits"@)) is None ==> q.bits == 4
                &&& i64_at(nodes, field(nodes, packed, "group_size"@)) matches Some(x)
                    ==> q.group_size == x as i32
                &&& i64_at(nodes, field(nodes, packed, "group_size"@)) is None ==> q.group_size
                    == 64
                &&& q.mode is Mxfp4 <==> text_at(nodes, field(nodes, packed, "mode"@)) == Some(
                    "mxfp4"@,
                )
            }
            &&& c.stop_token_ids == stop_ids(nodes, root, model, generation)
            &&& c.moe == moe_of(nodes, model, c.quantization)
        }),
{
}

// ---- experts ----

/// Every so many layers one holds experts, the last of them, but for the layers
/// that are named dense; a step of one or none means every layer.
pub proof fn experts_come_every_so_many_layers(m: MoeView, i: nat)
    requires
        i + m.decoder_sparse_step <= usize::MAX,
    ensures
        m.mlp_only_layers.contains(i as usize) ==> !m.has_experts(i),
        m.decoder_sparse_step <= 1 && !m.mlp_only_layers.contains(i as usize) ==> m.has_experts(i),
        m.decoder_sparse_step > 1 && i + 1 < m.decoder_sparse_step ==> !m.has_experts(i),
        m.decoder_sparse_step > 0 && i + 1 == m.decoder_sparse_step && !m.mlp_only_layers.contains(
            i as usize,
        ) ==> m.has_experts(i),
        !m.mlp_only_layers.contains(i as usize) && !m.mlp_only_layers.contains(
            (i + m.decoder_sparse_step) as usize,
        ) ==> m.has_experts(i) == m.has_experts(i + m.decoder_sparse_step as nat),
{
    let step = m.decoder_sparse_step as int;
    if step > 0 {
        vstd::arithmetic::div_mod::lemma_mod_self_0(step);
        if i + 1 < step {
            vstd::arithmetic::div_mod::lemma_small_mod((i + 1) as nat, step as nat);
        }
        vstd::arithmetic::div_mod::lemma_mod_add_multiples_vanish((i + 1) as int, step);
    }
}

/// A nested object speaks before the model's own fields; the experts' width is
/// that of the checkpoint, and the router's at least eight bits. A model without
/// experts has no such configuration.
pub proof fn nested_experts_speak_first(
    nodes: Seq<NodeView>,
    model: Option<nat>,
    nested: Option<nat>,
    quant: Option<QuantView>,
)
    requires
        nested == object_at(nodes, field(nodes, model, "moe_config"@)),
    ensures
        ({
            let m = moe_of(nodes, model, quant);
            let inner = usize_at(nodes, nested, "num_experts"@, 0);
            let outer = usize_at(nodes, model, "num_experts"@, 0);
            &&& m is None <==> inner == 0 && outer == 0
            &&& inner > 0 ==> m->0.num_experts == inner
            &&& inner == 0 && outer > 0 ==> m->0.num_experts == outer
            &&& m is Some ==> m->0.num_experts > 0
            &&& m is Some && usize_at(nodes, nested, "num_experts_per_tok"@, 0) > 0
                ==> m->0.num_experts_per_tok == usize_at(nodes, nested, "num_experts_per_tok"@, 0)
            &&& m is Some && usize_at(nodes, nested, "num_experts_per_tok"@, 0) == 0
                ==> m->0.num_experts_per_tok == usize_at(nodes, model, "num_experts_per_tok"@, 0)
            &&& m is Some ==> m->0.decoder_sparse_step > 0
            &&& m is Some && quant is Some ==> m->0.expert_bits == quant->0.bits
                && m->0.expert_group_size == quant->0.group_size && m->0.router_group_size
                == quant->0.group_size
            &&& m is Some && quant is None ==> m->0.expert_bits == 4 && m->0.expert_group_size == 64
                && m->0.router_group_size == 64
            &&& m is Some ==> m->0.router_bits >= 8 && m->0.router_bits >= m->0.expert_bits && (
            m->0.router_bits == 8 || m->0.router_bits == m->0.expert_bits)
            &&& m is Some && bool_at(nodes, field(nodes, model, "norm_topk_prob"@)) == Some(false)
                ==> !m->0.norm_topk_prob
            &&& m is Some && bool_at(nodes, field(nodes, nested, "norm_topk_prob"@)) == Some(false)
                ==> !m->0.norm_topk_prob
            &&& m is Some && bool_at(nodes, field(nodes, model, "norm_topk_prob"@)) != Some(false)
                && bool_at(nodes, field(nodes, nested, "norm_topk_prob"@)) != Some(false)
                ==> m->0.norm_topk_prob
        }),
{
}

// ---- stop ids ----

/// Adding ids keeps those that were there, in front and in order, adds each new
/// one once and nothing else.
pub proof fn added_ids_are_new(target: Seq<u32>, src: Seq<u32>)
    ensures
        extended(target, src).len() >= target.len(),
        extended(target, src).take(target.len() as int) == target,
        forall|x: u32| #[trigger]
            extended(target, src).contains(x) <==> target.contains(x) || src.contains(x),
        target.no_duplicates() ==> extended(target, src).no_duplicates(),
    decreases src.len(),
{
    if src.len() == 0 {
        assert(target.take(target.len() as int) =~= target);
    } else {
        let front = extended(target, src.drop_last());
        let x = src.last();
        added_ids_are_new(target, src.drop_last());
        let all = extended(target, src);
        assert(all.take(target.len() as int) =~= target) by {
            assert(front.take(target.len() as int) =~= target);
            assert forall|i: int| 0 <= i < target.len() implies all[i] == target[i] by {
                assert(front.take(target.len() as int)[i] == front[i]);
            }
        }
        assert forall|y: u32| #[trigger] all.contains(y) <==> target.contains(y) || src.contains(
            y,
        ) by {
            assert(src.contains(y) <==> src.drop_last().contains(y) || y == x) by {
                if src.contains(y) {
                    let k = choose|k: int| 0 <= k < src.len() && src[k] == y;
                    if k < src.len() - 1 {
                        assert(src.drop_last()[k] == y);
                    }
                }
                if src.drop_last().contains(y) {
                    let k = choose|k: int|
                        0 <= k < src.drop_last().len() && src.drop_last()[k] == y;
                    assert(src[k] == y);
                }
                assert(src[src.len() - 1] == x);
            }
            if !front.contains(x) {
                assert(front.push(x).contains(y) <==> front.contains(y) || y == x) by {
                    if front.contains(y) {
                        let k = choose|k: int| 0 <= k < front.len() && front[k] == y;
                        assert(front.push(x)[k] == y);
                    }
                    assert(front.push(x)[front.len() as int] == x);
                }
            }
        }
    }
}

/// A model stops at every end-of-sequence id that its generation settings, its
/// document or its text model name, and at no other; where none of them names
/// one, it stops at the common one.
pub proof fn models_stop_at_every_named_id(
    nodes: Seq<NodeView>,
    root: Option<nat>,
    model: Option<nat>,
    generation: Option<Seq<NodeView>>,
    id: u32,
)
    ensures
        ({
            let of_generation = generation matches Some(g) && eos_of(
                g,
                field(g, Some(0), "eos_token_id"@),
            ).contains(id);
            let of_root = eos_of(nodes, field(nodes, root, "eos_token_id"@)).contains(id);
            let of_model = eos_of(nodes, field(nodes, model, "eos_token_id"@)).contains(id);
            let stops = stop_ids(nodes, root, model, generation);
            &&& of_generation || of_root || of_model ==> stops.contains(id)
            &&& stops.contains(id) ==> of_generation || of_root || of_model || (stops == seq![
                151645u32,
            ] && id == 151645)
        }),
{
    let first = match generation {
        Some(g) => eos_of(g, field(g, Some(0), "eos_token_id"@)),
        None => Seq::empty(),
    };
    let a = eos_of(nodes, field(nodes, root, "eos_token_id"@));
    let b = eos_of(nodes, field(nodes, model, "eos_token_id"@));
    added_ids_are_new(first, a);
    added_ids_are_new(extended(first, a), b);
    let all = extended(extended(first, a), b);
    assert(all.contains(id) <==> first.contains(id) || a.contains(id) || b.contains(id)) by {
        assert(extended(first, a).contains(id) <==> first.contains(id) || a.contains(id));
    }
}

// ---- overrides ----

/// Every object among the entries overrides the weight of its key, with its own
/// width and group size where it says them and the given ones where it does
/// not; other entries override nothing.
pub proof fn objects_override_the_weight_of_their_key(
    nodes: Seq<NodeView>,
    at: nat,
    keys: Seq<Seq<char>>,
    n: nat,
    bits: i32,
    group_size: i32,
)
    requires
        n <= keys.len(),
    ensures
        ({
            let all = overrides(nodes, at, keys, n, bits, group_size);
            &&& forall|k: int|
                0 <= k < all.len() ==> overridden(
                    nodes,
                    at,
                    #[trigger] all[k],
                    bits,
                    group_size,
                ) && keys.take(n as int).contains(all[k].name)
            &&& forall|j: int|
                0 <= j < n && object_at(nodes, field(nodes, Some(at), #[trigger] keys[j])) is Some
                    ==> names(all, keys[j])
        }),
    decreases n,
{
    if n > 0 {
        let m = (n - 1) as nat;
        objects_override_the_weight_of_their_key(nodes, at, keys, m, bits, group_size);
        let before = overrides(nodes, at, keys, m, bits, group_size);
        let all = overrides(nodes, at, keys, n, bits, group_size);
        assert(keys.take(n as int)[n - 1] == keys[n - 1]);
        assert forall|k: int| 0 <= k < all.len() implies overridden(
            nodes,
            at,
            #[trigger] all[k],
            bits,
            group_size,
        ) && keys.take(n as int).contains(all[k].name) by {
            if k < before.len() {
                assert(all[k] == before[k]);
                let j = choose|j: int|
                    0 <= j < keys.take(m as int).len() && keys.take(m as int)[j] == before[k].name;
                assert(keys.take(n as int)[j] == before[k].name);
            } else {
                assert(all[k].name == keys[n - 1]);
            }
        }
        assert forall|j: int|
            0 <= j < n && object_at(
                nodes,
                field(nodes, Some(at), #[trigger] keys[j]),
            ) is Some implies names(all, keys[j]) by {
            if j < m {
                assert(names(before, keys[j]));
                let k = choose|k: int|
                    0 <= k < before.len() && (#[trigger] before[k]).name == keys[j];
                assert(all[k].name == keys[j]);
            } else {
                assert(all[all.len() - 1].name == keys[j]);
            }
        }
    }
}

/// One of the overrides is of a weight.
pub open spec fn names(all: Seq<WeightQuantView>, name: Seq<char>) -> bool {
    exists|k: int| 0 <= k < all.len() && (#[trigger] all[k]).name == name
}

/// An override says what stands in the object under its name.
pub open spec fn overridden(
    nodes: Seq<NodeView>,
    at: nat,
    w: WeightQuantView,
    bits: i32,
    group_size: i32,
) -> bool {
    let own = object_at(nodes, field(nodes, Some(at), w.name));
    &&& own is Some
    &&& i64_at(nodes, field(nodes, own, "bits"@)) matches Some(x) ==> w.bits == x as i32
    &&& i64_at(nodes, field(nodes, own, "bits"@)) is None ==> w.bits == bits
    &&& i64_at(nodes, field(nodes, own, "group_size"@)) matches Some(x) ==> w.group_size == x as i32
    &&& i64_at(nodes, field(nodes, own, "group_size"@)) is None ==> w.group_size == group_size
}

// ---- the other families ----

/// A document is read as one family at most: what is read as Qwen3.5 is no
/// Gemma, and what is read as a Gemma that decodes token by token is no
/// block-diffusion one.
pub proof fn documents_belong_to_one_family(
    nodes: Seq<NodeView>,
    generation_not_json: bool,
    generation: Option<Seq<NodeView>>,
    vocab_size: usize,
)
    ensures
        config_of(nodes, generation_not_json, generation) is Ok ==> gemma4_of(
            nodes,
            generation_not_json,
            generation,
            vocab_size,
        ) is Err,
        gemma4_of(nodes, generation_not_json, generation, vocab_size) is Ok
            ==> !is_diffusion_gemma_spec(
            nodes,
            object_at(nodes, Some(0)),
            model_of(nodes, object_at(nodes, Some(0))),
        ),
        config_of(nodes, generation_not_json, generation) is Ok ==> !is_diffusion_gemma_spec(
            nodes,
            object_at(nodes, Some(0)),
            model_of(nodes, object_at(nodes, Some(0))),
        ),
{
}

/// A run that decodes token by token fills one place at a time; its numbers of
/// new tokens and its padding come from the generation settings, where there
/// are any, and its vocabulary is the model's.
pub proof fn runs_follow_their_generation_settings(
    nodes: Seq<NodeView>,
    root: Option<nat>,
    model: Option<nat>,
    generation_not_json: bool,
    generation: Option<Seq<NodeView>>,
    vocab_size: usize,
    default_tokens: usize,
)
    ensures
        ({
            let r = generation_of(
                nodes,
                root,
                model,
                generation_not_json,
                generation,
                vocab_size,
                default_tokens,
            );
            &&& r is Ok <==> vocab_size <= u32::MAX && !generation_not_json
            &&& vocab_size > u32::MAX ==> r == Err::<GenerationView, ConfigError>(
                ConfigError::VocabTooLarge { vocab_size },
            )
            &&& r matches Ok(g) ==> {
                &&& g.vocab_size == vocab_size
                &&& g.canvas_length == 1 && g.max_denoising_steps == 1
                &&& generation is None ==> g.max_new_tokens == default_tokens && g.pad_token_id == 0
                &&& generation matches Some(d) ==> {
                    &&& said(d, Some(0), "max_new_tokens"@, default_tokens, g.max_new_tokens)
                    &&& u64_at(d, field(d, Some(0), "pad_token_id"@)) matches Some(n)
                        ==> g.pad_token_id == n as u32
                    &&& u64_at(d, field(d, Some(0), "pad_token_id"@)) is None ==> g.pad_token_id
                        == 0
                }
                &&& g.stop_token_ids == stop_ids(nodes, root, model, generation)
            }
        }),
{
}

/// A vision tower is what the document's own object for it says, each number
/// under its own key; without that object there is none.
pub proof fn towers_say_what_their_keys_say(
    nodes: Seq<NodeView>,
    root: Option<nat>,
    soft: Option<usize>,
)
    ensures
        ({
            let v = object_at(nodes, field(nodes, root, "vision_config"@));
            let r = vision_of(nodes, root, soft);
            &&& v is None <==> r == Ok::<Option<MetalGemma4VisionConfig>, ConfigError>(None)
            &&& r matches Ok(Some(c)) ==> {
                &&& v is Some && c.num_attention_heads > 0
                &&& said(nodes, v, "hidden_size"@, 768, c.hidden_size)
                &&& said(nodes, v, "num_attention_heads"@, 12, c.num_attention_heads)
                &&& said(nodes, v, "num_hidden_layers"@, 0, c.num_hidden_layers)
                &&& said(
                    nodes,
                    v,
                    "num_key_value_heads"@,
                    c.num_attention_heads,
                    c.num_key_value_heads,
                )
                &&& said(
                    nodes,
                    v,
                    "intermediate_size"@,
                    (4 * c.hidden_size) as usize,
                    c.intermediate_size,
                )
                &&& said(
                    nodes,
                    v,
                    "head_dim"@,
                    (c.hidden_size / c.num_attention_heads) as usize,
                    c.head_dim,
                )
                &&& said(nodes, v, "patch_size"@, 16, c.patch_size)
                &&& said(nodes, v, "pooling_kernel_size"@, 3, c.pooling_kernel_size)
                &&& said(
                    nodes,
                    v,
                    "default_output_length"@,
                    if soft is Some {
                        soft->0
                    } else {
                        280
                    },
                    c.default_output_length,
                )
                &&& said(nodes, v, "position_embedding_size"@, 10240, c.position_embedding_size)
                &&& c.use_clipped_linears <==> bool_at(
                    nodes,
                    field(nodes, v, "use_clipped_linears"@),
                ) == Some(true)
            }
        }),
{
}

/// A Gemma model's token for images and its number of image tokens are those
/// that the document names.
pub proof fn image_tokens_are_those_named(
    nodes: Seq<NodeView>,
    generation_not_json: bool,
    generation: Option<Seq<NodeView>>,
    vocab_size: usize,
)
    requires
        gemma4_of(nodes, generation_not_json, generation, vocab_size) is Ok,
    ensures
        ({
            let g = gemma4_of(nodes, generation_not_json, generation, vocab_size)->Ok_0;
            let root = object_at(nodes, Some(0));
            let image = u64_at(nodes, field(nodes, root, "image_token_id"@));
            let soft = u64_at(nodes, field(nodes, root, "vision_soft_tokens_per_image"@));
            &&& image is None <==> g.image_token_id is None
            &&& image matches Some(n) ==> g.image_token_id == Some(n as u32)
            &&& soft is None <==> g.vision_soft_tokens_per_image is None
            &&& soft matches Some(n) ==> g.vision_soft_tokens_per_image == Some(n as usize)
            &&& Ok::<Option<MetalGemma4VisionConfig>, ConfigError>(g.vision) == vision_of(
                nodes,
                root,
                g.vision_soft_tokens_per_image,
            )
        }),
{
}

/// The id that is found for images is that of an added token whose content is
/// the placeholder, and the first such; where one is not found, no added token
/// that reads as an id is the placeholder.
pub proof fn the_placeholder_is_found(
    nodes: Seq<NodeView>,
    table: nat,
    keys: Seq<Seq<char>>,
    n: nat,
)
    requires
        n <= keys.len(),
    ensures
        match image_id_of(nodes, table, keys, n) {
            Some(id) => exists|k: int|
                0 <= k < n && stands_for_images(nodes, table, #[trigger] keys[k]) && parsed_number(
                    keys[k],
                    u32::MAX as nat,
                ) is Some && id == parsed_number(keys[k], u32::MAX as nat)->0 as u32 && forall|
                    j: int,
                |
                    0 <= j < k ==> !(stands_for_images(nodes, table, #[trigger] keys[j])
                        && parsed_number(keys[j], u32::MAX as nat) is Some),
            None => forall|j: int|
                0 <= j < n ==> !(stands_for_images(nodes, table, #[trigger] keys[j])
                    && parsed_number(keys[j], u32::MAX as nat) is Some),
        },
    decreases n,
{
    if n > 0 {
        the_placeholder_is_found(nodes, table, keys, (n - 1) as nat);
        if image_id_of(nodes, table, keys, (n - 1) as nat) is None && image_id_of(
            nodes,
            table,
            keys,
            n,
        ) is Some {
            assert(stands_for_images(nodes, table, keys[n - 1]));
        }
    }
}

/// The added token under a key is the placeholder for images.
pub open spec fn stands_for_images(nodes: Seq<NodeView>, table: nat, key: Seq<char>) -> bool {
    text_at(nodes, field(nodes, field(nodes, Some(table), key), "content"@)) == Some("<image>"@)
}

} // verus!
