//! Model configurations: what a checkpoint's `config.json` and
//! `generation_config.json` say to the Metal backend. Floating-point settings
//! are carried as the bits that the document holds, nothing where it holds
//! none.
use vstd::prelude::*;

use crate::metal::json::{JsonDoc, JsonNode};
#[allow(unused_imports)]
use crate::metal::json::{
    bits_at, bool_at, field, i64_at, item_at, items_at, json_nodes, node_at, object_at, place,
    text_at, u64_at, NodeView,
};
use crate::text::{contains_text, parse_number, same_text, to_chars};
#[allow(unused_imports)]
use crate::text::{occurs, parsed_number, texts};

verus! {

#[derive(Debug, Clone, Copy, PartialEq, Eq, Structural)]
pub enum QuantMode {
    /// 4 or 8 bits with a scale and a bias per group.
    Affine,
    /// E2M1 weights with one scale per 32 and no bias.
    Mxfp4,
}

impl QuantMode {
    /// The runtime's number for the mode.
    pub fn ffi(self) -> (code: i32)
        ensures
            code == match self {
                QuantMode::Affine => 0int,
                QuantMode::Mxfp4 => 1int,
            },
    {
        match self {
            QuantMode::Affine => 0,
            QuantMode::Mxfp4 => 1,
        }
    }
}

/// Quantization of one named weight.
#[derive(Debug)]
pub struct WeightQuant {
    pub name: String,
    pub bits: i32,
    pub group_size: i32,
}

#[derive(Debug)]
pub struct QuantConfig {
    pub group_size: i32,
    pub bits: i32,
    pub mode: QuantMode,
    pub per_weight: Vec<WeightQuant>,
}

#[verifier::ext_equal]
pub struct WeightQuantView {
    pub name: Seq<char>,
    pub bits: i32,
    pub group_size: i32,
}

#[verifier::ext_equal]
pub struct QuantView {
    pub group_size: i32,
    pub bits: i32,
    pub mode: QuantMode,
    pub per_weight: Seq<WeightQuantView>,
}

impl View for WeightQuant {
    type V = WeightQuantView;

    open spec fn view(&self) -> WeightQuantView {
        WeightQuantView { name: self.name@, bits: self.bits, group_size: self.group_size }
    }
}

pub open spec fn weight_views(s: Seq<WeightQuant>) -> Seq<WeightQuantView> {
    s.map_values(|w: WeightQuant| w@)
}

impl View for QuantConfig {
    type V = QuantView;

    open spec fn view(&self) -> QuantView {
        QuantView {
            group_size: self.group_size,
            bits: self.bits,
            mode: self.mode,
            per_weight: weight_views(self.per_weight@),
        }
    }
}

#[derive(Debug, Clone, Copy, PartialEq, Eq, Structural)]
pub enum MetalQwen35LayerType {
    FullAttention,
    LinearAttention,
}

#[derive(Debug, Clone, Copy, PartialEq, Eq, Structural)]
pub struct MetalGdrConfig {
    pub num_key_heads: usize,
    pub key_dim: usize,
    pub num_value_heads: usize,
    pub value_dim: usize,
    pub conv_kernel: usize,
}

impl MetalGdrConfig {
    pub open spec fn qkv(self) -> int {
        self.num_key_heads * self.key_dim * 2 + self.num_value_heads * self.value_dim
    }

    /// Width of the mixed query, key and value rows.
    pub fn qkv_dim(&self) -> (n: usize)
        requires
            self.qkv() <= usize::MAX,
        ensures
            n == self.qkv(),
    {
        proof {
            assert(self.num_key_heads * self.key_dim >= 0) by (nonlinear_arith);
            assert(self.num_value_heads * self.value_dim >= 0) by (nonlinear_arith);
        }
        let qk: usize = self.num_key_heads * self.key_dim;
        let v: usize = self.num_value_heads * self.value_dim;
        qk * 2 + v
    }
}

#[derive(Debug)]
pub struct MetalQwen35MoeConfig {
    pub num_experts: usize,
    pub num_experts_per_tok: usize,
    pub decoder_sparse_step: usize,
    pub norm_topk_prob: bool,
    pub mlp_only_layers: Vec<usize>,
    pub router_bits: i32,
    pub router_group_size: i32,
    pub expert_bits: i32,
    pub expert_group_size: i32,
}

#[verifier::ext_equal]
pub struct MoeView {
    pub num_experts: usize,
    pub num_experts_per_tok: usize,
    pub decoder_sparse_step: usize,
    pub norm_topk_prob: bool,
    pub mlp_only_layers: Seq<usize>,
    pub router_bits: i32,
    pub router_group_size: i32,
    pub expert_bits: i32,
    pub expert_group_size: i32,
}

impl View for MetalQwen35MoeConfig {
    type V = MoeView;

    open spec fn view(&self) -> MoeView {
        MoeView {
            num_experts: self.num_experts,
            num_experts_per_tok: self.num_experts_per_tok,
            decoder_sparse_step: self.decoder_sparse_step,
            norm_topk_prob: self.norm_topk_prob,
            mlp_only_layers: self.mlp_only_layers@,
            router_bits: self.router_bits,
            router_group_size: self.router_group_size,
            expert_bits: self.expert_bits,
            expert_group_size: self.expert_group_size,
        }
    }
}

impl MoeView {
    /// Whether a layer holds experts: every `decoder_sparse_step`-th one, but
    /// for those named dense.
    pub open spec fn has_experts(self, idx: nat) -> bool {
        !self.mlp_only_layers.contains(idx as usize) && (idx + 1) % (
        if self.decoder_sparse_step == 0 {
            1nat
        } else {
            self.decoder_sparse_step as nat
        }) == 0
    }
}

impl MetalQwen35MoeConfig {
    pub fn is_moe_layer(&self, idx: usize) -> (r: bool)
        requires
            idx < usize::MAX,
        ensures
            r == self@.has_experts(idx as nat),
    {
        let mut i: usize = 0;
        while i < self.mlp_only_layers.len()
            invariant
                i <= self.mlp_only_layers@.len(),
                forall|j: int| 0 <= j < i ==> self.mlp_only_layers@[j] != idx,
            decreases self.mlp_only_layers@.len() - i,
        {
            if self.mlp_only_layers[i] == idx {
                assert(self@.mlp_only_layers[i as int] == idx);
                return false;
            }
            i = i + 1;
        }
        let step: usize = if self.decoder_sparse_step == 0 {
            1
        } else {
            self.decoder_sparse_step
        };
        (idx + 1) % step == 0
    }
}

/// Where the rotary width comes from.
#[derive(Debug, Clone, Copy, PartialEq, Eq, Structural)]
pub enum RotaryDim {
    /// The whole head.
    Whole { head_dim: usize },
    /// The head times a factor, given by its bits.
    Partial { head_dim: usize, factor_bits: u64 },
}

/// Configuration of a Qwen3.5/Qwen3.6 model.
#[derive(Debug)]
pub struct MetalModelConfig {
    pub hidden_size: usize,
    pub num_attention_heads: usize,
    pub num_key_value_heads: usize,
    pub num_hidden_layers: usize,
    pub rms_norm_eps_bits: Option<u64>,
    pub rope_theta_bits: Option<u64>,
    pub head_dim: usize,
    pub rotary: RotaryDim,
    pub stop_token_ids: Vec<u32>,
    pub quantization: Option<QuantConfig>,
    pub layer_types: Vec<MetalQwen35LayerType>,
    pub linear: MetalGdrConfig,
    pub moe: Option<MetalQwen35MoeConfig>,
}

#[verifier::ext_equal]
pub struct ConfigView {
    pub hidden_size: usize,
    pub num_attention_heads: usize,
    pub num_key_value_heads: usize,
    pub num_hidden_layers: usize,
    pub rms_norm_eps_bits: Option<u64>,
    pub rope_theta_bits: Option<u64>,
    pub head_dim: usize,
    pub rotary: RotaryDim,
    pub stop_token_ids: Seq<u32>,
    pub quantization: Option<QuantView>,
    pub layer_types: Seq<MetalQwen35LayerType>,
    pub linear: MetalGdrConfig,
    pub moe: Option<MoeView>,
}

impl View for MetalModelConfig {
    type V = ConfigView;

    open spec fn view(&self) -> ConfigView {
        ConfigView {
            hidden_size: self.hidden_size,
            num_attention_heads: self.num_attention_heads,
            num_key_value_heads: self.num_key_value_heads,
            num_hidden_layers: self.num_hidden_layers,
            rms_norm_eps_bits: self.rms_norm_eps_bits,
            rope_theta_bits: self.rope_theta_bits,
            head_dim: self.head_dim,
            rotary: self.rotary,
            stop_token_ids: self.stop_token_ids@,
            quantization: match self.quantization {
                Some(q) => Some(q@),
                None => None,
            },
            layer_types: self.layer_types@,
            linear: self.linear,
            moe: match self.moe {
                Some(m) => Some(m@),
                None => None,
            },
        }
    }
}

/// Why a configuration is refused.
#[derive(Debug, Clone, Copy, PartialEq, Eq, Structural)]
pub enum ConfigError {
    NotJson,
    NotObject,
    DiffusionGemma,
    Gemma4,
    NoLayerTypes,
    LayerTypeNotText { index: usize },
    UnsupportedLayerType { index: usize },
    LayerCount { types: usize, layers: usize },
    UnsupportedQuantMode,
    GenerationNotJson,
    NotGemma4,
    NoVisionHeads,
    VisionTooWide { hidden_size: usize },
    NotDeepseekOcr,
    VocabTooLarge { vocab_size: usize },
    NotMxfp8,
    NotTile2d,
    TokenizerNotJson,
}

// ---- reading fields ----

pub open spec fn usize_at(nodes: Seq<NodeView>, obj: Option<nat>, key: Seq<char>, default: usize) -> usize {
    match u64_at(nodes, field(nodes, obj, key)) {
        Some(x) => x as usize,
        None => default,
    }
}

pub open spec fn i32_at(nodes: Seq<NodeView>, obj: Option<nat>, key: Seq<char>, default: i32) -> i32 {
    match i64_at(nodes, field(nodes, obj, key)) {
        Some(x) => x as i32,
        None => default,
    }
}

fn get_usize(doc: &JsonDoc, obj: Option<usize>, key: &str, default: usize) -> (n: usize)
    ensures
        n == usize_at(doc@, place(obj), key@, default),
{
    match doc.as_u64(doc.field(obj, key)) {
        Some(x) => #[verifier::truncate]
        (x as usize),
        None => default,
    }
}

fn get_i32(doc: &JsonDoc, obj: Option<usize>, key: &str, default: i32) -> (n: i32)
    ensures
        n == i32_at(doc@, place(obj), key@, default),
{
    match doc.as_i64(doc.field(obj, key)) {
        Some(x) => #[verifier::truncate]
        (x as i32),
        None => default,
    }
}

pub open spec fn model_type_is_spec(nodes: Seq<NodeView>, obj: Option<nat>, expected: Seq<char>) -> bool {
    text_at(nodes, field(nodes, obj, "model_type"@)) == Some(expected)
}

fn model_type_is(doc: &JsonDoc, obj: Option<usize>, expected: &str) -> (r: bool)
    ensures
        r == model_type_is_spec(doc@, place(obj), expected@),
{
    match doc.as_text(doc.field(obj, "model_type")) {
        Some(t) => same_text(t, expected),
        None => false,
    }
}

/// Whether one of the named architectures contains a word.
pub open spec fn architectures_contain_spec(
    nodes: Seq<NodeView>,
    obj: Option<nat>,
    needle: Seq<char>,
) -> bool {
    exists|k: nat| #[trigger]
        text_at(nodes, item_at(nodes, field(nodes, obj, "architectures"@), k)) is Some && occurs(
            text_at(nodes, item_at(nodes, field(nodes, obj, "architectures"@), k))->0,
            needle,
        )
}

fn architectures_contain(doc: &JsonDoc, obj: Option<usize>, needle: &str) -> (r: bool)
    ensures
        r == architectures_contain_spec(doc@, place(obj), needle@),
{
    let list: Option<usize> = doc.field(obj, "architectures");
    let n: usize = match doc.items(list) {
        None => {
            return false;
        },
        Some(n) => n,
    };
    let mut k: usize = 0;
    while k < n
        invariant
            k <= n,
            place(list) == field(doc@, place(obj), "architectures"@),
            items_at(doc@, place(list)) == Some(n as nat),
            forall|j: nat|
                j < k && #[trigger] text_at(doc@, item_at(doc@, place(list), j)) is Some
                    ==> !occurs(text_at(doc@, item_at(doc@, place(list), j))->0, needle@),
        decreases n - k,
    {
        match doc.as_text(doc.item(list, k)) {
            Some(t) => {
                if contains_text(t, needle) {
                    assert(text_at(doc@, item_at(doc@, place(list), k as nat)) is Some);
                    return true;
                }
            },
            None => {},
        }
        k = k + 1;
    }
    false
}

pub open spec fn is_diffusion_gemma_spec(nodes: Seq<NodeView>, root: Option<nat>, model: Option<nat>) -> bool {
    model_type_is_spec(nodes, root, "diffusion_gemma"@) || model_type_is_spec(
        nodes,
        model,
        "diffusion_gemma"@,
    ) || architectures_contain_spec(nodes, root, "DiffusionGemma"@) || architectures_contain_spec(
        nodes,
        model,
        "DiffusionGemma"@,
    )
}

pub open spec fn is_gemma4_spec(nodes: Seq<NodeView>, root: Option<nat>, model: Option<nat>) -> bool {
    model_type_is_spec(nodes, root, "gemma4"@) || model_type_is_spec(nodes, model, "gemma4"@)
        || architectures_contain_spec(nodes, root, "Gemma4"@) || architectures_contain_spec(
        nodes,
        model,
        "Gemma4"@,
    )
}

fn is_diffusion_gemma_config(doc: &JsonDoc, root: Option<usize>, model: Option<usize>) -> (r: bool)
    ensures
        r == is_diffusion_gemma_spec(doc@, place(root), place(model)),
{
    model_type_is(doc, root, "diffusion_gemma") || model_type_is(doc, model, "diffusion_gemma")
        || architectures_contain(doc, root, "DiffusionGemma") || architectures_contain(
        doc,
        model,
        "DiffusionGemma",
    )
}

fn is_gemma4_config(doc: &JsonDoc, root: Option<usize>, model: Option<usize>) -> (r: bool)
    ensures
        r == is_gemma4_spec(doc@, place(root), place(model)),
{
    model_type_is(doc, root, "gemma4") || model_type_is(doc, model, "gemma4")
        || architectures_contain(doc, root, "Gemma4") || architectures_contain(
        doc,
        model,
        "Gemma4",
    )
}

/// The object that describes the text model: a nested one, else the root.
pub open spec fn model_of(nodes: Seq<NodeView>, root: Option<nat>) -> Option<nat> {
    match object_at(nodes, field(nodes, root, "text_config"@)) {
        Some(i) => Some(i),
        None => root,
    }
}

fn model_object(doc: &JsonDoc, root: Option<usize>) -> (m: Option<usize>)
    ensures
        place(m) == model_of(doc@, place(root)),
{
    match doc.object(doc.field(root, "text_config")) {
        Some(i) => Some(i),
        None => root,
    }
}

// ---- quantization ----

/// Overrides among the first `n` keys of an object: its object-valued ones.
pub open spec fn overrides(
    nodes: Seq<NodeView>,
    at: nat,
    keys: Seq<Seq<char>>,
    n: nat,
    bits: i32,
    group_size: i32,
) -> Seq<WeightQuantView>
    decreases n,
{
    if n == 0 {
        Seq::empty()
    } else {
        let front = overrides(nodes, at, keys, (n - 1) as nat, bits, group_size);
        let entry = object_at(nodes, field(nodes, Some(at), keys[n - 1]));
        match entry {
            None => front,
            Some(e) => front.push(
                WeightQuantView {
                    name: keys[n - 1],
                    bits: i32_at(nodes, entry, "bits"@, bits),
                    group_size: i32_at(nodes, entry, "group_size"@, group_size),
                },
            ),
        }
    }
}

/// All overrides of an object.
pub open spec fn overrides_at(nodes: Seq<NodeView>, at: nat, bits: i32, group_size: i32) -> Seq<
    WeightQuantView,
> {
    match node_at(nodes, Some(at)) {
        Some(NodeView::Object(keys)) => overrides(nodes, at, keys, keys.len(), bits, group_size),
        _ => Seq::empty(),
    }
}

fn read_overrides(doc: &JsonDoc, at: usize, bits: i32, group_size: i32) -> (per_weight: Vec<
    WeightQuant,
>)
    requires
        at < doc.nodes@.len(),
    ensures
        weight_views(per_weight@) == overrides_at(doc@, at as nat, bits, group_size),
{
    let here: Option<usize> = Some(at);
    let mut per_weight: Vec<WeightQuant> = Vec::new();
    assert(doc@[at as int] == doc.nodes@[at as int]@);
    assert(weight_views(per_weight@) =~= Seq::<WeightQuantView>::empty());
    match &doc.nodes[at] {
        JsonNode::Object(keys) => {
            let ghost names = texts(keys@);
            let mut k: usize = 0;
            while k < keys.len()
                invariant
                    k <= keys@.len(),
                    names == texts(keys@),
                    here == Some(at),
                    weight_views(per_weight@) == overrides(
                        doc@,
                        at as nat,
                        names,
                        k as nat,
                        bits,
                        group_size,
                    ),
                decreases keys@.len() - k,
            {
                assert(names[k as int] == keys@[k as int]@);
                let entry: Option<usize> = doc.object(doc.field(here, keys[k].as_str()));
                if entry.is_some() {
                    let w = WeightQuant {
                        name: keys[k].clone(),
                        bits: get_i32(doc, entry, "bits", bits),
                        group_size: get_i32(doc, entry, "group_size", group_size),
                    };
                    let ghost before = per_weight@;
                    per_weight.push(w);
                    assert(weight_views(per_weight@) =~= weight_views(before).push(w@));
                }
                k = k + 1;
            }
        },
        _ => {},
    }
    per_weight
}

/// How a Gemma checkpoint says it is packed: affine, with overrides that fall
/// back on 4 bits in groups of 64 whatever the defaults of the checkpoint.
pub open spec fn gemma_quant(nodes: Seq<NodeView>) -> Option<QuantView> {
    let own = field(nodes, Some(0), "quantization"@);
    let at = object_at(
        nodes,
        match own {
            Some(i) => Some(i),
            None => field(nodes, Some(0), "quantization_config"@),
        },
    );
    match at {
        None => None,
        Some(i) => Some(
            QuantView {
                group_size: i32_at(nodes, at, "group_size"@, 64),
                bits: i32_at(nodes, at, "bits"@, 4),
                mode: QuantMode::Affine,
                per_weight: overrides_at(nodes, i, 4, 64),
            },
        ),
    }
}

/// How the weights of a Gemma checkpoint are packed, by their names.
#[derive(Debug)]
pub struct QuantRegistry {
    pub config: Option<QuantConfig>,
}

impl QuantRegistry {
    pub open spec fn quant(self) -> Option<QuantView> {
        match self.config {
            Some(c) => Some(c@),
            None => None,
        }
    }

    pub fn from_config_value(doc: &JsonDoc) -> (r: Self)
        ensures
            r.quant() == gemma_quant(doc@),
    {
        let own: Option<usize> = doc.field(doc.root(), "quantization");
        let at: Option<usize> = doc.object(
            match own {
                Some(i) => Some(i),
                None => doc.field(doc.root(), "quantization_config"),
            },
        );
        match at {
            None => QuantRegistry { config: None },
            Some(i) => {
                if i >= doc.nodes.len() {
                    return QuantRegistry { config: None };
                }
                QuantRegistry {
                    config: Some(
                        QuantConfig {
                            group_size: get_i32(doc, at, "group_size", 64),
                            bits: get_i32(doc, at, "bits", 4),
                            mode: QuantMode::Affine,
                            per_weight: read_overrides(doc, i, 4, 64),
                        },
                    ),
                }
            },
        }
    }
}

pub open spec fn quant_of(nodes: Seq<NodeView>, at: nat) -> Result<QuantView, ConfigError> {
    let group_size = i32_at(nodes, Some(at), "group_size"@, 64);
    let bits = i32_at(nodes, Some(at), "bits"@, 4);
    let mode = text_at(nodes, field(nodes, Some(at), "mode"@));
    if mode is Some && mode->0 != "mxfp4"@ && mode->0 != "affine"@ {
        Err(ConfigError::UnsupportedQuantMode)
    } else {
        Ok(
            QuantView {
                group_size,
                bits,
                mode: if mode == Some("mxfp4"@) {
                    QuantMode::Mxfp4
                } else {
                    QuantMode::Affine
                },
                per_weight: overrides_at(nodes, at, bits, group_size),
            },
        )
    }
}

fn parse_quant_config(doc: &JsonDoc, at: usize) -> (r: Result<QuantConfig, ConfigError>)
    requires
        at < doc.nodes@.len(),
    ensures
        match (r, quant_of(doc@, at as nat)) {
            (Ok(q), Ok(v)) => q@ == v,
            (Err(e), Err(f)) => e == f,
            _ => false,
        },
{
    let here: Option<usize> = Some(at);
    let group_size: i32 = get_i32(doc, here, "group_size", 64);
    let bits: i32 = get_i32(doc, here, "bits", 4);
    let mode: QuantMode = match doc.as_text(doc.field(here, "mode")) {
        None => QuantMode::Affine,
        Some(t) => if same_text(t, "mxfp4") {
            QuantMode::Mxfp4
        } else if same_text(t, "affine") {
            proof {
                reveal_strlit("affine");
                reveal_strlit("mxfp4");
                assert("affine"@.len() == 6 && "mxfp4"@.len() == 5);
            }
            QuantMode::Affine
        } else {
            return Err(ConfigError::UnsupportedQuantMode);
        },
    };
    let per_weight: Vec<WeightQuant> = read_overrides(doc, at, bits, group_size);
    Ok(QuantConfig { group_size, bits, mode, per_weight })
}

/// Bits and group size of a weight: its own override, else the defaults.
pub open spec fn quant_for(q: QuantView, base: Seq<char>, n: nat) -> (i32, i32)
    decreases n,
{
    if n == 0 {
        (q.bits, q.group_size)
    } else if q.per_weight[n - 1].name == base {
        (q.per_weight[n - 1].bits, q.per_weight[n - 1].group_size)
    } else {
        quant_for(q, base, (n - 1) as nat)
    }
}

impl QuantConfig {
    pub fn for_base(&self, base: &str) -> (r: (i32, i32))
        ensures
            r == quant_for(self@, base@, self@.per_weight.len()),
    {
        let mut k: usize = self.per_weight.len();
        while k > 0
            invariant
                k <= self.per_weight@.len(),
                quant_for(self@, base@, self@.per_weight.len()) == quant_for(
                    self@,
                    base@,
                    k as nat,
                ),
            decreases k,
        {
            let w: &WeightQuant = &self.per_weight[k - 1];
            assert(self@.per_weight[k - 1] == w@);
            if same_text(w.name.as_str(), base) {
                return (w.bits, w.group_size);
            }
            k = k - 1;
        }
        (self.bits, self.group_size)
    }
}

// ---- layers and experts ----

pub open spec fn layer_type_at(nodes: Seq<NodeView>, list: Option<nat>, k: nat) -> Result<
    MetalQwen35LayerType,
    ConfigError,
> {
    match text_at(nodes, item_at(nodes, list, k)) {
        None => Err(ConfigError::LayerTypeNotText { index: k as usize }),
        Some(t) => if t == "full_attention"@ {
            Ok(MetalQwen35LayerType::FullAttention)
        } else if t == "linear_attention"@ {
            Ok(MetalQwen35LayerType::LinearAttention)
        } else {
            Err(ConfigError::UnsupportedLayerType { index: k as usize })
        },
    }
}

pub open spec fn layer_types_of(nodes: Seq<NodeView>, list: Option<nat>, n: nat) -> Result<
    Seq<MetalQwen35LayerType>,
    ConfigError,
>
    decreases n,
{
    if n == 0 {
        Ok(Seq::empty())
    } else {
        match layer_types_of(nodes, list, (n - 1) as nat) {
            Err(e) => Err(e),
            Ok(s) => match layer_type_at(nodes, list, (n - 1) as nat) {
                Err(e) => Err(e),
                Ok(t) => Ok(s.push(t)),
            },
        }
    }
}

proof fn lemma_layer_types_stop(nodes: Seq<NodeView>, list: Option<nat>, k: nat, n: nat)
    requires
        k <= n,
        layer_types_of(nodes, list, k) is Err,
    ensures
        layer_types_of(nodes, list, n) == layer_types_of(nodes, list, k),
    decreases n,
{
    if k < n {
        lemma_layer_types_stop(nodes, list, k, (n - 1) as nat);
    }
}

fn read_layer_types(doc: &JsonDoc, list: Option<usize>, n: usize) -> (r: Result<
    Vec<MetalQwen35LayerType>,
    ConfigError,
>)
    ensures
        match (r, layer_types_of(doc@, place(list), n as nat)) {
            (Ok(v), Ok(s)) => v@ == s,
            (Err(e), Err(f)) => e == f,
            _ => false,
        },
{
    let mut out: Vec<MetalQwen35LayerType> = Vec::new();
    let mut k: usize = 0;
    while k < n
        invariant
            k <= n,
            layer_types_of(doc@, place(list), k as nat) == Ok::<
                Seq<MetalQwen35LayerType>,
                ConfigError,
            >(out@),
        decreases n - k,
    {
        match doc.as_text(doc.item(list, k)) {
            None => {
                proof {
                    lemma_layer_types_stop(doc@, place(list), (k + 1) as nat, n as nat);
                }
                return Err(ConfigError::LayerTypeNotText { index: k });
            },
            Some(t) => {
                if same_text(t, "full_attention") {
                    out.push(MetalQwen35LayerType::FullAttention);
                } else if same_text(t, "linear_attention") {
                    out.push(MetalQwen35LayerType::LinearAttention);
                } else {
                    proof {
                        lemma_layer_types_stop(doc@, place(list), (k + 1) as nat, n as nat);
                    }
                    return Err(ConfigError::UnsupportedLayerType { index: k });
                }
            },
        }
        k = k + 1;
    }
    Ok(out)
}

pub open spec fn count_layers(s: Seq<MetalQwen35LayerType>, t: MetalQwen35LayerType) -> nat
    decreases s.len(),
{
    if s.len() == 0 {
        0
    } else {
        count_layers(s.drop_last(), t) + if s.last() == t {
            1nat
        } else {
            0nat
        }
    }
}

/// Every layer is of one of the two types.
pub proof fn layers_split_by_type(s: Seq<MetalQwen35LayerType>)
    ensures
        count_layers(s, MetalQwen35LayerType::FullAttention) + count_layers(
            s,
            MetalQwen35LayerType::LinearAttention,
        ) == s.len(),
    decreases s.len(),
{
    if s.len() > 0 {
        layers_split_by_type(s.drop_last());
    }
}

fn count_type(s: &[MetalQwen35LayerType], t: MetalQwen35LayerType) -> (n: usize)
    ensures
        n == count_layers(s@, t),
{
    let mut n: usize = 0;
    let mut i: usize = 0;
    assert(s@.take(0) =~= Seq::<MetalQwen35LayerType>::empty());
    while i < s.len()
        invariant
            i <= s@.len(),
            n <= i,
            n == count_layers(s@.take(i as int), t),
        decreases s@.len() - i,
    {
        assert(s@.take(i + 1).drop_last() =~= s@.take(i as int));
        if s[i] == t {
            n = n + 1;
        }
        i = i + 1;
    }
    assert(s@.take(i as int) =~= s@);
    n
}

impl MetalModelConfig {
    pub fn num_full_attention_layers(&self) -> (n: usize)
        ensures
            n == count_layers(self@.layer_types, MetalQwen35LayerType::FullAttention),
    {
        count_type(self.layer_types.as_slice(), MetalQwen35LayerType::FullAttention)
    }

    pub fn num_linear_attention_layers(&self) -> (n: usize)
        ensures
            n == count_layers(self@.layer_types, MetalQwen35LayerType::LinearAttention),
    {
        count_type(self.layer_types.as_slice(), MetalQwen35LayerType::LinearAttention)
    }
}

/// The integers among the first `n` items of an array.
pub open spec fn integers_of(nodes: Seq<NodeView>, list: Option<nat>, n: nat) -> Seq<u64>
    decreases n,
{
    if n == 0 {
        Seq::empty()
    } else {
        let front = integers_of(nodes, list, (n - 1) as nat);
        match u64_at(nodes, item_at(nodes, list, (n - 1) as nat)) {
            Some(x) => front.push(x),
            None => front,
        }
    }
}

fn read_integers(doc: &JsonDoc, list: Option<usize>, n: usize) -> (out: Vec<u64>)
    ensures
        out@ == integers_of(doc@, place(list), n as nat),
{
    let mut out: Vec<u64> = Vec::new();
    let mut k: usize = 0;
    while k < n
        invariant
            k <= n,
            out@ == integers_of(doc@, place(list), k as nat),
        decreases n - k,
    {
        match doc.as_u64(doc.item(list, k)) {
            Some(x) => {
                out.push(x);
            },
            None => {},
        }
        k = k + 1;
    }
    out
}

pub open spec fn usize_array(nodes: Seq<NodeView>, obj: Option<nat>, key: Seq<char>) -> Option<
    Seq<usize>,
> {
    let list = field(nodes, obj, key);
    match items_at(nodes, list) {
        None => None,
        Some(n) => Some(integers_of(nodes, list, n).map_values(|x: u64| x as usize)),
    }
}

fn parse_usize_array(doc: &JsonDoc, obj: Option<usize>, key: &str) -> (r: Option<Vec<usize>>)
    ensures
        match (r, usize_array(doc@, place(obj), key@)) {
            (Some(v), Some(s)) => v@ == s,
            (None, None) => true,
            _ => false,
        },
{
    let list: Option<usize> = doc.field(obj, key);
    let n: usize = match doc.items(list) {
        None => {
            return None;
        },
        Some(n) => n,
    };
    let ints: Vec<u64> = read_integers(doc, list, n);
    let ghost want = ints@.map_values(|x: u64| x as usize);
    let mut out: Vec<usize> = Vec::new();
    let mut k: usize = 0;
    while k < ints.len()
        invariant
            k <= ints@.len(),
            want == ints@.map_values(|x: u64| x as usize),
            out@ == want.take(k as int),
        decreases ints@.len() - k,
    {
        out.push(
            #[verifier::truncate]
            (ints[k] as usize),
        );
        k = k + 1;
        assert(out@ =~= want.take(k as int));
    }
    assert(want.take(want.len() as int) =~= want);
    Some(out)
}

/// The experts' configuration: the model's own fields, overridden by those of
/// a nested object that say something.
pub open spec fn moe_of(nodes: Seq<NodeView>, model: Option<nat>, quant: Option<QuantView>) -> Option<
    MoeView,
> {
    let nested = object_at(nodes, field(nodes, model, "moe_config"@));
    let inner_experts = usize_at(nodes, nested, "num_experts"@, 0);
    let inner_top_k = usize_at(nodes, nested, "num_experts_per_tok"@, 0);
    let inner_step = usize_at(nodes, nested, "decoder_sparse_step"@, 1);
    let inner_layers = usize_array(nodes, nested, "mlp_only_layers"@);
    let own_step = usize_at(nodes, model, "decoder_sparse_step"@, 1);
    let own_norm = match bool_at(nodes, field(nodes, model, "norm_topk_prob"@)) {
        Some(b) => b,
        None => true,
    };
    let own_layers = match usize_array(nodes, model, "mlp_only_layers"@) {
        Some(s) => s,
        None => Seq::empty(),
    };
    let experts = if inner_experts > 0 {
        inner_experts
    } else {
        usize_at(nodes, model, "num_experts"@, 0)
    };
    let group_size = match quant {
        Some(q) => q.group_size,
        None => 64i32,
    };
    let bits = match quant {
        Some(q) => q.bits,
        None => 4i32,
    };
    if experts == 0 {
        None
    } else {
        Some(
            MoeView {
                num_experts: experts,
                num_experts_per_tok: if inner_top_k > 0 {
                    inner_top_k
                } else {
                    usize_at(nodes, model, "num_experts_per_tok"@, 0)
                },
                decoder_sparse_step: if inner_step > 1 {
                    inner_step
                } else if own_step == 0 {
                    1
                } else {
                    own_step
                },
                norm_topk_prob: own_norm && bool_at(
                    nodes,
                    field(nodes, nested, "norm_topk_prob"@),
                ) != Some(false),
                mlp_only_layers: if inner_layers is Some && inner_layers->0.len() > 0 {
                    inner_layers->0
                } else {
                    own_layers
                },
                router_bits: if bits > 8 {
                    bits
                } else {
                    8
                },
                router_group_size: group_size,
                expert_bits: bits,
                expert_group_size: group_size,
            },
        )
    }
}

fn read_moe(doc: &JsonDoc, model: Option<usize>, quant: &Option<QuantConfig>) -> (r: Option<
    MetalQwen35MoeConfig,
>)
    ensures
        match (
            r,
            moe_of(
                doc@,
                place(model),
                match *quant {
                    Some(q) => Some(q@),
                    None => None,
                },
            ),
        ) {
            (Some(m), Some(v)) => m@ == v,
            (None, None) => true,
            _ => false,
        },
{
    let nested: Option<usize> = doc.object(doc.field(model, "moe_config"));
    let mut experts: usize = get_usize(doc, model, "num_experts", 0);
    let mut top_k: usize = get_usize(doc, model, "num_experts_per_tok", 0);
    let mut step: usize = get_usize(doc, model, "decoder_sparse_step", 1);
    if step == 0 {
        step = 1;
    }
    let mut norm: bool = match doc.as_bool(doc.field(model, "norm_topk_prob")) {
        Some(b) => b,
        None => true,
    };
    let mut layers: Vec<usize> = match parse_usize_array(doc, model, "mlp_only_layers") {
        Some(v) => v,
        None => Vec::new(),
    };
    let inner_experts: usize = get_usize(doc, nested, "num_experts", 0);
    if inner_experts > 0 {
        experts = inner_experts;
    }
    let inner_top_k: usize = get_usize(doc, nested, "num_experts_per_tok", 0);
    if inner_top_k > 0 {
        top_k = inner_top_k;
    }
    let inner_step: usize = get_usize(doc, nested, "decoder_sparse_step", 1);
    if inner_step > 1 {
        step = inner_step;
    }
    match doc.as_bool(doc.field(nested, "norm_topk_prob")) {
        Some(b) => {
            if !b {
                norm = false;
            }
        },
        None => {},
    }
    match parse_usize_array(doc, nested, "mlp_only_layers") {
        Some(v) => {
            if v.len() > 0 {
                layers = v;
            }
        },
        None => {},
    }
    if experts == 0 {
        return None;
    }
    let (group_size, bits) = match quant {
        Some(q) => (q.group_size, q.bits),
        None => (64i32, 4i32),
    };
    Some(
        MetalQwen35MoeConfig {
            num_experts: experts,
            num_experts_per_tok: top_k,
            decoder_sparse_step: step,
            norm_topk_prob: norm,
            mlp_only_layers: layers,
            router_bits: if bits > 8 {
                bits
            } else {
                8
            },
            router_group_size: group_size,
            expert_bits: bits,
            expert_group_size: group_size,
        },
    )
}

// ---- stop tokens ----

/// Ids of an end-of-sequence field: one number, or the numbers of an array.
pub open spec fn eos_of(nodes: Seq<NodeView>, at: Option<nat>) -> Seq<u32> {
    match u64_at(nodes, at) {
        Some(id) => seq![id as u32],
        None => match items_at(nodes, at) {
            Some(n) => integers_of(nodes, at, n).map_values(|x: u64| x as u32),
            None => Seq::empty(),
        },
    }
}

fn parse_eos_field(doc: &JsonDoc, at: Option<usize>) -> (ids: Vec<u32>)
    ensures
        ids@ == eos_of(doc@, place(at)),
{
    let mut ids: Vec<u32> = Vec::new();
    match doc.as_u64(at) {
        Some(id) => {
            ids.push(
                #[verifier::truncate]
                (id as u32),
            );
            assert(ids@ =~= seq![id as u32]);
            return ids;
        },
        None => {},
    }
    let n: usize = match doc.items(at) {
        None => {
            return ids;
        },
        Some(n) => n,
    };
    let ints: Vec<u64> = read_integers(doc, at, n);
    let ghost want = ints@.map_values(|x: u64| x as u32);
    let mut k: usize = 0;
    while k < ints.len()
        invariant
            k <= ints@.len(),
            want == ints@.map_values(|x: u64| x as u32),
            ids@ == want.take(k as int),
        decreases ints@.len() - k,
    {
        ids.push(
            #[verifier::truncate]
            (ints[k] as u32),
        );
        k = k + 1;
        assert(ids@ =~= want.take(k as int));
    }
    assert(want.take(want.len() as int) =~= want);
    ids
}

/// `target` and the ids of `src` that it lacks, in order.
pub open spec fn extended(target: Seq<u32>, src: Seq<u32>) -> Seq<u32>
    decreases src.len(),
{
    if src.len() == 0 {
        target
    } else {
        let front = extended(target, src.drop_last());
        if front.contains(src.last()) {
            front
        } else {
            front.push(src.last())
        }
    }
}

fn extend_unique(target: &mut Vec<u32>, src: &[u32])
    ensures
        final(target)@ == extended(old(target)@, src@),
{
    let mut i: usize = 0;
    assert(src@.take(0) =~= Seq::<u32>::empty());
    while i < src.len()
        invariant
            i <= src@.len(),
            target@ == extended(old(target)@, src@.take(i as int)),
        decreases src@.len() - i,
    {
        let id: u32 = src[i];
        assert(src@.take(i + 1).drop_last() =~= src@.take(i as int));
        let mut found: bool = false;
        let mut j: usize = 0;
        while j < target.len()
            invariant
                j <= target@.len(),
                found == exists|k: int| 0 <= k < j && target@[k] == id,
            decreases target@.len() - j,
        {
            if target[j] == id {
                found = true;
            }
            j = j + 1;
        }
        assert(found == target@.contains(id));
        if !found {
            target.push(id);
        }
        i = i + 1;
    }
    assert(src@.take(i as int) =~= src@);
}

/// The stop ids of a model: those of its generation settings, then those of
/// the two objects that are new, and 151645 where there is none at all.
pub open spec fn stop_ids(
    nodes: Seq<NodeView>,
    root: Option<nat>,
    model: Option<nat>,
    generation: Option<Seq<NodeView>>,
) -> Seq<u32> {
    let first = match generation {
        Some(g) => eos_of(g, field(g, Some(0), "eos_token_id"@)),
        None => Seq::empty(),
    };
    let all = extended(
        extended(first, eos_of(nodes, field(nodes, root, "eos_token_id"@))),
        eos_of(nodes, field(nodes, model, "eos_token_id"@)),
    );
    if all.len() == 0 {
        seq![151645u32]
    } else {
        all
    }
}

/// Generation settings as they were found.
#[derive(Debug)]
pub enum GenerationDoc {
    Absent,
    NotJson,
    Found(JsonDoc),
}

impl GenerationDoc {
    pub open spec fn nodes(self) -> Option<Seq<NodeView>> {
        match self {
            GenerationDoc::Found(d) => Some(d@),
            _ => None,
        }
    }
}

fn resolve_stop_token_ids(
    doc: &JsonDoc,
    root: Option<usize>,
    model: Option<usize>,
    generation: &GenerationDoc,
) -> (r: Result<Vec<u32>, ConfigError>)
    ensures
        *generation is NotJson ==> r == Err::<Vec<u32>, ConfigError>(
            ConfigError::GenerationNotJson,
        ),
        !(*generation is NotJson) ==> r is Ok && r->Ok_0@ == stop_ids(
            doc@,
            place(root),
            place(model),
            generation.nodes(),
        ),
{
    let mut ids: Vec<u32> = match generation {
        GenerationDoc::NotJson => {
            return Err(ConfigError::GenerationNotJson);
        },
        GenerationDoc::Absent => Vec::new(),
        GenerationDoc::Found(g) => parse_eos_field(g, g.field(Some(0), "eos_token_id")),
    };
    let a: Vec<u32> = parse_eos_field(doc, doc.field(root, "eos_token_id"));
    extend_unique(&mut ids, a.as_slice());
    let b: Vec<u32> = parse_eos_field(doc, doc.field(model, "eos_token_id"));
    extend_unique(&mut ids, b.as_slice());
    if ids.len() == 0 {
        ids.push(151645);
        assert(ids@ =~= seq![151645u32]);
    }
    Ok(ids)
}

/// A model always has a stop id.
pub proof fn stop_ids_are_never_empty(
    nodes: Seq<NodeView>,
    root: Option<nat>,
    model: Option<nat>,
    generation: Option<Seq<NodeView>>,
)
    ensures
        stop_ids(nodes, root, model, generation).len() >= 1,
{
}

// ---- the whole configuration ----

pub open spec fn quant_field(nodes: Seq<NodeView>, root: Option<nat>) -> Option<nat> {
    match field(nodes, root, "quantization"@) {
        Some(i) => Some(i),
        None => field(nodes, root, "quantization_config"@),
    }
}

pub open spec fn rotary_of(nodes: Seq<NodeView>, rope: Option<nat>, head_dim: usize) -> RotaryDim {
    match bits_at(nodes, field(nodes, rope, "partial_rotary_factor"@)) {
        Some(factor_bits) => RotaryDim::Partial { head_dim, factor_bits },
        None => RotaryDim::Whole { head_dim },
    }
}

/// What a document says of a Qwen3.5/Qwen3.6 model.
pub open spec fn config_of(
    nodes: Seq<NodeView>,
    generation_not_json: bool,
    generation: Option<Seq<NodeView>>,
) -> Result<ConfigView, ConfigError> {
    let root = object_at(nodes, Some(0));
    let model = model_of(nodes, root);
    let list = field(nodes, model, "layer_types"@);
    let rope = object_at(nodes, field(nodes, model, "rope_parameters"@));
    if root is None {
        Err(ConfigError::NotObject)
    } else if is_diffusion_gemma_spec(nodes, root, model) {
        Err(ConfigError::DiffusionGemma)
    } else if is_gemma4_spec(nodes, root, model) {
        Err(ConfigError::Gemma4)
    } else if items_at(nodes, list) is None {
        Err(ConfigError::NoLayerTypes)
    } else {
        match layer_types_of(nodes, list, items_at(nodes, list)->0) {
            Err(e) => Err(e),
            Ok(types) => {
                let hidden = usize_at(nodes, model, "hidden_size"@, 2048);
                let heads = usize_at(nodes, model, "num_attention_heads"@, 16);
                let head_dim = usize_at(
                    nodes,
                    model,
                    "head_dim"@,
                    (hidden as int / if heads == 0 {
                        1int
                    } else {
                        heads as int
                    }) as usize,
                );
                let layers = usize_at(nodes, model, "num_hidden_layers"@, types.len() as usize);
                if types.len() != layers {
                    Err(ConfigError::LayerCount { types: types.len() as usize, layers })
                } else {
                    let quant = match quant_field(nodes, root) {
                        None => Ok(None),
                        Some(q) => match quant_of(nodes, q) {
                            Ok(v) => Ok(Some(v)),
                            Err(e) => Err(e),
                        },
                    };
                    match quant {
                        Err(e) => Err(e),
                        Ok(quantization) => if generation_not_json {
                            Err(ConfigError::GenerationNotJson)
                        } else {
                            Ok(
                                ConfigView {
                                    hidden_size: hidden,
                                    num_attention_heads: heads,
                                    num_key_value_heads: usize_at(
                                        nodes,
                                        model,
                                        "num_key_value_heads"@,
                                        8,
                                    ),
                                    num_hidden_layers: layers,
                                    rms_norm_eps_bits: bits_at(
                                        nodes,
                                        field(nodes, model, "rms_norm_eps"@),
                                    ),
                                    rope_theta_bits: match bits_at(
                                        nodes,
                                        field(nodes, rope, "rope_theta"@),
                                    ) {
                                        Some(b) => Some(b),
                                        None => bits_at(nodes, field(nodes, model, "rope_theta"@)),
                                    },
                                    head_dim,
                                    rotary: rotary_of(nodes, rope, head_dim),
                                    stop_token_ids: stop_ids(nodes, root, model, generation),
                                    quantization,
                                    layer_types: types,
                                    linear: MetalGdrConfig {
                                        num_key_heads: usize_at(
                                            nodes,
                                            model,
                                            "linear_num_key_heads"@,
                                            0,
                                        ),
                                        key_dim: usize_at(
                                            nodes,
                                            model,
                                            "linear_key_head_dim"@,
                                            0,
                                        ),
                                        num_value_heads: usize_at(
                                            nodes,
                                            model,
                                            "linear_num_value_heads"@,
                                            0,
                                        ),
                                        value_dim: usize_at(
                                            nodes,
                                            model,
                                            "linear_value_head_dim"@,
                                            0,
                                        ),
                                        conv_kernel: usize_at(
                                            nodes,
                                            model,
                                            "linear_conv_kernel_dim"@,
                                            4,
                                        ),
                                    },
                                    moe: moe_of(nodes, model, quantization),
                                },
                            )
                        },
                    }
                }
            },
        }
    }
}

/// Reads a model's configuration out of its documents.
pub fn metal_config_from_doc(doc: &JsonDoc, generation: &GenerationDoc) -> (r: Result<
    MetalModelConfig,
    ConfigError,
>)
    ensures
        match (r, config_of(doc@, *generation is NotJson, generation.nodes())) {
            (Ok(c), Ok(v)) => c@ == v,
            (Err(e), Err(f)) => e == f,
            _ => false,
        },
{
    let root: Option<usize> = doc.object(doc.root());
    if root.is_none() {
        return Err(ConfigError::NotObject);
    }
    let model: Option<usize> = model_object(doc, root);
    if is_diffusion_gemma_config(doc, root, model) {
        return Err(ConfigError::DiffusionGemma);
    }
    if is_gemma4_config(doc, root, model) {
        return Err(ConfigError::Gemma4);
    }
    let list: Option<usize> = doc.field(model, "layer_types");
    let n: usize = match doc.items(list) {
        None => {
            return Err(ConfigError::NoLayerTypes);
        },
        Some(n) => n,
    };
    let layer_types: Vec<MetalQwen35LayerType> = match read_layer_types(doc, list, n) {
        Err(e) => {
            return Err(e);
        },
        Ok(v) => v,
    };
    let hidden_size: usize = get_usize(doc, model, "hidden_size", 2048);
    let num_attention_heads: usize = get_usize(doc, model, "num_attention_heads", 16);
    let divisor: usize = if num_attention_heads == 0 {
        1
    } else {
        num_attention_heads
    };
    let head_dim: usize = get_usize(doc, model, "head_dim", hidden_size / divisor);
    let num_hidden_layers: usize = get_usize(doc, model, "num_hidden_layers", layer_types.len());
    if layer_types.len() != num_hidden_layers {
        return Err(
            ConfigError::LayerCount { types: layer_types.len(), layers: num_hidden_layers },
        );
    }
    let rope: Option<usize> = doc.object(doc.field(model, "rope_parameters"));
    let quant_place: Option<usize> = match doc.field(root, "quantization") {
        Some(i) => Some(i),
        None => doc.field(root, "quantization_config"),
    };
    let quantization: Option<QuantConfig> = match quant_place {
        None => None,
        Some(q) => {
            if q >= doc.nodes.len() {
                assert(false);
                None
            } else {
                match parse_quant_config(doc, q) {
                    Err(e) => {
                        return Err(e);
                    },
                    Ok(c) => Some(c),
                }
            }
        },
    };
    let moe: Option<MetalQwen35MoeConfig> = read_moe(doc, model, &quantization);
    let stop_token_ids: Vec<u32> = match resolve_stop_token_ids(doc, root, model, generation) {
        Err(e) => {
            return Err(e);
        },
        Ok(v) => v,
    };
    let rope_theta_bits: Option<u64> = match doc.as_float_bits(doc.field(rope, "rope_theta")) {
        Some(b) => Some(b),
        None => doc.as_float_bits(doc.field(model, "rope_theta")),
    };
    let rotary: RotaryDim = match doc.as_float_bits(doc.field(rope, "partial_rotary_factor")) {
        Some(factor_bits) => RotaryDim::Partial { head_dim, factor_bits },
        None => RotaryDim::Whole { head_dim },
    };
    Ok(
        MetalModelConfig {
            hidden_size,
            num_attention_heads,
            num_key_value_heads: get_usize(doc, model, "num_key_value_heads", 8),
            num_hidden_layers,
            rms_norm_eps_bits: doc.as_float_bits(doc.field(model, "rms_norm_eps")),
            rope_theta_bits,
            head_dim,
            rotary,
            stop_token_ids,
            quantization,
            layer_types,
            linear: MetalGdrConfig {
                num_key_heads: get_usize(doc, model, "linear_num_key_heads", 0),
                key_dim: get_usize(doc, model, "linear_key_head_dim", 0),
                num_value_heads: get_usize(doc, model, "linear_num_value_heads", 0),
                value_dim: get_usize(doc, model, "linear_value_head_dim", 0),
                conv_kernel: get_usize(doc, model, "linear_conv_kernel_dim", 4),
            },
            moe,
        },
    )
}

pub open spec fn generation_not_json(text: Option<Seq<char>>) -> bool {
    text is Some && json_nodes(text->0) is None
}

pub open spec fn generation_nodes(text: Option<Seq<char>>) -> Option<Seq<NodeView>> {
    match text {
        Some(t) => json_nodes(t),
        None => None,
    }
}

fn parse_generation(text: Option<&str>) -> (g: GenerationDoc)
    ensures
        g is NotJson == generation_not_json(
            match text {
                Some(t) => Some(t@),
                None => None,
            },
        ),
        g.nodes() == generation_nodes(
            match text {
                Some(t) => Some(t@),
                None => None,
            },
        ),
{
    match text {
        None => GenerationDoc::Absent,
        Some(t) => match JsonDoc::parse(t) {
            None => GenerationDoc::NotJson,
            Some(d) => GenerationDoc::Found(d),
        },
    }
}

/// Reads a model's configuration from the text of its `config.json` and, where
/// there is one, its `generation_config.json`.
pub fn load_metal_config(text: &str, generation: Option<&str>) -> (r: Result<
    MetalModelConfig,
    ConfigError,
>)
    ensures
        match json_nodes(text@) {
            None => r == Err::<MetalModelConfig, ConfigError>(ConfigError::NotJson),
            Some(nodes) => match (
                r,
                config_of(
                    nodes,
                    generation_not_json(
                        match generation {
                            Some(t) => Some(t@),
                            None => None,
                        },
                    ),
                    generation_nodes(
                        match generation {
                            Some(t) => Some(t@),
                            None => None,
                        },
                    ),
                ),
            ) {
                (Ok(c), Ok(v)) => c@ == v,
                (Err(e), Err(f)) => e == f,
                _ => false,
            },
        },
{
    match JsonDoc::parse(text) {
        None => Err(ConfigError::NotJson),
        Some(doc) => metal_config_from_doc(&doc, &parse_generation(generation)),
    }
}

// ---- which model a directory holds ----

/// Whether a document describes a block-diffusion Gemma.
pub fn is_diffusion_gemma(doc: &JsonDoc) -> (r: bool)
    ensures
        r == (object_at(doc@, Some(0)) is Some && is_diffusion_gemma_spec(
            doc@,
            object_at(doc@, Some(0)),
            model_of(doc@, object_at(doc@, Some(0))),
        )),
{
    let root: Option<usize> = doc.object(doc.root());
    if root.is_none() {
        return false;
    }
    let model: Option<usize> = model_object(doc, root);
    is_diffusion_gemma_config(doc, root, model)
}

/// Whether a document describes an autoregressive Gemma4.
pub fn is_gemma4(doc: &JsonDoc) -> (r: bool)
    ensures
        r == (object_at(doc@, Some(0)) is Some && is_gemma4_spec(
            doc@,
            object_at(doc@, Some(0)),
            model_of(doc@, object_at(doc@, Some(0))),
        ) && !is_diffusion_gemma_spec(
            doc@,
            object_at(doc@, Some(0)),
            model_of(doc@, object_at(doc@, Some(0))),
        )),
{
    let root: Option<usize> = doc.object(doc.root());
    if root.is_none() {
        return false;
    }
    let model: Option<usize> = model_object(doc, root);
    is_gemma4_config(doc, root, model) && !is_diffusion_gemma_config(doc, root, model)
}

pub open spec fn is_deepseek_ocr_spec(nodes: Seq<NodeView>, root: Option<nat>) -> bool {
    model_type_is_spec(nodes, root, "deepseekocr"@) || architectures_contain_spec(
        nodes,
        root,
        "UnlimitedOCR"@,
    )
}

/// Whether a document describes a DeepSeek-OCR model.
pub fn is_deepseek_ocr(doc: &JsonDoc) -> (r: bool)
    ensures
        r == (object_at(doc@, Some(0)) is Some && is_deepseek_ocr_spec(
            doc@,
            object_at(doc@, Some(0)),
        )),
{
    let root: Option<usize> = doc.object(doc.root());
    if root.is_none() {
        return false;
    }
    model_type_is(doc, root, "deepseekocr") || architectures_contain(doc, root, "UnlimitedOCR")
}

/// Whether the text of a `config.json` describes a block-diffusion Gemma; a
/// text that is no JSON does not.
pub fn model_dir_is_diffusion_gemma(text: &str) -> (r: bool)
    ensures
        r == match json_nodes(text@) {
            None => false,
            Some(n) => object_at(n, Some(0)) is Some && is_diffusion_gemma_spec(
                n,
                object_at(n, Some(0)),
                model_of(n, object_at(n, Some(0))),
            ),
        },
{
    match JsonDoc::parse(text) {
        None => false,
        Some(doc) => is_diffusion_gemma(&doc),
    }
}

pub fn model_dir_is_gemma4(text: &str) -> (r: bool)
    ensures
        r == match json_nodes(text@) {
            None => false,
            Some(n) => object_at(n, Some(0)) is Some && is_gemma4_spec(
                n,
                object_at(n, Some(0)),
                model_of(n, object_at(n, Some(0))),
            ) && !is_diffusion_gemma_spec(
                n,
                object_at(n, Some(0)),
                model_of(n, object_at(n, Some(0))),
            ),
        },
{
    match JsonDoc::parse(text) {
        None => false,
        Some(doc) => is_gemma4(&doc),
    }
}

pub fn model_dir_is_deepseek_ocr(text: &str) -> (r: bool)
    ensures
        r == match json_nodes(text@) {
            None => false,
            Some(n) => object_at(n, Some(0)) is Some && is_deepseek_ocr_spec(
                n,
                object_at(n, Some(0)),
            ),
        },
{
    match JsonDoc::parse(text) {
        None => false,
        Some(doc) => is_deepseek_ocr(&doc),
    }
}

// ---- generation settings ----

/// Settings of an autoregressive run: one position per step.
#[derive(Debug)]
pub struct GenerationSettings {
    pub max_new_tokens: usize,
    pub vocab_size: u32,
    pub canvas_length: usize,
    pub max_denoising_steps: usize,
    pub pad_token_id: u32,
    pub stop_token_ids: Vec<u32>,
}

#[verifier::ext_equal]
pub struct GenerationView {
    pub max_new_tokens: usize,
    pub vocab_size: u32,
    pub canvas_length: usize,
    pub max_denoising_steps: usize,
    pub pad_token_id: u32,
    pub stop_token_ids: Seq<u32>,
}

impl View for GenerationSettings {
    type V = GenerationView;

    open spec fn view(&self) -> GenerationView {
        GenerationView {
            max_new_tokens: self.max_new_tokens,
            vocab_size: self.vocab_size,
            canvas_length: self.canvas_length,
            max_denoising_steps: self.max_denoising_steps,
            pad_token_id: self.pad_token_id,
            stop_token_ids: self.stop_token_ids@,
        }
    }
}

/// Settings for a vocabulary, with `default_tokens` where none are said.
pub open spec fn generation_of(
    nodes: Seq<NodeView>,
    root: Option<nat>,
    model: Option<nat>,
    generation_not_json: bool,
    generation: Option<Seq<NodeView>>,
    vocab_size: usize,
    default_tokens: usize,
) -> Result<GenerationView, ConfigError> {
    if vocab_size > u32::MAX {
        Err(ConfigError::VocabTooLarge { vocab_size })
    } else if generation_not_json {
        Err(ConfigError::GenerationNotJson)
    } else {
        Ok(
            GenerationView {
                max_new_tokens: match generation {
                    Some(g) => usize_at(g, Some(0), "max_new_tokens"@, default_tokens),
                    None => default_tokens,
                },
                vocab_size: vocab_size as u32,
                canvas_length: 1,
                max_denoising_steps: 1,
                pad_token_id: match generation {
                    Some(g) => match u64_at(g, field(g, Some(0), "pad_token_id"@)) {
                        Some(n) => n as u32,
                        None => 0,
                    },
                    None => 0,
                },
                stop_token_ids: stop_ids(nodes, root, model, generation),
            },
        )
    }
}

fn read_generation(
    doc: &JsonDoc,
    root: Option<usize>,
    model: Option<usize>,
    generation: &GenerationDoc,
    vocab_size: usize,
    default_tokens: usize,
) -> (r: Result<GenerationSettings, ConfigError>)
    ensures
        match (
            r,
            generation_of(
                doc@,
                place(root),
                place(model),
                *generation is NotJson,
                generation.nodes(),
                vocab_size,
                default_tokens,
            ),
        ) {
            (Ok(c), Ok(v)) => c@ == v,
            (Err(e), Err(f)) => e == f,
            _ => false,
        },
{
    if vocab_size as u64 > 0xffff_ffffu64 {
        return Err(ConfigError::VocabTooLarge { vocab_size });
    }
    let stop_token_ids: Vec<u32> = match resolve_stop_token_ids(doc, root, model, generation) {
        Err(e) => {
            return Err(e);
        },
        Ok(v) => v,
    };
    let (max_new_tokens, pad_token_id) = match generation {
        GenerationDoc::Found(g) => (
            get_usize(g, Some(0), "max_new_tokens", default_tokens),
            match g.as_u64(g.field(Some(0), "pad_token_id")) {
                Some(n) => #[verifier::truncate]
                (n as u32),
                None => 0u32,
            },
        ),
        _ => (default_tokens, 0u32),
    };
    Ok(
        GenerationSettings {
            max_new_tokens,
            vocab_size: vocab_size as u32,
            canvas_length: 1,
            max_denoising_steps: 1,
            pad_token_id,
            stop_token_ids,
        },
    )
}

/// Stop ids of a block-diffusion run: what is present first, the model's
/// defaults where that is nothing.
pub open spec fn diffusion_stops(generation: Option<Vec<u32>>, config: Option<Vec<u32>>) -> Seq<
    u32,
> {
    let found = match generation {
        Some(g) => g@,
        None => match config {
            Some(c) => c@,
            None => Seq::empty(),
        },
    };
    if found.len() > 0 {
        found
    } else {
        seq![1u32, 106u32, 50u32]
    }
}

pub fn diffusion_stop_ids(generation: Option<Vec<u32>>, config: Option<Vec<u32>>) -> (ids: Vec<u32>)
    ensures
        ids@ == diffusion_stops(generation, config),
        ids@.len() >= 1,
{
    let found: Vec<u32> = match generation {
        Some(g) => g,
        None => match config {
            Some(c) => c,
            None => Vec::new(),
        },
    };
    if found.len() > 0 {
        return found;
    }
    let ids: Vec<u32> = vec![1u32, 106u32, 50u32];
    assert(ids@ =~= seq![1u32, 106u32, 50u32]);
    ids
}

/// What a block-diffusion checkpoint says of its runs.
#[derive(Debug)]
pub struct DiffusionFacts {
    pub vocab_size: usize,
    pub canvas_length: usize,
    pub max_new_tokens: Option<usize>,
    pub max_denoising_steps: Option<usize>,
    pub pad_token_id: Option<u32>,
    /// Stop ids of the generation settings, then of the model.
    pub generation_eos: Option<Vec<u32>>,
    pub eos: Option<Vec<u32>>,
}

/// What holds where a checkpoint is silent.
#[derive(Debug, Clone, Copy, PartialEq, Eq, Structural)]
pub struct DiffusionDefaults {
    pub max_denoising_steps: usize,
    pub pad_token_id: u32,
}

pub open spec fn said_or<T>(said: Option<T>, default: T) -> T {
    match said {
        Some(v) => v,
        None => default,
    }
}

/// Settings of a block-diffusion run: one canvas of new tokens unless more are
/// said.
pub fn diffusion_generation_from_config(facts: DiffusionFacts, defaults: &DiffusionDefaults) -> (r:
    Result<GenerationSettings, ConfigError>)
    ensures
        facts.vocab_size > u32::MAX ==> r is Err && r->Err_0 == (ConfigError::VocabTooLarge {
            vocab_size: facts.vocab_size,
        }),
        facts.vocab_size <= u32::MAX ==> r is Ok && r->Ok_0@ == (GenerationView {
            max_new_tokens: said_or(facts.max_new_tokens, facts.canvas_length),
            vocab_size: facts.vocab_size as u32,
            canvas_length: facts.canvas_length,
            max_denoising_steps: said_or(facts.max_denoising_steps, defaults.max_denoising_steps),
            pad_token_id: said_or(facts.pad_token_id, defaults.pad_token_id),
            stop_token_ids: diffusion_stops(facts.generation_eos, facts.eos),
        }),
{
    if facts.vocab_size as u64 > 0xffff_ffffu64 {
        return Err(ConfigError::VocabTooLarge { vocab_size: facts.vocab_size });
    }
    Ok(
        GenerationSettings {
            max_new_tokens: match facts.max_new_tokens {
                Some(n) => n,
                None => facts.canvas_length,
            },
            vocab_size: facts.vocab_size as u32,
            canvas_length: facts.canvas_length,
            max_denoising_steps: match facts.max_denoising_steps {
                Some(n) => n,
                None => defaults.max_denoising_steps,
            },
            pad_token_id: match facts.pad_token_id {
                Some(n) => n,
                None => defaults.pad_token_id,
            },
            stop_token_ids: diffusion_stop_ids(facts.generation_eos, facts.eos),
        },
    )
}

// ---- Gemma4 ----

#[derive(Debug, Clone, Copy, PartialEq, Eq, Structural)]
pub struct MetalGemma4VisionConfig {
    pub hidden_size: usize,
    pub intermediate_size: usize,
    pub num_hidden_layers: usize,
    pub num_attention_heads: usize,
    pub num_key_value_heads: usize,
    pub head_dim: usize,
    pub patch_size: usize,
    pub pooling_kernel_size: usize,
    pub default_output_length: usize,
    pub position_embedding_size: usize,
    pub rope_theta_bits: Option<u64>,
    pub rms_norm_eps_bits: Option<u64>,
    pub use_clipped_linears: bool,
}

/// What a document says of the vision tower, nothing where it has none.
pub open spec fn vision_of(nodes: Seq<NodeView>, root: Option<nat>, soft: Option<usize>) -> Result<
    Option<MetalGemma4VisionConfig>,
    ConfigError,
> {
    let v = object_at(nodes, field(nodes, root, "vision_config"@));
    let hidden = usize_at(nodes, v, "hidden_size"@, 768);
    let heads = usize_at(nodes, v, "num_attention_heads"@, 12);
    if v is None {
        Ok(None)
    } else if heads == 0 {
        Err(ConfigError::NoVisionHeads)
    } else if hidden * 4 > usize::MAX {
        Err(ConfigError::VisionTooWide { hidden_size: hidden })
    } else {
        Ok(
            Some(
                MetalGemma4VisionConfig {
                    hidden_size: hidden,
                    intermediate_size: usize_at(
                        nodes,
                        v,
                        "intermediate_size"@,
                        (hidden * 4) as usize,
                    ),
                    num_hidden_layers: usize_at(nodes, v, "num_hidden_layers"@, 0),
                    num_attention_heads: heads,
                    num_key_value_heads: usize_at(nodes, v, "num_key_value_heads"@, heads),
                    head_dim: usize_at(
                        nodes,
                        v,
                        "head_dim"@,
                        (hidden as int / heads as int) as usize,
                    ),
                    patch_size: usize_at(nodes, v, "patch_size"@, 16),
                    pooling_kernel_size: usize_at(nodes, v, "pooling_kernel_size"@, 3),
                    default_output_length: usize_at(
                        nodes,
                        v,
                        "default_output_length"@,
                        match soft {
                            Some(n) => n,
                            None => 280,
                        },
                    ),
                    position_embedding_size: usize_at(
                        nodes,
                        v,
                        "position_embedding_size"@,
                        10240,
                    ),
                    rope_theta_bits: bits_at(
                        nodes,
                        field(nodes, field(nodes, v, "rope_parameters"@), "rope_theta"@),
                    ),
                    rms_norm_eps_bits: bits_at(nodes, field(nodes, v, "rms_norm_eps"@)),
                    use_clipped_linears: bool_at(nodes, field(nodes, v, "use_clipped_linears"@))
                        == Some(true),
                },
            ),
        )
    }
}

pub fn gemma4_vision_config_from_root(doc: &JsonDoc, root: Option<usize>, soft: Option<usize>) -> (r:
    Result<Option<MetalGemma4VisionConfig>, ConfigError>)
    ensures
        r == vision_of(doc@, place(root), soft),
{
    let v: Option<usize> = doc.object(doc.field(root, "vision_config"));
    if v.is_none() {
        return Ok(None);
    }
    let hidden_size: usize = get_usize(doc, v, "hidden_size", 768);
    let heads: usize = get_usize(doc, v, "num_attention_heads", 12);
    if heads == 0 {
        return Err(ConfigError::NoVisionHeads);
    }
    let wide: usize = match hidden_size.checked_mul(4) {
        Some(w) => w,
        None => {
            return Err(ConfigError::VisionTooWide { hidden_size });
        },
    };
    let soft_default: usize = match soft {
        Some(n) => n,
        None => 280,
    };
    Ok(
        Some(
            MetalGemma4VisionConfig {
                hidden_size,
                intermediate_size: get_usize(doc, v, "intermediate_size", wide),
                num_hidden_layers: get_usize(doc, v, "num_hidden_layers", 0),
                num_attention_heads: heads,
                num_key_value_heads: get_usize(doc, v, "num_key_value_heads", heads),
                head_dim: get_usize(doc, v, "head_dim", hidden_size / heads),
                patch_size: get_usize(doc, v, "patch_size", 16),
                pooling_kernel_size: get_usize(doc, v, "pooling_kernel_size", 3),
                default_output_length: get_usize(doc, v, "default_output_length", soft_default),
                position_embedding_size: get_usize(doc, v, "position_embedding_size", 10240),
                rope_theta_bits: doc.as_float_bits(
                    doc.field(doc.field(v, "rope_parameters"), "rope_theta"),
                ),
                rms_norm_eps_bits: doc.as_float_bits(doc.field(v, "rms_norm_eps")),
                use_clipped_linears: match doc.as_bool(doc.field(v, "use_clipped_linears")) {
                    Some(b) => b,
                    None => false,
                },
            },
        ),
    )
}

/// What the backend takes from a Gemma4 checkpoint beside its text model.
#[derive(Debug)]
pub struct MetalGemma4Config {
    pub generation: GenerationSettings,
    pub image_token_id: Option<u32>,
    pub vision_soft_tokens_per_image: Option<usize>,
    pub vision: Option<MetalGemma4VisionConfig>,
}

#[verifier::ext_equal]
pub struct Gemma4View {
    pub generation: GenerationView,
    pub image_token_id: Option<u32>,
    pub vision_soft_tokens_per_image: Option<usize>,
    pub vision: Option<MetalGemma4VisionConfig>,
}

impl View for MetalGemma4Config {
    type V = Gemma4View;

    open spec fn view(&self) -> Gemma4View {
        Gemma4View {
            generation: self.generation@,
            image_token_id: self.image_token_id,
            vision_soft_tokens_per_image: self.vision_soft_tokens_per_image,
            vision: self.vision,
        }
    }
}

pub open spec fn soft_tokens(nodes: Seq<NodeView>, root: Option<nat>) -> Option<usize> {
    match u64_at(nodes, field(nodes, root, "vision_soft_tokens_per_image"@)) {
        Some(n) => Some(n as usize),
        None => None,
    }
}

pub open spec fn gemma4_of(
    nodes: Seq<NodeView>,
    generation_not_json: bool,
    generation: Option<Seq<NodeView>>,
    vocab_size: usize,
) -> Result<Gemma4View, ConfigError> {
    let root = object_at(nodes, Some(0));
    let model = model_of(nodes, root);
    if root is None {
        Err(ConfigError::NotObject)
    } else if !is_gemma4_spec(nodes, root, model) || is_diffusion_gemma_spec(nodes, root, model) {
        Err(ConfigError::NotGemma4)
    } else {
        match generation_of(
            nodes,
            root,
            model,
            generation_not_json,
            generation,
            vocab_size,
            512,
        ) {
            Err(e) => Err(e),
            Ok(g) => match vision_of(nodes, root, soft_tokens(nodes, root)) {
                Err(e) => Err(e),
                Ok(vision) => Ok(
                    Gemma4View {
                        generation: g,
                        image_token_id: match u64_at(nodes, field(nodes, root, "image_token_id"@)) {
                            Some(n) => Some(n as u32),
                            None => None,
                        },
                        vision_soft_tokens_per_image: soft_tokens(nodes, root),
                        vision,
                    },
                ),
            },
        }
    }
}

pub fn gemma4_config_from_doc(doc: &JsonDoc, generation: &GenerationDoc, vocab_size: usize) -> (r:
    Result<MetalGemma4Config, ConfigError>)
    ensures
        match (r, gemma4_of(doc@, *generation is NotJson, generation.nodes(), vocab_size)) {
            (Ok(c), Ok(v)) => c@ == v,
            (Err(e), Err(f)) => e == f,
            _ => false,
        },
{
    let root: Option<usize> = doc.object(doc.root());
    if root.is_none() {
        return Err(ConfigError::NotObject);
    }
    let model: Option<usize> = model_object(doc, root);
    if !is_gemma4_config(doc, root, model) || is_diffusion_gemma_config(doc, root, model) {
        return Err(ConfigError::NotGemma4);
    }
    let settings: GenerationSettings = match read_generation(
        doc,
        root,
        model,
        generation,
        vocab_size,
        512,
    ) {
        Err(e) => {
            return Err(e);
        },
        Ok(g) => g,
    };
    let image_token_id: Option<u32> = match doc.as_u64(doc.field(root, "image_token_id")) {
        Some(n) => Some(
            #[verifier::truncate]
            (n as u32),
        ),
        None => None,
    };
    let soft: Option<usize> = match doc.as_u64(doc.field(root, "vision_soft_tokens_per_image")) {
        Some(n) => Some(
            #[verifier::truncate]
            (n as usize),
        ),
        None => None,
    };
    match gemma4_vision_config_from_root(doc, root, soft) {
        Err(e) => Err(e),
        Ok(vision) => Ok(
            MetalGemma4Config {
                generation: settings,
                image_token_id,
                vision_soft_tokens_per_image: soft,
                vision,
            },
        ),
    }
}

/// Reads a Gemma4 checkpoint's settings. `vocab_size` is that of its text
/// model.
pub fn load_gemma4_config(text: &str, generation: Option<&str>, vocab_size: usize) -> (r: Result<
    MetalGemma4Config,
    ConfigError,
>)
    ensures
        match json_nodes(text@) {
            None => r == Err::<MetalGemma4Config, ConfigError>(ConfigError::NotJson),
            Some(nodes) => match (
                r,
                gemma4_of(
                    nodes,
                    generation_not_json(
                        match generation {
                            Some(t) => Some(t@),
                            None => None,
                        },
                    ),
                    generation_nodes(
                        match generation {
                            Some(t) => Some(t@),
                            None => None,
                        },
                    ),
                    vocab_size,
                ),
            ) {
                (Ok(c), Ok(v)) => c@ == v,
                (Err(e), Err(f)) => e == f,
                _ => false,
            },
        },
{
    match JsonDoc::parse(text) {
        None => Err(ConfigError::NotJson),
        Some(doc) => gemma4_config_from_doc(&doc, &parse_generation(generation), vocab_size),
    }
}

// ---- DeepSeek-OCR ----

/// The id of the first key, among the first `n`, whose entry is the image
/// placeholder and which reads as an id.
pub open spec fn image_id_of(nodes: Seq<NodeView>, table: nat, keys: Seq<Seq<char>>, n: nat) -> Option<
    u32,
>
    decreases n,
{
    if n == 0 {
        None
    } else {
        match image_id_of(nodes, table, keys, (n - 1) as nat) {
            Some(id) => Some(id),
            None => {
                let entry = field(nodes, Some(table), keys[n - 1]);
                if text_at(nodes, field(nodes, entry, "content"@)) == Some("<image>"@) {
                    match parsed_number(keys[n - 1], u32::MAX as nat) {
                        Some(id) => Some(id as u32),
                        None => None,
                    }
                } else {
                    None
                }
            },
        }
    }
}

/// The image placeholder's id: as the added tokens say, else 128815.
pub open spec fn image_token_of(nodes: Seq<NodeView>) -> u32 {
    match object_at(nodes, field(nodes, Some(0), "added_tokens_decoder"@)) {
        None => 128815,
        Some(t) => {
            let keys = nodes[t as int]->Object_0;
            match image_id_of(nodes, t, keys, keys.len()) {
                Some(id) => id,
                None => 128815,
            }
        },
    }
}

proof fn lemma_image_id_stop(
    nodes: Seq<NodeView>,
    table: nat,
    keys: Seq<Seq<char>>,
    k: nat,
    n: nat,
)
    requires
        k <= n,
        image_id_of(nodes, table, keys, k) is Some,
    ensures
        image_id_of(nodes, table, keys, n) == image_id_of(nodes, table, keys, k),
    decreases n,
{
    if k < n {
        lemma_image_id_stop(nodes, table, keys, k, (n - 1) as nat);
    }
}

pub fn resolve_image_token_id(doc: &JsonDoc) -> (id: u32)
    ensures
        id == image_token_of(doc@),
{
    let table: Option<usize> = doc.object(doc.field(doc.root(), "added_tokens_decoder"));
    let t: usize = match table {
        None => {
            return 128815;
        },
        Some(t) => t,
    };
    if t >= doc.nodes.len() {
        assert(false);
        return 128815;
    }
    assert(doc@[t as int] == doc.nodes@[t as int]@);
    match &doc.nodes[t] {
        JsonNode::Object(keys) => {
            let ghost names = texts(keys@);
            let mut k: usize = 0;
            while k < keys.len()
                invariant
                    k <= keys@.len(),
                    names == texts(keys@),
                    table == Some(t),
                    object_at(doc@, field(doc@, Some(0), "added_tokens_decoder"@)) == Some(
                        t as nat,
                    ),
                    doc@[t as int] == NodeView::Object(names),
                    image_id_of(doc@, t as nat, names, k as nat) is None,
                decreases keys@.len() - k,
            {
                assert(names[k as int] == keys@[k as int]@);
                let entry: Option<usize> = doc.field(table, keys[k].as_str());
                let is_image: bool = match doc.as_text(doc.field(entry, "content")) {
                    Some(c) => same_text(c, "<image>"),
                    None => false,
                };
                if is_image {
                    let key: Vec<char> = to_chars(keys[k].as_str());
                    match parse_number(key.as_slice(), 0xffff_ffff) {
                        Some(id) => {
                            proof {
                                lemma_image_id_stop(
                                    doc@,
                                    t as nat,
                                    names,
                                    (k + 1) as nat,
                                    names.len(),
                                );
                            }
                            return id as u32;
                        },
                        None => {},
                    }
                }
                k = k + 1;
            }
            128815
        },
        _ => 128815,
    }
}

/// What the backend takes from a DeepSeek-OCR checkpoint beside its spec.
#[derive(Debug)]
pub struct MetalDeepseekOcrConfig {
    pub generation: GenerationSettings,
    pub image_token_id: u32,
}

/// What is asked of the parsed spec.
#[derive(Debug, Clone, Copy, PartialEq, Eq, Structural)]
pub struct OcrSpecFacts {
    pub mxfp8: bool,
    pub tile_2d: bool,
    pub vocab_size: usize,
}

pub open spec fn ocr_fault(nodes: Seq<NodeView>, facts: OcrSpecFacts) -> Option<ConfigError> {
    if object_at(nodes, Some(0)) is None {
        Some(ConfigError::NotObject)
    } else if !is_deepseek_ocr_spec(nodes, object_at(nodes, Some(0))) {
        Some(ConfigError::NotDeepseekOcr)
    } else if !facts.mxfp8 {
        Some(ConfigError::NotMxfp8)
    } else if !facts.tile_2d {
        Some(ConfigError::NotTile2d)
    } else {
        None
    }
}

/// Reads a DeepSeek-OCR checkpoint's settings from its `config.json`, its
/// `tokenizer_config.json` and, where there is one, its
/// `generation_config.json`.
pub fn load_deepseek_ocr_config(
    text: &str,
    tokenizer: &str,
    generation: Option<&str>,
    facts: &OcrSpecFacts,
) -> (r: Result<MetalDeepseekOcrConfig, ConfigError>)
    ensures
        match json_nodes(text@) {
            None => r == Err::<MetalDeepseekOcrConfig, ConfigError>(ConfigError::NotJson),
            Some(nodes) => match ocr_fault(nodes, *facts) {
                Some(e) => r == Err::<MetalDeepseekOcrConfig, ConfigError>(e),
                None => match json_nodes(tokenizer@) {
                    None => r == Err::<MetalDeepseekOcrConfig, ConfigError>(
                        ConfigError::TokenizerNotJson,
                    ),
                    Some(tok) => match (
                        r,
                        generation_of(
                            nodes,
                            Some(0),
                            Some(0),
                            generation_not_json(
                                match generation {
                                    Some(t) => Some(t@),
                                    None => None,
                                },
                            ),
                            generation_nodes(
                                match generation {
                                    Some(t) => Some(t@),
                                    None => None,
                                },
                            ),
                            facts.vocab_size,
                            8192,
                        ),
                    ) {
                        (Ok(c), Ok(g)) => c.generation@ == g && c.image_token_id
                            == image_token_of(tok),
                        (Err(e), Err(f)) => e == f,
                        _ => false,
                    },
                },
            },
        },
{
    let doc: JsonDoc = match JsonDoc::parse(text) {
        None => {
            return Err(ConfigError::NotJson);
        },
        Some(d) => d,
    };
    let root: Option<usize> = doc.object(doc.root());
    if root.is_none() {
        return Err(ConfigError::NotObject);
    }
    if !is_deepseek_ocr(&doc) {
        return Err(ConfigError::NotDeepseekOcr);
    }
    if !facts.mxfp8 {
        return Err(ConfigError::NotMxfp8);
    }
    if !facts.tile_2d {
        return Err(ConfigError::NotTile2d);
    }
    let image_token_id: u32 = match JsonDoc::parse(tokenizer) {
        None => {
            return Err(ConfigError::TokenizerNotJson);
        },
        Some(t) => resolve_image_token_id(&t),
    };
    match read_generation(
        &doc,
        root,
        root,
        &parse_generation(generation),
        facts.vocab_size,
        8192,
    ) {
        Err(e) => Err(e),
        Ok(g) => Ok(MetalDeepseekOcrConfig { generation: g, image_token_id }),
    }
}

} // verus!
