use agent_infer::metal::config::{load_metal_config, MetalModelConfig};
use agent_infer::metal::deepseek_ocr::{CppDeepseekOcrBuilder, OcrTextFacts, OcrVisionFacts};
use agent_infer::metal::dflash::{
    load_dflash_eagle, load_qwen35_mtp, DFlashDraftConfig, DraftKind, ModelDims, RawDraftConfig,
    RawMtpConfig,
};
use agent_infer::metal::diffusion_gemma::{
    causal_args, check_canvas, clamp_rotary, diffusion_args, diffusion_output, finalize_output,
    generate_multimodal, i32_tokens, CppDiffusionGemmaBuilder, ExpertFacts, FinishReason,
    GemmaLayerFacts, GemmaTextFacts, GenerateError, GenerateReply, ImageFacts,
};
use agent_infer::metal::draft::{
    draft_head_has_pre_fc_norm, draft_kind, header_range, raw_quant, DFlashDraftCppModel,
    DFlashDraftWeights, RawDraftQuantConfig,
};
use agent_infer::metal::gemma4::CppGemma4Builder;
use agent_infer::metal::lfm2::{
    capture_layers, drain_captured, find_expert_store, load_lfm2_metal_weights, CppLfm2Model,
    ExpertStore, Lfm2Facts, Lfm2LayerFacts, Lfm2LayerKind, Lfm2LoadError, Lfm2MoeFacts,
};
use agent_infer::metal::loader::{
    load_embed_tokens_from_tensors, load_proj_from_tensors, load_quantized_with_bits,
    load_stacked_quantized, load_tensor_map, part_name, shards_of_index, shards_of_listing,
    LoadError, NamedTensor, ProjPlan, ShardIndex, TensorMap,
};
use agent_infer::metal::mlx::Dtype;
use agent_infer::metal::qwen35::{
    detect_prefix, load_lm_head, load_qwen35_metal_weights, step_session_paged_bf16,
    step_session_paged_int8, use_qwen35_cpp_separate_proj, CppQwen35Model, Qwen35LoadError,
    StepError,
};
use agent_infer::metal::register::{
    check_program, check_request, check_requests, indexed_name, load_conv_weight, ConvTurn, Request, RuntimeCall,
    Stage,
};
use agent_infer::metal::weights::{
    concat_weight_rows, merge_quantized_projection_rows, ArrayInfo, RowConcat, WeightError,
    WeightTensor,
};

type Infos = TensorMap<ArrayInfo>;

fn info(shape: &[i32], dtype: Dtype) -> ArrayInfo {
    ArrayInfo { shape: shape.to_vec(), dtype }
}

fn put(map: &mut Infos, name: &str, shape: &[i32]) {
    map.insert(name.to_string(), info(shape, Dtype::Bfloat16));
}

/// Adds what a request needs, dense wherever it may be.
fn meet(map: &mut Infos, r: &Request) {
    match r {
        Request::Dense(name)
        | Request::Norm { name, .. }
        | Request::As { name, .. }
        | Request::Transposed(name) => put(map, name, &[4]),
        Request::Embed(base) | Request::Proj(base) | Request::DenseProj(base) => {
            put(map, &part_name(base, ".weight"), &[4, 4]);
        }
        Request::Mxfp8 { base, .. } => {
            put(map, &part_name(base, ".weight"), &[4, 4]);
            put(map, &part_name(base, ".scales"), &[4, 4]);
        }
        Request::Packed { base, .. } => {
            for part in [".weight", ".scales", ".biases"] {
                put(map, &part_name(base, part), &[4, 4]);
            }
        }
        Request::Stack(base) | Request::PackedStack { base, .. } => {
            for part in [".weight", ".scales", ".biases"] {
                put(map, &part_name(base, part), &[2, 4, 4]);
            }
        }
        Request::Conv { name, channels, kernel } => {
            put(map, name, &[channels.unwrap_or(4), *kernel, 1]);
        }
        Request::Experts { base, suffix, count } => {
            for i in 0..*count {
                put(map, &part_name(&indexed_name(base, i), suffix), &[4, 4]);
            }
        }
        Request::Join { first, second } => {
            put(map, &part_name(first, ".weight"), &[4, 4]);
            put(map, &part_name(second, ".weight"), &[4, 4]);
        }
        Request::Tied(_) | Request::Rows(_) | Request::Zero(_) | Request::Absent(_) => {}
    }
}

fn met(program: &[Stage]) -> Infos {
    let mut map = TensorMap::new();
    for s in program {
        s.adds.iter().chain(&s.arrays).for_each(|r| meet(&mut map, r));
    }
    map
}

fn calls(program: &[Stage]) -> Vec<RuntimeCall> {
    program.iter().map(|s| s.call).collect()
}

fn gemma(experts: bool) -> GemmaTextFacts {
    GemmaTextFacts {
        hidden_size: 64,
        vocab_size: 100,
        num_attention_heads: 4,
        sliding_window: 512,
        layers: vec![
            GemmaLayerFacts {
                is_full: false,
                head_dim: 16,
                kv_heads: 2,
                rotary_dim: 8,
                kv_shared: None,
            },
            GemmaLayerFacts {
                is_full: true,
                head_dim: 32,
                kv_heads: 1,
                rotary_dim: 16,
                kv_shared: Some(0),
            },
        ],
        experts: if experts {
            Some(ExpertFacts { num_experts: Some(8), top_k: Some(2) })
        } else {
            None
        },
        per_layer: None,
    }
}

#[test]
fn diffusion_layers_are_wired_slot_by_slot() {
    let text = gemma(true);
    let b = CppDiffusionGemmaBuilder::populate(&text, &TensorMap::new());
    let layer = b.program.iter().find(|s| s.call == RuntimeCall::PushLayer).unwrap();
    assert_eq!(layer.numbers, vec![-1, 4, 2, 16, 8, 512, 8, 2]);
    assert_eq!(layer.flags, vec![false]);
    assert_eq!(layer.slots.len(), 22);
    let scalar = layer.slots.last().unwrap().unwrap();
    assert!(matches!(&layer.adds[scalar], Request::Dense(n) if n.ends_with(".layer_scalar")));
    let router = layer.slots[16].unwrap();
    assert!(matches!(&layer.adds[router], Request::Proj(n) if n.ends_with(".router.proj")));
}

#[test]
fn a_missing_weight_stops_a_program_where_it_is_due() {
    let text = gemma(false);
    let b = CppGemma4Builder::populate(&text, None, None);
    let mut map = met(&b.program);
    assert!(check_program(&map, None, &b.program).is_none());
    let at = b.program.iter().position(|s| s.call == RuntimeCall::PushLayer).unwrap();
    map = TensorMap::new();
    for (i, s) in b.program.iter().enumerate() {
        for (k, r) in s.adds.iter().enumerate() {
            if !(i == at && k == 2) {
                meet(&mut map, r);
            }
        }
    }
    let f = check_program(&map, None, &b.program).unwrap();
    assert_eq!((f.stage, f.fault.index), (at, 2));
    assert_eq!(f.fault.error, LoadError::MissingWeight);
    let empty = TensorMap::new();
    assert!(check_program(&empty, None, &b.program).unwrap().stage < at);
}

#[test]
fn gemma_programs_open_before_their_layers() {
    let b = CppGemma4Builder::populate(&gemma(false), None, None);
    let order = calls(&b.program);
    assert_eq!(order[0], RuntimeCall::SetConfig);
    assert_eq!(order.iter().filter(|c| **c == RuntimeCall::PushLayer).count(), 2);
    let b = CppDiffusionGemmaBuilder::populate(&gemma(false), &TensorMap::new());
    assert_eq!(calls(&b.program)[0], RuntimeCall::SetConfig);
}

#[test]
fn ocr_programs_are_complete() {
    let t = OcrTextFacts {
        hidden_size: 64,
        vocab_size: 10,
        num_attention_heads: 4,
        num_key_value_heads: 4,
        head_dim: 16,
        v_head_dim: 16,
        n_routed_experts: 4,
        num_experts_per_tok: 2,
        moe_layers: vec![false, true],
        group_size: 32,
        bits: 8,
    };
    let v = OcrVisionFacts {
        hidden_size: 32,
        intermediate_size: 64,
        num_hidden_layers: 2,
        num_attention_heads: 2,
        patch_size: 14,
        sam_width: 16,
        sam_layers: 3,
        sam_heads: 2,
        sam_patch_size: 16,
        sam_window_size: 14,
        sam_image_size: 1024,
        sam_global_attn_indexes: vec![2],
        projector_input_dim: 64,
        projector_n_embed: 64,
    };
    let b = CppDeepseekOcrBuilder::populate(&t, &v, 77);
    let order = calls(&b.program);
    let count = |c: RuntimeCall| order.iter().filter(|x| **x == c).count();
    assert_eq!(count(RuntimeCall::PushLayer), 2);
    assert_eq!(count(RuntimeCall::PushSamBlock), 3);
    assert_eq!(count(RuntimeCall::PushClipLayer), 2);
    assert_eq!(count(RuntimeCall::SetProjector), 1);
    assert!(check_program(&met(&b.program), None, &b.program).is_none());
    let shared: Vec<&Request> = b
        .program
        .iter()
        .flat_map(|s| &s.adds)
        .filter(|r| matches!(r, Request::Mxfp8 { .. }))
        .collect();
    assert_eq!(shared.len(), 3 + 4 + 3 + 4 + 6);
    assert!(shared.iter().all(|r| matches!(r, Request::Mxfp8 { group_size: 32, bits: 8, .. })));
}

fn qwen(moe: &str) -> MetalModelConfig {
    let text = format!(
        r#"{{"hidden_size": 64, "num_attention_heads": 4, "num_key_value_heads": 2,
            "layer_types": ["linear_attention", "full_attention"],
            "linear_num_key_heads": 1, "linear_key_head_dim": 4, "linear_num_value_heads": 1,
            "linear_value_head_dim": 4{moe}}}"#
    );
    load_metal_config(&text, None).unwrap()
}

#[test]
fn qwen_weights_and_program_agree() {
    let c = qwen("");
    let mut map: Infos = TensorMap::new();
    assert_eq!(detect_prefix(&map), None);
    assert!(matches!(load_qwen35_metal_weights(&c, &map, false), Err(Qwen35LoadError::Prefix)));
    put(&mut map, "model.embed_tokens.weight", &[10, 64]);
    assert_eq!(detect_prefix(&map), None);
    put(&mut map, "model.norm.weight", &[64]);
    let prefix = detect_prefix(&map).unwrap();
    assert_eq!(prefix, "model");
    assert!(matches!(load_qwen35_metal_weights(&c, &map, true), Err(Qwen35LoadError::Weight(_))));
    assert_eq!(load_lm_head(&map, prefix), None);
    put(&mut map, "lm_head.weight", &[10, 64]);
    assert_eq!(load_lm_head(&map, prefix).as_deref(), Some("lm_head"));
    let b = CppQwen35Model::build(&c, &map, prefix, 16, false, false);
    let order = calls(&b.program);
    assert!(order.contains(&RuntimeCall::PushLinearAttn) && order.contains(&RuntimeCall::PushFullAttn));
    assert!(!order.contains(&RuntimeCall::SetSeparateProj));
    let split = CppQwen35Model::build(&c, &map, prefix, 16, true, false);
    assert!(calls(&split.program).contains(&RuntimeCall::SetSeparateProj));
    let mut full = met(&split.program);
    put(&mut full, "model.embed_tokens.weight", &[10, 64]);
    put(&mut full, "model.norm.weight", &[64]);
    load_qwen35_metal_weights(&c, &full, false).unwrap();
}

/// The norms among some requests, by name, with whether one is added.
fn norms(requests: &[Request]) -> Vec<(&str, bool)> {
    requests
        .iter()
        .filter_map(|r| match r {
            Request::Norm { name, offset } => Some((name.as_str(), *offset)),
            _ => None,
        })
        .collect()
}

fn dense(requests: &[Request], wanted: &str) -> bool {
    requests.iter().any(|r| matches!(r, Request::Dense(name) if name == wanted))
}

#[test]
fn qwen_norms_are_corrected_but_the_linear_ones() {
    let c = qwen("");
    let mut map: Infos = TensorMap::new();
    put(&mut map, "model.embed_tokens.weight", &[10, 64]);
    put(&mut map, "model.norm.weight", &[64]);
    let mut full = met(&CppQwen35Model::build(&c, &map, "model", 16, true, false).program);
    put(&mut full, "model.embed_tokens.weight", &[10, 64]);
    for offset in [false, true] {
        let loads = load_qwen35_metal_weights(&c, &full, offset).unwrap();
        assert_eq!(
            norms(&loads),
            vec![
                ("model.norm.weight", offset),
                ("model.layers.0.input_layernorm.weight", offset),
                ("model.layers.0.post_attention_layernorm.weight", offset),
                ("model.layers.1.self_attn.q_norm.weight", offset),
                ("model.layers.1.self_attn.k_norm.weight", offset),
                ("model.layers.1.input_layernorm.weight", offset),
                ("model.layers.1.post_attention_layernorm.weight", offset),
            ]
        );
        assert!(dense(&loads, "model.layers.0.input_layernorm.weight"), "the sample is raw");
        assert!(dense(&loads, "model.layers.0.linear_attn.norm.weight"));
        assert!(dense(&loads, "model.layers.0.linear_attn.dt_bias"));
        let b = CppQwen35Model::build(&c, &full, "model", 16, false, offset);
        let handed: Vec<(&str, bool)> = b.program.iter().flat_map(|s| norms(&s.arrays)).collect();
        assert_eq!(handed.len(), 7);
        assert!(handed.iter().all(|(_, own)| *own == offset));
    }
}

#[test]
fn qwen_decay_is_read_in_single_precision() {
    let c = qwen("");
    let b = CppQwen35Model::build(&c, &TensorMap::new(), "model", 16, false, false);
    let linear = b.program.iter().find(|s| s.call == RuntimeCall::PushLinearAttn).unwrap();
    let name = "model.layers.0.linear_attn.A_log";
    assert!(linear.arrays.iter().any(
        |r| matches!(r, Request::As { name: n, dtype: Dtype::Float32 } if n == name)
    ));
    let mut map = met(&b.program);
    put(&mut map, "model.embed_tokens.weight", &[10, 64]);
    let loads = load_qwen35_metal_weights(&c, &map, false).unwrap();
    assert!(loads.iter().any(
        |r| matches!(r, Request::As { name: n, dtype: Dtype::Float32 } if n == name)
    ));
    assert!(!dense(&loads, name));
}

#[test]
fn requests_fail_as_what_they_are_made_of() {
    let mut map: Infos = TensorMap::new();
    let named = |s: &str| s.to_string();
    for r in [
        Request::Norm { name: named("a"), offset: true },
        Request::As { name: named("a"), dtype: Dtype::Float32 },
        Request::Transposed(named("a")),
        Request::DenseProj(named("p")),
    ] {
        assert_eq!(check_request(&map, None, &r), Some(LoadError::MissingWeight));
    }
    let stack = Request::PackedStack { base: named("p"), group_size: 64, bits: 4 };
    assert!(check_request(&map, None, &stack).is_some());
    assert_eq!(check_request(&map, None, &Request::Zero(Dtype::Bfloat16)), None);
    put(&mut map, "a", &[4]);
    put(&mut map, "p.weight", &[4, 4]);
    assert_eq!(check_request(&map, None, &Request::Transposed(named("a"))), None);
    assert_eq!(check_request(&map, None, &Request::DenseProj(named("p"))), None);
    put(&mut map, "p.scales", &[4, 1]);
    put(&mut map, "p.biases", &[4, 1]);
    assert_eq!(check_request(&map, None, &stack), Some(LoadError::StackRank { rank: 2 }));
    put(&mut map, "p.weight", &[2, 4, 4]);
    assert_eq!(check_request(&map, None, &stack), None);
}

#[test]
fn qwen_switches_and_session_counts() {
    assert!(use_qwen35_cpp_separate_proj(None) && use_qwen35_cpp_separate_proj(Some("1")));
    assert!(!use_qwen35_cpp_separate_proj(Some("0")));
    assert_eq!(step_session_paged_bf16(4, 4), Ok(4));
    assert_eq!(step_session_paged_bf16(4, 3), Err(StepError::Mismatch { keys: 4, values: 3 }));
    assert_eq!(step_session_paged_int8(6, 6), Ok(2));
    assert_eq!(step_session_paged_int8(4, 4), Err(StepError::Triples { count: 4 }));
}

fn lfm2() -> Lfm2Facts {
    Lfm2Facts {
        num_attention_heads: 4,
        num_key_value_heads: 2,
        head_dim: 16,
        hidden_size: 64,
        conv_kernel: 3,
        moe: Lfm2MoeFacts {
            num_experts: 2,
            num_experts_per_tok: 1,
            norm_topk_prob: true,
            expert_bits: 4,
            expert_group_size: 64,
        },
        layers: vec![
            Lfm2LayerFacts { kind: Lfm2LayerKind::Conv, moe: false },
            Lfm2LayerFacts { kind: Lfm2LayerKind::FullAttention, moe: false },
        ],
    }
}

#[test]
fn lfm2_programs_follow_the_layer_kinds() {
    let mut map: Infos = TensorMap::new();
    assert!(matches!(load_lfm2_metal_weights(&lfm2(), &map, None), Err(Lfm2LoadError::Prefix)));
    put(&mut map, "model.embed_tokens.weight", &[10, 64]);
    let b = CppLfm2Model::build(&lfm2(), &map, None);
    let order = calls(&b.program);
    assert!(order.contains(&RuntimeCall::PushConv) && order.contains(&RuntimeCall::PushFullAttn));
    assert_eq!(find_expert_store(&map, None, "p"), ExpertStore::Single);
    assert_eq!(capture_layers(&vec![1, 2]), Some(vec![1, 2]));
    assert_eq!(capture_layers(&vec![1, usize::MAX]), None);
    assert_eq!(drain_captured(3), Some(3));
    assert_eq!(drain_captured(-1), None);
}

#[test]
fn lfm2_routers_are_dense_and_stacks_have_a_width() {
    let mut facts = lfm2();
    facts.layers = vec![Lfm2LayerFacts { kind: Lfm2LayerKind::Conv, moe: true }];
    let p = "model.layers.0.feed_forward";
    let mut map: Infos = TensorMap::new();
    put(&mut map, "model.embed_tokens.weight", &[10, 64]);
    let is_router = |r: &Request| matches!(r, Request::DenseProj(n) if *n == format!("{p}.gate"));
    let find = |b: &CppLfm2Model, call: RuntimeCall| b.program.iter().position(|s| s.call == call);
    let b = CppLfm2Model::build(&facts, &map, None);
    let plain = &b.program[find(&b, RuntimeCall::SetDenseMoe).unwrap()];
    assert!(is_router(&plain.arrays[0]));
    let single = met(&b.program);
    let loads = load_lfm2_metal_weights(&facts, &single, None).unwrap();
    assert!(loads.iter().any(is_router));
    for part in ["gate_proj", "up_proj", "down_proj"] {
        for end in [".weight", ".scales", ".biases"] {
            put(&mut map, &format!("{p}.switch_mlp.{part}{end}"), &[2, 4, 4]);
        }
    }
    let b = CppLfm2Model::build(&facts, &map, None);
    let packed = &b.program[find(&b, RuntimeCall::SetMoe).unwrap()];
    assert!(is_router(&packed.arrays[0]));
    assert_eq!(packed.adds.len(), 3);
    assert!(packed
        .adds
        .iter()
        .all(|r| matches!(r, Request::PackedStack { group_size: 64, bits: 4, .. })));
    assert_eq!(packed.numbers, vec![64, 4, 2, 1]);
}

fn dims() -> ModelDims {
    ModelDims {
        hidden_size: 64,
        num_hidden_layers: 1,
        num_attention_heads: 4,
        num_key_value_heads: 2,
        head_dim: 16,
    }
}

fn draft(kind: DraftKind) -> DFlashDraftConfig {
    match kind {
        DraftKind::DFlashEagle => load_dflash_eagle(RawDraftConfig {
            dims: dims(),
            block_size: Some(4),
            mask_token_id: 5,
            target_layer_ids: vec![0],
        }),
        DraftKind::Qwen35Mtp => load_qwen35_mtp(
            &RawMtpConfig {
                block_size: None,
                hidden_size: 64,
                num_attention_heads: 4,
                num_key_value_heads: 2,
                head_dim: 16,
                rotary_dim: 8,
                attn_output_gate: true,
            },
            8,
        )
        .unwrap(),
    }
}

#[test]
fn draft_heads_load_what_they_register() {
    for kind in [DraftKind::DFlashEagle, DraftKind::Qwen35Mtp] {
        let c = draft(kind);
        let b = DFlashDraftCppModel::build(&c, true);
        let empty: Infos = TensorMap::new();
        assert!(DFlashDraftWeights::load(&c, &empty, None, true).is_err());
        let w = DFlashDraftWeights::load(&c, &met(&b.program), None, true).unwrap();
        assert!(w.markov.is_none());
        assert!(check_requests(&met(&b.program), None, &w.loads).is_none());
    }
}

#[test]
fn only_one_kind_of_draft_has_its_norms_corrected() {
    for (kind, norms_need_offset, offset, count) in [
        (DraftKind::DFlashEagle, true, false, 5),
        (DraftKind::DFlashEagle, false, false, 5),
        (DraftKind::Qwen35Mtp, true, true, 7),
        (DraftKind::Qwen35Mtp, false, false, 7),
    ] {
        let c = draft(kind);
        let b = DFlashDraftCppModel::build(&c, norms_need_offset);
        let w = DFlashDraftWeights::load(&c, &met(&b.program), None, norms_need_offset).unwrap();
        let own = norms(&w.loads);
        assert_eq!(own.len(), count);
        assert!(own.iter().all(|(_, o)| *o == offset));
        let handed: Vec<(&str, bool)> = b.program.iter().flat_map(|s| norms(&s.arrays)).collect();
        assert_eq!(handed.len(), count);
        assert!(handed.iter().all(|(_, o)| *o == offset));
        let fc = b.program.iter().find(|s| s.call == RuntimeCall::SetFcNorms).unwrap();
        assert_eq!(fc.arrays.len(), 3);
        let mtp = kind == DraftKind::Qwen35Mtp;
        assert_eq!(matches!(fc.arrays[1], Request::Zero(Dtype::Bfloat16)), mtp);
        assert_eq!(dense(&fc.arrays, "hidden_norm.weight"), !mtp);
        assert_eq!(dense(&w.loads, "layers.0.input_layernorm.weight"), mtp);
    }
}

#[test]
fn the_second_markov_array_is_turned() {
    let c = draft(DraftKind::DFlashEagle);
    let mut map = met(&DFlashDraftCppModel::build(&c, false).program);
    put(&mut map, "markov_head.markov_w1.weight", &[10, 2]);
    assert!(DFlashDraftWeights::load(&c, &map, None, false).unwrap().markov.is_none());
    put(&mut map, "markov_head.markov_w2.weight", &[10, 2]);
    let head = DFlashDraftWeights::load(&c, &map, None, false).unwrap().markov.unwrap();
    assert!(matches!(head.w1, Request::Dense(n) if n == "markov_head.markov_w1.weight"));
    assert!(matches!(head.w2, Request::Transposed(n) if n == "markov_head.markov_w2.weight"));
}

#[test]
fn draft_heads_are_told_apart() {
    assert_eq!(draft_kind(None, None, None), DraftKind::DFlashEagle);
    assert!(!draft_head_has_pre_fc_norm(None, None));
    let needle = r#"{"mtp.pre_fc_norm_embedding.weight": "a"}"#;
    assert!(draft_head_has_pre_fc_norm(Some(needle), None));
    assert!(draft_head_has_pre_fc_norm(None, Some(needle)));
    assert!(!draft_head_has_pre_fc_norm(Some("{}"), Some(needle)));
    assert_eq!(draft_kind(None, Some(needle), None), DraftKind::Qwen35Mtp);
    let mut bytes = 2u64.to_le_bytes().to_vec();
    bytes.extend(b"{}xx");
    assert_eq!(header_range(&bytes), Some((8, 10)));
    assert_eq!(header_range(&bytes[..7]), None);
    let q = raw_quant(None, Some(RawDraftQuantConfig { group_size: Some(32), bits: None }));
    assert_eq!(q.unwrap().group_size, 32);
    assert!(raw_quant(None, None).is_none());
}

#[test]
fn projections_are_packed_or_dense() {
    let c = load_metal_config(r#"{"layer_types": [], "quantization": {"bits": 4}}"#, None).unwrap();
    let q = c.quantization.as_ref();
    let mut map: Infos = TensorMap::new();
    assert_eq!(load_proj_from_tensors(&map, "p", q), Err(LoadError::MissingWeight));
    put(&mut map, "p.weight", &[4, 4]);
    assert_eq!(load_proj_from_tensors(&map, "p", q), Ok(ProjPlan::Dense));
    assert_eq!(load_embed_tokens_from_tensors(&map, "p", None), Ok(ProjPlan::Dense));
    assert_eq!(load_quantized_with_bits(&map, "p", 32, 8), Err(LoadError::MissingQuantizedScales));
    put(&mut map, "p.scales", &[4, 1]);
    assert_eq!(load_quantized_with_bits(&map, "p", 32, 8), Err(LoadError::MissingQuantizedBiases));
    put(&mut map, "p.biases", &[4, 1]);
    assert!(matches!(
        load_proj_from_tensors(&map, "p", q),
        Ok(ProjPlan::Quantized { has_biases: true, group_size: 64, bits: 4, .. })
    ));
    assert_eq!(load_stacked_quantized(&map, "p", 2), Err(LoadError::StackRank { rank: 2 }));
    assert_eq!(load_stacked_quantized(&map, "p", 3), Ok(()));
    assert!(map.contains_key("p.scales") && map.tensor_get("q").is_none());
}

#[test]
fn shards_are_listed_once_in_order() {
    let text = r#"{"weight_map": {"a": "m-2.safetensors", "b": "m-1.safetensors", "c": "m-2.safetensors"}}"#;
    match shards_of_index(text) {
        ShardIndex::Shards(s) => assert_eq!(s, vec!["m-1.safetensors", "m-2.safetensors"]),
        _ => panic!("the index maps weights"),
    }
    assert!(matches!(shards_of_index("{"), ShardIndex::Malformed));
    assert!(matches!(shards_of_index("{}"), ShardIndex::Unmapped));
    let names: Vec<String> = ["b.safetensors", "x.txt", "a.safetensors"].map(String::from).to_vec();
    assert_eq!(shards_of_listing(&names), vec!["a.safetensors", "b.safetensors"]);
    let shard = |name: &str, array| NamedTensor { name: name.to_string(), array };
    let map = load_tensor_map(&vec![vec![shard("w", 1)], vec![shard("w", 2), shard("v", 3)]]);
    let map = map.ok().unwrap();
    assert_eq!((map.tensor_get("w"), map.tensor_get("v")), (Some(&2), Some(&3)));
    assert!(load_tensor_map::<u8>(&vec![]).is_err());
}

fn packed(bits: i32, rows: i32) -> WeightTensor {
    WeightTensor::Quantized {
        w: info(&[rows, 8], Dtype::Uint32),
        scales: info(&[rows, 1], Dtype::Bfloat16),
        biases: Some(Dtype::Bfloat16),
        group_size: 64,
        bits,
    }
}

#[test]
fn rows_join_packed_only_at_one_width() {
    assert_eq!(packed(4, 3).output_dim(), Ok(3));
    assert_eq!(WeightTensor::Dense(info(&[8, 5], Dtype::Bfloat16)).output_dim(), Ok(5));
    assert_eq!(packed(4, 3).quant_bits(), Some(4));
    assert!(matches!(concat_weight_rows(&packed(4, 3), &packed(4, 2)), Ok(RowConcat::Packed(_))));
    assert!(matches!(concat_weight_rows(&packed(4, 3), &packed(8, 2)), Ok(RowConcat::Dense)));
    let a = packed(4, 3);
    let b = packed(8, 3);
    assert!(merge_quantized_projection_rows(&vec![&a, &b]).unwrap().is_none());
    assert_eq!(merge_quantized_projection_rows(&vec![&a, &a]).unwrap().unwrap().packed_in, 8);
    let flat = WeightTensor::Dense(info(&[], Dtype::Bfloat16));
    assert_eq!(flat.output_dim(), Err(WeightError::DenseOutputDim));
}

#[test]
fn convolutions_are_turned() {
    assert_eq!(load_conv_weight(&vec![8, 3, 1], Some(8), 3), Some(ConvTurn::Keep));
    assert_eq!(load_conv_weight(&vec![8, 1, 3], Some(8), 3), Some(ConvTurn::Swap));
    assert_eq!(load_conv_weight(&vec![8, 3], None, 3), Some(ConvTurn::Widen));
    assert_eq!(load_conv_weight(&vec![7, 3], Some(8), 3), None);
}

#[test]
fn generation_arguments_fit_the_runtime() {
    assert_eq!(clamp_rotary(0, 16), 1);
    assert_eq!(clamp_rotary(20, 16), 16);
    assert_eq!(i32_tokens(&vec![1, 2]).ok().unwrap(), vec![1, 2]);
    assert!(matches!(i32_tokens(&vec![u32::MAX]), Err(GenerateError::Token { token: u32::MAX })));
    assert!(diffusion_args(1, 2, 3, 4).is_ok());
    let big = 1usize << 40;
    assert!(matches!(diffusion_args(big, 1, 1, 1), Err(GenerateError::MaxNewTokens)));
    assert!(matches!(diffusion_args(1, big, 1, 1), Err(GenerateError::CanvasLength)));
    assert!(matches!(diffusion_args(1, 1, big, 1), Err(GenerateError::DenoisingSteps)));
    assert!(matches!(diffusion_args(1, 1, 1, big), Err(GenerateError::StabilityThreshold)));
    assert!(matches!(causal_args(big), Err(GenerateError::MaxNewTokens)));
    assert!(check_canvas(3, 4).is_ok());
    assert!(matches!(check_canvas(5, 4), Err(GenerateError::ValidLength { valid: 5, canvas: 4 })));
}

#[test]
fn images_are_held_to_their_shape() {
    let image =
        || ImageFacts { channels: 3, height: 4, width: 5, pixels: 60, soft_token_count: 7 };
    let args = generate_multimodal(&vec![image()], 9).ok().unwrap();
    assert_eq!((args.height, args.width, args.soft_tokens, args.max_new_tokens), (4, 5, 7, 9));
    let fault = |i: Vec<ImageFacts>| generate_multimodal(&i, 9).err().unwrap();
    assert!(matches!(fault(vec![]), GenerateError::ImageCount { count: 0 }));
    assert!(matches!(
        fault(vec![ImageFacts { channels: 1, ..image() }]),
        GenerateError::ImageChannels { channels: 1 }
    ));
    assert!(matches!(fault(vec![ImageFacts { pixels: 59, ..image() }]), GenerateError::ImageBuffer));
}

#[test]
fn replies_are_cut_to_their_length() {
    let reply =
        |len| GenerateReply { len, finish: 0, blocks: 1, steps: 2, forced: 3, adaptive: 4 };
    let out = diffusion_output(vec![5, 6, 7], &reply(2)).ok().unwrap();
    assert_eq!(out.tokens, vec![5, 6]);
    assert_eq!((out.stats.blocks, out.stats.denoise_steps), (1, 2));
    assert!(matches!(
        diffusion_output(vec![5], &reply(2)),
        Err(GenerateError::LengthExceedsBuffer { len: 2, buffer: 1 })
    ));
    assert!(matches!(diffusion_output(vec![5], &reply(-1)), Err(GenerateError::NegativeLength)));
    let a = finalize_output(vec![5, 6], 1, 0).ok().unwrap();
    let b = finalize_output(vec![5, 6], 1, 1).ok().unwrap();
    assert_ne!(a.finish, b.finish);
    assert!([a.finish, b.finish].contains(&FinishReason::Stop));
}
