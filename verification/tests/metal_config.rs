use agent_infer::metal::config::{
    diffusion_generation_from_config, diffusion_stop_ids, load_deepseek_ocr_config,
    load_gemma4_config, load_metal_config, model_dir_is_deepseek_ocr,
    model_dir_is_diffusion_gemma, model_dir_is_gemma4, resolve_image_token_id, ConfigError,
    DiffusionDefaults, DiffusionFacts, MetalQwen35LayerType, OcrSpecFacts, QuantMode,
    QuantRegistry, RotaryDim,
};
use agent_infer::metal::json::JsonDoc;

#[test]
fn documents_are_read_as_the_parser_reads_them() {
    let doc = JsonDoc::parse(r#"{"b": [1, -2, 2.5, "x", null], "a": {"c": true}}"#).unwrap();
    let list = doc.field(doc.root(), "b");
    assert_eq!(doc.items(list), Some(5));
    assert_eq!(doc.as_u64(doc.item(list, 0)), Some(1));
    assert_eq!(doc.as_u64(doc.item(list, 1)), None);
    assert_eq!(doc.as_i64(doc.item(list, 1)), Some(-2));
    assert_eq!(doc.as_float_bits(doc.item(list, 2)), Some(2.5f64.to_bits()));
    assert_eq!(doc.as_float_bits(doc.item(list, 0)), Some(1.0f64.to_bits()));
    assert_eq!(doc.as_text(doc.item(list, 3)), Some("x"));
    assert_eq!(doc.item(list, 5), None);
    let inner = doc.object(doc.field(doc.root(), "a"));
    assert_eq!(doc.as_bool(doc.field(inner, "c")), Some(true));
    assert_eq!(doc.field(doc.root(), "z"), None);
    assert_eq!(doc.object(list), None);
    assert!(JsonDoc::parse("{").is_none());
    assert!(JsonDoc::parse("").is_none());
}

#[test]
fn nested_values_are_found_behind_deep_siblings() {
    let doc = JsonDoc::parse(r#"{"a":[[1,[2,3]],{"k":[4]}],"m":{"x":{"y":{"z":9}}},"n":7}"#);
    let doc = doc.unwrap();
    let y = doc.field(doc.field(doc.field(doc.root(), "m"), "x"), "y");
    assert_eq!(doc.as_u64(doc.field(y, "z")), Some(9));
    assert_eq!(doc.as_u64(doc.field(doc.root(), "n")), Some(7));
    let k = doc.field(doc.item(doc.field(doc.root(), "a"), 1), "k");
    assert_eq!(doc.as_u64(doc.item(k, 0)), Some(4));
}

const QWEN: &str = r#"{
  "model_type": "qwen3_5",
  "eos_token_id": 11,
  "quantization": {"group_size": 32, "bits": 8,
     "model.layers.0.mlp.gate": {"bits": 2}},
  "text_config": {
    "hidden_size": 1024, "num_attention_heads": 8, "num_key_value_heads": 2,
    "layer_types": ["linear_attention", "full_attention"],
    "rope_parameters": {"partial_rotary_factor": 0.25, "rope_theta": 10000},
    "rms_norm_eps": 0.001,
    "eos_token_id": [11, 12],
    "linear_num_key_heads": 4, "linear_key_head_dim": 16,
    "linear_num_value_heads": 8, "linear_value_head_dim": 32,
    "num_experts": 4, "num_experts_per_tok": 1, "mlp_only_layers": [0],
    "moe_config": {"num_experts": 16, "num_experts_per_tok": 2, "norm_topk_prob": false}
  }
}"#;

#[test]
fn a_qwen_checkpoint_is_read_in_full() {
    let c = load_metal_config(QWEN, Some(r#"{"eos_token_id": [13, 11]}"#)).unwrap();
    assert_eq!(c.hidden_size, 1024);
    assert_eq!(c.head_dim, 128);
    assert_eq!(c.num_key_value_heads, 2);
    assert_eq!(c.num_hidden_layers, 2);
    assert_eq!(
        c.layer_types,
        vec![MetalQwen35LayerType::LinearAttention, MetalQwen35LayerType::FullAttention]
    );
    assert_eq!(c.num_full_attention_layers(), 1);
    assert_eq!(c.num_linear_attention_layers(), 1);
    assert_eq!(c.stop_token_ids, vec![13, 11, 12]);
    assert_eq!(c.rms_norm_eps_bits, Some(0.001f64.to_bits()));
    assert_eq!(c.rope_theta_bits, Some(10000.0f64.to_bits()));
    assert_eq!(
        c.rotary,
        RotaryDim::Partial { head_dim: 128, factor_bits: 0.25f64.to_bits() }
    );
    assert_eq!(c.linear.conv_kernel, 4);
    assert_eq!(c.linear.qkv_dim(), 2 * 4 * 16 + 8 * 32);
    let q = c.quantization.unwrap();
    assert_eq!((q.bits, q.group_size), (8, 32));
    assert_eq!(q.mode, QuantMode::Affine);
    assert_eq!(q.for_base("model.layers.0.mlp.gate"), (2, 32));
    assert_eq!(q.for_base("model.layers.1.mlp.gate"), (8, 32));
    let m = c.moe.unwrap();
    assert_eq!((m.num_experts, m.num_experts_per_tok), (16, 2));
    assert!(!m.norm_topk_prob);
    assert_eq!(m.mlp_only_layers, vec![0]);
    assert_eq!((m.router_bits, m.expert_bits), (8, 8));
    assert!(!m.is_moe_layer(0) && m.is_moe_layer(1));
}

#[test]
fn silent_checkpoints_get_the_defaults() {
    let c = load_metal_config(r#"{"layer_types": []}"#, None).unwrap();
    assert_eq!(c.hidden_size, 2048);
    assert_eq!(c.num_attention_heads, 16);
    assert_eq!(c.head_dim, 128);
    assert_eq!(c.num_key_value_heads, 8);
    assert_eq!(c.stop_token_ids, vec![151_645]);
    assert_eq!(c.rotary, RotaryDim::Whole { head_dim: 128 });
    assert!(c.quantization.is_none() && c.moe.is_none());
    assert_eq!(QuantMode::Affine.ffi(), 0);
    assert_ne!(QuantMode::Mxfp4.ffi(), QuantMode::Affine.ffi());
}

#[test]
fn bad_checkpoints_are_named() {
    let fault = |t: &str| load_metal_config(t, None).err().unwrap();
    assert!(matches!(fault("nonsense"), ConfigError::NotJson));
    assert!(matches!(fault("[1]"), ConfigError::NotObject));
    assert!(matches!(fault(r#"{"model_type": "diffusion_gemma"}"#), ConfigError::DiffusionGemma));
    assert!(matches!(
        fault(r#"{"text_config": {"model_type": "gemma4_text"}, "model_type": "gemma4"}"#),
        ConfigError::Gemma4
    ));
    assert!(matches!(fault("{}"), ConfigError::NoLayerTypes));
    assert!(matches!(
        fault(r#"{"layer_types": ["full_attention", 3]}"#),
        ConfigError::LayerTypeNotText { index: 1 }
    ));
    assert!(matches!(
        fault(r#"{"layer_types": ["sliding"]}"#),
        ConfigError::UnsupportedLayerType { index: 0 }
    ));
    assert!(matches!(
        fault(r#"{"layer_types": ["full_attention"], "num_hidden_layers": 2}"#),
        ConfigError::LayerCount { types: 1, layers: 2 }
    ));
    assert!(matches!(
        fault(r#"{"layer_types": [], "quantization": {"mode": "nf4"}}"#),
        ConfigError::UnsupportedQuantMode
    ));
    assert!(matches!(
        load_metal_config(r#"{"layer_types": []}"#, Some("{")).err(),
        Some(ConfigError::GenerationNotJson)
    ));
}

#[test]
fn families_are_told_apart() {
    assert!(model_dir_is_diffusion_gemma(r#"{"architectures": ["DiffusionGemmaForCanvas"]}"#));
    assert!(!model_dir_is_diffusion_gemma("{}"));
    assert!(model_dir_is_gemma4(r#"{"model_type": "gemma4"}"#));
    assert!(!model_dir_is_gemma4(r#"{"model_type": "diffusion_gemma"}"#));
    assert!(!model_dir_is_gemma4("[]"));
    assert!(model_dir_is_deepseek_ocr(r#"{"model_type": "deepseekocr"}"#));
    assert!(!model_dir_is_deepseek_ocr(r#"{"model_type": "gemma4"}"#));
}

#[test]
fn gemma4_settings_are_read() {
    let text = r#"{"model_type": "gemma4", "image_token_id": 9, "vision_soft_tokens_per_image": 70,
        "vision_config": {"hidden_size": 96, "num_attention_heads": 6}}"#;
    let c = load_gemma4_config(text, Some(r#"{"max_new_tokens": 40, "pad_token_id": 3}"#), 1000);
    let c = c.unwrap();
    assert_eq!(c.generation.max_new_tokens, 40);
    assert_eq!(c.generation.vocab_size, 1000);
    assert_eq!((c.generation.canvas_length, c.generation.max_denoising_steps), (1, 1));
    assert_eq!(c.generation.pad_token_id, 3);
    assert_eq!(c.image_token_id, Some(9));
    assert_eq!(c.vision_soft_tokens_per_image, Some(70));
    let v = c.vision.unwrap();
    assert_eq!(v.hidden_size, 96);
    assert_eq!(load_gemma4_config(r#"{"model_type": "gemma4"}"#, None, 5).unwrap().generation.max_new_tokens, 512);
    assert!(matches!(
        load_gemma4_config(r#"{"model_type": "qwen"}"#, None, 5).err(),
        Some(ConfigError::NotGemma4)
    ));
    assert!(matches!(
        load_gemma4_config(r#"{"model_type": "gemma4"}"#, None, 1 << 40).err(),
        Some(ConfigError::VocabTooLarge { .. })
    ));
    let headless = r#"{"model_type": "gemma4", "vision_config": {"num_attention_heads": 0}}"#;
    assert!(matches!(
        load_gemma4_config(headless, None, 5).err(),
        Some(ConfigError::NoVisionHeads)
    ));
}

#[test]
fn ocr_settings_are_read() {
    let facts = OcrSpecFacts { mxfp8: true, tile_2d: true, vocab_size: 129_280 };
    let text = r#"{"model_type": "x", "architectures": ["UnlimitedOCRForCausalLM"]}"#;
    assert!(model_dir_is_deepseek_ocr(text));
    let c = load_deepseek_ocr_config(text, "{}", None, &facts).unwrap();
    assert_eq!(c.generation.max_new_tokens, 8192);
    assert_eq!(c.image_token_id, 128_815);
    assert!(matches!(
        load_deepseek_ocr_config("{}", "{}", None, &facts).err(),
        Some(ConfigError::NotDeepseekOcr)
    ));
    assert!(matches!(
        load_deepseek_ocr_config(text, "{}", None, &OcrSpecFacts { mxfp8: false, ..facts }).err(),
        Some(ConfigError::NotMxfp8)
    ));
    assert!(matches!(
        load_deepseek_ocr_config(text, "{}", None, &OcrSpecFacts { tile_2d: false, ..facts }).err(),
        Some(ConfigError::NotTile2d)
    ));
    assert!(matches!(
        load_deepseek_ocr_config(text, "{", None, &facts).err(),
        Some(ConfigError::TokenizerNotJson)
    ));
}

#[test]
fn image_token_ids_come_from_the_tokenizer() {
    let doc = JsonDoc::parse("{}").unwrap();
    assert_eq!(resolve_image_token_id(&doc), 128_815);
    let doc = JsonDoc::parse(
        r#"{"added_tokens_decoder": {"7": {"content": "<pad>"}, "x": {"content": "<image>"},
            "42": {"content": "<image>"}}}"#,
    );
    assert_eq!(resolve_image_token_id(&doc.unwrap()), 42);
}

#[test]
fn gemma_weights_fall_back_on_four_bits() {
    let doc = JsonDoc::parse(
        r#"{"quantization": {"bits": 8, "group_size": 32, "w": {}, "x": {"bits": 6}}}"#,
    );
    let r = QuantRegistry::from_config_value(&doc.unwrap());
    let q = r.config.unwrap();
    assert_eq!(q.for_base("w"), (4, 64));
    assert_eq!(q.for_base("x"), (6, 64));
    assert_eq!(q.for_base("y"), (8, 32));
    assert!(QuantRegistry::from_config_value(&JsonDoc::parse("{}").unwrap()).config.is_none());
}

#[test]
fn diffusion_settings_fall_back_on_the_canvas() {
    assert_eq!(diffusion_stop_ids(None, None), vec![1, 106, 50]);
    assert_eq!(diffusion_stop_ids(Some(vec![]), Some(vec![7])), vec![1, 106, 50]);
    assert_eq!(diffusion_stop_ids(None, Some(vec![7])), vec![7]);
    let facts = || DiffusionFacts {
        vocab_size: 10,
        canvas_length: 256,
        max_new_tokens: None,
        max_denoising_steps: None,
        pad_token_id: Some(4),
        generation_eos: None,
        eos: Some(vec![2]),
    };
    let defaults = DiffusionDefaults { max_denoising_steps: 48, pad_token_id: 0 };
    let g = diffusion_generation_from_config(facts(), &defaults).unwrap();
    assert_eq!((g.max_new_tokens, g.canvas_length, g.max_denoising_steps), (256, 256, 48));
    assert_eq!((g.pad_token_id, g.stop_token_ids), (4, vec![2]));
    let wide = DiffusionFacts { vocab_size: 1 << 40, ..facts() };
    assert!(matches!(
        diffusion_generation_from_config(wide, &defaults).err(),
        Some(ConfigError::VocabTooLarge { .. })
    ));
}
