use agent_infer::hip::config::DeepSeekV4Config;
use agent_infer::hip::executor::{
    kv_cell_bytes, load_dsv4_gguf, DecodeRow, HipDsv4Executor, LoadArgError, PrefillRow,
    SubmitError, DEFAULT_PAGE_SIZE,
};
use agent_infer::hip::forward::{
    lookup_weight, next_phase, Buf, ForwardError, GlobalWeight, HipDsv4Model, Launch, LayerWeight,
    SlotState, TokenPhase, WeightName,
};
use agent_infer::hip::kv_pool::{
    Dsv4CompressorShapeElems, Dsv4SlotShape, HipKvError, HipKvPool,
};
use agent_infer::hip::load::{
    attention_launcher_writes, decode_hash_table, gated_tensors, join_uploads, routing_sources,
    scratch_bytes, LoadError,
};
use agent_infer::hip::loader::{
    bf16_row_bytes, dequant_f32, device_bytes, f32_to_bf16_rne, find_tensor, plan_model,
    plan_residency, upload_plan, DeviceTensor, Dsv4TensorKind, GgmlType, KQuant, PlanError,
    PlannedTensor, Residency, TensorInfo, TensorRole, UploadMode,
};
use agent_infer::hip::model::{
    gemv_kind, is_matmul_bearing, layer_schedule, route_layer_token, slot_layer_offsets,
    validate_matmul_residency, AttentionLayerPlan, AttentionMode, GatedTensor, GemvKind,
    MatmulGateError, RouteError,
};

fn config(ratios: Vec<usize>) -> DeepSeekV4Config {
    DeepSeekV4Config {
        num_hidden_layers: ratios.len(),
        compress_ratios: ratios,
        hidden_size: 64,
        vocab_size: 100,
        num_attention_heads: 4,
        head_dim: 8,
        qk_rope_head_dim: 4,
        q_lora_rank: 16,
        o_groups: 2,
        o_lora_rank: 8,
        sliding_window: 16,
        index_n_heads: 2,
        index_head_dim: 4,
        index_topk: 3,
        hc_mult: 2,
        hc_sinkhorn_iters: 5,
        moe_intermediate_size: 32,
        n_routed_experts: 6,
        n_shared_experts: 1,
        num_experts_per_tok: 2,
        num_hash_layers: 1,
        original_max_position_embeddings: 4096,
        tie_word_embeddings: false,
        eos_token_id: Some(7),
    }
}

#[test]
fn slot_shape_counts_every_family() {
    let shape = Dsv4SlotShape::new(&config(vec![0, 4, 128]), 256);
    let plain = &shape.layers[0];
    assert_eq!(plain.total_elems(), 16 * 8);
    assert!(plain.compressor.is_none() && plain.indexer.is_none());
    let sparse = &shape.layers[1];
    let c = sparse.compressor.unwrap();
    assert_eq!((c.pending_kv, c.prev_overlap_kv, c.compressed), (4 * 16, 4 * 8, 8 * 64));
    assert_eq!(c.total(), 2 * 64 + 2 * 32 + 512);
    let i = sparse.indexer.unwrap();
    assert_eq!(i.total(), 2 * 32 + 2 * 16 + 4 * 64);
    let heavy = &shape.layers[2];
    assert!(heavy.indexer.is_none());
    assert_eq!(heavy.compressor.unwrap().pending_kv, 128 * 8);
    assert_eq!(
        shape.total_elems(),
        plain.total_elems() + sparse.total_elems() + heavy.total_elems()
    );
    assert_eq!(shape.total_bytes(), 2 * shape.total_elems());
    assert_eq!(Dsv4CompressorShapeElems::new(8, 4, false, 0).compressed, 8);
}

#[test]
fn pool_grows_frees_and_counts() {
    let mut pool = HipKvPool::new(&config(vec![0]), 2, 4, 16, 48);
    assert!(pool.is_active());
    assert_eq!(pool.slot_shape().max_seq_len, 48);
    assert_eq!(pool.slot_shape().layers.len(), 1);
    assert_eq!(pool.page_size(), 16);
    assert_eq!(pool.append_pages_needed(0, 20), 2);
    pool.alloc_tokens(0, 20).unwrap();
    assert_eq!(pool.page_indices(0), vec![0, 1]);
    assert_eq!(pool.seq_len(0), 20);
    assert_eq!(pool.append_pages_needed(0, 12), 0);
    assert_eq!(pool.resident_pages(), 2);
    assert_eq!(pool.page_indices_for_token_range(0, 3), vec![0]);
    assert_eq!(
        pool.alloc_tokens(0, 29),
        Err(HipKvError::ExceedsMaxSeqLen { slot: 0, have: 20, append: 29, max_seq_len: 48 })
    );
    assert_eq!(pool.alloc_tokens(1, 48), Err(HipKvError::OutOfPages { need: 3, free: 2 }));
    pool.truncate_slot(0, 5).unwrap();
    assert_eq!(pool.page_indices(0), vec![0]);
    assert_eq!(pool.truncate_slot(9, 0), Err(HipKvError::SlotOutOfRange { slot: 9 }));
    let epoch = pool.slot_epoch(0);
    pool.free_slot(0);
    assert_eq!(pool.slot_epoch(0), epoch + 1);
    assert_eq!(pool.seq_len(0), 0);
    assert_eq!(pool.free_pages(), 4);
}

#[test]
fn retained_pages_outlive_their_slot() {
    let mut pool = HipKvPool::new(&config(vec![0]), 1, 3, 4, 64);
    pool.alloc_tokens(0, 8).unwrap();
    pool.retain_pages(&[0]);
    pool.free_slot(0);
    assert_eq!(pool.free_pages(), 2);
    assert!(pool.page_is_evictable(0));
    assert_eq!(pool.resident_evictable_pages(), 1);
    pool.attach_pages(0, &[0], 4).unwrap();
    assert_eq!(pool.page_indices(0), vec![0]);
    assert_eq!(pool.attach_pages(4, &[0], 4), Err(HipKvError::SlotOutOfRange { slot: 4 }));
    pool.free_slot(0);
    pool.release_pages(&[0]);
    let detached = pool.alloc_detached_pages(2).unwrap();
    assert_eq!(detached.len(), 2);
    assert!(pool.alloc_detached_pages(9).is_err());
    pool.free_detached_pages(&detached);
}

#[test]
fn rounding_to_bf16_is_to_nearest_even() {
    assert_eq!(f32_to_bf16_rne(1.0f32.to_bits()), 0x3f80);
    assert_eq!(f32_to_bf16_rne(0x3f80_8000), 0x3f80);
    assert_eq!(f32_to_bf16_rne(0x3f81_8000), 0x3f82);
    assert_eq!(f32_to_bf16_rne(0x3f80_8001), 0x3f81);
    for bits in [f32::NAN.to_bits(), 0x7f80_0001, 0xff80_0001] {
        assert!(half::bf16::from_bits(f32_to_bf16_rne(bits)).is_nan());
    }
    for x in [0.1f32, -3.75, 65504.0, 1e-40, f32::INFINITY, f32::MAX] {
        assert_eq!(f32_to_bf16_rne(x.to_bits()), half::bf16::from_f32(x).to_bits());
    }
    assert_eq!(bf16_row_bytes(&[1.0f32.to_bits()]), vec![0x80, 0x3f]);
}

fn tensor(kind: Dsv4TensorKind, layer: Option<usize>, ty: GgmlType, count: u64) -> TensorInfo {
    TensorInfo {
        name: format!("{kind:?}"),
        role: Some(TensorRole { layer, kind }),
        ggml_type: ty,
        element_count: count,
        byte_len: Some(count / 2),
        row_bytes: None,
        dims: vec![count as usize, 1],
    }
}

#[test]
fn residency_follows_kind_and_format() {
    assert_eq!(plan_residency(Dsv4TensorKind::RouterBias, GgmlType::F32), Residency::HostOnly);
    assert_eq!(plan_residency(Dsv4TensorKind::TokenEmbedding, GgmlType::Q2K), Residency::DequantBf16);
    assert_eq!(plan_residency(Dsv4TensorKind::AttnQA, GgmlType::Q2K), Residency::KeepQ2K);
    assert_eq!(
        plan_residency(Dsv4TensorKind::OutputHead, GgmlType::Q6K),
        Residency::KeepKQuant(KQuant::Q6K)
    );
    assert_eq!(plan_residency(Dsv4TensorKind::AttnQB, GgmlType::F16), Residency::DequantBf16);
    assert!(dequant_f32(GgmlType::Q8Blocks) && !dequant_f32(GgmlType::I64));
}

#[test]
fn the_byte_budget_adds_up() {
    let tensors = vec![
        tensor(Dsv4TensorKind::OutputHead, None, GgmlType::Q4K, 256),
        tensor(Dsv4TensorKind::AttnQA, Some(1), GgmlType::F32, 10),
        tensor(Dsv4TensorKind::RouterBias, Some(0), GgmlType::F32, 6),
    ];
    assert_eq!(device_bytes(Residency::DequantF32, &tensors[1]), Some(40));
    let plan = plan_model(&tensors, 2).unwrap();
    assert_eq!(plan.global_bytes, 128);
    assert_eq!(plan.layer_bytes, vec![0, 20]);
    assert_eq!(plan.total_bytes, 148);
    let steps = upload_plan(&plan);
    assert_eq!(steps.len(), 2);
    assert_eq!((steps[0].tensor, steps[0].mode), (0, UploadMode::Raw));
    assert_eq!((steps[1].tensor, steps[1].mode), (1, UploadMode::Bf16));

    assert_eq!(
        plan_model(&tensors, 1).err(),
        Some(PlanError::LayerOutOfRange { tensor: 1, layer: 1 })
    );
    let mut odd = tensor(Dsv4TensorKind::AttnQA, Some(0), GgmlType::Q4K, 3);
    odd.byte_len = None;
    assert_eq!(plan_model(&[odd], 1).err(), Some(PlanError::Unaligned { tensor: 0 }));
    let mut unknown = tensor(Dsv4TensorKind::Other, None, GgmlType::F32, 1);
    unknown.role = None;
    assert_eq!(plan_model(&[unknown], 1).err(), Some(PlanError::Unclassified { tensor: 0 }));
}

#[test]
fn matmul_weights_need_a_kernel() {
    assert_eq!(gemv_kind(Residency::KeepIq2Xxs), Some(GemvKind::MmvqIq2Xxs));
    assert_eq!(gemv_kind(Residency::KeepKQuant(KQuant::Q5K)), Some(GemvKind::Q5K));
    assert_eq!(gemv_kind(Residency::DequantBf16), None);
    assert!(is_matmul_bearing(Dsv4TensorKind::TokenEmbedding, 2, true));
    assert!(!is_matmul_bearing(Dsv4TensorKind::TokenEmbedding, 2, false));
    assert!(!is_matmul_bearing(Dsv4TensorKind::HyperConnection, 1, false));
    let good = GatedTensor {
        kind: Dsv4TensorKind::AttnQA,
        residency: Residency::KeepQ2K,
        ndims: 2,
    };
    let bad = GatedTensor {
        kind: Dsv4TensorKind::AttnQB,
        residency: Residency::DequantBf16,
        ndims: 2,
    };
    let fused = GatedTensor {
        kind: Dsv4TensorKind::RoutedExpertGateUp,
        residency: Residency::KeepQ2K,
        ndims: 3,
    };
    assert_eq!(validate_matmul_residency(&[good], false), Ok(()));
    assert_eq!(
        validate_matmul_residency(&[good, bad], false),
        Err(MatmulGateError::NoGemv {
            tensor: 1,
            kind: Dsv4TensorKind::AttnQB,
            residency: Residency::DequantBf16
        })
    );
    assert_eq!(
        validate_matmul_residency(&[fused], false),
        Err(MatmulGateError::FusedGateUp { tensor: 0 })
    );
}

#[test]
fn arena_regions_follow_each_other() {
    let shape = Dsv4SlotShape::new(&config(vec![0, 4]), 64);
    let out = slot_layer_offsets(&shape, (8, 4));
    assert_eq!(out[0].sw_window, 0);
    assert_eq!(out[1].sw_window, 128);
    let c = out[1].compressor.unwrap();
    assert_eq!(c.pending_kv, 256);
    assert_eq!(c.pending_score, 256 + 64);
    assert_eq!(c.prev_overlap_kv, 256 + 128);
    assert_eq!(c.prev_overlap_score, 256 + 128 + 32);
    assert_eq!(c.compressed, 256 + 128 + 64);
    assert_eq!(c.compressed_rows, 16);
    let i = out[1].indexer.unwrap();
    assert_eq!(i.pending_kv, c.compressed + 8 * 16);
    assert_eq!(i.compressed + 4 * 16, shape.total_elems());
}

#[test]
fn hash_layers_route_by_table() {
    let table = [3i64, 1, 0, 5, -2, 4];
    assert_eq!(route_layer_token(2, 1, 2, 0, None), Ok(None));
    assert_eq!(route_layer_token(0, 1, 2, 1, Some(&table)), Ok(Some(vec![0, 5])));
    assert_eq!(route_layer_token(0, 1, 2, 0, None), Err(RouteError::MissingTable { layer: 0 }));
    assert_eq!(
        route_layer_token(0, 1, 2, 3, Some(&table)),
        Err(RouteError::TableTooShort { token: 3, table_len: 6 })
    );
    assert_eq!(
        route_layer_token(0, 1, 2, 2, Some(&table)),
        Err(RouteError::InvalidExpert { id: -2 })
    );
    let bytes: Vec<u8> = [7i64, -9].iter().flat_map(|v| v.to_le_bytes()).collect();
    assert_eq!(decode_hash_table(&bytes), vec![7, -9]);
    assert_eq!(decode_hash_table(&bytes[..15]), vec![7]);
}

#[test]
fn routing_data_is_found() {
    let mut table = tensor(Dsv4TensorKind::RouterHashTable, Some(0), GgmlType::I64, 12);
    let bias = tensor(Dsv4TensorKind::RouterBias, Some(1), GgmlType::F32, 6);
    let found = routing_sources(&[tensor(Dsv4TensorKind::AttnQA, Some(0), GgmlType::Q4K, 4), bias]);
    let found = found.unwrap();
    assert_eq!(found.len(), 1);
    assert_eq!((found[0].tensor, found[0].layer, found[0].hash_table), (1, 1, false));
    table.ggml_type = GgmlType::F32;
    assert!(matches!(
        routing_sources(&[table]),
        Err(LoadError::HashTableType { tensor: 0, ggml_type: GgmlType::F32 })
    ));
}

#[test]
fn scratch_covers_the_widest_use() {
    let s = scratch_bytes(&config(vec![0]), 32, 34);
    assert_eq!(s.token_id, 4);
    assert_eq!(s.stream, 64 * 2 * 2);
    assert_eq!(s.mixes, (2 + 2) * 2 * 2);
    assert_eq!(s.query, 4 * 8 * 2);
    assert_eq!(s.selected, 12);
    assert_eq!(s.x_f32, 128 * 4);
    assert_eq!(s.q8, 4 * 34);
    assert_eq!(s.logits_bf16, 200);
}

fn stored(name: WeightName, k: usize, n: usize) -> TensorInfo {
    TensorInfo {
        name: name.name(),
        role: Some(TensorRole { layer: None, kind: Dsv4TensorKind::Other }),
        ggml_type: GgmlType::Q4K,
        element_count: (k * n) as u64,
        byte_len: Some((k * n) as u64),
        row_bytes: Some(k),
        dims: vec![k, n],
    }
}

fn uploads(tensors: &[TensorInfo]) -> Vec<DeviceTensor> {
    let residency = Residency::KeepKQuant(KQuant::Q4K);
    tensors.iter().map(|t| DeviceTensor { name: t.name.clone(), residency }).collect()
}

fn model() -> HipDsv4Model {
    let layer: Vec<(LayerWeight, usize, usize)> = vec![
        (LayerWeight::HcAttnFn, 128, 8),
        (LayerWeight::HcAttnBase, 8, 1),
        (LayerWeight::HcAttnScale, 8, 1),
        (LayerWeight::HcFfnFn, 128, 8),
        (LayerWeight::HcFfnBase, 8, 1),
        (LayerWeight::HcFfnScale, 8, 1),
        (LayerWeight::AttnNorm, 64, 1),
        (LayerWeight::AttnQA, 64, 16),
        (LayerWeight::AttnQANorm, 16, 1),
        (LayerWeight::AttnQB, 16, 32),
        (LayerWeight::AttnKvLatent, 64, 8),
        (LayerWeight::AttnKvANorm, 8, 1),
        (LayerWeight::AttnSinks, 4, 1),
        (LayerWeight::AttnOutputA, 16, 16),
        (LayerWeight::AttnOutputB, 16, 64),
        (LayerWeight::FfnNorm, 64, 1),
        (LayerWeight::Router, 64, 6),
        (LayerWeight::UpExperts, 64, 32),
        (LayerWeight::GateExperts, 64, 32),
        (LayerWeight::DownExperts, 32, 64),
        (LayerWeight::UpShared, 64, 32),
        (LayerWeight::GateShared, 64, 32),
        (LayerWeight::DownShared, 32, 64),
    ];
    let mut tensors: Vec<TensorInfo> = layer
        .into_iter()
        .map(|(w, k, n)| stored(WeightName::Layer(0, w), k, n))
        .collect();
    for (g, k, n) in [
        (GlobalWeight::TokenEmbd, 64, 100),
        (GlobalWeight::Output, 64, 100),
        (GlobalWeight::OutputNorm, 64, 1),
        (GlobalWeight::HcHeadFn, 128, 2),
        (GlobalWeight::HcHeadBase, 2, 1),
        (GlobalWeight::HcHeadScale, 2, 1),
    ] {
        tensors.push(stored(WeightName::Global(g), k, n));
    }
    let plans =
        [Some(AttentionLayerPlan { mode: AttentionMode::SlidingWindow, compress_ratio: 0 })];
    let up = uploads(&tensors);
    HipDsv4Model::new(config(vec![0]), &[], &tensors, &up, &plans, 1, 8, 32, 34).unwrap().model
}

#[test]
fn loading_names_each_fault() {
    let plan = AttentionLayerPlan { mode: AttentionMode::SlidingWindow, compress_ratio: 0 };
    let short = HipDsv4Model::new(config(vec![0, 0]), &[], &[], &[], &[Some(plan), None], 1, 8, 32, 34);
    assert!(matches!(short, Err(LoadError::LayerSchedule { have: 1, want: 2 })));
    let headless = HipDsv4Model::new(config(vec![0]), &[], &[], &[], &[Some(plan)], 1, 8, 32, 34);
    assert!(matches!(headless, Err(LoadError::NoLmHead)));
    assert_eq!(layer_schedule(&[None, Some(plan)]).len(), 1);
}

#[test]
fn uploads_are_joined_with_the_file() {
    let file = [
        stored(WeightName::Global(GlobalWeight::Output), 64, 100),
        stored(WeightName::Global(GlobalWeight::TokenEmbd), 32, 7),
    ];
    let mut up = uploads(&file);
    up.reverse();
    let table = join_uploads(&up, &file).unwrap();
    assert_eq!(table.len(), 2);
    assert_eq!(table[0].name, file[1].name);
    assert_eq!(table[0].dims, vec![32, 7]);
    assert_eq!((table[0].row_bytes, table[0].ggml_type), (Some(32), GgmlType::Q4K));
    assert_eq!(table[0].residency, Residency::KeepKQuant(KQuant::Q4K));
    assert_eq!(table[1].dims, vec![64, 100]);
    assert_eq!(find_tensor(&file, &file[1].name), Some(1));
    assert_eq!(find_tensor(&file, &"absent".to_string()), None);
    let residency = Residency::KeepQ2K;
    up.insert(1, DeviceTensor { name: "absent".to_string(), residency });
    assert!(matches!(join_uploads(&up, &file), Err(LoadError::NotInFile { upload: 1 })));
    let plan = AttentionLayerPlan { mode: AttentionMode::SlidingWindow, compress_ratio: 0 };
    let missing = HipDsv4Model::new(config(vec![0]), &[], &file, &up, &[Some(plan)], 1, 8, 32, 34);
    assert!(matches!(missing, Err(LoadError::NotInFile { upload: 1 })));
}

#[test]
fn the_gate_looks_at_the_rank_in_the_file() {
    let planned = |name: &str| PlannedTensor {
        name: name.to_string(),
        layer: None,
        kind: Dsv4TensorKind::HyperConnection,
        ggml_type: GgmlType::F32,
        residency: Residency::DequantBf16,
        bytes: 0,
    };
    let mut flat = stored(WeightName::Global(GlobalWeight::HcHeadBase), 2, 1);
    flat.dims = vec![2];
    let name = flat.name.clone();
    let gated = gated_tensors(&[planned(&name), planned("absent")], &[flat]);
    assert_eq!((gated[0].ndims, gated[1].ndims), (1, 2));
    assert_eq!(gated[1].kind, Dsv4TensorKind::HyperConnection);
    let plan = AttentionLayerPlan { mode: AttentionMode::SlidingWindow, compress_ratio: 0 };
    let absent = DeviceTensor { name: "absent".to_string(), residency: Residency::DequantBf16 };
    let refused = HipDsv4Model::new(
        config(vec![0]),
        &[planned("absent")],
        &[],
        &[absent],
        &[Some(plan)],
        1,
        8,
        32,
        34,
    );
    assert!(matches!(refused, Err(LoadError::Gate(MatmulGateError::NoGemv { tensor: 0, .. }))));
}

#[test]
fn a_token_runs_its_phases() {
    let mut m = model();
    assert_eq!(m.max_seq_len(), 8);
    assert_eq!(m.begin_token(0, 3, 0), Ok(true));
    m.arena_made(0, 3);
    assert_eq!(m.begin_token(0, 3, 0), Ok(false));
    let embed = m.forward_token(TokenPhase::Embed, 0, &[]);
    assert!(embed.err.is_none());
    assert!(matches!(embed.ops[0], Launch::Embed { hidden: 64, .. }));
    let attention = m.layer_forward(0, 0);
    assert_eq!(attention.err, None);
    assert!(attention.ops.iter().any(|l| matches!(
        l,
        Launch::SwaAttention { heads: 4, head_dim: 8, sliding_window: 16, .. }
    )));
    assert!(matches!(
        attention.ops.last().unwrap(),
        Launch::Gemv { y: Buf::RouterLogits, n: 6, .. }
    ));
    let experts = m.moe_forward(0, &[5, 2]);
    assert_eq!(experts.err, None);
    let up = lookup_weight(&m.weights, WeightName::Layer(0, LayerWeight::UpExperts)).unwrap();
    let offsets: Vec<usize> = experts
        .ops
        .iter()
        .filter_map(|l| match l {
            Launch::Gemv { weight, byte_offset, .. } if *weight == up => Some(*byte_offset),
            _ => None,
        })
        .collect();
    assert_eq!(offsets, vec![5 * 32 * 64, 2 * 32 * 64]);
    let head = m.head();
    assert_eq!(head.err, None);
    assert!(matches!(head.ops.last().unwrap(), Launch::CastLogits { n: 100 }));
    m.commit_token(0);
    assert_eq!(m.slots[0], Some(SlotState { seq_len: 1, epoch: 3 }));
    assert_eq!(
        m.begin_token(0, 3, 5),
        Err(ForwardError::NotContiguous { slot: 0, seq_len: 1, start_pos: 5 })
    );
    assert_eq!(m.begin_token(0, 4, 0), Ok(true));
    assert_eq!(m.begin_token(7, 4, 0), Err(ForwardError::SlotOutOfRange { slot: 7 }));
    m.slots[0] = Some(SlotState { seq_len: 8, epoch: 4 });
    assert_eq!(
        m.begin_token(0, 4, 8),
        Err(ForwardError::ExceedsMaxSeqLen { slot: 0, max_seq_len: 8 })
    );
    assert_eq!(next_phase(TokenPhase::Embed, 1), TokenPhase::Attention { layer: 0 });
    assert_eq!(next_phase(TokenPhase::Experts { layer: 0 }, 1), TokenPhase::Head);
}

#[test]
fn missing_and_misfit_weights_stop_the_schedule() {
    let mut m = model();
    let norm = lookup_weight(&m.weights, WeightName::Layer(0, LayerWeight::AttnNorm)).unwrap();
    m.weights.remove(norm);
    let gone = WeightName::Layer(0, LayerWeight::AttnNorm);
    assert_eq!(m.layer_forward(0, 0).err, Some(ForwardError::MissingWeight { name: gone }));
    let mut m = model();
    m.mixes_bytes = 4;
    assert_eq!(m.layer_forward(0, 0).err, Some(ForwardError::MixerTooWide { rows: 8 }));
    let mut m = model();
    let q = lookup_weight(&m.weights, WeightName::Layer(0, LayerWeight::AttnQA)).unwrap();
    m.weights[q].residency = Residency::DequantBf16;
    assert_eq!(m.layer_forward(0, 0).err, Some(ForwardError::NoGemv { weight: q }));
    let mut m = model();
    let e = lookup_weight(&m.weights, WeightName::Global(GlobalWeight::TokenEmbd)).unwrap();
    m.weights[e].residency = Residency::KeepQ2K;
    assert_eq!(
        m.embed_token().err,
        Some(ForwardError::NoEmbedKernel { residency: Residency::KeepQ2K })
    );
    let mut m = model();
    let up = lookup_weight(&m.weights, WeightName::Layer(0, LayerWeight::UpExperts)).unwrap();
    m.weights[up].row_bytes = None;
    assert_eq!(m.moe_forward(0, &[1]).err, Some(ForwardError::UnalignedExperts { weight: up }));
    assert_eq!(attention_launcher_writes().len(), 6);
}

#[test]
fn steps_take_one_row() {
    let empty = HipDsv4Executor::unloaded();
    assert!(matches!(empty.submit(true, &[], &[]), Ok(None)));
    let row = PrefillRow { slot: 2, tokens: vec![4, 5], start_pos: 3 };
    assert!(matches!(empty.submit(false, &[row], &[]), Err(SubmitError::NoModel)));
    let ready = HipDsv4Executor::loaded(&config(vec![0]));
    assert_eq!(ready.model_stop_token_ids(), vec![7]);
    let row = PrefillRow { slot: 2, tokens: vec![4, 5], start_pos: 3 };
    let step = ready.submit(false, &[row], &[]).unwrap().unwrap();
    assert_eq!((step.slot, step.start_pos), (2, 3));
    assert_eq!(step.tokens, vec![4, 5]);
    let row = DecodeRow { slot: 1, last_token: 9, kv_seq_len: 6 };
    let step = ready.submit(false, &[], &[row]).unwrap().unwrap();
    assert_eq!((step.slot, step.start_pos, step.tokens), (1, 6, vec![9]));
    assert!(matches!(ready.submit(false, &[], &[]), Err(SubmitError::RowCount { rows: 0 })));
    let row = PrefillRow { slot: 2, tokens: vec![], start_pos: 0 };
    assert!(matches!(ready.submit(false, &[row], &[]), Err(SubmitError::EmptyPrefill)));
}

#[test]
fn pools_hold_the_longest_sequence() {
    assert_eq!(DEFAULT_PAGE_SIZE, 64);
    assert_eq!(kv_cell_bytes(&config(vec![0, 0])), 8 * 2 * 2);
    assert_eq!(load_dsv4_gguf(0, 1, None), Err(LoadArgError::NoSlots));
    assert_eq!(load_dsv4_gguf(1, 0, None), Err(LoadArgError::NoSequence));
    assert_eq!(load_dsv4_gguf(1, 65, None), Ok(2));
    assert_eq!(load_dsv4_gguf(1, 65, Some(6400)), Ok(100));
    assert_eq!(load_dsv4_gguf(1, 65, Some(1)), Ok(2));
}

#[test]
fn a_refused_token_runs_on_a_made_arena_only() {
    let mut m = model();
    assert_eq!(m.ensure_slot(0, 7), Ok(true));
    assert_eq!(m.begin_token(0, 7, 3), Ok(true));
    assert_eq!(m.slots[0], None);
    assert_eq!(m.begin_token(0, 7, 0), Ok(true));
    m.arena_made(0, 7);
    assert_eq!(m.ensure_slot(0, 7), Ok(false));
    assert_eq!(
        m.begin_token(0, 7, 3),
        Err(ForwardError::NotContiguous { slot: 0, seq_len: 0, start_pos: 3 })
    );
    assert_eq!(m.slots[0], Some(SlotState { seq_len: 0, epoch: 7 }));
    assert_eq!(m.begin_token(0, 7, 0), Ok(false));
}

#[test]
fn a_recycled_slot_asks_for_a_new_arena() {
    let mut m = model();
    m.slots[0] = Some(SlotState { seq_len: 5, epoch: 1 });
    assert_eq!(m.begin_token(0, 2, 3), Ok(true));
    assert_eq!(m.slots[0], None);
    assert_eq!(m.begin_token(0, 2, 0), Ok(true));
    m.arena_made(0, 2);
    assert_eq!(m.begin_token(0, 2, 0), Ok(false));
}

#[test]
fn a_failed_allocation_is_asked_for_again() {
    let mut m = model();
    for _ in 0..3 {
        assert_eq!(m.begin_token(0, 9, 0), Ok(true), "no arena was reported made");
        assert_eq!(m.slots[0], None);
    }
    m.arena_made(0, 9);
    assert_eq!(m.begin_token(0, 9, 0), Ok(false));
}

#[test]
fn sizes_count_only_where_they_are_taken() {
    let n = u64::MAX / 2;
    let wide = tensor(Dsv4TensorKind::AttnQA, Some(0), GgmlType::F32, n);
    assert_eq!(device_bytes(Residency::DequantBf16, &wide), Some(n * 2));
    assert_eq!(device_bytes(Residency::HostOnly, &wide), Some(0));
    assert_eq!(plan_model(&[wide], 1).unwrap().total_bytes, n * 2);
    let huge = Dsv4CompressorShapeElems::new(1, usize::MAX / 2, false, 1);
    assert_eq!(huge.pending_kv, usize::MAX / 2);
    assert_eq!(huge.compressed, 1);
    let plan = AttentionLayerPlan { mode: AttentionMode::SlidingWindow, compress_ratio: 0 };
    let short = HipDsv4Model::new(
        config(vec![0, 0]),
        &[],
        &[],
        &[],
        &[Some(plan)],
        1,
        usize::MAX,
        0,
        usize::MAX,
    );
    assert!(matches!(short, Err(LoadError::LayerSchedule { have: 1, want: 2 })));
}
