use agent_infer::metal::backend::{
    default_recall_config, is_qwen36_27b_model, poll, resolve_dflash, MetalExecutor,
    MetalInflight, SpeculativeFlags, Submission,
};
use agent_infer::metal::dflash::{
    accepted_tokens, build_target_hidden_from_captures, check_compatibility, choose_block_size,
    continue_speculative_block, conv_tail_start, draft_inputs, draft_path, draft_token,
    load_dflash_eagle, load_qwen35_mtp, prepare_draft_block, qwen35_speculative_block,
    rollback_gdr_to_accepted, rollback_kv_to_accepted, validate_options, DFlashDraftConfig,
    DFlashDraftState, DflashCompatError, DraftError, DraftJob, DraftKind, DraftPath, ModelDims,
    OptionsError, RawDraftConfig, RawMtpConfig, ReplaceError, RollbackError, SpecCall, SpecError, SpecJob,
    SpecNext, TapeShapes, Verdict,
};
use agent_infer::metal::executor::{
    paged_kv_read_fallbacks, paged_kv_read_hits, pipeline_fast_path_hits, route_rows, sample_route,
    token_values, Call, DecodeNext, DecodeRow, DflashLimits, DflashWork, ExecutorFlags, ForwardPlan,
    PrefillNext, PrefillPhase, PrefillRow, ReadyNext, ReadyPhase, RealMetalExecutor, RowRoute, SampleRoute, SlotHost,
    SubmitError,
};
use agent_infer::metal::kv_ssd::PrefixBlock;
use agent_infer::metal::mlx::Dtype;
use agent_infer::metal::slot::{
    allocate_kv_flat, allocate_recurrent, bf16_prefix_read_inputs, ensure_kv_capacity,
    gather_kv_ranges, grow_kv_seq_axis, hidden_keep_from, int8_kv_group_size,
    int8_prefix_read_inputs, prefix_tail, round_up_capacity, slice_kv_tokens, slot_capacity,
    validate_int8_kv_config, ArraySpec, KvCacheDtype, MetalKvCacheDtype, RecurrentLayout,
    SlotError,
};

#[test]
fn resolve_metal_support_matrix() {
    assert_eq!(
        MetalKvCacheDtype::resolve(KvCacheDtype::Auto).unwrap(),
        MetalKvCacheDtype::Int8
    );
    assert_eq!(
        MetalKvCacheDtype::resolve(KvCacheDtype::Int8).unwrap(),
        MetalKvCacheDtype::Int8
    );
    assert_eq!(
        MetalKvCacheDtype::resolve(KvCacheDtype::Bf16).unwrap(),
        MetalKvCacheDtype::Bf16
    );
    assert!(MetalKvCacheDtype::resolve(KvCacheDtype::Fp8).is_err());
    assert!(MetalKvCacheDtype::resolve(KvCacheDtype::Tq4).is_err());
}

#[test]
fn dtype_labels_and_default() {
    assert_eq!(MetalKvCacheDtype::default(), MetalKvCacheDtype::Int8);
    assert_ne!(MetalKvCacheDtype::Int8.label(), MetalKvCacheDtype::Bf16.label());
}

#[test]
fn gather_kv_ranges_concats_selected_token_ranges() {
    let shape = [1, 1, 6, 2];
    let g = gather_kv_ranges(&shape, &[(0, 2), (4, 6)]).unwrap();
    assert_eq!(g.shape[2], 4, "gathered token count = sum of range sizes");
    assert_eq!(g.slices[1].start, vec![0, 0, 4, 0]);
    assert_eq!(g.slices[1].stop, vec![1, 1, 6, 2]);
    let full = gather_kv_ranges(&shape, &[(0, 6)]).unwrap();
    assert_eq!(full.shape[2], 6);
    assert!(gather_kv_ranges(&shape, &[(0, 7)]).is_err());
}

#[test]
fn qwen36_27b_detection_matches_family_and_rejects_others() {
    for p in [
        "/u/.cache/huggingface/hub/models--mlx-community--Qwen3.6-27B-OptiQ-4bit/snapshots/abc",
        "/u/.cache/huggingface/hub/models--mlx-community--Qwen3.6-27B-MTP-4bit/snapshots/abc",
        "models/Qwen3.6-27B-OptiQ-4bit",
    ] {
        assert!(is_qwen36_27b_model(p), "expected Qwen3.6-27B detection for {p}");
    }
    for p in [
        "models/Qwen3.5-0.8B-MLX-4bit",
        "models/Qwen3.5-4B",
        "/u/.cache/huggingface/hub/models--mlx-community--Qwen3.6-35B-A3B-4bit/snapshots/abc",
    ] {
        assert!(!is_qwen36_27b_model(p), "expected NO Qwen3.6-27B detection for {p}");
    }
}

#[test]
fn grow_kv_seq_axis_preserves_tokens_and_zero_pads_tail() {
    let src = [10.0, 11.0, 20.0, 21.0];
    let tail = grow_kv_seq_axis(&[1, 1, 2, 2], 4).unwrap().unwrap();
    let mut vals = src.to_vec();
    vals.extend(vec![0.0; tail.iter().product::<i32>() as usize]);
    assert_eq!([1, 1, 2 + tail[2], 2], [1, 1, 4, 2], "seq axis must extend to 4");
    assert_eq!(&vals[0..4], &[10.0, 11.0, 20.0, 21.0]);
    assert_eq!(&vals[4..8], &[0.0, 0.0, 0.0, 0.0]);
}

#[test]
fn grow_kv_seq_axis_is_noop_when_capacity_met() {
    assert_eq!(grow_kv_seq_axis(&[1, 1, 2, 2], 2).unwrap(), None);
}

#[test]
fn int8_kv_layout_allocates_packed_triples_per_kv_axis() {
    let arrays = allocate_kv_flat(1, 1, 128, MetalKvCacheDtype::Int8, 256);
    assert_eq!(arrays.len(), 6);
    assert_eq!(arrays[0].shape, vec![1, 1, 256, 32]);
    assert_eq!(arrays[0].dtype, Dtype::Uint32);
    assert_eq!(arrays[1].shape, vec![1, 1, 256, 1]);
    assert_eq!(arrays[1].dtype, Dtype::Bfloat16);
    assert_eq!(arrays[2].shape, vec![1, 1, 256, 1]);
    assert_eq!(arrays[3].shape, vec![1, 1, 256, 32]);
    assert_eq!(arrays[3].dtype, Dtype::Uint32);
}

#[test]
fn int8_kv_group_size_prefers_largest_supported_divisor() {
    assert_eq!(int8_kv_group_size(256).unwrap(), 128);
    assert_eq!(int8_kv_group_size(96).unwrap(), 32);
    assert!(int8_kv_group_size(80).is_err());
}

/// Values `base + token * 10 + dim` of a rank-4 array of two values a token.
fn kv_values(tokens: usize, base: i32) -> Vec<f32> {
    (0..tokens as i32).flat_map(|t| [(base + t * 10) as f32, (base + t * 10 + 1) as f32]).collect()
}

/// The values that a slice of such an array holds.
fn cut(values: &[f32], shape: &[i32], from: usize, to: usize) -> Vec<f32> {
    let s = slice_kv_tokens(shape, from, to).unwrap();
    values[s.start[2] as usize * 2..s.stop[2] as usize * 2].to_vec()
}

fn kv(dtype: Dtype) -> ArraySpec {
    ArraySpec { dtype, shape: vec![1, 1, 5, 2] }
}

#[test]
fn bf16_prefix_read_inputs_slices_live_prefix_pairs() {
    let arrays: Vec<ArraySpec> = (0..4).map(|_| kv(Dtype::Bfloat16)).collect();
    let plan = bf16_prefix_read_inputs(&arrays, 3, 3).unwrap();
    assert_eq!(plan.k, vec![0, 2]);
    assert_eq!(plan.v, vec![1, 3]);
    let cut = slice_kv_tokens(&arrays[plan.k[0]].shape, 0, 3).unwrap();
    assert_eq!(cut.stop, vec![1, 1, 3, 2]);
    assert_eq!(arrays[plan.k[0]].dtype, Dtype::Bfloat16);
    let values: Vec<Vec<f32>> = [10, 20, 30, 40].iter().map(|&b| kv_values(5, b)).collect();
    assert_eq!(
        self::cut(&values[plan.k[0]], &arrays[0].shape, 0, 3),
        vec![10.0, 11.0, 20.0, 21.0, 30.0, 31.0]
    );
}

#[test]
fn int8_prefix_read_inputs_slices_q_scale_bias_triples() {
    let arrays = vec![
        kv(Dtype::Uint32),
        kv(Dtype::Bfloat16),
        kv(Dtype::Bfloat16),
        kv(Dtype::Uint32),
        kv(Dtype::Bfloat16),
        kv(Dtype::Bfloat16),
    ];
    let plan = int8_prefix_read_inputs(&arrays, 3, 3).unwrap();
    assert_eq!(plan.k.len(), 3);
    assert_eq!(plan.v.len(), 3);
    assert_eq!(slice_kv_tokens(&arrays[plan.k[0]].shape, 0, 3).unwrap().stop, vec![1, 1, 3, 2]);
    assert_eq!(arrays[plan.k[0]].dtype, Dtype::Uint32);
    assert_eq!(arrays[plan.k[1]].dtype, Dtype::Bfloat16);
    assert_eq!(arrays[plan.v[0]].dtype, Dtype::Uint32);
    let values: Vec<Vec<f32>> =
        [10, 20, 30, 40, 50, 60].iter().map(|&b| kv_values(5, b)).collect();
    assert_eq!(
        cut(&values[plan.k[1]], &arrays[1].shape, 0, 3),
        vec![20.0, 21.0, 30.0, 31.0, 40.0, 41.0]
    );
}

#[test]
fn slot_faults_are_named() {
    assert!(matches!(slice_kv_tokens(&[1, 2], 0, 1), Err(SlotError::NotRank4 { rank: 2 })));
    assert!(matches!(
        bf16_prefix_read_inputs(&[kv(Dtype::Bfloat16)], 3, 3),
        Err(SlotError::NotGrouped { arrays: 1 })
    ));
    assert!(matches!(
        bf16_prefix_read_inputs(&[kv(Dtype::Uint8), kv(Dtype::Uint8)], 3, 3),
        Err(SlotError::WrongDtype { layer: 0, axis: 0, found: Dtype::Uint8 })
    ));
    assert!(matches!(
        bf16_prefix_read_inputs(&[kv(Dtype::Bfloat16), kv(Dtype::Bfloat16)], 3, 4),
        Err(SlotError::BeyondCache { asked: 4, cache_len: 3 })
    ));
}

#[test]
fn capacities_round_up_to_chunks() {
    assert_eq!(round_up_capacity(1), 256);
    assert_eq!(round_up_capacity(256), 256);
    assert_eq!(round_up_capacity(257), 512);
    assert_eq!(ensure_kv_capacity(256, 200, 100), Some(512));
    assert_eq!(ensure_kv_capacity(256, 200, 10), None);
    assert_eq!(prefix_tail(&[1, 1, 4, 2], 4, 8).unwrap(), Some(vec![1, 1, 4, 2]));
}

fn decode_row(slot: usize, last_token: u32, kv_seq_len: usize) -> DecodeRow {
    DecodeRow { slot, last_token, kv_seq_len, greedy: true, raw_argmax: true }
}

#[test]
fn executor_decode_plumbing_returns_one_token_per_row() {
    let exec: MetalExecutor<u64> = MetalExecutor::new();
    let plan = ForwardPlan {
        decode_rows: vec![decode_row(0, 10, 4), decode_row(1, 20, 7)],
        prefill_rows: Vec::new(),
    };
    match exec.submit(&plan).unwrap() {
        Submission::Ready(inflight) => {
            let out = poll(inflight, 0);
            assert_eq!(out.len(), 2);
            assert_eq!(out[0].token, 11);
            assert_eq!(out[1].token, 21);
        }
        Submission::Rows(_) => panic!("skeleton resolves synchronously"),
    }
}

#[test]
fn executor_prefill_plumbing_returns_completion_token() {
    let exec: MetalExecutor<u64> = MetalExecutor::new();
    let plan = ForwardPlan {
        decode_rows: Vec::new(),
        prefill_rows: vec![PrefillRow {
            slot: 0,
            tokens: vec![1, 2, 3],
            start_pos: 0,
            total_tokens: 3,
            greedy: true,
        }],
    };
    match exec.submit(&plan).unwrap() {
        Submission::Ready(inflight) => {
            let out = poll(inflight, 0);
            assert_eq!(out.len(), 1);
            assert_eq!(out[0].slot, 0);
            assert_eq!(out[0].token, 4);
        }
        Submission::Rows(_) => panic!("skeleton resolves synchronously"),
    }
}

#[test]
fn placeholder_has_no_pages_and_reuses_every_block() {
    let mut exec: MetalExecutor<u64> = MetalExecutor::new();
    assert_eq!(exec.reusable_prefix_blocks(&[PrefixBlock::ResidentPage(3)]), 1);
    assert!(exec.release_prefix_pages(&[3]).is_empty());
    assert_eq!(exec.kv_tier_disk_pages(), 0);
    assert_eq!(exec.kv_tier_location(1), None);
    assert!(exec.tier_page_id(1).is_err());
    assert!(exec.model_stop_token_ids().is_empty());
    assert_eq!(exec.step_limits().max_rows_per_step, 1);
    exec.set_kv_recall(true);
    assert_eq!(poll(MetalInflight::Sampled { slot: 4 }, 9)[0].token, 9);
    assert_eq!(default_recall_config().n_local, 256);
}

fn flags() -> ExecutorFlags {
    ExecutorFlags { pipeline: false, paged_kv_read: false, int8: false, kv_recall: false }
}

#[test]
fn rows_take_the_way_of_their_kind() {
    assert_eq!(route_rows(1, 0, false), Ok(RowRoute::Prefill));
    assert_eq!(route_rows(0, 1, false), Ok(RowRoute::Decode));
    assert_eq!(route_rows(1, 1, true), Ok(RowRoute::DflashMixed));
    assert_eq!(route_rows(0, 3, true), Ok(RowRoute::DflashDecode));
    assert_eq!(route_rows(2, 0, true), Ok(RowRoute::DflashPrefill));
    assert!(route_rows(0, 0, false).is_err());
    assert!(route_rows(1, 1, false).is_err());
    assert!(matches!(route_rows(2, 0, false), Err(SubmitError::PrefillRows { got: 2 })));
    assert!(matches!(route_rows(0, 2, false), Err(SubmitError::DecodeRows { got: 2 })));
    assert_eq!(sample_route(true, true, false, false), SampleRoute::Device { downgraded: false });
}

#[test]
fn prefill_walks_its_calls_and_then_decodes() {
    let mut exec = RealMetalExecutor::new(None, flags());
    let row =
        PrefillRow { slot: 0, tokens: vec![1, 2, 3, 4], start_pos: 0, total_tokens: 4, greedy: true };
    let host = SlotHost { seq_len: 4, epoch: 1 };
    let mut next = exec.submit_prefill(&row, &host);
    let mut calls = Vec::new();
    loop {
        match next {
            PrefillNext::Make { phase, call } => {
                calls.push(call);
                next = exec.continue_prefill(&row, &host, phase, true, 256);
            }
            PrefillNext::Done { position } => {
                assert_eq!(position, 4);
                break;
            }
            PrefillNext::Fail { error, .. } => panic!("refused: {error:?}"),
        }
        assert!(calls.len() < 20);
    }
    assert!(calls.iter().any(|c| matches!(c, Call::NewSlot { .. })));
    assert!(calls.iter().any(|c| matches!(c, Call::BeginSession)));
    assert!(calls.iter().any(|c| matches!(c, Call::Forward { tokens: 4, start_pos: 0 })));
    assert!(calls.iter().any(|c| matches!(c, Call::Publish)));
    let state = exec.slot_state(0).unwrap();
    assert_eq!(state.cache_len, 4);
    assert_eq!(exec.active_session(), None);

    let host = SlotHost { seq_len: 5, epoch: 1 };
    let row = decode_row(0, 9, 4);
    let mut step = exec.submit_decode(&row, &host);
    let mut made = 0;
    loop {
        match step {
            DecodeNext::Make { phase, .. } => {
                made += 1;
                step = exec.continue_decode(&row, &host, phase, true, 256);
            }
            DecodeNext::Queued => break,
            DecodeNext::Stepped { .. } => break,
            DecodeNext::Fail { error } => panic!("refused: {error:?}"),
        }
        assert!(made < 20);
    }
    assert!(made > 0);
    assert_eq!(exec.slot_state(0).unwrap().cache_len, 5);
    let hits = exec.hit_counters();
    assert_eq!(pipeline_fast_path_hits(&hits), 0);
    assert_eq!(paged_kv_read_hits(&hits) + paged_kv_read_fallbacks(&hits), hits.paged_fallbacks);
}

#[test]
fn prefill_of_nothing_and_failed_calls_are_refused() {
    let mut exec = RealMetalExecutor::new(None, flags());
    let row = PrefillRow { slot: 0, tokens: vec![], start_pos: 0, total_tokens: 0, greedy: true };
    let host = SlotHost { seq_len: 0, epoch: 1 };
    assert!(matches!(exec.submit_prefill(&row, &host), PrefillNext::Fail { .. }));
    let row = PrefillRow { slot: 0, tokens: vec![1], start_pos: 0, total_tokens: 1, greedy: true };
    let host = SlotHost { seq_len: 1, epoch: 1 };
    match exec.submit_prefill(&row, &host) {
        PrefillNext::Make { phase, .. } => {
            assert!(matches!(phase, PrefillPhase::Place));
            let next = exec.continue_prefill(&row, &host, phase, false, 0);
            assert!(matches!(next, PrefillNext::Fail { .. }));
        }
        _ => panic!("a call is due"),
    }
}

#[test]
fn decode_before_prefill_is_refused() {
    let mut exec = RealMetalExecutor::new(None, flags());
    let host = SlotHost { seq_len: 1, epoch: 1 };
    let next = exec.submit_decode(&decode_row(3, 1, 1), &host);
    assert!(!matches!(next, DecodeNext::Queued));
    let limits = DflashLimits { max_rows: 2, block_size: 4 };
    let draft = RealMetalExecutor::new(Some(limits), flags());
    assert_eq!(draft.max_rows_per_step(), 2);
    assert!(matches!(
        draft.preflight_dflash_decode_rows(&[
            decode_row(0, 1, 1),
            decode_row(1, 1, 1),
            decode_row(2, 1, 1)
        ]),
        Err(SubmitError::TooManyRows { got: 3, limit: 2 })
    ));
    let mut draft = draft;
    let twice = [decode_row(0, 1, 1), decode_row(0, 1, 1)];
    assert!(draft.preflight_dflash_decode_rows(&twice).is_ok());
    assert!(draft.admit_decode_row(&twice, 0, 1).is_ok());
    assert!(matches!(
        draft.admit_decode_row(&twice, 1, 1),
        Err(SubmitError::DuplicateSlot { slot: 0 })
    ));
    assert_eq!(token_values(&[1, 2]), vec![1, 2]);
}

fn spec(draft: Option<&str>, rows: Option<&str>) -> SpeculativeFlags {
    SpeculativeFlags {
        speculative: true,
        draft_model: draft.map(String::from),
        speculative_tokens: None,
        accept_topk: 0,
        max_rows: rows.map(String::from),
    }
}

#[test]
fn speculative_setup_follows_its_precedence() {
    let path = "models/Qwen3.6-27B-OptiQ-4bit";
    let auto = resolve_dflash(&spec(None, None), path).unwrap().unwrap();
    assert_eq!(auto.draft_model, "mlx-community/Qwen3.6-27B-MTP-4bit");
    assert_eq!(auto.speculative_tokens, Some(2));
    assert_eq!(auto.max_rows, 4);
    assert_eq!(auto.accept_topk, 1);
    let named = resolve_dflash(&spec(Some("  my/head \t"), Some(" 7 ")), "x").unwrap().unwrap();
    assert_eq!(named.draft_model, "my/head");
    assert_eq!(named.speculative_tokens, None);
    assert_eq!(named.max_rows, 7);
    assert!(resolve_dflash(&spec(Some("  "), None), "models/Qwen3.5-4B").unwrap().is_none());
    assert!(resolve_dflash(&spec(Some("d"), Some("many")), "x").is_err());
    let off = SpeculativeFlags { speculative: false, ..spec(Some("d"), None) };
    assert!(resolve_dflash(&off, path).unwrap().is_none());
}

fn dims() -> ModelDims {
    ModelDims {
        hidden_size: 64,
        num_hidden_layers: 8,
        num_attention_heads: 4,
        num_key_value_heads: 2,
        head_dim: 16,
    }
}

fn eagle(layers: Vec<usize>) -> DFlashDraftConfig {
    load_dflash_eagle(RawDraftConfig {
        dims: dims(),
        block_size: None,
        mask_token_id: 5,
        target_layer_ids: layers,
    })
}

#[test]
fn drafts_must_fit_their_target() {
    assert!(check_compatibility(&dims(), &eagle(vec![0, 7])).is_ok());
    assert!(matches!(
        check_compatibility(&dims(), &eagle(vec![])),
        Err(DflashCompatError::NoTargetLayers)
    ));
    assert!(matches!(
        check_compatibility(&dims(), &eagle(vec![8])),
        Err(DflashCompatError::LayerOutOfRange { layers: 8, max_layer: 8 })
    ));
    let mut wide = eagle(vec![0]);
    wide.dims.hidden_size = 65;
    assert!(matches!(
        check_compatibility(&dims(), &wide),
        Err(DflashCompatError::HiddenSize { target: 64, draft: 65 })
    ));
    let raw = RawMtpConfig {
        block_size: None,
        hidden_size: 64,
        num_attention_heads: 4,
        num_key_value_heads: 2,
        head_dim: 16,
        rotary_dim: 8,
        attn_output_gate: true,
    };
    let mtp = load_qwen35_mtp(&raw, 8).unwrap();
    assert_eq!(mtp.draft_kind, DraftKind::Qwen35Mtp);
    assert_eq!(mtp.target_layer_ids, vec![7]);
}

#[test]
fn draft_options_and_block_sizes() {
    assert!(validate_options(false, Some(2), 1).is_ok());
    assert_eq!(validate_options(true, None, 1), Err(OptionsError::NoDraftModel));
    assert_eq!(validate_options(false, None, 0), Err(OptionsError::NoRows));
    assert_eq!(choose_block_size(8, None), 8);
    assert_eq!(choose_block_size(8, Some(3)), 3);
    assert_eq!(choose_block_size(8, Some(99)), 8);
    assert_eq!(choose_block_size(1, None), 2);
}

#[test]
fn drafted_blocks_start_with_the_current_token() {
    assert_eq!(draft_inputs(4, 9, 5), vec![9, 5, 5, 5]);
    assert_eq!(draft_token(7, Some(5)), Ok(7));
    assert_eq!(draft_token(-1, None), Err(DraftError::NegativeToken { token: -1 }));
    assert_eq!(draft_token(5, Some(5)), Err(DraftError::MaskToken { mask: 5 }));
    assert_eq!(draft_path(DraftKind::DFlashEagle, true), DraftPath::Markov);
    let mut state = DFlashDraftState::new(1, 2, 16, 64);
    let job = DraftJob {
        path: DraftPath::Parallel,
        block_size: 3,
        mask: 5,
        current: 9,
        context_rows: 2,
        hidden: 64,
    };
    let block = prepare_draft_block(&mut state, &job, &[1, 2]).unwrap();
    assert_eq!(block.tokens, vec![9, 1, 2]);
}

#[test]
fn a_draft_ends_at_the_first_token_that_cannot_stand() {
    let markov = DraftJob {
        path: DraftPath::Markov,
        block_size: 3,
        mask: 5,
        current: 9,
        context_rows: 2,
        hidden: 64,
    };
    let mut state = DFlashDraftState::new(1, 2, 16, 64);
    assert_eq!(
        prepare_draft_block(&mut state, &markov, &[1, 5]).err(),
        Some(DraftError::MaskToken { mask: 5 })
    );
    assert_eq!(state.len, 5);
    let mut state = DFlashDraftState::new(1, 2, 16, 64);
    let block = prepare_draft_block(&mut state, &markov, &[1, 2, 3]).unwrap();
    assert_eq!(block.tokens, vec![9, 1, 2, 3]);
    assert_eq!(state.len, 2);
    let mtp = DraftJob { path: DraftPath::Mtp, block_size: 8, ..markov };
    assert_eq!(
        prepare_draft_block(&mut state, &mtp, &[4, -2]).err(),
        Some(DraftError::NegativeToken { token: -2 })
    );
    assert_eq!((state.len, state.rope_offset), (2, 2));
    let bare = DraftJob { context_rows: 0, block_size: 0, ..mtp };
    assert_eq!(
        prepare_draft_block(&mut state, &bare, &[]).err(),
        Some(DraftError::NoContext { rows: 0, hidden: 64 })
    );
}

#[test]
fn a_verdict_decides_the_block() {
    let job = SpecJob { block_size: 4, cache_len: 10, gdr_arrays: 0, raw_argmax: true };
    let verdict = Verdict { matched: 2, next_token: 40 };
    let mut next = qwen35_speculative_block(&job);
    let mut calls = 0;
    loop {
        match next {
            SpecNext::Make { call } => {
                calls += 1;
                next = continue_speculative_block(&job, call, true, verdict);
            }
            SpecNext::Done { accepted, cache_len } => {
                assert_eq!(cache_len, 10 + accepted);
                break;
            }
            SpecNext::Fail { error, .. } => panic!("refused: {error:?}"),
        }
        assert!(calls < 20);
    }
    assert_eq!(accepted_tokens(&[9, 1, 2, 3], verdict), vec![1, 2, 40]);
    let sampled = SpecJob { raw_argmax: false, ..job };
    assert!(matches!(
        qwen35_speculative_block(&sampled),
        SpecNext::Fail { error: SpecError::NotRawArgmax, .. }
    ));
    let _ = SpecCall::Draft;
}

#[test]
fn rollbacks_keep_what_was_accepted() {
    let span = rollback_kv_to_accepted(&[4, 4], 2, 10, 3).unwrap();
    assert_eq!((span.start, span.end), (10, 13));
    assert!(matches!(
        rollback_kv_to_accepted(&[4, 4], 1, 10, 3),
        Err(RollbackError::SnapshotCount { live: 2, snapshot: 1 })
    ));
    assert!(matches!(
        rollback_kv_to_accepted(&[4, 3], 2, 10, 3),
        Err(RollbackError::NotRank4 { index: 1 })
    ));
    let tape = || TapeShapes {
        innovation: vec![1, 4, 2, 8],
        k: vec![1, 4, 8],
        g: vec![1, 4, 2],
        qkv: vec![1, 4, 6],
        conv: vec![1, 3, 6],
    };
    let cut = rollback_gdr_to_accepted(4, 2, &vec![tape(), tape()], 3);
    assert_eq!(cut.pairs.len(), 1);
    assert_eq!(cut.fault, Some(RollbackError::ShortSnapshot { tape: 1 }));
    let replay = cut.pairs[0].replay.as_ref().unwrap();
    assert_eq!(replay.innovation, vec![1, 3, 2, 8]);
    assert_eq!(replay.g, vec![1, 3, 2]);
    assert_eq!(cut.pairs[0].frames, vec![1, 3, 6]);
    assert_eq!(cut.pairs[0].keep_from, 3);
    assert!(rollback_gdr_to_accepted(2, 2, &vec![tape()], 0).pairs[0].replay.is_none());
    assert_eq!(conv_tail_start(7, 3), 4);
    assert_eq!(
        build_target_hidden_from_captures(&[vec![1, 4, 8], vec![1, 4, 8]], 2, 3).unwrap(),
        vec![8, 8]
    );
}

#[test]
fn recurrent_slots_start_with_their_arrays() {
    let arrays = allocate_recurrent(RecurrentLayout::Conv { layers: 2, kernel: 3, hidden: 8 });
    assert_eq!(arrays.len(), 2);
    assert_eq!(arrays[1].shape, vec![1, 2, 8]);
    assert_eq!(arrays[1].dtype, Dtype::Bfloat16);
    let arrays = allocate_recurrent(RecurrentLayout::Gdr {
        layers: 1,
        value_heads: 4,
        value_dim: 16,
        key_dim: 32,
        kernel: 4,
        qkv_dim: 96,
    });
    assert_eq!(arrays.len(), 2);
    assert_eq!(arrays[0].shape, vec![1, 4, 16, 32]);
    assert_eq!(arrays[0].dtype, Dtype::Float32);
    assert_eq!(arrays[1].shape, vec![1, 3, 96]);
}

#[test]
fn slot_sizes_are_read_off() {
    assert!(validate_int8_kv_config(96).is_ok());
    assert!(matches!(
        validate_int8_kv_config(80),
        Err(SlotError::HeadDim { head_dim: 80 })
    ));
    assert_eq!(slot_capacity(Some(&[1, 2, 512, 64])), 512);
    assert_eq!(slot_capacity(Some(&[1, 2])), 0);
    assert_eq!(slot_capacity(None), 0);
    assert_eq!(hidden_keep_from(64), 0);
    assert_eq!(hidden_keep_from(70), 6);
}

#[test]
fn draft_cache_takes_over_what_a_forward_left() {
    let mut state = DFlashDraftState {
        layers: 2,
        len: 1,
        capacity: 4,
        n_kv_heads: 2,
        head_dim: 8,
        rope_offset: 0,
    };
    assert_eq!(state.active_kv_flat(), vec![1, 2, 1, 8]);
    let good = vec![1, 2, 16, 8];
    assert!(state.replace_active_kv_flat(&[good.clone()]).is_err());
    assert_eq!(state.capacity, 4);
    let bad = vec![good.clone(), good.clone(), vec![1, 3, 16, 8], good.clone()];
    assert!(matches!(
        state.replace_active_kv_flat(&bad),
        Err(ReplaceError::Shape { layer: 1 })
    ));
    assert_eq!(state.capacity, 16);
    let longer = vec![1, 2, 32, 8];
    assert!(state.replace_active_kv_flat(&vec![longer; 4]).is_ok());
    assert_eq!(state.capacity, 32);
    assert_eq!(state.len, 1);
}

fn prompt(slot: usize, tokens: Vec<u32>, greedy: bool) -> PrefillRow {
    let total_tokens = tokens.len();
    PrefillRow { slot, tokens, start_pos: 0, total_tokens, greedy }
}

#[test]
fn drafted_prompts_are_looked_at_first() {
    let plain = RealMetalExecutor::new(None, flags());
    assert!(matches!(
        plain.preflight_dflash_prefill_rows(&[prompt(0, vec![1], true)]),
        Err(SubmitError::NoRuntime)
    ));
    assert!(matches!(plain.preflight_mixed(1, 1), Err(SubmitError::NoRuntime)));
    let limits = DflashLimits { max_rows: 2, block_size: 4 };
    let exec = RealMetalExecutor::new(Some(limits), flags());
    assert!(exec
        .preflight_dflash_prefill_rows(&[prompt(0, vec![1], true), prompt(1, vec![2], true)])
        .is_ok());
    assert!(matches!(
        exec.preflight_dflash_prefill_rows(&[prompt(3, vec![1], true), prompt(3, vec![2], true)]),
        Err(SubmitError::DuplicateSlot { slot: 3 })
    ));
    assert!(matches!(
        exec.preflight_dflash_prefill_rows(&[prompt(3, vec![], true)]),
        Err(SubmitError::EmptyRow { slot: 3 })
    ));
    assert!(matches!(
        exec.preflight_dflash_prefill_rows(&[prompt(3, vec![1], false)]),
        Err(SubmitError::NotGreedy { slot: 3 })
    ));
    assert!(exec.preflight_mixed(1, 1).is_ok());
    assert!(matches!(
        exec.preflight_mixed(2, 1),
        Err(SubmitError::TooManyRows { got: 3, limit: 2 })
    ));
}

/// Prefills a prompt of `tokens` on a slot.
fn prefilled(exec: &mut RealMetalExecutor, slot: usize, tokens: Vec<u32>) {
    let row = prompt(slot, tokens, true);
    let host = SlotHost { seq_len: row.tokens.len(), epoch: 1 };
    let mut next = exec.submit_prefill(&row, &host);
    for _ in 0..20 {
        next = match next {
            PrefillNext::Make { phase, .. } => {
                exec.continue_prefill(&row, &host, phase, true, 256)
            }
            PrefillNext::Done { .. } => return,
            PrefillNext::Fail { error, .. } => panic!("refused: {error:?}"),
        };
    }
    panic!("prefill does not end");
}

#[test]
fn drafted_rows_need_a_resident_slot() {
    let mut exec =
        RealMetalExecutor::new(Some(DflashLimits { max_rows: 2, block_size: 4 }), flags());
    assert!(matches!(
        exec.check_decode_residency(&[decode_row(0, 1, 1)]),
        Err(SubmitError::NotResident { slot: 0 })
    ));
    assert!(matches!(
        exec.finish_dflash_row(0, 6),
        Err(SubmitError::NotResident { slot: 0 })
    ));
    prefilled(&mut exec, 0, vec![1, 2, 3, 4]);
    assert!(matches!(
        exec.check_decode_residency(&[decode_row(0, 9, 3)]),
        Err(SubmitError::LengthMismatch { slot: 0, plan: 3, committed: 4, state: 4 })
    ));
    assert!(exec.check_decode_residency(&[decode_row(0, 9, 4)]).is_ok());
    exec.finish_dflash_row(0, 6).unwrap();
    let state = exec.slot_state(0).unwrap();
    assert_eq!((state.cache_len, state.committed_len), (6, 6));
    assert_eq!(exec.active_session(), None);
    exec.drop_pending();
    assert_eq!(exec.pending_slot(), None);
}

#[test]
fn a_pipelined_step_is_found_again() {
    let on = ExecutorFlags { pipeline: true, ..flags() };
    let mut exec = RealMetalExecutor::new(None, on);
    prefilled(&mut exec, 0, vec![1, 2, 3, 4]);
    let host = SlotHost { seq_len: 5, epoch: 1 };
    let row = decode_row(0, 9, 4);
    let mut step = exec.submit_decode(&row, &host);
    for _ in 0..20 {
        step = match step {
            DecodeNext::Make { phase, .. } => exec.continue_decode(&row, &host, phase, true, 256),
            DecodeNext::Queued | DecodeNext::Stepped { .. } => break,
            DecodeNext::Fail { error } => panic!("refused: {error:?}"),
        };
    }
    assert_eq!(exec.pending_slot(), Some(0));
    exec.drop_pending();
    assert_eq!(exec.pending_slot(), None);
}

#[test]
fn prompts_are_matched_by_blocks_alone() {
    let exec: MetalExecutor<u64> = MetalExecutor::new();
    let blocks = [PrefixBlock::ResidentPage(3), PrefixBlock::DemotedKey(7)];
    assert_eq!(exec.reusable_prefix_blocks_for_prompt(&blocks, &[1, 2, 3]), 2);
    assert_eq!(exec.reusable_prefix_blocks_for_prompt(&[], &[1]), 0);
}

#[test]
fn drafted_steps_serve_decode_before_prompts() {
    let limits = DflashLimits { max_rows: 3, block_size: 4 };
    let mut exec = RealMetalExecutor::new(Some(limits), flags());
    let prompts = [prompt(4, vec![1, 2], true)];
    let decodes = [decode_row(0, 1, 4), decode_row(1, 1, 4)];
    assert_eq!(
        exec.submit_dflash_mixed_rows(&prompts, &decodes).unwrap(),
        vec![
            DflashWork::Admit { row: 0 },
            DflashWork::Admit { row: 1 },
            DflashWork::Residency,
            DflashWork::Ready { row: 0 },
            DflashWork::Ready { row: 1 },
            DflashWork::Block { row: 0 },
            DflashWork::Block { row: 1 },
            DflashWork::Prefill { row: 0 },
        ]
    );
    assert_eq!(
        exec.submit_dflash_prefill_rows(&prompts).unwrap(),
        vec![DflashWork::Prefill { row: 0 }]
    );
    assert_eq!(exec.submit_dflash_decode_rows(&decodes[..1]).unwrap().len(), 4);
    assert!(matches!(exec.submit_dflash_decode_rows(&[]), Err(SubmitError::Idle)));
    assert!(matches!(
        exec.submit_dflash_mixed_rows(&[prompt(4, vec![], true)], &decodes),
        Err(SubmitError::EmptyRow { slot: 4 })
    ));
    assert!(matches!(
        exec.submit_dflash_mixed_rows(&prompts, &[]),
        Err(SubmitError::Idle)
    ));
    let many = [prompt(4, vec![1], true), prompt(5, vec![1], true)];
    assert!(matches!(
        exec.submit_dflash_mixed_rows(&many, &decodes),
        Err(SubmitError::TooManyRows { got: 4, limit: 3 })
    ));
}

#[test]
fn rows_are_readied_for_their_blocks() {
    let plain = RealMetalExecutor::new(None, flags());
    assert_eq!(plain.ready_dflash_row(0), ReadyNext::Fail { error: SubmitError::NoRuntime });
    assert!(matches!(plain.open_dflash_row(0), Err(SubmitError::NoRuntime)));
    let limits = DflashLimits { max_rows: 1, block_size: 253 };
    let mut exec = RealMetalExecutor::new(Some(limits), flags());
    assert_eq!(
        exec.ready_dflash_row(0),
        ReadyNext::Fail { error: SubmitError::NotResident { slot: 0 } }
    );
    assert!(matches!(exec.open_dflash_row(0), Err(SubmitError::NotResident { slot: 0 })));
    prefilled(&mut exec, 0, vec![1, 2, 3, 4]);
    assert_eq!(
        exec.ready_dflash_row(0),
        ReadyNext::Make { phase: ReadyPhase::Grow, call: Call::Grow { to: 512 } }
    );
    assert_eq!(
        exec.continue_ready_row(0, ReadyPhase::Grow, false),
        ReadyNext::Fail { error: SubmitError::Outside }
    );
    assert_eq!(exec.slot_state(0).unwrap().capacity, 256);
    assert_eq!(exec.continue_ready_row(0, ReadyPhase::Grow, true), ReadyNext::Done);
    assert_eq!(exec.slot_state(0).unwrap().capacity, 512);
    assert_eq!(exec.ready_dflash_row(0), ReadyNext::Done);
    assert_eq!(exec.open_dflash_row(0), Ok(4));
    assert!(exec.check_decode_residency(&[decode_row(0, 9, 4)]).is_ok());
}
