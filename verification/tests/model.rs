use agent_infer::model::dspark::{
    confidence_keep_lengths, ctx_cap, draft_attention_windows, draft_route, first_row, kv_dim,
    markov_prevs, markov_settled, mode_label, pad_gated_q, q_dim, rope_cap, slot_state_bytes,
    splitmix64, split_fc_taps, unit_uniform_numerator, validate_target_layer_ids, window_lo,
    DraftRoute, DsparkConfig, TargetLayerError, SALT_ACCEPT, SALT_DRAW,
};
use agent_infer::model::qwen35::{
    cp_decode_possible, decode_graph_unsupported_reason, decode_kv_heads, decode_linear_k_heads,
    decode_linear_v_heads, decode_q_heads, finalize_pool_pages, kv_pool_pages_local,
    kv_slot_budget_local, linear_state_bytes, local_full_attn_kv_dim, local_full_attn_q_dim,
    local_full_attn_q_proj_dim, local_linear_qkv_dim, local_linear_z_dim, per_slot_kv_bytes,
    pool_free_bytes, recurrent_dims, recurrent_dims_decode, LocalShard, MoeConfig, Qwen35Config,
};
use half::bf16;

fn unit_uniform(seed: Option<u64>, salt: u64, position: u64) -> f64 {
    unit_uniform_numerator(seed, salt, position) as f64 / (1u64 << 24) as f64
}

fn dspark_cfg() -> DsparkConfig {
    DsparkConfig { num_attention_heads: 4, num_key_value_heads: 2, head_dim: 2, block_size: 4 }
}

#[test]
fn rng_deterministic_and_bounded() {
    assert_eq!(unit_uniform(Some(42), SALT_DRAW, 7), unit_uniform(Some(42), SALT_DRAW, 7));
    for seed in [None, Some(0), Some(12345)] {
        for pos in 0..32 {
            let u = unit_uniform(seed, SALT_ACCEPT, pos);
            assert!((0.0..1.0).contains(&u));
        }
    }
    assert_ne!(unit_uniform(Some(1), SALT_DRAW, 0), unit_uniform(Some(1), SALT_ACCEPT, 0));
}

#[test]
fn splitmix_gives_its_known_stream() {
    assert_eq!(splitmix64(0), 0xE220_A839_7B1D_CDAF);
}

#[test]
fn window_math() {
    assert_eq!(window_lo(None, 100), 0);
    assert_eq!(window_lo(Some(128), 200), 73);
    assert_eq!(window_lo(Some(128), 50), 0);
    let win = draft_attention_windows(Some(64), 100, 4, 10, 128).unwrap();
    assert_eq!(&win[..4], &[37, 38, 39, 40]);
    assert_eq!(&win[4..], &[67, 66, 65, 64]);
    assert!(draft_attention_windows(None, 100, 4, 0, 8).is_err());
}

#[test]
fn caps_and_bytes() {
    assert_eq!(rope_cap(32768, 8192, 16), 8208);
    assert_eq!(rope_cap(32768, 0, 16), 17);
    assert_eq!(ctx_cap(None, 100, 16), 100);
    assert_eq!(ctx_cap(Some(64), 100, 16), 80);
    let cfg = dspark_cfg();
    assert_eq!(q_dim(&cfg), 8);
    assert_eq!(kv_dim(&cfg), 4);
    let bytes = slot_state_bytes(&cfg, 80, 2, 128000);
    assert_eq!(bytes, 2 * 80 * 4 * 2 * 2 + 4 * 128000 * (2 + 4));
}

#[test]
fn confidence_keeps() {
    assert_eq!(confidence_keep_lengths(None, 3, 4), vec![usize::MAX; 3]);
    assert_eq!(confidence_keep_lengths(Some(vec![1]), 0, 1), Vec::<usize>::new());
    assert_eq!(confidence_keep_lengths(Some(vec![4, 4]), 2, 4), vec![4, 4]);
    assert_eq!(confidence_keep_lengths(Some(vec![0, 0]), 2, 4), vec![0, 0]);
}

#[test]
fn markov() {
    let anchors = [9u32, 19];
    let toks = [1, 2, 3, 4, 11, 12, 13, 14];
    let prevs = markov_prevs(&anchors, &toks, 4, 1);
    assert_eq!(&prevs[..4], &[9, 9, 2, 3]);
    assert_eq!(&prevs[4..], &[19, 19, 12, 13]);
    assert!(markov_settled(&anchors, &toks, &toks, 4, 1));
    let mut next = toks;
    next[7] ^= 1;
    assert!(markov_settled(&anchors, &toks, &next, 4, 1));
    next[5] ^= 1;
    assert!(!markov_settled(&anchors, &toks, &next, 4, 1));
}

#[test]
fn route_and_label() {
    assert_eq!(draft_route(true, true), DraftRoute::Greedy);
    assert_eq!(draft_route(false, false), DraftRoute::SampledIndependent);
    assert_eq!(draft_route(false, true), DraftRoute::SampledMarkov);
    assert_eq!(mode_label(true, true, true), "dspark+markov+confidence");
    assert_eq!(mode_label(false, false, false), "dflash-backbone");
    assert_eq!(first_row(false), 1);
    assert_eq!(first_row(true), 0);
}

#[test]
fn target_layer_validation() {
    assert!(validate_target_layer_ids(&[-1, 0, 3], 4).is_ok());
    assert!(validate_target_layer_ids(&[0, 0], 4).is_err());
    assert!(validate_target_layer_ids(&[4], 4).is_err());
    assert!(validate_target_layer_ids(&[-2], 4).is_err());
}

#[test]
fn target_layer_faults_are_told_apart() {
    assert!(matches!(validate_target_layer_ids(&[1, 1], 4), Err(TargetLayerError::Duplicate)));
    assert!(matches!(
        validate_target_layer_ids(&[9], 4),
        Err(TargetLayerError::OutOfRange { layer: 9 })
    ));
}

#[test]
fn fc_split_and_q_pad() {
    let fc: Vec<u16> = (0..32u32).map(|i| bf16::from_f32(i as f32).to_bits()).collect();
    let parts = split_fc_taps(&fc, 4, 2);
    assert_eq!(parts.len(), 2);
    assert_eq!(parts[0].len(), 16);
    assert_eq!(bf16::from_bits(parts[0][0]).to_f32(), 0.0);
    assert_eq!(bf16::from_bits(parts[0][4]).to_f32(), 8.0);
    assert_eq!(bf16::from_bits(parts[1][0]).to_f32(), 4.0);
    let q: Vec<u16> = (0..8u32).map(|i| bf16::from_f32(i as f32).to_bits()).collect();
    let padded = pad_gated_q(&q, 2, 2, 2);
    assert_eq!(padded.len(), 16);
    assert_eq!(bf16::from_bits(padded[0]).to_f32(), 0.0);
    assert_eq!(bf16::from_bits(padded[4]).to_f32(), 0.0);
    assert_eq!(bf16::from_bits(padded[8]).to_f32(), 4.0);
}

fn shard() -> LocalShard {
    LocalShard { q_heads: 16, kv_heads: 8, linear_k_heads: 4, linear_v_heads: 4 }
}

#[test]
fn cp_decode_possible_divisibility() {
    let shard = shard();
    assert!(!cp_decode_possible(1, shard));
    assert!(cp_decode_possible(4, shard));
    assert!(!cp_decode_possible(3, shard));
    assert!(!cp_decode_possible(8, shard));
}

#[test]
fn decode_heads_divide_by_cp() {
    let shard = shard();
    assert_eq!(decode_q_heads(shard, 4), 4);
    assert_eq!(decode_kv_heads(shard, 4), 2);
    assert_eq!(decode_linear_v_heads(shard, 4), 1);
}

#[test]
fn linear_key_heads_divide_too() {
    assert_eq!(decode_linear_k_heads(shard(), 2), 2);
}

/// Tokens of a remainder of which a tenth of a million bytes is kept back, at
/// one byte per token.
fn tokens_of(remaining: u64) -> u64 {
    remaining.saturating_sub(100_000)
}

#[test]
fn kv_slot_budget_joint_solve() {
    let n = kv_slot_budget_local(Some(1_000_000), 10_000, 0, 80, 300_000, Some(70), tokens_of);
    assert_eq!(n, 60);
    assert_eq!(kv_slot_budget_local(None, 1, 0, 1, 1, None, tokens_of), i32::MAX);
    assert_eq!(kv_slot_budget_local(Some(1024), 1 << 30, 0, 1, 1, Some(0), tokens_of), 0);
}

#[test]
fn kv_slot_budget_charges_fa3_workspace_per_slot() {
    let n = kv_slot_budget_local(Some(1_000_000), 10_000, 2_000, 80, 300_000, Some(58), tokens_of);
    assert_eq!(n, 50);
}

#[test]
fn kv_pool_pages_and_finalize() {
    let pages = kv_pool_pages_local(Some(123_456), 128);
    assert!(pages > 0 && pages != i32::MAX);
    assert_eq!(pages, 964);
    assert_eq!(kv_pool_pages_local(None, 128), i32::MAX);
    assert_eq!(finalize_pool_pages(i32::MAX as usize, 4096), 4096);
    assert_eq!(finalize_pool_pages(123, 4096), 123);
}

#[test]
fn decode_graph_reason() {
    assert_eq!(decode_graph_unsupported_reason(false, None, 1024), None);
    assert_eq!(
        decode_graph_unsupported_reason(true, None, 1024),
        Some("MoE layers present but no moe_config")
    );
    let capturable = MoeConfig { device_route_eligible: true, top_k: 8 };
    assert_eq!(decode_graph_unsupported_reason(true, Some(&capturable), 1024), None);
    assert!(decode_graph_unsupported_reason(true, Some(&capturable), 8).is_some());
}

#[test]
fn local_widths_and_state_sizes() {
    let cfg = Qwen35Config {
        head_dim: 128,
        linear_key_head_dim: 64,
        linear_value_head_dim: 32,
        linear_conv_kernel_dim: 4,
        num_hidden_layers: 4,
        num_full_attention_layers: 1,
    };
    let s = shard();
    assert_eq!(local_full_attn_q_dim(&cfg, s), 2048);
    assert_eq!(local_full_attn_q_proj_dim(&cfg, s), 4096);
    assert_eq!(local_full_attn_kv_dim(&cfg, s), 1024);
    assert_eq!(local_linear_qkv_dim(&cfg, s), 2 * 4 * 64 + 4 * 32);
    assert_eq!(local_linear_z_dim(&cfg, s), 4 * 32);
    let whole = recurrent_dims(&cfg, s);
    let quarter = recurrent_dims_decode(&cfg, s, 4);
    assert_eq!(whole.1, 4 * quarter.1);
    let (state, conv) = linear_state_bytes(&cfg, s);
    assert!(state > 0 && conv > 0);
    let (a, _, _, _) = per_slot_kv_bytes(&cfg, s);
    assert!(a > 0);
    assert_eq!(pool_free_bytes(1000, 10, 5, 4), 940);
}
