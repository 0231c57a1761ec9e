//! The model configuration values that the HIP lane reads.
use vstd::prelude::*;

verus! {

/// Configuration of a DeepSeek-V4 model, as far as the host logic of the HIP
/// lane depends on it. Rates and scales that only the kernels read are not
/// part of it.
#[derive(Debug)]
pub struct DeepSeekV4Config {
    /// Compression ratio of each layer; 0 is a plain sliding window.
    pub compress_ratios: Vec<usize>,
    pub num_hidden_layers: usize,
    pub hidden_size: usize,
    pub vocab_size: usize,
    pub num_attention_heads: usize,
    pub head_dim: usize,
    pub qk_rope_head_dim: usize,
    pub q_lora_rank: usize,
    pub o_groups: usize,
    pub o_lora_rank: usize,
    pub sliding_window: usize,
    pub index_n_heads: usize,
    pub index_head_dim: usize,
    pub index_topk: usize,
    pub hc_mult: usize,
    pub hc_sinkhorn_iters: usize,
    pub moe_intermediate_size: usize,
    pub n_routed_experts: usize,
    pub n_shared_experts: usize,
    pub num_experts_per_tok: usize,
    pub num_hash_layers: usize,
    pub original_max_position_embeddings: usize,
    pub tie_word_embeddings: bool,
    pub eos_token_id: Option<u32>,
}

} // verus!
