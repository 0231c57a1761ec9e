//! Hybrid-attention host geometry: per-rank shard dimensions, recurrent
//! state sizes, the joint KV-budget solve, and decode routing decisions.
//! Device probes enter as plain values.
use vstd::prelude::*;

use crate::math::{max_usize, min_usize, mul_saturating, to_i32_saturating};
#[allow(unused_imports)]
use crate::math::{max_nat, min_nat, saturated_usize};

verus! {

/// This rank's per-shard head counts.
#[derive(Debug, Clone, Copy, PartialEq, Eq, Structural)]
pub struct LocalShard {
    pub q_heads: usize,
    pub kv_heads: usize,
    pub linear_k_heads: usize,
    pub linear_v_heads: usize,
}

/// The model dimensions that the geometry reads.
#[derive(Debug, Clone, Copy, PartialEq, Eq, Structural)]
pub struct Qwen35Config {
    pub head_dim: usize,
    pub linear_key_head_dim: usize,
    pub linear_value_head_dim: usize,
    pub linear_conv_kernel_dim: usize,
    pub num_hidden_layers: usize,
    pub num_full_attention_layers: usize,
}

pub fn local_full_attn_q_dim(cfg: &Qwen35Config, shard: LocalShard) -> (n: usize)
    requires
        shard.q_heads * cfg.head_dim <= usize::MAX,
    ensures
        n == shard.q_heads * cfg.head_dim,
{
    shard.q_heads * cfg.head_dim
}

/// The gated q projection interleaves query and gate, so each local head
/// contributes `2 * head_dim` rows.
pub fn local_full_attn_q_proj_dim(cfg: &Qwen35Config, shard: LocalShard) -> (n: usize)
    requires
        shard.q_heads * cfg.head_dim * 2 <= usize::MAX,
    ensures
        n == shard.q_heads * cfg.head_dim * 2,
{
    shard.q_heads * cfg.head_dim * 2
}

pub fn local_full_attn_kv_dim(cfg: &Qwen35Config, shard: LocalShard) -> (n: usize)
    requires
        shard.kv_heads * cfg.head_dim <= usize::MAX,
    ensures
        n == shard.kv_heads * cfg.head_dim,
{
    shard.kv_heads * cfg.head_dim
}

/// Width of the linear-attention projection: query and key heads, then value
/// heads.
pub open spec fn linear_qkv(cfg: Qwen35Config, shard: LocalShard) -> nat {
    2 * (shard.linear_k_heads as nat * cfg.linear_key_head_dim as nat)
        + shard.linear_v_heads as nat * cfg.linear_value_head_dim as nat
}

pub fn local_linear_qkv_dim(cfg: &Qwen35Config, shard: LocalShard) -> (n: usize)
    requires
        linear_qkv(*cfg, shard) <= usize::MAX,
        2 * shard.linear_k_heads <= usize::MAX,
    ensures
        n == linear_qkv(*cfg, shard),
{
    proof {
        let k = shard.linear_k_heads as int;
        let d = cfg.linear_key_head_dim as int;
        assert((2 * k) * d == 2 * (k * d)) by (nonlinear_arith);
        assert(shard.linear_v_heads * cfg.linear_value_head_dim >= 0) by (nonlinear_arith);
        assert(k * d >= 0) by (nonlinear_arith)
            requires
                k >= 0,
                d >= 0,
        ;
    }
    let qk: usize = 2 * shard.linear_k_heads * cfg.linear_key_head_dim;
    qk + shard.linear_v_heads * cfg.linear_value_head_dim
}

pub fn local_linear_z_dim(cfg: &Qwen35Config, shard: LocalShard) -> (n: usize)
    requires
        shard.linear_v_heads * cfg.linear_value_head_dim <= usize::MAX,
    ensures
        n == shard.linear_v_heads * cfg.linear_value_head_dim,
{
    shard.linear_v_heads * cfg.linear_value_head_dim
}

pub open spec fn cp_divides(cp_size: usize, shard: LocalShard) -> bool {
    &&& shard.q_heads % cp_size == 0
    &&& shard.kv_heads % cp_size == 0
    &&& shard.linear_k_heads % cp_size == 0
    &&& shard.linear_v_heads % cp_size == 0
}

/// Whether the group can divide every attention head count evenly; decode
/// runs replicated otherwise.
pub fn cp_decode_possible(cp_size: usize, shard: LocalShard) -> (b: bool)
    ensures
        b == (cp_size > 1 && cp_divides(cp_size, shard)),
{
    cp_size > 1 && shard.q_heads % cp_size == 0 && shard.kv_heads % cp_size == 0
        && shard.linear_k_heads % cp_size == 0 && shard.linear_v_heads % cp_size == 0
}

pub fn decode_q_heads(shard: LocalShard, cp_size: usize) -> (n: usize)
    requires
        cp_size > 0,
    ensures
        n == shard.q_heads / cp_size,
{
    shard.q_heads / cp_size
}

pub fn decode_kv_heads(shard: LocalShard, cp_size: usize) -> (n: usize)
    requires
        cp_size > 0,
    ensures
        n == shard.kv_heads / cp_size,
{
    shard.kv_heads / cp_size
}

pub fn decode_linear_k_heads(shard: LocalShard, cp_size: usize) -> (n: usize)
    requires
        cp_size > 0,
    ensures
        n == shard.linear_k_heads / cp_size,
{
    shard.linear_k_heads / cp_size
}

pub fn decode_linear_v_heads(shard: LocalShard, cp_size: usize) -> (n: usize)
    requires
        cp_size > 0,
    ensures
        n == shard.linear_v_heads / cp_size,
{
    shard.linear_v_heads / cp_size
}

/// Where decode can be divided, the ranks' heads add up to the shard's: no
/// head is lost or counted twice.
pub proof fn divided_heads_add_up(shard: LocalShard, cp_size: usize)
    requires
        cp_size > 1,
        cp_divides(cp_size, shard),
    ensures
        cp_size * (shard.q_heads / cp_size) == shard.q_heads,
        cp_size * (shard.kv_heads / cp_size) == shard.kv_heads,
        cp_size * (shard.linear_k_heads / cp_size) == shard.linear_k_heads,
        cp_size * (shard.linear_v_heads / cp_size) == shard.linear_v_heads,
{
    let c = cp_size as int;
    vstd::arithmetic::div_mod::lemma_fundamental_div_mod(shard.q_heads as int, c);
    vstd::arithmetic::div_mod::lemma_fundamental_div_mod(shard.kv_heads as int, c);
    vstd::arithmetic::div_mod::lemma_fundamental_div_mod(shard.linear_k_heads as int, c);
    vstd::arithmetic::div_mod::lemma_fundamental_div_mod(shard.linear_v_heads as int, c);
}

/// Values of a layer's gated-delta state.
pub open spec fn gdr_len(cfg: Qwen35Config, shard: LocalShard) -> nat {
    shard.linear_v_heads as nat * cfg.linear_key_head_dim as nat
        * cfg.linear_value_head_dim as nat
}

/// Values of a layer's convolution state.
pub open spec fn conv_len(cfg: Qwen35Config, shard: LocalShard) -> nat {
    linear_qkv(cfg, shard) * (cfg.linear_conv_kernel_dim - 1) as nat
}

/// Layer counts and state lengths are sensible and fit.
pub open spec fn recurrent_fits(cfg: Qwen35Config, shard: LocalShard) -> bool {
    &&& cfg.num_full_attention_layers <= cfg.num_hidden_layers
    &&& cfg.linear_conv_kernel_dim >= 1
    &&& 2 * shard.linear_k_heads <= usize::MAX
    &&& linear_qkv(cfg, shard) <= usize::MAX
    &&& shard.linear_v_heads * cfg.linear_key_head_dim <= usize::MAX
    &&& gdr_len(cfg, shard) <= usize::MAX
    &&& conv_len(cfg, shard) <= usize::MAX
}

/// Linear-attention layers, and the gated-delta and convolution state lengths
/// of one of them on this rank.
pub fn recurrent_dims(cfg: &Qwen35Config, shard: LocalShard) -> (r: (usize, usize, usize))
    requires
        recurrent_fits(*cfg, shard),
    ensures
        r.0 == cfg.num_hidden_layers - cfg.num_full_attention_layers,
        r.1 == gdr_len(*cfg, shard),
        r.2 == conv_len(*cfg, shard),
{
    let num_linear: usize = cfg.num_hidden_layers - cfg.num_full_attention_layers;
    let gdr: usize = shard.linear_v_heads * cfg.linear_key_head_dim * cfg.linear_value_head_dim;
    let conv: usize = local_linear_qkv_dim(cfg, shard) * (cfg.linear_conv_kernel_dim - 1);
    (num_linear, gdr, conv)
}

/// The same for one of `cp_size` ranks that divide the heads.
pub fn recurrent_dims_decode(cfg: &Qwen35Config, shard: LocalShard, cp_size: usize) -> (r: (
    usize,
    usize,
    usize,
))
    requires
        recurrent_fits(*cfg, shard),
        cp_size > 0,
    ensures
        r.0 == cfg.num_hidden_layers - cfg.num_full_attention_layers,
        r.1 == gdr_len(*cfg, shard) / cp_size as nat,
        r.2 == conv_len(*cfg, shard) / cp_size as nat,
{
    let (num_linear, gdr, conv) = recurrent_dims(cfg, shard);
    (num_linear, gdr / cp_size, conv / cp_size)
}

/// Where the group divides the heads, each rank's state is exactly its share:
/// the shares of all ranks add up to the whole state.
pub proof fn divided_state_adds_up(cfg: Qwen35Config, shard: LocalShard, cp_size: usize)
    requires
        cp_size > 1,
        cp_divides(cp_size, shard),
        cfg.linear_conv_kernel_dim >= 1,
    ensures
        cp_size * (gdr_len(cfg, shard) / cp_size as nat) == gdr_len(cfg, shard),
        cp_size * (conv_len(cfg, shard) / cp_size as nat) == conv_len(cfg, shard),
{
    let c = cp_size as int;
    let qk = shard.linear_k_heads as int / c;
    let qv = shard.linear_v_heads as int / c;
    let kd = cfg.linear_key_head_dim as int;
    let vd = cfg.linear_value_head_dim as int;
    let ker = cfg.linear_conv_kernel_dim - 1;
    vstd::arithmetic::div_mod::lemma_fundamental_div_mod(shard.linear_k_heads as int, c);
    vstd::arithmetic::div_mod::lemma_fundamental_div_mod(shard.linear_v_heads as int, c);
    assert(gdr_len(cfg, shard) == c * (qv * kd * vd)) by (nonlinear_arith)
        requires
            shard.linear_v_heads == c * qv,
            gdr_len(cfg, shard) == shard.linear_v_heads * kd * vd,
    ;
    let part = 2 * (qk * kd) + qv * vd;
    let share = part * ker;
    assert((c * qk) * kd == c * (qk * kd)) by (nonlinear_arith);
    assert((c * qv) * vd == c * (qv * vd)) by (nonlinear_arith);
    assert(c * part == 2 * (c * (qk * kd)) + c * (qv * vd)) by (nonlinear_arith)
        requires
            part == 2 * (qk * kd) + qv * vd,
    ;
    assert(linear_qkv(cfg, shard) == c * part);
    assert((c * part) * ker == c * (part * ker)) by (nonlinear_arith);
    assert(conv_len(cfg, shard) == c * share);
    vstd::arithmetic::div_mod::lemma_div_multiples_vanish(qv * kd * vd, c);
    vstd::arithmetic::div_mod::lemma_div_multiples_vanish(share, c);
    assert(c * (qv * kd * vd) == (qv * kd * vd) * c) by (nonlinear_arith);
    assert(c * share == share * c) by (nonlinear_arith);
}

/// Bytes of one layer's gated-delta (f32) and convolution (bf16) state.
pub fn linear_state_bytes(cfg: &Qwen35Config, shard: LocalShard) -> (r: (usize, usize))
    requires
        recurrent_fits(*cfg, shard),
        gdr_len(*cfg, shard) * 4 <= usize::MAX,
        conv_len(*cfg, shard) * 2 <= usize::MAX,
    ensures
        r.0 == gdr_len(*cfg, shard) * 4,
        r.1 == conv_len(*cfg, shard) * 2,
{
    let (_, gdr, conv) = recurrent_dims(cfg, shard);
    (gdr * 4, conv * 2)
}

/// Bytes per slot: all recurrent state; full-attention K/V is paged and
/// counts nothing. Returns the sum, 0, and its two parts, saturating.
pub fn per_slot_kv_bytes(cfg: &Qwen35Config, shard: LocalShard) -> (r: (
    usize,
    usize,
    usize,
    usize,
))
    requires
        recurrent_fits(*cfg, shard),
    ensures
        ({
            let layers = (cfg.num_hidden_layers - cfg.num_full_attention_layers) as nat;
            let gdr = saturated_usize(saturated_usize(layers * gdr_len(*cfg, shard)) * 4);
            let conv = saturated_usize(saturated_usize(layers * conv_len(*cfg, shard)) * 2);
            &&& r.0 == saturated_usize(gdr + conv)
            &&& r.1 == 0
            &&& r.2 == gdr
            &&& r.3 == conv
        }),
{
    let (num_linear, gdr, conv) = recurrent_dims(cfg, shard);
    let gdr_bytes: usize = mul_saturating(mul_saturating(num_linear, gdr), 4);
    let conv_bytes: usize = mul_saturating(mul_saturating(num_linear, conv), 2);
    (gdr_bytes.saturating_add(conv_bytes), 0, gdr_bytes, conv_bytes)
}

/// What the decode-graph gate reads of an expert configuration.
#[derive(Debug, Clone, Copy, PartialEq, Eq, Structural)]
pub struct MoeConfig {
    /// The device can route without the host.
    pub device_route_eligible: bool,
    pub top_k: usize,
}

/// Whether a one-token expert step is a pure device sequence.
pub fn moe_decode_graph_capturable(cfg: &MoeConfig, min_routes: usize) -> (b: bool)
    ensures
        b == (cfg.device_route_eligible && cfg.top_k < min_routes),
{
    cfg.device_route_eligible && cfg.top_k < min_routes
}

pub open spec fn graph_refusal(
    has_moe: bool,
    moe: Option<MoeConfig>,
    min_routes: usize,
) -> Option<Seq<char>> {
    if !has_moe {
        None
    } else {
        match moe {
            None => Some("MoE layers present but no moe_config"@),
            Some(cfg) => if cfg.device_route_eligible && cfg.top_k < min_routes {
                None
            } else {
                Some(
                    "MoE decode is not device-routable (host router fallback active — non-greedy/grouped routing)"@,
                )
            },
        }
    }
}

/// Why a decode step cannot run as a captured graph, if anything.
pub fn decode_graph_unsupported_reason(
    has_moe: bool,
    moe: Option<&MoeConfig>,
    min_routes: usize,
) -> (r: Option<&'static str>)
    ensures
        match graph_refusal(
            has_moe,
            match moe {
                Some(cfg) => Some(*cfg),
                None => None,
            },
            min_routes,
        ) {
            Some(text) => r is Some && r->0@ == text,
            None => r is None,
        },
{
    if !has_moe {
        return None;
    }
    let cfg = match moe {
        Some(cfg) => cfg,
        None => {
            return Some("MoE layers present but no moe_config");
        },
    };
    if !moe_decode_graph_capturable(cfg, min_routes) {
        return Some(
            "MoE decode is not device-routable (host router fallback active — non-greedy/grouped routing)",
        );
    }
    None
}

/// Free bytes left when `n` slots took what each is granted.
pub open spec fn free_after_slots(free: nat, per_slot: nat, attn_ws_per_slot: nat, n: nat) -> nat {
    let granted = saturated_usize(per_slot + attn_ws_per_slot);
    let taken = saturated_usize(granted * n);
    if free >= taken {
        (free - taken) as nat
    } else {
        0
    }
}

pub fn pool_free_bytes(free: usize, per_slot: usize, attn_ws_per_slot: usize, n: usize) -> (bytes:
    u64)
    ensures
        bytes == free_after_slots(
            free as nat,
            per_slot as nat,
            attn_ws_per_slot as nat,
            n as nat,
        ),
{
    let granted: usize = per_slot.saturating_add(attn_ws_per_slot);
    (free as u64).saturating_sub(mul_saturating(granted, n) as u64)
}

/// The most slots that are requested and affordable.
pub open spec fn slot_ceiling(requested: nat, affordable: Option<usize>) -> nat {
    min_nat(
        max_nat(requested, 1),
        match affordable {
            Some(n) => n as nat,
            None => usize::MAX as nat,
        },
    )
}

/// A pool that profiles to `pool_tokens(remaining)` leaves a full-length
/// request unfunded.
pub open spec fn unfunded<F: Fn(u64) -> u64>(
    pool_tokens: F,
    remaining: nat,
    max_seq_len: usize,
) -> bool {
    exists|t: u64| #[trigger]
        call_ensures(pool_tokens, (remaining as u64,), t) && t < max_seq_len
}

pub open spec fn funded<F: Fn(u64) -> u64>(
    pool_tokens: F,
    remaining: nat,
    max_seq_len: usize,
) -> bool {
    exists|t: u64| #[trigger]
        call_ensures(pool_tokens, (remaining as u64,), t) && t >= max_seq_len
}

/// A count of slots up to `top` is where the scan ends: it is one or leaves a
/// full-length request funded, and no larger count does.
pub open spec fn settles<F: Fn(u64) -> u64>(
    pool_tokens: F,
    free: usize,
    per_slot: usize,
    attn_ws_per_slot: usize,
    max_seq_len: usize,
    top: nat,
    n: nat,
) -> bool {
    &&& n > 1 ==> funded(
        pool_tokens,
        free_after_slots(free as nat, per_slot as nat, attn_ws_per_slot as nat, n),
        max_seq_len,
    )
    &&& forall|m: nat|
        n < m <= top ==> unfunded(
            pool_tokens,
            #[trigger] free_after_slots(
                free as nat,
                per_slot as nat,
                attn_ws_per_slot as nat,
                m,
            ),
            max_seq_len,
        )
}

/// The first phase of the KV budget: the largest affordable slot count whose
/// pool remainder still funds one full-length request, scanning down; one
/// slot is the floor unless none is affordable. `probe` is the measured free
/// memory, `affordable` what the slot grants allow of it, and `pool_tokens`
/// the tokens that a remainder profiles to. Without a probe the rank does not
/// bind the others: `i32::MAX`.
pub fn kv_slot_budget_local<F: Fn(u64) -> u64>(
    probe: Option<usize>,
    per_slot: usize,
    attn_ws_per_slot: usize,
    requested: usize,
    max_seq_len: usize,
    affordable: Option<usize>,
    pool_tokens: F,
) -> (r: i32)
    requires
        forall|x: u64| call_requires(pool_tokens, (x,)),
    ensures
        match probe {
            None => r == i32::MAX,
            Some(free) => {
                let top = slot_ceiling(requested as nat, affordable);
                if affordable == Some(0usize) {
                    r == 0
                } else if top <= i32::MAX || r < i32::MAX {
                    1 <= r <= top && settles(
                        pool_tokens,
                        free,
                        per_slot,
                        attn_ws_per_slot,
                        max_seq_len,
                        top,
                        r as nat,
                    )
                } else {
                    exists|n: nat|
                        i32::MAX <= n <= top && #[trigger] settles(
                            pool_tokens,
                            free,
                            per_slot,
                            attn_ws_per_slot,
                            max_seq_len,
                            top,
                            n,
                        )
                }
            },
        },
{
    let free: usize = match probe {
        Some(free) => free,
        None => {
            return i32::MAX;
        },
    };
    let limit: usize = match affordable {
        Some(n) => n,
        None => usize::MAX,
    };
    let mut n: usize = min_usize(max_usize(requested, 1), limit);
    let ghost top = n as nat;
    while n > 1
        invariant_except_break
            n <= top,
            top == slot_ceiling(requested as nat, affordable),
            n >= 1 || affordable == Some(0usize),
            forall|x: u64| call_requires(pool_tokens, (x,)),
            forall|m: nat|
                n < m <= top ==> unfunded(
                    pool_tokens,
                    #[trigger] free_after_slots(
                        free as nat,
                        per_slot as nat,
                        attn_ws_per_slot as nat,
                        m,
                    ),
                    max_seq_len,
                ),
        ensures
            n <= top,
            n >= 1 || affordable == Some(0usize),
            n > 1 ==> funded(
                pool_tokens,
                free_after_slots(
                    free as nat,
                    per_slot as nat,
                    attn_ws_per_slot as nat,
                    n as nat,
                ),
                max_seq_len,
            ),
            forall|m: nat|
                n < m <= top ==> unfunded(
                    pool_tokens,
                    #[trigger] free_after_slots(
                        free as nat,
                        per_slot as nat,
                        attn_ws_per_slot as nat,
                        m,
                    ),
                    max_seq_len,
                ),
        decreases n,
    {
        let remaining: u64 = pool_free_bytes(free, per_slot, attn_ws_per_slot, n);
        let tokens: u64 = pool_tokens(remaining);
        let ghost left = free_after_slots(
            free as nat,
            per_slot as nat,
            attn_ws_per_slot as nat,
            n as nat,
        );
        assert(left as u64 == remaining);
        assert(call_ensures(pool_tokens, (left as u64,), tokens));
        if tokens >= max_seq_len as u64 {
            break;
        }
        n = n - 1;
    }
    if limit == 0 {
        return 0;
    }
    assert(settles(
        pool_tokens,
        free,
        per_slot,
        attn_ws_per_slot,
        max_seq_len,
        top,
        n as nat,
    ));
    to_i32_saturating(n)
}

pub open spec fn to_i32(n: nat) -> int {
    if n > i32::MAX {
        i32::MAX as int
    } else {
        n as int
    }
}

/// The second phase: pages of the shared pool, from the tokens that the free
/// memory profiles to; at least one. Without a probe: `i32::MAX`.
pub fn kv_pool_pages_local(profiled_tokens: Option<u64>, page_size: usize) -> (r: i32)
    requires
        page_size > 0,
        profiled_tokens matches Some(t) ==> t / page_size as u64 <= usize::MAX,
    ensures
        match profiled_tokens {
            None => r == i32::MAX,
            Some(tokens) => r == to_i32(max_nat(tokens as nat / page_size as nat, 1)),
        },
{
    match profiled_tokens {
        None => i32::MAX,
        Some(tokens) => {
            let pages: u64 = tokens / page_size as u64;
            to_i32_saturating(max_usize(pages as usize, 1))
        },
    }
}

/// The reduced page count as planned: when every rank's probe failed, the
/// requested floor.
pub fn finalize_pool_pages(reduced: usize, requested_pages: usize) -> (n: usize)
    ensures
        n == if reduced == i32::MAX {
            requested_pages
        } else {
            reduced
        },
{
    if reduced == i32::MAX as usize {
        requested_pages
    } else {
        reduced
    }
}

} // verus!
