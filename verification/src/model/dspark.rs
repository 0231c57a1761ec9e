//! Block-drafter host arithmetic: the deterministic draw stream, attention
//! windows, Markov settle logic, and the load-time tensor rearrangements.
//! bf16 values are held as raw bits.
use vstd::prelude::*;

use crate::math::{max_usize, min_usize};
#[allow(unused_imports)]
use crate::math::{max_nat, min_nat};

verus! {

/// Draw salts: draft draw, accept test and residual draw at one position are
/// independent streams.
pub const SALT_DRAW: u64 = 0;

pub const SALT_ACCEPT: u64 = 0x9E37_79B9_7F4A_7C15;

pub const SALT_RESIDUAL: u64 = 0xC2B2_AE3D_27D4_EB4F;

pub open spec fn splitmix64_spec(x: u64) -> u64 {
    let z0 = x.wrapping_add(0x9E37_79B9_7F4A_7C15);
    let z1 = (z0 ^ (z0 >> 30)).wrapping_mul(0xBF58_476D_1CE4_E5B9);
    let z2 = (z1 ^ (z1 >> 27)).wrapping_mul(0x94D0_49BB_1331_11EB);
    z2 ^ (z2 >> 31)
}

/// SplitMix64.
pub fn splitmix64(x: u64) -> (r: u64)
    ensures
        r == splitmix64_spec(x),
{
    let mut z: u64 = x.wrapping_add(0x9E37_79B9_7F4A_7C15);
    z = (z ^ (z >> 30)).wrapping_mul(0xBF58_476D_1CE4_E5B9);
    z = (z ^ (z >> 27)).wrapping_mul(0x94D0_49BB_1331_11EB);
    z ^ (z >> 31)
}

/// The draw of a stream at a position, in units of 2^-24.
pub open spec fn draw(seed: Option<u64>, salt: u64, position: u64) -> u64 {
    let s = match seed {
        Some(s) => s,
        None => 0,
    };
    splitmix64_spec(s.wrapping_add(salt).wrapping_add(position).wrapping_add(1)) >> 40
}

/// Deterministic draw from `(seed, salt, position)`: the numerator of a
/// uniform in [0, 1) over 2^24.
pub fn unit_uniform_numerator(seed: Option<u64>, salt: u64, position: u64) -> (r: u64)
    ensures
        r == draw(seed, salt, position),
        r < 0x100_0000,
{
    let s: u64 = match seed {
        Some(s) => s,
        None => 0,
    };
    let bits: u64 = splitmix64(s.wrapping_add(salt).wrapping_add(position).wrapping_add(1));
    assert((bits >> 40) < 0x100_0000) by (bit_vector);
    bits >> 40
}

/// The draft draw takes exactly the number that plain decode would take at
/// its position, and no seed is the same as seed 0.
pub proof fn draft_draw_is_plain_decode(seed: u64, position: u64)
    ensures
        draw(Some(seed), SALT_DRAW, position) == splitmix64_spec(
            seed.wrapping_add(position).wrapping_add(1),
        ) >> 40,
        draw(None, SALT_DRAW, position) == draw(Some(0), SALT_DRAW, position),
{
    assert(seed.wrapping_add(SALT_DRAW) == seed);
}

/// The lowest key position that a row at `pos` may read.
pub open spec fn window_start(sliding_window: Option<usize>, pos: int) -> int {
    match sliding_window {
        None => 0,
        Some(w) => {
            let reach = if w > 0 { w - 1 } else { 0 };
            if pos >= reach {
                pos - reach
            } else {
                0
            }
        },
    }
}

/// Lowest absolute key position a draft row at `pos` may read: a sliding
/// window keeps keys with `q_pos - k_pos < window`.
pub fn window_lo(sliding_window: Option<usize>, pos: usize) -> (lo: usize)
    ensures
        lo == window_start(sliding_window, pos as int),
        lo <= pos,
{
    match sliding_window {
        None => 0,
        Some(w) => pos.saturating_sub(w.saturating_sub(1)),
    }
}

/// With a window of at least one key, a key at or before the row is readable
/// exactly when it lies less than the window behind it.
pub proof fn window_keeps_near_keys(w: usize, pos: usize, key: int)
    requires
        w > 0,
        0 <= key <= pos,
    ensures
        key >= window_start(Some(w), pos as int) <==> pos - key < w,
{
}

/// A row's window reaches past the context ring.
#[derive(Debug, Clone, Copy, PartialEq, Eq, Structural)]
pub struct WindowTooLong {
    pub kv_len: usize,
}

/// Where the window of draft row `row` starts.
pub open spec fn row_lo(sliding_window: Option<usize>, start: int, ctx_base: int, row: int) -> int {
    let lo = window_start(sliding_window, start + row);
    if lo >= ctx_base {
        lo
    } else {
        ctx_base
    }
}

/// Keys in the window of draft row `row`.
pub open spec fn row_len(
    sliding_window: Option<usize>,
    start: int,
    block: int,
    ctx_base: int,
    row: int,
) -> int {
    start + block - row_lo(sliding_window, start, ctx_base, row)
}

/// Per-row draft attention windows of one slot: the `block` starts, then the
/// `block` lengths. Every length must fit the context ring.
pub fn draft_attention_windows(
    sliding_window: Option<usize>,
    start: usize,
    block: usize,
    ctx_base: usize,
    cap: usize,
) -> (r: Result<Vec<i32>, WindowTooLong>)
    requires
        start + block <= usize::MAX,
        2 * block <= usize::MAX,
        block > 0 ==> ctx_base <= start + block,
    ensures
        match r {
            Ok(win) => {
                &&& win@.len() == 2 * block
                &&& forall|row: int|
                    0 <= row < block ==> #[trigger] row_len(
                        sliding_window,
                        start as int,
                        block as int,
                        ctx_base as int,
                        row,
                    ) <= cap
                &&& forall|row: int|
                    0 <= row < block ==> #[trigger] win@[row] == row_lo(
                        sliding_window,
                        start as int,
                        ctx_base as int,
                        row,
                    ) as usize as i32 && win@[block + row] == row_len(
                        sliding_window,
                        start as int,
                        block as int,
                        ctx_base as int,
                        row,
                    ) as usize as i32
            },
            Err(e) => {
                &&& block > 0
                &&& e.kv_len == row_len(
                    sliding_window,
                    start as int,
                    block as int,
                    ctx_base as int,
                    0,
                )
                &&& e.kv_len > cap
            },
        },
{
    let mut los: Vec<i32> = Vec::new();
    let mut lens: Vec<i32> = Vec::new();
    let mut row: usize = 0;
    while row < block
        invariant
            row <= block,
            start + block <= usize::MAX,
            block > 0 ==> ctx_base <= start + block,
            los@.len() == row,
            lens@.len() == row,
            forall|j: int|
                0 <= j < row ==> #[trigger] row_len(
                    sliding_window,
                    start as int,
                    block as int,
                    ctx_base as int,
                    j,
                ) <= cap,
            forall|j: int|
                0 <= j < row ==> #[trigger] los@[j] == row_lo(
                    sliding_window,
                    start as int,
                    ctx_base as int,
                    j,
                ) as usize as i32 && lens@[j] == row_len(
                    sliding_window,
                    start as int,
                    block as int,
                    ctx_base as int,
                    j,
                ) as usize as i32,
        decreases block - row,
    {
        let lo: usize = max_usize(window_lo(sliding_window, start + row), ctx_base);
        let kv_len: usize = start + block - lo;
        if kv_len > cap {
            proof {
                if row > 0 {
                    assert(row_len(
                        sliding_window,
                        start as int,
                        block as int,
                        ctx_base as int,
                        0,
                    ) <= cap);
                }
            }
            return Err(WindowTooLong { kv_len });
        }
        los.push(lo as i32);
        lens.push(kv_len as i32);
        row = row + 1;
    }
    let ghost first = los@;
    let ghost second = lens@;
    los.append(&mut lens);
    proof {
        assert forall|row: int| 0 <= row < block implies #[trigger] los@[row] == row_lo(
            sliding_window,
            start as int,
            ctx_base as int,
            row,
        ) as usize as i32 && los@[block + row] == row_len(
            sliding_window,
            start as int,
            block as int,
            ctx_base as int,
            row,
        ) as usize as i32 by {
            assert(first[row] == los@[row]);
            assert(second[row] == los@[block + row]);
        }
    }
    Ok(los)
}

/// First drafted row: heads that predict their own position start at row 1.
pub fn first_row(next_token_heads: bool) -> (row: usize)
    ensures
        row == if next_token_heads { 0int } else { 1int },
{
    if next_token_heads {
        0
    } else {
        1
    }
}

/// The drafter's dimensions.
#[derive(Debug, Clone, Copy, PartialEq, Eq, Structural)]
pub struct DsparkConfig {
    pub num_attention_heads: usize,
    pub num_key_value_heads: usize,
    pub head_dim: usize,
    pub block_size: usize,
}

pub fn q_dim(cfg: &DsparkConfig) -> (n: usize)
    requires
        cfg.num_attention_heads * cfg.head_dim <= usize::MAX,
    ensures
        n == cfg.num_attention_heads * cfg.head_dim,
{
    cfg.num_attention_heads * cfg.head_dim
}

pub fn kv_dim(cfg: &DsparkConfig) -> (n: usize)
    requires
        cfg.num_key_value_heads * cfg.head_dim <= usize::MAX,
    ensures
        n == cfg.num_key_value_heads * cfg.head_dim,
{
    cfg.num_key_value_heads * cfg.head_dim
}

/// Rotary table length: the per-request token ceiling plus a block.
pub fn rope_cap(max_seq_len: usize, max_total_tokens: usize, block_size: usize) -> (n: usize)
    requires
        min_nat(max_seq_len as nat, max_nat(max_total_tokens as nat, 1)) + block_size
            <= usize::MAX,
    ensures
        n == min_nat(max_seq_len as nat, max_nat(max_total_tokens as nat, 1)) + block_size,
{
    min_usize(max_seq_len, max_usize(max_total_tokens, 1)) + block_size
}

/// Per-layer context ring rows: the window plus a block, or the whole rotary
/// table without a window.
pub fn ctx_cap(sliding_window: Option<usize>, rope_cap: usize, block_size: usize) -> (n: usize)
    requires
        sliding_window matches Some(w) ==> w + block_size <= usize::MAX,
    ensures
        n == match sliding_window {
            Some(w) => w + block_size,
            None => rope_cap as int,
        },
{
    match sliding_window {
        Some(w) => w + block_size,
        None => rope_cap,
    }
}

/// With a ring sized for the window, no draft row's window overruns it: the
/// windows of a block always come out.
pub proof fn windowed_ring_fits_every_row(
    w: usize,
    start: usize,
    block: usize,
    ctx_base: int,
    row: int,
)
    requires
        w > 0,
        0 <= row < block,
    ensures
        row_len(Some(w), start as int, block as int, ctx_base, row) <= w + block,
{
}

/// Bytes of a slot's draft state: context K/V (bf16) of every layer, and per
/// row of the block a bf16 and an f32 over the vocabulary.
pub open spec fn slot_state(cfg: DsparkConfig, cap: nat, num_layers: nat, vocab: nat) -> nat {
    2 * cap * (cfg.num_key_value_heads as nat * cfg.head_dim as nat) * num_layers * 2
        + cfg.block_size as nat * vocab * 6
}

pub fn slot_state_bytes(cfg: &DsparkConfig, cap: usize, num_layers: usize, vocab: usize) -> (n:
    usize)
    requires
        slot_state(*cfg, cap as nat, num_layers as nat, vocab as nat) <= usize::MAX,
        cfg.num_key_value_heads * cfg.head_dim <= usize::MAX,
        2 * cap <= usize::MAX,
        2 * cap * (cfg.num_key_value_heads * cfg.head_dim) <= usize::MAX,
    ensures
        n == slot_state(*cfg, cap as nat, num_layers as nat, vocab as nat),
{
    let per_head: usize = cfg.num_key_value_heads * cfg.head_dim;
    let ghost p = cfg.num_key_value_heads as nat * cfg.head_dim as nat;
    proof {
        assert(cfg.block_size as nat * vocab as nat >= 0) by (nonlinear_arith);
        assert(2 * cap as nat * p * num_layers as nat >= 0) by (nonlinear_arith);
    }
    let ctx: usize = 2 * cap * per_head * num_layers * 2;
    let draft: usize = cfg.block_size * vocab * 6;
    ctx + draft
}

pub open spec fn mode_text(
    next_token_heads: bool,
    has_markov: bool,
    has_confidence: bool,
) -> Seq<char> {
    match (next_token_heads, has_markov, has_confidence) {
        (false, false, false) => "dflash-backbone"@,
        (false, true, false) => "dspark-sp+markov"@,
        (false, false, true) => "dspark-sp+confidence"@,
        (false, true, true) => "dspark-sp+markov+confidence"@,
        (true, false, false) => "dspark-backbone"@,
        (true, true, false) => "dspark+markov"@,
        (true, false, true) => "dspark+confidence"@,
        (true, true, true) => "dspark+markov+confidence"@,
    }
}

/// Which checkpoint flavor the head is.
pub fn mode_label(next_token_heads: bool, has_markov: bool, has_confidence: bool) -> (s:
    &'static str)
    ensures
        s@ == mode_text(next_token_heads, has_markov, has_confidence),
{
    match (next_token_heads, has_markov, has_confidence) {
        (false, false, false) => "dflash-backbone",
        (false, true, false) => "dspark-sp+markov",
        (false, false, true) => "dspark-sp+confidence",
        (false, true, true) => "dspark-sp+markov+confidence",
        (true, false, false) => "dspark-backbone",
        (true, true, false) => "dspark+markov",
        (true, false, true) => "dspark+confidence",
        (true, true, true) => "dspark+markov+confidence",
    }
}

/// How a block draft resolves its rows.
#[derive(Debug, Clone, Copy, PartialEq, Eq, Structural)]
pub enum DraftRoute {
    /// Greedy: whole block in one batched argmax pass.
    Greedy,
    /// Sampled, no Markov head: per-row draws are independent.
    SampledIndependent,
    /// Sampled with a Markov head: a row depends on the draw before it.
    SampledMarkov,
}

pub fn draft_route(is_greedy: bool, has_markov: bool) -> (r: DraftRoute)
    ensures
        is_greedy ==> r is Greedy,
        !is_greedy && !has_markov ==> r is SampledIndependent,
        !is_greedy && has_markov ==> r is SampledMarkov,
{
    if is_greedy {
        DraftRoute::Greedy
    } else if has_markov {
        DraftRoute::SampledMarkov
    } else {
        DraftRoute::SampledIndependent
    }
}

/// Per-slot draft-keep lengths: what the goodput budget gave for the
/// confidence logits, and the whole block without a confidence head or
/// without rows.
pub fn confidence_keep_lengths(budgeted: Option<Vec<usize>>, b: usize, n: usize) -> (keeps: Vec<
    usize,
>)
    ensures
        budgeted is Some && n > 0 && b > 0 ==> keeps == budgeted->0,
        budgeted is None || n == 0 || b == 0 ==> keeps@ == Seq::new(
            b as nat,
            |i: int| usize::MAX,
        ),
{
    if n > 0 && b > 0 {
        if let Some(keeps) = budgeted {
            return keeps;
        }
    }
    let mut keeps: Vec<usize> = Vec::new();
    let mut i: usize = 0;
    while i < b
        invariant
            i <= b,
            keeps@ == Seq::new(i as nat, |j: int| usize::MAX),
        decreases b - i,
    {
        keeps.push(usize::MAX);
        i = i + 1;
        assert(keeps@ =~= Seq::new(i as nat, |j: int| usize::MAX));
    }
    keeps
}

/// The token that row `row` of slot `s` is conditioned on.
pub open spec fn markov_prev(
    anchors: Seq<u32>,
    toks: Seq<u32>,
    block: int,
    first_row: int,
    s: int,
    row: int,
) -> u32 {
    if row <= first_row {
        anchors[s]
    } else {
        toks[s * block + row - 1]
    }
}

/// The predecessor each row's bias depends on: the rows up to the first
/// drafted one hang on the slot's anchor, later ones on the row before.
pub fn markov_prevs(anchors: &[u32], toks: &[u32], block: usize, first_row: usize) -> (prevs: Vec<
    i32,
>)
    requires
        anchors@.len() * block <= usize::MAX,
        anchors@.len() == 0 || block <= first_row + 1 || toks@.len() + 1 >= anchors@.len()
            * block,
    ensures
        prevs@.len() == anchors@.len() * block,
        forall|s: int, row: int|
            #![trigger prevs@[s * block + row]]
            0 <= s < anchors@.len() && 0 <= row < block ==> prevs@[s * block + row]
                == markov_prev(
                anchors@,
                toks@,
                block as int,
                first_row as int,
                s,
                row,
            ) as i32,
{
    let mut prevs: Vec<i32> = Vec::new();
    let b: usize = anchors.len();
    let mut s: usize = 0;
    assert(0 * block == 0) by (nonlinear_arith);
    while s < b
        invariant
            s <= b,
            b == anchors@.len(),
            b * block <= usize::MAX,
            b == 0 || block <= first_row + 1 || toks@.len() + 1 >= b * block,
            prevs@.len() == s * block,
            forall|t: int, row: int|
                #![trigger prevs@[t * block + row]]
                0 <= t < s && 0 <= row < block ==> prevs@[t * block + row] == markov_prev(
                    anchors@,
                    toks@,
                    block as int,
                    first_row as int,
                    t,
                    row,
                ) as i32,
        decreases b - s,
    {
        let anchor: u32 = anchors[s];
        let mut row: usize = 0;
        proof {
            assert((s + 1) * block == s * block + block) by (nonlinear_arith);
            assert((s + 1) * block <= b * block) by (nonlinear_arith)
                requires
                    s + 1 <= b,
            ;
        }
        while row < block
            invariant
                row <= block,
                s < b,
                b == anchors@.len(),
                anchor == anchors@[s as int],
                b * block <= usize::MAX,
                s * block + block <= b * block,
                b == 0 || block <= first_row + 1 || toks@.len() + 1 >= b * block,
                prevs@.len() == s * block + row,
                forall|t: int, r: int|
                    #![trigger prevs@[t * block + r]]
                    0 <= t < s && 0 <= r < block ==> prevs@[t * block + r] == markov_prev(
                        anchors@,
                        toks@,
                        block as int,
                        first_row as int,
                        t,
                        r,
                    ) as i32,
                forall|r: int|
                    #![trigger prevs@[s * block + r]]
                    0 <= r < row ==> prevs@[s * block + r] == markov_prev(
                        anchors@,
                        toks@,
                        block as int,
                        first_row as int,
                        s as int,
                        r,
                    ) as i32,
            decreases block - row,
        {
            let prev: i32 = if row <= first_row {
                anchor as i32
            } else {
                let base: usize = s * block;
                toks[base + row - 1] as i32
            };
            let ghost before = prevs@;
            prevs.push(prev);
            proof {
                assert forall|t: int, r: int|
                    #![trigger prevs@[t * block + r]]
                    0 <= t < s && 0 <= r < block implies prevs@[t * block + r] == markov_prev(
                    anchors@,
                    toks@,
                    block as int,
                    first_row as int,
                    t,
                    r,
                ) as i32 by {
                    lemma_index_before(t, r, s as int, block as int);
                    assert(before[t * block + r] == prevs@[t * block + r]);
                }
                assert forall|r: int|
                    #![trigger prevs@[s * block + r]]
                    0 <= r < row + 1 implies prevs@[s * block + r] == markov_prev(
                    anchors@,
                    toks@,
                    block as int,
                    first_row as int,
                    s as int,
                    r,
                ) as i32 by {
                    if r < row {
                        assert(before[s * block + r] == prevs@[s * block + r]);
                    }
                }
            }
            row = row + 1;
        }
        proof {
            assert forall|t: int, r: int|
                #![trigger prevs@[t * block + r]]
                0 <= t < s + 1 && 0 <= r < block implies prevs@[t * block + r] == markov_prev(
                anchors@,
                toks@,
                block as int,
                first_row as int,
                t,
                r,
            ) as i32 by {
                if t == s {
                    assert(prevs@[s * block + r] == markov_prev(
                        anchors@,
                        toks@,
                        block as int,
                        first_row as int,
                        s as int,
                        r,
                    ) as i32);
                }
            }
        }
        s = s + 1;
    }
    prevs
}

proof fn lemma_index_before(t: int, r: int, s: int, block: int)
    requires
        0 <= t < s,
        0 <= r < block,
    ensures
        0 <= t * block + r < s * block,
{
    assert(0 <= t * block + r < s * block) by (nonlinear_arith)
        requires
            0 <= t,
            t + 1 <= s,
            0 <= r < block,
    ;
}

/// No row that another row's bias depends on moved.
pub open spec fn settled(
    slots: int,
    toks: Seq<u32>,
    next: Seq<u32>,
    block: int,
    first_row: int,
) -> bool {
    forall|s: int, r: int|
        #![trigger toks[s * block + r]]
        0 <= s < slots && first_row <= r < block - 1 ==> toks[s * block + r] == next[s * block
            + r]
}

/// Whether a correction moved no row that another row's bias depends on.
pub fn markov_settled(
    anchors: &[u32],
    toks: &[u32],
    next: &[u32],
    block: usize,
    first_row: usize,
) -> (b: bool)
    requires
        anchors@.len() * block <= usize::MAX,
        anchors@.len() == 0 || block <= first_row + 1 || (toks@.len() + 1 >= anchors@.len()
            * block && next@.len() + 1 >= anchors@.len() * block),
    ensures
        b == settled(
            anchors@.len() as int,
            toks@,
            next@,
            block as int,
            first_row as int,
        ),
{
    let slots: usize = anchors.len();
    let last: usize = block.saturating_sub(1);
    let mut s: usize = 0;
    while s < slots
        invariant
            s <= slots,
            slots == anchors@.len(),
            last == if block > 0 {
                block - 1
            } else {
                0
            },
            slots * block <= usize::MAX,
            slots == 0 || block <= first_row + 1 || (toks@.len() + 1 >= slots * block
                && next@.len() + 1 >= slots * block),
            settled(s as int, toks@, next@, block as int, first_row as int),
        decreases slots - s,
    {
        let mut r: usize = first_row;
        proof {
            assert((s + 1) * block == s * block + block) by (nonlinear_arith);
            assert((s + 1) * block <= slots * block) by (nonlinear_arith)
                requires
                    s + 1 <= slots,
            ;
        }
        while r < last
            invariant
                first_row <= r,
                r <= last || r == first_row,
                s < slots,
                slots == anchors@.len(),
                last == if block > 0 {
                    block - 1
                } else {
                    0
                },
                slots * block <= usize::MAX,
                s * block + block <= slots * block,
                slots == 0 || block <= first_row + 1 || (toks@.len() + 1 >= slots * block
                    && next@.len() + 1 >= slots * block),
                forall|q: int|
                    #![trigger toks@[s * block + q]]
                    first_row <= q < r ==> toks@[s * block + q] == next@[s * block + q],
            decreases last - r,
        {
            let at: usize = s * block + r;
            if toks[at] != next[at] {
                assert(toks@[s * block + r] != next@[s * block + r]);
                return false;
            }
            r = r + 1;
        }
        s = s + 1;
        proof {
            assert forall|t: int, q: int|
                #![trigger toks@[t * block + q]]
                0 <= t < s && first_row <= q < block - 1 implies toks@[t * block + q] == next@[t
                * block + q] by {
                if t == s - 1 {
                    assert(toks@[(s - 1) * block + q] == next@[(s - 1) * block + q]);
                }
            }
        }
    }
    true
}

/// A settled correction leaves every predecessor as it was: running the
/// Markov pass again would see the same conditions.
pub proof fn settled_keeps_predecessors(
    anchors: Seq<u32>,
    toks: Seq<u32>,
    next: Seq<u32>,
    block: int,
    first_row: int,
    s: int,
    row: int,
)
    requires
        settled(anchors.len() as int, toks, next, block, first_row),
        0 <= s < anchors.len(),
        0 <= row < block,
    ensures
        markov_prev(anchors, toks, block, first_row, s, row) == markov_prev(
            anchors,
            next,
            block,
            first_row,
            s,
            row,
        ),
{
    if row > first_row {
        assert(toks[s * block + (row - 1)] == next[s * block + (row - 1)]);
        assert(s * block + (row - 1) == s * block + row - 1);
    }
}

#[derive(Debug, Clone, Copy, PartialEq, Eq, Structural)]
pub enum TargetLayerError {
    Duplicate,
    OutOfRange { layer: i64 },
}

/// Whether an id names a reachable layer: -1, or one of the model's.
pub open spec fn reachable_layer(t: i64, num_layers: usize) -> bool {
    t == -1 || 0 <= t < num_layers as i64
}

/// Every id must name a reachable layer exactly once.
pub fn validate_target_layer_ids(targets: &[i64], num_layers: usize) -> (r: Result<
    (),
    TargetLayerError,
>)
    ensures
        match r {
            Ok(_) => targets@.no_duplicates() && forall|i: int|
                0 <= i < targets@.len() ==> reachable_layer(#[trigger] targets@[i], num_layers),
            Err(TargetLayerError::Duplicate) => !targets@.no_duplicates(),
            Err(TargetLayerError::OutOfRange { layer }) => targets@.no_duplicates()
                && exists|i: int|
                0 <= i < targets@.len() && #[trigger] targets@[i] == layer && !reachable_layer(
                    layer,
                    num_layers,
                ) && forall|j: int|
                    0 <= j < i ==> reachable_layer(#[trigger] targets@[j], num_layers),
        },
{
    let mut i: usize = 0;
    while i < targets.len()
        invariant
            i <= targets@.len(),
            forall|a: int, b: int| 0 <= a < b < i ==> targets@[a] != targets@[b],
        decreases targets@.len() - i,
    {
        let mut j: usize = 0;
        while j < i
            invariant
                j <= i < targets@.len(),
                forall|a: int| 0 <= a < j ==> targets@[a] != targets@[i as int],
            decreases i - j,
        {
            if targets[j] == targets[i] {
                assert(targets@[j as int] == targets@[i as int]);
                return Err(TargetLayerError::Duplicate);
            }
            j = j + 1;
        }
        i = i + 1;
    }
    let mut k: usize = 0;
    while k < targets.len()
        invariant
            k <= targets@.len(),
            targets@.no_duplicates(),
            forall|a: int| 0 <= a < k ==> reachable_layer(#[trigger] targets@[a], num_layers),
        decreases targets@.len() - k,
    {
        let t: i64 = targets[k];
        if !(t == -1 || (0 <= t && t < num_layers as i64)) {
            return Err(TargetLayerError::OutOfRange { layer: t });
        }
        k = k + 1;
    }
    Ok(())
}

/// The matrix of tap `t`: of every packed row, the `hidden` columns that
/// belong to the tap.
pub open spec fn fc_tap(fc: Seq<u16>, hidden: int, n_taps: int, t: int) -> Seq<u16> {
    Seq::new(
        (hidden * hidden) as nat,
        |i: int| fc[(i / hidden) * (n_taps * hidden) + t * hidden + i % hidden],
    )
}

/// Splits the packed `[hidden, n_taps * hidden]` weights into one `[hidden,
/// hidden]` matrix per tap.
pub fn split_fc_taps(fc_host: &[u16], hidden: usize, n_taps: usize) -> (parts: Vec<Vec<u16>>)
    requires
        hidden * (n_taps * hidden) <= fc_host@.len(),
    ensures
        parts@.len() == n_taps,
        forall|t: int|
            0 <= t < n_taps ==> #[trigger] parts@[t]@ == fc_tap(
                fc_host@,
                hidden as int,
                n_taps as int,
                t,
            ),
{
    let mut parts: Vec<Vec<u16>> = Vec::new();
    let total: usize = fc_host.len();
    let mut t: usize = 0;
    while t < n_taps
        invariant
            t <= n_taps,
            total == fc_host@.len(),
            hidden * (n_taps * hidden) <= total,
            parts@.len() == t,
            forall|u: int|
                0 <= u < t ==> #[trigger] parts@[u]@ == fc_tap(
                    fc_host@,
                    hidden as int,
                    n_taps as int,
                    u,
                ),
        decreases n_taps - t,
    {
        let mut part: Vec<u16> = Vec::new();
        let mut r: usize = 0;
        assert(0 * hidden == 0) by (nonlinear_arith);
        while r < hidden
            invariant
                r <= hidden,
                t < n_taps,
                total == fc_host@.len(),
                hidden * (n_taps * hidden) <= total,
                part@.len() == r * hidden,
                forall|i: int|
                    0 <= i < r * hidden ==> #[trigger] part@[i] == fc_host@[(i / hidden as int) * (
                    n_taps * hidden) + t * hidden + i % hidden as int],
            decreases hidden - r,
        {
            let mut c: usize = 0;
            while c < hidden
                invariant
                    c <= hidden,
                    r < hidden,
                    t < n_taps,
                    total == fc_host@.len(),
                    hidden * (n_taps * hidden) <= total,
                    part@.len() == r * hidden + c,
                    forall|i: int|
                        0 <= i < r * hidden + c ==> #[trigger] part@[i] == fc_host@[(i
                            / hidden as int) * (n_taps * hidden) + t * hidden + i % hidden as int],
                decreases hidden - c,
            {
                proof {
                    lemma_tap_index(r as int, c as int, t as int, hidden as int, n_taps as int);
                }
                let row_width: usize = n_taps * hidden;
                let at: usize = r * row_width + t * hidden + c;
                part.push(fc_host[at]);
                c = c + 1;
            }
            proof {
                assert((r + 1) * hidden == r * hidden + hidden) by (nonlinear_arith);
            }
            r = r + 1;
        }
        assert(part@ =~= fc_tap(fc_host@, hidden as int, n_taps as int, t as int));
        parts.push(part);
        t = t + 1;
    }
    parts
}

proof fn lemma_tap_index(r: int, c: int, t: int, hidden: int, n_taps: int)
    requires
        0 <= r < hidden,
        0 <= c < hidden,
        0 <= t < n_taps,
    ensures
        0 <= n_taps * hidden <= hidden * (n_taps * hidden),
        0 <= r * (n_taps * hidden),
        0 <= t * hidden,
        r * (n_taps * hidden) + t * hidden + c < hidden * (n_taps * hidden),
        (r * hidden + c) / hidden == r,
        (r * hidden + c) % hidden == c,
{
    let w = n_taps * hidden;
    assert(0 <= t * hidden && t * hidden + c < w) by (nonlinear_arith)
        requires
            0 <= t,
            t + 1 <= n_taps,
            0 <= c < hidden,
            w == n_taps * hidden,
    ;
    assert(0 <= r * w && r * w + w <= hidden * w && w <= hidden * w) by (nonlinear_arith)
        requires
            0 <= r,
            r + 1 <= hidden,
            w >= 0,
    ;
    vstd::arithmetic::div_mod::lemma_fundamental_div_mod_converse(r * hidden + c, hidden, r, c);
}

/// Every packed weight lands in exactly the place of its tap.
pub proof fn taps_hold_every_weight(
    fc: Seq<u16>,
    hidden: int,
    n_taps: int,
    r: int,
    t: int,
    c: int,
)
    requires
        0 <= r < hidden,
        0 <= c < hidden,
        0 <= t < n_taps,
    ensures
        fc_tap(fc, hidden, n_taps, t)[r * hidden + c] == fc[r * (n_taps * hidden) + t * hidden
            + c],
{
    lemma_tap_index(r, c, t, hidden, n_taps);
    assert(0 <= r * hidden + c < hidden * hidden) by (nonlinear_arith)
        requires
            0 <= r,
            r + 1 <= hidden,
            0 <= c < hidden,
    ;
}

/// A draft q projection with every head followed by a zero band of its size.
pub open spec fn gated_q(q: Seq<u16>, num_heads: int, band: int) -> Seq<u16> {
    Seq::new(
        (2 * num_heads * band) as nat,
        |i: int|
            if (i / band) % 2 == 0 {
                q[(i / band / 2) * band + i % band]
            } else {
                0
            },
    )
}

/// Gate-pads a draft q projection: head `h` lands on band `2h`, odd bands
/// are zero.
pub fn pad_gated_q(q_host: &[u16], num_heads: usize, head_dim: usize, hidden: usize) -> (out: Vec<
    u16,
>)
    requires
        num_heads * (head_dim * hidden) <= q_host@.len(),
        head_dim * hidden <= usize::MAX,
        2 * num_heads * (head_dim * hidden) <= usize::MAX,
    ensures
        out@ == gated_q(q_host@, num_heads as int, head_dim * hidden),
{
    let band: usize = head_dim * hidden;
    let total: usize = q_host.len();
    let mut out: Vec<u16> = Vec::new();
    let mut h: usize = 0;
    assert(2 * 0 * band == 0) by (nonlinear_arith);
    while h < num_heads
        invariant
            h <= num_heads,
            band == head_dim * hidden,
            total == q_host@.len(),
            num_heads * band <= total,
            out@.len() == 2 * h * band,
            forall|i: int|
                0 <= i < 2 * h * band ==> #[trigger] out@[i] == if (i / band as int) % 2 == 0 {
                    q_host@[(i / band as int / 2) * band + i % band as int]
                } else {
                    0
                },
        decreases num_heads - h,
    {
        let mut j: usize = 0;
        proof {
            assert(h * band + band <= num_heads * band && h * band >= 0) by (nonlinear_arith)
                requires
                    h + 1 <= num_heads,
                    h >= 0,
                    band >= 0,
            ;
            assert(2 * h * band == 2 * (h * band)) by (nonlinear_arith);
        }
        let src: usize = h * band;
        while j < band
            invariant
                j <= band,
                h < num_heads,
                total == q_host@.len(),
                src == h * band,
                src + band <= total,
                out@.len() == 2 * h * band + j,
                forall|i: int|
                    0 <= i < 2 * h * band + j ==> #[trigger] out@[i] == if (i / band as int) % 2
                        == 0 {
                        q_host@[(i / band as int / 2) * band + i % band as int]
                    } else {
                        0
                    },
            decreases band - j,
        {
            proof {
                vstd::arithmetic::div_mod::lemma_fundamental_div_mod_converse(
                    2 * h * band + j,
                    band as int,
                    2 * h as int,
                    j as int,
                );
            }
            out.push(q_host[src + j]);
            j = j + 1;
        }
        let mut z: usize = 0;
        while z < band
            invariant
                z <= band,
                h < num_heads,
                out@.len() == 2 * h * band + band + z,
                forall|i: int|
                    0 <= i < 2 * h * band + band + z ==> #[trigger] out@[i] == if (i
                        / band as int) % 2 == 0 {
                        q_host@[(i / band as int / 2) * band + i % band as int]
                    } else {
                        0
                    },
            decreases band - z,
        {
            proof {
                assert((2 * h + 1) * band == 2 * h * band + band) by (nonlinear_arith);
                vstd::arithmetic::div_mod::lemma_fundamental_div_mod_converse(
                    (2 * h + 1) * band + z,
                    band as int,
                    2 * h + 1,
                    z as int,
                );
            }
            out.push(0);
            z = z + 1;
        }
        proof {
            assert(2 * (h + 1) * band == 2 * h * band + band + band) by (nonlinear_arith);
        }
        h = h + 1;
    }
    assert(out@ =~= gated_q(q_host@, num_heads as int, head_dim * hidden));
    out
}

} // verus!
