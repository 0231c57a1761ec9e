//! Speculative decode: which drafts fit a target, how a draft block is made
//! up, and what of it the target's verdict leaves standing.
use vstd::prelude::*;

use crate::math::{max_usize, mul_saturating};
#[allow(unused_imports)]
use crate::math::{max_nat, saturated_usize};

verus! {

/// Tokens at the front of the draft cache that never leave it.
pub const DRAFT_CACHE_SINK_SIZE: i32 = 64;

/// Most recent tokens that the draft cache keeps.
pub const DRAFT_CACHE_WINDOW_SIZE: i32 = 1024;

/// The most tokens that a draft state can be made for.
pub const MAX_DRAFT_TOKENS: usize = 0x7fff_fe00;

/// The two draft heads.
#[derive(Debug, Clone, Copy, PartialEq, Eq, Structural)]
pub enum DraftKind {
    /// One parallel forward over a masked block; shares the target's
    /// attention widths.
    DFlashEagle,
    /// One forward per token, with an attention of its own.
    Qwen35Mtp,
}

/// Why options for speculative decode are refused.
#[derive(Debug, Clone, Copy, PartialEq, Eq, Structural)]
pub enum OptionsError {
    NoDraftModel,
    TooFewTokens { got: usize },
    NoRows,
}

/// Checks options. `draft_model_blank` tells whether the name is blank.
pub fn validate_options(
    draft_model_blank: bool,
    speculative_tokens: Option<usize>,
    max_rows: usize,
) -> (r: Result<(), OptionsError>)
    ensures
        r == if draft_model_blank {
            Err::<(), OptionsError>(OptionsError::NoDraftModel)
        } else if speculative_tokens is Some && speculative_tokens->0 < 2 {
            Err(OptionsError::TooFewTokens { got: speculative_tokens->0 })
        } else if max_rows < 1 {
            Err(OptionsError::NoRows)
        } else {
            Ok(())
        },
{
    if draft_model_blank {
        return Err(OptionsError::NoDraftModel);
    }
    match speculative_tokens {
        Some(got) => {
            if got < 2 {
                return Err(OptionsError::TooFewTokens { got });
            }
        },
        None => {},
    }
    if max_rows < 1 {
        return Err(OptionsError::NoRows);
    }
    Ok(())
}

/// The block size to run: what was asked for, within `[2, default]`, where the
/// draft's own size, at least 2, is the default.
pub open spec fn block_size_for(own: nat, asked: Option<usize>) -> nat {
    let default = max_nat(own, 2);
    match asked {
        None => default,
        Some(n) => if n < 2 {
            2
        } else if n > default {
            default
        } else {
            n as nat
        },
    }
}

pub fn choose_block_size(own: usize, asked: Option<usize>) -> (n: usize)
    ensures
        n == block_size_for(own as nat, asked),
        2 <= n,
        n <= own || n == 2,
{
    let default: usize = max_usize(own, 2);
    match asked {
        None => default,
        Some(n) => if n < 2 {
            2
        } else if n > default {
            default
        } else {
            n
        },
    }
}

/// Attention widths and depth of a target or a draft.
#[derive(Debug, Clone, Copy, PartialEq, Eq, Structural)]
pub struct ModelDims {
    pub hidden_size: usize,
    pub num_hidden_layers: usize,
    pub num_attention_heads: usize,
    pub num_key_value_heads: usize,
    pub head_dim: usize,
}

/// A draft head, as its configuration describes it.
#[derive(Debug)]
pub struct DFlashDraftConfig {
    pub draft_kind: DraftKind,
    pub dims: ModelDims,
    pub rotary_dim: usize,
    pub attn_output_gate: bool,
    pub block_size: usize,
    pub mask_token_id: u32,
    pub target_layer_ids: Vec<usize>,
}

/// Why a draft does not fit a target.
#[derive(Debug, Clone, Copy, PartialEq, Eq, Structural)]
pub enum DflashCompatError {
    NoTargetLayers,
    LayerOutOfRange { layers: usize, max_layer: usize },
    HiddenSize { target: usize, draft: usize },
    QWidth { target: usize, draft: usize },
    KvWidth { target: usize, draft: usize },
}

/// The largest of some numbers, 0 of none.
pub open spec fn max_of(s: Seq<usize>) -> usize
    decreases s.len(),
{
    if s.len() == 0 {
        0
    } else if s.last() >= max_of(s.drop_last()) {
        s.last()
    } else {
        max_of(s.drop_last())
    }
}

pub open spec fn q_width(d: ModelDims) -> nat {
    saturated_usize(d.num_attention_heads as nat * d.head_dim as nat)
}

pub open spec fn kv_width(d: ModelDims) -> nat {
    saturated_usize(d.num_key_value_heads as nat * d.head_dim as nat)
}

/// A draft fits where its captured layers exist in the target, the hidden
/// widths agree and, for a head that shares the target's attention, the
/// projection widths agree too.
pub open spec fn compat_fault(
    target: ModelDims,
    draft: ModelDims,
    kind: DraftKind,
    layer_ids: Seq<usize>,
) -> Option<DflashCompatError> {
    if layer_ids.len() == 0 {
        Some(DflashCompatError::NoTargetLayers)
    } else if max_of(layer_ids) >= target.num_hidden_layers {
        Some(
            DflashCompatError::LayerOutOfRange {
                layers: target.num_hidden_layers,
                max_layer: max_of(layer_ids),
            },
        )
    } else if draft.hidden_size != target.hidden_size {
        Some(
            DflashCompatError::HiddenSize {
                target: target.hidden_size,
                draft: draft.hidden_size,
            },
        )
    } else if kind == DraftKind::DFlashEagle && q_width(draft) != q_width(target) {
        Some(
            DflashCompatError::QWidth {
                target: q_width(target) as usize,
                draft: q_width(draft) as usize,
            },
        )
    } else if kind == DraftKind::DFlashEagle && kv_width(draft) != kv_width(target) {
        Some(
            DflashCompatError::KvWidth {
                target: kv_width(target) as usize,
                draft: kv_width(draft) as usize,
            },
        )
    } else {
        None
    }
}

pub fn check_compatibility(target: &ModelDims, draft: &DFlashDraftConfig) -> (r: Result<
    (),
    DflashCompatError,
>)
    ensures
        r == match compat_fault(
            *target,
            draft.dims,
            draft.draft_kind,
            draft.target_layer_ids@,
        ) {
            Some(e) => Err::<(), DflashCompatError>(e),
            None => Ok(()),
        },
{
    let n: usize = draft.target_layer_ids.len();
    if n == 0 {
        return Err(DflashCompatError::NoTargetLayers);
    }
    let ghost ids = draft.target_layer_ids@;
    let mut max_layer: usize = 0;
    let mut i: usize = 0;
    assert(ids.take(0) =~= Seq::<usize>::empty());
    while i < n
        invariant
            i <= n == ids.len(),
            ids == draft.target_layer_ids@,
            max_layer == max_of(ids.take(i as int)),
        decreases n - i,
    {
        let id: usize = draft.target_layer_ids[i];
        assert(ids.take(i + 1).drop_last() =~= ids.take(i as int));
        if id >= max_layer {
            max_layer = id;
        }
        i = i + 1;
    }
    assert(ids.take(i as int) =~= ids);
    if max_layer >= target.num_hidden_layers {
        return Err(
            DflashCompatError::LayerOutOfRange { layers: target.num_hidden_layers, max_layer },
        );
    }
    if draft.dims.hidden_size != target.hidden_size {
        return Err(
            DflashCompatError::HiddenSize {
                target: target.hidden_size,
                draft: draft.dims.hidden_size,
            },
        );
    }
    if draft.draft_kind == DraftKind::DFlashEagle {
        let tq: usize = mul_saturating(target.num_attention_heads, target.head_dim);
        let dq: usize = mul_saturating(draft.dims.num_attention_heads, draft.dims.head_dim);
        if dq != tq {
            return Err(DflashCompatError::QWidth { target: tq, draft: dq });
        }
        let tkv: usize = mul_saturating(target.num_key_value_heads, target.head_dim);
        let dkv: usize = mul_saturating(draft.dims.num_key_value_heads, draft.dims.head_dim);
        if dkv != tkv {
            return Err(DflashCompatError::KvWidth { target: tkv, draft: dkv });
        }
    }
    Ok(())
}

proof fn lemma_max_of(s: Seq<usize>, i: int)
    requires
        0 <= i < s.len(),
    ensures
        s[i] <= max_of(s),
    decreases s.len(),
{
    if i < s.len() - 1 {
        assert(s.drop_last()[i] == s[i]);
        lemma_max_of(s.drop_last(), i);
    }
}

/// A draft that is let through captures only layers that the target has.
pub proof fn compatible_layers_exist(
    target: ModelDims,
    draft: ModelDims,
    kind: DraftKind,
    layer_ids: Seq<usize>,
    i: int,
)
    requires
        compat_fault(target, draft, kind, layer_ids) is None,
        0 <= i < layer_ids.len(),
    ensures
        layer_ids[i] < target.num_hidden_layers,
{
    lemma_max_of(layer_ids, i);
}

/// What a parallel head's configuration says; the floating-point settings
/// pass by.
#[derive(Debug)]
pub struct RawDraftConfig {
    pub dims: ModelDims,
    pub block_size: Option<usize>,
    pub mask_token_id: u32,
    pub target_layer_ids: Vec<usize>,
}

/// Rotary over the whole head, no gate, blocks of 16 unless said otherwise.
pub fn load_dflash_eagle(raw: RawDraftConfig) -> (c: DFlashDraftConfig)
    ensures
        c.draft_kind == DraftKind::DFlashEagle,
        c.dims == raw.dims,
        c.rotary_dim == raw.dims.head_dim,
        !c.attn_output_gate,
        c.block_size == match raw.block_size {
            Some(n) => n,
            None => 16usize,
        },
        c.mask_token_id == raw.mask_token_id,
        c.target_layer_ids@ == raw.target_layer_ids@,
{
    let block_size: usize = match raw.block_size {
        Some(n) => n,
        None => 16,
    };
    DFlashDraftConfig {
        draft_kind: DraftKind::DFlashEagle,
        dims: raw.dims,
        rotary_dim: raw.dims.head_dim,
        attn_output_gate: false,
        block_size,
        mask_token_id: raw.mask_token_id,
        target_layer_ids: raw.target_layer_ids,
    }
}

/// What an autoregressive head's configuration says. `rotary_dim` is the head
/// dimension times the partial rotary factor.
#[derive(Debug, Clone, Copy)]
pub struct RawMtpConfig {
    pub block_size: Option<usize>,
    pub hidden_size: usize,
    pub num_attention_heads: usize,
    pub num_key_value_heads: usize,
    pub head_dim: usize,
    pub rotary_dim: usize,
    pub attn_output_gate: bool,
}

/// One layer on top of the target's last one, no mask token, blocks of 3
/// unless said otherwise. `None` for a target without layers.
pub fn load_qwen35_mtp(raw: &RawMtpConfig, target_num_layers: usize) -> (r: Option<
    DFlashDraftConfig,
>)
    ensures
        r is Some <==> target_num_layers >= 1,
        match r {
            None => true,
            Some(c) => c.draft_kind == DraftKind::Qwen35Mtp && c.dims == (ModelDims {
                hidden_size: raw.hidden_size,
                num_hidden_layers: 1,
                num_attention_heads: raw.num_attention_heads,
                num_key_value_heads: raw.num_key_value_heads,
                head_dim: raw.head_dim,
            }) && c.rotary_dim == raw.rotary_dim && c.attn_output_gate == raw.attn_output_gate
                && c.block_size == match raw.block_size {
                Some(n) => n,
                None => 3usize,
            } && c.mask_token_id == u32::MAX && c.target_layer_ids@ == seq![
                (target_num_layers - 1) as usize,
            ],
        },
{
    if target_num_layers < 1 {
        return None;
    }
    let block_size: usize = match raw.block_size {
        Some(n) => n,
        None => 3,
    };
    let mut target_layer_ids: Vec<usize> = Vec::new();
    target_layer_ids.push(target_num_layers - 1);
    assert(target_layer_ids@ =~= seq![(target_num_layers - 1) as usize]);
    Some(
        DFlashDraftConfig {
            draft_kind: DraftKind::Qwen35Mtp,
            dims: ModelDims {
                hidden_size: raw.hidden_size,
                num_hidden_layers: 1,
                num_attention_heads: raw.num_attention_heads,
                num_key_value_heads: raw.num_key_value_heads,
                head_dim: raw.head_dim,
            },
            rotary_dim: raw.rotary_dim,
            attn_output_gate: raw.attn_output_gate,
            block_size,
            mask_token_id: u32::MAX,
            target_layer_ids,
        },
    )
}

// ---- the draft cache ----

/// Lengths of a draft cache. The arrays themselves are the runtime's.
#[derive(Debug, Clone, Copy, PartialEq, Eq, Structural)]
pub struct DFlashDraftState {
    pub layers: usize,
    pub len: i32,
    pub capacity: i32,
    pub n_kv_heads: i32,
    pub head_dim: i32,
    pub rope_offset: i32,
}

/// A window move: the tokens in `[from, from + DRAFT_CACHE_WINDOW_SIZE)` go to
/// just behind the sink.
#[derive(Debug, Clone, Copy, PartialEq, Eq, Structural)]
pub struct WindowMove {
    pub from: i32,
    pub to: i32,
    pub len: i32,
}

pub open spec fn draft_capacity(initial_tokens: nat) -> nat {
    ((initial_tokens + 255) / 256 + 1) * 256
}

impl DFlashDraftState {
    /// An empty cache with room for the tokens and one chunk of 256 more.
    pub fn new(layers: usize, n_kv_heads: i32, head_dim: i32, initial_tokens: usize) -> (s: Self)
        requires
            initial_tokens <= MAX_DRAFT_TOKENS,
        ensures
            s.layers == layers,
            s.len == 0,
            s.rope_offset == 0,
            s.n_kv_heads == n_kv_heads,
            s.head_dim == head_dim,
            s.capacity == draft_capacity(initial_tokens as nat),
            s.capacity >= initial_tokens,
            s.capacity >= 256,
    {
        let initial: i32 = initial_tokens as i32;
        let capacity: i32 = ((initial + 255) / 256 + 1) * 256;
        DFlashDraftState { layers, len: 0, capacity, n_kv_heads, head_dim, rope_offset: 0 }
    }

    /// Forgets everything written.
    pub fn reset(&mut self)
        ensures
            *final(self) == (DFlashDraftState { len: 0, rope_offset: 0, ..*old(self) }),
    {
        self.len = 0;
        self.rope_offset = 0;
    }

    /// A forward wrote its rows: the parallel head its context and the block,
    /// the autoregressive head the block alone.
    pub fn wrote(&mut self, kind: DraftKind, context_rows: i32, block_rows: i32)
        requires
            i32::MIN <= old(self).len + written_rows(kind, context_rows, block_rows) <= i32::MAX,
            i32::MIN <= old(self).rope_offset + written_rows(kind, context_rows, block_rows)
                <= i32::MAX,
            context_rows >= 0,
            block_rows >= 0,
            context_rows + block_rows <= i32::MAX,
        ensures
            *final(self) == (DFlashDraftState {
                len: (old(self).len + written_rows(kind, context_rows, block_rows)) as i32,
                rope_offset: (old(self).rope_offset + written_rows(
                    kind,
                    context_rows,
                    block_rows,
                )) as i32,
                ..*old(self)
            }),
    {
        let written: i32 = match kind {
            DraftKind::DFlashEagle => context_rows + block_rows,
            DraftKind::Qwen35Mtp => block_rows,
        };
        self.len = self.len + written;
        self.rope_offset = self.rope_offset + written;
    }

    /// Takes the last tokens back; counts beyond the range of the lengths
    /// take back the most they can.
    pub fn trim(&mut self, num_tokens: usize)
        ensures
            *final(self) == (DFlashDraftState {
                len: trimmed(old(self).len, num_tokens) as i32,
                rope_offset: trimmed(old(self).rope_offset, num_tokens) as i32,
                ..*old(self)
            }),
    {
        self.len = less(self.len, num_tokens);
        self.rope_offset = less(self.rope_offset, num_tokens);
    }

    /// Whether a cache over sink and window is cut, and how: the sink stays,
    /// the last window's tokens move behind it.
    pub fn apply_window(&mut self) -> (m: Option<WindowMove>)
        ensures
            m == window_move(old(self).len as int),
            *final(self) == (DFlashDraftState {
                len: windowed(old(self).len as int) as i32,
                ..*old(self)
            }),
    {
        let max_len: i32 = DRAFT_CACHE_SINK_SIZE + DRAFT_CACHE_WINDOW_SIZE;
        if self.len <= max_len {
            return None;
        }
        let from: i32 = self.len - DRAFT_CACHE_WINDOW_SIZE;
        self.len = max_len;
        Some(WindowMove { from, to: DRAFT_CACHE_SINK_SIZE, len: DRAFT_CACHE_WINDOW_SIZE })
    }
}

/// How a cache of a length is cut, where it is over sink and window.
pub open spec fn window_move(len: int) -> Option<WindowMove> {
    if len <= DRAFT_CACHE_SINK_SIZE + DRAFT_CACHE_WINDOW_SIZE {
        None
    } else {
        Some(
            WindowMove {
                from: (len - DRAFT_CACHE_WINDOW_SIZE) as i32,
                to: DRAFT_CACHE_SINK_SIZE,
                len: DRAFT_CACHE_WINDOW_SIZE,
            },
        )
    }
}

/// The length that is left of it.
pub open spec fn windowed(len: int) -> int {
    if len <= DRAFT_CACHE_SINK_SIZE + DRAFT_CACHE_WINDOW_SIZE {
        len
    } else {
        DRAFT_CACHE_SINK_SIZE + DRAFT_CACHE_WINDOW_SIZE
    }
}

pub open spec fn written_rows(kind: DraftKind, context_rows: i32, block_rows: i32) -> int {
    match kind {
        DraftKind::DFlashEagle => context_rows + block_rows,
        DraftKind::Qwen35Mtp => block_rows as int,
    }
}

pub open spec fn trimmed(len: i32, num_tokens: usize) -> int {
    let delta = if num_tokens > i32::MAX {
        i32::MAX as int
    } else {
        num_tokens as int
    };
    if len - delta < i32::MIN {
        i32::MIN as int
    } else {
        len - delta
    }
}

fn less(len: i32, num_tokens: usize) -> (r: i32)
    ensures
        r == trimmed(len, num_tokens),
{
    let delta: i64 = if num_tokens as u64 > 0x7fff_ffffu64 {
        0x7fff_ffff
    } else {
        num_tokens as i64
    };
    let d: i64 = len as i64 - delta;
    if d < i32::MIN as i64 {
        i32::MIN
    } else {
        d as i32
    }
}

/// A drafted block leaves only its context behind: the block's own rows are
/// taken back, so the cache grows by the context rows, within the window.
pub proof fn block_leaves_its_context(
    s: DFlashDraftState,
    context_rows: i32,
    block_size: usize,
)
    requires
        0 <= s.len,
        0 <= s.rope_offset,
        0 <= context_rows,
        block_size <= i32::MAX,
        s.len + context_rows + block_size <= i32::MAX,
        s.rope_offset + context_rows + block_size <= i32::MAX,
    ensures
        trimmed(
            (s.len + written_rows(DraftKind::DFlashEagle, context_rows, block_size as i32)) as i32,
            block_size,
        ) == s.len + context_rows,
        trimmed(
            (s.rope_offset + written_rows(
                DraftKind::DFlashEagle,
                context_rows,
                block_size as i32,
            )) as i32,
            block_size,
        ) == s.rope_offset + context_rows,
{
}

/// One layer's replaced cache must be rank 4, single batch, with the draft's
/// heads and head dimension, and as many keys as values.
pub open spec fn layer_cache_ok(k: Seq<i32>, v: Seq<i32>, n_kv_heads: i32, head_dim: i32) -> bool {
    k.len() == 4 && v.len() == 4 && k[0] == 1 && v[0] == 1 && k[1] == n_kv_heads && v[1]
        == n_kv_heads && k[2] == v[2] && k[3] == head_dim && v[3] == head_dim
}

#[derive(Debug, Clone, Copy, PartialEq, Eq, Structural)]
pub enum ReplaceError {
    Count { expected: usize, got: usize },
    Shape { layer: usize },
}

pub open spec fn first_bad_layer(
    shapes: Seq<Vec<i32>>,
    n: nat,
    n_kv_heads: i32,
    head_dim: i32,
) -> Option<usize>
    decreases n,
{
    if n == 0 {
        None
    } else {
        match first_bad_layer(shapes, (n - 1) as nat, n_kv_heads, head_dim) {
            Some(l) => Some(l),
            None => if layer_cache_ok(
                shapes[2 * (n - 1)]@,
                shapes[2 * (n - 1) + 1]@,
                n_kv_heads,
                head_dim,
            ) {
                None
            } else {
                Some((n - 1) as usize)
            },
        }
    }
}

proof fn lemma_bad_layer_stop(
    shapes: Seq<Vec<i32>>,
    k: nat,
    n: nat,
    n_kv_heads: i32,
    head_dim: i32,
)
    requires
        k <= n,
        first_bad_layer(shapes, k, n_kv_heads, head_dim) is Some,
    ensures
        first_bad_layer(shapes, n, n_kv_heads, head_dim) == first_bad_layer(
            shapes,
            k,
            n_kv_heads,
            head_dim,
        ),
    decreases n,
{
    if k < n {
        lemma_bad_layer_stop(shapes, k, (n - 1) as nat, n_kv_heads, head_dim);
    }
}

impl DFlashDraftState {
    /// The far corner of the live part of every cache array; the near one is
    /// the origin.
    pub fn active_kv_flat(&self) -> (stop: Vec<i32>)
        ensures
            stop@ == seq![1i32, self.n_kv_heads, self.len, self.head_dim],
    {
        let stop: Vec<i32> = vec![1i32, self.n_kv_heads, self.len, self.head_dim];
        assert(stop@ =~= seq![1i32, self.n_kv_heads, self.len, self.head_dim]);
        stop
    }

    /// Takes over the arrays of a forward, keys and values by turns; the
    /// layers before a bad one are taken.
    pub fn replace_active_kv_flat(&mut self, shapes: &[Vec<i32>]) -> (r: Result<(), ReplaceError>)
        requires
            old(self).layers * 2 <= usize::MAX,
        ensures
            shapes@.len() != old(self).layers * 2 ==> r == Err::<(), ReplaceError>(
                ReplaceError::Count {
                    expected: (old(self).layers * 2) as usize,
                    got: shapes@.len() as usize,
                },
            ) && *final(self) == *old(self),
            shapes@.len() == old(self).layers * 2 ==> match first_bad_layer(
                shapes@,
                old(self).layers as nat,
                old(self).n_kv_heads,
                old(self).head_dim,
            ) {
                Some(layer) => r == Err::<(), ReplaceError>(ReplaceError::Shape { layer })
                    && *final(self) == (DFlashDraftState {
                    capacity: if layer == 0 {
                        old(self).capacity
                    } else {
                        shapes@[2 * (layer - 1)]@[2]
                    },
                    ..*old(self)
                }),
                None => r is Ok && *final(self) == (DFlashDraftState {
                    capacity: if old(self).layers == 0 {
                        old(self).capacity
                    } else {
                        shapes@[2 * (old(self).layers - 1)]@[2]
                    },
                    ..*old(self)
                }),
            },
    {
        let expected: usize = self.layers * 2;
        if shapes.len() != expected {
            return Err(ReplaceError::Count { expected, got: shapes.len() });
        }
        let n: usize = self.layers;
        let heads: i32 = self.n_kv_heads;
        let dim: i32 = self.head_dim;
        let mut layer: usize = 0;
        while layer < n
            invariant
                layer <= n,
                n == old(self).layers,
                heads == old(self).n_kv_heads,
                dim == old(self).head_dim,
                shapes@.len() == n * 2 == expected,
                first_bad_layer(shapes@, layer as nat, heads, dim) is None,
                *self == (DFlashDraftState {
                    capacity: if layer == 0 {
                        old(self).capacity
                    } else {
                        shapes@[2 * (layer - 1)]@[2]
                    },
                    ..*old(self)
                }),
            decreases n - layer,
        {
            let k: &Vec<i32> = &shapes[2 * layer];
            let v: &Vec<i32> = &shapes[2 * layer + 1];
            let ok: bool = k.len() == 4 && v.len() == 4 && k[0] == 1 && v[0] == 1 && k[1] == heads
                && v[1] == heads && k[2] == v[2] && k[3] == dim && v[3] == dim;
            if !ok {
                proof {
                    lemma_bad_layer_stop(shapes@, (layer + 1) as nat, n as nat, heads, dim);
                }
                return Err(ReplaceError::Shape { layer });
            }
            self.capacity = k[2];
            layer = layer + 1;
        }
        Ok(())
    }
}

// ---- a draft block ----

/// How a draft block comes about.
#[derive(Debug, Clone, Copy, PartialEq, Eq, Structural)]
pub enum DraftPath {
    /// All positions at once, the first row dropped.
    Parallel,
    /// All rows at once, then one token after the other with a bigram bias.
    Markov,
    /// One forward per token on a fresh cache.
    Mtp,
}

pub fn draft_path(kind: DraftKind, markov: bool) -> (p: DraftPath)
    ensures
        p == if kind == DraftKind::Qwen35Mtp {
            DraftPath::Mtp
        } else if markov {
            DraftPath::Markov
        } else {
            DraftPath::Parallel
        },
{
    match kind {
        DraftKind::Qwen35Mtp => DraftPath::Mtp,
        DraftKind::DFlashEagle => if markov {
            DraftPath::Markov
        } else {
            DraftPath::Parallel
        },
    }
}

/// Why a draft block is refused.
#[derive(Debug, Clone, Copy, PartialEq, Eq, Structural)]
pub enum DraftError {
    BlockTooLarge { block_size: usize },
    NoContext { rows: i32, hidden: i32 },
    NegativeToken { token: i32 },
    MaskToken { mask: u32 },
}

/// The tokens fed to a parallel forward: the current one, then masks.
pub fn draft_inputs(block_size: usize, current: u32, mask: u32) -> (ids: Vec<u32>)
    requires
        block_size >= 1,
    ensures
        ids@ == Seq::new(
            block_size as nat,
            |i: int|
                if i == 0 {
                    current
                } else {
                    mask
                },
        ),
{
    let mut ids: Vec<u32> = Vec::new();
    ids.push(current);
    while ids.len() < block_size
        invariant
            1 <= ids@.len() <= block_size,
            ids@ == Seq::new(
                ids@.len(),
                |i: int|
                    if i == 0 {
                        current
                    } else {
                        mask
                    },
            ),
        decreases block_size - ids@.len(),
    {
        ids.push(mask);
    }
    ids
}

/// Why the head's token cannot stand in a block. A mask token would ask the
/// target to verify a hole.
pub open spec fn token_fault(token: i32, mask: Option<u32>) -> Option<DraftError> {
    if token < 0 {
        Some(DraftError::NegativeToken { token })
    } else if mask is Some && token == mask->0 {
        Some(DraftError::MaskToken { mask: mask->0 })
    } else {
        None
    }
}

pub fn draft_token(token: i32, mask: Option<u32>) -> (r: Result<u32, DraftError>)
    ensures
        match token_fault(token, mask) {
            Some(e) => r == Err::<u32, DraftError>(e),
            None => r is Ok && r->Ok_0 == token,
        },
{
    if token < 0 {
        return Err(DraftError::NegativeToken { token });
    }
    match mask {
        Some(m) => {
            if token as u32 == m {
                return Err(DraftError::MaskToken { mask: m });
            }
        },
        None => {},
    }
    Ok(token as u32)
}

/// The first of the head's tokens that cannot stand, and its place.
pub open spec fn first_fault(emitted: Seq<i32>, n: nat, mask: Option<u32>) -> Option<
    (nat, DraftError),
>
    decreases n,
{
    if n == 0 {
        None
    } else {
        match first_fault(emitted, (n - 1) as nat, mask) {
            Some(f) => Some(f),
            None => match token_fault(emitted[n - 1], mask) {
                Some(e) => Some(((n - 1) as nat, e)),
                None => None,
            },
        }
    }
}

proof fn lemma_first_fault_stop(emitted: Seq<i32>, k: nat, n: nat, mask: Option<u32>)
    requires
        k <= n,
        first_fault(emitted, k, mask) is Some,
    ensures
        first_fault(emitted, n, mask) == first_fault(emitted, k, mask),
    decreases n,
{
    if k < n {
        lemma_first_fault_stop(emitted, k, (n - 1) as nat, mask);
    }
}

/// A fault that comes later stands no earlier.
proof fn lemma_first_fault_place(emitted: Seq<i32>, k: nat, n: nat, mask: Option<u32>)
    requires
        k <= n,
        first_fault(emitted, k, mask) is None,
    ensures
        first_fault(emitted, n, mask) matches Some((place, _)) ==> k <= place,
    decreases n,
{
    if k < n {
        lemma_first_fault_place(emitted, k, (n - 1) as nat, mask);
    }
}

/// One draft block to make.
#[derive(Debug, Clone, Copy, PartialEq, Eq, Structural)]
pub struct DraftJob {
    pub path: DraftPath,
    pub block_size: usize,
    pub mask: u32,
    pub current: u32,
    /// Rows of target context, and their width.
    pub context_rows: i32,
    pub hidden: i32,
}

impl DraftJob {
    /// How many tokens the head emits for the block.
    pub open spec fn emits(self, available: nat) -> nat {
        match self.path {
            DraftPath::Parallel => if available < self.block_size - 1 {
                available
            } else {
                (self.block_size - 1) as nat
            },
            DraftPath::Markov => self.block_size as nat,
            DraftPath::Mtp => (self.block_size - 1) as nat,
        }
    }

    pub open spec fn mask_check(self) -> Option<u32> {
        match self.path {
            DraftPath::Mtp => None,
            _ => Some(self.mask),
        }
    }

    /// What is wrong before any forward.
    pub open spec fn fault(self) -> Option<DraftError> {
        match self.path {
            DraftPath::Mtp => if self.context_rows >= 1 && self.hidden > 0 {
                None
            } else {
                Some(DraftError::NoContext { rows: self.context_rows, hidden: self.hidden })
            },
            _ => if self.block_size > i32::MAX {
                Some(DraftError::BlockTooLarge { block_size: self.block_size })
            } else {
                None
            },
        }
    }

    /// The block to verify: the current token, then the head's tokens; a
    /// parallel block that the head left short keeps its masks.
    pub open spec fn block(self, emitted: Seq<i32>) -> Seq<u32> {
        let n = self.emits(emitted.len());
        let len = match self.path {
            DraftPath::Markov => self.block_size + 1,
            _ => self.block_size as int,
        };
        Seq::new(
            len as nat,
            |i: int|
                if i == 0 {
                    self.current
                } else if i - 1 < n {
                    emitted[i - 1] as u32
                } else {
                    self.mask
                },
        )
    }

    /// What a block asks of its cache and its head once nothing is wrong
    /// beforehand: lengths that the runtime can hold, and the head's tokens up
    /// to the first that cannot stand.
    pub open spec fn wf(self, state: DFlashDraftState, emitted: Seq<i32>) -> bool {
        self.fault() is None ==> {
            &&& self.block_size >= 1
            &&& self.path != DraftPath::Parallel && emitted.len() < self.emits(emitted.len())
                ==> first_fault(emitted, emitted.len(), self.mask_check()) is Some
            &&& self.path == DraftPath::Mtp && self.block_size - 1 > i32::MAX ==> (first_fault(
                emitted,
                self.emits(emitted.len()),
                self.mask_check(),
            ) matches Some((place, _)) && place < i32::MAX)
            &&& self.path != DraftPath::Mtp ==> {
                &&& self.context_rows >= 0
                &&& 0 <= state.len
                &&& 0 <= state.rope_offset
                &&& state.len + self.context_rows + self.block_size <= i32::MAX
                &&& state.rope_offset + self.context_rows + self.block_size <= i32::MAX
            }
        }
    }

    /// The draft cache once the block is made.
    pub open spec fn state_after(self, s: DFlashDraftState) -> DFlashDraftState {
        match self.path {
            DraftPath::Mtp => DFlashDraftState {
                len: (self.block_size - 1) as i32,
                rope_offset: (self.block_size - 1) as i32,
                ..s
            },
            _ => DFlashDraftState {
                len: if s.len + self.context_rows > 1088 {
                    1088
                } else {
                    (s.len + self.context_rows) as i32
                },
                rope_offset: (s.rope_offset + self.context_rows) as i32,
                ..s
            },
        }
    }

    /// The draft cache where the head's token at `place` is refused.
    pub open spec fn state_at_fault(self, s: DFlashDraftState, place: nat) -> DFlashDraftState {
        match self.path {
            DraftPath::Mtp => DFlashDraftState {
                len: (place + 1) as i32,
                rope_offset: (place + 1) as i32,
                ..s
            },
            _ => DFlashDraftState {
                len: (s.len + self.context_rows + self.block_size) as i32,
                rope_offset: (s.rope_offset + self.context_rows + self.block_size) as i32,
                ..s
            },
        }
    }
}

/// A made-up block, and how the draft cache is to be cut.
#[derive(Debug)]
pub struct DraftedBlock {
    pub tokens: Vec<u32>,
    pub window: Option<WindowMove>,
}

/// Makes the block to verify out of the tokens that the head emitted, in
/// order, and brings the draft cache up to date.
pub fn prepare_draft_block(state: &mut DFlashDraftState, job: &DraftJob, emitted: &[i32]) -> (r:
    Result<DraftedBlock, DraftError>)
    requires
        job.wf(*old(state), emitted@),
    ensures
        match job.fault() {
            Some(e) => r == Err::<DraftedBlock, DraftError>(e) && *final(state) == (
            if job.path == DraftPath::Mtp {
                DFlashDraftState { len: 0, rope_offset: 0, ..*old(state) }
            } else {
                *old(state)
            }),
            None => match first_fault(
                emitted@,
                job.emits(emitted@.len()),
                job.mask_check(),
            ) {
                Some((place, e)) => r == Err::<DraftedBlock, DraftError>(e) && *final(state)
                    == job.state_at_fault(*old(state), place),
                None => r is Ok && r->Ok_0.tokens@ == job.block(emitted@) && *final(state)
                    == job.state_after(*old(state)) && r->Ok_0.window == (if job.path
                    != DraftPath::Mtp {
                    window_move(old(state).len + job.context_rows)
                } else {
                    None
                }),
            },
        },
{
    let mtp: bool = job.path == DraftPath::Mtp;
    if mtp {
        state.reset();
        if job.context_rows < 1 || job.hidden <= 0 {
            return Err(DraftError::NoContext { rows: job.context_rows, hidden: job.hidden });
        }
    } else {
        if job.block_size as u64 > 0x7fff_ffffu64 {
            return Err(DraftError::BlockTooLarge { block_size: job.block_size });
        }
        state.wrote(DraftKind::DFlashEagle, job.context_rows, job.block_size as i32);
    }
    let n: usize = match job.path {
        DraftPath::Parallel => if emitted.len() < job.block_size - 1 {
            emitted.len()
        } else {
            job.block_size - 1
        },
        DraftPath::Markov => job.block_size,
        DraftPath::Mtp => job.block_size - 1,
    };
    let mask: Option<u32> = if mtp {
        None
    } else {
        Some(job.mask)
    };
    let ghost base = *state;
    let mut tokens: Vec<u32> = Vec::new();
    tokens.push(job.current);
    let mut i: usize = 0;
    while i < n
        invariant
            i <= n,
            i <= emitted@.len(),
            n == job.emits(emitted@.len()),
            mtp == (job.path == DraftPath::Mtp),
            mtp ==> n + 1 == job.block_size && i <= i32::MAX,
            mask == job.mask_check(),
            job.fault() is None,
            job.wf(*old(state), emitted@),
            tokens@.len() == i + 1,
            tokens@[0] == job.current,
            forall|j: int| 0 <= j < i ==> #[trigger] tokens@[j + 1] == emitted@[j] as u32,
            first_fault(emitted@, i as nat, mask) is None,
            mtp ==> *state == (DFlashDraftState {
                len: i as i32,
                rope_offset: i as i32,
                ..*old(state)
            }),
            !mtp ==> *state == base && base == job.state_at_fault(*old(state), 0),
        decreases n - i,
    {
        if mtp {
            proof {
                if i == i32::MAX {
                    lemma_first_fault_place(emitted@, i as nat, n as nat, mask);
                }
            }
            state.wrote(DraftKind::Qwen35Mtp, 0, 1);
        }
        match draft_token(emitted[i], mask) {
            Err(e) => {
                proof {
                    lemma_first_fault_stop(emitted@, (i + 1) as nat, n as nat, mask);
                }
                return Err(e);
            },
            Ok(t) => {
                tokens.push(t);
            },
        }
        i = i + 1;
    }
    let len: usize = match job.path {
        DraftPath::Markov => job.block_size + 1,
        _ => job.block_size,
    };
    while tokens.len() < len
        invariant
            n + 1 <= tokens@.len() <= len,
            n == job.emits(emitted@.len()),
            n <= emitted@.len(),
            tokens@[0] == job.current,
            forall|j: int| 0 <= j < n ==> #[trigger] tokens@[j + 1] == emitted@[j] as u32,
            forall|j: int| n < j < tokens@.len() ==> #[trigger] tokens@[j] == job.mask,
        decreases len - tokens@.len(),
    {
        tokens.push(job.mask);
    }
    proof {
        let want = job.block(emitted@);
        assert forall|j: int| 0 <= j < len implies #[trigger] tokens@[j] == want[j] by {
            if 0 < j && j - 1 < n {
                assert(tokens@[(j - 1) + 1] == emitted@[j - 1] as u32);
            }
        }
        assert(tokens@ =~= want);
    }
    if mtp {
        return Ok(DraftedBlock { tokens, window: None });
    }
    proof {
        block_leaves_its_context(*old(state), job.context_rows, job.block_size);
    }
    state.trim(job.block_size);
    let window: Option<WindowMove> = state.apply_window();
    Ok(DraftedBlock { tokens, window })
}

// ---- a speculative block ----

/// One block to draft and verify.
#[derive(Debug, Clone, Copy, PartialEq, Eq, Structural)]
pub struct SpecJob {
    pub block_size: usize,
    /// Tokens in the target's cache before the block.
    pub cache_len: usize,
    /// Recurrent arrays of the target; two per recorded tape.
    pub gdr_arrays: usize,
    pub raw_argmax: bool,
}

/// What the target says of a block.
#[derive(Debug, Clone, Copy, PartialEq, Eq, Structural)]
pub struct Verdict {
    /// Leading drafted tokens that the target agrees with.
    pub matched: usize,
    /// The target's own token behind them.
    pub next_token: u32,
}

#[derive(Debug, Clone, Copy, PartialEq, Eq, Structural)]
pub enum SpecError {
    NotRawArgmax,
    BlockTooLarge { block_size: usize },
    CacheTooLong { cache_len: usize },
    Overmatched { matched: usize, block_size: usize },
    /// A call into the runtime failed.
    Outside,
}

/// The one call to make next.
#[derive(Debug, Clone, Copy, PartialEq, Eq, Structural)]
pub enum SpecCall {
    /// Draft the block, keeping the target's arrays as they are.
    Draft,
    /// Record tapes and capture the target layers.
    Record,
    Verify { tokens: usize, position: usize },
    DrainTapes { count: usize },
    DrainHidden,
    /// Cut the cache back to the accepted span.
    RollbackKv { start: usize, accepted: usize },
    RollbackGdr { accepted: usize },
    /// The cache now ends at `cache_len`; build the hidden rows.
    BuildHidden { rows: usize, cache_len: usize },
}

#[derive(Debug, Clone, Copy, PartialEq, Eq, Structural)]
pub enum SpecNext {
    Make { call: SpecCall },
    /// The block stands: so many tokens were accepted.
    Done { accepted: usize, cache_len: usize },
    /// The block failed; `stop_recording` where tapes and captures are on.
    Fail { error: SpecError, stop_recording: bool },
}

impl SpecJob {
    pub open spec fn start(self) -> SpecNext {
        if !self.raw_argmax {
            SpecNext::Fail { error: SpecError::NotRawArgmax, stop_recording: false }
        } else if self.block_size > i32::MAX {
            SpecNext::Fail {
                error: SpecError::BlockTooLarge { block_size: self.block_size },
                stop_recording: false,
            }
        } else {
            SpecNext::Make { call: SpecCall::Draft }
        }
    }

    /// The target's cache end once so many tokens are accepted.
    pub open spec fn end(self, accepted: int) -> usize {
        if self.cache_len + accepted > usize::MAX {
            usize::MAX
        } else {
            (self.cache_len + accepted) as usize
        }
    }

    /// What follows a call. The verdict is read once the hidden rows are out.
    pub open spec fn after(self, call: SpecCall, ok: bool, verdict: Verdict) -> SpecNext {
        if !ok {
            SpecNext::Fail {
                error: SpecError::Outside,
                stop_recording: !(call is Draft) && !(call is Record),
            }
        } else {
            match call {
                SpecCall::Draft => SpecNext::Make { call: SpecCall::Record },
                SpecCall::Record => if self.cache_len > i32::MAX {
                    SpecNext::Fail {
                        error: SpecError::CacheTooLong { cache_len: self.cache_len },
                        stop_recording: true,
                    }
                } else {
                    SpecNext::Make {
                        call: SpecCall::Verify {
                            tokens: self.block_size,
                            position: self.cache_len,
                        },
                    }
                },
                SpecCall::Verify { .. } => SpecNext::Make {
                    call: SpecCall::DrainTapes { count: self.gdr_arrays / 2 },
                },
                SpecCall::DrainTapes { .. } => SpecNext::Make { call: SpecCall::DrainHidden },
                SpecCall::DrainHidden => if verdict.matched >= self.block_size {
                    SpecNext::Fail {
                        error: SpecError::Overmatched {
                            matched: verdict.matched,
                            block_size: self.block_size,
                        },
                        stop_recording: true,
                    }
                } else if verdict.matched + 1 < self.block_size {
                    SpecNext::Make {
                        call: SpecCall::RollbackKv {
                            start: self.cache_len,
                            accepted: (verdict.matched + 1) as usize,
                        },
                    }
                } else {
                    SpecNext::Make {
                        call: SpecCall::BuildHidden {
                            rows: (verdict.matched + 1) as usize,
                            cache_len: self.end(verdict.matched + 1),
                        },
                    }
                },
                SpecCall::RollbackKv { accepted, .. } => SpecNext::Make {
                    call: SpecCall::RollbackGdr { accepted },
                },
                SpecCall::RollbackGdr { accepted } => SpecNext::Make {
                    call: SpecCall::BuildHidden {
                        rows: accepted,
                        cache_len: self.end(accepted as int),
                    },
                },
                SpecCall::BuildHidden { rows, cache_len } => SpecNext::Done {
                    accepted: rows,
                    cache_len,
                },
            }
        }
    }
}

/// Starts a speculative block.
pub fn qwen35_speculative_block(job: &SpecJob) -> (next: SpecNext)
    ensures
        next == job.start(),
{
    if !job.raw_argmax {
        return SpecNext::Fail { error: SpecError::NotRawArgmax, stop_recording: false };
    }
    if job.block_size as u64 > 0x7fff_ffffu64 {
        return SpecNext::Fail {
            error: SpecError::BlockTooLarge { block_size: job.block_size },
            stop_recording: false,
        };
    }
    SpecNext::Make { call: SpecCall::Draft }
}

fn end_of(cache_len: usize, accepted: usize) -> (end: usize)
    ensures
        end == if cache_len + accepted > usize::MAX {
            usize::MAX as int
        } else {
            cache_len + accepted
        },
{
    match cache_len.checked_add(accepted) {
        Some(n) => n,
        None => usize::MAX,
    }
}

/// Goes on with a speculative block after a call.
pub fn continue_speculative_block(job: &SpecJob, call: SpecCall, ok: bool, verdict: Verdict) -> (
    next: SpecNext)
    ensures
        next == job.after(call, ok, verdict),
{
    if !ok {
        let recording: bool = match call {
            SpecCall::Draft | SpecCall::Record => false,
            _ => true,
        };
        return SpecNext::Fail { error: SpecError::Outside, stop_recording: recording };
    }
    match call {
        SpecCall::Draft => SpecNext::Make { call: SpecCall::Record },
        SpecCall::Record => {
            if job.cache_len as u64 > 0x7fff_ffffu64 {
                return SpecNext::Fail {
                    error: SpecError::CacheTooLong { cache_len: job.cache_len },
                    stop_recording: true,
                };
            }
            SpecNext::Make {
                call: SpecCall::Verify { tokens: job.block_size, position: job.cache_len },
            }
        },
        SpecCall::Verify { .. } => SpecNext::Make {
            call: SpecCall::DrainTapes { count: job.gdr_arrays / 2 },
        },
        SpecCall::DrainTapes { .. } => SpecNext::Make { call: SpecCall::DrainHidden },
        SpecCall::DrainHidden => {
            if verdict.matched >= job.block_size {
                return SpecNext::Fail {
                    error: SpecError::Overmatched {
                        matched: verdict.matched,
                        block_size: job.block_size,
                    },
                    stop_recording: true,
                };
            }
            let accepted: usize = verdict.matched + 1;
            if accepted < job.block_size {
                SpecNext::Make {
                    call: SpecCall::RollbackKv { start: job.cache_len, accepted },
                }
            } else {
                SpecNext::Make {
                    call: SpecCall::BuildHidden {
                        rows: accepted,
                        cache_len: end_of(job.cache_len, accepted),
                    },
                }
            }
        },
        SpecCall::RollbackKv { start: _, accepted } => SpecNext::Make {
            call: SpecCall::RollbackGdr { accepted },
        },
        SpecCall::RollbackGdr { accepted } => SpecNext::Make {
            call: SpecCall::BuildHidden {
                rows: accepted,
                cache_len: end_of(job.cache_len, accepted),
            },
        },
        SpecCall::BuildHidden { rows, cache_len } => SpecNext::Done { accepted: rows, cache_len },
    }
}

/// The tokens that a verdict leaves standing: the drafted ones that matched,
/// then the target's own.
pub open spec fn accepted_of(block: Seq<u32>, verdict: Verdict) -> Seq<u32> {
    block.subrange(1, 1 + verdict.matched as int).push(verdict.next_token)
}

pub fn accepted_tokens(block: &[u32], verdict: Verdict) -> (tokens: Vec<u32>)
    requires
        verdict.matched + 1 <= block@.len(),
    ensures
        tokens@ == accepted_of(block@, verdict),
{
    let mut tokens: Vec<u32> = Vec::new();
    let mut i: usize = 0;
    while i < verdict.matched
        invariant
            i <= verdict.matched,
            verdict.matched + 1 <= block@.len(),
            tokens@ == block@.subrange(1, 1 + i as int),
        decreases verdict.matched - i,
    {
        tokens.push(block[i + 1]);
        i = i + 1;
        assert(block@.subrange(1, 1 + i as int) =~= block@.subrange(1, i as int).push(
            block@[i as int],
        ));
    }
    tokens.push(verdict.next_token);
    tokens
}

/// A block that stands gives at least one token and at most the block, ends
/// with the target's own token, and moves the target's cache on by exactly
/// as many tokens; only where a drafted token was refused is anything rolled
/// back.
pub proof fn verdict_decides_the_block(job: SpecJob, block: Seq<u32>, verdict: Verdict)
    requires
        verdict.matched < job.block_size <= block.len(),
        job.cache_len + job.block_size <= usize::MAX,
    ensures
        ({
            let next = job.after(SpecCall::DrainHidden, true, verdict);
            let rolled = verdict.matched + 1 < job.block_size;
            let build = if rolled {
                job.after(
                    SpecCall::RollbackGdr { accepted: (verdict.matched + 1) as usize },
                    true,
                    verdict,
                )
            } else {
                next
            };
            let tokens = accepted_of(block, verdict);
            &&& next is Make && (next->Make_call is RollbackKv <==> rolled)
            &&& build == (SpecNext::Make {
                call: SpecCall::BuildHidden {
                    rows: tokens.len() as usize,
                    cache_len: (job.cache_len + tokens.len()) as usize,
                },
            })
            &&& 1 <= tokens.len() <= job.block_size
            &&& tokens.last() == verdict.next_token
            &&& forall|i: int|
                0 <= i < verdict.matched ==> #[trigger] tokens[i] == block[i + 1]
        }),
{
}

/// What a block does to the target: the tokens in its cache, those that its
/// recurrent state has seen, those that the hidden rows belong to, the tapes
/// that were taken, and whether tapes and captures are on.
#[verifier::ext_equal]
pub struct TargetView {
    pub cache: Seq<u32>,
    pub seen: Seq<u32>,
    pub hidden: Seq<u32>,
    pub tapes: nat,
    pub recording: bool,
}

/// The target behind a call that went through. `before` is what it was when
/// the block began. Verifying runs block tokens from a position on; rolling
/// back puts accepted ones on top of what was there before.
pub open spec fn target_after(
    before: TargetView,
    now: TargetView,
    block: Seq<u32>,
    call: SpecCall,
) -> TargetView {
    match call {
        SpecCall::Draft | SpecCall::DrainHidden => now,
        SpecCall::Record => TargetView { recording: true, ..now },
        SpecCall::Verify { tokens, position } => TargetView {
            cache: now.cache.take(position as int) + block.take(tokens as int),
            seen: now.seen + block.take(tokens as int),
            ..now
        },
        SpecCall::DrainTapes { count } => TargetView { tapes: count as nat, ..now },
        SpecCall::RollbackKv { start, accepted } => TargetView {
            cache: before.cache.take(start as int) + now.cache.subrange(
                start as int,
                start + accepted,
            ),
            ..now
        },
        SpecCall::RollbackGdr { accepted } => TargetView {
            seen: before.seen + block.take(accepted as int),
            ..now
        },
        SpecCall::BuildHidden { rows, cache_len } => TargetView {
            hidden: block.take(rows as int),
            cache: now.cache.take(cache_len as int),
            ..now
        },
    }
}

/// A block after `k` more calls that all go through: each is the one that the
/// last answer named.
pub open spec fn tried(
    job: SpecJob,
    verdict: Verdict,
    before: TargetView,
    block: Seq<u32>,
    next: SpecNext,
    now: TargetView,
    k: nat,
) -> (SpecNext, TargetView)
    decreases k,
{
    if k == 0 {
        (next, now)
    } else {
        match next {
            SpecNext::Make { call } => tried(
                job,
                verdict,
                before,
                block,
                job.after(call, true, verdict),
                target_after(before, now, block, call),
                (k - 1) as nat,
            ),
            _ => (next, now),
        }
    }
}

/// A block that is gone through from its start, each call fed to the next,
/// leaves the target with exactly the accepted tokens behind what it held: in
/// the cache, in the recurrent state and in the hidden rows. It reports as
/// many tokens as it hands out and the length of that cache.
pub proof fn a_block_leaves_what_it_accepts(
    job: SpecJob,
    verdict: Verdict,
    before: TargetView,
    block: Seq<u32>,
)
    requires
        job.raw_argmax,
        verdict.matched < job.block_size <= i32::MAX,
        job.cache_len <= i32::MAX,
        block.len() == job.block_size,
        before.cache.len() == job.cache_len,
    ensures
        ({
            let (end, now) = tried(job, verdict, before, block, job.start(), before, 9);
            let accepted = block.take(verdict.matched + 1);
            &&& end == (SpecNext::Done {
                accepted: (verdict.matched + 1) as usize,
                cache_len: (job.cache_len + verdict.matched + 1) as usize,
            })
            &&& now.cache == before.cache + accepted
            &&& now.seen == before.seen + accepted
            &&& now.hidden == accepted
            &&& now.tapes == job.gdr_arrays / 2
            &&& accepted_of(block, verdict).len() == verdict.matched + 1
        }),
{
    reveal_with_fuel(tried, 10);
    let n = verdict.matched + 1;
    let full = before.cache + block;
    assert(block.take(job.block_size as int) =~= block);
    assert(before.cache.take(job.cache_len as int) =~= before.cache);
    assert(full.subrange(job.cache_len as int, job.cache_len + n) =~= block.take(n));
    assert((before.cache + block.take(n)).take(job.cache_len + n) =~= before.cache + block.take(n));
}

/// The calls of a block come in one order: nothing is rolled back unless a
/// drafted token was refused, and the cache is cut before the recurrent state,
/// both to the tokens that are handed out.
pub proof fn only_refused_tokens_are_rolled_back(
    job: SpecJob,
    verdict: Verdict,
    before: TargetView,
    block: Seq<u32>,
)
    requires
        verdict.matched < job.block_size <= i32::MAX,
    ensures
        ({
            let drained = SpecNext::Make { call: SpecCall::DrainHidden };
            let (first, t1) = tried(job, verdict, before, block, drained, before, 1);
            let (second, t2) = tried(job, verdict, before, block, drained, before, 2);
            let (third, t3) = tried(job, verdict, before, block, drained, before, 3);
            let n = accepted_of(block, verdict).len() as usize;
            &&& verdict.matched + 1 < job.block_size && block.len() == job.block_size ==> first == (
            SpecNext::Make { call: SpecCall::RollbackKv { start: job.cache_len, accepted: n } })
                && second == (SpecNext::Make { call: SpecCall::RollbackGdr { accepted: n } })
                && third is Make && third->Make_call is BuildHidden
            &&& verdict.matched + 1 == job.block_size ==> first is Make
                && first->Make_call is BuildHidden && second is Done
        }),
{
    reveal_with_fuel(tried, 4);
}

/// Whether tapes and captures are on where a block stands.
spec fn recording_known(next: SpecNext, now: TargetView) -> bool {
    match next {
        SpecNext::Make { call: SpecCall::Draft } => !now.recording,
        SpecNext::Make { call: SpecCall::Record } => !now.recording,
        SpecNext::Make { .. } => now.recording,
        SpecNext::Fail { stop_recording, .. } => stop_recording == now.recording,
        SpecNext::Done { .. } => now.recording,
    }
}

proof fn lemma_recording_known(
    job: SpecJob,
    verdict: Verdict,
    before: TargetView,
    block: Seq<u32>,
    next: SpecNext,
    now: TargetView,
    k: nat,
)
    requires
        recording_known(next, now),
    ensures
        ({
            let (at, t) = tried(job, verdict, before, block, next, now, k);
            recording_known(at, t)
        }),
    decreases k,
{
    if k > 0 {
        if let SpecNext::Make { call } = next {
            lemma_recording_known(
                job,
                verdict,
                before,
                block,
                job.after(call, true, verdict),
                target_after(before, now, block, call),
                (k - 1) as nat,
            );
        }
    }
}

/// Wherever a block fails, in a call or in between, tapes and captures are
/// stopped exactly where they were on.
pub proof fn a_failed_block_stops_its_recording(
    job: SpecJob,
    verdict: Verdict,
    before: TargetView,
    block: Seq<u32>,
    k: nat,
)
    requires
        !before.recording,
    ensures
        ({
            let (next, now) = tried(job, verdict, before, block, job.start(), before, k);
            &&& next is Fail ==> next->Fail_stop_recording == now.recording
            &&& next is Make ==> job.after(next->Make_call, false, verdict) == (SpecNext::Fail {
                error: SpecError::Outside,
                stop_recording: now.recording,
            })
        }),
{
    lemma_recording_known(job, verdict, before, block, job.start(), before, k);
}

/// A block is refused for its own sake only where it is not greedy on the raw
/// logits, too long for the runtime, behind a cache too long for it, or where
/// the target claims to agree with more than was drafted.
pub proof fn a_block_is_refused_for_a_reason(
    job: SpecJob,
    verdict: Verdict,
    before: TargetView,
    block: Seq<u32>,
)
    requires
        block.len() == job.block_size,
        before.cache.len() == job.cache_len,
    ensures
        ({
            let (end, now) = tried(job, verdict, before, block, job.start(), before, 9);
            &&& end is Done <==> job.raw_argmax && job.block_size <= i32::MAX && job.cache_len
                <= i32::MAX && verdict.matched < job.block_size
            &&& end is Done || end is Fail
            &&& end is Fail ==> now.cache == if end->Fail_error is Overmatched {
                before.cache + block
            } else {
                before.cache
            }
        }),
{
    reveal_with_fuel(tried, 10);
    assert(block.take(job.block_size as int) =~= block);
    assert(before.cache.take(job.cache_len as int) =~= before.cache);
}

// ---- cutting back ----

#[derive(Debug, Clone, Copy, PartialEq, Eq, Structural)]
pub enum RollbackError {
    SnapshotCount { live: usize, snapshot: usize },
    TooLong { value: usize },
    NotRank4 { index: usize },
    ShortSnapshot { tape: usize },
}

/// The token span that is copied over the snapshot in every cache array.
#[derive(Debug, Clone, Copy, PartialEq, Eq, Structural)]
pub struct RollbackSpan {
    pub start: i32,
    pub end: i32,
}

/// The span of the accepted tokens behind a prefix.
pub open spec fn accepted_span(prefix_len: int, accepted: int) -> RollbackSpan {
    RollbackSpan { start: prefix_len as i32, end: (prefix_len + accepted) as i32 }
}

/// The first array that is not rank 4.
pub open spec fn first_not_rank4(ranks: Seq<usize>, n: nat) -> Option<usize>
    decreases n,
{
    if n == 0 {
        None
    } else {
        match first_not_rank4(ranks, (n - 1) as nat) {
            Some(i) => Some(i),
            None => if ranks[n - 1] != 4 {
                Some((n - 1) as usize)
            } else {
                None
            },
        }
    }
}

proof fn lemma_rank_stop(ranks: Seq<usize>, k: nat, n: nat)
    requires
        k <= n,
        first_not_rank4(ranks, k) is Some,
    ensures
        first_not_rank4(ranks, n) == first_not_rank4(ranks, k),
    decreases n,
{
    if k < n {
        lemma_rank_stop(ranks, k, (n - 1) as nat);
    }
}

/// Cuts the target's cache back to the accepted span: the arrays as they were
/// before the block, with the accepted tokens on top.
pub fn rollback_kv_to_accepted(
    ranks: &[usize],
    snapshot: usize,
    prefix_len: usize,
    accepted: usize,
) -> (r: Result<RollbackSpan, RollbackError>)
    requires
        prefix_len <= i32::MAX && accepted <= i32::MAX ==> prefix_len + accepted <= i32::MAX,
    ensures
        r == if ranks@.len() != snapshot {
            Err::<RollbackSpan, RollbackError>(
                RollbackError::SnapshotCount { live: ranks@.len() as usize, snapshot },
            )
        } else if prefix_len > i32::MAX {
            Err(RollbackError::TooLong { value: prefix_len })
        } else if accepted > i32::MAX {
            Err(RollbackError::TooLong { value: accepted })
        } else {
            match first_not_rank4(ranks@, ranks@.len()) {
                Some(index) => Err(RollbackError::NotRank4 { index }),
                None => Ok(accepted_span(prefix_len as int, accepted as int)),
            }
        },
{
    if ranks.len() != snapshot {
        return Err(RollbackError::SnapshotCount { live: ranks.len(), snapshot });
    }
    if prefix_len as u64 > 0x7fff_ffffu64 {
        return Err(RollbackError::TooLong { value: prefix_len });
    }
    if accepted as u64 > 0x7fff_ffffu64 {
        return Err(RollbackError::TooLong { value: accepted });
    }
    let mut i: usize = 0;
    while i < ranks.len()
        invariant
            i <= ranks@.len() == snapshot,
            prefix_len <= i32::MAX,
            accepted <= i32::MAX,
            first_not_rank4(ranks@, i as nat) is None,
        decreases ranks@.len() - i,
    {
        if ranks[i] != 4 {
            proof {
                lemma_rank_stop(ranks@, (i + 1) as nat, ranks@.len());
            }
            return Err(RollbackError::NotRank4 { index: i });
        }
        i = i + 1;
    }
    Ok(RollbackSpan { start: prefix_len as i32, end: (prefix_len + accepted) as i32 })
}

/// The first of the convolution frames that stays: of the old ones and the
/// accepted ones together, the last `kernel - 1` stay.
pub fn conv_tail_start(combined: i32, kernel_minus_1: i32) -> (start: i32)
    requires
        combined >= 0,
        kernel_minus_1 >= 0,
    ensures
        start == if combined > kernel_minus_1 {
            combined - kernel_minus_1
        } else {
            0
        },
        combined >= kernel_minus_1 ==> combined - start == kernel_minus_1,
{
    if combined > kernel_minus_1 {
        combined - kernel_minus_1
    } else {
        0
    }
}

/// The shapes of one recorded tape, and of the convolution frames before it.
#[derive(Debug)]
pub struct TapeShapes {
    pub innovation: Vec<i32>,
    pub k: Vec<i32>,
    pub g: Vec<i32>,
    pub qkv: Vec<i32>,
    pub conv: Vec<i32>,
}

impl TapeShapes {
    /// Rank 3 or 4 for what is replayed, and frames for the convolution that
    /// the accepted ones can be put behind.
    pub open spec fn wf(self, accepted: i32) -> bool {
        &&& self.innovation@.len() == 3 || self.innovation@.len() == 4
        &&& self.k@.len() == 3 || self.k@.len() == 4
        &&& self.g@.len() == 3 || self.g@.len() == 4
        &&& self.conv@.len() >= 2
        &&& 0 <= self.conv@[1]
        &&& self.conv@[1] + accepted <= i32::MAX
    }
}

/// Where the slices of a tape end that are replayed on the state.
#[derive(Debug)]
pub struct TapeCut {
    pub innovation: Vec<i32>,
    pub k: Vec<i32>,
    pub g: Vec<i32>,
}

/// How one recurrent pair is cut back: both arrays as they were before the
/// block, the state with the accepted rows replayed, the convolution frames
/// with the accepted ones behind them and the oldest dropped.
#[derive(Debug)]
pub struct GdrRollback {
    /// Nothing is replayed where nothing was accepted.
    pub replay: Option<TapeCut>,
    /// Where the slice of new frames ends.
    pub frames: Vec<i32>,
    /// The first frame that stays, old and new ones together.
    pub keep_from: i32,
}

#[verifier::ext_equal]
pub struct GdrRollbackView {
    pub replay: Option<(Seq<i32>, Seq<i32>, Seq<i32>)>,
    pub frames: Seq<i32>,
    pub keep_from: i32,
}

impl View for GdrRollback {
    type V = GdrRollbackView;

    open spec fn view(&self) -> GdrRollbackView {
        GdrRollbackView {
            replay: match self.replay {
                Some(c) => Some((c.innovation@, c.k@, c.g@)),
                None => None,
            },
            frames: self.frames@,
            keep_from: self.keep_from,
        }
    }
}

/// The cut of one pair that `accepted` rows of a tape call for.
pub open spec fn gdr_rollback(t: TapeShapes, accepted: i32) -> GdrRollbackView {
    GdrRollbackView {
        replay: if accepted > 0 {
            Some(
                (
                    t.innovation@.update(1, accepted),
                    t.k@.update(1, accepted),
                    t.g@.update(1, accepted),
                ),
            )
        } else {
            None
        },
        frames: seq![
            1i32,
            accepted,
            if t.qkv@.len() > 2 {
                t.qkv@[2]
            } else {
                0
            },
        ],
        keep_from: if accepted > 0 {
            accepted
        } else {
            0
        },
    }
}

/// Cuts an array of rank 3 or 4 to its first `len` rows: where the slice ends.
pub fn slice_prefix_axis1(shape: &Vec<i32>, len: i32) -> (stop: Vec<i32>)
    requires
        shape@.len() == 3 || shape@.len() == 4,
    ensures
        stop@ == shape@.update(1, len),
{
    let mut stop: Vec<i32> = Vec::new();
    stop.push(shape[0]);
    stop.push(len);
    stop.push(shape[2]);
    if shape.len() == 4 {
        stop.push(shape[3]);
    }
    assert(stop@ =~= shape@.update(1, len));
    stop
}

/// The pairs to cut back, in order, and what stops the work behind them.
#[derive(Debug)]
pub struct GdrRollbacks {
    pub pairs: Vec<GdrRollback>,
    pub fault: Option<RollbackError>,
}

/// How many tapes have a pair of arrays, live and in the snapshot.
pub open spec fn paired_tapes(tapes: nat, live: usize, snapshot: usize) -> nat {
    let held = if live <= snapshot {
        live
    } else {
        snapshot
    };
    if tapes <= held / 2 {
        tapes
    } else {
        (held / 2) as nat
    }
}

/// Cuts the recurrent state back to the accepted rows, pair by pair; the
/// first tape without a pair is the fault.
pub fn rollback_gdr_to_accepted(
    live: usize,
    snapshot: usize,
    tapes: &Vec<TapeShapes>,
    accepted: i32,
) -> (r: GdrRollbacks)
    requires
        accepted >= 0,
        forall|i: int| 0 <= i < tapes@.len() ==> (#[trigger] tapes@[i]).wf(accepted),
    ensures
        r.pairs@.len() == paired_tapes(tapes@.len(), live, snapshot),
        forall|i: int|
            0 <= i < r.pairs@.len() ==> (#[trigger] r.pairs@[i])@ == gdr_rollback(
                tapes@[i],
                accepted,
            ),
        r.fault == if r.pairs@.len() < tapes@.len() {
            Some(RollbackError::ShortSnapshot { tape: r.pairs@.len() as usize })
        } else {
            None
        },
{
    let held: usize = if live <= snapshot {
        live
    } else {
        snapshot
    };
    let mut pairs: Vec<GdrRollback> = Vec::new();
    let mut i: usize = 0;
    while i < tapes.len()
        invariant
            i <= tapes@.len(),
            i <= held / 2,
            held == if live <= snapshot {
                live
            } else {
                snapshot
            },
            accepted >= 0,
            forall|j: int| 0 <= j < tapes@.len() ==> (#[trigger] tapes@[j]).wf(accepted),
            pairs@.len() == i,
            forall|j: int|
                0 <= j < i ==> (#[trigger] pairs@[j])@ == gdr_rollback(tapes@[j], accepted),
        decreases tapes@.len() - i,
    {
        if i >= held / 2 {
            return GdrRollbacks { pairs, fault: Some(RollbackError::ShortSnapshot { tape: i }) };
        }
        let t: &TapeShapes = &tapes[i];
        assert(tapes@[i as int].wf(accepted));
        let replay: Option<TapeCut> = if accepted > 0 {
            Some(
                TapeCut {
                    innovation: slice_prefix_axis1(&t.innovation, accepted),
                    k: slice_prefix_axis1(&t.k, accepted),
                    g: slice_prefix_axis1(&t.g, accepted),
                },
            )
        } else {
            None
        };
        let columns: i32 = if t.qkv.len() > 2 {
            t.qkv[2]
        } else {
            0
        };
        let frames: Vec<i32> = vec![1i32, accepted, columns];
        let keep_from: i32 = conv_tail_start(t.conv[1] + accepted, t.conv[1]);
        let pair = GdrRollback { replay, frames, keep_from };
        assert(pair@ =~= gdr_rollback(tapes@[i as int], accepted));
        pairs.push(pair);
        i = i + 1;
    }
    GdrRollbacks { pairs, fault: None }
}

/// However many rows are accepted, the convolution keeps as many frames as it
/// had.
pub proof fn convolution_keeps_its_frames(t: TapeShapes, accepted: i32)
    requires
        accepted >= 0,
        t.wf(accepted),
    ensures
        t.conv@[1] + accepted - gdr_rollback(t, accepted).keep_from == t.conv@[1],
{
}

#[derive(Debug, Clone, Copy, PartialEq, Eq, Structural)]
pub enum HiddenError {
    NoLayers,
    Count { expected: usize, got: usize },
    Shape { layer: usize },
}

/// A captured layer holds the accepted rows: `[1, rows, width]`.
pub open spec fn capture_ok(shape: Seq<i32>, rows: i32) -> bool {
    shape.len() == 3 && shape[0] == 1 && shape[1] >= rows
}

pub open spec fn first_bad_capture(shapes: Seq<Vec<i32>>, n: nat, rows: i32) -> Option<usize>
    decreases n,
{
    if n == 0 {
        None
    } else {
        match first_bad_capture(shapes, (n - 1) as nat, rows) {
            Some(l) => Some(l),
            None => if capture_ok(shapes[n - 1]@, rows) {
                None
            } else {
                Some((n - 1) as usize)
            },
        }
    }
}

proof fn lemma_capture_stop(shapes: Seq<Vec<i32>>, k: nat, n: nat, rows: i32)
    requires
        k <= n,
        first_bad_capture(shapes, k, rows) is Some,
    ensures
        first_bad_capture(shapes, n, rows) == first_bad_capture(shapes, k, rows),
    decreases n,
{
    if k < n {
        lemma_capture_stop(shapes, k, (n - 1) as nat, rows);
    }
}

/// The widths that the captured layers contribute, in order, each cut to the
/// accepted rows; they are joined along the width.
pub fn build_target_hidden_from_captures(shapes: &[Vec<i32>], expected_layers: usize, rows: i32) -> (
    r: Result<Vec<i32>, HiddenError>)
    ensures
        expected_layers == 0 ==> r == Err::<Vec<i32>, HiddenError>(HiddenError::NoLayers),
        expected_layers > 0 && shapes@.len() != expected_layers ==> r == Err::<
            Vec<i32>,
            HiddenError,
        >(HiddenError::Count { expected: expected_layers, got: shapes@.len() as usize }),
        expected_layers > 0 && shapes@.len() == expected_layers ==> match first_bad_capture(
            shapes@,
            shapes@.len(),
            rows,
        ) {
            Some(layer) => r == Err::<Vec<i32>, HiddenError>(HiddenError::Shape { layer }),
            None => r is Ok && r->Ok_0@ == Seq::new(shapes@.len(), |i: int| shapes@[i]@[2]),
        },
{
    if expected_layers == 0 {
        return Err(HiddenError::NoLayers);
    }
    if shapes.len() != expected_layers {
        return Err(HiddenError::Count { expected: expected_layers, got: shapes.len() });
    }
    let mut widths: Vec<i32> = Vec::new();
    let mut i: usize = 0;
    while i < shapes.len()
        invariant
            i <= shapes@.len() == expected_layers,
            expected_layers > 0,
            first_bad_capture(shapes@, i as nat, rows) is None,
            widths@ == Seq::new(i as nat, |j: int| shapes@[j]@[2]),
        decreases shapes@.len() - i,
    {
        let s: &Vec<i32> = &shapes[i];
        if !(s.len() == 3 && s[0] == 1 && s[1] >= rows) {
            proof {
                lemma_capture_stop(shapes@, (i + 1) as nat, shapes@.len(), rows);
            }
            return Err(HiddenError::Shape { layer: i });
        }
        widths.push(s[2]);
        i = i + 1;
        assert(widths@ =~= Seq::new(i as nat, |j: int| shapes@[j]@[2]));
    }
    Ok(widths)
}

} // verus!
