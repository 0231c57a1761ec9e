//! What a token's launches compute.
//!
//! A launch turns what some buffers hold into what others hold. Running a
//! schedule symbolically gives, for every buffer, the value it ends with as a
//! term over the weights and over what the buffers held before. The laws here
//! say which terms those are: the formula of the attention part, of the expert
//! part and of the two ends of a token.
use vstd::prelude::*;

#[allow(unused_imports)]
use crate::hip::forward::{
    counted, embed_kernel, find_weight, held_at, layer_fits, token_start, weight_at, Buf,
    EmbedKernel, ForwardError, GlobalWeight, Launch, LayerWeight, SlotState,
    ModelView, Prog, RopeBase, TokenPhase, WeightEntry, WeightName,
};
#[allow(unused_imports)]
use crate::hip::loader::{KQuant, Residency};
#[allow(unused_imports)]
use crate::hip::model::{
    gemv_kind_of, AttentionLayerPlan, CompressorOffsets, GemvKind, LayerOffsets,
};
#[allow(unused_imports)]
use crate::text::decimal;

verus! {

/// Which of the three hyper-connection parameters.
pub enum MixPart {
    Pre,
    Post,
    Comb,
}

/// What a buffer holds. Weights are places in the weight table.
#[allow(inconsistent_fields)]
pub enum Term {
    /// What the buffer held before the schedule.
    Held(Buf),
    /// A token's row of the embedding table.
    Row { weight: usize, kernel: EmbedKernel, hidden: usize, token: Box<Term> },
    /// A vector copied into every residual stream.
    Spread { x: Box<Term>, hidden: usize, hc_mult: usize },
    /// The first elements of a vector, in another format.
    Cast { n: usize, x: Box<Term> },
    Quantized { k: usize, x: Box<Term> },
    /// Rows of a weight, from an offset on, times a vector.
    Times { kind: GemvKind, weight: usize, byte_offset: usize, n: usize, k: usize, x: Box<Term> },
    Normed { weight: usize, n: usize, x: Box<Term> },
    Mix {
        part: MixPart,
        stream: Box<Term>,
        mixes: Box<Term>,
        base: usize,
        scale: usize,
        stream_dim: usize,
        rows: usize,
        hc_mult: usize,
        sinkhorn_iters: usize,
    },
    /// The streams gathered into one vector, and normed.
    Gathered { stream: Box<Term>, pre: Box<Term>, norm: usize, hidden: usize, hc_mult: usize },
    /// A new vector merged back into the streams.
    Merged {
        new_x: Box<Term>,
        residual: Box<Term>,
        post: Box<Term>,
        comb: Box<Term>,
        hidden: usize,
        hc_mult: usize,
    },
    /// A query, or a key, at its position.
    Placed {
        query: bool,
        raw: Box<Term>,
        heads: usize,
        head_dim: usize,
        rope_dim: usize,
        rope: RopeBase,
        orig_seq_len: usize,
    },
    /// A ring of keys with one more in it.
    Ring { ring: Box<Term>, key: Box<Term>, window: usize },
    /// Attention over a window, and over compressed rows where there are any:
    /// over those selected, where there is a selection.
    Attended {
        query: Box<Term>,
        key: Box<Term>,
        ring: Box<Term>,
        window: usize,
        sink: usize,
        heads: usize,
        head_dim: usize,
        sliding_window: usize,
        rope_dim: usize,
        rope: RopeBase,
        orig_seq_len: usize,
        rows: Option<Box<Term>>,
        selected: Option<Box<Term>>,
        at: Option<usize>,
        mode: usize,
        ratio: usize,
        count: usize,
        topk: usize,
    },
    /// A region of a compressor's family after a step.
    Compressed {
        before: Box<Term>,
        kv: Box<Term>,
        score: Box<Term>,
        ape: usize,
        norm: usize,
        at: CompressorOffsets,
        dim: usize,
        ratio: usize,
        width: usize,
        overlap: bool,
        rope_dim: usize,
        orig_seq_len: usize,
    },
    Selected {
        query: Box<Term>,
        weights: Box<Term>,
        rows: Box<Term>,
        keys: usize,
        width: usize,
        n_heads: usize,
        head_dim: usize,
        key_count: usize,
        ratio: usize,
        topk: usize,
    },
    Zero { hidden: usize },
    Swiglu { n: usize, gate: Box<Term>, up: Box<Term> },
    /// A vector times the weight that the router gave a route.
    Weighted { route: usize, x: Box<Term> },
    Plus { hidden: usize, sum: Box<Term>, x: Box<Term> },
    HeadIn {
        stream: Box<Term>,
        mixes: Box<Term>,
        base: usize,
        scale: usize,
        stream_dim: usize,
        hidden: usize,
        hc_mult: usize,
    },
}

pub type Buffers = Map<Buf, Term>;

/// The buffers before a schedule.
pub open spec fn at_start() -> Buffers {
    Map::new(|b: Buf| true, |b: Buf| Term::Held(b))
}

/// A compressor's region after its step.
pub open spec fn compressed_in(s: Buffers, l: Launch, region: Buf) -> Term {
    match l {
        Launch::CompressorUpdate {
            ape,
            norm,
            at,
            dim,
            ratio,
            width,
            overlap,
            rope_dim,
            orig_seq_len,
            ..
        } => Term::Compressed {
            before: Box::new(s[region]),
            kv: Box::new(s[Buf::CompKv]),
            score: Box::new(s[Buf::CompScore]),
            ape,
            norm,
            at,
            dim,
            ratio,
            width,
            overlap,
            rope_dim,
            orig_seq_len,
        },
        _ => s[region],
    }
}

/// The buffers behind a launch.
pub open spec fn launched(s: Buffers, l: Launch) -> Buffers {
    match l {
        Launch::Embed { kernel, weight, hidden } => s.insert(
            Buf::Emb,
            Term::Row { weight, kernel, hidden, token: Box::new(s[Buf::TokenId]) },
        ),
        Launch::MhcExpand { hidden, hc_mult } => s.insert(
            Buf::StreamA,
            Term::Spread { x: Box::new(s[Buf::Emb]), hidden, hc_mult },
        ),
        Launch::Gemv { kind, weight, byte_offset, n, k, x, y } => s.insert(
            y,
            Term::Times { kind, weight, byte_offset, n, k, x: Box::new(s[x]) },
        ),
        Launch::CastIn { x, n } => s.insert(Buf::XF32, Term::Cast { n, x: Box::new(s[x]) }),
        Launch::QuantizeQ8 { k } => s.insert(
            Buf::Q8,
            Term::Quantized { k, x: Box::new(s[Buf::XF32]) },
        ),
        Launch::Mmvq { kind, weight, byte_offset, n, k } => s.insert(
            Buf::YF32,
            Term::Times { kind, weight, byte_offset, n, k, x: Box::new(s[Buf::Q8]) },
        ),
        Launch::CastOut { y, n } => s.insert(y, Term::Cast { n, x: Box::new(s[Buf::YF32]) }),
        Launch::RmsNorm { x, weight, n, y } => s.insert(
            y,
            Term::Normed { weight, n, x: Box::new(s[x]) },
        ),
        Launch::MhcParams { stream, base, scale, stream_dim, rows, hc_mult, sinkhorn_iters } => {
            let mix = |part: MixPart|
                Term::Mix {
                    part,
                    stream: Box::new(s[stream]),
                    mixes: Box::new(s[Buf::Mixes]),
                    base,
                    scale,
                    stream_dim,
                    rows,
                    hc_mult,
                    sinkhorn_iters,
                };
            s.insert(Buf::Pre, mix(MixPart::Pre)).insert(Buf::Post, mix(MixPart::Post)).insert(
                Buf::Comb,
                mix(MixPart::Comb),
            )
        },
        Launch::MhcPreRmsNorm { stream, norm, hidden, hc_mult } => s.insert(
            Buf::Normed,
            Term::Gathered {
                stream: Box::new(s[stream]),
                pre: Box::new(s[Buf::Pre]),
                norm,
                hidden,
                hc_mult,
            },
        ),
        Launch::MhcPost { new_x, residual, out, hidden, hc_mult } => s.insert(
            out,
            Term::Merged {
                new_x: Box::new(s[new_x]),
                residual: Box::new(s[residual]),
                post: Box::new(s[Buf::Post]),
                comb: Box::new(s[Buf::Comb]),
                hidden,
                hc_mult,
            },
        ),
        Launch::PrepareQk { heads, head_dim, rope_dim, rope, orig_seq_len } => s.insert(
            Buf::QPrepared,
            Term::Placed {
                query: true,
                raw: Box::new(s[Buf::QRaw]),
                heads,
                head_dim,
                rope_dim,
                rope,
                orig_seq_len,
            },
        ).insert(
            Buf::KPrepared,
            Term::Placed {
                query: false,
                raw: Box::new(s[Buf::KvRaw]),
                heads,
                head_dim,
                rope_dim,
                rope,
                orig_seq_len,
            },
        ),
        Launch::SwaAttention {
            window,
            sink,
            heads,
            head_dim,
            sliding_window,
            rope_dim,
            rope,
            orig_seq_len,
        } => s.insert(
            Buf::AttnLocal,
            Term::Attended {
                query: Box::new(s[Buf::QPrepared]),
                key: Box::new(s[Buf::KPrepared]),
                ring: Box::new(s[Buf::SwWindowRing]),
                window,
                sink,
                heads,
                head_dim,
                sliding_window,
                rope_dim,
                rope,
                orig_seq_len,
                rows: None,
                selected: None,
                at: None,
                mode: 0,
                ratio: 0,
                count: 0,
                topk: 0,
            },
        ).insert(
            Buf::SwWindowRing,
            Term::Ring {
                ring: Box::new(s[Buf::SwWindowRing]),
                key: Box::new(s[Buf::KPrepared]),
                window,
            },
        ),
        Launch::CompressorUpdate { indexer, .. } => if indexer {
            s.insert(Buf::IndexerPendingKv, compressed_in(s, l, Buf::IndexerPendingKv)).insert(
                Buf::IndexerPendingScore,
                compressed_in(s, l, Buf::IndexerPendingScore),
            ).insert(Buf::IndexerOverlapKv, compressed_in(s, l, Buf::IndexerOverlapKv)).insert(
                Buf::IndexerOverlapScore,
                compressed_in(s, l, Buf::IndexerOverlapScore),
            ).insert(Buf::IndexerRows, compressed_in(s, l, Buf::IndexerRows))
        } else {
            s.insert(Buf::PendingKv, compressed_in(s, l, Buf::PendingKv)).insert(
                Buf::PendingScore,
                compressed_in(s, l, Buf::PendingScore),
            ).insert(Buf::OverlapKv, compressed_in(s, l, Buf::OverlapKv)).insert(
                Buf::OverlapScore,
                compressed_in(s, l, Buf::OverlapScore),
            ).insert(Buf::CompressedRows, compressed_in(s, l, Buf::CompressedRows))
        },
        Launch::CsaSelect { keys, width, n_heads, head_dim, key_count, ratio, topk } => s.insert(
            Buf::Selected,
            Term::Selected {
                query: Box::new(s[Buf::IdxQ]),
                weights: Box::new(s[Buf::IdxW]),
                rows: Box::new(s[Buf::IndexerRows]),
                keys,
                width,
                n_heads,
                head_dim,
                key_count,
                ratio,
                topk,
            },
        ),
        Launch::HybridAttention {
            window,
            compressed,
            selected,
            sink,
            heads,
            head_dim,
            sliding_window,
            rope_dim,
            rope,
            orig_seq_len,
            mode,
            ratio,
            compressed_count,
            topk,
        } => s.insert(
            Buf::AttnLocal,
            Term::Attended {
                query: Box::new(s[Buf::QPrepared]),
                key: Box::new(s[Buf::KPrepared]),
                ring: Box::new(s[Buf::SwWindowRing]),
                window,
                sink,
                heads,
                head_dim,
                sliding_window,
                rope_dim,
                rope,
                orig_seq_len,
                rows: if compressed is Some {
                    Some(Box::new(s[Buf::CompressedRows]))
                } else {
                    None
                },
                selected: if selected {
                    Some(Box::new(s[Buf::Selected]))
                } else {
                    None
                },
                at: compressed,
                mode,
                ratio,
                count: compressed_count,
                topk,
            },
        ).insert(
            Buf::SwWindowRing,
            Term::Ring {
                ring: Box::new(s[Buf::SwWindowRing]),
                key: Box::new(s[Buf::KPrepared]),
                window,
            },
        ),
        Launch::ZeroMoeAcc { hidden } => s.insert(Buf::MoeAcc, Term::Zero { hidden }),
        Launch::SwigluClamped { n } => s.insert(
            Buf::Act,
            Term::Swiglu { n, gate: Box::new(s[Buf::Gate]), up: Box::new(s[Buf::Up]) },
        ),
        Launch::AddScaledRow { hidden, route } => s.insert(
            Buf::MoeAcc,
            Term::Plus {
                hidden,
                sum: Box::new(s[Buf::MoeAcc]),
                x: Box::new(Term::Weighted { route, x: Box::new(s[Buf::ExpertOut]) }),
            },
        ),
        Launch::AddAssign { hidden } => s.insert(
            Buf::MoeAcc,
            Term::Plus {
                hidden,
                sum: Box::new(s[Buf::MoeAcc]),
                x: Box::new(s[Buf::ExpertOut]),
            },
        ),
        Launch::MhcHeadPre { base, scale, stream_dim, hidden, hc_mult } => s.insert(
            Buf::AttnOut,
            Term::HeadIn {
                stream: Box::new(s[Buf::StreamA]),
                mixes: Box::new(s[Buf::Mixes]),
                base,
                scale,
                stream_dim,
                hidden,
                hc_mult,
            },
        ),
        Launch::CastLogits { n } => s.insert(
            Buf::YF32,
            Term::Cast { n, x: Box::new(s[Buf::LogitsBf16]) },
        ),
    }
}

/// The buffers behind the first `n` launches.
#[verifier::opaque]
pub open spec fn ran(ops: Seq<Launch>, n: nat) -> Buffers
    decreases n,
{
    if n == 0 {
        at_start()
    } else {
        launched(ran(ops, (n - 1) as nat), ops[n - 1])
    }
}

/// The buffers behind a schedule.
pub open spec fn left_by(p: Prog) -> Buffers {
    ran(p.ops, p.ops.len())
}

// ---- the formulas ----

/// Where a layer's weight stands, by its name in the model file.
pub open spec fn in_layer(t: Seq<WeightEntry>, layer: usize, suffix: Seq<char>) -> usize {
    find_weight(t, "blk."@ + decimal(layer as nat) + "."@ + suffix, t.len())->0
}

/// Where a weight outside the layers stands.
pub open spec fn in_model(t: Seq<WeightEntry>, name: Seq<char>) -> usize {
    find_weight(t, name, t.len())->0
}

/// Rows of a weight times a vector: by the kernel of its format, and through a
/// quantized copy of the vector for the two-bit formats.
#[verifier::opaque]
pub open spec fn product(
    t: Seq<WeightEntry>,
    w: usize,
    byte_offset: usize,
    n: usize,
    k: usize,
    x: Term,
) -> Term {
    let times = |kind: GemvKind, x: Term|
        Term::Times { kind, weight: w, byte_offset, n, k, x: Box::new(x) };
    let copied = Term::Quantized { k, x: Box::new(Term::Cast { n: k, x: Box::new(x) }) };
    match t[w as int].residency {
        Residency::KeepKQuant(KQuant::Q4K) => times(GemvKind::Q4K, x),
        Residency::KeepKQuant(KQuant::Q5K) => times(GemvKind::Q5K, x),
        Residency::KeepKQuant(KQuant::Q6K) => times(GemvKind::Q6K, x),
        Residency::KeepIq2Xxs => Term::Cast {
            n,
            x: Box::new(times(GemvKind::MmvqIq2Xxs, copied)),
        },
        Residency::KeepQ2K => Term::Cast { n, x: Box::new(times(GemvKind::MmvqQ2K, copied)) },
        _ => x,
    }
}

/// A whole weight times a vector: as many rows and columns as it has.
#[verifier::opaque]
pub open spec fn whole(t: Seq<WeightEntry>, w: usize, x: Term) -> Term {
    let dims = t[w as int].dims@;
    product(
        t,
        w,
        0,
        if dims.len() > 1 {
            dims[1]
        } else {
            1
        },
        if dims.len() > 0 {
            dims[0]
        } else {
            1
        },
        x,
    )
}

/// A hyper-connection parameter of a layer's attention half, or of its expert
/// half.
pub open spec fn mixed(m: ModelView, layer: usize, ffn: bool, stream: Term, part: MixPart) -> Term {
    let t = m.weights;
    let mixer = in_layer(t, layer, if ffn { "hc_ffn_fn"@ } else { "hc_attn_fn"@ });
    let dims = t[mixer as int].dims@;
    Term::Mix {
        part,
        stream: Box::new(stream),
        mixes: Box::new(whole(t, mixer, stream)),
        base: in_layer(t, layer, if ffn { "hc_ffn_base"@ } else { "hc_attn_base"@ }),
        scale: in_layer(t, layer, if ffn { "hc_ffn_scale"@ } else { "hc_attn_scale"@ }),
        stream_dim: (m.config.hidden_size * m.config.hc_mult) as usize,
        rows: if dims.len() > 1 {
            dims[1]
        } else {
            1
        },
        hc_mult: m.config.hc_mult,
        sinkhorn_iters: m.config.hc_sinkhorn_iters,
    }
}

/// The input of one half of a layer.
pub open spec fn half_input(m: ModelView, layer: usize, ffn: bool, stream: Term) -> Term {
    Term::Gathered {
        stream: Box::new(stream),
        pre: Box::new(mixed(m, layer, ffn, stream, MixPart::Pre)),
        norm: in_layer(
            m.weights,
            layer,
            if ffn { "ffn_norm.weight"@ } else { "attn_norm.weight"@ },
        ),
        hidden: m.config.hidden_size,
        hc_mult: m.config.hc_mult,
    }
}

/// One half of a layer merged back into the streams.
pub open spec fn half_output(
    m: ModelView,
    new_x: Term,
    residual: Term,
    post: Term,
    comb: Term,
) -> Term {
    Term::Merged {
        new_x: Box::new(new_x),
        residual: Box::new(residual),
        post: Box::new(post),
        comb: Box::new(comb),
        hidden: m.config.hidden_size,
        hc_mult: m.config.hc_mult,
    }
}

/// The low-rank query: a projection, normed.
pub open spec fn query_core(m: ModelView, layer: usize, x: Term) -> Term {
    Term::Normed {
        weight: in_layer(m.weights, layer, "attn_q_a_norm.weight"@),
        n: m.config.q_lora_rank,
        x: Box::new(whole(m.weights, in_layer(m.weights, layer, "attn_q_a.weight"@), x)),
    }
}

/// The query, or the key, of a layer. A layer that compresses turns them with
/// its own base, over the original context length.
pub open spec fn placed(
    m: ModelView,
    layer: usize,
    plan: AttentionLayerPlan,
    query: bool,
    x: Term,
) -> Term {
    let t = m.weights;
    let c = m.config;
    let raw = if query {
        whole(t, in_layer(t, layer, "attn_q_b.weight"@), query_core(m, layer, x))
    } else {
        Term::Normed {
            weight: in_layer(t, layer, "attn_kv_a_norm.weight"@),
            n: c.head_dim,
            x: Box::new(whole(t, in_layer(t, layer, "attn_kv_latent.weight"@), x)),
        }
    };
    Term::Placed {
        query,
        raw: Box::new(raw),
        heads: c.num_attention_heads,
        head_dim: c.head_dim,
        rope_dim: c.qk_rope_head_dim,
        rope: if plan.compress_ratio > 0 {
            RopeBase::Compressed
        } else {
            RopeBase::Plain
        },
        orig_seq_len: if plan.compress_ratio > 0 {
            c.original_max_position_embeddings
        } else {
            0
        },
    }
}

/// A region of the layer's own compressor behind its step. Steps overlap where
/// fewer than sixteen tokens make a row.
pub open spec fn own_rows(
    m: ModelView,
    layer: usize,
    plan: AttentionLayerPlan,
    at: CompressorOffsets,
    x: Term,
    region: Buf,
) -> Term {
    let t = m.weights;
    let c = m.config;
    Term::Compressed {
        before: Box::new(Term::Held(region)),
        kv: Box::new(whole(t, in_layer(t, layer, "attn_compress_kv.weight"@), x)),
        score: Box::new(whole(t, in_layer(t, layer, "attn_compress_gate.weight"@), x)),
        ape: in_layer(t, layer, "attn_compress_ape"@),
        norm: in_layer(t, layer, "attn_compress_norm.weight"@),
        at,
        dim: c.head_dim,
        ratio: plan.compress_ratio,
        width: if plan.compress_ratio < 16 {
            (2 * c.head_dim) as usize
        } else {
            c.head_dim
        },
        overlap: plan.compress_ratio < 16,
        rope_dim: c.qk_rope_head_dim,
        orig_seq_len: if plan.compress_ratio > 0 {
            c.original_max_position_embeddings
        } else {
            0
        },
    }
}

/// A region of the indexer's compressor behind its step: always overlapping,
/// never turned.
pub open spec fn index_rows(
    m: ModelView,
    layer: usize,
    plan: AttentionLayerPlan,
    at: CompressorOffsets,
    x: Term,
    region: Buf,
) -> Term {
    let t = m.weights;
    Term::Compressed {
        before: Box::new(Term::Held(region)),
        kv: Box::new(whole(t, in_layer(t, layer, "indexer.compress_kv.weight"@), x)),
        score: Box::new(whole(t, in_layer(t, layer, "indexer.compress_gate.weight"@), x)),
        ape: in_layer(t, layer, "indexer.compress_ape"@),
        norm: in_layer(t, layer, "indexer.compress_norm.weight"@),
        at,
        dim: m.config.index_head_dim,
        ratio: plan.compress_ratio,
        width: (2 * m.config.index_head_dim) as usize,
        overlap: true,
        rope_dim: 0,
        orig_seq_len: 0,
    }
}

/// The rows that a sparse layer selects: those closed so far are scored by the
/// indexer's query, which starts from the low-rank query of the layer.
pub open spec fn chosen(
    m: ModelView,
    layer: usize,
    plan: AttentionLayerPlan,
    at: CompressorOffsets,
    x: Term,
    start_pos: usize,
) -> Term {
    let t = m.weights;
    let c = m.config;
    Term::Selected {
        query: Box::new(
            whole(t, in_layer(t, layer, "indexer.attn_q_b.weight"@), query_core(m, layer, x)),
        ),
        weights: Box::new(whole(t, in_layer(t, layer, "indexer.proj.weight"@), x)),
        rows: Box::new(index_rows(m, layer, plan, at, x, Buf::IndexerRows)),
        keys: at.compressed,
        width: (c.index_n_heads * c.index_head_dim) as usize,
        n_heads: c.index_n_heads,
        head_dim: c.index_head_dim,
        key_count: ((start_pos + 1) / plan.compress_ratio as int) as usize,
        ratio: plan.compress_ratio,
        topk: c.index_topk,
    }
}

/// What a layer attends to at a position: its window; where it compresses,
/// also the rows closed so far, and where it is sparse only those chosen.
pub open spec fn attended(
    m: ModelView,
    layer: usize,
    plan: AttentionLayerPlan,
    off: LayerOffsets,
    start_pos: usize,
    x: Term,
) -> Term {
    let c = m.config;
    let compresses = !(plan.mode is SlidingWindow);
    let sparse = plan.mode is CompressedSparse;
    let count: int = if compresses {
        (start_pos + 1) / plan.compress_ratio as int
    } else {
        0
    };
    let comp = off.compressor->0;
    Term::Attended {
        query: Box::new(placed(m, layer, plan, true, x)),
        key: Box::new(placed(m, layer, plan, false, x)),
        ring: Box::new(Term::Held(Buf::SwWindowRing)),
        window: off.sw_window,
        sink: in_layer(m.weights, layer, "attn_sinks"@),
        heads: c.num_attention_heads,
        head_dim: c.head_dim,
        sliding_window: c.sliding_window,
        rope_dim: c.qk_rope_head_dim,
        rope: if plan.compress_ratio > 0 {
            RopeBase::Compressed
        } else {
            RopeBase::Plain
        },
        orig_seq_len: if plan.compress_ratio > 0 {
            c.original_max_position_embeddings
        } else {
            0
        },
        rows: if compresses && count > 0 {
            Some(Box::new(own_rows(m, layer, plan, comp, x, Buf::CompressedRows)))
        } else {
            None
        },
        selected: if sparse {
            Some(Box::new(chosen(m, layer, plan, off.indexer->0, x, start_pos)))
        } else {
            None
        },
        at: if compresses && count > 0 {
            Some(comp.compressed)
        } else {
            None
        },
        mode: if !compresses {
            0
        } else if sparse {
            1
        } else {
            2
        },
        ratio: if compresses {
            plan.compress_ratio
        } else {
            0
        },
        count: count as usize,
        topk: if compresses {
            c.index_topk
        } else {
            0
        },
    }
}

/// The output of a layer's attention.
pub open spec fn attention_output(m: ModelView, layer: usize, attended: Term) -> Term {
    let t = m.weights;
    whole(
        t,
        in_layer(t, layer, "attn_output_b.weight"@),
        whole(t, in_layer(t, layer, "attn_output_a.weight"@), attended),
    )
}

/// Bytes between two experts of a weight: its rows, of so many bytes each.
pub open spec fn bytes_apart(t: Seq<WeightEntry>, w: usize) -> int {
    let dims = t[w as int].dims@;
    t[w as int].row_bytes->0 * if dims.len() > 1 {
        dims[1] as int
    } else {
        1
    }
}

/// One expert: the gated product of its two inner projections, projected back.
pub open spec fn expert_output(m: ModelView, layer: usize, expert: usize, x: Term) -> Term {
    let t = m.weights;
    let up = in_layer(t, layer, "ffn_up_exps.weight"@);
    let gate = in_layer(t, layer, "ffn_gate_exps.weight"@);
    let down = in_layer(t, layer, "ffn_down_exps.weight"@);
    let inner = m.config.moe_intermediate_size;
    let hidden = m.config.hidden_size;
    product(
        t,
        down,
        (expert * bytes_apart(t, down)) as usize,
        hidden,
        inner,
        Term::Swiglu {
            n: inner,
            gate: Box::new(
                product(t, gate, (expert * bytes_apart(t, gate)) as usize, inner, hidden, x),
            ),
            up: Box::new(product(t, up, (expert * bytes_apart(t, up)) as usize, inner, hidden, x)),
        },
    )
}

/// The first `n` routed experts, each with the weight of its own route.
pub open spec fn routed_sum(m: ModelView, layer: usize, routes: Seq<usize>, n: nat, x: Term) -> Term
    decreases n,
{
    if n == 0 {
        Term::Zero { hidden: m.config.hidden_size }
    } else {
        Term::Plus {
            hidden: m.config.hidden_size,
            sum: Box::new(routed_sum(m, layer, routes, (n - 1) as nat, x)),
            x: Box::new(
                Term::Weighted {
                    route: (n - 1) as usize,
                    x: Box::new(expert_output(m, layer, routes[n - 1], x)),
                },
            ),
        }
    }
}

/// The experts of a layer: those routed, and the shared one where there is
/// one, which counts in full.
pub open spec fn experts_output(m: ModelView, layer: usize, routes: Seq<usize>, x: Term) -> Term {
    let t = m.weights;
    let sum = routed_sum(m, layer, routes, routes.len(), x);
    let up = in_layer(t, layer, "ffn_up_shexp.weight"@);
    let dims = t[up as int].dims@;
    if m.config.n_shared_experts == 0 {
        sum
    } else {
        Term::Plus {
            hidden: m.config.hidden_size,
            sum: Box::new(sum),
            x: Box::new(
                whole(
                    t,
                    in_layer(t, layer, "ffn_down_shexp.weight"@),
                    Term::Swiglu {
                        n: if dims.len() > 1 {
                            dims[1]
                        } else {
                            1
                        },
                        gate: Box::new(
                            whole(t, in_layer(t, layer, "ffn_gate_shexp.weight"@), x),
                        ),
                        up: Box::new(whole(t, up, x)),
                    },
                ),
            ),
        }
    }
}

// ---- running a schedule ----

/// Two states of the buffers agree but for some of them and the scratch of the
/// products.
spec fn kept(a: Buffers, b: Buffers, ys: Set<Buf>) -> bool {
    forall|c: Buf|
        !ys.contains(c) && c != Buf::XF32 && c != Buf::Q8 && c != Buf::YF32 ==> #[trigger] b[c]
            == a[c]
}

proof fn lemma_ran_prefix(ops: Seq<Launch>, l: Launch, n: nat)
    requires
        n <= ops.len(),
    ensures
        ran(ops.push(l), n) == ran(ops, n),
    decreases n,
{
    reveal(ran);
    if n > 0 {
        lemma_ran_prefix(ops, l, (n - 1) as nat);
        assert(ops.push(l)[n - 1] == ops[n - 1]);
    }
}

proof fn lemma_emitted(p: Prog, l: Launch)
    ensures
        p.err is None ==> left_by(p.emit(l)) == launched(left_by(p), l),
{
    reveal(ran);
    if p.err is None {
        lemma_ran_prefix(p.ops, l, p.ops.len());
        assert(p.ops.push(l)[p.ops.len() as int] == l);
    }
}

proof fn lemma_product(
    p: Prog,
    t: Seq<WeightEntry>,
    w: usize,
    offset: usize,
    n: usize,
    k: usize,
    x: Buf,
    y: Buf,
)
    ensures
        ({
            let q = p.gemv(t, w, offset, n, k, x, y);
            q.err is None ==> {
                &&& p.err is None
                &&& left_by(q)[y] == product(t, w, offset, n, k, left_by(p)[x])
                &&& kept(left_by(p), left_by(q), set![y])
            }
        }),
{
    reveal(product);
    let q = p.gemv(t, w, offset, n, k, x, y);
    if q.err is None {
        let kind = gemv_kind_of(t[w as int].residency)->0;
        if kind is MmvqIq2Xxs || kind is MmvqQ2K {
            let l1 = Launch::CastIn { x, n: k };
            let l2 = Launch::QuantizeQ8 { k };
            let l3 = Launch::Mmvq { kind, weight: w, byte_offset: offset, n, k };
            lemma_emitted(p, l1);
            lemma_emitted(p.emit(l1), l2);
            lemma_emitted(p.emit(l1).emit(l2), l3);
            lemma_emitted(p.emit(l1).emit(l2).emit(l3), Launch::CastOut { y, n });
        } else {
            lemma_emitted(p, Launch::Gemv { kind, weight: w, byte_offset: offset, n, k, x, y });
        }
    }
}

proof fn lemma_whole(p: Prog, t: Seq<WeightEntry>, name: WeightName, x: Buf, y: Buf)
    ensures
        ({
            let q = p.gemv_full(t, name, x, y);
            q.err is None ==> {
                &&& p.err is None && weight_at(t, name) is Some
                &&& left_by(q)[y] == whole(t, weight_at(t, name)->0, left_by(p)[x])
                &&& kept(left_by(p), left_by(q), set![y])
            }
        }),
{
    reveal(whole);
    let r = p.need(t, name);
    let w = weight_at(t, name)->0;
    if r.err is None {
        lemma_product(r, t, w, 0, t[w as int].n_spec(), t[w as int].k_spec(), x, y);
    }
}

proof fn lemma_normed(p: Prog, t: Seq<WeightEntry>, name: WeightName, x: Buf, n: usize, y: Buf)
    ensures
        ({
            let q = p.rms_norm(t, name, x, n, y);
            q.err is None ==> {
                &&& p.err is None
                &&& left_by(q)[y] == (Term::Normed {
                    weight: weight_at(t, name)->0,
                    n,
                    x: Box::new(left_by(p)[x]),
                })
                &&& kept(left_by(p), left_by(q), set![y])
            }
        }),
{
    lemma_emitted(
        p.need(t, name),
        Launch::RmsNorm { x, weight: weight_at(t, name)->0, n, y },
    );
}

// ---- the expert part ----

proof fn lemma_one_expert(m: ModelView, p: Prog, layer: usize, routes: Seq<usize>, i: int)
    requires
        0 <= i < routes.len() <= usize::MAX,
    ensures
        ({
            let q = m.one_expert(p, layer, routes, i);
            let s = left_by(p);
            q.err is None ==> {
                &&& p.err is None
                &&& left_by(q)[Buf::MoeAcc] == (Term::Plus {
                    hidden: m.config.hidden_size,
                    sum: Box::new(s[Buf::MoeAcc]),
                    x: Box::new(
                        Term::Weighted {
                            route: i as usize,
                            x: Box::new(expert_output(m, layer, routes[i], s[Buf::Normed])),
                        },
                    ),
                })
                &&& left_by(q)[Buf::Normed] == s[Buf::Normed]
                &&& left_by(q)[Buf::StreamB] == s[Buf::StreamB]
                &&& left_by(q)[Buf::Post] == s[Buf::Post]
                &&& left_by(q)[Buf::Comb] == s[Buf::Comb]
            }
        }),
{
    let t = m.weights;
    let c = m.config;
    let up = WeightName::Layer(layer, LayerWeight::UpExperts);
    let gate = WeightName::Layer(layer, LayerWeight::GateExperts);
    let down = WeightName::Layer(layer, LayerWeight::DownExperts);
    let inner = c.moe_intermediate_size;
    let h = c.hidden_size;
    let uw = weight_at(t, up)->0;
    let gw = weight_at(t, gate)->0;
    let dw = weight_at(t, down)->0;
    let uo = (routes[i] * m.expert_bytes(up)) as usize;
    let go = (routes[i] * m.expert_bytes(gate)) as usize;
    let d_o = (routes[i] * m.expert_bytes(down)) as usize;
    let q1 = p.gemv(t, uw, uo, inner, h, Buf::Normed, Buf::Up);
    let q2 = q1.gemv(t, gw, go, inner, h, Buf::Normed, Buf::Gate);
    let q3 = q2.emit(Launch::SwigluClamped { n: inner });
    let q4 = q3.gemv(t, dw, d_o, h, inner, Buf::Act, Buf::ExpertOut);
    lemma_product(p, t, uw, uo, inner, h, Buf::Normed, Buf::Up);
    lemma_product(q1, t, gw, go, inner, h, Buf::Normed, Buf::Gate);
    lemma_emitted(q2, Launch::SwigluClamped { n: inner });
    lemma_product(q3, t, dw, d_o, h, inner, Buf::Act, Buf::ExpertOut);
    lemma_emitted(q4, Launch::AddScaledRow { hidden: h, route: i as usize });
    assert(uw == in_layer(t, layer, "ffn_up_exps.weight"@));
    assert(gw == in_layer(t, layer, "ffn_gate_exps.weight"@));
    assert(dw == in_layer(t, layer, "ffn_down_exps.weight"@));
}

proof fn lemma_routed(m: ModelView, p: Prog, layer: usize, routes: Seq<usize>, n: nat)
    requires
        n <= routes.len() <= usize::MAX,
        left_by(p)[Buf::MoeAcc] == (Term::Zero { hidden: m.config.hidden_size }),
    ensures
        ({
            let q = m.experts(p, layer, routes, n);
            let s = left_by(p);
            q.err is None ==> {
                &&& p.err is None
                &&& left_by(q)[Buf::MoeAcc] == routed_sum(m, layer, routes, n, s[Buf::Normed])
                &&& left_by(q)[Buf::Normed] == s[Buf::Normed]
                &&& left_by(q)[Buf::StreamB] == s[Buf::StreamB]
                &&& left_by(q)[Buf::Post] == s[Buf::Post]
                &&& left_by(q)[Buf::Comb] == s[Buf::Comb]
            }
        }),
    decreases n,
{
    if n > 0 {
        lemma_routed(m, p, layer, routes, (n - 1) as nat);
        lemma_one_expert(
            m,
            m.experts(p, layer, routes, (n - 1) as nat),
            layer,
            routes,
            n - 1,
        );
    }
}

/// The expert part of a layer sums every routed expert once, with the weight of
/// its own route and from its own rows of the weights, adds the shared expert,
/// and merges the sum into the streams that the attention part left.
pub proof fn experts_are_summed_with_their_own_weights(
    m: ModelView,
    plans: Seq<AttentionLayerPlan>,
    offsets: Seq<LayerOffsets>,
    lm_head: GlobalWeight,
    start_pos: usize,
    layer: usize,
    routes: Seq<usize>,
)
    requires
        routes.len() <= usize::MAX,
        m.phase(TokenPhase::Experts { layer }, plans, offsets, lm_head, start_pos, routes).err
            is None,
    ensures
        left_by(
            m.phase(TokenPhase::Experts { layer }, plans, offsets, lm_head, start_pos, routes),
        )[Buf::StreamA] == half_output(
            m,
            experts_output(m, layer, routes, Term::Held(Buf::Normed)),
            Term::Held(Buf::StreamB),
            Term::Held(Buf::Post),
            Term::Held(Buf::Comb),
        ),
{
    let t = m.weights;
    let c = m.config;
    let up = WeightName::Layer(layer, LayerWeight::UpExperts);
    let gate = WeightName::Layer(layer, LayerWeight::GateExperts);
    let down = WeightName::Layer(layer, LayerWeight::DownExperts);
    let l0 = Launch::ZeroMoeAcc { hidden: c.hidden_size };
    lemma_emitted(Prog::empty(), l0);
    assert(left_by(Prog::empty()) == at_start()) by {
        reveal(ran);
    }
    let p0 = Prog::empty().emit(l0);
    let p1 = p0.need(t, up).need(t, gate).need(t, down);
    let p2 = m.need_aligned(m.need_aligned(m.need_aligned(p1, up), gate), down);
    assert(p2.ops == p0.ops);
    lemma_routed(m, p2, layer, routes, routes.len());
    let p3 = m.experts(p2, layer, routes, routes.len());
    let su = WeightName::Layer(layer, LayerWeight::UpShared);
    let sg = WeightName::Layer(layer, LayerWeight::GateShared);
    let sd = WeightName::Layer(layer, LayerWeight::DownShared);
    let p4 = m.shared_expert(p3, layer);
    if c.n_shared_experts > 0 {
        let q1 = p3.gemv_full(t, su, Buf::Normed, Buf::Up);
        let q2 = q1.gemv_full(t, sg, Buf::Normed, Buf::Gate);
        let l = Launch::SwigluClamped { n: t[weight_at(t, su)->0 as int].n_spec() };
        let q3 = q2.emit(l);
        let q4 = q3.gemv_full(t, sd, Buf::Act, Buf::ExpertOut);
        lemma_whole(p3, t, su, Buf::Normed, Buf::Up);
        lemma_whole(q1, t, sg, Buf::Normed, Buf::Gate);
        lemma_emitted(q2, l);
        lemma_whole(q3, t, sd, Buf::Act, Buf::ExpertOut);
        lemma_emitted(q4, Launch::AddAssign { hidden: c.hidden_size });
        assert(weight_at(t, su)->0 == in_layer(t, layer, "ffn_up_shexp.weight"@));
        assert(weight_at(t, sg)->0 == in_layer(t, layer, "ffn_gate_shexp.weight"@));
        assert(weight_at(t, sd)->0 == in_layer(t, layer, "ffn_down_shexp.weight"@));
    }
    lemma_emitted(
        p4,
        Launch::MhcPost {
            new_x: Buf::MoeAcc,
            residual: Buf::StreamB,
            out: Buf::StreamA,
            hidden: c.hidden_size,
            hc_mult: c.hc_mult,
        },
    );
}

// ---- the attention part ----

proof fn lemma_mixed(m: ModelView, p: Prog, layer: usize, ffn: bool, stream: Buf)
    requires
        stream == Buf::StreamA || stream == Buf::StreamB,
    ensures
        ({
            let q = m.mhc_params(p, layer, ffn, stream);
            let s = left_by(p);
            q.err is None ==> {
                &&& p.err is None
                &&& left_by(q)[Buf::Pre] == mixed(m, layer, ffn, s[stream], MixPart::Pre)
                &&& left_by(q)[Buf::Post] == mixed(m, layer, ffn, s[stream], MixPart::Post)
                &&& left_by(q)[Buf::Comb] == mixed(m, layer, ffn, s[stream], MixPart::Comb)
                &&& kept(s, left_by(q), set![Buf::Mixes, Buf::Pre, Buf::Post, Buf::Comb])
            }
        }),
{
    let t = m.weights;
    let mixer = WeightName::Layer(
        layer,
        if ffn {
            LayerWeight::HcFfnFn
        } else {
            LayerWeight::HcAttnFn
        },
    );
    let base = WeightName::Layer(
        layer,
        if ffn {
            LayerWeight::HcFfnBase
        } else {
            LayerWeight::HcAttnBase
        },
    );
    let scale = WeightName::Layer(
        layer,
        if ffn {
            LayerWeight::HcFfnScale
        } else {
            LayerWeight::HcAttnScale
        },
    );
    let p1 = p.need(t, mixer).need(t, base).need(t, scale);
    let w = weight_at(t, mixer)->0;
    let rows = t[w as int].n_spec();
    let k = t[w as int].k_spec();
    reveal(whole);
    let p2 = p1.gemv(t, w, 0, rows, k, stream, Buf::Mixes);
    lemma_product(p1, t, w, 0, rows, k, stream, Buf::Mixes);
    lemma_emitted(
        p2,
        Launch::MhcParams {
            stream,
            base: weight_at(t, base)->0,
            scale: weight_at(t, scale)->0,
            stream_dim: m.stream_dim(),
            rows,
            hc_mult: m.config.hc_mult,
            sinkhorn_iters: m.config.hc_sinkhorn_iters,
        },
    );
    assert(w == in_layer(t, layer, if ffn { "hc_ffn_fn"@ } else { "hc_attn_fn"@ }));
    assert(weight_at(t, base)->0 == in_layer(
        t,
        layer,
        if ffn { "hc_ffn_base"@ } else { "hc_attn_base"@ },
    ));
    assert(weight_at(t, scale)->0 == in_layer(
        t,
        layer,
        if ffn { "hc_ffn_scale"@ } else { "hc_attn_scale"@ },
    ));
}

proof fn lemma_half_input(m: ModelView, p: Prog, layer: usize, ffn: bool, stream: Buf)
    requires
        stream == Buf::StreamA || stream == Buf::StreamB,
    ensures
        ({
            let norm = WeightName::Layer(
                layer,
                if ffn {
                    LayerWeight::FfnNorm
                } else {
                    LayerWeight::AttnNorm
                },
            );
            let q = m.mhc_pre(m.mhc_params(p, layer, ffn, stream), norm, stream);
            let s = left_by(p);
            q.err is None ==> {
                &&& p.err is None
                &&& left_by(q)[Buf::Normed] == half_input(m, layer, ffn, s[stream])
                &&& left_by(q)[Buf::Post] == mixed(m, layer, ffn, s[stream], MixPart::Post)
                &&& left_by(q)[Buf::Comb] == mixed(m, layer, ffn, s[stream], MixPart::Comb)
                &&& kept(
                    s,
                    left_by(q),
                    set![Buf::Mixes, Buf::Pre, Buf::Post, Buf::Comb, Buf::Normed],
                )
            }
        }),
{
    let norm = WeightName::Layer(
        layer,
        if ffn {
            LayerWeight::FfnNorm
        } else {
            LayerWeight::AttnNorm
        },
    );
    lemma_mixed(m, p, layer, ffn, stream);
    lemma_emitted(
        m.mhc_params(p, layer, ffn, stream).need(m.weights, norm),
        Launch::MhcPreRmsNorm {
            stream,
            norm: weight_at(m.weights, norm)->0,
            hidden: m.config.hidden_size,
            hc_mult: m.config.hc_mult,
        },
    );
    assert(weight_at(m.weights, norm)->0 == in_layer(
        m.weights,
        layer,
        if ffn { "ffn_norm.weight"@ } else { "attn_norm.weight"@ },
    ));
}

proof fn lemma_placed(m: ModelView, p: Prog, layer: usize, plan: AttentionLayerPlan)
    ensures
        ({
            let q = m.project_qk(p, layer, plan);
            let s = left_by(p);
            let x = s[Buf::Normed];
            q.err is None ==> {
                &&& p.err is None
                &&& left_by(q)[Buf::CQ] == query_core(m, layer, x)
                &&& left_by(q)[Buf::QPrepared] == placed(m, layer, plan, true, x)
                &&& left_by(q)[Buf::KPrepared] == placed(m, layer, plan, false, x)
                &&& kept(
                    s,
                    left_by(q),
                    set![Buf::CQ, Buf::QRaw, Buf::KvRaw, Buf::QPrepared, Buf::KPrepared],
                )
            }
        }),
{
    let t = m.weights;
    let c = m.config;
    let qa = WeightName::Layer(layer, LayerWeight::AttnQA);
    let qn = WeightName::Layer(layer, LayerWeight::AttnQANorm);
    let qb = WeightName::Layer(layer, LayerWeight::AttnQB);
    let kv = WeightName::Layer(layer, LayerWeight::AttnKvLatent);
    let kn = WeightName::Layer(layer, LayerWeight::AttnKvANorm);
    let p1 = p.gemv_full(t, qa, Buf::Normed, Buf::CQ);
    let p2 = p1.rms_norm(t, qn, Buf::CQ, c.q_lora_rank, Buf::CQ);
    let p3 = p2.gemv_full(t, qb, Buf::CQ, Buf::QRaw);
    let p4 = p3.gemv_full(t, kv, Buf::Normed, Buf::KvRaw);
    let p5 = p4.rms_norm(t, kn, Buf::KvRaw, c.head_dim, Buf::KvRaw);
    lemma_whole(p, t, qa, Buf::Normed, Buf::CQ);
    lemma_normed(p1, t, qn, Buf::CQ, c.q_lora_rank, Buf::CQ);
    lemma_whole(p2, t, qb, Buf::CQ, Buf::QRaw);
    lemma_whole(p3, t, kv, Buf::Normed, Buf::KvRaw);
    lemma_normed(p4, t, kn, Buf::KvRaw, c.head_dim, Buf::KvRaw);
    lemma_emitted(
        p5,
        Launch::PrepareQk {
            heads: c.num_attention_heads,
            head_dim: c.head_dim,
            rope_dim: c.qk_rope_head_dim,
            rope: m.rope_of(plan).0,
            orig_seq_len: m.rope_of(plan).1,
        },
    );
    assert(weight_at(t, qa)->0 == in_layer(t, layer, "attn_q_a.weight"@));
    assert(weight_at(t, qn)->0 == in_layer(t, layer, "attn_q_a_norm.weight"@));
    assert(weight_at(t, qb)->0 == in_layer(t, layer, "attn_q_b.weight"@));
    assert(weight_at(t, kv)->0 == in_layer(t, layer, "attn_kv_latent.weight"@));
    assert(weight_at(t, kn)->0 == in_layer(t, layer, "attn_kv_a_norm.weight"@));
}

/// The five regions of a compressor's family.
pub open spec fn family(indexer: bool) -> Set<Buf> {
    if indexer {
        set![
            Buf::IndexerPendingKv,
            Buf::IndexerPendingScore,
            Buf::IndexerOverlapKv,
            Buf::IndexerOverlapScore,
            Buf::IndexerRows,
        ]
    } else {
        set![
            Buf::PendingKv,
            Buf::PendingScore,
            Buf::OverlapKv,
            Buf::OverlapScore,
            Buf::CompressedRows,
        ]
    }
}

/// A compressor's regions have gone one step on from untouched ones.
spec fn stepped(
    m: ModelView,
    layer: usize,
    plan: AttentionLayerPlan,
    indexer: bool,
    at: CompressorOffsets,
    s: Buffers,
    end: Buffers,
) -> bool {
    forall|b: Buf|
        family(indexer).contains(b) && s[b] == Term::Held(b) ==> {
            &&& indexer ==> #[trigger] end[b] == index_rows(
                m,
                layer,
                plan,
                at,
                s[Buf::Normed],
                b,
            )
            &&& !indexer ==> end[b] == own_rows(m, layer, plan, at, s[Buf::Normed], b)
        }
}

proof fn lemma_compressed(
    m: ModelView,
    p: Prog,
    layer: usize,
    plan: AttentionLayerPlan,
    indexer: bool,
    at: CompressorOffsets,
)
    ensures
        ({
            let c = m.config;
            let q = if indexer {
                m.compressor_update(
                    p,
                    layer,
                    true,
                    at,
                    c.index_head_dim,
                    plan.compress_ratio,
                    true,
                    0,
                    0,
                )
            } else {
                m.compressor_update(
                    p,
                    layer,
                    false,
                    at,
                    c.head_dim,
                    plan.compress_ratio,
                    plan.compress_ratio < 16,
                    c.qk_rope_head_dim,
                    m.rope_of(plan).1,
                )
            };
            let s = left_by(p);
            q.err is None ==> {
                &&& p.err is None
                &&& stepped(m, layer, plan, indexer, at, s, left_by(q))
                &&& kept(s, left_by(q), family(indexer).insert(Buf::CompKv).insert(Buf::CompScore))
            }
        }),
{
    let t = m.weights;
    let c = m.config;
    let dim = if indexer {
        c.index_head_dim
    } else {
        c.head_dim
    };
    let overlap = indexer || plan.compress_ratio < 16;
    let kv = WeightName::Layer(
        layer,
        if indexer {
            LayerWeight::IndexerKv
        } else {
            LayerWeight::CompressKv
        },
    );
    let gate = WeightName::Layer(
        layer,
        if indexer {
            LayerWeight::IndexerGate
        } else {
            LayerWeight::CompressGate
        },
    );
    let ape = WeightName::Layer(
        layer,
        if indexer {
            LayerWeight::IndexerApe
        } else {
            LayerWeight::CompressApe
        },
    );
    let norm = WeightName::Layer(
        layer,
        if indexer {
            LayerWeight::IndexerNorm
        } else {
            LayerWeight::CompressNorm
        },
    );
    let p0 = p.need(t, kv).need(t, gate);
    let p1 = p0.gemv_full(t, kv, Buf::Normed, Buf::CompKv);
    let p2 = p1.gemv_full(t, gate, Buf::Normed, Buf::CompScore);
    let p3 = p2.need(t, ape).need(t, norm);
    lemma_whole(p0, t, kv, Buf::Normed, Buf::CompKv);
    lemma_whole(p1, t, gate, Buf::Normed, Buf::CompScore);
    lemma_emitted(
        p3,
        Launch::CompressorUpdate {
            indexer,
            ape: weight_at(t, ape)->0,
            norm: weight_at(t, norm)->0,
            at,
            dim,
            ratio: plan.compress_ratio,
            width: (if overlap {
                2 * dim
            } else {
                dim as int
            }) as usize,
            overlap,
            rope_dim: if indexer {
                0
            } else {
                c.qk_rope_head_dim
            },
            orig_seq_len: if indexer {
                0
            } else {
                m.rope_of(plan).1
            },
        },
    );
    if indexer {
        assert(weight_at(t, kv)->0 == in_layer(t, layer, "indexer.compress_kv.weight"@));
        assert(weight_at(t, gate)->0 == in_layer(t, layer, "indexer.compress_gate.weight"@));
        assert(weight_at(t, ape)->0 == in_layer(t, layer, "indexer.compress_ape"@));
        assert(weight_at(t, norm)->0 == in_layer(t, layer, "indexer.compress_norm.weight"@));
    } else {
        assert(weight_at(t, kv)->0 == in_layer(t, layer, "attn_compress_kv.weight"@));
        assert(weight_at(t, gate)->0 == in_layer(t, layer, "attn_compress_gate.weight"@));
        assert(weight_at(t, ape)->0 == in_layer(t, layer, "attn_compress_ape"@));
        assert(weight_at(t, norm)->0 == in_layer(t, layer, "attn_compress_norm.weight"@));
    }
}

#[verifier::rlimit(40)]
proof fn lemma_attended(
    m: ModelView,
    p: Prog,
    layer: usize,
    plan: AttentionLayerPlan,
    off: LayerOffsets,
    start_pos: usize,
    x: Term,
)
    requires
        layer_fits(plan, off),
        start_pos < usize::MAX,
        p.err is None ==> {
            &&& left_by(p)[Buf::Normed] == x
            &&& left_by(p)[Buf::CQ] == query_core(m, layer, x)
            &&& left_by(p)[Buf::QPrepared] == placed(m, layer, plan, true, x)
            &&& left_by(p)[Buf::KPrepared] == placed(m, layer, plan, false, x)
            &&& left_by(p)[Buf::SwWindowRing] == Term::Held(Buf::SwWindowRing)
            &&& forall|b: Buf|
                family(false).contains(b) || family(true).contains(b) ==> #[trigger] left_by(p)[b]
                    == Term::Held(b)
        },
    ensures
        ({
            let q = m.attend(p, layer, plan, off, start_pos);
            q.err is None ==> {
                &&& p.err is None
                &&& left_by(q)[Buf::AttnLocal] == attended(m, layer, plan, off, start_pos, x)
                &&& carried_on(m, layer, plan, off, x, left_by(q))
                &&& left_by(q)[Buf::StreamA] == left_by(p)[Buf::StreamA]
                &&& left_by(q)[Buf::Post] == left_by(p)[Buf::Post]
                &&& left_by(q)[Buf::Comb] == left_by(p)[Buf::Comb]
            }
        }),
{
    let t = m.weights;
    let c = m.config;
    let (rope, orig_seq_len) = m.rope_of(plan);
    let sink = WeightName::Layer(layer, LayerWeight::AttnSinks);
    let q0 = p.need(t, sink);
    assert(weight_at(t, sink)->0 == in_layer(t, layer, "attn_sinks"@));
    if plan.mode is SlidingWindow {
        lemma_emitted(
            q0,
            Launch::SwaAttention {
                window: off.sw_window,
                sink: weight_at(t, sink)->0,
                heads: c.num_attention_heads,
                head_dim: c.head_dim,
                sliding_window: c.sliding_window,
                rope_dim: c.qk_rope_head_dim,
                rope,
                orig_seq_len,
            },
        );
    } else {
        let ratio = plan.compress_ratio;
        let comp = off.compressor->0;
        let sparse = plan.mode is CompressedSparse;
        let q1 = m.compressor_update(
            q0,
            layer,
            false,
            comp,
            c.head_dim,
            ratio,
            ratio < 16,
            c.qk_rope_head_dim,
            orig_seq_len,
        );
        lemma_compressed(m, q0, layer, plan, false, comp);
        let q2 = if sparse {
            m.select_rows(q1, layer, plan, off.indexer->0, start_pos)
        } else {
            q1
        };
        if sparse {
            lemma_chosen(m, q1, layer, plan, off.indexer->0, start_pos, x);
        }
        let count = ((start_pos + 1) / ratio as int) as usize;
        assert((start_pos + 1) / ratio as int <= start_pos + 1 && (start_pos + 1) / ratio as int
            >= 0) by (nonlinear_arith)
            requires
                ratio > 0,
        ;
        lemma_emitted(
            q2,
            Launch::HybridAttention {
                window: off.sw_window,
                compressed: if count > 0 {
                    Some(comp.compressed)
                } else {
                    None
                },
                selected: sparse,
                sink: weight_at(t, sink)->0,
                heads: c.num_attention_heads,
                head_dim: c.head_dim,
                sliding_window: c.sliding_window,
                rope_dim: c.qk_rope_head_dim,
                rope,
                orig_seq_len,
                mode: if sparse {
                    1
                } else {
                    2
                },
                ratio,
                compressed_count: count,
                topk: c.index_topk,
            },
        );
    }
}

#[verifier::rlimit(40)]
proof fn lemma_chosen(
    m: ModelView,
    p: Prog,
    layer: usize,
    plan: AttentionLayerPlan,
    at: CompressorOffsets,
    start_pos: usize,
    x: Term,
)
    requires
        p.err is None ==> {
            &&& left_by(p)[Buf::Normed] == x
            &&& left_by(p)[Buf::CQ] == query_core(m, layer, x)
            &&& forall|b: Buf|
                family(true).contains(b) ==> #[trigger] left_by(p)[b] == Term::Held(b)
        },
    ensures
        ({
            let q = m.select_rows(p, layer, plan, at, start_pos);
            q.err is None ==> {
                &&& p.err is None
                &&& left_by(q)[Buf::Selected] == chosen(m, layer, plan, at, x, start_pos)
                &&& forall|b: Buf|
                    family(true).contains(b) ==> #[trigger] left_by(q)[b] == index_rows(
                        m,
                        layer,
                        plan,
                        at,
                        x,
                        b,
                    )
                &&& kept(
                    left_by(p),
                    left_by(q),
                    family(true).union(
                        set![Buf::CompKv, Buf::CompScore, Buf::IdxQ, Buf::IdxW, Buf::Selected],
                    ),
                )
            }
        }),
{
    let t = m.weights;
    let c = m.config;
    let qb = WeightName::Layer(layer, LayerWeight::IndexerQB);
    let pr = WeightName::Layer(layer, LayerWeight::IndexerProj);
    let q1 = m.compressor_update(
        p,
        layer,
        true,
        at,
        c.index_head_dim,
        plan.compress_ratio,
        true,
        0,
        0,
    );
    let q2 = q1.gemv_full(t, qb, Buf::CQ, Buf::IdxQ);
    let q3 = q2.gemv_full(t, pr, Buf::Normed, Buf::IdxW);
    lemma_compressed(m, p, layer, plan, true, at);
    lemma_whole(q1, t, qb, Buf::CQ, Buf::IdxQ);
    lemma_whole(q2, t, pr, Buf::Normed, Buf::IdxW);
    lemma_emitted(
        q3,
        Launch::CsaSelect {
            keys: at.compressed,
            width: (c.index_n_heads * c.index_head_dim) as usize,
            n_heads: c.index_n_heads,
            head_dim: c.index_head_dim,
            key_count: ((start_pos + 1) / plan.compress_ratio as int) as usize,
            ratio: plan.compress_ratio,
            topk: c.index_topk,
        },
    );
    assert(weight_at(t, qb)->0 == in_layer(t, layer, "indexer.attn_q_b.weight"@));
    assert(weight_at(t, pr)->0 == in_layer(t, layer, "indexer.proj.weight"@));
}

/// What a layer keeps for the tokens to come: its window with the new key in
/// it, and the regions of the compressors that it has, each one step on. The
/// regions of a compressor that it does not have are left alone.
pub open spec fn carried_on(
    m: ModelView,
    layer: usize,
    plan: AttentionLayerPlan,
    off: LayerOffsets,
    x: Term,
    end: Buffers,
) -> bool {
    let compresses = !(plan.mode is SlidingWindow);
    let sparse = plan.mode is CompressedSparse;
    &&& end[Buf::SwWindowRing] == Term::Ring {
        ring: Box::new(Term::Held(Buf::SwWindowRing)),
        key: Box::new(placed(m, layer, plan, false, x)),
        window: off.sw_window,
    }
    &&& forall|b: Buf|
        family(false).contains(b) ==> {
            &&& compresses ==> #[trigger] end[b] == own_rows(
                m,
                layer,
                plan,
                off.compressor->0,
                x,
                b,
            )
            &&& !compresses ==> end[b] == Term::Held(b)
        }
    &&& forall|b: Buf|
        family(true).contains(b) ==> {
            &&& sparse ==> #[trigger] end[b] == index_rows(m, layer, plan, off.indexer->0, x, b)
            &&& !sparse ==> end[b] == Term::Held(b)
        }
}

/// The attention part of a layer gathers the streams, attends at the token's
/// position over what the layer keeps, and merges the output into the second
/// streams; from those it gathers the input of the expert part, whose router
/// logits it computes. What the layer keeps goes one token on.
#[verifier::rlimit(40)]
pub proof fn attention_is_merged_and_routed(
    m: ModelView,
    plans: Seq<AttentionLayerPlan>,
    offsets: Seq<LayerOffsets>,
    lm_head: GlobalWeight,
    start_pos: usize,
    layer: usize,
    routes: Seq<usize>,
)
    requires
        layer_fits(plans[layer as int], offsets[layer as int]),
        start_pos < usize::MAX,
        m.phase(TokenPhase::Attention { layer }, plans, offsets, lm_head, start_pos, routes).err
            is None,
    ensures
        ({
            let end = left_by(
                m.phase(
                    TokenPhase::Attention { layer },
                    plans,
                    offsets,
                    lm_head,
                    start_pos,
                    routes,
                ),
            );
            let plan = plans[layer as int];
            let off = offsets[layer as int];
            let a = Term::Held(Buf::StreamA);
            let x = half_input(m, layer, false, a);
            let b = half_output(
                m,
                attention_output(m, layer, attended(m, layer, plan, off, start_pos, x)),
                a,
                mixed(m, layer, false, a, MixPart::Post),
                mixed(m, layer, false, a, MixPart::Comb),
            );
            let y = half_input(m, layer, true, b);
            &&& end[Buf::StreamB] == b
            &&& end[Buf::Normed] == y
            &&& end[Buf::Post] == mixed(m, layer, true, b, MixPart::Post)
            &&& end[Buf::Comb] == mixed(m, layer, true, b, MixPart::Comb)
            &&& end[Buf::RouterLogits] == whole(
                m.weights,
                in_layer(m.weights, layer, "ffn_gate_inp.weight"@),
                y,
            )
            &&& carried_on(m, layer, plan, off, x, end)
        }),
{
    let plan = plans[layer as int];
    let off = offsets[layer as int];
    let t = m.weights;
    let a = Term::Held(Buf::StreamA);
    let x = half_input(m, layer, false, a);
    let p0 = Prog::empty();
    assert(left_by(p0) == at_start()) by {
        reveal(ran);
    }
    let p1 = m.mhc_params(p0, layer, false, Buf::StreamA);
    let p2 = m.mhc_pre(p1, WeightName::Layer(layer, LayerWeight::AttnNorm), Buf::StreamA);
    let p3 = m.project_qk(p2, layer, plan);
    let p4 = m.attend(p3, layer, plan, off, start_pos);
    let oa = WeightName::Layer(layer, LayerWeight::AttnOutputA);
    let ob = WeightName::Layer(layer, LayerWeight::AttnOutputB);
    let ro = WeightName::Layer(layer, LayerWeight::Router);
    let p5 = p4.gemv_full(t, oa, Buf::AttnLocal, Buf::Latent);
    let p6 = p5.gemv_full(t, ob, Buf::Latent, Buf::AttnOut);
    let p7 = m.mhc_post(p6, Buf::AttnOut, Buf::StreamA, Buf::StreamB);
    let p8 = m.mhc_params(p7, layer, true, Buf::StreamB);
    let p9 = m.mhc_pre(p8, WeightName::Layer(layer, LayerWeight::FfnNorm), Buf::StreamB);
    lemma_half_input(m, p0, layer, false, Buf::StreamA);
    lemma_placed(m, p2, layer, plan);
    lemma_attended(m, p3, layer, plan, off, start_pos, x);
    lemma_whole(p4, t, oa, Buf::AttnLocal, Buf::Latent);
    lemma_whole(p5, t, ob, Buf::Latent, Buf::AttnOut);
    lemma_emitted(
        p6,
        Launch::MhcPost {
            new_x: Buf::AttnOut,
            residual: Buf::StreamA,
            out: Buf::StreamB,
            hidden: m.config.hidden_size,
            hc_mult: m.config.hc_mult,
        },
    );
    lemma_half_input(m, p7, layer, true, Buf::StreamB);
    lemma_whole(p9, t, ro, Buf::Normed, Buf::RouterLogits);
    assert(weight_at(t, oa)->0 == in_layer(t, layer, "attn_output_a.weight"@));
    assert(weight_at(t, ob)->0 == in_layer(t, layer, "attn_output_b.weight"@));
    assert(weight_at(t, ro)->0 == in_layer(t, layer, "ffn_gate_inp.weight"@));
}

// ---- the two ends of a token ----

/// How rows of an embedding table of a format are read.
pub open spec fn row_kernel(r: Residency) -> EmbedKernel {
    match r {
        Residency::KeepKQuant(KQuant::Q4K) => EmbedKernel::Q4K,
        Residency::KeepKQuant(KQuant::Q5K) => EmbedKernel::Q5K,
        Residency::KeepKQuant(KQuant::Q6K) => EmbedKernel::Q6K,
        _ => EmbedKernel::Bf16,
    }
}

/// A token starts as its row of the embedding table in every stream, and ends
/// as the logits of the whole vocabulary: the streams gathered by the head's
/// mixer, normed, times the output weight.
pub proof fn a_token_goes_from_its_row_to_its_logits(
    m: ModelView,
    plans: Seq<AttentionLayerPlan>,
    offsets: Seq<LayerOffsets>,
    lm_head: GlobalWeight,
    start_pos: usize,
    routes: Seq<usize>,
)
    ensures
        m.phase(TokenPhase::Embed, plans, offsets, lm_head, start_pos, routes).err is None ==> ({
            let w = in_model(m.weights, "token_embd.weight"@);
            left_by(
                m.phase(TokenPhase::Embed, plans, offsets, lm_head, start_pos, routes),
            )[Buf::StreamA] == (Term::Spread {
                x: Box::new(
                    Term::Row {
                        weight: w,
                        kernel: row_kernel(m.weights[w as int].residency),
                        hidden: m.config.hidden_size,
                        token: Box::new(Term::Held(Buf::TokenId)),
                    },
                ),
                hidden: m.config.hidden_size,
                hc_mult: m.config.hc_mult,
            })
        }),
        m.phase(TokenPhase::Head, plans, offsets, lm_head, start_pos, routes).err is None ==> ({
            let t = m.weights;
            let c = m.config;
            let a = Term::Held(Buf::StreamA);
            let x = Term::Normed {
                weight: in_model(t, "output_norm.weight"@),
                n: c.hidden_size,
                x: Box::new(
                    Term::HeadIn {
                        stream: Box::new(a),
                        mixes: Box::new(whole(t, in_model(t, "hc_head_fn"@), a)),
                        base: in_model(t, "hc_head_base"@),
                        scale: in_model(t, "hc_head_scale"@),
                        stream_dim: (c.hidden_size * c.hc_mult) as usize,
                        hidden: c.hidden_size,
                        hc_mult: c.hc_mult,
                    },
                ),
            };
            let logits = product(
                t,
                in_model(
                    t,
                    match lm_head {
                        GlobalWeight::Output => "output.weight"@,
                        GlobalWeight::TokenEmbd => "token_embd.weight"@,
                        _ => lm_head.text(),
                    },
                ),
                0,
                c.vocab_size,
                c.hidden_size,
                x,
            );
            left_by(
                m.phase(TokenPhase::Head, plans, offsets, lm_head, start_pos, routes),
            )[Buf::YF32] == (Term::Cast {
                n: c.vocab_size,
                x: Box::new(logits),
            })
        }),
{
    let t = m.weights;
    let c = m.config;
    let p0 = Prog::empty();
    assert(left_by(p0) == at_start()) by {
        reveal(ran);
    }
    let name = WeightName::Global(GlobalWeight::TokenEmbd);
    let w = weight_at(t, name)->0;
    assert(w == in_model(t, "token_embd.weight"@));
    if m.embed().err is None {
        let kernel = embed_kernel(t[w as int].residency)->0;
        let l = Launch::Embed { kernel, weight: w, hidden: c.hidden_size };
        let p1 = p0.need(t, name);
        lemma_emitted(p1, l);
        lemma_emitted(
            p1.emit(l),
            Launch::MhcExpand { hidden: c.hidden_size, hc_mult: c.hc_mult },
        );
    }
    let mixer = WeightName::Global(GlobalWeight::HcHeadFn);
    let base = WeightName::Global(GlobalWeight::HcHeadBase);
    let scale = WeightName::Global(GlobalWeight::HcHeadScale);
    let norm = WeightName::Global(GlobalWeight::OutputNorm);
    let lm = WeightName::Global(lm_head);
    let q1 = p0.gemv_full(t, mixer, Buf::StreamA, Buf::Mixes);
    let q2 = q1.need(t, base).need(t, scale);
    let l = Launch::MhcHeadPre {
        base: weight_at(t, base)->0,
        scale: weight_at(t, scale)->0,
        stream_dim: m.stream_dim(),
        hidden: c.hidden_size,
        hc_mult: c.hc_mult,
    };
    let q3 = q2.emit(l);
    let q4 = q3.rms_norm(t, norm, Buf::AttnOut, c.hidden_size, Buf::Normed);
    let q5 = q4.need(t, lm);
    let v = weight_at(t, lm)->0;
    let q6 = q5.gemv(t, v, 0, c.vocab_size, c.hidden_size, Buf::Normed, Buf::LogitsBf16);
    if m.head(lm_head).err is None {
        lemma_whole(p0, t, mixer, Buf::StreamA, Buf::Mixes);
        lemma_emitted(q2, l);
        lemma_normed(q3, t, norm, Buf::AttnOut, c.hidden_size, Buf::Normed);
        lemma_product(
            q5,
            t,
            v,
            0,
            c.vocab_size,
            c.hidden_size,
            Buf::Normed,
            Buf::LogitsBf16,
        );
        lemma_emitted(q6, Launch::CastLogits { n: c.vocab_size });
    }
    assert(weight_at(t, mixer)->0 == in_model(t, "hc_head_fn"@));
    assert(weight_at(t, base)->0 == in_model(t, "hc_head_base"@));
    assert(weight_at(t, scale)->0 == in_model(t, "hc_head_scale"@));
    assert(weight_at(t, norm)->0 == in_model(t, "output_norm.weight"@));
}

// ---- routes, weights and slots ----

/// The routes whose weights the first `n` launches apply, in order.
pub open spec fn weighed(ops: Seq<Launch>, n: nat) -> Seq<usize>
    decreases n,
{
    if n == 0 {
        seq![]
    } else {
        match ops[n - 1] {
            Launch::AddScaledRow { route, .. } => weighed(ops, (n - 1) as nat).push(route),
            _ => weighed(ops, (n - 1) as nat),
        }
    }
}

proof fn lemma_weighed_prefix(ops: Seq<Launch>, l: Launch, n: nat)
    requires
        n <= ops.len(),
    ensures
        weighed(ops.push(l), n) == weighed(ops, n),
    decreases n,
{
    if n > 0 {
        lemma_weighed_prefix(ops, l, (n - 1) as nat);
        assert(ops.push(l)[n - 1] == ops[n - 1]);
    }
}

proof fn lemma_weighed(p: Prog, l: Launch)
    ensures
        p.err is None ==> weighed(p.emit(l).ops, p.emit(l).ops.len()) == match l {
            Launch::AddScaledRow { route, .. } => weighed(p.ops, p.ops.len()).push(route),
            _ => weighed(p.ops, p.ops.len()),
        },
{
    if p.err is None {
        lemma_weighed_prefix(p.ops, l, p.ops.len());
        assert(p.ops.push(l)[p.ops.len() as int] == l);
    }
}

proof fn lemma_unweighed(
    p: Prog,
    t: Seq<WeightEntry>,
    w: usize,
    offset: usize,
    n: usize,
    k: usize,
    x: Buf,
    y: Buf,
)
    ensures
        ({
            let q = p.gemv(t, w, offset, n, k, x, y);
            q.err is None ==> p.err is None && weighed(q.ops, q.ops.len()) == weighed(
                p.ops,
                p.ops.len(),
            )
        }),
{
    let q = p.gemv(t, w, offset, n, k, x, y);
    if q.err is None {
        let kind = gemv_kind_of(t[w as int].residency)->0;
        if kind is MmvqIq2Xxs || kind is MmvqQ2K {
            let l1 = Launch::CastIn { x, n: k };
            let l2 = Launch::QuantizeQ8 { k };
            let l3 = Launch::Mmvq { kind, weight: w, byte_offset: offset, n, k };
            lemma_weighed(p, l1);
            lemma_weighed(p.emit(l1), l2);
            lemma_weighed(p.emit(l1).emit(l2), l3);
            lemma_weighed(p.emit(l1).emit(l2).emit(l3), Launch::CastOut { y, n });
        } else {
            lemma_weighed(p, Launch::Gemv { kind, weight: w, byte_offset: offset, n, k, x, y });
        }
    }
}

proof fn lemma_weighed_experts(
    m: ModelView,
    p: Prog,
    layer: usize,
    routes: Seq<usize>,
    n: nat,
)
    requires
        n <= routes.len() <= usize::MAX,
        weighed(p.ops, p.ops.len()) == Seq::<usize>::empty(),
    ensures
        ({
            let q = m.experts(p, layer, routes, n);
            q.err is None ==> p.err is None && weighed(q.ops, q.ops.len()) == Seq::new(
                n,
                |i: int| i as usize,
            )
        }),
    decreases n,
{
    if n > 0 {
        let t = m.weights;
        let c = m.config;
        let up = WeightName::Layer(layer, LayerWeight::UpExperts);
        let gate = WeightName::Layer(layer, LayerWeight::GateExperts);
        let down = WeightName::Layer(layer, LayerWeight::DownExperts);
        let inner = c.moe_intermediate_size;
        let h = c.hidden_size;
        let i = n - 1;
        lemma_weighed_experts(m, p, layer, routes, i as nat);
        let q0 = m.experts(p, layer, routes, i as nat);
        let uw = weight_at(t, up)->0;
        let gw = weight_at(t, gate)->0;
        let dw = weight_at(t, down)->0;
        let uo = (routes[i] * m.expert_bytes(up)) as usize;
        let go = (routes[i] * m.expert_bytes(gate)) as usize;
        let d_o = (routes[i] * m.expert_bytes(down)) as usize;
        let q1 = q0.gemv(t, uw, uo, inner, h, Buf::Normed, Buf::Up);
        let q2 = q1.gemv(t, gw, go, inner, h, Buf::Normed, Buf::Gate);
        let q3 = q2.emit(Launch::SwigluClamped { n: inner });
        let q4 = q3.gemv(t, dw, d_o, h, inner, Buf::Act, Buf::ExpertOut);
        lemma_unweighed(q0, t, uw, uo, inner, h, Buf::Normed, Buf::Up);
        lemma_unweighed(q1, t, gw, go, inner, h, Buf::Normed, Buf::Gate);
        lemma_weighed(q2, Launch::SwigluClamped { n: inner });
        lemma_unweighed(q3, t, dw, d_o, h, inner, Buf::Act, Buf::ExpertOut);
        lemma_weighed(q4, Launch::AddScaledRow { hidden: h, route: i as usize });
        let q5 = q4.emit(Launch::AddScaledRow { hidden: h, route: i as usize });
        if q5.err is None {
            assert(weighed(q5.ops, q5.ops.len()) =~= Seq::new(n, |j: int| j as usize));
        }
    }
}

/// The expert part applies the router's weights one by one: as many as there
/// are routes, the first to the first route, and none twice.
pub proof fn every_route_is_weighed_once(m: ModelView, layer: usize, routes: Seq<usize>)
    requires
        routes.len() <= usize::MAX,
        m.layer_experts(layer, routes).err is None,
    ensures
        ({
            let ops = m.layer_experts(layer, routes).ops;
            &&& weighed(ops, ops.len()).len() == routes.len()
            &&& forall|i: int|
                0 <= i < routes.len() ==> #[trigger] weighed(ops, ops.len())[i] == i
        }),
{
    let t = m.weights;
    let c = m.config;
    let up = WeightName::Layer(layer, LayerWeight::UpExperts);
    let gate = WeightName::Layer(layer, LayerWeight::GateExperts);
    let down = WeightName::Layer(layer, LayerWeight::DownExperts);
    let l0 = Launch::ZeroMoeAcc { hidden: c.hidden_size };
    lemma_weighed(Prog::empty(), l0);
    let p0 = Prog::empty().emit(l0);
    let p1 = p0.need(t, up).need(t, gate).need(t, down);
    let p2 = m.need_aligned(m.need_aligned(m.need_aligned(p1, up), gate), down);
    assert(p2.ops == p0.ops);
    lemma_weighed_experts(m, p2, layer, routes, routes.len());
    let p3 = m.experts(p2, layer, routes, routes.len());
    let p4 = m.shared_expert(p3, layer);
    if c.n_shared_experts > 0 {
        let su = WeightName::Layer(layer, LayerWeight::UpShared);
        let sg = WeightName::Layer(layer, LayerWeight::GateShared);
        let sd = WeightName::Layer(layer, LayerWeight::DownShared);
        let q1 = p3.gemv_full(t, su, Buf::Normed, Buf::Up);
        let q2 = q1.gemv_full(t, sg, Buf::Normed, Buf::Gate);
        let l = Launch::SwigluClamped { n: t[weight_at(t, su)->0 as int].n_spec() };
        let q3 = q2.emit(l);
        let q4 = q3.gemv_full(t, sd, Buf::Act, Buf::ExpertOut);
        let u = weight_at(t, su)->0;
        let g = weight_at(t, sg)->0;
        let d = weight_at(t, sd)->0;
        let eu = t[u as int];
        let eg = t[g as int];
        let ed = t[d as int];
        lemma_unweighed(p3, t, u, 0, eu.n_spec(), eu.k_spec(), Buf::Normed, Buf::Up);
        lemma_unweighed(q1, t, g, 0, eg.n_spec(), eg.k_spec(), Buf::Normed, Buf::Gate);
        lemma_weighed(q2, l);
        lemma_unweighed(q3, t, d, 0, ed.n_spec(), ed.k_spec(), Buf::Act, Buf::ExpertOut);
        lemma_weighed(q4, Launch::AddAssign { hidden: c.hidden_size });
    }
    lemma_weighed(
        p4,
        Launch::MhcPost {
            new_x: Buf::MoeAcc,
            residual: Buf::StreamB,
            out: Buf::StreamA,
            hidden: c.hidden_size,
            hc_mult: c.hc_mult,
        },
    );
}

/// A schedule that does not stop has the weights that it needs: the experts of
/// a layer in whole rows, a mixer that its scratch can hold, and compressors
/// with as many outputs as a step takes.
pub proof fn schedules_run_only_on_what_they_need(
    m: ModelView,
    layer: usize,
    plan: AttentionLayerPlan,
    off: LayerOffsets,
    start_pos: usize,
    routes: Seq<usize>,
)
    ensures
        m.layer_experts(layer, routes).err is None ==> {
            &&& has_rows(m.weights, layer, "ffn_up_exps.weight"@)
            &&& has_rows(m.weights, layer, "ffn_gate_exps.weight"@)
            &&& has_rows(m.weights, layer, "ffn_down_exps.weight"@)
        },
        m.layer_attention(layer, plan, off, start_pos).err is None ==> {
            let t = m.weights;
            let c = m.config;
            let wide = if plan.compress_ratio < 16 {
                2 * c.head_dim
            } else {
                c.head_dim as int
            };
            &&& 2 * outputs(t, layer, "hc_attn_fn"@) <= m.mixes_bytes
            &&& 2 * outputs(t, layer, "hc_ffn_fn"@) <= m.mixes_bytes
            &&& !(plan.mode is SlidingWindow) && wide <= usize::MAX ==> outputs(
                t,
                layer,
                "attn_compress_kv.weight"@,
            ) == wide && outputs(t, layer, "attn_compress_gate.weight"@) == wide
            &&& plan.mode is CompressedSparse && 2 * c.index_head_dim <= usize::MAX ==> outputs(
                t,
                layer,
                "indexer.compress_kv.weight"@,
            ) == 2 * c.index_head_dim && outputs(t, layer, "indexer.compress_gate.weight"@) == 2
                * c.index_head_dim
        },
{
    let t = m.weights;
    let c = m.config;
    let up = WeightName::Layer(layer, LayerWeight::UpExperts);
    let gate = WeightName::Layer(layer, LayerWeight::GateExperts);
    let down = WeightName::Layer(layer, LayerWeight::DownExperts);
    if m.layer_experts(layer, routes).err is None {
        let p0 = Prog::empty().emit(Launch::ZeroMoeAcc { hidden: c.hidden_size });
        let p1 = p0.need(t, up).need(t, gate).need(t, down);
        let p2 = m.need_aligned(m.need_aligned(m.need_aligned(p1, up), gate), down);
        assert(p2.err is None);
        assert(find_weight(t, up.text(), t.len()) is Some);
        assert(find_weight(t, gate.text(), t.len()) is Some);
        assert(find_weight(t, down.text(), t.len()) is Some);
    }
    if m.layer_attention(layer, plan, off, start_pos).err is None {
        let p1 = m.mhc_params(Prog::empty(), layer, false, Buf::StreamA);
        let p2 = m.mhc_pre(p1, WeightName::Layer(layer, LayerWeight::AttnNorm), Buf::StreamA);
        let p3 = m.project_qk(p2, layer, plan);
        let p4 = m.attend(p3, layer, plan, off, start_pos);
        let oa = WeightName::Layer(layer, LayerWeight::AttnOutputA);
        let ob = WeightName::Layer(layer, LayerWeight::AttnOutputB);
        let ro = WeightName::Layer(layer, LayerWeight::Router);
        let p5 = p4.gemv_full(t, oa, Buf::AttnLocal, Buf::Latent);
        let p6 = p5.gemv_full(t, ob, Buf::Latent, Buf::AttnOut);
        let p7 = m.mhc_post(p6, Buf::AttnOut, Buf::StreamA, Buf::StreamB);
        let p8 = m.mhc_params(p7, layer, true, Buf::StreamB);
        let p9 = m.mhc_pre(p8, WeightName::Layer(layer, LayerWeight::FfnNorm), Buf::StreamB);
        lemma_whole(p9, t, ro, Buf::Normed, Buf::RouterLogits);
        assert(p9.err is None && p8.err is None);
        lemma_mixed(m, p7, layer, true, Buf::StreamB);
        lemma_fits(m, p7, layer, true, Buf::StreamB);
        lemma_whole(p5, t, ob, Buf::Latent, Buf::AttnOut);
        lemma_whole(p4, t, oa, Buf::AttnLocal, Buf::Latent);
        assert(p4.err is None);
        lemma_attend_fits(m, p3, layer, plan, off, start_pos);
        lemma_placed(m, p2, layer, plan);
        lemma_fits(m, Prog::empty(), layer, false, Buf::StreamA);
    }
}

/// A layer's weight is there.
pub open spec fn there(t: Seq<WeightEntry>, layer: usize, suffix: Seq<char>) -> bool {
    find_weight(t, "blk."@ + decimal(layer as nat) + "."@ + suffix, t.len()) is Some
}

/// A layer's weight is there, in a format that some product takes.
pub open spec fn multiplies(t: Seq<WeightEntry>, layer: usize, suffix: Seq<char>) -> bool {
    let r = t[in_layer(t, layer, suffix) as int].residency;
    &&& there(t, layer, suffix)
    &&& r is KeepKQuant || r is KeepIq2Xxs || r is KeepQ2K
}

proof fn lemma_goes_on(p: Prog, t: Seq<WeightEntry>, layer: usize, w: LayerWeight, x: Buf, y: Buf)
    requires
        p.err is None,
        multiplies(t, layer, w.text()),
    ensures
        p.gemv_full(t, WeightName::Layer(layer, w), x, y).err is None,
        weight_at(t, WeightName::Layer(layer, w)) is Some,
        gemv_kind_of(t[weight_at(t, WeightName::Layer(layer, w))->0 as int].residency) is Some,
{
    let name = WeightName::Layer(layer, w);
    assert(weight_at(t, name)->0 == in_layer(t, layer, w.text()));
    assert(p.need(t, name) == p);
}

proof fn lemma_experts_go_on(m: ModelView, p: Prog, layer: usize, routes: Seq<usize>, n: nat)
    requires
        p.err is None,
        multiplies(m.weights, layer, "ffn_up_exps.weight"@),
        multiplies(m.weights, layer, "ffn_gate_exps.weight"@),
        multiplies(m.weights, layer, "ffn_down_exps.weight"@),
    ensures
        m.experts(p, layer, routes, n).err is None,
    decreases n,
{
    let t = m.weights;
    if n > 0 {
        lemma_experts_go_on(m, p, layer, routes, (n - 1) as nat);
        let q = m.experts(p, layer, routes, (n - 1) as nat);
        lemma_goes_on(q, t, layer, LayerWeight::UpExperts, Buf::Normed, Buf::Up);
        lemma_goes_on(q, t, layer, LayerWeight::GateExperts, Buf::Normed, Buf::Gate);
        lemma_goes_on(q, t, layer, LayerWeight::DownExperts, Buf::Act, Buf::ExpertOut);
    }
}

/// The expert part of a layer runs wherever its weights are there in formats
/// that some product takes, the routed experts' in whole rows.
pub proof fn experts_run_where_their_weights_are(m: ModelView, layer: usize, routes: Seq<usize>)
    requires
        multiplies(m.weights, layer, "ffn_up_exps.weight"@),
        multiplies(m.weights, layer, "ffn_gate_exps.weight"@),
        multiplies(m.weights, layer, "ffn_down_exps.weight"@),
        has_rows(m.weights, layer, "ffn_up_exps.weight"@),
        has_rows(m.weights, layer, "ffn_gate_exps.weight"@),
        has_rows(m.weights, layer, "ffn_down_exps.weight"@),
        m.config.n_shared_experts > 0 ==> {
            &&& multiplies(m.weights, layer, "ffn_up_shexp.weight"@)
            &&& multiplies(m.weights, layer, "ffn_gate_shexp.weight"@)
            &&& multiplies(m.weights, layer, "ffn_down_shexp.weight"@)
        },
    ensures
        m.layer_experts(layer, routes).err is None,
{
    let t = m.weights;
    let c = m.config;
    let up = WeightName::Layer(layer, LayerWeight::UpExperts);
    let gate = WeightName::Layer(layer, LayerWeight::GateExperts);
    let down = WeightName::Layer(layer, LayerWeight::DownExperts);
    assert(weight_at(t, up)->0 == in_layer(t, layer, "ffn_up_exps.weight"@));
    assert(weight_at(t, gate)->0 == in_layer(t, layer, "ffn_gate_exps.weight"@));
    assert(weight_at(t, down)->0 == in_layer(t, layer, "ffn_down_exps.weight"@));
    let p0 = Prog::empty().emit(Launch::ZeroMoeAcc { hidden: c.hidden_size });
    assert(weight_at(t, up) is Some && weight_at(t, gate) is Some && weight_at(t, down) is Some);
    let p1 = p0.need(t, up).need(t, gate).need(t, down);
    assert(p1 == p0);
    let p2 = m.need_aligned(m.need_aligned(m.need_aligned(p1, up), gate), down);
    assert(p2 == p0);
    lemma_experts_go_on(m, p2, layer, routes, routes.len());
    let p3 = m.experts(p2, layer, routes, routes.len());
    if c.n_shared_experts > 0 {
        let su = WeightName::Layer(layer, LayerWeight::UpShared);
        let sg = WeightName::Layer(layer, LayerWeight::GateShared);
        lemma_goes_on(p3, t, layer, LayerWeight::UpShared, Buf::Normed, Buf::Up);
        let q1 = p3.gemv_full(t, su, Buf::Normed, Buf::Up);
        lemma_goes_on(q1, t, layer, LayerWeight::GateShared, Buf::Normed, Buf::Gate);
        let q2 = q1.gemv_full(t, sg, Buf::Normed, Buf::Gate);
        let q3 = q2.emit(Launch::SwigluClamped { n: t[weight_at(t, su)->0 as int].n_spec() });
        lemma_goes_on(q3, t, layer, LayerWeight::DownShared, Buf::Act, Buf::ExpertOut);
    }
}

/// The attention part of a layer runs wherever its weights are there, those of
/// products in formats that some product takes, its mixers fit their scratch
/// and its compressors have as many outputs as a step takes.
#[verifier::rlimit(40)]
pub proof fn attention_runs_where_its_weights_are(
    m: ModelView,
    layer: usize,
    plan: AttentionLayerPlan,
    off: LayerOffsets,
    start_pos: usize,
)
    requires
        ({
            let t = m.weights;
            &&& multiplies(t, layer, "hc_attn_fn"@) && multiplies(t, layer, "hc_ffn_fn"@)
            &&& there(t, layer, "hc_attn_base"@) && there(t, layer, "hc_attn_scale"@)
            &&& there(t, layer, "hc_ffn_base"@) && there(t, layer, "hc_ffn_scale"@)
            &&& there(t, layer, "attn_norm.weight"@) && there(t, layer, "ffn_norm.weight"@)
            &&& multiplies(t, layer, "attn_q_a.weight"@) && multiplies(
                t,
                layer,
                "attn_q_b.weight"@,
            )
            &&& there(t, layer, "attn_q_a_norm.weight"@) && there(
                t,
                layer,
                "attn_kv_a_norm.weight"@,
            )
            &&& multiplies(t, layer, "attn_kv_latent.weight"@) && there(t, layer, "attn_sinks"@)
            &&& multiplies(t, layer, "attn_output_a.weight"@) && multiplies(
                t,
                layer,
                "attn_output_b.weight"@,
            )
            &&& multiplies(t, layer, "ffn_gate_inp.weight"@)
            &&& 2 * outputs(t, layer, "hc_attn_fn"@) <= m.mixes_bytes
            &&& 2 * outputs(t, layer, "hc_ffn_fn"@) <= m.mixes_bytes
            &&& !(plan.mode is SlidingWindow) ==> compresses(
                m,
                layer,
                false,
                if plan.compress_ratio < 16 {
                    2 * m.config.head_dim
                } else {
                    m.config.head_dim as int
                },
            )
            &&& plan.mode is CompressedSparse ==> {
                &&& compresses(m, layer, true, 2 * m.config.index_head_dim)
                &&& multiplies(t, layer, "indexer.attn_q_b.weight"@)
                &&& multiplies(t, layer, "indexer.proj.weight"@)
            }
        }),
    ensures
        m.layer_attention(layer, plan, off, start_pos).err is None,
{
    let t = m.weights;
    let a = |w: LayerWeight| WeightName::Layer(layer, w);
    let p0 = Prog::empty();
    lemma_mixes(m, p0, layer, false, Buf::StreamA);
    let p1 = m.mhc_params(p0, layer, false, Buf::StreamA);
    assert(weight_at(t, a(LayerWeight::AttnNorm)) is Some);
    let p2 = m.mhc_pre(p1, a(LayerWeight::AttnNorm), Buf::StreamA);
    lemma_goes_on(p2, t, layer, LayerWeight::AttnQA, Buf::Normed, Buf::CQ);
    let r1 = p2.gemv_full(t, a(LayerWeight::AttnQA), Buf::Normed, Buf::CQ);
    assert(weight_at(t, a(LayerWeight::AttnQANorm)) is Some);
    let r2 = r1.rms_norm(t, a(LayerWeight::AttnQANorm), Buf::CQ, m.config.q_lora_rank, Buf::CQ);
    lemma_goes_on(r2, t, layer, LayerWeight::AttnQB, Buf::CQ, Buf::QRaw);
    let r3 = r2.gemv_full(t, a(LayerWeight::AttnQB), Buf::CQ, Buf::QRaw);
    lemma_goes_on(r3, t, layer, LayerWeight::AttnKvLatent, Buf::Normed, Buf::KvRaw);
    assert(weight_at(t, a(LayerWeight::AttnKvANorm)) is Some);
    let p3 = m.project_qk(p2, layer, plan);
    assert(p3.err is None);
    assert(weight_at(t, a(LayerWeight::AttnSinks)) is Some);
    let p4 = m.attend(p3, layer, plan, off, start_pos);
    if !(plan.mode is SlidingWindow) {
        let c = m.config;
        lemma_compresses(
            m,
            p3,
            layer,
            false,
            off.compressor->0,
            c.head_dim,
            plan.compress_ratio,
            plan.compress_ratio < 16,
            c.qk_rope_head_dim,
            m.rope_of(plan).1,
        );
        let q1 = m.compressor_update(
            p3,
            layer,
            false,
            off.compressor->0,
            c.head_dim,
            plan.compress_ratio,
            plan.compress_ratio < 16,
            c.qk_rope_head_dim,
            m.rope_of(plan).1,
        );
        if plan.mode is CompressedSparse {
            let at = off.indexer->0;
            let ratio = plan.compress_ratio;
            lemma_compresses(m, q1, layer, true, at, c.index_head_dim, ratio, true, 0, 0);
            let q2 = m.compressor_update(
                q1,
                layer,
                true,
                at,
                c.index_head_dim,
                ratio,
                true,
                0,
                0,
            );
            lemma_goes_on(q2, t, layer, LayerWeight::IndexerQB, Buf::CQ, Buf::IdxQ);
            let q3 = q2.gemv_full(t, a(LayerWeight::IndexerQB), Buf::CQ, Buf::IdxQ);
            lemma_goes_on(q3, t, layer, LayerWeight::IndexerProj, Buf::Normed, Buf::IdxW);
        }
        assert(p4.err is None);
    }
    lemma_goes_on(p4, t, layer, LayerWeight::AttnOutputA, Buf::AttnLocal, Buf::Latent);
    let p5 = p4.gemv_full(t, a(LayerWeight::AttnOutputA), Buf::AttnLocal, Buf::Latent);
    lemma_goes_on(p5, t, layer, LayerWeight::AttnOutputB, Buf::Latent, Buf::AttnOut);
    let p6 = p5.gemv_full(t, a(LayerWeight::AttnOutputB), Buf::Latent, Buf::AttnOut);
    let p7 = m.mhc_post(p6, Buf::AttnOut, Buf::StreamA, Buf::StreamB);
    lemma_mixes(m, p7, layer, true, Buf::StreamB);
    let p8 = m.mhc_params(p7, layer, true, Buf::StreamB);
    assert(weight_at(t, a(LayerWeight::FfnNorm)) is Some);
    let p9 = m.mhc_pre(p8, a(LayerWeight::FfnNorm), Buf::StreamB);
    lemma_goes_on(p9, t, layer, LayerWeight::Router, Buf::Normed, Buf::RouterLogits);
}

/// A layer's compressor, its own or the indexer's, has its weights, of so many
/// outputs.
pub open spec fn compresses(m: ModelView, layer: usize, indexer: bool, width: int) -> bool {
    let t = m.weights;
    let kv = if indexer {
        "indexer.compress_kv.weight"@
    } else {
        "attn_compress_kv.weight"@
    };
    let gate = if indexer {
        "indexer.compress_gate.weight"@
    } else {
        "attn_compress_gate.weight"@
    };
    &&& multiplies(t, layer, kv) && outputs(t, layer, kv) == width
    &&& multiplies(t, layer, gate) && outputs(t, layer, gate) == width
    &&& there(t, layer, if indexer { "indexer.compress_ape"@ } else { "attn_compress_ape"@ })
    &&& there(
        t,
        layer,
        if indexer { "indexer.compress_norm.weight"@ } else { "attn_compress_norm.weight"@ },
    )
}

proof fn lemma_compresses(
    m: ModelView,
    p: Prog,
    layer: usize,
    indexer: bool,
    at: CompressorOffsets,
    dim: usize,
    ratio: usize,
    overlap: bool,
    rope_dim: usize,
    orig_seq_len: usize,
)
    requires
        p.err is None,
        compresses(
            m,
            layer,
            indexer,
            if overlap {
                2 * dim
            } else {
                dim as int
            },
        ),
    ensures
        m.compressor_update(
            p,
            layer,
            indexer,
            at,
            dim,
            ratio,
            overlap,
            rope_dim,
            orig_seq_len,
        ).err is None,
{
    let t = m.weights;
    let kv = if indexer {
        LayerWeight::IndexerKv
    } else {
        LayerWeight::CompressKv
    };
    let gate = if indexer {
        LayerWeight::IndexerGate
    } else {
        LayerWeight::CompressGate
    };
    let ape = if indexer {
        LayerWeight::IndexerApe
    } else {
        LayerWeight::CompressApe
    };
    let norm = if indexer {
        LayerWeight::IndexerNorm
    } else {
        LayerWeight::CompressNorm
    };
    lemma_goes_on(p, t, layer, kv, Buf::Normed, Buf::CompKv);
    let q = p.gemv_full(t, WeightName::Layer(layer, kv), Buf::Normed, Buf::CompKv);
    lemma_goes_on(q, t, layer, gate, Buf::Normed, Buf::CompScore);
    assert(weight_at(t, WeightName::Layer(layer, kv))->0 == in_layer(t, layer, kv.text()));
    assert(weight_at(t, WeightName::Layer(layer, gate))->0 == in_layer(t, layer, gate.text()));
    assert(weight_at(t, WeightName::Layer(layer, ape)) is Some);
    assert(weight_at(t, WeightName::Layer(layer, norm)) is Some);
}

proof fn lemma_mixes(m: ModelView, p: Prog, layer: usize, ffn: bool, stream: Buf)
    requires
        p.err is None,
        multiplies(m.weights, layer, if ffn { "hc_ffn_fn"@ } else { "hc_attn_fn"@ }),
        there(m.weights, layer, if ffn { "hc_ffn_base"@ } else { "hc_attn_base"@ }),
        there(m.weights, layer, if ffn { "hc_ffn_scale"@ } else { "hc_attn_scale"@ }),
        2 * outputs(m.weights, layer, if ffn { "hc_ffn_fn"@ } else { "hc_attn_fn"@ })
            <= m.mixes_bytes,
    ensures
        m.mhc_params(p, layer, ffn, stream).err is None,
{
    let t = m.weights;
    let w = if ffn {
        LayerWeight::HcFfnFn
    } else {
        LayerWeight::HcAttnFn
    };
    lemma_goes_on(p, t, layer, w, stream, Buf::Mixes);
    let base = WeightName::Layer(
        layer,
        if ffn {
            LayerWeight::HcFfnBase
        } else {
            LayerWeight::HcAttnBase
        },
    );
    let scale = WeightName::Layer(
        layer,
        if ffn {
            LayerWeight::HcFfnScale
        } else {
            LayerWeight::HcAttnScale
        },
    );
    assert(weight_at(t, base) is Some && weight_at(t, scale) is Some);
    assert(weight_at(t, WeightName::Layer(layer, w))->0 == in_layer(
        t,
        layer,
        if ffn { "hc_ffn_fn"@ } else { "hc_attn_fn"@ },
    ));
}

/// Outputs of a layer's weight.
pub open spec fn outputs(t: Seq<WeightEntry>, layer: usize, suffix: Seq<char>) -> usize {
    let dims = t[in_layer(t, layer, suffix) as int].dims@;
    if dims.len() > 1 {
        dims[1]
    } else {
        1
    }
}

/// A layer's weight is there, in whole rows.
pub open spec fn has_rows(t: Seq<WeightEntry>, layer: usize, suffix: Seq<char>) -> bool {
    &&& find_weight(t, "blk."@ + decimal(layer as nat) + "."@ + suffix, t.len()) is Some
    &&& t[in_layer(t, layer, suffix) as int].row_bytes is Some
}

proof fn lemma_fits(m: ModelView, p: Prog, layer: usize, ffn: bool, stream: Buf)
    ensures
        m.mhc_params(p, layer, ffn, stream).err is None ==> 2 * outputs(
            m.weights,
            layer,
            if ffn { "hc_ffn_fn"@ } else { "hc_attn_fn"@ },
        ) <= m.mixes_bytes,
{
    let t = m.weights;
    let mixer = WeightName::Layer(
        layer,
        if ffn {
            LayerWeight::HcFfnFn
        } else {
            LayerWeight::HcAttnFn
        },
    );
    assert(weight_at(t, mixer)->0 == in_layer(
        t,
        layer,
        if ffn { "hc_ffn_fn"@ } else { "hc_attn_fn"@ },
    ));
}

proof fn lemma_attend_fits(
    m: ModelView,
    p: Prog,
    layer: usize,
    plan: AttentionLayerPlan,
    off: LayerOffsets,
    start_pos: usize,
)
    ensures
        m.attend(p, layer, plan, off, start_pos).err is None ==> {
            let t = m.weights;
            let c = m.config;
            let wide = if plan.compress_ratio < 16 {
                2 * c.head_dim
            } else {
                c.head_dim as int
            };
            &&& p.err is None
            &&& !(plan.mode is SlidingWindow) && wide <= usize::MAX ==> outputs(
                t,
                layer,
                "attn_compress_kv.weight"@,
            ) == wide && outputs(t, layer, "attn_compress_gate.weight"@) == wide
            &&& plan.mode is CompressedSparse && 2 * c.index_head_dim <= usize::MAX ==> outputs(
                t,
                layer,
                "indexer.compress_kv.weight"@,
            ) == 2 * c.index_head_dim && outputs(t, layer, "indexer.compress_gate.weight"@) == 2
                * c.index_head_dim
        },
{
    let t = m.weights;
    let c = m.config;
    let kv = WeightName::Layer(layer, LayerWeight::CompressKv);
    let gate = WeightName::Layer(layer, LayerWeight::CompressGate);
    let ikv = WeightName::Layer(layer, LayerWeight::IndexerKv);
    let igate = WeightName::Layer(layer, LayerWeight::IndexerGate);
    assert(weight_at(t, kv)->0 == in_layer(t, layer, "attn_compress_kv.weight"@));
    assert(weight_at(t, gate)->0 == in_layer(t, layer, "attn_compress_gate.weight"@));
    assert(weight_at(t, ikv)->0 == in_layer(t, layer, "indexer.compress_kv.weight"@));
    assert(weight_at(t, igate)->0 == in_layer(t, layer, "indexer.compress_gate.weight"@));
    let q0 = p.need(t, WeightName::Layer(layer, LayerWeight::AttnSinks));
    if !(plan.mode is SlidingWindow) {
        let q1 = m.compressor_update(
            q0,
            layer,
            false,
            off.compressor->0,
            c.head_dim,
            plan.compress_ratio,
            plan.compress_ratio < 16,
            c.qk_rope_head_dim,
            m.rope_of(plan).1,
        );
        lemma_compressed(m, q0, layer, plan, false, off.compressor->0);
        if plan.mode is CompressedSparse {
            let at = off.indexer->0;
            let q2 = m.compressor_update(
                q1,
                layer,
                true,
                at,
                c.index_head_dim,
                plan.compress_ratio,
                true,
                0,
                0,
            );
            let qb = WeightName::Layer(layer, LayerWeight::IndexerQB);
            let pr = WeightName::Layer(layer, LayerWeight::IndexerProj);
            lemma_whole(q2, t, qb, Buf::CQ, Buf::IdxQ);
            lemma_whole(q2.gemv_full(t, qb, Buf::CQ, Buf::IdxQ), t, pr, Buf::Normed, Buf::IdxW);
            lemma_compressed(m, q1, layer, plan, true, at);
        }
    }
}

/// A weight is found where the table holds its name, and is missing only where
/// no entry does; of several entries with the name the last counts.
pub proof fn weights_are_found_by_name(t: Seq<WeightEntry>, name: Seq<char>, n: nat)
    requires
        n <= t.len() <= usize::MAX,
    ensures
        match find_weight(t, name, n) {
            Some(i) => i < n && t[i as int].name@ == name && forall|j: int|
                i < j < n ==> (#[trigger] t[j]).name@ != name,
            None => forall|j: int| 0 <= j < n ==> (#[trigger] t[j]).name@ != name,
        },
    decreases n,
{
    if n > 0 {
        weights_are_found_by_name(t, name, (n - 1) as nat);
    }
}

/// Tokens of a slot follow each other without a gap: once the token at a
/// position was counted, a token runs on the slot only at the next position,
/// for the same epoch, and as long as the sequence may grow.
pub proof fn tokens_of_a_slot_are_contiguous(
    before: SlotState,
    epoch: u64,
    slot: usize,
    start_pos: usize,
    max_seq_len: usize,
)
    requires
        before.seq_len < usize::MAX,
    ensures
        token_start(held_at(Some(counted(before)), epoch), slot, start_pos, max_seq_len) == Ok::<
            bool,
            ForwardError,
        >(false) <==> epoch == before.epoch && start_pos == before.seq_len + 1 && start_pos
            < max_seq_len,
{
}

} // verus!
