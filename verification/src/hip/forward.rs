//! The forward schedule of a token: which launches run, in which order, on
//! which buffers and with which weights. The schedule is data; the device
//! side runs it and reports the experts that the router chose.
//!
//! A token runs the embedding, then per layer the attention part (up to the
//! router logits) and the expert part, then the head. Two residual streams
//! take turns: the attention half of a layer reads stream A and writes
//! stream B, the expert half reads B and writes A.
use vstd::prelude::*;
use vstd::string::*;

use crate::hip::config::DeepSeekV4Config;
use crate::hip::loader::{GgmlType, Residency};
use crate::hip::model::{
    gemv_kind, AttentionLayerPlan, AttentionMode, CompressorOffsets, GemvKind, LayerOffsets,
};
#[allow(unused_imports)]
use crate::hip::model::gemv_kind_of;
#[allow(unused_imports)]
use crate::text::{decimal, decimal_string};

verus! {

/// The weights of a layer.
#[derive(Debug, Clone, Copy, PartialEq, Eq, Structural)]
pub enum LayerWeight {
    HcAttnFn,
    HcAttnBase,
    HcAttnScale,
    HcFfnFn,
    HcFfnBase,
    HcFfnScale,
    AttnNorm,
    AttnQA,
    AttnQANorm,
    AttnQB,
    AttnKvLatent,
    AttnKvANorm,
    AttnSinks,
    CompressKv,
    CompressGate,
    CompressApe,
    CompressNorm,
    IndexerKv,
    IndexerGate,
    IndexerApe,
    IndexerNorm,
    IndexerQB,
    IndexerProj,
    AttnOutputA,
    AttnOutputB,
    FfnNorm,
    Router,
    UpExperts,
    GateExperts,
    DownExperts,
    UpShared,
    GateShared,
    DownShared,
}

impl LayerWeight {
    pub open spec fn text(self) -> Seq<char> {
        match self {
            LayerWeight::HcAttnFn => "hc_attn_fn"@,
            LayerWeight::HcAttnBase => "hc_attn_base"@,
            LayerWeight::HcAttnScale => "hc_attn_scale"@,
            LayerWeight::HcFfnFn => "hc_ffn_fn"@,
            LayerWeight::HcFfnBase => "hc_ffn_base"@,
            LayerWeight::HcFfnScale => "hc_ffn_scale"@,
            LayerWeight::AttnNorm => "attn_norm.weight"@,
            LayerWeight::AttnQA => "attn_q_a.weight"@,
            LayerWeight::AttnQANorm => "attn_q_a_norm.weight"@,
            LayerWeight::AttnQB => "attn_q_b.weight"@,
            LayerWeight::AttnKvLatent => "attn_kv_latent.weight"@,
            LayerWeight::AttnKvANorm => "attn_kv_a_norm.weight"@,
            LayerWeight::AttnSinks => "attn_sinks"@,
            LayerWeight::CompressKv => "attn_compress_kv.weight"@,
            LayerWeight::CompressGate => "attn_compress_gate.weight"@,
            LayerWeight::CompressApe => "attn_compress_ape"@,
            LayerWeight::CompressNorm => "attn_compress_norm.weight"@,
            LayerWeight::IndexerKv => "indexer.compress_kv.weight"@,
            LayerWeight::IndexerGate => "indexer.compress_gate.weight"@,
            LayerWeight::IndexerApe => "indexer.compress_ape"@,
            LayerWeight::IndexerNorm => "indexer.compress_norm.weight"@,
            LayerWeight::IndexerQB => "indexer.attn_q_b.weight"@,
            LayerWeight::IndexerProj => "indexer.proj.weight"@,
            LayerWeight::AttnOutputA => "attn_output_a.weight"@,
            LayerWeight::AttnOutputB => "attn_output_b.weight"@,
            LayerWeight::FfnNorm => "ffn_norm.weight"@,
            LayerWeight::Router => "ffn_gate_inp.weight"@,
            LayerWeight::UpExperts => "ffn_up_exps.weight"@,
            LayerWeight::GateExperts => "ffn_gate_exps.weight"@,
            LayerWeight::DownExperts => "ffn_down_exps.weight"@,
            LayerWeight::UpShared => "ffn_up_shexp.weight"@,
            LayerWeight::GateShared => "ffn_gate_shexp.weight"@,
            LayerWeight::DownShared => "ffn_down_shexp.weight"@,
        }
    }

    fn as_text(self) -> (s: &'static str)
        ensures
            s@ == self.text(),
    {
        match self {
            LayerWeight::HcAttnFn => "hc_attn_fn",
            LayerWeight::HcAttnBase => "hc_attn_base",
            LayerWeight::HcAttnScale => "hc_attn_scale",
            LayerWeight::HcFfnFn => "hc_ffn_fn",
            LayerWeight::HcFfnBase => "hc_ffn_base",
            LayerWeight::HcFfnScale => "hc_ffn_scale",
            LayerWeight::AttnNorm => "attn_norm.weight",
            LayerWeight::AttnQA => "attn_q_a.weight",
            LayerWeight::AttnQANorm => "attn_q_a_norm.weight",
            LayerWeight::AttnQB => "attn_q_b.weight",
            LayerWeight::AttnKvLatent => "attn_kv_latent.weight",
            LayerWeight::AttnKvANorm => "attn_kv_a_norm.weight",
            LayerWeight::AttnSinks => "attn_sinks",
            LayerWeight::CompressKv => "attn_compress_kv.weight",
            LayerWeight::CompressGate => "attn_compress_gate.weight",
            LayerWeight::CompressApe => "attn_compress_ape",
            LayerWeight::CompressNorm => "attn_compress_norm.weight",
            LayerWeight::IndexerKv => "indexer.compress_kv.weight",
            LayerWeight::IndexerGate => "indexer.compress_gate.weight",
            LayerWeight::IndexerApe => "indexer.compress_ape",
            LayerWeight::IndexerNorm => "indexer.compress_norm.weight",
            LayerWeight::IndexerQB => "indexer.attn_q_b.weight",
            LayerWeight::IndexerProj => "indexer.proj.weight",
            LayerWeight::AttnOutputA => "attn_output_a.weight",
            LayerWeight::AttnOutputB => "attn_output_b.weight",
            LayerWeight::FfnNorm => "ffn_norm.weight",
            LayerWeight::Router => "ffn_gate_inp.weight",
            LayerWeight::UpExperts => "ffn_up_exps.weight",
            LayerWeight::GateExperts => "ffn_gate_exps.weight",
            LayerWeight::DownExperts => "ffn_down_exps.weight",
            LayerWeight::UpShared => "ffn_up_shexp.weight",
            LayerWeight::GateShared => "ffn_gate_shexp.weight",
            LayerWeight::DownShared => "ffn_down_shexp.weight",
        }
    }
}

/// The weights outside the layers.
#[derive(Debug, Clone, Copy, PartialEq, Eq, Structural)]
pub enum GlobalWeight {
    TokenEmbd,
    Output,
    OutputNorm,
    HcHeadFn,
    HcHeadBase,
    HcHeadScale,
}

impl GlobalWeight {
    pub open spec fn text(self) -> Seq<char> {
        match self {
            GlobalWeight::TokenEmbd => "token_embd.weight"@,
            GlobalWeight::Output => "output.weight"@,
            GlobalWeight::OutputNorm => "output_norm.weight"@,
            GlobalWeight::HcHeadFn => "hc_head_fn"@,
            GlobalWeight::HcHeadBase => "hc_head_base"@,
            GlobalWeight::HcHeadScale => "hc_head_scale"@,
        }
    }

    fn as_text(self) -> (s: &'static str)
        ensures
            s@ == self.text(),
    {
        match self {
            GlobalWeight::TokenEmbd => "token_embd.weight",
            GlobalWeight::Output => "output.weight",
            GlobalWeight::OutputNorm => "output_norm.weight",
            GlobalWeight::HcHeadFn => "hc_head_fn",
            GlobalWeight::HcHeadBase => "hc_head_base",
            GlobalWeight::HcHeadScale => "hc_head_scale",
        }
    }
}

/// A weight of the model.
#[derive(Debug, Clone, Copy, PartialEq, Eq, Structural)]
pub enum WeightName {
    Global(GlobalWeight),
    Layer(usize, LayerWeight),
}

impl WeightName {
    /// The weight's name in the model file: `blk.<layer>.<suffix>` for the
    /// weights of a layer.
    pub open spec fn text(self) -> Seq<char> {
        match self {
            WeightName::Global(g) => g.text(),
            WeightName::Layer(i, w) => "blk."@ + decimal(i as nat) + "."@ + w.text(),
        }
    }

    pub fn name(self) -> (s: String)
        ensures
            s@ == self.text(),
    {
        match self {
            WeightName::Global(g) => String::from_str(g.as_text()),
            WeightName::Layer(i, w) => {
                let mut s: String = String::from_str("blk.");
                let number: String = decimal_string(i as u64);
                s.append(number.as_str());
                s.append(".");
                s.append(w.as_text());
                s
            },
        }
    }
}

/// An uploaded weight, as far as the host reads it.
#[derive(Debug)]
pub struct WeightEntry {
    pub name: String,
    pub residency: Residency,
    /// The format in which the model file stores it.
    pub ggml_type: GgmlType,
    /// Bytes of one stored row, `None` when rows do not fill whole blocks.
    pub row_bytes: Option<usize>,
    /// Contiguous dimension first, then rows.
    pub dims: Vec<usize>,
}

impl WeightEntry {
    pub open spec fn k_spec(&self) -> usize {
        if self.dims@.len() > 0 {
            self.dims@[0]
        } else {
            1
        }
    }

    pub open spec fn n_spec(&self) -> usize {
        if self.dims@.len() > 1 {
            self.dims@[1]
        } else {
            1
        }
    }

    /// The contiguous dimension.
    pub fn k(&self) -> (k: usize)
        ensures
            k == self.k_spec(),
    {
        if self.dims.len() > 0 {
            self.dims[0]
        } else {
            1
        }
    }

    /// The number of rows.
    pub fn n(&self) -> (n: usize)
        ensures
            n == self.n_spec(),
    {
        if self.dims.len() > 1 {
            self.dims[1]
        } else {
            1
        }
    }
}

/// The last of the first `n` entries that has a name.
pub open spec fn find_weight(table: Seq<WeightEntry>, name: Seq<char>, n: nat) -> Option<usize>
    decreases n,
{
    if n == 0 {
        None
    } else if table[n - 1].name@ == name {
        Some((n - 1) as usize)
    } else {
        find_weight(table, name, (n - 1) as nat)
    }
}

/// Where a weight stands in the table.
pub open spec fn weight_at(table: Seq<WeightEntry>, name: WeightName) -> Option<usize> {
    find_weight(table, name.text(), table.len())
}

pub fn lookup_weight(table: &Vec<WeightEntry>, name: WeightName) -> (r: Option<usize>)
    ensures
        r == weight_at(table@, name),
        r matches Some(i) ==> i < table@.len(),
{
    let text: String = name.name();
    let mut n: usize = table.len();
    while n > 0
        invariant
            n <= table@.len(),
            text@ == name.text(),
            weight_at(table@, name) == find_weight(table@, name.text(), n as nat),
        decreases n,
    {
        n = n - 1;
        if table[n].name == text {
            return Some(n);
        }
    }
    None
}

/// Device buffers: per-step scratch, and the regions of the slot's arena.
#[derive(Debug, Clone, Copy, PartialEq, Eq, Structural)]
pub enum Buf {
    TokenId,
    Emb,
    StreamA,
    StreamB,
    Normed,
    Mixes,
    Pre,
    Post,
    Comb,
    CQ,
    QRaw,
    KvRaw,
    QPrepared,
    KPrepared,
    AttnLocal,
    Latent,
    AttnOut,
    CompKv,
    CompScore,
    IdxQ,
    IdxW,
    Selected,
    RouterLogits,
    Gate,
    Up,
    Act,
    ExpertOut,
    MoeAcc,
    XF32,
    YF32,
    Q8,
    LogitsBf16,
    /// Position of the token, per slot.
    StartPos,
    SwWindowRing,
    PendingKv,
    PendingScore,
    OverlapKv,
    OverlapScore,
    CompressedRows,
    IndexerPendingKv,
    IndexerPendingScore,
    IndexerOverlapKv,
    IndexerOverlapScore,
    IndexerRows,
}

/// Which rotary parameters a launch uses.
#[derive(Debug, Clone, Copy, PartialEq, Eq, Structural)]
pub enum RopeBase {
    /// The model's own base.
    Plain,
    /// The base of compressed layers.
    Compressed,
}

/// How the embedding row is read.
#[derive(Debug, Clone, Copy, PartialEq, Eq, Structural)]
pub enum EmbedKernel {
    Q4K,
    Q5K,
    Q6K,
    Bf16,
}

/// One device launch. Weights are places in the weight table.
#[derive(Debug, Clone, Copy, PartialEq, Eq, Structural)]
pub enum Launch {
    Embed { kernel: EmbedKernel, weight: usize, hidden: usize },
    MhcExpand { hidden: usize, hc_mult: usize },
    Gemv { kind: GemvKind, weight: usize, byte_offset: usize, n: usize, k: usize, x: Buf, y: Buf },
    CastIn { x: Buf, n: usize },
    QuantizeQ8 { k: usize },
    Mmvq { kind: GemvKind, weight: usize, byte_offset: usize, n: usize, k: usize },
    CastOut { y: Buf, n: usize },
    RmsNorm { x: Buf, weight: usize, n: usize, y: Buf },
    MhcParams {
        stream: Buf,
        base: usize,
        scale: usize,
        stream_dim: usize,
        rows: usize,
        hc_mult: usize,
        sinkhorn_iters: usize,
    },
    MhcPreRmsNorm { stream: Buf, norm: usize, hidden: usize, hc_mult: usize },
    MhcPost { new_x: Buf, residual: Buf, out: Buf, hidden: usize, hc_mult: usize },
    PrepareQk {
        heads: usize,
        head_dim: usize,
        rope_dim: usize,
        rope: RopeBase,
        orig_seq_len: usize,
    },
    SwaAttention {
        window: usize,
        sink: usize,
        heads: usize,
        head_dim: usize,
        sliding_window: usize,
        rope_dim: usize,
        rope: RopeBase,
        orig_seq_len: usize,
    },
    CompressorUpdate {
        indexer: bool,
        ape: usize,
        norm: usize,
        at: CompressorOffsets,
        dim: usize,
        ratio: usize,
        width: usize,
        overlap: bool,
        rope_dim: usize,
        orig_seq_len: usize,
    },
    CsaSelect {
        keys: usize,
        width: usize,
        n_heads: usize,
        head_dim: usize,
        key_count: usize,
        ratio: usize,
        topk: usize,
    },
    HybridAttention {
        window: usize,
        /// Where the compressed rows lie, when there are any.
        compressed: Option<usize>,
        /// Attend only to the selected rows.
        selected: bool,
        sink: usize,
        heads: usize,
        head_dim: usize,
        sliding_window: usize,
        rope_dim: usize,
        rope: RopeBase,
        orig_seq_len: usize,
        mode: usize,
        ratio: usize,
        compressed_count: usize,
        topk: usize,
    },
    ZeroMoeAcc { hidden: usize },
    SwigluClamped { n: usize },
    /// Adds the expert output, scaled by the weight of the given route.
    AddScaledRow { hidden: usize, route: usize },
    AddAssign { hidden: usize },
    MhcHeadPre { base: usize, scale: usize, stream_dim: usize, hidden: usize, hc_mult: usize },
    CastLogits { n: usize },
}

/// Why a token cannot be forwarded.
#[derive(Debug, Clone, Copy, PartialEq, Eq, Structural)]
pub enum ForwardError {
    MissingWeight { name: WeightName },
    /// No matmul kernel for the weight's format.
    NoGemv { weight: usize },
    /// The hyper-connection mixer has more rows than its scratch.
    MixerTooWide { rows: usize },
    /// A compressor projection of another width.
    CompressorWidth { kv_rows: usize, gate_rows: usize, width: usize },
    /// No kernel reads an embedding table of this format.
    NoEmbedKernel { residency: Residency },
    /// Expert rows do not fill whole blocks.
    UnalignedExperts { weight: usize },
    SlotOutOfRange { slot: usize },
    /// The token is not the next one of its slot.
    NotContiguous { slot: usize, seq_len: usize, start_pos: usize },
    ExceedsMaxSeqLen { slot: usize, max_seq_len: usize },
}

/// A schedule under construction: the launches so far, and what stopped it.
#[verifier::ext_equal]
pub struct Prog {
    pub ops: Seq<Launch>,
    pub err: Option<ForwardError>,
}

impl Prog {
    pub open spec fn empty() -> Prog {
        Prog { ops: Seq::empty(), err: None }
    }

    /// Adds a launch, unless the schedule has stopped.
    pub open spec fn emit(self, l: Launch) -> Prog {
        if self.err is Some {
            self
        } else {
            Prog { ops: self.ops.push(l), err: None }
        }
    }

    /// Stops the schedule, unless it has stopped before.
    pub open spec fn fail(self, e: ForwardError) -> Prog {
        if self.err is Some {
            self
        } else {
            Prog { ops: self.ops, err: Some(e) }
        }
    }

    /// Stops the schedule when a weight is missing.
    pub open spec fn need(self, t: Seq<WeightEntry>, name: WeightName) -> Prog {
        if weight_at(t, name) is Some {
            self
        } else {
            self.fail(ForwardError::MissingWeight { name })
        }
    }

    /// A matrix-vector product with the rows that start `offset` bytes into
    /// a weight.
    pub open spec fn gemv(
        self,
        t: Seq<WeightEntry>,
        w: usize,
        offset: usize,
        n: usize,
        k: usize,
        x: Buf,
        y: Buf,
    ) -> Prog {
        match gemv_kind_of(t[w as int].residency) {
            None => self.fail(ForwardError::NoGemv { weight: w }),
            Some(kind) => if kind is MmvqIq2Xxs || kind is MmvqQ2K {
                self.emit(Launch::CastIn { x, n: k }).emit(Launch::QuantizeQ8 { k }).emit(
                    Launch::Mmvq { kind, weight: w, byte_offset: offset, n, k },
                ).emit(Launch::CastOut { y, n })
            } else {
                self.emit(Launch::Gemv { kind, weight: w, byte_offset: offset, n, k, x, y })
            },
        }
    }

    /// The product with a whole named weight.
    pub open spec fn gemv_full(
        self,
        t: Seq<WeightEntry>,
        name: WeightName,
        x: Buf,
        y: Buf,
    ) -> Prog {
        let p = self.need(t, name);
        let w = weight_at(t, name)->0;
        if p.err is Some {
            p
        } else {
            p.gemv(t, w, 0, t[w as int].n_spec(), t[w as int].k_spec(), x, y)
        }
    }

    pub open spec fn rms_norm(
        self,
        t: Seq<WeightEntry>,
        name: WeightName,
        x: Buf,
        n: usize,
        y: Buf,
    ) -> Prog {
        self.need(t, name).emit(Launch::RmsNorm { x, weight: weight_at(t, name)->0, n, y })
    }
}

/// A schedule.
#[derive(Debug)]
pub struct Program {
    pub ops: Vec<Launch>,
    pub err: Option<ForwardError>,
}

impl View for Program {
    type V = Prog;

    open spec fn view(&self) -> Prog {
        Prog { ops: self.ops@, err: self.err }
    }
}

impl Program {
    pub fn new() -> (p: Self)
        ensures
            p@ == Prog::empty(),
    {
        Program { ops: Vec::new(), err: None }
    }

    fn emit(&mut self, l: Launch)
        ensures
            final(self)@ == old(self)@.emit(l),
    {
        if self.err.is_none() {
            self.ops.push(l);
        }
    }

    fn fail(&mut self, e: ForwardError)
        ensures
            final(self)@ == old(self)@.fail(e),
    {
        if self.err.is_none() {
            self.err = Some(e);
        }
    }

    /// The place of a weight; a missing one stops the schedule.
    fn need(&mut self, table: &Vec<WeightEntry>, name: WeightName) -> (w: usize)
        ensures
            final(self)@ == old(self)@.need(table@, name),
            final(self)@.err is None ==> w < table@.len() && weight_at(table@, name) == Some(w),
    {
        match lookup_weight(table, name) {
            Some(w) => w,
            None => {
                self.fail(ForwardError::MissingWeight { name });
                0
            },
        }
    }

    fn gemv(
        &mut self,
        table: &Vec<WeightEntry>,
        w: usize,
        offset: usize,
        n: usize,
        k: usize,
        x: Buf,
        y: Buf,
    )
        requires
            w < table@.len(),
        ensures
            final(self)@ == old(self)@.gemv(table@, w, offset, n, k, x, y),
    {
        match gemv_kind(table[w].residency) {
            None => {
                self.fail(ForwardError::NoGemv { weight: w });
            },
            Some(kind) => match kind {
                GemvKind::MmvqIq2Xxs | GemvKind::MmvqQ2K => {
                    self.emit(Launch::CastIn { x, n: k });
                    self.emit(Launch::QuantizeQ8 { k });
                    self.emit(Launch::Mmvq { kind, weight: w, byte_offset: offset, n, k });
                    self.emit(Launch::CastOut { y, n });
                },
                GemvKind::Q4K | GemvKind::Q5K | GemvKind::Q6K => {
                    self.emit(
                        Launch::Gemv { kind, weight: w, byte_offset: offset, n, k, x, y },
                    );
                },
            },
        }
    }

    fn gemv_full(&mut self, table: &Vec<WeightEntry>, name: WeightName, x: Buf, y: Buf)
        ensures
            final(self)@ == old(self)@.gemv_full(table@, name, x, y),
    {
        let w: usize = self.need(table, name);
        if self.err.is_none() {
            let n: usize = table[w].n();
            let k: usize = table[w].k();
            self.gemv(table, w, 0, n, k, x, y);
        }
    }

    fn rms_norm(
        &mut self,
        table: &Vec<WeightEntry>,
        name: WeightName,
        x: Buf,
        n: usize,
        y: Buf,
    )
        ensures
            final(self)@ == old(self)@.rms_norm(table@, name, x, n, y),
    {
        let w: usize = self.need(table, name);
        self.emit(Launch::RmsNorm { x, weight: w, n, y });
        assert(self@ =~= old(self)@.rms_norm(table@, name, x, n, y));
    }
}

/// What the schedule of a layer depends on.
pub struct ModelView {
    pub config: DeepSeekV4Config,
    pub weights: Seq<WeightEntry>,
    pub mixes_bytes: usize,
}

/// The products of configuration values that the schedule names fit.
pub open spec fn dims_fit(c: DeepSeekV4Config) -> bool {
    &&& c.hidden_size * c.hc_mult <= usize::MAX
    &&& c.index_n_heads * c.index_head_dim <= usize::MAX
    &&& 2 * c.head_dim <= usize::MAX
    &&& 2 * c.index_head_dim <= usize::MAX
}

/// A layer's attention plan and arena regions belong together.
pub open spec fn layer_fits(plan: AttentionLayerPlan, off: LayerOffsets) -> bool {
    &&& !(plan.mode is SlidingWindow) ==> plan.compress_ratio > 0 && off.compressor is Some
    &&& plan.mode is CompressedSparse ==> off.indexer is Some
}

impl ModelView {
    pub open spec fn stream_dim(self) -> usize {
        (self.config.hidden_size * self.config.hc_mult) as usize
    }

    /// Hyper-connection parameters of one half of a layer.
    pub open spec fn mhc_params(self, p: Prog, layer: usize, ffn: bool, stream: Buf) -> Prog {
        let t = self.weights;
        let mixer = WeightName::Layer(
            layer,
            if ffn { LayerWeight::HcFfnFn } else { LayerWeight::HcAttnFn },
        );
        let base = WeightName::Layer(
            layer,
            if ffn { LayerWeight::HcFfnBase } else { LayerWeight::HcAttnBase },
        );
        let scale = WeightName::Layer(
            layer,
            if ffn { LayerWeight::HcFfnScale } else { LayerWeight::HcAttnScale },
        );
        let q = p.need(t, mixer).need(t, base).need(t, scale);
        let m = weight_at(t, mixer)->0;
        let rows = t[m as int].n_spec();
        if q.err is Some {
            q
        } else if 2 * rows > self.mixes_bytes {
            q.fail(ForwardError::MixerTooWide { rows })
        } else {
            q.gemv(t, m, 0, rows, t[m as int].k_spec(), stream, Buf::Mixes).emit(
                Launch::MhcParams {
                    stream,
                    base: weight_at(t, base)->0,
                    scale: weight_at(t, scale)->0,
                    stream_dim: self.stream_dim(),
                    rows,
                    hc_mult: self.config.hc_mult,
                    sinkhorn_iters: self.config.hc_sinkhorn_iters,
                },
            )
        }
    }

    pub open spec fn mhc_pre(self, p: Prog, norm: WeightName, stream: Buf) -> Prog {
        p.need(self.weights, norm).emit(
            Launch::MhcPreRmsNorm {
                stream,
                norm: weight_at(self.weights, norm)->0,
                hidden: self.config.hidden_size,
                hc_mult: self.config.hc_mult,
            },
        )
    }

    pub open spec fn mhc_post(self, p: Prog, new_x: Buf, residual: Buf, out: Buf) -> Prog {
        p.emit(
            Launch::MhcPost {
                new_x,
                residual,
                out,
                hidden: self.config.hidden_size,
                hc_mult: self.config.hc_mult,
            },
        )
    }

    /// One compressor step, of the layer's own family or the indexer's.
    pub open spec fn compressor_update(
        self,
        p: Prog,
        layer: usize,
        indexer: bool,
        at: CompressorOffsets,
        dim: usize,
        ratio: usize,
        overlap: bool,
        rope_dim: usize,
        orig_seq_len: usize,
    ) -> Prog {
        let t = self.weights;
        let kv = WeightName::Layer(
            layer,
            if indexer { LayerWeight::IndexerKv } else { LayerWeight::CompressKv },
        );
        let gate = WeightName::Layer(
            layer,
            if indexer { LayerWeight::IndexerGate } else { LayerWeight::CompressGate },
        );
        let ape = WeightName::Layer(
            layer,
            if indexer { LayerWeight::IndexerApe } else { LayerWeight::CompressApe },
        );
        let norm = WeightName::Layer(
            layer,
            if indexer { LayerWeight::IndexerNorm } else { LayerWeight::CompressNorm },
        );
        let width = (if overlap { 2 * dim } else { dim as int }) as usize;
        let q = p.need(t, kv).need(t, gate);
        let wkv = weight_at(t, kv)->0;
        let wgate = weight_at(t, gate)->0;
        if q.err is Some {
            q
        } else if t[wkv as int].n_spec() != width || t[wgate as int].n_spec() != width {
            q.fail(
                ForwardError::CompressorWidth {
                    kv_rows: t[wkv as int].n_spec(),
                    gate_rows: t[wgate as int].n_spec(),
                    width,
                },
            )
        } else {
            q.gemv_full(t, kv, Buf::Normed, Buf::CompKv).gemv_full(
                t,
                gate,
                Buf::Normed,
                Buf::CompScore,
            ).need(t, ape).need(t, norm).emit(
                Launch::CompressorUpdate {
                    indexer,
                    ape: weight_at(t, ape)->0,
                    norm: weight_at(t, norm)->0,
                    at,
                    dim,
                    ratio,
                    width,
                    overlap,
                    rope_dim,
                    orig_seq_len,
                },
            )
        }
    }

    /// Rotary base and original context length of a layer.
    pub open spec fn rope_of(self, plan: AttentionLayerPlan) -> (RopeBase, usize) {
        if plan.compress_ratio > 0 {
            (RopeBase::Compressed, self.config.original_max_position_embeddings)
        } else {
            (RopeBase::Plain, 0)
        }
    }

    /// Query and key projections, up to the prepared query and key.
    pub open spec fn project_qk(self, p: Prog, layer: usize, plan: AttentionLayerPlan) -> Prog {
        let t = self.weights;
        let c = self.config;
        let (rope, orig_seq_len) = self.rope_of(plan);
        p.gemv_full(
            t,
            WeightName::Layer(layer, LayerWeight::AttnQA),
            Buf::Normed,
            Buf::CQ,
        ).rms_norm(
            t,
            WeightName::Layer(layer, LayerWeight::AttnQANorm),
            Buf::CQ,
            c.q_lora_rank,
            Buf::CQ,
        ).gemv_full(
            t,
            WeightName::Layer(layer, LayerWeight::AttnQB),
            Buf::CQ,
            Buf::QRaw,
        ).gemv_full(
            t,
            WeightName::Layer(layer, LayerWeight::AttnKvLatent),
            Buf::Normed,
            Buf::KvRaw,
        ).rms_norm(
            t,
            WeightName::Layer(layer, LayerWeight::AttnKvANorm),
            Buf::KvRaw,
            c.head_dim,
            Buf::KvRaw,
        ).emit(
            Launch::PrepareQk {
                heads: c.num_attention_heads,
                head_dim: c.head_dim,
                rope_dim: c.qk_rope_head_dim,
                rope,
                orig_seq_len,
            },
        )
    }

    /// The indexer of a sparse layer: its own compressor, its query and
    /// weights, and the selection among the compressed rows.
    pub open spec fn select_rows(
        self,
        p: Prog,
        layer: usize,
        plan: AttentionLayerPlan,
        at: CompressorOffsets,
        start_pos: usize,
    ) -> Prog {
        let t = self.weights;
        let c = self.config;
        self.compressor_update(
            p,
            layer,
            true,
            at,
            c.index_head_dim,
            plan.compress_ratio,
            true,
            0,
            0,
        ).gemv_full(
            t,
            WeightName::Layer(layer, LayerWeight::IndexerQB),
            Buf::CQ,
            Buf::IdxQ,
        ).gemv_full(
            t,
            WeightName::Layer(layer, LayerWeight::IndexerProj),
            Buf::Normed,
            Buf::IdxW,
        ).emit(
            Launch::CsaSelect {
                keys: at.compressed,
                width: (c.index_n_heads * c.index_head_dim) as usize,
                n_heads: c.index_n_heads,
                head_dim: c.index_head_dim,
                key_count: ((start_pos + 1) / plan.compress_ratio as int) as usize,
                ratio: plan.compress_ratio,
                topk: c.index_topk,
            },
        )
    }

    /// The attention of a layer, by its mode.
    pub open spec fn attend(
        self,
        p: Prog,
        layer: usize,
        plan: AttentionLayerPlan,
        off: LayerOffsets,
        start_pos: usize,
    ) -> Prog {
        let t = self.weights;
        let c = self.config;
        let (rope, orig_seq_len) = self.rope_of(plan);
        let sink = WeightName::Layer(layer, LayerWeight::AttnSinks);
        let q = p.need(t, sink);
        if plan.mode is SlidingWindow {
            q.emit(
                Launch::SwaAttention {
                    window: off.sw_window,
                    sink: weight_at(t, sink)->0,
                    heads: c.num_attention_heads,
                    head_dim: c.head_dim,
                    sliding_window: c.sliding_window,
                    rope_dim: c.qk_rope_head_dim,
                    rope,
                    orig_seq_len,
                },
            )
        } else {
            let ratio = plan.compress_ratio;
            let comp = off.compressor->0;
            let updated = self.compressor_update(
                q,
                layer,
                false,
                comp,
                c.head_dim,
                ratio,
                ratio < 16,
                c.qk_rope_head_dim,
                orig_seq_len,
            );
            let sparse = plan.mode is CompressedSparse;
            let selected = if sparse {
                self.select_rows(updated, layer, plan, off.indexer->0, start_pos)
            } else {
                updated
            };
            let count = ((start_pos + 1) / ratio as int) as usize;
            selected.emit(
                Launch::HybridAttention {
                    window: off.sw_window,
                    compressed: if count > 0 { Some(comp.compressed) } else { None },
                    selected: sparse,
                    sink: weight_at(t, sink)->0,
                    heads: c.num_attention_heads,
                    head_dim: c.head_dim,
                    sliding_window: c.sliding_window,
                    rope_dim: c.qk_rope_head_dim,
                    rope,
                    orig_seq_len,
                    mode: if sparse { 1 } else { 2 },
                    ratio,
                    compressed_count: count,
                    topk: c.index_topk,
                },
            )
        }
    }

    /// The attention part of a layer, up to the router logits.
    pub open spec fn layer_attention(
        self,
        layer: usize,
        plan: AttentionLayerPlan,
        off: LayerOffsets,
        start_pos: usize,
    ) -> Prog {
        let t = self.weights;
        let p1 = self.mhc_params(Prog::empty(), layer, false, Buf::StreamA);
        let p2 = self.mhc_pre(
            p1,
            WeightName::Layer(layer, LayerWeight::AttnNorm),
            Buf::StreamA,
        );
        let p3 = self.project_qk(p2, layer, plan);
        let p4 = self.attend(p3, layer, plan, off, start_pos);
        let p5 = p4.gemv_full(
            t,
            WeightName::Layer(layer, LayerWeight::AttnOutputA),
            Buf::AttnLocal,
            Buf::Latent,
        );
        let p6 = p5.gemv_full(
            t,
            WeightName::Layer(layer, LayerWeight::AttnOutputB),
            Buf::Latent,
            Buf::AttnOut,
        );
        let p7 = self.mhc_post(p6, Buf::AttnOut, Buf::StreamA, Buf::StreamB);
        let p8 = self.mhc_params(p7, layer, true, Buf::StreamB);
        let p9 = self.mhc_pre(
            p8,
            WeightName::Layer(layer, LayerWeight::FfnNorm),
            Buf::StreamB,
        );
        p9.gemv_full(
            t,
            WeightName::Layer(layer, LayerWeight::Router),
            Buf::Normed,
            Buf::RouterLogits,
        )
    }

    /// Stops the schedule when a weight's rows do not fill whole blocks.
    pub open spec fn need_aligned(self, p: Prog, name: WeightName) -> Prog {
        let w = weight_at(self.weights, name)->0;
        if p.err is None && self.weights[w as int].row_bytes is None {
            p.fail(ForwardError::UnalignedExperts { weight: w })
        } else {
            p
        }
    }

    /// Bytes between two experts of a weight.
    pub open spec fn expert_bytes(self, name: WeightName) -> nat {
        let w = weight_at(self.weights, name)->0;
        let e = self.weights[w as int];
        e.row_bytes->0 as nat * e.n_spec() as nat
    }

    /// The byte offsets of the routed experts fit.
    pub open spec fn experts_fit(self, name: WeightName, routes: Seq<usize>) -> bool {
        weight_at(self.weights, name) matches Some(w) ==> self.weights[w as int].row_bytes is Some
            ==> {
            &&& self.expert_bytes(name) <= usize::MAX
            &&& forall|i: int|
                0 <= i < routes.len() ==> #[trigger] routes[i] * self.expert_bytes(name)
                    <= usize::MAX
        }
    }

    /// One routed expert: up and gate, activation, down, and the weighted
    /// sum.
    pub open spec fn one_expert(self, p: Prog, layer: usize, routes: Seq<usize>, i: int) -> Prog {
        let t = self.weights;
        let c = self.config;
        let up = WeightName::Layer(layer, LayerWeight::UpExperts);
        let gate = WeightName::Layer(layer, LayerWeight::GateExperts);
        let down = WeightName::Layer(layer, LayerWeight::DownExperts);
        p.gemv(
            t,
            weight_at(t, up)->0,
            (routes[i] * self.expert_bytes(up)) as usize,
            c.moe_intermediate_size,
            c.hidden_size,
            Buf::Normed,
            Buf::Up,
        ).gemv(
            t,
            weight_at(t, gate)->0,
            (routes[i] * self.expert_bytes(gate)) as usize,
            c.moe_intermediate_size,
            c.hidden_size,
            Buf::Normed,
            Buf::Gate,
        ).emit(Launch::SwigluClamped { n: c.moe_intermediate_size }).gemv(
            t,
            weight_at(t, down)->0,
            (routes[i] * self.expert_bytes(down)) as usize,
            c.hidden_size,
            c.moe_intermediate_size,
            Buf::Act,
            Buf::ExpertOut,
        ).emit(Launch::AddScaledRow { hidden: c.hidden_size, route: i as usize })
    }

    /// The first `n` routed experts.
    pub open spec fn experts(self, p: Prog, layer: usize, routes: Seq<usize>, n: nat) -> Prog
        decreases n,
    {
        if n == 0 {
            p
        } else {
            self.one_expert(self.experts(p, layer, routes, (n - 1) as nat), layer, routes, n - 1)
        }
    }

    /// The shared expert, where there is one.
    pub open spec fn shared_expert(self, p: Prog, layer: usize) -> Prog {
        let t = self.weights;
        let c = self.config;
        let up = WeightName::Layer(layer, LayerWeight::UpShared);
        if c.n_shared_experts == 0 {
            p
        } else {
            p.gemv_full(t, up, Buf::Normed, Buf::Up).gemv_full(
                t,
                WeightName::Layer(layer, LayerWeight::GateShared),
                Buf::Normed,
                Buf::Gate,
            ).emit(
                Launch::SwigluClamped { n: t[weight_at(t, up)->0 as int].n_spec() },
            ).gemv_full(
                t,
                WeightName::Layer(layer, LayerWeight::DownShared),
                Buf::Act,
                Buf::ExpertOut,
            ).emit(Launch::AddAssign { hidden: c.hidden_size })
        }
    }

    /// The expert part of a layer, for the experts that the router chose.
    pub open spec fn layer_experts(self, layer: usize, routes: Seq<usize>) -> Prog {
        let t = self.weights;
        let up = WeightName::Layer(layer, LayerWeight::UpExperts);
        let gate = WeightName::Layer(layer, LayerWeight::GateExperts);
        let down = WeightName::Layer(layer, LayerWeight::DownExperts);
        let p0 = Prog::empty().emit(Launch::ZeroMoeAcc { hidden: self.config.hidden_size });
        let p1 = p0.need(t, up).need(t, gate).need(t, down);
        let p2 = self.need_aligned(self.need_aligned(self.need_aligned(p1, up), gate), down);
        let p3 = if p2.err is Some {
            p2
        } else {
            self.shared_expert(self.experts(p2, layer, routes, routes.len()), layer)
        };
        self.mhc_post(p3, Buf::MoeAcc, Buf::StreamB, Buf::StreamA)
    }

    /// The start of a token: embedding and stream expansion.
    pub open spec fn embed(self) -> Prog {
        let name = WeightName::Global(GlobalWeight::TokenEmbd);
        let p = Prog::empty().need(self.weights, name);
        let w = weight_at(self.weights, name)->0;
        if p.err is Some {
            p
        } else {
            match embed_kernel(self.weights[w as int].residency) {
                None => p.fail(
                    ForwardError::NoEmbedKernel {
                        residency: self.weights[w as int].residency,
                    },
                ),
                Some(kernel) => p.emit(
                    Launch::Embed { kernel, weight: w, hidden: self.config.hidden_size },
                ).emit(
                    Launch::MhcExpand {
                        hidden: self.config.hidden_size,
                        hc_mult: self.config.hc_mult,
                    },
                ),
            }
        }
    }

    /// The end of a token: head, output norm and logits.
    pub open spec fn head(self, lm_head: GlobalWeight) -> Prog {
        let t = self.weights;
        let c = self.config;
        let base = WeightName::Global(GlobalWeight::HcHeadBase);
        let scale = WeightName::Global(GlobalWeight::HcHeadScale);
        let lm = WeightName::Global(lm_head);
        let p = Prog::empty().gemv_full(
            t,
            WeightName::Global(GlobalWeight::HcHeadFn),
            Buf::StreamA,
            Buf::Mixes,
        ).need(t, base).need(t, scale).emit(
            Launch::MhcHeadPre {
                base: weight_at(t, base)->0,
                scale: weight_at(t, scale)->0,
                stream_dim: self.stream_dim(),
                hidden: c.hidden_size,
                hc_mult: c.hc_mult,
            },
        ).rms_norm(
            t,
            WeightName::Global(GlobalWeight::OutputNorm),
            Buf::AttnOut,
            c.hidden_size,
            Buf::Normed,
        ).need(t, lm);
        if p.err is Some {
            p
        } else {
            p.gemv(
                t,
                weight_at(t, lm)->0,
                0,
                c.vocab_size,
                c.hidden_size,
                Buf::Normed,
                Buf::LogitsBf16,
            ).emit(Launch::CastLogits { n: c.vocab_size })
        }
    }
}

/// How an embedding table of a format is read, if at all.
pub open spec fn embed_kernel(residency: Residency) -> Option<EmbedKernel> {
    match gemv_kind_of(residency) {
        Some(GemvKind::Q4K) => Some(EmbedKernel::Q4K),
        Some(GemvKind::Q5K) => Some(EmbedKernel::Q5K),
        Some(GemvKind::Q6K) => Some(EmbedKernel::Q6K),
        Some(_) => None,
        None => if residency is DequantBf16 {
            Some(EmbedKernel::Bf16)
        } else {
            None
        },
    }
}


/// Host state of a slot whose arena is made and zeroed on the device.
#[derive(Debug, Clone, Copy, PartialEq, Eq, Structural)]
pub struct SlotState {
    pub seq_len: usize,
    pub epoch: u64,
}

/// A loaded model: configuration, weights, layer plans and arena layout, and
/// the host state of every slot.
#[derive(Debug)]
pub struct HipDsv4Model {
    pub config: DeepSeekV4Config,
    pub weights: Vec<WeightEntry>,
    pub layer_plans: Vec<AttentionLayerPlan>,
    pub offsets: Vec<LayerOffsets>,
    pub max_seq_len: usize,
    /// A slot is held from when its arena was reported made until its epoch
    /// moves on.
    pub slots: Vec<Option<SlotState>>,
    /// Bytes of the mixer scratch.
    pub mixes_bytes: usize,
    pub lm_head: GlobalWeight,
}

/// What is left of a slot once a host epoch was seen: a stale one is gone.
pub open spec fn held_at(state: Option<SlotState>, epoch: u64) -> Option<SlotState> {
    match state {
        Some(s) => if s.epoch == epoch {
            Some(s)
        } else {
            None
        },
        None => None,
    }
}

/// A slot with one token more.
pub open spec fn counted(state: SlotState) -> SlotState {
    SlotState { seq_len: (state.seq_len + 1) as usize, epoch: state.epoch }
}

/// How a token starts on a slot of which this is left: without an arena that
/// is to be made first, and with one the token must be the slot's next.
pub open spec fn token_start(
    held: Option<SlotState>,
    slot: usize,
    start_pos: usize,
    max_seq_len: usize,
) -> Result<bool, ForwardError> {
    match held {
        None => Ok(true),
        Some(s) => if s.seq_len != start_pos {
            Err(ForwardError::NotContiguous { slot, seq_len: s.seq_len, start_pos })
        } else if start_pos >= max_seq_len {
            Err(ForwardError::ExceedsMaxSeqLen { slot, max_seq_len })
        } else {
            Ok(false)
        },
    }
}

/// No token runs on an arena that was not made for its epoch: on a slot that
/// is empty or held for another epoch every start, whatever its position and
/// whatever starts came before, asks for the arena and holds nothing, and only
/// a slot held for this very epoch lets a token run.
pub proof fn arena_is_asked_for_until_made(
    before: Option<SlotState>,
    epoch: u64,
    slot: usize,
    start_pos: usize,
    max_seq_len: usize,
)
    ensures
        !(before matches Some(s) && s.epoch == epoch) ==> held_at(before, epoch) is None
            && token_start(held_at(before, epoch), slot, start_pos, max_seq_len) == Ok::<
            bool,
            ForwardError,
        >(true),
        held_at(held_at(before, epoch), epoch) == held_at(before, epoch),
        token_start(held_at(before, epoch), slot, start_pos, max_seq_len) == Ok::<
            bool,
            ForwardError,
        >(false) ==> (before matches Some(s) && s.epoch == epoch && s.seq_len == start_pos),
{
}

impl HipDsv4Model {
    pub open spec fn view_of(&self) -> ModelView {
        ModelView {
            config: self.config,
            weights: self.weights@,
            mixes_bytes: self.mixes_bytes,
        }
    }

    pub fn max_seq_len(&self) -> (n: usize)
        ensures
            n == self.max_seq_len,
    {
        self.max_seq_len
    }

    /// Resets a slot whose host epoch moved.
    pub fn reset_slot_if_epoch_changed(&mut self, slot: usize, epoch: u64)
        ensures
            final(self).view_of() == old(self).view_of(),
            final(self).layer_plans == old(self).layer_plans,
            final(self).offsets == old(self).offsets,
            final(self).max_seq_len == old(self).max_seq_len,
            final(self).lm_head == old(self).lm_head,
            final(self).slots@ == if slot < old(self).slots@.len() && (
            old(self).slots@[slot as int] matches Some(s) && s.epoch != epoch) {
                old(self).slots@.update(slot as int, None)
            } else {
                old(self).slots@
            },
    {
        if slot < self.slots.len() {
            if let Some(s) = self.slots[slot] {
                if s.epoch != epoch {
                    self.slots[slot] = None;
                }
            }
        }
    }

    /// Drops a recycled slot and says whether the slot's arena has to be made.
    pub fn ensure_slot(&mut self, slot: usize, epoch: u64) -> (r: Result<bool, ForwardError>)
        ensures
            final(self).view_of() == old(self).view_of(),
            final(self).layer_plans == old(self).layer_plans,
            final(self).offsets == old(self).offsets,
            final(self).max_seq_len == old(self).max_seq_len,
            final(self).lm_head == old(self).lm_head,
            if slot >= old(self).slots@.len() {
                &&& r == Err::<bool, ForwardError>(ForwardError::SlotOutOfRange { slot })
                &&& final(self).slots@ == old(self).slots@
            } else {
                let held = held_at(old(self).slots@[slot as int], epoch);
                &&& final(self).slots@ == old(self).slots@.update(slot as int, held)
                &&& r == Ok::<bool, ForwardError>(held is None)
            },
    {
        if slot >= self.slots.len() {
            return Err(ForwardError::SlotOutOfRange { slot });
        }
        self.reset_slot_if_epoch_changed(slot, epoch);
        assert(self.slots@ =~= old(self).slots@.update(
            slot as int,
            held_at(old(self).slots@[slot as int], epoch),
        ));
        Ok(self.slots[slot].is_none())
    }

    /// Holds a slot whose arena the device has made and zeroed.
    pub fn arena_made(&mut self, slot: usize, epoch: u64)
        requires
            slot < old(self).slots@.len(),
            old(self).slots@[slot as int] is None,
        ensures
            final(self).view_of() == old(self).view_of(),
            final(self).layer_plans == old(self).layer_plans,
            final(self).offsets == old(self).offsets,
            final(self).max_seq_len == old(self).max_seq_len,
            final(self).lm_head == old(self).lm_head,
            final(self).slots@ == old(self).slots@.update(
                slot as int,
                Some(SlotState { seq_len: 0, epoch }),
            ),
    {
        self.slots[slot] = Some(SlotState { seq_len: 0, epoch });
    }

    /// Starts the token at `start_pos`. `Ok(true)` says that the slot's arena
    /// has to be made and zeroed; the token is started again once
    /// [`Self::arena_made`] has reported it. `Ok(false)` lets the token run.
    pub fn begin_token(&mut self, slot: usize, epoch: u64, start_pos: usize) -> (r: Result<
        bool,
        ForwardError,
    >)
        ensures
            final(self).view_of() == old(self).view_of(),
            final(self).layer_plans == old(self).layer_plans,
            final(self).offsets == old(self).offsets,
            final(self).max_seq_len == old(self).max_seq_len,
            final(self).lm_head == old(self).lm_head,
            if slot >= old(self).slots@.len() {
                &&& r == Err::<bool, ForwardError>(ForwardError::SlotOutOfRange { slot })
                &&& final(self).slots@ == old(self).slots@
            } else {
                let held = held_at(old(self).slots@[slot as int], epoch);
                &&& final(self).slots@ == old(self).slots@.update(slot as int, held)
                &&& r == token_start(held, slot, start_pos, old(self).max_seq_len)
            },
    {
        match self.ensure_slot(slot, epoch) {
            Err(e) => {
                return Err(e);
            },
            Ok(_) => {},
        }
        let state: SlotState = match self.slots[slot] {
            None => {
                return Ok(true);
            },
            Some(s) => s,
        };
        if state.seq_len != start_pos {
            return Err(ForwardError::NotContiguous { slot, seq_len: state.seq_len, start_pos });
        }
        if start_pos >= self.max_seq_len {
            return Err(ForwardError::ExceedsMaxSeqLen { slot, max_seq_len: self.max_seq_len });
        }
        Ok(false)
    }

    /// Counts a token that was forwarded.
    pub fn commit_token(&mut self, slot: usize)
        requires
            slot < old(self).slots@.len(),
            old(self).slots@[slot as int] matches Some(s) && s.seq_len < usize::MAX,
        ensures
            final(self).view_of() == old(self).view_of(),
            final(self).layer_plans == old(self).layer_plans,
            final(self).offsets == old(self).offsets,
            final(self).max_seq_len == old(self).max_seq_len,
            final(self).lm_head == old(self).lm_head,
            final(self).slots@ == old(self).slots@.update(
                slot as int,
                Some(counted(old(self).slots@[slot as int]->0)),
            ),
    {
        if let Some(s) = self.slots[slot] {
            self.slots[slot] = Some(SlotState { seq_len: s.seq_len + 1, epoch: s.epoch });
        }
    }

    fn mhc_params(&self, p: &mut Program, layer: usize, ffn: bool, stream: Buf)
        requires
            dims_fit(self.config),
        ensures
            final(p)@ == self.view_of().mhc_params(old(p)@, layer, ffn, stream),
    {
        let (mixer, base, scale) = if ffn {
            (LayerWeight::HcFfnFn, LayerWeight::HcFfnBase, LayerWeight::HcFfnScale)
        } else {
            (LayerWeight::HcAttnFn, LayerWeight::HcAttnBase, LayerWeight::HcAttnScale)
        };
        let m: usize = p.need(&self.weights, WeightName::Layer(layer, mixer));
        let base: usize = p.need(&self.weights, WeightName::Layer(layer, base));
        let scale: usize = p.need(&self.weights, WeightName::Layer(layer, scale));
        if p.err.is_some() {
            return;
        }
        let rows: usize = self.weights[m].n();
        if rows > self.mixes_bytes / 2 {
            p.fail(ForwardError::MixerTooWide { rows });
            return;
        }
        let k: usize = self.weights[m].k();
        p.gemv(&self.weights, m, 0, rows, k, stream, Buf::Mixes);
        p.emit(
            Launch::MhcParams {
                stream,
                base,
                scale,
                stream_dim: self.config.hidden_size * self.config.hc_mult,
                rows,
                hc_mult: self.config.hc_mult,
                sinkhorn_iters: self.config.hc_sinkhorn_iters,
            },
        );
    }

    fn mhc_pre(&self, p: &mut Program, norm: WeightName, stream: Buf)
        ensures
            final(p)@ == self.view_of().mhc_pre(old(p)@, norm, stream),
    {
        let w: usize = p.need(&self.weights, norm);
        p.emit(
            Launch::MhcPreRmsNorm {
                stream,
                norm: w,
                hidden: self.config.hidden_size,
                hc_mult: self.config.hc_mult,
            },
        );
        assert(p@ =~= self.view_of().mhc_pre(old(p)@, norm, stream));
    }

    fn mhc_post(&self, p: &mut Program, new_x: Buf, residual: Buf, out: Buf)
        ensures
            final(p)@ == self.view_of().mhc_post(old(p)@, new_x, residual, out),
    {
        p.emit(
            Launch::MhcPost {
                new_x,
                residual,
                out,
                hidden: self.config.hidden_size,
                hc_mult: self.config.hc_mult,
            },
        );
    }

    fn compressor_update(
        &self,
        p: &mut Program,
        layer: usize,
        indexer: bool,
        at: CompressorOffsets,
        dim: usize,
        ratio: usize,
        overlap: bool,
        rope_dim: usize,
        orig_seq_len: usize,
    )
        requires
            2 * dim <= usize::MAX,
        ensures
            final(p)@ == self.view_of().compressor_update(
                old(p)@,
                layer,
                indexer,
                at,
                dim,
                ratio,
                overlap,
                rope_dim,
                orig_seq_len,
            ),
    {
        let width: usize = if overlap {
            2 * dim
        } else {
            dim
        };
        let (kv, gate, ape, norm) = if indexer {
            (
                LayerWeight::IndexerKv,
                LayerWeight::IndexerGate,
                LayerWeight::IndexerApe,
                LayerWeight::IndexerNorm,
            )
        } else {
            (
                LayerWeight::CompressKv,
                LayerWeight::CompressGate,
                LayerWeight::CompressApe,
                LayerWeight::CompressNorm,
            )
        };
        let wkv: usize = p.need(&self.weights, WeightName::Layer(layer, kv));
        let wgate: usize = p.need(&self.weights, WeightName::Layer(layer, gate));
        if p.err.is_some() {
            return;
        }
        let kv_rows: usize = self.weights[wkv].n();
        let gate_rows: usize = self.weights[wgate].n();
        if kv_rows != width || gate_rows != width {
            p.fail(ForwardError::CompressorWidth { kv_rows, gate_rows, width });
            return;
        }
        p.gemv_full(&self.weights, WeightName::Layer(layer, kv), Buf::Normed, Buf::CompKv);
        p.gemv_full(&self.weights, WeightName::Layer(layer, gate), Buf::Normed, Buf::CompScore);
        let ghost before = p@;
        let wape: usize = p.need(&self.weights, WeightName::Layer(layer, ape));
        let wnorm: usize = p.need(&self.weights, WeightName::Layer(layer, norm));
        p.emit(
            Launch::CompressorUpdate {
                indexer,
                ape: wape,
                norm: wnorm,
                at,
                dim,
                ratio,
                width,
                overlap,
                rope_dim,
                orig_seq_len,
            },
        );
        proof {
            let t = self.weights@;
            let q = before.need(t, WeightName::Layer(layer, ape)).need(
                t,
                WeightName::Layer(layer, norm),
            );
            assert(p@ =~= q.emit(
                Launch::CompressorUpdate {
                    indexer,
                    ape: weight_at(t, WeightName::Layer(layer, ape))->0,
                    norm: weight_at(t, WeightName::Layer(layer, norm))->0,
                    at,
                    dim,
                    ratio,
                    width,
                    overlap,
                    rope_dim,
                    orig_seq_len,
                },
            ));
        }
    }

    fn rope_of(&self, plan: AttentionLayerPlan) -> (r: (RopeBase, usize))
        ensures
            r == self.view_of().rope_of(plan),
    {
        if plan.compress_ratio > 0 {
            (RopeBase::Compressed, self.config.original_max_position_embeddings)
        } else {
            (RopeBase::Plain, 0)
        }
    }

    fn project_qk(&self, p: &mut Program, layer: usize, plan: AttentionLayerPlan)
        ensures
            final(p)@ == self.view_of().project_qk(old(p)@, layer, plan),
    {
        let (rope, orig_seq_len) = self.rope_of(plan);
        let t = &self.weights;
        p.gemv_full(t, WeightName::Layer(layer, LayerWeight::AttnQA), Buf::Normed, Buf::CQ);
        p.rms_norm(
            t,
            WeightName::Layer(layer, LayerWeight::AttnQANorm),
            Buf::CQ,
            self.config.q_lora_rank,
            Buf::CQ,
        );
        p.gemv_full(t, WeightName::Layer(layer, LayerWeight::AttnQB), Buf::CQ, Buf::QRaw);
        p.gemv_full(
            t,
            WeightName::Layer(layer, LayerWeight::AttnKvLatent),
            Buf::Normed,
            Buf::KvRaw,
        );
        p.rms_norm(
            t,
            WeightName::Layer(layer, LayerWeight::AttnKvANorm),
            Buf::KvRaw,
            self.config.head_dim,
            Buf::KvRaw,
        );
        p.emit(
            Launch::PrepareQk {
                heads: self.config.num_attention_heads,
                head_dim: self.config.head_dim,
                rope_dim: self.config.qk_rope_head_dim,
                rope,
                orig_seq_len,
            },
        );
    }

    fn select_rows(
        &self,
        p: &mut Program,
        layer: usize,
        plan: AttentionLayerPlan,
        at: CompressorOffsets,
        start_pos: usize,
    )
        requires
            dims_fit(self.config),
            plan.compress_ratio > 0,
            start_pos < usize::MAX,
        ensures
            final(p)@ == self.view_of().select_rows(old(p)@, layer, plan, at, start_pos),
    {
        let t = &self.weights;
        self.compressor_update(
            p,
            layer,
            true,
            at,
            self.config.index_head_dim,
            plan.compress_ratio,
            true,
            0,
            0,
        );
        p.gemv_full(t, WeightName::Layer(layer, LayerWeight::IndexerQB), Buf::CQ, Buf::IdxQ);
        p.gemv_full(
            t,
            WeightName::Layer(layer, LayerWeight::IndexerProj),
            Buf::Normed,
            Buf::IdxW,
        );
        p.emit(
            Launch::CsaSelect {
                keys: at.compressed,
                width: self.config.index_n_heads * self.config.index_head_dim,
                n_heads: self.config.index_n_heads,
                head_dim: self.config.index_head_dim,
                key_count: (start_pos + 1) / plan.compress_ratio,
                ratio: plan.compress_ratio,
                topk: self.config.index_topk,
            },
        );
    }

    fn attend(
        &self,
        p: &mut Program,
        layer: usize,
        plan: AttentionLayerPlan,
        off: LayerOffsets,
        start_pos: usize,
    )
        requires
            dims_fit(self.config),
            layer_fits(plan, off),
            start_pos < usize::MAX,
        ensures
            final(p)@ == self.view_of().attend(old(p)@, layer, plan, off, start_pos),
    {
        let (rope, orig_seq_len) = self.rope_of(plan);
        let sink: usize = p.need(&self.weights, WeightName::Layer(layer, LayerWeight::AttnSinks));
        let ghost q = p@;
        let comp: CompressorOffsets = match off.compressor {
            Some(comp) if !matches!(plan.mode, AttentionMode::SlidingWindow) => comp,
            _ => {
                p.emit(
                    Launch::SwaAttention {
                        window: off.sw_window,
                        sink,
                        heads: self.config.num_attention_heads,
                        head_dim: self.config.head_dim,
                        sliding_window: self.config.sliding_window,
                        rope_dim: self.config.qk_rope_head_dim,
                        rope,
                        orig_seq_len,
                    },
                );
                assert(p@ =~= self.view_of().attend(old(p)@, layer, plan, off, start_pos));
                return;
            },
        };
        let ratio: usize = plan.compress_ratio;
        self.compressor_update(
            p,
            layer,
            false,
            comp,
            self.config.head_dim,
            ratio,
            ratio < 16,
            self.config.qk_rope_head_dim,
            orig_seq_len,
        );
        let sparse: bool = match (plan.mode, off.indexer) {
            (AttentionMode::CompressedSparse, Some(at)) => {
                self.select_rows(p, layer, plan, at, start_pos);
                true
            },
            _ => false,
        };
        let count: usize = (start_pos + 1) / ratio;
        let ghost before = p@;
        p.emit(
            Launch::HybridAttention {
                window: off.sw_window,
                compressed: if count > 0 {
                    Some(comp.compressed)
                } else {
                    None
                },
                selected: sparse,
                sink,
                heads: self.config.num_attention_heads,
                head_dim: self.config.head_dim,
                sliding_window: self.config.sliding_window,
                rope_dim: self.config.qk_rope_head_dim,
                rope,
                orig_seq_len,
                mode: if sparse {
                    1
                } else {
                    2
                },
                ratio,
                compressed_count: count,
                topk: self.config.index_topk,
            },
        );
        proof {
            if q.err is Some {
                self.lemma_stopped(q, layer, plan, off, start_pos);
            }
            assert(p@ =~= self.view_of().attend(old(p)@, layer, plan, off, start_pos));
        }
    }

    /// A stopped schedule stays as it is.
    proof fn lemma_stopped(
        &self,
        q: Prog,
        layer: usize,
        plan: AttentionLayerPlan,
        off: LayerOffsets,
        start_pos: usize,
    )
        requires
            q.err is Some,
        ensures
            forall|i: bool, at: CompressorOffsets, d: usize, r: usize, o: bool, rd: usize, os: usize|
                #[trigger]
                self.view_of().compressor_update(q, layer, i, at, d, r, o, rd, os) == q,
            forall|at: CompressorOffsets| #[trigger]
                self.view_of().select_rows(q, layer, plan, at, start_pos) == q,
    {
    }

    /// The attention part of a layer, up to the router logits.
    pub fn layer_forward(&self, layer: usize, start_pos: usize) -> (p: Program)
        requires
            dims_fit(self.config),
            layer < self.layer_plans@.len(),
            layer < self.offsets@.len(),
            layer_fits(self.layer_plans@[layer as int], self.offsets@[layer as int]),
            start_pos < usize::MAX,
        ensures
            p@ == self.view_of().layer_attention(
                layer,
                self.layer_plans@[layer as int],
                self.offsets@[layer as int],
                start_pos,
            ),
    {
        let plan: AttentionLayerPlan = self.layer_plans[layer];
        let off: LayerOffsets = self.offsets[layer];
        let t = &self.weights;
        let mut p = Program::new();
        self.mhc_params(&mut p, layer, false, Buf::StreamA);
        self.mhc_pre(
            &mut p,
            WeightName::Layer(layer, LayerWeight::AttnNorm),
            Buf::StreamA,
        );
        self.project_qk(&mut p, layer, plan);
        self.attend(&mut p, layer, plan, off, start_pos);
        p.gemv_full(
            t,
            WeightName::Layer(layer, LayerWeight::AttnOutputA),
            Buf::AttnLocal,
            Buf::Latent,
        );
        p.gemv_full(
            t,
            WeightName::Layer(layer, LayerWeight::AttnOutputB),
            Buf::Latent,
            Buf::AttnOut,
        );
        self.mhc_post(&mut p, Buf::AttnOut, Buf::StreamA, Buf::StreamB);
        self.mhc_params(&mut p, layer, true, Buf::StreamB);
        self.mhc_pre(&mut p, WeightName::Layer(layer, LayerWeight::FfnNorm), Buf::StreamB);
        p.gemv_full(
            t,
            WeightName::Layer(layer, LayerWeight::Router),
            Buf::Normed,
            Buf::RouterLogits,
        );
        p
    }

    fn need_aligned(&self, p: &mut Program, w: usize, name: WeightName) -> (bytes: usize)
        requires
            old(p)@.err is None ==> w < self.weights@.len() && weight_at(self.weights@, name)
                == Some(w) && (self.weights@[w as int].row_bytes is Some
                ==> self.view_of().expert_bytes(name) <= usize::MAX),
        ensures
            final(p)@ == self.view_of().need_aligned(old(p)@, name),
            final(p)@.err is None ==> bytes == self.view_of().expert_bytes(name),
    {
        if p.err.is_some() {
            return 0;
        }
        match self.weights[w].row_bytes {
            Some(row) => row * self.weights[w].n(),
            None => {
                p.fail(ForwardError::UnalignedExperts { weight: w });
                0
            },
        }
    }

    fn shared_expert(&self, p: &mut Program, layer: usize)
        ensures
            final(p)@ == self.view_of().shared_expert(old(p)@, layer),
    {
        if self.config.n_shared_experts == 0 {
            return;
        }
        let t = &self.weights;
        let up = WeightName::Layer(layer, LayerWeight::UpShared);
        p.gemv_full(t, up, Buf::Normed, Buf::Up);
        p.gemv_full(
            t,
            WeightName::Layer(layer, LayerWeight::GateShared),
            Buf::Normed,
            Buf::Gate,
        );
        let n: usize = match lookup_weight(t, up) {
            Some(w) => t[w].n(),
            None => 0,
        };
        let ghost before = p@;
        p.emit(Launch::SwigluClamped { n });
        proof {
            if weight_at(t@, up) is None {
                assert(before.err is Some);
            }
            assert(p@ =~= before.emit(
                Launch::SwigluClamped { n: t@[weight_at(t@, up)->0 as int].n_spec() },
            ));
        }
        p.gemv_full(
            t,
            WeightName::Layer(layer, LayerWeight::DownShared),
            Buf::Act,
            Buf::ExpertOut,
        );
        p.emit(Launch::AddAssign { hidden: self.config.hidden_size });
    }

    /// The expert part of a layer, for the experts that the router chose.
    pub fn moe_forward(&self, layer: usize, routes: &[usize]) -> (p: Program)
        requires
            self.view_of().experts_fit(
                WeightName::Layer(layer, LayerWeight::UpExperts),
                routes@,
            ),
            self.view_of().experts_fit(
                WeightName::Layer(layer, LayerWeight::GateExperts),
                routes@,
            ),
            self.view_of().experts_fit(
                WeightName::Layer(layer, LayerWeight::DownExperts),
                routes@,
            ),
        ensures
            p@ == self.view_of().layer_experts(layer, routes@),
    {
        let t = &self.weights;
        let ghost m = self.view_of();
        let up = WeightName::Layer(layer, LayerWeight::UpExperts);
        let gate = WeightName::Layer(layer, LayerWeight::GateExperts);
        let down = WeightName::Layer(layer, LayerWeight::DownExperts);
        let h: usize = self.config.hidden_size;
        let inter: usize = self.config.moe_intermediate_size;
        let mut p = Program::new();
        p.emit(Launch::ZeroMoeAcc { hidden: h });
        let up_w: usize = p.need(t, up);
        let gate_w: usize = p.need(t, gate);
        let down_w: usize = p.need(t, down);
        let up_bytes: usize = self.need_aligned(&mut p, up_w, up);
        let gate_bytes: usize = self.need_aligned(&mut p, gate_w, gate);
        let down_bytes: usize = self.need_aligned(&mut p, down_w, down);
        if p.err.is_none() {
            let ghost start = p@;
            let mut i: usize = 0;
            while i < routes.len()
                invariant
                    i <= routes@.len(),
                    m == self.view_of(),
                    t == &self.weights,
                    h == self.config.hidden_size,
                    inter == self.config.moe_intermediate_size,
                    up == WeightName::Layer(layer, LayerWeight::UpExperts),
                    gate == WeightName::Layer(layer, LayerWeight::GateExperts),
                    down == WeightName::Layer(layer, LayerWeight::DownExperts),
                    weight_at(t@, up) == Some(up_w),
                    weight_at(t@, gate) == Some(gate_w),
                    weight_at(t@, down) == Some(down_w),
                    up_w < t@.len(),
                    gate_w < t@.len(),
                    down_w < t@.len(),
                    up_bytes == m.expert_bytes(up),
                    gate_bytes == m.expert_bytes(gate),
                    down_bytes == m.expert_bytes(down),
                    forall|i: int|
                        0 <= i < routes@.len() ==> #[trigger] routes@[i] * m.expert_bytes(up)
                            <= usize::MAX,
                    forall|i: int|
                        0 <= i < routes@.len() ==> #[trigger] routes@[i] * m.expert_bytes(gate)
                            <= usize::MAX,
                    forall|i: int|
                        0 <= i < routes@.len() ==> #[trigger] routes@[i] * m.expert_bytes(down)
                            <= usize::MAX,
                    p@ == m.experts(start, layer, routes@, i as nat),
                decreases routes@.len() - i,
            {
                let expert: usize = routes[i];
                assert(routes@[i as int] * m.expert_bytes(up) <= usize::MAX);
                assert(routes@[i as int] * m.expert_bytes(gate) <= usize::MAX);
                assert(routes@[i as int] * m.expert_bytes(down) <= usize::MAX);
                p.gemv(t, up_w, expert * up_bytes, inter, h, Buf::Normed, Buf::Up);
                p.gemv(t, gate_w, expert * gate_bytes, inter, h, Buf::Normed, Buf::Gate);
                p.emit(Launch::SwigluClamped { n: inter });
                p.gemv(t, down_w, expert * down_bytes, h, inter, Buf::Act, Buf::ExpertOut);
                p.emit(Launch::AddScaledRow { hidden: h, route: i });
                i = i + 1;
            }
            self.shared_expert(&mut p, layer);
        }
        self.mhc_post(&mut p, Buf::MoeAcc, Buf::StreamB, Buf::StreamA);
        p
    }

    /// The start of a token: embedding and stream expansion.
    pub fn embed_token(&self) -> (p: Program)
        ensures
            p@ == self.view_of().embed(),
    {
        let name = WeightName::Global(GlobalWeight::TokenEmbd);
        let mut p = Program::new();
        let w: usize = p.need(&self.weights, name);
        if p.err.is_some() {
            return p;
        }
        let residency: Residency = self.weights[w].residency;
        let kernel: EmbedKernel = match gemv_kind(residency) {
            Some(GemvKind::Q4K) => EmbedKernel::Q4K,
            Some(GemvKind::Q5K) => EmbedKernel::Q5K,
            Some(GemvKind::Q6K) => EmbedKernel::Q6K,
            None if matches!(residency, Residency::DequantBf16) => EmbedKernel::Bf16,
            _ => {
                p.fail(ForwardError::NoEmbedKernel { residency });
                return p;
            },
        };
        p.emit(Launch::Embed { kernel, weight: w, hidden: self.config.hidden_size });
        p.emit(
            Launch::MhcExpand {
                hidden: self.config.hidden_size,
                hc_mult: self.config.hc_mult,
            },
        );
        p
    }

    /// The end of a token: head, output norm and logits.
    pub fn head(&self) -> (p: Program)
        requires
            dims_fit(self.config),
        ensures
            p@ == self.view_of().head(self.lm_head),
    {
        let t = &self.weights;
        let mut p = Program::new();
        p.gemv_full(
            t,
            WeightName::Global(GlobalWeight::HcHeadFn),
            Buf::StreamA,
            Buf::Mixes,
        );
        let ghost before = p@;
        let base: usize = p.need(t, WeightName::Global(GlobalWeight::HcHeadBase));
        let scale: usize = p.need(t, WeightName::Global(GlobalWeight::HcHeadScale));
        let ghost needed = p@;
        p.emit(
            Launch::MhcHeadPre {
                base,
                scale,
                stream_dim: self.config.hidden_size * self.config.hc_mult,
                hidden: self.config.hidden_size,
                hc_mult: self.config.hc_mult,
            },
        );
        assert(p@ =~= needed.emit(
            Launch::MhcHeadPre {
                base: weight_at(t@, WeightName::Global(GlobalWeight::HcHeadBase))->0,
                scale: weight_at(t@, WeightName::Global(GlobalWeight::HcHeadScale))->0,
                stream_dim: self.view_of().stream_dim(),
                hidden: self.config.hidden_size,
                hc_mult: self.config.hc_mult,
            },
        ));
        p.rms_norm(
            t,
            WeightName::Global(GlobalWeight::OutputNorm),
            Buf::AttnOut,
            self.config.hidden_size,
            Buf::Normed,
        );
        let lm: usize = p.need(t, WeightName::Global(self.lm_head));
        if p.err.is_none() {
            p.gemv(
                t,
                lm,
                0,
                self.config.vocab_size,
                self.config.hidden_size,
                Buf::Normed,
                Buf::LogitsBf16,
            );
            p.emit(Launch::CastLogits { n: self.config.vocab_size });
        }
        p
    }
}


/// Where a token's forward stands.
#[derive(Debug, Clone, Copy, PartialEq, Eq, Structural)]
pub enum TokenPhase {
    Embed,
    Attention { layer: usize },
    Experts { layer: usize },
    Head,
    Done,
}

/// The phase behind `phase` in a model of `num_layers` layers.
pub open spec fn phase_after(phase: TokenPhase, num_layers: usize) -> TokenPhase {
    match phase {
        TokenPhase::Embed => if num_layers > 0 {
            TokenPhase::Attention { layer: 0 }
        } else {
            TokenPhase::Head
        },
        TokenPhase::Attention { layer } => TokenPhase::Experts { layer },
        TokenPhase::Experts { layer } => if layer + 1 < num_layers {
            TokenPhase::Attention { layer: (layer + 1) as usize }
        } else {
            TokenPhase::Head
        },
        TokenPhase::Head => TokenPhase::Done,
        TokenPhase::Done => TokenPhase::Done,
    }
}

pub fn next_phase(phase: TokenPhase, num_layers: usize) -> (r: TokenPhase)
    ensures
        r == phase_after(phase, num_layers),
{
    match phase {
        TokenPhase::Embed => if num_layers > 0 {
            TokenPhase::Attention { layer: 0 }
        } else {
            TokenPhase::Head
        },
        TokenPhase::Attention { layer } => TokenPhase::Experts { layer },
        TokenPhase::Experts { layer } => if num_layers > 0 && layer < num_layers - 1 {
            TokenPhase::Attention { layer: layer + 1 }
        } else {
            TokenPhase::Head
        },
        TokenPhase::Head => TokenPhase::Done,
        TokenPhase::Done => TokenPhase::Done,
    }
}

/// Phase number `k` of a token.
pub open spec fn phase_at(k: nat, num_layers: usize) -> TokenPhase {
    if k == 0 {
        TokenPhase::Embed
    } else if k <= 2 * num_layers {
        if k % 2 == 1 {
            TokenPhase::Attention { layer: ((k - 1) / 2) as usize }
        } else {
            TokenPhase::Experts { layer: ((k - 2) / 2) as usize }
        }
    } else if k == 2 * num_layers + 1 {
        TokenPhase::Head
    } else {
        TokenPhase::Done
    }
}

/// A token runs the embedding, the two parts of every layer in layer order,
/// and the head, and is then done.
pub proof fn phases_run_in_order(k: nat, num_layers: usize)
    ensures
        phase_after(phase_at(k, num_layers), num_layers) == phase_at(k + 1, num_layers),
        phase_at((2 * num_layers + 2) as nat, num_layers) is Done,
{
}

impl ModelView {
    /// The schedule of a phase.
    pub open spec fn phase(
        self,
        phase: TokenPhase,
        plans: Seq<AttentionLayerPlan>,
        offsets: Seq<LayerOffsets>,
        lm_head: GlobalWeight,
        start_pos: usize,
        routes: Seq<usize>,
    ) -> Prog {
        match phase {
            TokenPhase::Embed => self.embed(),
            TokenPhase::Attention { layer } => self.layer_attention(
                layer,
                plans[layer as int],
                offsets[layer as int],
                start_pos,
            ),
            TokenPhase::Experts { layer } => self.layer_experts(layer, routes),
            TokenPhase::Head => self.head(lm_head),
            TokenPhase::Done => Prog::empty(),
        }
    }
}

impl HipDsv4Model {
    /// The schedule of one phase of a token. `routes` are the experts that
    /// the router chose, for an expert phase.
    pub fn forward_token(&self, phase: TokenPhase, start_pos: usize, routes: &[usize]) -> (p:
        Program)
        requires
            dims_fit(self.config),
            start_pos < usize::MAX,
            phase matches TokenPhase::Attention { layer } ==> {
                &&& layer < self.layer_plans@.len()
                &&& layer < self.offsets@.len()
                &&& layer_fits(self.layer_plans@[layer as int], self.offsets@[layer as int])
            },
            phase matches TokenPhase::Experts { layer } ==> {
                &&& self.view_of().experts_fit(
                    WeightName::Layer(layer, LayerWeight::UpExperts),
                    routes@,
                )
                &&& self.view_of().experts_fit(
                    WeightName::Layer(layer, LayerWeight::GateExperts),
                    routes@,
                )
                &&& self.view_of().experts_fit(
                    WeightName::Layer(layer, LayerWeight::DownExperts),
                    routes@,
                )
            },
        ensures
            p@ == self.view_of().phase(
                phase,
                self.layer_plans@,
                self.offsets@,
                self.lm_head,
                start_pos,
                routes@,
            ),
    {
        match phase {
            TokenPhase::Embed => self.embed_token(),
            TokenPhase::Attention { layer } => self.layer_forward(layer, start_pos),
            TokenPhase::Experts { layer } => self.moe_forward(layer, routes),
            TokenPhase::Head => self.head(),
            TokenPhase::Done => Program::new(),
        }
    }
}

/// The buffers that a launch writes.
pub open spec fn writes(l: Launch) -> Set<Buf> {
    match l {
        Launch::Embed { .. } => set![Buf::Emb],
        Launch::MhcExpand { .. } => set![Buf::StreamA],
        Launch::Gemv { y, .. } => set![y],
        Launch::CastIn { .. } => set![Buf::XF32],
        Launch::QuantizeQ8 { .. } => set![Buf::Q8],
        Launch::Mmvq { .. } => set![Buf::YF32],
        Launch::CastOut { y, .. } => set![y],
        Launch::RmsNorm { y, .. } => set![y],
        Launch::MhcParams { .. } => set![Buf::Pre, Buf::Post, Buf::Comb],
        Launch::MhcPreRmsNorm { .. } => set![Buf::Normed],
        Launch::MhcPost { out, .. } => set![out],
        Launch::PrepareQk { .. } => set![Buf::QPrepared, Buf::KPrepared],
        Launch::SwaAttention { .. } => set![Buf::AttnLocal, Buf::SwWindowRing],
        Launch::CompressorUpdate { indexer, .. } => if indexer {
            set![
                Buf::IndexerPendingKv,
                Buf::IndexerPendingScore,
                Buf::IndexerOverlapKv,
                Buf::IndexerOverlapScore,
                Buf::IndexerRows,
            ]
        } else {
            set![
                Buf::PendingKv,
                Buf::PendingScore,
                Buf::OverlapKv,
                Buf::OverlapScore,
                Buf::CompressedRows,
            ]
        },
        Launch::CsaSelect { .. } => set![Buf::Selected],
        Launch::HybridAttention { .. } => set![Buf::AttnLocal, Buf::SwWindowRing],
        Launch::ZeroMoeAcc { .. } => set![Buf::MoeAcc],
        Launch::SwigluClamped { .. } => set![Buf::Act],
        Launch::AddScaledRow { .. } => set![Buf::MoeAcc],
        Launch::AddAssign { .. } => set![Buf::MoeAcc],
        Launch::MhcHeadPre { .. } => set![Buf::AttnOut],
        Launch::CastLogits { .. } => set![Buf::YF32],
    }
}

/// Whether every scratch buffer that a launch reads is among those written.
pub open spec fn reads_within(l: Launch, s: Set<Buf>) -> bool {
    match l {
        Launch::Embed { .. } => s.contains(Buf::TokenId),
        Launch::MhcExpand { .. } => s.contains(Buf::Emb),
        Launch::Gemv { x, .. } => s.contains(x),
        Launch::CastIn { x, .. } => s.contains(x),
        Launch::QuantizeQ8 { .. } => s.contains(Buf::XF32),
        Launch::Mmvq { .. } => s.contains(Buf::Q8),
        Launch::CastOut { .. } => s.contains(Buf::YF32),
        Launch::RmsNorm { x, .. } => s.contains(x),
        Launch::MhcParams { stream, .. } => s.contains(stream) && s.contains(Buf::Mixes),
        Launch::MhcPreRmsNorm { stream, .. } => s.contains(stream) && s.contains(Buf::Pre),
        Launch::MhcPost { new_x, residual, .. } => s.contains(new_x) && s.contains(residual)
            && s.contains(Buf::Post) && s.contains(Buf::Comb),
        Launch::PrepareQk { .. } => s.contains(Buf::QRaw) && s.contains(Buf::KvRaw),
        Launch::SwaAttention { .. } => s.contains(Buf::QPrepared) && s.contains(Buf::KPrepared),
        Launch::CompressorUpdate { .. } => s.contains(Buf::CompKv) && s.contains(Buf::CompScore),
        Launch::CsaSelect { .. } => s.contains(Buf::IdxQ) && s.contains(Buf::IdxW),
        Launch::HybridAttention { selected, .. } => s.contains(Buf::QPrepared) && s.contains(
            Buf::KPrepared,
        ) && (selected ==> s.contains(Buf::Selected)),
        Launch::ZeroMoeAcc { .. } => true,
        Launch::SwigluClamped { .. } => s.contains(Buf::Gate) && s.contains(Buf::Up),
        Launch::AddScaledRow { .. } => s.contains(Buf::ExpertOut) && s.contains(Buf::MoeAcc),
        Launch::AddAssign { .. } => s.contains(Buf::ExpertOut) && s.contains(Buf::MoeAcc),
        Launch::MhcHeadPre { .. } => s.contains(Buf::StreamA) && s.contains(Buf::Mixes),
        Launch::CastLogits { .. } => s.contains(Buf::LogitsBf16),
    }
}

/// The buffers written after the first `n` launches, from `init` on.
pub open spec fn written(init: Set<Buf>, ops: Seq<Launch>, n: nat) -> Set<Buf>
    decreases n,
{
    if n == 0 {
        init
    } else {
        written(init, ops, (n - 1) as nat).union(writes(ops[n - 1]))
    }
}

/// No launch reads a scratch buffer that was not written before it.
pub open spec fn written_before_read(init: Set<Buf>, ops: Seq<Launch>) -> bool {
    forall|i: int|
        0 <= i < ops.len() ==> reads_within(#[trigger] ops[i], written(init, ops, i as nat))
}

/// A schedule that reads nothing unwritten and, unless it stopped, has
/// written `s`.
spec fn holds(p: Prog, init: Set<Buf>, s: Set<Buf>) -> bool {
    &&& written_before_read(init, p.ops)
    &&& p.err is None ==> s.subset_of(written(init, p.ops, p.ops.len()))
}

proof fn lemma_written_prefix(init: Set<Buf>, ops: Seq<Launch>, l: Launch, n: nat)
    requires
        n <= ops.len(),
    ensures
        written(init, ops.push(l), n) == written(init, ops, n),
    decreases n,
{
    if n > 0 {
        lemma_written_prefix(init, ops, l, (n - 1) as nat);
        assert(ops.push(l)[n - 1] == ops[n - 1]);
    }
}

proof fn lemma_emit(p: Prog, init: Set<Buf>, s: Set<Buf>, l: Launch)
    requires
        holds(p, init, s),
        p.err is None ==> reads_within(l, s),
    ensures
        holds(p.emit(l), init, s.union(writes(l))),
        holds(p.emit(l), init, s),
{
    if p.err is None {
        let ops = p.ops;
        let next = ops.push(l);
        assert forall|i: int| 0 <= i < next.len() implies reads_within(
            #[trigger] next[i],
            written(init, next, i as nat),
        ) by {
            lemma_written_prefix(init, ops, l, i as nat);
            if i < ops.len() {
                assert(next[i] == ops[i]);
            } else {
                assert(reads_within(l, written(init, ops, ops.len())));
            }
        }
        lemma_written_prefix(init, ops, l, ops.len());
        assert(written(init, next, next.len()) =~= written(init, ops, ops.len()).union(
            writes(l),
        ));
    }
}

proof fn lemma_gemv(
    p: Prog,
    init: Set<Buf>,
    s: Set<Buf>,
    t: Seq<WeightEntry>,
    w: usize,
    offset: usize,
    n: usize,
    k: usize,
    x: Buf,
    y: Buf,
)
    requires
        holds(p, init, s),
        s.contains(x),
    ensures
        holds(p.gemv(t, w, offset, n, k, x, y), init, s.insert(y)),
{
    match gemv_kind_of(t[w as int].residency) {
        None => {},
        Some(kind) => {
            if kind is MmvqIq2Xxs || kind is MmvqQ2K {
                let p1 = p.emit(Launch::CastIn { x, n: k });
                lemma_emit(p, init, s, Launch::CastIn { x, n: k });
                let s1 = s.union(writes(Launch::CastIn { x, n: k }));
                let p2 = p1.emit(Launch::QuantizeQ8 { k });
                lemma_emit(p1, init, s1, Launch::QuantizeQ8 { k });
                let s2 = s1.union(writes(Launch::QuantizeQ8 { k }));
                let l3 = Launch::Mmvq { kind, weight: w, byte_offset: offset, n, k };
                lemma_emit(p2, init, s2, l3);
                let s3 = s2.union(writes(l3));
                lemma_emit(p2.emit(l3), init, s3, Launch::CastOut { y, n });
                assert(s.insert(y).subset_of(s3.union(writes(Launch::CastOut { y, n }))));
            } else {
                let l = Launch::Gemv { kind, weight: w, byte_offset: offset, n, k, x, y };
                lemma_emit(p, init, s, l);
                assert(s.insert(y) =~= s.union(writes(l)));
            }
        },
    }
}

proof fn lemma_gemv_full(
    p: Prog,
    init: Set<Buf>,
    s: Set<Buf>,
    t: Seq<WeightEntry>,
    name: WeightName,
    x: Buf,
    y: Buf,
)
    requires
        holds(p, init, s),
        s.contains(x),
    ensures
        holds(p.gemv_full(t, name, x, y), init, s.insert(y)),
{
    let q = p.need(t, name);
    if q.err is None {
        let w = weight_at(t, name)->0;
        lemma_gemv(
            q,
            init,
            s,
            t,
            w,
            0,
            t[w as int].n_spec(),
            t[w as int].k_spec(),
            x,
            y,
        );
    }
}

proof fn lemma_rms_norm(
    p: Prog,
    init: Set<Buf>,
    s: Set<Buf>,
    t: Seq<WeightEntry>,
    name: WeightName,
    x: Buf,
    n: usize,
    y: Buf,
)
    requires
        holds(p, init, s),
        s.contains(x),
    ensures
        holds(p.rms_norm(t, name, x, n, y), init, s.insert(y)),
{
    let l = Launch::RmsNorm { x, weight: weight_at(t, name)->0, n, y };
    lemma_emit(p.need(t, name), init, s, l);
    assert(s.insert(y) =~= s.union(writes(l)));
}

impl ModelView {
    proof fn lemma_mhc_params(
        self,
        p: Prog,
        init: Set<Buf>,
        s: Set<Buf>,
        layer: usize,
        ffn: bool,
        stream: Buf,
    )
        requires
            holds(p, init, s),
            s.contains(stream),
        ensures
            holds(
                self.mhc_params(p, layer, ffn, stream),
                init,
                s.insert(Buf::Pre).insert(Buf::Post).insert(Buf::Comb),
            ),
    {
        let t = self.weights;
        let mixer = WeightName::Layer(
            layer,
            if ffn { LayerWeight::HcFfnFn } else { LayerWeight::HcAttnFn },
        );
        let base = WeightName::Layer(
            layer,
            if ffn { LayerWeight::HcFfnBase } else { LayerWeight::HcAttnBase },
        );
        let scale = WeightName::Layer(
            layer,
            if ffn { LayerWeight::HcFfnScale } else { LayerWeight::HcAttnScale },
        );
        let q = p.need(t, mixer).need(t, base).need(t, scale);
        let m = weight_at(t, mixer)->0;
        let rows = t[m as int].n_spec();
        if q.err is None && 2 * rows <= self.mixes_bytes {
            lemma_gemv(
                q,
                init,
                s,
                t,
                m,
                0,
                rows,
                t[m as int].k_spec(),
                stream,
                Buf::Mixes,
            );
            let q2 = q.gemv(t, m, 0, rows, t[m as int].k_spec(), stream, Buf::Mixes);
            let l = Launch::MhcParams {
                stream,
                base: weight_at(t, base)->0,
                scale: weight_at(t, scale)->0,
                stream_dim: self.stream_dim(),
                rows,
                hc_mult: self.config.hc_mult,
                sinkhorn_iters: self.config.hc_sinkhorn_iters,
            };
            lemma_emit(q2, init, s.insert(Buf::Mixes), l);
            assert(s.insert(Buf::Pre).insert(Buf::Post).insert(Buf::Comb).subset_of(
                s.insert(Buf::Mixes).union(writes(l)),
            ));
        }
    }

    proof fn lemma_mhc_pre(
        self,
        p: Prog,
        init: Set<Buf>,
        s: Set<Buf>,
        norm: WeightName,
        stream: Buf,
    )
        requires
            holds(p, init, s),
            s.contains(stream),
            s.contains(Buf::Pre),
        ensures
            holds(self.mhc_pre(p, norm, stream), init, s.insert(Buf::Normed)),
    {
        let l = Launch::MhcPreRmsNorm {
            stream,
            norm: weight_at(self.weights, norm)->0,
            hidden: self.config.hidden_size,
            hc_mult: self.config.hc_mult,
        };
        lemma_emit(p.need(self.weights, norm), init, s, l);
        assert(s.insert(Buf::Normed) =~= s.union(writes(l)));
    }

    proof fn lemma_mhc_post(
        self,
        p: Prog,
        init: Set<Buf>,
        s: Set<Buf>,
        new_x: Buf,
        residual: Buf,
        out: Buf,
    )
        requires
            holds(p, init, s),
            p.err is None ==> s.contains(new_x) && s.contains(residual) && s.contains(Buf::Post)
                && s.contains(Buf::Comb),
        ensures
            holds(self.mhc_post(p, new_x, residual, out), init, s.insert(out)),
    {
        let l = Launch::MhcPost {
            new_x,
            residual,
            out,
            hidden: self.config.hidden_size,
            hc_mult: self.config.hc_mult,
        };
        lemma_emit(p, init, s, l);
        assert(s.insert(out) =~= s.union(writes(l)));
    }

    proof fn lemma_compressor_update(
        self,
        p: Prog,
        init: Set<Buf>,
        s: Set<Buf>,
        layer: usize,
        indexer: bool,
        at: CompressorOffsets,
        dim: usize,
        ratio: usize,
        overlap: bool,
        rope_dim: usize,
        orig_seq_len: usize,
    )
        requires
            holds(p, init, s),
            s.contains(Buf::Normed),
        ensures
            holds(
                self.compressor_update(
                    p,
                    layer,
                    indexer,
                    at,
                    dim,
                    ratio,
                    overlap,
                    rope_dim,
                    orig_seq_len,
                ),
                init,
                s,
            ),
    {
        let t = self.weights;
        let kv = WeightName::Layer(
            layer,
            if indexer { LayerWeight::IndexerKv } else { LayerWeight::CompressKv },
        );
        let gate = WeightName::Layer(
            layer,
            if indexer { LayerWeight::IndexerGate } else { LayerWeight::CompressGate },
        );
        let ape = WeightName::Layer(
            layer,
            if indexer { LayerWeight::IndexerApe } else { LayerWeight::CompressApe },
        );
        let norm = WeightName::Layer(
            layer,
            if indexer { LayerWeight::IndexerNorm } else { LayerWeight::CompressNorm },
        );
        let width = (if overlap { 2 * dim } else { dim as int }) as usize;
        let q = p.need(t, kv).need(t, gate);
        let q1 = q.gemv_full(t, kv, Buf::Normed, Buf::CompKv);
        lemma_gemv_full(q, init, s, t, kv, Buf::Normed, Buf::CompKv);
        let s1 = s.insert(Buf::CompKv);
        let q2 = q1.gemv_full(t, gate, Buf::Normed, Buf::CompScore);
        lemma_gemv_full(q1, init, s1, t, gate, Buf::Normed, Buf::CompScore);
        let s2 = s1.insert(Buf::CompScore);
        let l = Launch::CompressorUpdate {
            indexer,
            ape: weight_at(t, ape)->0,
            norm: weight_at(t, norm)->0,
            at,
            dim,
            ratio,
            width,
            overlap,
            rope_dim,
            orig_seq_len,
        };
        lemma_emit(q2.need(t, ape).need(t, norm), init, s2, l);
        assert(s.subset_of(s2));
    }

    proof fn lemma_project_qk(
        self,
        p: Prog,
        init: Set<Buf>,
        s: Set<Buf>,
        layer: usize,
        plan: AttentionLayerPlan,
    )
        requires
            holds(p, init, s),
            s.contains(Buf::Normed),
        ensures
            holds(
                self.project_qk(p, layer, plan),
                init,
                s.insert(Buf::CQ).insert(Buf::QPrepared).insert(Buf::KPrepared),
            ),
    {
        let t = self.weights;
        let c = self.config;
        let (rope, orig_seq_len) = self.rope_of(plan);
        let qa = WeightName::Layer(layer, LayerWeight::AttnQA);
        let qan = WeightName::Layer(layer, LayerWeight::AttnQANorm);
        let qb = WeightName::Layer(layer, LayerWeight::AttnQB);
        let kv = WeightName::Layer(layer, LayerWeight::AttnKvLatent);
        let kvn = WeightName::Layer(layer, LayerWeight::AttnKvANorm);
        lemma_gemv_full(p, init, s, t, qa, Buf::Normed, Buf::CQ);
        let p1 = p.gemv_full(t, qa, Buf::Normed, Buf::CQ);
        let s1 = s.insert(Buf::CQ);
        lemma_rms_norm(p1, init, s1, t, qan, Buf::CQ, c.q_lora_rank, Buf::CQ);
        let p2 = p1.rms_norm(t, qan, Buf::CQ, c.q_lora_rank, Buf::CQ);
        let s2 = s1.insert(Buf::CQ);
        lemma_gemv_full(p2, init, s2, t, qb, Buf::CQ, Buf::QRaw);
        let p3 = p2.gemv_full(t, qb, Buf::CQ, Buf::QRaw);
        let s3 = s2.insert(Buf::QRaw);
        lemma_gemv_full(p3, init, s3, t, kv, Buf::Normed, Buf::KvRaw);
        let p4 = p3.gemv_full(t, kv, Buf::Normed, Buf::KvRaw);
        let s4 = s3.insert(Buf::KvRaw);
        lemma_rms_norm(p4, init, s4, t, kvn, Buf::KvRaw, c.head_dim, Buf::KvRaw);
        let p5 = p4.rms_norm(t, kvn, Buf::KvRaw, c.head_dim, Buf::KvRaw);
        let s5 = s4.insert(Buf::KvRaw);
        let l = Launch::PrepareQk {
            heads: c.num_attention_heads,
            head_dim: c.head_dim,
            rope_dim: c.qk_rope_head_dim,
            rope,
            orig_seq_len,
        };
        lemma_emit(p5, init, s5, l);
        assert(s.insert(Buf::CQ).insert(Buf::QPrepared).insert(Buf::KPrepared).subset_of(
            s5.union(writes(l)),
        ));
    }

    proof fn lemma_select_rows(
        self,
        p: Prog,
        init: Set<Buf>,
        s: Set<Buf>,
        layer: usize,
        plan: AttentionLayerPlan,
        at: CompressorOffsets,
        start_pos: usize,
    )
        requires
            holds(p, init, s),
            s.contains(Buf::Normed),
            s.contains(Buf::CQ),
        ensures
            holds(
                self.select_rows(p, layer, plan, at, start_pos),
                init,
                s.insert(Buf::Selected),
            ),
    {
        let t = self.weights;
        let c = self.config;
        let qb = WeightName::Layer(layer, LayerWeight::IndexerQB);
        let proj = WeightName::Layer(layer, LayerWeight::IndexerProj);
        self.lemma_compressor_update(
            p,
            init,
            s,
            layer,
            true,
            at,
            c.index_head_dim,
            plan.compress_ratio,
            true,
            0,
            0,
        );
        let p1 = self.compressor_update(
            p,
            layer,
            true,
            at,
            c.index_head_dim,
            plan.compress_ratio,
            true,
            0,
            0,
        );
        lemma_gemv_full(p1, init, s, t, qb, Buf::CQ, Buf::IdxQ);
        let p2 = p1.gemv_full(t, qb, Buf::CQ, Buf::IdxQ);
        let s2 = s.insert(Buf::IdxQ);
        lemma_gemv_full(p2, init, s2, t, proj, Buf::Normed, Buf::IdxW);
        let p3 = p2.gemv_full(t, proj, Buf::Normed, Buf::IdxW);
        let s3 = s2.insert(Buf::IdxW);
        let l = Launch::CsaSelect {
            keys: at.compressed,
            width: (c.index_n_heads * c.index_head_dim) as usize,
            n_heads: c.index_n_heads,
            head_dim: c.index_head_dim,
            key_count: ((start_pos + 1) / plan.compress_ratio as int) as usize,
            ratio: plan.compress_ratio,
            topk: c.index_topk,
        };
        lemma_emit(p3, init, s3, l);
        assert(s.insert(Buf::Selected).subset_of(s3.union(writes(l))));
    }

    proof fn lemma_attend(
        self,
        p: Prog,
        init: Set<Buf>,
        s: Set<Buf>,
        layer: usize,
        plan: AttentionLayerPlan,
        off: LayerOffsets,
        start_pos: usize,
    )
        requires
            holds(p, init, s),
            s.contains(Buf::Normed),
            s.contains(Buf::CQ),
            s.contains(Buf::QPrepared),
            s.contains(Buf::KPrepared),
        ensures
            holds(
                self.attend(p, layer, plan, off, start_pos),
                init,
                s.insert(Buf::AttnLocal),
            ),
    {
        let t = self.weights;
        let c = self.config;
        let (rope, orig_seq_len) = self.rope_of(plan);
        let sink = WeightName::Layer(layer, LayerWeight::AttnSinks);
        let q = p.need(t, sink);
        if plan.mode is SlidingWindow {
            let l = Launch::SwaAttention {
                window: off.sw_window,
                sink: weight_at(t, sink)->0,
                heads: c.num_attention_heads,
                head_dim: c.head_dim,
                sliding_window: c.sliding_window,
                rope_dim: c.qk_rope_head_dim,
                rope,
                orig_seq_len,
            };
            lemma_emit(q, init, s, l);
            assert(s.insert(Buf::AttnLocal).subset_of(s.union(writes(l))));
        } else {
            let ratio = plan.compress_ratio;
            let comp = off.compressor->0;
            self.lemma_compressor_update(
                q,
                init,
                s,
                layer,
                false,
                comp,
                c.head_dim,
                ratio,
                ratio < 16,
                c.qk_rope_head_dim,
                orig_seq_len,
            );
            let updated = self.compressor_update(
                q,
                layer,
                false,
                comp,
                c.head_dim,
                ratio,
                ratio < 16,
                c.qk_rope_head_dim,
                orig_seq_len,
            );
            let sparse = plan.mode is CompressedSparse;
            if sparse {
                self.lemma_select_rows(
                    updated,
                    init,
                    s,
                    layer,
                    plan,
                    off.indexer->0,
                    start_pos,
                );
            }
            let selected = if sparse {
                self.select_rows(updated, layer, plan, off.indexer->0, start_pos)
            } else {
                updated
            };
            let s1 = if sparse {
                s.insert(Buf::Selected)
            } else {
                s
            };
            let count = ((start_pos + 1) / ratio as int) as usize;
            let l = Launch::HybridAttention {
                window: off.sw_window,
                compressed: if count > 0 { Some(comp.compressed) } else { None },
                selected: sparse,
                sink: weight_at(t, sink)->0,
                heads: c.num_attention_heads,
                head_dim: c.head_dim,
                sliding_window: c.sliding_window,
                rope_dim: c.qk_rope_head_dim,
                rope,
                orig_seq_len,
                mode: if sparse { 1 } else { 2 },
                ratio,
                compressed_count: count,
                topk: c.index_topk,
            };
            lemma_emit(selected, init, s1, l);
            assert(s.insert(Buf::AttnLocal).subset_of(s1.union(writes(l))));
        }
    }
}

/// In the attention part of a layer no launch reads a scratch buffer before
/// it was written, given the residual stream; and unless the part stops, it
/// leaves behind what the expert part reads.
pub proof fn attention_writes_before_reading(
    m: ModelView,
    layer: usize,
    plan: AttentionLayerPlan,
    off: LayerOffsets,
    start_pos: usize,
)
    ensures
        ({
            let p = m.layer_attention(layer, plan, off, start_pos);
            let init = set![Buf::StreamA];
            &&& written_before_read(init, p.ops)
            &&& p.err is None ==> set![
                Buf::StreamB,
                Buf::Normed,
                Buf::Post,
                Buf::Comb,
                Buf::RouterLogits,
            ].subset_of(written(init, p.ops, p.ops.len()))
        }),
{
    let t = m.weights;
    let init = set![Buf::StreamA];
    let p0 = Prog::empty();
    assert(holds(p0, init, init));
    let p1 = m.mhc_params(p0, layer, false, Buf::StreamA);
    m.lemma_mhc_params(p0, init, init, layer, false, Buf::StreamA);
    let s1 = init.insert(Buf::Pre).insert(Buf::Post).insert(Buf::Comb);
    let norm = WeightName::Layer(layer, LayerWeight::AttnNorm);
    let p2 = m.mhc_pre(p1, norm, Buf::StreamA);
    m.lemma_mhc_pre(p1, init, s1, norm, Buf::StreamA);
    let s2 = s1.insert(Buf::Normed);
    let p3 = m.project_qk(p2, layer, plan);
    m.lemma_project_qk(p2, init, s2, layer, plan);
    let s3 = s2.insert(Buf::CQ).insert(Buf::QPrepared).insert(Buf::KPrepared);
    let p4 = m.attend(p3, layer, plan, off, start_pos);
    m.lemma_attend(p3, init, s3, layer, plan, off, start_pos);
    let s4 = s3.insert(Buf::AttnLocal);
    let oa = WeightName::Layer(layer, LayerWeight::AttnOutputA);
    let ob = WeightName::Layer(layer, LayerWeight::AttnOutputB);
    let p5 = p4.gemv_full(t, oa, Buf::AttnLocal, Buf::Latent);
    lemma_gemv_full(p4, init, s4, t, oa, Buf::AttnLocal, Buf::Latent);
    let s5 = s4.insert(Buf::Latent);
    let p6 = p5.gemv_full(t, ob, Buf::Latent, Buf::AttnOut);
    lemma_gemv_full(p5, init, s5, t, ob, Buf::Latent, Buf::AttnOut);
    let s6 = s5.insert(Buf::AttnOut);
    let p7 = m.mhc_post(p6, Buf::AttnOut, Buf::StreamA, Buf::StreamB);
    m.lemma_mhc_post(p6, init, s6, Buf::AttnOut, Buf::StreamA, Buf::StreamB);
    let s7 = s6.insert(Buf::StreamB);
    let p8 = m.mhc_params(p7, layer, true, Buf::StreamB);
    m.lemma_mhc_params(p7, init, s7, layer, true, Buf::StreamB);
    let s8 = s7.insert(Buf::Pre).insert(Buf::Post).insert(Buf::Comb);
    let ffn = WeightName::Layer(layer, LayerWeight::FfnNorm);
    let p9 = m.mhc_pre(p8, ffn, Buf::StreamB);
    m.lemma_mhc_pre(p8, init, s8, ffn, Buf::StreamB);
    let s9 = s8.insert(Buf::Normed);
    let router = WeightName::Layer(layer, LayerWeight::Router);
    lemma_gemv_full(p9, init, s9, t, router, Buf::Normed, Buf::RouterLogits);
    let s10 = s9.insert(Buf::RouterLogits);
    assert(set![
        Buf::StreamB,
        Buf::Normed,
        Buf::Post,
        Buf::Comb,
        Buf::RouterLogits,
    ].subset_of(s10));
}

proof fn lemma_experts(
    m: ModelView,
    p: Prog,
    init: Set<Buf>,
    s: Set<Buf>,
    layer: usize,
    routes: Seq<usize>,
    n: nat,
)
    requires
        holds(p, init, s),
        s.contains(Buf::Normed),
        s.contains(Buf::MoeAcc),
    ensures
        holds(m.experts(p, layer, routes, n), init, s),
    decreases n,
{
    if n > 0 {
        let t = m.weights;
        let c = m.config;
        let i = n - 1;
        lemma_experts(m, p, init, s, layer, routes, (n - 1) as nat);
        let q = m.experts(p, layer, routes, (n - 1) as nat);
        let up = WeightName::Layer(layer, LayerWeight::UpExperts);
        let gate = WeightName::Layer(layer, LayerWeight::GateExperts);
        let down = WeightName::Layer(layer, LayerWeight::DownExperts);
        let uw = weight_at(t, up)->0;
        let gw = weight_at(t, gate)->0;
        let dw = weight_at(t, down)->0;
        let uo = (routes[i] * m.expert_bytes(up)) as usize;
        let go = (routes[i] * m.expert_bytes(gate)) as usize;
        let d_o = (routes[i] * m.expert_bytes(down)) as usize;
        let inter = c.moe_intermediate_size;
        let h = c.hidden_size;
        lemma_gemv(q, init, s, t, uw, uo, inter, h, Buf::Normed, Buf::Up);
        let q1 = q.gemv(t, uw, uo, inter, h, Buf::Normed, Buf::Up);
        let s1 = s.insert(Buf::Up);
        lemma_gemv(q1, init, s1, t, gw, go, inter, h, Buf::Normed, Buf::Gate);
        let q2 = q1.gemv(t, gw, go, inter, h, Buf::Normed, Buf::Gate);
        let s2 = s1.insert(Buf::Gate);
        let l = Launch::SwigluClamped { n: inter };
        lemma_emit(q2, init, s2, l);
        let q3 = q2.emit(l);
        let s3 = s2.union(writes(l));
        lemma_gemv(q3, init, s3, t, dw, d_o, h, inter, Buf::Act, Buf::ExpertOut);
        let q4 = q3.gemv(t, dw, d_o, h, inter, Buf::Act, Buf::ExpertOut);
        let s4 = s3.insert(Buf::ExpertOut);
        let l4 = Launch::AddScaledRow { hidden: h, route: i as usize };
        lemma_emit(q4, init, s4, l4);
        assert(s.subset_of(s4));
    }
}

proof fn lemma_shared(m: ModelView, p: Prog, init: Set<Buf>, s: Set<Buf>, layer: usize)
    requires
        holds(p, init, s),
        s.contains(Buf::Normed),
        s.contains(Buf::MoeAcc),
    ensures
        holds(m.shared_expert(p, layer), init, s),
{
    let t = m.weights;
    let c = m.config;
    if c.n_shared_experts > 0 {
        let up = WeightName::Layer(layer, LayerWeight::UpShared);
        let gate = WeightName::Layer(layer, LayerWeight::GateShared);
        let down = WeightName::Layer(layer, LayerWeight::DownShared);
        lemma_gemv_full(p, init, s, t, up, Buf::Normed, Buf::Up);
        let p1 = p.gemv_full(t, up, Buf::Normed, Buf::Up);
        let s1 = s.insert(Buf::Up);
        lemma_gemv_full(p1, init, s1, t, gate, Buf::Normed, Buf::Gate);
        let p2 = p1.gemv_full(t, gate, Buf::Normed, Buf::Gate);
        let s2 = s1.insert(Buf::Gate);
        let l = Launch::SwigluClamped { n: t[weight_at(t, up)->0 as int].n_spec() };
        lemma_emit(p2, init, s2, l);
        let p3 = p2.emit(l);
        let s3 = s2.union(writes(l));
        lemma_gemv_full(p3, init, s3, t, down, Buf::Act, Buf::ExpertOut);
        let p4 = p3.gemv_full(t, down, Buf::Act, Buf::ExpertOut);
        let s4 = s3.insert(Buf::ExpertOut);
        lemma_emit(p4, init, s4, Launch::AddAssign { hidden: c.hidden_size });
        assert(s.subset_of(s4));
    }
}

/// In the expert part of a layer no launch reads a scratch buffer before it
/// was written, given what the attention part leaves behind; and unless the
/// part stops, the residual stream is back in the buffer it started from.
pub proof fn experts_write_before_reading(m: ModelView, layer: usize, routes: Seq<usize>)
    ensures
        ({
            let p = m.layer_experts(layer, routes);
            let init = set![Buf::StreamB, Buf::Normed, Buf::Post, Buf::Comb];
            &&& written_before_read(init, p.ops)
            &&& p.err is None ==> written(init, p.ops, p.ops.len()).contains(Buf::StreamA)
        }),
{
    let t = m.weights;
    let init = set![Buf::StreamB, Buf::Normed, Buf::Post, Buf::Comb];
    let up = WeightName::Layer(layer, LayerWeight::UpExperts);
    let gate = WeightName::Layer(layer, LayerWeight::GateExperts);
    let down = WeightName::Layer(layer, LayerWeight::DownExperts);
    let l0 = Launch::ZeroMoeAcc { hidden: m.config.hidden_size };
    assert(holds(Prog::empty(), init, init));
    lemma_emit(Prog::empty(), init, init, l0);
    let s0 = init.union(writes(l0));
    let p0 = Prog::empty().emit(l0);
    let p1 = p0.need(t, up).need(t, gate).need(t, down);
    let p2 = m.need_aligned(m.need_aligned(m.need_aligned(p1, up), gate), down);
    assert(holds(p2, init, s0));
    let p3 = if p2.err is Some {
        p2
    } else {
        m.shared_expert(m.experts(p2, layer, routes, routes.len()), layer)
    };
    if p2.err is None {
        lemma_experts(m, p2, init, s0, layer, routes, routes.len());
        lemma_shared(m, m.experts(p2, layer, routes, routes.len()), init, s0, layer);
    }
    m.lemma_mhc_post(p3, init, s0, Buf::MoeAcc, Buf::StreamB, Buf::StreamA);
}

/// At both ends of a token no launch reads a scratch buffer before it was
/// written: the embedding needs the token alone and leaves the residual
/// stream, the head needs the residual stream alone.
pub proof fn ends_write_before_reading(m: ModelView, lm_head: GlobalWeight)
    ensures
        written_before_read(set![Buf::TokenId], m.embed().ops),
        m.embed().err is None ==> written(
            set![Buf::TokenId],
            m.embed().ops,
            m.embed().ops.len(),
        ).contains(Buf::StreamA),
        written_before_read(set![Buf::StreamA], m.head(lm_head).ops),
        m.head(lm_head).err is None ==> written(
            set![Buf::StreamA],
            m.head(lm_head).ops,
            m.head(lm_head).ops.len(),
        ).contains(Buf::YF32),
{
    let t = m.weights;
    let c = m.config;
    let tok = set![Buf::TokenId];
    let name = WeightName::Global(GlobalWeight::TokenEmbd);
    let p = Prog::empty().need(t, name);
    let w = weight_at(t, name)->0;
    assert(holds(p, tok, tok));
    if p.err is None {
        if let Some(kernel) = embed_kernel(t[w as int].residency) {
            let l1 = Launch::Embed { kernel, weight: w, hidden: c.hidden_size };
            let l2 = Launch::MhcExpand { hidden: c.hidden_size, hc_mult: c.hc_mult };
            lemma_emit(p, tok, tok, l1);
            let s1 = tok.union(writes(l1));
            lemma_emit(p.emit(l1), tok, s1, l2);
            assert(s1.union(writes(l2)).contains(Buf::StreamA));
        }
    }
    let init = set![Buf::StreamA];
    let head = WeightName::Global(GlobalWeight::HcHeadFn);
    let base = WeightName::Global(GlobalWeight::HcHeadBase);
    let scale = WeightName::Global(GlobalWeight::HcHeadScale);
    let out = WeightName::Global(GlobalWeight::OutputNorm);
    let lm = WeightName::Global(lm_head);
    assert(holds(Prog::empty(), init, init));
    lemma_gemv_full(Prog::empty(), init, init, t, head, Buf::StreamA, Buf::Mixes);
    let q1 = Prog::empty().gemv_full(t, head, Buf::StreamA, Buf::Mixes);
    let s1 = init.insert(Buf::Mixes);
    let l = Launch::MhcHeadPre {
        base: weight_at(t, base)->0,
        scale: weight_at(t, scale)->0,
        stream_dim: m.stream_dim(),
        hidden: c.hidden_size,
        hc_mult: c.hc_mult,
    };
    let q2 = q1.need(t, base).need(t, scale);
    lemma_emit(q2, init, s1, l);
    let q3 = q2.emit(l);
    let s3 = s1.union(writes(l));
    lemma_rms_norm(q3, init, s3, t, out, Buf::AttnOut, c.hidden_size, Buf::Normed);
    let q4 = q3.rms_norm(t, out, Buf::AttnOut, c.hidden_size, Buf::Normed).need(t, lm);
    let s4 = s3.insert(Buf::Normed);
    assert(holds(q4, init, s4));
    if q4.err is None {
        let lw = weight_at(t, lm)->0;
        lemma_gemv(
            q4,
            init,
            s4,
            t,
            lw,
            0,
            c.vocab_size,
            c.hidden_size,
            Buf::Normed,
            Buf::LogitsBf16,
        );
        let q5 = q4.gemv(
            t,
            lw,
            0,
            c.vocab_size,
            c.hidden_size,
            Buf::Normed,
            Buf::LogitsBf16,
        );
        let s5 = s4.insert(Buf::LogitsBf16);
        lemma_emit(q5, init, s5, Launch::CastLogits { n: c.vocab_size });
        assert(s5.union(writes(Launch::CastLogits { n: c.vocab_size })).contains(Buf::YF32));
    }
}

} // verus!
