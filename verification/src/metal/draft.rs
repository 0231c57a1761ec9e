//! Draft heads: which kind a checkpoint is, which weights it must hold, and
//! how they are registered.
use vstd::prelude::*;

use crate::bytes::read_le;
#[allow(unused_imports)]
use crate::bytes::le_value;
use crate::metal::config::{QuantConfig, QuantMode};
#[allow(unused_imports)]
use crate::metal::config::{QuantView, WeightQuantView};
use crate::metal::dflash::{DFlashDraftConfig, DraftKind};
use crate::metal::loader::TensorMap;
#[allow(unused_imports)]
use crate::metal::loader::{part, quant_view};
use crate::metal::register::{
    check_requests, indexed_name, low_i32, push_request, push_stage, want_dense, want_norm,
    want_proj, LoadFault, Request, RuntimeCall, Stage,
};
#[allow(unused_imports)]
use crate::metal::register::{
    bare, first_fault, indexed, lemma_norms_alike_join, norms_alike, req_views, stage_norms_alike,
    stage_views, Infos, ReqView, StageView,
};
use crate::metal::mlx::Dtype;
#[allow(unused_imports)]
use crate::metal::qwen35::norm;
use crate::metal::weights::ArrayInfo;
use crate::text::contains_text;
#[allow(unused_imports)]
use crate::text::occurs;

verus! {

// ---- which kind ----

/// Where the header of a weight file stands: behind its length in eight
/// bytes, as far as the file goes. Nothing for a file too short to say.
pub fn header_range(bytes: &[u8]) -> (r: Option<(usize, usize)>)
    requires
        bytes@.len() >= 8 ==> 8 + le_value(bytes@.subrange(0, 8)) <= usize::MAX,
    ensures
        r == if bytes@.len() < 8 {
            None
        } else {
            let end = 8 + le_value(bytes@.subrange(0, 8));
            Some(
                (
                    8usize,
                    if end <= bytes@.len() {
                        end as usize
                    } else {
                        bytes@.len() as usize
                    },
                ),
            )
        },
{
    if bytes.len() < 8 {
        return None;
    }
    let n: u64 = read_le(bytes, 0, 8);
    let end: usize = 8 + n as usize;
    if end <= bytes.len() {
        Some((8, end))
    } else {
        Some((8, bytes.len()))
    }
}

pub open spec fn mentions_norm(index: Option<&str>, header: Option<&str>) -> bool {
    match index {
        Some(t) => occurs(t@, "pre_fc_norm_embedding.weight"@),
        None => match header {
            Some(h) => occurs(h@, "pre_fc_norm_embedding.weight"@),
            None => false,
        },
    }
}

/// Whether a checkpoint holds the norm that only one kind of head has: by its
/// index where it has one, else by the header of its weight file.
pub fn draft_head_has_pre_fc_norm(index: Option<&str>, header: Option<&str>) -> (r: bool)
    ensures
        r == mentions_norm(index, header),
{
    match index {
        Some(t) => contains_text(t, "pre_fc_norm_embedding.weight"),
        None => match header {
            Some(h) => contains_text(h, "pre_fc_norm_embedding.weight"),
            None => false,
        },
    }
}

/// The kind of a draft head, by its model type or by its weights.
pub fn draft_kind(model_type: Option<&str>, index: Option<&str>, header: Option<&str>) -> (kind:
    DraftKind)
    ensures
        kind == if (model_type is Some && occurs(model_type->0@, "qwen3_5_mtp"@)) || mentions_norm(
            index,
            header,
        ) {
            DraftKind::Qwen35Mtp
        } else {
            DraftKind::DFlashEagle
        },
{
    let named: bool = match model_type {
        Some(t) => contains_text(t, "qwen3_5_mtp"),
        None => false,
    };
    if named || draft_head_has_pre_fc_norm(index, header) {
        DraftKind::Qwen35Mtp
    } else {
        DraftKind::DFlashEagle
    }
}

/// How a draft says it is packed.
#[derive(Debug, Clone, Copy, PartialEq, Eq, Structural)]
pub struct RawDraftQuantConfig {
    pub group_size: Option<i32>,
    pub bits: Option<i32>,
}

pub open spec fn draft_quant(a: Option<RawDraftQuantConfig>, b: Option<RawDraftQuantConfig>) -> Option<
    QuantView,
> {
    let own = match a {
        Some(x) => Some(x),
        None => b,
    };
    match own {
        None => None,
        Some(x) => Some(
            QuantView {
                group_size: match x.group_size {
                    Some(g) => g,
                    None => 64,
                },
                bits: match x.bits {
                    Some(n) => n,
                    None => 4,
                },
                mode: QuantMode::Affine,
                per_weight: Seq::empty(),
            },
        ),
    }
}

/// How a draft is packed: by the first of its two settings, with 4 bits in
/// groups of 64 where it does not say.
pub fn raw_quant(a: Option<RawDraftQuantConfig>, b: Option<RawDraftQuantConfig>) -> (r: Option<
    QuantConfig,
>)
    ensures
        match (r, draft_quant(a, b)) {
            (Some(x), Some(y)) => x@ == y,
            (None, None) => true,
            _ => false,
        },
{
    let own: Option<RawDraftQuantConfig> = match a {
        Some(x) => Some(x),
        None => b,
    };
    match own {
        None => None,
        Some(x) => {
            let c = QuantConfig {
                group_size: match x.group_size {
                    Some(g) => g,
                    None => 64,
                },
                bits: match x.bits {
                    Some(n) => n,
                    None => 4,
                },
                mode: QuantMode::Affine,
                per_weight: Vec::new(),
            };
            assert(c@.per_weight =~= Seq::<WeightQuantView>::empty());
            Some(c)
        },
    }
}

// ---- what a draft must hold ----

pub open spec fn draft_layer(i: nat) -> Seq<char> {
    indexed("layers."@, i)
}

pub open spec fn draft_layer_loads(p: Seq<char>, offset: bool) -> Seq<ReqView> {
    seq![
        ReqView::Proj(part(p, ".self_attn.q_proj"@)),
        ReqView::Proj(part(p, ".self_attn.k_proj"@)),
        ReqView::Proj(part(p, ".self_attn.v_proj"@)),
        ReqView::Proj(part(p, ".self_attn.o_proj"@)),
        norm(p, ".input_layernorm.weight"@, offset),
        norm(p, ".post_attention_layernorm.weight"@, offset),
        norm(p, ".self_attn.q_norm.weight"@, offset),
        norm(p, ".self_attn.k_norm.weight"@, offset),
        ReqView::Proj(part(p, ".mlp.gate_proj"@)),
        ReqView::Proj(part(p, ".mlp.up_proj"@)),
        ReqView::Proj(part(p, ".mlp.down_proj"@)),
    ]
}

pub open spec fn draft_layers_loads(n: nat, offset: bool) -> Seq<ReqView>
    decreases n,
{
    if n == 0 {
        Seq::empty()
    } else {
        draft_layers_loads((n - 1) as nat, offset) + draft_layer_loads(
            draft_layer((n - 1) as nat),
            offset,
        )
    }
}

/// Whether a draft's norms get one added: only those of the kind that may
/// store them as their distance from one, where it does.
pub open spec fn draft_offset(kind: DraftKind, norms_need_offset: bool) -> bool {
    norms_need_offset && kind == DraftKind::Qwen35Mtp
}

/// Everything that loading a draft asks for, in order. A head of the one kind
/// has its first norm looked at before anything else: it tells whether the
/// norms are stored as their distance from one.
pub open spec fn draft_loads(kind: DraftKind, layers: nat, norms_need_offset: bool) -> Seq<ReqView> {
    let mtp = kind == DraftKind::Qwen35Mtp;
    let offset = draft_offset(kind, norms_need_offset);
    (if mtp {
        seq![ReqView::Dense(part("layers.0"@, ".input_layernorm.weight"@))]
    } else {
        Seq::empty()
    }) + draft_layers_loads(layers, offset) + (if mtp {
        seq![
            norm("pre_fc_norm_embedding"@, ".weight"@, offset),
            norm("pre_fc_norm_hidden"@, ".weight"@, offset),
        ]
    } else {
        seq![ReqView::Dense(part("hidden_norm"@, ".weight"@))]
    }) + seq![ReqView::Proj(part("fc"@, ""@)), norm("norm"@, ".weight"@, offset)]
}

fn want_draft_layer(list: &mut Vec<Request>, p: &str, offset: bool)
    ensures
        req_views(final(list)@) == req_views(old(list)@) + draft_layer_loads(p@, offset),
{
    let ghost before = req_views(list@);
    want_proj(list, p, ".self_attn.q_proj");
    want_proj(list, p, ".self_attn.k_proj");
    want_proj(list, p, ".self_attn.v_proj");
    want_proj(list, p, ".self_attn.o_proj");
    want_norm(list, p, ".input_layernorm.weight", offset);
    want_norm(list, p, ".post_attention_layernorm.weight", offset);
    want_norm(list, p, ".self_attn.q_norm.weight", offset);
    want_norm(list, p, ".self_attn.k_norm.weight", offset);
    want_proj(list, p, ".mlp.gate_proj");
    want_proj(list, p, ".mlp.up_proj");
    want_proj(list, p, ".mlp.down_proj");
    assert(req_views(list@) =~= before + draft_layer_loads(p@, offset));
}

/// A head that looks at the last token alone: a latent for each token, and the
/// map from a latent to a bias for each next token. The map is stored outputs
/// by inputs and used inputs by outputs.
#[derive(Debug)]
pub struct MarkovHead {
    pub w1: Request,
    pub w2: Request,
}

/// A draft's weights.
#[derive(Debug)]
pub struct DFlashDraftWeights {
    pub loads: Vec<Request>,
    pub markov: Option<MarkovHead>,
}

pub open spec fn has_markov(t: Infos) -> bool {
    t.contains_key("markov_head.markov_w1.weight"@) && t.contains_key(
        "markov_head.markov_w2.weight"@,
    )
}

/// The head of the last token, where a draft has one: its second array is
/// turned.
pub open spec fn markov_is(m: Option<MarkovHead>, t: Infos) -> bool {
    match m {
        Some(h) => has_markov(t) && h.w1@ == ReqView::Dense("markov_head.markov_w1.weight"@)
            && h.w2@ == ReqView::Transposed("markov_head.markov_w2.weight"@),
        None => !has_markov(t),
    }
}

fn find_markov(tensors: &TensorMap<ArrayInfo>) -> (m: Option<MarkovHead>)
    ensures
        markov_is(m, tensors@),
{
    if tensors.contains_key("markov_head.markov_w1.weight") && tensors.contains_key(
        "markov_head.markov_w2.weight",
    ) {
        let w1: String = String::from_str("markov_head.markov_w1.weight");
        let w2: String = String::from_str("markov_head.markov_w2.weight");
        Some(MarkovHead { w1: Request::Dense(w1), w2: Request::Transposed(w2) })
    } else {
        None
    }
}

impl DFlashDraftWeights {
    /// What loading asks for, in order, and whether the draft has it.
    /// `norms_need_offset` is what the first layer's norm tells of a head whose
    /// norms may be stored as their distance from one.
    pub fn load(
        c: &DFlashDraftConfig,
        tensors: &TensorMap<ArrayInfo>,
        q: Option<&QuantConfig>,
        norms_need_offset: bool,
    ) -> (r: Result<Self, LoadFault>)
        ensures
            ({
                let loads = draft_loads(
                    c.draft_kind,
                    c.dims.num_hidden_layers as nat,
                    norms_need_offset,
                );
                let fault = first_fault(tensors@, quant_view(q), loads, loads.len());
                match r {
                    Ok(w) => fault is None && req_views(w.loads@) == loads && markov_is(
                        w.markov,
                        tensors@,
                    ),
                    Err(e) => fault == Some(e),
                }
            }),
    {
        let mtp: bool = match c.draft_kind {
            DraftKind::Qwen35Mtp => true,
            DraftKind::DFlashEagle => false,
        };
        let offset: bool = norms_need_offset && mtp;
        let mut list: Vec<Request> = Vec::new();
        assert(req_views(list@) =~= Seq::<ReqView>::empty());
        if mtp {
            want_dense(&mut list, "layers.0", ".input_layernorm.weight");
        }
        let ghost start = req_views(list@);
        let mut i: usize = 0;
        assert(start + draft_layers_loads(0, offset) =~= start);
        while i < c.dims.num_hidden_layers
            invariant
                i <= c.dims.num_hidden_layers,
                req_views(list@) == start + draft_layers_loads(i as nat, offset),
            decreases c.dims.num_hidden_layers - i,
        {
            let p: String = indexed_name("layers.", i);
            want_draft_layer(&mut list, p.as_str(), offset);
            i = i + 1;
            assert(req_views(list@) =~= start + draft_layers_loads(i as nat, offset));
        }
        if mtp {
            want_norm(&mut list, "pre_fc_norm_embedding", ".weight", offset);
            want_norm(&mut list, "pre_fc_norm_hidden", ".weight", offset);
        } else {
            want_dense(&mut list, "hidden_norm", ".weight");
        }
        want_proj(&mut list, "fc", "");
        want_norm(&mut list, "norm", ".weight", offset);
        assert(req_views(list@) =~= draft_loads(
            c.draft_kind,
            c.dims.num_hidden_layers as nat,
            norms_need_offset,
        ));
        match check_requests(tensors, q, &list) {
            Some(f) => Err(f),
            None => Ok(DFlashDraftWeights { loads: list, markov: find_markov(tensors) }),
        }
    }
}

// ---- registration ----

pub open spec fn draft_config_stage(c: DFlashDraftConfig) -> StageView {
    StageView {
        numbers: seq![
            c.dims.hidden_size as i32,
            c.dims.num_attention_heads as i32,
            c.dims.num_key_value_heads as i32,
            c.dims.head_dim as i32,
            c.dims.num_hidden_layers as i32,
            c.rotary_dim as i32,
            if c.attn_output_gate {
                1i32
            } else {
                0i32
            },
            match c.draft_kind {
                DraftKind::DFlashEagle => 0i32,
                DraftKind::Qwen35Mtp => 1i32,
            },
        ],
        ..bare(RuntimeCall::SetConfig)
    }
}

/// A layer's call: its projections, then its norms.
pub open spec fn draft_layer_stage(p: Seq<char>, offset: bool) -> StageView {
    StageView {
        arrays: seq![
            ReqView::Proj(part(p, ".self_attn.q_proj"@)),
            ReqView::Proj(part(p, ".self_attn.k_proj"@)),
            ReqView::Proj(part(p, ".self_attn.v_proj"@)),
            ReqView::Proj(part(p, ".self_attn.o_proj"@)),
            ReqView::Proj(part(p, ".mlp.gate_proj"@)),
            ReqView::Proj(part(p, ".mlp.up_proj"@)),
            ReqView::Proj(part(p, ".mlp.down_proj"@)),
            norm(p, ".input_layernorm.weight"@, offset),
            norm(p, ".post_attention_layernorm.weight"@, offset),
            norm(p, ".self_attn.q_norm.weight"@, offset),
            norm(p, ".self_attn.k_norm.weight"@, offset),
        ],
        ..bare(RuntimeCall::PushLayer)
    }
}

pub open spec fn draft_layers(n: nat, offset: bool) -> Seq<StageView>
    decreases n,
{
    if n == 0 {
        Seq::empty()
    } else {
        draft_layers((n - 1) as nat, offset).push(
            draft_layer_stage(draft_layer((n - 1) as nat), offset),
        )
    }
}

/// The projection that joins draft and target, and the norms around it. A zero
/// stands for the norm of the target's features where a head has none.
pub open spec fn fc_stage(mtp: bool, offset: bool) -> StageView {
    StageView {
        arrays: seq![
            ReqView::Proj(part("fc"@, ""@)),
            if mtp {
                ReqView::Zero(Dtype::Bfloat16)
            } else {
                ReqView::Dense(part("hidden_norm"@, ".weight"@))
            },
            norm("norm"@, ".weight"@, offset),
        ],
        ..bare(RuntimeCall::SetFcNorms)
    }
}

pub open spec fn mtp_norms_stage(offset: bool) -> StageView {
    StageView {
        arrays: seq![
            norm("pre_fc_norm_embedding"@, ".weight"@, offset),
            norm("pre_fc_norm_hidden"@, ".weight"@, offset),
        ],
        ..bare(RuntimeCall::SetMtpNorms)
    }
}

/// Everything that registering a draft does, in order.
pub open spec fn draft_program(c: DFlashDraftConfig, norms_need_offset: bool) -> Seq<StageView> {
    let mtp = c.draft_kind == DraftKind::Qwen35Mtp;
    let offset = draft_offset(c.draft_kind, norms_need_offset);
    seq![draft_config_stage(c)] + draft_layers(c.dims.num_hidden_layers as nat, offset) + seq![
        fc_stage(mtp, offset),
    ] + (if mtp {
        seq![mtp_norms_stage(offset)]
    } else {
        Seq::empty()
    }) + seq![bare(RuntimeCall::Finalize)]
}

/// Collects the stages of a program.
#[derive(Debug)]
pub struct DFlashDraftCppModel {
    pub program: Vec<Stage>,
}

impl DFlashDraftCppModel {
    fn config(c: &DFlashDraftConfig) -> (s: Stage)
        ensures
            s@ == draft_config_stage(*c),
    {
        let mut s: Stage = Stage::new(RuntimeCall::SetConfig);
        s.numbers.push(low_i32(c.dims.hidden_size));
        s.numbers.push(low_i32(c.dims.num_attention_heads));
        s.numbers.push(low_i32(c.dims.num_key_value_heads));
        s.numbers.push(low_i32(c.dims.head_dim));
        s.numbers.push(low_i32(c.dims.num_hidden_layers));
        s.numbers.push(low_i32(c.rotary_dim));
        s.numbers.push(
            if c.attn_output_gate {
                1
            } else {
                0
            },
        );
        s.numbers.push(
            match c.draft_kind {
                DraftKind::DFlashEagle => 0,
                DraftKind::Qwen35Mtp => 1,
            },
        );
        assert(s@ =~= draft_config_stage(*c));
        s
    }

    fn layer(p: &str, offset: bool) -> (s: Stage)
        ensures
            s@ == draft_layer_stage(p@, offset),
    {
        let mut s: Stage = Stage::new(RuntimeCall::PushLayer);
        want_proj(&mut s.arrays, p, ".self_attn.q_proj");
        want_proj(&mut s.arrays, p, ".self_attn.k_proj");
        want_proj(&mut s.arrays, p, ".self_attn.v_proj");
        want_proj(&mut s.arrays, p, ".self_attn.o_proj");
        want_proj(&mut s.arrays, p, ".mlp.gate_proj");
        want_proj(&mut s.arrays, p, ".mlp.up_proj");
        want_proj(&mut s.arrays, p, ".mlp.down_proj");
        want_norm(&mut s.arrays, p, ".input_layernorm.weight", offset);
        want_norm(&mut s.arrays, p, ".post_attention_layernorm.weight", offset);
        want_norm(&mut s.arrays, p, ".self_attn.q_norm.weight", offset);
        want_norm(&mut s.arrays, p, ".self_attn.k_norm.weight", offset);
        assert(s@ =~= draft_layer_stage(p@, offset));
        s
    }

    fn fc(mtp: bool, offset: bool) -> (s: Stage)
        ensures
            s@ == fc_stage(mtp, offset),
    {
        let mut s: Stage = Stage::new(RuntimeCall::SetFcNorms);
        want_proj(&mut s.arrays, "fc", "");
        if mtp {
            push_request(&mut s.arrays, Request::Zero(Dtype::Bfloat16));
        } else {
            want_dense(&mut s.arrays, "hidden_norm", ".weight");
        }
        want_norm(&mut s.arrays, "norm", ".weight", offset);
        assert(s@ =~= fc_stage(mtp, offset));
        s
    }

    fn mtp_norms(offset: bool) -> (s: Stage)
        ensures
            s@ == mtp_norms_stage(offset),
    {
        let mut s: Stage = Stage::new(RuntimeCall::SetMtpNorms);
        want_norm(&mut s.arrays, "pre_fc_norm_embedding", ".weight", offset);
        want_norm(&mut s.arrays, "pre_fc_norm_hidden", ".weight", offset);
        assert(s@ =~= mtp_norms_stage(offset));
        s
    }

    /// The program that registers a draft's weights. `norms_need_offset` is
    /// as in loading.
    pub fn build(c: &DFlashDraftConfig, norms_need_offset: bool) -> (b: Self)
        ensures
            stage_views(b.program@) == draft_program(*c, norms_need_offset),
    {
        let mtp: bool = match c.draft_kind {
            DraftKind::Qwen35Mtp => true,
            DraftKind::DFlashEagle => false,
        };
        let offset: bool = norms_need_offset && mtp;
        let mut b = DFlashDraftCppModel { program: Vec::new() };
        assert(stage_views(b.program@) =~= Seq::<StageView>::empty());
        push_stage(&mut b.program, Self::config(c));
        let ghost start = stage_views(b.program@);
        let mut i: usize = 0;
        assert(start + draft_layers(0, offset) =~= start);
        while i < c.dims.num_hidden_layers
            invariant
                i <= c.dims.num_hidden_layers,
                stage_views(b.program@) == start + draft_layers(i as nat, offset),
            decreases c.dims.num_hidden_layers - i,
        {
            let p: String = indexed_name("layers.", i);
            push_stage(&mut b.program, Self::layer(p.as_str(), offset));
            i = i + 1;
            assert(stage_views(b.program@) =~= start + draft_layers(i as nat, offset));
        }
        push_stage(&mut b.program, Self::fc(mtp, offset));
        if mtp {
            push_stage(&mut b.program, Self::mtp_norms(offset));
        }
        push_stage(&mut b.program, Stage::new(RuntimeCall::Finalize));
        assert(stage_views(b.program@) =~= draft_program(*c, norms_need_offset));
        b
    }
}

/// A draft's layers are registered with the weights that loading asked for, in
/// the same form.
pub proof fn registered_layers_are_loaded(p: Seq<char>, offset: bool)
    ensures
        draft_layer_stage(p, offset).arrays.to_set() == draft_layer_loads(p, offset).to_set(),
{
    let a = draft_layer_stage(p, offset).arrays;
    let b = draft_layer_loads(p, offset);
    assert forall|r: ReqView| a.contains(r) <==> b.contains(r) by {
        if a.contains(r) {
            let i = choose|i: int| 0 <= i < a.len() && a[i] == r;
            let j: int = if i < 4 {
                i
            } else if i < 7 {
                i + 4
            } else {
                i - 3
            };
            assert(b[j] == r);
        }
        if b.contains(r) {
            let j = choose|j: int| 0 <= j < b.len() && b[j] == r;
            let i: int = if j < 4 {
                j
            } else if j < 8 {
                j + 3
            } else {
                j - 4
            };
            assert(a[i] == r);
        }
    }
    assert(a.to_set() =~= b.to_set());
}

/// Of a draft's norms that may be stored as their distance from one, every one
/// gets one added or none does, in loading and in registration alike; for the
/// kind of head that stores them in full, none does.
pub proof fn draft_norms_are_corrected_alike(c: DFlashDraftConfig, norms_need_offset: bool)
    ensures
        ({
            let offset = draft_offset(c.draft_kind, norms_need_offset);
            let layers = c.dims.num_hidden_layers as nat;
            &&& norms_alike(draft_loads(c.draft_kind, layers, norms_need_offset), offset)
            &&& stage_norms_alike(draft_program(c, norms_need_offset), offset)
        }),
{
    let offset = draft_offset(c.draft_kind, norms_need_offset);
    let n = c.dims.num_hidden_layers as nat;
    lemma_draft_layer_norms(n, offset);
    let loads = draft_loads(c.draft_kind, n, norms_need_offset);
    let layers = draft_layers_loads(n, offset);
    let first: int = if c.draft_kind == DraftKind::Qwen35Mtp {
        1
    } else {
        0
    };
    assert forall|i: int| 0 <= i < loads.len() implies match #[trigger] loads[i] {
        ReqView::Norm { name, offset: own } => own == offset,
        _ => true,
    } by {
        if first <= i < first + layers.len() {
            assert(loads[i] == layers[i - first]);
        }
    }
    let program = draft_program(c, norms_need_offset);
    let stages = draft_layers(n, offset);
    assert forall|i: int| 0 <= i < program.len() implies norms_alike(
        #[trigger] program[i].arrays,
        offset,
    ) by {
        if 1 <= i < 1 + stages.len() {
            assert(program[i] == stages[i - 1]);
        }
    }
}

proof fn lemma_draft_layer_norms(n: nat, offset: bool)
    ensures
        norms_alike(draft_layers_loads(n, offset), offset),
        stage_norms_alike(draft_layers(n, offset), offset),
    decreases n,
{
    if n > 0 {
        let i = (n - 1) as nat;
        lemma_draft_layer_norms(i, offset);
        lemma_norms_alike_join(
            draft_layers_loads(i, offset),
            draft_layer_loads(draft_layer(i), offset),
            offset,
        );
        assert(norms_alike(draft_layer_stage(draft_layer(i), offset).arrays, offset));
    }
}

} // verus!
