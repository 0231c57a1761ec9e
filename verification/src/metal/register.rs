//! Programs that bring a checkpoint's weights into the runtime: which weights
//! are loaded, in which order, and how the runtime's calls refer to them.
use vstd::prelude::*;
use vstd::string::*;

use crate::metal::config::QuantConfig;
#[allow(unused_imports)]
use crate::metal::config::QuantView;
use crate::metal::loader::{
    load_embed_tokens_from_tensors, load_proj_from_tensors, load_quantized_with_bits,
    load_stacked_quantized, part_name, LoadError, ProjPlan, TensorMap,
};
#[allow(unused_imports)]
use crate::metal::loader::{embed_plan, part, proj_plan, quant_view, triple_fault};
use crate::metal::mlx::Dtype;
use crate::metal::weights::{concat_weight_rows, ArrayInfo, WeightTensor};
#[allow(unused_imports)]
use crate::metal::weights::{joined, InfoView, WeightView};
use crate::text::decimal_string;
#[allow(unused_imports)]
use crate::text::decimal;

verus! {

/// Something that loading needs.
#[derive(Debug)]
pub enum Request {
    /// An array by its name, as it is stored.
    Dense(String),
    /// A norm's weight, with one added to each element where it is stored as
    /// its distance from one.
    Norm { name: String, offset: bool },
    /// An array with its elements cast to a type.
    As { name: String, dtype: Dtype },
    /// An array with its axes in reverse.
    Transposed(String),
    /// A single zero of a type, where a call takes an array that the
    /// checkpoint does not have.
    Zero(Dtype),
    /// An embedding, dequantized.
    Embed(String),
    /// The transpose of an embedding.
    Tied(String),
    /// A projection, packed or dense.
    Proj(String),
    /// A projection, dequantized where it is packed.
    DenseProj(String),
    /// A weight with shared exponents, and its scales right behind it, of the
    /// given width.
    Mxfp8 { base: String, group_size: i32, bits: i32 },
    /// A weight packed with the given width.
    Packed { base: String, group_size: i32, bits: i32 },
    /// A stack of packed experts.
    Stack(String),
    /// A stack of packed experts with the given width.
    PackedStack { base: String, group_size: i32, bits: i32 },
    /// A depthwise convolution of this kernel, over these channels where they
    /// are fixed.
    Conv { name: String, channels: Option<i32>, kernel: i32 },
    /// A projection's number of outputs.
    Rows(String),
    /// Two projections joined along their outputs.
    Join { first: String, second: String },
    /// One array of each of so many experts, stacked: the expert's number
    /// stands between the two parts of its name.
    Experts { base: String, suffix: String, count: usize },
    /// Something that is not there.
    Absent(LoadError),
}

#[verifier::ext_equal]
pub enum ReqView {
    Dense(Seq<char>),
    Norm { name: Seq<char>, offset: bool },
    As { name: Seq<char>, dtype: Dtype },
    Transposed(Seq<char>),
    Zero(Dtype),
    Embed(Seq<char>),
    Tied(Seq<char>),
    Proj(Seq<char>),
    DenseProj(Seq<char>),
    Mxfp8 { base: Seq<char>, group_size: i32, bits: i32 },
    Packed { base: Seq<char>, group_size: i32, bits: i32 },
    Stack(Seq<char>),
    PackedStack { base: Seq<char>, group_size: i32, bits: i32 },
    Conv { name: Seq<char>, channels: Option<i32>, kernel: i32 },
    Rows(Seq<char>),
    Join { first: Seq<char>, second: Seq<char> },
    Experts { base: Seq<char>, suffix: Seq<char>, count: usize },
    Absent(LoadError),
}

impl View for Request {
    type V = ReqView;

    open spec fn view(&self) -> ReqView {
        match *self {
            Request::Dense(s) => ReqView::Dense(s@),
            Request::Norm { name, offset } => ReqView::Norm { name: name@, offset },
            Request::As { name, dtype } => ReqView::As { name: name@, dtype },
            Request::Transposed(s) => ReqView::Transposed(s@),
            Request::Zero(dtype) => ReqView::Zero(dtype),
            Request::Embed(s) => ReqView::Embed(s@),
            Request::Tied(s) => ReqView::Tied(s@),
            Request::Proj(s) => ReqView::Proj(s@),
            Request::DenseProj(s) => ReqView::DenseProj(s@),
            Request::Mxfp8 { base, group_size, bits } => ReqView::Mxfp8 {
                base: base@,
                group_size,
                bits,
            },
            Request::Packed { base, group_size, bits } => ReqView::Packed {
                base: base@,
                group_size,
                bits,
            },
            Request::Stack(s) => ReqView::Stack(s@),
            Request::PackedStack { base, group_size, bits } => ReqView::PackedStack {
                base: base@,
                group_size,
                bits,
            },
            Request::Conv { name, channels, kernel } => ReqView::Conv {
                name: name@,
                channels,
                kernel,
            },
            Request::Rows(s) => ReqView::Rows(s@),
            Request::Join { first, second } => ReqView::Join { first: first@, second: second@ },
            Request::Experts { base, suffix, count } => ReqView::Experts {
                base: base@,
                suffix: suffix@,
                count,
            },
            Request::Absent(e) => ReqView::Absent(e),
        }
    }
}

/// The name of one expert's array.
pub open spec fn expert_name(base: Seq<char>, i: nat, suffix: Seq<char>) -> Seq<char> {
    part(indexed(base, i), suffix)
}

pub open spec fn req_views(s: Seq<Request>) -> Seq<ReqView> {
    s.map_values(|r: Request| r@)
}

pub type Infos = Map<Seq<char>, ArrayInfo>;

/// A projection's weight as loading gives it.
pub open spec fn weight_of(t: Infos, base: Seq<char>, q: Option<QuantView>) -> Option<WeightView> {
    let w = t[part(base, ".weight"@)]@;
    match proj_plan(t, base, q) {
        Err(_) => None,
        Ok(ProjPlan::Dense) => Some(
            WeightView::Dense(InfoView { shape: w.shape.reverse(), dtype: w.dtype }),
        ),
        Ok(ProjPlan::Quantized { has_biases, group_size, bits, mode }) => Some(
            WeightView::Quantized {
                w,
                scales: t[part(base, ".scales"@)]@,
                biases: if has_biases {
                    Some(t[part(base, ".biases"@)].dtype)
                } else {
                    None
                },
                group_size,
                bits,
            },
        ),
    }
}

/// How a convolution's weight must be turned to be channels by kernel by one.
#[derive(Debug, Clone, Copy, PartialEq, Eq, Structural)]
pub enum ConvTurn {
    /// It is so already.
    Keep,
    /// Its last two axes are swapped.
    Swap,
    /// It lacks the last axis.
    Widen,
}

pub open spec fn conv_turn(shape: Seq<i32>, channels: Option<i32>, kernel: i32) -> Option<ConvTurn> {
    let fits = shape.len() > 0 && (channels is None || shape[0] == channels->0);
    if shape.len() == 3 && shape[2] == 1 && fits && shape[1] == kernel {
        Some(ConvTurn::Keep)
    } else if shape.len() == 3 && shape[1] == 1 && fits && shape[2] == kernel {
        Some(ConvTurn::Swap)
    } else if shape.len() == 2 && fits && shape[1] == kernel {
        Some(ConvTurn::Widen)
    } else {
        None
    }
}

/// How to turn a convolution's weight, nothing where its shape is unknown.
pub fn load_conv_weight(shape: &Vec<i32>, channels: Option<i32>, kernel: i32) -> (r: Option<
    ConvTurn,
>)
    ensures
        r == conv_turn(shape@, channels, kernel),
{
    if shape.len() == 0 {
        return None;
    }
    let fits: bool = match channels {
        Some(c) => shape[0] == c,
        None => true,
    };
    if shape.len() == 3 && shape[2] == 1 && fits && shape[1] == kernel {
        Some(ConvTurn::Keep)
    } else if shape.len() == 3 && shape[1] == 1 && fits && shape[2] == kernel {
        Some(ConvTurn::Swap)
    } else if shape.len() == 2 && fits && shape[1] == kernel {
        Some(ConvTurn::Widen)
    } else {
        None
    }
}

/// Whether each of so many experts has its array.
pub open spec fn all_experts(t: Infos, base: Seq<char>, suffix: Seq<char>, count: nat) -> bool {
    forall|i: nat| i < count ==> t.contains_key(#[trigger] expert_name(base, i, suffix))
}

/// What keeps an array from being there.
pub open spec fn array_fault(t: Infos, name: Seq<char>) -> Option<LoadError> {
    if t.contains_key(name) {
        None
    } else {
        Some(LoadError::MissingWeight)
    }
}

/// What keeps a stack of packed experts from being loaded.
pub open spec fn stack_fault(t: Infos, base: Seq<char>) -> Option<LoadError> {
    match triple_fault(t, base) {
        Some(e) => Some(e),
        None => {
            let rank = t[part(base, ".weight"@)].shape@.len() as usize;
            if rank == 3 {
                None
            } else {
                Some(LoadError::StackRank { rank })
            }
        },
    }
}

/// What keeps a request from being met.
pub open spec fn request_fault(t: Infos, q: Option<QuantView>, r: ReqView) -> Option<LoadError> {
    match r {
        ReqView::Dense(name) => array_fault(t, name),
        ReqView::Norm { name, offset } => array_fault(t, name),
        ReqView::As { name, dtype } => array_fault(t, name),
        ReqView::Transposed(name) => array_fault(t, name),
        ReqView::Zero(dtype) => None,
        ReqView::Embed(base) => match embed_plan(t, base, q) {
            Err(e) => Some(e),
            Ok(_) => None,
        },
        ReqView::Tied(base) => None,
        ReqView::Proj(base) => match proj_plan(t, base, q) {
            Err(e) => Some(e),
            Ok(_) => None,
        },
        ReqView::DenseProj(base) => match proj_plan(t, base, q) {
            Err(e) => Some(e),
            Ok(_) => None,
        },
        ReqView::Mxfp8 { base, group_size, bits } => if !t.contains_key(part(base, ".weight"@)) {
            Some(LoadError::MissingWeight)
        } else if !t.contains_key(part(base, ".scales"@)) {
            Some(LoadError::MissingQuantizedScales)
        } else {
            None
        },
        ReqView::Packed { base, group_size, bits } => triple_fault(t, base),
        ReqView::Stack(base) => stack_fault(t, base),
        ReqView::PackedStack { base, group_size, bits } => stack_fault(t, base),
        ReqView::Conv { name, channels, kernel } => if !t.contains_key(name) {
            Some(LoadError::MissingWeight)
        } else if conv_turn(t[name].shape@, channels, kernel) is None {
            Some(LoadError::ConvShape)
        } else {
            None
        },
        ReqView::Rows(base) => match weight_of(t, base, q) {
            Some(w) => match w.rows() {
                Err(e) => Some(LoadError::Weight(e)),
                Ok(_) => None,
            },
            None => None,
        },
        ReqView::Join { first, second } => match (weight_of(t, first, q), weight_of(t, second, q)) {
            (Some(a), Some(b)) => match joined(a, b) {
                Err(e) => Some(LoadError::Weight(e)),
                Ok(_) => None,
            },
            _ => None,
        },
        ReqView::Experts { base, suffix, count } => if count == 0 {
            Some(LoadError::Experts)
        } else if !all_experts(t, base, suffix, count as nat) {
            Some(LoadError::MissingWeight)
        } else {
            None
        },
        ReqView::Absent(e) => Some(e),
    }
}

fn copy_shape(s: &Vec<i32>) -> (r: Vec<i32>)
    ensures
        r@ == s@,
{
    let mut r: Vec<i32> = Vec::new();
    let mut i: usize = 0;
    while i < s.len()
        invariant
            i <= s@.len(),
            r@ == s@.take(i as int),
        decreases s@.len() - i,
    {
        r.push(s[i]);
        i = i + 1;
        assert(s@.take(i as int) =~= s@.take(i - 1).push(s@[i - 1]));
    }
    assert(s@.take(i as int) =~= s@);
    r
}

fn turned_shape(s: &Vec<i32>) -> (r: Vec<i32>)
    ensures
        r@ == s@.reverse(),
{
    let total: usize = s.len();
    let mut r: Vec<i32> = Vec::new();
    let mut k: usize = total;
    while k > 0
        invariant
            k <= total == s@.len(),
            r@.len() == total - k,
            forall|i: int| 0 <= i < total - k ==> #[trigger] r@[i] == s@[total - 1 - i],
        decreases k,
    {
        r.push(s[k - 1]);
        k = k - 1;
    }
    assert(r@ =~= s@.reverse());
    r
}

/// The weight of a projection, where it can be loaded.
pub fn projection_weight(tensors: &TensorMap<ArrayInfo>, base: &str, q: Option<&QuantConfig>) -> (r:
    Option<WeightTensor>)
    ensures
        match (r, weight_of(tensors@, base@, quant_view(q))) {
            (Some(a), Some(b)) => a@ == b,
            (None, None) => true,
            _ => false,
        },
{
    let plan: ProjPlan = match load_proj_from_tensors(tensors, base, q) {
        Err(_) => {
            return None;
        },
        Ok(p) => p,
    };
    let w: &ArrayInfo = match tensors.tensor_get(part_name(base, ".weight").as_str()) {
        Some(w) => w,
        None => {
            return None;
        },
    };
    match plan {
        ProjPlan::Dense => Some(
            WeightTensor::Dense(ArrayInfo { shape: turned_shape(&w.shape), dtype: w.dtype }),
        ),
        ProjPlan::Quantized { has_biases, group_size, bits, mode: _ } => {
            let s: &ArrayInfo = match tensors.tensor_get(part_name(base, ".scales").as_str()) {
                Some(s) => s,
                None => {
                    return None;
                },
            };
            let biases: Option<Dtype> = match tensors.tensor_get(
                part_name(base, ".biases").as_str(),
            ) {
                Some(b) => Some(b.dtype),
                None => None,
            };
            Some(
                WeightTensor::Quantized {
                    w: ArrayInfo { shape: copy_shape(&w.shape), dtype: w.dtype },
                    scales: ArrayInfo { shape: copy_shape(&s.shape), dtype: s.dtype },
                    biases,
                    group_size,
                    bits,
                },
            )
        },
    }
}

fn has_experts(tensors: &TensorMap<ArrayInfo>, base: &str, suffix: &str, count: usize) -> (r: bool)
    ensures
        r == all_experts(tensors@, base@, suffix@, count as nat),
{
    let mut i: usize = 0;
    while i < count
        invariant
            i <= count,
            all_experts(tensors@, base@, suffix@, i as nat),
        decreases count - i,
    {
        let own: String = indexed_name(base, i);
        let name: String = part_name(own.as_str(), suffix);
        assert(name@ == expert_name(base@, i as nat, suffix@));
        if !tensors.contains_key(name.as_str()) {
            return false;
        }
        i = i + 1;
    }
    true
}

fn check_array(tensors: &TensorMap<ArrayInfo>, name: &str) -> (f: Option<LoadError>)
    ensures
        f == array_fault(tensors@, name@),
{
    if tensors.contains_key(name) {
        None
    } else {
        Some(LoadError::MissingWeight)
    }
}

fn check_proj(tensors: &TensorMap<ArrayInfo>, q: Option<&QuantConfig>, base: &str) -> (f: Option<
    LoadError,
>)
    ensures
        f == request_fault(tensors@, quant_view(q), ReqView::Proj(base@)),
{
    match load_proj_from_tensors(tensors, base, q) {
        Err(e) => Some(e),
        Ok(_) => None,
    }
}

fn check_stack(tensors: &TensorMap<ArrayInfo>, base: &str) -> (f: Option<LoadError>)
    ensures
        f == stack_fault(tensors@, base@),
{
    let rank: usize = match tensors.tensor_get(part_name(base, ".weight").as_str()) {
        Some(w) => w.shape.len(),
        None => 0,
    };
    match load_stacked_quantized(tensors, base, rank) {
        Err(e) => Some(e),
        Ok(_) => None,
    }
}

/// What keeps a request from being met.
pub fn check_request(tensors: &TensorMap<ArrayInfo>, q: Option<&QuantConfig>, r: &Request) -> (f:
    Option<LoadError>)
    ensures
        f == request_fault(tensors@, quant_view(q), r@),
{
    match r {
        Request::Dense(name) => check_array(tensors, name.as_str()),
        Request::Norm { name, offset: _ } => check_array(tensors, name.as_str()),
        Request::As { name, dtype: _ } => check_array(tensors, name.as_str()),
        Request::Transposed(name) => check_array(tensors, name.as_str()),
        Request::Zero(_) => None,
        Request::Embed(base) => match load_embed_tokens_from_tensors(tensors, base.as_str(), q) {
            Err(e) => Some(e),
            Ok(_) => None,
        },
        Request::Tied(_) => None,
        Request::Proj(base) => check_proj(tensors, q, base.as_str()),
        Request::DenseProj(base) => check_proj(tensors, q, base.as_str()),
        Request::Mxfp8 { base, group_size: _, bits: _ } => if !tensors.contains_key(
            part_name(base.as_str(), ".weight").as_str(),
        ) {
            Some(LoadError::MissingWeight)
        } else if !tensors.contains_key(part_name(base.as_str(), ".scales").as_str()) {
            Some(LoadError::MissingQuantizedScales)
        } else {
            None
        },
        Request::Packed { base, group_size, bits } => match load_quantized_with_bits(
            tensors,
            base.as_str(),
            *group_size,
            *bits,
        ) {
            Err(e) => Some(e),
            Ok(_) => None,
        },
        Request::Stack(base) => check_stack(tensors, base.as_str()),
        Request::PackedStack { base, group_size: _, bits: _ } => check_stack(
            tensors,
            base.as_str(),
        ),
        Request::Conv { name, channels, kernel } => match tensors.tensor_get(name.as_str()) {
            None => Some(LoadError::MissingWeight),
            Some(w) => if load_conv_weight(&w.shape, *channels, *kernel).is_none() {
                Some(LoadError::ConvShape)
            } else {
                None
            },
        },
        Request::Rows(base) => match projection_weight(tensors, base.as_str(), q) {
            Some(w) => match w.output_dim() {
                Err(e) => Some(LoadError::Weight(e)),
                Ok(_) => None,
            },
            None => None,
        },
        Request::Join { first, second } => match projection_weight(tensors, first.as_str(), q) {
            None => None,
            Some(a) => match projection_weight(tensors, second.as_str(), q) {
                None => None,
                Some(b) => match concat_weight_rows(&a, &b) {
                    Err(e) => Some(LoadError::Weight(e)),
                    Ok(_) => None,
                },
            },
        },
        Request::Experts { base, suffix, count } => if *count == 0 {
            Some(LoadError::Experts)
        } else if !has_experts(tensors, base.as_str(), suffix.as_str(), *count) {
            Some(LoadError::MissingWeight)
        } else {
            None
        },
        Request::Absent(e) => Some(*e),
    }
}

/// The first request that cannot be met, and why.
#[derive(Debug, Clone, Copy, PartialEq, Eq, Structural)]
pub struct LoadFault {
    pub index: usize,
    pub error: LoadError,
}

pub open spec fn first_fault(t: Infos, q: Option<QuantView>, rs: Seq<ReqView>, n: nat) -> Option<
    LoadFault,
>
    decreases n,
{
    if n == 0 {
        None
    } else {
        match first_fault(t, q, rs, (n - 1) as nat) {
            Some(f) => Some(f),
            None => match request_fault(t, q, rs[n - 1]) {
                Some(error) => Some(LoadFault { index: (n - 1) as usize, error }),
                None => None,
            },
        }
    }
}

proof fn lemma_fault_stays(t: Infos, q: Option<QuantView>, rs: Seq<ReqView>, k: nat, n: nat)
    requires
        k <= n,
        first_fault(t, q, rs, k) is Some,
    ensures
        first_fault(t, q, rs, n) == first_fault(t, q, rs, k),
    decreases n,
{
    if k < n {
        lemma_fault_stays(t, q, rs, k, (n - 1) as nat);
    }
}

/// The first of a list of requests that cannot be met.
pub fn check_requests(
    tensors: &TensorMap<ArrayInfo>,
    q: Option<&QuantConfig>,
    requests: &Vec<Request>,
) -> (f: Option<LoadFault>)
    ensures
        f == first_fault(tensors@, quant_view(q), req_views(requests@), requests@.len()),
{
    let mut i: usize = 0;
    while i < requests.len()
        invariant
            i <= requests@.len(),
            first_fault(tensors@, quant_view(q), req_views(requests@), i as nat) is None,
        decreases requests@.len() - i,
    {
        assert(req_views(requests@)[i as int] == requests@[i as int]@);
        match check_request(tensors, q, &requests[i]) {
            Some(error) => {
                proof {
                    lemma_fault_stays(
                        tensors@,
                        quant_view(q),
                        req_views(requests@),
                        (i + 1) as nat,
                        requests@.len(),
                    );
                }
                return Some(LoadFault { index: i, error });
            },
            None => {},
        }
        i = i + 1;
    }
    None
}

/// The first fault of a list comes from a request that cannot be met, and
/// every earlier one can.
pub proof fn faults_come_in_order(t: Infos, q: Option<QuantView>, rs: Seq<ReqView>, n: nat)
    requires
        n <= rs.len() <= usize::MAX,
    ensures
        match first_fault(t, q, rs, n) {
            Some(f) => {
                &&& f.index < n
                &&& request_fault(t, q, rs[f.index as int]) == Some(f.error)
                &&& forall|i: int|
                    0 <= i < f.index ==> request_fault(t, q, #[trigger] rs[i]) is None
            },
            None => forall|i: int| 0 <= i < n ==> request_fault(t, q, #[trigger] rs[i]) is None,
        },
    decreases n,
{
    if n > 0 {
        faults_come_in_order(t, q, rs, (n - 1) as nat);
    }
}

/// Every norm among some requests is corrected, or none is.
pub open spec fn norms_alike(rs: Seq<ReqView>, offset: bool) -> bool {
    forall|i: int|
        0 <= i < rs.len() ==> match #[trigger] rs[i] {
            ReqView::Norm { name, offset: own } => own == offset,
            _ => true,
        }
}

pub proof fn lemma_norms_alike_join(a: Seq<ReqView>, b: Seq<ReqView>, offset: bool)
    requires
        norms_alike(a, offset),
        norms_alike(b, offset),
    ensures
        norms_alike(a + b, offset),
{
    assert forall|i: int| 0 <= i < (a + b).len() implies match #[trigger] (a + b)[i] {
        ReqView::Norm { name, offset: own } => own == offset,
        _ => true,
    } by {
        if i < a.len() {
            assert((a + b)[i] == a[i]);
        } else {
            assert((a + b)[i] == b[i - a.len()]);
        }
    }
}

// ---- runtime calls ----

/// Calls of the runtime.
#[derive(Debug, Clone, Copy, PartialEq, Eq, Structural)]
pub enum RuntimeCall {
    SetConfig,
    SetQkGate,
    SetEmbed,
    SetEmbedAsLinear,
    RequireSelfConditioning,
    SetPerLayerEmbeddings,
    PushLayer,
    SetLayerPle,
    SetVisionConfig,
    PushVisionLayer,
    SetSelfConditioning,
    SetSamStem,
    PushSamBlock,
    SetClipStem,
    PushClipLayer,
    SetProjector,
    PushFullAttn,
    PushLinearAttn,
    PushConv,
    SetSeparateProj,
    SetSeparateMlp,
    SetMoe,
    SetDenseMoe,
    SetFcNorms,
    SetMtpNorms,
    Finalize,
}

/// Weights to register, in order, and the call that follows. A slot is the
/// index of the registered weight that stands at that place among the call's
/// weights; nothing means that the call gets none there. Arrays are handed
/// over unregistered, each in the form that its request names. Numbers and
/// flags are the call's other arguments, in order; floating-point ones are not
/// among them.
#[derive(Debug)]
pub struct Stage {
    pub call: RuntimeCall,
    pub adds: Vec<Request>,
    pub slots: Vec<Option<usize>>,
    pub arrays: Vec<Request>,
    pub numbers: Vec<i32>,
    pub flags: Vec<bool>,
}

#[verifier::ext_equal]
pub struct StageView {
    pub call: RuntimeCall,
    pub adds: Seq<ReqView>,
    pub slots: Seq<Option<usize>>,
    pub arrays: Seq<ReqView>,
    pub numbers: Seq<i32>,
    pub flags: Seq<bool>,
}

impl View for Stage {
    type V = StageView;

    open spec fn view(&self) -> StageView {
        StageView {
            call: self.call,
            adds: req_views(self.adds@),
            slots: self.slots@,
            arrays: req_views(self.arrays@),
            numbers: self.numbers@,
            flags: self.flags@,
        }
    }
}

pub open spec fn stage_views(s: Seq<Stage>) -> Seq<StageView> {
    s.map_values(|x: Stage| x@)
}

/// A call with nothing to it.
pub open spec fn bare(call: RuntimeCall) -> StageView {
    StageView {
        call,
        adds: Seq::empty(),
        slots: Seq::empty(),
        arrays: Seq::empty(),
        numbers: Seq::empty(),
        flags: Seq::empty(),
    }
}

impl Stage {
    pub fn new(call: RuntimeCall) -> (s: Self)
        ensures
            s@ == bare(call),
    {
        let s = Stage {
            call,
            adds: Vec::new(),
            slots: Vec::new(),
            arrays: Vec::new(),
            numbers: Vec::new(),
            flags: Vec::new(),
        };
        assert(s@ =~= bare(call));
        s
    }

    /// Every slot, in order, where a call takes its weights as registered.
    pub fn slots_in_order(&mut self)
        requires
            old(self).slots@.len() == 0,
        ensures
            final(self)@ == (StageView {
                slots: in_order(old(self)@.adds.len()),
                ..old(self)@
            }),
    {
        let total: usize = self.adds.len();
        let mut i: usize = 0;
        let ghost before = *self;
        while i < total
            invariant
                i <= total == self.adds@.len(),
                self.call == before.call && self.adds == before.adds && self.arrays
                    == before.arrays && self.numbers == before.numbers && self.flags
                    == before.flags,
                self.slots@.len() == i,
                forall|k: int| 0 <= k < i ==> #[trigger] self.slots@[k] == Some(k as usize),
            decreases total - i,
        {
            self.slots.push(Some(i));
            i = i + 1;
        }
        assert(self@ =~= (StageView { slots: in_order(before@.adds.len()), ..before@ }));
    }
}

pub open spec fn in_order(n: nat) -> Seq<Option<usize>> {
    Seq::new(n, |k: int| Some(k as usize))
}

/// Whether a call takes the weight that was registered at this place.
pub open spec fn has_slot(s: StageView, i: int) -> bool {
    s.slots.contains(Some(i as usize))
}

/// Every slot names a weight of the stage, and every weight of the stage has
/// exactly one slot.
pub open spec fn wired(s: StageView) -> bool {
    &&& forall|j: int|
        0 <= j < s.slots.len() ==> match #[trigger] s.slots[j] {
            Some(i) => i < s.adds.len(),
            None => true,
        }
    &&& forall|i: int| 0 <= i < s.adds.len() ==> #[trigger] has_slot(s, i)
    &&& forall|j: int, k: int|
        0 <= j < k < s.slots.len() && s.slots[j] is Some ==> #[trigger] s.slots[j]
            != #[trigger] s.slots[k]
}

/// Every norm that the stages hand over is corrected, or none is.
pub open spec fn stage_norms_alike(p: Seq<StageView>, offset: bool) -> bool {
    forall|i: int| 0 <= i < p.len() ==> norms_alike(#[trigger] p[i].arrays, offset)
}

/// The first request of a program that cannot be met.
#[derive(Debug, Clone, Copy, PartialEq, Eq, Structural)]
pub struct ProgramFault {
    pub stage: usize,
    pub fault: LoadFault,
}

pub open spec fn program_fault(t: Infos, q: Option<QuantView>, p: Seq<StageView>, n: nat) -> Option<
    ProgramFault,
>
    decreases n,
{
    if n == 0 {
        None
    } else {
        match program_fault(t, q, p, (n - 1) as nat) {
            Some(f) => Some(f),
            None => match first_fault(t, q, p[n - 1].adds, p[n - 1].adds.len()) {
                Some(fault) => Some(ProgramFault { stage: (n - 1) as usize, fault }),
                None => None,
            },
        }
    }
}

proof fn lemma_program_fault_stays(
    t: Infos,
    q: Option<QuantView>,
    p: Seq<StageView>,
    k: nat,
    n: nat,
)
    requires
        k <= n,
        program_fault(t, q, p, k) is Some,
    ensures
        program_fault(t, q, p, n) == program_fault(t, q, p, k),
    decreases n,
{
    if k < n {
        lemma_program_fault_stays(t, q, p, k, (n - 1) as nat);
    }
}

/// Where a program stops for want of a weight, if it does.
pub fn check_program(tensors: &TensorMap<ArrayInfo>, q: Option<&QuantConfig>, p: &Vec<Stage>) -> (f:
    Option<ProgramFault>)
    ensures
        f == program_fault(tensors@, quant_view(q), stage_views(p@), p@.len()),
{
    let mut i: usize = 0;
    while i < p.len()
        invariant
            i <= p@.len(),
            program_fault(tensors@, quant_view(q), stage_views(p@), i as nat) is None,
        decreases p@.len() - i,
    {
        assert(stage_views(p@)[i as int] == p@[i as int]@);
        match check_requests(tensors, q, &p[i].adds) {
            Some(fault) => {
                proof {
                    lemma_program_fault_stays(
                        tensors@,
                        quant_view(q),
                        stage_views(p@),
                        (i + 1) as nat,
                        p@.len(),
                    );
                }
                return Some(ProgramFault { stage: i, fault });
            },
            None => {},
        }
        i = i + 1;
    }
    None
}

// ---- building ----

/// A stage at the end of a program.
pub fn push_stage(p: &mut Vec<Stage>, s: Stage)
    ensures
        stage_views(final(p)@) == stage_views(old(p)@).push(s@),
{
    let ghost before = stage_views(p@);
    let ghost view = s@;
    p.push(s);
    assert(stage_views(p@) =~= before.push(view));
}

pub open spec fn indexed(prefix: Seq<char>, i: nat) -> Seq<char> {
    prefix + decimal(i)
}

/// A prefix with a number behind it.
pub fn indexed_name(prefix: &str, i: usize) -> (s: String)
    ensures
        s@ == indexed(prefix@, i as nat),
{
    let mut s: String = String::from_str(prefix);
    let n: String = decimal_string(i as u64);
    s.append(n.as_str());
    s
}

pub fn push_request(list: &mut Vec<Request>, r: Request)
    ensures
        req_views(final(list)@) == req_views(old(list)@).push(r@),
{
    let ghost before = req_views(list@);
    let ghost view = r@;
    list.push(r);
    assert(req_views(list@) =~= before.push(view));
}

pub fn want_dense(list: &mut Vec<Request>, prefix: &str, suffix: &str)
    ensures
        req_views(final(list)@) == req_views(old(list)@).push(
            ReqView::Dense(part(prefix@, suffix@)),
        ),
{
    push_request(list, Request::Dense(part_name(prefix, suffix)));
}

pub fn want_proj(list: &mut Vec<Request>, prefix: &str, suffix: &str)
    ensures
        req_views(final(list)@) == req_views(old(list)@).push(
            ReqView::Proj(part(prefix@, suffix@)),
        ),
{
    push_request(list, Request::Proj(part_name(prefix, suffix)));
}

pub fn want_norm(list: &mut Vec<Request>, prefix: &str, suffix: &str, offset: bool)
    ensures
        req_views(final(list)@) == req_views(old(list)@).push(
            (ReqView::Norm { name: part(prefix@, suffix@), offset }),
        ),
{
    push_request(list, Request::Norm { name: part_name(prefix, suffix), offset });
}

pub fn want_dense_proj(list: &mut Vec<Request>, prefix: &str, suffix: &str)
    ensures
        req_views(final(list)@) == req_views(old(list)@).push(
            ReqView::DenseProj(part(prefix@, suffix@)),
        ),
{
    push_request(list, Request::DenseProj(part_name(prefix, suffix)));
}

pub fn want_embed(list: &mut Vec<Request>, prefix: &str, suffix: &str)
    ensures
        req_views(final(list)@) == req_views(old(list)@).push(
            ReqView::Embed(part(prefix@, suffix@)),
        ),
{
    push_request(list, Request::Embed(part_name(prefix, suffix)));
}

/// A size as the runtime takes it: its low 32 bits.
pub fn low_i32(n: usize) -> (r: i32)
    ensures
        r == n as i32,
{
    #[verifier::truncate]
    (n as i32)
}

} // verus!
