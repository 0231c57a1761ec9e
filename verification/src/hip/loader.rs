//! Residency planner: the device format of every tensor, with an exact byte
//! budget, and the upload walk that follows from it.
//!
//! Keep-quantized tiers exist only for formats that the GEMV kernels serve;
//! everything else lands bf16. Routing data that the host consumes takes no
//! device bytes.
use vstd::prelude::*;

use crate::bytes::push_le;
#[allow(unused_imports)]
use crate::bytes::le;

verus! {

#[derive(Debug, Clone, Copy, PartialEq, Eq, Structural)]
pub enum KQuant {
    Q4K,
    Q5K,
    Q6K,
}

#[derive(Debug, Clone, Copy, PartialEq, Eq, Structural)]
pub enum Residency {
    KeepIq2Xxs,
    KeepQ2K,
    KeepKQuant(KQuant),
    DequantBf16,
    DequantF32,
    /// Routing data: read on the host, no device bytes.
    HostOnly,
}

/// Storage formats that the planner tells apart.
#[derive(Debug, Clone, Copy, PartialEq, Eq, Structural)]
pub enum GgmlType {
    F32,
    F16,
    Bf16,
    Q8Blocks,
    Q2K,
    Q4K,
    Q5K,
    Q6K,
    Iq2Xxs,
    I64,
    Other,
}

/// What a tensor is for, as far as the planner tells tensors apart.
#[derive(Debug, Clone, Copy, PartialEq, Eq, Structural)]
pub enum Dsv4TensorKind {
    TokenEmbedding,
    OutputHead,
    AttnQA,
    AttnQB,
    AttnKvLatent,
    AttnOutA,
    AttnOutB,
    CompressorKv,
    CompressorGate,
    IndexerProj,
    IndexerQB,
    IndexerCompressKv,
    IndexerCompressGate,
    RouterGate,
    RouterBias,
    RouterHashTable,
    RoutedExpertGate,
    RoutedExpertUp,
    RoutedExpertGateUp,
    RoutedExpertDown,
    SharedExpertGate,
    SharedExpertUp,
    SharedExpertDown,
    HyperConnection,
    HeadHyperConnection,
    Other,
}

/// A tensor's place in the model.
#[derive(Debug, Clone, Copy, PartialEq, Eq, Structural)]
pub struct TensorRole {
    pub layer: Option<usize>,
    pub kind: Dsv4TensorKind,
}

/// A tensor of a model file.
#[derive(Debug)]
pub struct TensorInfo {
    pub name: String,
    /// `None` when the name fits no role.
    pub role: Option<TensorRole>,
    pub ggml_type: GgmlType,
    pub element_count: u64,
    /// Bytes as stored; `None` when the rows do not fill whole blocks.
    pub byte_len: Option<u64>,
    /// Bytes of one stored row; `None` when a row does not fill whole blocks.
    pub row_bytes: Option<usize>,
    /// Contiguous dimension first, then rows.
    pub dims: Vec<usize>,
}

/// The first of the first `n` tensors that has a name.
pub open spec fn tensor_upto(tensors: Seq<TensorInfo>, name: Seq<char>, n: nat) -> Option<nat>
    decreases n,
{
    if n == 0 {
        None
    } else {
        match tensor_upto(tensors, name, (n - 1) as nat) {
            Some(i) => Some(i),
            None => if tensors[n - 1].name@ == name {
                Some((n - 1) as nat)
            } else {
                None
            },
        }
    }
}

/// Where a tensor stands in the model file.
pub open spec fn tensor_named(tensors: Seq<TensorInfo>, name: Seq<char>) -> Option<nat> {
    tensor_upto(tensors, name, tensors.len())
}

proof fn lemma_tensor_upto_stays(tensors: Seq<TensorInfo>, name: Seq<char>, n: nat, m: nat)
    requires
        n <= m,
        tensor_upto(tensors, name, n) is Some,
    ensures
        tensor_upto(tensors, name, m) == tensor_upto(tensors, name, n),
    decreases m,
{
    if n < m {
        lemma_tensor_upto_stays(tensors, name, n, (m - 1) as nat);
    }
}

/// Where a tensor stands in the model file.
pub fn find_tensor(tensors: &[TensorInfo], name: &String) -> (r: Option<usize>)
    ensures
        match (r, tensor_named(tensors@, name@)) {
            (Some(i), Some(k)) => i == k && i < tensors@.len(),
            (None, None) => true,
            _ => false,
        },
{
    let mut i: usize = 0;
    while i < tensors.len()
        invariant
            i <= tensors@.len(),
            tensor_upto(tensors@, name@, i as nat) is None,
        decreases tensors@.len() - i,
    {
        if tensors[i].name == *name {
            proof {
                lemma_tensor_upto_stays(tensors@, name@, (i + 1) as nat, tensors@.len());
            }
            return Some(i);
        }
        i = i + 1;
    }
    None
}

/// Whether a raw f32 is a NaN: all exponent bits set, and a mantissa bit.
pub open spec fn f32_is_nan(bits: u32) -> bool {
    bits as nat % 0x8000_0000 > 0x7f80_0000
}

/// The bf16 that a raw f32 rounds to: the nearest one, of two equally near
/// the even one; a NaN keeps a set mantissa bit.
pub open spec fn bf16_rne(bits: u32) -> u16 {
    let high = bits as nat / 0x1_0000;
    let low = bits as nat % 0x1_0000;
    if f32_is_nan(bits) {
        (high as u16) | 0x0040u16
    } else if low > 0x8000 || (low == 0x8000 && high % 2 == 1) {
        (high + 1) as u16
    } else {
        high as u16
    }
}

/// f32 to bf16, both as raw bits, rounding to nearest with ties to even; a
/// NaN keeps a set mantissa bit.
pub fn f32_to_bf16_rne(bits: u32) -> (r: u16)
    ensures
        r == bf16_rne(bits),
{
    let high: u32 = bits / 0x1_0000;
    if bits % 0x8000_0000 > 0x7f80_0000 {
        return (high as u16) | 0x0040u16;
    }
    let lsb: u32 = high % 2;
    ((bits + 0x7FFF + lsb) / 0x1_0000) as u16
}

/// Rounding a NaN gives a NaN, and rounding a number never does.
pub proof fn rounding_keeps_nan(bits: u32)
    ensures
        f32_is_nan(bits) <==> bf16_rne(bits) as nat % 0x8000 > 0x7f80,
{
    if f32_is_nan(bits) {
        let high = (bits / 0x1_0000) as u16;
        assert(high as nat % 0x8000 >= 0x7f80);
        assert((high % 0x8000) >= 0x7f80 ==> ((high | 0x0040u16) % 0x8000) > 0x7f80)
            by (bit_vector);
    }
}

/// The little-endian bf16 bytes of the first `n` values of a row of raw f32
/// values.
pub open spec fn bf16_row(row: Seq<u32>, n: nat) -> Seq<u8>
    decreases n,
{
    if n == 0 {
        Seq::empty()
    } else {
        bf16_row(row, (n - 1) as nat) + le(bf16_rne(row[n - 1]) as nat, 2)
    }
}

/// The little-endian bf16 bytes of a row of raw f32 values.
pub fn bf16_row_bytes(row: &[u32]) -> (out: Vec<u8>)
    ensures
        out@ == bf16_row(row@, row@.len()),
{
    let mut out: Vec<u8> = Vec::new();
    let mut i: usize = 0;
    while i < row.len()
        invariant
            i <= row@.len(),
            out@ == bf16_row(row@, i as nat),
        decreases row@.len() - i,
    {
        let r: u16 = f32_to_bf16_rne(row[i]);
        push_le(&mut out, r as u64, 2);
        i = i + 1;
    }
    out
}

/// The device format of a tensor.
pub open spec fn residency_of(kind: Dsv4TensorKind, ty: GgmlType) -> Residency {
    if kind is RouterHashTable || kind is RouterBias {
        Residency::HostOnly
    } else if kind is TokenEmbedding && (ty is Iq2Xxs || ty is Q2K) {
        Residency::DequantBf16
    } else {
        match ty {
            GgmlType::Iq2Xxs => Residency::KeepIq2Xxs,
            GgmlType::Q2K => Residency::KeepQ2K,
            GgmlType::Q4K => Residency::KeepKQuant(KQuant::Q4K),
            GgmlType::Q5K => Residency::KeepKQuant(KQuant::Q5K),
            GgmlType::Q6K => Residency::KeepKQuant(KQuant::Q6K),
            _ => Residency::DequantBf16,
        }
    }
}

pub fn plan_residency(kind: Dsv4TensorKind, ty: GgmlType) -> (r: Residency)
    ensures
        r == residency_of(kind, ty),
{
    match kind {
        Dsv4TensorKind::RouterHashTable | Dsv4TensorKind::RouterBias => {
            return Residency::HostOnly;
        },
        Dsv4TensorKind::TokenEmbedding => {
            match ty {
                GgmlType::Iq2Xxs | GgmlType::Q2K => {
                    return Residency::DequantBf16;
                },
                _ => {},
            }
        },
        _ => {},
    }
    match ty {
        GgmlType::Iq2Xxs => Residency::KeepIq2Xxs,
        GgmlType::Q2K => Residency::KeepQ2K,
        GgmlType::Q4K => Residency::KeepKQuant(KQuant::Q4K),
        GgmlType::Q5K => Residency::KeepKQuant(KQuant::Q5K),
        GgmlType::Q6K => Residency::KeepKQuant(KQuant::Q6K),
        _ => Residency::DequantBf16,
    }
}

/// Device bytes of a tensor, `None` when it cannot be kept as stored.
pub open spec fn device_bytes_of(residency: Residency, info: TensorInfo) -> Option<nat> {
    match residency {
        Residency::HostOnly => Some(0),
        Residency::DequantBf16 => Some(info.element_count as nat * 2),
        Residency::DequantF32 => Some(info.element_count as nat * 4),
        _ => match info.byte_len {
            Some(n) => Some(n as nat),
            None => None,
        },
    }
}

/// Exact device bytes of one tensor; `None` when its rows do not fill whole
/// blocks and it cannot be kept as stored.
pub fn device_bytes(residency: Residency, info: &TensorInfo) -> (r: Option<u64>)
    requires
        device_bytes_of(residency, *info) matches Some(n) ==> n <= u64::MAX,
    ensures
        match device_bytes_of(residency, *info) {
            Some(n) => r is Some && r->0 == n,
            None => r is None,
        },
{
    match residency {
        Residency::HostOnly => Some(0),
        Residency::DequantBf16 => Some(info.element_count * 2),
        Residency::DequantF32 => Some(info.element_count * 4),
        _ => info.byte_len,
    }
}

#[derive(Debug)]
pub struct PlannedTensor {
    pub name: String,
    pub layer: Option<usize>,
    pub kind: Dsv4TensorKind,
    pub ggml_type: GgmlType,
    pub residency: Residency,
    pub bytes: u64,
}

#[derive(Debug)]
pub struct ResidencyPlan {
    pub tensors: Vec<PlannedTensor>,
    /// Bytes of each layer; tensors without a layer count in `global_bytes`.
    pub layer_bytes: Vec<u64>,
    pub global_bytes: u64,
    pub total_bytes: u64,
}

/// Why a model cannot be planned, with the place of the offending tensor.
#[derive(Debug, Clone, Copy, PartialEq, Eq, Structural)]
pub enum PlanError {
    /// The tensor's name fits no role.
    Unclassified { tensor: usize },
    /// The tensor cannot be kept as stored.
    Unaligned { tensor: usize },
    /// The tensor names a layer past the model's.
    LayerOutOfRange { tensor: usize, layer: usize },
}

/// What is wrong with a tensor, if anything.
pub open spec fn tensor_error(info: TensorInfo, index: int, num_layers: nat) -> Option<PlanError> {
    match info.role {
        None => Some(PlanError::Unclassified { tensor: index as usize }),
        Some(role) => if device_bytes_of(residency_of(role.kind, info.ggml_type), info) is None {
            Some(PlanError::Unaligned { tensor: index as usize })
        } else {
            match role.layer {
                Some(layer) => if layer < num_layers {
                    None
                } else {
                    Some(PlanError::LayerOutOfRange { tensor: index as usize, layer })
                },
                None => None,
            }
        },
    }
}

/// Device bytes of a tensor that has any.
pub open spec fn tensor_bytes(info: TensorInfo) -> nat {
    match info.role {
        None => 0,
        Some(role) => match device_bytes_of(residency_of(role.kind, info.ggml_type), info) {
            Some(n) => n,
            None => 0,
        },
    }
}

/// Device bytes of the first `n` tensors.
pub open spec fn bytes_total(tensors: Seq<TensorInfo>, n: nat) -> nat
    decreases n,
{
    if n == 0 {
        0
    } else {
        bytes_total(tensors, (n - 1) as nat) + tensor_bytes(tensors[n - 1])
    }
}

/// Device bytes of those of the first `n` tensors that belong to `layer`.
pub open spec fn bytes_of_layer(tensors: Seq<TensorInfo>, n: nat, layer: Option<usize>) -> nat
    decreases n,
{
    if n == 0 {
        0
    } else {
        let here = match tensors[n - 1].role {
            Some(role) => role.layer == layer,
            None => false,
        };
        bytes_of_layer(tensors, (n - 1) as nat, layer) + if here {
            tensor_bytes(tensors[n - 1])
        } else {
            0
        }
    }
}

proof fn lemma_bytes_bounded(tensors: Seq<TensorInfo>, n: nat, m: nat, layer: Option<usize>)
    requires
        n <= m,
    ensures
        bytes_of_layer(tensors, n, layer) <= bytes_total(tensors, n) <= bytes_total(tensors, m),
    decreases m,
{
    if n < m {
        lemma_bytes_bounded(tensors, n, (m - 1) as nat, layer);
    } else if n > 0 {
        lemma_bytes_bounded(tensors, (n - 1) as nat, (n - 1) as nat, layer);
    }
}

/// A planned tensor says of its tensor what the planner decides.
pub open spec fn planned_ok(info: TensorInfo, p: PlannedTensor) -> bool {
    &&& info.role is Some
    &&& p.name@ == info.name@
    &&& p.layer == info.role->0.layer
    &&& p.kind == info.role->0.kind
    &&& p.ggml_type == info.ggml_type
    &&& p.residency == residency_of(info.role->0.kind, info.ggml_type)
    &&& p.bytes == tensor_bytes(info)
}

/// The plan of a list of tensors without errors.
pub open spec fn plan_ok(tensors: Seq<TensorInfo>, num_layers: nat, plan: ResidencyPlan) -> bool {
    &&& plan.tensors@.len() == tensors.len()
    &&& forall|i: int|
        0 <= i < tensors.len() ==> planned_ok(tensors[i], #[trigger] plan.tensors@[i])
    &&& plan.layer_bytes@.len() == num_layers
    &&& forall|l: int|
        0 <= l < num_layers ==> #[trigger] plan.layer_bytes@[l] == bytes_of_layer(
            tensors,
            tensors.len(),
            Some(l as usize),
        )
    &&& plan.global_bytes == bytes_of_layer(tensors, tensors.len(), None)
    &&& plan.total_bytes == bytes_total(tensors, tensors.len())
}

/// `i` is the first tensor with an error, and `e` is that error.
pub open spec fn first_error(
    tensors: Seq<TensorInfo>,
    num_layers: nat,
    i: int,
    e: PlanError,
) -> bool {
    &&& 0 <= i < tensors.len()
    &&& tensor_error(tensors[i], i, num_layers) == Some(e)
    &&& no_error_before(tensors, num_layers, i)
}

/// The bytes of every tensor that is looked at fit, and so does what they add
/// up to before the first error.
pub open spec fn plan_fits(tensors: Seq<TensorInfo>, num_layers: nat) -> bool {
    forall|i: int|
        0 <= i < tensors.len() && no_error_before(tensors, num_layers, i) ==> {
            &&& tensor_bytes(#[trigger] tensors[i]) <= u64::MAX
            &&& tensor_error(tensors[i], i, num_layers) is None ==> bytes_total(
                tensors,
                (i + 1) as nat,
            ) <= u64::MAX
        }
}

pub open spec fn no_error_before(tensors: Seq<TensorInfo>, num_layers: nat, i: int) -> bool {
    forall|j: int| 0 <= j < i ==> tensor_error(#[trigger] tensors[j], j, num_layers) is None
}

/// Plans every tensor, or names the first that cannot be planned.
pub fn plan_model(tensors: &[TensorInfo], num_layers: usize) -> (r: Result<
    ResidencyPlan,
    PlanError,
>)
    requires
        plan_fits(tensors@, num_layers as nat),
    ensures
        match r {
            Ok(plan) => plan_ok(tensors@, num_layers as nat, plan) && no_error_before(
                tensors@,
                num_layers as nat,
                tensors@.len() as int,
            ),
            Err(e) => exists|i: int| #[trigger] first_error(tensors@, num_layers as nat, i, e),
        },
{
    let mut planned: Vec<PlannedTensor> = Vec::new();
    let mut layer_bytes: Vec<u64> = Vec::new();
    let mut global_bytes: u64 = 0;
    let mut total_bytes: u64 = 0;
    let mut l: usize = 0;
    while l < num_layers
        invariant
            l <= num_layers,
            layer_bytes@.len() == l,
            forall|j: int| 0 <= j < l ==> #[trigger] layer_bytes@[j] == 0,
        decreases num_layers - l,
    {
        layer_bytes.push(0);
        l = l + 1;
    }
    let mut i: usize = 0;
    while i < tensors.len()
        invariant
            i <= tensors@.len(),
            plan_fits(tensors@, num_layers as nat),
            planned@.len() == i,
            forall|j: int| 0 <= j < i ==> planned_ok(tensors@[j], #[trigger] planned@[j]),
            no_error_before(tensors@, num_layers as nat, i as int),
            layer_bytes@.len() == num_layers,
            forall|l: int|
                0 <= l < num_layers ==> #[trigger] layer_bytes@[l] == bytes_of_layer(
                    tensors@,
                    i as nat,
                    Some(l as usize),
                ),
            global_bytes == bytes_of_layer(tensors@, i as nat, None),
            total_bytes == bytes_total(tensors@, i as nat),
        decreases tensors@.len() - i,
    {
        let info = &tensors[i];
        assert(tensor_bytes(tensors@[i as int]) <= u64::MAX);
        let role: TensorRole = match info.role {
            Some(role) => role,
            None => {
                let e = PlanError::Unclassified { tensor: i };
                assert(first_error(tensors@, num_layers as nat, i as int, e));
                return Err(e);
            },
        };
        let residency = plan_residency(role.kind, info.ggml_type);
        let bytes: u64 = match device_bytes(residency, info) {
            Some(bytes) => bytes,
            None => {
                let e = PlanError::Unaligned { tensor: i };
                assert(first_error(tensors@, num_layers as nat, i as int, e));
                return Err(e);
            },
        };
        proof {
            lemma_bytes_bounded(tensors@, i as nat, i as nat, role.layer);
        }
        match role.layer {
            Some(layer) => {
                if layer < num_layers {
                    let sum: u64 = layer_bytes[layer] + bytes;
                    layer_bytes[layer] = sum;
                } else {
                    let e = PlanError::LayerOutOfRange { tensor: i, layer };
                    assert(first_error(tensors@, num_layers as nat, i as int, e));
                    return Err(e);
                }
            },
            None => {
                global_bytes = global_bytes + bytes;
            },
        }
        total_bytes = total_bytes + bytes;
        planned.push(
            PlannedTensor {
                name: info.name.clone(),
                layer: role.layer,
                kind: role.kind,
                ggml_type: info.ggml_type,
                residency,
                bytes,
            },
        );
        i = i + 1;
    }
    Ok(ResidencyPlan { tensors: planned, layer_bytes, global_bytes, total_bytes })
}

/// Bytes of the first `n` layers.
pub open spec fn bytes_of_layers(tensors: Seq<TensorInfo>, n: nat) -> nat
    decreases n,
{
    if n == 0 {
        0
    } else {
        bytes_of_layers(tensors, (n - 1) as nat) + bytes_of_layer(
            tensors,
            tensors.len(),
            Some((n - 1) as usize),
        )
    }
}

proof fn lemma_drop_last_bytes(tensors: Seq<TensorInfo>, n: nat, layer: Option<usize>)
    requires
        n < tensors.len(),
    ensures
        bytes_of_layer(tensors.drop_last(), n, layer) == bytes_of_layer(tensors, n, layer),
        bytes_total(tensors.drop_last(), n) == bytes_total(tensors, n),
    decreases n,
{
    if n > 0 {
        lemma_drop_last_bytes(tensors, (n - 1) as nat, layer);
    }
}

proof fn lemma_bytes_of_layers_step(tensors: Seq<TensorInfo>, n: nat)
    requires
        tensors.len() > 0,
        n <= usize::MAX,
        tensors.last().role is Some,
    ensures
        bytes_of_layers(tensors, n) == bytes_of_layers(tensors.drop_last(), n) + (
        match tensors.last().role->0.layer {
            Some(l) => if l < n {
                tensor_bytes(tensors.last())
            } else {
                0
            },
            None => 0,
        }),
    decreases n,
{
    if n > 0 {
        lemma_bytes_of_layers_step(tensors, (n - 1) as nat);
        lemma_drop_last_bytes(tensors, (tensors.len() - 1) as nat, Some((n - 1) as usize));
    }
}

/// The budget adds up: a planned model takes the bytes of its layers and of
/// the tensors outside them, and no others.
pub proof fn budget_adds_up(tensors: Seq<TensorInfo>, num_layers: nat)
    requires
        num_layers <= usize::MAX,
        no_error_before(tensors, num_layers, tensors.len() as int),
    ensures
        bytes_total(tensors, tensors.len()) == bytes_of_layer(tensors, tensors.len(), None)
            + bytes_of_layers(tensors, num_layers),
    decreases tensors.len(),
{
    if tensors.len() == 0 {
        lemma_no_layer_bytes(tensors, num_layers);
    } else {
        let rest = tensors.drop_last();
        let last = tensors.last();
        assert(tensor_error(tensors[tensors.len() - 1], tensors.len() - 1, num_layers) is None);
        assert forall|i: int| 0 <= i < rest.len() implies tensor_error(
            #[trigger] rest[i],
            i,
            num_layers,
        ) is None by {
            assert(tensor_error(tensors[i], i, num_layers) is None);
        }
        budget_adds_up(rest, num_layers);
        lemma_bytes_of_layers_step(tensors, num_layers);
        lemma_drop_last_bytes(tensors, (tensors.len() - 1) as nat, None);
    }
}

proof fn lemma_no_layer_bytes(tensors: Seq<TensorInfo>, n: nat)
    requires
        tensors.len() == 0,
    ensures
        bytes_of_layers(tensors, n) == 0,
    decreases n,
{
    if n > 0 {
        lemma_no_layer_bytes(tensors, (n - 1) as nat);
    }
}

/// A tensor on the device, as far as the host reads it.
#[derive(Debug)]
pub struct DeviceTensor {
    pub name: String,
    pub residency: Residency,
}

/// How a tensor's bytes get to the device.
#[derive(Debug, Clone, Copy, PartialEq, Eq, Structural)]
pub enum UploadMode {
    /// As stored.
    Raw,
    /// Dequantized to f32.
    F32,
    /// Dequantized to f32, then rounded to bf16.
    Bf16,
}

/// One step of the upload walk.
#[derive(Debug, Clone, Copy, PartialEq, Eq, Structural)]
pub struct UploadStep {
    pub tensor: usize,
    pub bytes: u64,
    pub mode: UploadMode,
}

pub open spec fn upload_mode(residency: Residency) -> Option<UploadMode> {
    match residency {
        Residency::HostOnly => None,
        Residency::DequantF32 => Some(UploadMode::F32),
        Residency::DequantBf16 => Some(UploadMode::Bf16),
        _ => Some(UploadMode::Raw),
    }
}

/// The steps for the first `n` tensors: one per tensor that takes device
/// bytes, in order.
pub open spec fn upload_steps(tensors: Seq<PlannedTensor>, n: nat) -> Seq<UploadStep>
    decreases n,
{
    if n == 0 {
        Seq::empty()
    } else {
        let done = upload_steps(tensors, (n - 1) as nat);
        match upload_mode(tensors[n - 1].residency) {
            Some(mode) => done.push(
                UploadStep { tensor: (n - 1) as usize, bytes: tensors[n - 1].bytes, mode },
            ),
            None => done,
        }
    }
}

/// The upload walk of a plan.
pub fn upload_plan(plan: &ResidencyPlan) -> (steps: Vec<UploadStep>)
    ensures
        steps@ == upload_steps(plan.tensors@, plan.tensors@.len()),
{
    let mut steps: Vec<UploadStep> = Vec::new();
    let mut i: usize = 0;
    while i < plan.tensors.len()
        invariant
            i <= plan.tensors@.len(),
            steps@ == upload_steps(plan.tensors@, i as nat),
        decreases plan.tensors@.len() - i,
    {
        let bytes: u64 = plan.tensors[i].bytes;
        match plan.tensors[i].residency {
            Residency::HostOnly => {},
            Residency::DequantF32 => {
                steps.push(UploadStep { tensor: i, bytes, mode: UploadMode::F32 });
            },
            Residency::DequantBf16 => {
                steps.push(UploadStep { tensor: i, bytes, mode: UploadMode::Bf16 });
            },
            Residency::KeepIq2Xxs | Residency::KeepQ2K | Residency::KeepKQuant(_) => {
                steps.push(UploadStep { tensor: i, bytes, mode: UploadMode::Raw });
            },
        }
        i = i + 1;
    }
    steps
}

/// Whether the host can dequantize a format.
pub fn dequant_f32(ty: GgmlType) -> (b: bool)
    ensures
        b == !(ty is Iq2Xxs || ty is I64 || ty is Other),
{
    match ty {
        GgmlType::F32 | GgmlType::F16 | GgmlType::Bf16 | GgmlType::Q8Blocks | GgmlType::Q2K
        | GgmlType::Q4K | GgmlType::Q5K | GgmlType::Q6K => true,
        GgmlType::Iq2Xxs | GgmlType::I64 | GgmlType::Other => false,
    }
}

} // verus!
