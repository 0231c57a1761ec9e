//! Weights of projections and how their rows are joined.
use vstd::prelude::*;

use crate::metal::mlx::Dtype;

verus! {

/// An array as far as loading depends on it.
#[derive(Debug)]
pub struct ArrayInfo {
    pub shape: Vec<i32>,
    pub dtype: Dtype,
}

#[verifier::ext_equal]
pub struct InfoView {
    pub shape: Seq<i32>,
    pub dtype: Dtype,
}

impl View for ArrayInfo {
    type V = InfoView;

    open spec fn view(&self) -> InfoView {
        InfoView { shape: self.shape@, dtype: self.dtype }
    }
}

/// A projection's weight.
#[derive(Debug)]
pub enum WeightTensor {
    /// Transposed: inputs by outputs.
    Dense(ArrayInfo),
    /// Packed: outputs by packed inputs, with scales and, unless the format
    /// has none, biases per group.
    Quantized {
        w: ArrayInfo,
        scales: ArrayInfo,
        biases: Option<Dtype>,
        group_size: i32,
        bits: i32,
    },
}

#[verifier::ext_equal]
pub enum WeightView {
    Dense(InfoView),
    Quantized {
        w: InfoView,
        scales: InfoView,
        biases: Option<Dtype>,
        group_size: i32,
        bits: i32,
    },
}

impl View for WeightTensor {
    type V = WeightView;

    open spec fn view(&self) -> WeightView {
        match *self {
            WeightTensor::Dense(w) => WeightView::Dense(w@),
            WeightTensor::Quantized { w, scales, biases, group_size, bits } => {
                WeightView::Quantized { w: w@, scales: scales@, biases, group_size, bits }
            },
        }
    }
}

#[derive(Debug, Clone, Copy, PartialEq, Eq, Structural)]
pub enum WeightError {
    DenseOutputDim,
    QuantizedOutputDim,
    PackedInputDim,
    ScaleGroupDim,
}

impl WeightView {
    /// Number of outputs.
    pub open spec fn rows(self) -> Result<i32, WeightError> {
        match self {
            WeightView::Dense(w) => if w.shape.len() > 1 {
                Ok(w.shape[1])
            } else {
                Err(WeightError::DenseOutputDim)
            },
            WeightView::Quantized { w, .. } => if w.shape.len() > 0 {
                Ok(w.shape[0])
            } else {
                Err(WeightError::QuantizedOutputDim)
            },
        }
    }

    /// Bits per packed value, nothing for a dense weight.
    pub open spec fn width(self) -> Option<i32> {
        match self {
            WeightView::Dense(_) => None,
            WeightView::Quantized { bits, .. } => Some(bits),
        }
    }
}

impl WeightTensor {
    pub fn output_dim(&self) -> (r: Result<i32, WeightError>)
        ensures
            r == self@.rows(),
    {
        match self {
            WeightTensor::Dense(w) => if w.shape.len() > 1 {
                Ok(w.shape[1])
            } else {
                Err(WeightError::DenseOutputDim)
            },
            WeightTensor::Quantized { w, .. } => if w.shape.len() > 0 {
                Ok(w.shape[0])
            } else {
                Err(WeightError::QuantizedOutputDim)
            },
        }
    }

    pub fn quant_bits(&self) -> (r: Option<i32>)
        ensures
            r == self@.width(),
    {
        match self {
            WeightTensor::Dense(_) => None,
            WeightTensor::Quantized { bits, .. } => Some(*bits),
        }
    }
}

/// What weights must share for their rows to be joined as they are.
#[derive(Debug, Clone, Copy, PartialEq, Eq, Structural)]
pub struct RowLayout {
    pub group_size: i32,
    pub bits: i32,
    pub packed_in: i32,
    pub group_cols: i32,
    pub w_dtype: Dtype,
    pub scales_dtype: Dtype,
    pub biases_dtype: Option<Dtype>,
}

/// The layout of a packed weight, nothing for a dense one.
pub open spec fn layout_of(t: WeightView) -> Result<Option<RowLayout>, WeightError> {
    match t {
        WeightView::Dense(_) => Ok(None),
        WeightView::Quantized { w, scales, biases, group_size, bits } => if w.shape.len() < 2 {
            Err(WeightError::PackedInputDim)
        } else if scales.shape.len() < 2 {
            Err(WeightError::ScaleGroupDim)
        } else {
            Ok(
                Some(
                    RowLayout {
                        group_size,
                        bits,
                        packed_in: w.shape[1],
                        group_cols: scales.shape[1],
                        w_dtype: w.dtype,
                        scales_dtype: scales.dtype,
                        biases_dtype: biases,
                    },
                ),
            )
        },
    }
}

fn row_layout(t: &WeightTensor) -> (r: Result<Option<RowLayout>, WeightError>)
    ensures
        r == layout_of(t@),
{
    match t {
        WeightTensor::Dense(_) => Ok(None),
        WeightTensor::Quantized { w, scales, biases, group_size, bits } => {
            if w.shape.len() < 2 {
                return Err(WeightError::PackedInputDim);
            }
            if scales.shape.len() < 2 {
                return Err(WeightError::ScaleGroupDim);
            }
            Ok(
                Some(
                    RowLayout {
                        group_size: *group_size,
                        bits: *bits,
                        packed_in: w.shape[1],
                        group_cols: scales.shape[1],
                        w_dtype: w.dtype,
                        scales_dtype: scales.dtype,
                        biases_dtype: *biases,
                    },
                ),
            )
        },
    }
}

/// The layout that the first `n` weights share. The first weight that is
/// malformed, dense or of another layout decides.
pub open spec fn shared_layout(ws: Seq<WeightView>, n: nat) -> Result<
    Option<RowLayout>,
    WeightError,
>
    decreases n,
{
    if n == 0 {
        Ok(None)
    } else if n == 1 {
        layout_of(ws[0])
    } else {
        match shared_layout(ws, (n - 1) as nat) {
            Ok(Some(first)) => match layout_of(ws[n - 1]) {
                Ok(Some(l)) => if l == first {
                    Ok(Some(first))
                } else {
                    Ok(None)
                },
                other => other,
            },
            stop => stop,
        }
    }
}

proof fn lemma_stop(ws: Seq<WeightView>, k: nat, n: nat)
    requires
        1 <= k <= n,
        !(shared_layout(ws, k) matches Ok(Some(_))),
    ensures
        shared_layout(ws, n) == shared_layout(ws, k),
    decreases n,
{
    if k < n {
        lemma_stop(ws, k, (n - 1) as nat);
    }
}

pub open spec fn weight_views(ws: Seq<&WeightTensor>) -> Seq<WeightView> {
    ws.map_values(|w: &WeightTensor| w@)
}

/// Whether packed weights can be joined row by row as they are, and in which
/// layout.
pub fn merge_quantized_projection_rows(weights: &Vec<&WeightTensor>) -> (r: Result<
    Option<RowLayout>,
    WeightError,
>)
    ensures
        r == shared_layout(weight_views(weights@), weights@.len()),
{
    let ghost ws = weight_views(weights@);
    if weights.len() == 0 {
        return Ok(None);
    }
    assert(ws[0] == weights@[0]@);
    let first: RowLayout = match row_layout(weights[0]) {
        Ok(Some(l)) => l,
        other => {
            proof {
                lemma_stop(ws, 1, ws.len());
            }
            return other;
        },
    };
    let mut k: usize = 1;
    while k < weights.len()
        invariant
            1 <= k <= weights@.len(),
            ws == weight_views(weights@),
            shared_layout(ws, k as nat) == Ok::<Option<RowLayout>, WeightError>(Some(first)),
        decreases weights@.len() - k,
    {
        assert(ws[k as int] == weights@[k as int]@);
        match row_layout(weights[k]) {
            Ok(Some(l)) => {
                if l != first {
                    proof {
                        lemma_stop(ws, (k + 1) as nat, ws.len());
                    }
                    return Ok(None);
                }
            },
            other => {
                proof {
                    lemma_stop(ws, (k + 1) as nat, ws.len());
                }
                return other;
            },
        }
        k = k + 1;
    }
    Ok(Some(first))
}

/// How two weights are joined along their outputs.
#[derive(Debug, Clone, Copy, PartialEq, Eq, Structural)]
pub enum RowConcat {
    /// As they are, in the layout they share.
    Packed(RowLayout),
    /// Each made dense first.
    Dense,
}

pub open spec fn joined(lhs: WeightView, rhs: WeightView) -> Result<RowConcat, WeightError> {
    match shared_layout(seq![lhs, rhs], 2) {
        Err(e) => Err(e),
        Ok(Some(l)) => Ok(RowConcat::Packed(l)),
        Ok(None) => Ok(RowConcat::Dense),
    }
}

/// How to join the rows of two weights: packed where their layouts agree,
/// dense otherwise.
pub fn concat_weight_rows(lhs: &WeightTensor, rhs: &WeightTensor) -> (r: Result<
    RowConcat,
    WeightError,
>)
    ensures
        r == joined(lhs@, rhs@),
{
    let mut pair: Vec<&WeightTensor> = Vec::new();
    pair.push(lhs);
    pair.push(rhs);
    assert(weight_views(pair@) =~= seq![lhs@, rhs@]);
    match merge_quantized_projection_rows(&pair) {
        Err(e) => Err(e),
        Ok(Some(l)) => Ok(RowConcat::Packed(l)),
        Ok(None) => Ok(RowConcat::Dense),
    }
}

/// Weights of different widths are never joined packed.
pub proof fn mixed_widths_join_dense(lhs: WeightView, rhs: WeightView)
    requires
        lhs.width() != rhs.width(),
    ensures
        !(joined(lhs, rhs) matches Ok(RowConcat::Packed(_))),
{
    reveal_with_fuel(shared_layout, 3);
}

} // verus!
