//! Per-slot cache arithmetic: capacities, token-axis slices, array layouts
//! and the lengths that a live slot tracks.
use vstd::prelude::*;

use crate::math::max_usize;
#[allow(unused_imports)]
use crate::math::max_nat;
use crate::metal::mlx::Dtype;

verus! {

/// Cache capacities are whole chunks of this many tokens.
pub const KV_CACHE_CHUNK: i32 = 256;

/// The most tokens whose capacity, rounded up to whole chunks, is an `i32`.
pub const MAX_ROUNDED_TOKENS: usize = 0x7fff_ff00;

/// How the cache holds keys and values.
#[derive(Debug, Clone, Copy, PartialEq, Eq, Structural)]
pub enum MetalKvCacheDtype {
    Bf16,
    Int8,
}

/// A storage type that a request may name, whatever the backend.
#[derive(Debug, Clone, Copy, PartialEq, Eq, Structural)]
pub enum KvCacheDtype {
    Auto,
    Bf16,
    Int8,
    Fp8,
    Tq4,
}

/// A requested storage type that this backend does not have.
#[derive(Debug, Clone, Copy, PartialEq, Eq, Structural)]
pub struct UnsupportedDtype {
    pub requested: KvCacheDtype,
}

impl Default for MetalKvCacheDtype {
    fn default() -> (d: Self)
        ensures
            d == MetalKvCacheDtype::Int8,
    {
        MetalKvCacheDtype::Int8
    }
}

impl MetalKvCacheDtype {
    pub fn label(self) -> (s: &'static str)
        ensures
            s@ == match self {
                MetalKvCacheDtype::Bf16 => "bf16"@,
                MetalKvCacheDtype::Int8 => "int8"@,
            },
    {
        match self {
            MetalKvCacheDtype::Bf16 => "bf16",
            MetalKvCacheDtype::Int8 => "int8",
        }
    }

    /// The storage type for a request. An open request gets INT8; the
    /// storage types of other backends are refused, never downgraded.
    pub fn resolve(requested: KvCacheDtype) -> (r: Result<MetalKvCacheDtype, UnsupportedDtype>)
        ensures
            r == match requested {
                KvCacheDtype::Auto | KvCacheDtype::Int8 => Ok::<
                    MetalKvCacheDtype,
                    UnsupportedDtype,
                >(MetalKvCacheDtype::Int8),
                KvCacheDtype::Bf16 => Ok(MetalKvCacheDtype::Bf16),
                KvCacheDtype::Fp8 | KvCacheDtype::Tq4 => Err(UnsupportedDtype { requested }),
            },
    {
        match requested {
            KvCacheDtype::Auto | KvCacheDtype::Int8 => Ok(MetalKvCacheDtype::Int8),
            KvCacheDtype::Bf16 => Ok(MetalKvCacheDtype::Bf16),
            KvCacheDtype::Fp8 | KvCacheDtype::Tq4 => Err(UnsupportedDtype { requested }),
        }
    }
}

/// Why cache arrays cannot be sliced, grown or read.
#[derive(Debug, Clone, Copy, PartialEq, Eq, Structural)]
pub enum SlotError {
    ExceedsI32 { value: usize },
    NotRank4 { rank: usize },
    RangeExceeds { start: usize, end: usize },
    HeadDim { head_dim: usize },
    BeyondCache { asked: usize, cache_len: usize },
    NotGrouped { arrays: usize },
    WrongDtype { layer: usize, axis: usize, found: Dtype },
    ShapeMismatch { prefix_tokens: usize },
}

pub open spec fn fits_i32(value: nat) -> bool {
    value <= i32::MAX
}

pub fn usize_to_i32(value: usize) -> (r: Result<i32, SlotError>)
    ensures
        fits_i32(value as nat) ==> r is Ok && r->Ok_0 == value,
        !fits_i32(value as nat) ==> r == Err::<i32, SlotError>(SlotError::ExceedsI32 { value }),
{
    if value as u64 <= 0x7fff_ffffu64 {
        Ok(value as i32)
    } else {
        Err(SlotError::ExceedsI32 { value })
    }
}

/// The least multiple of the chunk that holds at least one token and all of
/// `tokens`.
pub open spec fn rounded(tokens: nat) -> nat {
    (max_nat(tokens, 1) + 255) / 256 * 256
}

pub fn round_up_capacity(tokens: usize) -> (capacity: i32)
    requires
        tokens <= MAX_ROUNDED_TOKENS,
    ensures
        capacity == rounded(tokens as nat),
        capacity >= 256,
        capacity >= tokens,
        capacity < tokens + 257,
{
    let t: i32 = max_usize(tokens, 1) as i32;
    ((t + (KV_CACHE_CHUNK - 1)) / KV_CACHE_CHUNK) * KV_CACHE_CHUNK
}

/// A rounded capacity holds the tokens, is whole chunks, and wastes less than
/// one chunk.
pub proof fn rounded_is_tight(tokens: nat)
    ensures
        rounded(tokens) >= tokens,
        rounded(tokens) % 256 == 0,
        tokens >= 1 ==> rounded(tokens) < tokens + 256,
        rounded(rounded(tokens)) == rounded(tokens),
{
}

/// The largest supported group that divides the head dimension.
pub open spec fn group_size(head_dim: nat) -> Option<nat> {
    if head_dim % 128 == 0 {
        Some(128)
    } else if head_dim % 64 == 0 {
        Some(64)
    } else if head_dim % 32 == 0 {
        Some(32)
    } else {
        None
    }
}

pub fn int8_kv_group_size(head_dim: usize) -> (r: Result<usize, SlotError>)
    ensures
        match group_size(head_dim as nat) {
            Some(g) => r is Ok && r->Ok_0 == g,
            None => r == Err::<usize, SlotError>(SlotError::HeadDim { head_dim }),
        },
{
    if head_dim % 128 == 0 {
        Ok(128)
    } else if head_dim % 64 == 0 {
        Ok(64)
    } else if head_dim % 32 == 0 {
        Ok(32)
    } else {
        Err(SlotError::HeadDim { head_dim })
    }
}

/// A head dimension can be held in INT8 exactly when 32 divides it, and the
/// group always divides it.
pub proof fn group_divides_head(head_dim: nat)
    ensures
        group_size(head_dim) is Some <==> head_dim % 32 == 0,
        group_size(head_dim) matches Some(g) ==> head_dim % g == 0 && g > 0,
{
}

pub fn validate_int8_kv_config(head_dim: usize) -> (r: Result<(), SlotError>)
    ensures
        head_dim % 32 == 0 ==> r is Ok,
        head_dim % 32 != 0 ==> r == Err::<(), SlotError>(SlotError::HeadDim { head_dim }),
{
    match int8_kv_group_size(head_dim) {
        Err(e) => Err(e),
        Ok(_) => Ok(()),
    }
}

/// `a * b`, at most `usize::MAX`.
pub open spec fn sat(a: nat, b: nat) -> nat {
    if a * b > usize::MAX {
        usize::MAX as nat
    } else {
        a * b
    }
}

pub open spec fn sat_plus(a: nat, b: nat) -> nat {
    if a + b > usize::MAX {
        usize::MAX as nat
    } else {
        a + b
    }
}

fn times(a: usize, b: usize) -> (r: usize)
    ensures
        r == sat(a as nat, b as nat),
{
    match a.checked_mul(b) {
        Some(p) => p,
        None => usize::MAX,
    }
}

fn plus(a: usize, b: usize) -> (r: usize)
    ensures
        r == sat_plus(a as nat, b as nat),
{
    match a.checked_add(b) {
        Some(p) => p,
        None => usize::MAX,
    }
}

/// Bytes that one cache page takes over all full-attention layers, at most
/// `usize::MAX`: two bf16 tensors per layer, or two packed 4-byte tensors
/// with a bf16 scale and bias per group each.
pub open spec fn page_bytes_of(
    layers: nat,
    nkv: nat,
    head_dim: nat,
    dtype: MetalKvCacheDtype,
    page_size: nat,
) -> nat {
    match dtype {
        MetalKvCacheDtype::Bf16 => sat(
            sat(sat(sat(sat(layers, 2), nkv), page_size), head_dim),
            2,
        ),
        MetalKvCacheDtype::Int8 => {
            let g = match group_size(head_dim) {
                Some(g) => g,
                None => 128,
            };
            let packed = sat(sat(sat(nkv, page_size), head_dim / 4), 4);
            let side = sat(sat(sat(nkv, page_size), head_dim / g), 2);
            sat(layers, sat_plus(sat(packed, 2), sat(side, 4)))
        },
    }
}

pub fn estimated_metal_kv_page_bytes(
    layers: usize,
    nkv: usize,
    head_dim: usize,
    dtype: MetalKvCacheDtype,
    page_size: usize,
) -> (bytes: usize)
    ensures
        bytes == page_bytes_of(
            layers as nat,
            nkv as nat,
            head_dim as nat,
            dtype,
            page_size as nat,
        ),
{
    match dtype {
        MetalKvCacheDtype::Bf16 => times(
            times(times(times(times(layers, 2), nkv), page_size), head_dim),
            2,
        ),
        MetalKvCacheDtype::Int8 => {
            let group: usize = match int8_kv_group_size(head_dim) {
                Ok(g) => g,
                Err(_) => 128,
            };
            let packed: usize = times(times(times(nkv, page_size), head_dim / 4), 4);
            let side: usize = times(times(times(nkv, page_size), head_dim / group), 2);
            times(layers, plus(times(packed, 2), times(side, 4)))
        },
    }
}

/// Element type and shape of an array to be allocated.
#[derive(Debug)]
pub struct ArraySpec {
    pub dtype: Dtype,
    pub shape: Vec<i32>,
}

#[verifier::ext_equal]
pub struct SpecView {
    pub dtype: Dtype,
    pub shape: Seq<i32>,
}

impl View for ArraySpec {
    type V = SpecView;

    open spec fn view(&self) -> SpecView {
        SpecView { dtype: self.dtype, shape: self.shape@ }
    }
}

pub open spec fn spec_views(s: Seq<ArraySpec>) -> Seq<SpecView> {
    s.map_values(|a: ArraySpec| a@)
}

pub open spec fn rank4(dtype: Dtype, nkv: int, capacity: int, width: int) -> SpecView {
    SpecView { dtype, shape: seq![1i32, nkv as i32, capacity as i32, width as i32] }
}

/// The arrays of one full-attention layer: K and V, or for each of them the
/// packed values, scales and biases.
pub open spec fn layer_arrays(
    dtype: MetalKvCacheDtype,
    nkv: int,
    head_dim: nat,
    capacity: int,
) -> Seq<SpecView> {
    match dtype {
        MetalKvCacheDtype::Bf16 => seq![
            rank4(Dtype::Bfloat16, nkv, capacity, head_dim as int),
            rank4(Dtype::Bfloat16, nkv, capacity, head_dim as int),
        ],
        MetalKvCacheDtype::Int8 => {
            let packed = rank4(Dtype::Uint32, nkv, capacity, (head_dim / 4) as int);
            let side = rank4(
                Dtype::Bfloat16,
                nkv,
                capacity,
                (head_dim / group_size(head_dim)->0) as int,
            );
            seq![packed, side, side, packed, side, side]
        },
    }
}

pub open spec fn repeat<T>(block: Seq<T>, n: nat) -> Seq<T>
    decreases n,
{
    if n == 0 {
        Seq::empty()
    } else {
        repeat(block, (n - 1) as nat) + block
    }
}

pub proof fn lemma_repeat<T>(block: Seq<T>, n: nat)
    ensures
        repeat(block, n).len() == block.len() * n,
        forall|i: int|
            0 <= i < block.len() * n ==> #[trigger] repeat(block, n)[i] == block[i
                % block.len() as int],
    decreases n,
{
    if n > 0 {
        lemma_repeat(block, (n - 1) as nat);
        let m = block.len();
        let front = repeat(block, (n - 1) as nat);
        assert(m * n == m * (n - 1) + m) by (nonlinear_arith)
            requires
                n >= 1,
        ;
        assert forall|i: int| 0 <= i < m * n implies #[trigger] repeat(block, n)[i] == block[i
            % m as int] by {
            if i >= m * (n - 1) {
                let j = i - m * (n - 1);
                vstd::arithmetic::div_mod::lemma_fundamental_div_mod_converse(
                    i,
                    m as int,
                    n - 1,
                    j,
                );
            }
        }
    } else {
        assert(block.len() * n == 0) by (nonlinear_arith)
            requires
                n == 0,
        ;
    }
}

fn array4(dtype: Dtype, nkv: i32, capacity: i32, width: i32) -> (a: ArraySpec)
    ensures
        a@ == rank4(dtype, nkv as int, capacity as int, width as int),
{
    let shape: Vec<i32> = vec![1i32, nkv, capacity, width];
    assert(shape@ =~= seq![1i32, nkv, capacity, width]);
    ArraySpec { dtype, shape }
}

/// The cache arrays of a slot, layer after layer.
pub fn allocate_kv_flat(
    layers: usize,
    nkv: usize,
    head_dim: usize,
    dtype: MetalKvCacheDtype,
    capacity: i32,
) -> (arrays: Vec<ArraySpec>)
    requires
        fits_i32(nkv as nat),
        fits_i32(head_dim as nat),
        dtype == MetalKvCacheDtype::Int8 ==> group_size(head_dim as nat) is Some,
    ensures
        spec_views(arrays@) == repeat(
            layer_arrays(dtype, nkv as int, head_dim as nat, capacity as int),
            layers as nat,
        ),
{
    let n: i32 = nkv as i32;
    let hd: i32 = head_dim as i32;
    let group: i32 = match int8_kv_group_size(head_dim) {
        Ok(g) => g as i32,
        Err(_) => 128,
    };
    let ghost block = layer_arrays(dtype, nkv as int, head_dim as nat, capacity as int);
    let mut arrays: Vec<ArraySpec> = Vec::new();
    let mut i: usize = 0;
    assert(spec_views(arrays@) =~= repeat(block, 0));
    while i < layers
        invariant
            i <= layers,
            n == nkv,
            hd == head_dim,
            dtype == MetalKvCacheDtype::Int8 ==> group_size(head_dim as nat) == Some(group as nat),
            group > 0,
            block == layer_arrays(dtype, nkv as int, head_dim as nat, capacity as int),
            spec_views(arrays@) == repeat(block, i as nat),
        decreases layers - i,
    {
        let ghost before = arrays@;
        match dtype {
            MetalKvCacheDtype::Bf16 => {
                arrays.push(array4(Dtype::Bfloat16, n, capacity, hd));
                arrays.push(array4(Dtype::Bfloat16, n, capacity, hd));
            },
            MetalKvCacheDtype::Int8 => {
                arrays.push(array4(Dtype::Uint32, n, capacity, hd / 4));
                arrays.push(array4(Dtype::Bfloat16, n, capacity, hd / group));
                arrays.push(array4(Dtype::Bfloat16, n, capacity, hd / group));
                arrays.push(array4(Dtype::Uint32, n, capacity, hd / 4));
                arrays.push(array4(Dtype::Bfloat16, n, capacity, hd / group));
                arrays.push(array4(Dtype::Bfloat16, n, capacity, hd / group));
            },
        }
        assert(spec_views(arrays@) =~= spec_views(before) + block);
        i = i + 1;
    }
    arrays
}

// ---- the token axis ----

/// A rank-4 shape `[batch, heads, tokens, width]`.
pub open spec fn is_cache_shape(shape: Seq<i32>) -> bool {
    shape.len() == 4 ==> shape[2] >= 0
}

/// Begin and end of a token range of a rank-4 array, in every axis.
#[derive(Debug)]
pub struct TokenSlice {
    pub start: Vec<i32>,
    pub stop: Vec<i32>,
}

/// Why a token range cannot be taken, in the order in which it is noticed.
pub open spec fn slice_fault(shape: Seq<i32>, start: usize, end: usize) -> Option<SlotError> {
    if shape.len() != 4 {
        Some(SlotError::NotRank4 { rank: shape.len() as usize })
    } else if start > end || end > shape[2] {
        Some(SlotError::RangeExceeds { start, end })
    } else {
        None
    }
}

pub fn slice_kv_tokens(shape: &[i32], start_token: usize, end_token: usize) -> (r: Result<
    TokenSlice,
    SlotError,
>)
    requires
        is_cache_shape(shape@),
    ensures
        match slice_fault(shape@, start_token, end_token) {
            Some(e) => r == Err::<TokenSlice, SlotError>(e),
            None => r is Ok && r->Ok_0.start@ == seq![0i32, 0i32, start_token as i32, 0i32]
                && r->Ok_0.stop@ == seq![shape@[0], shape@[1], end_token as i32, shape@[3]],
        },
{
    if shape.len() != 4 {
        return Err(SlotError::NotRank4 { rank: shape.len() });
    }
    if start_token > end_token || end_token > shape[2] as usize {
        return Err(SlotError::RangeExceeds { start: start_token, end: end_token });
    }
    let start: Vec<i32> = vec![0i32, 0i32, start_token as i32, 0i32];
    let stop: Vec<i32> = vec![shape[0], shape[1], end_token as i32, shape[3]];
    assert(start@ =~= seq![0i32, 0i32, start_token as i32, 0i32]);
    assert(stop@ =~= seq![shape@[0], shape@[1], end_token as i32, shape@[3]]);
    Ok(TokenSlice { start, stop })
}

pub open spec fn range_tokens(ranges: Seq<(usize, usize)>) -> int
    decreases ranges.len(),
{
    if ranges.len() == 0 {
        0
    } else {
        range_tokens(ranges.drop_last()) + (ranges.last().1 - ranges.last().0)
    }
}

/// The first range that cannot be taken.
pub open spec fn gather_fault(shape: Seq<i32>, ranges: Seq<(usize, usize)>) -> Option<SlotError>
    decreases ranges.len(),
{
    if ranges.len() == 0 {
        None
    } else {
        match gather_fault(shape, ranges.drop_last()) {
            Some(e) => Some(e),
            None => slice_fault(shape, ranges.last().0, ranges.last().1),
        }
    }
}

proof fn lemma_gather_stop(shape: Seq<i32>, ranges: Seq<(usize, usize)>, n: int)
    requires
        0 <= n <= ranges.len(),
        gather_fault(shape, ranges.take(n)) is Some,
    ensures
        gather_fault(shape, ranges) == gather_fault(shape, ranges.take(n)),
    decreases ranges.len(),
{
    if n < ranges.len() {
        assert(ranges.drop_last().take(n) =~= ranges.take(n));
        lemma_gather_stop(shape, ranges.drop_last(), n);
    } else {
        assert(ranges.take(n) =~= ranges);
    }
}

/// The slices of a gather, in order, and the shape of their concatenation.
#[derive(Debug)]
pub struct Gather {
    pub slices: Vec<TokenSlice>,
    pub shape: Vec<i32>,
}

/// Gathers selected token ranges: one slice per range, joined along the token
/// axis in the order given. A range past the axis is refused, not clamped.
pub fn gather_kv_ranges(shape: &[i32], ranges: &[(usize, usize)]) -> (r: Result<Gather, SlotError>)
    requires
        is_cache_shape(shape@),
        ranges@.len() > 0,
        gather_fault(shape@, ranges@) is None ==> range_tokens(ranges@) <= i32::MAX,
    ensures
        match gather_fault(shape@, ranges@) {
            Some(e) => r == Err::<Gather, SlotError>(e),
            None => r is Ok && {
                let g = r->Ok_0;
                &&& g.slices@.len() == ranges@.len()
                &&& forall|i: int|
                    0 <= i < ranges@.len() ==> (#[trigger] g.slices@[i]).start@ == seq![
                        0i32,
                        0i32,
                        ranges@[i].0 as i32,
                        0i32,
                    ]
                &&& forall|i: int|
                    0 <= i < ranges@.len() ==> (#[trigger] g.slices@[i]).stop@ == seq![
                        shape@[0],
                        shape@[1],
                        ranges@[i].1 as i32,
                        shape@[3],
                    ]
                &&& g.shape@ == seq![
                    shape@[0],
                    shape@[1],
                    range_tokens(ranges@) as i32,
                    shape@[3],
                ]
            },
        },
{
    let mut slices: Vec<TokenSlice> = Vec::new();
    let mut total: u64 = 0;
    let mut over: bool = false;
    let mut i: usize = 0;
    assert(ranges@.take(0) =~= Seq::<(usize, usize)>::empty());
    while i < ranges.len()
        invariant
            i <= ranges@.len(),
            is_cache_shape(shape@),
            gather_fault(shape@, ranges@.take(i as int)) is None,
            gather_fault(shape@, ranges@) is None ==> range_tokens(ranges@) <= i32::MAX,
            !over ==> total == range_tokens(ranges@.take(i as int)) && total <= i32::MAX,
            over ==> range_tokens(ranges@.take(i as int)) > i32::MAX,
            slices@.len() == i,
            i > 0 ==> shape@.len() == 4,
            forall|j: int|
                0 <= j < i ==> (#[trigger] slices@[j]).start@ == seq![
                    0i32,
                    0i32,
                    ranges@[j].0 as i32,
                    0i32,
                ],
            forall|j: int|
                0 <= j < i ==> (#[trigger] slices@[j]).stop@ == seq![
                    shape@[0],
                    shape@[1],
                    ranges@[j].1 as i32,
                    shape@[3],
                ],
        decreases ranges@.len() - i,
    {
        let (s, e) = ranges[i];
        let ghost next = ranges@.take(i + 1);
        assert(next.drop_last() =~= ranges@.take(i as int));
        match slice_kv_tokens(shape, s, e) {
            Err(err) => {
                proof {
                    lemma_gather_stop(shape@, ranges@, i + 1);
                }
                return Err(err);
            },
            Ok(slice) => {
                slices.push(slice);
            },
        }
        if !over {
            total = total + (e - s) as u64;
            if total > 0x7fff_ffffu64 {
                over = true;
            }
        }
        i = i + 1;
    }
    assert(ranges@.take(i as int) =~= ranges@);
    let joined: Vec<i32> = vec![shape[0], shape[1], total as i32, shape[3]];
    assert(joined@ =~= seq![shape@[0], shape@[1], range_tokens(ranges@) as i32, shape@[3]]);
    Ok(Gather { slices, shape: joined })
}

/// The zero tail that extends an array's token axis to `new_capacity`, or
/// nothing where it is long enough.
pub fn grow_kv_seq_axis(shape: &[i32], new_capacity: usize) -> (r: Result<
    Option<Vec<i32>>,
    SlotError,
>)
    requires
        is_cache_shape(shape@),
    ensures
        shape@.len() != 4 ==> r == Err::<Option<Vec<i32>>, SlotError>(
            SlotError::NotRank4 { rank: shape@.len() as usize },
        ),
        shape@.len() == 4 && new_capacity <= shape@[2] ==> r == Ok::<Option<Vec<i32>>, SlotError>(
            None,
        ),
        shape@.len() == 4 && new_capacity > shape@[2] ==> match r {
            Ok(Some(tail)) => new_capacity - shape@[2] <= i32::MAX && tail@ == seq![
                shape@[0],
                shape@[1],
                (new_capacity - shape@[2]) as i32,
                shape@[3],
            ],
            Err(e) => new_capacity - shape@[2] > i32::MAX && e == (SlotError::ExceedsI32 {
                value: (new_capacity - shape@[2]) as usize,
            }),
            _ => false,
        },
{
    if shape.len() != 4 {
        return Err(SlotError::NotRank4 { rank: shape.len() });
    }
    let current: usize = shape[2] as usize;
    if new_capacity <= current {
        return Ok(None);
    }
    match usize_to_i32(new_capacity - current) {
        Err(e) => Err(e),
        Ok(more) => {
            let tail: Vec<i32> = vec![shape[0], shape[1], more, shape[3]];
            assert(tail@ =~= seq![
                shape@[0],
                shape@[1],
                (new_capacity - shape@[2]) as i32,
                shape@[3],
            ]);
            Ok(Some(tail))
        },
    }
}

/// The zero tail behind a restored prefix: the joined pages must hold exactly
/// the prefix, and the rest of the capacity is zeros.
pub fn prefix_tail(shape: &[i32], prefix_tokens: usize, capacity: usize) -> (r: Result<
    Option<Vec<i32>>,
    SlotError,
>)
    requires
        is_cache_shape(shape@),
    ensures
        !(shape@.len() == 4 && shape@[2] == prefix_tokens) ==> r == Err::<
            Option<Vec<i32>>,
            SlotError,
        >(SlotError::ShapeMismatch { prefix_tokens }),
        shape@.len() == 4 && shape@[2] == prefix_tokens && capacity <= prefix_tokens ==> r == Ok::<
            Option<Vec<i32>>,
            SlotError,
        >(None),
        shape@.len() == 4 && shape@[2] == prefix_tokens && capacity > prefix_tokens ==> match r {
            Ok(Some(tail)) => capacity - prefix_tokens <= i32::MAX && tail@ == seq![
                shape@[0],
                shape@[1],
                (capacity - prefix_tokens) as i32,
                shape@[3],
            ],
            Err(e) => capacity - prefix_tokens > i32::MAX && e == (SlotError::ExceedsI32 {
                value: (capacity - prefix_tokens) as usize,
            }),
            _ => false,
        },
{
    if shape.len() != 4 {
        return Err(SlotError::ShapeMismatch { prefix_tokens });
    }
    if shape[2] as usize != prefix_tokens {
        return Err(SlotError::ShapeMismatch { prefix_tokens });
    }
    grow_kv_seq_axis(shape, capacity)
}

// ---- recurrent state ----

/// What the recurrent layers of a model keep per slot.
#[derive(Debug, Clone, Copy)]
pub enum RecurrentLayout {
    /// Gated convolutions: the last `kernel - 1` frames each.
    Conv { layers: usize, kernel: usize, hidden: usize },
    /// Gated delta rules: a state matrix per value head and the last
    /// `kernel - 1` mixed frames each.
    Gdr {
        layers: usize,
        value_heads: usize,
        value_dim: usize,
        key_dim: usize,
        kernel: usize,
        qkv_dim: usize,
    },
}

impl RecurrentLayout {
    pub open spec fn wf(self) -> bool {
        match self {
            RecurrentLayout::Conv { layers, kernel, hidden } => 1 <= kernel <= i32::MAX && hidden
                <= i32::MAX,
            RecurrentLayout::Gdr { layers, value_heads, value_dim, key_dim, kernel, qkv_dim } => 1
                <= kernel <= i32::MAX && value_heads <= i32::MAX && value_dim <= i32::MAX
                && key_dim <= i32::MAX && qkv_dim <= i32::MAX,
        }
    }

    pub open spec fn layers(self) -> nat {
        match self {
            RecurrentLayout::Conv { layers, .. } => layers as nat,
            RecurrentLayout::Gdr { layers, .. } => layers as nat,
        }
    }

    /// The arrays of one layer.
    pub open spec fn block(self) -> Seq<SpecView> {
        match self {
            RecurrentLayout::Conv { layers, kernel, hidden } => seq![
                SpecView {
                    dtype: Dtype::Bfloat16,
                    shape: seq![1i32, (kernel - 1) as i32, hidden as i32],
                },
            ],
            RecurrentLayout::Gdr { layers, value_heads, value_dim, key_dim, kernel, qkv_dim } => seq![
                SpecView {
                    dtype: Dtype::Float32,
                    shape: seq![1i32, value_heads as i32, value_dim as i32, key_dim as i32],
                },
                SpecView {
                    dtype: Dtype::Bfloat16,
                    shape: seq![1i32, (kernel - 1) as i32, qkv_dim as i32],
                },
            ],
        }
    }
}

fn array3(dtype: Dtype, a: i32, b: i32) -> (spec: ArraySpec)
    ensures
        spec@ == (SpecView { dtype, shape: seq![1i32, a, b] }),
{
    let shape: Vec<i32> = vec![1i32, a, b];
    assert(shape@ =~= seq![1i32, a, b]);
    ArraySpec { dtype, shape }
}

/// The restore arrays of a fresh slot, layer after layer.
pub fn allocate_recurrent(layout: RecurrentLayout) -> (arrays: Vec<ArraySpec>)
    requires
        layout.wf(),
    ensures
        spec_views(arrays@) == repeat(layout.block(), layout.layers()),
{
    let mut arrays: Vec<ArraySpec> = Vec::new();
    let n: usize = match layout {
        RecurrentLayout::Conv { layers, .. } => layers,
        RecurrentLayout::Gdr { layers, .. } => layers,
    };
    let mut i: usize = 0;
    assert(spec_views(arrays@) =~= repeat(layout.block(), 0));
    while i < n
        invariant
            i <= n == layout.layers(),
            layout.wf(),
            spec_views(arrays@) == repeat(layout.block(), i as nat),
        decreases n - i,
    {
        let ghost before = arrays@;
        match layout {
            RecurrentLayout::Conv { layers: _, kernel, hidden } => {
                arrays.push(array3(Dtype::Bfloat16, (kernel - 1) as i32, hidden as i32));
            },
            RecurrentLayout::Gdr { layers: _, value_heads, value_dim, key_dim, kernel, qkv_dim } => {
                arrays.push(
                    array4(Dtype::Float32, value_heads as i32, value_dim as i32, key_dim as i32),
                );
                arrays.push(array3(Dtype::Bfloat16, (kernel - 1) as i32, qkv_dim as i32));
            },
        }
        assert(spec_views(arrays@) =~= spec_views(before) + layout.block());
        i = i + 1;
    }
    arrays
}

// ---- capacity ----

/// The token capacity of a slot's cache: the token axis of its first array,
/// 0 where it has none.
pub open spec fn capacity_of(first: Option<Seq<i32>>) -> nat {
    match first {
        Some(shape) => if shape.len() > 2 {
            shape[2] as nat
        } else {
            0
        },
        None => 0,
    }
}

pub fn slot_capacity(first: Option<&[i32]>) -> (capacity: usize)
    requires
        match first {
            Some(s) => s@.len() > 2 ==> s@[2] >= 0,
            None => true,
        },
    ensures
        capacity == capacity_of(
            match first {
                Some(s) => Some(s@),
                None => None,
            },
        ),
{
    match first {
        Some(s) => if s.len() > 2 {
            s[2] as usize
        } else {
            0
        },
        None => 0,
    }
}

/// The capacity to grow to, or nothing where `needed` more tokens fit. A
/// cache without arrays never grows; a grown one at least doubles.
pub open spec fn growth(capacity: nat, cache_len: nat, needed: nat) -> Option<nat> {
    let required = sat_plus(cache_len, needed);
    if capacity == 0 || required <= capacity {
        None
    } else {
        Some(rounded(max_nat(required, sat(capacity, 2))))
    }
}

pub fn ensure_kv_capacity(capacity: usize, cache_len: usize, needed: usize) -> (r: Option<usize>)
    requires
        capacity != 0 && cache_len + needed > capacity ==> cache_len + needed
            <= MAX_ROUNDED_TOKENS && capacity * 2 <= MAX_ROUNDED_TOKENS,
    ensures
        match growth(capacity as nat, cache_len as nat, needed as nat) {
            None => r is None,
            Some(c) => r == Some(c as usize) && c <= i32::MAX,
        },
{
    let required: usize = plus(cache_len, needed);
    if capacity == 0 || required <= capacity {
        return None;
    }
    let c: i32 = round_up_capacity(max_usize(required, times(capacity, 2)));
    Some(c as usize)
}

/// After growing, the tokens fit, and the capacity has at least doubled.
pub proof fn growth_makes_room(capacity: nat, cache_len: nat, needed: nat)
    requires
        capacity > 0,
        cache_len + needed <= MAX_ROUNDED_TOKENS,
        capacity * 2 <= MAX_ROUNDED_TOKENS,
    ensures
        match growth(capacity, cache_len, needed) {
            None => cache_len + needed <= capacity,
            Some(c) => c >= cache_len + needed && c >= 2 * capacity && c > capacity,
        },
{
}

/// The target-hidden history keeps the last 64 rows: the first row that stays
/// of `rows` combined ones.
pub fn hidden_keep_from(rows: usize) -> (from: usize)
    ensures
        from == if rows > 64 {
            rows - 64
        } else {
            0
        },
{
    if rows > 64 {
        rows - 64
    } else {
        0
    }
}

// ---- prefix reads ----

/// The element types that a layer's arrays must have.
pub open spec fn expected_dtype(kind: MetalKvCacheDtype, axis: int) -> Dtype {
    match kind {
        MetalKvCacheDtype::Bf16 => Dtype::Bfloat16,
        MetalKvCacheDtype::Int8 => if axis == 0 || axis == 3 {
            Dtype::Uint32
        } else {
            Dtype::Bfloat16
        },
    }
}

/// Arrays per layer.
pub open spec fn group_of(kind: MetalKvCacheDtype) -> int {
    match kind {
        MetalKvCacheDtype::Bf16 => 2,
        MetalKvCacheDtype::Int8 => 6,
    }
}

pub open spec fn dtype_fault(
    arrays: Seq<SpecView>,
    kind: MetalKvCacheDtype,
    layer: int,
    axes: nat,
) -> Option<SlotError>
    decreases axes,
{
    if axes == 0 {
        None
    } else {
        match dtype_fault(arrays, kind, layer, (axes - 1) as nat) {
            Some(e) => Some(e),
            None => {
                let found = arrays[layer * group_of(kind) + axes - 1].dtype;
                if found != expected_dtype(kind, axes - 1) {
                    Some(
                        SlotError::WrongDtype {
                            layer: layer as usize,
                            axis: (axes - 1) as usize,
                            found,
                        },
                    )
                } else {
                    None
                }
            },
        }
    }
}

pub open spec fn axes_fault(
    arrays: Seq<SpecView>,
    kind: MetalKvCacheDtype,
    layer: int,
    axes: nat,
    cache_len: usize,
) -> Option<SlotError>
    decreases axes,
{
    if axes == 0 {
        None
    } else {
        match axes_fault(arrays, kind, layer, (axes - 1) as nat, cache_len) {
            Some(e) => Some(e),
            None => slice_fault(
                arrays[layer * group_of(kind) + axes - 1].shape,
                0,
                cache_len,
            ),
        }
    }
}

/// What is wrong with the first `layers` layers: in each, element types come
/// before token ranges.
pub open spec fn layers_fault(
    arrays: Seq<SpecView>,
    kind: MetalKvCacheDtype,
    layers: nat,
    cache_len: usize,
) -> Option<SlotError>
    decreases layers,
{
    if layers == 0 {
        None
    } else {
        match layers_fault(arrays, kind, (layers - 1) as nat, cache_len) {
            Some(e) => Some(e),
            None => match dtype_fault(arrays, kind, layers - 1, group_of(kind) as nat) {
                Some(e) => Some(e),
                None => axes_fault(arrays, kind, layers - 1, group_of(kind) as nat, cache_len),
            },
        }
    }
}

pub open spec fn read_fault(
    arrays: Seq<SpecView>,
    kind: MetalKvCacheDtype,
    slot_len: usize,
    cache_len: usize,
) -> Option<SlotError> {
    if cache_len > slot_len {
        Some(SlotError::BeyondCache { asked: cache_len, cache_len: slot_len })
    } else if arrays.len() as int % group_of(kind) != 0 {
        Some(SlotError::NotGrouped { arrays: arrays.len() as usize })
    } else {
        layers_fault(
            arrays,
            kind,
            (arrays.len() as int / group_of(kind)) as nat,
            cache_len,
        )
    }
}

/// Which arrays a prefix read takes as keys and which as values; each is cut
/// to the prefix.
#[derive(Debug)]
pub struct ReadPlan {
    pub k: Vec<usize>,
    pub v: Vec<usize>,
}

/// The first half of every layer's arrays are keys, the second half values.
pub open spec fn picks(kind: MetalKvCacheDtype, layers: nat, half: int) -> Seq<usize>
    decreases layers,
{
    if layers == 0 {
        Seq::empty()
    } else {
        let base = (layers - 1) * group_of(kind) + half * (group_of(kind) / 2);
        picks(kind, (layers - 1) as nat, half) + Seq::new(
            (group_of(kind) / 2) as nat,
            |i: int| (base + i) as usize,
        )
    }
}

proof fn lemma_layers_stop(
    arrays: Seq<SpecView>,
    kind: MetalKvCacheDtype,
    k: nat,
    n: nat,
    cache_len: usize,
)
    requires
        k <= n,
        layers_fault(arrays, kind, k, cache_len) is Some,
    ensures
        layers_fault(arrays, kind, n, cache_len) == layers_fault(arrays, kind, k, cache_len),
    decreases n,
{
    if k < n {
        lemma_layers_stop(arrays, kind, k, (n - 1) as nat, cache_len);
    }
}

proof fn lemma_dtype_stop(
    arrays: Seq<SpecView>,
    kind: MetalKvCacheDtype,
    layer: int,
    k: nat,
    n: nat,
)
    requires
        k <= n,
        dtype_fault(arrays, kind, layer, k) is Some,
    ensures
        dtype_fault(arrays, kind, layer, n) == dtype_fault(arrays, kind, layer, k),
    decreases n,
{
    if k < n {
        lemma_dtype_stop(arrays, kind, layer, k, (n - 1) as nat);
    }
}

proof fn lemma_axes_stop(
    arrays: Seq<SpecView>,
    kind: MetalKvCacheDtype,
    layer: int,
    k: nat,
    n: nat,
    cache_len: usize,
)
    requires
        k <= n,
        axes_fault(arrays, kind, layer, k, cache_len) is Some,
    ensures
        axes_fault(arrays, kind, layer, n, cache_len) == axes_fault(
            arrays,
            kind,
            layer,
            k,
            cache_len,
        ),
    decreases n,
{
    if k < n {
        lemma_axes_stop(arrays, kind, layer, k, (n - 1) as nat, cache_len);
    }
}

fn layer_check(arrays: &[ArraySpec], kind: MetalKvCacheDtype, layer: usize, cache_len: usize) -> (r:
    Option<SlotError>)
    requires
        (layer + 1) * group_of(kind) <= arrays@.len(),
        forall|i: int| 0 <= i < arrays@.len() ==> is_cache_shape((#[trigger] arrays@[i]).shape@),
    ensures
        r == match dtype_fault(spec_views(arrays@), kind, layer as int, group_of(kind) as nat) {
            Some(e) => Some(e),
            None => axes_fault(
                spec_views(arrays@),
                kind,
                layer as int,
                group_of(kind) as nat,
                cache_len,
            ),
        },
{
    let group: usize = match kind {
        MetalKvCacheDtype::Bf16 => 2,
        MetalKvCacheDtype::Int8 => 6,
    };
    let total: usize = arrays.len();
    proof {
        assert((layer + 1) * group_of(kind) == layer * group + group) by (nonlinear_arith)
            requires
                group == group_of(kind),
        ;
    }
    let base: usize = layer * group;
    let ghost all = spec_views(arrays@);
    let mut axis: usize = 0;
    while axis < group
        invariant
            axis <= group == group_of(kind),
            base == layer * group,
            base + group <= total == arrays@.len(),
            all == spec_views(arrays@),
            dtype_fault(all, kind, layer as int, axis as nat) is None,
        decreases group - axis,
    {
        let found: Dtype = arrays[base + axis].dtype;
        let want: Dtype = match kind {
            MetalKvCacheDtype::Bf16 => Dtype::Bfloat16,
            MetalKvCacheDtype::Int8 => if axis == 0 || axis == 3 {
                Dtype::Uint32
            } else {
                Dtype::Bfloat16
            },
        };
        assert(all[base + axis].dtype == found);
        if found != want {
            proof {
                lemma_dtype_stop(all, kind, layer as int, (axis + 1) as nat, group as nat);
            }
            return Some(SlotError::WrongDtype { layer, axis, found });
        }
        axis = axis + 1;
    }
    let mut done: usize = 0;
    while done < group
        invariant
            done <= group == group_of(kind),
            base == layer * group,
            base + group <= total == arrays@.len(),
            all == spec_views(arrays@),
            forall|i: int|
                0 <= i < arrays@.len() ==> is_cache_shape((#[trigger] arrays@[i]).shape@),
            dtype_fault(all, kind, layer as int, group as nat) is None,
            axes_fault(all, kind, layer as int, done as nat, cache_len) is None,
        decreases group - done,
    {
        assert(all[base + done].shape == arrays@[base + done].shape@);
        match slice_kv_tokens(arrays[base + done].shape.as_slice(), 0, cache_len) {
            Err(e) => {
                proof {
                    lemma_axes_stop(
                        all,
                        kind,
                        layer as int,
                        (done + 1) as nat,
                        group as nat,
                        cache_len,
                    );
                }
                return Some(e);
            },
            Ok(_) => {},
        }
        done = done + 1;
    }
    None
}

fn read_inputs(
    arrays: &[ArraySpec],
    kind: MetalKvCacheDtype,
    slot_len: usize,
    cache_len: usize,
) -> (r: Result<ReadPlan, SlotError>)
    requires
        forall|i: int| 0 <= i < arrays@.len() ==> is_cache_shape((#[trigger] arrays@[i]).shape@),
    ensures
        match read_fault(spec_views(arrays@), kind, slot_len, cache_len) {
            Some(e) => r == Err::<ReadPlan, SlotError>(e),
            None => r is Ok && r->Ok_0.k@ == picks(
                kind,
                (arrays@.len() as int / group_of(kind)) as nat,
                0,
            ) && r->Ok_0.v@ == picks(kind, (arrays@.len() as int / group_of(kind)) as nat, 1),
        },
{
    let group: usize = match kind {
        MetalKvCacheDtype::Bf16 => 2,
        MetalKvCacheDtype::Int8 => 6,
    };
    let half: usize = group / 2;
    if cache_len > slot_len {
        return Err(SlotError::BeyondCache { asked: cache_len, cache_len: slot_len });
    }
    if arrays.len() % group != 0 {
        return Err(SlotError::NotGrouped { arrays: arrays.len() });
    }
    let total: usize = arrays.len();
    let layers: usize = total / group;
    let ghost all = spec_views(arrays@);
    let mut k: Vec<usize> = Vec::new();
    let mut v: Vec<usize> = Vec::new();
    let mut layer: usize = 0;
    while layer < layers
        invariant
            layer <= layers,
            group == group_of(kind),
            half == group / 2,
            half >= 1,
            total == arrays@.len(),
            layers == arrays@.len() as int / group as int,
            arrays@.len() as int % group as int == 0,
            cache_len <= slot_len,
            all == spec_views(arrays@),
            forall|i: int|
                0 <= i < arrays@.len() ==> is_cache_shape((#[trigger] arrays@[i]).shape@),
            layers_fault(all, kind, layer as nat, cache_len) is None,
            k@ == picks(kind, layer as nat, 0),
            v@ == picks(kind, layer as nat, 1),
        decreases layers - layer,
    {
        proof {
            assert((layer + 1) * group <= layers * group) by (nonlinear_arith)
                requires
                    layer + 1 <= layers,
            ;
            assert(layers * group == arrays@.len()) by (nonlinear_arith)
                requires
                    layers == arrays@.len() as int / group as int,
                    arrays@.len() as int % group as int == 0,
                    group > 0,
            ;
        }
        match layer_check(arrays, kind, layer, cache_len) {
            Some(e) => {
                proof {
                    lemma_layers_stop(all, kind, (layer + 1) as nat, layers as nat, cache_len);
                }
                return Err(e);
            },
            None => {},
        }
        let ghost k0 = k@;
        let ghost v0 = v@;
        proof {
            assert((layer + 1) * group == layer * group + group) by (nonlinear_arith);
        }
        let base: usize = layer * group;
        let mut i: usize = 0;
        while i < half
            invariant
                i <= half,
                base == layer * group,
                base + group <= total,
                half == group / 2,
                k@ == k0 + Seq::new(i as nat, |j: int| (base + j) as usize),
                v@ == v0 + Seq::new(i as nat, |j: int| (base + half + j) as usize),
            decreases half - i,
        {
            k.push(base + i);
            v.push(base + half + i);
            i = i + 1;
            assert(k@ =~= k0 + Seq::new(i as nat, |j: int| (base + j) as usize));
            assert(v@ =~= v0 + Seq::new(i as nat, |j: int| (base + half + j) as usize));
        }
        layer = layer + 1;
        assert(k@ =~= picks(kind, layer as nat, 0));
        assert(v@ =~= picks(kind, layer as nat, 1));
    }
    Ok(ReadPlan { k, v })
}

/// Arrays of a bf16 cache that a read of the first `cache_len` tokens takes.
pub fn bf16_prefix_read_inputs(arrays: &[ArraySpec], slot_len: usize, cache_len: usize) -> (r:
    Result<ReadPlan, SlotError>)
    requires
        forall|i: int| 0 <= i < arrays@.len() ==> is_cache_shape((#[trigger] arrays@[i]).shape@),
    ensures
        match read_fault(spec_views(arrays@), MetalKvCacheDtype::Bf16, slot_len, cache_len) {
            Some(e) => r == Err::<ReadPlan, SlotError>(e),
            None => r is Ok && r->Ok_0.k@ == picks(
                MetalKvCacheDtype::Bf16,
                (arrays@.len() as int / 2) as nat,
                0,
            ) && r->Ok_0.v@ == picks(
                MetalKvCacheDtype::Bf16,
                (arrays@.len() as int / 2) as nat,
                1,
            ),
        },
{
    read_inputs(arrays, MetalKvCacheDtype::Bf16, slot_len, cache_len)
}

/// Arrays of an INT8 cache that a read of the first `cache_len` tokens takes:
/// packed values, scales and biases of every layer.
pub fn int8_prefix_read_inputs(arrays: &[ArraySpec], slot_len: usize, cache_len: usize) -> (r:
    Result<ReadPlan, SlotError>)
    requires
        forall|i: int| 0 <= i < arrays@.len() ==> is_cache_shape((#[trigger] arrays@[i]).shape@),
    ensures
        match read_fault(spec_views(arrays@), MetalKvCacheDtype::Int8, slot_len, cache_len) {
            Some(e) => r == Err::<ReadPlan, SlotError>(e),
            None => r is Ok && r->Ok_0.k@ == picks(
                MetalKvCacheDtype::Int8,
                (arrays@.len() as int / 6) as nat,
                0,
            ) && r->Ok_0.v@ == picks(
                MetalKvCacheDtype::Int8,
                (arrays@.len() as int / 6) as nat,
                1,
            ),
        },
{
    read_inputs(arrays, MetalKvCacheDtype::Int8, slot_len, cache_len)
}

proof fn lemma_dtypes_match(arrays: Seq<SpecView>, kind: MetalKvCacheDtype, layer: int, axes: nat)
    requires
        forall|a: int|
            0 <= a < axes ==> (#[trigger] arrays[layer * group_of(kind) + a]).dtype
                == expected_dtype(kind, a),
    ensures
        dtype_fault(arrays, kind, layer, axes) is None,
    decreases axes,
{
    if axes > 0 {
        lemma_dtypes_match(arrays, kind, layer, (axes - 1) as nat);
        assert(arrays[layer * group_of(kind) + (axes - 1)].dtype == expected_dtype(kind, axes - 1));
    }
}

proof fn lemma_axes_match(
    arrays: Seq<SpecView>,
    kind: MetalKvCacheDtype,
    layer: int,
    axes: nat,
    cache_len: usize,
)
    requires
        forall|a: int|
            0 <= a < axes ==> slice_fault(
                (#[trigger] arrays[layer * group_of(kind) + a]).shape,
                0,
                cache_len,
            ) is None,
    ensures
        axes_fault(arrays, kind, layer, axes, cache_len) is None,
    decreases axes,
{
    if axes > 0 {
        lemma_axes_match(arrays, kind, layer, (axes - 1) as nat, cache_len);
        assert(slice_fault(arrays[layer * group_of(kind) + (axes - 1)].shape, 0, cache_len)
            is None);
    }
}

/// A freshly allocated cache can be read up to any length that it holds.
pub proof fn fresh_cache_reads(
    kind: MetalKvCacheDtype,
    layers: nat,
    nkv: int,
    head_dim: nat,
    capacity: int,
    slot_len: usize,
    cache_len: usize,
)
    requires
        cache_len <= slot_len,
        cache_len <= capacity <= i32::MAX,
    ensures
        read_fault(
            repeat(layer_arrays(kind, nkv, head_dim, capacity), layers),
            kind,
            slot_len,
            cache_len,
        ) is None,
{
    let block = layer_arrays(kind, nkv, head_dim, capacity);
    let g = group_of(kind);
    let arrays = repeat(block, layers);
    lemma_repeat(block, layers);
    assert(block.len() == g);
    vstd::arithmetic::div_mod::lemma_div_multiples_vanish(layers as int, g);
    vstd::arithmetic::div_mod::lemma_mod_multiples_basic(layers as int, g);
    assert(layers * g == g * layers) by (nonlinear_arith);
    lemma_fresh_layers(block, kind, layers, layers, cache_len);
}

proof fn lemma_fresh_layers(
    block: Seq<SpecView>,
    kind: MetalKvCacheDtype,
    total: nat,
    n: nat,
    cache_len: usize,
)
    requires
        n <= total,
        block.len() == group_of(kind),
        forall|a: int|
            0 <= a < block.len() ==> (#[trigger] block[a]).dtype == expected_dtype(kind, a),
        forall|a: int|
            0 <= a < block.len() ==> slice_fault((#[trigger] block[a]).shape, 0, cache_len) is None,
    ensures
        layers_fault(repeat(block, total), kind, n, cache_len) is None,
    decreases n,
{
    if n > 0 {
        lemma_fresh_layers(block, kind, total, (n - 1) as nat, cache_len);
        let arrays = repeat(block, total);
        let g = group_of(kind);
        let layer = n - 1;
        lemma_repeat(block, total);
        assert forall|a: int| 0 <= a < g implies arrays[layer * g + a] == block[a] by {
            assert(0 <= layer * g + a < g * total) by (nonlinear_arith)
                requires
                    0 <= a < g,
                    0 <= layer < total,
            ;
            vstd::arithmetic::div_mod::lemma_fundamental_div_mod_converse(
                layer * g + a,
                g,
                layer,
                a,
            );
        }
        assert forall|a: int| 0 <= a < g implies (#[trigger] arrays[layer * g + a]).dtype
            == expected_dtype(kind, a) by {
            assert(block[a].dtype == expected_dtype(kind, a));
        }
        lemma_dtypes_match(arrays, kind, layer, g as nat);
        assert forall|a: int| 0 <= a < g implies slice_fault(
            (#[trigger] arrays[layer * g + a]).shape,
            0,
            cache_len,
        ) is None by {
            assert(slice_fault(block[a].shape, 0, cache_len) is None);
        }
        lemma_axes_match(arrays, kind, layer, g as nat, cache_len);
    }
}

} // verus!
