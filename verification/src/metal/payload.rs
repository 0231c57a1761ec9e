//! Bytes of page and prefix payloads.
//!
//! Every header field is a little-endian `u64`. A page payload is
//! `[n_arrays][arrays]`, a prefix payload
//! `[n_ids][ids][cache_len][n_arrays][arrays]`, and an array
//! `[dtype][ndim][dims][len][bytes]`. The ids echo lets a reader notice that
//! two prefixes share a store key.
use vstd::prelude::*;

use crate::bytes::{copy_range, push_all, push_le, read_le};
#[allow(unused_imports)]
use crate::bytes::{le, le_value, lemma_le_len, lemma_le_value_of_le, lemma_pow256};
use crate::metal::mlx::{dtype_size, Dtype, DtypeCodes};
#[allow(unused_imports)]
use crate::metal::mlx::{codes_round_trip, elem_bytes};

verus! {

/// Why bytes are no payload, or an array cannot be written as one.
#[derive(Debug, Clone, Copy, PartialEq, Eq, Structural)]
pub enum PayloadError {
    CursorOverflow,
    Truncated { need: usize, at: usize },
    FieldTooLarge { value: u64 },
    UnknownDtype { raw: i64 },
    DimOutOfRange { dim: i64 },
    NegativeDim { size: i32 },
    ShapeOverflow,
    SizeOverflow,
    SizeMismatch,
    KeyMismatch,
    TrailingBytes { count: usize },
}

/// An array held on the host: element type, dimensions and raw bytes.
#[derive(Debug)]
pub struct HostArray {
    pub dtype: Dtype,
    pub shape: Vec<i32>,
    pub bytes: Vec<u8>,
}

#[verifier::ext_equal]
pub struct ArrayView {
    pub dtype: Dtype,
    pub shape: Seq<i32>,
    pub bytes: Seq<u8>,
}

impl View for HostArray {
    type V = ArrayView;

    open spec fn view(&self) -> ArrayView {
        ArrayView { dtype: self.dtype, shape: self.shape@, bytes: self.bytes@ }
    }
}

pub open spec fn views(arrays: Seq<HostArray>) -> Seq<ArrayView> {
    arrays.map_values(|a: HostArray| a@)
}

/// The number of elements of a shape, multiplied up from the left; the first
/// negative dimension or overflow stops it.
pub open spec fn elements(shape: Seq<i32>) -> Result<nat, PayloadError>
    decreases shape.len(),
{
    if shape.len() == 0 {
        Ok(1)
    } else {
        match elements(shape.drop_last()) {
            Err(e) => Err(e),
            Ok(n) => if shape.last() < 0 {
                Err(PayloadError::NegativeDim { size: shape.last() })
            } else if n * shape.last() as nat > usize::MAX {
                Err(PayloadError::ShapeOverflow)
            } else {
                Ok(n * shape.last() as nat)
            },
        }
    }
}

/// The byte size that an array of this shape must have.
pub open spec fn nbytes(shape: Seq<i32>, dtype: Dtype) -> Result<usize, PayloadError> {
    match elements(shape) {
        Err(e) => Err(e),
        Ok(n) => if n * elem_bytes(dtype) > usize::MAX {
            Err(PayloadError::SizeOverflow)
        } else {
            Ok((n * elem_bytes(dtype)) as usize)
        },
    }
}

pub open spec fn product(shape: Seq<i32>) -> int
    decreases shape.len(),
{
    if shape.len() == 0 {
        1
    } else {
        product(shape.drop_last()) * shape.last()
    }
}

/// Where a byte size is given, it is the product of the dimensions times the
/// element size, and no dimension is negative.
pub proof fn byte_size_is_the_product(shape: Seq<i32>, dtype: Dtype)
    requires
        nbytes(shape, dtype) is Ok,
    ensures
        nbytes(shape, dtype)->Ok_0 == product(shape) * elem_bytes(dtype),
        forall|i: int| 0 <= i < shape.len() ==> shape[i] >= 0,
{
    lemma_elements(shape);
}

proof fn lemma_elements(shape: Seq<i32>)
    requires
        elements(shape) is Ok,
    ensures
        elements(shape)->Ok_0 == product(shape),
        forall|i: int| 0 <= i < shape.len() ==> shape[i] >= 0,
    decreases shape.len(),
{
    if shape.len() > 0 {
        lemma_elements(shape.drop_last());
        assert forall|i: int| 0 <= i < shape.len() implies shape[i] >= 0 by {
            if i < shape.len() - 1 {
                assert(shape.drop_last()[i] == shape[i]);
            }
        }
    }
}

pub fn expected_array_nbytes(shape: &[i32], dtype: Dtype) -> (r: Result<usize, PayloadError>)
    ensures
        r == nbytes(shape@, dtype),
{
    let mut count: usize = 1;
    let mut i: usize = 0;
    assert(shape@.take(0) =~= Seq::<i32>::empty());
    while i < shape.len()
        invariant
            i <= shape@.len(),
            elements(shape@.take(i as int)) == Ok::<nat, PayloadError>(count as nat),
        decreases shape@.len() - i,
    {
        let dim: i32 = shape[i];
        let ghost next = shape@.take(i + 1);
        assert(next.drop_last() =~= shape@.take(i as int));
        assert(next.last() == dim);
        if dim < 0 {
            proof {
                lemma_elements_stop(shape@, i + 1);
            }
            return Err(PayloadError::NegativeDim { size: dim });
        }
        match count.checked_mul(dim as usize) {
            Some(n) => {
                count = n;
            },
            None => {
                proof {
                    lemma_elements_stop(shape@, i + 1);
                }
                return Err(PayloadError::ShapeOverflow);
            },
        }
        i = i + 1;
    }
    assert(shape@.take(i as int) =~= shape@);
    match count.checked_mul(dtype_size(dtype)) {
        Some(n) => Ok(n),
        None => Err(PayloadError::SizeOverflow),
    }
}

/// What stops a front part of a shape stops the whole.
proof fn lemma_elements_stop(shape: Seq<i32>, n: int)
    requires
        0 <= n <= shape.len(),
        elements(shape.take(n)) is Err,
    ensures
        elements(shape) == elements(shape.take(n)),
    decreases shape.len(),
{
    if n < shape.len() {
        assert(shape.drop_last().take(n) =~= shape.take(n));
        lemma_elements_stop(shape.drop_last(), n);
    } else {
        assert(shape.take(n) =~= shape);
    }
}

/// A signed number in two's complement over 64 bits.
pub open spec fn to_word(x: int) -> nat {
    if x >= 0 {
        x as nat
    } else {
        (x + 0x1_0000_0000_0000_0000) as nat
    }
}

pub open spec fn from_word(w: u64) -> i64 {
    if w <= i64::MAX {
        w as i64
    } else {
        (w - 0x1_0000_0000_0000_0000) as i64
    }
}

fn word_of(x: i32) -> (w: u64)
    ensures
        w == to_word(x as int),
{
    if x >= 0 {
        x as u64
    } else {
        u64::MAX - ((-(x as i64) - 1) as u64)
    }
}

fn signed_of(w: u64) -> (x: i64)
    ensures
        x == from_word(w),
{
    if w <= 0x7fff_ffff_ffff_ffff {
        w as i64
    } else {
        -((u64::MAX - w) as i64) - 1
    }
}

// ---- encoding ----

pub open spec fn dims_bytes(shape: Seq<i32>) -> Seq<u8>
    decreases shape.len(),
{
    if shape.len() == 0 {
        Seq::empty()
    } else {
        dims_bytes(shape.drop_last()) + le(to_word(shape.last() as int), 8)
    }
}

pub open spec fn array_bytes(a: ArrayView, codes: DtypeCodes) -> Seq<u8> {
    le(to_word(codes.code(a.dtype) as int), 8) + le(a.shape.len(), 8) + dims_bytes(a.shape) + le(
        a.bytes.len(),
        8,
    ) + a.bytes
}

pub open spec fn array_seq_bytes(s: Seq<ArrayView>, codes: DtypeCodes) -> Seq<u8>
    decreases s.len(),
{
    if s.len() == 0 {
        Seq::empty()
    } else {
        array_seq_bytes(s.drop_last(), codes) + array_bytes(s.last(), codes)
    }
}

/// `[n_arrays][arrays]`.
pub open spec fn page_bytes(s: Seq<ArrayView>, codes: DtypeCodes) -> Seq<u8> {
    le(s.len(), 8) + array_seq_bytes(s, codes)
}

pub open spec fn ids_bytes(ids: Seq<u64>) -> Seq<u8>
    decreases ids.len(),
{
    if ids.len() == 0 {
        Seq::empty()
    } else {
        ids_bytes(ids.drop_last()) + le(ids.last() as nat, 8)
    }
}

/// `[n_ids][ids][cache_len][n_arrays][arrays]`.
pub open spec fn prefix_bytes(
    key: Seq<u64>,
    cache_len: nat,
    s: Seq<ArrayView>,
    codes: DtypeCodes,
) -> Seq<u8> {
    le(key.len(), 8) + ids_bytes(key) + le(cache_len, 8) + page_bytes(s, codes)
}

/// The byte string of an array is as long as its shape asks.
pub open spec fn sized(a: ArrayView) -> bool {
    nbytes(a.shape, a.dtype) matches Ok(n) && n == a.bytes.len()
}

/// The first array that cannot be written, and why.
pub open spec fn encode_fault(s: Seq<ArrayView>) -> Option<PayloadError>
    decreases s.len(),
{
    if s.len() == 0 {
        None
    } else {
        match encode_fault(s.drop_last()) {
            Some(e) => Some(e),
            None => match nbytes(s.last().shape, s.last().dtype) {
                Err(e) => Some(e),
                Ok(n) => if n != s.last().bytes.len() {
                    Some(PayloadError::SizeMismatch)
                } else {
                    None
                },
            },
        }
    }
}

proof fn lemma_fault_stops(s: Seq<ArrayView>, n: int)
    requires
        0 <= n <= s.len(),
        encode_fault(s.take(n)) is Some,
    ensures
        encode_fault(s) == encode_fault(s.take(n)),
    decreases s.len(),
{
    if n < s.len() {
        assert(s.drop_last().take(n) =~= s.take(n));
        lemma_fault_stops(s.drop_last(), n);
    } else {
        assert(s.take(n) =~= s);
    }
}

/// Arrays can be written exactly when each is as long as its shape asks.
pub proof fn writable_when_sized(s: Seq<ArrayView>)
    ensures
        encode_fault(s) is None <==> forall|i: int| 0 <= i < s.len() ==> sized(#[trigger] s[i]),
    decreases s.len(),
{
    if s.len() > 0 {
        let front = s.drop_last();
        writable_when_sized(front);
        assert forall|i: int| 0 <= i < front.len() implies sized(front[i]) == sized(s[i]) by {}
        if encode_fault(s) is None {
            assert forall|i: int| 0 <= i < s.len() implies sized(#[trigger] s[i]) by {
                if i < front.len() {
                    assert(sized(front[i]));
                }
            }
        } else if forall|i: int| 0 <= i < s.len() ==> sized(#[trigger] s[i]) {
            assert forall|i: int| 0 <= i < front.len() implies sized(#[trigger] front[i]) by {
                assert(sized(s[i]));
            }
            assert(sized(s[s.len() - 1]));
        }
    }
}

fn push_dims(out: &mut Vec<u8>, shape: &[i32])
    ensures
        final(out)@ == old(out)@ + dims_bytes(shape@),
{
    let mut i: usize = 0;
    assert(shape@.take(0) =~= Seq::<i32>::empty());
    assert(out@ =~= old(out)@ + dims_bytes(shape@.take(0)));
    while i < shape.len()
        invariant
            i <= shape@.len(),
            out@ == old(out)@ + dims_bytes(shape@.take(i as int)),
        decreases shape@.len() - i,
    {
        let ghost before = out@;
        let ghost next = shape@.take(i + 1);
        assert(next.drop_last() =~= shape@.take(i as int));
        push_le(out, word_of(shape[i]), 8);
        assert(out@ =~= old(out)@ + dims_bytes(next));
        i = i + 1;
    }
    assert(shape@.take(i as int) =~= shape@);
}

fn push_array(out: &mut Vec<u8>, a: &HostArray, codes: &DtypeCodes)
    ensures
        final(out)@ == old(out)@ + array_bytes(a@, *codes),
{
    push_le(out, word_of(a.dtype.to_raw(codes)), 8);
    push_le(out, a.shape.len() as u64, 8);
    push_dims(out, a.shape.as_slice());
    push_le(out, a.bytes.len() as u64, 8);
    push_all(out, a.bytes.as_slice());
    assert(out@ =~= old(out)@ + array_bytes(a@, *codes));
}

fn push_arrays(out: &mut Vec<u8>, arrays: &[HostArray], codes: &DtypeCodes) -> (r: Result<
    (),
    PayloadError,
>)
    ensures
        match encode_fault(views(arrays@)) {
            None => r is Ok && final(out)@ == old(out)@ + page_bytes(views(arrays@), *codes),
            Some(e) => r == Err::<(), PayloadError>(e),
        },
{
    let ghost all = views(arrays@);
    push_le(out, arrays.len() as u64, 8);
    let ghost head = out@;
    let mut i: usize = 0;
    assert(all.take(0) =~= Seq::<ArrayView>::empty());
    assert(out@ =~= head + array_seq_bytes(all.take(0), *codes));
    while i < arrays.len()
        invariant
            i <= arrays@.len(),
            all == views(arrays@),
            out@ == head + array_seq_bytes(all.take(i as int), *codes),
            encode_fault(all.take(i as int)) is None,
        decreases arrays@.len() - i,
    {
        let a: &HostArray = &arrays[i];
        let ghost next = all.take(i + 1);
        assert(next.drop_last() =~= all.take(i as int));
        assert(next.last() == a@);
        match expected_array_nbytes(a.shape.as_slice(), a.dtype) {
            Err(e) => {
                proof {
                    lemma_fault_stops(all, i + 1);
                }
                return Err(e);
            },
            Ok(n) => {
                if n != a.bytes.len() {
                    proof {
                        lemma_fault_stops(all, i + 1);
                    }
                    return Err(PayloadError::SizeMismatch);
                }
            },
        }
        push_array(out, a, codes);
        assert(out@ =~= head + array_seq_bytes(next, *codes));
        i = i + 1;
    }
    assert(all.take(i as int) =~= all);
    assert(out@ =~= old(out)@ + page_bytes(all, *codes));
    Ok(())
}

/// The payload of a page: its arrays.
pub fn encode_page_payload(arrays: &[HostArray], codes: &DtypeCodes) -> (r: Result<
    Vec<u8>,
    PayloadError,
>)
    ensures
        match encode_fault(views(arrays@)) {
            None => r is Ok && r->Ok_0@ == page_bytes(views(arrays@), *codes),
            Some(e) => r == Err::<Vec<u8>, PayloadError>(e),
        },
{
    let mut out: Vec<u8> = Vec::new();
    match push_arrays(&mut out, arrays, codes) {
        Err(e) => Err(e),
        Ok(()) => {
            assert(out@ =~= page_bytes(views(arrays@), *codes));
            Ok(out)
        },
    }
}

/// The payload of a prefix snapshot: its key, length and restore arrays.
pub fn encode_prefix_payload(
    key: &[u64],
    cache_len: usize,
    arrays: &[HostArray],
    codes: &DtypeCodes,
) -> (r: Result<Vec<u8>, PayloadError>)
    ensures
        match encode_fault(views(arrays@)) {
            None => r is Ok && r->Ok_0@ == prefix_bytes(
                key@,
                cache_len as nat,
                views(arrays@),
                *codes,
            ),
            Some(e) => r == Err::<Vec<u8>, PayloadError>(e),
        },
{
    let mut out: Vec<u8> = Vec::new();
    push_le(&mut out, key.len() as u64, 8);
    let mut i: usize = 0;
    let ghost head = out@;
    assert(key@.take(0) =~= Seq::<u64>::empty());
    assert(out@ =~= head + ids_bytes(key@.take(0)));
    while i < key.len()
        invariant
            i <= key@.len(),
            out@ == head + ids_bytes(key@.take(i as int)),
        decreases key@.len() - i,
    {
        let ghost next = key@.take(i + 1);
        assert(next.drop_last() =~= key@.take(i as int));
        push_le(&mut out, key[i], 8);
        assert(out@ =~= head + ids_bytes(next));
        i = i + 1;
    }
    assert(key@.take(i as int) =~= key@);
    push_le(&mut out, cache_len as u64, 8);
    match push_arrays(&mut out, arrays, codes) {
        Err(e) => Err(e),
        Ok(()) => {
            assert(out@ =~= prefix_bytes(key@, cache_len as nat, views(arrays@), *codes));
            Ok(out)
        },
    }
}

// ---- decoding ----

/// The end of `n` bytes that start at `pos`.
pub open spec fn take_at(b: Seq<u8>, pos: usize, n: usize) -> Result<usize, PayloadError> {
    if pos + n > usize::MAX {
        Err(PayloadError::CursorOverflow)
    } else if pos + n > b.len() {
        Err(PayloadError::Truncated { need: n, at: pos })
    } else {
        Ok((pos + n) as usize)
    }
}

pub open spec fn word_at(b: Seq<u8>, pos: usize) -> Result<(u64, usize), PayloadError> {
    match take_at(b, pos, 8) {
        Err(e) => Err(e),
        Ok(end) => Ok((le_value(b.subrange(pos as int, end as int)) as u64, end)),
    }
}

pub open spec fn count_at(b: Seq<u8>, pos: usize) -> Result<(usize, usize), PayloadError> {
    match word_at(b, pos) {
        Err(e) => Err(e),
        Ok((w, end)) => if w > usize::MAX {
            Err(PayloadError::FieldTooLarge { value: w })
        } else {
            Ok((w as usize, end))
        },
    }
}

pub open spec fn dims_at(b: Seq<u8>, pos: usize, n: nat) -> Result<
    (Seq<i32>, usize),
    PayloadError,
>
    decreases n,
{
    if n == 0 {
        Ok((Seq::empty(), pos))
    } else {
        match dims_at(b, pos, (n - 1) as nat) {
            Err(e) => Err(e),
            Ok((s, p)) => match word_at(b, p) {
                Err(e) => Err(e),
                Ok((w, end)) => if i32::MIN <= from_word(w) <= i32::MAX {
                    Ok((s.push(from_word(w) as i32), end))
                } else {
                    Err(PayloadError::DimOutOfRange { dim: from_word(w) })
                },
            },
        }
    }
}

pub open spec fn dtype_at(b: Seq<u8>, pos: usize, codes: DtypeCodes) -> Result<
    (Dtype, usize),
    PayloadError,
> {
    match word_at(b, pos) {
        Err(e) => Err(e),
        Ok((w, end)) => {
            let raw = from_word(w);
            if !(i32::MIN <= raw <= i32::MAX) {
                Err(PayloadError::UnknownDtype { raw })
            } else {
                match codes.decode(raw as i32) {
                    None => Err(PayloadError::UnknownDtype { raw }),
                    Some(d) => Ok((d, end)),
                }
            }
        },
    }
}

/// The bytes of an array of known element type and shape.
pub open spec fn body_at(b: Seq<u8>, pos: usize, dtype: Dtype, shape: Seq<i32>) -> Result<
    (ArrayView, usize),
    PayloadError,
> {
    match count_at(b, pos) {
        Err(e) => Err(e),
        Ok((len, p)) => match nbytes(shape, dtype) {
            Err(e) => Err(e),
            Ok(want) => if len != want {
                Err(PayloadError::SizeMismatch)
            } else {
                match take_at(b, p, len) {
                    Err(e) => Err(e),
                    Ok(end) => Ok(
                        (
                            ArrayView { dtype, shape, bytes: b.subrange(p as int, end as int) },
                            end,
                        ),
                    ),
                }
            },
        },
    }
}

pub open spec fn array_at(b: Seq<u8>, pos: usize, codes: DtypeCodes) -> Result<
    (ArrayView, usize),
    PayloadError,
> {
    match dtype_at(b, pos, codes) {
        Err(e) => Err(e),
        Ok((dtype, p1)) => match count_at(b, p1) {
            Err(e) => Err(e),
            Ok((ndim, p2)) => match dims_at(b, p2, ndim as nat) {
                Err(e) => Err(e),
                Ok((shape, p3)) => body_at(b, p3, dtype, shape),
            },
        },
    }
}

pub open spec fn array_seq_at(b: Seq<u8>, pos: usize, n: nat, codes: DtypeCodes) -> Result<
    (Seq<ArrayView>, usize),
    PayloadError,
>
    decreases n,
{
    if n == 0 {
        Ok((Seq::empty(), pos))
    } else {
        match array_seq_at(b, pos, (n - 1) as nat, codes) {
            Err(e) => Err(e),
            Ok((s, p)) => match array_at(b, p, codes) {
                Err(e) => Err(e),
                Ok((a, end)) => Ok((s.push(a), end)),
            },
        }
    }
}

/// A counted run of arrays that ends where the bytes end.
pub open spec fn arrays_to_end(b: Seq<u8>, pos: usize, codes: DtypeCodes) -> Result<
    Seq<ArrayView>,
    PayloadError,
> {
    match count_at(b, pos) {
        Err(e) => Err(e),
        Ok((n, p)) => match array_seq_at(b, p, n as nat, codes) {
            Err(e) => Err(e),
            Ok((s, end)) => if end != b.len() {
                Err(PayloadError::TrailingBytes { count: (b.len() - end) as usize })
            } else {
                Ok(s)
            },
        },
    }
}

pub open spec fn ids_at(b: Seq<u8>, pos: usize, n: nat) -> Result<(Seq<u64>, usize), PayloadError>
    decreases n,
{
    if n == 0 {
        Ok((Seq::empty(), pos))
    } else {
        match ids_at(b, pos, (n - 1) as nat) {
            Err(e) => Err(e),
            Ok((s, p)) => match word_at(b, p) {
                Err(e) => Err(e),
                Ok((w, end)) => Ok((s.push(w), end)),
            },
        }
    }
}

/// What a prefix payload holds for the key that was asked for.
pub open spec fn prefix_at(b: Seq<u8>, key: Seq<u64>, codes: DtypeCodes) -> Result<
    (usize, Seq<ArrayView>),
    PayloadError,
> {
    match count_at(b, 0) {
        Err(e) => Err(e),
        Ok((n, p)) => match ids_at(b, p, n as nat) {
            Err(e) => Err(e),
            Ok((ids, p2)) => if ids != key {
                Err(PayloadError::KeyMismatch)
            } else {
                match count_at(b, p2) {
                    Err(e) => Err(e),
                    Ok((cache_len, p3)) => match arrays_to_end(b, p3, codes) {
                        Err(e) => Err(e),
                        Ok(s) => Ok((cache_len, s)),
                    },
                }
            },
        },
    }
}

fn take(b: &[u8], pos: usize, n: usize) -> (r: Result<usize, PayloadError>)
    ensures
        r == take_at(b@, pos, n),
{
    match pos.checked_add(n) {
        None => Err(PayloadError::CursorOverflow),
        Some(end) => if end > b.len() {
            Err(PayloadError::Truncated { need: n, at: pos })
        } else {
            Ok(end)
        },
    }
}

fn read_word(b: &[u8], pos: usize) -> (r: Result<(u64, usize), PayloadError>)
    ensures
        r == word_at(b@, pos),
{
    match take(b, pos, 8) {
        Err(e) => Err(e),
        Ok(end) => Ok((read_le(b, pos, 8), end)),
    }
}

fn read_count(b: &[u8], pos: usize) -> (r: Result<(usize, usize), PayloadError>)
    ensures
        r == count_at(b@, pos),
{
    match read_word(b, pos) {
        Err(e) => Err(e),
        Ok((w, end)) => {
            if w > usize::MAX as u64 {
                Err(PayloadError::FieldTooLarge { value: w })
            } else {
                Ok((w as usize, end))
            }
        },
    }
}

proof fn lemma_dims_stop(b: Seq<u8>, pos: usize, k: nat, n: nat)
    requires
        k <= n,
        dims_at(b, pos, k) is Err,
    ensures
        dims_at(b, pos, n) == dims_at(b, pos, k),
    decreases n,
{
    if k < n {
        lemma_dims_stop(b, pos, k, (n - 1) as nat);
    }
}

fn read_dims(b: &[u8], pos: usize, n: usize) -> (r: Result<(Vec<i32>, usize), PayloadError>)
    ensures
        match (r, dims_at(b@, pos, n as nat)) {
            (Ok((v, p)), Ok((s, q))) => v@ == s && p == q,
            (Err(e), Err(f)) => e == f,
            _ => false,
        },
{
    let mut dims: Vec<i32> = Vec::new();
    let mut at: usize = pos;
    let mut i: usize = 0;
    while i < n
        invariant
            i <= n,
            dims_at(b@, pos, i as nat) == Ok::<(Seq<i32>, usize), PayloadError>((dims@, at)),
        decreases n - i,
    {
        match read_word(b, at) {
            Err(e) => {
                proof {
                    lemma_dims_stop(b@, pos, (i + 1) as nat, n as nat);
                }
                return Err(e);
            },
            Ok((w, end)) => {
                let dim: i64 = signed_of(w);
                if dim < i32::MIN as i64 || dim > i32::MAX as i64 {
                    proof {
                        lemma_dims_stop(b@, pos, (i + 1) as nat, n as nat);
                    }
                    return Err(PayloadError::DimOutOfRange { dim });
                }
                dims.push(dim as i32);
                at = end;
            },
        }
        i = i + 1;
    }
    Ok((dims, at))
}

fn read_dtype(b: &[u8], pos: usize, codes: &DtypeCodes) -> (r: Result<
    (Dtype, usize),
    PayloadError,
>)
    ensures
        r == dtype_at(b@, pos, *codes),
{
    match read_word(b, pos) {
        Err(e) => Err(e),
        Ok((w, end)) => {
            let raw: i64 = signed_of(w);
            if raw < i32::MIN as i64 || raw > i32::MAX as i64 {
                return Err(PayloadError::UnknownDtype { raw });
            }
            match Dtype::from_raw(raw as i32, codes) {
                None => Err(PayloadError::UnknownDtype { raw }),
                Some(d) => Ok((d, end)),
            }
        },
    }
}

fn read_array(b: &[u8], pos: usize, codes: &DtypeCodes) -> (r: Result<
    (HostArray, usize),
    PayloadError,
>)
    ensures
        match (r, array_at(b@, pos, *codes)) {
            (Ok((a, p)), Ok((s, q))) => a@ == s && p == q,
            (Err(e), Err(f)) => e == f,
            _ => false,
        },
{
    let (dtype, p1) = match read_dtype(b, pos, codes) {
        Err(e) => {
            return Err(e);
        },
        Ok(x) => x,
    };
    let (ndim, p2) = match read_count(b, p1) {
        Err(e) => {
            return Err(e);
        },
        Ok(x) => x,
    };
    let (shape, p3) = match read_dims(b, p2, ndim) {
        Err(e) => {
            return Err(e);
        },
        Ok(x) => x,
    };
    let (len, p4) = match read_count(b, p3) {
        Err(e) => {
            return Err(e);
        },
        Ok(x) => x,
    };
    match expected_array_nbytes(shape.as_slice(), dtype) {
        Err(e) => {
            return Err(e);
        },
        Ok(want) => {
            if len != want {
                return Err(PayloadError::SizeMismatch);
            }
        },
    }
    match take(b, p4, len) {
        Err(e) => Err(e),
        Ok(end) => Ok((HostArray { dtype, shape, bytes: copy_range(b, p4, end) }, end)),
    }
}

proof fn lemma_arrays_stop(b: Seq<u8>, pos: usize, k: nat, n: nat, codes: DtypeCodes)
    requires
        k <= n,
        array_seq_at(b, pos, k, codes) is Err,
    ensures
        array_seq_at(b, pos, n, codes) == array_seq_at(b, pos, k, codes),
    decreases n,
{
    if k < n {
        lemma_arrays_stop(b, pos, k, (n - 1) as nat, codes);
    }
}

fn read_arrays_to_end(b: &[u8], pos: usize, codes: &DtypeCodes) -> (r: Result<
    Vec<HostArray>,
    PayloadError,
>)
    requires
        pos <= b@.len(),
    ensures
        match (r, arrays_to_end(b@, pos, *codes)) {
            (Ok(v), Ok(s)) => views(v@) == s,
            (Err(e), Err(f)) => e == f,
            _ => false,
        },
{
    let (n, start) = match read_count(b, pos) {
        Err(e) => {
            return Err(e);
        },
        Ok(x) => x,
    };
    let mut out: Vec<HostArray> = Vec::new();
    let mut at: usize = start;
    let mut i: usize = 0;
    assert(views(out@) =~= Seq::<ArrayView>::empty());
    while i < n
        invariant
            i <= n,
            at <= b@.len(),
            count_at(b@, pos) == Ok::<(usize, usize), PayloadError>((n, start)),
            array_seq_at(b@, start, i as nat, *codes) == Ok::<
                (Seq<ArrayView>, usize),
                PayloadError,
            >((views(out@), at)),
        decreases n - i,
    {
        match read_array(b, at, codes) {
            Err(e) => {
                proof {
                    lemma_arrays_stop(b@, start, (i + 1) as nat, n as nat, *codes);
                }
                return Err(e);
            },
            Ok((a, end)) => {
                let ghost before = out@;
                out.push(a);
                assert(views(out@) =~= views(before).push(a@));
                at = end;
            },
        }
        i = i + 1;
    }
    if at != b.len() {
        Err(PayloadError::TrailingBytes { count: b.len() - at })
    } else {
        Ok(out)
    }
}

/// Reads a page payload back into its arrays.
pub fn decode_page_payload(b: &[u8], codes: &DtypeCodes) -> (r: Result<
    Vec<HostArray>,
    PayloadError,
>)
    ensures
        match (r, arrays_to_end(b@, 0, *codes)) {
            (Ok(v), Ok(s)) => views(v@) == s,
            (Err(e), Err(f)) => e == f,
            _ => false,
        },
{
    read_arrays_to_end(b, 0, codes)
}

proof fn lemma_ids_stop(b: Seq<u8>, pos: usize, k: nat, n: nat)
    requires
        k <= n,
        ids_at(b, pos, k) is Err,
    ensures
        ids_at(b, pos, n) == ids_at(b, pos, k),
    decreases n,
{
    if k < n {
        lemma_ids_stop(b, pos, k, (n - 1) as nat);
    }
}

fn read_ids(b: &[u8], pos: usize, n: usize) -> (r: Result<(Vec<u64>, usize), PayloadError>)
    requires
        pos <= b@.len(),
    ensures
        match (r, ids_at(b@, pos, n as nat)) {
            (Ok((v, p)), Ok((s, q))) => v@ == s && p == q && p <= b@.len(),
            (Err(e), Err(f)) => e == f,
            _ => false,
        },
{
    let mut ids: Vec<u64> = Vec::new();
    let mut at: usize = pos;
    let mut i: usize = 0;
    while i < n
        invariant
            i <= n,
            at <= b@.len(),
            ids_at(b@, pos, i as nat) == Ok::<(Seq<u64>, usize), PayloadError>((ids@, at)),
        decreases n - i,
    {
        match read_word(b, at) {
            Err(e) => {
                proof {
                    lemma_ids_stop(b@, pos, (i + 1) as nat, n as nat);
                }
                return Err(e);
            },
            Ok((w, end)) => {
                ids.push(w);
                at = end;
            },
        }
        i = i + 1;
    }
    Ok((ids, at))
}

pub fn same_ids(a: &[u64], b: &[u64]) -> (same: bool)
    ensures
        same == (a@ == b@),
{
    if a.len() != b.len() {
        return false;
    }
    let mut i: usize = 0;
    while i < a.len()
        invariant
            i <= a@.len(),
            a@.len() == b@.len(),
            forall|j: int| 0 <= j < i ==> a@[j] == b@[j],
        decreases a@.len() - i,
    {
        if a[i] != b[i] {
            return false;
        }
        i = i + 1;
    }
    assert(a@ =~= b@);
    true
}

/// Reads the prefix payload that is held for `key`: the token length and the
/// restore arrays.
pub fn decode_prefix_payload(b: &[u8], key: &[u64], codes: &DtypeCodes) -> (r: Result<
    (usize, Vec<HostArray>),
    PayloadError,
>)
    ensures
        match (r, prefix_at(b@, key@, *codes)) {
            (Ok((n, v)), Ok((m, s))) => n == m && views(v@) == s,
            (Err(e), Err(f)) => e == f,
            _ => false,
        },
{
    let (n, p) = match read_count(b, 0) {
        Err(e) => {
            return Err(e);
        },
        Ok(x) => x,
    };
    let (ids, p2) = match read_ids(b, p, n) {
        Err(e) => {
            return Err(e);
        },
        Ok(x) => x,
    };
    if !same_ids(ids.as_slice(), key) {
        return Err(PayloadError::KeyMismatch);
    }
    let (cache_len, p3) = match read_count(b, p2) {
        Err(e) => {
            return Err(e);
        },
        Ok(x) => x,
    };
    match read_arrays_to_end(b, p3, codes) {
        Err(e) => Err(e),
        Ok(v) => Ok((cache_len, v)),
    }
}

// ---- what a write gives back ----

proof fn lemma_word(b: Seq<u8>, pos: usize, n: nat)
    requires
        b.len() <= usize::MAX,
        pos + 8 <= b.len(),
        n < 0x1_0000_0000_0000_0000,
        b.subrange(pos as int, pos + 8) == le(n, 8),
    ensures
        word_at(b, pos) == Ok::<(u64, usize), PayloadError>((n as u64, (pos + 8) as usize)),
{
    lemma_pow256();
    lemma_le_value_of_le(n, 8);
}

proof fn lemma_dims_back(b: Seq<u8>, pos: usize, shape: Seq<i32>)
    requires
        b.len() <= usize::MAX,
        pos + dims_bytes(shape).len() <= b.len(),
        b.subrange(pos as int, pos + dims_bytes(shape).len()) == dims_bytes(shape),
    ensures
        dims_at(b, pos, shape.len()) == Ok::<(Seq<i32>, usize), PayloadError>(
            (shape, (pos + dims_bytes(shape).len()) as usize),
        ),
    decreases shape.len(),
{
    if shape.len() > 0 {
        let front = shape.drop_last();
        let head = dims_bytes(front);
        let w = to_word(shape.last() as int);
        lemma_le_len(w, 8);
        let whole = b.subrange(pos as int, pos + dims_bytes(shape).len());
        assert(b.subrange(pos as int, pos + head.len()) =~= whole.subrange(0, head.len() as int));
        assert(whole.subrange(0, head.len() as int) =~= head);
        lemma_dims_back(b, pos, front);
        let p = (pos + head.len()) as usize;
        assert(b.subrange(p as int, p + 8) =~= whole.subrange(
            head.len() as int,
            head.len() as int + 8,
        ));
        assert(whole.subrange(head.len() as int, head.len() as int + 8) =~= le(w, 8));
        lemma_word(b, p, w);
        assert(front.push(shape.last()) =~= shape);
    } else {
        assert(shape =~= Seq::<i32>::empty());
    }
}

/// A machine array: its lengths are what a machine can hold.
pub open spec fn held(a: ArrayView) -> bool {
    a.shape.len() <= usize::MAX && a.bytes.len() <= usize::MAX
}

proof fn lemma_array_back(b: Seq<u8>, pos: usize, a: ArrayView, codes: DtypeCodes)
    requires
        b.len() <= usize::MAX,
        codes.distinct(),
        sized(a),
        held(a),
        pos + array_bytes(a, codes).len() <= b.len(),
        b.subrange(pos as int, pos + array_bytes(a, codes).len()) == array_bytes(a, codes),
    ensures
        array_at(b, pos, codes) == Ok::<(ArrayView, usize), PayloadError>(
            (a, (pos + array_bytes(a, codes).len()) as usize),
        ),
{
    let code = to_word(codes.code(a.dtype) as int);
    let nd = a.shape.len();
    let db = dims_bytes(a.shape);
    let nb = a.bytes.len();
    lemma_le_len(code, 8);
    lemma_le_len(nd, 8);
    lemma_le_len(nb, 8);
    let enc = array_bytes(a, codes);
    let whole = b.subrange(pos as int, pos + enc.len());
    let p1 = (pos + 8) as usize;
    let p2 = (pos + 16) as usize;
    let p3 = (pos + 16 + db.len()) as usize;
    let p4 = (pos + 24 + db.len()) as usize;
    let end = (pos + enc.len()) as usize;
    assert(enc.len() == 24 + db.len() + nb);
    assert(b.subrange(pos as int, pos + 8) =~= whole.subrange(0, 8));
    assert(whole.subrange(0, 8) =~= le(code, 8));
    lemma_word(b, pos, code);
    codes_round_trip(codes, a.dtype, codes.code(a.dtype));
    assert(b.subrange(p1 as int, p1 + 8) =~= whole.subrange(8, 16));
    assert(whole.subrange(8, 16) =~= le(nd, 8));
    lemma_word(b, p1, nd);
    assert(b.subrange(p2 as int, p2 + db.len()) =~= whole.subrange(16, 16 + db.len() as int));
    assert(whole.subrange(16, 16 + db.len() as int) =~= db);
    lemma_dims_back(b, p2, a.shape);
    assert(b.subrange(p3 as int, p3 + 8) =~= whole.subrange(16 + db.len() as int, 24 + db.len() as int));
    assert(whole.subrange(16 + db.len() as int, 24 + db.len() as int) =~= le(nb, 8));
    lemma_word(b, p3, nb);
    assert(b.subrange(p4 as int, end as int) =~= whole.subrange(24 + db.len() as int, enc.len() as int));
    assert(whole.subrange(24 + db.len() as int, enc.len() as int) =~= a.bytes);
}

proof fn lemma_arrays_back(b: Seq<u8>, pos: usize, s: Seq<ArrayView>, codes: DtypeCodes)
    requires
        b.len() <= usize::MAX,
        codes.distinct(),
        forall|i: int| 0 <= i < s.len() ==> sized(#[trigger] s[i]) && held(s[i]),
        pos + array_seq_bytes(s, codes).len() <= b.len(),
        b.subrange(pos as int, pos + array_seq_bytes(s, codes).len()) == array_seq_bytes(s, codes),
    ensures
        array_seq_at(b, pos, s.len(), codes) == Ok::<(Seq<ArrayView>, usize), PayloadError>(
            (s, (pos + array_seq_bytes(s, codes).len()) as usize),
        ),
    decreases s.len(),
{
    if s.len() > 0 {
        let front = s.drop_last();
        let head = array_seq_bytes(front, codes);
        let tail = array_bytes(s.last(), codes);
        let whole = b.subrange(pos as int, pos + array_seq_bytes(s, codes).len());
        assert forall|i: int| 0 <= i < front.len() implies sized(#[trigger] front[i]) && held(
            front[i],
        ) by {
            assert(sized(s[i]));
        }
        assert(b.subrange(pos as int, pos + head.len()) =~= whole.subrange(0, head.len() as int));
        assert(whole.subrange(0, head.len() as int) =~= head);
        lemma_arrays_back(b, pos, front, codes);
        let p = (pos + head.len()) as usize;
        assert(b.subrange(p as int, p + tail.len()) =~= whole.subrange(
            head.len() as int,
            whole.len() as int,
        ));
        assert(whole.subrange(head.len() as int, whole.len() as int) =~= tail);
        assert(sized(s[s.len() - 1]));
        lemma_array_back(b, p, s.last(), codes);
        assert(front.push(s.last()) =~= s);
    } else {
        assert(s =~= Seq::<ArrayView>::empty());
    }
}

proof fn lemma_to_end_back(b: Seq<u8>, pos: usize, s: Seq<ArrayView>, codes: DtypeCodes)
    requires
        b.len() <= usize::MAX,
        codes.distinct(),
        s.len() <= usize::MAX,
        forall|i: int| 0 <= i < s.len() ==> sized(#[trigger] s[i]) && held(s[i]),
        pos + page_bytes(s, codes).len() == b.len(),
        b.subrange(pos as int, b.len() as int) == page_bytes(s, codes),
    ensures
        arrays_to_end(b, pos, codes) == Ok::<Seq<ArrayView>, PayloadError>(s),
{
    lemma_le_len(s.len(), 8);
    let whole = b.subrange(pos as int, b.len() as int);
    assert(b.subrange(pos as int, pos + 8) =~= whole.subrange(0, 8));
    assert(whole.subrange(0, 8) =~= le(s.len(), 8));
    lemma_word(b, pos, s.len());
    let p = (pos + 8) as usize;
    assert(b.subrange(p as int, b.len() as int) =~= whole.subrange(8, whole.len() as int));
    assert(whole.subrange(8, whole.len() as int) =~= array_seq_bytes(s, codes));
    lemma_arrays_back(b, p, s, codes);
}

/// Reading a page payload gives back the arrays that were written.
pub proof fn page_reads_back(s: Seq<ArrayView>, codes: DtypeCodes)
    requires
        codes.distinct(),
        encode_fault(s) is None,
        s.len() <= usize::MAX,
        forall|i: int| 0 <= i < s.len() ==> held(#[trigger] s[i]),
        page_bytes(s, codes).len() <= usize::MAX,
    ensures
        arrays_to_end(page_bytes(s, codes), 0, codes) == Ok::<Seq<ArrayView>, PayloadError>(s),
{
    writable_when_sized(s);
    let b = page_bytes(s, codes);
    assert(b.subrange(0, b.len() as int) =~= b);
    lemma_to_end_back(b, 0, s, codes);
}

proof fn lemma_ids_back(b: Seq<u8>, pos: usize, ids: Seq<u64>)
    requires
        b.len() <= usize::MAX,
        pos + ids_bytes(ids).len() <= b.len(),
        b.subrange(pos as int, pos + ids_bytes(ids).len()) == ids_bytes(ids),
    ensures
        ids_at(b, pos, ids.len()) == Ok::<(Seq<u64>, usize), PayloadError>(
            (ids, (pos + ids_bytes(ids).len()) as usize),
        ),
    decreases ids.len(),
{
    if ids.len() > 0 {
        let front = ids.drop_last();
        let head = ids_bytes(front);
        let w = ids.last() as nat;
        lemma_le_len(w, 8);
        let whole = b.subrange(pos as int, pos + ids_bytes(ids).len());
        assert(b.subrange(pos as int, pos + head.len()) =~= whole.subrange(0, head.len() as int));
        assert(whole.subrange(0, head.len() as int) =~= head);
        lemma_ids_back(b, pos, front);
        let p = (pos + head.len()) as usize;
        assert(b.subrange(p as int, p + 8) =~= whole.subrange(
            head.len() as int,
            head.len() as int + 8,
        ));
        assert(whole.subrange(head.len() as int, head.len() as int + 8) =~= le(w, 8));
        lemma_word(b, p, w);
        assert(front.push(ids.last()) =~= ids);
    } else {
        assert(ids =~= Seq::<u64>::empty());
    }
}

/// Reading a prefix payload under the key it was written for gives back its
/// length and arrays; under any other key it is refused, whatever the store
/// keys of the two are.
pub proof fn prefix_reads_back(
    key: Seq<u64>,
    asked: Seq<u64>,
    cache_len: usize,
    s: Seq<ArrayView>,
    codes: DtypeCodes,
)
    requires
        codes.distinct(),
        encode_fault(s) is None,
        key.len() <= usize::MAX,
        s.len() <= usize::MAX,
        forall|i: int| 0 <= i < s.len() ==> held(#[trigger] s[i]),
        prefix_bytes(key, cache_len as nat, s, codes).len() <= usize::MAX,
    ensures
        asked == key ==> prefix_at(prefix_bytes(key, cache_len as nat, s, codes), asked, codes)
            == Ok::<(usize, Seq<ArrayView>), PayloadError>((cache_len, s)),
        asked != key ==> prefix_at(prefix_bytes(key, cache_len as nat, s, codes), asked, codes)
            == Err::<(usize, Seq<ArrayView>), PayloadError>(PayloadError::KeyMismatch),
{
    writable_when_sized(s);
    let b = prefix_bytes(key, cache_len as nat, s, codes);
    let ib = ids_bytes(key);
    lemma_le_len(key.len(), 8);
    lemma_le_len(cache_len as nat, 8);
    assert(b.subrange(0, 8) =~= le(key.len(), 8));
    lemma_word(b, 0, key.len());
    assert(b.subrange(8, 8 + ib.len() as int) =~= ib);
    lemma_ids_back(b, 8, key);
    let p2 = (8 + ib.len()) as usize;
    assert(b.subrange(p2 as int, p2 + 8) =~= le(cache_len as nat, 8));
    lemma_word(b, p2, cache_len as nat);
    let p3 = (16 + ib.len()) as usize;
    assert(b.subrange(p3 as int, b.len() as int) =~= page_bytes(s, codes));
    lemma_to_end_back(b, p3, s, codes);
}

// ---- where a payload ends ----

proof fn lemma_take_stays(a: Seq<u8>, b: Seq<u8>, pos: usize, n: usize)
    requires
        a.is_prefix_of(b),
        take_at(a, pos, n) is Ok,
    ensures
        take_at(b, pos, n) == take_at(a, pos, n),
        a.subrange(pos as int, pos + n) == b.subrange(pos as int, pos + n),
{
    assert forall|i: int| pos <= i < pos + n implies a[i] == b[i] by {
        assert(b.subrange(0, a.len() as int)[i] == b[i]);
    }
    assert(a.subrange(pos as int, pos + n) =~= b.subrange(pos as int, pos + n));
}

proof fn lemma_word_stays(a: Seq<u8>, b: Seq<u8>, pos: usize)
    requires
        a.is_prefix_of(b),
        word_at(a, pos) is Ok,
    ensures
        word_at(b, pos) == word_at(a, pos),
{
    lemma_take_stays(a, b, pos, 8);
}

proof fn lemma_dims_stay(a: Seq<u8>, b: Seq<u8>, pos: usize, n: nat)
    requires
        a.is_prefix_of(b),
        dims_at(a, pos, n) is Ok,
    ensures
        dims_at(b, pos, n) == dims_at(a, pos, n),
    decreases n,
{
    if n > 0 {
        lemma_dims_stay(a, b, pos, (n - 1) as nat);
        lemma_word_stays(a, b, dims_at(a, pos, (n - 1) as nat)->Ok_0.1);
    }
}

proof fn lemma_array_stays(a: Seq<u8>, b: Seq<u8>, pos: usize, codes: DtypeCodes)
    requires
        a.is_prefix_of(b),
        array_at(a, pos, codes) is Ok,
    ensures
        array_at(b, pos, codes) == array_at(a, pos, codes),
{
    lemma_word_stays(a, b, pos);
    let p1 = dtype_at(a, pos, codes)->Ok_0.1;
    lemma_word_stays(a, b, p1);
    let (ndim, p2) = count_at(a, p1)->Ok_0;
    lemma_dims_stay(a, b, p2, ndim as nat);
    let (shape, p3) = dims_at(a, p2, ndim as nat)->Ok_0;
    lemma_word_stays(a, b, p3);
    let (len, p4) = count_at(a, p3)->Ok_0;
    lemma_take_stays(a, b, p4, len);
}

proof fn lemma_arrays_stay(a: Seq<u8>, b: Seq<u8>, pos: usize, n: nat, codes: DtypeCodes)
    requires
        a.is_prefix_of(b),
        array_seq_at(a, pos, n, codes) is Ok,
    ensures
        array_seq_at(b, pos, n, codes) == array_seq_at(a, pos, n, codes),
    decreases n,
{
    if n > 0 {
        lemma_arrays_stay(a, b, pos, (n - 1) as nat, codes);
        lemma_array_stays(a, b, array_seq_at(a, pos, (n - 1) as nat, codes)->Ok_0.1, codes);
    }
}

proof fn lemma_ids_stay(a: Seq<u8>, b: Seq<u8>, pos: usize, n: nat)
    requires
        a.is_prefix_of(b),
        ids_at(a, pos, n) is Ok,
    ensures
        ids_at(b, pos, n) == ids_at(a, pos, n),
    decreases n,
{
    if n > 0 {
        lemma_ids_stay(a, b, pos, (n - 1) as nat);
        lemma_word_stays(a, b, ids_at(a, pos, (n - 1) as nat)->Ok_0.1);
    }
}

proof fn lemma_to_end_stays(a: Seq<u8>, b: Seq<u8>, pos: usize, codes: DtypeCodes)
    requires
        a.is_prefix_of(b),
        a.len() < b.len(),
        arrays_to_end(a, pos, codes) is Ok,
    ensures
        arrays_to_end(b, pos, codes) == Err::<Seq<ArrayView>, PayloadError>(
            PayloadError::TrailingBytes { count: (b.len() - a.len()) as usize },
        ),
{
    lemma_word_stays(a, b, pos);
    let (n, p) = count_at(a, pos)->Ok_0;
    lemma_arrays_stay(a, b, p, n as nat, codes);
}

/// Bytes behind a page payload are refused, and counted.
pub proof fn a_longer_page_is_refused(page: Seq<u8>, longer: Seq<u8>, codes: DtypeCodes)
    requires
        arrays_to_end(page, 0, codes) is Ok,
        page.is_prefix_of(longer),
        page.len() < longer.len(),
    ensures
        arrays_to_end(longer, 0, codes) == Err::<Seq<ArrayView>, PayloadError>(
            PayloadError::TrailingBytes { count: (longer.len() - page.len()) as usize },
        ),
{
    lemma_to_end_stays(page, longer, 0, codes);
}

/// A page payload that is cut off anywhere is refused.
pub proof fn a_cut_page_is_refused(page: Seq<u8>, cut: Seq<u8>, codes: DtypeCodes)
    requires
        arrays_to_end(page, 0, codes) is Ok,
        cut.is_prefix_of(page),
        cut.len() < page.len(),
    ensures
        arrays_to_end(cut, 0, codes) is Err,
{
    if arrays_to_end(cut, 0, codes) is Ok {
        lemma_to_end_stays(cut, page, 0, codes);
    }
}

/// Bytes behind a prefix payload are refused, and counted.
pub proof fn a_longer_prefix_is_refused(
    prefix: Seq<u8>,
    longer: Seq<u8>,
    key: Seq<u64>,
    codes: DtypeCodes,
)
    requires
        prefix_at(prefix, key, codes) is Ok,
        prefix.is_prefix_of(longer),
        prefix.len() < longer.len(),
    ensures
        prefix_at(longer, key, codes) == Err::<(usize, Seq<ArrayView>), PayloadError>(
            PayloadError::TrailingBytes { count: (longer.len() - prefix.len()) as usize },
        ),
{
    lemma_word_stays(prefix, longer, 0);
    let (n, p) = count_at(prefix, 0)->Ok_0;
    lemma_ids_stay(prefix, longer, p, n as nat);
    let p2 = ids_at(prefix, p, n as nat)->Ok_0.1;
    lemma_word_stays(prefix, longer, p2);
    lemma_to_end_stays(prefix, longer, count_at(prefix, p2)->Ok_0.1, codes);
}

/// A prefix payload that is cut off anywhere is refused, whatever the key that
/// is asked for.
pub proof fn a_cut_prefix_is_refused(
    prefix: Seq<u8>,
    cut: Seq<u8>,
    key: Seq<u64>,
    asked: Seq<u64>,
    codes: DtypeCodes,
)
    requires
        prefix_at(prefix, key, codes) is Ok,
        cut.is_prefix_of(prefix),
        cut.len() < prefix.len(),
    ensures
        prefix_at(cut, asked, codes) is Err,
{
    if prefix_at(cut, asked, codes) is Ok {
        a_longer_prefix_is_refused(cut, prefix, asked, codes);
    }
}

} // verus!
