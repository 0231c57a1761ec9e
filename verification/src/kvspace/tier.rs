//! Whole-slot and recurrent-sidecar tier: key derivation, boundary math,
//! chunking and eviction coordination. The store itself is driven from
//! outside: this module says what to insert, read and remove, and is told
//! what the store answered.
use vstd::prelude::*;

use std::collections::HashMap;

use crate::bytes::copy_range;
#[allow(unused_imports)]
use crate::bytes::le;

verus! {

broadcast use vstd::std_specs::hash::group_hash_axioms;

/// Namespace of whole-slot images. One store holds every namespace, so the
/// numbers stay disjoint.
pub const NS_SLOT: u64 = 1;

/// Namespace of the pieces of whole-slot images.
pub const NS_SLOT_CHUNK: u64 = 2;

/// Namespace of recurrent-state blobs.
pub const NS_SIDECAR: u64 = 3;

/// Namespace of the pieces of recurrent-state blobs.
pub const NS_SIDECAR_CHUNK: u64 = 4;

/// Blobs are cut into pieces of 16 MiB.
pub const BLOB_CHUNK_BYTES: usize = 0x100_0000;

/// Keys fit 40 bits: the store packs a piece index below them and a
/// namespace above.
pub const KEY_LIMIT: u64 = 0x100_0000_0000;

/// Piece indices fit 16 bits.
pub const CHUNK_LIMIT: u64 = 0x1_0000;

pub const FNV_OFFSET: u64 = 14695981039346656037;

pub const FNV_PRIME: u64 = 1099511628211;

/// One FNV-1a step.
pub open spec fn fnv_step(h: u64, b: u8) -> u64 {
    (h ^ (b as u64)).wrapping_mul(FNV_PRIME)
}

/// FNV-1a over a byte string.
pub open spec fn fnv_bytes(h: u64, s: Seq<u8>) -> u64
    decreases s.len(),
{
    if s.len() == 0 {
        h
    } else {
        fnv_step(fnv_bytes(h, s.drop_last()), s.last())
    }
}

/// FNV-1a over the little-endian bytes of a token run.
pub open spec fn fnv_tokens(tokens: Seq<u32>) -> u64
    decreases tokens.len(),
{
    if tokens.len() == 0 {
        FNV_OFFSET
    } else {
        fnv_bytes(fnv_tokens(tokens.drop_last()), le(tokens.last() as nat, 4))
    }
}

/// The sidecar key of a token prefix.
pub open spec fn prefix_key(tokens: Seq<u32>) -> u64 {
    fnv_tokens(tokens) % KEY_LIMIT
}

fn fnv_byte(h: u64, b: u8) -> (r: u64)
    ensures
        r == fnv_step(h, b),
{
    (h ^ (b as u64)).wrapping_mul(FNV_PRIME)
}

proof fn lemma_fnv4(h: u64, t: nat)
    ensures
        fnv_bytes(h, le(t, 4)) == fnv_step(
            fnv_step(
                fnv_step(fnv_step(h, (t % 256) as u8), (t / 256 % 256) as u8),
                (t / 0x1_0000 % 256) as u8,
            ),
            (t / 0x100_0000 % 256) as u8,
        ),
{
    reveal_with_fuel(le, 5);
    reveal_with_fuel(fnv_bytes, 5);
    let s = le(t, 4);
    assert(t / 256 / 256 == t / 0x1_0000);
    assert(t / 256 / 256 / 256 == t / 0x100_0000);
    assert(s =~= seq![
        (t % 256) as u8,
        (t / 256 % 256) as u8,
        (t / 0x1_0000 % 256) as u8,
        (t / 0x100_0000 % 256) as u8,
    ]);
    assert(s.drop_last() =~= seq![
        (t % 256) as u8,
        (t / 256 % 256) as u8,
        (t / 0x1_0000 % 256) as u8,
    ]);
    assert(s.drop_last().drop_last() =~= seq![(t % 256) as u8, (t / 256 % 256) as u8]);
    assert(s.drop_last().drop_last().drop_last() =~= seq![(t % 256) as u8]);
    assert(s.drop_last().drop_last().drop_last().drop_last() =~= Seq::<u8>::empty());
}

/// FNV-1a hash of a token id slice, folded to the tier store's key space.
pub fn hash_prefix_tokens(tokens: &[u32]) -> (key: u64)
    ensures
        key == prefix_key(tokens@),
        key < KEY_LIMIT,
{
    let mut h: u64 = FNV_OFFSET;
    let mut i: usize = 0;
    assert(tokens@.take(0) =~= Seq::<u32>::empty());
    while i < tokens.len()
        invariant
            i <= tokens@.len(),
            h == fnv_tokens(tokens@.take(i as int)),
        decreases tokens@.len() - i,
    {
        let t: u32 = tokens[i];
        proof {
            lemma_fnv4(h, t as nat);
            let next = tokens@.take(i + 1);
            assert(next.drop_last() =~= tokens@.take(i as int));
            assert(next.last() == t);
        }
        h = fnv_byte(h, (t % 256) as u8);
        h = fnv_byte(h, (t / 256 % 256) as u8);
        h = fnv_byte(h, (t / 0x1_0000 % 256) as u8);
        h = fnv_byte(h, (t / 0x100_0000 % 256) as u8);
        i = i + 1;
    }
    assert(tokens@.take(tokens@.len() as int) =~= tokens@);
    assert(h & 0xff_ffff_ffff == h % 0x100_0000_0000) by (bit_vector);
    h & 0xff_ffff_ffff
}

/// The last page-aligned position strictly inside the prompt: the
/// exact-resend restore target.
pub fn sidecar_lstar(tokens_len: usize, page: usize) -> (b: usize)
    requires
        page > 0,
    ensures
        tokens_len > 0 ==> b == (tokens_len - 1) / page as int * page,
        tokens_len == 0 ==> b == 0,
        b % page == 0,
        tokens_len > 0 ==> b < tokens_len && tokens_len - b <= page,
{
    let last: usize = tokens_len.saturating_sub(1);
    proof {
        vstd::arithmetic::div_mod::lemma_fundamental_div_mod(last as int, page as int);
        assert((last / page) * page == page * (last / page)) by (nonlinear_arith);
        vstd::arithmetic::div_mod::lemma_mod_multiples_basic((last / page) as int, page as int);
    }
    last / page * page
}

/// Page-aligned matched length, clamped to the slot's materialized state and
/// the prompt. 0 when below one page.
pub fn sidecar_mat_len(
    matched_len: usize,
    slot_seq_len: usize,
    tokens_len: usize,
    page: usize,
) -> (b: usize)
    requires
        page > 0,
    ensures
        b == vstd::math::min(
            vstd::math::min(matched_len as int, slot_seq_len as int),
            tokens_len as int,
        ) / page as int * page,
        b <= matched_len && b <= slot_seq_len && b <= tokens_len,
        b % page == 0,
{
    let mut m: usize = matched_len;
    if slot_seq_len < m {
        m = slot_seq_len;
    }
    if tokens_len < m {
        m = tokens_len;
    }
    proof {
        vstd::arithmetic::div_mod::lemma_fundamental_div_mod(m as int, page as int);
        assert((m / page) * page == page * (m / page)) by (nonlinear_arith);
        vstd::arithmetic::div_mod::lemma_mod_multiples_basic((m / page) as int, page as int);
    }
    m / page * page
}

/// A periodic snapshot is worth saving only inside the matched prefix:
/// position 0 carries no state, and a position past `mat_len` would never be
/// probed.
pub fn sidecar_periodic_savable(pos: usize, mat_len: usize) -> (b: bool)
    ensures
        b == (0 < pos <= mat_len),
{
    pos != 0 && pos <= mat_len
}

/// The positive multiples of `stride` below `matched`, descending.
pub open spec fn boundaries_below(matched: nat, stride: nat) -> Seq<int> {
    let count = (matched - 1) / stride as int;
    Seq::new(count as nat, |i: int| (count - i) * stride)
}

/// Probe order: the exact matched length, then the stride boundaries below
/// it.
pub open spec fn candidates(matched: nat, stride: nat) -> Seq<int> {
    if matched == 0 {
        Seq::empty()
    } else {
        seq![matched as int] + boundaries_below(matched, stride)
    }
}

/// Probe order for a sidecar restore: the exact matched length first, then
/// stride boundaries descending.
pub fn sidecar_candidates(matched_len: usize, stride: usize) -> (out: Vec<usize>)
    requires
        stride > 0,
    ensures
        out@.map_values(|b: usize| b as int) == candidates(matched_len as nat, stride as nat),
{
    let mut out: Vec<usize> = Vec::new();
    if matched_len > 0 {
        out.push(matched_len);
    }
    let ghost below = (matched_len - 1) / stride as int;
    let ghost mut k: int = (matched_len / stride) as int;
    proof {
        lemma_boundary_count(matched_len as int, stride as int);
    }
    let mut b: usize = matched_len / stride * stride;
    while b >= stride
        invariant
            stride > 0,
            b == k * stride,
            k >= 0,
            matched_len == 0 ==> out@.len() == 0 && k == 0,
            matched_len > 0 ==> {
                &&& below == (matched_len - 1) / stride as int
                &&& below <= matched_len / stride <= below + 1
                &&& below < matched_len / stride ==> below * stride + stride
                    == matched_len
                &&& below * stride < matched_len
                &&& k <= matched_len / stride
                &&& out@.len() == 1 + below - vstd::math::min(k, below)
                &&& out@[0] == matched_len
                &&& forall|j: int| 1 <= j < out@.len() ==> #[trigger] out@[j] == (below - (j - 1))
                    * stride
            },
        decreases b,
    {
        proof {
            assert(k >= 1) by (nonlinear_arith)
                requires
                    b == k * stride,
                    b >= stride,
                    stride > 0,
            ;
            assert((k - 1) * stride == k * stride - stride) by (nonlinear_arith);
            if k <= below {
                assert(k * stride <= below * stride) by (nonlinear_arith)
                    requires
                        k <= below,
                        stride > 0,
                ;
            } else {
                assert(k == below + 1);
                assert((below + 1) * stride == below * stride + stride) by (nonlinear_arith);
            }
        }
        if b != matched_len {
            out.push(b);
        }
        b = b - stride;
        proof {
            k = k - 1;
        }
    }
    proof {
        assert(k == 0) by (nonlinear_arith)
            requires
                b == k * stride,
                b < stride,
                k >= 0,
                stride > 0,
        ;
        assert(out@.map_values(|b: usize| b as int) =~= candidates(
            matched_len as nat,
            stride as nat,
        ));
    }
    out
}

proof fn lemma_boundary_count(m: int, s: int)
    requires
        m >= 0,
        s > 0,
    ensures
        m / s * s <= m,
        m > 0 ==> (m - 1) / s <= m / s <= (m - 1) / s + 1,
        m > 0 && (m - 1) / s < m / s ==> (m - 1) / s * s + s == m,
        m > 0 ==> (m - 1) / s * s < m,
        m == 0 ==> m / s == 0,
{
    vstd::arithmetic::div_mod::lemma_fundamental_div_mod(m, s);
    if m > 0 {
        vstd::arithmetic::div_mod::lemma_fundamental_div_mod(m - 1, s);
        let q = m / s;
        let p = (m - 1) / s;
        let r = m % s;
        let t = (m - 1) % s;
        assert(p <= q <= p + 1 && (p < q ==> p * s + s == m) && p * s < m && q * s <= m)
            by (nonlinear_arith)
            requires
                s > 0,
                m == s * q + r,
                m - 1 == s * p + t,
                0 <= r < s,
                0 <= t < s,
        ;
    } else {
        vstd::arithmetic::div_mod::lemma_div_of0(s);
    }
}

/// The probe never asks twice: candidates strictly descend, from the matched
/// length, and stay positive.
pub proof fn candidates_descend(matched: nat, stride: nat)
    requires
        stride > 0,
    ensures
        forall|i: int, j: int|
            0 <= i < j < candidates(matched, stride).len() ==> #[trigger] candidates(
                matched,
                stride,
            )[i] > #[trigger] candidates(matched, stride)[j],
        forall|i: int|
            0 <= i < candidates(matched, stride).len() ==> 0 < #[trigger] candidates(
                matched,
                stride,
            )[i] <= matched,
{
    let c = candidates(matched, stride);
    let s = stride as int;
    if matched > 0 {
        lemma_boundary_count(matched as int, s);
        let count = (matched - 1) / s;
        assert forall|i: int, j: int| 0 <= i < j < c.len() implies #[trigger] c[i]
            > #[trigger] c[j] by {
            assert(c[j] == (count - (j - 1)) * s);
            if i == 0 {
                assert((count - (j - 1)) * s <= count * s) by (nonlinear_arith)
                    requires
                        j >= 1,
                        s > 0,
                ;
            } else {
                assert((count - (j - 1)) * s < (count - (i - 1)) * s) by (nonlinear_arith)
                    requires
                        i < j,
                        s > 0,
                ;
            }
        }
        assert forall|i: int| 0 <= i < c.len() implies 0 < #[trigger] c[i] <= matched by {
            if i > 0 {
                assert(0 < (count - (i - 1)) * s <= count * s) by (nonlinear_arith)
                    requires
                        1 <= i <= count,
                        s > 0,
                ;
            }
        }
    }
}

/// With a page-aligned matched length and a stride of whole pages, every
/// probe lands on a page boundary, where the saves are keyed.
pub proof fn candidates_page_aligned(matched: nat, stride: nat, page: nat)
    requires
        stride > 0,
        page > 0,
        matched % page == 0,
        stride % page == 0,
    ensures
        forall|i: int|
            0 <= i < candidates(matched, stride).len() ==> #[trigger] candidates(
                matched,
                stride,
            )[i] % page as int == 0,
{
    let c = candidates(matched, stride);
    if matched > 0 {
        let count = (matched - 1) / stride as int;
        assert forall|i: int| 0 <= i < c.len() implies #[trigger] c[i] % page as int == 0 by {
            if i > 0 {
                let k = count - (i - 1);
                vstd::arithmetic::div_mod::lemma_fundamental_div_mod(stride as int, page as int);
                let q = stride as int / page as int;
                assert(k * stride == (k * q) * page) by (nonlinear_arith)
                    requires
                        stride == page * q + 0,
                ;
                vstd::arithmetic::div_mod::lemma_mod_multiples_basic(k * q, page as int);
            }
        }
    }
}

/// What is saved is asked for: every stride boundary inside the matched
/// length is among the candidates, and so is the matched length itself.
pub proof fn saved_boundaries_are_probed(matched: nat, stride: nat, pos: nat)
    requires
        stride > 0,
        0 < pos <= matched,
        pos == matched || pos % stride == 0,
    ensures
        candidates(matched, stride).contains(pos as int),
{
    let c = candidates(matched, stride);
    if pos == matched {
        assert(c[0] == pos);
    } else {
        let s = stride as int;
        let count = (matched - 1) / s;
        let q = pos as int / s;
        vstd::arithmetic::div_mod::lemma_fundamental_div_mod(pos as int, s);
        vstd::arithmetic::div_mod::lemma_fundamental_div_mod(matched - 1, s);
        assert(1 <= q <= count && pos == q * s) by (nonlinear_arith)
            requires
                s > 0,
                0 < pos < matched,
                pos == s * q + 0,
                matched - 1 == s * count + (matched - 1) % s,
                0 <= (matched - 1) % s < s,
        ;
        let i = 1 + (count - q);
        assert(c[i] == (count - (i - 1)) * s);
        assert(c[i] == pos);
    }
}

/// The store key of `sub` under a namespace: the namespace is the top byte.
pub open spec fn tier_key_spec(ns: nat, sub: nat) -> nat {
    ns * 0x100_0000_0000_0000 + sub
}

/// The sub-key of one piece of a blob: the piece index is the low 16 bits.
pub open spec fn chunk_sub_spec(key: nat, idx: nat) -> nat {
    key * 0x1_0000 + idx
}

pub fn tier_key(ns: u64, sub: u64) -> (k: u64)
    requires
        ns < 0x100,
        sub < 0x100_0000_0000_0000,
    ensures
        k == tier_key_spec(ns as nat, sub as nat),
{
    ns * 0x100_0000_0000_0000 + sub
}

pub fn chunk_sub(key: u64, idx: u64) -> (sub: u64)
    requires
        key < KEY_LIMIT,
        idx < CHUNK_LIMIT,
    ensures
        sub == chunk_sub_spec(key as nat, idx as nat),
        sub < 0x100_0000_0000_0000,
{
    key * 0x1_0000 + idx
}

/// Store keys of different namespaces, of different blobs, and of different
/// pieces of one blob never meet.
pub proof fn store_keys_disjoint(
    ns1: nat,
    key1: nat,
    idx1: nat,
    ns2: nat,
    key2: nat,
    idx2: nat,
)
    requires
        key1 < KEY_LIMIT && key2 < KEY_LIMIT,
        idx1 < CHUNK_LIMIT && idx2 < CHUNK_LIMIT,
    ensures
        tier_key_spec(ns1, chunk_sub_spec(key1, idx1)) == tier_key_spec(
            ns2,
            chunk_sub_spec(key2, idx2),
        ) ==> ns1 == ns2 && key1 == key2 && idx1 == idx2,
        tier_key_spec(ns1, key1) == tier_key_spec(ns2, key2) ==> ns1 == ns2 && key1 == key2,
        ns1 != ns2 ==> tier_key_spec(ns1, key1) != tier_key_spec(ns2, chunk_sub_spec(key2, idx2)),
{
}

/// How many pieces a blob of `len` bytes takes.
pub open spec fn chunk_count(len: nat) -> nat {
    ((len + BLOB_CHUNK_BYTES - 1) / BLOB_CHUNK_BYTES as int) as nat
}

/// Piece `i` of a blob.
pub open spec fn chunk(bytes: Seq<u8>, i: int) -> Seq<u8> {
    bytes.subrange(
        i * BLOB_CHUNK_BYTES,
        vstd::math::min((i + 1) * BLOB_CHUNK_BYTES, bytes.len() as int),
    )
}

/// What goes to the store for one blob: the manifest under the blob's key,
/// then every piece under its own.
pub open spec fn blob_entries_ok(
    key: u64,
    bytes: Seq<u8>,
    manifest: Seq<u8>,
    entries: Seq<(u64, Vec<u8>)>,
) -> bool {
    &&& entries.len() == chunk_count(bytes.len()) + 1
    &&& entries[0].0 == tier_key_spec(NS_SIDECAR as nat, key as nat)
    &&& entries[0].1@ == manifest
    &&& forall|i: int|
        #![trigger entries[i + 1]]
        0 <= i < chunk_count(bytes.len()) ==> entries[i + 1].0 == tier_key_spec(
            NS_SIDECAR_CHUNK as nat,
            chunk_sub_spec(key as nat, i as nat),
        ) && entries[i + 1].1@ == chunk(bytes, i)
}

/// The pieces of the first `n` entries behind the manifest, put together.
pub open spec fn join_chunks(entries: Seq<(u64, Vec<u8>)>, n: nat) -> Seq<u8>
    decreases n,
{
    if n == 0 {
        Seq::empty()
    } else {
        join_chunks(entries, (n - 1) as nat) + entries[n as int].1@
    }
}

/// Splits a serialized snapshot into a manifest entry plus 16 MiB pieces,
/// keyed under the sidecar namespaces.
pub fn build_blob_entries(key: u64, bytes: &[u8], manifest: Vec<u8>) -> (r: (
    usize,
    Vec<(u64, Vec<u8>)>,
))
    requires
        key < KEY_LIMIT,
        bytes@.len() <= KEY_LIMIT,
    ensures
        r.0 == chunk_count(bytes@.len()),
        blob_entries_ok(key, bytes@, manifest@, r.1@),
{
    let total: usize = bytes.len();
    let chunks: usize = total / BLOB_CHUNK_BYTES + if total % BLOB_CHUNK_BYTES != 0 {
        1
    } else {
        0
    };
    assert(chunks == chunk_count(bytes@.len()));
    let mut entries: Vec<(u64, Vec<u8>)> = Vec::new();
    entries.push((tier_key(NS_SIDECAR, key), manifest));
    let mut idx: usize = 0;
    let mut from: usize = 0;
    while idx < chunks
        invariant
            idx <= chunks,
            chunks == chunk_count(bytes@.len()),
            total == bytes@.len() <= KEY_LIMIT,
            key < KEY_LIMIT,
            from == if idx < chunks {
                idx * BLOB_CHUNK_BYTES
            } else {
                total as int
            },
            entries@.len() == idx + 1,
            entries@[0].0 == tier_key_spec(NS_SIDECAR as nat, key as nat),
            entries@[0].1@ == manifest@,
            forall|i: int|
                #![trigger entries@[i + 1]]
                0 <= i < idx ==> entries@[i + 1].0 == tier_key_spec(
                    NS_SIDECAR_CHUNK as nat,
                    chunk_sub_spec(key as nat, i as nat),
                ) && entries@[i + 1].1@ == chunk(bytes@, i),
        decreases chunks - idx,
    {
        assert(idx * BLOB_CHUNK_BYTES < total);
        let to: usize = if total - from < BLOB_CHUNK_BYTES {
            total
        } else {
            from + BLOB_CHUNK_BYTES
        };
        let ghost before = entries@;
        entries.push(
            (
                tier_key(NS_SIDECAR_CHUNK, chunk_sub(key, idx as u64)),
                copy_range(bytes, from, to),
            ),
        );
        proof {
            assert forall|i: int|
                #![trigger entries@[i + 1]]
                0 <= i < idx + 1 implies entries@[i + 1].0 == tier_key_spec(
                NS_SIDECAR_CHUNK as nat,
                chunk_sub_spec(key as nat, i as nat),
            ) && entries@[i + 1].1@ == chunk(bytes@, i) by {
                if i < idx {
                    assert(entries@[i + 1] == before[i + 1]);
                }
            }
        }
        from = to;
        idx = idx + 1;
    }
    (chunks, entries)
}

proof fn lemma_join_chunks(
    key: u64,
    bytes: Seq<u8>,
    manifest: Seq<u8>,
    entries: Seq<(u64, Vec<u8>)>,
    n: nat,
)
    requires
        blob_entries_ok(key, bytes, manifest, entries),
        n <= chunk_count(bytes.len()),
    ensures
        join_chunks(entries, n) == bytes.subrange(
            0,
            vstd::math::min(n * BLOB_CHUNK_BYTES, bytes.len() as int),
        ),
    decreases n,
{
    if n == 0 {
        assert(join_chunks(entries, n) =~= bytes.subrange(0, 0));
    } else {
        lemma_join_chunks(key, bytes, manifest, entries, (n - 1) as nat);
        let i = n - 1;
        assert(entries[i + 1].1@ == chunk(bytes, i));
        assert((n - 1) * BLOB_CHUNK_BYTES < bytes.len());
        assert(join_chunks(entries, n) =~= bytes.subrange(
            0,
            vstd::math::min(n * BLOB_CHUNK_BYTES, bytes.len() as int),
        ));
    }
}

/// The pieces of a stored blob, put together in order, are the blob.
pub proof fn chunks_rebuild_blob(
    key: u64,
    bytes: Seq<u8>,
    manifest: Seq<u8>,
    entries: Seq<(u64, Vec<u8>)>,
)
    requires
        blob_entries_ok(key, bytes, manifest, entries),
    ensures
        join_chunks(entries, chunk_count(bytes.len())) == bytes,
{
    lemma_join_chunks(key, bytes, manifest, entries, chunk_count(bytes.len()));
    assert(bytes.subrange(0, bytes.len() as int) =~= bytes);
}

/// A recurrent snapshot's serialization, implemented by the backend's
/// snapshot type so that the tier can serialize off the engine step and the
/// restore probe can skip a corrupt payload without naming the model's type.
pub trait SidecarSnapshot: Send + 'static {
    fn serialize(self) -> Vec<u8> where Self: Sized;

    fn deserialize(bytes: &[u8]) -> Option<Self> where Self: Sized;
}

/// What to do with a batch of snapshots.
pub enum SidecarSubmit<S> {
    Nothing,
    /// Serialize and store each `(position, key, snapshot)` now.
    Inline(Vec<(usize, u64, S)>),
    /// Hand the batch, with the pages of its prefix, to the background
    /// thread.
    Background(Vec<(usize, u64, S)>, Vec<u32>),
}

/// The host state of the whole-slot and sidecar tier. A sidecar's lifetime
/// rides the radix blocks: the tail page of the prefix it covers owns its
/// eviction.
pub struct KvSlotTier {
    page: usize,
    sidecar_page_key: HashMap<u32, u64>,
    sidecar_sync: bool,
}

/// The page that owns the eviction of a blob saved at `pos`: the last page
/// the blob covers, or the last page known.
pub open spec fn tail_page(pos: nat, page: nat, prefix_pages: Seq<u32>) -> Option<u32> {
    let covered = pos as int / page as int - 1;
    let idx = if covered < 0 { 0 } else { covered };
    if idx < prefix_pages.len() {
        Some(prefix_pages[idx])
    } else if prefix_pages.len() > 0 {
        Some(prefix_pages.last())
    } else {
        None
    }
}

/// The owner map after the pages before `n` were released.
pub open spec fn owners_after_release(
    owners: Map<u32, u64>,
    pages: Seq<u32>,
    n: nat,
) -> Map<u32, u64>
    decreases n,
{
    if n == 0 {
        owners
    } else {
        owners_after_release(owners, pages, (n - 1) as nat).remove(pages[n - 1])
    }
}

/// The blob keys to drop when the pages before `n` are released, in order.
pub open spec fn released_keys(owners: Map<u32, u64>, pages: Seq<u32>, n: nat) -> Seq<u64>
    decreases n,
{
    if n == 0 {
        Seq::empty()
    } else {
        let before = owners_after_release(owners, pages, (n - 1) as nat);
        let done = released_keys(owners, pages, (n - 1) as nat);
        if before.contains_key(pages[n - 1]) {
            done.push(before[pages[n - 1]])
        } else {
            done
        }
    }
}

impl KvSlotTier {
    /// Which page owns the eviction of which sidecar key.
    pub closed spec fn owners(&self) -> Map<u32, u64> {
        self.sidecar_page_key@
    }

    pub closed spec fn page_tokens(&self) -> usize {
        self.page
    }

    pub closed spec fn is_sync(&self) -> bool {
        self.sidecar_sync
    }

    pub fn new(page: usize, sync: bool) -> (tier: Self)
        ensures
            tier.page_tokens() == page,
            tier.is_sync() == sync,
            tier.owners() == Map::<u32, u64>::empty(),
    {
        KvSlotTier { page, sidecar_page_key: HashMap::new(), sidecar_sync: sync }
    }

    /// Records the eviction owner of a blob that the store accepted
    /// (`inserted`), and gives the key of the blob it displaced, which is to
    /// be removed.
    pub fn store_sidecar_blob(
        &mut self,
        pos: usize,
        key: u64,
        inserted: bool,
        prefix_pages: &[u32],
    ) -> (displaced: Option<u64>)
        requires
            old(self).page_tokens() > 0,
        ensures
            final(self).page_tokens() == old(self).page_tokens(),
            final(self).is_sync() == old(self).is_sync(),
            ({
                let tail = tail_page(
                    pos as nat,
                    old(self).page_tokens() as nat,
                    prefix_pages@,
                );
                let owners = old(self).owners();
                if inserted && tail is Some {
                    &&& final(self).owners() == owners.insert(tail->0, key)
                    &&& displaced == if owners.contains_key(tail->0) && owners[tail->0] != key {
                        Some(owners[tail->0])
                    } else {
                        None
                    }
                } else {
                    final(self).owners() == owners && displaced is None
                }
            }),
    {
        if !inserted {
            return None;
        }
        let covered: usize = (pos / self.page).saturating_sub(1);
        let tail: u32 = if covered < prefix_pages.len() {
            prefix_pages[covered]
        } else if prefix_pages.len() > 0 {
            prefix_pages[prefix_pages.len() - 1]
        } else {
            return None;
        };
        match self.sidecar_page_key.insert(tail, key) {
            Some(displaced) => if displaced != key {
                Some(displaced)
            } else {
                None
            },
            None => None,
        }
    }

    /// Where a batch of snapshots goes: nowhere when empty, inline or to the
    /// background thread as constructed.
    pub fn submit_sidecar<S: SidecarSnapshot>(
        &self,
        items: Vec<(usize, u64, S)>,
        prefix_pages: &[u32],
    ) -> (action: SidecarSubmit<S>)
        ensures
            match action {
                SidecarSubmit::Nothing => items@.len() == 0,
                SidecarSubmit::Inline(batch) => items@.len() > 0 && self.is_sync() && batch
                    == items,
                SidecarSubmit::Background(batch, pages) => items@.len() > 0 && !self.is_sync()
                    && batch == items && pages@ == prefix_pages@,
            },
    {
        if items.len() == 0 {
            return SidecarSubmit::Nothing;
        }
        if self.sidecar_sync {
            SidecarSubmit::Inline(items)
        } else {
            let mut pages: Vec<u32> = Vec::new();
            let mut i: usize = 0;
            while i < prefix_pages.len()
                invariant
                    i <= prefix_pages@.len(),
                    pages@ == prefix_pages@.take(i as int),
                decreases prefix_pages@.len() - i,
            {
                pages.push(prefix_pages[i]);
                i = i + 1;
                assert(prefix_pages@.take(i as int) =~= prefix_pages@.take(i - 1).push(
                    prefix_pages@[i - 1],
                ));
            }
            assert(prefix_pages@.take(prefix_pages@.len() as int) =~= prefix_pages@);
            SidecarSubmit::Background(items, pages)
        }
    }

    /// Drops the sidecar blobs keyed to evicted radix pages, and gives the
    /// keys to remove from the store.
    pub fn release_sidecar_pages(&mut self, pages: &[u32]) -> (keys: Vec<u64>)
        ensures
            final(self).owners() == owners_after_release(
                old(self).owners(),
                pages@,
                pages@.len(),
            ),
            keys@ == released_keys(old(self).owners(), pages@, pages@.len()),
            final(self).page_tokens() == old(self).page_tokens(),
            final(self).is_sync() == old(self).is_sync(),
    {
        let mut keys: Vec<u64> = Vec::new();
        let ghost owners = self.owners();
        let mut i: usize = 0;
        while i < pages.len()
            invariant
                i <= pages@.len(),
                owners == old(self).owners(),
                self.owners() == owners_after_release(owners, pages@, i as nat),
                keys@ == released_keys(owners, pages@, i as nat),
                self.page_tokens() == old(self).page_tokens(),
                self.is_sync() == old(self).is_sync(),
            decreases pages@.len() - i,
        {
            let page: u32 = pages[i];
            let ghost before = self.owners();
            match self.sidecar_page_key.remove(&page) {
                Some(key) => {
                    keys.push(key);
                },
                None => {
                    assert(before.remove(page) =~= before);
                },
            }
            i = i + 1;
        }
        keys
    }

    /// Drops every tracked sidecar blob, as on a weight-epoch change, and
    /// gives the keys to remove from the store, in no particular order.
    pub fn drop_all_sidecar(&mut self) -> (keys: Vec<u64>)
        ensures
            final(self).owners() == Map::<u32, u64>::empty(),
            keys@.len() == old(self).owners().dom().len(),
            forall|k: u64| #[trigger]
                keys@.contains(k) <==> old(self).owners().values().contains(k),
            final(self).page_tokens() == old(self).page_tokens(),
            final(self).is_sync() == old(self).is_sync(),
    {
        let mut keys: Vec<u64> = Vec::new();
        for key in it: self.sidecar_page_key.values()
            invariant
                keys@ == it.seq().unref().take(it.index() as int),
                it.seq().unref().to_set() == self.sidecar_page_key@.values(),
                it.seq().len() == self.sidecar_page_key@.dom().len(),
                it.index() == it.seq().len() ==> keys@ == it.seq().unref(),
        {
            proof {
                let all = it.seq().unref();
                assert(all.take(it.index() as int + 1) =~= all.take(it.index() as int).push(*key));
                assert(all.take(all.len() as int) =~= all);
            }
            keys.push(*key);
        }
        proof {
            assert(keys@.to_set() == self.sidecar_page_key@.values());
            assert forall|k: u64| #[trigger] keys@.contains(k) <==> old(
                self,
            ).owners().values().contains(k) by {
                assert(keys@.to_set().contains(k) <==> keys@.contains(k));
            }
        }
        self.sidecar_page_key.clear();
        keys
    }
}

proof fn lemma_release_keeps(owners: Map<u32, u64>, pages: Seq<u32>, n: nat, page: u32)
    requires
        n <= pages.len(),
    ensures
        owners_after_release(owners, pages, n).contains_key(page) <==> owners.contains_key(page)
            && !pages.take(n as int).contains(page),
        owners_after_release(owners, pages, n).contains_key(page) ==> owners_after_release(
            owners,
            pages,
            n,
        )[page] == owners[page],
    decreases n,
{
    if n > 0 {
        lemma_release_keeps(owners, pages, (n - 1) as nat, page);
        let shorter = pages.take(n - 1);
        let longer = pages.take(n as int);
        assert(longer =~= shorter.push(pages[n - 1]));
        if shorter.contains(page) {
            let i = choose|i: int| 0 <= i < shorter.len() && shorter[i] == page;
            assert(longer[i] == page);
        }
        if pages[n - 1] == page {
            assert(longer[n - 1] == page);
        }
        if longer.contains(page) {
            let i = choose|i: int| 0 <= i < longer.len() && longer[i] == page;
            if i < n - 1 {
                assert(shorter[i] == page);
            }
        }
    }
}

/// Eviction rides the tail page: releasing other pages keeps a blob's owner,
/// and releasing the owner drops the blob.
pub proof fn eviction_rides_the_tail_page(owners: Map<u32, u64>, pages: Seq<u32>, tail: u32)
    requires
        owners.contains_key(tail),
    ensures
        !pages.contains(tail) ==> owners_after_release(owners, pages, pages.len()).contains_key(
            tail,
        ) && owners_after_release(owners, pages, pages.len())[tail] == owners[tail],
        pages.contains(tail) ==> !owners_after_release(
            owners,
            pages,
            pages.len(),
        ).contains_key(tail) && released_keys(owners, pages, pages.len()).contains(owners[tail]),
{
    lemma_release_keeps(owners, pages, pages.len(), tail);
    assert(pages.take(pages.len() as int) =~= pages);
    if pages.contains(tail) {
        lemma_released_contains(owners, pages, pages.len(), tail);
    }
}

proof fn lemma_released_contains(owners: Map<u32, u64>, pages: Seq<u32>, n: nat, page: u32)
    requires
        n <= pages.len(),
        owners.contains_key(page),
        pages.take(n as int).contains(page),
    ensures
        released_keys(owners, pages, n).contains(owners[page]),
    decreases n,
{
    if n > 0 {
        let shorter = pages.take(n - 1);
        let longer = pages.take(n as int);
        let done = released_keys(owners, pages, (n - 1) as nat);
        let all = released_keys(owners, pages, n);
        let before = owners_after_release(owners, pages, (n - 1) as nat);
        lemma_release_keeps(owners, pages, (n - 1) as nat, page);
        if shorter.contains(page) {
            lemma_released_contains(owners, pages, (n - 1) as nat, page);
            let i = choose|i: int| 0 <= i < done.len() && done[i] == owners[page];
            assert(all[i] == owners[page]);
        } else {
            let i = choose|i: int| 0 <= i < longer.len() && longer[i] == page;
            assert(i == n - 1) by {
                if i < n - 1 {
                    assert(shorter[i] == page);
                }
            }
            assert(all.last() == owners[page]);
        }
    } else {
        assert(pages.take(0).len() == 0);
    }
}

/// The candidates of a restore probe, each with the key of its blob, in the
/// order in which they are tried.
pub fn probe_keys(tokens: &[u32], matched_len: usize, stride: usize) -> (probes: Vec<(usize, u64)>)
    requires
        stride > 0,
        matched_len <= tokens@.len(),
    ensures
        probes@.len() == candidates(matched_len as nat, stride as nat).len(),
        forall|i: int|
            0 <= i < probes@.len() ==> (#[trigger] probes@[i]).0 as int == candidates(
                matched_len as nat,
                stride as nat,
            )[i] && probes@[i].1 == prefix_key(tokens@.take(probes@[i].0 as int)),
{
    let bounds = sidecar_candidates(matched_len, stride);
    let mut probes: Vec<(usize, u64)> = Vec::new();
    let ghost want = candidates(matched_len as nat, stride as nat);
    proof {
        candidates_descend(matched_len as nat, stride as nat);
    }
    let mut i: usize = 0;
    while i < bounds.len()
        invariant
            i <= bounds@.len(),
            probes@.len() == i,
            matched_len <= tokens@.len(),
            bounds@.map_values(|b: usize| b as int) == want,
            forall|j: int| 0 <= j < want.len() ==> 0 < #[trigger] want[j] <= matched_len,
            forall|j: int|
                0 <= j < i ==> (#[trigger] probes@[j]).0 as int == want[j] && probes@[j].1
                    == prefix_key(tokens@.take(probes@[j].0 as int)),
        decreases bounds@.len() - i,
    {
        let b: usize = bounds[i];
        proof {
            assert(want[i as int] == b as int);
            assert(tokens@.take(b as int) =~= tokens@.subrange(0, b as int));
        }
        let key: u64 = hash_prefix_tokens(vstd::slice::slice_subrange(tokens, 0, b));
        probes.push((b, key));
        i = i + 1;
    }
    probes
}

/// The outcome of a restore probe: the first candidate whose payload was
/// read and decoded. `decoded[i]` is what candidate `i` gave, `None` for a
/// missing, foreign or corrupt payload.
pub fn pick_sidecar<S>(probes: &[(usize, u64)], decoded: Vec<Option<S>>) -> (r: Option<(usize, S)>)
    requires
        probes@.len() == decoded@.len(),
    ensures
        r is None <==> (forall|i: int| 0 <= i < decoded@.len() ==> decoded@[i] is None),
        r is Some ==> exists|i: int| #[trigger]
            first_hit(decoded@, i) && r == Some((probes@[i].0, decoded@[i]->0)),
{
    let mut rest = decoded;
    let mut hit: Option<(usize, S)> = None;
    let mut i: usize = rest.len();
    while i > 0
        invariant
            i <= decoded@.len(),
            rest@ == decoded@.take(i as int),
            probes@.len() == decoded@.len(),
            hit is None <==> (forall|j: int| i <= j < decoded@.len() ==> decoded@[j] is None),
            hit is Some ==> exists|j: int| #[trigger]
                first_hit_from(decoded@, i as int, j) && hit == Some(
                    (probes@[j].0, decoded@[j]->0),
                ),
        decreases i,
    {
        i = i - 1;
        let item = rest.pop();
        assert(rest@ =~= decoded@.take(i as int));
        match item {
            Some(Some(snap)) => {
                hit = Some((probes[i].0, snap));
                assert(first_hit_from(decoded@, i as int, i as int));
            },
            _ => {
                proof {
                    if hit is Some {
                        let j = choose|j: int| #[trigger]
                            first_hit_from(decoded@, i + 1, j) && hit == Some(
                                (probes@[j].0, decoded@[j]->0),
                            );
                        assert(first_hit_from(decoded@, i as int, j));
                    }
                }
            },
        }
    }
    proof {
        if hit is Some {
            let j = choose|j: int| #[trigger]
                first_hit_from(decoded@, 0, j) && hit == Some((probes@[j].0, decoded@[j]->0));
            assert(first_hit(decoded@, j));
        }
    }
    hit
}

/// `i` is the first position that holds a value.
pub open spec fn first_hit<S>(decoded: Seq<Option<S>>, i: int) -> bool {
    first_hit_from(decoded, 0, i)
}

/// `i` is the first position from `from` on that holds a value.
pub open spec fn first_hit_from<S>(decoded: Seq<Option<S>>, from: int, i: int) -> bool {
    &&& from <= i < decoded.len()
    &&& decoded[i] is Some
    &&& forall|j: int| from <= j < i ==> decoded[j] is None
}

/// The store's way of reaching its disk.
#[derive(Debug, Clone, Copy, PartialEq, Eq, Structural)]
pub enum DiskIoMode {
    Direct,
    Mmap,
    Other,
}

/// The store's raw IO counters.
#[derive(Debug, Clone, Copy, PartialEq, Eq, Structural)]
pub struct TierIoStats {
    pub mode: DiskIoMode,
    pub useful_read_bytes: u64,
    pub useful_write_bytes: u64,
    pub submitted_read_bytes: u64,
    pub submitted_write_bytes: u64,
    pub metadata_write_bytes: u64,
    pub failures: u64,
    pub completion_wait_ns: u64,
}

/// How the engine reports the tier's IO mode.
#[derive(Debug, Clone, Copy, PartialEq, Eq, Structural)]
pub enum KvTierIoMode {
    Direct,
    Mmap,
    Disabled,
}

/// The engine's IO counters.
#[derive(Debug, Clone, Copy, PartialEq, Eq, Structural)]
pub struct KvTierIoStats {
    pub mode: KvTierIoMode,
    pub useful_read_bytes: u64,
    pub useful_write_bytes: u64,
    pub submitted_read_bytes: u64,
    pub submitted_write_bytes: u64,
    pub metadata_write_bytes: u64,
    pub failures: u64,
    pub completion_wait_ns: u64,
}

/// Maps the store's raw IO stats to the engine's.
pub fn tier_io_stats(s: &TierIoStats) -> (r: KvTierIoStats)
    ensures
        r.mode == (match s.mode {
            DiskIoMode::Direct => KvTierIoMode::Direct,
            DiskIoMode::Mmap => KvTierIoMode::Mmap,
            DiskIoMode::Other => KvTierIoMode::Disabled,
        }),
        r.useful_read_bytes == s.useful_read_bytes,
        r.useful_write_bytes == s.useful_write_bytes,
        r.submitted_read_bytes == s.submitted_read_bytes,
        r.submitted_write_bytes == s.submitted_write_bytes,
        r.metadata_write_bytes == s.metadata_write_bytes,
        r.failures == s.failures,
        r.completion_wait_ns == s.completion_wait_ns,
{
    KvTierIoStats {
        mode: match s.mode {
            DiskIoMode::Direct => KvTierIoMode::Direct,
            DiskIoMode::Mmap => KvTierIoMode::Mmap,
            DiskIoMode::Other => KvTierIoMode::Disabled,
        },
        useful_read_bytes: s.useful_read_bytes,
        useful_write_bytes: s.useful_write_bytes,
        submitted_read_bytes: s.submitted_read_bytes,
        submitted_write_bytes: s.submitted_write_bytes,
        metadata_write_bytes: s.metadata_write_bytes,
        failures: s.failures,
        completion_wait_ns: s.completion_wait_ns,
    }
}

} // verus!
