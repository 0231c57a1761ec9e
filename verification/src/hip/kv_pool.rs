//! Per-slot KV shapes and the host bookkeeping of a paged pool.
//!
//! Every layer of a slot holds a sliding-window ring; compressed layers add
//! the pending, previous-overlap and compressed regions, and sparse layers
//! (ratio 1 to 15) add the same family at indexer width. The pool keeps a
//! LIFO list of free pages; retained pages survive `free_slot`.
use vstd::prelude::*;

use std::collections::HashMap;

use crate::hip::config::DeepSeekV4Config;
use crate::math::{div_ceil, max_usize, min_usize};
#[allow(unused_imports)]
use crate::math::{ceil_div, lemma_ceil_div, max_nat, min_nat};

verus! {

broadcast use vstd::std_specs::hash::group_hash_axioms;

/// Element counts (bf16) of one compressor or indexer ring family.
#[derive(Debug, Clone, Copy, PartialEq, Eq, Structural)]
pub struct Dsv4CompressorShapeElems {
    pub pending_kv: usize,
    pub pending_score: usize,
    pub prev_overlap_kv: usize,
    pub prev_overlap_score: usize,
    pub compressed: usize,
}

/// Elements in one pending region: `ratio` rows, doubled with overlap.
pub open spec fn pending_elems(head_dim: nat, ratio: nat, overlap: bool) -> nat {
    ratio * if overlap { 2 * head_dim } else { head_dim }
}

/// Elements in the compressed region: a row per `ratio` tokens, and at least
/// one.
pub open spec fn compressed_elems(head_dim: nat, ratio: nat, max_seq_len: nat) -> nat {
    head_dim * max_nat(ceil_div(max_seq_len, ratio), 1)
}

/// Elements in the whole family.
pub open spec fn family_elems(head_dim: nat, ratio: nat, overlap: bool, max_seq_len: nat) -> nat {
    2 * pending_elems(head_dim, ratio, overlap) + 2 * (ratio * head_dim) + compressed_elems(
        head_dim,
        ratio,
        max_seq_len,
    )
}

/// Every region of a family fits by itself.
pub open spec fn family_fits(head_dim: nat, ratio: nat, overlap: bool, max_seq_len: nat) -> bool {
    &&& pending_elems(head_dim, ratio, overlap) <= usize::MAX
    &&& compressed_elems(head_dim, ratio, max_seq_len) <= usize::MAX
}

impl Dsv4CompressorShapeElems {
    pub open spec fn elems(&self) -> nat {
        (self.pending_kv + self.pending_score + self.prev_overlap_kv + self.prev_overlap_score
            + self.compressed) as nat
    }

    pub fn new(head_dim: usize, ratio: usize, overlap: bool, max_seq_len: usize) -> (r: Self)
        requires
            ratio > 0,
            family_fits(head_dim as nat, ratio as nat, overlap, max_seq_len as nat),
        ensures
            r.pending_kv == pending_elems(head_dim as nat, ratio as nat, overlap),
            r.pending_score == r.pending_kv,
            r.prev_overlap_kv == ratio * head_dim,
            r.prev_overlap_score == r.prev_overlap_kv,
            r.compressed == compressed_elems(head_dim as nat, ratio as nat, max_seq_len as nat),
            r.elems() == family_elems(
                head_dim as nat,
                ratio as nat,
                overlap,
                max_seq_len as nat,
            ),
    {
        proof {
            let h = head_dim as int;
            let q = ratio as int;
            assert(h <= q * h && 2 * h <= q * (2 * h)) by (nonlinear_arith)
                requires
                    q >= 1,
                    h >= 0,
            ;
            assert(q * (2 * h) == 2 * (q * h)) by (nonlinear_arith);
        }
        let width: usize = if overlap {
            2 * head_dim
        } else {
            head_dim
        };
        let pending: usize = ratio * width;
        let prev: usize = ratio * head_dim;
        let rows: usize = max_usize(div_ceil(max_seq_len, ratio), 1);
        Dsv4CompressorShapeElems {
            pending_kv: pending,
            pending_score: pending,
            prev_overlap_kv: prev,
            prev_overlap_score: prev,
            compressed: head_dim * rows,
        }
    }

    pub fn total(&self) -> (n: usize)
        requires
            self.elems() <= usize::MAX,
        ensures
            n == self.elems(),
    {
        self.pending_kv + self.pending_score + self.prev_overlap_kv + self.prev_overlap_score
            + self.compressed
    }
}

#[derive(Debug, Clone, Copy, PartialEq, Eq, Structural)]
pub struct Dsv4LayerSlotShape {
    pub compress_ratio: usize,
    pub sw_window: usize,
    pub compressor: Option<Dsv4CompressorShapeElems>,
    pub indexer: Option<Dsv4CompressorShapeElems>,
}

/// Elements of an optional family.
pub open spec fn opt_elems(family: Option<Dsv4CompressorShapeElems>) -> nat {
    match family {
        Some(c) => c.elems(),
        None => 0,
    }
}

impl Dsv4LayerSlotShape {
    pub open spec fn elems(&self) -> nat {
        self.sw_window as nat + opt_elems(self.compressor) + opt_elems(self.indexer)
    }

    pub fn total_elems(&self) -> (n: usize)
        requires
            self.elems() <= usize::MAX,
        ensures
            n == self.elems(),
    {
        let mut n: usize = self.sw_window;
        if let Some(c) = self.compressor {
            n = n + c.total();
        }
        if let Some(c) = self.indexer {
            n = n + c.total();
        }
        n
    }
}

#[derive(Debug)]
pub struct Dsv4SlotShape {
    pub layers: Vec<Dsv4LayerSlotShape>,
    pub max_seq_len: usize,
}

/// Elements of the first `n` layers.
pub open spec fn layers_elems(layers: Seq<Dsv4LayerSlotShape>, n: nat) -> nat
    decreases n,
{
    if n == 0 {
        0
    } else {
        layers_elems(layers, (n - 1) as nat) + layers[n - 1].elems()
    }
}

pub proof fn lemma_layers_elems_mono(layers: Seq<Dsv4LayerSlotShape>, n: nat, m: nat)
    requires
        n <= m,
    ensures
        layers_elems(layers, n) <= layers_elems(layers, m),
    decreases m - n,
{
    if n < m {
        lemma_layers_elems_mono(layers, n, (m - 1) as nat);
    }
}

/// Elements of a layer of the given ratio.
pub open spec fn layer_elems(config: DeepSeekV4Config, ratio: nat, max_seq_len: nat) -> nat {
    config.sliding_window as nat * config.head_dim as nat + if ratio > 0 {
        family_elems(config.head_dim as nat, ratio, ratio < 16, max_seq_len)
    } else {
        0
    } + if 0 < ratio < 16 {
        family_elems(config.index_head_dim as nat, ratio, true, max_seq_len)
    } else {
        0
    }
}

/// Every region of a layer of the given ratio fits by itself.
pub open spec fn layer_regions_fit(config: DeepSeekV4Config, ratio: nat, max_seq_len: nat) -> bool {
    &&& config.sliding_window * config.head_dim <= usize::MAX
    &&& ratio > 0 ==> family_fits(config.head_dim as nat, ratio, ratio < 16, max_seq_len)
    &&& 0 < ratio < 16 ==> family_fits(config.index_head_dim as nat, ratio, true, max_seq_len)
}

/// Every region of every layer that a configuration shapes fits by itself.
pub open spec fn slot_regions_fit(config: DeepSeekV4Config, max_seq_len: nat) -> bool {
    forall|i: int|
        0 <= i < shaped_layers(config) ==> layer_regions_fit(
            config,
            #[trigger] config.compress_ratios@[i] as nat,
            max_seq_len,
        )
}

/// Number of layers that a configuration shapes.
pub open spec fn shaped_layers(config: DeepSeekV4Config) -> nat {
    min_nat(config.num_hidden_layers as nat, config.compress_ratios@.len())
}

/// The shape of a layer of the given ratio.
pub open spec fn layer_shape_ok(
    config: DeepSeekV4Config,
    ratio: nat,
    max_seq_len: nat,
    shape: Dsv4LayerSlotShape,
) -> bool {
    &&& shape.compress_ratio == ratio
    &&& shape.sw_window == config.sliding_window * config.head_dim
    &&& shape.compressor is Some <==> ratio > 0
    &&& shape.indexer is Some <==> 0 < ratio < 16
    &&& shape.compressor matches Some(c) ==> family_ok(
        c,
        config.head_dim as nat,
        ratio,
        ratio < 16,
        max_seq_len,
    )
    &&& shape.indexer matches Some(c) ==> family_ok(
        c,
        config.index_head_dim as nat,
        ratio,
        true,
        max_seq_len,
    )
}

/// The element counts of a family of the given width and ratio.
pub open spec fn family_ok(
    c: Dsv4CompressorShapeElems,
    head_dim: nat,
    ratio: nat,
    overlap: bool,
    max_seq_len: nat,
) -> bool {
    &&& c.pending_kv == pending_elems(head_dim, ratio, overlap)
    &&& c.pending_score == c.pending_kv
    &&& c.prev_overlap_kv == ratio * head_dim
    &&& c.prev_overlap_score == c.prev_overlap_kv
    &&& c.compressed == compressed_elems(head_dim, ratio, max_seq_len)
    &&& c.elems() == family_elems(head_dim, ratio, overlap, max_seq_len)
}

impl Dsv4SlotShape {
    pub open spec fn elems(&self) -> nat {
        layers_elems(self.layers@, self.layers@.len())
    }

    /// The shape of a slot that holds up to `max_seq_len` tokens.
    pub fn new(config: &DeepSeekV4Config, max_seq_len: usize) -> (r: Self)
        requires
            slot_regions_fit(*config, max_seq_len as nat),
        ensures
            r.max_seq_len == max_seq_len,
            r.layers@.len() == shaped_layers(*config),
            forall|i: int|
                0 <= i < r.layers@.len() ==> layer_shape_ok(
                    *config,
                    config.compress_ratios@[i] as nat,
                    max_seq_len as nat,
                    #[trigger] r.layers@[i],
                ),
    {
        let count: usize = min_usize(config.num_hidden_layers, config.compress_ratios.len());
        let mut layers: Vec<Dsv4LayerSlotShape> = Vec::new();
        let mut i: usize = 0;
        while i < count
            invariant
                i <= count,
                count == shaped_layers(*config),
                layers@.len() == i,
                slot_regions_fit(*config, max_seq_len as nat),
                forall|j: int|
                    0 <= j < i ==> layer_shape_ok(
                        *config,
                        config.compress_ratios@[j] as nat,
                        max_seq_len as nat,
                        #[trigger] layers@[j],
                    ),
            decreases count - i,
        {
            let ratio: usize = config.compress_ratios[i];
            assert(layer_regions_fit(*config, ratio as nat, max_seq_len as nat));
            let compressor = if ratio > 0 {
                Some(
                    Dsv4CompressorShapeElems::new(
                        config.head_dim,
                        ratio,
                        ratio < 16,
                        max_seq_len,
                    ),
                )
            } else {
                None
            };
            let indexer = if ratio > 0 && ratio < 16 {
                Some(
                    Dsv4CompressorShapeElems::new(
                        config.index_head_dim,
                        ratio,
                        true,
                        max_seq_len,
                    ),
                )
            } else {
                None
            };
            layers.push(
                Dsv4LayerSlotShape {
                    compress_ratio: ratio,
                    sw_window: config.sliding_window * config.head_dim,
                    compressor,
                    indexer,
                },
            );
            i = i + 1;
        }
        Dsv4SlotShape { layers, max_seq_len }
    }

    pub fn total_elems(&self) -> (n: usize)
        requires
            self.elems() <= usize::MAX,
        ensures
            n == self.elems(),
    {
        let mut n: usize = 0;
        let mut i: usize = 0;
        while i < self.layers.len()
            invariant
                i <= self.layers@.len(),
                n == layers_elems(self.layers@, i as nat),
                self.elems() <= usize::MAX,
            decreases self.layers@.len() - i,
        {
            proof {
                lemma_layers_elems_mono(self.layers@, (i + 1) as nat, self.layers@.len());
            }
            n = n + self.layers[i].total_elems();
            i = i + 1;
        }
        n
    }

    /// Arena bytes of a slot: two per element.
    pub fn total_bytes(&self) -> (n: usize)
        requires
            2 * self.elems() <= usize::MAX,
        ensures
            n == 2 * self.elems(),
    {
        self.total_elems() * 2
    }
}

/// Why the pool refused a request.
#[derive(Debug, Clone, Copy, PartialEq, Eq, Structural)]
pub enum HipKvError {
    /// The slot would grow past the longest sequence.
    ExceedsMaxSeqLen { slot: usize, have: usize, append: usize, max_seq_len: usize },
    /// Not enough free pages.
    OutOfPages { need: usize, free: usize },
    SlotOutOfRange { slot: usize },
}

/// Host-side paged KV bookkeeping for the HIP backend.
pub struct HipKvPool {
    page_size: usize,
    total_pages: usize,
    free: Vec<u32>,
    slot_pages: Vec<Vec<u32>>,
    slot_len: Vec<usize>,
    slot_epoch: Vec<u64>,
    page_refs: HashMap<u32, u32>,
    shape: Dsv4SlotShape,
}

/// The pool as a caller sees it.
#[verifier::ext_equal]
pub struct PoolView {
    pub page_size: nat,
    pub total_pages: nat,
    pub max_seq_len: nat,
    /// Free pages; the last one is handed out first.
    pub free: Seq<u32>,
    pub slot_pages: Seq<Seq<u32>>,
    pub slot_len: Seq<usize>,
    pub slot_epoch: Seq<u64>,
    /// How often each retained page is held.
    pub refs: Map<u32, u32>,
}

/// The pages of `pages[0..n]` that nobody retains, in order.
pub open spec fn unretained(refs: Map<u32, u32>, pages: Seq<u32>, n: nat) -> Seq<u32>
    decreases n,
{
    if n == 0 {
        Seq::empty()
    } else {
        let done = unretained(refs, pages, (n - 1) as nat);
        if ref_count(refs, pages[n - 1]) == 0 {
            done.push(pages[n - 1])
        } else {
            done
        }
    }
}

pub open spec fn ref_count(refs: Map<u32, u32>, page: u32) -> u32 {
    if refs.contains_key(page) {
        refs[page]
    } else {
        0
    }
}

/// The counts after each of `pages[0..n]` was retained once more.
pub open spec fn retained(refs: Map<u32, u32>, pages: Seq<u32>, n: nat) -> Map<u32, u32>
    decreases n,
{
    if n == 0 {
        refs
    } else {
        let before = retained(refs, pages, (n - 1) as nat);
        before.insert(pages[n - 1], (ref_count(before, pages[n - 1]) + 1) as u32)
    }
}

/// Counts and free list after each of `pages[0..n]` was released once.
pub open spec fn released(
    refs: Map<u32, u32>,
    free: Seq<u32>,
    pages: Seq<u32>,
    n: nat,
) -> (Map<u32, u32>, Seq<u32>)
    decreases n,
{
    if n == 0 {
        (refs, free)
    } else {
        let (r, f) = released(refs, free, pages, (n - 1) as nat);
        let page = pages[n - 1];
        if !r.contains_key(page) {
            (r, f)
        } else if r[page] <= 1 {
            (r.remove(page), f.push(page))
        } else {
            (r.insert(page, (r[page] - 1) as u32), f)
        }
    }
}

impl PoolView {
    /// The three per-slot tables have one row per slot, pages have a size,
    /// and a counted page is counted at least once.
    pub open spec fn wf(self) -> bool {
        &&& self.page_size > 0
        &&& self.slot_len.len() == self.slot_pages.len()
        &&& self.slot_epoch.len() == self.slot_pages.len()
        &&& forall|p: u32| #[trigger] self.refs.contains_key(p) ==> self.refs[p] > 0
    }

    pub open spec fn seq_len(self, slot: int) -> usize {
        if 0 <= slot < self.slot_len.len() {
            self.slot_len[slot]
        } else {
            0
        }
    }

    pub open spec fn pages_of(self, slot: int) -> Seq<u32> {
        if 0 <= slot < self.slot_pages.len() {
            self.slot_pages[slot]
        } else {
            Seq::empty()
        }
    }

    /// Pages to add before `tokens` more fit the slot.
    pub open spec fn pages_needed(self, slot: int, tokens: nat) -> nat {
        let after = ceil_div(self.seq_len(slot) as nat + tokens, self.page_size);
        let have = self.pages_of(slot).len();
        if after >= have {
            (after - have) as nat
        } else {
            0
        }
    }

    /// The free list without its last `n` pages.
    pub open spec fn free_after(self, n: nat) -> Seq<u32> {
        self.free.take(self.free.len() - n)
    }

    /// The last `n` free pages, last one first.
    pub open spec fn popped(self, n: nat) -> Seq<u32> {
        Seq::new(n, |i: int| self.free[self.free.len() - 1 - i])
    }

    pub open spec fn alloc_error(self, slot: int, tokens: nat) -> Option<HipKvError> {
        if self.seq_len(slot) + tokens > self.max_seq_len {
            Some(
                HipKvError::ExceedsMaxSeqLen {
                    slot: slot as usize,
                    have: self.seq_len(slot),
                    append: tokens as usize,
                    max_seq_len: self.max_seq_len as usize,
                },
            )
        } else if self.pages_needed(slot, tokens) > self.free.len() {
            Some(
                HipKvError::OutOfPages {
                    need: self.pages_needed(slot, tokens) as usize,
                    free: self.free.len() as usize,
                },
            )
        } else {
            None
        }
    }

    pub open spec fn grow(self, slot: int, tokens: nat) -> PoolView {
        let need = self.pages_needed(slot, tokens);
        PoolView {
            free: self.free_after(need),
            slot_pages: self.slot_pages.update(slot, self.slot_pages[slot] + self.popped(need)),
            slot_len: self.slot_len.update(slot, (self.slot_len[slot] + tokens) as usize),
            ..self
        }
    }

    pub open spec fn free_slot(self, slot: int) -> PoolView {
        if !(0 <= slot < self.slot_pages.len()) {
            self
        } else {
            let pages = self.slot_pages[slot];
            PoolView {
                free: self.free + unretained(self.refs, pages, pages.len()),
                slot_pages: self.slot_pages.update(slot, Seq::empty()),
                slot_len: self.slot_len.update(slot, 0),
                slot_epoch: self.slot_epoch.update(slot, self.slot_epoch[slot].wrapping_add(1)),
                ..self
            }
        }
    }

    pub open spec fn truncate_slot(self, slot: int, new_len: nat) -> PoolView {
        let pages = self.slot_pages[slot];
        let cut = min_nat(ceil_div(new_len, self.page_size), pages.len());
        let removed = pages.skip(cut as int);
        PoolView {
            free: self.free + unretained(self.refs, removed, removed.len()),
            slot_pages: self.slot_pages.update(slot, pages.take(cut as int)),
            slot_len: self.slot_len.update(slot, new_len as usize),
            ..self
        }
    }

    pub open spec fn attach(self, slot: int, pages: Seq<u32>, token_count: usize) -> PoolView {
        PoolView {
            slot_pages: self.slot_pages.update(slot, self.slot_pages[slot] + pages),
            slot_len: self.slot_len.update(
                slot,
                max_nat(self.slot_len[slot] as nat, token_count as nat) as usize,
            ),
            slot_epoch: self.slot_epoch.update(slot, self.slot_epoch[slot].wrapping_add(1)),
            ..self
        }
    }
}

impl View for HipKvPool {
    type V = PoolView;

    closed spec fn view(&self) -> PoolView {
        PoolView {
            page_size: self.page_size as nat,
            total_pages: self.total_pages as nat,
            max_seq_len: self.shape.max_seq_len as nat,
            free: self.free@,
            slot_pages: Seq::new(self.slot_pages@.len(), |i: int| self.slot_pages@[i]@),
            slot_len: self.slot_len@,
            slot_epoch: self.slot_epoch@,
            refs: self.page_refs@,
        }
    }
}

impl HipKvPool {
    pub closed spec fn shape_spec(&self) -> Dsv4SlotShape {
        self.shape
    }

    /// A pool of `total_pages` pages, page 0 on top of the free list.
    pub fn new(
        config: &DeepSeekV4Config,
        num_slots: usize,
        total_pages: usize,
        page_size: usize,
        max_seq_len: usize,
    ) -> (r: Self)
        requires
            total_pages <= u32::MAX,
            slot_regions_fit(*config, max_seq_len as nat),
        ensures
            r@.wf(),
            r@ == (PoolView {
                page_size: max_nat(page_size as nat, 1),
                total_pages: total_pages as nat,
                max_seq_len: max_seq_len as nat,
                free: Seq::new(total_pages as nat, |i: int| (total_pages - 1 - i) as u32),
                slot_pages: Seq::new(num_slots as nat, |i: int| Seq::empty()),
                slot_len: Seq::new(num_slots as nat, |i: int| 0),
                slot_epoch: Seq::new(num_slots as nat, |i: int| 0),
                refs: Map::empty(),
            }),
            r.shape_spec().max_seq_len == max_seq_len,
            r.shape_spec().layers@.len() == shaped_layers(*config),
            forall|i: int|
                0 <= i < r.shape_spec().layers@.len() ==> layer_shape_ok(
                    *config,
                    config.compress_ratios@[i] as nat,
                    max_seq_len as nat,
                    #[trigger] r.shape_spec().layers@[i],
                ),
    {
        let mut free: Vec<u32> = Vec::new();
        let mut left: usize = total_pages;
        while left > 0
            invariant
                left <= total_pages <= u32::MAX,
                free@.len() == total_pages - left,
                forall|i: int| 0 <= i < free@.len() ==> #[trigger] free@[i] == total_pages - 1 - i,
            decreases left,
        {
            left = left - 1;
            free.push(left as u32);
        }
        let mut slot_pages: Vec<Vec<u32>> = Vec::new();
        let mut slot_len: Vec<usize> = Vec::new();
        let mut slot_epoch: Vec<u64> = Vec::new();
        let mut i: usize = 0;
        while i < num_slots
            invariant
                i <= num_slots,
                slot_pages@.len() == i,
                slot_len@.len() == i,
                slot_epoch@.len() == i,
                forall|j: int| 0 <= j < i ==> #[trigger] slot_pages@[j]@ == Seq::<u32>::empty(),
                forall|j: int| 0 <= j < i ==> #[trigger] slot_len@[j] == 0,
                forall|j: int| 0 <= j < i ==> #[trigger] slot_epoch@[j] == 0,
            decreases num_slots - i,
        {
            slot_pages.push(Vec::new());
            slot_len.push(0);
            slot_epoch.push(0);
            i = i + 1;
        }
        let r = HipKvPool {
            page_size: max_usize(page_size, 1),
            total_pages,
            free,
            slot_pages,
            slot_len,
            slot_epoch,
            page_refs: HashMap::new(),
            shape: Dsv4SlotShape::new(config, max_seq_len),
        };
        proof {
            let want = PoolView {
                page_size: max_nat(page_size as nat, 1),
                total_pages: total_pages as nat,
                max_seq_len: max_seq_len as nat,
                free: Seq::new(total_pages as nat, |i: int| (total_pages - 1 - i) as u32),
                slot_pages: Seq::new(num_slots as nat, |i: int| Seq::empty()),
                slot_len: Seq::new(num_slots as nat, |i: int| 0),
                slot_epoch: Seq::new(num_slots as nat, |i: int| 0),
                refs: Map::empty(),
            };
            assert(r@.free =~= want.free);
            assert(r@.slot_pages =~= want.slot_pages);
            assert(r@.slot_len =~= want.slot_len);
            assert(r@.slot_epoch =~= want.slot_epoch);
            assert(r@.refs =~= want.refs);
        }
        r
    }

    pub fn slot_shape(&self) -> (r: &Dsv4SlotShape)
        ensures
            *r == self.shape_spec(),
    {
        &self.shape
    }

    pub fn is_active(&self) -> (b: bool)
        ensures
            b == (self@.total_pages > 0),
    {
        self.total_pages > 0
    }

    pub fn page_size(&self) -> (n: usize)
        ensures
            n == self@.page_size,
    {
        self.page_size
    }

    pub fn free_pages(&self) -> (n: usize)
        ensures
            n == self@.free.len(),
    {
        self.free.len()
    }

    pub fn resident_pages(&self) -> (n: usize)
        ensures
            n == if self@.total_pages >= self@.free.len() {
                self@.total_pages - self@.free.len()
            } else {
                0
            },
    {
        self.total_pages.saturating_sub(self.free.len())
    }

    /// How many pages are retained exactly once.
    pub fn resident_evictable_pages(&self) -> (n: usize)
        ensures
            n == self@.refs.dom().filter(|p: u32| self@.refs[p] == 1).len(),
    {
        let mut n: usize = 0;
        let held: usize = self.page_refs.len();
        let ghost mut seen: Set<u32> = Set::empty();
        let ghost refs = self.page_refs@;
        let ghost once = |p: u32| refs[p] == 1;
        for page in it: self.page_refs.keys()
            invariant
                refs == self.page_refs@,
                once == (|p: u32| refs[p] == 1),
                it.seq().no_duplicates(),
                it.seq().unref().to_set() == refs.dom(),
                it.seq().len() == refs.dom().len(),
                n == seen.len(),
                n <= it.index(),
                refs.dom().len() == held,
                seen.finite(),
                forall|p: u32| #[trigger]
                    seen.contains(p) <==> it.seq().unref().take(it.index() as int).contains(p)
                        && refs[p] == 1,
                it.index() == it.seq().len() ==> seen == refs.dom().filter(once),
        {
            let ghost all = it.seq().unref();
            let ghost i = it.index() as int;
            proof {
                assert(*page == all[i]);
                assert(all.to_set().contains(*page));
                let longer = all.take(i + 1);
                assert(longer =~= all.take(i).push(*page));
                assert(!all.take(i).contains(*page)) by {
                    if all.take(i).contains(*page) {
                        let j = choose|j: int| 0 <= j < i && all.take(i)[j] == *page;
                        assert(it.seq()[j] == it.seq()[i]);
                    }
                }
                assert forall|p: u32| longer.contains(p) <==> all.take(i).contains(p) || p
                    == *page by {
                    if all.take(i).contains(p) {
                        let j = choose|j: int| 0 <= j < i && all.take(i)[j] == p;
                        assert(longer[j] == p);
                    }
                    if p == *page {
                        assert(longer[i] == p);
                    }
                    if longer.contains(p) {
                        let j = choose|j: int| 0 <= j < i + 1 && longer[j] == p;
                        if j < i {
                            assert(all.take(i)[j] == p);
                        }
                    }
                }
            }
            let one: bool = match self.page_refs.get(page) {
                Some(count) => *count == 1,
                None => false,
            };
            if one {
                n = n + 1;
                proof {
                    seen = seen.insert(*page);
                }
            }
            proof {
                assert(all.take(all.len() as int) =~= all);
                assert(i + 1 == all.len() ==> seen =~= refs.dom().filter(once)) by {
                    assert forall|p: u32| i + 1 == all.len() implies (seen.contains(p)
                        <==> refs.dom().filter(once).contains(p)) by {
                        assert(all.to_set().contains(p) <==> all.contains(p));
                    }
                }
            }
        }
        assert(seen =~= refs.dom().filter(|p: u32| self@.refs[p] == 1));
        n
    }

    /// The predicate behind the count above, so that capacity and evictor
    /// agree.
    pub fn page_is_evictable(&self, page: u32) -> (b: bool)
        ensures
            b == (self@.refs.contains_key(page) && self@.refs[page] == 1),
    {
        match self.page_refs.get(&page) {
            Some(count) => *count == 1,
            None => false,
        }
    }

    pub fn seq_len(&self, slot: usize) -> (n: usize)
        ensures
            n == self@.seq_len(slot as int),
    {
        if slot < self.slot_len.len() {
            self.slot_len[slot]
        } else {
            0
        }
    }

    pub fn slot_epoch(&self, slot: usize) -> (e: u64)
        ensures
            e == if slot < self@.slot_epoch.len() {
                self@.slot_epoch[slot as int]
            } else {
                0
            },
    {
        if slot < self.slot_epoch.len() {
            self.slot_epoch[slot]
        } else {
            0
        }
    }

    pub fn append_pages_needed(&self, slot: usize, tokens: usize) -> (n: usize)
        requires
            self@.wf(),
            self@.seq_len(slot as int) + tokens <= usize::MAX,
        ensures
            n == self@.pages_needed(slot as int, tokens as nat),
    {
        let have: usize = if slot < self.slot_pages.len() {
            self.slot_pages[slot].len()
        } else {
            0
        };
        let after: usize = div_ceil(self.seq_len(slot) + tokens, self.page_size);
        after.saturating_sub(have)
    }

    pub fn page_indices(&self, slot: usize) -> (pages: Vec<u32>)
        ensures
            pages@ == self@.pages_of(slot as int),
    {
        if slot < self.slot_pages.len() {
            copy_pages(&self.slot_pages[slot], self.slot_pages[slot].len())
        } else {
            Vec::new()
        }
    }

    /// The pages that hold the slot's first `len` tokens, as far as it has
    /// them.
    pub fn page_indices_for_token_range(&self, slot: usize, len: usize) -> (pages: Vec<u32>)
        requires
            self@.wf(),
        ensures
            pages@ == self@.pages_of(slot as int).take(
                min_nat(
                    ceil_div(len as nat, self@.page_size),
                    self@.pages_of(slot as int).len(),
                ) as int,
            ),
    {
        if slot < self.slot_pages.len() {
            let end: usize = min_usize(
                div_ceil(len, self.page_size),
                self.slot_pages[slot].len(),
            );
            copy_pages(&self.slot_pages[slot], end)
        } else {
            let pages: Vec<u32> = Vec::new();
            assert(pages@ =~= self@.pages_of(slot as int).take(0));
            pages
        }
    }

    /// Grows a slot by `tokens`, taking pages off the free list as needed.
    pub fn alloc_tokens(&mut self, slot: usize, tokens: usize) -> (r: Result<(), HipKvError>)
        requires
            old(self)@.wf(),
            old(self)@.seq_len(slot as int) + tokens <= usize::MAX,
            slot < old(self)@.slot_pages.len() || old(self)@.alloc_error(
                slot as int,
                tokens as nat,
            ) is Some,
        ensures
            final(self)@.wf(),
            final(self).shape_spec() == old(self).shape_spec(),
            match old(self)@.alloc_error(slot as int, tokens as nat) {
                Some(e) => r == Err::<(), HipKvError>(e) && final(self)@ == old(self)@,
                None => r is Ok && final(self)@ == old(self)@.grow(slot as int, tokens as nat),
            },
    {
        let have: usize = self.seq_len(slot);
        if have + tokens > self.shape.max_seq_len {
            return Err(
                HipKvError::ExceedsMaxSeqLen {
                    slot,
                    have,
                    append: tokens,
                    max_seq_len: self.shape.max_seq_len,
                },
            );
        }
        let need: usize = self.append_pages_needed(slot, tokens);
        if need > self.free.len() {
            return Err(HipKvError::OutOfPages { need, free: self.free.len() });
        }
        let pages: Vec<u32> = self.pop_pages(need);
        let ghost before = self@;
        let mut slot_pages: Vec<u32> = Vec::new();
        let ghost rows = self.slot_pages@;
        std::mem::swap(&mut slot_pages, &mut self.slot_pages[slot]);
        push_pages(&mut slot_pages, &pages);
        self.slot_pages[slot] = slot_pages;
        self.slot_len[slot] = have + tokens;
        proof {
            let want = old(self)@.grow(slot as int, tokens as nat);
            assert(self@.slot_pages =~= want.slot_pages);
            assert(self@.slot_len =~= want.slot_len);
            assert(self@ =~= want);
        }
        Ok(())
    }

    /// Takes `need` pages off the top of the free list.
    fn pop_pages(&mut self, need: usize) -> (pages: Vec<u32>)
        requires
            need <= old(self)@.free.len(),
        ensures
            pages@ == old(self)@.popped(need as nat),
            final(self)@ == (PoolView {
                free: old(self)@.free_after(need as nat),
                ..old(self)@
            }),
            final(self).shape_spec() == old(self).shape_spec(),
            final(self).slot_pages == old(self).slot_pages,
            final(self).slot_len == old(self).slot_len,
            final(self).slot_epoch == old(self).slot_epoch,
    {
        let mut pages: Vec<u32> = Vec::new();
        let mut i: usize = 0;
        let ghost free = self.free@;
        assert(free =~= self@.free_after(0));
        while i < need
            invariant
                i <= need <= free.len(),
                free == old(self)@.free,
                self.free@ == free.take(free.len() - i),
                pages@ == Seq::new(i as nat, |j: int| free[free.len() - 1 - j]),
                self.page_size == old(self).page_size,
                self.total_pages == old(self).total_pages,
                self.slot_pages == old(self).slot_pages,
                self.slot_len == old(self).slot_len,
                self.slot_epoch == old(self).slot_epoch,
                self.page_refs == old(self).page_refs,
                self.shape == old(self).shape,
            decreases need - i,
        {
            if let Some(page) = self.free.pop() {
                pages.push(page);
            }
            i = i + 1;
            assert(self.free@ =~= free.take(free.len() - i));
            assert(pages@ =~= Seq::new(i as nat, |j: int| free[free.len() - 1 - j]));
        }
        pages
    }

    /// Takes `pages` pages off the free list without a slot.
    pub fn alloc_detached_pages(&mut self, pages: usize) -> (r: Result<Vec<u32>, HipKvError>)
        requires
            old(self)@.wf(),
        ensures
            final(self)@.wf(),
            final(self).shape_spec() == old(self).shape_spec(),
            if pages > old(self)@.free.len() {
                &&& r == Err::<Vec<u32>, HipKvError>(
                    HipKvError::OutOfPages {
                        need: pages,
                        free: old(self)@.free.len() as usize,
                    },
                )
                &&& final(self)@ == old(self)@
            } else {
                &&& r is Ok
                &&& r->Ok_0@ == old(self)@.popped(pages as nat)
                &&& final(self)@ == (PoolView {
                    free: old(self)@.free_after(pages as nat),
                    ..old(self)@
                })
            },
    {
        if pages > self.free.len() {
            return Err(HipKvError::OutOfPages { need: pages, free: self.free.len() });
        }
        Ok(self.pop_pages(pages))
    }

    pub fn free_detached_pages(&mut self, pages: &[u32])
        requires
            old(self)@.wf(),
        ensures
            final(self)@.wf(),
            final(self).shape_spec() == old(self).shape_spec(),
            final(self)@ == (PoolView { free: old(self)@.free + pages@, ..old(self)@ }),
    {
        push_pages(&mut self.free, pages);
    }

    /// Puts back those of `pages` that nobody retains.
    fn reclaim(&mut self, pages: &Vec<u32>)
        ensures
            final(self)@ == (PoolView {
                free: old(self)@.free + unretained(old(self)@.refs, pages@, pages@.len()),
                ..old(self)@
            }),
            final(self).shape_spec() == old(self).shape_spec(),
            final(self).slot_pages == old(self).slot_pages,
            final(self).slot_len == old(self).slot_len,
            final(self).slot_epoch == old(self).slot_epoch,
    {
        let mut i: usize = 0;
        let ghost free = self.free@;
        let ghost refs = self.page_refs@;
        assert(self.free@ =~= free + unretained(refs, pages@, 0));
        while i < pages.len()
            invariant
                i <= pages@.len(),
                free == old(self)@.free,
                refs == old(self)@.refs,
                self.free@ == free + unretained(refs, pages@, i as nat),
                self.page_size == old(self).page_size,
                self.total_pages == old(self).total_pages,
                self.slot_pages == old(self).slot_pages,
                self.slot_len == old(self).slot_len,
                self.slot_epoch == old(self).slot_epoch,
                self.page_refs == old(self).page_refs,
                self.shape == old(self).shape,
            decreases pages@.len() - i,
        {
            let page: u32 = pages[i];
            let held: u32 = match self.page_refs.get(&page) {
                Some(count) => *count,
                None => 0,
            };
            if held == 0 {
                self.free.push(page);
            }
            i = i + 1;
            assert(self.free@ =~= free + unretained(refs, pages@, i as nat));
        }
    }

    /// Empties a slot; pages that are retained stay out of the free list.
    pub fn free_slot(&mut self, slot: usize)
        requires
            old(self)@.wf(),
        ensures
            final(self)@.wf(),
            final(self).shape_spec() == old(self).shape_spec(),
            final(self)@ == old(self)@.free_slot(slot as int),
    {
        if slot >= self.slot_pages.len() {
            return;
        }
        let mut taken: Vec<u32> = Vec::new();
        std::mem::swap(&mut taken, &mut self.slot_pages[slot]);
        let ghost before = self@;
        self.reclaim(&taken);
        self.slot_len[slot] = 0;
        self.slot_epoch[slot] = self.slot_epoch[slot].wrapping_add(1);
        proof {
            let want = old(self)@.free_slot(slot as int);
            assert(self@.slot_pages =~= want.slot_pages);
            assert(self@ =~= want);
        }
    }

    /// Cuts a slot to `new_len` tokens and gives back the pages behind them.
    pub fn truncate_slot(&mut self, slot: usize, new_len: usize) -> (r: Result<(), HipKvError>)
        requires
            old(self)@.wf(),
        ensures
            final(self)@.wf(),
            final(self).shape_spec() == old(self).shape_spec(),
            if slot < old(self)@.slot_pages.len() {
                r is Ok && final(self)@ == old(self)@.truncate_slot(slot as int, new_len as nat)
            } else {
                r == Err::<(), HipKvError>(HipKvError::SlotOutOfRange { slot }) && final(self)@
                    == old(self)@
            },
    {
        let keep: usize = div_ceil(new_len, self.page_size);
        if slot >= self.slot_pages.len() {
            return Err(HipKvError::SlotOutOfRange { slot });
        }
        let mut pages: Vec<u32> = Vec::new();
        std::mem::swap(&mut pages, &mut self.slot_pages[slot]);
        let cut: usize = min_usize(keep, pages.len());
        let ghost all = pages@;
        let removed: Vec<u32> = pages.split_off(cut);
        assert(removed@ =~= all.skip(cut as int));
        assert(pages@ =~= all.take(cut as int));
        self.slot_pages[slot] = pages;
        self.reclaim(&removed);
        self.slot_len[slot] = new_len;
        proof {
            let want = old(self)@.truncate_slot(slot as int, new_len as nat);
            assert(self@.slot_pages =~= want.slot_pages);
            assert(self@ =~= want);
        }
        Ok(())
    }

    /// Counts every page once more.
    pub fn retain_pages(&mut self, pages: &[u32])
        requires
            old(self)@.wf(),
            forall|i: int|
                0 <= i < pages@.len() ==> ref_count(
                    retained(old(self)@.refs, pages@, i as nat),
                    #[trigger] pages@[i],
                ) < u32::MAX,
        ensures
            final(self)@.wf(),
            final(self).shape_spec() == old(self).shape_spec(),
            final(self)@ == (PoolView {
                refs: retained(old(self)@.refs, pages@, pages@.len()),
                ..old(self)@
            }),
    {
        let mut i: usize = 0;
        let ghost refs = self.page_refs@;
        while i < pages.len()
            invariant
                i <= pages@.len(),
                refs == old(self)@.refs,
                self.page_refs@ == retained(refs, pages@, i as nat),
                forall|p: u32| #[trigger]
                    self.page_refs@.contains_key(p) ==> self.page_refs@[p] > 0,
                forall|i: int|
                    0 <= i < pages@.len() ==> ref_count(
                        retained(refs, pages@, i as nat),
                        #[trigger] pages@[i],
                    ) < u32::MAX,
                self.free == old(self).free,
                self.page_size == old(self).page_size,
                self.total_pages == old(self).total_pages,
                self.slot_pages == old(self).slot_pages,
                self.slot_len == old(self).slot_len,
                self.slot_epoch == old(self).slot_epoch,
                self.shape == old(self).shape,
            decreases pages@.len() - i,
        {
            let page: u32 = pages[i];
            let held: u32 = match self.page_refs.get(&page) {
                Some(count) => *count,
                None => 0,
            };
            assert(ref_count(retained(refs, pages@, i as nat), pages@[i as int]) < u32::MAX);
            self.page_refs.insert(page, held + 1);
            i = i + 1;
        }
    }

    /// Counts every retained page once less; a page that nobody retains any
    /// more becomes free.
    pub fn release_pages(&mut self, pages: &[u32])
        requires
            old(self)@.wf(),
        ensures
            final(self)@.wf(),
            final(self).shape_spec() == old(self).shape_spec(),
            final(self)@ == (PoolView {
                refs: released(old(self)@.refs, old(self)@.free, pages@, pages@.len()).0,
                free: released(old(self)@.refs, old(self)@.free, pages@, pages@.len()).1,
                ..old(self)@
            }),
    {
        let mut i: usize = 0;
        let ghost refs = self.page_refs@;
        let ghost free = self.free@;
        while i < pages.len()
            invariant
                i <= pages@.len(),
                refs == old(self)@.refs,
                free == old(self)@.free,
                self.page_refs@ == released(refs, free, pages@, i as nat).0,
                self.free@ == released(refs, free, pages@, i as nat).1,
                forall|p: u32| #[trigger]
                    self.page_refs@.contains_key(p) ==> self.page_refs@[p] > 0,
                self.page_size == old(self).page_size,
                self.total_pages == old(self).total_pages,
                self.slot_pages == old(self).slot_pages,
                self.slot_len == old(self).slot_len,
                self.slot_epoch == old(self).slot_epoch,
                self.shape == old(self).shape,
            decreases pages@.len() - i,
        {
            let page: u32 = pages[i];
            let held: Option<u32> = match self.page_refs.get(&page) {
                Some(count) => Some(*count),
                None => None,
            };
            if let Some(count) = held {
                if count <= 1 {
                    self.page_refs.remove(&page);
                    self.free.push(page);
                } else {
                    self.page_refs.insert(page, count - 1);
                }
            }
            i = i + 1;
        }
    }

    /// Appends shared pages to a slot that then holds at least `token_count`
    /// tokens.
    pub fn attach_pages(&mut self, slot: usize, pages: &[u32], token_count: usize) -> (r: Result<
        (),
        HipKvError,
    >)
        requires
            old(self)@.wf(),
        ensures
            final(self)@.wf(),
            final(self).shape_spec() == old(self).shape_spec(),
            if slot < old(self)@.slot_pages.len() {
                r is Ok && final(self)@ == old(self)@.attach(slot as int, pages@, token_count)
            } else {
                r == Err::<(), HipKvError>(HipKvError::SlotOutOfRange { slot }) && final(self)@
                    == old(self)@
            },
    {
        if slot >= self.slot_pages.len() {
            return Err(HipKvError::SlotOutOfRange { slot });
        }
        let mut dst: Vec<u32> = Vec::new();
        std::mem::swap(&mut dst, &mut self.slot_pages[slot]);
        push_pages(&mut dst, pages);
        self.slot_pages[slot] = dst;
        self.slot_len[slot] = max_usize(self.slot_len[slot], token_count);
        self.slot_epoch[slot] = self.slot_epoch[slot].wrapping_add(1);
        proof {
            let want = old(self)@.attach(slot as int, pages@, token_count);
            assert(self@.slot_pages =~= want.slot_pages);
            assert(self@ =~= want);
        }
        Ok(())
    }
}

fn push_pages(dst: &mut Vec<u32>, pages: &[u32])
    ensures
        final(dst)@ == old(dst)@ + pages@,
{
    let mut i: usize = 0;
    assert(dst@ =~= old(dst)@ + pages@.take(0));
    while i < pages.len()
        invariant
            i <= pages@.len(),
            dst@ == old(dst)@ + pages@.take(i as int),
        decreases pages@.len() - i,
    {
        dst.push(pages[i]);
        i = i + 1;
        assert(old(dst)@ + pages@.take(i as int) =~= (old(dst)@ + pages@.take(i - 1)).push(
            pages@[i - 1],
        ));
    }
    assert(pages@.take(pages@.len() as int) =~= pages@);
}

fn copy_pages(src: &Vec<u32>, n: usize) -> (out: Vec<u32>)
    requires
        n <= src@.len(),
    ensures
        out@ == src@.take(n as int),
        n == src@.len() ==> out@ == src@,
{
    let mut out: Vec<u32> = Vec::new();
    let mut i: usize = 0;
    while i < n
        invariant
            i <= n <= src@.len(),
            out@ == src@.take(i as int),
        decreases n - i,
    {
        out.push(src[i]);
        i = i + 1;
        assert(src@.take(i as int) =~= src@.take(i - 1).push(src@[i - 1]));
    }
    assert(src@.take(src@.len() as int) =~= src@);
    out
}

/// How often `page` occurs in a list.
pub open spec fn occurrences(pages: Seq<u32>, page: u32) -> nat {
    pages.filter(|p: u32| p == page).len()
}

proof fn lemma_occurrences_add(a: Seq<u32>, b: Seq<u32>, page: u32)
    ensures
        occurrences(a + b, page) == occurrences(a, page) + occurrences(b, page),
{
    let f = |p: u32| p == page;
    Seq::filter_distributes_over_add(a, b, f);
}

proof fn lemma_occurrences_push(a: Seq<u32>, x: u32, page: u32)
    ensures
        occurrences(a.push(x), page) == occurrences(a, page) + if x == page { 1nat } else { 0 },
{
    let f = |p: u32| p == page;
    assert(a.push(x) =~= a + seq![x]);
    Seq::filter_distributes_over_add(a, seq![x], f);
    reveal_with_fuel(Seq::filter, 2);
    assert(seq![x].drop_last() =~= Seq::<u32>::empty());
    assert(seq![x].last() == x);
}

proof fn lemma_occurrences_popped(v: PoolView, n: nat, page: u32)
    requires
        n <= v.free.len(),
    ensures
        occurrences(v.popped(n), page) + occurrences(v.free_after(n), page) == occurrences(
            v.free,
            page,
        ),
    decreases n,
{
    if n == 0 {
        assert(v.popped(0) =~= Seq::<u32>::empty());
        assert(v.free_after(0) =~= v.free);
        reveal_with_fuel(Seq::filter, 1);
    } else {
        let m = (n - 1) as nat;
        lemma_occurrences_popped(v, m, page);
        let x = v.free[v.free.len() - n];
        assert(v.popped(n) =~= v.popped(m).push(x));
        assert(v.free_after(m) =~= v.free_after(n).push(x));
        lemma_occurrences_push(v.popped(m), x, page);
        lemma_occurrences_push(v.free_after(n), x, page);
    }
}

/// Growing a slot moves pages and makes or loses none: every page is as
/// often in the free list or that slot as before.
pub proof fn alloc_conserves_pages(v: PoolView, slot: int, tokens: nat, page: u32)
    requires
        v.wf(),
        0 <= slot < v.slot_pages.len(),
        v.alloc_error(slot, tokens) is None,
    ensures
        occurrences(v.grow(slot, tokens).free, page) + occurrences(
            v.grow(slot, tokens).slot_pages[slot],
            page,
        ) == occurrences(v.free, page) + occurrences(v.slot_pages[slot], page),
        forall|other: int|
            0 <= other < v.slot_pages.len() && other != slot ==> #[trigger] v.grow(
                slot,
                tokens,
            ).slot_pages[other] == v.slot_pages[other],
{
    let need = v.pages_needed(slot, tokens);
    lemma_occurrences_popped(v, need, page);
    lemma_occurrences_add(v.slot_pages[slot], v.popped(need), page);
}

/// After a successful growth the slot's pages hold all its tokens.
pub proof fn alloc_covers_tokens(v: PoolView, slot: int, tokens: nat)
    requires
        v.wf(),
        0 <= slot < v.slot_pages.len(),
        v.alloc_error(slot, tokens) is None,
        v.max_seq_len <= usize::MAX,
    ensures
        v.grow(slot, tokens).slot_len[slot] as nat <= v.grow(slot, tokens).slot_pages[slot].len()
            * v.page_size,
        v.grow(slot, tokens).slot_len[slot] <= v.max_seq_len,
{
    let len = v.slot_len[slot] as nat + tokens;
    let pages = v.grow(slot, tokens).slot_pages[slot].len();
    lemma_ceil_div(len, v.page_size);
    assert(pages >= ceil_div(len, v.page_size));
    assert(ceil_div(len, v.page_size) * v.page_size <= pages * v.page_size) by (nonlinear_arith)
        requires
            ceil_div(len, v.page_size) <= pages,
    ;
}

proof fn lemma_unretained(refs: Map<u32, u32>, pages: Seq<u32>, n: nat, page: u32)
    requires
        n <= pages.len(),
    ensures
        occurrences(unretained(refs, pages, n), page) == if ref_count(refs, page) == 0 {
            occurrences(pages.take(n as int), page)
        } else {
            0
        },
    decreases n,
{
    if n == 0 {
        assert(pages.take(0) =~= Seq::<u32>::empty());
        reveal_with_fuel(Seq::filter, 1);
    } else {
        let m = (n - 1) as nat;
        lemma_unretained(refs, pages, m, page);
        let x = pages[m as int];
        assert(pages.take(n as int) =~= pages.take(m as int).push(x));
        lemma_occurrences_push(pages.take(m as int), x, page);
        lemma_occurrences_push(unretained(refs, pages, m), x, page);
    }
}

/// Retained pages survive the release of their slot: `free_slot` puts a page
/// on the free list exactly when nobody retains it.
pub proof fn retained_pages_survive_free_slot(v: PoolView, slot: int, page: u32)
    requires
        v.wf(),
        0 <= slot < v.slot_pages.len(),
    ensures
        v.refs.contains_key(page) ==> occurrences(v.free_slot(slot).free, page) == occurrences(
            v.free,
            page,
        ),
        !v.refs.contains_key(page) ==> occurrences(v.free_slot(slot).free, page) == occurrences(
            v.free,
            page,
        ) + occurrences(v.slot_pages[slot], page),
        v.free_slot(slot).refs == v.refs,
{
    let pages = v.slot_pages[slot];
    lemma_unretained(v.refs, pages, pages.len(), page);
    assert(pages.take(pages.len() as int) =~= pages);
    lemma_occurrences_add(v.free, unretained(v.refs, pages, pages.len()), page);
}

/// Releasing a page that was just retained leaves the counts and the free
/// list as they were, unless it was not retained before: then it is freed.
pub proof fn release_undoes_retain(v: PoolView, page: u32)
    requires
        v.wf(),
        ref_count(v.refs, page) < u32::MAX,
    ensures
        ({
            let after = released(retained(v.refs, seq![page], 1), v.free, seq![page], 1);
            &&& after.0 == v.refs
            &&& v.refs.contains_key(page) ==> after.1 == v.free
            &&& !v.refs.contains_key(page) ==> after.1 == v.free.push(page)
        }),
{
    reveal_with_fuel(retained, 2);
    reveal_with_fuel(released, 2);
    let up = retained(v.refs, seq![page], 1);
    let after = released(up, v.free, seq![page], 1);
    assert(after.0 =~= v.refs);
}

/// A slot that is freed is empty and carries a new epoch.
pub proof fn free_slot_resets(v: PoolView, slot: int)
    requires
        v.wf(),
        0 <= slot < v.slot_pages.len(),
    ensures
        v.free_slot(slot).seq_len(slot) == 0,
        v.free_slot(slot).pages_of(slot).len() == 0,
        v.free_slot(slot).slot_epoch[slot] != v.slot_epoch[slot],
        v.free_slot(slot).wf(),
{
}

} // verus!
