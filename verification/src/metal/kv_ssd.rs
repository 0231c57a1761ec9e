//! The page store: which logical pages are resident, which prefixes can be
//! restored, and what the disk tier behind them holds.
//!
//! Arrays are handles of the runtime (`A`) and the tier's bytes lie outside:
//! the store says what to write and remove, and is told what was accepted.
use vstd::prelude::*;

use std::collections::HashMap;

use crate::kvspace::tier::{FNV_OFFSET, FNV_PRIME};
#[allow(unused_imports)]
use crate::kvspace::tier::fnv_bytes;
use crate::bytes::push_le;
#[allow(unused_imports)]
use crate::bytes::{le, lemma_le_len};
use crate::math::{max_usize, min_usize};
#[allow(unused_imports)]
use crate::math::{max_nat, min_nat};
use crate::metal::keyed::{copy_ids, KeyedVec};
#[allow(unused_imports)]
use crate::metal::keyed::{is_front, survives, touches};
#[allow(unused_imports)]
use crate::metal::mlx::DtypeCodes;
#[allow(unused_imports)]
use crate::metal::payload::{array_seq_bytes, dims_bytes, page_bytes, to_word, ArrayView};
use crate::metal::slot::{round_up_capacity, MAX_ROUNDED_TOKENS};
#[allow(unused_imports)]
use crate::metal::slot::rounded;

verus! {

broadcast use vstd::std_specs::hash::group_hash_axioms;

/// Store namespaces: pages are plain records, prefixes are cut into pieces.
pub const NS_PAGE: u64 = 1;

pub const NS_PREFIX: u64 = 2;

pub const NS_PREFIX_CHUNK: u64 = 3;

/// Room for the headers of a page payload beside its raw bytes: 64 KiB.
pub const PAGE_CODEC_HEADROOM: usize = 0x1_0000;

/// Prefix hashes fit 40 bits, so that piece keys stay below the namespace.
pub const PREFIX_HASH_LIMIT: u64 = 0x100_0000_0000;

pub open spec fn fnv_ids(ids: Seq<u64>) -> u64
    decreases ids.len(),
{
    if ids.len() == 0 {
        FNV_OFFSET
    } else {
        fnv_bytes(fnv_ids(ids.drop_last()), le(ids.last() as nat, 8))
    }
}

/// The store key of a prefix: FNV-1a over its ids, cut to 40 bits.
pub open spec fn prefix_hash(ids: Seq<u64>) -> u64 {
    fnv_ids(ids) % PREFIX_HASH_LIMIT
}

fn fold_bytes(h: u64, s: &[u8]) -> (r: u64)
    ensures
        r == fnv_bytes(h, s@),
{
    let mut acc: u64 = h;
    let mut i: usize = 0;
    assert(s@.take(0) =~= Seq::<u8>::empty());
    while i < s.len()
        invariant
            i <= s@.len(),
            acc == fnv_bytes(h, s@.take(i as int)),
        decreases s@.len() - i,
    {
        let ghost next = s@.take(i + 1);
        assert(next.drop_last() =~= s@.take(i as int));
        assert(next.last() == s@[i as int]);
        acc = (acc ^ (s[i] as u64)).wrapping_mul(FNV_PRIME);
        i = i + 1;
    }
    assert(s@.take(i as int) =~= s@);
    acc
}

pub fn prefix_store_key(ids: &[u64]) -> (key: u64)
    ensures
        key == prefix_hash(ids@),
        key < PREFIX_HASH_LIMIT,
{
    let mut h: u64 = FNV_OFFSET;
    let mut i: usize = 0;
    assert(ids@.take(0) =~= Seq::<u64>::empty());
    while i < ids.len()
        invariant
            i <= ids@.len(),
            h == fnv_ids(ids@.take(i as int)),
        decreases ids@.len() - i,
    {
        let mut word: Vec<u8> = Vec::new();
        push_le(&mut word, ids[i], 8);
        proof {
            let next = ids@.take(i + 1);
            assert(next.drop_last() =~= ids@.take(i as int));
            assert(next.last() == ids@[i as int]);
            assert(word@ =~= le(ids@[i as int] as nat, 8));
        }
        h = fold_bytes(h, word.as_slice());
        i = i + 1;
    }
    assert(ids@.take(i as int) =~= ids@);
    h % PREFIX_HASH_LIMIT
}

/// Who published a page: the slot, its epoch and the page's place in it.
#[derive(Debug, Clone, Copy, PartialEq, Eq, Structural)]
pub struct MetalPageOwner {
    pub slot: usize,
    pub slot_epoch: u64,
    pub page_idx: usize,
}

/// A resident page: the logical id names its contents for good.
#[derive(Debug)]
pub struct MetalPageBlock<A> {
    pub logical_id: u64,
    pub owner: Option<MetalPageOwner>,
    pub kv_flat: Vec<A>,
}

/// The restore image of a prefix.
#[derive(Debug)]
pub struct MetalPrefixSnapshot<A> {
    pub cache_len: usize,
    pub gdr_flat: Vec<A>,
}

/// One block of a prefix that a request may reuse.
#[derive(Debug, Clone, Copy, PartialEq, Eq, Structural)]
pub enum PrefixBlock {
    ResidentPage(u32),
    DemotedKey(u64),
}

/// A record to take out of the tier store.
#[derive(Debug, Clone, Copy, PartialEq, Eq, Structural)]
pub enum TierRemoval {
    Page { logical_id: u64 },
    Prefix { hash: u64 },
}

/// Why the tier cannot serve a request.
#[derive(Debug, Clone, Copy, PartialEq, Eq, Structural)]
pub enum TierError {
    MissingKey { key: u64 },
    NotConfigured,
    NotResident,
}

/// Where a prefix snapshot is to be had.
#[derive(Debug, Clone, Copy, PartialEq, Eq, Structural)]
pub enum SnapshotSource {
    Resident,
    OnDisk { hash: u64 },
}

pub struct MetalPageStore<A> {
    pages: HashMap<u32, MetalPageBlock<A>>,
    prefixes: KeyedVec<MetalPrefixSnapshot<A>>,
    next_logical_id: u64,
    tier: bool,
    tier_to_logical: HashMap<u64, u64>,
    disk_prefixes: KeyedVec<u64>,
}

/// What a page store holds.
#[verifier::ext_equal]
pub struct StoreView<A> {
    /// Resident pages by physical page.
    pub pages: Map<u32, MetalPageBlock<A>>,
    /// Resident restore images by logical key.
    pub prefixes: Map<Seq<u64>, MetalPrefixSnapshot<A>>,
    pub next_id: u64,
    /// Whether a disk tier is attached.
    pub tier: bool,
    /// Demoted keys, each bound to a logical page.
    pub bound: Map<u64, u64>,
    /// Prefixes with an image on disk, and its hash.
    pub disk: Map<Seq<u64>, u64>,
}

impl<A> View for MetalPageStore<A> {
    type V = StoreView<A>;

    closed spec fn view(&self) -> StoreView<A> {
        StoreView {
            pages: self.pages@,
            prefixes: self.prefixes.map(),
            next_id: self.next_logical_id,
            tier: self.tier,
            bound: self.tier_to_logical@,
            disk: self.disk_prefixes.map(),
        }
    }
}

/// Whether a key names one of the ids.
pub open spec fn names(key: Seq<u64>, ids: Set<u64>) -> bool {
    exists|id: u64| #[trigger] ids.contains(id) && key.contains(id)
}

impl<A> StoreView<A> {
    pub open spec fn page_id(self, page: u32) -> Option<u64> {
        if self.pages.contains_key(page) {
            Some(self.pages[page].logical_id)
        } else {
            None
        }
    }

    pub open spec fn block_id(self, block: PrefixBlock) -> Option<u64> {
        match block {
            PrefixBlock::ResidentPage(page) => self.page_id(page),
            PrefixBlock::DemotedKey(key) => if self.bound.contains_key(key) {
                Some(self.bound[key])
            } else {
                None
            },
        }
    }

    /// The logical key of physical pages: every page must be resident.
    pub open spec fn key_of_pages(self, pages: Seq<u32>) -> Option<Seq<u64>> {
        if forall|i: int| 0 <= i < pages.len() ==> self.pages.contains_key(#[trigger] pages[i]) {
            Some(Seq::new(pages.len(), |i: int| self.pages[pages[i]].logical_id))
        } else {
            None
        }
    }

    pub open spec fn key_of_blocks(self, blocks: Seq<PrefixBlock>) -> Option<Seq<u64>> {
        if forall|i: int|
            0 <= i < blocks.len() ==> self.block_id(#[trigger] blocks[i]) is Some {
            Some(Seq::new(blocks.len(), |i: int| self.block_id(blocks[i])->0))
        } else {
            None
        }
    }

    /// A restore image exists, resident or on disk.
    pub open spec fn available(self, key: Seq<u64>) -> bool {
        self.prefixes.contains_key(key) || self.disk.contains_key(key)
    }

    /// The first `k` blocks can be reused.
    pub open spec fn reuses(self, blocks: Seq<PrefixBlock>, k: int) -> bool {
        self.key_of_blocks(blocks.take(k)) matches Some(key) && self.available(key)
    }

    /// A logical page is still reachable: demoted or resident.
    pub open spec fn referenced(self, id: u64) -> bool {
        (exists|k: u64| #[trigger] self.bound.contains_key(k) && self.bound[k] == id) || (exists|
            p: u32,
        | #[trigger]
            self.pages.contains_key(p) && self.pages[p].logical_id == id)
    }

    /// Ids of the set that nothing reaches any more.
    pub open spec fn dead(self, ids: Set<u64>) -> Set<u64> {
        Set::new(|id: u64| ids.contains(id) && !self.referenced(id))
    }

    /// Reclaims the disk records of dead ids: their pages, and every prefix
    /// built on one of them.
    pub open spec fn reclaim(self, ids: Set<u64>) -> StoreView<A> {
        if self.tier {
            StoreView {
                disk: self.disk.restrict(
                    Set::new(|k: Seq<u64>| !names(k, self.dead(ids))),
                ),
                ..self
            }
        } else {
            self
        }
    }

    /// Whether a removal belongs to a reclaim.
    pub open spec fn removes(self, ids: Set<u64>, r: TierRemoval) -> bool {
        self.tier && match r {
            TierRemoval::Page { logical_id } => self.dead(ids).contains(logical_id),
            TierRemoval::Prefix { hash } => exists|k: Seq<u64>| #[trigger]
                self.disk.contains_key(k) && self.disk[k] == hash && names(k, self.dead(ids)),
        }
    }

    /// The ids of resident pages among these.
    pub open spec fn ids_of(self, pages: Seq<u32>) -> Set<u64> {
        Set::new(
            |id: u64|
                exists|i: int|
                    0 <= i < pages.len() && self.page_id(#[trigger] pages[i]) == Some(id),
        )
    }

    /// The pages leave, with every resident prefix that names one of them.
    pub open spec fn without_pages(self, pages: Seq<u32>) -> StoreView<A> {
        let ids = self.ids_of(pages);
        StoreView {
            pages: self.pages.remove_keys(pages.to_set()),
            prefixes: self.prefixes.restrict(Set::new(|k: Seq<u64>| !names(k, ids))),
            ..self
        }
    }

    pub open spec fn fresh_id(self) -> u64 {
        if self.next_id == 0 {
            1
        } else {
            self.next_id
        }
    }

    /// Whether a page is already held for this owner.
    pub open spec fn owns(self, page: u32, owner: MetalPageOwner) -> bool {
        self.pages.contains_key(page) && self.pages[page].owner == Some(owner)
    }

    /// The id under which a page is published: the one it has for the same
    /// owner, a fresh one otherwise.
    pub open spec fn publish_id(self, page: u32, owner: MetalPageOwner) -> u64 {
        if self.owns(page, owner) {
            self.pages[page].logical_id
        } else {
            self.fresh_id()
        }
    }

    pub open spec fn publish_page(
        self,
        page: u32,
        owner: MetalPageOwner,
        kv_flat: Vec<A>,
    ) -> StoreView<A> {
        let id = self.publish_id(page, owner);
        StoreView {
            pages: self.pages.insert(
                page,
                MetalPageBlock { logical_id: id, owner: Some(owner), kv_flat },
            ),
            next_id: if self.owns(page, owner) {
                self.next_id
            } else if id == u64::MAX {
                u64::MAX
            } else {
                (id + 1) as u64
            },
            ..self
        }
    }

    /// The store after the first `n` pages of a slot are published.
    pub open spec fn publish_pages(
        self,
        slot: usize,
        slot_epoch: u64,
        pages: Seq<u32>,
        slices: Seq<Option<Vec<A>>>,
        n: nat,
    ) -> StoreView<A>
        decreases n,
    {
        if n == 0 {
            self
        } else {
            let owner = MetalPageOwner { slot, slot_epoch, page_idx: (n - 1) as usize };
            self.publish_pages(slot, slot_epoch, pages, slices, (n - 1) as nat).publish_page(
                pages[n - 1],
                owner,
                slices[n - 1]->0,
            )
        }
    }

    /// The ids that the first `n` published pages took over from.
    pub open spec fn overwritten(
        self,
        slot: usize,
        slot_epoch: u64,
        pages: Seq<u32>,
        slices: Seq<Option<Vec<A>>>,
        n: nat,
    ) -> Set<u64>
        decreases n,
    {
        if n == 0 {
            Set::empty()
        } else {
            let owner = MetalPageOwner { slot, slot_epoch, page_idx: (n - 1) as usize };
            let before = self.publish_pages(slot, slot_epoch, pages, slices, (n - 1) as nat);
            let front = self.overwritten(slot, slot_epoch, pages, slices, (n - 1) as nat);
            let page = pages[n - 1];
            if before.pages.contains_key(page) && before.pages[page].logical_id
                != before.publish_id(page, owner) {
                front.insert(before.pages[page].logical_id)
            } else {
                front
            }
        }
    }

    /// Prefixes that name an overwritten id go, but for the front parts of
    /// the live key.
    pub open spec fn drop_stale(self, ids: Set<u64>, live: Seq<u64>) -> StoreView<A> {
        StoreView {
            prefixes: self.prefixes.restrict(
                Set::new(|k: Seq<u64>| !names(k, ids) || is_front(k, live)),
            ),
            ..self
        }
    }

    /// The pages as published and the stale prefixes dropped.
    pub open spec fn settle(
        self,
        slot: usize,
        slot_epoch: u64,
        pages: Seq<u32>,
        slices: Seq<Option<Vec<A>>>,
        n: nat,
    ) -> StoreView<A> {
        let after = self.publish_pages(slot, slot_epoch, pages, slices, n);
        after.drop_stale(
            self.overwritten(slot, slot_epoch, pages, slices, n),
            after.key_of_pages(pages.take(n as int))->0,
        )
    }
}

impl<A> StoreView<A> {
    /// The store after a slot is published, all of whose pages could be cut.
    pub open spec fn published(
        self,
        slot: usize,
        slot_epoch: u64,
        cache_len: usize,
        page_size: usize,
        pages: Seq<u32>,
        slices: Seq<Option<Vec<A>>>,
        gdr_flat: Vec<A>,
    ) -> StoreView<A> {
        let n = slices.len();
        let settled = self.settle(slot, slot_epoch, pages, slices, n);
        let rest = settled.reclaim(self.overwritten(slot, slot_epoch, pages, slices, n));
        let live = settled.key_of_pages(pages.take(n as int))->0;
        if at_boundary(cache_len as nat, page_size as nat, pages.len()) {
            StoreView {
                prefixes: rest.prefixes.insert(live, MetalPrefixSnapshot { cache_len, gdr_flat }),
                ..rest
            }
        } else {
            rest
        }
    }
}

/// How many pages of a slot are published: the full ones that it has.
pub open spec fn publish_count(cache_len: nat, page_size: nat, pages: nat) -> nat {
    min_nat(cache_len / max_nat(page_size, 1), pages)
}

/// A restore image is taken only where the tokens end at a page boundary and
/// every one of those pages is there.
pub open spec fn at_boundary(cache_len: nat, page_size: nat, pages: nat) -> bool {
    cache_len / max_nat(page_size, 1) > 0 && cache_len % max_nat(page_size, 1) == 0 && cache_len
        / max_nat(page_size, 1) <= pages
}

/// What a publish asks of the tier: pages to write (physical page and logical
/// id), records to remove, and the prefix whose image is not on disk yet.
#[derive(Debug)]
pub struct PublishOutcome {
    pub writes: Vec<(u32, u64)>,
    pub removals: Vec<TierRemoval>,
    pub prefix: Option<Vec<u64>>,
}

pub open spec fn page_writes<A>(
    v: StoreView<A>,
    slot: usize,
    slot_epoch: u64,
    pages: Seq<u32>,
    slices: Seq<Option<Vec<A>>>,
    n: nat,
) -> Seq<(u32, u64)>
    decreases n,
{
    if n == 0 || !v.tier {
        Seq::empty()
    } else {
        let owner = MetalPageOwner { slot, slot_epoch, page_idx: (n - 1) as usize };
        let before = v.publish_pages(slot, slot_epoch, pages, slices, (n - 1) as nat);
        page_writes(v, slot, slot_epoch, pages, slices, (n - 1) as nat).push(
            (pages[n - 1], before.publish_id(pages[n - 1], owner)),
        )
    }
}

proof fn lemma_touches(key: Seq<u64>, ids: Seq<u64>)
    ensures
        touches(key, ids) == names(key, ids.to_set()),
{
    if touches(key, ids) {
        let i = choose|i: int| 0 <= i < ids.len() && key.contains(#[trigger] ids[i]);
        assert(ids.to_set().contains(ids[i]));
    }
    if names(key, ids.to_set()) {
        let id = choose|id: u64| #[trigger] ids.to_set().contains(id) && key.contains(id);
        let i = choose|i: int| 0 <= i < ids.len() && ids[i] == id;
        assert(key.contains(ids[i]));
    }
}

fn any_bound(m: &HashMap<u64, u64>, id: u64) -> (r: bool)
    ensures
        r == exists|k: u64| #[trigger] m@.contains_key(k) && m@[k] == id,
{
    let mut found: bool = false;
    for l in it: m.values()
        invariant
            it.seq().unref().to_set() == m@.values(),
            found <==> exists|i: int|
                0 <= i < it.index() && #[trigger] it.seq().unref()[i] == id,
            it.index() == it.seq().len() ==> (found <==> it.seq().unref().to_set().contains(id)),
    {
        let ghost was = found;
        if *l == id {
            found = true;
        }
        proof {
            let all = it.seq().unref();
            assert(all[it.index() as int] == *l);
            assert(found <==> exists|i: int|
                0 <= i < it.index() + 1 && #[trigger] all[i] == id) by {
                if was {
                    let i = choose|i: int| 0 <= i < it.index() && #[trigger] all[i] == id;
                    assert(all[i] == id);
                }
            }
            assert(it.index() + 1 == all.len() ==> (found <==> all.to_set().contains(id))) by {
                if all.to_set().contains(id) {
                    let i = choose|i: int| 0 <= i < all.len() && all[i] == id;
                    assert(all[i] == id);
                }
                if exists|i: int| 0 <= i < it.index() + 1 && #[trigger] all[i] == id && it.index()
                    + 1 == all.len() {
                    let i = choose|i: int|
                        0 <= i < it.index() + 1 && #[trigger] all[i] == id && it.index() + 1
                            == all.len();
                    assert(all.contains(id));
                }
            }
        }
    }
    proof {
        if found {
            assert(m@.values().contains(id));
            let k = choose|k: u64| #[trigger] m@.contains_key(k) && m@[k] == id;
            assert(m@.contains_key(k));
        }
        if exists|k: u64| #[trigger] m@.contains_key(k) && m@[k] == id {
            let k = choose|k: u64| #[trigger] m@.contains_key(k) && m@[k] == id;
            assert(m@.dom().contains(k));
            assert(m@.values().contains(id));
        }
    }
    found
}

fn any_resident<A>(m: &HashMap<u32, MetalPageBlock<A>>, id: u64) -> (r: bool)
    ensures
        r == exists|p: u32| #[trigger] m@.contains_key(p) && m@[p].logical_id == id,
{
    let mut found: bool = false;
    for b in it: m.values()
        invariant
            it.seq().unref().to_set() == m@.values(),
            found <==> exists|i: int|
                0 <= i < it.index() && (#[trigger] it.seq().unref()[i]).logical_id == id,
            it.index() == it.seq().len() ==> (found <==> exists|x: MetalPageBlock<A>| #[trigger]
                it.seq().unref().to_set().contains(x) && x.logical_id == id),
    {
        let ghost was = found;
        if b.logical_id == id {
            found = true;
        }
        proof {
            let all = it.seq().unref();
            assert(all[it.index() as int] == *b);
            assert(found <==> exists|i: int|
                0 <= i < it.index() + 1 && (#[trigger] all[i]).logical_id == id) by {
                if was {
                    let i = choose|i: int|
                        0 <= i < it.index() && (#[trigger] all[i]).logical_id == id;
                    assert(all[i].logical_id == id);
                }
            }
            assert(it.index() + 1 == all.len() ==> (found <==> exists|x: MetalPageBlock<A>|
                #[trigger]
                all.to_set().contains(x) && x.logical_id == id)) by {
                if exists|x: MetalPageBlock<A>| #[trigger]
                    all.to_set().contains(x) && x.logical_id == id {
                    let x = choose|x: MetalPageBlock<A>| #[trigger]
                        all.to_set().contains(x) && x.logical_id == id;
                    let i = choose|i: int| 0 <= i < all.len() && all[i] == x;
                    assert(all[i].logical_id == id);
                }
                if exists|i: int|
                    0 <= i < it.index() + 1 && (#[trigger] all[i]).logical_id == id && it.index()
                        + 1 == all.len() {
                    let i = choose|i: int|
                        0 <= i < it.index() + 1 && (#[trigger] all[i]).logical_id == id
                            && it.index() + 1 == all.len();
                    assert(all.contains(all[i]));
                    assert(all.to_set().contains(all[i]));
                }
            }
        }
    }
    proof {
        if found {
            let x = choose|x: MetalPageBlock<A>| #[trigger]
                m@.values().contains(x) && x.logical_id == id;
            let p = choose|p: u32| #[trigger] m@.contains_key(p) && m@[p] == x;
            assert(m@.contains_key(p));
        }
        if exists|p: u32| #[trigger] m@.contains_key(p) && m@[p].logical_id == id {
            let p = choose|p: u32| #[trigger] m@.contains_key(p) && m@[p].logical_id == id;
            assert(m@.dom().contains(p));
            assert(m@.values().contains(m@[p]));
        }
    }
    found
}

impl<A> MetalPageStore<A> {
    /// Nothing is on disk, or bound to it, without a tier.
    pub closed spec fn wf(self) -> bool {
        &&& self.prefixes.wf()
        &&& self.disk_prefixes.wf()
        &&& !self.tier ==> self.disk_prefixes.map() == Map::<Seq<u64>, u64>::empty()
            && self.tier_to_logical@ == Map::<u64, u64>::empty()
    }

    pub fn new() -> (s: Self)
        ensures
            s.wf(),
            s@ == (StoreView::<A> {
                pages: Map::empty(),
                prefixes: Map::empty(),
                next_id: 1,
                tier: false,
                bound: Map::empty(),
                disk: Map::empty(),
            }),
    {
        MetalPageStore {
            pages: HashMap::new(),
            prefixes: KeyedVec::new(),
            next_logical_id: 1,
            tier: false,
            tier_to_logical: HashMap::new(),
            disk_prefixes: KeyedVec::new(),
        }
    }

    /// Attaches the disk tier where the outside store took it.
    pub fn set_ssd(&mut self, accepted: bool) -> (r: bool)
        requires
            old(self).wf(),
        ensures
            final(self).wf(),
            r == accepted,
            final(self)@ == (StoreView { tier: old(self)@.tier || accepted, ..old(self)@ }),
    {
        if accepted {
            self.tier = true;
        }
        accepted
    }

    pub fn kv_tier_disk_pages(&self) -> (n: usize)
        requires
            self.wf(),
        ensures
            n == self@.bound.dom().len(),
    {
        self.tier_to_logical.len()
    }

    pub fn has_page(&self, page: u32) -> (r: bool)
        requires
            self.wf(),
        ensures
            r == self@.pages.contains_key(page),
    {
        self.pages.contains_key(&page)
    }

    pub fn page_count(&self) -> (n: usize)
        requires
            self.wf(),
        ensures
            n == self@.pages.dom().len(),
    {
        self.pages.len()
    }

    pub fn prefix_snapshot(&self, key: &[u64]) -> (r: Option<&MetalPrefixSnapshot<A>>)
        requires
            self.wf(),
        ensures
            match r {
                Some(s) => self@.prefixes.contains_key(key@) && *s == self@.prefixes[key@],
                None => !self@.prefixes.contains_key(key@),
            },
    {
        self.prefixes.get(key)
    }

    pub fn has_disk_prefix(&self, key: &[u64]) -> (r: bool)
        requires
            self.wf(),
        ensures
            r == self@.disk.contains_key(key@),
    {
        self.disk_prefixes.contains_key(key)
    }

    /// The store key of the page that a demoted key is bound to.
    pub fn kv_tier_location(&self, key: u64) -> (r: Option<u64>)
        requires
            self.wf(),
        ensures
            r == if self@.tier && self@.bound.contains_key(key) {
                Some(self@.bound[key])
            } else {
                None
            },
    {
        if !self.tier {
            return None;
        }
        match self.tier_to_logical.get(&key) {
            Some(id) => Some(*id),
            None => None,
        }
    }

    pub fn logical_key_for_pages(&self, pages: &[u32]) -> (r: Option<Vec<u64>>)
        requires
            self.wf(),
        ensures
            match (r, self@.key_of_pages(pages@)) {
                (Some(k), Some(s)) => k@ == s,
                (None, None) => true,
                _ => false,
            },
    {
        let mut key: Vec<u64> = Vec::new();
        let mut i: usize = 0;
        while i < pages.len()
            invariant
                i <= pages@.len(),
                key@.len() == i,
                forall|j: int| 0 <= j < i ==> self@.pages.contains_key(#[trigger] pages@[j]),
                forall|j: int|
                    0 <= j < i ==> key@[j] == self@.pages[#[trigger] pages@[j]].logical_id,
            decreases pages@.len() - i,
        {
            match self.pages.get(&pages[i]) {
                None => {
                    assert(!self@.pages.contains_key(pages@[i as int]));
                    return None;
                },
                Some(b) => {
                    key.push(b.logical_id);
                },
            }
            i = i + 1;
        }
        assert(key@ =~= self@.key_of_pages(pages@)->0);
        Some(key)
    }

    fn front_key(&self, blocks: &[PrefixBlock], k: usize) -> (r: Option<Vec<u64>>)
        requires
            self.wf(),
            k <= blocks@.len(),
        ensures
            match (r, self@.key_of_blocks(blocks@.take(k as int))) {
                (Some(v), Some(s)) => v@ == s,
                (None, None) => true,
                _ => false,
            },
    {
        let ghost front = blocks@.take(k as int);
        let mut key: Vec<u64> = Vec::new();
        let mut i: usize = 0;
        while i < k
            invariant
                i <= k <= blocks@.len(),
                front == blocks@.take(k as int),
                key@.len() == i,
                forall|j: int| 0 <= j < i ==> self@.block_id(#[trigger] front[j]) is Some,
                forall|j: int| 0 <= j < i ==> key@[j] == self@.block_id(#[trigger] front[j])->0,
            decreases k - i,
        {
            assert(front[i as int] == blocks@[i as int]);
            let id: Option<u64> = match blocks[i] {
                PrefixBlock::ResidentPage(page) => match self.pages.get(&page) {
                    Some(b) => Some(b.logical_id),
                    None => None,
                },
                PrefixBlock::DemotedKey(t) => match self.tier_to_logical.get(&t) {
                    Some(l) => Some(*l),
                    None => None,
                },
            };
            assert(id == self@.block_id(front[i as int]));
            match id {
                None => {
                    return None;
                },
                Some(x) => {
                    key.push(x);
                },
            }
            i = i + 1;
        }
        assert(key@ =~= self@.key_of_blocks(front)->0);
        Some(key)
    }

    pub fn logical_key_for_prefix_blocks(&self, blocks: &[PrefixBlock]) -> (r: Option<Vec<u64>>)
        requires
            self.wf(),
        ensures
            match (r, self@.key_of_blocks(blocks@)) {
                (Some(v), Some(s)) => v@ == s,
                (None, None) => true,
                _ => false,
            },
    {
        assert(blocks@.take(blocks@.len() as int) =~= blocks@);
        self.front_key(blocks, blocks.len())
    }

    pub fn prefix_available(&self, key: &[u64]) -> (r: bool)
        requires
            self.wf(),
        ensures
            r == self@.available(key@),
    {
        self.prefixes.contains_key(key) || self.disk_prefixes.contains_key(key)
    }

    /// The largest leading block count with a complete restore image; 0 where
    /// none has one. Demoted blocks count as long as they are bound.
    pub fn reusable_prefix_blocks(&self, blocks: &[PrefixBlock]) -> (n: usize)
        requires
            self.wf(),
        ensures
            n <= blocks@.len(),
            n > 0 ==> self@.reuses(blocks@, n as int),
            forall|k: int| n < k <= blocks@.len() ==> !self@.reuses(blocks@, k),
    {
        let mut k: usize = blocks.len();
        while k > 0
            invariant
                k <= blocks@.len(),
                self.wf(),
                forall|j: int| k < j <= blocks@.len() ==> !self@.reuses(blocks@, j),
            decreases k,
        {
            match self.front_key(blocks, k) {
                Some(key) => {
                    if self.prefix_available(key.as_slice()) {
                        return k;
                    }
                },
                None => {},
            }
            k = k - 1;
        }
        0
    }

    fn reclaim_unreferenced(&mut self, ids: &[u64]) -> (removals: Vec<TierRemoval>)
        requires
            old(self).wf(),
        ensures
            final(self).wf(),
            final(self)@ == old(self)@.reclaim(ids@.to_set()),
            forall|r: TierRemoval| #[trigger]
                removals@.contains(r) <==> old(self)@.removes(ids@.to_set(), r),
    {
        let mut removals: Vec<TierRemoval> = Vec::new();
        if !self.tier {
            assert(forall|r: TierRemoval| !removals@.contains(r));
            return removals;
        }
        let ghost v = self@;
        let ghost set = ids@.to_set();
        let mut dead: Vec<u64> = Vec::new();
        let mut i: usize = 0;
        while i < ids.len()
            invariant
                i <= ids@.len(),
                v == self@,
                self == old(self),
                forall|j: int| 0 <= j < dead@.len() ==> ids@.contains(#[trigger] dead@[j]),
                forall|j: int| 0 <= j < dead@.len() ==> !v.referenced(#[trigger] dead@[j]),
                forall|j: int|
                    0 <= j < i && !v.referenced(#[trigger] ids@[j]) ==> dead@.contains(ids@[j]),
                removals@.len() == dead@.len(),
                forall|j: int|
                    0 <= j < dead@.len() ==> #[trigger] removals@[j] == (TierRemoval::Page {
                        logical_id: dead@[j],
                    }),
            decreases ids@.len() - i,
        {
            let id: u64 = ids[i];
            let demoted: bool = any_bound(&self.tier_to_logical, id);
            let resident: bool = any_resident(&self.pages, id);
            let live: bool = demoted || resident;
            proof {
                assert(v.bound == self.tier_to_logical@);
                assert(v.pages == self.pages@);
                if demoted {
                    let k = choose|k: u64| #[trigger]
                        self.tier_to_logical@.contains_key(k) && self.tier_to_logical@[k] == id;
                    assert(v.bound.contains_key(k));
                }
                if resident {
                    let p = choose|p: u32| #[trigger]
                        self.pages@.contains_key(p) && self.pages@[p].logical_id == id;
                    assert(v.pages.contains_key(p));
                }
                assert(live == v.referenced(id));
            }
            if !live {
                let ghost was = dead@;
                dead.push(id);
                removals.push(TierRemoval::Page { logical_id: id });
                assert(ids@.contains(id));
                assert forall|j: int| 0 <= j < i + 1 && !v.referenced(#[trigger] ids@[j]) implies
                    dead@.contains(ids@[j]) by {
                    if j < i {
                        let t = choose|t: int| 0 <= t < was.len() && was[t] == ids@[j];
                        assert(dead@[t] == ids@[j]);
                    } else {
                        assert(dead@[dead@.len() - 1] == id);
                    }
                }
            }
            i = i + 1;
        }
        let ghost gone = v.dead(set);
        proof {
            assert forall|id: u64| dead@.contains(id) <==> gone.contains(id) by {
                if dead@.contains(id) {
                    let j = choose|j: int| 0 <= j < dead@.len() && dead@[j] == id;
                    assert(ids@.contains(dead@[j]));
                    assert(set.contains(id));
                }
                if gone.contains(id) {
                    let j = choose|j: int| 0 <= j < ids@.len() && ids@[j] == id;
                    assert(dead@.contains(ids@[j]));
                }
            }
            assert(dead@.to_set() =~= gone);
        }
        let ghost pages_part = removals@;
        let hashes: Vec<u64> = self.disk_prefixes.prune(dead.as_slice(), None);
        proof {
            assert forall|k: Seq<u64>| survives(k, dead@, None) == !names(k, gone) by {
                lemma_touches(k, dead@);
            }
            assert(Set::new(|k: Seq<u64>| survives(k, dead@, None)) =~= Set::new(
                |k: Seq<u64>| !names(k, gone),
            ));
            assert(self@ =~= v.reclaim(set));
        }
        let mut h: usize = 0;
        while h < hashes.len()
            invariant
                h <= hashes@.len(),
                removals@.len() == pages_part.len() + h,
                forall|j: int| 0 <= j < pages_part.len() ==> #[trigger] removals@[j] == pages_part[j],
                forall|j: int|
                    0 <= j < h ==> #[trigger] removals@[pages_part.len() + j] == (
                    TierRemoval::Prefix { hash: hashes@[j] }),
            decreases hashes@.len() - h,
        {
            removals.push(TierRemoval::Prefix { hash: hashes[h] });
            h = h + 1;
        }
        proof {
            assert forall|r: TierRemoval| #[trigger] removals@.contains(r) <==> v.removes(set, r) by {
                let np = pages_part.len() as int;
                if removals@.contains(r) {
                    let j = choose|j: int| 0 <= j < removals@.len() && removals@[j] == r;
                    if j < np {
                        assert(removals@[j] == pages_part[j]);
                        assert(dead@.contains(dead@[j]));
                    } else {
                        assert(removals@[np + (j - np)] == (TierRemoval::Prefix {
                            hash: hashes@[j - np],
                        }));
                        let hash = hashes@[j - np];
                        assert(hashes@.contains(hash));
                        let k = choose|k: Seq<u64>| #[trigger]
                            v.disk.contains_key(k) && v.disk[k] == hash && !survives(
                                k,
                                dead@,
                                None,
                            );
                        assert(v.disk.contains_key(k) && names(k, gone));
                    }
                }
                if v.removes(set, r) {
                    match r {
                        TierRemoval::Page { logical_id } => {
                            assert(dead@.contains(logical_id));
                            let j = choose|j: int| 0 <= j < dead@.len() && dead@[j] == logical_id;
                            assert(pages_part[j] == r);
                            assert(removals@[j] == r);
                        },
                        TierRemoval::Prefix { hash } => {
                            let k = choose|k: Seq<u64>| #[trigger]
                                v.disk.contains_key(k) && v.disk[k] == hash && names(k, gone);
                            assert(v.disk.contains_key(k) && !survives(k, dead@, None));
                            assert(hashes@.contains(hash));
                            let j = choose|j: int| 0 <= j < hashes@.len() && hashes@[j] == hash;
                            assert(removals@[np + j] == r);
                        },
                    }
                }
            }
        }
        removals
    }
}

/// The keys in `[0, n)` leave a map.
proof fn lemma_remove_next<K, V>(m: Map<K, V>, keys: Seq<K>, n: int)
    requires
        0 <= n < keys.len(),
    ensures
        m.remove_keys(keys.take(n + 1).to_set()) == m.remove_keys(keys.take(n).to_set()).remove(
            keys[n],
        ),
{
    let short = keys.take(n);
    let long = keys.take(n + 1);
    assert(long =~= short.push(keys[n]));
    assert forall|k: K| long.to_set().contains(k) <==> short.to_set().contains(k) || k
        == keys[n] by {
        if long.contains(k) {
            let i = choose|i: int| 0 <= i < long.len() && long[i] == k;
            if i < n {
                assert(short[i] == k);
            }
        }
        if short.contains(k) {
            let i = choose|i: int| 0 <= i < short.len() && short[i] == k;
            assert(long[i] == k);
        }
        assert(long[n] == keys[n]);
    }
    assert(m.remove_keys(long.to_set()) =~= m.remove_keys(short.to_set()).remove(keys[n]));
}

impl<A> MetalPageStore<A> {
    /// Drops evicted pages, the resident prefixes built on them, and what of
    /// them nothing reaches on disk.
    pub fn release_pages(&mut self, pages: &[u32]) -> (removals: Vec<TierRemoval>)
        requires
            old(self).wf(),
        ensures
            final(self).wf(),
            final(self)@ == old(self)@.without_pages(pages@).reclaim(old(self)@.ids_of(pages@)),
            forall|r: TierRemoval| #[trigger]
                removals@.contains(r) <==> old(self)@.without_pages(pages@).removes(
                    old(self)@.ids_of(pages@),
                    r,
                ),
    {
        let ghost v = self@;
        let mut released: Vec<u64> = Vec::new();
        let mut i: usize = 0;
        assert(pages@.take(0).to_set() =~= Set::<u32>::empty());
        assert(self.pages@ =~= v.pages.remove_keys(pages@.take(0).to_set()));
        while i < pages.len()
            invariant
                i <= pages@.len(),
                v == old(self)@,
                self.wf(),
                self.pages@ == v.pages.remove_keys(pages@.take(i as int).to_set()),
                self.prefixes == old(self).prefixes,
                self.next_logical_id == old(self).next_logical_id,
                self.tier == old(self).tier,
                self.tier_to_logical == old(self).tier_to_logical,
                self.disk_prefixes == old(self).disk_prefixes,
                forall|j: int|
                    0 <= j < released@.len() ==> v.ids_of(pages@).contains(#[trigger] released@[j]),
                forall|j: int|
                    0 <= j < i && v.pages.contains_key(#[trigger] pages@[j]) ==> released@.contains(
                        v.pages[pages@[j]].logical_id,
                    ),
            decreases pages@.len() - i,
        {
            let ghost was = released@;
            let page: u32 = pages[i];
            let ghost held = self.pages@;
            proof {
                lemma_remove_next(v.pages, pages@, i as int);
            }
            match self.pages.remove(&page) {
                Some(b) => {
                    released.push(b.logical_id);
                    proof {
                        assert(v.page_id(pages@[i as int]) == Some(b.logical_id));
                        assert(v.ids_of(pages@).contains(b.logical_id));
                        assert(released@[released@.len() - 1] == b.logical_id);
                    }
                },
                None => {
                    proof {
                        assert(!held.contains_key(page));
                        if v.pages.contains_key(page) {
                            assert(pages@.take(i as int).to_set().contains(page));
                            let j = choose|j: int|
                                0 <= j < pages@.take(i as int).len() && pages@.take(i as int)[j]
                                    == page;
                            assert(pages@[j] == page);
                            assert(was.contains(v.pages[pages@[j]].logical_id));
                        }
                        assert(held.remove(page) =~= held);
                    }
                },
            }
            proof {
                assert forall|j: int|
                    0 <= j < i + 1 && v.pages.contains_key(#[trigger] pages@[j]) implies released@.contains(
                    v.pages[pages@[j]].logical_id,
                ) by {
                    let id = v.pages[pages@[j]].logical_id;
                    if was.contains(id) {
                        let t = choose|t: int| 0 <= t < was.len() && was[t] == id;
                        assert(released@[t] == id);
                    }
                }
            }
            i = i + 1;
        }
        let ghost ids = v.ids_of(pages@);
        proof {
            assert(pages@.take(i as int) =~= pages@);
            assert forall|id: u64| released@.to_set().contains(id) <==> ids.contains(id) by {
                if released@.contains(id) {
                    let j = choose|j: int| 0 <= j < released@.len() && released@[j] == id;
                    assert(ids.contains(released@[j]));
                }
                if ids.contains(id) {
                    let j = choose|j: int|
                        0 <= j < pages@.len() && v.page_id(#[trigger] pages@[j]) == Some(id);
                    assert(v.pages.contains_key(pages@[j]));
                }
            }
            assert(released@.to_set() =~= ids);
        }
        let _ = self.prefixes.prune(released.as_slice(), None);
        proof {
            assert forall|k: Seq<u64>| survives(k, released@, None) == !names(k, ids) by {
                lemma_touches(k, released@);
            }
            assert(Set::new(|k: Seq<u64>| survives(k, released@, None)) =~= Set::new(
                |k: Seq<u64>| !names(k, ids),
            ));
            assert(self@ =~= v.without_pages(pages@));
        }
        self.reclaim_unreferenced(released.as_slice())
    }

    /// Unbinds demoted keys and reclaims what nothing reaches any more.
    pub fn drop_kv_tier_entries(&mut self, keys: &[u64]) -> (removals: Vec<TierRemoval>)
        requires
            old(self).wf(),
        ensures
            final(self).wf(),
            final(self)@ == old(self)@.without_keys(keys@).reclaim(old(self)@.bound_ids(keys@)),
            forall|r: TierRemoval| #[trigger]
                removals@.contains(r) <==> old(self)@.without_keys(keys@).removes(
                    old(self)@.bound_ids(keys@),
                    r,
                ),
    {
        let ghost v = self@;
        let mut unbound: Vec<u64> = Vec::new();
        let mut i: usize = 0;
        assert(keys@.take(0).to_set() =~= Set::<u64>::empty());
        assert(self.tier_to_logical@ =~= v.bound.remove_keys(keys@.take(0).to_set()));
        while i < keys.len()
            invariant
                i <= keys@.len(),
                v == old(self)@,
                self.wf(),
                self.tier_to_logical@ == v.bound.remove_keys(keys@.take(i as int).to_set()),
                self.pages == old(self).pages,
                self.prefixes == old(self).prefixes,
                self.next_logical_id == old(self).next_logical_id,
                self.tier == old(self).tier,
                self.disk_prefixes == old(self).disk_prefixes,
                forall|j: int|
                    0 <= j < unbound@.len() ==> v.bound_ids(keys@).contains(#[trigger] unbound@[j]),
                forall|j: int|
                    0 <= j < i && v.bound.contains_key(#[trigger] keys@[j]) ==> unbound@.contains(
                        v.bound[keys@[j]],
                    ),
            decreases keys@.len() - i,
        {
            let ghost was = unbound@;
            let key: u64 = keys[i];
            let ghost held = self.tier_to_logical@;
            proof {
                lemma_remove_next(v.bound, keys@, i as int);
            }
            match self.tier_to_logical.remove(&key) {
                Some(id) => {
                    unbound.push(id);
                    proof {
                        assert(v.bound.contains_key(keys@[i as int]));
                        assert(v.bound_ids(keys@).contains(id));
                        assert(unbound@[unbound@.len() - 1] == id);
                    }
                },
                None => {
                    proof {
                        assert(!held.contains_key(key));
                        if v.bound.contains_key(key) {
                            assert(keys@.take(i as int).to_set().contains(key));
                            let j = choose|j: int|
                                0 <= j < keys@.take(i as int).len() && keys@.take(i as int)[j]
                                    == key;
                            assert(keys@[j] == key);
                            assert(was.contains(v.bound[keys@[j]]));
                        }
                        assert(held.remove(key) =~= held);
                    }
                },
            }
            proof {
                assert forall|j: int|
                    0 <= j < i + 1 && v.bound.contains_key(#[trigger] keys@[j]) implies unbound@.contains(
                    v.bound[keys@[j]],
                ) by {
                    let id = v.bound[keys@[j]];
                    if was.contains(id) {
                        let t = choose|t: int| 0 <= t < was.len() && was[t] == id;
                        assert(unbound@[t] == id);
                    }
                }
            }
            i = i + 1;
        }
        proof {
            assert(keys@.take(i as int) =~= keys@);
            let ids = v.bound_ids(keys@);
            assert forall|id: u64| unbound@.to_set().contains(id) <==> ids.contains(id) by {
                if unbound@.contains(id) {
                    let j = choose|j: int| 0 <= j < unbound@.len() && unbound@[j] == id;
                    assert(ids.contains(unbound@[j]));
                }
                if ids.contains(id) {
                    let j = choose|j: int|
                        0 <= j < keys@.len() && v.bound.contains_key(#[trigger] keys@[j])
                            && v.bound[keys@[j]] == id;
                    assert(v.bound.contains_key(keys@[j]));
                }
            }
            assert(unbound@.to_set() =~= ids);
            assert(self@ =~= v.without_keys(keys@));
        }
        self.reclaim_unreferenced(unbound.as_slice())
    }

    /// Demotes leading entries (physical page, tier key) as long as the page
    /// is resident and the tier stored it; gives how many were taken.
    pub fn demote_prefix_pages(&mut self, entries: &[(u32, u64)], stored: &[bool]) -> (n: usize)
        requires
            old(self).wf(),
            stored@.len() == entries@.len(),
        ensures
            final(self).wf(),
            n == old(self)@.demoted(entries@, stored@, entries@.len()),
            final(self)@ == (StoreView {
                bound: old(self)@.bind(entries@, n as nat),
                ..old(self)@
            }),
    {
        if !self.tier {
            proof {
                lemma_demoted_bound(self@, entries@, stored@, entries@.len());
            }
            return 0;
        }
        let ghost v = self@;
        let mut i: usize = 0;
        while i < entries.len()
            invariant
                i <= entries@.len() == stored@.len(),
                v == old(self)@,
                v.tier,
                self.wf(),
                v.demoted(entries@, stored@, i as nat) == i,
                self@ == (StoreView { bound: v.bind(entries@, i as nat), ..v }),
            decreases entries@.len() - i,
        {
            let (page, key) = entries[i];
            match self.pages.get(&page) {
                None => {
                    proof {
                        lemma_demoted_stop(v, entries@, stored@, i as nat, entries@.len());
                    }
                    return i;
                },
                Some(b) => {
                    if !stored[i] {
                        proof {
                            lemma_demoted_stop(v, entries@, stored@, i as nat, entries@.len());
                        }
                        return i;
                    }
                    let id: u64 = b.logical_id;
                    let ghost before = self.tier_to_logical@;
                    self.tier_to_logical.insert(key, id);
                },
            }
            i = i + 1;
            assert(self@ =~= (StoreView { bound: v.bind(entries@, i as nat), ..v }));
        }
        i
    }

    /// The logical page behind a demoted key.
    pub fn tier_page_id(&self, key: u64) -> (r: Result<u64, TierError>)
        requires
            self.wf(),
        ensures
            r == self@.tier_page(key),
    {
        match self.tier_to_logical.get(&key) {
            None => Err(TierError::MissingKey { key }),
            Some(id) => if self.tier {
                Ok(*id)
            } else {
                Err(TierError::NotConfigured)
            },
        }
    }

    /// Puts a demoted page, read back from the tier, on a physical page.
    /// Prefixes that named the page's former contents go.
    pub fn promote_page(&mut self, key: u64, dst_page: u32, kv_flat: Vec<A>) -> (r: Result<
        (),
        TierError,
    >)
        requires
            old(self).wf(),
        ensures
            final(self).wf(),
            match old(self)@.tier_page(key) {
                Err(e) => r == Err::<(), TierError>(e) && final(self)@ == old(self)@,
                Ok(id) => r is Ok && final(self)@ == old(self)@.promoted(id, dst_page, kv_flat),
            },
    {
        let id: u64 = match self.tier_page_id(key) {
            Err(e) => {
                return Err(e);
            },
            Ok(id) => id,
        };
        let ghost v = self@;
        let block = MetalPageBlock { logical_id: id, owner: None, kv_flat };
        match self.pages.insert(dst_page, block) {
            Some(prior) => {
                let mut gone: Vec<u64> = Vec::new();
                gone.push(prior.logical_id);
                let _ = self.prefixes.prune(gone.as_slice(), None);
                proof {
                    let ids = set![prior.logical_id];
                    assert(gone@.to_set() =~= ids) by {
                        assert(gone@[0] == prior.logical_id);
                    }
                    assert forall|k: Seq<u64>| survives(k, gone@, None) == !names(k, ids) by {
                        lemma_touches(k, gone@);
                    }
                    assert(Set::new(|k: Seq<u64>| survives(k, gone@, None)) =~= Set::new(
                        |k: Seq<u64>| !names(k, ids),
                    ));
                    assert(v.pages[dst_page].logical_id == prior.logical_id);
                    assert(self@ =~= v.promoted(id, dst_page, kv_flat));
                }
            },
            None => {
                assert(self@ =~= v.promoted(id, dst_page, kv_flat));
            },
        }
        Ok(())
    }

    /// Where the restore image of a prefix is.
    pub fn ensure_prefix_snapshot_resident(&self, key: &[u64]) -> (r: Result<
        SnapshotSource,
        TierError,
    >)
        requires
            self.wf(),
        ensures
            r == self@.snapshot_source(key@),
    {
        if self.prefixes.contains_key(key) {
            return Ok(SnapshotSource::Resident);
        }
        match self.disk_prefixes.get(key) {
            None => Err(TierError::NotResident),
            Some(hash) => if self.tier {
                Ok(SnapshotSource::OnDisk { hash: *hash })
            } else {
                Err(TierError::NotConfigured)
            },
        }
    }

    /// Takes in a restore image read back from the tier.
    pub fn admit_prefix(&mut self, key: &[u64], snapshot: MetalPrefixSnapshot<A>)
        requires
            old(self).wf(),
        ensures
            final(self).wf(),
            final(self)@ == (StoreView {
                prefixes: old(self)@.prefixes.insert(key@, snapshot),
                ..old(self)@
            }),
    {
        self.prefixes.insert(copy_ids(key), snapshot);
    }

    /// Notes whether the tier, where there is one, took a prefix image.
    pub fn note_disk_prefix(&mut self, key: &[u64], accepted: bool)
        requires
            old(self).wf(),
        ensures
            final(self).wf(),
            final(self)@ == if accepted && old(self)@.tier {
                StoreView {
                    disk: old(self)@.disk.insert(key@, prefix_hash(key@)),
                    ..old(self)@
                }
            } else {
                old(self)@
            },
    {
        if accepted && self.tier {
            let hash: u64 = prefix_store_key(key);
            self.disk_prefixes.insert(copy_ids(key), hash);
        }
    }
}

impl<A> StoreView<A> {
    pub open spec fn bound_ids(self, keys: Seq<u64>) -> Set<u64> {
        Set::new(
            |id: u64|
                exists|i: int|
                    0 <= i < keys.len() && self.bound.contains_key(#[trigger] keys[i])
                        && self.bound[keys[i]] == id,
        )
    }

    pub open spec fn without_keys(self, keys: Seq<u64>) -> StoreView<A> {
        StoreView { bound: self.bound.remove_keys(keys.to_set()), ..self }
    }

    /// How many of the first `n` entries are demoted: as many as lead with a
    /// resident page that the tier stored.
    pub open spec fn demoted(self, entries: Seq<(u32, u64)>, stored: Seq<bool>, n: nat) -> nat
        decreases n,
    {
        if n == 0 || !self.tier {
            0
        } else {
            let front = self.demoted(entries, stored, (n - 1) as nat);
            if front == n - 1 && self.pages.contains_key(entries[n - 1].0) && stored[n - 1] {
                n
            } else {
                front
            }
        }
    }

    pub open spec fn bind(self, entries: Seq<(u32, u64)>, n: nat) -> Map<u64, u64>
        decreases n,
    {
        if n == 0 {
            self.bound
        } else {
            self.bind(entries, (n - 1) as nat).insert(
                entries[n - 1].1,
                self.pages[entries[n - 1].0].logical_id,
            )
        }
    }

    pub open spec fn tier_page(self, key: u64) -> Result<u64, TierError> {
        if !self.bound.contains_key(key) {
            Err(TierError::MissingKey { key })
        } else if !self.tier {
            Err(TierError::NotConfigured)
        } else {
            Ok(self.bound[key])
        }
    }

    pub open spec fn promoted(self, id: u64, dst_page: u32, kv_flat: Vec<A>) -> StoreView<A> {
        StoreView {
            pages: self.pages.insert(
                dst_page,
                MetalPageBlock { logical_id: id, owner: None, kv_flat },
            ),
            prefixes: if self.pages.contains_key(dst_page) {
                self.prefixes.restrict(
                    Set::new(
                        |k: Seq<u64>| !names(k, set![self.pages[dst_page].logical_id]),
                    ),
                )
            } else {
                self.prefixes
            },
            ..self
        }
    }

    pub open spec fn snapshot_source(self, key: Seq<u64>) -> Result<SnapshotSource, TierError> {
        if self.prefixes.contains_key(key) {
            Ok(SnapshotSource::Resident)
        } else if !self.disk.contains_key(key) {
            Err(TierError::NotResident)
        } else if !self.tier {
            Err(TierError::NotConfigured)
        } else {
            Ok(SnapshotSource::OnDisk { hash: self.disk[key] })
        }
    }
}

proof fn lemma_demoted_bound<A>(
    v: StoreView<A>,
    entries: Seq<(u32, u64)>,
    stored: Seq<bool>,
    n: nat,
)
    ensures
        v.demoted(entries, stored, n) <= n,
        !v.tier ==> v.demoted(entries, stored, n) == 0,
    decreases n,
{
    if n > 0 {
        lemma_demoted_bound(v, entries, stored, (n - 1) as nat);
    }
}

proof fn lemma_demoted_stop<A>(
    v: StoreView<A>,
    entries: Seq<(u32, u64)>,
    stored: Seq<bool>,
    k: nat,
    n: nat,
)
    requires
        k < n,
        v.demoted(entries, stored, k) == k,
        !(v.pages.contains_key(entries[k as int].0) && stored[k as int]),
    ensures
        v.demoted(entries, stored, n) == k,
    decreases n,
{
    if n > k + 1 {
        lemma_demoted_stop(v, entries, stored, k, (n - 1) as nat);
    }
}

/// Publishing `n` pages leaves all of them resident and changes nothing but
/// pages and the id counter.
proof fn lemma_publish_frame<A>(
    v: StoreView<A>,
    slot: usize,
    slot_epoch: u64,
    pages: Seq<u32>,
    slices: Seq<Option<Vec<A>>>,
    n: nat,
)
    requires
        n <= pages.len(),
    ensures
        ({
            let after = v.publish_pages(slot, slot_epoch, pages, slices, n);
            &&& after.prefixes == v.prefixes
            &&& after.tier == v.tier
            &&& after.bound == v.bound
            &&& after.disk == v.disk
            &&& forall|i: int| 0 <= i < n ==> after.pages.contains_key(#[trigger] pages[i])
            &&& forall|p: u32| v.pages.contains_key(p) ==> #[trigger] after.pages.contains_key(p)
        }),
    decreases n,
{
    if n > 0 {
        lemma_publish_frame(v, slot, slot_epoch, pages, slices, (n - 1) as nat);
    }
}

/// The published pages always have a logical key.
proof fn lemma_live_key<A>(
    v: StoreView<A>,
    slot: usize,
    slot_epoch: u64,
    pages: Seq<u32>,
    slices: Seq<Option<Vec<A>>>,
    n: nat,
)
    requires
        n <= pages.len(),
    ensures
        v.publish_pages(slot, slot_epoch, pages, slices, n).key_of_pages(pages.take(n as int))
            is Some,
{
    lemma_publish_frame(v, slot, slot_epoch, pages, slices, n);
    let after = v.publish_pages(slot, slot_epoch, pages, slices, n);
    assert forall|i: int| 0 <= i < n implies after.pages.contains_key(
        #[trigger] pages.take(n as int)[i],
    ) by {
        assert(after.pages.contains_key(pages[i]));
    }
}

impl<A> MetalPageStore<A> {
    /// Publishes one page of a slot; gives its id, and the id that it took
    /// the page over from.
    fn publish_one(&mut self, page: u32, owner: MetalPageOwner, kv_flat: Vec<A>) -> (r: (
        u64,
        Option<u64>,
    ))
        requires
            old(self).wf(),
        ensures
            final(self).wf(),
            final(self)@ == old(self)@.publish_page(page, owner, kv_flat),
            r.0 == old(self)@.publish_id(page, owner),
            r.1 == if old(self)@.pages.contains_key(page) && old(self)@.pages[page].logical_id
                != r.0 {
                Some(old(self)@.pages[page].logical_id)
            } else {
                None
            },
    {
        let ghost v = self@;
        let held: Option<(u64, bool)> = match self.pages.get(&page) {
            None => None,
            Some(b) => match b.owner {
                None => Some((b.logical_id, false)),
                Some(o) => Some(
                    (
                        b.logical_id,
                        o.slot == owner.slot && o.slot_epoch == owner.slot_epoch && o.page_idx
                            == owner.page_idx,
                    ),
                ),
            },
        };
        let keep: Option<u64> = match held {
            Some((id, true)) => Some(id),
            _ => None,
        };
        let id: u64 = match keep {
            Some(id) => id,
            None => {
                let id: u64 = if self.next_logical_id == 0 {
                    1
                } else {
                    self.next_logical_id
                };
                self.next_logical_id = if id == u64::MAX {
                    u64::MAX
                } else {
                    id + 1
                };
                id
            },
        };
        self.pages.insert(page, MetalPageBlock { logical_id: id, owner: Some(owner), kv_flat });
        assert(self@ =~= v.publish_page(page, owner, kv_flat));
        match held {
            Some((old_id, _)) => if old_id != id {
                (id, Some(old_id))
            } else {
                (id, None)
            },
            None => (id, None),
        }
    }

    /// Publishes the full pages of a slot and, at a page boundary, its restore
    /// image. `slices` holds what each page's arrays are cut to, `None` where
    /// the cut failed: the pages before it stay published and its place is
    /// the error.
    pub fn publish_slot(
        &mut self,
        slot: usize,
        slot_epoch: u64,
        cache_len: usize,
        page_size: usize,
        page_ids: &[u32],
        slices: Vec<Option<Vec<A>>>,
        gdr_flat: Vec<A>,
    ) -> (r: Result<PublishOutcome, usize>)
        requires
            old(self).wf(),
            slices@.len() == publish_count(
                cache_len as nat,
                page_size as nat,
                page_ids@.len(),
            ),
        ensures
            final(self).wf(),
            r is Ok <==> forall|i: int| 0 <= i < slices@.len() ==> #[trigger] slices@[i] is Some,
            match r {
                Err(f) => {
                    &&& f < slices@.len()
                    &&& slices@[f as int] is None
                    &&& forall|i: int| 0 <= i < f ==> #[trigger] slices@[i] is Some
                    &&& final(self)@ == old(self)@.publish_pages(
                        slot,
                        slot_epoch,
                        page_ids@,
                        slices@,
                        f as nat,
                    )
                },
                Ok(o) => {
                    let n = slices@.len();
                    let v = old(self)@;
                    let ids = v.overwritten(slot, slot_epoch, page_ids@, slices@, n);
                    let settled = v.settle(slot, slot_epoch, page_ids@, slices@, n);
                    let rest = settled.reclaim(ids);
                    let live = settled.key_of_pages(page_ids@.take(n as int))->0;
                    let boundary = at_boundary(
                        cache_len as nat,
                        page_size as nat,
                        page_ids@.len(),
                    );
                    &&& o.writes@ == page_writes(v, slot, slot_epoch, page_ids@, slices@, n)
                    &&& forall|x: TierRemoval| #[trigger]
                        o.removals@.contains(x) <==> settled.removes(ids, x)
                    &&& o.prefix is Some <==> boundary && v.tier && !rest.disk.contains_key(live)
                    &&& o.prefix is Some ==> o.prefix->0@ == live
                    &&& final(self)@ == v.published(
                        slot,
                        slot_epoch,
                        cache_len,
                        page_size,
                        page_ids@,
                        slices@,
                        gdr_flat,
                    )
                },
            },
    {
        let ghost v = self@;
        let ghost all = slices@;
        let ps: usize = max_usize(page_size, 1);
        let full: usize = cache_len / ps;
        let count: usize = min_usize(full, page_ids.len());
        let mut rest: Vec<Option<Vec<A>>> = slices;
        let mut writes: Vec<(u32, u64)> = Vec::new();
        let mut overwritten: Vec<u64> = Vec::new();
        let mut i: usize = 0;
        assert(overwritten@.to_set() =~= Set::<u64>::empty());
        assert(all.skip(0) =~= all);
        while i < count
            invariant
                i <= count <= page_ids@.len(),
                count == all.len(),
                v == old(self)@,
                self.wf(),
                all == slices@,
                rest@ == all.skip(i as int),
                forall|j: int| 0 <= j < i ==> #[trigger] all[j] is Some,
                self@ == v.publish_pages(slot, slot_epoch, page_ids@, all, i as nat),
                overwritten@.to_set() == v.overwritten(
                    slot,
                    slot_epoch,
                    page_ids@,
                    all,
                    i as nat,
                ),
                writes@ == page_writes(v, slot, slot_epoch, page_ids@, all, i as nat),
            decreases count - i,
        {
            let kv_flat: Vec<A> = match rest.remove(0) {
                None => {
                    assert(all[i as int] is None);
                    return Err(i);
                },
                Some(k) => k,
            };
            assert(rest@ =~= all.skip(i + 1));
            proof {
                lemma_publish_frame(v, slot, slot_epoch, page_ids@, all, i as nat);
            }
            let page: u32 = page_ids[i];
            let owner = MetalPageOwner { slot, slot_epoch, page_idx: i };
            let tier: bool = self.tier;
            let (id, over) = self.publish_one(page, owner, kv_flat);
            match over {
                Some(old_id) => {
                    let ghost was = overwritten@;
                    overwritten.push(old_id);
                    proof {
                        assert(overwritten@.to_set() =~= was.to_set().insert(old_id)) by {
                            assert forall|x: u64| overwritten@.to_set().contains(x)
                                <==> was.to_set().insert(old_id).contains(x) by {
                                if overwritten@.contains(x) {
                                    let t = choose|t: int|
                                        0 <= t < overwritten@.len() && overwritten@[t] == x;
                                    if t < was.len() {
                                        assert(was[t] == x);
                                    }
                                }
                                if was.contains(x) {
                                    let t = choose|t: int| 0 <= t < was.len() && was[t] == x;
                                    assert(overwritten@[t] == x);
                                }
                                assert(overwritten@[was.len() as int] == old_id);
                            }
                        }
                    }
                },
                None => {},
            }
            if tier {
                writes.push((page, id));
            }
            i = i + 1;
        }
        proof {
            lemma_publish_frame(v, slot, slot_epoch, page_ids@, all, count as nat);
            lemma_live_key(v, slot, slot_epoch, page_ids@, all, count as nat);
        }
        let ghost ids = v.overwritten(slot, slot_epoch, page_ids@, all, count as nat);
        let ghost after = self@;
        let front: Vec<u32> = copy_pages(page_ids, count);
        assert(front@ =~= page_ids@.take(count as int));
        let live: Vec<u64> = match self.logical_key_for_pages(front.as_slice()) {
            Some(k) => k,
            None => Vec::new(),
        };
        let _ = self.prefixes.prune(overwritten.as_slice(), Some(live.as_slice()));
        let ghost settled = v.settle(slot, slot_epoch, page_ids@, all, count as nat);
        proof {
            assert forall|k: Seq<u64>| survives(k, overwritten@, Some(live@)) == (!names(k, ids)
                || is_front(k, live@)) by {
                lemma_touches(k, overwritten@);
            }
            assert(Set::new(|k: Seq<u64>| survives(k, overwritten@, Some(live@))) =~= Set::new(
                |k: Seq<u64>| !names(k, ids) || is_front(k, live@),
            ));
            assert(self@ =~= settled);
        }
        let removals: Vec<TierRemoval> = self.reclaim_unreferenced(overwritten.as_slice());
        assert(settled.pages == after.pages);
        assert(settled.key_of_pages(front@)->0 == live@);
        let mut prefix: Option<Vec<u64>> = None;
        if full > 0 && cache_len % ps == 0 && count == full {
            if self.tier && !self.disk_prefixes.contains_key(live.as_slice()) {
                prefix = Some(copy_ids(live.as_slice()));
            }
            self.prefixes.insert(live, MetalPrefixSnapshot { cache_len, gdr_flat });
        }
        Ok(PublishOutcome { writes, removals, prefix })
    }
}

fn copy_pages(pages: &[u32], n: usize) -> (out: Vec<u32>)
    requires
        n <= pages@.len(),
    ensures
        out@ == pages@.take(n as int),
{
    let mut out: Vec<u32> = Vec::new();
    let mut i: usize = 0;
    while i < n
        invariant
            i <= n <= pages@.len(),
            out@ == pages@.take(i as int),
        decreases n - i,
    {
        out.push(pages[i]);
        i = i + 1;
        assert(pages@.take(i as int) =~= pages@.take(i - 1).push(pages@[i - 1]));
    }
    out
}

/// Why a slot cannot start from a cached prefix.
#[derive(Debug, Clone, Copy, PartialEq, Eq, Structural)]
pub enum MaterializeError {
    Unaligned { prefix_tokens: usize, page_size: usize },
    TooFewPages { need: usize, have: usize },
    MissingPages,
    MissingSnapshot,
    LengthMismatch { requested: usize, snapshot: usize },
    EmptyKey,
    MissingArray { page: u32, index: usize },
}

/// How to build a slot from a prefix: the physical pages whose arrays are
/// joined, how many arrays there are, and the token capacity to pad to.
#[derive(Debug)]
pub struct MaterializePlan {
    pub pages: Vec<u32>,
    pub arrays: usize,
    pub capacity: usize,
}

impl<A> StoreView<A> {
    /// The logical key of the prefix that a slot's pages hold.
    pub open spec fn prefix_key(
        self,
        slot_pages: Seq<u32>,
        page_size: usize,
        prefix_tokens: usize,
    ) -> Result<Seq<u64>, MaterializeError> {
        let ps = max_nat(page_size as nat, 1);
        let n = prefix_tokens as nat / ps;
        if prefix_tokens as nat % ps != 0 {
            Err(MaterializeError::Unaligned { prefix_tokens, page_size: ps as usize })
        } else if slot_pages.len() < n {
            Err(
                MaterializeError::TooFewPages {
                    need: n as usize,
                    have: slot_pages.len() as usize,
                },
            )
        } else {
            match self.key_of_pages(slot_pages.take(n as int)) {
                None => Err(MaterializeError::MissingPages),
                Some(key) => Ok(key),
            }
        }
    }

    /// Why a slot cannot start from the prefix that its pages hold.
    pub open spec fn materialize_fault(
        self,
        slot_pages: Seq<u32>,
        page_size: usize,
        prefix_tokens: usize,
    ) -> Option<MaterializeError> {
        match self.prefix_key(slot_pages, page_size, prefix_tokens) {
            Err(e) => Some(e),
            Ok(key) => if !self.prefixes.contains_key(key) {
                Some(MaterializeError::MissingSnapshot)
            } else if self.prefixes[key].cache_len != prefix_tokens {
                Some(
                    MaterializeError::LengthMismatch {
                        requested: prefix_tokens,
                        snapshot: self.prefixes[key].cache_len,
                    },
                )
            } else if key.len() == 0 {
                Some(MaterializeError::EmptyKey)
            } else {
                None
            },
        }
    }

    /// Pages that lack the array, up to the first one.
    pub open spec fn array_gap(self, pages: Seq<u32>, index: usize, n: nat) -> Option<u32>
        decreases n,
    {
        if n == 0 {
            None
        } else {
            match self.array_gap(pages, index, (n - 1) as nat) {
                Some(p) => Some(p),
                None => if index >= self.pages[pages[n - 1]].kv_flat@.len() {
                    Some(pages[n - 1])
                } else {
                    None
                },
            }
        }
    }
}

proof fn lemma_gap_stop<A>(v: StoreView<A>, pages: Seq<u32>, index: usize, k: nat, n: nat)
    requires
        k <= n,
        v.array_gap(pages, index, k) is Some,
    ensures
        v.array_gap(pages, index, n) == v.array_gap(pages, index, k),
    decreases n,
{
    if k < n {
        lemma_gap_stop(v, pages, index, k, (n - 1) as nat);
    }
}

impl<A> MetalPageStore<A> {
    /// The logical key of the prefix that a slot starts from.
    pub fn slot_prefix_key(&self, slot_pages: &[u32], page_size: usize, prefix_tokens: usize) -> (r:
        Result<Vec<u64>, MaterializeError>)
        requires
            self.wf(),
        ensures
            match (r, self@.prefix_key(slot_pages@, page_size, prefix_tokens)) {
                (Ok(k), Ok(s)) => k@ == s,
                (Err(e), Err(f)) => e == f,
                _ => false,
            },
    {
        let ps: usize = max_usize(page_size, 1);
        if prefix_tokens % ps != 0 {
            return Err(MaterializeError::Unaligned { prefix_tokens, page_size: ps });
        }
        let n: usize = prefix_tokens / ps;
        if slot_pages.len() < n {
            return Err(MaterializeError::TooFewPages { need: n, have: slot_pages.len() });
        }
        let front: Vec<u32> = copy_pages(slot_pages, n);
        match self.logical_key_for_pages(front.as_slice()) {
            None => Err(MaterializeError::MissingPages),
            Some(k) => Ok(k),
        }
    }

    /// The plan for a slot that starts from a cached prefix whose restore
    /// image is resident.
    pub fn materialize_slot_from_prefix(
        &self,
        slot_pages: &[u32],
        page_size: usize,
        prefix_tokens: usize,
        capacity_tokens: usize,
    ) -> (r: Result<MaterializePlan, MaterializeError>)
        requires
            self.wf(),
            self@.materialize_fault(slot_pages@, page_size, prefix_tokens) is None
                ==> prefix_tokens <= MAX_ROUNDED_TOKENS && capacity_tokens <= MAX_ROUNDED_TOKENS,
        ensures
            match self@.materialize_fault(slot_pages@, page_size, prefix_tokens) {
                Some(e) => r == Err::<MaterializePlan, MaterializeError>(e),
                None => {
                    let key = self@.prefix_key(slot_pages@, page_size, prefix_tokens)->Ok_0;
                    r is Ok && r->Ok_0.pages@ == slot_pages@.take(key.len() as int)
                        && r->Ok_0.arrays == self@.pages[slot_pages@[0]].kv_flat@.len()
                        && r->Ok_0.capacity == rounded(
                        max_nat(capacity_tokens as nat, prefix_tokens as nat),
                    ) && r->Ok_0.capacity >= prefix_tokens
                },
            },
    {
        let key: Vec<u64> = match self.slot_prefix_key(slot_pages, page_size, prefix_tokens) {
            Err(e) => {
                return Err(e);
            },
            Ok(k) => k,
        };
        let snapshot_len: usize = match self.prefixes.get(key.as_slice()) {
            None => {
                return Err(MaterializeError::MissingSnapshot);
            },
            Some(s) => s.cache_len,
        };
        if snapshot_len != prefix_tokens {
            return Err(
                MaterializeError::LengthMismatch {
                    requested: prefix_tokens,
                    snapshot: snapshot_len,
                },
            );
        }
        if key.len() == 0 {
            return Err(MaterializeError::EmptyKey);
        }
        let pages: Vec<u32> = copy_pages(slot_pages, key.len());
        assert(self@.pages.contains_key(pages@[0]));
        let arrays: usize = match self.pages.get(&slot_pages[0]) {
            None => 0,
            Some(b) => b.kv_flat.len(),
        };
        let capacity: usize = round_up_capacity(max_usize(capacity_tokens, prefix_tokens)) as usize;
        Ok(MaterializePlan { pages, arrays, capacity })
    }

    /// The arrays at one index of every page, in order, to be joined along
    /// the token axis.
    pub fn page_arrays(&self, pages: &[u32], index: usize) -> (r: Result<
        Vec<&A>,
        MaterializeError,
    >)
        requires
            self.wf(),
            forall|i: int| 0 <= i < pages@.len() ==> self@.pages.contains_key(#[trigger] pages@[i]),
        ensures
            match self@.array_gap(pages@, index, pages@.len()) {
                Some(page) => r == Err::<Vec<&A>, MaterializeError>(
                    MaterializeError::MissingArray { page, index },
                ),
                None => r is Ok && r->Ok_0@.len() == pages@.len() && forall|i: int|
                    0 <= i < pages@.len() ==> #[trigger] r->Ok_0@[i]
                        == self@.pages[pages@[i]].kv_flat@[index as int],
            },
    {
        let mut out: Vec<&A> = Vec::new();
        let mut i: usize = 0;
        while i < pages.len()
            invariant
                i <= pages@.len(),
                self.wf(),
                forall|j: int|
                    0 <= j < pages@.len() ==> self@.pages.contains_key(#[trigger] pages@[j]),
                self@.array_gap(pages@, index, i as nat) is None,
                out@.len() == i,
                forall|j: int|
                    0 <= j < i ==> #[trigger] out@[j]
                        == self@.pages[pages@[j]].kv_flat@[index as int],
            decreases pages@.len() - i,
        {
            let page: u32 = pages[i];
            assert(self@.pages.contains_key(pages@[i as int]));
            match self.pages.get(&page) {
                None => {
                    assert(false);
                    return Err(MaterializeError::MissingPages);
                },
                Some(b) => {
                    if index >= b.kv_flat.len() {
                        proof {
                            lemma_gap_stop(self@, pages@, index, (i + 1) as nat, pages@.len());
                        }
                        return Err(MaterializeError::MissingArray { page, index });
                    }
                    out.push(&b.kv_flat[index]);
                },
            }
            i = i + 1;
        }
        Ok(out)
    }
}

/// Record size of a page in the tier: its bytes, at least one, and room for
/// headers; at most `usize::MAX`.
pub open spec fn record_bytes(bytes_per_page: nat) -> nat {
    min_nat(max_nat(bytes_per_page, 1) + PAGE_CODEC_HEADROOM as nat, usize::MAX as nat)
}

pub fn tier_slot_bytes(bytes_per_page: usize) -> (n: usize)
    ensures
        n == record_bytes(bytes_per_page as nat),
{
    match max_usize(bytes_per_page, 1).checked_add(PAGE_CODEC_HEADROOM) {
        Some(n) => n,
        None => usize::MAX,
    }
}

// ---- what the store promises ----

/// Page reuse drops stale prefixes: after a publish, a resident prefix that
/// names an id whose page was taken over is a front part of the live key.
pub proof fn stale_prefixes_are_dropped<A>(
    v: StoreView<A>,
    slot: usize,
    slot_epoch: u64,
    pages: Seq<u32>,
    slices: Seq<Option<Vec<A>>>,
    n: nat,
    key: Seq<u64>,
)
    requires
        n <= pages.len(),
        v.settle(slot, slot_epoch, pages, slices, n).prefixes.contains_key(key),
        names(key, v.overwritten(slot, slot_epoch, pages, slices, n)),
    ensures
        is_front(
            key,
            v.settle(slot, slot_epoch, pages, slices, n).key_of_pages(pages.take(n as int))->0,
        ),
{
    let after = v.publish_pages(slot, slot_epoch, pages, slices, n);
    let settled = v.settle(slot, slot_epoch, pages, slices, n);
    assert(settled.pages == after.pages);
    let front = pages.take(n as int);
    lemma_live_key(v, slot, slot_epoch, pages, slices, n);
    assert(settled.key_of_pages(front)->0 =~= after.key_of_pages(front)->0);
}

/// The page at place `k` is resident for another owner, and no page that the
/// slot already owns shares its id.
pub open spec fn changes_hands<A>(
    v: StoreView<A>,
    slot: usize,
    slot_epoch: u64,
    pages: Seq<u32>,
    n: nat,
    k: int,
) -> bool {
    &&& 0 <= k < n <= pages.len()
    &&& v.pages.contains_key(pages[k])
    &&& !v.owns(pages[k], MetalPageOwner { slot, slot_epoch, page_idx: k as usize })
    &&& forall|i: int|
        0 <= i < n && v.owns(
            #[trigger] pages[i],
            MetalPageOwner { slot, slot_epoch, page_idx: i as usize },
        ) ==> v.pages[pages[i]].logical_id != v.pages[pages[k]].logical_id
}

/// A page that changes hands takes the old occupant's restore images with it:
/// none that names the page's old id is left, and at a page boundary the new
/// occupant's own is there.
pub proof fn reused_pages_leave_no_prefix<A>(
    v: StoreView<A>,
    slot: usize,
    slot_epoch: u64,
    cache_len: usize,
    page_size: usize,
    pages: Seq<u32>,
    slices: Seq<Option<Vec<A>>>,
    gdr_flat: Vec<A>,
    k: int,
    key: Seq<u64>,
)
    requires
        ids_in_use_below(v),
        pages.no_duplicates(),
        slices.len() == publish_count(cache_len as nat, page_size as nat, pages.len()),
        slices.len() <= usize::MAX,
        changes_hands(v, slot, slot_epoch, pages, slices.len(), k),
        key.contains(v.pages[pages[k]].logical_id),
    ensures
        ({
            let w = v.published(
                slot,
                slot_epoch,
                cache_len,
                page_size,
                pages,
                slices,
                gdr_flat,
            );
            let live = w.key_of_pages(pages.take(slices.len() as int))->0;
            &&& !w.prefixes.contains_key(key)
            &&& at_boundary(cache_len as nat, page_size as nat, pages.len())
                ==> w.prefixes.contains_key(live) && w.prefixes[live] == MetalPrefixSnapshot {
                cache_len,
                gdr_flat,
            }
        }),
{
    let n = slices.len();
    let id = v.pages[pages[k]].logical_id;
    lemma_reuse(v, slot, slot_epoch, pages, slices, n, n, k);
    lemma_live_key(v, slot, slot_epoch, pages, slices, n);
    let after = v.publish_pages(slot, slot_epoch, pages, slices, n);
    let front = pages.take(n as int);
    let live = after.key_of_pages(front)->0;
    let w = v.published(slot, slot_epoch, cache_len, page_size, pages, slices, gdr_flat);
    assert(w.pages == after.pages);
    assert(w.key_of_pages(front)->0 =~= live);
    assert(names(key, v.overwritten(slot, slot_epoch, pages, slices, n)));
    assert(!live.contains(id)) by {
        assert forall|i: int| 0 <= i < live.len() implies live[i] != id by {
            assert(front[i] == pages[i]);
        }
    }
    let j = choose|j: int| 0 <= j < key.len() && key[j] == id;
    if is_front(key, live) {
        assert(live[j] == id);
    }
    assert(key != live);
}

proof fn lemma_reuse<A>(
    v: StoreView<A>,
    slot: usize,
    slot_epoch: u64,
    pages: Seq<u32>,
    slices: Seq<Option<Vec<A>>>,
    n: nat,
    total: nat,
    k: int,
)
    requires
        ids_in_use_below(v),
        pages.no_duplicates(),
        n <= total <= usize::MAX,
        changes_hands(v, slot, slot_epoch, pages, total, k),
    ensures
        ({
            let w = v.publish_pages(slot, slot_epoch, pages, slices, n);
            let id = v.pages[pages[k]].logical_id;
            &&& w.next_id >= v.next_id
            &&& forall|i: int|
                n <= i < pages.len() ==> w.pages.contains_key(#[trigger] pages[i])
                    == v.pages.contains_key(pages[i]) && w.pages[pages[i]] == v.pages[pages[i]]
            &&& forall|i: int|
                0 <= i < n ==> w.pages.contains_key(#[trigger] pages[i])
                    && w.pages[pages[i]].logical_id != id
            &&& k < n ==> v.overwritten(slot, slot_epoch, pages, slices, n).contains(id)
        }),
    decreases n,
{
    if n > 0 {
        let m = (n - 1) as nat;
        lemma_reuse(v, slot, slot_epoch, pages, slices, m, total, k);
        let before = v.publish_pages(slot, slot_epoch, pages, slices, m);
        let owner = MetalPageOwner { slot, slot_epoch, page_idx: m as usize };
        let page = pages[m as int];
        assert(before.owns(page, owner) == v.owns(page, owner));
        assert(before.fresh_id() > v.pages[pages[k]].logical_id);
        assert forall|i: int| 0 <= i < pages.len() && i != m implies #[trigger] pages[i] != page by {}
    }
}

/// A slot that publishes again keeps its ids: where the first `m` pages are
/// already its own, publishing more of them gives these the same logical key
/// and takes none of their ids over.
pub proof fn republish_keeps_ids<A>(
    v: StoreView<A>,
    slot: usize,
    slot_epoch: u64,
    pages: Seq<u32>,
    slices: Seq<Option<Vec<A>>>,
    m: nat,
    n: nat,
)
    requires
        m <= n <= pages.len(),
        n <= usize::MAX,
        pages.no_duplicates(),
        forall|i: int|
            0 <= i < m ==> v.owns(
                #[trigger] pages[i],
                MetalPageOwner { slot, slot_epoch, page_idx: i as usize },
            ),
    ensures
        v.publish_pages(slot, slot_epoch, pages, slices, n).key_of_pages(pages.take(m as int))
            == v.key_of_pages(pages.take(m as int)),
        v.key_of_pages(pages.take(m as int)) is Some,
{
    lemma_republish(v, slot, slot_epoch, pages, slices, m, n);
    let after = v.publish_pages(slot, slot_epoch, pages, slices, n);
    let front = pages.take(m as int);
    assert forall|i: int| 0 <= i < front.len() implies after.pages.contains_key(
        #[trigger] front[i],
    ) && v.pages.contains_key(front[i]) && after.pages[front[i]].logical_id
        == v.pages[front[i]].logical_id by {
        assert(front[i] == pages[i]);
        assert(v.owns(pages[i], MetalPageOwner { slot, slot_epoch, page_idx: i as usize }));
    }
    assert(after.key_of_pages(front)->0 =~= v.key_of_pages(front)->0);
}

proof fn lemma_republish<A>(
    v: StoreView<A>,
    slot: usize,
    slot_epoch: u64,
    pages: Seq<u32>,
    slices: Seq<Option<Vec<A>>>,
    m: nat,
    n: nat,
)
    requires
        m <= pages.len(),
        n <= pages.len(),
        n <= usize::MAX,
        m <= usize::MAX,
        pages.no_duplicates(),
        forall|i: int|
            0 <= i < m ==> v.owns(
                #[trigger] pages[i],
                MetalPageOwner { slot, slot_epoch, page_idx: i as usize },
            ),
    ensures
        forall|i: int|
            0 <= i < m ==> v.publish_pages(slot, slot_epoch, pages, slices, n).owns(
                #[trigger] pages[i],
                MetalPageOwner { slot, slot_epoch, page_idx: i as usize },
            ),
        forall|i: int|
            0 <= i < m ==> v.publish_pages(slot, slot_epoch, pages, slices, n).pages[
                #[trigger] pages[i]
            ].logical_id == v.pages[pages[i]].logical_id,
    decreases n,
{
    if n > 0 {
        lemma_republish(v, slot, slot_epoch, pages, slices, m, (n - 1) as nat);
        let before = v.publish_pages(slot, slot_epoch, pages, slices, (n - 1) as nat);
        let after = v.publish_pages(slot, slot_epoch, pages, slices, n);
        assert forall|i: int| 0 <= i < m implies after.owns(
            #[trigger] pages[i],
            MetalPageOwner { slot, slot_epoch, page_idx: i as usize },
        ) && after.pages[pages[i]].logical_id == v.pages[pages[i]].logical_id by {
            assert(before.owns(
                pages[i],
                MetalPageOwner { slot, slot_epoch, page_idx: i as usize },
            ));
            if i != n - 1 {
                assert(pages[i] != pages[n - 1]);
            }
        }
    }
}

/// A slot's earlier restore images outlive its next publish: the image of its
/// first `m` pages stays where those pages were its own already.
pub proof fn republish_keeps_own_prefixes<A>(
    v: StoreView<A>,
    slot: usize,
    slot_epoch: u64,
    pages: Seq<u32>,
    slices: Seq<Option<Vec<A>>>,
    m: nat,
    n: nat,
)
    requires
        m <= n <= pages.len(),
        n <= usize::MAX,
        pages.no_duplicates(),
        forall|i: int|
            0 <= i < m ==> v.owns(
                #[trigger] pages[i],
                MetalPageOwner { slot, slot_epoch, page_idx: i as usize },
            ),
        v.prefixes.contains_key(v.key_of_pages(pages.take(m as int))->0),
    ensures
        v.settle(slot, slot_epoch, pages, slices, n).prefixes.contains_key(
            v.key_of_pages(pages.take(m as int))->0,
        ),
        v.settle(slot, slot_epoch, pages, slices, n).prefixes[v.key_of_pages(
            pages.take(m as int),
        )->0] == v.prefixes[v.key_of_pages(pages.take(m as int))->0],
{
    republish_keeps_ids(v, slot, slot_epoch, pages, slices, m, n);
    lemma_publish_frame(v, slot, slot_epoch, pages, slices, n);
    lemma_live_key(v, slot, slot_epoch, pages, slices, n);
    let after = v.publish_pages(slot, slot_epoch, pages, slices, n);
    let key = v.key_of_pages(pages.take(m as int))->0;
    let live = after.key_of_pages(pages.take(n as int))->0;
    assert(live.take(key.len() as int) =~= key) by {
        assert forall|i: int| 0 <= i < m implies live[i] == key[i] by {
            assert(pages.take(n as int)[i] == pages.take(m as int)[i]);
            assert(after.key_of_pages(pages.take(m as int))->0[i] == key[i]);
        }
    }
    assert(is_front(key, live));
}

/// Releasing a page drops it and every resident prefix that names it.
pub proof fn released_pages_leave_no_prefix<A>(v: StoreView<A>, pages: Seq<u32>, i: int)
    requires
        0 <= i < pages.len(),
        v.pages.contains_key(pages[i]),
    ensures
        !v.without_pages(pages).reclaim(v.ids_of(pages)).pages.contains_key(pages[i]),
        forall|k: Seq<u64>|
            k.contains(v.pages[pages[i]].logical_id) ==> !(#[trigger] v.without_pages(
                pages,
            ).reclaim(v.ids_of(pages)).prefixes.contains_key(k)),
{
    let id = v.pages[pages[i]].logical_id;
    let ids = v.ids_of(pages);
    assert(pages.to_set().contains(pages[i]));
    assert(v.page_id(pages[i]) == Some(id));
    assert(ids.contains(id));
    assert forall|k: Seq<u64>| k.contains(id) implies !(#[trigger] v.without_pages(pages).reclaim(
        ids,
    ).prefixes.contains_key(k)) by {
        assert(names(k, ids));
    }
}

/// A demoted prefix outlives its pages: where every id of a prefix on disk is
/// bound to a demoted key, releasing pages keeps the prefix on disk.
pub proof fn demoted_prefix_outlives_pages<A>(v: StoreView<A>, pages: Seq<u32>, key: Seq<u64>)
    requires
        v.disk.contains_key(key),
        forall|i: int|
            0 <= i < key.len() ==> exists|k: u64| #[trigger]
                v.bound.contains_key(k) && v.bound[k] == #[trigger] key[i],
    ensures
        v.without_pages(pages).reclaim(v.ids_of(pages)).disk.contains_key(key),
        v.without_pages(pages).reclaim(v.ids_of(pages)).bound == v.bound,
{
    let w = v.without_pages(pages);
    let ids = v.ids_of(pages);
    if names(key, w.dead(ids)) {
        let id = choose|id: u64| #[trigger] w.dead(ids).contains(id) && key.contains(id);
        let i = choose|i: int| 0 <= i < key.len() && key[i] == id;
        let k = choose|k: u64| #[trigger] v.bound.contains_key(k) && v.bound[k] == key[i];
        assert(w.bound.contains_key(k) && w.bound[k] == id);
        assert(w.referenced(id));
    }
}

/// Every id in use lies below the next one to be given out.
pub open spec fn ids_in_use_below<A>(v: StoreView<A>) -> bool {
    &&& v.next_id >= 1
    &&& forall|p: u32| #[trigger] v.pages.contains_key(p) ==> v.pages[p].logical_id < v.next_id
    &&& forall|k: u64| #[trigger] v.bound.contains_key(k) ==> v.bound[k] < v.next_id
    &&& forall|k: Seq<u64>, i: int|
        v.available(k) && 0 <= i < k.len() ==> #[trigger] k[i] < v.next_id
}

/// An id is given out once: a fresh id is used by no page, demoted key or
/// prefix, and publishing keeps it so, as long as ids are left.
pub proof fn fresh_ids_are_unused<A>(
    v: StoreView<A>,
    page: u32,
    owner: MetalPageOwner,
    kv_flat: Vec<A>,
)
    requires
        ids_in_use_below(v),
        v.next_id < u64::MAX,
    ensures
        !v.owns(page, owner) ==> !v.referenced(v.publish_id(page, owner)) && forall|k: Seq<u64>|
            #[trigger] v.available(k) ==> !k.contains(v.publish_id(page, owner)),
        ids_in_use_below(v.publish_page(page, owner, kv_flat)),
{
    let after = v.publish_page(page, owner, kv_flat);
    assert forall|k: Seq<u64>, i: int|
        after.available(k) && 0 <= i < k.len() implies #[trigger] k[i] < after.next_id by {
        assert(v.available(k));
    }
    if !v.owns(page, owner) {
        let id = v.publish_id(page, owner);
        assert forall|k: Seq<u64>| #[trigger] v.available(k) implies !k.contains(id) by {
            if k.contains(id) {
                let i = choose|i: int| 0 <= i < k.len() && k[i] == id;
                assert(k[i] < v.next_id);
            }
        }
    }
}

/// Without a tier nothing is on disk and no key is bound.
pub proof fn disk_needs_a_tier<A>(s: MetalPageStore<A>)
    requires
        s.wf(),
    ensures
        !s@.tier ==> s@.disk == Map::<Seq<u64>, u64>::empty() && s@.bound == Map::<
            u64,
            u64,
        >::empty(),
{
}

/// A prefix that counts as reusable can be restored: its pages give its key,
/// and its restore image is resident or can be read from the tier.
pub proof fn reusable_prefix_can_be_restored<A>(
    s: MetalPageStore<A>,
    pages: Seq<u32>,
    page_size: usize,
    k: nat,
)
    requires
        s.wf(),
        page_size > 0,
        k <= pages.len(),
        k * page_size <= usize::MAX,
        s@.reuses(resident_blocks(pages), k as int),
    ensures
        s@.prefix_key(pages, page_size, (k * page_size) as usize) is Ok,
        s@.snapshot_source(s@.prefix_key(pages, page_size, (k * page_size) as usize)->Ok_0) is Ok,
{
    let v = s@;
    let blocks = resident_blocks(pages).take(k as int);
    let front = pages.take(k as int);
    vstd::arithmetic::div_mod::lemma_div_multiples_vanish(k as int, page_size as int);
    vstd::arithmetic::div_mod::lemma_mod_multiples_basic(k as int, page_size as int);
    assert(k * page_size == page_size * k) by (nonlinear_arith);
    assert forall|i: int| 0 <= i < front.len() implies v.pages.contains_key(
        #[trigger] front[i],
    ) by {
        assert(v.block_id(blocks[i]) is Some);
    }
    assert(v.key_of_pages(front)->0 =~= v.key_of_blocks(blocks)->0) by {
        assert forall|i: int| 0 <= i < front.len() implies v.pages[front[i]].logical_id
            == v.block_id(blocks[i])->0 by {
            assert(v.pages.contains_key(front[i]));
        }
    }
}

/// Blocks that all lie on physical pages.
pub open spec fn resident_blocks(pages: Seq<u32>) -> Seq<PrefixBlock> {
    pages.map_values(|p: u32| PrefixBlock::ResidentPage(p))
}

proof fn lemma_published_pages<A>(
    v: StoreView<A>,
    slot: usize,
    slot_epoch: u64,
    pages: Seq<u32>,
    slices: Seq<Option<Vec<A>>>,
    n: nat,
)
    requires
        n <= pages.len(),
        pages.no_duplicates(),
    ensures
        forall|i: int|
            0 <= i < n ==> {
                let after = v.publish_pages(slot, slot_epoch, pages, slices, n);
                &&& after.pages.contains_key(#[trigger] pages[i])
                &&& after.pages[pages[i]].kv_flat == slices[i]->0
            },
    decreases n,
{
    if n > 0 {
        lemma_published_pages(v, slot, slot_epoch, pages, slices, (n - 1) as nat);
        let before = v.publish_pages(slot, slot_epoch, pages, slices, (n - 1) as nat);
        let after = v.publish_pages(slot, slot_epoch, pages, slices, n);
        assert forall|i: int| 0 <= i < n implies after.pages.contains_key(#[trigger] pages[i])
            && after.pages[pages[i]].kv_flat == slices[i]->0 by {
            if i < n - 1 {
                assert(before.pages.contains_key(pages[i]));
                assert(pages[i] != pages[n - 1]);
            }
        }
    }
}

/// What a slot publishes at a page boundary is there to be reused: its pages
/// hold the arrays that were cut for them, they count as reusable, and the
/// restore image that belongs to them is the one that was published.
pub proof fn published_prefix_is_reusable<A>(
    v: StoreView<A>,
    slot: usize,
    slot_epoch: u64,
    cache_len: usize,
    page_size: usize,
    pages: Seq<u32>,
    slices: Seq<Option<Vec<A>>>,
    gdr_flat: Vec<A>,
)
    requires
        slices.len() == publish_count(cache_len as nat, page_size as nat, pages.len()),
        at_boundary(cache_len as nat, page_size as nat, pages.len()),
        pages.no_duplicates(),
    ensures
        ({
            let w = v.published(slot, slot_epoch, cache_len, page_size, pages, slices, gdr_flat);
            let n = slices.len() as int;
            let key = w.prefix_key(pages, page_size, cache_len);
            &&& forall|i: int|
                0 <= i < n ==> w.pages.contains_key(#[trigger] pages[i]) && w.pages[pages[i]].kv_flat
                    == slices[i]->0
            &&& w.reuses(resident_blocks(pages), n)
            &&& key is Ok
            &&& key->Ok_0.len() == n
            &&& w.prefixes.contains_key(key->Ok_0)
            &&& w.prefixes[key->Ok_0] == (MetalPrefixSnapshot { cache_len, gdr_flat })
        }),
{
    let n = slices.len();
    let after = v.publish_pages(slot, slot_epoch, pages, slices, n);
    let settled = v.settle(slot, slot_epoch, pages, slices, n);
    let w = v.published(slot, slot_epoch, cache_len, page_size, pages, slices, gdr_flat);
    lemma_published_pages(v, slot, slot_epoch, pages, slices, n);
    let front = pages.take(n as int);
    assert(settled.pages == after.pages && w.pages == after.pages);
    assert forall|i: int| 0 <= i < front.len() implies w.pages.contains_key(#[trigger] front[i]) by {
        assert(front[i] == pages[i]);
    }
    let live = settled.key_of_pages(front)->0;
    assert(w.key_of_pages(front)->0 =~= live);
    let blocks = resident_blocks(pages).take(n as int);
    assert forall|i: int| 0 <= i < blocks.len() implies w.block_id(#[trigger] blocks[i]) == Some(
        live[i],
    ) by {
        assert(front[i] == pages[i]);
    }
    assert(w.key_of_blocks(blocks)->0 =~= live);
}

impl<A> StoreView<A> {
    /// The store after the first `n` demoted keys were read back, each onto
    /// its page.
    pub open spec fn promoted_all(
        self,
        entries: Seq<(u64, u32)>,
        arrays: Seq<Vec<A>>,
        n: nat,
    ) -> StoreView<A>
        decreases n,
    {
        if n == 0 {
            self
        } else {
            let before = self.promoted_all(entries, arrays, (n - 1) as nat);
            before.promoted(before.bound[entries[n - 1].0], entries[n - 1].1, arrays[n - 1])
        }
    }
}

proof fn lemma_promoted_all<A>(
    v: StoreView<A>,
    entries: Seq<(u64, u32)>,
    arrays: Seq<Vec<A>>,
    n: nat,
)
    requires
        n <= entries.len(),
        forall|i: int, j: int|
            0 <= i < j < entries.len() ==> #[trigger] entries[i].1 != #[trigger] entries[j].1,
    ensures
        v.promoted_all(entries, arrays, n).bound == v.bound,
        v.promoted_all(entries, arrays, n).disk == v.disk,
        v.promoted_all(entries, arrays, n).tier == v.tier,
        forall|i: int|
            0 <= i < n ==> {
                let w = v.promoted_all(entries, arrays, n);
                &&& w.pages.contains_key(#[trigger] entries[i].1)
                &&& w.pages[entries[i].1].logical_id == v.bound[entries[i].0]
                &&& w.pages[entries[i].1].kv_flat == arrays[i]
            },
    decreases n,
{
    if n > 0 {
        lemma_promoted_all(v, entries, arrays, (n - 1) as nat);
        let before = v.promoted_all(entries, arrays, (n - 1) as nat);
        let w = v.promoted_all(entries, arrays, n);
        assert forall|i: int| 0 <= i < n implies w.pages.contains_key(#[trigger] entries[i].1)
            && w.pages[entries[i].1].logical_id == v.bound[entries[i].0]
            && w.pages[entries[i].1].kv_flat == arrays[i] by {
            if i < n - 1 {
                assert(before.pages.contains_key(entries[i].1));
                assert(entries[i].1 != entries[n - 1].1);
            }
        }
    }
}

/// A demoted prefix comes back: once the keys that are bound to its ids are
/// read back onto distinct pages, these pages have its key and count as
/// reusable, whatever was on them before.
pub proof fn promoted_prefix_is_reusable<A>(
    v: StoreView<A>,
    key: Seq<u64>,
    entries: Seq<(u64, u32)>,
    arrays: Seq<Vec<A>>,
)
    requires
        v.disk.contains_key(key),
        entries.len() == key.len(),
        forall|i: int|
            0 <= i < key.len() ==> v.bound.contains_key(#[trigger] entries[i].0)
                && v.bound[entries[i].0] == key[i],
        forall|i: int, j: int|
            0 <= i < j < entries.len() ==> #[trigger] entries[i].1 != #[trigger] entries[j].1,
    ensures
        ({
            let w = v.promoted_all(entries, arrays, entries.len());
            let pages = Seq::new(entries.len(), |i: int| entries[i].1);
            &&& w.key_of_pages(pages) == Some(key)
            &&& w.reuses(resident_blocks(pages), key.len() as int)
            &&& forall|i: int|
                0 <= i < pages.len() ==> w.pages[#[trigger] pages[i]].kv_flat == arrays[i]
        }),
{
    let n = entries.len();
    let w = v.promoted_all(entries, arrays, n);
    let pages = Seq::new(n, |i: int| entries[i].1);
    lemma_promoted_all(v, entries, arrays, n);
    assert forall|i: int| 0 <= i < pages.len() implies w.pages.contains_key(#[trigger] pages[i])
        && w.pages[pages[i]].logical_id == key[i] && w.pages[pages[i]].kv_flat == arrays[i] by {
        assert(w.pages.contains_key(entries[i].1));
        assert(v.bound.contains_key(entries[i].0));
    }
    assert(w.key_of_pages(pages)->0 =~= key);
    let blocks = resident_blocks(pages).take(key.len() as int);
    assert forall|i: int| 0 <= i < blocks.len() implies w.block_id(#[trigger] blocks[i]) == Some(
        key[i],
    ) by {
        assert(w.pages.contains_key(pages[i]));
    }
    assert(w.key_of_blocks(blocks)->0 =~= key);
}

/// The bytes of arrays, headers left out.
pub open spec fn raw_bytes(s: Seq<ArrayView>) -> nat
    decreases s.len(),
{
    if s.len() == 0 {
        0
    } else {
        raw_bytes(s.drop_last()) + s.last().bytes.len()
    }
}

proof fn lemma_dims_len(shape: Seq<i32>)
    ensures
        dims_bytes(shape).len() == 8 * shape.len(),
    decreases shape.len(),
{
    if shape.len() > 0 {
        lemma_dims_len(shape.drop_last());
        lemma_le_len(to_word(shape.last() as int), 8);
    }
}

proof fn lemma_arrays_len(s: Seq<ArrayView>, codes: DtypeCodes)
    requires
        forall|i: int| 0 <= i < s.len() ==> (#[trigger] s[i]).shape.len() <= 4,
    ensures
        array_seq_bytes(s, codes).len() <= raw_bytes(s) + 56 * s.len(),
    decreases s.len(),
{
    if s.len() > 0 {
        let front = s.drop_last();
        assert forall|i: int| 0 <= i < front.len() implies (#[trigger] front[i]).shape.len() <= 4 by {
            assert(front[i] == s[i]);
        }
        lemma_arrays_len(front, codes);
        let a = s[s.len() - 1];
        lemma_dims_len(a.shape);
        lemma_le_len(to_word(codes.code(a.dtype) as int), 8);
        lemma_le_len(a.shape.len(), 8);
        lemma_le_len(a.bytes.len(), 8);
    }
}

/// A page fits its record: up to a thousand arrays of rank at most 4 whose
/// bytes are those of a page are written into no more than a record holds.
pub proof fn page_fits_its_record(s: Seq<ArrayView>, codes: DtypeCodes, bytes_per_page: nat)
    requires
        s.len() <= 1000,
        forall|i: int| 0 <= i < s.len() ==> (#[trigger] s[i]).shape.len() <= 4,
        raw_bytes(s) <= bytes_per_page,
        bytes_per_page + PAGE_CODEC_HEADROOM <= usize::MAX,
    ensures
        page_bytes(s, codes).len() <= record_bytes(bytes_per_page),
{
    lemma_arrays_len(s, codes);
    lemma_le_len(s.len(), 8);
}

} // verus!
