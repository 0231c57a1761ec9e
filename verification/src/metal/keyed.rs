//! A small table keyed by runs of logical page ids.
use vstd::prelude::*;

use crate::metal::payload::same_ids;

verus! {

struct Entry<V> {
    key: Vec<u64>,
    value: V,
}

/// Values under id runs; each run occurs once.
pub struct KeyedVec<V> {
    entries: Vec<Entry<V>>,
}

/// Whether a run is the front part of another.
pub open spec fn is_front(key: Seq<u64>, of: Seq<u64>) -> bool {
    key.len() <= of.len() && of.take(key.len() as int) == key
}

/// Whether a run names one of these ids.
pub open spec fn touches(key: Seq<u64>, ids: Seq<u64>) -> bool {
    exists|i: int| 0 <= i < ids.len() && key.contains(#[trigger] ids[i])
}

/// What pruning keeps: runs that name none of the ids, and the front parts
/// of the live run.
pub open spec fn survives(key: Seq<u64>, ids: Seq<u64>, live: Option<Seq<u64>>) -> bool {
    !touches(key, ids) || (live is Some && is_front(key, live->0))
}

pub fn contains_id(key: &[u64], id: u64) -> (r: bool)
    ensures
        r == key@.contains(id),
{
    let mut i: usize = 0;
    while i < key.len()
        invariant
            i <= key@.len(),
            forall|j: int| 0 <= j < i ==> key@[j] != id,
        decreases key@.len() - i,
    {
        if key[i] == id {
            assert(key@[i as int] == id);
            return true;
        }
        i = i + 1;
    }
    false
}

pub fn names_any(key: &[u64], ids: &[u64]) -> (r: bool)
    ensures
        r == touches(key@, ids@),
{
    let mut i: usize = 0;
    while i < ids.len()
        invariant
            i <= ids@.len(),
            forall|j: int| 0 <= j < i ==> !key@.contains(#[trigger] ids@[j]),
        decreases ids@.len() - i,
    {
        if contains_id(key, ids[i]) {
            assert(key@.contains(ids@[i as int]));
            return true;
        }
        i = i + 1;
    }
    false
}

pub fn is_front_of(key: &[u64], of: &[u64]) -> (r: bool)
    ensures
        r == is_front(key@, of@),
{
    if key.len() > of.len() {
        return false;
    }
    let mut i: usize = 0;
    while i < key.len()
        invariant
            i <= key@.len() <= of@.len(),
            forall|j: int| 0 <= j < i ==> key@[j] == of@[j],
        decreases key@.len() - i,
    {
        if key[i] != of[i] {
            assert(of@.take(key@.len() as int)[i as int] != key@[i as int]);
            return false;
        }
        i = i + 1;
    }
    assert(of@.take(key@.len() as int) =~= key@);
    true
}

pub fn copy_ids(ids: &[u64]) -> (out: Vec<u64>)
    ensures
        out@ == ids@,
{
    let mut out: Vec<u64> = Vec::new();
    let mut i: usize = 0;
    while i < ids.len()
        invariant
            i <= ids@.len(),
            out@ == ids@.take(i as int),
        decreases ids@.len() - i,
    {
        out.push(ids[i]);
        i = i + 1;
        assert(ids@.take(i as int) =~= ids@.take(i - 1).push(ids@[i - 1]));
    }
    assert(ids@.take(i as int) =~= ids@);
    out
}

impl<V> KeyedVec<V> {
    spec fn at(self, i: int) -> Seq<u64> {
        self.entries@[i].key@
    }

    /// No run occurs twice.
    pub closed spec fn wf(self) -> bool {
        forall|i: int, j: int|
            0 <= i < self.entries@.len() && 0 <= j < self.entries@.len() && #[trigger] self.at(i)
                == #[trigger] self.at(j) ==> i == j
    }

    pub closed spec fn has(self, key: Seq<u64>) -> bool {
        exists|i: int| 0 <= i < self.entries@.len() && #[trigger] self.at(i) == key
    }

    pub closed spec fn value_of(self, key: Seq<u64>) -> V {
        let i = choose|i: int| 0 <= i < self.entries@.len() && #[trigger] self.at(i) == key;
        self.entries@[i].value
    }

    pub open spec fn map(self) -> Map<Seq<u64>, V> {
        Map::new(|k: Seq<u64>| self.has(k), |k: Seq<u64>| self.value_of(k))
    }

    proof fn lemma_entry(self, i: int)
        requires
            self.wf(),
            0 <= i < self.entries@.len(),
        ensures
            self.has(self.at(i)),
            self.map().contains_key(self.at(i)),
            self.map()[self.at(i)] == self.entries@[i].value,
    {
        let k = self.at(i);
        let j = choose|j: int| 0 <= j < self.entries@.len() && #[trigger] self.at(j) == k;
        assert(self.at(i) == self.at(j));
    }

    pub fn new() -> (t: Self)
        ensures
            t.wf(),
            t.map() == Map::<Seq<u64>, V>::empty(),
    {
        let t = KeyedVec { entries: Vec::new() };
        assert(t.map() =~= Map::<Seq<u64>, V>::empty());
        t
    }

    fn find(&self, key: &[u64]) -> (r: Option<usize>)
        requires
            self.wf(),
        ensures
            match r {
                Some(i) => i < self.entries@.len() && self.at(i as int) == key@,
                None => !self.has(key@),
            },
    {
        let mut i: usize = 0;
        while i < self.entries.len()
            invariant
                i <= self.entries@.len(),
                forall|j: int| 0 <= j < i ==> #[trigger] self.at(j) != key@,
            decreases self.entries@.len() - i,
        {
            if same_ids(self.entries[i].key.as_slice(), key) {
                return Some(i);
            }
            assert(self.at(i as int) != key@);
            i = i + 1;
        }
        None
    }

    pub fn contains_key(&self, key: &[u64]) -> (r: bool)
        requires
            self.wf(),
        ensures
            r == self.map().contains_key(key@),
    {
        match self.find(key) {
            Some(i) => {
                proof {
                    self.lemma_entry(i as int);
                }
                true
            },
            None => false,
        }
    }

    pub fn get(&self, key: &[u64]) -> (r: Option<&V>)
        requires
            self.wf(),
        ensures
            match r {
                Some(v) => self.map().contains_key(key@) && *v == self.map()[key@],
                None => !self.map().contains_key(key@),
            },
    {
        match self.find(key) {
            Some(i) => {
                proof {
                    self.lemma_entry(i as int);
                }
                Some(&self.entries[i].value)
            },
            None => None,
        }
    }

    pub fn len(&self) -> (n: usize)
        requires
            self.wf(),
        ensures
            n == 0 <==> self.map() == Map::<Seq<u64>, V>::empty(),
    {
        let n: usize = self.entries.len();
        proof {
            if n == 0 {
                assert(self.map() =~= Map::<Seq<u64>, V>::empty());
            } else {
                self.lemma_entry(0);
            }
        }
        n
    }

    /// Puts a value under a run, in place of an earlier one.
    pub fn insert(&mut self, key: Vec<u64>, value: V)
        requires
            old(self).wf(),
        ensures
            final(self).wf(),
            final(self).map() == old(self).map().insert(key@, value),
    {
        match self.find(key.as_slice()) {
            Some(i) => {
                let _ = self.entries.remove(i);
                proof {
                    let before = *old(self);
                    assert forall|a: int, b: int|
                        0 <= a < self.entries@.len() && 0 <= b < self.entries@.len()
                            && #[trigger] self.at(a) == #[trigger] self.at(b) implies a == b by {
                        let x = if a < i { a } else { a + 1 };
                        let y = if b < i { b } else { b + 1 };
                        assert(before.at(x) == before.at(y));
                    }
                    assert forall|a: int| 0 <= a < self.entries@.len() implies #[trigger] self.at(a)
                        != key@ by {
                        let x = if a < i { a } else { a + 1 };
                        if self.at(a) == key@ {
                            assert(before.at(x) == before.at(i as int));
                        }
                    }
                    assert forall|k: Seq<u64>| k != key@ && before.has(k) implies self.has(k)
                        && self.value_of(k) == before.value_of(k) by {
                        let x = choose|x: int|
                            0 <= x < before.entries@.len() && #[trigger] before.at(x) == k;
                        let y = if x < i { x } else { x - 1 };
                        assert(self.at(y) == k);
                        self.lemma_entry(y);
                        before.lemma_entry(x);
                    }
                    assert forall|k: Seq<u64>| #[trigger] self.has(k) implies before.has(k) by {
                        let x = choose|x: int|
                            0 <= x < self.entries@.len() && #[trigger] self.at(x) == k;
                        let y = if x < i { x } else { x + 1 };
                        assert(before.at(y) == k);
                    }
                }
            },
            None => {},
        }
        let ghost mid = *self;
        let ghost run = key@;
        assert(mid.wf());
        assert(!mid.has(run));
        assert(forall|k: Seq<u64>| k != run ==> (#[trigger] mid.has(k) == old(self).has(k)));
        assert(forall|k: Seq<u64>|
            k != run && #[trigger] mid.has(k) ==> mid.value_of(k) == old(self).value_of(k));
        self.entries.push(Entry { key, value });
        proof {
            let last = self.entries@.len() - 1;
            assert(self.at(last) == run);
            assert forall|a: int, b: int|
                0 <= a < self.entries@.len() && 0 <= b < self.entries@.len() && #[trigger] self.at(
                    a,
                ) == #[trigger] self.at(b) implies a == b by {
                if a < last && b < last {
                    assert(mid.at(a) == mid.at(b));
                } else if a < last {
                    assert(mid.at(a) == run);
                } else if b < last {
                    assert(mid.at(b) == run);
                }
            }
            self.lemma_entry(last);
            assert forall|k: Seq<u64>| k != run implies #[trigger] self.has(k) == mid.has(k) by {
                if self.has(k) {
                    let x = choose|x: int|
                        0 <= x < self.entries@.len() && #[trigger] self.at(x) == k;
                    assert(mid.at(x) == k);
                }
                if mid.has(k) {
                    let x = choose|x: int| 0 <= x < mid.entries@.len() && #[trigger] mid.at(x) == k;
                    assert(self.at(x) == k);
                }
            }
            assert forall|k: Seq<u64>| k != run && #[trigger] mid.has(k) implies self.value_of(k)
                == mid.value_of(k) by {
                let x = choose|x: int| 0 <= x < mid.entries@.len() && #[trigger] mid.at(x) == k;
                assert(self.at(x) == k);
                self.lemma_entry(x);
                mid.lemma_entry(x);
            }
            assert(self.map() =~= old(self).map().insert(run, value));
        }
    }

    /// Drops every run that names one of the ids and is no front part of the
    /// live run, and gives what stood under the dropped runs.
    pub fn prune(&mut self, ids: &[u64], live: Option<&[u64]>) -> (dropped: Vec<V>)
        requires
            old(self).wf(),
        ensures
            final(self).wf(),
            final(self).map() == old(self).map().restrict(
                Set::new(
                    |k: Seq<u64>|
                        survives(
                            k,
                            ids@,
                            match live {
                                Some(l) => Some(l@),
                                None => None,
                            },
                        ),
                ),
            ),
            forall|v: V| #[trigger]
                dropped@.contains(v) <==> exists|k: Seq<u64>| #[trigger]
                    old(self).map().contains_key(k) && old(self).map()[k] == v && !survives(
                        k,
                        ids@,
                        match live {
                            Some(l) => Some(l@),
                            None => None,
                        },
                    ),
    {
        let ghost before = *self;
        let ghost alive: Option<Seq<u64>> = match live {
            Some(l) => Some(l@),
            None => None,
        };
        let mut dropped: Vec<V> = Vec::new();
        let mut i: usize = 0;
        proof {
            assert forall|j: int| 0 <= j < self.entries@.len() implies before.has(
                #[trigger] self.at(j),
            ) && before.value_of(self.at(j)) == self.entries@[j].value by {
                before.lemma_entry(j);
            }
        }
        while i < self.entries.len()
            invariant
                i <= self.entries@.len(),
                before.wf(),
                before == *old(self),
                self.wf(),
                alive == (match live {
                    Some(l) => Some(l@),
                    None => None::<Seq<u64>>,
                }),
                forall|j: int|
                    0 <= j < self.entries@.len() ==> before.has(#[trigger] self.at(j)),
                forall|j: int|
                    0 <= j < self.entries@.len() ==> before.value_of(#[trigger] self.at(j))
                        == self.entries@[j].value,
                forall|j: int| 0 <= j < i ==> survives(#[trigger] self.at(j), ids@, alive),
                forall|k: Seq<u64>| #[trigger]
                    before.has(k) ==> self.has(k) || (!survives(k, ids@, alive)
                        && dropped@.contains(before.value_of(k))),
                forall|v: V| #[trigger]
                    dropped@.contains(v) ==> exists|k: Seq<u64>| #[trigger]
                        before.has(k) && before.value_of(k) == v && !survives(k, ids@, alive),
            decreases self.entries@.len() - i,
        {
            let key: &[u64] = self.entries[i].key.as_slice();
            let keep: bool = !names_any(key, ids) || match live {
                Some(l) => is_front_of(key, l),
                None => false,
            };
            if keep {
                i = i + 1;
            } else {
                let ghost prev = *self;
                let ghost gone = self.at(i as int);
                let ghost was = dropped@;
                let e: Entry<V> = self.entries.remove(i);
                let Entry { key: _, value } = e;
                dropped.push(value);
                proof {
                    assert forall|a: int, b: int|
                        0 <= a < self.entries@.len() && 0 <= b < self.entries@.len()
                            && #[trigger] self.at(a) == #[trigger] self.at(b) implies a == b by {
                        let x = if a < i { a } else { a + 1 };
                        let y = if b < i { b } else { b + 1 };
                        assert(prev.at(x) == prev.at(y));
                    }
                    assert forall|j: int| 0 <= j < self.entries@.len() implies before.has(
                        #[trigger] self.at(j),
                    ) && before.value_of(self.at(j)) == self.entries@[j].value by {
                        let x = if j < i { j } else { j + 1 };
                        assert(prev.at(x) == self.at(j));
                    }
                    assert forall|j: int| 0 <= j < i implies survives(
                        #[trigger] self.at(j),
                        ids@,
                        alive,
                    ) by {
                        assert(prev.at(j) == self.at(j));
                    }
                    assert(before.has(gone) && before.value_of(gone) == value);
                    assert(dropped@.last() == value);
                    assert forall|k: Seq<u64>| #[trigger] before.has(k) implies self.has(k) || (
                    !survives(k, ids@, alive) && dropped@.contains(before.value_of(k))) by {
                        if prev.has(k) {
                            let x = choose|x: int|
                                0 <= x < prev.entries@.len() && #[trigger] prev.at(x) == k;
                            if x == i {
                                assert(dropped@[dropped@.len() - 1] == before.value_of(k));
                            } else {
                                let y = if x < i { x } else { x - 1 };
                                assert(self.at(y) == k);
                            }
                        } else {
                            let t = choose|t: int|
                                0 <= t < was.len() && was[t] == before.value_of(k);
                            assert(dropped@[t] == before.value_of(k));
                        }
                    }
                    assert forall|v: V| #[trigger] dropped@.contains(v) implies exists|
                        k: Seq<u64>,
                    | #[trigger] before.has(k) && before.value_of(k) == v && !survives(
                        k,
                        ids@,
                        alive,
                    ) by {
                        if v != value {
                            let t = choose|t: int| 0 <= t < dropped@.len() && dropped@[t] == v;
                            assert(was[t] == v);
                            assert(was.contains(v));
                        }
                    }
                }
            }
        }
        proof {
            assert forall|k: Seq<u64>| #[trigger] self.has(k) <==> before.has(k) && survives(
                k,
                ids@,
                alive,
            ) by {
                if self.has(k) {
                    let x = choose|x: int|
                        0 <= x < self.entries@.len() && #[trigger] self.at(x) == k;
                    assert(survives(self.at(x), ids@, alive));
                }
            }
            assert forall|k: Seq<u64>| #[trigger] self.has(k) implies self.value_of(k)
                == before.value_of(k) by {
                let x = choose|x: int| 0 <= x < self.entries@.len() && #[trigger] self.at(x) == k;
                self.lemma_entry(x);
            }
            assert(self.map() =~= old(self).map().restrict(
                Set::new(|k: Seq<u64>| survives(k, ids@, alive)),
            ));
            assert forall|v: V| #[trigger] dropped@.contains(v) <==> exists|k: Seq<u64>| #[trigger]
                old(self).map().contains_key(k) && old(self).map()[k] == v && !survives(
                    k,
                    ids@,
                    alive,
                ) by {
                if dropped@.contains(v) {
                    let k = choose|k: Seq<u64>| #[trigger]
                        before.has(k) && before.value_of(k) == v && !survives(k, ids@, alive);
                    assert(old(self).map().contains_key(k));
                }
                if exists|k: Seq<u64>| #[trigger]
                    old(self).map().contains_key(k) && old(self).map()[k] == v && !survives(
                        k,
                        ids@,
                        alive,
                    ) {
                    let k = choose|k: Seq<u64>| #[trigger]
                        old(self).map().contains_key(k) && old(self).map()[k] == v && !survives(
                            k,
                            ids@,
                            alive,
                        );
                    assert(before.has(k));
                }
            }
        }
        dropped
    }
}

} // verus!
