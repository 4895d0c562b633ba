use vstd::prelude::*;

verus! {

/// An ordered map from interval boundaries (instants) to booking ids, kept as
/// a vector sorted by strictly increasing key. Lookups and the neighbour
/// probes `higher` / `lower` use binary search.
pub struct BoundaryIndex {
    entries: Vec<(u64, u128)>,
    contents: Ghost<Map<u64, u128>>,
}

impl View for BoundaryIndex {
    type V = Map<u64, u128>;

    closed spec fn view(&self) -> Map<u64, u128> {
        self.contents@
    }
}

impl BoundaryIndex {
    pub closed spec fn key_at(&self, i: int) -> u64 {
        self.entries@[i].0
    }

    /// Keys strictly increase along the vector, and the vector holds exactly
    /// the entries of the map.
    pub closed spec fn wf(&self) -> bool {
        &&& forall|i: int, j: int|
            0 <= i < j < self.entries@.len() ==> #[trigger] self.key_at(i) < #[trigger] self.key_at(
                j,
            )
        &&& forall|i: int|
            0 <= i < self.entries@.len() ==> self@.contains_key(#[trigger] self.key_at(i))
                && self@[self.key_at(i)] == self.entries@[i].1
        &&& forall|k: u64|
            self@.contains_key(k) ==> exists|i: int|
                0 <= i < self.entries@.len() && #[trigger] self.key_at(i) == k
    }

    /// An empty index.
    pub fn new() -> (r: Self)
        ensures
            r.wf(),
            r@ == Map::<u64, u128>::empty(),
    {
        BoundaryIndex { entries: Vec::new(), contents: Ghost(Map::empty()) }
    }

    /// The position of the first entry whose key is above `k` (`strict`) or
    /// at least `k` (not `strict`); the length when there is none.
    fn partition_point(&self, k: u64, strict: bool) -> (r: usize)
        requires
            self.wf(),
        ensures
            r <= self.entries@.len(),
            forall|i: int|
                0 <= i < r ==> if strict {
                    #[trigger] self.key_at(i) <= k
                } else {
                    self.key_at(i) < k
                },
            forall|i: int|
                r <= i < self.entries@.len() ==> if strict {
                    #[trigger] self.key_at(i) > k
                } else {
                    self.key_at(i) >= k
                },
    {
        let mut lo: usize = 0;
        let mut hi: usize = self.entries.len();
        while lo < hi
            invariant
                self.wf(),
                lo <= hi <= self.entries@.len(),
                forall|i: int|
                    0 <= i < lo ==> if strict {
                        #[trigger] self.key_at(i) <= k
                    } else {
                        self.key_at(i) < k
                    },
                forall|i: int|
                    hi <= i < self.entries@.len() ==> if strict {
                        #[trigger] self.key_at(i) > k
                    } else {
                        self.key_at(i) >= k
                    },
            decreases hi - lo,
        {
            let mid = lo + (hi - lo) / 2;
            let key = self.entries[mid].0;
            let below = if strict {
                key <= k
            } else {
                key < k
            };
            if below {
                assert forall|i: int| 0 <= i < mid + 1 implies if strict {
                    #[trigger] self.key_at(i) <= k
                } else {
                    self.key_at(i) < k
                } by {
                    if i < mid {
                        assert(self.key_at(i) < self.key_at(mid as int));
                    }
                }
                lo = mid + 1;
            } else {
                assert forall|i: int| mid <= i < self.entries@.len() implies if strict {
                    #[trigger] self.key_at(i) > k
                } else {
                    self.key_at(i) >= k
                } by {
                    if i > mid {
                        assert(self.key_at(mid as int) < self.key_at(i));
                    }
                }
                hi = mid;
            }
        }
        lo
    }

    /// The id stored at `k`, if any.
    pub fn get(&self, k: u64) -> (r: Option<u128>)
        requires
            self.wf(),
        ensures
            r == (if self@.contains_key(k) {
                Some(self@[k])
            } else {
                None
            }),
    {
        let i = self.partition_point(k, false);
        if i < self.entries.len() && self.entries[i].0 == k {
            Some(self.entries[i].1)
        } else {
            proof {
                if self@.contains_key(k) {
                    let j = choose|j: int| 0 <= j < self.entries@.len() && self.key_at(j) == k;
                    if j >= i {
                        assert(self.key_at(i as int) <= self.key_at(j));
                    }
                }
            }
            None
        }
    }

    /// The smallest key strictly greater than `k`, if any.
    pub fn higher(&self, k: u64) -> (r: Option<u64>)
        requires
            self.wf(),
        ensures
            r matches Some(h) ==> self@.contains_key(h) && k < h && forall|x: u64|
                #[trigger] self@.contains_key(x) && k < x ==> h <= x,
            r is None ==> forall|x: u64| #[trigger] self@.contains_key(x) ==> x <= k,
    {
        let i = self.partition_point(k, true);
        proof {
            assert forall|x: u64| #[trigger] self@.contains_key(x) && k < x implies i
                < self.entries@.len() && self.key_at(i as int) <= x by {
                let j = choose|j: int| 0 <= j < self.entries@.len() && self.key_at(j) == x;
                if j > i {
                    assert(self.key_at(i as int) < self.key_at(j));
                }
            }
        }
        if i < self.entries.len() {
            Some(self.entries[i].0)
        } else {
            None
        }
    }

    /// The largest key strictly less than `k`, if any.
    pub fn lower(&self, k: u64) -> (r: Option<u64>)
        requires
            self.wf(),
        ensures
            r matches Some(l) ==> self@.contains_key(l) && l < k && forall|x: u64|
                #[trigger] self@.contains_key(x) && x < k ==> x <= l,
            r is None ==> forall|x: u64| #[trigger] self@.contains_key(x) ==> k <= x,
    {
        let i = self.partition_point(k, false);
        proof {
            assert forall|x: u64| #[trigger] self@.contains_key(x) && x < k implies 0 < i
                && x <= self.key_at(i - 1) by {
                let j = choose|j: int| 0 <= j < self.entries@.len() && self.key_at(j) == x;
                if j < i - 1 {
                    assert(self.key_at(j) < self.key_at(i - 1));
                }
            }
        }
        if i > 0 {
            Some(self.entries[i - 1].0)
        } else {
            None
        }
    }

    /// Adds the entry `k -> v`; `k` must be new.
    pub fn insert(&mut self, k: u64, v: u128)
        requires
            old(self).wf(),
            !old(self)@.contains_key(k),
        ensures
            final(self).wf(),
            final(self)@ == old(self)@.insert(k, v),
    {
        let i = self.partition_point(k, true);
        let ghost old_entries = self.entries@;
        self.entries.insert(i, (k, v));
        self.contents = Ghost(self.contents@.insert(k, v));
        proof {
            assert forall|j: int| 0 <= j < old_entries.len() implies old_entries[j].0 != k by {
                if old_entries[j].0 == k {
                    assert(old(self).key_at(j) == k);
                }
            }
            assert forall|a: int, b: int|
                0 <= a < b < self.entries@.len() implies #[trigger] self.key_at(a)
                < #[trigger] self.key_at(b) by {
                assert(a < i ==> old(self).key_at(a) <= k);
                assert(b > i ==> old(self).key_at(b - 1) > k);
                if a < i && b < i {
                    assert(old(self).key_at(a) < old(self).key_at(b));
                } else if a > i && b > i {
                    assert(old(self).key_at(a - 1) < old(self).key_at(b - 1));
                } else if a < i && b > i {
                    assert(old(self).key_at(a) < old(self).key_at(b - 1));
                }
            }
            assert forall|j: int| 0 <= j < self.entries@.len() implies self@.contains_key(
                #[trigger] self.key_at(j),
            ) && self@[self.key_at(j)] == self.entries@[j].1 by {
                if j < i {
                    assert(old(self)@.contains_key(old(self).key_at(j)));
                } else if j > i {
                    assert(old(self)@.contains_key(old(self).key_at(j - 1)));
                }
            }
            assert forall|x: u64| self@.contains_key(x) implies exists|j: int|
                0 <= j < self.entries@.len() && #[trigger] self.key_at(j) == x by {
                if x == k {
                    assert(self.key_at(i as int) == x);
                } else {
                    let j = choose|j: int| 0 <= j < old_entries.len() && old(self).key_at(j) == x;
                    if j < i {
                        assert(self.key_at(j) == x);
                    } else {
                        assert(self.key_at(j + 1) == x);
                    }
                }
            }
        }
    }
}

} // verus!
