use vstd::prelude::*;

verus! {

/// Two entry sequences strictly sorted by key, holding the same pairs,
/// are the same sequence.
pub proof fn lemma_sorted_u32_pair_seq_ext(a: Seq<(u32, Seq<char>)>, b: Seq<(u32, Seq<char>)>)
    requires
        forall|i: int, j: int| 0 <= i < j < a.len() ==> a[i].0 < a[j].0,
        forall|i: int, j: int| 0 <= i < j < b.len() ==> b[i].0 < b[j].0,
        forall|p: (u32, Seq<char>)| a.contains(p) <==> b.contains(p),
    ensures
        a == b,
    decreases a.len(),
{
    if a.len() == 0 {
        if b.len() > 0 {
            assert(b.contains(b[0]));
            assert(a.contains(b[0]));
        }
        assert(a =~= b);
    } else {
        assert(a.contains(a[0]));
        assert(b.contains(a[0]));
        let j = choose|j: int| 0 <= j < b.len() && b[j] == a[0];
        assert(b.contains(b[0]));
        assert(a.contains(b[0]));
        let i = choose|i: int| 0 <= i < a.len() && a[i] == b[0];
        if j > 0 && i > 0 {
            assert(b[0].0 < a[0].0);
            assert(a[0].0 < b[0].0);
        }
        assert(a[0] == b[0]);
        let at = a.skip(1);
        let bt = b.skip(1);
        assert forall|p: (u32, Seq<char>)| at.contains(p) <==> bt.contains(p) by {
            if at.contains(p) {
                let k = choose|k: int| 0 <= k < at.len() && at[k] == p;
                assert(a[k + 1] == p);
                assert(a[0].0 < p.0);
                assert(b.contains(p));
                let l = choose|l: int| 0 <= l < b.len() && b[l] == p;
                assert(l > 0);
                assert(bt[l - 1] == p);
            }
            if bt.contains(p) {
                let k = choose|k: int| 0 <= k < bt.len() && bt[k] == p;
                assert(b[k + 1] == p);
                assert(b[0].0 < p.0);
                assert(a.contains(p));
                let l = choose|l: int| 0 <= l < a.len() && a[l] == p;
                assert(l > 0);
                assert(at[l - 1] == p);
            }
        }
        assert forall|i2: int, j2: int| 0 <= i2 < j2 < at.len() implies at[i2].0 < at[j2].0 by {
            assert(a[i2 + 1].0 < a[j2 + 1].0);
        }
        assert forall|i2: int, j2: int| 0 <= i2 < j2 < bt.len() implies bt[i2].0 < bt[j2].0 by {
            assert(b[i2 + 1].0 < b[j2 + 1].0);
        }
        lemma_sorted_u32_pair_seq_ext(at, bt);
        assert(a.len() == b.len());
        assert forall|k: int| 0 <= k < a.len() implies a[k] == b[k] by {
            if k > 0 {
                assert(a[k] == at[k - 1]);
                assert(b[k] == bt[k - 1]);
            }
        }
        assert(a =~= b);
    }
}

/// A map from `u32` keys to strings, kept sorted by key and duplicate-free.
/// The syscall tables and the RVA-to-symbol maps use it: walking the
/// entries always yields the same, strictly increasing key sequence.
pub struct U32StrMap {
    pub entries: Vec<(u32, String)>,
}

impl View for U32StrMap {
    type V = Seq<(u32, Seq<char>)>;

    open spec fn view(&self) -> Seq<(u32, Seq<char>)> {
        self.entries@.map_values(|p: (u32, String)| (p.0, p.1@))
    }
}

impl U32StrMap {
    /// Keys are strictly increasing; in particular no key repeats.
    pub open spec fn wf(&self) -> bool {
        forall|i: int, j: int| 0 <= i < j < self@.len() ==> self@[i].0 < self@[j].0
    }

    pub open spec fn contains_key(&self, k: u32) -> bool {
        exists|i: int| 0 <= i < self@.len() && self@[i].0 == k
    }

    pub open spec fn key_at(&self, k: u32) -> int {
        choose|i: int| 0 <= i < self@.len() && self@[i].0 == k
    }

    /// The value bound to `k`, if any.
    pub open spec fn spec_get(&self, k: u32) -> Option<Seq<char>> {
        if self.contains_key(k) {
            Some(self@[self.key_at(k)].1)
        } else {
            None
        }
    }

    /// In a well-formed map the entry at index `i` is what lookup of its
    /// key returns.
    pub proof fn lemma_get_at(&self, i: int)
        requires
            self.wf(),
            0 <= i < self@.len(),
        ensures
            self.spec_get(self@[i].0) == Some(self@[i].1),
    {
        assert(self.contains_key(self@[i].0));
        let j = self.key_at(self@[i].0);
        if j < i {
            assert(self@[j].0 < self@[i].0);
        } else if i < j {
            assert(self@[i].0 < self@[j].0);
        }
    }

    pub fn new() -> (r: Self)
        ensures
            r.wf(),
            r@ == Seq::<(u32, Seq<char>)>::empty(),
    {
        let r = U32StrMap { entries: Vec::new() };
        proof {
            assert(r@ =~= Seq::<(u32, Seq<char>)>::empty());
        }
        r
    }

    pub fn len(&self) -> (n: usize)
        ensures
            n == self@.len(),
    {
        self.entries.len()
    }

    pub fn entry_at(&self, i: usize) -> (r: &(u32, String))
        requires
            i < self@.len(),
        ensures
            r.0 == self@[i as int].0,
            r.1@ == self@[i as int].1,
    {
        &self.entries[i]
    }

    /// Index of the first entry whose key is not below `k`.
    fn lower_bound(&self, k: u32) -> (pos: usize)
        requires
            self.wf(),
        ensures
            pos <= self@.len(),
            forall|i: int| 0 <= i < pos ==> self@[i].0 < k,
            forall|i: int| pos <= i < self@.len() ==> self@[i].0 >= k,
    {
        let n = self.entries.len();
        let mut lo: usize = 0;
        let mut hi: usize = n;
        while lo < hi
            invariant
                lo <= hi <= n,
                n == self@.len(),
                self.wf(),
                forall|i: int| 0 <= i < lo ==> self@[i].0 < k,
                forall|i: int| hi <= i < n ==> self@[i].0 >= k,
            decreases hi - lo,
        {
            let mid = lo + (hi - lo) / 2;
            if self.entries[mid].0 < k {
                proof {
                    assert forall|i: int| 0 <= i < mid + 1 implies self@[i].0 < k by {
                        if i < mid {
                            assert(self@[i].0 < self@[mid as int].0);
                        }
                    }
                }
                lo = mid + 1;
            } else {
                proof {
                    assert forall|i: int| mid <= i < n implies self@[i].0 >= k by {
                        if i > mid {
                            assert(self@[mid as int].0 < self@[i].0);
                        }
                    }
                }
                hi = mid;
            }
        }
        lo
    }

    /// Looks `k` up.
    pub fn get(&self, k: u32) -> (r: Option<&String>)
        requires
            self.wf(),
        ensures
            match r {
                Some(v) => self.spec_get(k) == Some(v@),
                None => self.spec_get(k) is None,
            },
    {
        let pos = self.lower_bound(k);
        if pos < self.entries.len() && self.entries[pos].0 == k {
            proof {
                self.lemma_get_at(pos as int);
            }
            Some(&self.entries[pos].1)
        } else {
            proof {
                if self.contains_key(k) {
                    let i = choose|i: int| 0 <= i < self@.len() && self@[i].0 == k;
                    assert(self@[i].0 < k || self@[i].0 >= k);
                }
            }
            None
        }
    }

    /// Whether the map binds `k`.
    pub fn has_key(&self, k: u32) -> (r: bool)
        requires
            self.wf(),
        ensures
            r == self.contains_key(k),
    {
        match self.get(k) {
            Some(_) => {
                proof {
                    assert(self.contains_key(k));
                }
                true
            },
            None => {
                proof {
                    if self.contains_key(k) {
                        assert(self.spec_get(k) is Some);
                    }
                }
                false
            },
        }
    }

    /// Two well-formed maps with the same binding for every key walk as
    /// the same entry sequence: the order of construction cannot change
    /// what a reader of the map sees.
    pub proof fn lemma_same_bindings_same_view(a: &U32StrMap, b: &U32StrMap)
        requires
            a.wf(),
            b.wf(),
            forall|k: u32| #[trigger] a.spec_get(k) == b.spec_get(k),
        ensures
            a@ == b@,
    {
        assert forall|p: (u32, Seq<char>)| a@.contains(p) <==> b@.contains(p) by {
            if a@.contains(p) {
                let i = choose|i: int| 0 <= i < a@.len() && a@[i] == p;
                a.lemma_get_at(i);
                assert(b.spec_get(p.0) == Some(p.1));
                assert(b.contains_key(p.0));
                let j = b.key_at(p.0);
                b.lemma_get_at(j);
                assert(b@[j] == p);
            }
            if b@.contains(p) {
                let i = choose|i: int| 0 <= i < b@.len() && b@[i] == p;
                b.lemma_get_at(i);
                assert(a.spec_get(p.0) == Some(p.1));
                assert(a.contains_key(p.0));
                let j = a.key_at(p.0);
                a.lemma_get_at(j);
                assert(a@[j] == p);
            }
        }
        lemma_sorted_u32_pair_seq_ext(a@, b@);
    }

    /// Binds `k` to `v`; an existing binding of `k` is overwritten.
    pub fn insert(&mut self, k: u32, v: String)
        requires
            old(self).wf(),
        ensures
            final(self).wf(),
            final(self)@.len() <= old(self)@.len() + 1,
            final(self).spec_get(k) == Some(v@),
            forall|q: u32| q != k ==> final(self).spec_get(q) == old(self).spec_get(q),
    {
        let pos = self.lower_bound(k);
        let ghost oldview = self@;
        if pos < self.entries.len() && self.entries[pos].0 == k {
            let _ = self.entries.remove(pos);
            self.entries.insert(pos, (k, v));
            proof {
                assert(self@ =~= oldview.update(pos as int, (k, v@)));
                assert forall|i: int, j: int| 0 <= i < j < self@.len() implies self@[i].0
                    < self@[j].0 by {
                    assert(self@[i].0 == oldview[i].0);
                    assert(self@[j].0 == oldview[j].0);
                    assert(oldview[i].0 < oldview[j].0);
                }
                self.lemma_get_at(pos as int);
                assert(self.spec_get(k) == Some(v@));
                assert forall|q: u32| q != k implies self.spec_get(q) == old(self).spec_get(q) by {
                    if old(self).contains_key(q) {
                        let i = choose|i: int| 0 <= i < oldview.len() && oldview[i].0 == q;
                        assert(i != pos as int);
                        assert(self@[i] == oldview[i]);
                        self.lemma_get_at(i);
                        old(self).lemma_get_at(i);
                    } else {
                        if self.contains_key(q) {
                            let i = choose|i: int| 0 <= i < self@.len() && self@[i].0 == q;
                            assert(i != pos as int);
                            assert(oldview[i] == self@[i]);
                            assert(old(self).contains_key(q));
                        }
                    }
                }
            }
        } else {
            self.entries.insert(pos, (k, v));
            proof {
                assert(self@ =~= oldview.insert(pos as int, (k, v@)));
                assert forall|i: int, j: int| 0 <= i < j < self@.len() implies self@[i].0
                    < self@[j].0 by {
                    if j < pos {
                    } else if i < pos && j == pos {
                    } else if i < pos && j > pos {
                        assert(oldview[i].0 < oldview[j - 1].0);
                    } else if i == pos {
                        assert(self@[j] == oldview[j - 1]);
                        assert(oldview[j - 1].0 >= k);
                        if oldview[j - 1].0 == k {
                            assert(oldview[pos as int].0 >= k);
                            if pos as int <= j - 2 {
                                assert(oldview[pos as int].0 < oldview[j - 1].0);
                            }
                            assert(false);
                        }
                    } else {
                        assert(oldview[i - 1].0 < oldview[j - 1].0);
                    }
                }
                self.lemma_get_at(pos as int);
                assert(self.spec_get(k) == Some(v@));
                assert forall|q: u32| q != k implies self.spec_get(q) == old(self).spec_get(q) by {
                    if old(self).contains_key(q) {
                        let i = choose|i: int| 0 <= i < oldview.len() && oldview[i].0 == q;
                        old(self).lemma_get_at(i);
                        if i < pos {
                            assert(self@[i] == oldview[i]);
                            self.lemma_get_at(i);
                        } else {
                            assert(self@[i + 1] == oldview[i]);
                            self.lemma_get_at(i + 1);
                        }
                    } else {
                        if self.contains_key(q) {
                            let i = choose|i: int| 0 <= i < self@.len() && self@[i].0 == q;
                            assert(i != pos as int);
                            if i < pos {
                                assert(oldview[i] == self@[i]);
                            } else {
                                assert(oldview[i - 1] == self@[i]);
                            }
                            assert(old(self).contains_key(q));
                        }
                    }
                }
            }
        }
    }
}

} // verus!
