use vstd::prelude::*;

use crate::text::{cmp_chars, lemma_cmp_equal_iff, lemma_cmp_flip, lemma_cmp_trans_less, str_lt,
    string_cmp, CmpResult};

verus! {

/// The value that the last pair holding key `k` binds, if any pair does.
pub open spec fn spec_str_last_value(pairs: Seq<(Seq<char>, Seq<char>)>, k: Seq<char>) -> Option<
    Seq<char>,
>
    decreases pairs.len(),
{
    if pairs.len() == 0 {
        None
    } else if pairs.last().0 == k {
        Some(pairs.last().1)
    } else {
        spec_str_last_value(pairs.drop_last(), k)
    }
}

/// Two entry sequences strictly sorted by key, holding the same pairs,
/// are the same sequence.
pub proof fn lemma_sorted_str_pair_seq_ext(
    a: Seq<(Seq<char>, Seq<char>)>,
    b: Seq<(Seq<char>, Seq<char>)>,
)
    requires
        forall|i: int, j: int| 0 <= i < j < a.len() ==> str_lt(a[i].0, a[j].0),
        forall|i: int, j: int| 0 <= i < j < b.len() ==> str_lt(b[i].0, b[j].0),
        forall|p: (Seq<char>, Seq<char>)| a.contains(p) <==> b.contains(p),
    ensures
        a == b,
    decreases a.len(),
{
    if a.len() == 0 {
        if b.len() > 0 {
            assert(b.contains(b[0]));
            assert(a.contains(b[0]));
        }
        assert(a =~= b);
    } else {
        assert(a.contains(a[0]));
        assert(b.contains(a[0]));
        let j = choose|j: int| 0 <= j < b.len() && b[j] == a[0];
        assert(b.contains(b[0]));
        assert(a.contains(b[0]));
        let i = choose|i: int| 0 <= i < a.len() && a[i] == b[0];
        if j > 0 {
            assert(str_lt(b[0].0, a[0].0));
            if i > 0 {
                assert(str_lt(a[0].0, b[0].0));
                lemma_cmp_trans_less(b[0].0, a[0].0, b[0].0);
                crate::strset::lemma_str_lt_irrefl(b[0].0);
            }
        }
        assert(a[0] == b[0]);
        let at = a.skip(1);
        let bt = b.skip(1);
        assert forall|p: (Seq<char>, Seq<char>)| at.contains(p) <==> bt.contains(p) by {
            if at.contains(p) {
                let k = choose|k: int| 0 <= k < at.len() && at[k] == p;
                assert(a[k + 1] == p);
                assert(str_lt(a[0].0, p.0));
                assert(b.contains(p));
                let l = choose|l: int| 0 <= l < b.len() && b[l] == p;
                if l == 0 {
                    crate::strset::lemma_str_lt_irrefl(p.0);
                }
                assert(bt[l - 1] == p);
            }
            if bt.contains(p) {
                let k = choose|k: int| 0 <= k < bt.len() && bt[k] == p;
                assert(b[k + 1] == p);
                assert(str_lt(b[0].0, p.0));
                assert(a.contains(p));
                let l = choose|l: int| 0 <= l < a.len() && a[l] == p;
                if l == 0 {
                    crate::strset::lemma_str_lt_irrefl(p.0);
                }
                assert(at[l - 1] == p);
            }
        }
        assert forall|i2: int, j2: int| 0 <= i2 < j2 < at.len() implies str_lt(
            at[i2].0,
            at[j2].0,
        ) by {
            assert(str_lt(a[i2 + 1].0, a[j2 + 1].0));
        }
        assert forall|i2: int, j2: int| 0 <= i2 < j2 < bt.len() implies str_lt(
            bt[i2].0,
            bt[j2].0,
        ) by {
            assert(str_lt(b[i2 + 1].0, b[j2 + 1].0));
        }
        lemma_sorted_str_pair_seq_ext(at, bt);
        assert(a.len() == b.len());
        assert forall|k: int| 0 <= k < a.len() implies a[k] == b[k] by {
            if k > 0 {
                assert(a[k] == at[k - 1]);
                assert(b[k] == bt[k - 1]);
            }
        }
        assert(a =~= b);
    }
}

/// A map from strings to strings, kept sorted by key and duplicate-free.
/// The reconstructed-types field of a database uses it, so that walking
/// the entries always yields the same, totally ordered key sequence.
pub struct OrderedStrMap {
    pub entries: Vec<(String, String)>,
}

impl View for OrderedStrMap {
    type V = Seq<(Seq<char>, Seq<char>)>;

    open spec fn view(&self) -> Seq<(Seq<char>, Seq<char>)> {
        self.entries@.map_values(|p: (String, String)| (p.0@, p.1@))
    }
}

impl OrderedStrMap {
    /// Keys are strictly increasing; in particular no key repeats.
    pub open spec fn wf(&self) -> bool {
        forall|i: int, j: int| 0 <= i < j < self@.len() ==> str_lt(self@[i].0, self@[j].0)
    }

    pub open spec fn contains_key(&self, k: Seq<char>) -> bool {
        exists|i: int| 0 <= i < self@.len() && self@[i].0 == k
    }

    pub open spec fn key_at(&self, k: Seq<char>) -> int {
        choose|i: int| 0 <= i < self@.len() && self@[i].0 == k
    }

    /// The value bound to `k`, if any.
    pub open spec fn spec_get(&self, k: Seq<char>) -> Option<Seq<char>> {
        if self.contains_key(k) {
            Some(self@[self.key_at(k)].1)
        } else {
            None
        }
    }

    /// In a well-formed map the entry at index `i` is what lookup of its
    /// key returns.
    pub proof fn lemma_get_at(&self, i: int)
        requires
            self.wf(),
            0 <= i < self@.len(),
        ensures
            self.spec_get(self@[i].0) == Some(self@[i].1),
    {
        assert(self.contains_key(self@[i].0));
        let j = self.key_at(self@[i].0);
        if j < i {
            lemma_cmp_equal_iff(self@[j].0, self@[i].0);
            assert(str_lt(self@[j].0, self@[i].0));
        } else if i < j {
            lemma_cmp_equal_iff(self@[i].0, self@[j].0);
            assert(str_lt(self@[i].0, self@[j].0));
        }
    }

    pub fn new() -> (r: Self)
        ensures
            r.wf(),
            r@ == Seq::<(Seq<char>, Seq<char>)>::empty(),
    {
        let r = OrderedStrMap { entries: Vec::new() };
        proof {
            assert(r@ =~= Seq::<(Seq<char>, Seq<char>)>::empty());
        }
        r
    }

    pub fn len(&self) -> (n: usize)
        ensures
            n == self@.len(),
    {
        self.entries.len()
    }

    pub fn entry_at(&self, i: usize) -> (r: &(String, String))
        requires
            i < self@.len(),
        ensures
            r.0@ == self@[i as int].0,
            r.1@ == self@[i as int].1,
    {
        &self.entries[i]
    }

    /// Two well-formed maps with the same binding for every key walk as
    /// the same entry sequence: the order of construction cannot change
    /// what a reader of the map sees.
    pub proof fn lemma_same_bindings_same_view(a: &OrderedStrMap, b: &OrderedStrMap)
        requires
            a.wf(),
            b.wf(),
            forall|k: Seq<char>| #[trigger] a.spec_get(k) == b.spec_get(k),
        ensures
            a@ == b@,
    {
        assert forall|p: (Seq<char>, Seq<char>)| a@.contains(p) <==> b@.contains(p) by {
            if a@.contains(p) {
                let i = choose|i: int| 0 <= i < a@.len() && a@[i] == p;
                a.lemma_get_at(i);
                assert(b.spec_get(p.0) == Some(p.1));
                assert(b.contains_key(p.0));
                let j = b.key_at(p.0);
                b.lemma_get_at(j);
                assert(b@[j] == p);
            }
            if b@.contains(p) {
                let i = choose|i: int| 0 <= i < b@.len() && b@[i] == p;
                b.lemma_get_at(i);
                assert(a.spec_get(p.0) == Some(p.1));
                assert(a.contains_key(p.0));
                let j = a.key_at(p.0);
                a.lemma_get_at(j);
                assert(a@[j] == p);
            }
        }
        lemma_sorted_str_pair_seq_ext(a@, b@);
    }

    /// Binds `k` to `v`; an existing binding of `k` is overwritten.
    pub fn insert(&mut self, k: String, v: String)
        requires
            old(self).wf(),
        ensures
            final(self).wf(),
            final(self)@.len() <= old(self)@.len() + 1,
            final(self).spec_get(k@) == Some(v@),
            forall|q: Seq<char>| q != k@ ==> final(self).spec_get(q) == old(self).spec_get(q),
    {
        let n = self.entries.len();
        let mut pos: usize = 0;
        while pos < n && string_cmp(&self.entries[pos].0, &k) == CmpResult::Less
            invariant
                pos <= n,
                n == self@.len(),
                *self == *old(self),
                forall|i: int| 0 <= i < pos ==> str_lt(self@[i].0, k@),
            decreases n - pos,
        {
            pos = pos + 1;
        }
        let ghost oldview = self@;
        if pos < n && string_cmp(&self.entries[pos].0, &k) == CmpResult::Equal {
            proof {
                lemma_cmp_equal_iff(self@[pos as int].0, k@);
                assert(self@[pos as int].0 == k@);
            }
            let _ = self.entries.remove(pos);
            self.entries.insert(pos, (k, v));
            proof {
                assert(self@ =~= oldview.update(pos as int, (oldview[pos as int].0, v@)));
                assert forall|i: int, j: int| 0 <= i < j < self@.len() implies str_lt(
                    self@[i].0,
                    self@[j].0,
                ) by {
                    assert(self@[i].0 == oldview[i].0);
                    assert(self@[j].0 == oldview[j].0);
                    assert(str_lt(oldview[i].0, oldview[j].0));
                }
                self.lemma_get_at(pos as int);
                assert(self.spec_get(k@) == Some(v@));
                assert forall|q: Seq<char>| q != k@ implies self.spec_get(q) == old(
                    self,
                ).spec_get(q) by {
                    if old(self).contains_key(q) {
                        let i = choose|i: int| 0 <= i < oldview.len() && oldview[i].0 == q;
                        assert(i != pos as int);
                        assert(self@[i] == oldview[i]);
                        self.lemma_get_at(i);
                        old(self).lemma_get_at(i);
                    } else {
                        if self.contains_key(q) {
                            let i = choose|i: int| 0 <= i < self@.len() && self@[i].0 == q;
                            assert(i != pos as int);
                            assert(oldview[i] == self@[i]);
                            assert(old(self).contains_key(q));
                        }
                    }
                }
            }
        } else {
            proof {
                if pos < self@.len() {
                    lemma_cmp_equal_iff(self@[pos as int].0, k@);
                    lemma_cmp_flip(self@[pos as int].0, k@);
                    assert(str_lt(k@, self@[pos as int].0));
                }
            }
            self.entries.insert(pos, (k, v));
            proof {
                assert(self@ =~= oldview.insert(pos as int, (k@, v@)));
                assert forall|i: int, j: int| 0 <= i < j < self@.len() implies str_lt(
                    self@[i].0,
                    self@[j].0,
                ) by {
                    if j < pos {
                    } else if i < pos && j == pos {
                        assert(str_lt(oldview[i].0, k@));
                    } else if i < pos && j > pos {
                        assert(str_lt(oldview[i].0, oldview[j - 1].0));
                    } else if i == pos {
                        assert(str_lt(k@, oldview[pos as int].0));
                        if j - 1 > pos {
                            assert(str_lt(oldview[pos as int].0, oldview[j - 1].0));
                            lemma_cmp_trans_less(k@, oldview[pos as int].0, oldview[j - 1].0);
                        }
                        assert(str_lt(k@, oldview[j - 1].0));
                    } else {
                        assert(str_lt(oldview[i - 1].0, oldview[j - 1].0));
                    }
                }
                self.lemma_get_at(pos as int);
                assert(self.spec_get(k@) == Some(v@));
                assert forall|q: Seq<char>| q != k@ implies self.spec_get(q) == old(
                    self,
                ).spec_get(q) by {
                    if old(self).contains_key(q) {
                        let i = choose|i: int| 0 <= i < oldview.len() && oldview[i].0 == q;
                        old(self).lemma_get_at(i);
                        if i < pos {
                            assert(self@[i] == oldview[i]);
                            self.lemma_get_at(i);
                        } else {
                            assert(self@[i + 1] == oldview[i]);
                            self.lemma_get_at(i + 1);
                        }
                    } else {
                        if self.contains_key(q) {
                            let i = choose|i: int| 0 <= i < self@.len() && self@[i].0 == q;
                            assert(i != pos as int);
                            if i < pos {
                                assert(oldview[i] == self@[i]);
                            } else {
                                assert(oldview[i - 1] == self@[i]);
                            }
                            assert(old(self).contains_key(q));
                        }
                    }
                }
            }
        }
    }
}

} // verus!
