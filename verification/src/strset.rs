use vstd::prelude::*;

use crate::text::{cmp_chars, lemma_cmp_equal_iff, lemma_cmp_flip, lemma_cmp_trans_less, str_lt,
    string_cmp, CmpResult};

verus! {

/// No string orders strictly below itself.
pub proof fn lemma_str_lt_irrefl(t: Seq<char>)
    ensures
        !str_lt(t, t),
{
    lemma_cmp_equal_iff(t, t);
}

/// Two strictly sorted string sequences with the same members are the
/// same sequence: sortedness leaves no freedom in the order, so
/// membership alone fixes every position.
pub proof fn lemma_sorted_str_seq_ext(a: Seq<Seq<char>>, b: Seq<Seq<char>>)
    requires
        forall|i: int, j: int| 0 <= i < j < a.len() ==> str_lt(a[i], a[j]),
        forall|i: int, j: int| 0 <= i < j < b.len() ==> str_lt(b[i], b[j]),
        forall|t: Seq<char>| a.contains(t) <==> b.contains(t),
    ensures
        a == b,
    decreases a.len(),
{
    if a.len() == 0 {
        if b.len() > 0 {
            assert(b.contains(b[0]));
            assert(a.contains(b[0]));
        }
        assert(a =~= b);
    } else {
        assert(a.contains(a[0]));
        assert(b.contains(a[0]));
        let j = choose|j: int| 0 <= j < b.len() && b[j] == a[0];
        assert(b.contains(b[0]));
        assert(a.contains(b[0]));
        let i = choose|i: int| 0 <= i < a.len() && a[i] == b[0];
        if j > 0 {
            assert(str_lt(b[0], a[0]));
            if i > 0 {
                assert(str_lt(a[0], b[0]));
                lemma_cmp_trans_less(b[0], a[0], b[0]);
                lemma_str_lt_irrefl(b[0]);
            }
        }
        assert(a[0] == b[0]);
        let at = a.skip(1);
        let bt = b.skip(1);
        assert forall|t: Seq<char>| at.contains(t) <==> bt.contains(t) by {
            if at.contains(t) {
                let k = choose|k: int| 0 <= k < at.len() && at[k] == t;
                assert(a[k + 1] == t);
                assert(str_lt(a[0], t));
                assert(b.contains(t));
                let l = choose|l: int| 0 <= l < b.len() && b[l] == t;
                if l == 0 {
                    lemma_str_lt_irrefl(t);
                }
                assert(bt[l - 1] == t);
            }
            if bt.contains(t) {
                let k = choose|k: int| 0 <= k < bt.len() && bt[k] == t;
                assert(b[k + 1] == t);
                assert(str_lt(b[0], t));
                assert(a.contains(t));
                let l = choose|l: int| 0 <= l < a.len() && a[l] == t;
                if l == 0 {
                    lemma_str_lt_irrefl(t);
                }
                assert(at[l - 1] == t);
            }
        }
        assert forall|i2: int, j2: int| 0 <= i2 < j2 < at.len() implies str_lt(
            at[i2],
            at[j2],
        ) by {
            assert(str_lt(a[i2 + 1], a[j2 + 1]));
        }
        assert forall|i2: int, j2: int| 0 <= i2 < j2 < bt.len() implies str_lt(
            bt[i2],
            bt[j2],
        ) by {
            assert(str_lt(b[i2 + 1], b[j2 + 1]));
        }
        lemma_sorted_str_seq_ext(at, bt);
        assert(a.len() == b.len());
        assert forall|k: int| 0 <= k < a.len() implies a[k] == b[k] by {
            if k > 0 {
                assert(a[k] == at[k - 1]);
                assert(b[k] == bt[k - 1]);
            }
        }
        assert(a =~= b);
    }
}

/// A set of strings kept sorted and duplicate-free, so that walking it
/// always yields the same, totally ordered sequence. Database fields use
/// it to make the serialized output byte-stable.
pub struct OrderedStrSet {
    pub items: Vec<String>,
}

impl View for OrderedStrSet {
    type V = Seq<Seq<char>>;

    open spec fn view(&self) -> Seq<Seq<char>> {
        self.items@.map_values(|s: String| s@)
    }
}

impl OrderedStrSet {
    /// The strings are strictly increasing; in particular no two are equal.
    pub open spec fn wf(&self) -> bool {
        forall|i: int, j: int| 0 <= i < j < self@.len() ==> str_lt(self@[i], self@[j])
    }

    pub open spec fn contains_str(&self, s: Seq<char>) -> bool {
        self@.contains(s)
    }

    pub fn new() -> (r: Self)
        ensures
            r.wf(),
            r@ == Seq::<Seq<char>>::empty(),
    {
        let r = OrderedStrSet { items: Vec::new() };
        proof {
            assert(r@ =~= Seq::<Seq<char>>::empty());
        }
        r
    }

    pub fn len(&self) -> (n: usize)
        ensures
            n == self@.len(),
    {
        self.items.len()
    }

    pub fn get(&self, i: usize) -> (s: &String)
        requires
            i < self@.len(),
        ensures
            s@ == self@[i as int],
    {
        &self.items[i]
    }

    /// Inserts `s`; the set afterwards holds the old strings and `s`.
    pub fn insert(&mut self, s: String)
        requires
            old(self).wf(),
        ensures
            final(self).wf(),
            final(self)@.len() <= old(self)@.len() + 1,
            final(self).contains_str(s@),
            forall|t: Seq<char>| old(self).contains_str(t) ==> final(self).contains_str(t),
            forall|t: Seq<char>|
                final(self).contains_str(t) ==> old(self).contains_str(t) || t == s@,
    {
        let n = self.items.len();
        let mut pos: usize = 0;
        while pos < n && string_cmp(&self.items[pos], &s) == CmpResult::Less
            invariant
                pos <= n,
                n == self@.len(),
                *self == *old(self),
                forall|k: int| 0 <= k < pos ==> str_lt(self@[k], s@),
            decreases n - pos,
        {
            pos = pos + 1;
        }
        if pos < n && string_cmp(&self.items[pos], &s) == CmpResult::Equal {
            proof {
                lemma_cmp_equal_iff(self@[pos as int], s@);
                assert(self@[pos as int] == s@);
                assert(self.contains_str(s@));
                assert(*self == *old(self));
                assert(forall|t: Seq<char>|
                    old(self).contains_str(t) ==> self.contains_str(t));
                assert(forall|t: Seq<char>|
                    self.contains_str(t) ==> old(self).contains_str(t) || t == s@);
            }
        } else {
            proof {
                if pos < self@.len() {
                    lemma_cmp_equal_iff(self@[pos as int], s@);
                    lemma_cmp_flip(self@[pos as int], s@);
                    assert(str_lt(s@, self@[pos as int]));
                }
            }
            let ghost oldview = self@;
            self.items.insert(pos, s);
            proof {
                assert(self@ =~= oldview.insert(pos as int, s@));
                assert forall|i: int, j: int| 0 <= i < j < self@.len() implies str_lt(
                    self@[i],
                    self@[j],
                ) by {
                    if j < pos {
                    } else if i < pos && j == pos {
                        assert(str_lt(oldview[i], s@));
                    } else if i < pos && j > pos {
                        assert(str_lt(oldview[i], oldview[j - 1]));
                    } else if i == pos {
                        assert(str_lt(s@, oldview[pos as int]));
                        if j - 1 > pos {
                            assert(str_lt(oldview[pos as int], oldview[j - 1]));
                            lemma_cmp_trans_less(s@, oldview[pos as int], oldview[j - 1]);
                        }
                        assert(str_lt(s@, oldview[j - 1]));
                    } else {
                        assert(str_lt(oldview[i - 1], oldview[j - 1]));
                    }
                }
                assert(oldview == old(self)@);
                assert(self@[pos as int] == s@);
                assert(self.contains_str(s@));
                assert forall|t: Seq<char>|
                    old(self).contains_str(t) implies self.contains_str(t) by {
                    let k = choose|k: int| 0 <= k < oldview.len() && oldview[k] == t;
                    if k < pos {
                        assert(self@[k] == t);
                    } else {
                        assert(self@[k + 1] == t);
                    }
                }
                assert forall|t: Seq<char>|
                    self.contains_str(t) implies old(self).contains_str(t) || t == s@ by {
                    let k = choose|k: int| 0 <= k < self@.len() && self@[k] == t;
                    if k < pos {
                        assert(oldview[k] == t);
                    } else if k == pos {
                        assert(t == s@);
                    } else {
                        assert(oldview[k - 1] == t);
                    }
                }
            }
        }
    }

    /// Two well-formed sets with the same members walk as the same
    /// sequence: the order of construction cannot change what a reader
    /// of the set sees.
    pub proof fn lemma_same_members_same_view(a: &OrderedStrSet, b: &OrderedStrSet)
        requires
            a.wf(),
            b.wf(),
            forall|t: Seq<char>| a.contains_str(t) <==> b.contains_str(t),
        ensures
            a@ == b@,
    {
        assert forall|t: Seq<char>| a@.contains(t) <==> b@.contains(t) by {
            assert(a.contains_str(t) <==> b.contains_str(t));
        }
        lemma_sorted_str_seq_ext(a@, b@);
    }

    /// Builds the set of all strings in `v`.
    pub fn from_vec(v: Vec<String>) -> (r: Self)
        ensures
            r.wf(),
            forall|t: Seq<char>|
                r.contains_str(t) <==> v@.map_values(|s: String| s@).contains(t),
    {
        let mut r = OrderedStrSet::new();
        let mut v = v;
        let n = v.len();
        let ghost allstrs = v@.map_values(|s: String| s@);
        // Consume from the back so that each string is moved, not cloned.
        let mut i: usize = n;
        while i > 0
            invariant
                i <= n,
                n == allstrs.len(),
                v@.len() == i,
                r.wf(),
                v@.map_values(|s: String| s@) == allstrs.subrange(0, i as int),
                forall|t: Seq<char>|
                    r.contains_str(t) <==> allstrs.skip(i as int).contains(t),
            decreases i,
        {
            let ghost prefix = v@.map_values(|s: String| s@);
            let s = v.pop().unwrap();
            proof {
                assert(prefix[i - 1] == s@);
                assert(s@ == allstrs[i - 1]);
                assert(v@.map_values(|s: String| s@) =~= allstrs.subrange(0, i - 1));
            }
            r.insert(s);
            proof {
                let ghost rest1 = allstrs.skip(i - 1);
                let ghost rest0 = allstrs.skip(i as int);
                assert forall|t: Seq<char>| r.contains_str(t) <==> rest1.contains(t) by {
                    assert(rest1[0] == allstrs[i - 1]);
                    if rest1.contains(t) {
                        let k = choose|k: int| 0 <= k < rest1.len() && rest1[k] == t;
                        if k == 0 {
                        } else {
                            assert(rest0[k - 1] == t);
                        }
                    }
                    if r.contains_str(t) {
                        if t == s@ {
                        } else {
                            assert(rest0.contains(t));
                            let k = choose|k: int| 0 <= k < rest0.len() && rest0[k] == t;
                            assert(rest1[k + 1] == t);
                        }
                    }
                }
            }
            i = i - 1;
        }
        proof {
            assert(allstrs.skip(0) =~= allstrs);
        }
        r
    }
}

} // verus!
