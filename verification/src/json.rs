use vstd::prelude::*;

use crate::text::{cmp_chars, lemma_cmp_equal_iff, lemma_cmp_flip, lemma_cmp_trans_less, str_lt,
    str_eq, string_cmp, CmpResult};

verus! {

/// An untyped JSON tree. The remote index is heterogeneous, so records
/// are carried as such trees and narrow typed views are read out of
/// them on demand. Object entries are kept sorted by key and
/// duplicate-free, the order a sorted map gives them.
#[derive(Debug)]
pub enum JsonValue {
    Null,
    Bool(bool),
    UInt(u64),
    Int(i64),
    Str(String),
    Array(Vec<JsonValue>),
    Object(Vec<(String, JsonValue)>),
}

/// The mathematical shape of a JSON tree.
pub enum JsonView {
    Null,
    Bool(bool),
    UInt(u64),
    Int(i64),
    Str(Seq<char>),
    Array(Seq<JsonView>),
    Object(Seq<(Seq<char>, JsonView)>),
}

pub open spec fn json_view(v: JsonValue) -> JsonView
    decreases v, 1int, 0int,
{
    match v {
        JsonValue::Null => JsonView::Null,
        JsonValue::Bool(b) => JsonView::Bool(b),
        JsonValue::UInt(n) => JsonView::UInt(n),
        JsonValue::Int(n) => JsonView::Int(n),
        JsonValue::Str(s) => JsonView::Str(s@),
        JsonValue::Array(items) => JsonView::Array(json_view_arr(v, 0)),
        JsonValue::Object(entries) => JsonView::Object(json_view_obj(v, 0)),
    }
}

pub open spec fn json_view_arr(v: JsonValue, i: int) -> Seq<JsonView>
    decreases v,
        0int,
        (match v {
            JsonValue::Array(items) => items@.len() - i,
            _ => 0,
        }),
{
    match v {
        JsonValue::Array(items) => {
            if 0 <= i < items@.len() {
                seq![json_view(items@[i])] + json_view_arr(v, i + 1)
            } else {
                Seq::empty()
            }
        },
        _ => Seq::empty(),
    }
}

pub open spec fn json_view_obj(v: JsonValue, i: int) -> Seq<(Seq<char>, JsonView)>
    decreases v,
        0int,
        (match v {
            JsonValue::Object(entries) => entries@.len() - i,
            _ => 0,
        }),
{
    match v {
        JsonValue::Object(entries) => {
            if 0 <= i < entries@.len() {
                seq![(entries@[i].0@, json_view(entries@[i].1))] + json_view_obj(v, i + 1)
            } else {
                Seq::empty()
            }
        },
        _ => Seq::empty(),
    }
}

impl View for JsonValue {
    type V = JsonView;

    open spec fn view(&self) -> JsonView {
        json_view(*self)
    }
}

/// The element views of an array value, indexed.
pub proof fn lemma_json_view_arr(v: JsonValue, i: int)
    requires
        v is Array,
        0 <= i <= v->Array_0@.len(),
    ensures
        json_view_arr(v, i).len() == v->Array_0@.len() - i,
        forall|j: int|
            0 <= j < json_view_arr(v, i).len() ==> json_view_arr(v, i)[j] == json_view(
                v->Array_0@[i + j],
            ),
    decreases v->Array_0@.len() - i,
{
    if i < v->Array_0@.len() {
        lemma_json_view_arr(v, i + 1);
        assert forall|j: int| 0 <= j < json_view_arr(v, i).len() implies json_view_arr(v, i)[j]
            == json_view(v->Array_0@[i + j]) by {
            if j > 0 {
                assert(json_view_arr(v, i)[j] == json_view_arr(v, i + 1)[j - 1]);
            }
        }
    }
}

/// The entry views of an object value, indexed.
pub proof fn lemma_json_view_obj(v: JsonValue, i: int)
    requires
        v is Object,
        0 <= i <= v->Object_0@.len(),
    ensures
        json_view_obj(v, i).len() == v->Object_0@.len() - i,
        forall|j: int|
            0 <= j < json_view_obj(v, i).len() ==> json_view_obj(v, i)[j] == (
                v->Object_0@[i + j].0@,
                json_view(v->Object_0@[i + j].1),
            ),
    decreases v->Object_0@.len() - i,
{
    if i < v->Object_0@.len() {
        lemma_json_view_obj(v, i + 1);
        assert forall|j: int| 0 <= j < json_view_obj(v, i).len() implies json_view_obj(v, i)[j]
            == (v->Object_0@[i + j].0@, json_view(v->Object_0@[i + j].1)) by {
            if j > 0 {
                assert(json_view_obj(v, i)[j] == json_view_obj(v, i + 1)[j - 1]);
            }
        }
    }
}

/// Keys of an object-entry sequence are strictly increasing.
pub open spec fn obj_sorted(ents: Seq<(Seq<char>, JsonView)>) -> bool {
    forall|i: int, j: int| 0 <= i < j < ents.len() ==> str_lt(ents[i].0, ents[j].0)
}

/// Every object in the tree is sorted and duplicate-free.
pub open spec fn view_wf(v: JsonView) -> bool
    decreases v, 1int, 0int,
{
    match v {
        JsonView::Array(items) => view_wf_arr(v, 0),
        JsonView::Object(ents) => obj_sorted(ents) && view_wf_obj(v, 0),
        _ => true,
    }
}

pub open spec fn view_wf_arr(v: JsonView, i: int) -> bool
    decreases v,
        0int,
        (match v {
            JsonView::Array(items) => items.len() - i,
            _ => 0,
        }),
{
    match v {
        JsonView::Array(items) => {
            if 0 <= i < items.len() {
                view_wf(items[i]) && view_wf_arr(v, i + 1)
            } else {
                true
            }
        },
        _ => true,
    }
}

pub open spec fn view_wf_obj(v: JsonView, i: int) -> bool
    decreases v,
        0int,
        (match v {
            JsonView::Object(ents) => ents.len() - i,
            _ => 0,
        }),
{
    match v {
        JsonView::Object(ents) => {
            if 0 <= i < ents.len() {
                view_wf(ents[i].1) && view_wf_obj(v, i + 1)
            } else {
                true
            }
        },
        _ => true,
    }
}

/// In a well-formed array every element is well-formed.
pub proof fn lemma_wf_arr_elements(v: JsonView)
    requires
        v is Array,
        view_wf(v),
    ensures
        forall|j: int| 0 <= j < v->Array_0.len() ==> view_wf(#[trigger] v->Array_0[j]),
{
    assert forall|j: int| 0 <= j < v->Array_0.len() implies view_wf(#[trigger] v->Array_0[j]) by {
        lemma_wf_arr_prefix(v, 0, j);
    }
}

proof fn lemma_wf_arr_prefix(v: JsonView, i: int, j: int)
    requires
        v is Array,
        view_wf_arr(v, i),
        0 <= i <= j < v->Array_0.len(),
    ensures
        view_wf(v->Array_0[j]),
    decreases j - i,
{
    if i < j {
        lemma_wf_arr_prefix(v, i + 1, j);
    }
}

/// In a well-formed object every value is well-formed.
pub proof fn lemma_wf_obj_elements(v: JsonView)
    requires
        v is Object,
        view_wf(v),
    ensures
        forall|j: int| 0 <= j < v->Object_0.len() ==> view_wf(#[trigger] v->Object_0[j].1),
{
    assert forall|j: int| 0 <= j < v->Object_0.len() implies view_wf(
        #[trigger] v->Object_0[j].1,
    ) by {
        lemma_wf_obj_prefix(v, 0, j);
    }
}

proof fn lemma_wf_obj_prefix(v: JsonView, i: int, j: int)
    requires
        v is Object,
        view_wf_obj(v, i),
        0 <= i <= j < v->Object_0.len(),
    ensures
        view_wf(v->Object_0[j].1),
    decreases j - i,
{
    if i < j {
        lemma_wf_obj_prefix(v, i + 1, j);
    }
}

// ---------------------------------------------------------------------
// Object lookup.
// ---------------------------------------------------------------------

pub open spec fn obj_contains_key(ents: Seq<(Seq<char>, JsonView)>, k: Seq<char>) -> bool {
    exists|i: int| 0 <= i < ents.len() && ents[i].0 == k
}

pub open spec fn obj_key_at(ents: Seq<(Seq<char>, JsonView)>, k: Seq<char>) -> int {
    choose|i: int| 0 <= i < ents.len() && ents[i].0 == k
}

/// The value an object binds to `k`, if any.
pub open spec fn obj_get(ents: Seq<(Seq<char>, JsonView)>, k: Seq<char>) -> Option<JsonView> {
    if obj_contains_key(ents, k) {
        Some(ents[obj_key_at(ents, k)].1)
    } else {
        None
    }
}

/// In a sorted entry sequence the entry at `i` is what lookup of its
/// key finds.
pub proof fn lemma_obj_get_at(ents: Seq<(Seq<char>, JsonView)>, i: int)
    requires
        obj_sorted(ents),
        0 <= i < ents.len(),
    ensures
        obj_get(ents, ents[i].0) == Some(ents[i].1),
{
    assert(obj_contains_key(ents, ents[i].0));
    let j = obj_key_at(ents, ents[i].0);
    if j < i {
        lemma_cmp_equal_iff(ents[j].0, ents[i].0);
        assert(str_lt(ents[j].0, ents[i].0));
    } else if i < j {
        lemma_cmp_equal_iff(ents[i].0, ents[j].0);
        assert(str_lt(ents[i].0, ents[j].0));
    }
}

/// Lookup on any value: what an object binds to `k`; nothing on every
/// other kind of value.
pub open spec fn jget(v: JsonView, k: Seq<char>) -> Option<JsonView> {
    match v {
        JsonView::Object(ents) => obj_get(ents, k),
        _ => None,
    }
}

impl JsonValue {
    /// Looks `key` up in an object; `None` on any other kind of value.
    pub fn get<'a>(&'a self, key: &str) -> (r: Option<&'a JsonValue>)
        requires
            view_wf(self@),
        ensures
            match r {
                Some(v) => view_wf(v@) && jget(self@, key@) == Some(v@),
                None => jget(self@, key@) is None,
            },
    {
        match self {
            JsonValue::Object(entries) => {
                proof {
                    lemma_json_view_obj(*self, 0);
                }
                let ghost ents = self@->Object_0;
                let n = entries.len();
                let mut i: usize = 0;
                while i < n
                    invariant
                        i <= n,
                        n == entries@.len(),
                        self is Object,
                        entries@ == self->Object_0@,
                        view_wf(self@),
                        self@ is Object,
                        ents == self@->Object_0,
                        ents.len() == n,
                        forall|j: int|
                            0 <= j < ents.len() ==> ents[j] == (
                                entries@[j].0@,
                                json_view(entries@[j].1),
                            ),
                        forall|j: int| 0 <= j < i ==> ents[j].0 != key@,
                    decreases n - i,
                {
                    if str_eq(entries[i].0.as_str(), key) {
                        proof {
                            lemma_obj_get_at(ents, i as int);
                            lemma_wf_obj_elements(self@);
                        }
                        return Some(&entries[i].1);
                    }
                    i = i + 1;
                }
                proof {
                    if obj_contains_key(ents, key@) {
                        let j = obj_key_at(ents, key@);
                    }
                }
                None
            },
            _ => None,
        }
    }
}

// ---------------------------------------------------------------------
// Deep merge: recursive override on object-typed keys, last writer wins
// on everything else.
// ---------------------------------------------------------------------

/// The deep merge of `a` and `b`: two objects merge key by key, with
/// values of keys in both merged recursively; any other pair is
/// replaced by `b` wholesale.
pub open spec fn spec_merged(a: JsonView, b: JsonView) -> JsonView
    decreases b, 1int, 0int, 0int,
{
    if (a is Object) && (b is Object) {
        JsonView::Object(spec_merged_entries(a->Object_0, b, 0, 0))
    } else {
        b
    }
}

/// The sorted union of the entry tails `aents[ai..]` and `b`'s entries
/// from `bi` on; a key in both carries the merge of its two values.
pub open spec fn spec_merged_entries(
    aents: Seq<(Seq<char>, JsonView)>,
    b: JsonView,
    ai: int,
    bi: int,
) -> Seq<(Seq<char>, JsonView)>
    decreases b,
        0int,
        (match b {
            JsonView::Object(bents) => bents.len() - bi,
            _ => 0,
        }),
        (aents.len() - ai),
{
    match b {
        JsonView::Object(bents) => {
            if ai < 0 || bi < 0 {
                Seq::empty()
            } else if bi >= bents.len() {
                if ai <= aents.len() {
                    aents.skip(ai)
                } else {
                    Seq::empty()
                }
            } else if ai >= aents.len() {
                seq![bents[bi]] + spec_merged_entries(aents, b, ai, bi + 1)
            } else {
                match cmp_chars(aents[ai].0, bents[bi].0) {
                    CmpResult::Less => seq![aents[ai]] + spec_merged_entries(aents, b, ai + 1, bi),
                    CmpResult::Greater => seq![bents[bi]] + spec_merged_entries(
                        aents,
                        b,
                        ai,
                        bi + 1,
                    ),
                    CmpResult::Equal => seq![
                        (aents[ai].0, spec_merged(aents[ai].1, bents[bi].1)),
                    ] + spec_merged_entries(aents, b, ai + 1, bi + 1),
                }
            }
        },
        _ => Seq::empty(),
    }
}

/// Merging preserves well-formedness.
pub proof fn lemma_merged_wf(a: JsonView, b: JsonView)
    requires
        view_wf(a),
        view_wf(b),
    ensures
        view_wf(spec_merged(a, b)),
    decreases b, 1int, 0int, 0int,
{
    if (a is Object) && (b is Object) {
        lemma_wf_obj_elements(a);
        lemma_wf_obj_elements(b);
        lemma_merged_entries_sorted(a->Object_0, b, 0, 0);
        let out = spec_merged_entries(a->Object_0, b, 0, 0);
        let r = JsonView::Object(out);
        lemma_wf_obj_build(r, 0);
    }
}

proof fn lemma_wf_obj_build(v: JsonView, i: int)
    requires
        v is Object,
        0 <= i <= v->Object_0.len(),
        forall|j: int| 0 <= j < v->Object_0.len() ==> view_wf(#[trigger] v->Object_0[j].1),
    ensures
        view_wf_obj(v, i),
    decreases v->Object_0.len() - i,
{
    if i < v->Object_0.len() {
        lemma_wf_obj_build(v, i + 1);
    }
}

/// The merged entry run is sorted, its head key is one of the two head
/// keys it was built from, and all of its values are well-formed.
proof fn lemma_merged_entries_sorted(
    aents: Seq<(Seq<char>, JsonView)>,
    b: JsonView,
    ai: int,
    bi: int,
)
    requires
        b is Object,
        0 <= ai <= aents.len(),
        0 <= bi <= b->Object_0.len(),
        obj_sorted(aents),
        obj_sorted(b->Object_0),
        view_wf(b),
        forall|j: int| 0 <= j < aents.len() ==> view_wf(#[trigger] aents[j].1),
    ensures
        obj_sorted(spec_merged_entries(aents, b, ai, bi)),
        forall|m: int|
            0 <= m < spec_merged_entries(aents, b, ai, bi).len() ==> view_wf(
                #[trigger] spec_merged_entries(aents, b, ai, bi)[m].1,
            ),
        spec_merged_entries(aents, b, ai, bi).len() > 0 ==> ((ai < aents.len()
            && spec_merged_entries(aents, b, ai, bi)[0].0 == aents[ai].0) || (bi
            < b->Object_0.len() && spec_merged_entries(aents, b, ai, bi)[0].0
            == b->Object_0[bi].0)),
    decreases b,
        0int,
        (b->Object_0.len() - bi),
        (aents.len() - ai),
{
    let bents = b->Object_0;
    let out = spec_merged_entries(aents, b, ai, bi);
    lemma_wf_obj_elements(b);
    if bi >= bents.len() {
        assert forall|m: int| 0 <= m < out.len() implies view_wf(#[trigger] out[m].1) by {
            assert(out[m] == aents[ai + m]);
        }
        assert forall|i: int, j: int| 0 <= i < j < out.len() implies str_lt(
            out[i].0,
            out[j].0,
        ) by {
            assert(out[i] == aents[ai + i]);
            assert(out[j] == aents[ai + j]);
        }
    } else if ai >= aents.len() {
        lemma_merged_entries_sorted(aents, b, ai, bi + 1);
        let h = bents[bi];
        let rest = spec_merged_entries(aents, b, ai, bi + 1);
        lemma_head_cons(h, rest, out);
        if rest.len() > 0 {
            assert(str_lt(h.0, rest[0].0));
            lemma_all_above(h.0, rest);
        }
        lemma_sorted_cons(h, rest, out);
    } else {
        let ak = aents[ai].0;
        let bk = bents[bi].0;
        match cmp_chars(ak, bk) {
            CmpResult::Less => {
                lemma_merged_entries_sorted(aents, b, ai + 1, bi);
                let h = aents[ai];
                let rest = spec_merged_entries(aents, b, ai + 1, bi);
                lemma_head_cons(h, rest, out);
                if rest.len() > 0 {
                    assert(str_lt(h.0, rest[0].0));
                    lemma_all_above(h.0, rest);
                }
                lemma_sorted_cons(h, rest, out);
            },
            CmpResult::Greater => {
                lemma_merged_entries_sorted(aents, b, ai, bi + 1);
                let h = bents[bi];
                let rest = spec_merged_entries(aents, b, ai, bi + 1);
                lemma_head_cons(h, rest, out);
                lemma_cmp_flip(ak, bk);
                if rest.len() > 0 {
                    assert(str_lt(h.0, rest[0].0));
                    lemma_all_above(h.0, rest);
                }
                lemma_sorted_cons(h, rest, out);
            },
            CmpResult::Equal => {
                lemma_merged_entries_sorted(aents, b, ai + 1, bi + 1);
                lemma_cmp_equal_iff(ak, bk);
                lemma_merged_wf(aents[ai].1, bents[bi].1);
                let h = (ak, spec_merged(aents[ai].1, bents[bi].1));
                let rest = spec_merged_entries(aents, b, ai + 1, bi + 1);
                lemma_head_cons(h, rest, out);
                if rest.len() > 0 {
                    assert(str_lt(h.0, rest[0].0));
                    lemma_all_above(h.0, rest);
                }
                lemma_sorted_cons(h, rest, out);
            },
        }
    }
}

/// `out == seq![h] + rest` gives the indexing facts of a cons.
proof fn lemma_head_cons(
    h: (Seq<char>, JsonView),
    rest: Seq<(Seq<char>, JsonView)>,
    out: Seq<(Seq<char>, JsonView)>,
)
    requires
        out == seq![h] + rest,
    ensures
        out.len() == rest.len() + 1,
        out[0] == h,
        forall|m: int| 0 <= m < rest.len() ==> out[m + 1] == rest[m],
{
    assert forall|m: int| 0 <= m < rest.len() implies out[m + 1] == rest[m] by {
        assert(out[m + 1] == (seq![h] + rest)[m + 1]);
    }
}

/// A key below a sorted run's head is below every key of the run.
proof fn lemma_all_above(k: Seq<char>, rest: Seq<(Seq<char>, JsonView)>)
    requires
        obj_sorted(rest),
        rest.len() > 0,
        str_lt(k, rest[0].0),
    ensures
        forall|m: int| 0 <= m < rest.len() ==> str_lt(k, #[trigger] rest[m].0),
{
    assert forall|m: int| 0 <= m < rest.len() implies str_lt(k, #[trigger] rest[m].0) by {
        if m > 0 {
            assert(str_lt(rest[0].0, rest[m].0));
            lemma_cmp_trans_less(k, rest[0].0, rest[m].0);
        }
    }
}

/// Consing a head below a sorted run keeps the run sorted and
/// well-formed.
proof fn lemma_sorted_cons(
    h: (Seq<char>, JsonView),
    rest: Seq<(Seq<char>, JsonView)>,
    out: Seq<(Seq<char>, JsonView)>,
)
    requires
        out == seq![h] + rest,
        obj_sorted(rest),
        view_wf(h.1),
        forall|m: int| 0 <= m < rest.len() ==> view_wf(#[trigger] rest[m].1),
        forall|m: int| 0 <= m < rest.len() ==> str_lt(h.0, #[trigger] rest[m].0),
    ensures
        obj_sorted(out),
        forall|m: int| 0 <= m < out.len() ==> view_wf(#[trigger] out[m].1),
{
    lemma_head_cons(h, rest, out);
    assert forall|i: int, j: int| 0 <= i < j < out.len() implies str_lt(out[i].0, out[j].0) by {
        if i == 0 {
            assert(out[j] == rest[j - 1]);
        } else {
            assert(out[i] == rest[i - 1]);
            assert(out[j] == rest[j - 1]);
        }
    }
    assert forall|m: int| 0 <= m < out.len() implies view_wf(#[trigger] out[m].1) by {
        if m > 0 {
            assert(out[m] == rest[m - 1]);
        }
    }
}

/// The deep merge of two JSON trees, built entry by entry.
pub fn merged_json(a: &JsonValue, b: &JsonValue) -> (r: JsonValue)
    ensures
        r@ == spec_merged(a@, b@),
    decreases b,
{
    match (a, b) {
        (JsonValue::Object(aentries), JsonValue::Object(bentries)) => {
            proof {
                lemma_json_view_obj(*a, 0);
                lemma_json_view_obj(*b, 0);
            }
            let ghost ae = a@->Object_0;
            let ghost bview = b@;
            let an = aentries.len();
            let bn = bentries.len();
            let mut out: Vec<(String, JsonValue)> = Vec::new();
            let mut ai: usize = 0;
            let mut bi: usize = 0;
            proof {
                assert(out@.map_values(|p: (String, JsonValue)| (p.0@, p.1@)) =~= Seq::<
                    (Seq<char>, JsonView),
                >::empty());
            }
            while ai < an || bi < bn
                invariant
                    ai <= an,
                    bi <= bn,
                    an == aentries@.len(),
                    bn == bentries@.len(),
                    a is Object,
                    b is Object,
                    aentries@ == a->Object_0@,
                    bentries@ == b->Object_0@,
                    a@ is Object,
                    bview == b@,
                    bview is Object,
                    ae == a@->Object_0,
                    ae.len() == an,
                    bview->Object_0.len() == bn,
                    forall|j: int|
                        0 <= j < an ==> ae[j] == (aentries@[j].0@, json_view(aentries@[j].1)),
                    forall|j: int|
                        0 <= j < bn ==> bview->Object_0[j] == (
                            bentries@[j].0@,
                            json_view(bentries@[j].1),
                        ),
                    out@.map_values(|p: (String, JsonValue)| (p.0@, p.1@)) + spec_merged_entries(
                        ae,
                        bview,
                        ai as int,
                        bi as int,
                    ) == spec_merged_entries(ae, bview, 0, 0),
                decreases (an - ai) + (bn - bi),
            {
                let ghost outv = out@.map_values(|p: (String, JsonValue)| (p.0@, p.1@));
                let ghost cur = spec_merged_entries(ae, bview, ai as int, bi as int);
                if bi >= bn {
                    let k = aentries[ai].0.clone();
                    let v = deep_clone_json(&aentries[ai].1);
                    out.push((k, v));
                    proof {
                        assert(cur == ae.skip(ai as int));
                        assert(ae.skip(ai as int) =~= seq![ae[ai as int]] + ae.skip(ai + 1));
                        assert(spec_merged_entries(ae, bview, ai + 1, bi as int) == ae.skip(
                            ai + 1,
                        ));
                        assert(out@.map_values(|p: (String, JsonValue)| (p.0@, p.1@)) =~= outv
                            + seq![ae[ai as int]]);
                        assert(out@.map_values(|p: (String, JsonValue)| (p.0@, p.1@))
                            + spec_merged_entries(ae, bview, ai + 1, bi as int)
                            =~= spec_merged_entries(ae, bview, 0, 0));
                    }
                    ai = ai + 1;
                } else if ai >= an {
                    let k = bentries[bi].0.clone();
                    let v = deep_clone_json(&bentries[bi].1);
                    out.push((k, v));
                    proof {
                        assert(cur == seq![bview->Object_0[bi as int]] + spec_merged_entries(
                            ae,
                            bview,
                            ai as int,
                            bi + 1,
                        ));
                        assert(out@.map_values(|p: (String, JsonValue)| (p.0@, p.1@)) =~= outv
                            + seq![bview->Object_0[bi as int]]);
                        assert(out@.map_values(|p: (String, JsonValue)| (p.0@, p.1@))
                            + spec_merged_entries(ae, bview, ai as int, bi + 1)
                            =~= spec_merged_entries(ae, bview, 0, 0));
                    }
                    bi = bi + 1;
                } else {
                    let c = string_cmp(&aentries[ai].0, &bentries[bi].0);
                    match c {
                        CmpResult::Less => {
                            let k = aentries[ai].0.clone();
                            let v = deep_clone_json(&aentries[ai].1);
                            out.push((k, v));
                            proof {
                                assert(cur == seq![ae[ai as int]] + spec_merged_entries(
                                    ae,
                                    bview,
                                    ai + 1,
                                    bi as int,
                                ));
                                assert(out@.map_values(|p: (String, JsonValue)| (p.0@, p.1@))
                                    =~= outv + seq![ae[ai as int]]);
                                assert(out@.map_values(|p: (String, JsonValue)| (p.0@, p.1@))
                                    + spec_merged_entries(ae, bview, ai + 1, bi as int)
                                    =~= spec_merged_entries(ae, bview, 0, 0));
                            }
                            ai = ai + 1;
                        },
                        CmpResult::Greater => {
                            let k = bentries[bi].0.clone();
                            let v = deep_clone_json(&bentries[bi].1);
                            out.push((k, v));
                            proof {
                                assert(cur == seq![bview->Object_0[bi as int]]
                                    + spec_merged_entries(ae, bview, ai as int, bi + 1));
                                assert(out@.map_values(|p: (String, JsonValue)| (p.0@, p.1@))
                                    =~= outv + seq![bview->Object_0[bi as int]]);
                                assert(out@.map_values(|p: (String, JsonValue)| (p.0@, p.1@))
                                    + spec_merged_entries(ae, bview, ai as int, bi + 1)
                                    =~= spec_merged_entries(ae, bview, 0, 0));
                            }
                            bi = bi + 1;
                        },
                        CmpResult::Equal => {
                            let k = aentries[ai].0.clone();
                            let v = merged_json(&aentries[ai].1, &bentries[bi].1);
                            out.push((k, v));
                            proof {
                                assert(cur == seq![
                                    (
                                        ae[ai as int].0,
                                        spec_merged(
                                            ae[ai as int].1,
                                            bview->Object_0[bi as int].1,
                                        ),
                                    ),
                                ] + spec_merged_entries(ae, bview, ai + 1, bi + 1));
                                assert(out@.map_values(|p: (String, JsonValue)| (p.0@, p.1@))
                                    =~= outv + seq![
                                    (
                                        ae[ai as int].0,
                                        spec_merged(
                                            ae[ai as int].1,
                                            bview->Object_0[bi as int].1,
                                        ),
                                    ),
                                ]);
                                assert(out@.map_values(|p: (String, JsonValue)| (p.0@, p.1@))
                                    + spec_merged_entries(ae, bview, ai + 1, bi + 1)
                                    =~= spec_merged_entries(ae, bview, 0, 0));
                            }
                            ai = ai + 1;
                            bi = bi + 1;
                        },
                    }
                }
            }
            let r = JsonValue::Object(out);
            proof {
                assert(spec_merged_entries(ae, bview, an as int, bn as int) =~= Seq::<
                    (Seq<char>, JsonView),
                >::empty());
                assert(r@->Object_0 =~= json_view_obj(r, 0));
                lemma_json_view_obj(r, 0);
                assert(json_view_obj(r, 0) =~= r->Object_0@.map_values(
                    |p: (String, JsonValue)| (p.0@, p.1@),
                ));
                assert(r@ == spec_merged(a@, b@));
            }
            r
        },
        _ => {
            let r = deep_clone_json(b);
            proof {
                assert(!(a@ is Object && b@ is Object));
            }
            r
        },
    }
}

/// Deep-merges `b` into `a` in place. When both trees are well-formed
/// the merged tree is well-formed too.
pub fn merge_json_values(a: &mut JsonValue, b: &JsonValue)
    ensures
        final(a)@ == spec_merged(old(a)@, b@),
        view_wf(old(a)@) && view_wf(b@) ==> view_wf(final(a)@),
{
    let r = merged_json(&*a, b);
    proof {
        if view_wf(a@) && view_wf(b@) {
            lemma_merged_wf(a@, b@);
        }
    }
    *a = r;
}

/// Structurally copies a JSON tree.
pub fn deep_clone_json(v: &JsonValue) -> (r: JsonValue)
    ensures
        r@ == v@,
    decreases v,
{
    match v {
        JsonValue::Null => JsonValue::Null,
        JsonValue::Bool(b) => JsonValue::Bool(*b),
        JsonValue::UInt(n) => JsonValue::UInt(*n),
        JsonValue::Int(n) => JsonValue::Int(*n),
        JsonValue::Str(s) => JsonValue::Str(s.clone()),
        JsonValue::Array(items) => {
            let n = items.len();
            let mut out: Vec<JsonValue> = Vec::new();
            let mut i: usize = 0;
            while i < n
                invariant
                    i <= n,
                    n == items@.len(),
                    v is Array,
                    items@ == v->Array_0@,
                    out@.len() == i as int,
                    forall|j: int| 0 <= j < i ==> out@[j]@ == json_view(items@[j]),
                decreases n - i,
            {
                let c = deep_clone_json(&items[i]);
                out.push(c);
                i = i + 1;
            }
            let r = JsonValue::Array(out);
            proof {
                lemma_json_view_arr(r, 0);
                lemma_json_view_arr(*v, 0);
                assert(json_view_arr(r, 0) =~= json_view_arr(*v, 0));
            }
            r
        },
        JsonValue::Object(entries) => {
            let n = entries.len();
            let mut out: Vec<(String, JsonValue)> = Vec::new();
            let mut i: usize = 0;
            while i < n
                invariant
                    i <= n,
                    n == entries@.len(),
                    v is Object,
                    entries@ == v->Object_0@,
                    out@.len() == i as int,
                    forall|j: int|
                        0 <= j < i ==> out@[j].0@ == entries@[j].0@ && out@[j].1@ == json_view(
                            entries@[j].1,
                        ),
                decreases n - i,
            {
                let k = entries[i].0.clone();
                let c = deep_clone_json(&entries[i].1);
                out.push((k, c));
                i = i + 1;
            }
            let r = JsonValue::Object(out);
            proof {
                lemma_json_view_obj(r, 0);
                lemma_json_view_obj(*v, 0);
                assert(json_view_obj(r, 0) =~= json_view_obj(*v, 0));
            }
            r
        },
    }
}

} // verus!
