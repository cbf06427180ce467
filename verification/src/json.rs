//! The library's model of a JSON document, with objects kept in insertion order.
//!
//! Objects behave as an insertion-ordered map: inserting an existing key replaces its
//! value in place, inserting a new key appends it, and removing a key moves the last
//! entry into the removed slot.
use vstd::prelude::*;
use crate::text::{decimal, push_str, str_eq, u64_to_decimal};
use crate::trusted::{json_quote, json_string_literal};

verus! {

/// A JSON number: an integer, or the decimal text of a non-integer.
#[derive(Debug)]
pub enum JsonNumber {
    PosInt(u64),
    NegInt(i64),
    Float(String),
}

/// A JSON value.
#[derive(Debug)]
pub enum Json {
    Null,
    Bool(bool),
    Number(JsonNumber),
    Str(String),
    Array(Vec<Json>),
    Object(Vec<(String, Json)>),
}

/// The mathematical content of a `JsonNumber`.
pub enum NumV {
    PosInt(u64),
    NegInt(i64),
    Float(Seq<char>),
}

/// The mathematical content of a `Json` value.
pub enum JsonV {
    Null,
    Bool(bool),
    Number(NumV),
    Str(Seq<char>),
    Array(Seq<JsonV>),
    Object(Seq<(Seq<char>, JsonV)>),
}

pub type ObjV = Seq<(Seq<char>, JsonV)>;

impl View for JsonNumber {
    type V = NumV;

    open spec fn view(&self) -> NumV {
        match self {
            JsonNumber::PosInt(u) => NumV::PosInt(*u),
            JsonNumber::NegInt(i) => NumV::NegInt(*i),
            JsonNumber::Float(t) => NumV::Float(t@),
        }
    }
}

pub open spec fn json_view(j: Json) -> JsonV
    decreases j, 1nat,
{
    match j {
        Json::Null => JsonV::Null,
        Json::Bool(b) => JsonV::Bool(b),
        Json::Number(n) => JsonV::Number(n@),
        Json::Str(s) => JsonV::Str(s@),
        Json::Array(a) => JsonV::Array(seq_view(a@)),
        Json::Object(o) => JsonV::Object(entries_view(o@)),
    }
}

/// The views of a sequence of values.
pub open spec fn seq_view(s: Seq<Json>) -> Seq<JsonV>
    decreases s, s.len(),
{
    if s.len() == 0 {
        Seq::empty()
    } else {
        seq_view(s.drop_last()).push(json_view(s.last()))
    }
}

/// The views of a sequence of object entries.
pub open spec fn entries_view(s: Seq<(String, Json)>) -> ObjV
    decreases s, s.len(),
{
    if s.len() == 0 {
        Seq::empty()
    } else {
        entries_view(s.drop_last()).push((s.last().0@, json_view(s.last().1)))
    }
}

pub proof fn lemma_seq_view(s: Seq<Json>)
    ensures
        seq_view(s).len() == s.len(),
        forall|i: int| 0 <= i < s.len() ==> #[trigger] seq_view(s)[i] == s[i]@,
    decreases s.len(),
{
    if s.len() > 0 {
        lemma_seq_view(s.drop_last());
    }
}

pub proof fn lemma_entries_view(s: Seq<(String, Json)>)
    ensures
        entries_view(s).len() == s.len(),
        forall|i: int| 0 <= i < s.len() ==> #[trigger] entries_view(s)[i] == (s[i].0@, s[i].1@),
    decreases s.len(),
{
    if s.len() > 0 {
        lemma_entries_view(s.drop_last());
    }
}

impl View for Json {
    type V = JsonV;

    open spec fn view(&self) -> JsonV {
        json_view(*self)
    }
}

/// The view of an object's entries.
pub open spec fn obj_view(o: Seq<(String, Json)>) -> ObjV {
    entries_view(o)
}

/// The index of the first entry with key `k`.
pub open spec fn obj_index(o: ObjV, k: Seq<char>) -> Option<int>
    decreases o.len(),
{
    if o.len() == 0 {
        None
    } else {
        match obj_index(o.drop_last(), k) {
            Some(i) => Some(i),
            None => if o.last().0 == k { Some(o.len() - 1) } else { None },
        }
    }
}

/// The value stored under `k`.
pub open spec fn obj_get(o: ObjV, k: Seq<char>) -> Option<JsonV> {
    match obj_index(o, k) {
        Some(i) => Some(o[i].1),
        None => None,
    }
}

/// No key occurs twice, as in any JSON object.
pub open spec fn keys_unique(o: ObjV) -> bool {
    forall|i: int, j: int| 0 <= i < j < o.len() ==> o[i].0 != o[j].0
}

/// No object anywhere in the value holds a key twice.
pub open spec fn json_keys_unique(v: JsonV) -> bool
    decreases v,
{
    match v {
        JsonV::Array(a) => forall|i: int| 0 <= i < a.len() ==> json_keys_unique(#[trigger] a[i]),
        JsonV::Object(o) => keys_unique(o) && forall|i: int| 0 <= i < o.len() ==> json_keys_unique(#[trigger] o[i].1),
        _ => true,
    }
}

/// `o` with `k` mapped to `v`: replaced in place when present, appended otherwise.
pub open spec fn obj_insert(o: ObjV, k: Seq<char>, v: JsonV) -> ObjV {
    match obj_index(o, k) {
        Some(i) => o.update(i, (k, v)),
        None => o.push((k, v)),
    }
}

/// `o` without `k`; the last entry takes the removed entry's place.
pub open spec fn obj_remove(o: ObjV, k: Seq<char>) -> ObjV {
    match obj_index(o, k) {
        Some(i) => o.update(i, o.last()).drop_last(),
        None => o,
    }
}

pub proof fn lemma_obj_index(o: ObjV, k: Seq<char>)
    ensures
        obj_index(o, k) matches Some(i) ==> 0 <= i < o.len() && o[i].0 == k && forall|j: int|
            0 <= j < i ==> o[j].0 != k,
        obj_index(o, k) is None ==> forall|j: int| 0 <= j < o.len() ==> o[j].0 != k,
    decreases o.len(),
{
    if o.len() > 0 {
        let p = o.drop_last();
        lemma_obj_index(p, k);
        assert forall|j: int| 0 <= j < p.len() implies p[j] == o[j] by {}
    }
}

pub proof fn lemma_obj_index_first(o: ObjV, k: Seq<char>, j: int)
    requires
        0 <= j < o.len(),
        o[j].0 == k,
        forall|i: int| 0 <= i < j ==> o[i].0 != k,
    ensures
        obj_index(o, k) == Some(j),
{
    lemma_obj_index(o, k);
    match obj_index(o, k) {
        Some(i) => {
            if i < j {
                assert(o[i].0 != k);
            }
            if i > j {
                assert(o[j].0 != k);
            }
        },
        None => {
            assert(o[j].0 != k);
        },
    }
}

pub proof fn lemma_obj_index_none(o: ObjV, k: Seq<char>)
    requires
        forall|i: int| 0 <= i < o.len() ==> o[i].0 != k,
    ensures
        obj_index(o, k) is None,
{
    lemma_obj_index(o, k);
    if let Some(i) = obj_index(o, k) {
        assert(o[i].0 != k);
    }
}

/// The position of key `k` among the entries of `o`.
pub fn obj_find(o: &Vec<(String, Json)>, k: &str) -> (r: Option<usize>)
    ensures
        r matches Some(i) ==> i < o@.len(),
        match r {
            Some(i) => obj_index(obj_view(o@), k@) == Some(i as int),
            None => obj_index(obj_view(o@), k@) is None,
        },
{
    proof {
        lemma_entries_view(o@);
    }
    let mut i: usize = 0;
    while i < o.len()
        invariant
            i <= o@.len(),
            entries_view(o@).len() == o@.len(),
            forall|j: int| 0 <= j < o@.len() ==> #[trigger] entries_view(o@)[j] == (o@[j].0@, o@[j].1@),
            forall|j: int| 0 <= j < i ==> obj_view(o@)[j].0 != k@,
        decreases o@.len() - i,
    {
        if str_eq(o[i].0.as_str(), k) {
            proof {
                lemma_obj_index_first(obj_view(o@), k@, i as int);
            }
            return Some(i);
        }
        i = i + 1;
    }
    proof {
        lemma_obj_index_none(obj_view(o@), k@);
    }
    None
}

/// The value stored under `k`.
pub fn obj_lookup<'a>(o: &'a Vec<(String, Json)>, k: &str) -> (r: Option<&'a Json>)
    ensures
        match r {
            Some(v) => obj_get(obj_view(o@), k@) == Some(v@),
            None => obj_get(obj_view(o@), k@) is None,
        },
{
    proof {
        lemma_entries_view(o@);
    }
    match obj_find(o, k) {
        Some(i) => Some(&o[i].1),
        None => None,
    }
}

/// Map `k` to `v`: replace the value in place when `k` is present, append otherwise.
pub fn obj_put(o: &mut Vec<(String, Json)>, k: String, v: Json)
    ensures
        obj_view(final(o)@) == obj_insert(obj_view(old(o)@), k@, v@),
{
    proof {
        lemma_entries_view(o@);
    }
    let ghost kv = k@;
    let ghost vv = v@;
    let ghost before = o@;
    match obj_find(o, k.as_str()) {
        Some(i) => {
            o.set(i, (k, v));
            proof {
                lemma_entries_view(o@);
                assert(entries_view(o@) =~= entries_view(before).update(i as int, (kv, vv)));
            }
        },
        None => {
            o.push((k, v));
            proof {
                lemma_entries_view(o@);
                assert(entries_view(o@) =~= entries_view(before).push((kv, vv)));
            }
        },
    }
}

/// Remove `k`, moving the last entry into its place, as an insertion-ordered map's
/// `swap_remove` does.
pub fn obj_take(o: &mut Vec<(String, Json)>, k: &str)
    ensures
        obj_view(final(o)@) == obj_remove(obj_view(old(o)@), k@),
{
    proof {
        lemma_entries_view(o@);
    }
    let ghost before = o@;
    match obj_find(o, k) {
        Some(i) => {
            let _removed = o.swap_remove(i);
            proof {
                lemma_entries_view(o@);
                assert(entries_view(o@) =~= entries_view(before).update(
                    i as int,
                    entries_view(before).last(),
                ).drop_last());
            }
        },
        None => {},
    }
}

impl JsonNumber {
    /// An independent copy.
    pub fn copy(&self) -> (r: JsonNumber)
        ensures
            r@ == self@,
    {
        match self {
            JsonNumber::PosInt(u) => JsonNumber::PosInt(*u),
            JsonNumber::NegInt(i) => JsonNumber::NegInt(*i),
            JsonNumber::Float(t) => JsonNumber::Float(t.clone()),
        }
    }
}

impl Json {
    /// An independent copy.
    #[verifier::loop_isolation(false)]
    pub fn copy(&self) -> (r: Json)
        ensures
            r@ == self@,
        decreases self,
    {
        match self {
            Json::Null => Json::Null,
            Json::Bool(b) => Json::Bool(*b),
            Json::Number(n) => Json::Number(n.copy()),
            Json::Str(s) => Json::Str(s.clone()),
            Json::Array(a) => {
                let mut r: Vec<Json> = Vec::new();
                let mut i: usize = 0;
                while i < a.len()
                    invariant
                        i <= a@.len(),
                        r@.len() == i,
                        forall|j: int| 0 <= j < i ==> #[trigger] r@[j]@ == a@[j]@,
                    decreases a@.len() - i,
                {
                    proof {
                        assert(decreases_to!(*a => a@));
                        assert(decreases_to!(a@ => a@[i as int]));
                    }
                    r.push(a[i].copy());
                    i = i + 1;
                }
                proof {
                    lemma_seq_view(r@);
                    lemma_seq_view(a@);
                    assert(seq_view(r@) =~= seq_view(a@));
                }
                Json::Array(r)
            },
            Json::Object(o) => {
                let mut r: Vec<(String, Json)> = Vec::new();
                let mut i: usize = 0;
                while i < o.len()
                    invariant
                        i <= o@.len(),
                        r@.len() == i,
                        forall|j: int|
                            0 <= j < i ==> #[trigger] r@[j].0@ == o@[j].0@ && r@[j].1@ == o@[j].1@,
                    decreases o@.len() - i,
                {
                    proof {
                        assert(decreases_to!(*o => o@));
                        assert(decreases_to!(o@ => o@[i as int]));
                        assert(decreases_to!(o@[i as int] => o@[i as int].1));
                    }
                    r.push((o[i].0.clone(), o[i].1.copy()));
                    i = i + 1;
                }
                proof {
                    lemma_entries_view(r@);
                    lemma_entries_view(o@);
                    assert(entries_view(r@) =~= entries_view(o@));
                }
                Json::Object(r)
            },
        }
    }
}

/// Whether a value nests less deeply than `limit`.
pub fn depth_below(v: &Json, limit: usize) -> (r: bool)
    ensures
        r == (json_depth(v@) < limit),
    decreases v,
{
    match v {
        Json::Array(a) => {
            if limit <= 1 {
                return false;
            }
            proof {
                lemma_seq_view(a@);
                assert(v@ == JsonV::Array(seq_view(a@)));
            }
            let mut i: usize = 0;
            while i < a.len()
                invariant
                    i <= a@.len(),
                    limit > 1,
                    v@ == JsonV::Array(seq_view(a@)),
                    seq_view(a@).len() == a@.len(),
                    forall|j: int| 0 <= j < a@.len() ==> #[trigger] seq_view(a@)[j] == a@[j]@,
                    forall|j: int| 0 <= j < i ==> json_depth(#[trigger] seq_view(a@)[j]) < limit - 1,
                    decreases_to!(*v => *a),
                decreases a@.len() - i,
            {
                proof {
                    assert(decreases_to!(*a => a@));
                    assert(decreases_to!(a@ => a@[i as int]));
                }
                if !depth_below(&a[i], limit - 1) {
                    proof {
                        lemma_items_depth_below(seq_view(a@), a@.len(), limit - 1);
                        assert(json_depth(seq_view(a@)[i as int]) >= limit - 1);
                    }
                    return false;
                }
                i = i + 1;
            }
            proof {
                lemma_items_depth_below(seq_view(a@), a@.len(), limit - 1);
            }
            true
        },
        Json::Object(o) => {
            if limit <= 1 {
                return false;
            }
            proof {
                lemma_entries_view(o@);
                assert(v@ == JsonV::Object(entries_view(o@)));
            }
            let mut i: usize = 0;
            while i < o.len()
                invariant
                    i <= o@.len(),
                    limit > 1,
                    v@ == JsonV::Object(entries_view(o@)),
                    entries_view(o@).len() == o@.len(),
                    forall|j: int| 0 <= j < o@.len() ==> #[trigger] entries_view(o@)[j] == (o@[j].0@, o@[j].1@),
                    forall|j: int| 0 <= j < i ==> json_depth(#[trigger] entries_view(o@)[j].1) < limit - 1,
                    decreases_to!(*v => *o),
                decreases o@.len() - i,
            {
                proof {
                    assert(decreases_to!(*o => o@));
                    assert(decreases_to!(o@ => o@[i as int]));
                    assert(decreases_to!(o@[i as int] => o@[i as int].1));
                }
                if !depth_below(&o[i].1, limit - 1) {
                    proof {
                        lemma_members_depth_below(entries_view(o@), o@.len(), limit - 1);
                        assert(json_depth(entries_view(o@)[i as int].1) >= limit - 1);
                    }
                    return false;
                }
                i = i + 1;
            }
            proof {
                lemma_members_depth_below(entries_view(o@), o@.len(), limit - 1);
            }
            true
        },
        _ => limit > 0,
    }
}

/// An independent copy of an object's entries.
pub fn copy_entries(o: &Vec<(String, Json)>) -> (r: Vec<(String, Json)>)
    ensures
        obj_view(r@) == obj_view(o@),
{
    let mut r: Vec<(String, Json)> = Vec::new();
    let mut i: usize = 0;
    while i < o.len()
        invariant
            i <= o@.len(),
            r@.len() == i,
            forall|j: int| 0 <= j < i ==> #[trigger] r@[j].0@ == o@[j].0@ && r@[j].1@ == o@[j].1@,
        decreases o@.len() - i,
    {
        let e = &o[i];
        r.push((e.0.clone(), e.1.copy()));
        i = i + 1;
    }
    proof {
        lemma_entries_view(r@);
        lemma_entries_view(o@);
        assert(entries_view(r@) =~= entries_view(o@));
    }
    r
}

/// Nesting depth: 0 for scalars, one more than the deepest member for arrays and objects.
pub open spec fn json_depth(v: JsonV) -> nat
    decreases v, 1nat,
{
    match v {
        JsonV::Array(a) => 1 + items_depth(a, a.len()),
        JsonV::Object(o) => 1 + members_depth(o, o.len()),
        _ => 0,
    }
}

pub open spec fn items_depth(a: Seq<JsonV>, k: nat) -> nat
    decreases a, k,
{
    if k == 0 || k > a.len() {
        0
    } else {
        let d = json_depth(a[k - 1]);
        let r = items_depth(a, (k - 1) as nat);
        if d > r { d } else { r }
    }
}

pub open spec fn members_depth(o: ObjV, k: nat) -> nat
    decreases o, k,
{
    if k == 0 || k > o.len() {
        0
    } else {
        let d = json_depth(o[k - 1].1);
        let r = members_depth(o, (k - 1) as nat);
        if d > r { d } else { r }
    }
}

/// The items' depth stays under `limit` exactly when each item's does and `limit` is positive.
proof fn lemma_items_depth_below(a: Seq<JsonV>, k: nat, limit: int)
    requires
        k <= a.len(),
    ensures
        (items_depth(a, k) < limit) <==> (limit > 0 && forall|j: int| 0 <= j < k ==> json_depth(#[trigger] a[j]) < limit),
    decreases k,
{
    if k > 0 {
        lemma_items_depth_below(a, (k - 1) as nat, limit);
        if limit > 0 && forall|j: int| 0 <= j < k - 1 ==> json_depth(#[trigger] a[j]) < limit {
            if json_depth(a[k - 1]) < limit {
                assert forall|j: int| 0 <= j < k implies json_depth(#[trigger] a[j]) < limit by {
                    if j < k - 1 {
                        assert(json_depth(a[j]) < limit);
                    }
                }
            }
        }
    }
}

/// The members' depth stays under `limit` exactly when each value's does and `limit` is positive.
proof fn lemma_members_depth_below(o: ObjV, k: nat, limit: int)
    requires
        k <= o.len(),
    ensures
        (members_depth(o, k) < limit) <==> (limit > 0 && forall|j: int| 0 <= j < k ==> json_depth(#[trigger] o[j].1) < limit),
    decreases k,
{
    if k > 0 {
        lemma_members_depth_below(o, (k - 1) as nat, limit);
        if limit > 0 && forall|j: int| 0 <= j < k - 1 ==> json_depth(#[trigger] o[j].1) < limit {
            if json_depth(o[k - 1].1) < limit {
                assert forall|j: int| 0 <= j < k implies json_depth(#[trigger] o[j].1) < limit by {
                    if j < k - 1 {
                        assert(json_depth(o[j].1) < limit);
                    }
                }
            }
        }
    }
}

pub proof fn lemma_items_depth(a: Seq<JsonV>, k: nat, i: int)
    requires
        0 <= i < k <= a.len(),
    ensures
        json_depth(a[i]) <= items_depth(a, k),
    decreases k,
{
    if i < k - 1 {
        lemma_items_depth(a, (k - 1) as nat, i);
    }
}

pub proof fn lemma_members_depth(o: ObjV, k: nat, i: int)
    requires
        0 <= i < k <= o.len(),
    ensures
        json_depth(o[i].1) <= members_depth(o, k),
    decreases k,
{
    if i < k - 1 {
        lemma_members_depth(o, (k - 1) as nat, i);
    }
}

/// The decimal text of a number, as JSON and `Display` write it.
pub open spec fn num_text(n: NumV) -> Seq<char> {
    match n {
        NumV::PosInt(u) => decimal(u as nat),
        NumV::NegInt(i) => if i < 0 {
            seq!['-'] + decimal((-i) as nat)
        } else {
            decimal(i as nat)
        },
        NumV::Float(t) => t,
    }
}

/// What `serde_json::to_string` writes for a value: its compact JSON text, members in
/// order.
pub uninterp spec fn json_text(v: JsonV) -> Seq<char>;

/// Append the decimal text of a number.
pub fn push_num_text(out: &mut String, n: &JsonNumber)
    ensures
        final(out)@ == old(out)@ + num_text(n@),
{
    match n {
        JsonNumber::PosInt(u) => {
            let t = u64_to_decimal(*u);
            push_str(out, t.as_str());
        },
        JsonNumber::NegInt(i) => {
            let i = *i;
            if i < 0 {
                let m: u64 = if i == i64::MIN { 9223372036854775808u64 } else { (-i) as u64 };
                out.push('-');
                let t = u64_to_decimal(m);
                push_str(out, t.as_str());
            } else {
                let t = u64_to_decimal(i as u64);
                push_str(out, t.as_str());
            }
        },
        JsonNumber::Float(t) => push_str(out, t.as_str()),
    }
}

/// Append the compact JSON text of `v`.
pub fn push_json_text(out: &mut String, v: &Json)
    ensures
        final(out)@ == old(out)@ + json_text(v@),
{
    let t = crate::trusted::json_compact(v);
    push_str(out, t.as_str());
}

/// The compact JSON text of `v`, as `serde_json::to_string` writes it.
pub fn to_json_text(v: &Json) -> (r: String)
    ensures
        r@ == json_text(v@),
{
    crate::trusted::json_compact(v)
}

} // verus!

verus! {

/// Equality of values as `serde_json` compares them: objects as maps, regardless of
/// member order; numbers by kind and value, non-integers by their text.
pub open spec fn json_eq(a: JsonV, b: JsonV) -> bool
    decreases a, 1nat,
{
    match a {
        JsonV::Array(x) => match b {
            JsonV::Array(y) => x.len() == y.len() && items_eq(x, y, x.len()),
            _ => false,
        },
        JsonV::Object(x) => match b {
            JsonV::Object(y) => x.len() == y.len() && members_in(x, y, x.len()),
            _ => false,
        },
        _ => a == b,
    }
}

/// The first `k` items of `x` equal those of `y`.
pub open spec fn items_eq(x: Seq<JsonV>, y: Seq<JsonV>, k: nat) -> bool
    decreases x, k,
{
    if k == 0 || k > x.len() {
        true
    } else {
        items_eq(x, y, (k - 1) as nat) && k - 1 < y.len() && json_eq(x[k - 1], y[k - 1])
    }
}

/// Each of the first `k` members of `x` is in `y` with an equal value.
pub open spec fn members_in(x: ObjV, y: ObjV, k: nat) -> bool
    decreases x, k,
{
    if k == 0 || k > x.len() {
        true
    } else {
        members_in(x, y, (k - 1) as nat) && match obj_get(y, x[k - 1].0) {
            Some(v) => json_eq(x[k - 1].1, v),
            None => false,
        }
    }
}

proof fn lemma_items_eq_false(x: Seq<JsonV>, y: Seq<JsonV>, i: nat, k: nat)
    requires
        i <= k <= x.len(),
        !items_eq(x, y, i),
    ensures
        !items_eq(x, y, k),
    decreases k - i,
{
    if k > i {
        lemma_items_eq_false(x, y, i, (k - 1) as nat);
    }
}

proof fn lemma_members_in_false(x: ObjV, y: ObjV, i: nat, k: nat)
    requires
        i <= k <= x.len(),
        !members_in(x, y, i),
    ensures
        !members_in(x, y, k),
    decreases k - i,
{
    if k > i {
        lemma_members_in_false(x, y, i, (k - 1) as nat);
    }
}

fn num_equal(a: &JsonNumber, b: &JsonNumber) -> (r: bool)
    ensures
        r == (a@ == b@),
{
    match (a, b) {
        (JsonNumber::PosInt(x), JsonNumber::PosInt(y)) => *x == *y,
        (JsonNumber::NegInt(x), JsonNumber::NegInt(y)) => *x == *y,
        (JsonNumber::Float(x), JsonNumber::Float(y)) => str_eq(x.as_str(), y.as_str()),
        _ => false,
    }
}

/// Whether two values are equal as `serde_json` compares them.
#[verifier::loop_isolation(false)]
pub fn json_equal(a: &Json, b: &Json) -> (r: bool)
    ensures
        r == json_eq(a@, b@),
    decreases a,
{
    match (a, b) {
        (Json::Null, Json::Null) => true,
        (Json::Bool(x), Json::Bool(y)) => *x == *y,
        (Json::Number(x), Json::Number(y)) => num_equal(x, y),
        (Json::Str(x), Json::Str(y)) => str_eq(x.as_str(), y.as_str()),
        (Json::Array(x), Json::Array(y)) => {
            proof {
                lemma_seq_view(x@);
                lemma_seq_view(y@);
            }
            if x.len() != y.len() {
                return false;
            }
            let mut i: usize = 0;
            while i < x.len()
                invariant
                    i <= x@.len(),
                    x@.len() == y@.len(),
                    items_eq(seq_view(x@), seq_view(y@), i as nat),
                decreases x@.len() - i,
            {
                proof {
                    assert(decreases_to!(*x => x@));
                    assert(decreases_to!(x@ => x@[i as int]));
                }
                if !json_equal(&x[i], &y[i]) {
                    proof {
                        lemma_items_eq_false(seq_view(x@), seq_view(y@), (i + 1) as nat, x@.len() as nat);
                    }
                    return false;
                }
                i = i + 1;
            }
            true
        },
        (Json::Object(x), Json::Object(y)) => {
            proof {
                lemma_entries_view(x@);
                lemma_entries_view(y@);
            }
            if x.len() != y.len() {
                return false;
            }
            let mut i: usize = 0;
            while i < x.len()
                invariant
                    i <= x@.len(),
                    x@.len() == y@.len(),
                    members_in(entries_view(x@), entries_view(y@), i as nat),
                decreases x@.len() - i,
            {
                proof {
                    assert(decreases_to!(*x => x@));
                    assert(decreases_to!(x@ => x@[i as int]));
                    assert(decreases_to!(x@[i as int] => x@[i as int].1));
                }
                let ok = match obj_lookup(y, x[i].0.as_str()) {
                    Some(v) => json_equal(&x[i].1, v),
                    None => false,
                };
                if !ok {
                    proof {
                        lemma_members_in_false(entries_view(x@), entries_view(y@), (i + 1) as nat, x@.len() as nat);
                    }
                    return false;
                }
                i = i + 1;
            }
            true
        },
        _ => false,
    }
}

} // verus!
