//! The document model: a JSON value with numbers held as canonical numeric
//! text, so that every part of a document is plain data.
//!
//! Object members are kept as an ordered list of key/value pairs; documents
//! parsed from real JSON have distinct keys (see `wf`).

use vstd::prelude::*;

verus! {

/// A JSON value. A number is carried as its canonical numeric text (the text
/// the JSON parser/serialiser uses for it).
#[derive(Debug)]
pub enum Json {
    Null,
    Bool(bool),
    Num(String),
    Str(String),
    Arr(Vec<Json>),
    Obj(Vec<(String, Json)>),
}

/// The mathematical form of a JSON value.
pub enum JsonV {
    Null,
    Bool(bool),
    Num(Seq<char>),
    Str(Seq<char>),
    Arr(Seq<JsonV>),
    Obj(Seq<(Seq<char>, JsonV)>),
}

/// The mathematical form of one value.
pub open spec fn view_of(j: Json) -> JsonV
    decreases j, 0int,
{
    match j {
        Json::Null => JsonV::Null,
        Json::Bool(b) => JsonV::Bool(b),
        Json::Num(s) => JsonV::Num(s@),
        Json::Str(s) => JsonV::Str(s@),
        Json::Arr(items) => JsonV::Arr(views_of_list(items@, 0)),
        Json::Obj(fields) => JsonV::Obj(views_of_fields(fields@, 0)),
    }
}

/// The views of the array elements from position `k` on.
pub open spec fn views_of_list(items: Seq<Json>, k: int) -> Seq<JsonV>
    decreases items, items.len() - k,
{
    if k < 0 || k >= items.len() {
        Seq::empty()
    } else {
        seq![view_of(items[k])] + views_of_list(items, k + 1)
    }
}

/// The views of the object members from position `k` on.
pub open spec fn views_of_fields(fields: Seq<(String, Json)>, k: int) -> Seq<(Seq<char>, JsonV)>
    decreases fields, fields.len() - k,
{
    if k < 0 || k >= fields.len() {
        Seq::empty()
    } else {
        seq![(fields[k].0@, view_of(fields[k].1))] + views_of_fields(fields, k + 1)
    }
}

impl View for Json {
    type V = JsonV;

    open spec fn view(&self) -> JsonV {
        view_of(*self)
    }
}

pub proof fn lemma_views_of_list(items: Seq<Json>, k: int)
    requires
        0 <= k <= items.len(),
    ensures
        views_of_list(items, k).len() == items.len() - k,
        forall|i: int|
            0 <= i < items.len() - k ==> views_of_list(items, k)[i] == view_of(items[k + i]),
    decreases items.len() - k,
{
    if k < items.len() {
        lemma_views_of_list(items, k + 1);
    }
}

pub proof fn lemma_views_of_fields(fields: Seq<(String, Json)>, k: int)
    requires
        0 <= k <= fields.len(),
    ensures
        views_of_fields(fields, k).len() == fields.len() - k,
        forall|i: int|
            0 <= i < fields.len() - k ==> views_of_fields(fields, k)[i] == (
                fields[k + i].0@,
                view_of(fields[k + i].1),
            ),
    decreases fields.len() - k,
{
    if k < fields.len() {
        lemma_views_of_fields(fields, k + 1);
    }
}

/// Position of the first member named `key`, or `-1`.
pub open spec fn key_index(fields: Seq<(Seq<char>, JsonV)>, key: Seq<char>) -> int
    decreases fields.len(),
{
    if fields.len() == 0 {
        -1
    } else if fields[0].0 == key {
        0
    } else if key_index(fields.skip(1), key) < 0 {
        -1
    } else {
        1 + key_index(fields.skip(1), key)
    }
}

/// The value of the first member named `key`, if any.
pub open spec fn lookup_field(fields: Seq<(Seq<char>, JsonV)>, key: Seq<char>) -> Option<JsonV> {
    if key_index(fields, key) >= 0 {
        Some(fields[key_index(fields, key)].1)
    } else {
        None
    }
}

pub proof fn lemma_key_index(fields: Seq<(Seq<char>, JsonV)>, key: Seq<char>)
    ensures
        -1 <= key_index(fields, key) < fields.len(),
        key_index(fields, key) >= 0 ==> fields[key_index(fields, key)].0 == key,
        forall|j: int|
            0 <= j < fields.len() && fields[j].0 == key ==> key_index(fields, key) >= 0
                && key_index(fields, key) <= j,
    decreases fields.len(),
{
    if fields.len() > 0 && fields[0].0 != key {
        lemma_key_index(fields.skip(1), key);
        assert forall|j: int|
            0 <= j < fields.len() && fields[j].0 == key implies key_index(fields, key) >= 0
            && key_index(fields, key) <= j by {
            if j > 0 {
                assert(fields.skip(1)[j - 1].0 == key);
            }
        }
    }
}

/// The keys of an object's members are pairwise distinct.
pub open spec fn distinct_keys(fields: Seq<(Seq<char>, JsonV)>) -> bool {
    forall|i: int, j: int|
        0 <= i < j < fields.len() ==> fields[i].0 != fields[j].0
}

/// A well-formed document: every object in it has pairwise distinct member
/// keys, and every array has a machine-representable length. Documents read
/// from real JSON text always satisfy this.
pub open spec fn wf(v: JsonV) -> bool
    decreases v,
{
    match v {
        JsonV::Arr(items) => items.len() <= usize::MAX && wf_list(items, 0),
        JsonV::Obj(fields) => distinct_keys(fields) && wf_fields(fields, 0),
        _ => true,
    }
}

pub open spec fn wf_list(items: Seq<JsonV>, k: int) -> bool
    decreases items, items.len() - k,
{
    k >= items.len() || k < 0 || (wf(items[k]) && wf_list(items, k + 1))
}

pub open spec fn wf_fields(fields: Seq<(Seq<char>, JsonV)>, k: int) -> bool
    decreases fields, fields.len() - k,
{
    k >= fields.len() || k < 0 || (wf(fields[k].1) && wf_fields(fields, k + 1))
}

/// Every list element of a well-formed array is well-formed.
pub proof fn lemma_wf_list_index(items: Seq<JsonV>, k: int, i: int)
    requires
        wf_list(items, k),
        0 <= k <= i < items.len(),
    ensures
        wf(items[i]),
    decreases i - k,
{
    if k < i {
        lemma_wf_list_index(items, k + 1, i);
    }
}

/// Every member value of a well-formed object is well-formed.
pub proof fn lemma_wf_fields_index(fields: Seq<(Seq<char>, JsonV)>, k: int, i: int)
    requires
        wf_fields(fields, k),
        0 <= k <= i < fields.len(),
    ensures
        wf(fields[i].1),
    decreases i - k,
{
    if k < i {
        lemma_wf_fields_index(fields, k + 1, i);
    }
}

/// A deep copy of a value.
#[verifier::loop_isolation(false)]
pub fn json_clone(v: &Json) -> (r: Json)
    ensures
        r@ == v@,
    decreases *v,
{
    match v {
        Json::Null => Json::Null,
        Json::Bool(b) => Json::Bool(*b),
        Json::Num(s) => Json::Num(s.clone()),
        Json::Str(s) => Json::Str(s.clone()),
        Json::Arr(items) => {
            let mut out: Vec<Json> = Vec::new();
            let mut i: usize = 0;
            while i < items.len()
                invariant
                    i <= items.len(),
                    out@.len() == i,
                    forall|j: int| 0 <= j < i ==> view_of(out@[j]) == view_of(items@[j]),
                decreases items.len() - i,
            {
                out.push(json_clone(&items[i]));
                i = i + 1;
            }
            proof {
                lemma_views_of_list(out@, 0);
                lemma_views_of_list(items@, 0);
                assert(views_of_list(out@, 0) =~= views_of_list(items@, 0));
            }
            Json::Arr(out)
        },
        Json::Obj(fields) => {
            let mut out: Vec<(String, Json)> = Vec::new();
            let mut i: usize = 0;
            while i < fields.len()
                invariant
                    i <= fields.len(),
                    out@.len() == i,
                    forall|j: int|
                        0 <= j < i ==> out@[j].0@ == fields@[j].0@ && view_of(out@[j].1)
                            == view_of(fields@[j].1),
                decreases fields.len() - i,
            {
                let key = fields[i].0.clone();
                let val = json_clone(&fields[i].1);
                out.push((key, val));
                i = i + 1;
            }
            proof {
                lemma_views_of_fields(out@, 0);
                lemma_views_of_fields(fields@, 0);
                assert(views_of_fields(out@, 0) =~= views_of_fields(fields@, 0));
            }
            Json::Obj(out)
        },
    }
}

/// Deep equality of two values.
#[verifier::loop_isolation(false)]
pub fn json_eq(a: &Json, b: &Json) -> (r: bool)
    ensures
        r == (a@ == b@),
    decreases *a,
{
    match (a, b) {
        (Json::Null, Json::Null) => true,
        (Json::Bool(x), Json::Bool(y)) => *x == *y,
        (Json::Num(x), Json::Num(y)) => *x == *y,
        (Json::Str(x), Json::Str(y)) => *x == *y,
        (Json::Arr(xs), Json::Arr(ys)) => {
            proof {
                lemma_views_of_list(xs@, 0);
                lemma_views_of_list(ys@, 0);
            }
            if xs.len() != ys.len() {
                return false;
            }
            let mut i: usize = 0;
            while i < xs.len()
                invariant
                    i <= xs.len(),
                    xs@.len() == ys@.len(),
                    a@ == JsonV::Arr(views_of_list(xs@, 0)),
                    b@ == JsonV::Arr(views_of_list(ys@, 0)),
                    views_of_list(xs@, 0).len() == xs@.len(),
                    views_of_list(ys@, 0).len() == ys@.len(),
                    forall|j: int|
                        0 <= j < xs@.len() ==> views_of_list(xs@, 0)[j] == view_of(xs@[j]),
                    forall|j: int|
                        0 <= j < ys@.len() ==> views_of_list(ys@, 0)[j] == view_of(ys@[j]),
                    forall|j: int| 0 <= j < i ==> view_of(xs@[j]) == view_of(ys@[j]),
                decreases xs.len() - i,
            {
                if !json_eq(&xs[i], &ys[i]) {
                    proof {
                        let ghost ii = i as int;
                        assert(views_of_list(xs@, 0)[ii] != views_of_list(ys@, 0)[ii]);
                    }
                    return false;
                }
                i = i + 1;
            }
            proof {
                assert(views_of_list(xs@, 0) =~= views_of_list(ys@, 0));
            }
            true
        },
        (Json::Obj(xs), Json::Obj(ys)) => {
            proof {
                lemma_views_of_fields(xs@, 0);
                lemma_views_of_fields(ys@, 0);
            }
            if xs.len() != ys.len() {
                return false;
            }
            let mut i: usize = 0;
            while i < xs.len()
                invariant
                    i <= xs.len(),
                    xs@.len() == ys@.len(),
                    a@ == JsonV::Obj(views_of_fields(xs@, 0)),
                    b@ == JsonV::Obj(views_of_fields(ys@, 0)),
                    views_of_fields(xs@, 0).len() == xs@.len(),
                    views_of_fields(ys@, 0).len() == ys@.len(),
                    forall|j: int|
                        0 <= j < xs@.len() ==> views_of_fields(xs@, 0)[j] == (
                            xs@[j].0@,
                            view_of(xs@[j].1),
                        ),
                    forall|j: int|
                        0 <= j < ys@.len() ==> views_of_fields(ys@, 0)[j] == (
                            ys@[j].0@,
                            view_of(ys@[j].1),
                        ),
                    forall|j: int|
                        0 <= j < i ==> xs@[j].0@ == ys@[j].0@ && view_of(xs@[j].1) == view_of(
                            ys@[j].1,
                        ),
                decreases xs.len() - i,
            {
                let keys_differ = !(xs[i].0 == ys[i].0);
                if keys_differ || !json_eq(&xs[i].1, &ys[i].1) {
                    proof {
                        let ghost ii = i as int;
                        assert(views_of_fields(xs@, 0)[ii] != views_of_fields(ys@, 0)[ii]);
                    }
                    return false;
                }
                i = i + 1;
            }
            proof {
                assert(views_of_fields(xs@, 0) =~= views_of_fields(ys@, 0));
            }
            true
        },
        _ => {
            proof {
                assert(a@ != b@);
            }
            false
        },
    }
}

/// Position of the first member of `fields` named `key`, if any.
#[verifier::loop_isolation(false)]
pub fn find_key(fields: &Vec<(String, Json)>, key: &String) -> (r: Option<usize>)
    ensures
        match r {
            Some(i) => i < fields@.len() && key_index(views_of_fields(fields@, 0), key@)
                == i as int,
            None => key_index(views_of_fields(fields@, 0), key@) == -1,
        },
{
    proof {
        lemma_views_of_fields(fields@, 0);
        lemma_key_index(views_of_fields(fields@, 0), key@);
    }
    let ghost fv = views_of_fields(fields@, 0);
    let mut i: usize = 0;
    while i < fields.len()
        invariant
            i <= fields.len(),
            fv == views_of_fields(fields@, 0),
            fv.len() == fields@.len(),
            forall|j: int| 0 <= j < fields@.len() ==> fv[j] == (fields@[j].0@, view_of(fields@[j].1)),
            -1 <= key_index(fv, key@) < fv.len(),
            key_index(fv, key@) >= 0 ==> fv[key_index(fv, key@)].0 == key@,
            forall|j: int|
                0 <= j < fv.len() && fv[j].0 == key@ ==> key_index(fv, key@) >= 0 && key_index(
                    fv,
                    key@,
                ) <= j,
            forall|j: int| 0 <= j < i ==> fv[j].0 != key@,
        decreases fields.len() - i,
    {
        if fields[i].0 == *key {
            proof {
                assert(fv[i as int].0 == key@);
            }
            return Some(i);
        }
        i = i + 1;
    }
    proof {
        if key_index(fv, key@) >= 0 {
            assert(fv[key_index(fv, key@)].0 == key@);
            assert(false);
        }
    }
    None
}

/// A copy of an object's member list.
#[verifier::loop_isolation(false)]
pub fn fields_clone(fields: &Vec<(String, Json)>) -> (r: Vec<(String, Json)>)
    ensures
        r@.len() == fields@.len(),
        views_of_fields(r@, 0) == views_of_fields(fields@, 0),
{
    let mut out: Vec<(String, Json)> = Vec::new();
    let mut i: usize = 0;
    while i < fields.len()
        invariant
            i <= fields.len(),
            out@.len() == i,
            forall|j: int|
                0 <= j < i ==> (#[trigger] out@[j].0)@ == fields@[j].0@ && view_of(out@[j].1)
                    == view_of(fields@[j].1),
        decreases fields.len() - i,
    {
        out.push((fields[i].0.clone(), json_clone(&fields[i].1)));
        i = i + 1;
    }
    proof {
        lemma_views_of_fields(out@, 0);
        lemma_views_of_fields(fields@, 0);
        assert(views_of_fields(out@, 0) =~= views_of_fields(fields@, 0));
    }
    out
}

/// A copy of an array's element list.
#[verifier::loop_isolation(false)]
pub fn items_clone(items: &Vec<Json>) -> (r: Vec<Json>)
    ensures
        r@.len() == items@.len(),
        views_of_list(r@, 0) == views_of_list(items@, 0),
{
    let mut out: Vec<Json> = Vec::new();
    let mut i: usize = 0;
    while i < items.len()
        invariant
            i <= items.len(),
            out@.len() == i,
            forall|j: int| 0 <= j < i ==> view_of(#[trigger] out@[j]) == view_of(items@[j]),
        decreases items.len() - i,
    {
        out.push(json_clone(&items[i]));
        i = i + 1;
    }
    proof {
        lemma_views_of_list(out@, 0);
        lemma_views_of_list(items@, 0);
        assert(views_of_list(out@, 0) =~= views_of_list(items@, 0));
    }
    out
}

} // verus!
