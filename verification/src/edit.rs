//! JSON-Pointer addressing and tree edits: resolving a pointer to the value
//! it names, and replacing, inserting or deleting at a pointer.
//!
//! Edits rebuild the spine from the root down to the edited node and leave
//! everything else unchanged.

use vstd::prelude::*;

use crate::digits::{parse_usize_chars, parse_usize_spec};
use crate::extract::resolve_segments;
use crate::json::{
    find_key, json_clone, json_eq, key_index, lemma_views_of_fields, lemma_views_of_list, lookup_field,
    view_of, views_of_fields, views_of_list, Json, JsonV,
};
use crate::pointer::{parse_pointer, parse_pointer_spec, string_views};
use crate::text::{str_chars, str_eq};

verus! {

/// Why an edit or a resolution failed.
#[derive(Clone, Copy, PartialEq, Eq, Structural, Debug)]
pub enum EditError {
    /// The pointer text is not a valid JSON Pointer.
    Pointer,
    /// A named key is not present in the object.
    KeyNotFound,
    /// An array segment is not a valid index.
    BadIndex,
    /// An array index is out of bounds.
    IndexOutOfBounds,
    /// The path leads into a value that is not an object or array.
    NotAContainer,
    /// The operation cannot apply to the whole document.
    RootEdit,
    /// A patch operation is malformed or unknown.
    BadPatch,
    /// A patch test operation found a different value.
    TestFailed,
}

/// The description of an edit error.
pub open spec fn edit_error_text(e: EditError) -> Seq<char> {
    match e {
        EditError::Pointer => "Invalid JSON Pointer"@,
        EditError::KeyNotFound => "Key not found"@,
        EditError::BadIndex => "Invalid array index"@,
        EditError::IndexOutOfBounds => "Array index out of bounds"@,
        EditError::NotAContainer => "Not an object or array"@,
        EditError::RootEdit => "Operation cannot apply to the root document"@,
        EditError::BadPatch => "Malformed or unknown patch operation"@,
        EditError::TestFailed => "Patch test operation found a different value"@,
    }
}

impl EditError {
    /// A short description of the error.
    pub fn message(&self) -> (r: String)
        ensures
            r@ == edit_error_text(*self),
    {
        match self {
            EditError::Pointer => String::from_str("Invalid JSON Pointer"),
            EditError::KeyNotFound => String::from_str("Key not found"),
            EditError::BadIndex => String::from_str("Invalid array index"),
            EditError::IndexOutOfBounds => String::from_str("Array index out of bounds"),
            EditError::NotAContainer => String::from_str("Not an object or array"),
            EditError::RootEdit => String::from_str("Operation cannot apply to the root document"),
            EditError::BadPatch => String::from_str("Malformed or unknown patch operation"),
            EditError::TestFailed => String::from_str(
                "Patch test operation found a different value",
            ),
        }
    }
}

/// What one edit does at the node the pointer names.
#[derive(Debug)]
pub enum EditOp {
    /// Replace an existing member or element.
    SetExisting(Json),
    /// Insert: objects get the key added (or replaced); arrays insert at the
    /// index, or append for the segment `-`.
    Insert(Json),
    /// Remove an existing member or element.
    Remove,
}

/// The mathematical form of an edit.
pub enum EditOpV {
    SetExisting(JsonV),
    Insert(JsonV),
    Remove,
}

impl View for EditOp {
    type V = EditOpV;

    open spec fn view(&self) -> EditOpV {
        match self {
            EditOp::SetExisting(v) => EditOpV::SetExisting(v@),
            EditOp::Insert(v) => EditOpV::Insert(v@),
            EditOp::Remove => EditOpV::Remove,
        }
    }
}

/// Applying one edit at the node `v`, addressed by its final segment `key`.
pub open spec fn apply_last(v: JsonV, key: Seq<char>, op: EditOpV) -> Option<JsonV> {
    match v {
        JsonV::Obj(fields) => {
            let ki = key_index(fields, key);
            match op {
                EditOpV::SetExisting(val) => if ki >= 0 {
                    Some(JsonV::Obj(fields.update(ki, (key, val))))
                } else {
                    None
                },
                EditOpV::Insert(val) => if ki >= 0 {
                    Some(JsonV::Obj(fields.update(ki, (key, val))))
                } else {
                    Some(JsonV::Obj(fields.push((key, val))))
                },
                EditOpV::Remove => if ki >= 0 {
                    Some(JsonV::Obj(fields.remove(ki)))
                } else {
                    None
                },
            }
        },
        JsonV::Arr(items) => {
            match op {
                EditOpV::SetExisting(val) => match parse_usize_spec(key) {
                    Some(i) => if i < items.len() {
                        Some(JsonV::Arr(items.update(i, val)))
                    } else {
                        None
                    },
                    None => None,
                },
                EditOpV::Insert(val) => if key == "-"@ {
                    Some(JsonV::Arr(items.push(val)))
                } else {
                    match parse_usize_spec(key) {
                        Some(i) => if i <= items.len() {
                            Some(JsonV::Arr(items.insert(i, val)))
                        } else {
                            None
                        },
                        None => None,
                    }
                },
                EditOpV::Remove => match parse_usize_spec(key) {
                    Some(i) => if i < items.len() {
                        Some(JsonV::Arr(items.remove(i)))
                    } else {
                        None
                    },
                    None => None,
                },
            }
        },
        _ => None,
    }
}

/// Applying one edit below `v`, along the segments from position `k` on: the
/// spine is rebuilt, everything off the path is unchanged.
pub open spec fn edit_spec(v: JsonV, segs: Seq<Seq<char>>, k: int, op: EditOpV) -> Option<JsonV>
    decreases segs.len() - k,
{
    if k < 0 || k >= segs.len() {
        None
    } else if k == segs.len() - 1 {
        apply_last(v, segs[k], op)
    } else {
        match v {
            JsonV::Obj(fields) => {
                let ki = key_index(fields, segs[k]);
                if ki >= 0 {
                    match edit_spec(fields[ki].1, segs, k + 1, op) {
                        Some(c) => Some(JsonV::Obj(fields.update(ki, (fields[ki].0, c)))),
                        None => None,
                    }
                } else {
                    None
                }
            },
            JsonV::Arr(items) => {
                match parse_usize_spec(segs[k]) {
                    Some(i) => if i < items.len() {
                        match edit_spec(items[i], segs, k + 1, op) {
                            Some(c) => Some(JsonV::Arr(items.update(i, c))),
                            None => None,
                        }
                    } else {
                        None
                    },
                    None => None,
                }
            },
            _ => None,
        }
    }
}

/// Copies object members, replacing position `ki` with `pair`.
#[verifier::loop_isolation(false)]
fn fields_with(fields: &Vec<(String, Json)>, ki: usize, pair: (String, Json)) -> (r: Vec<
    (String, Json),
>)
    requires
        ki < fields@.len(),
    ensures
        views_of_fields(r@, 0) == views_of_fields(fields@, 0).update(
            ki as int,
            (pair.0@, pair.1@),
        ),
{
    proof {
        lemma_views_of_fields(fields@, 0);
    }
    let ghost pv = (pair.0@, pair.1@);
    let mut out: Vec<(String, Json)> = Vec::new();
    let mut consumed = Some(pair);
    let mut i: usize = 0;
    while i < fields.len()
        invariant
            i <= fields@.len(),
            out@.len() == i as int,
            i <= ki ==> consumed is Some && (consumed->Some_0.0@, consumed->Some_0.1@) == pv,
            forall|j: int|
                0 <= j < i ==> (#[trigger] out@[j].0)@ == (if j == ki as int {
                    pv.0
                } else {
                    fields@[j].0@
                }),
            forall|j: int|
                0 <= j < i ==> view_of(#[trigger] out@[j].1) == (if j == ki as int {
                    pv.1
                } else {
                    view_of(fields@[j].1)
                }),
        decreases fields.len() - i,
    {
        if i == ki {
            let p = consumed.unwrap();
            consumed = None;
            out.push(p);
        } else {
            out.push((fields[i].0.clone(), json_clone(&fields[i].1)));
        }
        i = i + 1;
    }
    proof {
        lemma_views_of_fields(out@, 0);
        assert(views_of_fields(out@, 0) =~= views_of_fields(fields@, 0).update(ki as int, pv));
    }
    out
}

/// Copies array elements, replacing position `i` with `val`.
#[verifier::loop_isolation(false)]
fn items_with(items: &Vec<Json>, idx: usize, val: Json) -> (r: Vec<Json>)
    requires
        idx < items@.len(),
    ensures
        views_of_list(r@, 0) == views_of_list(items@, 0).update(idx as int, val@),
{
    proof {
        lemma_views_of_list(items@, 0);
    }
    let ghost pv = val@;
    let mut out: Vec<Json> = Vec::new();
    let mut consumed = Some(val);
    let mut i: usize = 0;
    while i < items.len()
        invariant
            i <= items@.len(),
            out@.len() == i as int,
            i <= idx ==> consumed is Some && consumed->Some_0@ == pv,
            forall|j: int|
                0 <= j < i ==> view_of(#[trigger] out@[j]) == (if j == idx as int {
                    pv
                } else {
                    view_of(items@[j])
                }),
        decreases items.len() - i,
    {
        if i == idx {
            let p = consumed.unwrap();
            consumed = None;
            out.push(p);
        } else {
            out.push(json_clone(&items[i]));
        }
        i = i + 1;
    }
    proof {
        lemma_views_of_list(out@, 0);
        assert(views_of_list(out@, 0) =~= views_of_list(items@, 0).update(idx as int, pv));
    }
    out
}

/// Copies object members, dropping position `ki`.
#[verifier::loop_isolation(false)]
fn fields_without(fields: &Vec<(String, Json)>, ki: usize) -> (r: Vec<(String, Json)>)
    requires
        ki < fields@.len(),
    ensures
        views_of_fields(r@, 0) == views_of_fields(fields@, 0).remove(ki as int),
{
    proof {
        lemma_views_of_fields(fields@, 0);
    }
    let mut out: Vec<(String, Json)> = Vec::new();
    let mut i: usize = 0;
    while i < fields.len()
        invariant
            i <= fields@.len(),
            out@.len() == (if i <= ki as int {
                i as int
            } else {
                i - 1
            }),
            forall|j: int|
                0 <= j < out@.len() ==> (#[trigger] out@[j].0)@ == (if j < ki as int {
                    fields@[j].0@
                } else {
                    fields@[j + 1].0@
                }),
            forall|j: int|
                0 <= j < out@.len() ==> view_of(#[trigger] out@[j].1) == (if j < ki as int {
                    view_of(fields@[j].1)
                } else {
                    view_of(fields@[j + 1].1)
                }),
        decreases fields.len() - i,
    {
        if i != ki {
            out.push((fields[i].0.clone(), json_clone(&fields[i].1)));
        }
        i = i + 1;
    }
    proof {
        lemma_views_of_fields(out@, 0);
        assert(views_of_fields(out@, 0) =~= views_of_fields(fields@, 0).remove(ki as int));
    }
    out
}

/// Copies array elements, dropping position `idx`.
#[verifier::loop_isolation(false)]
fn items_without(items: &Vec<Json>, idx: usize) -> (r: Vec<Json>)
    requires
        idx < items@.len(),
    ensures
        views_of_list(r@, 0) == views_of_list(items@, 0).remove(idx as int),
{
    proof {
        lemma_views_of_list(items@, 0);
    }
    let mut out: Vec<Json> = Vec::new();
    let mut i: usize = 0;
    while i < items.len()
        invariant
            i <= items@.len(),
            out@.len() == (if i <= idx as int {
                i as int
            } else {
                i - 1
            }),
            forall|j: int|
                0 <= j < out@.len() ==> view_of(#[trigger] out@[j]) == (if j < idx as int {
                    view_of(items@[j])
                } else {
                    view_of(items@[j + 1])
                }),
        decreases items.len() - i,
    {
        if i != idx {
            out.push(json_clone(&items[i]));
        }
        i = i + 1;
    }
    proof {
        lemma_views_of_list(out@, 0);
        assert(views_of_list(out@, 0) =~= views_of_list(items@, 0).remove(idx as int));
    }
    out
}

/// Copies array elements, inserting `val` at position `idx`.
#[verifier::loop_isolation(false)]
fn items_inserted(items: &Vec<Json>, idx: usize, val: Json) -> (r: Vec<Json>)
    requires
        idx <= items@.len(),
    ensures
        views_of_list(r@, 0) == views_of_list(items@, 0).insert(idx as int, val@),
{
    proof {
        lemma_views_of_list(items@, 0);
    }
    let ghost pv = val@;
    let mut out: Vec<Json> = Vec::new();
    let mut i: usize = 0;
    while i < idx
        invariant
            i <= idx <= items@.len(),
            out@.len() == i as int,
            forall|j: int| 0 <= j < i ==> view_of(#[trigger] out@[j]) == view_of(items@[j]),
        decreases idx - i,
    {
        out.push(json_clone(&items[i]));
        i = i + 1;
    }
    out.push(val);
    let mut i2: usize = idx;
    while i2 < items.len()
        invariant
            idx <= i2 <= items@.len(),
            out@.len() == i2 + 1,
            forall|j: int| 0 <= j < idx ==> view_of(#[trigger] out@[j]) == view_of(items@[j]),
            view_of(out@[idx as int]) == pv,
            forall|j: int|
                idx < j < out@.len() ==> view_of(#[trigger] out@[j]) == view_of(items@[j - 1]),
        decreases items.len() - i2,
    {
        out.push(json_clone(&items[i2]));
        i2 = i2 + 1;
    }
    proof {
        lemma_views_of_list(out@, 0);
        assert(views_of_list(out@, 0) =~= views_of_list(items@, 0).insert(idx as int, pv));
    }
    out
}

/// Applies one edit along the segments from position `k` on, rebuilding the
/// spine.
#[verifier::loop_isolation(false)]
pub fn edit_at(v: &Json, segs: &Vec<String>, k: usize, op: EditOp) -> (r: Result<Json, EditError>)
    requires
        k < segs@.len(),
    ensures
        match r {
            Ok(out) => edit_spec(v@, string_views(segs@), k as int, op@) == Some(out@),
            Err(_) => edit_spec(v@, string_views(segs@), k as int, op@) is None,
        },
    decreases segs@.len() - k,
{
    let ghost sv = string_views(segs@);
    let last = k == segs.len() - 1;
    match v {
        Json::Obj(fields) => {
            proof {
                lemma_views_of_fields(fields@, 0);
                assert(v@ == JsonV::Obj(views_of_fields(fields@, 0)));
            }
            let ghost fviews = views_of_fields(fields@, 0);
            let found = find_key(fields, &segs[k]);
            if last {
                match op {
                    EditOp::SetExisting(val) => {
                        match found {
                            Some(ki) => {
                                let nf = fields_with(fields, ki, (segs[k].clone(), val));
                                Ok(Json::Obj(nf))
                            },
                            None => Err(EditError::KeyNotFound),
                        }
                    },
                    EditOp::Insert(val) => {
                        match found {
                            Some(ki) => {
                                let nf = fields_with(fields, ki, (segs[k].clone(), val));
                                Ok(Json::Obj(nf))
                            },
                            None => {
                                let ghost vv = val@;
                                let mut nf = crate::json::fields_clone(fields);
                                let ghost nfold = nf@;
                                nf.push((segs[k].clone(), val));
                                proof {
                                    lemma_views_of_fields(nfold, 0);
                                    lemma_views_of_fields(nf@, 0);
                                    assert(nf@ =~= nfold.push(nf@.last()));
                                    assert(views_of_fields(nf@, 0) =~= fviews.push(
                                        (sv[k as int], vv),
                                    ));
                                }
                                Ok(Json::Obj(nf))
                            },
                        }
                    },
                    EditOp::Remove => {
                        match found {
                            Some(ki) => {
                                let nf = fields_without(fields, ki);
                                Ok(Json::Obj(nf))
                            },
                            None => Err(EditError::KeyNotFound),
                        }
                    },
                }
            } else {
                match found {
                    Some(ki) => {
                        let child = edit_at(&fields[ki].1, segs, k + 1, op);
                        match child {
                            Ok(c) => {
                                let nf = fields_with(fields, ki, (fields[ki].0.clone(), c));
                                Ok(Json::Obj(nf))
                            },
                            Err(e) => Err(e),
                        }
                    },
                    None => Err(EditError::KeyNotFound),
                }
            }
        },
        Json::Arr(items) => {
            proof {
                lemma_views_of_list(items@, 0);
                assert(v@ == JsonV::Arr(views_of_list(items@, 0)));
            }
            let ghost ivews = views_of_list(items@, 0);
            let seg_chars = str_chars(segs[k].as_str());
            let parsed = parse_usize_chars(&seg_chars);
            if last {
                match op {
                    EditOp::SetExisting(val) => {
                        match parsed {
                            Some(i) => {
                                if i < items.len() {
                                    Ok(Json::Arr(items_with(items, i, val)))
                                } else {
                                    Err(EditError::IndexOutOfBounds)
                                }
                            },
                            None => Err(EditError::BadIndex),
                        }
                    },
                    EditOp::Insert(val) => {
                        let dash = seg_chars.len() == 1 && seg_chars[0] == '-';
                        proof {
                            if dash {
                                assert(sv[k as int] =~= "-"@) by {
                                    reveal_strlit("-");
                                }
                            } else {
                                assert(sv[k as int] != "-"@) by {
                                    reveal_strlit("-");
                                    if sv[k as int] == "-"@ {
                                        assert(sv[k as int].len() == 1 && sv[k as int][0] == '-');
                                    }
                                }
                            }
                        }
                        if dash {
                            let ghost vv = val@;
                            let mut ni = crate::json::items_clone(items);
                            let ghost niold = ni@;
                            ni.push(val);
                            proof {
                                lemma_views_of_list(niold, 0);
                                lemma_views_of_list(ni@, 0);
                                assert(ni@ =~= niold.push(ni@.last()));
                                assert(views_of_list(ni@, 0) =~= ivews.push(vv));
                            }
                            Ok(Json::Arr(ni))
                        } else {
                            match parsed {
                                Some(i) => {
                                    if i <= items.len() {
                                        Ok(Json::Arr(items_inserted(items, i, val)))
                                    } else {
                                        Err(EditError::IndexOutOfBounds)
                                    }
                                },
                                None => Err(EditError::BadIndex),
                            }
                        }
                    },
                    EditOp::Remove => {
                        match parsed {
                            Some(i) => {
                                if i < items.len() {
                                    Ok(Json::Arr(items_without(items, i)))
                                } else {
                                    Err(EditError::IndexOutOfBounds)
                                }
                            },
                            None => Err(EditError::BadIndex),
                        }
                    },
                }
            } else {
                match parsed {
                    Some(i) => {
                        if i < items.len() {
                            let child = edit_at(&items[i], segs, k + 1, op);
                            match child {
                                Ok(c) => Ok(Json::Arr(items_with(items, i, c))),
                                Err(e) => Err(e),
                            }
                        } else {
                            Err(EditError::IndexOutOfBounds)
                        }
                    },
                    None => Err(EditError::BadIndex),
                }
            }
        },
        _ => Err(EditError::NotAContainer),
    }
}

/// Resolving a pointer: parse it, then follow its segments.
pub open spec fn resolve_ptr_spec(root: JsonV, p: Seq<char>) -> Option<JsonV> {
    match parse_pointer_spec(p) {
        Some(segs) => resolve_segments(root, segs),
        None => None,
    }
}

/// Navigate a JSON Pointer to the value it names (returned as a copy).
#[verifier::loop_isolation(false)]
pub fn resolve_pointer(root: &Json, pointer: &str) -> (r: Result<Json, EditError>)
    ensures
        match r {
            Ok(out) => resolve_ptr_spec(root@, pointer@) == Some(out@),
            Err(_) => resolve_ptr_spec(root@, pointer@) is None,
        },
{
    let segs = match parse_pointer(pointer) {
        Ok(s) => s,
        Err(_) => {
            return Err(EditError::Pointer);
        },
    };
    let ghost sv = string_views(segs@);
    let mut cur: &Json = root;
    let mut k: usize = 0;
    proof {
        assert(sv.skip(0) =~= sv);
    }
    while k < segs.len()
        invariant
            k <= segs@.len(),
            resolve_segments(root@, sv) == resolve_segments(cur@, sv.skip(k as int)),
        decreases segs@.len() - k,
    {
        proof {
            assert(sv.skip(k as int)[0] == sv[k as int]);
            assert(sv.skip(k as int).skip(1) =~= sv.skip(k + 1 as int));
        }
        match cur {
            Json::Obj(fields) => {
                proof {
                    lemma_views_of_fields(fields@, 0);
                    assert(cur@ == JsonV::Obj(views_of_fields(fields@, 0)));
                }
                match find_key(fields, &segs[k]) {
                    Some(ki) => {
                        proof {
                            assert(lookup_field(views_of_fields(fields@, 0), sv[k as int])
                                == Some(view_of(fields@[ki as int].1)));
                        }
                        cur = &fields[ki].1;
                    },
                    None => {
                        proof {
                            assert(lookup_field(views_of_fields(fields@, 0), sv[k as int])
                                is None);
                        }
                        return Err(EditError::KeyNotFound);
                    },
                }
            },
            Json::Arr(items) => {
                proof {
                    lemma_views_of_list(items@, 0);
                    assert(cur@ == JsonV::Arr(views_of_list(items@, 0)));
                }
                let seg_chars = str_chars(segs[k].as_str());
                match parse_usize_chars(&seg_chars) {
                    Some(i) => {
                        if i < items.len() {
                            cur = &items[i];
                        } else {
                            return Err(EditError::IndexOutOfBounds);
                        }
                    },
                    None => {
                        return Err(EditError::BadIndex);
                    },
                }
            },
            _ => {
                return Err(EditError::NotAContainer);
            },
        }
        k = k + 1;
    }
    proof {
        assert(sv.skip(sv.len() as int).len() == 0);
    }
    Ok(json_clone(cur))
}

/// Split a pointer into its parent's value and the final segment. The root
/// pointer has no parent.
#[verifier::loop_isolation(false)]
pub fn resolve_parent_and_key(root: &Json, pointer: &str) -> (r: Result<
    (Json, String),
    EditError,
>)
    ensures
        match r {
            Ok(pk) => match parse_pointer_spec(pointer@) {
                Some(segs) => segs.len() >= 1 && pk.1@ == segs.last() && resolve_segments(
                    root@,
                    segs.drop_last(),
                ) == Some(pk.0@),
                None => false,
            },
            Err(_) => match parse_pointer_spec(pointer@) {
                Some(segs) => segs.len() == 0 || resolve_segments(root@, segs.drop_last())
                    is None,
                None => true,
            },
        },
{
    let mut segs = match parse_pointer(pointer) {
        Ok(s) => s,
        Err(_) => {
            return Err(EditError::Pointer);
        },
    };
    if segs.len() == 0 {
        return Err(EditError::RootEdit);
    }
    let ghost sv = string_views(segs@);
    let last_seg = segs.pop().unwrap();
    proof {
        assert(last_seg@ == sv.last());
        assert(string_views(segs@) =~= sv.drop_last());
    }
    let ghost svd = string_views(segs@);
    let mut cur: &Json = root;
    let mut k: usize = 0;
    proof {
        assert(svd.skip(0) =~= svd);
    }
    while k < segs.len()
        invariant
            k <= segs@.len(),
            svd == string_views(segs@),
            resolve_segments(root@, svd) == resolve_segments(cur@, svd.skip(k as int)),
        decreases segs@.len() - k,
    {
        proof {
            assert(svd.skip(k as int)[0] == svd[k as int]);
            assert(svd.skip(k as int).skip(1) =~= svd.skip(k + 1 as int));
        }
        match cur {
            Json::Obj(fields) => {
                proof {
                    lemma_views_of_fields(fields@, 0);
                    assert(cur@ == JsonV::Obj(views_of_fields(fields@, 0)));
                }
                match find_key(fields, &segs[k]) {
                    Some(ki) => {
                        proof {
                            assert(lookup_field(views_of_fields(fields@, 0), svd[k as int])
                                == Some(view_of(fields@[ki as int].1)));
                        }
                        cur = &fields[ki].1;
                    },
                    None => {
                        proof {
                            assert(lookup_field(views_of_fields(fields@, 0), svd[k as int])
                                is None);
                        }
                        return Err(EditError::KeyNotFound);
                    },
                }
            },
            Json::Arr(items) => {
                proof {
                    lemma_views_of_list(items@, 0);
                    assert(cur@ == JsonV::Arr(views_of_list(items@, 0)));
                }
                let seg_chars = str_chars(segs[k].as_str());
                match parse_usize_chars(&seg_chars) {
                    Some(i) => {
                        if i < items.len() {
                            cur = &items[i];
                        } else {
                            return Err(EditError::IndexOutOfBounds);
                        }
                    },
                    None => {
                        return Err(EditError::BadIndex);
                    },
                }
            },
            _ => {
                return Err(EditError::NotAContainer);
            },
        }
        k = k + 1;
    }
    proof {
        assert(svd.skip(svd.len() as int).len() == 0);
    }
    Ok((json_clone(cur), last_seg))
}

/// Setting (replacing) the value a pointer names; the empty pointer replaces
/// the whole document. The named member or element must already exist.
pub open spec fn set_spec(root: JsonV, p: Seq<char>, val: JsonV) -> Option<JsonV> {
    match parse_pointer_spec(p) {
        Some(segs) => if segs.len() == 0 {
            Some(val)
        } else {
            edit_spec(root, segs, 0, EditOpV::SetExisting(val))
        },
        None => None,
    }
}

/// Adding a value at a pointer: objects gain (or replace) the key, arrays
/// insert at the index or append for `-`; the empty pointer replaces the
/// whole document.
pub open spec fn add_spec(root: JsonV, p: Seq<char>, val: JsonV) -> Option<JsonV> {
    match parse_pointer_spec(p) {
        Some(segs) => if segs.len() == 0 {
            Some(val)
        } else {
            edit_spec(root, segs, 0, EditOpV::Insert(val))
        },
        None => None,
    }
}

/// Deleting the value a pointer names; the whole document cannot be deleted.
pub open spec fn delete_spec(root: JsonV, p: Seq<char>) -> Option<JsonV> {
    match parse_pointer_spec(p) {
        Some(segs) => if segs.len() == 0 {
            None
        } else {
            edit_spec(root, segs, 0, EditOpV::Remove)
        },
        None => None,
    }
}

/// Set (replace) the value at `pointer` with `value`. Succeeds exactly when
/// the pointer parses and names an existing location (the empty pointer
/// replaces the whole document).
pub fn apply_set(root: &Json, pointer: &str, value: Json) -> (r: Result<Json, EditError>)
    ensures
        match r {
            Ok(out) => set_spec(root@, pointer@, value@) == Some(out@),
            Err(_) => set_spec(root@, pointer@, value@) is None,
        },
{
    let segs = match parse_pointer(pointer) {
        Ok(s) => s,
        Err(_) => {
            return Err(EditError::Pointer);
        },
    };
    if segs.len() == 0 {
        return Ok(value);
    }
    edit_at(root, &segs, 0, EditOp::SetExisting(value))
}

/// Add `value` at `pointer`: append to an array with `-`, insert at an array
/// index, or create (or replace) an object key. Succeeds exactly when the
/// pointer parses and its parent path exists.
pub fn apply_add(root: &Json, pointer: &str, value: Json) -> (r: Result<Json, EditError>)
    ensures
        match r {
            Ok(out) => add_spec(root@, pointer@, value@) == Some(out@),
            Err(_) => add_spec(root@, pointer@, value@) is None,
        },
{
    let segs = match parse_pointer(pointer) {
        Ok(s) => s,
        Err(_) => {
            return Err(EditError::Pointer);
        },
    };
    if segs.len() == 0 {
        return Ok(value);
    }
    edit_at(root, &segs, 0, EditOp::Insert(value))
}

/// Delete the value at `pointer`. Succeeds exactly when the pointer parses,
/// is not the root, and names an existing location.
pub fn apply_delete(root: &Json, pointer: &str) -> (r: Result<Json, EditError>)
    ensures
        match r {
            Ok(out) => delete_spec(root@, pointer@) == Some(out@),
            Err(_) => delete_spec(root@, pointer@) is None,
        },
{
    let segs = match parse_pointer(pointer) {
        Ok(s) => s,
        Err(_) => {
            return Err(EditError::Pointer);
        },
    };
    if segs.len() == 0 {
        return Err(EditError::RootEdit);
    }
    edit_at(root, &segs, 0, EditOp::Remove)
}

/// The destination of a move lies at or under its source.
pub open spec fn move_conflict(from: Seq<char>, path: Seq<char>) -> bool {
    from == path || (path.len() > from.len() && path.take(from.len() as int) == from
        && path[from.len() as int] == '/')
}

/// Is the move destination the same as, or inside, the source?
#[verifier::loop_isolation(false)]
fn is_move_conflict(from: &str, path: &str) -> (r: bool)
    ensures
        r == move_conflict(from@, path@),
{
    if str_eq(from, path) {
        return true;
    }
    let fc = str_chars(from);
    let pc = str_chars(path);
    if pc.len() <= fc.len() {
        return false;
    }
    if pc[fc.len()] != '/' {
        return false;
    }
    let mut i: usize = 0;
    while i < fc.len()
        invariant
            i <= fc.len(),
            fc@.len() < pc@.len(),
            fc@ == from@,
            pc@ == path@,
            forall|j: int| 0 <= j < i ==> pc@[j] == fc@[j],
        decreases fc.len() - i,
    {
        if pc[i] != fc[i] {
            proof {
                assert(path@.take(from@.len() as int)[i as int] != from@[i as int]);
            }
            return false;
        }
        i = i + 1;
    }
    proof {
        assert(path@.take(from@.len() as int) =~= from@);
    }
    true
}

/// Replacing the value a pointer names (the whole document for the empty
/// pointer): the target must already exist.
pub open spec fn replace_spec(root: JsonV, p: Seq<char>, val: JsonV) -> Option<JsonV> {
    set_spec(root, p, val)
}

/// Moving a value: invalid into itself or a descendant; otherwise remove it
/// at the source, then add it at the destination.
pub open spec fn move_spec(root: JsonV, from: Seq<char>, path: Seq<char>) -> Option<JsonV> {
    if move_conflict(from, path) {
        None
    } else {
        match resolve_ptr_spec(root, from) {
            Some(val) => match delete_spec(root, from) {
                Some(removed) => add_spec(removed, path, val),
                None => None,
            },
            None => None,
        }
    }
}

/// Copying a value: read it at the source, then add it at the destination.
pub open spec fn copy_spec(root: JsonV, from: Seq<char>, path: Seq<char>) -> Option<JsonV> {
    match resolve_ptr_spec(root, from) {
        Some(val) => add_spec(root, path, val),
        None => None,
    }
}

/// Move the value at `from` to `path`.
pub fn apply_move(root: &Json, from: &str, path: &str) -> (r: Result<Json, EditError>)
    ensures
        match r {
            Ok(out) => move_spec(root@, from@, path@) == Some(out@),
            Err(_) => move_spec(root@, from@, path@) is None,
        },
{
    if is_move_conflict(from, path) {
        return Err(EditError::RootEdit);
    }
    let val = match resolve_pointer(root, from) {
        Ok(v) => v,
        Err(e) => {
            return Err(e);
        },
    };
    let removed = match apply_delete(root, from) {
        Ok(v) => v,
        Err(e) => {
            return Err(e);
        },
    };
    apply_add(&removed, path, val)
}

/// Copy the value at `from` to `path`.
pub fn apply_copy(root: &Json, from: &str, path: &str) -> (r: Result<Json, EditError>)
    ensures
        match r {
            Ok(out) => copy_spec(root@, from@, path@) == Some(out@),
            Err(_) => copy_spec(root@, from@, path@) is None,
        },
{
    let val = match resolve_pointer(root, from) {
        Ok(v) => v,
        Err(e) => {
            return Err(e);
        },
    };
    apply_add(root, path, val)
}

/// Test that the value a pointer names equals `expected`.
pub fn apply_test(root: &Json, path: &str, expected: &Json) -> (r: Result<(), EditError>)
    ensures
        r is Ok <==> resolve_ptr_spec(root@, path@) == Some(expected@),
{
    let actual = match resolve_pointer(root, path) {
        Ok(v) => v,
        Err(e) => {
            return Err(e);
        },
    };
    if json_eq(&actual, expected) {
        Ok(())
    } else {
        Err(EditError::TestFailed)
    }
}

} // verus!
