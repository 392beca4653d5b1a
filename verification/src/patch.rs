//! RFC 6902 patch documents: decoding operation objects and applying them in
//! order, with the test operations run first as a pre-flight so a failing
//! patch aborts before any edit.

use vstd::prelude::*;

use crate::digits::{dec_str, usize_to_chars};
use crate::edit::{
    add_spec, apply_add, apply_copy, apply_delete, apply_move, apply_set, apply_test, copy_spec,
    delete_spec, edit_error_text, move_spec, resolve_ptr_spec, set_spec, EditError,
};
use crate::json::{
    find_key, json_clone, lemma_views_of_fields, lemma_views_of_list, lookup_field, view_of,
    views_of_fields, views_of_list, Json, JsonV,
};
use crate::pointer::{normalize_pointer_for_error, normalize_spec};
use crate::text::{push_all, push_str_chars, str_eq, string_from_chars};

verus! {

/// The member of an operation object, if it is an object and has it.
pub open spec fn op_field(op: JsonV, name: Seq<char>) -> Option<JsonV> {
    match op {
        JsonV::Obj(fields) => lookup_field(fields, name),
        _ => None,
    }
}

/// A string-valued member of an operation object.
pub open spec fn op_str(op: JsonV, name: Seq<char>) -> Option<Seq<char>> {
    match op_field(op, name) {
        Some(JsonV::Str(s)) => Some(s),
        _ => None,
    }
}

/// What one operation does to the document: `test` demands the pointed-at
/// value equal the given one and leaves the document unchanged; the other
/// five edit it; anything else is malformed.
pub open spec fn patch_one_spec(root: JsonV, op: JsonV) -> Option<JsonV> {
    match op_str(op, "op"@) {
        Some(n) => if n == "test"@ {
            match (op_str(op, "path"@), op_field(op, "value"@)) {
                (Some(p), Some(v)) => if resolve_ptr_spec(root, p) == Some(v) {
                    Some(root)
                } else {
                    None
                },
                _ => None,
            }
        } else if n == "add"@ {
            match (op_str(op, "path"@), op_field(op, "value"@)) {
                (Some(p), Some(v)) => add_spec(root, p, v),
                _ => None,
            }
        } else if n == "remove"@ {
            match op_str(op, "path"@) {
                Some(p) => delete_spec(root, p),
                None => None,
            }
        } else if n == "replace"@ {
            match (op_str(op, "path"@), op_field(op, "value"@)) {
                (Some(p), Some(v)) => set_spec(root, p, v),
                _ => None,
            }
        } else if n == "move"@ {
            match (op_str(op, "from"@), op_str(op, "path"@)) {
                (Some(f), Some(p)) => move_spec(root, f, p),
                _ => None,
            }
        } else if n == "copy"@ {
            match (op_str(op, "from"@), op_str(op, "path"@)) {
                (Some(f), Some(p)) => copy_spec(root, f, p),
                _ => None,
            }
        } else {
            None
        },
        None => None,
    }
}

/// The pre-flight accepts one operation when it is named, and any `test`
/// among them holds against the original document.
pub open spec fn preflight_step(root: JsonV, op: JsonV) -> bool {
    match op_str(op, "op"@) {
        Some(n) => n == "test"@ ==> patch_one_spec(root, op) is Some,
        None => false,
    }
}

/// The pre-flight of the operations from position `k` on.
pub open spec fn preflight_ok(root: JsonV, ops: Seq<JsonV>, k: int) -> bool
    decreases ops.len() - k,
{
    k >= ops.len() || k < 0 || (preflight_step(root, ops[k]) && preflight_ok(root, ops, k + 1))
}

/// Applying the operations from position `k` on, in order.
pub open spec fn patch_fold(root: JsonV, ops: Seq<JsonV>, k: int) -> Option<JsonV>
    decreases ops.len() - k,
{
    if k < 0 || k >= ops.len() {
        Some(root)
    } else {
        match patch_one_spec(root, ops[k]) {
            Some(next) => patch_fold(next, ops, k + 1),
            None => None,
        }
    }
}

/// Why a patch failed: the position of the failing operation in the patch
/// document, the pointer it named (empty when it had none), and the fault.
#[derive(Debug)]
pub struct PatchError {
    pub index: usize,
    pub pointer: String,
    pub kind: EditError,
}

/// The description of a patch error: the op index, the pointer in canonical
/// escaped form, and the fault.
pub open spec fn patch_error_text(index: int, pointer: Seq<char>, kind: EditError) -> Seq<char> {
    "Patch op "@ + dec_str(index as nat) + " failed at "@ + normalize_spec(pointer) + ": "@
        + edit_error_text(kind)
}

impl PatchError {
    /// A description naming the failing op and its pointer in canonical
    /// escaped form.
    pub fn message(&self) -> (r: String)
        ensures
            r@ == patch_error_text(self.index as int, self.pointer@, self.kind),
    {
        let mut out: Vec<char> = Vec::new();
        push_str_chars(&mut out, "Patch op ");
        let idx = usize_to_chars(self.index);
        push_all(&mut out, &idx);
        push_str_chars(&mut out, " failed at ");
        let norm = normalize_pointer_for_error(self.pointer.as_str());
        push_str_chars(&mut out, norm.as_str());
        push_str_chars(&mut out, ": ");
        let kind_msg = self.kind.message();
        push_str_chars(&mut out, kind_msg.as_str());
        proof {
            assert(out@ =~= patch_error_text(self.index as int, self.pointer@, self.kind));
        }
        string_from_chars(&out)
    }
}

/// A string-valued member of an operation object.
fn get_str_field(op: &Json, name: &str) -> (r: Option<String>)
    ensures
        match r {
            Some(s) => op_str(op@, name@) == Some(s@),
            None => op_str(op@, name@) is None,
        },
{
    match op {
        Json::Obj(fields) => {
            proof {
                lemma_views_of_fields(fields@, 0);
                assert(op@ == JsonV::Obj(views_of_fields(fields@, 0)));
            }
            let key = String::from_str(name);
            match find_key(fields, &key) {
                Some(ki) => {
                    proof {
                        assert(lookup_field(views_of_fields(fields@, 0), name@) == Some(
                            view_of(fields@[ki as int].1),
                        ));
                    }
                    match &fields[ki].1 {
                        Json::Str(s) => Some(s.clone()),
                        _ => None,
                    }
                },
                None => {
                    proof {
                        assert(lookup_field(views_of_fields(fields@, 0), name@) is None);
                    }
                    None
                },
            }
        },
        _ => None,
    }
}

/// A member of an operation object, copied out.
fn get_field(op: &Json, name: &str) -> (r: Option<Json>)
    ensures
        match r {
            Some(v) => op_field(op@, name@) == Some(v@),
            None => op_field(op@, name@) is None,
        },
{
    match op {
        Json::Obj(fields) => {
            proof {
                lemma_views_of_fields(fields@, 0);
                assert(op@ == JsonV::Obj(views_of_fields(fields@, 0)));
            }
            let key = String::from_str(name);
            match find_key(fields, &key) {
                Some(ki) => {
                    proof {
                        assert(lookup_field(views_of_fields(fields@, 0), name@) == Some(
                            view_of(fields@[ki as int].1),
                        ));
                    }
                    Some(json_clone(&fields[ki].1))
                },
                None => {
                    proof {
                        assert(lookup_field(views_of_fields(fields@, 0), name@) is None);
                    }
                    None
                },
            }
        },
        _ => None,
    }
}

/// Apply a single operation to the document; the error names the pointer
/// the operation used (its index is filled in by the whole-patch applier).
pub fn apply_patch_op(root: &Json, op: &Json) -> (r: Result<Json, PatchError>)
    ensures
        match r {
            Ok(out) => patch_one_spec(root@, op@) == Some(out@),
            Err(_) => patch_one_spec(root@, op@) is None,
        },
{
    let name = match get_str_field(op, "op") {
        Some(n) => n,
        None => {
            return Err(bad_patch_error());
        },
    };
    if str_eq(name.as_str(), "test") {
        let path = match get_str_field(op, "path") {
            Some(p) => p,
            None => {
                return Err(bad_patch_error());
            },
        };
        let value = match get_field(op, "value") {
            Some(v) => v,
            None => {
                return Err(bad_patch_error());
            },
        };
        match apply_test(root, path.as_str(), &value) {
            Ok(_) => Ok(json_clone(root)),
            Err(e) => Err(PatchError { index: 0, pointer: path, kind: e }),
        }
    } else if str_eq(name.as_str(), "add") {
        let path = match get_str_field(op, "path") {
            Some(p) => p,
            None => {
                return Err(bad_patch_error());
            },
        };
        let value = match get_field(op, "value") {
            Some(v) => v,
            None => {
                return Err(bad_patch_error());
            },
        };
        match apply_add(root, path.as_str(), value) {
            Ok(out) => Ok(out),
            Err(e) => Err(PatchError { index: 0, pointer: path, kind: e }),
        }
    } else if str_eq(name.as_str(), "remove") {
        let path = match get_str_field(op, "path") {
            Some(p) => p,
            None => {
                return Err(bad_patch_error());
            },
        };
        match apply_delete(root, path.as_str()) {
            Ok(out) => Ok(out),
            Err(e) => Err(PatchError { index: 0, pointer: path, kind: e }),
        }
    } else if str_eq(name.as_str(), "replace") {
        let path = match get_str_field(op, "path") {
            Some(p) => p,
            None => {
                return Err(bad_patch_error());
            },
        };
        let value = match get_field(op, "value") {
            Some(v) => v,
            None => {
                return Err(bad_patch_error());
            },
        };
        match apply_set(root, path.as_str(), value) {
            Ok(out) => Ok(out),
            Err(e) => Err(PatchError { index: 0, pointer: path, kind: e }),
        }
    } else if str_eq(name.as_str(), "move") {
        let from = match get_str_field(op, "from") {
            Some(f) => f,
            None => {
                return Err(bad_patch_error());
            },
        };
        let path = match get_str_field(op, "path") {
            Some(p) => p,
            None => {
                return Err(bad_patch_error());
            },
        };
        match apply_move(root, from.as_str(), path.as_str()) {
            Ok(out) => Ok(out),
            Err(e) => Err(PatchError { index: 0, pointer: path, kind: e }),
        }
    } else if str_eq(name.as_str(), "copy") {
        let from = match get_str_field(op, "from") {
            Some(f) => f,
            None => {
                return Err(bad_patch_error());
            },
        };
        let path = match get_str_field(op, "path") {
            Some(p) => p,
            None => {
                return Err(bad_patch_error());
            },
        };
        match apply_copy(root, from.as_str(), path.as_str()) {
            Ok(out) => Ok(out),
            Err(e) => Err(PatchError { index: 0, pointer: path, kind: e }),
        }
    } else {
        Err(bad_patch_error())
    }
}

/// The error for a malformed operation object, with no pointer to name.
fn bad_patch_error() -> (r: PatchError)
    ensures
        r.kind is BadPatch,
{
    PatchError { index: 0, pointer: String::new(), kind: EditError::BadPatch }
}

/// Apply a whole patch document: every `test` runs first against the
/// original document, then all operations apply in order. Succeeds exactly
/// when the pre-flight holds and every operation applies.
#[verifier::loop_isolation(false)]
pub fn apply_patch(root: &Json, ops: &Vec<Json>) -> (r: Result<Json, PatchError>)
    ensures
        match r {
            Ok(out) => preflight_ok(root@, views_of_list(ops@, 0), 0) && patch_fold(
                root@,
                views_of_list(ops@, 0),
                0,
            ) == Some(out@),
            Err(_) => !preflight_ok(root@, views_of_list(ops@, 0), 0) || patch_fold(
                root@,
                views_of_list(ops@, 0),
                0,
            ) is None,
        },
{
    proof {
        lemma_views_of_list(ops@, 0);
    }
    let ghost ovs = views_of_list(ops@, 0);
    let mut i: usize = 0;
    while i < ops.len()
        invariant
            i <= ops@.len(),
            preflight_ok(root@, ovs, 0) == preflight_ok(root@, ovs, i as int),
        decreases ops.len() - i,
    {
        let name = match get_str_field(&ops[i], "op") {
            Some(n) => n,
            None => {
                proof {
                    assert(!preflight_step(root@, ovs[i as int]));
                }
                let mut e = bad_patch_error();
                e.index = i;
                return Err(e);
            },
        };
        if str_eq(name.as_str(), "test") {
            match apply_patch_op(root, &ops[i]) {
                Ok(_) => {},
                Err(e) => {
                    proof {
                        assert(!preflight_step(root@, ovs[i as int]));
                    }
                    let mut e2 = e;
                    e2.index = i;
                    return Err(e2);
                },
            }
        }
        i = i + 1;
    }
    let mut cur = json_clone(root);
    let mut k: usize = 0;
    while k < ops.len()
        invariant
            k <= ops@.len(),
            preflight_ok(root@, ovs, 0),
            patch_fold(root@, ovs, 0) == patch_fold(cur@, ovs, k as int),
        decreases ops.len() - k,
    {
        match apply_patch_op(&cur, &ops[k]) {
            Ok(next) => {
                cur = next;
            },
            Err(e) => {
                let mut e2 = e;
                e2.index = k;
                return Err(e2);
            },
        }
        k = k + 1;
    }
    Ok(cur)
}

} // verus!
