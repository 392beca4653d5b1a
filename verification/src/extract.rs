//! Record extraction: a pre-order walk of a document that emits one
//! addressable record per object node.
//!
//! The root object's address is the sentinel `/` (not the empty string);
//! every other record's address is the RFC 6901 pointer of its node, with
//! each key segment escaped.

use vstd::prelude::*;

use crate::digits::{dec_str, lemma_dec_str_val, lemma_parse_dec_str, parse_usize_spec, usize_to_chars};
use crate::json::{
    distinct_keys, json_clone, key_index, lemma_key_index, lemma_views_of_fields,
    lemma_views_of_list, lemma_wf_fields_index, lemma_wf_list_index, lookup_field, view_of,
    views_of_fields, views_of_list, wf, wf_fields, wf_list, Json, JsonV,
};
use crate::pointer::{
    built_pointer_spec, escape_chars, escape_spec, join_tail, lemma_built_pointer_parses,
    lemma_built_snoc, lemma_escape_empty, parse_pointer_spec,
};
use crate::text::{push_all, str_chars, string_from_chars, vec_skip};

verus! {

/// A record extracted from a JSON file: an object node, its address and the
/// file it came from.
#[derive(Debug)]
pub struct Record {
    pub pointer: String,
    pub file: String,
    pub value: Json,
}

/// The mathematical form of a record.
pub struct RecordV {
    pub pointer: Seq<char>,
    pub file: Seq<char>,
    pub value: JsonV,
}

impl View for Record {
    type V = RecordV;

    open spec fn view(&self) -> RecordV {
        RecordV { pointer: self.pointer@, file: self.file@, value: self.value@ }
    }
}

/// The views of a list of records.
pub open spec fn record_views(rs: Seq<Record>) -> Seq<RecordV> {
    rs.map_values(|r: Record| r@)
}

pub proof fn lemma_record_views_push(rs: Seq<Record>, r: Record)
    ensures
        record_views(rs.push(r)) == record_views(rs).push(r@),
{
    assert(record_views(rs.push(r)) =~= record_views(rs).push(r@));
}

/// The records extracted from `v`, whose address is `prefix` (empty for the
/// whole document) inside `file`: one record per object node, in pre-order;
/// arrays are walked but yield no record of their own.
pub open spec fn extracted(v: JsonV, prefix: Seq<char>, file: Seq<char>) -> Seq<RecordV>
    decreases v, 0int,
{
    match v {
        JsonV::Obj(fields) => seq![
            RecordV {
                pointer: if prefix.len() == 0 {
                    seq!['/']
                } else {
                    prefix
                },
                file: file,
                value: v,
            },
        ] + extracted_fields(fields, prefix, file, 0),
        JsonV::Arr(items) => extracted_items(items, prefix, file, 0),
        _ => Seq::empty(),
    }
}

/// The records extracted from the object members from position `k` on.
pub open spec fn extracted_fields(
    fields: Seq<(Seq<char>, JsonV)>,
    prefix: Seq<char>,
    file: Seq<char>,
    k: int,
) -> Seq<RecordV>
    decreases fields, fields.len() - k,
{
    if k < 0 || k >= fields.len() {
        Seq::empty()
    } else {
        extracted(fields[k].1, prefix + seq!['/'] + escape_spec(fields[k].0), file)
            + extracted_fields(fields, prefix, file, k + 1)
    }
}

/// The records extracted from the array elements from position `k` on.
pub open spec fn extracted_items(
    items: Seq<JsonV>,
    prefix: Seq<char>,
    file: Seq<char>,
    k: int,
) -> Seq<RecordV>
    decreases items, items.len() - k,
{
    if k < 0 || k >= items.len() {
        Seq::empty()
    } else {
        extracted(items[k], prefix + seq!['/'] + dec_str(k as nat), file) + extracted_items(
            items,
            prefix,
            file,
            k + 1,
        )
    }
}

/// Walks `value` at address `pointer`, appending one record per object node.
#[verifier::loop_isolation(false)]
pub fn extract_recursive(value: &Json, pointer: &Vec<char>, file: &String, records: &mut Vec<Record>)
    ensures
        record_views(final(records)@) == record_views(old(records)@) + extracted(
            value@,
            pointer@,
            file@,
        ),
    decreases *value,
{
    match value {
        Json::Obj(fields) => {
            let ptr_str: String = if pointer.len() == 0 {
                let mut root: Vec<char> = Vec::new();
                root.push('/');
                string_from_chars(&root)
            } else {
                string_from_chars(pointer)
            };
            let ghost mev = RecordV {
                pointer: if pointer@.len() == 0 {
                    seq!['/']
                } else {
                    pointer@
                },
                file: file@,
                value: value@,
            };
            let rec = Record { pointer: ptr_str, file: file.clone(), value: json_clone(value) };
            proof {
                assert(rec@ == mev);
                lemma_record_views_push(records@, rec);
                lemma_views_of_fields(fields@, 0);
            }
            records.push(rec);
            let ghost fviews = views_of_fields(fields@, 0);
            let mut k: usize = 0;
            proof {
                assert(record_views(records@) + extracted_fields(fviews, pointer@, file@, 0)
                    =~= record_views(old(records)@) + extracted(value@, pointer@, file@));
            }
            while k < fields.len()
                invariant
                    k <= fields.len(),
                    record_views(records@) + extracted_fields(fviews, pointer@, file@, k as int)
                        =~= record_views(old(records)@) + extracted(value@, pointer@, file@),
                decreases fields.len() - k,
            {
                let mut child_ptr = vec_skip(pointer, 0);
                child_ptr.push('/');
                let key_chars = str_chars(fields[k].0.as_str());
                let esc = escape_chars(&key_chars);
                push_all(&mut child_ptr, &esc);
                proof {
                    assert(child_ptr@ =~= pointer@ + seq!['/'] + escape_spec(fviews[k as int].0));
                }
                let ghost before = records@;
                extract_recursive(&fields[k].1, &child_ptr, file, records);
                proof {
                    assert(view_of(fields@[k as int].1) == fviews[k as int].1);
                    assert(record_views(records@) + extracted_fields(
                        fviews,
                        pointer@,
                        file@,
                        k + 1 as int,
                    ) =~= record_views(old(records)@) + extracted(value@, pointer@, file@)) by {
                        assert(extracted_fields(fviews, pointer@, file@, k as int) == extracted(
                            fviews[k as int].1,
                            pointer@ + seq!['/'] + escape_spec(fviews[k as int].0),
                            file@,
                        ) + extracted_fields(fviews, pointer@, file@, k + 1 as int));
                        assert(record_views(records@) =~= record_views(before) + extracted(
                            fviews[k as int].1,
                            pointer@ + seq!['/'] + escape_spec(fviews[k as int].0),
                            file@,
                        ));
                    }
                }
                k = k + 1;
            }
            proof {
                assert(extracted_fields(fviews, pointer@, file@, fields@.len() as int)
                    =~= Seq::<RecordV>::empty());
                assert(record_views(records@) =~= record_views(records@) + Seq::<
                    RecordV,
                >::empty());
            }
        },
        Json::Arr(items) => {
            proof {
                lemma_views_of_list(items@, 0);
            }
            let ghost ivews = views_of_list(items@, 0);
            let mut k: usize = 0;
            proof {
                assert(record_views(records@) + extracted_items(ivews, pointer@, file@, 0)
                    =~= record_views(old(records)@) + extracted(value@, pointer@, file@));
            }
            while k < items.len()
                invariant
                    k <= items.len(),
                    record_views(records@) + extracted_items(ivews, pointer@, file@, k as int)
                        =~= record_views(old(records)@) + extracted(value@, pointer@, file@),
                decreases items.len() - k,
            {
                let mut child_ptr = vec_skip(pointer, 0);
                child_ptr.push('/');
                let idx = usize_to_chars(k);
                push_all(&mut child_ptr, &idx);
                proof {
                    assert(child_ptr@ =~= pointer@ + seq!['/'] + dec_str(k as nat));
                }
                let ghost before = records@;
                extract_recursive(&items[k], &child_ptr, file, records);
                proof {
                    assert(view_of(items@[k as int]) == ivews[k as int]);
                    assert(record_views(records@) + extracted_items(
                        ivews,
                        pointer@,
                        file@,
                        k + 1 as int,
                    ) =~= record_views(old(records)@) + extracted(value@, pointer@, file@)) by {
                        assert(extracted_items(ivews, pointer@, file@, k as int) == extracted(
                            ivews[k as int],
                            pointer@ + seq!['/'] + dec_str(k as nat),
                            file@,
                        ) + extracted_items(ivews, pointer@, file@, k + 1 as int));
                        assert(record_views(records@) =~= record_views(before) + extracted(
                            ivews[k as int],
                            pointer@ + seq!['/'] + dec_str(k as nat),
                            file@,
                        ));
                    }
                }
                k = k + 1;
            }
            proof {
                assert(extracted_items(ivews, pointer@, file@, items@.len() as int) =~= Seq::<
                    RecordV,
                >::empty());
                assert(record_views(records@) =~= record_views(records@) + Seq::<
                    RecordV,
                >::empty());
            }
        },
        _ => {
            proof {
                assert(extracted(value@, pointer@, file@) =~= Seq::<RecordV>::empty());
                assert(record_views(records@) =~= record_views(records@) + Seq::<
                    RecordV,
                >::empty());
            }
        },
    }
}

/// Extract records from a JSON value, walking the tree.
pub fn extract_records(value: &Json, file: &str) -> (r: Vec<Record>)
    ensures
        record_views(r@) == extracted(value@, Seq::empty(), file@),
{
    let mut records: Vec<Record> = Vec::new();
    let pointer: Vec<char> = Vec::new();
    let f = String::from_str(file);
    proof {
        assert(record_views(records@) =~= Seq::<RecordV>::empty());
    }
    extract_recursive(value, &pointer, &f, &mut records);
    proof {
        assert(record_views(records@) =~= extracted(value@, Seq::empty(), f@));
    }
    records
}

/// One resolution step: how a single unescaped segment selects a child.
pub open spec fn resolve_one(v: JsonV, seg: Seq<char>) -> Option<JsonV> {
    match v {
        JsonV::Obj(fields) => lookup_field(fields, seg),
        JsonV::Arr(items) => match parse_usize_spec(seg) {
            Some(i) => if i < items.len() {
                Some(items[i])
            } else {
                None
            },
            None => None,
        },
        _ => None,
    }
}

/// Follows unescaped segments down a document.
pub open spec fn resolve_segments(v: JsonV, segs: Seq<Seq<char>>) -> Option<JsonV>
    decreases segs.len(),
{
    if segs.len() == 0 {
        Some(v)
    } else {
        match resolve_one(v, segs[0]) {
            Some(child) => resolve_segments(child, segs.skip(1)),
            None => None,
        }
    }
}

/// Resolving a record pointer against its document: the sentinel `/`
/// addresses the whole document; every other pointer is parsed and followed.
pub open spec fn record_resolve(doc: JsonV, pointer: Seq<char>) -> Option<JsonV> {
    if pointer == seq!['/'] {
        Some(doc)
    } else {
        match parse_pointer_spec(pointer) {
            Some(segs) => resolve_segments(doc, segs),
            None => None,
        }
    }
}

/// Resolving one more segment resolves the shorter path, then takes one step.
pub proof fn lemma_resolve_snoc(doc: JsonV, segs: Seq<Seq<char>>, seg: Seq<char>)
    ensures
        resolve_segments(doc, segs.push(seg)) == (match resolve_segments(doc, segs) {
            Some(v) => resolve_one(v, seg),
            None => None,
        }),
    decreases segs.len(),
{
    if segs.len() == 0 {
        assert(segs.push(seg)[0] == seg);
        assert(segs.push(seg).skip(1) =~= Seq::<Seq<char>>::empty());
        assert(resolve_segments(doc, segs) == Some(doc));
        match resolve_one(doc, seg) {
            Some(child) => {
                assert(resolve_segments(child, Seq::<Seq<char>>::empty()) == Some(child));
            },
            None => {},
        }
    } else {
        assert(segs.push(seg)[0] == segs[0]);
        assert(segs.push(seg).skip(1) =~= segs.skip(1).push(seg));
        match resolve_one(doc, segs[0]) {
            Some(child) => {
                lemma_resolve_snoc(child, segs.skip(1), seg);
                assert(resolve_segments(doc, segs) == resolve_segments(child, segs.skip(1)));
                assert(resolve_segments(doc, segs.push(seg)) == resolve_segments(
                    child,
                    segs.skip(1).push(seg),
                ));
            },
            None => {},
        }
    }
}

/// The root object (if the document is an object) has no empty key.
pub open spec fn root_keys_nonempty(v: JsonV) -> bool {
    match v {
        JsonV::Obj(fields) => forall|i: int| 0 <= i < fields.len() ==> fields[i].0.len() > 0,
        _ => true,
    }
}

proof fn lemma_resolve_sub(doc: JsonV, segs: Seq<Seq<char>>, v: JsonV, file: Seq<char>)
    requires
        wf(v),
        resolve_segments(doc, segs) == Some(v),
        !(segs.len() == 1 && segs[0].len() == 0),
        segs.len() == 0 ==> root_keys_nonempty(doc),
    ensures
        forall|k: int|
            0 <= k < extracted(v, built_pointer_spec(segs), file).len() ==> record_resolve(
                doc,
                extracted(v, built_pointer_spec(segs), file)[k].pointer,
            ) == Some(extracted(v, built_pointer_spec(segs), file)[k].value),
    decreases v, 0int,
{
    let prefix = built_pointer_spec(segs);
    match v {
        JsonV::Obj(fields) => {
            let me_ptr = if prefix.len() == 0 {
                seq!['/']
            } else {
                prefix
            };
            assert(record_resolve(doc, me_ptr) == Some(v)) by {
                if segs.len() == 0 {
                    assert(prefix =~= Seq::<char>::empty());
                    assert(me_ptr =~= seq!['/']);
                } else {
                    assert(prefix == seq!['/'] + escape_spec(segs[0]) + join_tail(segs, 1));
                    assert(prefix.len() >= 1);
                    if prefix == seq!['/'] {
                        lemma_escape_empty(segs[0]);
                        if segs.len() >= 2 {
                            assert(join_tail(segs, 1).len() >= 1);
                        }
                        assert(segs.len() == 1 && segs[0].len() == 0);
                        assert(false);
                    }
                    lemma_built_pointer_parses(segs);
                }
            }
            lemma_resolve_sub_fields(doc, segs, fields, file, 0);
            let ext = extracted(v, prefix, file);
            let ef = extracted_fields(fields, prefix, file, 0);
            assert forall|k: int|
                0 <= k < ext.len() implies record_resolve(doc, ext[k].pointer) == Some(
                ext[k].value,
            ) by {
                if k == 0 {
                    assert(ext[0].pointer == me_ptr && ext[0].value == v);
                } else {
                    assert(ext[k] == ef[k - 1]);
                }
            }
        },
        JsonV::Arr(items) => {
            lemma_resolve_sub_items(doc, segs, items, file, 0);
        },
        _ => {},
    }
}

proof fn lemma_resolve_sub_fields(
    doc: JsonV,
    segs: Seq<Seq<char>>,
    fields: Seq<(Seq<char>, JsonV)>,
    file: Seq<char>,
    k: int,
)
    requires
        0 <= k <= fields.len(),
        distinct_keys(fields),
        wf_fields(fields, 0),
        resolve_segments(doc, segs) == Some(JsonV::Obj(fields)),
        !(segs.len() == 1 && segs[0].len() == 0),
        segs.len() == 0 ==> (forall|i: int| 0 <= i < fields.len() ==> fields[i].0.len() > 0),
    ensures
        forall|j: int|
            0 <= j < extracted_fields(fields, built_pointer_spec(segs), file, k).len()
                ==> record_resolve(
                doc,
                extracted_fields(fields, built_pointer_spec(segs), file, k)[j].pointer,
            ) == Some(extracted_fields(fields, built_pointer_spec(segs), file, k)[j].value),
    decreases fields, fields.len() - k,
{
    let prefix = built_pointer_spec(segs);
    if k < fields.len() {
        let key = fields[k].0;
        let child = fields[k].1;
        let segs2 = segs.push(key);
        lemma_resolve_snoc(doc, segs, key);
        lemma_key_index(fields, key);
        assert(key_index(fields, key) == k) by {
            let ki = key_index(fields, key);
            assert(0 <= ki <= k);
            if ki < k {
                assert(fields[ki].0 == fields[k].0);
                assert(false);
            }
        }
        assert(resolve_segments(doc, segs2) == Some(child));
        lemma_built_snoc(segs, key);
        assert(!(segs2.len() == 1 && segs2[0].len() == 0)) by {
            if segs.len() == 0 {
                assert(segs2[0] == key);
                assert(key.len() > 0);
            }
        }
        lemma_wf_fields_index(fields, 0, k);
        lemma_resolve_sub(doc, segs2, child, file);
        lemma_resolve_sub_fields(doc, segs, fields, file, k + 1);
        let a = extracted(child, prefix + seq!['/'] + escape_spec(key), file);
        let b = extracted_fields(fields, prefix, file, k + 1);
        assert(built_pointer_spec(segs2) == prefix + seq!['/'] + escape_spec(key));
        assert forall|j: int|
            0 <= j < extracted_fields(fields, prefix, file, k).len() implies record_resolve(
            doc,
            extracted_fields(fields, prefix, file, k)[j].pointer,
        ) == Some(extracted_fields(fields, prefix, file, k)[j].value) by {
            assert(extracted_fields(fields, prefix, file, k) == a + b);
            if j < a.len() {
                assert(extracted_fields(fields, prefix, file, k)[j] == a[j]);
            } else {
                assert(extracted_fields(fields, prefix, file, k)[j] == b[j - a.len()]);
            }
        }
    }
}

proof fn lemma_resolve_sub_items(
    doc: JsonV,
    segs: Seq<Seq<char>>,
    items: Seq<JsonV>,
    file: Seq<char>,
    k: int,
)
    requires
        0 <= k <= items.len(),
        items.len() <= usize::MAX,
        wf_list(items, 0),
        resolve_segments(doc, segs) == Some(JsonV::Arr(items)),
        !(segs.len() == 1 && segs[0].len() == 0),
    ensures
        forall|j: int|
            0 <= j < extracted_items(items, built_pointer_spec(segs), file, k).len()
                ==> record_resolve(
                doc,
                extracted_items(items, built_pointer_spec(segs), file, k)[j].pointer,
            ) == Some(extracted_items(items, built_pointer_spec(segs), file, k)[j].value),
    decreases items, items.len() - k,
{
    let prefix = built_pointer_spec(segs);
    if k < items.len() {
        let seg = dec_str(k as nat);
        let child = items[k];
        let segs2 = segs.push(seg);
        lemma_resolve_snoc(doc, segs, seg);
        lemma_dec_str_val(k as nat);
        lemma_parse_dec_str(k as nat);
        assert(resolve_one(JsonV::Arr(items), seg) == Some(child));
        assert(resolve_segments(doc, segs2) == Some(child));
        lemma_built_snoc(segs, seg);
        assert(!(segs2.len() == 1 && segs2[0].len() == 0)) by {
            if segs.len() == 0 {
                assert(segs2[0] == seg);
                assert(seg.len() >= 1);
            }
        }
        lemma_wf_list_index(items, 0, k);
        lemma_resolve_sub(doc, segs2, child, file);
        lemma_resolve_sub_items(doc, segs, items, file, k + 1);
        let a = extracted(child, prefix + seq!['/'] + dec_str(k as nat), file);
        let b = extracted_items(items, prefix, file, k + 1);
        assert(built_pointer_spec(segs2) == prefix + seq!['/'] + escape_spec(seg));
        assert(escape_spec(seg) =~= seg) by {
            lemma_escape_digits(seg);
        }
        assert forall|j: int|
            0 <= j < extracted_items(items, prefix, file, k).len() implies record_resolve(
            doc,
            extracted_items(items, prefix, file, k)[j].pointer,
        ) == Some(extracted_items(items, prefix, file, k)[j].value) by {
            assert(extracted_items(items, prefix, file, k) == a + b);
            if j < a.len() {
                assert(extracted_items(items, prefix, file, k)[j] == a[j]);
            } else {
                assert(extracted_items(items, prefix, file, k)[j] == b[j - a.len()]);
            }
        }
    }
}

/// A sequence of digit characters is unchanged by pointer escaping.
proof fn lemma_escape_digits(s: Seq<char>)
    requires
        forall|i: int| 0 <= i < s.len() ==> s[i] != '~' && s[i] != '/',
    ensures
        escape_spec(s) == s,
    decreases s.len(),
{
    if s.len() == 0 {
        assert(escape_spec(s) =~= s);
    } else {
        assert(forall|i: int| 0 <= i < s.skip(1).len() ==> s.skip(1)[i] != '~' && s.skip(1)[i]
            != '/');
        lemma_escape_digits(s.skip(1));
        assert(escape_spec(s) =~= s);
    }
}

/// Every record extracted from a well-formed document resolves, by its own
/// pointer, to exactly the value it carries. (If the root is an object, its
/// keys must be non-empty: a root-level empty key would collide with the
/// root sentinel `/`.)
pub proof fn lemma_extracted_pointers_resolve(doc: JsonV, file: Seq<char>)
    requires
        wf(doc),
        root_keys_nonempty(doc),
    ensures
        forall|k: int|
            0 <= k < extracted(doc, Seq::empty(), file).len() ==> record_resolve(
                doc,
                extracted(doc, Seq::empty(), file)[k].pointer,
            ) == Some(extracted(doc, Seq::empty(), file)[k].value),
{
    assert(built_pointer_spec(Seq::empty()) =~= Seq::<char>::empty());
    lemma_resolve_sub(doc, Seq::empty(), doc, file);
}

} // verus!
