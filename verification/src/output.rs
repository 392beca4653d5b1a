//! The output materialiser: windows, projects, formats and byte-budgets the
//! final payload of a search.
//!
//! A response is built as a JSON value (an envelope with `meta` and the
//! payload, or the bare payload) and rendered through the serialiser; the
//! byte budget greedily accepts serialised items while they fit, reserving a
//! fixed overhead for the envelope.

use vstd::prelude::*;

use crate::digits::{dec_str, usize_to_string};
use crate::json::{
    json_clone, lemma_views_of_fields, lemma_views_of_list, view_of, views_of_fields,
    views_of_list, Json, JsonV,
};
use crate::options::OutputMode;
use crate::pointer::string_views;
use crate::render::{compact_text_of, pretty_text_of, render_compact, render_pretty};
use crate::results::{result_views, SearchResult, SearchResultV};
use vstd::string::StringSliceAdditionalSpecFns;
use vstd::utf8::encode_utf8;

verus! {

/// Bytes reserved for the envelope and metadata around budgeted items.
pub const RESERVED_OVERHEAD: usize = 200;

/// What one response reports about itself.
#[derive(Clone, Copy, PartialEq, Eq, Structural, Debug)]
pub struct Meta {
    pub total: usize,
    pub returned: usize,
    pub limit: usize,
    pub truncated: bool,
    pub files_searched: Option<usize>,
}

/// One match with its address, file and score.
#[derive(Debug)]
pub struct Hit {
    pub file: String,
    pub pointer: String,
    pub record: Json,
    pub score: String,
}

/// The mathematical form of a hit.
pub struct HitV {
    pub file: Seq<char>,
    pub pointer: Seq<char>,
    pub record: JsonV,
    pub score: Seq<char>,
}

impl View for Hit {
    type V = HitV;

    open spec fn view(&self) -> HitV {
        HitV {
            file: self.file@,
            pointer: self.pointer@,
            record: self.record@,
            score: self.score@,
        }
    }
}

/// A search response envelope: metadata plus the payload (result values or
/// hits, each already in its JSON form).
#[derive(Debug)]
pub struct Envelope {
    pub meta: Meta,
    pub results: Option<Vec<Json>>,
    pub hits: Option<Vec<Json>>,
}

/// The JSON form of the metadata object.
pub open spec fn meta_json(m: Meta) -> JsonV {
    let base = seq![
        ("total"@, JsonV::Num(dec_str(m.total as nat))),
        ("returned"@, JsonV::Num(dec_str(m.returned as nat))),
        ("limit"@, JsonV::Num(dec_str(m.limit as nat))),
        ("truncated"@, JsonV::Bool(m.truncated)),
    ];
    match m.files_searched {
        Some(n) => JsonV::Obj(base.push(("files_searched"@, JsonV::Num(dec_str(n as nat))))),
        None => JsonV::Obj(base),
    }
}

/// The JSON form of one hit: file, pointer, projected record and score.
pub open spec fn hit_json(h: HitV) -> JsonV {
    JsonV::Obj(
        seq![
            ("file"@, JsonV::Str(h.file)),
            ("pointer"@, JsonV::Str(h.pointer)),
            ("record"@, h.record),
            ("score"@, JsonV::Num(h.score)),
        ],
    )
}

/// The JSON form of an envelope: the metadata, then the payload under
/// `results` or `hits` when one is present.
pub open spec fn envelope_obj(
    m: Meta,
    results: Option<Seq<JsonV>>,
    hits: Option<Seq<JsonV>>,
) -> JsonV {
    let base = seq![("meta"@, meta_json(m))];
    let with_results = match results {
        Some(rs) => base.push(("results"@, JsonV::Arr(rs))),
        None => base,
    };
    let all = match hits {
        Some(hs) => with_results.push(("hits"@, JsonV::Arr(hs))),
        None => with_results,
    };
    JsonV::Obj(all)
}

/// The JSON form of a whole envelope value.
pub open spec fn envelope_json(e: Envelope) -> JsonV {
    envelope_obj(
        e.meta,
        match e.results {
            Some(rs) => Some(views_of_list(rs@, 0)),
            None => None,
        },
        match e.hits {
            Some(hs) => Some(views_of_list(hs@, 0)),
            None => None,
        },
    )
}

/// Builds the metadata JSON object.
fn meta_to_json(m: &Meta) -> (r: Json)
    ensures
        r@ == meta_json(*m),
{
    let mut fields: Vec<(String, Json)> = Vec::new();
    fields.push((String::from_str("total"), Json::Num(usize_to_string(m.total))));
    fields.push((String::from_str("returned"), Json::Num(usize_to_string(m.returned))));
    fields.push((String::from_str("limit"), Json::Num(usize_to_string(m.limit))));
    fields.push((String::from_str("truncated"), Json::Bool(m.truncated)));
    match m.files_searched {
        Some(n) => {
            fields.push((String::from_str("files_searched"), Json::Num(usize_to_string(n))));
        },
        None => {},
    }
    proof {
        lemma_views_of_fields(fields@, 0);
        match meta_json(*m) {
            JsonV::Obj(want) => {
                assert(views_of_fields(fields@, 0) =~= want);
            },
            _ => {
                assert(false);
            },
        }
    }
    Json::Obj(fields)
}

/// Builds the JSON form of one hit (consuming it).
fn hit_to_json(h: Hit) -> (r: Json)
    ensures
        r@ == hit_json(h@),
{
    let ghost hv = h@;
    let mut fields: Vec<(String, Json)> = Vec::new();
    fields.push((String::from_str("file"), Json::Str(h.file)));
    fields.push((String::from_str("pointer"), Json::Str(h.pointer)));
    fields.push((String::from_str("record"), h.record));
    fields.push((String::from_str("score"), Json::Num(h.score)));
    proof {
        lemma_views_of_fields(fields@, 0);
        match hit_json(hv) {
            JsonV::Obj(want) => {
                assert(views_of_fields(fields@, 0) =~= want);
            },
            _ => {
                assert(false);
            },
        }
    }
    Json::Obj(fields)
}

/// Builds the JSON form of a whole envelope (consuming it).
fn envelope_to_json(e: Envelope) -> (r: Json)
    ensures
        r@ == envelope_json(e),
{
    let ghost ev = e;
    let Envelope { meta, results, hits } = e;
    let mut fields: Vec<(String, Json)> = Vec::new();
    fields.push((String::from_str("meta"), meta_to_json(&meta)));
    let ghost results_v: Option<Seq<JsonV>> = match results {
        Some(ref rs) => Some(views_of_list(rs@, 0)),
        None => None,
    };
    match results {
        Some(rs) => {
            fields.push((String::from_str("results"), Json::Arr(rs)));
        },
        None => {},
    }
    let ghost hits_v: Option<Seq<JsonV>> = match hits {
        Some(ref hs) => Some(views_of_list(hs@, 0)),
        None => None,
    };
    match hits {
        Some(hs) => {
            fields.push((String::from_str("hits"), Json::Arr(hs)));
        },
        None => {},
    }
    proof {
        lemma_views_of_fields(fields@, 0);
        match envelope_json(ev) {
            JsonV::Obj(want) => {
                assert(views_of_fields(fields@, 0) =~= want);
            },
            _ => {
                assert(false);
            },
        }
    }
    Json::Obj(fields)
}

/// Whether a selection names this key.
pub open spec fn selected(sel: Seq<Seq<char>>, key: Seq<char>) -> bool {
    exists|i: int| 0 <= i < sel.len() && sel[i] == key
}

/// The members of an object that a selection keeps, from position `k` on.
pub open spec fn project_fields_from(
    fields: Seq<(Seq<char>, JsonV)>,
    sel: Seq<Seq<char>>,
    k: int,
) -> Seq<(Seq<char>, JsonV)>
    decreases fields.len() - k,
{
    if k < 0 || k >= fields.len() {
        Seq::empty()
    } else {
        (if selected(sel, fields[k].0) {
            seq![fields[k]]
        } else {
            Seq::empty()
        }) + project_fields_from(fields, sel, k + 1)
    }
}

/// Projection of one value: with a selection, an object keeps only the named
/// top-level members; everything else passes through unchanged.
pub open spec fn project_spec(v: JsonV, sel: Option<Seq<Seq<char>>>) -> JsonV {
    match sel {
        Some(fs) => match v {
            JsonV::Obj(fields) => JsonV::Obj(project_fields_from(fields, fs, 0)),
            _ => v,
        },
        None => v,
    }
}

/// Does the selection name this key?
#[verifier::loop_isolation(false)]
fn selected_exec(sel: &Vec<String>, key: &String) -> (r: bool)
    ensures
        r == selected(string_views(sel@), key@),
{
    let mut i: usize = 0;
    while i < sel.len()
        invariant
            i <= sel.len(),
            forall|j: int| 0 <= j < i ==> string_views(sel@)[j] != key@,
        decreases sel.len() - i,
    {
        if sel[i] == *key {
            proof {
                assert(string_views(sel@)[i as int] == key@);
            }
            return true;
        }
        i = i + 1;
    }
    proof {
        if selected(string_views(sel@), key@) {
            let j = choose|j: int|
                0 <= j < string_views(sel@).len() && string_views(sel@)[j] == key@;
            assert(false);
        }
    }
    false
}

/// Project a value: restrict an object to the selected top-level fields;
/// non-object values pass through unmodified.
#[verifier::loop_isolation(false)]
pub fn project_fields(value: &Json, select_fields: &Option<Vec<String>>) -> (r: Json)
    ensures
        r@ == project_spec(
            value@,
            match select_fields {
                Some(sel) => Some(string_views(sel@)),
                None => None::<Seq<Seq<char>>>,
            },
        ),
{
    match select_fields {
        None => json_clone(value),
        Some(sel) => {
            match value {
                Json::Obj(fields) => {
                    proof {
                        lemma_views_of_fields(fields@, 0);
                    }
                    let ghost fviews = views_of_fields(fields@, 0);
                    let ghost sv = string_views(sel@);
                    let mut out: Vec<(String, Json)> = Vec::new();
                    let mut k: usize = 0;
                    proof {
                        assert(views_of_fields(out@, 0) =~= Seq::<(Seq<char>, JsonV)>::empty());
                        lemma_views_of_fields(out@, 0);
                    }
                    while k < fields.len()
                        invariant
                            k <= fields.len(),
                            views_of_fields(out@, 0) + project_fields_from(fviews, sv, k as int)
                                =~= project_fields_from(fviews, sv, 0),
                        decreases fields.len() - k,
                    {
                        let ghost outv = views_of_fields(out@, 0);
                        if selected_exec(sel, &fields[k].0) {
                            proof {
                                assert(selected(sv, fviews[k as int].0));
                            }
                            let key = fields[k].0.clone();
                            let val = json_clone(&fields[k].1);
                            let ghost outseq = out@;
                            out.push((key, val));
                            proof {
                                lemma_views_of_fields(outseq, 0);
                                lemma_views_of_fields(out@, 0);
                                assert(out@ =~= outseq.push(out@.last()));
                                assert(views_of_fields(out@, 0) =~= outv.push(fviews[k as int]));
                            }
                        } else {
                            proof {
                                assert(!selected(sv, fviews[k as int].0));
                            }
                        }
                        proof {
                            assert(project_fields_from(fviews, sv, k as int) == (
                            if selected(sv, fviews[k as int].0) {
                                seq![fviews[k as int]]
                            } else {
                                Seq::<(Seq<char>, JsonV)>::empty()
                            }) + project_fields_from(fviews, sv, k + 1 as int));
                            assert(views_of_fields(out@, 0) + project_fields_from(
                                fviews,
                                sv,
                                k + 1 as int,
                            ) =~= project_fields_from(fviews, sv, 0));
                        }
                        k = k + 1;
                    }
                    proof {
                        assert(project_fields_from(fviews, sv, fields@.len() as int) =~= Seq::<
                            (Seq<char>, JsonV),
                        >::empty());
                        assert(views_of_fields(out@, 0) =~= project_fields_from(fviews, sv, 0));
                    }
                    Json::Obj(out)
                },
                _ => json_clone(value),
            }
        },
    }
}

/// Is this value a scalar (string, number or boolean)?
pub open spec fn is_scalar(v: JsonV) -> bool {
    v is Str || v is Num || v is Bool
}

/// The depth-1 scalar member values of an object, from position `k` on.
pub open spec fn scalar_values_from(fields: Seq<(Seq<char>, JsonV)>, k: int) -> Seq<JsonV>
    decreases fields.len() - k,
{
    if k < 0 || k >= fields.len() {
        Seq::empty()
    } else {
        (if is_scalar(fields[k].1) {
            seq![fields[k].1]
        } else {
            Seq::empty()
        }) + scalar_values_from(fields, k + 1)
    }
}

/// The value-mode payload of one record value: for objects, the depth-1
/// scalar leaves; anything else passes through as a singleton.
pub open spec fn depth1_values(v: JsonV) -> Seq<JsonV> {
    match v {
        JsonV::Obj(fields) => scalar_values_from(fields, 0),
        _ => seq![v],
    }
}

/// Extract the depth-1 scalar values of an object (or the value itself).
#[verifier::loop_isolation(false)]
pub fn extract_matching_values(value: &Json) -> (r: Vec<Json>)
    ensures
        views_of_list(r@, 0) == depth1_values(value@),
{
    let mut out: Vec<Json> = Vec::new();
    match value {
        Json::Obj(fields) => {
            proof {
                lemma_views_of_fields(fields@, 0);
                lemma_views_of_list(out@, 0);
                assert(views_of_list(out@, 0) =~= Seq::<JsonV>::empty());
            }
            let ghost fviews = views_of_fields(fields@, 0);
            let mut k: usize = 0;
            while k < fields.len()
                invariant
                    k <= fields.len(),
                    views_of_list(out@, 0) + scalar_values_from(fviews, k as int)
                        =~= scalar_values_from(fviews, 0),
                decreases fields.len() - k,
            {
                let ghost outv = views_of_list(out@, 0);
                let scalar = match &fields[k].1 {
                    Json::Str(_) => true,
                    Json::Num(_) => true,
                    Json::Bool(_) => true,
                    _ => false,
                };
                if scalar {
                    let ghost outseq = out@;
                    out.push(json_clone(&fields[k].1));
                    proof {
                        lemma_views_of_list(outseq, 0);
                        lemma_views_of_list(out@, 0);
                        assert(out@ =~= outseq.push(out@.last()));
                        assert(views_of_list(out@, 0) =~= outv.push(fviews[k as int].1));
                        assert(is_scalar(fviews[k as int].1));
                    }
                } else {
                    proof {
                        assert(!is_scalar(fviews[k as int].1));
                    }
                }
                proof {
                    assert(views_of_list(out@, 0) + scalar_values_from(fviews, k + 1 as int)
                        =~= scalar_values_from(fviews, 0));
                }
                k = k + 1;
            }
            proof {
                assert(scalar_values_from(fviews, fields@.len() as int) =~= Seq::<JsonV>::empty());
                assert(views_of_list(out@, 0) =~= scalar_values_from(fviews, 0));
            }
        },
        _ => {
            out.push(json_clone(value));
            proof {
                lemma_views_of_list(out@, 0);
                assert(views_of_list(out@, 0) =~= depth1_values(value@));
            }
        },
    }
    out
}

/// Serialised size of one budgeted item: its compact JSON bytes plus two
/// (for the separator and line break).
pub open spec fn item_size(v: JsonV) -> int {
    (encode_utf8(compact_text_of(v)).len() as usize) as int + 2
}

/// The greedy byte budget from position `k` on: accept items while they fit;
/// once at least one item is in, stop at the first that does not fit (so a
/// lone first item is always let through).
pub open spec fn budget_take(items: Seq<JsonV>, avail: int, used: int, k: int) -> (
    Seq<JsonV>,
    bool,
)
    decreases items.len() - k,
{
    if k < 0 || k >= items.len() {
        (Seq::empty(), false)
    } else if used + item_size(items[k]) > avail && k > 0 {
        (Seq::empty(), true)
    } else {
        let rest = budget_take(items, avail, used + item_size(items[k]), k + 1);
        (seq![items[k]] + rest.0, rest.1)
    }
}

/// The byte budget available for items under a cap: the cap less the
/// reserved overhead, never negative.
pub open spec fn avail_of(max_bytes: usize) -> int {
    if max_bytes >= RESERVED_OVERHEAD {
        max_bytes - RESERVED_OVERHEAD
    } else {
        0
    }
}

/// What byte-budget truncation keeps, and whether it stopped early.
pub open spec fn truncate_spec(items: Seq<JsonV>, max_bytes: Option<usize>) -> (Seq<JsonV>, bool) {
    match max_bytes {
        None => (items, false),
        Some(b) => budget_take(items, avail_of(b), 0, 0),
    }
}

/// Copies a list of values.
#[verifier::loop_isolation(false)]
pub fn jsons_clone(items: &Vec<Json>) -> (r: Vec<Json>)
    ensures
        views_of_list(r@, 0) == views_of_list(items@, 0),
{
    let mut out: Vec<Json> = Vec::new();
    let mut i: usize = 0;
    while i < items.len()
        invariant
            i <= items.len(),
            out@.len() == i,
            forall|j: int| 0 <= j < i ==> view_of(out@[j]) == view_of(items@[j]),
        decreases items.len() - i,
    {
        out.push(json_clone(&items[i]));
        i = i + 1;
    }
    proof {
        lemma_views_of_list(out@, 0);
        lemma_views_of_list(items@, 0);
        assert(views_of_list(out@, 0) =~= views_of_list(items@, 0));
    }
    out
}

/// Truncate a list of items to fit within a byte budget: serialise each in
/// final-output form and greedily accept while the budget (less the reserved
/// overhead) is respected. Returns the kept items and whether truncation
/// stopped early.
#[verifier::loop_isolation(false)]
pub fn truncate_to_budget(items: &Vec<Json>, max_bytes: Option<usize>) -> (r: (Vec<Json>, bool))
    ensures
        views_of_list(r.0@, 0) == truncate_spec(views_of_list(items@, 0), max_bytes).0,
        r.1 == truncate_spec(views_of_list(items@, 0), max_bytes).1,
{
    proof {
        lemma_views_of_list(items@, 0);
    }
    let ghost ivews = views_of_list(items@, 0);
    let budget: usize = match max_bytes {
        Some(b) => b,
        None => {
            let all = jsons_clone(items);
            return (all, false);
        },
    };
    let avail: u128 = if budget >= RESERVED_OVERHEAD {
        (budget - RESERVED_OVERHEAD) as u128
    } else {
        0
    };
    let mut used: u128 = 0;
    let mut kept: Vec<Json> = Vec::new();
    let mut k: usize = 0;
    proof {
        assert(views_of_list(kept@, 0) =~= Seq::<JsonV>::empty());
        lemma_views_of_list(kept@, 0);
    }
    while k < items.len()
        invariant
            k <= items.len(),
            avail as int == avail_of(budget),
            used <= avail || used <= usize::MAX as u128 + 2,
            k == 0 ==> used == 0,
            views_of_list(kept@, 0) =~= ivews.take(k as int),
            budget_take(ivews, avail as int, 0, 0).0 =~= ivews.take(k as int) + budget_take(
                ivews,
                avail as int,
                used as int,
                k as int,
            ).0,
            budget_take(ivews, avail as int, 0, 0).1 == budget_take(
                ivews,
                avail as int,
                used as int,
                k as int,
            ).1,
        decreases items.len() - k,
    {
        let rendered = render_compact(&items[k]);
        let rstr = rendered.as_str();
        let len: usize = rstr.len();
        let sz: u128 = len as u128 + 2;
        proof {
            assert(rstr@ == compact_text_of(ivews[k as int]));
            assert(len == rstr.spec_bytes().len() as usize);
            assert(rstr.spec_bytes() == encode_utf8(rstr@));
            assert(sz as int == item_size(ivews[k as int]));
        }
        if k > 0 && used + sz > avail {
            proof {
                assert(budget_take(ivews, avail as int, used as int, k as int).0
                    =~= Seq::<JsonV>::empty());
                assert(ivews.take(k as int) + Seq::<JsonV>::empty() =~= ivews.take(k as int));
            }
            return (kept, true);
        }
        let ghost keptseq = kept@;
        kept.push(json_clone(&items[k]));
        used = used + sz;
        proof {
            lemma_views_of_list(keptseq, 0);
            lemma_views_of_list(kept@, 0);
            assert(kept@ =~= keptseq.push(kept@.last()));
            assert(views_of_list(kept@, 0) =~= ivews.take(k + 1 as int)) by {
                assert(ivews.take(k + 1 as int) =~= ivews.take(k as int).push(ivews[k as int]));
            }
            assert(ivews.take(k + 1 as int) =~= ivews.take(k as int) + seq![ivews[k as int]]);
            assert(ivews.take(k as int) + (seq![ivews[k as int]] + budget_take(
                ivews,
                avail as int,
                used as int,
                k + 1 as int,
            ).0) =~= ivews.take(k + 1 as int) + budget_take(
                ivews,
                avail as int,
                used as int,
                k + 1 as int,
            ).0);
        }
        k = k + 1;
    }
    proof {
        assert(budget_take(ivews, avail as int, used as int, k as int).0 =~= Seq::<
            JsonV,
        >::empty());
        assert(ivews.take(k as int) =~= ivews);
        assert(ivews + Seq::<JsonV>::empty() =~= ivews);
    }
    (kept, false)
}

/// The summed serialised size of a list of items.
pub open spec fn sum_sizes(s: Seq<JsonV>) -> int
    decreases s.len(),
{
    if s.len() == 0 {
        0
    } else {
        item_size(s[0]) + sum_sizes(s.skip(1))
    }
}

proof fn lemma_budget_within(items: Seq<JsonV>, avail: int, used: int, k: int)
    requires
        0 <= k <= items.len(),
        0 <= used <= avail,
        k == 0 && items.len() > 0 ==> used + item_size(items[0]) <= avail,
    ensures
        used + sum_sizes(budget_take(items, avail, used, k).0) <= avail,
    decreases items.len() - k,
{
    if k < items.len() {
        let sz = item_size(items[k]);
        if used + sz > avail && k > 0 {
        } else {
            assert(used + sz <= avail) by {
                assert((encode_utf8(compact_text_of(items[k])).len() as usize) as int >= 0);
            }
            lemma_budget_within(items, avail, used + sz, k + 1);
            let rest = budget_take(items, avail, used + sz, k + 1).0;
            assert((seq![items[k]] + rest).skip(1) =~= rest);
            assert(sum_sizes(seq![items[k]] + rest) == sz + sum_sizes(rest));
        }
    }
}

/// A byte-budgeted payload's serialised size never exceeds `max_bytes` less
/// the reserved overhead, provided its first item alone fits that budget.
pub proof fn lemma_truncated_within_budget(items: Seq<JsonV>, max_bytes: usize)
    requires
        items.len() > 0 ==> item_size(items[0]) <= avail_of(max_bytes),
    ensures
        sum_sizes(truncate_spec(items, Some(max_bytes)).0) <= avail_of(max_bytes),
{
    lemma_budget_within(items, avail_of(max_bytes), 0, 0);
}

/// `a` is a prefix of `b`.
pub open spec fn prefix_of(a: Seq<JsonV>, b: Seq<JsonV>) -> bool {
    a.len() <= b.len() && b.take(a.len() as int) == a
}

proof fn lemma_budget_monotone(items: Seq<JsonV>, a1: int, a2: int, used: int, k: int)
    requires
        a1 <= a2,
        0 <= k <= items.len(),
    ensures
        prefix_of(budget_take(items, a1, used, k).0, budget_take(items, a2, used, k).0),
    decreases items.len() - k,
{
    if k >= items.len() {
        assert(budget_take(items, a2, used, k).0.take(0) =~= Seq::<JsonV>::empty());
    } else {
        let sz = item_size(items[k]);
        if used + sz > a1 && k > 0 {
            assert(budget_take(items, a2, used, k).0.take(0) =~= Seq::<JsonV>::empty());
        } else {
            lemma_budget_monotone(items, a1, a2, used + sz, k + 1);
            let r1 = budget_take(items, a1, used + sz, k + 1).0;
            let r2 = budget_take(items, a2, used + sz, k + 1).0;
            assert((seq![items[k]] + r2).take(1 + r1.len() as int) =~= seq![items[k]] + r2.take(
                r1.len() as int,
            ));
        }
    }
}

/// Raising the byte budget can only add items to the payload, never remove
/// any: the smaller budget's payload is a prefix of the larger one's.
pub proof fn lemma_budget_monotone_in_max(items: Seq<JsonV>, b1: usize, b2: usize)
    requires
        b1 <= b2,
    ensures
        prefix_of(truncate_spec(items, Some(b1)).0, truncate_spec(items, Some(b2)).0),
{
    lemma_budget_monotone(items, avail_of(b1), avail_of(b2), 0, 0);
}

/// The payload items of a response before budgeting: one projected object
/// per match, one hit object per match, or the flattened depth-1 values.
pub open spec fn payload_items(
    results: Seq<SearchResultV>,
    mode: OutputMode,
    sel: Option<Seq<Seq<char>>>,
) -> Seq<JsonV>
    decreases results.len(),
{
    if results.len() == 0 {
        Seq::empty()
    } else {
        let head: Seq<JsonV> = match mode {
            OutputMode::Match => seq![project_spec(results[0].record.value, sel)],
            OutputMode::Hit => seq![
                hit_json(
                    HitV {
                        file: results[0].record.file,
                        pointer: results[0].record.pointer,
                        record: project_spec(results[0].record.value, sel),
                        score: results[0].score,
                    },
                ),
            ],
            OutputMode::Value => depth1_values(results[0].record.value),
        };
        head + payload_items(results.skip(1), mode, sel)
    }
}

/// The text of a response value, compact or pretty.
pub open spec fn response_text(v: JsonV, pretty: bool) -> Seq<char> {
    if pretty {
        pretty_text_of(v)
    } else {
        compact_text_of(v)
    }
}

/// The complete text of one RESULTS-branch response: the count alone in
/// count-only bare mode; an empty-payload envelope in count-only mode; else
/// the (budgeted) payload, bare or wrapped in an envelope whose metadata
/// reports the total, the returned count and whether the window or the byte
/// budget cut the payload short.
pub open spec fn format_output_spec(
    results: Seq<SearchResultV>,
    total_matched: usize,
    limit: usize,
    mode: OutputMode,
    bare: bool,
    count_only: bool,
    sel: Option<Seq<Seq<char>>>,
    files_searched: Option<usize>,
    max_bytes: Option<usize>,
    pretty: bool,
) -> Seq<char> {
    if count_only && bare {
        dec_str(total_matched as nat)
    } else if count_only {
        let m = Meta {
            total: total_matched,
            returned: 0,
            limit,
            truncated: false,
            files_searched,
        };
        response_text(envelope_obj(m, None, None), pretty)
    } else {
        let items = payload_items(results, mode, sel);
        let kept = truncate_spec(items, max_bytes).0;
        let byte_truncated = truncate_spec(items, max_bytes).1;
        let truncated = total_matched > limit || byte_truncated;
        if bare {
            response_text(JsonV::Arr(kept), pretty)
        } else {
            let m = Meta {
                total: total_matched,
                returned: kept.len() as usize,
                limit,
                truncated,
                files_searched,
            };
            match mode {
                OutputMode::Hit => response_text(envelope_obj(m, None, Some(kept)), pretty),
                _ => response_text(envelope_obj(m, Some(kept), None), pretty),
            }
        }
    }
}

/// Renders a value as the response text.
fn render_response(v: &Json, pretty: bool) -> (r: String)
    ensures
        r@ == response_text(v@, pretty),
{
    if pretty {
        render_pretty(v)
    } else {
        render_compact(v)
    }
}

/// Format the final payload of a search over the windowed results: project
/// or flatten each match per the output mode, apply the byte budget, and
/// render either the bare payload or the metadata envelope.
#[verifier::loop_isolation(false)]
pub fn format_output(
    results: &Vec<SearchResult>,
    total_matched: usize,
    limit: usize,
    output_mode: &OutputMode,
    bare: bool,
    count_only: bool,
    select_fields: &Option<Vec<String>>,
    files_searched: Option<usize>,
    max_bytes: Option<usize>,
    pretty: bool,
) -> (r: String)
    ensures
        r@ == format_output_spec(
            result_views(results@),
            total_matched,
            limit,
            *output_mode,
            bare,
            count_only,
            (match select_fields {
                Some(fs) => Some(string_views(fs@)),
                None => None::<Seq<Seq<char>>>,
            }),
            files_searched,
            max_bytes,
            pretty,
        ),
{
    let ghost rv = result_views(results@);
    let ghost sel: Option<Seq<Seq<char>>> = match select_fields {
        Some(fs) => Some(string_views(fs@)),
        None => None,
    };
    if count_only {
        if bare {
            return usize_to_string(total_matched);
        }
        let env = Envelope {
            meta: Meta {
                total: total_matched,
                returned: 0,
                limit,
                truncated: false,
                files_searched,
            },
            results: None,
            hits: None,
        };
        let j = envelope_to_json(env);
        return render_response(&j, pretty);
    }
    let mut items: Vec<Json> = Vec::new();
    let mut i: usize = 0;
    proof {
        lemma_views_of_list(items@, 0);
        assert(views_of_list(items@, 0) =~= Seq::<JsonV>::empty());
        assert(rv.skip(0) =~= rv);
    }
    while i < results.len()
        invariant
            i <= results.len(),
            payload_items(rv, *output_mode, sel) =~= views_of_list(items@, 0) + payload_items(
                rv.skip(i as int),
                *output_mode,
                sel,
            ),
        decreases results.len() - i,
    {
        let ghost itemsv = views_of_list(items@, 0);
        let r = &results[i];
        proof {
            assert(rv.skip(i as int)[0] == rv[i as int]);
            assert(rv.skip(i as int).skip(1) =~= rv.skip(i + 1 as int));
        }
        match output_mode {
            OutputMode::Match => {
                let ghost before = items@;
                items.push(project_fields(&r.record.value, select_fields));
                proof {
                    lemma_views_of_list(before, 0);
                    lemma_views_of_list(items@, 0);
                    assert(items@ =~= before.push(items@.last()));
                    assert(views_of_list(items@, 0) =~= itemsv.push(
                        project_spec(rv[i as int].record.value, sel),
                    ));
                    assert(itemsv.push(project_spec(rv[i as int].record.value, sel)) =~= itemsv
                        + seq![project_spec(rv[i as int].record.value, sel)]);
                }
            },
            OutputMode::Hit => {
                let h = Hit {
                    file: r.record.file.clone(),
                    pointer: r.record.pointer.clone(),
                    record: project_fields(&r.record.value, select_fields),
                    score: r.score.clone(),
                };
                let ghost hv = h@;
                let hj = hit_to_json(h);
                let ghost before = items@;
                items.push(hj);
                proof {
                    lemma_views_of_list(before, 0);
                    lemma_views_of_list(items@, 0);
                    assert(items@ =~= before.push(items@.last()));
                    assert(views_of_list(items@, 0) =~= itemsv.push(hit_json(hv)));
                    assert(hv == HitV {
                        file: rv[i as int].record.file,
                        pointer: rv[i as int].record.pointer,
                        record: project_spec(rv[i as int].record.value, sel),
                        score: rv[i as int].score,
                    });
                    assert(itemsv.push(hit_json(hv)) =~= itemsv + seq![hit_json(hv)]);
                }
            },
            OutputMode::Value => {
                let vs = extract_matching_values(&r.record.value);
                let mut m: usize = 0;
                proof {
                    lemma_views_of_list(vs@, 0);
                }
                while m < vs.len()
                    invariant
                        m <= vs.len(),
                        views_of_list(vs@, 0) == depth1_values(rv[i as int].record.value),
                        views_of_list(vs@, 0).len() == vs@.len(),
                        forall|q: int|
                            0 <= q < vs@.len() ==> views_of_list(vs@, 0)[q] == view_of(vs@[q]),
                        views_of_list(items@, 0) =~= itemsv + views_of_list(vs@, 0).take(
                            m as int,
                        ),
                    decreases vs.len() - m,
                {
                    let ghost before = items@;
                    items.push(json_clone(&vs[m]));
                    proof {
                        lemma_views_of_list(before, 0);
                        lemma_views_of_list(items@, 0);
                        assert(items@ =~= before.push(items@.last()));
                        assert(views_of_list(items@, 0) =~= views_of_list(before, 0).push(
                            views_of_list(vs@, 0)[m as int],
                        ));
                        assert(views_of_list(vs@, 0).take(m + 1 as int) =~= views_of_list(
                            vs@,
                            0,
                        ).take(m as int).push(views_of_list(vs@, 0)[m as int]));
                    }
                    m = m + 1;
                }
                proof {
                    assert(views_of_list(vs@, 0).take(vs@.len() as int) =~= views_of_list(
                        vs@,
                        0,
                    ));
                    assert(itemsv + depth1_values(rv[i as int].record.value) =~= views_of_list(
                        items@,
                        0,
                    ));
                }
            },
        }
        proof {
            assert(payload_items(rv.skip(i as int), *output_mode, sel) == (match *output_mode {
                OutputMode::Match => seq![project_spec(rv[i as int].record.value, sel)],
                OutputMode::Hit => seq![
                    hit_json(
                        HitV {
                            file: rv[i as int].record.file,
                            pointer: rv[i as int].record.pointer,
                            record: project_spec(rv[i as int].record.value, sel),
                            score: rv[i as int].score,
                        },
                    ),
                ],
                OutputMode::Value => depth1_values(rv[i as int].record.value),
            }) + payload_items(rv.skip(i + 1 as int), *output_mode, sel));
        }
        i = i + 1;
    }
    proof {
        assert(rv.skip(rv.len() as int) =~= Seq::<SearchResultV>::empty());
        assert(payload_items(Seq::<SearchResultV>::empty(), *output_mode, sel) =~= Seq::<
            JsonV,
        >::empty());
        assert(views_of_list(items@, 0) =~= payload_items(rv, *output_mode, sel));
    }
    let truncated_pair = truncate_to_budget(&items, max_bytes);
    let kept = truncated_pair.0;
    let byte_truncated = truncated_pair.1;
    let truncated = total_matched > limit || byte_truncated;
    let returned = kept.len();
    proof {
        lemma_views_of_list(kept@, 0);
        assert(views_of_list(kept@, 0) == truncate_spec(
            payload_items(rv, *output_mode, sel),
            max_bytes,
        ).0);
        assert(returned as int == truncate_spec(
            payload_items(rv, *output_mode, sel),
            max_bytes,
        ).0.len());
    }
    if bare {
        let arr = Json::Arr(kept);
        proof {
            assert(arr@ == JsonV::Arr(truncate_spec(payload_items(rv, *output_mode, sel), max_bytes).0));
        }
        return render_response(&arr, pretty);
    }
    let m = Meta { total: total_matched, returned, limit, truncated, files_searched };
    let is_hit = match output_mode {
        OutputMode::Hit => true,
        _ => false,
    };
    let env = if is_hit {
        Envelope { meta: m, results: None, hits: Some(kept) }
    } else {
        Envelope { meta: m, results: Some(kept), hits: None }
    };
    let j = envelope_to_json(env);
    render_response(&j, pretty)
}

/// A results response never carries a plan or an overflow mark: its
/// envelope holds only the metadata and the results or hits payload, and
/// the metadata has no overflow member.
pub proof fn lemma_results_envelope_no_plan(
    m: Meta,
    results: Option<Seq<JsonV>>,
    hits: Option<Seq<JsonV>>,
)
    ensures
        match envelope_obj(m, results, hits) {
            JsonV::Obj(fs) => forall|i: int|
                0 <= i < fs.len() ==> (#[trigger] fs[i].0) != "plan"@ && fs[i].0 != "overflow"@,
            _ => false,
        },
        match meta_json(m) {
            JsonV::Obj(ms) => forall|i: int|
                0 <= i < ms.len() ==> (#[trigger] ms[i].0) != "overflow"@ && ms[i].0 != "plan"@,
            _ => false,
        },
{
    reveal_strlit("plan");
    reveal_strlit("overflow");
    reveal_strlit("meta");
    reveal_strlit("results");
    reveal_strlit("hits");
    reveal_strlit("total");
    reveal_strlit("returned");
    reveal_strlit("limit");
    reveal_strlit("truncated");
    reveal_strlit("files_searched");
    assert("plan"@.len() == 4 && "overflow"@.len() == 8);
    assert("meta"@.len() == 4 && "results"@.len() == 7 && "hits"@.len() == 4);
    assert("total"@.len() == 5 && "returned"@.len() == 8 && "limit"@.len() == 5);
    assert("truncated"@.len() == 9 && "files_searched"@.len() == 14);
    assert("meta"@ != "plan"@) by {
        assert("meta"@[0] == 'm' && "plan"@[0] == 'p');
    }
    assert("hits"@ != "plan"@) by {
        assert("hits"@[0] == 'h' && "plan"@[0] == 'p');
    }
    assert("returned"@ != "overflow"@) by {
        assert("returned"@[0] == 'r' && "overflow"@[0] == 'o');
    }
    match envelope_obj(m, results, hits) {
        JsonV::Obj(fs) => {
            assert forall|i: int|
                0 <= i < fs.len() implies (#[trigger] fs[i].0) != "plan"@ && fs[i].0
                != "overflow"@ by {
                assert(fs[i].0 == "meta"@ || fs[i].0 == "results"@ || fs[i].0 == "hits"@) by {
                    match results {
                        Some(_) => {
                            match hits {
                                Some(_) => {
                                    assert(fs.len() == 3);
                                },
                                None => {
                                    assert(fs.len() == 2);
                                },
                            }
                        },
                        None => {
                            match hits {
                                Some(_) => {
                                    assert(fs.len() == 2);
                                },
                                None => {
                                    assert(fs.len() == 1);
                                },
                            }
                        },
                    }
                }
            }
        },
        _ => {
            assert(false);
        },
    }
    match meta_json(m) {
        JsonV::Obj(ms) => {
            assert forall|i: int|
                0 <= i < ms.len() implies (#[trigger] ms[i].0) != "overflow"@ && ms[i].0
                != "plan"@ by {
                assert(ms[i].0 == "total"@ || ms[i].0 == "returned"@ || ms[i].0 == "limit"@
                    || ms[i].0 == "truncated"@ || ms[i].0 == "files_searched"@) by {
                    match m.files_searched {
                        Some(_) => {
                            assert(ms.len() == 5);
                        },
                        None => {
                            assert(ms.len() == 4);
                        },
                    }
                }
            }
        },
        _ => {
            assert(false);
        },
    }
}

} // verus!
