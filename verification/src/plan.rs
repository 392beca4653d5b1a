//! The overflow plan builder: field and facet statistics over the whole
//! deduplicated match set, with suggested follow-up invocations.

use vstd::prelude::*;

use crate::digits::{dec_str, usize_to_string};
use crate::json::{
    json_clone, lemma_views_of_fields, lemma_views_of_list, views_of_fields, views_of_list, Json,
    JsonV,
};
use crate::pointer::{escape_chars, escape_spec, string_views};
use crate::render::{facet_of, value_to_facet_string};
use crate::results::{result_views, SearchResult, SearchResultV};
use crate::text::{push_all, push_str_chars, str_chars, string_from_chars};

verus! {

/// Lexicographic order on character sequences by code point (the order in
/// which the standard library compares strings).
pub open spec fn seq_lt(a: Seq<char>, b: Seq<char>) -> bool
    decreases a.len(),
{
    if a.len() == 0 {
        b.len() > 0
    } else if b.len() == 0 {
        false
    } else if (a[0] as u32) < (b[0] as u32) {
        true
    } else if (b[0] as u32) < (a[0] as u32) {
        false
    } else {
        seq_lt(a.skip(1), b.skip(1))
    }
}

/// Compares two strings lexicographically by code point.
pub fn str_lt(a: &String, b: &String) -> (r: bool)
    ensures
        r == seq_lt(a@, b@),
{
    let av = str_chars(a.as_str());
    let bv = str_chars(b.as_str());
    let mut i: usize = 0;
    proof {
        assert(av@.skip(0) =~= av@);
        assert(bv@.skip(0) =~= bv@);
    }
    while i < av.len() && i < bv.len()
        invariant
            i <= av.len(),
            i <= bv.len(),
            seq_lt(a@, b@) == seq_lt(av@.skip(i as int), bv@.skip(i as int)),
            av@ == a@,
            bv@ == b@,
        decreases av.len() - i,
    {
        let x = av[i] as u32;
        let y = bv[i] as u32;
        proof {
            assert(av@.skip(i as int)[0] == av@[i as int]);
            assert(bv@.skip(i as int)[0] == bv@[i as int]);
            assert(av@.skip(i as int).skip(1) =~= av@.skip(i + 1 as int));
            assert(bv@.skip(i as int).skip(1) =~= bv@.skip(i + 1 as int));
        }
        if x < y {
            return true;
        }
        if y < x {
            return false;
        }
        i = i + 1;
    }
    proof {
        if i >= av@.len() {
            assert(av@.skip(i as int).len() == 0);
        } else {
            assert(bv@.skip(i as int).len() == 0);
        }
    }
    i >= av.len() && i < bv.len()
}

/// Does the object `v` have a member named `key` whose facet text is `val`?
pub open spec fn field_pair_count(fields: Seq<(Seq<char>, JsonV)>, key: Seq<char>, val: Seq<char>) -> int
    decreases fields.len(),
{
    if fields.len() == 0 {
        0
    } else {
        (if fields[0].0 == key && facet_of(fields[0].1) == val {
            1int
        } else {
            0int
        }) + field_pair_count(fields.skip(1), key, val)
    }
}

/// How often the matched set carries member `key` with facet text `val`:
/// the true frequency count behind the facets.
pub open spec fn pair_count(rs: Seq<SearchResultV>, key: Seq<char>, val: Seq<char>) -> int
    decreases rs.len(),
{
    if rs.len() == 0 {
        0
    } else {
        (match rs[0].record.value {
            JsonV::Obj(fields) => field_pair_count(fields, key, val),
            _ => 0,
        }) + pair_count(rs.skip(1), key, val)
    }
}

/// Some matched object has a member named `key`.
pub open spec fn obj_has_pair(v: JsonV, key: Seq<char>, val: Seq<char>) -> bool {
    match v {
        JsonV::Obj(fields) => exists|m: int|
            0 <= m < fields.len() && fields[m].0 == key && facet_of(fields[m].1) == val,
        _ => false,
    }
}

pub open spec fn obj_has_key(v: JsonV, key: Seq<char>) -> bool {
    match v {
        JsonV::Obj(fields) => exists|m: int| 0 <= m < fields.len() && #[trigger] fields[m].0 == key,
        _ => false,
    }
}

/// The key occurs as a member name somewhere in the matched set.
pub open spec fn key_occurs(rs: Seq<SearchResultV>, key: Seq<char>) -> bool {
    exists|i: int| 0 <= i < rs.len() && obj_has_key(#[trigger] rs[i].record.value, key)
}

/// The (key, facet value) pair occurs somewhere in the matched set.
pub open spec fn pair_occurs(rs: Seq<SearchResultV>, key: Seq<char>, val: Seq<char>) -> bool {
    exists|i: int| 0 <= i < rs.len() && obj_has_pair(#[trigger] rs[i].record.value, key, val)
}

proof fn lemma_field_pair_count_nonneg(fields: Seq<(Seq<char>, JsonV)>, key: Seq<char>, val: Seq<char>)
    ensures
        0 <= field_pair_count(fields, key, val) <= fields.len(),
    decreases fields.len(),
{
    if fields.len() > 0 {
        lemma_field_pair_count_nonneg(fields.skip(1), key, val);
    }
}

proof fn lemma_pair_count_nonneg(rs: Seq<SearchResultV>, key: Seq<char>, val: Seq<char>)
    ensures
        0 <= pair_count(rs, key, val),
    decreases rs.len(),
{
    if rs.len() > 0 {
        lemma_pair_count_nonneg(rs.skip(1), key, val);
        match rs[0].record.value {
            JsonV::Obj(fields) => {
                lemma_field_pair_count_nonneg(fields, key, val);
            },
            _ => {},
        }
    }
}

/// The true frequency count, capped at the machine word.
pub open spec fn count_capped(rs: Seq<SearchResultV>, key: Seq<char>, val: Seq<char>) -> int {
    if pair_count(rs, key, val) <= usize::MAX {
        pair_count(rs, key, val)
    } else {
        usize::MAX as int
    }
}

/// Counts how often the matched set carries member `key` with facet text
/// `val`.
#[verifier::loop_isolation(false)]
fn count_pair(results: &Vec<SearchResult>, key: &String, val: &String) -> (r: usize)
    ensures
        r as int == count_capped(result_views(results@), key@, val@),
{
    let ghost rv = result_views(results@);
    let mut acc: u128 = 0;
    let mut i: usize = 0;
    proof {
        assert(rv.skip(0) =~= rv);
        lemma_pair_count_nonneg(rv, key@, val@);
    }
    while i < results.len()
        invariant
            i <= results.len(),
            acc as int + pair_count(rv.skip(i as int), key@, val@) == pair_count(rv, key@, val@),
            acc as int <= i as int * (usize::MAX as int),
        decreases results.len() - i,
    {
        proof {
            assert(rv.skip(i as int)[0] == rv[i as int]);
            assert(rv.skip(i as int).skip(1) =~= rv.skip(i + 1 as int));
        }
        let mut local: usize = 0;
        match &results[i].record.value {
            Json::Obj(fields) => {
                proof {
                    lemma_views_of_fields(fields@, 0);
                }
                let ghost fviews = views_of_fields(fields@, 0);
                proof {
                    assert(rv[i as int].record.value == JsonV::Obj(fviews));
                    assert(fviews.skip(0) =~= fviews);
                }
                let mut m: usize = 0;
                while m < fields.len()
                    invariant
                        m <= fields.len(),
                        local <= m,
                        local as int + field_pair_count(fviews.skip(m as int), key@, val@)
                            == field_pair_count(fviews, key@, val@),
                    decreases fields.len() - m,
                {
                    proof {
                        assert(fviews.skip(m as int)[0] == fviews[m as int]);
                        assert(fviews.skip(m as int).skip(1) =~= fviews.skip(m + 1 as int));
                    }
                    let fs = value_to_facet_string(&fields[m].1);
                    if fields[m].0 == *key && fs == *val {
                        local = local + 1;
                    }
                    m = m + 1;
                }
                proof {
                    assert(fviews.skip(fviews.len() as int) =~= Seq::<(Seq<char>, JsonV)>::empty());
                }
            },
            _ => {
                proof {
                    assert(!(rv[i as int].record.value is Obj));
                }
            },
        }
        proof {
            assert(acc as int + local as int <= (i as int + 1) * (usize::MAX as int))
                by (nonlinear_arith)
                requires
                    acc as int <= i as int * (usize::MAX as int),
                    local as int <= usize::MAX as int,
                    i >= 0,
            ;
            assert((i as int + 1) * (usize::MAX as int) < u128::MAX as int) by (nonlinear_arith)
                requires
                    0 <= i as int + 1 <= usize::MAX as int + 1,
            ;
        }
        acc = acc + local as u128;
        i = i + 1;
    }
    proof {
        assert(rv.skip(rv.len() as int) =~= Seq::<SearchResultV>::empty());
    }
    if acc > usize::MAX as u128 {
        usize::MAX
    } else {
        acc as usize
    }
}

/// Is `s` among the views of `vs`?
pub open spec fn has_string(vs: Seq<String>, s: Seq<char>) -> bool {
    exists|j: int| 0 <= j < vs.len() && #[trigger] vs[j]@ == s
}

/// Is `s` in the list?
#[verifier::loop_isolation(false)]
fn contains_string(vs: &Vec<String>, s: &String) -> (r: bool)
    ensures
        r == has_string(vs@, s@),
{
    let mut j: usize = 0;
    while j < vs.len()
        invariant
            j <= vs.len(),
            forall|q: int| 0 <= q < j ==> vs@[q]@ != s@,
        decreases vs.len() - j,
    {
        if vs[j] == *s {
            return true;
        }
        j = j + 1;
    }
    proof {
        if has_string(vs@, s@) {
            let q = choose|q: int| 0 <= q < vs@.len() && vs@[q]@ == s@;
            assert(false);
        }
    }
    false
}

/// The member list of one result's value (empty for non-objects).
pub open spec fn rec_fields(r: SearchResultV) -> Seq<(Seq<char>, JsonV)> {
    match r.record.value {
        JsonV::Obj(fields) => fields,
        _ => Seq::empty(),
    }
}

/// Collects the distinct member keys of the matched objects, in first
/// appearance order.
#[verifier::loop_isolation(false)]
fn collect_keys(results: &Vec<SearchResult>) -> (keys: Vec<String>)
    ensures
        forall|p: int, q: int| 0 <= p < q < keys@.len() ==> keys@[p]@ != keys@[q]@,
        forall|p: int| 0 <= p < keys@.len() ==> key_occurs(result_views(results@), #[trigger] keys@[p]@),
        forall|key: Seq<char>|
            key_occurs(result_views(results@), key) ==> has_string(keys@, key),
{
    let ghost rv = result_views(results@);
    let mut keys: Vec<String> = Vec::new();
    let mut i: usize = 0;
    while i < results.len()
        invariant
            i <= results.len(),
            rv == result_views(results@),
            forall|p: int, q: int| 0 <= p < q < keys@.len() ==> keys@[p]@ != keys@[q]@,
            forall|p: int| 0 <= p < keys@.len() ==> key_occurs(rv, #[trigger] keys@[p]@),
            forall|ii: int, mm: int|
                0 <= ii < i && 0 <= mm < rec_fields(rv[ii]).len() ==> has_string(
                    keys@,
                    #[trigger] rec_fields(rv[ii])[mm].0,
                ),
        decreases results.len() - i,
    {
        match &results[i].record.value {
            Json::Obj(fields) => {
                proof {
                    lemma_views_of_fields(fields@, 0);
                    assert(rv[i as int].record.value == JsonV::Obj(views_of_fields(fields@, 0)));
                }
                let ghost fviews = views_of_fields(fields@, 0);
                let mut m: usize = 0;
                while m < fields.len()
                    invariant
                        m <= fields.len(),
                        rv == result_views(results@),
                        i < results@.len(),
                        fviews == views_of_fields(fields@, 0),
                        fviews == rec_fields(rv[i as int]),
                        fviews.len() == fields@.len(),
                        forall|q: int|
                            0 <= q < fields@.len() ==> fviews[q] == (
                                fields@[q].0@,
                                crate::json::view_of(fields@[q].1),
                            ),
                        forall|p: int, q: int| 0 <= p < q < keys@.len() ==> keys@[p]@ != keys@[q]@,
                        forall|p: int|
                            0 <= p < keys@.len() ==> key_occurs(rv, #[trigger] keys@[p]@),
                        forall|ii: int, mm: int|
                            0 <= ii < i && 0 <= mm < rec_fields(rv[ii]).len() ==> has_string(
                                keys@,
                                #[trigger] rec_fields(rv[ii])[mm].0,
                            ),
                        forall|mm: int|
                            0 <= mm < m ==> has_string(keys@, #[trigger] fviews[mm].0),
                    decreases fields.len() - m,
                {
                    if !contains_string(&keys, &fields[m].0) {
                        let ghost keysold = keys@;
                        keys.push(fields[m].0.clone());
                        proof {
                            assert(keys@[keys@.len() - 1]@ == fviews[m as int].0);
                            assert forall|s: Seq<char>| has_string(keysold, s) implies has_string(
                                keys@,
                                s,
                            ) by {
                                let j = choose|j: int| 0 <= j < keysold.len() && keysold[j]@ == s;
                                assert(keys@[j]@ == s);
                            }
                            assert(key_occurs(rv, fviews[m as int].0)) by {
                                assert(obj_has_key(rv[i as int].record.value, fviews[m as int].0));
                            }
                        }
                    }
                    m = m + 1;
                }
            },
            _ => {
                proof {
                    assert(rec_fields(rv[i as int]).len() == 0);
                }
            },
        }
        i = i + 1;
    }
    proof {
        assert forall|key: Seq<char>| key_occurs(rv, key) implies has_string(keys@, key) by {
            let ii = choose|ii: int| 0 <= ii < rv.len() && obj_has_key(rv[ii].record.value, key);
            match rv[ii].record.value {
                JsonV::Obj(fields) => {
                    let mm = choose|mm: int| 0 <= mm < fields.len() && fields[mm].0 == key;
                    assert(rec_fields(rv[ii])[mm].0 == key);
                },
                _ => {
                    assert(false);
                },
            }
        }
    }
    keys
}

/// Collects the distinct facet texts of members named `key`, in first
/// appearance order.
#[verifier::loop_isolation(false)]
fn collect_vals(results: &Vec<SearchResult>, key: &String) -> (vals: Vec<String>)
    ensures
        forall|p: int, q: int| 0 <= p < q < vals@.len() ==> vals@[p]@ != vals@[q]@,
        forall|p: int|
            0 <= p < vals@.len() ==> pair_occurs(result_views(results@), key@, #[trigger] vals@[p]@),
        forall|val: Seq<char>|
            pair_occurs(result_views(results@), key@, val) ==> has_string(vals@, val),
{
    let ghost rv = result_views(results@);
    let mut vals: Vec<String> = Vec::new();
    let mut i: usize = 0;
    while i < results.len()
        invariant
            i <= results.len(),
            rv == result_views(results@),
            forall|p: int, q: int| 0 <= p < q < vals@.len() ==> vals@[p]@ != vals@[q]@,
            forall|p: int| 0 <= p < vals@.len() ==> pair_occurs(rv, key@, #[trigger] vals@[p]@),
            forall|ii: int, mm: int|
                0 <= ii < i && 0 <= mm < rec_fields(rv[ii]).len() && rec_fields(rv[ii])[mm].0
                    == key@ ==> has_string(vals@, #[trigger] facet_of(rec_fields(rv[ii])[mm].1)),
        decreases results.len() - i,
    {
        match &results[i].record.value {
            Json::Obj(fields) => {
                proof {
                    lemma_views_of_fields(fields@, 0);
                    assert(rv[i as int].record.value == JsonV::Obj(views_of_fields(fields@, 0)));
                }
                let ghost fviews = views_of_fields(fields@, 0);
                let mut m: usize = 0;
                while m < fields.len()
                    invariant
                        m <= fields.len(),
                        rv == result_views(results@),
                        i < results@.len(),
                        fviews == views_of_fields(fields@, 0),
                        fviews == rec_fields(rv[i as int]),
                        fviews.len() == fields@.len(),
                        forall|q: int|
                            0 <= q < fields@.len() ==> fviews[q] == (
                                fields@[q].0@,
                                crate::json::view_of(fields@[q].1),
                            ),
                        forall|p: int, q: int| 0 <= p < q < vals@.len() ==> vals@[p]@ != vals@[q]@,
                        forall|p: int|
                            0 <= p < vals@.len() ==> pair_occurs(rv, key@, #[trigger] vals@[p]@),
                        forall|ii: int, mm: int|
                            0 <= ii < i && 0 <= mm < rec_fields(rv[ii]).len() && rec_fields(
                                rv[ii],
                            )[mm].0 == key@ ==> has_string(
                                vals@,
                                #[trigger] facet_of(rec_fields(rv[ii])[mm].1),
                            ),
                        forall|mm: int|
                            0 <= mm < m && fviews[mm].0 == key@ ==> has_string(
                                vals@,
                                #[trigger] facet_of(fviews[mm].1),
                            ),
                    decreases fields.len() - m,
                {
                    if fields[m].0 == *key {
                        let fs = value_to_facet_string(&fields[m].1);
                        if !contains_string(&vals, &fs) {
                            let ghost valsold = vals@;
                            vals.push(fs);
                            proof {
                                assert(vals@[vals@.len() - 1]@ == facet_of(fviews[m as int].1));
                                assert forall|s: Seq<char>|
                                    has_string(valsold, s) implies has_string(vals@, s) by {
                                    let j = choose|j: int|
                                        0 <= j < valsold.len() && valsold[j]@ == s;
                                    assert(vals@[j]@ == s);
                                }
                                assert(pair_occurs(rv, key@, facet_of(fviews[m as int].1))) by {
                                    assert(obj_has_pair(
                                        rv[i as int].record.value,
                                        key@,
                                        facet_of(fviews[m as int].1),
                                    ));
                                }
                            }
                        }
                    }
                    m = m + 1;
                }
            },
            _ => {
                proof {
                    assert(rec_fields(rv[i as int]).len() == 0);
                }
            },
        }
        i = i + 1;
    }
    proof {
        assert forall|val: Seq<char>| pair_occurs(rv, key@, val) implies has_string(vals@, val) by {
            let ii = choose|ii: int|
                0 <= ii < rv.len() && obj_has_pair(rv[ii].record.value, key@, val);
            match rv[ii].record.value {
                JsonV::Obj(fields) => {
                    let mm = choose|mm: int|
                        0 <= mm < fields.len() && fields[mm].0 == key@ && facet_of(fields[mm].1)
                            == val;
                    assert(rec_fields(rv[ii])[mm].0 == key@);
                    assert(facet_of(rec_fields(rv[ii])[mm].1) == val);
                },
                _ => {
                    assert(false);
                },
            }
        }
    }
    vals
}

/// Characters with the same code point are the same character.
proof fn lemma_char_inj(x: char, y: char)
    requires
        x as u32 == y as u32,
    ensures
        x == y,
{
}

/// Any two character sequences compare: less, greater, or equal.
pub proof fn lemma_seq_lt_total(a: Seq<char>, b: Seq<char>)
    ensures
        seq_lt(a, b) || seq_lt(b, a) || a == b,
    decreases a.len(),
{
    if a.len() == 0 && b.len() == 0 {
        assert(a =~= b);
    } else if a.len() == 0 {
        assert(seq_lt(a, b));
    } else if b.len() == 0 {
        assert(seq_lt(b, a));
    } else if (a[0] as u32) < (b[0] as u32) {
        assert(seq_lt(a, b));
    } else if (b[0] as u32) < (a[0] as u32) {
        assert(seq_lt(b, a));
    } else {
        assert((a[0] as u32) == (b[0] as u32));
        lemma_char_inj(a[0], b[0]);
        lemma_seq_lt_total(a.skip(1), b.skip(1));
        if seq_lt(a.skip(1), b.skip(1)) {
            assert(seq_lt(a, b));
        } else if seq_lt(b.skip(1), a.skip(1)) {
            assert(seq_lt(b, a));
        } else {
            assert(a.skip(1) == b.skip(1));
            assert(a =~= b) by {
                assert(forall|i: int| 1 <= i < a.len() ==> a[i] == a.skip(1)[i - 1]);
                assert(forall|i: int| 1 <= i < b.len() ==> b[i] == b.skip(1)[i - 1]);
            }
        }
    }
}

/// One field summary: a key, its escaped pointer path, and how many
/// distinct facet values it takes.
#[derive(Debug)]
pub struct FieldInfo {
    pub name: String,
    pub path: String,
    pub distinct: usize,
}

/// The view of one field summary.
pub open spec fn fi_view(f: FieldInfo) -> (Seq<char>, Seq<char>, int) {
    (f.name@, f.path@, f.distinct as int)
}

/// The views of field summaries.
pub open spec fn fi_views(s: Seq<FieldInfo>) -> Seq<(Seq<char>, Seq<char>, int)> {
    s.map_values(|f: FieldInfo| fi_view(f))
}

/// Facet entry order: count descending, then value ascending.
pub open spec fn pair_le(a: (Seq<char>, int), b: (Seq<char>, int)) -> bool {
    a.1 > b.1 || (a.1 == b.1 && (seq_lt(a.0, b.0) || a.0 == b.0))
}

/// The views of facet entries.
pub open spec fn pair_views(s: Seq<(String, usize)>) -> Seq<(Seq<char>, int)> {
    s.map_values(|p: (String, usize)| (p.0@, p.1 as int))
}

pub open spec fn sorted_pairs(s: Seq<(Seq<char>, int)>) -> bool {
    forall|i: int, j: int| 0 <= i < j < s.len() ==> pair_le(s[i], s[j])
}

/// Is facet entry `a` ordered at or before `b` (count descending, ties by
/// value ascending)?
fn pair_le_exec(a: &(String, usize), b: &(String, usize)) -> (r: bool)
    ensures
        r == pair_le((a.0@, a.1 as int), (b.0@, b.1 as int)),
{
    if a.1 > b.1 {
        true
    } else if a.1 == b.1 {
        if str_lt(&a.0, &b.0) {
            true
        } else {
            a.0 == b.0
        }
    } else {
        false
    }
}

/// Sorts facet entries by count descending, ties by value ascending. The
/// result holds exactly the given entries (membership in both directions),
/// and pairwise-distinct values stay pairwise distinct.
#[verifier::loop_isolation(false)]
#[verifier::rlimit(100)]
fn sort_pairs(items: Vec<(String, usize)>) -> (r: Vec<(String, usize)>)
    requires
        forall|p: int, q: int|
            #![trigger items@[p].0, items@[q].0]
            0 <= p < q < items@.len() ==> items@[p].0@ != items@[q].0@,
    ensures
        r@.len() == items@.len(),
        sorted_pairs(pair_views(r@)),
        forall|p: int|
            0 <= p < r@.len() ==> pair_views(items@).contains(#[trigger] pair_views(r@)[p]),
        forall|q: int|
            0 <= q < items@.len() ==> pair_views(r@).contains(#[trigger] pair_views(items@)[q]),
        forall|p: int, q: int|
            #![trigger r@[p].0, r@[q].0]
            0 <= p < q < r@.len() ==> r@[p].0@ != r@[q].0@,
{
    let ghost orig = pair_views(items@);
    let mut src = items;
    let mut out: Vec<(String, usize)> = Vec::new();
    proof {
        assert forall|p: int|
            0 <= p < src@.len() implies orig.contains(#[trigger] pair_views(src@)[p]) by {
            assert(pair_views(src@)[p] == orig[p]);
            assert(orig.contains(orig[p]));
        }
        assert forall|q: int|
            0 <= q < orig.len() implies pair_views(out@).contains(orig[q]) || pair_views(
            src@,
        ).contains(#[trigger] orig[q]) by {
            assert(pair_views(src@)[q] == orig[q]);
        }
    }
    while src.len() > 0
        invariant
            sorted_pairs(pair_views(out@)),
            out@.len() + src@.len() == orig.len(),
            forall|p: int| 0 <= p < out@.len() ==> orig.contains(#[trigger] pair_views(out@)[p]),
            forall|p: int| 0 <= p < src@.len() ==> orig.contains(#[trigger] pair_views(src@)[p]),
            forall|q: int|
                0 <= q < orig.len() ==> pair_views(out@).contains(orig[q]) || pair_views(
                    src@,
                ).contains(#[trigger] orig[q]),
            forall|p: int, q: int|
                #![trigger src@[p].0, src@[q].0]
                0 <= p < q < src@.len() ==> src@[p].0@ != src@[q].0@,
            forall|p: int, q: int|
                #![trigger out@[p].0, out@[q].0]
                0 <= p < q < out@.len() ==> out@[p].0@ != out@[q].0@,
            forall|p: int, q: int|
                #![trigger out@[p].0, src@[q].0]
                0 <= p < out@.len() && 0 <= q < src@.len() ==> out@[p].0@ != src@[q].0@,
        decreases src.len(),
    {
        let ghost srcpre = src@;
        let ghost srcv = pair_views(src@);
        let ghost outv = pair_views(out@);
        let x = src.remove(0);
        let ghost xv = (x.0@, x.1 as int);
        proof {
            assert(xv == srcv[0]);
            assert(forall|p: int| 0 <= p < src@.len() ==> src@[p] == srcpre[p + 1]);
            assert forall|p: int|
                0 <= p < src@.len() implies orig.contains(#[trigger] pair_views(src@)[p]) by {
                assert(pair_views(src@)[p] == srcv[p + 1]);
            }
            assert(forall|p: int| 0 <= p < src@.len() ==> x.0@ != (#[trigger] src@[p].0)@);
        }
        let mut j: usize = 0;
        while j < out.len()
            invariant
                j <= out@.len(),
                forall|p: int| 0 <= p < j ==> pair_le(#[trigger] pair_views(out@)[p], xv),
                pair_views(out@) == outv,
            decreases out.len() - j,
        {
            if !pair_le_exec(&out[j], &x) {
                break;
            }
            proof {
                assert(pair_le(pair_views(out@)[j as int], xv));
            }
            j = j + 1;
        }
        proof {
            if j < out@.len() {
                assert(!pair_le(outv[j as int], xv));
                lemma_seq_lt_total(outv[j as int].0, xv.0);
                assert(pair_le(xv, outv[j as int]));
            }
        }
        let ghost outpre = out@;
        out.insert(j, x);
        proof {
            let nv = pair_views(out@);
            assert(forall|p: int| 0 <= p < j ==> out@[p] == outpre[p]);
            assert(out@[j as int] == x);
            assert(forall|p: int| j < p < out@.len() ==> out@[p] == outpre[p - 1]);
            assert(nv.len() == outv.len() + 1);
            assert(forall|p: int| 0 <= p < j ==> nv[p] == outv[p]);
            assert(nv[j as int] == xv);
            assert(forall|p: int| j < p < nv.len() ==> nv[p] == outv[p - 1]);
            assert(sorted_pairs(nv)) by {
                assert forall|p: int, q: int| 0 <= p < q < nv.len() implies pair_le(
                    nv[p],
                    nv[q],
                ) by {
                    if q < j {
                    } else if p < j && q == j {
                        assert(pair_le(outv[p], xv));
                    } else if p == j && q > j {
                        assert(nv[q] == outv[q - 1]);
                        if (j as int) < q - 1 {
                            assert(pair_le(outv[j as int], outv[q - 1]));
                        }
                        assert(pair_le(xv, outv[j as int]));
                        assert(pair_le(xv, outv[q - 1])) by {
                            if (j as int) < q - 1 {
                                assert(outv[j as int].1 >= outv[q - 1].1);
                                if xv.1 == outv[q - 1].1 {
                                    assert(xv.1 == outv[j as int].1);
                                    lemma_seq_lt_trans_chain(
                                        xv.0,
                                        outv[j as int].0,
                                        outv[q - 1].0,
                                    );
                                }
                            }
                        }
                    }
                }
            }
            assert forall|p: int|
                0 <= p < out@.len() implies orig.contains(#[trigger] pair_views(out@)[p]) by {
                if p < j {
                    assert(pair_views(out@)[p] == outv[p]);
                } else if p == j {
                    assert(pair_views(out@)[p] == xv);
                } else {
                    assert(pair_views(out@)[p] == outv[p - 1]);
                }
            }
            assert forall|q: int|
                0 <= q < orig.len() implies pair_views(out@).contains(orig[q]) || pair_views(
                src@,
            ).contains(#[trigger] orig[q]) by {
                if outv.contains(orig[q]) {
                    let p = choose|p: int| 0 <= p < outv.len() && outv[p] == orig[q];
                    if p < j {
                        assert(pair_views(out@)[p] == orig[q]);
                    } else {
                        assert(pair_views(out@)[p + 1] == orig[q]);
                    }
                    assert(pair_views(out@).contains(orig[q]));
                } else if srcv.contains(orig[q]) {
                    let p = choose|p: int| 0 <= p < srcv.len() && srcv[p] == orig[q];
                    if p == 0 {
                        assert(pair_views(out@)[j as int] == orig[q]);
                        assert(pair_views(out@).contains(orig[q]));
                    } else {
                        assert(pair_views(src@)[p - 1] == orig[q]);
                        assert(pair_views(src@).contains(orig[q]));
                    }
                }
            }
            assert forall|p: int, q: int|
                #![trigger out@[p].0, out@[q].0]
                0 <= p < q < out@.len() implies out@[p].0@ != out@[q].0@ by {
                if p < j && q == j {
                    assert(out@[p] == outpre[p]);
                } else if p == j && q > j {
                    assert(out@[q] == outpre[q - 1]);
                } else if p < j && q > j {
                    assert(out@[p] == outpre[p] && out@[q] == outpre[q - 1]);
                } else if q < j {
                } else {
                    assert(out@[p] == outpre[p - 1] && out@[q] == outpre[q - 1]);
                }
            }
            assert forall|p: int, q: int|
                #![trigger out@[p].0, src@[q].0]
                0 <= p < out@.len() && 0 <= q < src@.len() implies out@[p].0@ != src@[q].0@ by {
                if p < j {
                    assert(out@[p] == outpre[p]);
                } else if p == j {
                    assert(out@[p] == x);
                } else {
                    assert(out@[p] == outpre[p - 1]);
                }
            }
        }
    }
    proof {
        assert forall|q: int|
            0 <= q < orig.len() implies pair_views(out@).contains(#[trigger] orig[q]) by {
            assert(pair_views(src@).len() == 0);
            if pair_views(src@).contains(orig[q]) {
                let p = choose|p: int|
                    0 <= p < pair_views(src@).len() && pair_views(src@)[p] == orig[q];
                assert(false);
            }
        }
    }
    out
}

/// `seq_lt`-or-equal is transitive.
pub proof fn lemma_seq_lt_trans_chain(a: Seq<char>, b: Seq<char>, c: Seq<char>)
    requires
        seq_lt(a, b) || a == b,
        seq_lt(b, c) || b == c,
    ensures
        seq_lt(a, c) || a == c,
    decreases a.len() + b.len() + c.len(),
{
    if a == b || b == c {
    } else {
        if a.len() == 0 {
            if c.len() == 0 {
                assert(b.len() > 0);
                assert(!seq_lt(b, c));
            }
        } else {
            assert(b.len() > 0);
            if c.len() == 0 {
                assert(!seq_lt(b, c));
            } else {
                if (a[0] as u32) < (b[0] as u32) {
                    if (b[0] as u32) < (c[0] as u32) {
                        assert(seq_lt(a, c));
                    } else {
                        assert((b[0] as u32) == (c[0] as u32));
                        assert(seq_lt(a, c));
                    }
                } else {
                    assert((a[0] as u32) == (b[0] as u32));
                    if (b[0] as u32) < (c[0] as u32) {
                        assert(seq_lt(a, c));
                    } else {
                        assert((b[0] as u32) == (c[0] as u32));
                        lemma_char_inj(a[0], b[0]);
                        lemma_char_inj(b[0], c[0]);
                        lemma_seq_lt_trans_chain(a.skip(1), b.skip(1), c.skip(1));
                        if a.skip(1) == c.skip(1) {
                            assert(a =~= c) by {
                                assert(forall|i: int|
                                    1 <= i < a.len() ==> a[i] == a.skip(1)[i - 1]);
                                assert(forall|i: int|
                                    1 <= i < c.len() ==> c[i] == c.skip(1)[i - 1]);
                            }
                        } else {
                            assert(seq_lt(a, c));
                        }
                    }
                }
            }
        }
    }
}

/// Sorts field summaries by distinct-value count ascending. The result holds
/// exactly the given summaries (in both directions of membership), and
/// pairwise-distinct names stay pairwise distinct.
#[verifier::loop_isolation(false)]
#[verifier::rlimit(100)]
fn sort_fields(items: Vec<FieldInfo>) -> (r: Vec<FieldInfo>)
    requires
        forall|p: int, q: int|
            #![trigger items@[p].name, items@[q].name]
            0 <= p < q < items@.len() ==> items@[p].name@ != items@[q].name@,
    ensures
        r@.len() == items@.len(),
        forall|p: int, q: int| 0 <= p < q < r@.len() ==> r@[p].distinct <= r@[q].distinct,
        forall|p: int|
            0 <= p < r@.len() ==> fi_views(items@).contains(#[trigger] fi_views(r@)[p]),
        forall|q: int|
            0 <= q < items@.len() ==> fi_views(r@).contains(#[trigger] fi_views(items@)[q]),
        forall|p: int, q: int|
            #![trigger r@[p].name, r@[q].name]
            0 <= p < q < r@.len() ==> r@[p].name@ != r@[q].name@,
{
    let ghost orig = fi_views(items@);
    let mut src = items;
    let mut out: Vec<FieldInfo> = Vec::new();
    proof {
        assert forall|p: int|
            0 <= p < src@.len() implies orig.contains(#[trigger] fi_views(src@)[p]) by {
            assert(fi_views(src@)[p] == orig[p]);
            assert(orig.contains(orig[p]));
        }
        assert forall|q: int|
            0 <= q < orig.len() implies fi_views(out@).contains(orig[q]) || fi_views(
            src@,
        ).contains(#[trigger] orig[q]) by {
            assert(fi_views(src@)[q] == orig[q]);
        }
    }
    while src.len() > 0
        invariant
            forall|p: int, q: int|
                0 <= p < q < out@.len() ==> out@[p].distinct <= out@[q].distinct,
            out@.len() + src@.len() == orig.len(),
            forall|p: int| 0 <= p < out@.len() ==> orig.contains(#[trigger] fi_views(out@)[p]),
            forall|p: int| 0 <= p < src@.len() ==> orig.contains(#[trigger] fi_views(src@)[p]),
            forall|q: int|
                0 <= q < orig.len() ==> fi_views(out@).contains(orig[q]) || fi_views(
                    src@,
                ).contains(#[trigger] orig[q]),
            forall|p: int, q: int|
                #![trigger src@[p].name, src@[q].name]
                0 <= p < q < src@.len() ==> src@[p].name@ != src@[q].name@,
            forall|p: int, q: int|
                #![trigger out@[p].name, out@[q].name]
                0 <= p < q < out@.len() ==> out@[p].name@ != out@[q].name@,
            forall|p: int, q: int|
                #![trigger out@[p].name, src@[q].name]
                0 <= p < out@.len() && 0 <= q < src@.len() ==> out@[p].name@ != src@[q].name@,
        decreases src.len(),
    {
        let ghost srcpre = src@;
        let ghost srcv = fi_views(src@);
        let ghost outv = fi_views(out@);
        let x = src.remove(0);
        let ghost xv = fi_view(x);
        proof {
            assert(xv == srcv[0]);
            assert(forall|p: int| 0 <= p < src@.len() ==> src@[p] == srcpre[p + 1]);
            assert forall|p: int|
                0 <= p < src@.len() implies orig.contains(#[trigger] fi_views(src@)[p]) by {
                assert(fi_views(src@)[p] == srcv[p + 1]);
            }
            assert(forall|p: int| 0 <= p < src@.len() ==> x.name@ != (#[trigger] src@[p].name)@);
        }
        let mut j: usize = 0;
        while j < out.len()
            invariant
                j <= out@.len(),
                forall|p: int| 0 <= p < j ==> out@[p].distinct <= x.distinct,
            decreases out.len() - j,
        {
            if !(out[j].distinct <= x.distinct) {
                break;
            }
            j = j + 1;
        }
        let ghost outpre = out@;
        out.insert(j, x);
        proof {
            assert(out@.len() == outpre.len() + 1);
            assert(forall|p: int| 0 <= p < j ==> out@[p] == outpre[p]);
            assert(out@[j as int] == x);
            assert(forall|p: int| j < p < out@.len() ==> out@[p] == outpre[p - 1]);
            assert(forall|p: int| 0 <= p < j ==> fi_views(out@)[p] == outv[p]);
            assert(fi_views(out@)[j as int] == xv);
            assert(forall|p: int| j < p < out@.len() ==> fi_views(out@)[p] == outv[p - 1]);
            assert forall|p: int, q: int|
                0 <= p < q < out@.len() implies out@[p].distinct <= out@[q].distinct by {
                if p == j && q > j {
                    assert(out@[q] == outpre[q - 1]);
                    assert(!(outpre[j as int].distinct <= x.distinct));
                    if (j as int) < q - 1 {
                        assert(outpre[j as int].distinct <= outpre[q - 1].distinct);
                    }
                }
            }
            assert forall|p: int|
                0 <= p < out@.len() implies orig.contains(#[trigger] fi_views(out@)[p]) by {
                if p < j {
                    assert(fi_views(out@)[p] == outv[p]);
                } else if p == j {
                    assert(fi_views(out@)[p] == xv);
                } else {
                    assert(fi_views(out@)[p] == outv[p - 1]);
                }
            }
            assert forall|q: int|
                0 <= q < orig.len() implies fi_views(out@).contains(orig[q]) || fi_views(
                src@,
            ).contains(#[trigger] orig[q]) by {
                if outv.contains(orig[q]) {
                    let p = choose|p: int| 0 <= p < outv.len() && outv[p] == orig[q];
                    if p < j {
                        assert(fi_views(out@)[p] == orig[q]);
                    } else {
                        assert(fi_views(out@)[p + 1] == orig[q]);
                    }
                    assert(fi_views(out@).contains(orig[q]));
                } else if srcv.contains(orig[q]) {
                    let p = choose|p: int| 0 <= p < srcv.len() && srcv[p] == orig[q];
                    if p == 0 {
                        assert(fi_views(out@)[j as int] == orig[q]);
                        assert(fi_views(out@).contains(orig[q]));
                    } else {
                        assert(fi_views(src@)[p - 1] == orig[q]);
                        assert(fi_views(src@).contains(orig[q]));
                    }
                }
            }
            assert forall|p: int, q: int|
                #![trigger out@[p].name, out@[q].name]
                0 <= p < q < out@.len() implies out@[p].name@ != out@[q].name@ by {
                if p < j && q == j {
                    assert(out@[p] == outpre[p]);
                } else if p == j && q > j {
                    assert(out@[q] == outpre[q - 1]);
                } else if p < j && q > j {
                    assert(out@[p] == outpre[p] && out@[q] == outpre[q - 1]);
                } else if q < j {
                } else {
                    assert(out@[p] == outpre[p - 1] && out@[q] == outpre[q - 1]);
                }
            }
            assert forall|p: int, q: int|
                #![trigger out@[p].name, src@[q].name]
                0 <= p < out@.len() && 0 <= q < src@.len()
                implies out@[p].name@ != src@[q].name@ by {
                if p < j {
                    assert(out@[p] == outpre[p]);
                } else if p == j {
                    assert(out@[p] == x);
                } else {
                    assert(out@[p] == outpre[p - 1]);
                }
            }
        }
    }
    proof {
        assert forall|q: int|
            0 <= q < orig.len() implies fi_views(out@).contains(#[trigger] orig[q]) by {
            assert(fi_views(src@).len() == 0);
            if fi_views(src@).contains(orig[q]) {
                let p = choose|p: int|
                    0 <= p < fi_views(src@).len() && fi_views(src@)[p] == orig[q];
                assert(false);
            }
        }
    }
    out
}

/// How one character of a query is written inside a quoted command argument.
pub open spec fn quote_char(c: char) -> Seq<char> {
    if c == '"' {
        seq!['\\', '"']
    } else if c == '\\' {
        seq!['\\', '\\']
    } else if c == '\n' {
        seq!['\\', 'n']
    } else if c == '\t' {
        seq!['\\', 't']
    } else if c == '\r' {
        seq!['\\', 'r']
    } else {
        seq![c]
    }
}

/// The body of a quoted command argument.
pub open spec fn quoted_body(s: Seq<char>) -> Seq<char>
    decreases s.len(),
{
    if s.len() == 0 {
        Seq::empty()
    } else {
        quote_char(s[0]) + quoted_body(s.skip(1))
    }
}

/// The suggested follow-up invocation for one faceted field: the same search
/// narrowed to that field (the query quoted with the common escapes).
pub open spec fn command_spec(query: Seq<char>, field: Seq<char>, input: Seq<char>) -> Seq<char> {
    "jsonai search -q "@ + seq!['"'] + quoted_body(query) + seq!['"'] + " --field "@ + field
        + seq![' '] + input
}

/// Builds the follow-up invocation for one faceted field.
#[verifier::loop_isolation(false)]
fn build_command(query: &str, field: &String, input: &str) -> (r: String)
    ensures
        r@ == command_spec(query@, field@, input@),
{
    let mut out: Vec<char> = Vec::new();
    push_str_chars(&mut out, "jsonai search -q ");
    out.push('"');
    let qc = str_chars(query);
    let mut i: usize = 0;
    let ghost mid = "jsonai search -q "@ + seq!['"'];
    proof {
        assert(out@ =~= mid);
        assert(qc@.skip(0) =~= qc@);
    }
    while i < qc.len()
        invariant
            i <= qc.len(),
            qc@ == query@,
            mid + quoted_body(query@) =~= out@ + quoted_body(qc@.skip(i as int)),
        decreases qc.len() - i,
    {
        let c = qc[i];
        proof {
            assert(qc@.skip(i as int)[0] == qc@[i as int]);
            assert(qc@.skip(i as int).skip(1) =~= qc@.skip(i + 1 as int));
        }
        if c == '"' {
            out.push('\\');
            out.push('"');
        } else if c == '\\' {
            out.push('\\');
            out.push('\\');
        } else if c == '\n' {
            out.push('\\');
            out.push('n');
        } else if c == '\t' {
            out.push('\\');
            out.push('t');
        } else if c == '\r' {
            out.push('\\');
            out.push('r');
        } else {
            out.push(c);
        }
        i = i + 1;
    }
    proof {
        assert(qc@.skip(qc@.len() as int) =~= Seq::<char>::empty());
        assert(out@ =~= mid + quoted_body(query@));
    }
    out.push('"');
    push_str_chars(&mut out, " --field ");
    push_str_chars(&mut out, field.as_str());
    out.push(' ');
    push_str_chars(&mut out, input);
    proof {
        assert(out@ =~= command_spec(query@, field@, input@));
    }
    string_from_chars(&out)
}

/// A set of distinct facet values that is exactly the values `key` takes in
/// the matched set: `n` is the key's true distinct-value count.
pub open spec fn distinct_count_ok(rs: Seq<SearchResultV>, key: Seq<char>, n: int) -> bool {
    exists|vals: Seq<String>|
        #![trigger vals.len()]
        vals.len() == n && (forall|p: int, q: int| 0 <= p < q < vals.len() ==> vals[p]@ != vals[q]@)
            && (forall|p: int| 0 <= p < vals.len() ==> pair_occurs(rs, key, #[trigger] vals[p]@))
            && (forall|val: Seq<char>| pair_occurs(rs, key, val) ==> has_string(vals, val))
}

/// One field summary is sound: its path is the escaped pointer of its name,
/// the name occurs in the matched set, and `distinct` is its true
/// distinct-value count.
pub open spec fn field_ok(rs: Seq<SearchResultV>, t: (Seq<char>, Seq<char>, int)) -> bool {
    t.1 == seq!['/'] + escape_spec(t.0) && key_occurs(rs, t.0) && distinct_count_ok(rs, t.0, t.2)
}

/// One facet entry is sound: its count is the pair's true frequency in the
/// matched set (capped at the machine word) and the pair occurs at all.
pub open spec fn entry_ok(rs: Seq<SearchResultV>, key: Seq<char>, e: (Seq<char>, int)) -> bool {
    e.1 == count_capped(rs, key, e.0) && pair_occurs(rs, key, e.0)
}

/// Does the ranking list this value?
pub open spec fn in_ranking(full: Seq<(Seq<char>, int)>, val: Seq<char>) -> bool {
    exists|e: int| 0 <= e < full.len() && (#[trigger] full[e]).0 == val
}

/// The full ranking of one key's facet values: ordered by count descending
/// (ties by value ascending), duplicate-free, holding every observed value
/// of the key, each with its true frequency count.
pub open spec fn ranked_values(
    rs: Seq<SearchResultV>,
    key: Seq<char>,
    full: Seq<(Seq<char>, int)>,
) -> bool {
    &&& sorted_pairs(full)
    &&& forall|p: int, q: int|
        #![trigger full[p], full[q]]
        0 <= p < q < full.len() ==> full[p].0 != full[q].0
    &&& forall|e: int|
        0 <= e < full.len() ==> (#[trigger] full[e]).1 == count_capped(rs, key, full[e].0)
            && pair_occurs(rs, key, full[e].0)
    &&& forall|val: Seq<char>| pair_occurs(rs, key, val) ==> in_ranking(full, val)
}

/// A facet entry list is the top five of the key's full value ranking (the
/// whole ranking when it has at most five values).
pub open spec fn facet_list_ok(
    rs: Seq<SearchResultV>,
    key: Seq<char>,
    list: Seq<(String, usize)>,
) -> bool {
    exists|full: Seq<(Seq<char>, int)>|
        #[trigger] ranked_values(rs, key, full) && pair_views(list) == (if full.len() <= 5 {
            full
        } else {
            full.take(5)
        })
}

/// The key takes at most twenty distinct facet values in the matched set.
pub open spec fn low_cardinality(rs: Seq<SearchResultV>, key: Seq<char>) -> bool {
    exists|n: int| n <= 20 && #[trigger] distinct_count_ok(rs, key, n)
}

/// Is there a facet for `key`?
pub open spec fn has_facet(fs: Seq<(String, Vec<(String, usize)>)>, key: Seq<char>) -> bool {
    exists|f: int| 0 <= f < fs.len() && (#[trigger] fs[f].0)@ == key
}

/// Is there a field summary named `key`?
pub open spec fn has_field(fs: Seq<FieldInfo>, key: Seq<char>) -> bool {
    exists|i: int| 0 <= i < fs.len() && #[trigger] fs[i].name@ == key
}

/// A navigable summary of an overflowing match set: its fields (lowest
/// cardinality first), low-cardinality facets, and suggested follow-ups.
#[derive(Debug)]
pub struct Plan {
    pub fields: Vec<FieldInfo>,
    pub facets: Vec<(String, Vec<(String, usize)>)>,
    pub commands: Vec<String>,
}

/// What `build_plan` promises about a plan for the matched set `rs`: the
/// field list holds exactly one sound summary per observed key, lowest
/// cardinality first; a key has a facet exactly when its distinct-value
/// count is at most twenty; each facet list is the top five of that key's
/// full value ranking; and there is one follow-up command per facet.
pub open spec fn good_plan(rs: Seq<SearchResultV>, query: Seq<char>, input: Seq<char>, p: Plan) -> bool {
    &&& forall|i: int, j: int|
        0 <= i < j < p.fields@.len() ==> p.fields@[i].distinct <= p.fields@[j].distinct
    &&& forall|i: int| 0 <= i < p.fields@.len() ==> field_ok(rs, #[trigger] fi_views(p.fields@)[i])
    &&& forall|key: Seq<char>| key_occurs(rs, key) ==> has_field(p.fields@, key)
    &&& forall|i: int, j: int|
        #![trigger p.fields@[i].name, p.fields@[j].name]
        0 <= i < j < p.fields@.len() ==> p.fields@[i].name@ != p.fields@[j].name@
    &&& forall|f: int| 0 <= f < p.facets@.len() ==> (#[trigger] p.facets@[f].1)@.len() <= 5
    &&& forall|f: int|
        0 <= f < p.facets@.len() ==> sorted_pairs(pair_views((#[trigger] p.facets@[f].1)@))
    &&& forall|f: int, e: int|
        0 <= f < p.facets@.len() && 0 <= e < p.facets@[f].1@.len() ==> entry_ok(
            rs,
            p.facets@[f].0@,
            #[trigger] pair_views(p.facets@[f].1@)[e],
        )
    &&& forall|f: int|
        0 <= f < p.facets@.len() ==> facet_list_ok(rs, p.facets@[f].0@, (
        #[trigger] p.facets@[f].1)@)
    &&& forall|f: int, g: int|
        #![trigger p.facets@[f].0, p.facets@[g].0]
        0 <= f < g < p.facets@.len() ==> p.facets@[f].0@ != p.facets@[g].0@
    &&& forall|f: int| 0 <= f < p.facets@.len() ==> key_occurs(rs, (#[trigger] p.facets@[f].0)@)
    &&& forall|f: int|
        0 <= f < p.facets@.len() ==> low_cardinality(rs, (#[trigger] p.facets@[f].0)@)
    &&& forall|i: int|
        0 <= i < p.fields@.len() && (#[trigger] p.fields@[i]).distinct <= 20 ==> has_facet(
            p.facets@,
            p.fields@[i].name@,
        )
    &&& p.commands@.len() == p.facets@.len()
    &&& forall|f: int|
        0 <= f < p.commands@.len() ==> (#[trigger] p.commands@[f])@ == command_spec(
            query,
            p.facets@[f].0@,
            input,
        )
}

/// Builds the facet entry list for one key from its distinct observed
/// values: count each value's true frequency, rank by count descending
/// (ties by value ascending), and keep the top five.
#[verifier::loop_isolation(false)]
#[verifier::rlimit(100)]
fn facet_entries(results: &Vec<SearchResult>, key: &String, vals: &Vec<String>) -> (r: Vec<
    (String, usize),
>)
    requires
        forall|p: int, q: int|
            #![trigger vals@[p], vals@[q]]
            0 <= p < q < vals@.len() ==> vals@[p]@ != vals@[q]@,
        forall|p: int|
            0 <= p < vals@.len() ==> pair_occurs(result_views(results@), key@, (
            #[trigger] vals@[p])@),
        forall|val: Seq<char>|
            pair_occurs(result_views(results@), key@, val) ==> has_string(vals@, val),
    ensures
        r@.len() <= 5,
        sorted_pairs(pair_views(r@)),
        forall|e: int|
            0 <= e < r@.len() ==> entry_ok(result_views(results@), key@, #[trigger] pair_views(
                r@,
            )[e]),
        facet_list_ok(result_views(results@), key@, r@),
{
    let ghost rv = result_views(results@);
    let mut pairs: Vec<(String, usize)> = Vec::new();
    let mut v: usize = 0;
    while v < vals.len()
        invariant
            v <= vals@.len(),
            rv == result_views(results@),
            pairs@.len() == v as int,
            forall|e: int| 0 <= e < pairs@.len() ==> (#[trigger] pairs@[e].0)@ == vals@[e]@,
            forall|e: int|
                0 <= e < pairs@.len() ==> entry_ok(rv, key@, #[trigger] pair_views(pairs@)[e]),
        decreases vals@.len() - v,
    {
        let val = vals[v].clone();
        let c = count_pair(results, key, &val);
        let ghost pairsold = pairs@;
        let ghost valv = val@;
        proof {
            assert(pair_occurs(rv, key@, val@));
        }
        pairs.push((val, c));
        proof {
            assert(forall|e: int| 0 <= e < pairsold.len() ==> pairs@[e] == pairsold[e]);
            assert(forall|e: int|
                0 <= e < pairsold.len() ==> pair_views(pairs@)[e] == pair_views(pairsold)[e]);
            assert(pairs@[pairs@.len() - 1].0@ == valv);
            assert(pair_views(pairs@)[pairs@.len() - 1] == (valv, c as int));
            assert(entry_ok(rv, key@, pair_views(pairs@)[pairs@.len() - 1]));
            assert forall|e: int|
                0 <= e < pairs@.len() implies entry_ok(
                rv,
                key@,
                #[trigger] pair_views(pairs@)[e],
            ) by {
                if e < pairsold.len() {
                    assert(pair_views(pairs@)[e] == pair_views(pairsold)[e]);
                }
            }
        }
        v = v + 1;
    }
    proof {
        assert forall|p: int, q: int|
            #![trigger pairs@[p].0, pairs@[q].0]
            0 <= p < q < pairs@.len() implies pairs@[p].0@ != pairs@[q].0@ by {
            assert(pairs@[p].0@ == vals@[p]@ && pairs@[q].0@ == vals@[q]@);
        }
    }
    let ghost inputpairs = pairs@;
    let mut sorted = sort_pairs(pairs);
    let ghost fullseq = pair_views(sorted@);
    proof {
        assert(ranked_values(rv, key@, fullseq)) by {
            assert forall|p: int, q: int|
                #![trigger fullseq[p], fullseq[q]]
                0 <= p < q < fullseq.len() implies fullseq[p].0 != fullseq[q].0 by {
                assert(fullseq[p].0 == sorted@[p].0@ && fullseq[q].0 == sorted@[q].0@);
            }
            assert forall|e: int|
                0 <= e < fullseq.len() implies (#[trigger] fullseq[e]).1 == count_capped(
                rv,
                key@,
                fullseq[e].0,
            ) && pair_occurs(rv, key@, fullseq[e].0) by {
                assert(pair_views(inputpairs).contains(fullseq[e]));
                let q = choose|q: int|
                    0 <= q < pair_views(inputpairs).len()
                        && pair_views(inputpairs)[q] == fullseq[e];
                assert(entry_ok(rv, key@, pair_views(inputpairs)[q]));
            }
            assert forall|val: Seq<char>|
                pair_occurs(rv, key@, val) implies in_ranking(fullseq, val) by {
                assert(has_string(vals@, val));
                let w = choose|w: int| 0 <= w < vals@.len() && #[trigger] vals@[w]@ == val;
                assert(pair_views(inputpairs)[w].0 == val);
                assert(pair_views(sorted@).contains(pair_views(inputpairs)[w]));
                let e = choose|e: int|
                    0 <= e < pair_views(sorted@).len() && pair_views(sorted@)[e] == pair_views(
                        inputpairs,
                    )[w];
                assert((#[trigger] fullseq[e]).0 == val);
            }
        }
    }
    let ghost sortedseq = sorted@;
    sorted.truncate(5);
    proof {
        assert(sorted@ =~= sortedseq.take(
            if sortedseq.len() <= 5 {
                sortedseq.len() as int
            } else {
                5
            },
        ));
        assert(forall|e: int| 0 <= e < sorted@.len() ==> sorted@[e] == sortedseq[e]);
        assert(forall|e: int|
            0 <= e < sorted@.len() ==> #[trigger] pair_views(sorted@)[e] == fullseq[e]);
        assert(pair_views(sorted@) =~= (if fullseq.len() <= 5 {
            fullseq
        } else {
            fullseq.take(5)
        }));
        assert(facet_list_ok(rv, key@, sorted@));
        assert(sorted_pairs(pair_views(sorted@))) by {
            assert forall|i: int, j: int|
                0 <= i < j < pair_views(sorted@).len() implies pair_le(
                pair_views(sorted@)[i],
                pair_views(sorted@)[j],
            ) by {
                assert(pair_views(sorted@)[i] == fullseq[i]);
                assert(pair_views(sorted@)[j] == fullseq[j]);
            }
        }
        assert forall|e: int|
            0 <= e < sorted@.len() implies entry_ok(rv, key@, #[trigger] pair_views(sorted@)[e]) by {
            assert(pair_views(sorted@)[e] == fullseq[e]);
        }
    }
    sorted
}

/// Analyze matched records and produce a plan with fields, facets, and
/// suggested commands for narrowing down an overflow result set: one field
/// summary per observed key (distinct-value count ascending), facet values
/// for keys with at most 20 distinct values (top 5 by count descending, ties
/// by value ascending, with true frequency counts), and one follow-up
/// invocation per faceted field.
#[verifier::loop_isolation(false)]
#[verifier::rlimit(100)]
pub fn build_plan(results: &Vec<SearchResult>, query: &str, input: &str) -> (p: Plan)
    ensures
        good_plan(result_views(results@), query@, input@, p),
{
    let ghost rv = result_views(results@);
    let keys = collect_keys(results);
    let mut stats: Vec<(String, Vec<String>)> = Vec::new();
    let mut k: usize = 0;
    while k < keys.len()
        invariant
            k <= keys.len(),
            rv == result_views(results@),
            stats@.len() == k as int,
            forall|s: int| 0 <= s < stats@.len() ==> (#[trigger] stats@[s].0)@ == keys@[s]@,
            forall|s: int, p: int, q: int|
                #![trigger stats@[s].1@[p], stats@[s].1@[q]]
                0 <= s < stats@.len() && 0 <= p < q < stats@[s].1@.len()
                    ==> stats@[s].1@[p]@ != stats@[s].1@[q]@,
            forall|s: int, p: int|
                0 <= s < stats@.len() && 0 <= p < stats@[s].1@.len() ==> pair_occurs(
                    rv,
                    stats@[s].0@,
                    (#[trigger] stats@[s].1@[p])@,
                ),
            forall|s: int, val: Seq<char>|
                #![trigger pair_occurs(rv, stats@[s].0@, val)]
                0 <= s < stats@.len() && pair_occurs(rv, stats@[s].0@, val) ==> has_string(
                    stats@[s].1@,
                    val,
                ),
        decreases keys.len() - k,
    {
        let vals = collect_vals(results, &keys[k]);
        let name = keys[k].clone();
        let ghost valsv = vals@;
        let ghost namev = name@;
        let ghost statsold = stats@;
        stats.push((name, vals));
        proof {
            assert(forall|t: int| 0 <= t < statsold.len() ==> stats@[t] == statsold[t]);
            assert(stats@[stats@.len() - 1].0@ == namev);
            assert(stats@[stats@.len() - 1].1@ == valsv);
            assert forall|s2: int, p: int, q: int|
                #![trigger stats@[s2].1@[p], stats@[s2].1@[q]]
                0 <= s2 < stats@.len() && 0 <= p < q < stats@[s2].1@.len()
                implies stats@[s2].1@[p]@ != stats@[s2].1@[q]@ by {
                if s2 < statsold.len() {
                    assert(stats@[s2] == statsold[s2]);
                    assert(statsold[s2].1@[p]@ != statsold[s2].1@[q]@);
                } else {
                    assert(stats@[s2].1@ == valsv);
                    assert(valsv[p]@ != valsv[q]@);
                }
            }
        }
        k = k + 1;
    }
    let mut fields: Vec<FieldInfo> = Vec::new();
    let mut s: usize = 0;
    while s < stats.len()
        invariant
            s <= stats.len(),
            rv == result_views(results@),
            fields@.len() == s as int,
            forall|i: int|
                0 <= i < fields@.len() ==> field_ok(rv, #[trigger] fi_views(fields@)[i]),
            forall|i: int| 0 <= i < s ==> fields@[i].name@ == stats@[i].0@,
            forall|i: int| 0 <= i < s ==> (#[trigger] fields@[i]).distinct == stats@[i].1@.len(),
        decreases stats.len() - s,
    {
        let name = stats[s].0.clone();
        let nc = str_chars(name.as_str());
        let esc = escape_chars(&nc);
        let mut pc: Vec<char> = Vec::new();
        pc.push('/');
        push_all(&mut pc, &esc);
        let path = string_from_chars(&pc);
        let distinct = stats[s].1.len();
        let ghost fieldsold = fields@;
        fields.push(FieldInfo { name, path, distinct });
        proof {
            assert(forall|i: int|
                0 <= i < fieldsold.len() ==> fi_views(fields@)[i] == fi_views(fieldsold)[i]);
            let t = fi_views(fields@)[s as int];
            assert(t.1 =~= seq!['/'] + escape_spec(t.0));
            assert(t.0 == stats@[s as int].0@);
            assert(distinct_count_ok(rv, t.0, t.2)) by {
                let w = stats@[s as int].1@;
                assert(w.len() == t.2);
                assert(forall|p: int, q: int| 0 <= p < q < w.len() ==> w[p]@ != w[q]@) by {
                    assert(forall|p: int, q: int|
                        0 <= p < q < stats@[s as int].1@.len() ==> stats@[s as int].1@[p]@
                            != stats@[s as int].1@[q]@);
                }
                assert(forall|p: int| 0 <= p < w.len() ==> pair_occurs(rv, t.0, #[trigger] w[p]@));
                assert forall|val: Seq<char>|
                    pair_occurs(rv, t.0, val) implies has_string(w, val) by {
                    assert(pair_occurs(rv, stats@[s as int].0@, val));
                }
            }
            assert(key_occurs(rv, t.0)) by {
                assert(stats@[s as int].0@ == keys@[s as int]@);
                assert(key_occurs(rv, keys@[s as int]@));
            }
            assert(field_ok(rv, t));
            assert forall|i: int|
                0 <= i < fields@.len() implies field_ok(rv, #[trigger] fi_views(fields@)[i]) by {
                if i < fieldsold.len() {
                    assert(fi_views(fields@)[i] == fi_views(fieldsold)[i]);
                }
            }
        }
        s = s + 1;
    }
    proof {
        assert forall|p: int, q: int|
            #![trigger fields@[p].name, fields@[q].name]
            0 <= p < q < fields@.len() implies fields@[p].name@ != fields@[q].name@ by {
            assert(fields@[p].name@ == stats@[p].0@ && fields@[q].name@ == stats@[q].0@);
            assert(stats@[p].0@ == keys@[p]@ && stats@[q].0@ == keys@[q]@);
        }
    }
    let ghost fieldspre = fields@;
    let fields = sort_fields(fields);
    let mut facets: Vec<(String, Vec<(String, usize)>)> = Vec::new();
    let mut commands: Vec<String> = Vec::new();
    let ghost mut origin: Seq<int> = Seq::empty();
    let mut s2: usize = 0;
    while s2 < stats.len()
        invariant
            origin.len() == facets@.len(),
            forall|f: int|
                0 <= f < facets@.len() ==> 0 <= #[trigger] origin[f] < s2 && facets@[f].0@
                    == stats@[origin[f]].0@ && stats@[origin[f]].1@.len() <= 20,
            s2 <= stats.len(),
            rv == result_views(results@),
            commands@.len() == facets@.len(),
            forall|f: int| 0 <= f < facets@.len() ==> (#[trigger] facets@[f].1)@.len() <= 5,
            forall|f: int|
                0 <= f < facets@.len() ==> sorted_pairs(pair_views((#[trigger] facets@[f].1)@)),
            forall|f: int, e: int|
                0 <= f < facets@.len() && 0 <= e < facets@[f].1@.len() ==> entry_ok(
                    rv,
                    facets@[f].0@,
                    #[trigger] pair_views(facets@[f].1@)[e],
                ),
            forall|f: int|
                0 <= f < facets@.len() ==> facet_list_ok(rv, facets@[f].0@, (
                #[trigger] facets@[f].1)@),
            forall|f: int| 0 <= f < facets@.len() ==> key_occurs(rv, (#[trigger] facets@[f].0)@),

            forall|f: int, g: int|
                #![trigger facets@[f].0, facets@[g].0]
                0 <= f < g < facets@.len() ==> facets@[f].0@ != facets@[g].0@,
            forall|t: int|
                0 <= t < s2 && stats@[t].1@.len() <= 20 ==> has_facet(facets@, (
                #[trigger] stats@[t].0)@),
            forall|f: int|
                0 <= f < commands@.len() ==> (#[trigger] commands@[f])@ == command_spec(
                    query@,
                    facets@[f].0@,
                    input@,
                ),
        decreases stats.len() - s2,
    {
        if stats[s2].1.len() <= 20 {
            let key = stats[s2].0.clone();
            proof {
                assert(key@ == stats@[s2 as int].0@);
                assert(forall|p: int, q: int|
                    #![trigger stats@[s2 as int].1@[p], stats@[s2 as int].1@[q]]
                    0 <= p < q < stats@[s2 as int].1@.len() ==> stats@[s2 as int].1@[p]@
                        != stats@[s2 as int].1@[q]@);
            }
            let pairs = facet_entries(results, &key, &stats[s2].1);
            let cmd = build_command(query, &key, input);
            let ghost keyv = key@;
            let ghost pairsv = pairs@;
            let ghost facetsold = facets@;
            let ghost commandsold = commands@;
            facets.push((key, pairs));
            commands.push(cmd);
            proof {
                assert(forall|f: int| 0 <= f < facetsold.len() ==> facets@[f] == facetsold[f]);
                assert(forall|f: int|
                    0 <= f < commandsold.len() ==> commands@[f] == commandsold[f]);
                assert(facets@[facets@.len() - 1].0@ == keyv);
                assert(facets@[facets@.len() - 1].1@ == pairsv);
                assert(key_occurs(rv, keyv)) by {
                    assert(keyv == stats@[s2 as int].0@);
                    assert(stats@[s2 as int].0@ == keys@[s2 as int]@);
                }
                assert(facet_list_ok(rv, keyv, pairsv));
                origin = origin.push(s2 as int);
                assert forall|f: int|
                    0 <= f < facets@.len() implies 0 <= #[trigger] origin[f] < s2 + 1
                        && facets@[f].0@ == stats@[origin[f]].0@ && stats@[origin[f]].1@.len()
                        <= 20 by {
                    if f < facetsold.len() {
                        assert(facets@[f] == facetsold[f]);
                        assert(origin[f] == origin.drop_last()[f]);
                    } else {
                        assert(origin[f] == s2 as int);
                        assert(facets@[f].0@ == (stats@[s2 as int].0)@);
                        assert(stats@[s2 as int].1@.len() <= 20);
                    }
                }
                assert forall|f: int, g: int|
                    #![trigger facets@[f].0, facets@[g].0]
                    0 <= f < g < facets@.len() implies facets@[f].0@ != facets@[g].0@ by {
                    if g < facetsold.len() {
                        assert(facets@[f] == facetsold[f] && facets@[g] == facetsold[g]);
                    } else {
                        assert(facets@[f] == facetsold[f]);
                        let t = origin.drop_last()[f];
                        assert(facetsold[f].0@ == stats@[t].0@);
                        assert(stats@[t].0@ == keys@[t]@);
                        assert(stats@[s2 as int].0@ == keys@[s2 as int]@);
                        assert(keys@[t]@ != keys@[s2 as int]@);
                    }
                }
                assert forall|t: int|
                    0 <= t < s2 + 1 && stats@[t].1@.len() <= 20 implies has_facet(
                    facets@,
                    (#[trigger] stats@[t].0)@,
                ) by {
                    if t < s2 {
                        assert(has_facet(facetsold, stats@[t].0@));
                        let f = choose|f: int|
                            0 <= f < facetsold.len() && (#[trigger] facetsold[f].0)@
                                == stats@[t].0@;
                        assert(facets@[f].0@ == stats@[t].0@);
                    } else {
                        assert(facets@[facets@.len() - 1].0@ == stats@[s2 as int].0@);
                    }
                }
            }
        } else {
            proof {
                assert forall|t: int|
                    0 <= t < s2 + 1 && stats@[t].1@.len() <= 20 implies has_facet(
                    facets@,
                    (#[trigger] stats@[t].0)@,
                ) by {
                    assert(t < s2);
                }
            }
        }
        s2 = s2 + 1;
    }
    proof {
        assert forall|i: int|
            0 <= i < fields@.len() implies field_ok(rv, #[trigger] fi_views(fields@)[i]) by {
            assert(fi_views(fieldspre).contains(fi_views(fields@)[i]));
            let q = choose|q: int|
                0 <= q < fi_views(fieldspre).len() && fi_views(fieldspre)[q] == fi_views(
                    fields@,
                )[i];
            assert(field_ok(rv, fi_views(fieldspre)[q]));
        }
        assert forall|key: Seq<char>| key_occurs(rv, key) implies has_field(fields@, key) by {
            assert(has_string(keys@, key));
            let q = choose|q: int| 0 <= q < keys@.len() && keys@[q]@ == key;
            assert(fi_views(fields@).contains(fi_views(fieldspre)[q]));
            let p = choose|p: int|
                0 <= p < fi_views(fields@).len() && fi_views(fields@)[p] == fi_views(fieldspre)[q];
            assert(fields@[p].name@ == key);
        }
        assert forall|f: int|
            0 <= f < facets@.len() implies low_cardinality(rv, (#[trigger] facets@[f].0)@) by {
            let t = origin[f];
            assert(facets@[f].0@ == stats@[t].0@ && stats@[t].1@.len() <= 20);
            assert(distinct_count_ok(rv, facets@[f].0@, stats@[t].1@.len() as int)) by {
                let w = stats@[t].1@;
                assert(w.len() == stats@[t].1@.len() as int);
                assert(forall|p: int, q: int| 0 <= p < q < w.len() ==> w[p]@ != w[q]@);
                assert(forall|p: int|
                    0 <= p < w.len() ==> pair_occurs(rv, stats@[t].0@, #[trigger] w[p]@));
                assert forall|val: Seq<char>|
                    pair_occurs(rv, facets@[f].0@, val) implies has_string(w, val) by {
                    assert(pair_occurs(rv, stats@[t].0@, val));
                }
            }
        }
        assert forall|i: int|
            0 <= i < fields@.len() && (#[trigger] fields@[i]).distinct <= 20 implies has_facet(
            facets@,
            fields@[i].name@,
        ) by {
            assert(fi_views(fieldspre).contains(fi_views(fields@)[i]));
            let q = choose|q: int|
                0 <= q < fi_views(fieldspre).len() && fi_views(fieldspre)[q] == fi_views(
                    fields@,
                )[i];
            assert(fieldspre[q].name@ == fields@[i].name@);
            assert(fieldspre[q].distinct == fields@[i].distinct);
            assert(fieldspre[q].distinct == stats@[q].1@.len());
            assert(fieldspre[q].name@ == stats@[q].0@);
            assert(has_facet(facets@, stats@[q].0@));
        }
    }
    Plan { fields, facets, commands }
}

/// What a plan response reports about itself.
#[derive(Clone, Copy, PartialEq, Eq, Structural, Debug)]
pub struct PlanMeta {
    pub total: usize,
    pub returned: usize,
    pub overflow: bool,
    pub threshold: usize,
    pub files_searched: Option<usize>,
}

/// A plan response: metadata, the plan, and an (always empty) results array.
#[derive(Debug)]
pub struct PlanEnvelope {
    pub meta: PlanMeta,
    pub plan: Plan,
    pub results: Vec<Json>,
}

/// The JSON form of the plan metadata.
pub open spec fn plan_meta_json(m: PlanMeta) -> JsonV {
    let base = seq![
        ("total"@, JsonV::Num(dec_str(m.total as nat))),
        ("returned"@, JsonV::Num(dec_str(m.returned as nat))),
        ("overflow"@, JsonV::Bool(m.overflow)),
        ("threshold"@, JsonV::Num(dec_str(m.threshold as nat))),
    ];
    match m.files_searched {
        Some(n) => JsonV::Obj(base.push(("files_searched"@, JsonV::Num(dec_str(n as nat))))),
        None => JsonV::Obj(base),
    }
}

/// The JSON form of one field summary.
pub open spec fn field_info_json(t: (Seq<char>, Seq<char>, int)) -> JsonV {
    JsonV::Obj(
        seq![
            ("name"@, JsonV::Str(t.0)),
            ("path"@, JsonV::Str(t.1)),
            ("distinct"@, JsonV::Num(dec_str(t.2 as nat))),
        ],
    )
}

/// The JSON form of one facet entry: a `[value, count]` pair.
pub open spec fn facet_entry_json(e: (Seq<char>, int)) -> JsonV {
    JsonV::Arr(seq![JsonV::Str(e.0), JsonV::Num(dec_str(e.1 as nat))])
}

/// The JSON form of a whole plan.
pub open spec fn plan_json(p: Plan) -> JsonV {
    JsonV::Obj(
        seq![
            ("fields"@, JsonV::Arr(fi_views(p.fields@).map_values(|t| field_info_json(t)))),
            (
                "facets"@,
                JsonV::Obj(
                    p.facets@.map_values(
                        |f: (String, Vec<(String, usize)>)|
                            (f.0@, JsonV::Arr(pair_views(f.1@).map_values(|e| facet_entry_json(e)))),
                    ),
                ),
            ),
            ("commands"@, JsonV::Arr(string_views(p.commands@).map_values(|c| JsonV::Str(c)))),
        ],
    )
}

/// The JSON form of a plan response: metadata, plan, empty results.
pub open spec fn plan_envelope_obj(m: PlanMeta, plan: JsonV, results: Seq<JsonV>) -> JsonV {
    JsonV::Obj(
        seq![
            ("meta"@, plan_meta_json(m)),
            ("plan"@, plan),
            ("results"@, JsonV::Arr(results)),
        ],
    )
}

/// A plan response never carries results, and always declares the overflow:
/// its results member is the empty array and its metadata's overflow member
/// is true whenever the metadata says so.
pub proof fn lemma_plan_envelope_shape(m: PlanMeta, plan: JsonV)
    ensures
        match plan_envelope_obj(m, plan, Seq::empty()) {
            JsonV::Obj(fs) => fs.len() == 3 && fs[2] == (
                "results"@,
                JsonV::Arr(Seq::<JsonV>::empty()),
            ) && fs[0].0 == "meta"@ && (match fs[0].1 {
                JsonV::Obj(ms) => ms.len() >= 3 && ms[2] == ("overflow"@, JsonV::Bool(m.overflow)),
                _ => false,
            }),
            _ => false,
        },
{
}

/// Builds the JSON form of the plan metadata.
fn plan_meta_to_json(m: &PlanMeta) -> (r: Json)
    ensures
        r@ == plan_meta_json(*m),
{
    let mut fields: Vec<(String, Json)> = Vec::new();
    fields.push((String::from_str("total"), Json::Num(usize_to_string(m.total))));
    fields.push((String::from_str("returned"), Json::Num(usize_to_string(m.returned))));
    fields.push((String::from_str("overflow"), Json::Bool(m.overflow)));
    fields.push((String::from_str("threshold"), Json::Num(usize_to_string(m.threshold))));
    match m.files_searched {
        Some(n) => {
            fields.push((String::from_str("files_searched"), Json::Num(usize_to_string(n))));
        },
        None => {},
    }
    proof {
        lemma_views_of_fields(fields@, 0);
        match plan_meta_json(*m) {
            JsonV::Obj(want) => {
                assert(views_of_fields(fields@, 0) =~= want);
            },
            _ => {
                assert(false);
            },
        }
    }
    Json::Obj(fields)
}

/// Builds the JSON form of a whole plan (consuming it).
#[verifier::loop_isolation(false)]
fn plan_to_json(p: Plan) -> (r: Json)
    ensures
        r@ == plan_json(p),
{
    let ghost pv = p;
    let Plan { fields, facets, commands } = p;
    let mut field_items: Vec<Json> = Vec::new();
    let mut i: usize = 0;
    while i < fields.len()
        invariant
            i <= fields@.len(),
            field_items@.len() == i as int,
            forall|j: int|
                0 <= j < i ==> views_of_list(field_items@, 0)[j] == field_info_json(
                    #[trigger] fi_views(fields@)[j],
                ),
            views_of_list(field_items@, 0).len() == i as int,
            fields@ == pv.fields@,
        decreases fields.len() - i,
    {
        let f = &fields[i];
        let mut fj: Vec<(String, Json)> = Vec::new();
        fj.push((String::from_str("name"), Json::Str(f.name.clone())));
        fj.push((String::from_str("path"), Json::Str(f.path.clone())));
        fj.push((String::from_str("distinct"), Json::Num(usize_to_string(f.distinct))));
        proof {
            lemma_views_of_fields(fj@, 0);
            match field_info_json(fi_views(fields@)[i as int]) {
                JsonV::Obj(want) => {
                    assert(views_of_fields(fj@, 0) =~= want);
                },
                _ => {
                    assert(false);
                },
            }
        }
        let ghost itemsold = field_items@;
        field_items.push(Json::Obj(fj));
        proof {
            lemma_views_of_list(itemsold, 0);
            lemma_views_of_list(field_items@, 0);
            assert(field_items@ =~= itemsold.push(field_items@.last()));
        }
        i = i + 1;
    }
    let mut facet_fields: Vec<(String, Json)> = Vec::new();
    let mut fidx: usize = 0;
    let ghost want_facets = pv.facets@.map_values(
        |f: (String, Vec<(String, usize)>)|
            (f.0@, JsonV::Arr(pair_views(f.1@).map_values(|e| facet_entry_json(e)))),
    );
    while fidx < facets.len()
        invariant
            fidx <= facets@.len(),
            facet_fields@.len() == fidx as int,
            forall|j: int|
                0 <= j < fidx ==> views_of_fields(facet_fields@, 0)[j] == want_facets[j],
            views_of_fields(facet_fields@, 0).len() == fidx as int,
            facets@ == pv.facets@,
            want_facets == pv.facets@.map_values(
                |f: (String, Vec<(String, usize)>)|
                    (f.0@, JsonV::Arr(pair_views(f.1@).map_values(|e| facet_entry_json(e)))),
            ),
        decreases facets.len() - fidx,
    {
        let fkey = facets[fidx].0.clone();
        let mut entry_items: Vec<Json> = Vec::new();
        let mut e: usize = 0;
        let ghost pvw = pair_views(facets@[fidx as int].1@);
        while e < facets[fidx].1.len()
            invariant
                e <= facets@[fidx as int].1@.len(),
                fidx < facets@.len(),
                entry_items@.len() == e as int,
                pvw == pair_views(facets@[fidx as int].1@),
                pvw.len() == facets@[fidx as int].1@.len(),
                forall|j: int|
                    0 <= j < e ==> views_of_list(entry_items@, 0)[j] == facet_entry_json(
                        #[trigger] pvw[j],
                    ),
                views_of_list(entry_items@, 0).len() == e as int,
            decreases facets[fidx as int].1.len() - e,
        {
            let val = facets[fidx].1[e].0.clone();
            let cnt = facets[fidx].1[e].1;
            let mut pairvec: Vec<Json> = Vec::new();
            pairvec.push(Json::Str(val));
            pairvec.push(Json::Num(usize_to_string(cnt)));
            proof {
                lemma_views_of_list(pairvec@, 0);
                match facet_entry_json(pvw[e as int]) {
                    JsonV::Arr(want) => {
                        assert(views_of_list(pairvec@, 0) =~= want);
                    },
                    _ => {
                        assert(false);
                    },
                }
            }
            let ghost itemsold = entry_items@;
            entry_items.push(Json::Arr(pairvec));
            proof {
                lemma_views_of_list(itemsold, 0);
                lemma_views_of_list(entry_items@, 0);
                assert(entry_items@ =~= itemsold.push(entry_items@.last()));
            }
            e = e + 1;
        }
        proof {
            lemma_views_of_list(entry_items@, 0);
            assert(views_of_list(entry_items@, 0) =~= pvw.map_values(|e2| facet_entry_json(e2)));
        }
        let ghost ffold = facet_fields@;
        facet_fields.push((fkey, Json::Arr(entry_items)));
        proof {
            lemma_views_of_fields(ffold, 0);
            lemma_views_of_fields(facet_fields@, 0);
            assert(facet_fields@ =~= ffold.push(facet_fields@.last()));
            assert(views_of_fields(facet_fields@, 0)[fidx as int] == want_facets[fidx as int]);
        }
        fidx = fidx + 1;
    }
    let mut command_items: Vec<Json> = Vec::new();
    let mut c: usize = 0;
    while c < commands.len()
        invariant
            c <= commands@.len(),
            command_items@.len() == c as int,
            forall|j: int|
                0 <= j < c ==> views_of_list(command_items@, 0)[j] == JsonV::Str(
                    #[trigger] string_views(commands@)[j],
                ),
            views_of_list(command_items@, 0).len() == c as int,
            commands@ == pv.commands@,
        decreases commands.len() - c,
    {
        let ghost itemsold = command_items@;
        command_items.push(Json::Str(commands[c].clone()));
        proof {
            lemma_views_of_list(itemsold, 0);
            lemma_views_of_list(command_items@, 0);
            assert(command_items@ =~= itemsold.push(command_items@.last()));
        }
        c = c + 1;
    }
    let mut top: Vec<(String, Json)> = Vec::new();
    top.push((String::from_str("fields"), Json::Arr(field_items)));
    top.push((String::from_str("facets"), Json::Obj(facet_fields)));
    top.push((String::from_str("commands"), Json::Arr(command_items)));
    proof {
        lemma_views_of_fields(top@, 0);
        match plan_json(pv) {
            JsonV::Obj(want) => {
                assert(views_of_fields(top@, 0) =~= want) by {
                    match top@[0].1 {
                        Json::Arr(items) => {
                            assert(views_of_list(items@, 0) =~= fi_views(pv.fields@).map_values(
                                |t| field_info_json(t),
                            ));
                        },
                        _ => {
                            assert(false);
                        },
                    }
                    match top@[2].1 {
                        Json::Arr(items) => {
                            assert(views_of_list(items@, 0) =~= string_views(
                                pv.commands@,
                            ).map_values(|c2| JsonV::Str(c2)));
                        },
                        _ => {
                            assert(false);
                        },
                    }
                    match top@[1].1 {
                        Json::Obj(ff) => {
                            assert(views_of_fields(ff@, 0) =~= want_facets);
                        },
                        _ => {
                            assert(false);
                        },
                    }
                }
            },
            _ => {
                assert(false);
            },
        }
    }
    Json::Obj(top)
}

/// Format the full plan envelope: build the plan over the entire
/// deduplicated match set and wrap it with overflow metadata and an empty
/// results array.
pub fn format_plan_output(
    results: &Vec<SearchResult>,
    total_matched: usize,
    threshold: usize,
    files_searched: Option<usize>,
    query: &str,
    input: &str,
    pretty: bool,
) -> (r: String)
    ensures
        exists|p: Plan|
            good_plan(result_views(results@), query@, input@, p) && r@
                == crate::output::response_text(
                plan_envelope_obj(
                    PlanMeta {
                        total: total_matched,
                        returned: 0,
                        overflow: true,
                        threshold,
                        files_searched,
                    },
                    #[trigger] plan_json(p),
                    Seq::empty(),
                ),
                pretty,
            ),
{
    let plan = build_plan(results, query, input);
    let meta = PlanMeta {
        total: total_matched,
        returned: 0,
        overflow: true,
        threshold,
        files_searched,
    };
    let mj = plan_meta_to_json(&meta);
    let ghost plang = plan;
    let pj = plan_to_json(plan);
    let mut top: Vec<(String, Json)> = Vec::new();
    top.push((String::from_str("meta"), mj));
    top.push((String::from_str("plan"), pj));
    let empty_results: Vec<Json> = Vec::new();
    top.push((String::from_str("results"), Json::Arr(empty_results)));
    proof {
        lemma_views_of_fields(top@, 0);
        match plan_envelope_obj(meta, plan_json(plang), Seq::empty()) {
            JsonV::Obj(want) => {
                assert(views_of_fields(top@, 0) =~= want) by {
                    match top@[2].1 {
                        Json::Arr(items) => {
                            assert(views_of_list(items@, 0) =~= Seq::<JsonV>::empty());
                        },
                        _ => {
                            assert(false);
                        },
                    }
                }
            },
            _ => {
                assert(false);
            },
        }
    }
    let envelope = Json::Obj(top);
    if pretty {
        crate::render::render_pretty(&envelope)
    } else {
        crate::render::render_compact(&envelope)
    }
}

} // verus!
