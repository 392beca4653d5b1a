//! Scored search results and the ancestor deduplicator.
//!
//! When both an object and one of its descendants match, only the most
//! specific (innermost) match is kept: a result is dropped exactly when the
//! result set holds another result in the same file whose pointer strictly
//! extends its own.

use vstd::prelude::*;

use crate::extract::{Record, RecordV};
use crate::json::json_clone;
use crate::text::str_chars;

verus! {

/// A search result: a record together with the engine's relevance score,
/// carried as numeric text.
#[derive(Debug)]
pub struct SearchResult {
    pub record: Record,
    pub score: String,
}

/// The mathematical form of a search result.
pub struct SearchResultV {
    pub record: RecordV,
    pub score: Seq<char>,
}

impl View for SearchResult {
    type V = SearchResultV;

    open spec fn view(&self) -> SearchResultV {
        SearchResultV { record: self.record@, score: self.score@ }
    }
}

/// The views of a list of search results.
pub open spec fn result_views(rs: Seq<SearchResult>) -> Seq<SearchResultV> {
    rs.map_values(|r: SearchResult| r@)
}

/// `a`'s pointer is a strict prefix of `b`'s pointer within the same file:
/// `a` is a proper ancestor of `b`.
pub open spec fn proper_ancestor(a: SearchResultV, b: SearchResultV) -> bool {
    a.record.file == b.record.file && a.record.pointer.len() < b.record.pointer.len()
        && b.record.pointer.take(a.record.pointer.len() as int) == a.record.pointer
}

/// `r` has no proper descendant anywhere in `all`.
pub open spec fn kept(all: Seq<SearchResultV>, r: SearchResultV) -> bool {
    !(exists|j: int| 0 <= j < all.len() && proper_ancestor(r, all[j]))
}

/// The results from position `k` on that have no proper descendant in `all`.
pub open spec fn dedup_spec(all: Seq<SearchResultV>, k: int) -> Seq<SearchResultV>
    decreases all.len() - k,
{
    if k < 0 || k >= all.len() {
        Seq::empty()
    } else {
        (if kept(all, all[k]) {
            seq![all[k]]
        } else {
            Seq::empty()
        }) + dedup_spec(all, k + 1)
    }
}

/// A deep copy of a record.
pub fn record_clone(r: &Record) -> (out: Record)
    ensures
        out@ == r@,
{
    Record { pointer: r.pointer.clone(), file: r.file.clone(), value: json_clone(&r.value) }
}

/// A deep copy of a search result.
pub fn result_clone(r: &SearchResult) -> (out: SearchResult)
    ensures
        out@ == r@,
{
    SearchResult { record: record_clone(&r.record), score: r.score.clone() }
}

/// Is `a` a proper ancestor of `b` (same file, strictly shorter pointer that
/// prefixes `b`'s)?
#[verifier::loop_isolation(false)]
pub fn proper_ancestor_exec(a: &SearchResult, b: &SearchResult) -> (r: bool)
    ensures
        r == proper_ancestor(a@, b@),
{
    if !(a.record.file == b.record.file) {
        return false;
    }
    let pa = str_chars(a.record.pointer.as_str());
    let pb = str_chars(b.record.pointer.as_str());
    if pa.len() >= pb.len() {
        return false;
    }
    let mut i: usize = 0;
    while i < pa.len()
        invariant
            i <= pa.len(),
            forall|j: int| 0 <= j < i ==> pb@[j] == pa@[j],
        decreases pa.len() - i,
    {
        if pb[i] != pa[i] {
            proof {
                assert(pb@.take(pa@.len() as int)[i as int] != pa@[i as int]);
            }
            return false;
        }
        i = i + 1;
    }
    proof {
        assert(pb@.take(pa@.len() as int) =~= pa@);
    }
    true
}

/// Does any result in `results` have `results[i]` as a proper ancestor?
#[verifier::loop_isolation(false)]
fn has_descendant(results: &Vec<SearchResult>, i: usize) -> (r: bool)
    requires
        i < results@.len(),
    ensures
        r == !kept(result_views(results@), result_views(results@)[i as int]),
{
    let ghost all = result_views(results@);
    let mut j: usize = 0;
    while j < results.len()
        invariant
            j <= results.len(),
            forall|m: int| 0 <= m < j ==> !proper_ancestor(all[i as int], all[m]),
        decreases results.len() - j,
    {
        if proper_ancestor_exec(&results[i], &results[j]) {
            proof {
                assert(proper_ancestor(all[i as int], all[j as int]));
            }
            return true;
        }
        j = j + 1;
    }
    false
}

/// Deduplicate results: if a descendant of a record matched too, remove the
/// ancestor and keep only the most specific match.
#[verifier::loop_isolation(false)]
pub fn dedup_results(results: &mut Vec<SearchResult>)
    ensures
        result_views(final(results)@) == dedup_spec(result_views(old(results)@), 0),
{
    let ghost all = result_views(old(results)@);
    let mut out: Vec<SearchResult> = Vec::new();
    let mut i: usize = 0;
    proof {
        assert(result_views(out@) =~= Seq::<SearchResultV>::empty());
    }
    while i < results.len()
        invariant
            i <= results.len(),
            results@ == old(results)@,
            all == result_views(results@),
            result_views(out@) + dedup_spec(all, i as int) =~= dedup_spec(all, 0),
        decreases results.len() - i,
    {
        let ghost outv = result_views(out@);
        if !has_descendant(results, i) {
            out.push(result_clone(&results[i]));
            proof {
                assert(result_views(out@) =~= outv.push(all[i as int]));
            }
        }
        i = i + 1;
    }
    *results = out;
    proof {
        assert(dedup_spec(all, all.len() as int) =~= Seq::<SearchResultV>::empty());
        assert(result_views(final(results)@) =~= dedup_spec(all, 0));
    }
}

/// Every deduplicated result is one of the originals and has no proper
/// descendant among the originals.
pub proof fn lemma_dedup_elements(all: Seq<SearchResultV>, k: int)
    requires
        0 <= k <= all.len(),
    ensures
        forall|j: int|
            0 <= j < dedup_spec(all, k).len() ==> kept(all, dedup_spec(all, k)[j]) && (exists|i: int|
                k <= i < all.len() && all[i] == dedup_spec(all, k)[j]),
    decreases all.len() - k,
{
    if k < all.len() {
        lemma_dedup_elements(all, k + 1);
        let d = dedup_spec(all, k);
        assert forall|j: int|
            0 <= j < d.len() implies kept(all, d[j]) && (exists|i: int|
            k <= i < all.len() && all[i] == d[j]) by {
            if kept(all, all[k]) {
                if j == 0 {
                    assert(d[0] == all[k]);
                } else {
                    assert(d[j] == dedup_spec(all, k + 1)[j - 1]);
                }
            } else {
                assert(d[j] == dedup_spec(all, k + 1)[j]);
            }
        }
    }
}

/// A result set each of whose members is kept deduplicates to itself.
proof fn lemma_dedup_of_kept(s: Seq<SearchResultV>, k: int)
    requires
        0 <= k <= s.len(),
        forall|i: int| 0 <= i < s.len() ==> kept(s, s[i]),
    ensures
        dedup_spec(s, k) == s.skip(k),
    decreases s.len() - k,
{
    if k == s.len() {
        assert(dedup_spec(s, k) =~= s.skip(k));
    } else {
        lemma_dedup_of_kept(s, k + 1);
        assert(dedup_spec(s, k) =~= s.skip(k)) by {
            assert(dedup_spec(s, k) == seq![s[k]] + dedup_spec(s, k + 1));
        }
    }
}

/// Deduplication is idempotent: running it on an already deduplicated set
/// changes nothing.
pub proof fn lemma_dedup_idempotent(all: Seq<SearchResultV>)
    ensures
        dedup_spec(dedup_spec(all, 0), 0) == dedup_spec(all, 0),
{
    let d = dedup_spec(all, 0);
    lemma_dedup_elements(all, 0);
    assert forall|i: int| 0 <= i < d.len() implies kept(d, d[i]) by {
        if exists|j: int| 0 <= j < d.len() && #[trigger] proper_ancestor(d[i], d[j]) {
            let j = choose|j: int| 0 <= j < d.len() && #[trigger] proper_ancestor(d[i], d[j]);
            let m = choose|m: int| 0 <= m < all.len() && #[trigger] all[m] == d[j];
            assert(proper_ancestor(d[i], all[m]));
            assert(!kept(all, d[i]));
            assert(false);
        }
    }
    lemma_dedup_of_kept(d, 0);
    assert(d.skip(0) =~= d);
}

/// Deduplication never removes a result that has no proper same-file
/// descendant in the set: every such result is still present afterwards.
pub proof fn lemma_dedup_keeps_unsubsumed(all: Seq<SearchResultV>, i: int)
    requires
        0 <= i < all.len(),
        kept(all, all[i]),
    ensures
        dedup_spec(all, 0).contains(all[i]),
{
    lemma_dedup_contains_from(all, 0, i);
}

proof fn lemma_dedup_contains_from(all: Seq<SearchResultV>, k: int, i: int)
    requires
        0 <= k <= i < all.len(),
        kept(all, all[i]),
    ensures
        dedup_spec(all, k).contains(all[i]),
    decreases i - k,
{
    if k == i {
        assert(dedup_spec(all, k)[0] == all[i]);
    } else {
        lemma_dedup_contains_from(all, k + 1, i);
        let j = choose|j: int|
            0 <= j < dedup_spec(all, k + 1).len() && #[trigger] dedup_spec(all, k + 1)[j] == all[i];
        let d = dedup_spec(all, k);
        let head: Seq<SearchResultV> = if kept(all, all[k]) {
            seq![all[k]]
        } else {
            Seq::empty()
        };
        assert(d == head + dedup_spec(all, k + 1));
        assert(d[head.len() + j] == all[i]);
    }
}

} // verus!
