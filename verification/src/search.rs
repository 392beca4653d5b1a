//! The search pipeline: index the records, run the query, deduplicate, and
//! either materialise a result payload or fall back to a plan when the match
//! set overflows the threshold.

use vstd::prelude::*;

use crate::engine::{engine_docs, from_index, record_triples, Engine, SearchError};
use crate::extract::{record_views, Record};
use crate::options::SearchArgs;
use crate::output::{format_output, format_output_spec};
use crate::plan::{format_plan_output, good_plan, plan_envelope_obj, plan_json, Plan, PlanMeta};
use crate::pointer::string_views;
use crate::results::{dedup_results, dedup_spec, result_clone, result_views, SearchResult};
use vstd::multiset::Multiset;
use crate::text::{str_chars, string_from_chars};

verus! {

/// The overflow decision: a plan replaces the results when plan mode is
/// forced, or when overflow protection is on and the deduplicated total
/// exceeds the threshold.
pub open spec fn overflow_decision(
    plan_forced: bool,
    no_overflow: bool,
    total: int,
    threshold: int,
) -> bool {
    plan_forced || (!no_overflow && total > threshold)
}

/// Decides the branch of one response.
pub fn is_overflow(plan_forced: bool, no_overflow: bool, total: usize, threshold: usize) -> (r:
    bool)
    ensures
        r == overflow_decision(plan_forced, no_overflow, total as int, threshold as int),
{
    plan_forced || (!no_overflow && total > threshold)
}

/// Threshold boundary: a total exactly at the threshold takes the RESULTS
/// branch; one more match (without bypass) takes the PLAN branch.
pub proof fn lemma_threshold_boundary(no_overflow: bool, threshold: int)
    ensures
        !overflow_decision(false, no_overflow, threshold, threshold),
        !no_overflow ==> overflow_decision(false, no_overflow, threshold + 1, threshold),
{
}

/// The engine window: while plan evaluation is possible the window reaches
/// past the page (at least twice the threshold) so facet statistics see a
/// representative sample; with overflow bypassed it is exactly the page.
pub open spec fn window_spec(
    plan_forced: bool,
    no_overflow: bool,
    limit: int,
    offset: int,
    threshold: int,
) -> int {
    if plan_forced || !no_overflow {
        if limit + offset >= 2 * threshold {
            limit + offset
        } else {
            2 * threshold
        }
    } else {
        limit + offset
    }
}

/// Computes the engine window for one invocation.
pub fn search_window(args: &SearchArgs) -> (w: usize)
    requires
        args.limit + args.offset <= usize::MAX,
        2 * args.threshold <= usize::MAX,
    ensures
        w as int == window_spec(
            args.plan,
            args.no_overflow,
            args.limit as int,
            args.offset as int,
            args.threshold as int,
        ),
{
    let page = args.limit + args.offset;
    if args.plan || !args.no_overflow {
        let doubled = args.threshold * 2;
        if page >= doubled {
            page
        } else {
            doubled
        }
    } else {
        page
    }
}

/// The result window: skip the first `offset` entries when `offset` is
/// positive and within range, then cut to `limit`.
pub open spec fn windowed(rs: Seq<crate::results::SearchResultV>, offset: int, limit: int) -> Seq<
    crate::results::SearchResultV,
> {
    let skipped = if 0 < offset < rs.len() {
        rs.skip(offset)
    } else {
        rs
    };
    if skipped.len() > limit {
        skipped.take(limit)
    } else {
        skipped
    }
}

/// The outcome of one search: the rendered response and whether the
/// invocation found matches (for the exit code).
#[derive(Debug)]
pub struct SearchOutcome {
    pub output: String,
    pub has_matches: bool,
}

/// What materialisation promises of its outcome, for the deduplicated match
/// set `rv`: the exit signal, and the response text of whichever branch the
/// overflow decision picked.
pub open spec fn finish_post(
    rv: Seq<crate::results::SearchResultV>,
    args: SearchArgs,
    files_searched: usize,
    pretty: bool,
    out: SearchOutcome,
) -> bool {
    let total = rv.len() as int;
    let over = overflow_decision(args.plan, args.no_overflow, total, args.threshold as int);
    &&& out.has_matches == (over || total > 0)
    &&& over ==> exists|p: Plan|
        good_plan(rv, args.query@, args.input@, p) && out.output@
            == crate::output::response_text(
            plan_envelope_obj(
                PlanMeta {
                    total: (total as usize),
                    returned: 0,
                    overflow: true,
                    threshold: args.threshold,
                    files_searched: Some(files_searched),
                },
                #[trigger] plan_json(p),
                Seq::empty(),
            ),
            pretty,
        )
    &&& !over ==> out.output@ == format_output_spec(
        windowed(rv, args.offset as int, args.limit as int),
        (total as usize),
        args.limit,
        args.output,
        args.bare,
        args.count_only,
        select_views(args.select),
        Some(files_searched),
        args.max_bytes,
        pretty,
    )
}

/// Materialise the response for a deduplicated match set: decide the
/// overflow branch once, then either build the plan over the entire set or
/// window the results and format the payload.
#[verifier::loop_isolation(false)]
pub fn finish_search(
    results: Vec<SearchResult>,
    args: &SearchArgs,
    files_searched: usize,
    pretty: bool,
) -> (out: SearchOutcome)
    ensures
        finish_post(result_views(results@), *args, files_searched, pretty, out),
{
    let ghost rv = result_views(results@);
    let total_matched = results.len();
    let overflow = is_overflow(args.plan, args.no_overflow, total_matched, args.threshold);
    if overflow {
        let output = format_plan_output(
            &results,
            total_matched,
            args.threshold,
            Some(files_searched),
            args.query.as_str(),
            args.input.as_str(),
            pretty,
        );
        return SearchOutcome { output, has_matches: true };
    }
    let mut windowed_results = results;
    if args.offset > 0 && args.offset < windowed_results.len() {
        let mut rest: Vec<SearchResult> = Vec::new();
        let mut i: usize = args.offset;
        while i < windowed_results.len()
            invariant
                args.offset <= i <= windowed_results@.len(),
                windowed_results@ == results@,
                result_views(rest@) =~= rv.skip(args.offset as int).take(
                    i - args.offset as int,
                ),
            decreases windowed_results.len() - i,
        {
            let ghost restv = result_views(rest@);
            rest.push(result_clone(&windowed_results[i]));
            proof {
                assert(result_views(rest@) =~= restv.push(rv[i as int]));
                assert(rv.skip(args.offset as int).take(i + 1 - args.offset as int) =~= rv.skip(
                    args.offset as int,
                ).take(i - args.offset as int).push(rv[i as int]));
            }
            i = i + 1;
        }
        proof {
            assert(rv.skip(args.offset as int).take(
                rv.len() - args.offset as int,
            ) =~= rv.skip(args.offset as int));
        }
        windowed_results = rest;
    }
    if windowed_results.len() > args.limit {
        windowed_results.truncate(args.limit);
        proof {
            assert(result_views(windowed_results@) =~= windowed(
                rv,
                args.offset as int,
                args.limit as int,
            ));
        }
    }
    proof {
        assert(result_views(windowed_results@) =~= windowed(
            rv,
            args.offset as int,
            args.limit as int,
        ));
    }
    let select_fields: Option<Vec<String>> = match &args.select {
        Some(s) => Some(parse_select(s.as_str())),
        None => None,
    };
    let output = format_output(
        &windowed_results,
        total_matched,
        args.limit,
        &args.output,
        args.bare,
        args.count_only,
        &select_fields,
        Some(files_searched),
        args.max_bytes,
        pretty,
    );
    SearchOutcome { output, has_matches: total_matched > 0 }
}

/// Run one search over already-extracted records: index them, query with a
/// window wide enough for plan evaluation, deduplicate ancestors, and
/// materialise the response. Fails with an empty-corpus error exactly when
/// there are no records.
pub fn run_search_on_records(
    records: &Vec<Record>,
    args: &SearchArgs,
    files_searched: usize,
    pretty: bool,
) -> (r: Result<SearchOutcome, SearchError>)
    requires
        args.limit + args.offset <= usize::MAX,
        2 * args.threshold <= usize::MAX,
        window_spec(
            args.plan,
            args.no_overflow,
            args.limit as int,
            args.offset as int,
            args.threshold as int,
        ) >= 1,
    ensures
        records@.len() == 0 <==> r == Err::<SearchOutcome, SearchError>(SearchError::EmptyCorpus),
        match r {
            Ok(out) => exists|hits: Seq<crate::results::SearchResultV>|
                #![trigger dedup_spec(hits, 0)]
                hits.len() <= window_spec(
                    args.plan,
                    args.no_overflow,
                    args.limit as int,
                    args.offset as int,
                    args.threshold as int,
                ) && (forall|i: int|
                    0 <= i < hits.len() ==> from_index(
                        record_triples(record_views(records@)).to_multiset(),
                        #[trigger] hits[i],
                    )) && finish_post(dedup_spec(hits, 0), *args, files_searched, pretty, out),
            Err(_) => true,
        },
{
    if records.len() == 0 {
        return Err(SearchError::EmptyCorpus);
    }
    let mut engine = match Engine::new() {
        Ok(e) => e,
        Err(_) => {
            return Err(SearchError::Engine);
        },
    };
    match engine.index_records(records) {
        Ok(_) => {},
        Err(_) => {
            return Err(SearchError::Engine);
        },
    }
    let window = search_window(args);
    let mut results = match engine.search(
        args.query.as_str(),
        &args.field,
        &args.match_mode,
        window,
        0,
    ) {
        Ok(rs) => rs,
        Err(e) => {
            return Err(
                match e {
                    SearchError::QueryCompile => SearchError::QueryCompile,
                    _ => SearchError::Engine,
                },
            );
        },
    };
    let ghost hits = result_views(results@);
    let ghost triples = record_triples(record_views(records@)).to_multiset();
    proof {
        assert(engine_docs(engine) =~= triples);
        assert forall|i: int|
            0 <= i < hits.len() implies from_index(triples, #[trigger] hits[i]) by {
            assert(from_index(engine_docs(engine), hits[i]));
        }
    }
    dedup_results(&mut results);
    let outcome = finish_search(results, args, files_searched, pretty);
    proof {
        assert(result_views(results@) == dedup_spec(hits, 0));
    }
    Ok(outcome)
}

/// The views of an optional selection string, split and trimmed.
pub open spec fn select_views(sel: Option<String>) -> Option<Seq<Seq<char>>> {
    match sel {
        Some(s) => Some(select_spec(s@)),
        None => None,
    }
}

/// The characters `str::trim` removes at either end (the common whitespace).
pub open spec fn is_space(c: char) -> bool {
    c == ' ' || c == '\t' || c == '\n' || c == '\r'
}

pub open spec fn trim_front(s: Seq<char>) -> Seq<char>
    decreases s.len(),
{
    if s.len() > 0 && is_space(s[0]) {
        trim_front(s.skip(1))
    } else {
        s
    }
}

pub open spec fn trim_back(s: Seq<char>) -> Seq<char>
    decreases s.len(),
{
    if s.len() > 0 && is_space(s.last()) {
        trim_back(s.drop_last())
    } else {
        s
    }
}

/// A field name as written in a selection: trimmed of surrounding spaces.
pub open spec fn trim_spec(s: Seq<char>) -> Seq<char> {
    trim_back(trim_front(s))
}

/// Index of the first comma, or `-1`.
pub open spec fn find_comma(s: Seq<char>) -> int
    decreases s.len(),
{
    if s.len() == 0 {
        -1
    } else if s[0] == ',' {
        0
    } else if find_comma(s.skip(1)) < 0 {
        -1
    } else {
        1 + find_comma(s.skip(1))
    }
}

proof fn lemma_find_comma(s: Seq<char>)
    ensures
        -1 <= find_comma(s) < s.len(),
        find_comma(s) >= 0 ==> s[find_comma(s)] == ',',
    decreases s.len(),
{
    if s.len() > 0 && s[0] != ',' {
        lemma_find_comma(s.skip(1));
    }
}

/// The comma-separated parts of a selection string.
pub open spec fn split_comma(s: Seq<char>) -> Seq<Seq<char>>
    decreases s.len(),
    via split_comma_decreases
{
    let k = find_comma(s);
    if k < 0 {
        seq![s]
    } else {
        seq![s.take(k)] + split_comma(s.skip(k + 1))
    }
}

#[via_fn]
proof fn split_comma_decreases(s: Seq<char>) {
    lemma_find_comma(s);
}

/// How a selection string is read: split on commas, trim each part.
pub open spec fn select_spec(s: Seq<char>) -> Seq<Seq<char>> {
    split_comma(s).map_values(|t: Seq<char>| trim_spec(t))
}

proof fn lemma_split_comma_no(u: Seq<char>)
    requires
        forall|j: int| 0 <= j < u.len() ==> u[j] != ',',
    ensures
        split_comma(u) == seq![u],
{
    lemma_find_comma(u);
    if find_comma(u) >= 0 {
        assert(u[find_comma(u)] == ',');
    }
}

proof fn lemma_split_comma_concat(u: Seq<char>, v: Seq<char>)
    requires
        forall|j: int| 0 <= j < u.len() ==> u[j] != ',',
    ensures
        split_comma(u + seq![','] + v) == seq![u] + split_comma(v),
{
    let w = u + seq![','] + v;
    lemma_find_comma(w);
    assert(w[u.len() as int] == ',');
    let k = find_comma(w);
    assert(k >= 0) by {
        lemma_find_comma_finds(w, u.len() as int);
    }
    assert(0 <= k < w.len());
    assert(w[k] == ',');
    if k < u.len() {
        assert(w[k] == u[k]);
        assert(false);
    }
    if k > u.len() {
        lemma_find_comma_finds(w, u.len() as int);
        assert(false);
    }
    assert(w.take(k) =~= u);
    assert(w.skip(k + 1) =~= v);
    assert(split_comma(w) =~= seq![u] + split_comma(v));
}

proof fn lemma_find_comma_finds(s: Seq<char>, j: int)
    requires
        0 <= j < s.len(),
        s[j] == ',',
    ensures
        0 <= find_comma(s) <= j,
    decreases s.len(),
{
    if s[0] != ',' {
        lemma_find_comma_finds(s.skip(1), j - 1);
    }
}

/// Trims the common whitespace at either end.
#[verifier::loop_isolation(false)]
fn trim_chars(s: &Vec<char>) -> (r: Vec<char>)
    ensures
        r@ == trim_spec(s@),
{
    let mut lo: usize = 0;
    proof {
        assert(s@.skip(0) =~= s@);
    }
    while lo < s.len() && (s[lo] == ' ' || s[lo] == '\t' || s[lo] == '\n' || s[lo] == '\r')
        invariant
            lo <= s@.len(),
            trim_front(s@) == trim_front(s@.skip(lo as int)),
        decreases s.len() - lo,
    {
        proof {
            assert(s@.skip(lo as int)[0] == s@[lo as int]);
            assert(s@.skip(lo as int).skip(1) =~= s@.skip(lo + 1 as int));
        }
        lo = lo + 1;
    }
    proof {
        if lo < s@.len() {
            assert(trim_front(s@) =~= s@.skip(lo as int));
        } else {
            assert(s@.skip(lo as int).len() == 0);
            assert(trim_front(s@) =~= s@.skip(lo as int));
        }
    }
    let ghost tf = trim_front(s@);
    let mut hi: usize = s.len();
    while hi > lo && (s[hi - 1] == ' ' || s[hi - 1] == '\t' || s[hi - 1] == '\n' || s[hi - 1]
        == '\r')
        invariant
            lo <= hi <= s@.len(),
            trim_back(tf) == trim_back(s@.subrange(lo as int, hi as int)),
        decreases hi,
    {
        proof {
            let cur = s@.subrange(lo as int, hi as int);
            assert(cur.last() == s@[hi - 1]);
            assert(cur.drop_last() =~= s@.subrange(lo as int, hi - 1 as int));
        }
        hi = hi - 1;
    }
    proof {
        let cur = s@.subrange(lo as int, hi as int);
        if hi > lo {
            assert(trim_back(cur) =~= cur);
        } else {
            assert(cur.len() == 0);
            assert(trim_back(cur) =~= cur);
        }
    }
    let mut out: Vec<char> = Vec::new();
    let mut i: usize = lo;
    while i < hi
        invariant
            lo <= i <= hi,
            hi <= s@.len(),
            out@ =~= s@.subrange(lo as int, i as int),
        decreases hi - i,
    {
        out.push(s[i]);
        proof {
            assert(s@.subrange(lo as int, i + 1 as int) =~= s@.subrange(lo as int, i as int).push(
                s@[i as int],
            ));
        }
        i = i + 1;
    }
    proof {
        assert(out@ =~= trim_spec(s@));
    }
    out
}

/// Reads a selection string: comma-separated field names, each trimmed.
#[verifier::loop_isolation(false)]
pub fn parse_select(sel: &str) -> (r: Vec<String>)
    ensures
        string_views(r@) == select_spec(sel@),
{
    let cs = str_chars(sel);
    let mut parts: Vec<Vec<char>> = Vec::new();
    let mut cur: Vec<char> = Vec::new();
    let mut i: usize = 0;
    proof {
        assert(cur@ + cs@.skip(0) =~= cs@);
        assert(crate::pointer::views_of(parts@) =~= Seq::<Seq<char>>::empty());
    }
    while i < cs.len()
        invariant
            i <= cs.len(),
            cs@ == sel@,
            forall|j: int| 0 <= j < cur@.len() ==> cur@[j] != ',',
            split_comma(sel@) == crate::pointer::views_of(parts@) + split_comma(
                cur@ + cs@.skip(i as int),
            ),
        decreases cs.len() - i,
    {
        let c = cs[i];
        proof {
            assert(cs@.skip(i as int)[0] == cs@[i as int]);
        }
        if c == ',' {
            proof {
                assert(cur@ + cs@.skip(i as int) =~= cur@ + seq![','] + cs@.skip(i + 1 as int));
                lemma_split_comma_concat(cur@, cs@.skip(i + 1 as int));
                crate::pointer::lemma_views_push(parts@, cur);
            }
            let ghost curv = cur@;
            parts.push(cur);
            cur = Vec::new();
            proof {
                assert(crate::pointer::views_of(parts@) + split_comma(
                    cur@ + cs@.skip(i + 1 as int),
                ) =~= (crate::pointer::views_of(parts@.drop_last()) + seq![curv]) + split_comma(
                    cs@.skip(i + 1 as int),
                )) by {
                    assert(parts@.drop_last() =~= parts@.subrange(0, parts@.len() - 1));
                    assert(cur@ + cs@.skip(i + 1 as int) =~= cs@.skip(i + 1 as int));
                    assert(crate::pointer::views_of(parts@) =~= crate::pointer::views_of(
                        parts@.drop_last(),
                    ).push(curv)) by {
                        assert(parts@.drop_last().push(parts@.last()) =~= parts@);
                        crate::pointer::lemma_views_push(parts@.drop_last(), parts@.last());
                    }
                }
            }
        } else {
            let ghost curv = cur@;
            cur.push(c);
            proof {
                assert(cur@ + cs@.skip(i + 1 as int) =~= curv + cs@.skip(i as int));
            }
        }
        i = i + 1;
    }
    proof {
        assert(cur@ + cs@.skip(cs@.len() as int) =~= cur@);
        lemma_split_comma_no(cur@);
        crate::pointer::lemma_views_push(parts@, cur);
    }
    parts.push(cur);
    proof {
        assert(parts@.drop_last().push(parts@.last()) =~= parts@);
        assert(crate::pointer::views_of(parts@) =~= split_comma(sel@)) by {
            assert(parts@.drop_last() =~= parts@.subrange(0, parts@.len() - 1));
            crate::pointer::lemma_views_push(parts@.drop_last(), parts@.last());
            assert(crate::pointer::views_of(parts@.drop_last()) + seq![parts@.last()@]
                =~= crate::pointer::views_of(parts@.drop_last()).push(parts@.last()@));
        }
    }
    let mut out: Vec<String> = Vec::new();
    let mut k: usize = 0;
    while k < parts.len()
        invariant
            k <= parts@.len(),
            crate::pointer::views_of(parts@) == split_comma(sel@),
            string_views(out@) =~= select_spec(sel@).take(k as int),
        decreases parts.len() - k,
    {
        let t = trim_chars(&parts[k]);
        let ghost outv = string_views(out@);
        out.push(string_from_chars(&t));
        proof {
            assert(string_views(out@) =~= outv.push(trim_spec(parts@[k as int]@)));
            assert(select_spec(sel@)[k as int] == trim_spec(split_comma(sel@)[k as int]));
            assert(split_comma(sel@)[k as int] == parts@[k as int]@);
            assert(select_spec(sel@).take(k + 1 as int) =~= select_spec(sel@).take(
                k as int,
            ).push(select_spec(sel@)[k as int]));
        }
        k = k + 1;
    }
    proof {
        assert(select_spec(sel@).take(select_spec(sel@).len() as int) =~= select_spec(sel@));
    }
    out
}

} // verus!
