use jsonai::extract::Record;
use jsonai::json::Json;
use jsonai::options::{MatchMode, OutputMode, SearchArgs};
use jsonai::output::truncate_to_budget;
use jsonai::results::{dedup_results, SearchResult};
use jsonai::search::{finish_search, is_overflow};

fn text(s: &str) -> Json {
    Json::Str(s.to_string())
}

fn obj(pairs: Vec<(&str, Json)>) -> Json {
    Json::Obj(pairs.into_iter().map(|(k, v)| (k.to_string(), v)).collect())
}

fn args() -> SearchArgs {
    SearchArgs {
        query: "q".to_string(),
        field: Vec::new(),
        all: false,
        match_mode: MatchMode::Text,
        output: OutputMode::Match,
        limit: 20,
        offset: 0,
        count_only: false,
        select: None,
        bare: false,
        max_bytes: None,
        threshold: 50,
        plan: false,
        no_overflow: false,
        schema: None,
        input: "input.json".to_string(),
    }
}

fn sixty_matches() -> Vec<SearchResult> {
    let mut results = Vec::new();
    for i in 0..60 {
        results.push(SearchResult {
            record: Record {
                pointer: format!("/r{:02}", i),
                file: "f.json".to_string(),
                value: obj(vec![("msg", text("target"))]),
            },
            score: "1.0".to_string(),
        });
    }
    results
}

#[test]
fn sixty_matches_over_threshold_give_a_plan() {
    // 60 matches, threshold 50, no plan/no-overflow flags: plan response with
    // overflow metadata.
    let out = finish_search(sixty_matches(), &args(), 1, false);
    assert!(out.has_matches);
    let v: serde_json::Value = serde_json::from_str(&out.output).unwrap();
    assert_eq!(v["meta"]["overflow"], serde_json::Value::Bool(true));
    assert_eq!(v["meta"]["total"], serde_json::Value::from(60));
    assert_eq!(v["meta"]["returned"], serde_json::Value::from(0));
    assert!(v["results"].as_array().unwrap().is_empty());
    assert!(v.get("plan").is_some());
}

#[test]
fn bypass_overflow_returns_a_truncated_page() {
    // the same 60 matches with bypass-overflow and limit 10: a match response
    // with ten results, marked truncated.
    let mut a = args();
    a.no_overflow = true;
    a.limit = 10;
    let out = finish_search(sixty_matches(), &a, 1, false);
    assert!(out.has_matches);
    let v: serde_json::Value = serde_json::from_str(&out.output).unwrap();
    assert_eq!(v["meta"]["returned"], serde_json::Value::from(10));
    assert_eq!(v["meta"]["total"], serde_json::Value::from(60));
    assert_eq!(v["meta"]["truncated"], serde_json::Value::Bool(true));
    assert!(v.get("plan").is_none());
    assert!(v.get("meta").unwrap().get("overflow").is_none());
    assert_eq!(v["results"].as_array().unwrap().len(), 10);
}

#[test]
fn threshold_boundary_picks_the_branch() {
    // total == threshold: results; total == threshold + 1 (no bypass): plan.
    assert!(!is_overflow(false, false, 50, 50));
    assert!(is_overflow(false, false, 51, 50));
    // forced plan wins regardless
    assert!(is_overflow(true, true, 0, 50));
    // bypass wins over the threshold
    assert!(!is_overflow(false, true, 51, 50));
}

#[test]
fn threshold_boundary_through_the_pipeline() {
    let mut a = args();
    a.threshold = 60;
    let out = finish_search(sixty_matches(), &a, 1, false);
    let v: serde_json::Value = serde_json::from_str(&out.output).unwrap();
    // exactly at the threshold: a results response
    assert!(v.get("plan").is_none());
    a.threshold = 59;
    let out2 = finish_search(sixty_matches(), &a, 1, false);
    let v2: serde_json::Value = serde_json::from_str(&out2.output).unwrap();
    assert!(v2.get("plan").is_some());
}

#[test]
fn byte_budget_respected_and_monotone() {
    // each item serialises as {"msg":"target"} (16 bytes) and costs 18
    let items: Vec<Json> = (0..5).map(|_| obj(vec![("msg", text("target"))])).collect();
    let (kept1, cut1) = truncate_to_budget(&items, Some(200 + 18 * 2));
    assert_eq!(kept1.len(), 2);
    assert!(cut1);
    // raising the budget only adds items
    let (kept2, cut2) = truncate_to_budget(&items, Some(200 + 18 * 4));
    assert_eq!(kept2.len(), 4);
    assert!(cut2);
    let (kept3, cut3) = truncate_to_budget(&items, None);
    assert_eq!(kept3.len(), 5);
    assert!(!cut3);
    // a lone oversized first item is still let through
    let (kept4, cut4) = truncate_to_budget(&items, Some(10));
    assert_eq!(kept4.len(), 1);
    assert!(cut4);
}

#[test]
fn count_only_and_bare_shapes() {
    let mut a = args();
    a.no_overflow = true;
    a.count_only = true;
    a.bare = true;
    let out = finish_search(sixty_matches(), &a, 1, false);
    assert_eq!(out.output, "60");

    let mut a2 = args();
    a2.no_overflow = true;
    a2.count_only = true;
    let out2 = finish_search(sixty_matches(), &a2, 1, false);
    let v: serde_json::Value = serde_json::from_str(&out2.output).unwrap();
    assert_eq!(v["meta"]["returned"], serde_json::Value::from(0));
    assert!(v.get("results").is_none());
}

#[test]
fn offset_skips_results() {
    let mut a = args();
    a.no_overflow = true;
    a.offset = 58;
    a.output = OutputMode::Hit;
    let out = finish_search(sixty_matches(), &a, 1, false);
    let v: serde_json::Value = serde_json::from_str(&out.output).unwrap();
    let hits = v["hits"].as_array().unwrap();
    assert_eq!(hits.len(), 2);
    assert_eq!(hits[0]["pointer"], serde_json::Value::from("/r58"));
}

#[test]
fn dedup_removes_ancestors_and_is_idempotent() {
    let mk = |ptr: &str, file: &str| SearchResult {
        record: Record {
            pointer: ptr.to_string(),
            file: file.to_string(),
            value: obj(vec![]),
        },
        score: "1.0".to_string(),
    };
    let mut results = vec![
        mk("/", "a.json"),
        mk("/x", "a.json"),
        mk("/x/y", "a.json"),
        mk("/z", "a.json"),
        mk("/x", "b.json"),
    ];
    dedup_results(&mut results);
    let pointers: Vec<(String, String)> = results
        .iter()
        .map(|r| (r.record.file.clone(), r.record.pointer.clone()))
        .collect();
    // the innermost match per chain stays; siblings and other files stay
    assert_eq!(
        pointers,
        vec![
            ("a.json".to_string(), "/x/y".to_string()),
            ("a.json".to_string(), "/z".to_string()),
            ("b.json".to_string(), "/x".to_string()),
        ]
    );
    // idempotent: a second run changes nothing
    let before: Vec<(String, String)> = pointers.clone();
    dedup_results(&mut results);
    let after: Vec<(String, String)> = results
        .iter()
        .map(|r| (r.record.file.clone(), r.record.pointer.clone()))
        .collect();
    assert_eq!(before, after);
}
