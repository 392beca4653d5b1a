use jsonai::engine::{lowercase, Engine, SearchError};
use jsonai::extract::extract_records;
use jsonai::json::{json_eq, Json};
use jsonai::options::{MatchMode, OutputMode, SearchArgs};
use jsonai::render::{parse_json, render_compact, value_to_facet_string};
use jsonai::results::dedup_results;
use jsonai::search::run_search_on_records;

fn args(query: &str) -> SearchArgs {
    SearchArgs {
        query: query.to_string(),
        field: Vec::new(),
        all: true,
        match_mode: MatchMode::Text,
        output: OutputMode::Match,
        limit: 20,
        offset: 0,
        count_only: false,
        select: None,
        bare: false,
        max_bytes: None,
        threshold: 50,
        plan: false,
        no_overflow: false,
        schema: None,
        input: "input.json".to_string(),
    }
}

#[test]
fn text_query_matches_innermost_object() {
    // input {"a":{"x":1},"b":{"x":2}}, text query "1" over all fields:
    // exactly one match, at pointer /a.
    let doc = parse_json("{\"a\":{\"x\":1},\"b\":{\"x\":2}}");
    let records = extract_records(&doc, "test.json");
    assert_eq!(records.len(), 3);

    let mut engine = Engine::new().unwrap();
    engine.index_records(&records).unwrap();
    let mut results = engine
        .search("1", &Vec::new(), &MatchMode::Text, 10, 0)
        .unwrap();
    dedup_results(&mut results);

    assert_eq!(results.len(), 1);
    assert_eq!(results[0].record.pointer, "/a");
    assert_eq!(results[0].record.file, "test.json");
}

#[test]
fn full_pipeline_finds_matches() {
    let doc = parse_json("{\"a\":{\"x\":1},\"b\":{\"x\":2}}");
    let records = extract_records(&doc, "test.json");
    let out = run_search_on_records(&records, &args("1"), 1, false).unwrap();
    assert!(out.has_matches);
    let v: serde_json::Value = serde_json::from_str(&out.output).unwrap();
    assert_eq!(v["meta"]["total"], serde_json::Value::from(1));
    let results = v["results"].as_array().unwrap();
    assert_eq!(results.len(), 1);
    assert_eq!(results[0]["x"], serde_json::Value::from(1));
}

#[test]
fn no_matches_reports_zero() {
    let doc = parse_json("{\"a\":{\"x\":1}}");
    let records = extract_records(&doc, "test.json");
    let out = run_search_on_records(&records, &args("absent"), 1, false).unwrap();
    assert!(!out.has_matches);
    let v: serde_json::Value = serde_json::from_str(&out.output).unwrap();
    assert_eq!(v["meta"]["total"], serde_json::Value::from(0));
}

#[test]
fn empty_corpus_is_an_error() {
    let records = Vec::new();
    let err = run_search_on_records(&records, &args("x"), 0, false).unwrap_err();
    assert!(matches!(err, SearchError::EmptyCorpus));
}

#[test]
fn bad_regex_is_a_compile_error() {
    let doc = parse_json("{\"a\":{\"x\":\"hello\"}}");
    let records = extract_records(&doc, "test.json");
    let mut a = args("([");
    a.match_mode = MatchMode::Regex;
    let err = run_search_on_records(&records, &a, 1, false).unwrap_err();
    assert!(matches!(err, SearchError::QueryCompile));
}

#[test]
fn fuzzy_matches_near_misses() {
    let doc = parse_json("{\"a\":{\"x\":\"hello\"}}");
    let records = extract_records(&doc, "test.json");
    let mut a = args("helo");
    a.match_mode = MatchMode::Fuzzy;
    let out = run_search_on_records(&records, &a, 1, false).unwrap();
    assert!(out.has_matches);
}

#[test]
fn field_restriction_narrows_text_search() {
    let doc = parse_json("{\"a\":{\"name\":\"alpha\",\"note\":\"beta\"},\"b\":{\"name\":\"beta\"}}");
    let records = extract_records(&doc, "test.json");
    let mut a = args("beta");
    a.field = vec!["name".to_string()];
    let out = run_search_on_records(&records, &a, 1, false).unwrap();
    let v: serde_json::Value = serde_json::from_str(&out.output).unwrap();
    let results = v["results"].as_array().unwrap();
    assert_eq!(results.len(), 1);
    assert_eq!(results[0]["name"], serde_json::Value::from("beta"));
}

#[test]
fn lowercase_folds_the_query() {
    assert_eq!(lowercase("HeLLo"), "hello");
    assert_eq!(lowercase(""), "");
}

#[test]
fn rendering_round_trips_values() {
    let doc = parse_json("{\"k\":[1,true,null,\"s\"]}");
    let text = render_compact(&doc);
    assert_eq!(text, "{\"k\":[1,true,null,\"s\"]}");
    let back = parse_json(&text);
    assert!(json_eq(&doc, &back));
}

#[test]
fn facet_text_normalises_each_shape() {
    assert_eq!(value_to_facet_string(&Json::Str("v".to_string())), "v");
    assert_eq!(value_to_facet_string(&Json::Num("1.5".to_string())), "1.5");
    assert_eq!(value_to_facet_string(&Json::Bool(false)), "false");
    assert_eq!(value_to_facet_string(&Json::Null), "null");
}
