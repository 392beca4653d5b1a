use jsonai::extract::Record;
use jsonai::json::Json;
use jsonai::plan::build_plan;
use jsonai::results::SearchResult;

fn text(s: &str) -> Json {
    Json::Str(s.to_string())
}

fn num(n: &str) -> Json {
    Json::Num(n.to_string())
}

fn obj(pairs: Vec<(&str, Json)>) -> Json {
    Json::Obj(pairs.into_iter().map(|(k, v)| (k.to_string(), v)).collect())
}

fn result_of(value: Json) -> SearchResult {
    SearchResult {
        record: Record {
            pointer: "".to_string(),
            file: "f.json".to_string(),
            value,
        },
        score: "1.0".to_string(),
    }
}

#[test]
fn plan_field_path_escapes_pointer_segment() {
    let results = vec![result_of(obj(vec![
        ("src/lib", num("1")),
        ("config~backup", num("2")),
    ]))];

    let plan = build_plan(&results, "q", "input.json");
    let mut paths: Vec<String> = plan.fields.into_iter().map(|f| f.path).collect();
    paths.sort();

    assert!(paths.contains(&"/src~1lib".to_string()));
    assert!(paths.contains(&"/config~0backup".to_string()));
}

#[test]
fn facets_count_order_and_cap() {
    // color: red x3, blue x3, green x1; size: 1..7 (7 distinct values)
    let mut results = Vec::new();
    for (i, color) in ["red", "red", "red", "blue", "blue", "blue", "green"]
        .iter()
        .enumerate()
    {
        results.push(result_of(obj(vec![
            ("color", text(color)),
            ("size", num(&i.to_string())),
        ])));
    }
    let plan = build_plan(&results, "q", "input.json");

    // fields sorted by distinct-value count ascending: color (3) before size (7)
    let names: Vec<String> = plan.fields.iter().map(|f| f.name.clone()).collect();
    assert_eq!(names, vec!["color".to_string(), "size".to_string()]);
    assert_eq!(plan.fields[0].distinct, 3);
    assert_eq!(plan.fields[1].distinct, 7);

    // facet entries: counts exact, count desc then value asc, at most five
    let color_facet = plan
        .facets
        .iter()
        .find(|(k, _)| k == "color")
        .map(|(_, v)| v.clone())
        .unwrap();
    assert_eq!(
        color_facet,
        vec![
            ("blue".to_string(), 3),
            ("red".to_string(), 3),
            ("green".to_string(), 1),
        ]
    );
    let size_facet = plan
        .facets
        .iter()
        .find(|(k, _)| k == "size")
        .map(|(_, v)| v.clone())
        .unwrap();
    assert_eq!(size_facet.len(), 5);
    for (_, c) in &size_facet {
        assert_eq!(*c, 1);
    }

    // one follow-up command per faceted field
    assert_eq!(plan.commands.len(), plan.facets.len());
    assert!(plan.commands[0].starts_with("jsonai search -q \"q\" --field "));
}

#[test]
fn facet_values_normalise_scalars_and_containers() {
    let results = vec![
        result_of(obj(vec![("v", Json::Bool(true))])),
        result_of(obj(vec![("v", Json::Null)])),
        result_of(obj(vec![("v", Json::Arr(vec![num("1")]))])),
    ];
    let plan = build_plan(&results, "x", "in.json");
    let v_facet = plan
        .facets
        .iter()
        .find(|(k, _)| k == "v")
        .map(|(_, v)| v.clone())
        .unwrap();
    let values: Vec<String> = v_facet.iter().map(|(v, _)| v.clone()).collect();
    assert!(values.contains(&"true".to_string()));
    assert!(values.contains(&"null".to_string()));
    assert!(values.contains(&"[1]".to_string()));
}

#[test]
fn high_cardinality_fields_get_no_facet() {
    let mut results = Vec::new();
    for i in 0..25 {
        results.push(result_of(obj(vec![("id", num(&i.to_string()))])));
    }
    let plan = build_plan(&results, "q", "in.json");
    assert_eq!(plan.fields.len(), 1);
    assert_eq!(plan.fields[0].distinct, 25);
    assert!(plan.facets.iter().all(|(k, _)| k != "id"));
    assert!(plan.commands.is_empty());
}

#[test]
fn command_quotes_the_query() {
    let results = vec![result_of(obj(vec![("k", text("v"))]))];
    let plan = build_plan(&results, "say \"hi\"\n", "in.json");
    assert_eq!(
        plan.commands[0],
        "jsonai search -q \"say \\\"hi\\\"\\n\" --field k in.json"
    );
}
