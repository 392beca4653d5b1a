use jsonai::edit::{apply_add, apply_delete, apply_set, resolve_parent_and_key, resolve_pointer};
use jsonai::extract::extract_records;
use jsonai::json::{json_eq, Json};

fn num(n: &str) -> Json {
    Json::Num(n.to_string())
}

fn text(s: &str) -> Json {
    Json::Str(s.to_string())
}

fn obj(pairs: Vec<(&str, Json)>) -> Json {
    Json::Obj(pairs.into_iter().map(|(k, v)| (k.to_string(), v)).collect())
}

fn sample() -> Json {
    obj(vec![
        ("foo", text("bar")),
        ("nested", obj(vec![("key", text("value"))])),
        ("array", Json::Arr(vec![num("1"), num("2"), num("3")])),
        ("src/lib", obj(vec![("hooks", text("test"))])),
        ("config~backup", Json::Bool(true)),
    ])
}

#[test]
fn test_resolve_pointer_mut() {
    let json = sample();

    // Test simple navigation
    assert!(json_eq(&resolve_pointer(&json, "/foo").unwrap(), &text("bar")));

    // Test nested navigation
    assert!(json_eq(&resolve_pointer(&json, "/nested/key").unwrap(), &text("value")));

    // Test array navigation
    assert!(json_eq(&resolve_pointer(&json, "/array/0").unwrap(), &num("1")));
    assert!(json_eq(&resolve_pointer(&json, "/array/2").unwrap(), &num("3")));

    // Test navigation with escaped slash
    assert!(json_eq(
        &resolve_pointer(&json, "/src~1lib").unwrap(),
        &obj(vec![("hooks", text("test"))])
    ));

    // Test navigation with escaped tilde
    assert!(json_eq(&resolve_pointer(&json, "/config~0backup").unwrap(), &Json::Bool(true)));

    // Test nested navigation with escapes
    assert!(json_eq(&resolve_pointer(&json, "/src~1lib/hooks").unwrap(), &text("test")));

    // Test error: key not found
    assert!(resolve_pointer(&json, "/nonexistent").is_err());
    assert!(resolve_pointer(&json, "/nested/nonexistent").is_err());

    // Test error: array out of bounds
    assert!(resolve_pointer(&json, "/array/10").is_err());

    // Test error: navigating into primitive
    assert!(resolve_pointer(&json, "/foo/bar").is_err());
}

#[test]
fn test_resolve_parent_and_key() {
    let json = sample();

    // Test simple pointer
    {
        let (parent, key) = resolve_parent_and_key(&json, "/foo").unwrap();
        match &parent {
            Json::Obj(map) => {
                assert!(map.iter().any(|(k, _)| k == "foo"));
            }
            _ => panic!("Parent should be an object"),
        }
        assert_eq!(key, "foo");
    }

    // Test nested pointer
    {
        let (parent, key) = resolve_parent_and_key(&json, "/nested/key").unwrap();
        assert!(json_eq(&parent, &obj(vec![("key", text("value"))])));
        assert_eq!(key, "key");
    }

    // Test pointer with escaped slash
    {
        let (parent, key) = resolve_parent_and_key(&json, "/src~1lib/hooks").unwrap();
        assert!(json_eq(&parent, &obj(vec![("hooks", text("test"))])));
        assert_eq!(key, "hooks");
    }

    // Test pointer with escaped tilde
    {
        let (parent, key) = resolve_parent_and_key(&json, "/config~0backup").unwrap();
        match &parent {
            Json::Obj(map) => {
                assert!(map.iter().any(|(k, _)| k == "config~backup"));
            }
            _ => panic!("Parent should be an object"),
        }
        assert_eq!(key, "config~backup");
    }

    // Test pointer with mixed escapes
    {
        let (parent, key) = resolve_parent_and_key(&json, "/src~1lib").unwrap();
        match &parent {
            Json::Obj(map) => {
                assert!(map.iter().any(|(k, _)| k == "src/lib"));
            }
            _ => panic!("Parent should be an object"),
        }
        assert_eq!(key, "src/lib");
    }

    // Test array pointer
    {
        let (parent, key) = resolve_parent_and_key(&json, "/array/1").unwrap();
        match &parent {
            Json::Arr(arr) => {
                assert_eq!(arr.len(), 3);
                assert!(json_eq(&arr[1], &num("2")));
            }
            _ => panic!("Parent should be an array"),
        }
        assert_eq!(key, "1");
    }

    // Test error: root pointer
    assert!(resolve_parent_and_key(&json, "").is_err());
}

#[test]
fn set_replaces_existing_values_only() {
    let json = obj(vec![("src/lib", obj(vec![("hooks", text("old"))]))]);
    let out = apply_set(&json, "/src~1lib/hooks", text("new")).unwrap();
    assert!(json_eq(&out, &obj(vec![("src/lib", obj(vec![("hooks", text("new"))]))])));

    // a missing key cannot be set
    assert!(apply_set(&json, "/missing", text("x")).is_err());

    // the empty pointer replaces the whole document
    let replaced = apply_set(&json, "", num("7")).unwrap();
    assert!(json_eq(&replaced, &num("7")));
}

#[test]
fn add_creates_keys_appends_and_inserts() {
    let json = obj(vec![("src/lib", obj(vec![]))]);
    let out = apply_add(&json, "/src~1lib/hooks", text("test")).unwrap();
    assert!(json_eq(&out, &obj(vec![("src/lib", obj(vec![("hooks", text("test"))]))])));

    let empty = obj(vec![]);
    let out2 = apply_add(&empty, "/config~0backup", Json::Bool(true)).unwrap();
    assert!(json_eq(&out2, &obj(vec![("config~backup", Json::Bool(true))])));

    let out3 = apply_add(&empty, "/path~1to~1file~0name", text("value")).unwrap();
    assert!(json_eq(&out3, &obj(vec![("path/to/file~name", text("value"))])));

    // array append and positional insert
    let arr = obj(vec![("a", Json::Arr(vec![num("1"), num("3")]))]);
    let appended = apply_add(&arr, "/a/-", num("4")).unwrap();
    assert!(json_eq(
        &appended,
        &obj(vec![("a", Json::Arr(vec![num("1"), num("3"), num("4")]))])
    ));
    let inserted = apply_add(&arr, "/a/1", num("2")).unwrap();
    assert!(json_eq(
        &inserted,
        &obj(vec![("a", Json::Arr(vec![num("1"), num("2"), num("3")]))])
    ));
    assert!(apply_add(&arr, "/a/9", num("9")).is_err());
}

#[test]
fn delete_removes_members_and_elements() {
    let json = obj(vec![
        ("path/to/file~name", text("value")),
        ("other", text("keep")),
    ]);
    let out = apply_delete(&json, "/path~1to~1file~0name").unwrap();
    assert!(json_eq(&out, &obj(vec![("other", text("keep"))])));

    assert!(apply_delete(&json, "/missing").is_err());
    assert!(apply_delete(&json, "").is_err());

    let arr = obj(vec![("a", Json::Arr(vec![num("1"), num("2")]))]);
    let out2 = apply_delete(&arr, "/a/0").unwrap();
    assert!(json_eq(&out2, &obj(vec![("a", Json::Arr(vec![num("2")]))])));
}

#[test]
fn extracted_record_pointers_resolve_to_their_values() {
    let doc = obj(vec![
        ("a", obj(vec![("x", num("1"))])),
        ("list", Json::Arr(vec![obj(vec![("y", num("2"))]), num("3")])),
        ("src/lib", obj(vec![("hooks", text("t"))])),
    ]);
    let records = extract_records(&doc, "f.json");
    assert!(records.len() > 0);
    assert_eq!(records[0].pointer, "/");
    for rec in &records {
        if rec.pointer == "/" {
            assert!(json_eq(&doc, &rec.value));
        } else {
            let resolved = resolve_pointer(&doc, &rec.pointer).unwrap();
            assert!(json_eq(&resolved, &rec.value), "pointer {} did not resolve", rec.pointer);
        }
    }
    let pointers: Vec<String> = records.iter().map(|r| r.pointer.clone()).collect();
    assert!(pointers.contains(&"/a".to_string()));
    assert!(pointers.contains(&"/list/0".to_string()));
    assert!(pointers.contains(&"/src~1lib".to_string()));
}

#[test]
fn fields_list_is_sorted_and_deduplicated() {
    let doc = obj(vec![
        ("b", obj(vec![("z", num("1")), ("a", num("2"))])),
        (
            "a",
            Json::Arr(vec![obj(vec![("z", num("3"))]), obj(vec![("ignored", num("4"))])]),
        ),
        ("b2", obj(vec![("z", num("5"))])),
    ]);
    let fields = jsonai::fields::fields_list(&doc);
    assert_eq!(
        fields,
        vec![
            "a".to_string(),
            "a.z".to_string(),
            "b".to_string(),
            "b.a".to_string(),
            "b.z".to_string(),
            "b2".to_string(),
            "b2.z".to_string(),
        ]
    );
}

#[test]
fn patch_applies_operations_in_order() {
    let doc = obj(vec![("a", num("1")), ("b", obj(vec![("c", num("2"))]))]);
    let ops = vec![
        obj(vec![("op", text("test")), ("path", text("/a")), ("value", num("1"))]),
        obj(vec![("op", text("replace")), ("path", text("/a")), ("value", num("9"))]),
        obj(vec![("op", text("add")), ("path", text("/d")), ("value", text("new"))]),
        obj(vec![("op", text("move")), ("from", text("/b/c")), ("path", text("/c"))]),
        obj(vec![("op", text("copy")), ("from", text("/c")), ("path", text("/c2"))]),
        obj(vec![("op", text("remove")), ("path", text("/b"))]),
    ];
    let out = jsonai::patch::apply_patch(&doc, &ops).unwrap();
    assert!(json_eq(
        &out,
        &obj(vec![
            ("a", num("9")),
            ("d", text("new")),
            ("c", num("2")),
            ("c2", num("2")),
        ])
    ));
}

#[test]
fn patch_preflight_rejects_failing_tests() {
    let doc = obj(vec![("a", num("1"))]);
    let ops = vec![
        obj(vec![("op", text("test")), ("path", text("/a")), ("value", num("2"))]),
        obj(vec![("op", text("remove")), ("path", text("/a"))]),
    ];
    assert!(jsonai::patch::apply_patch(&doc, &ops).is_err());

    // an unknown operation is malformed
    let bad = vec![obj(vec![("op", text("explode")), ("path", text("/a"))])];
    assert!(jsonai::patch::apply_patch(&doc, &bad).is_err());

    // moving a value into itself is invalid
    let into_self = vec![obj(vec![
        ("op", text("move")),
        ("from", text("/a")),
        ("path", text("/a/b")),
    ])];
    assert!(jsonai::patch::apply_patch(&doc, &into_self).is_err());
}

#[test]
fn failing_test_op_reports_the_escaped_pointer() {
    // a failing test op aborts the whole patch in the pre-flight, and the
    // error names the pointer in its escaped form
    let doc = obj(vec![("src/lib", obj(vec![("hooks", text("actual"))]))]);
    let ops = vec![obj(vec![
        ("op", text("test")),
        ("path", text("/src~1lib/hooks")),
        ("value", text("expected")),
    ])];
    let err = jsonai::patch::apply_patch(&doc, &ops).unwrap_err();
    let msg = err.message();
    assert!(msg.contains("/src~1lib/hooks"));
    assert!(!msg.contains("/src/lib/hooks"));
    // the document itself is untouched
    assert!(json_eq(
        &resolve_pointer(&doc, "/src~1lib/hooks").unwrap(),
        &text("actual")
    ));
    // with the matching value the same patch goes through unchanged
    let ok_ops = vec![obj(vec![
        ("op", text("test")),
        ("path", text("/src~1lib/hooks")),
        ("value", text("actual")),
    ])];
    let out = jsonai::patch::apply_patch(&doc, &ok_ops).unwrap();
    assert!(json_eq(&out, &doc));
}
