use jsonai::pointer::{
    build_pointer_from_segments, escape_pointer_segment, escape_segment, normalize_pointer_for_error,
    parse_pointer, unescape_segment, validate_escaped_segment,
};

#[test]
fn test_unescape_segment() {
    // Test ~1 (/) unescaping
    assert_eq!(unescape_segment("foo~1bar"), "foo/bar");
    assert_eq!(unescape_segment("src~1lib~1hooks"), "src/lib/hooks");

    // Test ~0 (~) unescaping
    assert_eq!(unescape_segment("config~0backup"), "config~backup");
    assert_eq!(unescape_segment("a~0b"), "a~b");

    // Test mixed ~1 and ~0
    assert_eq!(unescape_segment("path~1to~1file~0name"), "path/to/file~name");

    // Test no escapes needed
    assert_eq!(unescape_segment("simple"), "simple");
    assert_eq!(unescape_segment(""), "");

    // Test order: ~1 is replaced first, then ~0
    // For ~01: no ~1 found, then ~0 -> ~ gives ~1
    assert_eq!(unescape_segment("~01"), "~1");

    // Test ~00 (tilde followed by zero)
    assert_eq!(unescape_segment("~00"), "~0");

    // Test ~10 (one followed by zero)
    assert_eq!(unescape_segment("~10"), "/0");

    // Test ~1~0 (slash then tilde)
    assert_eq!(unescape_segment("~1~0"), "/~");
}

#[test]
fn test_escape_segment() {
    // Test / escaping
    assert_eq!(escape_segment("foo/bar"), "foo~1bar");
    assert_eq!(escape_segment("src/lib/hooks"), "src~1lib~1hooks");

    // Test ~ escaping
    assert_eq!(escape_segment("config~backup"), "config~0backup");
    assert_eq!(escape_segment("a~b"), "a~0b");

    // Test mixed / and ~
    assert_eq!(escape_segment("path/to/file~name"), "path~1to~1file~0name");

    // Test no escapes needed
    assert_eq!(escape_segment("simple"), "simple");
    assert_eq!(escape_segment(""), "");
}

#[test]
fn test_escape_roundtrip() {
    let cases = vec![
        "simple",
        "foo/bar",
        "src/lib/hooks",
        "config~backup",
        "a~b",
        "path/to/file~name",
        "complex/path/with/both~and/slashes",
        "",
        "~0",
        "~1",
        "~01",
    ];

    for original in cases {
        let escaped = escape_segment(original);
        let unescaped = unescape_segment(&escaped);
        assert_eq!(
            unescaped, original,
            "Roundtrip failed: {} -> {} -> {}",
            original, escaped, unescaped
        );
    }
}

#[test]
fn test_parse_pointer() {
    // Test root pointer
    assert_eq!(parse_pointer("").unwrap(), Vec::<String>::new());

    // Test simple pointer
    assert_eq!(parse_pointer("/foo").unwrap(), vec!["foo".to_string()]);
    assert_eq!(
        parse_pointer("/foo/bar").unwrap(),
        vec!["foo".to_string(), "bar".to_string()]
    );

    // Test escaped pointer
    assert_eq!(parse_pointer("/foo~1bar").unwrap(), vec!["foo/bar".to_string()]);
    assert_eq!(
        parse_pointer("/src~1lib~1hooks").unwrap(),
        vec!["src/lib/hooks".to_string()]
    );
    assert_eq!(
        parse_pointer("/config~0backup").unwrap(),
        vec!["config~backup".to_string()]
    );

    // Test mixed escapes
    assert_eq!(
        parse_pointer("/path~1to~1file~0name").unwrap(),
        vec!["path/to/file~name".to_string()]
    );

    // Test numeric segments (for arrays)
    assert_eq!(parse_pointer("/0").unwrap(), vec!["0".to_string()]);
    assert_eq!(
        parse_pointer("/foo/0/bar").unwrap(),
        vec!["foo".to_string(), "0".to_string(), "bar".to_string()]
    );

    // Test error: pointer must start with /
    assert!(parse_pointer("foo").is_err());
    assert!(parse_pointer("foo/bar").is_err());

    // Test error: invalid escapes
    assert!(parse_pointer("/~").is_err());
    assert!(parse_pointer("/~2").is_err());
    assert!(parse_pointer("/foo~bar").is_err());
}

#[test]
fn validate_escaped_segment_accepts_and_rejects() {
    assert!(validate_escaped_segment("plain").is_ok());
    assert!(validate_escaped_segment("a~0b~1c").is_ok());
    assert!(validate_escaped_segment("bad~2").is_err());
    assert!(validate_escaped_segment("bad~").is_err());
}

#[test]
fn build_pointer_round_trips_segments() {
    let segs = vec!["src/lib".to_string(), "config~backup".to_string(), "0".to_string()];
    let built = build_pointer_from_segments(&segs);
    assert_eq!(built, "/src~1lib/config~0backup/0");
    assert_eq!(parse_pointer(&built).unwrap(), segs);
    let empty: Vec<String> = Vec::new();
    assert_eq!(build_pointer_from_segments(&empty), "");
}

#[test]
fn normalize_pointer_keeps_and_escapes() {
    assert_eq!(normalize_pointer_for_error(""), "");
    assert_eq!(normalize_pointer_for_error("/src~1lib/hooks"), "/src~1lib/hooks");
    assert_eq!(normalize_pointer_for_error("/bad~2"), "/bad~2");
    assert_eq!(normalize_pointer_for_error("src/lib/hooks"), "/src/lib/hooks");
    assert_eq!(normalize_pointer_for_error("a~b"), "/a~0b");
}

#[test]
fn escape_pointer_segment_matches_escape_segment() {
    assert_eq!(escape_pointer_segment("src/lib"), "src~1lib");
    assert_eq!(escape_pointer_segment("config~backup"), "config~0backup");
}
