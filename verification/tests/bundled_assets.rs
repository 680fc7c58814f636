use gpml::bundled_assets::{BundledGPMLAssets, GPMLFileSource};

fn bundle() -> BundledGPMLAssets {
    BundledGPMLAssets::new(vec![
        ("examples/app.gpml".to_string(), b"<root></root>".to_vec()),
        ("examples/Card.gpml".to_string(), b"def Card(t) { <div>${t}</div> }".to_vec()),
        ("README.md".to_string(), b"# readme".to_vec()),
        ("examples/bad.gpml".to_string(), vec![0xff, 0xfe]),
    ])
}

#[test]
fn test_gpml_file_source() {
    let result = GPMLFileSource::file_exists("non_existent_file.gpml");
    assert_eq!(result, false);
}

#[test]
fn test_bundled_assets_list() {
    let files = bundle().list_gpml_files();
    assert!(!files.is_empty());
}

#[test]
fn bundled_list_keeps_only_gpml_in_order() {
    let files = bundle().list_gpml_files();
    assert_eq!(
        files,
        vec![
            "examples/app.gpml".to_string(),
            "examples/Card.gpml".to_string(),
            "examples/bad.gpml".to_string()
        ]
    );
}

#[test]
fn bundled_load_normalizes_backslashes() {
    let b = bundle();
    assert_eq!(b.load_gpml_file("examples\\app.gpml"), Ok("<root></root>".to_string()));
}

#[test]
fn bundled_load_tries_prefixed_forms() {
    let b = BundledGPMLAssets::new(vec![("../x.gpml".to_string(), b"<a/>".to_vec())]);
    assert_eq!(b.load_gpml_file("x.gpml"), Ok("<a/>".to_string()));
    assert!(b.gpml_file_exists("x.gpml"));
}

#[test]
fn bundled_load_missing_file() {
    let b = bundle();
    assert_eq!(
        b.load_gpml_file("nope.gpml"),
        Err("GPML file not found in bundle: nope.gpml (tried multiple path variations)".to_string())
    );
    assert!(!b.gpml_file_exists("nope.gpml"));
}

#[test]
fn bundled_load_invalid_utf8() {
    let b = bundle();
    let r = b.load_gpml_file("examples/bad.gpml");
    let m = r.unwrap_err();
    assert!(m.starts_with("Failed to decode GPML file as UTF-8: "));
    assert!(m.len() > "Failed to decode GPML file as UTF-8: ".len());
}

#[test]
fn bundled_resolve_relative_import() {
    let b = bundle();
    assert_eq!(
        b.resolve_component_path("examples/app.gpml", "Card"),
        Ok("examples/Card.gpml".to_string())
    );
}

#[test]
fn bundled_resolve_rooted_import() {
    let b = bundle();
    assert_eq!(
        b.resolve_component_path("other/app.gpml", "//examples/Card.gpml"),
        Ok("examples/Card.gpml".to_string())
    );
}

#[test]
fn bundled_resolve_missing_component() {
    let b = bundle();
    assert_eq!(
        b.resolve_component_path("examples/app.gpml", "Missing"),
        Err("Component file not found in bundle: examples/Missing.gpml".to_string())
    );
}

#[test]
fn file_source_resolve_missing_component() {
    assert_eq!(
        GPMLFileSource::resolve_component_import("/no/such/dir/app.gpml", "Card"),
        Err("Component file not found: /no/such/dir/Card.gpml".to_string())
    );
}

#[test]
fn file_source_import_answer() {
    assert_eq!(GPMLFileSource::import_answer("a.gpml".to_string(), true), Ok("a.gpml".to_string()));
    assert_eq!(
        GPMLFileSource::import_answer("a.gpml".to_string(), false),
        Err("Component file not found: a.gpml".to_string())
    );
}

#[test]
fn bundle_keeps_first_file_of_a_path() {
    let b = BundledGPMLAssets::new(vec![
        ("a.gpml".to_string(), b"<first/>".to_vec()),
        ("b.txt".to_string(), b"x".to_vec()),
        ("a.gpml".to_string(), b"<second/>".to_vec()),
    ]);
    assert_eq!(b.list_gpml_files(), vec!["a.gpml".to_string()]);
    assert_eq!(b.load_gpml_file("a.gpml"), Ok("<first/>".to_string()));
    assert!(b.gpml_file_exists("a.gpml"));
}
