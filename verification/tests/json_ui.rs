use gpml::json_ui::hot_reload::{HotReloadManager, HotReloadWatcher};
use gpml::json_ui::parser::{interpolate_props, interpolate_value, UiError, UiParser};
use gpml::json_ui::renderer::{UiColor, UiKind, UiRenderer};
use gpml::json_ui::schema::{UiChild, UiComponent, UiDocument, UiValue};

fn s(x: &str) -> UiValue {
    UiValue::String(x.to_string())
}

fn comp(t: &str, props: Vec<(&str, UiValue)>, children: Vec<UiChild>, reference: Option<&str>) -> UiComponent {
    UiComponent {
        component_type: t.to_string(),
        props: props.into_iter().map(|(k, v)| (k.to_string(), v)).collect(),
        children,
        reference: reference.map(|r| r.to_string()),
    }
}

fn doc(root: UiComponent) -> UiDocument {
    UiDocument { schema: None, root }
}

#[test]
fn watcher_sets() {
    let mut w = HotReloadWatcher::new().unwrap();
    assert!(w.watch_directory("/x").is_ok());
    w.add_file("/x/a.json".to_string());
    w.add_file("/x/a.json".to_string());
    assert_eq!(w.watched_files.len(), 1);
    w.remove_file("/x/a.json");
    assert!(w.watched_files.is_empty());
    assert!(w.poll_changes().is_empty());
}

#[test]
fn manager_dependencies_and_clear() {
    let mut m = HotReloadManager::new();
    m.add_dependency("/d/one.json".to_string());
    assert!(m.watcher.is_none());
    assert!(m.start_watching("/d/root.json").is_ok());
    assert_eq!(m.watcher.as_ref().unwrap().watched_files, vec!["/d/root.json".to_string()]);
    m.add_dependency("/d/two.json".to_string());
    assert_eq!(m.watcher.as_ref().unwrap().watched_files.len(), 2);
    m.clear_dependencies();
    assert!(m.dependencies.is_empty());
    assert_eq!(m.watcher.as_ref().unwrap().watched_files.len(), 2);
    m.remove_dependency("/d/two.json");
    assert_eq!(m.watcher.as_ref().unwrap().watched_files, vec!["/d/root.json".to_string()]);
    assert!(m.check_for_changes().is_empty());
}

#[test]
fn value_interpolation() {
    let ctx = vec![("title".to_string(), s("Hello")), ("n".to_string(), UiValue::Number("3".to_string()))];
    assert!(matches!(interpolate_value(&ctx, &s("${title}")), UiValue::String(x) if x == "Hello"));
    assert!(matches!(interpolate_value(&ctx, &s("${n}")), UiValue::Number(x) if x == "3"));
    assert!(matches!(interpolate_value(&ctx, &s("${none}")), UiValue::String(x) if x == "${none}"));
    assert!(matches!(interpolate_value(&ctx, &s("x ${title}")), UiValue::String(x) if x == "x ${title}"));
    let arr = UiValue::Array(vec![s("${title}"), UiValue::Boolean(true)]);
    match interpolate_value(&ctx, &arr) {
        UiValue::Array(v) => {
            assert!(matches!(&v[0], UiValue::String(x) if x == "Hello"));
            assert!(matches!(&v[1], UiValue::Boolean(true)));
        }
        _ => panic!("not an array"),
    }
    let props = vec![("label".to_string(), UiValue::Object(vec![("t".to_string(), s("${title}"))]))];
    let out = interpolate_props(&props, &ctx);
    match &out[0].1 {
        UiValue::Object(o) => assert!(matches!(&o[0].1, UiValue::String(x) if x == "Hello")),
        _ => panic!("not an object"),
    }
}

#[test]
fn references_are_resolved_with_props() {
    let header = comp("h1", vec![("text", s("${title}"))], vec![UiChild::Text("static".to_string())], None);
    let root = comp(
        "div",
        vec![],
        vec![UiChild::Reference { reference: "header.json".to_string(), props: vec![("title".to_string(), s("Welcome"))] }],
        None,
    );
    let mut parser = UiParser::new("/ui");
    let files: Vec<(String, UiDocument)> = vec![];
    match parser.resolve_component(&root, &files, 10) {
        Err(UiError::NeedFile(p)) => assert_eq!(p, "/ui/header.json"),
        _ => panic!("expected a request for the file"),
    }
    let files = vec![("/ui/header.json".to_string(), doc(header))];
    let r = parser.resolve_component(&root, &files, 10).ok().unwrap();
    assert_eq!(r.component_type, "div");
    match &r.children[0] {
        UiChild::Component(h) => {
            assert_eq!(h.component_type, "h1");
            assert!(matches!(&h.props[0].1, UiValue::String(x) if x == "Welcome"));
        }
        _ => panic!("reference not replaced"),
    }
    assert_eq!(parser.cache.len(), 1);
    parser.remove_from_cache("/ui/header.json");
    assert!(parser.cache.is_empty());
}

#[test]
fn self_reference_runs_out_of_fuel() {
    let looping = comp("div", vec![], vec![], Some("loop.json"));
    let files = vec![("/u/loop.json".to_string(), doc(comp("div", vec![], vec![], Some("loop.json"))))];
    let mut parser = UiParser::new("/u");
    assert!(matches!(parser.resolve_component(&looping, &files, 6), Err(UiError::TooDeep(_))));
}

#[test]
fn parse_document_uses_cache() {
    let files = vec![("/b/a.json".to_string(), doc(comp("text", vec![("content", s("hi"))], vec![], None)))];
    let mut parser = UiParser::new("/b");
    let first = parser.parse_document("a.json", &files, 4).ok().unwrap();
    assert_eq!(first.component_type, "text");
    let again = parser.parse_document("a.json", &vec![], 4).ok().unwrap();
    assert_eq!(again.component_type, "text");
    parser.clear_cache();
    assert!(matches!(parser.parse_document("a.json", &vec![], 4), Err(UiError::NeedFile(_))));
    assert!(UiParser::parse_file("/b/a.json", &files, 4).is_ok());
}

#[test]
fn renderer_decisions() {
    assert_eq!(UiRenderer::component_kind("h2"), UiKind::H2);
    assert_eq!(UiRenderer::component_kind("column"), UiKind::Column);
    assert_eq!(UiRenderer::component_kind("video"), UiKind::Unknown);
    assert_eq!(UiRenderer::named_color("gray"), Some(UiColor::Gray));
    assert_eq!(UiRenderer::named_color("purple"), None);
    let b = comp(
        "button",
        vec![],
        vec![UiChild::Text("Click".to_string()), UiChild::Component(comp("div", vec![], vec![], None)), UiChild::Text("me".to_string())],
        None,
    );
    assert_eq!(UiRenderer::button_label(&b), "Click me");
    let t = comp("text", vec![], vec![UiChild::Text("first".to_string()), UiChild::Text("second".to_string())], None);
    assert_eq!(UiRenderer::text_content(&t, &t.props), "first");
    let t2 = comp("text", vec![("content", s("own"))], vec![], None);
    assert_eq!(UiRenderer::text_content(&t2, &t2.props), "own");
    let f = comp("flex", vec![("direction", s("column"))], vec![], None);
    assert!(UiRenderer::flex_is_column(&f.props));
    assert!(!UiRenderer::flex_is_column(&vec![]));
    assert_eq!(UiRenderer::input_placeholder(&vec![]), "");
    assert_eq!(UiRenderer::unknown_label(&comp("video", vec![], vec![], None)), "Unknown component: video");
}
