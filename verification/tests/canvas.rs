use gpml::ast::{AttributeValue, Attributes, GPMLNode};
use gpml::canvas::GPMLCanvas;
use gpml::component::GPMLContext;
use gpml::hot_reload::{PathListing, WatchEvent, WatchEventKind};
use gpml::error::GPMLError;
use gpml::json_ui::canvas::JsonCanvas;
use gpml::json_ui::parser::UiError;
use gpml::json_ui::schema::{UiComponent, UiDocument};

#[test]
fn gpml_canvas_load_from_string() {
    let mut vars = Attributes::new();
    vars.insert("title".to_string(), AttributeValue::Literal("My App".to_string()));
    let mut canvas = GPMLCanvas::new("app.gpml").with_variables(vars);
    assert!(!canvas.is_loaded());
    canvas
        .load_from_string("def Card(t) { <div>${t}</div> }\n<root><Card t=\"x\"/></root>", None)
        .unwrap();
    assert!(canvas.is_loaded());
    assert!(!canvas.is_loading());
    assert_eq!(canvas.get_root_element().map(|e| e.tag.clone()), Some("root".to_string()));
    let ctx = canvas.context.as_ref().unwrap();
    assert_eq!(ctx.base_path, ".");
    assert!(ctx.get_component("Card").is_some());
    assert_eq!(ctx.get_variable("title"), Some(&AttributeValue::Literal("My App".to_string())));
}

#[test]
fn gpml_canvas_parse_failure_shows_error() {
    let mut canvas = GPMLCanvas::new("app.gpml");
    let r = canvas.load_from_string("<a>x</b>", Some("/base"));
    let e = match r {
        Err(e) => e,
        Ok(()) => panic!("expected a parse error"),
    };
    assert!(matches!(e, GPMLError::ParseError { .. }));
    assert!(!canvas.is_loading());
    assert_eq!(canvas.get_error(), Some(&e.describe()));
    assert!(!canvas.is_loaded());
}

#[test]
fn gpml_canvas_variables() {
    let mut canvas = GPMLCanvas::new("app.gpml");
    assert!(!canvas.update_variable("a".to_string(), AttributeValue::Boolean(true)));
    canvas.load_from_string("<root></root>", None).unwrap();
    assert!(canvas.update_variable("b".to_string(), AttributeValue::Boolean(false)));
    assert_eq!(
        canvas.context.as_ref().unwrap().get_variable("b"),
        Some(&AttributeValue::Boolean(false))
    );
    canvas.context.as_mut().unwrap().variables.insert("doc".to_string(), AttributeValue::Boolean(true));
    canvas.clear_variables();
    assert_eq!(canvas.get_variables().len(), 0);
    // The runtime variables leave the context; its other bindings stay.
    assert!(canvas.context.as_ref().unwrap().get_variable("a").is_none());
    assert!(canvas.context.as_ref().unwrap().get_variable("b").is_none());
    assert_eq!(canvas.context.as_ref().unwrap().get_variable("doc"), Some(&AttributeValue::Boolean(true)));
    assert!(matches!(canvas.current_document, Some(GPMLNode::Document { .. })));
}

#[test]
fn json_canvas_flow() {
    let mut canvas = JsonCanvas::new("/ui/main.json");
    assert_eq!(canvas.parser.base_path, "/ui");
    assert!(matches!(canvas.load(&vec![], 4), Err(UiError::NeedFile(p)) if p == "/ui/main.json"));
    assert!(!canvas.is_loaded());
    let root = UiComponent { component_type: "div".to_string(), props: vec![], children: vec![], reference: None };
    let files = vec![("/ui/main.json".to_string(), UiDocument { schema: None, root })];
    assert!(canvas.load(&files, 4).is_ok());
    assert!(canvas.is_loaded());
    assert_eq!(canvas.get_ui().map(|u| u.component_type.clone()), Some("div".to_string()));
    assert!(canvas.start_hot_reload().is_ok());
    assert_eq!(canvas.check_and_reload(&files, 4).ok(), Some(false));
    assert!(canvas.reload(&files, 4).is_ok());
}

#[test]
fn error_messages() {
    let e = GPMLError::ParseError { message: "bad".to_string(), line: 12, column: 3 };
    assert_eq!(e.describe(), "Parse error: bad at line 12, column 3");
    let e = GPMLError::ParameterMismatch { expected: 2, actual: 0 };
    assert_eq!(e.describe(), "Parameter mismatch: expected 2, got 0");
    let e = GPMLError::ComponentNotFound { name: "Card".to_string() };
    assert_eq!(e.describe(), "Component 'Card' not found");
    let e = GPMLError::FileNotFound { path: "/x.gpml".to_string() };
    assert_eq!(e.describe(), "File not found: /x.gpml");
    let e = GPMLError::ParseError { message: String::new(), line: 1234567890, column: 10 };
    assert_eq!(e.describe(), "Parse error:  at line 1234567890, column 10");
}

#[test]
fn canvas_load_keeps_a_failed_context_as_error() {
    let mut canvas = GPMLCanvas::new("/p/app.gpml");
    let r = canvas.load(Err(GPMLError::CircularDependency { path: "/p/a.gpml".to_string() }), None);
    assert!(matches!(r, Err(GPMLError::CircularDependency { .. })));
    assert_eq!(canvas.get_error().map(|s| s.as_str()), Some("Circular dependency detected: /p/a.gpml"));
    assert!(!canvas.is_loading());
    assert!(!canvas.is_loaded());
    assert!(canvas.context.is_none());
}

#[test]
fn canvas_load_without_text_keeps_the_context() {
    let mut canvas = GPMLCanvas::new("/p/app.gpml");
    let r = canvas.load(Ok(GPMLContext::new("/p")), None);
    assert!(matches!(r, Err(GPMLError::FileNotFound { ref path }) if path == "/p/app.gpml"));
    assert_eq!(canvas.get_error().map(|s| s.as_str()), Some("File not found: /p/app.gpml"));
    assert!(canvas.context.is_some());
    assert!(!canvas.is_loaded());
}

#[test]
fn canvas_load_with_bad_text() {
    let mut canvas = GPMLCanvas::new("/p/app.gpml");
    let r = canvas.load(Ok(GPMLContext::new("/p")), Some("<root></root> junk"));
    match r {
        Err(GPMLError::ParseError { message, line, column }) => {
            assert_eq!(message, "Unexpected content after parsing: junk");
            assert_eq!((line, column), (1, 15));
        }
        other => panic!("unexpected {:?}", other),
    }
    assert_eq!(
        canvas.get_error().map(|s| s.as_str()),
        Some("Parse error: Unexpected content after parsing: junk at line 1, column 15")
    );
    assert!(!canvas.is_loaded());
}

#[test]
fn canvas_load_shows_document_with_runtime_variables() {
    let mut vars = Attributes::new();
    vars.insert("user".to_string(), AttributeValue::Literal("Ann".to_string()));
    let mut canvas = GPMLCanvas::new("/p/app.gpml").with_variables(vars);
    let r = canvas.load(Ok(GPMLContext::new("/p")), Some("<root><p>${user}</p></root>"));
    assert!(r.is_ok());
    assert!(canvas.is_loaded());
    assert!(canvas.get_error().is_none());
    assert_eq!(canvas.get_root_element().map(|e| e.tag.clone()), Some("root".to_string()));
    let ctx = canvas.context.as_ref().unwrap();
    assert_eq!(ctx.get_variable("user"), Some(&AttributeValue::Literal("Ann".to_string())));
    assert_eq!(ctx.base_path, "/p");
}

#[test]
fn canvas_hot_reload_drops_changed_files() {
    let mut canvas = GPMLCanvas::new("/p/app.gpml");
    let events = vec![WatchEvent { kind: WatchEventKind::Modify, paths: vec!["/p/app.gpml".to_string()] }];
    // Not watching yet: nothing counts.
    assert!(!canvas.check_and_reload(&events, 1000, &vec![]));
    assert!(canvas.start_hot_reload(true, PathListing::File, PathListing::Neither).is_ok());
    assert!(canvas.hot_reload_manager.is_watching());
    assert_eq!(canvas.hot_reload_manager.get_watched_files(), &vec!["/p/app.gpml".to_string()]);
    assert!(matches!(canvas.resolver.begin_load("/p/app.gpml"), Ok(None)));
    canvas.resolver.finish_load("/p/app.gpml", Some("<root></root>".to_string())).unwrap();
    assert!(matches!(canvas.resolver.begin_load("/p/app.gpml"), Ok(Some(_))));
    canvas.resolver.loading.clear();
    assert!(canvas.check_and_reload(&events, 1000, &vec![]));
    assert!(matches!(canvas.resolver.begin_load("/p/app.gpml"), Ok(None)));
    // The same change again within the debounce interval does not count.
    assert!(!canvas.check_and_reload(&events, 1050, &vec![]));
}

#[test]
fn canvas_start_hot_reload_watches_directory() {
    let mut canvas = GPMLCanvas::new("/p/app.gpml");
    let _ = canvas.start_hot_reload(
        true,
        PathListing::File,
        PathListing::Directory(vec!["/p/b.gpml".to_string(), "/p/notes.txt".to_string()]),
    );
    assert_eq!(
        canvas.hot_reload_manager.get_watched_files(),
        &vec!["/p/app.gpml".to_string(), "/p/b.gpml".to_string()]
    );
}

#[test]
fn canvas_reload_empties_cache() {
    let mut canvas = GPMLCanvas::new("/p/app.gpml");
    assert!(matches!(canvas.resolver.begin_load("/p/a.gpml"), Ok(None)));
    canvas.resolver.finish_load("/p/a.gpml", Some("<root></root>".to_string())).unwrap();
    canvas.reload();
    assert!(matches!(canvas.resolver.begin_load("/p/a.gpml"), Ok(None)));
}

#[test]
fn canvas_hot_reload_refuses_missing_file() {
    let mut canvas = GPMLCanvas::new("/p/missing.gpml");
    let r = canvas.start_hot_reload(false, PathListing::Neither, PathListing::Neither);
    assert!(matches!(r, Err(GPMLError::FileNotFound { ref path }) if path == "/p/missing.gpml"));
    assert!(!canvas.hot_reload_manager.is_watching());
}
