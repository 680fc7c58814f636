use gpml::ast::{AttributeValue, Attributes, ComponentDef, Element, GPMLNode, Import};
use gpml::component::{import_location, resolve_element, ComponentResolver, GPMLContext};
use gpml::error::GPMLError;
use gpml::parser::GPMLParser;

fn card_def() -> ComponentDef {
    let doc = GPMLParser::parse_file(
        "def Card(title, content) {\n    <div>\n        <h1>${title}</h1>\n        <p>${content}</p>\n    </div>\n}\n\nexport Card\n",
    )
    .unwrap();
    match doc {
        GPMLNode::Document { components, .. } => components.into_iter().next().unwrap(),
        _ => panic!("not a document"),
    }
}

#[test]
fn variable_read_after_write() {
    let ctx = GPMLContext::new(".")
        .with_variable("title".to_string(), AttributeValue::Literal("My App".to_string()))
        .with_variable("n".to_string(), AttributeValue::Number("3".to_string()));
    assert_eq!(ctx.get_variable("title"), Some(&AttributeValue::Literal("My App".to_string())));
    assert_eq!(ctx.get_variable("n"), Some(&AttributeValue::Number("3".to_string())));
    assert_eq!(ctx.get_variable("missing"), None);
    let ctx = ctx.with_variable("title".to_string(), AttributeValue::Boolean(true));
    assert_eq!(ctx.get_variable("title"), Some(&AttributeValue::Boolean(true)));
}

#[test]
fn interpolate_string_cases() {
    let ctx = GPMLContext::new(".").with_variable("name".to_string(), AttributeValue::Literal("World".to_string()));
    assert_eq!(ctx.interpolate_string("${name}"), "World");
    assert_eq!(ctx.interpolate_string("${other}"), "${other}");
    assert_eq!(ctx.interpolate_string("Hello ${name}"), "Hello World");
    assert_eq!(ctx.interpolate_string("Hello, ${name}!"), "Hello, World!");
    assert_eq!(ctx.interpolate_string("${name} and ${other} and ${name}"), "World and ${other} and World");
    assert_eq!(ctx.interpolate_string("cost $5 ${name"), "cost $5 ${name");
    assert_eq!(ctx.interpolate_string("plain"), "plain");
    let ctx = ctx.with_variable("on".to_string(), AttributeValue::Boolean(false));
    assert_eq!(ctx.interpolate_string("${on}"), "false");
}

#[test]
fn interpolate_attribute_cases() {
    let ctx = GPMLContext::new(".").with_variable("x".to_string(), AttributeValue::Number("42".to_string()));
    assert_eq!(
        ctx.interpolate_attribute(&AttributeValue::Expression("x".to_string())),
        AttributeValue::Number("42".to_string())
    );
    assert_eq!(
        ctx.interpolate_attribute(&AttributeValue::Expression("y".to_string())),
        AttributeValue::Expression("y".to_string())
    );
    assert_eq!(
        ctx.interpolate_attribute(&AttributeValue::Literal("x".to_string())),
        AttributeValue::Literal("x".to_string())
    );
}

#[test]
fn component_read_after_write() {
    let mut ctx = GPMLContext::new(".");
    ctx.add_component(card_def());
    assert_eq!(ctx.get_component("Card").map(|c| c.parameters.clone()), Some(vec!["title".to_string(), "content".to_string()]));
    assert!(ctx.get_component("Other").is_none());
    let mut replacement = card_def();
    replacement.parameters = vec![];
    ctx.add_component(replacement);
    assert_eq!(ctx.components.len(), 1);
    assert_eq!(ctx.get_component("Card").map(|c| c.parameters.len()), Some(0));
}

#[test]
fn card_instance_from_readme() {
    let mut ctx = GPMLContext::new(".");
    ctx.add_component(card_def());
    let use_site = Element::new("Card".to_string())
        .with_attribute("title".to_string(), AttributeValue::Literal("Card Title".to_string()))
        .with_attribute(
            "content".to_string(),
            AttributeValue::Literal("This is the content of the card.".to_string()),
        );
    let resolver = ComponentResolver::new();
    let out = resolve_element(&use_site, &ctx, &resolver).unwrap();
    assert_eq!(out.tag, "div");
    let h1 = out.children[0].as_element().unwrap();
    assert_eq!(h1.tag, "h1");
    assert_eq!(h1.children[0].as_text(), Some("Card Title"));
    let p = out.children[1].as_element().unwrap();
    assert_eq!(p.children[0].as_text(), Some("This is the content of the card."));
}

#[test]
fn instance_with_wrong_arity_is_refused() {
    let ctx = GPMLContext::new(".");
    let resolver = ComponentResolver::new();
    let mut args = Attributes::new();
    args.insert("title".to_string(), AttributeValue::Literal("T".to_string()));
    let r = resolver.instantiate_component(&card_def(), &args, &ctx);
    assert_eq!(r.err(), Some(GPMLError::ParameterMismatch { expected: 2, actual: 1 }));
}

#[test]
fn resolve_plain_element_interpolates_children() {
    let ctx = GPMLContext::new(".").with_variable("who".to_string(), AttributeValue::Literal("you".to_string()));
    let e = Element::new("p".to_string())
        .with_attribute("class".to_string(), AttributeValue::Expression("who".to_string()))
        .with_child(GPMLNode::Text("Hello,".to_string()))
        .with_child(GPMLNode::Expression("who".to_string()))
        .with_child(GPMLNode::Expression("nobody".to_string()));
    let out = resolve_element(&e, &ctx, &ComponentResolver::new()).unwrap();
    assert_eq!(out.get_attribute("class"), Some(&AttributeValue::Literal("you".to_string())));
    assert_eq!(out.children[0].as_text(), Some("Hello,"));
    assert_eq!(out.children[1].as_text(), Some("you"));
    assert!(matches!(&out.children[2], GPMLNode::Expression(x) if x == "nobody"));
}

#[test]
fn loading_twice_is_circular_until_finished() {
    let mut r = ComponentResolver::new();
    assert!(matches!(r.begin_load("/a.gpml"), Ok(None)));
    assert_eq!(
        r.begin_load("/a.gpml").err(),
        Some(GPMLError::CircularDependency { path: "/a.gpml".to_string() })
    );
    let doc = r.finish_load("/a.gpml", Some("<root></root>".to_string())).unwrap();
    assert!(matches!(doc, GPMLNode::Document { root: Some(_), .. }));
    assert!(matches!(r.begin_load("/a.gpml"), Ok(Some(GPMLNode::Document { .. }))));
    r.remove_from_cache("/a.gpml");
    assert!(matches!(r.begin_load("/a.gpml"), Ok(None)));
}

#[test]
fn finish_load_errors() {
    let mut r = ComponentResolver::new();
    assert_eq!(
        r.finish_load("/missing.gpml", None).err(),
        Some(GPMLError::FileNotFound { path: "/missing.gpml".to_string() })
    );
    let e = r.finish_load("/bad.gpml", Some("<root></root> trailing".to_string())).err();
    assert_eq!(
        e,
        Some(GPMLError::ParseError {
            message: "Unexpected content after parsing: trailing".to_string(),
            line: 1,
            column: 15
        })
    );
}

#[test]
fn imported_components_get_alias_prefix() {
    let mut ctx = GPMLContext::new("/proj");
    let doc = GPMLParser::parse_file("def Card(t) { <div>${t}</div> }").unwrap();
    let import = Import { path: "./Card.gpml".to_string(), alias: "UI".to_string() };
    assert_eq!(import_location(&ctx, &import), "/proj/./Card.gpml");
    ctx.add_imported_components(&import, &doc);
    assert!(ctx.get_component("UI.Card").is_some());
    assert!(ctx.get_component("Card").is_none());
    let bare = Import { path: "x".to_string(), alias: "".to_string() };
    ctx.add_imported_components(&bare, &doc);
    assert!(ctx.get_component("Card").is_some());
}

#[test]
fn import_lookup_gives_last_definition_renamed() {
    let mut ctx = GPMLContext::new("/proj");
    let doc = GPMLParser::parse_file("def Card(a) { <div/> }\ndef Card(b, c) { <span/> }\ndef Row() { <p/> }").unwrap();
    let import = Import { path: "./lib.gpml".to_string(), alias: "Lib".to_string() };
    ctx.add_imported_components(&import, &doc);
    let card = ctx.get_component("Lib.Card").unwrap();
    assert_eq!(card.name, "Lib.Card");
    assert_eq!(card.parameters, vec!["b".to_string(), "c".to_string()]);
    assert_eq!(ctx.get_component("Lib.Row").map(|c| c.name.clone()), Some("Lib.Row".to_string()));
    assert!(ctx.get_component("Row").is_none());
}

#[test]
fn parse_errors_give_line_and_column() {
    let mut r = ComponentResolver::new();
    // The comment is not part of the parse but counts for the position.
    let e = r.finish_load("/bad.gpml", Some("<!-- a\n b -->\n<root>\n</root>\n  oops".to_string())).err();
    assert_eq!(
        e,
        Some(GPMLError::ParseError {
            message: "Unexpected content after parsing: oops".to_string(),
            line: 5,
            column: 3
        })
    );
    let located = GPMLParser::parse_file_located("<a/>\n\tx y");
    assert!(matches!(located, Err((_, 2, 2))));
}
