use gpml::ast::{AttributeValue, GPMLNode};
use gpml::error::GPMLError;
use gpml::parser_nom::GPMLParser;

fn root_of(doc: GPMLNode) -> gpml::ast::Element {
    match doc {
        GPMLNode::Document { root: Some(r), .. } => r,
        _ => panic!("no root"),
    }
}

#[test]
fn nom_parser_starts_at_line_one() {
    let p = GPMLParser::new();
    assert_eq!((p.line, p.column), (1, 1));
}

#[test]
fn nom_parses_values_of_each_kind() {
    let mut p = GPMLParser::new();
    let doc = p
        .parse(r#"<box a="text" b=-12.5 c=true d=${x} e = 7. />"#)
        .err();
    assert!(doc.is_some());
    let doc = p.parse(r#"<box a="text" b=-12.5 c=true d=${x} />"#).unwrap();
    let e = root_of(doc);
    assert!(e.self_closing);
    assert_eq!(e.get_attribute("a"), Some(&AttributeValue::Literal("text".to_string())));
    assert_eq!(e.get_attribute("b"), Some(&AttributeValue::Number("-12.5".to_string())));
    assert_eq!(e.get_attribute("c"), Some(&AttributeValue::Boolean(true)));
    assert_eq!(e.get_attribute("d"), Some(&AttributeValue::Expression("x".to_string())));
}

#[test]
fn nom_closing_tag_must_match() {
    let mut p = GPMLParser::new();
    assert!(p.parse("<a><b>hi</b></a>").is_ok());
    let r = p.parse("<a>hi</b>");
    assert_eq!(
        r.err(),
        Some(GPMLError::ParseError { message: "Unexpected content: <a>hi</b>".to_string(), line: 1, column: 1 })
    );
}

#[test]
fn nom_document_with_imports_and_components() {
    let mut p = GPMLParser::new();
    let doc = p
        .parse("import \"./My Card.gpml\" as Card\nimport ./x.gpml as X\ndef Card(title , body) { <div>${title} text</div> }\n<root><Card title=\"t\" body=\"b\"/></root>\n")
        .unwrap();
    match doc {
        GPMLNode::Document { imports, components, root } => {
            assert_eq!(imports.len(), 2);
            assert_eq!(imports[0].path, "./My Card.gpml");
            assert_eq!(imports[1].alias, "X");
            assert_eq!(components[0].name, "Card");
            assert_eq!(components[0].parameters, vec!["title".to_string(), "body".to_string()]);
            let body = &components[0].body;
            assert!(matches!(&body.children[0], GPMLNode::Expression(x) if x == "title"));
            assert_eq!(body.children[1].as_text(), Some("text"));
            assert_eq!(root.unwrap().tag, "root");
        }
        _ => panic!("not a document"),
    }
}

#[test]
fn nom_empty_input_is_empty_document() {
    let mut p = GPMLParser::new();
    let doc = p.parse("  \n ").unwrap();
    assert!(matches!(doc, GPMLNode::Document { root: None, .. }));
}
