use gpml::ast::{AttributeValue, GPMLNode};
use gpml::button::ButtonState;
use gpml::parser::GPMLParser;
use gpml::style::Style;
use gpml::xml::{build_element, XmlAttr, XmlToken};

#[test]
fn button_click_and_hover_rules() {
    let normal = ButtonState { disabled: false, loading: false, selected: false };
    assert!(normal.accepts_click(true));
    assert!(!normal.accepts_click(false));
    assert!(normal.reacts_to_hover());
    let disabled = ButtonState { disabled: true, loading: false, selected: false };
    assert!(!disabled.accepts_click(true));
    assert!(!disabled.reacts_to_hover());
    let loading = ButtonState { disabled: false, loading: true, selected: true };
    assert!(!loading.accepts_click(true));
    assert!(!loading.reacts_to_hover());
    assert!(loading.shows_indicator());
    assert!(loading.faded());
    assert!(!ButtonState { disabled: true, loading: true, selected: false }.faded());
}

#[test]
fn build_element_from_tokens() {
    let tokens = vec![
        XmlToken::Start(b"div".to_vec(), vec![XmlAttr::Pair(b"id".to_vec(), b"x".to_vec())]),
        XmlToken::Text(b"  hi  ".to_vec()),
        XmlToken::Text(b"   ".to_vec()),
        XmlToken::Empty(b"br".to_vec(), vec![]),
        XmlToken::Text(b"${name}".to_vec()),
        XmlToken::End,
        XmlToken::Eof,
    ];
    let e = build_element(&tokens).unwrap();
    assert_eq!(e.tag, "div");
    assert_eq!(e.children.len(), 3);
    assert!(matches!(&e.children[0], GPMLNode::Text(t) if t == "hi"));
    assert!(matches!(&e.children[1], GPMLNode::Element(b) if b.tag == "br" && b.self_closing));
    assert!(matches!(&e.children[2], GPMLNode::Expression(x) if x == "name"));
}

#[test]
fn build_element_errors() {
    assert_eq!(build_element(&vec![XmlToken::Eof]).err(), Some("No root element found".to_string()));
    assert_eq!(
        build_element(&vec![XmlToken::Error("bad".to_string())]).err(),
        Some("XML parse error: bad".to_string())
    );
    assert_eq!(build_element(&vec![]).err(), Some("No root element found".to_string()));
}

#[test]
fn style_insert_sets_in_place() {
    let mut s = Style::from_inline("color: red; width: 10px");
    s.insert("color".to_string(), "blue".to_string());
    s.insert("margin".to_string(), "0".to_string());
    assert_eq!(s.get("color"), Some(&"blue".to_string()));
    assert_eq!(s.get("margin"), Some(&"0".to_string()));
    assert_eq!(s.get("width"), Some(&"10px".to_string()));
}

#[test]
fn comments_leave_the_parse_unchanged() {
    let with = GPMLParser::parse_file("<!-- hi --><div></div>").unwrap();
    match with {
        GPMLNode::Document { imports, components, root } => {
            assert!(imports.is_empty() && components.is_empty());
            assert_eq!(root.unwrap().tag, "div");
        }
        _ => panic!("expected a document"),
    }
    let a = GPMLParser::parse_file("<root><p>x</p><!-- note --></root>").unwrap();
    let b = GPMLParser::parse_file("<root><p>x</p></root>").unwrap();
    assert_eq!(format!("{:?}", a), format!("{:?}", b));
}

#[test]
fn whitespace_only_text_gives_no_node() {
    let e = GPMLParser::parse_xml_element("<article>\n  <header>h</header>\n  <main>  m  </main>\n  <footer/>\n</article>").unwrap();
    assert_eq!(e.children.len(), 3);
    match &e.children[1] {
        GPMLNode::Element(m) => assert!(matches!(&m.children[0], GPMLNode::Text(t) if t == "m")),
        _ => panic!("expected an element"),
    }
}

#[test]
fn numbers_are_shown_as_f64_display_writes_them() {
    let show = |t: &str| AttributeValue::Number(t.to_string()).as_string();
    assert_eq!(show("10.0"), "10");
    assert_eq!(show("1e3"), "1000");
    assert_eq!(show("0.50"), "0.5");
    assert_eq!(show("-0.0"), "-0");
    assert_eq!(show(".5"), "0.5");
    assert_eq!(show("5."), "5");
    assert_eq!(show("+7"), "7");
    assert_eq!(show("007.250"), "7.25");
    assert_eq!(show("1.5e-3"), "0.0015");
    assert_eq!(show("-12.5"), "-12.5");
    assert_eq!(show("123E2"), "12300");
    assert_eq!(show("NaN"), "NaN");
    assert_eq!(show("-inf"), "-inf");
    assert_eq!(show("Infinity"), "inf");
    // Each agrees with f64's own formatting.
    assert_eq!(show("1e400"), "inf");
    assert_eq!(show("-2e309"), "-inf");
    assert_eq!(show("1e-400"), "0");
    assert_eq!(show("-1e-330"), "-0");
    for t in [
        "10.0", "1e3", "0.50", "-0.0", ".5", "1.5e-3", "-12.5", "123E2", "1e-7", "4.2e20", "1e400", "-2e309",
        "1e-400", "-1e-330", "123456789012345678e300", "1.5e-307", "9.99e307",
    ] {
        assert_eq!(show(t), format!("{}", t.parse::<f64>().unwrap()));
    }
    // More than 15 significant digits: kept as written.
    assert_eq!(show("12345678901234567"), "12345678901234567");
}
