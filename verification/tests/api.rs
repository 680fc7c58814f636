use gpml::ast::{AttributeValue, GPMLNode};
use gpml::canvas::GPMLCanvas;
use gpml::json_ui::canvas::JsonCanvas;
use gpml::json_ui::schema::{UiComponent, UiDocument, UiValue};
use gpml::parser::{extract_and_parse_xml_element, parse_component_def, parse_export};

#[test]
fn export_and_definition_rules() {
    let (rest, name) = parse_export("export Card rest").ok().unwrap();
    assert_eq!(name, "Card");
    assert_eq!(rest, " rest");
    let (rest, def) = parse_component_def("def Box(a, b) { <div /> }").ok().unwrap();
    assert_eq!(def.name, "Box");
    assert_eq!(def.parameters, vec!["a".to_string(), "b".to_string()]);
    assert_eq!(rest, "");
    assert!(parse_export("exports X").is_err());
}

#[test]
fn extracting_an_element_gives_byte_offset() {
    let (e, n) = extract_and_parse_xml_element("  <p>hi</p> tail").unwrap();
    assert_eq!(e.tag, "p");
    assert_eq!(n, 11);
    let input = "  <p>é</p>x";
    let (e, n) = extract_and_parse_xml_element(input).unwrap();
    assert_eq!(e.tag, "p");
    assert_eq!(n, 11);
    assert_eq!(&input[n..], "x");
}

#[test]
fn node_kinds() {
    let t = GPMLNode::Text("x".to_string());
    assert!(t.is_text());
    assert!(!t.is_element());
    assert_eq!(t.as_text(), Some("x"));
    assert!(t.as_element().is_none());
}

#[test]
fn value_accessors() {
    let a = UiValue::Array(vec![UiValue::Boolean(true)]);
    assert_eq!(a.as_array().map(|v| v.len()), Some(1));
    assert!(a.as_object().is_none());
    let o = UiValue::Object(vec![("k".to_string(), UiValue::String("v".to_string()))]);
    assert_eq!(o.as_object().map(|v| v[0].0.clone()), Some("k".to_string()));
    assert_eq!(UiValue::String("s".to_string()).as_string(), Some("s"));
    assert_eq!(UiValue::Boolean(false).as_bool(), Some(false));
}

#[test]
fn canvases_take_values() {
    let mut c = GPMLCanvas::new("a.gpml");
    c.add_variable("k".to_string(), AttributeValue::Literal("v".to_string()));
    assert_eq!(c.get_variables().get("k"), Some(&AttributeValue::Literal("v".to_string())));
    let mut j = JsonCanvas::new("main.json");
    assert_eq!(j.parser.base_path, "");
    let doc = UiDocument {
        schema: None,
        root: UiComponent { component_type: "row".to_string(), props: vec![], children: vec![], reference: None },
    };
    assert!(j.load_document(&doc, &vec![], 2).is_ok());
    assert_eq!(j.get_ui().map(|u| u.component_type.clone()), Some("row".to_string()));
}
