use gpml::ast::{AttributeValue, Element, GPMLNode};
use gpml::elements::ElementProps;
use gpml::clipboard::{ClipboardIcon, ClipboardState};
use gpml::elements::{parse_color, ColorSpec};
use gpml::renderer::{ElementKind, GPMLRenderer, HeadingLevel};
use gpml::style::{FontWeightKind, Style};

#[test]
fn tags_select_renderers() {
    assert_eq!(GPMLRenderer::element_kind("div"), ElementKind::Div);
    assert_eq!(GPMLRenderer::element_kind("h3"), ElementKind::Heading(HeadingLevel::H3));
    assert_eq!(GPMLRenderer::element_kind("b"), ElementKind::Strong);
    assert_eq!(GPMLRenderer::element_kind("i"), ElementKind::Em);
    assert_eq!(GPMLRenderer::element_kind("a"), ElementKind::Link);
    assert_eq!(GPMLRenderer::element_kind("link"), ElementKind::Noop);
    assert_eq!(GPMLRenderer::element_kind("marquee"), ElementKind::Unknown);
}

#[test]
fn colors_by_name_and_hex() {
    assert_eq!(parse_color("red"), Some(ColorSpec::Red));
    assert_eq!(parse_color("grey"), Some(ColorSpec::Rgb(0x808080)));
    assert_eq!(parse_color("transparent"), Some(ColorSpec::Rgba(0)));
    assert_eq!(parse_color("#FF0000"), Some(ColorSpec::Rgba(0xFF0000FF)));
    assert_eq!(parse_color("#00ff0080"), Some(ColorSpec::Rgba(0x00FF0080)));
    assert_eq!(parse_color("#+f0000"), Some(ColorSpec::Rgba(0x0F0000FF)));
    assert_eq!(parse_color("#GG0000"), None);
    assert_eq!(parse_color("#123"), None);
    assert_eq!(parse_color("#ééé"), None);
    assert_eq!(parse_color("purple"), None);
}

#[test]
fn inline_styles() {
    let st = Style::from_inline(" Width : 10px; color: red ;; bad; COLOR: blue ");
    assert_eq!(st.get("width"), Some(&"10px".to_string()));
    assert_eq!(st.get("color"), Some(&"blue".to_string()));
    assert_eq!(st.get("bad"), None);
    assert_eq!(st.props.len(), 2);
}

#[test]
fn font_weight_sources() {
    let e = Element::new("p".to_string()).with_attribute("weight".to_string(), AttributeValue::Literal("bold".to_string()));
    assert_eq!(Style::font_weight(&e), Some(FontWeightKind::Bold));
    let e = Element::new("p".to_string())
        .with_attribute("style".to_string(), AttributeValue::Literal("font-weight: normal".to_string()));
    assert_eq!(Style::font_weight(&e), Some(FontWeightKind::Normal));
    let e = Element::new("p".to_string()).with_attribute("weight".to_string(), AttributeValue::Literal("heavy".to_string()));
    assert_eq!(Style::font_weight(&e), None);
    let e = Element::new("p".to_string())
        .with_attribute("style".to_string(), AttributeValue::Literal("background-color: #fff".to_string()));
    assert_eq!(
        Style::property_text(&e, "background", &vec!["background", "background-color"]),
        Some("#fff".to_string())
    );
}

#[test]
fn clipboard_button_cycle() {
    let mut st = ClipboardState::default();
    assert_eq!(st.icon(), ClipboardIcon::Copy);
    assert!(st.accepts_click());
    assert_eq!(st.click("value", None), Some("value".to_string()));
    assert_eq!(st.icon(), ClipboardIcon::Check);
    assert_eq!(st.click("value", Some("other".to_string())), None);
    st.reset();
    assert_eq!(st.click("value", Some("other".to_string())), Some("other".to_string()));
}

#[test]
fn element_attribute_reads() {
    let e = Element::new("button".to_string())
        .with_attribute("disabled".to_string(), AttributeValue::Literal("true".to_string()))
        .with_attribute("checked".to_string(), AttributeValue::Boolean(false))
        .with_child(GPMLNode::Text("Go".to_string()));
    assert!(ElementProps::flag(&e, "disabled"));
    assert!(!ElementProps::flag(&e, "checked"));
    assert!(!ElementProps::flag(&e, "missing"));
    assert_eq!(ElementProps::text_or_content(&e, "text"), "Go");
    assert_eq!(ElementProps::text_or_empty(&e, "href"), "");
    assert_eq!(ElementProps::input_label(&e), "[Input]");
    let i = Element::new("input".to_string())
        .with_attribute("placeholder".to_string(), AttributeValue::Literal("Name".to_string()));
    assert_eq!(ElementProps::input_label(&i), "[Name]");
    assert_eq!(ElementProps::textarea_label(&i), "[Textarea: Name]");
    let f = Element::new("flex".to_string()).with_attribute("dir".to_string(), AttributeValue::Literal("row".to_string()));
    assert!(ElementProps::flex_is_row(&f));
    assert!(!ElementProps::flex_is_row(&e));
    assert_eq!(ElementProps::quoted("hi"), "\"hi\"");
}
