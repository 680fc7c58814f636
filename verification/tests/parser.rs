use gpml::ast::{AttributeValue, GPMLNode};
use gpml::parser::{parse_element, parse_element_hybrid, parse_import, GPMLParser};

#[test]
fn test_parse_simple_element() {
    let input = "<div></div>";
    let result = parse_element(input);
    assert!(result.is_ok());
    if let Ok((remaining, element)) = result {
        assert_eq!(element.tag, "div");
        assert_eq!(remaining, "");
    }
}

#[test]
fn test_parse_self_closing() {
    let input = r#"<input type="text" />"#;
    let result = parse_element(input);
    assert!(result.is_ok());
    if let Ok((remaining, element)) = result {
        assert_eq!(element.tag, "input");
        assert!(element.self_closing);
        assert_eq!(remaining, "");
    }
}

#[test]
fn test_parse_with_attributes() {
    let input = r#"<button class="primary">Click me</button>"#;
    let result = parse_element(input);
    assert!(result.is_ok());
}

#[test]
fn test_parse_import() {
    let input = "import ./Card.gpml as Card";
    let result = parse_import(input);
    assert!(result.is_ok());
    if let Ok((remaining, import)) = result {
        assert_eq!(import.path, "./Card.gpml");
        assert_eq!(import.alias, "Card");
        assert_eq!(remaining, "");
    }
}

#[test]
fn test_parse_document_just_import() {
    let input = "import ./Card.gpml as Card";
    let result = GPMLParser::parse_document(input);
    println!("Document parse result: {:?}", result);
    assert!(result.is_ok());
}

#[test]
fn test_parse_app_gpml() {
    let input = r#"import ./Card.gpml as Card

<root>
    <Card title="Card Title" content="This is the content of the card." />
</root>"#;
    let result = GPMLParser::parse_file(input);
    println!("Parse result: {:?}", result);
    assert!(result.is_ok());
}

#[test]
fn test_parse_card_gpml() {
    let input = r#"def Card(title, content) {
    <div>
        <h1>${title}</h1>
        <p>${content}</p>
    </div>
}

export Card"#;
    let result = GPMLParser::parse_file(input);
    println!("Card parse result: {:?}", result);
    assert!(result.is_ok());
}

#[test]
fn test_xml_parser_simple() {
    let xml = r#"<div class="container">Hello World</div>"#;
    let result = GPMLParser::parse_xml_element(xml);
    assert!(result.is_ok());
    if let Ok(element) = result {
        assert_eq!(element.tag, "div");
        assert_eq!(element.children.len(), 1);
        if let GPMLNode::Text(text) = &element.children[0] {
            assert_eq!(text, "Hello World");
        }
    }
}

#[test]
fn test_xml_parser_with_expressions() {
    let xml = r#"<div><h1>${title}</h1><p>${content}</p></div>"#;
    let result = GPMLParser::parse_xml_element(xml);
    assert!(result.is_ok());
    if let Ok(element) = result {
        assert_eq!(element.tag, "div");
        assert_eq!(element.children.len(), 2);

        if let GPMLNode::Element(h1) = &element.children[0] {
            assert_eq!(h1.tag, "h1");
            if let GPMLNode::Expression(expr) = &h1.children[0] {
                assert_eq!(expr, "title");
            }
        }
    }
}

#[test]
fn test_xml_parser_self_closing() {
    let xml = r#"<input type="text" value="${name}" />"#;
    let result = GPMLParser::parse_xml_element(xml);
    assert!(result.is_ok());
    if let Ok(element) = result {
        assert_eq!(element.tag, "input");
        assert!(element.self_closing);
        assert_eq!(element.children.len(), 0);

        if let Some(AttributeValue::Literal(type_val)) = element.get_attribute("type") {
            assert_eq!(type_val, "text");
        }
        if let Some(AttributeValue::Expression(expr)) = element.get_attribute("value") {
            assert_eq!(expr, "name");
        }
    }
}

#[test]
fn test_hybrid_parsing() {
    let input = r#"<root>
    <Card title="Test" content="Content" />
    <div style="color: red;">Text</div>
</root>"#;
    let result = parse_element_hybrid(input);
    assert!(result.is_ok());
    if let Ok((remaining, element)) = result {
        assert_eq!(element.tag, "root");
        assert_eq!(element.children.len(), 2);
        assert_eq!(remaining.trim(), "");
    }
}

#[test]
fn test_html_elements_parsing() {
    let semantic_input = r#"<article><section><h1>Title</h1><p>Content</p></section></article>"#;
    let result = GPMLParser::parse_xml_element(semantic_input);
    assert!(result.is_ok());
    if let Ok(element) = result {
        assert_eq!(element.tag, "article");
        assert_eq!(element.children.len(), 1);
    }

    let formatting_input = r#"<p>Text with <strong>bold</strong> and <em>italic</em> formatting</p>"#;
    let result = GPMLParser::parse_xml_element(formatting_input);
    assert!(result.is_ok());
    if let Ok(element) = result {
        assert_eq!(element.tag, "p");
        assert_eq!(element.children.len(), 5);
    }

    let list_input = r#"<ul><li>Item 1</li><li>Item 2</li></ul>"#;
    let result = GPMLParser::parse_xml_element(list_input);
    assert!(result.is_ok());
    if let Ok(element) = result {
        assert_eq!(element.tag, "ul");
        assert_eq!(element.children.len(), 2);
    }

    let table_input = r#"<table><thead><tr><th>Header</th></tr></thead><tbody><tr><td>Data</td></tr></tbody></table>"#;
    let result = GPMLParser::parse_xml_element(table_input);
    assert!(result.is_ok());
    if let Ok(element) = result {
        assert_eq!(element.tag, "table");
        assert_eq!(element.children.len(), 2);
    }

    let self_closing_input = r#"<br />"#;
    let result = GPMLParser::parse_xml_element(self_closing_input);
    assert!(result.is_ok());
    if let Ok(element) = result {
        assert_eq!(element.tag, "br");
        assert!(element.self_closing);
    }
}

#[test]
fn test_complete_html_document() {
    let html_doc = r##"<article>
    <header>
        <h1>Test Document</h1>
        <nav><a href="#section1">Section 1</a></nav>
    </header>
    <main>
        <section id="section1">
            <h2>Section Title</h2>
            <p>Paragraph with <strong>bold</strong> and <em>italic</em> text.</p>
            <ul>
                <li>List item 1</li>
                <li>List item 2</li>
            </ul>
            <blockquote>
                <p>A quoted paragraph.</p>
            </blockquote>
            <table>
                <tr><th>Header</th></tr>
                <tr><td>Data</td></tr>
            </table>
        </section>
    </main>
    <footer>
        <p><small>Footer content</small></p>
    </footer>
</article>"##;

    let result = GPMLParser::parse_xml_element(html_doc);
    assert!(result.is_ok());
    if let Ok(element) = result {
        assert_eq!(element.tag, "article");
        assert_eq!(element.children.len(), 3);
    }
}
