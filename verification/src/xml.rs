//! XML elements read with quick-xml and assembled into GPML elements.
use vstd::prelude::*;
use vstd::utf8::{valid_utf8, decode_utf8, encode_utf8};
use quick_xml::events::{BytesStart, Event};
use quick_xml::Reader;
use std::io::Cursor;
use crate::ast::{
    AttrView, AttrsView, Attributes, AttributeValue, Element, ElementView, GPMLNode, NodeView,
    attr_insert, attr_lookup, element_view, nodes_view, node_view,
};
use crate::text::{
    is_float_literal, starts_with, ends_with, trim, float_literal, has_prefix, has_suffix,
    trim_chars, chars_of, substring, string_of, str_eq, lemma_trim_idempotent,
};

verus! {

broadcast use vstd::std_specs::vec::axiom_vec_decreases_to_view;

#[verifier::external_type_specification]
#[verifier::external_body]
#[verifier::reject_recursive_types(R)]
pub struct ExXmlReader<R>(Reader<R>);

#[verifier::external_type_specification]
#[verifier::external_body]
#[verifier::reject_recursive_types(T)]
pub struct ExCursor<T>(Cursor<T>);

#[verifier::external_type_specification]
#[verifier::external_body]
pub struct ExBytesStart<'a>(BytesStart<'a>);

/// One event of quick-xml as the reader hands it out.
pub enum XmlStep {
    Start(BytesStart<'static>),
    Empty(BytesStart<'static>),
    End,
    Text(Vec<u8>),
    Other,
    Eof,
    Error(String),
}

/// An attribute as quick-xml reads it: raw key and value bytes, or the
/// message of the error that stopped it.
pub enum XmlAttr {
    Pair(Vec<u8>, Vec<u8>),
    Fault(String),
}

/// One event of quick-xml, with its parts copied out as plain values.
pub enum XmlToken {
    /// `<name attrs>`
    Start(Vec<u8>, Vec<XmlAttr>),
    /// `<name attrs/>`
    Empty(Vec<u8>, Vec<XmlAttr>),
    /// `</name>`
    End,
    /// Raw (escaped) text between tags.
    Text(Vec<u8>),
    /// Comments, CDATA, declarations, processing instructions, doctypes.
    Other,
    /// End of the document.
    Eof,
    /// The message of a reader error.
    Error(String),
}

pub enum XmlAttrView {
    Pair(Seq<u8>, Seq<u8>),
    Fault(Seq<char>),
}

pub enum XmlTokenView {
    Start(Seq<u8>, Seq<XmlAttrView>),
    Empty(Seq<u8>, Seq<XmlAttrView>),
    End,
    Text(Seq<u8>),
    Other,
    Eof,
    Error(Seq<char>),
}

impl View for XmlAttr {
    type V = XmlAttrView;

    open spec fn view(&self) -> XmlAttrView {
        match self {
            XmlAttr::Pair(k, v) => XmlAttrView::Pair(k@, v@),
            XmlAttr::Fault(m) => XmlAttrView::Fault(m@),
        }
    }
}

pub open spec fn xml_attrs_view(s: Seq<XmlAttr>) -> Seq<XmlAttrView> {
    s.map_values(|a: XmlAttr| a@)
}

impl View for XmlToken {
    type V = XmlTokenView;

    open spec fn view(&self) -> XmlTokenView {
        match self {
            XmlToken::Start(n, a) => XmlTokenView::Start(n@, xml_attrs_view(a@)),
            XmlToken::Empty(n, a) => XmlTokenView::Empty(n@, xml_attrs_view(a@)),
            XmlToken::End => XmlTokenView::End,
            XmlToken::Text(t) => XmlTokenView::Text(t@),
            XmlToken::Other => XmlTokenView::Other,
            XmlToken::Eof => XmlTokenView::Eof,
            XmlToken::Error(m) => XmlTokenView::Error(m@),
        }
    }
}

pub open spec fn is_final_token(t: XmlTokenView) -> bool {
    t is Eof || t is Error
}

/// A token sequence that ends with its first end-of-document or error.
pub open spec fn ends_once(s: Seq<XmlTokenView>) -> bool {
    &&& s.len() > 0
    &&& is_final_token(s[s.len() - 1])
    &&& forall|i: int| 0 <= i < s.len() - 1 ==> !is_final_token(#[trigger] s[i])
}

/// The events that quick-xml reads from `text` with text trimming on, up to
/// and including the end of the document or the first error.
pub uninterp spec fn xml_events(text: Seq<char>) -> Seq<XmlTokenView>;

/// The events that a quick-xml reader has yet to yield.
pub uninterp spec fn xml_pending(reader: Reader<Cursor<Vec<u8>>>) -> Seq<XmlTokenView>;

/// The message that `std::str::from_utf8` gives for invalid bytes.
pub uninterp spec fn utf8_error_text(bytes: Seq<u8>) -> Seq<char>;

pub type XmlReader = Reader<Cursor<Vec<u8>>>;

/// Creates a quick-xml reader over the bytes of `xml` (`Reader::from_reader`)
/// with leading and trailing text trimming on (`Config::trim_text`). What it
/// will yield is named by `xml_events`; the reader always ends with an
/// end-of-document event or an error.
#[verifier::external_body]
fn xml_reader(xml: &str) -> (r: XmlReader)
    ensures
        xml_pending(r) == xml_events(xml@),
        ends_once(xml_pending(r)),
{
    let mut reader = Reader::from_reader(Cursor::new(xml.as_bytes().to_vec()));
    reader.config_mut().trim_text(true);
    reader
}

/// The name and attributes that quick-xml reads from a start tag.
pub uninterp spec fn xml_start_tag(e: BytesStart<'static>) -> (Seq<u8>, Seq<XmlAttrView>);

pub open spec fn step_view(t: XmlStep) -> XmlTokenView {
    match t {
        XmlStep::Start(e) => XmlTokenView::Start(xml_start_tag(e).0, xml_start_tag(e).1),
        XmlStep::Empty(e) => XmlTokenView::Empty(xml_start_tag(e).0, xml_start_tag(e).1),
        XmlStep::End => XmlTokenView::End,
        XmlStep::Text(t) => XmlTokenView::Text(t@),
        XmlStep::Other => XmlTokenView::Other,
        XmlStep::Eof => XmlTokenView::Eof,
        XmlStep::Error(m) => XmlTokenView::Error(m@),
    }
}

/// Reads the next event (`Reader::read_event_into`): tags are handed out
/// whole, a text as its raw bytes, an error as its message.
#[verifier::external_body]
fn xml_read_step(reader: &mut XmlReader) -> (t: XmlStep)
    requires
        xml_pending(*old(reader)).len() > 0,
    ensures
        step_view(t) == xml_pending(*old(reader))[0],
        xml_pending(*final(reader)) == xml_pending(*old(reader)).drop_first(),
{
    match reader.read_event_into(&mut Vec::new()) {
        Ok(Event::Start(e)) => XmlStep::Start(e.into_owned()),
        Ok(Event::Empty(e)) => XmlStep::Empty(e.into_owned()),
        Ok(Event::End(_)) => XmlStep::End,
        Ok(Event::Text(e)) => XmlStep::Text(e.to_vec()),
        Ok(Event::Eof) => XmlStep::Eof,
        Ok(_) => XmlStep::Other,
        Err(e) => XmlStep::Error(e.to_string()),
    }
}

/// The name of a start tag (`BytesStart::name`) and its attributes
/// (`BytesStart::attributes`), each as raw key and value bytes or the
/// message of the error met.
#[verifier::external_body]
fn xml_tag_parts(e: &BytesStart<'static>) -> (r: (Vec<u8>, Vec<XmlAttr>))
    ensures
        (r.0@, xml_attrs_view(r.1@)) == xml_start_tag(*e),
{
    let attrs = e.attributes().map(|a| match a {
        Ok(a) => XmlAttr::Pair(a.key.as_ref().to_vec(), a.value.to_vec()),
        Err(err) => XmlAttr::Fault(err.to_string()),
    });
    (e.name().as_ref().to_vec(), attrs.collect())
}

/// Reads the next event and copies its parts out as plain values.
fn xml_read_token(reader: &mut XmlReader) -> (t: XmlToken)
    requires
        xml_pending(*old(reader)).len() > 0,
    ensures
        t@ == xml_pending(*old(reader))[0],
        xml_pending(*final(reader)) == xml_pending(*old(reader)).drop_first(),
{
    match xml_read_step(reader) {
        XmlStep::Start(e) => {
            let (n, a) = xml_tag_parts(&e);
            XmlToken::Start(n, a)
        },
        XmlStep::Empty(e) => {
            let (n, a) = xml_tag_parts(&e);
            XmlToken::Empty(n, a)
        },
        XmlStep::End => XmlToken::End,
        XmlStep::Text(t) => XmlToken::Text(t),
        XmlStep::Other => XmlToken::Other,
        XmlStep::Eof => XmlToken::Eof,
        XmlStep::Error(m) => XmlToken::Error(m),
    }
}

/// `std::str::from_utf8`: the decoded text when the bytes are valid UTF-8,
/// else the error's message.
#[verifier::external_body]
pub(crate) fn utf8_decode(bytes: &[u8]) -> (r: Result<String, String>)
    ensures
        r is Ok <==> valid_utf8(bytes@),
        r matches Ok(s) ==> s@ == decode_utf8(bytes@),
        r matches Err(m) ==> m@ == utf8_error_text(bytes@),
{
    match std::str::from_utf8(bytes) {
        Ok(s) => Ok(s.to_string()),
        Err(e) => Err(e.to_string()),
    }
}

/// `prefix` followed by `rest`, as a new string.
pub fn join_message(prefix: &str, rest: &str) -> (s: String)
    ensures
        s@ == prefix@ + rest@,
{
    let mut s = String::from_str(prefix);
    s.append(rest);
    s
}

/// Decoding `bytes`, or the message `prefix` + the decoding error.
pub open spec fn decode_or(bytes: Seq<u8>, prefix: Seq<char>) -> Result<Seq<char>, Seq<char>> {
    if valid_utf8(bytes) {
        Ok(decode_utf8(bytes))
    } else {
        Err(prefix + utf8_error_text(bytes))
    }
}

/// The attribute value that a raw value text stands for: `${x}` is an
/// expression, a float literal a number, `true`/`false` a boolean, anything
/// else a literal.
pub open spec fn value_of_text(v: Seq<char>) -> AttrView {
    if starts_with(v, seq!['$', '{']) && ends_with(v, seq!['}']) {
        AttrView::Expression(v.subrange(2, v.len() - 1))
    } else if is_float_literal(v) {
        AttrView::Number(v)
    } else if v == "true"@ {
        AttrView::Boolean(true)
    } else if v == "false"@ {
        AttrView::Boolean(false)
    } else {
        AttrView::Literal(v)
    }
}

/// The attributes of a start tag, added in order to `acc`.
pub open spec fn attrs_of(attrs: Seq<XmlAttrView>, acc: AttrsView) -> Result<AttrsView, Seq<char>>
    decreases attrs.len(),
{
    if attrs.len() == 0 {
        Ok(acc)
    } else {
        match attrs[0] {
            XmlAttrView::Fault(m) => Err("Attribute parse error: "@ + m),
            XmlAttrView::Pair(k, v) => match decode_or(k, "Invalid attribute key: "@) {
                Err(m) => Err(m),
                Ok(key) => match decode_or(v, "Invalid attribute value: "@) {
                    Err(m) => Err(m),
                    Ok(val) => attrs_of(attrs.drop_first(), attr_insert(acc, key, value_of_text(val))),
                },
            },
        }
    }
}

/// The element that a start tag opens, with no children yet.
pub open spec fn start_element(name: Seq<u8>, attrs: Seq<XmlAttrView>) -> Result<ElementView, Seq<char>> {
    match decode_or(name, "Invalid tag name: "@) {
        Err(m) => Err(m),
        Ok(tag) => match attrs_of(attrs, Seq::empty()) {
            Err(m) => Err(m),
            Ok(a) => Ok(ElementView { tag, attributes: a, children: Seq::empty(), self_closing: false }),
        },
    }
}

pub struct BuildState {
    pub stack: Seq<ElementView>,
    pub current: Option<ElementView>,
}

pub enum BuildStep {
    Continue(BuildState),
    Finish(Result<ElementView, Seq<char>>),
}

pub open spec fn add_child(e: ElementView, n: NodeView) -> ElementView {
    ElementView { children: e.children.push(n), ..e }
}

/// The node that a trimmed, non-empty text becomes.
pub open spec fn text_node(t: Seq<char>) -> NodeView {
    if starts_with(t, seq!['$', '{']) && ends_with(t, seq!['}']) {
        NodeView::Expression(t.subrange(2, t.len() - 1))
    } else {
        NodeView::Text(t)
    }
}

/// How one event changes the elements under construction.
pub open spec fn build_step(st: BuildState, t: XmlTokenView) -> BuildStep {
    match t {
        XmlTokenView::Start(n, a) => match start_element(n, a) {
            Err(m) => BuildStep::Finish(Err(m)),
            Ok(e) => BuildStep::Continue(
                BuildState {
                    stack: match st.current {
                        Some(p) => st.stack.push(p),
                        None => st.stack,
                    },
                    current: Some(e),
                },
            ),
        },
        XmlTokenView::Empty(n, a) => match start_element(n, a) {
            Err(m) => BuildStep::Finish(Err(m)),
            Ok(e0) => {
                let e = ElementView { self_closing: true, ..e0 };
                match st.current {
                    Some(p) => BuildStep::Continue(
                        BuildState { stack: st.stack, current: Some(add_child(p, NodeView::Element(e))) },
                    ),
                    None => if st.stack.len() == 0 {
                        BuildStep::Finish(Ok(e))
                    } else {
                        BuildStep::Finish(Err("Unexpected empty tag"@))
                    },
                }
            },
        },
        XmlTokenView::End => match st.current {
            Some(e) => if st.stack.len() > 0 {
                let p = st.stack[st.stack.len() - 1];
                BuildStep::Continue(
                    BuildState {
                        stack: st.stack.drop_last(),
                        current: Some(add_child(p, NodeView::Element(e))),
                    },
                )
            } else {
                BuildStep::Finish(Ok(e))
            },
            None => BuildStep::Continue(st),
        },
        XmlTokenView::Text(b) => match decode_or(b, "Text decode error: "@) {
            Err(m) => BuildStep::Finish(Err(m)),
            Ok(s) => {
                let t = trim(s);
                if t.len() > 0 && st.current is Some {
                    BuildStep::Continue(
                        BuildState { stack: st.stack, current: Some(add_child(st.current->0, text_node(t))) },
                    )
                } else {
                    BuildStep::Continue(st)
                }
            },
        },
        XmlTokenView::Other => BuildStep::Continue(st),
        XmlTokenView::Eof => BuildStep::Finish(
            match st.current {
                Some(e) => Ok(e),
                None => Err("No root element found"@),
            },
        ),
        XmlTokenView::Error(m) => BuildStep::Finish(Err("XML parse error: "@ + m)),
    }
}

/// The result of feeding `toks` to the builder in state `st`.
pub open spec fn build_from(st: BuildState, toks: Seq<XmlTokenView>) -> Result<ElementView, Seq<char>>
    decreases toks.len(),
{
    if toks.len() == 0 {
        match st.current {
            Some(e) => Ok(e),
            None => Err("No root element found"@),
        }
    } else {
        match build_step(st, toks[0]) {
            BuildStep::Continue(s2) => build_from(s2, toks.drop_first()),
            BuildStep::Finish(r) => r,
        }
    }
}

/// The element that `parse_xml_element` reads from `xml`, or its error.
pub open spec fn xml_element(xml: Seq<char>) -> Result<ElementView, Seq<char>> {
    build_from(BuildState { stack: Seq::empty(), current: None }, xml_events(xml))
}

pub open spec fn elements_view(s: Seq<Element>) -> Seq<ElementView> {
    s.map_values(|e: Element| element_view(e))
}

pub proof fn lemma_nodes_view_push(s: Seq<GPMLNode>, n: GPMLNode)
    ensures
        nodes_view(s.push(n)) == nodes_view(s).push(node_view(n)),
{
    assert(s.push(n).subrange(0, s.len() as int) =~= s);
}

/// Adds `child` as the last child of `e`.
fn push_child(e: &mut Element, child: GPMLNode)
    ensures
        final(e)@ == add_child(old(e)@, child@),
{
    let ghost old_children = e.children@;
    e.children.push(child);
    proof {
        lemma_nodes_view_push(old_children, child);
    }
}

/// The attribute value that a raw value text stands for.
pub fn parse_attribute_value_str(text: &str) -> (v: AttributeValue)
    ensures
        v@ == value_of_text(text@),
{
    let cs = chars_of(text);
    let open = ['$', '{'];
    let close = ['}'];
    if has_prefix(cs.as_slice(), &open) && has_suffix(cs.as_slice(), &close) {
        assert(open@ =~= seq!['$', '{']);
        assert(close@ =~= seq!['}']);
        let e = substring(cs.as_slice(), 2, cs.len() - 1);
        return AttributeValue::Expression(e);
    }
    assert(open@ =~= seq!['$', '{']);
    assert(close@ =~= seq!['}']);
    if float_literal(cs.as_slice()) {
        AttributeValue::Number(String::from_str(text))
    } else if str_eq(text, "true") {
        AttributeValue::Boolean(true)
    } else if str_eq(text, "false") {
        AttributeValue::Boolean(false)
    } else {
        AttributeValue::Literal(String::from_str(text))
    }
}

fn parse_xml_start_tag(name: &Vec<u8>, attrs: &Vec<XmlAttr>) -> (r: Result<Element, String>)
    ensures
        match r {
            Ok(e) => start_element(name@, xml_attrs_view(attrs@)) == Ok::<ElementView, Seq<char>>(e@),
            Err(m) => start_element(name@, xml_attrs_view(attrs@)) == Err::<ElementView, Seq<char>>(m@),
        },
{
    let tag = match utf8_decode(name.as_slice()) {
        Ok(s) => s,
        Err(m) => {
            return Err(join_message("Invalid tag name: ", m.as_str()));
        },
    };
    let mut attributes = Attributes::new();
    let mut i: usize = 0;
    assert(xml_attrs_view(attrs@).subrange(0, attrs@.len() as int) =~= xml_attrs_view(attrs@));
    while i < attrs.len()
        invariant
            i <= attrs@.len(),
            decode_or(name@, "Invalid tag name: "@) == Ok::<Seq<char>, Seq<char>>(tag@),
            attrs_of(xml_attrs_view(attrs@), Seq::empty()) == attrs_of(
                xml_attrs_view(attrs@).subrange(i as int, attrs@.len() as int),
                attributes@,
            ),
        decreases attrs@.len() - i,
    {
        let ghost rest = xml_attrs_view(attrs@).subrange(i as int, attrs@.len() as int);
        assert(rest.len() > 0);
        assert(rest[0] == attrs@[i as int]@);
        assert(rest.drop_first() =~= xml_attrs_view(attrs@).subrange(i + 1, attrs@.len() as int));
        match &attrs[i] {
            XmlAttr::Fault(m) => {
                assert(attrs_of(rest, attributes@) == Err::<AttrsView, Seq<char>>(
                    "Attribute parse error: "@ + m@));
                return Err(join_message("Attribute parse error: ", m.as_str()));
            },
            XmlAttr::Pair(k, v) => {
                let key = match utf8_decode(k.as_slice()) {
                    Ok(s) => s,
                    Err(m) => {
                        assert(attrs_of(rest, attributes@) == Err::<AttrsView, Seq<char>>(
                            "Invalid attribute key: "@ + m@));
                        return Err(join_message("Invalid attribute key: ", m.as_str()));
                    },
                };
                let val = match utf8_decode(v.as_slice()) {
                    Ok(s) => s,
                    Err(m) => {
                        return Err(join_message("Invalid attribute value: ", m.as_str()));
                    },
                };
                let value = parse_attribute_value_str(val.as_str());
                attributes.insert(key, value);
            },
        }
        i = i + 1;
    }
    assert(xml_attrs_view(attrs@).subrange(i as int, attrs@.len() as int).len() == 0);
    Ok(Element { tag, attributes, children: Vec::new(), self_closing: false })
}

/// The node that a text becomes: `${x}` an expression, else text.
fn text_node_of(t: Vec<char>) -> (n: GPMLNode)
    ensures
        n@ == text_node(t@),
{
    let open = ['$', '{'];
    let close = ['}'];
    assert(open@ =~= seq!['$', '{']);
    assert(close@ =~= seq!['}']);
    if has_prefix(t.as_slice(), &open) && has_suffix(t.as_slice(), &close) {
        GPMLNode::Expression(substring(t.as_slice(), 2, t.len() - 1))
    } else {
        GPMLNode::Text(string_of(t.as_slice()))
    }
}

pub open spec fn state_view(stack: Seq<Element>, current: Option<Element>) -> BuildState {
    BuildState {
        stack: elements_view(stack),
        current: match current {
            Some(e) => Some(element_view(e)),
            None => None,
        },
    }
}

/// The element that a sequence of events builds from nothing, or its error.
pub open spec fn built(toks: Seq<XmlTokenView>) -> Result<ElementView, Seq<char>> {
    build_from(BuildState { stack: Seq::empty(), current: None }, toks)
}

/// The tokens as values.
pub open spec fn tokens_view(s: Seq<XmlToken>) -> Seq<XmlTokenView> {
    s.map_values(|t: XmlToken| t@)
}

/// Builds the element that a sequence of XML events describes: start tags
/// open elements, end tags close them into their parents, non-empty trimmed
/// text becomes a text or `${..}` expression child; the first end of the
/// root, end of document or error decides the result.
pub fn build_element(tokens: &Vec<XmlToken>) -> (r: Result<Element, String>)
    ensures
        r matches Ok(e) ==> built(tokens_view(tokens@)) == Ok::<ElementView, Seq<char>>(e@),
        r matches Err(m) ==> built(tokens_view(tokens@)) == Err::<ElementView, Seq<char>>(m@),
{
    let ghost all = tokens_view(tokens@);
    let ghost whole = built(all);
    let mut stack: Vec<Element> = Vec::new();
    let mut current: Option<Element> = None;
    assert(state_view(stack@, current) == BuildState { stack: Seq::empty(), current: None }) by {
        assert(elements_view(stack@) =~= Seq::<ElementView>::empty());
    }
    assert(all.subrange(0, all.len() as int) =~= all);
    let mut i: usize = 0;
    while i < tokens.len()
        invariant
            i <= tokens@.len(),
            all == tokens_view(tokens@),
            whole == built(all),
            build_from(state_view(stack@, current), all.subrange(i as int, all.len() as int)) == whole,
        decreases tokens@.len() - i,
    {
        let ghost st = state_view(stack@, current);
        let ghost rest = all.subrange(i as int, all.len() as int);
        assert(rest[0] == tokens@[i as int]@);
        assert(rest.drop_first() =~= all.subrange(i + 1, all.len() as int));
        assert(build_from(st, rest) == match build_step(st, tokens@[i as int]@) {
            BuildStep::Continue(s2) => build_from(s2, all.subrange(i + 1, all.len() as int)),
            BuildStep::Finish(r) => r,
        });
        let tok = &tokens[i];
        assert(tok@ == rest[0]);
        assert(build_from(st, rest) == whole);
        match tok {
            XmlToken::Start(name, attrs) => {
                let element = match parse_xml_start_tag(name, attrs) {
                    Ok(e) => e,
                    Err(m) => {
                        return Err(m);
                    },
                };
                match current {
                    Some(p) => {
                        let ghost sv = stack@;
                        stack.push(p);
                        assert(elements_view(stack@) =~= elements_view(sv).push(element_view(p)));
                    },
                    None => {},
                }
                current = Some(element);
            },
            XmlToken::Empty(name, attrs) => {
                let mut element = match parse_xml_start_tag(name, attrs) {
                    Ok(e) => e,
                    Err(m) => {
                        return Err(m);
                    },
                };
                element.self_closing = true;
                match current {
                    Some(mut p) => {
                        push_child(&mut p, GPMLNode::Element(element));
                        current = Some(p);
                    },
                    None => {
                        if stack.len() == 0 {
                            return Ok(element);
                        } else {
                            return Err(String::from_str("Unexpected empty tag"));
                        }
                    },
                }
            },
            XmlToken::End => {
                match current {
                    Some(e) => {
                        let ghost sv = stack@;
                        match stack.pop() {
                            Some(mut p) => {
                                assert(stack@ =~= sv.drop_last());
                                assert(elements_view(stack@) =~= elements_view(sv).drop_last());
                                push_child(&mut p, GPMLNode::Element(e));
                                current = Some(p);
                            },
                            None => {
                                return Ok(e);
                            },
                        }
                    },
                    None => {
                        current = None;
                    },
                }
            },
            XmlToken::Text(bytes) => {
                let s = match utf8_decode(bytes.as_slice()) {
                    Ok(s) => s,
                    Err(m) => {
                        return Err(join_message("Text decode error: ", m.as_str()));
                    },
                };
                let cs = chars_of(s.as_str());
                let t = trim_chars(cs.as_slice());
                if t.len() > 0 {
                    match current {
                        Some(mut p) => {
                            push_child(&mut p, text_node_of(t));
                            current = Some(p);
                        },
                        None => {},
                    }
                }
            },
            XmlToken::Other => {},
            XmlToken::Eof => {
                return match current {
                    Some(e) => Ok(e),
                    None => Err(String::from_str("No root element found")),
                };
            },
            XmlToken::Error(m) => {
                return Err(join_message("XML parse error: ", m.as_str()));
            },
        }
        i = i + 1;
    }
    assert(all.subrange(i as int, all.len() as int) =~= Seq::<XmlTokenView>::empty());
    match current {
        Some(e) => Ok(e),
        None => Err(String::from_str("No root element found")),
    }
}

/// Reads `xml` with quick-xml and builds the element it holds (see
/// `build_element`).
pub fn parse_xml_element(xml: &str) -> (r: Result<Element, String>)
    ensures
        match r {
            Ok(e) => xml_element(xml@) == Ok::<ElementView, Seq<char>>(e@),
            Err(m) => xml_element(xml@) == Err::<ElementView, Seq<char>>(m@),
        },
{
    let mut reader = xml_reader(xml);
    let ghost events = xml_events(xml@);
    let mut toks: Vec<XmlToken> = Vec::new();
    assert(tokens_view(toks@) + xml_pending(reader) =~= events);
    loop
        invariant_except_break
            ends_once(xml_pending(reader)),
        invariant
            tokens_view(toks@) + xml_pending(reader) == events,
        ensures
            tokens_view(toks@) == events,
        decreases xml_pending(reader).len(),
    {
        let ghost pending = xml_pending(reader);
        let ghost before = toks@;
        let tok = xml_read_token(&mut reader);
        let fin = match tok {
            XmlToken::Eof => true,
            XmlToken::Error(_) => true,
            _ => false,
        };
        toks.push(tok);
        assert(tokens_view(toks@) =~= tokens_view(before).push(pending[0]));
        assert(tokens_view(toks@) + xml_pending(reader) =~= tokens_view(before) + pending) by {
            assert(pending =~= seq![pending[0]] + pending.drop_first());
        }
        if fin {
            proof {
                assert(is_final_token(pending[0]));
                if pending.len() > 1 {
                    assert(!is_final_token(pending[0]));
                }
                assert(xml_pending(reader).len() == 0);
                assert(tokens_view(toks@) =~= tokens_view(toks@) + xml_pending(reader));
            }
            break;
        }
        proof {
            assert(pending.len() > 1);
            assert(ends_once(xml_pending(reader))) by {
                assert forall|i: int| 0 <= i < xml_pending(reader).len() - 1 implies !is_final_token(
                    #[trigger] xml_pending(reader)[i],
                ) by {
                    assert(xml_pending(reader)[i] == pending[i + 1]);
                }
            }
        }
    }
    build_element(&toks)
}


/// Every text under `e` is non-empty and has no whitespace at either end.
pub open spec fn texts_trimmed(e: ElementView) -> bool
    decreases e, 1nat,
{
    nodes_trimmed(e.children)
}

pub open spec fn nodes_trimmed(s: Seq<NodeView>) -> bool
    decreases s, s.len(),
{
    if s.len() == 0 {
        true
    } else {
        nodes_trimmed(s.subrange(0, s.len() - 1)) && node_trimmed(s[s.len() - 1])
    }
}

pub open spec fn node_trimmed(n: NodeView) -> bool
    decreases n, 0nat,
{
    match n {
        NodeView::Text(t) => t.len() > 0 && trim(t) == t,
        NodeView::Element(e) => texts_trimmed(e),
        _ => true,
    }
}

/// Every element under construction has only trimmed, non-empty texts.
pub open spec fn state_trimmed(st: BuildState) -> bool {
    &&& forall|i: int| 0 <= i < st.stack.len() ==> texts_trimmed(#[trigger] st.stack[i])
    &&& st.current matches Some(e) ==> texts_trimmed(e)
}

proof fn lemma_add_child_trimmed(e: ElementView, n: NodeView)
    requires
        texts_trimmed(e),
        node_trimmed(n),
    ensures
        texts_trimmed(add_child(e, n)),
{
    let c = e.children.push(n);
    assert(c.subrange(0, c.len() - 1) =~= e.children);
}

proof fn lemma_fresh_trimmed(e: ElementView)
    requires
        e.children.len() == 0,
    ensures
        texts_trimmed(e),
{
}

proof fn lemma_build_step_trimmed(st: BuildState, t: XmlTokenView)
    requires
        state_trimmed(st),
    ensures
        match build_step(st, t) {
            BuildStep::Continue(s2) => state_trimmed(s2),
            BuildStep::Finish(Ok(e)) => texts_trimmed(e),
            BuildStep::Finish(Err(_)) => true,
        },
{
    match t {
        XmlTokenView::Start(n, a) => {
            if let Ok(e) = start_element(n, a) {
                lemma_fresh_trimmed(e);
                let s2 = match st.current {
                    Some(p) => st.stack.push(p),
                    None => st.stack,
                };
                assert forall|i: int| 0 <= i < s2.len() implies texts_trimmed(#[trigger] s2[i]) by {
                    if i < st.stack.len() {
                        assert(s2[i] == st.stack[i]);
                    }
                }
            }
        },
        XmlTokenView::Empty(n, a) => {
            if let Ok(e0) = start_element(n, a) {
                let e = ElementView { self_closing: true, ..e0 };
                lemma_fresh_trimmed(e);
                if let Some(p) = st.current {
                    lemma_add_child_trimmed(p, NodeView::Element(e));
                }
            }
        },
        XmlTokenView::End => {
            if let Some(e) = st.current {
                if st.stack.len() > 0 {
                    let p = st.stack[st.stack.len() - 1];
                    lemma_add_child_trimmed(p, NodeView::Element(e));
                    let s2 = st.stack.drop_last();
                    assert forall|i: int| 0 <= i < s2.len() implies texts_trimmed(#[trigger] s2[i]) by {
                        assert(s2[i] == st.stack[i]);
                    }
                }
            }
        },
        XmlTokenView::Text(b) => {
            if let Ok(s) = decode_or(b, "Text decode error: "@) {
                let tt = trim(s);
                if tt.len() > 0 && st.current is Some {
                    lemma_trim_idempotent(s);
                    lemma_add_child_trimmed(st.current->0, text_node(tt));
                }
            }
        },
        _ => {},
    }
}

proof fn lemma_build_from_trimmed(st: BuildState, toks: Seq<XmlTokenView>)
    requires
        state_trimmed(st),
    ensures
        build_from(st, toks) matches Ok(e) ==> texts_trimmed(e),
    decreases toks.len(),
{
    if toks.len() > 0 {
        lemma_build_step_trimmed(st, toks[0]);
        if let BuildStep::Continue(s2) = build_step(st, toks[0]) {
            lemma_build_from_trimmed(s2, toks.drop_first());
        }
    }
}

/// Whatever the XML events, every text in the element built from them is
/// non-empty and trimmed: whitespace-only text gives no node.
pub proof fn law_built_texts_trimmed(toks: Seq<XmlTokenView>)
    ensures
        built(toks) matches Ok(e) ==> texts_trimmed(e),
{
    lemma_build_from_trimmed(BuildState { stack: Seq::empty(), current: None }, toks);
}

/// Every text in the element read from any XML text is non-empty and
/// trimmed: whitespace-only text between tags gives no node.
pub proof fn law_xml_texts_trimmed(xml: Seq<char>)
    ensures
        xml_element(xml) matches Ok(e) ==> texts_trimmed(e),
{
    law_built_texts_trimmed(xml_events(xml));
}


/// An attribute value written `${x}` is the expression `x`, whatever `x` is.
pub proof fn law_placeholder_value_is_expression(x: Seq<char>)
    ensures
        value_of_text(seq!['$', '{'] + x + seq!['}']) == AttrView::Expression(x),
{
    let v = seq!['$', '{'] + x + seq!['}'];
    assert(v.subrange(0, 2) =~= seq!['$', '{']);
    assert(v.subrange(v.len() - 1, v.len() as int) =~= seq!['}']);
    assert(v.subrange(2, v.len() - 1) =~= x);
}

/// A start tag `<t a="${x}">` opens an element named `t` whose attribute
/// `a` is the expression `x`: the placeholder is kept for interpolation.
pub proof fn law_start_tag_placeholder(t: Seq<char>, a: Seq<char>, x: Seq<char>)
    ensures
        start_element(
            encode_utf8(t),
            seq![XmlAttrView::Pair(encode_utf8(a), encode_utf8(seq!['$', '{'] + x + seq!['}']))],
        ) matches Ok(e) && e.tag == t && attr_lookup(e.attributes, a) == Some(AttrView::Expression(x)),
{
    let v = seq!['$', '{'] + x + seq!['}'];
    vstd::utf8::encode_utf8_valid_utf8(t);
    vstd::utf8::encode_utf8_valid_utf8(a);
    vstd::utf8::encode_utf8_valid_utf8(v);
    vstd::utf8::encode_utf8_decode_utf8(t);
    vstd::utf8::encode_utf8_decode_utf8(a);
    vstd::utf8::encode_utf8_decode_utf8(v);
    law_placeholder_value_is_expression(x);
    let attrs = seq![XmlAttrView::Pair(encode_utf8(a), encode_utf8(v))];
    let one = attr_insert(Seq::empty(), a, AttrView::Expression(x));
    assert(attrs.drop_first() =~= Seq::<XmlAttrView>::empty());
    assert(decode_or(encode_utf8(a), "Invalid attribute key: "@) == Ok::<Seq<char>, Seq<char>>(a));
    assert(decode_or(encode_utf8(v), "Invalid attribute value: "@) == Ok::<Seq<char>, Seq<char>>(v));
    assert(decode_or(encode_utf8(t), "Invalid tag name: "@) == Ok::<Seq<char>, Seq<char>>(t));
    assert(attrs[0] == XmlAttrView::Pair(encode_utf8(a), encode_utf8(v)));
    assert(attrs_of(attrs.drop_first(), one) == Ok::<AttrsView, Seq<char>>(one));
    assert(attrs_of(attrs, Seq::empty()) == Ok::<AttrsView, Seq<char>>(one));
    crate::ast::lemma_attr_insert_lookup(Seq::empty(), a, AttrView::Expression(x), a);
}

} // verus!
