//! The GPML syntax tree and its mathematical model.
use vstd::prelude::*;
use crate::text::{str_eq, chars_of, string_of, number_text, number_text_of};

verus! {

broadcast use vstd::std_specs::vec::axiom_vec_decreases_to_view;

/// An attribute value: a literal, an expression, a number or a boolean.
/// A number keeps the text it was written with; that text is a literal that
/// `str::parse::<f64>` accepts.
#[derive(Debug, Clone, PartialEq)]
pub enum AttributeValue {
    /// String literal: "value"
    Literal(String),
    /// Expression: ${expression}
    Expression(String),
    /// Number literal, as written
    Number(String),
    /// Boolean literal
    Boolean(bool),
}

/// The model of an attribute value.
pub enum AttrView {
    Literal(Seq<char>),
    Expression(Seq<char>),
    Number(Seq<char>),
    Boolean(bool),
}

impl View for AttributeValue {
    type V = AttrView;

    open spec fn view(&self) -> AttrView {
        match self {
            AttributeValue::Literal(s) => AttrView::Literal(s@),
            AttributeValue::Expression(s) => AttrView::Expression(s@),
            AttributeValue::Number(s) => AttrView::Number(s@),
            AttributeValue::Boolean(b) => AttrView::Boolean(*b),
        }
    }
}

pub open spec fn bool_text(b: bool) -> Seq<char> {
    if b {
        "true"@
    } else {
        "false"@
    }
}

/// The text of an attribute value: an expression is shown as `${expr}`, a
/// number as `number_text` writes it.
pub open spec fn attr_text(v: AttrView) -> Seq<char> {
    match v {
        AttrView::Literal(s) => s,
        AttrView::Expression(e) => seq!['$', '{'] + e + seq!['}'],
        AttrView::Number(n) => number_text(n),
        AttrView::Boolean(b) => bool_text(b),
    }
}

/// `str::parse::<bool>`.
pub open spec fn parse_bool_text(s: Seq<char>) -> Option<bool> {
    if s == "true"@ {
        Some(true)
    } else if s == "false"@ {
        Some(false)
    } else {
        None
    }
}

pub fn bool_string(b: bool) -> (s: String)
    ensures
        s@ == bool_text(b),
{
    if b {
        String::from_str("true")
    } else {
        String::from_str("false")
    }
}

impl AttributeValue {
    /// A copy of the value.
    pub fn duplicate(&self) -> (r: Self)
        ensures
            r@ == self@,
    {
        match self {
            AttributeValue::Literal(s) => AttributeValue::Literal(s.clone()),
            AttributeValue::Expression(s) => AttributeValue::Expression(s.clone()),
            AttributeValue::Number(s) => AttributeValue::Number(s.clone()),
            AttributeValue::Boolean(b) => AttributeValue::Boolean(*b),
        }
    }

    pub fn as_string(&self) -> (s: String)
        ensures
            s@ == attr_text(self@),
    {
        match self {
            AttributeValue::Literal(s) => s.clone(),
            AttributeValue::Expression(expr) => {
                let mut s = String::from_str("${");
                s.append(expr.as_str());
                s.append("}");
                proof {
                    reveal_strlit("${");
                    reveal_strlit("}");
                }
                assert(s@ =~= seq!['$', '{'] + expr@ + seq!['}']);
                s
            },
            AttributeValue::Number(n) => {
                let cs = chars_of(n.as_str());
                let t = number_text_of(cs.as_slice());
                string_of(t.as_slice())
            },
            AttributeValue::Boolean(b) => bool_string(*b),
        }
    }

    pub fn as_bool(&self) -> (r: Option<bool>)
        ensures
            r == match self@ {
                AttrView::Boolean(b) => Some(b),
                AttrView::Literal(s) => parse_bool_text(s),
                _ => None,
            },
    {
        match self {
            AttributeValue::Boolean(b) => Some(*b),
            AttributeValue::Literal(s) => {
                if str_eq(s.as_str(), "true") {
                    Some(true)
                } else if str_eq(s.as_str(), "false") {
                    Some(false)
                } else {
                    None
                }
            },
            _ => None,
        }
    }
}

/// Attributes in the order they were first set; setting a name again
/// replaces its value.
#[derive(Debug, Clone, PartialEq)]
pub struct Attributes {
    pub entries: Vec<(String, AttributeValue)>,
}

pub type AttrsView = Seq<(Seq<char>, AttrView)>;

pub open spec fn attrs_view(entries: Seq<(String, AttributeValue)>) -> AttrsView {
    entries.map_values(|p: (String, AttributeValue)| (p.0@, p.1@))
}

impl View for Attributes {
    type V = AttrsView;

    open spec fn view(&self) -> AttrsView {
        attrs_view(self.entries@)
    }
}

/// The index of the first entry named `key` at or after `i`.
pub open spec fn attr_index_from(a: AttrsView, key: Seq<char>, i: int) -> Option<int>
    decreases a.len() - i,
{
    if i < 0 || i >= a.len() {
        None
    } else if a[i].0 == key {
        Some(i)
    } else {
        attr_index_from(a, key, i + 1)
    }
}

pub open spec fn attr_index(a: AttrsView, key: Seq<char>) -> Option<int> {
    attr_index_from(a, key, 0)
}

/// The value set for `key`.
pub open spec fn attr_lookup(a: AttrsView, key: Seq<char>) -> Option<AttrView> {
    match attr_index(a, key) {
        Some(i) => Some(a[i].1),
        None => None,
    }
}

/// Setting `key` to `v`: the entry named `key` is updated in place, or a new
/// entry is added at the end.
pub open spec fn attr_insert(a: AttrsView, key: Seq<char>, v: AttrView) -> AttrsView {
    match attr_index(a, key) {
        Some(i) => a.update(i, (key, v)),
        None => a.push((key, v)),
    }
}

pub proof fn lemma_attr_index_from(a: AttrsView, key: Seq<char>, i: int)
    requires
        0 <= i,
    ensures
        attr_index_from(a, key, i) matches Some(k) ==> i <= k < a.len() && a[k].0 == key && forall|
            j: int,
        | i <= j < k ==> a[j].0 != key,
        attr_index_from(a, key, i) is None ==> forall|j: int| i <= j < a.len() ==> a[j].0 != key,
    decreases a.len() - i,
{
    if i < a.len() && a[i].0 != key {
        lemma_attr_index_from(a, key, i + 1);
    }
}

/// Reading a name back after setting it gives the value set; other names
/// keep their values.
pub proof fn lemma_attr_insert_lookup(a: AttrsView, key: Seq<char>, v: AttrView, other: Seq<char>)
    ensures
        attr_lookup(attr_insert(a, key, v), key) == Some(v),
        other != key ==> attr_lookup(attr_insert(a, key, v), other) == attr_lookup(a, other),
{
    let b = attr_insert(a, key, v);
    lemma_attr_index_from(a, key, 0);
    lemma_attr_index_from(b, key, 0);
    lemma_attr_index_from(a, other, 0);
    lemma_attr_index_from(b, other, 0);
    match attr_index(a, key) {
        Some(i) => {
            assert(b[i].0 == key);
            if attr_index(b, key) != Some(i) {
                assert(false);
            }
            if other != key {
                match attr_index(a, other) {
                    Some(k) => {
                        assert(b[k].0 == other);
                        if attr_index(b, other) != Some(k) {
                            assert(false);
                        }
                    },
                    None => {
                        assert(forall|j: int| 0 <= j < b.len() ==> b[j].0 != other);
                    },
                }
            }
        },
        None => {
            let n = a.len() as int;
            assert(b[n].0 == key);
            if attr_index(b, key) != Some(n) {
                assert(false);
            }
            if other != key {
                match attr_index(a, other) {
                    Some(k) => {
                        assert(b[k] == a[k]);
                        if attr_index(b, other) != Some(k) {
                            assert(false);
                        }
                    },
                    None => {
                        assert(forall|j: int| 0 <= j < b.len() ==> b[j].0 != other);
                    },
                }
            }
        },
    }
}

impl Attributes {
    pub fn new() -> (r: Self)
        ensures
            r@ == Seq::<(Seq<char>, AttrView)>::empty(),
    {
        Attributes { entries: Vec::new() }
    }

    pub fn len(&self) -> (n: usize)
        ensures
            n == self@.len(),
    {
        self.entries.len()
    }

    fn find_index(&self, key: &str) -> (r: Option<usize>)
        ensures
            r matches Some(i) ==> attr_index(self@, key@) == Some(i as int) && i < self@.len()
                && self.entries@.len() == self@.len(),
            r is None ==> attr_index(self@, key@) is None,
    {
        proof {
            lemma_attr_index_from(self@, key@, 0);
        }
        let mut i: usize = 0;
        while i < self.entries.len()
            invariant
                i <= self@.len(),
                attr_index(self@, key@) == attr_index_from(self@, key@, i as int),
            decreases self@.len() - i,
        {
            if str_eq(self.entries[i].0.as_str(), key) {
                assert(self@[i as int].0 == self.entries@[i as int].0@);
                return Some(i);
            }
            i = i + 1;
        }
        None
    }

    /// The value set for `key`.
    pub fn get(&self, key: &str) -> (r: Option<&AttributeValue>)
        ensures
            r matches Some(v) ==> attr_lookup(self@, key@) == Some(v@),
            r is None ==> attr_lookup(self@, key@) is None,
    {
        match self.find_index(key) {
            Some(i) => Some(&self.entries[i].1),
            None => None,
        }
    }

    /// Sets `key` to `value`.
    pub fn insert(&mut self, key: String, value: AttributeValue)
        ensures
            final(self)@ == attr_insert(old(self)@, key@, value@),
    {
        match self.find_index(key.as_str()) {
            Some(i) => {
                let ghost k = key@;
                let ghost v = value@;
                self.entries.set(i, (key, value));
                assert(self@ =~= old(self)@.update(i as int, (k, v)));
            },
            None => {
                let ghost k = key@;
                let ghost v = value@;
                self.entries.push((key, value));
                assert(self@ =~= old(self)@.push((k, v)));
            },
        }
    }

    /// The entry at position `i`.
    pub fn entry(&self, i: usize) -> (r: (&String, &AttributeValue))
        requires
            i < self@.len(),
        ensures
            (r.0@, r.1@) == self@[i as int],
    {
        (&self.entries[i].0, &self.entries[i].1)
    }
}

/// Import statement: import ./path.gpml as Name
#[derive(Debug, Clone, PartialEq)]
pub struct Import {
    pub path: String,
    pub alias: String,
}

/// Component definition: def ComponentName(param1, param2) { ... }
#[derive(Debug)]
pub struct ComponentDef {
    pub name: String,
    pub parameters: Vec<String>,
    pub body: Element,
}

/// XML-like element: <tag attr="value">children</tag>
#[derive(Debug)]
pub struct Element {
    pub tag: String,
    pub attributes: Attributes,
    pub children: Vec<GPMLNode>,
    pub self_closing: bool,
}

/// GPML syntax tree nodes.
#[derive(Debug)]
pub enum GPMLNode {
    /// Root node containing all top-level declarations
    Document { imports: Vec<Import>, components: Vec<ComponentDef>, root: Option<Element> },
    /// Import statement
    Import(Import),
    /// Component definition
    ComponentDef(ComponentDef),
    /// XML-like element
    Element(Element),
    /// Text content
    Text(String),
    /// Interpolated expression like ${variable}
    Expression(String),
}

pub struct ImportView {
    pub path: Seq<char>,
    pub alias: Seq<char>,
}

pub struct ComponentView {
    pub name: Seq<char>,
    pub parameters: Seq<Seq<char>>,
    pub body: ElementView,
}

pub struct ElementView {
    pub tag: Seq<char>,
    pub attributes: AttrsView,
    pub children: Seq<NodeView>,
    pub self_closing: bool,
}

pub enum NodeView {
    Document {
        imports: Seq<ImportView>,
        components: Seq<ComponentView>,
        root: Option<ElementView>,
    },
    Import(ImportView),
    ComponentDef(ComponentView),
    Element(ElementView),
    Text(Seq<char>),
    Expression(Seq<char>),
}

pub open spec fn import_view(i: Import) -> ImportView {
    ImportView { path: i.path@, alias: i.alias@ }
}

pub open spec fn strings_view(s: Seq<String>) -> Seq<Seq<char>> {
    s.map_values(|x: String| x@)
}

pub open spec fn imports_view(s: Seq<Import>) -> Seq<ImportView> {
    s.map_values(|x: Import| import_view(x))
}

pub open spec fn element_view(e: Element) -> ElementView
    decreases e, 0nat,
{
    ElementView {
        tag: e.tag@,
        attributes: e.attributes@,
        children: nodes_view(e.children@),
        self_closing: e.self_closing,
    }
}

pub open spec fn nodes_view(s: Seq<GPMLNode>) -> Seq<NodeView>
    decreases s, s.len(),
{
    if s.len() == 0 {
        Seq::empty()
    } else {
        nodes_view(s.subrange(0, s.len() - 1)).push(node_view(s[s.len() - 1]))
    }
}

pub open spec fn component_view(c: ComponentDef) -> ComponentView
    decreases c, 0nat,
{
    ComponentView {
        name: c.name@,
        parameters: strings_view(c.parameters@),
        body: element_view(c.body),
    }
}

pub open spec fn components_view(s: Seq<ComponentDef>) -> Seq<ComponentView>
    decreases s, s.len(),
{
    if s.len() == 0 {
        Seq::empty()
    } else {
        components_view(s.subrange(0, s.len() - 1)).push(component_view(s[s.len() - 1]))
    }
}

pub open spec fn node_view(n: GPMLNode) -> NodeView
    decreases n, 0nat,
{
    match n {
        GPMLNode::Document { imports, components, root } => NodeView::Document {
            imports: imports_view(imports@),
            components: components_view(components@),
            root: match root {
                Some(r) => Some(element_view(r)),
                None => None,
            },
        },
        GPMLNode::Import(i) => NodeView::Import(import_view(i)),
        GPMLNode::ComponentDef(c) => NodeView::ComponentDef(component_view(c)),
        GPMLNode::Element(e) => NodeView::Element(element_view(e)),
        GPMLNode::Text(t) => NodeView::Text(t@),
        GPMLNode::Expression(x) => NodeView::Expression(x@),
    }
}

impl View for Element {
    type V = ElementView;

    open spec fn view(&self) -> ElementView {
        element_view(*self)
    }
}

impl View for GPMLNode {
    type V = NodeView;

    open spec fn view(&self) -> NodeView {
        node_view(*self)
    }
}

impl View for Import {
    type V = ImportView;

    open spec fn view(&self) -> ImportView {
        import_view(*self)
    }
}

impl View for ComponentDef {
    type V = ComponentView;

    open spec fn view(&self) -> ComponentView {
        component_view(*self)
    }
}

pub proof fn lemma_nodes_view_len(s: Seq<GPMLNode>)
    ensures
        nodes_view(s).len() == s.len(),
    decreases s.len(),
{
    if s.len() > 0 {
        lemma_nodes_view_len(s.subrange(0, s.len() - 1));
    }
}

pub proof fn lemma_nodes_view_index(s: Seq<GPMLNode>, i: int)
    requires
        0 <= i < s.len(),
    ensures
        nodes_view(s)[i] == node_view(s[i]),
    decreases s.len(),
{
    lemma_nodes_view_len(s.subrange(0, s.len() - 1));
    if i < s.len() - 1 {
        lemma_nodes_view_index(s.subrange(0, s.len() - 1), i);
    }
}

/// The text of an element: its text children and, recursively, the text of
/// its element children, in order.
pub open spec fn text_content(e: ElementView) -> Seq<char>
    decreases e, 0nat,
{
    nodes_text(e.children)
}

pub open spec fn nodes_text(s: Seq<NodeView>) -> Seq<char>
    decreases s, s.len(),
{
    if s.len() == 0 {
        Seq::empty()
    } else {
        nodes_text(s.subrange(0, s.len() - 1)) + match s[s.len() - 1] {
            NodeView::Text(t) => t,
            NodeView::Element(c) => text_content(c),
            _ => Seq::empty(),
        }
    }
}

impl Element {
    pub fn new(tag: String) -> (e: Self)
        ensures
            e@ == (ElementView {
                tag: tag@,
                attributes: Seq::empty(),
                children: Seq::empty(),
                self_closing: false,
            }),
    {
        let e = Element { tag, attributes: Attributes::new(), children: Vec::new(), self_closing: false };
        assert(nodes_view(e.children@) =~= Seq::<NodeView>::empty());
        e
    }

    pub fn with_attribute(self, name: String, value: AttributeValue) -> (e: Self)
        ensures
            e@ == (ElementView { attributes: attr_insert(self@.attributes, name@, value@), ..self@ }),
    {
        let mut e = self;
        e.attributes.insert(name, value);
        e
    }

    pub fn with_child(self, child: GPMLNode) -> (e: Self)
        ensures
            e@ == (ElementView { children: self@.children.push(child@), ..self@ }),
    {
        let mut e = self;
        let ghost old_children = e.children@;
        e.children.push(child);
        assert(e.children@.subrange(0, old_children.len() as int) =~= old_children);
        e
    }

    pub fn get_attribute(&self, name: &str) -> (r: Option<&AttributeValue>)
        ensures
            r matches Some(v) ==> attr_lookup(self@.attributes, name@) == Some(v@),
            r is None ==> attr_lookup(self@.attributes, name@) is None,
    {
        self.attributes.get(name)
    }

    /// The text of the element: text children and, recursively, the text of
    /// element children, in order.
    pub fn get_text_content(&self) -> (s: String)
        ensures
            s@ == text_content(self@),
        decreases self,
    {
        let mut content = String::new();
        let mut i: usize = 0;
        proof {
            lemma_nodes_view_len(self.children@);
        }
        while i < self.children.len()
            invariant
                i <= self.children@.len(),
                nodes_view(self.children@).len() == self.children@.len(),
                content@ == nodes_text(nodes_view(self.children@).subrange(0, i as int)),
            decreases self.children@.len() - i,
        {
            let ghost before = nodes_view(self.children@).subrange(0, i as int);
            proof {
                lemma_nodes_view_index(self.children@, i as int);
                assert(nodes_view(self.children@).subrange(0, i + 1).subrange(0, i as int) =~= before);
            }
            match &self.children[i] {
                GPMLNode::Text(text) => content.append(text.as_str()),
                GPMLNode::Element(element) => {
                    assert(decreases_to!(self => self.children));
                    let t = element.get_text_content();
                    content.append(t.as_str());
                },
                _ => {},
            }
            i = i + 1;
        }
        assert(nodes_view(self.children@).subrange(0, i as int) =~= nodes_view(self.children@));
        content
    }
}

impl GPMLNode {
    pub fn is_element(&self) -> (r: bool)
        ensures
            r == self@ is Element,
    {
        matches!(self, GPMLNode::Element(_))
    }

    pub fn is_text(&self) -> (r: bool)
        ensures
            r == self@ is Text,
    {
        matches!(self, GPMLNode::Text(_))
    }

    pub fn as_element(&self) -> (r: Option<&Element>)
        ensures
            r matches Some(e) ==> self@ == NodeView::Element(e@),
            r is None ==> !(self@ is Element),
    {
        match self {
            GPMLNode::Element(element) => Some(element),
            _ => None,
        }
    }

    pub fn as_text(&self) -> (r: Option<&str>)
        ensures
            r matches Some(t) ==> self@ == NodeView::Text(t@),
            r is None ==> !(self@ is Text),
    {
        match self {
            GPMLNode::Text(text) => Some(text.as_str()),
            _ => None,
        }
    }
}

pub proof fn lemma_strings_view_push(s: Seq<String>, x: String)
    ensures
        strings_view(s.push(x)) == strings_view(s).push(x@),
{
    assert(strings_view(s.push(x)) =~= strings_view(s).push(x@));
}

pub proof fn lemma_imports_view_push(s: Seq<Import>, x: Import)
    ensures
        imports_view(s.push(x)) == imports_view(s).push(x@),
{
    assert(imports_view(s.push(x)) =~= imports_view(s).push(x@));
}

pub proof fn lemma_attrs_view_push(s: Seq<(String, AttributeValue)>, k: String, v: AttributeValue)
    ensures
        attrs_view(s.push((k, v))) == attrs_view(s).push((k@, v@)),
{
    assert(attrs_view(s.push((k, v))) =~= attrs_view(s).push((k@, v@)));
}

impl Attributes {
    /// A copy of the attributes, entry by entry.
    pub fn duplicate(&self) -> (r: Self)
        ensures
            r@ == self@,
    {
        let mut entries: Vec<(String, AttributeValue)> = Vec::new();
        let mut i: usize = 0;
        while i < self.entries.len()
            invariant
                i <= self.entries@.len(),
                attrs_view(entries@) == attrs_view(self.entries@.subrange(0, i as int)),
            decreases self.entries@.len() - i,
        {
            let k = self.entries[i].0.clone();
            let v = self.entries[i].1.duplicate();
            let ghost before = entries@;
            entries.push((k, v));
            proof {
                lemma_attrs_view_push(before, k, v);
                assert(self.entries@.subrange(0, i + 1) =~= self.entries@.subrange(0, i as int).push(self.entries@[i as int]));
                lemma_attrs_view_push(self.entries@.subrange(0, i as int), self.entries@[i as int].0, self.entries@[i as int].1);
            }
            i = i + 1;
        }
        assert(self.entries@.subrange(0, i as int) =~= self.entries@);
        Attributes { entries }
    }
}

impl Import {
    /// A copy of the import.
    pub fn duplicate(&self) -> (r: Self)
        ensures
            r@ == self@,
    {
        Import { path: self.path.clone(), alias: self.alias.clone() }
    }
}

impl Element {
    /// A copy of the element and everything under it.
    pub fn duplicate(&self) -> (r: Self)
        ensures
            r@ == self@,
        decreases self, 1nat,
    {
        let mut children: Vec<GPMLNode> = Vec::new();
        let mut i: usize = 0;
        proof {
            lemma_nodes_view_len(self.children@);
        }
        assert(nodes_view(children@) =~= Seq::<NodeView>::empty());
        while i < self.children.len()
            invariant
                i <= self.children@.len(),
                nodes_view(self.children@).len() == self.children@.len(),
                nodes_view(children@) == nodes_view(self.children@).subrange(0, i as int),
            decreases self.children@.len() - i,
        {
            proof {
                lemma_nodes_view_index(self.children@, i as int);
            }
            assert(decreases_to!(self => self.children));
            let c = self.children[i].duplicate();
            let ghost before = children@;
            children.push(c);
            proof {
                assert(children@.subrange(0, before.len() as int) =~= before);
            }
            assert(nodes_view(children@) =~= nodes_view(self.children@).subrange(0, i + 1));
            i = i + 1;
        }
        assert(nodes_view(self.children@).subrange(0, i as int) =~= nodes_view(self.children@));
        Element {
            tag: self.tag.clone(),
            attributes: self.attributes.duplicate(),
            children,
            self_closing: self.self_closing,
        }
    }
}

impl ComponentDef {
    /// A copy of the definition.
    pub fn duplicate(&self) -> (r: Self)
        ensures
            r@ == self@,
        decreases self, 2nat,
    {
        let mut parameters: Vec<String> = Vec::new();
        let mut i: usize = 0;
        while i < self.parameters.len()
            invariant
                i <= self.parameters@.len(),
                strings_view(parameters@) == strings_view(self.parameters@.subrange(0, i as int)),
            decreases self.parameters@.len() - i,
        {
            let ghost before = parameters@;
            parameters.push(self.parameters[i].clone());
            proof {
                lemma_strings_view_push(before, self.parameters@[i as int]);
                assert(self.parameters@.subrange(0, i + 1) =~= self.parameters@.subrange(0, i as int).push(self.parameters@[i as int]));
                lemma_strings_view_push(self.parameters@.subrange(0, i as int), self.parameters@[i as int]);
            }
            i = i + 1;
        }
        assert(self.parameters@.subrange(0, i as int) =~= self.parameters@);
        ComponentDef { name: self.name.clone(), parameters, body: self.body.duplicate() }
    }
}

impl GPMLNode {
    /// A copy of the node and everything under it.
    pub fn duplicate(&self) -> (r: Self)
        ensures
            r@ == self@,
        decreases self, 0nat,
    {
        match self {
            GPMLNode::Document { imports, components, root } => {
                let mut is: Vec<Import> = Vec::new();
                let mut i: usize = 0;
                while i < imports.len()
                    invariant
                        i <= imports@.len(),
                        imports_view(is@) == imports_view(imports@.subrange(0, i as int)),
                    decreases imports@.len() - i,
                {
                    let ghost before = is@;
                    let d = imports[i].duplicate();
                    is.push(d);
                    proof {
                        lemma_imports_view_push(before, d);
                        assert(imports@.subrange(0, i + 1) =~= imports@.subrange(0, i as int).push(imports@[i as int]));
                        lemma_imports_view_push(imports@.subrange(0, i as int), imports@[i as int]);
                    }
                    i = i + 1;
                }
                assert(imports@.subrange(0, i as int) =~= imports@);
                let mut cs: Vec<ComponentDef> = Vec::new();
                let mut j: usize = 0;
                assert(components_view(cs@) =~= Seq::<ComponentView>::empty());
                while j < components.len()
                    invariant
                        j <= components@.len(),
                        self is Document,
                        self->components == *components,
                        components_view(cs@) == components_view(components@.subrange(0, j as int)),
                    decreases components@.len() - j,
                {
                    proof {
                        assert(decreases_to!(self => self->components));
                        assert(decreases_to!(components@ => components@[j as int]));
                    }
                    let c = components[j].duplicate();
                    let ghost before = cs@;
                    cs.push(c);
                    assert(cs@.subrange(0, before.len() as int) =~= before);
                    assert(components@.subrange(0, j + 1).subrange(0, j as int) =~= components@.subrange(0, j as int));
                    j = j + 1;
                }
                assert(components@.subrange(0, j as int) =~= components@);
                let r = match root {
                    Some(e) => Some(e.duplicate()),
                    None => None,
                };
                GPMLNode::Document { imports: is, components: cs, root: r }
            },
            GPMLNode::Import(i) => GPMLNode::Import(i.duplicate()),
            GPMLNode::ComponentDef(c) => GPMLNode::ComponentDef(c.duplicate()),
            GPMLNode::Element(e) => GPMLNode::Element(e.duplicate()),
            GPMLNode::Text(t) => GPMLNode::Text(t.clone()),
            GPMLNode::Expression(x) => GPMLNode::Expression(x.clone()),
        }
    }
}


/// The bindings of `a`, in order, whose key `b` does not bind.
pub open spec fn attrs_without_keys(a: AttrsView, b: AttrsView) -> AttrsView
    decreases a.len(),
{
    if a.len() == 0 {
        a
    } else {
        let rest = attrs_without_keys(a.drop_last(), b);
        if attr_lookup(b, a.last().0) is None {
            rest.push(a.last())
        } else {
            rest
        }
    }
}

impl Attributes {
    /// The bindings of `self`, in order, whose key `other` does not bind.
    pub fn without_keys_of(&self, other: &Attributes) -> (r: Attributes)
        ensures
            r@ == attrs_without_keys(self@, other@),
    {
        let mut out = Attributes::new();
        let mut i: usize = 0;
        assert(self@.take(0) =~= Seq::<(Seq<char>, AttrView)>::empty());
        while i < self.entries.len()
            invariant
                i <= self@.len(),
                self@.len() == self.entries@.len(),
                out@ == attrs_without_keys(self@.take(i as int), other@),
            decreases self.entries@.len() - i,
        {
            assert(self@.take(i + 1).drop_last() =~= self@.take(i as int));
            assert(self@.take(i + 1).last() == self@[i as int]);
            let (k, v) = self.entry(i);
            if other.get(k.as_str()).is_none() {
                let ghost before = out.entries@;
                let kk = k.clone();
                let vv = v.duplicate();
                proof {
                    lemma_attrs_view_push(before, kk, vv);
                }
                out.entries.push((kk, vv));
            }
            i = i + 1;
        }
        assert(self@.take(self@.len() as int) =~= self@);
        out
    }
}


/// Looking a name up after a binding is added at the end: an earlier
/// binding of the name wins.
pub proof fn lemma_attr_lookup_push(a: AttrsView, x: (Seq<char>, AttrView), k: Seq<char>)
    ensures
        attr_lookup(a.push(x), k) == match attr_lookup(a, k) {
            Some(v) => Some(v),
            None => if x.0 == k {
                Some(x.1)
            } else {
                None::<AttrView>
            },
        },
{
    let b = a.push(x);
    lemma_attr_index_from(a, k, 0);
    lemma_attr_index_from(b, k, 0);
    match attr_index(a, k) {
        Some(i) => {
            assert(b[i] == a[i]);
            if attr_index(b, k) != Some(i) {
                assert(false);
            }
        },
        None => {
            if x.0 == k {
                assert(b[a.len() as int] == x);
                if attr_index(b, k) != Some(a.len() as int) {
                    assert(false);
                }
            } else {
                assert(forall|j: int| 0 <= j < b.len() ==> b[j].0 != k);
            }
        },
    }
}

/// After the bindings whose key `b` binds are dropped, such a key is
/// unbound, and any other key keeps its value.
pub proof fn law_without_keys_lookup(a: AttrsView, b: AttrsView, k: Seq<char>)
    ensures
        attr_lookup(attrs_without_keys(a, b), k) == if attr_lookup(b, k) is Some {
            None::<AttrView>
        } else {
            attr_lookup(a, k)
        },
    decreases a.len(),
{
    if a.len() == 0 {
        assert(attr_index_from(a, k, 0) is None);
    } else {
        let init = a.drop_last();
        let x = a.last();
        assert(init.push(x) =~= a);
        law_without_keys_lookup(init, b, k);
        lemma_attr_lookup_push(init, x, k);
        let rest = attrs_without_keys(init, b);
        if attr_lookup(b, x.0) is None {
            lemma_attr_lookup_push(rest, x, k);
        }
    }
}

} // verus!
