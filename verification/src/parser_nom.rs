//! A second GPML grammar: imports with quoted or bare paths, component
//! definitions, and elements whose attributes hold expressions, quoted
//! texts, numbers or booleans, and whose closing tag must repeat the
//! opening one.
use vstd::prelude::*;
use crate::ast::{
    AttrView, AttrsView, Attributes, AttributeValue, ComponentDef, ComponentView, Element,
    ElementView, GPMLNode, Import, ImportView, NodeView, attr_insert, nodes_view, component_view,
    components_view, imports_view, strings_view,
};
use crate::error::{GPMLError, GPMLResult};
use crate::grammar::{CharClass, span, span_of, lemma_span, char_at, is_char_at};
use crate::parser::{lit, ms0, p_name, p_quoted, p_text, lit_at, quoted_at, name_at, text_at, rest_string, rest_trimmed};
use crate::text::{find, find_from, lemma_find_from, trim, substring, chars_of, str_eq};
use crate::xml::{lemma_nodes_view_push, join_message};

verus! {

broadcast use vstd::std_specs::vec::axiom_vec_decreases_to_view;

/// Parser of the grammar, with the position it reports errors at.
pub struct GPMLParser {
    pub line: usize,
    pub column: usize,
}

/// One or more ASCII whitespace characters.
pub open spec fn ms1(s: Seq<char>, i: int) -> Option<int> {
    let j = ms0(s, i);
    if j > i {
        Some(j)
    } else {
        None
    }
}

/// A path: one or more characters up to a space, tab or line break.
pub open spec fn n_path(s: Seq<char>, i: int) -> Option<(Seq<char>, int)> {
    let j = span(s, i, CharClass::PathLine);
    if 0 <= i && j > i {
        Some((s.subrange(i, j), j))
    } else {
        None
    }
}

/// A double-quoted text, else a path.
pub open spec fn n_string_or_path(s: Seq<char>, i: int) -> Option<(Seq<char>, int)> {
    match p_quoted(s, i, '"') {
        Some(r) => Some(r),
        None => n_path(s, i),
    }
}

/// `import PATH as ALIAS`, with ASCII whitespace between the words.
pub open spec fn n_import(s: Seq<char>, i: int) -> Option<(ImportView, int)> {
    match lit(s, i, "import"@) {
        None => None,
        Some(a) => match ms1(s, a) {
            None => None,
            Some(b) => match n_string_or_path(s, b) {
                None => None,
                Some((path, c)) => match ms1(s, c) {
                    None => None,
                    Some(d) => match lit(s, d, "as"@) {
                        None => None,
                        Some(e) => match ms1(s, e) {
                            None => None,
                            Some(f) => match p_name(s, f) {
                                None => None,
                                Some((alias, g)) => Some((ImportView { path, alias }, g)),
                            },
                        },
                    },
                },
            },
        },
    }
}

/// `${expr}`: the text up to the first `}`, as it stands.
pub open spec fn n_expression(s: Seq<char>, i: int) -> Option<(Seq<char>, int)> {
    match lit(s, i, seq!['$', '{']) {
        None => None,
        Some(a) => match find_from(s, a, seq!['}']) {
            Some(k) => Some((s.subrange(a, k), k + 1)),
            None => None,
        },
    }
}

/// A number: an optional '-', digits, and optionally '.' and digits.
pub open spec fn n_number(s: Seq<char>, i: int) -> Option<(Seq<char>, int)> {
    let a = if char_at(s, i, '-') {
        i + 1
    } else {
        i
    };
    let b = span(s, a, CharClass::Digit);
    if 0 <= i && b > a {
        let f = span(s, b + 1, CharClass::Digit);
        let c = if char_at(s, b, '.') && f > b + 1 {
            f
        } else {
            b
        };
        Some((s.subrange(i, c), c))
    } else {
        None
    }
}

/// `true` or `false`.
pub open spec fn n_boolean(s: Seq<char>, i: int) -> Option<(bool, int)> {
    match lit(s, i, "true"@) {
        Some(j) => Some((true, j)),
        None => match lit(s, i, "false"@) {
            Some(j) => Some((false, j)),
            None => None,
        },
    }
}

/// An attribute value: an expression, a quoted text, a number or a boolean,
/// tried in that order.
pub open spec fn n_value(s: Seq<char>, i: int) -> Option<(AttrView, int)> {
    match n_expression(s, i) {
        Some((x, j)) => Some((AttrView::Expression(x), j)),
        None => match p_quoted(s, i, '"') {
            Some((t, j)) => Some((AttrView::Literal(t), j)),
            None => match n_number(s, i) {
                Some((n, j)) => Some((AttrView::Number(n), j)),
                None => match n_boolean(s, i) {
                    Some((b, j)) => Some((AttrView::Boolean(b), j)),
                    None => None,
                },
            },
        },
    }
}

/// `name = value`, with ASCII whitespace around `=`.
pub open spec fn n_attribute(s: Seq<char>, i: int) -> Option<((Seq<char>, AttrView), int)> {
    match p_name(s, i) {
        None => None,
        Some((name, a)) => {
            let b = ms0(s, a);
            if char_at(s, b, '=') {
                match n_value(s, ms0(s, b + 1)) {
                    Some((v, c)) => Some(((name, v), c)),
                    None => None,
                }
            } else {
                None
            }
        },
    }
}

/// Attributes, each followed by ASCII whitespace, set in order into `acc`.
pub open spec fn n_attrs(s: Seq<char>, i: int, acc: AttrsView) -> (AttrsView, int)
    decreases s.len() - i,
{
    match n_attribute(s, i) {
        Some(((k, v), j)) => if i < j <= s.len() {
            proof {
                lemma_span(s, j, CharClass::MultiSpace);
            }
            n_attrs(s, ms0(s, j), attr_insert(acc, k, v))
        } else {
            (acc, i)
        },
        None => (acc, i),
    }
}

/// `<name attrs />`
pub open spec fn n_self_closing(s: Seq<char>, i: int) -> Option<(ElementView, int)> {
    if char_at(s, i, '<') {
        match p_name(s, i + 1) {
            None => None,
            Some((tag, a)) => {
                let (attrs, b) = n_attrs(s, ms0(s, a), Seq::empty());
                match lit(s, ms0(s, b), seq!['/', '>']) {
                    Some(c) => Some(
                        (
                            ElementView {
                                tag,
                                attributes: attrs,
                                children: Seq::empty(),
                                self_closing: true,
                            },
                            c,
                        ),
                    ),
                    None => None,
                }
            },
        }
    } else {
        None
    }
}

/// A self-closing element, else one with children.
pub open spec fn n_element(s: Seq<char>, i: int) -> Option<(ElementView, int)>
    decreases s.len() - i, 1nat,
{
    match n_self_closing(s, i) {
        Some(r) => Some(r),
        None => n_normal(s, i),
    }
}

/// `<name attrs> children </name>`: the closing name must equal the opening
/// one.
pub open spec fn n_normal(s: Seq<char>, i: int) -> Option<(ElementView, int)>
    decreases s.len() - i, 0nat,
{
    if 0 <= i && char_at(s, i, '<') {
        match p_name(s, i + 1) {
            None => None,
            Some((tag, a)) => {
                let (attrs, b) = n_attrs(s, ms0(s, a), Seq::empty());
                let c = ms0(s, b);
                if char_at(s, c, '>') && i < c + 1 <= s.len() {
                    proof {
                        lemma_span(s, c + 1, CharClass::MultiSpace);
                    }
                    let (children, d) = n_nodes(s, ms0(s, c + 1), Seq::empty());
                    match lit(s, ms0(s, d), seq!['<', '/']) {
                        None => None,
                        Some(e) => match p_name(s, e) {
                            None => None,
                            Some((closing, f)) => if char_at(s, f, '>') && closing == tag {
                                Some(
                                    (
                                        ElementView {
                                            tag,
                                            attributes: attrs,
                                            children,
                                            self_closing: false,
                                        },
                                        f + 1,
                                    ),
                                )
                            } else {
                                None
                            },
                        },
                    }
                } else {
                    None
                }
            },
        }
    } else {
        None
    }
}

/// Child nodes, as many as can be read, appended to `acc`.
pub open spec fn n_nodes(s: Seq<char>, i: int, acc: Seq<NodeView>) -> (Seq<NodeView>, int)
    decreases s.len() - i, 4nat,
{
    if 0 <= i <= s.len() {
        match n_node(s, i) {
            Some((n, j)) => if i < j <= s.len() {
                n_nodes(s, j, acc.push(n))
            } else {
                (acc, i)
            },
            None => (acc, i),
        }
    } else {
        (acc, i)
    }
}

/// After ASCII whitespace: an element, an expression, or a word of text.
pub open spec fn n_node(s: Seq<char>, i: int) -> Option<(NodeView, int)>
    decreases s.len() - i, 3nat,
{
    let a = ms0(s, i);
    if 0 <= i <= a <= s.len() {
        match n_element(s, a) {
            Some((e, j)) => Some((NodeView::Element(e), j)),
            None => match n_expression(s, a) {
                Some((x, j)) => Some((NodeView::Expression(x), j)),
                None => match p_text(s, a) {
                    Some((t, j)) => Some((NodeView::Text(t), j)),
                    None => None,
                },
            },
        }
    } else {
        None
    }
}

/// The parameters after the first: `, name` repeated, with ASCII
/// whitespace around the commas; a comma not followed by a name is left
/// unread.
pub open spec fn n_params_rest(s: Seq<char>, i: int, acc: Seq<Seq<char>>) -> (Seq<Seq<char>>, int)
    decreases s.len() - i,
{
    let a = ms0(s, i);
    if 0 <= i <= s.len() && char_at(s, a, ',') {
        match p_name(s, ms0(s, a + 1)) {
            Some((id, c)) => if i < c <= s.len() {
                n_params_rest(s, c, acc.push(id))
            } else {
                (acc, i)
            },
            None => (acc, i),
        }
    } else {
        (acc, i)
    }
}

/// A comma-separated list of names, possibly empty.
pub open spec fn n_params(s: Seq<char>, i: int) -> (Seq<Seq<char>>, int) {
    match p_name(s, i) {
        Some((first, j)) => n_params_rest(s, j, seq![first]),
        None => (Seq::empty(), i),
    }
}

/// `def NAME(params) { element }`
pub open spec fn n_component_def(s: Seq<char>, i: int) -> Option<(ComponentView, int)> {
    match lit(s, i, "def"@) {
        None => None,
        Some(a) => match ms1(s, a) {
            None => None,
            Some(b) => match p_name(s, b) {
                None => None,
                Some((name, c)) => {
                    let d = ms0(s, c);
                    if char_at(s, d, '(') {
                        let (parameters, e) = n_params(s, ms0(s, d + 1));
                        let f = ms0(s, e);
                        if char_at(s, f, ')') {
                            let g = ms0(s, f + 1);
                            if char_at(s, g, '{') {
                                match n_element(s, ms0(s, g + 1)) {
                                    None => None,
                                    Some((body, h)) => {
                                        let k = ms0(s, h);
                                        if char_at(s, k, '}') {
                                            Some((ComponentView { name, parameters, body }, k + 1))
                                        } else {
                                            None
                                        }
                                    },
                                }
                            } else {
                                None
                            }
                        } else {
                            None
                        }
                    } else {
                        None
                    }
                },
            },
        },
    }
}

pub open spec fn n_imports(s: Seq<char>, i: int, acc: Seq<ImportView>) -> (Seq<ImportView>, int)
    decreases s.len() - i,
{
    match n_import(s, i) {
        Some((imp, j)) => if i < j <= s.len() {
            proof {
                lemma_span(s, j, CharClass::MultiSpace);
            }
            n_imports(s, ms0(s, j), acc.push(imp))
        } else {
            (acc, i)
        },
        None => (acc, i),
    }
}

pub open spec fn n_components(s: Seq<char>, i: int, acc: Seq<ComponentView>) -> (
    Seq<ComponentView>,
    int,
)
    decreases s.len() - i,
{
    match n_component_def(s, i) {
        Some((c, j)) => if i < j <= s.len() {
            proof {
                lemma_span(s, j, CharClass::MultiSpace);
            }
            n_components(s, ms0(s, j), acc.push(c))
        } else {
            (acc, i)
        },
        None => (acc, i),
    }
}

/// A document: imports, then component definitions, each followed by ASCII
/// whitespace, then an optional root element. Gives it and the position
/// where reading stopped.
pub open spec fn n_document(s: Seq<char>) -> (NodeView, int) {
    let (imports, a) = n_imports(s, ms0(s, 0), Seq::empty());
    let (components, b) = n_components(s, a, Seq::empty());
    let (root, d) = match n_element(s, b) {
        Some((e, j)) => (Some(e), j),
        None => (None, b),
    };
    (NodeView::Document { imports, components, root }, ms0(s, d))
}

/// A whole input: the document, or the message for what is left after it
/// when that is more than whitespace.
pub open spec fn n_parse(s: Seq<char>) -> Result<NodeView, Seq<char>> {
    let (doc, j) = n_document(s);
    let rest = s.subrange(j, s.len() as int);
    if trim(rest).len() == 0 {
        Ok(doc)
    } else {
        Err("Unexpected content: "@ + rest)
    }
}

// ------------------------------------------------------ executable rules

fn ms1_at(s: &[char], i: usize) -> (r: Option<usize>)
    requires
        i <= s@.len(),
    ensures
        r matches Some(j) ==> ms1(s@, i as int) == Some(j as int) && i < j <= s@.len(),
        r is None ==> ms1(s@, i as int) is None,
{
    let slen = s.len();
    let j = span_of(s, i, CharClass::MultiSpace);
    if j > i {
        Some(j)
    } else {
        None
    }
}

fn ms0_at(s: &[char], i: usize) -> (j: usize)
    requires
        i <= s@.len(),
    ensures
        j == ms0(s@, i as int),
        i <= j <= s@.len(),
{
    let slen = s.len();
    span_of(s, i, CharClass::MultiSpace)
}

fn path_at(s: &[char], i: usize) -> (r: Option<(String, usize)>)
    requires
        i <= s@.len(),
    ensures
        r matches Some((p, j)) ==> n_path(s@, i as int) == Some((p@, j as int)) && i < j <= s@.len(),
        r is None ==> n_path(s@, i as int) is None,
{
    let slen = s.len();
    let j = span_of(s, i, CharClass::PathLine);
    if j > i {
        Some((substring(s, i, j), j))
    } else {
        None
    }
}

fn import_at(s: &[char], i: usize) -> (r: Option<(Import, usize)>)
    requires
        i <= s@.len(),
    ensures
        r matches Some((imp, j)) ==> n_import(s@, i as int) == Some((imp@, j as int)) && i < j
            <= s@.len(),
        r is None ==> n_import(s@, i as int) is None,
{
    let slen = s.len();
    let kw = ['i', 'm', 'p', 'o', 'r', 't'];
    let as_kw = ['a', 's'];
    proof {
        reveal_strlit("import");
        reveal_strlit("as");
        assert(kw@ =~= "import"@);
        assert(as_kw@ =~= "as"@);
    }
    let a = lit_at(s, i, &kw)?;
    let b = ms1_at(s, a)?;
    let (path, c) = match quoted_at(s, b, '"') {
        Some(r) => r,
        None => path_at(s, b)?,
    };
    let d = ms1_at(s, c)?;
    let e = lit_at(s, d, &as_kw)?;
    let f = ms1_at(s, e)?;
    let (alias, g) = name_at(s, f)?;
    Some((Import { path, alias }, g))
}

fn expression_at(s: &[char], i: usize) -> (r: Option<(String, usize)>)
    requires
        i <= s@.len(),
    ensures
        r matches Some((x, j)) ==> n_expression(s@, i as int) == Some((x@, j as int)) && i < j
            <= s@.len(),
        r is None ==> n_expression(s@, i as int) is None,
{
    let slen = s.len();
    let open = ['$', '{'];
    let close = ['}'];
    assert(open@ =~= seq!['$', '{']);
    assert(close@ =~= seq!['}']);
    let a = lit_at(s, i, &open)?;
    let k = find(s, a, &close)?;
    proof {
        lemma_find_from(s@, a as int, close@);
    }
    Some((substring(s, a, k), k + 1))
}

fn parse_number(s: &[char], i: usize) -> (r: Option<(String, usize)>)
    requires
        i <= s@.len(),
    ensures
        r matches Some((n, j)) ==> n_number(s@, i as int) == Some((n@, j as int)) && i < j
            <= s@.len(),
        r is None ==> n_number(s@, i as int) is None,
{
    let slen = s.len();
    let a = if is_char_at(s, i, '-') {
        i + 1
    } else {
        i
    };
    let b = span_of(s, a, CharClass::Digit);
    if b == a {
        return None;
    }
    let c = if is_char_at(s, b, '.') {
        let f = span_of(s, b + 1, CharClass::Digit);
        if f > b + 1 {
            f
        } else {
            b
        }
    } else {
        b
    };
    Some((substring(s, i, c), c))
}

fn boolean_at(s: &[char], i: usize) -> (r: Option<(bool, usize)>)
    requires
        i <= s@.len(),
    ensures
        r matches Some((v, j)) ==> n_boolean(s@, i as int) == Some((v, j as int)) && i < j
            <= s@.len(),
        r is None ==> n_boolean(s@, i as int) is None,
{
    let slen = s.len();
    let t = ['t', 'r', 'u', 'e'];
    let f = ['f', 'a', 'l', 's', 'e'];
    proof {
        reveal_strlit("true");
        reveal_strlit("false");
        assert(t@ =~= "true"@);
        assert(f@ =~= "false"@);
    }
    match lit_at(s, i, &t) {
        Some(j) => Some((true, j)),
        None => match lit_at(s, i, &f) {
            Some(j) => Some((false, j)),
            None => None,
        },
    }
}

fn value_at(s: &[char], i: usize) -> (r: Option<(AttributeValue, usize)>)
    requires
        i <= s@.len(),
    ensures
        r matches Some((v, j)) ==> n_value(s@, i as int) == Some((v@, j as int)) && i < j
            <= s@.len(),
        r is None ==> n_value(s@, i as int) is None,
{
    let slen = s.len();
    if let Some((x, j)) = expression_at(s, i) {
        return Some((AttributeValue::Expression(x), j));
    }
    if let Some((t, j)) = quoted_at(s, i, '"') {
        return Some((AttributeValue::Literal(t), j));
    }
    if let Some((n, j)) = parse_number(s, i) {
        return Some((AttributeValue::Number(n), j));
    }
    if let Some((b, j)) = boolean_at(s, i) {
        return Some((AttributeValue::Boolean(b), j));
    }
    None
}

fn attribute_at(s: &[char], i: usize) -> (r: Option<((String, AttributeValue), usize)>)
    requires
        i <= s@.len(),
    ensures
        r matches Some(((k, v), j)) ==> n_attribute(s@, i as int) == Some(((k@, v@), j as int))
            && i < j <= s@.len(),
        r is None ==> n_attribute(s@, i as int) is None,
{
    let slen = s.len();
    let (name, a) = name_at(s, i)?;
    let b = ms0_at(s, a);
    if !is_char_at(s, b, '=') {
        return None;
    }
    let c = ms0_at(s, b + 1);
    let (v, d) = value_at(s, c)?;
    Some(((name, v), d))
}

fn attrs_at(s: &[char], i: usize) -> (r: (Attributes, usize))
    requires
        i <= s@.len(),
    ensures
        n_attrs(s@, i as int, Seq::empty()) == (r.0@, r.1 as int),
        i <= r.1 <= s@.len(),
{
    let slen = s.len();
    let mut attrs = Attributes::new();
    let mut pos = i;
    loop
        invariant
            i <= pos <= s@.len(),
            n_attrs(s@, i as int, Seq::empty()) == n_attrs(s@, pos as int, attrs@),
        decreases s@.len() - pos,
    {
        match attribute_at(s, pos) {
            Some(((k, v), b)) => {
                attrs.insert(k, v);
                pos = ms0_at(s, b);
            },
            None => {
                return (attrs, pos);
            },
        }
    }
}

fn parse_self_closing_element(s: &[char], i: usize) -> (r: Option<(Element, usize)>)
    requires
        i <= s@.len(),
    ensures
        r matches Some((e, j)) ==> n_self_closing(s@, i as int) == Some((e@, j as int)) && i < j
            <= s@.len(),
        r is None ==> n_self_closing(s@, i as int) is None,
{
    let slen = s.len();
    if !is_char_at(s, i, '<') {
        return None;
    }
    let (tag, a) = name_at(s, i + 1)?;
    let (attributes, b) = attrs_at(s, ms0_at(s, a));
    let close = ['/', '>'];
    assert(close@ =~= seq!['/', '>']);
    let c = lit_at(s, ms0_at(s, b), &close)?;
    let e = Element { tag, attributes, children: Vec::new(), self_closing: true };
    assert(nodes_view(e.children@) =~= Seq::<NodeView>::empty());
    Some((e, c))
}

fn element_at(s: &[char], i: usize) -> (r: Option<(Element, usize)>)
    requires
        i <= s@.len(),
    ensures
        r matches Some((e, j)) ==> n_element(s@, i as int) == Some((e@, j as int)) && i < j
            <= s@.len(),
        r is None ==> n_element(s@, i as int) is None,
    decreases s@.len() - i, 1nat,
{
    let slen = s.len();
    match parse_self_closing_element(s, i) {
        Some(r) => Some(r),
        None => parse_normal_element(s, i),
    }
}

fn parse_normal_element(s: &[char], i: usize) -> (r: Option<(Element, usize)>)
    requires
        i <= s@.len(),
    ensures
        r matches Some((e, j)) ==> n_normal(s@, i as int) == Some((e@, j as int)) && i < j
            <= s@.len(),
        r is None ==> n_normal(s@, i as int) is None,
    decreases s@.len() - i, 0nat,
{
    let slen = s.len();
    if !is_char_at(s, i, '<') {
        return None;
    }
    let (tag, a) = name_at(s, i + 1)?;
    let (attributes, b) = attrs_at(s, ms0_at(s, a));
    let c = ms0_at(s, b);
    if !is_char_at(s, c, '>') {
        return None;
    }
    let start = ms0_at(s, c + 1);
    let (children, d) = nodes_at(s, start);
    let close = ['<', '/'];
    assert(close@ =~= seq!['<', '/']);
    let e = lit_at(s, ms0_at(s, d), &close)?;
    let (closing, f) = name_at(s, e)?;
    if !is_char_at(s, f, '>') || !str_eq(closing.as_str(), tag.as_str()) {
        return None;
    }
    Some((Element { tag, attributes, children, self_closing: false }, f + 1))
}

fn nodes_at(s: &[char], i: usize) -> (r: (Vec<GPMLNode>, usize))
    requires
        i <= s@.len(),
    ensures
        n_nodes(s@, i as int, Seq::empty()) == (nodes_view(r.0@), r.1 as int),
        i <= r.1 <= s@.len(),
    decreases s@.len() - i, 4nat,
{
    let slen = s.len();
    let mut acc: Vec<GPMLNode> = Vec::new();
    let mut pos = i;
    assert(nodes_view(acc@) =~= Seq::<NodeView>::empty());
    loop
        invariant
            i <= pos <= s@.len(),
            n_nodes(s@, i as int, Seq::empty()) == n_nodes(s@, pos as int, nodes_view(acc@)),
        decreases s@.len() - pos,
    {
        match node_at(s, pos) {
            Some((n, j)) => {
                let ghost old_acc = acc@;
                acc.push(n);
                proof {
                    lemma_nodes_view_push(old_acc, n);
                }
                pos = j;
            },
            None => {
                return (acc, pos);
            },
        }
    }
}

fn node_at(s: &[char], i: usize) -> (r: Option<(GPMLNode, usize)>)
    requires
        i <= s@.len(),
    ensures
        r matches Some((n, j)) ==> n_node(s@, i as int) == Some((n@, j as int)) && i < j
            <= s@.len(),
        r is None ==> n_node(s@, i as int) is None,
    decreases s@.len() - i, 3nat,
{
    let slen = s.len();
    let a = ms0_at(s, i);
    if let Some((e, j)) = element_at(s, a) {
        return Some((GPMLNode::Element(e), j));
    }
    if let Some((x, j)) = expression_at(s, a) {
        return Some((GPMLNode::Expression(x), j));
    }
    if let Some((t, j)) = text_at(s, a) {
        return Some((GPMLNode::Text(t), j));
    }
    None
}

fn params_at(s: &[char], i: usize) -> (r: (Vec<String>, usize))
    requires
        i <= s@.len(),
    ensures
        n_params(s@, i as int) == (strings_view(r.0@), r.1 as int),
        i <= r.1 <= s@.len(),
{
    let slen = s.len();
    let mut acc: Vec<String> = Vec::new();
    let (first, j) = match name_at(s, i) {
        None => {
            assert(strings_view(acc@) =~= Seq::<Seq<char>>::empty());
            return (acc, i);
        },
        Some(x) => x,
    };
    acc.push(first);
    let mut pos = j;
    assert(strings_view(acc@) =~= seq![first@]);
    loop
        invariant
            slen == s@.len(),
            i < pos <= s@.len(),
            n_params(s@, i as int) == n_params_rest(s@, pos as int, strings_view(acc@)),
        decreases s@.len() - pos,
    {
        let a = ms0_at(s, pos);
        if !is_char_at(s, a, ',') {
            return (acc, pos);
        }
        match name_at(s, ms0_at(s, a + 1)) {
            None => {
                return (acc, pos);
            },
            Some((id, c)) => {
                let ghost old_acc = acc@;
                let ghost idv = id@;
                acc.push(id);
                assert(strings_view(acc@) =~= strings_view(old_acc).push(idv));
                pos = c;
            },
        }
    }
}

fn component_def_at(s: &[char], i: usize) -> (r: Option<(ComponentDef, usize)>)
    requires
        i <= s@.len(),
    ensures
        r matches Some((c, j)) ==> n_component_def(s@, i as int) == Some((c@, j as int)) && i < j
            <= s@.len(),
        r is None ==> n_component_def(s@, i as int) is None,
{
    let slen = s.len();
    let kw = ['d', 'e', 'f'];
    proof {
        reveal_strlit("def");
        assert(kw@ =~= "def"@);
    }
    let a = lit_at(s, i, &kw)?;
    let b = ms1_at(s, a)?;
    let (name, c) = name_at(s, b)?;
    let d = ms0_at(s, c);
    if !is_char_at(s, d, '(') {
        return None;
    }
    let (parameters, e) = params_at(s, ms0_at(s, d + 1));
    let f = ms0_at(s, e);
    if !is_char_at(s, f, ')') {
        return None;
    }
    let g = ms0_at(s, f + 1);
    if !is_char_at(s, g, '{') {
        return None;
    }
    let (body, h) = element_at(s, ms0_at(s, g + 1))?;
    let k = ms0_at(s, h);
    if !is_char_at(s, k, '}') {
        return None;
    }
    Some((ComponentDef { name, parameters, body }, k + 1))
}

fn imports_at(s: &[char], i: usize) -> (r: (Vec<Import>, usize))
    requires
        i <= s@.len(),
    ensures
        n_imports(s@, i as int, Seq::empty()) == (imports_view(r.0@), r.1 as int),
        i <= r.1 <= s@.len(),
{
    let slen = s.len();
    let mut acc: Vec<Import> = Vec::new();
    let mut pos = i;
    assert(imports_view(acc@) =~= Seq::<ImportView>::empty());
    loop
        invariant
            i <= pos <= s@.len(),
            n_imports(s@, i as int, Seq::empty()) == n_imports(s@, pos as int, imports_view(acc@)),
        decreases s@.len() - pos,
    {
        match import_at(s, pos) {
            Some((imp, j)) => {
                let ghost old_acc = acc@;
                let ghost v = imp@;
                acc.push(imp);
                assert(imports_view(acc@) =~= imports_view(old_acc).push(v));
                pos = ms0_at(s, j);
            },
            None => {
                return (acc, pos);
            },
        }
    }
}

fn components_at(s: &[char], i: usize) -> (r: (Vec<ComponentDef>, usize))
    requires
        i <= s@.len(),
    ensures
        n_components(s@, i as int, Seq::empty()) == (components_view(r.0@), r.1 as int),
        i <= r.1 <= s@.len(),
{
    let slen = s.len();
    let mut acc: Vec<ComponentDef> = Vec::new();
    let mut pos = i;
    assert(components_view(acc@) =~= Seq::<ComponentView>::empty());
    loop
        invariant
            i <= pos <= s@.len(),
            n_components(s@, i as int, Seq::empty()) == n_components(
                s@,
                pos as int,
                components_view(acc@),
            ),
        decreases s@.len() - pos,
    {
        match component_def_at(s, pos) {
            Some((c, j)) => {
                let ghost old_acc = acc@;
                acc.push(c);
                assert(components_view(acc@) =~= components_view(old_acc).push(component_view(c)))
                    by {
                    assert(acc@.subrange(0, old_acc.len() as int) =~= old_acc);
                }
                pos = ms0_at(s, j);
            },
            None => {
                return (acc, pos);
            },
        }
    }
}

fn document_at(s: &[char]) -> (r: (GPMLNode, usize))
    ensures
        n_document(s@) == (r.0@, r.1 as int),
        r.1 <= s@.len(),
{
    let slen = s.len();
    let start = ms0_at(s, 0);
    let (imports, a) = imports_at(s, start);
    let (components, b) = components_at(s, a);
    let (root, d) = match element_at(s, b) {
        Some((e, j)) => (Some(e), j),
        None => (None, b),
    };
    let end = ms0_at(s, d);
    (GPMLNode::Document { imports, components, root }, end)
}

impl GPMLParser {
    /// A parser that reports errors at line 1, column 1.
    pub fn new() -> (p: Self)
        ensures
            p.line == 1 && p.column == 1,
    {
        GPMLParser { line: 1, column: 1 }
    }

    /// Parses a document; what is left after it must be whitespace, else
    /// it is reported at the parser's position.
    pub fn parse(&mut self, input: &str) -> (r: GPMLResult<GPMLNode>)
        ensures
            match r {
                Ok(d) => n_parse(input@) == Ok::<NodeView, Seq<char>>(d@),
                Err(e) => e matches GPMLError::ParseError { message, line, column } && n_parse(input@)
                    == Err::<NodeView, Seq<char>>(message@) && line == old(self).line && column
                    == old(self).column,
            },
            *final(self) == *old(self),
    {
        let cs = chars_of(input);
        let (doc, j) = document_at(cs.as_slice());
        let rest = rest_trimmed(cs.as_slice(), j);
        if rest.len() == 0 {
            Ok(doc)
        } else {
            let left = rest_string(cs.as_slice(), j);
            Err(
                GPMLError::ParseError {
                    message: join_message("Unexpected content: ", left.as_str()),
                    line: self.line,
                    column: self.column,
                },
            )
        }
    }
}

} // verus!
