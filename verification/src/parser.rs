//! The GPML grammar: imports, component definitions, exports and an optional
//! root element, with elements read either by quick-xml or by the grammar's
//! own element rules.
use vstd::prelude::*;
use crate::ast::{AttrView, AttrsView, Attributes, AttributeValue, ComponentDef, ComponentView, Element, ElementView, GPMLNode, Import, ImportView, NodeView, attr_insert, attr_lookup, nodes_view, component_view, components_view, imports_view, strings_view};
use crate::grammar::{
    CharClass, span, span_of, lemma_span, char_at, is_char_at, ident_end, name_end, ident_end_at,
    name_end_at,
};
use crate::text::{find, find_from, lemma_find_from, occurs_at, matches_at, is_float_literal, float_literal, substring, seq_eq, trim, trim_chars, string_of, skip_ws, skip_whitespace, chars_of, is_ws, lemma_skip_ws, lemma_skip_ws_back};
use crate::xml::{xml_element, parse_xml_element, lemma_nodes_view_push, join_message};

verus! {

broadcast use vstd::std_specs::vec::axiom_vec_decreases_to_view;

/// The input does not match the grammar rule that was tried.
#[derive(Debug, Clone, Copy, PartialEq, Eq, Structural)]
pub struct SyntaxError;

/// Parser for the GPML markup language.
pub struct GPMLParser;

// ---------------------------------------------------------------- tokens

/// The keyword or punctuation `t` at `i`; gives the position after it.
pub open spec fn lit(s: Seq<char>, i: int, t: Seq<char>) -> Option<int> {
    if occurs_at(s, i, t) {
        Some(i + t.len())
    } else {
        None
    }
}

/// One or more spaces or tabs.
pub open spec fn space1(s: Seq<char>, i: int) -> Option<int> {
    let j = span(s, i, CharClass::Space);
    if j > i {
        Some(j)
    } else {
        None
    }
}

pub open spec fn ms0(s: Seq<char>, i: int) -> int {
    span(s, i, CharClass::MultiSpace)
}

pub open spec fn sp0(s: Seq<char>, i: int) -> int {
    span(s, i, CharClass::Space)
}

/// An identifier and the position after it.
pub open spec fn p_identifier(s: Seq<char>, i: int) -> Option<(Seq<char>, int)> {
    match ident_end(s, i) {
        Some(j) => Some((s.subrange(i, j), j)),
        None => None,
    }
}

/// A tag or attribute name and the position after it.
pub open spec fn p_name(s: Seq<char>, i: int) -> Option<(Seq<char>, int)> {
    match name_end(s, i) {
        Some(j) => Some((s.subrange(i, j), j)),
        None => None,
    }
}

/// `import PATH as ALIAS`, PATH running up to a space or tab.
pub open spec fn p_import(s: Seq<char>, i: int) -> Option<(ImportView, int)> {
    match lit(s, i, "import"@) {
        None => None,
        Some(a) => match space1(s, a) {
            None => None,
            Some(b) => {
                let c = span(s, b, CharClass::PathChar);
                if c == b {
                    None
                } else {
                    match space1(s, c) {
                        None => None,
                        Some(d) => match lit(s, d, "as"@) {
                            None => None,
                            Some(e) => match space1(s, e) {
                                None => None,
                                Some(f) => match p_identifier(s, f) {
                                    None => None,
                                    Some((alias, g)) => Some(
                                        (ImportView { path: s.subrange(b, c), alias }, g),
                                    ),
                                },
                            },
                        },
                    }
                }
            },
        },
    }
}

/// `export NAME`
pub open spec fn p_export(s: Seq<char>, i: int) -> Option<(Seq<char>, int)> {
    match lit(s, i, "export"@) {
        None => None,
        Some(a) => match space1(s, a) {
            None => None,
            Some(b) => p_identifier(s, b),
        },
    }
}

/// The rest of a parameter list after its first name: `, name` repeated,
/// with spaces around the commas. A trailing comma is left unread.
pub open spec fn p_params_rest(s: Seq<char>, i: int, acc: Seq<Seq<char>>) -> (Seq<Seq<char>>, int)
    decreases s.len() - i,
{
    let a = sp0(s, i);
    if 0 <= i <= s.len() && char_at(s, a, ',') {
        let b = sp0(s, a + 1);
        match p_identifier(s, b) {
            Some((id, c)) => if i < c <= s.len() {
                p_params_rest(s, c, acc.push(id))
            } else {
                (acc, i)
            },
            None => (acc, i),
        }
    } else {
        (acc, i)
    }
}

/// A comma-separated list of parameter names, possibly empty.
pub open spec fn p_params(s: Seq<char>, i: int) -> (Seq<Seq<char>>, int) {
    match p_identifier(s, i) {
        None => (Seq::empty(), i),
        Some((id, j)) => p_params_rest(s, j, seq![id]),
    }
}

// ------------------------------------------------------------ attributes

/// An unquoted attribute value: a float literal is a number, `true` and
/// `false` are booleans, anything else a literal.
pub open spec fn unquoted_value(v: Seq<char>) -> AttrView {
    if is_float_literal(v) {
        AttrView::Number(v)
    } else if v == "true"@ {
        AttrView::Boolean(true)
    } else if v == "false"@ {
        AttrView::Boolean(false)
    } else {
        AttrView::Literal(v)
    }
}

/// A text between the quote `q` at `i` and the next `q`.
pub open spec fn p_quoted(s: Seq<char>, i: int, q: char) -> Option<(Seq<char>, int)> {
    if char_at(s, i, q) {
        match find_from(s, i + 1, seq![q]) {
            Some(k) => Some((s.subrange(i + 1, k), k + 1)),
            None => None,
        }
    } else {
        None
    }
}

/// A double-quoted, single-quoted or unquoted attribute value.
pub open spec fn p_value(s: Seq<char>, i: int) -> Option<(AttrView, int)> {
    match p_quoted(s, i, '"') {
        Some((v, j)) => Some((AttrView::Literal(v), j)),
        None => match p_quoted(s, i, '\'') {
            Some((v, j)) => Some((AttrView::Literal(v), j)),
            None => {
                let j = span(s, i, CharClass::Unquoted);
                if 0 <= i && j > i {
                    Some((unquoted_value(s.subrange(i, j)), j))
                } else {
                    None
                }
            },
        },
    }
}

/// `name = value`, with spaces or tabs around `=`.
pub open spec fn p_attribute(s: Seq<char>, i: int) -> Option<((Seq<char>, AttrView), int)> {
    match p_name(s, i) {
        None => None,
        Some((name, a)) => {
            let b = sp0(s, a);
            if char_at(s, b, '=') {
                match p_value(s, sp0(s, b + 1)) {
                    Some((v, c)) => Some(((name, v), c)),
                    None => None,
                }
            } else {
                None
            }
        },
    }
}

/// Attributes, each after one or more spaces or tabs, set in order into
/// `acc`.
pub open spec fn p_attr_list(s: Seq<char>, i: int, acc: AttrsView) -> (AttrsView, int)
    decreases s.len() - i,
{
    match space1(s, i) {
        None => (acc, i),
        Some(a) => match p_attribute(s, a) {
            Some(((k, v), b)) => if i < b <= s.len() {
                p_attr_list(s, b, attr_insert(acc, k, v))
            } else {
                (acc, i)
            },
            None => (acc, i),
        },
    }
}

// -------------------------------------------------------------- elements

/// `${ expr }`: the trimmed text up to the first `}`.
pub open spec fn p_expression(s: Seq<char>, i: int) -> Option<(Seq<char>, int)> {
    match lit(s, i, seq!['$', '{']) {
        None => None,
        Some(a) => match find_from(s, a, seq!['}']) {
            Some(k) => Some((trim(s.subrange(a, k)), k + 1)),
            None => None,
        },
    }
}

/// A word of text: characters up to '<', '$' or whitespace.
pub open spec fn p_text(s: Seq<char>, i: int) -> Option<(Seq<char>, int)> {
    let j = span(s, i, CharClass::TextChar);
    if 0 <= i && j > i {
        Some((s.subrange(i, j), j))
    } else {
        None
    }
}

/// Scans from `k` for the `>` that closes the element opened at `start`:
/// `<` opens a level and `</` closes one, `/>` closes the level it ends, and
/// quotes inside a tag hide what they hold.
pub open spec fn p_scan(
    s: Seq<char>,
    start: int,
    k: int,
    depth: int,
    in_tag: bool,
    in_q: bool,
    q: char,
) -> Option<int>
    decreases s.len() - k,
{
    if k < 0 || k >= s.len() {
        None
    } else {
        let c = s[k];
        if c == '<' && !in_q {
            let d = if char_at(s, k + 1, '/') {
                depth - 1
            } else {
                depth + 1
            };
            p_scan(s, start, k + 1, d, true, in_q, q)
        } else if c == '>' && !in_q {
            let d = if k > start && s[k - 1] == '/' {
                depth - 1
            } else {
                depth
            };
            if d == 0 {
                Some(k)
            } else {
                p_scan(s, start, k + 1, d, false, in_q, q)
            }
        } else if (c == '"' || c == '\'') && in_tag {
            if !in_q {
                p_scan(s, start, k + 1, depth, in_tag, true, c)
            } else if c == q {
                p_scan(s, start, k + 1, depth, in_tag, false, q)
            } else {
                p_scan(s, start, k + 1, depth, in_tag, in_q, q)
            }
        } else {
            p_scan(s, start, k + 1, depth, in_tag, in_q, q)
        }
    }
}

/// The element at `i` (after leading whitespace) cut out by `p_scan` and
/// read by quick-xml, with the position after it.
pub open spec fn p_extract(s: Seq<char>, i: int) -> Result<(ElementView, int), Seq<char>> {
    let t = skip_ws(s, i);
    if !char_at(s, t, '<') {
        Err("Not an XML element"@)
    } else {
        match p_scan(s, t, t, 0, false, false, '"') {
            None => Err("Incomplete XML element"@),
            Some(k) => match xml_element(s.subrange(t, k + 1)) {
                Ok(e) => Ok((e, k + 1)),
                Err(m) => Err(m),
            },
        }
    }
}

/// An element: by quick-xml when a whole element can be cut out at `i`,
/// else by the grammar's element rules.
pub open spec fn p_hybrid(s: Seq<char>, i: int) -> Option<(ElementView, int)>
    decreases s.len() - i, 2nat,
{
    match p_extract(s, i) {
        Ok(r) => Some(r),
        Err(_) => p_element(s, i),
    }
}

/// `<name attrs />`
pub open spec fn p_self_closing(s: Seq<char>, i: int) -> Option<(ElementView, int)> {
    if char_at(s, i, '<') {
        match p_name(s, i + 1) {
            None => None,
            Some((tag, a)) => {
                let (attrs, b) = p_attr_list(s, a, Seq::empty());
                match lit(s, sp0(s, b), seq!['/', '>']) {
                    Some(c) => Some(
                        (
                            ElementView {
                                tag,
                                attributes: attrs,
                                children: Seq::empty(),
                                self_closing: true,
                            },
                            c,
                        ),
                    ),
                    None => None,
                }
            },
        }
    } else {
        None
    }
}

/// A self-closing element, else a paired one.
pub open spec fn p_element(s: Seq<char>, i: int) -> Option<(ElementView, int)>
    decreases s.len() - i, 1nat,
{
    match p_self_closing(s, i) {
        Some(r) => Some(r),
        None => p_paired(s, i),
    }
}

/// `<name attrs> children </other>`; the closing name is not compared.
pub open spec fn p_paired(s: Seq<char>, i: int) -> Option<(ElementView, int)>
    decreases s.len() - i, 0nat,
{
    if 0 <= i && char_at(s, i, '<') {
        match p_name(s, i + 1) {
            None => None,
            Some((tag, a)) => {
                let (attrs, b) = p_attr_list(s, a, Seq::empty());
                let c = sp0(s, b);
                if char_at(s, c, '>') && i < c + 1 <= s.len() {
                    proof {
                        lemma_span(s, c + 1, CharClass::MultiSpace);
                    }
                    let (children, d) = p_nodes(s, ms0(s, c + 1), Seq::empty());
                    match lit(s, ms0(s, d), seq!['<', '/']) {
                        None => None,
                        Some(e) => match p_name(s, e) {
                            None => None,
                            Some((_closing, f)) => {
                                let g = sp0(s, f);
                                if char_at(s, g, '>') {
                                    Some(
                                        (
                                            ElementView {
                                                tag,
                                                attributes: attrs,
                                                children,
                                                self_closing: false,
                                            },
                                            g + 1,
                                        ),
                                    )
                                } else {
                                    None
                                }
                            },
                        },
                    }
                } else {
                    None
                }
            },
        }
    } else {
        None
    }
}

/// Child nodes, as many as can be read, appended to `acc`.
pub open spec fn p_nodes(s: Seq<char>, i: int, acc: Seq<NodeView>) -> (Seq<NodeView>, int)
    decreases s.len() - i, 4nat,
{
    if 0 <= i <= s.len() {
        match p_node(s, i) {
            Some((n, j)) => if i < j <= s.len() {
                p_nodes(s, j, acc.push(n))
            } else {
                (acc, i)
            },
            None => (acc, i),
        }
    } else {
        (acc, i)
    }
}

/// After ASCII whitespace: an element, an expression, or a word of text.
pub open spec fn p_node(s: Seq<char>, i: int) -> Option<(NodeView, int)>
    decreases s.len() - i, 3nat,
{
    let a = ms0(s, i);
    if 0 <= i <= a <= s.len() {
        match p_hybrid(s, a) {
            Some((e, j)) => Some((NodeView::Element(e), j)),
            None => match p_expression(s, a) {
                Some((x, j)) => Some((NodeView::Expression(x), j)),
                None => match p_text(s, a) {
                    Some((t, j)) => Some((NodeView::Text(t), j)),
                    None => None,
                },
            },
        }
    } else {
        None
    }
}

/// `def NAME(params) { element }`
pub open spec fn p_component_def(s: Seq<char>, i: int) -> Option<(ComponentView, int)> {
    match lit(s, i, "def"@) {
        None => None,
        Some(a) => match space1(s, a) {
            None => None,
            Some(b) => match p_identifier(s, b) {
                None => None,
                Some((name, c)) => {
                    let d = sp0(s, c);
                    if char_at(s, d, '(') {
                        let (parameters, e) = p_params(s, d + 1);
                        let f = sp0(s, e);
                        if char_at(s, f, ')') {
                            let g = sp0(s, f + 1);
                            if char_at(s, g, '{') {
                                match p_hybrid(s, ms0(s, g + 1)) {
                                    None => None,
                                    Some((body, h)) => {
                                        let k = ms0(s, h);
                                        if char_at(s, k, '}') {
                                            Some((ComponentView { name, parameters, body }, k + 1))
                                        } else {
                                            None
                                        }
                                    },
                                }
                            } else {
                                None
                            }
                        } else {
                            None
                        }
                    } else {
                        None
                    }
                },
            },
        },
    }
}

// -------------------------------------------------------------- document

pub open spec fn p_imports(s: Seq<char>, i: int, acc: Seq<ImportView>) -> (Seq<ImportView>, int)
    decreases s.len() - i,
{
    match p_import(s, i) {
        Some((imp, j)) => if i < j <= s.len() {
            proof {
                lemma_span(s, j, CharClass::MultiSpace);
            }
            p_imports(s, ms0(s, j), acc.push(imp))
        } else {
            (acc, i)
        },
        None => (acc, i),
    }
}

pub open spec fn p_components(s: Seq<char>, i: int, acc: Seq<ComponentView>) -> (
    Seq<ComponentView>,
    int,
)
    decreases s.len() - i,
{
    match p_component_def(s, i) {
        Some((c, j)) => if i < j <= s.len() {
            proof {
                lemma_span(s, j, CharClass::MultiSpace);
            }
            p_components(s, ms0(s, j), acc.push(c))
        } else {
            (acc, i)
        },
        None => (acc, i),
    }
}

pub open spec fn p_exports(s: Seq<char>, i: int) -> int
    decreases s.len() - i,
{
    match p_export(s, i) {
        Some((_, j)) => if i < j <= s.len() {
            proof {
                lemma_span(s, j, CharClass::MultiSpace);
            }
            p_exports(s, ms0(s, j))
        } else {
            i
        },
        None => i,
    }
}

/// A document: imports, component definitions, exports, then an optional
/// root element (by the grammar's element rules), each followed by ASCII
/// whitespace. Gives the document and the position where reading stopped.
pub open spec fn p_document(s: Seq<char>) -> (NodeView, int) {
    let (imports, a) = p_imports(s, ms0(s, 0), Seq::empty());
    let (components, b) = p_components(s, a, Seq::empty());
    let c = ms0(s, p_exports(s, b));
    let (root, d) = match p_element(s, c) {
        Some((e, j)) => (Some(e), j),
        None => (None, c),
    };
    (NodeView::Document { imports, components, root }, ms0(s, d))
}

/// `s[start..]` with `<!-- ... -->` comments removed, appended to `out`; an
/// unclosed comment drops everything from its start.
pub open spec fn strip_comments(s: Seq<char>, start: int, out: Seq<char>) -> Seq<char>
    decreases s.len() - start,
{
    if start < 0 || start > s.len() {
        out
    } else {
        match find_from(s, start, "<!--"@) {
            None => out + s.subrange(start, s.len() as int),
            Some(idx) => {
                let out2 = out + s.subrange(start, idx);
                match find_from(s, idx + 4, "-->"@) {
                    Some(e) => if start < e + 3 <= s.len() {
                        strip_comments(s, e + 3, out2)
                    } else {
                        out2
                    },
                    None => out2,
                }
            },
        }
    }
}

/// Where each character that `strip_comments` keeps stood in `s`.
pub open spec fn strip_origins(s: Seq<char>, start: int, out: Seq<int>) -> Seq<int>
    decreases s.len() - start,
{
    if start < 0 || start > s.len() {
        out
    } else {
        match find_from(s, start, "<!--"@) {
            None => out + Seq::new((s.len() - start) as nat, |k: int| start + k),
            Some(idx) => {
                let out2 = out + Seq::new((idx - start) as nat, |k: int| start + k);
                match find_from(s, idx + 4, "-->"@) {
                    Some(e) => if start < e + 3 <= s.len() {
                        strip_origins(s, e + 3, out2)
                    } else {
                        out2
                    },
                    None => out2,
                }
            },
        }
    }
}

/// The origins run alongside the kept characters, and each is a position
/// of `s`.
proof fn lemma_strip_origins(s: Seq<char>, start: int, out: Seq<char>, o: Seq<int>)
    requires
        0 <= start <= s.len(),
        out.len() == o.len(),
        forall|k: int| 0 <= k < o.len() ==> 0 <= #[trigger] o[k] < s.len(),
    ensures
        strip_origins(s, start, o).len() == strip_comments(s, start, out).len(),
        forall|k: int| 0 <= k < strip_origins(s, start, o).len() ==> 0 <= #[trigger] strip_origins(s, start, o)[k]
            < s.len(),
    decreases s.len() - start,
{
    lemma_find_from(s, start, "<!--"@);
    match find_from(s, start, "<!--"@) {
        None => {
            let r = o + Seq::new((s.len() - start) as nat, |k: int| start + k);
            assert forall|k: int| 0 <= k < r.len() implies 0 <= #[trigger] r[k] < s.len() by {
                if k >= o.len() {
                    assert(r[k] == start + (k - o.len()));
                }
            }
        },
        Some(idx) => {
            let o2 = o + Seq::new((idx - start) as nat, |k: int| start + k);
            let out2 = out + s.subrange(start, idx);
            assert forall|k: int| 0 <= k < o2.len() implies 0 <= #[trigger] o2[k] < s.len() by {
                if k >= o.len() {
                    assert(o2[k] == start + (k - o.len()));
                }
            }
            lemma_find_from(s, idx + 4, "-->"@);
            match find_from(s, idx + 4, "-->"@) {
                Some(e) => if start < e + 3 <= s.len() {
                    lemma_strip_origins(s, e + 3, out2, o2);
                },
                None => {},
            }
        },
    }
}

/// The line (from 1) of position `pos` of `s`.
pub open spec fn line_at(s: Seq<char>, pos: int) -> int
    decreases pos,
{
    if pos <= 0 || pos > s.len() {
        1
    } else {
        line_at(s, pos - 1) + if s[pos - 1] == '\n' {
            1int
        } else {
            0int
        }
    }
}

/// The column (from 1) of position `pos` of `s`.
pub open spec fn column_at(s: Seq<char>, pos: int) -> int
    decreases pos,
{
    if pos <= 0 || pos > s.len() {
        1
    } else if s[pos - 1] == '\n' {
        1
    } else {
        column_at(s, pos - 1) + 1
    }
}

/// Where in a file's content the first character stands that `parse_file`
/// could not read: the first one, after whitespace, left after the
/// document (comments do not count).
pub open spec fn p_file_error_pos(content: Seq<char>) -> int {
    let cleaned = strip_comments(content, 0, Seq::empty());
    let j = p_document(cleaned).1;
    strip_origins(content, 0, Seq::empty())[skip_ws(cleaned, j)]
}

/// What `parse_file` gives for a file's content.
pub open spec fn p_file(content: Seq<char>) -> Result<NodeView, Seq<char>> {
    let cleaned = strip_comments(content, 0, Seq::empty());
    let (doc, j) = p_document(cleaned);
    let rest = trim(cleaned.subrange(j, cleaned.len() as int));
    if rest.len() == 0 {
        Ok(doc)
    } else {
        Err("Unexpected content after parsing: "@ + rest)
    }
}


// ------------------------------------------------------ executable rules

pub(crate) fn lit_at(s: &[char], i: usize, t: &[char]) -> (r: Option<usize>)
    requires
        i <= s@.len(),
    ensures
        r matches Some(j) ==> lit(s@, i as int, t@) == Some(j as int) && j <= s@.len(),
        r is None ==> lit(s@, i as int, t@) is None,
{
    let slen = s.len();
    if matches_at(s, i, t) {
        Some(i + t.len())
    } else {
        None
    }
}

fn space1_at(s: &[char], i: usize) -> (r: Option<usize>)
    requires
        i <= s@.len(),
    ensures
        r matches Some(j) ==> space1(s@, i as int) == Some(j as int) && i < j <= s@.len(),
        r is None ==> space1(s@, i as int) is None,
{
    let j = span_of(s, i, CharClass::Space);
    if j > i {
        Some(j)
    } else {
        None
    }
}

/// An identifier at `i` and the position after it.
pub fn parse_identifier(s: &[char], i: usize) -> (r: Option<(String, usize)>)
    requires
        i <= s@.len(),
    ensures
        r matches Some((id, j)) ==> p_identifier(s@, i as int) == Some((id@, j as int)) && i < j
            <= s@.len(),
        r is None ==> p_identifier(s@, i as int) is None,
{
    let slen = s.len();
    match ident_end_at(s, i) {
        Some(j) => Some((substring(s, i, j), j)),
        None => None,
    }
}

/// A tag or attribute name at `i` and the position after it.
pub fn name_at(s: &[char], i: usize) -> (r: Option<(String, usize)>)
    requires
        i <= s@.len(),
    ensures
        r matches Some((id, j)) ==> p_name(s@, i as int) == Some((id@, j as int)) && i < j
            <= s@.len(),
        r is None ==> p_name(s@, i as int) is None,
{
    let slen = s.len();
    match name_end_at(s, i) {
        Some(j) => Some((substring(s, i, j), j)),
        None => None,
    }
}

/// `import PATH as ALIAS` at `i`.
pub fn import_at(s: &[char], i: usize) -> (r: Option<(Import, usize)>)
    requires
        i <= s@.len(),
    ensures
        r matches Some((imp, j)) ==> p_import(s@, i as int) == Some((imp@, j as int)) && i < j
            <= s@.len(),
        r is None ==> p_import(s@, i as int) is None,
{
    let slen = s.len();
    let kw = ['i', 'm', 'p', 'o', 'r', 't'];
    let as_kw = ['a', 's'];
    proof {
        reveal_strlit("import");
        reveal_strlit("as");
        assert(kw@ =~= "import"@);
        assert(as_kw@ =~= "as"@);
    }
    let a = lit_at(s, i, &kw)?;
    let b = space1_at(s, a)?;
    let c = span_of(s, b, CharClass::PathChar);
    if c == b {
        return None;
    }
    let d = space1_at(s, c)?;
    let e = lit_at(s, d, &as_kw)?;
    let f = space1_at(s, e)?;
    let (alias, g) = parse_identifier(s, f)?;
    let path = substring(s, b, c);
    Some((Import { path, alias }, g))
}

/// `export NAME` at `i`.
pub fn export_at(s: &[char], i: usize) -> (r: Option<(String, usize)>)
    requires
        i <= s@.len(),
    ensures
        r matches Some((n, j)) ==> p_export(s@, i as int) == Some((n@, j as int)) && i < j
            <= s@.len(),
        r is None ==> p_export(s@, i as int) is None,
{
    let slen = s.len();
    let kw = ['e', 'x', 'p', 'o', 'r', 't'];
    proof {
        reveal_strlit("export");
        assert(kw@ =~= "export"@);
    }
    let a = lit_at(s, i, &kw)?;
    let b = space1_at(s, a)?;
    parse_identifier(s, b)
}

/// A comma-separated parameter list at `i`.
pub fn params_at(s: &[char], i: usize) -> (r: (Vec<String>, usize))
    requires
        i <= s@.len(),
    ensures
        p_params(s@, i as int) == (strings_view(r.0@), r.1 as int),
        i <= r.1 <= s@.len(),
{
    let slen = s.len();
    let mut acc: Vec<String> = Vec::new();
    let (first, j) = match parse_identifier(s, i) {
        None => {
            assert(strings_view(acc@) =~= Seq::<Seq<char>>::empty());
            return (acc, i);
        },
        Some(x) => x,
    };
    acc.push(first);
    let mut pos = j;
    assert(strings_view(acc@) =~= seq![first@]);
    loop
        invariant
            slen == s@.len(),
            i < pos <= s@.len(),
            p_params(s@, i as int) == p_params_rest(s@, pos as int, strings_view(acc@)),
        decreases s@.len() - pos,
    {
        let a = span_of(s, pos, CharClass::Space);
        if !is_char_at(s, a, ',') {
            return (acc, pos);
        }
        let b = span_of(s, a + 1, CharClass::Space);
        match parse_identifier(s, b) {
            None => {
                return (acc, pos);
            },
            Some((id, c)) => {
                let ghost old_acc = acc@;
                let ghost idv = id@;
                acc.push(id);
                assert(strings_view(acc@) =~= strings_view(old_acc).push(idv));
                pos = c;
            },
        }
    }
}

/// A quoted text at `i` between two `q`s.
pub(crate) fn quoted_at(s: &[char], i: usize, q: char) -> (r: Option<(String, usize)>)
    requires
        i <= s@.len(),
    ensures
        r matches Some((v, j)) ==> p_quoted(s@, i as int, q) == Some((v@, j as int)) && i < j
            <= s@.len(),
        r is None ==> p_quoted(s@, i as int, q) is None,
{
    let slen = s.len();
    if !is_char_at(s, i, q) {
        return None;
    }
    let qs = [q];
    assert(qs@ =~= seq![q]);
    match find(s, i + 1, &qs) {
        Some(k) => {
            proof {
                lemma_find_from(s@, i + 1, qs@);
            }
            Some((substring(s, i + 1, k), k + 1))
        },
        None => None,
    }
}

/// The value an unquoted attribute text stands for.
fn parse_unquoted_value(v: &[char]) -> (r: AttributeValue)
    ensures
        r@ == unquoted_value(v@),
{
    let t = ['t', 'r', 'u', 'e'];
    let f = ['f', 'a', 'l', 's', 'e'];
    proof {
        reveal_strlit("true");
        reveal_strlit("false");
        assert(t@ =~= "true"@);
        assert(f@ =~= "false"@);
    }
    if float_literal(v) {
        AttributeValue::Number(string_of(v))
    } else if seq_eq(v, &t) {
        AttributeValue::Boolean(true)
    } else if seq_eq(v, &f) {
        AttributeValue::Boolean(false)
    } else {
        AttributeValue::Literal(string_of(v))
    }
}

/// An attribute value at `i`.
pub fn value_at(s: &[char], i: usize) -> (r: Option<(AttributeValue, usize)>)
    requires
        i <= s@.len(),
    ensures
        r matches Some((v, j)) ==> p_value(s@, i as int) == Some((v@, j as int)) && i < j
            <= s@.len(),
        r is None ==> p_value(s@, i as int) is None,
{
    let slen = s.len();
    if let Some((v, j)) = quoted_at(s, i, '"') {
        return Some((AttributeValue::Literal(v), j));
    }
    if let Some((v, j)) = quoted_at(s, i, '\'') {
        return Some((AttributeValue::Literal(v), j));
    }
    let j = span_of(s, i, CharClass::Unquoted);
    if j > i {
        let mut content: Vec<char> = Vec::new();
        let mut k = i;
        while k < j
            invariant
                i <= k <= j <= s@.len(),
                content@ == s@.subrange(i as int, k as int),
            decreases j - k,
        {
            content.push(s[k]);
            k = k + 1;
            assert(content@ =~= s@.subrange(i as int, k as int));
        }
        Some((parse_unquoted_value(content.as_slice()), j))
    } else {
        None
    }
}

/// `name = value` at `i`.
pub fn attribute_at(s: &[char], i: usize) -> (r: Option<((String, AttributeValue), usize)>)
    requires
        i <= s@.len(),
    ensures
        r matches Some(((k, v), j)) ==> p_attribute(s@, i as int) == Some(((k@, v@), j as int))
            && i < j <= s@.len(),
        r is None ==> p_attribute(s@, i as int) is None,
{
    let slen = s.len();
    let (name, a) = name_at(s, i)?;
    let b = span_of(s, a, CharClass::Space);
    if !is_char_at(s, b, '=') {
        return None;
    }
    let c = span_of(s, b + 1, CharClass::Space);
    let (v, d) = value_at(s, c)?;
    Some(((name, v), d))
}

/// Attributes at `i`, each after spaces or tabs.
pub fn attr_list_at(s: &[char], i: usize) -> (r: (Attributes, usize))
    requires
        i <= s@.len(),
    ensures
        p_attr_list(s@, i as int, Seq::empty()) == (r.0@, r.1 as int),
        i <= r.1 <= s@.len(),
{
    let slen = s.len();
    let mut attrs = Attributes::new();
    let mut pos = i;
    loop
        invariant
            i <= pos <= s@.len(),
            p_attr_list(s@, i as int, Seq::empty()) == p_attr_list(s@, pos as int, attrs@),
        decreases s@.len() - pos,
    {
        let a = match space1_at(s, pos) {
            Some(a) => a,
            None => {
                return (attrs, pos);
            },
        };
        match attribute_at(s, a) {
            Some(((k, v), b)) => {
                attrs.insert(k, v);
                pos = b;
            },
            None => {
                return (attrs, pos);
            },
        }
    }
}

/// `${ expr }` at `i`.
pub fn expression_at(s: &[char], i: usize) -> (r: Option<(String, usize)>)
    requires
        i <= s@.len(),
    ensures
        r matches Some((x, j)) ==> p_expression(s@, i as int) == Some((x@, j as int)) && i < j
            <= s@.len(),
        r is None ==> p_expression(s@, i as int) is None,
{
    let slen = s.len();
    let open = ['$', '{'];
    let close = ['}'];
    assert(open@ =~= seq!['$', '{']);
    assert(close@ =~= seq!['}']);
    let a = lit_at(s, i, &open)?;
    let k = find(s, a, &close)?;
    proof {
        lemma_find_from(s@, a as int, close@);
    }
    let mut inner: Vec<char> = Vec::new();
    let mut p = a;
    while p < k
        invariant
            a <= p <= k < s@.len(),
            inner@ == s@.subrange(a as int, p as int),
        decreases k - p,
    {
        inner.push(s[p]);
        p = p + 1;
        assert(inner@ =~= s@.subrange(a as int, p as int));
    }
    let t = trim_chars(inner.as_slice());
    Some((string_of(t.as_slice()), k + 1))
}

/// A word of text at `i`.
pub fn text_at(s: &[char], i: usize) -> (r: Option<(String, usize)>)
    requires
        i <= s@.len(),
    ensures
        r matches Some((t, j)) ==> p_text(s@, i as int) == Some((t@, j as int)) && i < j
            <= s@.len(),
        r is None ==> p_text(s@, i as int) is None,
{
    let slen = s.len();
    let j = span_of(s, i, CharClass::TextChar);
    if j > i {
        Some((substring(s, i, j), j))
    } else {
        None
    }
}

/// The position of the `>` that closes the element opened at `start`.
fn scan_at(s: &[char], start: usize) -> (r: Option<usize>)
    requires
        start <= s@.len(),
    ensures
        r matches Some(k) ==> p_scan(s@, start as int, start as int, 0, false, false, '"') == Some(
            k as int,
        ) && start <= k < s@.len(),
        r is None ==> p_scan(s@, start as int, start as int, 0, false, false, '"') is None,
{
    let slen = s.len();
    let mut k = start;
    let mut depth: i128 = 0;
    let mut in_tag = false;
    let mut in_q = false;
    let mut q = '"';
    while k < s.len()
        invariant
            start <= k <= s@.len(),
            -(k - start) <= depth <= k - start,
            p_scan(s@, start as int, start as int, 0, false, false, '"') == p_scan(
                s@,
                start as int,
                k as int,
                depth as int,
                in_tag,
                in_q,
                q,
            ),
        decreases s@.len() - k,
    {
        let c = s[k];
        if c == '<' && !in_q {
            if k + 1 < s.len() && s[k + 1] == '/' {
                depth = depth - 1;
            } else {
                depth = depth + 1;
            }
            in_tag = true;
        } else if c == '>' && !in_q {
            if k > start && s[k - 1] == '/' {
                depth = depth - 1;
            }
            in_tag = false;
            if depth == 0 {
                return Some(k);
            }
        } else if (c == '"' || c == '\'') && in_tag {
            if !in_q {
                in_q = true;
                q = c;
            } else if c == q {
                in_q = false;
            }
        }
        k = k + 1;
    }
    None
}

/// The element at `i` (after leading whitespace) cut out at the `>` that
/// closes it and read by quick-xml, with the position after it; or why not.
pub fn extract_at(s: &[char], i: usize) -> (r: Result<(Element, usize), String>)
    requires
        i <= s@.len(),
    ensures
        match r {
            Ok((e, j)) => p_extract(s@, i as int) == Ok::<(ElementView, int), Seq<char>>(
                (e@, j as int),
            ) && i < j <= s@.len(),
            Err(m) => p_extract(s@, i as int) == Err::<(ElementView, int), Seq<char>>(m@),
        },
{
    let slen = s.len();
    let t = skip_whitespace(s, i);
    if !is_char_at(s, t, '<') {
        return Err(String::from_str("Not an XML element"));
    }
    let k = match scan_at(s, t) {
        Some(k) => k,
        None => {
            return Err(String::from_str("Incomplete XML element"));
        },
    };
    let piece = string_of_range(s, t, k + 1);
    match parse_xml_element(piece.as_str()) {
        Ok(e) => Ok((e, k + 1)),
        Err(m) => Err(m),
    }
}

fn string_of_range(s: &[char], from: usize, to: usize) -> (r: String)
    requires
        from <= to <= s@.len(),
    ensures
        r@ == s@.subrange(from as int, to as int),
{
    let slen = s.len();
    substring(s, from, to)
}

/// `<name attrs />` at `i`.
pub fn parse_self_closing_element(s: &[char], i: usize) -> (r: Option<(Element, usize)>)
    requires
        i <= s@.len(),
    ensures
        r matches Some((e, j)) ==> p_self_closing(s@, i as int) == Some((e@, j as int)) && i < j
            <= s@.len(),
        r is None ==> p_self_closing(s@, i as int) is None,
{
    let slen = s.len();
    if !is_char_at(s, i, '<') {
        return None;
    }
    let (tag, a) = name_at(s, i + 1)?;
    let (attributes, b) = attr_list_at(s, a);
    let close = ['/', '>'];
    assert(close@ =~= seq!['/', '>']);
    let c = lit_at(s, span_of(s, b, CharClass::Space), &close)?;
    let e = Element { tag, attributes, children: Vec::new(), self_closing: true };
    assert(nodes_view(e.children@) =~= Seq::<NodeView>::empty());
    Some((e, c))
}

/// An element at `i`: quick-xml when a whole element can be cut out there,
/// else the grammar's element rules.
pub fn hybrid_at(s: &[char], i: usize) -> (r: Option<(Element, usize)>)
    requires
        i <= s@.len(),
    ensures
        r matches Some((e, j)) ==> p_hybrid(s@, i as int) == Some((e@, j as int)) && i < j
            <= s@.len(),
        r is None ==> p_hybrid(s@, i as int) is None,
    decreases s@.len() - i, 2nat,
{
    let slen = s.len();
    match extract_at(s, i) {
        Ok(r) => Some(r),
        Err(_) => element_at(s, i),
    }
}

/// A self-closing or a paired element at `i`, by the grammar's rules.
pub fn element_at(s: &[char], i: usize) -> (r: Option<(Element, usize)>)
    requires
        i <= s@.len(),
    ensures
        r matches Some((e, j)) ==> p_element(s@, i as int) == Some((e@, j as int)) && i < j
            <= s@.len(),
        r is None ==> p_element(s@, i as int) is None,
    decreases s@.len() - i, 1nat,
{
    let slen = s.len();
    match parse_self_closing_element(s, i) {
        Some(r) => Some(r),
        None => parse_paired_element(s, i),
    }
}

/// `<name attrs> children </other>` at `i`.
pub fn parse_paired_element(s: &[char], i: usize) -> (r: Option<(Element, usize)>)
    requires
        i <= s@.len(),
    ensures
        r matches Some((e, j)) ==> p_paired(s@, i as int) == Some((e@, j as int)) && i < j
            <= s@.len(),
        r is None ==> p_paired(s@, i as int) is None,
    decreases s@.len() - i, 0nat,
{
    let slen = s.len();
    if !is_char_at(s, i, '<') {
        return None;
    }
    let (tag, a) = name_at(s, i + 1)?;
    let (attributes, b) = attr_list_at(s, a);
    let c = span_of(s, b, CharClass::Space);
    if !is_char_at(s, c, '>') {
        return None;
    }
    let start = span_of(s, c + 1, CharClass::MultiSpace);
    let (children, d) = nodes_at(s, start);
    let close = ['<', '/'];
    assert(close@ =~= seq!['<', '/']);
    let e = lit_at(s, span_of(s, d, CharClass::MultiSpace), &close)?;
    let (_closing, f) = name_at(s, e)?;
    let g = span_of(s, f, CharClass::Space);
    if !is_char_at(s, g, '>') {
        return None;
    }
    Some((Element { tag, attributes, children, self_closing: false }, g + 1))
}

/// Child nodes at `i`, as many as can be read.
pub fn nodes_at(s: &[char], i: usize) -> (r: (Vec<GPMLNode>, usize))
    requires
        i <= s@.len(),
    ensures
        p_nodes(s@, i as int, Seq::empty()) == (nodes_view(r.0@), r.1 as int),
        i <= r.1 <= s@.len(),
    decreases s@.len() - i, 4nat,
{
    let slen = s.len();
    let mut acc: Vec<GPMLNode> = Vec::new();
    let mut pos = i;
    assert(nodes_view(acc@) =~= Seq::<NodeView>::empty());
    loop
        invariant
            i <= pos <= s@.len(),
            p_nodes(s@, i as int, Seq::empty()) == p_nodes(s@, pos as int, nodes_view(acc@)),
        decreases s@.len() - pos,
    {
        match node_at(s, pos) {
            Some((n, j)) => {
                let ghost old_acc = acc@;
                acc.push(n);
                proof {
                    lemma_nodes_view_push(old_acc, n);
                }
                pos = j;
            },
            None => {
                return (acc, pos);
            },
        }
    }
}

/// After ASCII whitespace at `i`: an element, an expression or a word.
pub fn node_at(s: &[char], i: usize) -> (r: Option<(GPMLNode, usize)>)
    requires
        i <= s@.len(),
    ensures
        r matches Some((n, j)) ==> p_node(s@, i as int) == Some((n@, j as int)) && i < j
            <= s@.len(),
        r is None ==> p_node(s@, i as int) is None,
    decreases s@.len() - i, 3nat,
{
    let slen = s.len();
    let a = span_of(s, i, CharClass::MultiSpace);
    if let Some((e, j)) = hybrid_at(s, a) {
        return Some((GPMLNode::Element(e), j));
    }
    if let Some((x, j)) = expression_at(s, a) {
        return Some((GPMLNode::Expression(x), j));
    }
    if let Some((t, j)) = text_at(s, a) {
        return Some((GPMLNode::Text(t), j));
    }
    None
}

/// `def NAME(params) { element }` at `i`.
pub fn component_def_at(s: &[char], i: usize) -> (r: Option<(ComponentDef, usize)>)
    requires
        i <= s@.len(),
    ensures
        r matches Some((c, j)) ==> p_component_def(s@, i as int) == Some((c@, j as int)) && i < j
            <= s@.len(),
        r is None ==> p_component_def(s@, i as int) is None,
{
    let slen = s.len();
    let kw = ['d', 'e', 'f'];
    proof {
        reveal_strlit("def");
        assert(kw@ =~= "def"@);
    }
    let a = lit_at(s, i, &kw)?;
    let b = space1_at(s, a)?;
    let (name, c) = parse_identifier(s, b)?;
    let d = span_of(s, c, CharClass::Space);
    if !is_char_at(s, d, '(') {
        return None;
    }
    let (parameters, e) = params_at(s, d + 1);
    let f = span_of(s, e, CharClass::Space);
    if !is_char_at(s, f, ')') {
        return None;
    }
    let g = span_of(s, f + 1, CharClass::Space);
    if !is_char_at(s, g, '{') {
        return None;
    }
    let (body, h) = hybrid_at(s, span_of(s, g + 1, CharClass::MultiSpace))?;
    let k = span_of(s, h, CharClass::MultiSpace);
    if !is_char_at(s, k, '}') {
        return None;
    }
    Some((ComponentDef { name, parameters, body }, k + 1))
}

fn imports_at(s: &[char], i: usize) -> (r: (Vec<Import>, usize))
    requires
        i <= s@.len(),
    ensures
        p_imports(s@, i as int, Seq::empty()) == (imports_view(r.0@), r.1 as int),
        i <= r.1 <= s@.len(),
{
    let mut acc: Vec<Import> = Vec::new();
    let mut pos = i;
    assert(imports_view(acc@) =~= Seq::<ImportView>::empty());
    loop
        invariant
            i <= pos <= s@.len(),
            p_imports(s@, i as int, Seq::empty()) == p_imports(s@, pos as int, imports_view(acc@)),
        decreases s@.len() - pos,
    {
        match import_at(s, pos) {
            Some((imp, j)) => {
                let ghost old_acc = acc@;
                let ghost v = imp@;
                acc.push(imp);
                assert(imports_view(acc@) =~= imports_view(old_acc).push(v));
                pos = span_of(s, j, CharClass::MultiSpace);
            },
            None => {
                return (acc, pos);
            },
        }
    }
}

proof fn lemma_components_view_push(s: Seq<ComponentDef>, c: ComponentDef)
    ensures
        components_view(s.push(c)) == components_view(s).push(component_view(c)),
{
    assert(s.push(c).subrange(0, s.len() as int) =~= s);
}

fn components_at(s: &[char], i: usize) -> (r: (Vec<ComponentDef>, usize))
    requires
        i <= s@.len(),
    ensures
        p_components(s@, i as int, Seq::empty()) == (components_view(r.0@), r.1 as int),
        i <= r.1 <= s@.len(),
{
    let mut acc: Vec<ComponentDef> = Vec::new();
    let mut pos = i;
    assert(components_view(acc@) =~= Seq::<ComponentView>::empty());
    loop
        invariant
            i <= pos <= s@.len(),
            p_components(s@, i as int, Seq::empty()) == p_components(
                s@,
                pos as int,
                components_view(acc@),
            ),
        decreases s@.len() - pos,
    {
        match component_def_at(s, pos) {
            Some((c, j)) => {
                let ghost old_acc = acc@;
                acc.push(c);
                proof {
                    lemma_components_view_push(old_acc, c);
                }
                pos = span_of(s, j, CharClass::MultiSpace);
            },
            None => {
                return (acc, pos);
            },
        }
    }
}

fn exports_at(s: &[char], i: usize) -> (r: usize)
    requires
        i <= s@.len(),
    ensures
        p_exports(s@, i as int) == r as int,
        i <= r <= s@.len(),
{
    let mut pos = i;
    loop
        invariant
            i <= pos <= s@.len(),
            p_exports(s@, i as int) == p_exports(s@, pos as int),
        decreases s@.len() - pos,
    {
        match export_at(s, pos) {
            Some((_, j)) => {
                pos = span_of(s, j, CharClass::MultiSpace);
            },
            None => {
                return pos;
            },
        }
    }
}

/// A whole document from the start of `s`, and the position where reading
/// stopped.
pub fn document_at(s: &[char]) -> (r: (GPMLNode, usize))
    ensures
        p_document(s@) == (r.0@, r.1 as int),
        r.1 <= s@.len(),
{
    let start = span_of(s, 0, CharClass::MultiSpace);
    let (imports, a) = imports_at(s, start);
    let (components, b) = components_at(s, a);
    let c = span_of(s, exports_at(s, b), CharClass::MultiSpace);
    let (root, d) = match element_at(s, c) {
        Some((e, j)) => (Some(e), j),
        None => (None, c),
    };
    let end = span_of(s, d, CharClass::MultiSpace);
    (GPMLNode::Document { imports, components, root }, end)
}

/// The characters of `s` with `<!-- ... -->` comments removed.
/// Positions as integers.
pub open spec fn positions_view(v: Seq<usize>) -> Seq<int> {
    v.map_values(|x: usize| x as int)
}

/// `strip_comments_of`, with where each kept character stood in `s`.
pub fn strip_comments_tracked(s: &[char]) -> (r: (Vec<char>, Vec<usize>))
    ensures
        r.0@ == strip_comments(s@, 0, Seq::empty()),
        positions_view(r.1@) == strip_origins(s@, 0, Seq::empty()),
{
    let slen = s.len();
    let open = ['<', '!', '-', '-'];
    let close = ['-', '-', '>'];
    proof {
        reveal_strlit("<!--");
        reveal_strlit("-->");
        assert(open@ =~= "<!--"@);
        assert(close@ =~= "-->"@);
    }
    let mut out: Vec<char> = Vec::new();
    let mut at: Vec<usize> = Vec::new();
    let mut start: usize = 0;
    assert(positions_view(at@) =~= Seq::<int>::empty());
    loop
        invariant
            slen == s@.len(),
            start <= s@.len(),
            open@ == "<!--"@,
            close@ == "-->"@,
            strip_comments(s@, 0, Seq::empty()) == strip_comments(s@, start as int, out@),
            strip_origins(s@, 0, Seq::empty()) == strip_origins(s@, start as int, positions_view(at@)),
        decreases s@.len() - start,
    {
        let stop = match find(s, start, &open) {
            None => slen,
            Some(idx) => idx,
        };
        proof {
            lemma_find_from(s@, start as int, open@);
        }
        let mut k = start;
        let ghost out0 = out@;
        let ghost at0 = positions_view(at@);
        while k < stop
            invariant
                slen == s@.len(),
                start <= k <= stop <= s@.len(),
                out@ == out0 + s@.subrange(start as int, k as int),
                positions_view(at@) == at0 + Seq::new((k - start) as nat, |x: int| start + x),
            decreases stop - k,
        {
            out.push(s[k]);
            let ghost before = at@;
            at.push(k);
            assert(positions_view(at@) =~= positions_view(before).push(k as int));
            k = k + 1;
            assert(out@ =~= out0 + s@.subrange(start as int, k as int));
            assert(positions_view(at@) =~= at0 + Seq::new((k - start) as nat, |x: int| start + x));
        }
        if stop == slen {
            return (out, at);
        }
        match find(s, stop + 4, &close) {
            Some(e) => {
                proof {
                    lemma_find_from(s@, stop + 4, close@);
                }
                start = e + 3;
            },
            None => {
                return (out, at);
            },
        }
    }
}

/// `s` with `<!-- ... -->` comments removed (see `strip_comments`).
pub fn strip_comments_of(s: &[char]) -> (r: Vec<char>)
    ensures
        r@ == strip_comments(s@, 0, Seq::empty()),
{
    let (out, _at) = strip_comments_tracked(s);
    out
}

/// Skipping whitespace from `j` is skipping it in the text from `j` on.
proof fn lemma_skip_ws_shift(s: Seq<char>, j: int)
    requires
        0 <= j <= s.len(),
    ensures
        skip_ws(s, j) == j + skip_ws(s.subrange(j, s.len() as int), 0),
    decreases s.len() - j,
{
    let t = s.subrange(j, s.len() as int);
    if j < s.len() && is_ws(s[j]) {
        lemma_skip_ws_shift(s, j + 1);
        lemma_skip_ws_shift(t, 1);
        assert(t.subrange(1, t.len() as int) =~= s.subrange(j + 1, s.len() as int));
    } else if j < s.len() {
        assert(t[0] == s[j]);
    }
}

/// A text whose trimmed form is not empty holds a character that is not
/// whitespace where the leading whitespace ends.
proof fn lemma_trim_nonempty(t: Seq<char>)
    requires
        trim(t).len() > 0,
    ensures
        skip_ws(t, 0) < t.len(),
{
    lemma_skip_ws(t, 0);
    let a = skip_ws(t, 0);
    lemma_skip_ws_back(t, a, t.len() as int);
}

pub(crate) fn rest_trimmed(s: &[char], j: usize) -> (r: Vec<char>)
    requires
        j <= s@.len(),
    ensures
        r@ == trim(s@.subrange(j as int, s@.len() as int)),
{
    let slen = s.len();
    let mut rest: Vec<char> = Vec::new();
    let mut k = j;
    while k < slen
        invariant
            slen == s@.len(),
            j <= k <= s@.len(),
            rest@ == s@.subrange(j as int, k as int),
        decreases s@.len() - k,
    {
        rest.push(s[k]);
        k = k + 1;
        assert(rest@ =~= s@.subrange(j as int, k as int));
    }
    trim_chars(rest.as_slice())
}

/// The text of `s` from position `j` on.
pub(crate) fn rest_string(s: &[char], j: usize) -> (r: String)
    requires
        j <= s@.len(),
    ensures
        r@ == s@.subrange(j as int, s@.len() as int),
{
    substring(s, j, s.len())
}

impl GPMLParser {
    /// Parses a complete document: imports, component definitions, exports,
    /// then an optional root element. Gives the text left unread with it;
    /// reading a document never fails.
    pub fn parse_document(input: &str) -> (r: Result<(String, GPMLNode), SyntaxError>)
        ensures
            r matches Ok((rest, doc)) && p_document(input@) == (doc@, input@.len() - rest@.len())
                && rest@ == input@.subrange(input@.len() - rest@.len(), input@.len() as int),
            r is Ok,
    {
        let cs = chars_of(input);
        let (doc, j) = document_at(cs.as_slice());
        Ok((rest_string(cs.as_slice(), j), doc))
    }

    /// Reads one XML element with quick-xml.
    pub fn parse_xml_element(xml_content: &str) -> (r: Result<Element, String>)
        ensures
            match r {
                Ok(e) => xml_element(xml_content@) == Ok::<ElementView, Seq<char>>(e@),
                Err(m) => xml_element(xml_content@) == Err::<ElementView, Seq<char>>(m@),
            },
    {
        parse_xml_element(xml_content)
    }

    /// Parses a GPML file: comments are removed, then the document is read,
    /// and anything but whitespace left after it is an error.
    pub fn parse_file(content: &str) -> (r: Result<GPMLNode, String>)
        ensures
            match r {
                Ok(doc) => p_file(content@) == Ok::<NodeView, Seq<char>>(doc@),
                Err(m) => p_file(content@) == Err::<NodeView, Seq<char>>(m@),
            },
    {
        let cs = chars_of(content);
        let cleaned = strip_comments_of(cs.as_slice());
        let (doc, j) = document_at(cleaned.as_slice());
        let rest = rest_trimmed(cleaned.as_slice(), j);
        if rest.len() == 0 {
            Ok(doc)
        } else {
            let msg = string_of(rest.as_slice());
            Err(join_message("Unexpected content after parsing: ", msg.as_str()))
        }
    }
}

/// The line and column (from 1) of `pos` in `s`.
pub fn line_column(s: &[char], pos: usize) -> (r: (usize, usize))
    requires
        pos < s@.len(),
    ensures
        r.0 as int == line_at(s@, pos as int),
        r.1 as int == column_at(s@, pos as int),
{
    let mut line: usize = 1;
    let mut col: usize = 1;
    let mut k: usize = 0;
    while k < pos
        invariant
            k <= pos < s@.len(),
            line as int == line_at(s@, k as int),
            col as int == column_at(s@, k as int),
            1 <= line <= k + 1,
            1 <= col <= k + 1,
        decreases pos - k,
    {
        if s[k] == '\n' {
            line = line + 1;
            col = 1;
        } else {
            col = col + 1;
        }
        k = k + 1;
    }
    (line, col)
}

impl GPMLParser {
    /// `parse_file`, with the line and column (from 1, in `content`) of the
    /// first character it could not read when it fails.
    pub fn parse_file_located(content: &str) -> (r: Result<GPMLNode, (String, usize, usize)>)
        ensures
            match p_file(content@) {
                Ok(d) => r matches Ok(doc) && doc@ == d,
                Err(m) => r matches Err((msg, line, column)) && msg@ == m && line as int == line_at(
                    content@,
                    p_file_error_pos(content@),
                ) && column as int == column_at(content@, p_file_error_pos(content@)),
            },
    {
        let cs = chars_of(content);
        let (cleaned, at) = strip_comments_tracked(cs.as_slice());
        proof {
            lemma_strip_origins(cs@, 0, Seq::empty(), Seq::empty());
        }
        let (doc, j) = document_at(cleaned.as_slice());
        let rest = rest_trimmed(cleaned.as_slice(), j);
        if rest.len() == 0 {
            return Ok(doc);
        }
        let msg = string_of(rest.as_slice());
        let m = join_message("Unexpected content after parsing: ", msg.as_str());
        let k = skip_whitespace(cleaned.as_slice(), j);
        proof {
            lemma_skip_ws_shift(cleaned@, j as int);
            lemma_trim_nonempty(cleaned@.subrange(j as int, cleaned@.len() as int));
            assert(positions_view(at@)[k as int] == at@[k as int] as int);
        }
        let pos = at[k];
        let (line, column) = line_column(cs.as_slice(), pos);
        Err((m, line, column))
    }
}

/// The result of a grammar rule on a whole text: the value and the text left
/// after it.
pub open spec fn rule_result<T>(input: Seq<char>, r: Option<(T, int)>, rest: Seq<char>, v: T) -> bool {
    r == Some((v, input.len() - rest.len())) && rest == input.subrange(
        input.len() - rest.len(),
        input.len() as int,
    )
}

/// `import PATH as ALIAS` at the start of `input`.
pub fn parse_import(input: &str) -> (r: Result<(String, Import), SyntaxError>)
    ensures
        r matches Ok((rest, imp)) ==> rule_result(input@, p_import(input@, 0), rest@, imp@),
        r is Err ==> p_import(input@, 0) is None,
{
    let cs = chars_of(input);
    match import_at(cs.as_slice(), 0) {
        Some((imp, j)) => Ok((rest_string(cs.as_slice(), j), imp)),
        None => Err(SyntaxError),
    }
}

/// `export NAME` at the start of `input`.
pub fn parse_export(input: &str) -> (r: Result<(String, String), SyntaxError>)
    ensures
        r matches Ok((rest, name)) ==> rule_result(input@, p_export(input@, 0), rest@, name@),
        r is Err ==> p_export(input@, 0) is None,
{
    let cs = chars_of(input);
    match export_at(cs.as_slice(), 0) {
        Some((n, j)) => Ok((rest_string(cs.as_slice(), j), n)),
        None => Err(SyntaxError),
    }
}

/// `def NAME(params) { element }` at the start of `input`.
pub fn parse_component_def(input: &str) -> (r: Result<(String, ComponentDef), SyntaxError>)
    ensures
        r matches Ok((rest, c)) ==> rule_result(input@, p_component_def(input@, 0), rest@, c@),
        r is Err ==> p_component_def(input@, 0) is None,
{
    let cs = chars_of(input);
    match component_def_at(cs.as_slice(), 0) {
        Some((c, j)) => Ok((rest_string(cs.as_slice(), j), c)),
        None => Err(SyntaxError),
    }
}

/// An element at the start of `input` by the grammar's element rules.
pub fn parse_element(input: &str) -> (r: Result<(String, Element), SyntaxError>)
    ensures
        r matches Ok((rest, e)) ==> rule_result(input@, p_element(input@, 0), rest@, e@),
        r is Err ==> p_element(input@, 0) is None,
{
    let cs = chars_of(input);
    match element_at(cs.as_slice(), 0) {
        Some((e, j)) => Ok((rest_string(cs.as_slice(), j), e)),
        None => Err(SyntaxError),
    }
}

/// An element at the start of `input`, read by quick-xml when a whole
/// element can be cut out there, else by the grammar's element rules.
pub fn parse_element_hybrid(input: &str) -> (r: Result<(String, Element), SyntaxError>)
    ensures
        r matches Ok((rest, e)) ==> rule_result(input@, p_hybrid(input@, 0), rest@, e@),
        r is Err ==> p_hybrid(input@, 0) is None,
{
    let cs = chars_of(input);
    match hybrid_at(cs.as_slice(), 0) {
        Some((e, j)) => Ok((rest_string(cs.as_slice(), j), e)),
        None => Err(SyntaxError),
    }
}

/// Cuts out the element at the start of `input` (after whitespace) and reads
/// it with quick-xml; gives the element and the byte offset in `input` just
/// after it.
pub fn extract_and_parse_xml_element(input: &str) -> (r: Result<(Element, usize), String>)
    ensures
        match r {
            Ok((e, n)) => p_extract(input@, 0) matches Ok((ev, j)) && ev == e@ && 0 <= j <= input@.len()
                && n == vstd::utf8::encode_utf8(input@.subrange(0, j)).len(),
            Err(m) => p_extract(input@, 0) == Err::<(ElementView, int), Seq<char>>(m@),
        },
{
    let cs = chars_of(input);
    match extract_at(cs.as_slice(), 0) {
        Ok((e, j)) => {
            let taken = substring(cs.as_slice(), 0, j);
            let n = taken.as_str().as_bytes().len();
            Ok((e, n))
        },
        Err(m) => Err(m),
    }
}


/// An occurrence in the second part of a text, and one inside its first part.
proof fn lemma_occurs_in_parts(x: Seq<char>, y: Seq<char>, j: int, t: Seq<char>)
    requires
        0 <= j,
    ensures
        occurs_at(x + y, x.len() + j, t) == occurs_at(y, j, t),
        j + t.len() <= x.len() ==> occurs_at(x + y, j, t) == occurs_at(x, j, t),
{
    if j + t.len() <= y.len() {
        assert((x + y).subrange(x.len() + j, x.len() + j + t.len()) =~= y.subrange(j, j + t.len()));
    }
    if j + t.len() <= x.len() {
        assert((x + y).subrange(j, j + t.len()) =~= x.subrange(j, j + t.len()));
    }
}

/// The first occurrence at or after `from` is the one at `k` when none
/// comes before it.
proof fn lemma_find_first(s: Seq<char>, from: int, t: Seq<char>, k: int)
    requires
        0 <= from <= k,
        occurs_at(s, k, t),
        forall|j: int| from <= j < k ==> !occurs_at(s, j, t),
    ensures
        find_from(s, from, t) == Some(k),
    decreases k - from,
{
    if from < k {
        lemma_find_first(s, from + 1, t, k);
    }
}

/// No occurrence at or after `from`: nothing is found.
proof fn lemma_find_none(s: Seq<char>, from: int, t: Seq<char>)
    requires
        0 <= from,
        forall|j: int| from <= j ==> !occurs_at(s, j, t),
    ensures
        find_from(s, from, t) is None,
    decreases s.len() + 1 - from,
{
    if from + t.len() <= s.len() {
        lemma_find_none(s, from + 1, t);
    }
}

/// `s1`, then the comment holding `c`, then `s2`.
pub open spec fn commented(s1: Seq<char>, c: Seq<char>, s2: Seq<char>) -> Seq<char> {
    s1 + "<!--"@ + c + "-->"@ + s2
}

proof fn lemma_comment_opens(s1: Seq<char>, c: Seq<char>, s2: Seq<char>)
    requires
        find_from(s1 + s2, 0, "<!--"@) is None,
    ensures
        find_from(commented(s1, c, s2), 0, "<!--"@) == Some(s1.len() as int),
{
    reveal_strlit("<!--");
    let op = "<!--"@;
    let w = commented(s1, c, s2);
    let rest = op + c + "-->"@ + s2;
    assert(w =~= s1 + rest);
    let l1 = s1.len() as int;
    lemma_find_from(s1 + s2, 0, op);
    assert forall|k: int| 0 <= k < l1 implies !occurs_at(w, k, op) by {
        if k + 4 <= l1 {
            lemma_occurs_in_parts(s1, rest, k, op);
            lemma_occurs_in_parts(s1, s2, k, op);
        } else if occurs_at(w, k, op) {
            assert(w.subrange(k, k + 4)[l1 - k] == op[l1 - k]);
            assert(w[l1] == rest[0]);
        }
    }
    assert(w.subrange(l1, l1 + 4) =~= op);
    lemma_find_first(w, 0, op, l1);
}

proof fn lemma_comment_closes(s1: Seq<char>, c: Seq<char>, s2: Seq<char>)
    requires
        find_from(c, 0, "-->"@) is None,
    ensures
        find_from(commented(s1, c, s2), s1.len() + 4int, "-->"@) == Some(s1.len() + 4int + c.len()),
{
    reveal_strlit("<!--");
    reveal_strlit("-->");
    let cl = "-->"@;
    let w = commented(s1, c, s2);
    let pre = s1 + "<!--"@;
    let rest = c + cl + s2;
    assert(w =~= pre + rest);
    let b: int = s1.len() + 4int;
    let e: int = b + c.len();
    lemma_find_from(c, 0, cl);
    assert forall|k: int| b <= k < e implies !occurs_at(w, k, cl) by {
        if k + 3 <= e {
            lemma_occurs_in_parts(pre, rest, k - b, cl);
            lemma_occurs_in_parts(c, cl + s2, k - b, cl);
            assert(rest =~= c + (cl + s2));
        } else if occurs_at(w, k, cl) {
            assert(w.subrange(k, k + 3)[2] == cl[2]);
            assert(w[e] == rest[c.len() as int]);
            assert(w[e + 1] == rest[c.len() + 1int]);
        }
    }
    assert(w.subrange(e, e + 3) =~= cl);
    lemma_find_first(w, b, cl, e);
}

proof fn lemma_nothing_opens_after(s1: Seq<char>, c: Seq<char>, s2: Seq<char>)
    requires
        find_from(s1 + s2, 0, "<!--"@) is None,
    ensures
        find_from(commented(s1, c, s2), s1.len() + 7int + c.len(), "<!--"@) is None,
{
    let op = "<!--"@;
    let head = s1 + op + c + "-->"@;
    let w = commented(s1, c, s2);
    assert(w =~= head + s2);
    reveal_strlit("<!--");
    reveal_strlit("-->");
    let e3: int = s1.len() + 7int + c.len();
    assert(head.len() == e3);
    lemma_find_from(s1 + s2, 0, op);
    assert forall|k: int| e3 <= k implies !occurs_at(w, k, op) by {
        lemma_occurs_in_parts(head, s2, k - e3, op);
        lemma_occurs_in_parts(s1, s2, k - e3, op);
    }
    lemma_find_none(w, e3, op);
}

/// A comment `<!--c-->` (with no `-->` in `c`) placed anywhere in a file
/// that holds no `<!--` leaves what the file parses to unchanged.
pub proof fn law_comment_dropped(s1: Seq<char>, c: Seq<char>, s2: Seq<char>)
    requires
        find_from(s1 + s2, 0, "<!--"@) is None,
        find_from(c, 0, "-->"@) is None,
    ensures
        p_file(commented(s1, c, s2)) == p_file(s1 + s2),
{
    let w = commented(s1, c, s2);
    let l1 = s1.len() as int;
    let e: int = l1 + 4 + c.len();
    lemma_comment_opens(s1, c, s2);
    lemma_comment_closes(s1, c, s2);
    lemma_nothing_opens_after(s1, c, s2);
    reveal_strlit("<!--");
    reveal_strlit("-->");
    assert(w.len() == l1 + 7 + c.len() + s2.len());
    assert(Seq::<char>::empty() + w.subrange(0, l1) =~= s1);
    assert(strip_comments(w, 0, Seq::empty()) == strip_comments(w, e + 3, s1));
    assert(w.subrange(e + 3, w.len() as int) =~= s2);
    assert(strip_comments(w, 0, Seq::empty()) == s1 + s2);
    assert(strip_comments(s1 + s2, 0, Seq::empty()) =~= s1 + s2);
}


/// Reading more attributes keeps every key already bound.
pub proof fn law_attr_list_keeps_keys(s: Seq<char>, i: int, acc: AttrsView, key: Seq<char>)
    requires
        attr_lookup(acc, key) is Some,
    ensures
        attr_lookup(p_attr_list(s, i, acc).0, key) is Some,
    decreases s.len() - i,
{
    if let Some(a) = space1(s, i) {
        if let Some(((k, v), b)) = p_attribute(s, a) {
            if i < b <= s.len() {
                crate::ast::lemma_attr_insert_lookup(acc, k, v, key);
                law_attr_list_keeps_keys(s, b, attr_insert(acc, k, v), key);
            }
        }
    }
}

/// An attribute `k = v` that the list reads is in the result: its key is
/// bound, and to `v` when the list ends right after it.
pub proof fn law_attr_list_keeps_read_attribute(s: Seq<char>, i: int, acc: AttrsView)
    ensures
        space1(s, i) matches Some(a) ==> (p_attribute(s, a) matches Some(((k, v), b)) ==> (i < b <= s.len()
            ==> {
            &&& attr_lookup(p_attr_list(s, i, acc).0, k) is Some
            &&& space1(s, b) is None ==> attr_lookup(p_attr_list(s, i, acc).0, k) == Some(v)
        })),
{
    if let Some(a) = space1(s, i) {
        if let Some(((k, v), b)) = p_attribute(s, a) {
            if i < b <= s.len() {
                crate::ast::lemma_attr_insert_lookup(acc, k, v, k);
                law_attr_list_keeps_keys(s, b, attr_insert(acc, k, v), k);
            }
        }
    }
}

} // verus!
