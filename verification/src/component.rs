//! Components: the context that binds variables and component definitions,
//! interpolation of `${name}` references, instantiation of components, the
//! resolution of an element tree, and the loading state of component files.
use vstd::prelude::*;
use crate::ast::{AttrView, AttrsView, Attributes, AttributeValue, ComponentDef, ComponentView, Element, ElementView, GPMLNode, Import, NodeView, attr_text, attr_lookup, attr_insert, attr_index_from, attrs_view, nodes_view, components_view, component_view, lemma_nodes_view_len, lemma_nodes_view_index, strings_view};
use crate::error::{GPMLError, GPMLResult};
use crate::parser::{GPMLParser, p_file, p_file_error_pos, line_at, column_at};
use crate::paths::{join, join_path, contains_str, set_remove, without};
use crate::text::{chars_of, starts_with, ends_with, has_prefix, has_suffix, substring, str_eq, find, find_from, lemma_find_from};
use crate::xml::{lemma_nodes_view_push, join_message};

verus! {

broadcast use vstd::std_specs::vec::axiom_vec_decreases_to_view;

// ------------------------------------------------------------- the model

/// The model of a context: its component definitions (by name, the first
/// of a name counting), its variables and its base path.
pub struct ContextView {
    pub components: Seq<ComponentView>,
    pub variables: AttrsView,
    pub base_path: Seq<char>,
}

/// The index of the first definition named `name` at or after `i`.
pub open spec fn comp_index_from(cs: Seq<ComponentView>, name: Seq<char>, i: int) -> Option<int>
    decreases cs.len() - i,
{
    if i < 0 || i >= cs.len() {
        None
    } else if cs[i].name == name {
        Some(i)
    } else {
        comp_index_from(cs, name, i + 1)
    }
}

pub open spec fn comp_index(cs: Seq<ComponentView>, name: Seq<char>) -> Option<int> {
    comp_index_from(cs, name, 0)
}

/// The definition named `name`.
pub open spec fn comp_lookup(cs: Seq<ComponentView>, name: Seq<char>) -> Option<ComponentView> {
    match comp_index(cs, name) {
        Some(i) => Some(cs[i]),
        None => None,
    }
}

/// `cs` with `c` in place of the definition of its name, or added last.
pub open spec fn comp_insert(cs: Seq<ComponentView>, c: ComponentView) -> Seq<ComponentView> {
    match comp_index(cs, c.name) {
        Some(i) => cs.update(i, c),
        None => cs.push(c),
    }
}

proof fn lemma_comp_index_from(cs: Seq<ComponentView>, name: Seq<char>, i: int)
    requires
        0 <= i,
    ensures
        comp_index_from(cs, name, i) matches Some(k) ==> i <= k < cs.len() && cs[k].name == name
            && forall|j: int| i <= j < k ==> cs[j].name != name,
        comp_index_from(cs, name, i) is None ==> forall|j: int| i <= j < cs.len() ==> cs[j].name
            != name,
    decreases cs.len() - i,
{
    if i < cs.len() && cs[i].name != name {
        lemma_comp_index_from(cs, name, i + 1);
    }
}

/// After a definition is added, looking up its name gives it, and looking
/// up any other name gives what it gave before.
pub proof fn lemma_comp_insert_lookup(cs: Seq<ComponentView>, c: ComponentView, other: Seq<char>)
    ensures
        comp_lookup(comp_insert(cs, c), c.name) == Some(c),
        other != c.name ==> comp_lookup(comp_insert(cs, c), other) == comp_lookup(cs, other),
{
    let b = comp_insert(cs, c);
    lemma_comp_index_from(cs, c.name, 0);
    lemma_comp_index_from(b, c.name, 0);
    lemma_comp_index_from(cs, other, 0);
    lemma_comp_index_from(b, other, 0);
    match comp_index(cs, c.name) {
        Some(i) => {
            if comp_index(b, c.name) != Some(i) {
                assert(b[i].name == c.name);
            }
            if other != c.name {
                match comp_index(cs, other) {
                    Some(k) => {
                        if comp_index(b, other) != Some(k) {
                            assert(b[k].name == other);
                        }
                    },
                    None => {},
                }
            }
        },
        None => {
            let n = cs.len() as int;
            if comp_index(b, c.name) != Some(n) {
                assert(b[n].name == c.name);
            }
            if other != c.name {
                match comp_index(cs, other) {
                    Some(k) => {
                        if comp_index(b, other) != Some(k) {
                            assert(b[k].name == other);
                        }
                    },
                    None => {},
                }
            }
        },
    }
}

/// Where the `}` that closes a `${` at `i` stands, if `${` starts at `i`
/// and a `}` follows.
pub open spec fn placeholder_end(s: Seq<char>, i: int) -> Option<int> {
    if 0 <= i && i + 1 < s.len() && s[i] == '$' && s[i + 1] == '{' {
        find_from(s, i + 2, seq!['}'])
    } else {
        None
    }
}

/// `s` from `i` on, each `${name}` with `name` bound replaced by the text of
/// its value; the rest of the text, unbound placeholders included, is kept.
pub open spec fn interp_from(vars: AttrsView, s: Seq<char>, i: int) -> Seq<char>
    decreases s.len() - i,
{
    if i < 0 || i >= s.len() {
        Seq::empty()
    } else {
        match placeholder_end(s, i) {
            Some(j) => {
                proof {
                    lemma_find_from(s, i + 2, seq!['}']);
                }
                let rest = interp_from(vars, s, j + 1);
                match attr_lookup(vars, s.subrange(i + 2, j)) {
                    Some(x) => attr_text(x) + rest,
                    None => s.subrange(i, j + 1) + rest,
                }
            },
            None => seq![s[i]] + interp_from(vars, s, i + 1),
        }
    }
}

/// A text with every `${name}` whose `name` is bound replaced by the text
/// of its value.
pub open spec fn interp_string(vars: AttrsView, v: Seq<char>) -> Seq<char> {
    interp_from(vars, v, 0)
}

/// An expression naming a bound variable becomes the variable's value; any
/// other value stays.
pub open spec fn interp_attr(vars: AttrsView, a: AttrView) -> AttrView {
    match a {
        AttrView::Expression(e) => match attr_lookup(vars, e) {
            Some(x) => x,
            None => a,
        },
        _ => a,
    }
}

pub open spec fn interp_attrs(vars: AttrsView, attrs: AttrsView) -> AttrsView {
    Seq::new(attrs.len(), |i: int| (attrs[i].0, interp_attr(vars, attrs[i].1)))
}

/// An element with its attributes and, recursively, its children
/// interpolated.
pub open spec fn interp_element(vars: AttrsView, e: ElementView) -> ElementView
    decreases e, 1nat,
{
    ElementView {
        tag: e.tag,
        attributes: interp_attrs(vars, e.attributes),
        children: interp_nodes(vars, e.children),
        self_closing: e.self_closing,
    }
}

pub open spec fn interp_nodes(vars: AttrsView, s: Seq<NodeView>) -> Seq<NodeView>
    decreases s, s.len(),
{
    if s.len() == 0 {
        Seq::empty()
    } else {
        interp_nodes(vars, s.subrange(0, s.len() - 1)).push(interp_node(vars, s[s.len() - 1]))
    }
}

/// A text is interpolated, an expression naming a bound variable becomes
/// the text of its value, an element is interpolated; other nodes stay.
pub open spec fn interp_node(vars: AttrsView, n: NodeView) -> NodeView
    decreases n, 0nat,
{
    match n {
        NodeView::Element(c) => NodeView::Element(interp_element(vars, c)),
        NodeView::Text(t) => NodeView::Text(interp_string(vars, t)),
        NodeView::Expression(x) => match attr_lookup(vars, x) {
            Some(v) => NodeView::Text(attr_text(v)),
            None => n,
        },
        _ => n,
    }
}

/// The arguments an element passes to a component: its attributes,
/// interpolated, set in order.
pub open spec fn args_of(vars: AttrsView, attrs: AttrsView) -> AttrsView
    decreases attrs.len(),
{
    if attrs.len() == 0 {
        Seq::empty()
    } else {
        let last = attrs[attrs.len() - 1];
        attr_insert(args_of(vars, attrs.drop_last()), last.0, interp_attr(vars, last.1))
    }
}

/// `vars` with each parameter that has an argument bound to it, in order.
pub open spec fn bind_params(vars: AttrsView, params: Seq<Seq<char>>, args: AttrsView) -> AttrsView
    decreases params.len(),
{
    if params.len() == 0 {
        vars
    } else {
        let prev = bind_params(vars, params.drop_last(), args);
        let p = params[params.len() - 1];
        match attr_lookup(args, p) {
            Some(v) => attr_insert(prev, p, v),
            None => prev,
        }
    }
}

/// An instance of `def`: as many arguments as parameters are needed, else
/// the expected and given counts; the body is interpolated with the
/// parameters bound.
pub open spec fn instantiate(def: ComponentView, args: AttrsView, vars: AttrsView) -> Result<
    ElementView,
    (nat, nat),
> {
    if args.len() != def.parameters.len() {
        Err((def.parameters.len(), args.len()))
    } else {
        Ok(interp_element(bind_params(vars, def.parameters, args), def.body))
    }
}

/// An element resolved in a context: an element named after a component is
/// replaced by an instance of it; any other keeps its tag, has its
/// attributes interpolated and its children resolved.
pub open spec fn resolve(ctx: ContextView, e: ElementView) -> Result<ElementView, (nat, nat)>
    decreases e, 1nat,
{
    match comp_lookup(ctx.components, e.tag) {
        Some(def) => instantiate(def, args_of(ctx.variables, e.attributes), ctx.variables),
        None => match resolve_nodes(ctx, e.children) {
            Ok(children) => Ok(
                ElementView {
                    tag: e.tag,
                    attributes: interp_attrs(ctx.variables, e.attributes),
                    children,
                    self_closing: e.self_closing,
                },
            ),
            Err(x) => Err(x),
        },
    }
}

pub open spec fn resolve_nodes(ctx: ContextView, s: Seq<NodeView>) -> Result<Seq<NodeView>, (nat, nat)>
    decreases s, s.len(),
{
    if s.len() == 0 {
        Ok(Seq::empty())
    } else {
        match resolve_nodes(ctx, s.subrange(0, s.len() - 1)) {
            Err(x) => Err(x),
            Ok(prev) => match resolve_node(ctx, s[s.len() - 1]) {
                Err(x) => Err(x),
                Ok(n) => Ok(prev.push(n)),
            },
        }
    }
}

pub open spec fn resolve_node(ctx: ContextView, n: NodeView) -> Result<NodeView, (nat, nat)>
    decreases n, 0nat,
{
    match n {
        NodeView::Element(c) => match resolve(ctx, c) {
            Ok(r) => Ok(NodeView::Element(r)),
            Err(x) => Err(x),
        },
        _ => Ok(interp_node(ctx.variables, n)),
    }
}

proof fn lemma_resolve_nodes_err(ctx: ContextView, s: Seq<NodeView>, k: int)
    requires
        0 <= k <= s.len(),
        resolve_nodes(ctx, s.subrange(0, k)) is Err,
    ensures
        resolve_nodes(ctx, s) == resolve_nodes(ctx, s.subrange(0, k)),
    decreases s.len(),
{
    if k < s.len() {
        let t = s.subrange(0, s.len() - 1);
        assert(t.subrange(0, k) =~= s.subrange(0, k));
        lemma_resolve_nodes_err(ctx, t, k);
    } else {
        assert(s.subrange(0, k) =~= s);
    }
}

/// The name an imported definition is added under: `alias.name`, or the
/// name alone for an empty alias.
pub open spec fn imported_name(alias: Seq<char>, name: Seq<char>) -> Seq<char> {
    if alias.len() == 0 {
        name
    } else {
        alias + seq!['.'] + name
    }
}

/// The definitions after adding `cs` in order, each under its imported name.
pub open spec fn add_imported(acc: Seq<ComponentView>, alias: Seq<char>, cs: Seq<ComponentView>) -> Seq<
    ComponentView,
>
    decreases cs.len(),
{
    if cs.len() == 0 {
        acc
    } else {
        let c = cs[0];
        add_imported(
            comp_insert(acc, ComponentView { name: imported_name(alias, c.name), ..c }),
            alias,
            cs.drop_first(),
        )
    }
}

/// The last of `cs` whose imported name under `alias` is `n`.
pub open spec fn last_imported(alias: Seq<char>, cs: Seq<ComponentView>, n: Seq<char>) -> Option<ComponentView>
    decreases cs.len(),
{
    if cs.len() == 0 {
        None
    } else {
        match last_imported(alias, cs.drop_first(), n) {
            Some(c) => Some(c),
            None => if imported_name(alias, cs[0].name) == n {
                Some(cs[0])
            } else {
                None
            },
        }
    }
}

/// After a document's definitions are imported under `alias`, a name gives
/// the last definition imported under it, renamed to it; a name that none
/// was imported under gives what it gave before.
pub proof fn law_import_lookup(acc: Seq<ComponentView>, alias: Seq<char>, cs: Seq<ComponentView>, n: Seq<char>)
    ensures
        comp_lookup(add_imported(acc, alias, cs), n) == match last_imported(alias, cs, n) {
            Some(c) => Some(ComponentView { name: n, ..c }),
            None => comp_lookup(acc, n),
        },
    decreases cs.len(),
{
    if cs.len() > 0 {
        let c = cs[0];
        let r = ComponentView { name: imported_name(alias, c.name), ..c };
        law_import_lookup(comp_insert(acc, r), alias, cs.drop_first(), n);
        lemma_comp_insert_lookup(acc, r, n);
    }
}

// ----------------------------------------------------------- the context

/// Runtime context for component evaluation.
pub struct GPMLContext {
    /// Component definitions available in this context
    pub components: Vec<ComponentDef>,
    /// Variable bindings for interpolation
    pub variables: Attributes,
    /// Base path for resolving imports
    pub base_path: String,
}

impl View for GPMLContext {
    type V = ContextView;

    open spec fn view(&self) -> ContextView {
        ContextView {
            components: components_view(self.components@),
            variables: self.variables@,
            base_path: self.base_path@,
        }
    }
}

proof fn lemma_components_view_len(s: Seq<ComponentDef>)
    ensures
        components_view(s).len() == s.len(),
    decreases s.len(),
{
    if s.len() > 0 {
        lemma_components_view_len(s.subrange(0, s.len() - 1));
    }
}

proof fn lemma_components_view_index(s: Seq<ComponentDef>, i: int)
    requires
        0 <= i < s.len(),
    ensures
        components_view(s)[i] == component_view(s[i]),
    decreases s.len(),
{
    lemma_components_view_len(s.subrange(0, s.len() - 1));
    if i < s.len() - 1 {
        lemma_components_view_index(s.subrange(0, s.len() - 1), i);
    }
}

/// The length and the items of a definitions' view.
pub proof fn lemma_components_view_len_pub(s: Seq<ComponentDef>)
    ensures
        components_view(s).len() == s.len(),
{
    lemma_components_view_len(s);
}

pub proof fn lemma_components_view_index_pub(s: Seq<ComponentDef>, i: int)
    requires
        0 <= i < s.len(),
    ensures
        components_view(s)[i] == component_view(s[i]),
{
    lemma_components_view_index(s, i);
}

proof fn lemma_components_view_push(s: Seq<ComponentDef>, c: ComponentDef)
    ensures
        components_view(s.push(c)) == components_view(s).push(component_view(c)),
{
    assert(s.push(c).subrange(0, s.len() as int) =~= s);
}

proof fn lemma_components_view_update(s: Seq<ComponentDef>, i: int, c: ComponentDef)
    requires
        0 <= i < s.len(),
    ensures
        components_view(s.update(i, c)) == components_view(s).update(i, component_view(c)),
{
    lemma_components_view_len(s);
    lemma_components_view_len(s.update(i, c));
    assert forall|k: int| 0 <= k < s.len() implies components_view(s.update(i, c))[k]
        == components_view(s).update(i, component_view(c))[k] by {
        lemma_components_view_index(s.update(i, c), k);
        lemma_components_view_index(s, k);
    }
    assert(components_view(s.update(i, c)) =~= components_view(s).update(i, component_view(c)));
}

impl GPMLContext {
    /// An empty context with the given base path.
    pub fn new(base_path: &str) -> (c: Self)
        ensures
            c@ == (ContextView {
                components: Seq::empty(),
                variables: Seq::empty(),
                base_path: base_path@,
            }),
    {
        let c = GPMLContext {
            components: Vec::new(),
            variables: Attributes::new(),
            base_path: String::from_str(base_path),
        };
        assert(components_view(c.components@) =~= Seq::<ComponentView>::empty());
        c
    }

    /// The context with `name` bound to `value`.
    pub fn with_variable(self, name: String, value: AttributeValue) -> (c: Self)
        ensures
            c@ == (ContextView { variables: attr_insert(self@.variables, name@, value@), ..self@ }),
    {
        let mut c = self;
        c.variables.insert(name, value);
        c
    }

    fn component_index(&self, name: &str) -> (r: Option<usize>)
        ensures
            r matches Some(i) ==> comp_index(self@.components, name@) == Some(i as int) && i
                < self.components@.len(),
            r is None ==> comp_index(self@.components, name@) is None,
    {
        proof {
            lemma_comp_index_from(self@.components, name@, 0);
            lemma_components_view_len(self.components@);
        }
        let mut i: usize = 0;
        while i < self.components.len()
            invariant
                i <= self.components@.len(),
                components_view(self.components@).len() == self.components@.len(),
                comp_index(self@.components, name@) == comp_index_from(
                    self@.components,
                    name@,
                    i as int,
                ),
            decreases self.components@.len() - i,
        {
            proof {
                lemma_components_view_index(self.components@, i as int);
            }
            if str_eq(self.components[i].name.as_str(), name) {
                return Some(i);
            }
            i = i + 1;
        }
        None
    }

    /// Adds a definition under its name, replacing one of the same name.
    pub fn add_component(&mut self, component: ComponentDef)
        ensures
            final(self)@ == (ContextView {
                components: comp_insert(old(self)@.components, component@),
                ..old(self)@
            }),
    {
        let ghost cv = component@;
        match self.component_index(component.name.as_str()) {
            Some(i) => {
                let ghost before = self.components@;
                self.components.set(i, component);
                proof {
                    lemma_components_view_update(before, i as int, component);
                }
            },
            None => {
                let ghost before = self.components@;
                self.components.push(component);
                proof {
                    lemma_components_view_push(before, component);
                }
            },
        }
    }

    /// The definition named `name`.
    pub fn get_component(&self, name: &str) -> (r: Option<&ComponentDef>)
        ensures
            r matches Some(c) ==> comp_lookup(self@.components, name@) == Some(c@),
            r is None ==> comp_lookup(self@.components, name@) is None,
    {
        match self.component_index(name) {
            Some(i) => {
                proof {
                    lemma_components_view_index(self.components@, i as int);
                }
                Some(&self.components[i])
            },
            None => None,
        }
    }

    /// The value bound to `name`.
    pub fn get_variable(&self, name: &str) -> (r: Option<&AttributeValue>)
        ensures
            r matches Some(v) ==> attr_lookup(self@.variables, name@) == Some(v@),
            r is None ==> attr_lookup(self@.variables, name@) is None,
    {
        self.variables.get(name)
    }

    /// `${name}` with `name` bound gives the text of its value; any other
    /// text is given back as it is.
    pub fn interpolate_string(&self, value: &str) -> (r: String)
        ensures
            r@ == interp_string(self@.variables, value@),
    {
        let cs = chars_of(value);
        let n = cs.len();
        let close = ['}'];
        assert(close@ =~= seq!['}']);
        let ghost vars = self@.variables;
        let mut out = String::new();
        let mut i: usize = 0;
        assert(out@ + interp_from(vars, cs@, 0) =~= interp_from(vars, cs@, 0));
        while i < n
            invariant
                i <= n,
                n == cs@.len(),
                vars == self@.variables,
                close@ == seq!['}'],
                out@ + interp_from(vars, cs@, i as int) == interp_from(vars, cs@, 0),
            decreases n - i,
        {
            let mut end: Option<usize> = None;
            if i + 1 < n && cs[i] == '$' && cs[i + 1] == '{' {
                end = find(cs.as_slice(), i + 2, &close);
            }
            assert(match end {
                Some(j) => placeholder_end(cs@, i as int) == Some(j as int),
                None => placeholder_end(cs@, i as int) is None,
            });
            match end {
                Some(j) => {
                    proof {
                        lemma_find_from(cs@, i + 2, seq!['}']);
                    }
                    let name = substring(cs.as_slice(), i + 2, j);
                    let ghost rest = interp_from(vars, cs@, j + 1);
                    match self.get_variable(name.as_str()) {
                        Some(v) => {
                            let t = v.as_string();
                            assert(interp_from(vars, cs@, i as int) == t@ + rest);
                            out.append(t.as_str());
                        },
                        None => {
                            let kept = substring(cs.as_slice(), i, j + 1);
                            assert(interp_from(vars, cs@, i as int) == kept@ + rest);
                            out.append(kept.as_str());
                        },
                    }
                    i = j + 1;
                },
                None => {
                    let one = substring(cs.as_slice(), i, i + 1);
                    assert(one@ =~= seq![cs@[i as int]]);
                    out.append(one.as_str());
                    i = i + 1;
                },
            }
        }
        out
    }

    /// An expression naming a bound variable gives the variable's value;
    /// any other value is given back.
    pub fn interpolate_attribute(&self, value: &AttributeValue) -> (r: AttributeValue)
        ensures
            r@ == interp_attr(self@.variables, value@),
    {
        match value {
            AttributeValue::Expression(expr) => match self.get_variable(expr.as_str()) {
                Some(v) => v.duplicate(),
                None => value.duplicate(),
            },
            _ => value.duplicate(),
        }
    }

    /// Adds the definitions of an imported document, each under its
    /// imported name; a node that is no document adds nothing.
    pub fn add_imported_components(&mut self, import: &Import, document: &GPMLNode)
        ensures
            final(self)@ == (ContextView {
                components: match document@ {
                    NodeView::Document { components, .. } => add_imported(
                        old(self)@.components,
                        import@.alias,
                        components,
                    ),
                    _ => old(self)@.components,
                },
                ..old(self)@
            }),
    {
        if let GPMLNode::Document { components, .. } = document {
            let ghost cs = components_view(components@);
            proof {
                lemma_components_view_len(components@);
            }
            let mut i: usize = 0;
            assert(cs.subrange(0, cs.len() as int) =~= cs);
            while i < components.len()
                invariant
                    i <= components@.len(),
                    cs == components_view(components@),
                    cs.len() == components@.len(),
                    self@.variables == old(self)@.variables,
                    self@.base_path == old(self)@.base_path,
                    add_imported(self@.components, import@.alias, cs.subrange(i as int, cs.len() as int))
                        == add_imported(old(self)@.components, import@.alias, cs),
                decreases components@.len() - i,
            {
                let ghost rest = cs.subrange(i as int, cs.len() as int);
                proof {
                    lemma_components_view_index(components@, i as int);
                }
                assert(rest[0] == component_view(components@[i as int]));
                assert(rest.drop_first() =~= cs.subrange(i + 1, cs.len() as int));
                let c = &components[i];
                let name = if import.alias.unicode_len() == 0 {
                    c.name.clone()
                } else {
                    let with_dot = join_message(import.alias.as_str(), ".");
                    proof {
                        reveal_strlit(".");
                    }
                    join_message(with_dot.as_str(), c.name.as_str())
                };
                assert(name@ == imported_name(import@.alias, c@.name));
                let mut aliased = c.duplicate();
                aliased.name = name;
                assert(aliased@ == (ComponentView { name: imported_name(import@.alias, c@.name), ..c@ }));
                self.add_component(aliased);
                i = i + 1;
            }
        }
    }

    /// A copy of the context.
    pub fn duplicate(&self) -> (r: Self)
        ensures
            r@ == self@,
    {
        let mut components: Vec<ComponentDef> = Vec::new();
        let mut i: usize = 0;
        assert(components_view(components@) =~= Seq::<ComponentView>::empty());
        while i < self.components.len()
            invariant
                i <= self.components@.len(),
                components_view(components@) == components_view(self.components@.subrange(0, i as int)),
            decreases self.components@.len() - i,
        {
            let c = self.components[i].duplicate();
            let ghost before = components@;
            components.push(c);
            proof {
                lemma_components_view_push(before, c);
                assert(self.components@.subrange(0, i + 1) =~= self.components@.subrange(0, i as int).push(self.components@[i as int]));
                lemma_components_view_push(self.components@.subrange(0, i as int), self.components@[i as int]);
            }
            i = i + 1;
        }
        assert(self.components@.subrange(0, i as int) =~= self.components@);
        GPMLContext {
            components,
            variables: self.variables.duplicate(),
            base_path: self.base_path.clone(),
        }
    }
}

/// Where an import points: its path joined to the context's base path.
pub fn import_location(context: &GPMLContext, import: &Import) -> (r: String)
    ensures
        r@ == join_path(context@.base_path, import@.path),
{
    join(context.base_path.as_str(), import.path.as_str())
}

/// The element interpolated with the context's variables.
fn interpolated(context: &GPMLContext, e: &Element) -> (r: Element)
    ensures
        r@ == interp_element(context@.variables, e@),
    decreases e,
{
    let mut entries: Vec<(String, AttributeValue)> = Vec::new();
    let mut i: usize = 0;
    while i < e.attributes.entries.len()
        invariant
            i <= e.attributes.entries@.len(),
            e.attributes@.len() == e.attributes.entries@.len(),
            attrs_view(entries@) == interp_attrs(context@.variables, e.attributes@.subrange(0, i as int)),
        decreases e.attributes.entries@.len() - i,
    {
        let k = e.attributes.entries[i].0.clone();
        let v = context.interpolate_attribute(&e.attributes.entries[i].1);
        let ghost before = entries@;
        entries.push((k, v));
        assert(attrs_view(entries@) =~= interp_attrs(context@.variables, e.attributes@.subrange(0, i + 1)))
            by {
            assert(attrs_view(entries@) =~= attrs_view(before).push((k@, v@)));
        }
        i = i + 1;
    }
    assert(e.attributes@.subrange(0, i as int) =~= e.attributes@);
    let mut children: Vec<GPMLNode> = Vec::new();
    let mut j: usize = 0;
    proof {
        lemma_nodes_view_len(e.children@);
    }
    assert(nodes_view(children@) =~= Seq::<NodeView>::empty());
    assert(interp_nodes(context@.variables, nodes_view(e.children@).subrange(0, 0)) =~= Seq::<NodeView>::empty());
    while j < e.children.len()
        invariant
            j <= e.children@.len(),
            nodes_view(e.children@).len() == e.children@.len(),
            nodes_view(children@) == interp_nodes(context@.variables, nodes_view(e.children@).subrange(0, j as int)),
        decreases e.children@.len() - j,
    {
        let ghost pre = nodes_view(e.children@).subrange(0, j + 1);
        proof {
            lemma_nodes_view_index(e.children@, j as int);
            assert(pre.subrange(0, j as int) =~= nodes_view(e.children@).subrange(0, j as int));
        }
        let n = match &e.children[j] {
            GPMLNode::Element(c) => {
                assert(decreases_to!(e => e.children));
                GPMLNode::Element(interpolated(context, c))
            },
            GPMLNode::Text(t) => GPMLNode::Text(context.interpolate_string(t.as_str())),
            GPMLNode::Expression(x) => match context.get_variable(x.as_str()) {
                Some(v) => GPMLNode::Text(v.as_string()),
                None => GPMLNode::Expression(x.clone()),
            },
            other => other.duplicate(),
        };
        assert(n@ == interp_node(context@.variables, e.children@[j as int]@));
        let ghost before = children@;
        children.push(n);
        proof {
            lemma_nodes_view_push(before, n);
        }
        j = j + 1;
    }
    assert(nodes_view(e.children@).subrange(0, j as int) =~= nodes_view(e.children@));
    let attributes = Attributes { entries };
    Element { tag: e.tag.clone(), attributes, children, self_closing: e.self_closing }
}

// ----------------------------------------------------------- the resolver

/// The parsed documents kept by path, and the paths being loaded.
pub struct ComponentResolver {
    pub cache: Vec<(String, GPMLNode)>,
    pub loading: Vec<String>,
}

/// The model of the cache: paths and documents, the first of a path
/// counting.
pub open spec fn cache_view(c: Seq<(String, GPMLNode)>) -> Seq<(Seq<char>, NodeView)> {
    Seq::new(c.len(), |i: int| (c[i].0@, c[i].1@))
}

/// The document cached for `path`.
pub open spec fn cached(c: Seq<(Seq<char>, NodeView)>, path: Seq<char>) -> Option<NodeView>
    decreases c.len(),
{
    if c.len() == 0 {
        None
    } else if c[0].0 == path {
        Some(c[0].1)
    } else {
        cached(c.drop_first(), path)
    }
}

/// What a load of `path` gives once the file's text is known: the parsed
/// document, the parser's message, or that the file could not be read.
proof fn lemma_cached_push(s: Seq<(Seq<char>, NodeView)>, x: (Seq<char>, NodeView), q: Seq<char>)
    ensures
        cached(s.push(x), q) == match cached(s, q) {
            Some(d) => Some(d),
            None => if x.0 == q {
                Some(x.1)
            } else {
                None
            },
        },
    decreases s.len(),
{
    if s.len() > 0 {
        assert(s.push(x)[0] == s[0]);
        assert(s.push(x).drop_first() =~= s.drop_first().push(x));
        lemma_cached_push(s.drop_first(), x, q);
    } else {
        assert(s.push(x)[0] == x);
        assert(s.push(x).drop_first() =~= Seq::<(Seq<char>, NodeView)>::empty());
        assert(cached(s.push(x).drop_first(), q) is None);
    }
}

pub enum LoadOutcome {
    Loaded(NodeView),
    NotRead,
    Unparsed(Seq<char>),
}

pub open spec fn load_outcome(content: Option<Seq<char>>) -> LoadOutcome {
    match content {
        None => LoadOutcome::NotRead,
        Some(c) => match p_file(c) {
            Ok(d) => LoadOutcome::Loaded(d),
            Err(m) => LoadOutcome::Unparsed(m),
        },
    }
}

impl ComponentResolver {
    /// The cached documents.
    pub open spec fn cache_model(&self) -> Seq<(Seq<char>, NodeView)> {
        cache_view(self.cache@)
    }

    /// The paths being loaded.
    pub open spec fn loading_model(&self) -> Seq<Seq<char>> {
        strings_view(self.loading@)
    }

    /// Nothing cached, nothing being loaded.
    pub fn new() -> (r: Self)
        ensures
            r.cache_model() == Seq::<(Seq<char>, NodeView)>::empty(),
            r.loading_model() == Seq::<Seq<char>>::empty(),
    {
        let r = ComponentResolver { cache: Vec::new(), loading: Vec::new() };
        assert(r.cache_model() =~= Seq::<(Seq<char>, NodeView)>::empty());
        assert(r.loading_model() =~= Seq::<Seq<char>>::empty());
        r
    }

    fn cache_index(&self, path: &str) -> (r: Option<usize>)
        ensures
            match r {
                Some(i) => i < self.cache@.len() && cached(self.cache_model(), path@) == Some(
                    self.cache@[i as int].1@,
                ),
                None => cached(self.cache_model(), path@) is None,
            },
    {
        let ghost m = self.cache_model();
        let mut i: usize = 0;
        assert(m.subrange(0, m.len() as int) =~= m);
        while i < self.cache.len()
            invariant
                i <= self.cache@.len(),
                m == self.cache_model(),
                m.len() == self.cache@.len(),
                cached(m, path@) == cached(m.subrange(i as int, m.len() as int), path@),
            decreases self.cache@.len() - i,
        {
            let ghost rest = m.subrange(i as int, m.len() as int);
            assert(rest[0] == m[i as int]);
            if str_eq(self.cache[i].0.as_str(), path) {
                return Some(i);
            }
            assert(rest.drop_first() =~= m.subrange(i + 1, m.len() as int));
            i = i + 1;
        }
        None
    }

    /// Starts loading `path`: a path already being loaded is a circular
    /// dependency; a cached one gives its document; otherwise the path is
    /// marked as being loaded and its file is to be read (`Ok(None)`).
    pub fn begin_load(&mut self, path: &str) -> (r: GPMLResult<Option<GPMLNode>>)
        ensures
            old(self).loading_model().contains(path@) ==> (r matches Err(e) && e
                matches GPMLError::CircularDependency { path: p } && p@ == path@),
            !old(self).loading_model().contains(path@) ==> match cached(
                old(self).cache_model(),
                path@,
            ) {
                Some(d) => r matches Ok(Some(n)) && n@ == d,
                None => r == Ok::<Option<GPMLNode>, GPMLError>(None),
            },
            r == Ok::<Option<GPMLNode>, GPMLError>(None) ==> final(self).loading_model() == old(
                self,
            ).loading_model().push(path@),
            r != Ok::<Option<GPMLNode>, GPMLError>(None) ==> final(self).loading_model() == old(
                self,
            ).loading_model(),
            final(self).cache_model() == old(self).cache_model(),
    {
        if contains_str(&self.loading, path) {
            return Err(GPMLError::CircularDependency { path: String::from_str(path) });
        }
        match self.cache_index(path) {
            Some(i) => {
                return Ok(Some(self.cache[i].1.duplicate()));
            },
            None => {},
        }
        let ghost before = self.loading@;
        self.loading.push(String::from_str(path));
        proof {
            crate::ast::lemma_strings_view_push(before, self.loading@[before.len() as int]);
        }
        Ok(None)
    }

    /// Finishes loading `path` from the text read from its file (`None` if
    /// it could not be read): the text is parsed, and the document cached
    /// and the path unmarked. A failure leaves the path marked.
    pub fn finish_load(&mut self, path: &str, content: Option<String>) -> (r: GPMLResult<GPMLNode>)
        ensures
            match load_outcome(
                match content {
                    Some(c) => Some(c@),
                    None => None,
                },
            ) {
                LoadOutcome::NotRead => r matches Err(e) && e matches GPMLError::FileNotFound {
                    path: p,
                } && p@ == path@ && final(self).cache_model() == old(self).cache_model()
                    && final(self).loading_model() == old(self).loading_model(),
                LoadOutcome::Unparsed(m) => r matches Err(e) && e matches GPMLError::ParseError {
                    message,
                    line,
                    column,
                } && message@ == m && (content matches Some(c) && line as int == line_at(c@, p_file_error_pos(c@))
                    && column as int == column_at(c@, p_file_error_pos(c@))) && final(self).cache_model()
                    == old(self).cache_model() && final(self).loading_model()
                    == old(self).loading_model(),
                LoadOutcome::Loaded(d) => r matches Ok(n) && n@ == d && cached(
                    final(self).cache_model(),
                    path@,
                ) == Some(d) && final(self).loading_model() == without(
                    old(self).loading_model(),
                    path@,
                ),
            },
    {
        let text = match content {
            Some(c) => c,
            None => {
                return Err(GPMLError::FileNotFound { path: String::from_str(path) });
            },
        };
        let document = match GPMLParser::parse_file_located(text.as_str()) {
            Ok(d) => d,
            Err((m, line, column)) => {
                return Err(GPMLError::ParseError { message: m, line, column });
            },
        };
        self.cache_insert(path, document.duplicate());
        set_remove(&mut self.loading, path);
        Ok(document)
    }

    /// Puts `doc` in the cache for `path`, in place of what was there.
    fn cache_insert(&mut self, path: &str, doc: GPMLNode)
        ensures
            cached(final(self).cache_model(), path@) == Some(doc@),
            forall|q: Seq<char>| q != path@ ==> cached(final(self).cache_model(), q) == cached(
                old(self).cache_model(),
                q,
            ),
            final(self).loading@ == old(self).loading@,
    {
        self.remove_from_cache(path);
        let ghost m1 = self.cache_model();
        let ghost x = (path@, doc@);
        self.cache.insert(0, (String::from_str(path), doc));
        assert(self.cache_model().drop_first() =~= m1);
        assert(self.cache_model()[0] == x);
    }

    /// Empties the cache.
    pub fn clear_cache(&mut self)
        ensures
            final(self).cache_model() == Seq::<(Seq<char>, NodeView)>::empty(),
            final(self).loading@ == old(self).loading@,
    {
        self.cache.clear();
        assert(self.cache_model() =~= Seq::<(Seq<char>, NodeView)>::empty());
    }

    /// Drops what the cache holds for `path`.
    pub fn remove_from_cache(&mut self, path: &str)
        ensures
            cached(final(self).cache_model(), path@) is None,
            forall|q: Seq<char>| q != path@ ==> cached(final(self).cache_model(), q) == cached(
                old(self).cache_model(),
                q,
            ),
            final(self).loading@ == old(self).loading@,
    {
        let ghost m = self.cache_model();
        let mut kept: Vec<(String, GPMLNode)> = Vec::new();
        let mut i: usize = 0;
        assert(cache_view(kept@) =~= Seq::<(Seq<char>, NodeView)>::empty());
        while i < self.cache.len()
            invariant
                i <= self.cache@.len(),
                m == old(self).cache_model(),
                self.cache@ == old(self).cache@,
                self.loading@ == old(self).loading@,
                m.len() == self.cache@.len(),
                forall|q: Seq<char>|
                    #![trigger cached(cache_view(kept@), q)]
                    cached(cache_view(kept@), q) == if q == path@ {
                        None
                    } else {
                        cached(m.subrange(0, i as int), q)
                    },
            decreases self.cache@.len() - i,
        {
            let ghost pre = m.subrange(0, i as int);
            let ghost x = m[i as int];
            assert(m.subrange(0, i + 1) =~= pre.push(x));
            let ghost kv = cache_view(kept@);
            if !str_eq(self.cache[i].0.as_str(), path) {
                let k = self.cache[i].0.clone();
                let d = self.cache[i].1.duplicate();
                kept.push((k, d));
                assert(cache_view(kept@) =~= kv.push(x));
                assert forall|q: Seq<char>| #[trigger] cached(cache_view(kept@), q) == if q == path@ {
                    None
                } else {
                    cached(m.subrange(0, i + 1), q)
                } by {
                    lemma_cached_push(kv, x, q);
                    lemma_cached_push(pre, x, q);
                }
            } else {
                assert forall|q: Seq<char>| #[trigger] cached(cache_view(kept@), q) == if q == path@ {
                    None
                } else {
                    cached(m.subrange(0, i + 1), q)
                } by {
                    lemma_cached_push(pre, x, q);
                }
            }
            i = i + 1;
        }
        assert(m.subrange(0, i as int) =~= m);
        self.cache = kept;
    }

    /// An instance of `component_def` for the arguments `args`: as many
    /// arguments as parameters are needed; the body is interpolated with
    /// the parameters bound in a copy of `context`.
    pub fn instantiate_component(
        &self,
        component_def: &ComponentDef,
        args: &Attributes,
        context: &GPMLContext,
    ) -> (r: GPMLResult<Element>)
        ensures
            match instantiate(component_def@, args@, context@.variables) {
                Ok(e) => r matches Ok(x) && x@ == e,
                Err((expected, actual)) => r matches Err(err) && err
                    matches GPMLError::ParameterMismatch { expected: x, actual: y } && x == expected
                    && y == actual,
            },
    {
        if args.len() != component_def.parameters.len() {
            return Err(
                GPMLError::ParameterMismatch {
                    expected: component_def.parameters.len(),
                    actual: args.len(),
                },
            );
        }
        let mut instance = context.duplicate();
        let ghost params = strings_view(component_def.parameters@);
        let mut i: usize = 0;
        while i < component_def.parameters.len()
            invariant
                i <= component_def.parameters@.len(),
                params == strings_view(component_def.parameters@),
                instance@.variables == bind_params(
                    context@.variables,
                    params.subrange(0, i as int),
                    args@,
                ),
            decreases component_def.parameters@.len() - i,
        {
            let name = &component_def.parameters[i];
            assert(params.subrange(0, i + 1).drop_last() =~= params.subrange(0, i as int));
            assert(params.subrange(0, i + 1)[i as int] == name@);
            match args.get(name.as_str()) {
                Some(v) => {
                    instance.variables.insert(name.clone(), v.duplicate());
                },
                None => {},
            }
            i = i + 1;
        }
        assert(params.subrange(0, i as int) =~= params);
        let mut body = component_def.body.duplicate();
        match self.interpolate_element(&mut body, &instance) {
            Ok(()) => {},
            Err(e) => {
                return Err(e);
            },
        }
        Ok(body)
    }

    /// Interpolates `element` in place with the context's variables.
    fn interpolate_element(&self, element: &mut Element, context: &GPMLContext) -> (r: GPMLResult<()>)
        ensures
            r is Ok,
            final(element)@ == interp_element(context@.variables, old(element)@),
    {
        let e = interpolated(context, element);
        *element = e;
        Ok(())
    }
}

/// Resolves an element tree: an element named after a component of the
/// context becomes an instance of it, with the element's interpolated
/// attributes as arguments; any other element keeps its tag and has its
/// attributes interpolated and its children resolved.
pub fn resolve_element(element: &Element, context: &GPMLContext, resolver: &ComponentResolver) -> (r:
    GPMLResult<Element>)
    ensures
        match resolve(context@, element@) {
            Ok(e) => r matches Ok(x) && x@ == e,
            Err((expected, actual)) => r matches Err(err) && err
                matches GPMLError::ParameterMismatch { expected: x, actual: y } && x == expected && y
                == actual,
        },
    decreases element,
{
    match context.get_component(element.tag.as_str()) {
        Some(def) => {
            let mut args = Attributes::new();
            let mut i: usize = 0;
            assert(element.attributes@.subrange(0, 0) =~= Seq::<(Seq<char>, AttrView)>::empty());
            while i < element.attributes.entries.len()
                invariant
                    i <= element.attributes.entries@.len(),
                    element.attributes@.len() == element.attributes.entries@.len(),
                    args@ == args_of(context@.variables, element.attributes@.subrange(0, i as int)),
                decreases element.attributes.entries@.len() - i,
            {
                assert(element.attributes@.subrange(0, i + 1).drop_last() =~= element.attributes@.subrange(0, i as int));
                let k = element.attributes.entries[i].0.clone();
                let v = context.interpolate_attribute(&element.attributes.entries[i].1);
                args.insert(k, v);
                i = i + 1;
            }
            assert(element.attributes@.subrange(0, i as int) =~= element.attributes@);
            resolver.instantiate_component(def, &args, context)
        },
        None => {
            let mut children: Vec<GPMLNode> = Vec::new();
            let mut j: usize = 0;
            proof {
                lemma_nodes_view_len(element.children@);
            }
            assert(nodes_view(children@) =~= Seq::<NodeView>::empty());
            assert(nodes_view(element.children@).subrange(0, 0) =~= Seq::<NodeView>::empty());
            while j < element.children.len()
                invariant
                    j <= element.children@.len(),
                    nodes_view(element.children@).len() == element.children@.len(),
                    comp_lookup(context@.components, element@.tag) is None,
                    resolve_nodes(context@, nodes_view(element.children@).subrange(0, j as int))
                        == Ok::<Seq<NodeView>, (nat, nat)>(nodes_view(children@)),
                decreases element.children@.len() - j,
            {
                let ghost pre = nodes_view(element.children@).subrange(0, j + 1);
                proof {
                    lemma_nodes_view_index(element.children@, j as int);
                    assert(pre.subrange(0, j as int) =~= nodes_view(element.children@).subrange(0, j as int));
                }
                let n = match &element.children[j] {
                    GPMLNode::Element(c) => {
                        assert(decreases_to!(element => element.children));
                        match resolve_element(c, context, resolver) {
                            Ok(x) => GPMLNode::Element(x),
                            Err(e) => {
                                proof {
                                    assert(pre[j as int] == NodeView::Element(c@));
                                    assert(resolve(context@, c@) is Err);
                                    assert(resolve_node(context@, pre[j as int]) is Err);
                                    assert(resolve_nodes(context@, pre) is Err);
                                    lemma_resolve_nodes_err(context@, nodes_view(element.children@), j + 1);
                                }
                                return Err(e);
                            },
                        }
                    },
                    GPMLNode::Text(t) => GPMLNode::Text(context.interpolate_string(t.as_str())),
                    GPMLNode::Expression(x) => match context.get_variable(x.as_str()) {
                        Some(v) => GPMLNode::Text(v.as_string()),
                        None => GPMLNode::Expression(x.clone()),
                    },
                    other => other.duplicate(),
                };
                let ghost before = children@;
                children.push(n);
                proof {
                    lemma_nodes_view_push(before, n);
                }
                j = j + 1;
            }
            assert(nodes_view(element.children@).subrange(0, j as int) =~= nodes_view(element.children@));
            let mut entries: Vec<(String, AttributeValue)> = Vec::new();
            let mut i: usize = 0;
            while i < element.attributes.entries.len()
                invariant
                    i <= element.attributes.entries@.len(),
                    element.attributes@.len() == element.attributes.entries@.len(),
                    attrs_view(entries@) == interp_attrs(context@.variables, element.attributes@.subrange(0, i as int)),
                decreases element.attributes.entries@.len() - i,
            {
                let k = element.attributes.entries[i].0.clone();
                let v = context.interpolate_attribute(&element.attributes.entries[i].1);
                let ghost before = entries@;
                entries.push((k, v));
                assert(attrs_view(entries@) =~= interp_attrs(context@.variables, element.attributes@.subrange(0, i + 1)))
                    by {
                    assert(attrs_view(entries@) =~= attrs_view(before).push((k@, v@)));
                }
                i = i + 1;
            }
            assert(element.attributes@.subrange(0, i as int) =~= element.attributes@);
            Ok(
                Element {
                    tag: element.tag.clone(),
                    attributes: Attributes { entries },
                    children,
                    self_closing: element.self_closing,
                },
            )
        },
    }
}

// ------------------------------------------------------------------ laws

/// Text without a `$` is kept as it is, and interpolation goes on after it.
proof fn lemma_interp_plain(vars: AttrsView, s: Seq<char>, i: int, k: int)
    requires
        0 <= i <= k <= s.len(),
        forall|j: int| i <= j < k ==> s[j] != '$',
    ensures
        interp_from(vars, s, i) == s.subrange(i, k) + interp_from(vars, s, k),
    decreases k - i,
{
    if i < k {
        lemma_interp_plain(vars, s, i + 1, k);
        assert(s.subrange(i, k) =~= seq![s[i]] + s.subrange(i + 1, k));
    } else {
        assert(s.subrange(i, k) =~= Seq::<char>::empty());
    }
}

/// A `}` found in the second part of a text is found in the same place of
/// that part alone.
proof fn lemma_find_close_suffix(p: Seq<char>, b: Seq<char>, from: int)
    requires
        0 <= from,
    ensures
        find_from(p + b, p.len() + from, seq!['}']) == match find_from(b, from, seq!['}']) {
            Some(k) => Some(p.len() + k),
            None => None::<int>,
        },
    decreases b.len() + 1 - from,
{
    let s = p + b;
    let t = seq!['}'];
    if from + 1 <= b.len() {
        assert(s.subrange(p.len() + from, p.len() + from + 1) =~= b.subrange(from, from + 1));
        lemma_find_close_suffix(p, b, from + 1);
    }
}

/// Interpolating the second part of a text within the whole gives what it
/// gives alone.
proof fn lemma_interp_suffix(vars: AttrsView, p: Seq<char>, b: Seq<char>, i: int)
    requires
        0 <= i <= b.len(),
    ensures
        interp_from(vars, p + b, p.len() + i) == interp_from(vars, b, i),
    decreases b.len() - i,
{
    let s = p + b;
    if i < b.len() {
        assert(s[p.len() + i] == b[i]);
        if i + 1 < b.len() {
            assert(s[p.len() + i + 1] == b[i + 1]);
            lemma_find_close_suffix(p, b, i + 2);
        }
        lemma_find_from(b, i + 2, seq!['}']);
        match placeholder_end(b, i) {
            Some(j) => {
                lemma_interp_suffix(vars, p, b, j + 1);
                assert(s.subrange(p.len() + i + 2, p.len() + j) =~= b.subrange(i + 2, j));
                assert(s.subrange(p.len() + i, p.len() + j + 1) =~= b.subrange(i, j + 1));
            },
            None => {
                lemma_interp_suffix(vars, p, b, i + 1);
            },
        }
    }
}

/// `${name}` for a bound `name` (a name without `}`) interpolates to the
/// text of its value.
pub proof fn law_interpolate_bound(vars: AttrsView, name: Seq<char>, v: AttrView)
    requires
        attr_lookup(vars, name) == Some(v),
        !name.contains('}'),
    ensures
        interp_string(vars, seq!['$', '{'] + name + seq!['}']) == attr_text(v),
{
    law_interpolate_in_text(vars, Seq::empty(), name, v, Seq::empty());
    assert(Seq::<char>::empty() + seq!['$', '{'] + name + seq!['}'] + Seq::<char>::empty() =~= seq!['$', '{']
        + name + seq!['}']);
    assert(interp_string(vars, Seq::<char>::empty()) =~= Seq::<char>::empty());
    assert(Seq::<char>::empty() + attr_text(v) + Seq::<char>::empty() =~= attr_text(v));
}

/// Within a text, `${name}` for a bound `name` (a name without `}`, after
/// text without `$`) becomes the text of its value; the text before it is
/// kept and the text after it is interpolated in turn.
pub proof fn law_interpolate_in_text(vars: AttrsView, before: Seq<char>, name: Seq<char>, v: AttrView, after: Seq<char>)
    requires
        attr_lookup(vars, name) == Some(v),
        !before.contains('$'),
        !name.contains('}'),
    ensures
        interp_string(vars, before + seq!['$', '{'] + name + seq!['}'] + after) == before + attr_text(v)
            + interp_string(vars, after),
{
    let ph = seq!['$', '{'] + name + seq!['}'];
    let head = before + ph;
    let s = head + after;
    let i = before.len() as int;
    let j = i + 2 + name.len();
    assert(s =~= before + seq!['$', '{'] + name + seq!['}'] + after);
    assert forall|k: int| 0 <= k < i implies s[k] != '$' by {
        assert(s[k] == before[k]);
    }
    lemma_interp_plain(vars, s, 0, i);
    assert(s.subrange(0, i) =~= before);
    assert(s[i] == '$' && s[i + 1] == '{');
    lemma_find_from(s, i + 2, seq!['}']);
    assert(occurs_at_close(s, j)) by {
        assert(s[j] == '}');
        assert(s.subrange(j, j + 1) =~= seq!['}']);
    }
    assert forall|k: int| i + 2 <= k < j implies !crate::text::occurs_at(s, k, seq!['}']) by {
        assert(s[k] == name[k - i - 2]);
        if crate::text::occurs_at(s, k, seq!['}']) {
            assert(s.subrange(k, k + 1)[0] == '}');
            assert(name.contains('}'));
        }
    }
    assert(find_from(s, i + 2, seq!['}']) == Some(j));
    assert(s.subrange(i + 2, j) =~= name);
    lemma_interp_suffix(vars, head, after, 0);
    assert(head.len() == j + 1);
}

/// `}` stands at `k`.
spec fn occurs_at_close(s: Seq<char>, k: int) -> bool {
    crate::text::occurs_at(s, k, seq!['}'])
}

/// With no variables bound, interpolation changes no element.
pub proof fn law_interpolate_unbound(e: ElementView)
    ensures
        interp_element(Seq::empty(), e) == e,
    decreases e, 1nat,
{
    lemma_interp_unbound_nodes(e.children);
    assert(interp_attrs(Seq::empty(), e.attributes) =~= e.attributes);
}

proof fn lemma_interp_unbound_nodes(s: Seq<NodeView>)
    ensures
        interp_nodes(Seq::empty(), s) == s,
    decreases s, s.len(),
{
    if s.len() > 0 {
        lemma_interp_unbound_nodes(s.subrange(0, s.len() - 1));
        lemma_interp_unbound_node(s[s.len() - 1]);
        assert(s.subrange(0, s.len() - 1).push(s[s.len() - 1]) =~= s);
    } else {
        assert(s =~= Seq::<NodeView>::empty());
    }
}

proof fn lemma_interp_unbound_node(n: NodeView)
    ensures
        interp_node(Seq::empty(), n) == n,
    decreases n, 0nat,
{
    if let NodeView::Element(c) = n {
        law_interpolate_unbound(c);
    }
    if let NodeView::Text(t) = n {
        lemma_interp_unbound_text(t, 0);
        assert(t.subrange(0, t.len() as int) =~= t);
    }
}

/// With no variables bound, interpolation keeps a text as it is.
proof fn lemma_interp_unbound_text(s: Seq<char>, i: int)
    requires
        0 <= i <= s.len(),
    ensures
        interp_from(Seq::empty(), s, i) == s.subrange(i, s.len() as int),
    decreases s.len() - i,
{
    if i < s.len() {
        lemma_find_from(s, i + 2, seq!['}']);
        match placeholder_end(s, i) {
            Some(j) => {
                lemma_interp_unbound_text(s, j + 1);
                assert(attr_lookup(Seq::empty(), s.subrange(i + 2, j)) is None);
                assert(s.subrange(i, s.len() as int) =~= s.subrange(i, j + 1) + s.subrange(j + 1, s.len() as int));
            },
            None => {
                lemma_interp_unbound_text(s, i + 1);
                assert(s.subrange(i, s.len() as int) =~= seq![s[i]] + s.subrange(i + 1, s.len() as int));
            },
        }
    }
}

/// In a context without components or variables, resolving an element
/// gives it back unchanged.
pub proof fn law_resolve_plain(ctx: ContextView, e: ElementView)
    requires
        ctx.components.len() == 0,
        ctx.variables.len() == 0,
    ensures
        resolve(ctx, e) == Ok::<ElementView, (nat, nat)>(e),
    decreases e, 1nat,
{
    assert(ctx.variables =~= Seq::<(Seq<char>, AttrView)>::empty());
    lemma_resolve_plain_nodes(ctx, e.children);
    assert(interp_attrs(ctx.variables, e.attributes) =~= e.attributes);
}

proof fn lemma_resolve_plain_nodes(ctx: ContextView, s: Seq<NodeView>)
    requires
        ctx.components.len() == 0,
        ctx.variables.len() == 0,
    ensures
        resolve_nodes(ctx, s) == Ok::<Seq<NodeView>, (nat, nat)>(s),
    decreases s, s.len(),
{
    if s.len() > 0 {
        lemma_resolve_plain_nodes(ctx, s.subrange(0, s.len() - 1));
        let n = s[s.len() - 1];
        match n {
            NodeView::Element(c) => {
                law_resolve_plain(ctx, c);
            },
            _ => {
                assert(ctx.variables =~= Seq::<(Seq<char>, AttrView)>::empty());
                lemma_interp_unbound_node(n);
            },
        }
        assert(resolve_node(ctx, n) == Ok::<NodeView, (nat, nat)>(n));
        assert(s.subrange(0, s.len() - 1).push(n) =~= s);
    } else {
        assert(s =~= Seq::<NodeView>::empty());
    }
}

/// A component is instantiated exactly when it is given as many arguments
/// as it has parameters; otherwise the error names both counts.
pub proof fn law_instantiate_arity(def: ComponentView, args: AttrsView, vars: AttrsView)
    ensures
        instantiate(def, args, vars) is Ok <==> args.len() == def.parameters.len(),
        instantiate(def, args, vars) is Err ==> instantiate(def, args, vars) == Err::<ElementView, (nat, nat)>(
            (def.parameters.len(), args.len()),
        ),
{
}

/// Once a path has finished loading it is no longer marked as being loaded,
/// so loading it again is served from the cache rather than refused as
/// circular.
pub proof fn law_loaded_path_unmarked(loading: Seq<Seq<char>>, path: Seq<char>)
    ensures
        !without(loading, path).contains(path),
{
    crate::paths::lemma_without(loading, path);
}


/// No key is bound twice.
pub open spec fn keys_unique(a: AttrsView) -> bool {
    forall|i: int, j: int| #![trigger a[i], a[j]] 0 <= i < j < a.len() ==> a[i].0 != a[j].0
}

/// The arguments an element passes to a component are its attributes,
/// each interpolated in the context's variables: a key gives the
/// interpolated value of the element's attribute, and a key the element
/// does not have gives nothing.
pub proof fn law_args_are_interpolated_attributes(vars: AttrsView, attrs: AttrsView, k: Seq<char>)
    requires
        keys_unique(attrs),
    ensures
        attr_lookup(args_of(vars, attrs), k) == match attr_lookup(attrs, k) {
            Some(v) => Some(interp_attr(vars, v)),
            None => None::<AttrView>,
        },
    decreases attrs.len(),
{
    if attrs.len() == 0 {
        assert(attr_index_from(attrs, k, 0) is None);
        assert(attr_index_from(args_of(vars, attrs), k, 0) is None);
    } else {
        let init = attrs.drop_last();
        let last = attrs[attrs.len() - 1];
        assert(init.push(last) =~= attrs);
        assert(keys_unique(init)) by {
            assert forall|i: int, j: int| #![trigger init[i], init[j]] 0 <= i < j < init.len() implies init[i].0 != init[j].0 by {
                assert(init[i] == attrs[i] && init[j] == attrs[j]);
            }
        }
        law_args_are_interpolated_attributes(vars, init, k);
        crate::ast::lemma_attr_lookup_push(init, last, k);
        crate::ast::lemma_attr_insert_lookup(args_of(vars, init), last.0, interp_attr(vars, last.1), k);
        if k == last.0 {
            crate::ast::lemma_attr_index_from(init, k, 0);
            if let Some(i) = attr_index_from(init, k, 0) {
                assert(attrs[i] == init[i]);
                assert(attrs[i].0 != attrs[attrs.len() - 1].0);
            }
        }
    }
}

} // verus!
