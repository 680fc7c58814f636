//! Resolving JSON interface documents: components that refer to other
//! documents are replaced by the referred root, whose properties are
//! interpolated with the referring properties (`"${name}"` strings), and
//! resolved documents are cached by path.
//!
//! Documents are read and decoded around this resolver; it is handed the
//! documents read so far (`files`, by absolute path) and asks for a missing
//! one by failing with `UiError::NeedFile`. Resolving again with that file
//! added, from the same starting state, continues as if it had been read on
//! the spot. A reference chain deeper than `fuel` allows fails with
//! `UiError::TooDeep`; without a cycle of references a fuel of twice the
//! number of documents plus two is never exhausted.
use vstd::prelude::*;
use crate::json_ui::schema::{UiValue, UiComponent, UiChild, UiDocument, ValueView, ComponentModel, ChildView, DocModel, value_view, values_view, pairs_view, children_view, child_view, lemma_values_view_len, lemma_values_view_index, lemma_values_view_push, lemma_pairs_view_len, lemma_pairs_view_index, lemma_pairs_view_push, lemma_children_view_len, lemma_children_view_index, lemma_children_view_push, duplicate_pairs};
use crate::paths::{join, join_path};
use crate::text::{chars_of, starts_with, ends_with, has_prefix, has_suffix, substring, str_eq};

verus! {

broadcast use vstd::std_specs::vec::axiom_vec_decreases_to_view;

// ------------------------------------------------------- interpolation

/// Properties as a map: a later entry for a name overrides an earlier one.
pub open spec fn props_map(s: Seq<(Seq<char>, ValueView)>) -> Map<Seq<char>, ValueView>
    decreases s.len(),
{
    if s.len() == 0 {
        Map::empty()
    } else {
        props_map(s.drop_last()).insert(s.last().0, s.last().1)
    }
}

/// A string `${name}` with `name` in the context becomes the context's
/// value; arrays and objects are interpolated item by item; anything else
/// stays.
pub open spec fn interp_value(ctx: Map<Seq<char>, ValueView>, v: ValueView) -> ValueView
    decreases v, 1nat,
{
    match v {
        ValueView::String(s) => if starts_with(s, seq!['$', '{']) && ends_with(s, seq!['}'])
            && ctx.dom().contains(s.subrange(2, s.len() - 1)) {
            ctx[s.subrange(2, s.len() - 1)]
        } else {
            v
        },
        ValueView::Array(a) => ValueView::Array(interp_values(ctx, a)),
        ValueView::Object(o) => ValueView::Object(interp_pairs(ctx, o)),
        _ => v,
    }
}

pub open spec fn interp_values(ctx: Map<Seq<char>, ValueView>, s: Seq<ValueView>) -> Seq<ValueView>
    decreases s, s.len(),
{
    if s.len() == 0 {
        Seq::empty()
    } else {
        interp_values(ctx, s.subrange(0, s.len() - 1)).push(interp_value(ctx, s[s.len() - 1]))
    }
}

pub open spec fn interp_pairs(ctx: Map<Seq<char>, ValueView>, s: Seq<(Seq<char>, ValueView)>) -> Seq<
    (Seq<char>, ValueView),
>
    decreases s, s.len(),
{
    if s.len() == 0 {
        Seq::empty()
    } else {
        interp_pairs(ctx, s.subrange(0, s.len() - 1)).push(
            (s[s.len() - 1].0, interp_value(ctx, s[s.len() - 1].1)),
        )
    }
}

// ---------------------------------------------------------- resolution

/// Why a resolution stopped.
pub enum UiError {
    /// The document at this absolute path has to be read first.
    NeedFile(String),
    /// The references went deeper than the fuel allowed, at this path.
    TooDeep(String),
}

pub enum UiErrorView {
    NeedFile(Seq<char>),
    TooDeep(Seq<char>),
}

impl View for UiError {
    type V = UiErrorView;

    open spec fn view(&self) -> UiErrorView {
        match self {
            UiError::NeedFile(p) => UiErrorView::NeedFile(p@),
            UiError::TooDeep(p) => UiErrorView::TooDeep(p@),
        }
    }
}

/// Documents by path as a map: a later entry for a path overrides.
pub open spec fn docs_map(s: Seq<(Seq<char>, DocModel)>) -> Map<Seq<char>, DocModel>
    decreases s.len(),
{
    if s.len() == 0 {
        Map::empty()
    } else {
        docs_map(s.drop_last()).insert(s.last().0, s.last().1)
    }
}

pub type Docs = Map<Seq<char>, DocModel>;

/// The component for a referred document: its root with the properties
/// interpolated in `merged` and its children as resolved.
pub open spec fn referred(refc: ComponentModel, merged: Seq<(Seq<char>, ValueView)>, children: Seq<ChildView>) -> ComponentModel {
    ComponentModel { props: interp_pairs(props_map(merged), refc.props), children, ..refc }
}

/// Loading the document at `path` (joined to `base`): a cached document
/// gives its root as cached; otherwise the document is read, its root
/// resolved, and the document cached.
pub open spec fn load_doc(base: Seq<char>, files: Docs, cache: Docs, fuel: nat, path: Seq<char>) -> (
    Docs,
    Result<ComponentModel, UiErrorView>,
)
    decreases fuel, 0nat, path,
{
    let abs = join_path(base, path);
    if cache.dom().contains(abs) {
        (cache, Ok(cache[abs].root))
    } else if !files.dom().contains(abs) {
        (cache, Err(UiErrorView::NeedFile(abs)))
    } else if fuel == 0 {
        (cache, Err(UiErrorView::TooDeep(abs)))
    } else {
        let d = files[abs];
        let (c2, r) = resolve_comp(base, files, cache, (fuel - 1) as nat, d.root, Seq::empty());
        match r {
            Ok(x) => (c2.insert(abs, d), Ok(x)),
            Err(e) => (c2, Err(e)),
        }
    }
}

/// A referred document's root, its children resolved with `merged`.
pub open spec fn resolve_referred(
    base: Seq<char>,
    files: Docs,
    cache: Docs,
    fuel: nat,
    path: Seq<char>,
    merged: Seq<(Seq<char>, ValueView)>,
) -> (Docs, Result<ComponentModel, UiErrorView>)
    decreases fuel, 1nat, path,
{
    let (c2, x) = load_doc(base, files, cache, fuel, join_path(base, path));
    match x {
        Err(e) => (c2, Err(e)),
        Ok(refc) => if fuel == 0 {
            (c2, Err(UiErrorView::TooDeep(join_path(base, join_path(base, path)))))
        } else {
            let (c3, y) = resolve_children(base, files, c2, (fuel - 1) as nat, refc.children, merged);
            match y {
                Err(e) => (c3, Err(e)),
                Ok(ch) => (c3, Ok(referred(refc, merged, ch))),
            }
        },
    }
}

/// A component resolved with the inherited properties `inh`: a reference
/// is replaced by the referred root (properties merged, own ones winning);
/// otherwise the properties are interpolated and the children resolved.
pub open spec fn resolve_comp(
    base: Seq<char>,
    files: Docs,
    cache: Docs,
    fuel: nat,
    comp: ComponentModel,
    inh: Seq<(Seq<char>, ValueView)>,
) -> (Docs, Result<ComponentModel, UiErrorView>)
    decreases fuel, 2nat, comp,
{
    match comp.reference {
        Some(r) => resolve_referred(base, files, cache, fuel, r, inh + comp.props),
        None => {
            let (c2, y) = resolve_children(base, files, cache, fuel, comp.children, inh);
            match y {
                Err(e) => (c2, Err(e)),
                Ok(ch) => (
                    c2,
                    Ok(
                        ComponentModel {
                            component_type: comp.component_type,
                            props: interp_pairs(props_map(inh), comp.props),
                            children: ch,
                            reference: None,
                        },
                    ),
                ),
            }
        },
    }
}

/// Children resolved in order; the first failure stops.
pub open spec fn resolve_children(
    base: Seq<char>,
    files: Docs,
    cache: Docs,
    fuel: nat,
    children: Seq<ChildView>,
    inh: Seq<(Seq<char>, ValueView)>,
) -> (Docs, Result<Seq<ChildView>, UiErrorView>)
    decreases fuel, 2nat, children,
{
    if children.len() == 0 {
        (cache, Ok(Seq::empty()))
    } else {
        let (c2, x) = resolve_child(base, files, cache, fuel, children[0], inh);
        match x {
            Err(e) => (c2, Err(e)),
            Ok(c) => {
                let (c3, y) = resolve_children(base, files, c2, fuel, children.drop_first(), inh);
                match y {
                    Err(e) => (c3, Err(e)),
                    Ok(rest) => (c3, Ok(seq![c] + rest)),
                }
            },
        }
    }
}

/// A child resolved: a component as above, a text as it is, a reference as
/// the referred root with the child's properties merged in.
pub open spec fn resolve_child(
    base: Seq<char>,
    files: Docs,
    cache: Docs,
    fuel: nat,
    ch: ChildView,
    inh: Seq<(Seq<char>, ValueView)>,
) -> (Docs, Result<ChildView, UiErrorView>)
    decreases fuel, 2nat, ch,
{
    match ch {
        ChildView::Component(k) => {
            let (c2, x) = resolve_comp(base, files, cache, fuel, k, inh);
            match x {
                Err(e) => (c2, Err(e)),
                Ok(r) => (c2, Ok(ChildView::Component(r))),
            }
        },
        ChildView::Text(t) => (cache, Ok(ChildView::Text(t))),
        ChildView::Reference { reference, props } => {
            let (c2, x) = resolve_referred(base, files, cache, fuel, reference, inh + props);
            match x {
                Err(e) => (c2, Err(e)),
                Ok(r) => (c2, Ok(ChildView::Component(r))),
            }
        },
    }
}

// ------------------------------------------------------ the executable

/// The entries' models, pair by pair.
pub open spec fn docs_view(s: Seq<(String, UiDocument)>) -> Seq<(Seq<char>, DocModel)> {
    Seq::new(s.len(), |i: int| (s[i].0@, s[i].1@))
}

/// The outcome of a resolution as a model.
pub open spec fn outcome<T: View>(r: Result<T, UiError>) -> Result<T::V, UiErrorView> {
    match r {
        Ok(x) => Ok(x@),
        Err(e) => Err(e@),
    }
}

/// The index of the last entry of `ctx` named `name`.
pub(crate) fn lookup_prop(ctx: &Vec<(String, UiValue)>, name: &str) -> (r: Option<usize>)
    ensures
        match r {
            Some(i) => i < ctx@.len() && props_map(pairs_view(ctx@)).dom().contains(name@)
                && props_map(pairs_view(ctx@))[name@] == value_view(ctx@[i as int].1),
            None => !props_map(pairs_view(ctx@)).dom().contains(name@),
        },
{
    let ghost pv = pairs_view(ctx@);
    proof {
        lemma_pairs_view_len(ctx@);
    }
    let mut i: usize = ctx.len();
    assert(pv.subrange(0, i as int) =~= pv);
    while i > 0
        invariant
            i <= pv.len(),
            pv == pairs_view(ctx@),
            pv.len() == ctx@.len(),
            props_map(pv).dom().contains(name@) <==> props_map(pv.subrange(0, i as int)).dom().contains(name@),
            props_map(pv).dom().contains(name@) ==> props_map(pv)[name@] == props_map(pv.subrange(0, i as int))[name@],
        decreases i,
    {
        let ghost pre = pv.subrange(0, i as int);
        assert(pre.drop_last() =~= pv.subrange(0, i - 1));
        proof {
            lemma_pairs_view_index(ctx@, i - 1);
        }
        if str_eq(ctx[i - 1].0.as_str(), name) {
            return Some(i - 1);
        }
        i = i - 1;
    }
    assert(pv.subrange(0, 0) =~= Seq::<(Seq<char>, ValueView)>::empty());
    None
}

/// The index of the last entry of `docs` for `path`.
fn lookup_doc(docs: &Vec<(String, UiDocument)>, path: &str) -> (r: Option<usize>)
    ensures
        match r {
            Some(i) => i < docs@.len() && docs_map(docs_view(docs@)).dom().contains(path@)
                && docs_map(docs_view(docs@))[path@] == docs@[i as int].1@,
            None => !docs_map(docs_view(docs@)).dom().contains(path@),
        },
{
    let ghost dv = docs_view(docs@);
    let mut i: usize = docs.len();
    assert(dv.subrange(0, i as int) =~= dv);
    while i > 0
        invariant
            i <= dv.len(),
            dv == docs_view(docs@),
            dv.len() == docs@.len(),
            docs_map(dv).dom().contains(path@) <==> docs_map(dv.subrange(0, i as int)).dom().contains(path@),
            docs_map(dv).dom().contains(path@) ==> docs_map(dv)[path@] == docs_map(dv.subrange(0, i as int))[path@],
        decreases i,
    {
        let ghost pre = dv.subrange(0, i as int);
        assert(pre.drop_last() =~= dv.subrange(0, i - 1));
        if str_eq(docs[i - 1].0.as_str(), path) {
            return Some(i - 1);
        }
        i = i - 1;
    }
    assert(dv.subrange(0, 0) =~= Seq::<(Seq<char>, DocModel)>::empty());
    None
}

/// A value interpolated in the context `ctx`.
pub fn interpolate_value(ctx: &Vec<(String, UiValue)>, value: &UiValue) -> (r: UiValue)
    ensures
        r@ == interp_value(props_map(pairs_view(ctx@)), value@),
    decreases value,
{
    let ghost m = props_map(pairs_view(ctx@));
    match value {
        UiValue::String(s) => {
            let cs = chars_of(s.as_str());
            let open = ['$', '{'];
            let close = ['}'];
            assert(open@ =~= seq!['$', '{']);
            assert(close@ =~= seq!['}']);
            if has_prefix(cs.as_slice(), &open) && has_suffix(cs.as_slice(), &close) {
                proof {
                    if cs@.len() < 3 {
                        assert(cs@.subrange(0, 2)[1] == '{');
                        assert(cs@.subrange(cs@.len() - 1, cs@.len() as int)[0] == '}');
                        assert(false);
                    }
                }
                let name = substring(cs.as_slice(), 2, cs.len() - 1);
                match lookup_prop(ctx, name.as_str()) {
                    Some(i) => ctx[i].1.duplicate(),
                    None => value.duplicate(),
                }
            } else {
                value.duplicate()
            }
        },
        UiValue::Array(a) => {
            let mut out: Vec<UiValue> = Vec::new();
            let mut i: usize = 0;
            proof {
                lemma_values_view_len(a@);
            }
            assert(values_view(out@) =~= Seq::<ValueView>::empty());
            assert(interp_values(m, values_view(a@).subrange(0, 0)) =~= Seq::<ValueView>::empty());
            while i < a.len()
                invariant
                    i <= a@.len(),
                    value is Array,
                    value->Array_0 == *a,
                    m == props_map(pairs_view(ctx@)),
                    values_view(a@).len() == a@.len(),
                    values_view(out@) == interp_values(m, values_view(a@).subrange(0, i as int)),
                decreases a@.len() - i,
            {
                proof {
                    lemma_values_view_index(a@, i as int);
                    assert(decreases_to!(value => value->Array_0));
                    assert(decreases_to!(a@ => a@[i as int]));
                    assert(values_view(a@).subrange(0, i + 1).subrange(0, i as int) =~= values_view(a@).subrange(0, i as int));
                }
                let v = interpolate_value(ctx, &a[i]);
                let ghost before = out@;
                out.push(v);
                proof {
                    lemma_values_view_push(before, v);
                }
                i = i + 1;
            }
            assert(values_view(a@).subrange(0, i as int) =~= values_view(a@));
            UiValue::Array(out)
        },
        UiValue::Object(o) => {
            let r = interpolate_pairs_of(ctx, o, value);
            UiValue::Object(r)
        },
        _ => value.duplicate(),
    }
}

/// The entries of an object value, each value interpolated.
fn interpolate_pairs_of(ctx: &Vec<(String, UiValue)>, o: &Vec<(String, UiValue)>, whole: &UiValue) -> (r: Vec<(String, UiValue)>)
    requires
        whole is Object,
        whole->Object_0 == *o,
    ensures
        pairs_view(r@) == interp_pairs(props_map(pairs_view(ctx@)), pairs_view(o@)),
    decreases whole, 0nat,
{
    let ghost m = props_map(pairs_view(ctx@));
    let mut out: Vec<(String, UiValue)> = Vec::new();
    let mut i: usize = 0;
    proof {
        lemma_pairs_view_len(o@);
    }
    assert(pairs_view(out@) =~= Seq::<(Seq<char>, ValueView)>::empty());
    assert(interp_pairs(m, pairs_view(o@).subrange(0, 0)) =~= Seq::<(Seq<char>, ValueView)>::empty());
    while i < o.len()
        invariant
            i <= o@.len(),
            whole is Object,
            whole->Object_0 == *o,
            m == props_map(pairs_view(ctx@)),
            pairs_view(o@).len() == o@.len(),
            pairs_view(out@) == interp_pairs(m, pairs_view(o@).subrange(0, i as int)),
        decreases o@.len() - i,
    {
        proof {
            lemma_pairs_view_index(o@, i as int);
            assert(decreases_to!(whole => whole->Object_0));
            assert(decreases_to!(o@ => o@[i as int]));
            assert(decreases_to!(o@[i as int] => o@[i as int].1));
            assert(pairs_view(o@).subrange(0, i + 1).subrange(0, i as int) =~= pairs_view(o@).subrange(0, i as int));
        }
        let k = o[i].0.clone();
        let v = interpolate_value(ctx, &o[i].1);
        let ghost before = out@;
        out.push((k, v));
        proof {
            lemma_pairs_view_push(before, k, v);
        }
        i = i + 1;
    }
    assert(pairs_view(o@).subrange(0, i as int) =~= pairs_view(o@));
    out
}

/// Properties interpolated in `ctx`.
pub fn interpolate_props(props: &Vec<(String, UiValue)>, ctx: &Vec<(String, UiValue)>) -> (r: Vec<(String, UiValue)>)
    ensures
        pairs_view(r@) == interp_pairs(props_map(pairs_view(ctx@)), pairs_view(props@)),
{
    let ghost m = props_map(pairs_view(ctx@));
    let mut out: Vec<(String, UiValue)> = Vec::new();
    let mut i: usize = 0;
    proof {
        lemma_pairs_view_len(props@);
    }
    assert(pairs_view(out@) =~= Seq::<(Seq<char>, ValueView)>::empty());
    assert(interp_pairs(m, pairs_view(props@).subrange(0, 0)) =~= Seq::<(Seq<char>, ValueView)>::empty());
    while i < props.len()
        invariant
            i <= props@.len(),
            m == props_map(pairs_view(ctx@)),
            pairs_view(props@).len() == props@.len(),
            pairs_view(out@) == interp_pairs(m, pairs_view(props@).subrange(0, i as int)),
        decreases props@.len() - i,
    {
        proof {
            lemma_pairs_view_index(props@, i as int);
            assert(pairs_view(props@).subrange(0, i + 1).subrange(0, i as int) =~= pairs_view(props@).subrange(0, i as int));
        }
        let k = props[i].0.clone();
        let v = interpolate_value(ctx, &props[i].1);
        let ghost before = out@;
        out.push((k, v));
        proof {
            lemma_pairs_view_push(before, k, v);
        }
        i = i + 1;
    }
    assert(pairs_view(props@).subrange(0, i as int) =~= pairs_view(props@));
    out
}

/// `a` followed by `b`, copied.
fn merged_props(a: &Vec<(String, UiValue)>, b: &Vec<(String, UiValue)>) -> (r: Vec<(String, UiValue)>)
    ensures
        pairs_view(r@) == pairs_view(a@) + pairs_view(b@),
{
    let mut out = duplicate_pairs(a);
    let mut i: usize = 0;
    proof {
        lemma_pairs_view_len(b@);
    }
    assert(pairs_view(b@).subrange(0, 0) =~= Seq::<(Seq<char>, ValueView)>::empty());
    assert(pairs_view(out@) =~= pairs_view(a@) + pairs_view(b@).subrange(0, 0));
    while i < b.len()
        invariant
            i <= b@.len(),
            pairs_view(b@).len() == b@.len(),
            pairs_view(out@) == pairs_view(a@) + pairs_view(b@).subrange(0, i as int),
        decreases b@.len() - i,
    {
        proof {
            lemma_pairs_view_index(b@, i as int);
        }
        let k = b[i].0.clone();
        let v = b[i].1.duplicate();
        let ghost before = out@;
        out.push((k, v));
        proof {
            lemma_pairs_view_push(before, k, v);
        }
        assert(pairs_view(out@) =~= pairs_view(a@) + pairs_view(b@).subrange(0, i + 1));
        i = i + 1;
    }
    assert(pairs_view(b@).subrange(0, i as int) =~= pairs_view(b@));
    out
}

/// Reads references of JSON interface documents, relative to a base path,
/// and caches the documents it resolved.
pub struct UiParser {
    pub base_path: String,
    pub cache: Vec<(String, UiDocument)>,
}

impl UiParser {
    /// The cached documents by path.
    pub open spec fn cached_docs(&self) -> Docs {
        docs_map(docs_view(self.cache@))
    }

    /// A parser for references relative to `base_path`, with nothing
    /// cached.
    pub fn new(base_path: &str) -> (p: Self)
        ensures
            p.base_path@ == base_path@,
            p.cached_docs() == Map::<Seq<char>, DocModel>::empty(),
    {
        let p = UiParser { base_path: String::from_str(base_path), cache: Vec::new() };
        assert(docs_view(p.cache@) =~= Seq::<(Seq<char>, DocModel)>::empty());
        p
    }

    /// Resolves the document at `path` (joined to the base path): a cached
    /// document gives its root as cached; otherwise the document of `files`
    /// is resolved, cached, and its resolved root given.
    pub fn parse_document(&mut self, path: &str, files: &Vec<(String, UiDocument)>, fuel: u64) -> (r: Result<UiComponent, UiError>)
        ensures
            (final(self).cached_docs(), outcome(r)) == load_doc(
                old(self).base_path@,
                docs_map(docs_view(files@)),
                old(self).cached_docs(),
                fuel as nat,
                path@,
            ),
            final(self).base_path == old(self).base_path,
        decreases fuel, 0nat, path@,
    {
        let abs = join(self.base_path.as_str(), path);
        match lookup_doc(&self.cache, abs.as_str()) {
            Some(i) => {
                return Ok(self.cache[i].1.root.duplicate());
            },
            None => {},
        }
        let j = match lookup_doc(files, abs.as_str()) {
            Some(j) => j,
            None => {
                return Err(UiError::NeedFile(abs));
            },
        };
        if fuel == 0 {
            return Err(UiError::TooDeep(abs));
        }
        let empty: Vec<(String, UiValue)> = Vec::new();
        assert(pairs_view(empty@) =~= Seq::<(Seq<char>, ValueView)>::empty());
        let r = self.resolve_component_with_props(&files[j].1.root, &empty, files, fuel - 1);
        match r {
            Ok(c) => {
                let ghost before = docs_view(self.cache@);
                let d = files[j].1.duplicate();
                let ghost dv = d@;
                self.cache.push((abs, d));
                assert(docs_view(self.cache@) =~= before.push((abs@, dv)));
                assert(docs_view(self.cache@).drop_last() =~= before);
                Ok(c)
            },
            Err(e) => Err(e),
        }
    }

    /// The root of the document at `path`, its children resolved with
    /// `merged`, and its properties interpolated in `merged`.
    fn resolve_referred(&mut self, path: &str, merged: &Vec<(String, UiValue)>, files: &Vec<(String, UiDocument)>, fuel: u64) -> (r: Result<UiComponent, UiError>)
        ensures
            (final(self).cached_docs(), outcome(r)) == resolve_referred(
                old(self).base_path@,
                docs_map(docs_view(files@)),
                old(self).cached_docs(),
                fuel as nat,
                path@,
                pairs_view(merged@),
            ),
            final(self).base_path == old(self).base_path,
        decreases fuel, 1nat, path@,
    {
        let target = join(self.base_path.as_str(), path);
        let refc = match self.parse_document(target.as_str(), files, fuel) {
            Ok(c) => c,
            Err(e) => {
                return Err(e);
            },
        };
        if fuel == 0 {
            return Err(UiError::TooDeep(join(self.base_path.as_str(), target.as_str())));
        }
        let children = match self.resolve_children_with_props(&refc.children, merged, files, fuel - 1) {
            Ok(ch) => ch,
            Err(e) => {
                return Err(e);
            },
        };
        let props = interpolate_props(&refc.props, merged);
        Ok(UiComponent { component_type: refc.component_type, props, children, reference: refc.reference })
    }

    /// A component resolved with the inherited properties `inherited`.
    fn resolve_component_with_props(&mut self, component: &UiComponent, inherited: &Vec<(String, UiValue)>, files: &Vec<(String, UiDocument)>, fuel: u64) -> (r: Result<UiComponent, UiError>)
        ensures
            (final(self).cached_docs(), outcome(r)) == resolve_comp(
                old(self).base_path@,
                docs_map(docs_view(files@)),
                old(self).cached_docs(),
                fuel as nat,
                component@,
                pairs_view(inherited@),
            ),
            final(self).base_path == old(self).base_path,
        decreases fuel, 2nat, component,
    {
        match &component.reference {
            Some(r) => {
                let merged = merged_props(inherited, &component.props);
                self.resolve_referred(r.as_str(), &merged, files, fuel)
            },
            None => {
                assert(decreases_to!(component => component.children));
                let children = match self.resolve_children_with_props(&component.children, inherited, files, fuel) {
                    Ok(ch) => ch,
                    Err(e) => {
                        return Err(e);
                    },
                };
                let props = interpolate_props(&component.props, inherited);
                Ok(UiComponent { component_type: component.component_type.clone(), props, children, reference: None })
            },
        }
    }

    /// Children resolved in order with `inherited`; the first failure stops.
    fn resolve_children_with_props(&mut self, children: &Vec<UiChild>, inherited: &Vec<(String, UiValue)>, files: &Vec<(String, UiDocument)>, fuel: u64) -> (r: Result<Vec<UiChild>, UiError>)
        ensures
            ({
                let (c, x) = resolve_children(
                    old(self).base_path@,
                    docs_map(docs_view(files@)),
                    old(self).cached_docs(),
                    fuel as nat,
                    children_view(children@),
                    pairs_view(inherited@),
                );
                &&& final(self).cached_docs() == c
                &&& match r {
                    Ok(v) => x == Ok::<Seq<ChildView>, UiErrorView>(children_view(v@)),
                    Err(e) => x == Err::<Seq<ChildView>, UiErrorView>(e@),
                }
            }),
            final(self).base_path == old(self).base_path,
        decreases fuel, 2nat, children,
    {
        let ghost base = self.base_path@;
        let ghost fs = docs_map(docs_view(files@));
        let ghost inh = pairs_view(inherited@);
        let ghost cv = children_view(children@);
        let ghost whole = resolve_children(base, fs, self.cached_docs(), fuel as nat, cv, inh);
        proof {
            lemma_children_view_len(children@);
        }
        let mut out: Vec<UiChild> = Vec::new();
        let mut i: usize = 0;
        assert(children_view(out@) =~= Seq::<ChildView>::empty());
        assert(cv.subrange(0, cv.len() as int) =~= cv);
        while i < children.len()
            invariant
                i <= children@.len(),
                cv == children_view(children@),
                cv.len() == children@.len(),
                base == self.base_path@,
                self.base_path == old(self).base_path,
                fs == docs_map(docs_view(files@)),
                inh == pairs_view(inherited@),
                whole == resolve_children(base, fs, old(self).cached_docs(), fuel as nat, cv, inh),
                whole == ({
                    let (c, x) = resolve_children(base, fs, self.cached_docs(), fuel as nat, cv.subrange(i as int, cv.len() as int), inh);
                    (c, match x {
                        Ok(rest) => Ok(children_view(out@) + rest),
                        Err(e) => Err(e),
                    })
                }),
            decreases children@.len() - i,
        {
            let ghost rest = cv.subrange(i as int, cv.len() as int);
            proof {
                lemma_children_view_index(children@, i as int);
                assert(rest[0] == child_view(children@[i as int]));
                assert(rest.drop_first() =~= cv.subrange(i + 1, cv.len() as int));
                assert(decreases_to!(children => children@));
                assert(decreases_to!(children@ => children@[i as int]));
            }
            let c = match self.resolve_child_with_props(&children[i], inherited, files, fuel) {
                Ok(c) => c,
                Err(e) => {
                    return Err(e);
                },
            };
            let ghost before = out@;
            let ghost cview = c@;
            out.push(c);
            proof {
                lemma_children_view_push(before, c);
                assert(children_view(before) + (seq![cview] + Seq::<ChildView>::empty()) =~= children_view(out@) + Seq::<ChildView>::empty());
                assert forall|t: Seq<ChildView>| children_view(before) + (seq![cview] + t) == children_view(out@) + t by {
                    assert(children_view(before) + (seq![cview] + t) =~= children_view(out@) + t);
                }
            }
            i = i + 1;
        }
        assert(cv.subrange(i as int, cv.len() as int) =~= Seq::<ChildView>::empty());
        assert(children_view(out@) + Seq::<ChildView>::empty() =~= children_view(out@));
        Ok(out)
    }

    /// A child resolved with `inherited`.
    fn resolve_child_with_props(&mut self, child: &UiChild, inherited: &Vec<(String, UiValue)>, files: &Vec<(String, UiDocument)>, fuel: u64) -> (r: Result<UiChild, UiError>)
        ensures
            (final(self).cached_docs(), outcome(r)) == resolve_child(
                old(self).base_path@,
                docs_map(docs_view(files@)),
                old(self).cached_docs(),
                fuel as nat,
                child@,
                pairs_view(inherited@),
            ),
            final(self).base_path == old(self).base_path,
        decreases fuel, 2nat, child,
    {
        match child {
            UiChild::Component(k) => match self.resolve_component_with_props(k, inherited, files, fuel) {
                Ok(c) => Ok(UiChild::Component(c)),
                Err(e) => Err(e),
            },
            UiChild::Text(t) => Ok(UiChild::Text(t.clone())),
            UiChild::Reference { reference, props } => {
                let merged = merged_props(inherited, props);
                match self.resolve_referred(reference.as_str(), &merged, files, fuel) {
                    Ok(c) => Ok(UiChild::Component(c)),
                    Err(e) => Err(e),
                }
            },
        }
    }

    /// Resolves a component with no inherited properties.
    pub fn resolve_component(&mut self, component: &UiComponent, files: &Vec<(String, UiDocument)>, fuel: u64) -> (r: Result<UiComponent, UiError>)
        ensures
            (final(self).cached_docs(), outcome(r)) == resolve_comp(
                old(self).base_path@,
                docs_map(docs_view(files@)),
                old(self).cached_docs(),
                fuel as nat,
                component@,
                Seq::empty(),
            ),
            final(self).base_path == old(self).base_path,
    {
        let empty: Vec<(String, UiValue)> = Vec::new();
        assert(pairs_view(empty@) =~= Seq::<(Seq<char>, ValueView)>::empty());
        self.resolve_component_with_props(component, &empty, files, fuel)
    }

    /// Empties the cache.
    pub fn clear_cache(&mut self)
        ensures
            final(self).cached_docs() == Map::<Seq<char>, DocModel>::empty(),
            final(self).base_path == old(self).base_path,
    {
        self.cache.clear();
        assert(docs_view(self.cache@) =~= Seq::<(Seq<char>, DocModel)>::empty());
    }
}

/// The entries of `s` for paths other than `p`, in order.
pub open spec fn docs_without(s: Seq<(Seq<char>, DocModel)>, p: Seq<char>) -> Seq<(Seq<char>, DocModel)>
    decreases s.len(),
{
    if s.len() == 0 {
        s
    } else if s.last().0 == p {
        docs_without(s.drop_last(), p)
    } else {
        docs_without(s.drop_last(), p).push(s.last())
    }
}

proof fn lemma_docs_without(s: Seq<(Seq<char>, DocModel)>, p: Seq<char>)
    ensures
        docs_map(docs_without(s, p)) == docs_map(s).remove(p),
    decreases s.len(),
{
    if s.len() > 0 {
        lemma_docs_without(s.drop_last(), p);
        if s.last().0 != p {
            assert(docs_without(s, p).drop_last() =~= docs_without(s.drop_last(), p));
        }
        assert(docs_map(docs_without(s, p)) =~= docs_map(s).remove(p));
    } else {
        assert(docs_map(s).remove(p) =~= Map::empty());
    }
}

impl UiParser {
    /// Drops what the cache holds for `path`.
    pub fn remove_from_cache(&mut self, path: &str)
        ensures
            final(self).cached_docs() == old(self).cached_docs().remove(path@),
            final(self).base_path == old(self).base_path,
    {
        let ghost dv = docs_view(self.cache@);
        let mut kept: Vec<(String, UiDocument)> = Vec::new();
        let mut i: usize = 0;
        assert(docs_view(kept@) =~= docs_without(dv.subrange(0, 0), path@));
        while i < self.cache.len()
            invariant
                i <= dv.len(),
                dv == docs_view(self.cache@),
                self.cache@ == old(self).cache@,
                self.base_path == old(self).base_path,
                docs_view(kept@) == docs_without(dv.subrange(0, i as int), path@),
            decreases dv.len() - i,
        {
            assert(dv.subrange(0, i + 1).drop_last() =~= dv.subrange(0, i as int));
            assert(dv.subrange(0, i + 1).last() == dv[i as int]);
            if !str_eq(self.cache[i].0.as_str(), path) {
                let ghost before = docs_view(kept@);
                let k = self.cache[i].0.clone();
                let d = self.cache[i].1.duplicate();
                kept.push((k, d));
                assert(docs_view(kept@) =~= before.push(dv[i as int]));
            }
            i = i + 1;
        }
        assert(dv.subrange(0, i as int) =~= dv);
        proof {
            lemma_docs_without(dv, path@);
        }
        self.cache = kept;
    }

    /// Resolves the document at `path` with a parser whose base path is the
    /// document's directory ("." where it has none).
    pub fn parse_file(path: &str, files: &Vec<(String, UiDocument)>, fuel: u64) -> (r: Result<UiComponent, UiError>)
        ensures
            outcome(r) == load_doc(
                crate::json_ui::hot_reload::watch_dir(path@),
                docs_map(docs_view(files@)),
                Map::empty(),
                fuel as nat,
                path@,
            ).1,
    {
        proof {
            reveal_strlit(".");
        }
        let dir = match crate::paths::path_parent(path) {
            Some(d) => d,
            None => String::from_str("."),
        };
        assert(dir@ == crate::json_ui::hot_reload::watch_dir(path@));
        let mut parser = UiParser::new(dir.as_str());
        let ghost c0 = parser.cached_docs();
        assert(c0 == Map::<Seq<char>, DocModel>::empty());
        let r = parser.parse_document(path, files, fuel);
        assert(outcome(r) == load_doc(dir@, docs_map(docs_view(files@)), c0, fuel as nat, path@).1);
        r
    }
}

/// A document that loads without error is in the cache afterwards, so the
/// next load of the same path is served from the cache.
pub proof fn law_loaded_document_cached(base: Seq<char>, files: Docs, cache: Docs, fuel: nat, path: Seq<char>)
    ensures
        load_doc(base, files, cache, fuel, path).1 is Ok ==> load_doc(base, files, cache, fuel, path).0.dom().contains(
            join_path(base, path),
        ),
{
}

/// With an empty context, interpolation leaves every value as it is.
pub proof fn law_interpolate_empty_context(v: ValueView)
    ensures
        interp_value(Map::empty(), v) == v,
    decreases v, 1nat,
{
    match v {
        ValueView::Array(a) => {
            lemma_interp_values_empty(a);
        },
        ValueView::Object(o) => {
            lemma_interp_pairs_empty(o);
        },
        _ => {},
    }
}

proof fn lemma_interp_values_empty(s: Seq<ValueView>)
    ensures
        interp_values(Map::empty(), s) == s,
    decreases s, s.len(),
{
    if s.len() > 0 {
        lemma_interp_values_empty(s.subrange(0, s.len() - 1));
        law_interpolate_empty_context(s[s.len() - 1]);
        assert(s.subrange(0, s.len() - 1).push(s[s.len() - 1]) =~= s);
    } else {
        assert(s =~= Seq::<ValueView>::empty());
    }
}

proof fn lemma_interp_pairs_empty(s: Seq<(Seq<char>, ValueView)>)
    ensures
        interp_pairs(Map::empty(), s) == s,
    decreases s, s.len(),
{
    if s.len() > 0 {
        lemma_interp_pairs_empty(s.subrange(0, s.len() - 1));
        law_interpolate_empty_context(s[s.len() - 1].1);
        assert(s.subrange(0, s.len() - 1).push((s[s.len() - 1].0, s[s.len() - 1].1)) =~= s);
    } else {
        assert(s =~= Seq::<(Seq<char>, ValueView)>::empty());
    }
}

/// A placeholder `${name}` whose name is bound in the context is replaced by
/// the bound value.
pub proof fn law_placeholder_takes_bound_value(ctx: Map<Seq<char>, ValueView>, name: Seq<char>)
    requires
        ctx.dom().contains(name),
    ensures
        interp_value(ctx, ValueView::String(seq!['$', '{'] + name + seq!['}'])) == ctx[name],
{
    let s = seq!['$', '{'] + name + seq!['}'];
    assert(s.subrange(0, 2) =~= seq!['$', '{']);
    assert(s.subrange(s.len() - 1, s.len() as int) =~= seq!['}']);
    assert(s.subrange(2, s.len() - 1) =~= name);
}

/// The children of a referred document are resolved with the merged
/// properties: where the referred root has one child, a component of type
/// `ty` whose property `p` is the placeholder `${n}`, and the merged
/// properties bind `n`, the resolved child is that component with `p` set
/// to the value bound to `n`.
pub proof fn law_referred_children_get_props(
    base: Seq<char>,
    files: Docs,
    cache: Docs,
    fuel: nat,
    path: Seq<char>,
    merged: Seq<(Seq<char>, ValueView)>,
    refc: ComponentModel,
    ty: Seq<char>,
    p: Seq<char>,
    n: Seq<char>,
)
    requires
        fuel > 0,
        props_map(merged).dom().contains(n),
        load_doc(base, files, cache, fuel, join_path(base, path)).1 == Ok::<ComponentModel, UiErrorView>(refc),
        refc.children == seq![
            ChildView::Component(
                ComponentModel {
                    component_type: ty,
                    props: seq![(p, ValueView::String(seq!['$', '{'] + n + seq!['}']))],
                    children: Seq::empty(),
                    reference: None,
                },
            ),
        ],
    ensures
        resolve_referred(base, files, cache, fuel, path, merged).1 matches Ok(r) && r.children == seq![
            ChildView::Component(
                ComponentModel {
                    component_type: ty,
                    props: seq![(p, props_map(merged)[n])],
                    children: Seq::empty(),
                    reference: None,
                },
            ),
        ],
{
    let ctx = props_map(merged);
    let c2 = load_doc(base, files, cache, fuel, join_path(base, path)).0;
    let f1 = (fuel - 1) as nat;
    let k = refc.children[0]->Component_0;
    let ps = k.props;
    let ph = ValueView::String(seq!['$', '{'] + n + seq!['}']);
    assert(ps == seq![(p, ph)]);
    law_placeholder_takes_bound_value(ctx, n);
    assert(interp_value(ctx, ps[0].1) == ctx[n]);
    assert(ps.subrange(0, 0) =~= Seq::<(Seq<char>, ValueView)>::empty());
    assert(interp_pairs(ctx, ps.subrange(0, 0)) == Seq::<(Seq<char>, ValueView)>::empty());
    assert(interp_pairs(ctx, ps) == Seq::<(Seq<char>, ValueView)>::empty().push((p, ctx[n])));
    assert(interp_pairs(ctx, ps) =~= seq![(p, ctx[n])]);
    assert(resolve_children(base, files, c2, f1, k.children, merged) == (c2, Ok::<Seq<ChildView>, UiErrorView>(Seq::empty())));
    assert(refc.children.drop_first() =~= Seq::<ChildView>::empty());
    assert(resolve_children(base, files, c2, f1, refc.children.drop_first(), merged).1 == Ok::<Seq<ChildView>, UiErrorView>(Seq::empty()));
    let rk = resolve_comp(base, files, c2, f1, k, merged);
    assert(rk.1 == Ok::<ComponentModel, UiErrorView>(
        ComponentModel { component_type: ty, props: interp_pairs(ctx, ps), children: Seq::empty(), reference: None },
    ));
    assert(resolve_child(base, files, c2, f1, refc.children[0], merged) == (rk.0, Ok::<ChildView, UiErrorView>(ChildView::Component(rk.1->Ok_0))));
    let rc = resolve_children(base, files, c2, f1, refc.children, merged).1;
    assert(rc matches Ok(ch) && ch =~= seq![
        ChildView::Component(
            ComponentModel { component_type: ty, props: seq![(p, ctx[n])], children: Seq::empty(), reference: None },
        ),
    ]);
}

} // verus!
