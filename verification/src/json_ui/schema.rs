//! The JSON interface model: values, components, children and documents.
use vstd::prelude::*;

verus! {

broadcast use vstd::std_specs::vec::axiom_vec_decreases_to_view;

/// A JSON value as the interface reads it. A number keeps the text it was
/// written with.
#[derive(Debug)]
pub enum UiValue {
    String(String),
    Number(String),
    Boolean(bool),
    Array(Vec<UiValue>),
    Object(Vec<(String, UiValue)>),
}

/// A component: its type, properties, children, and the file it refers to.
#[derive(Debug)]
pub struct UiComponent {
    pub component_type: String,
    pub props: Vec<(String, UiValue)>,
    pub children: Vec<UiChild>,
    pub reference: Option<String>,
}

/// A child: a component, a text, or a reference to a component file with
/// properties for it.
#[derive(Debug)]
pub enum UiChild {
    Component(UiComponent),
    Text(String),
    Reference { reference: String, props: Vec<(String, UiValue)> },
}

/// A document: an optional schema and the root component.
#[derive(Debug)]
pub struct UiDocument {
    pub schema: Option<String>,
    pub root: UiComponent,
}

/// The model of a value.
pub enum ValueView {
    String(Seq<char>),
    Number(Seq<char>),
    Boolean(bool),
    Array(Seq<ValueView>),
    Object(Seq<(Seq<char>, ValueView)>),
}

/// The model of a component.
pub struct ComponentModel {
    pub component_type: Seq<char>,
    pub props: Seq<(Seq<char>, ValueView)>,
    pub children: Seq<ChildView>,
    pub reference: Option<Seq<char>>,
}

/// The model of a child.
pub enum ChildView {
    Component(ComponentModel),
    Text(Seq<char>),
    Reference { reference: Seq<char>, props: Seq<(Seq<char>, ValueView)> },
}

pub open spec fn value_view(v: UiValue) -> ValueView
    decreases v, 0nat,
{
    match v {
        UiValue::String(s) => ValueView::String(s@),
        UiValue::Number(n) => ValueView::Number(n@),
        UiValue::Boolean(b) => ValueView::Boolean(b),
        UiValue::Array(a) => ValueView::Array(values_view(a@)),
        UiValue::Object(o) => ValueView::Object(pairs_view(o@)),
    }
}

pub open spec fn values_view(s: Seq<UiValue>) -> Seq<ValueView>
    decreases s, s.len(),
{
    if s.len() == 0 {
        Seq::empty()
    } else {
        values_view(s.subrange(0, s.len() - 1)).push(value_view(s[s.len() - 1]))
    }
}

pub open spec fn pairs_view(s: Seq<(String, UiValue)>) -> Seq<(Seq<char>, ValueView)>
    decreases s, s.len(),
{
    if s.len() == 0 {
        Seq::empty()
    } else {
        pairs_view(s.subrange(0, s.len() - 1)).push((s[s.len() - 1].0@, value_view(s[s.len() - 1].1)))
    }
}

pub open spec fn component_model(c: UiComponent) -> ComponentModel
    decreases c, 0nat,
{
    ComponentModel {
        component_type: c.component_type@,
        props: pairs_view(c.props@),
        children: children_view(c.children@),
        reference: match c.reference {
            Some(r) => Some(r@),
            None => None,
        },
    }
}

pub open spec fn children_view(s: Seq<UiChild>) -> Seq<ChildView>
    decreases s, s.len(),
{
    if s.len() == 0 {
        Seq::empty()
    } else {
        children_view(s.subrange(0, s.len() - 1)).push(child_view(s[s.len() - 1]))
    }
}

pub open spec fn child_view(c: UiChild) -> ChildView
    decreases c, 0nat,
{
    match c {
        UiChild::Component(k) => ChildView::Component(component_model(k)),
        UiChild::Text(t) => ChildView::Text(t@),
        UiChild::Reference { reference, props } => ChildView::Reference {
            reference: reference@,
            props: pairs_view(props@),
        },
    }
}

impl View for UiValue {
    type V = ValueView;

    open spec fn view(&self) -> ValueView {
        value_view(*self)
    }
}

impl View for UiComponent {
    type V = ComponentModel;

    open spec fn view(&self) -> ComponentModel {
        component_model(*self)
    }
}

impl View for UiChild {
    type V = ChildView;

    open spec fn view(&self) -> ChildView {
        child_view(*self)
    }
}

pub proof fn lemma_values_view_len(s: Seq<UiValue>)
    ensures
        values_view(s).len() == s.len(),
    decreases s.len(),
{
    if s.len() > 0 {
        lemma_values_view_len(s.subrange(0, s.len() - 1));
    }
}

pub proof fn lemma_values_view_index(s: Seq<UiValue>, i: int)
    requires
        0 <= i < s.len(),
    ensures
        values_view(s)[i] == value_view(s[i]),
    decreases s.len(),
{
    lemma_values_view_len(s.subrange(0, s.len() - 1));
    if i < s.len() - 1 {
        lemma_values_view_index(s.subrange(0, s.len() - 1), i);
    }
}

pub proof fn lemma_values_view_push(s: Seq<UiValue>, v: UiValue)
    ensures
        values_view(s.push(v)) == values_view(s).push(value_view(v)),
{
    assert(s.push(v).subrange(0, s.len() as int) =~= s);
}

pub proof fn lemma_pairs_view_len(s: Seq<(String, UiValue)>)
    ensures
        pairs_view(s).len() == s.len(),
    decreases s.len(),
{
    if s.len() > 0 {
        lemma_pairs_view_len(s.subrange(0, s.len() - 1));
    }
}

pub proof fn lemma_pairs_view_index(s: Seq<(String, UiValue)>, i: int)
    requires
        0 <= i < s.len(),
    ensures
        pairs_view(s)[i] == (s[i].0@, value_view(s[i].1)),
    decreases s.len(),
{
    lemma_pairs_view_len(s.subrange(0, s.len() - 1));
    if i < s.len() - 1 {
        lemma_pairs_view_index(s.subrange(0, s.len() - 1), i);
    }
}

pub proof fn lemma_pairs_view_push(s: Seq<(String, UiValue)>, k: String, v: UiValue)
    ensures
        pairs_view(s.push((k, v))) == pairs_view(s).push((k@, value_view(v))),
{
    assert(s.push((k, v)).subrange(0, s.len() as int) =~= s);
}

pub proof fn lemma_children_view_len(s: Seq<UiChild>)
    ensures
        children_view(s).len() == s.len(),
    decreases s.len(),
{
    if s.len() > 0 {
        lemma_children_view_len(s.subrange(0, s.len() - 1));
    }
}

pub proof fn lemma_children_view_index(s: Seq<UiChild>, i: int)
    requires
        0 <= i < s.len(),
    ensures
        children_view(s)[i] == child_view(s[i]),
    decreases s.len(),
{
    lemma_children_view_len(s.subrange(0, s.len() - 1));
    if i < s.len() - 1 {
        lemma_children_view_index(s.subrange(0, s.len() - 1), i);
    }
}

pub proof fn lemma_children_view_push(s: Seq<UiChild>, c: UiChild)
    ensures
        children_view(s.push(c)) == children_view(s).push(child_view(c)),
{
    assert(s.push(c).subrange(0, s.len() as int) =~= s);
}

impl UiValue {
    /// The text of a string value.
    pub fn as_string(&self) -> (r: Option<&str>)
        ensures
            match self@ {
                ValueView::String(s) => r matches Some(t) && t@ == s,
                _ => r is None,
            },
    {
        match self {
            UiValue::String(s) => Some(s.as_str()),
            _ => None,
        }
    }

    /// The flag of a boolean value.
    pub fn as_bool(&self) -> (r: Option<bool>)
        ensures
            match self@ {
                ValueView::Boolean(b) => r == Some(b),
                _ => r is None,
            },
    {
        match self {
            UiValue::Boolean(b) => Some(*b),
            _ => None,
        }
    }

    /// The items of an array value.
    pub fn as_array(&self) -> (r: Option<&Vec<UiValue>>)
        ensures
            match self@ {
                ValueView::Array(a) => r matches Some(v) && values_view(v@) == a,
                _ => r is None,
            },
    {
        match self {
            UiValue::Array(a) => Some(a),
            _ => None,
        }
    }

    /// The entries of an object value.
    pub fn as_object(&self) -> (r: Option<&Vec<(String, UiValue)>>)
        ensures
            match self@ {
                ValueView::Object(o) => r matches Some(v) && pairs_view(v@) == o,
                _ => r is None,
            },
    {
        match self {
            UiValue::Object(o) => Some(o),
            _ => None,
        }
    }

    /// A copy of the value.
    pub fn duplicate(&self) -> (r: Self)
        ensures
            r@ == self@,
        decreases self,
    {
        match self {
            UiValue::String(s) => UiValue::String(s.clone()),
            UiValue::Number(n) => UiValue::Number(n.clone()),
            UiValue::Boolean(b) => UiValue::Boolean(*b),
            UiValue::Array(a) => {
                let mut out: Vec<UiValue> = Vec::new();
                let mut i: usize = 0;
                proof {
                    lemma_values_view_len(a@);
                }
                assert(values_view(out@) =~= Seq::<ValueView>::empty());
                while i < a.len()
                    invariant
                        i <= a@.len(),
                        self is Array,
                        self->Array_0 == *a,
                        values_view(a@).len() == a@.len(),
                        values_view(out@) == values_view(a@).subrange(0, i as int),
                    decreases a@.len() - i,
                {
                    proof {
                        lemma_values_view_index(a@, i as int);
                        assert(decreases_to!(self => self->Array_0));
                        assert(decreases_to!(a@ => a@[i as int]));
                    }
                    let v = a[i].duplicate();
                    let ghost before = out@;
                    out.push(v);
                    proof {
                        lemma_values_view_push(before, v);
                    }
                    assert(values_view(out@) =~= values_view(a@).subrange(0, i + 1));
                    i = i + 1;
                }
                assert(values_view(a@).subrange(0, i as int) =~= values_view(a@));
                UiValue::Array(out)
            },
            UiValue::Object(o) => {
                let mut out: Vec<(String, UiValue)> = Vec::new();
                let mut i: usize = 0;
                proof {
                    lemma_pairs_view_len(o@);
                }
                assert(pairs_view(out@) =~= Seq::<(Seq<char>, ValueView)>::empty());
                while i < o.len()
                    invariant
                        i <= o@.len(),
                        self is Object,
                        self->Object_0 == *o,
                        pairs_view(o@).len() == o@.len(),
                        pairs_view(out@) == pairs_view(o@).subrange(0, i as int),
                    decreases o@.len() - i,
                {
                    proof {
                        lemma_pairs_view_index(o@, i as int);
                        assert(decreases_to!(self => self->Object_0));
                        assert(decreases_to!(o@ => o@[i as int]));
                        assert(decreases_to!(o@[i as int] => o@[i as int].1));
                    }
                    let k = o[i].0.clone();
                    let v = o[i].1.duplicate();
                    let ghost before = out@;
                    out.push((k, v));
                    proof {
                        lemma_pairs_view_push(before, k, v);
                    }
                    assert(pairs_view(out@) =~= pairs_view(o@).subrange(0, i + 1));
                    i = i + 1;
                }
                assert(pairs_view(o@).subrange(0, i as int) =~= pairs_view(o@));
                UiValue::Object(out)
            },
        }
    }
}

/// The model of a document.
pub struct DocModel {
    pub schema: Option<Seq<char>>,
    pub root: ComponentModel,
}

impl View for UiDocument {
    type V = DocModel;

    open spec fn view(&self) -> DocModel {
        DocModel {
            schema: match self.schema {
                Some(s) => Some(s@),
                None => None,
            },
            root: component_model(self.root),
        }
    }
}

/// A copy of the entries.
pub fn duplicate_pairs(o: &Vec<(String, UiValue)>) -> (r: Vec<(String, UiValue)>)
    ensures
        pairs_view(r@) == pairs_view(o@),
{
    let mut out: Vec<(String, UiValue)> = Vec::new();
    let mut i: usize = 0;
    proof {
        lemma_pairs_view_len(o@);
    }
    assert(pairs_view(out@) =~= Seq::<(Seq<char>, ValueView)>::empty());
    while i < o.len()
        invariant
            i <= o@.len(),
            pairs_view(o@).len() == o@.len(),
            pairs_view(out@) == pairs_view(o@).subrange(0, i as int),
        decreases o@.len() - i,
    {
        proof {
            lemma_pairs_view_index(o@, i as int);
        }
        let k = o[i].0.clone();
        let v = o[i].1.duplicate();
        let ghost before = out@;
        out.push((k, v));
        proof {
            lemma_pairs_view_push(before, k, v);
        }
        assert(pairs_view(out@) =~= pairs_view(o@).subrange(0, i + 1));
        i = i + 1;
    }
    assert(pairs_view(o@).subrange(0, i as int) =~= pairs_view(o@));
    out
}

impl UiComponent {
    /// A copy of the component and everything under it.
    pub fn duplicate(&self) -> (r: Self)
        ensures
            r@ == self@,
        decreases self, 1nat,
    {
        let mut children: Vec<UiChild> = Vec::new();
        let mut i: usize = 0;
        proof {
            lemma_children_view_len(self.children@);
        }
        assert(children_view(children@) =~= Seq::<ChildView>::empty());
        while i < self.children.len()
            invariant
                i <= self.children@.len(),
                children_view(self.children@).len() == self.children@.len(),
                children_view(children@) == children_view(self.children@).subrange(0, i as int),
            decreases self.children@.len() - i,
        {
            proof {
                lemma_children_view_index(self.children@, i as int);
            }
            assert(decreases_to!(self => self.children));
            let c = self.children[i].duplicate();
            let ghost before = children@;
            children.push(c);
            proof {
                lemma_children_view_push(before, c);
            }
            assert(children_view(children@) =~= children_view(self.children@).subrange(0, i + 1));
            i = i + 1;
        }
        assert(children_view(self.children@).subrange(0, i as int) =~= children_view(self.children@));
        UiComponent {
            component_type: self.component_type.clone(),
            props: duplicate_pairs(&self.props),
            children,
            reference: match &self.reference {
                Some(r) => Some(r.clone()),
                None => None,
            },
        }
    }
}

impl UiChild {
    /// A copy of the child and everything under it.
    pub fn duplicate(&self) -> (r: Self)
        ensures
            r@ == self@,
        decreases self, 0nat,
    {
        match self {
            UiChild::Component(c) => UiChild::Component(c.duplicate()),
            UiChild::Text(t) => UiChild::Text(t.clone()),
            UiChild::Reference { reference, props } => UiChild::Reference {
                reference: reference.clone(),
                props: duplicate_pairs(props),
            },
        }
    }
}

impl UiDocument {
    /// A copy of the document.
    pub fn duplicate(&self) -> (r: Self)
        ensures
            r@ == self@,
    {
        UiDocument {
            schema: match &self.schema {
                Some(s) => Some(s.clone()),
                None => None,
            },
            root: self.root.duplicate(),
        }
    }
}

} // verus!
