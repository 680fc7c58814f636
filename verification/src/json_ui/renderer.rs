//! What the renderer of JSON interfaces decides from a component: which
//! kind of element it becomes, and the texts, direction and colors it
//! reads from the properties and children.
use vstd::prelude::*;
use crate::json_ui::schema::{UiValue, UiComponent, UiChild, ValueView, ChildView, pairs_view, children_view, lemma_children_view_len, lemma_children_view_index};
use crate::json_ui::parser::{props_map, lookup_prop};
use crate::text::str_eq;
use crate::xml::join_message;

verus! {

/// The kinds of element a component type selects.
#[derive(Debug, Clone, Copy, PartialEq, Eq, Structural)]
pub enum UiKind {
    Div,
    H1,
    H2,
    H3,
    Button,
    Input,
    Text,
    Flex,
    Column,
    Row,
    Unknown,
}

pub open spec fn kind_of_type(t: Seq<char>) -> UiKind {
    if t == "div"@ {
        UiKind::Div
    } else if t == "h1"@ {
        UiKind::H1
    } else if t == "h2"@ {
        UiKind::H2
    } else if t == "h3"@ {
        UiKind::H3
    } else if t == "button"@ {
        UiKind::Button
    } else if t == "input"@ {
        UiKind::Input
    } else if t == "text"@ {
        UiKind::Text
    } else if t == "flex"@ {
        UiKind::Flex
    } else if t == "column"@ {
        UiKind::Column
    } else if t == "row"@ {
        UiKind::Row
    } else {
        UiKind::Unknown
    }
}

/// The colors a `backgroundColor` or `color` property can name.
#[derive(Debug, Clone, Copy, PartialEq, Eq, Structural)]
pub enum UiColor {
    Red,
    Blue,
    Green,
    Yellow,
    Gray,
    White,
    Black,
}

pub open spec fn color_named(n: Seq<char>) -> Option<UiColor> {
    if n == "red"@ {
        Some(UiColor::Red)
    } else if n == "blue"@ {
        Some(UiColor::Blue)
    } else if n == "green"@ {
        Some(UiColor::Green)
    } else if n == "yellow"@ {
        Some(UiColor::Yellow)
    } else if n == "gray"@ {
        Some(UiColor::Gray)
    } else if n == "white"@ {
        Some(UiColor::White)
    } else if n == "black"@ {
        Some(UiColor::Black)
    } else {
        None
    }
}

/// The string a property holds, if it is a string.
pub open spec fn string_prop(props: Seq<(Seq<char>, ValueView)>, key: Seq<char>) -> Option<Seq<char>> {
    if props_map(props).dom().contains(key) {
        match props_map(props)[key] {
            ValueView::String(s) => Some(s),
            _ => None,
        }
    } else {
        None
    }
}

/// The texts among `children`, in order.
pub open spec fn texts_of(children: Seq<ChildView>) -> Seq<Seq<char>>
    decreases children.len(),
{
    if children.len() == 0 {
        Seq::empty()
    } else {
        let rest = texts_of(children.drop_last());
        match children.last() {
            ChildView::Text(t) => rest.push(t),
            _ => rest,
        }
    }
}

/// Texts joined with single spaces.
pub open spec fn join_spaced(ts: Seq<Seq<char>>) -> Seq<char>
    decreases ts.len(),
{
    if ts.len() == 0 {
        Seq::empty()
    } else if ts.len() == 1 {
        ts[0]
    } else {
        join_spaced(ts.drop_last()) + seq![' '] + ts.last()
    }
}

/// The first text among `children`.
pub open spec fn first_text(children: Seq<ChildView>) -> Option<Seq<char>>
    decreases children.len(),
{
    if children.len() == 0 {
        None
    } else {
        match children[0] {
            ChildView::Text(t) => Some(t),
            _ => first_text(children.drop_first()),
        }
    }
}

/// Renders JSON interface components.
pub struct UiRenderer;

impl UiRenderer {
    /// The kind of element a component type selects; unknown types are
    /// shown as a framed note.
    pub fn component_kind(component_type: &str) -> (k: UiKind)
        ensures
            k == kind_of_type(component_type@),
    {
        if str_eq(component_type, "div") {
            UiKind::Div
        } else if str_eq(component_type, "h1") {
            UiKind::H1
        } else if str_eq(component_type, "h2") {
            UiKind::H2
        } else if str_eq(component_type, "h3") {
            UiKind::H3
        } else if str_eq(component_type, "button") {
            UiKind::Button
        } else if str_eq(component_type, "input") {
            UiKind::Input
        } else if str_eq(component_type, "text") {
            UiKind::Text
        } else if str_eq(component_type, "flex") {
            UiKind::Flex
        } else if str_eq(component_type, "column") {
            UiKind::Column
        } else if str_eq(component_type, "row") {
            UiKind::Row
        } else {
            UiKind::Unknown
        }
    }

    /// The string property `key`, if the property is a string.
    pub fn string_property<'a>(props: &'a Vec<(String, UiValue)>, key: &str) -> (r: Option<&'a str>)
        ensures
            match string_prop(pairs_view(props@), key@) {
                Some(s) => r matches Some(t) && t@ == s,
                None => r is None,
            },
    {
        match lookup_prop(props, key) {
            Some(i) => props[i].1.as_string(),
            None => None,
        }
    }

    /// A named color of a `backgroundColor` or `color` property.
    pub fn named_color(name: &str) -> (r: Option<UiColor>)
        ensures
            r == color_named(name@),
    {
        if str_eq(name, "red") {
            Some(UiColor::Red)
        } else if str_eq(name, "blue") {
            Some(UiColor::Blue)
        } else if str_eq(name, "green") {
            Some(UiColor::Green)
        } else if str_eq(name, "yellow") {
            Some(UiColor::Yellow)
        } else if str_eq(name, "gray") {
            Some(UiColor::Gray)
        } else if str_eq(name, "white") {
            Some(UiColor::White)
        } else if str_eq(name, "black") {
            Some(UiColor::Black)
        } else {
            None
        }
    }

    /// The label of a button: its text children joined with spaces.
    pub fn button_label(component: &UiComponent) -> (s: String)
        ensures
            s@ == join_spaced(texts_of(component@.children)),
    {
        let ghost cv = children_view(component.children@);
        proof {
            lemma_children_view_len(component.children@);
        }
        let mut s = String::new();
        let mut any = false;
        let mut i: usize = 0;
        assert(cv.subrange(0, 0) =~= Seq::<ChildView>::empty());
        while i < component.children.len()
            invariant
                i <= component.children@.len(),
                cv == children_view(component.children@),
                cv.len() == component.children@.len(),
                s@ == join_spaced(texts_of(cv.subrange(0, i as int))),
                any == (texts_of(cv.subrange(0, i as int)).len() > 0),
            decreases component.children@.len() - i,
        {
            let ghost pre = cv.subrange(0, i + 1);
            let ghost before = s@;
            proof {
                lemma_children_view_index(component.children@, i as int);
                assert(pre.drop_last() =~= cv.subrange(0, i as int));
                assert(pre.last() == cv[i as int]);
            }
            match &component.children[i] {
                UiChild::Text(t) => {
                    let ghost old_ts = texts_of(cv.subrange(0, i as int));
                    assert(texts_of(pre) == old_ts.push(t@));
                    assert(old_ts.push(t@).drop_last() =~= old_ts);
                    if any {
                        s.append(" ");
                        proof {
                            reveal_strlit(" ");
                        }
                    }
                    s.append(t.as_str());
                    any = true;
                    assert(s@ == join_spaced(texts_of(pre)));
                },
                _ => {
                    assert(texts_of(pre) == texts_of(cv.subrange(0, i as int)));
                },
            }
            i = i + 1;
        }
        assert(cv.subrange(0, i as int) =~= cv);
        s
    }

    /// The placeholder of an input: its `placeholder` string property, or
    /// empty.
    pub fn input_placeholder(props: &Vec<(String, UiValue)>) -> (s: String)
        ensures
            s@ == match string_prop(pairs_view(props@), "placeholder"@) {
                Some(p) => p,
                None => Seq::empty(),
            },
    {
        match Self::string_property(props, "placeholder") {
            Some(p) => String::from_str(p),
            None => String::new(),
        }
    }

    /// The content of a text: its `content` string property, else its
    /// first text child, else empty.
    pub fn text_content(component: &UiComponent, props: &Vec<(String, UiValue)>) -> (s: String)
        ensures
            s@ == match string_prop(pairs_view(props@), "content"@) {
                Some(c) => c,
                None => match first_text(component@.children) {
                    Some(t) => t,
                    None => Seq::empty(),
                },
            },
    {
        match Self::string_property(props, "content") {
            Some(c) => {
                return String::from_str(c);
            },
            None => {},
        }
        let ghost cv = children_view(component.children@);
        proof {
            lemma_children_view_len(component.children@);
        }
        let mut i: usize = 0;
        assert(cv.subrange(0, cv.len() as int) =~= cv);
        while i < component.children.len()
            invariant
                i <= component.children@.len(),
                cv == children_view(component.children@),
                cv.len() == component.children@.len(),
                first_text(cv.subrange(i as int, cv.len() as int)) == first_text(cv),
                string_prop(pairs_view(props@), "content"@) is None,
            decreases component.children@.len() - i,
        {
            let ghost rest = cv.subrange(i as int, cv.len() as int);
            proof {
                lemma_children_view_index(component.children@, i as int);
                assert(rest[0] == cv[i as int]);
                assert(rest.drop_first() =~= cv.subrange(i + 1, cv.len() as int));
            }
            match &component.children[i] {
                UiChild::Text(t) => {
                    return t.clone();
                },
                _ => {},
            }
            i = i + 1;
        }
        String::new()
    }

    /// Whether a flex lays its children out in a column: its `direction`
    /// string property is "column" (a row otherwise).
    pub fn flex_is_column(props: &Vec<(String, UiValue)>) -> (r: bool)
        ensures
            r == (string_prop(pairs_view(props@), "direction"@) == Some("column"@)),
    {
        match Self::string_property(props, "direction") {
            Some(d) => str_eq(d, "column"),
            None => false,
        }
    }

    /// The note shown for a component of unknown type.
    pub fn unknown_label(component: &UiComponent) -> (s: String)
        ensures
            s@ == "Unknown component: "@ + component@.component_type,
    {
        join_message("Unknown component: ", component.component_type.as_str())
    }
}

} // verus!
