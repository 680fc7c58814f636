//! Inline styles: `prop: value; ...` read into properties, and which
//! attribute or style property the element renderers take colors and font
//! weights from.
use vstd::prelude::*;
use crate::ast::{Element, attr_lookup, attr_text};
use crate::text::{chars_of, find, find_from, lemma_find_from, trim, trim_chars, string_of, str_eq};

verus! {

/// `str::to_lowercase` of a text (Unicode lowercase mapping).
pub uninterp spec fn lowercase_of(s: Seq<char>) -> Seq<char>;

/// `str::to_lowercase`.
#[verifier::external_body]
fn to_lowercase(s: &str) -> (r: String)
    ensures
        r@ == lowercase_of(s@),
{
    s.to_lowercase()
}

/// Style properties: names and values, a name at most once.
pub type PropsView = Seq<(Seq<char>, Seq<char>)>;

/// The index of the property named `key` at or after `i`.
pub open spec fn prop_index_from(p: PropsView, key: Seq<char>, i: int) -> Option<int>
    decreases p.len() - i,
{
    if i < 0 || i >= p.len() {
        None
    } else if p[i].0 == key {
        Some(i)
    } else {
        prop_index_from(p, key, i + 1)
    }
}

/// The value of the property named `key`.
pub open spec fn prop_lookup(p: PropsView, key: Seq<char>) -> Option<Seq<char>> {
    match prop_index_from(p, key, 0) {
        Some(i) => Some(p[i].1),
        None => None,
    }
}

/// `p` with `key` set to `v`.
pub open spec fn prop_insert(p: PropsView, key: Seq<char>, v: Seq<char>) -> PropsView {
    match prop_index_from(p, key, 0) {
        Some(i) => p.update(i, (key, v)),
        None => p.push((key, v)),
    }
}

/// One trimmed part of an inline style: `name: value` sets the lowercased,
/// trimmed name to the trimmed value; a part without ':' sets nothing.
pub open spec fn style_part(acc: PropsView, t: Seq<char>) -> PropsView {
    if t.len() == 0 {
        acc
    } else {
        match find_from(t, 0, seq![':']) {
            Some(k) => prop_insert(
                acc,
                lowercase_of(trim(t.subrange(0, k))),
                trim(t.subrange(k + 1, t.len() as int)),
            ),
            None => acc,
        }
    }
}

/// The parts of `s` from `start` on, separated by ';', set into `acc` in
/// order.
pub open spec fn style_from(s: Seq<char>, start: int, acc: PropsView) -> PropsView
    decreases s.len() - start,
{
    if start < 0 || start > s.len() {
        acc
    } else {
        let end = match find_from(s, start, seq![';']) {
            Some(k) => k,
            None => s.len() as int,
        };
        let acc2 = style_part(acc, trim(s.subrange(start, end)));
        if start <= end < s.len() {
            style_from(s, end + 1, acc2)
        } else {
            acc2
        }
    }
}

/// Lightweight style model parsed from an inline `style` attribute.
pub struct Style {
    pub props: Vec<(String, String)>,
}

impl View for Style {
    type V = PropsView;

    open spec fn view(&self) -> PropsView {
        self.props@.map_values(|p: (String, String)| (p.0@, p.1@))
    }
}

/// The font weights an element can ask for.
#[derive(Debug, Clone, Copy, PartialEq, Eq, Structural)]
pub enum FontWeightKind {
    Bold,
    Normal,
}

/// The weight a weight text names.
pub open spec fn weight_of(w: Seq<char>) -> Option<FontWeightKind> {
    if w == "bold"@ {
        Some(FontWeightKind::Bold)
    } else if w == "normal"@ {
        Some(FontWeightKind::Normal)
    } else {
        None
    }
}

/// The style of an element: its `style` attribute read as inline style.
pub open spec fn style_of(attrs: crate::ast::AttrsView) -> Option<PropsView> {
    match attr_lookup(attrs, "style"@) {
        Some(v) => Some(style_from(attr_text(v), 0, Seq::empty())),
        None => None,
    }
}

/// Where a property comes from: the attribute `attr` if the element has
/// it, else the first of the style properties `keys` that its style has.
pub open spec fn source_text(attrs: crate::ast::AttrsView, attr: Seq<char>, keys: Seq<Seq<char>>) -> Option<
    Seq<char>,
> {
    match attr_lookup(attrs, attr) {
        Some(v) => Some(attr_text(v)),
        None => match style_of(attrs) {
            Some(p) => first_prop(p, keys),
            None => None,
        },
    }
}

/// The value of the first of `keys` that `p` has.
pub open spec fn first_prop(p: PropsView, keys: Seq<Seq<char>>) -> Option<Seq<char>>
    decreases keys.len(),
{
    if keys.len() == 0 {
        None
    } else {
        match prop_lookup(p, keys[0]) {
            Some(v) => Some(v),
            None => first_prop(p, keys.drop_first()),
        }
    }
}

impl Style {
    fn index_of(&self, key: &str) -> (r: Option<usize>)
        ensures
            r matches Some(i) ==> prop_index_from(self@, key@, 0) == Some(i as int) && i
                < self.props@.len(),
            r is None ==> prop_index_from(self@, key@, 0) is None,
    {
        let mut i: usize = 0;
        while i < self.props.len()
            invariant
                i <= self.props@.len(),
                prop_index_from(self@, key@, 0) == prop_index_from(self@, key@, i as int),
            decreases self.props@.len() - i,
        {
            if str_eq(self.props[i].0.as_str(), key) {
                return Some(i);
            }
            i = i + 1;
        }
        None
    }

    /// Sets the property named `key` (a name as `from_inline` keeps it,
    /// lowercased and trimmed) to `value`: the entry of that name is
    /// updated in place, or a new entry is added last.
    pub fn insert(&mut self, key: String, value: String)
        ensures
            final(self)@ == prop_insert(old(self)@, key@, value@),
    {
        let ghost k = key@;
        let ghost v = value@;
        match self.index_of(key.as_str()) {
            Some(i) => {
                self.props.set(i, (key, value));
                assert(self@ =~= old(self)@.update(i as int, (k, v)));
            },
            None => {
                self.props.push((key, value));
                assert(self@ =~= old(self)@.push((k, v)));
            },
        }
    }

    /// Reads an inline style: parts separated by ';', each `name: value`,
    /// names lowercased, names and values trimmed; a later part with the
    /// same name wins.
    pub fn from_inline(s: &str) -> (r: Self)
        ensures
            r@ == style_from(s@, 0, Seq::empty()),
    {
        let cs = chars_of(s);
        let mut style = Style { props: Vec::new() };
        assert(style@ =~= Seq::<(Seq<char>, Seq<char>)>::empty());
        let semi = [';'];
        let colon = [':'];
        assert(semi@ =~= seq![';']);
        assert(colon@ =~= seq![':']);
        let mut start: usize = 0;
        loop
            invariant
                cs@ == s@,
                start <= cs@.len(),
                semi@ == seq![';'],
                colon@ == seq![':'],
                style_from(s@, start as int, style@) == style_from(s@, 0, Seq::empty()),
            decreases cs@.len() - start,
        {
            let end = match find(cs.as_slice(), start, &semi) {
                Some(k) => k,
                None => cs.len(),
            };
            proof {
                lemma_find_from(cs@, start as int, semi@);
            }
            let mut part: Vec<char> = Vec::new();
            let mut k = start;
            while k < end
                invariant
                    start <= k <= end <= cs@.len(),
                    part@ == cs@.subrange(start as int, k as int),
                decreases end - k,
            {
                part.push(cs[k]);
                k = k + 1;
                assert(part@ =~= cs@.subrange(start as int, k as int));
            }
            let t = trim_chars(part.as_slice());
            if t.len() > 0 {
                match find(t.as_slice(), 0, &colon) {
                    Some(c) => {
                        proof {
                            lemma_find_from(t@, 0, colon@);
                        }
                        let mut name: Vec<char> = Vec::new();
                        let mut j: usize = 0;
                        while j < c
                            invariant
                                j <= c < t@.len(),
                                name@ == t@.subrange(0, j as int),
                            decreases c - j,
                        {
                            name.push(t[j]);
                            j = j + 1;
                            assert(name@ =~= t@.subrange(0, j as int));
                        }
                        let mut value: Vec<char> = Vec::new();
                        let mut j2: usize = c + 1;
                        while j2 < t.len()
                            invariant
                                c + 1 <= j2 <= t@.len(),
                                value@ == t@.subrange(c + 1, j2 as int),
                            decreases t@.len() - j2,
                        {
                            value.push(t[j2]);
                            j2 = j2 + 1;
                            assert(value@ =~= t@.subrange(c + 1, j2 as int));
                        }
                        let n = trim_chars(name.as_slice());
                        let nstr = string_of(n.as_slice());
                        let key = to_lowercase(nstr.as_str());
                        let v = trim_chars(value.as_slice());
                        style.insert(key, string_of(v.as_slice()));
                    },
                    None => {},
                }
            }
            if end >= cs.len() {
                return style;
            }
            start = end + 1;
        }
    }

    /// The value of the property named `key`.
    pub fn get(&self, key: &str) -> (r: Option<&String>)
        ensures
            r matches Some(v) ==> prop_lookup(self@, key@) == Some(v@),
            r is None ==> prop_lookup(self@, key@) is None,
    {
        match self.index_of(key) {
            Some(i) => Some(&self.props[i].1),
            None => None,
        }
    }

    /// The text a property is read from: the attribute `attr` if the
    /// element has it, else the first of the style properties `keys` that
    /// the element's style has.
    pub fn property_text(element: &Element, attr: &str, keys: &Vec<&str>) -> (r: Option<String>)
        ensures
            r matches Some(t) ==> source_text(element@.attributes, attr@, keys@.map_values(|k: &str| k@)) == Some(t@),
            r is None ==> source_text(element@.attributes, attr@, keys@.map_values(|k: &str| k@)) is None,
    {
        proof {
            reveal_strlit("style");
        }
        match element.get_attribute(attr) {
            Some(v) => {
                return Some(v.as_string());
            },
            None => {},
        }
        let style = match element.get_attribute("style") {
            Some(v) => Style::from_inline(v.as_string().as_str()),
            None => {
                return None;
            },
        };
        assert(style_of(element@.attributes) == Some(style@));
        let ghost ks = keys@.map_values(|k: &str| k@);
        let mut i: usize = 0;
        assert(ks.subrange(0, ks.len() as int) =~= ks);
        while i < keys.len()
            invariant
                i <= keys@.len(),
                ks == keys@.map_values(|k: &str| k@),
                attr_lookup(element@.attributes, attr@) is None,
                style_of(element@.attributes) == Some(style@),
                first_prop(style@, ks.subrange(i as int, ks.len() as int)) == first_prop(style@, ks),
            decreases keys@.len() - i,
        {
            let ghost rest = ks.subrange(i as int, ks.len() as int);
            assert(rest[0] == keys@[i as int]@);
            assert(rest.drop_first() =~= ks.subrange(i + 1, ks.len() as int));
            match style.get(keys[i]) {
                Some(v) => {
                    return Some(v.clone());
                },
                None => {},
            }
            i = i + 1;
        }
        None
    }

    /// The font weight an element asks for: its `weight` attribute, else
    /// its style's `font-weight`; only `bold` and `normal` count.
    pub fn font_weight(element: &Element) -> (r: Option<FontWeightKind>)
        ensures
            r == match source_text(element@.attributes, "weight"@, seq!["font-weight"@]) {
                Some(w) => weight_of(w),
                None => None::<FontWeightKind>,
            },
    {
        let keys: Vec<&str> = vec!["font-weight"];
        assert(keys@.map_values(|k: &str| k@) =~= seq!["font-weight"@]);
        proof {
            reveal_strlit("bold");
            reveal_strlit("normal");
        }
        match Style::property_text(element, "weight", &keys) {
            Some(w) => if str_eq(w.as_str(), "bold") {
                Some(FontWeightKind::Bold)
            } else if str_eq(w.as_str(), "normal") {
                Some(FontWeightKind::Normal)
            } else {
                None
            },
            None => None,
        }
    }
}

} // verus!
