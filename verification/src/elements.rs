//! What the element renderers read from attributes: colors by name or as
//! hexadecimal RGB(A).
use vstd::prelude::*;
use crate::ast::{AttrView, Element, attr_lookup, attr_text, text_content};
use crate::text::{chars_of, str_eq, starts_with};
use crate::xml::join_message;

verus! {

/// A color: one of the named theme colors, or a packed 0xRRGGBB (`Rgb`) or
/// 0xRRGGBBAA (`Rgba`) value.
#[derive(Debug, Clone, Copy, PartialEq, Eq, Structural)]
pub enum ColorSpec {
    Red,
    Green,
    Blue,
    Yellow,
    Black,
    White,
    Rgb(u32),
    Rgba(u32),
}

/// The value of a hexadecimal digit.
pub open spec fn hex_val(c: char) -> Option<nat> {
    if '0' <= c && c <= '9' {
        Some((c as nat - '0' as nat) as nat)
    } else if 'a' <= c && c <= 'f' {
        Some((c as nat - 'a' as nat + 10) as nat)
    } else if 'A' <= c && c <= 'F' {
        Some((c as nat - 'A' as nat + 10) as nat)
    } else {
        None
    }
}

/// `u8::from_str_radix` of a two-character text in base 16: two hex
/// digits, or '+' and one.
pub open spec fn hex_pair(a: char, b: char) -> Option<nat> {
    match hex_val(b) {
        None => None,
        Some(lo) => if a == '+' {
            Some(lo)
        } else {
            match hex_val(a) {
                Some(hi) => Some(hi * 16 + lo),
                None => None,
            }
        },
    }
}

/// The number of bytes of `c` in UTF-8.
pub open spec fn utf8_width(c: char) -> nat {
    if (c as u32) < 0x80 {
        1
    } else if (c as u32) < 0x800 {
        2
    } else if (c as u32) < 0x10000 {
        3
    } else {
        4
    }
}

/// The number of bytes of `s` in UTF-8.
pub open spec fn utf8_size(s: Seq<char>) -> nat
    decreases s.len(),
{
    if s.len() == 0 {
        0
    } else {
        utf8_size(s.drop_last()) + utf8_width(s.last())
    }
}

/// Whether byte offset `b` of `s` falls between two characters.
pub open spec fn at_boundary(s: Seq<char>, b: nat) -> bool {
    exists|k: int| 0 <= k <= s.len() && #[trigger] utf8_size(s.subrange(0, k)) == b
}

pub open spec fn is_named_color(s: Seq<char>) -> bool {
    s == "red"@ || s == "green"@ || s == "blue"@ || s == "yellow"@ || s == "black"@ || s
        == "white"@ || s == "gray"@ || s == "grey"@ || s == "transparent"@
}

/// Whether reading a `#` color would cut a character in two: its digits,
/// six or eight bytes long, are taken two bytes at a time.
pub open spec fn color_cuts_char(s: Seq<char>) -> bool {
    let hex = s.drop_first();
    &&& !is_named_color(s)
    &&& starts_with(s, seq!['#'])
    &&& ((utf8_size(hex) == 6 && !(at_boundary(hex, 2) && at_boundary(hex, 4))) || (utf8_size(hex)
        == 8 && !(at_boundary(hex, 2) && at_boundary(hex, 4) && at_boundary(hex, 6))))
}

pub open spec fn all_ascii(s: Seq<char>) -> bool {
    forall|i: int| 0 <= i < s.len() ==> (s[i] as u32) < 0x80
}

/// The color a text names: a name, or `#RRGGBB` (full alpha) or
/// `#RRGGBBAA`.
pub open spec fn color_of(s: Seq<char>) -> Option<ColorSpec> {
    if s == "red"@ {
        Some(ColorSpec::Red)
    } else if s == "green"@ {
        Some(ColorSpec::Green)
    } else if s == "blue"@ {
        Some(ColorSpec::Blue)
    } else if s == "yellow"@ {
        Some(ColorSpec::Yellow)
    } else if s == "black"@ {
        Some(ColorSpec::Black)
    } else if s == "white"@ {
        Some(ColorSpec::White)
    } else if s == "gray"@ || s == "grey"@ {
        Some(ColorSpec::Rgb(0x808080))
    } else if s == "transparent"@ {
        Some(ColorSpec::Rgba(0))
    } else if starts_with(s, seq!['#']) && all_ascii(s.drop_first()) {
        let h = s.drop_first();
        if h.len() == 6 {
            match (hex_pair(h[0], h[1]), hex_pair(h[2], h[3]), hex_pair(h[4], h[5])) {
                (Some(r), Some(g), Some(b)) => Some(
                    ColorSpec::Rgba((r * 0x1000000 + g * 0x10000 + b * 0x100 + 0xff) as u32),
                ),
                _ => None,
            }
        } else if h.len() == 8 {
            match (
                hex_pair(h[0], h[1]),
                hex_pair(h[2], h[3]),
                hex_pair(h[4], h[5]),
                hex_pair(h[6], h[7]),
            ) {
                (Some(r), Some(g), Some(b), Some(a)) => Some(
                    ColorSpec::Rgba((r * 0x1000000 + g * 0x10000 + b * 0x100 + a) as u32),
                ),
                _ => None,
            }
        } else {
            None
        }
    } else {
        None
    }
}

fn hex_digit(c: char) -> (r: Option<u32>)
    ensures
        match hex_val(c) {
            Some(v) => r == Some(v as u32),
            None => r is None,
        },
{
    if '0' <= c && c <= '9' {
        Some((c as u32) - ('0' as u32))
    } else if 'a' <= c && c <= 'f' {
        Some((c as u32) - ('a' as u32) + 10)
    } else if 'A' <= c && c <= 'F' {
        Some((c as u32) - ('A' as u32) + 10)
    } else {
        None
    }
}

fn hex_byte(a: char, b: char) -> (r: Option<u32>)
    ensures
        match hex_pair(a, b) {
            Some(v) => r == Some(v as u32) && v < 256,
            None => r is None,
        },
{
    let lo = hex_digit(b)?;
    if a == '+' {
        Some(lo)
    } else {
        let hi = hex_digit(a)?;
        Some(hi * 16 + lo)
    }
}

/// The color that `color_str` names, as the renderers read it.
pub fn parse_color(color_str: &str) -> (r: Option<ColorSpec>)
    requires
        !color_cuts_char(color_str@),
    ensures
        r == color_of(color_str@),
{
    proof {
        reveal_strlit("red");
        reveal_strlit("green");
        reveal_strlit("blue");
        reveal_strlit("yellow");
        reveal_strlit("black");
        reveal_strlit("white");
        reveal_strlit("gray");
        reveal_strlit("grey");
        reveal_strlit("transparent");
    }
    if str_eq(color_str, "red") {
        return Some(ColorSpec::Red);
    } else if str_eq(color_str, "green") {
        return Some(ColorSpec::Green);
    } else if str_eq(color_str, "blue") {
        return Some(ColorSpec::Blue);
    } else if str_eq(color_str, "yellow") {
        return Some(ColorSpec::Yellow);
    } else if str_eq(color_str, "black") {
        return Some(ColorSpec::Black);
    } else if str_eq(color_str, "white") {
        return Some(ColorSpec::White);
    } else if str_eq(color_str, "gray") || str_eq(color_str, "grey") {
        return Some(ColorSpec::Rgb(0x808080));
    } else if str_eq(color_str, "transparent") {
        return Some(ColorSpec::Rgba(0));
    }
    let cs = chars_of(color_str);
    if cs.len() == 0 || cs[0] != '#' {
        proof {
            if starts_with(color_str@, seq!['#']) {
                assert(color_str@.subrange(0, 1)[0] == color_str@[0]);
            }
        }
        return None;
    }
    assert(starts_with(color_str@, seq!['#'])) by {
        assert(color_str@.subrange(0, 1) =~= seq!['#']);
    }
    let ghost h = color_str@.drop_first();
    let mut k: usize = 1;
    while k < cs.len()
        invariant
            1 <= k <= cs@.len(),
            cs@ == color_str@,
            !is_named_color(color_str@),
            h == color_str@.drop_first(),
            forall|i: int| 0 <= i < k - 1 ==> (h[i] as u32) < 0x80,
        decreases cs@.len() - k,
    {
        if (cs[k] as u32) >= 0x80 {
            assert(!all_ascii(h)) by {
                assert(h[k - 1] == cs@[k as int]);
            }
            return None;
        }
        k = k + 1;
    }
    assert(all_ascii(h));
    let n = cs.len() - 1;
    if n == 6 {
        let r = match hex_byte(cs[1], cs[2]) {
            Some(v) => v,
            None => {
                return None;
            },
        };
        let g = match hex_byte(cs[3], cs[4]) {
            Some(v) => v,
            None => {
                return None;
            },
        };
        let b = match hex_byte(cs[5], cs[6]) {
            Some(v) => v,
            None => {
                return None;
            },
        };
        Some(ColorSpec::Rgba(r * 0x1000000 + g * 0x10000 + b * 0x100 + 0xff))
    } else if n == 8 {
        let r = match hex_byte(cs[1], cs[2]) {
            Some(v) => v,
            None => {
                return None;
            },
        };
        let g = match hex_byte(cs[3], cs[4]) {
            Some(v) => v,
            None => {
                return None;
            },
        };
        let b = match hex_byte(cs[5], cs[6]) {
            Some(v) => v,
            None => {
                return None;
            },
        };
        let a = match hex_byte(cs[7], cs[8]) {
            Some(v) => v,
            None => {
                return None;
            },
        };
        Some(ColorSpec::Rgba(r * 0x1000000 + g * 0x10000 + b * 0x100 + a))
    } else {
        None
    }
}

/// The flag an attribute gives: `true`/`false` as a boolean or as text;
/// anything else, or no attribute, is `false`.
pub open spec fn attr_flag(e: crate::ast::ElementView, name: Seq<char>) -> bool {
    match attr_lookup(e.attributes, name) {
        Some(AttrView::Boolean(b)) => b,
        Some(AttrView::Literal(s)) => s == "true"@,
        _ => false,
    }
}

/// The text of the attribute `name`, else the element's text content.
pub open spec fn text_or_content(e: crate::ast::ElementView, name: Seq<char>) -> Seq<char> {
    match attr_lookup(e.attributes, name) {
        Some(v) => attr_text(v),
        None => text_content(e),
    }
}

/// The text of the attribute `name`, else empty.
pub open spec fn text_or_empty(e: crate::ast::ElementView, name: Seq<char>) -> Seq<char> {
    match attr_lookup(e.attributes, name) {
        Some(v) => attr_text(v),
        None => Seq::empty(),
    }
}

/// What element renderers read from attributes.
pub struct ElementProps;

impl ElementProps {
    /// A flag attribute such as `disabled` or `checked`.
    pub fn flag(element: &Element, name: &str) -> (r: bool)
        ensures
            r == attr_flag(element@, name@),
    {
        match element.get_attribute(name) {
            Some(v) => match v.as_bool() {
                Some(b) => b,
                None => false,
            },
            None => false,
        }
    }

    /// A text attribute such as `text` or `label`, falling back to the
    /// element's text content.
    pub fn text_or_content(element: &Element, name: &str) -> (r: String)
        ensures
            r@ == text_or_content(element@, name@),
    {
        match element.get_attribute(name) {
            Some(v) => v.as_string(),
            None => element.get_text_content(),
        }
    }

    /// A text attribute such as `placeholder`, `href` or `value`, empty
    /// when missing.
    pub fn text_or_empty(element: &Element, name: &str) -> (r: String)
        ensures
            r@ == text_or_empty(element@, name@),
    {
        match element.get_attribute(name) {
            Some(v) => v.as_string(),
            None => String::new(),
        }
    }

    /// What an input shows: its placeholder in brackets, or `[Input]`.
    pub fn input_label(element: &Element) -> (r: String)
        ensures
            r@ == if text_or_empty(element@, "placeholder"@).len() > 0 {
                "["@ + text_or_empty(element@, "placeholder"@) + "]"@
            } else {
                "[Input]"@
            },
    {
        let p = Self::text_or_empty(element, "placeholder");
        if p.unicode_len() > 0 {
            let open = join_message("[", p.as_str());
            join_message(open.as_str(), "]")
        } else {
            String::from_str("[Input]")
        }
    }

    /// What a textarea shows: `[Textarea: placeholder]`.
    pub fn textarea_label(element: &Element) -> (r: String)
        ensures
            r@ == "[Textarea: "@ + text_or_empty(element@, "placeholder"@) + "]"@,
    {
        let p = Self::text_or_empty(element, "placeholder");
        let open = join_message("[Textarea: ", p.as_str());
        join_message(open.as_str(), "]")
    }

    /// Whether a flex lays out in a row: its `dir` is `horizontal` or
    /// `row` (a column otherwise, also without `dir`).
    pub fn flex_is_row(element: &Element) -> (r: bool)
        ensures
            r == (attr_lookup(element@.attributes, "dir"@) matches Some(v) && (attr_text(v)
                == "horizontal"@ || attr_text(v) == "row"@)),
    {
        match element.get_attribute("dir") {
            Some(v) => {
                let d = v.as_string();
                str_eq(d.as_str(), "horizontal") || str_eq(d.as_str(), "row")
            },
            None => false,
        }
    }

    /// A quotation's text in double quotes.
    pub fn quoted(text: &str) -> (r: String)
        ensures
            r@ == "\""@ + text@ + "\""@,
    {
        let open = join_message("\"", text);
        join_message(open.as_str(), "\"")
    }
}

} // verus!
