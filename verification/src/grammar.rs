//! Character classes and scanning helpers of the GPML grammar.
use vstd::prelude::*;
use crate::text::{
    is_ascii_alnum, is_ascii_alpha, is_ascii_digit, is_ws, ascii_digit, unicode_alphanumeric, ascii_alnum, ascii_alpha,
    is_alphanumeric, is_whitespace,
};

verus! {

/// The character classes that the grammar scans runs of.
#[derive(Clone, Copy)]
pub enum CharClass {
    /// ' ', '\t', '\r', '\n'
    MultiSpace,
    /// ' ', '\t'
    Space,
    /// ASCII letters and digits, '_'
    IdentRest,
    /// ASCII letters and digits, '-', '_'
    NameRest,
    /// anything but ' ' and '\t'
    PathChar,
    /// Unicode letters and digits, '-', '_', '.'
    Unquoted,
    /// anything but '<', '$' and whitespace
    TextChar,
    /// anything but ' ', '\t', '\n', '\r'
    PathLine,
    /// ASCII digits
    Digit,
}

pub open spec fn in_class(k: CharClass, c: char) -> bool {
    match k {
        CharClass::MultiSpace => c == ' ' || c == '\t' || c == '\r' || c == '\n',
        CharClass::Space => c == ' ' || c == '\t',
        CharClass::IdentRest => is_ascii_alnum(c) || c == '_',
        CharClass::NameRest => is_ascii_alnum(c) || c == '-' || c == '_',
        CharClass::PathChar => c != ' ' && c != '\t',
        CharClass::Unquoted => unicode_alphanumeric(c) || c == '-' || c == '_' || c == '.',
        CharClass::TextChar => c != '<' && c != '$' && !is_ws(c),
        CharClass::PathLine => c != ' ' && c != '\t' && c != '\n' && c != '\r',
        CharClass::Digit => is_ascii_digit(c),
    }
}

pub fn class_has(k: CharClass, c: char) -> (r: bool)
    ensures
        r == in_class(k, c),
{
    match k {
        CharClass::MultiSpace => c == ' ' || c == '\t' || c == '\r' || c == '\n',
        CharClass::Space => c == ' ' || c == '\t',
        CharClass::IdentRest => ascii_alnum(c) || c == '_',
        CharClass::NameRest => ascii_alnum(c) || c == '-' || c == '_',
        CharClass::PathChar => c != ' ' && c != '\t',
        CharClass::Unquoted => is_alphanumeric(c) || c == '-' || c == '_' || c == '.',
        CharClass::TextChar => c != '<' && c != '$' && !is_whitespace(c),
        CharClass::PathLine => c != ' ' && c != '\t' && c != '\n' && c != '\r',
        CharClass::Digit => ascii_digit(c),
    }
}

/// The end of the run of class `k` that starts at `i`.
pub open spec fn span(s: Seq<char>, i: int, k: CharClass) -> int
    decreases s.len() - i,
{
    if 0 <= i < s.len() && in_class(k, s[i]) {
        span(s, i + 1, k)
    } else {
        i
    }
}

pub proof fn lemma_span(s: Seq<char>, i: int, k: CharClass)
    requires
        0 <= i <= s.len(),
    ensures
        i <= span(s, i, k) <= s.len(),
        forall|j: int| i <= j < span(s, i, k) ==> in_class(k, #[trigger] s[j]),
        span(s, i, k) < s.len() ==> !in_class(k, s[span(s, i, k)]),
    decreases s.len() - i,
{
    if i < s.len() && in_class(k, s[i]) {
        lemma_span(s, i + 1, k);
    }
}

pub fn span_of(s: &[char], i: usize, k: CharClass) -> (j: usize)
    requires
        i <= s@.len(),
    ensures
        j == span(s@, i as int, k),
        i <= j <= s@.len(),
{
    proof {
        lemma_span(s@, i as int, k);
    }
    let mut j = i;
    while j < s.len() && class_has(k, s[j])
        invariant
            i <= j <= s@.len(),
            span(s@, j as int, k) == span(s@, i as int, k),
        decreases s@.len() - j,
    {
        j = j + 1;
    }
    j
}

/// Whether `s[i]` is the character `c`.
pub open spec fn char_at(s: Seq<char>, i: int, c: char) -> bool {
    0 <= i < s.len() && s[i] == c
}

pub fn is_char_at(s: &[char], i: usize, c: char) -> (r: bool)
    ensures
        r == char_at(s@, i as int, c),
{
    i < s.len() && s[i] == c
}

/// An identifier: an ASCII letter, then ASCII letters, digits and '_'.
/// Gives the position after it.
pub open spec fn ident_end(s: Seq<char>, i: int) -> Option<int> {
    if 0 <= i < s.len() && is_ascii_alpha(s[i]) {
        Some(span(s, i + 1, CharClass::IdentRest))
    } else {
        None
    }
}

/// A tag or attribute name: an ASCII letter or '_', then ASCII letters,
/// digits, '-' and '_'. Gives the position after it.
pub open spec fn name_end(s: Seq<char>, i: int) -> Option<int> {
    if 0 <= i < s.len() && (is_ascii_alpha(s[i]) || s[i] == '_') {
        Some(span(s, i + 1, CharClass::NameRest))
    } else {
        None
    }
}

pub fn ident_end_at(s: &[char], i: usize) -> (r: Option<usize>)
    requires
        i <= s@.len(),
    ensures
        r matches Some(j) ==> ident_end(s@, i as int) == Some(j as int) && i < j <= s@.len(),
        r is None ==> ident_end(s@, i as int) is None,
{
    if i < s.len() && ascii_alpha(s[i]) {
        Some(span_of(s, i + 1, CharClass::IdentRest))
    } else {
        None
    }
}

pub fn name_end_at(s: &[char], i: usize) -> (r: Option<usize>)
    requires
        i <= s@.len(),
    ensures
        r matches Some(j) ==> name_end(s@, i as int) == Some(j as int) && i < j <= s@.len(),
        r is None ==> name_end(s@, i as int) is None,
{
    if i < s.len() && (ascii_alpha(s[i]) || s[i] == '_') {
        Some(span_of(s, i + 1, CharClass::NameRest))
    } else {
        None
    }
}

} // verus!
