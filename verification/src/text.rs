//! Character classes and string helpers that the parsers and resolvers share.
use vstd::prelude::*;

verus! {

/// Unicode White_Space, the set that `char::is_whitespace` tests for.
pub open spec fn is_ws(c: char) -> bool {
    ||| '\u{9}' <= c <= '\u{d}'
    ||| c == ' '
    ||| c == '\u{85}'
    ||| c == '\u{a0}'
    ||| c == '\u{1680}'
    ||| '\u{2000}' <= c <= '\u{200a}'
    ||| c == '\u{2028}'
    ||| c == '\u{2029}'
    ||| c == '\u{202f}'
    ||| c == '\u{205f}'
    ||| c == '\u{3000}'
}

pub fn is_whitespace(c: char) -> (r: bool)
    ensures
        r == is_ws(c),
{
    ('\u{9}' <= c && c <= '\u{d}') || c == ' ' || c == '\u{85}' || c == '\u{a0}' || c
        == '\u{1680}' || ('\u{2000}' <= c && c <= '\u{200a}') || c == '\u{2028}' || c
        == '\u{2029}' || c == '\u{202f}' || c == '\u{205f}' || c == '\u{3000}'
}

pub open spec fn is_ascii_alpha(c: char) -> bool {
    ('a' <= c <= 'z') || ('A' <= c <= 'Z')
}

pub open spec fn is_ascii_digit(c: char) -> bool {
    '0' <= c <= '9'
}

pub open spec fn is_ascii_alnum(c: char) -> bool {
    is_ascii_alpha(c) || is_ascii_digit(c)
}

pub fn ascii_alpha(c: char) -> (r: bool)
    ensures
        r == is_ascii_alpha(c),
{
    ('a' <= c && c <= 'z') || ('A' <= c && c <= 'Z')
}

pub fn ascii_digit(c: char) -> (r: bool)
    ensures
        r == is_ascii_digit(c),
{
    '0' <= c && c <= '9'
}

pub fn ascii_alnum(c: char) -> (r: bool)
    ensures
        r == is_ascii_alnum(c),
{
    ascii_alpha(c) || ascii_digit(c)
}

/// Whether `char::is_alphanumeric` holds of a character (Unicode Alphabetic
/// or Numeric).
pub uninterp spec fn unicode_alphanumeric(c: char) -> bool;

/// Calls `char::is_alphanumeric`; the result is the named Unicode property
/// of the character.
#[verifier::external_body]
pub(crate) fn is_alphanumeric(c: char) -> (r: bool)
    ensures
        r == unicode_alphanumeric(c),
{
    c.is_alphanumeric()
}

/// Collects characters into a `String` (`FromIterator<&char>` for `String`).
#[verifier::external_body]
pub(crate) fn string_of(cs: &[char]) -> (s: String)
    ensures
        s@ == cs@,
{
    cs.iter().collect()
}

/// The characters of a string slice, in order.
pub fn chars_of(s: &str) -> (v: Vec<char>)
    ensures
        v@ == s@,
{
    let n = s.unicode_len();
    let mut v: Vec<char> = Vec::new();
    let mut k: usize = 0;
    while k < n
        invariant
            n == s@.len(),
            k <= n,
            v@ == s@.subrange(0, k as int),
        decreases n - k,
    {
        v.push(s.get_char(k));
        k = k + 1;
        assert(v@ =~= s@.subrange(0, k as int));
    }
    assert(v@ =~= s@);
    v
}

/// `s[from..to]` as a new string.
pub fn substring(cs: &[char], from: usize, to: usize) -> (s: String)
    requires
        from <= to <= cs@.len(),
    ensures
        s@ == cs@.subrange(from as int, to as int),
{
    let mut v: Vec<char> = Vec::new();
    let mut k = from;
    while k < to
        invariant
            from <= k <= to <= cs@.len(),
            v@ == cs@.subrange(from as int, k as int),
        decreases to - k,
    {
        v.push(cs[k]);
        k = k + 1;
        assert(v@ =~= cs@.subrange(from as int, k as int));
    }
    string_of(v.as_slice())
}

/// Whether `s` holds exactly the characters of `t`.
pub fn seq_eq(s: &[char], t: &[char]) -> (r: bool)
    ensures
        r == (s@ == t@),
{
    if s.len() != t.len() {
        return false;
    }
    let mut k: usize = 0;
    while k < s.len()
        invariant
            s@.len() == t@.len(),
            k <= s@.len(),
            forall|j: int| 0 <= j < k ==> s@[j] == t@[j],
        decreases s@.len() - k,
    {
        if s[k] != t[k] {
            return false;
        }
        k = k + 1;
    }
    assert(s@ =~= t@);
    true
}

/// Whether two strings hold the same characters.
pub fn str_eq(a: &str, b: &str) -> (r: bool)
    ensures
        r == (a@ == b@),
{
    let x = chars_of(a);
    let y = chars_of(b);
    seq_eq(x.as_slice(), y.as_slice())
}

/// Whether `t` occurs in `s` at position `i`.
pub open spec fn occurs_at(s: Seq<char>, i: int, t: Seq<char>) -> bool {
    0 <= i && i + t.len() <= s.len() && s.subrange(i, i + t.len()) == t
}

pub fn matches_at(s: &[char], i: usize, t: &[char]) -> (r: bool)
    ensures
        r == occurs_at(s@, i as int, t@),
{
    if i > s.len() || t.len() > s.len() - i {
        return false;
    }
    let slen = s.len();
    let mut k: usize = 0;
    while k < t.len()
        invariant
            slen == s@.len(),
            i + t@.len() <= s@.len(),
            k <= t@.len(),
            forall|j: int| 0 <= j < k ==> s@[i + j] == t@[j],
        decreases t@.len() - k,
    {
        if s[i + k] != t[k] {
            assert(s@.subrange(i as int, i + t@.len())[k as int] != t@[k as int]);
            return false;
        }
        k = k + 1;
    }
    assert(s@.subrange(i as int, i + t@.len()) =~= t@);
    true
}

/// The first position at or after `from` where `t` occurs, if any.
pub open spec fn find_from(s: Seq<char>, from: int, t: Seq<char>) -> Option<int>
    decreases s.len() + 1 - from,
{
    if from < 0 || from + t.len() > s.len() {
        None
    } else if occurs_at(s, from, t) {
        Some(from)
    } else {
        find_from(s, from + 1, t)
    }
}

pub proof fn lemma_find_from(s: Seq<char>, from: int, t: Seq<char>)
    requires
        0 <= from,
    ensures
        find_from(s, from, t) matches Some(k) ==> from <= k && occurs_at(s, k, t) && forall|
            j: int,
        | from <= j < k ==> !occurs_at(s, j, t),
        find_from(s, from, t) is None ==> forall|j: int| from <= j ==> !occurs_at(s, j, t),
    decreases s.len() + 1 - from,
{
    if from + t.len() <= s.len() && !occurs_at(s, from, t) {
        lemma_find_from(s, from + 1, t);
    }
}

pub fn find(s: &[char], from: usize, t: &[char]) -> (r: Option<usize>)
    requires
        from <= s@.len(),
    ensures
        r matches Some(k) ==> find_from(s@, from as int, t@) == Some(k as int),
        r is None ==> find_from(s@, from as int, t@) is None,
{
    let slen = s.len();
    if t.len() > slen || from > slen - t.len() {
        return None;
    }
    let last = slen - t.len();
    let mut k = from;
    while k <= last
        invariant
            from <= k,
            last + t@.len() == s@.len(),
            find_from(s@, from as int, t@) == find_from(s@, k as int, t@),
        decreases last + 1 - k,
    {
        if matches_at(s, k, t) {
            return Some(k);
        }
        if k == last {
            assert(find_from(s@, k + 1, t@) is None);
            return None;
        }
        k = k + 1;
    }
    None
}

/// The position after the run of whitespace that starts at `i`.
pub open spec fn skip_ws(s: Seq<char>, i: int) -> int
    decreases s.len() - i,
{
    if 0 <= i < s.len() && is_ws(s[i]) {
        skip_ws(s, i + 1)
    } else {
        i
    }
}

/// The position before the run of whitespace that ends at `j` (exclusive).
pub open spec fn skip_ws_back(s: Seq<char>, lo: int, j: int) -> int
    decreases j - lo,
{
    if lo < j && 0 < j <= s.len() && is_ws(s[j - 1]) {
        skip_ws_back(s, lo, j - 1)
    } else {
        j
    }
}

/// `str::trim_start`.
pub open spec fn trim_start(s: Seq<char>) -> Seq<char> {
    s.subrange(skip_ws(s, 0), s.len() as int)
}

/// `str::trim`: leading and trailing whitespace removed.
pub open spec fn trim(s: Seq<char>) -> Seq<char> {
    let a = skip_ws(s, 0);
    s.subrange(a, skip_ws_back(s, a, s.len() as int))
}

pub proof fn lemma_skip_ws(s: Seq<char>, i: int)
    requires
        0 <= i <= s.len(),
    ensures
        i <= skip_ws(s, i) <= s.len(),
        forall|k: int| i <= k < skip_ws(s, i) ==> is_ws(#[trigger] s[k]),
        skip_ws(s, i) < s.len() ==> !is_ws(s[skip_ws(s, i)]),
    decreases s.len() - i,
{
    if i < s.len() && is_ws(s[i]) {
        lemma_skip_ws(s, i + 1);
    }
}

pub proof fn lemma_skip_ws_back(s: Seq<char>, lo: int, j: int)
    requires
        0 <= lo <= j <= s.len(),
    ensures
        lo <= skip_ws_back(s, lo, j) <= j,
    decreases j - lo,
{
    if lo < j && is_ws(s[j - 1]) {
        lemma_skip_ws_back(s, lo, j - 1);
    }
}

pub fn skip_whitespace(s: &[char], i: usize) -> (j: usize)
    requires
        i <= s@.len(),
    ensures
        j == skip_ws(s@, i as int),
        i <= j <= s@.len(),
{
    let mut j = i;
    proof {
        lemma_skip_ws(s@, i as int);
    }
    while j < s.len() && is_whitespace(s[j])
        invariant
            i <= j <= s@.len(),
            skip_ws(s@, j as int) == skip_ws(s@, i as int),
        decreases s@.len() - j,
    {
        j = j + 1;
    }
    j
}

/// The bounds `(a, b)` of `s` with surrounding whitespace removed.
pub fn trim_bounds(s: &[char]) -> (r: (usize, usize))
    ensures
        r.0 == skip_ws(s@, 0),
        r.1 == skip_ws_back(s@, r.0 as int, s@.len() as int),
        r.0 <= r.1 <= s@.len(),
{
    let a = skip_whitespace(s, 0);
    let mut b = s.len();
    proof {
        lemma_skip_ws_back(s@, a as int, b as int);
    }
    while a < b && is_whitespace(s[b - 1])
        invariant
            a <= b <= s@.len(),
            skip_ws_back(s@, a as int, b as int) == skip_ws_back(s@, a as int, s@.len() as int),
        decreases b - a,
    {
        b = b - 1;
    }
    (a, b)
}

/// `str::trim` on a character sequence.
pub fn trim_chars(s: &[char]) -> (t: Vec<char>)
    ensures
        t@ == trim(s@),
{
    let (a, b) = trim_bounds(s);
    let mut v: Vec<char> = Vec::new();
    let mut k = a;
    while k < b
        invariant
            a <= k <= b <= s@.len(),
            v@ == s@.subrange(a as int, k as int),
        decreases b - k,
    {
        v.push(s[k]);
        k = k + 1;
        assert(v@ =~= s@.subrange(a as int, k as int));
    }
    v
}

/// `s.replace(from, to)` for single characters.
pub open spec fn replace_char(s: Seq<char>, from: char, to: char) -> Seq<char> {
    Seq::new(s.len(), |i: int| if s[i] == from { to } else { s[i] })
}

pub fn replace_char_in(s: &[char], from: char, to: char) -> (t: Vec<char>)
    ensures
        t@ == replace_char(s@, from, to),
{
    let mut v: Vec<char> = Vec::new();
    let mut k: usize = 0;
    while k < s.len()
        invariant
            k <= s@.len(),
            v@ == replace_char(s@.subrange(0, k as int), from, to),
        decreases s@.len() - k,
    {
        let c = if s[k] == from {
            to
        } else {
            s[k]
        };
        v.push(c);
        k = k + 1;
        assert(v@ =~= replace_char(s@.subrange(0, k as int), from, to));
    }
    assert(s@.subrange(0, k as int) =~= s@);
    v
}

/// Whether `s` begins with `p`.
pub open spec fn starts_with(s: Seq<char>, p: Seq<char>) -> bool {
    p.len() <= s.len() && s.subrange(0, p.len() as int) == p
}

/// Whether `s` ends with `p`.
pub open spec fn ends_with(s: Seq<char>, p: Seq<char>) -> bool {
    p.len() <= s.len() && s.subrange(s.len() - p.len(), s.len() as int) == p
}

pub fn has_prefix(s: &[char], p: &[char]) -> (r: bool)
    ensures
        r == starts_with(s@, p@),
{
    let r = matches_at(s, 0, p);
    assert(r == starts_with(s@, p@)) by {
        if p@.len() <= s@.len() {
            assert(s@.subrange(0, p@.len() as int) == s@.subrange(0, 0 + p@.len() as int));
        }
    }
    r
}

pub fn has_suffix(s: &[char], p: &[char]) -> (r: bool)
    ensures
        r == ends_with(s@, p@),
{
    if p.len() > s.len() {
        return false;
    }
    let i = s.len() - p.len();
    matches_at(s, i, p)
}

/// `is_float_literal` helpers: a run of ASCII digits from `i`.
pub open spec fn skip_digits(s: Seq<char>, i: int) -> int
    decreases s.len() - i,
{
    if 0 <= i < s.len() && is_ascii_digit(s[i]) {
        skip_digits(s, i + 1)
    } else {
        i
    }
}

/// Lower-cases ASCII letters.
pub open spec fn ascii_lower(c: char) -> char {
    if 'A' <= c <= 'Z' {
        ((c as u32) + 32) as char
    } else {
        c
    }
}

pub open spec fn lower_seq(s: Seq<char>) -> Seq<char> {
    Seq::new(s.len(), |i: int| ascii_lower(s[i]))
}

/// Whether `s` (without a sign) is `inf`, `infinity` or `nan`, in any case.
pub open spec fn is_special_float(s: Seq<char>) -> bool {
    let l = lower_seq(s);
    l == "inf"@ || l == "infinity"@ || l == "nan"@
}

/// Whether `s[i..]` is `Exp?` of the float grammar: nothing, or `e`/`E`,
/// an optional sign and at least one digit, reaching the end.
pub open spec fn is_float_exp(s: Seq<char>, i: int) -> bool {
    ||| i == s.len()
    ||| (i < s.len() && (s[i] == 'e' || s[i] == 'E') && {
        let j = if i + 1 < s.len() && (s[i + 1] == '+' || s[i + 1] == '-') {
            i + 2
        } else {
            i + 1
        };
        j < s.len() && skip_digits(s, j) == s.len()
    })
}

/// Whether `s[i..]` is `Number` of the float grammar:
/// `Digit+ | Digit+ '.' Digit* | Digit* '.' Digit+`, then `Exp?`.
pub open spec fn is_float_number(s: Seq<char>, i: int) -> bool {
    let a = skip_digits(s, i);
    if a < s.len() && s[a] == '.' {
        let b = skip_digits(s, a + 1);
        (a > i || b > a + 1) && is_float_exp(s, b)
    } else {
        a > i && is_float_exp(s, a)
    }
}

/// The grammar that `str::parse::<f64>` accepts:
/// `Sign? ('inf' | 'infinity' | 'nan' | Number)`, case-insensitively.
pub open spec fn is_float_literal(s: Seq<char>) -> bool {
    let i: int = if s.len() > 0 && (s[0] == '+' || s[0] == '-') {
        1
    } else {
        0
    };
    is_special_float(s.subrange(i, s.len() as int)) || is_float_number(s, i)
}

proof fn lemma_skip_digits(s: Seq<char>, i: int)
    requires
        0 <= i <= s.len(),
    ensures
        i <= skip_digits(s, i) <= s.len(),
    decreases s.len() - i,
{
    if i < s.len() && is_ascii_digit(s[i]) {
        lemma_skip_digits(s, i + 1);
    }
}

fn skip_ascii_digits(s: &[char], i: usize) -> (j: usize)
    requires
        i <= s@.len(),
    ensures
        j == skip_digits(s@, i as int),
        i <= j <= s@.len(),
{
    let mut j = i;
    proof {
        lemma_skip_digits(s@, i as int);
    }
    while j < s.len() && ascii_digit(s[j])
        invariant
            i <= j <= s@.len(),
            skip_digits(s@, j as int) == skip_digits(s@, i as int),
        decreases s@.len() - j,
    {
        j = j + 1;
    }
    j
}

fn float_exp(s: &[char], i: usize) -> (r: bool)
    requires
        i <= s@.len(),
    ensures
        r == is_float_exp(s@, i as int),
{
    if i == s.len() {
        return true;
    }
    if s[i] != 'e' && s[i] != 'E' {
        return false;
    }
    let j = if i + 1 < s.len() && (s[i + 1] == '+' || s[i + 1] == '-') {
        i + 2
    } else {
        i + 1
    };
    j < s.len() && skip_ascii_digits(s, j) == s.len()
}

fn lower_ascii(c: char) -> (r: char)
    ensures
        r == ascii_lower(c),
{
    if 'A' <= c && c <= 'Z' {
        ((c as u32) + 32) as u8 as char
    } else {
        c
    }
}

fn special_float(s: &[char], i: usize) -> (r: bool)
    requires
        i <= s@.len(),
    ensures
        r == is_special_float(s@.subrange(i as int, s@.len() as int)),
{
    let mut l: Vec<char> = Vec::new();
    let mut k = i;
    while k < s.len()
        invariant
            i <= k <= s@.len(),
            l@ == lower_seq(s@.subrange(i as int, k as int)),
        decreases s@.len() - k,
    {
        l.push(lower_ascii(s[k]));
        k = k + 1;
        assert(l@ =~= lower_seq(s@.subrange(i as int, k as int)));
    }
    let inf = ['i', 'n', 'f'];
    let infinity = ['i', 'n', 'f', 'i', 'n', 'i', 't', 'y'];
    let nan = ['n', 'a', 'n'];
    proof {
        reveal_strlit("inf");
        reveal_strlit("infinity");
        reveal_strlit("nan");
    }
    let r = seq_eq(l.as_slice(), &inf) || seq_eq(l.as_slice(), &infinity) || seq_eq(
        l.as_slice(),
        &nan,
    );
    assert(inf@ =~= "inf"@);
    assert(infinity@ =~= "infinity"@);
    assert(nan@ =~= "nan"@);
    r
}

/// Whether `str::parse::<f64>` accepts the characters of `s`.
pub fn float_literal(s: &[char]) -> (r: bool)
    ensures
        r == is_float_literal(s@),
{
    let i: usize = if s.len() > 0 && (s[0] == '+' || s[0] == '-') {
        1
    } else {
        0
    };
    if special_float(s, i) {
        return true;
    }
    let a = skip_ascii_digits(s, i);
    if a < s.len() && s[a] == '.' {
        let b = skip_ascii_digits(s, a + 1);
        (a > i || b > a + 1) && float_exp(s, b)
    } else {
        a > i && float_exp(s, a)
    }
}


/// Going back over whitespace stops at `lo` or after a character that is
/// not whitespace.
proof fn lemma_skip_ws_back_stops(s: Seq<char>, lo: int, j: int)
    requires
        0 <= lo <= j <= s.len(),
    ensures
        skip_ws_back(s, lo, j) == lo || !is_ws(s[skip_ws_back(s, lo, j) - 1]),
    decreases j - lo,
{
    if lo < j && is_ws(s[j - 1]) {
        lemma_skip_ws_back_stops(s, lo, j - 1);
    }
}

/// Trimming a trimmed text changes nothing.
pub proof fn lemma_trim_idempotent(s: Seq<char>)
    ensures
        trim(trim(s)) == trim(s),
{
    let a = skip_ws(s, 0);
    lemma_skip_ws(s, 0);
    lemma_skip_ws_back(s, a, s.len() as int);
    lemma_skip_ws_back_stops(s, a, s.len() as int);
    let b = skip_ws_back(s, a, s.len() as int);
    let t = trim(s);
    assert(t == s.subrange(a, b));
    if t.len() == 0 {
        assert(trim(t) =~= t);
    } else {
        assert(t[0] == s[a]);
        assert(!is_ws(t[0]));
        assert(t[t.len() - 1] == s[b - 1]);
        assert(skip_ws(t, 0) == 0);
        assert(skip_ws_back(t, 0, t.len() as int) == t.len());
        assert(trim(t) =~= t);
    }
}


/// The value of a run of decimal digits.
pub open spec fn digits_value(d: Seq<char>) -> int
    decreases d.len(),
{
    if d.len() == 0 {
        0
    } else {
        digits_value(d.drop_last()) * 10 + (d.last() as int - 48)
    }
}

/// Ten to the power `n`.
pub open spec fn pow10(n: nat) -> int
    decreases n,
{
    if n == 0 {
        1
    } else {
        10 * pow10((n - 1) as nat)
    }
}

/// The index of the first digit other than '0' at or after `i`.
pub open spec fn first_nonzero(g: Seq<char>, i: int) -> Option<int>
    decreases g.len() - i,
{
    if i < 0 || i >= g.len() {
        None
    } else if g[i] != '0' {
        Some(i)
    } else {
        first_nonzero(g, i + 1)
    }
}

/// The index of the last digit other than '0' before `j`, or -1.
pub open spec fn last_nonzero(g: Seq<char>, j: int) -> int
    decreases j,
{
    if j <= 0 || j > g.len() {
        -1
    } else if g[j - 1] != '0' {
        j - 1
    } else {
        last_nonzero(g, j - 1)
    }
}

/// `n` zeros.
pub open spec fn zeros(n: int) -> Seq<char> {
    Seq::new(n as nat, |_i: int| '0')
}

/// The decimal text, without exponent, of the digits `core` times ten to
/// the power `p`.
pub open spec fn placed(core: Seq<char>, p: int) -> Seq<char> {
    let m = core.len() as int;
    if p >= 0 {
        core + zeros(p)
    } else if -p < m {
        core.subrange(0, m + p) + seq!['.'] + core.subrange(m + p, m)
    } else {
        seq!['0', '.'] + zeros(-p - m) + core
    }
}

/// The exponent written from `b` on: 0 where there is none, `None` where it
/// has more than six digits.
pub open spec fn exp_written(s: Seq<char>, b: int) -> Option<int> {
    if b >= s.len() {
        Some(0)
    } else {
        let j = if b + 1 < s.len() && (s[b + 1] == '+' || s[b + 1] == '-') {
            b + 2
        } else {
            b + 1
        };
        if s.len() - j > 6 {
            None
        } else {
            let v = digits_value(s.subrange(j, s.len() as int));
            Some(
                if s[b + 1] == '-' {
                    -v
                } else {
                    v
                },
            )
        }
    }
}

/// The text of a number as `f64`'s `Display` writes it, for the numbers
/// that can be written so without rounding: `inf`, `-inf` and `NaN` for the
/// special values and for values of 1e309 and above, `0` or `-0` for zero
/// and for values below 1e-324, and for a numeral of at most 15 significant
/// digits whose value lies between 1e-307 and 1e308, its digits without
/// leading or trailing zeros, placed around the decimal point, with no
/// exponent. Any other text is kept as it is written.
pub open spec fn number_text(s: Seq<char>) -> Seq<char> {
    let neg = s.len() > 0 && s[0] == '-';
    let i0: int = if s.len() > 0 && (s[0] == '+' || s[0] == '-') {
        1
    } else {
        0
    };
    let body = s.subrange(i0, s.len() as int);
    let sign = if neg {
        seq!['-']
    } else {
        Seq::empty()
    };
    if is_special_float(body) {
        if lower_seq(body) == "nan"@ {
            "NaN"@
        } else {
            sign + "inf"@
        }
    } else if !is_float_number(s, i0) || s.len() > 1000 {
        s
    } else {
        numeral_text(s, i0, sign)
    }
}

/// `number_text` of a numeral starting at `i0`, written with `sign`.
pub open spec fn numeral_text(s: Seq<char>, i0: int, sign: Seq<char>) -> Seq<char> {
    let a = skip_digits(s, i0);
    let point = a < s.len() && s[a] == '.';
    let b = if point {
        skip_digits(s, a + 1)
    } else {
        a
    };
    let g = if point {
        s.subrange(i0, a) + s.subrange(a + 1, b)
    } else {
        s.subrange(i0, a)
    };
    let f = if point {
        b - a - 1
    } else {
        0
    };
    match exp_written(s, b) {
        None => s,
        Some(e) => match first_nonzero(g, 0) {
            None => sign + seq!['0'],
            Some(z) => {
                let t = last_nonzero(g, g.len() as int);
                let core = g.subrange(z, t + 1);
                let p = e - f + (g.len() - 1 - t);
                if p + core.len() > 309 {
                    sign + "inf"@
                } else if p + core.len() <= -324 {
                    sign + seq!['0']
                } else if core.len() > 15 || p + core.len() < -306 || p + core.len() > 308 {
                    s
                } else {
                    sign + placed(core, p)
                }
            },
        },
    }
}


fn first_nonzero_at(g: &[char]) -> (r: Option<usize>)
    ensures
        match r {
            Some(z) => first_nonzero(g@, 0) == Some(z as int) && z < g@.len() && g@[z as int] != '0',
            None => first_nonzero(g@, 0) is None,
        },
{
    let mut i: usize = 0;
    while i < g.len()
        invariant
            i <= g@.len(),
            first_nonzero(g@, 0) == first_nonzero(g@, i as int),
        decreases g@.len() - i,
    {
        if g[i] != '0' {
            return Some(i);
        }
        i = i + 1;
    }
    None
}

fn last_nonzero_at(g: &[char], z: usize) -> (t: usize)
    requires
        z < g@.len(),
        g@[z as int] != '0',
    ensures
        t as int == last_nonzero(g@, g@.len() as int),
        z <= t < g@.len(),
{
    let mut j: usize = g.len();
    while g[j - 1] == '0'
        invariant
            z < j <= g@.len(),
            g@[z as int] != '0',
            last_nonzero(g@, g@.len() as int) == last_nonzero(g@, j as int),
        decreases j,
    {
        j = j - 1;
    }
    j - 1
}

proof fn lemma_skip_digits_all(s: Seq<char>, i: int)
    requires
        0 <= i <= s.len(),
        skip_digits(s, i) == s.len(),
    ensures
        forall|k: int| i <= k < s.len() ==> is_ascii_digit(#[trigger] s[k]),
    decreases s.len() - i,
{
    if i < s.len() {
        lemma_skip_digits_all(s, i + 1);
    }
}

fn exponent_at(s: &[char], b: usize) -> (r: Option<i64>)
    requires
        b <= s@.len(),
        is_float_exp(s@, b as int),
    ensures
        match r {
            Some(e) => exp_written(s@, b as int) == Some(e as int) && -1000000 < e < 1000000,
            None => exp_written(s@, b as int) is None,
        },
{
    let n = s.len();
    if b >= n {
        return Some(0);
    }
    let j = if b + 1 < n && (s[b + 1] == '+' || s[b + 1] == '-') {
        b + 2
    } else {
        b + 1
    };
    if n - j > 6 {
        return None;
    }
    proof {
        lemma_skip_digits_all(s@, j as int);
    }
    let mut v: i64 = 0;
    let mut k: usize = j;
    assert(s@.subrange(j as int, j as int) =~= Seq::<char>::empty());
    while k < n
        invariant
            j <= k <= n,
            n == s@.len(),
            n - j <= 6,
            forall|x: int| j <= x < n ==> is_ascii_digit(#[trigger] s@[x]),
            v as int == digits_value(s@.subrange(j as int, k as int)),
            0 <= v < pow10((k - j) as nat),
        decreases n - k,
    {
        assert(pow10((k - j) as nat) <= 100000) by {
            reveal_with_fuel(pow10, 7);
        }
        let d = s[k] as u32 - 48;
        assert(s@.subrange(j as int, k + 1).drop_last() =~= s@.subrange(j as int, k as int));
        v = v * 10 + d as i64;
        k = k + 1;
    }
    assert(pow10((n - j) as nat) <= 1000000) by {
        reveal_with_fuel(pow10, 7);
    }
    if s[b + 1] == '-' {
        Some(-v)
    } else {
        Some(v)
    }
}

fn zeros_into(out: &mut Vec<char>, n: usize)
    ensures
        final(out)@ == old(out)@ + zeros(n as int),
{
    let mut i: usize = 0;
    while i < n
        invariant
            i <= n,
            out@ == old(out)@ + zeros(i as int),
        decreases n - i,
    {
        out.push('0');
        i = i + 1;
        assert(out@ =~= old(out)@ + zeros(i as int));
    }
    assert(out@ =~= old(out)@ + zeros(n as int));
}

fn slice_into(out: &mut Vec<char>, s: &[char], from: usize, to: usize)
    requires
        from <= to <= s@.len(),
    ensures
        final(out)@ == old(out)@ + s@.subrange(from as int, to as int),
{
    let mut i: usize = from;
    while i < to
        invariant
            from <= i <= to,
            to <= s@.len(),
            out@ == old(out)@ + s@.subrange(from as int, i as int),
        decreases to - i,
    {
        out.push(s[i]);
        i = i + 1;
        assert(out@ =~= old(out)@ + s@.subrange(from as int, i as int));
    }
}

fn placed_into(out: &mut Vec<char>, core: &[char], p: i64)
    requires
        -330 <= p,
        p + core@.len() <= 308,
    ensures
        final(out)@ == old(out)@ + placed(core@, p as int),
{
    let m = core.len();
    if p >= 0 {
        slice_into(out, core, 0, m);
        assert(core@.subrange(0, m as int) =~= core@);
        zeros_into(out, p as usize);
        assert(out@ =~= old(out)@ + placed(core@, p as int));
    } else if ((-p) as usize) < m {
        let cut = m - (-p) as usize;
        slice_into(out, core, 0, cut);
        out.push('.');
        slice_into(out, core, cut, m);
        assert(out@ =~= old(out)@ + placed(core@, p as int));
    } else {
        out.push('0');
        out.push('.');
        zeros_into(out, (-p) as usize - m);
        slice_into(out, core, 0, m);
        assert(core@.subrange(0, m as int) =~= core@);
        assert(out@ =~= old(out)@ + placed(core@, p as int));
    }
}

/// The text of a number as `f64`'s `Display` writes it, where that can be
/// stated without rounding (see `number_text`); any other text as written.
pub fn number_text_of(s: &[char]) -> (r: Vec<char>)
    ensures
        r@ == number_text(s@),
{
    let n = s.len();
    let neg = n > 0 && s[0] == '-';
    let i0: usize = if n > 0 && (s[0] == '+' || s[0] == '-') {
        1
    } else {
        0
    };
    let mut sign: Vec<char> = Vec::new();
    if neg {
        sign.push('-');
    }
    assert(sign@ == if neg { seq!['-'] } else { Seq::<char>::empty() });
    proof {
        reveal_strlit("nan");
        reveal_strlit("NaN");
        reveal_strlit("inf");
    }
    if special_float(s, i0) {
        let is_nan = n - i0 == 3 && lower_ascii(s[i0]) == 'n' && lower_ascii(s[i0 + 1]) == 'a'
            && lower_ascii(s[i0 + 2]) == 'n';
        let ghost body = s@.subrange(i0 as int, n as int);
        assert(is_nan == (lower_seq(body) == "nan"@)) by {
            if lower_seq(body) == "nan"@ {
                assert(lower_seq(body).len() == 3);
                assert(lower_seq(body)[0] == 'n');
                assert(lower_seq(body)[1] == 'a');
                assert(lower_seq(body)[2] == 'n');
            }
            if is_nan {
                assert(lower_seq(body) =~= "nan"@);
            }
        }
        if is_nan {
            let r = vec!['N', 'a', 'N'];
            assert(r@ =~= "NaN"@);
            return r;
        }
        let mut r = sign;
        r.push('i');
        r.push('n');
        r.push('f');
        assert(r@ =~= (if neg { seq!['-'] } else { Seq::<char>::empty() }) + "inf"@);
        return r;
    }
    if n > 1000 {
        return vstd::slice::slice_to_vec(s);
    }
    if !is_number_at(s, i0) {
        return vstd::slice::slice_to_vec(s);
    }
    numeral_text_of(s, i0, sign)
}

fn is_number_at(s: &[char], i0: usize) -> (r: bool)
    requires
        i0 <= s@.len(),
    ensures
        r == is_float_number(s@, i0 as int),
{
    let n = s.len();
    let a = skip_ascii_digits(s, i0);
    let point = a < n && s[a] == '.';
    if point {
        let b = skip_ascii_digits(s, a + 1);
        (a > i0 || b > a + 1) && float_exp(s, b)
    } else {
        a > i0 && float_exp(s, a)
    }
}

fn numeral_text_of(s: &[char], i0: usize, sign: Vec<char>) -> (r: Vec<char>)
    requires
        i0 <= s@.len() <= 1000,
        is_float_number(s@, i0 as int),
    ensures
        r@ == numeral_text(s@, i0 as int, sign@),
{
    let n = s.len();
    let a = skip_ascii_digits(s, i0);
    let point = a < n && s[a] == '.';
    let b = if point {
        skip_ascii_digits(s, a + 1)
    } else {
        a
    };
    let mut g: Vec<char> = Vec::new();
    slice_into(&mut g, s, i0, a);
    let mut f: usize = 0;
    if point {
        slice_into(&mut g, s, a + 1, b);
        f = b - a - 1;
    }
    assert(g@ == if point { s@.subrange(i0 as int, a as int) + s@.subrange(a + 1, b as int) } else {
        s@.subrange(i0 as int, a as int)
    }) by {
        assert(Seq::<char>::empty() + s@.subrange(i0 as int, a as int) =~= s@.subrange(i0 as int, a as int));
    }
    assert(g@.len() <= n);
    let e = match exponent_at(s, b) {
        Some(e) => e,
        None => {
            return vstd::slice::slice_to_vec(s);
        },
    };
    let z = match first_nonzero_at(g.as_slice()) {
        Some(z) => z,
        None => {
            let mut r = sign;
            r.push('0');
            return r;
        },
    };
    let t = last_nonzero_at(g.as_slice(), z);
    let m = t + 1 - z;
    let p: i64 = e - f as i64 + (g.len() - 1 - t) as i64;
    if p + m as i64 > 309 {
        let mut r = sign;
        r.push('i');
        r.push('n');
        r.push('f');
        proof {
            reveal_strlit("inf");
        }
        assert(r@ =~= sign@ + "inf"@);
        return r;
    }
    if p + m as i64 <= -324 {
        let mut r = sign;
        r.push('0');
        return r;
    }
    if m > 15 || p + (m as i64) < -306 || p + m as i64 > 308 {
        return vstd::slice::slice_to_vec(s);
    }
    let mut core: Vec<char> = Vec::new();
    slice_into(&mut core, g.as_slice(), z, t + 1);
    assert(core@ =~= g@.subrange(z as int, t + 1));
    let mut r = sign;
    placed_into(&mut r, core.as_slice(), p);
    r
}

} // verus!
