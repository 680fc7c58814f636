//! Searching a text for a query: the byte ranges of the matches, and a
//! current match that moves forward and backward through them, wrapping
//! around at either end.
use vstd::prelude::*;
use std::ops::Range;
use crate::text::str_eq;
use vstd::utf8::*;
use vstd::string::StringSliceAdditionalSpecFns;

verus! {

/// Whether an `aho_corasick` searcher can be built for the one pattern
/// `pattern`, ASCII letters compared without case when `ci` holds.
pub uninterp spec fn ac_builds(pattern: Seq<char>, ci: bool) -> bool;

/// An ASCII upper-case letter made lower case; any other byte as it is.
pub open spec fn fold_byte(b: u8) -> u8 {
    if 65 <= b <= 90 {
        (b + 32) as u8
    } else {
        b
    }
}

/// Two bytes are the same, ASCII letters without case when `ci` holds.
pub open spec fn byte_same(a: u8, b: u8, ci: bool) -> bool {
    if ci {
        fold_byte(a) == fold_byte(b)
    } else {
        a == b
    }
}

/// The pattern's bytes stand at `i` of the text's.
pub open spec fn pattern_at(t: Seq<u8>, i: int, p: Seq<u8>, ci: bool) -> bool {
    &&& 0 <= i
    &&& i + p.len() <= t.len()
    &&& forall|k: int| #![trigger p[k]] 0 <= k < p.len() ==> byte_same(t[i + k], p[k], ci)
}

/// The leftmost non-overlapping occurrences of the pattern at or after `i`,
/// as byte ranges: the first one, then those after its end.
pub open spec fn matches_from(t: Seq<u8>, p: Seq<u8>, ci: bool, i: int) -> Seq<(usize, usize)>
    decreases t.len() - i,
{
    if p.len() == 0 || i < 0 || i + p.len() > t.len() {
        Seq::empty()
    } else if pattern_at(t, i, p, ci) {
        seq![(i as usize, (i + p.len()) as usize)] + matches_from(t, p, ci, i + p.len())
    } else {
        matches_from(t, p, ci, i + 1)
    }
}

/// Ranges as pairs of bounds.
pub open spec fn ranges_view(v: Seq<Range<usize>>) -> Seq<(usize, usize)> {
    v.map_values(|r: Range<usize>| (r.start, r.end))
}

/// Builds an `AhoCorasick` searcher for the non-empty `pattern` (with
/// `ascii_case_insensitive(ci)`, standard match kind) and collects its
/// non-overlapping matches in the bytes of `text` (`find_iter`): for one
/// pattern, the leftmost occurrence and then the next after its end.
/// `None` when the searcher cannot be built.
#[verifier::external_body]
fn find_matches(pattern: &str, ci: bool, text: &str) -> (r: Option<Vec<Range<usize>>>)
    requires
        pattern@.len() > 0,
    ensures
        r is Some == ac_builds(pattern@, ci),
        r matches Some(v) ==> ranges_view(v@) == matches_from(
            vstd::utf8::encode_utf8(text@),
            vstd::utf8::encode_utf8(pattern@),
            ci,
            0,
        ),
{
    match aho_corasick::AhoCorasick::builder().ascii_case_insensitive(ci).build(&[pattern]) {
        Ok(ac) => Some(ac.find_iter(text.as_bytes()).map(|m| m.range()).collect()),
        Err(_) => None,
    }
}

/// The matches of a query in a text, with a current match.
#[derive(Debug, Clone)]
pub struct SearchMatcher {
    pub text: String,
    /// The query and whether ASCII letters are compared without case.
    pub query: Option<(String, bool)>,
    pub matched_ranges: Vec<Range<usize>>,
    pub current_match_ix: usize,
    /// In replacing mode an update keeps the current match index.
    pub replacing: bool,
}

/// The ranges found for a query in a text: none without a query, for an
/// empty one, or when no searcher can be built for it.
pub open spec fn ranges_for(query: Option<(Seq<char>, bool)>, text: Seq<char>) -> Seq<(usize, usize)> {
    match query {
        Some((q, ci)) => if q.len() > 0 && ac_builds(q, ci) {
            matches_from(vstd::utf8::encode_utf8(text), vstd::utf8::encode_utf8(q), ci, 0)
        } else {
            Seq::empty()
        },
        None => Seq::empty(),
    }
}

/// The index after `i` among `n` matches, wrapping to the first.
pub open spec fn next_ix(i: int, n: int) -> int {
    if i < n - 1 {
        i + 1
    } else {
        0
    }
}

/// The index before `i` among `n` matches, wrapping to the last.
pub open spec fn prev_ix(i: int, n: int) -> int {
    if i == 0 {
        n - 1
    } else {
        i - 1
    }
}

impl SearchMatcher {
    /// The query as text and flag.
    pub open spec fn query_view(&self) -> Option<(Seq<char>, bool)> {
        match self.query {
            Some((q, ci)) => Some((q@, ci)),
            None => None,
        }
    }

    /// The ranges of the matches.
    pub open spec fn ranges(&self) -> Seq<(usize, usize)> {
        ranges_view(self.matched_ranges@)
    }

    /// No text, no query, no matches.
    pub fn new() -> (m: Self)
        ensures
            m.text@ == Seq::<char>::empty(),
            m.query is None,
            m.ranges() == Seq::<(usize, usize)>::empty(),
            m.current_match_ix == 0,
            !m.replacing,
    {
        let m = SearchMatcher {
            text: String::new(),
            query: None,
            matched_ranges: Vec::new(),
            current_match_ix: 0,
            replacing: false,
        };
        assert(m.ranges() =~= Seq::<(usize, usize)>::empty());
        m
    }

    /// Sets the text and matches it again, unless it is the same text.
    pub fn update(&mut self, text: &str)
        ensures
            final(self).text@ == text@,
            final(self).query == old(self).query,
            old(self).text@ == text@ ==> *final(self) == *old(self),
            old(self).text@ != text@ ==> final(self).ranges() == ranges_for(old(self).query_view(), text@),
            old(self).text@ != text@ ==> final(self).current_match_ix == if old(self).replacing {
                old(self).current_match_ix
            } else {
                0
            },
            final(self).replacing == old(self).replacing,
    {
        if str_eq(self.text.as_str(), text) {
            return;
        }
        self.text = String::from_str(text);
        self.update_matches();
    }

    /// Finds the matches of the query in the text again; the current index
    /// goes back to the first match unless replacing.
    fn update_matches(&mut self)
        ensures
            final(self).ranges() == ranges_for(old(self).query_view(), old(self).text@),
            final(self).current_match_ix == if old(self).replacing {
                old(self).current_match_ix
            } else {
                0
            },
            final(self).text == old(self).text,
            final(self).query == old(self).query,
            final(self).replacing == old(self).replacing,
    {
        let mut new_ranges: Vec<Range<usize>> = Vec::new();
        match &self.query {
            Some((q, ci)) => {
                if q.as_str().unicode_len() == 0 {
                    assert(ranges_view(new_ranges@) =~= Seq::<(usize, usize)>::empty());
                } else {
                    match find_matches(q.as_str(), *ci, self.text.as_str()) {
                        Some(v) => {
                            new_ranges = v;
                        },
                        None => {
                            assert(ranges_view(new_ranges@) =~= Seq::<(usize, usize)>::empty());
                        },
                    }
                }
            },
            None => {
                assert(ranges_view(new_ranges@) =~= Seq::<(usize, usize)>::empty());
            },
        }
        self.matched_ranges = new_ranges;
        if !self.replacing {
            self.current_match_ix = 0;
            self.replacing = false;
        }
    }

    /// Sets the query (none for an empty one) and matches again.
    pub fn update_query(&mut self, query: &str, case_insensitive: bool)
        ensures
            final(self).query_view() == if query@.len() > 0 {
                Some((query@, case_insensitive))
            } else {
                None::<(Seq<char>, bool)>
            },
            final(self).ranges() == ranges_for(final(self).query_view(), old(self).text@),
            final(self).current_match_ix == if old(self).replacing {
                old(self).current_match_ix
            } else {
                0
            },
            final(self).text == old(self).text,
            final(self).replacing == old(self).replacing,
    {
        if query.unicode_len() > 0 {
            self.query = Some((String::from_str(query), case_insensitive));
        } else {
            self.query = None;
        }
        self.update_matches();
    }

    /// The number of matches.
    pub fn len(&self) -> (n: usize)
        ensures
            n == self.ranges().len(),
    {
        self.matched_ranges.len()
    }

    /// The match after the current one, if there is one.
    pub fn peek(&self) -> (r: Option<Range<usize>>)
        ensures
            match r {
                Some(x) => self.current_match_ix + 1 < self.ranges().len() && (x.start, x.end)
                    == self.ranges()[self.current_match_ix + 1],
                None => self.current_match_ix + 1 >= self.ranges().len(),
            },
    {
        let n = self.matched_ranges.len();
        if n > 0 && self.current_match_ix < n - 1 {
            let r = &self.matched_ranges[self.current_match_ix + 1];
            Some(Range { start: r.start, end: r.end })
        } else {
            None
        }
    }

    /// Moves to the next match, from the last to the first, and gives it;
    /// `None` without matches.
    pub fn next(&mut self) -> (r: Option<Range<usize>>)
        ensures
            old(self).ranges().len() == 0 ==> r is None && *final(self) == *old(self),
            old(self).ranges().len() > 0 ==> final(self).current_match_ix == next_ix(
                old(self).current_match_ix as int,
                old(self).ranges().len() as int,
            ) && (r matches Some(x) && (x.start, x.end)
                == old(self).ranges()[final(self).current_match_ix as int]),
            final(self).matched_ranges@ == old(self).matched_ranges@,
            final(self).text == old(self).text,
            final(self).query == old(self).query,
            final(self).replacing == old(self).replacing,
    {
        let n = self.matched_ranges.len();
        if n == 0 {
            return None;
        }
        if self.current_match_ix < n - 1 {
            self.current_match_ix = self.current_match_ix + 1;
        } else {
            self.current_match_ix = 0;
        }
        let x = &self.matched_ranges[self.current_match_ix];
        Some(Range { start: x.start, end: x.end })
    }

    /// Moves to the previous match, from the first to the last, and gives
    /// it; `None` without matches.
    pub fn next_back(&mut self) -> (r: Option<Range<usize>>)
        requires
            old(self).current_match_ix <= old(self).matched_ranges@.len(),
        ensures
            old(self).ranges().len() == 0 ==> r is None && *final(self) == *old(self),
            old(self).ranges().len() > 0 ==> final(self).current_match_ix == prev_ix(
                old(self).current_match_ix as int,
                old(self).ranges().len() as int,
            ) && (r matches Some(x) && (x.start, x.end)
                == old(self).ranges()[final(self).current_match_ix as int]),
            final(self).matched_ranges@ == old(self).matched_ranges@,
            final(self).text == old(self).text,
            final(self).query == old(self).query,
            final(self).replacing == old(self).replacing,
    {
        let n = self.matched_ranges.len();
        if n == 0 {
            return None;
        }
        if self.current_match_ix == 0 {
            self.current_match_ix = n;
        }
        self.current_match_ix = self.current_match_ix - 1;
        let x = &self.matched_ranges[self.current_match_ix];
        Some(Range { start: x.start, end: x.end })
    }
}

/// Moving forward and then back, or back and then forward, returns to the
/// same match.
pub proof fn law_next_back_undoes_next(i: int, n: int)
    requires
        0 <= i < n,
    ensures
        prev_ix(next_ix(i, n), n) == i,
        next_ix(prev_ix(i, n), n) == i,
        0 <= next_ix(i, n) < n,
        0 <= prev_ix(i, n) < n,
{
}


/// The bytes with those in `[a, b)` giving way to `new`.
pub open spec fn splice(bytes: Seq<u8>, a: int, b: int, new: Seq<u8>) -> Seq<u8> {
    bytes.subrange(0, a) + new + bytes.subrange(b, bytes.len() as int)
}

/// Each range replaced by `new`, from the last range to the first, so that
/// the ranges not yet replaced keep their offsets.
pub open spec fn replaced_from_end(bytes: Seq<u8>, ranges: Seq<(usize, usize)>, new: Seq<u8>) -> Seq<u8>
    decreases ranges.len(),
{
    if ranges.len() == 0 {
        bytes
    } else {
        let last = ranges.last();
        replaced_from_end(splice(bytes, last.0 as int, last.1 as int, new), ranges.drop_last(), new)
    }
}

/// Where the text after the first `i` ranges starts.
pub open spec fn end_before(ranges: Seq<(usize, usize)>, i: int) -> int {
    if i <= 0 {
        0
    } else {
        ranges[i - 1].1 as int
    }
}

/// The text up to the end of the first `i` ranges, each range replaced by
/// `new`.
pub open spec fn done_upto(bytes: Seq<u8>, ranges: Seq<(usize, usize)>, new: Seq<u8>, i: int) -> Seq<u8>
    decreases i,
{
    if i <= 0 {
        Seq::empty()
    } else {
        done_upto(bytes, ranges, new, i - 1) + bytes.subrange(end_before(ranges, i - 1), ranges[i - 1].0 as int) + new
    }
}

/// The stretches of text between the ranges, with `new` in place of each
/// range.
pub open spec fn interleaved(bytes: Seq<u8>, ranges: Seq<(usize, usize)>, new: Seq<u8>) -> Seq<u8> {
    done_upto(bytes, ranges, new, ranges.len() as int) + bytes.subrange(
        end_before(ranges, ranges.len() as int),
        bytes.len() as int,
    )
}

/// Each range is ordered, ends where or before the next one starts, and
/// lies inside the text.
pub open spec fn ranges_ordered(len: int, ranges: Seq<(usize, usize)>) -> bool {
    &&& forall|i: int| 0 <= i < ranges.len() ==> #[trigger] ranges[i].0 <= ranges[i].1 <= len
    &&& forall|i: int, j: int| 0 <= i < j < ranges.len() ==> #[trigger] ranges[i].1 <= #[trigger] ranges[j].0
}

/// The ranges are ordered inside the text and start and end at character
/// boundaries of it.
pub open spec fn ranges_fit(bytes: Seq<u8>, ranges: Seq<(usize, usize)>) -> bool {
    &&& ranges_ordered(bytes.len() as int, ranges)
    &&& forall|i: int| 0 <= i < ranges.len() ==> is_char_boundary(bytes, #[trigger] ranges[i].0 as int)
        && is_char_boundary(bytes, ranges[i].1 as int)
}

/// The text up to a bound decides what the first `k` ranges give.
proof fn lemma_done_upto_prefix(b1: Seq<u8>, b2: Seq<u8>, r1: Seq<(usize, usize)>, r2: Seq<(usize, usize)>, new: Seq<u8>, k: int, bound: int)
    requires
        0 <= k <= r1.len(),
        k <= r2.len(),
        0 <= bound <= b1.len(),
        bound <= b2.len(),
        forall|j: int| 0 <= j < k ==> r1[j] == r2[j],
        forall|j: int| 0 <= j < k ==> #[trigger] r1[j].0 <= r1[j].1 <= bound,
        forall|i: int, j: int| 0 <= i < j < k ==> #[trigger] r1[i].1 <= #[trigger] r1[j].0,
        b1.subrange(0, bound) == b2.subrange(0, bound),
    ensures
        done_upto(b1, r1, new, k) == done_upto(b2, r2, new, k),
    decreases k,
{
    if k > 0 {
        lemma_done_upto_prefix(b1, b2, r1, r2, new, k - 1, bound);
        let lo = end_before(r1, k - 1);
        let hi = r1[k - 1].0 as int;
        assert(end_before(r2, k - 1) == lo);
        if k - 1 > 0 {
            assert(r1[k - 2].1 <= r1[k - 1].0);
        }
        assert(r1[k - 1].0 <= r1[k - 1].1 <= bound);
        assert(0 <= lo <= hi <= bound);
        assert(b1.subrange(lo, hi) =~= b2.subrange(lo, hi)) by {
            assert forall|x: int| 0 <= x < hi - lo implies b1.subrange(lo, hi)[x] == b2.subrange(lo, hi)[x] by {
                assert(b1.subrange(0, bound)[lo + x] == b2.subrange(0, bound)[lo + x]);
                assert(b1.subrange(0, bound)[lo + x] == b1[lo + x]);
                assert(b2.subrange(0, bound)[lo + x] == b2[lo + x]);
                assert(b1.subrange(lo, hi)[x] == b1[lo + x]);
                assert(b2.subrange(lo, hi)[x] == b2[lo + x]);
            }
        }
    }
}

/// Replacing the ranges one by one from the last to the first gives the
/// stretches between them with `new` in place of each range.
pub proof fn law_replace_from_end_interleaves(bytes: Seq<u8>, ranges: Seq<(usize, usize)>, new: Seq<u8>)
    requires
        ranges_ordered(bytes.len() as int, ranges),
    ensures
        replaced_from_end(bytes, ranges, new) == interleaved(bytes, ranges, new),
    decreases ranges.len(),
{
    if ranges.len() == 0 {
        assert(bytes.subrange(0, bytes.len() as int) =~= bytes);
        assert(interleaved(bytes, ranges, new) =~= bytes);
    } else {
        let n = ranges.len() as int;
        let last = ranges.last();
        let a = last.0 as int;
        let b = last.1 as int;
        let front = ranges.drop_last();
        let spliced = splice(bytes, a, b, new);
        assert(ranges[n - 1] == last);
        assert(ranges_ordered(spliced.len() as int, front)) by {
            assert forall|i: int| 0 <= i < front.len() implies #[trigger] front[i].0 <= front[i].1 <= spliced.len() by {
                assert(front[i] == ranges[i]);
                assert(ranges[i].1 <= ranges[n - 1].0);
            }
            assert forall|i: int, j: int| 0 <= i < j < front.len() implies #[trigger] front[i].1 <= #[trigger] front[j].0 by {
                assert(front[i] == ranges[i]);
                assert(front[j] == ranges[j]);
                assert(ranges[i].1 <= ranges[j].0);
            }
        }
        law_replace_from_end_interleaves(spliced, front, new);
        let e = end_before(front, n - 1);
        assert(e == end_before(ranges, n - 1));
        if n - 1 > 0 {
            assert(ranges[n - 2].1 <= ranges[n - 1].0);
        }
        assert(0 <= e <= a);
        assert(spliced.subrange(0, a) =~= bytes.subrange(0, a));
        assert forall|j: int| 0 <= j < n - 1 implies #[trigger] front[j].0 <= front[j].1 <= a by {
            assert(front[j] == ranges[j]);
            assert(ranges[j].1 <= ranges[n - 1].0);
        }
        assert forall|i: int, j: int| 0 <= i < j < n - 1 implies #[trigger] front[i].1 <= #[trigger] front[j].0 by {
            assert(front[i] == ranges[i]);
            assert(front[j] == ranges[j]);
            assert(ranges[i].1 <= ranges[j].0);
        }
        lemma_done_upto_prefix(spliced, bytes, front, ranges, new, n - 1, a);
        assert(spliced.subrange(e, spliced.len() as int) =~= bytes.subrange(e, a) + new + bytes.subrange(b, bytes.len() as int));
        assert(end_before(ranges, n) == b);
        assert(done_upto(bytes, ranges, new, n) == done_upto(bytes, ranges, new, n - 1) + bytes.subrange(e, a) + new);
        assert(interleaved(bytes, ranges, new) =~= interleaved(spliced, front, new));
    }
}

/// The bytes of two texts one after the other are the bytes of the first
/// and then those of the second.
pub proof fn lemma_encode_utf8_concat(a: Seq<char>, b: Seq<char>)
    ensures
        encode_utf8(a + b) == encode_utf8(a) + encode_utf8(b),
    decreases a.len(),
{
    if a.len() == 0 {
        assert(a + b =~= b);
        assert(encode_utf8(a) =~= Seq::<u8>::empty());
        assert(encode_utf8(a) + encode_utf8(b) =~= encode_utf8(b));
    } else {
        lemma_encode_utf8_concat(a.drop_first(), b);
        assert((a + b).drop_first() =~= a.drop_first() + b);
        assert((a + b)[0] == a[0]);
        assert(encode_utf8(a + b) =~= encode_utf8(a) + encode_utf8(b));
    }
}

/// Within a tail that starts at a character boundary, a position is a
/// boundary exactly where it is one in the whole text.
proof fn lemma_boundary_in_tail(bytes: Seq<u8>, off: int, i: int)
    requires
        valid_utf8(bytes),
        0 <= off <= i <= bytes.len(),
        is_char_boundary(bytes, off),
    ensures
        valid_utf8(bytes.subrange(off, bytes.len() as int)),
        is_char_boundary(bytes.subrange(off, bytes.len() as int), i - off) == is_char_boundary(bytes, i),
{
    let tail = bytes.subrange(off, bytes.len() as int);
    valid_utf8_split(bytes, off);
    is_char_boundary_start_end_of_seq(bytes);
    is_char_boundary_start_end_of_seq(tail);
    if i == bytes.len() {
    } else if i == off {
    } else {
        is_char_boundary_iff_not_is_continuation_byte(bytes, i);
        is_char_boundary_iff_not_is_continuation_byte(tail, i - off);
        assert(tail[i - off] == bytes[i]);
    }
}


/// The text with each of the byte ranges giving way to `new_text`, when the
/// ranges are ordered inside the text and start and end at character
/// boundaries; `None` otherwise.
pub fn replace_ranges(text: &str, ranges: &Vec<Range<usize>>, new_text: &str) -> (r: Option<String>)
    ensures
        r is Some <==> ranges_fit(encode_utf8(text@), ranges_view(ranges@)),
        r matches Some(out) ==> encode_utf8(out@) == replaced_from_end(
            encode_utf8(text@),
            ranges_view(ranges@),
            encode_utf8(new_text@),
        ),
{
    let n = ranges.len();
    let ghost bytes = encode_utf8(text@);
    let ghost rs = ranges_view(ranges@);
    let ghost nb = encode_utf8(new_text@);
    let total = text.as_bytes().len();
    proof {
        assert(bytes.len() == total);
        encode_utf8_valid_utf8(text@);
        is_char_boundary_start_end_of_seq(bytes);
        assert(bytes.subrange(0, bytes.len() as int) =~= bytes);
        assert(encode_utf8(Seq::<char>::empty()) =~= Seq::<u8>::empty());
    }
    let mut out = String::new();
    let mut rest: &str = text;
    let mut off: usize = 0;
    let mut i: usize = 0;
    while i < n
        invariant
            i <= n,
            n == ranges@.len(),
            rs == ranges_view(ranges@),
            bytes == encode_utf8(text@),
            nb == encode_utf8(new_text@),
            valid_utf8(bytes),
            off as int == end_before(rs, i as int),
            off <= bytes.len(),
            bytes.len() == total,
            is_char_boundary(bytes, off as int),
            encode_utf8(rest@) == bytes.subrange(off as int, bytes.len() as int),
            encode_utf8(out@) == done_upto(bytes, rs, nb, i as int),
            ranges_fit(bytes, rs.take(i as int)),
        decreases n - i,
    {
        let a = ranges[i].start;
        let b = ranges[i].end;
        assert(rs[i as int] == (a, b));
        if a < off || b < a || b - off > rest.len() {
            proof {
                if ranges_fit(bytes, rs) {
                    assert(rs[i as int].0 <= rs[i as int].1 <= bytes.len());
                    if a < off {
                        assert(i > 0);
                        assert(rs[i - 1].1 <= rs[i as int].0);
                        assert(false);
                    } else if b < a {
                        assert(false);
                    } else {
                        assert(rest.len() == bytes.len() - off);
                        assert(false);
                    }
                }
            }
            return None;
        }
        let ra = a - off;
        let rb = b - off;
        proof {
            lemma_boundary_in_tail(bytes, off as int, a as int);
            lemma_boundary_in_tail(bytes, off as int, b as int);
        }
        if !rest.is_char_boundary(ra) || !rest.is_char_boundary(rb) {
            proof {
                if ranges_fit(bytes, rs) {
                    assert(is_char_boundary(bytes, rs[i as int].0 as int));
                    assert(false);
                }
            }
            return None;
        }
        let (gap, tail) = rest.split_at(ra);
        proof {
            lemma_boundary_in_tail(bytes, a as int, b as int);
            assert(encode_utf8(tail@) =~= bytes.subrange(a as int, bytes.len() as int));
            assert(encode_utf8(gap@) =~= bytes.subrange(off as int, a as int));
            lemma_encode_utf8_concat(out@, gap@);
            lemma_encode_utf8_concat(out@ + gap@, new_text@);
        }
        out.append(gap);
        out.append(new_text);
        let (_skipped, after) = tail.split_at(b - a);
        proof {
            assert(encode_utf8(after@) =~= bytes.subrange(b as int, bytes.len() as int));
            let t = rs.take(i as int + 1);
            assert forall|j: int| 0 <= j < t.len() implies #[trigger] t[j].0 <= t[j].1 <= bytes.len() by {
                if j < i {
                    assert(rs.take(i as int)[j] == t[j]);
                }
            }
            assert forall|j: int, k: int| 0 <= j < k < t.len() implies #[trigger] t[j].1 <= #[trigger] t[k].0 by {
                if k < i {
                    assert(rs.take(i as int)[j] == t[j]);
                    assert(rs.take(i as int)[k] == t[k]);
                } else {
                    assert(rs.take(i as int)[j] == t[j]);
                    if j < i - 1 {
                        assert(rs.take(i as int)[i - 1] == rs[i - 1]);
                        assert(rs.take(i as int)[j].1 <= rs.take(i as int)[i - 1].0);
                        assert(rs[i - 1].0 <= rs[i - 1].1);
                    }
                }
            }
            assert forall|j: int| 0 <= j < t.len() implies is_char_boundary(bytes, #[trigger] t[j].0 as int)
                && is_char_boundary(bytes, t[j].1 as int) by {
                if j < i {
                    assert(rs.take(i as int)[j] == t[j]);
                } else {
                    assert(t[j] == rs[i as int]);
                    assert(is_char_boundary(bytes, a as int));
                    assert(is_char_boundary(bytes, b as int));
                }
            }
        }
        rest = after;
        off = b;
        i = i + 1;
    }
    proof {
        lemma_encode_utf8_concat(out@, rest@);
        assert(rs.take(n as int) =~= rs);
        law_replace_from_end_interleaves(bytes, rs, nb);
    }
    out.append(rest);
    Some(out)
}


/// The current match of a matcher, if its index points at one.
pub open spec fn current_of(m: SearchMatcher) -> Option<(usize, usize)> {
    if m.current_match_ix < m.ranges().len() {
        Some(m.ranges()[m.current_match_ix as int])
    } else {
        None
    }
}

/// The search panel of a text input: whether it shows, whether ASCII
/// letters are compared without case, whether it offers replacing, the
/// query typed into it and the matches in the input's text. The panel
/// decides; the input selects, scrolls and replaces as it is told.
pub struct SearchPanel {
    pub case_insensitive: bool,
    pub replace_mode: bool,
    pub open: bool,
    pub query: String,
    pub matcher: SearchMatcher,
}

impl SearchPanel {
    /// An open panel with an empty query, comparing without case.
    pub fn new() -> (p: Self)
        ensures
            p.case_insensitive,
            !p.replace_mode,
            p.open,
            p.query@ == Seq::<char>::empty(),
            p.matcher.text@ == Seq::<char>::empty(),
            p.matcher.query is None,
            p.matcher.ranges() == Seq::<(usize, usize)>::empty(),
            p.matcher.current_match_ix == 0,
            !p.matcher.replacing,
    {
        SearchPanel {
            case_insensitive: true,
            replace_mode: false,
            open: true,
            query: String::new(),
            matcher: SearchMatcher::new(),
        }
    }

    /// The range of the current match, if there is one.
    fn current_range(&self) -> (r: Option<Range<usize>>)
        ensures
            match r {
                Some(x) => current_of(self.matcher) == Some((x.start, x.end)),
                None => current_of(self.matcher) is None,
            },
    {
        let ix = self.matcher.current_match_ix;
        if ix < self.matcher.matched_ranges.len() {
            let x = &self.matcher.matched_ranges[ix];
            Some(Range { start: x.start, end: x.end })
        } else {
            None
        }
    }

    /// Matches the query again and gives the range of the current match,
    /// which the input then selects.
    pub fn update_search(&mut self) -> (sel: Option<Range<usize>>)
        ensures
            final(self).matcher.query_view() == if old(self).query@.len() > 0 {
                Some((old(self).query@, old(self).case_insensitive))
            } else {
                None::<(Seq<char>, bool)>
            },
            final(self).matcher.ranges() == ranges_for(final(self).matcher.query_view(), old(self).matcher.text@),
            final(self).matcher.current_match_ix == if old(self).matcher.replacing {
                old(self).matcher.current_match_ix
            } else {
                0
            },
            final(self).matcher.text == old(self).matcher.text,
            final(self).matcher.replacing == old(self).matcher.replacing,
            final(self).query == old(self).query,
            final(self).open == old(self).open,
            final(self).case_insensitive == old(self).case_insensitive,
            final(self).replace_mode == old(self).replace_mode,
            match sel {
                Some(x) => current_of(final(self).matcher) == Some((x.start, x.end)),
                None => current_of(final(self).matcher) is None,
            },
    {
        let ci = self.case_insensitive;
        self.matcher.update_query(self.query.as_str(), ci);
        self.current_range()
    }

    /// Opens the panel; a non-empty selection becomes the query. Then
    /// matches again and gives the range of the current match.
    pub fn show(&mut self, selected_text: &str) -> (sel: Option<Range<usize>>)
        ensures
            final(self).open,
            final(self).query@ == if selected_text@.len() > 0 {
                selected_text@
            } else {
                old(self).query@
            },
            final(self).matcher.query_view() == if final(self).query@.len() > 0 {
                Some((final(self).query@, old(self).case_insensitive))
            } else {
                None::<(Seq<char>, bool)>
            },
            final(self).matcher.ranges() == ranges_for(final(self).matcher.query_view(), old(self).matcher.text@),
            final(self).matcher.current_match_ix == if old(self).matcher.replacing {
                old(self).matcher.current_match_ix
            } else {
                0
            },
            final(self).matcher.text == old(self).matcher.text,
            final(self).matcher.replacing == old(self).matcher.replacing,
            final(self).case_insensitive == old(self).case_insensitive,
            final(self).replace_mode == old(self).replace_mode,
            match sel {
                Some(x) => current_of(final(self).matcher) == Some((x.start, x.end)),
                None => current_of(final(self).matcher) is None,
            },
    {
        self.open = true;
        if selected_text.unicode_len() > 0 {
            self.query = String::from_str(selected_text);
        }
        self.update_search()
    }

    /// The query typed into the panel changed: match with it.
    pub fn set_query(&mut self, value: &str)
        ensures
            final(self).query@ == value@,
            final(self).matcher.query_view() == if value@.len() > 0 {
                Some((value@, old(self).case_insensitive))
            } else {
                None::<(Seq<char>, bool)>
            },
            final(self).matcher.ranges() == ranges_for(final(self).matcher.query_view(), old(self).matcher.text@),
            final(self).matcher.current_match_ix == if old(self).matcher.replacing {
                old(self).matcher.current_match_ix
            } else {
                0
            },
            final(self).matcher.text == old(self).matcher.text,
            final(self).matcher.replacing == old(self).matcher.replacing,
            final(self).open == old(self).open,
            final(self).case_insensitive == old(self).case_insensitive,
            final(self).replace_mode == old(self).replace_mode,
    {
        self.query = String::from_str(value);
        let ci = self.case_insensitive;
        self.matcher.update_query(value, ci);
    }

    /// The case button: shown selected while letters are compared with
    /// their case; a click flips the comparison and matches again, giving
    /// the range of the current match to select.
    pub fn toggle_case_insensitive(&mut self) -> (sel: Option<Range<usize>>)
        ensures
            final(self).case_insensitive == !old(self).case_insensitive,
            final(self).matcher.query_view() == if old(self).query@.len() > 0 {
                Some((old(self).query@, !old(self).case_insensitive))
            } else {
                None::<(Seq<char>, bool)>
            },
            final(self).matcher.ranges() == ranges_for(final(self).matcher.query_view(), old(self).matcher.text@),
            final(self).matcher.current_match_ix == if old(self).matcher.replacing {
                old(self).matcher.current_match_ix
            } else {
                0
            },
            final(self).matcher.text == old(self).matcher.text,
            final(self).matcher.replacing == old(self).matcher.replacing,
            final(self).query == old(self).query,
            final(self).open == old(self).open,
            final(self).replace_mode == old(self).replace_mode,
            match sel {
                Some(x) => current_of(final(self).matcher) == Some((x.start, x.end)),
                None => current_of(final(self).matcher) is None,
            },
    {
        self.case_insensitive = !self.case_insensitive;
        self.update_search()
    }

    /// Whether the case button shows selected: while letters are compared
    /// with their case.
    pub fn case_button_selected(&self) -> (r: bool)
        ensures
            r == !self.case_insensitive,
    {
        !self.case_insensitive
    }

    /// The replace button flips replace mode; the replace row shows while it
    /// is on.
    pub fn toggle_replace_mode(&mut self)
        ensures
            final(self).replace_mode == !old(self).replace_mode,
            final(self).case_insensitive == old(self).case_insensitive,
            final(self).open == old(self).open,
            final(self).query == old(self).query,
            final(self).matcher == old(self).matcher,
    {
        self.replace_mode = !self.replace_mode;
    }

    /// Closes the panel.
    pub fn close(&mut self)
        ensures
            !final(self).open,
            final(self).query == old(self).query,
            final(self).matcher == old(self).matcher,
            final(self).case_insensitive == old(self).case_insensitive,
            final(self).replace_mode == old(self).replace_mode,
    {
        self.open = false;
    }

    /// The matcher while the panel shows.
    pub fn matcher(&self) -> (m: Option<&SearchMatcher>)
        ensures
            match m {
                Some(x) => self.open && *x == self.matcher,
                None => !self.open,
            },
    {
        if !self.open {
            return None;
        }
        Some(&self.matcher)
    }

    /// Moves to the previous match and gives the offset to scroll to: where
    /// that match starts.
    pub fn prev(&mut self) -> (at: Option<usize>)
        requires
            old(self).matcher.current_match_ix <= old(self).matcher.matched_ranges@.len(),
        ensures
            old(self).matcher.ranges().len() == 0 ==> at is None && *final(self) == *old(self),
            old(self).matcher.ranges().len() > 0 ==> final(self).matcher.current_match_ix == prev_ix(
                old(self).matcher.current_match_ix as int,
                old(self).matcher.ranges().len() as int,
            ) && at == Some(old(self).matcher.ranges()[final(self).matcher.current_match_ix as int].0),
            final(self).matcher.matched_ranges@ == old(self).matcher.matched_ranges@,
            final(self).matcher.text == old(self).matcher.text,
            final(self).matcher.query == old(self).matcher.query,
            final(self).matcher.replacing == old(self).matcher.replacing,
            final(self).query == old(self).query,
            final(self).open == old(self).open,
    {
        match self.matcher.next_back() {
            Some(r) => Some(r.start),
            None => None,
        }
    }

    /// Moves to the next match and gives the offset to scroll to: where that
    /// match ends.
    pub fn next(&mut self) -> (at: Option<usize>)
        ensures
            old(self).matcher.ranges().len() == 0 ==> at is None && *final(self) == *old(self),
            old(self).matcher.ranges().len() > 0 ==> final(self).matcher.current_match_ix == next_ix(
                old(self).matcher.current_match_ix as int,
                old(self).matcher.ranges().len() as int,
            ) && at == Some(old(self).matcher.ranges()[final(self).matcher.current_match_ix as int].1),
            final(self).matcher.matched_ranges@ == old(self).matcher.matched_ranges@,
            final(self).matcher.text == old(self).matcher.text,
            final(self).matcher.query == old(self).matcher.query,
            final(self).matcher.replacing == old(self).matcher.replacing,
            final(self).query == old(self).query,
            final(self).open == old(self).open,
    {
        match self.matcher.next() {
            Some(r) => Some(r.end),
            None => None,
        }
    }

    /// Enters replacing mode and gives the current match, to be replaced,
    /// with the match to scroll to: the next one, or the same one when it is
    /// the last.
    pub fn replace_next(&mut self) -> (r: Option<(Range<usize>, Range<usize>)>)
        ensures
            final(self).matcher.replacing,
            final(self).matcher.text == old(self).matcher.text,
            final(self).matcher.query == old(self).matcher.query,
            final(self).matcher.matched_ranges@ == old(self).matcher.matched_ranges@,
            final(self).matcher.current_match_ix == old(self).matcher.current_match_ix,
            final(self).query == old(self).query,
            final(self).open == old(self).open,
            match r {
                Some((cur, next)) => {
                    &&& current_of(old(self).matcher) == Some((cur.start, cur.end))
                    &&& (next.start, next.end) == if old(self).matcher.current_match_ix + 1
                        < old(self).matcher.ranges().len() {
                        old(self).matcher.ranges()[old(self).matcher.current_match_ix + 1]
                    } else {
                        (cur.start, cur.end)
                    }
                },
                None => current_of(old(self).matcher) is None,
            },
    {
        self.matcher.replacing = true;
        match self.current_range() {
            Some(cur) => {
                let next = match self.matcher.peek() {
                    Some(p) => p,
                    None => Range { start: cur.start, end: cur.end },
                };
                Some((cur, next))
            },
            None => None,
        }
    }

    /// Enters replacing mode and gives the text with every match replaced by
    /// `new_text`; `None` when there is no match, or when the matches do not
    /// fit the text.
    pub fn replace_all(&mut self, new_text: &str) -> (r: Option<String>)
        ensures
            final(self).matcher.replacing,
            final(self).matcher.text == old(self).matcher.text,
            final(self).matcher.query == old(self).matcher.query,
            final(self).matcher.matched_ranges@ == old(self).matcher.matched_ranges@,
            final(self).matcher.current_match_ix == old(self).matcher.current_match_ix,
            final(self).query == old(self).query,
            final(self).open == old(self).open,
            r is Some <==> old(self).matcher.ranges().len() > 0 && ranges_fit(
                encode_utf8(old(self).matcher.text@),
                old(self).matcher.ranges(),
            ),
            r matches Some(out) ==> encode_utf8(out@) == replaced_from_end(
                encode_utf8(old(self).matcher.text@),
                old(self).matcher.ranges(),
                encode_utf8(new_text@),
            ),
    {
        self.matcher.replacing = true;
        if self.matcher.matched_ranges.len() == 0 {
            return None;
        }
        replace_ranges(self.matcher.text.as_str(), &self.matcher.matched_ranges, new_text)
    }
}

} // verus!
