//! Path strings: joining, parents, and sets of watched paths.
use vstd::prelude::*;
use crate::ast::strings_view;
use crate::text::{str_eq, chars_of, string_of, substring, starts_with, ends_with, has_suffix, replace_char, replace_char_in};

verus! {

/// The parent of a path as `std::path::Path::parent` gives it.
pub uninterp spec fn parent_of(p: Seq<char>) -> Option<Seq<char>>;

/// `Path::parent`, as a string; `None` for a root or an empty path.
#[verifier::external_body]
pub(crate) fn path_parent(p: &str) -> (r: Option<String>)
    ensures
        r matches Some(d) ==> parent_of(p@) == Some(d@),
        r is None ==> parent_of(p@) is None,
{
    match std::path::Path::new(p).parent() {
        Some(d) => Some(d.to_string_lossy().into_owned()),
        None => None,
    }
}

/// The extension of a path as `std::path::Path::extension` gives it.
pub uninterp spec fn extension_of(p: Seq<char>) -> Option<Seq<char>>;

/// `Path::extension`, as a string.
#[verifier::external_body]
pub(crate) fn path_extension(p: &str) -> (r: Option<String>)
    ensures
        r matches Some(e) ==> extension_of(p@) == Some(e@),
        r is None ==> extension_of(p@) is None,
{
    match std::path::Path::new(p).extension() {
        Some(e) => Some(e.to_string_lossy().into_owned()),
        None => None,
    }
}

/// Whether `base` is a leading run of whole components of `p`, as
/// `std::path::Path::starts_with` decides it.
pub uninterp spec fn path_within(p: Seq<char>, base: Seq<char>) -> bool;

/// `Path::starts_with`.
#[verifier::external_body]
pub(crate) fn path_starts_with(p: &str, base: &str) -> (r: bool)
    ensures
        r == path_within(p@, base@),
{
    std::path::Path::new(p).starts_with(std::path::Path::new(base))
}

/// Whether a file or directory exists at the path (`Path::exists`); the
/// answer depends on the file system at the time of the call, so nothing is
/// stated of it.
#[verifier::external_body]
pub(crate) fn path_exists(p: &str) -> bool {
    std::path::Path::new(p).exists()
}

/// The path that `Path::join` gives for `base` and `rel`, as text
/// (`to_string_lossy`). The standard library decides it on each platform:
/// on Unix an absolute `rel` replaces `base`, otherwise `rel` follows `base`
/// with one separator between them.
pub uninterp spec fn join_path(base: Seq<char>, rel: Seq<char>) -> Seq<char>;

/// `Path::new(base).join(rel)`, as text.
#[verifier::external_body]
pub(crate) fn join(base: &str, rel: &str) -> (r: String)
    ensures
        r@ == join_path(base@, rel@),
{
    std::path::Path::new(base).join(rel).to_string_lossy().into_owned()
}

/// The directory of a file path: its parent, or the empty path where it has
/// none (`Path::parent(..).unwrap_or(Path::new(""))`).
pub open spec fn dir_of(f: Seq<char>) -> Seq<char> {
    match parent_of(f) {
        Some(d) => d,
        None => Seq::empty(),
    }
}

pub fn dir_of_file(f: &str) -> (d: String)
    ensures
        d@ == dir_of(f@),
{
    match path_parent(f) {
        Some(d) => d,
        None => String::new(),
    }
}

/// The position after the run of `c` that starts at `i`.
pub open spec fn skip_char(s: Seq<char>, c: char, i: int) -> int
    decreases s.len() - i,
{
    if 0 <= i < s.len() && s[i] == c {
        skip_char(s, c, i + 1)
    } else {
        i
    }
}

/// `str::trim_start_matches(c)`: `s` without its leading run of `c`.
pub open spec fn trim_leading(s: Seq<char>, c: char) -> Seq<char> {
    s.subrange(skip_char(s, c, 0), s.len() as int)
}

proof fn lemma_skip_char(s: Seq<char>, c: char, i: int)
    requires
        0 <= i <= s.len(),
    ensures
        i <= skip_char(s, c, i) <= s.len(),
    decreases s.len() - i,
{
    if i < s.len() && s[i] == c {
        lemma_skip_char(s, c, i + 1);
    }
}

pub fn trim_leading_char(s: &str, c: char) -> (t: String)
    ensures
        t@ == trim_leading(s@, c),
{
    let cs = chars_of(s);
    let mut i: usize = 0;
    proof {
        lemma_skip_char(s@, c, 0);
    }
    while i < cs.len() && cs[i] == c
        invariant
            cs@ == s@,
            i <= cs@.len(),
            skip_char(s@, c, i as int) == skip_char(s@, c, 0),
        decreases cs@.len() - i,
    {
        i = i + 1;
    }
    substring(cs.as_slice(), i, cs.len())
}

/// A component file path with the `.gpml` extension added where it is missing.
pub open spec fn with_gpml_ext(p: Seq<char>) -> Seq<char> {
    if ends_with(p, ".gpml"@) {
        p
    } else {
        p + ".gpml"@
    }
}

pub fn add_gpml_ext(p: String) -> (r: String)
    ensures
        r@ == with_gpml_ext(p@),
{
    let cs = chars_of(p.as_str());
    let ext = chars_of(".gpml");
    if has_suffix(cs.as_slice(), ext.as_slice()) {
        p
    } else {
        let mut r = p;
        r.append(".gpml");
        r
    }
}

/// Where an import of `import` from the file `current` points, before the
/// extension is added: a path starting with '/' is taken from the root with
/// its leading slashes removed; any other is joined to the directory of
/// `current`.
pub open spec fn import_base(current: Seq<char>, import: Seq<char>) -> Seq<char> {
    if starts_with(import, seq!['/']) {
        trim_leading(import, '/')
    } else {
        join_path(dir_of(current), import)
    }
}

/// `import_base` with backslashes made forward slashes on the joined branch,
/// as the names of bundled files use them.
pub open spec fn bundle_import_base(current: Seq<char>, import: Seq<char>) -> Seq<char> {
    if starts_with(import, seq!['/']) {
        trim_leading(import, '/')
    } else {
        replace_char(join_path(dir_of(current), import), '\\', '/')
    }
}

fn starts_with_slash(s: &str) -> (r: bool)
    ensures
        r == starts_with(s@, seq!['/']),
{
    let cs = chars_of(s);
    let r = cs.len() > 0 && cs[0] == '/';
    assert(r == starts_with(s@, seq!['/'])) by {
        if s@.len() >= 1 {
            assert(s@.subrange(0, 1)[0] == s@[0]);
            if s@[0] == '/' {
                assert(s@.subrange(0, 1) =~= seq!['/']);
            }
        }
    }
    r
}

/// The path of the component file that `import` names from `current`, on
/// the file system.
pub fn import_file_path(current: &str, import: &str) -> (r: String)
    ensures
        r@ == with_gpml_ext(import_base(current@, import@)),
{
    let base = if starts_with_slash(import) {
        trim_leading_char(import, '/')
    } else {
        let d = dir_of_file(current);
        join(d.as_str(), import)
    };
    add_gpml_ext(base)
}

/// The path of the component file that `import` names from `current`, in a
/// bundle of files.
pub fn bundle_import_file_path(current: &str, import: &str) -> (r: String)
    ensures
        r@ == with_gpml_ext(bundle_import_base(current@, import@)),
{
    let base = if starts_with_slash(import) {
        trim_leading_char(import, '/')
    } else {
        let d = dir_of_file(current);
        let j = join(d.as_str(), import);
        let cs = chars_of(j.as_str());
        let fixed = replace_char_in(cs.as_slice(), '\\', '/');
        string_of(fixed.as_slice())
    };
    add_gpml_ext(base)
}

/// Whether `x` is among `v`.
pub fn contains_str(v: &Vec<String>, x: &str) -> (r: bool)
    ensures
        r == strings_view(v@).contains(x@),
{
    let mut i: usize = 0;
    while i < v.len()
        invariant
            i <= v@.len(),
            forall|j: int| 0 <= j < i ==> v@[j]@ != x@,
        decreases v@.len() - i,
    {
        if str_eq(v[i].as_str(), x) {
            assert(strings_view(v@)[i as int] == x@);
            return true;
        }
        i = i + 1;
    }
    assert(!strings_view(v@).contains(x@)) by {
        if strings_view(v@).contains(x@) {
            let j = choose|j: int| 0 <= j < v@.len() && strings_view(v@)[j] == x@;
            assert(v@[j]@ == x@);
        }
    }
    false
}

/// `v` with every entry equal to `x` left out, the others in their order.
pub open spec fn without(v: Seq<Seq<char>>, x: Seq<char>) -> Seq<Seq<char>> {
    v.filter(other_than(x))
}

/// The test that keeps every entry but `x`.
pub open spec fn other_than(x: Seq<char>) -> spec_fn(Seq<char>) -> bool {
    |y: Seq<char>| y != x
}

/// After leaving `x` out, `x` is gone and every other entry is kept.
pub proof fn lemma_without(v: Seq<Seq<char>>, x: Seq<char>)
    ensures
        !without(v, x).contains(x),
        forall|y: Seq<char>| y != x ==> (#[trigger] without(v, x).contains(y) <==> v.contains(y)),
{
    broadcast use vstd::seq_lib::group_filter_ensures;
    let f = other_than(x);
    if without(v, x).contains(x) {
        let j = choose|j: int| 0 <= j < without(v, x).len() && without(v, x)[j] == x;
        v.lemma_filter_pred(f, j);
    }
    assert forall|y: Seq<char>| y != x implies (without(v, x).contains(y) <==> v.contains(y)) by {
        if v.contains(y) {
            let j = choose|j: int| 0 <= j < v.len() && v[j] == y;
            v.lemma_filter_contains(f, j);
        }
        if without(v, x).contains(y) {
            v.lemma_filter_contains_rev(f, y);
        }
    }
}

/// Adds `x` to the set of paths `v` unless it is there.
pub fn set_insert(v: &mut Vec<String>, x: String)
    ensures
        strings_view(final(v)@) == if strings_view(old(v)@).contains(x@) {
            strings_view(old(v)@)
        } else {
            strings_view(old(v)@).push(x@)
        },
        strings_view(final(v)@).to_set() == strings_view(old(v)@).to_set().insert(x@),
{
    let ghost xv = x@;
    if !contains_str(v, x.as_str()) {
        v.push(x);
        assert(strings_view(v@) =~= strings_view(old(v)@).push(xv));
    }
    assert(strings_view(v@).to_set() =~= strings_view(old(v)@).to_set().insert(xv)) by {
        broadcast use vstd::seq_lib::group_seq_properties;

    }
}

/// Removes `x` from the set of paths `v`.
pub fn set_remove(v: &mut Vec<String>, x: &str)
    ensures
        strings_view(final(v)@) == without(strings_view(old(v)@), x@),
        strings_view(final(v)@).to_set() == strings_view(old(v)@).to_set().remove(x@),
{
    let mut out: Vec<String> = Vec::new();
    let mut i: usize = 0;
    while i < v.len()
        invariant
            i <= v@.len(),
            v@ == old(v)@,
            strings_view(out@) == without(strings_view(v@).subrange(0, i as int), x@),
        decreases v@.len() - i,
    {
        let ghost pre = strings_view(v@).subrange(0, i as int);
        assert(strings_view(v@).subrange(0, i + 1) =~= pre.push(v@[i as int]@));
        proof {
            pre.lemma_filter_push(v@[i as int]@, other_than(x@));
        }
        if !str_eq(v[i].as_str(), x) {
            let ghost before = strings_view(out@);
            out.push(v[i].clone());
            assert(strings_view(out@) =~= before.push(v@[i as int]@));
        }
        i = i + 1;
    }
    assert(strings_view(v@).subrange(0, i as int) =~= strings_view(v@));
    proof {
        lemma_without(strings_view(v@), x@);
        assert(strings_view(out@).to_set() =~= strings_view(v@).to_set().remove(x@));
    }
    *v = out;
}

} // verus!
