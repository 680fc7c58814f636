//! GPML files bundled into a build, and the file source that reads them
//! from the file system instead.
use vstd::prelude::*;
use vstd::utf8::valid_utf8;
use crate::paths::{
    with_gpml_ext, import_base, bundle_import_base, import_file_path, bundle_import_file_path,
    path_exists,
};
use crate::text::{chars_of, string_of, replace_char, replace_char_in, ends_with, has_suffix, str_eq};
use crate::xml::{utf8_decode, utf8_error_text, join_message, decode_or};

verus! {

/// The files of a bundle, each a path (with '/' separators) and its bytes;
/// no path occurs twice.
pub struct BundledGPMLAssets {
    pub(crate) files: Vec<(String, Vec<u8>)>,
}

/// A bundle as paths and contents.
pub open spec fn files_view(f: Seq<(String, Vec<u8>)>) -> Seq<(Seq<char>, Seq<u8>)> {
    Seq::new(f.len(), |i: int| (f[i].0@, f[i].1@))
}

impl View for BundledGPMLAssets {
    type V = Seq<(Seq<char>, Seq<u8>)>;

    closed spec fn view(&self) -> Seq<(Seq<char>, Seq<u8>)> {
        files_view(self.files@)
    }
}

/// The contents of the first file of the bundle stored under `name`.
pub open spec fn bundle_get(files: Seq<(Seq<char>, Seq<u8>)>, name: Seq<char>) -> Option<Seq<u8>>
    decreases files.len(),
{
    if files.len() == 0 {
        None
    } else if files[0].0 == name {
        Some(files[0].1)
    } else {
        bundle_get(files.drop_first(), name)
    }
}

/// No path occurs twice.
pub open spec fn paths_unique(f: Seq<(Seq<char>, Seq<u8>)>) -> bool {
    forall|i: int, j: int| #![trigger f[i], f[j]] 0 <= i < j < f.len() ==> f[i].0 != f[j].0
}

/// The files in order, each path kept with its first file only.
pub open spec fn first_of_each(f: Seq<(Seq<char>, Seq<u8>)>) -> Seq<(Seq<char>, Seq<u8>)>
    decreases f.len(),
{
    if f.len() == 0 {
        f
    } else {
        let r = first_of_each(f.drop_last());
        if bundle_get(r, f.last().0) is None {
            r.push(f.last())
        } else {
            r
        }
    }
}

/// A path is held exactly where some file has it.
pub proof fn lemma_bundle_get_none(f: Seq<(Seq<char>, Seq<u8>)>, name: Seq<char>)
    ensures
        bundle_get(f, name) is None <==> forall|i: int| 0 <= i < f.len() ==> f[i].0 != name,
        bundle_get(f, name) matches Some(v) ==> exists|i: int| 0 <= i < f.len() && f[i] == (name, v),
    decreases f.len(),
{
    if f.len() > 0 {
        lemma_bundle_get_none(f.drop_first(), name);
        if f[0].0 != name {
            assert forall|i: int| 1 <= i < f.len() implies f[i] == f.drop_first()[i - 1] by {}
            if bundle_get(f, name) is Some {
                let v = bundle_get(f, name).unwrap();
                let k = choose|k: int| 0 <= k < f.drop_first().len() && f.drop_first()[k] == (name, v);
                assert(f[k + 1] == (name, v));
            }
        } else {
            assert(f[0] == (name, f[0].1));
        }
    }
}

/// Looking a path up after a file is added at the end: an earlier file of
/// the path wins.
pub proof fn lemma_bundle_get_push(f: Seq<(Seq<char>, Seq<u8>)>, x: (Seq<char>, Seq<u8>), name: Seq<char>)
    ensures
        bundle_get(f.push(x), name) == match bundle_get(f, name) {
            Some(v) => Some(v),
            None => if x.0 == name {
                Some(x.1)
            } else {
                None::<Seq<u8>>
            },
        },
    decreases f.len(),
{
    let g = f.push(x);
    if f.len() > 0 {
        assert(g.drop_first() =~= f.drop_first().push(x));
        assert(g[0] == f[0]);
        lemma_bundle_get_push(f.drop_first(), x, name);
    } else {
        assert(g.drop_first() =~= Seq::<(Seq<char>, Seq<u8>)>::empty());
        assert(g[0] == x);
        assert(bundle_get(g.drop_first(), name) is None);
        assert(bundle_get(f, name) is None);
    }
}

/// Keeping the first file of each path leaves no path twice and changes no
/// lookup.
pub proof fn lemma_first_of_each(f: Seq<(Seq<char>, Seq<u8>)>)
    ensures
        paths_unique(first_of_each(f)),
        forall|name: Seq<char>| #[trigger] bundle_get(first_of_each(f), name) == bundle_get(f, name),
    decreases f.len(),
{
    if f.len() > 0 {
        let init = f.drop_last();
        let x = f.last();
        lemma_first_of_each(init);
        let r = first_of_each(init);
        assert(init.push(x) =~= f);
        assert forall|name: Seq<char>| #[trigger] bundle_get(first_of_each(f), name) == bundle_get(f, name) by {
            lemma_bundle_get_push(init, x, name);
            lemma_bundle_get_push(r, x, name);
            assert(bundle_get(r, name) == bundle_get(init, name));
            if bundle_get(r, x.0) is Some && name == x.0 {
                assert(bundle_get(init, name) is Some);
            }
        }
        if bundle_get(r, x.0) is None {
            lemma_bundle_get_none(r, x.0);
            let r2 = r.push(x);
            assert forall|i: int, j: int| #![trigger r2[i], r2[j]] 0 <= i < j < r2.len() implies r2[i].0 != r2[j].0 by {
                if j < r.len() {
                    assert(r2[i] == r[i] && r2[j] == r[j]);
                } else {
                    assert(r2[i] == r[i]);
                }
            }
        }
    }
}

/// The forms under which a path is looked up in the bundle, in order: as
/// given, and with "./", "../" and "../../" before it.
pub open spec fn lookup_forms(n: Seq<char>) -> Seq<Seq<char>> {
    seq![n, seq!['.', '/'] + n, seq!['.', '.', '/'] + n, seq!['.', '.', '/', '.', '.', '/'] + n]
}

/// The first of `forms` that the bundle holds.
pub open spec fn first_held(files: Seq<(Seq<char>, Seq<u8>)>, forms: Seq<Seq<char>>) -> Option<
    Seq<char>,
>
    decreases forms.len(),
{
    if forms.len() == 0 {
        None
    } else if bundle_get(files, forms[0]) is Some {
        Some(forms[0])
    } else {
        first_held(files, forms.drop_first())
    }
}

/// `path` with backslashes made forward slashes.
pub open spec fn normalized(path: Seq<char>) -> Seq<char> {
    replace_char(path, '\\', '/')
}

/// Where in the bundle `path` is found, if anywhere.
pub open spec fn located(files: Seq<(Seq<char>, Seq<u8>)>, path: Seq<char>) -> Option<Seq<char>> {
    first_held(files, lookup_forms(normalized(path)))
}

/// What loading `path` from the bundle gives: the decoded text of the file
/// found, or a message.
pub open spec fn load_result(files: Seq<(Seq<char>, Seq<u8>)>, path: Seq<char>) -> Result<
    Seq<char>,
    Seq<char>,
> {
    match located(files, path) {
        Some(p) => decode_or(
            bundle_get(files, p).unwrap(),
            "Failed to decode GPML file as UTF-8: "@,
        ),
        None => Err(
            "GPML file not found in bundle: "@ + path + " (tried multiple path variations)"@,
        ),
    }
}

/// The paths of the bundle that end with ".gpml", in the bundle's order.
pub open spec fn gpml_paths(files: Seq<(Seq<char>, Seq<u8>)>) -> Seq<Seq<char>>
    decreases files.len(),
{
    if files.len() == 0 {
        Seq::empty()
    } else {
        let rest = gpml_paths(files.drop_last());
        let last = files[files.len() - 1].0;
        if ends_with(last, ".gpml"@) {
            rest.push(last)
        } else {
            rest
        }
    }
}

/// What resolving an import from `current` to `import` in the bundle gives.
pub open spec fn bundle_resolution(
    files: Seq<(Seq<char>, Seq<u8>)>,
    current: Seq<char>,
    import: Seq<char>,
) -> Result<Seq<char>, Seq<char>> {
    let p = with_gpml_ext(bundle_import_base(current, import));
    if located(files, p) is Some {
        Ok(p)
    } else {
        Err("Component file not found in bundle: "@ + p)
    }
}

/// The index of the first file stored under `name`.
fn path_index(files: &Vec<(String, Vec<u8>)>, name: &str) -> (r: Option<usize>)
    ensures
        match r {
            Some(i) => i < files@.len() && bundle_get(files_view(files@), name@) == Some(files_view(files@)[i as int].1),
            None => bundle_get(files_view(files@), name@) is None,
        },
{
    let ghost f = files_view(files@);
    let mut i: usize = 0;
    assert(f.subrange(0, f.len() as int) =~= f);
    while i < files.len()
        invariant
            i <= f.len(),
            f == files_view(files@),
            f.len() == files@.len(),
            bundle_get(f, name@) == bundle_get(f.subrange(i as int, f.len() as int), name@),
        decreases f.len() - i,
    {
        let ghost rest = f.subrange(i as int, f.len() as int);
        assert(rest[0] == f[i as int]);
        if str_eq(files[i].0.as_str(), name) {
            return Some(i);
        }
        assert(rest.drop_first() =~= f.subrange(i + 1, f.len() as int));
        i = i + 1;
    }
    None
}

impl BundledGPMLAssets {
    /// No path occurs twice in a bundle.
    #[verifier::type_invariant]
    spec fn unique_paths(self) -> bool {
        paths_unique(files_view(self.files@))
    }

    /// A bundle of the given files; where a path occurs more than once, its
    /// first file is kept.
    pub fn new(files: Vec<(String, Vec<u8>)>) -> (b: Self)
        ensures
            b@ == first_of_each(files_view(files@)),
            paths_unique(b@),
    {
        let ghost fv = files_view(files@);
        let mut kept: Vec<(String, Vec<u8>)> = Vec::new();
        let mut i: usize = 0;
        assert(files_view(kept@) =~= first_of_each(fv.take(0)));
        while i < files.len()
            invariant
                i <= files@.len(),
                fv == files_view(files@),
                files_view(kept@) == first_of_each(fv.take(i as int)),
            decreases files@.len() - i,
        {
            let ghost pre = fv.take(i as int);
            assert(fv.take(i + 1).drop_last() =~= pre);
            assert(fv.take(i + 1).last() == fv[i as int]);
            if path_index(&kept, files[i].0.as_str()).is_none() {
                let k = files[i].0.clone();
                let v = files[i].1.clone();
                let ghost before = kept@;
                kept.push((k, v));
                assert(files_view(kept@) =~= files_view(before).push(fv[i as int]));
            }
            i = i + 1;
        }
        assert(fv.take(files@.len() as int) =~= fv);
        proof {
            lemma_first_of_each(fv);
        }
        BundledGPMLAssets { files: kept }
    }

    /// The index of the first file stored under `name`.
    fn index_of(&self, name: &str) -> (r: Option<usize>)
        ensures
            match r {
                Some(i) => i < self@.len() && bundle_get(self@, name@) == Some(self@[i as int].1),
                None => bundle_get(self@, name@) is None,
            },
    {
        path_index(&self.files, name)
    }

    /// The first of the lookup forms of `path` that the bundle holds, with
    /// its index.
    fn locate(&self, path: &str) -> (r: Option<usize>)
        ensures
            match r {
                Some(i) => i < self@.len() && (located(self@, path@) matches Some(p) && bundle_get(
                    self@,
                    p,
                ) == Some(self@[i as int].1)),
                None => located(self@, path@) is None,
            },
    {
        let cs = chars_of(path);
        let fixed = replace_char_in(cs.as_slice(), '\\', '/');
        let n = string_of(fixed.as_slice());
        let ghost forms = lookup_forms(n@);
        assert(n@ == normalized(path@));
        assert(located(self@, path@) == first_held(self@, forms));
        let f1 = join_message("./", n.as_str());
        let f2 = join_message("../", n.as_str());
        let f3 = join_message("../../", n.as_str());
        proof {
            reveal_strlit("./");
            reveal_strlit("../");
            reveal_strlit("../../");
            assert(forms[1] == f1@);
            assert(forms[2] == f2@);
            assert(forms[3] == f3@);
            assert(forms.drop_first().drop_first().drop_first().drop_first().len() == 0);
        }
        match self.index_of(n.as_str()) {
            Some(i) => {
                assert(forms[0] == n@);
                assert(first_held(self@, forms) == Some(n@));
                return Some(i);
            },
            None => {},
        }
        assert(first_held(self@, forms) == first_held(self@, forms.drop_first()));
        match self.index_of(f1.as_str()) {
            Some(i) => {
                assert(forms.drop_first()[0] == f1@);
                assert(first_held(self@, forms.drop_first()) == Some(f1@));
                return Some(i);
            },
            None => {},
        }
        let ghost t2 = forms.drop_first().drop_first();
        assert(first_held(self@, forms.drop_first()) == first_held(self@, t2));
        assert(t2[0] == f2@);
        match self.index_of(f2.as_str()) {
            Some(i) => {
                assert(first_held(self@, t2) == Some(f2@));
                return Some(i);
            },
            None => {},
        }
        let ghost t3 = t2.drop_first();
        assert(first_held(self@, t2) == first_held(self@, t3));
        assert(t3[0] == f3@);
        assert(first_held(self@, t3.drop_first()) is None);
        let r = self.index_of(f3.as_str());
        assert(first_held(self@, t3) == if r is Some { Some(f3@) } else { None::<Seq<char>> });
        r
    }

    /// Loads a GPML file from the bundle: the path with backslashes made
    /// forward slashes, then with "./", "../" and "../../" before it, the
    /// first found decoded as UTF-8.
    pub fn load_gpml_file(&self, path: &str) -> (r: Result<String, String>)
        ensures
            match r {
                Ok(s) => load_result(self@, path@) == Ok::<Seq<char>, Seq<char>>(s@),
                Err(m) => load_result(self@, path@) == Err::<Seq<char>, Seq<char>>(m@),
            },
    {
        match self.locate(path) {
            Some(i) => {
                let data = &self.files[i].1;
                assert(data@ == self@[i as int].1);
                match utf8_decode(data.as_slice()) {
                    Ok(s) => Ok(s),
                    Err(e) => Err(join_message("Failed to decode GPML file as UTF-8: ", e.as_str())),
                }
            },
            None => {
                let m = join_message("GPML file not found in bundle: ", path);
                Err(join_message(m.as_str(), " (tried multiple path variations)"))
            },
        }
    }

    /// Whether the bundle holds `path` under one of its lookup forms.
    pub fn gpml_file_exists(&self, path: &str) -> (r: bool)
        ensures
            r == (located(self@, path@) is Some),
    {
        self.locate(path).is_some()
    }

    /// The paths of the bundled files that end with ".gpml".
    pub fn list_gpml_files(&self) -> (r: Vec<String>)
        ensures
            crate::ast::strings_view(r@) == gpml_paths(self@),
    {
        let ext = chars_of(".gpml");
        let mut out: Vec<String> = Vec::new();
        let mut i: usize = 0;
        while i < self.files.len()
            invariant
                i <= self@.len(),
                self@.len() == self.files@.len(),
                ext@ == ".gpml"@,
                crate::ast::strings_view(out@) == gpml_paths(self@.subrange(0, i as int)),
            decreases self@.len() - i,
        {
            let ghost pre = self@.subrange(0, i as int);
            assert(self@.subrange(0, i + 1).drop_last() =~= pre);
            let name = &self.files[i].0;
            let cs = chars_of(name.as_str());
            if has_suffix(cs.as_slice(), ext.as_slice()) {
                let ghost before = crate::ast::strings_view(out@);
                out.push(name.clone());
                assert(crate::ast::strings_view(out@) =~= before.push(name@));
            }
            i = i + 1;
        }
        assert(self@.subrange(0, i as int) =~= self@);
        out
    }

    /// Resolves an import from `current_file` to a component file of the
    /// bundle: the path (see `bundle_import_base`) with ".gpml" added where
    /// missing, if the bundle holds it.
    pub fn resolve_component_path(&self, current_file: &str, import_path: &str) -> (r: Result<
        String,
        String,
    >)
        ensures
            match r {
                Ok(p) => bundle_resolution(self@, current_file@, import_path@) == Ok::<
                    Seq<char>,
                    Seq<char>,
                >(p@),
                Err(m) => bundle_resolution(self@, current_file@, import_path@) == Err::<
                    Seq<char>,
                    Seq<char>,
                >(m@),
            },
    {
        let p = bundle_import_file_path(current_file, import_path);
        if self.gpml_file_exists(p.as_str()) {
            Ok(p)
        } else {
            Err(join_message("Component file not found in bundle: ", p.as_str()))
        }
    }
}

/// Files read from the file system.
pub struct GPMLFileSource;

/// What resolving an import to the file `path` gives, given whether a file
/// exists there.
pub open spec fn import_outcome(path: Seq<char>, exists: bool) -> Result<Seq<char>, Seq<char>> {
    if exists {
        Ok(path)
    } else {
        Err("Component file not found: "@ + path)
    }
}

impl GPMLFileSource {
    /// Whether a file exists at `path` on the file system.
    pub fn file_exists(path: &str) -> bool {
        path_exists(path)
    }

    /// The answer to an import of the file `path`, given whether it exists.
    pub fn import_answer(path: String, exists: bool) -> (r: Result<String, String>)
        ensures
            match r {
                Ok(p) => import_outcome(path@, exists) == Ok::<Seq<char>, Seq<char>>(p@),
                Err(m) => import_outcome(path@, exists) == Err::<Seq<char>, Seq<char>>(m@),
            },
    {
        if exists {
            Ok(path)
        } else {
            Err(join_message("Component file not found: ", path.as_str()))
        }
    }

    /// Resolves an import from `current_file` to a file on the file system:
    /// the path (see `import_base`) with ".gpml" added where missing, `Ok`
    /// if a file exists there at the time of the check.
    pub fn resolve_component_import(current_file: &str, import_path: &str) -> (r: Result<
        String,
        String,
    >)
        ensures
            r matches Ok(q) ==> q@ == with_gpml_ext(import_base(current_file@, import_path@)),
            r matches Err(m) ==> m@ == "Component file not found: "@ + with_gpml_ext(
                import_base(current_file@, import_path@),
            ),
    {
        let p = import_file_path(current_file, import_path);
        let exists = Self::file_exists(p.as_str());
        Self::import_answer(p, exists)
    }
}

/// Loading a file of the bundle succeeds only where the bundle holds it,
/// and fails with the not-found message exactly where it does not.
pub proof fn law_load_agrees_with_exists(files: Seq<(Seq<char>, Seq<u8>)>, path: Seq<char>)
    ensures
        load_result(files, path) is Ok ==> located(files, path) is Some,
        located(files, path) is None <==> load_result(files, path) == Err::<Seq<char>, Seq<char>>(
            "GPML file not found in bundle: "@ + path + " (tried multiple path variations)"@,
        ),
{
    reveal_strlit("Failed to decode GPML file as UTF-8: ");
    reveal_strlit("GPML file not found in bundle: ");
    if let Some(p) = located(files, path) {
        if !valid_utf8(bundle_get(files, p).unwrap()) {
            let m1 = "Failed to decode GPML file as UTF-8: "@ + utf8_error_text(bundle_get(files, p).unwrap());
            let m2 = "GPML file not found in bundle: "@ + path + " (tried multiple path variations)"@;
            assert(m1[0] == 'F');
            assert(m2[0] == 'G');
        }
    }
}


/// `p` is a path of the bundle and ends with ".gpml".
pub open spec fn gpml_key(files: Seq<(Seq<char>, Seq<u8>)>, p: Seq<char>) -> bool {
    exists|k: int| #![trigger files[k]] 0 <= k < files.len() && files[k].0 == p && ends_with(p, ".gpml"@)
}

/// The GPML paths listed are keys of the bundle ending with ".gpml", and
/// every such key is listed.
proof fn lemma_gpml_paths(files: Seq<(Seq<char>, Seq<u8>)>)
    ensures
        forall|i: int| 0 <= i < gpml_paths(files).len() ==> gpml_key(files, #[trigger] gpml_paths(files)[i]),
        forall|k: int| 0 <= k < files.len() && ends_with(files[k].0, ".gpml"@) ==> gpml_paths(files).contains(
            #[trigger] files[k].0,
        ),
    decreases files.len(),
{
    if files.len() > 0 {
        let init = files.drop_last();
        let last = files[files.len() - 1].0;
        lemma_gpml_paths(init);
        let g = gpml_paths(files);
        let gi = gpml_paths(init);
        assert forall|i: int| 0 <= i < g.len() implies gpml_key(files, #[trigger] g[i]) by {
            if i < gi.len() {
                assert(g[i] == gi[i]);
                assert(gpml_key(init, gi[i]));
                let k = choose|k: int| #![trigger init[k]] 0 <= k < init.len() && init[k].0 == gi[i] && ends_with(gi[i], ".gpml"@);
                assert(files[k] == init[k]);
            } else {
                assert(g[i] == files[files.len() - 1].0);
                assert(ends_with(files[files.len() - 1].0, ".gpml"@));
            }
        }
        assert forall|k: int| 0 <= k < files.len() && ends_with(files[k].0, ".gpml"@) implies g.contains(
            #[trigger] files[k].0,
        ) by {
            if k < init.len() {
                assert(files[k] == init[k]);
                assert(gi.contains(init[k].0));
                let j = choose|j: int| 0 <= j < gi.len() && gi[j] == init[k].0;
                assert(g[j] == gi[j]);
            } else {
                assert(g[g.len() - 1] == last);
            }
        }
    }
}

/// The listed GPML files of a bundle: each a path of the bundle ending with
/// ".gpml", each listed once, and every such path listed; one without a
/// backslash is found by the bundle's lookup.
pub proof fn law_list_gpml_files(files: Seq<(Seq<char>, Seq<u8>)>)
    requires
        paths_unique(files),
    ensures
        forall|i: int, j: int| 0 <= i < j < gpml_paths(files).len() ==> #[trigger] gpml_paths(files)[i]
            != #[trigger] gpml_paths(files)[j],
        forall|i: int| 0 <= i < gpml_paths(files).len() ==> ends_with(#[trigger] gpml_paths(files)[i], ".gpml"@)
            && bundle_get(files, gpml_paths(files)[i]) is Some,
        forall|i: int| 0 <= i < gpml_paths(files).len() && !gpml_paths(files)[i].contains('\\') ==> located(
            files,
            #[trigger] gpml_paths(files)[i],
        ) is Some,
        forall|k: int| 0 <= k < files.len() && ends_with(files[k].0, ".gpml"@) ==> gpml_paths(files).contains(
            #[trigger] files[k].0,
        ),
    decreases files.len(),
{
    lemma_gpml_paths(files);
    let g = gpml_paths(files);
    assert forall|i: int| 0 <= i < g.len() implies ends_with(#[trigger] g[i], ".gpml"@) && bundle_get(files, g[i]) is Some by {
        assert(gpml_key(files, g[i]));
        lemma_bundle_get_none(files, g[i]);
    }
    assert forall|i: int| 0 <= i < g.len() && !g[i].contains('\\') implies located(files, #[trigger] g[i]) is Some by {
        let p = g[i];
        assert(normalized(p) =~= p) by {
            assert forall|x: int| 0 <= x < p.len() implies p[x] != '\\' by {
                if p[x] == '\\' {
                    assert(p.contains('\\'));
                }
            }
        }
        assert(lookup_forms(p)[0] == p);
    }
    if files.len() > 0 {
        let init = files.drop_last();
        assert(paths_unique(init)) by {
            assert forall|i: int, j: int| #![trigger init[i], init[j]] 0 <= i < j < init.len() implies init[i].0 != init[j].0 by {
                assert(init[i] == files[i] && init[j] == files[j]);
            }
        }
        law_list_gpml_files(init);
        lemma_gpml_paths(init);
        let gi = gpml_paths(init);
        let last = files[files.len() - 1].0;
        if ends_with(last, ".gpml"@) {
            assert forall|i: int| 0 <= i < gi.len() implies gi[i] != last by {
                assert(gpml_key(init, gi[i]));
                let k = choose|k: int| #![trigger init[k]] 0 <= k < init.len() && init[k].0 == gi[i] && ends_with(gi[i], ".gpml"@);
                assert(init[k] == files[k]);
                assert(files[k].0 != files[files.len() - 1].0);
            }
            assert forall|i: int, j: int| 0 <= i < j < g.len() implies #[trigger] g[i] != #[trigger] g[j] by {
                assert(g[i] == gi[i]);
                if j < gi.len() {
                    assert(g[j] == gi[j]);
                } else {
                    assert(g[j] == last);
                }
            }
        } else {
            assert(g == gi);
        }
    }
}

/// In a bundle whose files are all valid UTF-8, loading a path succeeds
/// exactly where the bundle's lookup finds it, with the text of the file
/// found; otherwise the message names the path.
pub proof fn law_load_valid_bundle(files: Seq<(Seq<char>, Seq<u8>)>, path: Seq<char>)
    requires
        forall|i: int| 0 <= i < files.len() ==> valid_utf8(#[trigger] files[i].1),
    ensures
        load_result(files, path) is Ok <==> located(files, path) is Some,
        located(files, path) matches Some(p) ==> (bundle_get(files, p) matches Some(v)
            && load_result(files, path) == Ok::<Seq<char>, Seq<char>>(vstd::utf8::decode_utf8(v))),
        located(files, path) is None ==> load_result(files, path) == Err::<Seq<char>, Seq<char>>(
            "GPML file not found in bundle: "@ + path + " (tried multiple path variations)"@,
        ),
{
    law_load_agrees_with_exists(files, path);
    if let Some(p) = located(files, path) {
        lemma_first_held(files, lookup_forms(normalized(path)));
        let v = bundle_get(files, p).unwrap();
        lemma_bundle_get_none(files, p);
        let k = choose|k: int| 0 <= k < files.len() && files[k] == (p, v);
        assert(valid_utf8(files[k].1));
    }
}

/// What the first held form is held with.
proof fn lemma_first_held(files: Seq<(Seq<char>, Seq<u8>)>, forms: Seq<Seq<char>>)
    ensures
        first_held(files, forms) matches Some(p) ==> bundle_get(files, p) is Some,
    decreases forms.len(),
{
    if forms.len() > 0 {
        lemma_first_held(files, forms.drop_first());
    }
}

} // verus!
