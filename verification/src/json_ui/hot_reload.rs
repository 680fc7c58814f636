//! The set of files that a JSON interface depends on, and the watcher that
//! would report their changes (it reports none yet).
use vstd::prelude::*;
use crate::ast::strings_view;
use crate::paths::{parent_of, path_parent, set_insert, set_remove};

verus! {

/// A watcher over a set of file paths.
pub struct HotReloadWatcher {
    pub watched_files: Vec<String>,
}

impl HotReloadWatcher {
    /// The watched paths.
    pub open spec fn watched(&self) -> Set<Seq<char>> {
        strings_view(self.watched_files@).to_set()
    }

    /// A watcher with no files; creating it does not fail.
    pub fn new() -> (r: Result<Self, String>)
        ensures
            r is Ok,
            r matches Ok(w) ==> w.watched() == Set::<Seq<char>>::empty(),
    {
        let w = HotReloadWatcher { watched_files: Vec::new() };
        assert(w.watched() =~= Set::<Seq<char>>::empty());
        Ok(w)
    }

    /// Accepts a directory to watch; it changes nothing and does not fail.
    pub fn watch_directory(&mut self, path: &str) -> (r: Result<(), String>)
        ensures
            r is Ok,
            *final(self) == *old(self),
    {
        Ok(())
    }

    /// Adds `path` to the watched files.
    pub fn add_file(&mut self, path: String)
        ensures
            final(self).watched() == old(self).watched().insert(path@),
    {
        set_insert(&mut self.watched_files, path);
    }

    /// Removes `path` from the watched files.
    pub fn remove_file(&mut self, path: &str)
        ensures
            final(self).watched() == old(self).watched().remove(path@),
    {
        set_remove(&mut self.watched_files, path);
    }

    /// The files changed since the last poll: none are reported.
    pub fn poll_changes(&self) -> (r: Vec<String>)
        ensures
            r@.len() == 0,
    {
        Vec::new()
    }
}

/// The directory watched for a root file: its parent, or "." where it has
/// none.
pub open spec fn watch_dir(root: Seq<char>) -> Seq<char> {
    match parent_of(root) {
        Some(d) => d,
        None => seq!['.'],
    }
}

/// The files an interface depends on, and the watcher once started.
pub struct HotReloadManager {
    pub watcher: Option<HotReloadWatcher>,
    pub dependencies: Vec<String>,
}

impl HotReloadManager {
    /// The dependency paths.
    pub open spec fn deps(&self) -> Set<Seq<char>> {
        strings_view(self.dependencies@).to_set()
    }

    /// No watcher and no dependencies.
    pub fn new() -> (m: Self)
        ensures
            m.watcher is None,
            m.deps() == Set::<Seq<char>>::empty(),
    {
        let m = HotReloadManager { watcher: None, dependencies: Vec::new() };
        assert(m.deps() =~= Set::<Seq<char>>::empty());
        m
    }

    /// Starts a new watcher over the root file's directory that watches the
    /// root file alone, in place of any earlier one.
    pub fn start_watching(&mut self, root_path: &str) -> (r: Result<(), String>)
        ensures
            r is Ok,
            final(self).watcher matches Some(w) && w.watched() == set![root_path@],
            final(self).dependencies == old(self).dependencies,
    {
        let mut watcher = match HotReloadWatcher::new() {
            Ok(w) => w,
            Err(e) => {
                return Err(e);
            },
        };
        let parent = match path_parent(root_path) {
            Some(d) => d,
            None => String::from_str("."),
        };
        match watcher.watch_directory(parent.as_str()) {
            Ok(()) => {},
            Err(e) => {
                return Err(e);
            },
        }
        watcher.add_file(String::from_str(root_path));
        assert(watcher.watched() =~= set![root_path@]);
        self.watcher = Some(watcher);
        Ok(())
    }

    /// Adds a dependency, and has the watcher, if started, watch it.
    pub fn add_dependency(&mut self, path: String)
        ensures
            final(self).deps() == old(self).deps().insert(path@),
            old(self).watcher is None ==> final(self).watcher is None,
            old(self).watcher matches Some(w) ==> (final(self).watcher matches Some(w2)
                && w2.watched() == w.watched().insert(path@)),
    {
        set_insert(&mut self.dependencies, path.clone());
        match self.watcher {
            Some(ref mut w) => {
                w.add_file(path);
            },
            None => {},
        }
    }

    /// Removes a dependency, from the watcher too if started.
    pub fn remove_dependency(&mut self, path: &str)
        ensures
            final(self).deps() == old(self).deps().remove(path@),
            old(self).watcher is None ==> final(self).watcher is None,
            old(self).watcher matches Some(w) ==> (final(self).watcher matches Some(w2)
                && w2.watched() == w.watched().remove(path@)),
    {
        set_remove(&mut self.dependencies, path);
        match self.watcher {
            Some(ref mut w) => {
                w.remove_file(path);
            },
            None => {},
        }
    }

    /// The files changed: what the watcher reports, none without one.
    pub fn check_for_changes(&self) -> (r: Vec<String>)
        ensures
            r@.len() == 0,
    {
        match self.watcher {
            Some(ref w) => w.poll_changes(),
            None => Vec::new(),
        }
    }

    /// Forgets all dependencies. The dependencies are emptied before the
    /// watcher is told to drop them, so the watcher keeps watching them.
    pub fn clear_dependencies(&mut self)
        ensures
            final(self).deps() == Set::<Seq<char>>::empty(),
            final(self).watcher == old(self).watcher,
    {
        self.dependencies.clear();
        assert(self.deps() =~= Set::<Seq<char>>::empty());
        if let Some(w) = &mut self.watcher {
            let ghost w0 = *w;
            let mut i: usize = 0;
            while i < self.dependencies.len()
                invariant
                    self.dependencies@.len() == 0,
                    *w == w0,
                decreases self.dependencies@.len() - i,
            {
                w.remove_file(self.dependencies[i].as_str());
                i = i + 1;
            }
        }
    }
}

} // verus!
