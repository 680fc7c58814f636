//! The state of a JSON interface canvas: the root file, the interface
//! resolved from it, the resolver and the watched files.
use vstd::prelude::*;
use crate::json_ui::hot_reload::{HotReloadManager, watch_dir};
use crate::json_ui::parser::{UiError, UiParser, docs_map, docs_view, load_doc, resolve_comp};
use crate::json_ui::schema::{UiComponent, UiDocument};

verus! {

/// A canvas that shows the interface of a JSON document.
pub struct JsonCanvas {
    pub root_path: String,
    pub current_ui: Option<UiComponent>,
    pub hot_reload_manager: HotReloadManager,
    pub parser: UiParser,
}

impl JsonCanvas {
    /// A canvas for the document at `root_path`, references resolved
    /// relative to its directory ("." where it has none).
    pub fn new(root_path: &str) -> (c: Self)
        ensures
            c.root_path@ == root_path@,
            c.current_ui is None,
            c.parser.base_path@ == watch_dir(root_path@),
            c.parser.cached_docs() == Map::<Seq<char>, crate::json_ui::schema::DocModel>::empty(),
    {
        proof {
            reveal_strlit(".");
        }
        let base = match crate::paths::path_parent(root_path) {
            Some(d) => d,
            None => String::from_str("."),
        };
        JsonCanvas {
            root_path: String::from_str(root_path),
            current_ui: None,
            hot_reload_manager: HotReloadManager::new(),
            parser: UiParser::new(base.as_str()),
        }
    }

    /// Resolves the root document and shows it; a failure leaves what was
    /// shown.
    pub fn load(&mut self, files: &Vec<(String, UiDocument)>, fuel: u64) -> (r: Result<(), UiError>)
        ensures
            ({
                let (c, x) = load_doc(
                    old(self).parser.base_path@,
                    docs_map(docs_view(files@)),
                    old(self).parser.cached_docs(),
                    fuel as nat,
                    old(self).root_path@,
                );
                &&& final(self).parser.cached_docs() == c
                &&& match x {
                    Ok(u) => r is Ok && (final(self).current_ui matches Some(v) && v@ == u),
                    Err(e) => r matches Err(e2) && e2@ == e && final(self).current_ui
                        == old(self).current_ui,
                }
            }),
            final(self).root_path == old(self).root_path,
            final(self).parser.base_path == old(self).parser.base_path,
    {
        match self.parser.parse_document(self.root_path.as_str(), files, fuel) {
            Ok(ui) => {
                self.current_ui = Some(ui);
                Ok(())
            },
            Err(e) => Err(e),
        }
    }

    /// Empties the cache and loads again.
    pub fn reload(&mut self, files: &Vec<(String, UiDocument)>, fuel: u64) -> (r: Result<(), UiError>)
        ensures
            ({
                let (c, x) = load_doc(
                    old(self).parser.base_path@,
                    docs_map(docs_view(files@)),
                    Map::empty(),
                    fuel as nat,
                    old(self).root_path@,
                );
                &&& final(self).parser.cached_docs() == c
                &&& match x {
                    Ok(u) => r is Ok && (final(self).current_ui matches Some(v) && v@ == u),
                    Err(e) => r matches Err(e2) && e2@ == e && final(self).current_ui
                        == old(self).current_ui,
                }
            }),
    {
        self.parser.clear_cache();
        self.load(files, fuel)
    }

    /// Resolves a document given as a value and shows it.
    pub fn load_document(&mut self, document: &UiDocument, files: &Vec<(String, UiDocument)>, fuel: u64) -> (r: Result<(), UiError>)
        ensures
            ({
                let (c, x) = resolve_comp(
                    old(self).parser.base_path@,
                    docs_map(docs_view(files@)),
                    old(self).parser.cached_docs(),
                    fuel as nat,
                    document@.root,
                    Seq::empty(),
                );
                &&& final(self).parser.cached_docs() == c
                &&& match x {
                    Ok(u) => r is Ok && (final(self).current_ui matches Some(v) && v@ == u),
                    Err(e) => r matches Err(e2) && e2@ == e && final(self).current_ui
                        == old(self).current_ui,
                }
            }),
    {
        match self.parser.resolve_component(&document.root, files, fuel) {
            Ok(ui) => {
                self.current_ui = Some(ui);
                Ok(())
            },
            Err(e) => Err(e),
        }
    }

    /// Reloads when the watched files changed; tells whether it did.
    pub fn check_and_reload(&mut self, files: &Vec<(String, UiDocument)>, fuel: u64) -> (r: Result<bool, UiError>)
        ensures
            r == Ok::<bool, UiError>(false),
            final(self).current_ui == old(self).current_ui,
            *final(self) == *old(self),
    {
        let changes = self.hot_reload_manager.check_for_changes();
        if changes.len() > 0 {
            self.parser.clear_cache();
            match self.load(files, fuel) {
                Ok(()) => {},
                Err(e) => {
                    return Err(e);
                },
            }
            return Ok(true);
        }
        Ok(false)
    }

    /// Starts watching the root file.
    pub fn start_hot_reload(&mut self) -> (r: Result<(), String>)
        ensures
            r is Ok,
            final(self).hot_reload_manager.watcher matches Some(w) && w.watched() == set![old(self).root_path@],
            final(self).current_ui == old(self).current_ui,
    {
        self.hot_reload_manager.start_watching(self.root_path.as_str())
    }

    /// Whether an interface is shown.
    pub fn is_loaded(&self) -> (r: bool)
        ensures
            r == self.current_ui is Some,
    {
        self.current_ui.is_some()
    }

    /// The interface shown.
    pub fn get_ui(&self) -> (r: Option<&UiComponent>)
        ensures
            r == match self.current_ui {
                Some(ref u) => Some(u),
                None => None::<&UiComponent>,
            },
    {
        self.current_ui.as_ref()
    }
}

} // verus!
