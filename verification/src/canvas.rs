//! The state of a GPML canvas: the document shown, the context it is
//! resolved in, the runtime variables, and the loading and error state.
//! Reading files and drawing are done around it.
use vstd::prelude::*;
use crate::ast::{AttrsView, AttributeValue, Attributes, Element, GPMLNode, NodeView, attr_insert, attrs_without_keys};
use crate::component::{ComponentResolver, ContextView, GPMLContext, comp_insert};
use crate::error::{GPMLError, error_text};
use crate::hot_reload::{HotReloadManager, PathListing, WatchEvent, reported_changes, watch_added};
use crate::ast::strings_view;
use crate::component::cached;
use crate::parser::{p_file, p_file_error_pos, line_at, column_at};
use crate::paths::{parent_of, path_parent};
use crate::parser_nom::{GPMLParser, n_parse};

verus! {

/// A canvas that shows a GPML document.
pub struct GPMLCanvas {
    /// Path to the main GPML file
    pub root_path: String,
    /// Current parsed document
    pub current_document: Option<GPMLNode>,
    /// Component resolution context
    pub context: Option<GPMLContext>,
    /// Component resolver for handling imports
    pub resolver: ComponentResolver,
    /// Hot reload state
    pub hot_reload_manager: HotReloadManager,
    /// Error state
    pub error: Option<String>,
    /// Loading state
    pub is_loading: bool,
    /// Runtime variables that can be injected
    pub runtime_vars: Attributes,
}

/// The definitions of a document, added in order to `cs`.
pub open spec fn add_all(cs: Seq<crate::ast::ComponentView>, defs: Seq<crate::ast::ComponentView>) -> Seq<
    crate::ast::ComponentView,
>
    decreases defs.len(),
{
    if defs.len() == 0 {
        cs
    } else {
        add_all(comp_insert(cs, defs[0]), defs.drop_first())
    }
}

/// `vars` with the bindings of `extra` set in order.
pub open spec fn set_all(vars: AttrsView, extra: AttrsView) -> AttrsView
    decreases extra.len(),
{
    if extra.len() == 0 {
        vars
    } else {
        set_all(attr_insert(vars, extra[0].0, extra[0].1), extra.drop_first())
    }
}

impl GPMLCanvas {
    /// A canvas for the file at `root_path`, with nothing loaded.
    pub fn new(root_path: &str) -> (c: Self)
        ensures
            c.root_path@ == root_path@,
            c.current_document is None,
            c.context is None,
            c.error is None,
            !c.is_loading,
            c.runtime_vars@ == Seq::<(Seq<char>, crate::ast::AttrView)>::empty(),
    {
        GPMLCanvas {
            root_path: String::from_str(root_path),
            current_document: None,
            context: None,
            resolver: ComponentResolver::new(),
            hot_reload_manager: HotReloadManager::new(),
            error: None,
            is_loading: false,
            runtime_vars: Attributes::new(),
        }
    }

    /// The canvas with the given runtime variables.
    pub fn with_variables(self, vars: Attributes) -> (c: Self)
        ensures
            c.runtime_vars@ == vars@,
            c.root_path == self.root_path,
    {
        let mut c = self;
        c.runtime_vars = vars;
        c
    }

    /// Binds a runtime variable.
    pub fn add_variable(&mut self, name: String, value: AttributeValue)
        ensures
            final(self).runtime_vars@ == attr_insert(old(self).runtime_vars@, name@, value@),
    {
        self.runtime_vars.insert(name, value);
    }

    /// Binds a runtime variable, also in the loaded context if there is
    /// one; tells whether there was.
    pub fn update_variable(&mut self, name: String, value: AttributeValue) -> (r: bool)
        ensures
            final(self).runtime_vars@ == attr_insert(old(self).runtime_vars@, name@, value@),
            r == old(self).context is Some,
            old(self).context matches Some(c) ==> (final(self).context matches Some(c2) && c2@
                == (ContextView { variables: attr_insert(c@.variables, name@, value@), ..c@ })),
            old(self).context is None ==> final(self).context is None,
    {
        self.runtime_vars.insert(name.clone(), value.duplicate());
        match self.context {
            Some(ref mut context) => {
                context.variables.insert(name, value);
                true
            },
            None => false,
        }
    }

    /// The runtime variables.
    pub fn get_variables(&self) -> (r: &Attributes)
        ensures
            r@ == self.runtime_vars@,
    {
        &self.runtime_vars
    }

    /// Forgets the runtime variables, in the loaded context too: only the
    /// context's bindings of other names stay.
    pub fn clear_variables(&mut self)
        ensures
            final(self).runtime_vars@ == Seq::<(Seq<char>, crate::ast::AttrView)>::empty(),
            old(self).context matches Some(c) ==> (final(self).context matches Some(c2) && c2@ == (
            ContextView { variables: attrs_without_keys(c@.variables, old(self).runtime_vars@), ..c@ })),
            old(self).context is None ==> final(self).context is None,
    {
        match self.context {
            Some(ref mut context) => {
                let kept = context.variables.without_keys_of(&self.runtime_vars);
                context.variables = kept;
            },
            None => {},
        }
        self.runtime_vars = Attributes::new();
    }

    /// The root element of the loaded document.
    pub fn get_root_element(&self) -> (r: Option<&Element>)
        ensures
            match self.current_document {
                Some(d) => match d@ {
                    NodeView::Document { root: Some(e), .. } => r matches Some(x) && x@ == e,
                    _ => r is None,
                },
                None => r is None,
            },
    {
        match &self.current_document {
            Some(GPMLNode::Document { root: Some(root), .. }) => Some(root),
            _ => None,
        }
    }

    /// Whether a document and its context are loaded.
    pub fn is_loaded(&self) -> (r: bool)
        ensures
            r == (self.current_document is Some && self.context is Some),
    {
        self.current_document.is_some() && self.context.is_some()
    }

    /// Whether a load is under way.
    pub fn is_loading(&self) -> (r: bool)
        ensures
            r == self.is_loading,
    {
        self.is_loading
    }

    /// The message of the last failed load.
    pub fn get_error(&self) -> (r: Option<&String>)
        ensures
            r == match self.error {
                Some(ref e) => Some(e),
                None => None::<&String>,
            },
    {
        self.error.as_ref()
    }

    /// Loads a document from text: it is parsed; a failure is kept as the
    /// canvas's error message and returned, with the shown document and
    /// context left as they were. Otherwise a new context
    /// (base path `base_path`, else ".") gets the runtime variables and
    /// the document's definitions, the resolver's cache is emptied, and
    /// the document and context are shown.
    pub fn load_from_string(&mut self, content: &str, base_path: Option<&str>) -> (r: Result<(), GPMLError>)
        ensures
            match n_parse(content@) {
                Err(m) => r matches Err(e) && (e matches GPMLError::ParseError { message, .. }
                    && message@ == m) && !final(self).is_loading && (final(self).error matches Some(
                    t,
                ) && t@ == error_text(e)) && final(self).current_document == old(self).current_document
                    && final(self).context == old(self).context,
                Ok(d) => r is Ok && !final(self).is_loading && final(self).error is None && (final(self).current_document matches Some(
                    doc,
                ) && doc@ == d) && (final(self).context matches Some(c) && c@.variables == set_all(
                    Seq::empty(),
                    old(self).runtime_vars@,
                ) && c@.components == match d {
                    NodeView::Document { components, .. } => add_all(Seq::empty(), components),
                    _ => Seq::empty(),
                }),
            },
    {
        self.is_loading = true;
        self.error = None;
        proof {
            reveal_strlit(".");
        }
        let base = match base_path {
            Some(b) => b,
            None => ".",
        };
        let mut context = GPMLContext::new(base);
        let ghost rv = self.runtime_vars@;
        let mut i: usize = 0;
        assert(rv.subrange(0, rv.len() as int) =~= rv);
        while i < self.runtime_vars.len()
            invariant
                i <= rv.len(),
                rv == self.runtime_vars@,
                rv == old(self).runtime_vars@,
                context@.components == Seq::<crate::ast::ComponentView>::empty(),
                set_all(context@.variables, rv.subrange(i as int, rv.len() as int)) == set_all(
                    Seq::empty(),
                    rv,
                ),
            decreases rv.len() - i,
        {
            let ghost rest = rv.subrange(i as int, rv.len() as int);
            assert(rest.drop_first() =~= rv.subrange(i + 1, rv.len() as int));
            let (k, v) = self.runtime_vars.entry(i);
            context.variables.insert(k.clone(), v.duplicate());
            i = i + 1;
        }
        let mut parser = GPMLParser::new();
        let document = match parser.parse(content) {
            Ok(d) => d,
            Err(e) => {
                self.error = Some(e.describe());
                self.is_loading = false;
                return Err(e);
            },
        };
        self.resolver.clear_cache();
        if let GPMLNode::Document { components, .. } = &document {
            let ghost cs = crate::ast::components_view(components@);
            proof {
                crate::component::lemma_components_view_len_pub(components@);
            }
            let mut j: usize = 0;
            assert(cs.subrange(0, cs.len() as int) =~= cs);
            while j < components.len()
                invariant
                    j <= components@.len(),
                    cs == crate::ast::components_view(components@),
                    cs.len() == components@.len(),
                    context@.variables == set_all(Seq::empty(), old(self).runtime_vars@),
                    add_all(context@.components, cs.subrange(j as int, cs.len() as int)) == add_all(
                        Seq::empty(),
                        cs,
                    ),
                decreases components@.len() - j,
            {
                let ghost rest = cs.subrange(j as int, cs.len() as int);
                proof {
                    crate::component::lemma_components_view_index_pub(components@, j as int);
                }
                assert(rest[0] == crate::ast::component_view(components@[j as int]));
                assert(rest.drop_first() =~= cs.subrange(j + 1, cs.len() as int));
                context.add_component(components[j].duplicate());
                j = j + 1;
            }
        }
        self.current_document = Some(document);
        self.context = Some(context);
        self.is_loading = false;
        Ok(())
    }
}


impl GPMLCanvas {
    /// Loading after what was read: a failed context is returned; otherwise
    /// the context gets the runtime variables and is kept, and then the
    /// file's text (`None` when it could not be read) is parsed into the
    /// document shown.
    fn load_internal(&mut self, context: Result<GPMLContext, GPMLError>, content: Option<&str>) -> (r: Result<(), GPMLError>)
        ensures
            final(self).runtime_vars@ == old(self).runtime_vars@,
            final(self).root_path@ == old(self).root_path@,
            final(self).error == old(self).error,
            final(self).is_loading == old(self).is_loading,
            match context {
                Err(e) => r == Err::<(), GPMLError>(e) && final(self).context == old(self).context
                    && final(self).current_document == old(self).current_document,
                Ok(c) => (final(self).context matches Some(c2) && c2@ == (ContextView {
                    variables: set_all(c@.variables, old(self).runtime_vars@),
                    ..c@
                })) && match content {
                    None => (r matches Err(GPMLError::FileNotFound { path }) && path@ == old(
                        self,
                    ).root_path@) && final(self).current_document == old(self).current_document,
                    Some(t) => match p_file(t@) {
                        Err(m) => (r matches Err(GPMLError::ParseError { message, line, column })
                            && message@ == m && line as int == line_at(t@, p_file_error_pos(t@)) && column as int
                            == column_at(t@, p_file_error_pos(t@))) && final(self).current_document
                            == old(self).current_document,
                        Ok(d) => r is Ok && (final(self).current_document matches Some(doc) && doc@
                            == d),
                    },
                },
            },
    {
        let mut context = match context {
            Ok(c) => c,
            Err(e) => {
                return Err(e);
            },
        };
        let ghost c0 = context@;
        let ghost rv = self.runtime_vars@;
        let mut i: usize = 0;
        assert(rv.subrange(0, rv.len() as int) =~= rv);
        while i < self.runtime_vars.len()
            invariant
                i <= rv.len(),
                rv == self.runtime_vars@,
                context@.components == c0.components,
                context@.base_path == c0.base_path,
                set_all(context@.variables, rv.subrange(i as int, rv.len() as int)) == set_all(
                    c0.variables,
                    rv,
                ),
            decreases rv.len() - i,
        {
            let ghost rest = rv.subrange(i as int, rv.len() as int);
            assert(rest.drop_first() =~= rv.subrange(i + 1, rv.len() as int));
            let (k, v) = self.runtime_vars.entry(i);
            context.variables.insert(k.clone(), v.duplicate());
            i = i + 1;
        }
        assert(rv.subrange(rv.len() as int, rv.len() as int) =~= Seq::<(Seq<char>, crate::ast::AttrView)>::empty());
        self.context = Some(context);
        let text = match content {
            Some(t) => t,
            None => {
                return Err(GPMLError::FileNotFound { path: self.root_path.clone() });
            },
        };
        match crate::parser::GPMLParser::parse_file_located(text) {
            Ok(d) => {
                self.current_document = Some(d);
                Ok(())
            },
            Err((m, line, column)) => Err(GPMLError::ParseError { message: m, line, column }),
        }
    }

    /// Loads the canvas's file from what was read for it: the context that
    /// loading the file and its imports gave, and the file's text (`None`
    /// when it could not be read). The context gets the runtime variables,
    /// the text is parsed into the document shown, and a failure is kept as
    /// the canvas's error message and returned.
    pub fn load(&mut self, context: Result<GPMLContext, GPMLError>, content: Option<&str>) -> (r: Result<(), GPMLError>)
        ensures
            !final(self).is_loading,
            final(self).runtime_vars@ == old(self).runtime_vars@,
            final(self).root_path@ == old(self).root_path@,
            match r {
                Ok(()) => final(self).error is None,
                Err(e) => final(self).error matches Some(m) && m@ == error_text(e),
            },
            match context {
                Err(e) => r == Err::<(), GPMLError>(e) && final(self).context == old(self).context
                    && final(self).current_document == old(self).current_document,
                Ok(c) => (final(self).context matches Some(c2) && c2@ == (ContextView {
                    variables: set_all(c@.variables, old(self).runtime_vars@),
                    ..c@
                })) && match content {
                    None => (r matches Err(GPMLError::FileNotFound { path }) && path@ == old(
                        self,
                    ).root_path@) && final(self).current_document == old(self).current_document,
                    Some(t) => match p_file(t@) {
                        Err(m) => (r matches Err(GPMLError::ParseError { message, line, column })
                            && message@ == m && line as int == line_at(t@, p_file_error_pos(t@)) && column as int
                            == column_at(t@, p_file_error_pos(t@))) && final(self).current_document
                            == old(self).current_document,
                        Ok(d) => r is Ok && (final(self).current_document matches Some(doc) && doc@
                            == d),
                    },
                },
            },
    {
        self.is_loading = true;
        self.error = None;
        match self.load_internal(context, content) {
            Ok(()) => {
                self.is_loading = false;
                Ok(())
            },
            Err(e) => {
                self.error = Some(e.describe());
                self.is_loading = false;
                Err(e)
            },
        }
    }

    /// Forgets what the resolver has cached, so that the load that follows
    /// reads every file again.
    pub fn reload(&mut self)
        ensures
            final(self).resolver.cache_model() == Seq::<(Seq<char>, NodeView)>::empty(),
            final(self).resolver.loading@ == old(self).resolver.loading@,
            final(self).current_document == old(self).current_document,
            final(self).context == old(self).context,
            final(self).runtime_vars@ == old(self).runtime_vars@,
    {
        self.resolver.clear_cache();
    }

    /// Starts watching the canvas's file: a file that does not exist is
    /// refused with `FileNotFound`; otherwise the file itself and the GPML
    /// files of the directory it lies in are watched, from what was found at
    /// each.
    pub fn start_hot_reload(&mut self, exists: bool, file_listing: PathListing, parent_listing: PathListing) -> (r: Result<(), GPMLError>)
        ensures
            !exists ==> (r matches Err(GPMLError::FileNotFound { path }) && path@ == old(self).root_path@)
                && final(self).hot_reload_manager == old(self).hot_reload_manager,
            exists ==> r is Ok && final(self).hot_reload_manager.active && strings_view(
                final(self).hot_reload_manager.watched_files@,
            ) == match parent_of(old(self).root_path@) {
                Some(p) => watch_added(
                    watch_added(
                        strings_view(old(self).hot_reload_manager.watched_files@),
                        old(self).root_path@,
                        file_listing,
                    ),
                    p,
                    parent_listing,
                ),
                None => watch_added(
                    strings_view(old(self).hot_reload_manager.watched_files@),
                    old(self).root_path@,
                    file_listing,
                ),
            },
            final(self).hot_reload_manager.last_change_times@ == old(self).hot_reload_manager.last_change_times@,
            final(self).hot_reload_manager.debounce_ms == old(self).hot_reload_manager.debounce_ms,
            final(self).root_path == old(self).root_path,
    {
        match self.hot_reload_manager.start_watching(self.root_path.clone(), exists, file_listing) {
            Ok(()) => {},
            Err(e) => {
                return Err(e);
            },
        }
        match path_parent(self.root_path.as_str()) {
            Some(p) => {
                self.hot_reload_manager.add_watched_file(p, parent_listing);
            },
            None => {},
        }
        Ok(())
    }

    /// Checks the file events for changes: what the resolver cached for a
    /// changed file is dropped, and the answer says whether the canvas is
    /// to be loaded again.
    pub fn check_and_reload(&mut self, events: &Vec<WatchEvent>, now: u64, dirs: &Vec<String>) -> (r: bool)
        ensures
            r == (reported_changes(old(self).hot_reload_manager, events@, now, dirs@).len() > 0),
            forall|q: Seq<char>|
                #![trigger cached(final(self).resolver.cache_model(), q)]
                cached(final(self).resolver.cache_model(), q) == if reported_changes(
                    old(self).hot_reload_manager,
                    events@,
                    now,
                    dirs@,
                ).contains(q) {
                    None
                } else {
                    cached(old(self).resolver.cache_model(), q)
                },
            final(self).resolver.loading@ == old(self).resolver.loading@,
            final(self).hot_reload_manager.active == old(self).hot_reload_manager.active,
            final(self).hot_reload_manager.watched_files@ == old(self).hot_reload_manager.watched_files@,
            final(self).current_document == old(self).current_document,
            final(self).context == old(self).context,
    {
        let ghost ch = reported_changes(self.hot_reload_manager, events@, now, dirs@);
        let changes = self.hot_reload_manager.check_for_changes(events, now, dirs);
        assert(strings_view(changes@) == ch);
        let ghost c0 = self.resolver.cache_model();
        let ghost hm = self.hot_reload_manager;
        let mut i: usize = 0;
        while i < changes.len()
            invariant
                i <= changes@.len(),
                self.hot_reload_manager == hm,
                hm.active == old(self).hot_reload_manager.active,
                hm.watched_files@ == old(self).hot_reload_manager.watched_files@,
                self.current_document == old(self).current_document,
                self.context == old(self).context,
                strings_view(changes@) == ch,
                self.resolver.loading@ == old(self).resolver.loading@,
                forall|q: Seq<char>|
                    #![trigger cached(self.resolver.cache_model(), q)]
                    cached(self.resolver.cache_model(), q) == if ch.take(i as int).contains(q) {
                        None
                    } else {
                        cached(c0, q)
                    },
            decreases changes@.len() - i,
        {
            let ghost before = self.resolver.cache_model();
            self.resolver.remove_from_cache(changes[i].as_str());
            proof {
                assert forall|q: Seq<char>|
                    #![trigger cached(self.resolver.cache_model(), q)]
                    cached(self.resolver.cache_model(), q) == if ch.take(i + 1).contains(q) {
                        None
                    } else {
                        cached(c0, q)
                    } by {
                    assert(ch[i as int] == changes@[i as int]@);
                    if q == ch[i as int] {
                        assert(ch.take(i + 1)[i as int] == q);
                    } else {
                        assert(cached(before, q) == cached(self.resolver.cache_model(), q));
                        if ch.take(i + 1).contains(q) {
                            let k = choose|k: int| 0 <= k < i + 1 && #[trigger] ch.take(i + 1)[k] == q;
                            assert(ch.take(i as int)[k] == q);
                        }
                        if ch.take(i as int).contains(q) {
                            let k = choose|k: int| 0 <= k < i && #[trigger] ch.take(i as int)[k] == q;
                            assert(ch.take(i + 1)[k] == q);
                        }
                    }
                }
            }
            i = i + 1;
        }
        assert(ch.take(changes@.len() as int) =~= ch);
        changes.len() > 0
    }
}

} // verus!
