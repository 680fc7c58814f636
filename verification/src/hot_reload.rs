//! Hot reloading of GPML files: which file events count as changes of a
//! watched file, with a debounce per file, and the change notifications.
//! The watching itself (a file-system watcher, the clock, the directory
//! listings) is done around this state, which takes what it found as values.
use vstd::prelude::*;
use std::time::SystemTime;
use crate::ast::strings_view;
use crate::paths::{extension_of, path_extension, path_within, path_starts_with, contains_str, set_insert, set_remove};
use crate::text::str_eq;
use crate::error::{GPMLError, GPMLResult};

verus! {

#[verifier::external_type_specification]
#[verifier::external_body]
pub struct ExSystemTime(std::time::SystemTime);

/// `SystemTime::now`: the clock's reading, of which nothing is known.
#[verifier::external_body]
fn system_now() -> SystemTime {
    SystemTime::now()
}

/// What happened to a file.
#[derive(Debug, Clone, Copy, PartialEq, Eq, Structural)]
pub enum FileChangeType {
    Created,
    Modified,
    Deleted,
}

/// A change of a GPML file, stamped with the time it was noticed.
pub struct FileChangeEvent {
    pub path: String,
    pub timestamp: SystemTime,
    pub change_type: FileChangeType,
}

impl FileChangeEvent {
    /// A change of `path`, stamped now.
    pub fn new(path: String, change_type: FileChangeType) -> (e: Self)
        ensures
            e.path@ == path@,
            e.change_type == change_type,
    {
        FileChangeEvent { path, timestamp: system_now(), change_type }
    }
}

/// The kinds of file-system events that are told apart.
#[derive(Debug, Clone, Copy, PartialEq, Eq, Structural)]
pub enum WatchEventKind {
    Create,
    Modify,
    Other,
}

/// A file-system event: its kind and the paths it concerns.
pub struct WatchEvent {
    pub kind: WatchEventKind,
    pub paths: Vec<String>,
}

/// What was found at a path that is to be watched: a file, a directory with
/// the paths of its entries, or neither.
pub enum PathListing {
    File,
    Directory(Vec<String>),
    Neither,
}

/// The watched paths after adding what was found at `path`: the file
/// itself, once; the GPML files among a directory's entries; nothing for
/// neither.
pub open spec fn watch_added(w: Seq<Seq<char>>, path: Seq<char>, listing: PathListing) -> Seq<Seq<char>> {
    match listing {
        PathListing::File => if w.contains(path) {
            w
        } else {
            w.push(path)
        },
        PathListing::Directory(entries) => add_gpml_entries(w, strings_view(entries@)),
        PathListing::Neither => w,
    }
}

/// The times of the last change of each file, as a map: a later entry for
/// a path overrides an earlier one.
pub open spec fn times_map(s: Seq<(Seq<char>, u64)>) -> Map<Seq<char>, u64>
    decreases s.len(),
{
    if s.len() == 0 {
        Map::empty()
    } else {
        times_map(s.drop_last()).insert(s.last().0, s.last().1)
    }
}

/// The entries of `s` whose path is not `p`, in order.
pub open spec fn without_key(s: Seq<(Seq<char>, u64)>, p: Seq<char>) -> Seq<(Seq<char>, u64)>
    decreases s.len(),
{
    if s.len() == 0 {
        s
    } else if s.last().0 == p {
        without_key(s.drop_last(), p)
    } else {
        without_key(s.drop_last(), p).push(s.last())
    }
}

proof fn lemma_without_key(s: Seq<(Seq<char>, u64)>, p: Seq<char>)
    ensures
        times_map(without_key(s, p)) == times_map(s).remove(p),
    decreases s.len(),
{
    if s.len() > 0 {
        lemma_without_key(s.drop_last(), p);
        if s.last().0 != p {
            assert(without_key(s, p).drop_last() =~= without_key(s.drop_last(), p));
            assert(times_map(without_key(s, p)) =~= times_map(s).remove(p));
        } else {
            assert(times_map(without_key(s, p)) =~= times_map(s).remove(p));
        }
    } else {
        assert(times_map(s).remove(p) =~= Map::empty());
    }
}

/// The view of the times paired as strings and numbers.
pub open spec fn times_view(s: Seq<(String, u64)>) -> Seq<(Seq<char>, u64)> {
    Seq::new(s.len(), |i: int| (s[i].0@, s[i].1))
}

/// Whether `p` names a GPML file by its extension.
pub open spec fn is_gpml_path(p: Seq<char>) -> bool {
    extension_of(p) == Some("gpml"@)
}

/// Whether one of `dirs` that is watched holds `p` under it.
pub open spec fn under_watched_dir(watched: Set<Seq<char>>, dirs: Seq<Seq<char>>, p: Seq<char>) -> bool {
    exists|i: int| 0 <= i < dirs.len() && watched.contains(dirs[i]) && path_within(p, #[trigger] dirs[i])
}

/// Whether a change of `p` concerns the watch: `p` is a GPML file that is
/// watched itself or lies under a watched directory (`dirs` lists the
/// watched paths that are directories).
pub open spec fn watches(watched: Set<Seq<char>>, dirs: Seq<Seq<char>>, p: Seq<char>) -> bool {
    is_gpml_path(p) && (watched.contains(p) || under_watched_dir(watched, dirs, p))
}

/// Whether a change of `p` at `now` passes the debounce: its last change,
/// if any, lies at least `debounce` milliseconds back, or after `now`.
pub open spec fn passes_debounce(times: Map<Seq<char>, u64>, debounce: u64, p: Seq<char>, now: u64) -> bool {
    times.dom().contains(p) ==> (now < times[p] || now - times[p] >= debounce)
}

/// The first of `paths` whose change counts.
pub open spec fn first_change(
    watched: Set<Seq<char>>,
    dirs: Seq<Seq<char>>,
    times: Map<Seq<char>, u64>,
    debounce: u64,
    paths: Seq<Seq<char>>,
    now: u64,
) -> Option<Seq<char>>
    decreases paths.len(),
{
    if paths.len() == 0 {
        None
    } else if watches(watched, dirs, paths[0]) && passes_debounce(times, debounce, paths[0], now) {
        Some(paths[0])
    } else {
        first_change(watched, dirs, times, debounce, paths.drop_first(), now)
    }
}

/// The path that an event reports as changed, if any.
pub open spec fn event_change(
    watched: Set<Seq<char>>,
    dirs: Seq<Seq<char>>,
    times: Map<Seq<char>, u64>,
    debounce: u64,
    kind: WatchEventKind,
    paths: Seq<Seq<char>>,
    now: u64,
) -> Option<Seq<char>> {
    match kind {
        WatchEventKind::Create | WatchEventKind::Modify => first_change(
            watched,
            dirs,
            times,
            debounce,
            paths,
            now,
        ),
        WatchEventKind::Other => None,
    }
}

/// The times after an event that reported `c`.
pub open spec fn times_after(times: Map<Seq<char>, u64>, c: Option<Seq<char>>, now: u64) -> Map<
    Seq<char>,
    u64,
> {
    match c {
        Some(p) => times.insert(p, now),
        None => times,
    }
}

/// An event as its kind and paths.
pub open spec fn event_view(e: WatchEvent) -> (WatchEventKind, Seq<Seq<char>>) {
    (e.kind, strings_view(e.paths@))
}

/// Processing `events` in order from the times `times` and the list of
/// changed paths `changed`: each reported path is added to the list once.
pub open spec fn changes_after(
    watched: Set<Seq<char>>,
    dirs: Seq<Seq<char>>,
    debounce: u64,
    times: Map<Seq<char>, u64>,
    changed: Seq<Seq<char>>,
    events: Seq<(WatchEventKind, Seq<Seq<char>>)>,
    now: u64,
) -> (Map<Seq<char>, u64>, Seq<Seq<char>>)
    decreases events.len(),
{
    if events.len() == 0 {
        (times, changed)
    } else {
        let c = event_change(watched, dirs, times, debounce, events[0].0, events[0].1, now);
        let changed2 = match c {
            Some(p) => if changed.contains(p) {
                changed
            } else {
                changed.push(p)
            },
            None => changed,
        };
        changes_after(
            watched,
            dirs,
            debounce,
            times_after(times, c, now),
            changed2,
            events.drop_first(),
            now,
        )
    }
}

/// The paths of a directory listing that name GPML files, added in order to
/// the set `w`.
pub open spec fn add_gpml_entries(w: Seq<Seq<char>>, entries: Seq<Seq<char>>) -> Seq<Seq<char>>
    decreases entries.len(),
{
    if entries.len() == 0 {
        w
    } else {
        let w2 = if is_gpml_path(entries[0]) && !w.contains(entries[0]) {
            w.push(entries[0])
        } else {
            w
        };
        add_gpml_entries(w2, entries.drop_first())
    }
}

/// The state of a hot reload: whether a watcher runs, the watched paths,
/// when each file last counted as changed (in milliseconds), and the
/// debounce.
pub struct HotReloadManager {
    pub active: bool,
    pub watched_files: Vec<String>,
    pub last_change_times: Vec<(String, u64)>,
    pub debounce_ms: u64,
}

impl HotReloadManager {
    /// The watched paths.
    pub open spec fn watched(&self) -> Set<Seq<char>> {
        strings_view(self.watched_files@).to_set()
    }

    /// The last change time of each file.
    pub open spec fn times(&self) -> Map<Seq<char>, u64> {
        times_map(times_view(self.last_change_times@))
    }

    /// No watcher, nothing watched, a debounce of 100 ms.
    pub fn new() -> (m: Self)
        ensures
            !m.active,
            m.watched() == Set::<Seq<char>>::empty(),
            m.times() == Map::<Seq<char>, u64>::empty(),
            m.debounce_ms == 100,
    {
        let m = HotReloadManager {
            active: false,
            watched_files: Vec::new(),
            last_change_times: Vec::new(),
            debounce_ms: 100,
        };
        assert(m.watched() =~= Set::<Seq<char>>::empty());
        assert(times_view(m.last_change_times@) =~= Seq::<(Seq<char>, u64)>::empty());
        m
    }

    /// The same state with another debounce.
    pub fn with_debounce_duration(self, debounce_ms: u64) -> (m: Self)
        ensures
            m.debounce_ms == debounce_ms,
            m.active == self.active,
            m.watched_files@ == self.watched_files@,
            m.last_change_times@ == self.last_change_times@,
    {
        let mut m = self;
        m.debounce_ms = debounce_ms;
        m
    }

    /// Records that a watcher now runs.
    pub fn set_watching(&mut self)
        ensures
            final(self).active,
            final(self).watched_files@ == old(self).watched_files@,
            final(self).last_change_times@ == old(self).last_change_times@,
            final(self).debounce_ms == old(self).debounce_ms,
    {
        self.active = true;
    }

    /// Starts watching `path`: a path that does not exist is refused with
    /// `FileNotFound`; otherwise a watcher runs and what was found there is
    /// added to the watch.
    pub fn start_watching(&mut self, path: String, exists: bool, listing: PathListing) -> (r: GPMLResult<()>)
        ensures
            !exists ==> (r matches Err(GPMLError::FileNotFound { path: p }) && p@ == path@) && *final(self)
                == *old(self),
            exists ==> r is Ok && final(self).active && strings_view(final(self).watched_files@) == watch_added(
                strings_view(old(self).watched_files@),
                path@,
                listing,
            ) && final(self).last_change_times@ == old(self).last_change_times@ && final(self).debounce_ms
                == old(self).debounce_ms,
    {
        if !exists {
            return Err(GPMLError::FileNotFound { path });
        }
        self.set_watching();
        self.add_watched_file(path, listing);
        Ok(())
    }

    /// Adds what was found at `path` to the watch: the file itself, or the
    /// GPML files among a directory's entries; nothing for neither.
    pub fn add_watched_file(&mut self, path: String, listing: PathListing)
        ensures
            strings_view(final(self).watched_files@) == watch_added(
                strings_view(old(self).watched_files@),
                path@,
                listing,
            ),
            final(self).active == old(self).active,
            final(self).last_change_times@ == old(self).last_change_times@,
            final(self).debounce_ms == old(self).debounce_ms,
    {
        match listing {
            PathListing::File => {
                set_insert(&mut self.watched_files, path);
            },
            PathListing::Directory(entries) => {
                let ghost es = strings_view(entries@);
                let mut i: usize = 0;
                assert(es.subrange(0, es.len() as int) =~= es);
                while i < entries.len()
                    invariant
                        i <= entries@.len(),
                        es == strings_view(entries@),
                        add_gpml_entries(strings_view(self.watched_files@), es.subrange(i as int, es.len() as int))
                            == add_gpml_entries(strings_view(old(self).watched_files@), es),
                        self.active == old(self).active,
                        self.last_change_times@ == old(self).last_change_times@,
                        self.debounce_ms == old(self).debounce_ms,
                    decreases entries@.len() - i,
                {
                    let ghost rest = es.subrange(i as int, es.len() as int);
                    assert(rest[0] == entries@[i as int]@);
                    assert(rest.drop_first() =~= es.subrange(i + 1, es.len() as int));
                    if self.is_gpml_file(entries[i].as_str()) {
                        set_insert(&mut self.watched_files, entries[i].clone());
                    }
                    i = i + 1;
                }
                assert(es.subrange(i as int, es.len() as int) =~= Seq::<Seq<char>>::empty());
            },
            PathListing::Neither => {},
        }
    }

    /// Whether `p` names a GPML file.
    fn is_gpml_file(&self, p: &str) -> (r: bool)
        ensures
            r == is_gpml_path(p@),
    {
        match path_extension(p) {
            Some(e) => str_eq(e.as_str(), "gpml"),
            None => false,
        }
    }

    /// Whether a change of `path` concerns the watch; `dirs` lists the
    /// watched paths that are directories.
    pub fn is_watched_file(&self, path: &str, dirs: &Vec<String>) -> (r: bool)
        ensures
            r == watches(self.watched(), strings_view(dirs@), path@),
    {
        if !self.is_gpml_file(path) {
            return false;
        }
        if contains_str(&self.watched_files, path) {
            return true;
        }
        assert(!self.watched().contains(path@));
        let ghost ds = strings_view(dirs@);
        let mut i: usize = 0;
        while i < dirs.len()
            invariant
                i <= dirs@.len(),
                ds == strings_view(dirs@),
                is_gpml_path(path@),
                !self.watched().contains(path@),
                forall|j: int|
                    0 <= j < i ==> !(self.watched().contains(ds[j]) && path_within(path@, #[trigger] ds[j])),
            decreases dirs@.len() - i,
        {
            if contains_str(&self.watched_files, dirs[i].as_str()) && path_starts_with(path, dirs[i].as_str()) {
                assert(ds[i as int] == dirs@[i as int]@);
                assert(self.watched().contains(ds[i as int]));
                assert(under_watched_dir(self.watched(), ds, path@));
                return true;
            }
            i = i + 1;
        }
        false
    }

    /// The time of the last counted change of `path`.
    fn last_change(&self, path: &str) -> (r: Option<u64>)
        ensures
            match r {
                Some(t) => self.times().dom().contains(path@) && self.times()[path@] == t,
                None => !self.times().dom().contains(path@),
            },
    {
        let ghost tv = times_view(self.last_change_times@);
        let mut i: usize = self.last_change_times.len();
        assert(tv.subrange(0, i as int) =~= tv);
        while i > 0
            invariant
                i <= tv.len(),
                tv == times_view(self.last_change_times@),
                times_map(tv).dom().contains(path@) <==> times_map(tv.subrange(0, i as int)).dom().contains(path@),
                times_map(tv).dom().contains(path@) ==> times_map(tv)[path@] == times_map(tv.subrange(0, i as int))[path@],
            decreases i,
        {
            let ghost pre = tv.subrange(0, i as int);
            assert(pre.drop_last() =~= tv.subrange(0, i - 1));
            if str_eq(self.last_change_times[i - 1].0.as_str(), path) {
                assert(pre.last().0 == path@);
                return Some(self.last_change_times[i - 1].1);
            }
            i = i - 1;
        }
        assert(tv.subrange(0, 0) =~= Seq::<(Seq<char>, u64)>::empty());
        None
    }

    /// Whether a change of `path` at `now` passes the debounce.
    pub fn should_process_change(&self, path: &str, now: u64) -> (r: bool)
        ensures
            r == passes_debounce(self.times(), self.debounce_ms, path@, now),
    {
        match self.last_change(path) {
            Some(last) => {
                if now >= last {
                    now - last >= self.debounce_ms
                } else {
                    true
                }
            },
            None => true,
        }
    }

    /// Records `now` as the last change of `path`.
    fn record_change(&mut self, path: String, now: u64)
        ensures
            final(self).times() == old(self).times().insert(path@, now),
            final(self).active == old(self).active,
            final(self).watched_files@ == old(self).watched_files@,
            final(self).debounce_ms == old(self).debounce_ms,
    {
        self.forget_times_of(path.as_str());
        let ghost before = times_view(self.last_change_times@);
        let ghost pv = path@;
        self.last_change_times.push((path, now));
        assert(times_view(self.last_change_times@) =~= before.push((pv, now)));
        assert(times_view(self.last_change_times@).drop_last() =~= before);
    }

    /// Drops the recorded times of `path`.
    fn forget_times_of(&mut self, path: &str)
        ensures
            final(self).times() == old(self).times().remove(path@),
            final(self).active == old(self).active,
            final(self).watched_files@ == old(self).watched_files@,
            final(self).debounce_ms == old(self).debounce_ms,
    {
        let ghost tv = times_view(self.last_change_times@);
        let mut out: Vec<(String, u64)> = Vec::new();
        let mut i: usize = 0;
        while i < self.last_change_times.len()
            invariant
                i <= tv.len(),
                tv == times_view(self.last_change_times@),
                self.last_change_times@ == old(self).last_change_times@,
                times_view(out@) == without_key(tv.subrange(0, i as int), path@),
            decreases tv.len() - i,
        {
            let ghost pre = tv.subrange(0, i as int);
            assert(tv.subrange(0, i + 1).drop_last() =~= pre);
            assert(tv.subrange(0, i + 1).last() == tv[i as int]);
            if !str_eq(self.last_change_times[i].0.as_str(), path) {
                let ghost before = times_view(out@);
                let k = self.last_change_times[i].0.clone();
                let t = self.last_change_times[i].1;
                out.push((k, t));
                assert(times_view(out@) =~= before.push(tv[i as int]));
            }
            i = i + 1;
        }
        assert(tv.subrange(0, i as int) =~= tv);
        proof {
            lemma_without_key(tv, path@);
        }
        self.last_change_times = out;
    }

    /// The first of `paths` whose change counts.
    fn first_counted(&self, paths: &Vec<String>, now: u64, dirs: &Vec<String>) -> (r: Option<String>)
        ensures
            match r {
                Some(p) => first_change(
                    self.watched(),
                    strings_view(dirs@),
                    self.times(),
                    self.debounce_ms,
                    strings_view(paths@),
                    now,
                ) == Some(p@),
                None => first_change(
                    self.watched(),
                    strings_view(dirs@),
                    self.times(),
                    self.debounce_ms,
                    strings_view(paths@),
                    now,
                ) is None,
            },
    {
        let ghost ps = strings_view(paths@);
        let ghost whole = first_change(self.watched(), strings_view(dirs@), self.times(), self.debounce_ms, ps, now);
        let mut i: usize = 0;
        assert(ps.subrange(0, ps.len() as int) =~= ps);
        while i < paths.len()
            invariant
                i <= paths@.len(),
                ps == strings_view(paths@),
                whole == first_change(self.watched(), strings_view(dirs@), self.times(), self.debounce_ms, ps, now),
                first_change(
                    self.watched(),
                    strings_view(dirs@),
                    self.times(),
                    self.debounce_ms,
                    ps.subrange(i as int, ps.len() as int),
                    now,
                ) == whole,
            decreases paths@.len() - i,
        {
            let ghost rest = ps.subrange(i as int, ps.len() as int);
            assert(rest[0] == paths@[i as int]@);
            assert(rest.drop_first() =~= ps.subrange(i + 1, ps.len() as int));
            if self.is_watched_file(paths[i].as_str(), dirs) && self.should_process_change(paths[i].as_str(), now) {
                return Some(paths[i].clone());
            }
            i = i + 1;
        }
        None
    }

    /// Handles one event at `now`: a creation or modification of a watched
    /// GPML file that passes the debounce is recorded and its path returned
    /// (the first such path of the event); anything else changes nothing.
    pub fn process_event(&mut self, event: &WatchEvent, now: u64, dirs: &Vec<String>) -> (r: Option<String>)
        ensures
            ({
                let c = event_change(
                    old(self).watched(),
                    strings_view(dirs@),
                    old(self).times(),
                    old(self).debounce_ms,
                    event.kind,
                    strings_view(event.paths@),
                    now,
                );
                &&& match r {
                    Some(p) => c == Some(p@),
                    None => c is None,
                }
                &&& final(self).times() == times_after(old(self).times(), c, now)
            }),
            final(self).active == old(self).active,
            final(self).watched_files@ == old(self).watched_files@,
            final(self).debounce_ms == old(self).debounce_ms,
    {
        match event.kind {
            WatchEventKind::Create | WatchEventKind::Modify => {
                match self.first_counted(&event.paths, now, dirs) {
                    Some(p) => {
                        self.record_change(p.clone(), now);
                        Some(p)
                    },
                    None => None,
                }
            },
            WatchEventKind::Other => None,
        }
    }

    /// The GPML files changed according to `events`, each listed once, in
    /// the order first reported; none while no watcher runs.
    pub fn check_for_changes(&mut self, events: &Vec<WatchEvent>, now: u64, dirs: &Vec<String>) -> (r: Vec<
        String,
    >)
        ensures
            !old(self).active ==> r@.len() == 0 && final(self).times() == old(self).times(),
            old(self).active ==> changes_after(
                old(self).watched(),
                strings_view(dirs@),
                old(self).debounce_ms,
                old(self).times(),
                Seq::empty(),
                Seq::new(events@.len(), |i: int| event_view(events@[i])),
                now,
            ) == (final(self).times(), strings_view(r@)),
            final(self).active == old(self).active,
            final(self).watched_files@ == old(self).watched_files@,
            final(self).debounce_ms == old(self).debounce_ms,
    {
        let mut changed: Vec<String> = Vec::new();
        if !self.active {
            return changed;
        }
        let ghost evs = Seq::new(events@.len(), |i: int| event_view(events@[i]));
        let ghost whole = changes_after(
            self.watched(),
            strings_view(dirs@),
            self.debounce_ms,
            self.times(),
            Seq::empty(),
            evs,
            now,
        );
        let mut i: usize = 0;
        assert(evs.subrange(0, evs.len() as int) =~= evs);
        assert(strings_view(changed@) =~= Seq::<Seq<char>>::empty());
        while i < events.len()
            invariant
                i <= events@.len(),
                evs == Seq::new(events@.len(), |i: int| event_view(events@[i])),
                self.active == old(self).active,
                self.watched_files@ == old(self).watched_files@,
                self.debounce_ms == old(self).debounce_ms,
                whole == changes_after(
                    old(self).watched(),
                    strings_view(dirs@),
                    old(self).debounce_ms,
                    old(self).times(),
                    Seq::empty(),
                    evs,
                    now,
                ),
                changes_after(
                    self.watched(),
                    strings_view(dirs@),
                    self.debounce_ms,
                    self.times(),
                    strings_view(changed@),
                    evs.subrange(i as int, evs.len() as int),
                    now,
                ) == whole,
            decreases events@.len() - i,
        {
            let ghost rest = evs.subrange(i as int, evs.len() as int);
            assert(rest[0] == event_view(events@[i as int]));
            assert(rest.drop_first() =~= evs.subrange(i + 1, evs.len() as int));
            let ghost before = strings_view(changed@);
            match self.process_event(&events[i], now, dirs) {
                Some(p) => {
                    if !contains_str(&changed, p.as_str()) {
                        let ghost pv = p@;
                        changed.push(p);
                        assert(strings_view(changed@) =~= before.push(pv));
                    }
                },
                None => {},
            }
            i = i + 1;
        }
        changed
    }

    /// Stops watching: no watcher, nothing watched, no recorded times.
    pub fn stop_watching(&mut self)
        ensures
            !final(self).active,
            final(self).watched() == Set::<Seq<char>>::empty(),
            final(self).times() == Map::<Seq<char>, u64>::empty(),
            final(self).debounce_ms == old(self).debounce_ms,
    {
        self.active = false;
        self.watched_files.clear();
        self.last_change_times.clear();
        assert(self.watched() =~= Set::<Seq<char>>::empty());
        assert(times_view(self.last_change_times@) =~= Seq::<(Seq<char>, u64)>::empty());
    }

    /// Stops watching `path` and forgets its last change.
    pub fn remove_watched_file(&mut self, path: &str)
        ensures
            final(self).watched() == old(self).watched().remove(path@),
            final(self).times() == old(self).times().remove(path@),
            final(self).active == old(self).active,
            final(self).debounce_ms == old(self).debounce_ms,
    {
        set_remove(&mut self.watched_files, path);
        self.forget_times_of(path);
    }

    /// The watched paths.
    pub fn get_watched_files(&self) -> (r: &Vec<String>)
        ensures
            r@ == self.watched_files@,
    {
        &self.watched_files
    }

    /// Whether a watcher runs and something is watched.
    pub fn is_watching(&self) -> (r: bool)
        ensures
            r == (self.active && self.watched() != Set::<Seq<char>>::empty()),
    {
        let r = self.active && self.watched_files.len() > 0;
        proof {
            if self.watched_files@.len() > 0 {
                assert(self.watched().contains(strings_view(self.watched_files@)[0]));
            } else {
                assert(self.watched() =~= Set::<Seq<char>>::empty());
            }
        }
        r
    }
}

/// A change of a file that was counted at `t` is not counted again before
/// `t + debounce` milliseconds.
pub proof fn law_debounce_suppresses_repeat(times: Map<Seq<char>, u64>, debounce: u64, p: Seq<char>, t: u64, now: u64)
    requires
        t <= now,
        now < t + debounce,
    ensures
        !passes_debounce(times_after(times, Some(p), t), debounce, p, now),
{
}

/// Once a file was counted as changed, every later event for it is counted
/// again only after the debounce has passed: after `check_for_changes`
/// counted `p`, the recorded time of `p` is the time of that check.
pub proof fn law_counted_change_is_recorded(times: Map<Seq<char>, u64>, p: Seq<char>, now: u64)
    ensures
        times_after(times, Some(p), now).dom().contains(p),
        times_after(times, Some(p), now)[p] == now,
{
}


/// The changed files that a check of `m` reports for `events` at `now`:
/// none while no watcher runs.
pub open spec fn reported_changes(m: HotReloadManager, events: Seq<WatchEvent>, now: u64, dirs: Seq<String>) -> Seq<Seq<char>> {
    if m.active {
        changes_after(
            m.watched(),
            strings_view(dirs),
            m.debounce_ms,
            m.times(),
            Seq::empty(),
            Seq::new(events.len(), |i: int| event_view(events[i])),
            now,
        ).1
    } else {
        Seq::empty()
    }
}

} // verus!
