use gpml::hot_reload::{FileChangeEvent, FileChangeType, HotReloadManager, PathListing, WatchEvent, WatchEventKind};

fn modify(paths: &[&str]) -> WatchEvent {
    WatchEvent { kind: WatchEventKind::Modify, paths: paths.iter().map(|p| p.to_string()).collect() }
}

#[test]
fn change_event_keeps_path_and_kind() {
    let e = FileChangeEvent::new("/a/b.gpml".to_string(), FileChangeType::Modified);
    assert_eq!(e.path, "/a/b.gpml");
    assert_eq!(e.change_type, FileChangeType::Modified);
}

#[test]
fn new_manager_defaults() {
    let m = HotReloadManager::new();
    assert!(!m.is_watching());
    assert_eq!(m.debounce_ms, 100);
    assert!(m.get_watched_files().is_empty());
    let m = m.with_debounce_duration(5);
    assert_eq!(m.debounce_ms, 5);
}

#[test]
fn watched_files_and_directories() {
    let mut m = HotReloadManager::new();
    m.add_watched_file("/p/app.gpml".to_string(), PathListing::File);
    m.add_watched_file(
        "/p/dir".to_string(),
        PathListing::Directory(vec!["/p/dir/a.gpml".to_string(), "/p/dir/readme.md".to_string()]),
    );
    m.add_watched_file("/p/none".to_string(), PathListing::Neither);
    assert_eq!(m.get_watched_files(), &vec!["/p/app.gpml".to_string(), "/p/dir/a.gpml".to_string()]);
    assert!(m.is_watched_file("/p/app.gpml", &vec![]));
    assert!(!m.is_watched_file("/p/dir/readme.md", &vec![]));
    assert!(!m.is_watched_file("/q/x.gpml", &vec![]));
    m.add_watched_file("/q".to_string(), PathListing::File);
    assert!(m.is_watched_file("/q/x.gpml", &vec!["/q".to_string()]));
    assert!(!m.is_watched_file("/qq/x.gpml", &vec!["/q".to_string()]));
}

#[test]
fn changes_are_debounced_and_listed_once() {
    let mut m = HotReloadManager::new();
    m.add_watched_file("/p/a.gpml".to_string(), PathListing::File);
    m.add_watched_file("/p/b.gpml".to_string(), PathListing::File);
    assert!(m.check_for_changes(&vec![modify(&["/p/a.gpml"])], 1000, &vec![]).is_empty());
    m.set_watching();
    assert!(m.is_watching());
    let events = vec![
        modify(&["/p/a.gpml"]),
        modify(&["/p/other.txt", "/p/b.gpml"]),
        WatchEvent { kind: WatchEventKind::Other, paths: vec!["/p/a.gpml".to_string()] },
    ];
    assert_eq!(m.check_for_changes(&events, 1000, &vec![]), vec!["/p/a.gpml".to_string(), "/p/b.gpml".to_string()]);
    assert!(m.check_for_changes(&vec![modify(&["/p/a.gpml"])], 1050, &vec![]).is_empty());
    assert_eq!(m.check_for_changes(&vec![modify(&["/p/a.gpml"])], 1100, &vec![]), vec!["/p/a.gpml".to_string()]);
    assert!(m.should_process_change("/p/a.gpml", 900));
    assert!(!m.should_process_change("/p/a.gpml", 1150));
}

#[test]
fn remove_and_stop() {
    let mut m = HotReloadManager::new();
    m.add_watched_file("/p/a.gpml".to_string(), PathListing::File);
    m.set_watching();
    let ev = modify(&["/p/a.gpml"]);
    assert_eq!(m.process_event(&ev, 10, &vec![]), Some("/p/a.gpml".to_string()));
    assert_eq!(m.process_event(&ev, 20, &vec![]), None);
    m.remove_watched_file("/p/a.gpml");
    assert!(!m.is_watching());
    assert!(m.should_process_change("/p/a.gpml", 20));
    m.add_watched_file("/p/a.gpml".to_string(), PathListing::File);
    m.stop_watching();
    assert!(!m.is_watching());
    assert!(m.get_watched_files().is_empty());
}
