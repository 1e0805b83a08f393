use ferail_gpui::fs_watcher::{ChangedPath, EventClass, FsEvent, FsWatcher, WatchCmd, WatchRegistry};

fn changed(path: &str, parent: Option<&str>) -> ChangedPath {
    ChangedPath {
        path: path.to_string(),
        parent: parent.map(str::to_string),
    }
}

#[test]
fn watch_requests_are_queued_for_the_worker() {
    let mut w = FsWatcher::new();
    w.watch("/a");
    w.watch("/b");
    w.watch("/a");
    let cmds = w.take_commands();
    let watched: Vec<&str> = cmds
        .iter()
        .filter_map(|c| match c {
            WatchCmd::Watch(p) => Some(p.as_str()),
            WatchCmd::Retain(_) => None,
        })
        .collect();
    // Every request reaches the worker; registering twice is harmless there.
    assert_eq!(watched, vec!["/a", "/b", "/a"]);
    assert!(w.take_commands().is_empty());
    w.retain_watched(&vec!["/b".to_string()]);
    let cmds = w.take_commands();
    assert!(matches!(&cmds[..], [WatchCmd::Retain(k)] if k == &vec!["/b".to_string()]));
}

#[test]
fn only_changes_in_watched_directories_reload() {
    let mut w = FsWatcher::new();
    w.watch("/a");
    w.watch("/b");
    let events = vec![
        FsEvent { class: EventClass::Create, paths: vec![changed("/a/new.txt", Some("/a"))] },
        FsEvent { class: EventClass::Access, paths: vec![changed("/b/read.txt", Some("/b"))] },
        FsEvent { class: EventClass::Modify, paths: vec![changed("/elsewhere/x", Some("/elsewhere"))] },
    ];
    assert_eq!(w.drain_reload_relevant_paths(&events), vec!["/a"]);
    let rescan = vec![FsEvent { class: EventClass::Other, paths: vec![] }];
    let mut all = w.drain_reload_relevant_paths(&rescan);
    all.sort();
    assert_eq!(all, vec!["/a", "/b"]);
}

#[test]
fn the_worker_registers_each_root_once_and_releases_what_is_not_kept() {
    let mut reg = WatchRegistry::new();
    assert!(reg.needs_register("/a"));
    reg.registered("/a");
    reg.registered("/b");
    reg.registered("/a");
    assert!(!reg.needs_register("/a"));
    assert!(reg.needs_register("/c"));
    let stale = reg.release_stale(&vec!["/b".to_string(), "/z".to_string()]);
    assert_eq!(stale, vec!["/a"]);
    assert!(reg.needs_register("/a"));
    assert!(!reg.needs_register("/b"));
}
