use bark::config::Config;
use bark::processor::Processor;
use bark::watcher::{dedup_paths, is_watch_ignored, is_write_event, root_index, FileWatcher, WatchEventKind, WatchState};

#[test]
fn is_write_event_create_is_true() {
    assert!(is_write_event(WatchEventKind::Create));
}

#[test]
fn is_write_event_modify_data_is_true() {
    assert!(is_write_event(WatchEventKind::ModifyData));
}

#[test]
fn is_write_event_remove_is_false() {
    assert!(!is_write_event(WatchEventKind::Remove));
}

#[test]
fn is_write_event_other_modify_is_false() {
    assert!(!is_write_event(WatchEventKind::ModifyOther));
    assert!(!is_write_event(WatchEventKind::Access));
    assert!(!is_write_event(WatchEventKind::Other));
}

#[test]
fn file_watcher_new() {
    let proc = Processor::new(
        Config::default(),
        "/tmp/x/.barks".to_string(),
        false,
        false,
        false,
        None,
        "a".to_string(),
        "p".to_string(),
    );
    let fw = FileWatcher::new(proc, 500, "/tmp/x/tree.txt".to_string(), false);
    assert_eq!(fw.debounce_ms, 500);
    assert!(!fw.dry_run);
}

#[test]
fn own_writes_are_not_tagged_again() {
    let mut st = WatchState::new();
    let changed = vec!["/p/a.rs".to_string(), "/p/b.rs".to_string(), "/p/a.rs".to_string()];
    let first = st.plan_batch(&changed, "/p", &Vec::new());
    assert_eq!(first, vec!["/p/a.rs", "/p/b.rs"]);
    // bark wrote both files
    for p in &first {
        st.mark_written(p);
    }
    // the events of bark's own writes
    let second = st.plan_batch(&first, "/p", &Vec::new());
    assert!(second.is_empty());
    // a later edit counts again
    let third = st.plan_batch(&vec!["/p/a.rs".to_string()], "/p", &Vec::new());
    assert_eq!(third, vec!["/p/a.rs"]);
}

#[test]
fn save_after_a_pass_that_wrote_nothing_is_tagged() {
    let mut st = WatchState::new();
    let first = st.plan_batch(&vec!["/p/a.rs".to_string()], "/p", &Vec::new());
    assert_eq!(first, vec!["/p/a.rs"]);
    // the file was already current: nothing was written, nothing marked
    assert!(st.recently_written.is_empty());
    let second = st.plan_batch(&vec!["/p/a.rs".to_string()], "/p", &Vec::new());
    assert_eq!(second, vec!["/p/a.rs"]);
}

#[test]
fn planning_remembers_nothing_and_ignore_applies() {
    let mut st = WatchState::new();
    let ignore = vec!["gen/**".to_string()];
    let plan = st.plan_batch(
        &vec!["/p/gen/x.rs".to_string(), "/p/y.rs".to_string()],
        "/p",
        &ignore,
    );
    assert_eq!(plan, vec!["/p/y.rs"]);
    assert!(st.recently_written.is_empty());
    assert!(is_watch_ignored("/p/gen/x.rs", "/p", &ignore));
    assert!(!is_watch_ignored("/q/gen/x.rs", "/p", &ignore));
}

#[test]
fn mark_and_take() {
    let mut st = WatchState::new();
    st.mark_written("/p/a.rs");
    assert!(st.take_own_write("/p/a.rs"));
    assert!(!st.take_own_write("/p/a.rs"));
    assert!(st.recently_written.is_empty());
}

#[test]
fn dedup_and_root_index() {
    let d = dedup_paths(&vec!["/a/x".to_string(), "/a//x".to_string(), "/a/y".to_string()]);
    assert_eq!(d, vec!["/a/x", "/a/y"]);
    let roots = vec!["/srv/api".to_string(), "/srv".to_string()];
    assert_eq!(root_index(&roots, "/srv/api/main.go"), Some(0));
    assert_eq!(root_index(&roots, "/srv/worker/main.go"), Some(1));
    assert_eq!(root_index(&roots, "/home/x"), None);
}
