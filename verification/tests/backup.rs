use bark::backup::{
    backups_to_remove, join_paths, latest_per_file, parse_backup_entry, BackupEntry, BackupManager,
};

#[test]
fn backup_manager_new_keeps_its_settings() {
    let m = BackupManager::new("/p/.barks".to_string(), true);
    assert_eq!(m.backup_dir, "/p/.barks");
    assert!(m.enabled);
}

#[test]
fn backup_path_naming() {
    let m = BackupManager::new("/p/.barks".to_string(), true);
    assert_eq!(
        m.backup_path_for("/p/src/main.rs", "/p", "20260325_142022"),
        "/p/.barks/src/main.rs.20260325_142022.bak"
    );
}

#[test]
fn backup_target_only_when_enabled() {
    let off = BackupManager::new("/p/.barks".to_string(), false);
    assert!(off.backup_target("/p/a.rs", "/p").is_none());
    let on = BackupManager::new("/p/.barks".to_string(), true);
    let t = on.backup_target("/p/a.rs", "/p").unwrap();
    assert!(t.starts_with("/p/.barks/a.rs."));
    assert!(t.ends_with(".bak"));
    // `.<YYYYMMDD_HHMMSS>.bak`
    assert_eq!(t.len(), "/p/.barks/a.rs.".len() + 15 + 4);
    // the name reads back to the file it was made of
    let e = parse_backup_entry(&t, "/p/.barks").unwrap();
    assert_eq!(e.original, "a.rs");
    assert_eq!(e.backup_path, t);
}

#[test]
fn join_paths_rules() {
    assert_eq!(join_paths("/a", "b"), "/a/b");
    assert_eq!(join_paths("/a/", "b"), "/a/b");
    assert_eq!(join_paths("", "b"), "b");
    assert_eq!(join_paths("/a", "/b"), "/b");
}

#[test]
fn parse_backup_entry_reads_names_back() {
    let e = parse_backup_entry("/tmp/x/src/main.rs.20260319_142022.bak", "/tmp/x").unwrap();
    assert_eq!(e.original, "src/main.rs");
    assert_eq!(e.backup_path, "/tmp/x/src/main.rs.20260319_142022.bak");
    let later = parse_backup_entry("/tmp/x/src/main.rs.20260319_142023.bak", "/tmp/x").unwrap();
    assert_eq!(later.timestamp - e.timestamp, 1);
}

#[test]
fn backup_name_reads_back() {
    let m = BackupManager::new("/p/.barks".to_string(), true);
    let path = m.backup_path_for("/p/src/main.rs", "/p", "20260325_142022");
    let e = parse_backup_entry(&path, "/p/.barks").unwrap();
    assert_eq!(e.original, "src/main.rs");
    assert_eq!(e.backup_path, path);
    let same = parse_backup_entry("/p/.barks/src/main.rs.20260325_142022.bak", "/p/.barks").unwrap();
    assert_eq!(e.timestamp, same.timestamp);
}

#[test]
fn clean_keeps_the_newest_per_file() {
    let mk = |o: &str, t: i64| BackupEntry {
        original: o.to_string(),
        backup_path: format!("/b/{}.{}.bak", o, t),
        timestamp: t,
    };
    let list = vec![mk("a.rs", 5), mk("b.rs", 4), mk("a.rs", 3), mk("a.rs", 2), mk("b.rs", 1)];
    assert_eq!(
        backups_to_remove(&list, 1),
        vec!["/b/a.rs.3.bak", "/b/a.rs.2.bak", "/b/b.rs.1.bak"]
    );
    assert_eq!(backups_to_remove(&list, 2), vec!["/b/a.rs.2.bak"]);
    assert_eq!(backups_to_remove(&list, 0).len(), 5);
}

#[test]
fn parse_backup_entry_invalid() {
    assert!(parse_backup_entry("/tmp/x/not_a_backup.txt", "/tmp/x").is_none());
    assert!(parse_backup_entry("/tmp/x/a.rs.2026_bad_stamp.bak", "/tmp/x").is_none());
    assert!(parse_backup_entry("/tmp/x/short.bak", "/tmp/x").is_none());
    assert!(parse_backup_entry("/elsewhere/a.rs.20260319_142022.bak", "/tmp/x").is_none());
    // month 13 is no date
    assert!(parse_backup_entry("/tmp/x/a.rs.20261319_142022.bak", "/tmp/x").is_none());
}

#[test]
fn select_backups_filters_and_orders_newest_first() {
    let m = BackupManager::new("/b".to_string(), false);
    let found = vec![
        "/b/src/a.rs.20260101_000000.bak".to_string(),
        "/b/src/a.rs.20260301_000000.bak".to_string(),
        "/b/lib.rs.20260201_000000.bak".to_string(),
        "/b/notes.txt".to_string(),
    ];
    let all = m.select_backups(&found, &None);
    let order: Vec<&str> = all.iter().map(|e| e.backup_path.as_str()).collect();
    assert_eq!(
        order,
        vec![
            "/b/src/a.rs.20260301_000000.bak",
            "/b/lib.rs.20260201_000000.bak",
            "/b/src/a.rs.20260101_000000.bak"
        ]
    );
    let only_a = m.select_backups(&found, &Some("src/a.rs".to_string()));
    assert_eq!(only_a.len(), 2);
    assert!(only_a.iter().all(|e| e.original == "src/a.rs"));
}

#[test]
fn latest_keeps_one_entry_per_file() {
    let mk = |o: &str, t: i64| BackupEntry {
        original: o.to_string(),
        backup_path: format!("/b/{}.{}.bak", o, t),
        timestamp: t,
    };
    let kept = latest_per_file(vec![mk("a.rs", 3), mk("b.rs", 2), mk("a.rs", 1)]);
    let names: Vec<(&str, i64)> = kept.iter().map(|e| (e.original.as_str(), e.timestamp)).collect();
    assert_eq!(names, vec![("a.rs", 3), ("b.rs", 2)]);
}

#[test]
fn a_backup_is_listed_once() {
    let mgr = BackupManager::new("/p/.barks".to_string(), true);
    let t = mgr.backup_target("/p/src/main.go", "/p").unwrap();
    let listed = mgr.select_backups(&vec![t.clone()], &None);
    assert_eq!(listed.len(), 1);
    assert_eq!(listed[0].original, "src/main.go");
    assert_eq!(listed[0].backup_path, t);
    assert_eq!(mgr.select_backups(&vec![t.clone()], &Some("main".to_string())).len(), 1);
    assert!(mgr.select_backups(&vec![t], &Some("other".to_string())).is_empty());
}
