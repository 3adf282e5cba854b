use eve_wrench::backups::{
    copy_targets, plan_backup, select_targets, planned_backup_entry, resolve_backup_names, scan_backups,
    SettingsError,
};
use eve_wrench::codec::{decode_backup, SettingsKind};
use eve_wrench::enrich::server_data;
use eve_wrench::scan::{scan_installations, FileListing, ProfileListing, ServerListing};

fn file(name: &str) -> FileListing {
    FileListing { name: name.to_string(), path: format!("/b/{}", name), modified_time: 0 }
}

#[test]
fn backups_newest_first_and_stable() {
    let files = vec![
        file("old_user_1_100.bak"),
        file("readme.txt"),
        file("new_char_2_300.bak"),
        file("tie_a_user_3_200.bak"),
        file("tie_b_user_4_200.bak"),
        file("bad_admin_4_500.bak"),
    ];
    let b = scan_backups(&files, 400);
    let names: Vec<&str> = b.iter().map(|e| e.name.as_str()).collect();
    assert_eq!(names, vec!["new", "tie_a", "tie_b", "old"]);
    assert_eq!(b[0].id, "new_300");
    assert_eq!(b[0].kind, SettingsKind::Char);
    assert_eq!(b[0].original_id, "2");
    assert_eq!(b[0].display_name, "new");
    assert_eq!(b[0].relative_time, "1m ago");
    assert_eq!(b[0].path, "/b/new_char_2_300.bak");
    assert!(b[0].original_name.is_none());
    assert!(scan_backups(&vec![], 0).is_empty());
}

#[test]
fn plan_backup_refuses_foreign_files() {
    assert_eq!(plan_backup("prefs.ini", "x", 1).err(), Some(SettingsError::InvalidSettingsFile));
    assert_eq!(plan_backup("core_user_abc.dat", "x", 1).err(), Some(SettingsError::InvalidSettingsFile));
    assert_eq!(SettingsError::InvalidSettingsFile.message(), "Invalid settings file");
    assert_eq!(SettingsError::BackupNotFound.message(), "Backup file not found");
}

#[test]
fn plan_backup_names_file_and_entry() {
    let plan = plan_backup("core_char_90100001.dat", "before_patch", 1700000000).unwrap();
    assert_eq!(plan.filename, "before_patch_char_90100001_1700000000.bak");
    assert_eq!(plan.original_id, "90100001");
    assert_eq!(plan.kind, SettingsKind::Char);
    let (label, _, id, ts) = decode_backup(&plan.filename).unwrap();
    assert_eq!((label.as_str(), id.as_str(), ts), ("before_patch", "90100001", 1700000000));
    let entry = planned_backup_entry(plan, "/p/backups/f.bak".to_string(), 1700000000 + 7200);
    assert_eq!(entry.id, "before_patch_1700000000");
    assert_eq!(entry.name, "before_patch");
    assert_eq!(entry.original_id, "90100001");
    assert_eq!(entry.relative_time, "2h ago");
    assert_eq!(entry.path, "/p/backups/f.bak");
}

#[test]
fn backups_labelled_from_live_entries() {
    let root = vec![ServerListing {
        dir_name: "tranquility".to_string(),
        path: "/r/tq".to_string(),
        profiles: vec![ProfileListing {
            dir_name: "settings_Default".to_string(),
            path: "/r/tq/settings_Default".to_string(),
            files: vec![file("core_char_42.dat"), file("core_user_42.dat")],
        }],
    }];
    let servers: Vec<_> = scan_installations(&root, 0).into_iter().map(|s| server_data(s, false)).collect();
    let b = scan_backups(&vec![file("a_char_42_5.bak"), file("b_user_43_4.bak")], 10);
    let b = resolve_backup_names(b, &servers);
    assert_eq!(b[0].original_name.as_deref(), Some("42"));
    assert!(b[1].original_name.is_none());
}

#[test]
fn copy_skips_the_source() {
    let t = copy_targets("/a/core_user_1.dat", vec![
        "/b/core_user_1.dat".to_string(),
        "/a/core_user_1.dat".to_string(),
        "/c/core_user_1.dat".to_string(),
    ]);
    assert_eq!(t, vec!["/b/core_user_1.dat".to_string(), "/c/core_user_1.dat".to_string()]);
}

#[test]
fn copy_skips_the_source_under_another_spelling() {
    let t = copy_targets("/eve/TQ/settings_A/core_user_1.dat", vec![
        "/eve/TQ/settings_A/./core_user_1.dat".to_string(),
        "/eve/TQ//settings_A/core_user_1.dat".to_string(),
        "/eve/TQ/settings_B/core_user_1.dat".to_string(),
    ]);
    assert_eq!(t, vec!["/eve/TQ/settings_B/core_user_1.dat".to_string()]);
}

#[test]
fn select_targets_drops_flagged() {
    let t = select_targets(vec!["a".to_string(), "b".to_string(), "c".to_string()], &vec![false, true, false]);
    assert_eq!(t, vec!["a".to_string(), "c".to_string()]);
}
