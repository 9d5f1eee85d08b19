use rxsync::config::{
    checksum_file_path, get_ignore_file, get_items_to_delete, get_items_to_upload,
    ignore_file_path, update_folder_config, Config, FolderConfig, Namespace, Table,
    CHECKSUM_FILE, IGNORE_FILE,
};
use rxsync::error::SyncError;
use rxsync::plan::diff;

fn strings(items: &[&str]) -> Vec<String> {
    items.iter().map(|s| s.to_string()).collect()
}

#[test]
fn test_get_items_to_delete() {
    let mut sample = Table::new();
    sample.insert("one".to_string(), "1".to_string());
    sample.insert("two".to_string(), "2".to_string());
    let delete_list = get_items_to_delete(&sample, &vec!["one".to_string()]);
    assert!(delete_list.contains(&"two".to_string()));
}

#[test]
fn test_get_item_to_upload() {
    let mut sample = Table::new();
    sample.insert("one".to_string(), "1".to_string());
    sample.insert("two".to_string(), "2".to_string());
    let upload_list = get_items_to_upload(&sample, &vec!["three".to_string()]);
    assert!(upload_list.contains(&"three".to_string()));
}

#[test]
fn test_get_ignore_file() {
    let data = get_ignore_file("test_sync", &strings(&["/test_dir"]));
    assert!(data.contains(&"/test_dir".to_string()));
}

#[test]
fn test_read_checksum_file_parse_and_update_config() {
    let mut parsed_config = Config::new();
    update_folder_config(
        &mut parsed_config,
        Namespace::from_name("files").unwrap(),
        &FolderConfig::Add("test".to_string(), "123".to_string()),
    );
    assert!(parsed_config.files.contains_key("test"));
    assert_eq!(parsed_config.files.get("test"), Some(&"123".to_string()));
    assert!(!parsed_config.folders.contains_key("test"));
    update_folder_config(
        &mut parsed_config,
        Namespace::from_name("files").unwrap(),
        &FolderConfig::Remove("test".to_string()),
    );
    assert!(!parsed_config.files.contains_key("test"));
}

#[test]
fn the_two_diffs_are_exact_and_keep_their_order() {
    let mut sample = Table::new();
    sample.insert("b".to_string(), "2".to_string());
    sample.insert("a".to_string(), "1".to_string());
    sample.insert("c".to_string(), "3".to_string());
    let live = strings(&["z", "a", "y", "z"]);
    assert_eq!(get_items_to_delete(&sample, &live), strings(&["b", "c"]));
    assert_eq!(get_items_to_upload(&sample, &live), strings(&["z", "y", "z"]));
    assert_eq!(get_items_to_delete(&Table::new(), &live), Vec::<String>::new());
    assert_eq!(get_items_to_upload(&sample, &Vec::new()), Vec::<String>::new());
}

#[test]
fn membership_is_by_the_string_not_by_the_path() {
    let mut sample = Table::new();
    sample.insert("a/b".to_string(), "1".to_string());
    let live = strings(&["a//b"]);
    assert_eq!(get_items_to_delete(&sample, &live), strings(&["a/b"]));
    assert_eq!(get_items_to_upload(&sample, &live), strings(&["a//b"]));
}

#[test]
fn nothing_is_both_uploaded_and_deleted() {
    let mut config = Config::new();
    for key in ["a", "b", "c", "d"] {
        config.files.insert(key.to_string(), "0".to_string());
        config.folders.insert(key.to_string(), String::new());
    }
    let folders = strings(&["b", "x", "d", "y"]);
    let files = strings(&["a", "q", "c", "r", "q"]);
    let d = diff(&config, &folders, &files);
    for p in &d.files_to_add {
        assert!(!d.files_to_remove.contains(p));
        assert!(!d.files_to_check.contains(p));
    }
    for p in &d.files_to_remove {
        assert!(!d.files_to_check.contains(p));
    }
    for p in &d.folders_to_add {
        assert!(!d.folders_to_remove.contains(p));
    }
    assert_eq!(d.folders_to_add, strings(&["x", "y"]));
    assert_eq!(d.folders_to_remove, strings(&["a", "c"]));
    assert_eq!(d.files_to_add, strings(&["q", "r", "q"]));
    assert_eq!(d.files_to_remove, strings(&["b", "d"]));
    assert_eq!(d.files_to_check, strings(&["a", "c"]));
}

#[test]
fn a_table_keeps_the_place_of_a_key_and_has_it_once() {
    let mut t = Table::new();
    assert_eq!(t.len(), 0);
    t.insert("k1".to_string(), "v1".to_string());
    t.insert("k2".to_string(), "v2".to_string());
    t.insert("k1".to_string(), "v3".to_string());
    assert_eq!(t.len(), 2);
    assert_eq!(t.key_at(0), "k1");
    assert_eq!(t.value_at(0), "v3");
    assert_eq!(t.key_at(1), "k2");
    assert_eq!(t.get("k1"), Some(&"v3".to_string()));
    assert_eq!(t.get("k3"), None);
    t.remove("k1");
    assert_eq!(t.len(), 1);
    assert_eq!(t.key_at(0), "k2");
    assert!(!t.contains_key("k1"));
    t.remove("absent");
    assert_eq!(t.len(), 1);
    let copy = t.copy();
    assert_eq!(copy.len(), 1);
    assert_eq!(copy.get("k2"), Some(&"v2".to_string()));
}

#[test]
fn an_update_touches_only_the_table_named() {
    let mut config = Config::new();
    update_folder_config(
        &mut config,
        Namespace::Folders,
        &FolderConfig::Add("dir".to_string(), String::new()),
    );
    assert!(config.folders.contains_key("dir"));
    assert_eq!(config.files.len(), 0);
    update_folder_config(&mut config, Namespace::Files, &FolderConfig::Remove("dir".to_string()));
    assert!(config.folders.contains_key("dir"));
    update_folder_config(&mut config, Namespace::Folders, &FolderConfig::Remove("dir".to_string()));
    assert_eq!(config.folders.len(), 0);
    let copy = config.copy();
    assert_eq!(copy.folders.len(), 0);
}

#[test]
fn only_folders_and_files_name_a_table() {
    assert_eq!(Namespace::from_name("folders"), Ok(Namespace::Folders));
    assert_eq!(Namespace::from_name("files"), Ok(Namespace::Files));
    assert_eq!(Namespace::from_name("file"), Err(SyncError::InvalidNamespace));
    assert_eq!(Namespace::from_name(""), Err(SyncError::InvalidNamespace));
    assert_eq!(Namespace::Folders.name(), "folders");
    assert_eq!(Namespace::Files.name(), "files");
}

#[test]
fn patterns_are_resolved_against_the_root() {
    let lines = strings(&["temp", "", "# a comment", "build/out", "/abs"]);
    assert_eq!(
        get_ignore_file("root", &lines),
        strings(&["root/temp", "root/build/out", "/abs"])
    );
    assert_eq!(get_ignore_file("root/", &strings(&["temp"])), strings(&["root/temp"]));
    assert_eq!(get_ignore_file("", &strings(&["temp"])), strings(&["temp"]));
    assert_eq!(get_ignore_file("root", &Vec::new()), Vec::<String>::new());
}

#[test]
fn a_root_that_begins_with_dot_slash_loses_every_dot_slash() {
    assert_eq!(get_ignore_file("./root", &strings(&["temp"])), strings(&["root/temp"]));
    assert_eq!(get_ignore_file("./a/./b", &strings(&["t"])), strings(&["a/b/t"]));
    assert_eq!(get_ignore_file("a/./b", &strings(&["t"])), strings(&["a/./b/t"]));
    assert_eq!(get_ignore_file("./", &strings(&["t"])), strings(&["t"]));
}

#[test]
fn the_metadata_files_lie_directly_in_the_root() {
    assert_eq!(CHECKSUM_FILE, ".xsync.toml");
    assert_eq!(IGNORE_FILE, ".xsyncignore");
    assert_eq!(checksum_file_path("test_sync"), "test_sync/.xsync.toml");
    assert_eq!(ignore_file_path("test_sync"), "test_sync/.xsyncignore");
    assert_eq!(checksum_file_path("./"), ".//.xsync.toml");
}
