use rxsync::file_util::{
    checksum_text, compare_checksum, content_checksum, create_checksum, directories_pattern,
    files_pattern, matches_pattern, remove_ignored_path, get_all_files_subdir, Found, Kind,
};

fn strings(items: &[&str]) -> Vec<String> {
    items.iter().map(|s| s.to_string()).collect()
}

fn found(path: &str, kind: Kind) -> Found {
    Found { path: path.to_string(), kind }
}

#[test]
fn test_remove_ignored_path() {
    let unignored_path = remove_ignored_path(
        false,
        &mut vec!["path1".to_string(), "path2".to_string(), "path3".to_string()],
        &vec!["path2".to_string()],
    );
    assert!(unignored_path.len() == 3);
    let unignored_path = remove_ignored_path(
        true,
        &mut vec!["path1".to_string(), "path2".to_string(), "path3".to_string()],
        &vec!["path2".to_string()],
    );
    assert!(unignored_path.len() == 2);
    assert!(unignored_path.contains(&"path1".to_string()));
    assert!(unignored_path.contains(&"path3".to_string()));
}

#[test]
fn test_get_all_files_subdir() {
    let file_list = get_all_files_subdir(&vec![
        found("test_sync/keep.txt", Kind::File),
        found("test_sync/test2", Kind::Directory),
        found("test_sync/test2/test3", Kind::Directory),
        found("test_sync/test2/test3/test_file", Kind::File),
        found("test_sync/.xsync.toml", Kind::File),
        found("test_sync/test2/.xsyncignore", Kind::File),
        found("test_sync/socket", Kind::Other),
    ]);
    assert!(file_list.contains(&"test_sync/keep.txt".to_string()));
    assert!(file_list.contains(&"test_sync/test2/test3/test_file".to_string()));
    assert_eq!(file_list.len(), 2);
}

#[test]
fn the_checksum_is_adler_32() {
    assert_eq!(create_checksum(b""), 1);
    assert_eq!(create_checksum(b"hi"), 20644050);
    assert_eq!(create_checksum(b"Wikipedia"), 0x11E60398);
    assert_eq!(create_checksum(&[0, 1, 2, 3, 4, 5]), 0x00290010);
    let long = vec![255u8; 100_000];
    let mut low: u64 = 1;
    let mut high: u64 = 0;
    for byte in &long {
        low = (low + *byte as u64) % 65521;
        high = (high + low) % 65521;
    }
    assert_eq!(create_checksum(&long) as u64, high * 65536 + low);
}

#[test]
fn the_same_content_has_the_same_checksum_string() {
    let first = content_checksum(b"this is a test sync file");
    let second = content_checksum(&b"this is a test sync file".to_vec());
    assert_eq!(first, second);
    assert_ne!(content_checksum(b"this is a test sync file."), first);
    assert!(compare_checksum(b"abc", b"abc"));
    assert!(!compare_checksum(b"abc", b"abd"));
}

#[test]
fn a_checksum_is_stored_in_decimal() {
    assert_eq!(checksum_text(0), "0");
    assert_eq!(checksum_text(7), "7");
    assert_eq!(checksum_text(10), "10");
    assert_eq!(checksum_text(184320961), "184320961");
    assert_eq!(checksum_text(4294967295), "4294967295");
    assert_eq!(checksum_text(create_checksum(b"hi")), "20644050");
    assert_eq!(content_checksum(b"hi"), "20644050");
    assert_eq!(content_checksum(b""), "1");
}

#[test]
fn a_pattern_matches_by_whole_components() {
    let patterns = strings(&["root/temp", "root/a/b"]);
    assert!(matches_pattern("root/temp", &patterns));
    assert!(matches_pattern("root/temp/x.txt", &patterns));
    assert!(matches_pattern("root//temp/./x.txt", &patterns));
    assert!(matches_pattern("root/a/b/c/d", &patterns));
    assert!(!matches_pattern("root/temporary", &patterns));
    assert!(!matches_pattern("root/a", &patterns));
    assert!(!matches_pattern("temp/x.txt", &patterns));
    assert!(!matches_pattern("root/temp", &Vec::new()));
}

#[test]
fn the_filter_keeps_the_order_and_drops_empty_paths() {
    let mut paths = strings(&["r/a", "", "r/temp/x.txt", "r/b", "r/temp", "r/c"]);
    let left = remove_ignored_path(true, &mut paths, &strings(&["r/temp"]));
    assert_eq!(left, strings(&["r/a", "r/b", "r/c"]));
    assert_eq!(paths, left);
    let mut paths = strings(&["r/a", "", "r/temp/x.txt"]);
    let left = remove_ignored_path(false, &mut paths, &strings(&["r/temp"]));
    assert_eq!(left, strings(&["r/a", "", "r/temp/x.txt"]));
    assert_eq!(paths, left);
}

#[test]
fn an_empty_pattern_matches_every_path() {
    let mut paths = strings(&["a", "/b"]);
    let left = remove_ignored_path(true, &mut paths, &strings(&[""]));
    assert_eq!(left, Vec::<String>::new());
}

#[test]
fn a_file_temp_x_is_never_let_through_when_temp_is_ignored() {
    let patterns = rxsync::config::get_ignore_file("tree", &strings(&["temp"]));
    let mut files = get_all_files_subdir(&vec![
        found("tree/temp/x.txt", Kind::File),
        found("tree/keep.txt", Kind::File),
    ]);
    let left = remove_ignored_path(true, &mut files, &patterns);
    assert_eq!(left, strings(&["tree/keep.txt"]));
    let d = rxsync::plan::diff(&rxsync::config::Config::new(), &Vec::new(), &left);
    assert!(!d.files_to_add.contains(&"tree/temp/x.txt".to_string()));
    assert!(!d.files_to_remove.contains(&"tree/temp/x.txt".to_string()));
    assert!(!d.files_to_check.contains(&"tree/temp/x.txt".to_string()));
    assert_eq!(d.files_to_add, strings(&["tree/keep.txt"]));
}

#[test]
fn only_regular_files_that_are_no_metadata_are_selected() {
    let list = get_all_files_subdir(&vec![
        found(".xsyncignore", Kind::File),
        found("a/.xsync.toml/", Kind::File),
        found("a/.xsync.toml/b", Kind::File),
        found("a/.xsync.toml.bak", Kind::File),
        found("dir", Kind::Directory),
        found("other", Kind::Other),
    ]);
    assert_eq!(list, strings(&["a/.xsync.toml/b", "a/.xsync.toml.bak"]));
}

#[test]
fn the_walk_patterns_cover_the_tree() {
    assert_eq!(directories_pattern("test_sync"), "test_sync/**");
    assert_eq!(files_pattern("test_sync"), "test_sync/**/*");
}
