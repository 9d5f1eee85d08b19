use rxsync::path::{
    ancestors, has_file_name, join, parent, path_starts_with, render, split_components,
    split_segments,
};

fn strings(items: &[&str]) -> Vec<String> {
    items.iter().map(|s| s.to_string()).collect()
}

#[test]
fn a_path_splits_at_every_separator() {
    assert_eq!(split_segments(""), strings(&[""]));
    assert_eq!(split_segments("a"), strings(&["a"]));
    assert_eq!(split_segments("a/b"), strings(&["a", "b"]));
    assert_eq!(split_segments("/a//b/"), strings(&["", "a", "", "b", ""]));
    assert_eq!(split_segments("é/ü"), strings(&["é", "ü"]));
}

#[test]
fn components_pass_over_repeated_separators_and_inner_dots() {
    assert_eq!(split_components(""), Vec::<String>::new());
    assert_eq!(split_components("a/b"), strings(&["a", "b"]));
    assert_eq!(split_components("a//b"), strings(&["a", "b"]));
    assert_eq!(split_components("a/./b"), strings(&["a", "b"]));
    assert_eq!(split_components("a/b/."), strings(&["a", "b"]));
    assert_eq!(split_components("a/b/"), strings(&["a", "b"]));
    assert_eq!(split_components("./a/b"), strings(&[".", "a", "b"]));
    assert_eq!(split_components("."), strings(&["."]));
    assert_eq!(split_components("/"), strings(&["/"]));
    assert_eq!(split_components("/a/b/"), strings(&["/", "a", "b"]));
    assert_eq!(split_components("/./a"), strings(&["/", "a"]));
    assert_eq!(split_components("a/../b"), strings(&["a", "..", "b"]));
    assert_eq!(split_components(".a/b."), strings(&[".a", "b."]));
}

#[test]
fn the_components_agree_with_the_standard_library() {
    for text in [
        "", ".", "/", "a", "a/b", "a//b", "a/./b", "./a", "/a/b/", "/./a", "a/..", "../a",
        "//a", ".//a", "a/.", "./.", "x/.y/z.",
    ] {
        let expected: Vec<String> = std::path::Path::new(text)
            .components()
            .map(|c| c.as_os_str().to_str().unwrap().to_string())
            .collect();
        assert_eq!(split_components(text), expected, "for {:?}", text);
    }
}

#[test]
fn a_path_lies_below_another_by_whole_components() {
    assert!(path_starts_with("a/b/c", "a/b"));
    assert!(path_starts_with("a/b/c", "a/b/"));
    assert!(path_starts_with("a/b/c", "a//b/c/"));
    assert!(path_starts_with("a/b", ""));
    assert!(path_starts_with("/a/b", ""));
    assert!(path_starts_with("/a/b", "/"));
    assert!(!path_starts_with("a/bc", "a/b"));
    assert!(!path_starts_with("a/b", "a/b/c"));
    assert!(!path_starts_with("/a/b", "a"));
    assert!(!path_starts_with("./a/b", "a"));
    assert!(!path_starts_with("a/b", "b"));
}

#[test]
fn starts_with_agrees_with_the_standard_library() {
    let texts = ["", ".", "/", "a", "a/b", "a//b/", "./a", "/a", "/a/b", "a/b/c", "b"];
    for path in texts {
        for base in texts {
            assert_eq!(
                path_starts_with(path, base),
                std::path::Path::new(path).starts_with(base),
                "for {:?} and {:?}",
                path,
                base
            );
        }
    }
}

#[test]
fn the_file_name_is_the_last_component() {
    assert!(has_file_name("a/b/.xsync.toml", ".xsync.toml"));
    assert!(has_file_name(".xsync.toml", ".xsync.toml"));
    assert!(has_file_name("a/.xsync.toml/", ".xsync.toml"));
    assert!(!has_file_name("a/.xsync.toml/b", ".xsync.toml"));
    assert!(!has_file_name("a/x.xsync.toml", ".xsync.toml"));
    assert!(!has_file_name("", ".xsync.toml"));
}

#[test]
fn join_puts_one_separator_between_and_a_rooted_tail_replaces() {
    assert_eq!(join("a", "b"), "a/b");
    assert_eq!(join("a/", "b"), "a/b");
    assert_eq!(join("", "b"), "b");
    assert_eq!(join("a", ""), "a/");
    assert_eq!(join("a", "/b"), "/b");
    assert_eq!(join("", ""), "");
    assert_eq!(join("elixir", "test_sync/keep.txt"), "elixir/test_sync/keep.txt");
}

#[test]
fn join_agrees_with_the_standard_library() {
    let texts = ["", "a", "a/", "/", "/a", "a/b", "b/c/", "/x/y"];
    for base in texts {
        for tail in texts {
            let expected = std::path::Path::new(base).join(tail);
            assert_eq!(join(base, tail), expected.to_str().unwrap(), "for {:?} and {:?}", base, tail);
        }
    }
}

#[test]
fn the_trails_lead_down_to_the_path() {
    assert_eq!(ancestors(&split_components("test_sync/")), strings(&["test_sync/"]));
    assert_eq!(ancestors(&split_components("a/b/c")), strings(&["a/", "a/b/", "a/b/c/"]));
    assert_eq!(ancestors(&split_components("/a/b")), strings(&["//", "//a/", "//a/b/"]));
    assert_eq!(ancestors(&split_components("./a")), strings(&["./", "./a/"]));
    assert_eq!(ancestors(&split_components("")), Vec::<String>::new());
}

#[test]
fn every_trail_has_the_components_down_to_it() {
    for text in ["a/b/c", "/a/b", "./a//b/", "x"] {
        let comps = split_components(text);
        let trails = ancestors(&comps);
        assert_eq!(trails.len(), comps.len());
        for (i, t) in trails.iter().enumerate() {
            assert_eq!(split_components(t), comps[..i + 1].to_vec());
        }
    }
}

#[test]
fn the_parent_is_the_path_without_its_last_component() {
    assert_eq!(parent("a/b/c.txt"), Some("a/b".to_string()));
    assert_eq!(parent("c.txt"), Some(String::new()));
    assert_eq!(parent("/c.txt"), Some("/".to_string()));
    assert_eq!(parent("/a/c.txt"), Some("/a".to_string()));
    assert_eq!(parent("./c.txt"), Some(".".to_string()));
    assert_eq!(parent("a//b/./c"), Some("a/b".to_string()));
    assert_eq!(parent("."), Some(String::new()));
    assert_eq!(parent(""), None);
    assert_eq!(parent("/"), None);
}

#[test]
fn the_parent_has_the_components_of_the_standard_library_s() {
    for text in ["a/b/c.txt", "c.txt", "/c.txt", "./c.txt", "a//b/./c", ".", "", "/", "a/.."] {
        let expected = std::path::Path::new(text).parent().map(|p| {
            p.components().map(|c| c.as_os_str().to_str().unwrap().to_string()).collect::<Vec<_>>()
        });
        assert_eq!(parent(text).map(|p| split_components(&p)), expected, "for {:?}", text);
    }
}

#[test]
fn render_writes_components_with_single_separators() {
    assert_eq!(render(&strings(&["/", "a", "b"])), "/a/b");
    assert_eq!(render(&strings(&["a", "b"])), "a/b");
    assert_eq!(render(&strings(&["."])), ".");
    assert_eq!(render(&Vec::new()), "");
}
