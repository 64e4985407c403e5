use dots::path::{
    comes_before, file_name, is_absolute, join, parent, parse_path, starts_with, strip_prefix,
};

#[test]
fn join_puts_a_separator_between() {
    assert_eq!(join("/store", "bashrc"), "/store/bashrc");
    assert_eq!(join("/store", "config/nvim/init.vim"), "/store/config/nvim/init.vim");
}

#[test]
fn join_keeps_a_separator_that_is_there() {
    assert_eq!(join("/", "bashrc"), "/bashrc");
    assert_eq!(join("/store/", "bashrc"), "/store/bashrc");
    assert_eq!(join("", "bashrc"), "bashrc");
}

#[test]
fn join_lets_an_absolute_path_replace_the_base() {
    assert_eq!(join("/store", "/etc/hosts"), "/etc/hosts");
}

#[test]
fn join_agrees_with_std_on_resolved_paths() {
    let cases = [("/store", "bashrc"), ("/", "x"), ("/a/b", "c/d"), ("/a", "/b"), ("/a", "")];
    for (base, rel) in cases {
        let expected = std::path::Path::new(base).join(rel);
        assert_eq!(join(base, rel), expected.to_str().unwrap());
    }
}

#[test]
fn absolute_paths_begin_at_the_root() {
    assert!(is_absolute("/"));
    assert!(is_absolute("/home/u"));
    assert!(!is_absolute("home/u"));
    assert!(!is_absolute(""));
}

#[test]
fn starts_with_matches_whole_components_only() {
    assert!(starts_with("/home/user/.bashrc", "/home/user"));
    assert!(starts_with("/home/user", "/home/user"));
    assert!(!starts_with("/home/username/.bashrc", "/home/user"));
    assert!(!starts_with("/home", "/home/user"));
    assert!(starts_with("/home/user", "/"));
    assert!(starts_with("/home/user", ""));
}

#[test]
fn starts_with_agrees_with_std_on_resolved_paths() {
    for (path, base) in [
        ("/home/user/.bashrc", "/home/user"),
        ("/home/username", "/home/user"),
        ("/home/user", "/home/user"),
        ("/a", "/"),
        ("a/b", "a"),
        ("ab", "a"),
        ("/a", ""),
    ] {
        assert_eq!(starts_with(path, base), std::path::Path::new(path).starts_with(base));
    }
}

#[test]
fn strip_prefix_gives_the_remainder() {
    assert_eq!(strip_prefix("/store/config/git", "/store"), Some("config/git".to_string()));
    assert_eq!(strip_prefix("/store", "/store"), Some(String::new()));
    assert_eq!(strip_prefix("/bashrc", "/"), Some("bashrc".to_string()));
    assert_eq!(strip_prefix("/storeroom/x", "/store"), None);
    assert_eq!(strip_prefix("/elsewhere/x", "/store"), None);
}

#[test]
fn strip_prefix_undoes_join() {
    for (base, rel) in [("/store", "bashrc"), ("/", "a/b"), ("/a/b", ".c"), ("", "x")] {
        assert_eq!(strip_prefix(&join(base, rel), base), Some(rel.to_string()));
    }
}

#[test]
fn parent_is_the_directory_above() {
    assert_eq!(parent("/home/u/.bashrc"), Some("/home/u".to_string()));
    assert_eq!(parent("/bashrc"), Some("/".to_string()));
    assert_eq!(parent("bashrc"), Some(String::new()));
    assert_eq!(parent("config/git"), Some("config".to_string()));
    assert_eq!(parent("/"), None);
    assert_eq!(parent(""), None);
}

#[test]
fn parent_agrees_with_std_on_resolved_paths() {
    for path in ["/home/u/.bashrc", "/bashrc", "bashrc", "a/b/c", "/", ""] {
        let expected = std::path::Path::new(path).parent().map(|p| p.to_str().unwrap().to_string());
        assert_eq!(parent(path), expected);
    }
}

#[test]
fn file_name_is_the_last_component() {
    assert_eq!(file_name("/store/config/git"), "git");
    assert_eq!(file_name("README.md"), "README.md");
    assert_eq!(file_name("/"), "");
    assert_eq!(file_name(""), "");
}

#[test]
fn names_are_ordered_component_by_component() {
    assert!(comes_before("bashrc", "vimrc"));
    assert!(!comes_before("vimrc", "bashrc"));
    assert!(!comes_before("bashrc", "bashrc"));
    assert!(comes_before("a", "a/b"));
    assert!(comes_before("a", "ab"));
    // the separator comes before every other character
    assert!(comes_before("a/b", "a-b"));
    assert!(!comes_before("a-b", "a/b"));
    assert!(comes_before("", "a"));
    assert!(!comes_before("a", ""));
}

#[test]
fn names_are_ordered_as_std_orders_paths() {
    let names = ["a", "a/b", "a-b", "ab", "b", "a/b/c", "a/c", "Z", "é"];
    for a in names {
        for b in names {
            let expected = std::path::Path::new(a) < std::path::Path::new(b);
            assert_eq!(comes_before(a, b), expected, "{} < {}", a, b);
        }
    }
}

#[test]
fn parse_path_cleans_an_absolute_path() {
    assert_eq!(parse_path("/cwd", "/a/b/../c", true), Ok("/a/c".to_string()));
    assert_eq!(parse_path("/cwd", "/a/./b//c/", true), Ok("/a/b/c".to_string()));
}

#[test]
fn parse_path_resolves_a_relative_path_against_the_current_directory() {
    assert_eq!(parse_path("/home/u", ".bashrc", true), Ok("/home/u/.bashrc".to_string()));
    assert_eq!(parse_path("/home/u/work", "../.vimrc", true), Ok("/home/u/.vimrc".to_string()));
}

#[test]
fn parse_path_gives_a_path_that_is_not_empty_and_stays_absolute() {
    assert_eq!(parse_path("", "", true), Ok(".".to_string()));
    assert_eq!(parse_path("/cwd", "", true), Ok("/cwd".to_string()));
    assert_eq!(parse_path("/cwd", "..", true), Ok("/".to_string()));
    assert_eq!(parse_path("/cwd", "../../..", true), Ok("/".to_string()));
    assert_eq!(parse_path("cwd", "/..", true), Ok("/".to_string()));
    assert_eq!(parse_path("cwd", "a/../..", true), Ok(".".to_string()));
}

#[test]
fn parse_path_refuses_a_path_that_does_not_exist() {
    assert_eq!(parse_path("/cwd", "/a/b", false), Err("Given path does not exist".to_string()));
}
