use linkit::paths::{
    choose_stored_key, display_path, normalize_path, render_manifest_path, stored_key_for,
    to_forward_slashes,
};
use linkit::text::{replace_all_occurrences, without_leading_dot};

#[test]
fn replace_all_occurrences_left_to_right() {
    assert_eq!(replace_all_occurrences("nvim {path}", "{path}", "/repo"), "nvim /repo");
    assert_eq!(replace_all_occurrences("{path}{path}", "{path}", "x"), "xx");
    assert_eq!(replace_all_occurrences("aaa", "aa", "b"), "ba");
    assert_eq!(replace_all_occurrences("code .", "{path}", "/repo"), "code .");
    assert_eq!(replace_all_occurrences("", "{path}", "/repo"), "");
    assert_eq!(replace_all_occurrences("é{path}é", "{path}", "ü"), "éüé");
}

#[test]
fn forward_slashes_replace_backslashes() {
    assert_eq!(to_forward_slashes("a\\b\\c"), "a/b/c");
    assert_eq!(to_forward_slashes("/a/b"), "/a/b");
}

#[test]
fn leading_dot_dropped_once() {
    assert_eq!(without_leading_dot(".zshrc"), "zshrc");
    assert_eq!(without_leading_dot("..x"), ".x");
    assert_eq!(without_leading_dot("init.lua"), "init.lua");
    assert_eq!(without_leading_dot(""), "");
}

#[test]
fn render_under_home_and_elsewhere() {
    assert_eq!(render_manifest_path("/home/u/.zshrc", Some(".zshrc".to_string())), "~/.zshrc");
    assert_eq!(render_manifest_path("C:\\etc\\x", None), "C:/etc/x");
}

#[test]
fn display_path_strips_home_by_components() {
    assert_eq!(display_path("/home/u/.config/nvim", "/home/u"), "~/.config/nvim");
    assert_eq!(display_path("/home/user2/x", "/home/u"), "/home/user2/x");
    assert_eq!(display_path("/etc/hosts", "/home/u"), "/etc/hosts");
    assert_eq!(display_path("/home/u", "/home/u"), "~/");
}

#[test]
fn normalize_outside_home_keeps_path() {
    let r = normalize_path("/nonexistent-root-dir/file").unwrap();
    assert_eq!(r, "/nonexistent-root-dir/file");
}

#[test]
fn stored_key_defaults_to_file_name() {
    assert_eq!(stored_key_for(None, "/home/u/.zshrc"), "zshrc");
    assert_eq!(stored_key_for(None, "/home/u/.config/nvim/"), "nvim");
    assert_eq!(stored_key_for(Some("shell/zsh".to_string()), "/home/u/.zshrc"), "shell/zsh");
    assert_eq!(stored_key_for(None, "/"), "");
    assert_eq!(choose_stored_key(None, Some(".bashrc".to_string())), "bashrc");
    assert_eq!(choose_stored_key(None, None), "");
}
