use linkit::keys::{compare_keys, KeyOrder};
use linkit::manifest::Manifest;

fn pairs(m: &Manifest) -> Vec<(String, String)> {
    m.to_pairs()
}

fn s(x: &str) -> String {
    x.to_string()
}

#[test]
fn keys_compare_bytewise() {
    assert_eq!(compare_keys("a", "b"), KeyOrder::Less);
    assert_eq!(compare_keys("b", "a"), KeyOrder::Greater);
    assert_eq!(compare_keys("nvim", "nvim"), KeyOrder::Equal);
    assert_eq!(compare_keys("nvim", "nvim/init.lua"), KeyOrder::Less);
    assert_eq!(compare_keys("Z", "a"), KeyOrder::Less);
    assert_eq!(compare_keys("", "a"), KeyOrder::Less);
    assert_eq!(compare_keys("é", "z"), KeyOrder::Greater);
}

#[test]
fn new_manifest_is_empty() {
    let m = Manifest::new();
    assert_eq!(m.len(), 0);
    assert_eq!(m.open_cmd(), None);
    assert!(!m.contains_key("zshrc"));
}

#[test]
fn insert_keeps_key_order() {
    let mut m = Manifest::new();
    m.insert(s("zshrc"), s("~/.zshrc"));
    m.insert(s("bashrc"), s("~/.bashrc"));
    m.insert(s("nvim"), s("~/.config/nvim"));
    assert_eq!(
        pairs(&m),
        vec![
            (s("bashrc"), s("~/.bashrc")),
            (s("nvim"), s("~/.config/nvim")),
            (s("zshrc"), s("~/.zshrc")),
        ]
    );
    assert_eq!(m.key_at(0), "bashrc");
    assert_eq!(m.target_at(2), "~/.zshrc");
}

#[test]
fn insert_replaces_existing_key() {
    let mut m = Manifest::new();
    m.insert(s("zshrc"), s("~/.zshrc"));
    m.insert(s("zshrc"), s("/etc/zshrc"));
    assert_eq!(pairs(&m), vec![(s("zshrc"), s("/etc/zshrc"))]);
}

#[test]
fn remove_gives_back_path() {
    let mut m = Manifest::new();
    m.insert(s("a"), s("~/a"));
    m.insert(s("b"), s("~/b"));
    assert_eq!(m.remove("a"), Some(s("~/a")));
    assert_eq!(m.remove("a"), None);
    assert_eq!(pairs(&m), vec![(s("b"), s("~/b"))]);
}

#[test]
fn link_then_unlink_restores_listing() {
    let mut m = Manifest::new();
    m.insert(s("b"), s("~/b"));
    m.insert(s("d"), s("~/d"));
    let before = pairs(&m);
    m.insert(s("c"), s("~/c"));
    assert_ne!(pairs(&m), before);
    m.remove("c");
    assert_eq!(pairs(&m), before);
}

#[test]
fn contains_key_and_find_by_target() {
    let mut m = Manifest::new();
    m.insert(s("b"), s("~/same"));
    m.insert(s("a"), s("~/same"));
    m.insert(s("c"), s("~/other"));
    assert!(m.contains_key("a"));
    assert!(!m.contains_key("d"));
    // The first entry in key order wins.
    assert_eq!(m.find_key_by_target("~/same"), Some(s("a")));
    assert_eq!(m.find_key_by_target("~/other"), Some(s("c")));
    assert_eq!(m.find_key_by_target("~/none"), None);
}

#[test]
fn from_parts_sorts_and_later_pair_wins() {
    let m = Manifest::from_parts(
        Some(s("nvim {path}")),
        vec![(s("z"), s("1")), (s("a"), s("2")), (s("z"), s("3"))],
    );
    assert_eq!(m.open_cmd(), Some(s("nvim {path}")));
    assert_eq!(pairs(&m), vec![(s("a"), s("2")), (s("z"), s("3"))]);
}

#[test]
fn pairs_round_trip() {
    let m = Manifest::from_parts(None, vec![(s("k2"), s("v2")), (s("k1"), s("v1"))]);
    let again = Manifest::from_parts(m.open_cmd(), m.to_pairs());
    assert_eq!(pairs(&again), pairs(&m));
}
