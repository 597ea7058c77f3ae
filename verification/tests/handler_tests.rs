use linkit::config::{check_location, clone_destination, Config, DEFAULT_CLONE_DIR};
use linkit::error::LinkError;
use linkit::handler::{
    claim_slot, deploy_action, deploy_targets, detach_entry, identify_entry, link_key,
    link_source, open_command, record_link, resolve_entry, DeployAction, InputLocation,
    LinkSource,
};
use linkit::manifest::Manifest;

fn s(x: &str) -> String {
    x.to_string()
}

fn sample() -> Manifest {
    Manifest::from_parts(
        Some(s("nvim {path}")),
        vec![
            (s("zshrc"), s("~/.zshrc")),
            (s("nvim"), s("~/.config/nvim")),
            (s("hosts"), s("/etc/hosts")),
        ],
    )
}

fn loc(abs: &str) -> Option<InputLocation> {
    Some(InputLocation { absolute: s(abs), canonical: s(abs) })
}

#[test]
fn identify_by_key_needs_no_location() {
    let m = sample();
    assert_eq!(identify_entry("/repo", &m, "nvim", &None).unwrap(), "nvim");
}

#[test]
fn identify_by_system_path() {
    let m = sample();
    assert_eq!(identify_entry("/repo", &m, "/etc/hosts", &loc("/etc/hosts")).unwrap(), "hosts");
}

#[test]
fn identify_by_repository_path() {
    let m = sample();
    assert_eq!(identify_entry("/repo", &m, "/repo/zshrc", &loc("/repo/zshrc")).unwrap(), "zshrc");
}

#[test]
fn identify_unknown_is_not_found() {
    let m = sample();
    match identify_entry("/repo", &m, "/nowhere", &loc("/nowhere")) {
        Err(LinkError::EntryNotFound { input }) => assert_eq!(input, "/nowhere"),
        other => panic!("unexpected {:?}", other),
    }
}

#[test]
fn identify_relative_without_working_dir() {
    let m = sample();
    assert!(matches!(
        identify_entry("/repo", &m, "nowhere", &None),
        Err(LinkError::WorkingDirUnavailable)
    ));
}

#[test]
fn resolve_entry_order_of_rules() {
    let m = sample();
    assert_eq!(resolve_entry(&m, "hosts", "x", None), Some(s("hosts")));
    assert_eq!(resolve_entry(&m, "q", "~/.zshrc", Some(s("hosts"))), Some(s("zshrc")));
    assert_eq!(resolve_entry(&m, "q", "z", Some(s("nvim"))), Some(s("nvim")));
    assert_eq!(resolve_entry(&m, "q", "z", Some(s("other"))), None);
    assert_eq!(resolve_entry(&m, "q", "z", None), None);
}

#[test]
fn identify_outside_repository_is_not_found() {
    let m = sample();
    assert!(identify_entry("/repo", &m, "/elsewhere/nvim", &loc("/elsewhere/nvim")).is_err());
    assert!(identify_entry("/repo", &m, "/repository/nvim", &loc("/repository/nvim")).is_err());
}

#[test]
fn detach_takes_entry_out() {
    let mut m = sample();
    let d = detach_entry("/repo", &mut m, "hosts", &None).ok().unwrap();
    assert_eq!(d.stored_key, "hosts");
    assert_eq!(d.system_path, "/etc/hosts");
    assert_eq!(d.system_abs, "/etc/hosts");
    assert!(!m.contains_key("hosts"));
    assert_eq!(m.len(), 2);
}

#[test]
fn detach_unknown_leaves_manifest() {
    let mut m = sample();
    let before = m.to_pairs();
    assert!(detach_entry("/repo", &mut m, "/nowhere", &loc("/nowhere")).is_err());
    assert_eq!(m.to_pairs(), before);
}

#[test]
fn deploy_targets_in_key_order_with_home_expanded() {
    let m = sample();
    let t = deploy_targets(&m);
    let keys: Vec<&str> = t.iter().map(|x| x.stored_key.as_str()).collect();
    assert_eq!(keys, vec!["hosts", "nvim", "zshrc"]);
    assert_eq!(t[0].system_abs, "/etc/hosts");
    assert_eq!(t[2].system_path, "~/.zshrc");
    assert!(!t[2].system_abs.starts_with('~'));
    assert!(t[2].system_abs.ends_with("/.zshrc"));
}

#[test]
fn deploy_action_table() {
    assert_eq!(deploy_action(true, true, false), DeployAction::Skip);
    assert_eq!(deploy_action(true, true, true), DeployAction::Skip);
    assert_eq!(deploy_action(false, true, false), DeployAction::Conflict);
    assert_eq!(deploy_action(false, true, true), DeployAction::Replace);
    assert_eq!(deploy_action(false, false, false), DeployAction::Create);
    assert_eq!(deploy_action(false, false, true), DeployAction::Create);
}

#[test]
fn open_command_fills_in_repository() {
    let m = sample();
    assert_eq!(open_command(&m, "/home/u/dotfiles").unwrap(), "nvim /home/u/dotfiles");
    let none = Manifest::new();
    assert!(matches!(open_command(&none, "/r"), Err(LinkError::OpenCommandUnset)));
}

#[test]
fn link_steps() {
    let src = link_source("/nonexistent-root-dir/.vimrc").ok().unwrap();
    assert_eq!(src.system_path, "/nonexistent-root-dir/.vimrc");
    assert_eq!(src.system_abs, "/nonexistent-root-dir/.vimrc");
    match link_key(&src, false, None) {
        Err(LinkError::PathDoesNotExist { system_path }) => {
            assert_eq!(system_path, "/nonexistent-root-dir/.vimrc")
        }
        other => panic!("unexpected {:?}", other),
    }
    let key = link_key(&src, true, None).unwrap();
    assert_eq!(key, "vimrc");
    assert!(matches!(claim_slot(&key, &src, true), Err(LinkError::EntryExists { .. })));
    assert!(claim_slot(&key, &src, false).is_ok());
    let mut m = Manifest::new();
    record_link(&mut m, key, &src);
    assert_eq!(m.to_pairs(), vec![(s("vimrc"), s("/nonexistent-root-dir/.vimrc"))]);
}

#[test]
fn link_key_uses_requested_name() {
    let src = LinkSource { system_path: s("~/.zshrc"), system_abs: s("/home/u/.zshrc") };
    assert_eq!(link_key(&src, true, Some(s("shell/zshrc"))).unwrap(), "shell/zshrc");
}

#[test]
fn config_repository() {
    let mut c = Config::default();
    assert!(matches!(c.require_repository(), Err(LinkError::NoRepository)));
    c.set_repository(s("/home/u/dotfiles"));
    assert_eq!(c.require_repository().unwrap(), "/home/u/dotfiles");
}

#[test]
fn clone_and_locate_rules() {
    assert_eq!(clone_destination(None), DEFAULT_CLONE_DIR);
    assert_eq!(clone_destination(Some(s("x"))), "x");
    assert!(check_location("/r", true).is_ok());
    assert!(matches!(check_location("/r", false), Err(LinkError::LocationDoesNotExist { .. })));
}

#[test]
fn recorded_link_is_deployed() {
    let mut m = sample();
    let src = LinkSource { system_path: s("~/.gitconfig"), system_abs: s("/home/u/.gitconfig") };
    record_link(&mut m, s("gitconfig"), &src);
    let t = deploy_targets(&m);
    assert!(t.iter().any(|x| x.stored_key == "gitconfig" && x.system_path == "~/.gitconfig"));
}

#[test]
fn unlink_then_link_restores_listing() {
    let mut m = sample();
    let before = m.to_pairs();
    let d = detach_entry("/repo", &mut m, "nvim", &None).ok().unwrap();
    let src = LinkSource { system_path: d.system_path.clone(), system_abs: d.system_abs.clone() };
    record_link(&mut m, d.stored_key, &src);
    assert_eq!(m.to_pairs(), before);
}
