use venus_whisper::config::{ApprovalMode, Config};
use venus_whisper::events::{action_names, is_action, sanitize_reaction};
use venus_whisper::path::{expand_home_with, join_path};

#[test]
fn defaults_match_the_template() {
    let a = Config::defaults();
    assert_eq!(a.agent.approval_mode, ApprovalMode::Ask);
    assert_eq!(a.agent.max_turns, 30);
    assert_eq!(a.ui.theme, "mint");
    assert_eq!(a.agent.persona, "builtin/venus");
}

#[test]
fn allowlist_is_per_workspace_and_not_duplicated() {
    let mut cfg = Config::defaults();
    cfg.agent.add_allowed_command_for("/tmp/proj", "git status");
    cfg.agent.add_allowed_command_for("/tmp/proj", "git status");
    assert_eq!(cfg.agent.allowed_commands_for("/tmp/proj"), ["git status"]);
    assert!(cfg.agent.allowed_commands_for("/other").is_empty());
    assert_eq!(cfg.agent.allowed_commands_for("/tmp/proj/"), ["git status"]);
}

#[test]
fn home_expansion_and_joining() {
    assert_eq!(expand_home_with("~/x", Some("/home/u")), "/home/u/x");
    assert_eq!(expand_home_with("~", Some("/home/u")), "/home/u/");
    assert_eq!(expand_home_with("/abs", Some("/home/u")), "/abs");
    assert_eq!(join_path("/a", "b"), "/a/b");
    assert_eq!(join_path("/a/", "b"), "/a/b");
    assert_eq!(join_path("/a", "/b"), "/b");
}

#[test]
fn reaction_sanitizes_unknown_action() {
    assert_eq!(sanitize_reaction("backflip"), "idle_breath");
    assert_eq!(sanitize_reaction("nod"), "nod");
    assert!(action_names().iter().all(|a| is_action(a)));
}

#[test]
fn adding_a_prefix_twice_leaves_the_config_as_once() {
    let mut cfg = Config::defaults();
    cfg.agent.add_allowed_command_in("/tmp/proj", "cargo test", Some("/home/u"));
    let once = cfg.clone();
    cfg.agent.add_allowed_command_in("/tmp/proj", "cargo test", Some("/home/u"));
    assert_eq!(cfg, once);
    assert_eq!(cfg.agent.allowed_commands_in("/tmp/proj", Some("/home/u")), ["cargo test"]);
}

#[test]
fn a_workspace_written_with_a_tilde_keeps_its_allowlist() {
    let mut cfg = Config::defaults();
    cfg.agent.add_allowed_command_in("~/proj", "npm test", Some("/home/u"));
    cfg.agent.add_allowed_command_in("~/proj", "npm test", Some("/home/u"));
    assert_eq!(cfg.agent.allow.len(), 1);
    assert_eq!(cfg.agent.allowed_commands_in("~/proj", Some("/home/u")), ["npm test"]);
    assert_eq!(cfg.agent.allowed_commands_in("/home/u/proj", Some("/home/u")), ["npm test"]);
}
