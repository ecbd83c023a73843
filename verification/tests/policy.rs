use venus_whisper::agent::policy::{check, command_prefix, Verdict};
use venus_whisper::config::{AgentConfig, ApprovalMode, Config};

fn json_args(json: &str) -> serde_json::Value {
    serde_json::from_str(json).unwrap()
}

#[test]
fn truth_table() {
    let none: &[String] = &[];
    let cases = [
        (ApprovalMode::Ask, "read_file", Verdict::Allow),
        (ApprovalMode::Ask, "grep", Verdict::Allow),
        (ApprovalMode::Ask, "web_fetch", Verdict::Allow),
        (ApprovalMode::Ask, "write_file", Verdict::Ask),
        (ApprovalMode::AutoEdit, "write_file", Verdict::Allow),
        (ApprovalMode::FullAuto, "edit_file", Verdict::Allow),
        (ApprovalMode::Ask, "run_shell", Verdict::Ask),
        (ApprovalMode::AutoEdit, "run_shell", Verdict::Ask),
        (ApprovalMode::FullAuto, "run_shell", Verdict::Allow),
        (ApprovalMode::FullAuto, "unknown_tool", Verdict::Ask),
    ];
    for (mode, tool, want) in cases {
        assert_eq!(
            check(mode, tool, &json_args(r#"{"command":"ls"}"#), none),
            want,
            "{mode:?} {tool}"
        );
    }
}

#[test]
fn allowlist_prefix_matches_whole_tokens() {
    let allowed = vec!["git status".to_string(), "ls".to_string()];
    let v = |c: &str| {
        let a = serde_json::Value::Object(
            [("command".to_string(), serde_json::Value::String(c.to_string()))]
                .into_iter()
                .collect(),
        );
        check(ApprovalMode::Ask, "run_shell", &a, &allowed)
    };
    assert_eq!(v("git status"), Verdict::Allow);
    assert_eq!(v("git status --short"), Verdict::Allow);
    assert_eq!(v("git statusx"), Verdict::Ask);
    assert_eq!(v("git push"), Verdict::Ask);
    assert_eq!(v("ls -la"), Verdict::Allow);
    assert_eq!(v("lsof"), Verdict::Ask);
}

#[test]
fn prefix_takes_two_tokens() {
    assert_eq!(command_prefix("git   status --short"), "git status");
    assert_eq!(command_prefix("ls"), "ls");
    assert_eq!(command_prefix("  pnpm test -- --watch"), "pnpm test");
}

#[test]
fn always_allow_then_the_same_command_runs() {
    let mut agent: AgentConfig = Config::defaults().agent;
    let ws = "/tmp/proj";
    let cmd = "cargo test --all";
    let a = json_args(r#"{"command":"cargo test --all"}"#);
    assert_eq!(
        check(ApprovalMode::Ask, "run_shell", &a, agent.allowed_commands_for(ws)),
        Verdict::Ask
    );
    agent.add_allowed_command_for(ws, &command_prefix(cmd));
    assert_eq!(
        check(ApprovalMode::Ask, "run_shell", &a, agent.allowed_commands_for(ws)),
        Verdict::Allow
    );
    assert!(agent.allowed_commands_for("/other").is_empty());
}

#[test]
fn prefix_of_empty_command_is_empty() {
    assert_eq!(command_prefix("   "), "");
    assert_eq!(command_prefix(""), "");
}
