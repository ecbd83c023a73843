use venus_whisper::agent::runner::Decision;
use venus_whisper::agent::steps::{
    completion_estimate, execute_step, run_step, usage_for_call, ExecAction, ExecEvent, ExecState,
    RunAction, RunEvent, RunState,
};
use venus_whisper::config::ApprovalMode;
use venus_whisper::events::{Breakdown, Usage};
use venus_whisper::llm::ToolCall;

fn call_event(name: &str, arguments: &str, mode: ApprovalMode, allowed: &[&str]) -> ExecEvent {
    ExecEvent::Call {
        name: name.to_string(),
        arguments: arguments.to_string(),
        mode,
        allowed: allowed.iter().map(|s| s.to_string()).collect(),
    }
}

fn finish_of(a: ExecAction) -> (String, bool, bool) {
    match a {
        ExecAction::Finish { output, ok, timed } => (output, ok, timed),
        _ => panic!("expected the end of the call"),
    }
}

fn tool_call(id: &str, name: &str, arguments: &str) -> ToolCall {
    ToolCall { id: id.to_string(), name: name.to_string(), arguments: arguments.to_string() }
}

fn fail_of(a: RunAction) -> String {
    match a {
        RunAction::Fail(e) => e.message(),
        _ => panic!("expected the run to fail"),
    }
}

#[test]
fn arguments_that_are_not_json_end_the_call_untimed() {
    let (s, a) = execute_step(ExecState::Idle, call_event("read_file", "{", ApprovalMode::Ask, &[]));
    assert!(matches!(s, ExecState::Done));
    let parse_error = serde_json::from_str::<serde_json::Value>("{").unwrap_err().to_string();
    assert_eq!(finish_of(a), (format!("error: 参数不是合法 JSON: {parse_error}"), false, false));
}

#[test]
fn an_unknown_tool_ends_the_call() {
    let (s, a) = execute_step(ExecState::Idle, call_event("fly", "{}", ApprovalMode::FullAuto, &[]));
    assert!(matches!(s, ExecState::Done));
    assert_eq!(finish_of(a), ("error: 未知工具 fly".to_string(), false, false));
}

#[test]
fn a_read_runs_at_once_with_its_arguments() {
    let (s, a) =
        execute_step(ExecState::Idle, call_event("read_file", "{\"path\":\"a.txt\"}", ApprovalMode::Ask, &[]));
    assert!(matches!(s, ExecState::Running));
    match a {
        ExecAction::Run(v) => assert_eq!(v["path"], "a.txt"),
        _ => panic!("expected the tool to run"),
    }
    let (s, a) = execute_step(s, ExecEvent::Outcome(Ok("file body".to_string())));
    assert!(matches!(s, ExecState::Done));
    assert_eq!(finish_of(a), ("file body".to_string(), true, true));
}

#[test]
fn a_write_asks_and_an_unanswered_or_denied_question_never_runs() {
    for answer in [None, Some(Decision::Deny)] {
        let (s, a) = execute_step(
            ExecState::Idle,
            call_event("write_file", "{\"path\":\"a\",\"content\":\"x\"}", ApprovalMode::Ask, &[]),
        );
        assert!(matches!(a, ExecAction::Ask));
        match &s {
            ExecState::Asking { name, args } => {
                assert_eq!(name, "write_file");
                assert_eq!(args["path"], "a");
            }
            _ => panic!("expected a question"),
        }
        let (s, a) = execute_step(s, ExecEvent::Answer(answer));
        assert!(matches!(s, ExecState::Done));
        assert_eq!(finish_of(a), ("denied by user".to_string(), false, true));
    }
}

#[test]
fn always_on_a_shell_command_allows_its_prefix() {
    let (s, a) = execute_step(
        ExecState::Idle,
        call_event("run_shell", "{\"command\":\"git status --short\"}", ApprovalMode::Ask, &[]),
    );
    assert!(matches!(a, ExecAction::Ask));
    let (s, a) = execute_step(s, ExecEvent::Answer(Some(Decision::Always)));
    assert!(matches!(s, ExecState::Running));
    match a {
        ExecAction::RunAndAllow { args, prefix } => {
            assert_eq!(prefix, "git status");
            assert_eq!(args["command"], "git status --short");
        }
        _ => panic!("expected the prefix to be allowed"),
    }
    let (s, a) = execute_step(s, ExecEvent::Outcome(Err("exit 1".to_string())));
    assert_eq!(finish_of(a), ("error: exit 1".to_string(), false, true));
    let (_, a) = execute_step(s, ExecEvent::Answer(Some(Decision::Allow)));
    assert!(matches!(a, ExecAction::Ignore));
}

#[test]
fn an_allowlisted_command_runs_without_asking() {
    let (s, a) = execute_step(
        ExecState::Idle,
        call_event("run_shell", "{\"command\":\"git status\"}", ApprovalMode::AutoEdit, &["git status"]),
    );
    assert!(matches!(s, ExecState::Running));
    assert!(matches!(a, ExecAction::Run(_)));
    let (_, a) = execute_step(
        ExecState::Idle,
        call_event("run_shell", "{\"command\":\"rm -rf x\"}", ApprovalMode::AutoEdit, &["git status"]),
    );
    assert!(matches!(a, ExecAction::Ask));
}

#[test]
fn a_reply_without_tool_calls_ends_the_run() {
    let (s, a) = run_step(RunState::Idle, RunEvent::Start { max_turns: 3 });
    assert!(matches!(a, RunAction::Call(1)));
    let (s, a) = run_step(s, RunEvent::CallEnded { clean: "hi".to_string(), calls: vec![] });
    assert!(matches!(s, RunState::Finished));
    match a {
        RunAction::StoreReply(c) => assert_eq!(c, "hi"),
        _ => panic!("expected the reply to be stored"),
    }
}

#[test]
fn tool_calls_are_stored_executed_in_order_then_the_next_call_comes() {
    let (s, _) = run_step(RunState::Idle, RunEvent::Start { max_turns: 2 });
    let calls = vec![tool_call("c1", "read_file", "{}"), tool_call("c2", "list_dir", "{}")];
    let (s, a) = run_step(s, RunEvent::CallEnded { clean: "看看".to_string(), calls });
    match a {
        RunAction::StoreToolCalls { content, calls } => {
            assert_eq!(content.as_deref(), Some("看看"));
            assert_eq!(calls.len(), 2);
        }
        _ => panic!("expected the tool calls to be stored"),
    }
    let (s, a) = run_step(s, RunEvent::Next);
    assert!(matches!(a, RunAction::Execute(c) if c.id == "c1"));
    let (s, a) = run_step(s, RunEvent::Next);
    assert!(matches!(a, RunAction::Execute(c) if c.id == "c2"));
    let (s, a) = run_step(s, RunEvent::Next);
    assert!(matches!(a, RunAction::Call(2)));
    let (_, a) = run_step(s, RunEvent::Cancelled);
    assert_eq!(fail_of(a), "已取消");
}

#[test]
fn the_turn_limit_stops_the_run() {
    let (s, a) = run_step(RunState::Idle, RunEvent::Start { max_turns: 0 });
    assert!(matches!(a, RunAction::Call(1)));
    let (s, a) = run_step(
        s,
        RunEvent::CallEnded { clean: String::new(), calls: vec![tool_call("c1", "read_file", "{}")] },
    );
    assert!(matches!(a, RunAction::StoreToolCalls { content: None, .. }));
    let (s, a) = run_step(s, RunEvent::Next);
    assert!(matches!(a, RunAction::Execute(_)));
    let (s, a) = run_step(s, RunEvent::Next);
    assert!(matches!(s, RunState::Finished));
    assert_eq!(fail_of(a), "达到最大轮次 1，已停止");
}

#[test]
fn a_missing_model_ends_the_run() {
    let (s, _) = run_step(RunState::Idle, RunEvent::Start { max_turns: 5 });
    let (_, a) = run_step(s, RunEvent::NoModel);
    assert_eq!(fail_of(a), "没有配置任何模型，请先在设置里添加");
}

#[test]
fn completion_is_estimated_from_text_and_tool_arguments() {
    assert_eq!(completion_estimate("abcd", &vec![]), Some(1));
    assert_eq!(completion_estimate("abcd", &vec![tool_call("c", "read_file", "{}")]), Some(1 + 1 + 8));
}

fn system_usage() -> Usage {
    Usage {
        session_id: "s".to_string(),
        call: 0,
        prompt_tokens: 50,
        completion_tokens: 0,
        system_tokens: 40,
        estimated: true,
        context_window: 8000,
        breakdown: Breakdown { persona: 10, skills: 5, convention: 3, tools: 22, history: 0, current: 0, run: 0 },
    }
}

fn body() -> Vec<serde_json::Value> {
    vec![
        serde_json::from_str("{\"role\":\"user\",\"content\":\"你好\"}").unwrap(),
        serde_json::from_str("{\"role\":\"user\",\"content\":\"abcd\"}").unwrap(),
        serde_json::from_str("{\"role\":\"tool\",\"tool_call_id\":\"c\",\"content\":\"hi\"}").unwrap(),
    ]
}

#[test]
fn usage_prefers_the_server_and_splits_the_messages() {
    let u = usage_for_call("s1", 2, Some((100, 20)), 77, "abcd", &vec![], &system_usage(), &body(), 2).unwrap();
    assert_eq!(u.session_id, "s1");
    assert_eq!(u.call, 2);
    assert_eq!((u.prompt_tokens, u.completion_tokens, u.estimated), (100, 20, false));
    assert_eq!((u.system_tokens, u.context_window), (40, 8000));
    assert_eq!((u.breakdown.persona, u.breakdown.skills, u.breakdown.convention, u.breakdown.tools), (10, 5, 3, 22));
    assert_eq!((u.breakdown.history, u.breakdown.current, u.breakdown.run), (6, 5, 5));
}

#[test]
fn usage_falls_back_to_local_estimates() {
    let calls = vec![tool_call("c", "read_file", "{}")];
    let u = usage_for_call("s1", 1, None, 77, "abcd", &calls, &system_usage(), &body(), 3).unwrap();
    assert_eq!((u.prompt_tokens, u.completion_tokens, u.estimated), (77, 10, true));
    assert_eq!((u.breakdown.history, u.breakdown.current, u.breakdown.run), (11, 5, 0));
}
