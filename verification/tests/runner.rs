use venus_whisper::agent::runner::{
    after_approval, approval_key, context_usage, is_session_key, safe_emit_len, split_meta,
    system_prompt, turn_budget, ApprovalOutcome, Decision, Turn, TurnAction,
};
use venus_whisper::llm::{LlmEvent, ToolCall};

#[test]
fn safe_emit_and_strip_meta() {
    assert_eq!(safe_emit_len("hello"), 5);
    assert_eq!(safe_emit_len("hello<m"), 5);
    assert_eq!(safe_emit_len("hello \n<m"), 5);
    assert_eq!(safe_emit_len("hello<meta>{"), 5);
    assert_eq!(safe_emit_len("a<b"), 3);
    let (t, r) = split_meta(
        "正文\n<meta>{\"emotion\":\"sad\",\"suggested_reaction\":\"sad_slump\"}</meta>",
    );
    assert_eq!(t, "正文");
    let r: serde_json::Value = serde_json::from_str(&r.unwrap()).unwrap();
    assert_eq!(r["suggested_reaction"], "sad_slump");
    let (t, r) = split_meta("no meta here");
    assert_eq!(t, "no meta here");
    assert!(r.is_none());
}

#[test]
fn streamed_pieces_add_up_to_the_reply() {
    let mut turn = Turn::new();
    let mut seen = String::new();
    for piece in ["你好", "，世界 ", "\n<me", "ta>{\"emotion\":\"happy\"}", "</meta>"] {
        match turn.step(LlmEvent::Delta(piece.to_string())) {
            TurnAction::Show(t) => seen.push_str(&t),
            TurnAction::Wait => {}
            TurnAction::Stop => panic!("stopped on a delta"),
        }
        assert!(!seen.contains("<m"));
    }
    assert_eq!(seen, "你好，世界");
    assert!(matches!(turn.step(LlmEvent::Done), TurnAction::Stop));
    let end = turn.finish();
    assert_eq!(end.clean, "你好，世界");
    assert_eq!(end.reaction.as_deref(), Some("{\"emotion\":\"happy\"}"));
    assert_eq!(end.tail, "");
}

#[test]
fn tail_is_shown_when_a_lone_tag_start_turns_out_to_be_text() {
    let mut turn = Turn::new();
    let mut seen = String::new();
    for piece in ["a <", "me"] {
        if let TurnAction::Show(t) = turn.step(LlmEvent::Delta(piece.to_string())) {
            seen.push_str(&t);
        }
    }
    assert_eq!(seen, "a");
    let end = turn.finish();
    assert_eq!(end.clean, "a <me");
    assert_eq!(format!("{seen}{}", end.tail), "a <me");
}

#[test]
fn turn_collects_calls_and_usage() {
    let mut turn = Turn::new();
    let call = ToolCall { id: "c1".into(), name: "grep".into(), arguments: "{}".into() };
    assert!(matches!(turn.step(LlmEvent::ToolCall(call.clone())), TurnAction::Wait));
    assert!(matches!(
        turn.step(LlmEvent::Usage { prompt_tokens: 10, completion_tokens: 3 }),
        TurnAction::Wait
    ));
    assert_eq!(turn.calls(), &vec![call]);
    assert_eq!(turn.usage(), Some((10, 3)));
    assert_eq!(turn.text_string(), "");
}

#[test]
fn prompt_lists_skills_and_the_convention() {
    let p = system_prompt("我是人格", &[("s1".to_string(), "正文".to_string())]);
    assert!(p.starts_with("我是人格\n\n## 可用技能\n以下是用户启用的技能文档，按需遵循。\n\n### s1\n正文\n"));
    assert!(p.contains("## 输出约定"));
    assert!(p.contains("idle_breath"));
    let q = system_prompt("p", &[]);
    assert!(q.starts_with("p\n\n## 输出约定"));
}

#[test]
fn approval_keys_belong_to_their_session() {
    let k = approval_key("s1", "call_9");
    assert_eq!(k, "s1/call_9");
    assert!(is_session_key(&k, "s1"));
    assert!(!is_session_key(&k, "s"));
}

#[test]
fn always_on_shell_persists_the_prefix() {
    let a: serde_json::Value = serde_json::from_str(r#"{"command":"git   status -s"}"#).unwrap();
    match after_approval(Decision::Always, "run_shell", &a) {
        ApprovalOutcome::RunAndAllow(p) => assert_eq!(p, "git status"),
        _ => panic!("expected a prefix"),
    }
    assert!(matches!(after_approval(Decision::Always, "write_file", &a), ApprovalOutcome::Run));
    assert!(matches!(after_approval(Decision::Deny, "run_shell", &a), ApprovalOutcome::Denied));
    assert!(matches!(after_approval(Decision::Allow, "run_shell", &a), ApprovalOutcome::Run));
}

#[test]
fn budget_is_at_least_one_turn() {
    assert_eq!(turn_budget(0), 1);
    assert_eq!(turn_budget(30), 30);
}

#[test]
fn context_usage_adds_system_and_history() {
    let hist: Vec<serde_json::Value> =
        vec![serde_json::from_str(r#"{"role":"user","content":"abcd"}"#).unwrap()];
    let u = context_usage("s", "persona", &[], 7, &hist, 1000);
    assert_eq!(u.call, 0);
    assert!(u.estimated);
    assert_eq!(u.breakdown.history, 5);
    assert_eq!(u.breakdown.tools, 7);
    assert_eq!(u.prompt_tokens, u.system_tokens + 5);
    assert_eq!(u.context_window, 1000);
}

#[test]
fn what_was_shown_is_never_taken_back() {
    let text = "好的 <meta>{\"emotion\":\"happy\"}</meta>";
    let mut last = 0;
    for end in text.char_indices().map(|(i, _)| i).chain([text.len()]) {
        let n = safe_emit_len(&text[..end]);
        assert!(n >= last);
        assert!(text[..end].starts_with(&text[..n]));
        last = n;
    }
    assert_eq!(last, "好的".len());
}
