use venus_whisper::json::parsed_or_text;
use venus_whisper::llm::openai::{chat_plan, chat_url, http_error};
use venus_whisper::llm::openai::{sse_payload, Assembler, LineBuffer, Choice, Chunk, Delta, DeltaFunction, DeltaToolCall};
use venus_whisper::llm::{LlmEvent, ToolCall};

fn text_chunk(content: Option<&str>, finish: Option<&str>) -> Chunk {
    Chunk {
        choices: vec![Choice {
            delta: Delta { content: content.map(|s| s.to_string()), tool_calls: vec![] },
            finish_reason: finish.map(|s| s.to_string()),
        }],
    }
}

fn call_chunk(index: usize, id: Option<&str>, name: Option<&str>, args: Option<&str>) -> Chunk {
    Chunk {
        choices: vec![Choice {
            delta: Delta {
                content: None,
                tool_calls: vec![DeltaToolCall {
                    index,
                    id: id.map(|s| s.to_string()),
                    function: DeltaFunction {
                        name: name.map(|s| s.to_string()),
                        arguments: args.map(|s| s.to_string()),
                    },
                }],
            },
            finish_reason: None,
        }],
    }
}

fn run(chunks: Vec<Chunk>) -> Vec<LlmEvent> {
    let mut assembler = Assembler::new();
    let mut out = vec![];
    for c in chunks {
        out.extend(assembler.feed_chunk(c));
    }
    out.extend(assembler.finish());
    out
}

#[test]
fn assembles_fragmented_tool_call() {
    let ev = run(vec![
        call_chunk(0, Some("call_abc"), Some("read_file"), Some("")),
        call_chunk(0, None, None, Some("{\"pa")),
        call_chunk(0, None, None, Some("th\":\"a.")),
        call_chunk(0, None, None, Some("txt\"}")),
        text_chunk(None, Some("tool_calls")),
    ]);
    assert_eq!(
        ev,
        vec![
            LlmEvent::ToolCall(ToolCall {
                id: "call_abc".into(),
                name: "read_file".into(),
                arguments: r#"{"path":"a.txt"}"#.into()
            }),
            LlmEvent::Done
        ]
    );
}

#[test]
fn streams_text_deltas_in_order() {
    let ev = run(vec![
        text_chunk(Some(""), None),
        text_chunk(Some("你"), None),
        text_chunk(Some("好"), None),
        text_chunk(None, Some("stop")),
    ]);
    assert_eq!(
        ev,
        vec![LlmEvent::Delta("你".into()), LlmEvent::Delta("好".into()), LlmEvent::Done]
    );
}

#[test]
fn two_parallel_tool_calls_keep_index_order() {
    let ev = run(vec![
        call_chunk(1, Some("b"), Some("list_dir"), Some("{}")),
        call_chunk(0, Some("a"), Some("read_file"), Some("{}")),
    ]);
    assert_eq!(ev.len(), 3);
    assert!(matches!(&ev[0], LlmEvent::ToolCall(t) if t.id == "a"));
    assert!(matches!(&ev[1], LlmEvent::ToolCall(t) if t.id == "b"));
    assert_eq!(ev[2], LlmEvent::Done);
}

#[test]
fn sse_lines_give_payloads() {
    assert_eq!(sse_payload("data: {\"a\":1}"), Some("{\"a\":1}".to_string()));
    assert_eq!(sse_payload("data: [DONE]"), None);
    assert_eq!(sse_payload(": keep-alive comment"), None);
    assert_eq!(sse_payload("data:   "), None);
}

#[test]
fn missing_call_id_gets_a_fresh_one() {
    let ev = run(vec![call_chunk(0, None, Some("grep"), Some("{}"))]);
    assert_eq!(ev.len(), 2);
    match &ev[0] {
        LlmEvent::ToolCall(t) => {
            assert!(t.id.starts_with("call_"));
            assert_eq!(t.id.len(), 37);
            assert!(t.id[5..].chars().all(|c| c.is_ascii_digit() || ('a'..='f').contains(&c)));
            assert_eq!(t.name, "grep");
        }
        other => panic!("unexpected {other:?}"),
    }
}

#[test]
fn line_buffer_splits_complete_lines() {
    let mut b = LineBuffer::new();
    assert_eq!(b.push("data: a\r"), Vec::<String>::new());
    assert_eq!(b.push("\ndata: b\n\nda"), vec!["data: a", "data: b", ""]);
    assert_eq!(b.push("ta: c\r\r\n"), vec!["data: c"]);
}

#[test]
fn the_chat_url_drops_trailing_slashes() {
    assert_eq!(chat_url("https://api.example.com/v1/"), "https://api.example.com/v1/chat/completions");
    assert_eq!(chat_url("http://localhost:11434/v1//"), "http://localhost:11434/v1/chat/completions");
    assert_eq!(chat_url("http://h"), "http://h/chat/completions");
}

#[test]
fn an_http_error_keeps_the_first_500_characters_of_the_body() {
    assert_eq!(http_error("401 Unauthorized", "bad key").message(), "LLM HTTP 401 Unauthorized: bad key");
    let long = "错".repeat(600);
    let m = http_error("500 Internal Server Error", &long).message();
    assert_eq!(m, format!("LLM HTTP 500 Internal Server Error: {}", "错".repeat(500)));
}

#[test]
fn tool_arguments_are_parsed_or_kept_as_text() {
    let v = parsed_or_text("{\"path\":\"a.txt\"}").unwrap();
    assert_eq!(v["path"], "a.txt");
    assert_eq!(parsed_or_text("not json").unwrap_err(), "not json");
}

#[test]
fn a_request_sends_tools_and_auth_only_when_there_are_any() {
    let p = chat_plan("http://h/v1/", "", 0);
    assert_eq!(p.url, "http://h/v1/chat/completions");
    assert!(!p.send_tools);
    assert!(p.bearer.is_none());
    let p = chat_plan("http://h/v1", "sk-1", 3);
    assert!(p.send_tools);
    assert_eq!(p.bearer.as_deref(), Some("sk-1"));
}

#[test]
fn tool_calls_are_handed_out_once() {
    let mut assembler = Assembler::new();
    let first = assembler.feed_chunk(call_chunk(0, Some("c1"), Some("read_file"), Some("{}")));
    assert!(first.is_empty());
    let flushed = assembler.feed_chunk(text_chunk(None, Some("tool_calls")));
    assert_eq!(flushed.len(), 1);
    let later = assembler.feed_chunk(call_chunk(1, Some("c2"), Some("grep"), Some("{}")));
    assert!(later.iter().all(|e| !matches!(e, LlmEvent::ToolCall(_))));
    assert_eq!(assembler.finish(), vec![LlmEvent::Done]);
}
