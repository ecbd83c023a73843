use venus_whisper::tokens::{estimate, estimate_messages};

#[test]
fn rough_but_monotonic() {
    assert_eq!(estimate(""), 0);
    assert_eq!(estimate("abcd"), 1);
    assert_eq!(estimate("你好世界"), 4);
    assert_eq!(estimate("hello 世界"), 2 + 2);
    assert!(estimate(&"x".repeat(400)) == 100);
    let msgs: Vec<serde_json::Value> = vec![
        serde_json::from_str(r#"{"role":"user","content":"你好"}"#).unwrap(),
        serde_json::from_str(
            r#"{"role":"assistant","content":null,"tool_calls":[{"id":"c","function":{"name":"read_file","arguments":"{}"}}]}"#,
        )
        .unwrap(),
    ];
    assert!(estimate_messages(&msgs) > 8);
}

#[test]
fn estimate_rounds_other_characters_up_and_skips_whitespace() {
    assert_eq!(estimate("abcde"), 2);
    assert_eq!(estimate("a b c d e"), 2);
    assert_eq!(estimate(" \n\t"), 0);
}

#[test]
fn message_overhead_is_four_each() {
    let msgs: Vec<serde_json::Value> = vec![
        serde_json::from_str(r#"{"role":"user"}"#).unwrap(),
        serde_json::from_str(r#"{"role":"user","content":null}"#).unwrap(),
    ];
    assert_eq!(estimate_messages(&msgs), 8);
    let one: Vec<serde_json::Value> =
        vec![serde_json::from_str(r#"{"role":"user","content":"abcd"}"#).unwrap()];
    assert_eq!(estimate_messages(&one), 5);
}

#[test]
fn appending_never_lowers_the_estimate() {
    let base = "hello";
    for more in ["", " ", "世界", "abcd efgh"] {
        assert!(estimate(&format!("{base}{more}")) >= estimate(base));
    }
}

#[test]
fn estimates_of_joined_texts_and_messages() {
    assert_eq!(estimate("ab") + estimate("cd"), 2);
    assert_eq!(estimate("abcd"), 1);
    assert!(estimate("abcd") <= estimate("ab") + estimate("cd"));
    assert_eq!(estimate("你好") + estimate("世界"), estimate("你好世界"));
    assert_eq!(estimate(" \n\t "), 0);
    assert_eq!(estimate("\u{3000}"), 1);
    let a: Vec<serde_json::Value> = vec![serde_json::from_str("{\"role\":\"user\",\"content\":\"你好\"}").unwrap()];
    let b: Vec<serde_json::Value> = vec![serde_json::from_str("{\"role\":\"tool\",\"content\":\"abcd\"}").unwrap()];
    let ab: Vec<serde_json::Value> = [a.clone(), b.clone()].concat();
    assert_eq!(estimate_messages(&ab), estimate_messages(&a) + estimate_messages(&b));
    assert_eq!(estimate_messages(&ab), 6 + 5);
    assert_eq!(estimate_messages(&[]), 0);
}
