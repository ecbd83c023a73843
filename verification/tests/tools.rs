use venus_whisper::agent::tools::fs::{
    is_binary, is_skipped_dir, parent_ref, path_or_root, EditFile, Grep, GrepHits, GrepWalk, ListDir,
    ReadFile, WalkEntry, WriteFile, GREP_LIMIT,
};
use venus_whisper::agent::tools::shell::RunShell;
use venus_whisper::agent::tools::web::{html_to_text, WebFetch};
use venus_whisper::agent::tools::{
    arg_str, is_read_only, raw_target, resolve_in_workspace, truncate, MAX_OUTPUT,
};

fn args(json: &str) -> serde_json::Value {
    serde_json::from_str(json).unwrap()
}

#[test]
fn truncate_keeps_char_boundary() {
    let s = "好".repeat(MAX_OUTPUT);
    let t = truncate(s);
    assert!(t.contains("输出已截断"));
    assert!(t.len() < MAX_OUTPUT + 100);
}

#[test]
fn truncate_reports_the_full_size() {
    let s = "a".repeat(MAX_OUTPUT + 1);
    let t = truncate(s);
    assert_eq!(t, format!("{}\n\n[... 输出已截断，共 {} 字节 ...]", "a".repeat(MAX_OUTPUT), MAX_OUTPUT + 1));
    assert_eq!(truncate("short".to_string()), "short");
}

#[test]
fn sandbox_check_rejects_paths_outside() {
    let ws = "/tmp/vw-ws";
    assert!(resolve_in_workspace(ws, "../x", "/tmp/x").is_err());
    assert!(resolve_in_workspace(ws, "/etc/passwd", "/etc/passwd").is_err());
    assert!(resolve_in_workspace(ws, "a/../../x", "/tmp/x").is_err());
    let ok = resolve_in_workspace(ws, "new.txt", "/tmp/vw-ws/new.txt").unwrap();
    assert_eq!(ok, raw_target(ws, "new.txt"));
    assert_eq!(
        resolve_in_workspace(ws, "../x", "/tmp/x").unwrap_err().message(),
        "拒绝：路径 ../x 超出 workspace /tmp/vw-ws"
    );
    assert!(resolve_in_workspace(ws, "x", "/tmp/vw-ws2/x").is_err());
}

#[test]
fn read_only_tools() {
    for t in ["read_file", "list_dir", "grep", "web_fetch"] {
        assert!(is_read_only(t));
    }
    for t in ["write_file", "edit_file", "run_shell", "x"] {
        assert!(!is_read_only(t));
    }
}

#[test]
fn missing_argument_is_named() {
    let e = arg_str(&args("{}"), "path").unwrap_err();
    assert_eq!(e.message(), "缺少参数 path");
    assert_eq!(arg_str(&args(r#"{"path":"a"}"#), "path").unwrap(), "a");
}

#[test]
fn read_whole_or_by_lines() {
    let r = ReadFile;
    let text = "foo\nbar\nfoo\n";
    let a = r.read_args(&args(r#"{"path":"a/b/c.txt"}"#)).unwrap();
    assert_eq!(r.render(text, a.offset, a.limit), "foo\nbar\nfoo\n");
    let a = r.read_args(&args(r#"{"path":"a/b/c.txt","offset":2,"limit":1}"#)).unwrap();
    assert_eq!(r.render(text, a.offset, a.limit), "2\tbar\n");
    let a = r.read_args(&args(r#"{"path":"x","offset":0}"#)).unwrap();
    assert_eq!(a.offset, 1);
    assert_eq!(r.render(text, 3, None), "3\tfoo\n");
    assert_eq!(r.render(text, 9, None), "");
    assert_eq!(r.render("a\r\nb", 1, Some(5)), "1\ta\n2\tb\n");
    assert!(r.read_args(&args("{}")).is_err());
}

#[test]
fn list_is_sorted_with_directory_marks() {
    let entries = vec![
        ("b.txt".to_string(), false),
        ("a".to_string(), true),
        ("C".to_string(), false),
    ];
    assert_eq!(ListDir.render(&entries), "C\na/\nb.txt");
    assert_eq!(ListDir.render(&[("b".to_string(), true)]), "b/");
    assert_eq!(path_or_root(&args("{}")), ".");
}

#[test]
fn edit_needs_a_unique_match() {
    let e = EditFile;
    let err = e.apply("foo\nbar\nfoo\n", "foo", "x").unwrap_err();
    assert!(err.message().contains("2 次"));
    assert_eq!(e.apply("foo\nbar\nfoo\n", "bar", "baz").unwrap(), "foo\nbaz\nfoo\n");
    assert_eq!(e.apply("abc", "zz", "x").unwrap_err().message(), "old 在文件中不存在");
    assert_eq!(e.apply("aaa", "aa", "b").unwrap(), "ba");
    assert_eq!(e.apply("", "", "new").unwrap(), "new");
    assert!(e.apply("ab", "", "x").is_err());
    assert_eq!(e.report("a.txt"), "已修改 a.txt");
}

#[test]
fn grep_reports_path_line_and_text() {
    let re = Grep.pattern(&args(r#"{"pattern":"ba."}"#)).unwrap();
    let mut hits = GrepHits::new();
    hits.add_file(&re, "a/b/c.txt", "foo\nbaz  \nfoo\n");
    assert!(!hits.check_limit());
    assert_eq!(hits.report(), "a/b/c.txt:2: baz");
    assert_eq!(GrepHits::new().report(), "无匹配");
    let bad = Grep.pattern(&args(r#"{"pattern":"("}"#)).err().unwrap();
    assert!(bad.message().starts_with("正则错误: "));
}

#[test]
fn grep_stops_at_the_limit() {
    let re = Grep.pattern(&args(r#"{"pattern":"x"}"#)).unwrap();
    let mut hits = GrepHits::new();
    let text = "x\n".repeat(GREP_LIMIT + 50);
    hits.add_file(&re, "f", &text);
    assert_eq!(hits.lines.len(), GREP_LIMIT);
    assert!(hits.check_limit());
    assert_eq!(hits.lines.last().unwrap(), "[... 超过 200 条，已截断 ...]");
}

#[test]
fn grep_skips_vendored_dirs_and_binaries() {
    assert!(is_skipped_dir(".git"));
    assert!(is_skipped_dir("node_modules"));
    assert!(!is_skipped_dir("src"));
    assert!(!is_skipped_dir("dist"));
    assert!(is_binary(&[1, 0, 2]));
    assert!(!is_binary(b"text"));
    let mut big = vec![b'a'; 9000];
    big[8500] = 0;
    assert!(!is_binary(&big));
}

#[test]
fn write_refuses_parent_refs_and_outside_paths() {
    let w = WriteFile;
    assert!(parent_ref("../x"));
    assert!(parent_ref("a\\..\\b"));
    assert!(!parent_ref("a..b/c"));
    assert!(w.check_path("/ws", "../x", Some("/")).is_err());
    assert_eq!(w.check_path("/ws", "a/b/c.txt", Some("/ws")).unwrap(), "/ws/a/b/c.txt");
    assert_eq!(
        w.check_path("/ws", "/etc/x", Some("/etc")).unwrap_err().message(),
        "拒绝：路径 /etc/x 超出 workspace"
    );
    assert_eq!(w.check_path("/ws", "x", None).unwrap_err().message(), "非法路径: x");
    assert_eq!(w.report("a.txt", "好"), "已写入 a.txt (3 字节)");
}

#[test]
fn shell_report_shows_stderr_and_exit() {
    let s = RunShell;
    let (cmd, timeout) = s.shell_args(&args(r#"{"command":"pwd && echo err >&2 && exit 3"}"#)).unwrap();
    assert_eq!(cmd, "pwd && echo err >&2 && exit 3");
    assert_eq!(timeout, 60);
    let out = s.report("/ws\n", "err\n", Some(3));
    assert!(out.starts_with("/ws"), "{out}");
    assert!(out.contains("[stderr]\nerr"));
    assert!(out.ends_with("[exit 3]"));
    assert_eq!(s.report("", "", None), "\n[exit -1]");
    assert_eq!(s.report("o", "e", Some(0)), "o\n[stderr]\ne\n[exit 0]");
}

#[test]
fn shell_timeout_message() {
    let s = RunShell;
    let (_, t) = s.shell_args(&args(r#"{"command":"sleep 5","timeout_secs":1}"#)).unwrap();
    assert_eq!(t, 1);
    assert!(s.timeout_error(t).message().contains("超时"));
    assert_eq!(s.timeout_error(1).message(), "命令超时（1s），已终止");
}

#[test]
fn strips_tags_scripts_and_styles() {
    let html = "<html><head><style>p{}</style><script>var x=1;</script></head><body><h1>Hi</h1><p>a &amp; b</p><div>c</div></body></html>";
    assert_eq!(html_to_text(html), "Hi\na & b\nc");
}

#[test]
fn fetch_accepts_only_http() {
    let w = WebFetch;
    assert!(w.url_arg(&args(r#"{"url":"https://example.com"}"#)).is_ok());
    assert_eq!(
        w.url_arg(&args(r#"{"url":"ftp://x"}"#)).unwrap_err().message(),
        "只支持 http/https"
    );
    assert_eq!(w.report("200 OK", "plain", false), "[HTTP 200 OK]\nplain");
    assert_eq!(w.report("200 OK", "<p>x &lt; y</p>", true), "[HTTP 200 OK]\nx < y");
}

#[test]
fn the_grep_walk_queues_directories_and_stops_at_the_limit() {
    let re = Grep.pattern(&args(r#"{"pattern":"x"}"#)).unwrap();
    let mut walk = GrepWalk::new("/ws".to_string());
    assert_eq!(walk.next_path().as_deref(), Some("/ws"));
    assert!(!walk.visit(&re, WalkEntry::Dir { path: "/ws/.git".into(), name: ".git".into() }));
    assert!(!walk.visit(&re, WalkEntry::Dir { path: "/ws/src".into(), name: "src".into() }));
    assert!(!walk.visit(&re, WalkEntry::Dir { path: "/ws/dist".into(), name: "dist".into() }));
    assert!(!walk.visit(
        &re,
        WalkEntry::File { rel: "bin".into(), bytes: vec![b'x', 0], text: "x".into() },
    ));
    assert!(!walk.visit(&re, WalkEntry::File { rel: "a.txt".into(), bytes: b"x\n".to_vec(), text: "x\n".into() }));
    assert_eq!(walk.hits.lines, ["a.txt:1: x"]);
    assert_eq!(walk.pending, ["/ws/src", "/ws/dist"]);
    let many = "x\n".repeat(GREP_LIMIT);
    assert!(walk.visit(
        &re,
        WalkEntry::File { rel: "b.txt".into(), bytes: many.clone().into_bytes(), text: many },
    ));
    assert_eq!(walk.hits.lines.len(), GREP_LIMIT + 1);
    assert!(walk.next_path().is_none());
    assert!(walk.report().ends_with("[... 超过 200 条，已截断 ...]"));
    let mut empty = GrepWalk::new("/ws".to_string());
    let _ = empty.next_path();
    assert!(empty.next_path().is_none());
    assert_eq!(empty.report(), "无匹配");
}
