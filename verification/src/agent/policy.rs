//! Approval policy: whether a tool call runs at once or waits for the user. Paths outside
//! the workspace are refused by the tools' sandbox, not here.
use vstd::prelude::*;
use crate::agent::tools::{is_read_only, is_read_only_name};
use crate::config::{add_spec, allowed_for, lemma_added_prefix_is_allowed, AllowEntry, ApprovalMode};
use crate::json::{get_str, member_str};
use crate::text::{
    chars_of, is_prefix, join, join_chars, lemma_join_append, seq_eq, split_tokens, starts_with,
    str_eq, string_of, tokens, trim, trim_chars,
};

verus! {

/// The outcome of the policy.
#[derive(Debug, Clone, Copy, PartialEq, Eq, Structural)]
pub enum Verdict {
    Allow,
    Ask,
}

/// An allowlist entry `p` covers a command when the command is `p` or starts with `p`
/// followed by a space: the prefix matches whole tokens.
pub open spec fn covers(p: Seq<char>, cmd: Seq<char>) -> bool {
    cmd == p || is_prefix(p + seq![' '], cmd)
}

/// Some entry of `allowed` covers `cmd`.
pub open spec fn allowlisted(allowed: Seq<Seq<char>>, cmd: Seq<char>) -> bool {
    exists|i: int| 0 <= i < allowed.len() && covers(#[trigger] allowed[i], cmd)
}

/// The policy: read-only tools run; writes ask only in `ask` mode; a shell command runs in
/// `full-auto` mode or when an allowlist entry covers the trimmed command; everything else
/// asks.
pub open spec fn verdict(
    mode: ApprovalMode,
    tool: Seq<char>,
    command: Seq<char>,
    allowed: Seq<Seq<char>>,
) -> Verdict {
    if is_read_only_name(tool) {
        Verdict::Allow
    } else if tool == "write_file"@ || tool == "edit_file"@ {
        if mode == ApprovalMode::Ask {
            Verdict::Ask
        } else {
            Verdict::Allow
        }
    } else if tool == "run_shell"@ {
        if mode == ApprovalMode::FullAuto {
            Verdict::Allow
        } else if allowlisted(allowed, trim(command)) {
            Verdict::Allow
        } else {
            Verdict::Ask
        }
    } else {
        Verdict::Ask
    }
}

/// The `command` argument of a call, or the empty string when there is none.
pub open spec fn command_of(args: serde_json::Value) -> Seq<char> {
    match member_str(args, "command"@) {
        Some(c) => c,
        None => Seq::<char>::empty(),
    }
}

/// Decides whether a tool call runs at once or asks the user.
pub fn check(mode: ApprovalMode, tool: &str, args: &serde_json::Value, allowed: &[String]) -> (r:
    Verdict)
    ensures
        r == verdict(mode, tool@, command_of(*args), allowed.deep_view()),
{
    if is_read_only(tool) {
        return Verdict::Allow;
    }
    if str_eq(tool, "write_file") || str_eq(tool, "edit_file") {
        return match mode {
            ApprovalMode::Ask => Verdict::Ask,
            _ => Verdict::Allow,
        };
    }
    if !str_eq(tool, "run_shell") {
        return Verdict::Ask;
    }
    if mode == ApprovalMode::FullAuto {
        return Verdict::Allow;
    }
    let cmd = match get_str(args, "command") {
        Some(c) => chars_of(c.as_str()),
        None => Vec::new(),
    };
    assert(cmd@ == command_of(*args));
    let t = trim_chars(&cmd);
    if allowlisted_exec(&t, allowed) {
        Verdict::Allow
    } else {
        Verdict::Ask
    }
}

/// Whether some entry of `allowed` covers `t`.
fn allowlisted_exec(t: &[char], allowed: &[String]) -> (r: bool)
    ensures
        r == allowlisted(allowed.deep_view(), t@),
{
    let mut i: usize = 0;
    while i < allowed.len()
        invariant
            i <= allowed@.len(),
            forall|j: int| 0 <= j < i ==> !covers(#[trigger] allowed.deep_view()[j], t@),
        decreases allowed@.len() - i,
    {
        let p = chars_of(allowed[i].as_str());
        assert(p@ == allowed.deep_view()[i as int]);
        let mut ps = p.clone();
        ps.push(' ');
        assert(ps@ =~= p@ + seq![' ']);
        if seq_eq(t, &p) || starts_with(t, &ps) {
            assert(covers(allowed.deep_view()[i as int], t@));
            return true;
        }
        i = i + 1;
    }
    false
}

/// The "always allow" prefix of a command: its first two whitespace-separated tokens joined
/// by one space (one token when there is only one).
pub open spec fn prefix_spec(command: Seq<char>) -> Seq<char> {
    let ts = tokens(command);
    join(ts.take(if ts.len() < 2 { ts.len() as int } else { 2 }), seq![' '])
}

/// The "always allow" prefix of a command.
pub fn command_prefix(command: &str) -> (r: String)
    ensures
        r@ == prefix_spec(command@),
{
    let v = chars_of(command);
    let ts = split_tokens(&v);
    let n = if ts.len() < 2 {
        ts.len()
    } else {
        2
    };
    let mut sep: Vec<char> = Vec::new();
    sep.push(' ');
    assert(sep@ =~= seq![' ']);
    let out = join_chars(&ts, n, &sep);
    string_of(&out)
}

// ---------------------------------------------------------------- laws

/// A read-only tool is always allowed, in every mode, whatever its arguments.
pub proof fn lemma_read_only_always_allowed(
    mode: ApprovalMode,
    tool: Seq<char>,
    command: Seq<char>,
    allowed: Seq<Seq<char>>,
)
    requires
        is_read_only_name(tool),
    ensures
        verdict(mode, tool, command, allowed) == Verdict::Allow,
{
}

/// In `full-auto` mode every known tool runs without asking.
pub proof fn lemma_full_auto_runs_known_tools(
    tool: Seq<char>,
    command: Seq<char>,
    allowed: Seq<Seq<char>>,
)
    requires
        crate::agent::tools::tool_names().contains(tool),
    ensures
        verdict(ApprovalMode::FullAuto, tool, command, allowed) == Verdict::Allow,
{
    let names = crate::agent::tools::tool_names();
    let k = choose|k: int| 0 <= k < names.len() && names[k] == tool;
    assert(names[k] == tool);
}

/// A tool that is none of the known ones always asks, in every mode.
pub proof fn lemma_unknown_tool_asks(
    mode: ApprovalMode,
    tool: Seq<char>,
    command: Seq<char>,
    allowed: Seq<Seq<char>>,
)
    requires
        !crate::agent::tools::tool_names().contains(tool),
    ensures
        verdict(mode, tool, command, allowed) == Verdict::Ask,
{
    let names = crate::agent::tools::tool_names();
    assert(names[0] == "read_file"@);
    assert(names[1] == "list_dir"@);
    assert(names[2] == "grep"@);
    assert(names[3] == "write_file"@);
    assert(names[4] == "edit_file"@);
    assert(names[5] == "run_shell"@);
    assert(names[6] == "web_fetch"@);
}

/// The two write tools are treated alike: both ask in `ask` mode and both run at once in
/// every other mode, whatever the command and the allowlist.
pub proof fn lemma_writes_follow_the_mode(
    mode: ApprovalMode,
    command: Seq<char>,
    allowed: Seq<Seq<char>>,
)
    ensures
        verdict(mode, "write_file"@, command, allowed) == verdict(
            mode,
            "edit_file"@,
            command,
            allowed,
        ),
        mode == ApprovalMode::Ask ==> verdict(mode, "edit_file"@, command, allowed) == Verdict::Ask,
        mode != ApprovalMode::Ask ==> verdict(mode, "edit_file"@, command, allowed)
            == Verdict::Allow,
        mode != ApprovalMode::Ask ==> verdict(mode, "write_file"@, command, allowed)
            == Verdict::Allow,
{
    reveal_strlit("read_file");
    reveal_strlit("list_dir");
    reveal_strlit("grep");
    reveal_strlit("web_fetch");
    reveal_strlit("write_file");
    reveal_strlit("edit_file");
    assert("write_file"@[0] != "read_file"@[0]);
    assert("write_file"@[0] != "list_dir"@[0]);
    assert("write_file"@[0] != "grep"@[0]);
    assert("write_file"@[1] != "web_fetch"@[1]);
    assert("edit_file"@[0] != "read_file"@[0]);
    assert("edit_file"@[0] != "list_dir"@[0]);
    assert("edit_file"@[0] != "grep"@[0]);
    assert("edit_file"@[0] != "web_fetch"@[0]);
}

/// `run_shell` is none of the other tool names.
pub proof fn lemma_run_shell_is_run_shell()
    ensures
        !is_read_only_name("run_shell"@),
        "run_shell"@ != "write_file"@,
        "run_shell"@ != "edit_file"@,
{
    reveal_strlit("run_shell");
    reveal_strlit("read_file");
    reveal_strlit("list_dir");
    reveal_strlit("grep");
    reveal_strlit("web_fetch");
    reveal_strlit("write_file");
    reveal_strlit("edit_file");
    assert("run_shell"@[1] != "read_file"@[1]);
    assert("run_shell"@.len() != "list_dir"@.len());
    assert("run_shell"@.len() != "grep"@.len());
    assert("run_shell"@[0] != "web_fetch"@[0]);
    assert("run_shell"@.len() != "write_file"@.len());
    assert("run_shell"@[0] != "edit_file"@[0]);
}

/// A command whose trimmed text is its tokens joined by single spaces is covered by its own
/// "always allow" prefix.
pub proof fn lemma_prefix_covers_command(command: Seq<char>)
    requires
        trim(command) == join(tokens(command), seq![' ']),
    ensures
        covers(prefix_spec(command), trim(command)),
{
    let ts = tokens(command);
    let sep = seq![' '];
    if ts.len() <= 2 {
        assert(ts.take(ts.len() as int) =~= ts);
    } else {
        let a = ts.take(2);
        let b = ts.skip(2);
        assert(a + b =~= ts);
        lemma_join_append(a, b, sep);
        let p = join(a, sep);
        let whole = p + sep + join(b, sep);
        assert(whole.take((p + sep).len() as int) =~= p + sep);
    }
}

/// Once the "always allow" prefix of a command is on the allowlist, that command runs
/// without asking in every mode, provided its trimmed text is its tokens joined by single
/// spaces.
pub proof fn lemma_prefix_then_allowed(
    mode: ApprovalMode,
    command: Seq<char>,
    allowed: Seq<Seq<char>>,
)
    requires
        trim(command) == join(tokens(command), seq![' ']),
        allowed.contains(prefix_spec(command)),
    ensures
        verdict(mode, "run_shell"@, command, allowed) == Verdict::Allow,
{
    lemma_run_shell_is_run_shell();
    lemma_prefix_covers_command(command);
    let k = choose|k: int| 0 <= k < allowed.len() && allowed[k] == prefix_spec(command);
    assert(covers(allowed[k], trim(command)));
}

/// After "always allow" puts the prefix of a command on the allowlist of a workspace, the
/// command runs there without asking, in every mode. The command's trimmed text is its
/// tokens joined by single spaces.
pub proof fn lemma_always_allow_persists(
    mode: ApprovalMode,
    old_allow: Seq<AllowEntry>,
    new_allow: Seq<AllowEntry>,
    ws: Seq<char>,
    command: Seq<char>,
    home: Option<Seq<char>>,
)
    requires
        add_spec(old_allow, new_allow, ws, prefix_spec(command), home),
        trim(command) == join(tokens(command), seq![' ']),
    ensures
        verdict(mode, "run_shell"@, command, allowed_for(new_allow, ws, home)) == Verdict::Allow,
{
    lemma_added_prefix_is_allowed(old_allow, new_allow, ws, prefix_spec(command), home);
    lemma_prefix_then_allowed(mode, command, allowed_for(new_allow, ws, home));
}

} // verus!
