//! The tool set: names, the workspace sandbox, output truncation and argument reading.
//! Every path a tool touches is checked by [`resolve_in_workspace`]; one outside the
//! workspace is refused.
pub mod fs;
pub mod shell;
pub mod web;

use vstd::prelude::*;
use crate::error::Error;
use crate::json::{get_str, member_str};
use crate::path::{join_path, join_path_spec, path_has_prefix, path_starts_with};
use crate::text::{
    byte_len, char_width, char_width_exec, chars_of, decimal, decimal_chars, lemma_byte_len_push,
    push_all, push_str, slice_chars, str_byte_len, str_eq, string_of,
};

verus! {

/// Upper bound, in bytes, of one tool output; longer output is cut.
pub const MAX_OUTPUT: usize = 16384;

/// What a tool run needs besides its arguments.
pub struct ToolCtx {
    pub workspace: String,
}

/// The names of the tools that only read (the policy always lets them run).
pub open spec fn is_read_only_name(name: Seq<char>) -> bool {
    name == "read_file"@ || name == "list_dir"@ || name == "grep"@ || name == "web_fetch"@
}

/// Whether the tool only reads.
pub fn is_read_only(name: &str) -> (r: bool)
    ensures
        r == is_read_only_name(name@),
{
    str_eq(name, "read_file") || str_eq(name, "list_dir") || str_eq(name, "grep") || str_eq(
        name,
        "web_fetch",
    )
}

/// The names of all tools, in the order the model is offered them.
pub open spec fn tool_names() -> Seq<Seq<char>> {
    seq![
        "read_file"@,
        "list_dir"@,
        "grep"@,
        "write_file"@,
        "edit_file"@,
        "run_shell"@,
        "web_fetch"@,
    ]
}

// ---------------------------------------------------------------- truncation

/// Number of leading characters of `s` whose UTF-8 encoding fits in `budget` bytes.
pub open spec fn fit_len(s: Seq<char>, budget: nat) -> nat
    decreases s.len(),
{
    if s.len() == 0 {
        0
    } else if char_width(s[0]) <= budget {
        1 + fit_len(s.drop_first(), (budget - char_width(s[0])) as nat)
    } else {
        0
    }
}

pub proof fn lemma_fit_len(s: Seq<char>, budget: nat)
    ensures
        fit_len(s, budget) <= s.len(),
        byte_len(s.take(fit_len(s, budget) as int)) <= budget,
        fit_len(s, budget) < s.len() ==> byte_len(s.take(fit_len(s, budget) as int + 1)) > budget,
    decreases s.len(),
{
    if s.len() == 0 {
        assert(s.take(0) =~= Seq::<char>::empty());
    } else {
        let w = char_width(s[0]);
        let n = fit_len(s, budget);
        if w <= budget {
            let b2 = (budget - w) as nat;
            let t = s.drop_first();
            lemma_fit_len(t, b2);
            assert(s.take(n as int).drop_first() =~= t.take(n - 1));
            assert(s.take(n as int)[0] == s[0]);
            if n < s.len() {
                assert(s.take(n as int + 1).drop_first() =~= t.take(n as int));
                assert(s.take(n as int + 1)[0] == s[0]);
            }
        } else {
            assert(s.take(0) =~= Seq::<char>::empty());
            assert(s.take(1).drop_first() =~= Seq::<char>::empty());
        }
    }
}

/// The note appended to cut output.
pub open spec fn truncated_note(total: nat) -> Seq<char> {
    "\n\n[... 输出已截断，共 "@ + decimal(total) + " 字节 ...]"@
}

/// What [`truncate`] returns: the text itself when it fits in [`MAX_OUTPUT`] bytes, else
/// its longest prefix that fits, cut at a character boundary, and a note with the full
/// size.
pub open spec fn truncate_spec(s: Seq<char>) -> Seq<char> {
    if byte_len(s) <= MAX_OUTPUT {
        s
    } else {
        s.take(fit_len(s, MAX_OUTPUT as nat) as int) + truncated_note(byte_len(s))
    }
}

/// Cuts tool output to at most [`MAX_OUTPUT`] bytes of text, at a character boundary.
pub fn truncate(s: String) -> (r: String)
    ensures
        r@ == truncate_spec(s@),
        byte_len(s@) > MAX_OUTPUT ==> byte_len(s@.take(fit_len(s@, MAX_OUTPUT as nat) as int))
            <= MAX_OUTPUT,
{
    let n = str_byte_len(s.as_str());
    if n <= MAX_OUTPUT {
        return s;
    }
    let v = chars_of(s.as_str());
    let mut i: usize = 0;
    let mut used: usize = 0;
    assert(v@.skip(0) =~= v@);
    assert(v@.take(0) =~= Seq::<char>::empty());
    assert(v@.skip(v@.len() as int) =~= Seq::<char>::empty());
    while i < v.len()
        invariant
            i <= v@.len(),
            used <= MAX_OUTPUT,
            forall|b: nat| fit_len(#[trigger] v@.skip(v@.len() as int), b) == 0,
            used == byte_len(v@.take(i as int)),
            fit_len(v@, MAX_OUTPUT as nat) == i + fit_len(
                v@.skip(i as int),
                (MAX_OUTPUT - used) as nat,
            ),
        ensures
            i <= v@.len(),
            used == byte_len(v@.take(i as int)),
            fit_len(v@, MAX_OUTPUT as nat) == i,
        decreases v@.len() - i,
    {
        let w = char_width_exec(v[i]);
        if w > MAX_OUTPUT - used {
            assert(fit_len(v@.skip(i as int), (MAX_OUTPUT - used) as nat) == 0);
            break;
        }
        proof {
            assert(v@.skip(i as int).drop_first() =~= v@.skip(i + 1));
            assert(v@.take(i + 1) =~= v@.take(i as int).push(v@[i as int]));
            lemma_byte_len_push(v@.take(i as int), v@[i as int]);
        }
        used = used + w;
        i = i + 1;
    }
    proof {
        lemma_fit_len(v@, MAX_OUTPUT as nat);
    }
    let mut out = slice_chars(&v, 0, i);
    assert(out@ =~= v@.take(i as int));
    push_str(&mut out, "\n\n[... 输出已截断，共 ");
    let digits = decimal_chars(n as u64);
    push_all(&mut out, &digits);
    push_str(&mut out, " 字节 ...]");
    assert(out@ =~= truncate_spec(s@));
    string_of(&out)
}

// ---------------------------------------------------------------- sandbox

/// The refusal for a path outside the workspace.
pub open spec fn outside_msg(rel: Seq<char>, ws: Seq<char>) -> Seq<char> {
    "拒绝：路径 "@ + rel + " 超出 workspace "@ + ws
}

/// The path a relative argument names before it is resolved on disk: `rel` itself when
/// absolute, else `rel` under the workspace.
pub fn raw_target(ws: &str, rel: &str) -> (r: String)
    ensures
        r@ == join_path_spec(ws@, rel@),
{
    join_path(ws, rel)
}

/// The sandbox check of a resolved path. `ws` is the canonical workspace and `resolved` the
/// canonical form of the path that `rel` names (resolved on disk by the caller). The path
/// is accepted exactly when its components start with those of the workspace.
pub fn resolve_in_workspace(ws: &str, rel: &str, resolved: &str) -> (r: Result<String, Error>)
    ensures
        r is Ok <==> path_starts_with(resolved@, ws@),
        r matches Ok(p) ==> p@ == resolved@,
        r matches Err(e) ==> e.msg() == outside_msg(rel@, ws@),
{
    if path_has_prefix(resolved, ws) {
        Ok(string_of(&chars_of(resolved)))
    } else {
        let mut m: Vec<char> = Vec::new();
        push_str(&mut m, "拒绝：路径 ");
        push_str(&mut m, rel);
        push_str(&mut m, " 超出 workspace ");
        push_str(&mut m, ws);
        assert(m@ =~= outside_msg(rel@, ws@));
        Err(Error::Msg(string_of(&m)))
    }
}

// ---------------------------------------------------------------- arguments

/// The message for a missing argument.
pub open spec fn missing_arg_msg(key: Seq<char>) -> Seq<char> {
    "缺少参数 "@ + key
}

/// The string argument `key`, or an error naming it when it is missing or not a string.
pub fn arg_str(args: &serde_json::Value, key: &str) -> (r: Result<String, Error>)
    ensures
        r matches Ok(s) ==> member_str(*args, key@) == Some(s@),
        r matches Err(e) ==> member_str(*args, key@) is None && e.msg() == missing_arg_msg(key@),
{
    match get_str(args, key) {
        Some(s) => Ok(s),
        None => {
            let mut m: Vec<char> = Vec::new();
            push_str(&mut m, "缺少参数 ");
            push_str(&mut m, key);
            assert(m@ =~= missing_arg_msg(key@));
            Err(Error::Msg(string_of(&m)))
        },
    }
}

} // verus!
