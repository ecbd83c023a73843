//! The shell tool: runs a command in the workspace. The runner starts the process and
//! enforces the timeout; the arguments and the report are computed here.
use vstd::prelude::*;
use crate::agent::tools::{arg_str, missing_arg_msg, truncate, truncate_spec};
use crate::error::Error;
use crate::json::{get_u64, member_str, member_u64};
use crate::text::{chars_of, decimal, decimal_chars, push_all, push_str, string_of};

verus! {

/// Runs a shell command in the workspace.
pub struct RunShell;

/// Seconds a command may run when no `timeout_secs` is given.
pub const DEFAULT_TIMEOUT_SECS: u64 = 60;

/// The decimal rendering of a signed number, as `Display` writes it.
pub open spec fn signed_decimal(n: int) -> Seq<char> {
    if n < 0 {
        seq!['-'] + decimal((-n) as nat)
    } else {
        decimal(n as nat)
    }
}

/// What `run_shell` reports: the standard output; then, when the command wrote to standard
/// error, `[stderr]` and that text (on a new line when there was output); then the exit
/// code (`-1` when the process was ended by a signal).
pub open spec fn shell_text(stdout: Seq<char>, stderr: Seq<char>, code: Option<i32>) -> Seq<char> {
    let with_err = if stderr.len() > 0 {
        (if stdout.len() > 0 {
            stdout + seq!['\n']
        } else {
            stdout
        }) + "[stderr]\n"@ + stderr
    } else {
        stdout
    };
    with_err + "\n[exit "@ + signed_decimal(
        match code {
            Some(c) => c as int,
            None => -1,
        },
    ) + "]"@
}

/// [`shell_text`], cut to the output limit.
pub open spec fn shell_report(stdout: Seq<char>, stderr: Seq<char>, code: Option<i32>) -> Seq<char> {
    truncate_spec(shell_text(stdout, stderr, code))
}

/// The message when a command runs out of time.
pub open spec fn timeout_msg(secs: u64) -> Seq<char> {
    "命令超时（"@ + decimal(secs as nat) + "s），已终止"@
}

impl RunShell {
    /// The tool's name.
    pub fn name(&self) -> (r: &'static str)
        ensures
            r@ == "run_shell"@,
    {
        "run_shell"
    }

    /// The tool's description for the model.
    pub fn description(&self) -> (r: &'static str)
        ensures
            r@ == "在 workspace 目录下执行 shell 命令，返回合并的 stdout/stderr 与退出码。默认 60 秒超时。"@,
    {
        "在 workspace 目录下执行 shell 命令，返回合并的 stdout/stderr 与退出码。默认 60 秒超时。"
    }

    /// The command and the timeout in seconds (`timeout_secs`, default 60).
    pub fn shell_args(&self, args: &serde_json::Value) -> (r: Result<(String, u64), Error>)
        ensures
            match r {
                Ok((c, t)) => member_str(*args, "command"@) == Some(c@) && t == match member_u64(
                    *args,
                    "timeout_secs"@,
                ) {
                    Some(t) => t,
                    None => DEFAULT_TIMEOUT_SECS,
                },
                Err(e) => member_str(*args, "command"@) is None && e.msg() == missing_arg_msg(
                    "command"@,
                ),
            },
    {
        let command = arg_str(args, "command")?;
        let timeout = match get_u64(args, "timeout_secs") {
            Some(t) => t,
            None => DEFAULT_TIMEOUT_SECS,
        };
        Ok((command, timeout))
    }

    /// The error when the command ran longer than `secs` seconds.
    pub fn timeout_error(&self, secs: u64) -> (r: Error)
        ensures
            r.msg() == timeout_msg(secs),
    {
        let digits = string_of(&decimal_chars(secs));
        Error::with("命令超时（", digits.as_str(), "s），已终止")
    }

    /// The tool's output for a finished command.
    pub fn report(&self, stdout: &str, stderr: &str, code: Option<i32>) -> (r: String)
        ensures
            r@ == shell_report(stdout@, stderr@, code),
    {
        let mut text = chars_of(stdout);
        let err = chars_of(stderr);
        if err.len() > 0 {
            if text.len() > 0 {
                text.push('\n');
            }
            push_str(&mut text, "[stderr]\n");
            push_str(&mut text, stderr);
        }
        push_str(&mut text, "\n[exit ");
        let c: i32 = match code {
            Some(c) => c,
            None => -1,
        };
        if c < 0 {
            text.push('-');
            let mag: u64 = (-(c as i64)) as u64;
            let digits = decimal_chars(mag);
            push_all(&mut text, &digits);
        } else {
            let digits = decimal_chars(c as u64);
            push_all(&mut text, &digits);
        }
        push_str(&mut text, "]");
        assert(text@ =~= shell_text(stdout@, stderr@, code));
        truncate(string_of(&text))
    }
}

} // verus!
