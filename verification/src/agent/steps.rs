//! The decisions of a run, as state machines: the agent loop and the execution of one tool
//! call. The caller performs each action (calling the model, asking the user, running a
//! tool, storing messages) and hands back what happened as the next event.
use vstd::prelude::*;
use crate::agent::policy::{check, command_of, prefix_spec, verdict, Verdict};
use crate::agent::runner::{
    after_approval, bad_arguments_output, error_output, max_turns_error, turn_budget,
    unknown_tool_output, ApprovalOutcome, Decision, DENIED_OUTPUT,
};
use crate::agent::tools::tool_names;
use crate::config::ApprovalMode;
use crate::error::Error;
use crate::events::{Breakdown, Usage};
use crate::json::{json_parse, member_str, parse_arguments};
use crate::llm::{ToolCall, ToolCallV};
use crate::text::{chars_of, decimal, str_eq, string_of};
use crate::tokens::{estimate_spec, estimate_u64, message_estimate_checked, messages_estimate};

verus! {

// ---------------------------------------------------------------- one tool call

/// Where the execution of a tool call stands.
pub enum ExecState {
    /// Nothing received yet.
    Idle,
    /// The user is being asked about a call of tool `name` with these arguments.
    Asking { name: String, args: serde_json::Value },
    /// The tool runs.
    Running,
    /// The output is known.
    Done,
}

/// What happened.
pub enum ExecEvent {
    /// The call to execute, with the approval mode and the workspace's allowlist.
    Call { name: String, arguments: String, mode: ApprovalMode, allowed: Vec<String> },
    /// The user's answer; `None` when the question was dropped unanswered.
    Answer(Option<Decision>),
    /// The tool's output, or its error message.
    Outcome(Result<String, String>),
}

/// What to do next.
pub enum ExecAction {
    /// Ask the user about the call that the new state holds, then report the answer.
    Ask,
    /// Run the tool with these arguments, then report the outcome.
    Run(serde_json::Value),
    /// Put this prefix on the workspace's allowlist, then as [`ExecAction::Run`].
    RunAndAllow { args: serde_json::Value, prefix: String },
    /// The call is over: its output, whether it succeeded, and whether its time counts
    /// (it does not for arguments that are not JSON and for unknown tools).
    Finish { output: String, ok: bool, timed: bool },
    /// The event does not fit the state; nothing changes.
    Ignore,
}

/// The view of an [`ExecState`].
pub enum ExecStateV {
    Idle,
    Asking { name: Seq<char>, args: serde_json::Value },
    Running,
    Done,
}

/// The view of an [`ExecEvent`].
pub enum ExecEventV {
    Call { name: Seq<char>, arguments: Seq<char>, mode: ApprovalMode, allowed: Seq<Seq<char>> },
    Answer(Option<Decision>),
    Outcome(Result<Seq<char>, Seq<char>>),
}

/// The view of an [`ExecAction`].
pub enum ExecActionV {
    Ask,
    Run(serde_json::Value),
    RunAndAllow { args: serde_json::Value, prefix: Seq<char> },
    Finish { output: Seq<char>, ok: bool, timed: bool },
    Ignore,
}

impl View for ExecState {
    type V = ExecStateV;

    open spec fn view(&self) -> ExecStateV {
        match self {
            ExecState::Idle => ExecStateV::Idle,
            ExecState::Asking { name, args } => ExecStateV::Asking { name: name@, args: *args },
            ExecState::Running => ExecStateV::Running,
            ExecState::Done => ExecStateV::Done,
        }
    }
}

impl View for ExecEvent {
    type V = ExecEventV;

    open spec fn view(&self) -> ExecEventV {
        match self {
            ExecEvent::Call { name, arguments, mode, allowed } => ExecEventV::Call {
                name: name@,
                arguments: arguments@,
                mode: *mode,
                allowed: allowed.deep_view(),
            },
            ExecEvent::Answer(d) => ExecEventV::Answer(*d),
            ExecEvent::Outcome(r) => ExecEventV::Outcome(
                match r {
                    Ok(o) => Ok(o@),
                    Err(e) => Err(e@),
                },
            ),
        }
    }
}

impl View for ExecAction {
    type V = ExecActionV;

    open spec fn view(&self) -> ExecActionV {
        match self {
            ExecAction::Ask => ExecActionV::Ask,
            ExecAction::Run(v) => ExecActionV::Run(*v),
            ExecAction::RunAndAllow { args, prefix } => ExecActionV::RunAndAllow {
                args: *args,
                prefix: prefix@,
            },
            ExecAction::Finish { output, ok, timed } => ExecActionV::Finish {
                output: output@,
                ok: *ok,
                timed: *timed,
            },
            ExecAction::Ignore => ExecActionV::Ignore,
        }
    }
}

/// One step of a tool call's execution:
/// - arguments that are not JSON end it with `error: 参数不是合法 JSON: <parser message>`;
/// - an unknown tool ends it with `error: 未知工具 <name>`;
/// - a call the policy lets through runs at once; one it holds asks the user first;
/// - no answer, or "deny", ends it with `denied by user`, without running;
/// - "always" on `run_shell` with a `command` also puts its prefix on the allowlist;
/// - the tool's output ends it as a success, its error as `error: <message>`.
pub open spec fn exec_step_spec(s: ExecStateV, ev: ExecEventV) -> (ExecStateV, ExecActionV) {
    match s {
        ExecStateV::Idle => match ev {
            ExecEventV::Call { name, arguments, mode, allowed } => match json_parse(arguments) {
                Err(e) => (
                    ExecStateV::Done,
                    ExecActionV::Finish {
                        output: "error: 参数不是合法 JSON: "@ + e,
                        ok: false,
                        timed: false,
                    },
                ),
                Ok(v) => if !tool_names().contains(name) {
                    (
                        ExecStateV::Done,
                        ExecActionV::Finish { output: "error: 未知工具 "@ + name, ok: false, timed: false },
                    )
                } else if verdict(mode, name, command_of(v), allowed) == Verdict::Ask {
                    (ExecStateV::Asking { name, args: v }, ExecActionV::Ask)
                } else {
                    (ExecStateV::Running, ExecActionV::Run(v))
                },
            },
            _ => (s, ExecActionV::Ignore),
        },
        ExecStateV::Asking { name, args } => match ev {
            ExecEventV::Answer(d) => match d {
                Some(Decision::Allow) => (ExecStateV::Running, ExecActionV::Run(args)),
                Some(Decision::Always) => if name == "run_shell"@ && member_str(args, "command"@) is Some {
                    (
                        ExecStateV::Running,
                        ExecActionV::RunAndAllow {
                            args,
                            prefix: prefix_spec(member_str(args, "command"@)->0),
                        },
                    )
                } else {
                    (ExecStateV::Running, ExecActionV::Run(args))
                },
                _ => (
                    ExecStateV::Done,
                    ExecActionV::Finish { output: "denied by user"@, ok: false, timed: true },
                ),
            },
            _ => (s, ExecActionV::Ignore),
        },
        ExecStateV::Running => match ev {
            ExecEventV::Outcome(Ok(o)) => (
                ExecStateV::Done,
                ExecActionV::Finish { output: o, ok: true, timed: true },
            ),
            ExecEventV::Outcome(Err(e)) => (
                ExecStateV::Done,
                ExecActionV::Finish { output: "error: "@ + e, ok: false, timed: true },
            ),
            _ => (s, ExecActionV::Ignore),
        },
        ExecStateV::Done => (s, ExecActionV::Ignore),
    }
}

fn is_known_tool(name: &str) -> (r: bool)
    ensures
        r == tool_names().contains(name@),
{
    let r = str_eq(name, "read_file") || str_eq(name, "list_dir") || str_eq(name, "grep")
        || str_eq(name, "write_file") || str_eq(name, "edit_file") || str_eq(name, "run_shell")
        || str_eq(name, "web_fetch");
    proof {
        let t = tool_names();
        if r {
            if name@ == "read_file"@ { assert(t[0] == name@); }
            if name@ == "list_dir"@ { assert(t[1] == name@); }
            if name@ == "grep"@ { assert(t[2] == name@); }
            if name@ == "write_file"@ { assert(t[3] == name@); }
            if name@ == "edit_file"@ { assert(t[4] == name@); }
            if name@ == "run_shell"@ { assert(t[5] == name@); }
            if name@ == "web_fetch"@ { assert(t[6] == name@); }
        } else {
            assert forall|k: int| 0 <= k < t.len() implies t[k] != name@ by {}
        }
    }
    r
}

/// Takes the next event of a tool call's execution.
pub fn execute_step(s: ExecState, ev: ExecEvent) -> (r: (ExecState, ExecAction))
    ensures
        (r.0@, r.1@) == exec_step_spec(s@, ev@),
{
    match s {
        ExecState::Idle => match ev {
            ExecEvent::Call { name, arguments, mode, allowed } => match parse_arguments(
                arguments.as_str(),
            ) {
                Err(e) => (
                    ExecState::Done,
                    ExecAction::Finish { output: bad_arguments_output(e.as_str()), ok: false, timed: false },
                ),
                Ok(v) => {
                    if !is_known_tool(name.as_str()) {
                        (
                            ExecState::Done,
                            ExecAction::Finish {
                                output: unknown_tool_output(name.as_str()),
                                ok: false,
                                timed: false,
                            },
                        )
                    } else if check(mode, name.as_str(), &v, allowed.as_slice()) == Verdict::Ask {
                        (ExecState::Asking { name, args: v }, ExecAction::Ask)
                    } else {
                        (ExecState::Running, ExecAction::Run(v))
                    }
                },
            },
            _ => (ExecState::Idle, ExecAction::Ignore),
        },
        ExecState::Asking { name, args } => match ev {
            ExecEvent::Answer(d) => {
                let decision = match d {
                    Some(x) => x,
                    None => Decision::Deny,
                };
                match after_approval(decision, name.as_str(), &args) {
                    ApprovalOutcome::Denied => (
                        ExecState::Done,
                        ExecAction::Finish {
                            output: string_of(&chars_of(DENIED_OUTPUT)),
                            ok: false,
                            timed: true,
                        },
                    ),
                    ApprovalOutcome::Run => (ExecState::Running, ExecAction::Run(args)),
                    ApprovalOutcome::RunAndAllow(prefix) => (
                        ExecState::Running,
                        ExecAction::RunAndAllow { args, prefix },
                    ),
                }
            },
            _ => (ExecState::Asking { name, args }, ExecAction::Ignore),
        },
        ExecState::Running => match ev {
            ExecEvent::Outcome(Ok(o)) => (
                ExecState::Done,
                ExecAction::Finish { output: o, ok: true, timed: true },
            ),
            ExecEvent::Outcome(Err(e)) => (
                ExecState::Done,
                ExecAction::Finish { output: error_output(e.as_str()), ok: false, timed: true },
            ),
            _ => (ExecState::Running, ExecAction::Ignore),
        },
        ExecState::Done => (ExecState::Done, ExecAction::Ignore),
    }
}

/// A call that had to be approved never runs without a yes: an unanswered or denied
/// question ends it as a failure.
pub proof fn lemma_denied_never_runs(name: Seq<char>, args: serde_json::Value, d: Option<Decision>)
    requires
        d is None || d == Some(Decision::Deny),
    ensures
        exec_step_spec(ExecStateV::Asking { name, args }, ExecEventV::Answer(d)) == (
            ExecStateV::Done,
            ExecActionV::Finish { output: "denied by user"@, ok: false, timed: true },
        ),
{
}

/// A known tool that the policy lets through runs at once, with its parsed arguments; one
/// that the policy holds runs only after a question, with the same arguments.
pub proof fn lemma_allowed_runs_at_once(
    name: Seq<char>,
    arguments: Seq<char>,
    mode: ApprovalMode,
    allowed: Seq<Seq<char>>,
)
    requires
        json_parse(arguments) is Ok,
        tool_names().contains(name),
    ensures
        verdict(mode, name, command_of(json_parse(arguments)->Ok_0), allowed) == Verdict::Allow
            ==> exec_step_spec(
            ExecStateV::Idle,
            ExecEventV::Call { name, arguments, mode, allowed },
        ) == (ExecStateV::Running, ExecActionV::Run(json_parse(arguments)->Ok_0)),
        verdict(mode, name, command_of(json_parse(arguments)->Ok_0), allowed) == Verdict::Ask
            ==> exec_step_spec(
            ExecStateV::Idle,
            ExecEventV::Call { name, arguments, mode, allowed },
        ) == (ExecStateV::Asking { name, args: json_parse(arguments)->Ok_0 }, ExecActionV::Ask),
{
}

// ---------------------------------------------------------------- the run

/// How many model calls a run may make: the configured number, at least one.
pub open spec fn budget_spec(max_turns: u32) -> u32 {
    if max_turns < 1 {
        1
    } else {
        max_turns
    }
}

/// Where a run stands.
pub enum RunState {
    Idle,
    /// Model call number `made` (from 1) is under way.
    Calling { made: u32, budget: u32 },
    /// The tool calls of call `made` are being executed; `next` is the next one.
    Executing { made: u32, budget: u32, calls: Vec<ToolCall>, next: usize },
    Finished,
}

/// What happened.
pub enum RunEvent {
    /// The run starts, with the configured turn limit.
    Start { max_turns: u32 },
    /// The run was cancelled.
    Cancelled,
    /// No model is configured.
    NoModel,
    /// A model call ended with this visible reply and these tool calls.
    CallEnded { clean: String, calls: Vec<ToolCall> },
    /// The last action is done.
    Next,
}

/// What to do next.
pub enum RunAction {
    /// Make model call number `n`, then report how it ended.
    Call(u32),
    /// Store the final reply (its reaction and the end of the run follow).
    StoreReply(String),
    /// Store the assistant message with these tool calls (content `null` when `None`),
    /// then report [`RunEvent::Next`].
    StoreToolCalls { content: Option<String>, calls: Vec<ToolCall> },
    /// Execute this call, store its result, then report [`RunEvent::Next`].
    Execute(ToolCall),
    /// End the run with this error.
    Fail(Error),
    /// The event does not fit the state; nothing changes.
    Ignore,
}

/// The view of a [`RunState`].
pub enum RunStateV {
    Idle,
    Calling { made: u32, budget: u32 },
    Executing { made: u32, budget: u32, calls: Seq<ToolCallV>, next: usize },
    Finished,
}

/// The view of a [`RunEvent`].
pub enum RunEventV {
    Start { max_turns: u32 },
    Cancelled,
    NoModel,
    CallEnded { clean: Seq<char>, calls: Seq<ToolCallV> },
    Next,
}

/// The view of a [`RunAction`].
pub enum RunActionV {
    Call(u32),
    StoreReply(Seq<char>),
    StoreToolCalls { content: Option<Seq<char>>, calls: Seq<ToolCallV> },
    Execute(ToolCallV),
    Fail(Seq<char>),
    Ignore,
}

/// The views of tool calls.
pub open spec fn call_views(v: Seq<ToolCall>) -> Seq<ToolCallV> {
    Seq::new(v.len(), |i: int| v[i]@)
}

impl View for RunState {
    type V = RunStateV;

    open spec fn view(&self) -> RunStateV {
        match self {
            RunState::Idle => RunStateV::Idle,
            RunState::Calling { made, budget } => RunStateV::Calling { made: *made, budget: *budget },
            RunState::Executing { made, budget, calls, next } => RunStateV::Executing {
                made: *made,
                budget: *budget,
                calls: call_views(calls@),
                next: *next,
            },
            RunState::Finished => RunStateV::Finished,
        }
    }
}

impl View for RunEvent {
    type V = RunEventV;

    open spec fn view(&self) -> RunEventV {
        match self {
            RunEvent::Start { max_turns } => RunEventV::Start { max_turns: *max_turns },
            RunEvent::Cancelled => RunEventV::Cancelled,
            RunEvent::NoModel => RunEventV::NoModel,
            RunEvent::CallEnded { clean, calls } => RunEventV::CallEnded {
                clean: clean@,
                calls: call_views(calls@),
            },
            RunEvent::Next => RunEventV::Next,
        }
    }
}

impl View for RunAction {
    type V = RunActionV;

    open spec fn view(&self) -> RunActionV {
        match self {
            RunAction::Call(n) => RunActionV::Call(*n),
            RunAction::StoreReply(c) => RunActionV::StoreReply(c@),
            RunAction::StoreToolCalls { content, calls } => RunActionV::StoreToolCalls {
                content: crate::text::ostr(*content),
                calls: call_views(calls@),
            },
            RunAction::Execute(c) => RunActionV::Execute(c@),
            RunAction::Fail(e) => RunActionV::Fail(e.msg()),
            RunAction::Ignore => RunActionV::Ignore,
        }
    }
}

/// The error of a run stopped by its turn limit.
pub open spec fn max_turns_msg(budget: u32) -> Seq<char> {
    "达到最大轮次 "@ + decimal(budget as nat) + "，已停止"@
}

/// One step of a run:
/// - the run makes call 1 first, and at most `budget_spec(max_turns)` calls;
/// - cancelling ends it with `已取消`, a missing model with its own message;
/// - a call without tool calls ends the run with the reply stored;
/// - a call with tool calls stores them (content `null` for an empty reply), executes them
///   in order, then makes the next call, or, when the budget is used up, ends with
///   `达到最大轮次 <budget>，已停止`.
pub open spec fn run_step_spec(s: RunStateV, ev: RunEventV) -> (RunStateV, RunActionV) {
    match s {
        RunStateV::Idle => match ev {
            RunEventV::Start { max_turns } => (
                RunStateV::Calling { made: 1, budget: budget_spec(max_turns) },
                RunActionV::Call(1),
            ),
            _ => (s, RunActionV::Ignore),
        },
        RunStateV::Finished => (s, RunActionV::Ignore),
        RunStateV::Calling { made, budget } => match ev {
            RunEventV::Cancelled => (RunStateV::Finished, RunActionV::Fail("已取消"@)),
            RunEventV::NoModel => (
                RunStateV::Finished,
                RunActionV::Fail("没有配置任何模型，请先在设置里添加"@),
            ),
            RunEventV::CallEnded { clean, calls } => if calls.len() == 0 {
                (RunStateV::Finished, RunActionV::StoreReply(clean))
            } else {
                (
                    RunStateV::Executing { made, budget, calls, next: 0 },
                    RunActionV::StoreToolCalls {
                        content: if clean.len() == 0 {
                            None
                        } else {
                            Some(clean)
                        },
                        calls,
                    },
                )
            },
            _ => (s, RunActionV::Ignore),
        },
        RunStateV::Executing { made, budget, calls, next } => match ev {
            RunEventV::Cancelled => (RunStateV::Finished, RunActionV::Fail("已取消"@)),
            RunEventV::Next => if next < calls.len() {
                (
                    RunStateV::Executing { made, budget, calls, next: (next + 1) as usize },
                    RunActionV::Execute(calls[next as int]),
                )
            } else if made < budget {
                (
                    RunStateV::Calling { made: (made + 1) as u32, budget },
                    RunActionV::Call((made + 1) as u32),
                )
            } else {
                (RunStateV::Finished, RunActionV::Fail(max_turns_msg(budget)))
            },
            _ => (s, RunActionV::Ignore),
        },
    }
}

fn copy_calls(v: &Vec<ToolCall>) -> (r: Vec<ToolCall>)
    ensures
        call_views(r@) == call_views(v@),
{
    let mut out: Vec<ToolCall> = Vec::new();
    let mut i: usize = 0;
    while i < v.len()
        invariant
            i <= v@.len(),
            call_views(out@) == call_views(v@).take(i as int),
        decreases v@.len() - i,
    {
        let ghost before = out@;
        out.push(v[i].clone_call());
        assert(call_views(out@) =~= call_views(before).push(v@[i as int]@));
        assert(call_views(v@).take(i + 1) =~= call_views(v@).take(i as int).push(v@[i as int]@));
        i = i + 1;
    }
    assert(call_views(v@).take(v@.len() as int) =~= call_views(v@));
    out
}

/// Takes the next event of a run.
pub fn run_step(s: RunState, ev: RunEvent) -> (r: (RunState, RunAction))
    requires
        s matches RunState::Executing { next, calls, .. } ==> next <= calls@.len(),
    ensures
        (r.0@, r.1@) == run_step_spec(s@, ev@),
        r.0 matches RunState::Executing { next, calls, .. } ==> next <= calls@.len(),
{
    match s {
        RunState::Idle => match ev {
            RunEvent::Start { max_turns } => {
                let budget = turn_budget(max_turns);
                (RunState::Calling { made: 1, budget }, RunAction::Call(1))
            },
            _ => (RunState::Idle, RunAction::Ignore),
        },
        RunState::Finished => (RunState::Finished, RunAction::Ignore),
        RunState::Calling { made, budget } => match ev {
            RunEvent::Cancelled => (RunState::Finished, RunAction::Fail(Error::from_str("已取消"))),
            RunEvent::NoModel => (
                RunState::Finished,
                RunAction::Fail(Error::from_str("没有配置任何模型，请先在设置里添加")),
            ),
            RunEvent::CallEnded { clean, calls } => {
                if calls.len() == 0 {
                    (RunState::Finished, RunAction::StoreReply(clean))
                } else {
                    let content = if clean.as_str().is_empty() {
                        None
                    } else {
                        Some(clean)
                    };
                    let kept = copy_calls(&calls);
                    (
                        RunState::Executing { made, budget, calls: kept, next: 0 },
                        RunAction::StoreToolCalls { content, calls },
                    )
                }
            },
            _ => (RunState::Calling { made, budget }, RunAction::Ignore),
        },
        RunState::Executing { made, budget, calls, next } => match ev {
            RunEvent::Cancelled => (RunState::Finished, RunAction::Fail(Error::from_str("已取消"))),
            RunEvent::Next => {
                if next < calls.len() {
                    let c = calls[next].clone_call();
                    assert(call_views(calls@)[next as int] == calls@[next as int]@);
                    (RunState::Executing { made, budget, calls, next: next + 1 }, RunAction::Execute(c))
                } else if made < budget {
                    (RunState::Calling { made: made + 1, budget }, RunAction::Call(made + 1))
                } else {
                    (RunState::Finished, RunAction::Fail(max_turns_error(budget)))
                }
            },
            _ => (RunState::Executing { made, budget, calls, next }, RunAction::Ignore),
        },
    }
}

/// The run's invariant: a call under way or being finished is numbered from 1 up to the
/// budget.
pub open spec fn run_inv(s: RunStateV) -> bool {
    match s {
        RunStateV::Calling { made, budget } => 1 <= made <= budget,
        RunStateV::Executing { made, budget, calls, next } => 1 <= made <= budget && next
            <= calls.len(),
        _ => true,
    }
}

/// The budget of a state, if it has one.
pub open spec fn budget_of(s: RunStateV) -> Option<u32> {
    match s {
        RunStateV::Calling { budget, .. } => Some(budget),
        RunStateV::Executing { budget, .. } => Some(budget),
        _ => None,
    }
}

/// A run makes at most its budget of model calls: every step keeps the invariant and the
/// budget, each model call it asks for is numbered from 1 to the budget (counting up by
/// one), and the turn-limit error comes only after the last allowed call.
pub proof fn lemma_run_within_budget(s: RunStateV, ev: RunEventV)
    requires
        run_inv(s),
    ensures
        run_inv(run_step_spec(s, ev).0),
        (s is Idle && ev is Start) ==> budget_of(run_step_spec(s, ev).0) == Some(
            budget_spec(ev->max_turns),
        ),
        (!(s is Idle) && budget_of(run_step_spec(s, ev).0) is Some) ==> budget_of(
            run_step_spec(s, ev).0,
        ) == budget_of(s),
        run_step_spec(s, ev).1 is Call ==> {
            &&& 1 <= run_step_spec(s, ev).1->Call_0
            &&& budget_of(run_step_spec(s, ev).0) is Some
            &&& run_step_spec(s, ev).1->Call_0 <= budget_of(run_step_spec(s, ev).0)->0
        },
        (run_step_spec(s, ev).1 is Call && s is Executing) ==> run_step_spec(s, ev).1->Call_0
            == s->Executing_made + 1,
        (s is Executing && ev is Next && run_step_spec(s, ev).1 is Fail) ==> {
            &&& s->Executing_made == s->Executing_budget
            &&& run_step_spec(s, ev).1->Fail_0 == max_turns_msg(s->Executing_budget)
        },
{
}

/// The state and the actions after a run took the events `evs`, one after the other.
pub open spec fn run_all(s: RunStateV, evs: Seq<RunEventV>) -> (RunStateV, Seq<RunActionV>)
    decreases evs.len(),
{
    if evs.len() == 0 {
        (s, Seq::empty())
    } else {
        let (s1, acts) = run_all(s, evs.drop_last());
        let (s2, a) = run_step_spec(s1, evs.last());
        (s2, acts.push(a))
    }
}

/// How many model calls the actions ask for.
pub open spec fn count_calls(acts: Seq<RunActionV>) -> nat
    decreases acts.len(),
{
    if acts.len() == 0 {
        0
    } else {
        count_calls(acts.drop_last()) + if acts.last() is Call {
            1nat
        } else {
            0nat
        }
    }
}

/// A started run with budget `b` that asked for `count` calls so far.
spec fn started_run(s: RunStateV, count: nat, b: u32) -> bool {
    match s {
        RunStateV::Calling { made, budget } => budget == b && count == made && 1 <= made <= b,
        RunStateV::Executing { made, budget, calls, next } => budget == b && count == made && 1
            <= made <= b && next <= calls.len(),
        RunStateV::Finished => count <= b,
        RunStateV::Idle => false,
    }
}

proof fn lemma_started_run(max_turns: u32, evs: Seq<RunEventV>)
    ensures
        started_run(
            run_all(RunStateV::Idle, seq![RunEventV::Start { max_turns }] + evs).0,
            count_calls(run_all(RunStateV::Idle, seq![RunEventV::Start { max_turns }] + evs).1),
            budget_spec(max_turns),
        ),
    decreases evs.len(),
{
    let all = seq![RunEventV::Start { max_turns }] + evs;
    if evs.len() == 0 {
        assert(all.drop_last() =~= Seq::<RunEventV>::empty());
        assert(all.last() == RunEventV::Start { max_turns });
        let e = Seq::<RunActionV>::empty();
        assert(run_all(RunStateV::Idle, all.drop_last()) == (RunStateV::Idle, e));
        let acts = run_all(RunStateV::Idle, all).1;
        assert(acts == e.push(RunActionV::Call(1)));
        assert(acts.drop_last() =~= e);
        assert(count_calls(e) == 0);
    } else {
        let prev = evs.drop_last();
        lemma_started_run(max_turns, prev);
        assert(all.drop_last() =~= seq![RunEventV::Start { max_turns }] + prev);
        assert(all.last() == evs.last());
        let (s1, acts) = run_all(RunStateV::Idle, all.drop_last());
        let (s2, a) = run_step_spec(s1, evs.last());
        assert(run_all(RunStateV::Idle, all).1 == acts.push(a));
        assert(acts.push(a).drop_last() =~= acts);
    }
}

/// However the events of a run come, it asks for at most its budget of model calls.
pub proof fn lemma_run_makes_at_most_budget_calls(max_turns: u32, evs: Seq<RunEventV>)
    ensures
        count_calls(run_all(RunStateV::Idle, seq![RunEventV::Start { max_turns }] + evs).1)
            <= budget_spec(max_turns),
{
    lemma_started_run(max_turns, evs);
}

// ---------------------------------------------------------------- usage of a call

/// The local estimate of a call's completion: its reply text and, for each tool call, its
/// arguments and eight more.
pub open spec fn completion_estimate_spec(text: Seq<char>, calls: Seq<ToolCall>) -> nat
    decreases calls.len(),
{
    if calls.len() == 0 {
        estimate_spec(text)
    } else {
        completion_estimate_spec(text, calls.drop_last()) + estimate_spec(calls.last().arguments@)
            + 8
    }
}

/// [`completion_estimate_spec`], or `None` when it does not fit in a `u32`.
pub fn completion_estimate(text: &str, calls: &Vec<ToolCall>) -> (r: Option<u32>)
    ensures
        match r {
            Some(n) => n == completion_estimate_spec(text@, calls@),
            None => completion_estimate_spec(text@, calls@) > u32::MAX,
        },
{
    let mut total: u64 = estimate_u64(text);
    if total > u32::MAX as u64 {
        assert(calls@.take(0) =~= Seq::<ToolCall>::empty());
        proof {
            lemma_completion_monotone(text@, calls@, 0);
        }
        return None;
    }
    let mut i: usize = 0;
    assert(calls@.take(0) =~= Seq::<ToolCall>::empty());
    while i < calls.len()
        invariant
            i <= calls@.len(),
            total <= u32::MAX,
            total == completion_estimate_spec(text@, calls@.take(i as int)),
        decreases calls@.len() - i,
    {
        proof {
            assert(calls@.take(i + 1).drop_last() =~= calls@.take(i as int));
            assert(calls@.take(i + 1).last() == calls@[i as int]);
            lemma_completion_monotone(text@, calls@, i + 1);
        }
        let a = estimate_u64(calls[i].arguments.as_str());
        if a > u32::MAX as u64 || total + a + 8 > u32::MAX as u64 {
            return None;
        }
        total = total + a + 8;
        i = i + 1;
    }
    assert(calls@.take(calls@.len() as int) =~= calls@);
    Some(total as u32)
}

proof fn lemma_completion_monotone(text: Seq<char>, calls: Seq<ToolCall>, i: int)
    requires
        0 <= i <= calls.len(),
    ensures
        completion_estimate_spec(text, calls.take(i)) <= completion_estimate_spec(text, calls),
    decreases calls.len() - i,
{
    if i < calls.len() {
        lemma_completion_monotone(text, calls, i + 1);
        assert(calls.take(i + 1).drop_last() =~= calls.take(i));
    } else {
        assert(calls.take(i) =~= calls);
    }
}

/// The estimate of the messages `a..b`, or `None` when it does not fit in a `u32`.
fn estimate_range(ms: &[serde_json::Value], a: usize, b: usize) -> (r: Option<u32>)
    requires
        a <= b <= ms@.len(),
    ensures
        match r {
            Some(n) => n == messages_estimate(ms@.subrange(a as int, b as int)),
            None => messages_estimate(ms@.subrange(a as int, b as int)) > u32::MAX,
        },
{
    let mut total: u64 = 0;
    let mut i = a;
    assert(ms@.subrange(a as int, a as int) =~= Seq::<serde_json::Value>::empty());
    while i < b
        invariant
            a <= i <= b <= ms@.len(),
            total <= u32::MAX,
            total == messages_estimate(ms@.subrange(a as int, i as int)),
        decreases b - i,
    {
        proof {
            assert(ms@.subrange(a as int, i + 1).drop_last() =~= ms@.subrange(a as int, i as int));
            assert(ms@.subrange(a as int, i + 1).last() == ms@[i as int]);
            lemma_range_monotone(ms@, a as int, i + 1, b as int);
        }
        let m = match message_estimate_checked(&ms[i]) {
            Some(m) => m as u64,
            None => {
                return None;
            },
        };
        if total + m > u32::MAX as u64 {
            return None;
        }
        total = total + m;
        i = i + 1;
    }
    Some(total as u32)
}

proof fn lemma_range_monotone(ms: Seq<serde_json::Value>, a: int, i: int, b: int)
    requires
        0 <= a <= i <= b <= ms.len(),
    ensures
        messages_estimate(ms.subrange(a, i)) <= messages_estimate(ms.subrange(a, b)),
    decreases b - i,
{
    if i < b {
        lemma_range_monotone(ms, a, i + 1, b);
        assert(ms.subrange(a, i + 1).drop_last() =~= ms.subrange(a, i));
        assert(ms.subrange(a, i + 1).last() == ms[i]);
    }
}

/// How many of `body_len` messages after the system message are history, given that
/// `base_len` messages (the history and the user's message) were stored when the run began.
pub open spec fn history_len(body_len: int, base_len: int) -> int {
    if base_len >= 1 {
        if base_len - 1 <= body_len {
            base_len - 1
        } else {
            body_len
        }
    } else {
        0
    }
}

/// How many messages after the history are the user's current message: one, if any is left.
pub open spec fn current_len(body_len: int, base_len: int) -> int {
    if body_len - history_len(body_len, base_len) >= 1 {
        1
    } else {
        0
    }
}

/// The usage of model call `call_no`: the server's numbers when it reported them, else the
/// local estimates (the prompt's, and [`completion_estimate_spec`] of the reply and its
/// tool calls); the breakdown splits `body` (the messages after the system message) into
/// the history, the current user message and this run's tool round trips, `base_len` being
/// the number of stored messages when the run began. `None` when a count does not fit in
/// a `u32`.
pub fn usage_for_call(
    session_id: &str,
    call_no: u32,
    server: Option<(u32, u32)>,
    prompt_estimate: u32,
    text: &str,
    calls: &Vec<ToolCall>,
    system: &Usage,
    body: &[serde_json::Value],
    base_len: usize,
) -> (r: Option<Usage>)
    ensures
        r matches Some(u) ==> {
            let h = history_len(body@.len() as int, base_len as int);
            let c = current_len(body@.len() as int, base_len as int);
            &&& u.session_id@ == session_id@
            &&& u.call == call_no
            &&& (match server {
                Some((p, q)) => u.prompt_tokens == p && u.completion_tokens == q && !u.estimated,
                None => u.prompt_tokens == prompt_estimate && u.completion_tokens
                    == completion_estimate_spec(text@, calls@) && u.estimated,
            })
            &&& u.system_tokens == system.system_tokens
            &&& u.context_window == system.context_window
            &&& u.breakdown.persona == system.breakdown.persona
            &&& u.breakdown.skills == system.breakdown.skills
            &&& u.breakdown.convention == system.breakdown.convention
            &&& u.breakdown.tools == system.breakdown.tools
            &&& u.breakdown.history == messages_estimate(body@.subrange(0, h))
            &&& u.breakdown.current == messages_estimate(body@.subrange(h, h + c))
            &&& u.breakdown.run == messages_estimate(body@.subrange(h + c, body@.len() as int))
        },
        r is None <==> {
            let h = history_len(body@.len() as int, base_len as int);
            let c = current_len(body@.len() as int, base_len as int);
            ||| messages_estimate(body@.subrange(0, h)) > u32::MAX
            ||| messages_estimate(body@.subrange(h, h + c)) > u32::MAX
            ||| messages_estimate(body@.subrange(h + c, body@.len() as int)) > u32::MAX
            ||| server is None && completion_estimate_spec(text@, calls@) > u32::MAX
        },
{
    let (h, c) = crate::agent::runner::message_split(body.len(), base_len);
    let history = estimate_range(body, 0, h)?;
    let current = estimate_range(body, h, h + c)?;
    let run = estimate_range(body, h + c, body.len())?;
    let local_completion = match server {
        Some(_) => 0,
        None => completion_estimate(text, calls)?,
    };
    let (prompt_tokens, completion_tokens, estimated) = crate::agent::runner::call_usage(
        server,
        prompt_estimate,
        local_completion,
    );
    Some(
        Usage {
            session_id: string_of(&chars_of(session_id)),
            call: call_no,
            prompt_tokens,
            completion_tokens,
            system_tokens: system.system_tokens,
            estimated,
            context_window: system.context_window,
            breakdown: Breakdown {
                persona: system.breakdown.persona,
                skills: system.breakdown.skills,
                convention: system.breakdown.convention,
                tools: system.breakdown.tools,
                history,
                current,
                run,
            },
        },
    )
}

} // verus!
