//! Events sent from the agent to the front end, and the closed set of reactions.
use vstd::prelude::*;
use crate::text::{chars_of, str_eq, string_of};

verus! {

pub const DELTA: &'static str = "agent:delta";
pub const TOOL_REQUEST: &'static str = "agent:tool_request";
pub const TOOL_RESULT: &'static str = "agent:tool_result";
pub const DONE: &'static str = "agent:done";
pub const ERROR: &'static str = "agent:error";
pub const REACTION: &'static str = "agent:reaction";
pub const USAGE: &'static str = "agent:usage";
pub const CONFIG_CHANGED: &'static str = "config:changed";
/// The tray's "settings" item: the front end opens its settings page.
pub const OPEN_SETTINGS: &'static str = "ui:open_settings";

/// A piece of reply text that is safe to show.
#[derive(Debug, Clone)]
pub struct Delta {
    pub session_id: String,
    pub text: String,
}

/// The final reply was stored.
#[derive(Debug, Clone)]
pub struct Done {
    pub session_id: String,
    pub message_id: String,
}

/// The run failed.
#[derive(Debug, Clone)]
pub struct Error {
    pub session_id: String,
    pub message: String,
}

/// Where the tokens of a prompt come from.
#[derive(Debug, Clone, Copy, PartialEq, Eq)]
pub struct Breakdown {
    pub persona: u32,
    pub skills: u32,
    pub convention: u32,
    pub tools: u32,
    pub history: u32,
    pub current: u32,
    pub run: u32,
}

/// Token use of one model call (or of the next one, for call 0).
#[derive(Debug, Clone)]
pub struct Usage {
    pub session_id: String,
    pub call: u32,
    pub prompt_tokens: u32,
    pub completion_tokens: u32,
    pub system_tokens: u32,
    pub estimated: bool,
    pub context_window: u32,
    pub breakdown: Breakdown,
}

/// The reactions an avatar can play.
pub open spec fn actions() -> Seq<Seq<char>> {
    seq![
        "idle_breath"@,
        "blink"@,
        "look_at_cursor"@,
        "wave"@,
        "nod"@,
        "shake_head"@,
        "happy_jump"@,
        "confused_scratch"@,
        "thinking_spin"@,
        "listening_lean"@,
        "sad_slump"@,
        "angry_puff"@,
        "surprised_jump"@,
        "sleep_yawn"@,
        "sleep"@,
        "work_focus"@,
        "celebrate"@,
        "fail_glitch"@,
        "night_moon"@,
        "scared_hide"@,
        "love_heart"@,
        "bored_stretch"@,
    ]
}

/// The reaction names, in order.
pub fn action_names() -> (r: Vec<&'static str>)
    ensures
        r@.len() == actions().len(),
        forall|i: int| 0 <= i < r@.len() ==> (#[trigger] r@[i])@ == actions()[i],
{
    let v: Vec<&'static str> = vec![
        "idle_breath",
        "blink",
        "look_at_cursor",
        "wave",
        "nod",
        "shake_head",
        "happy_jump",
        "confused_scratch",
        "thinking_spin",
        "listening_lean",
        "sad_slump",
        "angry_puff",
        "surprised_jump",
        "sleep_yawn",
        "sleep",
        "work_focus",
        "celebrate",
        "fail_glitch",
        "night_moon",
        "scared_hide",
        "love_heart",
        "bored_stretch",
    ];
    v
}

/// Whether `name` is one of the reactions.
pub fn is_action(name: &str) -> (r: bool)
    ensures
        r == actions().contains(name@),
{
    let names = action_names();
    let mut i: usize = 0;
    while i < names.len()
        invariant
            i <= names@.len(),
            names@.len() == actions().len(),
            forall|k: int| 0 <= k < names@.len() ==> (#[trigger] names@[k])@ == actions()[k],
            forall|k: int| 0 <= k < i ==> actions()[k] != name@,
        decreases names@.len() - i,
    {
        if str_eq(names[i], name) {
            assert(actions()[i as int] == name@);
            return true;
        }
        i = i + 1;
    }
    false
}

/// The suggested reaction kept as it is when it is one of the reactions, else `idle_breath`.
pub open spec fn sanitized_reaction(name: Seq<char>) -> Seq<char> {
    if actions().contains(name) {
        name
    } else {
        "idle_breath"@
    }
}

/// Replaces a suggested reaction that is not one of the reactions by `idle_breath`.
pub fn sanitize_reaction(name: &str) -> (r: String)
    ensures
        r@ == sanitized_reaction(name@),
{
    if is_action(name) {
        string_of(&chars_of(name))
    } else {
        string_of(&chars_of("idle_breath"))
    }
}

} // verus!
