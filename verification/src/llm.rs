//! What the model sends back: text deltas, tool calls, usage, and the end of a reply.
pub mod openai;

use vstd::prelude::*;

verus! {

/// A tool call requested by the model.
#[derive(Debug, Clone, PartialEq)]
pub struct ToolCall {
    pub id: String,
    pub name: String,
    /// Raw JSON text of the arguments, parsed by the tool layer.
    pub arguments: String,
}

/// The view of a [`ToolCall`].
pub struct ToolCallV {
    pub id: Seq<char>,
    pub name: Seq<char>,
    pub arguments: Seq<char>,
}

impl View for ToolCall {
    type V = ToolCallV;

    open spec fn view(&self) -> ToolCallV {
        ToolCallV { id: self.id@, name: self.name@, arguments: self.arguments@ }
    }
}

/// One event of a streamed reply.
#[derive(Debug, Clone, PartialEq)]
pub enum LlmEvent {
    Delta(String),
    ToolCall(ToolCall),
    /// Usage reported by the server.
    Usage { prompt_tokens: u32, completion_tokens: u32 },
    Done,
}

/// The view of an [`LlmEvent`].
pub enum LlmEventV {
    Delta(Seq<char>),
    ToolCall(ToolCallV),
    Usage { prompt_tokens: u32, completion_tokens: u32 },
    Done,
}

impl View for LlmEvent {
    type V = LlmEventV;

    open spec fn view(&self) -> LlmEventV {
        match self {
            LlmEvent::Delta(t) => LlmEventV::Delta(t@),
            LlmEvent::ToolCall(c) => LlmEventV::ToolCall(c@),
            LlmEvent::Usage { prompt_tokens, completion_tokens } => LlmEventV::Usage {
                prompt_tokens: *prompt_tokens,
                completion_tokens: *completion_tokens,
            },
            LlmEvent::Done => LlmEventV::Done,
        }
    }
}

} // verus!
