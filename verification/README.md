# venus_whisper

The core of a desktop LLM agent that chats, reads and writes files in one workspace
directory and runs shell commands there, asking the user before writes according to an
approval mode. The library is verified with Verus; `app/` holds the parts that do I/O.

Layout:

- `src/` — the verified library
  - `agent/policy.rs` — which tool calls run at once and which ask; the "always allow"
    command prefix
  - `agent/runner.rs` — the system prompt, what streamed text may be shown, the reaction
    block, token accounting, approval keys and the answer to an approval
  - `agent/steps.rs` — the decisions of the run loop and of one tool call's execution, as
    state machines, and the usage reported for each model call
  - `agent/tools.rs`, `agent/tools/` — the workspace sandbox, output truncation, the
    arguments and outputs of the seven tools, and the decisions of the `grep` walk
  - `llm/openai.rs` — how a chat request goes out (URL, tools, bearer token), the HTTP error
    text, and the assembly of a streamed Chat Completions reply into events
  - `config.rs` — the configuration and the per-workspace allowlist
  - `persona.rs`, `skills.rs`, `theme.rs` — listing, lookup and syncing of personas, skill
    documents and themes
  - `tokens.rs`, `store.rs`, `window_state.rs`, `events.rs`
  - `text.rs`, `path.rs`, `sort.rs`, `json.rs`, `pattern.rs` — text, paths, sorting, JSON
    members and regular expressions
- `tests/` — tests of the library
- `app/` — configuration files, directory reading, the SQLite store, the HTTP client, the
  tools' file-system and process work, and the loop that performs the agent's actions
