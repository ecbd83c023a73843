//! Assembling the events of an OpenAI Chat Completions stream (SSE). Text deltas pass
//! through as they come; the fragments of each tool call are collected by the call's index
//! and handed out, in index order, when a choice finishes or the stream ends.
use vstd::prelude::*;
use std::collections::BTreeMap;
use vstd::std_specs::btree::increasing_seq;
use vstd::std_specs::cmp::OrdSpec;
use vstd::std_specs::iter::IteratorSpec;
use crate::llm::{LlmEvent, LlmEventV, ToolCall, ToolCallV};
use crate::text::{
    chars_of, is_prefix, push_all, push_str, str_eq, string_of, trim, trim_chars,
};

verus! {

broadcast use vstd::std_specs::btree::group_btree_axioms;

/// The `function` part of a tool-call fragment.
#[derive(Debug, Clone, Default)]
pub struct DeltaFunction {
    pub name: Option<String>,
    pub arguments: Option<String>,
}

/// A fragment of a tool call.
#[derive(Debug, Clone)]
pub struct DeltaToolCall {
    pub index: usize,
    pub id: Option<String>,
    pub function: DeltaFunction,
}

/// The `delta` of a choice.
#[derive(Debug, Clone, Default)]
pub struct Delta {
    pub content: Option<String>,
    pub tool_calls: Vec<DeltaToolCall>,
}

/// One choice of a chunk.
#[derive(Debug, Clone)]
pub struct Choice {
    pub delta: Delta,
    pub finish_reason: Option<String>,
}

/// One `data:` payload of the stream.
#[derive(Debug, Clone)]
pub struct Chunk {
    pub choices: Vec<Choice>,
}

/// The characters of an optional string, empty when absent.
pub open spec fn text_or_empty(o: Option<String>) -> Seq<char> {
    match o {
        Some(s) => s@,
        None => Seq::<char>::empty(),
    }
}

/// The JSON text of an SSE line: what follows `data:`, trimmed; `None` for other lines, an
/// empty payload and the `[DONE]` marker.
pub open spec fn sse_payload_spec(line: Seq<char>) -> Option<Seq<char>> {
    if is_prefix("data:"@, line) {
        let data = trim(line.skip(5));
        if data.len() == 0 || data == "[DONE]"@ {
            None
        } else {
            Some(data)
        }
    } else {
        None
    }
}

/// The JSON payload of one SSE line, if it carries one.
pub fn sse_payload(line: &str) -> (r: Option<String>)
    ensures
        match r {
            Some(d) => sse_payload_spec(line@) == Some(d@),
            None => sse_payload_spec(line@) is None,
        },
{
    let v = chars_of(line);
    let prefix = chars_of("data:");
    proof {
        reveal_strlit("data:");
    }
    if !crate::text::starts_with(&v, &prefix) {
        return None;
    }
    let rest = crate::text::slice_chars(&v, 5, v.len());
    assert(rest@ =~= line@.skip(5));
    let data = trim_chars(&rest);
    let d = string_of(&data);
    if data.len() == 0 || str_eq(d.as_str(), "[DONE]") {
        return None;
    }
    Some(d)
}

// ---------------------------------------------------------------- lines of the byte stream

/// A line without the carriage returns at its end.
pub open spec fn trim_cr_end(s: Seq<char>) -> Seq<char>
    decreases s.len(),
{
    if s.len() > 0 && s.last() == '\r' {
        trim_cr_end(s.drop_last())
    } else {
        s
    }
}

/// The complete lines of a text (each without its `\n` and trailing `\r`s) and the
/// unfinished rest after the last `\n`.
pub open spec fn split_lines(s: Seq<char>) -> (Seq<Seq<char>>, Seq<char>)
    decreases s.len(),
{
    match crate::text::find(s, seq!['\n']) {
        None => (Seq::empty(), s),
        Some(p) => if 0 <= p < s.len() {
            let rest = split_lines(s.skip(p + 1));
            (seq![trim_cr_end(s.take(p))] + rest.0, rest.1)
        } else {
            (Seq::empty(), s)
        },
    }
}

fn trim_cr_end_exec(v: &Vec<char>) -> (r: Vec<char>)
    ensures
        r@ == trim_cr_end(v@),
{
    let mut j = v.len();
    assert(v@.take(j as int) =~= v@);
    while j > 0 && v[j - 1] == '\r'
        invariant
            j <= v@.len(),
            trim_cr_end(v@) == trim_cr_end(v@.take(j as int)),
        decreases j,
    {
        assert(v@.take(j as int).drop_last() =~= v@.take(j - 1));
        j = j - 1;
    }
    crate::text::slice_chars(v, 0, j)
}

/// The text received so far that does not yet end a line.
pub struct LineBuffer {
    buf: Vec<char>,
}

impl LineBuffer {
    /// The unfinished line held.
    pub closed spec fn pending(&self) -> Seq<char> {
        self.buf@
    }

    /// An empty buffer.
    pub fn new() -> (r: LineBuffer)
        ensures
            r.pending() == Seq::<char>::empty(),
    {
        LineBuffer { buf: Vec::new() }
    }

    /// Adds received text; returns the lines it completes, in order.
    pub fn push(&mut self, text: &str) -> (r: Vec<String>)
        ensures
            Seq::new(r@.len(), |i: int| r@[i]@) == split_lines(old(self).pending() + text@).0,
            final(self).pending() == split_lines(old(self).pending() + text@).1,
    {
        let ghost all = self.buf@ + text@;
        push_str(&mut self.buf, text);
        assert(self.buf@ == all);
        let mut out: Vec<String> = Vec::new();
        let nl: Vec<char> = vec!['\n'];
        assert(nl@ =~= seq!['\n']);
        let ghost mut prefix: Seq<Seq<char>> = Seq::empty();
        assert(Seq::new(out@.len(), |i: int| out@[i]@) =~= prefix);
        loop
            invariant
                nl@ == seq!['\n'],
                all == old(self).buf@ + text@,
                Seq::new(out@.len(), |i: int| out@[i]@) == prefix,
                split_lines(all) == (prefix + split_lines(self.buf@).0, split_lines(self.buf@).1),
            decreases self.buf@.len(),
        {
            match crate::text::find_chars(&self.buf, &nl) {
                None => {
                    assert(split_lines(self.buf@).0 =~= Seq::<Seq<char>>::empty());
                    assert(prefix + Seq::<Seq<char>>::empty() =~= prefix);
                    return out;
                },
                Some(p) => {
                    proof {
                        crate::text::lemma_find_from(self.buf@, nl@, 0);
                    }
                    assert(p + 1 <= self.buf@.len());
                    let n: usize = self.buf.len();
                    let q: usize = p + 1;
                    let head = crate::text::slice_chars(&self.buf, 0, p);
                    let rest = crate::text::slice_chars(&self.buf, q, n);
                    assert(head@ =~= self.buf@.take(p as int));
                    assert(rest@ =~= self.buf@.skip(p + 1));
                    let line = trim_cr_end_exec(&head);
                    let ghost before = out@;
                    out.push(string_of(&line));
                    proof {
                        let old_buf = self.buf@;
                        assert(Seq::new(out@.len(), |i: int| out@[i]@) =~= Seq::new(
                            before.len(),
                            |i: int| before[i]@,
                        ).push(line@));
                        assert(split_lines(old_buf).0 =~= seq![line@] + split_lines(rest@).0);
                        assert(prefix + split_lines(old_buf).0 =~= prefix.push(line@) + split_lines(
                            rest@,
                        ).0);
                        prefix = prefix.push(line@);
                    }
                    self.buf = rest;
                },
            }
        }
    }
}

// ---------------------------------------------------------------- the request

/// `str::trim_end_matches(c)` for one character.
pub open spec fn trim_end_char(s: Seq<char>, c: char) -> Seq<char>
    decreases s.len(),
{
    if s.len() > 0 && s.last() == c {
        trim_end_char(s.drop_last(), c)
    } else {
        s
    }
}

/// The completions endpoint under a base URL, without doubled slashes.
pub open spec fn chat_url_spec(base_url: Seq<char>) -> Seq<char> {
    trim_end_char(base_url, '/') + "/chat/completions"@
}

/// The completions endpoint under `base_url` (trailing slashes of the base removed).
pub fn chat_url(base_url: &str) -> (r: String)
    ensures
        r@ == chat_url_spec(base_url@),
{
    let v = chars_of(base_url);
    let mut j = v.len();
    assert(v@.take(j as int) =~= v@);
    while j > 0 && v[j - 1] == '/'
        invariant
            j <= v@.len(),
            trim_end_char(v@, '/') == trim_end_char(v@.take(j as int), '/'),
        decreases j,
    {
        assert(v@.take(j as int).drop_last() =~= v@.take(j - 1));
        j = j - 1;
    }
    let mut out = crate::text::slice_chars(&v, 0, j);
    push_str(&mut out, "/chat/completions");
    string_of(&out)
}

/// How a chat request goes out: its URL, whether it carries the tool list (only when
/// there are tools), and the bearer token (only when an API key is set).
pub struct ChatPlan {
    pub url: String,
    pub send_tools: bool,
    pub bearer: Option<String>,
}

/// The plan of a chat request to `base_url` with `api_key` and `tool_count` tools.
pub fn chat_plan(base_url: &str, api_key: &str, tool_count: usize) -> (r: ChatPlan)
    ensures
        r.url@ == chat_url_spec(base_url@),
        r.send_tools == (tool_count > 0),
        r.bearer is None <==> api_key@.len() == 0,
        r.bearer matches Some(k) ==> k@ == api_key@,
{
    let bearer = if api_key.is_empty() {
        None
    } else {
        Some(string_of(&chars_of(api_key)))
    };
    ChatPlan { url: chat_url(base_url), send_tools: tool_count > 0, bearer }
}

/// Most characters of an error response kept in the message.
pub const ERROR_BODY_CHARS: usize = 500;

/// The error for a response that is not a success: its status and the start of its body.
pub open spec fn http_error_spec(status: Seq<char>, body: Seq<char>) -> Seq<char> {
    "LLM HTTP "@ + status + ": "@ + body.take(
        if body.len() < ERROR_BODY_CHARS {
            body.len() as int
        } else {
            ERROR_BODY_CHARS as int
        },
    )
}

/// The error for a failed request; `status` is the status's `Display` text.
pub fn http_error(status: &str, body: &str) -> (r: crate::error::Error)
    ensures
        r.msg() == http_error_spec(status@, body@),
{
    let b = chars_of(body);
    let n = if b.len() < ERROR_BODY_CHARS {
        b.len()
    } else {
        ERROR_BODY_CHARS
    };
    let head = crate::text::slice_chars(&b, 0, n);
    assert(head@ =~= body@.take(n as int));
    let hs = string_of(&head);
    crate::error::Error::with("LLM HTTP ", status, ": ").append(hs.as_str())
}

// ---------------------------------------------------------------- the assembler model

/// A call with nothing collected yet.
pub open spec fn empty_call() -> ToolCallV {
    ToolCallV {
        id: Seq::<char>::empty(),
        name: Seq::<char>::empty(),
        arguments: Seq::<char>::empty(),
    }
}

/// A fragment applied to a call: a given id replaces the id, name and argument pieces are
/// appended.
pub open spec fn merge(c: ToolCallV, d: DeltaToolCall) -> ToolCallV {
    ToolCallV {
        id: match d.id {
            Some(i) => i@,
            None => c.id,
        },
        name: c.name + text_or_empty(d.function.name),
        arguments: c.arguments + text_or_empty(d.function.arguments),
    }
}

/// Number of leading entries whose index is below `idx`: where a call with index `idx`
/// stands in a list kept in index order.
pub open spec fn count_below(p: Seq<(usize, ToolCallV)>, idx: usize) -> nat
    decreases p.len(),
{
    if p.len() > 0 && p[0].0 < idx {
        1 + count_below(p.drop_first(), idx)
    } else {
        0
    }
}

/// Strictly increasing indices.
pub open spec fn sorted(p: Seq<(usize, ToolCallV)>) -> bool {
    forall|i: int, j: int| 0 <= i < j < p.len() ==> p[i].0 < p[j].0
}

/// The pending calls after one fragment.
pub open spec fn apply_delta(p: Seq<(usize, ToolCallV)>, d: DeltaToolCall) -> Seq<
    (usize, ToolCallV),
> {
    let k = count_below(p, d.index) as int;
    if k < p.len() && p[k].0 == d.index {
        p.update(k, (d.index, merge(p[k].1, d)))
    } else {
        p.insert(k, (d.index, merge(empty_call(), d)))
    }
}

/// The pending calls after a list of fragments, in order.
pub open spec fn apply_all(p: Seq<(usize, ToolCallV)>, ds: Seq<DeltaToolCall>) -> Seq<
    (usize, ToolCallV),
>
    decreases ds.len(),
{
    if ds.len() == 0 {
        p
    } else {
        apply_delta(apply_all(p, ds.drop_last()), ds.last())
    }
}

/// The abstract state of the assembler.
pub struct AsmV {
    pub pending: Seq<(usize, ToolCallV)>,
    pub flushed: bool,
}

/// The tool-call events of the pending calls, in index order (ids as collected).
pub open spec fn call_events(p: Seq<(usize, ToolCallV)>) -> Seq<LlmEventV> {
    p.map_values(|e: (usize, ToolCallV)| LlmEventV::ToolCall(e.1))
}

/// Flushing: the pending calls once, then nothing.
pub open spec fn flush_spec(st: AsmV) -> (Seq<LlmEventV>, AsmV) {
    if st.flushed {
        (Seq::<LlmEventV>::empty(), st)
    } else {
        (call_events(st.pending), AsmV { pending: Seq::empty(), flushed: true })
    }
}

/// One choice: its text as a delta when not empty, its fragments collected, and a flush
/// when it carries a finish reason.
pub open spec fn choice_spec(st: AsmV, ch: Choice) -> (Seq<LlmEventV>, AsmV) {
    let text_events = match ch.delta.content {
        Some(t) => if t@.len() > 0 {
            seq![LlmEventV::Delta(t@)]
        } else {
            Seq::<LlmEventV>::empty()
        },
        None => Seq::<LlmEventV>::empty(),
    };
    let st2 = AsmV { pending: apply_all(st.pending, ch.delta.tool_calls@), flushed: st.flushed };
    if ch.finish_reason is Some {
        let (fl, st3) = flush_spec(st2);
        (text_events + fl, st3)
    } else {
        (text_events, st2)
    }
}

/// A chunk: its choices in order.
pub open spec fn chunk_spec(st: AsmV, choices: Seq<Choice>) -> (Seq<LlmEventV>, AsmV)
    decreases choices.len(),
{
    if choices.len() == 0 {
        (Seq::<LlmEventV>::empty(), st)
    } else {
        let (e1, s1) = chunk_spec(st, choices.drop_last());
        let (e2, s2) = choice_spec(s1, choices.last());
        (e1 + e2, s2)
    }
}

/// `actual` is `raw` with every empty tool-call id replaced by a fresh id that starts with
/// `call_`.
pub open spec fn ids_filled(raw: Seq<LlmEventV>, actual: Seq<LlmEventV>) -> bool {
    &&& raw.len() == actual.len()
    &&& forall|k: int|
        0 <= k < raw.len() ==> #[trigger] filled_event(raw[k], actual[k])
}

/// One event with its id filled.
pub open spec fn filled_event(raw: LlmEventV, actual: LlmEventV) -> bool {
    match raw {
        LlmEventV::ToolCall(c) => match actual {
            LlmEventV::ToolCall(a) => {
                &&& a.name == c.name
                &&& a.arguments == c.arguments
                &&& if c.id.len() > 0 {
                    a.id == c.id
                } else {
                    is_prefix("call_"@, a.id) && hex_id(a.id.skip(5))
                }
            },
            _ => false,
        },
        _ => actual == raw,
    }
}

/// A lowercase hexadecimal digit.
pub open spec fn lower_hex(c: char) -> bool {
    ('0' <= c && c <= '9') || ('a' <= c && c <= 'f')
}

/// Thirty-two lowercase hexadecimal digits (the simple form of a UUID).
pub open spec fn hex_id(s: Seq<char>) -> bool {
    s.len() == 32 && forall|i: int| 0 <= i < s.len() ==> lower_hex(#[trigger] s[i])
}

/// `uuid::Uuid::new_v4()` in its simple form (`Uuid::simple`, written with `to_string`).
/// The contract claims that the result is 32 lowercase hexadecimal digits; which digits is
/// random and not stated.
#[verifier::external_body]
fn new_uuid_simple() -> (r: String)
    ensures
        hex_id(r@),
{
    uuid::Uuid::new_v4().simple().to_string()
}

/// A fresh id for a tool call that came without one: `call_` and a new UUID.
fn fresh_call_id() -> (r: String)
    ensures
        is_prefix("call_"@, r@),
        hex_id(r@.skip(5)),
{
    let u = new_uuid_simple();
    let mut v = chars_of("call_");
    proof {
        reveal_strlit("call_");
    }
    push_str(&mut v, u.as_str());
    assert(v@.take(5) =~= "call_"@);
    assert(v@.skip(5) =~= u@);
    string_of(&v)
}

/// Collects the fragments of streamed tool calls, by index.
pub struct Assembler {
    pending: BTreeMap<usize, ToolCall>,
    order: Ghost<Seq<(usize, ToolCallV)>>,
    flushed: bool,
}

impl View for Assembler {
    type V = AsmV;

    closed spec fn view(&self) -> AsmV {
        AsmV { pending: self.order@, flushed: self.flushed }
    }
}

impl Assembler {
    /// Internal consistency: the pending calls, in increasing index order, are exactly the
    /// entries of the map.
    pub closed spec fn wf(&self) -> bool {
        &&& sorted(self.order@)
        &&& forall|j: int|
            0 <= j < self.order@.len() ==> #[trigger] self.pending@.contains_key(self.order@[j].0)
                && self.pending@[self.order@[j].0]@ == self.order@[j].1
        &&& forall|k: usize|
            #[trigger] self.pending@.contains_key(k) ==> exists|j: int|
                0 <= j < self.order@.len() && self.order@[j].0 == k
    }

    /// An assembler with nothing pending.
    pub fn new() -> (r: Self)
        ensures
            r.wf(),
            r@.pending.len() == 0,
            !r@.flushed,
    {
        Assembler { pending: BTreeMap::new(), order: Ghost(Seq::empty()), flushed: false }
    }

    /// The pending tool calls are kept in strictly increasing index order, so they are
    /// handed out in index order whatever order their fragments came in.
    pub proof fn lemma_pending_in_index_order(&self)
        requires
            self.wf(),
        ensures
            sorted(self@.pending),
    {
    }

    /// Feeds one parsed chunk; returns the events it completes.
    pub fn feed_chunk(&mut self, chunk: Chunk) -> (r: Vec<LlmEvent>)
        requires
            old(self).wf(),
        ensures
            final(self).wf(),
            ids_filled(chunk_spec(old(self)@, chunk.choices@).0, r@.map_values(|e: LlmEvent| e@)),
            final(self)@ == chunk_spec(old(self)@, chunk.choices@).1,
    {
        let raw = self.feed_raw(&chunk.choices);
        fill_ids(raw)
    }

    /// Ends the stream: the calls still pending (unless already handed out), then `Done`.
    pub fn finish(&mut self) -> (r: Vec<LlmEvent>)
        requires
            old(self).wf(),
        ensures
            final(self).wf(),
            ids_filled(
                flush_spec(old(self)@).0.push(LlmEventV::Done),
                r@.map_values(|e: LlmEvent| e@),
            ),
            final(self)@ == flush_spec(old(self)@).1,
    {
        let mut out = self.flush();
        out.push(LlmEvent::Done);
        proof {
            let ghost raw = flush_spec(old(self)@).0;
            assert(out@.map_values(|e: LlmEvent| e@) =~= raw.push(LlmEventV::Done));
        }
        fill_ids(out)
    }

    fn flush(&mut self) -> (r: Vec<LlmEvent>)
        requires
            old(self).wf(),
        ensures
            final(self).wf(),
            r@.map_values(|e: LlmEvent| e@) == flush_spec(old(self)@).0,
            final(self)@ == flush_spec(old(self)@).1,
    {
        if self.flushed {
            let r: Vec<LlmEvent> = Vec::new();
            assert(r@.map_values(|e: LlmEvent| e@) =~= Seq::<LlmEventV>::empty());
            return r;
        }
        self.flushed = true;
        let ghost order = self.order@;
        let ghost m = self.pending@;
        proof {
            lemma_usize_keys_ordered();
        }
        let mut out: Vec<LlmEvent> = Vec::new();
        let vals = self.pending.values();
        let ghost ks = choose|ks: Seq<usize>|
            {
                &&& increasing_seq(ks)
                &&& ks.to_set() == m.dom()
                &&& ks.no_duplicates()
                &&& IteratorSpec::remaining(&vals) == ks.map(|i: int, k| &m[k])
            };
        for v in it: vals
            invariant
                out@.map_values(|e: LlmEvent| e@) == it.seq().take(it.index() as int).map_values(
                    |c: &ToolCall| LlmEventV::ToolCall(c@),
                ),
        {
            let ghost before = out@.map_values(|e: LlmEvent| e@);
            out.push(LlmEvent::ToolCall(v.clone_call()));
            assert(out@.map_values(|e: LlmEvent| e@) =~= before.push(LlmEventV::ToolCall(v@)));
        }
        proof {
            let got = out@.map_values(|e: LlmEvent| e@);
            assert(got =~= ks.map_values(|k: usize| LlmEventV::ToolCall(m[k]@)));
            lemma_keys_in_order(ks, order, m);
            assert forall|k: int| 0 <= k < got.len() implies got[k] == call_events(order)[k] by {
                assert(ks[k] == order[k].0);
                assert(m.contains_key(order[k].0));
            }
            assert(got =~= call_events(order));
        }
        self.pending = BTreeMap::new();
        self.order = Ghost(Seq::empty());
        out
    }

    /// Applies the fragments and finish reasons of `choices` without filling ids.
    fn feed_raw(&mut self, choices: &Vec<Choice>) -> (r: Vec<LlmEvent>)
        requires
            old(self).wf(),
        ensures
            final(self).wf(),
            r@.map_values(|e: LlmEvent| e@) == chunk_spec(old(self)@, choices@).0,
            final(self)@ == chunk_spec(old(self)@, choices@).1,
    {
        let mut out: Vec<LlmEvent> = Vec::new();
        let mut i: usize = 0;
        let ghost st0 = self@;
        assert(choices@.take(0) =~= Seq::<Choice>::empty());
        while i < choices.len()
            invariant
                i <= choices@.len(),
                self.wf(),
                out@.map_values(|e: LlmEvent| e@) == chunk_spec(st0, choices@.take(i as int)).0,
                self@ == chunk_spec(st0, choices@.take(i as int)).1,
            decreases choices@.len() - i,
        {
            let ghost before = out@.map_values(|e: LlmEvent| e@);
            let ghost s_before = self@;
            let evs = self.feed_choice(&choices[i]);
            let ghost ev_view = evs@.map_values(|e: LlmEvent| e@);
            append_events(&mut out, evs);
            assert(out@.map_values(|e: LlmEvent| e@) =~= before + ev_view);
            assert(choices@.take(i + 1).drop_last() =~= choices@.take(i as int));
            assert(choices@.take(i + 1).last() == choices@[i as int]);
            i = i + 1;
        }
        assert(choices@.take(choices@.len() as int) =~= choices@);
        out
    }

    fn feed_choice(&mut self, ch: &Choice) -> (r: Vec<LlmEvent>)
        requires
            old(self).wf(),
        ensures
            final(self).wf(),
            r@.map_values(|e: LlmEvent| e@) == choice_spec(old(self)@, *ch).0,
            final(self)@ == choice_spec(old(self)@, *ch).1,
    {
        let mut out: Vec<LlmEvent> = Vec::new();
        match &ch.delta.content {
            Some(t) => {
                if !t.as_str().is_empty() {
                    out.push(LlmEvent::Delta(t.clone()));
                }
            },
            None => {},
        }
        let ghost text_events = out@.map_values(|e: LlmEvent| e@);
        let ghost st0 = self@;
        let mut i: usize = 0;
        let ds = &ch.delta.tool_calls;
        assert(ds@.take(0) =~= Seq::<DeltaToolCall>::empty());
        while i < ds.len()
            invariant
                i <= ds@.len(),
                self.wf(),
                self@.flushed == st0.flushed,
                self@.pending == apply_all(st0.pending, ds@.take(i as int)),
            decreases ds@.len() - i,
        {
            self.apply(&ds[i]);
            assert(ds@.take(i + 1).drop_last() =~= ds@.take(i as int));
            assert(ds@.take(i + 1).last() == ds@[i as int]);
            i = i + 1;
        }
        assert(ds@.take(ds@.len() as int) =~= ds@);
        if ch.finish_reason.is_some() {
            let fl = self.flush();
            let ghost fv = fl@.map_values(|e: LlmEvent| e@);
            append_events(&mut out, fl);
            assert(out@.map_values(|e: LlmEvent| e@) =~= text_events + fv);
        }
        out
    }

    /// Applies one fragment.
    fn apply(&mut self, d: &DeltaToolCall)
        requires
            old(self).wf(),
        ensures
            final(self).wf(),
            final(self)@.flushed == old(self)@.flushed,
            final(self)@.pending == apply_delta(old(self)@.pending, *d),
    {
        let ghost p = self.order@;
        let ghost m = self.pending@;
        let ghost k = count_below(p, d.index) as int;
        proof {
            lemma_count_below(p, d.index);
            lemma_usize_keys_ordered();
        }
        let merged = match self.pending.get(&d.index) {
            Some(c) => merge_exec(c, d),
            None => {
                let fresh = ToolCall { id: String::new(), name: String::new(), arguments: String::new() };
                merge_exec(&fresh, d)
            },
        };
        let ghost present = m.contains_key(d.index);
        proof {
            if m.contains_key(d.index) {
                let j = choose|j: int| 0 <= j < p.len() && p[j].0 == d.index;
                if j < k {
                } else if j > k {
                    assert(p[k].0 < p[j].0);
                }
                assert(j == k);
                assert(merged@ == merge(p[k].1, *d));
                self.order@ = p.update(k, (d.index, merged@));
            } else {
                assert forall|j: int| 0 <= j < p.len() implies p[j].0 != d.index by {
                    assert(m.contains_key(p[j].0));
                }
                assert(merged@ == merge(empty_call(), *d));
                self.order@ = p.insert(k, (d.index, merged@));
            }
        }
        let ghost q = self.order@;
        let ghost mv = merged;
        self.pending.insert(d.index, merged);
        proof {
            let m2 = self.pending@;
            assert(m2 == m.insert(d.index, mv));
            assert(mv@ == q[k].1);
            assert forall|a: int, b: int| 0 <= a < b < q.len() implies q[a].0 < q[b].0 by {
                if !present {
                    if a < k && b > k {
                        assert(q[a] == p[a] && q[b] == p[b - 1]);
                    }
                }
            }
            assert forall|j: int| 0 <= j < q.len() implies #[trigger] m2.contains_key(q[j].0)
                && m2[q[j].0]@ == q[j].1 by {
                if j != k {
                    if present || j < k {
                        assert(q[j] == p[j]);
                        assert(m.contains_key(p[j].0));
                    } else {
                        assert(q[j] == p[j - 1]);
                        assert(m.contains_key(p[j - 1].0));
                    }
                    assert(q[j].0 != d.index);
                } else {
                    assert(q[j].0 == d.index);
                }
            }
            assert forall|key: usize| #[trigger] m2.contains_key(key) implies exists|j: int|
                0 <= j < q.len() && q[j].0 == key by {
                if key == d.index {
                    assert(q[k].0 == key);
                } else {
                    assert(m.contains_key(key));
                    let j = choose|j: int| 0 <= j < p.len() && p[j].0 == key;
                    if present || j < k {
                        assert(q[j].0 == key);
                    } else {
                        assert(q[j + 1].0 == key);
                    }
                }
            }
        }
    }
}

/// Indices are ordered as integers (so a map keyed by them keeps them in that order).
proof fn lemma_usize_keys_ordered()
    ensures
        vstd::laws_cmp::obeys_cmp::<usize>(),
{
    broadcast use vstd::laws_cmp::group_laws_cmp;
}

/// A sequence of indices that a map yields in increasing order is strictly increasing.
proof fn lemma_increasing_usize(ks: Seq<usize>)
    requires
        increasing_seq(ks),
    ensures
        forall|i: int, j: int| 0 <= i < j < ks.len() ==> ks[i] < ks[j],
{
    lemma_usize_keys_ordered();
    assert forall|i: int, j: int| 0 <= i < j < ks.len() implies ks[i] < ks[j] by {
        assert(ks[i].cmp_spec(&ks[j]) is Less);
    }
}

/// Two strictly increasing sequences of indices with the same elements are equal.
proof fn lemma_increasing_unique(a: Seq<usize>, b: Seq<usize>)
    requires
        forall|i: int, j: int| 0 <= i < j < a.len() ==> a[i] < a[j],
        forall|i: int, j: int| 0 <= i < j < b.len() ==> b[i] < b[j],
        forall|x: usize| a.contains(x) <==> b.contains(x),
    ensures
        a == b,
    decreases a.len(),
{
    if a.len() == 0 {
        if b.len() > 0 {
            assert(b.contains(b[0]));
        }
        assert(a =~= b);
    } else {
        assert(a.contains(a[0]));
        let j = choose|j: int| 0 <= j < b.len() && b[j] == a[0];
        assert(b.contains(b[0]));
        let i = choose|i: int| 0 <= i < a.len() && a[i] == b[0];
        assert(a[0] == b[0]);
        let ta = a.drop_first();
        let tb = b.drop_first();
        assert forall|x: usize| ta.contains(x) <==> tb.contains(x) by {
            if ta.contains(x) {
                let u = choose|u: int| 0 <= u < ta.len() && ta[u] == x;
                assert(a[u + 1] == x);
                assert(a.contains(x));
                let v = choose|v: int| 0 <= v < b.len() && b[v] == x;
                assert(v != 0);
                assert(tb[v - 1] == x);
            }
            if tb.contains(x) {
                let u = choose|u: int| 0 <= u < tb.len() && tb[u] == x;
                assert(b[u + 1] == x);
                assert(b.contains(x));
                let v = choose|v: int| 0 <= v < a.len() && a[v] == x;
                assert(v != 0);
                assert(ta[v - 1] == x);
            }
        }
        lemma_increasing_unique(ta, tb);
        assert(a =~= seq![a[0]] + ta);
        assert(b =~= seq![b[0]] + tb);
    }
}

/// The keys that the map's values come out by are the indices of the pending calls.
proof fn lemma_keys_in_order(ks: Seq<usize>, order: Seq<(usize, ToolCallV)>, m: Map<usize, ToolCall>)
    requires
        increasing_seq(ks),
        ks.to_set() == m.dom(),
        sorted(order),
        forall|j: int|
            0 <= j < order.len() ==> #[trigger] m.contains_key(order[j].0) && m[order[j].0]@
                == order[j].1,
        forall|k: usize|
            #[trigger] m.contains_key(k) ==> exists|j: int| 0 <= j < order.len() && order[j].0 == k,
    ensures
        ks.len() == order.len(),
        forall|j: int| 0 <= j < ks.len() ==> ks[j] == order[j].0,
{
    lemma_increasing_usize(ks);
    let os = order.map_values(|e: (usize, ToolCallV)| e.0);
    assert forall|x: usize| ks.contains(x) <==> os.contains(x) by {
        if ks.contains(x) {
            assert(ks.to_set().contains(x));
            assert(m.contains_key(x));
            let j = choose|j: int| 0 <= j < order.len() && order[j].0 == x;
            assert(os[j] == x);
        }
        if os.contains(x) {
            let j = choose|j: int| 0 <= j < os.len() && os[j] == x;
            assert(m.contains_key(order[j].0));
            assert(ks.to_set().contains(x));
        }
    }
    lemma_increasing_unique(ks, os);
}

/// The entries before the insertion point are below `idx`; the one at it is not.
proof fn lemma_count_below(p: Seq<(usize, ToolCallV)>, idx: usize)
    ensures
        count_below(p, idx) <= p.len(),
        forall|j: int| 0 <= j < count_below(p, idx) ==> p[j].0 < idx,
        count_below(p, idx) < p.len() ==> p[count_below(p, idx) as int].0 >= idx,
    decreases p.len(),
{
    if p.len() > 0 && p[0].0 < idx {
        lemma_count_below(p.drop_first(), idx);
        assert forall|j: int| 0 <= j < count_below(p, idx) implies p[j].0 < idx by {
            if j > 0 {
                assert(p[j] == p.drop_first()[j - 1]);
            }
        }
        if count_below(p, idx) < p.len() {
            assert(p[count_below(p, idx) as int] == p.drop_first()[count_below(p, idx) - 1]);
        }
    }
}

impl ToolCall {
    /// A copy of the call.
    pub fn clone_call(&self) -> (r: ToolCall)
        ensures
            r@ == self@,
    {
        ToolCall { id: self.id.clone(), name: self.name.clone(), arguments: self.arguments.clone() }
    }
}

fn opt_chars(o: &Option<String>) -> (r: Vec<char>)
    ensures
        r@ == text_or_empty(*o),
{
    match o {
        Some(s) => chars_of(s.as_str()),
        None => Vec::new(),
    }
}

fn merge_exec(c: &ToolCall, d: &DeltaToolCall) -> (r: ToolCall)
    ensures
        r@ == merge(c@, *d),
{
    let id = match &d.id {
        Some(i) => i.clone(),
        None => c.id.clone(),
    };
    let mut name = chars_of(c.name.as_str());
    push_all(&mut name, &opt_chars(&d.function.name));
    let mut args = chars_of(c.arguments.as_str());
    push_all(&mut args, &opt_chars(&d.function.arguments));
    ToolCall { id, name: string_of(&name), arguments: string_of(&args) }
}

fn append_events(out: &mut Vec<LlmEvent>, evs: Vec<LlmEvent>)
    ensures
        final(out)@.map_values(|e: LlmEvent| e@) == old(out)@.map_values(|e: LlmEvent| e@)
            + evs@.map_values(|e: LlmEvent| e@),
{
    let mut evs = evs;
    let mut tmp: Vec<LlmEvent> = Vec::new();
    let ghost orig = evs@;
    while evs.len() > 0
        invariant
            tmp@ + evs@ == orig,
        decreases evs@.len(),
    {
        let e = evs.remove(0);
        tmp.push(e);
        assert(tmp@ + evs@ =~= orig);
    }
    assert(tmp@ =~= orig);
    let ghost o0 = out@;
    let mut i: usize = 0;
    while i < tmp.len()
        invariant
            i <= tmp@.len(),
            out@ == o0 + tmp@.take(i as int),
        decreases tmp@.len() - i,
    {
        out.push(tmp[i].clone_event());
        assert(out@ =~= o0 + tmp@.take(i + 1));
        i = i + 1;
    }
    assert(tmp@.take(tmp@.len() as int) =~= tmp@);
    assert(out@.map_values(|e: LlmEvent| e@) =~= o0.map_values(|e: LlmEvent| e@) + orig.map_values(
        |e: LlmEvent| e@,
    ));
}

impl LlmEvent {
    /// A copy of the event.
    pub fn clone_event(&self) -> (r: LlmEvent)
        ensures
            r == *self,
    {
        match self {
            LlmEvent::Delta(t) => LlmEvent::Delta(t.clone()),
            LlmEvent::ToolCall(c) => LlmEvent::ToolCall(
                ToolCall { id: c.id.clone(), name: c.name.clone(), arguments: c.arguments.clone() },
            ),
            LlmEvent::Usage { prompt_tokens, completion_tokens } => LlmEvent::Usage {
                prompt_tokens: *prompt_tokens,
                completion_tokens: *completion_tokens,
            },
            LlmEvent::Done => LlmEvent::Done,
        }
    }
}

/// Gives every tool call with an empty id a fresh one.
fn fill_ids(evs: Vec<LlmEvent>) -> (r: Vec<LlmEvent>)
    ensures
        ids_filled(evs@.map_values(|e: LlmEvent| e@), r@.map_values(|e: LlmEvent| e@)),
{
    let mut out: Vec<LlmEvent> = Vec::new();
    let mut i: usize = 0;
    while i < evs.len()
        invariant
            i <= evs@.len(),
            out@.len() == i,
            forall|k: int| 0 <= k < i ==> #[trigger] filled_event(evs@[k]@, out@[k]@),
        decreases evs@.len() - i,
    {
        let e = evs[i].clone_event();
        let f = match e {
            LlmEvent::ToolCall(c) => {
                if c.id.as_str().is_empty() {
                    LlmEvent::ToolCall(ToolCall { id: fresh_call_id(), name: c.name, arguments: c.arguments })
                } else {
                    LlmEvent::ToolCall(c)
                }
            },
            other => other,
        };
        out.push(f);
        i = i + 1;
    }
    let ghost a = evs@.map_values(|e: LlmEvent| e@);
    let ghost b = out@.map_values(|e: LlmEvent| e@);
    assert forall|k: int| 0 <= k < a.len() implies #[trigger] filled_event(a[k], b[k]) by {
        assert(a[k] == evs@[k]@);
        assert(b[k] == out@[k]@);
    }
    out
}

// ---------------------------------------------------------------- tool calls once

/// Whether the events hold a tool call.
pub open spec fn has_tool_call(evs: Seq<LlmEventV>) -> bool {
    exists|k: int| 0 <= k < evs.len() && #[trigger] evs[k] is ToolCall
}

/// The state after the chunks `cs` (each a list of choices), one after the other.
pub open spec fn feed_all(st: AsmV, cs: Seq<Seq<Choice>>) -> AsmV
    decreases cs.len(),
{
    if cs.len() == 0 {
        st
    } else {
        chunk_spec(feed_all(st, cs.drop_last()), cs.last()).1
    }
}

proof fn lemma_no_call_in_concat(a: Seq<LlmEventV>, b: Seq<LlmEventV>)
    ensures
        has_tool_call(a + b) ==> has_tool_call(a) || has_tool_call(b),
        !has_tool_call(a) && !has_tool_call(b) ==> !has_tool_call(a + b),
{
    if has_tool_call(a + b) {
        let k = choose|k: int| 0 <= k < (a + b).len() && #[trigger] (a + b)[k] is ToolCall;
        if k < a.len() {
            assert(a[k] == (a + b)[k]);
        } else {
            assert(b[k - a.len()] == (a + b)[k]);
        }
    }
}

proof fn lemma_choice_flush(s: AsmV, ch: Choice)
    ensures
        s.flushed ==> choice_spec(s, ch).1.flushed && !has_tool_call(choice_spec(s, ch).0),
        has_tool_call(choice_spec(s, ch).0) ==> choice_spec(s, ch).1.flushed,
{
    let text_events = match ch.delta.content {
        Some(t) => if t@.len() > 0 {
            seq![LlmEventV::Delta(t@)]
        } else {
            Seq::<LlmEventV>::empty()
        },
        None => Seq::<LlmEventV>::empty(),
    };
    assert(!has_tool_call(text_events)) by {
        if has_tool_call(text_events) {
            let k = choose|k: int| 0 <= k < text_events.len() && #[trigger] text_events[k] is ToolCall;
        }
    }
    let st2 = AsmV { pending: apply_all(s.pending, ch.delta.tool_calls@), flushed: s.flushed };
    if ch.finish_reason is Some {
        let fl = flush_spec(st2).0;
        if s.flushed {
            assert(fl =~= Seq::<LlmEventV>::empty());
            assert(!has_tool_call(fl));
        }
        lemma_no_call_in_concat(text_events, fl);
    } else {
        assert(choice_spec(s, ch).0 == text_events);
    }
}

proof fn lemma_chunk_flush(s: AsmV, ch: Seq<Choice>)
    ensures
        s.flushed ==> chunk_spec(s, ch).1.flushed && !has_tool_call(chunk_spec(s, ch).0),
        has_tool_call(chunk_spec(s, ch).0) ==> chunk_spec(s, ch).1.flushed,
    decreases ch.len(),
{
    if ch.len() == 0 {
        let e = Seq::<LlmEventV>::empty();
        if has_tool_call(e) {
            let k = choose|k: int| 0 <= k < e.len() && #[trigger] e[k] is ToolCall;
        }
    } else {
        lemma_chunk_flush(s, ch.drop_last());
        let (e1, s1) = chunk_spec(s, ch.drop_last());
        lemma_choice_flush(s1, ch.last());
        let (e2, s2) = choice_spec(s1, ch.last());
        lemma_no_call_in_concat(e1, e2);
        assert(s1.flushed ==> s2.flushed) by {
            if s1.flushed {
                lemma_choice_flush(s1, ch.last());
            }
        }
    }
}

proof fn lemma_stays_flushed(st: AsmV, cs: Seq<Seq<Choice>>, i: int, j: int)
    requires
        0 <= i < j <= cs.len(),
        has_tool_call(chunk_spec(feed_all(st, cs.take(i)), cs[i]).0),
    ensures
        feed_all(st, cs.take(j)).flushed,
    decreases j,
{
    assert(cs.take(j).drop_last() =~= cs.take(j - 1));
    assert(cs.take(j).last() == cs[j - 1]);
    if j == i + 1 {
        lemma_chunk_flush(feed_all(st, cs.take(i)), cs[i]);
    } else {
        lemma_stays_flushed(st, cs, i, j - 1);
        lemma_chunk_flush(feed_all(st, cs.take(j - 1)), cs[j - 1]);
    }
}

/// Tool calls are handed out once: after a chunk that handed out tool calls, no later
/// chunk hands out any, and neither does the end of the stream.
pub proof fn lemma_tool_calls_handed_out_once(st: AsmV, cs: Seq<Seq<Choice>>, i: int)
    requires
        0 <= i < cs.len(),
        has_tool_call(chunk_spec(feed_all(st, cs.take(i)), cs[i]).0),
    ensures
        forall|j: int|
            i < j < cs.len() ==> !has_tool_call(
                #[trigger] chunk_spec(feed_all(st, cs.take(j)), cs[j]).0,
            ),
        flush_spec(feed_all(st, cs)).0.len() == 0,
{
    assert forall|j: int| i < j < cs.len() implies !has_tool_call(
        #[trigger] chunk_spec(feed_all(st, cs.take(j)), cs[j]).0,
    ) by {
        lemma_stays_flushed(st, cs, i, j);
        lemma_chunk_flush(feed_all(st, cs.take(j)), cs[j]);
    }
    lemma_stays_flushed(st, cs, i, cs.len() as int);
    assert(cs.take(cs.len() as int) =~= cs);
}

} // verus!
