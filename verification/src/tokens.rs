//! Local token estimate, used when the server reports no usage: a CJK character counts as
//! one token, four other non-whitespace characters as one token.
use vstd::prelude::*;
use crate::json::{json_member, member, JsonField, JsonFieldV};
use crate::text::{chars_of, is_whitespace, is_ws};

verus! {

/// Characters of the CJK blocks that count one token each.
pub open spec fn is_cjk_spec(c: char) -> bool {
    let u = c as u32;
    ||| 0x3000 <= u <= 0x30FF
    ||| 0x3400 <= u <= 0x4DBF
    ||| 0x4E00 <= u <= 0x9FFF
    ||| 0xAC00 <= u <= 0xD7AF
    ||| 0xF900 <= u <= 0xFAFF
    ||| 0xFF00 <= u <= 0xFFEF
    ||| 0x20000 <= u <= 0x2FFFF
}

/// Whether `c` counts as a CJK character.
pub fn is_cjk(c: char) -> (r: bool)
    ensures
        r == is_cjk_spec(c),
{
    let u = c as u32;
    (0x3000 <= u && u <= 0x30FF) || (0x3400 <= u && u <= 0x4DBF) || (0x4E00 <= u && u <= 0x9FFF)
        || (0xAC00 <= u && u <= 0xD7AF) || (0xF900 <= u && u <= 0xFAFF) || (0xFF00 <= u && u
        <= 0xFFEF) || (0x20000 <= u && u <= 0x2FFFF)
}

/// Number of CJK characters in `s`.
pub open spec fn cjk_count(s: Seq<char>) -> nat
    decreases s.len(),
{
    if s.len() == 0 {
        0
    } else {
        cjk_count(s.drop_last()) + if is_cjk_spec(s.last()) {
            1nat
        } else {
            0nat
        }
    }
}

/// Number of characters of `s` that are neither CJK nor whitespace.
pub open spec fn other_count(s: Seq<char>) -> nat
    decreases s.len(),
{
    if s.len() == 0 {
        0
    } else {
        other_count(s.drop_last()) + if !is_cjk_spec(s.last()) && !is_ws(s.last()) {
            1nat
        } else {
            0nat
        }
    }
}

/// The estimate: CJK characters plus the other non-whitespace characters divided by four,
/// rounded up.
pub open spec fn estimate_spec(s: Seq<char>) -> nat {
    cjk_count(s) + (other_count(s) + 3) / 4
}

pub proof fn lemma_counts_bounded(s: Seq<char>)
    ensures
        cjk_count(s) + other_count(s) <= s.len(),
    decreases s.len(),
{
    if s.len() > 0 {
        lemma_counts_bounded(s.drop_last());
    }
}

/// The estimate grows with the text: appending never lowers it.
pub proof fn lemma_estimate_monotone(a: Seq<char>, b: Seq<char>)
    ensures
        estimate_spec(a) <= estimate_spec(a + b),
    decreases b.len(),
{
    if b.len() > 0 {
        lemma_estimate_monotone(a, b.drop_last());
        assert((a + b).drop_last() =~= a + b.drop_last());
        assert((a + b).last() == b.last());
    }
}

/// The character counts add up over a concatenation.
pub proof fn lemma_counts_concat(a: Seq<char>, b: Seq<char>)
    ensures
        cjk_count(a + b) == cjk_count(a) + cjk_count(b),
        other_count(a + b) == other_count(a) + other_count(b),
    decreases b.len(),
{
    if b.len() == 0 {
        assert(a + b =~= a);
    } else {
        lemma_counts_concat(a, b.drop_last());
        assert((a + b).drop_last() =~= a + b.drop_last());
        assert((a + b).last() == b.last());
    }
}

/// The estimate of two texts put together: no more than the sum of their estimates, and
/// at most one less (the rounding of the non-CJK characters).
pub proof fn lemma_estimate_concat(a: Seq<char>, b: Seq<char>)
    ensures
        estimate_spec(a + b) <= estimate_spec(a) + estimate_spec(b),
        estimate_spec(a) + estimate_spec(b) <= estimate_spec(a + b) + 1,
{
    lemma_counts_concat(a, b);
    let x = other_count(a);
    let y = other_count(b);
    assert((x + y + 3) / 4 <= (x + 3) / 4 + (y + 3) / 4) by (nonlinear_arith);
    assert((x + 3) / 4 + (y + 3) / 4 <= (x + y + 3) / 4 + 1) by (nonlinear_arith);
}

/// Text of whitespace only estimates to zero.
pub proof fn lemma_whitespace_estimate(s: Seq<char>)
    requires
        forall|i: int| 0 <= i < s.len() ==> is_ws(#[trigger] s[i]),
        forall|i: int| 0 <= i < s.len() ==> !is_cjk_spec(#[trigger] s[i]),
    ensures
        estimate_spec(s) == 0,
    decreases s.len(),
{
    if s.len() > 0 {
        assert forall|i: int| 0 <= i < s.drop_last().len() implies is_ws(#[trigger] s.drop_last()[i])
            && !is_cjk_spec(s.drop_last()[i]) by {
            assert(s.drop_last()[i] == s[i]);
        }
        lemma_whitespace_estimate(s.drop_last());
        assert(is_ws(s[s.len() - 1]));
    }
}

/// The estimate as a `u64`, for any text.
pub fn estimate_u64(text: &str) -> (r: u64)
    ensures
        r == estimate_spec(text@),
{
    let v = chars_of(text);
    let mut cjk: u64 = 0;
    let mut other: u64 = 0;
    let mut i: usize = 0;
    while i < v.len()
        invariant
            i <= v@.len(),
            cjk == cjk_count(v@.take(i as int)),
            other == other_count(v@.take(i as int)),
            cjk + other <= i,
        decreases v@.len() - i,
    {
        assert(v@.take(i + 1).drop_last() =~= v@.take(i as int));
        assert(v@.take(i + 1).last() == v@[i as int]);
        if is_cjk(v[i]) {
            cjk = cjk + 1;
        } else if !is_whitespace(v[i]) {
            other = other + 1;
        }
        i = i + 1;
    }
    assert(v@.take(v@.len() as int) =~= v@);
    let q = other / 4 + if other % 4 != 0 {
        1
    } else {
        0
    };
    assert(q == (other + 3) / 4);
    cjk + q
}

/// The token estimate of a text.
pub fn estimate(text: &str) -> (r: u32)
    requires
        estimate_spec(text@) <= u32::MAX,
    ensures
        r == estimate_spec(text@),
{
    estimate_u64(text) as u32
}

/// The estimate of one member: a string counts by its text, `null` or a missing member
/// counts nothing, anything else counts by its JSON text.
pub open spec fn content_estimate(f: JsonFieldV) -> nat {
    match f {
        JsonFieldV::Absent => 0,
        JsonFieldV::Present { rendered, as_str, is_null, .. } => match as_str {
            Some(s) => estimate_spec(s),
            None => if is_null {
                0
            } else {
                estimate_spec(rendered)
            },
        },
    }
}

/// The estimate of the `tool_calls` member: its JSON text, when there is one.
pub open spec fn tool_calls_estimate(f: JsonFieldV) -> nat {
    match f {
        JsonFieldV::Absent => 0,
        JsonFieldV::Present { rendered, .. } => estimate_spec(rendered),
    }
}

/// The estimate of one OpenAI message: content, tool calls, and four for the structure.
pub open spec fn message_estimate(m: serde_json::Value) -> nat {
    content_estimate(member(m, "content"@)) + tool_calls_estimate(member(m, "tool_calls"@)) + 4
}

/// The estimate of a list of OpenAI messages.
pub open spec fn messages_estimate(ms: Seq<serde_json::Value>) -> nat
    decreases ms.len(),
{
    if ms.len() == 0 {
        0
    } else {
        messages_estimate(ms.drop_last()) + message_estimate(ms.last())
    }
}

/// What a message's estimate counts: four for the message; its `content` (the text when it
/// is a string, the JSON text when it is something else than null); and the JSON text of
/// its `tool_calls`, when it has them. So it is at least the estimate of each of them plus
/// four, and exactly four for a message with neither.
pub proof fn lemma_message_estimate_counts(m: serde_json::Value)
    ensures
        message_estimate(m) == 4 + (match member(m, "content"@) {
            JsonFieldV::Present { rendered, as_str, is_null, .. } => match as_str {
                Some(s) => estimate_spec(s),
                None => if is_null {
                    0
                } else {
                    estimate_spec(rendered)
                },
            },
            JsonFieldV::Absent => 0,
        }) + (match member(m, "tool_calls"@) {
            JsonFieldV::Present { rendered, .. } => estimate_spec(rendered),
            JsonFieldV::Absent => 0,
        }),
        member(m, "tool_calls"@) is Present ==> message_estimate(m) >= estimate_spec(
            member(m, "tool_calls"@)->rendered,
        ) + 4,
        member(m, "content"@) matches JsonFieldV::Present { as_str: Some(s), .. } ==> message_estimate(m)
            >= estimate_spec(s) + 4,
        member(m, "content"@) is Absent && member(m, "tool_calls"@) is Absent ==> message_estimate(m)
            == 4,
        messages_estimate(seq![m]) == message_estimate(m),
{
    assert(seq![m].drop_last() =~= Seq::<serde_json::Value>::empty());
    assert(messages_estimate(Seq::<serde_json::Value>::empty()) == 0);
    assert(seq![m].last() == m);
}

/// The estimate of two lists of messages put together is the sum of their estimates;
/// every message counts at least four.
pub proof fn lemma_messages_estimate_concat(a: Seq<serde_json::Value>, b: Seq<serde_json::Value>)
    ensures
        messages_estimate(a + b) == messages_estimate(a) + messages_estimate(b),
        messages_estimate(b) >= 4 * b.len(),
    decreases b.len(),
{
    if b.len() == 0 {
        assert(a + b =~= a);
    } else {
        lemma_messages_estimate_concat(a, b.drop_last());
        assert((a + b).drop_last() =~= a + b.drop_last());
        assert((a + b).last() == b.last());
    }
}

pub proof fn lemma_messages_estimate_monotone(ms: Seq<serde_json::Value>, i: int)
    requires
        0 <= i <= ms.len(),
    ensures
        messages_estimate(ms.take(i)) <= messages_estimate(ms),
    decreases ms.len() - i,
{
    if i < ms.len() {
        lemma_messages_estimate_monotone(ms, i + 1);
        assert(ms.take(i + 1).drop_last() =~= ms.take(i));
    } else {
        assert(ms.take(i) =~= ms);
    }
}

fn member_estimate(m: &serde_json::Value, key: &str, whole_text: bool) -> (r: u64)
    ensures
        whole_text ==> r == tool_calls_estimate(member(*m, key@)),
        !whole_text ==> r == content_estimate(member(*m, key@)),
{
    match json_member(m, key) {
        JsonField::Absent => 0,
        JsonField::Present { rendered, as_str, is_null, .. } => {
            if whole_text {
                estimate_u64(rendered.as_str())
            } else {
                match as_str {
                    Some(s) => estimate_u64(s.as_str()),
                    None => if is_null {
                        0
                    } else {
                        estimate_u64(rendered.as_str())
                    },
                }
            }
        },
    }
}

/// The token estimate of a list of OpenAI messages.
pub fn estimate_messages(messages: &[serde_json::Value]) -> (r: u32)
    requires
        messages_estimate(messages@) <= u32::MAX,
    ensures
        r == messages_estimate(messages@),
{
    let mut total: u64 = 0;
    let mut i: usize = 0;
    while i < messages.len()
        invariant
            i <= messages@.len(),
            messages_estimate(messages@) <= u32::MAX,
            total == messages_estimate(messages@.take(i as int)),
        decreases messages@.len() - i,
    {
        let body = member_estimate(&messages[i], "content", false);
        let tools = member_estimate(&messages[i], "tool_calls", true);
        proof {
            assert(messages@.take(i + 1).drop_last() =~= messages@.take(i as int));
            assert(messages@.take(i + 1).last() == messages@[i as int]);
            lemma_messages_estimate_monotone(messages@, i + 1);
        }
        total = total + body + tools + 4;
        i = i + 1;
    }
    assert(messages@.take(messages@.len() as int) =~= messages@);
    total as u32
}

/// The token estimate of a text, or `None` when it does not fit in a `u32`.
pub fn estimate_checked(text: &str) -> (r: Option<u32>)
    ensures
        match r {
            Some(n) => n == estimate_spec(text@),
            None => estimate_spec(text@) > u32::MAX,
        },
{
    let n = estimate_u64(text);
    if n <= u32::MAX as u64 {
        Some(n as u32)
    } else {
        None
    }
}

/// The token estimate of a list of messages, or `None` when it does not fit in a `u32`.
pub fn estimate_messages_checked(messages: &[serde_json::Value]) -> (r: Option<u32>)
    ensures
        match r {
            Some(n) => n == messages_estimate(messages@),
            None => messages_estimate(messages@) > u32::MAX,
        },
{
    let mut total: u64 = 0;
    let mut i: usize = 0;
    while i < messages.len()
        invariant
            i <= messages@.len(),
            total <= u32::MAX,
            total == messages_estimate(messages@.take(i as int)),
        decreases messages@.len() - i,
    {
        let body = member_estimate(&messages[i], "content", false);
        let tools = member_estimate(&messages[i], "tool_calls", true);
        proof {
            assert(messages@.take(i + 1).drop_last() =~= messages@.take(i as int));
            assert(messages@.take(i + 1).last() == messages@[i as int]);
            lemma_messages_estimate_monotone(messages@, i + 1);
        }
        if body > u32::MAX as u64 || tools > u32::MAX as u64 || total + body + tools + 4 > u32::MAX
            as u64 {
            return None;
        }
        total = total + body + tools + 4;
        i = i + 1;
    }
    assert(messages@.take(messages@.len() as int) =~= messages@);
    Some(total as u32)
}

/// The estimate of one message, or `None` when it does not fit in a `u32`.
pub(crate) fn message_estimate_checked(m: &serde_json::Value) -> (r: Option<u32>)
    ensures
        match r {
            Some(n) => n == message_estimate(*m),
            None => message_estimate(*m) > u32::MAX,
        },
{
    let body = member_estimate(m, "content", false);
    let tools = member_estimate(m, "tool_calls", true);
    if body > u32::MAX as u64 || tools > u32::MAX as u64 || body + tools + 4 > u32::MAX as u64 {
        return None;
    }
    Some((body + tools + 4) as u32)
}

} // verus!
