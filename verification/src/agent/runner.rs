//! The decisions of the agent loop: the system prompt, how much streamed text is safe to
//! show, the reaction tag at the end of a reply, the token accounting of a call, and the
//! keys of pending approvals. The loop itself (model stream, tools, store, events) runs
//! outside the library and asks these functions at each step.
use vstd::prelude::*;
use crate::events::{action_names, actions, Breakdown, Usage};
use crate::llm::{LlmEvent, LlmEventV, ToolCall};
use crate::agent::policy::{command_prefix, prefix_spec};
use crate::json::{get_str, member_str};
use crate::text::{
    byte_len, chars_of, is_ws, find, find_chars, is_prefix, is_suffix, join, join_chars, push_all,
    push_str, rfind, rfind_chars, slice_chars, str_byte_len, string_of, trim, trim_chars,
    trim_end, trim_end_chars, ends_with, starts_with,
};
use crate::tokens::{estimate, estimate_messages, estimate_spec, estimate_u64, messages_estimate};

verus! {

/// The user's answer to an approval card.
#[derive(Debug, Clone, Copy, PartialEq, Eq, Structural)]
pub enum Decision {
    Allow,
    Deny,
    /// Allow, and put the command's prefix on the workspace's allowlist.
    Always,
}

// ---------------------------------------------------------------- system prompt

/// Opening tag of the reaction block at the end of a reply.
pub const META_OPEN: &'static str = "<meta>";
/// Closing tag of the reaction block.
pub const META_CLOSE: &'static str = "</meta>";

/// The heading that introduces enabled skills.
pub open spec fn skills_head() -> Seq<char> {
    "\n\n## 可用技能\n以下是用户启用的技能文档，按需遵循。\n"@
}

/// The output convention up to the list of reactions.
pub open spec fn convention_head() -> Seq<char> {
    "\n\n## 输出约定\n当你不调用工具、给出最终回复时，在正文末尾另起一行追加：\n<meta>{\"emotion\":\"...\",\"intent\":\"...\",\"suggested_reaction\":\"...\",\"confidence\":0.0}</meta>\nemotion ∈ happy|sad|angry|confused|excited|neutral|sleepy|scared；intent ∈ greeting|question|praise|criticism|command|farewell|status|unknown；suggested_reaction ∈ "@
}

/// The output convention after the list of reactions.
pub open spec fn convention_tail() -> Seq<char> {
    "；confidence 为 0 到 1。正文里不要出现 <meta> 标签。"@
}

/// One skill in the system prompt.
pub open spec fn skill_block(name: Seq<char>, body: Seq<char>) -> Seq<char> {
    "\n### "@ + name + "\n"@ + body + "\n"@
}

/// All skills in the system prompt, in order.
pub open spec fn skill_blocks(sk: Seq<(String, String)>) -> Seq<char>
    decreases sk.len(),
{
    if sk.len() == 0 {
        Seq::<char>::empty()
    } else {
        skill_blocks(sk.drop_last()) + skill_block(sk.last().0@, sk.last().1@)
    }
}

/// The system prompt: the persona, the enabled skills (when there are any), and the output
/// convention that asks for a `<meta>` reaction block.
pub open spec fn system_prompt_spec(persona: Seq<char>, sk: Seq<(String, String)>) -> Seq<char> {
    (if sk.len() == 0 {
        persona
    } else {
        persona + skills_head() + skill_blocks(sk)
    }) + convention_head() + join(actions(), "|"@) + convention_tail()
}

/// How many characters the texts of the skills before position `k` take in the prompt:
/// each is `\n### `, its name, a newline, its body and a newline.
pub open spec fn skill_texts_len(sk: Seq<(String, String)>, k: int) -> nat
    decreases k,
{
    if k <= 0 || k > sk.len() {
        0
    } else {
        skill_texts_len(sk, k - 1) + ("\n### "@ + sk[k - 1].0@ + "\n"@ + sk[k - 1].1@ + "\n"@).len()
    }
}

proof fn lemma_blocks_hold_each_skill(sk: Seq<(String, String)>, k: int)
    requires
        0 <= k < sk.len(),
    ensures
        skill_blocks(sk).len() == skill_texts_len(sk, sk.len() as int),
        skill_blocks(sk).subrange(
            skill_texts_len(sk, k) as int,
            skill_texts_len(sk, k + 1) as int,
        ) == "\n### "@ + sk[k].0@ + "\n"@ + sk[k].1@ + "\n"@,
    decreases sk.len(),
{
    let prev = sk.drop_last();
    assert forall|j: int| 0 <= j <= prev.len() implies skill_texts_len(prev, j)
        == skill_texts_len(sk, j) by {
        lemma_texts_len_prefix(sk, prev, j);
    }
    if k < sk.len() - 1 {
        lemma_blocks_hold_each_skill(prev, k);
        let bp = skill_blocks(prev);
        let last = skill_block(sk.last().0@, sk.last().1@);
        assert(skill_blocks(sk) == bp + last);
        assert(skill_texts_len(prev, k + 1) <= bp.len()) by {
            lemma_texts_len_grows(prev, k + 1, prev.len() as int);
        }
        assert((bp + last).subrange(skill_texts_len(sk, k) as int, skill_texts_len(sk, k + 1) as int)
            =~= bp.subrange(skill_texts_len(prev, k) as int, skill_texts_len(prev, k + 1) as int));
    } else {
        if prev.len() > 0 {
            lemma_blocks_hold_each_skill(prev, 0);
        } else {
            assert(skill_blocks(prev) =~= Seq::<char>::empty());
        }
        let bp = skill_blocks(prev);
        assert(prev.len() == k);
        assert(skill_blocks(sk) == bp + skill_block(sk[k].0@, sk[k].1@));
        assert((bp + skill_block(sk[k].0@, sk[k].1@)).subrange(bp.len() as int, skill_texts_len(
            sk,
            k + 1,
        ) as int) =~= skill_block(sk[k].0@, sk[k].1@));
    }
}

proof fn lemma_texts_len_prefix(sk: Seq<(String, String)>, prev: Seq<(String, String)>, j: int)
    requires
        sk.len() > 0,
        prev == sk.drop_last(),
        0 <= j <= prev.len(),
    ensures
        skill_texts_len(prev, j) == skill_texts_len(sk, j),
    decreases j,
{
    if j > 0 {
        lemma_texts_len_prefix(sk, prev, j - 1);
        assert(prev[j - 1] == sk[j - 1]);
    }
}

proof fn lemma_texts_len_grows(sk: Seq<(String, String)>, a: int, b: int)
    requires
        0 <= a <= b <= sk.len(),
    ensures
        skill_texts_len(sk, a) <= skill_texts_len(sk, b),
    decreases b - a,
{
    if a < b {
        lemma_texts_len_grows(sk, a, b - 1);
    }
}

/// Every enabled skill is in the system prompt, in order: the prompt starts with the
/// persona, and with skills, the heading follows it and then, for each skill `k`, the text
/// `\n### <name>\n<body>\n` at the place that the skills before it end.
pub proof fn lemma_prompt_holds_every_skill(
    persona: Seq<char>,
    sk: Seq<(String, String)>,
    k: int,
)
    requires
        0 <= k < sk.len(),
    ensures
        ({
            let p = system_prompt_spec(persona, sk);
            let at = (persona.len() + skills_head().len() + skill_texts_len(sk, k)) as int;
            &&& p.take(persona.len() as int) == persona
            &&& p.subrange(persona.len() as int, persona.len() + skills_head().len() as int)
                == skills_head()
            &&& p.subrange(at, at + ("\n### "@ + sk[k].0@ + "\n"@ + sk[k].1@ + "\n"@).len() as int)
                == "\n### "@ + sk[k].0@ + "\n"@ + sk[k].1@ + "\n"@
        }),
{
    lemma_blocks_hold_each_skill(sk, k);
    let bl = skill_blocks(sk);
    let rest = convention_head() + join(actions(), "|"@) + convention_tail();
    let p = system_prompt_spec(persona, sk);
    assert(p =~= persona + skills_head() + bl + rest);
    let base = (persona.len() + skills_head().len()) as int;
    let lo = skill_texts_len(sk, k) as int;
    let hi = skill_texts_len(sk, k + 1) as int;
    lemma_texts_len_grows(sk, k + 1, sk.len() as int);
    assert(hi == lo + ("\n### "@ + sk[k].0@ + "\n"@ + sk[k].1@ + "\n"@).len());
    assert(p.subrange(base + lo, base + hi) =~= bl.subrange(lo, hi));
    assert(p.take(persona.len() as int) =~= persona);
    assert(p.subrange(persona.len() as int, base) =~= skills_head());
}

/// Each enabled skill lengthens the prompt by its text: adding a skill to a non-empty list
/// adds exactly `\n### <name>\n<body>\n`.
pub proof fn lemma_prompt_grows_by_skill(
    persona: Seq<char>,
    sk: Seq<(String, String)>,
    s: (String, String),
)
    requires
        sk.len() > 0,
    ensures
        system_prompt_spec(persona, sk.push(s)).len() == system_prompt_spec(persona, sk).len() + (
        "\n### "@ + s.0@ + "\n"@ + s.1@ + "\n"@).len(),
{
    assert(sk.push(s).drop_last() =~= sk);
}

/// Builds the system prompt.
pub fn system_prompt(persona: &str, skills: &[(String, String)]) -> (r: String)
    ensures
        r@ == system_prompt_spec(persona@, skills@),
{
    let mut out = chars_of(persona);
    if skills.len() > 0 {
        push_str(
            &mut out,
            "\n\n## 可用技能\n以下是用户启用的技能文档，按需遵循。\n",
        );
        let ghost base = out@;
        let mut i: usize = 0;
        assert(skills@.take(0) =~= Seq::<(String, String)>::empty());
        while i < skills.len()
            invariant
                i <= skills@.len(),
                out@ == base + skill_blocks(skills@.take(i as int)),
            decreases skills@.len() - i,
        {
            push_str(&mut out, "\n### ");
            push_str(&mut out, skills[i].0.as_str());
            push_str(&mut out, "\n");
            push_str(&mut out, skills[i].1.as_str());
            push_str(&mut out, "\n");
            assert(skills@.take(i + 1).drop_last() =~= skills@.take(i as int));
            assert(skills@.take(i + 1).last() == skills@[i as int]);
            assert(out@ =~= base + skill_blocks(skills@.take(i + 1)));
            i = i + 1;
        }
        assert(skills@.take(skills@.len() as int) =~= skills@);
    }
    push_str(
        &mut out,
        "\n\n## 输出约定\n当你不调用工具、给出最终回复时，在正文末尾另起一行追加：\n<meta>{\"emotion\":\"...\",\"intent\":\"...\",\"suggested_reaction\":\"...\",\"confidence\":0.0}</meta>\nemotion ∈ happy|sad|angry|confused|excited|neutral|sleepy|scared；intent ∈ greeting|question|praise|criticism|command|farewell|status|unknown；suggested_reaction ∈ ",
    );
    let names = action_names();
    let mut parts: Vec<Vec<char>> = Vec::new();
    let mut k: usize = 0;
    while k < names.len()
        invariant
            k <= names@.len(),
            names@.len() == actions().len(),
            forall|m: int| 0 <= m < names@.len() ==> (#[trigger] names@[m])@ == actions()[m],
            parts.deep_view() == actions().take(k as int),
        decreases names@.len() - k,
    {
        let c = chars_of(names[k]);
        let ghost before = parts.deep_view();
        assert(c.deep_view() =~= c@);
        parts.push(c);
        assert(parts.deep_view() =~= before.push(c@));
        assert(actions().take(k + 1) =~= actions().take(k as int).push(actions()[k as int]));
        k = k + 1;
    }
    assert(actions().take(actions().len() as int) =~= actions());
    let bar = chars_of("|");
    let joined = join_chars(&parts, parts.len(), &bar);
    assert(parts.deep_view().take(parts@.len() as int) =~= actions());
    push_all(&mut out, &joined);
    push_str(&mut out, "；confidence 为 0 到 1。正文里不要出现 <meta> 标签。");
    string_of(&out)
}

// ---------------------------------------------------------------- streaming

/// The start of the reaction tag.
pub open spec fn tag() -> Seq<char> {
    "<meta"@
}

/// Length of the longest proper prefix of `<meta` (one to four characters) that `s` ends
/// with; 0 when none.
pub open spec fn partial_tag_len(s: Seq<char>) -> nat {
    if is_suffix(tag().take(4), s) {
        4
    } else if is_suffix(tag().take(3), s) {
        3
    } else if is_suffix(tag().take(2), s) {
        2
    } else if is_suffix(tag().take(1), s) {
        1
    } else {
        0
    }
}

/// The part of the streamed text that may be shown: everything before the first `<meta`,
/// or, when there is none, everything but a trailing beginning of `<meta`.
pub open spec fn safe_prefix(s: Seq<char>) -> Seq<char> {
    match find(s, tag()) {
        Some(i) => s.take(i),
        None => s.take(s.len() - partial_tag_len(s)),
    }
}

/// What [`safe_emit_len`] returns: the byte length of the safe part with trailing
/// whitespace removed.
pub open spec fn safe_emit_spec(s: Seq<char>) -> nat {
    byte_len(trim_end(safe_prefix(s)))
}

fn partial_tag_len_exec(v: &Vec<char>, t: &Vec<char>) -> (r: usize)
    requires
        t@ == tag(),
    ensures
        r == partial_tag_len(v@),
        r <= v@.len(),
{
    let mut k: usize = 4;
    while k >= 1
        invariant
            1 <= k + 1 <= 5,
            t@ == tag(),
            forall|m: int| k < m <= 4 ==> !is_suffix(#[trigger] tag().take(m), v@),
        decreases k,
    {
        proof {
            reveal_strlit("<meta");
        }
        let part = slice_chars(t, 0, k);
        assert(part@ =~= tag().take(k as int));
        if ends_with(v, &part) {
            assert(!is_suffix(tag().take(4), v@) ==> k < 4);
            return k;
        }
        k = k - 1;
    }
    0
}

/// How many bytes of the streamed reply can be shown without exposing the reaction tag.
pub fn safe_emit_len(full: &str) -> (r: usize)
    ensures
        r == safe_emit_spec(full@),
{
    let v = chars_of(full);
    let t = chars_of("<meta");
    proof {
        reveal_strlit("<meta");
    }
    let end = match find_chars(&v, &t) {
        Some(i) => {
            proof {
                crate::text::lemma_find_from(v@, t@, 0);
            }
            i
        },
        None => v.len() - partial_tag_len_exec(&v, &t),
    };
    let prefix = slice_chars(&v, 0, end);
    assert(prefix@ =~= safe_prefix(full@));
    let trimmed = trim_end_chars(&prefix);
    str_byte_len(string_of(&trimmed).as_str())
}

/// The streamed prefix never holds the reaction tag.
pub proof fn lemma_safe_prefix_has_no_tag(s: Seq<char>)
    ensures
        find(trim_end(safe_prefix(s)), tag()) is None,
{
    reveal_strlit("<meta");
    crate::text::lemma_find_from(s, tag(), 0);
    let p = safe_prefix(s);
    let q = trim_end(p);
    let m: int = match find(s, tag()) {
        Some(i) => i,
        None => s.len() - partial_tag_len(s),
    };
    assert(0 <= m <= s.len());
    assert(p =~= s.take(m));
    crate::text::lemma_trim_end_len(p);
    crate::text::lemma_find_from(q, tag(), 0);
    if let Some(j) = find(q, tag()) {
        assert(q == p.take(q.len() as int));
        assert forall|k: int| 0 <= k < tag().len() implies s[j + k] == tag()[k] by {
            assert(q.subrange(j, j + tag().len())[k] == tag()[k]);
            assert(q[j + k] == s[j + k]);
        }
        assert(s.subrange(j, j + tag().len()) =~= tag());
        assert(crate::text::occurs_at(s, tag(), j));
    }
}

/// The shown part of a stream ends before every `<meta` of the whole reply: what was safe
/// to show at any moment is a prefix of the reply, and no tag of the reply starts inside it.
pub proof fn lemma_safe_prefix_before_tag(f: Seq<char>, full: Seq<char>)
    requires
        is_prefix(f, full),
    ensures
        is_prefix(safe_prefix(f), full),
        forall|p: int| #[trigger] crate::text::occurs_at(full, tag(), p) ==> p >= safe_prefix(f).len(),
{
    reveal_strlit("<meta");
    crate::text::lemma_find_from(f, tag(), 0);
    let m: int = match find(f, tag()) {
        Some(i) => i,
        None => f.len() - partial_tag_len(f),
    };
    assert(0 <= m <= f.len());
    assert(safe_prefix(f) =~= f.take(m));
    assert(full.take(m) =~= f.take(m));
    assert forall|p: int| #[trigger] crate::text::occurs_at(full, tag(), p) implies p >= m by {
        if p < m {
            if p + 5 <= f.len() {
                assert(f.subrange(p, p + 5) =~= full.subrange(p, p + 5));
                assert(crate::text::occurs_at(f, tag(), p));
            } else {
                let k = f.len() - p;
                assert(1 <= k <= 4);
                assert(find(f, tag()) is None);
                assert(f.skip(f.len() - k) =~= tag().take(k)) by {
                    assert forall|j: int| 0 <= j < k implies f.skip(f.len() - k)[j] == tag().take(
                        k,
                    )[j] by {
                        assert(f.skip(f.len() - k)[j] == f[p + j]);
                        assert(f[p + j] == full[p + j]);
                        assert(full.subrange(p, p + 5)[j] == full[p + j]);
                    }
                }
                assert(is_suffix(tag().take(k), f));
                assert(partial_tag_len(f) >= k);
            }
        }
    }
}

/// Everything shown while streaming is a prefix of the final visible reply.
pub proof fn lemma_shown_prefix_of_clean(f: Seq<char>, full: Seq<char>)
    requires
        is_prefix(f, full),
    ensures
        is_prefix(trim_end(safe_prefix(f)), split_meta_spec(full).0),
{
    reveal_strlit("<meta");
    reveal_strlit("<meta>");
    lemma_safe_prefix_before_tag(f, full);
    let p = safe_prefix(f);
    match rfind(full, "<meta>"@) {
        Some(r) => {
            crate::text::lemma_rfind_upto(full, "<meta>"@, full.len() - 6);
            assert(full.subrange(r, r + 5) =~= tag()) by {
                assert(full.subrange(r, r + 6) == "<meta>"@);
                assert forall|j: int| 0 <= j < 5 implies full.subrange(r, r + 5)[j] == tag()[j] by {
                    assert(full.subrange(r, r + 6)[j] == full[r + j]);
                }
            }
            assert(crate::text::occurs_at(full, tag(), r));
            assert(r >= p.len());
            assert(full.take(r).take(p.len() as int) =~= full.take(p.len() as int));
            crate::text::lemma_trim_end_prefix(p, full.take(r));
        },
        None => {
            crate::text::lemma_trim_end_prefix(p, full);
        },
    }
}

/// Appending to the stream never takes back what was shown: the safe part of `a`, with
/// trailing whitespace removed, is a prefix of that of `a + b`, and [`safe_emit_len`] does
/// not decrease.
pub proof fn lemma_safe_emit_grows(a: Seq<char>, b: Seq<char>)
    ensures
        is_prefix(trim_end(safe_prefix(a)), trim_end(safe_prefix(a + b))),
        safe_emit_spec(a) <= safe_emit_spec(a + b),
{
    reveal_strlit("<meta");
    let full = a + b;
    assert(full.take(a.len() as int) =~= a);
    lemma_safe_prefix_before_tag(a, full);
    crate::text::lemma_find_from(full, tag(), 0);
    crate::text::lemma_find_from(a, tag(), 0);
    let pa = safe_prefix(a);
    let pf = safe_prefix(full);
    let mf: int = match find(full, tag()) {
        Some(i) => i,
        None => full.len() - partial_tag_len(full),
    };
    assert(pf =~= full.take(mf));
    assert(pa.len() <= mf) by {
        if find(full, tag()) is None && pa.len() > mf {
            let k = partial_tag_len(full) as int;
            let q = full.len() - k;
            assert(1 <= k <= 4);
            assert(is_suffix(tag().take(k), full));
            let kk = a.len() - q;
            assert(1 <= kk <= k);
            assert(find(a, tag()) is None) by {
                if let Some(i) = find(a, tag()) {
                    assert(a.subrange(i, i + 5) =~= full.subrange(i, i + 5));
                    assert(crate::text::occurs_at(full, tag(), i));
                }
            }
            assert(a.skip(a.len() - kk) =~= tag().take(kk)) by {
                assert forall|j: int| 0 <= j < kk implies a.skip(a.len() - kk)[j] == tag().take(
                    kk,
                )[j] by {
                    assert(a.skip(a.len() - kk)[j] == full[q + j]);
                    assert(full.skip(full.len() - k)[j] == full[q + j]);
                    assert(tag().take(k)[j] == tag()[j]);
                }
            }
            assert(is_suffix(tag().take(kk), a));
            assert(partial_tag_len(a) >= kk);
        }
    }
    assert(pf.take(pa.len() as int) =~= pa);
    crate::text::lemma_trim_end_prefix(pa, pf);
    let ta = trim_end(pa);
    let tf = trim_end(pf);
    assert(tf =~= ta + tf.skip(ta.len() as int));
    crate::text::lemma_byte_len_concat(ta, tf.skip(ta.len() as int));
}

// ---------------------------------------------------------------- the reaction block

/// The reply split at its last `<meta>`: the text before it with trailing whitespace
/// removed, and the trimmed text between the tag and `</meta>` (or the end). Without a tag,
/// the whole reply with trailing whitespace removed and no block.
pub open spec fn split_meta_spec(full: Seq<char>) -> (Seq<char>, Option<Seq<char>>) {
    match rfind(full, "<meta>"@) {
        None => (trim_end(full), None),
        Some(start) => {
            let body = full.skip(start + 6);
            let inner = match find(body, "</meta>"@) {
                Some(e) => body.take(e),
                None => body,
            };
            (trim_end(full.take(start)), Some(trim(inner)))
        },
    }
}

/// Splits a reply into its visible text and the JSON of its reaction block.
pub fn split_meta(full: &str) -> (r: (String, Option<String>))
    ensures
        r.0@ == split_meta_spec(full@).0,
        match r.1 {
            Some(j) => split_meta_spec(full@).1 == Some(j@),
            None => split_meta_spec(full@).1 is None,
        },
{
    let v = chars_of(full);
    let open = chars_of("<meta>");
    let close = chars_of("</meta>");
    proof {
        reveal_strlit("<meta>");
    }
    match rfind_chars(&v, &open) {
        None => (string_of(&trim_end_chars(&v)), None),
        Some(start) => {
            proof {
                crate::text::lemma_rfind_upto(v@, open@, v@.len() - open@.len());
            }
            let body = slice_chars(&v, start + 6, v.len());
            assert(body@ =~= full@.skip(start + 6));
            let inner = match find_chars(&body, &close) {
                Some(e) => {
                    proof {
                        crate::text::lemma_find_from(body@, close@, 0);
                    }
                    slice_chars(&body, 0, e)
                },
                None => body.clone(),
            };
            let head = slice_chars(&v, 0, start);
            (string_of(&trim_end_chars(&head)), Some(string_of(&trim_chars(&inner))))
        },
    }
}

/// [`safe_emit_len`] of `a` is the UTF-8 length of a prefix of `a` (so it falls on a
/// character boundary and is at most `a`'s length); that prefix holds no `<meta` and ends
/// in no whitespace; and once `b` is appended, the length does not shrink and the prefix
/// is still the start of the visible reply.
pub proof fn lemma_safe_emit_bytes(a: Seq<char>, b: Seq<char>)
    ensures
        is_prefix(trim_end(safe_prefix(a)), a),
        safe_emit_spec(a) == byte_len(trim_end(safe_prefix(a))),
        safe_emit_spec(a) <= byte_len(a),
        find(trim_end(safe_prefix(a)), tag()) is None,
        trim_end(safe_prefix(a)).len() > 0 ==> !is_ws(trim_end(safe_prefix(a)).last()),
        safe_emit_spec(a) <= safe_emit_spec(a + b),
        is_prefix(trim_end(safe_prefix(a)), split_meta_spec(a + b).0),
{
    reveal_strlit("<meta");
    crate::text::lemma_find_from(a, tag(), 0);
    let m: int = match find(a, tag()) {
        Some(i) => i,
        None => a.len() - partial_tag_len(a),
    };
    assert(safe_prefix(a) =~= a.take(m));
    let p = safe_prefix(a);
    let t = trim_end(p);
    crate::text::lemma_trim_end_len(p);
    assert(a.take(t.len() as int) =~= t);
    assert(a =~= t + a.skip(t.len() as int));
    crate::text::lemma_byte_len_concat(t, a.skip(t.len() as int));
    lemma_safe_prefix_has_no_tag(a);
    lemma_safe_emit_grows(a, b);
    assert((a + b).take(a.len() as int) =~= a);
    lemma_shown_prefix_of_clean(a, a + b);
}

// ---------------------------------------------------------------- a whole call's stream

/// The pieces of a stream put end to end.
pub open spec fn joined(ds: Seq<Seq<char>>) -> Seq<char>
    decreases ds.len(),
{
    if ds.len() == 0 {
        Seq::empty()
    } else {
        joined(ds.drop_last()) + ds.last()
    }
}

/// What is shown once the text received is `text`, `shown` having been shown before: the
/// safe part of the text when it is longer, else what was shown.
pub open spec fn next_shown(shown: Seq<char>, text: Seq<char>) -> Seq<char> {
    if trim_end(safe_prefix(text)).len() > shown.len() {
        trim_end(safe_prefix(text))
    } else {
        shown
    }
}

/// What has been shown after the text deltas `ds` of a call (see [`Turn::step`]).
pub open spec fn stream_shown(ds: Seq<Seq<char>>) -> Seq<char>
    decreases ds.len(),
{
    if ds.len() == 0 {
        Seq::empty()
    } else {
        next_shown(stream_shown(ds.drop_last()), joined(ds))
    }
}

/// The texts shown while the deltas `ds` arrive, one per delta that showed something.
pub open spec fn stream_pieces(ds: Seq<Seq<char>>) -> Seq<Seq<char>>
    decreases ds.len(),
{
    if ds.len() == 0 {
        Seq::empty()
    } else if stream_shown(ds).len() > stream_shown(ds.drop_last()).len() {
        stream_pieces(ds.drop_last()).push(
            stream_shown(ds).skip(stream_shown(ds.drop_last()).len() as int),
        )
    } else {
        stream_pieces(ds.drop_last())
    }
}

#[verifier::spinoff_prover]
proof fn lemma_stream_basis(ds: Seq<Seq<char>>) -> (b: Seq<char>)
    ensures
        is_prefix(b, joined(ds)),
        stream_shown(ds) == trim_end(safe_prefix(b)),
        joined(stream_pieces(ds)) == stream_shown(ds),
    decreases ds.len(),
{
    reveal_strlit("<meta");
    if ds.len() == 0 {
        let e = Seq::<char>::empty();
        assert(find(e, tag()) is None);
        assert(safe_prefix(e) =~= e);
        assert(trim_end(e) =~= e);
        assert(joined(ds).take(0) =~= e);
        e
    } else {
        let prev = ds.drop_last();
        let b0 = lemma_stream_basis(prev);
        let whole = joined(ds);
        assert(whole =~= joined(prev) + ds.last());
        assert(whole.take(joined(prev).len() as int) =~= joined(prev));
        assert(whole.take(b0.len() as int) =~= b0);
        let rest = whole.skip(b0.len() as int);
        assert(whole =~= b0 + rest);
        lemma_safe_emit_grows(b0, rest);
        let before = stream_shown(prev);
        let now = stream_shown(ds);
        if trim_end(safe_prefix(whole)).len() > before.len() {
            assert(now == trim_end(safe_prefix(whole)));
            let x = now.skip(before.len() as int);
            assert(stream_pieces(ds) == stream_pieces(prev).push(x));
            assert(stream_pieces(prev).push(x).drop_last() =~= stream_pieces(prev));
            assert(joined(stream_pieces(ds)) =~= joined(stream_pieces(prev)) + now.skip(
                before.len() as int,
            ));
            assert(before + now.skip(before.len() as int) =~= now);
            assert(whole.take(whole.len() as int) =~= whole);
            whole
        } else {
            assert(now == before);
            b0
        }
    }
}

/// Every text a call shows: the pieces shown while it streams, then the rest of the
/// visible reply that [`Turn::finish`] hands out, when it is not empty.
pub open spec fn stream_texts(ds: Seq<Seq<char>>) -> Seq<Seq<char>> {
    let tail = split_meta_spec(joined(ds)).0.skip(stream_shown(ds).len() as int);
    if tail.len() > 0 {
        stream_pieces(ds).push(tail)
    } else {
        stream_pieces(ds)
    }
}

/// What a whole call shows while it streams: the shown pieces, put end to end, are a
/// prefix of the visible reply (the reply with its trailing `<meta>` block cut off) that
/// holds no `<meta`; followed by the rest that [`Turn::finish`] hands out, they are exactly
/// the visible reply, so every text the call shows, put end to end, is the visible reply.
pub proof fn lemma_stream_shows_visible_reply(ds: Seq<Seq<char>>)
    ensures
        joined(stream_pieces(ds)) == stream_shown(ds),
        is_prefix(stream_shown(ds), split_meta_spec(joined(ds)).0),
        stream_shown(ds) + split_meta_spec(joined(ds)).0.skip(stream_shown(ds).len() as int)
            == split_meta_spec(joined(ds)).0,
        find(stream_shown(ds), tag()) is None,
        joined(stream_texts(ds)) == split_meta_spec(joined(ds)).0,
{
    let b = lemma_stream_basis(ds);
    lemma_shown_prefix_of_clean(b, joined(ds));
    lemma_safe_prefix_has_no_tag(b);
    let c = split_meta_spec(joined(ds)).0;
    let sh = stream_shown(ds);
    assert(sh + c.skip(sh.len() as int) =~= c);
    let tail = c.skip(sh.len() as int);
    if tail.len() > 0 {
        let ps = stream_pieces(ds);
        assert(ps.push(tail).drop_last() =~= ps);
        assert(joined(ps.push(tail)) == joined(ps) + tail);
    } else {
        assert(sh =~= c);
    }
}

// ---------------------------------------------------------------- reading a stream

/// What the loop does after an event of the stream.
pub enum TurnAction {
    /// Show this piece of the reply.
    Show(String),
    /// Nothing to show yet.
    Wait,
    /// The reply is complete.
    Stop,
}

/// How a finished call ends: the visible reply, the JSON of its reaction block, and the
/// part of the reply not shown while streaming.
pub struct TurnEnd {
    pub clean: String,
    pub reaction: Option<String>,
    pub tail: String,
}

/// One model call while its stream is read: the reply text, how much of it has been shown,
/// the tool calls and the usage reported.
pub struct Turn {
    full: Vec<char>,
    shown: usize,
    calls: Vec<ToolCall>,
    usage: Option<(u32, u32)>,
    basis: Ghost<Seq<char>>,
}

fn safe_chars(v: &Vec<char>) -> (r: usize)
    ensures
        r == trim_end(safe_prefix(v@)).len(),
        r <= v@.len(),
        v@.take(r as int) == trim_end(safe_prefix(v@)),
{
    let t = chars_of("<meta");
    proof {
        reveal_strlit("<meta");
    }
    let end = match find_chars(v, &t) {
        Some(i) => {
            proof {
                crate::text::lemma_find_from(v@, t@, 0);
            }
            i
        },
        None => v.len() - partial_tag_len_exec(v, &t),
    };
    let prefix = slice_chars(v, 0, end);
    assert(prefix@ =~= safe_prefix(v@));
    let trimmed = trim_end_chars(&prefix);
    proof {
        crate::text::lemma_trim_end_len(prefix@);
        assert(v@.take(trimmed@.len() as int) =~= prefix@.take(trimmed@.len() as int));
    }
    trimmed.len()
}

impl Turn {
    /// The reply text received so far.
    pub closed spec fn text(&self) -> Seq<char> {
        self.full@
    }

    /// The part of it shown so far.
    pub closed spec fn shown(&self) -> Seq<char> {
        self.full@.take(self.shown as int)
    }

    /// The tool calls received so far.
    pub closed spec fn calls_spec(&self) -> Seq<ToolCall> {
        self.calls@
    }

    /// The usage reported so far.
    pub closed spec fn usage_spec(&self) -> Option<(u32, u32)> {
        self.usage
    }

    /// What was shown is what was safe to show at some earlier point of the stream.
    pub closed spec fn wf(&self) -> bool {
        &&& self.shown <= self.full@.len()
        &&& is_prefix(self.basis@, self.full@)
        &&& self.full@.take(self.shown as int) == trim_end(safe_prefix(self.basis@))
    }

    /// A call with nothing received yet.
    pub fn new() -> (r: Turn)
        ensures
            r.wf(),
            r.text() == Seq::<char>::empty(),
            r.shown() == Seq::<char>::empty(),
            r.calls_spec() == Seq::<ToolCall>::empty(),
            r.usage_spec() is None,
    {
        let r = Turn {
            full: Vec::new(),
            shown: 0,
            calls: Vec::new(),
            usage: None,
            basis: Ghost(Seq::empty()),
        };
        proof {
            reveal_strlit("<meta");
            assert(find(Seq::<char>::empty(), tag()) is None);
            assert(Seq::<char>::empty().take(0) =~= Seq::<char>::empty());
            assert(trim_end(safe_prefix(Seq::<char>::empty())) =~= Seq::<char>::empty());
            assert(r.full@.take(0) =~= Seq::<char>::empty());
        }
        r
    }

    /// Takes the next event of the stream. A piece of text is shown as soon as it cannot
    /// be the start of the reaction tag: what has been shown is always the safe part of the
    /// text received (see [`safe_prefix`]) at the last time it grew.
    pub fn step(&mut self, ev: LlmEvent) -> (r: TurnAction)
        requires
            old(self).wf(),
        ensures
            final(self).wf(),
            match ev@ {
                LlmEventV::Delta(t) => {
                    &&& final(self).text() == old(self).text() + t
                    &&& final(self).shown() == next_shown(old(self).shown(), final(self).text())
                    &&& final(self).calls_spec() == old(self).calls_spec()
                    &&& final(self).usage_spec() == old(self).usage_spec()
                    &&& match r {
                        TurnAction::Show(x) => final(self).shown() == old(self).shown() + x@
                            && final(self).shown() == trim_end(safe_prefix(final(self).text()))
                            && old(self).shown().len() < final(self).shown().len(),
                        TurnAction::Wait => final(self).shown() == old(self).shown()
                            && trim_end(safe_prefix(final(self).text())).len() <= old(
                            self,
                        ).shown().len(),
                        TurnAction::Stop => false,
                    }
                },
                LlmEventV::ToolCall(_) => {
                    &&& final(self).text() == old(self).text()
                    &&& final(self).shown() == old(self).shown()
                    &&& final(self).usage_spec() == old(self).usage_spec()
                    &&& (ev matches LlmEvent::ToolCall(c) && final(self).calls_spec() == old(
                        self,
                    ).calls_spec().push(c))
                    &&& r is Wait
                },
                LlmEventV::Usage { prompt_tokens, completion_tokens } => {
                    &&& final(self).text() == old(self).text()
                    &&& final(self).shown() == old(self).shown()
                    &&& final(self).calls_spec() == old(self).calls_spec()
                    &&& final(self).usage_spec() == Some((prompt_tokens, completion_tokens))
                    &&& r is Wait
                },
                LlmEventV::Done => {
                    &&& final(self).text() == old(self).text()
                    &&& final(self).shown() == old(self).shown()
                    &&& final(self).calls_spec() == old(self).calls_spec()
                    &&& final(self).usage_spec() == old(self).usage_spec()
                    &&& r is Stop
                },
            },
    {
        match ev {
            LlmEvent::Delta(t) => {
                let ghost old_full = self.full@;
                let ghost old_shown = self.full@.take(self.shown as int);
                push_str(&mut self.full, t.as_str());
                assert(self.full@.take(old_full.len() as int) =~= old_full);
                assert(self.full@.take(self.shown as int) =~= old_shown);
                assert(self.full@.take(self.basis@.len() as int) =~= old_full.take(
                    self.basis@.len() as int,
                ));
                let safe = safe_chars(&self.full);
                if safe > self.shown {
                    let piece = slice_chars(&self.full, self.shown, safe);
                    proof {
                        self.basis = Ghost(self.full@);
                        assert(self.full@.take(self.full@.len() as int) =~= self.full@);
                        assert(self.full@.take(safe as int) =~= old_shown + piece@);
                    }
                    self.shown = safe;
                    TurnAction::Show(string_of(&piece))
                } else {
                    TurnAction::Wait
                }
            },
            LlmEvent::ToolCall(c) => {
                self.calls.push(c);
                TurnAction::Wait
            },
            LlmEvent::Usage { prompt_tokens, completion_tokens } => {
                self.usage = Some((prompt_tokens, completion_tokens));
                TurnAction::Wait
            },
            LlmEvent::Done => TurnAction::Stop,
        }
    }

    /// The end of the call: the visible reply, its reaction JSON, and what remains to be
    /// shown. What was shown during the stream followed by the tail is exactly the visible
    /// reply.
    pub fn finish(&self) -> (r: TurnEnd)
        requires
            self.wf(),
        ensures
            r.clean@ == split_meta_spec(self.text()).0,
            match r.reaction {
                Some(j) => split_meta_spec(self.text()).1 == Some(j@),
                None => split_meta_spec(self.text()).1 is None,
            },
            self.shown() + r.tail@ == r.clean@,
    {
        let text = string_of(&self.full);
        let (clean, reaction) = split_meta(text.as_str());
        proof {
            lemma_shown_prefix_of_clean(self.basis@, self.full@);
        }
        let c = chars_of(clean.as_str());
        let tail = if c.len() > self.shown {
            slice_chars(&c, self.shown, c.len())
        } else {
            Vec::new()
        };
        proof {
            let sh = self.full@.take(self.shown as int);
            assert(c@.take(sh.len() as int) == sh);
            assert(sh + tail@ =~= c@);
        }
        TurnEnd { clean, reaction, tail: string_of(&tail) }
    }

    /// The reply text received.
    pub fn text_string(&self) -> (r: String)
        ensures
            r@ == self.text(),
    {
        string_of(&self.full)
    }

    /// The tool calls received.
    pub fn calls(&self) -> (r: &Vec<ToolCall>)
        ensures
            r@ == self.calls_spec(),
    {
        &self.calls
    }

    /// The usage reported by the server, if any.
    pub fn usage(&self) -> (r: Option<(u32, u32)>)
        ensures
            r == self.usage_spec(),
    {
        self.usage
    }
}

// ---------------------------------------------------------------- running tools

/// What follows the user's answer to an approval card.
pub enum ApprovalOutcome {
    /// Run the tool.
    Run,
    /// Run the tool, and add this prefix to the workspace's allowlist.
    RunAndAllow(String),
    /// Do not run it.
    Denied,
}

/// What the user's answer leads to: a denial stops the call; "always" on `run_shell` with
/// a `command` also puts the command's prefix (see [`crate::agent::policy::command_prefix`])
/// on the allowlist.
pub fn after_approval(decision: Decision, tool: &str, args: &serde_json::Value) -> (r:
    ApprovalOutcome)
    ensures
        decision == Decision::Deny <==> r is Denied,
        decision == Decision::Allow ==> r is Run,
        decision == Decision::Always ==> match r {
            ApprovalOutcome::RunAndAllow(p) => tool@ == "run_shell"@ && (member_str(
                *args,
                "command"@,
            ) matches Some(c) && p@ == prefix_spec(c)),
            ApprovalOutcome::Run => !(tool@ == "run_shell"@ && member_str(*args, "command"@) is Some),
            ApprovalOutcome::Denied => false,
        },
{
    match decision {
        Decision::Deny => ApprovalOutcome::Denied,
        Decision::Allow => ApprovalOutcome::Run,
        Decision::Always => {
            if crate::text::str_eq(tool, "run_shell") {
                match get_str(args, "command") {
                    Some(c) => ApprovalOutcome::RunAndAllow(command_prefix(c.as_str())),
                    None => ApprovalOutcome::Run,
                }
            } else {
                ApprovalOutcome::Run
            }
        },
    }
}

/// The tool output when the user denied the call.
pub const DENIED_OUTPUT: &'static str = "denied by user";

/// The tool output for a failed call: `error: <message>`.
pub fn error_output(message: &str) -> (r: String)
    ensures
        r@ == "error: "@ + message@,
{
    let mut m = chars_of("error: ");
    push_str(&mut m, message);
    string_of(&m)
}

/// The tool output for a call of a tool that does not exist.
pub fn unknown_tool_output(name: &str) -> (r: String)
    ensures
        r@ == "error: 未知工具 "@ + name@,
{
    let mut m = chars_of("error: 未知工具 ");
    push_str(&mut m, name);
    string_of(&m)
}

/// The tool output for arguments that are not JSON, with the parser's message.
pub fn bad_arguments_output(parse_error: &str) -> (r: String)
    ensures
        r@ == "error: 参数不是合法 JSON: "@ + parse_error@,
{
    let mut m = chars_of("error: 参数不是合法 JSON: ");
    push_str(&mut m, parse_error);
    string_of(&m)
}

/// How many model calls a run may make: the configured number, at least one.
pub fn turn_budget(max_turns: u32) -> (r: u32)
    ensures
        r == if max_turns < 1 {
            1
        } else {
            max_turns
        },
{
    if max_turns < 1 {
        1
    } else {
        max_turns
    }
}

/// The error when a run used up its model calls.
pub fn max_turns_error(max_turns: u32) -> (r: crate::error::Error)
    ensures
        r.msg() == "达到最大轮次 "@ + crate::text::decimal(max_turns as nat) + "，已停止"@,
{
    let digits = string_of(&crate::text::decimal_chars(max_turns as u64));
    crate::error::Error::with("达到最大轮次 ", digits.as_str(), "，已停止")
}

// ---------------------------------------------------------------- token accounting

/// Sum of the estimates of the skills' names and bodies.
pub open spec fn skills_estimate(sk: Seq<(String, String)>) -> nat
    decreases sk.len(),
{
    if sk.len() == 0 {
        0
    } else {
        skills_estimate(sk.drop_last()) + estimate_spec(sk.last().0@) + estimate_spec(
            sk.last().1@,
        )
    }
}

/// `a - b`, or 0 when `b > a` (`u32::saturating_sub`).
pub open spec fn sat_sub(a: nat, b: nat) -> nat {
    if a >= b {
        (a - b) as nat
    } else {
        0
    }
}

/// The accounting of the next call of a session when nothing has been sent yet: the
/// system prompt (persona, skills, convention, tool definitions) and the history.
pub open spec fn context_usage_fits(
    persona: Seq<char>,
    skills: Seq<(String, String)>,
    tools_tokens: nat,
    history: Seq<serde_json::Value>,
) -> bool {
    let system = estimate_spec(system_prompt_spec(persona, skills));
    &&& system + tools_tokens + messages_estimate(history) <= u32::MAX
    &&& estimate_spec(persona) + skills_estimate(skills) <= u32::MAX
}

fn skills_tokens(skills: &[(String, String)]) -> (r: u64)
    requires
        skills_estimate(skills@) <= u32::MAX,
    ensures
        r == skills_estimate(skills@),
{
    let mut total: u64 = 0;
    let mut i: usize = 0;
    assert(skills@.take(0) =~= Seq::<(String, String)>::empty());
    while i < skills.len()
        invariant
            i <= skills@.len(),
            skills_estimate(skills@) <= u32::MAX,
            total == skills_estimate(skills@.take(i as int)),
        decreases skills@.len() - i,
    {
        proof {
            assert(skills@.take(i + 1).drop_last() =~= skills@.take(i as int));
            assert(skills@.take(i + 1).last() == skills@[i as int]);
            lemma_skills_estimate_monotone(skills@, i + 1);
        }
        total = total + estimate_u64(skills[i].0.as_str()) + estimate_u64(skills[i].1.as_str());
        i = i + 1;
    }
    assert(skills@.take(skills@.len() as int) =~= skills@);
    total
}

proof fn lemma_skills_estimate_monotone(sk: Seq<(String, String)>, i: int)
    requires
        0 <= i <= sk.len(),
    ensures
        skills_estimate(sk.take(i)) <= skills_estimate(sk),
    decreases sk.len() - i,
{
    if i < sk.len() {
        lemma_skills_estimate_monotone(sk, i + 1);
        assert(sk.take(i + 1).drop_last() =~= sk.take(i));
    } else {
        assert(sk.take(i) =~= sk);
    }
}

/// The usage a session's next call is expected to have, before it is made: call 0, all
/// of it estimated, the prompt being the system prompt (with tool definitions) and the
/// history.
pub fn context_usage(
    session_id: &str,
    persona: &str,
    skills: &[(String, String)],
    tools_tokens: u32,
    history: &[serde_json::Value],
    context_window: u32,
) -> (r: Usage)
    requires
        context_usage_fits(persona@, skills@, tools_tokens as nat, history@),
    ensures
        r.session_id@ == session_id@,
        r.call == 0,
        r.completion_tokens == 0,
        r.estimated,
        r.context_window == context_window,
        r.system_tokens == estimate_spec(system_prompt_spec(persona@, skills@)) + tools_tokens,
        r.prompt_tokens == r.system_tokens + messages_estimate(history@),
        r.breakdown.persona == estimate_spec(persona@),
        r.breakdown.skills == skills_estimate(skills@),
        r.breakdown.convention == sat_sub(
            estimate_spec(system_prompt_spec(persona@, skills@)),
            estimate_spec(persona@) + skills_estimate(skills@),
        ),
        r.breakdown.tools == tools_tokens,
        r.breakdown.history == messages_estimate(history@),
        r.breakdown.current == 0,
        r.breakdown.run == 0,
{
    let system = system_prompt(persona, skills);
    let sys_est = estimate(system.as_str());
    let system_tokens = sys_est + tools_tokens;
    let persona_tokens = estimate(persona);
    let sk = skills_tokens(skills) as u32;
    let history_tokens = estimate_messages(history);
    let convention = if sys_est >= persona_tokens + sk {
        sys_est - (persona_tokens + sk)
    } else {
        0
    };
    Usage {
        session_id: string_of(&chars_of(session_id)),
        call: 0,
        prompt_tokens: system_tokens + history_tokens,
        completion_tokens: 0,
        system_tokens,
        estimated: true,
        context_window,
        breakdown: Breakdown {
            persona: persona_tokens,
            skills: sk,
            convention,
            tools: tools_tokens,
            history: history_tokens,
            current: 0,
            run: 0,
        },
    }
}

fn skills_tokens_checked(skills: &[(String, String)]) -> (r: Option<u64>)
    ensures
        match r {
            Some(n) => n == skills_estimate(skills@) && n <= u32::MAX,
            None => skills_estimate(skills@) > u32::MAX,
        },
{
    let mut total: u64 = 0;
    let mut i: usize = 0;
    assert(skills@.take(0) =~= Seq::<(String, String)>::empty());
    while i < skills.len()
        invariant
            i <= skills@.len(),
            total <= u32::MAX,
            total == skills_estimate(skills@.take(i as int)),
        decreases skills@.len() - i,
    {
        proof {
            assert(skills@.take(i + 1).drop_last() =~= skills@.take(i as int));
            assert(skills@.take(i + 1).last() == skills@[i as int]);
            lemma_skills_estimate_monotone(skills@, i + 1);
        }
        let a = estimate_u64(skills[i].0.as_str());
        let b = estimate_u64(skills[i].1.as_str());
        if a > u32::MAX as u64 || b > u32::MAX as u64 || total + a + b > u32::MAX as u64 {
            return None;
        }
        total = total + a + b;
        i = i + 1;
    }
    assert(skills@.take(skills@.len() as int) =~= skills@);
    Some(total)
}

/// [`context_usage`], or `None` when its counts do not fit in `u32`
/// ([`context_usage_fits`] does not hold).
pub fn context_usage_checked(
    session_id: &str,
    persona: &str,
    skills: &[(String, String)],
    tools_tokens: u32,
    history: &[serde_json::Value],
    context_window: u32,
) -> (r: Option<Usage>)
    ensures
        r is Some <==> context_usage_fits(persona@, skills@, tools_tokens as nat, history@),
        r matches Some(u) ==> {
            &&& u.session_id@ == session_id@
            &&& u.call == 0
            &&& u.completion_tokens == 0
            &&& u.estimated
            &&& u.context_window == context_window
            &&& u.system_tokens == estimate_spec(system_prompt_spec(persona@, skills@))
                + tools_tokens
            &&& u.prompt_tokens == u.system_tokens + messages_estimate(history@)
            &&& u.breakdown.persona == estimate_spec(persona@)
            &&& u.breakdown.skills == skills_estimate(skills@)
            &&& u.breakdown.convention == sat_sub(
                estimate_spec(system_prompt_spec(persona@, skills@)),
                estimate_spec(persona@) + skills_estimate(skills@),
            )
            &&& u.breakdown.tools == tools_tokens
            &&& u.breakdown.history == messages_estimate(history@)
            &&& u.breakdown.current == 0
            &&& u.breakdown.run == 0
        },
{
    let system = system_prompt(persona, skills);
    let sys = estimate_u64(system.as_str());
    let hist = match crate::tokens::estimate_messages_checked(history) {
        Some(h) => h as u64,
        None => {
            return None;
        },
    };
    if sys > u32::MAX as u64 || sys + tools_tokens as u64 + hist > u32::MAX as u64 {
        return None;
    }
    let p = estimate_u64(persona);
    let sk = match skills_tokens_checked(skills) {
        Some(n) => n,
        None => {
            return None;
        },
    };
    if p > u32::MAX as u64 || p + sk > u32::MAX as u64 {
        return None;
    }
    Some(context_usage(session_id, persona, skills, tools_tokens, history, context_window))
}

/// Where the messages of a call are split for the breakdown: after the system message come
/// the history, the current user message, and this run's tool round trips. `base_len` is
/// the number of stored messages when the run began (history and the user message);
/// returns the number of history messages and of current messages among `body_len`.
pub fn message_split(body_len: usize, base_len: usize) -> (r: (usize, usize))
    ensures
        r.0 == if base_len >= 1 {
            if (base_len - 1) as int <= body_len as int {
                (base_len - 1) as int
            } else {
                body_len as int
            }
        } else {
            0
        },
        r.1 == if body_len - r.0 >= 1 {
            1usize
        } else {
            0usize
        },
        r.0 + r.1 <= body_len,
{
    let hist = if base_len >= 1 {
        if base_len - 1 <= body_len {
            base_len - 1
        } else {
            body_len
        }
    } else {
        0
    };
    let cur = if body_len - hist >= 1 {
        1
    } else {
        0
    };
    (hist, cur)
}

/// The usage of a finished call: what the server reported, when it did; otherwise the
/// local estimates, marked as estimated.
pub fn call_usage(server: Option<(u32, u32)>, prompt_estimate: u32, completion_estimate: u32) -> (r:
    (u32, u32, bool))
    ensures
        r == match server {
            Some((p, c)) => (p, c, false),
            None => (prompt_estimate, completion_estimate, true),
        },
{
    match server {
        Some((p, c)) => (p, c, false),
        None => (prompt_estimate, completion_estimate, true),
    }
}

// ---------------------------------------------------------------- approvals

/// The key of a pending approval: `<session>/<call>`.
pub open spec fn approval_key_spec(session_id: Seq<char>, call_id: Seq<char>) -> Seq<char> {
    session_id + seq!['/'] + call_id
}

/// The key under which an approval waits.
pub fn approval_key(session_id: &str, call_id: &str) -> (r: String)
    ensures
        r@ == approval_key_spec(session_id@, call_id@),
{
    let mut v = chars_of(session_id);
    v.push('/');
    push_str(&mut v, call_id);
    string_of(&v)
}

/// Whether a pending approval belongs to the session (its key starts with `<session>/`);
/// cancelling a session denies exactly these.
pub fn is_session_key(key: &str, session_id: &str) -> (r: bool)
    ensures
        r == is_prefix(session_id@ + seq!['/'], key@),
{
    let mut p = chars_of(session_id);
    p.push('/');
    assert(p@ =~= session_id@ + seq!['/']);
    starts_with(&chars_of(key), &p)
}

/// The key of an approval of a session belongs to that session.
pub proof fn lemma_key_belongs_to_session(session_id: Seq<char>, call_id: Seq<char>)
    ensures
        is_prefix(session_id + seq!['/'], approval_key_spec(session_id, call_id)),
{
    assert(approval_key_spec(session_id, call_id).take((session_id + seq!['/']).len() as int)
        =~= session_id + seq!['/']);
}

} // verus!
