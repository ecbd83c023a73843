//! The web tool: fetches an http(s) page as plain text. The runner makes the request;
//! the URL check, the HTML-to-text conversion and the report are computed here.
use vstd::prelude::*;
use crate::agent::tools::{arg_str, missing_arg_msg, truncate, truncate_spec};
use crate::error::Error;
use crate::json::member_str;
use crate::pattern::{regex_new_error, regex_replace_all, CompiledRegex};
use crate::text::{
    chars_of, is_prefix, push_all, push_str, starts_with, string_of, trim, trim_chars,
};

verus! {

/// Fetches a web page.
pub struct WebFetch;

/// Scripts, styles and `noscript` blocks, with their content.
pub const BLOCK_PATTERN: &'static str = r"(?is)<script[^>]*>.*?</script>|<style[^>]*>.*?</style>|<noscript[^>]*>.*?</noscript>";
/// Tags that end a line.
pub const BREAK_PATTERN: &'static str = r"(?i)<(br|/p|/div|/li|/h[1-6]|/tr)[^>]*>";
/// Any tag.
pub const TAG_PATTERN: &'static str = r"(?s)<[^>]+>";
/// Runs of spaces and tabs.
pub const SPACE_PATTERN: &'static str = r"[ \t]+";
/// Blank lines.
pub const BLANK_PATTERN: &'static str = r"\n\s*\n+";

/// `str::replace` with a non-empty pattern: each occurrence, leftmost first and without
/// overlap, replaced.
pub open spec fn replace_lit(s: Seq<char>, from: Seq<char>, to: Seq<char>) -> Seq<char>
    decreases s.len(),
{
    if from.len() == 0 || s.len() < from.len() {
        s
    } else if s.take(from.len() as int) == from {
        to + replace_lit(s.skip(from.len() as int), from, to)
    } else {
        seq![s[0]] + replace_lit(s.drop_first(), from, to)
    }
}

fn replace_lit_exec(s: &str, from: &str, to: &str) -> (r: String)
    requires
        from@.len() > 0,
    ensures
        r@ == replace_lit(s@, from@, to@),
{
    let v = chars_of(s);
    let f = chars_of(from);
    let t = chars_of(to);
    let m = f.len();
    let mut out: Vec<char> = Vec::new();
    let mut i: usize = 0;
    assert(v@.skip(0) =~= v@);
    while m <= v.len() && i <= v.len() - m
        invariant
            m == f@.len(),
            m > 0,
            i <= v@.len(),
            v@ == s@,
            f@ == from@,
            t@ == to@,
            out@ + replace_lit(v@.skip(i as int), f@, t@) == replace_lit(s@, from@, to@),
        decreases v@.len() - i,
    {
        let ghost rest = v@.skip(i as int);
        if crate::text::occurs_at_exec(&v, &f, i) {
            assert(rest.take(m as int) =~= v@.subrange(i as int, i + m));
            assert(rest.skip(m as int) =~= v@.skip(i + m));
            push_all(&mut out, &t);
            assert(out@ + replace_lit(v@.skip(i + m), f@, t@) =~= replace_lit(s@, from@, to@));
            i = i + m;
        } else {
            assert(rest.take(m as int) =~= v@.subrange(i as int, i + m));
            assert(rest.drop_first() =~= v@.skip(i + 1));
            assert(rest[0] == v@[i as int]);
            out.push(v[i]);
            assert(out@ + replace_lit(v@.skip(i + 1), f@, t@) =~= replace_lit(s@, from@, to@));
            i = i + 1;
        }
    }
    let tail = crate::text::slice_chars(&v, i, v.len());
    assert(tail@ =~= v@.skip(i as int));
    assert(replace_lit(v@.skip(i as int), f@, t@) == v@.skip(i as int));
    push_all(&mut out, &tail);
    string_of(&out)
}

/// The entities `html_to_text` decodes, in the order it decodes them.
pub open spec fn decode_entities(s: Seq<char>) -> Seq<char> {
    replace_lit(
        replace_lit(
            replace_lit(replace_lit(replace_lit(s, "&nbsp;"@, " "@), "&amp;"@, "&"@), "&lt;"@, "<"@),
            "&gt;"@,
            ">"@,
        ),
        "&quot;"@,
        "\""@,
    )
}

/// The text holds no `&`.
pub open spec fn amp_free(s: Seq<char>) -> bool {
    forall|i: int| 0 <= i < s.len() ==> s[i] != '&'
}

proof fn lemma_replace_skips_plain(a: Seq<char>, b: Seq<char>, from: Seq<char>, to: Seq<char>)
    requires
        amp_free(a),
        from.len() > 0,
        from[0] == '&',
    ensures
        replace_lit(a + b, from, to) == a + replace_lit(b, from, to),
    decreases a.len(),
{
    let s = a + b;
    if a.len() == 0 {
        assert(s =~= b);
    } else if s.len() < from.len() {
        assert(s =~= a + b);
    } else {
        assert(s[0] == a[0]);
        assert(s.take(from.len() as int)[0] != from[0]);
        assert(s.drop_first() =~= a.drop_first() + b);
        lemma_replace_skips_plain(a.drop_first(), b, from, to);
        assert(seq![s[0]] + a.drop_first() =~= a);
    }
}

proof fn lemma_replace_plain(a: Seq<char>, from: Seq<char>, to: Seq<char>)
    requires
        amp_free(a),
        from.len() > 0,
        from[0] == '&',
    ensures
        replace_lit(a, from, to) == a,
{
    lemma_replace_skips_plain(a, Seq::empty(), from, to);
    assert(a + Seq::<char>::empty() =~= a);
}

proof fn lemma_replace_front(e: Seq<char>, b: Seq<char>, from: Seq<char>, to: Seq<char>, k: int)
    requires
        e.len() > 0,
        e[0] == '&',
        amp_free(e.drop_first()),
        from.len() > 0,
        from[0] == '&',
        e == from || (0 < k < e.len() && k < from.len() && e[k] != from[k]),
    ensures
        e == from ==> replace_lit(e + b, from, to) == to + replace_lit(b, from, to),
        e != from ==> replace_lit(e + b, from, to) == e + replace_lit(b, from, to),
{
    let s = e + b;
    if e == from {
        assert(s.take(from.len() as int) =~= from);
        assert(s.skip(from.len() as int) =~= b);
    } else if s.len() < from.len() {
        assert(b.len() < from.len());
    } else {
        assert(s.take(from.len() as int)[k] == e[k]);
        assert(s.drop_first() =~= e.drop_first() + b);
        lemma_replace_skips_plain(e.drop_first(), b, from, to);
        assert(seq![s[0]] + e.drop_first() =~= e);
    }
}

proof fn lemma_join_amp_free(ps: Seq<Seq<char>>, sep: Seq<char>)
    requires
        forall|j: int| 0 <= j < ps.len() ==> amp_free(#[trigger] ps[j]),
        amp_free(sep),
    ensures
        amp_free(crate::text::join(ps, sep)),
    decreases ps.len(),
{
    if ps.len() > 1 {
        lemma_join_amp_free(ps.drop_last(), sep);
        let j = crate::text::join(ps.drop_last(), sep);
        assert(amp_free(ps.last()));
        assert forall|i: int| 0 <= i < (j + sep + ps.last()).len() implies (j + sep + ps.last())[i]
            != '&' by {
            if i < j.len() {
            } else if i < j.len() + sep.len() {
                assert((j + sep + ps.last())[i] == sep[i - j.len()]);
            } else {
                assert((j + sep + ps.last())[i] == ps.last()[i - j.len() - sep.len()]);
            }
        }
    } else if ps.len() == 1 {
        assert(amp_free(ps[0]));
    }
}

/// Replacing `from` in pieces joined by `e`: the separators become `to` when `e` is `from`,
/// and stay when `e` is another entity (one that differs from `from` at position `k`).
proof fn lemma_replace_joined(
    ps: Seq<Seq<char>>,
    e: Seq<char>,
    from: Seq<char>,
    to: Seq<char>,
    k: int,
)
    requires
        ps.len() > 0,
        forall|j: int| 0 <= j < ps.len() ==> amp_free(#[trigger] ps[j]),
        e.len() > 0,
        e[0] == '&',
        amp_free(e.drop_first()),
        from.len() > 0,
        from[0] == '&',
        e == from || (0 < k < e.len() && k < from.len() && e[k] != from[k]),
    ensures
        e == from ==> replace_lit(crate::text::join(ps, e), from, to) == crate::text::join(ps, to),
        e != from ==> replace_lit(crate::text::join(ps, e), from, to) == crate::text::join(ps, e),
    decreases ps.len(),
{
    if ps.len() == 1 {
        assert(amp_free(ps[0]));
        lemma_replace_plain(ps[0], from, to);
    } else {
        let head = seq![ps[0]];
        let tail = ps.drop_first();
        assert(ps =~= head + tail);
        crate::text::lemma_join_append(head, tail, e);
        crate::text::lemma_join_append(head, tail, to);
        assert(crate::text::join(head, e) == ps[0]);
        assert(crate::text::join(head, to) == ps[0]);
        assert(amp_free(ps[0]));
        assert forall|j: int| 0 <= j < tail.len() implies amp_free(#[trigger] tail[j]) by {
            assert(tail[j] == ps[j + 1]);
        }
        lemma_replace_joined(tail, e, from, to, k);
        let jt = crate::text::join(tail, e);
        assert(crate::text::join(ps, e) =~= ps[0] + (e + jt));
        lemma_replace_skips_plain(ps[0], e + jt, from, to);
        lemma_replace_front(e, jt, from, to, k);
        assert(crate::text::join(ps, to) =~= ps[0] + to + crate::text::join(tail, to));
        assert(crate::text::join(ps, e) =~= ps[0] + e + jt);
    }
}

/// The entities are decoded: in text whose only `&`s are those of one kind of entity
/// (`&nbsp;`, `&lt;`, `&gt;` or `&quot;`), every one of them becomes its character, a space
/// for `&nbsp;`, and nothing else changes.
pub proof fn lemma_entities_decoded(ps: Seq<Seq<char>>)
    requires
        ps.len() > 0,
        forall|j: int| 0 <= j < ps.len() ==> amp_free(#[trigger] ps[j]),
    ensures
        decode_entities(crate::text::join(ps, "&nbsp;"@)) == crate::text::join(ps, " "@),
        decode_entities(crate::text::join(ps, "&lt;"@)) == crate::text::join(ps, "<"@),
        decode_entities(crate::text::join(ps, "&gt;"@)) == crate::text::join(ps, ">"@),
        decode_entities(crate::text::join(ps, "&quot;"@)) == crate::text::join(ps, "\""@),
{
    reveal_strlit("&nbsp;");
    reveal_strlit("&amp;");
    reveal_strlit("&lt;");
    reveal_strlit("&gt;");
    reveal_strlit("&quot;");
    reveal_strlit(" ");
    reveal_strlit("&");
    reveal_strlit("<");
    reveal_strlit(">");
    reveal_strlit("\"");
    let nb = "&nbsp;"@;
    let amp = "&amp;"@;
    let lt = "&lt;"@;
    let gt = "&gt;"@;
    let qu = "&quot;"@;
    assert(amp_free(nb.drop_first()));
    assert(amp_free(lt.drop_first()));
    assert(amp_free(gt.drop_first()));
    assert(amp_free(qu.drop_first()));
    assert(amp_free(" "@) && amp_free("<"@) && amp_free(">"@) && amp_free("\""@));
    // `&nbsp;`
    lemma_replace_joined(ps, nb, nb, " "@, 0);
    lemma_join_amp_free(ps, " "@);
    let j1 = crate::text::join(ps, " "@);
    lemma_replace_plain(j1, amp, "&"@);
    lemma_replace_plain(j1, lt, "<"@);
    lemma_replace_plain(j1, gt, ">"@);
    lemma_replace_plain(j1, qu, "\""@);
    // `&lt;`
    let jl = crate::text::join(ps, lt);
    lemma_replace_joined(ps, lt, nb, " "@, 1);
    lemma_replace_joined(ps, lt, amp, "&"@, 1);
    lemma_replace_joined(ps, lt, lt, "<"@, 0);
    lemma_join_amp_free(ps, "<"@);
    let j2 = crate::text::join(ps, "<"@);
    lemma_replace_plain(j2, gt, ">"@);
    lemma_replace_plain(j2, qu, "\""@);
    // `&gt;`
    lemma_replace_joined(ps, gt, nb, " "@, 1);
    lemma_replace_joined(ps, gt, amp, "&"@, 1);
    lemma_replace_joined(ps, gt, lt, "<"@, 1);
    lemma_replace_joined(ps, gt, gt, ">"@, 0);
    lemma_join_amp_free(ps, ">"@);
    let j3 = crate::text::join(ps, ">"@);
    lemma_replace_plain(j3, qu, "\""@);
    // `&quot;`
    lemma_replace_joined(ps, qu, nb, " "@, 1);
    lemma_replace_joined(ps, qu, amp, "&"@, 1);
    lemma_replace_joined(ps, qu, lt, "<"@, 1);
    lemma_replace_joined(ps, qu, gt, ">"@, 1);
    lemma_replace_joined(ps, qu, qu, "\""@, 0);
}

/// The plain text of an HTML page: scripts and styles dropped, line-ending tags turned into
/// newlines, other tags dropped, a few entities decoded, runs of spaces and tabs made one
/// space, blank lines removed, and the result trimmed.
pub open spec fn html_text_spec(html: Seq<char>) -> Seq<char> {
    let s1 = regex_replace_all(BLOCK_PATTERN@, html, ""@);
    let s2 = regex_replace_all(BREAK_PATTERN@, s1, "\n"@);
    let s3 = regex_replace_all(TAG_PATTERN@, s2, ""@);
    let s4 = decode_entities(s3);
    let s5 = regex_replace_all(SPACE_PATTERN@, s4, " "@);
    trim(regex_replace_all(BLANK_PATTERN@, s5, "\n"@))
}

/// All five expressions of [`html_text_spec`] compile.
pub open spec fn html_patterns_compile() -> bool {
    &&& regex_new_error(BLOCK_PATTERN@) is None
    &&& regex_new_error(BREAK_PATTERN@) is None
    &&& regex_new_error(TAG_PATTERN@) is None
    &&& regex_new_error(SPACE_PATTERN@) is None
    &&& regex_new_error(BLANK_PATTERN@) is None
}

/// The plain text of an HTML page (the page unchanged if one of the fixed expressions did
/// not compile).
pub fn html_to_text(html: &str) -> (r: String)
    ensures
        html_patterns_compile() ==> r@ == html_text_spec(html@),
        !html_patterns_compile() ==> r@ == html@,
{
    let block = CompiledRegex::compile(BLOCK_PATTERN);
    let brk = CompiledRegex::compile(BREAK_PATTERN);
    let tag = CompiledRegex::compile(TAG_PATTERN);
    let space = CompiledRegex::compile(SPACE_PATTERN);
    let blank = CompiledRegex::compile(BLANK_PATTERN);
    match (block, brk, tag, space, blank) {
        (Ok(block), Ok(brk), Ok(tag), Ok(space), Ok(blank)) => {
            let empty = String::new();
            let s1 = block.replace_all(html, empty.as_str());
            let s2 = brk.replace_all(s1.as_str(), "\n");
            let s3 = tag.replace_all(s2.as_str(), empty.as_str());
            proof {
                reveal_strlit("&nbsp;");
                reveal_strlit("&amp;");
                reveal_strlit("&lt;");
                reveal_strlit("&gt;");
                reveal_strlit("&quot;");
            }
            let a = replace_lit_exec(s3.as_str(), "&nbsp;", " ");
            let b = replace_lit_exec(a.as_str(), "&amp;", "&");
            let c = replace_lit_exec(b.as_str(), "&lt;", "<");
            let d = replace_lit_exec(c.as_str(), "&gt;", ">");
            let e = replace_lit_exec(d.as_str(), "&quot;", "\"");
            let s5 = space.replace_all(e.as_str(), " ");
            let s6 = blank.replace_all(s5.as_str(), "\n");
            assert(empty@ == ""@) by {
                reveal_strlit("");
            }
            string_of(&trim_chars(&chars_of(s6.as_str())))
        },
        _ => string_of(&chars_of(html)),
    }
}

/// The URL argument is an http or https URL.
pub open spec fn http_url(url: Seq<char>) -> bool {
    is_prefix("http://"@, url) || is_prefix("https://"@, url)
}

/// What `web_fetch` reports: `[HTTP <status>]`, a newline and the page (as text when it is
/// HTML), cut to the output limit.
pub open spec fn fetch_report(status: Seq<char>, body: Seq<char>, converted: Seq<char>, is_html: bool) -> Seq<
    char,
> {
    truncate_spec(
        "[HTTP "@ + status + "]\n"@ + if is_html {
            converted
        } else {
            body
        },
    )
}

impl WebFetch {
    /// The tool's name.
    pub fn name(&self) -> (r: &'static str)
        ensures
            r@ == "web_fetch"@,
    {
        "web_fetch"
    }

    /// The tool's description for the model.
    pub fn description(&self) -> (r: &'static str)
        ensures
            r@ == "抓取 http(s) 网页并转成纯文本（去掉标签、脚本和样式）。"@,
    {
        "抓取 http(s) 网页并转成纯文本（去掉标签、脚本和样式）。"
    }

    /// The `url` argument, which must be an http or https URL.
    pub fn url_arg(&self, args: &serde_json::Value) -> (r: Result<String, Error>)
        ensures
            match r {
                Ok(u) => member_str(*args, "url"@) == Some(u@) && http_url(u@),
                Err(e) => match member_str(*args, "url"@) {
                    None => e.msg() == missing_arg_msg("url"@),
                    Some(u) => !http_url(u) && e.msg() == "只支持 http/https"@,
                },
            },
    {
        let url = arg_str(args, "url")?;
        let v = chars_of(url.as_str());
        if !(starts_with(&v, &chars_of("http://")) || starts_with(&v, &chars_of("https://"))) {
            return Err(Error::from_str("只支持 http/https"));
        }
        Ok(url)
    }

    /// The tool's output for a response with `status` (its `Display` text, such as
    /// `200 OK`) and `body`; HTML is converted to text.
    pub fn report(&self, status: &str, body: &str, is_html: bool) -> (r: String)
        ensures
            html_patterns_compile() ==> r@ == fetch_report(
                status@,
                body@,
                html_text_spec(body@),
                is_html,
            ),
            !html_patterns_compile() ==> r@ == fetch_report(status@, body@, body@, is_html),
    {
        let mut m = chars_of("[HTTP ");
        push_str(&mut m, status);
        push_str(&mut m, "]\n");
        if is_html {
            let t = html_to_text(body);
            push_str(&mut m, t.as_str());
        } else {
            push_str(&mut m, body);
        }
        truncate(string_of(&m))
    }
}

} // verus!
