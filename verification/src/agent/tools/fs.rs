//! The file tools: read, list, search, write and edit inside the workspace.
//!
//! The tool runner does the file-system work (resolving paths, reading and writing); these
//! functions read the arguments, check paths and compute each tool's output.
use vstd::prelude::*;
use crate::agent::tools::{arg_str, missing_arg_msg, truncate, truncate_spec};
use crate::error::Error;
use crate::json::{get_str, get_u64, member_str, member_u64};
use crate::path::{join_path, join_path_spec, path_has_prefix, path_starts_with};
use crate::pattern::{regex_is_match, regex_new_error, CompiledRegex};
use crate::sort::{sort_spec, sort_strings, string_views, text_key_fn};
use crate::text::{
    byte_len, chars_of, copy_str, decimal, decimal_chars, find, find_chars, join, join_chars,
    lemma_find_from, lines_of, lines_spec, occurs_at, occurs_at_exec, push_all, push_str,
    slice_chars, str_byte_len, str_eq, string_of, trim_end, trim_end_chars,
};

verus! {

/// Reads a text file, whole or by lines.
pub struct ReadFile;

/// Lists a directory.
pub struct ListDir;

/// Searches files by regular expression.
pub struct Grep;

/// Writes (replaces) a file.
pub struct WriteFile;

/// Replaces a unique piece of text in a file.
pub struct EditFile;

// ---------------------------------------------------------------- read_file

/// The arguments of `read_file`.
pub struct ReadArgs {
    pub path: String,
    /// First line to read, from 1.
    pub offset: u64,
    /// Most lines to read.
    pub limit: Option<u64>,
}

/// One numbered line of `read_file` output: `<number>\t<line>\n`.
pub open spec fn numbered_line(k: nat, l: Seq<char>) -> Seq<char> {
    decimal(k) + seq!['\t'] + l + seq!['\n']
}

/// Lines `a..b` (from 0) numbered from 1.
pub open spec fn numbered(ls: Seq<Seq<char>>, a: int, b: int) -> Seq<char>
    decreases b - a,
{
    if b <= a {
        Seq::empty()
    } else {
        numbered(ls, a, b - 1) + numbered_line(b as nat, ls[b - 1])
    }
}

/// What `read_file` shows of `text` (before truncation): the whole text when neither an
/// offset past the first line nor a limit is asked; otherwise the lines from `offset` (at
/// least 1), at most `limit` of them, each numbered.
pub open spec fn read_view(text: Seq<char>, offset: u64, limit: Option<u64>) -> Seq<char> {
    let off: int = if offset < 1 {
        1
    } else {
        offset as int
    };
    let ls = lines_spec(text);
    let start = off - 1;
    if limit is None && off == 1 {
        text
    } else if start >= ls.len() {
        Seq::empty()
    } else {
        let end = match limit {
            None => ls.len() as int,
            Some(n) => if start + n < ls.len() {
                start + n
            } else {
                ls.len() as int
            },
        };
        numbered(ls, start, end)
    }
}

impl ReadFile {
    /// The tool's name.
    pub fn name(&self) -> (r: &'static str)
        ensures
            r@ == "read_file"@,
    {
        "read_file"
    }

    /// The tool's description for the model.
    pub fn description(&self) -> (r: &'static str)
        ensures
            r@ == "读取 workspace 内的文本文件。可选 offset/limit 按行读取大文件。"@,
    {
        "读取 workspace 内的文本文件。可选 offset/limit 按行读取大文件。"
    }

    /// The arguments: `path` (required), `offset` (default 1, at least 1) and `limit`.
    pub fn read_args(&self, args: &serde_json::Value) -> (r: Result<ReadArgs, Error>)
        ensures
            match r {
                Ok(a) => member_str(*args, "path"@) == Some(a.path@) && a.offset == match member_u64(
                    *args,
                    "offset"@,
                ) {
                    Some(o) => if o < 1 {
                        1
                    } else {
                        o
                    },
                    None => 1,
                } && a.limit == member_u64(*args, "limit"@),
                Err(e) => member_str(*args, "path"@) is None && e.msg() == missing_arg_msg(
                    "path"@,
                ),
            },
    {
        let path = arg_str(args, "path")?;
        let offset = match get_u64(args, "offset") {
            Some(o) => if o < 1 {
                1
            } else {
                o
            },
            None => 1,
        };
        let limit = get_u64(args, "limit");
        Ok(ReadArgs { path, offset, limit })
    }

    /// The tool's output for a file's text.
    pub fn render(&self, text: &str, offset: u64, limit: Option<u64>) -> (r: String)
        ensures
            r@ == truncate_spec(read_view(text@, offset, limit)),
    {
        let off: u64 = if offset < 1 {
            1
        } else {
            offset
        };
        if limit.is_none() && off == 1 {
            return truncate(copy_str(&string_of(&chars_of(text))));
        }
        let ls = lines_of(text);
        let n = ls.len();
        let ghost lv = ls.deep_view();
        if off - 1 >= n as u64 {
            let e = String::new();
            assert(e@ =~= read_view(text@, offset, limit));
            return truncate(e);
        }
        let start = (off - 1) as usize;
        let end: usize = match limit {
            None => n,
            Some(m) => if m < (n - start) as u64 {
                start + m as usize
            } else {
                n
            },
        };
        let mut out: Vec<char> = Vec::new();
        let mut i = start;
        assert(out@ =~= numbered(lv, start as int, start as int));
        while i < end
            invariant
                start <= i <= end <= n,
                n == ls@.len(),
                lv == ls.deep_view(),
                out@ == numbered(lv, start as int, i as int),
            decreases end - i,
        {
            let digits = decimal_chars((i + 1) as u64);
            push_all(&mut out, &digits);
            out.push('\t');
            assert(ls[i as int]@ == lv[i as int]);
            push_all(&mut out, &ls[i]);
            out.push('\n');
            i = i + 1;
            assert(out@ =~= numbered(lv, start as int, i as int));
        }
        assert(lines_spec(text@) == lv);
        assert(out@ =~= read_view(text@, offset, limit));
        truncate(string_of(&out))
    }
}

// ---------------------------------------------------------------- list_dir

/// The directory argument of `list_dir` and `grep`: `path`, or the workspace root.
pub open spec fn dir_arg(args: serde_json::Value) -> Seq<char> {
    match member_str(args, "path"@) {
        Some(p) => p,
        None => "."@,
    }
}

/// Reads the directory argument.
pub fn path_or_root(args: &serde_json::Value) -> (r: String)
    ensures
        r@ == dir_arg(*args),
{
    match get_str(args, "path") {
        Some(p) => p,
        None => string_of(&chars_of(".")),
    }
}

/// The listed name of a directory entry: directories end with `/`.
pub open spec fn listed_name(e: (String, bool)) -> Seq<char> {
    if e.1 {
        e.0@ + "/"@
    } else {
        e.0@
    }
}

/// The listed names of the entries.
pub open spec fn listed_names(es: Seq<(String, bool)>) -> Seq<Seq<char>> {
    Seq::new(es.len(), |i: int| listed_name(es[i]))
}

/// What `list_dir` shows: the names, sorted, one per line.
pub open spec fn listing_spec(es: Seq<(String, bool)>) -> Seq<char> {
    truncate_spec(join(sort_spec(listed_names(es), text_key_fn()), "\n"@))
}

impl ListDir {
    /// The tool's name.
    pub fn name(&self) -> (r: &'static str)
        ensures
            r@ == "list_dir"@,
    {
        "list_dir"
    }

    /// The tool's description for the model.
    pub fn description(&self) -> (r: &'static str)
        ensures
            r@ == "列出目录内容，目录以 / 结尾。默认列 workspace 根。"@,
    {
        "列出目录内容，目录以 / 结尾。默认列 workspace 根。"
    }

    /// The tool's output for the entries of a directory, each a name and whether it is a
    /// directory.
    pub fn render(&self, entries: &[(String, bool)]) -> (r: String)
        ensures
            r@ == listing_spec(entries@),
    {
        let mut names: Vec<String> = Vec::new();
        let mut i: usize = 0;
        while i < entries.len()
            invariant
                i <= entries@.len(),
                string_views(names@) == listed_names(entries@).take(i as int),
            decreases entries@.len() - i,
        {
            let (n, is_dir) = &entries[i];
            let mut v = chars_of(n.as_str());
            if *is_dir {
                push_str(&mut v, "/");
            }
            let ghost before = names@;
            names.push(string_of(&v));
            assert(string_views(names@) =~= string_views(before).push(v@));
            assert(listed_names(entries@).take(i + 1) =~= listed_names(entries@).take(i as int).push(
                listed_name(entries@[i as int]),
            ));
            i = i + 1;
        }
        assert(listed_names(entries@).take(entries@.len() as int) =~= listed_names(entries@));
        let sorted = sort_strings(names);
        let mut parts: Vec<Vec<char>> = Vec::new();
        let mut k: usize = 0;
        while k < sorted.len()
            invariant
                k <= sorted@.len(),
                parts.deep_view() == string_views(sorted@).take(k as int),
            decreases sorted@.len() - k,
        {
            let ghost before = parts.deep_view();
            let c = chars_of(sorted[k].as_str());
            assert(c.deep_view() =~= c@);
            parts.push(c);
            assert(parts.deep_view() =~= before.push(sorted@[k as int]@));
            assert(string_views(sorted@).take(k + 1) =~= string_views(sorted@).take(k as int).push(
                sorted@[k as int]@,
            ));
            k = k + 1;
        }
        assert(string_views(sorted@).take(sorted@.len() as int) =~= string_views(sorted@));
        assert(parts.deep_view().take(parts@.len() as int) =~= parts.deep_view());
        let nl: Vec<char> = vec!['\n'];
        assert(nl@ =~= "\n"@) by {
            reveal_strlit("\n");
        }
        let joined = join_chars(&parts, parts.len(), &nl);
        truncate(string_of(&joined))
    }
}

// ---------------------------------------------------------------- grep

/// Most hits `grep` reports.
pub const GREP_LIMIT: usize = 200;

/// The line `grep` adds when it stops at [`GREP_LIMIT`] hits.
pub const GREP_CUT_NOTE: &'static str = "[... 超过 200 条，已截断 ...]";

/// One hit: `<path>:<line number>: <line without trailing whitespace>`.
pub open spec fn hit_line(rel: Seq<char>, k: nat, line: Seq<char>) -> Seq<char> {
    rel + seq![':'] + decimal(k) + seq![':', ' '] + trim_end(line)
}

/// The hits after searching lines `i..` of a file, starting from `acc`: each matching line
/// is added, and the search stops as soon as there are [`GREP_LIMIT`] hits.
pub open spec fn grep_from(
    pattern: Seq<char>,
    rel: Seq<char>,
    ls: Seq<Seq<char>>,
    i: int,
    acc: Seq<Seq<char>>,
) -> Seq<Seq<char>>
    decreases ls.len() - i,
{
    if i < 0 || i >= ls.len() {
        acc
    } else if regex_is_match(pattern, ls[i]) {
        let next = acc.push(hit_line(rel, (i + 1) as nat, ls[i]));
        if next.len() >= GREP_LIMIT {
            next
        } else {
            grep_from(pattern, rel, ls, i + 1, next)
        }
    } else {
        grep_from(pattern, rel, ls, i + 1, acc)
    }
}

/// A search that starts under the limit ends with at most [`GREP_LIMIT`] hits, and keeps
/// the hits it started with.
pub proof fn lemma_grep_bounded(
    pattern: Seq<char>,
    rel: Seq<char>,
    ls: Seq<Seq<char>>,
    i: int,
    acc: Seq<Seq<char>>,
)
    requires
        acc.len() < GREP_LIMIT,
    ensures
        grep_from(pattern, rel, ls, i, acc).len() <= GREP_LIMIT,
        acc.is_prefix_of(grep_from(pattern, rel, ls, i, acc)),
    decreases ls.len() - i,
{
    if 0 <= i < ls.len() {
        if regex_is_match(pattern, ls[i]) {
            let next = acc.push(hit_line(rel, (i + 1) as nat, ls[i]));
            if next.len() < GREP_LIMIT {
                lemma_grep_bounded(pattern, rel, ls, i + 1, next);
            }
            assert(acc.is_prefix_of(next));
        } else {
            lemma_grep_bounded(pattern, rel, ls, i + 1, acc);
        }
    }
}

/// The message for a pattern that does not compile.
pub open spec fn regex_error_msg(m: Seq<char>) -> Seq<char> {
    "正则错误: "@ + m
}

/// Directories that `grep` does not enter.
pub open spec fn skipped_dir(name: Seq<char>) -> bool {
    name == ".git"@ || name == "node_modules"@ || name == "target"@
}

/// Whether `grep` skips a directory of that name.
pub fn is_skipped_dir(name: &str) -> (r: bool)
    ensures
        r == skipped_dir(name@),
{
    str_eq(name, ".git") || str_eq(name, "node_modules") || str_eq(name, "target")
}

/// A file is binary when one of its first 8192 bytes is zero.
pub open spec fn binary(bytes: Seq<u8>) -> bool {
    exists|i: int| 0 <= i < bytes.len() && i < 8192 && bytes[i] == 0
}

/// Whether `grep` skips a file's content as binary.
pub fn is_binary(bytes: &[u8]) -> (r: bool)
    ensures
        r == binary(bytes@),
{
    let mut i: usize = 0;
    while i < bytes.len() && i < 8192
        invariant
            i <= bytes@.len(),
            i <= 8192,
            forall|j: int| 0 <= j < i ==> bytes@[j] != 0,
        decreases bytes@.len() - i,
    {
        if bytes[i] == 0 {
            return true;
        }
        i = i + 1;
    }
    false
}

/// The hits of a `grep` run so far.
pub struct GrepHits {
    pub lines: Vec<String>,
}

impl GrepHits {
    /// No hits yet.
    pub fn new() -> (r: GrepHits)
        ensures
            r.lines@.len() == 0,
    {
        GrepHits { lines: Vec::new() }
    }

    /// Searches the text of the file at `rel` line by line, adding each matching line,
    /// until there are [`GREP_LIMIT`] hits.
    pub fn add_file(&mut self, re: &CompiledRegex, rel: &str, text: &str)
        ensures
            string_views(final(self).lines@) == grep_from(
                re.pattern(),
                rel@,
                lines_spec(text@),
                0,
                string_views(old(self).lines@),
            ),
    {
        let ls = lines_of(text);
        let ghost lv = ls.deep_view();
        let mut i: usize = 0;
        while i < ls.len()
            invariant_except_break
                i <= ls@.len(),
                lv == ls.deep_view(),
                grep_from(re.pattern(), rel@, lv, 0, string_views(old(self).lines@)) == grep_from(
                    re.pattern(),
                    rel@,
                    lv,
                    i as int,
                    string_views(self.lines@),
                ),
            ensures
                grep_from(re.pattern(), rel@, lv, 0, string_views(old(self).lines@))
                    == string_views(self.lines@),
            decreases ls@.len() - i,
        {
            let l = &ls[i];
            assert(l@ == lv[i as int]);
            let text_l = string_of(l);
            if re.is_match(text_l.as_str()) {
                let mut h = chars_of(rel);
                h.push(':');
                let digits = decimal_chars((i + 1) as u64);
                push_all(&mut h, &digits);
                h.push(':');
                h.push(' ');
                let t = trim_end_chars(l);
                push_all(&mut h, &t);
                assert(h@ =~= hit_line(rel@, (i + 1) as nat, lv[i as int]));
                let ghost before = self.lines@;
                self.lines.push(string_of(&h));
                assert(string_views(self.lines@) =~= string_views(before).push(h@));
                if self.lines.len() >= GREP_LIMIT {
                    break;
                }
            }
            i = i + 1;
        }
    }

    /// Stops the search when the limit is reached: adds [`GREP_CUT_NOTE`] and answers
    /// `true` then.
    pub fn check_limit(&mut self) -> (stop: bool)
        ensures
            stop == (old(self).lines@.len() >= GREP_LIMIT),
            stop ==> string_views(final(self).lines@) == string_views(old(self).lines@).push(
                GREP_CUT_NOTE@,
            ),
            !stop ==> final(self).lines@ == old(self).lines@,
    {
        if self.lines.len() >= GREP_LIMIT {
            let ghost before = self.lines@;
            self.lines.push(string_of(&chars_of(GREP_CUT_NOTE)));
            assert(string_views(self.lines@) =~= string_views(before).push(GREP_CUT_NOTE@));
            true
        } else {
            false
        }
    }

    /// The tool's output: the hits, one per line, or `无匹配` when there are none.
    pub fn report(&self) -> (r: String)
        ensures
            r@ == truncate_spec(
                if self.lines@.len() == 0 {
                    "无匹配"@
                } else {
                    join(string_views(self.lines@), "\n"@)
                },
            ),
    {
        if self.lines.len() == 0 {
            return truncate(string_of(&chars_of("无匹配")));
        }
        let mut parts: Vec<Vec<char>> = Vec::new();
        let mut k: usize = 0;
        while k < self.lines.len()
            invariant
                k <= self.lines@.len(),
                parts.deep_view() == string_views(self.lines@).take(k as int),
            decreases self.lines@.len() - k,
        {
            let ghost before = parts.deep_view();
            let c = chars_of(self.lines[k].as_str());
            assert(c.deep_view() =~= c@);
            parts.push(c);
            assert(parts.deep_view() =~= before.push(self.lines@[k as int]@));
            assert(string_views(self.lines@).take(k + 1) =~= string_views(self.lines@).take(
                k as int,
            ).push(self.lines@[k as int]@));
            k = k + 1;
        }
        assert(string_views(self.lines@).take(self.lines@.len() as int) =~= string_views(
            self.lines@,
        ));
        assert(parts.deep_view().take(parts@.len() as int) =~= parts.deep_view());
        let nl: Vec<char> = vec!['\n'];
        assert(nl@ =~= "\n"@) by {
            reveal_strlit("\n");
        }
        let joined = join_chars(&parts, parts.len(), &nl);
        truncate(string_of(&joined))
    }
}

impl Grep {
    /// The tool's name.
    pub fn name(&self) -> (r: &'static str)
        ensures
            r@ == "grep"@,
    {
        "grep"
    }

    /// The tool's description for the model.
    pub fn description(&self) -> (r: &'static str)
        ensures
            r@ == "在 workspace 内按正则递归搜索文本，输出 path:line: text。跳过 .git/node_modules/target 与二进制文件，最多 200 条。"@,
    {
        "在 workspace 内按正则递归搜索文本，输出 path:line: text。跳过 .git/node_modules/target 与二进制文件，最多 200 条。"
    }

    /// The compiled `pattern` argument.
    pub fn pattern(&self, args: &serde_json::Value) -> (r: Result<CompiledRegex, Error>)
        ensures
            match r {
                Ok(c) => member_str(*args, "pattern"@) == Some(c.pattern()) && regex_new_error(
                    c.pattern(),
                ) is None,
                Err(e) => match member_str(*args, "pattern"@) {
                    None => e.msg() == missing_arg_msg("pattern"@),
                    Some(p) => regex_new_error(p) matches Some(m) && e.msg() == regex_error_msg(m),
                },
            },
    {
        let p = arg_str(args, "pattern")?;
        match CompiledRegex::compile(p.as_str()) {
            Ok(c) => Ok(c),
            Err(m) => Err(Error::prefixed("正则错误: ", m.as_str())),
        }
    }
}

// ---------------------------------------------------------------- the grep walk

/// One entry of a directory that the walk reads.
pub enum WalkEntry {
    /// A subdirectory: its path and its name.
    Dir { path: String, name: String },
    /// A readable file: its path relative to the workspace, its bytes, and its text.
    File { rel: String, bytes: Vec<u8>, text: String },
    /// Anything else, or a file that could not be read.
    Other,
}

/// The hits after searching one file: none for a binary one.
pub open spec fn search_spec(
    pattern: Seq<char>,
    rel: Seq<char>,
    bytes: Seq<u8>,
    text: Seq<char>,
    hits: Seq<Seq<char>>,
) -> Seq<Seq<char>> {
    if binary(bytes) {
        hits
    } else {
        grep_from(pattern, rel, lines_spec(text), 0, hits)
    }
}

/// A `grep` walk: the paths still to read (the last one next), the hits so far, and
/// whether the hit limit stopped it.
pub struct GrepWalk {
    pub pending: Vec<String>,
    pub hits: GrepHits,
    pub stopped: bool,
}

impl GrepWalk {
    /// A walk that starts at `root`.
    pub fn new(root: String) -> (r: GrepWalk)
        ensures
            string_views(r.pending@) == seq![root@],
            r.hits.lines@.len() == 0,
            !r.stopped,
    {
        let mut pending: Vec<String> = Vec::new();
        let ghost rv = root@;
        pending.push(root);
        assert(string_views(pending@) =~= seq![rv]);
        GrepWalk { pending, hits: GrepHits::new(), stopped: false }
    }

    /// The next path to read: the one queued last. `None` once nothing is left or the hit
    /// limit was reached.
    pub fn next_path(&mut self) -> (r: Option<String>)
        ensures
            final(self).hits == old(self).hits,
            final(self).stopped == old(self).stopped,
            (old(self).stopped || old(self).pending@.len() == 0) ==> (r is None
                && final(self).pending@ == old(self).pending@),
            (!old(self).stopped && old(self).pending@.len() > 0) ==> (r matches Some(p) && p@
                == old(self).pending@.last()@ && final(self).pending@
                == old(self).pending@.drop_last()),
    {
        if self.stopped {
            return None;
        }
        self.pending.pop()
    }

    /// Searches a file's text, unless its bytes show it is binary.
    pub fn search_file(&mut self, re: &CompiledRegex, rel: &str, bytes: &[u8], text: &str)
        ensures
            final(self).pending == old(self).pending,
            final(self).stopped == old(self).stopped,
            string_views(final(self).hits.lines@) == search_spec(
                re.pattern(),
                rel@,
                bytes@,
                text@,
                string_views(old(self).hits.lines@),
            ),
    {
        if !is_binary(bytes) {
            self.hits.add_file(re, rel, text);
        }
    }

    /// Takes one entry of a directory: a subdirectory is queued unless `grep` skips its
    /// name; a file is searched. Then, once the hits reach [`GREP_LIMIT`], the cut note is
    /// added and the walk stops; the answer says whether it stopped.
    pub fn visit(&mut self, re: &CompiledRegex, entry: WalkEntry) -> (stop: bool)
        ensures
            ({
                let found = match entry {
                    WalkEntry::File { rel, bytes, text } => search_spec(
                        re.pattern(),
                        rel@,
                        bytes@,
                        text@,
                        string_views(old(self).hits.lines@),
                    ),
                    _ => string_views(old(self).hits.lines@),
                };
                &&& stop == (found.len() >= GREP_LIMIT)
                &&& string_views(final(self).hits.lines@) == if stop {
                    found.push(GREP_CUT_NOTE@)
                } else {
                    found
                }
                &&& final(self).stopped == (old(self).stopped || stop)
                &&& string_views(final(self).pending@) == match entry {
                    WalkEntry::Dir { path, name } => if skipped_dir(name@) {
                        string_views(old(self).pending@)
                    } else {
                        string_views(old(self).pending@).push(path@)
                    },
                    _ => string_views(old(self).pending@),
                }
            }),
    {
        let ghost old_pending = string_views(self.pending@);
        let ghost old_lines = string_views(self.hits.lines@);
        match entry {
            WalkEntry::Dir { path, name } => {
                if !is_skipped_dir(name.as_str()) {
                    let ghost pv = path@;
                    self.pending.push(path);
                    assert(string_views(self.pending@) =~= old_pending.push(pv));
                }
            },
            WalkEntry::File { rel, bytes, text } => {
                self.search_file(re, rel.as_str(), bytes.as_slice(), text.as_str());
            },
            WalkEntry::Other => {},
        }
        let ghost found = string_views(self.hits.lines@);
        let ghost before = self.hits.lines@;
        let stop = self.hits.check_limit();
        proof {
            if !stop {
                assert(string_views(self.hits.lines@) == string_views(before));
            }
        }
        if stop {
            self.stopped = true;
        }
        stop
    }

    /// The tool's output (see [`GrepHits::report`]).
    pub fn report(&self) -> (r: String)
        ensures
            r@ == truncate_spec(
                if self.hits.lines@.len() == 0 {
                    "无匹配"@
                } else {
                    join(string_views(self.hits.lines@), "\n"@)
                },
            ),
    {
        self.hits.report()
    }
}

// ---------------------------------------------------------------- write_file

/// A path separator (either form).
pub open spec fn is_sep(c: char) -> bool {
    c == '/' || c == '\\'
}

/// The path has a `..` component, with `/` or `\` as separator.
pub open spec fn has_parent_ref(s: Seq<char>) -> bool {
    exists|i: int|
        0 <= i && i + 2 <= s.len() && #[trigger] s[i] == '.' && s[i + 1] == '.' && (i == 0
            || is_sep(s[i - 1])) && (i + 2 == s.len() || is_sep(s[i + 2]))
}

/// Whether the path has a `..` component.
pub fn parent_ref(rel: &str) -> (r: bool)
    ensures
        r == has_parent_ref(rel@),
{
    let v = chars_of(rel);
    let mut i: usize = 0;
    while v.len() >= 2 && i <= v.len() - 2
        invariant
            v@ == rel@,
            forall|j: int|
                0 <= j < i ==> !(j + 2 <= v@.len() && #[trigger] v@[j] == '.' && v@[j + 1] == '.'
                    && (j == 0 || is_sep(v@[j - 1])) && (j + 2 == v@.len() || is_sep(v@[j + 2]))),
        decreases v@.len() - i,
    {
        if v[i] == '.' && v[i + 1] == '.' && (i == 0 || v[i - 1] == '/' || v[i - 1] == '\\') && (i
            + 2 == v.len() || v[i + 2] == '/' || v[i + 2] == '\\') {
            return true;
        }
        i = i + 1;
    }
    assert forall|j: int|
        0 <= j && j + 2 <= v@.len() && #[trigger] v@[j] == '.' && v@[j + 1] == '.' implies !((j
        == 0 || is_sep(v@[j - 1])) && (j + 2 == v@.len() || is_sep(v@[j + 2]))) by {
        assert(j < i);
    }
    false
}

/// What [`WriteFile::check_path`] decides: the path to write, or the refusal.
pub open spec fn new_path_spec(ws: Seq<char>, rel: Seq<char>, ancestor: Option<Seq<char>>) -> Result<
    Seq<char>,
    Seq<char>,
> {
    if has_parent_ref(rel) {
        Err("拒绝：路径 "@ + rel + " 含 .."@)
    } else {
        match ancestor {
            None => Err("非法路径: "@ + rel),
            Some(a) => if !path_starts_with(a, ws) {
                Err("拒绝：路径 "@ + rel + " 超出 workspace"@)
            } else {
                Ok(join_path_spec(ws, rel))
            },
        }
    }
}

/// What `write_file` reports: `已写入 <path> (<bytes> 字节)`.
pub open spec fn written_msg(rel: Seq<char>, content: Seq<char>) -> Seq<char> {
    "已写入 "@ + rel + " ("@ + decimal(byte_len(content)) + " 字节)"@
}

impl WriteFile {
    /// The tool's name.
    pub fn name(&self) -> (r: &'static str)
        ensures
            r@ == "write_file"@,
    {
        "write_file"
    }

    /// The tool's description for the model.
    pub fn description(&self) -> (r: &'static str)
        ensures
            r@ == "写入（覆盖）workspace 内的文件，父目录不存在时自动创建。"@,
    {
        "写入（覆盖）workspace 内的文件，父目录不存在时自动创建。"
    }

    /// The sandbox check of a new file, whose directories may not exist yet. `ws` is the
    /// canonical workspace; `ancestor` the canonical form of the nearest existing ancestor
    /// of the path, if there is one. A path with a `..` component is refused outright, and
    /// one whose existing ancestor is outside the workspace too. Returns the path to write.
    pub fn check_path(&self, ws: &str, rel: &str, ancestor: Option<&str>) -> (r: Result<
        String,
        Error,
    >)
        ensures
            match r {
                Ok(p) => new_path_spec(ws@, rel@, crate::config::opt_view(ancestor)) == Ok::<
                    Seq<char>,
                    Seq<char>,
                >(p@),
                Err(e) => new_path_spec(ws@, rel@, crate::config::opt_view(ancestor)) == Err::<
                    Seq<char>,
                    Seq<char>,
                >(e.msg()),
            },
    {
        if parent_ref(rel) {
            return Err(Error::with("拒绝：路径 ", rel, " 含 .."));
        }
        match ancestor {
            None => Err(Error::prefixed("非法路径: ", rel)),
            Some(a) => {
                if !path_has_prefix(a, ws) {
                    return Err(Error::with("拒绝：路径 ", rel, " 超出 workspace"));
                }
                Ok(join_path(ws, rel))
            },
        }
    }

    /// The tool's report after writing `content` to `rel`.
    pub fn report(&self, rel: &str, content: &str) -> (r: String)
        ensures
            r@ == written_msg(rel@, content@),
    {
        let mut m = chars_of("已写入 ");
        push_str(&mut m, rel);
        push_str(&mut m, " (");
        let n = str_byte_len(content);
        let digits = decimal_chars(n as u64);
        push_all(&mut m, &digits);
        push_str(&mut m, " 字节)");
        assert(m@ =~= written_msg(rel@, content@));
        string_of(&m)
    }
}

// ---------------------------------------------------------------- edit_file

/// `str::matches(pat).count()`: the non-overlapping occurrences, leftmost first; an empty
/// pattern matches at each of the `len + 1` character boundaries.
pub open spec fn count_matches(s: Seq<char>, pat: Seq<char>) -> nat
    decreases s.len(),
{
    if pat.len() == 0 {
        s.len() + 1
    } else if s.len() < pat.len() {
        0
    } else if s.take(pat.len() as int) == pat {
        1 + count_matches(s.skip(pat.len() as int), pat)
    } else {
        count_matches(s.drop_first(), pat)
    }
}

proof fn lemma_count_none(s: Seq<char>, pat: Seq<char>)
    requires
        pat.len() > 0,
        forall|j: int| !occurs_at(s, pat, j),
    ensures
        count_matches(s, pat) == 0,
    decreases s.len(),
{
    if s.len() >= pat.len() {
        assert(s.take(pat.len() as int) =~= s.subrange(0, pat.len() as int));
        assert(!occurs_at(s, pat, 0));
        assert forall|j: int| !occurs_at(s.drop_first(), pat, j) by {
            if occurs_at(s.drop_first(), pat, j) {
                assert(s.drop_first().subrange(j, j + pat.len()) =~= s.subrange(
                    j + 1,
                    j + 1 + pat.len(),
                ));
                assert(occurs_at(s, pat, j + 1));
            }
        }
        lemma_count_none(s.drop_first(), pat);
    }
}

/// `str::replacen(old, new, 1)`: the first occurrence of `old` replaced.
pub open spec fn replace_first(s: Seq<char>, old: Seq<char>, new: Seq<char>) -> Seq<char> {
    match find(s, old) {
        Some(j) => s.take(j) + new + s.skip(j + old.len()),
        None => s,
    }
}

/// What `edit_file` makes of a file's text: `old` must occur exactly once, and is replaced.
pub open spec fn edit_spec(text: Seq<char>, old: Seq<char>, new: Seq<char>) -> Result<
    Seq<char>,
    Seq<char>,
> {
    let n = count_matches(text, old);
    if n == 0 {
        Err("old 在文件中不存在"@)
    } else if n == 1 {
        Ok(replace_first(text, old, new))
    } else {
        Err("old 出现 "@ + decimal(n) + " 次，需要唯一"@)
    }
}

fn count_exec(t: &Vec<char>, o: &Vec<char>) -> (n: usize)
    requires
        o@.len() > 0,
    ensures
        n == count_matches(t@, o@),
{
    let m = o.len();
    let mut i: usize = 0;
    let mut n: usize = 0;
    assert(t@.skip(0) =~= t@);
    while m <= t.len() && i <= t.len() - m
        invariant
            m == o@.len(),
            m > 0,
            i <= t@.len(),
            n <= i,
            count_matches(t@, o@) == n + count_matches(t@.skip(i as int), o@),
        decreases t@.len() - i,
    {
        let ghost rest = t@.skip(i as int);
        if occurs_at_exec(t, o, i) {
            assert(rest.take(m as int) =~= t@.subrange(i as int, i + m));
            assert(rest.skip(m as int) =~= t@.skip(i + m));
            n = n + 1;
            i = i + m;
        } else {
            assert(rest.take(m as int) =~= t@.subrange(i as int, i + m));
            assert(rest.take(m as int) != o@);
            assert(rest.drop_first() =~= t@.skip(i + 1));
            i = i + 1;
        }
    }
    assert(t@.skip(i as int).len() < m);
    n
}

impl EditFile {
    /// The tool's name.
    pub fn name(&self) -> (r: &'static str)
        ensures
            r@ == "edit_file"@,
    {
        "edit_file"
    }

    /// The tool's description for the model.
    pub fn description(&self) -> (r: &'static str)
        ensures
            r@ == "精确字串替换：old 必须在文件中恰好出现一次。"@,
    {
        "精确字串替换：old 必须在文件中恰好出现一次。"
    }

    /// The new text of a file whose text is `text`, or the refusal.
    pub fn apply(&self, text: &str, old: &str, new: &str) -> (r: Result<String, Error>)
        requires
            text@.len() < usize::MAX,
        ensures
            match r {
                Ok(t) => edit_spec(text@, old@, new@) == Ok::<Seq<char>, Seq<char>>(t@),
                Err(e) => edit_spec(text@, old@, new@) == Err::<Seq<char>, Seq<char>>(e.msg()),
            },
    {
        let t = chars_of(text);
        let o = chars_of(old);
        let n: usize = if o.len() == 0 {
            t.len() + 1
        } else {
            count_exec(&t, &o)
        };
        if n == 0 {
            return Err(Error::from_str("old 在文件中不存在"));
        }
        if n > 1 {
            let digits = decimal_chars(n as u64);
            let ds = string_of(&digits);
            return Err(Error::with("old 出现 ", ds.as_str(), " 次，需要唯一"));
        }
        match find_chars(&t, &o) {
            Some(j) => {
                proof {
                    lemma_find_from(t@, o@, 0);
                }
                let mut out = slice_chars(&t, 0, j);
                push_str(&mut out, new);
                let tail = slice_chars(&t, j + o.len(), t.len());
                push_all(&mut out, &tail);
                assert(out@ =~= replace_first(text@, old@, new@));
                Ok(string_of(&out))
            },
            None => {
                proof {
                    lemma_find_from(t@, o@, 0);
                    if o@.len() > 0 {
                        assert forall|j: int| !occurs_at(t@, o@, j) by {
                            if j < 0 {
                            }
                        }
                        lemma_count_none(t@, o@);
                    } else {
                        assert(occurs_at(t@, o@, 0)) by {
                            assert(t@.subrange(0, 0) =~= o@);
                        }
                    }
                }
                Ok(copy_str(&string_of(&t)))
            },
        }
    }

    /// The tool's report after editing `rel`.
    pub fn report(&self, rel: &str) -> (r: String)
        ensures
            r@ == "已修改 "@ + rel@,
    {
        let mut m = chars_of("已修改 ");
        push_str(&mut m, rel);
        string_of(&m)
    }
}

} // verus!
