//! Skill documents (Markdown), on the same model as personas:
//! - built in: embedded in the application, read-only, ids `builtin/<name>`;
//! - local: `skills/<name>.md` under the configuration directory, editable, ids `<name>`.
//!
//! `[agent] skills` lists the enabled ids; their texts are appended to the system prompt.
//! The library works on a [`SkillCatalog`], the entries of both places with their texts
//! as the caller read them.
use vstd::prelude::*;
use crate::config::Config;
use crate::error::Error;
use crate::path::{join_path, join_path_spec};
use crate::persona::{file_stem_ext, stem_ext, stem_of, stem_of_exec, strip_builtin, BUILTIN_PREFIX};
use crate::sort::{key_fn, lemma_sort_map, sort_by_key, sort_spec, SortKey};
use crate::text::{
    chars_of, copy_opt, copy_str, is_prefix, slice_chars, lines_of, lines_spec, ostr, push_str, seq_eq,
    starts_with, str_eq, string_of, trim, trim_bounds, trim_chars, trim_end, trim_end_chars,
    trim_start, trim_start_char, trim_start_char_exec,
};

verus! {

/// Name of the local skill directory under the configuration directory.
pub const SKILLS_DIR: &'static str = "skills";

/// Where a skill comes from.
#[derive(Debug, Clone, Copy, PartialEq, Eq, Structural)]
pub enum SkillSource {
    Builtin,
    Local,
}

/// A skill as listed to the user.
#[derive(Debug, Clone, PartialEq)]
pub struct Skill {
    pub id: String,
    pub name: String,
    /// The document's first heading, without the `#`s.
    pub title: String,
    pub source: SkillSource,
    pub path: String,
    pub synced: bool,
    pub identical: bool,
    pub origin: Option<String>,
    pub modified: bool,
}

/// The view of a [`Skill`].
pub struct SkillV {
    pub id: Seq<char>,
    pub name: Seq<char>,
    pub title: Seq<char>,
    pub source: SkillSource,
    pub path: Seq<char>,
    pub synced: bool,
    pub identical: bool,
    pub origin: Option<Seq<char>>,
    pub modified: bool,
}

impl View for Skill {
    type V = SkillV;

    open spec fn view(&self) -> SkillV {
        SkillV {
            id: self.id@,
            name: self.name@,
            title: self.title@,
            source: self.source,
            path: self.path@,
            synced: self.synced,
            identical: self.identical,
            origin: ostr(self.origin),
            modified: self.modified,
        }
    }
}

impl Skill {
    /// A copy with the same view.
    pub fn duplicate(&self) -> (r: Skill)
        ensures
            r@ == self@,
    {
        Skill {
            id: copy_str(&self.id),
            name: copy_str(&self.name),
            title: copy_str(&self.title),
            source: self.source,
            path: copy_str(&self.path),
            synced: self.synced,
            identical: self.identical,
            origin: copy_opt(&self.origin),
            modified: self.modified,
        }
    }
}

/// One entry of a skill directory, as the caller read it.
pub struct SkillEntry {
    pub file_name: String,
    pub path: String,
    pub is_file: bool,
    /// The file's text, when it could be read as UTF-8.
    pub text: Option<String>,
}

/// The entries of both skill sources.
pub struct SkillCatalog {
    pub builtin: Vec<SkillEntry>,
    pub local: Vec<SkillEntry>,
}

/// The local skill directory under the configuration directory.
pub fn dir(config_dir: &str) -> (r: String)
    ensures
        r@ == join_path_spec(config_dir@, SKILLS_DIR@),
{
    join_path(config_dir, SKILLS_DIR)
}

// ---------------------------------------------------------------- titles

/// The title from the first line, from `i` on, whose text starts with `#` after leading
/// whitespace: that line without its leading whitespace and `#`s, trimmed.
pub open spec fn title_from(ls: Seq<Seq<char>>, i: int) -> Seq<char>
    decreases ls.len() - i,
{
    if i < 0 || i >= ls.len() {
        Seq::empty()
    } else if trim_start(ls[i]).len() > 0 && trim_start(ls[i])[0] == '#' {
        trim(trim_start_char(trim_start(ls[i]), '#'))
    } else {
        title_from(ls, i + 1)
    }
}

/// The title of a document (empty when no line is a heading).
pub open spec fn title_spec(text: Seq<char>) -> Seq<char> {
    title_from(lines_spec(text), 0)
}

/// The title of a document.
pub fn title_of(text: &str) -> (r: String)
    ensures
        r@ == title_spec(text@),
{
    let ls = lines_of(text);
    let mut i: usize = 0;
    while i < ls.len()
        invariant
            i <= ls@.len(),
            ls.deep_view() == lines_spec(text@),
            title_spec(text@) == title_from(ls.deep_view(), i as int),
        decreases ls@.len() - i,
    {
        let l = &ls[i];
        assert(l@ == ls.deep_view()[i as int]);
        let (a, _b) = trim_bounds(l);
        if a < l.len() && l[a] == '#' {
            assert(l@.skip(a as int)[0] == l@[a as int]);
            let rest = slice_chars(l, a, l.len());
            assert(rest@ =~= trim_start(l@));
            let stripped = trim_start_char_exec(&rest, '#');
            return string_of(&trim_chars(&stripped));
        }
        assert(!(trim_start(l@).len() > 0 && trim_start(l@)[0] == '#'));
        i = i + 1;
    }
    String::new()
}

// ---------------------------------------------------------------- listing

/// The skill an entry stands for: a `.md` file (for local files, not one whose name
/// starts with `.`).
pub open spec fn skill_candidate(e: SkillEntry, builtin: bool) -> Option<SkillV> {
    let stem = stem_ext(e.file_name@).0;
    let ext = stem_ext(e.file_name@).1;
    let id = if builtin {
        BUILTIN_PREFIX@ + stem
    } else {
        stem
    };
    let text = match e.text {
        Some(t) => t@,
        None => Seq::empty(),
    };
    if !e.is_file || ext != Some("md"@) || (!builtin && stem.len() > 0 && stem[0] == '.') {
        None
    } else {
        Some(
            SkillV {
                id,
                name: stem,
                title: title_spec(text),
                source: if builtin {
                    SkillSource::Builtin
                } else {
                    SkillSource::Local
                },
                path: if builtin {
                    id
                } else {
                    e.path@
                },
                synced: false,
                identical: false,
                origin: None,
                modified: false,
            },
        )
    }
}

/// The skills of a directory's entries, in entry order.
pub open spec fn skill_candidates(es: Seq<SkillEntry>, builtin: bool) -> Seq<SkillV>
    decreases es.len(),
{
    if es.len() == 0 {
        Seq::empty()
    } else {
        let rest = skill_candidates(es.drop_last(), builtin);
        match skill_candidate(es.last(), builtin) {
            Some(p) => rest.push(p),
            None => rest,
        }
    }
}

/// Skills are listed by id.
pub open spec fn skill_key(s: SkillV) -> (u64, Seq<char>) {
    (0u64, s.id)
}

/// [`skill_key`] as a spec function value.
pub open spec fn skill_key_fn() -> spec_fn(SkillV) -> (u64, Seq<char>) {
    |s: SkillV| skill_key(s)
}

/// The view, as a spec function value.
pub open spec fn skill_view_fn() -> spec_fn(Skill) -> SkillV {
    |s: Skill| s@
}

/// The views of a sequence of skills.
pub open spec fn skill_views(s: Seq<Skill>) -> Seq<SkillV> {
    s.map_values(skill_view_fn())
}

impl SortKey for Skill {
    open spec fn key(&self) -> (u64, Seq<char>) {
        skill_key(self@)
    }

    fn key_exec(&self) -> (r: (u64, Vec<char>)) {
        (0, chars_of(self.id.as_str()))
    }
}

fn text_or_empty(o: &Option<String>) -> (r: String)
    ensures
        r@ == match *o {
            Some(t) => t@,
            None => Seq::<char>::empty(),
        },
{
    match o {
        Some(t) => copy_str(t),
        None => String::new(),
    }
}

/// The skill an entry stands for.
pub fn entry_skill(e: &SkillEntry, builtin: bool) -> (r: Option<Skill>)
    ensures
        match r {
            Some(s) => skill_candidate(*e, builtin) == Some(s@),
            None => skill_candidate(*e, builtin) is None,
        },
{
    let (stem, ext) = file_stem_ext(e.file_name.as_str());
    let is_md = match &ext {
        Some(x) => {
            let md: Vec<char> = vec!['m', 'd'];
            proof {
                reveal_strlit("md");
            }
            assert(md@ =~= "md"@);
            seq_eq(x, &md)
        },
        None => false,
    };
    if !e.is_file || !is_md || (!builtin && stem.len() > 0 && stem[0] == '.') {
        return None;
    }
    let mut idv: Vec<char> = Vec::new();
    if builtin {
        push_str(&mut idv, BUILTIN_PREFIX);
    }
    let ghost before = idv@;
    let mut k: usize = 0;
    while k < stem.len()
        invariant
            k <= stem@.len(),
            idv@ == before + stem@.take(k as int),
        decreases stem@.len() - k,
    {
        idv.push(stem[k]);
        k = k + 1;
        assert(stem@.take(k as int) =~= stem@.take(k - 1).push(stem@[k - 1]));
    }
    assert(stem@.take(stem@.len() as int) =~= stem@);
    let text = text_or_empty(&e.text);
    let s = Skill {
        id: string_of(&idv),
        name: string_of(&stem),
        title: title_of(text.as_str()),
        source: if builtin {
            SkillSource::Builtin
        } else {
            SkillSource::Local
        },
        path: if builtin {
            string_of(&idv)
        } else {
            copy_str(&e.path)
        },
        synced: false,
        identical: false,
        origin: None,
        modified: false,
    };
    assert(s@.id =~= skill_candidate(*e, builtin)->0.id);
    Some(s)
}

fn entries_skills(es: &[SkillEntry], builtin: bool) -> (r: Vec<Skill>)
    ensures
        skill_views(r@) == skill_candidates(es@, builtin),
{
    let mut out: Vec<Skill> = Vec::new();
    let mut i: usize = 0;
    assert(es@.take(0) =~= Seq::<SkillEntry>::empty());
    assert(skill_views(out@) =~= Seq::<SkillV>::empty());
    while i < es.len()
        invariant
            i <= es@.len(),
            skill_views(out@) == skill_candidates(es@.take(i as int), builtin),
        decreases es@.len() - i,
    {
        assert(es@.take(i + 1).drop_last() =~= es@.take(i as int));
        assert(es@.take(i + 1).last() == es@[i as int]);
        match entry_skill(&es[i], builtin) {
            Some(p) => {
                let ghost before = out@;
                out.push(p);
                assert(skill_views(out@) =~= skill_views(before).push(p@));
            },
            None => {},
        }
        i = i + 1;
    }
    assert(es@.take(es@.len() as int) =~= es@);
    out
}

fn sort_skills(v: Vec<Skill>) -> (r: Vec<Skill>)
    ensures
        skill_views(r@) == sort_spec(skill_views(v@), skill_key_fn()),
{
    let r = sort_by_key(v);
    proof {
        assert forall|y: Skill| #[trigger] key_fn::<Skill>()(y) == skill_key_fn()(
            skill_view_fn()(y),
        ) by {}
        lemma_sort_map(v@, skill_view_fn(), key_fn::<Skill>(), skill_key_fn());
    }
    r
}

// ---------------------------------------------------------------- texts

/// The first entry from `i` on that is a file named `name`.
pub open spec fn file_named_from(es: Seq<SkillEntry>, name: Seq<char>, i: int) -> Option<int>
    decreases es.len() - i,
{
    if i < 0 || i >= es.len() {
        None
    } else if es[i].is_file && es[i].file_name@ == name {
        Some(i)
    } else {
        file_named_from(es, name, i + 1)
    }
}

/// The first entry from `i` on at `path`.
pub open spec fn at_path_from(es: Seq<SkillEntry>, path: Seq<char>, i: int) -> Option<int>
    decreases es.len() - i,
{
    if i < 0 || i >= es.len() {
        None
    } else if es[i].path@ == path {
        Some(i)
    } else {
        at_path_from(es, path, i + 1)
    }
}

fn find_file(es: &[SkillEntry], name: &str) -> (r: Option<usize>)
    ensures
        match r {
            Some(k) => file_named_from(es@, name@, 0) == Some(k as int) && k < es@.len(),
            None => file_named_from(es@, name@, 0) is None,
        },
{
    let mut i: usize = 0;
    while i < es.len()
        invariant
            i <= es@.len(),
            file_named_from(es@, name@, 0) == file_named_from(es@, name@, i as int),
        decreases es@.len() - i,
    {
        if es[i].is_file && str_eq(es[i].file_name.as_str(), name) {
            return Some(i);
        }
        i = i + 1;
    }
    None
}

fn find_path(es: &[SkillEntry], path: &str) -> (r: Option<usize>)
    ensures
        match r {
            Some(k) => at_path_from(es@, path@, 0) == Some(k as int) && k < es@.len(),
            None => at_path_from(es@, path@, 0) is None,
        },
{
    let mut i: usize = 0;
    while i < es.len()
        invariant
            i <= es@.len(),
            at_path_from(es@, path@, 0) == at_path_from(es@, path@, i as int),
        decreases es@.len() - i,
    {
        if str_eq(es[i].path.as_str(), path) {
            return Some(i);
        }
        i = i + 1;
    }
    None
}

/// The text of a built-in skill: the file `<stem>.md`, when it is UTF-8.
pub open spec fn builtin_text_spec(cat: SkillCatalog, stem: Seq<char>) -> Option<Seq<char>> {
    match file_named_from(cat.builtin@, stem + ".md"@, 0) {
        Some(i) => ostr(cat.builtin@[i].text),
        None => None,
    }
}

/// The text of a local skill file (empty when it cannot be read).
pub open spec fn local_text_spec(cat: SkillCatalog, path: Seq<char>) -> Seq<char> {
    match at_path_from(cat.local@, path, 0) {
        Some(i) => match cat.local@[i].text {
            Some(t) => t@,
            None => Seq::empty(),
        },
        None => Seq::empty(),
    }
}

/// The text of a built-in skill.
pub fn builtin_text(cat: &SkillCatalog, stem: &str) -> (r: Option<String>)
    ensures
        ostr(r) == builtin_text_spec(*cat, stem@),
{
    let mut f = chars_of(stem);
    push_str(&mut f, ".md");
    let fname = string_of(&f);
    match find_file(cat.builtin.as_slice(), fname.as_str()) {
        Some(i) => copy_opt(&cat.builtin[i].text),
        None => None,
    }
}

fn local_text(cat: &SkillCatalog, path: &str) -> (r: String)
    ensures
        r@ == local_text_spec(*cat, path@),
{
    match find_path(cat.local.as_slice(), path) {
        Some(i) => text_or_empty(&cat.local[i].text),
        None => String::new(),
    }
}

/// A local copy holds the text of the built-in skill `stem`, up to trailing whitespace.
pub open spec fn skill_identical_spec(cat: SkillCatalog, stem: Seq<char>, l: SkillV) -> bool {
    match builtin_text_spec(cat, stem) {
        Some(t) => trim_end(t) == trim_end(local_text_spec(cat, l.path)),
        None => false,
    }
}

fn skill_identical(cat: &SkillCatalog, stem: &str, l: &Skill) -> (r: bool)
    ensures
        r == skill_identical_spec(*cat, stem@, l@),
{
    match builtin_text(cat, stem) {
        Some(t) => {
            let lt = local_text(cat, l.path.as_str());
            seq_eq(&trim_end_chars(&chars_of(t.as_str())), &trim_end_chars(&chars_of(lt.as_str())))
        },
        None => false,
    }
}

// ---------------------------------------------------------------- merging

/// The first skill from `i` on with that id.
pub open spec fn first_skill(s: Seq<SkillV>, id: Seq<char>, i: int) -> Option<int>
    decreases s.len() - i,
{
    if i < 0 || i >= s.len() {
        None
    } else if s[i].id == id {
        Some(i)
    } else {
        first_skill(s, id, i + 1)
    }
}

/// The first `i` built-in skills marked against the local ones, and the local ones marked
/// so far.
pub open spec fn skill_merge_from(b: Seq<SkillV>, l: Seq<SkillV>, cat: SkillCatalog, i: int) -> (
    Seq<SkillV>,
    Seq<SkillV>,
)
    decreases i,
{
    if i <= 0 {
        (Seq::empty(), l)
    } else {
        let prev = skill_merge_from(b, l, cat, i - 1);
        let bi = b[i - 1];
        let stem = stem_of(bi.id);
        match first_skill(prev.1, stem, 0) {
            None => (prev.0.push(bi), prev.1),
            Some(j) => {
                let ident = skill_identical_spec(cat, stem, prev.1[j]);
                (
                    prev.0.push(SkillV { synced: true, identical: ident, ..bi }),
                    prev.1.update(
                        j,
                        SkillV { origin: Some(bi.id), modified: !ident, ..prev.1[j] },
                    ),
                )
            },
        }
    }
}

/// All skills of the catalog, as [`list`] returns them.
pub open spec fn skill_list_spec(cat: SkillCatalog) -> Seq<SkillV> {
    let b = sort_spec(skill_candidates(cat.builtin@, true), skill_key_fn());
    let l = sort_spec(skill_candidates(cat.local@, false), skill_key_fn());
    skill_merge_from(b, l, cat, b.len() as int).0 + skill_merge_from(b, l, cat, b.len() as int).1
}

fn find_skill(s: &Vec<Skill>, id: &str) -> (r: Option<usize>)
    ensures
        match r {
            Some(k) => first_skill(skill_views(s@), id@, 0) == Some(k as int) && k < s@.len(),
            None => first_skill(skill_views(s@), id@, 0) is None,
        },
{
    let mut i: usize = 0;
    while i < s.len()
        invariant
            i <= s@.len(),
            first_skill(skill_views(s@), id@, 0) == first_skill(skill_views(s@), id@, i as int),
        decreases s@.len() - i,
    {
        if str_eq(s[i].id.as_str(), id) {
            return Some(i);
        }
        i = i + 1;
    }
    None
}

/// All skills: the built-in ones by id, then the local ones by id. A built-in skill with a
/// local file of the same name is `synced`, and `identical` when the texts agree up to
/// trailing whitespace; the local file gets the built-in id as `origin` and is `modified`
/// when they differ.
pub fn list(cat: &SkillCatalog) -> (r: Vec<Skill>)
    ensures
        skill_views(r@) == skill_list_spec(*cat),
{
    let builtin = sort_skills(entries_skills(cat.builtin.as_slice(), true));
    let local = sort_skills(entries_skills(cat.local.as_slice(), false));
    let ghost bv = skill_views(builtin@);
    let ghost lv = skill_views(local@);
    let mut bo: Vec<Skill> = Vec::new();
    let mut lo = local;
    let mut i: usize = 0;
    assert(skill_views(bo@) =~= Seq::<SkillV>::empty());
    while i < builtin.len()
        invariant
            i <= builtin@.len(),
            bv == skill_views(builtin@),
            skill_views(bo@) == skill_merge_from(bv, lv, *cat, i as int).0,
            skill_views(lo@) == skill_merge_from(bv, lv, *cat, i as int).1,
        decreases builtin@.len() - i,
    {
        let b = &builtin[i];
        let stem = stem_of_exec(b.id.as_str());
        assert(bv[i as int] == b@);
        match find_skill(&lo, stem.as_str()) {
            None => {
                let ghost before = bo@;
                bo.push(b.duplicate());
                assert(skill_views(bo@) =~= skill_views(before).push(b@));
            },
            Some(j) => {
                assert(skill_views(lo@)[j as int] == lo@[j as int]@);
                let ident = skill_identical(cat, stem.as_str(), &lo[j]);
                let mut nb = b.duplicate();
                nb.synced = true;
                nb.identical = ident;
                let ghost before = bo@;
                bo.push(nb);
                assert(skill_views(bo@) =~= skill_views(before).push(
                    SkillV { synced: true, identical: ident, ..b@ },
                ));
                let mut nl = lo[j].duplicate();
                nl.origin = Some(copy_str(&b.id));
                nl.modified = !ident;
                let ghost lbefore = lo@;
                lo.set(j, nl);
                assert(skill_views(lo@) =~= skill_views(lbefore).update(
                    j as int,
                    SkillV { origin: Some(b@.id), modified: !ident, ..lbefore[j as int]@ },
                ));
            },
        }
        i = i + 1;
    }
    let ghost bo_v = skill_views(bo@);
    let ghost lo_v = skill_views(lo@);
    let mut out = bo;
    let mut k: usize = 0;
    while k < lo.len()
        invariant
            k <= lo@.len(),
            skill_views(out@) == bo_v + lo_v.take(k as int),
            lo_v == skill_views(lo@),
        decreases lo@.len() - k,
    {
        let ghost before = out@;
        out.push(lo[k].duplicate());
        assert(skill_views(out@) =~= skill_views(before).push(lo@[k as int]@));
        assert(lo_v.take(k + 1) =~= lo_v.take(k as int).push(lo_v[k as int]));
        k = k + 1;
    }
    assert(lo_v.take(lo@.len() as int) =~= lo_v);
    out
}

// ---------------------------------------------------------------- loading

/// What [`load`] returns: the text, or the error message.
pub open spec fn load_spec(cat: SkillCatalog, id: Seq<char>) -> Result<Seq<char>, Seq<char>> {
    if is_prefix(BUILTIN_PREFIX@, id) {
        match builtin_text_spec(cat, stem_of(id)) {
            Some(t) => Ok(t),
            None => Err("内置 skill 不存在: "@ + id),
        }
    } else {
        match file_named_from(cat.local@, id + ".md"@, 0) {
            Some(i) => match cat.local@[i].text {
                Some(t) => Ok(t@),
                None => Err("skill 不存在: "@ + id),
            },
            None => Err("skill 不存在: "@ + id),
        }
    }
}

/// The text of skill `id`: a built-in one, or the local file `<id>.md`.
pub fn load(cat: &SkillCatalog, id: &str) -> (r: Result<String, Error>)
    ensures
        match r {
            Ok(t) => load_spec(*cat, id@) == Ok::<Seq<char>, Seq<char>>(t@),
            Err(e) => load_spec(*cat, id@) == Err::<Seq<char>, Seq<char>>(e.msg()),
        },
{
    match strip_builtin(id) {
        Some(stem) => match builtin_text(cat, stem.as_str()) {
            Some(t) => Ok(t),
            None => Err(Error::prefixed("内置 skill 不存在: ", id)),
        },
        None => {
            let mut f = chars_of(id);
            push_str(&mut f, ".md");
            let fname = string_of(&f);
            match find_file(cat.local.as_slice(), fname.as_str()) {
                Some(i) => match &cat.local[i].text {
                    Some(t) => Ok(copy_str(t)),
                    None => Err(Error::prefixed("skill 不存在: ", id)),
                },
                None => Err(Error::prefixed("skill 不存在: ", id)),
            }
        },
    }
}

/// `str::trim_start_matches` with a text pattern: every leading copy of `p` removed.
pub open spec fn trim_start_str(s: Seq<char>, p: Seq<char>) -> Seq<char>
    decreases s.len(),
{
    if p.len() > 0 && is_prefix(p, s) {
        trim_start_str(s.skip(p.len() as int), p)
    } else {
        s
    }
}

fn trim_start_str_exec(s: &str, p: &str) -> (r: String)
    ensures
        r@ == trim_start_str(s@, p@),
{
    let v = chars_of(s);
    let pv = chars_of(p);
    let mut i: usize = 0;
    assert(v@.skip(0) =~= v@);
    while pv.len() > 0 && i <= v.len() && starts_with(&slice_chars(&v, i, v.len()), &pv)
        invariant
            i <= v@.len(),
            trim_start_str(s@, p@) == trim_start_str(v@.skip(i as int), p@),
            v@ == s@,
            pv@ == p@,
        decreases v@.len() - i,
    {
        proof {
            let t = v@.skip(i as int);
            assert(t.take(p@.len() as int) == p@);
            assert(t.skip(p@.len() as int) =~= v@.skip(i + pv@.len()));
        }
        i = i + pv.len();
    }
    string_of(&slice_chars(&v, i, v.len()))
}

/// The enabled skills from `i` on that can be loaded, as (name, text); the name is the id
/// without the built-in prefix.
pub open spec fn enabled_from(cat: SkillCatalog, ids: Seq<String>, i: int) -> Seq<
    (Seq<char>, Seq<char>),
>
    decreases i,
{
    if i <= 0 {
        Seq::empty()
    } else {
        let rest = enabled_from(cat, ids, i - 1);
        match load_spec(cat, ids[i - 1]@) {
            Ok(t) => rest.push((trim_start_str(ids[i - 1]@, BUILTIN_PREFIX@), t)),
            Err(_) => rest,
        }
    }
}

/// The views of (name, text) pairs.
pub open spec fn pair_views(s: Seq<(String, String)>) -> Seq<(Seq<char>, Seq<char>)> {
    Seq::new(s.len(), |i: int| (s[i].0@, s[i].1@))
}

/// The enabled skills as (name, text), in the configured order; those that cannot be
/// loaded are skipped so that they do not block the conversation.
pub fn load_enabled(cat: &SkillCatalog, cfg: &Config) -> (r: Vec<(String, String)>)
    ensures
        pair_views(r@) == enabled_from(*cat, cfg.agent.skills@, cfg.agent.skills@.len() as int),
{
    let ids = &cfg.agent.skills;
    let mut out: Vec<(String, String)> = Vec::new();
    let mut i: usize = 0;
    assert(pair_views(out@) =~= Seq::<(Seq<char>, Seq<char>)>::empty());
    while i < ids.len()
        invariant
            i <= ids@.len(),
            pair_views(out@) == enabled_from(*cat, ids@, i as int),
        decreases ids@.len() - i,
    {
        match load(cat, ids[i].as_str()) {
            Ok(t) => {
                let name = trim_start_str_exec(ids[i].as_str(), BUILTIN_PREFIX);
                let ghost before = out@;
                out.push((name, t));
                assert(pair_views(out@) =~= pair_views(before).push((name@, t@)));
            },
            Err(_) => {},
        }
        i = i + 1;
    }
    out
}

// ---------------------------------------------------------------- saving and syncing

/// Where a new text for skill `id` is to be written: `<id>.md` in the local directory.
/// Built-in skills are read-only.
pub fn save(config_dir: &str, id: &str) -> (r: Result<String, Error>)
    ensures
        match r {
            Ok(p) => !is_prefix(BUILTIN_PREFIX@, id@) && p@ == join_path_spec(
                join_path_spec(config_dir@, SKILLS_DIR@),
                id@ + ".md"@,
            ),
            Err(e) => is_prefix(BUILTIN_PREFIX@, id@) && e.msg() == "内置 skill 只读，请先同步到本地"@,
        },
{
    if strip_builtin(id).is_some() {
        return Err(Error::from_str("内置 skill 只读，请先同步到本地"));
    }
    let d = dir(config_dir);
    let mut f = chars_of(id);
    push_str(&mut f, ".md");
    let fname = string_of(&f);
    Ok(join_path(d.as_str(), fname.as_str()))
}

/// What [`sync_to_local`] returns: the local id and the text to write, or the refusal.
pub open spec fn skill_sync_spec(cat: SkillCatalog, id: Seq<char>, overwrite: bool, exists: bool) -> Result<
    (Seq<char>, Seq<char>),
    Seq<char>,
> {
    if !is_prefix(BUILTIN_PREFIX@, id) {
        Err("只有内置 skill 可以同步"@)
    } else {
        match builtin_text_spec(cat, stem_of(id)) {
            None => Err("内置 skill 不存在: "@ + id),
            Some(t) => if exists && !overwrite {
                Err("本地已有 "@ + stem_of(id) + "，请确认是否覆盖"@)
            } else {
                Ok((stem_of(id), t))
            },
        }
    }
}

/// Decides the copy of built-in skill `id` to `<stem>.md` in the local directory.
/// `exists` tells whether that file is already there; it is only replaced with
/// `overwrite`. Returns the local id and the text to write.
pub fn sync_to_local(cat: &SkillCatalog, id: &str, overwrite: bool, exists: bool) -> (r: Result<
    (String, String),
    Error,
>)
    ensures
        match r {
            Ok((s, t)) => skill_sync_spec(*cat, id@, overwrite, exists) == Ok::<
                (Seq<char>, Seq<char>),
                Seq<char>,
            >((s@, t@)),
            Err(e) => skill_sync_spec(*cat, id@, overwrite, exists) == Err::<
                (Seq<char>, Seq<char>),
                Seq<char>,
            >(e.msg()),
        },
{
    let stem = match strip_builtin(id) {
        Some(s) => s,
        None => {
            return Err(Error::from_str("只有内置 skill 可以同步"));
        },
    };
    let text = match builtin_text(cat, stem.as_str()) {
        Some(t) => t,
        None => {
            return Err(Error::prefixed("内置 skill 不存在: ", id));
        },
    };
    if exists && !overwrite {
        return Err(Error::with("本地已有 ", stem.as_str(), "，请确认是否覆盖"));
    }
    Ok((stem, text))
}

} // verus!
