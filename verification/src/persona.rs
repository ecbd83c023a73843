//! Personas (system prompts) come from two places:
//! - built in: embedded in the application, read-only, with ids `builtin/<name>`;
//! - local: the `personas/` directory under the configuration directory, editable, with
//!   ids `<name>`.
//!
//! In both, a persona is either a `<name>.md` file (a picture of the same name is its
//! avatar) or a `<slug>/` role directory holding `prompt.md`, `role.json` and `avatar.*`.
//! A built-in persona can be copied ("synced") to the local directory to get an editable
//! copy.
//!
//! The library works on a [`Catalog`]: the entries of both places, with the texts and
//! pictures they hold, as the caller read them. Listing, lookup, the marking of synced
//! copies and the decisions of saving and syncing are computed here.
use vstd::prelude::*;
use crate::config::Config;
use crate::error::Error;
use crate::path::{join_path, join_path_spec};
use crate::sort::{
    key_fn, key_le, keys_of, lemma_sort_map, lemma_sort_spec_sorted, sort_by_key, sort_spec,
    SortKey,
};
use crate::text::{
    copy_opt, copy_str, ostr,
    chars_of, is_prefix, push_all, push_str, rfind, rfind_chars, slice_chars, starts_with,
    str_eq, string_of, trim_end, trim_end_chars, seq_eq,
};

verus! {

/// Name of the local persona directory under the configuration directory.
pub const PERSONAS_DIR: &'static str = "personas";
/// Prefix of the ids of built-in personas.
pub const BUILTIN_PREFIX: &'static str = "builtin/";
/// The persona used when the configured one cannot be loaded.
pub const DEFAULT_ID: &'static str = "builtin/venus";
/// Description of a role directory whose `role.json` gives none.
pub const ROLE_DESCRIPTION: &'static str = "角色目录";
/// Number of picture formats an avatar may have.
pub const AVATAR_COUNT: usize = 5;

/// The form of a persona.
#[derive(Debug, Clone, Copy, PartialEq, Eq, Structural)]
pub enum PersonaKind {
    /// A single Markdown file.
    Md,
    /// A role directory.
    Role,
}

/// Where a persona comes from.
#[derive(Debug, Clone, Copy, PartialEq, Eq, Structural)]
pub enum PersonaSource {
    Builtin,
    Local,
}

/// A persona as listed to the user.
#[derive(Debug, Clone, PartialEq)]
pub struct Persona {
    pub id: String,
    pub name: String,
    pub description: String,
    pub kind: PersonaKind,
    pub source: PersonaSource,
    /// Local: the file or directory; built in: `builtin/<name>`.
    pub path: String,
    pub has_bible: bool,
    /// The avatar as a data URL.
    pub avatar: Option<String>,
    /// Built in: a local copy of the same name exists.
    pub synced: bool,
    /// Built in: the local copy holds the same texts (prompt and character bible).
    pub identical: bool,
    /// Local: the id of the built-in persona of the same name.
    pub origin: Option<String>,
    /// Local: the copy differs from the built-in persona.
    pub modified: bool,
}

/// The view of a [`Persona`].
pub struct PersonaV {
    pub id: Seq<char>,
    pub name: Seq<char>,
    pub description: Seq<char>,
    pub kind: PersonaKind,
    pub source: PersonaSource,
    pub path: Seq<char>,
    pub has_bible: bool,
    pub avatar: Option<Seq<char>>,
    pub synced: bool,
    pub identical: bool,
    pub origin: Option<Seq<char>>,
    pub modified: bool,
}

impl View for Persona {
    type V = PersonaV;

    open spec fn view(&self) -> PersonaV {
        PersonaV {
            id: self.id@,
            name: self.name@,
            description: self.description@,
            kind: self.kind,
            source: self.source,
            path: self.path@,
            has_bible: self.has_bible,
            avatar: ostr(self.avatar),
            synced: self.synced,
            identical: self.identical,
            origin: ostr(self.origin),
            modified: self.modified,
        }
    }
}

impl Persona {
    /// A copy with the same view.
    pub fn duplicate(&self) -> (r: Persona)
        ensures
            r@ == self@,
    {
        Persona {
            id: copy_str(&self.id),
            name: copy_str(&self.name),
            description: copy_str(&self.description),
            kind: self.kind,
            source: self.source,
            path: copy_str(&self.path),
            has_bible: self.has_bible,
            avatar: copy_opt(&self.avatar),
            synced: self.synced,
            identical: self.identical,
            origin: copy_opt(&self.origin),
            modified: self.modified,
        }
    }
}

/// One entry of a persona directory (local, or the embedded one), as the caller read it.
pub struct PersonaEntry {
    /// The file or directory name.
    pub file_name: String,
    /// The full path (local entries).
    pub path: String,
    pub is_file: bool,
    pub is_dir: bool,
    /// A directory that holds a `prompt.md` file.
    pub has_prompt: bool,
    /// The text of the file, or of the directory's `prompt.md`, when it could be read.
    pub prompt: Option<String>,
    /// `name` and `description` from the directory's `role.json`.
    pub role_name: Option<String>,
    pub role_description: Option<String>,
    /// A directory that holds a `character_bible.md` file, and its text when readable.
    pub has_bible: bool,
    pub bible: Option<String>,
    /// The bytes of each avatar picture that exists, in the order of [`avatar_ext`].
    pub avatars: Vec<Option<Vec<u8>>>,
}

/// The entries of both persona sources.
pub struct Catalog {
    pub builtin: Vec<PersonaEntry>,
    pub local: Vec<PersonaEntry>,
}

/// The local persona directory under the configuration directory.
pub fn dir(config_dir: &str) -> (r: String)
    ensures
        r@ == join_path_spec(config_dir@, PERSONAS_DIR@),
{
    join_path(config_dir, PERSONAS_DIR)
}

// ---------------------------------------------------------------- file names

/// `Path::file_stem` and `Path::extension` of a file name: split at the last `.`, except
/// that a name without a `.` after its first character (and `..`) has no extension.
pub open spec fn stem_ext(name: Seq<char>) -> (Seq<char>, Option<Seq<char>>) {
    if name == seq!['.', '.'] {
        (name, None)
    } else {
        match rfind(name, seq!['.']) {
            Some(i) => if i == 0 {
                (name, None)
            } else {
                (name.take(i), Some(name.skip(i + 1)))
            },
            None => (name, None),
        }
    }
}

/// The stem and extension of a file name.
pub fn file_stem_ext(name: &str) -> (r: (Vec<char>, Option<Vec<char>>))
    ensures
        r.0@ == stem_ext(name@).0,
        match r.1 {
            Some(e) => stem_ext(name@).1 == Some(e@),
            None => stem_ext(name@).1 is None,
        },
{
    let v = chars_of(name);
    let dot: Vec<char> = vec!['.'];
    assert(dot@ =~= seq!['.']);
    if v.len() == 2 && v[0] == '.' && v[1] == '.' {
        assert(v@ =~= seq!['.', '.']);
        return (v, None);
    }
    assert(v@ != seq!['.', '.']);
    match rfind_chars(&v, &dot) {
        Some(i) => {
            proof {
                crate::text::lemma_rfind_upto(v@, dot@, v@.len() - 1);
            }
            if i == 0 {
                (v, None)
            } else {
                let stem = slice_chars(&v, 0, i);
                let ext = slice_chars(&v, i + 1, v.len());
                assert(stem@ =~= v@.take(i as int));
                assert(ext@ =~= v@.skip(i + 1));
                (stem, Some(ext))
            }
        },
        None => (v, None),
    }
}

// ---------------------------------------------------------------- base64 and avatars

/// The base64 digit of a six-bit value.
pub open spec fn b64_digit(n: int) -> char {
    if n < 26 {
        (65 + n) as char
    } else if n < 52 {
        (97 + (n - 26)) as char
    } else if n < 62 {
        (48 + (n - 52)) as char
    } else if n == 62 {
        '+'
    } else {
        '/'
    }
}

/// Standard base64 with `=` padding: each three bytes become four digits of six bits.
pub open spec fn base64(b: Seq<u8>) -> Seq<char>
    decreases b.len(),
{
    if b.len() == 0 {
        Seq::empty()
    } else if b.len() == 1 {
        seq![b64_digit(b[0] as int / 4), b64_digit((b[0] as int % 4) * 16), '=', '=']
    } else if b.len() == 2 {
        seq![
            b64_digit(b[0] as int / 4),
            b64_digit((b[0] as int % 4) * 16 + b[1] as int / 16),
            b64_digit((b[1] as int % 16) * 4),
            '=',
        ]
    } else {
        seq![
            b64_digit(b[0] as int / 4),
            b64_digit((b[0] as int % 4) * 16 + b[1] as int / 16),
            b64_digit((b[1] as int % 16) * 4 + b[2] as int / 64),
            b64_digit(b[2] as int % 64),
        ] + base64(b.skip(3))
    }
}

fn b64_digit_exec(n: u8) -> (c: char)
    requires
        n < 64,
    ensures
        c == b64_digit(n as int),
{
    if n < 26 {
        (65u8 + n) as char
    } else if n < 52 {
        (97u8 + (n - 26)) as char
    } else if n < 62 {
        (48u8 + (n - 52)) as char
    } else if n == 62 {
        '+'
    } else {
        '/'
    }
}

/// Standard base64 of the bytes.
pub fn base64_encode(bytes: &[u8]) -> (r: String)
    ensures
        r@ == base64(bytes@),
{
    let mut out: Vec<char> = Vec::new();
    let mut i: usize = 0;
    let n = bytes.len();
    assert(bytes@.skip(0) =~= bytes@);
    while i < n
        invariant
            n == bytes@.len(),
            i <= n,
            out@ + base64(bytes@.skip(i as int)) == base64(bytes@),
        decreases n - i,
    {
        let ghost rest = bytes@.skip(i as int);
        let b0 = bytes[i];
        assert(rest[0] == b0);
        out.push(b64_digit_exec(b0 / 4));
        if n - i == 1 {
            out.push(b64_digit_exec((b0 % 4) * 16));
            out.push('=');
            out.push('=');
            i = n;
        } else {
            let b1 = bytes[i + 1];
            assert(rest[1] == b1);
            out.push(b64_digit_exec((b0 % 4) * 16 + b1 / 16));
            if n - i == 2 {
                out.push(b64_digit_exec((b1 % 16) * 4));
                out.push('=');
                i = n;
            } else {
                let b2 = bytes[i + 2];
                assert(rest[2] == b2);
                out.push(b64_digit_exec((b1 % 16) * 4 + b2 / 64));
                out.push(b64_digit_exec(b2 % 64));
                assert(rest.skip(3) =~= bytes@.skip(i + 3));
                i = i + 3;
            }
        }
        assert(bytes@.skip(i as int).len() == 0 ==> bytes@.skip(i as int) =~= Seq::<u8>::empty());
    }
    assert(bytes@.skip(i as int) =~= Seq::<u8>::empty());
    assert(out@ + Seq::<char>::empty() =~= out@);
    string_of(&out)
}

/// `data:<mime>;base64,<digits>`.
pub open spec fn data_url_spec(bytes: Seq<u8>, mime: Seq<char>) -> Seq<char> {
    "data:"@ + mime + ";base64,"@ + base64(bytes)
}

/// The bytes as a data URL of the given type.
pub fn data_url(bytes: &[u8], mime: &str) -> (r: String)
    ensures
        r@ == data_url_spec(bytes@, mime@),
{
    let mut out: Vec<char> = Vec::new();
    push_str(&mut out, "data:");
    push_str(&mut out, mime);
    push_str(&mut out, ";base64,");
    let digits = base64_encode(bytes);
    push_str(&mut out, digits.as_str());
    assert(out@ =~= data_url_spec(bytes@, mime@));
    string_of(&out)
}

/// The file extensions an avatar may have, in the order they are tried.
pub open spec fn avatar_ext_spec(i: int) -> Seq<char> {
    if i == 0 {
        "png"@
    } else if i == 1 {
        "jpg"@
    } else if i == 2 {
        "jpeg"@
    } else if i == 3 {
        "webp"@
    } else {
        "gif"@
    }
}

/// The media type of each avatar extension.
pub open spec fn avatar_mime_spec(i: int) -> Seq<char> {
    if i == 0 {
        "image/png"@
    } else if i == 1 || i == 2 {
        "image/jpeg"@
    } else if i == 3 {
        "image/webp"@
    } else {
        "image/gif"@
    }
}

/// The `i`-th avatar extension.
pub fn avatar_ext(i: usize) -> (r: &'static str)
    requires
        i < AVATAR_COUNT,
    ensures
        r@ == avatar_ext_spec(i as int),
{
    if i == 0 {
        "png"
    } else if i == 1 {
        "jpg"
    } else if i == 2 {
        "jpeg"
    } else if i == 3 {
        "webp"
    } else {
        "gif"
    }
}

fn avatar_mime(i: usize) -> (r: &'static str)
    requires
        i < AVATAR_COUNT,
    ensures
        r@ == avatar_mime_spec(i as int),
{
    if i == 0 {
        "image/png"
    } else if i == 1 || i == 2 {
        "image/jpeg"
    } else if i == 3 {
        "image/webp"
    } else {
        "image/gif"
    }
}

/// The avatar from the first picture, in extension order from `i`, that exists.
pub open spec fn first_avatar(c: Seq<Option<Vec<u8>>>, i: int) -> Option<Seq<char>>
    decreases AVATAR_COUNT - i,
{
    if i < 0 || i >= AVATAR_COUNT || i >= c.len() {
        None
    } else {
        match c[i] {
            Some(b) => Some(data_url_spec(b@, avatar_mime_spec(i))),
            None => first_avatar(c, i + 1),
        }
    }
}

/// The avatar of a persona from its candidate pictures (the bytes of `<base>.<ext>` for
/// each extension of [`avatar_ext`], where that file exists): the first that exists, as a
/// data URL.
pub fn pick_avatar(candidates: &[Option<Vec<u8>>]) -> (r: Option<String>)
    ensures
        ostr(r) == first_avatar(candidates@, 0),
{
    let mut i: usize = 0;
    while i < AVATAR_COUNT && i < candidates.len()
        invariant
            i <= AVATAR_COUNT,
            first_avatar(candidates@, 0) == first_avatar(candidates@, i as int),
        decreases AVATAR_COUNT - i,
    {
        match &candidates[i] {
            Some(b) => {
                return Some(data_url(b.as_slice(), avatar_mime(i)));
            },
            None => {},
        }
        i = i + 1;
    }
    None
}

// ---------------------------------------------------------------- listing

/// The value, or `d` when there is none.
pub open spec fn or_else(o: Option<String>, d: Seq<char>) -> Seq<char> {
    match o {
        Some(s) => s@,
        None => d,
    }
}

/// The persona an entry stands for, if any: a `.md` file, or a directory with a
/// `prompt.md`; names starting with `.` are skipped.
pub open spec fn candidate(e: PersonaEntry, builtin: bool) -> Option<PersonaV> {
    let stem = stem_ext(e.file_name@).0;
    let ext = stem_ext(e.file_name@).1;
    let id = if builtin {
        BUILTIN_PREFIX@ + stem
    } else {
        stem
    };
    let source = if builtin {
        PersonaSource::Builtin
    } else {
        PersonaSource::Local
    };
    let path = if builtin {
        id
    } else {
        e.path@
    };
    if stem.len() > 0 && stem[0] == '.' {
        None
    } else if e.is_file && ext == Some("md"@) {
        Some(
            PersonaV {
                id,
                name: stem,
                description: Seq::empty(),
                kind: PersonaKind::Md,
                source,
                path,
                has_bible: false,
                avatar: first_avatar(e.avatars@, 0),
                synced: false,
                identical: false,
                origin: None,
                modified: false,
            },
        )
    } else if e.is_dir && e.has_prompt {
        Some(
            PersonaV {
                id,
                name: or_else(e.role_name, stem),
                description: or_else(e.role_description, ROLE_DESCRIPTION@),
                kind: PersonaKind::Role,
                source,
                path,
                has_bible: e.has_bible,
                avatar: first_avatar(e.avatars@, 0),
                synced: false,
                identical: false,
                origin: None,
                modified: false,
            },
        )
    } else {
        None
    }
}

/// The personas of a directory's entries, in entry order.
pub open spec fn candidates(es: Seq<PersonaEntry>, builtin: bool) -> Seq<PersonaV>
    decreases es.len(),
{
    if es.len() == 0 {
        Seq::empty()
    } else {
        let rest = candidates(es.drop_last(), builtin);
        match candidate(es.last(), builtin) {
            Some(p) => rest.push(p),
            None => rest,
        }
    }
}

/// The sort key of a listed persona: the default persona first among the built-in ones,
/// then by id.
pub open spec fn persona_key(p: PersonaV) -> (u64, Seq<char>) {
    (if p.source == PersonaSource::Builtin && p.id != DEFAULT_ID@ {
        1u64
    } else {
        0u64
    }, p.id)
}

/// [`persona_key`] as a spec function value.
pub open spec fn persona_key_fn() -> spec_fn(PersonaV) -> (u64, Seq<char>) {
    |p: PersonaV| persona_key(p)
}

/// The view, as a spec function value.
pub open spec fn view_fn() -> spec_fn(Persona) -> PersonaV {
    |p: Persona| p@
}

/// The views of a sequence of personas.
pub open spec fn persona_views(s: Seq<Persona>) -> Seq<PersonaV> {
    s.map_values(view_fn())
}

impl SortKey for Persona {
    open spec fn key(&self) -> (u64, Seq<char>) {
        persona_key(self@)
    }

    fn key_exec(&self) -> (r: (u64, Vec<char>)) {
        let rank: u64 = if self.source == PersonaSource::Builtin && !str_eq(
            self.id.as_str(),
            DEFAULT_ID,
        ) {
            1
        } else {
            0
        };
        (rank, chars_of(self.id.as_str()))
    }
}

fn opt_or(o: &Option<String>, d: &str) -> (r: String)
    ensures
        r@ == or_else(*o, d@),
{
    match o {
        Some(s) => copy_str(s),
        None => string_of(&chars_of(d)),
    }
}

/// The persona an entry stands for.
pub fn entry_persona(e: &PersonaEntry, builtin: bool) -> (r: Option<Persona>)
    ensures
        match r {
            Some(p) => candidate(*e, builtin) == Some(p@),
            None => candidate(*e, builtin) is None,
        },
{
    let (stem, ext) = file_stem_ext(e.file_name.as_str());
    if stem.len() > 0 && stem[0] == '.' {
        return None;
    }
    let is_md = match &ext {
        Some(x) => {
            let md: Vec<char> = vec!['m', 'd'];
            proof {
                reveal_strlit("md");
            }
            assert(md@ =~= "md"@);
            seq_eq(x, &md)
        },
        None => false,
    };
    let mut idv: Vec<char> = Vec::new();
    if builtin {
        push_str(&mut idv, BUILTIN_PREFIX);
    }
    push_all(&mut idv, &stem);
    let id = string_of(&idv);
    let path = if builtin {
        string_of(&idv)
    } else {
        copy_str(&e.path)
    };
    let source = if builtin {
        PersonaSource::Builtin
    } else {
        PersonaSource::Local
    };
    let avatar = pick_avatar(e.avatars.as_slice());
    if e.is_file && is_md {
        let r = Persona {
            id,
            name: string_of(&stem),
            description: String::new(),
            kind: PersonaKind::Md,
            source,
            path,
            has_bible: false,
            avatar,
            synced: false,
            identical: false,
            origin: None,
            modified: false,
        };
        assert(r@.description =~= Seq::<char>::empty());
        assert(r@.id =~= candidate(*e, builtin)->0.id);
        Some(r)
    } else if e.is_dir && e.has_prompt {
        let stem_s = string_of(&stem);
        let r = Persona {
            id,
            name: opt_or(&e.role_name, stem_s.as_str()),
            description: opt_or(&e.role_description, ROLE_DESCRIPTION),
            kind: PersonaKind::Role,
            source,
            path,
            has_bible: e.has_bible,
            avatar,
            synced: false,
            identical: false,
            origin: None,
            modified: false,
        };
        assert(r@.id =~= candidate(*e, builtin)->0.id);
        Some(r)
    } else {
        None
    }
}

/// The personas of the entries, unsorted.
fn entries_personas(es: &[PersonaEntry], builtin: bool) -> (r: Vec<Persona>)
    ensures
        persona_views(r@) == candidates(es@, builtin),
{
    let mut out: Vec<Persona> = Vec::new();
    let mut i: usize = 0;
    assert(es@.take(0) =~= Seq::<PersonaEntry>::empty());
    assert(persona_views(out@) =~= Seq::<PersonaV>::empty());
    while i < es.len()
        invariant
            i <= es@.len(),
            persona_views(out@) == candidates(es@.take(i as int), builtin),
        decreases es@.len() - i,
    {
        assert(es@.take(i + 1).drop_last() =~= es@.take(i as int));
        assert(es@.take(i + 1).last() == es@[i as int]);
        match entry_persona(&es[i], builtin) {
            Some(p) => {
                let ghost before = out@;
                out.push(p);
                assert(persona_views(out@) =~= persona_views(before).push(p@));
            },
            None => {},
        }
        i = i + 1;
    }
    assert(es@.take(es@.len() as int) =~= es@);
    out
}

/// Sorts personas by [`persona_key`].
fn sort_personas(v: Vec<Persona>) -> (r: Vec<Persona>)
    ensures
        persona_views(r@) == sort_spec(persona_views(v@), persona_key_fn()),
{
    let r = sort_by_key(v);
    proof {
        assert forall|y: Persona| #[trigger] key_fn::<Persona>()(y) == persona_key_fn()(
            view_fn()(y),
        ) by {}
        lemma_sort_map(v@, view_fn(), key_fn::<Persona>(), persona_key_fn());
    }
    r
}

/// The built-in personas: the default first, then by id.
pub fn builtin_list(entries: &[PersonaEntry]) -> (r: Vec<Persona>)
    ensures
        persona_views(r@) == sort_spec(candidates(entries@, true), persona_key_fn()),
{
    sort_personas(entries_personas(entries, true))
}

/// The local personas, by id.
pub fn local_list(entries: &[PersonaEntry]) -> (r: Vec<Persona>)
    ensures
        persona_views(r@) == sort_spec(candidates(entries@, false), persona_key_fn()),
{
    sort_personas(entries_personas(entries, false))
}

// ---------------------------------------------------------------- texts

/// How an entry is looked up.
#[derive(Debug, Clone, Copy, PartialEq, Eq, Structural)]
pub enum Lookup {
    /// A file of that name.
    File,
    /// A directory of that name.
    Dir,
    /// The entry at that path.
    Path,
}

/// The entry answers the lookup.
pub open spec fn entry_is(e: PersonaEntry, how: Lookup, name: Seq<char>) -> bool {
    match how {
        Lookup::File => e.is_file && e.file_name@ == name,
        Lookup::Dir => e.is_dir && e.file_name@ == name,
        Lookup::Path => e.path@ == name,
    }
}

/// The first entry from `i` on that answers the lookup.
pub open spec fn find_entry_from(es: Seq<PersonaEntry>, how: Lookup, name: Seq<char>, i: int) -> Option<
    int,
>
    decreases es.len() - i,
{
    if i < 0 || i >= es.len() {
        None
    } else if entry_is(es[i], how, name) {
        Some(i)
    } else {
        find_entry_from(es, how, name, i + 1)
    }
}

/// The first entry that answers the lookup.
pub open spec fn find_entry(es: Seq<PersonaEntry>, how: Lookup, name: Seq<char>) -> Option<int> {
    find_entry_from(es, how, name, 0)
}

proof fn lemma_find_entry_from(es: Seq<PersonaEntry>, how: Lookup, name: Seq<char>, i: int)
    requires
        0 <= i,
    ensures
        find_entry_from(es, how, name, i) matches Some(k) ==> i <= k < es.len() && entry_is(
            es[k],
            how,
            name,
        ),
    decreases es.len() - i,
{
    if i < es.len() && !entry_is(es[i], how, name) {
        lemma_find_entry_from(es, how, name, i + 1);
    }
}

/// Finds an entry.
pub fn find_entry_exec(es: &[PersonaEntry], how: Lookup, name: &str) -> (r: Option<usize>)
    ensures
        match r {
            Some(k) => find_entry(es@, how, name@) == Some(k as int) && k < es@.len(),
            None => find_entry(es@, how, name@) is None,
        },
{
    let mut i: usize = 0;
    while i < es.len()
        invariant
            i <= es@.len(),
            find_entry(es@, how, name@) == find_entry_from(es@, how, name@, i as int),
        decreases es@.len() - i,
    {
        let e = &es[i];
        let hit = match how {
            Lookup::File => e.is_file && str_eq(e.file_name.as_str(), name),
            Lookup::Dir => e.is_dir && str_eq(e.file_name.as_str(), name),
            Lookup::Path => str_eq(e.path.as_str(), name),
        };
        if hit {
            return Some(i);
        }
        i = i + 1;
    }
    None
}

/// The prompt text of a built-in persona: `<stem>.md`, else `<stem>/prompt.md`.
pub open spec fn builtin_prompt_spec(cat: Catalog, stem: Seq<char>) -> Option<Seq<char>> {
    match find_entry(cat.builtin@, Lookup::File, stem + ".md"@) {
        Some(i) => ostr(cat.builtin@[i].prompt),
        None => match find_entry(cat.builtin@, Lookup::Dir, stem) {
            Some(i) => if cat.builtin@[i].has_prompt {
                ostr(cat.builtin@[i].prompt)
            } else {
                None
            },
            None => None,
        },
    }
}

/// The character bible of a built-in persona: `<stem>/character_bible.md`.
pub open spec fn builtin_bible_spec(cat: Catalog, stem: Seq<char>) -> Option<Seq<char>> {
    match find_entry(cat.builtin@, Lookup::Dir, stem) {
        Some(i) => ostr(cat.builtin@[i].bible),
        None => None,
    }
}

/// The prompt text of a local persona, read from its path.
pub open spec fn local_prompt_spec(cat: Catalog, p: PersonaV) -> Option<Seq<char>> {
    match find_entry(cat.local@, Lookup::Path, p.path) {
        Some(i) => ostr(cat.local@[i].prompt),
        None => None,
    }
}

/// The character bible of a local role persona.
pub open spec fn local_bible_spec(cat: Catalog, p: PersonaV) -> Option<Seq<char>> {
    if p.kind == PersonaKind::Role {
        match find_entry(cat.local@, Lookup::Path, p.path) {
            Some(i) => ostr(cat.local@[i].bible),
            None => None,
        }
    } else {
        None
    }
}

/// Two optional texts are the same up to trailing whitespace.
pub open spec fn same_text(a: Option<Seq<char>>, b: Option<Seq<char>>) -> bool {
    match (a, b) {
        (Some(x), Some(y)) => trim_end(x) == trim_end(y),
        (None, None) => true,
        _ => false,
    }
}

/// A local copy holds the texts of the built-in persona `stem`.
pub open spec fn identical_spec(cat: Catalog, stem: Seq<char>, l: PersonaV) -> bool {
    same_text(builtin_prompt_spec(cat, stem), local_prompt_spec(cat, l)) && same_text(
        builtin_bible_spec(cat, stem),
        local_bible_spec(cat, l),
    )
}

fn entry_text(es: &[PersonaEntry], how: Lookup, name: &str, bible: bool) -> (r: Option<String>)
    ensures
        ostr(r) == match find_entry(es@, how, name@) {
            Some(i) => if bible {
                ostr(es@[i].bible)
            } else {
                ostr(es@[i].prompt)
            },
            None => None,
        },
{
    match find_entry_exec(es, how, name) {
        Some(i) => if bible {
            copy_opt(&es[i].bible)
        } else {
            copy_opt(&es[i].prompt)
        },
        None => None,
    }
}

/// The prompt text of a built-in persona.
pub fn builtin_prompt(cat: &Catalog, stem: &str) -> (r: Option<String>)
    ensures
        ostr(r) == builtin_prompt_spec(*cat, stem@),
{
    let mut f = chars_of(stem);
    push_str(&mut f, ".md");
    let fname = string_of(&f);
    match find_entry_exec(cat.builtin.as_slice(), Lookup::File, fname.as_str()) {
        Some(i) => copy_opt(&cat.builtin[i].prompt),
        None => match find_entry_exec(cat.builtin.as_slice(), Lookup::Dir, stem) {
            Some(i) => if cat.builtin[i].has_prompt {
                copy_opt(&cat.builtin[i].prompt)
            } else {
                None
            },
            None => None,
        },
    }
}

/// The character bible of a built-in persona.
pub fn builtin_bible(cat: &Catalog, stem: &str) -> (r: Option<String>)
    ensures
        ostr(r) == builtin_bible_spec(*cat, stem@),
{
    entry_text(cat.builtin.as_slice(), Lookup::Dir, stem, true)
}

fn local_prompt(cat: &Catalog, p: &Persona) -> (r: Option<String>)
    ensures
        ostr(r) == local_prompt_spec(*cat, p@),
{
    entry_text(cat.local.as_slice(), Lookup::Path, p.path.as_str(), false)
}

fn local_bible(cat: &Catalog, p: &Persona) -> (r: Option<String>)
    ensures
        ostr(r) == local_bible_spec(*cat, p@),
{
    if p.kind == PersonaKind::Role {
        entry_text(cat.local.as_slice(), Lookup::Path, p.path.as_str(), true)
    } else {
        None
    }
}

fn same(a: Option<String>, b: Option<String>) -> (r: bool)
    ensures
        r == same_text(ostr(a), ostr(b)),
{
    match (a, b) {
        (Some(x), Some(y)) => {
            let tx = trim_end_chars(&chars_of(x.as_str()));
            let ty = trim_end_chars(&chars_of(y.as_str()));
            seq_eq(&tx, &ty)
        },
        (None, None) => true,
        _ => false,
    }
}

fn identical(cat: &Catalog, stem: &str, l: &Persona) -> (r: bool)
    ensures
        r == identical_spec(*cat, stem@, l@),
{
    let a = same(builtin_prompt(cat, stem), local_prompt(cat, l));
    let b = same(builtin_bible(cat, stem), local_bible(cat, l));
    a && b
}

// ---------------------------------------------------------------- merging

/// The name part of a built-in id (what follows `builtin/`).
pub open spec fn stem_of(id: Seq<char>) -> Seq<char> {
    if id.len() >= BUILTIN_PREFIX@.len() {
        id.skip(BUILTIN_PREFIX@.len() as int)
    } else {
        Seq::empty()
    }
}

/// The name part of a built-in id.
pub fn stem_of_exec(id: &str) -> (r: String)
    ensures
        r@ == stem_of(id@),
{
    proof {
        reveal_strlit("builtin/");
    }
    let v = chars_of(id);
    if v.len() >= 8 {
        let s = slice_chars(&v, 8, v.len());
        assert(s@ =~= v@.skip(8));
        string_of(&s)
    } else {
        String::new()
    }
}

/// The first persona from `i` on with that id.
pub open spec fn first_with_id(s: Seq<PersonaV>, id: Seq<char>, i: int) -> Option<int>
    decreases s.len() - i,
{
    if i < 0 || i >= s.len() {
        None
    } else if s[i].id == id {
        Some(i)
    } else {
        first_with_id(s, id, i + 1)
    }
}

proof fn lemma_first_with_id(s: Seq<PersonaV>, id: Seq<char>, i: int)
    requires
        0 <= i,
    ensures
        first_with_id(s, id, i) matches Some(k) ==> i <= k < s.len() && s[k].id == id,
    decreases s.len() - i,
{
    if i < s.len() && s[i].id != id {
        lemma_first_with_id(s, id, i + 1);
    }
}

/// The built-in persona, marked as synced when a local copy exists.
pub open spec fn marked_builtin(b: PersonaV, ident: bool) -> PersonaV {
    PersonaV { synced: true, identical: ident, ..b }
}

/// The local copy of a built-in persona, marked with its origin; it borrows the built-in
/// avatar when it has none.
pub open spec fn marked_local(l: PersonaV, b: PersonaV, ident: bool) -> PersonaV {
    PersonaV {
        origin: Some(b.id),
        modified: !ident,
        avatar: if l.avatar is None {
            b.avatar
        } else {
            l.avatar
        },
        ..l
    }
}

/// The first `i` built-in personas marked against the local ones, and the local ones
/// marked so far.
pub open spec fn merge_from(b: Seq<PersonaV>, l: Seq<PersonaV>, cat: Catalog, i: int) -> (
    Seq<PersonaV>,
    Seq<PersonaV>,
)
    decreases i,
{
    if i <= 0 {
        (Seq::empty(), l)
    } else {
        let prev = merge_from(b, l, cat, i - 1);
        let bi = b[i - 1];
        let stem = stem_of(bi.id);
        match first_with_id(prev.1, stem, 0) {
            None => (prev.0.push(bi), prev.1),
            Some(j) => {
                let ident = identical_spec(cat, stem, prev.1[j]);
                (
                    prev.0.push(marked_builtin(bi, ident)),
                    prev.1.update(j, marked_local(prev.1[j], bi, ident)),
                )
            },
        }
    }
}

/// The built-in personas, then the local ones, each marked against the other.
pub open spec fn merge_spec(b: Seq<PersonaV>, l: Seq<PersonaV>, cat: Catalog) -> Seq<PersonaV> {
    merge_from(b, l, cat, b.len() as int).0 + merge_from(b, l, cat, b.len() as int).1
}

/// All personas of the catalog, as [`list`] returns them.
pub open spec fn list_spec(cat: Catalog) -> Seq<PersonaV> {
    merge_spec(
        sort_spec(candidates(cat.builtin@, true), persona_key_fn()),
        sort_spec(candidates(cat.local@, false), persona_key_fn()),
        cat,
    )
}

proof fn lemma_merge_len(b: Seq<PersonaV>, l: Seq<PersonaV>, cat: Catalog, i: int)
    requires
        0 <= i <= b.len(),
    ensures
        merge_from(b, l, cat, i).0.len() == i,
        merge_from(b, l, cat, i).1.len() == l.len(),
        forall|k: int|
            0 <= k < i ==> (#[trigger] merge_from(b, l, cat, i).0[k]).id == b[k].id
                && merge_from(b, l, cat, i).0[k].source == b[k].source,
        forall|k: int|
            0 <= k < l.len() ==> (#[trigger] merge_from(b, l, cat, i).1[k]).id == l[k].id
                && merge_from(b, l, cat, i).1[k].source == l[k].source,
    decreases i,
{
    if i > 0 {
        lemma_merge_len(b, l, cat, i - 1);
        let prev = merge_from(b, l, cat, i - 1);
        lemma_first_with_id(prev.1, stem_of(b[i - 1].id), 0);
    }
}

fn find_id(s: &Vec<Persona>, id: &str) -> (r: Option<usize>)
    ensures
        match r {
            Some(k) => first_with_id(persona_views(s@), id@, 0) == Some(k as int) && k < s@.len(),
            None => first_with_id(persona_views(s@), id@, 0) is None,
        },
{
    let mut i: usize = 0;
    while i < s.len()
        invariant
            i <= s@.len(),
            first_with_id(persona_views(s@), id@, 0) == first_with_id(
                persona_views(s@),
                id@,
                i as int,
            ),
        decreases s@.len() - i,
    {
        if str_eq(s[i].id.as_str(), id) {
            return Some(i);
        }
        i = i + 1;
    }
    None
}

fn merge(builtin: Vec<Persona>, local: Vec<Persona>, cat: &Catalog) -> (r: Vec<Persona>)
    ensures
        persona_views(r@) == merge_spec(persona_views(builtin@), persona_views(local@), *cat),
{
    let ghost bv = persona_views(builtin@);
    let ghost lv = persona_views(local@);
    let mut bo: Vec<Persona> = Vec::new();
    let mut lo = local;
    let mut i: usize = 0;
    assert(persona_views(bo@) =~= Seq::<PersonaV>::empty());
    while i < builtin.len()
        invariant
            i <= builtin@.len(),
            bv == persona_views(builtin@),
            persona_views(bo@) == merge_from(bv, lv, *cat, i as int).0,
            persona_views(lo@) == merge_from(bv, lv, *cat, i as int).1,
        decreases builtin@.len() - i,
    {
        let b = &builtin[i];
        let stem = stem_of_exec(b.id.as_str());
        let ghost prev = merge_from(bv, lv, *cat, i as int);
        assert(bv[i as int] == b@);
        match find_id(&lo, stem.as_str()) {
            None => {
                let ghost before = bo@;
                bo.push(b.duplicate());
                assert(persona_views(bo@) =~= persona_views(before).push(b@));
            },
            Some(j) => {
                assert(persona_views(lo@)[j as int] == lo@[j as int]@);
                let ident = identical(cat, stem.as_str(), &lo[j]);
                let mut nb = b.duplicate();
                nb.synced = true;
                nb.identical = ident;
                let ghost before = bo@;
                bo.push(nb);
                assert(persona_views(bo@) =~= persona_views(before).push(
                    marked_builtin(b@, ident),
                ));
                let mut nl = lo[j].duplicate();
                nl.origin = Some(copy_str(&b.id));
                nl.modified = !ident;
                if nl.avatar.is_none() {
                    nl.avatar = copy_opt(&b.avatar);
                }
                assert(nl@ == marked_local(lo@[j as int]@, b@, ident));
                let ghost lbefore = lo@;
                lo.set(j, nl);
                assert(persona_views(lo@) =~= persona_views(lbefore).update(
                    j as int,
                    marked_local(lbefore[j as int]@, b@, ident),
                ));
            },
        }
        i = i + 1;
    }
    let ghost bo_v = persona_views(bo@);
    let ghost lo_v = persona_views(lo@);
    let mut out = bo;
    let mut k: usize = 0;
    while k < lo.len()
        invariant
            k <= lo@.len(),
            persona_views(out@) == bo_v + lo_v.take(k as int),
            lo_v == persona_views(lo@),
        decreases lo@.len() - k,
    {
        let ghost before = out@;
        out.push(lo[k].duplicate());
        assert(persona_views(out@) =~= persona_views(before).push(lo@[k as int]@));
        assert(lo_v.take(k + 1) =~= lo_v.take(k as int).push(lo_v[k as int]));
        k = k + 1;
    }
    assert(lo_v.take(lo@.len() as int) =~= lo_v);
    out
}

/// All personas: the built-in ones first (the default one leading, then by id), then the
/// local ones by id. A built-in persona with a local copy of the same name is `synced`, and
/// `identical` when the copy's prompt and character bible equal its own up to trailing
/// whitespace; the copy gets the built-in id as `origin`, is `modified` when not identical,
/// and borrows the built-in avatar when it has none.
pub fn list(cat: &Catalog) -> (r: Vec<Persona>)
    ensures
        persona_views(r@) == list_spec(*cat),
{
    let b = builtin_list(cat.builtin.as_slice());
    let l = local_list(cat.local.as_slice());
    merge(b, l, cat)
}

// ---------------------------------------------------------------- lookup

/// The position in [`list_spec`] of the persona with that id.
pub open spec fn find_spec(cat: Catalog, id: Seq<char>) -> Option<int> {
    first_with_id(list_spec(cat), id, 0)
}

/// The message for an unknown persona.
pub open spec fn missing_msg(id: Seq<char>) -> Seq<char> {
    "人格不存在: "@ + id
}

/// The message for an unknown built-in persona.
pub open spec fn missing_builtin_msg(id: Seq<char>) -> Seq<char> {
    "内置人格不存在: "@ + id
}

/// The message for a persona without character bible.
pub open spec fn no_bible_msg(id: Seq<char>) -> Seq<char> {
    id + " 没有 character_bible.md"@
}

/// The message for a prompt file that could not be read.
pub open spec fn unreadable_msg(path: Seq<char>) -> Seq<char> {
    "读取失败: "@ + path
}

/// What [`load_prompt`] returns: the text, or the error message.
pub open spec fn load_prompt_spec(cat: Catalog, id: Seq<char>) -> Result<Seq<char>, Seq<char>> {
    if is_prefix(BUILTIN_PREFIX@, id) {
        match builtin_prompt_spec(cat, stem_of(id)) {
            Some(t) => Ok(t),
            None => Err(missing_builtin_msg(id)),
        }
    } else {
        match find_spec(cat, id) {
            None => Err(missing_msg(id)),
            Some(k) => match local_prompt_spec(cat, list_spec(cat)[k]) {
                Some(t) => Ok(t),
                None => Err(unreadable_msg(list_spec(cat)[k].path)),
            },
        }
    }
}

/// What [`load_file`] returns.
pub open spec fn load_file_spec(cat: Catalog, id: Seq<char>, file: Seq<char>) -> Result<
    Seq<char>,
    Seq<char>,
> {
    if file == "bible"@ {
        if is_prefix(BUILTIN_PREFIX@, id) {
            match builtin_bible_spec(cat, stem_of(id)) {
                Some(t) => Ok(t),
                None => Err(no_bible_msg(id)),
            }
        } else {
            match find_spec(cat, id) {
                None => Err(missing_msg(id)),
                Some(k) => match local_bible_spec(cat, list_spec(cat)[k]) {
                    Some(t) => Ok(t),
                    None => Err(no_bible_msg(id)),
                },
            }
        }
    } else {
        load_prompt_spec(cat, id)
    }
}

/// What [`load_active`] returns: the configured persona, or else the default one.
pub open spec fn load_active_spec(cat: Catalog, id: Seq<char>) -> Result<Seq<char>, Seq<char>> {
    match load_prompt_spec(cat, id) {
        Ok(t) => Ok(t),
        Err(_) => load_prompt_spec(cat, DEFAULT_ID@),
    }
}

/// The result as text or error message.
pub open spec fn res_view(r: Result<String, Error>) -> Result<Seq<char>, Seq<char>> {
    match r {
        Ok(t) => Ok(t@),
        Err(e) => Err(e.msg()),
    }
}

/// `id` without the built-in prefix, when it has it.
pub fn strip_builtin(id: &str) -> (r: Option<String>)
    ensures
        match r {
            Some(s) => is_prefix(BUILTIN_PREFIX@, id@) && s@ == stem_of(id@),
            None => !is_prefix(BUILTIN_PREFIX@, id@),
        },
{
    proof {
        reveal_strlit("builtin/");
    }
    let v = chars_of(id);
    let p = chars_of(BUILTIN_PREFIX);
    if starts_with(&v, &p) {
        Some(stem_of_exec(id))
    } else {
        None
    }
}

/// The persona with that id in the list.
fn find(cat: &Catalog, id: &str) -> (r: Result<Persona, Error>)
    ensures
        match r {
            Ok(p) => find_spec(*cat, id@) matches Some(k) && p@ == list_spec(*cat)[k],
            Err(e) => find_spec(*cat, id@) is None && e.msg() == missing_msg(id@),
        },
{
    let all = list(cat);
    match find_id(&all, id) {
        Some(k) => {
            assert(persona_views(all@)[k as int] == all@[k as int]@);
            let p = all[k].duplicate();
            assert(find_spec(*cat, id@) == Some(k as int));
            assert(p@ == list_spec(*cat)[k as int]);
            Ok(p)
        },
        None => Err(Error::prefixed("人格不存在: ", id)),
    }
}

/// The prompt text of a persona.
pub fn load_prompt(cat: &Catalog, id: &str) -> (r: Result<String, Error>)
    ensures
        res_view(r) == load_prompt_spec(*cat, id@),
{
    match strip_builtin(id) {
        Some(stem) => match builtin_prompt(cat, stem.as_str()) {
            Some(t) => Ok(t),
            None => Err(Error::prefixed("内置人格不存在: ", id)),
        },
        None => {
            let p = find(cat, id)?;
            match local_prompt(cat, &p) {
                Some(t) => Ok(t),
                None => Err(Error::prefixed("读取失败: ", p.path.as_str())),
            }
        },
    }
}

/// A file of a persona: its character bible for `"bible"`, its prompt otherwise.
pub fn load_file(cat: &Catalog, id: &str, file: &str) -> (r: Result<String, Error>)
    ensures
        res_view(r) == load_file_spec(*cat, id@, file@),
{
    if str_eq(file, "bible") {
        match strip_builtin(id) {
            Some(stem) => match builtin_bible(cat, stem.as_str()) {
                Some(t) => Ok(t),
                None => Err(Error::suffixed(id, " 没有 character_bible.md")),
            },
            None => {
                let p = find(cat, id)?;
                match local_bible(cat, &p) {
                    Some(t) => Ok(t),
                    None => Err(Error::suffixed(id, " 没有 character_bible.md")),
                }
            },
        }
    } else {
        load_prompt(cat, id)
    }
}

/// The prompt of the configured persona; the default persona when that one cannot be
/// loaded.
pub fn load_active(cat: &Catalog, cfg: &Config) -> (r: Result<String, Error>)
    ensures
        res_view(r) == load_active_spec(*cat, cfg.agent.persona@),
{
    match load_prompt(cat, cfg.agent.persona.as_str()) {
        Ok(t) => Ok(t),
        Err(_) => load_prompt(cat, DEFAULT_ID),
    }
}

// ---------------------------------------------------------------- saving and syncing

/// What [`save_prompt`] returns: the file to write, or the reason it may not be written.
pub open spec fn save_prompt_spec(cat: Catalog, id: Seq<char>) -> Result<Seq<char>, Seq<char>> {
    if is_prefix(BUILTIN_PREFIX@, id) {
        Err("内置人格只读，请先同步到本地"@)
    } else {
        match find_spec(cat, id) {
            None => Err(missing_msg(id)),
            Some(k) => if list_spec(cat)[k].kind != PersonaKind::Md {
                Err("角色目录请直接编辑其中的 prompt.md"@)
            } else {
                Ok(list_spec(cat)[k].path)
            },
        }
    }
}

/// Where a new prompt for persona `id` is to be written. Only local Markdown personas can
/// be edited; built-in ones are read-only and a role directory's `prompt.md` is edited in
/// place.
pub fn save_prompt(cat: &Catalog, id: &str) -> (r: Result<String, Error>)
    ensures
        res_view(r) == save_prompt_spec(*cat, id@),
{
    proof {
        reveal_strlit("builtin/");
    }
    if starts_with(&chars_of(id), &chars_of(BUILTIN_PREFIX)) {
        return Err(Error::from_str("内置人格只读，请先同步到本地"));
    }
    let p = find(cat, id)?;
    if p.kind != PersonaKind::Md {
        return Err(Error::from_str("角色目录请直接编辑其中的 prompt.md"));
    }
    Ok(p.path)
}

/// What is copied to sync a built-in persona.
#[derive(Debug, Clone, Copy, PartialEq, Eq, Structural)]
pub enum SyncPlan {
    /// The role directory `<stem>/`, replacing a local one.
    CopyDir,
    /// The file `<stem>.md` and the pictures `<stem>.<ext>` that exist.
    CopyFile,
}

/// What [`sync_to_local`] returns: the local id and what to copy, or the refusal.
pub open spec fn sync_spec(cat: Catalog, id: Seq<char>, overwrite: bool, exists: bool) -> Result<
    (Seq<char>, SyncPlan),
    Seq<char>,
> {
    if !is_prefix(BUILTIN_PREFIX@, id) {
        Err("只有内置人格可以同步"@)
    } else if exists && !overwrite {
        Err("本地已有 "@ + stem_of(id) + "，请确认是否覆盖"@)
    } else if find_entry(cat.builtin@, Lookup::Dir, stem_of(id)) is Some {
        Ok((stem_of(id), SyncPlan::CopyDir))
    } else if find_entry(cat.builtin@, Lookup::File, stem_of(id) + ".md"@) is Some {
        Ok((stem_of(id), SyncPlan::CopyFile))
    } else {
        Err(missing_builtin_msg(id))
    }
}

/// Decides the copy of built-in persona `id` to the local directory. `exists` tells
/// whether a local `<stem>.md` or `<stem>/` is already there (see [`strip_builtin`]); it
/// is only replaced with `overwrite`. Returns the local id and what to copy.
pub fn sync_to_local(cat: &Catalog, id: &str, overwrite: bool, exists: bool) -> (r: Result<
    (String, SyncPlan),
    Error,
>)
    ensures
        match r {
            Ok((s, plan)) => sync_spec(*cat, id@, overwrite, exists) == Ok::<
                (Seq<char>, SyncPlan),
                Seq<char>,
            >((s@, plan)),
            Err(e) => sync_spec(*cat, id@, overwrite, exists) == Err::<
                (Seq<char>, SyncPlan),
                Seq<char>,
            >(e.msg()),
        },
{
    let stem = match strip_builtin(id) {
        Some(s) => s,
        None => {
            return Err(Error::from_str("只有内置人格可以同步"));
        },
    };
    if exists && !overwrite {
        return Err(Error::with("本地已有 ", stem.as_str(), "，请确认是否覆盖"));
    }
    if find_entry_exec(cat.builtin.as_slice(), Lookup::Dir, stem.as_str()).is_some() {
        return Ok((stem, SyncPlan::CopyDir));
    }
    let mut f = chars_of(stem.as_str());
    push_str(&mut f, ".md");
    let fname = string_of(&f);
    if find_entry_exec(cat.builtin.as_slice(), Lookup::File, fname.as_str()).is_some() {
        return Ok((stem, SyncPlan::CopyFile));
    }
    Err(Error::prefixed("内置人格不存在: ", id))
}

// ---------------------------------------------------------------- laws

proof fn lemma_candidates_source(es: Seq<PersonaEntry>, builtin: bool)
    ensures
        forall|i: int|
            0 <= i < candidates(es, builtin).len() ==> (#[trigger] candidates(es, builtin)[i]).source
                == if builtin {
                PersonaSource::Builtin
            } else {
                PersonaSource::Local
            },
    decreases es.len(),
{
    if es.len() > 0 {
        lemma_candidates_source(es.drop_last(), builtin);
    }
}

proof fn lemma_sorted_members(s: Seq<PersonaV>)
    ensures
        forall|i: int|
            0 <= i < sort_spec(s, persona_key_fn()).len() ==> s.contains(
                #[trigger] sort_spec(s, persona_key_fn())[i],
            ),
        sort_spec(s, persona_key_fn()).len() == s.len(),
{
    broadcast use vstd::seq_lib::group_to_multiset_ensures;

    lemma_sort_spec_sorted(s, persona_key_fn());
    let t = sort_spec(s, persona_key_fn());
    assert forall|i: int| 0 <= i < t.len() implies s.contains(#[trigger] t[i]) by {
        assert(t.contains(t[i]));
        assert(t.to_multiset().count(t[i]) > 0);
    }
}

/// The built-in personas come first, then the local ones.
pub proof fn lemma_list_builtin_first(cat: Catalog)
    ensures
        list_spec(cat).len() == candidates(cat.builtin@, true).len() + candidates(
            cat.local@,
            false,
        ).len(),
        forall|i: int|
            0 <= i < candidates(cat.builtin@, true).len() ==> (#[trigger] list_spec(cat)[i]).source
                == PersonaSource::Builtin,
        forall|i: int|
            candidates(cat.builtin@, true).len() <= i < list_spec(cat).len() ==> (
            #[trigger] list_spec(cat)[i]).source == PersonaSource::Local,
{
    let cb = candidates(cat.builtin@, true);
    let cl = candidates(cat.local@, false);
    let b = sort_spec(cb, persona_key_fn());
    let l = sort_spec(cl, persona_key_fn());
    lemma_sorted_members(cb);
    lemma_sorted_members(cl);
    lemma_candidates_source(cat.builtin@, true);
    lemma_candidates_source(cat.local@, false);
    lemma_merge_len(b, l, cat, b.len() as int);
    let m = merge_from(b, l, cat, b.len() as int);
    assert forall|i: int| 0 <= i < cb.len() implies (#[trigger] list_spec(cat)[i]).source
        == PersonaSource::Builtin by {
        assert(list_spec(cat)[i] == m.0[i]);
        assert(cb.contains(b[i]));
    }
    assert forall|i: int| cb.len() <= i < list_spec(cat).len() implies (
    #[trigger] list_spec(cat)[i]).source == PersonaSource::Local by {
        assert(list_spec(cat)[i] == m.1[i - cb.len()]);
        assert(cl.contains(l[i - cb.len()]));
    }
}

/// When the built-in default persona exists, it leads the list.
pub proof fn lemma_default_first(cat: Catalog)
    requires
        exists|j: int|
            0 <= j < candidates(cat.builtin@, true).len() && (#[trigger] candidates(
                cat.builtin@,
                true,
            )[j]).id == DEFAULT_ID@,
    ensures
        list_spec(cat).len() > 0,
        list_spec(cat)[0].id == DEFAULT_ID@,
{
    broadcast use vstd::seq_lib::group_to_multiset_ensures;

    let cb = candidates(cat.builtin@, true);
    let cl = candidates(cat.local@, false);
    let b = sort_spec(cb, persona_key_fn());
    let l = sort_spec(cl, persona_key_fn());
    lemma_sorted_members(cb);
    lemma_sort_spec_sorted(cb, persona_key_fn());
    lemma_candidates_source(cat.builtin@, true);
    let j = choose|j: int| 0 <= j < cb.len() && (#[trigger] cb[j]).id == DEFAULT_ID@;
    let d = cb[j];
    assert(cb.contains(d));
    assert(cb.to_multiset().count(d) > 0);
    assert(b.contains(d));
    let k = choose|k: int| 0 <= k < b.len() && b[k] == d;
    assert(cb.contains(b[0]));
    assert(b[0].source == PersonaSource::Builtin);
    if k > 0 {
        assert(keys_of(b, persona_key_fn())[0] == persona_key(b[0]));
        assert(keys_of(b, persona_key_fn())[k] == persona_key(b[k]));
        assert(key_le(persona_key(b[0]), persona_key(d)));
    }
    lemma_merge_len(b, l, cat, b.len() as int);
    assert(list_spec(cat)[0] == merge_from(b, l, cat, b.len() as int).0[0]);
}

/// A built-in persona's prompt does not depend on the local directory.
pub proof fn lemma_builtin_prompt_needs_no_local(c1: Catalog, c2: Catalog, id: Seq<char>)
    requires
        c1.builtin@ == c2.builtin@,
        is_prefix(BUILTIN_PREFIX@, id),
    ensures
        load_prompt_spec(c1, id) == load_prompt_spec(c2, id),
{
}

/// A built-in persona with a local copy is marked `identical` exactly when the copy is not
/// marked `modified`, and the copy's origin is that persona.
pub proof fn lemma_marks_agree(b: Seq<PersonaV>, l: Seq<PersonaV>, cat: Catalog, i: int)
    requires
        0 < i <= b.len(),
        first_with_id(merge_from(b, l, cat, i - 1).1, stem_of(b[i - 1].id), 0) is Some,
    ensures
        ({
            let j = first_with_id(merge_from(b, l, cat, i - 1).1, stem_of(b[i - 1].id), 0)->0;
            &&& merge_from(b, l, cat, i).0[i - 1].synced
            &&& merge_from(b, l, cat, i).0[i - 1].identical == !merge_from(b, l, cat, i).1[j].modified
            &&& merge_from(b, l, cat, i).1[j].origin == Some(b[i - 1].id)
        }),
{
    lemma_merge_len(b, l, cat, i - 1);
    let prev = merge_from(b, l, cat, i - 1);
    lemma_first_with_id(prev.1, stem_of(b[i - 1].id), 0);
}

/// A built-in persona and its local copy are marked by what the copy holds: the built-in
/// one is `identical` (and the copy not `modified`) only when the copy's prompt and its
/// character bible both equal the built-in texts up to trailing whitespace, and it is when
/// both are there and equal so; a copy whose prompt or bible differs is `modified`.
pub proof fn lemma_marks_follow_the_texts(b: Seq<PersonaV>, l: Seq<PersonaV>, cat: Catalog, i: int)
    requires
        0 < i <= b.len(),
        first_with_id(merge_from(b, l, cat, i - 1).1, stem_of(b[i - 1].id), 0) is Some,
    ensures
        ({
            let prev = merge_from(b, l, cat, i - 1);
            let stem = stem_of(b[i - 1].id);
            let j = first_with_id(prev.1, stem, 0)->0;
            let copy = prev.1[j];
            let bp = builtin_prompt_spec(cat, stem);
            let lp = local_prompt_spec(cat, copy);
            let bb = builtin_bible_spec(cat, stem);
            let lb = local_bible_spec(cat, copy);
            let ident = merge_from(b, l, cat, i).0[i - 1].identical;
            let modified = merge_from(b, l, cat, i).1[j].modified;
            &&& ident == !modified
            &&& ident ==> (bp is Some <==> lp is Some) && (bb is Some <==> lb is Some)
            &&& (ident && bp is Some && lp is Some) ==> trim_end(bp->0) == trim_end(lp->0)
            &&& (ident && bb is Some && lb is Some) ==> trim_end(bb->0) == trim_end(lb->0)
            &&& (bp is Some && lp is Some && bb is Some && lb is Some && trim_end(bp->0) == trim_end(
                lp->0,
            ) && trim_end(bb->0) == trim_end(lb->0)) ==> ident
        }),
{
    lemma_merge_len(b, l, cat, i - 1);
    let prev = merge_from(b, l, cat, i - 1);
    lemma_first_with_id(prev.1, stem_of(b[i - 1].id), 0);
}

} // verus!
