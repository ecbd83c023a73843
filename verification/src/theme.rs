//! Appearance themes: `themes/<id>.toml` under the configuration directory. Three built-in
//! themes are written on first start; the user may edit them and add more.
//!
//! The caller reads and parses the theme files; the library decides which files are
//! themes, gives each its id and orders them.
use vstd::prelude::*;
use std::collections::BTreeMap;
use crate::path::{join_path, join_path_spec};
use crate::persona::{file_stem_ext, stem_ext};
use crate::sort::{key_fn, lemma_sort_map, sort_by_key, sort_spec, SortKey};
use crate::text::{chars_of, seq_eq, str_eq, string_of};

verus! {

/// Name of the theme directory under the configuration directory.
pub const THEMES_DIR: &'static str = "themes";

/// A theme.
#[derive(Debug, Clone, PartialEq)]
pub struct Theme {
    /// The file name without extension, set when the theme is loaded.
    pub id: String,
    pub name: String,
    pub description: String,
    /// Interface colours, for the CSS variables `--vw-<key>`.
    pub colors: BTreeMap<String, String>,
    /// Code block colours, for the CSS variables `--code-<key>`.
    pub code: BTreeMap<String, String>,
}

/// The view of a [`Theme`].
pub struct ThemeV {
    pub id: Seq<char>,
    pub name: Seq<char>,
    pub description: Seq<char>,
    pub colors: Map<Seq<char>, Seq<char>>,
    pub code: Map<Seq<char>, Seq<char>>,
}

impl View for Theme {
    type V = ThemeV;

    open spec fn view(&self) -> ThemeV {
        ThemeV {
            id: self.id@,
            name: self.name@,
            description: self.description@,
            colors: self.colors.deep_view(),
            code: self.code.deep_view(),
        }
    }
}

/// A file of the theme directory: its name, and the theme it holds when it could be read
/// and parsed.
pub struct ThemeFile {
    pub file_name: String,
    pub theme: Option<Theme>,
}

/// The theme directory under the configuration directory.
pub fn dir(config_dir: &str) -> (r: String)
    ensures
        r@ == join_path_spec(config_dir@, THEMES_DIR@),
{
    join_path(config_dir, THEMES_DIR)
}

/// The ids of the built-in themes, in their order.
pub open spec fn builtin_ids_spec() -> Seq<Seq<char>> {
    seq!["mint"@, "peach"@, "sky"@]
}

/// The ids of the built-in themes.
pub fn builtin_ids() -> (r: Vec<&'static str>)
    ensures
        r@.len() == builtin_ids_spec().len(),
        forall|i: int| 0 <= i < r@.len() ==> r@[i]@ == builtin_ids_spec()[i],
{
    let r = vec!["mint", "peach", "sky"];
    assert(r@[0]@ == builtin_ids_spec()[0]);
    assert(r@[1]@ == builtin_ids_spec()[1]);
    assert(r@[2]@ == builtin_ids_spec()[2]);
    r
}

/// The place of a theme in the list: built-in ones by their order, all others after.
pub open spec fn rank(id: Seq<char>) -> u64 {
    if id == "mint"@ {
        0
    } else if id == "peach"@ {
        1
    } else if id == "sky"@ {
        2
    } else {
        u64::MAX
    }
}

/// Themes are ordered by rank, then by id.
pub open spec fn theme_key(t: ThemeV) -> (u64, Seq<char>) {
    (rank(t.id), t.id)
}

/// [`theme_key`] as a spec function value.
pub open spec fn theme_key_fn() -> spec_fn(ThemeV) -> (u64, Seq<char>) {
    |t: ThemeV| theme_key(t)
}

/// The view, as a spec function value.
pub open spec fn theme_view_fn() -> spec_fn(Theme) -> ThemeV {
    |t: Theme| t@
}

/// The views of a sequence of themes.
pub open spec fn theme_views(s: Seq<Theme>) -> Seq<ThemeV> {
    s.map_values(theme_view_fn())
}

fn rank_exec(id: &str) -> (r: u64)
    ensures
        r == rank(id@),
{
    if str_eq(id, "mint") {
        0
    } else if str_eq(id, "peach") {
        1
    } else if str_eq(id, "sky") {
        2
    } else {
        u64::MAX
    }
}

impl SortKey for Theme {
    open spec fn key(&self) -> (u64, Seq<char>) {
        theme_key(self@)
    }

    fn key_exec(&self) -> (r: (u64, Vec<char>)) {
        (rank_exec(self.id.as_str()), chars_of(self.id.as_str()))
    }
}

/// The theme a file holds: a `.toml` file that parsed, with the file's stem as id.
pub open spec fn theme_candidate(f: ThemeFile) -> Option<ThemeV> {
    if stem_ext(f.file_name@).1 != Some("toml"@) {
        None
    } else {
        match f.theme {
            Some(t) => Some(ThemeV { id: stem_ext(f.file_name@).0, ..t@ }),
            None => None,
        }
    }
}

/// The themes of the files, in file order.
pub open spec fn theme_candidates(fs: Seq<ThemeFile>) -> Seq<ThemeV>
    decreases fs.len(),
{
    if fs.len() == 0 {
        Seq::empty()
    } else {
        let rest = theme_candidates(fs.drop_last());
        match theme_candidate(fs.last()) {
            Some(t) => rest.push(t),
            None => rest,
        }
    }
}

/// All themes of the directory: the `.toml` files that parsed (the others are skipped),
/// each with its file's stem as id; the built-in ones first, in their order, then the
/// others by id.
pub fn load_all(files: Vec<ThemeFile>) -> (r: Vec<Theme>)
    ensures
        theme_views(r@) == sort_spec(theme_candidates(files@), theme_key_fn()),
{
    let ghost orig = files@;
    let mut rest = files;
    let mut out: Vec<Theme> = Vec::new();
    let ghost mut taken: int = 0;
    assert(orig.take(0) =~= Seq::<ThemeFile>::empty());
    assert(theme_views(out@) =~= Seq::<ThemeV>::empty());
    assert(rest@ =~= orig.skip(0));
    while rest.len() > 0
        invariant
            0 <= taken <= orig.len(),
            rest@ == orig.skip(taken),
            theme_views(out@) == theme_candidates(orig.take(taken)),
        decreases rest@.len(),
    {
        let f = rest.remove(0);
        proof {
            assert(orig.skip(taken)[0] == f);
            assert(orig[taken] == f);
            assert(orig.take(taken + 1).drop_last() =~= orig.take(taken));
            assert(orig.take(taken + 1).last() == f);
            assert(rest@ =~= orig.skip(taken + 1));
            taken = taken + 1;
        }
        let (stem, ext) = file_stem_ext(f.file_name.as_str());
        let is_toml = match &ext {
            Some(x) => {
                let toml: Vec<char> = vec!['t', 'o', 'm', 'l'];
                proof {
                    reveal_strlit("toml");
                }
                assert(toml@ =~= "toml"@);
                seq_eq(x, &toml)
            },
            None => false,
        };
        if is_toml {
            match f.theme {
                Some(t) => {
                    let mut t = t;
                    let ghost tv = t@;
                    t.id = string_of(&stem);
                    let ghost before = out@;
                    out.push(t);
                    assert(theme_views(out@) =~= theme_views(before).push(
                        ThemeV { id: stem@, ..tv },
                    ));
                },
                None => {},
            }
        }
    }
    assert(orig.take(orig.len() as int) =~= orig);
    let r = sort_by_key(out);
    proof {
        assert forall|y: Theme| #[trigger] key_fn::<Theme>()(y) == theme_key_fn()(
            theme_view_fn()(y),
        ) by {}
        lemma_sort_map(out@, theme_view_fn(), key_fn::<Theme>(), theme_key_fn());
    }
    r
}

} // verus!
