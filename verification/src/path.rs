//! Unix path semantics on strings: components, equality and prefix by whole components,
//! joining, and `~` expansion.
use vstd::prelude::*;
use crate::text::{chars_of, push_all, seq_eq, slice_chars, string_of};

verus! {

/// `str::split(sep)` for a single character: `n + 1` parts for `n` separators.
pub open spec fn split_on(s: Seq<char>, sep: char) -> Seq<Seq<char>>
    decreases s.len(),
{
    if s.len() == 0 {
        seq![Seq::<char>::empty()]
    } else {
        let rest = split_on(s.drop_last(), sep);
        if s.last() == sep {
            rest.push(Seq::<char>::empty())
        } else {
            rest.update(rest.len() - 1, rest.last().push(s.last()))
        }
    }
}

pub proof fn lemma_split_on_nonempty(s: Seq<char>, sep: char)
    ensures
        split_on(s, sep).len() >= 1,
    decreases s.len(),
{
    if s.len() > 0 {
        lemma_split_on_nonempty(s.drop_last(), sep);
    }
}

/// Splits `v` at every `sep`.
pub fn split_on_char(v: &[char], sep: char) -> (r: Vec<Vec<char>>)
    ensures
        r.deep_view() == split_on(v@, sep),
        r@.len() >= 1,
{
    let mut parts: Vec<Vec<char>> = Vec::new();
    let mut cur: Vec<char> = Vec::new();
    let mut i: usize = 0;
    assert(v@.take(0) =~= Seq::<char>::empty());
    assert(parts.deep_view().push(cur@) =~= split_on(v@.take(0), sep));
    while i < v.len()
        invariant
            i <= v@.len(),
            parts.deep_view().push(cur@) == split_on(v@.take(i as int), sep),
        decreases v@.len() - i,
    {
        let ghost pre = v@.take(i as int);
        let ghost nxt = v@.take(i + 1);
        assert(nxt.drop_last() =~= pre);
        assert(nxt.last() == v@[i as int]);
        if v[i] == sep {
            let ghost before = parts.deep_view();
            assert(cur.deep_view() =~= cur@);
            parts.push(cur);
            cur = Vec::new();
            assert(parts.deep_view() =~= before.push(split_on(pre, sep).last()));
            assert(parts.deep_view().push(cur@) =~= split_on(nxt, sep));
        } else {
            let ghost before = parts.deep_view();
            cur.push(v[i]);
            assert(before.push(cur@) =~= split_on(nxt, sep));
        }
        i = i + 1;
    }
    assert(v@.take(v@.len() as int) =~= v@);
    let ghost before = parts.deep_view();
    assert(cur.deep_view() =~= cur@);
    parts.push(cur);
    assert(parts.deep_view() =~= before.push(cur@));
    parts
}

/// A part of a split path that names a component (not empty, not `.`).
pub open spec fn is_named(part: Seq<char>) -> bool {
    part.len() > 0 && part != seq!['.']
}

/// The named parts, in order.
pub open spec fn named_parts(parts: Seq<Seq<char>>) -> Seq<Seq<char>>
    decreases parts.len(),
{
    if parts.len() == 0 {
        seq![]
    } else {
        let r = named_parts(parts.drop_last());
        if is_named(parts.last()) {
            r.push(parts.last())
        } else {
            r
        }
    }
}

/// `Path::components` on Unix, with the root written `/` and a leading current-directory
/// component written `.`; every other component is a name. `..` stays a component, as in
/// `Path::components`.
pub open spec fn components(p: Seq<char>) -> Seq<Seq<char>> {
    let parts = split_on(p, '/');
    let abs = p.len() > 0 && p[0] == '/';
    let cur = !abs && parts[0] == seq!['.'];
    (if abs {
        seq![seq!['/']]
    } else {
        Seq::<Seq<char>>::empty()
    }) + (if cur {
        seq![seq!['.']]
    } else {
        Seq::<Seq<char>>::empty()
    }) + named_parts(parts)
}

/// Two paths are equal as `Path` values: they have the same components.
pub open spec fn path_equal(a: Seq<char>, b: Seq<char>) -> bool {
    components(a) == components(b)
}

/// `Path::starts_with`: the components of `base` are a prefix of those of `p`.
pub open spec fn path_starts_with(p: Seq<char>, base: Seq<char>) -> bool {
    let cp = components(p);
    let cb = components(base);
    cb.len() <= cp.len() && cp.take(cb.len() as int) == cb
}

/// The components of a path.
pub fn path_components(p: &[char]) -> (r: Vec<Vec<char>>)
    ensures
        r.deep_view() == components(p@),
{
    let parts = split_on_char(p, '/');
    let abs = p.len() > 0 && p[0] == '/';
    let mut dot: Vec<char> = Vec::new();
    dot.push('.');
    assert(dot@ =~= seq!['.']);
    let cur = !abs && seq_eq(&parts[0], &dot);
    assert(parts[0]@ =~= parts.deep_view()[0]);
    let mut out: Vec<Vec<char>> = Vec::new();
    if abs {
        let mut root: Vec<char> = Vec::new();
        root.push('/');
        assert(root.deep_view() =~= seq!['/']);
        out.push(root);
        assert(out.deep_view() =~= seq![seq!['/']]);
    }
    if cur {
        let mut d2: Vec<char> = Vec::new();
        d2.push('.');
        assert(d2.deep_view() =~= seq!['.']);
        out.push(d2);
        assert(out.deep_view() =~= seq![seq!['.']]);
    }
    let ghost lead = out.deep_view();
    assert(lead =~= (if abs {
        seq![seq!['/']]
    } else {
        Seq::<Seq<char>>::empty()
    }) + (if cur {
        seq![seq!['.']]
    } else {
        Seq::<Seq<char>>::empty()
    }));
    let mut i: usize = 0;
    assert(parts.deep_view().take(0) =~= Seq::<Seq<char>>::empty());
    while i < parts.len()
        invariant
            i <= parts@.len(),
            dot@ == seq!['.'],
            out.deep_view() == lead + named_parts(parts.deep_view().take(i as int)),
        decreases parts@.len() - i,
    {
        let ghost pre = parts.deep_view().take(i as int);
        let ghost nxt = parts.deep_view().take(i + 1);
        assert(nxt.drop_last() =~= pre);
        assert(nxt.last() == parts.deep_view()[i as int]);
        assert(parts[i as int]@ =~= parts.deep_view()[i as int]);
        if parts[i].len() > 0 && !seq_eq(&parts[i], &dot) {
            let ghost before = out.deep_view();
            let part = parts[i].clone();
            assert(part.deep_view() =~= part@);
            out.push(part);
            assert(out.deep_view() =~= before.push(parts.deep_view()[i as int]));
        }
        i = i + 1;
    }
    assert(parts.deep_view().take(parts@.len() as int) =~= parts.deep_view());
    out
}

/// Whether two paths are equal as `Path` values.
pub fn path_eq(a: &str, b: &str) -> (r: bool)
    ensures
        r == path_equal(a@, b@),
{
    let ca = path_components(&chars_of(a));
    let cb = path_components(&chars_of(b));
    seqs_eq(&ca, &cb)
}

/// Two sequences of character sequences are equal.
pub fn seqs_eq(a: &Vec<Vec<char>>, b: &Vec<Vec<char>>) -> (r: bool)
    ensures
        r == (a.deep_view() == b.deep_view()),
{
    if a.len() != b.len() {
        assert(a.deep_view().len() != b.deep_view().len());
        return false;
    }
    let mut i: usize = 0;
    while i < a.len()
        invariant
            a@.len() == b@.len(),
            i <= a@.len(),
            forall|j: int| 0 <= j < i ==> a.deep_view()[j] == b.deep_view()[j],
        decreases a@.len() - i,
    {
        assert(a[i as int]@ =~= a.deep_view()[i as int]);
        assert(b[i as int]@ =~= b.deep_view()[i as int]);
        if !seq_eq(&a[i], &b[i]) {
            return false;
        }
        i = i + 1;
    }
    assert(a.deep_view() =~= b.deep_view());
    true
}

/// Whether `p` starts with the path `base`, comparing whole components.
pub fn path_has_prefix(p: &str, base: &str) -> (r: bool)
    ensures
        r == path_starts_with(p@, base@),
{
    let cp = path_components(&chars_of(p));
    let cb = path_components(&chars_of(base));
    if cb.len() > cp.len() {
        assert(cb.deep_view().len() > cp.deep_view().len());
        return false;
    }
    let mut i: usize = 0;
    assert(cb.deep_view().len() == cb@.len());
    assert(cp.deep_view().len() == cp@.len());
    while i < cb.len()
        invariant
            cb@.len() <= cp@.len(),
            cp.deep_view() == components(p@),
            cb.deep_view() == components(base@),
            cb.deep_view().len() == cb@.len(),
            cp.deep_view().len() == cp@.len(),
            i <= cb@.len(),
            forall|j: int| 0 <= j < i ==> cp.deep_view()[j] == cb.deep_view()[j],
        decreases cb@.len() - i,
    {
        assert(cp[i as int]@ =~= cp.deep_view()[i as int]);
        assert(cb[i as int]@ =~= cb.deep_view()[i as int]);
        if !seq_eq(&cp[i], &cb[i]) {
            assert(cp.deep_view().take(cb@.len() as int)[i as int] != cb.deep_view()[i as int]);
            assert(cb.deep_view().len() == cb@.len());
            assert(cp.deep_view().take(cb.deep_view().len() as int) != cb.deep_view());
            return false;
        }
        i = i + 1;
    }
    assert(cp.deep_view().take(cb@.len() as int) =~= cb.deep_view());
    true
}

/// `PathBuf::join` on Unix: an absolute `rel` replaces `base`; otherwise a `/` is put
/// between them unless `base` is empty or already ends with one.
pub open spec fn join_path_spec(base: Seq<char>, rel: Seq<char>) -> Seq<char> {
    if rel.len() > 0 && rel[0] == '/' {
        rel
    } else if base.len() == 0 || base.last() == '/' {
        base + rel
    } else {
        base + seq!['/'] + rel
    }
}

/// Joins `rel` onto `base` as `Path::join` does.
pub fn join_path(base: &str, rel: &str) -> (r: String)
    ensures
        r@ == join_path_spec(base@, rel@),
{
    let b = chars_of(base);
    let r = chars_of(rel);
    if r.len() > 0 && r[0] == '/' {
        return string_of(&r);
    }
    let mut out = b.clone();
    if b.len() > 0 && b[b.len() - 1] != '/' {
        out.push('/');
    }
    push_all(&mut out, &r);
    string_of(&out)
}

/// `true` when `p` is an absolute path (`Path::is_absolute` on Unix).
pub open spec fn is_absolute(p: Seq<char>) -> bool {
    p.len() > 0 && p[0] == '/'
}

/// `expand_home` with the home directory given: a leading `~` is replaced by `home` joined
/// with the rest, whose leading slashes are dropped; without a home directory, or without
/// `~`, the path is kept.
pub open spec fn expand_home_spec(p: Seq<char>, home: Option<Seq<char>>) -> Seq<char> {
    if p.len() > 0 && p[0] == '~' && home is Some {
        join_path_spec(home->0, trim_start_slashes(p.drop_first()))
    } else {
        p
    }
}

/// `str::trim_start_matches('/')`.
pub open spec fn trim_start_slashes(s: Seq<char>) -> Seq<char>
    decreases s.len(),
{
    if s.len() > 0 && s[0] == '/' {
        trim_start_slashes(s.drop_first())
    } else {
        s
    }
}

/// `expand_home` for a known home directory.
pub fn expand_home_with(p: &str, home: Option<&str>) -> (r: String)
    ensures
        r@ == expand_home_spec(p@, match home {
            Some(h) => Some(h@),
            None => None,
        }),
{
    let v = chars_of(p);
    match home {
        Some(h) if v.len() > 0 && v[0] == '~' => {
            let mut i: usize = 1;
            assert(v@.skip(1) =~= v@.drop_first());
            while i < v.len() && v[i] == '/'
                invariant
                    1 <= i <= v@.len(),
                    trim_start_slashes(v@.drop_first()) == trim_start_slashes(v@.skip(i as int)),
                decreases v@.len() - i,
            {
                assert(v@.skip(i as int).drop_first() =~= v@.skip(i + 1));
                i = i + 1;
            }
            let rest = slice_chars(&v, i, v.len());
            assert(rest@ =~= v@.skip(i as int));
            join_path(h, &string_of(&rest))
        },
        _ => string_of(&v),
    }
}

/// `dirs::home_dir`, rendered as a string. Nothing is claimed of the result: it comes from
/// the environment.
#[verifier::external_body]
pub(crate) fn home_dir() -> Option<String> {
    dirs::home_dir().map(|p| p.to_string_lossy().into_owned())
}

/// Replaces a leading `~` with the user's home directory, when there is one.
pub fn expand_home(p: &str) -> (r: String)
    ensures
        exists|h: Option<Seq<char>>| r@ == expand_home_spec(p@, h),
{
    let home = home_dir();
    match home {
        Some(h) => {
            let r = expand_home_with(p, Some(h.as_str()));
            assert(r@ == expand_home_spec(p@, Some(h@)));
            r
        },
        None => {
            let r = expand_home_with(p, None);
            assert(r@ == expand_home_spec(p@, None));
            r
        },
    }
}

} // verus!
