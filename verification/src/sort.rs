//! Sorting by a key made of a rank and a text, the text compared as `String`s compare
//! (by code points, which is the order of their UTF-8 bytes).
use vstd::prelude::*;

verus! {

broadcast use vstd::seq_lib::group_to_multiset_ensures;

/// `a < b` in lexicographic order of code points.
pub open spec fn lex_lt(a: Seq<char>, b: Seq<char>) -> bool
    decreases a.len(),
{
    if b.len() == 0 {
        false
    } else if a.len() == 0 {
        true
    } else if a[0] != b[0] {
        (a[0] as u32) < (b[0] as u32)
    } else {
        lex_lt(a.drop_first(), b.drop_first())
    }
}

pub proof fn lemma_lex_irreflexive(a: Seq<char>)
    ensures
        !lex_lt(a, a),
    decreases a.len(),
{
    if a.len() > 0 {
        lemma_lex_irreflexive(a.drop_first());
    }
}

pub proof fn lemma_lex_transitive(a: Seq<char>, b: Seq<char>, c: Seq<char>)
    requires
        lex_lt(a, b),
        lex_lt(b, c),
    ensures
        lex_lt(a, c),
    decreases a.len(),
{
    if a.len() > 0 && b.len() > 0 && c.len() > 0 {
        if a[0] == b[0] && b[0] == c[0] {
            lemma_lex_transitive(a.drop_first(), b.drop_first(), c.drop_first());
        }
    }
}

pub proof fn lemma_lex_total(a: Seq<char>, b: Seq<char>)
    ensures
        a == b || lex_lt(a, b) || lex_lt(b, a),
    decreases a.len(),
{
    if a.len() > 0 && b.len() > 0 {
        if a[0] == b[0] {
            lemma_lex_total(a.drop_first(), b.drop_first());
            if a.drop_first() == b.drop_first() {
                assert(a.drop_first().len() == b.drop_first().len());
                assert(a.len() == b.len());
                assert forall|i: int| 0 <= i < a.len() implies a[i] == b[i] by {
                    if i > 0 {
                        assert(a[i] == a.drop_first()[i - 1]);
                        assert(b[i] == b.drop_first()[i - 1]);
                    }
                }
                assert(a =~= b);
            }
        } else {
            vstd::utf8::char_u32_cast(a[0], a[0] as u32);
            vstd::utf8::char_u32_cast(b[0], b[0] as u32);
        }
    } else if a.len() == 0 && b.len() == 0 {
        assert(a =~= b);
    }
}

/// A sort key: a rank first, then a text.
pub open spec fn key_lt(a: (u64, Seq<char>), b: (u64, Seq<char>)) -> bool {
    a.0 < b.0 || (a.0 == b.0 && lex_lt(a.1, b.1))
}

/// `a` may stand before `b`.
pub open spec fn key_le(a: (u64, Seq<char>), b: (u64, Seq<char>)) -> bool {
    !key_lt(b, a)
}

pub proof fn lemma_key_order(a: (u64, Seq<char>), b: (u64, Seq<char>), c: (u64, Seq<char>))
    ensures
        !key_lt(a, a),
        key_lt(a, b) && key_lt(b, c) ==> key_lt(a, c),
        key_le(a, b) || key_le(b, a),
        key_le(a, b) && key_le(b, c) ==> key_le(a, c),
        key_lt(a, b) ==> key_le(a, b),
{
    lemma_lex_irreflexive(a.1);
    lemma_lex_total(a.1, b.1);
    lemma_lex_total(b.1, c.1);
    lemma_lex_total(a.1, c.1);
    if lex_lt(a.1, b.1) && lex_lt(b.1, c.1) {
        lemma_lex_transitive(a.1, b.1, c.1);
    }
    if lex_lt(c.1, b.1) && lex_lt(b.1, a.1) {
        lemma_lex_transitive(c.1, b.1, a.1);
    }
    if lex_lt(b.1, a.1) && lex_lt(a.1, b.1) {
        lemma_lex_transitive(a.1, b.1, a.1);
        lemma_lex_irreflexive(a.1);
    }
    if lex_lt(c.1, a.1) && lex_lt(a.1, b.1) {
        lemma_lex_transitive(c.1, a.1, b.1);
    }
    if lex_lt(b.1, c.1) && lex_lt(c.1, a.1) {
        lemma_lex_transitive(b.1, c.1, a.1);
    }
}

/// Values that carry a sort key.
pub trait SortKey: Sized {
    spec fn key(&self) -> (u64, Seq<char>);

    fn key_exec(&self) -> (r: (u64, Vec<char>))
        ensures
            r.0 == self.key().0,
            r.1@ == self.key().1,
    ;
}

/// The elements are in key order.
pub open spec fn sorted_by_key<T: SortKey>(s: Seq<T>) -> bool {
    forall|i: int, j: int| 0 <= i < j < s.len() ==> key_le(s[i].key(), s[j].key())
}

/// The key of a value, as a spec function.
pub open spec fn key_fn<T: SortKey>() -> spec_fn(T) -> (u64, Seq<char>) {
    |t: T| t.key()
}

/// Where `x` goes in `o`: before the first element whose key is not less than its own.
pub open spec fn insert_pos<A>(o: Seq<A>, x: A, key: spec_fn(A) -> (u64, Seq<char>)) -> int
    decreases o.len(),
{
    if o.len() == 0 {
        0
    } else if key_lt(key(o[0]), key(x)) {
        1 + insert_pos(o.drop_first(), x, key)
    } else {
        0
    }
}

/// The stable sort by key: the first element inserted, before its equals, into the sorted
/// rest.
pub open spec fn sort_spec<A>(s: Seq<A>, key: spec_fn(A) -> (u64, Seq<char>)) -> Seq<A>
    decreases s.len(),
{
    if s.len() == 0 {
        s
    } else {
        let o = sort_spec(s.drop_first(), key);
        o.insert(insert_pos(o, s[0], key), s[0])
    }
}

proof fn lemma_insert_pos<A>(o: Seq<A>, x: A, key: spec_fn(A) -> (u64, Seq<char>), k: int)
    requires
        0 <= k <= o.len(),
        forall|j: int| 0 <= j < k ==> key_lt(#[trigger] key(o[j]), key(x)),
        k < o.len() ==> !key_lt(key(o[k]), key(x)),
    ensures
        insert_pos(o, x, key) == k,
    decreases o.len(),
{
    if o.len() > 0 && k > 0 {
        assert forall|j: int| 0 <= j < k - 1 implies key_lt(
            #[trigger] key(o.drop_first()[j]),
            key(x),
        ) by {
            assert(o.drop_first()[j] == o[j + 1]);
        }
        assert(key_lt(key(o[0]), key(x)));
        lemma_insert_pos(o.drop_first(), x, key, k - 1);
    }
}

proof fn lemma_insert_pos_bounds<A>(o: Seq<A>, x: A, key: spec_fn(A) -> (u64, Seq<char>))
    ensures
        0 <= insert_pos(o, x, key) <= o.len(),
        forall|j: int| 0 <= j < insert_pos(o, x, key) ==> key_lt(#[trigger] key(o[j]), key(x)),
        insert_pos(o, x, key) < o.len() ==> !key_lt(key(o[insert_pos(o, x, key)]), key(x)),
    decreases o.len(),
{
    if o.len() > 0 && key_lt(key(o[0]), key(x)) {
        lemma_insert_pos_bounds(o.drop_first(), x, key);
        let k = insert_pos(o, x, key);
        assert forall|j: int| 0 <= j < k implies key_lt(#[trigger] key(o[j]), key(x)) by {
            if j > 0 {
                assert(o[j] == o.drop_first()[j - 1]);
            }
        }
        if k < o.len() {
            assert(o[k] == o.drop_first()[k - 1]);
        }
    }
}

/// The elements of `s` are in key order.
pub open spec fn sorted_by(s: Seq<(u64, Seq<char>)>) -> bool {
    forall|i: int, j: int| 0 <= i < j < s.len() ==> key_le(s[i], s[j])
}

/// The keys of the elements.
pub open spec fn keys_of<A>(s: Seq<A>, key: spec_fn(A) -> (u64, Seq<char>)) -> Seq<(u64, Seq<char>)> {
    Seq::new(s.len(), |i: int| key(s[i]))
}

/// The stable sort puts the elements in key order and keeps each of them: it is a sorted
/// permutation.
pub proof fn lemma_sort_spec_sorted<A>(s: Seq<A>, key: spec_fn(A) -> (u64, Seq<char>))
    ensures
        sorted_by(keys_of(sort_spec(s, key), key)),
        sort_spec(s, key).to_multiset() == s.to_multiset(),
        sort_spec(s, key).len() == s.len(),
    decreases s.len(),
{
    if s.len() == 0 {
        assert(keys_of(sort_spec(s, key), key) =~= Seq::<(u64, Seq<char>)>::empty());
    } else {
        let x = s[0];
        let o = sort_spec(s.drop_first(), key);
        lemma_sort_spec_sorted(s.drop_first(), key);
        lemma_insert_pos_bounds(o, x, key);
        let k = insert_pos(o, x, key);
        let n = o.insert(k, x);
        assert(n == sort_spec(s, key));
        assert forall|j: int| k <= j < o.len() implies key_le(key(x), #[trigger] key(o[j])) by {
            lemma_key_order(key(x), key(o[k]), key(o[j]));
            if j > k {
                assert(keys_of(o, key)[k] == key(o[k]));
                assert(keys_of(o, key)[j] == key(o[j]));
                assert(key_le(key(o[k]), key(o[j])));
            }
        }
        assert forall|a: int, b: int| 0 <= a < b < n.len() implies key_le(
            keys_of(n, key)[a],
            keys_of(n, key)[b],
        ) by {
            assert(keys_of(n, key)[a] == key(n[a]));
            assert(keys_of(n, key)[b] == key(n[b]));
            if b < k {
                assert(n[a] == o[a] && n[b] == o[b]);
                assert(keys_of(o, key)[a] == key(o[a]));
                assert(keys_of(o, key)[b] == key(o[b]));
            } else if b == k {
                assert(n[a] == o[a]);
                lemma_key_order(key(o[a]), key(x), key(x));
            } else if a < k {
                assert(n[a] == o[a] && n[b] == o[b - 1]);
                lemma_key_order(key(o[a]), key(x), key(o[b - 1]));
            } else if a == k {
                assert(n[b] == o[b - 1]);
            } else {
                assert(n[a] == o[a - 1] && n[b] == o[b - 1]);
                assert(keys_of(o, key)[a - 1] == key(o[a - 1]));
                assert(keys_of(o, key)[b - 1] == key(o[b - 1]));
            }
        }
        assert(s =~= s.drop_first().insert(0, x));
        assert(n.to_multiset() =~= o.to_multiset().insert(x));
        assert(s.to_multiset() =~= s.drop_first().to_multiset().insert(x));
    }
}

proof fn lemma_insert_pos_map<A, B>(
    o: Seq<A>,
    x: A,
    f: spec_fn(A) -> B,
    ka: spec_fn(A) -> (u64, Seq<char>),
    kb: spec_fn(B) -> (u64, Seq<char>),
)
    requires
        forall|y: A| #[trigger] ka(y) == kb(f(y)),
    ensures
        insert_pos(o, x, ka) == insert_pos(o.map_values(f), f(x), kb),
        0 <= insert_pos(o, x, ka) <= o.len(),
    decreases o.len(),
{
    if o.len() > 0 {
        assert(o.map_values(f).drop_first() =~= o.drop_first().map_values(f));
        assert(ka(o[0]) == kb(f(o[0])));
        assert(ka(x) == kb(f(x)));
        lemma_insert_pos_map(o.drop_first(), x, f, ka, kb);
    }
}

/// Sorting commutes with a map that keeps the keys.
pub proof fn lemma_sort_map<A, B>(
    s: Seq<A>,
    f: spec_fn(A) -> B,
    ka: spec_fn(A) -> (u64, Seq<char>),
    kb: spec_fn(B) -> (u64, Seq<char>),
)
    requires
        forall|y: A| #[trigger] ka(y) == kb(f(y)),
    ensures
        sort_spec(s, ka).map_values(f) == sort_spec(s.map_values(f), kb),
        sort_spec(s, ka).len() == s.len(),
    decreases s.len(),
{
    if s.len() > 0 {
        let o = sort_spec(s.drop_first(), ka);
        lemma_sort_map(s.drop_first(), f, ka, kb);
        assert(s.map_values(f).drop_first() =~= s.drop_first().map_values(f));
        lemma_insert_pos_map(o, s[0], f, ka, kb);
        let k = insert_pos(o, s[0], ka);
        assert(o.insert(k, s[0]).map_values(f) =~= o.map_values(f).insert(k, f(s[0])));
    }
}

/// `a < b` on texts, computed.
pub fn lex_less(a: &[char], b: &[char]) -> (r: bool)
    ensures
        r == lex_lt(a@, b@),
{
    let mut i: usize = 0;
    assert(a@.skip(0) =~= a@);
    assert(b@.skip(0) =~= b@);
    while i < a.len() && i < b.len()
        invariant
            i <= a@.len(),
            i <= b@.len(),
            lex_lt(a@, b@) == lex_lt(a@.skip(i as int), b@.skip(i as int)),
        decreases a@.len() - i,
    {
        assert(a@.skip(i as int)[0] == a@[i as int]);
        assert(b@.skip(i as int)[0] == b@[i as int]);
        if a[i] != b[i] {
            return (a[i] as u32) < (b[i] as u32);
        }
        assert(a@.skip(i as int).drop_first() =~= a@.skip(i + 1));
        assert(b@.skip(i as int).drop_first() =~= b@.skip(i + 1));
        i = i + 1;
    }
    i < b.len()
}

fn key_less(a: &(u64, Vec<char>), b: &(u64, Vec<char>)) -> (r: bool)
    ensures
        r == key_lt((a.0, a.1@), (b.0, b.1@)),
{
    a.0 < b.0 || (a.0 == b.0 && lex_less(&a.1, &b.1))
}

/// Sorts by key (stably, as an insertion sort).
pub fn sort_by_key<T: SortKey>(v: Vec<T>) -> (r: Vec<T>)
    ensures
        r@ == sort_spec(v@, key_fn::<T>()),
        r@.to_multiset() == v@.to_multiset(),
        r@.len() == v@.len(),
        sorted_by_key(r@),
{
    let ghost orig = v@;
    let mut rest = v;
    let mut out: Vec<T> = Vec::new();
    let mut keys: Vec<(u64, Vec<char>)> = Vec::new();
    assert(orig.take(orig.len() as int) =~= orig);
    assert(orig.skip(orig.len() as int) =~= Seq::<T>::empty());
    while rest.len() > 0
        invariant
            out@.to_multiset().add(rest@.to_multiset()) == orig.to_multiset(),
            sorted_by_key(out@),
            keys@.len() == out@.len(),
            forall|j: int| 0 <= j < keys@.len() ==> (keys@[j].0, keys@[j].1@) == out@[j].key(),
            rest@.len() <= orig.len(),
            rest@ == orig.take(rest@.len() as int),
            out@ == sort_spec(orig.skip(rest@.len() as int), key_fn::<T>()),
        decreases rest@.len(),
    {
        let ghost rest0 = rest@;
        let x = rest.pop().unwrap();
        assert(rest0 =~= rest@.push(x));
        proof {
            let m = rest@.len() as int;
            assert(orig[m] == x);
            assert(orig.skip(m).drop_first() =~= orig.skip(m + 1));
            assert(orig.skip(m)[0] == x);
            assert(rest@ =~= orig.take(m));
        }
        let kx = x.key_exec();
        let mut k: usize = 0;
        while k < out.len() && key_less(&keys[k], &kx)
            invariant
                k <= out@.len(),
                keys@.len() == out@.len(),
                forall|j: int| 0 <= j < keys@.len() ==> (keys@[j].0, keys@[j].1@) == out@[j].key(),
                kx.0 == x.key().0,
                kx.1@ == x.key().1,
                forall|j: int| 0 <= j < k ==> key_lt(#[trigger] out@[j].key(), x.key()),
            decreases out@.len() - k,
        {
            k = k + 1;
        }
        let ghost o = out@;
        proof {
            assert forall|j: int| 0 <= j < k implies key_lt(
                #[trigger] key_fn::<T>()(o[j]),
                key_fn::<T>()(x),
            ) by {
                assert(key_lt(o[j].key(), x.key()));
            }
            if k < o.len() {
                assert(!key_lt(key_fn::<T>()(o[k as int]), key_fn::<T>()(x)));
            }
            lemma_insert_pos(o, x, key_fn::<T>(), k as int);
        }
        proof {
            assert forall|j: int| k <= j < o.len() implies key_le(x.key(), #[trigger] o[j].key()) by {
                lemma_key_order(x.key(), o[k as int].key(), o[j].key());
                if j > k {
                    assert(key_le(o[k as int].key(), o[j].key()));
                }
            }
        }
        out.insert(k, x);
        keys.insert(k, kx);
        proof {
            let n = out@;
            assert(n.remove(k as int) =~= o);
            assert(o.to_multiset() =~= n.to_multiset().remove(x));
            assert(n.to_multiset() =~= o.to_multiset().insert(x));
            assert forall|a: int, b: int| 0 <= a < b < n.len() implies key_le(
                n[a].key(),
                n[b].key(),
            ) by {
                if b < k {
                    assert(n[a] == o[a] && n[b] == o[b]);
                } else if b == k {
                    assert(n[a] == o[a]);
                    lemma_key_order(o[a].key(), x.key(), x.key());
                } else if a < k {
                    assert(n[a] == o[a] && n[b] == o[b - 1]);
                    lemma_key_order(o[a].key(), x.key(), o[b - 1].key());
                } else if a == k {
                    assert(n[b] == o[b - 1]);
                } else {
                    assert(n[a] == o[a - 1] && n[b] == o[b - 1]);
                }
            }
            assert forall|j: int| 0 <= j < keys@.len() implies (keys@[j].0, keys@[j].1@)
                == out@[j].key() by {
                if j < k {
                    assert(keys@[j] == old_keys_at(keys@, j));
                }
            }
        }
    }
    proof {
        assert(orig.skip(0) =~= orig);
        assert(rest@.to_multiset().len() == 0);
        assert(out@.to_multiset() =~= out@.to_multiset().add(rest@.to_multiset()));
        assert(out@.to_multiset() == orig.to_multiset());
        assert(out@.len() == out@.to_multiset().len());
        assert(orig.len() == orig.to_multiset().len());
    }
    out
}

/// Texts sort by their characters.
pub open spec fn text_key(s: Seq<char>) -> (u64, Seq<char>) {
    (0u64, s)
}

/// [`text_key`] as a spec function value.
pub open spec fn text_key_fn() -> spec_fn(Seq<char>) -> (u64, Seq<char>) {
    |s: Seq<char>| text_key(s)
}

/// The view of a string, as a spec function value.
pub open spec fn string_view_fn() -> spec_fn(String) -> Seq<char> {
    |s: String| s@
}

/// The views of a sequence of strings.
pub open spec fn string_views(s: Seq<String>) -> Seq<Seq<char>> {
    s.map_values(string_view_fn())
}

impl SortKey for String {
    open spec fn key(&self) -> (u64, Seq<char>) {
        text_key(self@)
    }

    fn key_exec(&self) -> (r: (u64, Vec<char>)) {
        (0, crate::text::chars_of(self.as_str()))
    }
}

/// Sorts strings as `Vec<String>::sort` does (by code points).
pub fn sort_strings(v: Vec<String>) -> (r: Vec<String>)
    ensures
        string_views(r@) == sort_spec(string_views(v@), text_key_fn()),
{
    let r = sort_by_key(v);
    proof {
        assert forall|y: String| #[trigger] key_fn::<String>()(y) == text_key_fn()(
            string_view_fn()(y),
        ) by {}
        lemma_sort_map(v@, string_view_fn(), key_fn::<String>(), text_key_fn());
    }
    r
}

spec fn old_keys_at(k: Seq<(u64, Vec<char>)>, j: int) -> (u64, Vec<char>) {
    k[j]
}

} // verus!
