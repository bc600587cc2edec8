use vstd::prelude::*;
use vstd::multiset::Multiset;
use vstd::seq_lib::to_multiset_insert;

verus! {

/// Lexicographic order of paths, character by character; a proper prefix
/// comes first.
pub open spec fn path_lt(a: Seq<char>, b: Seq<char>) -> bool
    decreases a.len(),
{
    if b.len() == 0 {
        false
    } else if a.len() == 0 {
        true
    } else if a[0] != b[0] {
        (a[0] as int) < (b[0] as int)
    } else {
        path_lt(a.drop_first(), b.drop_first())
    }
}

pub open spec fn path_le(a: Seq<char>, b: Seq<char>) -> bool {
    !path_lt(b, a)
}

pub proof fn lemma_path_lt_irreflexive(a: Seq<char>)
    ensures
        !path_lt(a, a),
    decreases a.len(),
{
    if a.len() > 0 {
        lemma_path_lt_irreflexive(a.drop_first());
    }
}

pub proof fn lemma_path_lt_transitive(a: Seq<char>, b: Seq<char>, c: Seq<char>)
    requires
        path_lt(a, b),
        path_lt(b, c),
    ensures
        path_lt(a, c),
    decreases a.len(),
{
    if a.len() > 0 && b.len() > 0 && c.len() > 0 && a[0] == b[0] && b[0] == c[0] {
        lemma_path_lt_transitive(a.drop_first(), b.drop_first(), c.drop_first());
    }
}

pub proof fn lemma_path_lt_total(a: Seq<char>, b: Seq<char>)
    ensures
        a == b || path_lt(a, b) || path_lt(b, a),
    decreases a.len(),
{
    if a.len() > 0 && b.len() > 0 {
        if a[0] == b[0] {
            lemma_path_lt_total(a.drop_first(), b.drop_first());
            if a.drop_first() == b.drop_first() {
                assert(a =~= seq![a[0]] + a.drop_first());
                assert(b =~= seq![b[0]] + b.drop_first());
            }
        } else {
            assert((a[0] as int) != (b[0] as int));
        }
    } else if a.len() == 0 && b.len() == 0 {
        assert(a =~= b);
    }
}

pub proof fn lemma_path_le_transitive(a: Seq<char>, b: Seq<char>, c: Seq<char>)
    requires
        path_le(a, b),
        path_le(b, c),
    ensures
        path_le(a, c),
{
    if path_lt(c, a) {
        lemma_path_lt_total(a, b);
        if a == b {
        } else if path_lt(a, b) {
            lemma_path_lt_transitive(c, a, b);
        }
    }
}

/// Compares two paths in the order above.
pub fn path_less(a: &str, b: &str) -> (r: bool)
    ensures
        r == path_lt(a@, b@),
{
    let n = a.unicode_len();
    let m = b.unicode_len();
    let mut i: usize = 0;
    assert(a@.subrange(0, n as int) =~= a@);
    assert(b@.subrange(0, m as int) =~= b@);
    while i < n && i < m
        invariant
            n == a@.len(),
            m == b@.len(),
            i <= n,
            i <= m,
            path_lt(a@, b@) == path_lt(a@.subrange(i as int, n as int), b@.subrange(i as int, m as int)),
        decreases n - i,
    {
        let ghost x = a@.subrange(i as int, n as int);
        let ghost y = b@.subrange(i as int, m as int);
        let ca = a.get_char(i);
        let cb = b.get_char(i);
        assert(x[0] == ca && y[0] == cb);
        if ca != cb {
            return (ca as u32) < (cb as u32);
        }
        assert(x.drop_first() =~= a@.subrange(i + 1, n as int));
        assert(y.drop_first() =~= b@.subrange(i + 1, m as int));
        i = i + 1;
    }
    i < m
}

/// Items ordered by a path of theirs.
pub trait PathKeyed {
    spec fn path_key(&self) -> Seq<char>;

    fn path(&self) -> (r: &str)
        ensures
            r@ == self.path_key(),
    ;
}

pub open spec fn sorted_by_path<T: PathKeyed>(s: Seq<T>) -> bool {
    forall|i: int, j: int|
        0 <= i < j < s.len() ==> path_le(#[trigger] s[i].path_key(), #[trigger] s[j].path_key())
}

/// Sorts by path, ascending; items of equal path keep their order.
pub fn sort_by_path<T: PathKeyed>(v: &mut Vec<T>)
    ensures
        final(v)@.to_multiset() == old(v)@.to_multiset(),
        sorted_by_path(final(v)@),
{
    broadcast use vstd::seq_lib::group_to_multiset_ensures, vstd::multiset::group_multiset_axioms;

    let ghost orig = v@;
    let mut r: Vec<T> = Vec::new();
    assert(r@.to_multiset().add(v@.to_multiset()) =~= orig.to_multiset());
    while v.len() > 0
        invariant
            r@.to_multiset().add(v@.to_multiset()) == orig.to_multiset(),
            sorted_by_path(r@),
        decreases v.len(),
    {
        let ghost before = v@;
        let x = v.pop().unwrap();
        assert(before =~= v@.push(x));
        proof {
            vstd::seq_lib::to_multiset_build(v@, x);
        }
        let mut p: usize = 0;
        while p < r.len() && path_less(r[p].path(), x.path())
            invariant
                p <= r.len(),
                forall|q: int| 0 <= q < p ==> path_lt(#[trigger] r@[q].path_key(), x.path_key()),
            decreases r.len() - p,
        {
            p = p + 1;
        }
        let ghost old_r = r@;
        r.insert(p, x);
        proof {
            to_multiset_insert(old_r, p as int, x);
            assert(r@ == old_r.insert(p as int, x));
            assert forall|i: int, j: int| 0 <= i < j < r@.len() implies path_le(
                #[trigger] r@[i].path_key(),
                #[trigger] r@[j].path_key(),
            ) by {
                if j < p {
                    assert(r@[i] == old_r[i] && r@[j] == old_r[j]);
                } else if j == p {
                    assert(r@[i] == old_r[i]);
                    lemma_lt_le(old_r[i].path_key(), x.path_key());
                } else if i == p {
                    assert(r@[j] == old_r[j - 1]);
                    assert(path_le(x.path_key(), old_r[p as int].path_key()));
                    if j - 1 > p {
                        lemma_path_le_transitive(x.path_key(), old_r[p as int].path_key(), old_r[j - 1].path_key());
                    }
                } else if i < p {
                    assert(r@[i] == old_r[i] && r@[j] == old_r[j - 1]);
                } else {
                    assert(r@[i] == old_r[i - 1] && r@[j] == old_r[j - 1]);
                }
            }
        }
    }
    assert(v@.to_multiset() =~= Multiset::empty()) by {
        assert(v@ =~= Seq::<T>::empty());
    }
    *v = r;
}

proof fn lemma_lt_le(a: Seq<char>, b: Seq<char>)
    requires
        path_lt(a, b),
    ensures
        path_le(a, b),
{
    if path_lt(b, a) {
        lemma_path_lt_transitive(a, b, a);
        lemma_path_lt_irreflexive(a);
    }
}

} // verus!

verus! {

/// Mapping two sequences with the same elements gives sequences with the
/// same elements.
pub proof fn lemma_map_same_multiset<A, B>(s1: Seq<A>, s2: Seq<A>, f: spec_fn(A) -> B)
    requires
        s1.to_multiset() == s2.to_multiset(),
    ensures
        s1.map_values(f).to_multiset() == s2.map_values(f).to_multiset(),
    decreases s1.len(),
{
    broadcast use vstd::seq_lib::group_to_multiset_ensures, vstd::multiset::group_multiset_axioms;

    if s1.len() == 0 {
        assert(s1.to_multiset().len() == s1.len());
        assert(s2.to_multiset().len() == s2.len());
        assert(s2.len() == 0);
        assert(s1.map_values(f) =~= s2.map_values(f));
    } else {
        let x = s1.last();
        assert(s1 =~= s1.drop_last().push(x));
        assert(s1.to_multiset().count(x) > 0);
        assert(s2.contains(x));
        let k = choose|k: int| 0 <= k < s2.len() && s2[k] == x;
        let t = s2.remove(k);
        assert(t.len() == s2.len() - 1);
        assert(t.to_multiset() =~= s1.drop_last().to_multiset());
        lemma_map_same_multiset(s1.drop_last(), t, f);
        assert(s1.map_values(f) =~= s1.drop_last().map_values(f).push(f(x)));
        assert(s2.map_values(f) =~= t.map_values(f).insert(k, f(x)));
        to_multiset_insert(t.map_values(f), k, f(x));
    }
}

} // verus!

verus! {

/// No two elements of `m` share a key, and none occurs twice.
pub open spec fn keys_unique<A>(m: Multiset<A>, key: spec_fn(A) -> Seq<char>) -> bool {
    &&& forall|x: A| #[trigger] m.count(x) <= 1
    &&& forall|x: A, y: A|
        #[trigger] m.count(x) > 0 && #[trigger] m.count(y) > 0 && key(x) == key(y) ==> x == y
}

pub open spec fn ascending<A>(s: Seq<A>, key: spec_fn(A) -> Seq<char>) -> bool {
    forall|i: int, j: int| 0 <= i < j < s.len() ==> path_le(key(#[trigger] s[i]), key(#[trigger] s[j]))
}

/// Two ascending arrangements of the same elements, with no key shared, are
/// the same sequence.
pub proof fn lemma_ascending_unique<A>(s1: Seq<A>, s2: Seq<A>, key: spec_fn(A) -> Seq<char>)
    requires
        s1.to_multiset() == s2.to_multiset(),
        keys_unique(s1.to_multiset(), key),
        ascending(s1, key),
        ascending(s2, key),
    ensures
        s1 == s2,
    decreases s1.len(),
{
    broadcast use vstd::seq_lib::group_to_multiset_ensures, vstd::multiset::group_multiset_axioms;

    let m = s1.to_multiset();
    assert(s1.len() == m.len() && s2.len() == m.len());
    if s1.len() == 0 {
        assert(s1 =~= s2);
    } else {
        let a = s1[0];
        let b = s2[0];
        assert(s1.contains(b)) by {
            assert(m.count(b) > 0);
        }
        assert(s2.contains(a)) by {
            assert(m.count(a) > 0);
        }
        let j1 = choose|j: int| 0 <= j < s1.len() && s1[j] == b;
        let j2 = choose|j: int| 0 <= j < s2.len() && s2[j] == a;
        if j1 > 0 {
            assert(path_le(key(s1[0]), key(s1[j1])));
        } else {
            lemma_path_lt_irreflexive(key(a));
        }
        if j2 > 0 {
            assert(path_le(key(s2[0]), key(s2[j2])));
        } else {
            lemma_path_lt_irreflexive(key(b));
        }
        lemma_path_lt_total(key(a), key(b));
        assert(m.count(a) > 0 && m.count(b) > 0);
        assert(a == b);
        let t1 = s1.drop_first();
        let t2 = s2.drop_first();
        assert(s1.remove(0) == t1);
        assert(s2.remove(0) == t2);
        assert(t1.to_multiset() == m.remove(a));
        assert(t2.to_multiset() == m.remove(a));
        assert(keys_unique(t1.to_multiset(), key)) by {
            assert forall|x: A, y: A|
                #[trigger] t1.to_multiset().count(x) > 0 && #[trigger] t1.to_multiset().count(y) > 0
                    && key(x) == key(y) implies x == y by {
                assert(m.count(x) > 0 && m.count(y) > 0);
            }
        }
        assert(ascending(t1, key)) by {
            assert forall|i: int, j: int| 0 <= i < j < t1.len() implies path_le(
                key(#[trigger] t1[i]),
                key(#[trigger] t1[j]),
            ) by {
                assert(t1[i] == s1[i + 1] && t1[j] == s1[j + 1]);
            }
        }
        assert(ascending(t2, key)) by {
            assert forall|i: int, j: int| 0 <= i < j < t2.len() implies path_le(
                key(#[trigger] t2[i]),
                key(#[trigger] t2[j]),
            ) by {
                assert(t2[i] == s2[i + 1] && t2[j] == s2[j + 1]);
            }
        }
        lemma_ascending_unique(t1, t2, key);
        assert(s1 =~= seq![a] + t1);
        assert(s2 =~= seq![b] + t2);
    }
}

} // verus!
