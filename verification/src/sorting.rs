//! Ordering of strings and of string pairs, and a stable sort by such keys.
//!
//! Strings compare lexicographically by character, which for UTF-8 text is
//! the same order as `str`'s own comparison of bytes.

use vstd::prelude::*;
use vstd::set_lib::{lemma_int_range, lemma_subset_equality, set_int_range};

verus! {

/// `a` sorts strictly before `b`.
pub open spec fn str_lt(a: Seq<char>, b: Seq<char>) -> bool
    decreases a.len(),
{
    if a.len() == 0 {
        b.len() > 0
    } else if b.len() == 0 {
        false
    } else if a[0] != b[0] {
        (a[0] as int) < (b[0] as int)
    } else {
        str_lt(a.drop_first(), b.drop_first())
    }
}

pub proof fn lemma_str_lt_irreflexive(a: Seq<char>)
    ensures
        !str_lt(a, a),
    decreases a.len(),
{
    if a.len() > 0 {
        lemma_str_lt_irreflexive(a.drop_first());
    }
}

pub proof fn lemma_str_lt_transitive(a: Seq<char>, b: Seq<char>, c: Seq<char>)
    requires
        str_lt(a, b),
        str_lt(b, c),
    ensures
        str_lt(a, c),
    decreases a.len(),
{
    if a.len() > 0 && b.len() > 0 && c.len() > 0 {
        if a[0] == b[0] && b[0] == c[0] {
            lemma_str_lt_transitive(a.drop_first(), b.drop_first(), c.drop_first());
        }
    }
}

pub proof fn lemma_str_lt_total(a: Seq<char>, b: Seq<char>)
    ensures
        a == b || str_lt(a, b) || str_lt(b, a),
    decreases a.len(),
{
    if a.len() > 0 && b.len() > 0 {
        if a[0] == b[0] {
            lemma_str_lt_total(a.drop_first(), b.drop_first());
            if a.drop_first() == b.drop_first() {
                assert(a =~= seq![a[0]] + a.drop_first());
                assert(b =~= seq![b[0]] + b.drop_first());
            }
        }
    } else if a.len() == 0 && b.len() == 0 {
        assert(a =~= b);
    }
}

/// Whether `a` sorts strictly before `b`.
pub fn str_less(a: &str, b: &str) -> (r: bool)
    ensures
        r == str_lt(a@, b@),
{
    let la = a.unicode_len();
    let lb = b.unicode_len();
    let mut i: usize = 0;
    assert(a@.skip(0) =~= a@);
    assert(b@.skip(0) =~= b@);
    while i < la && i < lb
        invariant
            la == a@.len(),
            lb == b@.len(),
            i <= la,
            i <= lb,
            str_lt(a@, b@) == str_lt(a@.skip(i as int), b@.skip(i as int)),
        decreases la - i,
    {
        let ca = a.get_char(i);
        let cb = b.get_char(i);
        assert(a@.skip(i as int)[0] == ca);
        assert(b@.skip(i as int)[0] == cb);
        if ca != cb {
            return ca < cb;
        }
        assert(a@.skip(i as int).drop_first() =~= a@.skip(i + 1));
        assert(b@.skip(i as int).drop_first() =~= b@.skip(i + 1));
        i = i + 1;
    }
    la - i == 0 && lb - i > 0
}

/// A sort key of two strings, compared first by the first, then by the
/// second.
pub open spec fn key_lt(a: (Seq<char>, Seq<char>), b: (Seq<char>, Seq<char>)) -> bool {
    str_lt(a.0, b.0) || (a.0 == b.0 && str_lt(a.1, b.1))
}

pub proof fn lemma_key_lt_order(a: (Seq<char>, Seq<char>), b: (Seq<char>, Seq<char>), c: (
    Seq<char>,
    Seq<char>,
))
    ensures
        !key_lt(a, a),
        key_lt(a, b) && key_lt(b, c) ==> key_lt(a, c),
        a == b || key_lt(a, b) || key_lt(b, a),
        !key_lt(b, a) && !key_lt(c, b) ==> !key_lt(c, a),
{
    lemma_str_lt_irreflexive(a.0);
    lemma_str_lt_irreflexive(a.1);
    lemma_str_lt_total(a.0, b.0);
    lemma_str_lt_total(a.1, b.1);
    lemma_str_lt_total(b.0, c.0);
    lemma_str_lt_total(a.0, c.0);
    lemma_str_lt_total(b.1, c.1);
    lemma_str_lt_total(a.1, c.1);
    if str_lt(a.0, b.0) && str_lt(b.0, c.0) {
        lemma_str_lt_transitive(a.0, b.0, c.0);
    }
    if str_lt(a.1, b.1) && str_lt(b.1, c.1) {
        lemma_str_lt_transitive(a.1, b.1, c.1);
    }
    if str_lt(c.0, a.0) && str_lt(a.0, b.0) {
        lemma_str_lt_transitive(c.0, a.0, b.0);
    }
    if str_lt(b.0, c.0) && str_lt(c.0, a.0) {
        lemma_str_lt_transitive(b.0, c.0, a.0);
    }
    if str_lt(c.1, a.1) && str_lt(a.1, b.1) {
        lemma_str_lt_transitive(c.1, a.1, b.1);
    }
    if str_lt(b.1, c.1) && str_lt(c.1, a.1) {
        lemma_str_lt_transitive(b.1, c.1, a.1);
    }
    if str_lt(a.0, b.0) {
        lemma_str_lt_irreflexive(b.0);
    }
    if str_lt(b.0, a.0) && str_lt(a.0, b.0) {
        lemma_str_lt_transitive(b.0, a.0, b.0);
        lemma_str_lt_irreflexive(b.0);
    }
    if str_lt(b.1, a.1) && str_lt(a.1, b.1) {
        lemma_str_lt_transitive(b.1, a.1, b.1);
        lemma_str_lt_irreflexive(b.1);
    }
}

/// `p` lists the positions `0..keys.len()` once each, so that the keys
/// read in that order never decrease and equal keys keep their original
/// order: `p` is the stable sort of `keys`.
pub open spec fn stable_sort_of(keys: Seq<(Seq<char>, Seq<char>)>, p: Seq<int>) -> bool {
    &&& p.len() == keys.len()
    &&& forall|a: int| 0 <= a < p.len() ==> 0 <= #[trigger] p[a] < keys.len()
    &&& forall|a: int, b: int| 0 <= a < b < p.len() ==> p[a] != p[b]
    &&& forall|a: int, b: int|
        0 <= a < b < p.len() ==> !key_lt(keys[#[trigger] p[b]], keys[#[trigger] p[a]])
    &&& forall|a: int, b: int|
        0 <= a < b < p.len() && keys[#[trigger] p[a]] == keys[#[trigger] p[b]] ==> p[a] < p[b]
}

/// A list of distinct positions in `0..n`, `n` long, names every position.
pub(crate) proof fn lemma_positions_onto(p: Seq<int>, n: int, v: int)
    requires
        p.len() == n,
        forall|a: int| 0 <= a < n ==> 0 <= #[trigger] p[a] < n,
        forall|a: int, b: int| 0 <= a < b < n ==> p[a] != p[b],
        0 <= v < n,
    ensures
        exists|a: int| 0 <= a < n && p[a] == v,
{
    assert(p.no_duplicates()) by {
        assert forall|i: int, j: int| 0 <= i < p.len() && 0 <= j < p.len() && i != j implies p[i] != p[j] by {
            if i < j {
            } else {
                assert(p[j] != p[i]);
            }
        }
    }
    p.unique_seq_to_set();
    lemma_int_range(0, n);
    assert(p.to_set().subset_of(set_int_range(0, n))) by {
        assert forall|x: int| p.to_set().contains(x) implies set_int_range(0, n).contains(x) by {
            let a = choose|a: int| 0 <= a < p.len() && p[a] == x;
        }
    }
    lemma_subset_equality(p.to_set(), set_int_range(0, n));
    assert(set_int_range(0, n).contains(v));
    assert(p.to_set().contains(v));
}

proof fn lemma_stable_sorts_agree_from(keys: Seq<(Seq<char>, Seq<char>)>, p: Seq<int>, q: Seq<int>, a: int)
    requires
        stable_sort_of(keys, p),
        stable_sort_of(keys, q),
        0 <= a <= p.len(),
        forall|c: int| 0 <= c < a ==> p[c] == q[c],
    ensures
        forall|c: int| 0 <= c < p.len() ==> p[c] == q[c],
    decreases p.len() - a,
{
    let n = p.len() as int;
    if a < n {
        if p[a] != q[a] {
            lemma_positions_onto(q, n, p[a]);
            let b = choose|b: int| 0 <= b < n && q[b] == p[a];
            lemma_positions_onto(p, n, q[a]);
            let c = choose|c: int| 0 <= c < n && p[c] == q[a];
            if b < a {
                assert(p[b] == q[b]);
                assert(p[b] != p[a]);
            }
            if c < a {
                assert(q[c] == p[c]);
                assert(q[c] != q[a]);
            }
            assert(b > a && c > a);
            assert(!key_lt(keys[q[b]], keys[q[a]]));
            assert(!key_lt(keys[p[c]], keys[p[a]]));
            lemma_key_lt_order(keys[p[a]], keys[q[a]], keys[q[a]]);
            if keys[p[a]] == keys[q[a]] {
                assert(keys[q[a]] == keys[q[b]]);
                assert(q[a] < q[b]);
                assert(keys[p[a]] == keys[p[c]]);
                assert(p[a] < p[c]);
            }
        }
        lemma_stable_sorts_agree_from(keys, p, q, a + 1);
    }
}

/// The stable sort of a list of keys is unique: two position lists that
/// both sort `keys` stably are the same list.
pub proof fn lemma_stable_sort_unique(keys: Seq<(Seq<char>, Seq<char>)>, p: Seq<int>, q: Seq<int>)
    requires
        stable_sort_of(keys, p),
        stable_sort_of(keys, q),
    ensures
        p == q,
{
    lemma_stable_sorts_agree_from(keys, p, q, 0);
    assert(p =~= q);
}

pub open spec fn keys_view(keys: Seq<(String, String)>) -> Seq<(Seq<char>, Seq<char>)> {
    keys.map_values(|k: (String, String)| (k.0@, k.1@))
}

pub open spec fn positions_view(p: Seq<usize>) -> Seq<int> {
    p.map_values(|x: usize| x as int)
}

fn key_less(a: &(String, String), b: &(String, String)) -> (r: bool)
    ensures
        r == key_lt((a.0@, a.1@), (b.0@, b.1@)),
{
    if str_less(a.0.as_str(), b.0.as_str()) {
        true
    } else if a.0 == b.0 {
        str_less(a.1.as_str(), b.1.as_str())
    } else {
        false
    }
}

/// The positions of `keys` in stable sorted order (insertion sort).
pub fn stable_order(keys: &Vec<(String, String)>) -> (p: Vec<usize>)
    ensures
        stable_sort_of(keys_view(keys@), positions_view(p@)),
{
    let ghost ks = keys_view(keys@);
    let mut p: Vec<usize> = Vec::new();
    let mut i: usize = 0;
    while i < keys.len()
        invariant
            i <= keys.len(),
            ks == keys_view(keys@),
            stable_sort_of(ks.take(i as int), positions_view(p@)),
        decreases keys.len() - i,
    {
        let ghost pv = positions_view(p@);
        assert forall|j: int| 0 <= j < p@.len() implies p@[j] < i by {
            assert(pv[j] == p@[j] as int);
        }
        let mut pos: usize = p.len();
        while pos > 0 && key_less(&keys[i], &keys[p[pos - 1]])
            invariant
                i < keys.len(),
                pos <= p.len(),
                p.len() == i,
                ks == keys_view(keys@),
                pv == positions_view(p@),
                forall|j: int| 0 <= j < p@.len() ==> p@[j] < i,
                stable_sort_of(ks.take(i as int), pv),
                forall|j: int| pos <= j < p.len() ==> key_lt(ks[i as int], #[trigger] ks[pv[j]]),
            decreases pos,
        {
            assert(ks[pv[pos - 1]] == (keys@[p@[pos - 1] as int].0@, keys@[p@[pos - 1] as int].1@));
            pos = pos - 1;
        }
        p.insert(pos, i);
        let ghost qv = positions_view(p@);
        assert(qv =~= pv.insert(pos as int, i as int));
        let ghost kt = ks.take(i + 1);
        assert forall|a: int| 0 <= a < pv.len() implies #[trigger] kt[pv[a]] == ks[pv[a]] by {}
        assert(kt[i as int] == ks[i as int]);
        proof {
            if pos > 0 {
                let last = pv[pos - 1];
                assert(!key_lt(ks[i as int], ks[last]));
                assert forall|a: int| 0 <= a < pos implies !key_lt(
                    ks[i as int],
                    #[trigger] ks[pv[a]],
                ) by {
                    if a < pos - 1 {
                        assert(!key_lt(ks.take(i as int)[pv[pos - 1]], ks.take(i as int)[pv[a]]));
                        lemma_key_lt_order(ks[pv[a]], ks[last], ks[i as int]);
                    }
                }
            }
            assert forall|a: int, b: int| 0 <= a < b < qv.len() implies !key_lt(
                kt[#[trigger] qv[b]],
                kt[#[trigger] qv[a]],
            ) by {
                if b < pos {
                    assert(qv[a] == pv[a] && qv[b] == pv[b]);
                    assert(ks.take(i as int)[pv[a]] == ks[pv[a]]);
                    assert(ks.take(i as int)[pv[b]] == ks[pv[b]]);
                } else if b == pos {
                    assert(qv[a] == pv[a]);
                } else if a == pos {
                    assert(qv[b] == pv[b - 1]);
                    assert(key_lt(ks[i as int], ks[pv[b - 1]]));
                    lemma_key_lt_order(ks[i as int], ks[pv[b - 1]], ks[i as int]);
                } else if a < pos {
                    assert(qv[a] == pv[a] && qv[b] == pv[b - 1]);
                    assert(ks.take(i as int)[pv[a]] == ks[pv[a]]);
                    assert(ks.take(i as int)[pv[b - 1]] == ks[pv[b - 1]]);
                } else {
                    assert(qv[a] == pv[a - 1] && qv[b] == pv[b - 1]);
                    assert(ks.take(i as int)[pv[a - 1]] == ks[pv[a - 1]]);
                    assert(ks.take(i as int)[pv[b - 1]] == ks[pv[b - 1]]);
                }
            }
            assert forall|a: int, b: int|
                0 <= a < b < qv.len() && kt[#[trigger] qv[a]] == kt[#[trigger] qv[b]] implies qv[a]
                < qv[b] by {
                if b < pos {
                    assert(qv[a] == pv[a] && qv[b] == pv[b]);
                    assert(ks.take(i as int)[pv[a]] == ks[pv[a]]);
                    assert(ks.take(i as int)[pv[b]] == ks[pv[b]]);
                } else if b == pos {
                    assert(qv[a] == pv[a]);
                } else if a == pos {
                    assert(qv[b] == pv[b - 1]);
                    assert(key_lt(ks[i as int], ks[pv[b - 1]]));
                    lemma_key_lt_order(ks[i as int], ks[i as int], ks[i as int]);
                } else if a < pos {
                    assert(qv[a] == pv[a] && qv[b] == pv[b - 1]);
                    assert(ks.take(i as int)[pv[a]] == ks[pv[a]]);
                    assert(ks.take(i as int)[pv[b - 1]] == ks[pv[b - 1]]);
                } else {
                    assert(qv[a] == pv[a - 1] && qv[b] == pv[b - 1]);
                    assert(ks.take(i as int)[pv[a - 1]] == ks[pv[a - 1]]);
                    assert(ks.take(i as int)[pv[b - 1]] == ks[pv[b - 1]]);
                }
            }
            assert forall|a: int, b: int| 0 <= a < b < qv.len() implies qv[a] != qv[b] by {
                if a != pos && b != pos {
                    let a2 = if a < pos { a } else { a - 1 };
                    let b2 = if b < pos { b } else { b - 1 };
                    assert(qv[a] == pv[a2] && qv[b] == pv[b2]);
                } else if a == pos {
                    assert(qv[b] == pv[b - 1]);
                } else {
                    assert(qv[a] == pv[a]);
                }
            }
            assert forall|a: int| 0 <= a < qv.len() implies 0 <= #[trigger] qv[a] < kt.len() by {
                if a < pos {
                    assert(qv[a] == pv[a]);
                } else if a > pos {
                    assert(qv[a] == pv[a - 1]);
                }
            }
        }
        i = i + 1;
    }
    assert(ks.take(keys.len() as int) =~= ks);
    p
}

} // verus!
