//! Sequences of key/value pairs kept in strictly increasing key order, the
//! canonical form of the talent store's maps.

use vstd::prelude::*;

verus! {

/// The value paired with `k` in `s`, the first such pair if several.
pub open spec fn lookup<K, V>(s: Seq<(K, V)>, k: K) -> Option<V>
    decreases s.len(),
{
    if s.len() == 0 {
        None
    } else if s[0].0 == k {
        Some(s[0].1)
    } else {
        lookup(s.drop_first(), k)
    }
}

/// Strict order on text keys: character codes compared left to right, a
/// proper prefix first.
pub open spec fn lex_lt(a: Seq<char>, b: Seq<char>) -> bool
    decreases a.len(),
{
    if a.len() == 0 {
        b.len() > 0
    } else if b.len() == 0 {
        false
    } else if (a[0] as int) != (b[0] as int) {
        (a[0] as int) < (b[0] as int)
    } else {
        lex_lt(a.drop_first(), b.drop_first())
    }
}

/// Keys strictly increasing by character order.
pub open spec fn text_keys_sorted<V>(s: Seq<(Seq<char>, V)>) -> bool {
    forall|i: int, j: int| 0 <= i < j < s.len() ==> lex_lt(#[trigger] s[i].0, #[trigger] s[j].0)
}

/// Keys strictly increasing.
pub open spec fn index_keys_sorted<V>(s: Seq<(u8, V)>) -> bool {
    forall|i: int, j: int| 0 <= i < j < s.len() ==> (#[trigger] s[i].0) < (#[trigger] s[j].0)
}

/// No key occurs twice.
pub open spec fn keys_unique<K, V>(s: Seq<(K, V)>) -> bool {
    forall|i: int, j: int| 0 <= i < j < s.len() ==> (#[trigger] s[i].0) != (#[trigger] s[j].0)
}

/// With unique keys, the value at a position is the one looked up by its key.
pub proof fn lemma_lookup_at<K, V>(s: Seq<(K, V)>, j: int)
    requires
        keys_unique(s),
        0 <= j < s.len(),
    ensures
        lookup(s, s[j].0) == Some(s[j].1),
    decreases s.len(),
{
    if j > 0 {
        assert(s[0].0 != s[j].0);
        let t = s.drop_first();
        assert(t[j - 1] == s[j]);
        assert forall|a: int, b: int| 0 <= a < b < t.len() implies (#[trigger] t[a].0) != (#[trigger] t[b].0) by {
            assert(s[a + 1].0 != s[b + 1].0);
        }
        lemma_lookup_at(t, j - 1);
    }
}

/// A key that stands nowhere is looked up as absent.
pub proof fn lemma_lookup_absent<K, V>(s: Seq<(K, V)>, k: K)
    requires
        forall|j: int| 0 <= j < s.len() ==> (#[trigger] s[j]).0 != k,
    ensures
        lookup(s, k) is None,
    decreases s.len(),
{
    if s.len() > 0 {
        let t = s.drop_first();
        assert forall|j: int| 0 <= j < t.len() implies (#[trigger] t[j]).0 != k by {
            assert(t[j] == s[j + 1]);
        }
        lemma_lookup_absent(t, k);
    }
}

/// In a sequence of unique keys, each key's value is where the key stands,
/// and a key that stands nowhere has none.
pub proof fn lemma_lookup_unique<K, V>(s: Seq<(K, V)>, k: K)
    requires
        keys_unique(s),
    ensures
        (exists|j: int| 0 <= j < s.len() && s[j].0 == k) ==> lookup(s, k) == Some(
            s[choose|j: int| 0 <= j < s.len() && s[j].0 == k].1,
        ),
        (forall|j: int| 0 <= j < s.len() ==> (#[trigger] s[j]).0 != k) ==> lookup(s, k) is None,
{
    if exists|j: int| 0 <= j < s.len() && s[j].0 == k {
        let j = choose|j: int| 0 <= j < s.len() && s[j].0 == k;
        lemma_lookup_at(s, j);
    } else {
        lemma_lookup_absent(s, k);
    }
}

/// No text sorts before itself.
pub proof fn lemma_lex_irreflexive(a: Seq<char>)
    ensures
        !lex_lt(a, a),
    decreases a.len(),
{
    if a.len() > 0 {
        lemma_lex_irreflexive(a.drop_first());
    }
}

/// Character order is transitive.
pub proof fn lemma_lex_transitive(a: Seq<char>, b: Seq<char>, c: Seq<char>)
    requires
        lex_lt(a, b),
        lex_lt(b, c),
    ensures
        lex_lt(a, c),
    decreases a.len(),
{
    if a.len() > 0 && b.len() > 0 && c.len() > 0 {
        if (a[0] as int) == (b[0] as int) && (b[0] as int) == (c[0] as int) {
            lemma_lex_transitive(a.drop_first(), b.drop_first(), c.drop_first());
        }
    }
}

/// Of two different texts, one sorts first.
pub proof fn lemma_lex_total(a: Seq<char>, b: Seq<char>)
    requires
        a != b,
    ensures
        lex_lt(a, b) || lex_lt(b, a),
    decreases a.len(),
{
    if a.len() > 0 && b.len() > 0 && (a[0] as int) == (b[0] as int) {
        assert(a[0] == b[0]);
        if a.drop_first() == b.drop_first() {
            assert(a =~= seq![a[0]] + a.drop_first());
            assert(b =~= seq![b[0]] + b.drop_first());
        }
        lemma_lex_total(a.drop_first(), b.drop_first());
    } else if a.len() == 0 && b.len() == 0 {
        assert(a =~= b);
    }
}

/// Sorted text keys are unique.
pub proof fn lemma_text_sorted_unique<V>(s: Seq<(Seq<char>, V)>)
    requires
        text_keys_sorted(s),
    ensures
        keys_unique(s),
{
    assert forall|i: int, j: int| 0 <= i < j < s.len() implies (#[trigger] s[i].0) != (#[trigger] s[j].0) by {
        if s[i].0 == s[j].0 {
            lemma_lex_irreflexive(s[i].0);
        }
    }
}

/// Sorted index keys are unique.
pub proof fn lemma_index_sorted_unique<V>(s: Seq<(u8, V)>)
    requires
        index_keys_sorted(s),
    ensures
        keys_unique(s),
{
}

/// Where `k` belongs in text-sorted `s`: every key before it is smaller and
/// the key there, if any, is not.
pub open spec fn text_slot_for<V>(s: Seq<(Seq<char>, V)>, k: Seq<char>, p: int) -> bool {
    &&& 0 <= p <= s.len()
    &&& forall|i: int| 0 <= i < p ==> lex_lt(#[trigger] s[i].0, k)
    &&& p < s.len() ==> !lex_lt(s[p].0, k)
}

/// Where `k` belongs in index-sorted `s`.
pub open spec fn index_slot_for<V>(s: Seq<(u8, V)>, k: u8, p: int) -> bool {
    &&& 0 <= p <= s.len()
    &&& forall|i: int| 0 <= i < p ==> (#[trigger] s[i].0) < k
    &&& p < s.len() ==> s[p].0 >= k
}

/// Inserting a new key where it belongs keeps `s` sorted and adds exactly that key.
pub proof fn lemma_text_insert<V>(s: Seq<(Seq<char>, V)>, k: Seq<char>, v: V, p: int)
    requires
        text_keys_sorted(s),
        text_slot_for(s, k, p),
        p < s.len() ==> s[p].0 != k,
    ensures
        text_keys_sorted(s.insert(p, (k, v))),
        forall|q: Seq<char>| #[trigger] lookup(s.insert(p, (k, v)), q) == if q == k {
            Some(v)
        } else {
            lookup(s, q)
        },
{
    let t = s.insert(p, (k, v));
    if p < s.len() {
        lemma_lex_total(s[p].0, k);
    }
    assert forall|i: int, j: int| 0 <= i < j < t.len() implies lex_lt(#[trigger] t[i].0, #[trigger] t[j].0) by {
        if j == p {
        } else if i == p {
            if j > p + 1 {
                lemma_lex_transitive(k, s[p].0, s[j - 1].0);
            }
        } else if i < p && j > p {
            assert(lex_lt(s[i].0, k));
            if j > p + 1 {
                lemma_lex_transitive(k, s[p].0, s[j - 1].0);
            }
            lemma_lex_transitive(s[i].0, k, s[j - 1].0);
        } else if j < p {
        } else {
            assert(t[i] == s[i - 1] && t[j] == s[j - 1]);
        }
    }
    lemma_text_sorted_unique(s);
    lemma_text_sorted_unique(t);
    assert forall|q: Seq<char>| #[trigger] lookup(t, q) == if q == k { Some(v) } else { lookup(s, q) } by {
        lemma_lookup_unique(s, q);
        lemma_lookup_unique(t, q);
        if q == k {
            lemma_lookup_at(t, p);
        } else {
            if exists|j: int| 0 <= j < s.len() && s[j].0 == q {
                let j = choose|j: int| 0 <= j < s.len() && s[j].0 == q;
                lemma_lookup_at(s, j);
                if j < p {
                    assert(t[j] == s[j]);
                    lemma_lookup_at(t, j);
                } else {
                    assert(t[j + 1] == s[j]);
                    lemma_lookup_at(t, j + 1);
                }
            } else {
                assert forall|j: int| 0 <= j < t.len() implies (#[trigger] t[j]).0 != q by {
                    if j < p {
                        assert(t[j] == s[j]);
                    } else if j > p {
                        assert(t[j] == s[j - 1]);
                    }
                }
            }
        }
    }
}

/// Replacing the value at a position keeps the keys and changes only that key's value.
pub proof fn lemma_update_value<K, V>(s: Seq<(K, V)>, p: int, v: V)
    requires
        keys_unique(s),
        0 <= p < s.len(),
    ensures
        keys_unique(s.update(p, (s[p].0, v))),
        forall|q: K| #[trigger] lookup(s.update(p, (s[p].0, v)), q) == if q == s[p].0 {
            Some(v)
        } else {
            lookup(s, q)
        },
{
    let t = s.update(p, (s[p].0, v));
    assert forall|i: int, j: int| 0 <= i < j < t.len() implies (#[trigger] t[i].0) != (#[trigger] t[j].0) by {
        assert(t[i].0 == s[i].0 && t[j].0 == s[j].0);
    }
    assert forall|q: K| #[trigger] lookup(t, q) == if q == s[p].0 { Some(v) } else { lookup(s, q) } by {
        lemma_lookup_unique(s, q);
        lemma_lookup_unique(t, q);
        if q == s[p].0 {
            lemma_lookup_at(t, p);
        } else if exists|j: int| 0 <= j < s.len() && s[j].0 == q {
            let j = choose|j: int| 0 <= j < s.len() && s[j].0 == q;
            lemma_lookup_at(s, j);
            lemma_lookup_at(t, j);
        } else {
            assert forall|j: int| 0 <= j < t.len() implies (#[trigger] t[j]).0 != q by {
                assert(t[j].0 == s[j].0);
            }
        }
    }
}

/// Inserting a new index where it belongs keeps `s` sorted and adds exactly that key.
pub proof fn lemma_index_insert<V>(s: Seq<(u8, V)>, k: u8, v: V, p: int)
    requires
        index_keys_sorted(s),
        index_slot_for(s, k, p),
        p < s.len() ==> s[p].0 != k,
    ensures
        index_keys_sorted(s.insert(p, (k, v))),
        forall|q: u8| #[trigger] lookup(s.insert(p, (k, v)), q) == if q == k {
            Some(v)
        } else {
            lookup(s, q)
        },
{
    let t = s.insert(p, (k, v));
    assert forall|i: int, j: int| 0 <= i < j < t.len() implies (#[trigger] t[i].0) < (#[trigger] t[j].0) by {
        if i < p && j > p {
            assert(t[j] == s[j - 1]);
            if j > p + 1 {
                assert(s[p].0 < s[j - 1].0);
            }
        } else if i == p && j > p + 1 {
            assert(s[p].0 < s[j - 1].0);
        } else if i > p {
            assert(t[i] == s[i - 1] && t[j] == s[j - 1]);
        }
    }
    lemma_index_sorted_unique(s);
    lemma_index_sorted_unique(t);
    assert forall|q: u8| #[trigger] lookup(t, q) == if q == k { Some(v) } else { lookup(s, q) } by {
        lemma_lookup_unique(s, q);
        lemma_lookup_unique(t, q);
        if q == k {
            lemma_lookup_at(t, p);
        } else if exists|j: int| 0 <= j < s.len() && s[j].0 == q {
            let j = choose|j: int| 0 <= j < s.len() && s[j].0 == q;
            lemma_lookup_at(s, j);
            if j < p {
                assert(t[j] == s[j]);
                lemma_lookup_at(t, j);
            } else {
                assert(t[j + 1] == s[j]);
                lemma_lookup_at(t, j + 1);
            }
        } else {
            assert forall|j: int| 0 <= j < t.len() implies (#[trigger] t[j]).0 != q by {
                if j < p {
                    assert(t[j] == s[j]);
                } else if j > p {
                    assert(t[j] == s[j - 1]);
                }
            }
        }
    }
}

/// A key that is not where it belongs in sorted `s` is absent.
pub proof fn lemma_text_absent<V>(s: Seq<(Seq<char>, V)>, k: Seq<char>, p: int)
    requires
        text_keys_sorted(s),
        text_slot_for(s, k, p),
        p < s.len() ==> s[p].0 != k,
    ensures
        lookup(s, k) is None,
{
    if p < s.len() {
        lemma_lex_total(s[p].0, k);
    }
    assert forall|j: int| 0 <= j < s.len() implies (#[trigger] s[j]).0 != k by {
        if j < p {
            lemma_lex_irreflexive(k);
        } else if j > p {
            if s[j].0 == k {
                lemma_lex_transitive(k, s[p].0, k);
                lemma_lex_irreflexive(k);
            }
        }
    }
    lemma_lookup_absent(s, k);
}

/// An index that is not where it belongs in sorted `s` is absent.
pub proof fn lemma_index_absent<V>(s: Seq<(u8, V)>, k: u8, p: int)
    requires
        index_keys_sorted(s),
        index_slot_for(s, k, p),
        p < s.len() ==> s[p].0 != k,
    ensures
        lookup(s, k) is None,
{
    assert forall|j: int| 0 <= j < s.len() implies (#[trigger] s[j]).0 != k by {
        if j > p {
            assert(s[p].0 < s[j].0);
        }
    }
    lemma_lookup_absent(s, k);
}

/// Taking the first element off a sequence that views as a suffix of `orig`
/// leaves the next suffix.
pub proof fn lemma_drain_step<A, B>(before: Seq<A>, f: spec_fn(A) -> B, orig: Seq<B>, k: int)
    requires
        before.map_values(f) == orig.skip(k),
        before.len() > 0,
        0 <= k <= orig.len(),
    ensures
        before.remove(0).map_values(f) == orig.skip(k + 1),
        f(before[0]) == orig[k],
        k < orig.len(),
        orig.take(k + 1) == orig.take(k).push(orig[k]),
{
    assert(before.map_values(f).len() == before.len());
    assert(before.map_values(f)[0] == f(before[0]));
    assert(before.remove(0).map_values(f) =~= orig.skip(k + 1)) by {
        assert forall|j: int| 0 <= j < before.len() - 1 implies #[trigger] before.remove(0).map_values(f)[j] == orig.skip(k + 1)[j] by {
            assert(before.remove(0)[j] == before[j + 1]);
            assert(before.remove(0).map_values(f)[j] == f(before.remove(0)[j]));
            assert(before.map_values(f)[j + 1] == f(before[j + 1]));
            assert(before.map_values(f)[j + 1] == orig.skip(k)[j + 1]);
            assert(orig.skip(k)[j + 1] == orig[k + j + 1]);
            assert(orig.skip(k + 1)[j] == orig[k + j + 1]);
        }
    }
    assert(orig.take(k + 1) =~= orig.take(k).push(orig[k]));
}

/// Keys strictly increasing under `lt`.
pub open spec fn sorted_by<K, V>(s: Seq<(K, V)>, lt: spec_fn(K, K) -> bool) -> bool {
    forall|i: int, j: int| 0 <= i < j < s.len() ==> lt(#[trigger] s[i].0, #[trigger] s[j].0)
}

/// Two sequences sorted under the same asymmetric order that pair every key
/// with the same value are the same sequence.
pub proof fn lemma_sorted_lookup_eq<K, V>(a: Seq<(K, V)>, b: Seq<(K, V)>, lt: spec_fn(K, K) -> bool)
    requires
        sorted_by(a, lt),
        sorted_by(b, lt),
        forall|x: K, y: K| #[trigger] lt(x, y) ==> !lt(y, x),
        forall|k: K| #[trigger] lookup(a, k) == lookup(b, k),
    ensures
        a == b,
    decreases a.len(),
{
    assert(keys_unique(a)) by {
        assert forall|i: int, j: int| 0 <= i < j < a.len() implies (#[trigger] a[i].0) != (#[trigger] a[j].0) by {
            assert(lt(a[i].0, a[j].0));
        }
    }
    assert(keys_unique(b)) by {
        assert forall|i: int, j: int| 0 <= i < j < b.len() implies (#[trigger] b[i].0) != (#[trigger] b[j].0) by {
            assert(lt(b[i].0, b[j].0));
        }
    }
    if a.len() == 0 {
        if b.len() > 0 {
            lemma_lookup_at(b, 0);
            assert(lookup(a, b[0].0) is None);
        }
        assert(a =~= b);
    } else {
        lemma_lookup_at(a, 0);
        assert(lookup(b, a[0].0) is Some);
        lemma_lookup_unique(b, a[0].0);
        let j = choose|j: int| 0 <= j < b.len() && b[j].0 == a[0].0;
        if j > 0 {
            lemma_lookup_at(b, 0);
            lemma_lookup_unique(a, b[0].0);
            let i = choose|i: int| 0 <= i < a.len() && a[i].0 == b[0].0;
            assert(lt(b[0].0, b[j].0));
            if i > 0 {
                assert(lt(a[0].0, a[i].0));
            }
        }
        lemma_lookup_at(b, j);
        assert(a[0] == b[0]);
        let a2 = a.drop_first();
        let b2 = b.drop_first();
        assert forall|k: K| #[trigger] lookup(a2, k) == lookup(b2, k) by {
            if k == a[0].0 {
                assert forall|x: int| 0 <= x < a2.len() implies (#[trigger] a2[x]).0 != k by {
                    assert(a2[x] == a[x + 1]);
                }
                assert forall|x: int| 0 <= x < b2.len() implies (#[trigger] b2[x]).0 != k by {
                    assert(b2[x] == b[x + 1]);
                }
                lemma_lookup_absent(a2, k);
                lemma_lookup_absent(b2, k);
            } else {
                assert(lookup(a, k) == lookup(a2, k));
                assert(lookup(b, k) == lookup(b2, k));
            }
        }
        assert(sorted_by(a2, lt)) by {
            assert forall|i: int, j: int| 0 <= i < j < a2.len() implies lt(#[trigger] a2[i].0, #[trigger] a2[j].0) by {
                assert(a2[i] == a[i + 1] && a2[j] == a[j + 1]);
            }
        }
        assert(sorted_by(b2, lt)) by {
            assert forall|i: int, j: int| 0 <= i < j < b2.len() implies lt(#[trigger] b2[i].0, #[trigger] b2[j].0) by {
                assert(b2[i] == b[i + 1] && b2[j] == b[j + 1]);
            }
        }
        lemma_sorted_lookup_eq(a2, b2, lt);
        assert(a =~= seq![a[0]] + a2);
        assert(b =~= seq![b[0]] + b2);
    }
}

/// Character order is asymmetric.
pub proof fn lemma_lex_asymmetric()
    ensures
        forall|x: Seq<char>, y: Seq<char>| #[trigger] lex_lt(x, y) ==> !lex_lt(y, x),
{
    assert forall|x: Seq<char>, y: Seq<char>| #[trigger] lex_lt(x, y) implies !lex_lt(y, x) by {
        if lex_lt(y, x) {
            lemma_lex_transitive(x, y, x);
            lemma_lex_irreflexive(x);
        }
    }
}

} // verus!
