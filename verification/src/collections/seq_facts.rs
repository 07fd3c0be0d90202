//! Facts about sequences read as sets and maps, for the laws of the crate.

use vstd::prelude::*;

use crate::collections::seq_model::{
    drop_key, insert_unique, key_index, keys_of, last_index, lemma_key_index, lemma_key_index_is,
    lemma_last_index, lookup, minus_seq, put, without,
};

verus! {

/// Whether no two entries of `m` have the same key.
pub open spec fn unique_keys<K, V>(m: Seq<(K, V)>) -> bool {
    keys_of(m).no_duplicates()
}

/// What is put under a key is found there.
pub proof fn lemma_lookup_put_same<K, V>(m: Seq<(K, V)>, k: K, v: V)
    ensures
        lookup(put(m, k, v), k) == Some(v),
        put(m, k, v).len() >= m.len(),
{
    lemma_key_index(m, k);
    let i = key_index(m, k);
    if i >= 0 {
        let p = m.update(i, (k, v));
        assert forall|j: int| i < j < p.len() implies (#[trigger] p[j]).0 != k by {
            assert(p[j] == m[j]);
        }
        lemma_key_index_is(p, k, i);
    } else {
        let p = m.push((k, v));
        assert(p.last() == (k, v));
    }
}

/// What is put under a key leaves every other key as it was.
pub proof fn lemma_lookup_put_other<K, V>(m: Seq<(K, V)>, k: K, v: V, other: K)
    requires
        other != k,
    ensures
        lookup(put(m, k, v), other) == lookup(m, other),
{
    lemma_key_index(m, k);
    lemma_key_index(m, other);
    let i = key_index(m, k);
    let j = key_index(m, other);
    if i >= 0 {
        let p = m.update(i, (k, v));
        assert forall|x: int| j < x < p.len() implies (#[trigger] p[x]).0 != other by {
            if x != i {
                assert(p[x] == m[x]);
            }
        }
        if j >= 0 {
            assert(p[j] == m[j]);
        }
        lemma_key_index_is(p, other, j);
    } else {
        let p = m.push((k, v));
        assert(p.last() == (k, v));
        assert(p.drop_last() =~= m);
    }
}

/// A key that is dropped is not found any more.
pub proof fn lemma_lookup_drop_same<K, V>(m: Seq<(K, V)>, k: K)
    requires
        unique_keys(m),
    ensures
        lookup(drop_key(m, k), k) is None,
{
    lemma_key_index(m, k);
    let i = key_index(m, k);
    if i >= 0 {
        let p = m.remove(i);
        assert forall|x: int| -1 < x < p.len() implies (#[trigger] p[x]).0 != k by {
            let y = if x < i {
                x
            } else {
                x + 1
            };
            assert(p[x] == m[y]);
            if m[y].0 == k {
                assert(keys_of(m)[y] == k);
                assert(keys_of(m)[i] == k);
            }
        }
        lemma_key_index_is(p, k, -1);
    }
}

/// A key that is dropped leaves every other key as it was.
pub proof fn lemma_lookup_drop_other<K, V>(m: Seq<(K, V)>, k: K, other: K)
    requires
        other != k,
    ensures
        lookup(drop_key(m, k), other) == lookup(m, other),
{
    lemma_key_index(m, k);
    lemma_key_index(m, other);
    let i = key_index(m, k);
    let j = key_index(m, other);
    if i >= 0 {
        let p = m.remove(i);
        let j2 = if j < i {
            j
        } else {
            j - 1
        };
        assert forall|x: int| j2 < x < p.len() implies (#[trigger] p[x]).0 != other by {
            let y = if x < i {
                x
            } else {
                x + 1
            };
            assert(p[x] == m[y]);
        }
        if j >= 0 {
            assert(p[j2] == m[j]);
        }
        lemma_key_index_is(p, other, j2);
    }
}

/// Putting a value under a key keeps keys unique.
pub proof fn lemma_put_keeps_unique<K, V>(m: Seq<(K, V)>, k: K, v: V)
    requires
        unique_keys(m),
    ensures
        unique_keys(put(m, k, v)),
{
    lemma_key_index(m, k);
    let i = key_index(m, k);
    let p = put(m, k, v);
    if i >= 0 {
        assert(keys_of(p) =~= keys_of(m));
    } else {
        assert forall|x: int, y: int|
            0 <= x < p.len() && 0 <= y < p.len() && x != y implies keys_of(p)[x] != keys_of(
            p,
        )[y] by {
            if x < m.len() && y < m.len() {
                assert(keys_of(m)[x] != keys_of(m)[y]);
            } else if x < m.len() {
                assert(m[x].0 != k);
            } else {
                assert(m[y].0 != k);
            }
        }
    }
}

/// Dropping a key keeps keys unique.
pub proof fn lemma_drop_keeps_unique<K, V>(m: Seq<(K, V)>, k: K)
    requires
        unique_keys(m),
    ensures
        unique_keys(drop_key(m, k)),
{
    lemma_key_index(m, k);
    let i = key_index(m, k);
    if i >= 0 {
        let p = m.remove(i);
        assert forall|x: int, y: int|
            0 <= x < p.len() && 0 <= y < p.len() && x != y implies keys_of(p)[x] != keys_of(
            p,
        )[y] by {
            let x2 = if x < i {
                x
            } else {
                x + 1
            };
            let y2 = if y < i {
                y
            } else {
                y + 1
            };
            assert(keys_of(m)[x2] != keys_of(m)[y2]);
        }
    }
}

/// An insertion keeps a sequence free of duplicates.
pub proof fn lemma_insert_keeps_distinct<A>(s: Seq<A>, x: A)
    requires
        s.no_duplicates(),
    ensures
        insert_unique(s, x).no_duplicates(),
{
    if !s.contains(x) {
        let p = s.push(x);
        assert forall|i: int, j: int| 0 <= i < p.len() && 0 <= j < p.len() && i != j implies p[i]
            != p[j] by {
            if i < s.len() && j < s.len() {
            } else if i < s.len() {
                assert(s.contains(s[i]));
            } else {
                assert(s.contains(s[j]));
            }
        }
    }
}

/// A sequence without duplicates, once an item is taken out, holds what it
/// held but for that item, and is still without duplicates.
pub proof fn lemma_without_members<A>(s: Seq<A>, x: A, a: A)
    requires
        s.no_duplicates(),
    ensures
        without(s, x).contains(a) <==> s.contains(a) && a != x,
        without(s, x).no_duplicates(),
{
    lemma_last_index(s, x);
    let i = last_index(s, x);
    if i >= 0 {
        let p = s.remove(i);
        assert(p.no_duplicates()) by {
            assert forall|u: int, v: int| 0 <= u < p.len() && 0 <= v < p.len() && u != v implies
                p[u] != p[v] by {
                let u2 = if u < i {
                    u
                } else {
                    u + 1
                };
                let v2 = if v < i {
                    v
                } else {
                    v + 1
                };
                assert(s[u2] != s[v2]);
            }
        }
        if p.contains(a) {
            let u = choose|u: int| 0 <= u < p.len() && p[u] == a;
            let u2 = if u < i {
                u
            } else {
                u + 1
            };
            assert(s[u2] == a);
            assert(s[u2] != s[i]);
        }
        if s.contains(a) && a != x {
            let u = choose|u: int| 0 <= u < s.len() && s[u] == a;
            let u2 = if u < i {
                u
            } else {
                u - 1
            };
            assert(p[u2] == a);
        }
    }
}

/// Taking an item out of a sequence adds nothing to it and takes nothing
/// else away.
pub proof fn lemma_without_between<A>(s: Seq<A>, x: A, a: A)
    ensures
        without(s, x).contains(a) ==> s.contains(a),
        s.contains(a) && a != x ==> without(s, x).contains(a),
{
    lemma_last_index(s, x);
    let i = last_index(s, x);
    if i >= 0 {
        let p = s.remove(i);
        if p.contains(a) {
            let u = choose|u: int| 0 <= u < p.len() && p[u] == a;
            let u2 = if u < i {
                u
            } else {
                u + 1
            };
            assert(s[u2] == a);
        }
        if s.contains(a) && a != x {
            let u = choose|u: int| 0 <= u < s.len() && s[u] == a;
            let u2 = if u < i {
                u
            } else {
                u - 1
            };
            assert(p[u2] == a);
        }
    }
}

/// What is left of `s` without `t` is what `s` holds and `t` does not.
pub proof fn lemma_minus_members<A>(s: Seq<A>, t: Seq<A>, a: A)
    ensures
        minus_seq(s, t).contains(a) <==> s.contains(a) && !t.contains(a),
    decreases s.len(),
{
    if s.len() > 0 {
        lemma_minus_members(s.drop_last(), t, a);
        let r = minus_seq(s.drop_last(), t);
        if s.contains(a) {
            let u = choose|u: int| 0 <= u < s.len() && s[u] == a;
            if u < s.len() - 1 {
                assert(s.drop_last()[u] == a);
            }
        }
        if s.drop_last().contains(a) {
            let u = choose|u: int| 0 <= u < s.len() - 1 && s.drop_last()[u] == a;
            assert(s[u] == a);
        }
        assert(s[s.len() - 1] == s.last());
        if !t.contains(s.last()) {
            let p = r.push(s.last());
            if r.contains(a) {
                let u = choose|u: int| 0 <= u < r.len() && r[u] == a;
                assert(p[u] == a);
            }
            if a == s.last() {
                assert(p[r.len() as int] == a);
            }
            if p.contains(a) {
                let u = choose|u: int| 0 <= u < p.len() && p[u] == a;
                if u < r.len() {
                    assert(r[u] == a);
                }
            }
        }
    }
}

/// An item of a list is its first item or an item of the rest, and the
/// rest holds only items of the list.
pub proof fn lemma_skip_members<A>(s: Seq<A>, a: A)
    requires
        s.len() > 0,
    ensures
        s.skip(1).contains(a) ==> s.contains(a),
        s.contains(a) ==> a == s[0] || s.skip(1).contains(a),
        s.contains(s[0]),
{
    if s.skip(1).contains(a) {
        let j = choose|j: int| 0 <= j < s.skip(1).len() && s.skip(1)[j] == a;
        assert(s[j + 1] == a);
    }
    if s.contains(a) {
        let j = choose|j: int| 0 <= j < s.len() && s[j] == a;
        if j > 0 {
            assert(s.skip(1)[j - 1] == a);
        }
    }
    assert(s[0] == s[0]);
}

/// The keys of a map are the keys under which something is found.
pub proof fn lemma_keys_are_found<K, V>(m: Seq<(K, V)>, k: K)
    ensures
        keys_of(m).contains(k) <==> lookup(m, k) is Some,
{
    lemma_key_index(m, k);
    if keys_of(m).contains(k) {
        let j = choose|j: int| 0 <= j < keys_of(m).len() && keys_of(m)[j] == k;
        assert(m[j].0 == k);
    }
    if lookup(m, k) is Some {
        assert(keys_of(m)[key_index(m, k)] == k);
    }
}

/// What is left of a list without duplicates is without duplicates.
pub proof fn lemma_minus_keeps_distinct<A>(s: Seq<A>, t: Seq<A>)
    requires
        s.no_duplicates(),
    ensures
        minus_seq(s, t).no_duplicates(),
    decreases s.len(),
{
    if s.len() > 0 {
        assert(s.drop_last().no_duplicates());
        lemma_minus_keeps_distinct(s.drop_last(), t);
        let r = minus_seq(s.drop_last(), t);
        lemma_minus_members(s.drop_last(), t, s.last());
        if s.drop_last().contains(s.last()) {
            let j = choose|j: int| 0 <= j < s.len() - 1 && s.drop_last()[j] == s.last();
            assert(s[j] == s[s.len() - 1]);
        }
        if !t.contains(s.last()) {
            let p = r.push(s.last());
            assert forall|i: int, j: int| 0 <= i < p.len() && 0 <= j < p.len() && i != j implies p[i]
                != p[j] by {
                if i < r.len() && j < r.len() {
                } else if i < r.len() {
                    assert(r.contains(r[i]));
                } else {
                    assert(r.contains(r[j]));
                }
            }
        }
    }
}

} // verus!
