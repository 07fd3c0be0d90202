//! Sequences read as sets and as maps: what the collections of this crate
//! hold, and the facts about them that the rest of the crate uses.

use vstd::prelude::*;

verus! {

/// The views of the items of a sequence, in order.
pub open spec fn view_all<X: View>(s: Seq<X>) -> Seq<X::V> {
    Seq::new(s.len(), |i: int| s[i]@)
}

/// `s` with `a` at its end, unless `s` holds `a` already.
pub open spec fn insert_unique<A>(s: Seq<A>, a: A) -> Seq<A> {
    if s.contains(a) {
        s
    } else {
        s.push(a)
    }
}

/// `s` without the last item equal to `a`.
pub open spec fn without<A>(s: Seq<A>, a: A) -> Seq<A>
    decreases s.len(),
{
    if s.len() == 0 {
        s
    } else if s.last() == a {
        s.drop_last()
    } else {
        without(s.drop_last(), a).push(s.last())
    }
}

/// `s`, then each item of `t` that is not yet there, in the order of `t`.
pub open spec fn union_seq<A>(s: Seq<A>, t: Seq<A>) -> Seq<A>
    decreases t.len(),
{
    if t.len() == 0 {
        s
    } else {
        insert_unique(union_seq(s, t.drop_last()), t.last())
    }
}

/// The items of `s` that `t` does not hold, in the order of `s`.
pub open spec fn minus_seq<A>(s: Seq<A>, t: Seq<A>) -> Seq<A>
    decreases s.len(),
{
    if s.len() == 0 {
        s
    } else if t.contains(s.last()) {
        minus_seq(s.drop_last(), t)
    } else {
        minus_seq(s.drop_last(), t).push(s.last())
    }
}

/// The position of the last entry of `m` under key `k`, or -1.
pub open spec fn key_index<K, V>(m: Seq<(K, V)>, k: K) -> int
    decreases m.len(),
{
    if m.len() == 0 {
        -1
    } else if m.last().0 == k {
        m.len() - 1
    } else {
        key_index(m.drop_last(), k)
    }
}

/// Whether `m` has an entry under key `k`.
pub open spec fn has_key<K, V>(m: Seq<(K, V)>, k: K) -> bool {
    key_index(m, k) >= 0
}

/// The value of the last entry of `m` under key `k`.
pub open spec fn lookup<K, V>(m: Seq<(K, V)>, k: K) -> Option<V> {
    if key_index(m, k) >= 0 {
        Some(m[key_index(m, k)].1)
    } else {
        None
    }
}

/// `m` with `v` under key `k`: in place of the entry that `lookup` finds, or
/// at the end.
pub open spec fn put<K, V>(m: Seq<(K, V)>, k: K, v: V) -> Seq<(K, V)> {
    if key_index(m, k) >= 0 {
        m.update(key_index(m, k), (k, v))
    } else {
        m.push((k, v))
    }
}

/// `m` without the entry that `lookup` finds under key `k`.
pub open spec fn drop_key<K, V>(m: Seq<(K, V)>, k: K) -> Seq<(K, V)> {
    if key_index(m, k) >= 0 {
        m.remove(key_index(m, k))
    } else {
        m
    }
}

/// The keys of `m`, in order.
pub open spec fn keys_of<K, V>(m: Seq<(K, V)>) -> Seq<K> {
    Seq::new(m.len(), |i: int| m[i].0)
}

/// The position of the last item of `s` equal to `a`, or -1.
pub open spec fn last_index<A>(s: Seq<A>, a: A) -> int
    decreases s.len(),
{
    if s.len() == 0 {
        -1
    } else if s.last() == a {
        s.len() - 1
    } else {
        last_index(s.drop_last(), a)
    }
}

/// `key_index` is the position of the last entry under the key, or -1.
pub proof fn lemma_key_index<K, V>(m: Seq<(K, V)>, k: K)
    ensures
        -1 <= key_index(m, k) < m.len(),
        key_index(m, k) >= 0 ==> m[key_index(m, k)].0 == k,
        forall|j: int| key_index(m, k) < j < m.len() ==> (#[trigger] m[j]).0 != k,
    decreases m.len(),
{
    if m.len() > 0 && m.last().0 != k {
        lemma_key_index(m.drop_last(), k);
        let i = key_index(m.drop_last(), k);
        assert forall|j: int| i < j < m.len() implies (#[trigger] m[j]).0 != k by {
            if j < m.len() - 1 {
                assert(m.drop_last()[j] == m[j]);
            }
        }
    }
}

/// The index that `key_index` gives is the one after which no entry has the
/// key.
pub proof fn lemma_key_index_is<K, V>(m: Seq<(K, V)>, k: K, i: int)
    requires
        -1 <= i < m.len(),
        i >= 0 ==> m[i].0 == k,
        forall|j: int| i < j < m.len() ==> (#[trigger] m[j]).0 != k,
    ensures
        key_index(m, k) == i,
    decreases m.len(),
{
    if m.len() > 0 {
        if m.last().0 == k {
        } else {
            lemma_key_index_is(m.drop_last(), k, i);
        }
    }
}

/// `last_index` is the position of the last item equal to the given one,
/// or -1; `without` takes that item out.
pub proof fn lemma_last_index<A>(s: Seq<A>, a: A)
    ensures
        -1 <= last_index(s, a) < s.len(),
        last_index(s, a) >= 0 ==> s[last_index(s, a)] == a,
        forall|j: int| last_index(s, a) < j < s.len() ==> s[j] != a,
        last_index(s, a) >= 0 <==> s.contains(a),
        last_index(s, a) >= 0 ==> without(s, a) == s.remove(last_index(s, a)),
        last_index(s, a) < 0 ==> without(s, a) == s,
    decreases s.len(),
{
    if s.len() > 0 {
        if s.last() == a {
            assert(s.drop_last() =~= s.remove(s.len() - 1));
        } else {
            lemma_last_index(s.drop_last(), a);
            let i = last_index(s.drop_last(), a);
            assert forall|j: int| i < j < s.len() implies s[j] != a by {
                if j < s.len() - 1 {
                    assert(s.drop_last()[j] == s[j]);
                }
            }
            if i >= 0 {
                assert(s.drop_last()[i] == a);
                assert(s[i] == a);
                assert(s.drop_last().remove(i).push(s.last()) =~= s.remove(i));
            } else {
                assert(s.drop_last().push(s.last()) =~= s);
                if s.contains(a) {
                    let j = choose|j: int| 0 <= j < s.len() && s[j] == a;
                    assert(s.drop_last()[j] == a);
                }
            }
        }
    }
}

/// The index that `last_index` gives is the one after which no item equals
/// `a`.
pub proof fn lemma_last_index_is<A>(s: Seq<A>, a: A, i: int)
    requires
        -1 <= i < s.len(),
        i >= 0 ==> s[i] == a,
        forall|j: int| i < j < s.len() ==> s[j] != a,
    ensures
        last_index(s, a) == i,
    decreases s.len(),
{
    if s.len() > 0 {
        if s.last() == a {
        } else {
            lemma_last_index_is(s.drop_last(), a, i);
        }
    }
}

/// A union holds exactly what either side holds.
pub proof fn lemma_union_members<A>(s: Seq<A>, t: Seq<A>)
    ensures
        forall|a: A| #[trigger] union_seq(s, t).contains(a) <==> s.contains(a) || t.contains(a),
    decreases t.len(),
{
    if t.len() > 0 {
        lemma_union_members(s, t.drop_last());
        let u = union_seq(s, t.drop_last());
        assert forall|a: A| #[trigger]
            union_seq(s, t).contains(a) <==> s.contains(a) || t.contains(a) by {
            lemma_insert_members(u, t.last(), a);
            if t.contains(a) {
                let j = choose|j: int| 0 <= j < t.len() && t[j] == a;
                if j < t.len() - 1 {
                    assert(t.drop_last()[j] == a);
                }
            }
            if t.drop_last().contains(a) {
                let j = choose|j: int| 0 <= j < t.len() - 1 && t.drop_last()[j] == a;
                assert(t[j] == a);
            }
            assert(t[t.len() - 1] == t.last());
        }
    } else {
        assert forall|a: A| !t.contains(a) by {}
    }
}

/// After an insertion a sequence holds what it held, and the new item.
pub proof fn lemma_insert_members<A>(s: Seq<A>, x: A, a: A)
    ensures
        insert_unique(s, x).contains(a) <==> s.contains(a) || a == x,
{
    if s.contains(x) {
    } else {
        let p = s.push(x);
        if s.contains(a) {
            let j = choose|j: int| 0 <= j < s.len() && s[j] == a;
            assert(p[j] == a);
        }
        if a == x {
            assert(p[s.len() as int] == a);
        }
        if p.contains(a) {
            let j = choose|j: int| 0 <= j < p.len() && p[j] == a;
            if j < s.len() {
                assert(s[j] == a);
            }
        }
    }
}

/// One more item taken is the items taken so far and the next one.
pub proof fn lemma_take_step<A>(s: Seq<A>, i: int)
    requires
        0 <= i < s.len(),
    ensures
        s.take(i + 1).drop_last() == s.take(i),
        s.take(i + 1).last() == s[i],
        s.take(i + 1) == s.take(i).push(s[i]),
{
    assert(s.take(i + 1).drop_last() =~= s.take(i));
    assert(s.take(i + 1) =~= s.take(i).push(s[i]));
}

/// All items taken are the sequence.
pub proof fn lemma_take_all<A>(s: Seq<A>)
    ensures
        s.take(s.len() as int) == s,
{
    assert(s.take(s.len() as int) =~= s);
}

/// The views of a sequence with one more item are the views and the view
/// of that item.
pub proof fn lemma_view_all_push<X: View>(s: Seq<X>, x: X)
    ensures
        view_all(s.push(x)) == view_all(s).push(x@),
{
    assert(view_all(s.push(x)) =~= view_all(s).push(x@));
}

/// What a search over `edges` adds to `init`: every item that the predicate
/// admits, or, unless `all`, nothing once one item is found.
pub open spec fn search_from<A>(
    init: Seq<A>,
    edges: Seq<A>,
    admits: spec_fn(A) -> bool,
    all: bool,
) -> Seq<A>
    decreases edges.len(),
{
    if edges.len() == 0 {
        init
    } else {
        let found = search_from(init, edges.drop_last(), admits, all);
        if (!all && found.len() > 0) || !admits(edges.last()) {
            found
        } else {
            insert_unique(found, edges.last())
        }
    }
}

/// What a search over `edges` collects: every item that the predicate
/// admits, or only the first of them.
pub open spec fn search<A>(edges: Seq<A>, admits: spec_fn(A) -> bool, all: bool) -> Seq<A> {
    search_from(Seq::empty(), edges, admits, all)
}

/// All items of the lists of `m`, each once, after those of `acc`.
pub open spec fn flatten_into<K, A>(acc: Seq<A>, m: Seq<(K, Seq<A>)>) -> Seq<A>
    decreases m.len(),
{
    if m.len() == 0 {
        acc
    } else {
        flatten_into(union_seq(acc, m[0].1), m.skip(1))
    }
}

/// What is left after skipping begins with the next item.
pub proof fn lemma_skip_step<A>(s: Seq<A>, i: int)
    requires
        0 <= i < s.len(),
    ensures
        s.skip(i).len() > 0,
        s.skip(i)[0] == s[i],
        s.skip(i).skip(1) == s.skip(i + 1),
{
    assert(s.skip(i).skip(1) =~= s.skip(i + 1));
}

/// Skipping nothing leaves all, skipping all leaves nothing.
pub proof fn lemma_skip_none<A>(s: Seq<A>)
    ensures
        s.skip(0) == s,
        s.skip(s.len() as int).len() == 0,
{
    assert(s.skip(0) =~= s);
}

/// The first item of a sequence, if it has one.
pub open spec fn first_of<A>(s: Seq<A>) -> Option<A> {
    if s.len() > 0 {
        Some(s[0])
    } else {
        None
    }
}

/// The entries of `m` with each value replaced by its image under `f`.
pub open spec fn map_values_seq<K, A, B>(m: Seq<(K, A)>, f: spec_fn(A) -> B) -> Seq<(K, B)> {
    Seq::new(m.len(), |i: int| (m[i].0, f(m[i].1)))
}

/// Nothing is lost where nothing is taken away.
pub proof fn lemma_minus_nothing<A>(s: Seq<A>)
    ensures
        minus_seq(s, Seq::<A>::empty()) == s,
    decreases s.len(),
{
    if s.len() > 0 {
        lemma_minus_nothing(s.drop_last());
        assert(s.drop_last().push(s.last()) =~= s);
    }
}

/// The items of `s` that the predicate admits, in order.
pub open spec fn keep<A>(s: Seq<A>, admits: spec_fn(A) -> bool) -> Seq<A>
    decreases s.len(),
{
    if s.len() == 0 {
        s
    } else if admits(s.last()) {
        keep(s.drop_last(), admits).push(s.last())
    } else {
        keep(s.drop_last(), admits)
    }
}

/// `s` with each of `items` taken out, one after the other.
pub open spec fn without_each<A>(s: Seq<A>, items: Seq<A>) -> Seq<A>
    decreases items.len(),
{
    if items.len() == 0 {
        s
    } else {
        without_each(without(s, items[0]), items.skip(1))
    }
}

/// The position of the first item of `s` that the predicate admits, or the
/// length of `s`.
pub open spec fn first_match<A>(s: Seq<A>, admits: spec_fn(A) -> bool) -> int
    decreases s.len(),
{
    if s.len() == 0 {
        0
    } else if admits(s[0]) {
        0
    } else {
        1 + first_match(s.skip(1), admits)
    }
}

/// `first_match` is the position of the first item that the predicate
/// admits, or the length.
pub proof fn lemma_first_match<A>(s: Seq<A>, admits: spec_fn(A) -> bool)
    ensures
        0 <= first_match(s, admits) <= s.len(),
        first_match(s, admits) < s.len() ==> admits(s[first_match(s, admits)]),
        forall|j: int| 0 <= j < first_match(s, admits) ==> !admits(#[trigger] s[j]),
    decreases s.len(),
{
    if s.len() > 0 && !admits(s[0]) {
        lemma_first_match(s.skip(1), admits);
        let k = first_match(s.skip(1), admits);
        assert forall|j: int| 0 <= j < 1 + k implies !admits(#[trigger] s[j]) by {
            if j > 0 {
                assert(s.skip(1)[j - 1] == s[j]);
            }
        }
        if k < s.skip(1).len() {
            assert(s.skip(1)[k] == s[k + 1]);
        }
    }
}

/// The position that `first_match` gives is the first that the predicate
/// admits.
pub proof fn lemma_first_match_is<A>(s: Seq<A>, admits: spec_fn(A) -> bool, i: int)
    requires
        0 <= i <= s.len(),
        i < s.len() ==> admits(s[i]),
        forall|j: int| 0 <= j < i ==> !admits(#[trigger] s[j]),
    ensures
        first_match(s, admits) == i,
    decreases s.len(),
{
    if s.len() > 0 {
        if admits(s[0]) {
            if i > 0 {
                assert(!admits(s[0]));
            }
        } else {
            assert forall|j: int| 0 <= j < i - 1 implies !admits(#[trigger] s.skip(1)[j]) by {
                assert(s.skip(1)[j] == s[j + 1]);
            }
            if i < s.len() {
                assert(s.skip(1)[i - 1] == s[i]);
            }
            lemma_first_match_is(s.skip(1), admits, i - 1);
        }
    }
}

} // verus!
