//! Sequences of records with distinct keys, read as maps, and weighted sums
//! over sequences. Stores keep their records in vectors; these facts relate
//! an update, insertion or removal at a position to the map and the total it
//! stands for.
use crate::order::Order;
use vstd::prelude::*;

verus! {

/// Some record carries the key.
pub open spec fn key_at<T, K>(s: Seq<T>, key: spec_fn(T) -> K, k: K) -> bool {
    exists|i: int| 0 <= i < s.len() && key(s[i]) == k
}

/// The position of a record with the key.
pub open spec fn index_of_key<T, K>(s: Seq<T>, key: spec_fn(T) -> K, k: K) -> int {
    choose|i: int| 0 <= i < s.len() && key(s[i]) == k
}

/// No two records share a key.
pub open spec fn keys_distinct<T, K>(s: Seq<T>, key: spec_fn(T) -> K) -> bool {
    forall|i: int, j: int|
        0 <= i < s.len() && 0 <= j < s.len() && i != j ==> key(s[i]) != key(s[j])
}

/// The map from each key to the value of its record.
pub open spec fn keyed_map<T, K, V>(s: Seq<T>, key: spec_fn(T) -> K, val: spec_fn(T) -> V) -> Map<
    K,
    V,
> {
    Map::new(|k: K| key_at(s, key, k), |k: K| val(s[index_of_key(s, key, k)]))
}

/// With distinct keys, the chosen position of a record's key is its own.
pub proof fn lemma_index_of_key<T, K>(s: Seq<T>, key: spec_fn(T) -> K, i: int)
    requires
        keys_distinct(s, key),
        0 <= i < s.len(),
    ensures
        key_at(s, key, key(s[i])),
        index_of_key(s, key, key(s[i])) == i,
{
    assert(key_at(s, key, key(s[i])));
}

/// The map entry of each record.
pub proof fn lemma_keyed_map_at<T, K, V>(
    s: Seq<T>,
    key: spec_fn(T) -> K,
    val: spec_fn(T) -> V,
    i: int,
)
    requires
        keys_distinct(s, key),
        0 <= i < s.len(),
    ensures
        keyed_map(s, key, val).contains_key(key(s[i])),
        keyed_map(s, key, val)[key(s[i])] == val(s[i]),
{
    lemma_index_of_key(s, key, i);
}

/// Replacing a record by one with the same key replaces the map entry.
pub proof fn lemma_keyed_map_update<T, K, V>(
    s: Seq<T>,
    key: spec_fn(T) -> K,
    val: spec_fn(T) -> V,
    i: int,
    e: T,
)
    requires
        keys_distinct(s, key),
        0 <= i < s.len(),
        key(e) == key(s[i]),
    ensures
        keys_distinct(s.update(i, e), key),
        keyed_map(s.update(i, e), key, val) == keyed_map(s, key, val).insert(key(e), val(e)),
{
    let t = s.update(i, e);
    assert(keys_distinct(t, key)) by {
        assert forall|a: int, b: int|
            0 <= a < t.len() && 0 <= b < t.len() && a != b implies key(t[a]) != key(t[b]) by {
            assert(key(t[a]) == key(s[a]));
            assert(key(t[b]) == key(s[b]));
        }
    }
    let m1 = keyed_map(t, key, val);
    let m2 = keyed_map(s, key, val).insert(key(e), val(e));
    assert forall|k: K| m1.contains_key(k) <==> m2.contains_key(k) by {
        if key_at(s, key, k) {
            let j = choose|j: int| 0 <= j < s.len() && key(s[j]) == k;
            assert(key(t[j]) == k);
        }
        if key_at(t, key, k) {
            let j = choose|j: int| 0 <= j < t.len() && key(t[j]) == k;
            assert(key(s[j]) == k);
        }
    }
    assert forall|k: K| m1.contains_key(k) implies m1[k] == m2[k] by {
        let j = choose|j: int| 0 <= j < t.len() && key(t[j]) == k;
        lemma_index_of_key(t, key, j);
        if j == i {
            lemma_index_of_key(t, key, i);
        } else {
            lemma_index_of_key(s, key, j);
        }
    }
    assert(m1 =~= m2);
}

/// Inserting a record with a new key adds its map entry.
pub proof fn lemma_keyed_map_insert<T, K, V>(
    s: Seq<T>,
    key: spec_fn(T) -> K,
    val: spec_fn(T) -> V,
    i: int,
    e: T,
)
    requires
        keys_distinct(s, key),
        0 <= i <= s.len(),
        !key_at(s, key, key(e)),
    ensures
        keys_distinct(s.insert(i, e), key),
        keyed_map(s.insert(i, e), key, val) == keyed_map(s, key, val).insert(key(e), val(e)),
{
    let t = s.insert(i, e);
    assert forall|j: int| 0 <= j < t.len() implies #[trigger] t[j] == (if j < i {
        s[j]
    } else if j == i {
        e
    } else {
        s[j - 1]
    }) by {}
    assert(keys_distinct(t, key)) by {
        assert forall|a: int, b: int|
            0 <= a < t.len() && 0 <= b < t.len() && a != b implies key(t[a]) != key(t[b]) by {
            if a != i && b != i {
                let sa = if a < i {
                    a
                } else {
                    a - 1
                };
                let sb = if b < i {
                    b
                } else {
                    b - 1
                };
                assert(key(s[sa]) != key(s[sb]));
            } else if a == i {
                let sb = if b < i {
                    b
                } else {
                    b - 1
                };
                assert(key(s[sb]) != key(e));
            } else {
                let sa = if a < i {
                    a
                } else {
                    a - 1
                };
                assert(key(s[sa]) != key(e));
            }
        }
    }
    let m1 = keyed_map(t, key, val);
    let m2 = keyed_map(s, key, val).insert(key(e), val(e));
    assert forall|k: K| m1.contains_key(k) <==> m2.contains_key(k) by {
        if key_at(s, key, k) {
            let j = choose|j: int| 0 <= j < s.len() && key(s[j]) == k;
            if j < i {
                assert(key(t[j]) == k);
            } else {
                assert(key(t[j + 1]) == k);
            }
        }
        if k == key(e) {
            assert(key(t[i]) == k);
        }
        if key_at(t, key, k) {
            let j = choose|j: int| 0 <= j < t.len() && key(t[j]) == k;
            if j < i {
                assert(key(s[j]) == k);
            } else if j > i {
                assert(key(s[j - 1]) == k);
            }
        }
    }
    assert forall|k: K| m1.contains_key(k) implies m1[k] == m2[k] by {
        let j = choose|j: int| 0 <= j < t.len() && key(t[j]) == k;
        lemma_index_of_key(t, key, j);
        if j < i {
            lemma_index_of_key(s, key, j);
        } else if j > i {
            lemma_index_of_key(s, key, j - 1);
        }
    }
    assert(m1 =~= m2);
}

/// Removing a record removes its map entry.
pub proof fn lemma_keyed_map_remove<T, K, V>(
    s: Seq<T>,
    key: spec_fn(T) -> K,
    val: spec_fn(T) -> V,
    i: int,
)
    requires
        keys_distinct(s, key),
        0 <= i < s.len(),
    ensures
        keys_distinct(s.remove(i), key),
        keyed_map(s.remove(i), key, val) == keyed_map(s, key, val).remove(key(s[i])),
{
    let t = s.remove(i);
    assert forall|j: int| 0 <= j < t.len() implies #[trigger] t[j] == (if j < i {
        s[j]
    } else {
        s[j + 1]
    }) by {}
    assert(keys_distinct(t, key)) by {
        assert forall|a: int, b: int|
            0 <= a < t.len() && 0 <= b < t.len() && a != b implies key(t[a]) != key(t[b]) by {
            let sa = if a < i {
                a
            } else {
                a + 1
            };
            let sb = if b < i {
                b
            } else {
                b + 1
            };
            assert(key(s[sa]) != key(s[sb]));
        }
    }
    let m1 = keyed_map(t, key, val);
    let m2 = keyed_map(s, key, val).remove(key(s[i]));
    assert forall|k: K| m1.contains_key(k) <==> m2.contains_key(k) by {
        if key_at(s, key, k) && k != key(s[i]) {
            let j = choose|j: int| 0 <= j < s.len() && key(s[j]) == k;
            if j < i {
                assert(key(t[j]) == k);
            } else {
                assert(key(t[j - 1]) == k);
            }
        }
        if key_at(t, key, k) {
            let j = choose|j: int| 0 <= j < t.len() && key(t[j]) == k;
            if j < i {
                assert(key(s[j]) == k);
            } else {
                assert(key(s[j + 1]) == k);
            }
        }
    }
    assert forall|k: K| m1.contains_key(k) implies m1[k] == m2[k] by {
        let j = choose|j: int| 0 <= j < t.len() && key(t[j]) == k;
        lemma_index_of_key(t, key, j);
        if j < i {
            lemma_index_of_key(s, key, j);
        } else {
            lemma_index_of_key(s, key, j + 1);
        }
    }
    assert(m1 =~= m2);
}

/// The sum of the weights of the records.
pub open spec fn weight_sum<T>(s: Seq<T>, w: spec_fn(T) -> nat) -> nat
    decreases s.len(),
{
    if s.len() == 0 {
        0
    } else {
        weight_sum(s.drop_last(), w) + w(s.last())
    }
}

/// Replacing a record trades its weight for the new one.
pub proof fn lemma_weight_sum_update<T>(s: Seq<T>, w: spec_fn(T) -> nat, i: int, e: T)
    requires
        0 <= i < s.len(),
    ensures
        weight_sum(s.update(i, e), w) + w(s[i]) == weight_sum(s, w) + w(e),
    decreases s.len(),
{
    let t = s.update(i, e);
    if i == s.len() - 1 {
        assert(t.drop_last() =~= s.drop_last());
    } else {
        assert(t.drop_last() =~= s.drop_last().update(i, e));
        lemma_weight_sum_update(s.drop_last(), w, i, e);
    }
}

/// Inserting a record adds its weight.
pub proof fn lemma_weight_sum_insert<T>(s: Seq<T>, w: spec_fn(T) -> nat, i: int, e: T)
    requires
        0 <= i <= s.len(),
    ensures
        weight_sum(s.insert(i, e), w) == weight_sum(s, w) + w(e),
    decreases s.len(),
{
    let t = s.insert(i, e);
    if i == s.len() {
        assert(t.drop_last() =~= s);
    } else {
        assert(t.drop_last() =~= s.drop_last().insert(i, e));
        lemma_weight_sum_insert(s.drop_last(), w, i, e);
    }
}

/// Removing a record subtracts its weight.
pub proof fn lemma_weight_sum_remove<T>(s: Seq<T>, w: spec_fn(T) -> nat, i: int)
    requires
        0 <= i < s.len(),
    ensures
        weight_sum(s.remove(i), w) + w(s[i]) == weight_sum(s, w),
    decreases s.len(),
{
    let t = s.remove(i);
    if i == s.len() - 1 {
        assert(t =~= s.drop_last());
    } else {
        assert(t.drop_last() =~= s.drop_last().remove(i));
        lemma_weight_sum_remove(s.drop_last(), w, i);
    }
}


/// Every earlier record compares `Less` than every later one.
pub open spec fn sorted_by<T>(s: Seq<T>, ord: spec_fn(T, T) -> Order) -> bool {
    forall|i: int, j: int| 0 <= i < j < s.len() ==> #[trigger] ord(s[i], s[j]) == Order::Less
}

/// `Less` is transitive under the comparison.
pub open spec fn less_is_transitive<T>(ord: spec_fn(T, T) -> Order) -> bool {
    forall|a: T, b: T, c: T|
        #![trigger ord(a, b), ord(b, c)]
        ord(a, b) == Order::Less && ord(b, c) == Order::Less ==> ord(a, c) == Order::Less
}

/// Records that compare `Less` have different keys.
pub open spec fn less_separates<T, K>(ord: spec_fn(T, T) -> Order, key: spec_fn(T) -> K) -> bool {
    forall|a: T, b: T| #[trigger] ord(a, b) == Order::Less ==> key(a) != key(b)
}

/// A sorted sequence has distinct keys.
pub proof fn lemma_sorted_distinct<T, K>(s: Seq<T>, ord: spec_fn(T, T) -> Order, key: spec_fn(T) -> K)
    requires
        sorted_by(s, ord),
        less_separates(ord, key),
    ensures
        keys_distinct(s, key),
{
    assert forall|i: int, j: int|
        0 <= i < s.len() && 0 <= j < s.len() && i != j implies key(s[i]) != key(s[j]) by {
        if i < j {
            assert(ord(s[i], s[j]) == Order::Less);
        } else {
            assert(ord(s[j], s[i]) == Order::Less);
        }
    }
}

/// Inserting a record between smaller and greater ones keeps the order.
pub proof fn lemma_sorted_insert<T>(s: Seq<T>, ord: spec_fn(T, T) -> Order, p: int, x: T)
    requires
        sorted_by(s, ord),
        less_is_transitive(ord),
        0 <= p <= s.len(),
        forall|j: int| 0 <= j < p ==> #[trigger] ord(s[j], x) == Order::Less,
        p < s.len() ==> ord(x, s[p]) == Order::Less,
    ensures
        sorted_by(s.insert(p, x), ord),
{
    let t = s.insert(p, x);
    assert forall|i: int, j: int| 0 <= i < j < t.len() implies #[trigger] ord(t[i], t[j])
        == Order::Less by {
        if j < p {
            assert(ord(s[i], s[j]) == Order::Less);
        } else if j == p {
            assert(ord(s[i], x) == Order::Less);
        } else if i < p {
            assert(ord(s[i], s[j - 1]) == Order::Less);
        } else if i == p {
            if j - 1 > p {
                assert(ord(s[p], s[j - 1]) == Order::Less);
            }
        } else {
            assert(ord(s[i - 1], s[j - 1]) == Order::Less);
        }
    }
}

/// Removing a record keeps the order.
pub proof fn lemma_sorted_remove<T>(s: Seq<T>, ord: spec_fn(T, T) -> Order, p: int)
    requires
        sorted_by(s, ord),
        0 <= p < s.len(),
    ensures
        sorted_by(s.remove(p), ord),
{
    let t = s.remove(p);
    assert forall|i: int, j: int| 0 <= i < j < t.len() implies #[trigger] ord(t[i], t[j])
        == Order::Less by {
        let si = if i < p {
            i
        } else {
            i + 1
        };
        let sj = if j < p {
            j
        } else {
            j + 1
        };
        assert(ord(s[si], s[sj]) == Order::Less);
    }
}

/// Replacing a record by one that compares like it keeps the order.
pub proof fn lemma_sorted_update<T>(s: Seq<T>, ord: spec_fn(T, T) -> Order, p: int, x: T)
    requires
        sorted_by(s, ord),
        0 <= p < s.len(),
        forall|j: int| 0 <= j < s.len() ==> #[trigger] ord(s[j], x) == ord(s[j], s[p]),
        forall|j: int| 0 <= j < s.len() ==> #[trigger] ord(x, s[j]) == ord(s[p], s[j]),
    ensures
        sorted_by(s.update(p, x), ord),
{
    let t = s.update(p, x);
    assert forall|i: int, j: int| 0 <= i < j < t.len() implies #[trigger] ord(t[i], t[j])
        == Order::Less by {
        assert(ord(s[i], s[j]) == Order::Less);
        if i == p {
            assert(ord(x, s[j]) == ord(s[p], s[j]));
        }
        if j == p {
            assert(ord(s[i], x) == ord(s[i], s[p]));
        }
    }
}


/// Summing weights of mapped records is summing the composed weights.
pub proof fn lemma_weight_sum_map<T, U>(
    s: Seq<T>,
    f: spec_fn(T) -> U,
    w: spec_fn(U) -> nat,
    v: spec_fn(T) -> nat,
)
    requires
        forall|i: int| 0 <= i < s.len() ==> #[trigger] v(s[i]) == w(f(s[i])),
    ensures
        weight_sum(s.map_values(f), w) == weight_sum(s, v),
    decreases s.len(),
{
    if s.len() > 0 {
        assert(s.map_values(f).drop_last() =~= s.drop_last().map_values(f));
        assert forall|i: int| 0 <= i < s.drop_last().len() implies #[trigger] v(s.drop_last()[i]) == w(
            f(s.drop_last()[i]),
        ) by {
            assert(s.drop_last()[i] == s[i]);
        }
        lemma_weight_sum_map(s.drop_last(), f, w, v);
        assert(v(s[s.len() - 1]) == w(f(s[s.len() - 1])));
    }
}

/// A prefix weighs what the shorter prefix and the next record weigh.
pub proof fn lemma_weight_sum_take<T>(s: Seq<T>, w: spec_fn(T) -> nat, j: int)
    requires
        0 <= j < s.len(),
    ensures
        weight_sum(s.take(j + 1), w) == weight_sum(s.take(j), w) + w(s[j]),
{
    assert(s.take(j + 1).drop_last() =~= s.take(j));
}

/// A prefix weighs no more than the whole.
pub proof fn lemma_weight_sum_prefix<T>(s: Seq<T>, w: spec_fn(T) -> nat, j: int)
    requires
        0 <= j <= s.len(),
    ensures
        weight_sum(s.take(j), w) <= weight_sum(s, w),
    decreases s.len() - j,
{
    if j < s.len() {
        lemma_weight_sum_take(s, w, j);
        lemma_weight_sum_prefix(s, w, j + 1);
    } else {
        assert(s.take(j) =~= s);
    }
}


/// Records that agree position by position on key and value stand for the
/// same map.
pub proof fn lemma_keyed_map_congruent<T, K, V>(
    s1: Seq<T>,
    s2: Seq<T>,
    key: spec_fn(T) -> K,
    val: spec_fn(T) -> V,
)
    requires
        s1.len() == s2.len(),
        keys_distinct(s1, key),
        forall|i: int|
            0 <= i < s1.len() ==> key(#[trigger] s1[i]) == key(s2[i]) && val(s1[i]) == val(s2[i]),
    ensures
        keys_distinct(s2, key),
        keyed_map(s1, key, val) == keyed_map(s2, key, val),
{
    assert forall|i: int, j: int|
        0 <= i < s2.len() && 0 <= j < s2.len() && i != j implies key(s2[i]) != key(s2[j]) by {
        assert(key(s1[i]) == key(s2[i]));
        assert(key(s1[j]) == key(s2[j]));
    }
    assert forall|k: K| key_at(s1, key, k) == key_at(s2, key, k) by {
        if key_at(s1, key, k) {
            let i = choose|i: int| 0 <= i < s1.len() && key(s1[i]) == k;
            assert(key(s2[i]) == k);
        }
        if key_at(s2, key, k) {
            let i = choose|i: int| 0 <= i < s2.len() && key(s2[i]) == k;
            assert(key(s1[i]) == k);
        }
    }
    assert forall|k: K| key_at(s1, key, k) implies val(s1[index_of_key(s1, key, k)]) == val(
        s2[index_of_key(s2, key, k)],
    ) by {
        let i1 = index_of_key(s1, key, k);
        let i2 = index_of_key(s2, key, k);
        assert(key(s1[i2]) == key(s2[i2]));
        assert(key(s1[i1]) == k);
        assert(i1 == i2);
    }
    assert(keyed_map(s1, key, val) =~= keyed_map(s2, key, val));
}

/// Records whose weights agree position by position weigh the same.
pub proof fn lemma_weight_sum_congruent<T>(s1: Seq<T>, s2: Seq<T>, w: spec_fn(T) -> nat)
    requires
        s1.len() == s2.len(),
        forall|i: int| 0 <= i < s1.len() ==> w(#[trigger] s1[i]) == w(s2[i]),
    ensures
        weight_sum(s1, w) == weight_sum(s2, w),
    decreases s1.len(),
{
    if s1.len() > 0 {
        assert forall|i: int| 0 <= i < s1.drop_last().len() implies w(
            #[trigger] s1.drop_last()[i],
        ) == w(s2.drop_last()[i]) by {
            assert(s1.drop_last()[i] == s1[i]);
            assert(s2.drop_last()[i] == s2[i]);
        }
        lemma_weight_sum_congruent(s1.drop_last(), s2.drop_last(), w);
        assert(w(s1[s1.len() - 1]) == w(s2[s2.len() - 1]));
    }
}

/// With distinct keys, the map has one entry per record.
pub proof fn lemma_keyed_map_len<T, K, V>(s: Seq<T>, key: spec_fn(T) -> K, val: spec_fn(T) -> V)
    requires
        keys_distinct(s, key),
    ensures
        keyed_map(s, key, val).dom().finite(),
        keyed_map(s, key, val).len() == s.len(),
    decreases s.len(),
{
    let m = keyed_map(s, key, val);
    if s.len() == 0 {
        assert(m.dom() =~= Set::<K>::empty());
    } else {
        let i = s.len() - 1;
        lemma_keyed_map_remove(s, key, val, i);
        lemma_keyed_map_at(s, key, val, i);
        lemma_keyed_map_len(s.remove(i), key, val);
        let k = key(s[i]);
        assert(m.dom() =~= keyed_map(s.remove(i), key, val).dom().insert(k));
    }
}

/// The weight a record keeps when it is dropped by the filter `keep`, and
/// nothing when it is kept.
pub open spec fn dropped_weight<T>(keep: spec_fn(T) -> bool, w: spec_fn(T) -> nat) -> spec_fn(
    T,
) -> nat {
    |x: T| if keep(x) {
        0nat
    } else {
        w(x)
    }
}

/// The kept records and the dropped records together weigh the whole.
pub proof fn lemma_weight_sum_filter<T>(s: Seq<T>, keep: spec_fn(T) -> bool, w: spec_fn(T) -> nat)
    ensures
        weight_sum(s.filter(keep), w) + weight_sum(s, dropped_weight(keep, w)) == weight_sum(s, w),
    decreases s.len(),
{
    reveal(Seq::filter);
    if s.len() > 0 {
        lemma_weight_sum_filter(s.drop_last(), keep, w);
        if keep(s.last()) {
            assert(s.filter(keep).drop_last() =~= s.drop_last().filter(keep));
        } else {
            assert(s.filter(keep) =~= s.drop_last().filter(keep));
        }
    }
}

/// Weights that agree on every record give the same sum.
pub proof fn lemma_weight_sum_pointwise<T>(s: Seq<T>, w1: spec_fn(T) -> nat, w2: spec_fn(T) -> nat)
    requires
        forall|i: int| 0 <= i < s.len() ==> #[trigger] w1(s[i]) == w2(s[i]),
    ensures
        weight_sum(s, w1) == weight_sum(s, w2),
    decreases s.len(),
{
    if s.len() > 0 {
        assert forall|i: int| 0 <= i < s.drop_last().len() implies #[trigger] w1(s.drop_last()[i])
            == w2(s.drop_last()[i]) by {
            assert(s.drop_last()[i] == s[i]);
        }
        lemma_weight_sum_pointwise(s.drop_last(), w1, w2);
        assert(w1(s[s.len() - 1]) == w2(s[s.len() - 1]));
    }
}

/// Appending a record adds its weight.
pub proof fn lemma_weight_sum_push<T>(s: Seq<T>, w: spec_fn(T) -> nat, e: T)
    ensures
        weight_sum(s.push(e), w) == weight_sum(s, w) + w(e),
{
    assert(s.push(e).drop_last() =~= s);
}

/// A record weighs no more than the whole.
pub proof fn lemma_weight_sum_member<T>(s: Seq<T>, w: spec_fn(T) -> nat, i: int)
    requires
        0 <= i < s.len(),
    ensures
        w(s[i]) <= weight_sum(s, w),
{
    lemma_weight_sum_remove(s, w, i);
}

/// Filtering records with distinct keys keeps exactly the map entries of
/// the kept records.
pub proof fn lemma_keyed_map_filter<T, K, V>(
    s: Seq<T>,
    keep: spec_fn(T) -> bool,
    key: spec_fn(T) -> K,
    val: spec_fn(T) -> V,
)
    requires
        keys_distinct(s, key),
    ensures
        keys_distinct(s.filter(keep), key),
        forall|k: K|
            #[trigger] keyed_map(s.filter(keep), key, val).contains_key(k) <==> (keyed_map(
                s,
                key,
                val,
            ).contains_key(k) && keep(s[index_of_key(s, key, k)])),
        forall|k: K| #[trigger]
            keyed_map(s.filter(keep), key, val).contains_key(k) ==> keyed_map(
                s.filter(keep),
                key,
                val,
            )[k] == keyed_map(s, key, val)[k],
    decreases s.len(),
{
    reveal(Seq::filter);
    let f = s.filter(keep);
    if s.len() == 0 {
        assert(f =~= s);
    } else {
        let d = s.drop_last();
        let last = s.last();
        let n = s.len() - 1;
        assert(keys_distinct(d, key)) by {
            assert forall|a: int, b: int|
                0 <= a < d.len() && 0 <= b < d.len() && a != b implies key(d[a]) != key(d[b]) by {
                assert(d[a] == s[a] && d[b] == s[b]);
            }
        }
        lemma_keyed_map_filter(d, keep, key, val);
        let fd = d.filter(keep);
        assert(!key_at(d, key, key(last))) by {
            if key_at(d, key, key(last)) {
                let j = choose|j: int| 0 <= j < d.len() && key(d[j]) == key(last);
                assert(s[j] == d[j]);
            }
        }
        assert(s =~= d.insert(d.len() as int, last));
        lemma_keyed_map_insert(d, key, val, d.len() as int, last);
        lemma_index_of_key(s, key, n);
        assert forall|k: K| key_at(d, key, k) implies index_of_key(s, key, k) == index_of_key(
            d,
            key,
            k,
        ) by {
            let j = choose|j: int| 0 <= j < d.len() && key(d[j]) == k;
            lemma_index_of_key(d, key, j);
            assert(s[j] == d[j]);
            lemma_index_of_key(s, key, j);
        }
        if keep(last) {
            assert(!key_at(fd, key, key(last))) by {
                if key_at(fd, key, key(last)) {
                    let j = choose|j: int| 0 <= j < fd.len() && key(fd[j]) == key(last);
                    lemma_index_of_key(fd, key, j);
                    assert(keyed_map(fd, key, val).contains_key(key(last)));
                }
            }
            assert(f =~= fd.insert(fd.len() as int, last));
            lemma_keyed_map_insert(fd, key, val, fd.len() as int, last);
        } else {
            assert(f =~= fd);
        }
    }
}

/// A weight no larger on every record gives a sum no larger.
pub proof fn lemma_weight_sum_le<T>(s: Seq<T>, w1: spec_fn(T) -> nat, w2: spec_fn(T) -> nat)
    requires
        forall|i: int| 0 <= i < s.len() ==> #[trigger] w1(s[i]) <= w2(s[i]),
    ensures
        weight_sum(s, w1) <= weight_sum(s, w2),
    decreases s.len(),
{
    if s.len() > 0 {
        assert forall|i: int| 0 <= i < s.drop_last().len() implies #[trigger] w1(s.drop_last()[i])
            <= w2(s.drop_last()[i]) by {
            assert(s.drop_last()[i] == s[i]);
        }
        lemma_weight_sum_le(s.drop_last(), w1, w2);
        assert(w1(s[s.len() - 1]) <= w2(s[s.len() - 1]));
    }
}

/// Records that all weigh nothing weigh nothing together.
pub proof fn lemma_weight_sum_zero<T>(s: Seq<T>, w: spec_fn(T) -> nat)
    requires
        forall|i: int| 0 <= i < s.len() ==> #[trigger] w(s[i]) == 0,
    ensures
        weight_sum(s, w) == 0,
    decreases s.len(),
{
    if s.len() > 0 {
        assert forall|i: int| 0 <= i < s.drop_last().len() implies #[trigger] w(s.drop_last()[i])
            == 0 by {
            assert(s.drop_last()[i] == s[i]);
        }
        lemma_weight_sum_zero(s.drop_last(), w);
        assert(w(s[s.len() - 1]) == 0);
    }
}


/// Two sequences sorted by a comparison of their keys that read as the same
/// map hold the same keys and values at every position.
pub proof fn lemma_sorted_same_map<T, K, V>(
    s1: Seq<T>,
    s2: Seq<T>,
    ord: spec_fn(T, T) -> Order,
    kord: spec_fn(K, K) -> Order,
    key: spec_fn(T) -> K,
    val: spec_fn(T) -> V,
)
    requires
        sorted_by(s1, ord),
        sorted_by(s2, ord),
        forall|a: T, b: T| #[trigger] ord(a, b) == kord(key(a), key(b)),
        forall|x: K, y: K| #[trigger] kord(x, y) == Order::Less ==> kord(y, x) != Order::Less && x != y,
        keyed_map(s1, key, val) == keyed_map(s2, key, val),
    ensures
        s1.len() == s2.len(),
        forall|i: int| 0 <= i < s1.len() ==> key(#[trigger] s1[i]) == key(s2[i]) && val(s1[i]) == val(s2[i]),
    decreases s1.len(),
{
    assert(less_separates(ord, key)) by {
        assert forall|a: T, b: T| #[trigger] ord(a, b) == Order::Less implies key(a) != key(b) by {
            assert(kord(key(a), key(b)) == Order::Less);
        }
    }
    lemma_sorted_distinct(s1, ord, key);
    lemma_sorted_distinct(s2, ord, key);
    let m = keyed_map(s1, key, val);
    if s1.len() == 0 || s2.len() == 0 {
        if s2.len() > 0 {
            lemma_keyed_map_at(s2, key, val, 0);
            assert(!key_at(s1, key, key(s2[0])));
        }
        if s1.len() > 0 {
            lemma_keyed_map_at(s1, key, val, 0);
            assert(!key_at(s2, key, key(s1[0])));
        }
        return;
    }
    let k1 = key(s1[0]);
    let k2 = key(s2[0]);
    lemma_keyed_map_at(s1, key, val, 0);
    lemma_keyed_map_at(s2, key, val, 0);
    if k1 != k2 {
        let j = choose|j: int| 0 <= j < s2.len() && key(s2[j]) == k1;
        let i = choose|i: int| 0 <= i < s1.len() && key(s1[i]) == k2;
        assert(ord(s2[0], s2[j]) == Order::Less);
        assert(ord(s1[0], s1[i]) == Order::Less);
        assert(kord(k2, k1) == Order::Less);
        assert(kord(k1, k2) == Order::Less);
    }
    lemma_keyed_map_remove(s1, key, val, 0);
    lemma_keyed_map_remove(s2, key, val, 0);
    let t1 = s1.remove(0);
    let t2 = s2.remove(0);
    assert(sorted_by(t1, ord)) by {
        assert forall|a: int, b: int| 0 <= a < b < t1.len() implies #[trigger] ord(t1[a], t1[b]) == Order::Less by {
            assert(t1[a] == s1[a + 1] && t1[b] == s1[b + 1]);
        }
    }
    assert(sorted_by(t2, ord)) by {
        assert forall|a: int, b: int| 0 <= a < b < t2.len() implies #[trigger] ord(t2[a], t2[b]) == Order::Less by {
            assert(t2[a] == s2[a + 1] && t2[b] == s2[b + 1]);
        }
    }
    lemma_sorted_same_map(t1, t2, ord, kord, key, val);
    assert forall|i: int| 0 <= i < s1.len() implies key(#[trigger] s1[i]) == key(s2[i]) && val(s1[i]) == val(s2[i]) by {
        if i > 0 {
            assert(t1[i - 1] == s1[i] && t2[i - 1] == s2[i]);
        }
    }
}

} // verus!
