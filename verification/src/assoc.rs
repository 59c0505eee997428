//! Lists of keys and values, read as maps.
use vstd::prelude::*;

verus! {

/// No key occurs twice.
pub open spec fn distinct_keys<K, V>(list: Seq<(K, V)>) -> bool {
    forall|i: int, j: int|
        0 <= i < list.len() && 0 <= j < list.len() && (#[trigger] list[i]).0 == (#[trigger] list[j]).0 ==> i == j
}

/// The key occurs.
pub open spec fn has_key<K, V>(list: Seq<(K, V)>, key: K) -> bool {
    exists|i: int| 0 <= i < list.len() && (#[trigger] list[i]).0 == key
}

/// Where the key is.
pub open spec fn key_index<K, V>(list: Seq<(K, V)>, key: K) -> int {
    choose|i: int| 0 <= i < list.len() && (#[trigger] list[i]).0 == key
}

/// The values by their keys.
pub open spec fn map_of<K, V>(list: Seq<(K, V)>) -> Map<K, V> {
    Map::new(|key: K| has_key(list, key), |key: K| list[key_index(list, key)].1)
}

/// The key at a place is found there.
pub proof fn lemma_key_at<K, V>(list: Seq<(K, V)>, i: int)
    requires
        distinct_keys(list),
        0 <= i < list.len(),
    ensures
        has_key(list, list[i].0),
        key_index(list, list[i].0) == i,
        map_of(list).dom().contains(list[i].0),
        map_of(list)[list[i].0] == list[i].1,
{
}

/// Another value for a key of the list.
pub proof fn lemma_update<K, V>(list: Seq<(K, V)>, i: int, value: V)
    requires
        distinct_keys(list),
        0 <= i < list.len(),
    ensures
        distinct_keys(list.update(i, (list[i].0, value))),
        map_of(list.update(i, (list[i].0, value))) == map_of(list).insert(list[i].0, value),
{
    let after = list.update(i, (list[i].0, value));
    assert forall|a: int, b: int|
        0 <= a < after.len() && 0 <= b < after.len() && (#[trigger] after[a]).0 == (#[trigger] after[b]).0 implies a
        == b by {
        assert(after[a].0 == list[a].0);
        assert(after[b].0 == list[b].0);
    }
    let left = map_of(after);
    let right = map_of(list).insert(list[i].0, value);
    assert forall|k: K| left.dom().contains(k) <==> right.dom().contains(k) by {
        if left.dom().contains(k) {
            let j = key_index(after, k);
            assert(list[j].0 == after[j].0);
            assert(has_key(list, k));
        }
        if right.dom().contains(k) {
            let j = if k == list[i].0 {
                i
            } else {
                key_index(list, k)
            };
            assert(after[j].0 == list[j].0);
            assert(has_key(after, k));
        }
    }
    assert forall|k: K| left.dom().contains(k) implies left[k] == right[k] by {
        let j = key_index(after, k);
        assert(after[j].0 == k);
        assert(list[j].0 == k);
        lemma_key_at(list, j);
        lemma_key_at(after, j);
        if k == list[i].0 {
            lemma_key_at(list, i);
        }
    }
    assert(left =~= right);
}

/// One more key behind the others.
pub proof fn lemma_push<K, V>(list: Seq<(K, V)>, key: K, value: V)
    requires
        distinct_keys(list),
        !has_key(list, key),
    ensures
        distinct_keys(list.push((key, value))),
        map_of(list.push((key, value))) == map_of(list).insert(key, value),
{
    let after = list.push((key, value));
    assert forall|a: int, b: int|
        0 <= a < after.len() && 0 <= b < after.len() && (#[trigger] after[a]).0 == (#[trigger] after[b]).0 implies a
        == b by {
        if a < list.len() {
            assert(after[a] == list[a]);
        }
        if b < list.len() {
            assert(after[b] == list[b]);
        }
    }
    assert(after[list.len() as int] == (key, value));
    let left = map_of(after);
    let right = map_of(list).insert(key, value);
    assert forall|k: K| left.dom().contains(k) <==> right.dom().contains(k) by {
        if left.dom().contains(k) {
            let j = key_index(after, k);
            if j < list.len() {
                assert(list[j].0 == after[j].0);
                assert(has_key(list, k));
            }
        }
        if right.dom().contains(k) && k != key {
            let j = key_index(list, k);
            assert(after[j].0 == list[j].0);
            assert(has_key(after, k));
        }
    }
    assert forall|k: K| left.dom().contains(k) implies left[k] == right[k] by {
        let j = key_index(after, k);
        assert(after[j].0 == k);
        lemma_key_at(after, j);
        if j < list.len() {
            assert(list[j].0 == k);
            lemma_key_at(list, j);
        }
    }
    assert(left =~= right);
}

/// One key less.
pub proof fn lemma_remove<K, V>(list: Seq<(K, V)>, i: int)
    requires
        distinct_keys(list),
        0 <= i < list.len(),
    ensures
        distinct_keys(list.remove(i)),
        map_of(list.remove(i)) == map_of(list).remove(list[i].0),
{
    let after = list.remove(i);
    assert forall|a: int, b: int|
        0 <= a < after.len() && 0 <= b < after.len() && (#[trigger] after[a]).0 == (#[trigger] after[b]).0 implies a
        == b by {
        let a0 = if a < i { a } else { a + 1 };
        let b0 = if b < i { b } else { b + 1 };
        assert(after[a] == list[a0]);
        assert(after[b] == list[b0]);
    }
    let left = map_of(after);
    let right = map_of(list).remove(list[i].0);
    assert forall|k: K| left.dom().contains(k) <==> right.dom().contains(k) by {
        if left.dom().contains(k) {
            let j = key_index(after, k);
            let j0 = if j < i { j } else { j + 1 };
            assert(after[j] == list[j0]);
            assert(has_key(list, k));
        }
        if right.dom().contains(k) {
            let j0 = key_index(list, k);
            let j = if j0 < i { j0 } else { j0 - 1 };
            assert(after[j] == list[j0]);
            assert(has_key(after, k));
        }
    }
    assert forall|k: K| left.dom().contains(k) implies left[k] == right[k] by {
        let j = key_index(after, k);
        let j0 = if j < i { j } else { j + 1 };
        assert(after[j] == list[j0]);
        lemma_key_at(list, j0);
        lemma_key_at(after, j);
    }
    assert(left =~= right);
}

/// The map of an empty list.
pub proof fn lemma_empty<K, V>()
    ensures
        distinct_keys(Seq::<(K, V)>::empty()),
        map_of(Seq::<(K, V)>::empty()) == Map::<K, V>::empty(),
{
    assert(map_of(Seq::<(K, V)>::empty()) =~= Map::<K, V>::empty());
}

/// There are as many keys as entries.
pub proof fn lemma_len<K, V>(list: Seq<(K, V)>)
    requires
        distinct_keys(list),
    ensures
        map_of(list).dom().finite(),
        map_of(list).dom().len() == list.len(),
    decreases list.len(),
{
    if list.len() == 0 {
        assert(map_of(list).dom() =~= Set::empty());
    } else {
        let rest = list.drop_last();
        let (key, value) = list.last();
        assert forall|a: int, b: int|
            0 <= a < rest.len() && 0 <= b < rest.len() && (#[trigger] rest[a]).0 == (#[trigger] rest[b]).0 implies a
            == b by {
            assert(list[a].0 == list[b].0);
        }
        assert(!has_key(rest, key)) by {
            if has_key(rest, key) {
                let j = key_index(rest, key);
                assert(list[j].0 == list[list.len() - 1].0);
            }
        }
        lemma_len(rest);
        lemma_push(rest, key, value);
        assert(rest.push((key, value)) =~= list);
        assert(map_of(list).dom() =~= map_of(rest).dom().insert(key));
    }
}

}
