//! Maps given as a list of distinct keys and a list of values of the same
//! length.

use vstd::prelude::*;

verus! {

/// The map that sends each listed key to the value at the key's position.
pub open spec fn keyed<K, V>(keys: Seq<K>, values: Seq<V>) -> Map<K, V> {
    Map::new(|k: K| keys.contains(k), |k: K| values[keys.index_of(k)])
}

/// In a list without repetitions a key is found where it stands.
pub proof fn lemma_index_of<K>(keys: Seq<K>, i: int)
    requires
        keys.no_duplicates(),
        0 <= i < keys.len(),
    ensures
        keys.contains(keys[i]),
        keys.index_of(keys[i]) == i,
{
    let j = keys.index_of(keys[i]);
    assert(0 <= j < keys.len() && keys[j] == keys[i]);
}

/// Replacing the value at a position replaces the value of the key there.
pub proof fn lemma_keyed_update<K, V>(keys: Seq<K>, values: Seq<V>, i: int, value: V)
    requires
        keys.no_duplicates(),
        keys.len() == values.len(),
        0 <= i < keys.len(),
    ensures
        keyed(keys, values.update(i, value)) == keyed(keys, values).insert(keys[i], value),
{
    let lhs = keyed(keys, values.update(i, value));
    let rhs = keyed(keys, values).insert(keys[i], value);
    lemma_index_of(keys, i);
    assert forall|k: K| lhs.dom().contains(k) implies #[trigger] lhs[k] == rhs[k] by {
        let j = keys.index_of(k);
        assert(0 <= j < keys.len() && keys[j] == k);
    }
    assert(lhs =~= rhs);
}

/// Putting a new key and its value into the lists, at the same position of
/// both, adds the key to the map.
pub proof fn lemma_keyed_insert<K, V>(keys: Seq<K>, values: Seq<V>, pos: int, key: K, value: V)
    requires
        keys.no_duplicates(),
        keys.insert(pos, key).no_duplicates(),
        keys.len() == values.len(),
        0 <= pos <= keys.len(),
        !keys.contains(key),
    ensures
        keyed(keys.insert(pos, key), values.insert(pos, value)) == keyed(keys, values).insert(
            key,
            value,
        ),
{
    let k2 = keys.insert(pos, key);
    let v2 = values.insert(pos, value);
    let lhs = keyed(k2, v2);
    let rhs = keyed(keys, values).insert(key, value);
    assert(k2[pos] == key);
    lemma_index_of(k2, pos);
    assert forall|k: K| lhs.dom().contains(k) <==> rhs.dom().contains(k) by {
        if lhs.dom().contains(k) {
            let j = k2.index_of(k);
            assert(0 <= j < k2.len() && k2[j] == k);
            if j < pos {
                assert(keys[j] == k);
            } else if j > pos {
                assert(keys[j - 1] == k);
            }
        }
        if keys.contains(k) {
            let j = keys.index_of(k);
            assert(0 <= j < keys.len() && keys[j] == k);
            if j < pos {
                assert(k2[j] == k);
            } else {
                assert(k2[j + 1] == k);
            }
        }
    }
    assert forall|k: K| lhs.dom().contains(k) implies #[trigger] lhs[k] == rhs[k] by {
        let j = k2.index_of(k);
        assert(0 <= j < k2.len() && k2[j] == k);
        if j < pos {
            assert(keys[j] == k);
            lemma_index_of(keys, j);
        } else if j > pos {
            assert(keys[j - 1] == k);
            lemma_index_of(keys, j - 1);
        }
    }
    assert(lhs =~= rhs);
}

/// A new key that is none of the listed ones can be appended without
/// repeating a key.
pub proof fn lemma_push_distinct<K>(keys: Seq<K>, key: K)
    requires
        keys.no_duplicates(),
        !keys.contains(key),
    ensures
        keys.push(key).no_duplicates(),
        keys.push(key) == keys.insert(keys.len() as int, key),
{
    assert(keys.push(key) =~= keys.insert(keys.len() as int, key));
    assert forall|i: int, j: int|
        0 <= i < keys.push(key).len() && 0 <= j < keys.push(key).len() && i != j implies keys.push(
        key,
    )[i] != keys.push(key)[j] by {
        if i < keys.len() && j < keys.len() {
            assert(keys[i] != keys[j]);
        } else if i < keys.len() {
            assert(keys.contains(keys[i]));
        } else {
            assert(keys.contains(keys[j]));
        }
    }
}

} // verus!
