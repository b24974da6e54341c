//! Sums over the entries of a finite map.
use vstd::prelude::*;

verus! {

/// The sum of the weights of all values of a finite map.
pub open spec fn map_total<K, V>(m: Map<K, V>, weight: spec_fn(V) -> nat) -> nat
    decreases m.dom().len(),
    when m.dom().finite()
{
    if m.dom().len() == 0 {
        0
    } else {
        let k = m.dom().choose();
        weight(m[k]) + map_total(m.remove(k), weight)
    }
}

/// The sum of the weights at the given keys.
pub open spec fn keys_total<K, V>(m: Map<K, V>, keys: Seq<K>, weight: spec_fn(V) -> nat) -> nat
    decreases keys.len(),
{
    if keys.len() == 0 {
        0
    } else {
        keys_total(m, keys.drop_last(), weight) + weight(m[keys.last()])
    }
}

/// Any key can be taken out first.
pub proof fn map_total_remove<K, V>(m: Map<K, V>, weight: spec_fn(V) -> nat, k: K)
    requires
        m.dom().finite(),
        m.contains_key(k),
    ensures
        map_total(m, weight) == weight(m[k]) + map_total(m.remove(k), weight),
    decreases m.dom().len(),
{
    let c = m.dom().choose();
    assert(m.dom().contains(c));
    assert(m.remove(c).dom() =~= m.dom().remove(c));
    if c != k {
        map_total_remove(m.remove(c), weight, k);
        assert(m.remove(k).dom() =~= m.dom().remove(k));
        assert(m.remove(c).remove(k) =~= m.remove(k).remove(c));
        map_total_remove(m.remove(k), weight, c);
    }
}

/// Adding or replacing one entry.
pub proof fn map_total_insert<K, V>(m: Map<K, V>, weight: spec_fn(V) -> nat, k: K, v: V)
    requires
        m.dom().finite(),
    ensures
        m.insert(k, v).dom().finite(),
        map_total(m.insert(k, v), weight) + (if m.contains_key(k) {
            weight(m[k])
        } else {
            0
        }) == map_total(m, weight) + weight(v),
{
    let n = m.insert(k, v);
    map_total_remove(n, weight, k);
    if m.contains_key(k) {
        map_total_remove(m, weight, k);
        assert(n.remove(k) =~= m.remove(k));
    } else {
        assert(n.remove(k) =~= m);
    }
}

proof fn keys_total_frame<K, V>(
    m: Map<K, V>,
    n: Map<K, V>,
    keys: Seq<K>,
    weight: spec_fn(V) -> nat,
)
    requires
        forall|i: int| 0 <= i < keys.len() ==> m[#[trigger] keys[i]] == n[keys[i]],
    ensures
        keys_total(m, keys, weight) == keys_total(n, keys, weight),
    decreases keys.len(),
{
    if keys.len() > 0 {
        keys_total_frame(m, n, keys.drop_last(), weight);
    }
}

/// Distinct keys sum to no more than the whole map, and to all of it when none
/// is left out.
pub proof fn keys_total_bound<K, V>(m: Map<K, V>, keys: Seq<K>, weight: spec_fn(V) -> nat)
    requires
        m.dom().finite(),
        keys.no_duplicates(),
        forall|i: int| 0 <= i < keys.len() ==> m.contains_key(#[trigger] keys[i]),
    ensures
        keys_total(m, keys, weight) <= map_total(m, weight),
        keys.len() == m.dom().len() ==> keys_total(m, keys, weight) == map_total(m, weight),
    decreases keys.len(),
{
    if keys.len() > 0 {
        let k = keys.last();
        let rest = keys.drop_last();
        let n = m.remove(k);
        assert(n.dom() =~= m.dom().remove(k));
        map_total_remove(m, weight, k);
        assert forall|i: int| 0 <= i < rest.len() implies n.contains_key(#[trigger] rest[i])
            && m[rest[i]] == n[rest[i]] by {
            assert(rest[i] == keys[i]);
            assert(keys[i] != keys[keys.len() - 1]);
        }
        keys_total_frame(m, n, rest, weight);
        keys_total_bound(n, rest, weight);
    }
}

/// The keys of a walk over a map, pair by pair.
pub open spec fn walked_keys<K, V>(pairs: Seq<(&K, &V)>, count: int) -> Seq<K> {
    Seq::new(count as nat, |i: int| *pairs[i].0)
}

/// The keys that a walk over a map meets are distinct keys of the map.
pub proof fn walk_is_distinct<K, V>(m: Map<K, V>, pairs: Seq<(&K, &V)>, count: int)
    requires
        0 <= count <= pairs.len(),
        pairs.no_duplicates(),
        forall|i: int|
            0 <= i < pairs.len() ==> m.contains_key(*(#[trigger] pairs[i]).0) && m[*pairs[i].0]
                == *pairs[i].1,
    ensures
        walked_keys(pairs, count).no_duplicates(),
        forall|i: int|
            0 <= i < count ==> m.contains_key(#[trigger] walked_keys(pairs, count)[i]),
{
    let keys = walked_keys(pairs, count);
    assert forall|i: int, j: int| 0 <= i < count && 0 <= j < count && i != j implies keys[i]
        != keys[j] by {
        assert(pairs[i] != pairs[j]);
    }
}

}
