//! Sums over the values of a finite map.
use crate::keys::RuntimeCacheKey;
use vstd::prelude::*;

verus! {

/// The sum of the weights of a map's values.
pub open spec fn total<V>(m: Map<RuntimeCacheKey, V>, weight: spec_fn(V) -> nat) -> nat
    decreases m.dom().len(),
{
    if !m.dom().finite() || m.dom().len() == 0 {
        0
    } else {
        let k = m.dom().choose();
        weight(m[k]) + total(m.remove(k), weight)
    }
}

/// A key contributes the weight of its value.
pub proof fn lemma_total_remove<V>(
    m: Map<RuntimeCacheKey, V>,
    weight: spec_fn(V) -> nat,
    key: RuntimeCacheKey,
)
    requires
        m.dom().finite(),
        m.contains_key(key),
    ensures
        total(m, weight) == weight(m[key]) + total(m.remove(key), weight),
    decreases m.dom().len(),
{
    let k = m.dom().choose();
    assert(m.dom().contains(key));
    assert(m.dom().len() > 0);
    assert(m.dom().contains(k));
    if k != key {
        lemma_total_remove(m.remove(k), weight, key);
        lemma_total_remove(m.remove(key), weight, k);
        assert(m.remove(k).remove(key) =~= m.remove(key).remove(k));
    }
}

/// Removing a key that is absent changes nothing.
pub proof fn lemma_total_remove_absent<V>(
    m: Map<RuntimeCacheKey, V>,
    weight: spec_fn(V) -> nat,
    key: RuntimeCacheKey,
)
    requires
        !m.contains_key(key),
    ensures
        m.remove(key) == m,
        total(m.remove(key), weight) == total(m, weight),
{
    assert(m.remove(key) =~= m);
}

/// Mapping a key to a value replaces its contribution.
pub proof fn lemma_total_insert<V>(
    m: Map<RuntimeCacheKey, V>,
    weight: spec_fn(V) -> nat,
    key: RuntimeCacheKey,
    value: V,
)
    requires
        m.dom().finite(),
    ensures
        total(m.insert(key, value), weight) == weight(value) + total(m.remove(key), weight),
{
    let n = m.insert(key, value);
    lemma_total_remove(n, weight, key);
    assert(n.remove(key) =~= m.remove(key));
}

/// Weights of at most one add up to at most the number of keys.
pub proof fn lemma_total_bound<V>(m: Map<RuntimeCacheKey, V>, weight: spec_fn(V) -> nat)
    requires
        m.dom().finite(),
        forall|v: V| #[trigger] weight(v) <= 1,
    ensures
        total(m, weight) <= m.dom().len(),
    decreases m.dom().len(),
{
    if m.dom().len() > 0 {
        let k = m.dom().choose();
        lemma_total_bound(m.remove(k), weight);
    }
}

/// The sum of the weights of the values of a sequence of keys.
pub open spec fn sum_over<V>(
    m: Map<RuntimeCacheKey, V>,
    weight: spec_fn(V) -> nat,
    keys: Seq<RuntimeCacheKey>,
) -> nat
    decreases keys.len(),
{
    if keys.len() == 0 {
        0
    } else {
        sum_over(m, weight, keys.drop_last()) + weight(m[keys.last()])
    }
}

/// The sum over a sequence only depends on the values of its keys.
proof fn lemma_sum_over_frame<V>(
    m: Map<RuntimeCacheKey, V>,
    n: Map<RuntimeCacheKey, V>,
    weight: spec_fn(V) -> nat,
    keys: Seq<RuntimeCacheKey>,
)
    requires
        forall|i: int| 0 <= i < keys.len() ==> m[#[trigger] keys[i]] == n[keys[i]],
    ensures
        sum_over(m, weight, keys) == sum_over(n, weight, keys),
    decreases keys.len(),
{
    if keys.len() > 0 {
        assert forall|i: int| 0 <= i < keys.drop_last().len() implies m[#[trigger] keys.drop_last()[i]]
            == n[keys.drop_last()[i]] by {
            assert(keys.drop_last()[i] == keys[i]);
        }
        lemma_sum_over_frame(m, n, weight, keys.drop_last());
        assert(keys.last() == keys[keys.len() - 1]);
    }
}

/// The sum over a listing of all keys is the sum over the map.
pub proof fn lemma_sum_over_all<V>(
    m: Map<RuntimeCacheKey, V>,
    weight: spec_fn(V) -> nat,
    keys: Seq<RuntimeCacheKey>,
)
    requires
        m.dom().finite(),
        keys.no_duplicates(),
        keys.to_set() == m.dom(),
    ensures
        sum_over(m, weight, keys) == total(m, weight),
    decreases keys.len(),
{
    if keys.len() == 0 {
        assert(m.dom() =~= Set::empty()) by {
            assert forall|k: RuntimeCacheKey| !m.dom().contains(k) by {
                assert(!keys.contains(k));
                assert(!keys.to_set().contains(k));
            }
        }
    } else {
        let last = keys.last();
        let rest = keys.drop_last();
        let n = m.remove(last);
        assert(keys.contains(last));
        assert(keys.to_set().contains(last));
        assert(rest.to_set() =~= n.dom()) by {
            assert forall|k: RuntimeCacheKey| rest.to_set().contains(k) <==> n.dom().contains(k) by {
                if rest.to_set().contains(k) {
                    let i = choose|i: int| 0 <= i < rest.len() && rest[i] == k;
                    assert(keys[i] == k);
                    assert(keys.to_set().contains(k));
                }
                if n.dom().contains(k) {
                    assert(keys.to_set().contains(k));
                    let i = choose|i: int| 0 <= i < keys.len() && keys[i] == k;
                    assert(rest[i] == k);
                }
            }
        }
        lemma_sum_over_all(n, weight, rest);
        lemma_total_remove(m, weight, last);
        assert forall|i: int| 0 <= i < rest.len() implies m[#[trigger] rest[i]] == n[rest[i]] by {
            assert(rest[i] == keys[i]);
            assert(keys[i] != keys[keys.len() - 1]);
        }
        lemma_sum_over_frame(m, n, weight, rest);
    }
}

} // verus!
