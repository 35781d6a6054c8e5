//! A hash table from program keys to values.
use crate::keys::{key_of_raw, lemma_raw_injective, lemma_raw_onto, RawKey, RuntimeCacheKey};
use alloy_primitives::map::{DefaultHashBuilder, HashMap};
use vstd::prelude::*;

verus! {

/// `alloy_primitives::map::DefaultHashBuilder`, which seeds the tables' hash function.
#[verifier::external_type_specification]
#[verifier::external_body]
pub struct ExHashBuilder(DefaultHashBuilder);

/// `HashMap::insert`: the key maps to the value afterwards and no other key is affected.
#[verifier::external_body]
fn raw_insert<V>(m: &mut HashMap<RawKey, V>, key: RawKey, value: V)
    ensures
        final(m)@ == old(m)@.insert(key, value),
{
    m.insert(key, value);
}

/// `HashMap::remove`: the key is absent afterwards, no other key is affected, and the value it
/// had is handed out.
#[verifier::external_body]
fn raw_remove<V>(m: &mut HashMap<RawKey, V>, key: &RawKey) -> (r: Option<V>)
    ensures
        final(m)@ == old(m)@.remove(*key),
        r == (if old(m)@.contains_key(*key) { Some(old(m)@[*key]) } else { None }),
{
    m.remove(key)
}

/// `HashMap::get`: the value of the key, if it is present.
#[verifier::external_body]
fn raw_get<'a, V>(m: &'a HashMap<RawKey, V>, key: &RawKey) -> (r: Option<&'a V>)
    ensures
        r == (if m@.contains_key(*key) { Some(&m@[*key]) } else { None }),
{
    m.get(key)
}

/// `HashMap::len`: the number of keys.
#[verifier::external_body]
fn raw_len<V>(m: &HashMap<RawKey, V>) -> (r: usize)
    ensures
        r == m@.dom().len(),
{
    m.len()
}

/// `HashMap::keys`: every key of the table, once. The order is left open.
#[verifier::external_body]
fn raw_keys<V>(m: &HashMap<RawKey, V>) -> (r: Vec<RawKey>)
    ensures
        r@.no_duplicates(),
        r@.to_set() == m@.dom(),
{
    m.keys().copied().collect()
}

/// A hash table from program keys to values.
#[verifier::reject_recursive_types(V)]
pub struct KeyMap<V> {
    m: HashMap<RawKey, V>,
}

impl<V> KeyMap<V> {
    /// The mapping that the table holds.
    pub closed spec fn view(&self) -> Map<RuntimeCacheKey, V> {
        Map::new(
            |k: RuntimeCacheKey| self.m@.contains_key(k.spec_raw()),
            |k: RuntimeCacheKey| self.m@[k.spec_raw()],
        )
    }

    /// Every flattened key in the table stands for a program key.
    pub closed spec fn wf(&self) -> bool {
        &&& self.m@.dom().finite()
        &&& forall|raw: RawKey| #[trigger] self.m@.contains_key(raw) ==> raw.2 < 15
    }

    /// An empty table.
    pub fn new() -> (r: Self)
        ensures
            r.wf(),
            r@ == Map::<RuntimeCacheKey, V>::empty(),
    {
        let r = KeyMap { m: HashMap::default() };
        assert(r@ =~= Map::<RuntimeCacheKey, V>::empty());
        r
    }

    /// Whether the key is present.
    pub fn contains_key(&self, key: &RuntimeCacheKey) -> (r: bool)
        ensures
            r == self@.contains_key(*key),
    {
        raw_get(&self.m, &key.raw()).is_some()
    }

    /// The value of the key, if it is present.
    pub fn get(&self, key: &RuntimeCacheKey) -> (r: Option<&V>)
        ensures
            r == (if self@.contains_key(*key) { Some(&self@[*key]) } else { None }),
    {
        raw_get(&self.m, &key.raw())
    }

    /// The table holds finitely many keys, as many as there are flattened keys.
    proof fn lemma_len(&self)
        requires
            self.wf(),
        ensures
            self@.dom().finite(),
            self@.dom().len() == self.m@.dom().len(),
    {
        let f = |raw: RawKey| key_of_raw(raw);
        assert forall|raw: RawKey| self.m@.dom().contains(raw) implies f(raw).spec_raw() == raw by {
            assert(self.m@.contains_key(raw));
            lemma_raw_onto(raw);
        }
        assert(self.m@.dom().map(f) =~= self@.dom()) by {
            assert forall|k: RuntimeCacheKey| #[trigger] self@.dom().contains(k) implies self.m@.dom().map(
                f,
            ).contains(k) by {
                let raw = k.spec_raw();
                assert(self.m@.dom().contains(raw));
                lemma_raw_injective(f(raw), k);
            }
        }
        vstd::set_lib::lemma_map_size(self.m@.dom(), self@.dom(), f);
    }

    /// The number of keys.
    pub fn len(&self) -> (r: usize)
        requires
            self.wf(),
        ensures
            self@.dom().finite(),
            r == self@.dom().len(),
    {
        proof {
            self.lemma_len();
        }
        raw_len(&self.m)
    }

    /// Maps the key to the value.
    pub fn insert(&mut self, key: RuntimeCacheKey, value: V)
        requires
            old(self).wf(),
        ensures
            final(self).wf(),
            final(self)@ == old(self)@.insert(key, value),
    {
        raw_insert(&mut self.m, key.raw(), value);
        proof {
            assert(self@ =~= old(self)@.insert(key, value)) by {
                assert forall|k: RuntimeCacheKey| k.spec_raw() == key.spec_raw() implies k == key by {
                    lemma_raw_injective(k, key);
                }
            }
        }
    }

    /// Takes the key out of the table.
    pub fn remove(&mut self, key: &RuntimeCacheKey) -> (r: Option<V>)
        requires
            old(self).wf(),
        ensures
            final(self).wf(),
            final(self)@ == old(self)@.remove(*key),
            r == (if old(self)@.contains_key(*key) { Some(old(self)@[*key]) } else { None }),
    {
        let r = raw_remove(&mut self.m, &key.raw());
        proof {
            assert(self@ =~= old(self)@.remove(*key)) by {
                assert forall|k: RuntimeCacheKey| k.spec_raw() == key.spec_raw() implies k == *key by {
                    lemma_raw_injective(k, *key);
                }
            }
        }
        r
    }

    /// Every key of the table, once, in no particular order.
    pub fn keys(&self) -> (r: Vec<RuntimeCacheKey>)
        requires
            self.wf(),
        ensures
            r@.no_duplicates(),
            r@.to_set() == self@.dom(),
            self@.dom().finite(),
            r@.len() == self@.dom().len(),
    {
        let raw = raw_keys(&self.m);
        let mut r: Vec<RuntimeCacheKey> = Vec::new();
        for i in 0..raw.len()
            invariant
                self.wf(),
                raw@.no_duplicates(),
                raw@.to_set() == self.m@.dom(),
                r@.len() == i,
                forall|j: int| 0 <= j < i ==> (#[trigger] r@[j]).spec_raw() == raw@[j],
        {
            assert(raw@.to_set().contains(raw@[i as int]));
            assert(self.m@.contains_key(raw@[i as int]));
            if let Some(key) = RuntimeCacheKey::from_raw(raw[i]) {
                r.push(key);
            }
        }
        proof {
            assert forall|i: int, j: int| 0 <= i < r@.len() && 0 <= j < r@.len() && i != j implies r@[i]
                != r@[j] by {
                assert(raw@[i] != raw@[j]);
            }
            assert(r@.to_set() =~= self@.dom()) by {
                assert forall|k: RuntimeCacheKey| #[trigger] self@.dom().contains(k) implies r@.to_set().contains(
                    k,
                ) by {
                    assert(raw@.to_set().contains(k.spec_raw()));
                    let j = choose|j: int| 0 <= j < raw@.len() && raw@[j] == k.spec_raw();
                    lemma_raw_injective(r@[j], k);
                    assert(r@.contains(k));
                }
                assert forall|k: RuntimeCacheKey| r@.to_set().contains(k) implies self@.dom().contains(
                    k,
                ) by {
                    let j = choose|j: int| 0 <= j < r@.len() && r@[j] == k;
                    assert(raw@.to_set().contains(raw@[j]));
                }
            }
            r@.unique_seq_to_set();
            self.lemma_len();
        }
        r
    }
}

} // verus!
