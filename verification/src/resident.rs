//! The table of resident programs that lookups read from other threads.
use crate::keys::{lemma_raw_injective, RawKey, RuntimeCacheKey};
use alloy_primitives::map::DefaultHashBuilder;
use dashmap::DashMap;
use std::sync::Arc;
use vstd::prelude::*;

verus! {

/// The handle through which a table of program slots is written. There is one for each table, and
/// it cannot be copied: what it says the table holds stays true until it is itself used to change
/// the table.
#[verifier::external_body]
pub struct TableWriter {
    table: Arc<DashMap<RawKey, u64, DefaultHashBuilder>>,
}

/// A handle through which a table of program slots is read, on whatever thread. It changes nothing.
#[verifier::external_body]
pub struct TableReader {
    table: Arc<DashMap<RawKey, u64, DefaultHashBuilder>>,
}

/// What the table of a writing handle maps each flattened key to.
pub uninterp spec fn table_contents(table: TableWriter) -> Map<RawKey, u64>;

/// Every pair of a key and a slot that the table of a writing handle holds at some time, be it in
/// the past or in the future. The contents of a table change; this does not.
pub uninterp spec fn table_history(table: TableWriter) -> Set<(RawKey, u64)>;

/// Every pair of a key and a slot that the table of a reading handle holds at some time.
pub uninterp spec fn shared_history(table: TableReader) -> Set<(RawKey, u64)>;

/// `DashMap::with_hasher`: a table without keys, and the handle to write it.
#[verifier::external_body]
fn table_new() -> (t: TableWriter)
    ensures
        table_contents(t).dom() == Set::<RawKey>::empty(),
{
    TableWriter { table: Arc::new(DashMap::with_hasher(DefaultHashBuilder::default())) }
}

/// `DashMap::insert`: the key maps to the slot afterwards and no other key is affected. The pair is
/// thus one of those that the table holds at some time.
#[verifier::external_body]
fn table_insert(table: &mut TableWriter, key: RawKey, slot: u64)
    ensures
        table_contents(*final(table)) == table_contents(*old(table)).insert(key, slot),
        table_history(*final(table)) == table_history(*old(table)),
        table_history(*final(table)).contains((key, slot)),
{
    table.table.insert(key, slot);
}

/// `DashMap::remove`: the key is absent afterwards, no other key is affected, and the slot it had
/// is handed out.
#[verifier::external_body]
fn table_remove(table: &mut TableWriter, key: &RawKey) -> (slot: Option<u64>)
    ensures
        table_contents(*final(table)) == table_contents(*old(table)).remove(*key),
        table_history(*final(table)) == table_history(*old(table)),
        slot == (if table_contents(*old(table)).contains_key(*key) {
            Some(table_contents(*old(table))[*key])
        } else {
            None
        }),
{
    table.table.remove(key).map(|entry| entry.1)
}

/// `DashMap::clear`: no key is present afterwards.
#[verifier::external_body]
fn table_clear(table: &mut TableWriter)
    ensures
        table_contents(*final(table)).dom() == Set::<RawKey>::empty(),
        table_history(*final(table)) == table_history(*old(table)),
{
    table.table.clear();
}

/// `DashMap::contains_key`: whether the key is present.
#[verifier::external_body]
fn table_contains(table: &TableWriter, key: &RawKey) -> (r: bool)
    ensures
        r == table_contents(*table).contains_key(*key),
{
    table.table.contains_key(key)
}

/// `DashMap::get`, through a reading handle. A slot that it finds is one that the table holds under
/// that key at some time. Whether it finds one, and which of several, depends on when the table was
/// last written, and is left open.
#[verifier::external_body]
fn table_peek(table: &TableReader, key: &RawKey) -> (slot: Option<u64>)
    ensures
        slot matches Some(s) ==> shared_history(*table).contains((*key, s)),
{
    table.table.get(key).map(|slot| *slot)
}

/// `Arc::clone`: a reading handle to the same table, so that both stand for the same pairs over
/// time. What the table holds at the time of a later read is left open.
#[verifier::external_body]
fn table_share(table: &TableWriter) -> (shared: TableReader)
    ensures
        shared_history(shared) == table_history(*table),
{
    TableReader { table: Arc::clone(&table.table) }
}

/// Pairs of a flattened key and a slot as programs under their keys.
closed spec fn programs(pairs: Set<(RawKey, u64)>) -> Set<(RuntimeCacheKey, u64)> {
    Set::new(
        |program: (RuntimeCacheKey, u64)| pairs.contains((program.0.spec_raw(), program.1)),
    )
}

/// The writing end of the table of resident programs. A program is named by its slot.
pub struct ResidentMap {
    table: TableWriter,
}

/// A reading end of the table of resident programs.
pub struct ResidentReader {
    table: TableReader,
}

impl ResidentReader {
    /// The programs that the table holds at some time, each under its key.
    pub closed spec fn view(&self) -> Set<(RuntimeCacheKey, u64)> {
        programs(shared_history(self.table))
    }

    /// The slot of the program that is resident under the key at the time of the call. It is never
    /// that of a program under another key.
    pub fn get(&self, key: &RuntimeCacheKey) -> (slot: Option<u64>)
        ensures
            slot matches Some(s) ==> self@.contains((*key, s)),
    {
        table_peek(&self.table, &key.raw())
    }
}

impl ResidentMap {
    /// The slot that each resident key maps to.
    pub closed spec fn view(&self) -> Map<RuntimeCacheKey, u64> {
        Map::new(
            |k: RuntimeCacheKey| table_contents(self.table).contains_key(k.spec_raw()),
            |k: RuntimeCacheKey| table_contents(self.table)[k.spec_raw()],
        )
    }

    /// The programs that the table holds at some time, each under its key: those that a reading end
    /// may find.
    pub closed spec fn publications(&self) -> Set<(RuntimeCacheKey, u64)> {
        programs(table_history(self.table))
    }

    /// The programs that are resident now are among those that the table holds at some time.
    pub open spec fn wf(&self) -> bool {
        forall|k: RuntimeCacheKey| #[trigger]
            self@.contains_key(k) ==> self.publications().contains((k, self@[k]))
    }

    /// A table without programs.
    pub fn new() -> (r: ResidentMap)
        ensures
            r.wf(),
            r@ == Map::<RuntimeCacheKey, u64>::empty(),
    {
        let r = ResidentMap { table: table_new() };
        assert(r@ =~= Map::<RuntimeCacheKey, u64>::empty());
        r
    }

    /// A further reading end of the table.
    pub fn reader(&self) -> (r: ResidentReader)
        ensures
            r@ == self.publications(),
    {
        ResidentReader { table: table_share(&self.table) }
    }

    /// Whether a program is resident under the key.
    pub fn contains_key(&self, key: &RuntimeCacheKey) -> (r: bool)
        ensures
            r == self@.contains_key(*key),
    {
        table_contains(&self.table, &key.raw())
    }

    /// Makes the program in `slot` resident under the key.
    pub fn insert(&mut self, key: RuntimeCacheKey, slot: u64)
        requires
            old(self).wf(),
        ensures
            final(self).wf(),
            final(self)@ == old(self)@.insert(key, slot),
            final(self).publications() == old(self).publications(),
    {
        table_insert(&mut self.table, key.raw(), slot);
        proof {
            assert forall|k: RuntimeCacheKey| k.spec_raw() == key.spec_raw() implies k == key by {
                lemma_raw_injective(k, key);
            }
            assert(self@ =~= old(self)@.insert(key, slot));
        }
    }

    /// Takes the program under the key out of the table.
    pub fn remove(&mut self, key: &RuntimeCacheKey) -> (slot: Option<u64>)
        requires
            old(self).wf(),
        ensures
            final(self).wf(),
            final(self).publications() == old(self).publications(),
            final(self)@ == old(self)@.remove(*key),
            slot == (if old(self)@.contains_key(*key) { Some(old(self)@[*key]) } else { None }),
    {
        let slot = table_remove(&mut self.table, &key.raw());
        proof {
            assert forall|k: RuntimeCacheKey| k.spec_raw() == key.spec_raw() implies k == *key by {
                lemma_raw_injective(k, *key);
            }
            assert(self@ =~= old(self)@.remove(*key));
        }
        slot
    }

    /// Takes every program out of the table.
    pub fn clear(&mut self)
        ensures
            final(self).wf(),
            final(self).publications() == old(self).publications(),
            final(self)@ == Map::<RuntimeCacheKey, u64>::empty(),
    {
        table_clear(&mut self.table);
        assert(self@ =~= Map::<RuntimeCacheKey, u64>::empty());
    }
}

impl ResidentReader {
    /// What a reader may find under a key is what its table holds under that key at some time, and
    /// nothing that the table holds under another.
    proof fn law_readers_read_their_table(&self, key: RuntimeCacheKey, slot: u64)
        ensures
            self@.contains((key, slot)) <==> shared_history(self.table).contains(
                ((key.code_hash.hi, key.code_hash.lo, key.spec_id.spec_rank()), slot),
            ),
    {
    }
}

impl ResidentMap {
    /// What is resident under a key is what the table holds under that key, and what is published
    /// over time is what the table holds over time.
    proof fn law_programs_are_in_their_table(&self, key: RuntimeCacheKey, slot: u64)
        ensures
            self.publications().contains((key, slot)) <==> table_history(self.table).contains(
                ((key.code_hash.hi, key.code_hash.lo, key.spec_id.spec_rank()), slot),
            ),
            self@.contains_key(key) <==> table_contents(self.table).contains_key(
                (key.code_hash.hi, key.code_hash.lo, key.spec_id.spec_rank()),
            ),
            self@.contains_key(key) ==> self@[key] == table_contents(self.table)[(
                key.code_hash.hi,
                key.code_hash.lo,
                key.spec_id.spec_rank(),
            )],
    {
    }
}

} // verus!
