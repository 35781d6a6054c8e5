//! Eviction of programs and entries that nobody uses any more.
use super::upkeep::{
    lemma_listings_agree, lemma_push_contains, lemma_remove_entry_inv, lemma_remove_resident_inv,
    lemma_take_contains,
};
use super::{
    entry_views, lists, rows_of, BackendState, BackendStats, BackendView, EntryPhase,
    PersistedAotState,
};
use crate::admission::{lemma_lru_order, lru_order, row_keys, sort_lru};
use crate::clock::Moment;
use crate::config::ProgramKind;
use crate::keys::RuntimeCacheKey;
use vstd::prelude::*;

verus! {

impl BackendView {
    /// Whether a number of JIT bytes is over the budget.
    pub open spec fn over_budget(self, jit_bytes: usize) -> bool {
        self.tuning.resident_code_cache_bytes > 0 && jit_bytes
            > self.tuning.resident_code_cache_bytes
    }

    /// Whether a sweep is due: at once where the JIT code is over its budget, else where eviction
    /// is configured and the interval has passed.
    pub open spec fn sweep_due(self, jit_bytes: usize, now: Moment) -> bool {
        self.over_budget(jit_bytes) || ((self.tuning.idle_evict_duration is Some
            || self.tuning.cold_entry_idle_duration is Some) && now.at_least_after(
            self.last_sweep,
            self.tuning.eviction_sweep_interval,
        ))
    }

    /// Whether a resident program was not hit for too long.
    pub open spec fn is_idle(self, key: RuntimeCacheKey, now: Moment) -> bool {
        match self.tuning.idle_evict_duration {
            Some(idle) => self.resident.contains_key(key) && now.more_than_after(
                self.resident[key].last_hit_at,
                idle,
            ),
            None => false,
        }
    }

    /// Whether a cold entry was not requested for too long. That an artifact is over the byte
    /// budget is remembered however long ago it was found.
    pub open spec fn is_stale(self, key: RuntimeCacheKey, now: Moment) -> bool {
        match self.tuning.cold_entry_idle_duration {
            Some(idle) => {
                &&& self.entries.contains_key(key)
                &&& self.entries[key].phase == EntryPhase::Cold
                &&& now.more_than_after(self.entries[key].last_observed_at, idle)
                &&& !(self.entries[key].persisted_aot is Oversized)
                &&& !self.published.contains_key(key)
            },
            None => false,
        }
    }

    /// Whether `keys` lists the idle programs, each once.
    pub open spec fn lists_idle(self, keys: Seq<RuntimeCacheKey>, now: Moment) -> bool {
        &&& keys.no_duplicates()
        &&& forall|k: RuntimeCacheKey| #[trigger] keys.contains(k) <==> self.is_idle(k, now)
    }

    /// Whether `keys` lists the stale entries, each once.
    pub open spec fn lists_stale(self, keys: Seq<RuntimeCacheKey>, now: Moment) -> bool {
        &&& keys.no_duplicates()
        &&& forall|k: RuntimeCacheKey| #[trigger] keys.contains(k) <==> self.is_stale(k, now)
    }

    /// Evicts a program.
    pub open spec fn evict(self, key: RuntimeCacheKey) -> BackendView {
        let v = self.remove_resident(key).remove_entry(key);
        let evictions = v.stats.evictions.wrapping_add(1);
        v.count(BackendStats { evictions, ..v.stats })
    }

    /// Evicts programs in order.
    pub open spec fn evict_all(self, keys: Seq<RuntimeCacheKey>) -> BackendView
        decreases keys.len(),
    {
        if keys.len() == 0 {
            self
        } else {
            self.evict_all(keys.drop_last()).evict(keys.last())
        }
    }

    /// Stops tracking keys in order.
    pub open spec fn forget_all(self, keys: Seq<RuntimeCacheKey>) -> BackendView
        decreases keys.len(),
    {
        if keys.len() == 0 {
            self
        } else {
            self.forget_all(keys.drop_last()).remove_entry(keys.last())
        }
    }

    /// Stops tracking stale keys, and counts them.
    pub open spec fn forget_stale(self, keys: Seq<RuntimeCacheKey>) -> BackendView {
        let v = self.forget_all(keys);
        let cold_entry_evictions = v.stats.cold_entry_evictions.wrapping_add(keys.len() as u64);
        v.count(BackendStats { cold_entry_evictions, ..v.stats })
    }

    /// The beginning of a sweep.
    pub open spec fn swept_at(self, now: Moment) -> BackendView {
        BackendView { last_sweep: now, ..self }
    }

    /// Whether `after` is this state swept: the idle programs go, then the stale entries, each in
    /// whatever order.
    pub open spec fn sweeps_to(self, after: BackendView, now: Moment) -> bool {
        exists|idle: Seq<RuntimeCacheKey>, stale: Seq<RuntimeCacheKey>|
            #![trigger self.swept_at(now).lists_idle(idle, now), self.swept_at(now).evict_all(idle).lists_stale(stale, now)]
            {
                &&& self.swept_at(now).lists_idle(idle, now)
                &&& self.swept_at(now).evict_all(idle).lists_stale(stale, now)
                &&& after == self.swept_at(now).evict_all(idle).forget_stale(stale)
            }
    }

    /// The resident JIT programs, least recently hit first.
    pub open spec fn jit_order(self) -> Seq<RuntimeCacheKey> {
        row_keys(rows_of(self.resident, ProgramKind::Jit).sort_by(lru_order()))
    }
}

/// Evicting programs keeps the invariant.
pub proof fn lemma_evict_all_keeps_inv(v: BackendView, keys: Seq<RuntimeCacheKey>)
    requires
        v.inv(),
    ensures
        v.evict_all(keys).inv(),
        v.bytes_exact() ==> v.evict_all(keys).bytes_exact(),
        v.evict_all(keys).tuning == v.tuning,
    decreases keys.len(),
{
    if keys.len() > 0 {
        lemma_evict_all_keeps_inv(v, keys.drop_last());
        let w = v.evict_all(keys.drop_last());
        lemma_remove_resident_inv(w, keys.last());
        lemma_remove_entry_inv(w.remove_resident(keys.last()), keys.last());
    }
}

/// No longer tracking keys keeps the invariant.
pub proof fn lemma_forget_all_inv(v: BackendView, keys: Seq<RuntimeCacheKey>)
    requires
        v.inv(),
    ensures
        v.forget_all(keys).inv(),
        v.bytes_exact() ==> v.forget_all(keys).bytes_exact(),
    decreases keys.len(),
{
    if keys.len() > 0 {
        lemma_forget_all_inv(v, keys.drop_last());
        lemma_remove_entry_inv(v.forget_all(keys.drop_last()), keys.last());
    }
}

impl BackendState {
    /// The idle programs.
    fn idle_keys(&self, now: Moment) -> (r: Vec<RuntimeCacheKey>)
        requires
            self.wf(),
        ensures
            self@.lists_idle(r@, now),
    {
        let mut r: Vec<RuntimeCacheKey> = Vec::new();
        let idle = match self.tuning.idle_evict_duration {
            Some(idle) => idle,
            None => {
                return r;
            },
        };
        let keys = self.resident_meta.keys();
        for i in 0..keys.len()
            invariant
                self.wf(),
                self@.tuning.idle_evict_duration == Some(idle),
                keys@.no_duplicates(),
                keys@.to_set() == self@.resident.dom(),
                r@.no_duplicates(),
                forall|k: RuntimeCacheKey| #[trigger]
                    r@.contains(k) <==> self@.is_idle(k, now) && keys@.take(i as int).contains(k),
        {
            let key = keys[i];
            let ghost before = r@;
            assert(keys@.to_set().contains(key));
            proof {
                lemma_take_contains(keys@, i as int);
                lemma_push_contains(before, key);
            }
            if let Some(meta) = self.resident_meta.get(&key) {
                if now.duration_since(meta.last_hit_at).nanos > idle.nanos {
                    r.push(key);
                }
            }
            assert forall|k: RuntimeCacheKey| #[trigger] r@.contains(k) <==> self@.is_idle(k, now)
                && keys@.take(i + 1).contains(k) by {
                assert(before.contains(k) <==> self@.is_idle(k, now) && keys@.take(
                    i as int,
                ).contains(k));
            }
        }
        proof {
            assert(keys@.take(keys@.len() as int) =~= keys@);
            assert forall|k: RuntimeCacheKey| #[trigger] r@.contains(k) <==> self@.is_idle(k, now) by {
                if self@.is_idle(k, now) {
                    assert(keys@.to_set().contains(k));
                }
            }
        }
        r
    }

    /// The stale entries.
    fn stale_keys(&self, now: Moment) -> (r: Vec<RuntimeCacheKey>)
        requires
            self.wf(),
        ensures
            self@.lists_stale(r@, now),
    {
        let mut r: Vec<RuntimeCacheKey> = Vec::new();
        let idle = match self.tuning.cold_entry_idle_duration {
            Some(idle) => idle,
            None => {
                return r;
            },
        };
        let keys = self.entries.keys();
        assert(entry_views(self.entries@).dom() =~= self.entries@.dom());
        for i in 0..keys.len()
            invariant
                self.wf(),
                self@.tuning.cold_entry_idle_duration == Some(idle),
                keys@.no_duplicates(),
                keys@.to_set() == self@.entries.dom(),
                r@.no_duplicates(),
                forall|k: RuntimeCacheKey| #[trigger]
                    r@.contains(k) <==> self@.is_stale(k, now) && keys@.take(i as int).contains(k),
        {
            let key = keys[i];
            let ghost before = r@;
            assert(keys@.to_set().contains(key));
            proof {
                lemma_take_contains(keys@, i as int);
                lemma_push_contains(before, key);
            }
            if let Some(entry) = self.entries.get(&key) {
                let oversized = matches!(entry.persisted_aot, PersistedAotState::Oversized);
                if entry.phase == EntryPhase::Cold && now.duration_since(
                    entry.last_observed_at,
                ).nanos > idle.nanos && !oversized && !self.published.contains_key(&key) {
                    r.push(key);
                }
            }
            assert forall|k: RuntimeCacheKey| #[trigger] r@.contains(k) <==> self@.is_stale(k, now)
                && keys@.take(i + 1).contains(k) by {
                assert(before.contains(k) <==> self@.is_stale(k, now) && keys@.take(
                    i as int,
                ).contains(k));
            }
        }
        proof {
            assert(keys@.take(keys@.len() as int) =~= keys@);
            assert forall|k: RuntimeCacheKey| #[trigger] r@.contains(k) <==> self@.is_stale(k, now) by {
                if self@.is_stale(k, now) {
                    assert(keys@.to_set().contains(k));
                }
            }
        }
        r
    }

    /// Evicts a program.
    fn evict(&mut self, key: &RuntimeCacheKey)
        requires
            old(self).wf(),
        ensures
            final(self).wf(),
            final(self)@ == old(self)@.evict(*key),
    {
        self.remove_resident(key);
        self.remove_entry(key);
        self.stats.evictions = self.stats.evictions.wrapping_add(1);
    }

    /// Whether a sweep is due, given the bytes of JIT code that are allocated.
    pub fn should_sweep(&self, jit_bytes: usize, now: Moment) -> (r: bool)
        ensures
            r == self@.sweep_due(jit_bytes, now),
    {
        let budget = self.tuning.resident_code_cache_bytes;
        if budget > 0 && jit_bytes > budget {
            return true;
        }
        (self.tuning.idle_evict_duration.is_some() || self.tuning.cold_entry_idle_duration.is_some())
            && now.duration_since(self.last_sweep).nanos
            >= self.tuning.eviction_sweep_interval.nanos
    }

    /// Sweeps if a sweep is due, and says whether it was: idle programs are evicted, then stale
    /// entries are dropped. The budget of JIT code is enforced by [`BackendState::jit_victims`] and
    /// [`BackendState::evict_over_budget`].
    pub fn run_eviction_sweep(&mut self, jit_bytes: usize, now: Moment) -> (swept: bool)
        requires
            old(self).inv(),
        ensures
            final(self).inv(),
            swept == old(self)@.sweep_due(jit_bytes, now),
            if swept {
                old(self)@.sweeps_to(final(self)@, now)
            } else {
                final(self)@ == old(self)@
            },
    {
        if !self.should_sweep(jit_bytes, now) {
            return false;
        }
        self.last_sweep = now;
        let ghost begun = self@;
        assert(begun == old(self)@.swept_at(now));
        let idle = self.idle_keys(now);
        assert(idle@.take(0) =~= Seq::<RuntimeCacheKey>::empty());
        for i in 0..idle.len()
            invariant
                self.wf(),
                self@ == begun.evict_all(idle@.take(i as int)),
        {
            proof {
                assert(idle@.take(i + 1).drop_last() =~= idle@.take(i as int));
            }
            self.evict(&idle[i]);
        }
        assert(idle@.take(idle@.len() as int) =~= idle@);
        let ghost evicted = self@;
        let stale = self.stale_keys(now);
        assert(stale@.take(0) =~= Seq::<RuntimeCacheKey>::empty());
        for i in 0..stale.len()
            invariant
                self.wf(),
                self@ == evicted.forget_all(stale@.take(i as int)),
        {
            proof {
                assert(stale@.take(i + 1).drop_last() =~= stale@.take(i as int));
            }
            self.remove_entry(&stale[i]);
        }
        assert(stale@.take(stale@.len() as int) =~= stale@);
        self.stats.cold_entry_evictions =
        self.stats.cold_entry_evictions.wrapping_add(stale.len() as u64);
        proof {
            lemma_evict_all_keeps_inv(begun, idle@);
            lemma_forget_all_inv(evicted, stale@);
            assert(old(self)@.swept_at(now).lists_idle(idle@, now));
            assert(old(self)@.swept_at(now).evict_all(idle@).lists_stale(stale@, now));
        }
        true
    }

    /// The JIT programs to evict, least recently hit first, where their code is over its budget.
    /// AOT programs are no part of it: they take no JIT memory.
    pub fn jit_victims(&self, jit_bytes: usize) -> (r: Vec<RuntimeCacheKey>)
        requires
            self.inv(),
        ensures
            r@ == (if self@.over_budget(jit_bytes) {
                self@.jit_order()
            } else {
                Seq::empty()
            }),
    {
        let mut r: Vec<RuntimeCacheKey> = Vec::new();
        let budget = self.tuning.resident_code_cache_bytes;
        if budget == 0 || jit_bytes <= budget {
            return r;
        }
        let rows = self.list_rows(ProgramKind::Jit);
        let sorted = sort_lru(&rows);
        proof {
            let canonical = rows_of(self@.resident, ProgramKind::Jit);
            assert(lists(canonical, self@.resident, ProgramKind::Jit));
            lemma_listings_agree(rows@, canonical, self@.resident, ProgramKind::Jit);
            lemma_lru_order();
            rows@.lemma_sort_by_ensures(lru_order());
            canonical.lemma_sort_by_ensures(lru_order());
            vstd::seq_lib::lemma_sorted_unique(
                sorted@,
                canonical.sort_by(lru_order()),
                lru_order(),
            );
        }
        for i in 0..sorted.len()
            invariant
                r@ == row_keys(sorted@.take(i as int)),
        {
            r.push(sorted[i].key);
            assert(r@ =~= row_keys(sorted@.take(i + 1)));
        }
        assert(sorted@.take(sorted@.len() as int) =~= sorted@);
        r
    }

    /// Evicts one program if the JIT code is still over its budget, and says whether it was.
    pub fn evict_over_budget(&mut self, key: &RuntimeCacheKey, jit_bytes: usize) -> (evicted: bool)
        requires
            old(self).inv(),
        ensures
            final(self).inv(),
            evicted == old(self)@.over_budget(jit_bytes),
            final(self)@ == (if evicted {
                old(self)@.evict(*key)
            } else {
                old(self)@
            }),
    {
        let budget = self.tuning.resident_code_cache_bytes;
        if budget == 0 || jit_bytes <= budget {
            return false;
        }
        proof {
            lemma_remove_resident_inv(self@, *key);
            lemma_remove_entry_inv(self@.remove_resident(*key), *key);
        }
        self.evict(key);
        true
    }
}

} // verus!
