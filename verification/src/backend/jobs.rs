//! The number of pending jobs is the number of keys that are being compiled.
use super::commands::lemma_wake_tracked_frame;
use super::requests::{Admission, ProbeResult};
use super::results::WorkerResult;
use super::upkeep::lemma_notify_all_frame;
use super::waiting::{compiled, lemma_evicting_residents_keeps_entries};
use super::{
    working_weight, BackendView, EntryPhase, EntryView, PersistedAotState, SyncNotifier,
};
use crate::clock::Moment;
use crate::config::AdmitMode;
use crate::keys::RuntimeCacheKey;
use crate::storage::StoredArtifact;
use crate::sums::{lemma_total_remove, lemma_total_remove_absent, total};
use vstd::prelude::*;

verus! {

/// Whether the number of pending jobs is the number of keys that are being compiled.
pub open spec fn jobs_counted(v: BackendView) -> bool {
    v.pending_jobs == total(v.entries, working_weight())
}

/// One where the key is being compiled, else zero.
pub open spec fn work(entries: Map<RuntimeCacheKey, EntryView>, key: RuntimeCacheKey) -> nat {
    if entries.contains_key(key) && entries[key].phase == EntryPhase::Working {
        1
    } else {
        0
    }
}

/// Whether the number of pending jobs is the number of keys that are being compiled but for one
/// key, whose result is being settled.
pub open spec fn other_jobs_counted(v: BackendView, key: RuntimeCacheKey) -> bool {
    v.pending_jobs + work(v.entries, key) == total(v.entries, working_weight())
}

/// A change to the entry of one key changes the number of keys that are being compiled by what it
/// changes of that key.
proof fn lemma_one_key(
    before: Map<RuntimeCacheKey, EntryView>,
    after: Map<RuntimeCacheKey, EntryView>,
    key: RuntimeCacheKey,
)
    requires
        before.dom().finite(),
        after.remove(key) == before.remove(key),
    ensures
        after.dom().finite(),
        total(after, working_weight()) + work(before, key) == total(before, working_weight())
            + work(after, key),
{
    assert(after.dom().subset_of(before.dom().insert(key))) by {
        assert forall|k: RuntimeCacheKey| after.dom().contains(k) implies before.dom().insert(
            key,
        ).contains(k) by {
            if k != key {
                assert(after.remove(key).dom().contains(k));
            }
        }
    }
    if before.contains_key(key) {
        lemma_total_remove(before, working_weight(), key);
    } else {
        lemma_total_remove_absent(before, working_weight(), key);
    }
    if after.contains_key(key) {
        lemma_total_remove(after, working_weight(), key);
    } else {
        lemma_total_remove_absent(after, working_weight(), key);
    }
}

/// A job that a worker takes is one more, and one that no worker takes is none.
pub proof fn law_dispatch_counts_a_job(v: BackendView, adm: Admission, accepted: bool)
    requires
        v.inv(),
        v.awaits(adm),
        v.pending_jobs < v.tuning.jit_max_pending_jobs,
        jobs_counted(v),
    ensures
        jobs_counted(v.dispatched(adm, accepted)),
        v.dispatched(adm, accepted).pending_jobs == v.pending_jobs + if accepted {
            1int
        } else {
            0
        },
{
    let w = v.dispatched(adm, accepted);
    assert(w.entries.remove(adm.key) =~= v.entries.remove(adm.key));
    lemma_one_key(v.entries, w.entries, adm.key);
}

/// A request starts and ends no job before one is dispatched, where only resident programs make
/// room for an artifact.
pub proof fn law_requests_keep_jobs(
    v: BackendView,
    adm: Admission,
    bytecode: Seq<u8>,
    eligible: bool,
    answer: ProbeResult,
    stored: StoredArtifact,
    victims: Seq<RuntimeCacheKey>,
    slot: Option<u64>,
    started: Moment,
    finished: Moment,
)
    requires
        v.inv(),
        jobs_counted(v),
        forall|i: int| 0 <= i < victims.len() ==> v.resident.contains_key(#[trigger] victims[i]),
    ensures
        jobs_counted(v.request(adm, bytecode, eligible).0),
        v.awaits(adm) ==> jobs_counted(v.probed(adm.key, answer).proceed(adm).0),
        v.awaits(adm) ==> jobs_counted(
            v.loaded(adm, stored, victims, slot, started, finished).0,
        ),
{
    let requested = v.request(adm, bytecode, eligible).0;
    assert(requested.entries.remove(adm.key) =~= v.entries.remove(adm.key));
    lemma_one_key(v.entries, requested.entries, adm.key);
    if v.awaits(adm) {
        let answered = v.probed(adm.key, answer).proceed(adm).0;
        assert(answered.entries.remove(adm.key) =~= v.entries.remove(adm.key));
        lemma_one_key(v.entries, answered.entries, adm.key);
        lemma_evicting_residents_keeps_entries(v, victims);
        lemma_evicting_keeps_count(v, victims);
        let loaded = v.loaded(adm, stored, victims, slot, started, finished).0;
        assert(loaded.entries.remove(adm.key) =~= v.entries.remove(adm.key));
        lemma_one_key(v.entries, loaded.entries, adm.key);
    }
}

/// Evicting programs and forgetting keys leaves the number of pending jobs alone.
proof fn lemma_evicting_keeps_count(v: BackendView, keys: Seq<RuntimeCacheKey>)
    ensures
        v.evict_all_for_aot(keys).pending_jobs == v.pending_jobs,
        v.evict_all(keys).pending_jobs == v.pending_jobs,
        v.forget_all(keys).pending_jobs == v.pending_jobs,
    decreases keys.len(),
{
    if keys.len() > 0 {
        lemma_evicting_keeps_count(v, keys.drop_last());
    }
}

/// A result takes its own key off the count of those being compiled, and no other: a result of an
/// earlier generation takes nothing off the count of later jobs for other keys. Where it is settled
/// without the outside, its key is no longer tracked.
pub proof fn law_result_ends_a_job(v: BackendView, result: WorkerResult)
    requires
        v.inv(),
        jobs_counted(v),
    ensures
        other_jobs_counted(v.received(result), result.key),
        v.received(result).pending_jobs == v.pending_jobs - work(v.entries, result.key),
        result.generation != v.generation || result.outcome is Failed || (result.outcome is Aot
            && !v.has_store) ==> jobs_counted(v.received(result)),
{
    let key = result.key;
    let w = v.received(result);
    let waiters = v.waiters(key, result.sync_notifier);
    let returned = v.returned(key);
    if v.entries.contains_key(key) {
        lemma_total_remove(v.entries, working_weight(), key);
    }
    lemma_notify_all_frame(returned.remove_entry(key), waiters);
    lemma_notify_all_frame(returned.effect(compiled(result)).give_up(key), waiters);
    assert(w.entries.remove(key) =~= v.entries.remove(key));
    lemma_one_key(v.entries, w.entries, key);
}

/// Once a result is settled every key that is being compiled is counted again.
pub proof fn law_settlement_ends_the_job(
    v: BackendView,
    key: RuntimeCacheKey,
    waiters: Seq<SyncNotifier>,
    slot: Option<u64>,
    now: Moment,
    mode: AdmitMode,
    answer: ProbeResult,
)
    requires
        v.inv(),
        other_jobs_counted(v, key),
    ensures
        jobs_counted(v.linked(key, waiters, slot, now)),
        jobs_counted(v.give_up(key).notify_all(waiters)),
        jobs_counted(v.reloaded(key, waiters, mode, answer, now).0),
        work(v.reloaded(key, waiters, mode, answer, now).0.entries, key) == 0,
{
    let published = match slot {
        Some(slot) => v.publish_jit(key, slot, now),
        None => v.give_up(key),
    };
    lemma_notify_all_frame(published, waiters);
    lemma_notify_all_frame(v.give_up(key), waiters);
    let linked = v.linked(key, waiters, slot, now);
    assert(linked.entries.remove(key) =~= v.entries.remove(key));
    lemma_one_key(v.entries, linked.entries, key);
    let dropped = v.give_up(key).notify_all(waiters);
    assert(dropped.entries.remove(key) =~= v.entries.remove(key));
    lemma_one_key(v.entries, dropped.entries, key);
    let reloaded = v.reloaded(key, waiters, mode, answer, now).0;
    if let ProbeResult::Found(stored) = answer {
        let judged = v.read_back(key, stored).judge_stored(
            stored.manifest.artifact_len,
            mode,
            now,
            false,
        ).0;
        lemma_notify_all_frame(
            judged.note_persisted(key, PersistedAotState::Oversized).count_success(),
            waiters,
        );
        lemma_notify_all_frame(judged.count_success(), waiters);
    }
    assert(reloaded.entries.remove(key) =~= v.entries.remove(key));
    lemma_one_key(v.entries, reloaded.entries, key);
}

/// Loading an artifact just compiled starts and ends no job, where its key is no longer being
/// compiled and only resident programs make room for it.
pub proof fn law_compiled_loads_keep_jobs(
    v: BackendView,
    key: RuntimeCacheKey,
    waiters: Seq<SyncNotifier>,
    stored: StoredArtifact,
    victims: Seq<RuntimeCacheKey>,
    slot: Option<u64>,
    now: Moment,
)
    requires
        v.inv(),
        jobs_counted(v),
        work(v.entries, key) == 0,
        forall|i: int| 0 <= i < victims.len() ==> v.resident.contains_key(#[trigger] victims[i]),
    ensures
        jobs_counted(v.artifact_loaded(key, waiters, stored, victims, slot, now)),
{
    let loaded = match slot {
        Some(slot) => v.install_stored(
            key,
            stored.manifest.artifact_len,
            victims,
            slot,
            now,
        ).remove_entry(key).count_success(),
        None => v.note_persisted(key, PersistedAotState::Absent).count_failure(),
    };
    lemma_evicting_residents_keeps_entries(v, victims);
    lemma_evicting_keeps_count(v, victims);
    lemma_notify_all_frame(loaded, waiters);
    let after = v.artifact_loaded(key, waiters, stored, victims, slot, now);
    assert(after.entries.remove(key) =~= v.entries.remove(key));
    lemma_one_key(v.entries, after.entries, key);
}

/// No longer tracking keys that are not being compiled leaves the number of those that are.
proof fn lemma_forgetting_cold_keys(v: BackendView, keys: Seq<RuntimeCacheKey>)
    requires
        v.entries.dom().finite(),
        forall|i: int| 0 <= i < keys.len() ==> work(v.entries, #[trigger] keys[i]) == 0,
    ensures
        v.forget_all(keys).entries.dom().finite(),
        v.forget_all(keys).entries.submap_of(v.entries),
        total(v.forget_all(keys).entries, working_weight()) == total(v.entries, working_weight()),
    decreases keys.len(),
{
    if keys.len() > 0 {
        let rest = keys.drop_last();
        assert forall|i: int| 0 <= i < rest.len() implies work(v.entries, #[trigger] rest[i])
            == 0 by {
            assert(rest[i] == keys[i]);
        }
        lemma_forgetting_cold_keys(v, rest);
        let w = v.forget_all(rest);
        let last = keys.last();
        assert(work(v.entries, keys[keys.len() - 1]) == 0);
        assert(work(w.entries, last) == 0) by {
            if w.entries.contains_key(last) {
                assert(w.entries.dom().contains(last));
                assert(v.entries.dom().contains(last) && v.entries[last] == w.entries[last]);
            }
        }
        let after = v.forget_all(keys);
        assert(after.entries.remove(last) =~= w.entries.remove(last));
        lemma_one_key(w.entries, after.entries, last);
    }
}

/// Hits, sweeps and the eviction of resident programs start and end no job. Clearing leaves none:
/// no key is being compiled afterwards.
pub proof fn law_upkeep_keeps_jobs(
    v: BackendView,
    after: BackendView,
    key: RuntimeCacheKey,
    now: Moment,
)
    requires
        v.inv(),
        jobs_counted(v),
    ensures
        jobs_counted(v.hit(key, now)),
        v.resident.contains_key(key) ==> jobs_counted(v.evict(key)),
        v.sweeps_to(after, now) ==> jobs_counted(after),
        v.clears_to(after) ==> jobs_counted(after) && after.pending_jobs == 0,
{
    if v.resident.contains_key(key) {
        assert(v.resident.dom().contains(key));
        assert(!v.entries.dom().contains(key));
        assert(v.evict(key).entries =~= v.entries);
    }
    if v.sweeps_to(after, now) {
        let begun = v.swept_at(now);
        let (idle, stale) = choose|idle: Seq<RuntimeCacheKey>, stale: Seq<RuntimeCacheKey>|
            #![trigger begun.lists_idle(idle, now), begun.evict_all(idle).lists_stale(stale, now)]
            {
                &&& begun.lists_idle(idle, now)
                &&& begun.evict_all(idle).lists_stale(stale, now)
                &&& after == begun.evict_all(idle).forget_stale(stale)
            };
        assert forall|i: int| 0 <= i < idle.len() implies begun.resident.contains_key(
            #[trigger] idle[i],
        ) by {
            assert(idle.contains(idle[i]));
        }
        lemma_evicting_residents_keeps_entries(begun, idle);
        lemma_evicting_keeps_count(begun, idle);
        let evicted = begun.evict_all(idle);
        assert forall|i: int| 0 <= i < stale.len() implies work(
            evicted.entries,
            #[trigger] stale[i],
        ) == 0 by {
            assert(stale.contains(stale[i]));
            assert(evicted.is_stale(stale[i], now));
        }
        lemma_forgetting_cold_keys(evicted, stale);
        lemma_evicting_keeps_count(evicted, stale);
    }
    if v.clears_to(after) {
        let keys = choose|keys: Seq<RuntimeCacheKey>|
            #[trigger] v.lists_tracked(keys) && after == v.cleared(keys);
        lemma_wake_tracked_frame(v.emptied(), v.entries, keys);
    }
}

} // verus!
