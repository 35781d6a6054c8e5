//! What is kept of resident programs, told by the numbers themselves: budgets, lengths, last hits.
use super::commands::Preloaded;
use super::laws::{
    law_budgets_are_hard, law_victims_are_resident, lemma_order_rows, lemma_victims_differ,
};
use super::outcomes::and_wake;
use super::requests::{lemma_evict_all_inv, Admission};
use super::sweep::lemma_evict_all_keeps_inv;
use super::upkeep::{
    lemma_listing_exists, lemma_notify_all_frame, lemma_push_contains, lemma_remove_entry_inv,
    lemma_remove_resident_inv,
};
use super::{
    aot_len, aot_weight, cold_weight, is_row, observed_weight, rows_of, working_weight,
    ArtifactUsageEvent, BackendStats, BackendView, Effect, EntryPhase, EntryView,
    PersistedAotState, ResidentMeta, SyncNotifier,
};
use crate::admission::{
    law_eviction_order, law_plan_meets_both_budgets, lengths, row_keys, victim_order, AotResident,
};
use crate::clock::Moment;
use crate::config::{AdmitMode, ProgramKind, RuntimeTuning};
use crate::keys::RuntimeCacheKey;
use crate::storage::{ArtifactKey, BackendSelection, StoredArtifact};
use crate::sums::{lemma_total_insert, lemma_total_remove, lemma_total_remove_absent, total};
use vstd::prelude::*;

verus! {

/// The artifact lengths that are kept of the keys, added up.
pub open spec fn kept_lengths(
    resident: Map<RuntimeCacheKey, ResidentMeta>,
    keys: Seq<RuntimeCacheKey>,
) -> nat
    decreases keys.len(),
{
    if keys.len() == 0 {
        0
    } else {
        kept_lengths(resident, keys.drop_last()) + resident[keys.last()].artifact_len as nat
    }
}

/// Whether keys are those of different resident AOT programs.
pub open spec fn are_aot(
    resident: Map<RuntimeCacheKey, ResidentMeta>,
    keys: Seq<RuntimeCacheKey>,
) -> bool {
    &&& keys.no_duplicates()
    &&& forall|i: int|
        0 <= i < keys.len() ==> resident.contains_key(#[trigger] keys[i])
            && resident[keys[i]].kind == ProgramKind::Aot
}

/// What the number of AOT programs and the sum of their lengths are sums of: an AOT program counts
/// one and its length, a JIT program counts nothing.
pub proof fn law_sums_count_programs(
    resident: Map<RuntimeCacheKey, ResidentMeta>,
    key: RuntimeCacheKey,
    meta: ResidentMeta,
)
    requires
        resident.dom().finite(),
        !resident.contains_key(key),
    ensures
        total(resident.insert(key, meta), aot_weight()) == total(resident, aot_weight()) + (
        if meta.kind == ProgramKind::Aot {
            1nat
        } else {
            0nat
        }),
        total(resident.insert(key, meta), aot_len()) == total(resident, aot_len()) + (
        if meta.kind == ProgramKind::Aot {
            meta.artifact_len as nat
        } else {
            0nat
        }),
        total(Map::<RuntimeCacheKey, ResidentMeta>::empty(), aot_weight()) == 0,
        total(Map::<RuntimeCacheKey, ResidentMeta>::empty(), aot_len()) == 0,
{
    lemma_total_insert(resident, aot_weight(), key, meta);
    lemma_total_insert(resident, aot_len(), key, meta);
    lemma_total_remove_absent(resident, aot_weight(), key);
    lemma_total_remove_absent(resident, aot_len(), key);
}

/// What the numbers of tracked keys are sums of: an entry counts as cold or as being compiled, and
/// as observed where it is.
pub proof fn law_sums_count_entries(
    entries: Map<RuntimeCacheKey, EntryView>,
    key: RuntimeCacheKey,
    entry: EntryView,
)
    requires
        entries.dom().finite(),
        !entries.contains_key(key),
    ensures
        total(entries.insert(key, entry), cold_weight()) == total(entries, cold_weight()) + (
        if entry.phase == EntryPhase::Cold {
            1nat
        } else {
            0nat
        }),
        total(entries.insert(key, entry), working_weight()) == total(entries, working_weight()) + (
        if entry.phase == EntryPhase::Working {
            1nat
        } else {
            0nat
        }),
        total(entries.insert(key, entry), observed_weight()) == total(entries, observed_weight())
            + (if entry.observed {
            1nat
        } else {
            0nat
        }),
        total(Map::<RuntimeCacheKey, EntryView>::empty(), cold_weight()) == 0,
        total(Map::<RuntimeCacheKey, EntryView>::empty(), working_weight()) == 0,
        total(Map::<RuntimeCacheKey, EntryView>::empty(), observed_weight()) == 0,
{
    lemma_total_insert(entries, cold_weight(), key, entry);
    lemma_total_insert(entries, working_weight(), key, entry);
    lemma_total_insert(entries, observed_weight(), key, entry);
    lemma_total_remove_absent(entries, cold_weight(), key);
    lemma_total_remove_absent(entries, working_weight(), key);
    lemma_total_remove_absent(entries, observed_weight(), key);
}

/// What holds between any two requests, in numbers: lookups find just the resident programs, a key
/// is resident or tracked but not both, no limit of the tuning is passed, and every counter is what
/// it counts.
pub proof fn law_state_is_within_limits(v: BackendView)
    requires
        v.inv(),
    ensures
        forall|k: RuntimeCacheKey| #[trigger]
            v.published.contains_key(k) <==> v.resident.contains_key(k),
        forall|k: RuntimeCacheKey| #[trigger]
            v.resident.contains_key(k) ==> !v.entries.contains_key(k),
        forall|k: RuntimeCacheKey| #[trigger]
            v.entries.contains_key(k) && v.entries[k].pending_notifiers.len() > 0
                ==> v.entries[k].phase == EntryPhase::Working,
        v.observed_entries <= v.tuning.max_observed_entries,
        v.observed_entries == total(v.entries, observed_weight()),
        v.pending_jobs <= v.tuning.jit_max_pending_jobs,
        v.resident_aot_entries == total(v.resident, aot_weight()),
        v.resident_aot_bytes <= total(v.resident, aot_len()),
{
    assert forall|k: RuntimeCacheKey| #[trigger]
        v.published.contains_key(k) <==> v.resident.contains_key(k) by {
        assert(v.published.dom().contains(k) <==> v.resident.dom().contains(k));
    }
    assert forall|k: RuntimeCacheKey| #[trigger]
        v.resident.contains_key(k) implies !v.entries.contains_key(k) by {
        assert(v.resident.dom().contains(k));
        assert(!v.entries.dom().contains(k));
    }
}

/// Whenever an artifact is admitted, both budgets hold afterwards, each for every value of the
/// other: where the number of AOT programs is limited there are no more than that, and where the
/// sum of their lengths is limited it is no more than that.
///
/// Where the lengths add up to more than a `usize` can count, nothing is said.
pub proof fn law_both_budgets_hold_after_a_load(
    v: BackendView,
    key: RuntimeCacheKey,
    artifact_len: usize,
    mode: AdmitMode,
    now: Moment,
    persisted: bool,
    slot: u64,
    at: Moment,
)
    requires
        v.inv(),
        v.bytes_exact(),
        total(v.resident, aot_len()) + artifact_len <= usize::MAX,
        v.resident_aot_entries < usize::MAX,
        v.judge_stored(artifact_len, mode, now, persisted).1 is Load,
    ensures
        ({
            let (judged, verdict) = v.judge_stored(artifact_len, mode, now, persisted);
            let w = judged.install_stored(key, artifact_len, verdict->Load_0, slot, at);
            &&& v.tuning.max_resident_aot_entries > 0 ==> total(w.resident, aot_weight())
                <= v.tuning.max_resident_aot_entries
            &&& v.tuning.max_resident_aot_bytes > 0 ==> total(w.resident, aot_len())
                <= v.tuning.max_resident_aot_bytes
        }),
{
    law_budgets_are_hard(v, key, artifact_len, mode, now, persisted, slot, at);
}

/// Evicting programs for an AOT program counts each of them, and leaves the rest of the state alone.
proof fn lemma_evicting_is_counted(v: BackendView, keys: Seq<RuntimeCacheKey>)
    ensures
        ({
            let w = v.evict_all_for_aot(keys);
            &&& w.tuning == v.tuning
            &&& w.aot == v.aot
            &&& w.limiter == v.limiter
            &&& w.generation == v.generation
            &&& w.pending_jobs == v.pending_jobs
            &&& w.last_sweep == v.last_sweep
            &&& w.stats == (BackendStats {
                evictions: w.stats.evictions,
                aot_evictions: w.stats.aot_evictions,
                ..v.stats
            })
            &&& w.stats.evictions as int == (v.stats.evictions + keys.len())
                % 0x1_0000_0000_0000_0000
            &&& w.stats.aot_evictions as int == (v.stats.aot_evictions + keys.len())
                % 0x1_0000_0000_0000_0000
        }),
    decreases keys.len(),
{
    if keys.len() > 0 {
        lemma_evicting_is_counted(v, keys.drop_last());
    }
}

/// Evicting AOT programs takes just these out, one and its length off the counters for each.
#[verifier::rlimit(60)]
#[verifier::spinoff_prover]
proof fn lemma_evicting_aot(v: BackendView, keys: Seq<RuntimeCacheKey>)
    requires
        v.inv(),
        v.bytes_exact(),
        are_aot(v.resident, keys),
    ensures
        ({
            let w = v.evict_all_for_aot(keys);
            &&& w.inv()
            &&& w.bytes_exact()
            &&& w.resident_aot_entries + keys.len() == v.resident_aot_entries
            &&& w.resident_aot_bytes + kept_lengths(v.resident, keys) == v.resident_aot_bytes
            &&& w.entries == v.entries
            &&& forall|k: RuntimeCacheKey| #[trigger]
                w.resident.contains_key(k) <==> v.resident.contains_key(k) && !keys.contains(k)
            &&& forall|k: RuntimeCacheKey| #[trigger]
                w.resident.contains_key(k) ==> w.resident[k] == v.resident[k]
        }),
    decreases keys.len(),
{
    lemma_evict_all_inv(v, keys);
    if keys.len() > 0 {
        let rest = keys.drop_last();
        let last = keys.last();
        assert forall|i: int| 0 <= i < rest.len() implies v.resident.contains_key(
            #[trigger] rest[i],
        ) && v.resident[rest[i]].kind == ProgramKind::Aot by {
            assert(rest[i] == keys[i]);
        }
        lemma_evicting_aot(v, rest);
        let u = v.evict_all_for_aot(rest);
        assert(keys =~= rest.push(last));
        lemma_push_contains(rest, last);
        assert(!rest.contains(last)) by {
            if rest.contains(last) {
                let j = choose|j: int| 0 <= j < rest.len() && rest[j] == last;
                assert(keys[j] == keys[keys.len() - 1]);
            }
        }
        assert(keys[keys.len() - 1] == last);
        assert(u.resident.contains_key(last));
        lemma_total_remove(u.resident, aot_weight(), last);
        lemma_total_remove(u.resident, aot_len(), last);
        assert(u.resident.dom().contains(last));
        assert(!u.entries.dom().contains(last));
        assert(u.entries.remove(last) =~= u.entries);
    }
}

/// After an artifact is loaded under a key, what is kept of the key is an AOT program of the length
/// that the artifact's manifest gives, hit when it came in. The counters have grown by one program
/// and by that length, less those of the victims; the victims are gone, every other program is kept
/// as it was, and as many evictions are counted as there were victims. The same holds of an artifact
/// that was found in the store and of one just compiled.
#[verifier::rlimit(60)]
pub proof fn law_loaded_artifacts_are_charged(
    v: BackendView,
    adm: Admission,
    waiters: Seq<SyncNotifier>,
    stored: StoredArtifact,
    victims: Seq<RuntimeCacheKey>,
    slot: u64,
    started: Moment,
    finished: Moment,
)
    requires
        v.inv(),
        v.bytes_exact(),
        are_aot(v.resident, victims),
        !v.resident.contains_key(adm.key),
        v.resident_aot_entries < usize::MAX,
        v.resident_aot_bytes + stored.manifest.artifact_len <= usize::MAX,
    ensures
        ({
            let found = v.loaded(adm, stored, victims, Some(slot), started, finished).0;
            let compiled = v.artifact_loaded(
                adm.key,
                waiters,
                stored,
                victims,
                Some(slot),
                finished,
            );
            &&& is_charged(v, found, adm.key, stored, victims, slot, finished)
            &&& is_charged(v, compiled, adm.key, stored, victims, slot, finished)
            &&& found.stats == (BackendStats {
                persisted_aot_loads: found.stats.persisted_aot_loads,
                persisted_aot_load_ns: found.stats.persisted_aot_load_ns,
                evictions: found.stats.evictions,
                aot_evictions: found.stats.aot_evictions,
                ..v.stats
            })
            &&& found.stats.persisted_aot_loads == (if adm.mode == AdmitMode::Observed {
                v.stats.persisted_aot_loads.wrapping_add(1)
            } else {
                v.stats.persisted_aot_loads
            })
            &&& found.stats.persisted_aot_load_ns == (if adm.mode == AdmitMode::Observed
                && finished.nanos >= started.nanos {
                v.stats.persisted_aot_load_ns.wrapping_add((finished.nanos - started.nanos) as u64)
            } else {
                v.stats.persisted_aot_load_ns
            })
            &&& compiled.stats == (BackendStats {
                compilations_succeeded: v.stats.compilations_succeeded.wrapping_add(1),
                evictions: compiled.stats.evictions,
                aot_evictions: compiled.stats.aot_evictions,
                ..v.stats
            })
        }),
{
    let w = v.evict_all_for_aot(victims);
    let artifact_len = stored.manifest.artifact_len;
    lemma_evicting_aot(v, victims);
    lemma_evicting_is_counted(v, victims);
    let found = v.loaded(adm, stored, victims, Some(slot), started, finished).0;
    assert(v.stats.persisted_aot_load_ns.wrapping_add(0) == v.stats.persisted_aot_load_ns);
    assert(!w.resident.contains_key(adm.key));
    assert(is_charged(v, found, adm.key, stored, victims, slot, finished));
    let compiled = v.install_stored(adm.key, artifact_len, victims, slot, finished).remove_entry(
        adm.key,
    ).count_success();
    lemma_notify_all_frame(compiled, waiters);
}

/// The effects that release the programs under keys, in order.
pub open spec fn releases(
    published: Map<RuntimeCacheKey, u64>,
    keys: Seq<RuntimeCacheKey>,
) -> Seq<Effect> {
    Seq::new(keys.len(), |i: int| Effect::ReleaseProgram(published[keys[i]]))
}

/// Evicting different resident programs for an AOT program releases each of them, in order.
proof fn lemma_evicting_releases(v: BackendView, keys: Seq<RuntimeCacheKey>)
    requires
        keys.no_duplicates(),
        forall|i: int| 0 <= i < keys.len() ==> v.published.contains_key(#[trigger] keys[i]),
    ensures
        ({
            let w = v.evict_all_for_aot(keys);
            &&& w.outbox == v.outbox + releases(v.published, keys)
            &&& w.aot == v.aot && w.tuning == v.tuning
            &&& forall|k: RuntimeCacheKey| #[trigger]
                w.published.contains_key(k) <==> v.published.contains_key(k) && !keys.contains(k)
            &&& forall|k: RuntimeCacheKey| #[trigger]
                w.published.contains_key(k) ==> w.published[k] == v.published[k]
        }),
    decreases keys.len(),
{
    let w = v.evict_all_for_aot(keys);
    if keys.len() > 0 {
        let rest = keys.drop_last();
        let last = keys.last();
        assert forall|i: int| 0 <= i < rest.len() implies v.published.contains_key(
            #[trigger] rest[i],
        ) by {
            assert(rest[i] == keys[i]);
        }
        lemma_evicting_releases(v, rest);
        let u = v.evict_all_for_aot(rest);
        assert(keys =~= rest.push(last));
        lemma_push_contains(rest, last);
        assert(!rest.contains(last)) by {
            if rest.contains(last) {
                let j = choose|j: int| 0 <= j < rest.len() && rest[j] == last;
                assert(keys[j] == keys[keys.len() - 1]);
            }
        }
        assert(keys[keys.len() - 1] == last);
        assert(u.published.contains_key(last));
        assert(w.outbox =~= v.outbox + releases(v.published, keys));
    } else {
        assert(w.outbox =~= v.outbox + releases(v.published, keys));
    }
}

/// What is to be done once an artifact was loaded: its victims are released, in order. One that was
/// found in the store is reported as used once, where artifacts are in use, and then its waiter is
/// woken. One just compiled is not reported; those who wait for it are woken.
pub proof fn law_loads_are_reported(
    v: BackendView,
    adm: Admission,
    waiters: Seq<SyncNotifier>,
    stored: StoredArtifact,
    victims: Seq<RuntimeCacheKey>,
    slot: u64,
    started: Moment,
    finished: Moment,
)
    requires
        v.inv(),
        are_aot(v.resident, victims),
        !v.resident.contains_key(adm.key),
    ensures
        ({
            let released = v.outbox + releases(v.published, victims);
            let found = v.loaded(adm, stored, victims, Some(slot), started, finished).0;
            let compiled = v.artifact_loaded(
                adm.key,
                waiters,
                stored,
                victims,
                Some(slot),
                finished,
            );
            let reported = if v.aot {
                released.push(usage(v, adm.key, 1))
            } else {
                released
            };
            &&& found.outbox == and_wake(reported, adm.sync_notifier)
            &&& compiled.outbox.len() >= released.len()
            &&& compiled.outbox.take(released.len() as int) == released
            &&& forall|i: int|
                released.len() <= i < compiled.outbox.len() ==> #[trigger] compiled.outbox[i] is Notify
        }),
{
    assert forall|i: int| 0 <= i < victims.len() implies v.published.contains_key(
        #[trigger] victims[i],
    ) by {
        assert(v.resident.dom().contains(victims[i]));
        assert(v.published.dom().contains(victims[i]));
    }
    lemma_evicting_releases(v, victims);
    let evicted = v.evict_all_for_aot(victims);
    assert(!v.published.dom().contains(adm.key)) by {
        assert(!v.resident.dom().contains(adm.key));
    }
    assert(!evicted.published.contains_key(adm.key));
    let installed = v.install_stored(
        adm.key,
        stored.manifest.artifact_len,
        victims,
        slot,
        finished,
    );
    assert(installed.outbox == evicted.outbox);
    lemma_only_wakes(installed.remove_entry(adm.key).count_success(), waiters);
}

/// Waking waiters adds nothing but that they are woken.
proof fn lemma_only_wakes(v: BackendView, notifiers: Seq<SyncNotifier>)
    ensures
        ({
            let w = v.notify_all(notifiers);
            let n = v.outbox.len() as int;
            &&& w.outbox.len() >= n
            &&& w.outbox.take(n) == v.outbox
            &&& forall|i: int| n <= i < w.outbox.len() ==> #[trigger] w.outbox[i] is Notify
        }),
    decreases notifiers.len(),
{
    let n = v.outbox.len() as int;
    if notifiers.len() > 0 {
        lemma_only_wakes(v, notifiers.drop_last());
        let u = v.notify_all(notifiers.drop_last());
        assert(v.notify_all(notifiers).outbox.take(n) =~= u.outbox.take(n));
    } else {
        assert(v.outbox.take(n) =~= v.outbox);
    }
}

/// Whether `w` is `v` with an artifact loaded under a key, as the counters and what is kept of the
/// programs have it.
pub open spec fn is_charged(
    v: BackendView,
    w: BackendView,
    key: RuntimeCacheKey,
    stored: StoredArtifact,
    victims: Seq<RuntimeCacheKey>,
    slot: u64,
    at: Moment,
) -> bool {
    &&& w.resident.contains_key(key)
    &&& w.resident[key].kind == ProgramKind::Aot
    &&& w.resident[key].artifact_len == stored.manifest.artifact_len
    &&& w.resident[key].last_hit_at == at
    &&& w.published.contains_key(key) && w.published[key] == slot
    &&& !w.entries.contains_key(key)
    &&& w.resident_aot_entries + victims.len() == v.resident_aot_entries + 1
    &&& w.resident_aot_bytes + kept_lengths(v.resident, victims) == v.resident_aot_bytes
        + stored.manifest.artifact_len
    &&& forall|k: RuntimeCacheKey|
        k != key ==> (#[trigger] w.resident.contains_key(k) <==> v.resident.contains_key(k)
            && !victims.contains(k))
    &&& forall|k: RuntimeCacheKey|
        k != key && #[trigger] w.resident.contains_key(k) ==> w.resident[k] == v.resident[k]
    &&& w.stats.evictions as int == (v.stats.evictions + victims.len()) % 0x1_0000_0000_0000_0000
    &&& w.stats.aot_evictions as int == (v.stats.aot_evictions + victims.len())
        % 0x1_0000_0000_0000_0000
    &&& w.limiter == v.limiter
    &&& w.tuning == v.tuning
    &&& w.generation == v.generation
    &&& w.pending_jobs == v.pending_jobs
    &&& w.last_sweep == v.last_sweep
}

/// What makes room for an artifact are different resident AOT programs; observed demand takes none
/// before its idle time has passed since its last hit.
pub proof fn law_victims_are_idle_aot_programs(
    v: BackendView,
    artifact_len: usize,
    mode: AdmitMode,
    now: Moment,
    persisted: bool,
)
    requires
        v.inv(),
        v.judge_stored(artifact_len, mode, now, persisted).1 is Load,
    ensures
        ({
            let victims = v.judge_stored(artifact_len, mode, now, persisted).1->Load_0;
            let min_idle = v.tuning.resident_aot_min_idle.nanos;
            &&& are_aot(v.resident, victims)
            &&& forall|i: int|
                0 <= i < victims.len() && mode == AdmitMode::Observed && min_idle > 0
                    ==> v.resident[#[trigger] victims[i]].last_hit_at.nanos + min_idle <= now.nanos
        }),
{
    law_victims_are_resident(v, artifact_len, mode, now, persisted);
    lemma_victims_differ(v, artifact_len, mode, now, persisted);
}

/// Whether a resident program may be evicted for another one, by its last hit alone.
pub open spec fn may_go(v: BackendView, key: RuntimeCacheKey, mode: AdmitMode, now: Moment) -> bool {
    ||| mode == AdmitMode::Explicit
    ||| v.tuning.resident_aot_min_idle.nanos == 0
    ||| v.resident[key].last_hit_at.nanos + v.tuning.resident_aot_min_idle.nanos <= now.nanos
}

/// Of the AOT programs that may go, those go that were hit longest ago, and no more of them than it
/// takes: with one victim less one of the budgets would be passed.
pub proof fn law_victims_were_hit_longest_ago(
    v: BackendView,
    artifact_len: usize,
    mode: AdmitMode,
    now: Moment,
    persisted: bool,
)
    requires
        v.inv(),
        v.resident_aot_entries < usize::MAX,
        v.resident_aot_bytes + artifact_len <= usize::MAX,
        v.judge_stored(artifact_len, mode, now, persisted).1 is Load,
    ensures
        ({
            let victims = v.judge_stored(artifact_len, mode, now, persisted).1->Load_0;
            let tuning = v.tuning;
            let n = victims.len() as int;
            &&& forall|i: int, k: RuntimeCacheKey|
                0 <= i < n && #[trigger] v.resident.contains_key(k) && v.resident[k].kind
                    == ProgramKind::Aot && may_go(v, k, mode, now) && !victims.contains(k)
                    ==> v.resident[#[trigger] victims[i]].last_hit_at.nanos
                    <= v.resident[k].last_hit_at.nanos
            &&& n > 0 ==> {
                ||| 0 < tuning.max_resident_aot_entries < v.resident_aot_entries + 1 - (n - 1)
                ||| 0 < tuning.max_resident_aot_bytes < v.resident_aot_bytes + artifact_len
                    - kept_lengths(v.resident, victims.drop_last())
            }
        }),
{
    broadcast use vstd::seq_lib::group_to_multiset_ensures;

    let victims = v.judge_stored(artifact_len, mode, now, persisted).1->Load_0;
    let rows = rows_of(v.resident, ProgramKind::Aot);
    let order = victim_order(v.tuning, now, mode, rows);
    let n = victims.len() as int;
    law_plan_meets_both_budgets(
        v.tuning,
        v.resident_aot_entries,
        v.resident_aot_bytes,
        artifact_len,
        now,
        mode,
        rows,
    );
    law_eviction_order(v.tuning, now, mode, rows);
    lemma_order_rows(v, now, mode);
    lemma_listing_exists(v.resident, ProgramKind::Aot);
    assert forall|i: int, k: RuntimeCacheKey|
        0 <= i < n && #[trigger] v.resident.contains_key(k) && v.resident[k].kind
            == ProgramKind::Aot && may_go(v, k, mode, now) && !victims.contains(
            k,
        ) implies v.resident[#[trigger] victims[i]].last_hit_at.nanos
        <= v.resident[k].last_hit_at.nanos by {
        let j = lemma_place_in_order(v, k, mode, now);
        assert(victims[i] == order[i].key);
        assert(is_row(order[i], v.resident, ProgramKind::Aot));
        if j < n {
            assert(victims[j] == k);
        }
    }
    if n > 0 {
        lemma_kept_lengths(v.resident, order, n - 1);
        assert(order.take(n).drop_last() =~= order.take(n - 1));
        assert(victims.drop_last() =~= row_keys(order.take(n - 1)));
    }
}

/// Where an AOT program that may go stands in the eviction order.
proof fn lemma_place_in_order(
    v: BackendView,
    key: RuntimeCacheKey,
    mode: AdmitMode,
    now: Moment,
) -> (j: int)
    requires
        v.inv(),
        v.resident.contains_key(key),
        v.resident[key].kind == ProgramKind::Aot,
        may_go(v, key, mode, now),
    ensures
        ({
            let order = victim_order(v.tuning, now, mode, rows_of(v.resident, ProgramKind::Aot));
            &&& 0 <= j < order.len()
            &&& order[j].key == key
            &&& order[j].last_hit_at == v.resident[key].last_hit_at
        }),
{
    broadcast use vstd::seq_lib::group_to_multiset_ensures;

    let rows = rows_of(v.resident, ProgramKind::Aot);
    let order = victim_order(v.tuning, now, mode, rows);
    let row = AotResident {
        key,
        last_hit_at: v.resident[key].last_hit_at,
        artifact_len: v.resident[key].artifact_len,
    };
    lemma_listing_exists(v.resident, ProgramKind::Aot);
    law_eviction_order(v.tuning, now, mode, rows);
    assert(is_row(row, v.resident, ProgramKind::Aot));
    assert(rows.contains(row));
    assert(rows.to_multiset().count(row) > 0);
    assert(order.to_multiset().count(row) > 0);
    assert(order.contains(row));
    choose|j: int| 0 <= j < order.len() && order[j] == row
}

/// The lengths of the first programs of an order are what is kept of their keys.
proof fn lemma_kept_lengths(
    resident: Map<RuntimeCacheKey, ResidentMeta>,
    order: Seq<AotResident>,
    n: int,
)
    requires
        0 <= n <= order.len(),
        forall|i: int|
            0 <= i < order.len() ==> is_row(#[trigger] order[i], resident, ProgramKind::Aot),
    ensures
        kept_lengths(resident, row_keys(order.take(n))) == lengths(order.take(n)),
    decreases n,
{
    if n > 0 {
        lemma_kept_lengths(resident, order, n - 1);
        assert(row_keys(order.take(n)).drop_last() =~= row_keys(order.take(n - 1)));
        assert(order.take(n).drop_last() =~= order.take(n - 1));
        assert(is_row(order[n - 1], resident, ProgramKind::Aot));
    }
}

/// Values that weigh nothing add up to nothing.
proof fn lemma_total_zero(
    m: Map<RuntimeCacheKey, ResidentMeta>,
    weight: spec_fn(ResidentMeta) -> nat,
)
    requires
        forall|k: RuntimeCacheKey| #[trigger] m.contains_key(k) ==> weight(m[k]) == 0,
    ensures
        total(m, weight) == 0,
    decreases m.dom().len(),
{
    if m.dom().finite() && m.dom().len() > 0 {
        let k = m.dom().choose();
        assert(m.contains_key(k));
        assert forall|j: RuntimeCacheKey| #[trigger] m.remove(k).contains_key(j) implies weight(
            m.remove(k)[j],
        ) == 0 by {
            assert(m.contains_key(j));
        }
        lemma_total_zero(m.remove(k), weight);
    }
}

/// Where every AOT program may go there is room for any artifact that is not over the byte budget
/// alone, so an explicit request never puts one off, and observed demand does only for the limiter.
/// Where no budget is set there is always room, and nothing goes.
#[verifier::rlimit(60)]
pub proof fn law_room_is_found_where_all_may_go(
    v: BackendView,
    artifact_len: usize,
    mode: AdmitMode,
    now: Moment,
    persisted: bool,
)
    requires
        v.inv(),
        v.bytes_exact(),
        v.resident_aot_entries < usize::MAX,
        v.resident_aot_bytes + artifact_len <= usize::MAX,
        !(0 < v.tuning.max_resident_aot_bytes < artifact_len),
        mode == AdmitMode::Observed && persisted && v.tuning.persisted_aot_load_interval.nanos > 0
            ==> (v.limiter.next_allowed_at matches Some(next) ==> next.nanos <= now.nanos),
    ensures
        ({
            let verdict = v.judge_stored(artifact_len, mode, now, persisted).1;
            let tuning = v.tuning;
            &&& (forall|k: RuntimeCacheKey| #[trigger]
                v.resident.contains_key(k) && v.resident[k].kind == ProgramKind::Aot ==> may_go(
                    v,
                    k,
                    mode,
                    now,
                )) ==> verdict is Load
            &&& (tuning.max_resident_aot_entries == 0 || v.resident_aot_entries
                < tuning.max_resident_aot_entries) && (tuning.max_resident_aot_bytes == 0
                || v.resident_aot_bytes + artifact_len <= tuning.max_resident_aot_bytes)
                ==> verdict is Load && verdict->Load_0.len() == 0
        }),
{
    let rows = rows_of(v.resident, ProgramKind::Aot);
    let order = victim_order(v.tuning, now, mode, rows);
    let verdict = v.judge_stored(artifact_len, mode, now, persisted).1;
    law_plan_meets_both_budgets(
        v.tuning,
        v.resident_aot_entries,
        v.resident_aot_bytes,
        artifact_len,
        now,
        mode,
        rows,
    );
    lemma_order_rows(v, now, mode);
    if forall|k: RuntimeCacheKey| #[trigger]
        v.resident.contains_key(k) && v.resident[k].kind == ProgramKind::Aot ==> may_go(
            v,
            k,
            mode,
            now,
        ) {
        let keys = row_keys(order);
        let n = order.len() as int;
        assert(order.take(n) =~= order);
        assert forall|i: int| 0 <= i < keys.len() implies v.resident.contains_key(
            #[trigger] keys[i],
        ) && v.resident[keys[i]].kind == ProgramKind::Aot by {
            assert(is_row(order[i], v.resident, ProgramKind::Aot));
        }
        assert forall|i: int, j: int| 0 <= i < j < keys.len() implies keys[i] != keys[j] by {
            assert(order[i].key != order[j].key);
        }
        lemma_evicting_aot(v, keys);
        lemma_kept_lengths(v.resident, order, n);
        let w = v.evict_all_for_aot(keys);
        assert forall|k: RuntimeCacheKey| #[trigger] w.resident.contains_key(k) implies aot_weight()(
            w.resident[k],
        ) == 0 && aot_len()(w.resident[k]) == 0 by {
            if w.resident[k].kind == ProgramKind::Aot {
                assert(v.resident.contains_key(k));
                let j = lemma_place_in_order(v, k, mode, now);
                assert(keys[j] == k);
                assert(keys.contains(k));
            }
        }
        lemma_total_zero(w.resident, aot_weight());
        lemma_total_zero(w.resident, aot_len());
    }
}

/// A hit of a resident key at a moment makes that moment its last hit. Its kind and its length stay,
/// nothing kept of any other key changes, and where artifacts are in use the hit is reported with as
/// many uses as a sampled hit stands for. Nothing else changes.
pub proof fn law_hit_is_the_last_hit(v: BackendView, key: RuntimeCacheKey, now: Moment)
    ensures
        ({
            let w = v.hit(key, now);
            let weight = v.tuning.lookup_hit_sample_rate as u64;
            &&& w == (BackendView { resident: w.resident, outbox: w.outbox, ..v })
            &&& w.resident.dom() == v.resident.dom()
            &&& v.resident.contains_key(key) ==> {
                &&& w.resident[key].last_hit_at == now
                &&& w.resident[key].kind == v.resident[key].kind
                &&& w.resident[key].artifact_len == v.resident[key].artifact_len
            }
            &&& forall|k: RuntimeCacheKey|
                k != key && #[trigger] v.resident.contains_key(k) ==> w.resident[k] == v.resident[k]
            &&& w.outbox == (if v.aot && weight > 0 {
                v.outbox.push(usage(v, key, weight))
            } else {
                v.outbox
            })
        }),
{
    assert(v.hit(key, now).resident.dom() =~= v.resident.dom());
}

/// The report of uses of the artifact of a key, at the optimization level of AOT compilations.
pub open spec fn usage(v: BackendView, key: RuntimeCacheKey, weight: u64) -> Effect {
    Effect::ArtifactUsage(
        ArtifactUsageEvent {
            artifact_key: ArtifactKey {
                runtime: key,
                backend: BackendSelection::Llvm,
                opt_level: v.tuning.aot_opt_level,
            },
            weight,
        },
    )
}

/// A JIT program is kept as one: it has no length, was hit when it came in, and leaves the AOT
/// counters alone where its key was not resident.
pub proof fn law_jit_programs_are_not_charged(
    v: BackendView,
    key: RuntimeCacheKey,
    waiters: Seq<SyncNotifier>,
    slot: u64,
    now: Moment,
)
    requires
        !v.resident.contains_key(key),
    ensures
        ({
            let w = v.linked(key, waiters, Some(slot), now);
            &&& w.resident.contains_key(key)
            &&& w.resident[key].kind == ProgramKind::Jit
            &&& w.resident[key].artifact_len == 0
            &&& w.resident[key].last_hit_at == now
            &&& w.resident_aot_entries == v.resident_aot_entries
            &&& w.resident_aot_bytes == v.resident_aot_bytes
            &&& !w.entries.contains_key(key)
            &&& forall|k: RuntimeCacheKey|
                k != key ==> (#[trigger] w.resident.contains_key(k) <==> v.resident.contains_key(k))
            &&& forall|k: RuntimeCacheKey|
                k != key && #[trigger] w.resident.contains_key(k) ==> w.resident[k] == v.resident[k]
            &&& w.stats == (BackendStats {
                compilations_succeeded: v.stats.compilations_succeeded.wrapping_add(1),
                ..v.stats
            })
        }),
{
    lemma_notify_all_frame(v.publish_jit(key, slot, now), waiters);
}

/// Whether a resident program is idle for longer than the sweep allows, whatever its kind.
pub open spec fn past_idle_time(v: BackendView, key: RuntimeCacheKey, now: Moment) -> bool {
    v.tuning.idle_evict_duration is Some && now.nanos > v.resident[key].last_hit_at.nanos
        + v.tuning.idle_evict_duration->0.nanos
}

/// Whether a cold entry was not requested for longer than the sweep allows, and is not one that is
/// known to be over the byte budget.
pub open spec fn past_cold_time(v: BackendView, key: RuntimeCacheKey, now: Moment) -> bool {
    &&& v.tuning.cold_entry_idle_duration is Some
    &&& v.entries[key].phase == EntryPhase::Cold
    &&& v.entries[key].persisted_aot != PersistedAotState::Oversized
    &&& now.nanos > v.entries[key].last_observed_at.nanos
        + v.tuning.cold_entry_idle_duration->0.nanos
}

/// Evicting different resident programs counts and releases each of them.
#[verifier::rlimit(60)]
proof fn lemma_evicting_counts(v: BackendView, keys: Seq<RuntimeCacheKey>)
    requires
        v.inv(),
        keys.no_duplicates(),
        forall|i: int| 0 <= i < keys.len() ==> v.resident.contains_key(#[trigger] keys[i]),
    ensures
        ({
            let w = v.evict_all(keys);
            &&& w.inv()
            &&& w.entries == v.entries
            &&& w.resident.dom().len() + keys.len() == v.resident.dom().len()
            &&& w == (BackendView {
                published: w.published,
                resident: w.resident,
                resident_aot_entries: w.resident_aot_entries,
                resident_aot_bytes: w.resident_aot_bytes,
                stats: w.stats,
                outbox: w.outbox,
                ..v
            })
            &&& w.stats == (BackendStats { evictions: w.stats.evictions, ..v.stats })
            &&& w.stats.evictions as int == (v.stats.evictions + keys.len())
                % 0x1_0000_0000_0000_0000
            &&& w.outbox.len() == v.outbox.len() + keys.len()
            &&& forall|i: int| 0 <= i < v.outbox.len() ==> #[trigger] w.outbox[i] == v.outbox[i]
            &&& forall|i: int|
                0 <= i < keys.len() ==> w.outbox[v.outbox.len() + i] == Effect::ReleaseProgram(
                    v.published[#[trigger] keys[i]],
                )
            &&& forall|k: RuntimeCacheKey| #[trigger]
                w.resident.contains_key(k) <==> v.resident.contains_key(k) && !keys.contains(k)
            &&& forall|k: RuntimeCacheKey| #[trigger]
                w.resident.contains_key(k) ==> w.resident[k] == v.resident[k] && w.published[k]
                    == v.published[k]
        }),
    decreases keys.len(),
{
    lemma_evict_all_keeps_inv(v, keys);
    if keys.len() > 0 {
        let rest = keys.drop_last();
        let last = keys.last();
        assert forall|i: int| 0 <= i < rest.len() implies v.resident.contains_key(
            #[trigger] rest[i],
        ) by {
            assert(rest[i] == keys[i]);
        }
        lemma_evicting_counts(v, rest);
        let u = v.evict_all(rest);
        let w = v.evict_all(keys);
        assert(keys =~= rest.push(last));
        lemma_push_contains(rest, last);
        assert(!rest.contains(last)) by {
            if rest.contains(last) {
                let j = choose|j: int| 0 <= j < rest.len() && rest[j] == last;
                assert(keys[j] == keys[keys.len() - 1]);
            }
        }
        assert(keys[keys.len() - 1] == last);
        assert(u.resident.contains_key(last));
        assert(u.resident.dom().contains(last));
        assert(u.published.dom().contains(last));
        assert(!u.entries.dom().contains(last));
        assert(u.entries.remove(last) =~= u.entries);
        assert(w.outbox == u.outbox.push(Effect::ReleaseProgram(u.published[last])));
        assert forall|i: int| 0 <= i < keys.len() implies w.outbox[v.outbox.len() + i]
            == Effect::ReleaseProgram(v.published[#[trigger] keys[i]]) by {
            if i < rest.len() {
                assert(rest[i] == keys[i]);
                assert(u.outbox[v.outbox.len() + i] == Effect::ReleaseProgram(
                    v.published[rest[i]],
                ));
            }
        }
    }
}

/// No longer tracking different tracked keys takes each off the number of them.
proof fn lemma_forgetting_counts(v: BackendView, keys: Seq<RuntimeCacheKey>)
    requires
        v.inv(),
        keys.no_duplicates(),
        forall|i: int| 0 <= i < keys.len() ==> v.entries.contains_key(#[trigger] keys[i]),
    ensures
        ({
            let w = v.forget_all(keys);
            &&& w.inv()
            &&& w.entries.dom().len() + keys.len() == v.entries.dom().len()
            &&& w == (BackendView {
                entries: w.entries,
                observed_entries: w.observed_entries,
                ..v
            })
            &&& forall|k: RuntimeCacheKey| #[trigger]
                w.entries.contains_key(k) <==> v.entries.contains_key(k) && !keys.contains(k)
            &&& forall|k: RuntimeCacheKey| #[trigger]
                w.entries.contains_key(k) ==> w.entries[k] == v.entries[k]
        }),
    decreases keys.len(),
{
    if keys.len() > 0 {
        let rest = keys.drop_last();
        let last = keys.last();
        assert forall|i: int| 0 <= i < rest.len() implies v.entries.contains_key(
            #[trigger] rest[i],
        ) by {
            assert(rest[i] == keys[i]);
        }
        lemma_forgetting_counts(v, rest);
        let u = v.forget_all(rest);
        assert(keys =~= rest.push(last));
        lemma_push_contains(rest, last);
        assert(!rest.contains(last)) by {
            if rest.contains(last) {
                let j = choose|j: int| 0 <= j < rest.len() && rest[j] == last;
                assert(keys[j] == keys[keys.len() - 1]);
            }
        }
        assert(keys[keys.len() - 1] == last);
        assert(u.entries.contains_key(last));
        assert(u.entries.dom().contains(last));
        lemma_remove_entry_inv(u, last);
    }
}

/// After a sweep no program of either kind is resident whose last hit lies longer ago than the idle
/// time, every other program is kept as it was, and each that went is counted and released. No cold
/// entry is tracked that was last requested longer ago than its idle time, unless its artifact is
/// known to be over budget; every other entry is kept as it was, and each that went is counted.
/// Without an idle time nothing goes.
#[verifier::rlimit(60)]
pub proof fn law_sweep_leaves_nothing_idle(v: BackendView, after: BackendView, now: Moment)
    requires
        v.inv(),
        v.sweeps_to(after, now),
    ensures
        after.inv(),
        after.last_sweep == now,
        forall|k: RuntimeCacheKey| #[trigger]
            after.resident.contains_key(k) <==> v.resident.contains_key(k) && !past_idle_time(
                v,
                k,
                now,
            ),
        forall|k: RuntimeCacheKey| #[trigger]
            after.resident.contains_key(k) ==> after.resident[k] == v.resident[k]
                && after.published[k] == v.published[k],
        forall|k: RuntimeCacheKey| #[trigger]
            after.entries.contains_key(k) <==> v.entries.contains_key(k) && !past_cold_time(
                v,
                k,
                now,
            ),
        forall|k: RuntimeCacheKey| #[trigger]
            after.entries.contains_key(k) ==> after.entries[k] == v.entries[k],
        after.stats == (BackendStats {
            evictions: after.stats.evictions,
            cold_entry_evictions: after.stats.cold_entry_evictions,
            ..v.stats
        }),
        after.resident.dom().len() <= v.resident.dom().len(),
        after.stats.evictions as int == (v.stats.evictions + v.resident.dom().len()
            - after.resident.dom().len()) % 0x1_0000_0000_0000_0000,
        after.entries.dom().len() <= v.entries.dom().len(),
        v.entries.dom().len() <= usize::MAX ==> after.stats.cold_entry_evictions as int == (
        v.stats.cold_entry_evictions + v.entries.dom().len() - after.entries.dom().len())
            % 0x1_0000_0000_0000_0000,
        after.outbox.len() == v.outbox.len() + v.resident.dom().len() - after.resident.dom().len(),
        forall|k: RuntimeCacheKey| #[trigger]
            v.resident.contains_key(k) && !after.resident.contains_key(k)
                ==> after.outbox.contains(Effect::ReleaseProgram(v.published[k])),
        after == (BackendView {
            published: after.published,
            resident: after.resident,
            entries: after.entries,
            observed_entries: after.observed_entries,
            resident_aot_entries: after.resident_aot_entries,
            resident_aot_bytes: after.resident_aot_bytes,
            last_sweep: after.last_sweep,
            stats: after.stats,
            outbox: after.outbox,
            ..v
        }),
{
    let begun = v.swept_at(now);
    let (idle, stale) = choose|idle: Seq<RuntimeCacheKey>, stale: Seq<RuntimeCacheKey>|
        #![trigger begun.lists_idle(idle, now), begun.evict_all(idle).lists_stale(stale, now)]
        {
            &&& begun.lists_idle(idle, now)
            &&& begun.evict_all(idle).lists_stale(stale, now)
            &&& after == begun.evict_all(idle).forget_stale(stale)
        };
    assert(begun.inv());
    assert forall|i: int| 0 <= i < idle.len() implies begun.resident.contains_key(
        #[trigger] idle[i],
    ) by {
        assert(idle.contains(idle[i]));
        assert(begun.is_idle(idle[i], now));
    }
    lemma_evicting_counts(begun, idle);
    let evicted = begun.evict_all(idle);
    assert forall|i: int| 0 <= i < stale.len() implies evicted.entries.contains_key(
        #[trigger] stale[i],
    ) by {
        assert(stale.contains(stale[i]));
        assert(evicted.is_stale(stale[i], now));
    }
    lemma_forgetting_counts(evicted, stale);
    let forgotten = evicted.forget_all(stale);
    assert forall|k: RuntimeCacheKey| #[trigger]
        after.resident.contains_key(k) <==> v.resident.contains_key(k) && !past_idle_time(
        v,
        k,
        now,
    ) by {
        assert(evicted.resident.contains_key(k) <==> begun.resident.contains_key(k)
            && !idle.contains(k));
        assert(idle.contains(k) <==> begun.is_idle(k, now));
    }
    assert forall|k: RuntimeCacheKey| #[trigger]
        after.resident.contains_key(k) implies after.resident[k] == v.resident[k]
        && after.published[k] == v.published[k] by {
        assert(evicted.resident.contains_key(k));
    }
    assert forall|k: RuntimeCacheKey| #[trigger]
        after.entries.contains_key(k) <==> v.entries.contains_key(k) && !past_cold_time(
        v,
        k,
        now,
    ) by {
        assert(forgotten.entries.contains_key(k) <==> evicted.entries.contains_key(k)
            && !stale.contains(k));
        assert(stale.contains(k) <==> evicted.is_stale(k, now));
        if v.entries.contains_key(k) {
            assert(evicted.entries.dom().contains(k));
            assert(!evicted.resident.dom().contains(k));
            assert(!evicted.published.dom().contains(k));
        }
    }
    assert forall|k: RuntimeCacheKey| #[trigger]
        after.entries.contains_key(k) implies after.entries[k] == v.entries[k] by {
        assert(forgotten.entries.contains_key(k));
    }
    assert forall|k: RuntimeCacheKey| #[trigger]
        v.resident.contains_key(k) && !after.resident.contains_key(k) implies after.outbox.contains(
        Effect::ReleaseProgram(v.published[k]),
    ) by {
        assert(evicted.resident.contains_key(k) <==> begun.resident.contains_key(k)
            && !idle.contains(k));
        let i = choose|i: int| 0 <= i < idle.len() && idle[i] == k;
        assert(evicted.outbox[begun.outbox.len() + i] == Effect::ReleaseProgram(
            begun.published[idle[i]],
        ));
    }
}

/// A sweep is due at once where the JIT code takes more bytes than its budget, if it has one. It is
/// else due where some idle time is set and the interval has passed since the last sweep.
pub proof fn law_sweep_is_due(v: BackendView, jit_bytes: usize, now: Moment)
    ensures
        0 < v.tuning.resident_code_cache_bytes < jit_bytes ==> v.sweep_due(jit_bytes, now),
        v.tuning.idle_evict_duration is None && v.tuning.cold_entry_idle_duration is None && (
        v.tuning.resident_code_cache_bytes == 0 || jit_bytes <= v.tuning.resident_code_cache_bytes)
            ==> !v.sweep_due(jit_bytes, now),
        (v.tuning.idle_evict_duration is Some || v.tuning.cold_entry_idle_duration is Some)
            && v.last_sweep.nanos + v.tuning.eviction_sweep_interval.nanos <= now.nanos
            ==> v.sweep_due(jit_bytes, now),
        now.nanos < v.last_sweep.nanos + v.tuning.eviction_sweep_interval.nanos
            && v.tuning.eviction_sweep_interval.nanos > 0 && (
        v.tuning.resident_code_cache_bytes == 0 || jit_bytes <= v.tuning.resident_code_cache_bytes)
            ==> !v.sweep_due(jit_bytes, now),
        v.over_budget(jit_bytes) <==> 0 < v.tuning.resident_code_cache_bytes < jit_bytes,
{
}

/// Evicting one program over the JIT budget takes that program out and no other, counts it and
/// releases it. An entry of the key goes with it.
pub proof fn law_evicting_one_takes_one(v: BackendView, key: RuntimeCacheKey)
    requires
        v.inv(),
        v.resident.contains_key(key),
    ensures
        ({
            let w = v.evict(key);
            &&& w.inv()
            &&& !w.resident.contains_key(key) && !w.published.contains_key(key)
            &&& w.entries == v.entries
            &&& forall|k: RuntimeCacheKey|
                k != key && #[trigger] v.resident.contains_key(k) ==> w.resident.contains_key(k)
                    && w.resident[k] == v.resident[k] && w.published[k] == v.published[k]
            &&& w.resident.dom().len() + 1 == v.resident.dom().len()
            &&& v.resident[key].kind == ProgramKind::Jit ==> w.resident_aot_entries
                == v.resident_aot_entries && w.resident_aot_bytes == v.resident_aot_bytes
            &&& v.bytes_exact() && v.resident[key].kind == ProgramKind::Aot
                ==> w.resident_aot_entries + 1 == v.resident_aot_entries && w.resident_aot_bytes
                + v.resident[key].artifact_len == v.resident_aot_bytes
            &&& w.stats == (BackendStats {
                evictions: v.stats.evictions.wrapping_add(1),
                ..v.stats
            })
            &&& w.outbox == v.outbox.push(Effect::ReleaseProgram(v.published[key]))
        }),
{
    lemma_remove_resident_inv(v, key);
    lemma_remove_entry_inv(v.remove_resident(key), key);
    lemma_total_remove(v.resident, aot_weight(), key);
    lemma_total_remove(v.resident, aot_len(), key);
    assert(v.resident.dom().contains(key));
    assert(v.published.dom().contains(key));
    assert(!v.entries.dom().contains(key));
    assert(v.entries.remove(key) =~= v.entries);
}

/// A backend starts out with nothing but the programs that were loaded before, hit at the start: no
/// key is tracked, no job is pending, nothing is counted and nothing is to be done.
pub proof fn law_start_is_fresh(
    tuning: RuntimeTuning,
    aot: bool,
    has_store: bool,
    preloaded: Seq<Preloaded>,
    now: Moment,
    publications: Set<(RuntimeCacheKey, u64)>,
)
    requires
        forall|i: int, j: int|
            0 <= i < j < preloaded.len() ==> (#[trigger] preloaded[i]).key != (
            #[trigger] preloaded[j]).key,
    ensures
        ({
            let v = BackendView::initial(tuning, aot, has_store, now, publications).seed(
                preloaded,
                now,
            );
            &&& v.tuning == tuning && v.aot == aot && v.has_store == has_store
            &&& v.entries == Map::<RuntimeCacheKey, EntryView>::empty()
            &&& v.pending_jobs == 0 && v.generation == 0 && v.observed_entries == 0
            &&& v.last_sweep == now
            &&& v.limiter.next_allowed_at is None
            &&& v.outbox.len() == 0
            &&& v.stats == (BackendStats {
                tracked_entries: 0,
                cold_entries: 0,
                observed_entry_rejections: 0,
                cold_entry_evictions: 0,
                compilations_dispatched: 0,
                compilations_succeeded: 0,
                compilations_failed: 0,
                persisted_aot_probes: 0,
                persisted_aot_probe_misses: 0,
                persisted_aot_oversized: 0,
                persisted_aot_capacity_deferred: 0,
                persisted_aot_rate_limited: 0,
                persisted_aot_loads: 0,
                persisted_aot_load_ns: 0,
                evictions: 0,
                aot_evictions: 0,
            })
            &&& forall|k: RuntimeCacheKey| #[trigger]
                v.resident.contains_key(k) <==> exists|i: int|
                    0 <= i < preloaded.len() && (#[trigger] preloaded[i]).key == k
            &&& forall|i: int|
                0 <= i < preloaded.len() ==> {
                    let program = #[trigger] preloaded[i];
                    &&& v.resident[program.key].kind == program.kind
                    &&& v.resident[program.key].artifact_len == program.artifact_len
                    &&& v.resident[program.key].last_hit_at == now
                    &&& v.published.contains_key(program.key)
                    &&& v.published[program.key] == program.slot
                }
            &&& forall|k: RuntimeCacheKey| #[trigger]
                v.published.contains_key(k) ==> v.resident.contains_key(k)
        }),
    decreases preloaded.len(),
{
    let start = BackendView::initial(tuning, aot, has_store, now, publications);
    let v = start.seed(preloaded, now);
    if preloaded.len() > 0 {
        let rest = preloaded.drop_last();
        let last = preloaded.len() - 1;
        assert forall|i: int, j: int| 0 <= i < j < rest.len() implies (#[trigger] rest[i]).key != (
        #[trigger] rest[j]).key by {
            assert(rest[i] == preloaded[i] && rest[j] == preloaded[j]);
        }
        law_start_is_fresh(tuning, aot, has_store, rest, now, publications);
        let w = start.seed(rest, now);
        let program = preloaded.last();
        assert(preloaded[last] == program);
        if w.resident.contains_key(program.key) {
            let i = choose|i: int| 0 <= i < rest.len() && (#[trigger] rest[i]).key == program.key;
            assert(preloaded[i] == rest[i]);
        }
        assert(!w.resident.contains_key(program.key));
        assert forall|k: RuntimeCacheKey| #[trigger]
            v.resident.contains_key(k) <==> exists|i: int|
            0 <= i < preloaded.len() && (#[trigger] preloaded[i]).key == k by {
            if v.resident.contains_key(k) && k != program.key {
                assert(w.resident.contains_key(k));
                let i = choose|i: int| 0 <= i < rest.len() && (#[trigger] rest[i]).key == k;
                assert(preloaded[i].key == k);
            }
            if exists|i: int| 0 <= i < preloaded.len() && (#[trigger] preloaded[i]).key == k {
                let i = choose|i: int|
                    0 <= i < preloaded.len() && (#[trigger] preloaded[i]).key == k;
                if i < rest.len() {
                    assert(rest[i].key == k);
                    assert(w.resident.contains_key(k));
                }
            }
        }
        assert forall|i: int| 0 <= i < preloaded.len() implies {
            let program = #[trigger] preloaded[i];
            &&& v.resident[program.key].kind == program.kind
            &&& v.resident[program.key].artifact_len == program.artifact_len
            &&& v.resident[program.key].last_hit_at == now
            &&& v.published.contains_key(program.key)
            &&& v.published[program.key] == program.slot
        } by {
            if i < rest.len() {
                assert(rest[i] == preloaded[i]);
                assert(preloaded[i].key != preloaded[last].key);
            }
        }
    } else {
        assert(v.resident =~= Map::<RuntimeCacheKey, ResidentMeta>::empty());
    }
}

} // verus!
