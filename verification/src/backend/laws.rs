//! What holds of the backend as a whole.
use super::commands::{lemma_hit_inv, lemma_wake_tracked_frame};
use super::requests::{
    lemma_evict_all_inv, lemma_request_inv, Admission, NextStep, ProbeResult, VerdictView,
};
use super::results::WorkerResult;
use super::sweep::lemma_evict_all_keeps_inv;
use super::upkeep::{
    lemma_listing_exists, lemma_notify_all_frame, lemma_publish_inv, lemma_push_contains,
    lemma_remove_resident_inv,
};
use super::waiting::{lemma_evicting_residents_keeps_entries, waits};
use super::{
    aot_len, aot_weight, is_row, observed_weight, rows_of, BackendView, EntryPhase, EntryView,
    PersistedAotState, ResidentMeta, SyncNotifier,
};
use crate::admission::{
    bytes_fit, entries_fit, law_limiter_never_bursts, law_order_is_lru, law_plan_is_minimal,
    lemma_lru_order, lru_order, oversized, planned_victims, row_bytes, row_keys, victim_order,
    AotResident,
};
use crate::clock::Moment;
use crate::config::{AdmitMode, CompilationKind, ProgramKind};
use crate::keys::RuntimeCacheKey;
use crate::storage::StoredArtifact;
use crate::sums::{lemma_total_insert, lemma_total_remove, lemma_total_remove_absent, total};
use vstd::prelude::*;

verus! {

/// Programs in the eviction order are resident, and no two share a key.
pub proof fn lemma_order_rows(v: BackendView, now: Moment, mode: AdmitMode)
    requires
        v.inv(),
    ensures
        ({
            let order = victim_order(v.tuning, now, mode, rows_of(v.resident, ProgramKind::Aot));
            &&& order.no_duplicates()
            &&& forall|i: int|
                0 <= i < order.len() ==> is_row(
                    #[trigger] order[i],
                    v.resident,
                    ProgramKind::Aot,
                )
            &&& forall|i: int, j: int|
                0 <= i < j < order.len() ==> (#[trigger] order[i]).key != (#[trigger] order[j]).key
        }),
{
    broadcast use vstd::seq_lib::group_to_multiset_ensures;

    let rows = rows_of(v.resident, ProgramKind::Aot);
    let order = victim_order(v.tuning, now, mode, rows);
    lemma_listing_exists(v.resident, ProgramKind::Aot);
    law_order_is_lru(v.tuning, now, mode, rows);
    rows.lemma_multiset_has_no_duplicates();
    assert forall|r: AotResident| order.to_multiset().contains(r) implies order.to_multiset().count(r)
        == 1 by {
        assert(rows.to_multiset().contains(r));
    }
    order.lemma_multiset_has_no_duplicates_conv();
    assert forall|i: int| 0 <= i < order.len() implies is_row(
        #[trigger] order[i],
        v.resident,
        ProgramKind::Aot,
    ) by {
        assert(order.contains(order[i]));
        assert(rows.contains(order[i]));
    }
    assert forall|i: int, j: int| 0 <= i < j < order.len() implies (#[trigger] order[i]).key != (
    #[trigger] order[j]).key by {
        assert(is_row(order[i], v.resident, ProgramKind::Aot));
        assert(is_row(order[j], v.resident, ProgramKind::Aot));
        if order[i].key == order[j].key {
            assert(order[i] == order[j]);
        }
    }
}

/// Evicting the first programs of the eviction order takes out just these.
proof fn lemma_evicting_rows(v: BackendView, order: Seq<AotResident>, n: int)
    requires
        v.inv(),
        0 <= n <= order.len(),
        forall|i: int|
            0 <= i < order.len() ==> is_row(#[trigger] order[i], v.resident, ProgramKind::Aot),
        forall|i: int, j: int|
            0 <= i < j < order.len() ==> (#[trigger] order[i]).key != (#[trigger] order[j]).key,
    ensures
        ({
            let w = v.evict_all_for_aot(row_keys(order.take(n)));
            &&& w.inv()
            &&& total(w.resident, aot_weight()) + n == total(v.resident, aot_weight())
            &&& total(w.resident, aot_len()) + row_bytes(order, n) == total(v.resident, aot_len())
            &&& forall|i: int|
                n <= i < order.len() ==> is_row(#[trigger] order[i], w.resident, ProgramKind::Aot)
        }),
    decreases n,
{
    let w = v.evict_all_for_aot(row_keys(order.take(n)));
    lemma_evict_all_inv(v, row_keys(order.take(n)));
    if n == 0 {
        assert(row_keys(order.take(0)).len() == 0);
    } else {
        lemma_evicting_rows(v, order, n - 1);
        let keys = row_keys(order.take(n));
        let u = v.evict_all_for_aot(row_keys(order.take(n - 1)));
        assert(keys.drop_last() =~= row_keys(order.take(n - 1)));
        let row = order[n - 1];
        assert(keys.last() == row.key);
        assert(is_row(row, u.resident, ProgramKind::Aot));
        assert(w.resident == u.resident.remove(row.key));
        lemma_total_remove(u.resident, aot_weight(), row.key);
        lemma_total_remove(u.resident, aot_len(), row.key);
        assert forall|i: int| n <= i < order.len() implies is_row(
            #[trigger] order[i],
            w.resident,
            ProgramKind::Aot,
        ) by {
            assert(is_row(order[i], u.resident, ProgramKind::Aot));
            assert(order[n - 1].key != order[i].key);
        }
    }
}

/// The budgets are hard: whenever an artifact is made resident, both the number of AOT programs
/// and the sum of their artifact lengths are within their budgets afterwards.
///
/// Where the lengths add up to more than a `usize` can count, nothing is said.
pub proof fn law_budgets_are_hard(
    v: BackendView,
    key: RuntimeCacheKey,
    artifact_len: usize,
    mode: AdmitMode,
    now: Moment,
    persisted: bool,
    slot: u64,
    at: Moment,
)
    requires
        v.inv(),
        v.bytes_exact(),
        total(v.resident, aot_len()) + artifact_len <= usize::MAX,
        v.resident_aot_entries < usize::MAX,
        v.judge_stored(artifact_len, mode, now, persisted).1 is Load,
    ensures
        ({
            let (judged, verdict) = v.judge_stored(artifact_len, mode, now, persisted);
            let w = judged.install_stored(key, artifact_len, verdict->Load_0, slot, at);
            &&& entries_fit(v.tuning, total(w.resident, aot_weight()) as int)
            &&& bytes_fit(v.tuning, total(w.resident, aot_len()) as int)
        }),
{
    let (judged, verdict) = v.judge_stored(artifact_len, mode, now, persisted);
    let victims = verdict->Load_0;
    let rows = rows_of(v.resident, ProgramKind::Aot);
    let order = victim_order(v.tuning, now, mode, rows);
    let n = victims.len() as int;
    law_plan_is_minimal(
        v.tuning,
        v.resident_aot_entries,
        v.resident_aot_bytes,
        artifact_len,
        now,
        mode,
        rows,
    );
    lemma_order_rows(v, now, mode);
    assert(judged.inv());
    lemma_evicting_rows(judged, order, n);
    let w = judged.evict_all_for_aot(victims);
    let meta = ResidentMeta { last_hit_at: at, kind: ProgramKind::Aot, artifact_len };
    let b = if w.resident.contains_key(key) {
        w.remove_resident(key)
    } else {
        w
    };
    if w.resident.contains_key(key) {
        lemma_total_remove(w.resident, aot_weight(), key);
        lemma_total_remove(w.resident, aot_len(), key);
    }
    lemma_total_insert(b.resident, aot_weight(), key, meta);
    lemma_total_insert(b.resident, aot_len(), key, meta);
    lemma_total_remove_absent(b.resident, aot_weight(), key);
    lemma_total_remove_absent(b.resident, aot_len(), key);
}

/// What makes room for an artifact is resident: only AOT programs do, and observed demand takes none
/// that was hit within the idle time.
pub proof fn law_victims_are_resident(
    v: BackendView,
    artifact_len: usize,
    mode: AdmitMode,
    now: Moment,
    persisted: bool,
)
    requires
        v.inv(),
        v.judge_stored(artifact_len, mode, now, persisted).1 is Load,
    ensures
        ({
            let (judged, verdict) = v.judge_stored(artifact_len, mode, now, persisted);
            let victims = verdict->Load_0;
            &&& judged.resident == v.resident
            &&& forall|i: int|
                0 <= i < victims.len() ==> {
                    &&& v.resident.contains_key(#[trigger] victims[i])
                    &&& v.resident[victims[i]].kind == ProgramKind::Aot
                    &&& mode == AdmitMode::Observed ==> now.at_least_after(
                        v.resident[victims[i]].last_hit_at,
                        v.tuning.resident_aot_min_idle,
                    )
                }
        }),
{
    let victims = v.judge_stored(artifact_len, mode, now, persisted).1->Load_0;
    let rows = rows_of(v.resident, ProgramKind::Aot);
    let order = victim_order(v.tuning, now, mode, rows);
    law_plan_is_minimal(
        v.tuning,
        v.resident_aot_entries,
        v.resident_aot_bytes,
        artifact_len,
        now,
        mode,
        rows,
    );
    law_order_is_lru(v.tuning, now, mode, rows);
    lemma_order_rows(v, now, mode);
    assert forall|i: int| 0 <= i < victims.len() implies {
        &&& v.resident.contains_key(#[trigger] victims[i])
        &&& v.resident[victims[i]].kind == ProgramKind::Aot
        &&& mode == AdmitMode::Observed ==> now.at_least_after(
            v.resident[victims[i]].last_hit_at,
            v.tuning.resident_aot_min_idle,
        )
    } by {
        assert(victims[i] == order[i].key);
        assert(order.contains(order[i]));
        assert(is_row(order[i], v.resident, ProgramKind::Aot));
    }
}

/// No program makes room twice.
pub proof fn lemma_victims_differ(
    v: BackendView,
    artifact_len: usize,
    mode: AdmitMode,
    now: Moment,
    persisted: bool,
)
    requires
        v.inv(),
        v.judge_stored(artifact_len, mode, now, persisted).1 is Load,
    ensures
        v.judge_stored(artifact_len, mode, now, persisted).1->Load_0.no_duplicates(),
{
    let victims = v.judge_stored(artifact_len, mode, now, persisted).1->Load_0;
    let rows = rows_of(v.resident, ProgramKind::Aot);
    let order = victim_order(v.tuning, now, mode, rows);
    law_plan_is_minimal(
        v.tuning,
        v.resident_aot_entries,
        v.resident_aot_bytes,
        artifact_len,
        now,
        mode,
        rows,
    );
    lemma_order_rows(v, now, mode);
    assert forall|i: int, j: int| 0 <= i < j < victims.len() implies victims[i] != victims[j] by {
        assert(victims[i] == order[i].key && victims[j] == order[j].key);
    }
}

/// A request, up to the point where an artifact is loaded or a job is done, leaves the resident
/// programs alone.
pub proof fn law_requests_leave_programs_alone(
    v: BackendView,
    adm: Admission,
    bytecode: Seq<u8>,
    eligible: bool,
    answer: ProbeResult,
    accepted: bool,
)
    ensures
        v.request(adm, bytecode, eligible).0.resident == v.resident,
        v.request(adm, bytecode, eligible).0.published == v.published,
        v.probed(adm.key, answer).proceed(adm).0.resident == v.resident,
        v.probed(adm.key, answer).proceed(adm).0.published == v.published,
        v.dispatched(adm, accepted).resident == v.resident,
        v.dispatched(adm, accepted).published == v.published,
{
}

/// A load that fails creates no hole: whatever was resident still is.
pub proof fn law_failed_load_leaves_no_hole(
    v: BackendView,
    adm: Admission,
    stored: StoredArtifact,
    victims: Seq<RuntimeCacheKey>,
    started: Moment,
    finished: Moment,
    waiters: Seq<SyncNotifier>,
)
    ensures
        v.loaded(adm, stored, victims, None, started, finished).0.resident == v.resident,
        v.loaded(adm, stored, victims, None, started, finished).0.published == v.published,
        v.artifact_loaded(adm.key, waiters, stored, victims, None, finished).resident == v.resident,
        v.artifact_loaded(adm.key, waiters, stored, victims, None, finished).published
            == v.published,
{
    lemma_notify_all_frame(
        v.note_persisted(adm.key, PersistedAotState::Absent).count_failure(),
        waiters,
    );
}

/// A result of another generation makes nothing resident and evicts nothing.
pub proof fn law_stale_result_publishes_nothing(v: BackendView, result: WorkerResult)
    requires
        result.generation != v.generation,
    ensures
        v.received(result).resident == v.resident,
        v.received(result).published == v.published,
{
    lemma_notify_all_frame(
        v.returned(result.key).remove_entry(result.key),
        v.waiters(result.key, result.sync_notifier),
    );
}

/// Clearing forgets every program and every key, and every job that is in flight then belongs to
/// an earlier generation, so that its result publishes nothing.
pub proof fn law_clear_forgets_everything(v: BackendView, after: BackendView)
    requires
        v.clears_to(after),
        v.generation < u64::MAX,
    ensures
        after.published == Map::<RuntimeCacheKey, u64>::empty(),
        after.resident == Map::<RuntimeCacheKey, ResidentMeta>::empty(),
        after.entries == Map::<RuntimeCacheKey, EntryView>::empty(),
        after.generation == v.generation + 1,
        after.pending_jobs == 0,
        after.limiter.next_allowed_at is None,
        after.observed_entries == 0,
        after.resident_aot_entries == 0,
        after.resident_aot_bytes == 0,
{
    let keys = choose|keys: Seq<RuntimeCacheKey>|
        #[trigger] v.lists_tracked(keys) && after == v.cleared(keys);
    let emptied = v.emptied();
    lemma_wake_tracked_frame(emptied, v.entries, keys);
}

/// A resident key is left alone: a request for it changes nothing and is answered at once.
pub proof fn law_resident_key_is_settled(
    v: BackendView,
    adm: Admission,
    bytecode: Seq<u8>,
    eligible: bool,
)
    requires
        v.published.contains_key(adm.key),
    ensures
        v.request(adm, bytecode, eligible) == (v.notify(adm.sync_notifier), NextStep::Done),
{
}

/// A key in flight is not compiled, asked for or loaded a second time: a request for it joins
/// those who wait.
pub proof fn law_key_in_flight_is_joined(
    v: BackendView,
    adm: Admission,
    bytecode: Seq<u8>,
)
    requires
        v.inv(),
        v.entries.contains_key(adm.key),
        v.entries[adm.key].phase == EntryPhase::Working,
        adm.mode == AdmitMode::Explicit || !v.lacks_slot(adm.key),
    ensures
        v.request(adm, bytecode, true).1 == NextStep::Done,
        v.request(adm, bytecode, true).0.pending_jobs == v.pending_jobs,
        v.request(adm, bytecode, true).0.entries[adm.key].phase == EntryPhase::Working,
        v.request(adm, bytecode, true).0.entries[adm.key].pending_notifiers
            == v.entries[adm.key].pending_notifiers.push(adm.sync_notifier),
{
    assert(v.resident.dom().disjoint(v.entries.dom()));
    assert(v.entries.dom().contains(adm.key));
    assert(!v.published.dom().contains(adm.key));
}

/// Observed demand compiles only what is hot: no request leads to a job below the threshold,
/// neither at once nor after the store answered or a load failed.
pub proof fn law_cold_keys_are_not_compiled(
    v: BackendView,
    adm: Admission,
    bytecode: Seq<u8>,
    eligible: bool,
    answer: ProbeResult,
    stored: StoredArtifact,
    victims: Seq<RuntimeCacheKey>,
    slot: Option<u64>,
    started: Moment,
    finished: Moment,
)
    requires
        adm.mode == AdmitMode::Observed,
    ensures
        ({
            let (w, next) = v.request(adm, bytecode, eligible);
            next == NextStep::Dispatch ==> w.entries[adm.key].hotness >= v.tuning.jit_hot_threshold
        }),
        ({
            let (w, next) = v.probed(adm.key, answer).proceed(adm);
            next == NextStep::Dispatch ==> w.entries[adm.key].hotness >= v.tuning.jit_hot_threshold
        }),
        ({
            let (w, next) = v.loaded(adm, stored, victims, slot, started, finished);
            next == NextStep::Dispatch ==> w.entries[adm.key].hotness >= v.tuning.jit_hot_threshold
        }),
{
}

/// What is known of the artifact of a key that is not resident.
pub open spec fn known_artifact(v: BackendView, key: RuntimeCacheKey) -> PersistedAotState {
    if v.entries.contains_key(key) {
        v.entries[key].persisted_aot
    } else {
        PersistedAotState::Unprobed
    }
}

/// An explicit request is not gated by hotness, by the limit on observed entries or by the load
/// limiter. For a key that is neither resident nor in flight, what is known of its artifact alone
/// decides: the store is asked where nothing is known, an artifact is loaded where the budgets let
/// it, and the key is compiled where there is no artifact, or none is wanted, wherever a job may be
/// started.
pub proof fn law_explicit_requests_are_unconditional(
    v: BackendView,
    adm: Admission,
    bytecode: Seq<u8>,
    answer: ProbeResult,
)
    requires
        v.inv(),
        adm.mode == AdmitMode::Explicit,
        !v.published.contains_key(adm.key),
        v.entries.contains_key(adm.key) ==> v.entries[adm.key].phase == EntryPhase::Cold,
        v.pending_jobs < v.tuning.jit_max_pending_jobs,
    ensures
        ({
            let next = v.request(adm, bytecode, true).1;
            if adm.kind == CompilationKind::Jit {
                next == NextStep::Dispatch
            } else {
                match known_artifact(v, adm.key) {
                    PersistedAotState::Unprobed => if v.has_store {
                        &&& next == NextStep::Probe
                        &&& !(answer is Found) ==> v.request(adm, bytecode, true).0.probed(
                            adm.key,
                            answer,
                        ).proceed(adm).1 == NextStep::Dispatch
                    } else {
                        next == NextStep::Dispatch
                    },
                    PersistedAotState::Absent => next == NextStep::Dispatch,
                    PersistedAotState::Oversized => next == NextStep::Done,
                    PersistedAotState::Ready(stored) => match planned_victims(
                        v.tuning,
                        v.resident_aot_entries,
                        v.resident_aot_bytes,
                        stored.manifest.artifact_len,
                        adm.now,
                        AdmitMode::Explicit,
                        rows_of(v.resident, ProgramKind::Aot),
                    ) {
                        Some(victims) => !oversized(v.tuning, stored.manifest.artifact_len)
                            ==> next == NextStep::Load(stored, victims),
                        None => next == NextStep::Done,
                    },
                }
            }
        }),
{
}

/// Every observed miss of a cold key makes it one hotter, up to what can be counted.
pub proof fn law_misses_add_up(v: BackendView, adm: Admission, bytecode: Seq<u8>)
    requires
        v.inv(),
        adm.mode == AdmitMode::Observed,
        !v.published.contains_key(adm.key),
        !v.lacks_slot(adm.key),
        v.entries.contains_key(adm.key) ==> v.entries[adm.key].phase == EntryPhase::Cold,
    ensures
        ({
            let before = if v.entries.contains_key(adm.key) {
                v.entries[adm.key].hotness
            } else {
                0
            };
            let after = v.request(adm, bytecode, true).0;
            &&& after.entries.contains_key(adm.key)
            &&& after.entries[adm.key].hotness == before.saturating_add(1)
            &&& after.entries[adm.key].observed
        }),
{
}

/// Slots for observed entries are counted exactly and never exceed their limit, whatever is
/// requested. An explicit request takes none: no entry comes to hold one by it.
pub proof fn law_observed_slots_are_counted(
    v: BackendView,
    adm: Admission,
    bytecode: Seq<u8>,
    eligible: bool,
)
    requires
        v.inv(),
    ensures
        ({
            let w = v.request(adm, bytecode, eligible).0;
            &&& w.observed_entries == total(w.entries, observed_weight())
            &&& w.observed_entries <= w.tuning.max_observed_entries
            &&& w.tuning == v.tuning
            &&& adm.mode == AdmitMode::Explicit ==> {
                &&& w.observed_entries == v.observed_entries
                &&& forall|k: RuntimeCacheKey| #[trigger]
                    w.entries.contains_key(k) && w.entries[k].observed ==> v.entries.contains_key(k)
                        && v.entries[k].observed
            }
        }),
{
    lemma_request_inv(v, adm, bytecode, eligible);
}

/// The store is asked for a key once: only where nothing is known yet, and afterwards something
/// is.
pub proof fn law_store_is_asked_once(
    v: BackendView,
    adm: Admission,
    bytecode: Seq<u8>,
    eligible: bool,
    answer: ProbeResult,
)
    requires
        v.request(adm, bytecode, eligible).1 == NextStep::Probe,
    ensures
        v.entries.contains_key(adm.key) ==> v.entries[adm.key].persisted_aot
            == PersistedAotState::Unprobed,
        ({
            let answered = v.request(adm, bytecode, eligible).0.probed(adm.key, answer);
            &&& answered.entries[adm.key].persisted_aot != PersistedAotState::Unprobed
            &&& answered.proceed(adm).0.entries[adm.key].persisted_aot
                != PersistedAotState::Unprobed
            &&& answered.proceed(adm).1 != NextStep::Probe
        }),
{
}

/// An artifact that can never fit is neither asked for nor loaded nor compiled again: requests for
/// it are answered at once.
pub proof fn law_oversized_is_final(v: BackendView, adm: Admission, bytecode: Seq<u8>, eligible: bool)
    requires
        v.inv(),
        adm.kind == CompilationKind::Aot,
        v.entries.contains_key(adm.key),
        v.entries[adm.key].persisted_aot == PersistedAotState::Oversized,
    ensures
        v.request(adm, bytecode, eligible).1 == NextStep::Done,
        v.request(adm, bytecode, eligible).0.entries[adm.key].persisted_aot
            == PersistedAotState::Oversized,
{
}

/// Loads of persisted artifacts on observed demand are spaced: after one is allowed at `first`,
/// none is allowed before a whole interval has passed.
pub proof fn law_loads_are_spaced(
    v: BackendView,
    first_len: usize,
    first: Moment,
    later: BackendView,
    second_len: usize,
    second: Moment,
)
    requires
        v.tuning.persisted_aot_load_interval.nanos > 0,
        first.nanos + v.tuning.persisted_aot_load_interval.nanos <= u64::MAX,
        v.judge_stored(first_len, AdmitMode::Observed, first, true).1 is Load,
        later.limiter == v.judge_stored(first_len, AdmitMode::Observed, first, true).0.limiter,
        later.tuning == v.tuning,
        second.nanos < first.nanos + v.tuning.persisted_aot_load_interval.nanos,
    ensures
        !(later.judge_stored(second_len, AdmitMode::Observed, second, true).1 is Load),
{
    law_limiter_never_bursts(v.limiter, first, second, v.tuning.persisted_aot_load_interval);
}

/// An oversized artifact is turned away without a victim, and without using up a load.
pub proof fn law_oversized_artifacts_evict_nothing(
    v: BackendView,
    artifact_len: usize,
    mode: AdmitMode,
    now: Moment,
    persisted: bool,
)
    requires
        oversized(v.tuning, artifact_len),
    ensures
        v.judge_stored(artifact_len, mode, now, persisted).1 == VerdictView::Oversized,
        v.judge_stored(artifact_len, mode, now, persisted).0.limiter == v.limiter,
        v.judge_stored(artifact_len, mode, now, persisted).0.resident == v.resident,
{
}

/// Evicting resident programs takes out just these.
proof fn lemma_evict_all_removes(v: BackendView, keys: Seq<RuntimeCacheKey>)
    requires
        v.inv(),
        forall|i: int| 0 <= i < keys.len() ==> v.resident.contains_key(#[trigger] keys[i]),
    ensures
        ({
            let w = v.evict_all(keys);
            &&& w.entries == v.entries
            &&& w.tuning == v.tuning
            &&& w.last_sweep == v.last_sweep
            &&& forall|k: RuntimeCacheKey| #[trigger]
                w.resident.contains_key(k) <==> v.resident.contains_key(k) && !keys.contains(k)
            &&& forall|k: RuntimeCacheKey| #[trigger]
                w.resident.contains_key(k) ==> w.resident[k] == v.resident[k]
        }),
    decreases keys.len(),
{
    lemma_evicting_residents_keeps_entries(v, keys);
    if keys.len() > 0 {
        let rest = keys.drop_last();
        assert forall|i: int| 0 <= i < rest.len() implies v.resident.contains_key(
            #[trigger] rest[i],
        ) by {
            assert(rest[i] == keys[i]);
        }
        lemma_evict_all_removes(v, rest);
        let u = v.evict_all(rest);
        let w = v.evict_all(keys);
        assert(keys =~= rest.push(keys.last()));
        lemma_push_contains(rest, keys.last());
        assert forall|k: RuntimeCacheKey| #[trigger]
            w.resident.contains_key(k) <==> v.resident.contains_key(k) && !keys.contains(k) by {
            assert(u.resident.contains_key(k) <==> v.resident.contains_key(k) && !rest.contains(k));
        }
        assert forall|k: RuntimeCacheKey| #[trigger] w.resident.contains_key(k) implies w.resident[k]
            == v.resident[k] by {
            assert(u.resident.contains_key(k));
        }
    }
}

/// No longer tracking keys takes out just these.
proof fn lemma_forget_all_removes(v: BackendView, keys: Seq<RuntimeCacheKey>)
    ensures
        ({
            let w = v.forget_all(keys);
            &&& w.resident == v.resident
            &&& w.last_sweep == v.last_sweep
            &&& forall|k: RuntimeCacheKey| #[trigger]
                w.entries.contains_key(k) <==> v.entries.contains_key(k) && !keys.contains(k)
            &&& forall|k: RuntimeCacheKey| #[trigger]
                w.entries.contains_key(k) ==> w.entries[k] == v.entries[k]
        }),
    decreases keys.len(),
{
    if keys.len() > 0 {
        let rest = keys.drop_last();
        lemma_forget_all_removes(v, rest);
        let u = v.forget_all(rest);
        let w = v.forget_all(keys);
        assert(keys =~= rest.push(keys.last()));
        lemma_push_contains(rest, keys.last());
        assert forall|k: RuntimeCacheKey| #[trigger]
            w.entries.contains_key(k) <==> v.entries.contains_key(k) && !keys.contains(k) by {
            assert(u.entries.contains_key(k) <==> v.entries.contains_key(k) && !rest.contains(k));
        }
        assert forall|k: RuntimeCacheKey| #[trigger] w.entries.contains_key(k) implies w.entries[k]
            == v.entries[k] by {
            assert(u.entries.contains_key(k));
        }
    }
}

/// A sweep evicts the idle programs and drops the stale entries, and leaves everything else as it
/// is, whatever the order in which it goes through them. In particular a key in flight, whoever
/// waits for it, and an artifact known to be over the budget are kept.
pub proof fn law_sweep_takes_the_idle_and_the_stale(
    v: BackendView,
    after: BackendView,
    now: Moment,
)
    requires
        v.inv(),
        v.sweeps_to(after, now),
    ensures
        after.last_sweep == now,
        forall|k: RuntimeCacheKey| #[trigger]
            after.resident.contains_key(k) <==> v.resident.contains_key(k) && !v.is_idle(k, now),
        forall|k: RuntimeCacheKey| #[trigger]
            after.resident.contains_key(k) ==> after.resident[k] == v.resident[k],
        forall|k: RuntimeCacheKey| #[trigger]
            after.entries.contains_key(k) <==> v.entries.contains_key(k) && !v.is_stale(k, now),
        forall|k: RuntimeCacheKey| #[trigger]
            after.entries.contains_key(k) ==> after.entries[k] == v.entries[k],
{
    let begun = v.swept_at(now);
    let (idle, stale) = choose|idle: Seq<RuntimeCacheKey>, stale: Seq<RuntimeCacheKey>|
        #![trigger v.swept_at(now).lists_idle(idle, now), v.swept_at(now).evict_all(idle).lists_stale(stale, now)]
        {
            &&& v.swept_at(now).lists_idle(idle, now)
            &&& v.swept_at(now).evict_all(idle).lists_stale(stale, now)
            &&& after == v.swept_at(now).evict_all(idle).forget_stale(stale)
        };
    assert forall|i: int| 0 <= i < idle.len() implies begun.resident.contains_key(
        #[trigger] idle[i],
    ) by {
        assert(idle.contains(idle[i]));
        assert(begun.is_idle(idle[i], now));
    }
    assert(begun.inv());
    lemma_evict_all_removes(begun, idle);
    lemma_evict_all_keeps_inv(begun, idle);
    let evicted = begun.evict_all(idle);
    lemma_forget_all_removes(evicted, stale);
    assert forall|k: RuntimeCacheKey| v.is_idle(k, now) == #[trigger] begun.is_idle(k, now) by {}
    assert forall|k: RuntimeCacheKey| v.is_stale(k, now) == #[trigger] evicted.is_stale(k, now) by {
        if v.entries.contains_key(k) {
            assert(v.entries.dom().contains(k));
            assert(!v.resident.dom().contains(k));
            assert(!v.published.dom().contains(k));
            assert(evicted.entries.dom().contains(k));
            assert(!evicted.resident.dom().contains(k));
            assert(!evicted.published.dom().contains(k));
        }
    }
    assert forall|k: RuntimeCacheKey| #[trigger] after.resident.contains_key(k) <==> v.resident.contains_key(
        k,
    ) && !v.is_idle(k, now) by {
        assert(idle.contains(k) <==> begun.is_idle(k, now));
        assert(evicted.resident.contains_key(k) <==> begun.resident.contains_key(k)
            && !idle.contains(k));
    }
    assert forall|k: RuntimeCacheKey| #[trigger] after.resident.contains_key(k) implies after.resident[k]
        == v.resident[k] by {
        assert(evicted.resident.contains_key(k));
    }
    assert forall|k: RuntimeCacheKey| #[trigger] after.entries.contains_key(k) <==> v.entries.contains_key(
        k,
    ) && !v.is_stale(k, now) by {
        assert(stale.contains(k) <==> evicted.is_stale(k, now));
        assert(evicted.forget_all(stale).entries.contains_key(k) <==> evicted.entries.contains_key(
            k,
        ) && !stale.contains(k));
    }
    assert forall|k: RuntimeCacheKey| #[trigger] after.entries.contains_key(k) implies after.entries[k]
        == v.entries[k] by {
        assert(evicted.forget_all(stale).entries.contains_key(k));
    }
}

/// A sweep forgets nobody who waits.
pub proof fn law_sweep_keeps_waiters(
    v: BackendView,
    after: BackendView,
    now: Moment,
    key: RuntimeCacheKey,
    notifier: SyncNotifier,
)
    requires
        v.inv(),
        v.sweeps_to(after, now),
        waits(v, key, notifier),
    ensures
        waits(after, key, notifier),
{
    law_sweep_takes_the_idle_and_the_stale(v, after, now);
    assert(v.entries.contains_key(key));
    assert(v.entries[key].pending_notifiers.len() > 0);
    assert(after.entries.contains_key(key));
}

/// The budget of JIT code is enforced on JIT programs only, least recently hit first, and on every
/// one of them if need be.
pub proof fn law_jit_budget_spares_aot(v: BackendView)
    requires
        v.inv(),
    ensures
        v.jit_order().no_duplicates(),
        forall|k: RuntimeCacheKey| #[trigger]
            v.jit_order().contains(k) <==> v.resident.contains_key(k) && v.resident[k].kind
                == ProgramKind::Jit,
        forall|i: int, j: int|
            0 <= i < j < v.jit_order().len() ==> v.resident[#[trigger] v.jit_order()[i]].last_hit_at.nanos
                <= v.resident[#[trigger] v.jit_order()[j]].last_hit_at.nanos,
{
    broadcast use vstd::seq_lib::group_to_multiset_ensures;

    let kind = ProgramKind::Jit;
    let rows = rows_of(v.resident, kind);
    let order = rows.sort_by(lru_order());
    let keys = v.jit_order();
    lemma_listing_exists(v.resident, kind);
    lemma_lru_order();
    rows.lemma_sort_by_ensures(lru_order());
    rows.lemma_multiset_has_no_duplicates();
    order.lemma_multiset_has_no_duplicates_conv();
    assert forall|r: AotResident| #[trigger] order.contains(r) <==> is_row(r, v.resident, kind) by {
        assert(order.contains(r) <==> order.to_multiset().count(r) > 0);
        assert(rows.contains(r) <==> rows.to_multiset().count(r) > 0);
    }
    assert forall|i: int| 0 <= i < order.len() implies is_row(
        #[trigger] order[i],
        v.resident,
        kind,
    ) && keys[i] == order[i].key by {
        assert(order.contains(order[i]));
    }
    assert forall|i: int, j: int| 0 <= i < keys.len() && 0 <= j < keys.len() && i != j implies keys[i]
        != keys[j] by {
        assert(is_row(order[i], v.resident, kind) && is_row(order[j], v.resident, kind));
        if keys[i] == keys[j] {
            assert(order[i] == order[j]);
        }
    }
    assert forall|k: RuntimeCacheKey| #[trigger] keys.contains(k) <==> v.resident.contains_key(k)
        && v.resident[k].kind == kind by {
        if keys.contains(k) {
            let i = choose|i: int| 0 <= i < keys.len() && keys[i] == k;
            assert(is_row(order[i], v.resident, kind));
        }
        if v.resident.contains_key(k) && v.resident[k].kind == kind {
            let row = AotResident {
                key: k,
                last_hit_at: v.resident[k].last_hit_at,
                artifact_len: v.resident[k].artifact_len,
            };
            assert(is_row(row, v.resident, kind));
            assert(order.contains(row));
            let i = choose|i: int| 0 <= i < order.len() && order[i] == row;
            assert(keys[i] == k);
        }
    }
    assert forall|i: int, j: int| 0 <= i < j < keys.len() implies v.resident[#[trigger] keys[i]].last_hit_at.nanos
        <= v.resident[#[trigger] keys[j]].last_hit_at.nanos by {
        assert(is_row(order[i], v.resident, kind) && is_row(order[j], v.resident, kind));
        assert(lru_order()(order[i], order[j]));
    }
}

/// Evicting JIT programs takes just these out, and touches neither AOT programs nor entries.
proof fn lemma_evicting_jit(v: BackendView, keys: Seq<RuntimeCacheKey>)
    requires
        v.inv(),
        keys.no_duplicates(),
        forall|i: int|
            0 <= i < keys.len() ==> v.resident.contains_key(#[trigger] keys[i])
                && v.resident[keys[i]].kind == ProgramKind::Jit,
    ensures
        ({
            let w = v.evict_all(keys);
            &&& w.inv()
            &&& w.entries == v.entries
            &&& w.resident_aot_entries == v.resident_aot_entries
            &&& w.resident_aot_bytes == v.resident_aot_bytes
            &&& w.stats.evictions as int == (v.stats.evictions + keys.len()) % 0x1_0000_0000_0000_0000
            &&& forall|k: RuntimeCacheKey| #[trigger]
                w.resident.contains_key(k) <==> v.resident.contains_key(k) && !keys.contains(k)
            &&& forall|k: RuntimeCacheKey| #[trigger]
                w.resident.contains_key(k) ==> w.resident[k] == v.resident[k] && w.published[k]
                    == v.published[k]
        }),
    decreases keys.len(),
{
    lemma_evict_all_keeps_inv(v, keys);
    lemma_evicting_residents_keeps_entries(v, keys);
    if keys.len() > 0 {
        let rest = keys.drop_last();
        let last = keys.last();
        assert forall|i: int| 0 <= i < rest.len() implies v.resident.contains_key(
            #[trigger] rest[i],
        ) && v.resident[rest[i]].kind == ProgramKind::Jit by {
            assert(rest[i] == keys[i]);
        }
        lemma_evicting_jit(v, rest);
        assert(keys =~= rest.push(last));
        lemma_push_contains(rest, last);
        assert(!rest.contains(last)) by {
            if rest.contains(last) {
                let j = choose|j: int| 0 <= j < rest.len() && rest[j] == last;
                assert(keys[j] == keys[keys.len() - 1]);
            }
        }
        assert(keys[keys.len() - 1] == last);
        assert(v.evict_all(rest).resident.contains_key(last));
    }
}

/// A pass over the budget of JIT code that evicts `n` programs takes out just the `n` least recently
/// hit JIT programs. Every other program, the entries and the AOT counters stay as they are, `n`
/// evictions are counted, and where `n` is all of them no JIT program is left.
pub proof fn law_jit_pass_takes_the_least_recent(v: BackendView, n: int)
    requires
        v.inv(),
        0 <= n <= v.jit_order().len(),
    ensures
        ({
            let gone = v.jit_order().take(n);
            let w = v.evict_all(gone);
            &&& w.inv()
            &&& w.entries == v.entries
            &&& w.resident_aot_entries == v.resident_aot_entries
            &&& w.resident_aot_bytes == v.resident_aot_bytes
            &&& w.stats.evictions as int == (v.stats.evictions + n) % 0x1_0000_0000_0000_0000
            &&& forall|k: RuntimeCacheKey| #[trigger]
                w.resident.contains_key(k) <==> v.resident.contains_key(k) && !gone.contains(k)
            &&& forall|k: RuntimeCacheKey| #[trigger]
                w.resident.contains_key(k) ==> w.resident[k] == v.resident[k] && w.published[k]
                    == v.published[k]
            &&& forall|k: RuntimeCacheKey| #[trigger]
                v.resident.contains_key(k) && v.resident[k].kind == ProgramKind::Aot
                    ==> w.resident.contains_key(k)
            &&& n == v.jit_order().len() ==> forall|k: RuntimeCacheKey| #[trigger]
                w.resident.contains_key(k) ==> w.resident[k].kind == ProgramKind::Aot
        }),
{
    let order = v.jit_order();
    let gone = order.take(n);
    law_jit_budget_spares_aot(v);
    assert forall|i: int| 0 <= i < gone.len() implies v.resident.contains_key(#[trigger] gone[i])
        && v.resident[gone[i]].kind == ProgramKind::Jit by {
        assert(order.contains(order[i]));
    }
    lemma_evicting_jit(v, gone);
    assert forall|k: RuntimeCacheKey| gone.contains(k) implies order.contains(k) by {
        let i = choose|i: int| 0 <= i < gone.len() && gone[i] == k;
        assert(order[i] == k);
    }
    if n == order.len() {
        assert(gone =~= order);
    }
}

/// The byte counter stays the sum of the artifact lengths through every change to the resident
/// programs, as long as the sum can be counted.
pub proof fn law_byte_counter_is_exact(
    v: BackendView,
    key: RuntimeCacheKey,
    artifact_len: usize,
    victims: Seq<RuntimeCacheKey>,
    slot: u64,
    now: Moment,
)
    requires
        v.inv(),
        v.bytes_exact(),
        v.resident.dom().len() < usize::MAX,
    ensures
        total(
            v.install_stored(key, artifact_len, victims, slot, now).resident,
            aot_len(),
        ) <= usize::MAX ==> v.install_stored(
            key,
            artifact_len,
            victims,
            slot,
            now,
        ).bytes_exact(),
        v.publish_jit(key, slot, now).bytes_exact(),
        v.evict(key).bytes_exact(),
        v.evict_all(victims).bytes_exact(),
        v.hit(key, now).bytes_exact(),
{
    lemma_evict_all_inv(v, victims);
    lemma_evict_all_len(v, victims);
    let w = v.evict_all_for_aot(victims);
    let aot = ResidentMeta { last_hit_at: now, kind: ProgramKind::Aot, artifact_len };
    let jit = ResidentMeta { last_hit_at: now, kind: ProgramKind::Jit, artifact_len: 0 };
    lemma_insert_len(w, key, slot, aot);
    lemma_insert_len(v, key, slot, jit);
    lemma_publish_inv(w, key, slot, aot);
    lemma_publish_inv(v, key, slot, jit);
    lemma_jit_insert_total(v, key, slot, jit);
    lemma_remove_resident_inv(v, key);
    lemma_evict_all_keeps_inv(v, victims);
    lemma_hit_inv(v, key, now);
}

/// A JIT program adds nothing to the sum of the artifact lengths.
proof fn lemma_jit_insert_total(
    v: BackendView,
    key: RuntimeCacheKey,
    slot: u64,
    meta: ResidentMeta,
)
    requires
        v.inv(),
        v.bytes_exact(),
        meta.kind == ProgramKind::Jit,
    ensures
        total(v.insert_resident(key, slot, meta).resident, aot_len()) <= usize::MAX,
{
    let b = if v.resident.contains_key(key) {
        v.remove_resident(key)
    } else {
        v
    };
    if v.resident.contains_key(key) {
        lemma_total_remove(v.resident, aot_len(), key);
    }
    lemma_total_insert(b.resident, aot_len(), key, meta);
    lemma_total_remove_absent(b.resident, aot_len(), key);
}

/// Evicting programs makes no more of them.
proof fn lemma_evict_all_len(v: BackendView, keys: Seq<RuntimeCacheKey>)
    requires
        v.resident.dom().finite(),
    ensures
        v.evict_all_for_aot(keys).resident.dom().finite(),
        v.evict_all_for_aot(keys).resident.dom().len() <= v.resident.dom().len(),
    decreases keys.len(),
{
    if keys.len() > 0 {
        lemma_evict_all_len(v, keys.drop_last());
    }
}

/// Putting a program in makes at most one more.
proof fn lemma_insert_len(v: BackendView, key: RuntimeCacheKey, slot: u64, meta: ResidentMeta)
    requires
        v.resident.dom().finite(),
    ensures
        v.insert_resident(key, slot, meta).resident.dom().len() <= v.resident.dom().len() + 1,
{
}

} // verus!
