//! What lookups find: programs come in with the result that carries them, and go by eviction.
use super::commands::{lemma_wake_tracked_frame, Preloaded};
use super::requests::{Admission, NextStep, ProbeResult};
use super::results::WorkerResult;
use super::upkeep::{lemma_notify_all_frame, lemma_publish_inv, lemma_push_contains};
use super::waiting::compiled;
use super::{
    aot_len, aot_weight, BackendView, Effect, EntryPhase, PersistedAotState, ResidentMeta,
    SyncNotifier,
};
use crate::admission::oversized;
use crate::clock::Moment;
use crate::config::{AdmitMode, CompilationKind, ProgramKind, RuntimeTuning};
use crate::keys::RuntimeCacheKey;
use crate::storage::StoredArtifact;
use crate::sums::{lemma_total_insert, lemma_total_remove, lemma_total_remove_absent, total};
use vstd::prelude::*;

verus! {

/// Whether `after` publishes `slot` under `key` and is otherwise as `before`.
pub open spec fn publishes(
    before: BackendView,
    after: BackendView,
    key: RuntimeCacheKey,
    slot: u64,
) -> bool {
    &&& after.published == before.published.insert(key, slot)
    &&& after.resident.dom() == before.resident.dom().insert(key)
    &&& !after.entries.contains_key(key)
}

/// JIT code that was reported is what lookups find under its key from then on, in place of what
/// they found before. So is an object that was linked.
pub proof fn law_compiled_programs_are_published(
    v: BackendView,
    key: RuntimeCacheKey,
    waiters: Seq<SyncNotifier>,
    slot: u64,
    now: Moment,
)
    ensures
        publishes(v, v.linked(key, waiters, Some(slot), now), key, slot),
{
    lemma_insert_publishes(v, key, slot, jit_meta(now));
    lemma_notify_all_frame(v.publish_jit(key, slot, now), waiters);
}

/// Whether the effects from position `from` on report no compilation.
pub open spec fn reports_nothing(v: BackendView, from: nat) -> bool {
    forall|i: int| from <= i < v.outbox.len() ==> !(#[trigger] v.outbox[i] is Compilation)
}

/// Waking waiters reports no compilation.
proof fn lemma_notifying_reports_nothing(v: BackendView, notifiers: Seq<SyncNotifier>)
    ensures
        reports_nothing(v.notify_all(notifiers), v.outbox.len()),
        v.notify_all(notifiers).outbox.len() >= v.outbox.len(),
        v.notify_all(notifiers).outbox.take(v.outbox.len() as int) == v.outbox,
    decreases notifiers.len(),
{
    if notifiers.len() > 0 {
        lemma_notifying_reports_nothing(v, notifiers.drop_last());
        let w = v.notify_all(notifiers.drop_last());
        assert(w.notify(notifiers.last()).outbox.take(v.outbox.len() as int) =~= w.outbox.take(
            v.outbox.len() as int,
        ));
    }
}

/// The end of a compilation is reported once, with what its result says of it, and before its
/// program is resident. A result of an earlier generation is not reported.
pub proof fn law_compilations_are_reported_once(v: BackendView, result: WorkerResult)
    ensures
        ({
            let w = v.received(result);
            &&& w.published == v.published
            &&& w.resident == v.resident
            &&& if result.generation == v.generation {
                &&& w.outbox.len() > v.outbox.len()
                &&& w.outbox[v.outbox.len() as int] == compiled(result)
                &&& reports_nothing(w, v.outbox.len() + 1)
            } else {
                reports_nothing(w, v.outbox.len())
            }
        }),
{
    let key = result.key;
    let waiters = v.waiters(key, result.sync_notifier);
    let dropped = v.returned(key).remove_entry(key);
    lemma_notify_all_frame(dropped, waiters);
    lemma_notifying_reports_nothing(dropped, waiters);
    let failed = v.returned(key).effect(compiled(result)).give_up(key);
    lemma_notify_all_frame(failed, waiters);
    lemma_notifying_reports_nothing(failed, waiters);
    let n = v.outbox.len() as int;
    assert(failed.outbox[n] == compiled(result));
    assert(failed.notify_all(waiters).outbox.take(n + 1)[n] == failed.outbox[n]);
}

/// What is kept of a JIT program that came in at `now`.
spec fn jit_meta(now: Moment) -> ResidentMeta {
    ResidentMeta { last_hit_at: now, kind: ProgramKind::Jit, artifact_len: 0 }
}

/// Putting a program in publishes it.
proof fn lemma_insert_publishes(
    v: BackendView,
    key: RuntimeCacheKey,
    slot: u64,
    meta: ResidentMeta,
)
    ensures
        v.insert_resident(key, slot, meta).published == v.published.insert(key, slot),
        v.insert_resident(key, slot, meta).resident == v.resident.insert(key, meta),
        v.insert_resident(key, slot, meta).entries == v.entries,
{
    let w = v.insert_resident(key, slot, meta);
    assert(w.published =~= v.published.insert(key, slot));
    assert(w.resident =~= v.resident.insert(key, meta));
}

/// Evicting programs takes them out and touches no other.
proof fn lemma_evicting_takes_out(v: BackendView, victims: Seq<RuntimeCacheKey>)
    ensures
        forall|k: RuntimeCacheKey| #[trigger]
            v.evict_all_for_aot(victims).published.contains_key(k) <==> v.published.contains_key(k)
                && !victims.contains(k),
        forall|k: RuntimeCacheKey| #[trigger]
            v.evict_all_for_aot(victims).published.contains_key(k) ==> v.evict_all_for_aot(
                victims,
            ).published[k] == v.published[k],
    decreases victims.len(),
{
    if victims.len() > 0 {
        let rest = victims.drop_last();
        lemma_evicting_takes_out(v, rest);
        assert(victims =~= rest.push(victims.last()));
        lemma_push_contains(rest, victims.last());
    }
}

/// An artifact that was loaded is what lookups find under its key, whether it was found in the
/// store or just compiled. Its victims are no longer found, and every other program still is.
pub proof fn law_loaded_artifacts_are_published(
    v: BackendView,
    adm: Admission,
    waiters: Seq<SyncNotifier>,
    stored: StoredArtifact,
    victims: Seq<RuntimeCacheKey>,
    slot: u64,
    started: Moment,
    finished: Moment,
)
    ensures
        ({
            let found = v.loaded(adm, stored, victims, Some(slot), started, finished).0;
            let compiled = v.artifact_loaded(
                adm.key,
                waiters,
                stored,
                victims,
                Some(slot),
                finished,
            );
            &&& found.published == compiled.published
            &&& found.published.contains_key(adm.key) && found.published[adm.key] == slot
            &&& !found.entries.contains_key(adm.key) && !compiled.entries.contains_key(adm.key)
            &&& forall|k: RuntimeCacheKey|
                k != adm.key ==> (#[trigger] found.published.contains_key(k)
                    <==> v.published.contains_key(k) && !victims.contains(k))
            &&& forall|k: RuntimeCacheKey|
                k != adm.key && #[trigger] found.published.contains_key(k) ==> found.published[k]
                    == v.published[k]
        }),
{
    let w = v.evict_all_for_aot(victims);
    let artifact_len = stored.manifest.artifact_len;
    let meta = ResidentMeta { last_hit_at: finished, kind: ProgramKind::Aot, artifact_len };
    lemma_evicting_takes_out(v, victims);
    lemma_insert_publishes(w, adm.key, slot, meta);
    lemma_notify_all_frame(
        v.install_stored(adm.key, artifact_len, victims, slot, finished).remove_entry(
            adm.key,
        ).count_success(),
        waiters,
    );
}

/// A program that goes is released: lookups no longer find it, and its slot is handed back.
pub proof fn law_evicted_programs_are_released(v: BackendView, key: RuntimeCacheKey)
    requires
        v.published.contains_key(key),
    ensures
        v.evict(key).published == v.published.remove(key),
        v.evict(key).outbox == v.outbox.push(Effect::ReleaseProgram(v.published[key])),
        v.evict_for_aot(key).published == v.published.remove(key),
        v.evict_for_aot(key).outbox == v.outbox.push(Effect::ReleaseProgram(v.published[key])),
{
}

/// Only a loaded artifact adds to what counts against the AOT budgets. JIT programs, evictions and
/// hits never do, so a backend within its budgets stays within them.
pub proof fn law_only_artifacts_count(v: BackendView, key: RuntimeCacheKey, slot: u64, now: Moment)
    requires
        v.resident.dom().finite(),
    ensures
        total(v.publish_jit(key, slot, now).resident, aot_weight()) <= total(
            v.resident,
            aot_weight(),
        ),
        total(v.publish_jit(key, slot, now).resident, aot_len()) <= total(v.resident, aot_len()),
        total(v.evict(key).resident, aot_weight()) <= total(v.resident, aot_weight()),
        total(v.evict(key).resident, aot_len()) <= total(v.resident, aot_len()),
        total(v.hit(key, now).resident, aot_weight()) == total(v.resident, aot_weight()),
        total(v.hit(key, now).resident, aot_len()) == total(v.resident, aot_len()),
{
    let meta = jit_meta(now);
    lemma_insert_publishes(v, key, slot, meta);
    lemma_total_insert(v.resident, aot_weight(), key, meta);
    lemma_total_insert(v.resident, aot_len(), key, meta);
    if v.resident.contains_key(key) {
        let hit = ResidentMeta { last_hit_at: now, ..v.resident[key] };
        lemma_total_remove(v.resident, aot_weight(), key);
        lemma_total_remove(v.resident, aot_len(), key);
        lemma_total_insert(v.resident, aot_weight(), key, hit);
        lemma_total_insert(v.resident, aot_len(), key, hit);
    } else {
        lemma_total_remove_absent(v.resident, aot_weight(), key);
        lemma_total_remove_absent(v.resident, aot_len(), key);
    }
}

/// The artifact lengths of the AOT programs among those loaded before the start.
pub open spec fn preloaded_bytes(preloaded: Seq<Preloaded>) -> nat
    decreases preloaded.len(),
{
    if preloaded.len() == 0 {
        0
    } else {
        preloaded_bytes(preloaded.drop_last()) + if preloaded.last().kind == ProgramKind::Aot {
            preloaded.last().artifact_len as nat
        } else {
            0
        }
    }
}

/// Programs loaded before the start count against the budgets like any other: where no key comes
/// twice, the byte counter starts out as the sum of their artifact lengths, and lookups find each
/// of them.
pub proof fn law_preloaded_programs_count(
    tuning: RuntimeTuning,
    aot: bool,
    has_store: bool,
    preloaded: Seq<Preloaded>,
    now: Moment,
    publications: Set<(RuntimeCacheKey, u64)>,
)
    requires
        forall|i: int, j: int|
            0 <= i < j < preloaded.len() ==> (#[trigger] preloaded[i]).key != (
            #[trigger] preloaded[j]).key,
        preloaded.len() <= usize::MAX,
    ensures
        ({
            let v = BackendView::initial(tuning, aot, has_store, now, publications).seed(
                preloaded,
                now,
            );
            &&& total(v.resident, aot_len()) == preloaded_bytes(preloaded)
            &&& preloaded_bytes(preloaded) <= usize::MAX ==> v.bytes_exact()
            &&& v.resident.dom().len() == preloaded.len()
            &&& forall|i: int|
                0 <= i < preloaded.len() ==> v.published.contains_key(
                    (#[trigger] preloaded[i]).key,
                ) && v.published[preloaded[i].key] == preloaded[i].slot
        }),
{
    lemma_seeded(tuning, aot, has_store, preloaded, now, publications);
}

/// The state that programs loaded before the start lead to.
proof fn lemma_seeded(
    tuning: RuntimeTuning,
    aot: bool,
    has_store: bool,
    preloaded: Seq<Preloaded>,
    now: Moment,
    publications: Set<(RuntimeCacheKey, u64)>,
)
    requires
        forall|i: int, j: int|
            0 <= i < j < preloaded.len() ==> (#[trigger] preloaded[i]).key != (
            #[trigger] preloaded[j]).key,
        preloaded.len() <= usize::MAX,
    ensures
        ({
            let v = BackendView::initial(tuning, aot, has_store, now, publications).seed(
                preloaded,
                now,
            );
            &&& v.inv()
            &&& v.entries.dom() == Set::<RuntimeCacheKey>::empty()
            &&& total(v.resident, aot_len()) == preloaded_bytes(preloaded)
            &&& preloaded_bytes(preloaded) <= usize::MAX ==> v.bytes_exact()
            &&& v.resident.dom().len() == preloaded.len()
            &&& forall|k: RuntimeCacheKey| #[trigger]
                v.resident.contains_key(k) ==> exists|i: int|
                    0 <= i < preloaded.len() && (#[trigger] preloaded[i]).key == k
            &&& forall|i: int|
                0 <= i < preloaded.len() ==> v.published.contains_key(
                    (#[trigger] preloaded[i]).key,
                ) && v.published[preloaded[i].key] == preloaded[i].slot
        }),
    decreases preloaded.len(),
{
    let start = BackendView::initial(tuning, aot, has_store, now, publications);
    let v = start.seed(preloaded, now);
    if preloaded.len() == 0 {
        assert(v.published.dom() =~= v.resident.dom());
    } else {
        let rest = preloaded.drop_last();
        let program = preloaded.last();
        let w = start.seed(rest, now);
        assert forall|i: int, j: int| 0 <= i < j < rest.len() implies (#[trigger] rest[i]).key != (
        #[trigger] rest[j]).key by {
            assert(rest[i] == preloaded[i] && rest[j] == preloaded[j]);
        }
        lemma_seeded(tuning, aot, has_store, rest, now, publications);
        let meta = ResidentMeta {
            last_hit_at: now,
            kind: program.kind,
            artifact_len: program.artifact_len,
        };
        if w.resident.contains_key(program.key) {
            let i = choose|i: int| 0 <= i < rest.len() && (#[trigger] rest[i]).key == program.key;
            assert(preloaded[i] == rest[i]);
            assert(preloaded[preloaded.len() - 1] == program);
        }
        assert(!w.resident.contains_key(program.key));
        lemma_insert_publishes(w, program.key, program.slot, meta);
        assert(v.resident.dom() =~= w.resident.dom().insert(program.key));
        lemma_publish_inv(w, program.key, program.slot, meta);
        assert(v.entries.remove(program.key) =~= v.entries);
        assert(v.remove_entry(program.key) == v);
        lemma_total_insert(w.resident, aot_len(), program.key, meta);
        lemma_total_remove_absent(w.resident, aot_len(), program.key);
        assert forall|k: RuntimeCacheKey| #[trigger]
            v.resident.contains_key(k) implies exists|i: int|
            0 <= i < preloaded.len() && (#[trigger] preloaded[i]).key == k by {
            if k == program.key {
                assert(preloaded[preloaded.len() - 1].key == k);
            } else {
                assert(w.resident.contains_key(k));
                let i = choose|i: int| 0 <= i < rest.len() && (#[trigger] rest[i]).key == k;
                assert(preloaded[i].key == k);
            }
        }
        assert forall|i: int| 0 <= i < preloaded.len() implies v.published.contains_key(
            (#[trigger] preloaded[i]).key,
        ) && v.published[preloaded[i].key] == preloaded[i].slot by {
            if i < rest.len() {
                assert(rest[i] == preloaded[i]);
                assert(preloaded[i].key != preloaded[preloaded.len() - 1].key);
            }
        }
    }
}

/// The store is spared keys that are not hot: it is asked in AOT mode only, and on observed demand
/// only for a key with enough misses, the present one among them.
pub proof fn law_store_is_spared_cold_keys(
    v: BackendView,
    adm: Admission,
    bytecode: Seq<u8>,
    eligible: bool,
)
    requires
        v.request(adm, bytecode, eligible).1 == NextStep::Probe,
    ensures
        v.has_store,
        adm.kind == CompilationKind::Aot,
        adm.mode == AdmitMode::Observed ==> v.request(
            adm,
            bytecode,
            eligible,
        ).0.entries[adm.key].hotness >= v.tuning.persisted_aot_hot_threshold,
{
}

/// A freshly compiled artifact that finds no room stays known: its key is cold again and remembers
/// the artifact, so that a later miss tries it without asking the store.
pub proof fn law_deferred_artifact_stays_known(
    v: BackendView,
    key: RuntimeCacheKey,
    waiters: Seq<SyncNotifier>,
    mode: AdmitMode,
    stored: StoredArtifact,
    now: Moment,
)
    requires
        v.entries.contains_key(key),
        !oversized(v.tuning, stored.manifest.artifact_len),
        v.reloaded(key, waiters, mode, ProbeResult::Found(stored), now).1 is None,
    ensures
        ({
            let after = v.reloaded(key, waiters, mode, ProbeResult::Found(stored), now).0;
            &&& after.entries.contains_key(key)
            &&& after.entries[key].phase == EntryPhase::Cold
            &&& after.entries[key].persisted_aot == PersistedAotState::Ready(stored)
            &&& after.published == v.published
            &&& after.stats.compilations_succeeded == v.stats.compilations_succeeded.wrapping_add(1)
        }),
{
    let w = v.read_back(key, stored).judge_stored(
        stored.manifest.artifact_len,
        mode,
        now,
        false,
    ).0;
    lemma_notify_all_frame(w.count_success(), waiters);
}

/// An artifact that cannot be loaded does not stand in the way of a compilation: the key is taken
/// for one without an artifact, and an explicit request goes on to a worker where there is room
/// for one more job.
pub proof fn law_broken_artifact_is_recompiled(
    v: BackendView,
    adm: Admission,
    stored: StoredArtifact,
    victims: Seq<RuntimeCacheKey>,
    started: Moment,
    finished: Moment,
)
    requires
        v.awaits(adm),
        v.pending_jobs < v.tuning.jit_max_pending_jobs,
        adm.mode == AdmitMode::Explicit || v.entries[adm.key].hotness >= v.tuning.jit_hot_threshold,
    ensures
        v.loaded(adm, stored, victims, None, started, finished).1 == NextStep::Dispatch,
        v.loaded(adm, stored, victims, None, started, finished).0.entries[adm.key].persisted_aot
            == PersistedAotState::Absent,
{
}

/// Evicting programs and forgetting keys changes nothing of what readers may find over time.
proof fn lemma_evicting_keeps_publications(v: BackendView, keys: Seq<RuntimeCacheKey>)
    ensures
        v.evict_all_for_aot(keys).publications == v.publications,
        v.evict_all(keys).publications == v.publications,
        v.forget_all(keys).publications == v.publications,
    decreases keys.len(),
{
    if keys.len() > 0 {
        lemma_evicting_keeps_publications(v, keys.drop_last());
    }
}

/// A reader stays good through every request: it was made for the programs that the backend
/// publishes at some time, and those are the same before and after.
pub proof fn law_requests_keep_readers(
    v: BackendView,
    adm: Admission,
    bytecode: Seq<u8>,
    eligible: bool,
    answer: ProbeResult,
    stored: StoredArtifact,
    victims: Seq<RuntimeCacheKey>,
    slot: Option<u64>,
    started: Moment,
    finished: Moment,
    accepted: bool,
)
    ensures
        v.request(adm, bytecode, eligible).0.publications == v.publications,
        v.probed(adm.key, answer).proceed(adm).0.publications == v.publications,
        v.loaded(adm, stored, victims, slot, started, finished).0.publications == v.publications,
        v.dispatched(adm, accepted).publications == v.publications,
{
    lemma_evicting_keeps_publications(v, victims);
}

/// A reader stays good through every result.
pub proof fn law_results_keep_readers(
    v: BackendView,
    result: WorkerResult,
    waiters: Seq<SyncNotifier>,
    mode: AdmitMode,
    answer: ProbeResult,
    stored: StoredArtifact,
    victims: Seq<RuntimeCacheKey>,
    slot: Option<u64>,
    now: Moment,
)
    ensures
        v.received(result).publications == v.publications,
        v.linked(result.key, waiters, slot, now).publications == v.publications,
        v.reloaded(result.key, waiters, mode, answer, now).0.publications == v.publications,
        v.artifact_loaded(result.key, waiters, stored, victims, slot, now).publications
            == v.publications,
{
    lemma_evicting_keeps_publications(v, victims);
    lemma_notifying_keeps_publications(v.publications);
}

/// Waking waiters changes nothing of what readers may find over time.
proof fn lemma_notifying_keeps_publications(publications: Set<(RuntimeCacheKey, u64)>)
    ensures
        forall|v: BackendView, notifiers: Seq<SyncNotifier>|
            v.publications == publications ==> (#[trigger] v.notify_all(notifiers)).publications
                == publications,
{
    assert forall|v: BackendView, notifiers: Seq<SyncNotifier>| v.publications
        == publications implies (#[trigger] v.notify_all(notifiers)).publications
        == publications by {
        lemma_notify_all_frame(v, notifiers);
    }
}

/// A reader stays good through hits, sweeps, evictions and clearing.
pub proof fn law_upkeep_keeps_readers(
    v: BackendView,
    after: BackendView,
    key: RuntimeCacheKey,
    now: Moment,
)
    ensures
        v.hit(key, now).publications == v.publications,
        v.evict(key).publications == v.publications,
        v.sweeps_to(after, now) ==> after.publications == v.publications,
        v.clears_to(after) ==> after.publications == v.publications,
{
    if v.sweeps_to(after, now) {
        let begun = v.swept_at(now);
        let (idle, stale) = choose|idle: Seq<RuntimeCacheKey>, stale: Seq<RuntimeCacheKey>|
            #![trigger begun.lists_idle(idle, now), begun.evict_all(idle).lists_stale(stale, now)]
            {
                &&& begun.lists_idle(idle, now)
                &&& begun.evict_all(idle).lists_stale(stale, now)
                &&& after == begun.evict_all(idle).forget_stale(stale)
            };
        lemma_evicting_keeps_publications(begun, idle);
        lemma_evicting_keeps_publications(begun.evict_all(idle), stale);
    }
    if v.clears_to(after) {
        let keys = choose|keys: Seq<RuntimeCacheKey>|
            #[trigger] v.lists_tracked(keys) && after == v.cleared(keys);
        lemma_wake_tracked_frame(v.emptied(), v.entries, keys);
    }
}

} // verus!
