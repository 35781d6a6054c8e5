//! Nobody who waits is forgotten.
use super::requests::{Admission, NextStep, ProbeResult};
use super::results::WorkerResult;
use super::upkeep::lemma_notify_all_frame;
use super::{
    BackendView, CompilationEvent, Effect, EntryPhase, EntryView, PersistedAotState, SyncNotifier,
};
use crate::clock::Moment;
use crate::config::{AdmitMode, CompilationKind};
use crate::keys::RuntimeCacheKey;
use crate::storage::StoredArtifact;
use vstd::prelude::*;

verus! {

/// Whether somebody waits for the compilation of a key that is in flight.
pub open spec fn waits(v: BackendView, key: RuntimeCacheKey, notifier: SyncNotifier) -> bool {
    v.entries.contains_key(key) && v.entries[key].pending_notifiers.contains(notifier)
}

/// Whether somebody is woken on the way from `v` to `w`. Where nobody waits there is nothing to
/// do.
pub open spec fn woken(v: BackendView, w: BackendView, notifier: SyncNotifier) -> bool {
    match notifier.waiter {
        Some(waiter) => exists|i: int|
            v.outbox.len() <= i < w.outbox.len() && #[trigger] w.outbox[i] == Effect::Notify(
                waiter,
            ),
        None => true,
    }
}

/// Whether the effects of `w` continue those of `v`.
pub open spec fn continues(v: BackendView, w: BackendView) -> bool {
    &&& v.outbox.len() <= w.outbox.len()
    &&& forall|i: int| 0 <= i < v.outbox.len() ==> #[trigger] w.outbox[i] == v.outbox[i]
}

/// Waking several waiters adds effects to those that are there.
proof fn lemma_notify_all_continues(v: BackendView, notifiers: Seq<SyncNotifier>)
    ensures
        continues(v, v.notify_all(notifiers)),
    decreases notifiers.len(),
{
    if notifiers.len() > 0 {
        lemma_notify_all_continues(v, notifiers.drop_last());
    }
}

/// Waking several waiters wakes each of them.
proof fn lemma_notify_all_wakes(
    v: BackendView,
    notifiers: Seq<SyncNotifier>,
    notifier: SyncNotifier,
)
    requires
        notifiers.contains(notifier),
    ensures
        woken(v, v.notify_all(notifiers), notifier),
    decreases notifiers.len(),
{
    let rest = notifiers.drop_last();
    let u = v.notify_all(rest);
    let w = v.notify_all(notifiers);
    lemma_notify_all_continues(v, rest);
    let i = choose|i: int| 0 <= i < notifiers.len() && notifiers[i] == notifier;
    if i < rest.len() {
        assert(rest[i] == notifier);
        lemma_notify_all_wakes(v, rest, notifier);
        if let Some(waiter) = notifier.waiter {
            let j = choose|j: int|
                v.outbox.len() <= j < u.outbox.len() && #[trigger] u.outbox[j] == Effect::Notify(
                    waiter,
                );
            assert(w.outbox[j] == u.outbox[j]);
        }
    } else {
        if let Some(waiter) = notifier.waiter {
            assert(w.outbox[u.outbox.len() as int] == Effect::Notify(waiter));
        }
    }
}

/// Somebody who is woken after effects were added is woken since before they were.
proof fn lemma_woken_since(a: BackendView, b: BackendView, c: BackendView, notifier: SyncNotifier)
    requires
        a.outbox.len() <= b.outbox.len(),
        woken(b, c, notifier),
    ensures
        woken(a, c, notifier),
{
}

/// A request forgets nobody: whoever waits still waits.
pub proof fn law_requests_keep_waiters(
    v: BackendView,
    adm: Admission,
    bytecode: Seq<u8>,
    eligible: bool,
    answer: ProbeResult,
    accepted: bool,
    key: RuntimeCacheKey,
    notifier: SyncNotifier,
)
    requires
        waits(v, key, notifier),
    ensures
        waits(v.request(adm, bytecode, eligible).0, key, notifier),
        v.entries.contains_key(adm.key) ==> waits(
            v.probed(adm.key, answer).proceed(adm).0,
            key,
            notifier,
        ),
        v.entries.contains_key(adm.key) ==> waits(v.dispatched(adm, accepted), key, notifier),
{
    let pending = v.entries[key].pending_notifiers;
    let i = choose|i: int| 0 <= i < pending.len() && pending[i] == notifier;
    assert(pending.push(adm.sync_notifier)[i] == notifier);
}

/// An explicit request is answered: once it needs nothing more from the outside, whoever came with
/// it has been woken, or waits for the compilation in flight.
pub proof fn law_explicit_requests_are_answered(
    v: BackendView,
    adm: Admission,
    bytecode: Seq<u8>,
    eligible: bool,
)
    requires
        adm.mode == AdmitMode::Explicit,
        v.request(adm, bytecode, eligible).1 == NextStep::Done,
    ensures
        ({
            let w = v.request(adm, bytecode, eligible).0;
            woken(v, w, adm.sync_notifier) || waits(w, adm.key, adm.sync_notifier)
        }),
{
    let w = v.request(adm, bytecode, eligible).0;
    let seen = v.seen_entry(adm, bytecode);
    if !(v.published.contains_key(adm.key) || !eligible) && seen.phase == EntryPhase::Working {
        let pending = seen.pending_notifiers.push(adm.sync_notifier);
        assert(pending[pending.len() - 1] == adm.sync_notifier);
        assert(w.entries[adm.key].pending_notifiers == pending);
    } else {
        lemma_last_effect_wakes(v, w, adm.sync_notifier);
    }
}

/// An answer of the store settles an explicit request, or lets it go on.
pub proof fn law_probed_requests_are_answered(
    v: BackendView,
    adm: Admission,
    answer: ProbeResult,
)
    requires
        adm.mode == AdmitMode::Explicit,
        adm.kind == CompilationKind::Aot,
        v.probed(adm.key, answer).proceed(adm).1 == NextStep::Done,
    ensures
        woken(v, v.probed(adm.key, answer).proceed(adm).0, adm.sync_notifier),
{
    lemma_last_effect_wakes(v, v.probed(adm.key, answer).proceed(adm).0, adm.sync_notifier);
}

/// The outcome of a load settles an explicit request, or lets it go on.
pub proof fn law_loaded_requests_are_answered(
    v: BackendView,
    adm: Admission,
    stored: StoredArtifact,
    victims: Seq<RuntimeCacheKey>,
    slot: Option<u64>,
    started: Moment,
    finished: Moment,
)
    requires
        adm.mode == AdmitMode::Explicit,
        v.loaded(adm, stored, victims, slot, started, finished).1 == NextStep::Done,
    ensures
        woken(v, v.loaded(adm, stored, victims, slot, started, finished).0, adm.sync_notifier),
{
    lemma_evict_all_for_aot_continues(v, victims);
    lemma_last_effect_wakes(
        v,
        v.loaded(adm, stored, victims, slot, started, finished).0,
        adm.sync_notifier,
    );
}

/// A job that no worker takes settles the request; one that is taken carries the waiter along.
pub proof fn law_refused_jobs_are_answered(v: BackendView, adm: Admission)
    ensures
        woken(v, v.dispatched(adm, false), adm.sync_notifier),
{
    lemma_last_effect_wakes(v, v.dispatched(adm, false), adm.sync_notifier);
}

/// Whoever the last effect wakes is woken.
proof fn lemma_last_effect_wakes(v: BackendView, w: BackendView, notifier: SyncNotifier)
    requires
        notifier.waiter is Some ==> v.outbox.len() < w.outbox.len() && w.outbox.last()
            == Effect::Notify(notifier.waiter->0),
    ensures
        woken(v, w, notifier),
{
    if notifier.waiter is Some {
        assert(w.outbox[w.outbox.len() - 1] == Effect::Notify(notifier.waiter->0));
    }
}

/// Evicting programs adds effects to those that are there.
proof fn lemma_evict_all_for_aot_continues(v: BackendView, keys: Seq<RuntimeCacheKey>)
    ensures
        continues(v, v.evict_all_for_aot(keys)),
    decreases keys.len(),
{
    if keys.len() > 0 {
        lemma_evict_all_for_aot_continues(v, keys.drop_last());
    }
}

/// Evicting resident programs forgets nobody.
pub proof fn lemma_evicting_residents_keeps_entries(v: BackendView, keys: Seq<RuntimeCacheKey>)
    requires
        v.resident.dom().disjoint(v.entries.dom()),
        forall|i: int| 0 <= i < keys.len() ==> v.resident.contains_key(#[trigger] keys[i]),
    ensures
        v.evict_all_for_aot(keys).entries == v.entries,
        v.evict_all(keys).entries == v.entries,
    decreases keys.len(),
{
    if keys.len() > 0 {
        let rest = keys.drop_last();
        assert forall|i: int| 0 <= i < rest.len() implies v.resident.contains_key(
            #[trigger] rest[i],
        ) by {
            assert(rest[i] == keys[i]);
        }
        lemma_evicting_residents_keeps_entries(v, rest);
        assert(keys.last() == keys[keys.len() - 1]);
        assert(v.resident.dom().contains(keys.last()));
        assert(!v.entries.dom().contains(keys.last()));
        assert(v.entries.remove(keys.last()) =~= v.entries);
    }
}

/// Making room for an artifact forgets nobody, where only resident programs make room.
pub proof fn law_loads_keep_waiters(
    v: BackendView,
    adm: Admission,
    stored: StoredArtifact,
    victims: Seq<RuntimeCacheKey>,
    slot: Option<u64>,
    started: Moment,
    finished: Moment,
    key: RuntimeCacheKey,
    notifier: SyncNotifier,
)
    requires
        v.inv(),
        v.awaits(adm),
        forall|i: int| 0 <= i < victims.len() ==> v.resident.contains_key(#[trigger] victims[i]),
        waits(v, key, notifier),
    ensures
        waits(v.loaded(adm, stored, victims, slot, started, finished).0, key, notifier),
{
    lemma_evicting_residents_keeps_entries(v, victims);
    assert(v.entries.contains_key(adm.key));
    assert(v.entries[adm.key].pending_notifiers.len() == 0);
    assert(key != adm.key);
}

/// A result wakes everybody who waited for it, where it is settled without the outside.
pub proof fn law_results_wake_everyone(
    v: BackendView,
    result: WorkerResult,
    notifier: SyncNotifier,
)
    requires
        notifier == result.sync_notifier || waits(v, result.key, notifier),
        result.generation != v.generation || result.outcome is Failed || (result.outcome is Aot
            && !v.has_store),
    ensures
        woken(v, v.received(result), notifier),
{
    let waiters = v.waiters(result.key, result.sync_notifier);
    lemma_waiters_contain(v, result.key, result.sync_notifier, notifier);
    let returned = v.returned(result.key);
    let w = v.received(result);
    if result.generation != v.generation {
        let dropped = returned.remove_entry(result.key);
        lemma_notify_all_wakes(dropped, waiters, notifier);
        let all = dropped.notify_all(waiters);
        if let Some(waiter) = notifier.waiter {
            let j = choose|j: int|
                dropped.outbox.len() <= j < all.outbox.len() && #[trigger] all.outbox[j]
                    == Effect::Notify(waiter);
            assert(w.outbox[j] == all.outbox[j]);
        }
    } else {
        let failed = returned.effect(compiled(result)).give_up(result.key);
        lemma_notify_all_wakes(failed, waiters, notifier);
        lemma_woken_since(v, failed, w, notifier);
    }
}

/// A result forgets nobody who waits for another key.
pub proof fn law_results_keep_other_waiters(
    v: BackendView,
    result: WorkerResult,
    key: RuntimeCacheKey,
    notifier: SyncNotifier,
)
    requires
        key != result.key,
        waits(v, key, notifier),
    ensures
        waits(v.received(result), key, notifier),
{
    let waiters = v.waiters(result.key, result.sync_notifier);
    let returned = v.returned(result.key);
    let reported = returned.effect(compiled(result));
    lemma_notify_all_frame(returned.remove_entry(result.key), waiters);
    lemma_notify_all_frame(reported.give_up(result.key), waiters);
}

/// The report of a compilation.
pub open spec fn compiled(result: WorkerResult) -> Effect {
    Effect::Compilation(
        CompilationEvent {
            code_hash: result.key.code_hash,
            spec_id: result.key.spec_id,
            duration: result.compile_duration,
            kind: result.kind,
            success: !(result.outcome is Failed),
            timings: result.timings,
        },
    )
}

/// Those who wait for a result are those who wait for its key and the one who came with the job.
proof fn lemma_waiters_contain(
    v: BackendView,
    key: RuntimeCacheKey,
    first: SyncNotifier,
    notifier: SyncNotifier,
)
    requires
        notifier == first || waits(v, key, notifier),
    ensures
        v.waiters(key, first).contains(notifier),
{
    let all = v.waiters(key, first);
    if notifier == first {
        assert(all[0] == first);
    } else {
        let pending = v.entries[key].pending_notifiers;
        let i = choose|i: int| 0 <= i < pending.len() && pending[i] == notifier;
        assert(all[i + 1] == notifier);
    }
}

/// A result that needed the outside wakes everybody who waited for it once it is settled.
pub proof fn law_settlements_wake_everyone(
    v: BackendView,
    key: RuntimeCacheKey,
    waiters: Seq<SyncNotifier>,
    mode: AdmitMode,
    answer: ProbeResult,
    stored: StoredArtifact,
    victims: Seq<RuntimeCacheKey>,
    slot: Option<u64>,
    now: Moment,
    notifier: SyncNotifier,
)
    requires
        waiters.contains(notifier),
    ensures
        woken(v, v.linked(key, waiters, slot, now), notifier),
        woken(v, v.give_up(key).notify_all(waiters), notifier),
        v.reloaded(key, waiters, mode, answer, now).1 is None ==> woken(
            v,
            v.reloaded(key, waiters, mode, answer, now).0,
            notifier,
        ),
        woken(v, v.artifact_loaded(key, waiters, stored, victims, slot, now), notifier),
{
    let linked = match slot {
        Some(slot) => v.publish_jit(key, slot, now),
        None => v.give_up(key),
    };
    lemma_notify_all_wakes(linked, waiters, notifier);
    lemma_woken_since(v, linked, v.linked(key, waiters, slot, now), notifier);
    lemma_notify_all_wakes(v.give_up(key), waiters, notifier);
    if let ProbeResult::Found(found) = answer {
        let (judged, verdict) = v.read_back(key, found).judge_stored(
            found.manifest.artifact_len,
            mode,
            now,
            false,
        );
        let noted = judged.note_persisted(key, PersistedAotState::Oversized).count_success();
        lemma_notify_all_wakes(noted, waiters, notifier);
        lemma_notify_all_wakes(judged.count_success(), waiters, notifier);
    }
    let loaded = match slot {
        Some(slot) => v.install_stored(
            key,
            stored.manifest.artifact_len,
            victims,
            slot,
            now,
        ).remove_entry(key).count_success(),
        None => v.note_persisted(key, PersistedAotState::Absent).count_failure(),
    };
    lemma_evict_all_for_aot_continues(v, victims);
    lemma_notify_all_wakes(loaded, waiters, notifier);
    lemma_woken_since(
        v,
        loaded,
        v.artifact_loaded(key, waiters, stored, victims, slot, now),
        notifier,
    );
}

/// Waking those who wait for one of the keys adds effects to those that are there.
pub proof fn lemma_wake_tracked_continues(
    v: BackendView,
    entries: Map<RuntimeCacheKey, EntryView>,
    keys: Seq<RuntimeCacheKey>,
)
    ensures
        continues(v, v.wake_tracked(entries, keys)),
    decreases keys.len(),
{
    if keys.len() > 0 {
        let u = v.wake_tracked(entries, keys.drop_last());
        lemma_wake_tracked_continues(v, entries, keys.drop_last());
        lemma_notify_all_continues(u, entries[keys.last()].pending_notifiers);
    }
}

/// Waking those who wait for one of the keys wakes each of them.
proof fn lemma_wake_tracked_wakes(
    v: BackendView,
    entries: Map<RuntimeCacheKey, EntryView>,
    keys: Seq<RuntimeCacheKey>,
    key: RuntimeCacheKey,
    notifier: SyncNotifier,
)
    requires
        keys.contains(key),
        entries[key].pending_notifiers.contains(notifier),
    ensures
        woken(v, v.wake_tracked(entries, keys), notifier),
    decreases keys.len(),
{
    let rest = keys.drop_last();
    let u = v.wake_tracked(entries, rest);
    let w = v.wake_tracked(entries, keys);
    lemma_wake_tracked_continues(v, entries, rest);
    lemma_notify_all_continues(u, entries[keys.last()].pending_notifiers);
    if keys.last() == key {
        lemma_notify_all_wakes(u, entries[key].pending_notifiers, notifier);
        lemma_woken_since(v, u, w, notifier);
    } else {
        let i = choose|i: int| 0 <= i < keys.len() && keys[i] == key;
        assert(rest[i] == key);
        lemma_wake_tracked_wakes(v, entries, rest, key, notifier);
        if let Some(waiter) = notifier.waiter {
            let j = choose|j: int|
                v.outbox.len() <= j < u.outbox.len() && #[trigger] u.outbox[j] == Effect::Notify(
                    waiter,
                );
            assert(w.outbox[j] == u.outbox[j]);
        }
    }
}

/// Clearing wakes everybody who waits.
pub proof fn law_clear_wakes_everyone(
    v: BackendView,
    after: BackendView,
    key: RuntimeCacheKey,
    notifier: SyncNotifier,
)
    requires
        v.clears_to(after),
        waits(v, key, notifier),
    ensures
        woken(v, after, notifier),
{
    let keys = choose|keys: Seq<RuntimeCacheKey>|
        #[trigger] v.lists_tracked(keys) && after == v.cleared(keys);
    let emptied = v.emptied();
    assert(v.entries.dom().contains(key));
    assert(keys.to_set().contains(key));
    lemma_wake_tracked_wakes(emptied, v.entries, keys, key, notifier);
    let w = emptied.wake_tracked(v.entries, keys);
    if let Some(waiter) = notifier.waiter {
        let j = choose|j: int|
            emptied.outbox.len() <= j < w.outbox.len() && #[trigger] w.outbox[j] == Effect::Notify(
                waiter,
            );
        assert(after.outbox[j] == w.outbox[j]);
    }
}

/// Settling the result of one key forgets nobody who waits for another, where only resident
/// programs make room for an artifact.
pub proof fn law_settlements_keep_other_waiters(
    v: BackendView,
    key: RuntimeCacheKey,
    waiters: Seq<SyncNotifier>,
    slot: Option<u64>,
    now: Moment,
    mode: AdmitMode,
    answer: ProbeResult,
    stored: StoredArtifact,
    victims: Seq<RuntimeCacheKey>,
    other: RuntimeCacheKey,
    notifier: SyncNotifier,
)
    requires
        v.inv(),
        waits(v, other, notifier),
        other != key,
        forall|i: int| 0 <= i < victims.len() ==> v.resident.contains_key(#[trigger] victims[i]),
    ensures
        waits(v.linked(key, waiters, slot, now), other, notifier),
        waits(v.give_up(key).notify_all(waiters), other, notifier),
        waits(v.reloaded(key, waiters, mode, answer, now).0, other, notifier),
        waits(v.artifact_loaded(key, waiters, stored, victims, slot, now), other, notifier),
{
    let linked = match slot {
        Some(slot) => v.publish_jit(key, slot, now),
        None => v.give_up(key),
    };
    lemma_notify_all_frame(linked, waiters);
    lemma_notify_all_frame(v.give_up(key), waiters);
    if let ProbeResult::Found(found) = answer {
        let judged = v.read_back(key, found).judge_stored(
            found.manifest.artifact_len,
            mode,
            now,
            false,
        ).0;
        lemma_notify_all_frame(
            judged.note_persisted(key, PersistedAotState::Oversized).count_success(),
            waiters,
        );
        lemma_notify_all_frame(judged.count_success(), waiters);
    }
    let loaded = match slot {
        Some(slot) => v.install_stored(
            key,
            stored.manifest.artifact_len,
            victims,
            slot,
            now,
        ).remove_entry(key).count_success(),
        None => v.note_persisted(key, PersistedAotState::Absent).count_failure(),
    };
    lemma_evicting_residents_keeps_entries(v, victims);
    lemma_notify_all_frame(loaded, waiters);
}

} // verus!
