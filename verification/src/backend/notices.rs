//! Whoever waits is woken once: what each step adds to the notifications, exactly.
use super::requests::{Admission, NextStep, ProbeResult};
use super::results::{jit_slot, WorkerResult};
use super::waiting::compiled;
use super::{
    BackendView, Effect, EntryPhase, EntryView, PersistedAotState, ResidentMeta, SyncNotifier,
};
use crate::clock::Moment;
use crate::config::{AdmitMode, ProgramKind};
use crate::keys::RuntimeCacheKey;
use crate::storage::StoredArtifact;
use vstd::prelude::*;

verus! {

/// Those whom effects wake, in order.
pub open spec fn notices(effects: Seq<Effect>) -> Seq<u64>
    decreases effects.len(),
{
    if effects.len() == 0 {
        Seq::empty()
    } else {
        match effects.last() {
            Effect::Notify(waiter) => notices(effects.drop_last()).push(waiter),
            _ => notices(effects.drop_last()),
        }
    }
}

/// Those who wait behind notifiers, in order.
pub open spec fn names(notifiers: Seq<SyncNotifier>) -> Seq<u64>
    decreases notifiers.len(),
{
    if notifiers.len() == 0 {
        Seq::empty()
    } else {
        match notifiers.last().waiter {
            Some(waiter) => names(notifiers.drop_last()).push(waiter),
            None => names(notifiers.drop_last()),
        }
    }
}

/// Whether just these are woken on the way from `v` to `w`, once each and in order.
pub open spec fn wakes(v: BackendView, w: BackendView, woken: Seq<u64>) -> bool {
    notices(w.outbox) == notices(v.outbox) + woken
}

/// One more effect.
proof fn lemma_push(effects: Seq<Effect>, effect: Effect)
    ensures
        notices(effects.push(effect)) == (match effect {
            Effect::Notify(waiter) => notices(effects).push(waiter),
            _ => notices(effects),
        }),
{
    assert(effects.push(effect).drop_last() =~= effects);
}

/// Waking one wakes that one.
proof fn lemma_notify(v: BackendView, notifier: SyncNotifier)
    ensures
        wakes(v, v.notify(notifier), names(seq![notifier])),
{
    let one = seq![notifier];
    assert(one.drop_last() =~= Seq::<SyncNotifier>::empty());
    assert(names(Seq::<SyncNotifier>::empty()) =~= Seq::<u64>::empty());
    match notifier.waiter {
        Some(waiter) => {
            lemma_push(v.outbox, Effect::Notify(waiter));
            assert(names(one) =~= seq![waiter]);
            assert(notices(v.outbox).push(waiter) =~= notices(v.outbox) + seq![waiter]);
        },
        None => {
            assert(notices(v.outbox) =~= notices(v.outbox) + Seq::<u64>::empty());
        },
    }
}

/// Waking several wakes each of them once, in order.
proof fn lemma_notify_all(v: BackendView, notifiers: Seq<SyncNotifier>)
    ensures
        wakes(v, v.notify_all(notifiers), names(notifiers)),
    decreases notifiers.len(),
{
    if notifiers.len() == 0 {
        assert(notices(v.outbox) =~= notices(v.outbox) + Seq::<u64>::empty());
    } else {
        let rest = notifiers.drop_last();
        let u = v.notify_all(rest);
        lemma_notify_all(v, rest);
        if let Some(waiter) = notifiers.last().waiter {
            lemma_push(u.outbox, Effect::Notify(waiter));
            assert(notices(u.outbox).push(waiter) =~= notices(v.outbox) + names(rest).push(waiter));
        }
    }
}

/// Evicting programs wakes nobody.
proof fn lemma_evicting_is_quiet(v: BackendView, keys: Seq<RuntimeCacheKey>)
    ensures
        notices(v.evict_all_for_aot(keys).outbox) == notices(v.outbox),
    decreases keys.len(),
{
    if keys.len() > 0 {
        let u = v.evict_all_for_aot(keys.drop_last());
        lemma_evicting_is_quiet(v, keys.drop_last());
        if u.published.contains_key(keys.last()) {
            lemma_push(u.outbox, Effect::ReleaseProgram(u.published[keys.last()]));
        }
    }
}

/// Putting a program in wakes nobody.
proof fn lemma_inserting_is_quiet(
    v: BackendView,
    key: RuntimeCacheKey,
    slot: u64,
    meta: ResidentMeta,
)
    ensures
        notices(v.insert_resident(key, slot, meta).outbox) == notices(v.outbox),
{
    if v.published.contains_key(key) {
        lemma_push(v.outbox, Effect::ReleaseProgram(v.published[key]));
    }
}

/// A result that is settled without the outside wakes just those who wait for it, once each: first
/// the one who came with the job, then the others in the order in which they came. One that needs
/// the outside wakes nobody yet.
pub proof fn law_results_wake_once(v: BackendView, result: WorkerResult)
    ensures
        wakes(
            v,
            v.received(result),
            if result.generation != v.generation || result.outcome is Failed || (
            result.outcome is Aot && !v.has_store) {
                names(v.waiters(result.key, result.sync_notifier))
            } else {
                Seq::empty()
            },
        ),
{
    let key = result.key;
    let waiters = v.waiters(key, result.sync_notifier);
    let returned = v.returned(key);
    let dropped = returned.remove_entry(key);
    lemma_notify_all(dropped, waiters);
    if let Some(slot) = jit_slot(result.outcome) {
        lemma_push(dropped.notify_all(waiters).outbox, Effect::ReleaseProgram(slot));
    }
    lemma_push(returned.outbox, compiled(result));
    lemma_notify_all(returned.effect(compiled(result)).give_up(key), waiters);
    assert(notices(v.outbox) =~= notices(v.outbox) + Seq::<u64>::empty());
}

/// The later steps of a result wake just those who wait for it, once each and in order, where they
/// settle it. A step that needs the outside once more wakes nobody yet.
pub proof fn law_settlements_wake_once(
    v: BackendView,
    key: RuntimeCacheKey,
    waiters: Seq<SyncNotifier>,
    mode: AdmitMode,
    answer: ProbeResult,
    stored: StoredArtifact,
    victims: Seq<RuntimeCacheKey>,
    slot: Option<u64>,
    now: Moment,
)
    ensures
        wakes(v, v.linked(key, waiters, slot, now), names(waiters)),
        wakes(v, v.give_up(key).notify_all(waiters), names(waiters)),
        wakes(
            v,
            v.reloaded(key, waiters, mode, answer, now).0,
            if v.reloaded(key, waiters, mode, answer, now).1 is None {
                names(waiters)
            } else {
                Seq::empty()
            },
        ),
        wakes(v, v.artifact_loaded(key, waiters, stored, victims, slot, now), names(waiters)),
{
    assert(notices(v.outbox) =~= notices(v.outbox) + Seq::<u64>::empty());
    lemma_notify_all(v.give_up(key), waiters);
    let published = match slot {
        Some(slot) => v.publish_jit(key, slot, now),
        None => v.give_up(key),
    };
    let loaded = match slot {
        Some(slot) => v.install_stored(
            key,
            stored.manifest.artifact_len,
            victims,
            slot,
            now,
        ).remove_entry(key).count_success(),
        None => v.note_persisted(key, PersistedAotState::Absent).count_failure(),
    };
    lemma_evicting_is_quiet(v, victims);
    if let Some(slot) = slot {
        lemma_inserting_is_quiet(
            v,
            key,
            slot,
            ResidentMeta {
                last_hit_at: now,
                kind: ProgramKind::Jit,
                artifact_len: 0,
            },
        );
        lemma_inserting_is_quiet(
            v.evict_all_for_aot(victims),
            key,
            slot,
            ResidentMeta {
                last_hit_at: now,
                kind: ProgramKind::Aot,
                artifact_len: stored.manifest.artifact_len,
            },
        );
    }
    lemma_notify_all(published, waiters);
    lemma_notify_all(loaded, waiters);
    if let ProbeResult::Found(found) = answer {
        let judged = v.read_back(key, found).judge_stored(
            found.manifest.artifact_len,
            mode,
            now,
            false,
        ).0;
        lemma_notify_all(
            judged.note_persisted(key, PersistedAotState::Oversized).count_success(),
            waiters,
        );
        lemma_notify_all(judged.count_success(), waiters);
    }
}

/// A request wakes nobody but the one who came with it, and that one at most once: not where the
/// request goes on to the outside or joins a compilation, and just once where an explicit request
/// ends otherwise.
pub proof fn law_requests_wake_once(
    v: BackendView,
    adm: Admission,
    bytecode: Seq<u8>,
    eligible: bool,
)
    ensures
        ({
            let (w, next) = v.request(adm, bytecode, eligible);
            let joined = !v.published.contains_key(adm.key) && eligible && v.seen_entry(
                adm,
                bytecode,
            ).phase == EntryPhase::Working;
            &&& wakes(v, w, names(seq![adm.sync_notifier])) || wakes(v, w, Seq::empty())
            &&& next != NextStep::Done || joined ==> wakes(v, w, Seq::empty())
            &&& adm.mode == AdmitMode::Explicit && next == NextStep::Done && !joined ==> wakes(
                v,
                w,
                names(seq![adm.sync_notifier]),
            )
        }),
{
    let w = v.request(adm, bytecode, eligible).0;
    assert(notices(v.outbox) =~= notices(v.outbox) + Seq::<u64>::empty());
    lemma_notify(v, adm.sync_notifier);
    assert(w.outbox == v.outbox || w.outbox == v.notify(adm.sync_notifier).outbox);
}

/// So does what follows the answer of the store, the outcome of a load and that of a dispatch.
pub proof fn law_later_steps_wake_once(
    v: BackendView,
    adm: Admission,
    answer: ProbeResult,
    stored: StoredArtifact,
    victims: Seq<RuntimeCacheKey>,
    slot: Option<u64>,
    started: Moment,
    finished: Moment,
    accepted: bool,
)
    ensures
        ({
            let (w, next) = v.probed(adm.key, answer).proceed(adm);
            &&& wakes(v, w, names(seq![adm.sync_notifier])) || wakes(v, w, Seq::empty())
            &&& next != NextStep::Done ==> wakes(v, w, Seq::empty())
        }),
        ({
            let (w, next) = v.loaded(adm, stored, victims, slot, started, finished);
            &&& wakes(v, w, names(seq![adm.sync_notifier])) || wakes(v, w, Seq::empty())
            &&& next != NextStep::Done ==> wakes(v, w, Seq::empty())
            &&& slot is Some ==> wakes(v, w, names(seq![adm.sync_notifier]))
        }),
        wakes(
            v,
            v.dispatched(adm, accepted),
            if accepted {
                Seq::empty()
            } else {
                names(seq![adm.sync_notifier])
            },
        ),
{
    let answered = v.probed(adm.key, answer).proceed(adm).0;
    assert(notices(v.outbox) =~= notices(v.outbox) + Seq::<u64>::empty());
    lemma_notify(v, adm.sync_notifier);
    assert(answered.outbox == v.outbox || answered.outbox == v.notify(adm.sync_notifier).outbox);
    let loaded = v.loaded(adm, stored, victims, slot, started, finished).0;
    match slot {
        None => {
            assert(loaded.outbox == v.outbox || loaded.outbox == v.notify(
                adm.sync_notifier,
            ).outbox);
        },
        Some(slot) => {
            let artifact_len = stored.manifest.artifact_len;
            let load_ns = finished.nanos_since(started) as u64;
            let installed = v.install_stored(adm.key, artifact_len, victims, slot, finished);
            let recorded = installed.record_load(adm.key, adm.mode, load_ns);
            lemma_evicting_is_quiet(v, victims);
            lemma_inserting_is_quiet(
                v.evict_all_for_aot(victims),
                adm.key,
                slot,
                ResidentMeta {
                    last_hit_at: finished,
                    kind: ProgramKind::Aot,
                    artifact_len,
                },
            );
            if v.aot {
                lemma_push(installed.outbox, recorded.outbox.last());
            }
            lemma_evicting_keeps_mode(v, victims);
            lemma_notify(recorded.remove_entry(adm.key), adm.sync_notifier);
        },
    }
}

/// Evicting programs does not change what the backend compiles to.
proof fn lemma_evicting_keeps_mode(v: BackendView, keys: Seq<RuntimeCacheKey>)
    ensures
        v.evict_all_for_aot(keys).aot == v.aot,
        v.evict_all_for_aot(keys).tuning == v.tuning,
    decreases keys.len(),
{
    if keys.len() > 0 {
        lemma_evicting_keeps_mode(v, keys.drop_last());
    }
}

/// Those who wait for the keys, key by key.
pub open spec fn names_behind(
    entries: Map<RuntimeCacheKey, EntryView>,
    keys: Seq<RuntimeCacheKey>,
) -> Seq<u64>
    decreases keys.len(),
{
    if keys.len() == 0 {
        Seq::empty()
    } else {
        names_behind(entries, keys.drop_last()) + names(entries[keys.last()].pending_notifiers)
    }
}

/// Waking those who wait for keys wakes each of them once.
proof fn lemma_wake_tracked(
    v: BackendView,
    entries: Map<RuntimeCacheKey, EntryView>,
    keys: Seq<RuntimeCacheKey>,
)
    ensures
        wakes(v, v.wake_tracked(entries, keys), names_behind(entries, keys)),
    decreases keys.len(),
{
    if keys.len() == 0 {
        assert(notices(v.outbox) =~= notices(v.outbox) + Seq::<u64>::empty());
    } else {
        let rest = keys.drop_last();
        let u = v.wake_tracked(entries, rest);
        let pending = entries[keys.last()].pending_notifiers;
        lemma_wake_tracked(v, entries, rest);
        lemma_notify_all(u, pending);
        assert(notices(v.outbox) + names_behind(entries, rest) + names(pending) =~= notices(
            v.outbox,
        ) + (names_behind(entries, rest) + names(pending)));
    }
}

/// Clearing wakes just those who wait for a tracked key, each once, and key by key in some order.
pub proof fn law_clear_wakes_once(v: BackendView, after: BackendView)
    requires
        v.clears_to(after),
    ensures
        exists|keys: Seq<RuntimeCacheKey>| #[trigger]
            v.lists_tracked(keys) && wakes(v, after, names_behind(v.entries, keys)),
{
    let keys = choose|keys: Seq<RuntimeCacheKey>|
        #[trigger] v.lists_tracked(keys) && after == v.cleared(keys);
    lemma_push(v.outbox, Effect::CancelInFlight);
    lemma_push(v.outbox.push(Effect::CancelInFlight), Effect::ReleaseAllPrograms);
    lemma_wake_tracked(v.emptied(), v.entries, keys);
    lemma_push(
        v.emptied().wake_tracked(v.entries, keys).outbox,
        Effect::DiscardLookupEvents,
    );
    assert(v.lists_tracked(keys) && wakes(v, after, names_behind(v.entries, keys)));
}

} // verus!
