//! What becomes of requests and results, told by the fields of the state themselves.
use super::commands::{
    lemma_wake_tracked_frame, prepared, spec_demand_kind, PrepareAotRequest,
};
use super::publication::law_compilations_are_reported_once;
use super::requests::{
    Admission, AdmitRequest, AdmitStep, CompileJob, NextStep, ProbeResult, VerdictView,
};
use super::results::{ResultStep, WorkerOutcome, WorkerResult};
use super::upkeep::lemma_notify_all_frame;
use super::waiting::{compiled, lemma_wake_tracked_continues};
use super::{
    BackendStats, BackendView, CompilationEvent, Effect, EntryPhase, EntryView, PersistedAotState,
    SyncNotifier,
};
use crate::bytecode::byte_contents;
use crate::clock::Moment;
use crate::config::{AdmitMode, CompilationKind};
use crate::keys::{hash_digits, RuntimeCacheKey};
use crate::storage::{keccak256_digest, BackendSelection, StoredArtifact};
use vstd::prelude::*;

verus! {

/// Effects with one more that wakes whoever waits behind a notifier, if anybody does.
pub open spec fn and_wake(effects: Seq<Effect>, notifier: SyncNotifier) -> Seq<Effect> {
    match notifier.waiter {
        Some(waiter) => effects.push(Effect::Notify(waiter)),
        None => effects,
    }
}

/// A job is made in the state it is dispatched from: it carries the generation of that state, the
/// key, kind and notifier of the request, the bytecode that is tracked of the key, and the
/// optimization level of its kind.
pub proof fn law_jobs_carry_their_state(v: BackendView, adm: Admission, job: CompileJob)
    requires
        job.compiles(v, adm),
    ensures
        job.generation == v.generation,
        job.key == adm.key,
        job.kind == adm.kind,
        job.sync_notifier == adm.sync_notifier,
        byte_contents(job.bytecode) == v.entries[adm.key].bytecode,
        job.kind == CompilationKind::Jit ==> job.opt_level == v.tuning.jit_opt_level,
        job.kind == CompilationKind::Aot ==> job.opt_level == v.tuning.aot_opt_level,
        job.symbol_name@ == (if adm.kind == CompilationKind::Jit {
            "jit"@
        } else {
            "aot"@
        }) + "_"@ + hash_digits(adm.key.code_hash) + "_"@ + adm.key.spec_id.spec_name(),
{
}

/// A compilation that is dispatched and comes back before the next clear is not thrown away: its
/// result carries the generation of its job, so it is reported, and its program is what lookups
/// find under the key afterwards. That holds in every generation.
#[verifier::rlimit(50)]
pub proof fn law_dispatched_jobs_come_back(
    v: BackendView,
    adm: Admission,
    job: CompileJob,
    result: WorkerResult,
    step: ResultStep,
    created_at: Option<u64>,
    slot: u64,
    now: Moment,
)
    requires
        v.inv(),
        v.awaits(adm),
        job.compiles(v, adm),
        result.key == job.key,
        result.generation == job.generation,
        result.outcome == WorkerOutcome::Jit(slot),
        step.follows(v.dispatched(adm, true), result, created_at),
    ensures
        ({
            let back = v.dispatched(adm, true).received(result);
            &&& step matches ResultStep::Publish(settlement, s) && s == slot && settlement.key
                == adm.key
            &&& back.outbox.len() == v.outbox.len() + 1
            &&& back.outbox[v.outbox.len() as int] matches Effect::Compilation(event)
                && event.success && event.code_hash == adm.key.code_hash && event.spec_id
                == adm.key.spec_id
            &&& forall|waiters: Seq<SyncNotifier>|
                {
                    let settled = #[trigger] back.linked(adm.key, waiters, Some(slot), now);
                    &&& settled.published.contains_key(adm.key)
                    &&& settled.published[adm.key] == slot
                    &&& settled.resident.contains_key(adm.key)
                    &&& !settled.entries.contains_key(adm.key)
                }
        }),
{
    let back = v.dispatched(adm, true).received(result);
    assert forall|waiters: Seq<SyncNotifier>|
        {
            let settled = #[trigger] back.linked(adm.key, waiters, Some(slot), now);
            &&& settled.published.contains_key(adm.key)
            &&& settled.published[adm.key] == slot
            &&& settled.resident.contains_key(adm.key)
            &&& !settled.entries.contains_key(adm.key)
        } by {
        lemma_notify_all_frame(back.publish_jit(adm.key, slot, now), waiters);
    }
}

/// A result does not change the generation, nor does its settlement. It is thrown away if and only if it is of another generation: nothing is reported of it, its key is no longer
/// tracked, its program is released and no compilation is counted.
#[verifier::rlimit(50)]
pub proof fn law_only_other_generations_are_thrown_away(
    v: BackendView,
    result: WorkerResult,
    step: ResultStep,
    created_at: Option<u64>,
    waiters: Seq<SyncNotifier>,
    slot: Option<u64>,
    now: Moment,
)
    requires
        step.follows(v, result, created_at),
    ensures
        v.received(result).generation == v.generation,
        v.linked(result.key, waiters, slot, now).generation == v.generation,
        v.received(result).published == v.published,
        result.generation != v.generation ==> {
            &&& step is Done
            &&& !v.received(result).entries.contains_key(result.key)
            &&& v.received(result).stats == v.stats
            &&& result.outcome matches WorkerOutcome::Jit(slot) ==> v.received(
                result,
            ).outbox.last() == Effect::ReleaseProgram(slot)
        },
        result.generation == v.generation ==> {
            &&& v.received(result).outbox.len() > v.outbox.len()
            &&& v.received(result).outbox[v.outbox.len() as int] == Effect::Compilation(
                CompilationEvent {
                    code_hash: result.key.code_hash,
                    spec_id: result.key.spec_id,
                    duration: result.compile_duration,
                    kind: result.kind,
                    success: result.outcome != WorkerOutcome::Failed,
                    timings: result.timings,
                },
            )
        },
{
    let key = result.key;
    let all = v.waiters(key, result.sync_notifier);
    lemma_notify_all_frame(v.returned(key).remove_entry(key), all);
    lemma_notify_all_frame(
        v.returned(key).effect(compiled(result)).give_up(key),
        all,
    );
    lemma_notify_all_frame(v.give_up(key), waiters);
    if let Some(slot) = slot {
        lemma_notify_all_frame(v.publish_jit(key, slot, now), waiters);
    }
    law_compilations_are_reported_once(v, result);
}

/// What a current result needs next: JIT code is published in its slot, an object is linked, a
/// library is stored where there is a store, and a failure needs nothing. What is handed on is the
/// result's own, with those who wait for it, first the one who came with the job. A library is
/// stored under its key with a manifest that describes it, and is admitted in the mode that is
/// tracked of the key.
pub proof fn law_results_lead_on(
    v: BackendView,
    result: WorkerResult,
    step: ResultStep,
    created_at: Option<u64>,
)
    requires
        step.follows(v, result, created_at),
        result.generation == v.generation,
    ensures
        ({
            let known_before = v.entries.contains_key(result.key);
            let waiters = seq![result.sync_notifier] + if known_before {
                v.entries[result.key].pending_notifiers
            } else {
                Seq::empty()
            };
            match result.outcome {
                WorkerOutcome::Failed => step is Done,
                WorkerOutcome::Jit(slot) => step matches ResultStep::Publish(settlement, s) && s
                    == slot && settlement.key == result.key && settlement.waiters@ == waiters,
                WorkerOutcome::JitObject(object) => step matches ResultStep::Link(settlement, o)
                    && o == object && settlement.key == result.key && settlement.waiters@
                    == waiters,
                WorkerOutcome::Aot(success) => if v.has_store {
                    step matches ResultStep::Store(settlement, mode, manifest, bytes) && {
                        &&& settlement.key == result.key && settlement.waiters@ == waiters
                        &&& bytes@ == success.dylib_bytes@
                        &&& known_before ==> mode == v.entries[result.key].working_mode
                        &&& !known_before ==> mode == AdmitMode::Explicit
                        &&& manifest.artifact_key.runtime == result.key
                        &&& manifest.artifact_key.backend == BackendSelection::Llvm
                        &&& manifest.artifact_key.opt_level == v.tuning.aot_opt_level
                        &&& manifest.symbol_name == success.symbol_name
                        &&& manifest.bytecode_len == success.bytecode_len
                        &&& manifest.artifact_len == success.dylib_bytes@.len()
                        &&& manifest.content_hash@ == keccak256_digest(success.dylib_bytes@)
                        &&& created_at matches Some(secs) ==> manifest.created_at_unix_secs == secs
                        &&& created_at is None ==> manifest.created_at_unix_secs == 0
                    }
                } else {
                    step is Done
                },
            }
        }),
{
    let waiters = seq![result.sync_notifier] + if v.entries.contains_key(result.key) {
        v.entries[result.key].pending_notifiers
    } else {
        Seq::empty()
    };
    assert(v.waiters(result.key, result.sync_notifier) =~= waiters);
}

/// What is handed on from an admission is its own: the store is asked for the artifact of its key at
/// the optimization level of AOT compilations, the artifact that was judged is loaded, and the job
/// compiles its key.
pub proof fn law_admissions_lead_on(v: BackendView, adm: Admission, next: NextStep, step: AdmitStep)
    requires
        step.is(v, adm, next),
    ensures
        match next {
            NextStep::Done => step is Done,
            NextStep::Probe => step matches AdmitStep::Probe(a, artifact_key) && a == adm
                && artifact_key.runtime == adm.key && artifact_key.backend
                == BackendSelection::Llvm && artifact_key.opt_level == v.tuning.aot_opt_level,
            NextStep::Load(stored, victims) => step matches AdmitStep::Load(a, order) && a == adm
                && order.stored == stored && order.victims@ == victims,
            NextStep::Dispatch => step matches AdmitStep::Dispatch(a, job) && a == adm
                && job.key == adm.key && job.generation == v.generation,
        },
{
}

/// Whether an observed request for a key finds no slot for an entry.
pub open spec fn turned_away(v: BackendView, adm: Admission) -> bool {
    &&& adm.mode == AdmitMode::Observed
    &&& !(v.entries.contains_key(adm.key) && v.entries[adm.key].observed)
    &&& v.observed_entries >= v.tuning.max_observed_entries
}

/// Whether a request is taken in: its key is not resident, its bytecode is compiled at all, and it
/// finds a slot if it needs one.
pub open spec fn taken_in(v: BackendView, adm: Admission, eligible: bool) -> bool {
    &&& !v.published.contains_key(adm.key)
    &&& eligible
    &&& !turned_away(v, adm)
}

/// A request that is settled at once changes nothing but that its waiter is woken, and one that is
/// turned away changes nothing but the count of those. Neither needs the outside.
pub proof fn law_requests_not_taken_in_change_nothing(
    v: BackendView,
    adm: Admission,
    bytecode: Seq<u8>,
    eligible: bool,
)
    ensures
        ({
            let (w, next) = v.request(adm, bytecode, eligible);
            &&& v.published.contains_key(adm.key) || !eligible ==> {
                &&& next == NextStep::Done
                &&& w == (BackendView { outbox: and_wake(v.outbox, adm.sync_notifier), ..v })
            }
            &&& !v.published.contains_key(adm.key) && eligible && turned_away(v, adm) ==> {
                &&& next == NextStep::Done
                &&& w == (BackendView {
                    stats: BackendStats {
                        observed_entry_rejections: v.stats.observed_entry_rejections.wrapping_add(
                            1,
                        ),
                        ..v.stats
                    },
                    ..v
                })
            }
        }),
{
}

/// A request that is taken in is tracked: the key is as it was, or cold and fresh with the bytecode
/// of the request; it was last requested at the time of the request, takes a slot from an observed
/// miss on, and is one hotter for an observed miss while it is cold. A key that is being compiled
/// stays so, and the request waits for it; an explicit one makes the result be admitted explicitly.
/// No other entry changes, and no program.
#[verifier::rlimit(50)]
pub proof fn law_requests_are_tracked(
    v: BackendView,
    adm: Admission,
    bytecode: Seq<u8>,
    eligible: bool,
)
    requires
        v.inv(),
        taken_in(v, adm, eligible),
    ensures
        ({
            let (w, next) = v.request(adm, bytecode, eligible);
            let known_before = v.entries.contains_key(adm.key);
            let old = v.entries[adm.key];
            let new = w.entries[adm.key];
            let working = known_before && old.phase == EntryPhase::Working;
            let observed = adm.mode == AdmitMode::Observed;
            &&& w == (BackendView {
                entries: w.entries,
                observed_entries: w.observed_entries,
                limiter: w.limiter,
                stats: w.stats,
                outbox: w.outbox,
                ..v
            })
            &&& w.entries.contains_key(adm.key)
            &&& w.entries.remove(adm.key) == v.entries.remove(adm.key)
            &&& new.last_observed_at == adm.now
            &&& new.bytecode == (if known_before {
                old.bytecode
            } else {
                bytecode
            })
            &&& new.observed == (observed || (known_before && old.observed))
            &&& new.hotness as int == (if known_before {
                old.hotness as int
            } else {
                0
            }) + (if observed && !working && !(known_before && old.hotness == u32::MAX) {
                1int
            } else {
                0
            })
            &&& new.phase == (if working {
                EntryPhase::Working
            } else {
                EntryPhase::Cold
            })
            &&& new.working_mode == (if working {
                if observed {
                    old.working_mode
                } else {
                    AdmitMode::Explicit
                }
            } else if known_before {
                old.working_mode
            } else {
                adm.mode
            })
            &&& working ==> {
                &&& new.pending_notifiers == old.pending_notifiers.push(adm.sync_notifier)
                &&& new.persisted_aot == old.persisted_aot
                &&& next == NextStep::Done
                &&& w.outbox == v.outbox && w.stats == v.stats && w.limiter == v.limiter
            }
            &&& !working ==> new.pending_notifiers.len() == 0
            &&& w.observed_entries as int == v.observed_entries + (if observed && !(known_before
                && old.observed) {
                1int
            } else {
                0
            })
        }),
{
    let w = v.request(adm, bytecode, eligible).0;
    assert(w.entries.remove(adm.key) =~= v.entries.remove(adm.key));
    if v.entries.contains_key(adm.key) {
        assert(v.entries[adm.key].phase == EntryPhase::Cold
            ==> v.entries[adm.key].pending_notifiers.len() == 0);
    }
}

/// Whether an admission without an artifact went on as it should: a key that is hot, or explicitly
/// requested, is compiled where the tuning allows one more job, and its waiter is woken where it does
/// not. A key that is not hot enough is left at that.
pub open spec fn compiled_if_hot(
    v: BackendView,
    w: BackendView,
    adm: Admission,
    hotness: u32,
    next: NextStep,
) -> bool {
    let hot = adm.mode == AdmitMode::Explicit || hotness >= v.tuning.jit_hot_threshold;
    let room = v.pending_jobs < v.tuning.jit_max_pending_jobs;
    &&& next == (if hot && room {
        NextStep::Dispatch
    } else {
        NextStep::Done
    })
    &&& w.outbox == (if hot && !room {
        and_wake(v.outbox, adm.sync_notifier)
    } else {
        v.outbox
    })
    &&& w.limiter == v.limiter
}

/// What a request for a cold key leads to. JIT code is compiled if the key is hot. In AOT mode the
/// store is asked where nothing is known of the artifact and the key is hot enough for that; without
/// a store there is no artifact. A key without an artifact is compiled if it is hot; one whose
/// artifact is over budget is left at that, and its waiter is woken.
#[verifier::rlimit(50)]
pub proof fn law_requests_for_cold_keys(
    v: BackendView,
    adm: Admission,
    bytecode: Seq<u8>,
    eligible: bool,
)
    requires
        v.inv(),
        taken_in(v, adm, eligible),
        v.entries.contains_key(adm.key) ==> v.entries[adm.key].phase == EntryPhase::Cold,
    ensures
        ({
            let (w, next) = v.request(adm, bytecode, eligible);
            let known = if v.entries.contains_key(adm.key) {
                v.entries[adm.key].persisted_aot
            } else {
                PersistedAotState::Unprobed
            };
            let new = w.entries[adm.key];
            let asks = adm.mode == AdmitMode::Explicit || new.hotness
                >= v.tuning.persisted_aot_hot_threshold;
            if adm.kind == CompilationKind::Jit {
                &&& compiled_if_hot(v, w, adm, new.hotness, next)
                &&& new.persisted_aot == known
                &&& w.stats == v.stats
            } else {
                match known {
                    PersistedAotState::Unprobed => if !asks {
                        &&& next == NextStep::Done
                        &&& new.persisted_aot == known
                        &&& w.stats == v.stats && w.outbox == v.outbox && w.limiter == v.limiter
                    } else if v.has_store {
                        &&& next == NextStep::Probe
                        &&& new.persisted_aot == known
                        &&& w.outbox == v.outbox && w.limiter == v.limiter
                        &&& w.stats == (BackendStats {
                            persisted_aot_probes: v.stats.persisted_aot_probes.wrapping_add(1),
                            ..v.stats
                        })
                    } else {
                        &&& compiled_if_hot(v, w, adm, new.hotness, next)
                        &&& new.persisted_aot == PersistedAotState::Absent
                        &&& w.stats == v.stats
                    },
                    PersistedAotState::Absent => {
                        &&& compiled_if_hot(v, w, adm, new.hotness, next)
                        &&& new.persisted_aot == known
                        &&& w.stats == v.stats
                    },
                    PersistedAotState::Oversized => {
                        &&& next == NextStep::Done
                        &&& new.persisted_aot == known
                        &&& w.outbox == and_wake(v.outbox, adm.sync_notifier)
                        &&& w.stats == v.stats && w.limiter == v.limiter
                    },
                    PersistedAotState::Ready(stored) => judged_as(v, w, adm, stored, next),
                }
            }
        }),
{
}

/// Whether an admission with a known artifact went on as the budgets and the limiter have it: the
/// artifact is loaded, or put off and known as before, or known to be over budget; the waiter is
/// woken where it is not loaded.
pub open spec fn judged_as(
    v: BackendView,
    w: BackendView,
    adm: Admission,
    stored: StoredArtifact,
    next: NextStep,
) -> bool {
    let (judged, verdict) = v.judge_stored(stored.manifest.artifact_len, adm.mode, adm.now, true);
    &&& w.stats == judged.stats && w.limiter == judged.limiter
    &&& match verdict {
        VerdictView::Load(victims) => {
            &&& next == NextStep::Load(stored, victims)
            &&& w.outbox == v.outbox
            &&& w.entries[adm.key].persisted_aot == PersistedAotState::Ready(stored)
        },
        VerdictView::Deferred => {
            &&& next == NextStep::Done
            &&& w.outbox == and_wake(v.outbox, adm.sync_notifier)
            &&& w.entries[adm.key].persisted_aot == PersistedAotState::Ready(stored)
        },
        VerdictView::Oversized => {
            &&& next == NextStep::Done
            &&& w.outbox == and_wake(v.outbox, adm.sync_notifier)
            &&& w.entries[adm.key].persisted_aot == PersistedAotState::Oversized
        },
    }
}

/// The answer of the store is remembered and acted on: without an artifact the key is compiled if it
/// is hot, and only an artifact that is not there counts as a miss; one that alone is over the byte
/// budget is refused for good; any other is loaded or put off. Only the entry of the key changes, and
/// of it only what is known of the artifact.
#[verifier::rlimit(50)]
pub proof fn law_answers_are_acted_on(v: BackendView, adm: Admission, answer: ProbeResult)
    requires
        v.awaits(adm),
        adm.kind == CompilationKind::Aot,
    ensures
        ({
            let (w, next) = v.probed(adm.key, answer).proceed(adm);
            let old = v.entries[adm.key];
            let new = w.entries[adm.key];
            &&& w == (BackendView {
                entries: w.entries,
                limiter: w.limiter,
                stats: w.stats,
                outbox: w.outbox,
                ..v
            })
            &&& w.entries.dom() == v.entries.dom()
            &&& w.entries.remove(adm.key) == v.entries.remove(adm.key)
            &&& new == (EntryView { persisted_aot: new.persisted_aot, ..old })
            &&& match answer {
                ProbeResult::Missing => {
                    &&& compiled_if_hot(v, w, adm, old.hotness, next)
                    &&& new.persisted_aot == PersistedAotState::Absent
                    &&& w.stats == (BackendStats {
                        persisted_aot_probe_misses: v.stats.persisted_aot_probe_misses.wrapping_add(
                            1,
                        ),
                        ..v.stats
                    })
                },
                ProbeResult::Failed => {
                    &&& compiled_if_hot(v, w, adm, old.hotness, next)
                    &&& new.persisted_aot == PersistedAotState::Absent
                    &&& w.stats == v.stats
                },
                ProbeResult::Found(stored) => if 0 < v.tuning.max_resident_aot_bytes
                    < stored.manifest.artifact_len {
                    &&& next == NextStep::Done
                    &&& new.persisted_aot == PersistedAotState::Oversized
                    &&& w.outbox == and_wake(v.outbox, adm.sync_notifier)
                    &&& w.limiter == v.limiter
                    &&& w.stats == (BackendStats {
                        persisted_aot_oversized: v.stats.persisted_aot_oversized.wrapping_add(1),
                        ..v.stats
                    })
                } else {
                    judged_as(v, w, adm, stored, next)
                },
            }
        }),
{
    let w = v.probed(adm.key, answer).proceed(adm).0;
    assert(w.entries.remove(adm.key) =~= v.entries.remove(adm.key));
    assert(w.entries.dom() =~= v.entries.dom());
}

/// How an artifact is judged. It is refused for good if and only if it alone is over the byte
/// budget. Of any other, loading it on observed demand, where it was found in the store, needs the
/// limiter, and takes from the limiter the interval that begins now; nothing else touches the
/// limiter. Whatever puts an artifact off is counted, once, and nothing else changes.
#[verifier::rlimit(50)]
pub proof fn law_artifacts_are_judged(
    v: BackendView,
    artifact_len: usize,
    mode: AdmitMode,
    now: Moment,
    persisted: bool,
)
    ensures
        ({
            let (w, verdict) = v.judge_stored(artifact_len, mode, now, persisted);
            let interval = v.tuning.persisted_aot_load_interval.nanos;
            let limited = persisted && mode == AdmitMode::Observed && interval > 0;
            let early = v.limiter.next_allowed_at matches Some(next) && now.nanos < next.nanos;
            &&& w == (BackendView { limiter: w.limiter, stats: w.stats, ..v })
            &&& verdict == VerdictView::Oversized <==> 0 < v.tuning.max_resident_aot_bytes
                < artifact_len
            &&& verdict is Oversized ==> w.limiter == v.limiter && w.stats == (BackendStats {
                persisted_aot_oversized: v.stats.persisted_aot_oversized.wrapping_add(1),
                ..v.stats
            })
            &&& verdict is Load ==> {
                &&& w.stats == v.stats
                &&& !(limited && early)
                &&& limited && now.nanos + interval <= u64::MAX ==> {
                    &&& w.limiter.next_allowed_at is Some
                    &&& w.limiter.next_allowed_at->0.nanos == now.nanos + interval
                }
                &&& !limited ==> w.limiter == v.limiter
            }
            &&& verdict is Deferred ==> {
                &&& w.limiter == v.limiter
                &&& {
                    ||| w.stats == (BackendStats {
                        persisted_aot_capacity_deferred:
                            v.stats.persisted_aot_capacity_deferred.wrapping_add(1),
                        ..v.stats
                    })
                    ||| limited && early && w.stats == (BackendStats {
                        persisted_aot_rate_limited: v.stats.persisted_aot_rate_limited.wrapping_add(
                            1,
                        ),
                        ..v.stats
                    })
                }
            }
        }),
{
}

/// A job that a worker takes makes its key one that is being compiled, in the mode of the request,
/// and is counted. One that no worker takes changes nothing but that its waiter is woken.
pub proof fn law_dispatch_starts_the_work(v: BackendView, adm: Admission)
    requires
        v.inv(),
        v.awaits(adm),
        v.pending_jobs < v.tuning.jit_max_pending_jobs,
    ensures
        ({
            let w = v.dispatched(adm, true);
            let old = v.entries[adm.key];
            &&& w.entries.contains_key(adm.key)
            &&& w.entries.remove(adm.key) == v.entries.remove(adm.key)
            &&& w.entries[adm.key] == (EntryView {
                phase: EntryPhase::Working,
                working_mode: adm.mode,
                ..old
            })
            &&& w.pending_jobs == v.pending_jobs + 1
            &&& w == (BackendView {
                entries: w.entries,
                pending_jobs: w.pending_jobs,
                stats: BackendStats {
                    compilations_dispatched: v.stats.compilations_dispatched.wrapping_add(1),
                    ..v.stats
                },
                ..v
            })
        }),
        v.dispatched(adm, false) == (BackendView {
            outbox: and_wake(v.outbox, adm.sync_notifier),
            ..v
        }),
{
    assert(v.dispatched(adm, true).entries.remove(adm.key) =~= v.entries.remove(adm.key));
}

/// An artifact that could not be loaded is taken for one that is not there, and the key is compiled
/// if it is hot. Nothing else changes.
pub proof fn law_failed_loads_lead_on(
    v: BackendView,
    adm: Admission,
    stored: StoredArtifact,
    victims: Seq<RuntimeCacheKey>,
    started: Moment,
    finished: Moment,
)
    requires
        v.awaits(adm),
    ensures
        ({
            let (w, next) = v.loaded(adm, stored, victims, None, started, finished);
            &&& compiled_if_hot(v, w, adm, v.entries[adm.key].hotness, next)
            &&& w == (BackendView { entries: w.entries, outbox: w.outbox, ..v })
            &&& w.entries.contains_key(adm.key)
            &&& w.entries.remove(adm.key) == v.entries.remove(adm.key)
            &&& w.entries[adm.key] == (EntryView {
                persisted_aot: PersistedAotState::Absent,
                ..v.entries[adm.key]
            })
        }),
{
    let w = v.loaded(adm, stored, victims, None, started, finished).0;
    assert(w.entries.remove(adm.key) =~= v.entries.remove(adm.key));
}

/// A result changes no program and no entry but that of its key, whose waiters are handed on. A
/// failure, or a library without a store, is given up: the key is no longer tracked, and the failure
/// is counted. Any other current result leaves the entry otherwise as it is, and counts nothing yet.
#[verifier::rlimit(50)]
pub proof fn law_results_touch_their_key(v: BackendView, result: WorkerResult)
    requires
        v.inv(),
    ensures
        ({
            let w = v.received(result);
            let key = result.key;
            let known_before = v.entries.contains_key(key);
            let given_up = result.outcome == WorkerOutcome::Failed || (result.outcome is Aot
                && !v.has_store);
            &&& w == (BackendView {
                entries: w.entries,
                observed_entries: w.observed_entries,
                pending_jobs: w.pending_jobs,
                stats: w.stats,
                outbox: w.outbox,
                ..v
            })
            &&& w.entries.remove(key) == v.entries.remove(key)
            &&& result.generation == v.generation && given_up ==> {
                &&& !w.entries.contains_key(key)
                &&& w.stats == (BackendStats {
                    compilations_failed: v.stats.compilations_failed.wrapping_add(1),
                    ..v.stats
                })
            }
            &&& result.generation == v.generation && !given_up ==> {
                &&& w.entries.contains_key(key) <==> known_before
                &&& known_before ==> w.entries[key] == (EntryView {
                    pending_notifiers: Seq::empty(),
                    ..v.entries[key]
                })
                &&& w.stats == v.stats
                &&& w.observed_entries == v.observed_entries
            }
        }),
{
    let key = result.key;
    let waiters = v.waiters(key, result.sync_notifier);
    let returned = v.returned(key);
    lemma_notify_all_frame(returned.remove_entry(key), waiters);
    lemma_notify_all_frame(
        returned.effect(compiled(result)).give_up(key),
        waiters,
    );
    assert(v.received(result).entries.remove(key) =~= v.entries.remove(key));
}

/// An object that could not be linked, and a library that could not be stored or read back, is given
/// up: its key is no longer tracked, the failure is counted, and no program and no other entry
/// changes.
pub proof fn law_lost_results_are_given_up(
    v: BackendView,
    key: RuntimeCacheKey,
    waiters: Seq<SyncNotifier>,
    mode: AdmitMode,
    answer: ProbeResult,
    now: Moment,
)
    ensures
        is_given_up(v, v.linked(key, waiters, None, now), key),
        is_given_up(v, v.give_up(key).notify_all(waiters), key),
        !(answer is Found) ==> {
            &&& is_given_up(v, v.reloaded(key, waiters, mode, answer, now).0, key)
            &&& v.reloaded(key, waiters, mode, answer, now).1 is None
        },
{
    lemma_notify_all_frame(v.give_up(key), waiters);
    let w = v.give_up(key).notify_all(waiters);
    assert(w.entries.remove(key) =~= v.entries.remove(key));
}

/// Whether `w` is `v` with a key given up.
pub open spec fn is_given_up(v: BackendView, w: BackendView, key: RuntimeCacheKey) -> bool {
    &&& !w.entries.contains_key(key)
    &&& w.entries.remove(key) == v.entries.remove(key)
    &&& w == (BackendView {
        entries: w.entries,
        observed_entries: w.observed_entries,
        stats: BackendStats {
            compilations_failed: v.stats.compilations_failed.wrapping_add(1),
            ..v.stats
        },
        outbox: w.outbox,
        ..v
    })
}

/// A library that was read back makes its key cold again and known. It is loaded, put off, or known
/// to be over budget, as it is judged without the limiter; where it is not loaded the compilation
/// counts as a success all the same. Where loading it fails, the key is taken for one without an
/// artifact, and the compilation counts as a failure. No program and no other entry changes.
#[verifier::rlimit(50)]
pub proof fn law_libraries_read_back_are_judged(
    v: BackendView,
    key: RuntimeCacheKey,
    waiters: Seq<SyncNotifier>,
    mode: AdmitMode,
    stored: StoredArtifact,
    victims: Seq<RuntimeCacheKey>,
    now: Moment,
)
    requires
        v.entries.contains_key(key),
    ensures
        ({
            let (w, order) = v.reloaded(key, waiters, mode, ProbeResult::Found(stored), now);
            let (judged, verdict) = v.judge_stored(stored.manifest.artifact_len, mode, now, false);
            let new = w.entries[key];
            &&& w == (BackendView { entries: w.entries, stats: w.stats, outbox: w.outbox, ..v })
            &&& w.entries.contains_key(key)
            &&& w.entries.remove(key) == v.entries.remove(key)
            &&& new == (EntryView {
                phase: EntryPhase::Cold,
                persisted_aot: if verdict is Oversized {
                    PersistedAotState::Oversized
                } else {
                    PersistedAotState::Ready(stored)
                },
                ..v.entries[key]
            })
            &&& match verdict {
                VerdictView::Load(keys) => {
                    &&& order == Some((stored, keys))
                    &&& w.stats == v.stats
                    &&& w.outbox == v.outbox
                },
                _ => {
                    &&& order is None
                    &&& w.stats == (BackendStats {
                        compilations_succeeded: v.stats.compilations_succeeded.wrapping_add(1),
                        ..judged.stats
                    })
                },
            }
        }),
        ({
            let w = v.artifact_loaded(key, waiters, stored, victims, None, now);
            &&& w == (BackendView {
                entries: w.entries,
                stats: BackendStats {
                    compilations_failed: v.stats.compilations_failed.wrapping_add(1),
                    ..v.stats
                },
                outbox: w.outbox,
                ..v
            })
            &&& w.entries.remove(key) == v.entries.remove(key)
            &&& w.entries.contains_key(key)
            &&& w.entries[key] == (EntryView {
                persisted_aot: PersistedAotState::Absent,
                ..v.entries[key]
            })
        }),
{
    let (judged, verdict) = v.read_back(key, stored).judge_stored(
        stored.manifest.artifact_len,
        mode,
        now,
        false,
    );
    lemma_notify_all_frame(
        judged.note_persisted(key, PersistedAotState::Oversized).count_success(),
        waiters,
    );
    lemma_notify_all_frame(judged.count_success(), waiters);
    let failed = v.note_persisted(key, PersistedAotState::Absent).count_failure();
    lemma_notify_all_frame(failed, waiters);
    let w = v.reloaded(key, waiters, mode, ProbeResult::Found(stored), now).0;
    assert(w.entries.remove(key) =~= v.entries.remove(key));
    assert(failed.entries.remove(key) =~= v.entries.remove(key));
}

/// A library whose key is no longer tracked is judged the same, and no entry comes of it.
pub proof fn law_libraries_of_forgotten_keys_are_judged(
    v: BackendView,
    key: RuntimeCacheKey,
    waiters: Seq<SyncNotifier>,
    mode: AdmitMode,
    stored: StoredArtifact,
    victims: Seq<RuntimeCacheKey>,
    now: Moment,
)
    requires
        !v.entries.contains_key(key),
    ensures
        ({
            let (w, order) = v.reloaded(key, waiters, mode, ProbeResult::Found(stored), now);
            let (judged, verdict) = v.judge_stored(stored.manifest.artifact_len, mode, now, false);
            &&& w == (BackendView { stats: w.stats, outbox: w.outbox, ..v })
            &&& match verdict {
                VerdictView::Load(keys) => order == Some((stored, keys)) && w.stats == v.stats,
                _ => {
                    &&& order is None
                    &&& w.stats == (BackendStats {
                        compilations_succeeded: v.stats.compilations_succeeded.wrapping_add(1),
                        ..judged.stats
                    })
                },
            }
        }),
        ({
            let w = v.artifact_loaded(key, waiters, stored, victims, None, now);
            w == (BackendView {
                stats: BackendStats {
                    compilations_failed: v.stats.compilations_failed.wrapping_add(1),
                    ..v.stats
                },
                outbox: w.outbox,
                ..v
            })
        }),
{
    let judged = v.judge_stored(stored.manifest.artifact_len, mode, now, false).0;
    lemma_notify_all_frame(judged.count_success(), waiters);
    lemma_notify_all_frame(v.count_failure(), waiters);
}

/// A request, or the answer of the store to one, cannot be taken in only where an observed miss in
/// AOT mode has an artifact to load and the interval that the load begins ends past what the clock
/// can count.
pub proof fn law_requests_are_taken_while_the_clock_counts(
    v: BackendView,
    adm: Admission,
    eligible: bool,
    answer: ProbeResult,
)
    ensures
        v.request_overruns(adm, eligible) || v.answer_overruns(adm, answer) ==> {
            &&& adm.mode == AdmitMode::Observed
            &&& adm.kind == CompilationKind::Aot
            &&& adm.now.nanos + v.tuning.persisted_aot_load_interval.nanos > u64::MAX
        },
        v.request_overruns(adm, eligible) ==> {
            &&& taken_in(v, adm, eligible)
            &&& v.entries.contains_key(adm.key)
            &&& v.entries[adm.key].phase == EntryPhase::Cold
            &&& v.entries[adm.key].persisted_aot is Ready
        },
        v.answer_overruns(adm, answer) ==> answer is Found,
{
}

/// Clearing the store is asked for where there is one, and changes nothing else.
pub proof fn law_store_is_cleared_where_there_is_one(v: BackendView)
    ensures
        v.has_store ==> v.clear_persisted() == (BackendView {
            outbox: v.outbox.push(Effect::ClearStore),
            ..v
        }),
        !v.has_store ==> v.clear_persisted() == v,
{
}

/// Clearing keeps the tuning, the counters, the time of the last sweep and the store; the jobs that
/// were handed out are cancelled and every program is dropped, before anybody is woken, and queued
/// lookups are thrown away last.
pub proof fn law_clear_keeps_the_rest(v: BackendView, after: BackendView)
    requires
        v.clears_to(after),
    ensures
        after.tuning == v.tuning,
        after.stats == v.stats,
        after.last_sweep == v.last_sweep,
        after.has_store == v.has_store,
        after.aot == v.aot,
        after.outbox.len() >= v.outbox.len() + 3,
        after.outbox[v.outbox.len() as int] == Effect::CancelInFlight,
        after.outbox[v.outbox.len() as int + 1] == Effect::ReleaseAllPrograms,
        after.outbox.last() == Effect::DiscardLookupEvents,
{
    let keys = choose|keys: Seq<RuntimeCacheKey>|
        #[trigger] v.lists_tracked(keys) && after == v.cleared(keys);
    lemma_wake_tracked_frame(v.emptied(), v.entries, keys);
    lemma_wake_tracked_continues(v.emptied(), v.entries, keys);
    let n = v.outbox.len() as int;
    let woken = v.emptied().wake_tracked(v.entries, keys);
    assert(woken.outbox[n] == v.emptied().outbox[n]);
    assert(woken.outbox[n + 1] == v.emptied().outbox[n + 1]);
}

/// A backend that is to use artifacts compiles to them, any other to JIT code. An explicit AOT
/// preparation asks for an artifact in any case, of its own key and bytecode, and nobody waits.
pub proof fn law_demand_is_for_the_backends_kind(request: PrepareAotRequest)
    ensures
        spec_demand_kind(true) == CompilationKind::Aot,
        spec_demand_kind(false) == CompilationKind::Jit,
        prepared(request).kind == CompilationKind::Aot,
        prepared(request).mode == AdmitMode::Explicit,
        prepared(request).key == request.key,
        prepared(request).bytecode == request.bytecode,
        prepared(request).sync_notifier.waiter is None,
{
}

/// A request goes under way as it is: with its own kind, key, notifier and mode.
pub proof fn law_requests_go_under_way_as_they_are(request: AdmitRequest, now: Moment)
    ensures
        request.at(now).kind == request.kind,
        request.at(now).key == request.key,
        request.at(now).sync_notifier == request.sync_notifier,
        request.at(now).mode == request.mode,
        request.at(now).now == now,
{
}

} // verus!
