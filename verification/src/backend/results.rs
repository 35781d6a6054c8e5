//! Results of compilations, from the worker to the table of resident programs.
//!
//! A result may need the outside before it is settled: an object is linked, a library is stored,
//! read back and loaded. As with requests, each method runs up to the next exchange.
use super::requests::{
    lemma_install_inv, lemma_set_persisted_inv, LoadOrder, ProbeResult, StoredVerdict, VerdictView,
};
use super::upkeep::{
    lemma_notify_all_frame, lemma_publish_inv, lemma_remove_entry_inv, lemma_track_inv,
};
use super::{
    BackendState, BackendStats, BackendView, CompilationEvent, Effect, EntryPhase, EntryView,
    PersistedAotState, ResidentMeta, SyncNotifier,
};
use crate::clock::{Duration, Moment};
use crate::config::{AdmitMode, CompilationKind, ProgramKind};
use crate::keys::RuntimeCacheKey;
use crate::linker::JitObjectSuccess;
use crate::storage::{
    describes, manifest_for, AotSuccess, ArtifactKey, ArtifactManifest, StoredArtifact,
};
use vstd::prelude::*;

verus! {

/// What a worker made of a job.
pub enum WorkerOutcome {
    /// Code in memory; the program is in this slot.
    Jit(u64),
    /// An object that is still to be linked.
    JitObject(JitObjectSuccess),
    /// A library.
    Aot(AotSuccess),
    /// The compilation failed.
    Failed,
}

/// The end of a job.
pub struct WorkerResult {
    pub kind: CompilationKind,
    pub key: RuntimeCacheKey,
    pub outcome: WorkerOutcome,
    pub sync_notifier: SyncNotifier,
    /// Generation in which the job was made.
    pub generation: u64,
    pub compile_duration: Duration,
    /// Name under which the caller keeps the timings of the compilation.
    pub timings: u64,
}

/// A result under way: its key, and who is to be woken once it is settled.
pub struct Settlement {
    pub key: RuntimeCacheKey,
    pub waiters: Vec<SyncNotifier>,
}

/// What a result needs next.
pub enum ResultStep {
    /// Nothing: the result is settled.
    Done,
    /// Report the compilation, then [`BackendState::link_finished`] with the slot of the program.
    Publish(Settlement, u64),
    /// Link the object, then [`BackendState::link_finished`].
    Link(Settlement, JitObjectSuccess),
    /// Store the library under the manifest, then [`BackendState::store_finished`].
    Store(Settlement, AdmitMode, ArtifactManifest, Vec<u8>),
    /// Read the artifact back, then [`BackendState::reload_finished`].
    Reload(Settlement, AdmitMode, ArtifactKey),
    /// Load the artifact, then [`BackendState::artifact_loaded`].
    Load(Settlement, LoadOrder),
}

/// The slot of a JIT program; the slot of nothing else is known at the end of a job.
pub open spec fn jit_slot(outcome: WorkerOutcome) -> Option<u64> {
    match outcome {
        WorkerOutcome::Jit(slot) => Some(slot),
        _ => None,
    }
}

impl BackendView {
    /// Who waits for the key, first the one who came with the job.
    pub open spec fn waiters(self, key: RuntimeCacheKey, first: SyncNotifier) -> Seq<SyncNotifier> {
        if self.entries.contains_key(key) {
            seq![first] + self.entries[key].pending_notifiers
        } else {
            seq![first]
        }
    }

    /// Whether nobody waits for the key on its entry any more.
    pub open spec fn settling(self, key: RuntimeCacheKey) -> bool {
        self.entries.contains_key(key) ==> self.entries[key].pending_notifiers.len() == 0
    }

    /// A job that came back: its key is no longer being compiled, if it still was, and nobody waits
    /// on its entry.
    pub open spec fn returned(self, key: RuntimeCacheKey) -> BackendView {
        let working = self.entries.contains_key(key) && self.entries[key].phase
            == EntryPhase::Working;
        let v = BackendView {
            pending_jobs: if working {
                self.pending_jobs.saturating_sub(1)
            } else {
                self.pending_jobs
            },
            ..self
        };
        if self.entries.contains_key(key) {
            v.put_entry(
                key,
                EntryView { pending_notifiers: Seq::empty(), ..self.entries[key] },
            )
        } else {
            v
        }
    }

    /// Counts a compilation that led to a usable result.
    pub open spec fn count_success(self) -> BackendView {
        let compilations_succeeded = self.stats.compilations_succeeded.wrapping_add(1);
        self.count(BackendStats { compilations_succeeded, ..self.stats })
    }

    /// Counts a compilation that did not.
    pub open spec fn count_failure(self) -> BackendView {
        let compilations_failed = self.stats.compilations_failed.wrapping_add(1);
        self.count(BackendStats { compilations_failed, ..self.stats })
    }

    /// Gives a key up: it is no longer tracked, and the compilation counts as failed.
    pub open spec fn give_up(self, key: RuntimeCacheKey) -> BackendView {
        self.remove_entry(key).count_failure()
    }

    /// Makes a JIT program resident.
    pub open spec fn publish_jit(self, key: RuntimeCacheKey, slot: u64, now: Moment) -> BackendView {
        self.insert_resident(
            key,
            slot,
            ResidentMeta { last_hit_at: now, kind: ProgramKind::Jit, artifact_len: 0 },
        ).remove_entry(key).count_success()
    }

    /// The mode in which the result of a key is admitted.
    pub open spec fn result_mode(self, key: RuntimeCacheKey) -> AdmitMode {
        if self.entries.contains_key(key) {
            self.entries[key].working_mode
        } else {
            AdmitMode::Explicit
        }
    }

    /// Sets what is known of the artifact of a key, where the key is tracked.
    pub open spec fn note_persisted(
        self,
        key: RuntimeCacheKey,
        persisted_aot: PersistedAotState,
    ) -> BackendView {
        if self.entries.contains_key(key) {
            self.set_persisted(key, persisted_aot)
        } else {
            self
        }
    }

    /// The state once a result came in, up to the first exchange with the outside.
    ///
    /// A result of an earlier generation is thrown away: its program is dropped, and nothing
    /// becomes resident. Any other is reported before its program becomes resident.
    pub open spec fn received(self, result: WorkerResult) -> BackendView {
        let waiters = self.waiters(result.key, result.sync_notifier);
        let v = self.returned(result.key);
        if result.generation != self.generation {
            let w = v.remove_entry(result.key).notify_all(waiters);
            match jit_slot(result.outcome) {
                Some(slot) => w.effect(Effect::ReleaseProgram(slot)),
                None => w,
            }
        } else {
            let w = v.effect(
                Effect::Compilation(
                    CompilationEvent {
                        code_hash: result.key.code_hash,
                        spec_id: result.key.spec_id,
                        duration: result.compile_duration,
                        kind: result.kind,
                        success: !(result.outcome is Failed),
                        timings: result.timings,
                    },
                ),
            );
            match result.outcome {
                WorkerOutcome::Jit(_) => w,
                WorkerOutcome::JitObject(_) => w,
                WorkerOutcome::Aot(_) => if self.has_store {
                    w
                } else {
                    w.give_up(result.key).notify_all(waiters)
                },
                WorkerOutcome::Failed => w.give_up(result.key).notify_all(waiters),
            }
        }
    }

    /// The state once JIT code was reported, or an object was linked into a slot, or was not.
    pub open spec fn linked(
        self,
        key: RuntimeCacheKey,
        waiters: Seq<SyncNotifier>,
        slot: Option<u64>,
        now: Moment,
    ) -> BackendView {
        match slot {
            Some(slot) => self.publish_jit(key, slot, now),
            None => self.give_up(key),
        }.notify_all(waiters)
    }

    /// The state once an artifact was read back: the key is cold again, and knows its artifact.
    pub open spec fn read_back(self, key: RuntimeCacheKey, stored: StoredArtifact) -> BackendView {
        if self.entries.contains_key(key) {
            self.put_entry(
                key,
                EntryView {
                    phase: EntryPhase::Cold,
                    persisted_aot: PersistedAotState::Ready(stored),
                    ..self.entries[key]
                },
            )
        } else {
            self
        }
    }

    /// The state, and what is to be loaded, once the store was asked for an artifact just stored.
    pub open spec fn reloaded(
        self,
        key: RuntimeCacheKey,
        waiters: Seq<SyncNotifier>,
        mode: AdmitMode,
        answer: ProbeResult,
        now: Moment,
    ) -> (BackendView, Option<(StoredArtifact, Seq<RuntimeCacheKey>)>) {
        match answer {
            ProbeResult::Found(stored) => {
                let (v, verdict) = self.read_back(key, stored).judge_stored(
                    stored.manifest.artifact_len,
                    mode,
                    now,
                    false,
                );
                match verdict {
                    VerdictView::Oversized => (
                        v.note_persisted(
                            key,
                            PersistedAotState::Oversized,
                        ).count_success().notify_all(waiters),
                        None,
                    ),
                    VerdictView::Deferred => (v.count_success().notify_all(waiters), None),
                    VerdictView::Load(victims) => (v, Some((stored, victims))),
                }
            },
            _ => (self.give_up(key).notify_all(waiters), None),
        }
    }

    /// The state once an artifact just compiled was loaded into a slot, or was not.
    pub open spec fn artifact_loaded(
        self,
        key: RuntimeCacheKey,
        waiters: Seq<SyncNotifier>,
        stored: StoredArtifact,
        victims: Seq<RuntimeCacheKey>,
        slot: Option<u64>,
        now: Moment,
    ) -> BackendView {
        match slot {
            Some(slot) => self.install_stored(
                key,
                stored.manifest.artifact_len,
                victims,
                slot,
                now,
            ).remove_entry(key).count_success(),
            None => self.note_persisted(key, PersistedAotState::Absent).count_failure(),
        }.notify_all(waiters)
    }
}

impl ResultStep {
    /// Whether this is what the result needs after [`BackendView::received`], from state `v`.
    pub open spec fn follows(
        &self,
        v: BackendView,
        result: WorkerResult,
        created_at: Option<u64>,
    ) -> bool {
        if result.generation != v.generation {
            self is Done
        } else {
            match result.outcome {
                WorkerOutcome::Failed => self is Done,
                WorkerOutcome::Jit(slot) => match *self {
                    ResultStep::Publish(settlement, s) => settlement.key == result.key
                        && settlement.waiters@ == v.waiters(result.key, result.sync_notifier) && s
                        == slot,
                    _ => false,
                },
                WorkerOutcome::JitObject(object) => match *self {
                    ResultStep::Link(settlement, o) => settlement.key == result.key
                        && settlement.waiters@ == v.waiters(result.key, result.sync_notifier) && o
                        == object,
                    _ => false,
                },
                WorkerOutcome::Aot(success) => match *self {
                    ResultStep::Done => !v.has_store,
                    ResultStep::Store(settlement, mode, manifest, dylib_bytes) => v.has_store
                        && settlement.key == result.key && settlement.waiters@ == v.waiters(
                        result.key,
                        result.sync_notifier,
                    ) && mode == v.result_mode(result.key) && describes(
                        manifest,
                        v.artifact_key(result.key),
                        success,
                        created_at,
                    ) && dylib_bytes@ == success.dylib_bytes@,
                    _ => false,
                },
            }
        }
    }
}

/// A job that came back keeps the invariant.
pub proof fn lemma_returned_inv(v: BackendView, key: RuntimeCacheKey)
    requires
        v.inv(),
    ensures
        v.returned(key).inv(),
        v.returned(key).settling(key),
{
    if v.entries.contains_key(key) {
        lemma_track_inv(
            v,
            key,
            EntryView { pending_notifiers: Seq::empty(), ..v.entries[key] },
            v.observed_entries,
        );
    }
}

/// Reading an artifact back keeps the invariant.
pub proof fn lemma_read_back_inv(v: BackendView, key: RuntimeCacheKey, stored: StoredArtifact)
    requires
        v.inv(),
        v.settling(key),
    ensures
        v.read_back(key, stored).inv(),
        v.read_back(key, stored).settling(key),
{
    if v.entries.contains_key(key) {
        lemma_track_inv(
            v,
            key,
            EntryView {
                phase: EntryPhase::Cold,
                persisted_aot: PersistedAotState::Ready(stored),
                ..v.entries[key]
            },
            v.observed_entries,
        );
    }
}

impl BackendState {
    /// Wakes several waiters in order.
    pub(super) fn notify_all(&mut self, notifiers: &Vec<SyncNotifier>)
        requires
            old(self).wf(),
        ensures
            final(self).wf(),
            final(self)@ == old(self)@.notify_all(notifiers@),
    {
        assert(notifiers@.take(0) =~= Seq::<SyncNotifier>::empty());
        for i in 0..notifiers.len()
            invariant
                self.wf(),
                self@ == old(self)@.notify_all(notifiers@.take(i as int)),
        {
            proof {
                assert(notifiers@.take(i + 1).drop_last() =~= notifiers@.take(i as int));
            }
            self.notify(notifiers[i]);
        }
        assert(notifiers@.take(notifiers@.len() as int) =~= notifiers@);
    }

    /// Gives a key up.
    fn give_up(&mut self, key: &RuntimeCacheKey)
        requires
            old(self).wf(),
        ensures
            final(self).wf(),
            final(self)@ == old(self)@.give_up(*key),
    {
        self.remove_entry(key);
        self.stats.compilations_failed = self.stats.compilations_failed.wrapping_add(1);
    }

    /// Makes a JIT program resident.
    fn publish_jit(&mut self, key: RuntimeCacheKey, slot: u64, now: Moment)
        requires
            old(self).inv(),
        ensures
            final(self).inv(),
            final(self)@ == old(self)@.publish_jit(key, slot, now),
    {
        let ghost before = self@;
        let meta = ResidentMeta { last_hit_at: now, kind: ProgramKind::Jit, artifact_len: 0 };
        self.insert_resident(key, slot, meta);
        proof {
            lemma_publish_inv(before, key, slot, meta);
        }
        self.remove_entry(&key);
        self.stats.compilations_succeeded = self.stats.compilations_succeeded.wrapping_add(1);
    }

    /// Takes a returned job off the books and gathers who waits for it.
    fn take_back(&mut self, key: RuntimeCacheKey, first: SyncNotifier) -> (waiters: Vec<
        SyncNotifier,
    >)
        requires
            old(self).wf(),
        ensures
            final(self).wf(),
            final(self)@ == old(self)@.returned(key),
            waiters@ == old(self)@.waiters(key, first),
    {
        let mut waiters: Vec<SyncNotifier> = Vec::new();
        waiters.push(first);
        if let Some(mut entry) = self.entries.remove(&key) {
            if entry.phase == EntryPhase::Working {
                self.pending_jobs = self.pending_jobs.saturating_sub(1);
            }
            let mut pending: Vec<SyncNotifier> = Vec::new();
            std::mem::swap(&mut entry.pending_notifiers, &mut pending);
            waiters.append(&mut pending);
            self.entries.insert(key, entry);
        }
        assert(self@.entries =~= old(self)@.returned(key).entries);
        assert(waiters@ =~= old(self)@.waiters(key, first));
        waiters
    }

    /// Takes in the end of a job.
    ///
    /// `created_at` is the Unix time of the result, where the clock is past the epoch.
    pub fn handle_worker_result(
        &mut self,
        result: WorkerResult,
        created_at: Option<u64>,
    ) -> (step: ResultStep)
        requires
            old(self).inv(),
        ensures
            final(self).inv(),
            final(self)@ == old(self)@.received(result),
            step.follows(old(self)@, result, created_at),
            final(self)@.settling(result.key),
    {
        let ghost before = self@;
        let key = result.key;
        let waiters = self.take_back(key, result.sync_notifier);
        proof {
            lemma_returned_inv(before, key);
            lemma_remove_entry_inv(before.returned(key), key);
            lemma_notify_all_frame(before.returned(key).remove_entry(key), waiters@);
        }
        if result.generation != self.generation {
            self.remove_entry(&key);
            self.notify_all(&waiters);
            if let WorkerOutcome::Jit(slot) = result.outcome {
                self.outbox.push(Effect::ReleaseProgram(slot));
            }
            return ResultStep::Done;
        }
        let success = !matches!(result.outcome, WorkerOutcome::Failed);
        self.outbox.push(
            Effect::Compilation(
                CompilationEvent {
                    code_hash: key.code_hash,
                    spec_id: key.spec_id,
                    duration: result.compile_duration,
                    kind: result.kind,
                    success,
                    timings: result.timings,
                },
            ),
        );
        let ghost reported = self@;
        proof {
            lemma_remove_entry_inv(reported, key);
            lemma_notify_all_frame(reported.give_up(key), waiters@);
        }
        match result.outcome {
            WorkerOutcome::Jit(slot) => ResultStep::Publish(Settlement { key, waiters }, slot),
            WorkerOutcome::JitObject(object) => ResultStep::Link(
                Settlement { key, waiters },
                object,
            ),
            WorkerOutcome::Aot(success) => {
                if !self.has_store {
                    self.give_up(&key);
                    self.notify_all(&waiters);
                    return ResultStep::Done;
                }
                let mode = match self.entries.get(&key) {
                    Some(entry) => entry.working_mode,
                    None => AdmitMode::Explicit,
                };
                let manifest = manifest_for(self.artifact_key(key), &success, created_at);
                ResultStep::Store(
                    Settlement { key, waiters },
                    mode,
                    manifest,
                    success.dylib_bytes,
                )
            },
            WorkerOutcome::Failed => {
                self.give_up(&key);
                self.notify_all(&waiters);
                ResultStep::Done
            },
        }
    }

    /// Takes in a JIT program that was reported, or the outcome of a link: the slot of the program,
    /// or nothing where it failed.
    pub fn link_finished(&mut self, settlement: Settlement, slot: Option<u64>, now: Moment)
        requires
            old(self).inv(),
        ensures
            final(self).inv(),
            final(self)@ == old(self)@.linked(settlement.key, settlement.waiters@, slot, now),
    {
        proof {
            lemma_remove_entry_inv(self@, settlement.key);
        }
        match slot {
            Some(slot) => self.publish_jit(settlement.key, slot, now),
            None => self.give_up(&settlement.key),
        }
        proof {
            lemma_notify_all_frame(self@, settlement.waiters@);
        }
        self.notify_all(&settlement.waiters);
    }

    /// Takes in whether a library was stored.
    pub fn store_finished(
        &mut self,
        settlement: Settlement,
        mode: AdmitMode,
        stored: bool,
    ) -> (step: ResultStep)
        requires
            old(self).inv(),
            old(self)@.settling(settlement.key),
        ensures
            final(self).inv(),
            final(self)@.settling(settlement.key),
            match step {
                ResultStep::Reload(s, m, artifact_key) => stored && s == settlement && m == mode
                    && artifact_key == old(self)@.artifact_key(settlement.key) && final(self)@
                    == old(self)@,
                ResultStep::Done => !stored && final(self)@ == old(self)@.give_up(
                    settlement.key,
                ).notify_all(settlement.waiters@),
                _ => false,
            },
    {
        if stored {
            let artifact_key = self.artifact_key(settlement.key);
            return ResultStep::Reload(settlement, mode, artifact_key);
        }
        proof {
            lemma_remove_entry_inv(self@, settlement.key);
            lemma_notify_all_frame(self@.give_up(settlement.key), settlement.waiters@);
        }
        self.give_up(&settlement.key);
        self.notify_all(&settlement.waiters);
        ResultStep::Done
    }

    /// Takes in the answer of the store to the question for an artifact just stored.
    ///
    /// The artifact stays in the store whatever the budgets say of loading it.
    pub fn reload_finished(
        &mut self,
        settlement: Settlement,
        mode: AdmitMode,
        answer: ProbeResult,
        now: Moment,
    ) -> (step: ResultStep)
        requires
            old(self).inv(),
            old(self)@.settling(settlement.key),
        ensures
            final(self).inv(),
            final(self)@.settling(settlement.key),
            final(self)@ == old(self)@.reloaded(
                settlement.key,
                settlement.waiters@,
                mode,
                answer,
                now,
            ).0,
            match step {
                ResultStep::Load(s, order) => s == settlement && old(self)@.reloaded(
                    settlement.key,
                    settlement.waiters@,
                    mode,
                    answer,
                    now,
                ).1 == Some((order.stored, order.victims@)),
                ResultStep::Done => old(self)@.reloaded(
                    settlement.key,
                    settlement.waiters@,
                    mode,
                    answer,
                    now,
                ).1 is None,
                _ => false,
            },
    {
        let ghost before = self@;
        let key = settlement.key;
        let stored = match answer {
            ProbeResult::Found(stored) => stored,
            _ => {
                proof {
                    lemma_remove_entry_inv(before, key);
                    lemma_notify_all_frame(before.give_up(key), settlement.waiters@);
                }
                self.give_up(&key);
                self.notify_all(&settlement.waiters);
                return ResultStep::Done;
            },
        };
        if let Some(mut entry) = self.entries.remove(&key) {
            entry.phase = EntryPhase::Cold;
            entry.persisted_aot = PersistedAotState::Ready(stored.duplicate());
            self.entries.insert(key, entry);
        }
        assert(self@.entries =~= before.read_back(key, stored).entries);
        proof {
            lemma_read_back_inv(before, key, stored);
        }
        match self.try_admit_stored_aot(stored.manifest.artifact_len, mode, now, false) {
            StoredVerdict::Oversized => {
                if self.entries.contains_key(&key) {
                    proof {
                        lemma_set_persisted_inv(self@, key, PersistedAotState::Oversized);
                    }
                    self.set_persisted(&key, PersistedAotState::Oversized);
                }
                self.stats.compilations_succeeded =
                self.stats.compilations_succeeded.wrapping_add(1);
                proof {
                    lemma_notify_all_frame(self@, settlement.waiters@);
                }
                self.notify_all(&settlement.waiters);
                ResultStep::Done
            },
            StoredVerdict::Deferred => {
                // The artifact is known to be there, and is tried again on a later miss.
                self.stats.compilations_succeeded =
                self.stats.compilations_succeeded.wrapping_add(1);
                proof {
                    lemma_notify_all_frame(self@, settlement.waiters@);
                }
                self.notify_all(&settlement.waiters);
                ResultStep::Done
            },
            StoredVerdict::Load(victims) => ResultStep::Load(
                settlement,
                LoadOrder { stored, victims },
            ),
        }
    }

    /// Takes in the outcome of loading an artifact just compiled: the slot of the program, or
    /// nothing where it failed.
    pub fn artifact_loaded(
        &mut self,
        settlement: Settlement,
        order: LoadOrder,
        slot: Option<u64>,
        now: Moment,
    )
        requires
            old(self).inv(),
        ensures
            final(self).inv(),
            final(self)@ == old(self)@.artifact_loaded(
                settlement.key,
                settlement.waiters@,
                order.stored,
                order.victims@,
                slot,
                now,
            ),
    {
        let ghost before = self@;
        let key = settlement.key;
        match slot {
            Some(slot) => {
                let artifact_len = order.stored.manifest.artifact_len;
                self.install_stored(key, artifact_len, &order.victims, slot, now);
                proof {
                    lemma_install_inv(before, key, artifact_len, order.victims@, slot, now);
                }
                self.remove_entry(&key);
                self.stats.compilations_succeeded =
                self.stats.compilations_succeeded.wrapping_add(1);
            },
            None => {
                if self.entries.contains_key(&key) {
                    proof {
                        lemma_set_persisted_inv(before, key, PersistedAotState::Absent);
                    }
                    self.set_persisted(&key, PersistedAotState::Absent);
                }
                self.stats.compilations_failed = self.stats.compilations_failed.wrapping_add(1);
            },
        }
        proof {
            lemma_notify_all_frame(self@, settlement.waiters@);
        }
        self.notify_all(&settlement.waiters);
    }
}

} // verus!
