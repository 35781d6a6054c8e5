//! Admission: from a request for a key to a load, a compilation, or nothing.
//!
//! A request goes through up to three exchanges with the outside: the artifact store is asked, a
//! library is loaded, a job is handed to a worker. [`BackendState::try_admit`] runs up to the
//! first of them and says which it is; the caller does it and hands the outcome to
//! [`BackendState::probe_finished`], [`BackendState::load_finished`] or
//! [`BackendState::dispatch_finished`], which run up to the next.
use super::upkeep::{
    lemma_listings_agree, lemma_publish_inv, lemma_push_contains, lemma_remove_entry_inv,
    lemma_remove_resident_inv, lemma_take_contains, lemma_track_inv,
};
use super::{
    is_row, lists, rows_of, BackendState, BackendStats, BackendView, EntryPhase, EntryState,
    EntryView, PersistedAotState, ResidentMeta, SyncNotifier,
};
use crate::admission::{
    law_plan_is_deterministic, oversized, plan_aot_admission, planned_victims, AotAdmissionPlan,
    AotResident,
};
use crate::bytecode::{byte_contents, share};
use crate::clock::Moment;
use crate::config::{AdmitMode, CompilationKind, OptimizationLevel, ProgramKind};
use crate::keys::{spec_symbol_name, symbol_name, RuntimeCacheKey};
use crate::storage::{ArtifactKey, StoredArtifact};
use alloy_primitives::Bytes;
use vstd::prelude::*;

verus! {

/// A request to make a key resident.
pub struct AdmitRequest {
    pub kind: CompilationKind,
    pub key: RuntimeCacheKey,
    pub bytecode: Bytes,
    pub sync_notifier: SyncNotifier,
    pub mode: AdmitMode,
}

/// A request under way.
#[derive(Clone, Copy, Debug, PartialEq, Eq, Structural)]
pub struct Admission {
    pub kind: CompilationKind,
    pub key: RuntimeCacheKey,
    pub sync_notifier: SyncNotifier,
    pub mode: AdmitMode,
    /// When the request came.
    pub now: Moment,
}

/// An order to load an artifact.
pub struct LoadOrder {
    pub stored: StoredArtifact,
    /// Programs that make room for it, once it is loaded.
    pub victims: Vec<RuntimeCacheKey>,
}

/// A compilation for a worker.
pub struct CompileJob {
    pub kind: CompilationKind,
    pub key: RuntimeCacheKey,
    pub bytecode: Bytes,
    pub symbol_name: String,
    pub opt_level: OptimizationLevel,
    pub sync_notifier: SyncNotifier,
    /// Generation in which the job was made.
    pub generation: u64,
}

/// What an admission needs next.
pub enum AdmitStep {
    /// Nothing: the request is settled, or waits for a compilation in flight.
    Done,
    /// Ask the store for an artifact, then [`BackendState::probe_finished`].
    Probe(Admission, ArtifactKey),
    /// Load an artifact, then [`BackendState::load_finished`].
    Load(Admission, LoadOrder),
    /// Hand the job to a worker, then [`BackendState::dispatch_finished`].
    Dispatch(Admission, CompileJob),
}

/// Answer of the artifact store.
pub enum ProbeResult {
    Found(StoredArtifact),
    Missing,
    /// The store could not answer.
    Failed,
}

/// The mathematical model of [`AdmitStep`].
pub enum NextStep {
    Done,
    Probe,
    Load(StoredArtifact, Seq<RuntimeCacheKey>),
    Dispatch,
}

/// The verdict of the AOT budgets and the load limiter.
pub enum StoredVerdict {
    Oversized,
    Deferred,
    Load(Vec<RuntimeCacheKey>),
}

/// The mathematical model of [`StoredVerdict`].
pub enum VerdictView {
    Oversized,
    Deferred,
    Load(Seq<RuntimeCacheKey>),
}

impl StoredVerdict {
    /// The model of the verdict.
    pub open spec fn view(&self) -> VerdictView {
        match self {
            StoredVerdict::Oversized => VerdictView::Oversized,
            StoredVerdict::Deferred => VerdictView::Deferred,
            StoredVerdict::Load(victims) => VerdictView::Load(victims@),
        }
    }
}

/// What symbols of a kind of compilation begin with.
pub open spec fn spec_symbol_prefix(kind: CompilationKind) -> Seq<char> {
    match kind {
        CompilationKind::Jit => "jit"@,
        CompilationKind::Aot => "aot"@,
    }
}

impl CompileJob {
    /// Whether this is the job that compiles the key of `adm` in state `v`.
    pub open spec fn compiles(&self, v: BackendView, adm: Admission) -> bool {
        &&& self.kind == adm.kind
        &&& self.key == adm.key
        &&& byte_contents(self.bytecode) == v.entries[adm.key].bytecode
        &&& self.symbol_name@ == spec_symbol_name(spec_symbol_prefix(adm.kind), adm.key)
        &&& self.opt_level == match adm.kind {
            CompilationKind::Jit => v.tuning.jit_opt_level,
            CompilationKind::Aot => v.tuning.aot_opt_level,
        }
        &&& self.sync_notifier == adm.sync_notifier
        &&& self.generation == v.generation
    }
}

impl AdmitStep {
    /// Whether this is the step `next` of the admission `adm`, which left the state at `v`.
    pub open spec fn is(&self, v: BackendView, adm: Admission, next: NextStep) -> bool {
        match *self {
            AdmitStep::Done => next == NextStep::Done,
            AdmitStep::Probe(a, artifact_key) => {
                &&& next == NextStep::Probe
                &&& a == adm
                &&& artifact_key == v.artifact_key(adm.key)
            },
            AdmitStep::Load(a, order) => {
                &&& next == NextStep::Load(order.stored, order.victims@)
                &&& a == adm
            },
            AdmitStep::Dispatch(a, job) => {
                &&& next == NextStep::Dispatch
                &&& a == adm
                &&& job.compiles(v, adm)
            },
        }
    }
}

impl BackendView {
    /// Whether an observed miss of the key needs a slot and there is none.
    pub open spec fn lacks_slot(self, key: RuntimeCacheKey) -> bool {
        &&& !(self.entries.contains_key(key) && self.entries[key].observed)
        &&& self.tuning.max_observed_entries == 0 || self.observed_entries
            >= self.tuning.max_observed_entries
    }

    /// The entry of the key once the request is seen: the one that is tracked, or a cold one.
    pub open spec fn seen_entry(self, adm: Admission, bytecode: Seq<u8>) -> EntryView {
        let entry = if self.entries.contains_key(adm.key) {
            self.entries[adm.key]
        } else {
            EntryView {
                hotness: 0,
                phase: EntryPhase::Cold,
                bytecode,
                last_observed_at: adm.now,
                pending_notifiers: Seq::empty(),
                persisted_aot: PersistedAotState::Unprobed,
                observed: false,
                working_mode: adm.mode,
            }
        };
        EntryView {
            observed: entry.observed || adm.mode == AdmitMode::Observed,
            last_observed_at: adm.now,
            ..entry
        }
    }

    /// Tracks the key with the given entry, and counts the slot it takes.
    pub open spec fn track(self, key: RuntimeCacheKey, entry: EntryView) -> BackendView {
        BackendView {
            entries: self.entries.insert(key, entry),
            observed_entries: if entry.observed && !(self.entries.contains_key(key)
                && self.entries[key].observed) {
                (self.observed_entries + 1) as usize
            } else {
                self.observed_entries
            },
            ..self
        }
    }

    /// Sets what is known of the artifact of a tracked key.
    pub open spec fn set_persisted(
        self,
        key: RuntimeCacheKey,
        persisted_aot: PersistedAotState,
    ) -> BackendView {
        self.put_entry(key, EntryView { persisted_aot, ..self.entries[key] })
    }

    /// A request for a key, up to the first exchange with the outside.
    ///
    /// A resident key and bytecode that is not to be compiled settle the request at once. A key in
    /// flight makes it wait. Otherwise the key is tracked, and an observed miss makes it hotter.
    pub open spec fn request(self, adm: Admission, bytecode: Seq<u8>, eligible: bool) -> (
        BackendView,
        NextStep,
    ) {
        if self.published.contains_key(adm.key) || !eligible {
            (self.notify(adm.sync_notifier), NextStep::Done)
        } else if adm.mode == AdmitMode::Observed && self.lacks_slot(adm.key) {
            let observed_entry_rejections = self.stats.observed_entry_rejections.wrapping_add(1);
            (
                self.count(BackendStats { observed_entry_rejections, ..self.stats }),
                NextStep::Done,
            )
        } else {
            let seen = self.seen_entry(adm, bytecode);
            if seen.phase == EntryPhase::Working {
                let joined = EntryView {
                    working_mode: if adm.mode == AdmitMode::Explicit {
                        AdmitMode::Explicit
                    } else {
                        seen.working_mode
                    },
                    pending_notifiers: seen.pending_notifiers.push(adm.sync_notifier),
                    ..seen
                };
                (self.track(adm.key, joined), NextStep::Done)
            } else {
                let warmed = EntryView {
                    hotness: if adm.mode == AdmitMode::Observed {
                        seen.hotness.saturating_add(1)
                    } else {
                        seen.hotness
                    },
                    ..seen
                };
                let v = self.track(adm.key, warmed);
                let asks = adm.kind == CompilationKind::Aot && warmed.persisted_aot
                    == PersistedAotState::Unprobed && (adm.mode == AdmitMode::Explicit
                    || warmed.hotness >= self.tuning.persisted_aot_hot_threshold);
                if asks && self.has_store {
                    let persisted_aot_probes = v.stats.persisted_aot_probes.wrapping_add(1);
                    (v.count(BackendStats { persisted_aot_probes, ..v.stats }), NextStep::Probe)
                } else if asks {
                    v.set_persisted(adm.key, PersistedAotState::Absent).proceed(adm)
                } else {
                    v.proceed(adm)
                }
            }
        }
    }

    /// What is known of an artifact once the store answered.
    pub open spec fn probed(self, key: RuntimeCacheKey, answer: ProbeResult) -> BackendView {
        match answer {
            ProbeResult::Found(stored) => if oversized(self.tuning, stored.manifest.artifact_len) {
                let persisted_aot_oversized = self.stats.persisted_aot_oversized.wrapping_add(1);
                self.count(BackendStats { persisted_aot_oversized, ..self.stats }).set_persisted(
                    key,
                    PersistedAotState::Oversized,
                )
            } else {
                self.set_persisted(key, PersistedAotState::Ready(stored))
            },
            ProbeResult::Missing => {
                let persisted_aot_probe_misses = self.stats.persisted_aot_probe_misses.wrapping_add(
                    1,
                );
                self.count(BackendStats { persisted_aot_probe_misses, ..self.stats }).set_persisted(
                    key,
                    PersistedAotState::Absent,
                )
            },
            ProbeResult::Failed => self.set_persisted(key, PersistedAotState::Absent),
        }
    }

    /// The part of an admission that follows the question to the store.
    pub open spec fn proceed(self, adm: Admission) -> (BackendView, NextStep) {
        if adm.kind == CompilationKind::Jit {
            self.gate(adm)
        } else {
            match self.entries[adm.key].persisted_aot {
                PersistedAotState::Unprobed => (self, NextStep::Done),
                PersistedAotState::Absent => self.gate(adm),
                PersistedAotState::Oversized => (self.notify(adm.sync_notifier), NextStep::Done),
                PersistedAotState::Ready(stored) => {
                    let (v, verdict) = self.judge_stored(
                        stored.manifest.artifact_len,
                        adm.mode,
                        adm.now,
                        true,
                    );
                    match verdict {
                        VerdictView::Oversized => (
                            v.set_persisted(adm.key, PersistedAotState::Oversized).notify(
                                adm.sync_notifier,
                            ),
                            NextStep::Done,
                        ),
                        VerdictView::Deferred => (v.notify(adm.sync_notifier), NextStep::Done),
                        VerdictView::Load(victims) => (v, NextStep::Load(stored, victims)),
                    }
                },
            }
        }
    }

    /// The part of an admission that decides on a compilation.
    pub open spec fn gate(self, adm: Admission) -> (BackendView, NextStep) {
        if adm.mode == AdmitMode::Observed && self.entries[adm.key].hotness
            < self.tuning.jit_hot_threshold {
            (self, NextStep::Done)
        } else if self.pending_jobs >= self.tuning.jit_max_pending_jobs {
            (self.notify(adm.sync_notifier), NextStep::Done)
        } else {
            (self, NextStep::Dispatch)
        }
    }

    /// Whether an artifact of the given length may be loaded now, and what makes room for it.
    /// `persisted` tells an artifact that was found in the store from one just compiled: only the
    /// former is subject to the load limiter.
    pub open spec fn judge_stored(
        self,
        artifact_len: usize,
        mode: AdmitMode,
        now: Moment,
        persisted: bool,
    ) -> (BackendView, VerdictView) {
        if oversized(self.tuning, artifact_len) {
            let persisted_aot_oversized = self.stats.persisted_aot_oversized.wrapping_add(1);
            (
                self.count(BackendStats { persisted_aot_oversized, ..self.stats }),
                VerdictView::Oversized,
            )
        } else {
            match planned_victims(
                self.tuning,
                self.resident_aot_entries,
                self.resident_aot_bytes,
                artifact_len,
                now,
                mode,
                rows_of(self.resident, ProgramKind::Aot),
            ) {
                None => {
                    let persisted_aot_capacity_deferred =
                        self.stats.persisted_aot_capacity_deferred.wrapping_add(1);
                    (
                        self.count(BackendStats { persisted_aot_capacity_deferred, ..self.stats }),
                        VerdictView::Deferred,
                    )
                },
                Some(victims) => if persisted && mode == AdmitMode::Observed {
                    let interval = self.tuning.persisted_aot_load_interval;
                    let v = BackendView { limiter: self.limiter.after_attempt(now, interval), ..self };
                    if self.limiter.allows(now, interval) {
                        (v, VerdictView::Load(victims))
                    } else {
                        let persisted_aot_rate_limited =
                            v.stats.persisted_aot_rate_limited.wrapping_add(1);
                        (
                            v.count(BackendStats { persisted_aot_rate_limited, ..v.stats }),
                            VerdictView::Deferred,
                        )
                    }
                } else {
                    (self, VerdictView::Load(victims))
                },
            }
        }
    }

    /// Whether loading an artifact of the given length begins an interval between two loads: there
    /// is room for it, and the limiter is asked and lets it pass.
    pub open spec fn begins_interval(self, artifact_len: usize, mode: AdmitMode, now: Moment) -> bool {
        &&& mode == AdmitMode::Observed
        &&& !oversized(self.tuning, artifact_len)
        &&& planned_victims(
            self.tuning,
            self.resident_aot_entries,
            self.resident_aot_bytes,
            artifact_len,
            now,
            mode,
            rows_of(self.resident, ProgramKind::Aot),
        ) is Some
        &&& self.limiter.allows(now, self.tuning.persisted_aot_load_interval)
    }

    /// Whether loading an artifact of the given length begins an interval whose end is past what can
    /// be counted.
    pub open spec fn overruns(self, artifact_len: usize, mode: AdmitMode, now: Moment) -> bool {
        self.begins_interval(artifact_len, mode, now) && now.nanos
            + self.tuning.persisted_aot_load_interval.nanos > u64::MAX
    }

    /// Whether a request begins such an interval at once: its key is cold and its artifact is known.
    pub open spec fn request_overruns(self, adm: Admission, eligible: bool) -> bool {
        &&& !self.published.contains_key(adm.key)
        &&& eligible
        &&& !(adm.mode == AdmitMode::Observed && self.lacks_slot(adm.key))
        &&& adm.kind == CompilationKind::Aot
        &&& self.entries.contains_key(adm.key)
        &&& self.entries[adm.key].phase == EntryPhase::Cold
        &&& match self.entries[adm.key].persisted_aot {
            PersistedAotState::Ready(stored) => self.overruns(
                stored.manifest.artifact_len,
                adm.mode,
                adm.now,
            ),
            _ => false,
        }
    }

    /// Whether a request begins such an interval once the store answered.
    pub open spec fn answer_overruns(self, adm: Admission, answer: ProbeResult) -> bool {
        &&& adm.kind == CompilationKind::Aot
        &&& match answer {
            ProbeResult::Found(stored) => self.overruns(
                stored.manifest.artifact_len,
                adm.mode,
                adm.now,
            ),
            _ => false,
        }
    }

    /// Evicts a program to make room for an AOT program.
    pub open spec fn evict_for_aot(self, key: RuntimeCacheKey) -> BackendView {
        let v = self.remove_resident(key).remove_entry(key);
        let aot_evictions = v.stats.aot_evictions.wrapping_add(1);
        let evictions = v.stats.evictions.wrapping_add(1);
        v.count(BackendStats { aot_evictions, evictions, ..v.stats })
    }

    /// Evicts several programs in order.
    pub open spec fn evict_all_for_aot(self, keys: Seq<RuntimeCacheKey>) -> BackendView
        decreases keys.len(),
    {
        if keys.len() == 0 {
            self
        } else {
            self.evict_all_for_aot(keys.drop_last()).evict_for_aot(keys.last())
        }
    }

    /// Makes a loaded artifact resident: its victims go, the program comes in.
    pub open spec fn install_stored(
        self,
        key: RuntimeCacheKey,
        artifact_len: usize,
        victims: Seq<RuntimeCacheKey>,
        slot: u64,
        now: Moment,
    ) -> BackendView {
        self.evict_all_for_aot(victims).insert_resident(
            key,
            slot,
            ResidentMeta { last_hit_at: now, kind: ProgramKind::Aot, artifact_len },
        )
    }

    /// Reports the load of an artifact that was found in the store.
    pub open spec fn record_load(
        self,
        key: RuntimeCacheKey,
        mode: AdmitMode,
        load_ns: u64,
    ) -> BackendView {
        let v = self.record_artifact_usage(key, 1);
        if mode == AdmitMode::Observed {
            let persisted_aot_loads = v.stats.persisted_aot_loads.wrapping_add(1);
            let persisted_aot_load_ns = v.stats.persisted_aot_load_ns.wrapping_add(load_ns);
            v.count(BackendStats { persisted_aot_loads, persisted_aot_load_ns, ..v.stats })
        } else {
            v
        }
    }

    /// An admission whose artifact was loaded into a slot, or was not.
    pub open spec fn loaded(
        self,
        adm: Admission,
        stored: StoredArtifact,
        victims: Seq<RuntimeCacheKey>,
        slot: Option<u64>,
        started: Moment,
        finished: Moment,
    ) -> (BackendView, NextStep) {
        match slot {
            None => self.set_persisted(adm.key, PersistedAotState::Absent).gate(adm),
            Some(slot) => (
                self.install_stored(
                    adm.key,
                    stored.manifest.artifact_len,
                    victims,
                    slot,
                    finished,
                ).record_load(
                    adm.key,
                    adm.mode,
                    finished.nanos_since(started) as u64,
                ).remove_entry(adm.key).notify(adm.sync_notifier),
                NextStep::Done,
            ),
        }
    }

    /// An admission whose job was taken by a worker, or was not.
    pub open spec fn dispatched(self, adm: Admission, accepted: bool) -> BackendView {
        if accepted {
            let v = self.put_entry(
                adm.key,
                EntryView {
                    phase: EntryPhase::Working,
                    working_mode: adm.mode,
                    ..self.entries[adm.key]
                },
            );
            let compilations_dispatched = v.stats.compilations_dispatched.wrapping_add(1);
            BackendView { pending_jobs: (v.pending_jobs + 1) as usize, ..v }.count(
                BackendStats { compilations_dispatched, ..v.stats },
            )
        } else {
            self.notify(adm.sync_notifier)
        }
    }

    /// Whether the key of an admission is tracked and cold, as it is between the steps of it.
    pub open spec fn awaits(self, adm: Admission) -> bool {
        &&& self.entries.contains_key(adm.key)
        &&& self.entries[adm.key].phase == EntryPhase::Cold
    }
}

impl BackendState {
    /// The resident programs of a kind, in no particular order.
    pub(super) fn list_rows(&self, kind: ProgramKind) -> (rows: Vec<AotResident>)
        requires
            self.wf(),
        ensures
            lists(rows@, self@.resident, kind),
    {
        let keys = self.resident_meta.keys();
        let mut rows: Vec<AotResident> = Vec::new();
        let ghost resident = self@.resident;
        for i in 0..keys.len()
            invariant
                self.wf(),
                resident == self@.resident,
                keys@.no_duplicates(),
                keys@.to_set() == resident.dom(),
                rows@.no_duplicates(),
                forall|row: AotResident| #[trigger]
                    rows@.contains(row) <==> is_row(row, resident, kind) && keys@.take(
                        i as int,
                    ).contains(row.key),
        {
            let key = keys[i];
            let ghost before = rows@;
            let ghost prefix = keys@.take(i as int);
            assert(keys@.to_set().contains(key));
            assert(resident.contains_key(key));
            proof {
                lemma_take_contains(keys@, i as int);
            }
            if let Some(meta) = self.resident_meta.get(&key) {
                if meta.kind == kind {
                    let row = AotResident {
                        key,
                        last_hit_at: meta.last_hit_at,
                        artifact_len: meta.artifact_len,
                    };
                    proof {
                        assert(!before.contains(row));
                        lemma_push_contains(before, row);
                    }
                    rows.push(row);
                }
            }
            proof {
                assert forall|r: AotResident| #[trigger] rows@.contains(r) <==> is_row(
                    r,
                    resident,
                    kind,
                ) && keys@.take(i + 1).contains(r.key) by {
                    assert(before.contains(r) <==> is_row(r, resident, kind) && prefix.contains(
                        r.key,
                    ));
                }
            }
        }
        proof {
            assert(keys@.take(keys@.len() as int) =~= keys@);
            assert forall|row: AotResident| #[trigger] rows@.contains(row) <==> is_row(
                row,
                resident,
                kind,
            ) by {
                if is_row(row, resident, kind) {
                    assert(keys@.to_set().contains(row.key));
                }
            }
        }
        rows
    }

    /// Plans what makes room for an artifact of the given length.
    fn plan(&self, artifact_len: usize, mode: AdmitMode, now: Moment) -> (plan: AotAdmissionPlan)
        requires
            self.wf(),
        ensures
            ({
                let victims = planned_victims(
                    self@.tuning,
                    self@.resident_aot_entries,
                    self@.resident_aot_bytes,
                    artifact_len,
                    now,
                    mode,
                    rows_of(self@.resident, ProgramKind::Aot),
                );
                match plan {
                    AotAdmissionPlan::Oversized => oversized(self@.tuning, artifact_len),
                    AotAdmissionPlan::CapacityDeferred => !oversized(self@.tuning, artifact_len)
                        && victims is None,
                    AotAdmissionPlan::Admit(keys) => !oversized(self@.tuning, artifact_len)
                        && victims == Some(keys@),
                }
            }),
    {
        let rows = self.list_rows(ProgramKind::Aot);
        proof {
            assert(lists(
                rows_of(self@.resident, ProgramKind::Aot),
                self@.resident,
                ProgramKind::Aot,
            ));
            lemma_listings_agree(
                rows@,
                rows_of(self@.resident, ProgramKind::Aot),
                self@.resident,
                ProgramKind::Aot,
            );
            law_plan_is_deterministic(
                self@.tuning,
                self@.resident_aot_entries,
                self@.resident_aot_bytes,
                artifact_len,
                now,
                mode,
                rows@,
                rows_of(self@.resident, ProgramKind::Aot),
            );
        }
        plan_aot_admission(
            self.tuning,
            self.resident_aot_entries,
            self.resident_aot_bytes,
            artifact_len,
            now,
            mode,
            rows,
        )
    }

    /// Checks the AOT budgets and the load limiter for an artifact of the given length.
    pub(super) fn try_admit_stored_aot(
        &mut self,
        artifact_len: usize,
        mode: AdmitMode,
        now: Moment,
        persisted: bool,
    ) -> (verdict: StoredVerdict)
        requires
            old(self).wf(),
            persisted ==> !old(self)@.overruns(artifact_len, mode, now),
        ensures
            final(self).wf(),
            (final(self)@, verdict@) == old(self)@.judge_stored(artifact_len, mode, now, persisted),
    {
        match self.plan(artifact_len, mode, now) {
            AotAdmissionPlan::Oversized => {
                self.stats.persisted_aot_oversized =
                self.stats.persisted_aot_oversized.wrapping_add(1);
                StoredVerdict::Oversized
            },
            AotAdmissionPlan::CapacityDeferred => {
                self.stats.persisted_aot_capacity_deferred =
                self.stats.persisted_aot_capacity_deferred.wrapping_add(1);
                StoredVerdict::Deferred
            },
            AotAdmissionPlan::Admit(victims) => {
                if persisted && mode == AdmitMode::Observed {
                    let interval = self.tuning.persisted_aot_load_interval;
                    if !self.aot_load_limiter.try_acquire(now, interval) {
                        self.stats.persisted_aot_rate_limited =
                        self.stats.persisted_aot_rate_limited.wrapping_add(1);
                        return StoredVerdict::Deferred;
                    }
                }
                StoredVerdict::Load(victims)
            },
        }
    }

    /// Sets what is known of the artifact of a tracked key.
    pub(super) fn set_persisted(&mut self, key: &RuntimeCacheKey, persisted_aot: PersistedAotState)
        requires
            old(self).wf(),
            old(self)@.entries.contains_key(*key),
        ensures
            final(self).wf(),
            final(self)@ == old(self)@.set_persisted(*key, persisted_aot),
    {
        if let Some(mut entry) = self.entries.remove(key) {
            entry.persisted_aot = persisted_aot;
            self.entries.insert(*key, entry);
        }
        assert(self@.entries =~= old(self)@.set_persisted(*key, persisted_aot).entries);
    }

    /// Decides on a compilation.
    fn gate(&mut self, adm: Admission) -> (step: AdmitStep)
        requires
            old(self).wf(),
            old(self)@.entries.contains_key(adm.key),
        ensures
            final(self).wf(),
            final(self)@ == old(self)@.gate(adm).0,
            step.is(final(self)@, adm, old(self)@.gate(adm).1),
    {
        if let Some(entry) = self.entries.get(&adm.key) {
            if adm.mode == AdmitMode::Observed && (entry.hotness as usize)
                < self.tuning.jit_hot_threshold {
                return AdmitStep::Done;
            }
        }
        if self.pending_jobs >= self.tuning.jit_max_pending_jobs {
            self.notify(adm.sync_notifier);
            return AdmitStep::Done;
        }
        let bytecode = match self.entries.get(&adm.key) {
            Some(entry) => share(&entry.bytecode),
            None => {
                return AdmitStep::Done;
            },
        };
        let prefix = match adm.kind {
            CompilationKind::Jit => "jit",
            CompilationKind::Aot => "aot",
        };
        let opt_level = match adm.kind {
            CompilationKind::Jit => self.tuning.jit_opt_level,
            CompilationKind::Aot => self.tuning.aot_opt_level,
        };
        let job = CompileJob {
            kind: adm.kind,
            key: adm.key,
            bytecode,
            symbol_name: symbol_name(prefix, adm.key),
            opt_level,
            sync_notifier: adm.sync_notifier,
            generation: self.generation,
        };
        AdmitStep::Dispatch(adm, job)
    }

    /// The part of an admission that follows the question to the store.
    fn proceed(&mut self, adm: Admission) -> (step: AdmitStep)
        requires
            old(self).wf(),
            old(self)@.entries.contains_key(adm.key),
            adm.kind == CompilationKind::Aot ==> match old(self)@.entries[adm.key].persisted_aot {
                PersistedAotState::Ready(stored) => !old(self)@.overruns(
                    stored.manifest.artifact_len,
                    adm.mode,
                    adm.now,
                ),
                _ => true,
            },
        ensures
            final(self).wf(),
            final(self)@ == old(self)@.proceed(adm).0,
            step.is(final(self)@, adm, old(self)@.proceed(adm).1),
    {
        if adm.kind == CompilationKind::Jit {
            return self.gate(adm);
        }
        let persisted_aot = match self.entries.get(&adm.key) {
            Some(entry) => entry.persisted_aot.duplicate(),
            None => {
                return AdmitStep::Done;
            },
        };
        match persisted_aot {
            PersistedAotState::Unprobed => AdmitStep::Done,
            PersistedAotState::Absent => self.gate(adm),
            PersistedAotState::Oversized => {
                self.notify(adm.sync_notifier);
                AdmitStep::Done
            },
            PersistedAotState::Ready(stored) => {
                match self.try_admit_stored_aot(
                    stored.manifest.artifact_len,
                    adm.mode,
                    adm.now,
                    true,
                ) {
                    StoredVerdict::Oversized => {
                        self.set_persisted(&adm.key, PersistedAotState::Oversized);
                        self.notify(adm.sync_notifier);
                        AdmitStep::Done
                    },
                    StoredVerdict::Deferred => {
                        self.notify(adm.sync_notifier);
                        AdmitStep::Done
                    },
                    StoredVerdict::Load(victims) => AdmitStep::Load(
                        adm,
                        LoadOrder { stored, victims },
                    ),
                }
            },
        }
    }

    /// Whether loading an artifact of the given length begins an interval whose end is past what can
    /// be counted.
    fn overruns(&self, artifact_len: usize, mode: AdmitMode, now: Moment) -> (r: bool)
        requires
            self.wf(),
        ensures
            r == self@.overruns(artifact_len, mode, now),
    {
        let interval = self.tuning.persisted_aot_load_interval;
        if now.can_advance(interval) || mode == AdmitMode::Explicit {
            return false;
        }
        if let Some(next) = self.aot_load_limiter.next_allowed_at {
            if now.nanos < next.nanos {
                return false;
            }
        }
        match self.plan(artifact_len, mode, now) {
            AotAdmissionPlan::Admit(_) => true,
            _ => false,
        }
    }

    /// Whether a request can be taken in now: it begins no interval between two loads whose end is
    /// past what can be counted.
    pub fn can_admit(&self, request: &AdmitRequest, eligible: bool, now: Moment) -> (r: bool)
        requires
            self.inv(),
        ensures
            r == !self@.request_overruns(request.at(now), eligible),
    {
        if self.published.contains_key(&request.key) || !eligible || request.kind
            == CompilationKind::Jit {
            return true;
        }
        match self.entries.get(&request.key) {
            Some(entry) => {
                if request.mode == AdmitMode::Observed && !entry.observed && (
                self.tuning.max_observed_entries == 0 || self.observed_entries
                    >= self.tuning.max_observed_entries) {
                    return true;
                }
                if entry.phase == EntryPhase::Working {
                    return true;
                }
                match &entry.persisted_aot {
                    PersistedAotState::Ready(stored) => !self.overruns(
                        stored.manifest.artifact_len,
                        request.mode,
                        now,
                    ),
                    _ => true,
                }
            },
            None => true,
        }
    }

    /// Whether an answer of the artifact store can be taken in.
    pub fn can_take_answer(&self, adm: &Admission, answer: &ProbeResult) -> (r: bool)
        requires
            self.inv(),
        ensures
            r == !self@.answer_overruns(*adm, *answer),
    {
        match answer {
            ProbeResult::Found(stored) => adm.kind == CompilationKind::Jit || !self.overruns(
                stored.manifest.artifact_len,
                adm.mode,
                adm.now,
            ),
            _ => true,
        }
    }

    /// Requests that a key be made resident.
    ///
    /// `eligible` says whether bytecode of this kind is compiled at all.
    pub fn try_admit(&mut self, request: AdmitRequest, eligible: bool, now: Moment) -> (step:
        AdmitStep)
        requires
            old(self).inv(),
            !old(self)@.request_overruns(request.at(now), eligible),
        ensures
            final(self).inv(),
            final(self)@ == old(self)@.request(
                request.at(now),
                byte_contents(request.bytecode),
                eligible,
            ).0,
            step.is(
                final(self)@,
                request.at(now),
                old(self)@.request(request.at(now), byte_contents(request.bytecode), eligible).1,
            ),
            !(step is Done) ==> final(self)@.awaits(request.at(now)),
            step is Dispatch ==> final(self)@.pending_jobs
                < final(self)@.tuning.jit_max_pending_jobs,
    {
        let adm = Admission {
            kind: request.kind,
            key: request.key,
            sync_notifier: request.sync_notifier,
            mode: request.mode,
            now,
        };
        proof {
            lemma_request_inv(self@, adm, byte_contents(request.bytecode), eligible);
        }
        if self.published.contains_key(&adm.key) || !eligible {
            self.notify(adm.sync_notifier);
            return AdmitStep::Done;
        }
        if adm.mode == AdmitMode::Observed {
            let needs_slot = match self.entries.get(&adm.key) {
                Some(entry) => !entry.observed,
                None => true,
            };
            if needs_slot && (self.tuning.max_observed_entries == 0 || self.observed_entries
                >= self.tuning.max_observed_entries) {
                self.stats.observed_entry_rejections =
                self.stats.observed_entry_rejections.wrapping_add(1);
                return AdmitStep::Done;
            }
        }
        let mut entry = match self.entries.remove(&adm.key) {
            Some(entry) => entry,
            None => EntryState {
                hotness: 0,
                phase: EntryPhase::Cold,
                bytecode: request.bytecode,
                last_observed_at: now,
                pending_notifiers: Vec::new(),
                persisted_aot: PersistedAotState::Unprobed,
                observed: false,
                working_mode: adm.mode,
            },
        };
        if adm.mode == AdmitMode::Observed && !entry.observed {
            entry.observed = true;
            self.observed_entries = self.observed_entries + 1;
        }
        entry.last_observed_at = now;
        if entry.phase == EntryPhase::Working {
            if adm.mode == AdmitMode::Explicit {
                entry.working_mode = AdmitMode::Explicit;
            }
            entry.pending_notifiers.push(adm.sync_notifier);
            self.entries.insert(adm.key, entry);
            assert(self@.entries =~= old(self)@.request(
                adm,
                byte_contents(request.bytecode),
                eligible,
            ).0.entries);
            return AdmitStep::Done;
        }
        if adm.mode == AdmitMode::Observed {
            entry.hotness = entry.hotness.saturating_add(1);
        }
        let unprobed = matches!(entry.persisted_aot, PersistedAotState::Unprobed);
        let asks = adm.kind == CompilationKind::Aot && unprobed && (adm.mode == AdmitMode::Explicit
            || (entry.hotness as usize) >= self.tuning.persisted_aot_hot_threshold);
        let ghost warmed = entry@;
        self.entries.insert(adm.key, entry);
        assert(self@.entries =~= old(self)@.track(adm.key, warmed).entries);
        assert(self@ == old(self)@.track(adm.key, warmed));
        if asks {
            if self.has_store {
                self.stats.persisted_aot_probes = self.stats.persisted_aot_probes.wrapping_add(1);
                return AdmitStep::Probe(adm, self.artifact_key(adm.key));
            }
            self.set_persisted(&adm.key, PersistedAotState::Absent);
        }
        self.proceed(adm)
    }

    /// Takes in the answer of the artifact store.
    pub fn probe_finished(&mut self, adm: Admission, answer: ProbeResult) -> (step: AdmitStep)
        requires
            old(self).inv(),
            old(self)@.awaits(adm),
            !old(self)@.answer_overruns(adm, answer),
        ensures
            final(self).inv(),
            final(self)@ == old(self)@.probed(adm.key, answer).proceed(adm).0,
            step.is(final(self)@, adm, old(self)@.probed(adm.key, answer).proceed(adm).1),
            !(step is Done) ==> final(self)@.awaits(adm),
            step is Dispatch ==> final(self)@.pending_jobs
                < final(self)@.tuning.jit_max_pending_jobs,
    {
        proof {
            lemma_probed_inv(self@, adm, answer);
            lemma_proceed_inv(self@.probed(adm.key, answer), adm);
        }
        match answer {
            ProbeResult::Found(stored) => {
                if self.tuning.max_resident_aot_bytes > 0 && stored.manifest.artifact_len
                    > self.tuning.max_resident_aot_bytes {
                    self.stats.persisted_aot_oversized =
                    self.stats.persisted_aot_oversized.wrapping_add(1);
                    self.set_persisted(&adm.key, PersistedAotState::Oversized);
                } else {
                    self.set_persisted(&adm.key, PersistedAotState::Ready(stored));
                }
            },
            ProbeResult::Missing => {
                self.stats.persisted_aot_probe_misses =
                self.stats.persisted_aot_probe_misses.wrapping_add(1);
                self.set_persisted(&adm.key, PersistedAotState::Absent);
            },
            ProbeResult::Failed => {
                self.set_persisted(&adm.key, PersistedAotState::Absent);
            },
        }
        self.proceed(adm)
    }

    /// Evicts programs to make room for an AOT program, then puts it in.
    ///
    /// The program is loaded before anything is evicted, so a load that fails leaves no hole.
    pub(super) fn install_stored(
        &mut self,
        key: RuntimeCacheKey,
        artifact_len: usize,
        victims: &Vec<RuntimeCacheKey>,
        slot: u64,
        now: Moment,
    )
        requires
            old(self).wf(),
        ensures
            final(self).wf(),
            final(self)@ == old(self)@.install_stored(key, artifact_len, victims@, slot, now),
            final(self)@.resident.dom().len() <= usize::MAX,
    {
        assert(victims@.take(0) =~= Seq::<RuntimeCacheKey>::empty());
        for i in 0..victims.len()
            invariant
                self.wf(),
                self@ == old(self)@.evict_all_for_aot(victims@.take(i as int)),
        {
            let victim = victims[i];
            proof {
                assert(victims@.take(i + 1).drop_last() =~= victims@.take(i as int));
                assert(victims@.take(i + 1).last() == victim);
            }
            self.remove_resident(&victim);
            self.remove_entry(&victim);
            self.stats.aot_evictions = self.stats.aot_evictions.wrapping_add(1);
            self.stats.evictions = self.stats.evictions.wrapping_add(1);
        }
        assert(victims@.take(victims@.len() as int) =~= victims@);
        self.insert_resident(
            key,
            slot,
            ResidentMeta { last_hit_at: now, kind: ProgramKind::Aot, artifact_len },
        );
    }

    /// Takes in the outcome of a load: the slot of the program, or nothing where it failed.
    pub fn load_finished(
        &mut self,
        adm: Admission,
        order: LoadOrder,
        slot: Option<u64>,
        started: Moment,
        finished: Moment,
    ) -> (step: AdmitStep)
        requires
            old(self).inv(),
            old(self)@.awaits(adm),
        ensures
            final(self).inv(),
            final(self)@ == old(self)@.loaded(
                adm,
                order.stored,
                order.victims@,
                slot,
                started,
                finished,
            ).0,
            step.is(
                final(self)@,
                adm,
                old(self)@.loaded(
                    adm,
                    order.stored,
                    order.victims@,
                    slot,
                    started,
                    finished,
                ).1,
            ),
            !(step is Done) ==> final(self)@.awaits(adm),
            step is Dispatch ==> final(self)@.pending_jobs
                < final(self)@.tuning.jit_max_pending_jobs,
    {
        let ghost before = self@;
        match slot {
            None => {
                proof {
                    lemma_set_persisted_inv(before, adm.key, PersistedAotState::Absent);
                }
                // The file is not tried again: the next compilation overwrites it.
                self.set_persisted(&adm.key, PersistedAotState::Absent);
                self.gate(adm)
            },
            Some(slot) => {
                let artifact_len = order.stored.manifest.artifact_len;
                let load_ns = finished.duration_since(started).nanos as u64;
                self.install_stored(adm.key, artifact_len, &order.victims, slot, finished);
                proof {
                    lemma_install_inv(
                        before,
                        adm.key,
                        artifact_len,
                        order.victims@,
                        slot,
                        finished,
                    );
                }
                self.record_artifact_usage(adm.key, 1);
                if adm.mode == AdmitMode::Observed {
                    self.stats.persisted_aot_loads = self.stats.persisted_aot_loads.wrapping_add(1);
                    self.stats.persisted_aot_load_ns =
                    self.stats.persisted_aot_load_ns.wrapping_add(load_ns);
                }
                self.remove_entry(&adm.key);
                self.notify(adm.sync_notifier);
                AdmitStep::Done
            },
        }
    }

    /// Takes in whether a worker took the job of an admission.
    pub fn dispatch_finished(&mut self, adm: Admission, accepted: bool)
        requires
            old(self).inv(),
            old(self)@.awaits(adm),
            old(self)@.pending_jobs < old(self)@.tuning.jit_max_pending_jobs,
        ensures
            final(self).inv(),
            final(self)@ == old(self)@.dispatched(adm, accepted),
    {
        let ghost before = self@;
        if accepted {
            if let Some(mut entry) = self.entries.remove(&adm.key) {
                entry.phase = EntryPhase::Working;
                entry.working_mode = adm.mode;
                proof {
                    lemma_track_inv(before, adm.key, entry@, before.observed_entries);
                }
                self.entries.insert(adm.key, entry);
            }
            assert(self@.entries =~= before.dispatched(adm, true).entries);
            self.pending_jobs = self.pending_jobs + 1;
            self.stats.compilations_dispatched = self.stats.compilations_dispatched.wrapping_add(1);
        } else {
            self.notify(adm.sync_notifier);
        }
    }
}

impl AdmitRequest {
    /// The request once it is under way.
    pub open spec fn at(&self, now: Moment) -> Admission {
        Admission {
            kind: self.kind,
            key: self.key,
            sync_notifier: self.sync_notifier,
            mode: self.mode,
            now,
        }
    }
}

/// Setting what is known of the artifact of a cold key keeps the invariant.
pub proof fn lemma_set_persisted_inv(
    v: BackendView,
    key: RuntimeCacheKey,
    persisted_aot: PersistedAotState,
)
    requires
        v.inv(),
        v.entries.contains_key(key),
    ensures
        v.set_persisted(key, persisted_aot).inv(),
{
    let entry = EntryView { persisted_aot, ..v.entries[key] };
    assert(v.entries.contains_key(key) && v.entries[key].phase == EntryPhase::Cold
        ==> v.entries[key].pending_notifiers.len() == 0);
    lemma_track_inv(v, key, entry, v.observed_entries);
}

/// The answer of the store keeps the invariant.
pub proof fn lemma_probed_inv(v: BackendView, adm: Admission, answer: ProbeResult)
    requires
        v.inv(),
        v.awaits(adm),
    ensures
        v.probed(adm.key, answer).inv(),
        v.probed(adm.key, answer).awaits(adm),
        v.probed(adm.key, answer).tuning == v.tuning,
{
    let found = match answer {
        ProbeResult::Found(stored) => if oversized(v.tuning, stored.manifest.artifact_len) {
            PersistedAotState::Oversized
        } else {
            PersistedAotState::Ready(stored)
        },
        _ => PersistedAotState::Absent,
    };
    let w = v.count(v.probed(adm.key, answer).stats);
    lemma_set_persisted_inv(w, adm.key, found);
    assert(v.probed(adm.key, answer) == w.set_persisted(adm.key, found));
}

/// Evicting programs keeps the invariant.
pub proof fn lemma_evict_all_inv(v: BackendView, keys: Seq<RuntimeCacheKey>)
    requires
        v.inv(),
    ensures
        v.evict_all_for_aot(keys).inv(),
        v.bytes_exact() ==> v.evict_all_for_aot(keys).bytes_exact(),
        v.evict_all_for_aot(keys).tuning == v.tuning,
        v.evict_all_for_aot(keys).aot == v.aot,
    decreases keys.len(),
{
    if keys.len() > 0 {
        lemma_evict_all_inv(v, keys.drop_last());
        let w = v.evict_all_for_aot(keys.drop_last());
        lemma_remove_resident_inv(w, keys.last());
        lemma_remove_entry_inv(w.remove_resident(keys.last()), keys.last());
    }
}

/// Making a loaded artifact resident, and no longer tracking its key, keeps the invariant.
pub proof fn lemma_install_inv(
    v: BackendView,
    key: RuntimeCacheKey,
    artifact_len: usize,
    victims: Seq<RuntimeCacheKey>,
    slot: u64,
    now: Moment,
)
    requires
        v.inv(),
        v.install_stored(key, artifact_len, victims, slot, now).resident.dom().len() <= usize::MAX,
    ensures
        v.install_stored(key, artifact_len, victims, slot, now).remove_entry(key).inv(),
        v.install_stored(key, artifact_len, victims, slot, now).tuning == v.tuning,
        v.install_stored(key, artifact_len, victims, slot, now).aot == v.aot,
{
    lemma_evict_all_inv(v, victims);
    lemma_publish_inv(
        v.evict_all_for_aot(victims),
        key,
        slot,
        ResidentMeta { last_hit_at: now, kind: ProgramKind::Aot, artifact_len },
    );
}

/// What follows the question to the store keeps the invariant.
pub proof fn lemma_proceed_inv(v: BackendView, adm: Admission)
    requires
        v.inv(),
        v.awaits(adm),
    ensures
        v.proceed(adm).0.inv(),
        v.proceed(adm).1 != NextStep::Done ==> v.proceed(adm).0.awaits(adm),
        v.proceed(adm).1 == NextStep::Dispatch ==> v.proceed(adm).0.pending_jobs
            < v.tuning.jit_max_pending_jobs,
        v.proceed(adm).0.tuning == v.tuning,
{
    if adm.kind == CompilationKind::Aot {
        match v.entries[adm.key].persisted_aot {
            PersistedAotState::Ready(stored) => {
                let (w, verdict) = v.judge_stored(
                    stored.manifest.artifact_len,
                    adm.mode,
                    adm.now,
                    true,
                );
                assert(w.inv());
                if verdict == VerdictView::Oversized {
                    lemma_set_persisted_inv(w, adm.key, PersistedAotState::Oversized);
                }
            },
            _ => {},
        }
    }
}

/// A request keeps the invariant.
pub proof fn lemma_request_inv(v: BackendView, adm: Admission, bytecode: Seq<u8>, eligible: bool)
    requires
        v.inv(),
    ensures
        v.request(adm, bytecode, eligible).0.inv(),
        v.request(adm, bytecode, eligible).1 != NextStep::Done ==> v.request(
            adm,
            bytecode,
            eligible,
        ).0.awaits(adm),
        v.request(adm, bytecode, eligible).1 == NextStep::Dispatch ==> v.request(
            adm,
            bytecode,
            eligible,
        ).0.pending_jobs < v.tuning.jit_max_pending_jobs,
        v.request(adm, bytecode, eligible).0.tuning == v.tuning,
{
    if v.published.contains_key(adm.key) || !eligible {
    } else if adm.mode == AdmitMode::Observed && v.lacks_slot(adm.key) {
    } else {
        assert(v.published.dom().contains(adm.key) <==> v.resident.dom().contains(adm.key));
        let seen = v.seen_entry(adm, bytecode);
        if v.entries.contains_key(adm.key) {
            assert(v.entries[adm.key].phase == EntryPhase::Cold
                ==> v.entries[adm.key].pending_notifiers.len() == 0);
        }
        let joined = EntryView {
            working_mode: if adm.mode == AdmitMode::Explicit {
                AdmitMode::Explicit
            } else {
                seen.working_mode
            },
            pending_notifiers: seen.pending_notifiers.push(adm.sync_notifier),
            ..seen
        };
        let warmed = EntryView {
            hotness: if adm.mode == AdmitMode::Observed {
                seen.hotness.saturating_add(1)
            } else {
                seen.hotness
            },
            ..seen
        };
        if seen.phase == EntryPhase::Working {
            lemma_track_inv(v, adm.key, joined, v.track(adm.key, joined).observed_entries);
        } else {
            let w = v.track(adm.key, warmed);
            lemma_track_inv(v, adm.key, warmed, w.observed_entries);
            assert(w.inv());
            lemma_set_persisted_inv(w, adm.key, PersistedAotState::Absent);
            lemma_proceed_inv(w.set_persisted(adm.key, PersistedAotState::Absent), adm);
            lemma_proceed_inv(w, adm);
        }
    }
}

} // verus!
