//! What the backend knows, and the elementary changes to it.
use crate::admission::{AotLoadLimiter, AotResident};
use crate::bytecode::byte_contents;
use crate::clock::{Duration, Moment};
use crate::config::{AdmitMode, CompilationKind, ProgramKind, RuntimeTuning};
use crate::keymap::KeyMap;
use crate::keys::{RuntimeCacheKey, SpecId, B256};
use crate::resident::ResidentMap;
use crate::storage::{ArtifactKey, BackendSelection, StoredArtifact};
use crate::sums::total;
use alloy_primitives::Bytes;
use vstd::prelude::*;

pub mod commands;
pub mod jobs;
pub mod laws;
pub mod notices;
pub mod outcomes;
pub mod publication;
pub mod requests;
pub mod residency;
pub mod results;
pub mod sweep;
pub mod upkeep;
pub mod waiting;

verus! {

/// Someone who may be waiting for a request to be settled.
#[derive(Clone, Copy, Debug, PartialEq, Eq, Structural)]
pub struct SyncNotifier {
    /// Name of the waiter, if there is one.
    pub waiter: Option<u64>,
}

impl SyncNotifier {
    /// Nobody waits.
    pub fn none() -> (n: SyncNotifier)
        ensures
            n.waiter is None,
    {
        SyncNotifier { waiter: None }
    }
}

/// What is kept of a resident program to decide on its eviction.
#[derive(Clone, Copy, Debug, PartialEq, Eq, Structural)]
pub struct ResidentMeta {
    /// When a lookup last hit the program.
    pub last_hit_at: Moment,
    pub kind: ProgramKind,
    /// Length of the artifact of an AOT program; zero for JIT programs.
    pub artifact_len: usize,
}

/// What is known of the artifact of one key.
#[derive(Debug, PartialEq, Eq)]
pub enum PersistedAotState {
    /// The store has not been asked.
    Unprobed,
    /// The store has no usable artifact, so the key may be compiled.
    Absent,
    /// An artifact that can be loaded without asking the store again.
    Ready(StoredArtifact),
    /// The artifact can never fit the byte budget.
    Oversized,
}

impl PersistedAotState {
    /// An equal state.
    pub fn duplicate(&self) -> (r: PersistedAotState)
        ensures
            r == *self,
    {
        match self {
            PersistedAotState::Unprobed => PersistedAotState::Unprobed,
            PersistedAotState::Absent => PersistedAotState::Absent,
            PersistedAotState::Ready(stored) => PersistedAotState::Ready(stored.duplicate()),
            PersistedAotState::Oversized => PersistedAotState::Oversized,
        }
    }
}

/// Phase of a tracked key.
#[derive(Clone, Copy, Debug, PartialEq, Eq, Structural)]
pub enum EntryPhase {
    /// No compilation is in flight.
    Cold,
    /// A worker compiles the key.
    Working,
}

/// What is tracked of a key that is not resident.
pub struct EntryState {
    /// Number of observed misses.
    pub hotness: u32,
    pub phase: EntryPhase,
    /// The bytecode of the key.
    pub bytecode: Bytes,
    /// When the key was last requested.
    pub last_observed_at: Moment,
    /// Who waits for the compilation in flight.
    pub pending_notifiers: Vec<SyncNotifier>,
    pub persisted_aot: PersistedAotState,
    /// Whether the entry takes one of the slots for observed entries.
    pub observed: bool,
    /// How the result of the compilation in flight is admitted.
    pub working_mode: AdmitMode,
}

/// The mathematical model of [`EntryState`].
pub struct EntryView {
    pub hotness: u32,
    pub phase: EntryPhase,
    pub bytecode: Seq<u8>,
    pub last_observed_at: Moment,
    pub pending_notifiers: Seq<SyncNotifier>,
    pub persisted_aot: PersistedAotState,
    pub observed: bool,
    pub working_mode: AdmitMode,
}

impl EntryState {
    /// The model of the entry.
    pub open spec fn view(&self) -> EntryView {
        EntryView {
            hotness: self.hotness,
            phase: self.phase,
            bytecode: byte_contents(self.bytecode),
            last_observed_at: self.last_observed_at,
            pending_notifiers: self.pending_notifiers@,
            persisted_aot: self.persisted_aot,
            observed: self.observed,
            working_mode: self.working_mode,
        }
    }
}

/// Counters of what the backend did. They wrap around.
#[derive(Clone, Copy, Debug, PartialEq, Eq, Structural)]
pub struct BackendStats {
    /// Keys that are tracked, as of the last tick.
    pub tracked_entries: u64,
    /// Keys that are tracked and cold, as of the last tick.
    pub cold_entries: u64,
    /// Observed misses that found no slot for an entry.
    pub observed_entry_rejections: u64,
    /// Cold entries dropped for not being observed any more.
    pub cold_entry_evictions: u64,
    /// Compilations handed to a worker.
    pub compilations_dispatched: u64,
    pub compilations_succeeded: u64,
    pub compilations_failed: u64,
    /// Questions to the artifact store.
    pub persisted_aot_probes: u64,
    /// Questions that found no artifact.
    pub persisted_aot_probe_misses: u64,
    /// Artifacts found to be over the byte budget on their own.
    pub persisted_aot_oversized: u64,
    /// Artifacts put off for want of room.
    pub persisted_aot_capacity_deferred: u64,
    /// Artifacts put off because the last load was too recent.
    pub persisted_aot_rate_limited: u64,
    /// Artifacts loaded on observed demand.
    pub persisted_aot_loads: u64,
    /// Nanoseconds spent on those loads.
    pub persisted_aot_load_ns: u64,
    /// Programs evicted, for whatever reason.
    pub evictions: u64,
    /// Programs evicted to make room for an AOT program.
    pub aot_evictions: u64,
}

impl BackendStats {
    /// All counters at zero.
    pub open spec fn spec_zero() -> BackendStats {
        BackendStats {
            tracked_entries: 0,
            cold_entries: 0,
            observed_entry_rejections: 0,
            cold_entry_evictions: 0,
            compilations_dispatched: 0,
            compilations_succeeded: 0,
            compilations_failed: 0,
            persisted_aot_probes: 0,
            persisted_aot_probe_misses: 0,
            persisted_aot_oversized: 0,
            persisted_aot_capacity_deferred: 0,
            persisted_aot_rate_limited: 0,
            persisted_aot_loads: 0,
            persisted_aot_load_ns: 0,
            evictions: 0,
            aot_evictions: 0,
        }
    }

    /// All counters at zero.
    pub fn zero() -> (s: BackendStats)
        ensures
            s == BackendStats::spec_zero(),
    {
        BackendStats {
            tracked_entries: 0,
            cold_entries: 0,
            observed_entry_rejections: 0,
            cold_entry_evictions: 0,
            compilations_dispatched: 0,
            compilations_succeeded: 0,
            compilations_failed: 0,
            persisted_aot_probes: 0,
            persisted_aot_probe_misses: 0,
            persisted_aot_oversized: 0,
            persisted_aot_capacity_deferred: 0,
            persisted_aot_rate_limited: 0,
            persisted_aot_loads: 0,
            persisted_aot_load_ns: 0,
            evictions: 0,
            aot_evictions: 0,
        }
    }
}

/// A sampled use of an artifact.
#[derive(Clone, Copy, Debug, PartialEq, Eq, Structural)]
pub struct ArtifactUsageEvent {
    pub artifact_key: ArtifactKey,
    /// Uses that the event stands for.
    pub weight: u64,
}

/// A compilation that came to its end.
#[derive(Clone, Copy, Debug, PartialEq, Eq, Structural)]
pub struct CompilationEvent {
    pub code_hash: B256,
    pub spec_id: SpecId,
    pub duration: Duration,
    pub kind: CompilationKind,
    pub success: bool,
    /// Name under which the caller keeps the timings that came with the result.
    pub timings: u64,
}

/// Something that the caller is to do, in the order in which the effects were added.
#[derive(Clone, Copy, Debug, PartialEq, Eq, Structural)]
pub enum Effect {
    /// Wake a waiter.
    Notify(u64),
    /// Drop the program in a slot.
    ReleaseProgram(u64),
    /// Drop every program.
    ReleaseAllPrograms,
    /// Cancel the compilations in flight.
    CancelInFlight,
    /// Pause the helper processes.
    PauseWorkers,
    /// Resume the helper processes.
    ResumeWorkers,
    /// Throw away the queued lookup events.
    DiscardLookupEvents,
    /// Remove every artifact from the store.
    ClearStore,
    /// Report the use of an artifact.
    ArtifactUsage(ArtifactUsageEvent),
    /// Report the end of a compilation.
    Compilation(CompilationEvent),
}

/// The mathematical model of [`BackendState`].
pub struct BackendView {
    /// The slot of each program that lookups find.
    pub published: Map<RuntimeCacheKey, u64>,
    /// The programs that lookups find at some time, each under its key. No change to the state
    /// changes it.
    pub publications: Set<(RuntimeCacheKey, u64)>,
    /// What is kept of each resident program.
    pub resident: Map<RuntimeCacheKey, ResidentMeta>,
    /// What is tracked of each other key.
    pub entries: Map<RuntimeCacheKey, EntryView>,
    pub observed_entries: usize,
    pub resident_aot_entries: usize,
    pub resident_aot_bytes: usize,
    pub limiter: AotLoadLimiter,
    pub has_store: bool,
    pub tuning: RuntimeTuning,
    pub aot: bool,
    /// Number of keys that are being compiled.
    pub pending_jobs: usize,
    pub generation: u64,
    pub last_sweep: Moment,
    pub stats: BackendStats,
    pub outbox: Seq<Effect>,
}

/// One for an AOT program, zero for any other.
pub open spec fn aot_weight() -> spec_fn(ResidentMeta) -> nat {
    |m: ResidentMeta|
        if m.kind == ProgramKind::Aot {
            1nat
        } else {
            0nat
        }
}

/// The artifact length of an AOT program, zero for any other.
pub open spec fn aot_len() -> spec_fn(ResidentMeta) -> nat {
    |m: ResidentMeta|
        if m.kind == ProgramKind::Aot {
            m.artifact_len as nat
        } else {
            0nat
        }
}

/// One for an entry that takes an observation slot, zero for any other.
pub open spec fn observed_weight() -> spec_fn(EntryView) -> nat {
    |e: EntryView|
        if e.observed {
            1nat
        } else {
            0nat
        }
}

/// One for a cold entry, zero for any other.
pub open spec fn cold_weight() -> spec_fn(EntryView) -> nat {
    |e: EntryView|
        if e.phase == EntryPhase::Cold {
            1nat
        } else {
            0nat
        }
}

/// One for an entry whose key is being compiled, zero for any other.
pub open spec fn working_weight() -> spec_fn(EntryView) -> nat {
    |e: EntryView|
        if e.phase == EntryPhase::Working {
            1nat
        } else {
            0nat
        }
}

/// Whether `rows` lists every resident program of a kind, once.
pub open spec fn lists(
    rows: Seq<AotResident>,
    resident: Map<RuntimeCacheKey, ResidentMeta>,
    kind: ProgramKind,
) -> bool {
    &&& rows.no_duplicates()
    &&& forall|row: AotResident| #[trigger] rows.contains(row) <==> is_row(row, resident, kind)
}

/// Whether `row` describes a resident program of a kind.
pub open spec fn is_row(
    row: AotResident,
    resident: Map<RuntimeCacheKey, ResidentMeta>,
    kind: ProgramKind,
) -> bool {
    resident.contains_key(row.key) && resident[row.key] == (ResidentMeta {
        last_hit_at: row.last_hit_at,
        kind,
        artifact_len: row.artifact_len,
    })
}

/// The resident programs of a kind, listed in some order.
pub open spec fn rows_of(resident: Map<RuntimeCacheKey, ResidentMeta>, kind: ProgramKind) -> Seq<
    AotResident,
> {
    choose|rows: Seq<AotResident>| lists(rows, resident, kind)
}

impl BackendView {
    /// What holds between any two requests.
    pub open spec fn inv(self) -> bool {
        &&& self.resident.dom().finite()
        &&& self.entries.dom().finite()
        &&& self.published.dom() == self.resident.dom()
        &&& self.resident.dom().disjoint(self.entries.dom())
        &&& forall|k: RuntimeCacheKey| #[trigger]
            self.entries.contains_key(k) && self.entries[k].phase == EntryPhase::Cold
                ==> self.entries[k].pending_notifiers.len() == 0
        &&& self.observed_entries == total(self.entries, observed_weight())
        &&& self.observed_entries <= self.tuning.max_observed_entries
        &&& self.resident_aot_entries == total(self.resident, aot_weight())
        &&& self.resident_aot_bytes <= total(self.resident, aot_len())
        &&& self.pending_jobs <= self.tuning.jit_max_pending_jobs
    }

    /// Whether the byte counter is the sum of the artifact lengths. It falls short of the sum only
    /// once the sum has been past what a `usize` can count.
    pub open spec fn bytes_exact(self) -> bool {
        self.resident_aot_bytes == total(self.resident, aot_len())
    }

    /// Adds an effect.
    pub open spec fn effect(self, effect: Effect) -> BackendView {
        BackendView { outbox: self.outbox.push(effect), ..self }
    }

    /// Wakes a waiter, if there is one.
    pub open spec fn notify(self, notifier: SyncNotifier) -> BackendView {
        match notifier.waiter {
            Some(waiter) => self.effect(Effect::Notify(waiter)),
            None => self,
        }
    }

    /// Wakes several waiters in order.
    pub open spec fn notify_all(self, notifiers: Seq<SyncNotifier>) -> BackendView
        decreases notifiers.len(),
    {
        if notifiers.len() == 0 {
            self
        } else {
            self.notify_all(notifiers.drop_last()).notify(notifiers.last())
        }
    }

    /// Replaces the counters.
    pub open spec fn count(self, stats: BackendStats) -> BackendView {
        BackendView { stats, ..self }
    }

    /// Tracks a key with the given entry, the slot count aside.
    pub open spec fn put_entry(self, key: RuntimeCacheKey, entry: EntryView) -> BackendView {
        BackendView { entries: self.entries.insert(key, entry), ..self }
    }

    /// Stops tracking a key.
    pub open spec fn remove_entry(self, key: RuntimeCacheKey) -> BackendView {
        BackendView {
            entries: self.entries.remove(key),
            observed_entries: if self.entries.contains_key(key) && self.entries[key].observed {
                self.observed_entries.saturating_sub(1)
            } else {
                self.observed_entries
            },
            ..self
        }
    }

    /// Takes a program out.
    pub open spec fn remove_resident(self, key: RuntimeCacheKey) -> BackendView {
        let was_aot = self.resident.contains_key(key) && self.resident[key].kind
            == ProgramKind::Aot;
        BackendView {
            published: self.published.remove(key),
            resident: self.resident.remove(key),
            resident_aot_entries: if was_aot {
                self.resident_aot_entries.saturating_sub(1)
            } else {
                self.resident_aot_entries
            },
            resident_aot_bytes: if was_aot {
                self.resident_aot_bytes.saturating_sub(self.resident[key].artifact_len)
            } else {
                self.resident_aot_bytes
            },
            outbox: if self.published.contains_key(key) {
                self.outbox.push(Effect::ReleaseProgram(self.published[key]))
            } else {
                self.outbox
            },
            ..self
        }
    }

    /// Puts a program in, in place of the one that was there.
    pub open spec fn insert_resident(
        self,
        key: RuntimeCacheKey,
        slot: u64,
        meta: ResidentMeta,
    ) -> BackendView {
        let v = if self.resident.contains_key(key) {
            self.remove_resident(key)
        } else {
            self
        };
        BackendView {
            published: v.published.insert(key, slot),
            resident: v.resident.insert(key, meta),
            resident_aot_entries: if meta.kind == ProgramKind::Aot {
                v.resident_aot_entries.saturating_add(1)
            } else {
                v.resident_aot_entries
            },
            resident_aot_bytes: if meta.kind == ProgramKind::Aot {
                v.resident_aot_bytes.saturating_add(meta.artifact_len)
            } else {
                v.resident_aot_bytes
            },
            ..v
        }
    }

    /// The key under which the store holds the artifact of a program.
    pub open spec fn artifact_key(self, key: RuntimeCacheKey) -> ArtifactKey {
        ArtifactKey {
            runtime: key,
            backend: BackendSelection::Llvm,
            opt_level: self.tuning.aot_opt_level,
        }
    }

    /// Reports uses of an artifact, where artifacts are in use at all.
    pub open spec fn record_artifact_usage(self, key: RuntimeCacheKey, weight: u64) -> BackendView {
        if self.aot && weight != 0 {
            self.effect(
                Effect::ArtifactUsage(
                    ArtifactUsageEvent { artifact_key: self.artifact_key(key), weight },
                ),
            )
        } else {
            self
        }
    }
}

/// Everything the backend thread owns.
pub struct BackendState {
    published: ResidentMap,
    resident_meta: KeyMap<ResidentMeta>,
    entries: KeyMap<EntryState>,
    observed_entries: usize,
    resident_aot_entries: usize,
    resident_aot_bytes: usize,
    aot_load_limiter: AotLoadLimiter,
    has_store: bool,
    tuning: RuntimeTuning,
    aot: bool,
    pending_jobs: usize,
    generation: u64,
    last_sweep: Moment,
    stats: BackendStats,
    outbox: Vec<Effect>,
}

/// The models of a table of entries.
pub open spec fn entry_views(m: Map<RuntimeCacheKey, EntryState>) -> Map<
    RuntimeCacheKey,
    EntryView,
> {
    m.map_values(|e: EntryState| e@)
}

impl BackendState {
    /// The model of the state.
    pub closed spec fn view(&self) -> BackendView {
        BackendView {
            published: self.published@,
            publications: self.published.publications(),
            resident: self.resident_meta@,
            entries: entry_views(self.entries@),
            observed_entries: self.observed_entries,
            resident_aot_entries: self.resident_aot_entries,
            resident_aot_bytes: self.resident_aot_bytes,
            limiter: self.aot_load_limiter,
            has_store: self.has_store,
            tuning: self.tuning,
            aot: self.aot,
            pending_jobs: self.pending_jobs,
            generation: self.generation,
            last_sweep: self.last_sweep,
            stats: self.stats,
            outbox: self.outbox@,
        }
    }

    /// The tables are in order.
    pub closed spec fn wf(&self) -> bool {
        &&& self.published.wf()
        &&& self.resident_meta.wf()
        &&& self.entries.wf()
    }

    /// What holds between any two requests.
    pub open spec fn inv(&self) -> bool {
        &&& self.wf()
        &&& self@.inv()
    }

    /// Wakes a waiter, if there is one.
    fn notify(&mut self, notifier: SyncNotifier)
        requires
            old(self).wf(),
        ensures
            final(self).wf(),
            final(self)@ == old(self)@.notify(notifier),
    {
        if let Some(waiter) = notifier.waiter {
            self.outbox.push(Effect::Notify(waiter));
        }
    }

    /// Stops tracking a key.
    fn remove_entry(&mut self, key: &RuntimeCacheKey) -> (r: Option<EntryState>)
        requires
            old(self).wf(),
        ensures
            final(self).wf(),
            final(self)@ == old(self)@.remove_entry(*key),
            r is Some <==> old(self)@.entries.contains_key(*key),
            r matches Some(entry) ==> entry@ == old(self)@.entries[*key],
    {
        let r = self.entries.remove(key);
        assert(self@.entries =~= old(self)@.entries.remove(*key));
        if let Some(entry) = &r {
            if entry.observed {
                self.observed_entries = self.observed_entries.saturating_sub(1);
            }
        }
        r
    }

    /// Takes a program out.
    fn remove_resident(&mut self, key: &RuntimeCacheKey)
        requires
            old(self).wf(),
        ensures
            final(self).wf(),
            final(self)@ == old(self)@.remove_resident(*key),
    {
        if let Some(slot) = self.published.remove(key) {
            self.outbox.push(Effect::ReleaseProgram(slot));
        }
        if let Some(meta) = self.resident_meta.remove(key) {
            if meta.kind == ProgramKind::Aot {
                self.resident_aot_entries = self.resident_aot_entries.saturating_sub(1);
                self.resident_aot_bytes = self.resident_aot_bytes.saturating_sub(meta.artifact_len);
            }
        }
    }

    /// Puts a program in, in place of the one that was there.
    fn insert_resident(&mut self, key: RuntimeCacheKey, slot: u64, meta: ResidentMeta)
        requires
            old(self).wf(),
        ensures
            final(self).wf(),
            final(self)@ == old(self)@.insert_resident(key, slot, meta),
            final(self)@.resident.dom().finite(),
            final(self)@.resident.dom().len() <= usize::MAX,
    {
        if self.resident_meta.contains_key(&key) {
            self.remove_resident(&key);
        }
        if meta.kind == ProgramKind::Aot {
            self.resident_aot_entries = self.resident_aot_entries.saturating_add(1);
            self.resident_aot_bytes = self.resident_aot_bytes.saturating_add(meta.artifact_len);
        }
        self.published.insert(key, slot);
        self.resident_meta.insert(key, meta);
        // The table can count its keys, so the count of AOT programs cannot saturate.
        let count: usize = self.resident_meta.len();
        assert(self@.resident.dom().len() == count);
    }

    /// Reports uses of an artifact, where artifacts are in use at all.
    fn record_artifact_usage(&mut self, key: RuntimeCacheKey, weight: u64)
        requires
            old(self).wf(),
        ensures
            final(self).wf(),
            final(self)@ == old(self)@.record_artifact_usage(key, weight),
    {
        if !self.aot || weight == 0 {
            return;
        }
        let artifact_key = self.artifact_key(key);
        self.outbox.push(Effect::ArtifactUsage(ArtifactUsageEvent { artifact_key, weight }));
    }

    /// The key under which the store holds the artifact of a program.
    fn artifact_key(&self, key: RuntimeCacheKey) -> (r: ArtifactKey)
        ensures
            r == self@.artifact_key(key),
    {
        ArtifactKey {
            runtime: key,
            backend: BackendSelection::Llvm,
            opt_level: self.tuning.aot_opt_level,
        }
    }
}

} // verus!
