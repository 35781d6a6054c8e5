//! Start, commands, lookup events and counters.
use super::requests::AdmitRequest;
use super::upkeep::{lemma_notify_all_frame, lemma_publish_inv};
use super::{
    aot_len, aot_weight, cold_weight, entry_views, BackendState, BackendStats, BackendView, Effect,
    EntryPhase, EntryState, EntryView, ResidentMeta, SyncNotifier,
};
use crate::admission::AotLoadLimiter;
use crate::bytecode::{byte_contents, is_empty};
use crate::clock::Moment;
use crate::config::{AdmitMode, CompilationKind, ProgramKind, RuntimeTuning};
use crate::events::{drain, drained, EventSource, LookupRequest};
use crate::keymap::KeyMap;
use crate::keys::RuntimeCacheKey;
use crate::resident::{ResidentMap, ResidentReader};
use crate::sums::{
    lemma_sum_over_all, lemma_total_insert, lemma_total_remove, sum_over, total,
};
use alloy_primitives::Bytes;
use std::ops::ControlFlow;
use vstd::prelude::*;

verus! {

/// A program that was loaded before the backend started.
#[derive(Clone, Copy, Debug, PartialEq, Eq, Structural)]
pub struct Preloaded {
    pub key: RuntimeCacheKey,
    /// Slot of the program.
    pub slot: u64,
    pub kind: ProgramKind,
    pub artifact_len: usize,
}

/// An explicit request to compile bytecode.
pub struct CompileJitRequest {
    pub key: RuntimeCacheKey,
    pub bytecode: Bytes,
    pub sync_notifier: SyncNotifier,
}

/// An explicit request for an AOT artifact.
pub struct PrepareAotRequest {
    pub key: RuntimeCacheKey,
    pub bytecode: Bytes,
}

/// A command to the backend.
pub enum Command {
    /// Compile bytecode.
    CompileJit(CompileJitRequest),
    /// Prepare artifacts.
    PrepareAot(Vec<PrepareAotRequest>),
    /// Forget every resident program and every tracked key.
    ClearResident,
    /// Remove every artifact from the store.
    ClearPersisted,
    /// Both of these.
    ClearAll,
    /// Pause the helper processes.
    Pause,
    /// Resume the helper processes.
    Resume,
    /// Stop the backend.
    Shutdown,
}

/// What explicit compilations and observed misses produce.
pub open spec fn spec_demand_kind(aot: bool) -> CompilationKind {
    if aot {
        CompilationKind::Aot
    } else {
        CompilationKind::Jit
    }
}

/// What explicit compilations and observed misses produce.
fn demand_kind(aot: bool) -> (kind: CompilationKind)
    ensures
        kind == spec_demand_kind(aot),
{
    if aot {
        CompilationKind::Aot
    } else {
        CompilationKind::Jit
    }
}

impl BackendView {
    /// A backend that holds nothing.
    pub open spec fn initial(
        tuning: RuntimeTuning,
        aot: bool,
        has_store: bool,
        now: Moment,
        publications: Set<(RuntimeCacheKey, u64)>,
    ) -> BackendView {
        BackendView {
            published: Map::empty(),
            publications,
            resident: Map::empty(),
            entries: Map::empty(),
            observed_entries: 0,
            resident_aot_entries: 0,
            resident_aot_bytes: 0,
            limiter: AotLoadLimiter { next_allowed_at: None },
            has_store,
            tuning,
            aot,
            pending_jobs: 0,
            generation: 0,
            last_sweep: now,
            stats: BackendStats::spec_zero(),
            outbox: Seq::empty(),
        }
    }

    /// Takes in programs that were loaded before.
    pub open spec fn seed(self, preloaded: Seq<Preloaded>, now: Moment) -> BackendView
        decreases preloaded.len(),
    {
        if preloaded.len() == 0 {
            self
        } else {
            let program = preloaded.last();
            self.seed(preloaded.drop_last(), now).insert_resident(
                program.key,
                program.slot,
                ResidentMeta {
                    last_hit_at: now,
                    kind: program.kind,
                    artifact_len: program.artifact_len,
                },
            )
        }
    }

    /// Wakes everybody who waits for one of the keys, key by key.
    pub open spec fn wake_tracked(
        self,
        entries: Map<RuntimeCacheKey, EntryView>,
        keys: Seq<RuntimeCacheKey>,
    ) -> BackendView
        decreases keys.len(),
    {
        if keys.len() == 0 {
            self
        } else {
            self.wake_tracked(entries, keys.drop_last()).notify_all(
                entries[keys.last()].pending_notifiers,
            )
        }
    }

    /// A backend that holds nothing any more. Jobs that were handed out belong to an earlier
    /// generation, and no key is being compiled.
    pub open spec fn emptied(self) -> BackendView {
        BackendView {
            published: Map::empty(),
            resident: Map::empty(),
            entries: Map::empty(),
            observed_entries: 0,
            resident_aot_entries: 0,
            resident_aot_bytes: 0,
            limiter: AotLoadLimiter { next_allowed_at: None },
            pending_jobs: 0,
            generation: (self.generation + 1) as u64,
            ..self.effect(Effect::CancelInFlight).effect(Effect::ReleaseAllPrograms)
        }
    }

    /// The same, once everybody who waited is woken, in the order of `keys`.
    pub open spec fn cleared(self, keys: Seq<RuntimeCacheKey>) -> BackendView {
        self.emptied().wake_tracked(self.entries, keys).effect(Effect::DiscardLookupEvents)
    }

    /// Whether `keys` lists every tracked key, once.
    pub open spec fn lists_tracked(self, keys: Seq<RuntimeCacheKey>) -> bool {
        keys.no_duplicates() && keys.to_set() == self.entries.dom()
    }

    /// Whether `after` is this state cleared, in whatever order those who waited were woken.
    pub open spec fn clears_to(self, after: BackendView) -> bool {
        exists|keys: Seq<RuntimeCacheKey>|
            #[trigger] self.lists_tracked(keys) && after == self.cleared(keys)
    }

    /// Asks for the store to be emptied, where there is one.
    pub open spec fn clear_persisted(self) -> BackendView {
        if self.has_store {
            self.effect(Effect::ClearStore)
        } else {
            self
        }
    }

    /// A lookup that found a program.
    pub open spec fn hit(self, key: RuntimeCacheKey, now: Moment) -> BackendView {
        let v = if self.resident.contains_key(key) {
            BackendView {
                resident: self.resident.insert(
                    key,
                    ResidentMeta { last_hit_at: now, ..self.resident[key] },
                ),
                ..self
            }
        } else {
            self
        };
        v.record_artifact_usage(key, self.tuning.lookup_hit_sample_rate as u64)
    }
}

/// Waking waiters touches nothing but the effects.
pub proof fn lemma_wake_tracked_frame(
    v: BackendView,
    entries: Map<RuntimeCacheKey, EntryView>,
    keys: Seq<RuntimeCacheKey>,
)
    ensures
        v.wake_tracked(entries, keys) == (BackendView {
            outbox: v.wake_tracked(entries, keys).outbox,
            ..v
        }),
    decreases keys.len(),
{
    if keys.len() > 0 {
        lemma_wake_tracked_frame(v, entries, keys.drop_last());
        lemma_notify_all_frame(
            v.wake_tracked(entries, keys.drop_last()),
            entries[keys.last()].pending_notifiers,
        );
    }
}

/// Hitting a program keeps the invariant.
pub proof fn lemma_hit_inv(v: BackendView, key: RuntimeCacheKey, now: Moment)
    requires
        v.inv(),
    ensures
        v.hit(key, now).inv(),
        v.bytes_exact() ==> v.hit(key, now).bytes_exact(),
{
    if v.resident.contains_key(key) {
        let meta = ResidentMeta { last_hit_at: now, ..v.resident[key] };
        let w = v.hit(key, now);
        lemma_total_insert(v.resident, aot_weight(), key, meta);
        lemma_total_remove(v.resident, aot_weight(), key);
        lemma_total_insert(v.resident, aot_len(), key, meta);
        lemma_total_remove(v.resident, aot_len(), key);
        assert(w.resident.dom() =~= v.resident.dom());
        assert(w.entries == v.entries);
    }
}

impl BackendState {
    /// A backend that starts out with the programs that were loaded before.
    pub fn new(
        tuning: RuntimeTuning,
        aot: bool,
        has_store: bool,
        preloaded: &Vec<Preloaded>,
        now: Moment,
    ) -> (r: BackendState)
        ensures
            r.inv(),
            r@ == BackendView::initial(tuning, aot, has_store, now, r@.publications).seed(
                preloaded@,
                now,
            ),
            r@.entries == Map::<RuntimeCacheKey, EntryView>::empty(),
            r@.pending_jobs == 0,
    {
        let mut r = BackendState {
            published: ResidentMap::new(),
            resident_meta: KeyMap::new(),
            entries: KeyMap::new(),
            observed_entries: 0,
            resident_aot_entries: 0,
            resident_aot_bytes: 0,
            aot_load_limiter: AotLoadLimiter { next_allowed_at: None },
            has_store,
            tuning,
            aot,
            pending_jobs: 0,
            generation: 0,
            last_sweep: now,
            stats: BackendStats::zero(),
            outbox: Vec::new(),
        };
        let ghost start = BackendView::initial(tuning, aot, has_store, now, r@.publications);
        assert(r@.entries =~= start.entries);
        assert(r@ == start);
        assert(preloaded@.take(0) =~= Seq::<Preloaded>::empty());
        for i in 0..preloaded.len()
            invariant
                r.inv(),
                r@ == start.seed(preloaded@.take(i as int), now),
                r@.publications == start.publications,
                r@.entries == Map::<RuntimeCacheKey, EntryView>::empty(),
                r@.pending_jobs == 0,
        {
            let program = preloaded[i];
            let meta = ResidentMeta {
                last_hit_at: now,
                kind: program.kind,
                artifact_len: program.artifact_len,
            };
            let ghost before = r@;
            r.insert_resident(program.key, program.slot, meta);
            proof {
                assert(preloaded@.take(i + 1).drop_last() =~= preloaded@.take(i as int));
                lemma_publish_inv(before, program.key, program.slot, meta);
                assert(r@.entries.remove(program.key) =~= r@.entries);
                assert(r@.remove_entry(program.key) == r@);
            }
        }
        assert(preloaded@.take(preloaded@.len() as int) =~= preloaded@);
        r
    }

    /// A reading end of the table of resident programs, for the threads that run them.
    /// What it finds under a key is a program that the backend publishes under that key.
    pub fn reader(&self) -> (r: ResidentReader)
        ensures
            r@ == self@.publications,
            self.wf() ==> forall|k: RuntimeCacheKey| #[trigger]
                self@.published.contains_key(k) ==> r@.contains((k, self@.published[k])),
    {
        self.published.reader()
    }

    /// The counters.
    pub fn stats(&self) -> (r: BackendStats)
        ensures
            r == self@.stats,
    {
        self.stats
    }

    /// The tuning knobs.
    pub fn tuning(&self) -> (r: RuntimeTuning)
        ensures
            r == self@.tuning,
    {
        self.tuning
    }

    /// Whether a program is resident under the key.
    pub fn is_resident(&self, key: &RuntimeCacheKey) -> (r: bool)
        ensures
            r == self@.published.contains_key(*key),
    {
        self.published.contains_key(key)
    }

    /// The phase of a tracked key.
    pub fn phase_of(&self, key: &RuntimeCacheKey) -> (r: Option<EntryPhase>)
        ensures
            r == (if self@.entries.contains_key(*key) {
                Some(self@.entries[*key].phase)
            } else {
                None
            }),
    {
        match self.entries.get(key) {
            Some(entry) => Some(entry.phase),
            None => None,
        }
    }

    /// The number of keys that are being compiled.
    pub fn pending_jobs(&self) -> (r: usize)
        ensures
            r == self@.pending_jobs,
    {
        self.pending_jobs
    }

    /// The current generation.
    pub fn generation(&self) -> (r: u64)
        ensures
            r == self@.generation,
    {
        self.generation
    }

    /// Hands out the effects that were added since the last call.
    pub fn take_effects(&mut self) -> (effects: Vec<Effect>)
        requires
            old(self).inv(),
        ensures
            final(self).inv(),
            effects@ == old(self)@.outbox,
            final(self)@ == (BackendView { outbox: Seq::empty(), ..old(self)@ }),
    {
        let mut effects: Vec<Effect> = Vec::new();
        std::mem::swap(&mut effects, &mut self.outbox);
        effects
    }

    /// Takes one pass's share of events off a queue, oldest first. Surplus events stay queued.
    pub fn drain_events(&self, source: &mut EventSource) -> (events: Vec<LookupRequest>)
        ensures
            drained(*old(source), *final(source), self@.tuning.max_events_per_drain, events@),
    {
        drain(source, self.tuning.max_events_per_drain)
    }

    /// Takes one pass's share of misses off their queue, and only then one of sampled hits off
    /// theirs. Each queue has a share of its own, so hits never displace misses.
    pub fn drain_in_turn(&self, misses: &mut EventSource, hits: &mut EventSource) -> (r: (
        Vec<LookupRequest>,
        Vec<LookupRequest>,
    ))
        ensures
            drained(*old(misses), *final(misses), self@.tuning.max_events_per_drain, r.0@),
            drained(*old(hits), *final(hits), self@.tuning.max_events_per_drain, r.1@),
    {
        let missed = self.drain_events(misses);
        let hit = self.drain_events(hits);
        (missed, hit)
    }

    /// Takes in one lookup. A miss leads to a request.
    pub fn handle_lookup_observed(&mut self, event: LookupRequest, now: Moment) -> (request: Option<
        AdmitRequest,
    >)
        requires
            old(self).inv(),
        ensures
            final(self).inv(),
            match request {
                None => {
                    &&& byte_contents(event.code).len() == 0
                    &&& final(self)@ == old(self)@.hit(event.key, now)
                },
                Some(request) => {
                    &&& byte_contents(event.code).len() > 0
                    &&& final(self)@ == old(self)@
                    &&& request == (AdmitRequest {
                        kind: spec_demand_kind(old(self)@.aot),
                        key: event.key,
                        bytecode: event.code,
                        sync_notifier: SyncNotifier { waiter: None },
                        mode: AdmitMode::Observed,
                    })
                },
            },
    {
        proof {
            lemma_hit_inv(self@, event.key, now);
        }
        if is_empty(&event.code) {
            if let Some(meta) = self.resident_meta.remove(&event.key) {
                let meta = ResidentMeta { last_hit_at: now, ..meta };
                self.resident_meta.insert(event.key, meta);
                assert(self@.resident =~= old(self)@.resident.insert(event.key, meta));
            } else {
                assert(self@.resident =~= old(self)@.resident);
            }
            self.record_artifact_usage(event.key, self.tuning.lookup_hit_sample_rate as u64);
            None
        } else {
            Some(
                AdmitRequest {
                    kind: demand_kind(self.aot),
                    key: event.key,
                    bytecode: event.code,
                    sync_notifier: SyncNotifier::none(),
                    mode: AdmitMode::Observed,
                },
            )
        }
    }

    /// The request that an explicit compilation leads to.
    pub fn handle_compile_jit(&self, request: CompileJitRequest) -> (r: AdmitRequest)
        ensures
            r == (AdmitRequest {
                kind: spec_demand_kind(self@.aot),
                key: request.key,
                bytecode: request.bytecode,
                sync_notifier: request.sync_notifier,
                mode: AdmitMode::Explicit,
            }),
    {
        AdmitRequest {
            kind: demand_kind(self.aot),
            key: request.key,
            bytecode: request.bytecode,
            sync_notifier: request.sync_notifier,
            mode: AdmitMode::Explicit,
        }
    }

    /// The requests that explicit AOT preparations lead to, in order.
    pub fn handle_prepare_aot(&self, requests: Vec<PrepareAotRequest>) -> (r: Vec<AdmitRequest>)
        ensures
            r@ == requests@.map_values(|request: PrepareAotRequest| prepared(request)),
    {
        let mut r: Vec<AdmitRequest> = Vec::new();
        let ghost all = requests@;
        for request in it: requests
            invariant
                it.seq() == all,
                r@ == all.take(it.index() as int).map_values(
                    |request: PrepareAotRequest| prepared(request),
                ),
        {
            r.push(
                AdmitRequest {
                    kind: CompilationKind::Aot,
                    key: request.key,
                    bytecode: request.bytecode,
                    sync_notifier: SyncNotifier::none(),
                    mode: AdmitMode::Explicit,
                },
            );
            assert(r@ =~= all.take(it.index() + 1).map_values(
                |request: PrepareAotRequest| prepared(request),
            ));
        }
        assert(all.take(all.len() as int) =~= all);
        r
    }

    /// Forgets every resident program and every tracked key.
    pub fn handle_clear_resident(&mut self)
        requires
            old(self).inv(),
            old(self)@.generation < u64::MAX,
        ensures
            final(self).inv(),
            old(self)@.clears_to(final(self)@),
            final(self)@.pending_jobs == 0,
    {
        let ghost before = self@;
        self.outbox.push(Effect::CancelInFlight);
        self.published.clear();
        self.outbox.push(Effect::ReleaseAllPrograms);
        self.resident_meta = KeyMap::new();
        self.resident_aot_entries = 0;
        self.resident_aot_bytes = 0;
        self.aot_load_limiter.reset();
        let mut entries: KeyMap<EntryState> = KeyMap::new();
        std::mem::swap(&mut entries, &mut self.entries);
        self.observed_entries = 0;
        self.pending_jobs = 0;
        self.generation = self.generation + 1;
        let keys = entries.keys();
        let ghost emptied = self@;
        assert(emptied.entries =~= Map::<RuntimeCacheKey, EntryView>::empty());
        assert(keys@.take(0) =~= Seq::<RuntimeCacheKey>::empty());
        for i in 0..keys.len()
            invariant
                self.wf(),
                before.entries == entry_views(entries@),
                keys@.to_set() == entries@.dom(),
                self@ == emptied.wake_tracked(before.entries, keys@.take(i as int)),
        {
            assert(keys@.to_set().contains(keys@[i as int]));
            proof {
                assert(keys@.take(i + 1).drop_last() =~= keys@.take(i as int));
            }
            if let Some(entry) = entries.get(&keys[i]) {
                self.notify_all(&entry.pending_notifiers);
            }
        }
        assert(keys@.take(keys@.len() as int) =~= keys@);
        self.outbox.push(Effect::DiscardLookupEvents);
        proof {
            lemma_wake_tracked_frame(emptied, before.entries, keys@);
            assert(before.entries.dom() =~= entries@.dom());
            assert(before.lists_tracked(keys@));
            assert(self@ == before.cleared(keys@));
        }
    }

    /// Asks for the store to be emptied, where there is one.
    pub fn handle_clear_persisted(&mut self)
        requires
            old(self).inv(),
        ensures
            final(self).inv(),
            final(self)@ == old(self)@.clear_persisted(),
    {
        if self.has_store {
            self.outbox.push(Effect::ClearStore);
        }
    }

    /// Forgets everything, in memory and in the store.
    pub fn handle_clear_all(&mut self)
        requires
            old(self).inv(),
            old(self)@.generation < u64::MAX,
        ensures
            final(self).inv(),
            exists|cleared: BackendView| #[trigger]
                old(self)@.clears_to(cleared) && final(self)@ == cleared.clear_persisted(),
            final(self)@.pending_jobs == 0,
    {
        self.handle_clear_resident();
        self.handle_clear_persisted();
    }

    /// Brings the counters of tracked keys up to date.
    pub fn update_entry_stats(&mut self)
        requires
            old(self).inv(),
        ensures
            final(self).inv(),
            final(self)@ == old(self)@.count(
                BackendStats {
                    tracked_entries: old(self)@.entries.dom().len() as u64,
                    cold_entries: total(old(self)@.entries, cold_weight()) as u64,
                    ..old(self)@.stats
                },
            ),
            final(self)@.stats.tracked_entries == old(self)@.entries.dom().len(),
            final(self)@.stats.cold_entries == total(old(self)@.entries, cold_weight()),
    {
        let keys = self.entries.keys();
        let ghost views = self@.entries;
        let mut cold: usize = 0;
        assert(keys@.take(0) =~= Seq::<RuntimeCacheKey>::empty());
        for i in 0..keys.len()
            invariant
                views == entry_views(self.entries@),
                keys@.to_set() == self.entries@.dom(),
                cold == sum_over(views, cold_weight(), keys@.take(i as int)),
                cold <= i,
        {
            assert(keys@.to_set().contains(keys@[i as int]));
            proof {
                assert(keys@.take(i + 1).drop_last() =~= keys@.take(i as int));
            }
            if let Some(entry) = self.entries.get(&keys[i]) {
                if entry.phase == EntryPhase::Cold {
                    cold = cold + 1;
                }
            }
        }
        proof {
            assert(keys@.take(keys@.len() as int) =~= keys@);
            assert(views.dom() =~= self.entries@.dom());
            lemma_sum_over_all(views, cold_weight(), keys@);
        }
        self.stats.tracked_entries = self.entries.len() as u64;
        self.stats.cold_entries = cold as u64;
    }

    /// Carries out a command. It leads to requests, or ends the backend.
    pub fn handle(&mut self, command: Command) -> (flow: ControlFlow<(), Vec<AdmitRequest>>)
        requires
            old(self).inv(),
            command is ClearResident || command is ClearAll ==> old(self)@.generation < u64::MAX,
        ensures
            final(self).inv(),
            flow is Break <==> command is Shutdown,
            match command {
                Command::CompileJit(request) => {
                    &&& final(self)@ == old(self)@
                    &&& led_to(flow) =~= seq![AdmitRequest {
                        kind: spec_demand_kind(old(self)@.aot),
                        key: request.key,
                        bytecode: request.bytecode,
                        sync_notifier: request.sync_notifier,
                        mode: AdmitMode::Explicit,
                    }]
                },
                Command::PrepareAot(requests) => {
                    &&& final(self)@ == old(self)@
                    &&& led_to(flow) == requests@.map_values(
                        |request: PrepareAotRequest| prepared(request),
                    )
                },
                Command::ClearResident => {
                    &&& old(self)@.clears_to(final(self)@)
                    &&& led_to(flow).len() == 0
                },
                Command::ClearPersisted => {
                    &&& final(self)@ == old(self)@.clear_persisted()
                    &&& led_to(flow).len() == 0
                },
                Command::ClearAll => {
                    &&& exists|cleared: BackendView| #[trigger]
                        old(self)@.clears_to(cleared) && final(self)@ == cleared.clear_persisted()
                    &&& led_to(flow).len() == 0
                },
                Command::Pause => {
                    &&& final(self)@ == old(self)@.effect(Effect::PauseWorkers)
                    &&& led_to(flow).len() == 0
                },
                Command::Resume => {
                    &&& final(self)@ == old(self)@.effect(Effect::ResumeWorkers)
                    &&& led_to(flow).len() == 0
                },
                Command::Shutdown => final(self)@ == old(self)@,
            },
    {
        let mut requests: Vec<AdmitRequest> = Vec::new();
        match command {
            Command::CompileJit(request) => {
                requests.push(self.handle_compile_jit(request));
            },
            Command::PrepareAot(prepare) => {
                requests = self.handle_prepare_aot(prepare);
            },
            Command::ClearResident => {
                self.handle_clear_resident();
            },
            Command::ClearPersisted => {
                self.handle_clear_persisted();
            },
            Command::ClearAll => {
                self.handle_clear_all();
            },
            Command::Pause => {
                self.outbox.push(Effect::PauseWorkers);
            },
            Command::Resume => {
                self.outbox.push(Effect::ResumeWorkers);
            },
            Command::Shutdown => {
                return ControlFlow::Break(());
            },
        }
        ControlFlow::Continue(requests)
    }
}

/// The requests that a command led to.
pub open spec fn led_to(flow: ControlFlow<(), Vec<AdmitRequest>>) -> Seq<AdmitRequest> {
    match flow {
        ControlFlow::Continue(requests) => requests@,
        ControlFlow::Break(_) => Seq::empty(),
    }
}

/// The request that an explicit AOT preparation leads to.
pub open spec fn prepared(request: PrepareAotRequest) -> AdmitRequest {
    AdmitRequest {
        kind: CompilationKind::Aot,
        key: request.key,
        bytecode: request.bytecode,
        sync_notifier: SyncNotifier { waiter: None },
        mode: AdmitMode::Explicit,
    }
}

} // verus!
