//! The backend as a whole: requests, results, commands and sweeps.
use alloy_primitives::Bytes;
use crossbeam_queue::ArrayQueue;
use revmc_runtime::backend::commands::{
    Command, CompileJitRequest, Preloaded, PrepareAotRequest,
};
use revmc_runtime::backend::requests::{
    Admission, AdmitRequest, AdmitStep, CompileJob, LoadOrder, ProbeResult,
};
use revmc_runtime::backend::results::{ResultStep, Settlement, WorkerOutcome, WorkerResult};
use revmc_runtime::backend::{
    ArtifactUsageEvent, BackendState, BackendStats, CompilationEvent, Effect, EntryPhase,
    SyncNotifier,
};
use revmc_runtime::clock::{Duration, Moment};
use revmc_runtime::config::{
    AdmitMode, CompilationKind, OptimizationLevel, ProgramKind, RuntimeTuning,
};
use revmc_runtime::events::{EventSource, LookupRequest};
use revmc_runtime::keys::{RuntimeCacheKey, SpecId, B256};
use revmc_runtime::linker::JitObjectSuccess;
use revmc_runtime::storage::{
    AotSuccess, ArtifactKey, ArtifactManifest, BackendSelection, StoredArtifact,
};
use std::ops::ControlFlow;

const CODE: &[u8] = &[0x60, 0x42, 0x5f, 0x52, 0x60, 0x20, 0x5f, 0xf3];

fn key(last_byte: u8) -> RuntimeCacheKey {
    RuntimeCacheKey { code_hash: B256::with_last_byte(last_byte), spec_id: SpecId::CANCUN }
}

fn at(millis: u64) -> Moment {
    Moment { nanos: millis * 1_000_000 }
}

fn waiter(name: u64) -> SyncNotifier {
    SyncNotifier { waiter: Some(name) }
}

/// Tuning under which the second miss asks the store and the third is compiled.
fn tuning() -> RuntimeTuning {
    RuntimeTuning {
        jit_hot_threshold: 3,
        persisted_aot_hot_threshold: 2,
        jit_max_pending_jobs: 2,
        max_observed_entries: 2,
        ..Default::default()
    }
}

fn jit_backend() -> BackendState {
    BackendState::new(tuning(), false, false, &Vec::new(), at(0))
}

fn aot_backend(tuning: RuntimeTuning) -> BackendState {
    BackendState::new(tuning, true, true, &Vec::new(), at(0))
}

fn miss(backend: &mut BackendState, k: RuntimeCacheKey, now: Moment) -> AdmitRequest {
    let event = LookupRequest { key: k, code: Bytes::from_static(CODE) };
    backend.handle_lookup_observed(event, now).expect("a miss leads to a request")
}

fn observed(kind: CompilationKind, k: RuntimeCacheKey) -> AdmitRequest {
    AdmitRequest {
        kind,
        key: k,
        bytecode: Bytes::from_static(CODE),
        sync_notifier: SyncNotifier::none(),
        mode: AdmitMode::Observed,
    }
}

fn explicit(kind: CompilationKind, k: RuntimeCacheKey, who: u64) -> AdmitRequest {
    AdmitRequest {
        kind,
        key: k,
        bytecode: Bytes::from_static(CODE),
        sync_notifier: waiter(who),
        mode: AdmitMode::Explicit,
    }
}

fn artifact_key(k: RuntimeCacheKey) -> ArtifactKey {
    ArtifactKey {
        runtime: k,
        backend: BackendSelection::Llvm,
        opt_level: OptimizationLevel::Aggressive,
    }
}

fn stored(k: RuntimeCacheKey, artifact_len: usize) -> StoredArtifact {
    StoredArtifact {
        manifest: ArtifactManifest {
            artifact_key: artifact_key(k),
            symbol_name: "aot_symbol".to_string(),
            bytecode_len: CODE.len(),
            artifact_len,
            created_at_unix_secs: 1,
            content_hash: [0; 32],
        },
        dylib_path: "/artifacts/lib.so".to_string(),
    }
}

fn expect_done(step: AdmitStep) {
    assert!(matches!(step, AdmitStep::Done));
}

fn expect_probe(step: AdmitStep) -> (Admission, ArtifactKey) {
    match step {
        AdmitStep::Probe(adm, artifact_key) => (adm, artifact_key),
        _ => panic!("expected a question to the store"),
    }
}

fn expect_load(step: AdmitStep) -> (Admission, LoadOrder) {
    match step {
        AdmitStep::Load(adm, order) => (adm, order),
        _ => panic!("expected a load"),
    }
}

fn expect_dispatch(step: AdmitStep) -> (Admission, CompileJob) {
    match step {
        AdmitStep::Dispatch(adm, job) => (adm, job),
        _ => panic!("expected a job"),
    }
}

fn result(
    kind: CompilationKind,
    k: RuntimeCacheKey,
    outcome: WorkerOutcome,
    who: u64,
    generation: u64,
) -> WorkerResult {
    WorkerResult {
        kind,
        key: k,
        outcome,
        sync_notifier: waiter(who),
        generation,
        compile_duration: Duration::from_millis(5),
        timings: 1_000 + who,
    }
}

fn compiled(k: RuntimeCacheKey, kind: CompilationKind, success: bool, who: u64) -> Effect {
    Effect::Compilation(CompilationEvent {
        code_hash: k.code_hash,
        spec_id: k.spec_id,
        duration: Duration::from_millis(5),
        kind,
        success,
        timings: 1_000 + who,
    })
}

fn expect_publish(step: ResultStep) -> (Settlement, u64) {
    match step {
        ResultStep::Publish(settlement, slot) => (settlement, slot),
        _ => panic!("expected a program to publish"),
    }
}

/// Gets an explicit compilation of the key in flight.
fn in_flight(backend: &mut BackendState, kind: CompilationKind, k: RuntimeCacheKey, who: u64) {
    let mut step = backend.try_admit(explicit(kind, k, who), true, at(0));
    if matches!(step, AdmitStep::Probe(..)) {
        let (adm, _) = expect_probe(step);
        step = backend.probe_finished(adm, ProbeResult::Missing);
    }
    let (adm, _) = expect_dispatch(step);
    backend.dispatch_finished(adm, true);
    assert_eq!(backend.phase_of(&k), Some(EntryPhase::Working));
}

/// Makes an AOT program resident by an explicit load.
fn load(backend: &mut BackendState, k: RuntimeCacheKey, len: usize, slot: u64, now: Moment) {
    let step = backend.try_admit(explicit(CompilationKind::Aot, k, 0), true, now);
    let (adm, _) = expect_probe(step);
    let step = backend.probe_finished(adm, ProbeResult::Found(stored(k, len)));
    let (adm, order) = expect_load(step);
    expect_done(backend.load_finished(adm, order, Some(slot), now, now));
    assert!(backend.is_resident(&k));
}

// Requests.

#[test]
fn misses_are_compiled_once_hot() {
    let mut backend = jit_backend();
    for _ in 0..2 {
        let request = miss(&mut backend, key(1), at(1));
        expect_done(backend.try_admit(request, true, at(1)));
        assert_eq!(backend.phase_of(&key(1)), Some(EntryPhase::Cold));
    }
    let request = miss(&mut backend, key(1), at(2));
    let (adm, job) = expect_dispatch(backend.try_admit(request, true, at(2)));
    assert_eq!(job.kind, CompilationKind::Jit);
    assert_eq!(job.key, key(1));
    assert_eq!(job.bytecode, Bytes::from_static(CODE));
    assert_eq!(job.symbol_name, format!("jit_{}01_CANCUN", "0".repeat(62)));
    assert_eq!(job.opt_level, OptimizationLevel::Standard);
    assert_eq!(job.generation, 0);
    backend.dispatch_finished(adm, true);
    assert_eq!(backend.phase_of(&key(1)), Some(EntryPhase::Working));
    assert_eq!(backend.pending_jobs(), 1);
    assert_eq!(backend.stats().compilations_dispatched, 1);
}

#[test]
fn explicit_requests_do_not_wait_for_heat() {
    let mut backend = jit_backend();
    let step = backend.try_admit(explicit(CompilationKind::Jit, key(1), 9), true, at(1));
    let (_, job) = expect_dispatch(step);
    assert_eq!(job.sync_notifier, waiter(9));
    assert_eq!(backend.take_effects(), Vec::new());
}

#[test]
fn bytecode_that_is_not_compiled_is_answered_at_once() {
    let mut backend = jit_backend();
    expect_done(backend.try_admit(explicit(CompilationKind::Jit, key(1), 9), false, at(1)));
    assert_eq!(backend.take_effects(), vec![Effect::Notify(9)]);
    assert_eq!(backend.phase_of(&key(1)), None);
}

#[test]
fn observed_entries_are_limited() {
    let mut backend = jit_backend();
    expect_done(backend.try_admit(observed(CompilationKind::Jit, key(1)), true, at(1)));
    expect_done(backend.try_admit(observed(CompilationKind::Jit, key(2)), true, at(1)));
    expect_done(backend.try_admit(observed(CompilationKind::Jit, key(3)), true, at(1)));
    assert_eq!(backend.phase_of(&key(3)), None);
    assert_eq!(backend.stats().observed_entry_rejections, 1);
    // Keys that have their slot are not turned away, and explicit requests need none.
    expect_done(backend.try_admit(observed(CompilationKind::Jit, key(1)), true, at(1)));
    let step = backend.try_admit(explicit(CompilationKind::Jit, key(3), 1), true, at(1));
    expect_dispatch(step);
    assert_eq!(backend.stats().observed_entry_rejections, 1);
    let none = RuntimeTuning { max_observed_entries: 0, ..tuning() };
    let mut closed = BackendState::new(none, false, false, &Vec::new(), at(0));
    expect_done(closed.try_admit(observed(CompilationKind::Jit, key(1)), true, at(1)));
    assert_eq!(closed.stats().observed_entry_rejections, 1);
}

#[test]
fn requests_for_a_key_in_flight_wait_for_it() {
    let mut backend = jit_backend();
    in_flight(&mut backend, CompilationKind::Jit, key(1), 1);
    expect_done(backend.try_admit(explicit(CompilationKind::Jit, key(1), 2), true, at(1)));
    assert_eq!(backend.pending_jobs(), 1);
    assert_eq!(backend.take_effects(), Vec::new());
    let end = result(CompilationKind::Jit, key(1), WorkerOutcome::Jit(70), 1, 0);
    let (settlement, slot) = expect_publish(backend.handle_worker_result(end, None));
    assert_eq!(slot, 70);
    assert_eq!(settlement.waiters, vec![waiter(1), waiter(2)]);
    assert_eq!(
        backend.take_effects(),
        vec![compiled(key(1), CompilationKind::Jit, true, 1)],
    );
    backend.link_finished(settlement, Some(slot), at(2));
    assert_eq!(backend.take_effects(), vec![Effect::Notify(1), Effect::Notify(2)]);
}

#[test]
fn jobs_are_limited_and_refusals_are_answered() {
    let mut backend = jit_backend();
    in_flight(&mut backend, CompilationKind::Jit, key(1), 1);
    in_flight(&mut backend, CompilationKind::Jit, key(2), 2);
    expect_done(backend.try_admit(explicit(CompilationKind::Jit, key(3), 3), true, at(1)));
    assert_eq!(backend.take_effects(), vec![Effect::Notify(3)]);
    let end = result(CompilationKind::Jit, key(2), WorkerOutcome::Failed, 2, 0);
    backend.handle_worker_result(end, None);
    backend.take_effects();
    let step = backend.try_admit(explicit(CompilationKind::Jit, key(3), 3), true, at(3));
    let (adm, _) = expect_dispatch(step);
    backend.dispatch_finished(adm, false);
    assert_eq!(backend.take_effects(), vec![Effect::Notify(3)]);
    assert_eq!(backend.phase_of(&key(3)), Some(EntryPhase::Cold));
    assert_eq!(backend.pending_jobs(), 1);
}

#[test]
fn the_store_is_asked_once_and_only_for_hot_keys() {
    let mut backend = aot_backend(tuning());
    expect_done(backend.try_admit(observed(CompilationKind::Aot, key(1)), true, at(1)));
    assert_eq!(backend.stats().persisted_aot_probes, 0);
    let step = backend.try_admit(observed(CompilationKind::Aot, key(1)), true, at(2));
    let (adm, asked) = expect_probe(step);
    assert_eq!(asked, artifact_key(key(1)));
    assert_eq!(backend.stats().persisted_aot_probes, 1);
    expect_done(backend.probe_finished(adm, ProbeResult::Missing));
    assert_eq!(backend.stats().persisted_aot_probe_misses, 1);
    // The third miss is hot enough to compile, and the store is not asked again.
    let step = backend.try_admit(observed(CompilationKind::Aot, key(1)), true, at(3));
    let (_, job) = expect_dispatch(step);
    assert_eq!(job.symbol_name, format!("aot_{}01_CANCUN", "0".repeat(62)));
    assert_eq!(job.opt_level, OptimizationLevel::Aggressive);
    assert_eq!(backend.stats().persisted_aot_probes, 1);
}

#[test]
fn a_store_that_fails_leaves_compilation_open() {
    let mut backend = aot_backend(tuning());
    let step = backend.try_admit(explicit(CompilationKind::Aot, key(1), 1), true, at(1));
    let (adm, _) = expect_probe(step);
    expect_dispatch(backend.probe_finished(adm, ProbeResult::Failed));
    assert_eq!(backend.stats().persisted_aot_probe_misses, 0);
}

#[test]
fn without_a_store_nothing_is_asked() {
    let mut backend = BackendState::new(tuning(), true, false, &Vec::new(), at(0));
    let step = backend.try_admit(explicit(CompilationKind::Aot, key(1), 1), true, at(1));
    expect_dispatch(step);
    assert_eq!(backend.stats().persisted_aot_probes, 0);
}

#[test]
fn found_artifacts_are_loaded_and_published() {
    let mut backend = aot_backend(tuning());
    let reader = backend.reader();
    expect_done(backend.try_admit(observed(CompilationKind::Aot, key(1)), true, at(1)));
    let step = backend.try_admit(observed(CompilationKind::Aot, key(1)), true, at(2));
    let (adm, _) = expect_probe(step);
    let step = backend.probe_finished(adm, ProbeResult::Found(stored(key(1), 10)));
    let (adm, order) = expect_load(step);
    assert_eq!(order.stored, stored(key(1), 10));
    assert_eq!(order.victims, Vec::new());
    assert_eq!(reader.get(&key(1)), None);
    expect_done(backend.load_finished(adm, order, Some(50), at(2), at(5)));
    assert_eq!(reader.get(&key(1)), Some(50));
    assert_eq!(backend.phase_of(&key(1)), None);
    let stats = backend.stats();
    assert_eq!(stats.persisted_aot_loads, 1);
    assert_eq!(stats.persisted_aot_load_ns, 3_000_000);
    let usage = ArtifactUsageEvent { artifact_key: artifact_key(key(1)), weight: 1 };
    assert_eq!(backend.take_effects(), vec![Effect::ArtifactUsage(usage)]);
    // A resident key is settled at once.
    expect_done(backend.try_admit(explicit(CompilationKind::Aot, key(1), 4), true, at(6)));
    assert_eq!(backend.take_effects(), vec![Effect::Notify(4)]);
}

#[test]
fn oversized_artifacts_are_never_tried_again() {
    let mut backend = aot_backend(RuntimeTuning { max_resident_aot_bytes: 100, ..tuning() });
    let step = backend.try_admit(explicit(CompilationKind::Aot, key(1), 1), true, at(1));
    let (adm, _) = expect_probe(step);
    expect_done(backend.probe_finished(adm, ProbeResult::Found(stored(key(1), 101))));
    assert_eq!(backend.take_effects(), vec![Effect::Notify(1)]);
    assert_eq!(backend.stats().persisted_aot_oversized, 1);
    expect_done(backend.try_admit(explicit(CompilationKind::Aot, key(1), 2), true, at(2)));
    assert_eq!(backend.take_effects(), vec![Effect::Notify(2)]);
    assert_eq!(backend.stats().persisted_aot_probes, 1);
}

#[test]
fn artifacts_without_room_are_put_off_and_retried() {
    let tight = RuntimeTuning {
        max_resident_aot_entries: 1,
        resident_aot_min_idle: Duration::from_secs(10),
        persisted_aot_hot_threshold: 1,
        ..tuning()
    };
    let mut backend = aot_backend(tight);
    load(&mut backend, key(1), 10, 50, at(0));
    backend.take_effects();
    let step = backend.try_admit(observed(CompilationKind::Aot, key(2)), true, at(9_000));
    let (adm, _) = expect_probe(step);
    expect_done(backend.probe_finished(adm, ProbeResult::Found(stored(key(2), 10))));
    assert_eq!(backend.stats().persisted_aot_capacity_deferred, 1);
    assert!(backend.is_resident(&key(1)));
    // Once the other program is idle long enough it makes room, and the store is not asked.
    let step = backend.try_admit(observed(CompilationKind::Aot, key(2)), true, at(10_000));
    let (adm, order) = expect_load(step);
    assert_eq!(order.victims, vec![key(1)]);
    expect_done(backend.load_finished(adm, order, Some(51), at(10_000), at(10_001)));
    assert!(!backend.is_resident(&key(1)));
    assert!(backend.is_resident(&key(2)));
    assert_eq!(backend.stats().aot_evictions, 1);
    assert_eq!(backend.stats().evictions, 1);
    let usage = ArtifactUsageEvent { artifact_key: artifact_key(key(2)), weight: 1 };
    assert_eq!(
        backend.take_effects(),
        vec![Effect::ReleaseProgram(50), Effect::ArtifactUsage(usage)],
    );
}

#[test]
fn observed_loads_are_spaced() {
    let paced = RuntimeTuning {
        persisted_aot_load_interval: Duration::from_millis(100),
        persisted_aot_hot_threshold: 1,
        ..tuning()
    };
    let mut backend = aot_backend(paced);
    let step = backend.try_admit(observed(CompilationKind::Aot, key(1)), true, at(0));
    let (adm, _) = expect_probe(step);
    let step = backend.probe_finished(adm, ProbeResult::Found(stored(key(1), 10)));
    let (adm, order) = expect_load(step);
    expect_done(backend.load_finished(adm, order, Some(50), at(0), at(0)));
    let step = backend.try_admit(observed(CompilationKind::Aot, key(2)), true, at(99));
    let (adm, _) = expect_probe(step);
    expect_done(backend.probe_finished(adm, ProbeResult::Found(stored(key(2), 10))));
    assert_eq!(backend.stats().persisted_aot_rate_limited, 1);
    // An explicit request passes the limiter by.
    load(&mut backend, key(3), 10, 52, at(99));
    let step = backend.try_admit(observed(CompilationKind::Aot, key(2)), true, at(100));
    expect_load(step);
}

#[test]
fn a_failed_load_evicts_nothing_and_leads_to_a_compilation() {
    let tight = RuntimeTuning { max_resident_aot_entries: 1, ..tuning() };
    let mut backend = aot_backend(tight);
    load(&mut backend, key(1), 10, 50, at(0));
    backend.take_effects();
    let step = backend.try_admit(explicit(CompilationKind::Aot, key(2), 7), true, at(1));
    let (adm, _) = expect_probe(step);
    let step = backend.probe_finished(adm, ProbeResult::Found(stored(key(2), 10)));
    let (adm, order) = expect_load(step);
    assert_eq!(order.victims, vec![key(1)]);
    let (_, job) = expect_dispatch(backend.load_finished(adm, order, None, at(1), at(2)));
    assert_eq!(job.sync_notifier, waiter(7));
    assert!(backend.is_resident(&key(1)));
    assert_eq!(backend.take_effects(), Vec::new());
}

#[test]
fn intervals_that_cannot_be_counted_are_told_apart() {
    let paced = RuntimeTuning {
        persisted_aot_load_interval: Duration { nanos: u64::MAX as u128 },
        persisted_aot_hot_threshold: 1,
        jit_hot_threshold: usize::MAX,
        max_resident_aot_entries: 1,
        resident_aot_min_idle: Duration::from_secs(10),
        ..tuning()
    };
    let late = Moment { nanos: 1 };
    let mut backend = aot_backend(paced);
    // Nothing is known of the artifact, so no interval begins.
    assert!(backend.can_admit(&observed(CompilationKind::Aot, key(1)), true, late));
    let step = backend.try_admit(observed(CompilationKind::Aot, key(1)), true, late);
    let (adm, _) = expect_probe(step);
    assert!(backend.can_take_answer(&adm, &ProbeResult::Missing));
    assert!(!backend.can_take_answer(&adm, &ProbeResult::Found(stored(key(1), 10))));
    // Without room for the artifact none begins either.
    load(&mut backend, key(2), 10, 50, late);
    assert!(backend.can_take_answer(&adm, &ProbeResult::Found(stored(key(1), 10))));
    expect_done(backend.probe_finished(adm, ProbeResult::Found(stored(key(1), 10))));
    assert_eq!(backend.stats().persisted_aot_capacity_deferred, 1);
    // The other program is idle later on; an observed miss would begin an interval.
    let later = at(20_000);
    assert!(!backend.can_admit(&observed(CompilationKind::Aot, key(1)), true, later));
    assert!(backend.can_admit(&observed(CompilationKind::Aot, key(1)), false, later));
    assert!(backend.can_admit(&observed(CompilationKind::Jit, key(1)), true, later));
    assert!(backend.can_admit(&explicit(CompilationKind::Aot, key(1), 1), true, later));
    assert!(backend.can_admit(&observed(CompilationKind::Aot, key(2)), true, later));
}

// Results.

#[test]
fn compiled_programs_are_what_lookups_find() {
    let mut backend = jit_backend();
    let reader = backend.reader();
    in_flight(&mut backend, CompilationKind::Jit, key(1), 1);
    let end = result(CompilationKind::Jit, key(1), WorkerOutcome::Jit(70), 1, 0);
    let (settlement, slot) = expect_publish(backend.handle_worker_result(end, None));
    // The compilation is reported before the program can be found.
    assert_eq!(
        backend.take_effects(),
        vec![compiled(key(1), CompilationKind::Jit, true, 1)],
    );
    assert_eq!(reader.get(&key(1)), None);
    backend.link_finished(settlement, Some(slot), at(2));
    assert_eq!(reader.get(&key(1)), Some(70));
    assert_eq!(backend.pending_jobs(), 0);
    assert_eq!(backend.phase_of(&key(1)), None);
    assert_eq!(backend.stats().compilations_succeeded, 1);
    // A second program under the key takes the place of the first, which is released.
    let end = result(CompilationKind::Jit, key(1), WorkerOutcome::Jit(71), 1, 0);
    let (settlement, slot) = expect_publish(backend.handle_worker_result(end, None));
    backend.take_effects();
    backend.link_finished(settlement, Some(slot), at(3));
    assert_eq!(reader.get(&key(1)), Some(71));
    assert_eq!(backend.take_effects(), vec![Effect::ReleaseProgram(70), Effect::Notify(1)]);
}

#[test]
fn failed_compilations_are_forgotten_and_answered() {
    let mut backend = jit_backend();
    in_flight(&mut backend, CompilationKind::Jit, key(1), 1);
    let end = result(CompilationKind::Jit, key(1), WorkerOutcome::Failed, 1, 0);
    assert!(matches!(backend.handle_worker_result(end, None), ResultStep::Done));
    assert_eq!(backend.phase_of(&key(1)), None);
    assert!(!backend.is_resident(&key(1)));
    assert_eq!(backend.stats().compilations_failed, 1);
    assert_eq!(
        backend.take_effects(),
        vec![compiled(key(1), CompilationKind::Jit, false, 1), Effect::Notify(1)],
    );
}

#[test]
fn results_of_an_earlier_generation_publish_nothing() {
    let mut backend = jit_backend();
    in_flight(&mut backend, CompilationKind::Jit, key(1), 1);
    backend.handle_clear_resident();
    assert_eq!(backend.generation(), 1);
    backend.take_effects();
    let late = result(CompilationKind::Jit, key(1), WorkerOutcome::Jit(70), 1, 0);
    assert!(matches!(backend.handle_worker_result(late, None), ResultStep::Done));
    assert!(!backend.is_resident(&key(1)));
    assert_eq!(backend.pending_jobs(), 0);
    assert_eq!(backend.take_effects(), vec![Effect::Notify(1), Effect::ReleaseProgram(70)]);
    let stats = backend.stats();
    assert_eq!((stats.compilations_succeeded, stats.compilations_failed), (0, 0));
}

#[test]
fn late_results_take_nothing_off_the_count_of_later_jobs() {
    let mut backend = jit_backend();
    in_flight(&mut backend, CompilationKind::Jit, key(1), 1);
    in_flight(&mut backend, CompilationKind::Jit, key(2), 2);
    backend.handle_clear_resident();
    assert_eq!(backend.pending_jobs(), 0);
    in_flight(&mut backend, CompilationKind::Jit, key(2), 3);
    assert_eq!(backend.pending_jobs(), 1);
    let late = result(CompilationKind::Jit, key(1), WorkerOutcome::Failed, 1, 0);
    assert!(matches!(backend.handle_worker_result(late, None), ResultStep::Done));
    assert_eq!(backend.pending_jobs(), 1);
    // A late result for a key that is being compiled anew drops the key, and with it the count.
    let late = result(CompilationKind::Jit, key(2), WorkerOutcome::Failed, 2, 0);
    assert!(matches!(backend.handle_worker_result(late, None), ResultStep::Done));
    assert_eq!(backend.phase_of(&key(2)), None);
    assert_eq!(backend.pending_jobs(), 0);
    // The result of the later job still publishes its program.
    let end = result(CompilationKind::Jit, key(2), WorkerOutcome::Jit(72), 3, 1);
    let (settlement, slot) = expect_publish(backend.handle_worker_result(end, None));
    backend.link_finished(settlement, Some(slot), at(4));
    assert_eq!(backend.reader().get(&key(2)), Some(72));
    assert_eq!(backend.pending_jobs(), 0);
}

fn jit_object() -> JitObjectSuccess {
    JitObjectSuccess {
        symbol_name: "jit_symbol".to_string(),
        object_bytes: vec![1, 2, 3],
        builtin_symbols: Vec::new(),
    }
}

fn expect_link(step: ResultStep) -> (Settlement, JitObjectSuccess) {
    match step {
        ResultStep::Link(settlement, object) => (settlement, object),
        _ => panic!("expected a link"),
    }
}

#[test]
fn objects_are_linked_and_then_published() {
    let mut backend = jit_backend();
    in_flight(&mut backend, CompilationKind::Jit, key(1), 1);
    let end = result(CompilationKind::Jit, key(1), WorkerOutcome::JitObject(jit_object()), 1, 0);
    let (settlement, object) = expect_link(backend.handle_worker_result(end, None));
    assert_eq!(settlement.key, key(1));
    assert_eq!(settlement.waiters, vec![waiter(1)]);
    assert_eq!(object.object_bytes, vec![1, 2, 3]);
    assert!(!backend.is_resident(&key(1)));
    backend.link_finished(settlement, Some(80), at(3));
    assert_eq!(backend.reader().get(&key(1)), Some(80));
    assert_eq!(backend.stats().compilations_succeeded, 1);
    in_flight(&mut backend, CompilationKind::Jit, key(2), 2);
    let end = result(CompilationKind::Jit, key(2), WorkerOutcome::JitObject(jit_object()), 2, 0);
    let (settlement, _) = expect_link(backend.handle_worker_result(end, None));
    backend.take_effects();
    backend.link_finished(settlement, None, at(5));
    assert!(!backend.is_resident(&key(2)));
    assert_eq!(backend.phase_of(&key(2)), None);
    assert_eq!(backend.stats().compilations_failed, 1);
    assert_eq!(backend.take_effects(), vec![Effect::Notify(2)]);
}

fn library() -> AotSuccess {
    AotSuccess {
        dylib_bytes: vec![9; 10],
        symbol_name: "aot_symbol".to_string(),
        bytecode_len: CODE.len(),
    }
}

fn expect_store(step: ResultStep) -> (Settlement, AdmitMode, ArtifactManifest, Vec<u8>) {
    match step {
        ResultStep::Store(settlement, mode, manifest, bytes) => {
            (settlement, mode, manifest, bytes)
        }
        _ => panic!("expected a library to store"),
    }
}

fn expect_reload(step: ResultStep) -> (Settlement, AdmitMode, ArtifactKey) {
    match step {
        ResultStep::Reload(settlement, mode, artifact_key) => (settlement, mode, artifact_key),
        _ => panic!("expected a question to the store"),
    }
}

/// Compiles a library for the key and stores it.
fn store_library(
    backend: &mut BackendState,
    k: RuntimeCacheKey,
    who: u64,
) -> (Settlement, AdmitMode, ArtifactKey) {
    in_flight(backend, CompilationKind::Aot, k, who);
    let end = result(CompilationKind::Aot, k, WorkerOutcome::Aot(library()), who, 0);
    let step = backend.handle_worker_result(end, Some(1_700_000_000));
    let (settlement, mode, manifest, bytes) = expect_store(step);
    assert_eq!(mode, AdmitMode::Explicit);
    assert_eq!(manifest.artifact_key, artifact_key(k));
    assert_eq!(manifest.artifact_len, 10);
    assert_eq!(manifest.bytecode_len, CODE.len());
    assert_eq!(manifest.created_at_unix_secs, 1_700_000_000);
    assert_eq!(manifest.content_hash, alloy_primitives::keccak256([9u8; 10]).0);
    assert_eq!(bytes, vec![9; 10]);
    expect_reload(backend.store_finished(settlement, mode, true))
}

#[test]
fn compiled_libraries_are_stored_read_back_and_loaded() {
    let mut backend = aot_backend(tuning());
    let (settlement, mode, asked) = store_library(&mut backend, key(1), 1);
    assert_eq!(asked, artifact_key(key(1)));
    let found = ProbeResult::Found(stored(key(1), 10));
    let step = backend.reload_finished(settlement, mode, found, at(3));
    let ResultStep::Load(settlement, order) = step else {
        panic!("expected a load");
    };
    backend.take_effects();
    backend.artifact_loaded(settlement, order, Some(90), at(4));
    assert_eq!(backend.reader().get(&key(1)), Some(90));
    assert_eq!(backend.take_effects(), vec![Effect::Notify(1)]);
    let stats = backend.stats();
    assert_eq!(stats.compilations_succeeded, 1);
    // Neither the limiter nor the load counters take part.
    assert_eq!(stats.persisted_aot_loads, 0);
}

#[test]
fn libraries_that_cannot_be_kept_count_as_failures() {
    let mut no_store = BackendState::new(tuning(), true, false, &Vec::new(), at(0));
    in_flight(&mut no_store, CompilationKind::Aot, key(1), 1);
    let end = result(CompilationKind::Aot, key(1), WorkerOutcome::Aot(library()), 1, 0);
    assert!(matches!(no_store.handle_worker_result(end, None), ResultStep::Done));
    assert_eq!(no_store.stats().compilations_failed, 1);
    assert_eq!(no_store.phase_of(&key(1)), None);

    let mut full = aot_backend(tuning());
    in_flight(&mut full, CompilationKind::Aot, key(1), 1);
    let end = result(CompilationKind::Aot, key(1), WorkerOutcome::Aot(library()), 1, 0);
    let (settlement, mode, _, _) = expect_store(full.handle_worker_result(end, None));
    full.take_effects();
    assert!(matches!(full.store_finished(settlement, mode, false), ResultStep::Done));
    assert_eq!(full.stats().compilations_failed, 1);
    assert_eq!(full.take_effects(), vec![Effect::Notify(1)]);

    for answer in [ProbeResult::Missing, ProbeResult::Failed] {
        let mut lossy = aot_backend(tuning());
        let (settlement, mode, _) = store_library(&mut lossy, key(1), 1);
        lossy.take_effects();
        let step = lossy.reload_finished(settlement, mode, answer, at(3));
        assert!(matches!(step, ResultStep::Done));
        assert_eq!(lossy.stats().compilations_failed, 1);
        assert_eq!(lossy.phase_of(&key(1)), None);
        assert_eq!(lossy.take_effects(), vec![Effect::Notify(1)]);
    }
}

#[test]
fn libraries_over_budget_stay_in_the_store() {
    let tight = RuntimeTuning { max_resident_aot_bytes: 5, ..tuning() };
    let mut backend = aot_backend(tight);
    let (settlement, mode, _) = store_library(&mut backend, key(1), 1);
    let found = ProbeResult::Found(stored(key(1), 10));
    let step = backend.reload_finished(settlement, mode, found, at(3));
    assert!(matches!(step, ResultStep::Done));
    assert!(!backend.is_resident(&key(1)));
    assert_eq!(backend.phase_of(&key(1)), Some(EntryPhase::Cold));
    let stats = backend.stats();
    assert_eq!(stats.compilations_succeeded, 1);
    assert_eq!(stats.persisted_aot_oversized, 1);
}

#[test]
fn a_library_that_finds_no_room_is_tried_again_later() {
    let tight = RuntimeTuning {
        max_resident_aot_entries: 1,
        resident_aot_min_idle: Duration::from_secs(10),
        persisted_aot_hot_threshold: 1,
        jit_hot_threshold: 1,
        ..tuning()
    };
    let mut backend = aot_backend(tight);
    load(&mut backend, key(1), 10, 50, at(0));
    let step = backend.try_admit(observed(CompilationKind::Aot, key(2)), true, at(1));
    let (adm, _) = expect_probe(step);
    let (adm, _) = expect_dispatch(backend.probe_finished(adm, ProbeResult::Missing));
    backend.dispatch_finished(adm, true);
    let end = result(CompilationKind::Aot, key(2), WorkerOutcome::Aot(library()), 2, 0);
    let (settlement, mode, _, _) = expect_store(backend.handle_worker_result(end, None));
    assert_eq!(mode, AdmitMode::Observed);
    let (settlement, mode, _) = expect_reload(backend.store_finished(settlement, mode, true));
    let found = ProbeResult::Found(stored(key(2), 10));
    let step = backend.reload_finished(settlement, mode, found, at(3));
    assert!(matches!(step, ResultStep::Done));
    assert_eq!(backend.stats().compilations_succeeded, 1);
    assert_eq!(backend.stats().persisted_aot_capacity_deferred, 1);
    // The artifact is remembered: a later miss loads it without asking the store.
    let step = backend.try_admit(observed(CompilationKind::Aot, key(2)), true, at(20_000));
    let (_, order) = expect_load(step);
    assert_eq!(order.stored, stored(key(2), 10));
    assert_eq!(backend.stats().persisted_aot_probes, 2);
}

#[test]
fn an_explicit_request_turns_a_compilation_in_flight_explicit() {
    let eager = RuntimeTuning { persisted_aot_hot_threshold: 1, jit_hot_threshold: 1, ..tuning() };
    let mut backend = aot_backend(eager);
    let step = backend.try_admit(observed(CompilationKind::Aot, key(1)), true, at(1));
    let (adm, _) = expect_probe(step);
    let (adm, _) = expect_dispatch(backend.probe_finished(adm, ProbeResult::Missing));
    backend.dispatch_finished(adm, true);
    expect_done(backend.try_admit(explicit(CompilationKind::Aot, key(1), 5), true, at(2)));
    let end = result(CompilationKind::Aot, key(1), WorkerOutcome::Aot(library()), 6, 0);
    let (settlement, mode, _, _) = expect_store(backend.handle_worker_result(end, None));
    assert_eq!(mode, AdmitMode::Explicit);
    assert_eq!(settlement.waiters, vec![waiter(6), waiter(5)]);
}

#[test]
fn a_library_that_does_not_load_counts_as_a_failure() {
    let mut backend = aot_backend(tuning());
    let (settlement, mode, _) = store_library(&mut backend, key(1), 1);
    let found = ProbeResult::Found(stored(key(1), 10));
    let step = backend.reload_finished(settlement, mode, found, at(3));
    let ResultStep::Load(settlement, order) = step else {
        panic!("expected a load");
    };
    backend.artifact_loaded(settlement, order, None, at(4));
    assert!(!backend.is_resident(&key(1)));
    assert_eq!(backend.stats().compilations_failed, 1);
    // It is taken for absent, so the key is compiled anew.
    let step = backend.try_admit(explicit(CompilationKind::Aot, key(1), 2), true, at(5));
    expect_dispatch(step);
}

// Start, commands and lookups.

#[test]
fn preloaded_programs_count_against_the_budgets() {
    let preloaded = vec![
        Preloaded { key: key(1), slot: 10, kind: ProgramKind::Aot, artifact_len: 60 },
        Preloaded { key: key(2), slot: 11, kind: ProgramKind::Jit, artifact_len: 0 },
        Preloaded { key: key(3), slot: 12, kind: ProgramKind::Aot, artifact_len: 30 },
    ];
    let tight = RuntimeTuning { max_resident_aot_bytes: 100, ..tuning() };
    let mut backend = BackendState::new(tight, true, true, &preloaded, at(0));
    let reader = backend.reader();
    assert_eq!(reader.get(&key(1)), Some(10));
    assert_eq!(reader.get(&key(2)), Some(11));
    assert_eq!(reader.get(&key(3)), Some(12));
    assert_eq!(backend.stats(), BackendStats::zero());
    let step = backend.try_admit(explicit(CompilationKind::Aot, key(4), 1), true, at(1));
    let (adm, _) = expect_probe(step);
    let step = backend.probe_finished(adm, ProbeResult::Found(stored(key(4), 20)));
    let (_, order) = expect_load(step);
    // 60 + 30 + 20 is over 100; the first key goes.
    assert_eq!(order.victims, vec![key(1)]);
}

#[test]
fn commands_lead_to_requests() {
    let mut backend = aot_backend(tuning());
    let compile = Command::CompileJit(CompileJitRequest {
        key: key(1),
        bytecode: Bytes::from_static(CODE),
        sync_notifier: waiter(3),
    });
    let ControlFlow::Continue(requests) = backend.handle(compile) else {
        panic!("the backend goes on");
    };
    assert_eq!(requests.len(), 1);
    assert_eq!(requests[0].kind, CompilationKind::Aot);
    assert_eq!(requests[0].mode, AdmitMode::Explicit);
    assert_eq!(requests[0].sync_notifier, waiter(3));
    let prepare = Command::PrepareAot(vec![
        PrepareAotRequest { key: key(1), bytecode: Bytes::from_static(CODE) },
        PrepareAotRequest { key: key(2), bytecode: Bytes::from_static(CODE) },
    ]);
    let mut jit = jit_backend();
    let ControlFlow::Continue(requests) = jit.handle(prepare) else {
        panic!("the backend goes on");
    };
    assert_eq!(requests.iter().map(|r| r.key).collect::<Vec<_>>(), vec![key(1), key(2)]);
    assert!(requests.iter().all(|r| r.kind == CompilationKind::Aot));
    assert!(requests.iter().all(|r| r.mode == AdmitMode::Explicit));
    assert!(requests.iter().all(|r| r.sync_notifier == SyncNotifier::none()));
}

#[test]
fn commands_to_workers_and_store_are_effects() {
    let mut backend = aot_backend(tuning());
    assert!(backend.handle(Command::Pause).is_continue());
    assert!(backend.handle(Command::Resume).is_continue());
    assert!(backend.handle(Command::ClearPersisted).is_continue());
    assert_eq!(
        backend.take_effects(),
        vec![Effect::PauseWorkers, Effect::ResumeWorkers, Effect::ClearStore],
    );
    assert!(backend.handle(Command::Shutdown).is_break());
    assert_eq!(backend.take_effects(), Vec::new());
    let mut no_store = jit_backend();
    assert!(no_store.handle(Command::ClearPersisted).is_continue());
    assert_eq!(no_store.take_effects(), Vec::new());
}

#[test]
fn clearing_forgets_everything_and_wakes_everybody() {
    let mut backend = aot_backend(tuning());
    load(&mut backend, key(1), 10, 50, at(0));
    in_flight(&mut backend, CompilationKind::Aot, key(2), 1);
    expect_done(backend.try_admit(explicit(CompilationKind::Aot, key(2), 2), true, at(1)));
    expect_done(backend.try_admit(explicit(CompilationKind::Aot, key(2), 3), true, at(1)));
    backend.take_effects();
    let reader = backend.reader();
    assert!(backend.handle(Command::ClearAll).is_continue());
    assert_eq!(
        backend.take_effects(),
        vec![
            Effect::CancelInFlight,
            Effect::ReleaseAllPrograms,
            Effect::Notify(2),
            Effect::Notify(3),
            Effect::DiscardLookupEvents,
            Effect::ClearStore,
        ],
    );
    assert_eq!(reader.get(&key(1)), None);
    assert_eq!(backend.phase_of(&key(2)), None);
    assert_eq!(backend.generation(), 1);
    // No key is being compiled any more.
    assert_eq!(backend.pending_jobs(), 0);
    assert!(backend.handle(Command::ClearResident).is_continue());
    assert_eq!(backend.generation(), 2);
}

#[test]
fn hits_are_reported_with_their_weight() {
    let sampled = RuntimeTuning { lookup_hit_sample_rate: 64, ..tuning() };
    let mut backend = aot_backend(sampled);
    let hit = LookupRequest { key: key(1), code: Bytes::new() };
    assert!(backend.handle_lookup_observed(hit, at(1)).is_none());
    let usage = ArtifactUsageEvent { artifact_key: artifact_key(key(1)), weight: 64 };
    assert_eq!(backend.take_effects(), vec![Effect::ArtifactUsage(usage)]);
    let mut jit = jit_backend();
    let hit = LookupRequest { key: key(1), code: Bytes::new() };
    assert!(jit.handle_lookup_observed(hit, at(1)).is_none());
    assert_eq!(jit.take_effects(), Vec::new());
    let unsampled = RuntimeTuning { lookup_hit_sample_rate: 0, ..tuning() };
    let mut silent = aot_backend(unsampled);
    let hit = LookupRequest { key: key(1), code: Bytes::new() };
    assert!(silent.handle_lookup_observed(hit, at(1)).is_none());
    assert_eq!(silent.take_effects(), Vec::new());
}

#[test]
fn one_pass_takes_its_share_of_events() {
    let capped = RuntimeTuning { max_events_per_drain: 2, ..tuning() };
    let backend = BackendState::new(capped, false, false, &Vec::new(), at(0));
    let mut source = EventSource::new(ArrayQueue::new(8));
    let queue = source.sender();
    for byte in 1..=3 {
        assert!(queue.push(LookupRequest { key: key(byte), code: Bytes::new() }).is_ok());
    }
    assert_eq!(backend.drain_events(&mut source).len(), 2);
    assert_eq!(backend.drain_events(&mut source).len(), 1);
}

#[test]
fn misses_and_hits_have_shares_of_their_own() {
    let capped = RuntimeTuning { max_events_per_drain: 2, ..tuning() };
    let backend = BackendState::new(capped, false, false, &Vec::new(), at(0));
    let mut misses = EventSource::new(ArrayQueue::new(8));
    let mut hits = EventSource::new(ArrayQueue::new(8));
    for byte in 1..=3 {
        let miss = LookupRequest { key: key(byte), code: Bytes::from_static(CODE) };
        assert!(misses.sender().push(miss).is_ok());
    }
    assert!(hits.sender().push(LookupRequest { key: key(9), code: Bytes::new() }).is_ok());
    let (missed, hit) = backend.drain_in_turn(&mut misses, &mut hits);
    assert_eq!(missed.iter().map(|e| e.key).collect::<Vec<_>>(), vec![key(1), key(2)]);
    assert_eq!(hit.iter().map(|e| e.key).collect::<Vec<_>>(), vec![key(9)]);
    // The surplus stays queued for the next pass.
    let (missed, hit) = backend.drain_in_turn(&mut misses, &mut hits);
    assert_eq!(missed.iter().map(|e| e.key).collect::<Vec<_>>(), vec![key(3)]);
    assert!(hit.is_empty());
}

#[test]
fn entry_counters_follow_the_entries() {
    let mut backend = jit_backend();
    expect_done(backend.try_admit(observed(CompilationKind::Jit, key(1)), true, at(1)));
    in_flight(&mut backend, CompilationKind::Jit, key(2), 1);
    assert_eq!(backend.stats().tracked_entries, 0);
    backend.update_entry_stats();
    assert_eq!(backend.stats().tracked_entries, 2);
    assert_eq!(backend.stats().cold_entries, 1);
}

// Sweeps.

fn sweeping() -> RuntimeTuning {
    RuntimeTuning {
        idle_evict_duration: Some(Duration::from_secs(10)),
        cold_entry_idle_duration: Some(Duration::from_secs(5)),
        eviction_sweep_interval: Duration::from_secs(1),
        ..tuning()
    }
}

#[test]
fn sweeps_wait_for_their_interval() {
    let backend = aot_backend(sweeping());
    assert!(!backend.should_sweep(0, at(999)));
    assert!(backend.should_sweep(0, at(1_000)));
    let nothing_to_do = RuntimeTuning {
        idle_evict_duration: None,
        cold_entry_idle_duration: None,
        resident_code_cache_bytes: 100,
        ..sweeping()
    };
    let budget_only = aot_backend(nothing_to_do);
    assert!(!budget_only.should_sweep(100, at(60_000)));
    assert!(budget_only.should_sweep(101, at(0)));
    let unlimited = aot_backend(RuntimeTuning { resident_code_cache_bytes: 0, ..nothing_to_do });
    assert!(!unlimited.should_sweep(usize::MAX, at(60_000)));
}

#[test]
fn sweeps_take_the_idle_and_the_stale() {
    let mut backend = aot_backend(RuntimeTuning { max_resident_aot_bytes: 100, ..sweeping() });
    load(&mut backend, key(1), 10, 50, at(0));
    load(&mut backend, key(2), 10, 51, at(0));
    // A hit keeps a program young.
    let hit = LookupRequest { key: key(2), code: Bytes::new() };
    assert!(backend.handle_lookup_observed(hit, at(5_000)).is_none());
    // A cold entry, one that knows its artifact is over budget, and one in flight.
    expect_done(backend.try_admit(observed(CompilationKind::Aot, key(3)), true, at(0)));
    let step = backend.try_admit(explicit(CompilationKind::Aot, key(4), 1), true, at(0));
    let (adm, _) = expect_probe(step);
    expect_done(backend.probe_finished(adm, ProbeResult::Found(stored(key(4), 101))));
    in_flight(&mut backend, CompilationKind::Aot, key(5), 2);
    backend.take_effects();

    // Exactly as old as the limits is not too old.
    assert!(backend.run_eviction_sweep(0, at(5_000)));
    assert_eq!(backend.phase_of(&key(3)), Some(EntryPhase::Cold));
    assert!(!backend.run_eviction_sweep(0, at(5_999)));
    assert!(backend.run_eviction_sweep(0, at(10_001)));

    assert!(!backend.is_resident(&key(1)));
    assert!(backend.is_resident(&key(2)));
    assert_eq!(backend.phase_of(&key(3)), None);
    assert_eq!(backend.phase_of(&key(4)), Some(EntryPhase::Cold));
    assert_eq!(backend.phase_of(&key(5)), Some(EntryPhase::Working));
    assert_eq!(backend.take_effects(), vec![Effect::ReleaseProgram(50)]);
    let stats = backend.stats();
    assert_eq!(stats.evictions, 1);
    assert_eq!(stats.cold_entry_evictions, 1);
    assert_eq!(stats.aot_evictions, 0);
}

#[test]
fn a_dropped_entry_frees_its_slot() {
    let mut backend = aot_backend(sweeping());
    expect_done(backend.try_admit(observed(CompilationKind::Aot, key(1)), true, at(0)));
    expect_done(backend.try_admit(observed(CompilationKind::Aot, key(2)), true, at(0)));
    expect_done(backend.try_admit(observed(CompilationKind::Aot, key(3)), true, at(0)));
    assert_eq!(backend.stats().observed_entry_rejections, 1);
    assert!(backend.run_eviction_sweep(0, at(6_000)));
    expect_done(backend.try_admit(observed(CompilationKind::Aot, key(3)), true, at(6_000)));
    assert_eq!(backend.phase_of(&key(3)), Some(EntryPhase::Cold));
    assert_eq!(backend.stats().observed_entry_rejections, 1);
}

#[test]
fn the_jit_budget_takes_the_least_recently_hit_and_spares_aot() {
    let budget = RuntimeTuning { resident_code_cache_bytes: 100, ..tuning() };
    let preloaded = vec![
        Preloaded { key: key(1), slot: 10, kind: ProgramKind::Jit, artifact_len: 0 },
        Preloaded { key: key(2), slot: 11, kind: ProgramKind::Aot, artifact_len: 60 },
        Preloaded { key: key(3), slot: 12, kind: ProgramKind::Jit, artifact_len: 0 },
    ];
    let mut backend = BackendState::new(budget, false, false, &preloaded, at(0));
    let hit = LookupRequest { key: key(1), code: Bytes::new() };
    assert!(backend.handle_lookup_observed(hit, at(5)).is_none());
    assert_eq!(backend.jit_victims(100), Vec::new());
    assert!(backend.run_eviction_sweep(101, at(6)));
    let victims = backend.jit_victims(101);
    assert_eq!(victims, vec![key(3), key(1)]);
    assert!(backend.evict_over_budget(&victims[0], 101));
    assert!(!backend.evict_over_budget(&victims[1], 100));
    assert!(!backend.is_resident(&key(3)));
    assert!(backend.is_resident(&key(1)));
    assert!(backend.is_resident(&key(2)));
    assert_eq!(backend.take_effects(), vec![Effect::ReleaseProgram(12)]);
    assert_eq!(backend.stats().evictions, 1);
    // The whole pass leaves no JIT program, and the AOT program as it was.
    for victim in backend.jit_victims(101) {
        assert!(backend.evict_over_budget(&victim, 101));
    }
    assert!(!backend.is_resident(&key(1)));
    assert!(backend.is_resident(&key(2)));
    assert_eq!(backend.stats().evictions, 2);
}

#[test]
fn no_budget_is_no_limit_on_jit_code() {
    let unlimited = RuntimeTuning { resident_code_cache_bytes: 0, ..tuning() };
    let preloaded =
        vec![Preloaded { key: key(1), slot: 10, kind: ProgramKind::Jit, artifact_len: 0 }];
    let mut backend = BackendState::new(unlimited, false, false, &preloaded, at(0));
    assert_eq!(backend.jit_victims(usize::MAX), Vec::new());
    assert!(!backend.evict_over_budget(&key(1), usize::MAX));
    assert!(backend.is_resident(&key(1)));
}
