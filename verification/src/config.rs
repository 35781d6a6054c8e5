//! Tuning knobs and the vocabulary of compilation.
use crate::clock::Duration;
use vstd::prelude::*;

verus! {

/// How hard the compiler optimizes.
#[derive(Clone, Copy, Debug, PartialEq, Eq, Structural)]
pub enum OptimizationLevel {
    Off,
    Less,
    Standard,
    Aggressive,
}

/// What a compilation produces.
#[derive(Clone, Copy, Debug, PartialEq, Eq, Structural)]
pub enum CompilationKind {
    /// Code in the memory of this process.
    Jit,
    /// A shared library in the artifact store.
    Aot,
}

/// Where the code of a resident program comes from.
#[derive(Clone, Copy, Debug, PartialEq, Eq, Structural)]
pub enum ProgramKind {
    Jit,
    Aot,
}

/// Whether an admission was triggered by an observed lookup, and so is gated by hotness and by
/// the limit on observed entries, or by an explicit request, which is not.
#[derive(Clone, Copy, Debug, PartialEq, Eq, Structural)]
pub enum AdmitMode {
    Observed,
    Explicit,
}

/// Tuning knobs of the backend.
#[derive(Clone, Copy, Debug, PartialEq, Eq, Structural)]
pub struct RuntimeTuning {
    /// Observed misses from which a key is compiled.
    pub jit_hot_threshold: usize,
    /// Observed misses from which the artifact store is asked for a key.
    pub persisted_aot_hot_threshold: usize,
    /// Keys that may be being compiled at one time.
    pub jit_max_pending_jobs: usize,
    /// Entries that observed misses may create; zero admits none.
    pub max_observed_entries: usize,
    /// Optimization level of JIT compilations.
    pub jit_opt_level: OptimizationLevel,
    /// Optimization level of AOT compilations.
    pub aot_opt_level: OptimizationLevel,
    /// Resident AOT programs; zero is no limit.
    pub max_resident_aot_entries: usize,
    /// Artifact bytes that resident AOT programs stand for; zero is no limit.
    pub max_resident_aot_bytes: usize,
    /// Time since the last hit from which observed demand may evict an AOT program.
    pub resident_aot_min_idle: Duration,
    /// Time between two loads of persisted artifacts on observed demand; zero is no limit.
    pub persisted_aot_load_interval: Duration,
    /// Hits that one sampled hit event stands for.
    pub lookup_hit_sample_rate: u32,
    /// Events taken off each queue in one pass.
    pub max_events_per_drain: usize,
    /// Time since the last hit after which a program is evicted.
    pub idle_evict_duration: Option<Duration>,
    /// Time since the last observation after which a cold entry is dropped.
    pub cold_entry_idle_duration: Option<Duration>,
    /// Bytes of JIT code; zero is no limit.
    pub resident_code_cache_bytes: usize,
    /// Time between two eviction sweeps.
    pub eviction_sweep_interval: Duration,
    /// Time between two passes over the event queues.
    pub event_drain_interval: Duration,
}

impl Default for RuntimeTuning {
    fn default() -> (t: RuntimeTuning)
        ensures
            t == (RuntimeTuning {
                jit_hot_threshold: 8,
                persisted_aot_hot_threshold: 1,
                jit_max_pending_jobs: 2048,
                max_observed_entries: 65536,
                jit_opt_level: OptimizationLevel::Standard,
                aot_opt_level: OptimizationLevel::Aggressive,
                max_resident_aot_entries: 0,
                max_resident_aot_bytes: 0,
                resident_aot_min_idle: Duration { nanos: 0 },
                persisted_aot_load_interval: Duration { nanos: 0 },
                lookup_hit_sample_rate: 1,
                max_events_per_drain: 4096,
                idle_evict_duration: None,
                cold_entry_idle_duration: None,
                resident_code_cache_bytes: 0,
                eviction_sweep_interval: Duration { nanos: 60_000_000_000 },
                event_drain_interval: Duration { nanos: 100_000_000 },
            }),
    {
        RuntimeTuning {
            jit_hot_threshold: 8,
            persisted_aot_hot_threshold: 1,
            jit_max_pending_jobs: 2048,
            max_observed_entries: 65536,
            jit_opt_level: OptimizationLevel::Standard,
            aot_opt_level: OptimizationLevel::Aggressive,
            max_resident_aot_entries: 0,
            max_resident_aot_bytes: 0,
            resident_aot_min_idle: Duration { nanos: 0 },
            persisted_aot_load_interval: Duration { nanos: 0 },
            lookup_hit_sample_rate: 1,
            max_events_per_drain: 4096,
            idle_evict_duration: None,
            cold_entry_idle_duration: None,
            resident_code_cache_bytes: 0,
            eviction_sweep_interval: Duration { nanos: 60_000_000_000 },
            event_drain_interval: Duration { nanos: 100_000_000 },
        }
    }
}

impl RuntimeTuning {
    /// How long the backend may sleep: never past the next pass over the queues nor past the next
    /// sweep.
    pub fn tick_interval(&self) -> (d: Duration)
        ensures
            d.nanos <= self.event_drain_interval.nanos,
            d.nanos <= self.eviction_sweep_interval.nanos,
            d == self.event_drain_interval || d == self.eviction_sweep_interval,
    {
        self.event_drain_interval.min(self.eviction_sweep_interval)
    }
}

} // verus!
