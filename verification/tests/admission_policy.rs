use revmc_runtime::admission::{plan_aot_admission, AotAdmissionPlan, AotLoadLimiter, AotResident};
use revmc_runtime::clock::{Clock, Duration, Moment};
use revmc_runtime::config::{AdmitMode, RuntimeTuning};
use revmc_runtime::keys::{RuntimeCacheKey, SpecId, B256};

fn key(last_byte: u8) -> RuntimeCacheKey {
    RuntimeCacheKey { code_hash: B256::with_last_byte(last_byte), spec_id: SpecId::CANCUN }
}

fn resident(key: RuntimeCacheKey, last_hit_at: Moment, artifact_len: usize) -> AotResident {
    AotResident { key, last_hit_at, artifact_len }
}

#[test]
fn entry_and_byte_budgets_are_independent() {
    let now = Clock::start().now();
    let by_entries = RuntimeTuning { max_resident_aot_entries: 2, ..Default::default() };
    assert_eq!(
        plan_aot_admission(
            by_entries,
            2,
            20,
            10,
            now,
            AdmitMode::Explicit,
            vec![resident(key(1), now, 10), resident(key(2), now, 10)],
        ),
        AotAdmissionPlan::Admit(vec![key(1)]),
    );

    let by_bytes = RuntimeTuning { max_resident_aot_bytes: 100, ..Default::default() };
    assert_eq!(
        plan_aot_admission(
            by_bytes,
            2,
            100,
            70,
            now,
            AdmitMode::Explicit,
            vec![resident(key(1), now, 40), resident(key(2), now, 60)],
        ),
        AotAdmissionPlan::Admit(vec![key(1), key(2)]),
    );
}

#[test]
fn demand_respects_idle_age_while_explicit_bypasses_it() {
    let last_hit_at = Clock::start().now();
    let almost_idle = last_hit_at.advance(Duration::from_secs(299));
    let tuning = RuntimeTuning {
        max_resident_aot_entries: 1,
        resident_aot_min_idle: Duration::from_secs(300),
        ..Default::default()
    };
    let residents = vec![resident(key(1), last_hit_at, 10)];

    assert_eq!(
        plan_aot_admission(
            tuning,
            1,
            10,
            10,
            almost_idle,
            AdmitMode::Observed,
            residents.clone(),
        ),
        AotAdmissionPlan::CapacityDeferred,
    );
    assert_eq!(
        plan_aot_admission(tuning, 1, 10, 10, almost_idle, AdmitMode::Explicit, residents),
        AotAdmissionPlan::Admit(vec![key(1)]),
    );
}

#[test]
fn oversized_candidate_is_rejected_without_victims() {
    let tuning = RuntimeTuning { max_resident_aot_bytes: 100, ..Default::default() };
    let now = Clock::start().now();
    assert_eq!(
        plan_aot_admission(tuning, 0, 0, 101, now, AdmitMode::Explicit, Vec::new()),
        AotAdmissionPlan::Oversized,
    );
}

#[test]
fn rate_limiter_allows_one_per_interval_without_burst() {
    let start = Clock::start().now();
    let interval = Duration::from_millis(100);
    let mut limiter = AotLoadLimiter::default();

    assert!(limiter.try_acquire(start, interval));
    assert!(!limiter.try_acquire(start.advance(Duration::from_millis(99)), interval));
    assert!(limiter.try_acquire(start.advance(interval), interval));

    let after_idle = start.advance(Duration::from_secs(10));
    assert!(limiter.try_acquire(after_idle, interval));
    assert!(!limiter.try_acquire(after_idle, interval));
}

#[test]
fn victims_go_least_recently_hit_first() {
    let tuning = RuntimeTuning { max_resident_aot_bytes: 100, ..Default::default() };
    let now = Moment { nanos: 1_000 };
    let rows = vec![
        resident(key(1), Moment { nanos: 30 }, 30),
        resident(key(2), Moment { nanos: 10 }, 30),
        resident(key(3), Moment { nanos: 20 }, 30),
    ];
    // 90 + 60 - 30 - 30 fits; the two oldest go, in order of age.
    assert_eq!(
        plan_aot_admission(tuning, 3, 90, 60, now, AdmitMode::Explicit, rows.clone()),
        AotAdmissionPlan::Admit(vec![key(2), key(3)]),
    );
    // The order in which the programs are listed makes no difference.
    let reversed: Vec<AotResident> = rows.into_iter().rev().collect();
    assert_eq!(
        plan_aot_admission(tuning, 3, 90, 60, now, AdmitMode::Explicit, reversed),
        AotAdmissionPlan::Admit(vec![key(2), key(3)]),
    );
}

#[test]
fn ties_are_broken_by_hash_and_then_by_hardfork() {
    let tuning = RuntimeTuning { max_resident_aot_entries: 1, ..Default::default() };
    let now = Moment { nanos: 0 };
    let prague = RuntimeCacheKey { spec_id: SpecId::PRAGUE, ..key(1) };
    let wide = RuntimeCacheKey { code_hash: B256 { hi: 1, lo: 0 }, spec_id: SpecId::FRONTIER };
    let rows = vec![
        resident(wide, now, 1),
        resident(key(2), now, 1),
        resident(prague, now, 1),
        resident(key(1), now, 1),
    ];
    assert_eq!(
        plan_aot_admission(tuning, 4, 4, 1, now, AdmitMode::Explicit, rows),
        AotAdmissionPlan::Admit(vec![key(1), prague, key(2), wide]),
    );
}

#[test]
fn a_candidate_that_fits_evicts_nothing() {
    let now = Moment { nanos: 0 };
    let unlimited = RuntimeTuning::default();
    assert_eq!(
        plan_aot_admission(
            unlimited,
            usize::MAX,
            usize::MAX,
            usize::MAX,
            now,
            AdmitMode::Observed,
            vec![resident(key(1), now, 1)],
        ),
        AotAdmissionPlan::Admit(Vec::new()),
    );
    let exact = RuntimeTuning { max_resident_aot_bytes: 100, ..Default::default() };
    assert_eq!(
        plan_aot_admission(exact, 1, 40, 60, now, AdmitMode::Observed, Vec::new()),
        AotAdmissionPlan::Admit(Vec::new()),
    );
    assert_eq!(
        plan_aot_admission(exact, 1, 41, 60, now, AdmitMode::Observed, Vec::new()),
        AotAdmissionPlan::CapacityDeferred,
    );
}

#[test]
fn demand_may_evict_from_the_idle_age_on() {
    let tuning = RuntimeTuning {
        max_resident_aot_entries: 1,
        resident_aot_min_idle: Duration::from_secs(300),
        ..Default::default()
    };
    let hit = Moment { nanos: 0 };
    let now = hit.advance(Duration::from_secs(300));
    assert_eq!(
        plan_aot_admission(tuning, 1, 1, 1, now, AdmitMode::Observed, vec![
            resident(key(1), hit, 1),
        ]),
        AotAdmissionPlan::Admit(vec![key(1)]),
    );
}

#[test]
fn no_interval_is_no_limit() {
    let mut limiter = AotLoadLimiter::default();
    let now = Moment { nanos: 7 };
    for _ in 0..3 {
        assert!(limiter.try_acquire(now, Duration::from_secs(0)));
    }
    assert_eq!(limiter.next_allowed_at, None);
}

#[test]
fn refusals_cost_nothing_and_a_reset_forgets() {
    let mut limiter = AotLoadLimiter::default();
    let interval = Duration::from_secs(1);
    assert!(limiter.try_acquire(Moment { nanos: 0 }, interval));
    assert!(!limiter.try_acquire(Moment { nanos: 999_999_999 }, interval));
    assert_eq!(limiter.next_allowed_at, Some(Moment { nanos: 1_000_000_000 }));
    limiter.reset();
    assert!(limiter.try_acquire(Moment { nanos: 1 }, interval));
}
