//! Which resident AOT programs make room for another one, and how fast demand may load them.
use crate::clock::{Duration, Moment};
use crate::config::{AdmitMode, RuntimeTuning};
use crate::keys::RuntimeCacheKey;
use vstd::prelude::*;
use vstd::relations::{sorted_by, total_ordering};

verus! {

/// One resident AOT program, as the admission planner sees it.
#[derive(Clone, Copy, Debug, PartialEq, Eq, Structural)]
pub struct AotResident {
    pub key: RuntimeCacheKey,
    /// When a lookup last hit the program.
    pub last_hit_at: Moment,
    /// Length of the artifact the program was loaded from.
    pub artifact_len: usize,
}

/// Outcome of checking the AOT budgets.
#[derive(Debug, PartialEq, Eq)]
pub enum AotAdmissionPlan {
    /// The candidate fits once these programs are evicted.
    Admit(Vec<RuntimeCacheKey>),
    /// The candidate does not fit whatever may be evicted now.
    CapacityDeferred,
    /// The candidate alone is over the byte budget.
    Oversized,
}

/// Least recently hit first; ties by key, then by length.
pub open spec fn lru_leq(a: AotResident, b: AotResident) -> bool {
    if a.last_hit_at.nanos != b.last_hit_at.nanos {
        a.last_hit_at.nanos < b.last_hit_at.nanos
    } else if a.key.code_hash != b.key.code_hash {
        a.key.code_hash.spec_less(b.key.code_hash)
    } else if a.key.spec_id != b.key.spec_id {
        a.key.spec_id.spec_rank() < b.key.spec_id.spec_rank()
    } else {
        a.artifact_len <= b.artifact_len
    }
}

/// [`lru_leq`] as a relation.
pub open spec fn lru_order() -> spec_fn(AotResident, AotResident) -> bool {
    |a: AotResident, b: AotResident| lru_leq(a, b)
}

/// Whether a number of AOT programs is within the entry budget.
pub open spec fn entries_fit(tuning: RuntimeTuning, entries: int) -> bool {
    tuning.max_resident_aot_entries == 0 || entries <= tuning.max_resident_aot_entries
}

/// Whether a number of artifact bytes is within the byte budget.
pub open spec fn bytes_fit(tuning: RuntimeTuning, bytes: int) -> bool {
    tuning.max_resident_aot_bytes == 0 || bytes <= tuning.max_resident_aot_bytes
}

/// Whether an artifact is over the byte budget on its own.
pub open spec fn oversized(tuning: RuntimeTuning, artifact_len: usize) -> bool {
    tuning.max_resident_aot_bytes > 0 && artifact_len > tuning.max_resident_aot_bytes
}

/// Whether a program may be evicted for another one: observed demand spares what was hit lately,
/// an explicit request spares nothing.
pub open spec fn evictable(
    tuning: RuntimeTuning,
    now: Moment,
    mode: AdmitMode,
    resident: AotResident,
) -> bool {
    mode == AdmitMode::Explicit || now.at_least_after(
        resident.last_hit_at,
        tuning.resident_aot_min_idle,
    )
}

/// [`evictable`] as a predicate on programs.
pub open spec fn evictable_under(tuning: RuntimeTuning, now: Moment, mode: AdmitMode) -> spec_fn(
    AotResident,
) -> bool {
    |r: AotResident| evictable(tuning, now, mode, r)
}

/// The programs that may be evicted, in the order in which they would be.
pub open spec fn victim_order(
    tuning: RuntimeTuning,
    now: Moment,
    mode: AdmitMode,
    residents: Seq<AotResident>,
) -> Seq<AotResident> {
    residents.filter(evictable_under(tuning, now, mode)).sort_by(lru_order())
}

/// Artifact bytes of the first `n` programs.
pub open spec fn row_bytes(rows: Seq<AotResident>, n: int) -> nat
    decreases n,
{
    if n <= 0 {
        0
    } else {
        row_bytes(rows, n - 1) + rows[n - 1].artifact_len as nat
    }
}

/// `a - b`, no less than zero.
pub open spec fn minus(a: int, b: int) -> int {
    if a >= b {
        a - b
    } else {
        0
    }
}

/// Whether both budgets hold once the candidate is in and the first `n` victims are out.
pub open spec fn fits_after(
    tuning: RuntimeTuning,
    entries: usize,
    bytes: usize,
    candidate_len: usize,
    order: Seq<AotResident>,
    n: int,
) -> bool {
    &&& entries_fit(tuning, minus(entries.saturating_add(1) as int, n))
    &&& bytes_fit(
        tuning,
        minus(bytes.saturating_add(candidate_len) as int, row_bytes(order, n) as int),
    )
}

/// The least number of victims, from `n` on, with which both budgets hold.
pub open spec fn least_fit(
    tuning: RuntimeTuning,
    entries: usize,
    bytes: usize,
    candidate_len: usize,
    order: Seq<AotResident>,
    n: int,
) -> Option<int>
    decreases order.len() - n,
{
    if fits_after(tuning, entries, bytes, candidate_len, order, n) {
        Some(n)
    } else if n >= order.len() {
        None
    } else {
        least_fit(tuning, entries, bytes, candidate_len, order, n + 1)
    }
}

/// The keys of a sequence of programs.
pub open spec fn row_keys(rows: Seq<AotResident>) -> Seq<RuntimeCacheKey> {
    rows.map_values(|r: AotResident| r.key)
}

/// The victims of an admission: the shortest beginning of the eviction order with which both
/// budgets hold, if there is one.
pub open spec fn planned_victims(
    tuning: RuntimeTuning,
    entries: usize,
    bytes: usize,
    candidate_len: usize,
    now: Moment,
    mode: AdmitMode,
    residents: Seq<AotResident>,
) -> Option<Seq<RuntimeCacheKey>> {
    let order = victim_order(tuning, now, mode, residents);
    match least_fit(tuning, entries, bytes, candidate_len, order, 0) {
        Some(n) => Some(row_keys(order.take(n))),
        None => None,
    }
}

/// The eviction order is a total order.
pub proof fn lemma_lru_order()
    ensures
        total_ordering(lru_order()),
{
    let r = lru_order();
    assert forall|a: AotResident, b: AotResident| #[trigger] r(a, b) && #[trigger] r(b, a) implies a
        == b by {}
    assert forall|a: AotResident, b: AotResident, c: AotResident| #[trigger]
        r(a, b) && #[trigger] r(b, c) implies r(a, c) by {}
    assert forall|a: AotResident, b: AotResident| #[trigger] r(a, b) || #[trigger] r(b, a) by {}
}

/// Whether `a` stands no later than `b` in the eviction order.
fn is_lru_leq(a: &AotResident, b: &AotResident) -> (r: bool)
    ensures
        r == lru_leq(*a, *b),
{
    if a.last_hit_at.nanos != b.last_hit_at.nanos {
        a.last_hit_at.nanos < b.last_hit_at.nanos
    } else if a.key.code_hash != b.key.code_hash {
        a.key.code_hash.less(b.key.code_hash)
    } else if a.key.spec_id != b.key.spec_id {
        a.key.spec_id.rank() < b.key.spec_id.rank()
    } else {
        a.artifact_len <= b.artifact_len
    }
}

/// Adding the next element of a sequence to a prefix adds it to the prefix's multiset.
proof fn lemma_take_multiset<A>(s: Seq<A>, i: int)
    requires
        0 <= i < s.len(),
    ensures
        s.take(i + 1).to_multiset() == s.take(i).to_multiset().insert(s[i]),
{
    broadcast use vstd::seq_lib::group_to_multiset_ensures;

    assert(s.take(i + 1) =~= s.take(i).push(s[i]));
}

/// Merges two sorted runs.
fn merge(left: &Vec<AotResident>, right: &Vec<AotResident>) -> (r: Vec<AotResident>)
    requires
        sorted_by(left@, lru_order()),
        sorted_by(right@, lru_order()),
    ensures
        sorted_by(r@, lru_order()),
        r@.to_multiset() == left@.to_multiset().add(right@.to_multiset()),
{
    let mut r: Vec<AotResident> = Vec::new();
    let mut i: usize = 0;
    let mut j: usize = 0;
    let ghost order = lru_order();
    proof {
        broadcast use vstd::seq_lib::group_to_multiset_ensures;

        lemma_lru_order();
        assert(left@.take(0) =~= Seq::<AotResident>::empty());
        assert(right@.take(0) =~= Seq::<AotResident>::empty());
        assert(r@.to_multiset() =~= left@.take(0).to_multiset().add(right@.take(0).to_multiset()));
    }
    while i < left.len() || j < right.len()
        invariant
            0 <= i <= left@.len(),
            0 <= j <= right@.len(),
            order == lru_order(),
            total_ordering(order),
            sorted_by(left@, order),
            sorted_by(right@, order),
            sorted_by(r@, order),
            r@.to_multiset() == left@.take(i as int).to_multiset().add(
                right@.take(j as int).to_multiset(),
            ),
            forall|a: int, b: int| 0 <= a < r@.len() && i <= b < left@.len() ==> #[trigger] order(r@[a], left@[b]),
            forall|a: int, b: int|
                0 <= a < r@.len() && j <= b < right@.len() ==> #[trigger] order(r@[a], right@[b]),
        decreases left@.len() - i + right@.len() - j,
    {
        broadcast use vstd::seq_lib::group_to_multiset_ensures;

        let ghost before = r@;
        let from_left = if i < left.len() {
            if j < right.len() {
                is_lru_leq(&left[i], &right[j])
            } else {
                true
            }
        } else {
            false
        };
        if from_left {
            let next = left[i];
            proof {
                lemma_take_multiset(left@, i as int);
                assert forall|b: int| j <= b < right@.len() implies #[trigger] order(next, right@[b]) by {
                    if b > j {
                        assert(order(right@[j as int], right@[b]));
                    }
                    assert(order(next, right@[j as int]));
                }
            }
            r.push(next);
            i = i + 1;
        } else {
            let next = right[j];
            proof {
                lemma_take_multiset(right@, j as int);
                assert forall|b: int| i <= b < left@.len() implies #[trigger] order(next, left@[b]) by {
                    assert(order(left@[i as int], next) || order(next, left@[i as int]));
                    if b > i {
                        assert(order(left@[i as int], left@[b]));
                    }
                    assert(order(next, left@[i as int]));
                }
            }
            r.push(next);
            j = j + 1;
        }
        proof {
            assert(r@.to_multiset() =~= left@.take(i as int).to_multiset().add(
                right@.take(j as int).to_multiset(),
            ));
        }
    }
    proof {
        assert(left@.take(i as int) =~= left@);
        assert(right@.take(j as int) =~= right@);
    }
    r
}

/// Sorts programs into the eviction order.
pub fn sort_lru(rows: &Vec<AotResident>) -> (r: Vec<AotResident>)
    ensures
        r@ == rows@.sort_by(lru_order()),
{
    let r = sort_range(rows, 0, rows.len());
    proof {
        lemma_lru_order();
        assert(rows@.subrange(0, rows@.len() as int) =~= rows@);
        rows@.lemma_sort_by_ensures(lru_order());
        vstd::seq_lib::lemma_sorted_unique(r@, rows@.sort_by(lru_order()), lru_order());
    }
    r
}

/// Sorts a range of programs.
fn sort_range(rows: &Vec<AotResident>, from: usize, to: usize) -> (r: Vec<AotResident>)
    requires
        from <= to <= rows@.len(),
    ensures
        sorted_by(r@, lru_order()),
        r@.to_multiset() == rows@.subrange(from as int, to as int).to_multiset(),
    decreases to - from,
{
    if to - from <= 1 {
        let mut r: Vec<AotResident> = Vec::new();
        if from < to {
            r.push(rows[from]);
        }
        assert(r@ =~= rows@.subrange(from as int, to as int));
        r
    } else {
        let mid: usize = from + (to - from) / 2;
        let left = sort_range(rows, from, mid);
        let right = sort_range(rows, mid, to);
        proof {
            let a = rows@.subrange(from as int, mid as int);
            let b = rows@.subrange(mid as int, to as int);
            assert(rows@.subrange(from as int, to as int) =~= a + b);
            vstd::seq_lib::lemma_multiset_commutative(a, b);
        }
        merge(&left, &right)
    }
}

/// Filtering one more element.
proof fn lemma_filter_step<A>(s: Seq<A>, i: int, p: spec_fn(A) -> bool)
    requires
        0 <= i < s.len(),
    ensures
        s.take(i + 1).filter(p) == if p(s[i]) {
            s.take(i).filter(p).push(s[i])
        } else {
            s.take(i).filter(p)
        },
{
    reveal(Seq::filter);
    assert(s.take(i + 1).drop_last() =~= s.take(i));
}

/// The programs that may be evicted, in the order in which they are given.
fn keep_evictable(
    tuning: &RuntimeTuning,
    now: Moment,
    mode: AdmitMode,
    residents: &Vec<AotResident>,
) -> (r: Vec<AotResident>)
    ensures
        r@ == residents@.filter(evictable_under(*tuning, now, mode)),
{
    let ghost keep = evictable_under(*tuning, now, mode);
    let mut r: Vec<AotResident> = Vec::new();
    proof {
        reveal(Seq::filter);
        assert(residents@.take(0).filter(keep) =~= Seq::<AotResident>::empty());
    }
    for i in 0..residents.len()
        invariant
            keep == evictable_under(*tuning, now, mode),
            r@ == residents@.take(i as int).filter(keep),
    {
        let resident = residents[i];
        proof {
            lemma_filter_step(residents@, i as int, keep);
        }
        if mode == AdmitMode::Explicit || now.duration_since(resident.last_hit_at).nanos
            >= tuning.resident_aot_min_idle.nanos {
            r.push(resident);
        }
    }
    assert(residents@.take(residents@.len() as int) =~= residents@);
    r
}

/// Whether both budgets hold.
fn budgets_hold(tuning: &RuntimeTuning, entries: usize, bytes: usize) -> (r: bool)
    ensures
        r == (entries_fit(*tuning, entries as int) && bytes_fit(*tuning, bytes as int)),
{
    (tuning.max_resident_aot_entries == 0 || entries <= tuning.max_resident_aot_entries) && (
    tuning.max_resident_aot_bytes == 0 || bytes <= tuning.max_resident_aot_bytes)
}

/// Plans the least set of evictions with which one more AOT program fits its budgets.
///
/// The length of an artifact stands for the memory its program takes.
pub fn plan_aot_admission(
    tuning: RuntimeTuning,
    resident_aot_entries: usize,
    resident_aot_bytes: usize,
    candidate_len: usize,
    now: Moment,
    mode: AdmitMode,
    residents: Vec<AotResident>,
) -> (plan: AotAdmissionPlan)
    ensures
        match plan {
            AotAdmissionPlan::Oversized => oversized(tuning, candidate_len),
            AotAdmissionPlan::Admit(victims) => !oversized(tuning, candidate_len)
                && planned_victims(
                tuning,
                resident_aot_entries,
                resident_aot_bytes,
                candidate_len,
                now,
                mode,
                residents@,
            ) == Some(victims@),
            AotAdmissionPlan::CapacityDeferred => !oversized(tuning, candidate_len)
                && planned_victims(
                tuning,
                resident_aot_entries,
                resident_aot_bytes,
                candidate_len,
                now,
                mode,
                residents@,
            ) is None,
        },
{
    if tuning.max_resident_aot_bytes > 0 && candidate_len > tuning.max_resident_aot_bytes {
        return AotAdmissionPlan::Oversized;
    }
    let ghost order = victim_order(tuning, now, mode, residents@);
    let ghost entries0 = resident_aot_entries.saturating_add(1) as int;
    let ghost bytes0 = resident_aot_bytes.saturating_add(candidate_len) as int;
    let mut projected_entries = resident_aot_entries.saturating_add(1);
    let mut projected_bytes = resident_aot_bytes.saturating_add(candidate_len);
    let mut victims: Vec<RuntimeCacheKey> = Vec::new();
    assert(victims@ =~= row_keys(order.take(0)));
    if budgets_hold(&tuning, projected_entries, projected_bytes) {
        return AotAdmissionPlan::Admit(victims);
    }
    let candidates = keep_evictable(&tuning, now, mode, &residents);
    let sorted = sort_lru(&candidates);
    assert(sorted@ == order);
    for i in 0..sorted.len()
        invariant
            sorted@ == order,
            order == victim_order(tuning, now, mode, residents@),
            entries0 == resident_aot_entries.saturating_add(1) as int,
            bytes0 == resident_aot_bytes.saturating_add(candidate_len) as int,
            projected_entries == minus(entries0, i as int),
            projected_bytes == minus(bytes0, row_bytes(order, i as int) as int),
            victims@ == row_keys(order.take(i as int)),
            !oversized(tuning, candidate_len),
            !fits_after(
                tuning,
                resident_aot_entries,
                resident_aot_bytes,
                candidate_len,
                order,
                i as int,
            ),
            least_fit(
                tuning,
                resident_aot_entries,
                resident_aot_bytes,
                candidate_len,
                order,
                0,
            ) == least_fit(
                tuning,
                resident_aot_entries,
                resident_aot_bytes,
                candidate_len,
                order,
                i as int,
            ),
    {
        let resident = sorted[i];
        projected_entries = projected_entries.saturating_sub(1);
        projected_bytes = projected_bytes.saturating_sub(resident.artifact_len);
        victims.push(resident.key);
        assert(victims@ =~= row_keys(order.take(i + 1)));
        if budgets_hold(&tuning, projected_entries, projected_bytes) {
            assert(fits_after(
                tuning,
                resident_aot_entries,
                resident_aot_bytes,
                candidate_len,
                order,
                i + 1,
            ));
            return AotAdmissionPlan::Admit(victims);
        }
    }
    AotAdmissionPlan::CapacityDeferred
}

/// What [`least_fit`] finds is the least: it fits, and nothing between `n` and it does. Where it
/// finds nothing, nothing from `n` to the end of the order fits.
pub proof fn lemma_least_fit(
    tuning: RuntimeTuning,
    entries: usize,
    bytes: usize,
    candidate_len: usize,
    order: Seq<AotResident>,
    n: int,
)
    requires
        0 <= n <= order.len(),
    ensures
        match least_fit(tuning, entries, bytes, candidate_len, order, n) {
            Some(k) => {
                &&& n <= k <= order.len()
                &&& fits_after(tuning, entries, bytes, candidate_len, order, k)
                &&& forall|m: int|
                    n <= m < k ==> !#[trigger] fits_after(
                        tuning,
                        entries,
                        bytes,
                        candidate_len,
                        order,
                        m,
                    )
            },
            None => forall|m: int|
                n <= m <= order.len() ==> !#[trigger] fits_after(
                    tuning,
                    entries,
                    bytes,
                    candidate_len,
                    order,
                    m,
                ),
        },
    decreases order.len() - n,
{
    if !fits_after(tuning, entries, bytes, candidate_len, order, n) && n < order.len() {
        lemma_least_fit(tuning, entries, bytes, candidate_len, order, n + 1);
    }
}

/// Filtering two arrangements of the same programs leaves two arrangements of the same programs.
proof fn lemma_filter_multiset(s: Seq<AotResident>, p: spec_fn(AotResident) -> bool)
    ensures
        s.filter(p).to_multiset() == s.to_multiset().filter(p),
    decreases s.len(),
{
    broadcast use vstd::seq_lib::group_to_multiset_ensures;

    reveal(Seq::filter);
    if s.len() > 0 {
        let rest = s.drop_last();
        lemma_filter_multiset(rest, p);
        assert(s =~= rest.push(s.last()));
        assert(s.to_multiset() =~= rest.to_multiset().insert(s.last()));
        assert(s.filter(p).to_multiset() =~= s.to_multiset().filter(p));
    } else {
        assert(s.filter(p).to_multiset() =~= s.to_multiset().filter(p));
    }
}

/// The plan depends on which programs are resident, not on the order in which they are listed.
pub proof fn law_plan_is_deterministic(
    tuning: RuntimeTuning,
    entries: usize,
    bytes: usize,
    candidate_len: usize,
    now: Moment,
    mode: AdmitMode,
    listed: Seq<AotResident>,
    relisted: Seq<AotResident>,
)
    requires
        listed.to_multiset() == relisted.to_multiset(),
    ensures
        victim_order(tuning, now, mode, listed) == victim_order(tuning, now, mode, relisted),
        planned_victims(tuning, entries, bytes, candidate_len, now, mode, listed)
            == planned_victims(tuning, entries, bytes, candidate_len, now, mode, relisted),
{
    let keep = evictable_under(tuning, now, mode);
    lemma_filter_multiset(listed, keep);
    lemma_filter_multiset(relisted, keep);
    lemma_lru_order();
    listed.filter(keep).lemma_sort_by_ensures(lru_order());
    relisted.filter(keep).lemma_sort_by_ensures(lru_order());
    vstd::seq_lib::lemma_sorted_unique(
        victim_order(tuning, now, mode, listed),
        victim_order(tuning, now, mode, relisted),
        lru_order(),
    );
}

/// The eviction order holds the programs that may be evicted, each as often as it is listed and
/// no others, least recently hit first: observed demand never evicts a program that was hit
/// within the idle time.
pub proof fn law_order_is_lru(
    tuning: RuntimeTuning,
    now: Moment,
    mode: AdmitMode,
    residents: Seq<AotResident>,
)
    ensures
        sorted_by(victim_order(tuning, now, mode, residents), lru_order()),
        victim_order(tuning, now, mode, residents).to_multiset() == residents.to_multiset().filter(
            evictable_under(tuning, now, mode),
        ),
        forall|r: AotResident| #[trigger]
            victim_order(tuning, now, mode, residents).contains(r) <==> residents.contains(r)
                && evictable(tuning, now, mode, r),
{
    broadcast use vstd::seq_lib::group_to_multiset_ensures;

    let keep = evictable_under(tuning, now, mode);
    lemma_lru_order();
    lemma_filter_multiset(residents, keep);
    residents.filter(keep).lemma_sort_by_ensures(lru_order());
    let order = victim_order(tuning, now, mode, residents);
    assert forall|r: AotResident| #[trigger] order.contains(r) <==> residents.contains(r)
        && evictable(tuning, now, mode, r) by {
        assert(order.contains(r) <==> order.to_multiset().count(r) > 0);
        assert(residents.contains(r) <==> residents.to_multiset().count(r) > 0);
    }
}

/// A plan evicts as little as possible: a beginning of the eviction order with which both budgets
/// hold, where no shorter one would do. A candidate is put off only where evicting everything
/// that may go would not do.
pub proof fn law_plan_is_minimal(
    tuning: RuntimeTuning,
    entries: usize,
    bytes: usize,
    candidate_len: usize,
    now: Moment,
    mode: AdmitMode,
    residents: Seq<AotResident>,
)
    ensures
        ({
            let order = victim_order(tuning, now, mode, residents);
            match planned_victims(tuning, entries, bytes, candidate_len, now, mode, residents) {
                Some(victims) => {
                    &&& victims.len() <= order.len()
                    &&& victims == row_keys(order.take(victims.len() as int))
                    &&& fits_after(
                        tuning,
                        entries,
                        bytes,
                        candidate_len,
                        order,
                        victims.len() as int,
                    )
                    &&& forall|m: int|
                        0 <= m < victims.len() ==> !#[trigger] fits_after(
                            tuning,
                            entries,
                            bytes,
                            candidate_len,
                            order,
                            m,
                        )
                },
                None => forall|m: int|
                    0 <= m <= order.len() ==> !#[trigger] fits_after(
                        tuning,
                        entries,
                        bytes,
                        candidate_len,
                        order,
                        m,
                    ),
            }
        }),
{
    let order = victim_order(tuning, now, mode, residents);
    lemma_least_fit(tuning, entries, bytes, candidate_len, order, 0);
}

/// The artifact lengths of programs, added up.
pub open spec fn lengths(rows: Seq<AotResident>) -> nat
    decreases rows.len(),
{
    if rows.len() == 0 {
        0
    } else {
        lengths(rows.drop_last()) + rows.last().artifact_len as nat
    }
}

/// The bytes of the first programs are their lengths, added up.
proof fn lemma_row_bytes(rows: Seq<AotResident>, n: int)
    requires
        0 <= n <= rows.len(),
    ensures
        row_bytes(rows, n) == lengths(rows.take(n)),
    decreases n,
{
    if n > 0 {
        lemma_row_bytes(rows, n - 1);
        assert(rows.take(n).drop_last() =~= rows.take(n - 1));
    }
}

/// The number of a hash, as its bytes spell it.
pub open spec fn hash_number(key: RuntimeCacheKey) -> int {
    key.code_hash.hi * 0x1_0000_0000_0000_0000_0000_0000_0000_0000 + key.code_hash.lo
}

/// Which programs may be evicted, and in what order: an explicit request may evict any, observed
/// demand those whose idle time has passed since their last hit. The one hit longest ago goes first;
/// of two hit at the same time the one with the lesser hash, and of two with the same hash the one
/// for the earlier hardfork.
pub proof fn law_eviction_order(
    tuning: RuntimeTuning,
    now: Moment,
    mode: AdmitMode,
    residents: Seq<AotResident>,
)
    ensures
        ({
            let order = victim_order(tuning, now, mode, residents);
            let min_idle = tuning.resident_aot_min_idle.nanos;
            &&& forall|r: AotResident|
                {
                    let may_go = mode == AdmitMode::Explicit || min_idle == 0
                        || r.last_hit_at.nanos + min_idle <= now.nanos;
                    #[trigger] order.to_multiset().count(r) == if may_go {
                        residents.to_multiset().count(r)
                    } else {
                        0
                    }
                }
            &&& forall|i: int, j: int|
                0 <= i < j < order.len() ==> {
                    let a = #[trigger] order[i];
                    let b = #[trigger] order[j];
                    &&& a.last_hit_at.nanos <= b.last_hit_at.nanos
                    &&& a.last_hit_at.nanos == b.last_hit_at.nanos ==> hash_number(a.key)
                        <= hash_number(b.key)
                    &&& a.last_hit_at.nanos == b.last_hit_at.nanos && a.key.code_hash
                        == b.key.code_hash ==> a.key.spec_id.spec_rank()
                        <= b.key.spec_id.spec_rank()
                }
        }),
{
    let order = victim_order(tuning, now, mode, residents);
    law_order_is_lru(tuning, now, mode, residents);
    assert forall|i: int, j: int| 0 <= i < j < order.len() implies {
        let a = #[trigger] order[i];
        let b = #[trigger] order[j];
        &&& a.last_hit_at.nanos <= b.last_hit_at.nanos
        &&& a.last_hit_at.nanos == b.last_hit_at.nanos ==> hash_number(a.key) <= hash_number(b.key)
        &&& a.last_hit_at.nanos == b.last_hit_at.nanos && a.key.code_hash == b.key.code_hash
            ==> a.key.spec_id.spec_rank() <= b.key.spec_id.spec_rank()
    } by {
        assert(lru_order()(order[i], order[j]));
    }
}

/// What a plan does to both budgets, each by its own number and for every value of the other. Where
/// an artifact is admitted, the programs that are left and the artifact are within each budget that
/// is set. Without the last victim one of them would be passed, so nothing is evicted in vain; and
/// where the artifact is put off, one would be passed even if all went that may. An artifact is
/// refused for good if and only if it alone is over the byte budget.
pub proof fn law_plan_meets_both_budgets(
    tuning: RuntimeTuning,
    entries: usize,
    bytes: usize,
    candidate_len: usize,
    now: Moment,
    mode: AdmitMode,
    residents: Seq<AotResident>,
)
    requires
        entries < usize::MAX,
        bytes + candidate_len <= usize::MAX,
    ensures
        oversized(tuning, candidate_len) <==> 0 < tuning.max_resident_aot_bytes < candidate_len,
        ({
            let order = victim_order(tuning, now, mode, residents);
            match planned_victims(tuning, entries, bytes, candidate_len, now, mode, residents) {
                Some(victims) => {
                    let n = victims.len() as int;
                    let gone = order.take(n);
                    &&& n <= order.len()
                    &&& forall|i: int| 0 <= i < n ==> #[trigger] victims[i] == order[i].key
                    &&& tuning.max_resident_aot_entries > 0 ==> entries + 1 - n
                        <= tuning.max_resident_aot_entries
                    &&& tuning.max_resident_aot_bytes > 0 ==> bytes + candidate_len - lengths(gone)
                        <= tuning.max_resident_aot_bytes
                    &&& n > 0 ==> {
                        ||| 0 < tuning.max_resident_aot_entries < entries + 1 - (n - 1)
                        ||| 0 < tuning.max_resident_aot_bytes < bytes + candidate_len - lengths(
                            gone.drop_last(),
                        )
                    }
                },
                None => {
                    ||| 0 < tuning.max_resident_aot_entries < entries + 1 - order.len()
                    ||| 0 < tuning.max_resident_aot_bytes < bytes + candidate_len - lengths(order)
                },
            }
        }),
{
    let order = victim_order(tuning, now, mode, residents);
    law_plan_is_minimal(tuning, entries, bytes, candidate_len, now, mode, residents);
    match planned_victims(tuning, entries, bytes, candidate_len, now, mode, residents) {
        Some(victims) => {
            let n = victims.len() as int;
            lemma_row_bytes(order, n);
            if n > 0 {
                lemma_row_bytes(order, n - 1);
                assert(order.take(n).drop_last() =~= order.take(n - 1));
                assert(!fits_after(tuning, entries, bytes, candidate_len, order, n - 1));
            }
        },
        None => {
            let n = order.len() as int;
            lemma_row_bytes(order, n);
            assert(order.take(n) =~= order);
            assert(!fits_after(tuning, entries, bytes, candidate_len, order, n));
        },
    }
}

/// No-burst limit on loads of persisted artifacts. An acquisition counts from the time it
/// happens, so idle time is never saved up.
#[derive(Clone, Copy, Debug, PartialEq, Eq, Structural)]
pub struct AotLoadLimiter {
    /// From when on the next acquisition may succeed.
    pub next_allowed_at: Option<Moment>,
}

impl Default for AotLoadLimiter {
    fn default() -> (r: AotLoadLimiter)
        ensures
            r.next_allowed_at is None,
    {
        AotLoadLimiter { next_allowed_at: None }
    }
}

impl AotLoadLimiter {
    /// Whether an acquisition succeeds at `now`.
    pub open spec fn allows(self, now: Moment, interval: Duration) -> bool {
        interval.nanos == 0 || match self.next_allowed_at {
            Some(next) => now.nanos >= next.nanos,
            None => true,
        }
    }

    /// The limiter after an attempt at `now`.
    pub open spec fn after_attempt(self, now: Moment, interval: Duration) -> AotLoadLimiter {
        if interval.nanos == 0 || !self.allows(now, interval) {
            self
        } else {
            AotLoadLimiter {
                next_allowed_at: Some(Moment { nanos: (now.nanos + interval.nanos) as u64 }),
            }
        }
    }

    /// Tries to acquire one load.
    pub fn try_acquire(&mut self, now: Moment, interval: Duration) -> (r: bool)
        requires
            old(self).allows(now, interval) ==> now.nanos + interval.nanos <= u64::MAX,
        ensures
            r == old(self).allows(now, interval),
            *final(self) == old(self).after_attempt(now, interval),
    {
        if interval.is_zero() {
            return true;
        }
        if let Some(next) = self.next_allowed_at {
            if now.nanos < next.nanos {
                return false;
            }
        }
        self.next_allowed_at = Some(now.advance(interval));
        true
    }

    /// Forgets every earlier acquisition.
    pub fn reset(&mut self)
        ensures
            final(self).next_allowed_at is None,
    {
        self.next_allowed_at = None;
    }
}

/// The limiter never bursts: after a successful acquisition the next one succeeds if and only if
/// a whole interval has passed, however long the limiter was idle before.
pub proof fn law_limiter_never_bursts(
    limiter: AotLoadLimiter,
    first: Moment,
    second: Moment,
    interval: Duration,
)
    requires
        interval.nanos > 0,
        first.nanos + interval.nanos <= u64::MAX,
        limiter.allows(first, interval),
    ensures
        limiter.after_attempt(first, interval).allows(second, interval) <==> second.nanos
            >= first.nanos + interval.nanos,
{
}

/// What the limiter lets pass. Without an interval it lets everything pass and remembers nothing. A
/// fresh one lets the first pass; after that it refuses just what comes before the time it
/// remembers, and what it lets pass at a moment sets that time to an interval later.
pub proof fn law_limiter_counts_from_the_last_pass(
    limiter: AotLoadLimiter,
    now: Moment,
    interval: Duration,
)
    ensures
        interval.nanos == 0 ==> limiter.allows(now, interval) && limiter.after_attempt(
            now,
            interval,
        ) == limiter,
        limiter.next_allowed_at is None ==> limiter.allows(now, interval),
        interval.nanos > 0 ==> {
            &&& limiter.next_allowed_at matches Some(next) ==> (limiter.allows(now, interval)
                <==> next.nanos <= now.nanos)
            &&& !limiter.allows(now, interval) ==> limiter.after_attempt(now, interval) == limiter
            &&& limiter.allows(now, interval) && now.nanos + interval.nanos <= u64::MAX ==> {
                &&& limiter.after_attempt(now, interval).next_allowed_at is Some
                &&& limiter.after_attempt(now, interval).next_allowed_at->0.nanos == now.nanos
                    + interval.nanos
            }
        },
{
}

/// A refused acquisition leaves the limiter as it was.
pub proof fn law_refused_acquisition_costs_nothing(
    limiter: AotLoadLimiter,
    now: Moment,
    interval: Duration,
)
    requires
        !limiter.allows(now, interval),
    ensures
        limiter.after_attempt(now, interval) == limiter,
{
}

} // verus!
