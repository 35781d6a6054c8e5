//! The elementary changes keep what holds between requests.
use super::{
    aot_len, aot_weight, is_row, lists, observed_weight, rows_of, BackendView, EntryPhase,
    EntryView, ResidentMeta, SyncNotifier,
};
use crate::admission::AotResident;
use crate::config::ProgramKind;
use crate::keys::RuntimeCacheKey;
use crate::sums::{
    lemma_total_bound, lemma_total_insert, lemma_total_remove, lemma_total_remove_absent, total,
};
use vstd::prelude::*;

verus! {

/// Waking waiters touches nothing but the effects.
pub proof fn lemma_notify_all_frame(v: BackendView, notifiers: Seq<SyncNotifier>)
    ensures
        v.notify_all(notifiers) == (BackendView { outbox: v.notify_all(notifiers).outbox, ..v }),
        v.inv() ==> v.notify_all(notifiers).inv(),
    decreases notifiers.len(),
{
    if notifiers.len() > 0 {
        lemma_notify_all_frame(v, notifiers.drop_last());
    }
}

/// No longer tracking a key keeps the invariant.
pub proof fn lemma_remove_entry_inv(v: BackendView, key: RuntimeCacheKey)
    requires
        v.inv(),
    ensures
        v.remove_entry(key).inv(),
{
    if v.entries.contains_key(key) {
        lemma_total_remove(v.entries, observed_weight(), key);
    } else {
        lemma_total_remove_absent(v.entries, observed_weight(), key);
    }
    let w = v.remove_entry(key);
    assert forall|k: RuntimeCacheKey| #[trigger]
        w.entries.contains_key(k) && w.entries[k].phase == EntryPhase::Cold implies w.entries[k].pending_notifiers.len()
        == 0 by {
        assert(v.entries.contains_key(k));
    }
}

/// Tracking a key that is not resident keeps the invariant, where the number of observation slots
/// in use is brought up to date.
pub proof fn lemma_track_inv(
    v: BackendView,
    key: RuntimeCacheKey,
    entry: EntryView,
    observed_entries: usize,
)
    requires
        v.inv(),
        !v.resident.contains_key(key),
        entry.phase == EntryPhase::Cold ==> entry.pending_notifiers.len() == 0,
        observed_entries == v.observed_entries + (if entry.observed {
            1int
        } else {
            0
        }) - (if v.entries.contains_key(key) && v.entries[key].observed {
            1int
        } else {
            0
        }),
        observed_entries <= v.tuning.max_observed_entries,
    ensures
        (BackendView { entries: v.entries.insert(key, entry), observed_entries, ..v }).inv(),
{
    lemma_total_insert(v.entries, observed_weight(), key, entry);
    if v.entries.contains_key(key) {
        lemma_total_remove(v.entries, observed_weight(), key);
    } else {
        lemma_total_remove_absent(v.entries, observed_weight(), key);
    }
    let w = BackendView { entries: v.entries.insert(key, entry), observed_entries, ..v };
    assert forall|k: RuntimeCacheKey| #[trigger]
        w.entries.contains_key(k) && w.entries[k].phase == EntryPhase::Cold implies w.entries[k].pending_notifiers.len()
        == 0 by {
        if k != key {
            assert(v.entries.contains_key(k));
        }
    }
    assert(w.resident.dom().disjoint(w.entries.dom()));
}

/// Taking a program out keeps the invariant.
pub proof fn lemma_remove_resident_inv(v: BackendView, key: RuntimeCacheKey)
    requires
        v.inv(),
    ensures
        v.remove_resident(key).inv(),
        v.bytes_exact() ==> v.remove_resident(key).bytes_exact(),
{
    if v.resident.contains_key(key) {
        lemma_total_remove(v.resident, aot_weight(), key);
        lemma_total_remove(v.resident, aot_len(), key);
    } else {
        lemma_total_remove_absent(v.resident, aot_weight(), key);
        lemma_total_remove_absent(v.resident, aot_len(), key);
    }
    let w = v.remove_resident(key);
    assert(w.published.dom() =~= w.resident.dom());
}

/// Putting a program in and no longer tracking its key keeps the invariant.
pub proof fn lemma_publish_inv(v: BackendView, key: RuntimeCacheKey, slot: u64, meta: ResidentMeta)
    requires
        v.inv(),
        v.insert_resident(key, slot, meta).resident.dom().len() <= usize::MAX,
    ensures
        v.insert_resident(key, slot, meta).remove_entry(key).inv(),
        v.bytes_exact() && total(
            v.insert_resident(key, slot, meta).resident,
            aot_len(),
        ) <= usize::MAX ==> v.insert_resident(key, slot, meta).bytes_exact(),
{
    let b = if v.resident.contains_key(key) {
        v.remove_resident(key)
    } else {
        v
    };
    if v.resident.contains_key(key) {
        lemma_remove_resident_inv(v, key);
    }
    let w = v.insert_resident(key, slot, meta);
    lemma_total_insert(b.resident, aot_weight(), key, meta);
    lemma_total_insert(b.resident, aot_len(), key, meta);
    lemma_total_remove_absent(b.resident, aot_weight(), key);
    lemma_total_remove_absent(b.resident, aot_len(), key);
    assert(w.resident == b.resident.insert(key, meta));
    lemma_total_bound(w.resident, aot_weight());
    assert(w.published.dom() =~= w.resident.dom());
    let f = w.remove_entry(key);
    if v.entries.contains_key(key) {
        lemma_total_remove(v.entries, observed_weight(), key);
    } else {
        lemma_total_remove_absent(v.entries, observed_weight(), key);
    }
    assert forall|k: RuntimeCacheKey| #[trigger]
        f.entries.contains_key(k) && f.entries[k].phase == EntryPhase::Cold implies f.entries[k].pending_notifiers.len()
        == 0 by {
        assert(v.entries.contains_key(k));
    }
    assert(f.resident.dom().disjoint(f.entries.dom()));
}

/// Any two listings of the resident programs of a kind hold the same programs.
pub proof fn lemma_listings_agree(
    a: Seq<AotResident>,
    b: Seq<AotResident>,
    resident: Map<RuntimeCacheKey, ResidentMeta>,
    kind: ProgramKind,
)
    requires
        lists(a, resident, kind),
        lists(b, resident, kind),
    ensures
        a.to_multiset() == b.to_multiset(),
{
    broadcast use vstd::seq_lib::group_to_multiset_ensures;

    a.lemma_multiset_has_no_duplicates();
    b.lemma_multiset_has_no_duplicates();
    assert forall|row: AotResident| a.to_multiset().count(row) == b.to_multiset().count(row) by {
        assert(a.contains(row) <==> is_row(row, resident, kind));
        assert(b.contains(row) <==> is_row(row, resident, kind));
        assert(a.contains(row) <==> a.to_multiset().count(row) > 0);
        assert(b.contains(row) <==> b.to_multiset().count(row) > 0);
        assert(a.to_multiset().contains(row) <==> a.to_multiset().count(row) > 0);
        assert(b.to_multiset().contains(row) <==> b.to_multiset().count(row) > 0);
    }
    assert(a.to_multiset() =~= b.to_multiset());
}

/// There is a listing of the resident programs of a kind.
pub proof fn lemma_listing_exists(
    resident: Map<RuntimeCacheKey, ResidentMeta>,
    kind: ProgramKind,
)
    requires
        resident.dom().finite(),
    ensures
        lists(rows_of(resident, kind), resident, kind),
    decreases resident.dom().len(),
{
    if resident.dom().len() == 0 {
        let rows = Seq::<AotResident>::empty();
        assert(resident.dom() =~= Set::empty());
        assert(lists(rows, resident, kind));
    } else {
        let k = resident.dom().choose();
        let rest = resident.remove(k);
        lemma_listing_exists(rest, kind);
        let prior = rows_of(rest, kind);
        let row = AotResident {
            key: k,
            last_hit_at: resident[k].last_hit_at,
            artifact_len: resident[k].artifact_len,
        };
        let rows = if resident[k].kind == kind {
            prior.push(row)
        } else {
            prior
        };
        assert(!prior.contains(row)) by {
            assert(!is_row(row, rest, kind));
        }
        assert forall|r: AotResident| #[trigger] rows.contains(r) <==> is_row(r, resident, kind) by {
            assert(prior.contains(r) <==> is_row(r, rest, kind));
            if rows.contains(r) {
                let i = choose|i: int| 0 <= i < rows.len() && rows[i] == r;
                if i < prior.len() {
                    assert(prior[i] == r);
                    assert(prior.contains(r));
                }
            }
            if is_row(r, resident, kind) {
                if r.key == k {
                    assert(r == row);
                    assert(rows[prior.len() as int] == row);
                } else {
                    assert(is_row(r, rest, kind));
                    let i = choose|i: int| 0 <= i < prior.len() && prior[i] == r;
                    assert(rows[i] == r);
                }
            }
        }
        assert(rows.no_duplicates());
        assert(lists(rows, resident, kind));
    }
}

/// One more key of a listing is one more key.
pub proof fn lemma_take_contains(keys: Seq<RuntimeCacheKey>, i: int)
    requires
        keys.no_duplicates(),
        0 <= i < keys.len(),
    ensures
        !keys.take(i).contains(keys[i]),
        forall|k: RuntimeCacheKey| #[trigger]
            keys.take(i + 1).contains(k) <==> keys.take(i).contains(k) || k == keys[i],
{
    let prefix = keys.take(i);
    let longer = keys.take(i + 1);
    if prefix.contains(keys[i]) {
        let j = choose|j: int| 0 <= j < prefix.len() && prefix[j] == keys[i];
        assert(keys[j] == keys[i]);
    }
    assert forall|k: RuntimeCacheKey| #[trigger] longer.contains(k) <==> prefix.contains(k) || k
        == keys[i] by {
        if longer.contains(k) {
            let j = choose|j: int| 0 <= j < longer.len() && longer[j] == k;
            if j < i {
                assert(prefix[j] == k);
            }
        }
        if prefix.contains(k) {
            let j = choose|j: int| 0 <= j < prefix.len() && prefix[j] == k;
            assert(longer[j] == k);
        }
        assert(longer[i] == keys[i]);
    }
}

/// Pushing an element adds it and nothing else.
pub proof fn lemma_push_contains<A>(s: Seq<A>, x: A)
    ensures
        forall|y: A| #[trigger] s.push(x).contains(y) <==> s.contains(y) || y == x,
        s.no_duplicates() && !s.contains(x) ==> s.push(x).no_duplicates(),
{
    let longer = s.push(x);
    assert forall|y: A| #[trigger] longer.contains(y) <==> s.contains(y) || y == x by {
        if longer.contains(y) {
            let j = choose|j: int| 0 <= j < longer.len() && longer[j] == y;
            if j < s.len() {
                assert(s[j] == y);
            }
        }
        if s.contains(y) {
            let j = choose|j: int| 0 <= j < s.len() && s[j] == y;
            assert(longer[j] == y);
        }
        assert(longer[s.len() as int] == x);
    }
}

} // verus!
