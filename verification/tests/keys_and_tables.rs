//! Keys, the tables they index, queues of lookups, artifacts and the clock.
use alloy_primitives::Bytes;
use crossbeam_queue::ArrayQueue;
use revm_primitives::hardfork::SpecId as Hardfork;
use revmc_runtime::clock::{Clock, Duration, Moment};
use revmc_runtime::config::{OptimizationLevel, RuntimeTuning};
use revmc_runtime::events::{collect, drain, EventSource, LookupRequest};
use revmc_runtime::keymap::KeyMap;
use revmc_runtime::keys::{symbol_name, RuntimeCacheKey, SpecId, B256};
use revmc_runtime::resident::ResidentMap;
use revmc_runtime::storage::{
    manifest_for, manifest_with_digest, AotSuccess, ArtifactKey, BackendSelection, StoredArtifact,
};

fn key(last_byte: u8) -> RuntimeCacheKey {
    RuntimeCacheKey { code_hash: B256::with_last_byte(last_byte), spec_id: SpecId::CANCUN }
}

const ALL: [(SpecId, Hardfork); 15] = [
    (SpecId::FRONTIER, Hardfork::FRONTIER),
    (SpecId::HOMESTEAD, Hardfork::HOMESTEAD),
    (SpecId::TANGERINE, Hardfork::TANGERINE),
    (SpecId::SPURIOUS_DRAGON, Hardfork::SPURIOUS_DRAGON),
    (SpecId::BYZANTIUM, Hardfork::BYZANTIUM),
    (SpecId::PETERSBURG, Hardfork::PETERSBURG),
    (SpecId::ISTANBUL, Hardfork::ISTANBUL),
    (SpecId::BERLIN, Hardfork::BERLIN),
    (SpecId::LONDON, Hardfork::LONDON),
    (SpecId::MERGE, Hardfork::MERGE),
    (SpecId::SHANGHAI, Hardfork::SHANGHAI),
    (SpecId::CANCUN, Hardfork::CANCUN),
    (SpecId::PRAGUE, Hardfork::PRAGUE),
    (SpecId::OSAKA, Hardfork::OSAKA),
    (SpecId::AMSTERDAM, Hardfork::AMSTERDAM),
];

#[test]
fn hardforks_have_the_ranks_and_names_of_the_evm() {
    for (ours, theirs) in ALL {
        assert_eq!(ours.rank(), theirs as u8);
        assert_eq!(ours.name(), format!("{theirs:?}"));
        assert_eq!(SpecId::from_rank(theirs as u8), Some(ours));
    }
    assert_eq!(SpecId::from_rank(15), None);
    assert_eq!(SpecId::from_rank(255), None);
}

#[test]
fn symbol_names_spell_out_the_key() {
    let zeros = "0".repeat(62);
    assert_eq!(symbol_name("jit", key(0xab)), format!("jit_{zeros}ab_CANCUN"));
    let all_digits = RuntimeCacheKey {
        code_hash: B256 {
            hi: 0x0123_4567_89ab_cdef_0011_2233_4455_6677,
            lo: 0x8899_aabb_ccdd_eeff_fedc_ba98_7654_3210,
        },
        spec_id: SpecId::SPURIOUS_DRAGON,
    };
    assert_eq!(
        symbol_name("aot", all_digits),
        "aot_0123456789abcdef00112233445566778899aabbccddeefffedcba9876543210_SPURIOUS_DRAGON",
    );
}

#[test]
fn symbol_names_agree_with_the_hash_type() {
    let bytes: [u8; 32] = alloy_primitives::keccak256([1u8, 2, 3]).0;
    let mut hi = [0u8; 16];
    let mut lo = [0u8; 16];
    hi.copy_from_slice(&bytes[..16]);
    lo.copy_from_slice(&bytes[16..]);
    let key = RuntimeCacheKey {
        code_hash: B256 { hi: u128::from_be_bytes(hi), lo: u128::from_be_bytes(lo) },
        spec_id: SpecId::OSAKA,
    };
    let expected =
        format!("jit_{:x}_{:?}", alloy_primitives::B256::from(bytes), Hardfork::OSAKA);
    assert_eq!(symbol_name("jit", key), expected);
}

#[test]
fn hashes_are_ordered_as_byte_strings() {
    let low = B256 { hi: 0, lo: u128::MAX };
    let high = B256 { hi: 1, lo: 0 };
    assert!(low.less(high));
    assert!(!high.less(low));
    assert!(!low.less(low));
    assert!(B256::with_last_byte(1).less(B256::with_last_byte(2)));
}

#[test]
fn keys_flatten_and_come_back() {
    let k = key(7);
    assert_eq!(k.raw(), (0, 7, 11));
    assert_eq!(RuntimeCacheKey::from_raw(k.raw()), Some(k));
    assert_eq!(RuntimeCacheKey::from_raw((0, 7, 15)), None);
}

#[test]
fn key_map_holds_what_is_put_in() {
    let mut map: KeyMap<u32> = KeyMap::new();
    assert_eq!(map.len(), 0);
    assert_eq!(map.get(&key(1)), None);
    map.insert(key(1), 10);
    map.insert(key(2), 20);
    map.insert(key(1), 11);
    let other_fork = RuntimeCacheKey { spec_id: SpecId::PRAGUE, ..key(1) };
    assert!(!map.contains_key(&other_fork));
    assert_eq!(map.get(&key(1)), Some(&11));
    assert_eq!(map.len(), 2);
    let mut keys = map.keys();
    keys.sort_by_key(|k| k.code_hash.lo);
    assert_eq!(keys, vec![key(1), key(2)]);
    assert_eq!(map.remove(&key(1)), Some(11));
    assert_eq!(map.remove(&key(1)), None);
    assert!(map.contains_key(&key(2)));
    assert_eq!(map.len(), 1);
}

#[test]
fn readers_follow_the_resident_map() {
    let mut resident = ResidentMap::new();
    let reader = resident.reader();
    assert_eq!(reader.get(&key(1)), None);
    resident.insert(key(1), 100);
    resident.insert(key(2), 200);
    assert_eq!(reader.get(&key(1)), Some(100));
    assert!(resident.contains_key(&key(2)));
    assert_eq!(resident.remove(&key(1)), Some(100));
    assert_eq!(resident.remove(&key(1)), None);
    assert_eq!(reader.get(&key(1)), None);
    assert_eq!(reader.get(&key(2)), Some(200));
    resident.clear();
    assert_eq!(reader.get(&key(2)), None);
    assert!(!resident.contains_key(&key(2)));
}

#[test]
fn draining_is_capped_and_keeps_the_order() {
    let mut source = EventSource::new(ArrayQueue::new(4));
    let sender = source.sender();
    for byte in 1..=3 {
        let event = LookupRequest { key: key(byte), code: Bytes::from_static(&[0x60]) };
        assert!(sender.push(event).is_ok());
    }
    let first = drain(&mut source, 2);
    assert_eq!(first.iter().map(|e| e.key).collect::<Vec<_>>(), vec![key(1), key(2)]);
    let second = drain(&mut source, 2);
    assert_eq!(second.iter().map(|e| e.key).collect::<Vec<_>>(), vec![key(3)]);
    assert_eq!(drain(&mut source, 2).len(), 0);
    assert!(sender.push(LookupRequest { key: key(9), code: Bytes::new() }).is_ok());
    assert_eq!(drain(&mut source, 0).len(), 0);
    assert_eq!(drain(&mut source, 5).len(), 1);
}

#[test]
fn full_queues_hand_events_back() {
    let mut source = EventSource::new(ArrayQueue::new(1));
    let sender = source.sender();
    let other = source.sender();
    assert!(sender.push(LookupRequest { key: key(1), code: Bytes::new() }).is_ok());
    let refused = other.push(LookupRequest { key: key(2), code: Bytes::from_static(&[0x5b]) });
    let returned = refused.err().expect("the queue is full");
    assert_eq!(returned.key, key(2));
    assert_eq!(returned.code, Bytes::from_static(&[0x5b]));
    assert_eq!(drain(&mut source, 9).iter().map(|e| e.key).collect::<Vec<_>>(), vec![key(1)]);
    assert!(other.push(returned).is_ok());
    assert_eq!(drain(&mut source, 9).iter().map(|e| e.key).collect::<Vec<_>>(), vec![key(2)]);
}

#[test]
fn what_a_queue_held_before_comes_off_first() {
    let queue: ArrayQueue<LookupRequest> = ArrayQueue::new(4);
    assert!(queue.push(LookupRequest { key: key(1), code: Bytes::new() }).is_ok());
    let mut source = EventSource::new(queue);
    assert!(source.sender().push(LookupRequest { key: key(2), code: Bytes::new() }).is_ok());
    let events = drain(&mut source, 4);
    assert_eq!(events.iter().map(|e| e.key).collect::<Vec<_>>(), vec![key(1), key(2)]);
}

#[test]
fn collecting_stops_where_the_queue_is_found_empty() {
    let mut events: Vec<LookupRequest> = Vec::new();
    let event = LookupRequest { key: key(4), code: Bytes::from_static(&[0x5b]) };
    assert!(collect(&mut events, Some(event)));
    assert!(!collect(&mut events, None));
    assert_eq!(events.len(), 1);
    assert_eq!(events[0].key, key(4));
    assert_eq!(events[0].code, Bytes::from_static(&[0x5b]));
}

#[test]
fn readers_never_find_a_program_under_another_key() {
    let mut resident = ResidentMap::new();
    let reader = resident.reader();
    for byte in 1..=20 {
        resident.insert(key(byte), 100 + u64::from(byte));
    }
    for byte in 1..=20 {
        assert_eq!(reader.get(&key(byte)), Some(100 + u64::from(byte)));
    }
    assert_eq!(reader.get(&key(21)), None);
}

fn artifact_key() -> ArtifactKey {
    ArtifactKey {
        runtime: key(1),
        backend: BackendSelection::Llvm,
        opt_level: OptimizationLevel::Aggressive,
    }
}

#[test]
fn manifests_describe_the_library() {
    let success = AotSuccess {
        dylib_bytes: Vec::new(),
        symbol_name: "aot_symbol".to_string(),
        bytecode_len: 17,
    };
    let manifest = manifest_for(artifact_key(), &success, Some(1_700_000_000));
    assert_eq!(manifest.artifact_key, artifact_key());
    assert_eq!(manifest.symbol_name, "aot_symbol");
    assert_eq!(manifest.bytecode_len, 17);
    assert_eq!(manifest.artifact_len, 0);
    assert_eq!(manifest.created_at_unix_secs, 1_700_000_000);
    // Keccak-256 of the empty string.
    let expected: [u8; 32] = [
        0xc5, 0xd2, 0x46, 0x01, 0x86, 0xf7, 0x23, 0x3c, 0x92, 0x7e, 0x7d, 0xb2, 0xdc, 0xc7, 0x03,
        0xc0, 0xe5, 0x00, 0xb6, 0x53, 0xca, 0x82, 0x27, 0x3b, 0x7b, 0xfa, 0xd8, 0x04, 0x5d, 0x85,
        0xa4, 0x70,
    ];
    assert_eq!(manifest.content_hash, expected);
}

#[test]
fn a_clock_before_the_epoch_counts_as_the_epoch() {
    let success = AotSuccess {
        dylib_bytes: vec![1, 2, 3],
        symbol_name: String::new(),
        bytecode_len: 0,
    };
    let manifest = manifest_with_digest(artifact_key(), &success, None, [7; 32]);
    assert_eq!(manifest.created_at_unix_secs, 0);
    assert_eq!(manifest.artifact_len, 3);
    assert_eq!(manifest.content_hash, [7; 32]);
    let stored = StoredArtifact { manifest, dylib_path: "/artifacts/lib.so".to_string() };
    assert_eq!(stored.duplicate(), stored);
}

#[test]
fn spans_and_moments_are_counted_in_nanoseconds() {
    assert_eq!(Duration::from_secs(3).nanos, 3_000_000_000);
    assert_eq!(Duration::from_millis(3).nanos, 3_000_000);
    assert!(Duration::from_secs(0).is_zero());
    assert!(!Duration::from_millis(1).is_zero());
    assert_eq!(Duration::from_secs(1).min(Duration::from_millis(999)), Duration::from_millis(999));
    assert_eq!(Duration::from_secs(u64::MAX).nanos, 18_446_744_073_709_551_615_000_000_000);
    let start = Moment::after_start(5);
    assert_eq!(start, Moment { nanos: 5 });
    let later = start.advance(Duration::from_millis(1));
    assert_eq!(later, Moment { nanos: 1_000_005 });
    assert_eq!(later.duration_since(start), Duration::from_millis(1));
    assert_eq!(start.duration_since(later), Duration { nanos: 0 });
    assert!(start.can_advance(Duration { nanos: (u64::MAX - 5) as u128 }));
    assert!(!start.can_advance(Duration { nanos: (u64::MAX - 4) as u128 }));
}

#[test]
fn the_clock_moves_on() {
    let clock = Clock::start();
    let first = clock.now();
    let mut last = first;
    for _ in 0..1_000_000 {
        last = clock.now();
        if last.nanos > first.nanos {
            break;
        }
    }
    assert!(last.nanos > first.nanos);
}

#[test]
fn the_backend_never_sleeps_past_a_drain_or_a_sweep() {
    let tuning = RuntimeTuning {
        event_drain_interval: Duration::from_millis(100),
        eviction_sweep_interval: Duration::from_secs(60),
        ..Default::default()
    };
    assert_eq!(tuning.tick_interval(), Duration::from_millis(100));
    let eager = RuntimeTuning { eviction_sweep_interval: Duration::from_millis(10), ..tuning };
    assert_eq!(eager.tick_interval(), Duration::from_millis(10));
}
