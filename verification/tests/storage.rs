use slimhub::keys::{encode_timestamp, pending_key, TTL_7_DAYS_NS};
use slimhub::ring::{ACK_SLOTS, ACK_TTL_NS};
use slimhub::storage::{
    confirm_move, flush_result, known_as, open_result, read_result, trim_step, write_result,
    ConfirmMove, Storage, StorageError, TrimMove, TrimStage,
};

const DAY_NS: u64 = 86_400_000_000_000;
const T: u64 = 1_700_000_000_000_000_000;

fn id(n: u8) -> [u8; 16] {
    let mut id = [0xee; 16];
    id[15] = n;
    id
}

/// A directory that no other test uses.
fn fresh_path(name: &str) -> String {
    let nanos = std::time::UNIX_EPOCH.elapsed().unwrap().as_nanos();
    format!("/tmp/slimhub-storage-test/{}-{}", name, nanos)
}

fn fresh(name: &str) -> Storage {
    Storage::open(&fresh_path(name)).unwrap()
}

/// Opens the database of a store that was dropped a moment ago.
fn raw(path: &str) -> sled::Db {
    let start = std::time::Instant::now();
    loop {
        match sled::open(path) {
            Ok(db) => return db,
            Err(e) => assert!(start.elapsed().as_secs() < 10, "{:?}", e),
        }
    }
}

/// Opens a store whose database was closed a moment ago.
fn reopen(path: &str) -> Storage {
    let start = std::time::Instant::now();
    loop {
        match Storage::open(path) {
            Ok(store) => return store,
            Err(e) => assert!(start.elapsed().as_secs() < 10, "{:?}", e),
        }
    }
}

fn keys(store: &Storage) -> Vec<Vec<u8>> {
    store.pop_pending_batch(1000).entries.into_iter().map(|(key, _)| key).collect()
}

/// Whether a blind identifier is acknowledged: offering it stores nothing, and
/// is answered with the identifier itself.
fn acknowledged(store: &mut Storage, n: u8) -> bool {
    store.insert_pending_at(&id(n), b"probe", T).unwrap() == (false, id(n).to_vec())
}

#[test]
fn new_store_is_empty() {
    let path = fresh_path("empty");
    let store = Storage::open(&path).unwrap();
    assert!(store.pending_is_empty().unwrap());
    assert_eq!(store.pending_len().unwrap(), 0);
    assert_eq!(store.db_path(), path);
    let batch = store.pop_pending_batch(64);
    assert!(batch.entries.is_empty());
    assert!(batch.error.is_none());
}

#[test]
fn store_does_not_open_below_a_file() {
    assert!(matches!(Storage::open("/dev/null/slimhub"), Err(StorageError::Open(_))));
}

#[test]
fn chunk_is_stored_and_handed_over() {
    let mut store = fresh("stored");
    let (is_new, key) = store.insert_pending_at(&id(1), b"ciphertext", T).unwrap();
    assert!(is_new);
    assert_eq!(key, pending_key(T, &id(1)));
    assert!(!store.pending_is_empty().unwrap());
    assert_eq!(store.pending_len().unwrap(), 1);
    let batch = store.pop_pending_batch(64);
    assert_eq!(batch.entries, vec![(key, b"ciphertext".to_vec())]);
    // Taking a batch removes nothing.
    assert_eq!(store.pending_len().unwrap(), 1);
}

#[test]
fn empty_payload_is_stored() {
    let mut store = fresh("empty-payload");
    let (is_new, key) = store.insert_pending_at(&id(1), b"", T).unwrap();
    assert!(is_new);
    assert_eq!(store.pop_pending_batch(1).entries, vec![(key, vec![])]);
}

#[test]
fn chunk_of_now_has_a_key_of_now() {
    let mut store = fresh("now");
    let before = std::time::UNIX_EPOCH.elapsed().unwrap().as_nanos() as u64;
    let (is_new, key) = store.insert_pending(&id(1), b"x").unwrap();
    let after = std::time::UNIX_EPOCH.elapsed().unwrap().as_nanos() as u64;
    assert!(is_new);
    assert_eq!(key.len(), 24);
    assert!(pending_key(before, &id(1)) <= key);
    assert!(key <= pending_key(after, &id(1)));
}

#[test]
fn second_offer_changes_nothing() {
    let mut store = fresh("idempotent");
    let (_, key) = store.insert_pending_at(&id(1), b"first", T).unwrap();
    assert_eq!(store.insert_pending_at(&id(1), b"second", T + 5).unwrap(), (false, key.clone()));
    assert_eq!(store.insert_pending_at(&id(1), b"third", T - 5).unwrap(), (false, key.clone()));
    assert_eq!(store.pop_pending_batch(64).entries, vec![(key, b"first".to_vec())]);
}

#[test]
fn batch_is_oldest_first() {
    let mut store = fresh("order");
    for (n, t) in [(1, T + 3), (2, T + 1), (3, T + 2), (4, T)] {
        store.insert_pending_at(&id(n), &[n], t).unwrap();
    }
    let payloads: Vec<Vec<u8>> =
        store.pop_pending_batch(64).entries.into_iter().map(|(_, value)| value).collect();
    assert_eq!(payloads, vec![vec![4], vec![2], vec![3], vec![1]]);
}

#[test]
fn batch_is_no_longer_than_asked() {
    let mut store = fresh("limit");
    for n in 0..5 {
        store.insert_pending_at(&id(n), &[n], T + n as u64).unwrap();
    }
    assert_eq!(store.pop_pending_batch(0).entries.len(), 0);
    assert_eq!(store.pop_pending_batch(2).entries.len(), 2);
    assert_eq!(
        keys(&store)[..2].to_vec(),
        vec![pending_key(T, &id(0)), pending_key(T + 1, &id(1))]
    );
    assert_eq!(store.pop_pending_batch(5).entries.len(), 5);
    assert_eq!(store.pop_pending_batch(9).entries.len(), 5);
    assert_eq!(store.pending_len().unwrap(), 5);
}

#[test]
fn confirmed_chunk_leaves_and_is_remembered() {
    let mut store = fresh("confirm");
    let (_, key) = store.insert_pending_at(&id(1), b"one", T).unwrap();
    let (_, other) = store.insert_pending_at(&id(2), b"two", T + 1).unwrap();
    store.confirm_consumed_at(&key, T + 2).unwrap();
    assert_eq!(store.pop_pending_batch(64).entries, vec![(other, b"two".to_vec())]);
    // Offered again, it is not stored again.
    let again = store.insert_pending_at(&id(1), b"one", T + 3).unwrap();
    assert_eq!(again, (false, id(1).to_vec()));
    assert_eq!(store.pending_len().unwrap(), 1);
}

#[test]
fn confirming_what_does_not_wait_changes_nothing() {
    let mut store = fresh("confirm-nothing");
    store.insert_pending_at(&id(1), b"one", T).unwrap();
    store.confirm_consumed_at(&pending_key(T, &id(2)), T).unwrap();
    store.confirm_consumed_at(b"short", T).unwrap();
    assert_eq!(store.pending_len().unwrap(), 1);
    // The identifier was not acknowledged on that account.
    assert!(store.insert_pending_at(&id(2), b"two", T).unwrap().0);
}

#[test]
fn confirming_twice_is_confirming_once() {
    let mut store = fresh("confirm-twice");
    let (_, key) = store.insert_pending_at(&id(1), b"one", T).unwrap();
    store.confirm_consumed(&key).unwrap();
    store.confirm_consumed(&key).unwrap();
    assert!(store.pending_is_empty().unwrap());
    assert!(acknowledged(&mut store, 1));
}

#[test]
fn layout_on_disk() {
    let path = fresh_path("layout");
    {
        let mut store = Storage::open(&path).unwrap();
        let (_, key) = store.insert_pending_at(&id(1), b"one", T).unwrap();
        store.confirm_consumed_at(&key, T + 9).unwrap();
        store.insert_pending_at(&id(2), b"two", T + 1).unwrap();
    }
    let db = raw(&path);
    let pending = db.open_tree("pending").unwrap();
    let acknowledged = db.open_tree("acknowledged").unwrap();
    assert_eq!(pending.len(), 1);
    assert_eq!(pending.get(pending_key(T + 1, &id(2))).unwrap().unwrap().to_vec(), b"two");
    assert_eq!(acknowledged.len(), 1);
    assert_eq!(acknowledged.get(id(1)).unwrap().unwrap().to_vec(), encode_timestamp(T + 9));
}

#[test]
fn stored_chunk_outlives_the_store() {
    let path = fresh_path("reopen");
    {
        let mut store = Storage::open(&path).unwrap();
        store.insert_pending_at(&id(1), b"one", T).unwrap();
    }
    drop(raw(&path));
    let mut store = reopen(&path);
    assert_eq!(
        store.pop_pending_batch(64).entries,
        vec![(pending_key(T, &id(1)), b"one".to_vec())]
    );
    assert!(!store.insert_pending_at(&id(1), b"one", T + 1).unwrap().0);
}

#[test]
fn first_of_several_keys_of_an_identifier_answers() {
    let path = fresh_path("several");
    {
        let db = raw(&path);
        let pending = db.open_tree("pending").unwrap();
        pending.insert(pending_key(T + 2, &id(1)), b"late".to_vec()).unwrap();
        pending.insert(pending_key(T + 1, &id(1)), b"early".to_vec()).unwrap();
        pending.insert(b"tiny".to_vec(), b"odd".to_vec()).unwrap();
        db.flush().unwrap();
    }
    let mut store = reopen(&path);
    assert_eq!(store.pending_len().unwrap(), 3);
    let (is_new, key) = store.insert_pending_at(&id(1), b"x", T).unwrap();
    assert!(!is_new);
    assert_eq!(key, pending_key(T + 1, &id(1)));
}

#[test]
fn number_waiting_is_insertions_less_confirmations() {
    let mut store = fresh("count");
    let mut keys = vec![];
    for n in 0..5 {
        keys.push(store.insert_pending_at(&id(n), b"x", T + n as u64).unwrap().1);
    }
    assert!(!store.insert_pending_at(&id(0), b"x", T + 9).unwrap().0);
    assert_eq!(store.pending_len().unwrap(), 5);
    store.confirm_consumed_at(&keys[1], T).unwrap();
    store.confirm_consumed_at(&keys[1], T).unwrap();
    store.confirm_consumed_at(&keys[3], T).unwrap();
    assert_eq!(store.pending_len().unwrap(), 3);
}

#[test]
fn store_whose_batch_was_confirmed_is_empty() {
    let mut store = fresh("drain");
    for n in 0..5 {
        store.insert_pending_at(&id(n), b"x", T).unwrap();
    }
    assert!(!store.pending_is_empty().unwrap());
    for (key, _) in store.pop_pending_batch(5).entries {
        store.confirm_consumed_at(&key, T).unwrap();
    }
    assert!(store.pending_is_empty().unwrap());
    assert_eq!(store.pending_len().unwrap(), 0);
    assert!(store.pop_pending_batch(1).entries.is_empty());
}

// ---------------------------------------------------------------------------
// Confirmation by blind identifier
// ---------------------------------------------------------------------------

#[test]
fn blind_id_that_waits_is_confirmed() {
    let mut store = fresh("by-id");
    store.insert_pending_at(&id(1), b"one", T).unwrap();
    store.insert_pending_at(&id(2), b"two", T).unwrap();
    assert!(store.confirm_blind_id_at(&id(1), T + 1).unwrap());
    assert_eq!(keys(&store), vec![pending_key(T, &id(2))]);
    assert!(acknowledged(&mut store, 1));
    // A second time it does not wait.
    assert!(!store.confirm_blind_id_at(&id(1), T + 2).unwrap());
    assert!(store.confirm_blind_id(&id(2)).unwrap());
    assert!(store.pending_is_empty().unwrap());
}

#[test]
fn blind_id_that_does_not_wait_changes_nothing() {
    let mut store = fresh("by-unknown-id");
    store.insert_pending_at(&id(1), b"one", T).unwrap();
    assert!(!store.confirm_blind_id_at(&id(2), T).unwrap());
    assert_eq!(store.pending_len().unwrap(), 1);
    assert!(store.insert_pending_at(&id(2), b"two", T).unwrap().0);
}

// ---------------------------------------------------------------------------
// The ring of acknowledged identifiers
// ---------------------------------------------------------------------------

fn slot_id(n: usize) -> [u8; 16] {
    let mut id = [0x77; 16];
    id[..8].copy_from_slice(&(n as u64).to_be_bytes());
    id
}

/// A store with one waiting chunk, and these acknowledged records.
fn with_records(name: &str, records: &[([u8; 16], u64)]) -> (String, Storage) {
    let path = fresh_path(name);
    {
        let db = raw(&path);
        let pending = db.open_tree("pending").unwrap();
        let acknowledged = db.open_tree("acknowledged").unwrap();
        pending.insert(pending_key(T, &id(1)), b"one".to_vec()).unwrap();
        for (id, t) in records {
            acknowledged.insert(id.to_vec(), encode_timestamp(*t)).unwrap();
        }
        db.flush().unwrap();
    }
    let store = reopen(&path);
    (path, store)
}

#[test]
fn full_ring_loses_its_oldest_record() {
    // The oldest record stands in the middle of the keys.
    let records: Vec<([u8; 16], u64)> = (0..ACK_SLOTS)
        .map(|n| (slot_id(n), if n == 1234 { T - 5 } else { T - 1 }))
        .collect();
    let (path, mut store) = with_records("ring-full", &records);
    store.confirm_consumed_at(&pending_key(T, &id(1)), T).unwrap();
    drop(store);
    let acknowledged = raw(&path).open_tree("acknowledged").unwrap();
    assert_eq!(acknowledged.len(), ACK_SLOTS);
    assert_eq!(acknowledged.get(id(1)).unwrap().unwrap().to_vec(), encode_timestamp(T));
    assert!(acknowledged.get(slot_id(1234)).unwrap().is_none());
    assert!(acknowledged.get(slot_id(0)).unwrap().is_some());
    assert!(acknowledged.get(slot_id(ACK_SLOTS - 1)).unwrap().is_some());
}

#[test]
fn ring_with_a_free_slot_loses_nothing() {
    let records: Vec<([u8; 16], u64)> =
        (0..ACK_SLOTS - 1).map(|n| (slot_id(n), T - n as u64)).collect();
    let (path, mut store) = with_records("ring-free", &records);
    store.confirm_consumed_at(&pending_key(T, &id(1)), T).unwrap();
    drop(store);
    assert_eq!(raw(&path).open_tree("acknowledged").unwrap().len(), ACK_SLOTS);
}

#[test]
fn records_older_than_a_day_are_evicted() {
    let records = [
        (slot_id(1), T - ACK_TTL_NS),
        (slot_id(2), T - ACK_TTL_NS - 1),
        (slot_id(3), 0),
        (slot_id(4), T + 1),
    ];
    let (path, mut store) = with_records("ring-day", &records);
    // What does not wait evicts nothing.
    store.confirm_consumed_at(&pending_key(T, &id(9)), T).unwrap();
    store.confirm_consumed_at(&pending_key(T, &id(1)), T).unwrap();
    drop(store);
    let acknowledged = raw(&path).open_tree("acknowledged").unwrap();
    assert_eq!(acknowledged.len(), 3);
    assert!(acknowledged.get(slot_id(1)).unwrap().is_some());
    assert!(acknowledged.get(slot_id(4)).unwrap().is_some());
    assert!(acknowledged.get(id(1)).unwrap().is_some());
}

#[test]
fn what_does_not_wait_evicts_nothing() {
    let (path, mut store) = with_records("ring-rest", &[(slot_id(1), 0)]);
    store.confirm_consumed_at(&pending_key(T, &id(9)), T).unwrap();
    assert!(!store.confirm_blind_id_at(&id(9), T).unwrap());
    drop(store);
    assert_eq!(raw(&path).open_tree("acknowledged").unwrap().len(), 1);
}

// ---------------------------------------------------------------------------
// Decisions
// ---------------------------------------------------------------------------

fn broken() -> Result<u8, sled::Error> {
    Err(sled::Error::Unsupported(String::from("broken")))
}

fn is_broken(e: &sled::Error) -> bool {
    matches!(e, sled::Error::Unsupported(why) if why == "broken")
}

#[test]
fn results_of_the_engine_in_terms_of_the_store() {
    assert_eq!(open_result(Ok(5)).unwrap(), 5);
    assert_eq!(read_result(Ok(6)).unwrap(), 6);
    assert_eq!(write_result(Ok(7)).unwrap(), 7);
    assert_eq!(flush_result(Ok(8)).unwrap(), 8);
    assert!(matches!(open_result(broken()), Err(StorageError::Open(e)) if is_broken(&e)));
    assert!(matches!(read_result(broken()), Err(StorageError::Read(e)) if is_broken(&e)));
    assert!(matches!(write_result(broken()), Err(StorageError::Write(e)) if is_broken(&e)));
    assert!(matches!(flush_result(broken()), Err(StorageError::Flush(e)) if is_broken(&e)));
}

#[test]
fn known_identifier_has_a_key() {
    let waits = Some(vec![1, 2, 3]);
    for acknowledged in [false, true] {
        assert_eq!(known_as(waits.clone(), acknowledged, &id(1)), Some(vec![1, 2, 3]));
    }
    assert_eq!(known_as(None, true, &id(1)), Some(id(1).to_vec()));
    assert_eq!(known_as(None, false, &id(1)), None);
}

#[test]
fn known_key_changes_nothing() {
    let mut store = fresh("known");
    assert_eq!(store.known_key(&id(1)).unwrap(), None);
    let (_, key) = store.insert_pending_at(&id(1), b"one", T).unwrap();
    assert_eq!(store.known_key(&id(1)).unwrap(), Some(key.clone()));
    assert_eq!(store.known_key(&id(2)).unwrap(), None);
    assert_eq!(store.pop_pending_batch(9).entries, vec![(key.clone(), b"one".to_vec())]);
    store.confirm_consumed_at(&key, T).unwrap();
    assert_eq!(store.known_key(&id(1)).unwrap(), Some(id(1).to_vec()));
    assert!(store.pending_is_empty().unwrap());
}

#[test]
fn confirmation_is_decided_by_whether_it_waits() {
    let key = pending_key(T, &id(1));
    assert!(matches!(confirm_move(false, &key, T), ConfirmMove::Rest));
    assert!(matches!(confirm_move(false, b"short", T), ConfirmMove::Rest));
    match confirm_move(true, &key, T + 1) {
        ConfirmMove::Acknowledge { blind_id, stamp } => {
            assert_eq!(blind_id, id(1).to_vec());
            assert_eq!(stamp, encode_timestamp(T + 1));
        }
        ConfirmMove::Rest => panic!("it waits"),
    }
}

#[test]
fn cleanup_is_decided_by_stage_and_size() {
    let finish = |backpressure| TrimMove::Finish { backpressure };
    let step = |stage, size| trim_step(stage, size, 80, 60);
    assert_eq!(step(TrimStage::Start, 79), finish(false));
    assert_eq!(step(TrimStage::Start, 80), TrimMove::ClearAcknowledged);
    assert_eq!(step(TrimStage::AcknowledgedCleared, 60), finish(false));
    assert_eq!(step(TrimStage::AcknowledgedCleared, 61), TrimMove::RemoveExpired);
    assert_eq!(step(TrimStage::ExpiredRemoved { removed: 3 }, 60), finish(false));
    assert_eq!(step(TrimStage::ExpiredRemoved { removed: 3 }, 79), finish(false));
    assert_eq!(step(TrimStage::ExpiredRemoved { removed: 0 }, 80), finish(true));
    assert_eq!(step(TrimStage::Done { backpressure: true }, 0), finish(true));
}

// ---------------------------------------------------------------------------
// Cleanup
// ---------------------------------------------------------------------------

/// One consumed chunk (1), one of eight days (2), one of six (3).
fn aged(name: &str) -> Storage {
    let mut store = fresh(name);
    let (_, key) = store.insert_pending_at(&id(1), b"one", T).unwrap();
    store.confirm_consumed_at(&key, T).unwrap();
    store.insert_pending_at(&id(2), b"two", T - 8 * DAY_NS).unwrap();
    store.insert_pending_at(&id(3), b"three", T - 6 * DAY_NS).unwrap();
    store
}

#[test]
fn below_the_high_mark_nothing_happens() {
    let mut store = aged("low");
    let next = store.trim_to_watermark_at(TrimStage::Start, 79, 80, 60, T).unwrap();
    assert_eq!(next, TrimStage::Done { backpressure: false });
    assert_eq!(store.pending_len().unwrap(), 2);
    assert!(acknowledged(&mut store, 1));
}

#[test]
fn first_tier_forgets_the_acknowledged() {
    let mut store = aged("tier1");
    let next = store.trim_to_watermark_at(TrimStage::Start, 80, 80, 60, T).unwrap();
    assert_eq!(next, TrimStage::AcknowledgedCleared);
    assert_eq!(store.pending_len().unwrap(), 2);
    let next = store.trim_to_watermark_at(next, 60, 80, 60, T).unwrap();
    assert_eq!(next, TrimStage::Done { backpressure: false });
    assert_eq!(store.pending_len().unwrap(), 2);
    assert!(!acknowledged(&mut store, 1));
}

#[test]
fn second_tier_removes_what_is_past_seven_days() {
    let mut store = aged("tier2");
    let stage = TrimStage::AcknowledgedCleared;
    let next = store.trim_to_watermark_at(stage, 61, 80, 60, T).unwrap();
    assert_eq!(next, TrimStage::ExpiredRemoved { removed: 1 });
    assert_eq!(
        store.pop_pending_batch(64).entries,
        vec![(pending_key(T - 6 * DAY_NS, &id(3)), b"three".to_vec())]
    );
    let next = store.trim_to_watermark_at(next, 60, 80, 60, T).unwrap();
    assert_eq!(next, TrimStage::Done { backpressure: false });
}

#[test]
fn seven_days_to_the_nanosecond() {
    let mut store = fresh("ttl");
    store.insert_pending_at(&id(1), b"kept", T - TTL_7_DAYS_NS).unwrap();
    store.insert_pending_at(&id(2), b"gone", T - TTL_7_DAYS_NS - 1).unwrap();
    store.insert_pending_at(&id(3), b"future", T + DAY_NS).unwrap();
    let stage = TrimStage::AcknowledgedCleared;
    let next = store.trim_to_watermark_at(stage, 100, 80, 60, T).unwrap();
    assert_eq!(next, TrimStage::ExpiredRemoved { removed: 1 });
    assert_eq!(
        keys(&store),
        vec![pending_key(T - TTL_7_DAYS_NS, &id(1)), pending_key(T + DAY_NS, &id(3))]
    );
}

#[test]
fn cleanup_of_now_keeps_what_arrived_now() {
    let mut store = fresh("trim-now");
    store.insert_pending(&id(1), b"fresh").unwrap();
    store.insert_pending_at(&id(2), b"old", T - 8 * DAY_NS).unwrap();
    let next = store.trim_to_watermark(TrimStage::AcknowledgedCleared, 100, 80, 60).unwrap();
    assert_eq!(next, TrimStage::ExpiredRemoved { removed: 1 });
    assert_eq!(store.pop_pending_batch(64).entries[0].1, b"fresh".to_vec());
}

#[test]
fn last_tier_calls_for_backpressure() {
    let mut store = aged("tier3");
    let stage = TrimStage::ExpiredRemoved { removed: 1 };
    for (size, backpressure) in [(60, false), (61, false), (79, false), (80, true), (99, true)] {
        let next = store.trim_to_watermark_at(stage, size, 80, 60, T).unwrap();
        assert_eq!(next, TrimStage::Done { backpressure });
    }
    // A low mark above the high mark.
    let next = store.trim_to_watermark_at(stage, 85, 80, 90, T).unwrap();
    assert_eq!(next, TrimStage::Done { backpressure: false });
    // Whatever was called for, no chunk was dropped.
    assert_eq!(store.pending_len().unwrap(), 2);
}

#[test]
fn finished_cleanup_stays_finished() {
    let mut store = aged("done");
    for backpressure in [false, true] {
        let stage = TrimStage::Done { backpressure };
        assert_eq!(store.trim_to_watermark_at(stage, 100, 80, 60, T).unwrap(), stage);
    }
    assert_eq!(store.pending_len().unwrap(), 2);
    assert!(acknowledged(&mut store, 1));
}

#[test]
fn cleanup_ends_after_three_steps() {
    let mut store = aged("three-steps");
    let mut stage = TrimStage::Start;
    let mut steps = 0;
    while !matches!(stage, TrimStage::Done { .. }) {
        stage = store.trim_to_watermark_at(stage, 100, 80, 60, T).unwrap();
        steps += 1;
    }
    assert_eq!(steps, 3);
    assert_eq!(stage, TrimStage::Done { backpressure: true });
    assert_eq!(keys(&store), vec![pending_key(T - 6 * DAY_NS, &id(3))]);
}
