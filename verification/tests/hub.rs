use slimhub::cli::Cli;
use slimhub::config::{Config, ConfigError, Setting};
use slimhub::hub::{
    chunk_outcome, disk_alert, disk_capacity_bytes, level_name, meanwhile_level, pressure_level,
    suggested_interval_ms, usage_alert, ChunkOutcome, DiskLimits, Hub, MonitorStep, PressureLevel,
    ReloadError, BATCH_SIZE,
};
use slimhub::keys::pending_key;
use slimhub::storage::{Storage, StorageError, TrimStage};

const DAY_NS: u64 = 86_400_000_000_000;
const T: u64 = 1_700_000_000_000_000_000;
const HEX: &str = "00112233445566778899AAbbccddeeff";
const ID: [u8; 16] = [
    0x00, 0x11, 0x22, 0x33, 0x44, 0x55, 0x66, 0x77, 0x88, 0x99, 0xaa, 0xbb, 0xcc, 0xdd, 0xee, 0xff,
];
const LIMITS: DiskLimits = DiskLimits { capacity: 1000, high_bytes: 800, low_bytes: 600 };

fn fresh_path(name: &str) -> String {
    let nanos = std::time::UNIX_EPOCH.elapsed().unwrap().as_nanos();
    format!("/tmp/slimhub-hub-test/{}-{}", name, nanos)
}

fn fresh(name: &str) -> Hub {
    let path = fresh_path(name);
    let config = Config {
        db_path: path.clone(),
        disk_capacity_gb: 10,
        high_watermark_pct: 80,
        low_watermark_pct: 60,
        zenoh_listen: vec![],
        hub_id: String::from("hub-A"),
    };
    Hub::new(Storage::open(&path).unwrap(), config)
}

/// The topic on which the consumer acknowledges a chunk.
fn consumer_topic(leaf: &str) -> String {
    format!("slim/hub-A/sync/ack/{}", leaf)
}

fn arguments(db_path: Option<&str>) -> Cli {
    Cli { config: None, daemon: true, db_path: db_path.map(String::from), command: None }
}

fn settings(hub_id: &str, db_path: &str, gigabytes: u64) -> String {
    format!(
        "[general]\nhub_id = \"{}\"\n[storage]\ndb_path = \"{}\"\ndisk_capacity_gb = {}\n\
         high_watermark_pct = 70\nlow_watermark_pct = 50\n[zenoh]\nlisten = [\"tcp/x\"]\n",
        hub_id, db_path, gigabytes
    )
}

fn chunk_topic(leaf: &str) -> String {
    format!("slim/sync/chunk/{}", leaf)
}

fn hex_id(n: u8) -> String {
    format!("{:032x}", n)
}

/// Looks at a database that keeps its size until the cleanup is over.
fn check(hub: &mut Hub, size: u64) -> MonitorStep {
    let mut stage = TrimStage::Start;
    loop {
        match hub.check_disk_at(stage, size, LIMITS, T).unwrap() {
            MonitorStep::Measure(next) => stage = next,
            step => return step,
        }
    }
}

#[test]
fn new_hub_takes_chunks() {
    let hub = fresh("new");
    assert_eq!(hub.level, PressureLevel::Normal);
    assert_eq!(hub.config.hub_id, "hub-A");
    assert!(hub.next_batch().entries.is_empty());
}

#[test]
fn chunk_is_stored_and_confirmed() {
    let mut hub = fresh("stored");
    match hub.receive_chunk_at(&chunk_topic(HEX), b"ciphertext", T) {
        ChunkOutcome::Stored { is_new, key, ack_topic } => {
            assert!(is_new);
            assert_eq!(key, pending_key(T, &ID));
            // Confirmed as it was spelled.
            assert_eq!(ack_topic, format!("slim/sync/ack/{}", HEX));
        }
        other => panic!("{:?}", other),
    }
    let batch = hub.next_batch();
    assert!(batch.error.is_none());
    assert_eq!(batch.entries, vec![(pending_key(T, &ID), b"ciphertext".to_vec())]);
}

#[test]
fn resent_chunk_is_confirmed_again() {
    let mut hub = fresh("resent");
    hub.receive_chunk_at(&chunk_topic(HEX), b"first", T);
    match hub.receive_chunk_at(&chunk_topic(&HEX.to_lowercase()), b"second", T + 1) {
        ChunkOutcome::Stored { is_new, key, ack_topic } => {
            assert!(!is_new);
            assert_eq!(key, pending_key(T, &ID));
            assert_eq!(ack_topic, format!("slim/sync/ack/{}", HEX.to_lowercase()));
        }
        other => panic!("{:?}", other),
    }
    assert_eq!(hub.next_batch().entries, vec![(pending_key(T, &ID), b"first".to_vec())]);
}

#[test]
fn chunk_of_now_is_stored() {
    let mut hub = fresh("now");
    let outcome = hub.receive_chunk(&chunk_topic(HEX), b"x");
    assert!(matches!(outcome, ChunkOutcome::Stored { is_new: true, .. }));
    assert_eq!(hub.next_batch().entries[0].1, b"x".to_vec());
}

#[test]
fn topic_without_a_blind_id_is_ignored() {
    let mut hub = fresh("ignored");
    for leaf in ["", "abc", "zz112233445566778899aabbccddeeff", "00112233445566778899aabbccddeeff0"]
    {
        let outcome = hub.receive_chunk_at(&chunk_topic(leaf), b"x", T);
        assert!(matches!(outcome, ChunkOutcome::Ignored));
    }
    assert!(hub.storage.pending_is_empty().unwrap());
}

#[test]
fn critical_hub_refuses_chunks() {
    let mut hub = fresh("refused");
    hub.receive_chunk_at(&chunk_topic(&hex_id(1)), b"kept", T);
    check(&mut hub, 900);
    assert_eq!(hub.level, PressureLevel::Critical);
    let outcome = hub.receive_chunk_at(&chunk_topic(HEX), b"x", T);
    assert!(matches!(outcome, ChunkOutcome::Refused));
    assert!(matches!(hub.receive_chunk_at("x", b"x", T), ChunkOutcome::Ignored));
    assert_eq!(hub.storage.pending_len().unwrap(), 1);
    // Once there is room again, it takes them.
    check(&mut hub, 500);
    let outcome = hub.receive_chunk_at(&chunk_topic(HEX), b"x", T);
    assert!(matches!(outcome, ChunkOutcome::Stored { is_new: true, .. }));
}

#[test]
fn known_chunk_is_confirmed_at_every_level() {
    let mut hub = fresh("known");
    hub.receive_chunk_at(&chunk_topic(HEX), b"x", T);
    hub.receive_chunk_at(&chunk_topic(&hex_id(1)), b"y", T);
    hub.note_consumed_at(&consumer_topic(&hex_id(1)), T).unwrap();
    for level in [
        PressureLevel::Normal,
        PressureLevel::Warning,
        PressureLevel::Critical,
        PressureLevel::Exhausted,
    ] {
        hub.level = level;
        match hub.receive_chunk_at(&chunk_topic(HEX), b"x", T + 1) {
            ChunkOutcome::Stored { is_new, key, ack_topic } => {
                assert!(!is_new);
                assert_eq!(key, pending_key(T, &ID));
                assert_eq!(ack_topic, format!("slim/sync/ack/{}", HEX));
            }
            other => panic!("{:?}", other),
        }
        let outcome = hub.receive_chunk_at(&chunk_topic(&hex_id(1)), b"y", T + 1);
        assert!(matches!(outcome, ChunkOutcome::Stored { is_new: false, .. }));
    }
    let outcome = hub.receive_chunk_at(&chunk_topic(&hex_id(2)), b"z", T + 1);
    assert!(matches!(outcome, ChunkOutcome::Refused));
    assert_eq!(hub.storage.pending_len().unwrap(), 1);
}

#[test]
fn alert_where_a_cleanup_failed() {
    let alert = |last, size| usage_alert("h", last, size, LIMITS);
    let (level, step) = alert(PressureLevel::Normal, 799);
    assert_eq!(level, PressureLevel::Normal);
    assert!(matches!(step, MonitorStep::Rest));
    for (size, expected) in [
        (799, PressureLevel::Normal),
        (800, PressureLevel::Warning),
        (899, PressureLevel::Warning),
        (900, PressureLevel::Critical),
        (949, PressureLevel::Critical),
    ] {
        let (level, step) = alert(PressureLevel::Warning, size);
        assert_eq!(level, expected);
        match step {
            MonitorStep::Broadcast { topic, frame } => {
                assert_eq!(topic, "slim/hub/backpressure/h");
                assert_eq!(frame.level, expected);
            }
            other => panic!("{:?}", other),
        }
    }
    let (level, step) = alert(PressureLevel::Normal, 950);
    assert_eq!(level, PressureLevel::Exhausted);
    assert!(matches!(step, MonitorStep::Shutdown));
}

#[test]
fn exhausted_hub_refuses_chunks_and_stops() {
    let mut hub = fresh("exhausted");
    hub.receive_chunk_at(&chunk_topic(&hex_id(1)), b"old", T - 30 * DAY_NS);
    // At once, at whatever stage, and whatever the cleanup would come to.
    for stage in [TrimStage::Start, TrimStage::AcknowledgedCleared] {
        let step = hub.check_disk_at(stage, 950, LIMITS, T).unwrap();
        assert!(matches!(step, MonitorStep::Shutdown));
    }
    assert_eq!(hub.storage.pending_len().unwrap(), 1);
    assert_eq!(hub.level, PressureLevel::Exhausted);
    let outcome = hub.receive_chunk_at(&chunk_topic(HEX), b"x", T);
    assert!(matches!(outcome, ChunkOutcome::Refused));
}

#[test]
fn warned_hub_goes_on_taking_chunks() {
    let mut hub = fresh("warned");
    check(&mut hub, 850);
    assert_eq!(hub.level, PressureLevel::Warning);
    let outcome = hub.receive_chunk_at(&chunk_topic(HEX), b"x", T);
    assert!(matches!(outcome, ChunkOutcome::Stored { is_new: true, .. }));
}

#[test]
fn chunks_are_refused_while_a_cleanup_goes_on() {
    let mut hub = fresh("meanwhile");
    let step = hub.check_disk_at(TrimStage::Start, 900, LIMITS, T).unwrap();
    assert!(matches!(step, MonitorStep::Measure(TrimStage::AcknowledgedCleared)));
    assert_eq!(hub.level, PressureLevel::Critical);
    let outcome = hub.receive_chunk_at(&chunk_topic(HEX), b"x", T);
    assert!(matches!(outcome, ChunkOutcome::Refused));
    let step = hub.check_disk_at(TrimStage::AcknowledgedCleared, 899, LIMITS, T).unwrap();
    assert!(matches!(step, MonitorStep::Measure(_)));
    assert_eq!(hub.level, PressureLevel::Warning);
}

#[test]
fn return_to_normal_is_announced_once() {
    let mut hub = fresh("normal");
    check(&mut hub, 850);
    match check(&mut hub, 300) {
        MonitorStep::Broadcast { topic, frame } => {
            assert_eq!(topic, "slim/hub/backpressure/hub-A");
            assert_eq!(frame.hub_id, "hub-A");
            assert_eq!(frame.level, PressureLevel::Normal);
            assert_eq!(frame.disk_usage_pct, 30);
            assert_eq!(frame.suggested_interval_ms, 0);
        }
        other => panic!("{:?}", other),
    }
    assert!(matches!(check(&mut hub, 300), MonitorStep::Rest));
}

#[test]
fn low_disk_use_is_left_alone() {
    let mut hub = fresh("rest");
    hub.receive_chunk_at(&chunk_topic(HEX), b"old", T - 30 * DAY_NS);
    let step = hub.check_disk_at(TrimStage::Start, 799, LIMITS, T).unwrap();
    assert!(matches!(step, MonitorStep::Rest));
    assert_eq!(hub.level, PressureLevel::Normal);
    assert_eq!(hub.storage.pending_len().unwrap(), 1);
}

#[test]
fn frames_by_level() {
    let mut hub = fresh("frames");
    for (size, level, pct, wait) in [
        (800, PressureLevel::Warning, 80, 1000),
        (899, PressureLevel::Warning, 89, 1000),
        (900, PressureLevel::Critical, 90, 5000),
        (949, PressureLevel::Critical, 94, 5000),
    ] {
        match check(&mut hub, size) {
            MonitorStep::Broadcast { topic, frame } => {
                assert_eq!(topic, "slim/hub/backpressure/hub-A");
                assert_eq!(frame.hub_id, "hub-A");
                assert_eq!(frame.level, level);
                assert_eq!(frame.disk_usage_pct, pct);
                assert_eq!(frame.suggested_interval_ms, wait);
            }
            other => panic!("{:?}", other),
        }
        assert_eq!(hub.level, level);
    }
}

#[test]
fn cleanup_goes_tier_by_tier() {
    let mut hub = fresh("tiers");
    hub.receive_chunk_at(&chunk_topic(&hex_id(1)), b"old", T - 8 * DAY_NS);
    hub.receive_chunk_at(&chunk_topic(&hex_id(2)), b"young", T - 6 * DAY_NS);
    let step = hub.check_disk_at(TrimStage::Start, 850, LIMITS, T).unwrap();
    assert!(matches!(step, MonitorStep::Measure(TrimStage::AcknowledgedCleared)));
    let step = hub.check_disk_at(TrimStage::AcknowledgedCleared, 850, LIMITS, T).unwrap();
    assert!(matches!(step, MonitorStep::Measure(TrimStage::ExpiredRemoved { removed: 1 })));
    // Freed enough, if not down to the low mark.
    let stage = TrimStage::ExpiredRemoved { removed: 1 };
    assert!(matches!(hub.check_disk_at(stage, 700, LIMITS, T).unwrap(), MonitorStep::Rest));
    assert_eq!(hub.level, PressureLevel::Normal);
    assert_eq!(hub.next_batch().entries[0].1, b"young".to_vec());
}

#[test]
fn look_of_now_removes_what_is_old() {
    let mut hub = fresh("look-now");
    hub.receive_chunk_at(&chunk_topic(HEX), b"old", T - 30 * DAY_NS);
    hub.receive_chunk(&chunk_topic(&hex_id(1)), b"fresh");
    let step = hub.check_disk(TrimStage::AcknowledgedCleared, 850, LIMITS).unwrap();
    assert!(matches!(step, MonitorStep::Measure(TrimStage::ExpiredRemoved { removed: 1 })));
    assert_eq!(hub.next_batch().entries[0].1, b"fresh".to_vec());
}

#[test]
fn batch_holds_the_oldest_sixty_four() {
    let mut hub = fresh("batch");
    for n in 0..70 {
        hub.receive_chunk_at(&chunk_topic(&hex_id(n)), &[n], T + n as u64);
    }
    let batch = hub.next_batch();
    assert_eq!(BATCH_SIZE, 64);
    assert_eq!(batch.entries.len(), 64);
    for n in 0..64u8 {
        assert_eq!(batch.entries[n as usize].1, vec![n]);
    }
}

#[test]
fn forwarded_chunk_waits_for_its_acknowledgement() {
    let mut hub = fresh("forwarded");
    hub.receive_chunk_at(&chunk_topic(HEX), b"x", T);
    // However often it is forwarded, it is there to be forwarded again.
    for _ in 0..3 {
        assert_eq!(hub.next_batch().entries, vec![(pending_key(T, &ID), b"x".to_vec())]);
    }
}

#[test]
fn acknowledged_chunk_is_consumed() {
    let mut hub = fresh("acknowledged");
    hub.receive_chunk_at(&chunk_topic(HEX), b"x", T);
    hub.receive_chunk_at(&chunk_topic(&hex_id(1)), b"y", T + 1);
    assert!(hub.note_consumed_at(&consumer_topic(&HEX.to_lowercase()), T + 2).unwrap());
    let left = hub.next_batch().entries;
    assert_eq!(left.len(), 1);
    assert_eq!(left[0].1, b"y".to_vec());
    // Sent once more, it is confirmed and not stored.
    match hub.receive_chunk_at(&chunk_topic(HEX), b"x", T + 3) {
        ChunkOutcome::Stored { is_new, key, .. } => {
            assert!(!is_new);
            assert_eq!(key, ID.to_vec());
        }
        other => panic!("{:?}", other),
    }
    assert!(hub.note_consumed(&consumer_topic(&hex_id(1))).unwrap());
    assert!(hub.next_batch().entries.is_empty());
}

#[test]
fn acknowledgement_of_what_does_not_wait_changes_nothing() {
    let mut hub = fresh("unknown-ack");
    hub.receive_chunk_at(&chunk_topic(HEX), b"x", T);
    for leaf in ["", "**", "abc", &hex_id(9)] {
        assert!(!hub.note_consumed_at(&consumer_topic(leaf), T).unwrap());
    }
    assert_eq!(hub.next_batch().entries.len(), 1);
    // Acknowledged twice is acknowledged once.
    assert!(hub.note_consumed_at(&consumer_topic(HEX), T).unwrap());
    assert!(!hub.note_consumed_at(&consumer_topic(HEX), T).unwrap());
}

// ---------------------------------------------------------------------------
// Reload
// ---------------------------------------------------------------------------

#[test]
fn reload_takes_the_settings_of_the_text() {
    let mut hub = fresh("reload");
    hub.receive_chunk_at(&chunk_topic(HEX), b"x", T);
    let path = hub.config.db_path.clone();
    hub.reload(arguments(None), &settings("hub-B", &path, 20)).unwrap();
    assert_eq!(hub.config.hub_id, "hub-B");
    assert_eq!(hub.config.db_path, path);
    assert_eq!(hub.config.disk_capacity_gb, 20);
    assert_eq!(hub.config.high_watermark_pct, 70);
    assert_eq!(hub.config.low_watermark_pct, 50);
    assert_eq!(hub.config.zenoh_listen, vec!["tcp/x"]);
    // On the same store, and under the new name.
    assert_eq!(hub.storage.pending_len().unwrap(), 1);
    match check(&mut hub, 850) {
        MonitorStep::Broadcast { topic, .. } => assert_eq!(topic, "slim/hub/backpressure/hub-B"),
        other => panic!("{:?}", other),
    }
}

#[test]
fn reload_opens_a_store_in_another_place() {
    let mut hub = fresh("reload-from");
    hub.receive_chunk_at(&chunk_topic(HEX), b"x", T);
    let elsewhere = fresh_path("reload-to");
    hub.reload(arguments(None), &settings("hub-A", &elsewhere, 20)).unwrap();
    assert_eq!(hub.storage.db_path(), elsewhere);
    assert!(hub.storage.pending_is_empty().unwrap());
}

#[test]
fn reload_keeps_the_path_of_the_command_line() {
    let mut hub = fresh("reload-cli");
    let path = hub.config.db_path.clone();
    hub.reload(arguments(Some(&path)), &settings("hub-B", "/dev/null/x", 20)).unwrap();
    assert_eq!(hub.config.db_path, path);
    assert_eq!(hub.storage.db_path(), path);
    assert_eq!(hub.config.hub_id, "hub-B");
}

#[test]
fn failed_reload_changes_nothing() {
    let mut hub = fresh("reload-failed");
    let path = hub.config.db_path.clone();
    let r = hub.reload(arguments(None), "[storage");
    assert!(matches!(r, Err(ReloadError::Config(ConfigError::Syntax(_)))));
    let r = hub.reload(arguments(None), "");
    assert!(matches!(r, Err(ReloadError::Config(ConfigError::Missing(Setting::DbPath)))));
    let r = hub.reload(arguments(None), &settings("hub-B", &path, 17_179_869_184));
    assert!(matches!(r, Err(ReloadError::Capacity)));
    let r = hub.reload(arguments(None), &settings("hub-B", "/dev/null/x", 20));
    assert!(matches!(r, Err(ReloadError::Storage(StorageError::Open(_)))));
    assert_eq!(hub.config.hub_id, "hub-A");
    assert_eq!(hub.config.disk_capacity_gb, 10);
    assert_eq!(hub.storage.db_path(), path);
}

#[test]
fn outcome_of_a_chunk_by_what_storing_came_to() {
    match chunk_outcome("ab", Ok((true, vec![1, 2]))) {
        ChunkOutcome::Stored { is_new, key, ack_topic } => {
            assert!(is_new);
            assert_eq!(key, vec![1, 2]);
            assert_eq!(ack_topic, "slim/sync/ack/ab");
        }
        other => panic!("{:?}", other),
    }
    let outcome = chunk_outcome("ab", Ok((false, vec![])));
    assert!(matches!(outcome, ChunkOutcome::Stored { is_new: false, .. }));
    // What could not be stored is not confirmed.
    let e = StorageError::Flush(sled::Error::Unsupported(String::from("broken")));
    let outcome = chunk_outcome("ab", Err(e));
    assert!(matches!(outcome, ChunkOutcome::Failed(StorageError::Flush(_))));
}

#[test]
fn alert_by_size() {
    let (level, step) = disk_alert("h", PressureLevel::Normal, false, 899, 1000);
    assert_eq!(level, PressureLevel::Normal);
    assert!(matches!(step, MonitorStep::Rest));
    let (level, step) = disk_alert("h", PressureLevel::Normal, true, 1, 3);
    assert_eq!(level, PressureLevel::Warning);
    match step {
        MonitorStep::Broadcast { topic, frame } => {
            assert_eq!(topic, "slim/hub/backpressure/h");
            assert_eq!(frame.hub_id, "h");
            assert_eq!(frame.level, PressureLevel::Warning);
            assert_eq!(frame.disk_usage_pct, 33);
        }
        other => panic!("{:?}", other),
    }
    let (level, step) = disk_alert("h", PressureLevel::Critical, false, 899, 1000);
    assert_eq!(level, PressureLevel::Normal);
    assert!(matches!(step, MonitorStep::Broadcast { .. }));
    let (level, step) = disk_alert("h", PressureLevel::Normal, false, 950, 1000);
    assert_eq!(level, PressureLevel::Exhausted);
    assert!(matches!(step, MonitorStep::Shutdown));
}

#[test]
fn levels_by_size() {
    let level = |size, backpressure| pressure_level(size, 1000, backpressure);
    assert_eq!(level(0, false), PressureLevel::Normal);
    assert_eq!(level(899, false), PressureLevel::Normal);
    assert_eq!(level(899, true), PressureLevel::Warning);
    assert_eq!(level(900, false), PressureLevel::Critical);
    assert_eq!(level(949, true), PressureLevel::Critical);
    assert_eq!(level(950, false), PressureLevel::Exhausted);
    assert_eq!(level(u64::MAX, true), PressureLevel::Exhausted);
    assert_eq!(pressure_level(u64::MAX - 1, u64::MAX, false), PressureLevel::Exhausted);
    // A disk of no size is full.
    assert_eq!(pressure_level(0, 0, false), PressureLevel::Exhausted);
}

#[test]
fn levels_while_a_cleanup_goes_on() {
    let all = [
        PressureLevel::Normal,
        PressureLevel::Warning,
        PressureLevel::Critical,
        PressureLevel::Exhausted,
    ];
    for last in all {
        assert_eq!(meanwhile_level(900, 1000, last), PressureLevel::Critical);
    }
    assert_eq!(meanwhile_level(899, 1000, all[0]), PressureLevel::Normal);
    for last in &all[1..] {
        assert_eq!(meanwhile_level(899, 1000, *last), PressureLevel::Warning);
    }
}

#[test]
fn waits_by_level() {
    assert_eq!(suggested_interval_ms(PressureLevel::Normal), 0);
    assert_eq!(suggested_interval_ms(PressureLevel::Warning), 1000);
    assert_eq!(suggested_interval_ms(PressureLevel::Critical), 5000);
    assert_eq!(suggested_interval_ms(PressureLevel::Exhausted), 5000);
}

#[test]
fn words_for_levels() {
    assert_eq!(level_name(PressureLevel::Normal), "NORMAL");
    assert_eq!(level_name(PressureLevel::Warning), "WARNING");
    assert_eq!(level_name(PressureLevel::Critical), "CRITICAL");
    assert_eq!(level_name(PressureLevel::Exhausted), "EXHAUSTED");
}

#[test]
fn gigabytes_in_bytes() {
    assert_eq!(disk_capacity_bytes(0), Some(0));
    assert_eq!(disk_capacity_bytes(10), Some(10_737_418_240));
    assert_eq!(disk_capacity_bytes(17_179_869_183), Some(17_179_869_183 << 30));
    assert_eq!(disk_capacity_bytes(17_179_869_184), None);
    assert_eq!(disk_capacity_bytes(u64::MAX), None);
}
