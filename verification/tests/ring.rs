use slimhub::keys::{bytes_before, bytes_equal, encode_timestamp};
use slimhub::ring::{ring_victim, stamp_stale, ACK_SLOTS, ACK_TTL_NS};

const T: u64 = 1_700_000_000_000_000_000;

fn record(id: u16, t: u64) -> (Vec<u8>, Vec<u8>) {
    (id.to_be_bytes().to_vec(), encode_timestamp(t))
}

#[test]
fn a_day_in_nanoseconds() {
    assert_eq!(ACK_TTL_NS, 24 * 60 * 60 * 1_000_000_000);
}

#[test]
fn stale_is_past_a_day() {
    assert!(!stamp_stale(&encode_timestamp(T), T));
    assert!(!stamp_stale(&encode_timestamp(T), T + ACK_TTL_NS));
    assert!(stamp_stale(&encode_timestamp(T), T + ACK_TTL_NS + 1));
    assert!(!stamp_stale(&encode_timestamp(T), 0));
    // What is no time is stale.
    assert!(stamp_stale(&[], T));
    assert!(stamp_stale(&[255; 16], T));
}

#[test]
fn no_victim_while_there_is_room() {
    assert_eq!(ring_victim(&vec![], T), None);
    let records: Vec<(Vec<u8>, Vec<u8>)> =
        (0..ACK_SLOTS - 1).map(|n| record(n as u16, T - n as u64)).collect();
    assert_eq!(ring_victim(&records, T), None);
}

#[test]
fn stale_record_goes_first() {
    let records = vec![record(1, T - 1), record(2, T - ACK_TTL_NS - 1), record(3, T - 2)];
    assert_eq!(ring_victim(&records, T), Some(1));
}

#[test]
fn oldest_record_of_a_full_ring_goes() {
    let mut records: Vec<(Vec<u8>, Vec<u8>)> =
        (0..ACK_SLOTS).map(|n| record(n as u16, T)).collect();
    // At the same time the identifiers decide.
    assert_eq!(ring_victim(&records, T), Some(0));
    records[700] = record(700, T - 1);
    records[900] = record(900, T - 1);
    assert_eq!(ring_victim(&records, T), Some(700));
}

#[test]
fn byte_strings_in_order() {
    let strings: [&[u8]; 6] = [b"", b"a", b"aa", b"ab", b"b", b"ba"];
    for a in strings {
        for b in strings {
            assert_eq!(bytes_before(a, b), a < b);
            assert_eq!(bytes_equal(a, b), a == b);
        }
    }
}
