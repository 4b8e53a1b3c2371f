use slimhub::keys::{
    decode_timestamp, encode_timestamp, key_blind_id, key_expired, key_names, pending_key,
    BLIND_ID_LEN, TIMESTAMP_LEN, TTL_7_DAYS_NS,
};

const ID: [u8; 16] = [0xa0, 1, 2, 3, 4, 5, 6, 7, 8, 9, 10, 11, 12, 13, 14, 0xaf];

#[test]
fn timestamp_is_big_endian() {
    assert_eq!(encode_timestamp(0x0102_0304_0506_0708), vec![1, 2, 3, 4, 5, 6, 7, 8]);
    assert_eq!(decode_timestamp(&[1, 2, 3, 4, 5, 6, 7, 8, 99]), 0x0102_0304_0506_0708);
    assert_eq!(encode_timestamp(0), vec![0; 8]);
    assert_eq!(encode_timestamp(u64::MAX), vec![255; 8]);
}

#[test]
fn timestamp_comes_back() {
    for t in [0u64, 1, 255, 256, 1_700_000_000_000_000_000, u64::MAX - 1, u64::MAX] {
        assert_eq!(encode_timestamp(t), t.to_be_bytes().to_vec());
        assert_eq!(decode_timestamp(&encode_timestamp(t)), t);
    }
}

#[test]
fn key_is_time_then_blind_id() {
    let key = pending_key(0x0102_0304_0506_0708, &ID);
    assert_eq!(key.len(), TIMESTAMP_LEN + BLIND_ID_LEN);
    assert_eq!(key[..8].to_vec(), vec![1, 2, 3, 4, 5, 6, 7, 8]);
    assert_eq!(key[8..].to_vec(), ID.to_vec());
    assert_eq!(decode_timestamp(&key), 0x0102_0304_0506_0708);
    assert_eq!(key_blind_id(&key), ID.to_vec());
}

#[test]
fn key_names_its_blind_id_only() {
    let key = pending_key(7, &ID);
    assert!(key_names(&key, &ID));
    let mut other = ID;
    other[15] = 0;
    assert!(!key_names(&key, &other));
    let mut first = ID;
    first[0] = 0;
    assert!(!key_names(&key, &first));
    assert!(key_names(&ID, &ID));
    assert!(!key_names(&ID[1..], &ID));
    assert!(!key_names(&[], &ID));
}

#[test]
fn blind_id_is_the_last_sixteen_bytes() {
    assert_eq!(key_blind_id(&ID), ID.to_vec());
    let mut long = vec![9, 9, 9];
    long.extend_from_slice(&ID);
    assert_eq!(key_blind_id(&long), ID.to_vec());
}

#[test]
fn seven_days_in_nanoseconds() {
    assert_eq!(TTL_7_DAYS_NS, 7 * 24 * 60 * 60 * 1_000_000_000);
}

#[test]
fn expiry_is_past_seven_days() {
    let t = 1_700_000_000_000_000_000;
    let key = pending_key(t, &ID);
    assert!(!key_expired(&key, t));
    assert!(!key_expired(&key, t + TTL_7_DAYS_NS));
    assert!(key_expired(&key, t + TTL_7_DAYS_NS + 1));
    assert!(key_expired(&key, u64::MAX));
    // A clock that was set back expires nothing.
    assert!(!key_expired(&key, 0));
}

#[test]
fn short_key_never_expires() {
    assert!(!key_expired(&[0; 7], u64::MAX));
    assert!(key_expired(&[0; 8], u64::MAX));
}

#[test]
fn keys_sort_by_arrival() {
    let high = [255u8; 16];
    let low = [0u8; 16];
    for (t, later) in [(0u64, 1u64), (255, 256), (65_535, 65_536), (1, u64::MAX)] {
        assert!(pending_key(t, &high) < pending_key(later, &low));
    }
    assert!(pending_key(5, &low) < pending_key(5, &high));
}
