use slimhub::clock::time_of_reading;

#[test]
fn clock_before_the_epoch_reads_zero() {
    assert_eq!(time_of_reading(None), 0);
}

#[test]
fn clock_reading_is_taken_as_it_is() {
    assert_eq!(time_of_reading(Some(0)), 0);
    assert_eq!(time_of_reading(Some(1_700_000_000_000_000_000)), 1_700_000_000_000_000_000);
    assert_eq!(time_of_reading(Some(u64::MAX as u128)), u64::MAX);
}

#[test]
fn clock_past_the_last_nanosecond_stays_there() {
    assert_eq!(time_of_reading(Some(u64::MAX as u128 + 1)), u64::MAX);
    assert_eq!(time_of_reading(Some(u128::MAX)), u64::MAX);
}
