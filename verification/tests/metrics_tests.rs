use secure_crypt::user_application::{
    bytes_read_between, combined_bytes, current_time_nanos, elapsed_ms, MetricsStream,
};

#[test]
fn new_stream_starts_without_traffic() {
    let (stream, handle) = MetricsStream::new(vec![1u8, 2, 3]);
    assert_eq!(handle.bytes_received(), 0);
    assert_eq!(handle.bytes_sent(), 0);
    assert_eq!(handle.bytes_transferred(), 0);
    assert_eq!(handle.duration_ms(), 0);
    drop(stream);
}

#[test]
fn recorded_traffic_is_counted() {
    let (mut stream, handle) = MetricsStream::new(Vec::<u8>::new());
    stream.inner_mut().push(9);
    stream.record_read(100);
    stream.record_write(28);
    stream.record_read(0);
    stream.record_write(0);
    assert_eq!(handle.bytes_received(), 128);
    assert_eq!(handle.bytes_sent(), 28);
    assert_eq!(handle.bytes_transferred(), 128);
    assert!(handle.duration_ms() >= 0);
    assert_eq!(stream.inner_mut().len(), 1);
}

#[test]
fn read_growth_never_goes_negative() {
    assert_eq!(bytes_read_between(10, 25), 15);
    assert_eq!(bytes_read_between(25, 10), 0);
}

#[test]
fn combined_bytes_adds_both_directions() {
    assert_eq!(combined_bytes(3, 4), 7);
    assert_eq!(combined_bytes(u64::MAX, 2), 1);
}

#[test]
fn elapsed_time_is_in_whole_milliseconds() {
    assert_eq!(elapsed_ms(0, 5_000_000_000), 0);
    assert_eq!(elapsed_ms(1_000_000, 3_999_999), 2);
    assert_eq!(elapsed_ms(5_000_000, 1_000_000), 0);
    assert_eq!(elapsed_ms(1, u64::MAX), ((u64::MAX - 1) / 1_000_000) as i64);
}

#[test]
fn clock_is_after_the_epoch() {
    assert!(current_time_nanos() > 0);
}
