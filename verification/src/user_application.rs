//! Application-level traffic metrics.
//!
//! A `MetricsStream` wraps the stream that an application uses and
//! counts the bytes read and written through it, together with the time
//! of the first activity. Its `TransferMetricsHandle` shares these
//! counters, so the application can read them while or after the
//! stream is used. The counters are atomics that other threads update;
//! what a read of them returns is therefore not stated here, but the
//! arithmetic done on what was read is.

use vstd::prelude::*;
use std::sync::Arc;
use std::sync::atomic::{AtomicU64, Ordering};
use std::time::{Duration, SystemTime, SystemTimeError};

verus! {

#[verifier::external_type_specification]
#[verifier::external_body]
pub struct ExSystemTime(SystemTime);

#[verifier::external_type_specification]
#[verifier::external_body]
pub struct ExSystemTimeError(SystemTimeError);

/// `SystemTime::now`: the current time of the system clock.
#[verifier::external_body]
fn system_now() -> SystemTime {
    SystemTime::now()
}

/// `SystemTime::duration_since` the Unix epoch: an error when the clock
/// is set before it.
#[verifier::external_body]
fn since_unix_epoch(t: &SystemTime) -> Result<Duration, SystemTimeError> {
    t.duration_since(std::time::UNIX_EPOCH)
}

/// `Duration::as_nanos`: the whole nanoseconds of a duration.
#[verifier::external_body]
fn duration_nanos(d: &Duration) -> u128 {
    d.as_nanos()
}

/// The low 64 bits of a number of nanoseconds.
fn low_bits(n: u128) -> (r: u64)
    ensures
        r == n % 0x1_0000_0000_0000_0000,
{
    (n % 0x1_0000_0000_0000_0000) as u64
}

/// The current system time in nanoseconds since the Unix epoch,
/// truncated to 64 bits, or 0 where the clock is set before the epoch.
pub fn current_time_nanos() -> u64 {
    match since_unix_epoch(&system_now()) {
        Ok(d) => low_bits(duration_nanos(&d)),
        Err(_) => 0,
    }
}

/// The counters shared by a stream and its handle.
struct TransferMetricsState {
    bytes_read: AtomicU64,
    bytes_written: AtomicU64,
    first_activity_nanos: AtomicU64,
}

/// Reads the metrics collected by a `MetricsStream`.
pub struct TransferMetricsHandle {
    state: Arc<TransferMetricsState>,
}

/// Wraps an application stream and measures its traffic, whatever
/// protocol the application speaks over it.
pub struct MetricsStream<S> {
    inner: S,
    state: Arc<TransferMetricsState>,
}

/// The number of bytes that a read added to a buffer filled from
/// `before` to `after` bytes.
pub fn bytes_read_between(before: usize, after: usize) -> (n: usize)
    ensures
        n == if after >= before {
            after - before
        } else {
            0
        },
{
    after.saturating_sub(before)
}

/// A byte count as a 64-bit counter increment.
fn counter_increment(bytes: usize) -> (n: u64)
    ensures
        n == bytes,
{
    bytes as u64
}

impl<S> MetricsStream<S> {
    /// The wrapped stream, as given to `new`.
    pub closed spec fn stream(&self) -> S {
        self.inner
    }

    /// Creates a metrics-enabled stream and the handle that reads its
    /// metrics; all counters start at zero.
    pub fn new(inner: S) -> (r: (MetricsStream<S>, TransferMetricsHandle))
        ensures
            r.0.stream() == inner,
    {
        let state = Arc::new(
            TransferMetricsState {
                bytes_read: AtomicU64::new(0),
                bytes_written: AtomicU64::new(0),
                first_activity_nanos: AtomicU64::new(0),
            },
        );
        let handle = TransferMetricsHandle { state: state.clone() };
        (MetricsStream { inner, state }, handle)
    }

    /// The wrapped stream.
    pub fn inner(&self) -> (r: &S)
        ensures
            *r == self.stream(),
    {
        &self.inner
    }

    /// The wrapped stream, to read from or write to.
    pub fn inner_mut(&mut self) -> (r: &mut S)
        ensures
            *r == old(self).stream(),
            final(self).stream() == *final(r),
    {
        &mut self.inner
    }

    /// Records the first application-level activity: the current time
    /// is kept unless a time was recorded before.
    pub fn record_first_activity(&self) {
        let now = current_time_nanos();
        let _ = self.state.first_activity_nanos.compare_exchange(
            0,
            now,
            Ordering::Relaxed,
            Ordering::Relaxed,
        );
    }

    /// Records that `bytes` bytes were read; a read of no bytes is no
    /// activity.
    pub fn record_read(&self, bytes: usize) {
        if bytes > 0 {
            self.record_first_activity();
            let n = counter_increment(bytes);
            let _ = self.state.bytes_read.fetch_add(n, Ordering::Relaxed);
        }
    }

    /// Records that `bytes` bytes were written; a write of no bytes is no
    /// activity.
    pub fn record_write(&self, bytes: usize) {
        if bytes > 0 {
            self.record_first_activity();
            let n = counter_increment(bytes);
            let _ = self.state.bytes_written.fetch_add(n, Ordering::Relaxed);
        }
    }
}

/// The bytes received and sent together, wrapping around at 2^64 as the
/// release build of the sum does.
pub fn combined_bytes(received: u64, sent: u64) -> (total: u64)
    ensures
        received + sent <= u64::MAX ==> total == received + sent,
        received + sent > u64::MAX ==> total == received + sent - 0x1_0000_0000_0000_0000,
{
    received.wrapping_add(sent)
}

/// Whole milliseconds from `started` to `now` (nanoseconds), none while
/// no activity was recorded (`started == 0`) or when the clock went back.
pub open spec fn elapsed_of(started: u64, now: u64) -> int {
    if started == 0 || now < started {
        0
    } else {
        (now - started) / 1_000_000
    }
}

/// The elapsed time counts the whole milliseconds that passed from the
/// first activity to now: it is positive once a millisecond has passed,
/// grows with `now`, and is 0 without activity or when the clock went
/// back.
pub proof fn law_elapsed_whole_milliseconds(started: u64, now: u64, later: u64)
    ensures
        started != 0 && now >= started ==> elapsed_of(started, now) * 1_000_000 <= now - started
            < (elapsed_of(started, now) + 1) * 1_000_000,
        started != 0 && now >= started + 1_000_000 ==> elapsed_of(started, now) >= 1,
        started == 0 || now < started ==> elapsed_of(started, now) == 0,
        started <= now <= later ==> elapsed_of(started, now) <= elapsed_of(started, later),
        0 <= elapsed_of(started, now) <= u64::MAX / 1_000_000,
{
    if started != 0 && now >= started {
        let d = now - started;
        assert(d / 1_000_000 * 1_000_000 <= d < (d / 1_000_000 + 1) * 1_000_000) by (nonlinear_arith)
            requires
                d >= 0,
        ;
        assert(d / 1_000_000 <= u64::MAX / 1_000_000) by (nonlinear_arith)
            requires
                0 <= d <= u64::MAX,
        ;
        if later >= now {
            let d2 = later - started;
            assert(d / 1_000_000 <= d2 / 1_000_000) by (nonlinear_arith)
                requires
                    0 <= d <= d2,
            ;
        }
    }
}

/// The time of the first activity of a stream, in nanoseconds since the
/// Unix epoch; 0 while there was none.
pub struct FirstActivity {
    pub nanos: u64,
}

/// A reading of the system clock, in nanoseconds since the Unix epoch.
pub struct ClockReading {
    pub nanos: u64,
}

/// Whole milliseconds from the first activity to a clock reading.
pub fn duration_since(first: FirstActivity, now: ClockReading) -> (ms: i64)
    ensures
        ms == elapsed_of(first.nanos, now.nanos),
{
    elapsed_ms(first.nanos, now.nanos)
}

/// Whole milliseconds from `started` to `now` (nanoseconds), none while
/// no activity was recorded (`started == 0`) or when the clock went back.
pub fn elapsed_ms(started: u64, now: u64) -> (ms: i64)
    ensures
        ms == elapsed_of(started, now),
        started == 0 ==> ms == 0,
        started != 0 && now >= started ==> ms == (now - started) / 1_000_000,
        started != 0 && now < started ==> ms == 0,
{
    if started == 0 {
        return 0;
    }
    let d = now.saturating_sub(started) / 1_000_000;
    assert(d <= u64::MAX / 1_000_000);
    d as i64
}

impl TransferMetricsHandle {
    /// The total number of bytes received and sent through the stream so
    /// far.
    pub fn bytes_received(&self) -> u64 {
        let read = self.state.bytes_read.load(Ordering::Relaxed);
        let written = self.state.bytes_written.load(Ordering::Relaxed);
        combined_bytes(read, written)
    }

    /// The number of bytes sent through the stream so far.
    pub fn bytes_sent(&self) -> u64 {
        self.state.bytes_written.load(Ordering::Relaxed)
    }

    /// The total number of application bytes transferred, in both
    /// directions.
    pub fn bytes_transferred(&self) -> u64 {
        let read = self.state.bytes_read.load(Ordering::Relaxed);
        let written = self.state.bytes_written.load(Ordering::Relaxed);
        combined_bytes(read, written)
    }

    /// The milliseconds since the first activity, 0 before any. The first
    /// activity time is read from an atomic counter and the current time
    /// from the system clock; what is stated is what holds whatever they
    /// hold: whole milliseconds of a 64-bit nanosecond difference.
    pub fn duration_ms(&self) -> (ms: i64)
        ensures
            0 <= ms <= u64::MAX / 1_000_000,
    {
        let first = FirstActivity { nanos: self.state.first_activity_nanos.load(Ordering::Relaxed) };
        if first.nanos == 0 {
            return 0;
        }
        let now = ClockReading { nanos: current_time_nanos() };
        proof {
            law_elapsed_whole_milliseconds(first.nanos, now.nanos, now.nanos);
        }
        duration_since(first, now)
    }
}

/// Application-level gRPC chat service.
pub struct ChatService;

/// A chat message from a client.
pub struct ChatMessage {
    pub client_id: String,
    pub content: String,
}

/// The answer of the chat service to a message.
pub struct MessageResponse {
    pub success: bool,
    pub message: String,
}

impl ChatService {
    /// Answers a chat message: it is always accepted, and the answer
    /// names the client that sent it.
    pub fn send_message(&self, request: ChatMessage) -> (r: MessageResponse)
        ensures
            r.success,
            r.message@ == "Message received from "@ + request.client_id@,
    {
        let mut message = String::from_str("Message received from ");
        message.append(request.client_id.as_str());
        MessageResponse { success: true, message }
    }
}

} // verus!
