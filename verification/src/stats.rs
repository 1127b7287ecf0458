//! Runtime counters: what capture and the alert path have done during the current run. They
//! live only for the run; only alerts are persisted.
use vstd::prelude::*;

use crate::time::{ClockReading, reading_nanos, system_clock};

verus! {

/// `x + y` wrapped around 2^64, as an atomic counter adds.
pub open spec fn wrap_add(x: u64, y: u64) -> u64 {
    if x + y > u64::MAX {
        (x + y - 0x1_0000_0000_0000_0000) as u64
    } else {
        (x + y) as u64
    }
}

pub fn len_as_u64(n: usize) -> (r: u64)
    ensures
        r == n,
{
    n as u64
}

/// Nanoseconds from a start reading to a later reading of the clock; 0 when the second is not
/// later.
pub open spec fn elapsed_nanos(start: ClockReading, now: ClockReading) -> int {
    let d = now.nanos_since_epoch() - start.nanos_since_epoch();
    if d < 0 {
        0
    } else {
        d
    }
}

/// Process-wide counters.
pub struct Stats {
    /// Interface the capture worker is reading from.
    pub interface: String,
    /// Path of the SQLite database backing alert storage.
    pub database: String,
    /// When the run started, as the system clock read then.
    pub started_at: ClockReading,
    pub packets_captured: u64,
    pub bytes_captured: u64,
    pub parse_errors: u64,
    pub packets_dropped_queue_full: u64,
    pub alerts_generated: u64,
}

impl Stats {
    /// Counters at zero for a run that started at the given time.
    pub fn starting_at(interface: String, database: String, started_at: ClockReading) -> (r: Self)
        ensures
            r.interface == interface,
            r.database == database,
            r.started_at == started_at,
            r.packets_captured == 0,
            r.bytes_captured == 0,
            r.parse_errors == 0,
            r.packets_dropped_queue_full == 0,
            r.alerts_generated == 0,
    {
        Stats {
            interface,
            database,
            started_at,
            packets_captured: 0,
            bytes_captured: 0,
            parse_errors: 0,
            packets_dropped_queue_full: 0,
            alerts_generated: 0,
        }
    }

    /// Counters at zero for a run starting now, stamped with a reading of the system clock.
    pub fn new(interface: String, database: String) -> (r: Self)
        ensures
            r.interface == interface,
            r.database == database,
            r.started_at.wf(),
            r.packets_captured == 0,
            r.bytes_captured == 0,
            r.parse_errors == 0,
            r.packets_dropped_queue_full == 0,
            r.alerts_generated == 0,
    {
        Self::starting_at(interface, database, system_clock())
    }

    /// Records one successfully parsed frame of `raw_len` bytes.
    pub fn record_packet(&mut self, raw_len: usize)
        ensures
            final(self).packets_captured == wrap_add(old(self).packets_captured, 1),
            final(self).bytes_captured == wrap_add(old(self).bytes_captured, raw_len as u64),
            final(self).parse_errors == old(self).parse_errors,
            final(self).packets_dropped_queue_full == old(self).packets_dropped_queue_full,
            final(self).alerts_generated == old(self).alerts_generated,
            final(self).interface == old(self).interface,
            final(self).database == old(self).database,
    {
        self.packets_captured = self.packets_captured.wrapping_add(1);
        self.bytes_captured = self.bytes_captured.wrapping_add(len_as_u64(raw_len));
    }

    /// Records one frame the parser rejected.
    pub fn record_parse_error(&mut self)
        ensures
            final(self).parse_errors == wrap_add(old(self).parse_errors, 1),
            final(self).packets_captured == old(self).packets_captured,
            final(self).bytes_captured == old(self).bytes_captured,
            final(self).packets_dropped_queue_full == old(self).packets_dropped_queue_full,
            final(self).alerts_generated == old(self).alerts_generated,
            final(self).interface == old(self).interface,
            final(self).database == old(self).database,
    {
        self.parse_errors = self.parse_errors.wrapping_add(1);
    }

    /// Records one parsed packet dropped because the detection queue was full.
    pub fn record_queue_drop(&mut self)
        ensures
            final(self).packets_dropped_queue_full == wrap_add(
                old(self).packets_dropped_queue_full,
                1,
            ),
            final(self).packets_captured == old(self).packets_captured,
            final(self).bytes_captured == old(self).bytes_captured,
            final(self).parse_errors == old(self).parse_errors,
            final(self).alerts_generated == old(self).alerts_generated,
            final(self).interface == old(self).interface,
            final(self).database == old(self).database,
    {
        self.packets_dropped_queue_full = self.packets_dropped_queue_full.wrapping_add(1);
    }

    /// Records one alert accepted by the alert path.
    pub fn record_alert(&mut self)
        ensures
            final(self).alerts_generated == wrap_add(old(self).alerts_generated, 1),
            final(self).packets_captured == old(self).packets_captured,
            final(self).bytes_captured == old(self).bytes_captured,
            final(self).parse_errors == old(self).parse_errors,
            final(self).packets_dropped_queue_full == old(self).packets_dropped_queue_full,
            final(self).interface == old(self).interface,
            final(self).database == old(self).database,
    {
        self.alerts_generated = self.alerts_generated.wrapping_add(1);
    }
}

impl Stats {
    /// How long the run has lasted at the clock reading `now`, in nanoseconds; 0 for a reading
    /// before the start.
    pub fn uptime_nanos(&self, now: ClockReading) -> (r: u128)
        ensures
            r == elapsed_nanos(self.started_at, now),
    {
        let start = reading_nanos(self.started_at);
        let end = reading_nanos(now);
        if end < start {
            0
        } else {
            (end - start) as u128
        }
    }

    /// How long the run has lasted, by the system clock now.
    pub fn uptime_now(&self) -> (r: u128)
        ensures
            exists|now: ClockReading| now.wf() && r == #[trigger] elapsed_nanos(self.started_at, now),
    {
        let now = system_clock();
        let r = self.uptime_nanos(now);
        assert(now.wf() && r == elapsed_nanos(self.started_at, now));
        r
    }
}

} // verus!
