//! What the dashboard serves: traffic counters, runtime status, alert rows, and the rules for
//! how many alerts one request may ask for.
use vstd::prelude::*;

use crate::capture::parser::{ParsedPacket, TransportHeader};
use crate::stats::len_as_u64;
use crate::time::{ClockReading, millis_of, reading_millis, system_clock};

verus! {

pub const DEFAULT_ALERT_LIMIT: u32 = 20;

pub const MAX_ALERT_LIMIT: u32 = 100;

/// `x + y`, or `u64::MAX` when that is larger.
pub open spec fn sat_add(x: u64, y: u64) -> u64 {
    if x + y > u64::MAX {
        u64::MAX
    } else {
        (x + y) as u64
    }
}

/// `x` plus a length, or `u64::MAX` when that is larger.
pub open spec fn sat_add_len(x: u64, n: usize) -> u64 {
    sat_add(x, n as u64)
}

/// Which protocol counter a packet counts toward.
pub enum ProtocolClass {
    Tcp,
    Udp,
    Control,
    Other,
}

pub open spec fn protocol_class(t: Option<TransportHeader>) -> ProtocolClass {
    match t {
        Some(TransportHeader::Tcp(_)) => ProtocolClass::Tcp,
        Some(TransportHeader::Udp(_)) => ProtocolClass::Udp,
        Some(TransportHeader::Unknown(_)) => ProtocolClass::Other,
        None => ProtocolClass::Other,
        _ => ProtocolClass::Control,
    }
}

/// Traffic counters for the dashboard; every counter stops at `u64::MAX`.
#[derive(Debug, Clone)]
pub struct TrafficStatistics {
    pub packets_captured: u64,
    pub bytes_captured: u64,
    pub alerts_detected: u64,
    pub tcp_packets: u64,
    pub udp_packets: u64,
    pub icmp_packets: u64,
    pub other_packets: u64,
}

/// The protocol counters add up to the packet counter.
pub open spec fn counters_add_up(s: TrafficStatistics) -> bool {
    s.tcp_packets + s.udp_packets + s.icmp_packets + s.other_packets == s.packets_captured
}

impl TrafficStatistics {
    /// All counters at zero.
    pub fn new() -> (r: Self)
        ensures
            r.packets_captured == 0,
            r.bytes_captured == 0,
            r.alerts_detected == 0,
            r.tcp_packets == 0,
            r.udp_packets == 0,
            r.icmp_packets == 0,
            r.other_packets == 0,
    {
        TrafficStatistics {
            packets_captured: 0,
            bytes_captured: 0,
            alerts_detected: 0,
            tcp_packets: 0,
            udp_packets: 0,
            icmp_packets: 0,
            other_packets: 0,
        }
    }

    /// Counts one packet, its bytes, and its transport protocol: TCP, UDP, ICMP, or other
    /// (an unknown protocol or no transport header).
    pub fn observe_packet(&mut self, packet: &ParsedPacket)
        ensures
            final(self).packets_captured == sat_add(old(self).packets_captured, 1),
            final(self).bytes_captured == sat_add_len(old(self).bytes_captured, packet.raw_len),
            final(self).alerts_detected == old(self).alerts_detected,
            final(self).tcp_packets == (if protocol_class(packet.transport) is Tcp {
                sat_add(old(self).tcp_packets, 1)
            } else {
                old(self).tcp_packets
            }),
            final(self).udp_packets == (if protocol_class(packet.transport) is Udp {
                sat_add(old(self).udp_packets, 1)
            } else {
                old(self).udp_packets
            }),
            final(self).icmp_packets == (if protocol_class(packet.transport) is Control {
                sat_add(old(self).icmp_packets, 1)
            } else {
                old(self).icmp_packets
            }),
            final(self).other_packets == (if protocol_class(packet.transport) is Other {
                sat_add(old(self).other_packets, 1)
            } else {
                old(self).other_packets
            }),
    {
        self.packets_captured = self.packets_captured.saturating_add(1);
        self.bytes_captured = self.bytes_captured.saturating_add(len_as_u64(packet.raw_len));
        match &packet.transport {
            Some(TransportHeader::Tcp(_)) => self.tcp_packets = self.tcp_packets.saturating_add(1),
            Some(TransportHeader::Udp(_)) => self.udp_packets = self.udp_packets.saturating_add(1),
            Some(TransportHeader::Unknown(_)) | None => {
                self.other_packets = self.other_packets.saturating_add(1)
            },
            _ => self.icmp_packets = self.icmp_packets.saturating_add(1),
        }
    }
}

impl Default for TrafficStatistics {
    /// All counters at zero.
    fn default() -> (r: Self)
        ensures
            r.packets_captured == 0,
            r.bytes_captured == 0,
            r.alerts_detected == 0,
            r.tcp_packets == 0,
            r.udp_packets == 0,
            r.icmp_packets == 0,
            r.other_packets == 0,
    {
        TrafficStatistics::new()
    }
}

/// Each packet counts toward exactly one protocol counter: while the packet counter has not
/// reached its cap, observing a packet keeps the protocol counters adding up to it.
pub proof fn lemma_observe_keeps_counters(
    before: TrafficStatistics,
    after: TrafficStatistics,
    p: ParsedPacket,
)
    requires
        counters_add_up(before),
        before.packets_captured < u64::MAX,
        after.packets_captured == sat_add(before.packets_captured, 1),
        after.tcp_packets == (if protocol_class(p.transport) is Tcp {
            sat_add(before.tcp_packets, 1)
        } else {
            before.tcp_packets
        }),
        after.udp_packets == (if protocol_class(p.transport) is Udp {
            sat_add(before.udp_packets, 1)
        } else {
            before.udp_packets
        }),
        after.icmp_packets == (if protocol_class(p.transport) is Control {
            sat_add(before.icmp_packets, 1)
        } else {
            before.icmp_packets
        }),
        after.other_packets == (if protocol_class(p.transport) is Other {
            sat_add(before.other_packets, 1)
        } else {
            before.other_packets
        }),
    ensures
        counters_add_up(after),
{
}

/// Whether capture is running, on which interface, and since when.
#[derive(Debug, Clone)]
pub struct RuntimeStatus {
    pub capture_active: bool,
    pub interface: Option<String>,
    pub started_at_ms: i64,
}

impl RuntimeStatus {
    /// The status before capture starts, stamped with the current time.
    pub fn initial() -> (r: Self)
        ensures
            !r.capture_active,
            r.interface is None,
            r.started_at_ms >= 0,
            is_clock_millis(r.started_at_ms as int),
    {
        RuntimeStatus { capture_active: false, interface: None, started_at_ms: now_ms() }
    }
}

/// One alert row as the dashboard shows it.
#[derive(Debug)]
pub struct AlertSummary {
    pub id: i64,
    pub occurred_at_ms: i64,
    pub attack_type: String,
    pub severity: String,
    pub source_ip: Option<String>,
    pub destination_ip: Option<String>,
    pub details: Option<String>,
}

/// How many recent alerts a request gets: the limit it asks for, or
/// [`DEFAULT_ALERT_LIMIT`] without one, kept between 1 and [`MAX_ALERT_LIMIT`].
pub open spec fn spec_alert_limit(limit: Option<u32>) -> int {
    let asked = match limit {
        Some(n) => n as int,
        None => DEFAULT_ALERT_LIMIT as int,
    };
    if asked < 1 {
        1
    } else if asked > MAX_ALERT_LIMIT {
        MAX_ALERT_LIMIT as int
    } else {
        asked
    }
}

pub fn recent_alert_limit(limit: Option<u32>) -> (r: i64)
    ensures
        r == spec_alert_limit(limit),
        1 <= r <= MAX_ALERT_LIMIT,
{
    let asked: u32 = match limit {
        Some(n) => n,
        None => DEFAULT_ALERT_LIMIT,
    };
    let clamped: u32 = if asked < 1 {
        1
    } else if asked > MAX_ALERT_LIMIT {
        MAX_ALERT_LIMIT
    } else {
        asked
    };
    clamped as i64
}

/// Whether `ms` is what some reading of the system clock gives in milliseconds since the epoch:
/// the whole milliseconds of a reading after the epoch capped at `i64::MAX`, or 0 for a clock
/// set before the epoch.
pub open spec fn is_clock_millis(ms: int) -> bool {
    exists|reading: ClockReading| reading.wf() && ms == #[trigger] millis_of(reading)
}

/// Milliseconds since the epoch now, capped at `i64::MAX` (0 for a clock set before the epoch).
pub fn now_ms() -> (r: i64)
    ensures
        r >= 0,
        is_clock_millis(r as int),
{
    let reading = system_clock();
    let r = reading_millis(reading);
    assert(reading.wf() && r == millis_of(reading));
    r
}

} // verus!
