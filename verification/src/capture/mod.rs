//! Capture: decoding frames, the errors capture can meet, its settings, and the decisions of
//! the capture loop.
pub mod parser;

use vstd::prelude::*;

use crate::capture::parser::ParsedPacket;
use crate::stats::{Stats, wrap_add};

verus! {

/// A data-link type as libpcap numbers it.
#[derive(Clone, Copy, Debug, PartialEq, Eq, Structural)]
pub struct Linktype(pub i32);

impl Linktype {
    /// The number libpcap gives Ethernet.
    pub const ETHERNET_CODE: i32 = 1;

    /// The number libpcap gives BSD loopback framing.
    pub const NULL_CODE: i32 = 0;

    pub fn ethernet() -> (r: Linktype)
        ensures
            r.0 == Self::ETHERNET_CODE,
    {
        Linktype(Self::ETHERNET_CODE)
    }

    pub fn null() -> (r: Linktype)
        ensures
            r.0 == Self::NULL_CODE,
    {
        Linktype(Self::NULL_CODE)
    }
}

/// Why a frame could not be decoded.
#[derive(Debug)]
pub enum CaptureError {
    /// A header was present but inconsistent; the text says how.
    Parse(String),
    /// Frames of this link type are not decoded.
    UnsupportedLinkType(Linktype),
    /// A header needed more bytes than there were.
    PacketTooShort { needed: usize, got: usize },
}

/// Capture settings.
#[derive(Debug, Clone)]
pub struct CaptureConfig {
    pub interface: String,
    pub promiscuous: bool,
    pub snaplen: i32,
    pub timeout: i32,
}

impl CaptureConfig {
    /// No interface chosen yet, promiscuous, a 65,535-byte snap length and a 1,000 ms read
    /// timeout.
    pub fn new() -> (r: Self)
        ensures
            r.interface@ == Seq::<char>::empty(),
            r.promiscuous,
            r.snaplen == 65535,
            r.timeout == 1000,
    {
        CaptureConfig { interface: String::new(), promiscuous: true, snaplen: 65535, timeout: 1000 }
    }
}

impl Default for CaptureConfig {
    /// Promiscuous capture of whole frames (65535 bytes) with a one-second read timeout, on no
    /// interface yet.
    fn default() -> (r: Self)
        ensures
            r.interface@ == Seq::<char>::empty(),
            r.promiscuous,
            r.snaplen == 65535,
            r.timeout == 1000,
    {
        CaptureConfig::new()
    }
}

/// What the capture loop does next.
#[derive(Debug, Clone, Copy, PartialEq, Eq, Structural)]
pub enum CaptureStep {
    Continue,
    Stop,
}

/// How handing a decoded packet to detection went.
#[derive(Debug, Clone, Copy, PartialEq, Eq, Structural)]
pub enum SendResult {
    Sent,
    /// The queue was full and the packet was dropped.
    QueueFull,
    /// Detection has gone away.
    Closed,
}

/// After a frame has been decoded: a decoded packet is counted and should be handed on; a
/// frame that failed to decode is counted as a parse error. Returns whether to hand it on.
pub fn after_decode(stats: &mut Stats, parsed: &Result<ParsedPacket, CaptureError>) -> (forward:
    bool)
    ensures
        forward == parsed is Ok,
        match parsed {
            Ok(p) => final(stats).packets_captured == wrap_add(old(stats).packets_captured, 1)
                && final(stats).bytes_captured == wrap_add(
                old(stats).bytes_captured,
                p.raw_len as u64,
            ) && final(stats).parse_errors == old(stats).parse_errors,
            Err(_) => final(stats).parse_errors == wrap_add(old(stats).parse_errors, 1)
                && final(stats).packets_captured == old(stats).packets_captured
                && final(stats).bytes_captured == old(stats).bytes_captured,
        },
        final(stats).packets_dropped_queue_full == old(stats).packets_dropped_queue_full,
        final(stats).alerts_generated == old(stats).alerts_generated,
{
    match parsed {
        Ok(p) => {
            stats.record_packet(p.raw_len);
            true
        },
        Err(_) => {
            stats.record_parse_error();
            false
        },
    }
}

/// After handing a packet on: a full queue drops the newest packet, which is counted, and
/// capture goes on; a closed queue ends capture.
pub fn after_send(stats: &mut Stats, sent: SendResult) -> (step: CaptureStep)
    ensures
        step == (if sent == SendResult::Closed {
            CaptureStep::Stop
        } else {
            CaptureStep::Continue
        }),
        final(stats).packets_dropped_queue_full == (if sent == SendResult::QueueFull {
            wrap_add(old(stats).packets_dropped_queue_full, 1)
        } else {
            old(stats).packets_dropped_queue_full
        }),
        final(stats).packets_captured == old(stats).packets_captured,
        final(stats).bytes_captured == old(stats).bytes_captured,
        final(stats).parse_errors == old(stats).parse_errors,
        final(stats).alerts_generated == old(stats).alerts_generated,
{
    match sent {
        SendResult::Sent => CaptureStep::Continue,
        SendResult::QueueFull => {
            stats.record_queue_drop();
            CaptureStep::Continue
        },
        SendResult::Closed => CaptureStep::Stop,
    }
}

/// After a read that brought no frame: a read timeout only means no traffic, so capture goes
/// on; any other failure ends it.
pub fn after_read_failure(timed_out: bool) -> (step: CaptureStep)
    ensures
        step == (if timed_out {
            CaptureStep::Continue
        } else {
            CaptureStep::Stop
        }),
{
    if timed_out {
        CaptureStep::Continue
    } else {
        CaptureStep::Stop
    }
}

} // verus!
