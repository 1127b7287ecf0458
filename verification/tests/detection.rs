use stomper::capture::parser::{
    Ipv4Header, ParsedPacket, TcpFlags, TcpHeader, TransportHeader, UdpHeader,
};
use stomper::detection::port_scan::{
    max_scan_interval, SingleSourceScanState, SCAN_PACKET_COUNT_THRESHOLD,
};
use stomper::detection::syn_flood::SynFloodState;
use stomper::detection::{Activity, MAX_EVIDENCE_ITEMS};
use stomper::net::{IpAddr, Ipv4Addr};
use stomper::time::{Duration, Timestamp};

/// Fixed base time, so tests never depend on the clock.
fn test_time() -> Timestamp {
    Timestamp::unix_epoch().plus(Duration::from_secs(1000))
}

/// A minimal IPv4/TCP packet: enough header for the detectors, nothing else.
fn tcp_packet(
    timestamp: Timestamp,
    src_ip: Ipv4Addr,
    dst_ip: Ipv4Addr,
    dst_port: u16,
    flags: TcpFlags,
) -> ParsedPacket {
    ParsedPacket {
        timestamp,
        ethernet: None,
        ipv4: Some(Ipv4Header {
            src_ip,
            dst_ip,
            protocol: 6,
            ttl: 64,
            total_length: 40,
            identification: 0,
            version: 4,
            ihl: 5,
            dscp: 0,
            ecn: 0,
            flags: 0,
            fragment_offset: 0,
        }),
        ipv6: None,
        transport: Some(TransportHeader::Tcp(TcpHeader {
            src_port: 50000,
            dst_port,
            sequence_number: 0,
            acknowledgment_number: 0,
            data_offset: 20,
            flags,
            window_size: 1024,
            checksum: 0,
            urgent_pointer: 0,
        })),
        raw_len: 54,
    }
}

fn scanner() -> Ipv4Addr {
    Ipv4Addr::new(192, 168, 1, 50)
}

fn target() -> Ipv4Addr {
    Ipv4Addr::new(192, 168, 1, 1)
}

/// One connection attempt from `src` to the target's `port`, at `timestamp`.
fn probe(timestamp: Timestamp, src: Ipv4Addr, port: u16) -> ParsedPacket {
    tcp_packet(
        timestamp,
        src,
        target(),
        port,
        TcpFlags {
            syn: true,
            ..Default::default()
        },
    )
}

#[test]
fn scan_below_threshold_is_not_detected() {
    let mut detector = SingleSourceScanState::default();
    let now = test_time();

    for port in 0..(SCAN_PACKET_COUNT_THRESHOLD - 1) {
        let packet = probe(now, scanner(), port as u16);
        assert!(detector.log_packet(&packet).is_none());
    }
}

#[test]
fn scan_is_detected_at_the_threshold_with_capped_port_evidence() {
    let mut detector = SingleSourceScanState::default();
    let now = test_time();
    let mut detected = None;

    for port in 0..SCAN_PACKET_COUNT_THRESHOLD {
        detected = detector.log_packet(&probe(now, scanner(), port as u16));
    }

    let Some(Activity::SingleSourceScan {
        src,
        destinations,
        ports,
    }) = detected
    else {
        panic!("expected a port scan detection");
    };
    assert_eq!(src, IpAddr::V4(scanner()));
    assert_eq!(destinations, SCAN_PACKET_COUNT_THRESHOLD);
    assert_eq!(ports.len(), MAX_EVIDENCE_ITEMS);
    assert!(ports.windows(2).all(|pair| pair[0] < pair[1]));
    assert!(detector.history_is_empty());
}

/// Repeating one destination is a retry, not reconnaissance.
#[test]
fn repeated_probes_to_one_destination_are_not_a_scan() {
    let mut detector = SingleSourceScanState::default();
    let now = test_time();

    for i in 0..(SCAN_PACKET_COUNT_THRESHOLD * 2) {
        let packet = probe(now.plus(Duration::from_millis(i as u64)), scanner(), 443);
        assert!(detector.log_packet(&packet).is_none());
    }
}

#[test]
fn destinations_from_different_sources_do_not_combine() {
    let mut detector = SingleSourceScanState::default();
    let now = test_time();

    for port in 0..SCAN_PACKET_COUNT_THRESHOLD {
        let src = Ipv4Addr::new(192, 168, 1, 50 + (port % 2) as u8);
        assert!(detector.log_packet(&probe(now, src, port as u16)).is_none());
    }
}

#[test]
fn old_destinations_expire() {
    let mut detector = SingleSourceScanState::default();
    let base = test_time();
    let half = SCAN_PACKET_COUNT_THRESHOLD / 2;

    for port in 0..half {
        assert!(detector
            .log_packet(&probe(base, scanner(), port as u16))
            .is_none());
    }

    // Past the window, so the first batch can no longer contribute to a detection.
    let later = base
        .plus(max_scan_interval())
        .plus(Duration::from_millis(1));
    for port in half..SCAN_PACKET_COUNT_THRESHOLD {
        assert!(detector
            .log_packet(&probe(later, scanner(), port as u16))
            .is_none());
    }
}

// These tests exercise the detection rule itself, so the exact threshold values don't matter
// as long as they're used consistently below.
fn test_syn_flood_interval() -> Duration {
    Duration::from_secs(1)
}

const TEST_SYN_FLOOD_PACKET_COUNT_THRESHOLD: usize = 256;

fn test_state() -> SynFloodState {
    SynFloodState::new(
        test_syn_flood_interval(),
        TEST_SYN_FLOOD_PACKET_COUNT_THRESHOLD,
    )
}

fn make_syn_packet(timestamp: Timestamp) -> ParsedPacket {
    tcp_packet(
        timestamp,
        Ipv4Addr::new(192, 168, 1, 100),
        Ipv4Addr::new(192, 168, 1, 1),
        80,
        TcpFlags {
            syn: true,
            ack: false,
            ..Default::default()
        },
    )
}

#[test]
fn test_syn_flood_below_threshold() {
    let mut detector = test_state();
    let now = test_time();

    for i in 0..(TEST_SYN_FLOOD_PACKET_COUNT_THRESHOLD - 1) {
        let pkt = make_syn_packet(now.plus(Duration::from_millis(i as u64)));
        assert!(detector.log_packet(&pkt).is_none());
    }
}

#[test]
fn test_syn_flood_detected_at_threshold() {
    let mut detector = test_state();
    let now = test_time();

    for i in 0..TEST_SYN_FLOOD_PACKET_COUNT_THRESHOLD {
        let pkt = make_syn_packet(now.plus(Duration::from_millis(i as u64)));

        let result = detector.log_packet(&pkt);

        if i == TEST_SYN_FLOOD_PACKET_COUNT_THRESHOLD - 1 {
            assert!(matches!(result, Some(Activity::SynFlood { .. })));
        } else {
            assert!(result.is_none());
        }
    }
}

#[test]
fn test_syn_ack_not_detected() {
    let mut detector = test_state();

    let mut pkt = make_syn_packet(test_time());

    if let Some(TransportHeader::Tcp(ref mut tcp)) = pkt.transport {
        tcp.flags.ack = true;
    }

    assert!(detector.log_packet(&pkt).is_none());
}

#[test]
fn test_history_cleared_after_detection() {
    let mut detector = test_state();
    let now = test_time();

    let mut detected = None;

    for i in 0..TEST_SYN_FLOOD_PACKET_COUNT_THRESHOLD {
        let pkt = make_syn_packet(now.plus(Duration::from_millis(i as u64)));
        detected = detector.log_packet(&pkt);
    }

    assert!(matches!(detected, Some(Activity::SynFlood { .. })));
    assert!(detector.history_is_empty());
}

#[test]
fn test_old_packets_expire() {
    let mut detector = test_state();

    let base = test_time();

    let packet_count = (TEST_SYN_FLOOD_PACKET_COUNT_THRESHOLD * 3) / 4;

    // First batch of packets.
    for _ in 0..packet_count {
        let pkt = make_syn_packet(base);
        assert!(detector.log_packet(&pkt).is_none());
    }

    // Advance beyond the expiration interval.
    let later = base
        .plus(test_syn_flood_interval())
        .plus(Duration::from_millis(1));

    // Second batch should not combine with the expired first batch.
    for _ in 0..packet_count {
        let pkt = make_syn_packet(later);
        assert!(detector.log_packet(&pkt).is_none());
    }

    // One more packet still should not trigger detection.
    let pkt = make_syn_packet(later);
    assert!(detector.log_packet(&pkt).is_none());
}

#[test]
fn test_udp_not_detected() {
    let mut detector = test_state();

    let mut pkt = make_syn_packet(test_time());

    pkt.transport = Some(TransportHeader::Udp(UdpHeader {
        src_port: 50000,
        dst_port: 80,
        length: 8,
        checksum: 0,
    }));

    assert!(detector.log_packet(&pkt).is_none());
}
