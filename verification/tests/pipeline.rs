use stomper::alert::{alerts_for_packet, join, optional, Alert, Severity, CATEGORY_PORT_SCAN, CATEGORY_SYN_FLOOD};
use stomper::api::{now_ms, recent_alert_limit, RuntimeStatus, TrafficStatistics, DEFAULT_ALERT_LIMIT, MAX_ALERT_LIMIT};
use stomper::capture::parser::{
    UdpHeader, IcmpHeader, Ipv4Header, Ipv6Header, ParsedPacket, TcpFlags, TcpHeader, TransportHeader,
};
use stomper::capture::{
    after_decode, after_read_failure, after_send, CaptureConfig, CaptureError, CaptureStep,
    SendResult,
};
use stomper::db::{alert_from_row, query_limit, AlertSummary, DbError, MAX_QUERY_LIMIT};
use stomper::detection::port_scan::{SingleSourceScanState, SCAN_PACKET_COUNT_THRESHOLD};
use stomper::detection::syn_flood::{SynFloodState, SYN_FLOOD_PACKET_COUNT_THRESHOLD};
use stomper::detection::{evidence_sample, src_dst_ip, Activity, DetectorState, MAX_EVIDENCE_ITEMS};
use stomper::net::{IpAddr, Ipv4Addr, Ipv6Addr};
use stomper::stats::Stats;
use stomper::time::{ClockReading, Duration, Timestamp, UtcTime};

fn at(secs: u64, millis: u64) -> Timestamp {
    Timestamp::unix_epoch()
        .plus(Duration::from_secs(secs))
        .plus(Duration::from_millis(millis))
}

fn tcp_packet(ts: Timestamp, src: Ipv4Addr, dst: Ipv4Addr, port: u16, flags: TcpFlags) -> ParsedPacket {
    ParsedPacket {
        timestamp: ts,
        ethernet: None,
        ipv4: Some(Ipv4Header {
            src_ip: src,
            dst_ip: dst,
            protocol: 6,
            ttl: 64,
            total_length: 40,
            identification: 0,
            version: 4,
            ihl: 5,
            dscp: 0,
            ecn: 0,
            flags: 0,
            fragment_offset: 0,
        }),
        ipv6: None,
        transport: Some(TransportHeader::Tcp(TcpHeader {
            src_port: 40000,
            dst_port: port,
            sequence_number: 0,
            acknowledgment_number: 0,
            data_offset: 20,
            flags,
            window_size: 0,
            checksum: 0,
            urgent_pointer: 0,
        })),
        raw_len: 54,
    }
}

fn syn() -> TcpFlags {
    TcpFlags {
        syn: true,
        ..Default::default()
    }
}

#[test]
fn a_scan_becomes_one_medium_alert() {
    let mut detector = DetectorState::default();
    let src = Ipv4Addr::new(10, 1, 1, 1);
    let dst = Ipv4Addr::new(10, 2, 2, 2);
    let mut alerts = Vec::new();
    for port in 0..SCAN_PACKET_COUNT_THRESHOLD as u16 {
        alerts.extend(alerts_for_packet(
            &mut detector,
            &tcp_packet(at(5000, port as u64), src, dst, 1000 + port, syn()),
        ));
    }
    assert_eq!(alerts.len(), 1);
    let a = &alerts[0];
    assert_eq!(a.category, CATEGORY_PORT_SCAN);
    assert_eq!(a.severity, Severity::Medium);
    assert_eq!(a.source.as_deref(), Some("10.1.1.1"));
    assert_eq!(
        a.details,
        "64 distinct destination sockets contacted; ports 1000, 1001, 1002, 1003, 1004, 1005, 1006, 1007"
    );
    assert_eq!(a.timestamp, UtcTime::from_timestamp(at(5000, 63)));
    assert_eq!(a.id, None);
}

#[test]
fn one_packet_can_trigger_both_detectors() {
    let mut detector = DetectorState::new();
    let dst = Ipv4Addr::new(10, 2, 2, 2);
    let mut last = Vec::new();
    // 63 sources each send one SYN to port 80 of the target, and one source probes 63 other
    // ports; the 64th probe of that source is also the 256th SYN on port 80.
    let scanner = Ipv4Addr::new(10, 9, 9, 9);
    for i in 0..(SYN_FLOOD_PACKET_COUNT_THRESHOLD - 1) as u32 {
        let src = Ipv4Addr(0x0a00_0000 + 100 + i);
        last = alerts_for_packet(&mut detector, &tcp_packet(at(7000, 0), src, dst, 80, syn()));
        assert!(last.is_empty());
    }
    for port in 1..SCAN_PACKET_COUNT_THRESHOLD as u16 {
        last = alerts_for_packet(&mut detector, &tcp_packet(at(7000, 0), scanner, dst, port + 1000, syn()));
        assert!(last.is_empty());
    }
    last.extend(alerts_for_packet(&mut detector, &tcp_packet(at(7000, 0), scanner, dst, 80, syn())));
    assert_eq!(last.len(), 2);
    assert_eq!(last[0].category, CATEGORY_PORT_SCAN);
    assert_eq!(last[1].category, CATEGORY_SYN_FLOOD);
    assert_eq!(last[1].destination.as_deref(), Some("10.2.2.2:80"));
    assert_eq!(last[1].details, "256 bare SYN packets from 8 sources");
    assert_eq!(last[1].severity, Severity::High);
}

#[test]
fn evidence_is_the_smallest_distinct_values_ascending() {
    assert_eq!(evidence_sample(&vec![5u16, 3, 5, 1, 3]), vec![1, 3, 5]);
    let many: Vec<u16> = (0..40).rev().map(|x| x * 3).collect();
    assert_eq!(evidence_sample(&many), vec![0, 3, 6, 9, 12, 15, 18, 21]);
    assert_eq!(evidence_sample(&Vec::<u16>::new()), Vec::<u16>::new());
    let addrs = vec![
        IpAddr::V6(Ipv6Addr(1)),
        IpAddr::V4(Ipv4Addr::new(10, 0, 0, 2)),
        IpAddr::V4(Ipv4Addr::new(10, 0, 0, 1)),
        IpAddr::V4(Ipv4Addr::new(10, 0, 0, 2)),
    ];
    assert_eq!(
        evidence_sample(&addrs),
        vec![
            IpAddr::V4(Ipv4Addr::new(10, 0, 0, 1)),
            IpAddr::V4(Ipv4Addr::new(10, 0, 0, 2)),
            IpAddr::V6(Ipv6Addr(1)),
        ]
    );
    assert_eq!(MAX_EVIDENCE_ITEMS, 8);
}

#[test]
fn joined_and_optional_text() {
    assert_eq!(join(&[22u16, 80, 443]), "22, 80, 443");
    assert_eq!(join::<u16>(&[]), "");
    assert_eq!(
        join(&[IpAddr::V4(Ipv4Addr::new(1, 2, 3, 4)), IpAddr::V6(Ipv6Addr(2))]),
        "1.2.3.4, ::2"
    );
    assert_eq!(optional(&None), "-");
    assert_eq!(optional(&Some("x".to_string())), "x");
}

#[test]
fn ip_pair_from_either_version() {
    let p = tcp_packet(at(1, 0), Ipv4Addr::new(1, 1, 1, 1), Ipv4Addr::new(2, 2, 2, 2), 1, syn());
    assert_eq!(
        src_dst_ip(&p),
        Some((IpAddr::V4(Ipv4Addr::new(1, 1, 1, 1)), IpAddr::V4(Ipv4Addr::new(2, 2, 2, 2))))
    );
    let mut q = p.clone();
    q.ipv4 = None;
    assert_eq!(src_dst_ip(&q), None);
    q.ipv6 = Some(Ipv6Header {
        src_ip: Ipv6Addr(5),
        dst_ip: Ipv6Addr(6),
        next_header: 6,
        hop_limit: 1,
        payload_length: 0,
        flow_label: 0,
        traffic_class: 0,
    });
    assert_eq!(src_dst_ip(&q), Some((IpAddr::V6(Ipv6Addr(5)), IpAddr::V6(Ipv6Addr(6)))));
}

#[test]
fn flood_threshold_and_window_follow_the_settings() {
    let mut detector = SynFloodState::new(Duration::from_millis(500), 3);
    let p = |ms: u64| {
        tcp_packet(at(100, ms), Ipv4Addr::new(9, 9, 9, 9), Ipv4Addr::new(8, 8, 8, 8), 25, syn())
    };
    assert!(detector.log_packet(&p(0)).is_none());
    assert!(detector.log_packet(&p(400)).is_none());
    // 501 ms after the first SYN it has aged out, so only two are in the window.
    assert!(detector.log_packet(&p(501)).is_none());
    match detector.log_packet(&p(600)) {
        Some(Activity::SynFlood { syn_count, sources, .. }) => {
            assert_eq!(syn_count, 3);
            assert_eq!(sources, vec![IpAddr::V4(Ipv4Addr::new(9, 9, 9, 9))]);
        }
        other => panic!("expected a flood, got {other:?}"),
    }
    assert!(detector.history_is_empty());
}

#[test]
fn traffic_counters_add_up() {
    let mut s = TrafficStatistics::new();
    let base = tcp_packet(at(1, 0), Ipv4Addr::new(1, 1, 1, 1), Ipv4Addr::new(2, 2, 2, 2), 1, syn());
    let mut icmp = base.clone();
    icmp.transport = Some(TransportHeader::Icmp(IcmpHeader { icmp_type: 0, code: 0, checksum: 0 }));
    let mut unknown = base.clone();
    unknown.transport = Some(TransportHeader::Unknown(89));
    let mut none = base.clone();
    none.transport = None;
    for p in [&base, &icmp, &unknown, &none, &base] {
        s.observe_packet(p);
    }
    assert_eq!(s.packets_captured, 5);
    assert_eq!(s.bytes_captured, 5 * 54);
    assert_eq!(s.tcp_packets, 2);
    assert_eq!(s.icmp_packets, 1);
    assert_eq!(s.other_packets, 2);
    assert_eq!(s.udp_packets, 0);
    assert_eq!(s.alerts_detected, 0);
    s.packets_captured = u64::MAX;
    s.observe_packet(&base);
    assert_eq!(s.packets_captured, u64::MAX);
}

#[test]
fn alert_page_sizes_are_clamped() {
    assert_eq!(recent_alert_limit(None), DEFAULT_ALERT_LIMIT as i64);
    assert_eq!(recent_alert_limit(Some(0)), 1);
    assert_eq!(recent_alert_limit(Some(37)), 37);
    assert_eq!(recent_alert_limit(Some(100_000)), MAX_ALERT_LIMIT as i64);
    assert_eq!(query_limit(-5), 1);
    assert_eq!(query_limit(250), 250);
    assert_eq!(query_limit(i64::MAX), MAX_QUERY_LIMIT);
}

#[test]
fn the_clock_reads_after_2020() {
    assert!(now_ms() > 1_577_836_800_000);
    let status = RuntimeStatus::initial();
    assert!(!status.capture_active);
    assert!(status.interface.is_none());
    assert!(status.started_at_ms > 1_577_836_800_000);
    let stats = Stats::new("eth0".to_string(), "stomper.db".to_string());
    match stats.started_at {
        ClockReading::AfterEpoch(d) => assert!(d.secs > 1_577_836_800),
        ClockReading::BeforeEpoch(_) => panic!("the clock reads before 1970"),
    }
    assert!(stats.uptime_now() < 60_000_000_000);
}

#[test]
fn stored_rows_rebuild_alerts() {
    let ok = alert_from_row(
        7,
        "2025-07-23T10:35:14+00:00",
        "Port Scan".to_string(),
        "Medium",
        Some("192.168.1.50".to_string()),
        None,
        "details".to_string(),
    )
    .expect("row reads");
    assert_eq!(ok.id, Some(7));
    assert_eq!(ok.timestamp, UtcTime { secs: 1_753_266_914, nanos: 0 });
    assert_eq!(ok.severity, Severity::Medium);
    assert_eq!(ok.source.as_deref(), Some("192.168.1.50"));

    match alert_from_row(8, "yesterday", String::new(), "Medium", None, None, String::new()) {
        Err(DbError::InvalidRow { id, field }) => {
            assert_eq!(id, 8);
            assert_eq!(field, "timestamp");
        }
        _ => panic!("expected an invalid timestamp"),
    }
    match alert_from_row(
        9,
        "2025-07-23T10:35:14Z",
        String::new(),
        "Critical",
        None,
        None,
        String::new(),
    ) {
        Err(DbError::InvalidRow { id, field }) => {
            assert_eq!(id, 9);
            assert_eq!(field, "severity");
        }
        _ => panic!("expected an invalid severity"),
    }
}

#[test]
fn a_written_alert_reads_back() {
    let alert = Alert::from_activity(
        &Activity::SingleSourceScan {
            src: IpAddr::V4(Ipv4Addr::new(192, 168, 1, 50)),
            destinations: 64,
            ports: vec![22, 80],
        },
        Timestamp { secs: 1_753_266_914, nanos: 250_000_000 },
    );
    let row = alert_from_row(
        41,
        &alert.timestamp.to_rfc3339(),
        alert.category.clone(),
        alert.severity.as_str(),
        alert.source.clone(),
        alert.destination.clone(),
        alert.details.clone(),
    )
    .expect("row reads");
    assert_eq!(row.id, Some(41));
    assert_eq!(row.timestamp, alert.timestamp);
    assert_eq!(row.category, alert.category);
    assert_eq!(row.severity, alert.severity);
    assert_eq!(row.source, alert.source);
    assert_eq!(row.destination, alert.destination);
    assert_eq!(row.details, alert.details);
}

#[test]
fn severity_counts_keep_the_total() {
    let mut s = AlertSummary::default();
    s.add_group("Medium", 3);
    s.add_group("High", 2);
    s.add_group("Critical", 4);
    s.add_group("Low", 1);
    assert_eq!((s.total, s.low, s.medium, s.high), (10, 1, 3, 2));
}

#[test]
fn capture_loop_decisions() {
    let mut stats = Stats::starting_at(
        "eth0".to_string(),
        "db".to_string(),
        ClockReading::AfterEpoch(Duration { secs: 0, nanos: 0 }),
    );
    let good: Result<ParsedPacket, CaptureError> = Ok(tcp_packet(
        at(1, 0),
        Ipv4Addr::new(1, 1, 1, 1),
        Ipv4Addr::new(2, 2, 2, 2),
        1,
        syn(),
    ));
    assert!(after_decode(&mut stats, &good));
    let bad: Result<ParsedPacket, CaptureError> =
        Err(CaptureError::PacketTooShort { needed: 14, got: 3 });
    assert!(!after_decode(&mut stats, &bad));
    assert_eq!(stats.packets_captured, 1);
    assert_eq!(stats.bytes_captured, 54);
    assert_eq!(stats.parse_errors, 1);
    assert_eq!(after_send(&mut stats, SendResult::Sent), CaptureStep::Continue);
    assert_eq!(after_send(&mut stats, SendResult::QueueFull), CaptureStep::Continue);
    assert_eq!(after_send(&mut stats, SendResult::Closed), CaptureStep::Stop);
    assert_eq!(stats.packets_dropped_queue_full, 1);
    assert_eq!(after_read_failure(true), CaptureStep::Continue);
    assert_eq!(after_read_failure(false), CaptureStep::Stop);
    stats.alerts_generated = u64::MAX;
    stats.record_alert();
    assert_eq!(stats.alerts_generated, 0);
    assert_eq!(
        stats.uptime_nanos(ClockReading::AfterEpoch(Duration { secs: 2, nanos: 500 })),
        2_000_000_500
    );
    assert_eq!(
        stats.uptime_nanos(ClockReading::BeforeEpoch(Duration { secs: 1, nanos: 0 })),
        0
    );
    let early = Stats::starting_at(
        String::new(),
        String::new(),
        ClockReading::BeforeEpoch(Duration { secs: 3, nanos: 250 }),
    );
    assert_eq!(
        early.uptime_nanos(ClockReading::AfterEpoch(Duration { secs: 1, nanos: 0 })),
        4_000_000_250
    );
    let config = CaptureConfig::default();
    assert!(config.promiscuous);
    assert_eq!((config.snaplen, config.timeout), (65535, 1000));
    assert!(config.interface.is_empty());
}

#[test]
fn only_tcp_and_udp_probes_count_toward_a_scan() {
    let mut detector = SingleSourceScanState::new();
    let src = Ipv4Addr::new(10, 3, 3, 3);
    let dst = Ipv4Addr::new(10, 4, 4, 4);
    // Control messages to many hosts are no probes.
    for i in 0..200u32 {
        let mut p = tcp_packet(at(300, 0), src, Ipv4Addr(0x0a04_0000 + i), 1, syn());
        p.transport = Some(TransportHeader::Icmp(IcmpHeader { icmp_type: 8, code: 0, checksum: 0 }));
        assert!(detector.log_packet(&p).is_none());
    }
    assert!(detector.history_is_empty());
    // UDP datagrams to distinct ports are.
    let mut found = None;
    for port in 0..SCAN_PACKET_COUNT_THRESHOLD as u16 {
        let mut p = tcp_packet(at(300, 0), src, dst, 1, syn());
        p.transport = Some(TransportHeader::Udp(UdpHeader { src_port: 9, dst_port: 2000 + port, length: 8, checksum: 0 }));
        found = detector.log_packet(&p);
    }
    match found {
        Some(Activity::SingleSourceScan { destinations, .. }) => {
            assert_eq!(destinations, SCAN_PACKET_COUNT_THRESHOLD)
        }
        other => panic!("expected a scan, got {other:?}"),
    }
}

#[test]
fn a_zero_threshold_reports_every_bare_syn_once() {
    let mut detector = SynFloodState::new(Duration::from_secs(1), 0);
    let p = tcp_packet(at(50, 0), Ipv4Addr::new(1, 2, 3, 4), Ipv4Addr::new(5, 6, 7, 8), 22, syn());
    for _ in 0..3 {
        match detector.log_packet(&p) {
            Some(Activity::SynFlood { syn_count, .. }) => assert_eq!(syn_count, 1),
            other => panic!("expected a flood, got {other:?}"),
        }
        assert!(detector.history_is_empty());
    }
}

#[test]
fn alert_times_past_the_year_9999_carry_a_sign() {
    let alert = Alert::from_activity(
        &Activity::SingleSourceScan {
            src: IpAddr::V4(Ipv4Addr::new(1, 1, 1, 1)),
            destinations: 64,
            ports: vec![1],
        },
        Timestamp { secs: 253_402_300_800, nanos: 0 },
    );
    assert!(alert.to_string().starts_with("[+10000-01-01 00:00:00 UTC] ALERT: Port Scan Detected"));
    let leap_day = Alert::from_activity(
        &Activity::SingleSourceScan {
            src: IpAddr::V4(Ipv4Addr::new(1, 1, 1, 1)),
            destinations: 64,
            ports: vec![1],
        },
        Timestamp { secs: 951_782_400, nanos: 999_999_999 },
    );
    assert!(leap_day.to_string().starts_with("[2000-02-29 00:00:00 UTC]"));
}
