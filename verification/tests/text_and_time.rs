use stomper::net::{IpAddr, Ipv4Addr, Ipv6Addr, SocketAddr};
use stomper::text::{push_decimal, push_hex, push_hex4, push_padded};
use stomper::time::{
    capture_time_valid, reading_millis, ClockReading, tv_to_systemtime, Duration, Timestamp,
    RFC3339_FIRST_SECS, RFC3339_YEAR_LIMIT_SECS, UtcTime,
};
use stomper::db::{alert_from_row, read_stored_time};

#[test]
fn ipv6_text_is_the_short_form() {
    let cases: [(u128, &str); 14] = [
        (0, "::"),
        (1, "::1"),
        (0x2001_0db8_0000_0000_0000_0000_0000_0001, "2001:db8::1"),
        (0x2001_0db8_0000_0000_0001_0000_0000_0001, "2001:db8::1:0:0:1"),
        (0x2001_0db8_0000_0001_0001_0001_0001_0001, "2001:db8:0:1:1:1:1:1"),
        (0x2001_0db8_0000_0000_0001_0001_0000_0000, "2001:db8::1:1:0:0"),
        (0xfe80_0000_0000_0000_0202_b3ff_fe1e_8329, "fe80::202:b3ff:fe1e:8329"),
        (0x0001_0000_0000_0000_0000_0000_0000_0000, "1::"),
        (0x0000_0001_0000_0000_0000_0000_0000_0000, "0:1::"),
        (0xffff_ffff_ffff_ffff_ffff_ffff_ffff_ffff, "ffff:ffff:ffff:ffff:ffff:ffff:ffff:ffff"),
        (0x0000_0000_0000_0000_0000_ffff_c0a8_0101, "::ffff:192.168.1.1"),
        (0x0000_0000_0000_0000_0000_0000_c0a8_0101, "::c0a8:101"),
        (0x0001_0000_0001_0000_0001_0000_0001_0000, "1:0:1:0:1:0:1:0"),
        (0x0000_0000_0001_0000_0000_0000_0001_0000, "0:0:1::1:0"),
    ];
    for (v, text) in cases {
        assert_eq!(Ipv6Addr(v).to_string(), text);
    }
}

#[test]
fn ipv4_and_socket_text() {
    assert_eq!(Ipv4Addr::new(192, 168, 1, 1).to_string(), "192.168.1.1");
    assert_eq!(Ipv4Addr(0).to_string(), "0.0.0.0");
    assert_eq!(Ipv4Addr(u32::MAX).to_string(), "255.255.255.255");
    assert_eq!(
        SocketAddr::new(IpAddr::V4(Ipv4Addr::new(10, 0, 0, 7)), 8080).to_string(),
        "10.0.0.7:8080"
    );
    assert_eq!(
        SocketAddr::new(IpAddr::V6(Ipv6Addr(1)), 443).to_string(),
        "[::1]:443"
    );
    assert_eq!(IpAddr::V6(Ipv6Addr(0x2001_0db8 << 96)).to_string(), "2001:db8::");
    assert!(IpAddr::V4(Ipv4Addr(u32::MAX)).precedes(&IpAddr::V6(Ipv6Addr(0))));
    assert!(!IpAddr::V6(Ipv6Addr(0)).precedes(&IpAddr::V4(Ipv4Addr(0))));
}

#[test]
fn numerals_and_padding() {
    let mut s = String::new();
    push_decimal(&mut s, 0);
    push_decimal(&mut s, 18_446_744_073_709_551_615);
    assert_eq!(s, "018446744073709551615");
    let mut s = String::new();
    push_hex(&mut s, 0xdead_beef);
    push_hex4(&mut s, 0x0a);
    assert_eq!(s, "deadbeef000a");
    let mut s = String::new();
    push_padded(&mut s, "ab", 5);
    push_padded(&mut s, "abcdef", 3);
    push_padded(&mut s, "→", 2);
    assert_eq!(s, "   ababcdef →");
}

#[test]
fn capture_times_carry_microseconds() {
    let t = tv_to_systemtime(5, 2_500_000);
    assert_eq!(t, Timestamp { secs: 7, nanos: 500_000_000 });
    assert!(capture_time_valid(0, 0));
    assert!(capture_time_valid(1_700_000_000, 999_999));
    assert!(!capture_time_valid(-1, 0));
    assert!(!capture_time_valid(0, 5_000_000));
    assert!(capture_time_valid(i64::MAX, 0));
    assert!(capture_time_valid(i64::MAX, 999_999));
    assert!(!capture_time_valid(i64::MAX, 4_000_000));
    assert!(capture_time_valid(i64::MAX - 4, 4_000_000));
}

#[test]
fn timestamps_add_and_compare() {
    let t = Timestamp { secs: 10, nanos: 900_000_000 };
    let later = t.plus(Duration::from_millis(250));
    assert_eq!(later, Timestamp { secs: 11, nanos: 150_000_000 });
    assert!(t.reaches(Duration::from_millis(250), later));
    assert!(!t.reaches(Duration::from_millis(249), later));
    assert_eq!(Duration::from_millis(1_234).as_secs(), 1);
    assert_eq!(Duration::from_millis(1_234).subsec_nanos(), 234_000_000);
}

#[test]
fn clock_readings_become_milliseconds() {
    assert_eq!(reading_millis(ClockReading::BeforeEpoch(Duration { secs: 5, nanos: 0 })), 0);
    assert_eq!(
        reading_millis(ClockReading::AfterEpoch(Duration { secs: 1_700_000_000, nanos: 123_999_999 })),
        1_700_000_000_123
    );
    assert_eq!(
        reading_millis(ClockReading::AfterEpoch(Duration { secs: u64::MAX, nanos: 0 })),
        i64::MAX
    );
}

#[test]
fn rfc3339_text_reads_back() {
    let t = UtcTime { secs: 1_753_266_914, nanos: 0 };
    assert_eq!(t.to_rfc3339(), "2025-07-23T10:35:14+00:00");
    let t = UtcTime { secs: 1_753_266_914, nanos: 500_000_000 };
    assert_eq!(t.to_rfc3339(), "2025-07-23T10:35:14.500+00:00");
    assert_eq!(UtcTime { secs: 0, nanos: 123_456_000 }.to_rfc3339(), "1970-01-01T00:00:00.123456+00:00");
    assert_eq!(UtcTime { secs: 0, nanos: 1 }.to_rfc3339(), "1970-01-01T00:00:00.000000001+00:00");
    assert_eq!(UtcTime { secs: -1, nanos: 0 }.to_rfc3339(), "1969-12-31T23:59:59+00:00");
    let leap = UtcTime { secs: 1_483_228_799, nanos: 1_500_000_000 };
    assert_eq!(leap.to_rfc3339(), "2016-12-31T23:59:60.500+00:00");
    for (secs, nanos) in [
        (0i64, 0u32),
        (1, 1),
        (-1, 0),
        (-86_401, 999_000_000),
        (RFC3339_FIRST_SECS, 0),
        (951_782_400, 1_000),
        (4_102_444_800, 999_999_999),
        (1_483_228_799, 1_000_000_000),
        (1_483_228_799, 1_999_999_999),
        (RFC3339_YEAR_LIMIT_SECS - 1, 123_456_000),
    ] {
        let t = UtcTime { secs, nanos };
        assert_eq!(read_stored_time(&t.to_rfc3339()), Some(t));
    }
    assert_eq!(read_stored_time("not a time"), None);
    assert_eq!(
        read_stored_time("1969-12-31T23:59:59+00:00"),
        Some(UtcTime { secs: -1, nanos: 0 })
    );
    assert_eq!(
        read_stored_time("2025-07-23T12:35:14+02:00"),
        Some(UtcTime { secs: 1_753_266_914, nanos: 0 })
    );
}

#[test]
fn stored_alerts_before_1970_and_on_leap_seconds_render() {
    let row = |timestamp: &str| {
        alert_from_row(
            1,
            timestamp,
            "Port Scan".to_string(),
            "Low",
            None,
            None,
            String::new(),
        )
        .expect("row reads")
    };
    let a = row("1969-12-30T23:59:59.999+00:00");
    assert_eq!(a.timestamp, UtcTime { secs: -86_401, nanos: 999_000_000 });
    assert!(a.to_string().starts_with("[1969-12-30 23:59:59 UTC] ALERT: Port Scan Detected"));
    let a = row("2016-12-31T23:59:60.5Z");
    assert_eq!(a.timestamp, UtcTime { secs: 1_483_228_799, nanos: 1_500_000_000 });
    assert!(a.to_string().starts_with("[2016-12-31 23:59:60 UTC]"));
    assert_eq!(a.timestamp.to_rfc3339(), "2016-12-31T23:59:60.500+00:00");
    let a = row("0000-01-01T00:00:00+00:01");
    assert_eq!(a.timestamp, UtcTime { secs: -62_167_219_260, nanos: 0 });
    assert!(a.to_string().starts_with("[-0001-12-31 23:59:00 UTC]"));
    assert_eq!(a.timestamp.to_rfc3339(), "-0001-12-31T23:59:00+00:00");
}
