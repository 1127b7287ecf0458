use stomper::alert::{Alert, Severity, CATEGORY_PORT_SCAN, CATEGORY_SYN_FLOOD};
use stomper::detection::Activity;
use stomper::net::{IpAddr, Ipv4Addr, SocketAddr};
use stomper::time::Timestamp;

/// 2025-07-23 10:35:14 UTC, fixed so tests never depend on the clock.
const TEST_UNIX_SECONDS: u64 = 1_753_266_914;

fn observed_at() -> Timestamp {
    Timestamp {
        secs: TEST_UNIX_SECONDS,
        nanos: 0,
    }
}

fn scan_activity() -> Activity {
    Activity::SingleSourceScan {
        src: IpAddr::V4(Ipv4Addr::new(192, 168, 1, 50)),
        destinations: 64,
        ports: vec![22, 80, 443],
    }
}

fn flood_activity() -> Activity {
    Activity::SynFlood {
        dst: SocketAddr::new(IpAddr::V4(Ipv4Addr::new(192, 168, 1, 1)), 80),
        syn_count: 256,
        sources: vec![IpAddr::V4(Ipv4Addr::new(10, 0, 0, 7))],
    }
}

#[test]
fn port_scan_maps_to_medium_severity_with_evidence() {
    let alert = Alert::from_activity(&scan_activity(), observed_at());

    assert_eq!(alert.category, CATEGORY_PORT_SCAN);
    assert_eq!(alert.severity, Severity::Medium);
    assert_eq!(alert.source.as_deref(), Some("192.168.1.50"));
    assert!(alert.details.contains("64 distinct destination sockets"));
    assert!(alert.details.contains("22, 80, 443"));
}

#[test]
fn syn_flood_maps_to_high_severity_with_target() {
    let alert = Alert::from_activity(&flood_activity(), observed_at());

    assert_eq!(alert.category, CATEGORY_SYN_FLOOD);
    assert_eq!(alert.severity, Severity::High);
    assert_eq!(alert.destination.as_deref(), Some("192.168.1.1:80"));
    assert!(alert.details.contains("256 bare SYN packets"));
}

/// The console block must carry every field the testing guide lists for an alert.
#[test]
fn console_form_contains_required_fields() {
    let rendered = Alert::from_activity(&scan_activity(), observed_at()).to_string();

    assert!(rendered.contains("2025-07-23 10:35:14 UTC"));
    assert!(rendered.contains("ALERT: Port Scan Detected"));
    assert!(rendered.contains("Source:      192.168.1.50"));
    assert!(rendered.contains("Destination: -"));
    assert!(rendered.contains("Severity:    Medium"));
}

#[test]
fn severity_round_trips_through_its_stored_form() {
    for severity in [Severity::Low, Severity::Medium, Severity::High] {
        assert_eq!(Severity::parse(severity.as_str()), Some(severity));
    }
    assert_eq!(Severity::parse("Critical"), None);
}
