use stomper::capture::parser::{
    parse_ethernet, parse_icmp, parse_ipv4, parse_ipv6, parse_packet, parse_tcp, parse_transport,
    parse_udp, skip_ipv6_ext_headers, EthernetHeader, TransportHeader, IPV6_ESP, IPV6_EXT_AUTH,
    IPV6_EXT_FRAGMENT, IPV6_EXT_HOP_BY_HOP, IPV6_EXT_ROUTING,
};
use stomper::capture::{CaptureError, Linktype};
use stomper::time::{tv_to_systemtime, Timestamp};

fn epoch() -> Timestamp {
    Timestamp::unix_epoch()
}

#[test]
fn test_parse_ethernet_too_short() {
    let result = parse_ethernet(&[0u8; 10], epoch());
    assert!(result.is_err());
    match result {
        Err(CaptureError::PacketTooShort { needed, got }) => {
            assert_eq!(needed, 14);
            assert_eq!(got, 10);
        }
        _ => panic!("expected PacketTooShort error"),
    }
}

#[test]
fn test_parse_ethernet_ipv4() {
    let mut buf = vec![0u8; 14 + 20];
    buf[12] = 0x08;
    buf[13] = 0x00;
    buf[14] = 0x45;
    buf[15] = 0x00;
    buf[16..20].copy_from_slice(&[0x00, 0x28, 0x00, 0x00]);

    let result = parse_ethernet(&buf, epoch());
    assert!(result.is_ok());
    let pkt = result.unwrap();
    assert!(pkt.ethernet.is_some());
    assert_eq!(pkt.ethernet.unwrap().ethertype, 0x0800);
    assert!(pkt.ipv4.is_some());
    assert_eq!(pkt.raw_len, buf.len());
}

#[test]
fn test_parse_ipv4_header() {
    let data = [
        0x45, // version=4, ihl=5
        0x00, // dscp=0, ecn=0
        0x00, 0x34, // total_length=52
        0x12, 0x34, // identification=0x1234
        0x40, 0x00, // flags=DF, fragment_offset=0
        0x40, // ttl=64
        0x06, // protocol=TCP
        0x00, 0x00, // checksum
        0xC0, 0xA8, 0x01, 0x01, // src=192.168.1.1
        0xC0, 0xA8, 0x01, 0x02, // dst=192.168.1.2
    ];
    let eth = EthernetHeader {
        dst_mac: [0; 6],
        src_mac: [0; 6],
        ethertype: 0x0800,
    };
    let result = parse_ipv4(&data, epoch(), eth, 14 + data.len());
    assert!(result.is_ok());
    let pkt = result.unwrap();
    let ip = pkt.ipv4.unwrap();
    assert_eq!(ip.src_ip.to_string(), "192.168.1.1");
    assert_eq!(ip.dst_ip.to_string(), "192.168.1.2");
    assert_eq!(ip.protocol, 6);
    assert_eq!(ip.ttl, 64);
    assert_eq!(ip.version, 4);
    assert_eq!(ip.ihl, 5);
    assert_eq!(ip.total_length, 52);
    assert_eq!(ip.identification, 0x1234);
    assert_eq!(ip.flags, 2);
    assert_eq!(ip.fragment_offset, 0);
}

#[test]
fn test_parse_ipv4_invalid_ihl() {
    let data = [
        0x47, // version=4, ihl=7 (28 bytes), data only 20 bytes
        0x00, 0x00, 0x00, 0x00, 0x00, 0x00, 0x00, 0x00, 0x00, 0x00, 0x00, 0x00, 0x00, 0x00,
        0x00, 0x00, 0x00, 0x00, 0x00,
    ];
    let eth = EthernetHeader {
        dst_mac: [0; 6],
        src_mac: [0; 6],
        ethertype: 0x0800,
    };
    let result = parse_ipv4(&data, epoch(), eth, 34);
    assert!(result.is_err());
}

#[test]
fn test_parse_ipv6_header() {
    let mut data = vec![0u8; 40];
    data[0] = 0x60;
    data[1] = 0x00;
    data[4] = 0x00;
    data[5] = 0x14;
    data[6] = 17;
    data[7] = 64;
    data[8..24].copy_from_slice(&[
        0x20, 0x01, 0x0D, 0xB8, 0x00, 0x00, 0x00, 0x00, 0x00, 0x00, 0x00, 0x00, 0x00, 0x00, 0x00,
        0x01,
    ]);
    data[24..40].copy_from_slice(&[
        0x20, 0x01, 0x0D, 0xB8, 0x00, 0x00, 0x00, 0x00, 0x00, 0x00, 0x00, 0x00, 0x00, 0x00, 0x00,
        0x02,
    ]);

    let eth = EthernetHeader {
        dst_mac: [0; 6],
        src_mac: [0; 6],
        ethertype: 0x86DD,
    };
    let result = parse_ipv6(&data, epoch(), eth, 14 + data.len());
    assert!(result.is_ok());
    let pkt = result.unwrap();
    let ip = pkt.ipv6.unwrap();
    assert_eq!(ip.src_ip.to_string(), "2001:db8::1");
    assert_eq!(ip.dst_ip.to_string(), "2001:db8::2");
    assert_eq!(ip.next_header, 17);
    assert_eq!(ip.hop_limit, 64);
    assert_eq!(ip.payload_length, 20);
}

#[test]
fn test_parse_tcp() {
    let mut buf = vec![0u8; 20];
    buf[0] = 0x00;
    buf[1] = 0x50;
    buf[2] = 0x1A;
    buf[3] = 0x0B;
    buf[12] = 0x50;
    buf[13] = 0x02;
    buf[14] = 0xFF;
    buf[15] = 0xFF;

    let tcp = parse_tcp(&buf);
    assert!(tcp.is_some());
    let tcp = tcp.unwrap();
    assert_eq!(tcp.src_port, 80);
    assert_eq!(tcp.dst_port, 6667);
    assert!(tcp.flags.syn);
    assert!(!tcp.flags.ack);
    assert_eq!(tcp.window_size, 65535);
}

#[test]
fn test_parse_tcp_all_flags() {
    let mut buf = vec![0u8; 20];
    buf[12] = 0x51; // data_offset=5, NS=1
    buf[13] = 0xFF; // all flags

    let tcp = parse_tcp(&buf).unwrap();
    assert!(tcp.flags.fin);
    assert!(tcp.flags.syn);
    assert!(tcp.flags.rst);
    assert!(tcp.flags.psh);
    assert!(tcp.flags.ack);
    assert!(tcp.flags.urg);
    assert!(tcp.flags.ece);
    assert!(tcp.flags.cwr);
    assert!(tcp.flags.ns);
}

#[test]
fn test_parse_tcp_too_short() {
    assert!(parse_tcp(&[0u8; 10]).is_none());
}

#[test]
fn test_parse_udp() {
    let mut buf = vec![0u8; 8];
    buf[0] = 0x00;
    buf[1] = 0x35;
    buf[2] = 0x00;
    buf[3] = 0x50;

    let udp = parse_udp(&buf);
    assert!(udp.is_some());
    let udp = udp.unwrap();
    assert_eq!(udp.src_port, 53);
    assert_eq!(udp.dst_port, 80);
}

#[test]
fn test_parse_udp_too_short() {
    assert!(parse_udp(&[0u8; 4]).is_none());
}

#[test]
fn test_parse_icmp() {
    let buf = [0x08, 0x00, 0xF7, 0xFF];
    let icmp = parse_icmp(&buf);
    assert!(icmp.is_some());
    let icmp = icmp.unwrap();
    assert_eq!(icmp.icmp_type, 8);
    assert_eq!(icmp.code, 0);
}

#[test]
fn test_parse_icmp_too_short() {
    assert!(parse_icmp(&[0u8; 2]).is_none());
}

#[test]
fn test_parse_transport_unknown() {
    let result = parse_transport(&[], 42);
    assert!(result.is_some());
    match result.unwrap() {
        TransportHeader::Unknown(42) => {}
        _ => panic!("expected Unknown transport"),
    }
}

#[test]
fn test_parse_transport_icmpv6() {
    let buf = [0x80, 0x00, 0x00, 0x00];
    let result = parse_transport(&buf, 58);
    assert!(result.is_some());
    match result.unwrap() {
        TransportHeader::Icmp(icmp) => {
            assert_eq!(icmp.icmp_type, 128);
            assert_eq!(icmp.code, 0);
        }
        _ => panic!("expected Icmp transport"),
    }
}

#[test]
fn test_skip_ipv6_no_extensions() {
    let data = b"payload";
    let (proto, rest) = skip_ipv6_ext_headers(data, 6);
    assert_eq!(proto, 6);
    assert_eq!(rest, data as &[u8]);
}

#[test]
fn test_skip_ipv6_hop_by_hop() {
    let mut ext = vec![0u8; 16];
    ext[0] = 6;
    ext[1] = 1;

    let payload = b"payload";

    let mut full = ext.clone();
    full.extend_from_slice(payload);

    let (proto, rest) = skip_ipv6_ext_headers(&full, IPV6_EXT_HOP_BY_HOP);
    assert_eq!(proto, 6);
    assert_eq!(rest, payload as &[u8]);
}

#[test]
fn test_skip_ipv6_multiple_extensions() {
    let mut hop = vec![0u8; 16];
    hop[0] = IPV6_EXT_ROUTING;
    hop[1] = 1;

    let mut route = vec![0u8; 16];
    route[0] = 6;
    route[1] = 1;

    let payload = b"payload";

    let mut full = Vec::new();
    full.extend_from_slice(&hop);
    full.extend_from_slice(&route);
    full.extend_from_slice(payload);

    let (proto, rest) = skip_ipv6_ext_headers(&full, IPV6_EXT_HOP_BY_HOP);
    assert_eq!(proto, 6);
    assert_eq!(rest, payload as &[u8]);
}

#[test]
fn test_skip_ipv6_fragment_non_zero() {
    let mut frag = vec![0u8; 8];
    frag[0] = 6;
    frag[2] = 0x01;
    frag[3] = 0x00;

    let payload = b"payload";
    let mut full = frag.clone();
    full.extend_from_slice(payload);

    let (proto, _) = skip_ipv6_ext_headers(&full, IPV6_EXT_FRAGMENT);
    assert_eq!(proto, u8::MAX);
}

#[test]
fn test_skip_ipv6_fragment_first() {
    let mut frag = vec![0u8; 8];
    frag[0] = 6;
    frag[2] = 0x00;
    frag[3] = 0x00;

    let payload = b"payload";
    let mut full = frag.clone();
    full.extend_from_slice(payload);

    let (proto, _) = skip_ipv6_ext_headers(&full, IPV6_EXT_FRAGMENT);
    assert_eq!(proto, 6);
}

#[test]
fn test_skip_ipv6_auth() {
    let mut ah = vec![0u8; 12];
    ah[0] = 17;
    ah[1] = 1;

    let payload = b"payload";
    let mut full = ah.clone();
    full.extend_from_slice(payload);

    let (proto, rest) = skip_ipv6_ext_headers(&full, IPV6_EXT_AUTH);
    assert_eq!(proto, 17);
    assert_eq!(rest, payload as &[u8]);
}

#[test]
fn test_skip_ipv6_esp() {
    let esp = vec![0u8; 8];

    let payload = b"payload";
    let mut full = esp.clone();
    full.extend_from_slice(payload);

    let (proto, _) = skip_ipv6_ext_headers(&full, IPV6_ESP);
    assert_eq!(proto, u8::MAX);
}

#[test]
fn test_full_parse_ethernet_ipv4_tcp() {
    let mut frame = vec![0u8; 14 + 20 + 20];
    // Ethernet: dst ff:ff:ff:ff:ff:ff, src 00:11:22:33:44:55, type IPv4
    frame[0..6].fill(0xFF);
    frame[6..12].copy_from_slice(&[0x00, 0x11, 0x22, 0x33, 0x44, 0x55]);
    frame[12] = 0x08;
    frame[13] = 0x00;
    // IPv4
    frame[14] = 0x45;
    frame[16] = 0x00;
    frame[17] = 0x28;
    frame[22] = 0x40;
    frame[23] = 0x06;
    frame[26] = 0xC0;
    frame[27] = 0xA8;
    frame[28] = 0x01;
    frame[29] = 0x01;
    frame[30] = 0xC0;
    frame[31] = 0xA8;
    frame[32] = 0x01;
    frame[33] = 0x02;
    // TCP
    frame[34] = 0x00;
    frame[35] = 0x50;
    frame[36] = 0x1F;
    frame[37] = 0x90;
    frame[46] = 0x50;
    frame[47] = 0x18;
    frame[48] = 0x10;
    frame[49] = 0x00;

    let eth = Linktype::ethernet();
    let result = parse_packet(&frame, eth, 0, 0);
    assert!(result.is_ok());
    let pkt = result.unwrap();
    assert_eq!(pkt.raw_len, frame.len());

    let eth_hdr = pkt.ethernet.unwrap();
    assert!(eth_hdr.src_mac[5] == 0x55);

    let ip = pkt.ipv4.unwrap();
    assert_eq!(ip.src_ip.to_string(), "192.168.1.1");
    assert_eq!(ip.dst_ip.to_string(), "192.168.1.2");

    let tcp = match pkt.transport.unwrap() {
        TransportHeader::Tcp(t) => t,
        _ => panic!("expected TCP"),
    };
    assert_eq!(tcp.src_port, 80);
    assert_eq!(tcp.dst_port, 8080);
    assert!(tcp.flags.ack);
    assert!(tcp.flags.psh);
}

#[test]
fn test_unsupported_link_type() {
    let result = parse_packet(&[], Linktype::null(), 0, 0);
    assert!(result.is_err());
    match result {
        Err(CaptureError::UnsupportedLinkType(_)) => {}
        _ => panic!("expected UnsupportedLinkType"),
    }
}

#[test]
fn test_tv_to_systemtime() {
    let ts = tv_to_systemtime(1_000_000, 500_000);
    let since_epoch = ts.duration_since_epoch();
    assert_eq!(since_epoch.as_secs(), 1_000_000);
    assert_eq!(since_epoch.subsec_nanos(), 500_000_000);
}
