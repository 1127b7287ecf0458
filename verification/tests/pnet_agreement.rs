//! The header decoders read the same fields from the same bytes as `pnet_packet`'s views.
use pnet_packet::ethernet::EthernetPacket;
use pnet_packet::icmp::IcmpPacket;
use pnet_packet::ipv4::Ipv4Packet;
use pnet_packet::ipv6::Ipv6Packet;
use pnet_packet::tcp::TcpPacket;
use pnet_packet::udp::UdpPacket;
use pnet_packet::Packet;

use stomper::capture::parser::{
    parse_ethernet, parse_icmp, parse_ipv4, parse_ipv6, parse_tcp, parse_transport, parse_udp,
    skip_ipv6_ext_headers, EthernetHeader,
};
use stomper::time::Timestamp;

/// Deterministic pseudo-random bytes.
fn bytes(seed: u64, len: usize) -> Vec<u8> {
    let mut x = seed.wrapping_mul(6364136223846793005).wrapping_add(1442695040888963407);
    (0..len)
        .map(|_| {
            x = x
                .wrapping_mul(6364136223846793005)
                .wrapping_add(1442695040888963407);
            (x >> 33) as u8
        })
        .collect()
}

const LENGTHS: [usize; 12] = [0, 1, 3, 4, 7, 8, 10, 19, 20, 21, 40, 90];

fn eth(ethertype: u16) -> EthernetHeader {
    EthernetHeader {
        dst_mac: [0; 6],
        src_mac: [0; 6],
        ethertype,
    }
}

#[test]
fn tcp_fields_agree_with_pnet() {
    for seed in 0..300 {
        for len in LENGTHS {
            let d = bytes(seed, len);
            let mine = parse_tcp(&d);
            let theirs = TcpPacket::new(&d);
            assert_eq!(mine.is_some(), theirs.is_some(), "len {len}");
            if let (Some(m), Some(t)) = (mine, theirs) {
                assert_eq!(m.src_port, t.get_source());
                assert_eq!(m.dst_port, t.get_destination());
                assert_eq!(m.sequence_number, t.get_sequence());
                assert_eq!(m.acknowledgment_number, t.get_acknowledgement());
                assert_eq!(m.data_offset, t.get_data_offset() * 4);
                let f = t.get_flags();
                assert_eq!(m.flags.fin, f & 0x01 != 0);
                assert_eq!(m.flags.syn, f & 0x02 != 0);
                assert_eq!(m.flags.rst, f & 0x04 != 0);
                assert_eq!(m.flags.psh, f & 0x08 != 0);
                assert_eq!(m.flags.ack, f & 0x10 != 0);
                assert_eq!(m.flags.urg, f & 0x20 != 0);
                assert_eq!(m.flags.ece, f & 0x40 != 0);
                assert_eq!(m.flags.cwr, f & 0x80 != 0);
                assert_eq!(m.flags.ns, t.packet()[12] & 0x01 != 0);
                assert_eq!(m.window_size, t.get_window());
                assert_eq!(m.checksum, t.get_checksum());
                assert_eq!(m.urgent_pointer, t.get_urgent_ptr());
            }
        }
    }
}

#[test]
fn udp_and_icmp_fields_agree_with_pnet() {
    for seed in 0..300 {
        for len in LENGTHS {
            let d = bytes(seed, len);
            let mine = parse_udp(&d);
            let theirs = UdpPacket::new(&d);
            assert_eq!(mine.is_some(), theirs.is_some());
            if let (Some(m), Some(t)) = (mine, theirs) {
                assert_eq!(m.src_port, t.get_source());
                assert_eq!(m.dst_port, t.get_destination());
                assert_eq!(m.length, t.get_length());
                assert_eq!(m.checksum, t.get_checksum());
            }
            let mine = parse_icmp(&d);
            let theirs = IcmpPacket::new(&d);
            assert_eq!(mine.is_some(), theirs.is_some());
            if let (Some(m), Some(t)) = (mine, theirs) {
                assert_eq!(m.icmp_type, t.get_icmp_type().0);
                assert_eq!(m.code, t.get_icmp_code().0);
                assert_eq!(m.checksum, t.get_checksum());
            }
        }
    }
}

#[test]
fn ipv4_fields_and_payload_agree_with_pnet() {
    for seed in 0..400 {
        for len in [0usize, 19, 20, 24, 28, 40, 60, 64, 90] {
            let mut d = bytes(seed, len);
            if len > 0 {
                // Mostly plausible header lengths, sometimes an impossible one.
                d[0] = 0x40 | (5 + (seed % 11) as u8);
                if seed % 13 == 0 {
                    d[0] = 0x43;
                }
            }
            if len > 9 {
                d[9] = [6u8, 17, 1, 58, 99][(seed % 5) as usize];
            }
            let mine = parse_ipv4(&d, Timestamp::unix_epoch(), eth(0x0800), 14 + len);
            match Ipv4Packet::new(&d) {
                None => assert!(mine.is_err()),
                Some(ip) => {
                    let header_len = ip.get_header_length() as usize * 4;
                    if header_len > d.len() {
                        assert!(mine.is_err());
                        continue;
                    }
                    let pkt = mine.expect("decodes");
                    let h = pkt.ipv4.unwrap();
                    assert_eq!(h.src_ip.to_string(), ip.get_source().to_string());
                    assert_eq!(h.dst_ip.to_string(), ip.get_destination().to_string());
                    assert_eq!(h.protocol, ip.get_next_level_protocol().0);
                    assert_eq!(h.ttl, ip.get_ttl());
                    assert_eq!(h.total_length, ip.get_total_length());
                    assert_eq!(h.identification, ip.get_identification());
                    assert_eq!(h.version, ip.get_version());
                    assert_eq!(h.ihl, ip.get_header_length());
                    assert_eq!(h.dscp, ip.get_dscp());
                    assert_eq!(h.ecn, ip.get_ecn());
                    assert_eq!(h.flags, ip.get_flags());
                    assert_eq!(h.fragment_offset, ip.get_fragment_offset());
                    let expected = parse_transport(ip.payload(), ip.get_next_level_protocol().0);
                    assert_eq!(format!("{:?}", pkt.transport), format!("{:?}", expected));
                    assert_eq!(pkt.raw_len, 14 + len);
                }
            }
        }
    }
}

#[test]
fn ipv6_fields_and_payload_agree_with_pnet() {
    for seed in 0..400 {
        for len in [0usize, 39, 40, 48, 60, 72, 100] {
            let mut d = bytes(seed, len);
            if len > 5 {
                // Payload lengths around what is there, so both short and long ones occur.
                let pl = (len as u16).saturating_sub(40) + (seed % 7) as u16;
                let pl = pl.saturating_sub(3);
                d[4] = (pl >> 8) as u8;
                d[5] = pl as u8;
            }
            if len > 6 {
                d[6] = [6u8, 17, 58, 0, 43, 44, 50, 51, 60, 200][(seed % 10) as usize];
            }
            let mine = parse_ipv6(&d, Timestamp::unix_epoch(), eth(0x86DD), 14 + len);
            match Ipv6Packet::new(&d) {
                None => assert!(mine.is_err()),
                Some(ip) => {
                    let pkt = mine.expect("decodes");
                    let h = pkt.ipv6.unwrap();
                    assert_eq!(h.src_ip.to_string(), ip.get_source().to_string());
                    assert_eq!(h.dst_ip.to_string(), ip.get_destination().to_string());
                    assert_eq!(h.next_header, ip.get_next_header().0);
                    assert_eq!(h.hop_limit, ip.get_hop_limit());
                    assert_eq!(h.payload_length, ip.get_payload_length());
                    assert_eq!(h.flow_label, ip.get_flow_label());
                    assert_eq!(h.traffic_class, ip.get_traffic_class());
                    let (proto, rest) = skip_ipv6_ext_headers(ip.payload(), ip.get_next_header().0);
                    let expected = if proto == u8::MAX {
                        None
                    } else {
                        parse_transport(rest, proto)
                    };
                    assert_eq!(format!("{:?}", pkt.transport), format!("{:?}", expected));
                }
            }
        }
    }
}

#[test]
fn ethernet_fields_agree_with_pnet() {
    for seed in 0..300 {
        for len in [0usize, 13, 14, 20, 34, 54, 60] {
            let mut d = bytes(seed, len);
            if len > 13 {
                let t = [0x0800u16, 0x86DD, 0x0806][(seed % 3) as usize];
                d[12] = (t >> 8) as u8;
                d[13] = t as u8;
            }
            let mine = parse_ethernet(&d, Timestamp::unix_epoch());
            match EthernetPacket::new(&d) {
                None => assert!(mine.is_err()),
                Some(e) => {
                    if let Ok(pkt) = mine {
                        let h = pkt.ethernet.unwrap();
                        assert_eq!(h.dst_mac, e.get_destination().octets());
                        assert_eq!(h.src_mac, e.get_source().octets());
                        assert_eq!(h.ethertype, e.get_ethertype().0);
                        assert_eq!(pkt.raw_len, len);
                    }
                }
            }
        }
    }
}
