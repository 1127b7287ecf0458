use stomper::api::TrafficStatistics;
use stomper::capture::parser::{Ipv4Header, ParsedPacket, TransportHeader, UdpHeader};
use stomper::net::Ipv4Addr;
use stomper::time::Timestamp;

#[test]
fn statistics_count_packet_protocol_and_bytes() {
    let mut statistics = TrafficStatistics::default();
    statistics.observe_packet(&ParsedPacket {
        timestamp: Timestamp::unix_epoch(),
        ethernet: None,
        ipv4: Some(Ipv4Header {
            src_ip: Ipv4Addr::new(127, 0, 0, 1),
            dst_ip: Ipv4Addr::new(127, 0, 0, 1),
            protocol: 17,
            ttl: 64,
            total_length: 28,
            identification: 0,
            version: 4,
            ihl: 5,
            dscp: 0,
            ecn: 0,
            flags: 0,
            fragment_offset: 0,
        }),
        ipv6: None,
        transport: Some(TransportHeader::Udp(UdpHeader {
            src_port: 1,
            dst_port: 2,
            length: 8,
            checksum: 0,
        })),
        raw_len: 42,
    });

    assert_eq!(statistics.packets_captured, 1);
    assert_eq!(statistics.bytes_captured, 42);
    assert_eq!(statistics.udp_packets, 1);
}
