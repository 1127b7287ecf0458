//! Decoding captured frames: Ethernet, IPv4, IPv6 (skipping extension headers), TCP, UDP and
//! ICMP headers, read straight from the bytes of the frame.
use vstd::prelude::*;

use crate::capture::{CaptureError, Linktype};
use crate::net::{Ipv4Addr, Ipv6Addr, be_value, lemma_be_value_bound, pow256};
use crate::text::{decimal, push_decimal, push_str};
use crate::time::{Timestamp, capture_time, capture_time_ok, tv_to_systemtime};

verus! {

/// A decoded frame: the headers that were recognised, when it was captured and how long it was.
#[derive(Debug, Clone)]
pub struct ParsedPacket {
    pub timestamp: Timestamp,
    pub ethernet: Option<EthernetHeader>,
    pub ipv4: Option<Ipv4Header>,
    pub ipv6: Option<Ipv6Header>,
    pub transport: Option<TransportHeader>,
    pub raw_len: usize,
}

#[derive(Debug, Clone, Copy)]
pub struct EthernetHeader {
    pub dst_mac: [u8; 6],
    pub src_mac: [u8; 6],
    pub ethertype: u16,
}

#[derive(Debug, Clone, Copy)]
pub struct Ipv4Header {
    pub src_ip: Ipv4Addr,
    pub dst_ip: Ipv4Addr,
    pub protocol: u8,
    pub ttl: u8,
    pub total_length: u16,
    pub identification: u16,
    pub version: u8,
    pub ihl: u8,
    pub dscp: u8,
    pub ecn: u8,
    pub flags: u8,
    pub fragment_offset: u16,
}

#[derive(Debug, Clone, Copy)]
pub struct Ipv6Header {
    pub src_ip: Ipv6Addr,
    pub dst_ip: Ipv6Addr,
    pub next_header: u8,
    pub hop_limit: u8,
    pub payload_length: u16,
    pub flow_label: u32,
    pub traffic_class: u8,
}

#[derive(Debug, Clone, Copy)]
pub enum TransportHeader {
    Tcp(TcpHeader),
    Udp(UdpHeader),
    Icmp(IcmpHeader),
    Unknown(u8),
}

#[derive(Debug, Clone, Copy)]
pub struct TcpHeader {
    pub src_port: u16,
    pub dst_port: u16,
    pub sequence_number: u32,
    pub acknowledgment_number: u32,
    pub data_offset: u8,
    pub flags: TcpFlags,
    pub window_size: u16,
    pub checksum: u16,
    pub urgent_pointer: u16,
}

#[derive(Debug, Clone, Copy, Default)]
pub struct TcpFlags {
    pub fin: bool,
    pub syn: bool,
    pub rst: bool,
    pub psh: bool,
    pub ack: bool,
    pub urg: bool,
    pub ece: bool,
    pub cwr: bool,
    pub ns: bool,
}

#[derive(Debug, Clone, Copy)]
pub struct UdpHeader {
    pub src_port: u16,
    pub dst_port: u16,
    pub length: u16,
    pub checksum: u16,
}

#[derive(Debug, Clone, Copy)]
pub struct IcmpHeader {
    pub icmp_type: u8,
    pub code: u8,
    pub checksum: u16,
}

pub const ETHERNET_HEADER_LEN: usize = 14;

pub const IPV4_MIN_HEADER_LEN: usize = 20;

pub const IPV6_HEADER_LEN: usize = 40;

pub const ETHERTYPE_IPV4: u16 = 0x0800;

pub const ETHERTYPE_IPV6: u16 = 0x86DD;

pub const IPV6_EXT_HOP_BY_HOP: u8 = 0;

pub const IPV6_EXT_ROUTING: u8 = 43;

pub const IPV6_EXT_FRAGMENT: u8 = 44;

pub const IPV6_EXT_AUTH: u8 = 51;

pub const IPV6_ESP: u8 = 50;

pub const IPV6_EXT_DEST_OPTS: u8 = 60;

/// The protocol number that stands for "no transport header can be read": a fragment after the
/// first, or an encrypted payload.
pub const NO_TRANSPORT: u8 = 255;

/// The big-endian 16-bit number at byte `i`.
pub open spec fn be16(s: Seq<u8>, i: int) -> int {
    s[i] * 256 + s[i + 1]
}

/// The big-endian 16-bit number at byte `i`, as a `u16`.
pub open spec fn be16_u16(s: Seq<u8>, i: int) -> u16 {
    be16(s, i) as u16
}

/// The big-endian 32-bit number at byte `i`.
pub open spec fn be32(s: Seq<u8>, i: int) -> int {
    be16(s, i) * 65536 + be16(s, i + 2)
}

/// `h` holds the destination MAC, source MAC and EtherType at the start of `s`.
pub open spec fn ethernet_header_of(h: EthernetHeader, s: Seq<u8>) -> bool {
    &&& h.dst_mac@ == s.subrange(0, 6)
    &&& h.src_mac@ == s.subrange(6, 12)
    &&& h.ethertype == be16(s, 12)
}

/// What follows the Ethernet header.
pub open spec fn ethernet_payload(s: Seq<u8>) -> Seq<u8> {
    if s.len() <= ETHERNET_HEADER_LEN {
        Seq::empty()
    } else {
        s.subrange(ETHERNET_HEADER_LEN as int, s.len() as int)
    }
}

/// The IPv4 header fields at the start of `s` (at least 20 bytes).
pub open spec fn spec_ipv4_header(s: Seq<u8>) -> Ipv4Header {
    Ipv4Header {
        src_ip: Ipv4Addr(be_value(s.subrange(12, 16)) as u32),
        dst_ip: Ipv4Addr(be_value(s.subrange(16, 20)) as u32),
        protocol: s[9],
        ttl: s[8],
        total_length: be16(s, 2) as u16,
        identification: be16(s, 4) as u16,
        version: s[0] >> 4u8,
        ihl: s[0] & 0x0fu8,
        dscp: s[1] >> 2u8,
        ecn: s[1] & 0x03u8,
        flags: s[6] >> 5u8,
        fragment_offset: (be16(s, 6) % 8192) as u16,
    }
}

/// The IPv4 header length in bytes, as the header states it.
pub open spec fn ipv4_header_len(s: Seq<u8>) -> int {
    (s[0] & 0x0fu8) * 4
}

/// What follows the IPv4 header: from the end of the header (never before byte 20) up to the
/// total length the header states, cut at the end of the data.
pub open spec fn ipv4_payload(s: Seq<u8>) -> Seq<u8> {
    let h = ipv4_header_len(s);
    let start = if h < 20 {
        20
    } else {
        h
    };
    let body = if be16(s, 2) > h {
        be16(s, 2) - h
    } else {
        0
    };
    let end = if start + body < s.len() {
        start + body
    } else {
        s.len() as int
    };
    if s.len() <= start {
        Seq::empty()
    } else {
        s.subrange(start, end)
    }
}

/// The IPv6 fixed header fields at the start of `s` (at least 40 bytes).
pub open spec fn spec_ipv6_header(s: Seq<u8>) -> Ipv6Header {
    Ipv6Header {
        src_ip: Ipv6Addr(be_value(s.subrange(8, 24)) as u128),
        dst_ip: Ipv6Addr(be_value(s.subrange(24, 40)) as u128),
        next_header: s[6],
        hop_limit: s[7],
        payload_length: be16(s, 4) as u16,
        flow_label: ((s[1] & 0x0fu8) * 65536 + s[2] * 256 + s[3]) as u32,
        traffic_class: ((s[0] & 0x0fu8) * 16 + (s[1] >> 4u8)) as u8,
    }
}

/// What follows the IPv6 fixed header, up to the payload length it states.
pub open spec fn ipv6_payload(s: Seq<u8>) -> Seq<u8> {
    let end = if 40 + be16(s, 4) < s.len() {
        40 + be16(s, 4)
    } else {
        s.len() as int
    };
    if s.len() <= 40 {
        Seq::empty()
    } else {
        s.subrange(40, end)
    }
}

/// Walks the IPv6 extension headers at the start of `s`, the first of kind `nh`. Returns the
/// protocol of what follows them and how many bytes they take. Hop-by-hop, routing and
/// destination options headers take (length + 1) * 8 bytes, an authentication header
/// (length + 2) * 4; a fragment header takes 8, and when it is not the first fragment the walk
/// stops with `NO_TRANSPORT`, as it does at an encrypted payload. A header that does not fit
/// stops the walk where it starts.
pub open spec fn ext_walk(s: Seq<u8>, nh: u8) -> (u8, int)
    decreases s.len(),
{
    if nh == IPV6_EXT_HOP_BY_HOP || nh == IPV6_EXT_ROUTING || nh == IPV6_EXT_DEST_OPTS {
        if s.len() < 2 {
            (nh, 0)
        } else {
            let total = (s[1] + 1) * 8;
            if total > s.len() {
                (nh, 0)
            } else {
                let w = ext_walk(s.subrange(total, s.len() as int), s[0]);
                (w.0, total + w.1)
            }
        }
    } else if nh == IPV6_EXT_FRAGMENT {
        if s.len() < 8 {
            (nh, 0)
        } else {
            let frag_off = (be16(s, 2) / 8) % 8192;
            let more = s[3] & 0x01u8 != 0;
            if frag_off != 0 || more {
                (NO_TRANSPORT, 8)
            } else {
                let w = ext_walk(s.subrange(8, s.len() as int), s[0]);
                (w.0, 8 + w.1)
            }
        }
    } else if nh == IPV6_EXT_AUTH {
        if s.len() < 4 {
            (nh, 0)
        } else {
            let total = (s[1] + 2) * 4;
            if total > s.len() {
                (nh, 0)
            } else {
                let w = ext_walk(s.subrange(total, s.len() as int), s[0]);
                (w.0, total + w.1)
            }
        }
    } else if nh == IPV6_ESP {
        (NO_TRANSPORT, 0)
    } else {
        (nh, 0)
    }
}

/// The extension headers never take more than the data holds.
pub proof fn lemma_ext_walk_within(s: Seq<u8>, nh: u8)
    ensures
        0 <= ext_walk(s, nh).1 <= s.len(),
    decreases s.len(),
{
    if nh == IPV6_EXT_HOP_BY_HOP || nh == IPV6_EXT_ROUTING || nh == IPV6_EXT_DEST_OPTS {
        if s.len() >= 2 {
            let total = (s[1] + 1) * 8;
            if total <= s.len() {
                lemma_ext_walk_within(s.subrange(total, s.len() as int), s[0]);
            }
        }
    } else if nh == IPV6_EXT_FRAGMENT {
        if s.len() >= 8 {
            lemma_ext_walk_within(s.subrange(8, s.len() as int), s[0]);
        }
    } else if nh == IPV6_EXT_AUTH {
        if s.len() >= 4 {
            let total = (s[1] + 2) * 4;
            if total <= s.len() {
                lemma_ext_walk_within(s.subrange(total, s.len() as int), s[0]);
            }
        }
    }
}

pub open spec fn spec_tcp_flags(b12: u8, b13: u8) -> TcpFlags {
    TcpFlags {
        fin: b13 & 0x01u8 != 0,
        syn: b13 & 0x02u8 != 0,
        rst: b13 & 0x04u8 != 0,
        psh: b13 & 0x08u8 != 0,
        ack: b13 & 0x10u8 != 0,
        urg: b13 & 0x20u8 != 0,
        ece: b13 & 0x40u8 != 0,
        cwr: b13 & 0x80u8 != 0,
        ns: b12 & 0x01u8 != 0,
    }
}

/// The TCP header at the start of `s`, when there are the 20 bytes of one.
pub open spec fn spec_tcp(s: Seq<u8>) -> Option<TcpHeader> {
    if s.len() < 20 {
        None
    } else {
        Some(
            TcpHeader {
                src_port: be16(s, 0) as u16,
                dst_port: be16(s, 2) as u16,
                sequence_number: be32(s, 4) as u32,
                acknowledgment_number: be32(s, 8) as u32,
                data_offset: ((s[12] >> 4u8) * 4) as u8,
                flags: spec_tcp_flags(s[12], s[13]),
                window_size: be16(s, 14) as u16,
                checksum: be16(s, 16) as u16,
                urgent_pointer: be16(s, 18) as u16,
            },
        )
    }
}

/// The UDP header at the start of `s`, when there are the 8 bytes of one.
pub open spec fn spec_udp(s: Seq<u8>) -> Option<UdpHeader> {
    if s.len() < 8 {
        None
    } else {
        Some(
            UdpHeader {
                src_port: be16(s, 0) as u16,
                dst_port: be16(s, 2) as u16,
                length: be16(s, 4) as u16,
                checksum: be16(s, 6) as u16,
            },
        )
    }
}

/// The ICMP (or ICMPv6) header at the start of `s`, when there are the 4 bytes of one.
pub open spec fn spec_icmp(s: Seq<u8>) -> Option<IcmpHeader> {
    if s.len() < 4 {
        None
    } else {
        Some(IcmpHeader { icmp_type: s[0], code: s[1], checksum: be16_u16(s, 2) })
    }
}

/// The transport header of protocol `protocol` at the start of `s`: TCP (6), UDP (17),
/// ICMP (1) or ICMPv6 (58), `None` when too short for its kind, and `Unknown` for any other
/// protocol.
pub open spec fn spec_transport(s: Seq<u8>, protocol: u8) -> Option<TransportHeader> {
    if protocol == 6 {
        match spec_tcp(s) {
            Some(h) => Some(TransportHeader::Tcp(h)),
            None => None,
        }
    } else if protocol == 17 {
        match spec_udp(s) {
            Some(h) => Some(TransportHeader::Udp(h)),
            None => None,
        }
    } else if protocol == 1 || protocol == 58 {
        match spec_icmp(s) {
            Some(h) => Some(TransportHeader::Icmp(h)),
            None => None,
        }
    } else {
        Some(TransportHeader::Unknown(protocol))
    }
}

/// The message of an IPv4 header whose stated length exceeds the data.
pub open spec fn ipv4_length_message(header_len: nat, got: nat) -> Seq<char> {
    "IPv4 header length "@ + decimal(header_len) + " exceeds packet size "@ + decimal(got)
}

/// What decoding `s` as an IPv4 packet gives.
pub open spec fn ipv4_outcome(
    r: Result<ParsedPacket, CaptureError>,
    s: Seq<u8>,
    timestamp: Timestamp,
    ethernet: EthernetHeader,
    captured_len: usize,
) -> bool {
    if s.len() < IPV4_MIN_HEADER_LEN {
        r == Err::<ParsedPacket, CaptureError>(
            CaptureError::PacketTooShort { needed: IPV4_MIN_HEADER_LEN, got: s.len() as usize },
        )
    } else if ipv4_header_len(s) > s.len() {
        r matches Err(CaptureError::Parse(m)) && m@ == ipv4_length_message(
            ipv4_header_len(s) as nat,
            s.len(),
        )
    } else {
        r == Ok::<ParsedPacket, CaptureError>(
            ParsedPacket {
                timestamp,
                ethernet: Some(ethernet),
                ipv4: Some(spec_ipv4_header(s)),
                ipv6: None,
                transport: spec_transport(ipv4_payload(s), s[9]),
                raw_len: captured_len,
            },
        )
    }
}

/// The transport header after the IPv6 extension headers of a payload whose first header is
/// of kind `nh`; none when the walk ends at `NO_TRANSPORT`.
pub open spec fn ipv6_transport(payload: Seq<u8>, nh: u8) -> Option<TransportHeader> {
    let w = ext_walk(payload, nh);
    if w.0 == NO_TRANSPORT {
        None
    } else {
        spec_transport(payload.subrange(w.1, payload.len() as int), w.0)
    }
}

/// What decoding `s` as an IPv6 packet gives.
pub open spec fn ipv6_outcome(
    r: Result<ParsedPacket, CaptureError>,
    s: Seq<u8>,
    timestamp: Timestamp,
    ethernet: EthernetHeader,
    captured_len: usize,
) -> bool {
    if s.len() < IPV6_HEADER_LEN {
        r == Err::<ParsedPacket, CaptureError>(
            CaptureError::PacketTooShort { needed: IPV6_HEADER_LEN, got: s.len() as usize },
        )
    } else {
        r == Ok::<ParsedPacket, CaptureError>(
            ParsedPacket {
                timestamp,
                ethernet: Some(ethernet),
                ipv4: None,
                ipv6: Some(spec_ipv6_header(s)),
                transport: ipv6_transport(ipv6_payload(s), s[6]),
                raw_len: captured_len,
            },
        )
    }
}

/// What decoding `s` as an Ethernet frame gives: too short below 14 bytes; otherwise the
/// Ethernet header followed by an IPv4 or IPv6 packet, or by nothing decoded for any other
/// EtherType.
pub open spec fn ethernet_outcome(
    r: Result<ParsedPacket, CaptureError>,
    s: Seq<u8>,
    timestamp: Timestamp,
) -> bool {
    if s.len() < ETHERNET_HEADER_LEN {
        r == Err::<ParsedPacket, CaptureError>(
            CaptureError::PacketTooShort { needed: ETHERNET_HEADER_LEN, got: s.len() as usize },
        )
    } else {
        exists|e: EthernetHeader|
            {
                &&& #[trigger] ethernet_header_of(e, s)
                &&& if be16(s, 12) == ETHERTYPE_IPV4 {
                    ipv4_outcome(r, ethernet_payload(s), timestamp, e, s.len() as usize)
                } else if be16(s, 12) == ETHERTYPE_IPV6 {
                    ipv6_outcome(r, ethernet_payload(s), timestamp, e, s.len() as usize)
                } else {
                    r == Ok::<ParsedPacket, CaptureError>(
                        ParsedPacket {
                            timestamp,
                            ethernet: Some(e),
                            ipv4: None,
                            ipv6: None,
                            transport: None,
                            raw_len: s.len() as usize,
                        },
                    )
                }
            }
    }
}

/// Reads the big-endian 16-bit number at byte `i`.
fn read_be16(data: &[u8], i: usize) -> (r: u16)
    requires
        i + 2 <= data@.len(),
    ensures
        r == be16(data@, i as int),
{
    (data[i] as u16) * 256 + (data[i + 1] as u16)
}

/// Reads the big-endian 32-bit number at byte `i`.
fn read_be32(data: &[u8], i: usize) -> (r: u32)
    requires
        i + 4 <= data@.len(),
    ensures
        r == be32(data@, i as int),
{
    let len = data.len();
    assert(i + 4 <= len);
    let hi = read_be16(data, i);
    let lo = read_be16(data, i + 2);
    (hi as u32) * 65536 + (lo as u32)
}

/// Reads the big-endian number spelled by `len` bytes from byte `at`, for at most 16 bytes.
fn read_be_value(data: &[u8], at: usize, len: usize) -> (r: u128)
    requires
        at + len <= data@.len(),
        len <= 16,
    ensures
        r == be_value(data@.subrange(at as int, at + len)),
{
    let data_len = data.len();
    let mut acc: u128 = 0;
    let mut i: usize = 0;
    proof {
        reveal_with_fuel(pow256, 17);
        assert(data@.subrange(at as int, at as int) =~= Seq::<u8>::empty());
    }
    while i < len
        invariant
            at + len <= data@.len(),
            len <= 16,
            i <= len,
            acc == be_value(data@.subrange(at as int, at + i)),
            pow256(16) == 0x1_0000_0000_0000_0000_0000_0000_0000_0000,
            data_len == data@.len(),
        decreases len - i,
    {
        let ghost prefix = data@.subrange(at as int, at + i);
        let ghost next = data@.subrange(at as int, at + i + 1);
        proof {
            assert(next.drop_last() =~= prefix);
            lemma_be_value_bound(next);
            lemma_pow256_grows((i + 1) as nat, 16);
        }
        acc = acc * 256 + data[at + i] as u128;
        i = i + 1;
    }
    acc
}

proof fn lemma_pow256_grows(a: nat, b: nat)
    requires
        a <= b,
    ensures
        pow256(a) <= pow256(b),
    decreases b,
{
    if a < b {
        lemma_pow256_grows(a, (b - 1) as nat);
    }
}

fn read_ipv4_addr(data: &[u8], at: usize) -> (r: Ipv4Addr)
    requires
        at + 4 <= data@.len(),
    ensures
        r.0 == be_value(data@.subrange(at as int, at + 4)),
{
    let v = read_be_value(data, at, 4);
    proof {
        lemma_be_value_bound(data@.subrange(at as int, at + 4));
        reveal_with_fuel(pow256, 5);
    }
    Ipv4Addr(v as u32)
}

fn read_ipv6_addr(data: &[u8], at: usize) -> (r: Ipv6Addr)
    requires
        at + 16 <= data@.len(),
    ensures
        r.0 == be_value(data@.subrange(at as int, at + 16)),
{
    Ipv6Addr(read_be_value(data, at, 16))
}

/// Walks the IPv6 extension headers at the start of `data`, the first of kind `next_header`,
/// and returns the protocol of what follows them together with the rest of the data.
pub fn skip_ipv6_ext_headers(data: &[u8], next_header: u8) -> (r: (u8, &[u8]))
    ensures
        r.0 == ext_walk(data@, next_header).0,
        r.1@ == data@.subrange(ext_walk(data@, next_header).1, data@.len() as int),
{
    let n = data.len();
    let mut off: usize = 0;
    let mut nh = next_header;
    proof {
        assert(data@.subrange(0, n as int) =~= data@);
    }
    loop
        invariant
            n == data@.len(),
            off <= n,
            ext_walk(data@, next_header) == ({
                let w = ext_walk(data@.subrange(off as int, n as int), nh);
                (w.0, off + w.1)
            }),
        decreases n - off,
    {
        let rest: &[u8] = &data[off..n];
        let ghost s = rest@;
        proof {
            lemma_ext_walk_within(s, nh);
        }
        if nh == IPV6_EXT_HOP_BY_HOP || nh == IPV6_EXT_ROUTING || nh == IPV6_EXT_DEST_OPTS {
            if rest.len() < 2 {
                return (nh, rest);
            }
            let total = (rest[1] as usize + 1) * 8;
            if total > rest.len() {
                return (nh, rest);
            }
            proof {
                assert(data@.subrange(off + total, n as int) =~= s.subrange(
                    total as int,
                    s.len() as int,
                ));
            }
            nh = rest[0];
            off = off + total;
        } else if nh == IPV6_EXT_FRAGMENT {
            if rest.len() < 8 {
                return (nh, rest);
            }
            let frag_off = (read_be16(rest, 2) / 8) % 8192;
            let more = rest[3] & 0x01 != 0;
            proof {
                assert(data@.subrange(off + 8, n as int) =~= s.subrange(8, s.len() as int));
            }
            nh = rest[0];
            off = off + 8;
            if frag_off != 0 || more {
                return (NO_TRANSPORT, &data[off..n]);
            }
        } else if nh == IPV6_EXT_AUTH {
            if rest.len() < 4 {
                return (nh, rest);
            }
            let total = (rest[1] as usize + 2) * 4;
            if total > rest.len() {
                return (nh, rest);
            }
            proof {
                assert(data@.subrange(off + total, n as int) =~= s.subrange(
                    total as int,
                    s.len() as int,
                ));
            }
            nh = rest[0];
            off = off + total;
        } else if nh == IPV6_ESP {
            return (NO_TRANSPORT, rest);
        } else {
            return (nh, rest);
        }
    }
}

/// Decodes the TCP header at the start of `data`; `None` when it is shorter than 20 bytes.
pub fn parse_tcp(data: &[u8]) -> (r: Option<TcpHeader>)
    ensures
        r == spec_tcp(data@),
{
    if data.len() < 20 {
        return None;
    }
    let raw_flags = data[13];
    let b12 = data[12];
    let ns = b12 & 0x01 != 0;
    let flags = TcpFlags {
        fin: raw_flags & 0x01 != 0,
        syn: raw_flags & 0x02 != 0,
        rst: raw_flags & 0x04 != 0,
        psh: raw_flags & 0x08 != 0,
        ack: raw_flags & 0x10 != 0,
        urg: raw_flags & 0x20 != 0,
        ece: raw_flags & 0x40 != 0,
        cwr: raw_flags & 0x80 != 0,
        ns,
    };
    let offset_words = b12 >> 4;
    assert(b12 >> 4u8 <= 15) by (bit_vector);
    Some(
        TcpHeader {
            src_port: read_be16(data, 0),
            dst_port: read_be16(data, 2),
            sequence_number: read_be32(data, 4),
            acknowledgment_number: read_be32(data, 8),
            data_offset: offset_words * 4,
            flags,
            window_size: read_be16(data, 14),
            checksum: read_be16(data, 16),
            urgent_pointer: read_be16(data, 18),
        },
    )
}

/// Decodes the UDP header at the start of `data`; `None` when it is shorter than 8 bytes.
pub fn parse_udp(data: &[u8]) -> (r: Option<UdpHeader>)
    ensures
        r == spec_udp(data@),
{
    if data.len() < 8 {
        return None;
    }
    Some(
        UdpHeader {
            src_port: read_be16(data, 0),
            dst_port: read_be16(data, 2),
            length: read_be16(data, 4),
            checksum: read_be16(data, 6),
        },
    )
}

/// Decodes the ICMP or ICMPv6 header at the start of `data`; `None` when it is shorter than 4
/// bytes.
pub fn parse_icmp(data: &[u8]) -> (r: Option<IcmpHeader>)
    ensures
        r == spec_icmp(data@),
{
    if data.len() < 4 {
        return None;
    }
    Some(IcmpHeader { icmp_type: data[0], code: data[1], checksum: read_be16(data, 2) })
}

/// Decodes the transport header of protocol `protocol` at the start of `data`.
pub fn parse_transport(data: &[u8], protocol: u8) -> (r: Option<TransportHeader>)
    ensures
        r == spec_transport(data@, protocol),
{
    if protocol == 6 {
        match parse_tcp(data) {
            Some(h) => Some(TransportHeader::Tcp(h)),
            None => None,
        }
    } else if protocol == 17 {
        match parse_udp(data) {
            Some(h) => Some(TransportHeader::Udp(h)),
            None => None,
        }
    } else if protocol == 1 || protocol == 58 {
        match parse_icmp(data) {
            Some(h) => Some(TransportHeader::Icmp(h)),
            None => None,
        }
    } else {
        Some(TransportHeader::Unknown(protocol))
    }
}

/// Decodes an IPv4 packet that followed the Ethernet header `ethernet` in a frame of
/// `captured_len` bytes.
pub fn parse_ipv4(
    data: &[u8],
    timestamp: Timestamp,
    ethernet: EthernetHeader,
    captured_len: usize,
) -> (r: Result<ParsedPacket, CaptureError>)
    ensures
        ipv4_outcome(r, data@, timestamp, ethernet, captured_len),
{
    let n = data.len();
    if n < IPV4_MIN_HEADER_LEN {
        return Err(CaptureError::PacketTooShort { needed: IPV4_MIN_HEADER_LEN, got: n });
    }
    let ihl = data[0] & 0x0f;
    let header_len = (ihl as usize) * 4;
    if header_len > n {
        let mut m = String::new();
        push_str(&mut m, "IPv4 header length ");
        push_decimal(&mut m, header_len as u64);
        push_str(&mut m, " exceeds packet size ");
        push_decimal(&mut m, n as u64);
        return Err(CaptureError::Parse(m));
    }
    let total_length = read_be16(data, 2);
    let frag = read_be16(data, 6);
    let ipv4 = Ipv4Header {
        src_ip: read_ipv4_addr(data, 12),
        dst_ip: read_ipv4_addr(data, 16),
        protocol: data[9],
        ttl: data[8],
        total_length,
        identification: read_be16(data, 4),
        version: data[0] >> 4,
        ihl,
        dscp: data[1] >> 2,
        ecn: data[1] & 0x03,
        flags: data[6] >> 5,
        fragment_offset: frag % 8192,
    };
    // Payload bounds: from the end of the header (at least the fixed 20 bytes) to the stated
    // total length, cut at the end of the data.
    let start: usize = if header_len < 20 {
        20
    } else {
        header_len
    };
    let body: usize = if (total_length as usize) > header_len {
        total_length as usize - header_len
    } else {
        0
    };
    let end: usize = if start + body < n {
        start + body
    } else {
        n
    };
    let payload: &[u8] = if n <= start {
        &data[0..0]
    } else {
        &data[start..end]
    };
    assert(payload@ =~= ipv4_payload(data@));
    let transport = parse_transport(payload, data[9]);
    Ok(
        ParsedPacket {
            timestamp,
            ethernet: Some(ethernet),
            ipv4: Some(ipv4),
            ipv6: None,
            transport,
            raw_len: captured_len,
        },
    )
}

/// Decodes an IPv6 packet that followed the Ethernet header `ethernet` in a frame of
/// `captured_len` bytes, skipping extension headers to find the transport header.
pub fn parse_ipv6(
    data: &[u8],
    timestamp: Timestamp,
    ethernet: EthernetHeader,
    captured_len: usize,
) -> (r: Result<ParsedPacket, CaptureError>)
    ensures
        ipv6_outcome(r, data@, timestamp, ethernet, captured_len),
{
    let n = data.len();
    if n < IPV6_HEADER_LEN {
        return Err(CaptureError::PacketTooShort { needed: IPV6_HEADER_LEN, got: n });
    }
    let payload_length = read_be16(data, 4);
    let b0 = data[0];
    let b1 = data[1];
    let b2 = data[2];
    let b3 = data[3];
    assert(b1 & 0x0fu8 <= 15 && b0 & 0x0fu8 <= 15 && b1 >> 4u8 <= 15) by (bit_vector);
    let ipv6 = Ipv6Header {
        src_ip: read_ipv6_addr(data, 8),
        dst_ip: read_ipv6_addr(data, 24),
        next_header: data[6],
        hop_limit: data[7],
        payload_length,
        flow_label: ((b1 & 0x0f) as u32) * 65536 + (b2 as u32) * 256 + (b3 as u32),
        traffic_class: (b0 & 0x0f) * 16 + (b1 >> 4),
    };
    let end: usize = if 40 + (payload_length as usize) < n {
        40 + payload_length as usize
    } else {
        n
    };
    let payload: &[u8] = if n <= 40 {
        &data[0..0]
    } else {
        &data[40..end]
    };
    assert(payload@ =~= ipv6_payload(data@));
    let (final_protocol, transport_payload) = skip_ipv6_ext_headers(payload, data[6]);
    let transport = if final_protocol == NO_TRANSPORT {
        None
    } else {
        parse_transport(transport_payload, final_protocol)
    };
    Ok(
        ParsedPacket {
            timestamp,
            ethernet: Some(ethernet),
            ipv4: None,
            ipv6: Some(ipv6),
            transport,
            raw_len: captured_len,
        },
    )
}

/// Decodes an Ethernet frame and the IPv4 or IPv6 packet it carries.
pub fn parse_ethernet(data: &[u8], timestamp: Timestamp) -> (r: Result<ParsedPacket, CaptureError>)
    ensures
        ethernet_outcome(r, data@, timestamp),
{
    let n = data.len();
    if n < ETHERNET_HEADER_LEN {
        return Err(CaptureError::PacketTooShort { needed: ETHERNET_HEADER_LEN, got: n });
    }
    let ethernet = EthernetHeader {
        dst_mac: [data[0], data[1], data[2], data[3], data[4], data[5]],
        src_mac: [data[6], data[7], data[8], data[9], data[10], data[11]],
        ethertype: read_be16(data, 12),
    };
    assert(ethernet.dst_mac@ =~= data@.subrange(0, 6));
    assert(ethernet.src_mac@ =~= data@.subrange(6, 12));
    assert(ethernet_header_of(ethernet, data@));
    let payload: &[u8] = if n <= ETHERNET_HEADER_LEN {
        &data[0..0]
    } else {
        &data[ETHERNET_HEADER_LEN..n]
    };
    assert(payload@ =~= ethernet_payload(data@));
    if ethernet.ethertype == ETHERTYPE_IPV4 {
        parse_ipv4(payload, timestamp, ethernet, n)
    } else if ethernet.ethertype == ETHERTYPE_IPV6 {
        parse_ipv6(payload, timestamp, ethernet, n)
    } else {
        Ok(
            ParsedPacket {
                timestamp,
                ethernet: Some(ethernet),
                ipv4: None,
                ipv6: None,
                transport: None,
                raw_len: n,
            },
        )
    }
}

/// Decodes a captured frame of link type `link_type`, captured at `tv_sec` seconds and
/// `tv_usec` microseconds. Only Ethernet frames are decoded.
pub fn parse_packet(data: &[u8], link_type: Linktype, tv_sec: i64, tv_usec: i64) -> (r: Result<
    ParsedPacket,
    CaptureError,
>)
    requires
        capture_time_ok(tv_sec, tv_usec),
    ensures
        link_type.0 == Linktype::ETHERNET_CODE ==> ethernet_outcome(
            r,
            data@,
            capture_time(tv_sec, tv_usec),
        ),
        link_type.0 != Linktype::ETHERNET_CODE ==> r == Err::<ParsedPacket, CaptureError>(
            CaptureError::UnsupportedLinkType(link_type),
        ),
{
    let timestamp = tv_to_systemtime(tv_sec, tv_usec);
    if link_type.0 == Linktype::ETHERNET_CODE {
        parse_ethernet(data, timestamp)
    } else {
        Err(CaptureError::UnsupportedLinkType(link_type))
    }
}

/// Every frame that decodes keeps its captured length and its capture time, carries its
/// Ethernet header, and carries at most one of an IPv4 and an IPv6 header.
pub proof fn lemma_decoded_frame_shape(
    r: Result<ParsedPacket, CaptureError>,
    s: Seq<u8>,
    timestamp: Timestamp,
)
    requires
        ethernet_outcome(r, s, timestamp),
    ensures
        r matches Ok(p) ==> {
            &&& p.raw_len == s.len() as usize
            &&& p.timestamp == timestamp
            &&& p.ethernet is Some
            &&& !(p.ipv4 is Some && p.ipv6 is Some)
        },
        r is Err <==> s.len() < ETHERNET_HEADER_LEN || (be16(s, 12) == ETHERTYPE_IPV4
            && ethernet_payload(s).len() < IPV4_MIN_HEADER_LEN) || (be16(s, 12) == ETHERTYPE_IPV4
            && ethernet_payload(s).len() >= IPV4_MIN_HEADER_LEN && ipv4_header_len(
            ethernet_payload(s),
        ) > ethernet_payload(s).len()) || (be16(s, 12) == ETHERTYPE_IPV6 && ethernet_payload(
            s,
        ).len() < IPV6_HEADER_LEN),
{
}

/// The Ethernet header of a frame is fixed by its first fourteen bytes.
proof fn lemma_ethernet_header_unique(e1: EthernetHeader, e2: EthernetHeader, s: Seq<u8>)
    requires
        ethernet_header_of(e1, s),
        ethernet_header_of(e2, s),
    ensures
        e1 == e2,
{
    assert forall|i: int| 0 <= i < 6 implies e1.dst_mac[i] == e2.dst_mac[i] by {
        assert(e1.dst_mac@[i] == e2.dst_mac@[i]);
    }
    assert forall|i: int| 0 <= i < 6 implies e1.src_mac[i] == e2.src_mac[i] by {
        assert(e1.src_mac@[i] == e2.src_mac@[i]);
    }
    assert(e1.dst_mac =~= e2.dst_mac);
    assert(e1.src_mac =~= e2.src_mac);
}

/// Decoding an IPv4 or IPv6 Ethernet frame gives what decoding the bytes after its Ethernet
/// header as that kind of IP packet gives, carrying that header and the frame's length: the
/// same packet, or an error exactly when that decoding fails (for IPv6 the very same error).
pub proof fn lemma_ethernet_decodes_ip_payload(
    r: Result<ParsedPacket, CaptureError>,
    s: Seq<u8>,
    timestamp: Timestamp,
    e: EthernetHeader,
    r2: Result<ParsedPacket, CaptureError>,
)
    requires
        ethernet_outcome(r, s, timestamp),
        s.len() >= ETHERNET_HEADER_LEN,
        ethernet_header_of(e, s),
    ensures
        be16(s, 12) == ETHERTYPE_IPV4 && ipv4_outcome(
            r2,
            ethernet_payload(s),
            timestamp,
            e,
            s.len() as usize,
        ) ==> (r2 is Ok ==> r == r2) && (r2 is Err ==> r is Err),
        be16(s, 12) == ETHERTYPE_IPV6 && ipv6_outcome(
            r2,
            ethernet_payload(s),
            timestamp,
            e,
            s.len() as usize,
        ) ==> r == r2,
{
    let e1 = choose|e1: EthernetHeader|
        {
            &&& #[trigger] ethernet_header_of(e1, s)
            &&& if be16(s, 12) == ETHERTYPE_IPV4 {
                ipv4_outcome(r, ethernet_payload(s), timestamp, e1, s.len() as usize)
            } else if be16(s, 12) == ETHERTYPE_IPV6 {
                ipv6_outcome(r, ethernet_payload(s), timestamp, e1, s.len() as usize)
            } else {
                r == Ok::<ParsedPacket, CaptureError>(
                    ParsedPacket {
                        timestamp,
                        ethernet: Some(e1),
                        ipv4: None,
                        ipv6: None,
                        transport: None,
                        raw_len: s.len() as usize,
                    },
                )
            }
        };
    lemma_ethernet_header_unique(e1, e, s);
}

/// An IPv6 packet whose next header is TCP, with no extension header and a payload length
/// that covers a TCP header, carries that TCP header: its ports are the big-endian numbers at
/// bytes 40 and 42, and its flags are the bits of byte 53.
pub proof fn lemma_ipv6_carries_tcp(
    r: Result<ParsedPacket, CaptureError>,
    s: Seq<u8>,
    timestamp: Timestamp,
    e: EthernetHeader,
    n: usize,
)
    requires
        ipv6_outcome(r, s, timestamp, e, n),
        s.len() >= 60,
        s[6] == 6,
        s[4] * 256 + s[5] >= 20,
    ensures
        r matches Ok(p) && p.transport matches Some(TransportHeader::Tcp(h)) && {
            &&& h.src_port == s[40] * 256 + s[41]
            &&& h.dst_port == s[42] * 256 + s[43]
            &&& h.flags.fin == (s[53] & 0x01u8 != 0)
            &&& h.flags.syn == (s[53] & 0x02u8 != 0)
            &&& h.flags.rst == (s[53] & 0x04u8 != 0)
            &&& h.flags.psh == (s[53] & 0x08u8 != 0)
            &&& h.flags.ack == (s[53] & 0x10u8 != 0)
            &&& h.flags.urg == (s[53] & 0x20u8 != 0)
        },
{
    let payload = ipv6_payload(s);
    assert(payload.len() >= 20);
    assert(ext_walk(payload, 6) == (6u8, 0int));
    assert(payload.subrange(0, payload.len() as int) =~= payload);
    assert(payload[0] == s[40] && payload[1] == s[41] && payload[2] == s[42] && payload[3] == s[43]
        && payload[13] == s[53]);
}

/// An IPv4 packet with a 20-byte header whose protocol is TCP, and a total length that covers
/// a TCP header, carries that TCP header: its ports are the big-endian numbers at bytes 20
/// and 22, and its flags are the bits of byte 33.
pub proof fn lemma_ipv4_carries_tcp(
    r: Result<ParsedPacket, CaptureError>,
    s: Seq<u8>,
    timestamp: Timestamp,
    e: EthernetHeader,
    n: usize,
)
    requires
        ipv4_outcome(r, s, timestamp, e, n),
        s.len() >= 40,
        s[0] & 0x0fu8 == 5,
        s[9] == 6,
        s[2] * 256 + s[3] >= 40,
    ensures
        r matches Ok(p) && p.transport matches Some(TransportHeader::Tcp(h)) && {
            &&& h.src_port == s[20] * 256 + s[21]
            &&& h.dst_port == s[22] * 256 + s[23]
            &&& h.flags.fin == (s[33] & 0x01u8 != 0)
            &&& h.flags.syn == (s[33] & 0x02u8 != 0)
            &&& h.flags.rst == (s[33] & 0x04u8 != 0)
            &&& h.flags.psh == (s[33] & 0x08u8 != 0)
            &&& h.flags.ack == (s[33] & 0x10u8 != 0)
            &&& h.flags.urg == (s[33] & 0x20u8 != 0)
        },
{
    let payload = ipv4_payload(s);
    assert(payload.len() >= 20);
    assert(payload[0] == s[20] && payload[1] == s[21] && payload[2] == s[22] && payload[3] == s[23]
        && payload[13] == s[33]);
}

/// A decoded frame's headers are read from their places in the frame: the destination MAC
/// from bytes 0 to 5, the source MAC from bytes 6 to 11 and the EtherType from bytes 12 and 13;
/// an IPv4 header's protocol from byte 23, its source address from bytes 26 to 29 and its
/// destination from bytes 30 to 33; an IPv6 header's next header from byte 20, its source
/// address from bytes 22 to 37 and its destination from bytes 38 to 53.
pub proof fn lemma_decoded_fields_from_frame_bytes(
    r: Result<ParsedPacket, CaptureError>,
    s: Seq<u8>,
    timestamp: Timestamp,
)
    requires
        ethernet_outcome(r, s, timestamp),
    ensures
        r matches Ok(p) ==> {
            &&& p.ethernet matches Some(e) && e.dst_mac@ == s.subrange(0, 6) && e.src_mac@
                == s.subrange(6, 12) && e.ethertype == s[12] * 256 + s[13]
            &&& p.ipv4 matches Some(h) ==> h.protocol == s[23] && h.src_ip.0 == be_value(
                s.subrange(26, 30),
            ) && h.dst_ip.0 == be_value(s.subrange(30, 34))
            &&& p.ipv6 matches Some(h) ==> h.next_header == s[20] && h.src_ip.0 == be_value(
                s.subrange(22, 38),
            ) && h.dst_ip.0 == be_value(s.subrange(38, 54))
        },
{
    if s.len() >= ETHERNET_HEADER_LEN {
        let e1 = choose|e1: EthernetHeader|
            {
                &&& #[trigger] ethernet_header_of(e1, s)
                &&& if be16(s, 12) == ETHERTYPE_IPV4 {
                    ipv4_outcome(r, ethernet_payload(s), timestamp, e1, s.len() as usize)
                } else if be16(s, 12) == ETHERTYPE_IPV6 {
                    ipv6_outcome(r, ethernet_payload(s), timestamp, e1, s.len() as usize)
                } else {
                    r == Ok::<ParsedPacket, CaptureError>(
                        ParsedPacket {
                            timestamp,
                            ethernet: Some(e1),
                            ipv4: None,
                            ipv6: None,
                            transport: None,
                            raw_len: s.len() as usize,
                        },
                    )
                }
            };
        let pl = ethernet_payload(s);
        reveal_with_fuel(pow256, 17);
        if be16(s, 12) == ETHERTYPE_IPV4 && pl.len() >= 20 {
            assert(pl.subrange(12, 16) =~= s.subrange(26, 30));
            assert(pl.subrange(16, 20) =~= s.subrange(30, 34));
            assert(pl[9] == s[23]);
            lemma_be_value_bound(s.subrange(26, 30));
            lemma_be_value_bound(s.subrange(30, 34));
        }
        if be16(s, 12) == ETHERTYPE_IPV6 && pl.len() >= 40 {
            assert(pl.subrange(8, 24) =~= s.subrange(22, 38));
            assert(pl.subrange(24, 40) =~= s.subrange(38, 54));
            assert(pl[6] == s[20]);
            lemma_be_value_bound(s.subrange(22, 38));
            lemma_be_value_bound(s.subrange(38, 54));
        }
    }
}

} // verus!
