//! The operator's console: which interface to watch, and one line of text per captured packet.
use vstd::prelude::*;

use crate::capture::parser::{ParsedPacket, TcpFlags, TransportHeader};
use crate::net::{IpAddr, ip_text};
use crate::text::{
    decimal, hex4, hex_byte, pad_left, push_byte_decimal, push_char, push_decimal, push_hex4,
    push_hex_byte, push_padded, push_str, push_u16_decimal,
};
use crate::time::{CLOCK_TIME_FORMAT, MAX_CALENDAR_SECS, Timestamp, UtcTime, clock_text, format_utc};

verus! {

/// Whether an interface name starts with "lo", the loopback devices.
pub open spec fn is_loopback_name(name: Seq<char>) -> bool {
    name.len() >= 2 && name[0] == 'l' && name[1] == 'o'
}

/// The interface to watch: the first that is not a loopback device, or the first of all when
/// every one is; `None` when there is none.
pub fn select_interface(names: &Vec<String>) -> (r: Option<usize>)
    ensures
        r is None <==> names@.len() == 0,
        r matches Some(i) ==> i < names@.len() && (
            (!is_loopback_name(names@[i as int]@) && forall|j: int|
                0 <= j < i ==> is_loopback_name(#[trigger] names@[j]@))
            || (i == 0 && forall|j: int|
                0 <= j < names@.len() ==> is_loopback_name(#[trigger] names@[j]@))
        ),
{
    let mut i: usize = 0;
    while i < names.len()
        invariant
            i <= names@.len(),
            forall|j: int| 0 <= j < i ==> is_loopback_name(#[trigger] names@[j]@),
        decreases names@.len() - i,
    {
        let name = names[i].as_str();
        let loopback = name.unicode_len() >= 2 && name.get_char(0) == 'l' && name.get_char(1)
            == 'o';
        if !loopback {
            return Some(i);
        }
        i = i + 1;
    }
    if names.len() == 0 {
        None
    } else {
        Some(0)
    }
}

/// A MAC address as six two-digit hexadecimal bytes joined by colons, e.g. "00:1a:2b:3c:4d:5e".
pub open spec fn mac_text(mac: Seq<u8>) -> Seq<char> {
    hex_byte(mac[0]) + seq![':'] + hex_byte(mac[1]) + seq![':'] + hex_byte(mac[2]) + seq![':']
        + hex_byte(mac[3]) + seq![':'] + hex_byte(mac[4]) + seq![':'] + hex_byte(mac[5])
}

/// Appends the text of a MAC address.
pub fn push_mac(s: &mut String, mac: &[u8; 6])
    ensures
        final(s)@ == old(s)@ + mac_text(mac@),
{
    let mut i: usize = 0;
    while i < 6
        invariant
            i <= 6,
            i == 0 ==> s@ == old(s)@,
            i >= 1 ==> s@ == old(s)@ + mac_text(mac@).subrange(0, 3 * i - 1),
        decreases 6 - i,
    {
        if i > 0 {
            push_char(s, ':');
        }
        push_hex_byte(s, mac[i]);
        i = i + 1;
        assert(s@ =~= old(s)@ + mac_text(mac@).subrange(0, 3 * i - 1));
    }
    assert(mac_text(mac@).subrange(0, 17) =~= mac_text(mac@));
}

/// The text of a MAC address.
pub fn mac_str(mac: &[u8; 6]) -> (r: String)
    ensures
        r@ == mac_text(mac@),
{
    let mut s = String::new();
    push_mac(&mut s, mac);
    s
}

/// The decimal numeral of a byte.
pub open spec fn byte_text(b: u8) -> Seq<char> {
    decimal(b as nat)
}

/// The decimal numeral of a port.
pub open spec fn port_text(p: u16) -> Seq<char> {
    decimal(p as nat)
}

/// The name of a well-known control-message type and code, if it is one.
pub open spec fn control_message_name(typ: u8, code: u8) -> Option<Seq<char>> {
    if typ == 0 {
        Some("Echo Reply"@)
    } else if typ == 3 {
        if code == 0 {
            Some("Net Unreachable"@)
        } else if code == 1 {
            Some("Host Unreachable"@)
        } else if code == 2 {
            Some("Proto Unreachable"@)
        } else if code == 3 {
            Some("Port Unreachable"@)
        } else {
            Some("Dest Unreachable"@)
        }
    } else if typ == 5 {
        Some("Redirect"@)
    } else if typ == 8 {
        Some("Echo Request"@)
    } else if typ == 11 {
        if code == 0 {
            Some("TTL Exceeded"@)
        } else {
            Some("Time Exceeded"@)
        }
    } else {
        None
    }
}

/// The description of a control message: its name, or "type=T code=C" for any other.
pub open spec fn control_message_text(typ: u8, code: u8) -> Seq<char> {
    match control_message_name(typ, code) {
        Some(name) => name,
        None => "type="@ + byte_text(typ) + " code="@ + byte_text(code),
    }
}

/// A short description of an ICMP message from its type and code.
pub fn icmp_desc(typ: u8, code: u8) -> (r: String)
    ensures
        r@ == control_message_text(typ, code),
{
    let name: &str = match typ {
        0 => "Echo Reply",
        3 => match code {
            0 => "Net Unreachable",
            1 => "Host Unreachable",
            2 => "Proto Unreachable",
            3 => "Port Unreachable",
            _ => "Dest Unreachable",
        },
        5 => "Redirect",
        8 => "Echo Request",
        11 => match code {
            0 => "TTL Exceeded",
            _ => "Time Exceeded",
        },
        _ => {
            let mut s = String::new();
            push_str(&mut s, "type=");
            push_byte_decimal(&mut s, typ);
            push_str(&mut s, " code=");
            push_byte_decimal(&mut s, code);
            return s;
        },
    };
    String::from_str(name)
}

/// The source (`source`) or destination address of a packet as shown on the console: the IP
/// address, else the MAC address, else "?.?.?.?".
pub open spec fn endpoint_text(pkt: ParsedPacket, source: bool) -> Seq<char> {
    match pkt.ipv4 {
        Some(h) => ip_text(IpAddr::V4(if source { h.src_ip } else { h.dst_ip })),
        None => match pkt.ipv6 {
            Some(h) => ip_text(IpAddr::V6(if source { h.src_ip } else { h.dst_ip })),
            None => match pkt.ethernet {
                Some(e) => mac_text(if source { e.src_mac@ } else { e.dst_mac@ }),
                None => "?.?.?.?"@,
            },
        },
    }
}

fn push_endpoint(s: &mut String, pkt: &ParsedPacket, source: bool)
    ensures
        final(s)@ == old(s)@ + endpoint_text(*pkt, source),
{
    match &pkt.ipv4 {
        Some(h) => {
            let a = IpAddr::V4(if source { h.src_ip } else { h.dst_ip });
            crate::net::push_ip(s, &a);
        },
        None => match &pkt.ipv6 {
            Some(h) => {
                let a = IpAddr::V6(if source { h.src_ip } else { h.dst_ip });
                crate::net::push_ip(s, &a);
            },
            None => match &pkt.ethernet {
                Some(e) => {
                    if source {
                        push_mac(s, &e.src_mac);
                    } else {
                        push_mac(s, &e.dst_mac);
                    }
                },
                None => push_str(s, "?.?.?.?"),
            },
        },
    }
}

/// `c` when `set`, nothing otherwise.
#[verifier::opaque]
pub open spec fn letter(set: bool, c: char) -> Seq<char> {
    if set {
        seq![c]
    } else {
        Seq::empty()
    }
}

/// One letter for each TCP flag that is set, in the order S A F R P U; "." when none is.
pub open spec fn flags_text(f: TcpFlags) -> Seq<char> {
    if flag_letters(f).len() == 0 {
        seq!['.']
    } else {
        flag_letters(f)
    }
}

fn push_letter(s: &mut String, set: bool, c: char)
    ensures
        final(s)@ == old(s)@ + letter(set, c),
        letter(set, c).len() == (if set { 1int } else { 0int }),
{
    reveal(letter);
    if set {
        push_char(s, c);
    } else {
        assert(s@ =~= old(s)@ + letter(set, c));
    }
}

/// The flags shown on the console, in the order they are shown.
pub open spec fn shown_flags(f: TcpFlags) -> Seq<bool> {
    seq![f.syn, f.ack, f.fin, f.rst, f.psh, f.urg]
}

/// The letter of each shown flag.
pub open spec fn flag_chars() -> Seq<char> {
    seq!['S', 'A', 'F', 'R', 'P', 'U']
}

/// The letters of the first `n` shown flags that are set.
pub open spec fn letters_upto(bits: Seq<bool>, chars: Seq<char>, n: nat) -> Seq<char>
    decreases n,
{
    if n == 0 {
        Seq::empty()
    } else {
        letters_upto(bits, chars, (n - 1) as nat) + letter(bits[n - 1], chars[n - 1])
    }
}

/// The letters of the flags that are set, in the order S A F R P U.
pub open spec fn flag_letters(f: TcpFlags) -> Seq<char> {
    letters_upto(shown_flags(f), flag_chars(), 6)
}

fn push_flag_letters(s: &mut String, f: &TcpFlags)
    ensures
        final(s)@ == old(s)@ + flag_letters(*f),
        flag_letters(*f).len() == 0 <==> !(f.syn || f.ack || f.fin || f.rst || f.psh || f.urg),
{
    let bits: [bool; 6] = [f.syn, f.ack, f.fin, f.rst, f.psh, f.urg];
    let chars: [char; 6] = ['S', 'A', 'F', 'R', 'P', 'U'];
    let ghost base = s@;
    assert(bits@ =~= shown_flags(*f));
    assert(chars@ =~= flag_chars());
    let mut i: usize = 0;
    while i < 6
        invariant
            i <= 6,
            bits@ == shown_flags(*f),
            chars@ == flag_chars(),
            s@ == base + letters_upto(bits@, chars@, i as nat),
            letters_upto(bits@, chars@, i as nat).len() == 0 <==> forall|j: int|
                0 <= j < i ==> !bits@[j],
        decreases 6 - i,
    {
        push_letter(s, bits[i], chars[i]);
        i = i + 1;
        assert(s@ =~= base + letters_upto(bits@, chars@, i as nat));
        assert(letters_upto(bits@, chars@, i as nat).len() == 0 <==> forall|j: int|
            0 <= j < i ==> !bits@[j]) by {
            if letters_upto(bits@, chars@, i as nat).len() == 0 {
                assert forall|j: int| 0 <= j < i implies !bits@[j] by {
                    if j < i - 1 {
                    } else {
                        assert(!bits@[i - 1]);
                    }
                }
            }
        }
    }
    assert(!(f.syn || f.ack || f.fin || f.rst || f.psh || f.urg) <==> forall|j: int|
        0 <= j < 6 ==> !bits@[j]) by {
        if forall|j: int| 0 <= j < 6 ==> !bits@[j] {
            assert(!bits@[0] && !bits@[1] && !bits@[2] && !bits@[3] && !bits@[4] && !bits@[5]);
        }
    }
}

fn push_flags(s: &mut String, f: &TcpFlags)
    ensures
        final(s)@ == old(s)@ + flags_text(*f),
{
    push_flag_letters(s, f);
    if !(f.syn || f.ack || f.fin || f.rst || f.psh || f.urg) {
        push_char(s, '.');
    }
    assert(s@ =~= old(s)@ + flags_text(*f));
}

proof fn lemma_letters_contain(bits: Seq<bool>, chars: Seq<char>, n: nat, c: char)
    requires
        n <= bits.len(),
        n <= chars.len(),
    ensures
        letters_upto(bits, chars, n).contains(c) <==> exists|i: int|
            0 <= i < n && #[trigger] bits[i] && chars[i] == c,
    decreases n,
{
    reveal(letter);
    if n > 0 {
        let m = (n - 1) as nat;
        lemma_letters_contain(bits, chars, m, c);
        let pre = letters_upto(bits, chars, m);
        let l = letter(bits[m as int], chars[m as int]);
        let all = letters_upto(bits, chars, n);
        assert(all == pre + l);
        if all.contains(c) {
            let k = choose|k: int| 0 <= k < all.len() && all[k] == c;
            if k < pre.len() {
                assert(pre[k] == c);
                assert(pre.contains(c));
            } else {
                assert(l[k - pre.len()] == c);
                assert(bits[m as int] && chars[m as int] == c);
            }
        }
        if exists|i: int| 0 <= i < n && #[trigger] bits[i] && chars[i] == c {
            let i = choose|i: int| 0 <= i < n && #[trigger] bits[i] && chars[i] == c;
            if i < m {
                assert(pre.contains(c));
                let k = choose|k: int| 0 <= k < pre.len() && pre[k] == c;
                assert(all[k] == c);
            } else {
                assert(all[pre.len() as int] == c);
            }
        }
    }
}

/// Each flag letter stands for its own flag: 'S' shows exactly when SYN is set, 'A' ACK,
/// 'F' FIN, 'R' RST, 'P' PSH and 'U' URG; and '.' shows exactly when none of them is.
pub proof fn lemma_flag_letters_mean_their_flags(f: TcpFlags)
    ensures
        flags_text(f).contains('S') <==> f.syn,
        flags_text(f).contains('A') <==> f.ack,
        flags_text(f).contains('F') <==> f.fin,
        flags_text(f).contains('R') <==> f.rst,
        flags_text(f).contains('P') <==> f.psh,
        flags_text(f).contains('U') <==> f.urg,
        flags_text(f).contains('.') <==> !(f.syn || f.ack || f.fin || f.rst || f.psh || f.urg),
{
    let bits = shown_flags(f);
    let chars = flag_chars();
    let letters = flag_letters(f);
    let none = !(f.syn || f.ack || f.fin || f.rst || f.psh || f.urg);
    assert forall|c: char| letters.contains(c) <==> (
        (c == 'S' && f.syn) || (c == 'A' && f.ack) || (c == 'F' && f.fin) || (c == 'R' && f.rst)
            || (c == 'P' && f.psh) || (c == 'U' && f.urg)) by {
        lemma_letters_contain(bits, chars, 6, c);
        if c == 'S' && f.syn {
            assert(bits[0] && chars[0] == c);
        }
        if c == 'A' && f.ack {
            assert(bits[1] && chars[1] == c);
        }
        if c == 'F' && f.fin {
            assert(bits[2] && chars[2] == c);
        }
        if c == 'R' && f.rst {
            assert(bits[3] && chars[3] == c);
        }
        if c == 'P' && f.psh {
            assert(bits[4] && chars[4] == c);
        }
        if c == 'U' && f.urg {
            assert(bits[5] && chars[5] == c);
        }
    }
    if letters.len() > 0 {
        assert(letters.contains(letters[0]));
    }
    if !none {
        if f.syn {
            assert(letters.contains('S'));
        } else if f.ack {
            assert(letters.contains('A'));
        } else if f.fin {
            assert(letters.contains('F'));
        } else if f.rst {
            assert(letters.contains('R'));
        } else if f.psh {
            assert(letters.contains('P'));
        } else {
            assert(letters.contains('U'));
        }
    }
    if letters.len() == 0 {
        assert(flags_text(f) == seq!['.']);
        assert(seq!['.'][0] == '.');
    }
}

/// The protocol column and the description column of a packet's console line.
pub open spec fn packet_summary(pkt: ParsedPacket) -> (Seq<char>, Seq<char>) {
    let src = endpoint_text(pkt, true);
    let dst = endpoint_text(pkt, false);
    match pkt.transport {
        Some(TransportHeader::Tcp(t)) => (
            "TCP"@,
            src + seq![':'] + port_text(t.src_port) + " → "@ + dst + seq![':'] + port_text(
                t.dst_port,
            ) + " ["@ + flags_text(t.flags) + seq![']'],
        ),
        Some(TransportHeader::Udp(u)) => (
            "UDP"@,
            src + seq![':'] + port_text(u.src_port) + " → "@ + dst + seq![':'] + port_text(
                u.dst_port,
            ),
        ),
        Some(TransportHeader::Icmp(m)) => (
            "ICMP"@,
            src + " → "@ + dst + "  "@ + control_message_text(m.icmp_type, m.code),
        ),
        Some(TransportHeader::Unknown(p)) => ("IP"@, "proto="@ + byte_text(p) + "  "@ + src + " → "@
            + dst),
        None => (
            "ETH"@,
            src + " → "@ + dst + "  ethertype=0x"@ + hex4(
                match pkt.ethernet {
                    Some(e) => e.ethertype,
                    None => 0u16,
                },
            ),
        ),
    }
}

/// The protocol name and the description of a packet: its endpoints, ports and TCP flags, the
/// kind of control message, or the protocol or EtherType it carries.
pub fn format_info(pkt: &ParsedPacket) -> (r: (&'static str, String))
    ensures
        r.0@ == packet_summary(*pkt).0,
        r.1@ == packet_summary(*pkt).1,
{
    let mut s = String::new();
    match &pkt.transport {
        Some(TransportHeader::Tcp(t)) => {
            push_endpoint(&mut s, pkt, true);
            push_char(&mut s, ':');
            push_u16_decimal(&mut s, t.src_port);
            push_str(&mut s, " → ");
            push_endpoint(&mut s, pkt, false);
            push_char(&mut s, ':');
            push_u16_decimal(&mut s, t.dst_port);
            push_str(&mut s, " [");
            push_flags(&mut s, &t.flags);
            push_char(&mut s, ']');
            ("TCP", s)
        },
        Some(TransportHeader::Udp(u)) => {
            push_endpoint(&mut s, pkt, true);
            push_char(&mut s, ':');
            push_u16_decimal(&mut s, u.src_port);
            push_str(&mut s, " → ");
            push_endpoint(&mut s, pkt, false);
            push_char(&mut s, ':');
            push_u16_decimal(&mut s, u.dst_port);
            ("UDP", s)
        },
        Some(TransportHeader::Icmp(m)) => {
            push_endpoint(&mut s, pkt, true);
            push_str(&mut s, " → ");
            push_endpoint(&mut s, pkt, false);
            push_str(&mut s, "  ");
            let desc = icmp_desc(m.icmp_type, m.code);
            push_str(&mut s, desc.as_str());
            ("ICMP", s)
        },
        Some(TransportHeader::Unknown(p)) => {
            push_str(&mut s, "proto=");
            push_byte_decimal(&mut s, *p);
            push_str(&mut s, "  ");
            push_endpoint(&mut s, pkt, true);
            push_str(&mut s, " → ");
            push_endpoint(&mut s, pkt, false);
            ("IP", s)
        },
        None => {
            push_endpoint(&mut s, pkt, true);
            push_str(&mut s, " → ");
            push_endpoint(&mut s, pkt, false);
            push_str(&mut s, "  ethertype=0x");
            let ethertype: u16 = match &pkt.ethernet {
                Some(e) => e.ethertype,
                None => 0,
            };
            push_hex4(&mut s, ethertype);
            ("ETH", s)
        },
    }
}

/// The capture time of a packet as a UTC clock reading with milliseconds, e.g. "12:34:56.789".
pub fn format_timestamp(ts: Timestamp) -> (r: String)
    requires
        ts.wf(),
        ts.secs <= MAX_CALENDAR_SECS,
    ensures
        r@ == clock_text(ts.secs as int, ts.nanos as nat),
{
    format_utc(UtcTime::from_timestamp(ts), CLOCK_TIME_FORMAT)
}

/// The console line of the `count`-th packet: number, time, protocol and size right-aligned in
/// columns, then the description.
pub open spec fn packet_line_text(count: u64, pkt: ParsedPacket) -> Seq<char> {
    " "@ + pad_left(decimal(count as nat), 6) + "  "@ + pad_left(
        clock_text(pkt.timestamp.secs as int, pkt.timestamp.nanos as nat),
        12,
    ) + "  "@ + pad_left(packet_summary(pkt).0, 5) + "  "@ + pad_left(
        decimal(pkt.raw_len as nat),
        5,
    ) + "B  "@ + packet_summary(pkt).1
}

/// The console line for the `count`-th captured packet.
pub fn packet_line(count: u64, pkt: &ParsedPacket) -> (r: String)
    requires
        pkt.timestamp.wf(),
        pkt.timestamp.secs <= MAX_CALENDAR_SECS,
    ensures
        r@ == packet_line_text(count, *pkt),
{
    let ts = format_timestamp(pkt.timestamp);
    let (proto, info) = format_info(pkt);
    let mut number = String::new();
    push_decimal(&mut number, count);
    let mut size = String::new();
    push_decimal(&mut size, pkt.raw_len as u64);
    let mut s = String::new();
    push_str(&mut s, " ");
    push_padded(&mut s, number.as_str(), 6);
    push_str(&mut s, "  ");
    push_padded(&mut s, ts.as_str(), 12);
    push_str(&mut s, "  ");
    push_padded(&mut s, proto, 5);
    push_str(&mut s, "  ");
    push_padded(&mut s, size.as_str(), 5);
    push_str(&mut s, "B  ");
    push_str(&mut s, info.as_str());
    s
}

/// The two header lines of the packet table: the column titles, then a rule of 75 dashes.
pub open spec fn table_header_text() -> Seq<char> {
    " "@ + pad_left("Pkt#"@, 6) + "  "@ + pad_left("Time"@, 12) + "  "@ + pad_left("Proto"@, 5)
        + "  "@ + pad_left("Size"@, 5) + "  Info\n "@ + Seq::new(75, |i: int| '-')
}

/// The header of the packet table.
pub fn table_header() -> (r: String)
    ensures
        r@ == table_header_text(),
{
    let mut s = String::new();
    push_str(&mut s, " ");
    push_padded(&mut s, "Pkt#", 6);
    push_str(&mut s, "  ");
    push_padded(&mut s, "Time", 12);
    push_str(&mut s, "  ");
    push_padded(&mut s, "Proto", 5);
    push_str(&mut s, "  ");
    push_padded(&mut s, "Size", 5);
    push_str(&mut s, "  Info\n ");
    let mut i: usize = 0;
    let ghost head = s@;
    while i < 75
        invariant
            i <= 75,
            s@ == head + Seq::new(i as nat, |k: int| '-'),
        decreases 75 - i,
    {
        push_char(&mut s, '-');
        i = i + 1;
        assert(s@ =~= head + Seq::new(i as nat, |k: int| '-'));
    }
    s
}

} // verus!
