//! Internet addresses as plain values: IPv4, IPv6, either, and socket addresses,
//! with their conventional text forms and the order in which they sort.
use vstd::prelude::*;

use crate::text::{decimal, hex, push_char, push_decimal, push_hex, push_str};

verus! {

/// The last `count` digits of `v` in base `base`, most significant first.
pub open spec fn base_digits(v: nat, base: nat, count: nat) -> Seq<nat>
    decreases count,
{
    if count == 0 || base == 0 {
        Seq::empty()
    } else {
        base_digits(v / base, base, (count - 1) as nat).push(v % base)
    }
}

/// The unsigned big-endian number that a byte sequence spells.
pub open spec fn be_value(s: Seq<u8>) -> nat
    decreases s.len(),
{
    if s.len() == 0 {
        0
    } else {
        be_value(s.drop_last()) * 256 + s.last() as nat
    }
}

pub open spec fn pow256(n: nat) -> nat
    decreases n,
{
    if n == 0 {
        1
    } else {
        256 * pow256((n - 1) as nat)
    }
}

pub proof fn lemma_be_value_bound(s: Seq<u8>)
    ensures
        be_value(s) < pow256(s.len()),
    decreases s.len(),
{
    if s.len() > 0 {
        lemma_be_value_bound(s.drop_last());
        assert(be_value(s.drop_last()) * 256 + 256 <= pow256((s.len() - 1) as nat) * 256) by (nonlinear_arith)
            requires
                be_value(s.drop_last()) < pow256((s.len() - 1) as nat),
        ;
    }
}

/// Reading bytes as a big-endian number and splitting it back into bytes gives the bytes back.
pub proof fn lemma_be_value_digits(s: Seq<u8>)
    ensures
        base_digits(be_value(s), 256, s.len()) == s.map_values(|b: u8| b as nat),
    decreases s.len(),
{
    if s.len() > 0 {
        let p = s.drop_last();
        lemma_be_value_digits(p);
        let v = be_value(s);
        assert(v / 256 == be_value(p)) by (nonlinear_arith)
            requires
                v == be_value(p) * 256 + s.last(),
                s.last() < 256,
        ;
        assert(v % 256 == s.last() as nat) by (nonlinear_arith)
            requires
                v == be_value(p) * 256 + s.last(),
                s.last() < 256,
        ;
        assert(s.map_values(|b: u8| b as nat) =~= p.map_values(|b: u8| b as nat).push(s.last() as nat));
    }
}

/// An IPv4 address, held as its 32-bit big-endian value.
#[derive(Clone, Copy, Debug, PartialEq, Eq, Structural)]
pub struct Ipv4Addr(pub u32);

/// An IPv6 address, held as its 128-bit big-endian value.
#[derive(Clone, Copy, Debug, PartialEq, Eq, Structural)]
pub struct Ipv6Addr(pub u128);

/// An IPv4 or an IPv6 address.
#[derive(Clone, Copy, Debug, PartialEq, Eq, Structural)]
pub enum IpAddr {
    V4(Ipv4Addr),
    V6(Ipv6Addr),
}

/// An IP address together with a port.
#[derive(Clone, Copy, Debug, PartialEq, Eq, Structural)]
pub struct SocketAddr {
    pub ip: IpAddr,
    pub port: u16,
}

/// The four octets of an IPv4 address value.
pub open spec fn ipv4_octets(v: u32) -> Seq<nat> {
    base_digits(v as nat, 256, 4)
}

/// Dotted-decimal text of an IPv4 address, e.g. "192.168.1.1".
pub open spec fn ipv4_text(v: u32) -> Seq<char> {
    let o = ipv4_octets(v);
    decimal(o[0]) + seq!['.'] + decimal(o[1]) + seq!['.'] + decimal(o[2]) + seq!['.'] + decimal(
        o[3],
    )
}

/// The eight 16-bit segments of an IPv6 address value.
pub open spec fn ipv6_segments(v: u128) -> Seq<nat> {
    base_digits(v as nat, 65536, 8)
}

/// Scans `segs` from index `i` for the longest run of zero segments. `cur` is the run in
/// progress and `best` the longest seen so far, each as (start, length); a later run replaces
/// `best` only when strictly longer.
pub open spec fn zero_run_scan(segs: Seq<nat>, i: int, cur: (int, int), best: (int, int)) -> (
    int,
    int,
)
    decreases segs.len() - i,
{
    if i < 0 || i >= segs.len() {
        best
    } else if segs[i] == 0 {
        let c = (if cur.1 == 0 {
            i
        } else {
            cur.0
        }, cur.1 + 1);
        let b = if c.1 > best.1 {
            c
        } else {
            best
        };
        zero_run_scan(segs, i + 1, c, b)
    } else {
        zero_run_scan(segs, i + 1, (0, 0), best)
    }
}

/// The first longest run of zero segments, as (start, length).
pub open spec fn longest_zero_run(segs: Seq<nat>) -> (int, int) {
    zero_run_scan(segs, 0, (0, 0), (0, 0))
}

/// Segments in lower-case hexadecimal, separated by colons.
pub open spec fn colon_hex(segs: Seq<nat>) -> Seq<char>
    decreases segs.len(),
{
    if segs.len() == 0 {
        Seq::empty()
    } else if segs.len() == 1 {
        hex(segs[0])
    } else {
        colon_hex(segs.drop_last()) + seq![':'] + hex(segs.last())
    }
}

/// Whether an IPv6 value is an IPv4-mapped address (::ffff:a.b.c.d).
pub open spec fn is_ipv4_mapped(v: u128) -> bool {
    let s = ipv6_segments(v);
    s[0] == 0 && s[1] == 0 && s[2] == 0 && s[3] == 0 && s[4] == 0 && s[5] == 0xffff
}

/// Text of an IPv6 address: IPv4-mapped addresses as "::ffff:" and dotted decimal, others as
/// colon-separated hexadecimal segments with the first longest run of two or more zero segments
/// shortened to "::".
pub open spec fn ipv6_text(v: u128) -> Seq<char> {
    let segs = ipv6_segments(v);
    if is_ipv4_mapped(v) {
        seq![':', ':', 'f', 'f', 'f', 'f', ':'] + ipv4_text((v % 0x1_0000_0000) as u32)
    } else {
        let run = longest_zero_run(segs);
        if run.1 > 1 {
            colon_hex(segs.subrange(0, run.0)) + seq![':', ':'] + colon_hex(
                segs.subrange(run.0 + run.1, 8),
            )
        } else {
            colon_hex(segs)
        }
    }
}

pub open spec fn ip_text(a: IpAddr) -> Seq<char> {
    match a {
        IpAddr::V4(x) => ipv4_text(x.0),
        IpAddr::V6(x) => ipv6_text(x.0),
    }
}

/// "ip:port" for IPv4, "[ip]:port" for IPv6.
pub open spec fn socket_text(s: SocketAddr) -> Seq<char> {
    match s.ip {
        IpAddr::V4(x) => ipv4_text(x.0) + seq![':'] + decimal(s.port as nat),
        IpAddr::V6(x) => seq!['['] + ipv6_text(x.0) + seq![']', ':'] + decimal(s.port as nat),
    }
}

/// The position of an address in the order addresses sort in: every IPv4 address before every
/// IPv6 address, and each family by value.
pub open spec fn ip_rank(a: IpAddr) -> int {
    match a {
        IpAddr::V4(x) => x.0 as int,
        IpAddr::V6(x) => 0x1_0000_0000 + x.0 as int,
    }
}

/// Different addresses have different ranks.
pub proof fn lemma_ip_rank_injective(a: IpAddr, b: IpAddr)
    ensures
        ip_rank(a) == ip_rank(b) ==> a == b,
{
}

/// Splits `v` into `count` digits of base `base`, most significant first.
fn split_digits(v: u128, base: u128, count: usize) -> (r: Vec<u128>)
    requires
        base > 1,
    ensures
        r@.len() == count,
        r@.map_values(|d: u128| d as nat) == base_digits(v as nat, base as nat, count as nat),
        forall|i: int| 0 <= i < count ==> r@[i] < base,
{
    let mut r: Vec<u128> = Vec::new();
    let mut rest = v;
    let mut i: usize = 0;
    while i < count
        invariant
            base > 1,
            i <= count,
            r@.len() == i,
            forall|j: int| 0 <= j < i ==> r@[j] < base,
            base_digits(v as nat, base as nat, count as nat) == base_digits(
                rest as nat,
                base as nat,
                (count - i) as nat,
            ) + r@.map_values(|d: u128| d as nat),
        decreases count - i,
    {
        let d = rest % base;
        let ghost old_r = r@;
        r.insert(0, d);
        proof {
            let k = (count - i) as nat;
            assert(base_digits(rest as nat, base as nat, k) == base_digits(
                (rest / base) as nat,
                base as nat,
                (k - 1) as nat,
            ).push((rest % base) as nat));
            assert(r@.map_values(|d: u128| d as nat) =~= seq![d as nat] + old_r.map_values(
                |d: u128| d as nat,
            ));
            assert(base_digits(rest as nat, base as nat, k) + old_r.map_values(|d: u128| d as nat)
                =~= base_digits((rest / base) as nat, base as nat, (k - 1) as nat) + r@.map_values(
                |d: u128| d as nat,
            ));
        }
        rest = rest / base;
        i = i + 1;
    }
    assert(base_digits(rest as nat, base as nat, 0) =~= Seq::<nat>::empty());
    assert(r@.map_values(|d: u128| d as nat) =~= Seq::<nat>::empty() + r@.map_values(
        |d: u128| d as nat,
    ));
    r
}

/// Appends the dotted-decimal text of an IPv4 address value.
fn push_ipv4(s: &mut String, v: u32)
    ensures
        final(s)@ == old(s)@ + ipv4_text(v),
{
    let o = split_digits(v as u128, 256, 4);
    let ghost od = o@.map_values(|d: u128| d as nat);
    assert(od[0] == o@[0] as nat && od[1] == o@[1] as nat && od[2] == o@[2] as nat && od[3]
        == o@[3] as nat);
    push_decimal(s, o[0] as u64);
    push_char(s, '.');
    push_decimal(s, o[1] as u64);
    push_char(s, '.');
    push_decimal(s, o[2] as u64);
    push_char(s, '.');
    push_decimal(s, o[3] as u64);
    assert(s@ =~= old(s)@ + ipv4_text(v));
}

/// Appends segments `from..to` of `segs` in hexadecimal, separated by colons.
fn push_colon_hex(s: &mut String, segs: &Vec<u128>, from: usize, to: usize)
    requires
        from <= to <= segs@.len(),
        forall|i: int| 0 <= i < segs@.len() ==> segs@[i] < 65536,
    ensures
        final(s)@ == old(s)@ + colon_hex(
            segs@.map_values(|d: u128| d as nat).subrange(from as int, to as int),
        ),
{
    let ghost all = segs@.map_values(|d: u128| d as nat);
    let mut i = from;
    assert(all.subrange(from as int, from as int) =~= Seq::<nat>::empty());
    while i < to
        invariant
            from <= i <= to <= segs@.len(),
            all == segs@.map_values(|d: u128| d as nat),
            forall|k: int| 0 <= k < segs@.len() ==> segs@[k] < 65536,
            s@ == old(s)@ + colon_hex(all.subrange(from as int, i as int)),
        decreases to - i,
    {
        let ghost before = s@;
        if i > from {
            push_char(s, ':');
        }
        push_hex(s, segs[i] as u64);
        proof {
            let next = all.subrange(from as int, i + 1);
            assert(next.drop_last() =~= all.subrange(from as int, i as int));
            assert(next.last() == segs@[i as int] as nat);
            if i > from {
                assert(colon_hex(next) == colon_hex(next.drop_last()) + seq![':'] + hex(
                    next.last(),
                ));
            } else {
                assert(next.len() == 1);
                assert(colon_hex(next) == hex(next[0]));
            }
            assert(s@ =~= old(s)@ + colon_hex(next));
        }
        i = i + 1;
    }
}

/// Appends the text of an IPv6 address value.
fn push_ipv6(s: &mut String, v: u128)
    ensures
        final(s)@ == old(s)@ + ipv6_text(v),
{
    let segs = split_digits(v, 65536, 8);
    let ghost sg = segs@.map_values(|d: u128| d as nat);
    assert(sg == ipv6_segments(v));
    if segs[0] == 0 && segs[1] == 0 && segs[2] == 0 && segs[3] == 0 && segs[4] == 0 && segs[5]
        == 0xffff {
        assert(is_ipv4_mapped(v)) by {
            assert(sg[0] == segs@[0] as nat && sg[1] == segs@[1] as nat && sg[2] == segs@[2]
                as nat && sg[3] == segs@[3] as nat && sg[4] == segs@[4] as nat && sg[5]
                == segs@[5] as nat);
        }
        push_str(s, "::ffff:");
        proof {
            reveal_strlit("::ffff:");
        }
        let ghost mid = s@;
        push_ipv4(s, (v % 0x1_0000_0000) as u32);
        assert(s@ =~= old(s)@ + ipv6_text(v));
        return;
    }
    assert(!is_ipv4_mapped(v)) by {
        assert(sg[0] == segs@[0] as nat && sg[1] == segs@[1] as nat && sg[2] == segs@[2] as nat
            && sg[3] == segs@[3] as nat && sg[4] == segs@[4] as nat && sg[5] == segs@[5] as nat);
    }
    // Find the first longest run of zero segments.
    let mut cur_start: usize = 0;
    let mut cur_len: usize = 0;
    let mut best_start: usize = 0;
    let mut best_len: usize = 0;
    let mut i: usize = 0;
    while i < 8
        invariant
            segs@.len() == 8,
            sg == segs@.map_values(|d: u128| d as nat),
            i <= 8,
            cur_len <= i,
            best_len <= i,
            cur_len > 0 ==> cur_start + cur_len == i,
            best_start + best_len <= i,
            zero_run_scan(sg, 0, (0, 0), (0, 0)) == zero_run_scan(
                sg,
                i as int,
                (cur_start as int, cur_len as int),
                (best_start as int, best_len as int),
            ),
        decreases 8 - i,
    {
        if segs[i] == 0 {
            if cur_len == 0 {
                cur_start = i;
            }
            cur_len = cur_len + 1;
            if cur_len > best_len {
                best_start = cur_start;
                best_len = cur_len;
            }
        } else {
            cur_start = 0;
            cur_len = 0;
        }
        i = i + 1;
    }
    assert(longest_zero_run(sg) == (best_start as int, best_len as int));
    if best_len > 1 {
        push_colon_hex(s, &segs, 0, best_start);
        push_str(s, "::");
        proof {
            reveal_strlit("::");
        }
        push_colon_hex(s, &segs, best_start + best_len, 8);
    } else {
        push_colon_hex(s, &segs, 0, 8);
        assert(sg.subrange(0, 8) =~= sg);
    }
    assert(s@ =~= old(s)@ + ipv6_text(v));
}

impl Ipv4Addr {
    /// The address a.b.c.d.
    pub fn new(a: u8, b: u8, c: u8, d: u8) -> (r: Ipv4Addr)
        ensures
            r.0 == be_value(seq![a, b, c, d]),
            ipv4_octets(r.0) == seq![a as nat, b as nat, c as nat, d as nat],
    {
        let v: u32 = (a as u32) * 16777216 + (b as u32) * 65536 + (c as u32) * 256 + (d as u32);
        proof {
            let s = seq![a, b, c, d];
            assert(s.drop_last().drop_last().drop_last().drop_last() =~= Seq::<u8>::empty());
            assert(s.drop_last().drop_last().drop_last() =~= seq![a]);
            assert(s.drop_last().drop_last() =~= seq![a, b]);
            assert(s.drop_last() =~= seq![a, b, c]);
            assert(seq![a].drop_last() =~= Seq::<u8>::empty());
            assert(be_value(Seq::<u8>::empty()) == 0);
            assert(seq![a].last() == a);
            assert(be_value(seq![a]) == a);
            assert(be_value(seq![a, b]) == a * 256 + b);
            assert(be_value(seq![a, b, c]) == (a * 256 + b) * 256 + c);
            lemma_be_value_digits(s);
            assert(s.map_values(|x: u8| x as nat) =~= seq![a as nat, b as nat, c as nat, d as nat]);
        }
        Ipv4Addr(v)
    }

    /// Dotted-decimal text, e.g. "192.168.1.1".
    pub fn to_string(&self) -> (r: String)
        ensures
            r@ == ipv4_text(self.0),
    {
        let mut s = String::new();
        push_ipv4(&mut s, self.0);
        s
    }
}

impl Ipv6Addr {
    /// Text in the conventional shortened form, e.g. "2001:db8::1".
    pub fn to_string(&self) -> (r: String)
        ensures
            r@ == ipv6_text(self.0),
    {
        let mut s = String::new();
        push_ipv6(&mut s, self.0);
        s
    }
}

/// Appends the text of an IP address.
pub fn push_ip(s: &mut String, a: &IpAddr)
    ensures
        final(s)@ == old(s)@ + ip_text(*a),
{
    match a {
        IpAddr::V4(x) => push_ipv4(s, x.0),
        IpAddr::V6(x) => push_ipv6(s, x.0),
    }
}

impl IpAddr {
    pub fn to_string(&self) -> (r: String)
        ensures
            r@ == ip_text(*self),
    {
        let mut s = String::new();
        push_ip(&mut s, self);
        s
    }

    /// Whether `self` sorts strictly before `other`.
    pub fn precedes(&self, other: &IpAddr) -> (r: bool)
        ensures
            r == (ip_rank(*self) < ip_rank(*other)),
    {
        match (self, other) {
            (IpAddr::V4(a), IpAddr::V4(b)) => a.0 < b.0,
            (IpAddr::V4(_), IpAddr::V6(_)) => true,
            (IpAddr::V6(_), IpAddr::V4(_)) => false,
            (IpAddr::V6(a), IpAddr::V6(b)) => a.0 < b.0,
        }
    }
}

impl SocketAddr {
    pub fn new(ip: IpAddr, port: u16) -> (r: SocketAddr)
        ensures
            r.ip == ip,
            r.port == port,
    {
        SocketAddr { ip, port }
    }

    /// "ip:port" for IPv4, "[ip]:port" for IPv6, e.g. "192.168.1.1:80".
    pub fn to_string(&self) -> (r: String)
        ensures
            r@ == socket_text(*self),
    {
        let mut s = String::new();
        match self.ip {
            IpAddr::V4(x) => {
                push_ipv4(&mut s, x.0);
                push_char(&mut s, ':');
                push_decimal(&mut s, self.port as u64);
            },
            IpAddr::V6(x) => {
                push_char(&mut s, '[');
                push_ipv6(&mut s, x.0);
                push_char(&mut s, ']');
                push_char(&mut s, ':');
                push_decimal(&mut s, self.port as u64);
            },
        }
        assert(s@ =~= socket_text(*self));
        s
    }
}

} // verus!
