//! Detection: stateful detectors that watch the packet stream for port scans and SYN floods,
//! and the evidence they attach to what they report.
pub mod port_scan;
pub mod syn_flood;

use vstd::prelude::*;

use crate::capture::parser::ParsedPacket;
use crate::net::{IpAddr, SocketAddr, ip_rank};
use crate::time::{Duration, Timestamp};
use self::port_scan::{SCAN_PACKET_COUNT_THRESHOLD, SingleSourceScanState, scan_outcome};
use self::syn_flood::{SynFloodState, SynRecord, flood_outcome, reported_count};

verus! {

/// Both detectors, run in order on every packet.
pub struct DetectorState {
    single_source_scan: SingleSourceScanState,
    syn_flood: SynFloodState,
}

/// Packets come in the order of their capture times.
pub open spec fn times_nondecreasing(ps: Seq<ParsedPacket>) -> bool {
    forall|i: int, j: int|
        0 <= i <= j < ps.len() ==> ps[i].timestamp.total() <= ps[j].timestamp.total()
}

/// An optional activity as a list of none or one.
pub open spec fn opt_seq(a: Option<Activity>) -> Seq<Activity> {
    match a {
        Some(x) => seq![x],
        None => Seq::empty(),
    }
}

impl DetectorState {
    /// What the port-scan detector has tracked.
    pub closed spec fn scans(&self) -> Map<IpAddr, Map<SocketAddr, Timestamp>> {
        self.single_source_scan@
    }

    /// What the SYN-flood detector has tracked.
    pub closed spec fn floods(&self) -> Map<SocketAddr, Seq<SynRecord>> {
        self.syn_flood@
    }

    pub closed spec fn flood_interval(&self) -> Duration {
        self.syn_flood.interval()
    }

    pub closed spec fn flood_threshold(&self) -> usize {
        self.syn_flood.threshold()
    }

    /// Detectors that have seen nothing, the SYN-flood detector with its default settings.
    pub fn new() -> (r: Self)
        ensures
            r.scans() == Map::<IpAddr, Map<SocketAddr, Timestamp>>::empty(),
            r.floods() == Map::<SocketAddr, Seq<SynRecord>>::empty(),
            r.flood_interval() == (Duration {
                secs: syn_flood::SYN_FLOOD_INTERVAL_SECS,
                nanos: 0,
            }),
            r.flood_threshold() == syn_flood::SYN_FLOOD_PACKET_COUNT_THRESHOLD,
    {
        DetectorState {
            single_source_scan: SingleSourceScanState::new(),
            syn_flood: SynFloodState::with_default_settings(),
        }
    }

    /// Runs the port-scan detector and then the SYN-flood detector on one packet; a packet can
    /// trigger both, so the result holds zero, one or two activities, the scan first.
    pub fn log_packet(&mut self, packet: &ParsedPacket) -> (r: Vec<Activity>)
        requires
            packet.timestamp.wf(),
        ensures
            final(self).flood_interval() == old(self).flood_interval(),
            final(self).flood_threshold() == old(self).flood_threshold(),
            exists|a: Option<Activity>, b: Option<Activity>|
                {
                    &&& #[trigger] scan_outcome(old(self).scans(), *packet, final(self).scans(), a)
                    &&& #[trigger] flood_outcome(
                        old(self).floods(),
                        old(self).flood_interval(),
                        old(self).flood_threshold(),
                        *packet,
                        final(self).floods(),
                        b,
                    )
                    &&& r@ == opt_seq(a) + opt_seq(b)
                },
            forall|i: int|
                0 <= i < r@.len() ==> match #[trigger] r@[i] {
                    Activity::SingleSourceScan { destinations, .. } => destinations
                        == SCAN_PACKET_COUNT_THRESHOLD,
                    Activity::SynFlood { syn_count, .. } => syn_count == reported_count(
                        old(self).flood_threshold(),
                    ),
                },
    {
        let a = self.single_source_scan.log_packet(packet);
        let b = self.syn_flood.log_packet(packet);
        let ghost ga = a;
        let ghost gb = b;
        let mut out: Vec<Activity> = Vec::new();
        match a {
            Some(x) => out.push(x),
            None => {},
        }
        match b {
            Some(x) => out.push(x),
            None => {},
        }
        assert(out@ =~= opt_seq(ga) + opt_seq(gb));
        assert(scan_outcome(old(self).scans(), *packet, self.scans(), ga));
        assert(flood_outcome(
            old(self).floods(),
            old(self).flood_interval(),
            old(self).flood_threshold(),
            *packet,
            self.floods(),
            gb,
        ));
        assert forall|i: int| 0 <= i < out@.len() implies match #[trigger] out@[i] {
            Activity::SingleSourceScan { destinations, .. } => destinations
                == SCAN_PACKET_COUNT_THRESHOLD,
            Activity::SynFlood { syn_count, .. } => syn_count == reported_count(
                old(self).flood_threshold(),
            ),
        } by {
            if ga is Some && i == 0 {
                assert(out@[i] == ga->0);
            } else {
                assert(out@[i] == gb->0);
            }
        }
        out
    }
}

impl Default for DetectorState {
    /// Detectors that have seen nothing, the SYN-flood detector with its default settings.
    fn default() -> (r: Self)
        ensures
            r.scans() == Map::<IpAddr, Map<SocketAddr, Timestamp>>::empty(),
            r.floods() == Map::<SocketAddr, Seq<SynRecord>>::empty(),
            r.flood_interval() == (Duration {
                secs: syn_flood::SYN_FLOOD_INTERVAL_SECS,
                nanos: 0,
            }),
            r.flood_threshold() == syn_flood::SYN_FLOOD_PACKET_COUNT_THRESHOLD,
    {
        DetectorState::new()
    }
}

/// Upper bound on how many sample values (ports, source addresses) an [`Activity`] carries as
/// evidence. Alerts only need enough detail for an operator to recognise the attack, not the
/// full detector state.
pub const MAX_EVIDENCE_ITEMS: usize = 8;

#[derive(Debug)]
pub enum Activity {
    /// Detected a port scan from a single source, meaning there were a large number of
    /// connection attempts from one source address to many destination socket addresses in a
    /// short amount of time.
    SingleSourceScan {
        /// The source from which the scan originated.
        src: IpAddr,
        /// How many distinct destination sockets the source contacted within the window.
        destinations: usize,
        /// Sample of the destination ports that were contacted, ascending.
        ports: Vec<u16>,
    },
    /// Detected a SYN flood, meaning a large number of bare SYN packets landed on a single
    /// destination socket in a short amount of time.
    SynFlood {
        /// The destination being flooded.
        dst: SocketAddr,
        /// How many bare SYNs landed on the destination within the window.
        syn_count: usize,
        /// Sample of the source addresses the SYNs came from, ascending. Flood sources are
        /// often spoofed, so this is evidence rather than attribution.
        sources: Vec<IpAddr>,
    },
}

/// Values that evidence is sampled from: totally ordered through an integer rank that tells
/// different values apart.
pub trait EvidenceValue: Copy + Sized {
    spec fn rank(self) -> int;

    /// Whether `self` sorts strictly before `other`.
    fn precedes(&self, other: &Self) -> (r: bool)
        ensures
            r == (self.rank() < other.rank()),
    ;

    proof fn lemma_rank_injective(a: Self, b: Self)
        ensures
            a.rank() == b.rank() ==> a == b,
    ;
}

impl EvidenceValue for u16 {
    open spec fn rank(self) -> int {
        self as int
    }

    fn precedes(&self, other: &u16) -> (r: bool) {
        *self < *other
    }

    proof fn lemma_rank_injective(a: u16, b: u16) {
    }
}

impl EvidenceValue for IpAddr {
    open spec fn rank(self) -> int {
        ip_rank(self)
    }

    fn precedes(&self, other: &IpAddr) -> (r: bool) {
        IpAddr::precedes(self, other)
    }

    proof fn lemma_rank_injective(a: IpAddr, b: IpAddr) {
        crate::net::lemma_ip_rank_injective(a, b);
    }
}

/// `out` is the evidence sample of `pool`: its smallest distinct values in ascending order,
/// at most [`MAX_EVIDENCE_ITEMS`] of them.
pub open spec fn is_evidence_sample<T: EvidenceValue>(out: Seq<T>, pool: Set<T>) -> bool {
    &&& out.len() <= MAX_EVIDENCE_ITEMS
    &&& forall|i: int, j: int| 0 <= i < j < out.len() ==> out[i].rank() < out[j].rank()
    &&& forall|i: int| 0 <= i < out.len() ==> pool.contains(#[trigger] out[i])
    &&& forall|v: T|
        #[trigger] pool.contains(v) ==> out.contains(v) || (out.len() == MAX_EVIDENCE_ITEMS
            && v.rank() > out.last().rank())
}

/// The (source, destination) IP pair of a packet, from its IPv4 header or else its IPv6
/// header.
pub open spec fn spec_src_dst_ip(p: ParsedPacket) -> Option<(IpAddr, IpAddr)> {
    match p.ipv4 {
        Some(x) => Some((IpAddr::V4(x.src_ip), IpAddr::V4(x.dst_ip))),
        None => match p.ipv6 {
            Some(x) => Some((IpAddr::V6(x.src_ip), IpAddr::V6(x.dst_ip))),
            None => None,
        },
    }
}

/// Extracts the (source, destination) IP pair from a packet, regardless of IP version.
pub fn src_dst_ip(packet: &ParsedPacket) -> (r: Option<(IpAddr, IpAddr)>)
    ensures
        r == spec_src_dst_ip(*packet),
{
    match &packet.ipv4 {
        Some(x) => Some((IpAddr::V4(x.src_ip), IpAddr::V4(x.dst_ip))),
        None => match &packet.ipv6 {
            Some(x) => Some((IpAddr::V6(x.src_ip), IpAddr::V6(x.dst_ip))),
            None => None,
        },
    }
}

/// Collects up to [`MAX_EVIDENCE_ITEMS`] sorted, distinct values for use as alert evidence.
pub fn evidence_sample<T: EvidenceValue>(values: &Vec<T>) -> (r: Vec<T>)
    ensures
        is_evidence_sample(r@, values@.to_set()),
{
    let n = values.len();
    let mut out: Vec<T> = Vec::new();
    let ghost pool = values@.to_set();
    while out.len() < MAX_EVIDENCE_ITEMS
        invariant_except_break
            n == values@.len(),
            pool == values@.to_set(),
            out@.len() <= MAX_EVIDENCE_ITEMS,
            forall|i: int, j: int| 0 <= i < j < out@.len() ==> out@[i].rank() < out@[j].rank(),
            forall|i: int| 0 <= i < out@.len() ==> pool.contains(#[trigger] out@[i]),
            out@.len() > 0 ==> forall|v: T| #[trigger]
                pool.contains(v) && v.rank() <= out@.last().rank() ==> out@.contains(v),
        ensures
            is_evidence_sample(out@, pool),
        decreases MAX_EVIDENCE_ITEMS - out@.len(),
    {
        // The smallest value above the last one taken.
        let mut best: Option<T> = None;
        let mut i: usize = 0;
        while i < n
            invariant
                n == values@.len(),
                i <= n,
                out@.len() < MAX_EVIDENCE_ITEMS,
                best matches Some(b) ==> values@.contains(b) && (out@.len() > 0 ==> out@.last().rank()
                    < b.rank()),
                forall|j: int|
                    0 <= j < i && (out@.len() == 0 || out@.last().rank() < values@[j].rank())
                        ==> (best matches Some(b) && b.rank() <= #[trigger] values@[j].rank()),
            decreases n - i,
        {
            let v = values[i];
            let above = if out.len() == 0 {
                true
            } else {
                out[out.len() - 1].precedes(&v)
            };
            if above {
                match best {
                    None => {
                        best = Some(v);
                    },
                    Some(b) => {
                        if v.precedes(&b) {
                            best = Some(v);
                        }
                    },
                }
            }
            i = i + 1;
        }
        match best {
            None => {
                proof {
                    assert forall|v: T| #[trigger] pool.contains(v) implies out@.contains(v) by {
                        let j = choose|j: int| 0 <= j < values@.len() && values@[j] == v;
                        assert(values@[j] == v);
                        assert(!(out@.len() == 0 || out@.last().rank() < values@[j].rank()));
                        assert(v.rank() <= out@.last().rank());
                    }
                }
                break ;
            },
            Some(b) => {
                let ghost old_out = out@;
                out.push(b);
                proof {
                    assert(out@.last() == b);
                    assert forall|v: T| #[trigger]
                        pool.contains(v) && v.rank() <= out@.last().rank() implies out@.contains(
                        v,
                    ) by {
                        let j = choose|j: int| 0 <= j < values@.len() && values@[j] == v;
                        assert(values@[j] == v);
                        if old_out.len() > 0 && v.rank() <= old_out.last().rank() {
                            let k = choose|k: int| 0 <= k < old_out.len() && old_out[k] == v;
                            assert(out@[k] == v);
                        } else {
                            T::lemma_rank_injective(v, b);
                            assert(out@[old_out.len() as int] == v);
                        }
                    }
                    assert forall|i: int| 0 <= i < out@.len() implies pool.contains(
                        #[trigger] out@[i],
                    ) by {
                        if i < old_out.len() {
                            assert(out@[i] == old_out[i]);
                        }
                    }
                }
            },
        }
    }
    out
}

} // verus!
