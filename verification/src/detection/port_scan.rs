//! Port-scan detection: one source contacting many distinct destination sockets within a
//! short window.
use vstd::prelude::*;

use crate::assoc::{
    assoc_map, distinct_keys, lemma_assoc_dom, lemma_assoc_empty, lemma_assoc_index,
    lemma_assoc_len, lemma_assoc_prefix, lemma_assoc_push, lemma_assoc_remove, lemma_assoc_update,
};
use crate::capture::parser::{ParsedPacket, TransportHeader};
use crate::detection::{
    Activity, evidence_sample, is_evidence_sample, spec_src_dst_ip, src_dst_ip, times_nondecreasing,
};
use crate::net::{IpAddr, SocketAddr};
use crate::time::{Duration, Timestamp};

verus! {

/// Port scan detection measures distinct packet destinations within a time frame: this many
/// seconds is the interval within which a scan will be considered to have occurred.
pub const MAX_SCAN_INTERVAL_SECS: u64 = 10;

/// How many distinct destinations need to be logged from the same source in order to consider
/// the activity a port scan.
pub const SCAN_PACKET_COUNT_THRESHOLD: usize = 64;

pub open spec fn scan_interval() -> Duration {
    Duration { secs: MAX_SCAN_INTERVAL_SECS, nanos: 0 }
}

/// The interval within which a scan will be considered to have occurred.
pub fn max_scan_interval() -> (d: Duration)
    ensures
        d == scan_interval(),
{
    Duration { secs: MAX_SCAN_INTERVAL_SECS, nanos: 0 }
}

/// A record made at `at` still counts at `now` when `at + interval >= now`.
pub open spec fn in_window(at: Timestamp, interval: Duration, now: Timestamp) -> bool {
    at.total() + interval.total() >= now.total()
}

/// When a destination socket was last contacted.
#[derive(Clone, Copy)]
pub struct DestinationSeen {
    pub dst: SocketAddr,
    pub at: Timestamp,
}

/// The destinations one source has contacted.
pub struct SourceHistory {
    pub src: IpAddr,
    pub dests: Vec<DestinationSeen>,
}

pub struct SingleSourceScanState {
    /// Each source with the destination sockets it has sent packets to and when it last did.
    /// Entries whose latest packet has aged out of the window are dropped, and so are sources
    /// left with no destination.
    history: Vec<SourceHistory>,
}

pub open spec fn dest_pairs(d: Seq<DestinationSeen>) -> Seq<(SocketAddr, Timestamp)> {
    d.map_values(|e: DestinationSeen| (e.dst, e.at))
}

pub open spec fn dest_map(d: Seq<DestinationSeen>) -> Map<SocketAddr, Timestamp> {
    assoc_map(dest_pairs(d))
}

pub open spec fn source_pairs(h: Seq<SourceHistory>) -> Seq<(IpAddr, Map<SocketAddr, Timestamp>)> {
    h.map_values(|e: SourceHistory| (e.src, dest_map(e.dests@)))
}

/// Sources appear once, each with at least one destination, destinations appear once per
/// source.
pub open spec fn history_ok(h: Seq<SourceHistory>) -> bool {
    &&& distinct_keys(source_pairs(h))
    &&& forall|i: int|
        0 <= i < h.len() ==> distinct_keys(dest_pairs(#[trigger] h[i].dests@)) && h[i].dests@.len()
            > 0
}

/// Every source has fewer than [`SCAN_PACKET_COUNT_THRESHOLD`] destinations.
pub open spec fn sources_below_threshold(h: Seq<SourceHistory>) -> bool {
    forall|i: int| 0 <= i < h.len() ==> (#[trigger] h[i]).dests@.len() < SCAN_PACKET_COUNT_THRESHOLD
}

/// The ports of the destination sockets in `m`.
pub open spec fn dest_ports(m: Map<SocketAddr, Timestamp>) -> Set<u16> {
    m.dom().map(|d: SocketAddr| d.port)
}

/// The destinations of `m` still inside the scan window at `now`.
pub open spec fn recent_dests(m: Map<SocketAddr, Timestamp>, now: Timestamp) -> Map<
    SocketAddr,
    Timestamp,
> {
    Map::new(
        |d: SocketAddr| m.contains_key(d) && in_window(m[d], scan_interval(), now),
        |d: SocketAddr| m[d],
    )
}

/// The history at `now`: every source keeps its destinations still inside the window, and a
/// source with none left is dropped.
pub open spec fn prune_scans(h: Map<IpAddr, Map<SocketAddr, Timestamp>>, now: Timestamp) -> Map<
    IpAddr,
    Map<SocketAddr, Timestamp>,
> {
    Map::new(
        |s: IpAddr| h.contains_key(s) && !recent_dests(h[s], now).is_empty(),
        |s: IpAddr| recent_dests(h[s], now),
    )
}

/// The source address and destination socket of a TCP or UDP packet over IPv4 or IPv6.
pub open spec fn scan_probe(p: ParsedPacket) -> Option<(IpAddr, SocketAddr)> {
    match spec_src_dst_ip(p) {
        None => None,
        Some((s, d)) => match p.transport {
            Some(TransportHeader::Tcp(t)) => Some((s, SocketAddr { ip: d, port: t.dst_port })),
            Some(TransportHeader::Udp(u)) => Some((s, SocketAddr { ip: d, port: u.dst_port })),
            _ => None,
        },
    }
}

/// The destinations of source `src` at `now`, with `dst` just contacted.
pub open spec fn scan_dests_after(
    pruned: Map<IpAddr, Map<SocketAddr, Timestamp>>,
    src: IpAddr,
    dst: SocketAddr,
    now: Timestamp,
) -> Map<SocketAddr, Timestamp> {
    (if pruned.contains_key(src) {
        pruned[src]
    } else {
        Map::empty()
    }).insert(dst, now)
}

/// What logging packet `p` does to history `h`, giving history `h2` and result `r`: first
/// every destination older than the window is forgotten; a TCP or UDP packet over IP then
/// records its destination socket for its source; when that source has reached
/// [`SCAN_PACKET_COUNT_THRESHOLD`] distinct destinations it is reported, with the number of
/// destinations and a sample of their ports, and its history is cleared.
pub open spec fn scan_outcome(
    h: Map<IpAddr, Map<SocketAddr, Timestamp>>,
    p: ParsedPacket,
    h2: Map<IpAddr, Map<SocketAddr, Timestamp>>,
    r: Option<Activity>,
) -> bool {
    let pruned = prune_scans(h, p.timestamp);
    match scan_probe(p) {
        None => h2 == pruned && r is None,
        Some((src, dst)) => {
            let dests = scan_dests_after(pruned, src, dst, p.timestamp);
            if dests.len() < SCAN_PACKET_COUNT_THRESHOLD {
                h2 == pruned.insert(src, dests) && r is None
            } else {
                &&& h2 == pruned.remove(src)
                &&& r matches Some(Activity::SingleSourceScan { src: s, destinations: n, ports })
                &&& s == src
                &&& n == dests.len()
                &&& is_evidence_sample(ports@, dest_ports(dests))
            }
        },
    }
}

proof fn lemma_recent_insert(m: Map<SocketAddr, Timestamp>, now: Timestamp, k: SocketAddr, v: Timestamp)
    requires
        !m.contains_key(k),
    ensures
        recent_dests(m.insert(k, v), now) == (if in_window(v, scan_interval(), now) {
            recent_dests(m, now).insert(k, v)
        } else {
            recent_dests(m, now)
        }),
{
    assert(recent_dests(m.insert(k, v), now) =~= (if in_window(v, scan_interval(), now) {
        recent_dests(m, now).insert(k, v)
    } else {
        recent_dests(m, now)
    }));
}

proof fn lemma_prune_insert(
    m: Map<IpAddr, Map<SocketAddr, Timestamp>>,
    now: Timestamp,
    k: IpAddr,
    v: Map<SocketAddr, Timestamp>,
)
    requires
        !m.contains_key(k),
    ensures
        prune_scans(m.insert(k, v), now) == (if !recent_dests(v, now).is_empty() {
            prune_scans(m, now).insert(k, recent_dests(v, now))
        } else {
            prune_scans(m, now)
        }),
{
    assert(prune_scans(m.insert(k, v), now) =~= (if !recent_dests(v, now).is_empty() {
        prune_scans(m, now).insert(k, recent_dests(v, now))
    } else {
        prune_scans(m, now)
    }));
}

/// A destination list is empty exactly when its map is.
proof fn lemma_dest_map_empty(d: Seq<DestinationSeen>)
    ensures
        dest_map(d).is_empty() <==> d.len() == 0,
{
    lemma_assoc_dom(dest_pairs(d));
    if d.len() > 0 {
        assert(dest_pairs(d)[0].0 == d[0].dst);
        assert(dest_map(d).contains_key(d[0].dst));
        assert(!Set::<SocketAddr>::empty().contains(d[0].dst));
    } else {
        assert(dest_map(d).dom() =~= Set::<SocketAddr>::empty());
    }
}

/// The destinations of `dests` still inside the window at `now`.
fn recent_destinations(dests: &Vec<DestinationSeen>, now: Timestamp) -> (r: Vec<DestinationSeen>)
    requires
        distinct_keys(dest_pairs(dests@)),
    ensures
        distinct_keys(dest_pairs(r@)),
        dest_map(r@) == recent_dests(dest_map(dests@), now),
        r@.len() <= dests@.len(),
{
    let n = dests.len();
    let ghost p = dest_pairs(dests@);
    let interval = max_scan_interval();
    let mut out: Vec<DestinationSeen> = Vec::new();
    let mut i: usize = 0;
    proof {
        lemma_assoc_empty(dest_pairs(out@));
        lemma_assoc_empty(p.subrange(0, 0));
        assert(recent_dests(assoc_map(p.subrange(0, 0)), now) =~= Map::empty());
    }
    while i < n
        invariant
            n == dests@.len(),
            i <= n,
            p == dest_pairs(dests@),
            interval == scan_interval(),
            distinct_keys(p),
            distinct_keys(dest_pairs(out@)),
            dest_map(out@) == recent_dests(assoc_map(p.subrange(0, i as int)), now),
            out@.len() <= i,
        decreases n - i,
    {
        let e = dests[i];
        let keep = e.at.reaches(interval, now);
        let ghost pre = p.subrange(0, i as int);
        proof {
            assert(p[i as int] == (e.dst, e.at));
            lemma_assoc_prefix(p, i as int);
            lemma_assoc_push(pre, e.dst, e.at);
            lemma_recent_insert(assoc_map(pre), now, e.dst, e.at);
        }
        if keep {
            let ghost old_out = out@;
            proof {
                assert(!dest_map(old_out).contains_key(e.dst));
                lemma_assoc_push(dest_pairs(old_out), e.dst, e.at);
            }
            out.push(e);
            assert(dest_pairs(out@) =~= dest_pairs(old_out).push((e.dst, e.at)));
        }
        i = i + 1;
    }
    assert(p.subrange(0, n as int) =~= p);
    out
}

/// The history at `now`: recent destinations only, and no source without one.
fn prune_history(h: &Vec<SourceHistory>, now: Timestamp) -> (r: Vec<SourceHistory>)
    requires
        history_ok(h@),
        sources_below_threshold(h@),
    ensures
        history_ok(r@),
        sources_below_threshold(r@),
        assoc_map(source_pairs(r@)) == prune_scans(assoc_map(source_pairs(h@)), now),
{
    let n = h.len();
    let ghost p = source_pairs(h@);
    let mut out: Vec<SourceHistory> = Vec::new();
    let mut i: usize = 0;
    proof {
        lemma_assoc_empty(source_pairs(out@));
        lemma_assoc_empty(p.subrange(0, 0));
        assert(prune_scans(assoc_map(p.subrange(0, 0)), now) =~= Map::empty());
    }
    while i < n
        invariant
            n == h@.len(),
            i <= n,
            p == source_pairs(h@),
            history_ok(h@),
            history_ok(out@),
            sources_below_threshold(h@),
            sources_below_threshold(out@),
            assoc_map(source_pairs(out@)) == prune_scans(assoc_map(p.subrange(0, i as int)), now),
        decreases n - i,
    {
        let e = &h[i];
        let kept = recent_destinations(&e.dests, now);
        let ghost pre = p.subrange(0, i as int);
        proof {
            assert(p[i as int] == (e.src, dest_map(e.dests@)));
            lemma_assoc_prefix(p, i as int);
            lemma_assoc_push(pre, e.src, dest_map(e.dests@));
            lemma_prune_insert(assoc_map(pre), now, e.src, dest_map(e.dests@));
            lemma_dest_map_empty(kept@);
        }
        if kept.len() > 0 {
            let ghost old_out = out@;
            let entry = SourceHistory { src: e.src, dests: kept };
            proof {
                assert(!assoc_map(source_pairs(old_out)).contains_key(e.src));
                lemma_assoc_push(source_pairs(old_out), e.src, dest_map(entry.dests@));
            }
            out.push(entry);
            proof {
                assert(source_pairs(out@) =~= source_pairs(old_out).push(
                    (e.src, dest_map(entry.dests@)),
                ));
                assert forall|j: int| 0 <= j < out@.len() implies distinct_keys(
                    dest_pairs(#[trigger] out@[j].dests@),
                ) && out@[j].dests@.len() > 0 && out@[j].dests@.len()
                    < SCAN_PACKET_COUNT_THRESHOLD by {
                    if j < old_out.len() {
                        assert(out@[j] == old_out[j]);
                    }
                }
            }
        }
        i = i + 1;
    }
    assert(p.subrange(0, n as int) =~= p);
    out
}

/// The position of `src` in the history, if it is there.
fn find_source(h: &Vec<SourceHistory>, src: &IpAddr) -> (r: Option<usize>)
    ensures
        match r {
            Some(i) => i < h@.len() && h@[i as int].src == *src,
            None => forall|i: int| 0 <= i < h@.len() ==> h@[i].src != *src,
        },
{
    let n = h.len();
    let mut i: usize = 0;
    while i < n
        invariant
            n == h@.len(),
            i <= n,
            forall|j: int| 0 <= j < i ==> h@[j].src != *src,
        decreases n - i,
    {
        if h[i].src == *src {
            return Some(i);
        }
        i = i + 1;
    }
    None
}

/// Records that `dst` was contacted at `now`.
fn record_destination(list: Vec<DestinationSeen>, dst: SocketAddr, now: Timestamp) -> (r: Vec<
    DestinationSeen,
>)
    requires
        distinct_keys(dest_pairs(list@)),
    ensures
        distinct_keys(dest_pairs(r@)),
        dest_map(r@) == dest_map(list@).insert(dst, now),
        r@.len() > 0,
        r@.len() <= list@.len() + 1,
{
    let mut dests = list;
    let n = dests.len();
    let mut i: usize = 0;
    while i < n
        invariant
            n == dests@.len(),
            dests@ == list@,
            distinct_keys(dest_pairs(list@)),
            i <= n,
            forall|j: int| 0 <= j < i ==> dests@[j].dst != dst,
        decreases n - i,
    {
        if dests[i].dst == dst {
            let ghost before = dests@;
            proof {
                assert(dest_pairs(before)[i as int].0 == dst);
                lemma_assoc_update(dest_pairs(before), i as int, now);
            }
            dests.set(i, DestinationSeen { dst, at: now });
            assert(dest_pairs(dests@) =~= dest_pairs(before).update(i as int, (dst, now)));
            return dests;
        }
        i = i + 1;
    }
    let ghost before = dests@;
    proof {
        lemma_assoc_dom(dest_pairs(before));
        if dest_map(before).contains_key(dst) {
            let j = choose|j: int| 0 <= j < before.len() && dest_pairs(before)[j].0 == dst;
            assert(before[j].dst == dst);
        }
        lemma_assoc_push(dest_pairs(before), dst, now);
    }
    dests.push(DestinationSeen { dst, at: now });
    assert(dest_pairs(dests@) =~= dest_pairs(before).push((dst, now)));
    dests
}

/// The destination ports of a destination list.
fn ports_of(dests: &Vec<DestinationSeen>) -> (r: Vec<u16>)
    ensures
        r@.to_set() == dest_ports(dest_map(dests@)),
{
    let n = dests.len();
    let mut out: Vec<u16> = Vec::new();
    let mut i: usize = 0;
    while i < n
        invariant
            n == dests@.len(),
            i <= n,
            out@.len() == i,
            forall|j: int| 0 <= j < i ==> out@[j] == dests@[j].dst.port,
        decreases n - i,
    {
        out.push(dests[i].dst.port);
        i = i + 1;
    }
    proof {
        let m = dest_map(dests@);
        lemma_assoc_dom(dest_pairs(dests@));
        assert forall|x: u16| out@.to_set().contains(x) implies #[trigger] dest_ports(m).contains(
            x,
        ) by {
            let j = choose|j: int| 0 <= j < out@.len() && out@[j] == x;
            assert(dest_pairs(dests@)[j].0 == dests@[j].dst);
            assert(m.contains_key(dests@[j].dst));
        }
        assert forall|x: u16| #[trigger] dest_ports(m).contains(x) implies out@.to_set().contains(
            x,
        ) by {
            let d = choose|d: SocketAddr| m.dom().contains(d) && x == d.port;
            let j = choose|j: int| 0 <= j < dests@.len() && dest_pairs(dests@)[j].0 == d;
            assert(out@[j] == x);
        }
        assert(out@.to_set() =~= dest_ports(m));
    }
    out
}

/// The source and destination socket that a packet probes, for TCP and UDP over IP.
fn scan_target(packet: &ParsedPacket) -> (r: Option<(IpAddr, SocketAddr)>)
    ensures
        r == scan_probe(*packet),
{
    let (s, d) = match src_dst_ip(packet) {
        Some(x) => x,
        None => return None,
    };
    match &packet.transport {
        Some(TransportHeader::Tcp(x)) => Some((s, SocketAddr { ip: d, port: x.dst_port })),
        Some(TransportHeader::Udp(x)) => Some((s, SocketAddr { ip: d, port: x.dst_port })),
        _ => None,
    }
}

impl View for SingleSourceScanState {
    type V = Map<IpAddr, Map<SocketAddr, Timestamp>>;

    /// Each tracked source with its destination sockets and when each was last contacted.
    closed spec fn view(&self) -> Self::V {
        assoc_map(source_pairs(self.history@))
    }
}

impl Default for SingleSourceScanState {
    /// A detector that has seen nothing.
    fn default() -> (r: Self)
        ensures
            r@ == Map::<IpAddr, Map<SocketAddr, Timestamp>>::empty(),
    {
        SingleSourceScanState::new()
    }
}

impl SingleSourceScanState {
    #[verifier::type_invariant]
    spec fn inv(&self) -> bool {
        &&& history_ok(self.history@)
        &&& sources_below_threshold(self.history@)
    }

    /// A detector that has seen nothing.
    pub fn new() -> (r: Self)
        ensures
            r@ == Map::<IpAddr, Map<SocketAddr, Timestamp>>::empty(),
    {
        let r = SingleSourceScanState { history: Vec::new() };
        proof {
            lemma_assoc_empty(source_pairs(r.history@));
        }
        r
    }

    /// Whether no source is tracked.
    pub fn history_is_empty(&self) -> (r: bool)
        ensures
            r == (self@.len() == 0),
    {
        proof {
            use_type_invariant(self);
            lemma_assoc_len(source_pairs(self.history@));
        }
        self.history.len() == 0
    }

    /// Logs one packet and reports a port scan when its source has now contacted
    /// [`SCAN_PACKET_COUNT_THRESHOLD`] distinct destination sockets within the window.
    pub fn log_packet(&mut self, packet: &ParsedPacket) -> (r: Option<Activity>)
        requires
            packet.timestamp.wf(),
        ensures
            scan_outcome(old(self)@, *packet, final(self)@, r),
            r matches Some(Activity::SingleSourceScan { destinations, .. }) ==> destinations
                == SCAN_PACKET_COUNT_THRESHOLD,
    {
        proof {
            use_type_invariant(&*self);
        }
        let now = packet.timestamp;
        let pruned = prune_history(&self.history, now);
        let ghost pruned_map = assoc_map(source_pairs(pruned@));
        self.history = pruned;
        let (src, dst) = match scan_target(packet) {
            Some(t) => t,
            None => return None,
        };
        let mut h: Vec<SourceHistory> = Vec::new();
        std::mem::swap(&mut h, &mut self.history);
        assert(h@ == pruned@);
        let dests: Vec<DestinationSeen> = match find_source(&h, &src) {
            Some(i) => {
                proof {
                    assert(source_pairs(h@)[i as int] == (src, dest_map(h@[i as int].dests@)));
                    lemma_assoc_index(source_pairs(h@), i as int);
                    lemma_assoc_remove(source_pairs(h@), i as int);
                    assert(source_pairs(h@.remove(i as int)) =~= source_pairs(h@).remove(i as int));
                }
                let ghost before = h@;
                let e = h.remove(i);
                proof {
                    assert forall|j: int| 0 <= j < h@.len() implies distinct_keys(
                        dest_pairs(#[trigger] h@[j].dests@),
                    ) && h@[j].dests@.len() > 0 && h@[j].dests@.len()
                        < SCAN_PACKET_COUNT_THRESHOLD by {
                        if j < i {
                            assert(h@[j] == before[j]);
                        } else {
                            assert(h@[j] == before[j + 1]);
                        }
                    }
                    assert(e.dests@ == before[i as int].dests@);
                    assert(e.dests@.len() < SCAN_PACKET_COUNT_THRESHOLD);
                }
                e.dests
            },
            None => {
                proof {
                    lemma_assoc_dom(source_pairs(h@));
                    if pruned_map.contains_key(src) {
                        let j = choose|j: int| 0 <= j < h@.len() && source_pairs(h@)[j].0 == src;
                        assert(h@[j].src == src);
                    }
                    assert(pruned_map.remove(src) =~= pruned_map);
                }
                let d: Vec<DestinationSeen> = Vec::new();
                proof {
                    lemma_assoc_empty(dest_pairs(d@));
                }
                d
            },
        };
        assert(assoc_map(source_pairs(h@)) == pruned_map.remove(src));
        assert(dest_map(dests@) == (if pruned_map.contains_key(src) {
            pruned_map[src]
        } else {
            Map::empty()
        }));
        assert(dests@.len() < SCAN_PACKET_COUNT_THRESHOLD);
        let dests = record_destination(dests, dst, now);
        proof {
            lemma_assoc_len(dest_pairs(dests@));
        }
        if dests.len() < SCAN_PACKET_COUNT_THRESHOLD {
            let ghost before = h@;
            proof {
                lemma_assoc_push(source_pairs(before), src, dest_map(dests@));
            }
            h.push(SourceHistory { src, dests });
            proof {
                assert(source_pairs(h@) =~= source_pairs(before).push((src, dest_map(dests@))));
                assert forall|j: int| 0 <= j < h@.len() implies distinct_keys(
                    dest_pairs(#[trigger] h@[j].dests@),
                ) && h@[j].dests@.len() > 0 && h@[j].dests@.len()
                    < SCAN_PACKET_COUNT_THRESHOLD by {
                    if j < before.len() {
                        assert(h@[j] == before[j]);
                    }
                }
                assert(pruned_map.remove(src).insert(src, dest_map(dests@)) =~= pruned_map.insert(
                    src,
                    dest_map(dests@),
                ));
            }
            self.history = h;
            return None;
        }
        self.history = h;
        let destinations = dests.len();
        let ports = ports_of(&dests);
        let sample = evidence_sample(&ports);
        Some(Activity::SingleSourceScan { src, destinations, ports: sample })
    }
}

/// Every tracked source has fewer than [`SCAN_PACKET_COUNT_THRESHOLD`] destinations.
pub open spec fn scans_below_threshold(h: Map<IpAddr, Map<SocketAddr, Timestamp>>) -> bool {
    forall|s: IpAddr|
        #[trigger] h.contains_key(s) ==> h[s].dom().finite() && h[s].len()
            < SCAN_PACKET_COUNT_THRESHOLD
}

/// Nothing older than the window is kept: after a packet, every destination still tracked was
/// contacted within [`MAX_SCAN_INTERVAL_SECS`] seconds before that packet.
pub proof fn lemma_scan_window(
    h: Map<IpAddr, Map<SocketAddr, Timestamp>>,
    p: ParsedPacket,
    h2: Map<IpAddr, Map<SocketAddr, Timestamp>>,
    r: Option<Activity>,
)
    requires
        scan_outcome(h, p, h2, r),
    ensures
        forall|s: IpAddr, d: SocketAddr|
            h2.contains_key(s) && #[trigger] h2[s].contains_key(d) ==> in_window(
                h2[s][d],
                scan_interval(),
                p.timestamp,
            ),
{
}

/// A detection is made exactly when a source reaches the threshold, so with every source below
/// it beforehand (as from an empty history) every source stays below it, and a reported source
/// has contacted exactly [`SCAN_PACKET_COUNT_THRESHOLD`] destinations and is then forgotten.
pub proof fn lemma_scan_threshold(
    h: Map<IpAddr, Map<SocketAddr, Timestamp>>,
    p: ParsedPacket,
    h2: Map<IpAddr, Map<SocketAddr, Timestamp>>,
    r: Option<Activity>,
)
    requires
        scans_below_threshold(h),
        scan_outcome(h, p, h2, r),
    ensures
        scans_below_threshold(h2),
        r matches Some(Activity::SingleSourceScan { src, destinations, .. }) ==> destinations
            == SCAN_PACKET_COUNT_THRESHOLD && !h2.contains_key(src),
{
    let now = p.timestamp;
    let pruned = prune_scans(h, now);
    assert forall|s: IpAddr| #[trigger] pruned.contains_key(s) implies pruned[s].dom().finite()
        && pruned[s].len() < SCAN_PACKET_COUNT_THRESHOLD by {
        assert(pruned[s].dom().subset_of(h[s].dom()));
        vstd::set_lib::lemma_len_subset(pruned[s].dom(), h[s].dom());
    }
    match scan_probe(p) {
        None => {},
        Some((src, dst)) => {
            let dests = scan_dests_after(pruned, src, dst, now);
            let before = if pruned.contains_key(src) {
                pruned[src]
            } else {
                Map::<SocketAddr, Timestamp>::empty()
            };
            assert(before.dom().finite());
            assert(dests.dom() == before.dom().insert(dst));
            assert(dests.len() <= before.len() + 1);
            if dests.len() < SCAN_PACKET_COUNT_THRESHOLD {
                assert forall|s: IpAddr| #[trigger] h2.contains_key(s) implies h2[s].dom().finite()
                    && h2[s].len() < SCAN_PACKET_COUNT_THRESHOLD by {
                    if s != src {
                        assert(pruned.contains_key(s));
                    }
                }
            } else {
                assert forall|s: IpAddr| #[trigger] h2.contains_key(s) implies h2[s].dom().finite()
                    && h2[s].len() < SCAN_PACKET_COUNT_THRESHOLD by {
                    assert(pruned.contains_key(s));
                }
            }
        },
    }
}

/// Sources are judged separately: a packet changes the history of its own source only, apart
/// from forgetting what has aged out.
pub proof fn lemma_scan_sources_separate(
    h: Map<IpAddr, Map<SocketAddr, Timestamp>>,
    p: ParsedPacket,
    h2: Map<IpAddr, Map<SocketAddr, Timestamp>>,
    r: Option<Activity>,
    other: IpAddr,
)
    requires
        scan_outcome(h, p, h2, r),
        !(scan_probe(p) matches Some((src, _)) && src == other),
    ensures
        h2.contains_key(other) == prune_scans(h, p.timestamp).contains_key(other),
        h2.contains_key(other) ==> h2[other] == prune_scans(h, p.timestamp)[other],
{
}

/// Only TCP and UDP packets over IPv4 or IPv6 are probes: any other packet reports nothing and
/// adds nothing; it only lets old destinations age out.
pub proof fn lemma_scan_probes_only(
    h: Map<IpAddr, Map<SocketAddr, Timestamp>>,
    p: ParsedPacket,
    h2: Map<IpAddr, Map<SocketAddr, Timestamp>>,
    r: Option<Activity>,
)
    requires
        scan_outcome(h, p, h2, r),
        !((p.transport matches Some(TransportHeader::Tcp(_)) || p.transport matches Some(
            TransportHeader::Udp(_),
        )) && spec_src_dst_ip(p) is Some),
    ensures
        r is None,
        h2 == prune_scans(h, p.timestamp),
{
}

/// The destinations `src` has in a history, none when it is not tracked.
pub open spec fn scan_entry(h: Map<IpAddr, Map<SocketAddr, Timestamp>>, src: IpAddr) -> Map<
    SocketAddr,
    Timestamp,
> {
    if h.contains_key(src) {
        h[src]
    } else {
        Map::empty()
    }
}

/// The destination sockets `src` probed among packets `lo` to `hi - 1` of `ps`, each with
/// when it was last probed.
pub open spec fn dests_between(ps: Seq<ParsedPacket>, lo: int, hi: int, src: IpAddr) -> Map<
    SocketAddr,
    Timestamp,
>
    decreases hi - lo,
{
    if hi <= lo {
        Map::empty()
    } else {
        let before = dests_between(ps, lo, hi - 1, src);
        match scan_probe(ps[hi - 1]) {
            Some((s, d)) => if s == src {
                before.insert(d, ps[hi - 1].timestamp)
            } else {
                before
            },
            None => before,
        }
    }
}

/// Where counting starts for `src` after the first `k` results of a run: just past the last
/// scan reported from `src`, or at the start.
pub open spec fn scan_reset(rs: Seq<Option<Activity>>, k: int, src: IpAddr) -> int
    decreases k,
{
    if k <= 0 {
        0
    } else if rs[k - 1] matches Some(Activity::SingleSourceScan { src: s, .. }) && s == src {
        k
    } else {
        scan_reset(rs, k - 1, src)
    }
}

/// The destinations of `src` that count at packet `k` of a run: those probed since the last
/// scan reported from `src`, packet `k`'s own included, last probed inside the window at
/// packet `k`.
pub open spec fn scan_count(
    ps: Seq<ParsedPacket>,
    rs: Seq<Option<Activity>>,
    k: int,
    src: IpAddr,
) -> int {
    recent_dests(dests_between(ps, scan_reset(rs, k, src), k + 1, src), ps[k].timestamp).len()
        as int
}

/// `hs` and `rs` are the histories and results of logging packets `ps` one after another,
/// from an empty history.
pub open spec fn scan_run(
    hs: Seq<Map<IpAddr, Map<SocketAddr, Timestamp>>>,
    rs: Seq<Option<Activity>>,
    ps: Seq<ParsedPacket>,
) -> bool {
    &&& hs.len() == ps.len() + 1
    &&& rs.len() == ps.len()
    &&& hs[0] == Map::<IpAddr, Map<SocketAddr, Timestamp>>::empty()
    &&& forall|k: int|
        0 <= k < ps.len() ==> #[trigger] scan_outcome(hs[k], ps[k], hs[k + 1], rs[k])
}

/// What packet `k` of a run reports: nothing unless it is a TCP or UDP probe over IP, and for
/// one from `src` a scan exactly when the destinations that count for `src` reach
/// [`SCAN_PACKET_COUNT_THRESHOLD`], with their number.
pub open spec fn scan_step_reported(ps: Seq<ParsedPacket>, rs: Seq<Option<Activity>>, k: int) -> bool {
    match scan_probe(ps[k]) {
        None => rs[k] is None,
        Some((src, d)) => {
            let n = scan_count(ps, rs, k, src);
            if n < SCAN_PACKET_COUNT_THRESHOLD {
                rs[k] is None
            } else {
                rs[k] matches Some(Activity::SingleSourceScan { src: s, destinations, .. })
                    && s == src && destinations == n
            }
        },
    }
}

proof fn lemma_recent_dests_twice(m: Map<SocketAddr, Timestamp>, t1: Timestamp, t2: Timestamp)
    requires
        t1.total() <= t2.total(),
    ensures
        recent_dests(recent_dests(m, t1), t2) == recent_dests(m, t2),
{
    assert(recent_dests(recent_dests(m, t1), t2) =~= recent_dests(m, t2));
}

proof fn lemma_prune_scan_entry(h: Map<IpAddr, Map<SocketAddr, Timestamp>>, now: Timestamp, src: IpAddr)
    ensures
        scan_entry(prune_scans(h, now), src) == recent_dests(scan_entry(h, src), now),
{
    assert(recent_dests(Map::<SocketAddr, Timestamp>::empty(), now) =~= Map::<
        SocketAddr,
        Timestamp,
    >::empty());
    if h.contains_key(src) && recent_dests(h[src], now).is_empty() {
        assert(recent_dests(h[src], now) =~= Map::<SocketAddr, Timestamp>::empty());
    }
}

proof fn lemma_scan_reset_bound(rs: Seq<Option<Activity>>, k: int, src: IpAddr)
    requires
        0 <= k,
    ensures
        0 <= scan_reset(rs, k, src) <= k,
    decreases k,
{
    if k > 0 {
        lemma_scan_reset_bound(rs, k - 1, src);
    }
}

/// After the first `k` packets of a run every source holds exactly the destinations it probed
/// since its last reported scan, last probed inside the window at packet `k - 1`.
proof fn lemma_scan_run_history(
    hs: Seq<Map<IpAddr, Map<SocketAddr, Timestamp>>>,
    rs: Seq<Option<Activity>>,
    ps: Seq<ParsedPacket>,
    k: int,
)
    requires
        scan_run(hs, rs, ps),
        times_nondecreasing(ps),
        0 <= k <= ps.len(),
    ensures
        forall|src: IpAddr|
            #[trigger] scan_entry(hs[k], src) == (if k == 0 {
                Map::<SocketAddr, Timestamp>::empty()
            } else {
                recent_dests(dests_between(ps, scan_reset(rs, k, src), k, src), ps[k - 1].timestamp)
            }),
    decreases k,
{
    if k > 0 {
        let j = k - 1;
        lemma_scan_run_history(hs, rs, ps, j);
        lemma_scan_pruned(hs, rs, ps, j);
        let h = hs[j];
        let p = ps[j];
        let now = p.timestamp;
        let pruned = prune_scans(h, now);
        assert(scan_outcome(h, p, hs[j + 1], rs[j]));
        assert forall|src: IpAddr| #[trigger]
            scan_entry(hs[k], src) == recent_dests(
                dests_between(ps, scan_reset(rs, k, src), k, src),
                now,
            ) by {
            lemma_scan_reset_bound(rs, j, src);
            let lo = scan_reset(rs, j, src);
            assert(scan_entry(pruned, src) == recent_dests(dests_between(ps, lo, j, src), now));
            match scan_probe(p) {
                None => {
                    assert(dests_between(ps, lo, k, src) == dests_between(ps, lo, j, src));
                },
                Some((s, dst)) => {
                    if s != src {
                        assert(dests_between(ps, lo, k, src) == dests_between(ps, lo, j, src));
                    } else {
                        let m = dests_between(ps, lo, j, src);
                        assert(recent_dests(m.insert(dst, now), now) =~= recent_dests(m, now).insert(
                            dst,
                            now,
                        ));
                        let dests = scan_dests_after(pruned, s, dst, now);
                        if dests.len() < SCAN_PACKET_COUNT_THRESHOLD {
                            assert(dests_between(ps, lo, k, src) == m.insert(dst, now));
                        } else {
                            assert(recent_dests(Map::<SocketAddr, Timestamp>::empty(), now)
                                =~= Map::<SocketAddr, Timestamp>::empty());
                        }
                    }
                },
            }
        }
    }
}

/// At packet `k` of a run, once old destinations have aged out, every source holds the
/// destinations it probed since its last reported scan, last probed inside the window at
/// packet `k`.
proof fn lemma_scan_pruned(
    hs: Seq<Map<IpAddr, Map<SocketAddr, Timestamp>>>,
    rs: Seq<Option<Activity>>,
    ps: Seq<ParsedPacket>,
    k: int,
)
    requires
        scan_run(hs, rs, ps),
        times_nondecreasing(ps),
        0 <= k < ps.len(),
        forall|src: IpAddr|
            #[trigger] scan_entry(hs[k], src) == (if k == 0 {
                Map::<SocketAddr, Timestamp>::empty()
            } else {
                recent_dests(dests_between(ps, scan_reset(rs, k, src), k, src), ps[k - 1].timestamp)
            }),
    ensures
        forall|src: IpAddr| #[trigger]
            scan_entry(prune_scans(hs[k], ps[k].timestamp), src) == recent_dests(
                dests_between(ps, scan_reset(rs, k, src), k, src),
                ps[k].timestamp,
            ),
{
    let now = ps[k].timestamp;
    assert forall|src: IpAddr| #[trigger]
        scan_entry(prune_scans(hs[k], now), src) == recent_dests(
            dests_between(ps, scan_reset(rs, k, src), k, src),
            now,
        ) by {
        lemma_prune_scan_entry(hs[k], now, src);
        if k == 0 {
            assert(scan_entry(hs[k], src) == Map::<SocketAddr, Timestamp>::empty());
            assert(recent_dests(Map::<SocketAddr, Timestamp>::empty(), now) =~= Map::<
                SocketAddr,
                Timestamp,
            >::empty());
        } else {
            lemma_recent_dests_twice(
                dests_between(ps, scan_reset(rs, k, src), k, src),
                ps[k - 1].timestamp,
                now,
            );
        }
    }
}

/// Packet `k` of a run reports as `scan_step_reported` says.
proof fn lemma_scan_run_step(
    hs: Seq<Map<IpAddr, Map<SocketAddr, Timestamp>>>,
    rs: Seq<Option<Activity>>,
    ps: Seq<ParsedPacket>,
    k: int,
)
    requires
        scan_run(hs, rs, ps),
        times_nondecreasing(ps),
        0 <= k < ps.len(),
    ensures
        scan_step_reported(ps, rs, k),
{
    lemma_scan_run_history(hs, rs, ps, k);
    lemma_scan_pruned(hs, rs, ps, k);
    let h = hs[k];
    let p = ps[k];
    let now = p.timestamp;
    let pruned = prune_scans(h, now);
    assert(scan_outcome(h, p, hs[k + 1], rs[k]));
    match scan_probe(p) {
        None => {},
        Some((src, dst)) => {
            let lo = scan_reset(rs, k, src);
            lemma_scan_reset_bound(rs, k, src);
            let m = dests_between(ps, lo, k, src);
            assert(dests_between(ps, lo, k + 1, src) == m.insert(dst, now));
            assert(recent_dests(m.insert(dst, now), now) =~= recent_dests(m, now).insert(dst, now));
            assert(scan_entry(pruned, src) == recent_dests(m, now));
            assert(scan_dests_after(pruned, src, dst, now) == recent_dests(
                dests_between(ps, lo, k + 1, src),
                now,
            ));
        },
    }
}

/// Along a run every source stays below the threshold.
proof fn lemma_scan_run_below(
    hs: Seq<Map<IpAddr, Map<SocketAddr, Timestamp>>>,
    rs: Seq<Option<Activity>>,
    ps: Seq<ParsedPacket>,
    k: int,
)
    requires
        scan_run(hs, rs, ps),
        0 <= k <= ps.len(),
    ensures
        scans_below_threshold(hs[k]),
        k < ps.len() ==> (rs[k] matches Some(Activity::SingleSourceScan { destinations, .. })
            ==> destinations == SCAN_PACKET_COUNT_THRESHOLD),
    decreases k,
{
    if k > 0 {
        lemma_scan_run_below(hs, rs, ps, k - 1);
        assert(scan_outcome(hs[k - 1], ps[k - 1], hs[(k - 1) + 1], rs[k - 1]));
        lemma_scan_threshold(hs[k - 1], ps[k - 1], hs[k], rs[k - 1]);
    }
    if k < ps.len() {
        assert(scan_outcome(hs[k], ps[k], hs[k + 1], rs[k]));
        lemma_scan_threshold(hs[k], ps[k], hs[k + 1], rs[k]);
    }
}

/// Over a run with capture times in order, each packet reports a scan exactly when it is a TCP
/// or UDP probe over IP and the distinct destinations its source has probed since the last scan
/// reported from it, itself included, last probed inside the window, reach
/// [`SCAN_PACKET_COUNT_THRESHOLD`]; the report names that source and that number, which is
/// then exactly the threshold.
pub proof fn lemma_scan_run(
    hs: Seq<Map<IpAddr, Map<SocketAddr, Timestamp>>>,
    rs: Seq<Option<Activity>>,
    ps: Seq<ParsedPacket>,
)
    requires
        scan_run(hs, rs, ps),
        times_nondecreasing(ps),
    ensures
        forall|k: int| 0 <= k < ps.len() ==> #[trigger] scan_step_reported(ps, rs, k),
        forall|k: int|
            0 <= k < ps.len() ==> (#[trigger] rs[k] matches Some(
                Activity::SingleSourceScan { destinations, .. },
            ) ==> destinations == SCAN_PACKET_COUNT_THRESHOLD),
{
    assert forall|k: int| 0 <= k < ps.len() implies #[trigger] scan_step_reported(ps, rs, k) by {
        lemma_scan_run_step(hs, rs, ps, k);
    }
    assert forall|k: int| 0 <= k < ps.len() implies (#[trigger] rs[k] matches Some(
        Activity::SingleSourceScan { destinations, .. },
    ) ==> destinations == SCAN_PACKET_COUNT_THRESHOLD) by {
        lemma_scan_run_below(hs, rs, ps, k);
    }
}

/// After logging a packet, `src` was seen probing `dst` at `now`: either it now holds `dst`
/// last probed at `now`, or a scan from `src` was reported and `src` forgotten.
pub open spec fn probe_logged(
    h2: Map<IpAddr, Map<SocketAddr, Timestamp>>,
    r: Option<Activity>,
    src: IpAddr,
    dst: SocketAddr,
    now: Timestamp,
) -> bool {
    match r {
        None => h2.contains_key(src) && h2[src].contains_key(dst) && h2[src][dst] == now,
        Some(a) => (a matches Activity::SingleSourceScan { src: s, .. } && s == src)
            && !h2.contains_key(src),
    }
}

/// A TCP or UDP packet over IPv4, or over IPv6 without an IPv4 header, is logged as its IP
/// source probing the socket made of its IP destination and its transport destination port.
pub proof fn lemma_scan_logs_destination_socket(
    h: Map<IpAddr, Map<SocketAddr, Timestamp>>,
    p: ParsedPacket,
    h2: Map<IpAddr, Map<SocketAddr, Timestamp>>,
    r: Option<Activity>,
)
    requires
        scan_outcome(h, p, h2, r),
    ensures
        p.ipv4 matches Some(x) ==> (p.transport matches Some(TransportHeader::Tcp(t))
            ==> probe_logged(
            h2,
            r,
            IpAddr::V4(x.src_ip),
            SocketAddr { ip: IpAddr::V4(x.dst_ip), port: t.dst_port },
            p.timestamp,
        )),
        p.ipv4 matches Some(x) ==> (p.transport matches Some(TransportHeader::Udp(u))
            ==> probe_logged(
            h2,
            r,
            IpAddr::V4(x.src_ip),
            SocketAddr { ip: IpAddr::V4(x.dst_ip), port: u.dst_port },
            p.timestamp,
        )),
        p.ipv4 is None ==> (p.ipv6 matches Some(x) ==> (p.transport matches Some(
            TransportHeader::Tcp(t),
        ) ==> probe_logged(
            h2,
            r,
            IpAddr::V6(x.src_ip),
            SocketAddr { ip: IpAddr::V6(x.dst_ip), port: t.dst_port },
            p.timestamp,
        ))),
        p.ipv4 is None ==> (p.ipv6 matches Some(x) ==> (p.transport matches Some(
            TransportHeader::Udp(u),
        ) ==> probe_logged(
            h2,
            r,
            IpAddr::V6(x.src_ip),
            SocketAddr { ip: IpAddr::V6(x.dst_ip), port: u.dst_port },
            p.timestamp,
        ))),
{
}

} // verus!
