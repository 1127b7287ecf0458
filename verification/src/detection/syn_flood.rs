//! SYN-flood detection: many bare SYNs landing on one destination socket within a short
//! window.
use vstd::prelude::*;

use crate::assoc::{
    assoc_map, distinct_keys, lemma_assoc_dom, lemma_assoc_empty, lemma_assoc_index,
    lemma_assoc_len, lemma_assoc_prefix, lemma_assoc_push, lemma_assoc_remove,
};
use crate::capture::parser::{ParsedPacket, TransportHeader};
use crate::detection::port_scan::in_window;
use crate::detection::{
    Activity, evidence_sample, is_evidence_sample, spec_src_dst_ip, src_dst_ip, times_nondecreasing,
};
use crate::net::{IpAddr, SocketAddr};
use crate::time::{Duration, Timestamp};

verus! {

/// The interval, in seconds, within which a burst of SYNs is considered an attack when a
/// detector is made without settings.
pub const SYN_FLOOD_INTERVAL_SECS: u64 = 1;

/// How many SYNs within the interval are considered an attack when a detector is made without
/// settings.
pub const SYN_FLOOD_PACKET_COUNT_THRESHOLD: usize = 256;

/// One observed bare SYN, kept only long enough to age out of the detector's interval.
#[derive(Clone, Copy)]
pub struct SynRecord {
    pub at: Timestamp,
    pub src: IpAddr,
}

/// The SYNs that landed on one destination, oldest first.
pub struct DestinationSyns {
    pub dst: SocketAddr,
    pub records: Vec<SynRecord>,
}

pub struct SynFloodState {
    /// Time interval within which a large number of SYNs is considered an attack.
    syn_flood_interval: Duration,
    /// Amount of SYNs considered a large number for the time interval.
    syn_flood_packet_count_threshold: usize,
    /// Destinations with the SYNs that landed on them within the interval.
    history: Vec<DestinationSyns>,
}

pub open spec fn flood_pairs(h: Seq<DestinationSyns>) -> Seq<(SocketAddr, Seq<SynRecord>)> {
    h.map_values(|e: DestinationSyns| (e.dst, e.records@))
}

/// Destinations appear once, each with at least one SYN.
pub open spec fn floods_ok(h: Seq<DestinationSyns>) -> bool {
    &&& distinct_keys(flood_pairs(h))
    &&& forall|i: int| 0 <= i < h.len() ==> (#[trigger] h[i]).records@.len() > 0
}

/// Every destination has received fewer than `threshold` SYNs.
pub open spec fn syns_below(h: Seq<DestinationSyns>, threshold: usize) -> bool {
    forall|i: int| 0 <= i < h.len() ==> (#[trigger] h[i]).records@.len() < threshold
}

/// The count a flood is reported with: the threshold, and one SYN for a threshold of zero.
pub open spec fn reported_count(threshold: usize) -> int {
    if threshold == 0 {
        1
    } else {
        threshold as int
    }
}

/// Whether a SYN record still counts at `now`.
pub open spec fn record_in_window(interval: Duration, now: Timestamp) -> spec_fn(SynRecord) -> bool {
    |r: SynRecord| in_window(r.at, interval, now)
}

/// The SYNs of `s` still inside the window at `now`, in their order.
pub open spec fn recent_records(s: Seq<SynRecord>, interval: Duration, now: Timestamp) -> Seq<
    SynRecord,
> {
    s.filter(record_in_window(interval, now))
}

/// The history at `now`: every destination keeps its SYNs still inside the window, and a
/// destination with none left is dropped.
pub open spec fn prune_floods(
    h: Map<SocketAddr, Seq<SynRecord>>,
    interval: Duration,
    now: Timestamp,
) -> Map<SocketAddr, Seq<SynRecord>> {
    Map::new(
        |d: SocketAddr| h.contains_key(d) && recent_records(h[d], interval, now).len() > 0,
        |d: SocketAddr| recent_records(h[d], interval, now),
    )
}

/// The source address and destination socket of a bare SYN (SYN set, ACK clear) over IP.
pub open spec fn flood_probe(p: ParsedPacket) -> Option<(IpAddr, SocketAddr)> {
    match p.transport {
        Some(TransportHeader::Tcp(t)) => if t.flags.syn && !t.flags.ack {
            match spec_src_dst_ip(p) {
                Some((s, d)) => Some((s, SocketAddr { ip: d, port: t.dst_port })),
                None => None,
            }
        } else {
            None
        },
        _ => None,
    }
}

/// The source addresses of a list of SYNs.
pub open spec fn record_sources(s: Seq<SynRecord>) -> Set<IpAddr> {
    s.map_values(|r: SynRecord| r.src).to_set()
}

/// The SYNs on `dst` at `now`, with one from `src` just landed.
pub open spec fn flood_records_after(
    pruned: Map<SocketAddr, Seq<SynRecord>>,
    src: IpAddr,
    dst: SocketAddr,
    now: Timestamp,
) -> Seq<SynRecord> {
    (if pruned.contains_key(dst) {
        pruned[dst]
    } else {
        Seq::empty()
    }).push(SynRecord { at: now, src })
}

/// What logging packet `p` does to history `h` under `interval` and `threshold`, giving history
/// `h2` and result `r`: first every SYN older than the window is forgotten; a bare SYN over IP
/// is then recorded against its destination socket; when that destination has received
/// `threshold` SYNs it is reported, with the count and a sample of their sources, and its
/// history is cleared.
pub open spec fn flood_outcome(
    h: Map<SocketAddr, Seq<SynRecord>>,
    interval: Duration,
    threshold: usize,
    p: ParsedPacket,
    h2: Map<SocketAddr, Seq<SynRecord>>,
    r: Option<Activity>,
) -> bool {
    let pruned = prune_floods(h, interval, p.timestamp);
    match flood_probe(p) {
        None => h2 == pruned && r is None,
        Some((src, dst)) => {
            let recs = flood_records_after(pruned, src, dst, p.timestamp);
            if recs.len() < threshold {
                h2 == pruned.insert(dst, recs) && r is None
            } else {
                &&& h2 == pruned.remove(dst)
                &&& r matches Some(Activity::SynFlood { dst: d, syn_count: n, sources })
                &&& d == dst
                &&& n == recs.len()
                &&& is_evidence_sample(sources@, record_sources(recs))
            }
        },
    }
}

proof fn lemma_prune_floods_insert(
    m: Map<SocketAddr, Seq<SynRecord>>,
    interval: Duration,
    now: Timestamp,
    k: SocketAddr,
    v: Seq<SynRecord>,
)
    requires
        !m.contains_key(k),
    ensures
        prune_floods(m.insert(k, v), interval, now) == (if recent_records(v, interval, now).len()
            > 0 {
            prune_floods(m, interval, now).insert(k, recent_records(v, interval, now))
        } else {
            prune_floods(m, interval, now)
        }),
{
    assert(prune_floods(m.insert(k, v), interval, now) =~= (if recent_records(v, interval, now).len()
        > 0 {
        prune_floods(m, interval, now).insert(k, recent_records(v, interval, now))
    } else {
        prune_floods(m, interval, now)
    }));
}

/// The SYNs of `records` still inside the window at `now`.
fn recent_syns(records: &Vec<SynRecord>, interval: Duration, now: Timestamp) -> (r: Vec<SynRecord>)
    ensures
        r@ == recent_records(records@, interval, now),
{
    let n = records.len();
    let mut out: Vec<SynRecord> = Vec::new();
    let mut i: usize = 0;
    proof {
        reveal(Seq::filter);
        assert(records@.subrange(0, 0) =~= Seq::<SynRecord>::empty());
    }
    while i < n
        invariant
            n == records@.len(),
            i <= n,
            out@ == records@.subrange(0, i as int).filter(record_in_window(interval, now)),
        decreases n - i,
    {
        let rec = records[i];
        proof {
            reveal(Seq::filter);
            let next = records@.subrange(0, i + 1);
            assert(next.drop_last() =~= records@.subrange(0, i as int));
            assert(next.last() == rec);
        }
        if rec.at.reaches(interval, now) {
            out.push(rec);
        }
        i = i + 1;
    }
    assert(records@.subrange(0, n as int) =~= records@);
    out
}

/// The history at `now`: recent SYNs only, and no destination without one.
fn prune_flood_history(
    h: &Vec<DestinationSyns>,
    interval: Duration,
    now: Timestamp,
    threshold: usize,
) -> (r: Vec<DestinationSyns>)
    requires
        floods_ok(h@),
        syns_below(h@, threshold),
    ensures
        floods_ok(r@),
        syns_below(r@, threshold),
        assoc_map(flood_pairs(r@)) == prune_floods(assoc_map(flood_pairs(h@)), interval, now),
{
    let n = h.len();
    let ghost p = flood_pairs(h@);
    let mut out: Vec<DestinationSyns> = Vec::new();
    let mut i: usize = 0;
    proof {
        lemma_assoc_empty(flood_pairs(out@));
        lemma_assoc_empty(p.subrange(0, 0));
        assert(prune_floods(assoc_map(p.subrange(0, 0)), interval, now) =~= Map::empty());
    }
    while i < n
        invariant
            n == h@.len(),
            i <= n,
            p == flood_pairs(h@),
            floods_ok(h@),
            floods_ok(out@),
            syns_below(h@, threshold),
            syns_below(out@, threshold),
            assoc_map(flood_pairs(out@)) == prune_floods(
                assoc_map(p.subrange(0, i as int)),
                interval,
                now,
            ),
        decreases n - i,
    {
        let e = &h[i];
        let kept = recent_syns(&e.records, interval, now);
        let ghost pre = p.subrange(0, i as int);
        proof {
            assert(p[i as int] == (e.dst, e.records@));
            lemma_assoc_prefix(p, i as int);
            lemma_assoc_push(pre, e.dst, e.records@);
            lemma_prune_floods_insert(assoc_map(pre), interval, now, e.dst, e.records@);
            e.records@.lemma_filter_len(record_in_window(interval, now));
        }
        if kept.len() > 0 {
            let ghost old_out = out@;
            let entry = DestinationSyns { dst: e.dst, records: kept };
            proof {
                assert(!assoc_map(flood_pairs(old_out)).contains_key(e.dst));
                lemma_assoc_push(flood_pairs(old_out), e.dst, entry.records@);
            }
            out.push(entry);
            proof {
                assert(flood_pairs(out@) =~= flood_pairs(old_out).push((e.dst, entry.records@)));
                assert forall|j: int| 0 <= j < out@.len() implies (#[trigger] out@[j]).records@.len()
                    > 0 && out@[j].records@.len() < threshold by {
                    if j < old_out.len() {
                        assert(out@[j] == old_out[j]);
                    }
                }
            }
        }
        i = i + 1;
    }
    assert(p.subrange(0, n as int) =~= p);
    out
}

/// The position of `dst` in the history, if it is there.
fn find_destination(h: &Vec<DestinationSyns>, dst: &SocketAddr) -> (r: Option<usize>)
    ensures
        match r {
            Some(i) => i < h@.len() && h@[i as int].dst == *dst,
            None => forall|i: int| 0 <= i < h@.len() ==> h@[i].dst != *dst,
        },
{
    let n = h.len();
    let mut i: usize = 0;
    while i < n
        invariant
            n == h@.len(),
            i <= n,
            forall|j: int| 0 <= j < i ==> h@[j].dst != *dst,
        decreases n - i,
    {
        if h[i].dst == *dst {
            return Some(i);
        }
        i = i + 1;
    }
    None
}

/// The source addresses of a list of SYNs, in order.
fn sources_of(records: &Vec<SynRecord>) -> (r: Vec<IpAddr>)
    ensures
        r@.to_set() == record_sources(records@),
{
    let n = records.len();
    let mut out: Vec<IpAddr> = Vec::new();
    let mut i: usize = 0;
    while i < n
        invariant
            n == records@.len(),
            i <= n,
            out@ == records@.subrange(0, i as int).map_values(|r: SynRecord| r.src),
        decreases n - i,
    {
        out.push(records[i].src);
        proof {
            assert(records@.subrange(0, i + 1).map_values(|r: SynRecord| r.src) =~= records@.subrange(
                0,
                i as int,
            ).map_values(|r: SynRecord| r.src).push(records@[i as int].src));
        }
        i = i + 1;
    }
    assert(records@.subrange(0, n as int) =~= records@);
    out
}

/// The destination socket and source of a bare SYN over IP.
fn flood_target(packet: &ParsedPacket) -> (r: Option<(IpAddr, SocketAddr)>)
    ensures
        r == flood_probe(*packet),
{
    let tcp = match &packet.transport {
        Some(TransportHeader::Tcp(x)) => x,
        _ => return None,
    };
    // Only bare SYNs count, SYN-ACK replies aren't attack traffic.
    if !tcp.flags.syn || tcp.flags.ack {
        return None;
    }
    match src_dst_ip(packet) {
        Some((s, d)) => Some((s, SocketAddr { ip: d, port: tcp.dst_port })),
        None => None,
    }
}

impl View for SynFloodState {
    type V = Map<SocketAddr, Seq<SynRecord>>;

    /// Each tracked destination with the SYNs that landed on it, oldest first.
    closed spec fn view(&self) -> Self::V {
        assoc_map(flood_pairs(self.history@))
    }
}

impl SynFloodState {
    #[verifier::type_invariant]
    spec fn inv(&self) -> bool {
        &&& floods_ok(self.history@)
        &&& syns_below(self.history@, self.syn_flood_packet_count_threshold)
        &&& self.syn_flood_interval.wf()
    }

    /// The interval within which SYNs are counted together.
    pub closed spec fn interval(&self) -> Duration {
        self.syn_flood_interval
    }

    /// How many SYNs within the interval are an attack.
    pub closed spec fn threshold(&self) -> usize {
        self.syn_flood_packet_count_threshold
    }

    pub fn new(syn_flood_interval: Duration, syn_flood_packet_count_threshold: usize) -> (r: Self)
        requires
            syn_flood_interval.wf(),
        ensures
            r.interval() == syn_flood_interval,
            r.threshold() == syn_flood_packet_count_threshold,
            r@ == Map::<SocketAddr, Seq<SynRecord>>::empty(),
    {
        let r = SynFloodState {
            syn_flood_interval,
            syn_flood_packet_count_threshold,
            history: Vec::new(),
        };
        proof {
            lemma_assoc_empty(flood_pairs(r.history@));
        }
        r
    }

    /// A detector with the interval of [`SYN_FLOOD_INTERVAL_SECS`] seconds and the threshold
    /// [`SYN_FLOOD_PACKET_COUNT_THRESHOLD`].
    pub fn with_default_settings() -> (r: Self)
        ensures
            r.interval() == (Duration { secs: SYN_FLOOD_INTERVAL_SECS, nanos: 0 }),
            r.threshold() == SYN_FLOOD_PACKET_COUNT_THRESHOLD,
            r@ == Map::<SocketAddr, Seq<SynRecord>>::empty(),
    {
        Self::new(Duration::from_secs(SYN_FLOOD_INTERVAL_SECS), SYN_FLOOD_PACKET_COUNT_THRESHOLD)
    }

    /// Whether no destination is tracked.
    pub fn history_is_empty(&self) -> (r: bool)
        ensures
            r == (self@.len() == 0),
    {
        proof {
            use_type_invariant(self);
            lemma_assoc_len(flood_pairs(self.history@));
        }
        self.history.len() == 0
    }

    /// Logs one packet and reports a SYN flood when its destination has now received the
    /// threshold number of bare SYNs within the interval.
    pub fn log_packet(&mut self, packet: &ParsedPacket) -> (r: Option<Activity>)
        requires
            packet.timestamp.wf(),
        ensures
            final(self).interval() == old(self).interval(),
            final(self).threshold() == old(self).threshold(),
            flood_outcome(
                old(self)@,
                old(self).interval(),
                old(self).threshold(),
                *packet,
                final(self)@,
                r,
            ),
            r matches Some(Activity::SynFlood { syn_count, .. }) ==> syn_count == reported_count(
                old(self).threshold(),
            ),
    {
        proof {
            use_type_invariant(&*self);
        }
        let now = packet.timestamp;
        let pruned = prune_flood_history(
            &self.history,
            self.syn_flood_interval,
            now,
            self.syn_flood_packet_count_threshold,
        );
        let ghost pruned_map = assoc_map(flood_pairs(pruned@));
        self.history = pruned;
        let (src, dst) = match flood_target(packet) {
            Some(t) => t,
            None => return None,
        };
        let mut h: Vec<DestinationSyns> = Vec::new();
        std::mem::swap(&mut h, &mut self.history);
        assert(h@ == pruned@);
        let records: Vec<SynRecord> = match find_destination(&h, &dst) {
            Some(i) => {
                proof {
                    assert(flood_pairs(h@)[i as int] == (dst, h@[i as int].records@));
                    lemma_assoc_index(flood_pairs(h@), i as int);
                    lemma_assoc_remove(flood_pairs(h@), i as int);
                    assert(flood_pairs(h@.remove(i as int)) =~= flood_pairs(h@).remove(i as int));
                }
                let ghost before = h@;
                let e = h.remove(i);
                proof {
                    assert forall|j: int| 0 <= j < h@.len() implies (#[trigger] h@[j]).records@.len()
                        > 0 && h@[j].records@.len() < self.syn_flood_packet_count_threshold by {
                        if j < i {
                            assert(h@[j] == before[j]);
                        } else {
                            assert(h@[j] == before[j + 1]);
                        }
                    }
                    assert(e.records@ == before[i as int].records@);
                    assert(e.records@.len() < self.syn_flood_packet_count_threshold);
                }
                e.records
            },
            None => {
                proof {
                    lemma_assoc_dom(flood_pairs(h@));
                    if pruned_map.contains_key(dst) {
                        let j = choose|j: int| 0 <= j < h@.len() && flood_pairs(h@)[j].0 == dst;
                        assert(h@[j].dst == dst);
                    }
                    assert(pruned_map.remove(dst) =~= pruned_map);
                }
                Vec::new()
            },
        };
        assert(assoc_map(flood_pairs(h@)) == pruned_map.remove(dst));
        assert(records@ == (if pruned_map.contains_key(dst) {
            pruned_map[dst]
        } else {
            Seq::empty()
        }));
        assert(records@.len() == 0 || records@.len() < self.syn_flood_packet_count_threshold);
        let mut records = records;
        records.push(SynRecord { at: now, src });
        // Run detection rule. Clear history on detection so we don't flood with flood
        // detections.
        if records.len() < self.syn_flood_packet_count_threshold {
            let ghost before = h@;
            proof {
                lemma_assoc_push(flood_pairs(before), dst, records@);
            }
            h.push(DestinationSyns { dst, records });
            proof {
                assert(flood_pairs(h@) =~= flood_pairs(before).push((dst, records@)));
                assert forall|j: int| 0 <= j < h@.len() implies (#[trigger] h@[j]).records@.len()
                    > 0 && h@[j].records@.len() < self.syn_flood_packet_count_threshold by {
                    if j < before.len() {
                        assert(h@[j] == before[j]);
                    }
                }
                assert(pruned_map.remove(dst).insert(dst, records@) =~= pruned_map.insert(
                    dst,
                    records@,
                ));
            }
            self.history = h;
            return None;
        }
        self.history = h;
        let syn_count = records.len();
        let all_sources = sources_of(&records);
        let sources = evidence_sample(&all_sources);
        Some(Activity::SynFlood { dst, syn_count, sources })
    }
}

/// Every tracked destination has received fewer than `threshold` SYNs.
pub open spec fn floods_below_threshold(h: Map<SocketAddr, Seq<SynRecord>>, threshold: usize) -> bool {
    forall|d: SocketAddr| #[trigger] h.contains_key(d) ==> h[d].len() < threshold
}

/// Nothing older than the window is kept: after a packet, every SYN still tracked landed within
/// the interval before that packet.
pub proof fn lemma_flood_window(
    h: Map<SocketAddr, Seq<SynRecord>>,
    interval: Duration,
    threshold: usize,
    p: ParsedPacket,
    h2: Map<SocketAddr, Seq<SynRecord>>,
    r: Option<Activity>,
)
    requires
        flood_outcome(h, interval, threshold, p, h2, r),
    ensures
        forall|d: SocketAddr, i: int|
            h2.contains_key(d) && 0 <= i < h2[d].len() ==> in_window(
                #[trigger] h2[d][i].at,
                interval,
                p.timestamp,
            ),
{
    let now = p.timestamp;
    let pruned = prune_floods(h, interval, now);
    assert forall|d: SocketAddr, i: int|
        pruned.contains_key(d) && 0 <= i < pruned[d].len() implies in_window(
        #[trigger] pruned[d][i].at,
        interval,
        now,
    ) by {
        h[d].lemma_filter_pred(record_in_window(interval, now), i);
    }
    match flood_probe(p) {
        None => {},
        Some((src, dst)) => {
            let recs = flood_records_after(pruned, src, dst, now);
            if recs.len() < threshold {
                assert forall|d: SocketAddr, i: int|
                    h2.contains_key(d) && 0 <= i < h2[d].len() implies in_window(
                    #[trigger] h2[d][i].at,
                    interval,
                    now,
                ) by {
                    if d != dst {
                        assert(pruned.contains_key(d));
                    } else if i < recs.len() - 1 {
                        assert(pruned.contains_key(d));
                        assert(h2[d][i] == pruned[d][i]);
                    }
                }
            } else {
                assert forall|d: SocketAddr, i: int|
                    h2.contains_key(d) && 0 <= i < h2[d].len() implies in_window(
                    #[trigger] h2[d][i].at,
                    interval,
                    now,
                ) by {
                    assert(pruned.contains_key(d));
                }
            }
        },
    }
}

/// Only bare SYNs count: a packet that is not a TCP segment with SYN set and ACK clear, over
/// IPv4 or IPv6, reports nothing and adds nothing; it only lets old SYNs age out.
pub proof fn lemma_flood_bare_syn_only(
    h: Map<SocketAddr, Seq<SynRecord>>,
    interval: Duration,
    threshold: usize,
    p: ParsedPacket,
    h2: Map<SocketAddr, Seq<SynRecord>>,
    r: Option<Activity>,
)
    requires
        flood_outcome(h, interval, threshold, p, h2, r),
        !(p.transport matches Some(TransportHeader::Tcp(t)) && t.flags.syn && !t.flags.ack
            && spec_src_dst_ip(p) is Some),
    ensures
        r is None,
        h2 == prune_floods(h, interval, p.timestamp),
{
}

/// A flood is reported exactly when a destination reaches the threshold, so with every
/// destination below it beforehand (as from an empty history) every destination stays below
/// it, and a reported destination has received exactly `threshold` SYNs and is then forgotten.
pub proof fn lemma_flood_threshold(
    h: Map<SocketAddr, Seq<SynRecord>>,
    interval: Duration,
    threshold: usize,
    p: ParsedPacket,
    h2: Map<SocketAddr, Seq<SynRecord>>,
    r: Option<Activity>,
)
    requires
        threshold > 0,
        floods_below_threshold(h, threshold),
        flood_outcome(h, interval, threshold, p, h2, r),
    ensures
        floods_below_threshold(h2, threshold),
        r matches Some(Activity::SynFlood { dst, syn_count, .. }) ==> syn_count == threshold
            && !h2.contains_key(dst),
{
    let now = p.timestamp;
    let pruned = prune_floods(h, interval, now);
    assert forall|d: SocketAddr| #[trigger] pruned.contains_key(d) implies pruned[d].len()
        < threshold by {
        h[d].lemma_filter_len(record_in_window(interval, now));
    }
    match flood_probe(p) {
        None => {},
        Some((src, dst)) => {
            assert forall|d: SocketAddr| #[trigger] h2.contains_key(d) implies h2[d].len()
                < threshold by {
                if d != dst {
                    assert(pruned.contains_key(d));
                }
            }
        },
    }
}

/// The SYNs `d` holds in a history, none when it is not tracked.
pub open spec fn flood_entry(h: Map<SocketAddr, Seq<SynRecord>>, d: SocketAddr) -> Seq<SynRecord> {
    if h.contains_key(d) {
        h[d]
    } else {
        Seq::empty()
    }
}

/// The bare SYNs on `d` among packets `lo` to `hi - 1` of `ps`, oldest first.
pub open spec fn syns_between(ps: Seq<ParsedPacket>, lo: int, hi: int, d: SocketAddr) -> Seq<
    SynRecord,
>
    decreases hi - lo,
{
    if hi <= lo {
        Seq::empty()
    } else {
        let before = syns_between(ps, lo, hi - 1, d);
        match flood_probe(ps[hi - 1]) {
            Some((s, dd)) => if dd == d {
                before.push(SynRecord { at: ps[hi - 1].timestamp, src: s })
            } else {
                before
            },
            None => before,
        }
    }
}

/// Where counting starts for `d` after the first `k` results of a run: just past the last
/// flood reported on `d`, or at the start.
pub open spec fn flood_reset(rs: Seq<Option<Activity>>, k: int, d: SocketAddr) -> int
    decreases k,
{
    if k <= 0 {
        0
    } else if rs[k - 1] matches Some(Activity::SynFlood { dst, .. }) && dst == d {
        k
    } else {
        flood_reset(rs, k - 1, d)
    }
}

/// The SYNs on `d` that count at packet `k` of a run: those since the last flood reported on
/// `d`, packet `k`'s own included, that are still inside the window at packet `k`.
pub open spec fn flood_count(
    ps: Seq<ParsedPacket>,
    rs: Seq<Option<Activity>>,
    k: int,
    d: SocketAddr,
    interval: Duration,
) -> int {
    recent_records(syns_between(ps, flood_reset(rs, k, d), k + 1, d), interval, ps[k].timestamp).len()
        as int
}

/// `hs` and `rs` are the histories and results of logging packets `ps` one after another,
/// from an empty history, under `interval` and `threshold`.
pub open spec fn flood_run(
    hs: Seq<Map<SocketAddr, Seq<SynRecord>>>,
    rs: Seq<Option<Activity>>,
    ps: Seq<ParsedPacket>,
    interval: Duration,
    threshold: usize,
) -> bool {
    &&& hs.len() == ps.len() + 1
    &&& rs.len() == ps.len()
    &&& hs[0] == Map::<SocketAddr, Seq<SynRecord>>::empty()
    &&& forall|k: int|
        0 <= k < ps.len() ==> #[trigger] flood_outcome(
            hs[k],
            interval,
            threshold,
            ps[k],
            hs[k + 1],
            rs[k],
        )
}

/// What packet `k` of a run reports: nothing unless it is a bare SYN over IP, and for one on
/// `d` a flood exactly when the SYNs that count on `d` reach the threshold, with their number.
pub open spec fn flood_step_reported(
    ps: Seq<ParsedPacket>,
    rs: Seq<Option<Activity>>,
    k: int,
    interval: Duration,
    threshold: usize,
) -> bool {
    match flood_probe(ps[k]) {
        None => rs[k] is None,
        Some((s, d)) => {
            let n = flood_count(ps, rs, k, d, interval);
            if n < threshold {
                rs[k] is None
            } else {
                rs[k] matches Some(Activity::SynFlood { dst, syn_count, .. }) && dst == d
                    && syn_count == n
            }
        },
    }
}

proof fn lemma_recent_push(s: Seq<SynRecord>, x: SynRecord, interval: Duration, now: Timestamp)
    ensures
        recent_records(s.push(x), interval, now) == (if in_window(x.at, interval, now) {
            recent_records(s, interval, now).push(x)
        } else {
            recent_records(s, interval, now)
        }),
{
    reveal(Seq::filter);
    assert(s.push(x).drop_last() =~= s);
}

proof fn lemma_recent_empty(interval: Duration, now: Timestamp)
    ensures
        recent_records(Seq::<SynRecord>::empty(), interval, now) == Seq::<SynRecord>::empty(),
{
    reveal(Seq::filter);
}

/// What is still in the window at a later time was in it at an earlier one.
proof fn lemma_recent_twice(s: Seq<SynRecord>, interval: Duration, t1: Timestamp, t2: Timestamp)
    requires
        t1.total() <= t2.total(),
    ensures
        recent_records(recent_records(s, interval, t1), interval, t2) == recent_records(
            s,
            interval,
            t2,
        ),
    decreases s.len(),
{
    if s.len() == 0 {
        lemma_recent_empty(interval, t1);
        lemma_recent_empty(interval, t2);
    } else {
        let p = s.drop_last();
        let x = s.last();
        lemma_recent_twice(p, interval, t1, t2);
        assert(s =~= p.push(x));
        lemma_recent_push(p, x, interval, t1);
        lemma_recent_push(p, x, interval, t2);
        if in_window(x.at, interval, t1) {
            lemma_recent_push(recent_records(p, interval, t1), x, interval, t2);
        }
    }
}

proof fn lemma_flood_reset_bound(rs: Seq<Option<Activity>>, k: int, d: SocketAddr)
    requires
        0 <= k,
    ensures
        0 <= flood_reset(rs, k, d) <= k,
    decreases k,
{
    if k > 0 {
        lemma_flood_reset_bound(rs, k - 1, d);
    }
}

proof fn lemma_prune_entry(
    h: Map<SocketAddr, Seq<SynRecord>>,
    interval: Duration,
    now: Timestamp,
    d: SocketAddr,
)
    ensures
        flood_entry(prune_floods(h, interval, now), d) == recent_records(
            flood_entry(h, d),
            interval,
            now,
        ),
{
    lemma_recent_empty(interval, now);
    if h.contains_key(d) && recent_records(h[d], interval, now).len() == 0 {
        assert(recent_records(h[d], interval, now) =~= Seq::<SynRecord>::empty());
    }
}

/// After the first `k` packets of a run every destination holds exactly the SYNs on it since
/// its last reported flood that are still inside the window at packet `k - 1`.
proof fn lemma_flood_run_history(
    hs: Seq<Map<SocketAddr, Seq<SynRecord>>>,
    rs: Seq<Option<Activity>>,
    ps: Seq<ParsedPacket>,
    interval: Duration,
    threshold: usize,
    k: int,
)
    requires
        flood_run(hs, rs, ps, interval, threshold),
        times_nondecreasing(ps),
        0 <= k <= ps.len(),
    ensures
        forall|d: SocketAddr|
            #[trigger] flood_entry(hs[k], d) == (if k == 0 {
                Seq::<SynRecord>::empty()
            } else {
                recent_records(
                    syns_between(ps, flood_reset(rs, k, d), k, d),
                    interval,
                    ps[k - 1].timestamp,
                )
            }),
    decreases k,
{
    if k > 0 {
        let j = k - 1;
        lemma_flood_run_history(hs, rs, ps, interval, threshold, j);
        lemma_flood_pruned(hs, rs, ps, interval, threshold, j);
        let h = hs[j];
        let p = ps[j];
        let now = p.timestamp;
        let pruned = prune_floods(h, interval, now);
        assert(flood_outcome(h, interval, threshold, p, hs[j + 1], rs[j]));
        assert forall|d: SocketAddr| #[trigger]
            flood_entry(hs[k], d) == recent_records(
                syns_between(ps, flood_reset(rs, k, d), k, d),
                interval,
                now,
            ) by {
            lemma_flood_reset_bound(rs, j, d);
            let lo = flood_reset(rs, j, d);
            assert(flood_entry(pruned, d) == recent_records(syns_between(ps, lo, j, d), interval, now));
            match flood_probe(p) {
                None => {
                    assert(syns_between(ps, lo, k, d) == syns_between(ps, lo, j, d));
                },
                Some((src, dst)) => {
                    let rec = SynRecord { at: now, src };
                    if d != dst {
                        assert(syns_between(ps, lo, k, d) == syns_between(ps, lo, j, d));
                    } else {
                        lemma_recent_push(syns_between(ps, lo, j, d), rec, interval, now);
                        let recs = flood_records_after(pruned, src, dst, now);
                        if recs.len() < threshold {
                            assert(syns_between(ps, lo, k, d) == syns_between(ps, lo, j, d).push(
                                rec,
                            ));
                        } else {
                            lemma_recent_empty(interval, now);
                        }
                    }
                },
            }
        }
    }
}

/// At packet `k` of a run, once old SYNs have aged out, every destination holds the SYNs on it
/// since its last reported flood that are inside the window at packet `k`.
proof fn lemma_flood_pruned(
    hs: Seq<Map<SocketAddr, Seq<SynRecord>>>,
    rs: Seq<Option<Activity>>,
    ps: Seq<ParsedPacket>,
    interval: Duration,
    threshold: usize,
    k: int,
)
    requires
        flood_run(hs, rs, ps, interval, threshold),
        times_nondecreasing(ps),
        0 <= k < ps.len(),
        forall|d: SocketAddr|
            #[trigger] flood_entry(hs[k], d) == (if k == 0 {
                Seq::<SynRecord>::empty()
            } else {
                recent_records(
                    syns_between(ps, flood_reset(rs, k, d), k, d),
                    interval,
                    ps[k - 1].timestamp,
                )
            }),
    ensures
        forall|d: SocketAddr| #[trigger]
            flood_entry(prune_floods(hs[k], interval, ps[k].timestamp), d) == recent_records(
                syns_between(ps, flood_reset(rs, k, d), k, d),
                interval,
                ps[k].timestamp,
            ),
{
    let now = ps[k].timestamp;
    assert forall|d: SocketAddr| #[trigger]
        flood_entry(prune_floods(hs[k], interval, now), d) == recent_records(
            syns_between(ps, flood_reset(rs, k, d), k, d),
            interval,
            now,
        ) by {
        lemma_prune_entry(hs[k], interval, now, d);
        if k == 0 {
            lemma_recent_empty(interval, now);
            assert(syns_between(ps, flood_reset(rs, k, d), k, d) == Seq::<SynRecord>::empty());
        } else {
            lemma_recent_twice(
                syns_between(ps, flood_reset(rs, k, d), k, d),
                interval,
                ps[k - 1].timestamp,
                now,
            );
        }
    }
}

/// Packet `k` of a run reports as `flood_step_reported` says.
proof fn lemma_flood_run_step(
    hs: Seq<Map<SocketAddr, Seq<SynRecord>>>,
    rs: Seq<Option<Activity>>,
    ps: Seq<ParsedPacket>,
    interval: Duration,
    threshold: usize,
    k: int,
)
    requires
        flood_run(hs, rs, ps, interval, threshold),
        times_nondecreasing(ps),
        0 <= k < ps.len(),
    ensures
        flood_step_reported(ps, rs, k, interval, threshold),
{
    lemma_flood_run_history(hs, rs, ps, interval, threshold, k);
    lemma_flood_pruned(hs, rs, ps, interval, threshold, k);
    let h = hs[k];
    let p = ps[k];
    let now = p.timestamp;
    let pruned = prune_floods(h, interval, now);
    assert(flood_outcome(h, interval, threshold, p, hs[k + 1], rs[k]));
    match flood_probe(p) {
        None => {},
        Some((src, dst)) => {
            let rec = SynRecord { at: now, src };
            let lo = flood_reset(rs, k, dst);
            lemma_flood_reset_bound(rs, k, dst);
            assert(syns_between(ps, lo, k + 1, dst) == syns_between(ps, lo, k, dst).push(rec));
            lemma_recent_push(syns_between(ps, lo, k, dst), rec, interval, now);
            assert(flood_entry(pruned, dst) == recent_records(
                syns_between(ps, lo, k, dst),
                interval,
                now,
            ));
            assert(flood_records_after(pruned, src, dst, now) == recent_records(
                syns_between(ps, lo, k + 1, dst),
                interval,
                now,
            ));
        },
    }
}

/// Along a run every destination stays below a positive threshold.
proof fn lemma_flood_run_below(
    hs: Seq<Map<SocketAddr, Seq<SynRecord>>>,
    rs: Seq<Option<Activity>>,
    ps: Seq<ParsedPacket>,
    interval: Duration,
    threshold: usize,
    k: int,
)
    requires
        flood_run(hs, rs, ps, interval, threshold),
        threshold > 0,
        0 <= k <= ps.len(),
    ensures
        floods_below_threshold(hs[k], threshold),
        k < ps.len() ==> (rs[k] matches Some(Activity::SynFlood { syn_count, .. }) ==> syn_count
            == threshold),
    decreases k,
{
    if k > 0 {
        lemma_flood_run_below(hs, rs, ps, interval, threshold, k - 1);
        assert(flood_outcome(hs[k - 1], interval, threshold, ps[k - 1], hs[(k - 1) + 1], rs[k - 1]));
        lemma_flood_threshold(hs[k - 1], interval, threshold, ps[k - 1], hs[k], rs[k - 1]);
    }
    if k < ps.len() {
        assert(flood_outcome(hs[k], interval, threshold, ps[k], hs[k + 1], rs[k]));
        lemma_flood_threshold(hs[k], interval, threshold, ps[k], hs[k + 1], rs[k]);
    }
}

/// Over a run with capture times in order, each packet reports a flood exactly when it is a
/// bare SYN over IP and the SYNs on its destination since the last flood reported there,
/// itself included, that are still inside the window reach the threshold; the report names
/// that destination and that number.
pub proof fn lemma_flood_run(
    hs: Seq<Map<SocketAddr, Seq<SynRecord>>>,
    rs: Seq<Option<Activity>>,
    ps: Seq<ParsedPacket>,
    interval: Duration,
    threshold: usize,
)
    requires
        flood_run(hs, rs, ps, interval, threshold),
        times_nondecreasing(ps),
    ensures
        forall|k: int| 0 <= k < ps.len() ==> #[trigger] flood_step_reported(ps, rs, k, interval, threshold),
        threshold > 0 ==> forall|k: int|
            0 <= k < ps.len() ==> (#[trigger] rs[k] matches Some(
                Activity::SynFlood { syn_count, .. },
            ) ==> syn_count == threshold),
{
    assert forall|k: int| 0 <= k < ps.len() implies #[trigger] flood_step_reported(
        ps,
        rs,
        k,
        interval,
        threshold,
    ) by {
        lemma_flood_run_step(hs, rs, ps, interval, threshold, k);
    }
    if threshold > 0 {
        assert forall|k: int| 0 <= k < ps.len() implies (#[trigger] rs[k] matches Some(
            Activity::SynFlood { syn_count, .. },
        ) ==> syn_count == threshold) by {
            lemma_flood_run_below(hs, rs, ps, interval, threshold, k);
        }
    }
}

/// After logging a packet, a SYN from `src` was seen landing on `dst` at `now`: either `dst`
/// now holds it as its newest record, or a flood on `dst` was reported and `dst` forgotten.
pub open spec fn syn_logged(
    h2: Map<SocketAddr, Seq<SynRecord>>,
    r: Option<Activity>,
    src: IpAddr,
    dst: SocketAddr,
    now: Timestamp,
) -> bool {
    match r {
        None => h2.contains_key(dst) && h2[dst].len() > 0 && h2[dst].last() == (SynRecord {
            at: now,
            src,
        }),
        Some(a) => (a matches Activity::SynFlood { dst: d, .. } && d == dst) && !h2.contains_key(
            dst,
        ),
    }
}

/// Every bare SYN (SYN set, ACK clear) over IPv4, or over IPv6 without an IPv4 header, counts:
/// it is logged against the socket made of its IP destination and its TCP destination port,
/// from its IP source.
pub proof fn lemma_flood_logs_every_bare_syn(
    h: Map<SocketAddr, Seq<SynRecord>>,
    interval: Duration,
    threshold: usize,
    p: ParsedPacket,
    h2: Map<SocketAddr, Seq<SynRecord>>,
    r: Option<Activity>,
)
    requires
        flood_outcome(h, interval, threshold, p, h2, r),
    ensures
        p.transport matches Some(TransportHeader::Tcp(t)) ==> (t.flags.syn && !t.flags.ack ==> (
        p.ipv4 matches Some(x) ==> syn_logged(
            h2,
            r,
            IpAddr::V4(x.src_ip),
            SocketAddr { ip: IpAddr::V4(x.dst_ip), port: t.dst_port },
            p.timestamp,
        ))),
        p.transport matches Some(TransportHeader::Tcp(t)) ==> (t.flags.syn && !t.flags.ack ==> (
        p.ipv4 is None ==> (p.ipv6 matches Some(x) ==> syn_logged(
            h2,
            r,
            IpAddr::V6(x.src_ip),
            SocketAddr { ip: IpAddr::V6(x.dst_ip), port: t.dst_port },
            p.timestamp,
        )))),
{
}

} // verus!
