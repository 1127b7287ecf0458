//! Alerts: what a detection becomes, its severity, and its console form.
use vstd::prelude::*;

use crate::capture::parser::ParsedPacket;
use crate::detection::{Activity, DetectorState, opt_seq};
use crate::detection::port_scan::scan_outcome;
use crate::detection::syn_flood::flood_outcome;
use crate::net::{IpAddr, ip_text, push_ip, socket_text};
use crate::text::{decimal, push_decimal, push_str, text_eq};
use crate::time::{
    ALERT_TIME_FORMAT, MAX_CALENDAR_SECS, Timestamp, UtcTime, date_time_text, format_utc, utc_of,
};

verus! {

/// Console/database name of a port scan alert.
pub const CATEGORY_PORT_SCAN: &'static str = "Port Scan";

/// Console/database name of a SYN flood alert.
pub const CATEGORY_SYN_FLOOD: &'static str = "SYN Flood";

/// How serious an alert is. Stored and served as its string form.
#[derive(Debug, Clone, Copy, PartialEq, Eq, Structural)]
pub enum Severity {
    Low,
    Medium,
    High,
}

/// The stored string form of a severity.
pub open spec fn severity_text(s: Severity) -> Seq<char> {
    match s {
        Severity::Low => "Low"@,
        Severity::Medium => "Medium"@,
        Severity::High => "High"@,
    }
}

/// The severity a stored string form stands for, if any.
pub open spec fn severity_of_text(t: Seq<char>) -> Option<Severity> {
    if t == "Low"@ {
        Some(Severity::Low)
    } else if t == "Medium"@ {
        Some(Severity::Medium)
    } else if t == "High"@ {
        Some(Severity::High)
    } else {
        None
    }
}

impl Severity {
    pub fn as_str(self) -> (r: &'static str)
        ensures
            r@ == severity_text(self),
    {
        match self {
            Severity::Low => "Low",
            Severity::Medium => "Medium",
            Severity::High => "High",
        }
    }

    /// Parses the stored string form. Returns `None` for anything this build does not know.
    pub fn parse(value: &str) -> (r: Option<Severity>)
        ensures
            r == severity_of_text(value@),
    {
        if text_eq(value, "Low") {
            Some(Severity::Low)
        } else if text_eq(value, "Medium") {
            Some(Severity::Medium)
        } else if text_eq(value, "High") {
            Some(Severity::High)
        } else {
            None
        }
    }
}

/// Every severity reads back from its stored form as itself.
pub proof fn lemma_severity_round_trip(s: Severity)
    ensures
        severity_of_text(severity_text(s)) == Some(s),
{
    reveal_strlit("Low");
    reveal_strlit("Medium");
    reveal_strlit("High");
    assert("Low"@.len() == 3);
    assert("Medium"@.len() == 6);
    assert("High"@.len() == 4);
    assert("Low"@ != "Medium"@);
    assert("Low"@ != "High"@);
    assert("Medium"@ != "High"@);
}

/// Values with a text form.
pub trait Render: Sized {
    spec fn text(self) -> Seq<char>;

    fn render(&self) -> (r: String)
        ensures
            r@ == self.text(),
    ;
}

impl Render for u16 {
    open spec fn text(self) -> Seq<char> {
        decimal(self as nat)
    }

    fn render(&self) -> (r: String) {
        let mut s = String::new();
        push_decimal(&mut s, *self as u64);
        s
    }
}

impl Render for IpAddr {
    open spec fn text(self) -> Seq<char> {
        ip_text(self)
    }

    fn render(&self) -> (r: String) {
        let mut s = String::new();
        push_ip(&mut s, self);
        s
    }
}

/// Texts separated by ", ".
pub open spec fn join_text(items: Seq<Seq<char>>) -> Seq<char>
    decreases items.len(),
{
    if items.len() == 0 {
        Seq::empty()
    } else if items.len() == 1 {
        items[0]
    } else {
        join_text(items.drop_last()) + ", "@ + items.last()
    }
}

pub open spec fn texts<T: Render>(items: Seq<T>) -> Seq<Seq<char>> {
    items.map_values(|x: T| x.text())
}

/// The text forms of `items`, separated by ", ".
pub fn join<T: Render>(items: &[T]) -> (r: String)
    ensures
        r@ == join_text(texts(items@)),
{
    let n = items.len();
    let mut s = String::new();
    let mut i: usize = 0;
    proof {
        assert(texts(items@.subrange(0, 0)) =~= Seq::<Seq<char>>::empty());
    }
    while i < n
        invariant
            n == items@.len(),
            i <= n,
            s@ == join_text(texts(items@.subrange(0, i as int))),
        decreases n - i,
    {
        let ghost before = s@;
        if i > 0 {
            push_str(&mut s, ", ");
        }
        let t = items[i].render();
        push_str(&mut s, t.as_str());
        proof {
            let next = texts(items@.subrange(0, i + 1));
            assert(next.drop_last() =~= texts(items@.subrange(0, i as int)));
            assert(next.last() == items@[i as int].text());
            if i == 0 {
                assert(next.len() == 1);
            }
            assert(s@ =~= join_text(next));
        }
        i = i + 1;
    }
    assert(items@.subrange(0, n as int) =~= items@);
    s
}

/// Renders a missing address as a dash, for both the console form and the dashboard.
pub open spec fn optional_text(value: Option<String>) -> Seq<char> {
    match value {
        Some(s) => s@,
        None => "-"@,
    }
}

pub fn optional(value: &Option<String>) -> (r: &str)
    ensures
        r@ == optional_text(*value),
{
    match value {
        Some(s) => s.as_str(),
        None => "-",
    }
}

/// One recorded detection. Contains no packet payload; only addresses, counts, and a summary.
#[derive(Debug, Clone)]
pub struct Alert {
    /// Database row id. `None` until the alert has been stored.
    pub id: Option<i64>,
    /// When the packet that triggered detection was captured.
    pub timestamp: UtcTime,
    /// Attack name, e.g. [`CATEGORY_PORT_SCAN`].
    pub category: String,
    pub severity: Severity,
    /// Attacking address, when the detector can attribute one.
    pub source: Option<String>,
    /// Targeted address, when the detector can attribute one.
    pub destination: Option<String>,
    /// Supporting evidence: counts, ports, observed sources.
    pub details: String,
}

/// The alert that `activity`, observed at `observed_at`, becomes: a port scan is a Medium alert
/// attributed to its source, with the number of destinations and the sampled ports; a SYN flood
/// is a High alert against its destination, attributed to the sampled sources, with the SYN
/// count and how many sources were sampled.
pub open spec fn alert_for(a: Alert, activity: Activity, observed_at: Timestamp) -> bool {
    &&& a.id is None
    &&& a.timestamp == utc_of(observed_at)
    &&& match activity {
        Activity::SingleSourceScan { src, destinations, ports } => {
            &&& a.category@ == CATEGORY_PORT_SCAN@
            &&& a.severity == Severity::Medium
            &&& a.source matches Some(s) && s@ == ip_text(src)
            &&& a.destination is None
            &&& a.details@ == decimal(destinations as nat)
                + " distinct destination sockets contacted; ports "@ + join_text(texts(ports@))
        },
        Activity::SynFlood { dst, syn_count, sources } => {
            &&& a.category@ == CATEGORY_SYN_FLOOD@
            &&& a.severity == Severity::High
            &&& a.source matches Some(s) && s@ == join_text(texts(sources@))
            &&& a.destination matches Some(d) && d@ == socket_text(dst)
            &&& a.details@ == decimal(syn_count as nat) + " bare SYN packets from "@ + decimal(
                sources@.len(),
            ) + " sources"@
        },
    }
}

/// The console form of an alert.
pub open spec fn console_text(a: Alert) -> Seq<char> {
    "["@ + date_time_text(a.timestamp.secs as int, a.timestamp.nanos as nat)
        + " UTC] ALERT: "@ + a.category@ + " Detected\n  Source:      "@ + optional_text(a.source)
        + "\n  Destination: "@ + optional_text(a.destination) + "\n  Severity:    "@
        + severity_text(a.severity) + "\n  Details:     "@ + a.details@
}

impl Alert {
    /// Builds an alert from a detection, timestamped with the packet that triggered it.
    pub fn from_activity(activity: &Activity, observed_at: Timestamp) -> (r: Alert)
        requires
            observed_at.wf(),
            observed_at.secs <= MAX_CALENDAR_SECS,
        ensures
            alert_for(r, *activity, observed_at),
            r.timestamp.wf(),
    {
        match activity {
            Activity::SingleSourceScan { src, destinations, ports } => {
                let mut details = String::new();
                push_decimal(&mut details, *destinations as u64);
                push_str(&mut details, " distinct destination sockets contacted; ports ");
                let list = join(ports.as_slice());
                push_str(&mut details, list.as_str());
                Alert {
                    id: None,
                    timestamp: UtcTime::from_timestamp(observed_at),
                    category: String::from_str(CATEGORY_PORT_SCAN),
                    severity: Severity::Medium,
                    source: Some(src.to_string()),
                    destination: None,
                    details,
                }
            },
            Activity::SynFlood { dst, syn_count, sources } => {
                let mut details = String::new();
                push_decimal(&mut details, *syn_count as u64);
                push_str(&mut details, " bare SYN packets from ");
                push_decimal(&mut details, sources.len() as u64);
                push_str(&mut details, " sources");
                Alert {
                    id: None,
                    timestamp: UtcTime::from_timestamp(observed_at),
                    category: String::from_str(CATEGORY_SYN_FLOOD),
                    severity: Severity::High,
                    source: Some(join(sources.as_slice())),
                    destination: Some(dst.to_string()),
                    details,
                }
            },
        }
    }

    /// The console form: a headline with the time and the category, then the source,
    /// destination (a dash when unknown), severity and details, one per line.
    pub fn to_string(&self) -> (r: String)
        requires
            self.timestamp.wf(),
        ensures
            r@ == console_text(*self),
    {
        let mut s = String::new();
        push_str(&mut s, "[");
        let when = format_utc(self.timestamp, ALERT_TIME_FORMAT);
        push_str(&mut s, when.as_str());
        push_str(&mut s, " UTC] ALERT: ");
        push_str(&mut s, self.category.as_str());
        push_str(&mut s, " Detected\n  Source:      ");
        push_str(&mut s, optional(&self.source));
        push_str(&mut s, "\n  Destination: ");
        push_str(&mut s, optional(&self.destination));
        push_str(&mut s, "\n  Severity:    ");
        push_str(&mut s, self.severity.as_str());
        push_str(&mut s, "\n  Details:     ");
        push_str(&mut s, self.details.as_str());
        s
    }
}

/// Runs both detectors on one packet and turns each detection into an alert timestamped with
/// the packet, in the order the detectors reported them.
pub fn alerts_for_packet(detector: &mut DetectorState, packet: &ParsedPacket) -> (r: Vec<Alert>)
    requires
        packet.timestamp.wf(),
        packet.timestamp.secs <= MAX_CALENDAR_SECS,
    ensures
        final(detector).flood_interval() == old(detector).flood_interval(),
        final(detector).flood_threshold() == old(detector).flood_threshold(),
        exists|a: Option<Activity>, b: Option<Activity>|
            {
                &&& #[trigger] scan_outcome(old(detector).scans(), *packet, final(detector).scans(), a)
                &&& #[trigger] flood_outcome(
                    old(detector).floods(),
                    old(detector).flood_interval(),
                    old(detector).flood_threshold(),
                    *packet,
                    final(detector).floods(),
                    b,
                )
                &&& r@.len() == (opt_seq(a) + opt_seq(b)).len()
                &&& forall|i: int|
                    0 <= i < r@.len() ==> alert_for(
                        #[trigger] r@[i],
                        (opt_seq(a) + opt_seq(b))[i],
                        packet.timestamp,
                    )
            },
{
    let activities = detector.log_packet(packet);
    let mut alerts: Vec<Alert> = Vec::new();
    let mut i: usize = 0;
    while i < activities.len()
        invariant
            i <= activities@.len(),
            alerts@.len() == i,
            packet.timestamp.wf(),
            packet.timestamp.secs <= MAX_CALENDAR_SECS,
            forall|j: int|
                0 <= j < i ==> alert_for(#[trigger] alerts@[j], activities@[j], packet.timestamp),
        decreases activities@.len() - i,
    {
        let alert = Alert::from_activity(&activities[i], packet.timestamp);
        alerts.push(alert);
        i = i + 1;
    }
    alerts
}

/// Where the `i`-th of `items` starts when they are written one after another with two
/// characters between neighbours.
pub open spec fn item_start(items: Seq<Seq<char>>, i: int) -> int
    decreases i,
{
    if i <= 0 {
        0
    } else {
        item_start(items, i - 1) + items[i - 1].len() + 2
    }
}

/// `t` lays `items` out one after another from its start, each pair of neighbours parted by
/// ", ", and holds nothing else.
pub open spec fn laid_out(t: Seq<char>, items: Seq<Seq<char>>) -> bool {
    &&& forall|i: int|
        0 <= i < items.len() ==> t.subrange(item_start(items, i), item_start(items, i) + items[i].len())
            == #[trigger] items[i]
    &&& forall|i: int|
        0 <= i < items.len() - 1 ==> t.subrange(
            item_start(items, i) + items[i].len(),
            #[trigger] item_start(items, i + 1),
        ) == seq![',', ' ']
    &&& t.len() == (if items.len() == 0 {
        0
    } else {
        item_start(items, items.len() - 1) + items.last().len()
    })
}

proof fn lemma_item_start_prefix(items: Seq<Seq<char>>, n: int, i: int)
    requires
        0 <= i <= n <= items.len(),
    ensures
        item_start(items.subrange(0, n), i) == item_start(items, i),
        item_start(items, i) >= 0,
    decreases i,
{
    if i > 0 {
        lemma_item_start_prefix(items, n, i - 1);
    }
}

/// Joining texts with ", " lays each of them out in turn.
#[verifier::spinoff_prover]
#[verifier::rlimit(40)]
proof fn lemma_join_laid_out(items: Seq<Seq<char>>)
    ensures
        laid_out(join_text(items), items),
    decreases items.len(),
{
    reveal_strlit(", ");
    let t = join_text(items);
    let n = items.len() as int;
    if n == 1 {
        assert(t.subrange(0, items[0].len() as int) =~= items[0]);
    } else if n > 1 {
        let init = items.drop_last();
        lemma_join_laid_out(init);
        let u = join_text(init);
        assert(t == u + ", "@ + items.last());
        assert(", "@ =~= seq![',', ' ']);
        assert(init =~= items.subrange(0, n - 1));
        assert forall|i: int| 0 <= i < n implies item_start(init, i) == item_start(items, i) by {
            lemma_item_start_prefix(items, n - 1, i);
        }
        lemma_item_start_prefix(items, n - 1, n - 2);
        assert(init =~= items.subrange(0, n - 1));
        assert(u.len() == item_start(items, n - 2) + items[n - 2].len());
        assert forall|i: int| 0 <= i < n implies t.subrange(
            item_start(items, i),
            item_start(items, i) + items[i].len(),
        ) == #[trigger] items[i] by {
            if i < n - 1 {
                lemma_item_start_prefix(items, n - 1, i);
                assert(item_start(init, i) + init[i].len() <= u.len()) by {
                    lemma_item_start_mono(init, i, n - 2);
                }
                assert(t.subrange(item_start(items, i), item_start(items, i) + items[i].len())
                    =~= u.subrange(item_start(init, i), item_start(init, i) + init[i].len()));
            } else {
                assert(t.subrange(item_start(items, i), item_start(items, i) + items[i].len())
                    =~= items.last());
            }
        }
        assert forall|i: int| 0 <= i < n - 1 implies t.subrange(
            item_start(items, i) + items[i].len(),
            #[trigger] item_start(items, i + 1),
        ) == seq![',', ' '] by {
            if i < n - 2 {
                lemma_item_start_prefix(items, n - 1, i);
                lemma_item_start_prefix(items, n - 1, i + 1);
                assert(item_start(init, i + 1) + init[i + 1].len() <= u.len()) by {
                    lemma_item_start_mono(init, i + 1, n - 2);
                }
                assert(t.subrange(item_start(items, i) + items[i].len(), item_start(items, i + 1))
                    =~= u.subrange(item_start(init, i) + init[i].len(), item_start(init, i + 1)));
            } else {
                assert(t.subrange(item_start(items, i) + items[i].len(), item_start(items, i + 1))
                    =~= seq![',', ' ']);
            }
        }
    }
}

proof fn lemma_item_start_mono(items: Seq<Seq<char>>, i: int, j: int)
    requires
        0 <= i <= j < items.len(),
    ensures
        item_start(items, i) + items[i].len() <= item_start(items, j) + items[j].len(),
    decreases j - i,
{
    if i < j {
        lemma_item_start_mono(items, i + 1, j);
    }
}

/// A SYN-flood alert is attributed to every sampled source: its source text holds the text of
/// each sampled address in order, neighbours parted by ", ", and nothing else.
pub proof fn lemma_flood_alert_names_every_source(
    a: Alert,
    dst: crate::net::SocketAddr,
    syn_count: usize,
    sources: Vec<IpAddr>,
    observed_at: Timestamp,
)
    requires
        alert_for(a, Activity::SynFlood { dst, syn_count, sources }, observed_at),
    ensures
        a.source matches Some(s) && laid_out(s@, sources@.map_values(|x: IpAddr| ip_text(x))),
{
    let items = sources@.map_values(|x: IpAddr| ip_text(x));
    assert(texts(sources@) =~= items);
    lemma_join_laid_out(items);
}

} // verus!
