//! The logic around alert storage: how many rows a query may return, how per-severity counts
//! add up, and how a stored row becomes an alert again.
use vstd::prelude::*;

use crate::alert::{Alert, Severity, lemma_severity_round_trip, severity_of_text, severity_text};
use crate::time::{UtcTime, parse_rfc3339, stored_time};

verus! {

/// Default database file, created on first run if missing.
pub const DEFAULT_DATABASE_PATH: &'static str = "stomper.db";

/// Largest page of alerts a caller may request in one query.
pub const MAX_QUERY_LIMIT: i64 = 500;

/// Why a stored row could not be read back as an alert.
#[derive(Debug)]
pub enum DbError {
    /// The row with this id holds an unreadable value in this column.
    InvalidRow { id: i64, field: &'static str },
}

/// How many rows a recent-alerts query returns at most: `limit` kept between 1 and
/// [`MAX_QUERY_LIMIT`].
pub open spec fn spec_query_limit(limit: i64) -> i64 {
    if limit < 1 {
        1
    } else if limit > MAX_QUERY_LIMIT {
        MAX_QUERY_LIMIT
    } else {
        limit
    }
}

pub fn query_limit(limit: i64) -> (r: i64)
    ensures
        r == spec_query_limit(limit),
        1 <= r <= MAX_QUERY_LIMIT,
{
    if limit < 1 {
        1
    } else if limit > MAX_QUERY_LIMIT {
        MAX_QUERY_LIMIT
    } else {
        limit
    }
}

/// Stored alert counts, grouped by severity.
#[derive(Debug, Clone)]
pub struct AlertSummary {
    pub total: i64,
    pub low: i64,
    pub medium: i64,
    pub high: i64,
}

impl Default for AlertSummary {
    /// All counts at zero.
    fn default() -> (r: Self)
        ensures
            r.total == 0 && r.low == 0 && r.medium == 0 && r.high == 0,
    {
        AlertSummary::new()
    }
}

impl AlertSummary {
    /// No alerts.
    pub fn new() -> (r: Self)
        ensures
            r.total == 0 && r.low == 0 && r.medium == 0 && r.high == 0,
    {
        AlertSummary { total: 0, low: 0, medium: 0, high: 0 }
    }

    /// Adds the count of one severity group. A severity this build does not know still counts
    /// toward the total.
    pub fn add_group(&mut self, severity: &str, count: i64)
        requires
            i64::MIN <= old(self).total + count <= i64::MAX,
            severity_of_text(severity@) == Some(Severity::Low) ==> i64::MIN <= old(self).low
                + count <= i64::MAX,
            severity_of_text(severity@) == Some(Severity::Medium) ==> i64::MIN <= old(self).medium
                + count <= i64::MAX,
            severity_of_text(severity@) == Some(Severity::High) ==> i64::MIN <= old(self).high
                + count <= i64::MAX,
        ensures
            final(self).total == old(self).total + count,
            final(self).low == old(self).low + (if severity_of_text(severity@) == Some(
                Severity::Low,
            ) {
                count
            } else {
                0
            }),
            final(self).medium == old(self).medium + (if severity_of_text(severity@) == Some(
                Severity::Medium,
            ) {
                count
            } else {
                0
            }),
            final(self).high == old(self).high + (if severity_of_text(severity@) == Some(
                Severity::High,
            ) {
                count
            } else {
                0
            }),
    {
        self.total = self.total + count;
        match Severity::parse(severity) {
            Some(Severity::Low) => self.low = self.low + count,
            Some(Severity::Medium) => self.medium = self.medium + count,
            Some(Severity::High) => self.high = self.high + count,
            None => {},
        }
    }
}

/// The total never falls below the severity counts: adding groups of non-negative counts keeps
/// `low + medium + high <= total`.
pub proof fn lemma_summary_total_covers(
    before: AlertSummary,
    after: AlertSummary,
    severity: Seq<char>,
    count: i64,
)
    requires
        before.low + before.medium + before.high <= before.total,
        count >= 0,
        after.total == before.total + count,
        after.low == before.low + (if severity_of_text(severity) == Some(Severity::Low) {
            count
        } else {
            0
        }),
        after.medium == before.medium + (if severity_of_text(severity) == Some(Severity::Medium) {
            count
        } else {
            0
        }),
        after.high == before.high + (if severity_of_text(severity) == Some(Severity::High) {
            count
        } else {
            0
        }),
    ensures
        after.low + after.medium + after.high <= after.total,
{
}

/// The instant a stored timestamp text stands for, if it is RFC 3339.
pub fn read_stored_time(text: &str) -> (r: Option<UtcTime>)
    ensures
        r == stored_time(text@),
        r matches Some(t) ==> t.wf(),
{
    match parse_rfc3339(text) {
        Some((s, n)) => Some(UtcTime { secs: s, nanos: n }),
        None => None,
    }
}

/// The alert the columns of a stored row stand for: the timestamp column must read as an
/// RFC 3339 time and the severity column as a known severity; otherwise the row is invalid,
/// naming the first unreadable column.
pub open spec fn row_alert(
    id: i64,
    timestamp: Seq<char>,
    category: String,
    severity: Seq<char>,
    source: Option<String>,
    destination: Option<String>,
    details: String,
) -> Result<Alert, DbError> {
    match stored_time(timestamp) {
        None => Err(DbError::InvalidRow { id, field: "timestamp" }),
        Some(at) => match severity_of_text(severity) {
            None => Err(DbError::InvalidRow { id, field: "severity" }),
            Some(sev) => Ok(
                Alert { id: Some(id), timestamp: at, category, severity: sev, source, destination, details },
            ),
        },
    }
}

/// Rebuilds an alert from the columns of a stored row.
pub fn alert_from_row(
    id: i64,
    timestamp: &str,
    category: String,
    severity: &str,
    source: Option<String>,
    destination: Option<String>,
    details: String,
) -> (r: Result<Alert, DbError>)
    ensures
        r == row_alert(id, timestamp@, category, severity@, source, destination, details),
        r matches Ok(a) ==> a.timestamp.wf(),
{
    let at = match read_stored_time(timestamp) {
        Some(t) => t,
        None => return Err(DbError::InvalidRow { id, field: "timestamp" }),
    };
    let sev = match Severity::parse(severity) {
        Some(s) => s,
        None => return Err(DbError::InvalidRow { id, field: "severity" }),
    };
    Ok(Alert { id: Some(id), timestamp: at, category, severity: sev, source, destination, details })
}

/// A stored alert reads back as itself: a row holding an alert's time as RFC 3339 text and its
/// severity in stored form rebuilds the same alert under the row's id.
pub proof fn lemma_row_reads_back(a: Alert, id: i64, timestamp: Seq<char>)
    requires
        stored_time(timestamp) == Some(a.timestamp),
    ensures
        row_alert(
            id,
            timestamp,
            a.category,
            severity_text(a.severity),
            a.source,
            a.destination,
            a.details,
        ) == Ok::<Alert, DbError>(Alert { id: Some(id), ..a }),
{
    lemma_severity_round_trip(a.severity);
}

} // verus!
