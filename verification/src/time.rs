//! Points in time since the Unix epoch and spans of time, as plain numbers, plus the
//! clock and calendar calls that the rest of the library needs.
use vstd::prelude::*;

use crate::text::{decimal, digit_char};

verus! {

pub const NANOS_PER_SEC: u32 = 1_000_000_000;

/// The largest whole second a system time can hold on this platform (a signed 64-bit count).
pub const MAX_TIME_SECS: u64 = 9_223_372_036_854_775_807;

/// The last second of the calendar range that dates and times can be rendered in
/// (the end of year 262142).
pub const MAX_CALENDAR_SECS: u64 = 8_210_266_876_799;

/// A span of time: whole seconds and the nanoseconds beyond them.
#[derive(Clone, Copy, Debug, PartialEq, Eq, Structural)]
pub struct Duration {
    pub secs: u64,
    pub nanos: u32,
}

/// A point in time, as the span since 1970-01-01 00:00:00 UTC.
#[derive(Clone, Copy, Debug, PartialEq, Eq, Structural)]
pub struct Timestamp {
    pub secs: u64,
    pub nanos: u32,
}

impl Duration {
    pub open spec fn wf(self) -> bool {
        self.nanos < NANOS_PER_SEC
    }

    /// The whole span in nanoseconds.
    pub open spec fn total(self) -> int {
        self.secs * 1_000_000_000 + self.nanos
    }

    pub fn from_secs(secs: u64) -> (d: Duration)
        ensures
            d.wf(),
            d.secs == secs,
            d.nanos == 0,
    {
        Duration { secs, nanos: 0 }
    }

    pub fn from_millis(millis: u64) -> (d: Duration)
        ensures
            d.wf(),
            d.total() == millis * 1_000_000,
    {
        let d = Duration { secs: millis / 1000, nanos: ((millis % 1000) * 1_000_000) as u32 };
        assert(d.total() == millis * 1_000_000) by (nonlinear_arith)
            requires
                d.secs == millis / 1000,
                d.nanos == (millis % 1000) * 1_000_000,
        ;
        d
    }

    pub fn as_secs(&self) -> (r: u64)
        ensures
            r == self.secs,
    {
        self.secs
    }

    pub fn subsec_nanos(&self) -> (r: u32)
        ensures
            r == self.nanos,
    {
        self.nanos
    }
}

impl Timestamp {
    /// Nanoseconds below one second, and a whole-second count that a system time can hold.
    pub open spec fn wf(self) -> bool {
        self.nanos < NANOS_PER_SEC && self.secs <= MAX_TIME_SECS
    }

    /// Nanoseconds since the epoch.
    pub open spec fn total(self) -> int {
        self.secs * 1_000_000_000 + self.nanos
    }

    /// Whether `self + d` is still a time a system time can hold.
    pub open spec fn can_add(self, d: Duration) -> bool {
        self.total() + d.total() < (MAX_TIME_SECS + 1) * 1_000_000_000
    }

    /// 1970-01-01 00:00:00 UTC.
    pub fn unix_epoch() -> (t: Timestamp)
        ensures
            t.wf(),
            t.total() == 0,
    {
        Timestamp { secs: 0, nanos: 0 }
    }

    /// The time `d` after `self`.
    pub fn plus(&self, d: Duration) -> (t: Timestamp)
        requires
            self.wf(),
            d.wf(),
            self.can_add(d),
        ensures
            t.wf(),
            t.total() == self.total() + d.total(),
    {
        let n = self.nanos + d.nanos;
        if n >= NANOS_PER_SEC {
            Timestamp { secs: self.secs + d.secs + 1, nanos: n - NANOS_PER_SEC }
        } else {
            Timestamp { secs: self.secs + d.secs, nanos: n }
        }
    }

    /// Whether `self + d` is at or after `now`, computed without overflow.
    pub fn reaches(&self, d: Duration, now: Timestamp) -> (r: bool)
        ensures
            r == (self.total() + d.total() >= now.total()),
    {
        let lhs: u128 = (self.secs as u128) * 1_000_000_000 + (self.nanos as u128) + (d.secs as u128)
            * 1_000_000_000 + (d.nanos as u128);
        let rhs: u128 = (now.secs as u128) * 1_000_000_000 + (now.nanos as u128);
        lhs >= rhs
    }

    /// The span since the epoch.
    pub fn duration_since_epoch(&self) -> (d: Duration)
        ensures
            d.secs == self.secs,
            d.nanos == self.nanos,
    {
        Duration { secs: self.secs, nanos: self.nanos }
    }
}

/// The time a capture header reports as whole seconds and microseconds: the seconds plus the
/// microseconds (taken modulo 2^32) as nanoseconds, carried into seconds. Defined where the
/// microseconds fit 32 bits once scaled to nanoseconds and the seconds are not negative and
/// stay within what a system time can hold.
pub open spec fn capture_time_ok(tv_sec: i64, tv_usec: i64) -> bool {
    &&& 0 <= tv_sec
    &&& (tv_usec as u32) * 1000 <= u32::MAX
    &&& tv_sec + ((tv_usec as u32) * 1000) / 1_000_000_000 <= MAX_TIME_SECS
}

/// The capture time of a header's seconds and microseconds.
pub open spec fn capture_time(tv_sec: i64, tv_usec: i64) -> Timestamp {
    let nanos = (tv_usec as u32) * 1000;
    Timestamp { secs: (tv_sec + nanos / 1_000_000_000) as u64, nanos: (nanos % 1_000_000_000) as u32 }
}

/// Whether a capture header's seconds and microseconds stand for a time, as `capture_time_ok`
/// says.
pub fn capture_time_valid(tv_sec: i64, tv_usec: i64) -> (r: bool)
    ensures
        r == capture_time_ok(tv_sec, tv_usec),
{
    let micros: u32 = tv_usec as u32;
    if tv_sec < 0 || micros > u32::MAX / 1000 {
        return false;
    }
    let nanos_in: u32 = micros * 1000;
    (tv_sec as u64) <= MAX_TIME_SECS - (nanos_in / NANOS_PER_SEC) as u64
}

pub fn tv_to_systemtime(tv_sec: i64, tv_usec: i64) -> (t: Timestamp)
    requires
        capture_time_ok(tv_sec, tv_usec),
    ensures
        t == capture_time(tv_sec, tv_usec),
        t.wf(),
        t.total() == tv_sec * 1_000_000_000 + (tv_usec as u32) * 1000,
{
    let nanos_in: u32 = (tv_usec as u32) * 1000;
    let carry: u64 = (nanos_in / NANOS_PER_SEC) as u64;
    let t = Timestamp { secs: tv_sec as u64 + carry, nanos: nanos_in % NANOS_PER_SEC };
    assert(t.total() == tv_sec * 1_000_000_000 + nanos_in) by (nonlinear_arith)
        requires
            t.secs == tv_sec + nanos_in / 1_000_000_000,
            t.nanos == nanos_in % 1_000_000_000,
    ;
    t
}

/// The first second of the calendar range that dates and times can be rendered in (the start
/// of year -262143).
pub const MIN_CALENDAR_SECS: i64 = -8_334_601_228_800;

/// An instant as a UTC calendar clock holds it: whole seconds since 1970-01-01 00:00:00 UTC,
/// negative before it, and the nanoseconds beyond them. Nanoseconds from one billion on mark a
/// leap second, which only the last second of a minute can be.
#[derive(Clone, Copy, Debug, PartialEq, Eq, Structural)]
pub struct UtcTime {
    pub secs: i64,
    pub nanos: u32,
}

impl UtcTime {
    /// Within the calendar range, with nanoseconds below two billion, and a leap second only at
    /// the last second of a minute.
    pub open spec fn wf(self) -> bool {
        &&& MIN_CALENDAR_SECS <= self.secs <= MAX_CALENDAR_SECS
        &&& self.nanos < 2 * NANOS_PER_SEC
        &&& self.nanos >= NANOS_PER_SEC ==> self.secs % 60 == 59
    }

    /// The calendar instant of a time since the epoch.
    pub fn from_timestamp(t: Timestamp) -> (r: UtcTime)
        requires
            t.wf(),
            t.secs <= MAX_CALENDAR_SECS,
        ensures
            r == utc_of(t),
            r.wf(),
    {
        UtcTime { secs: t.secs as i64, nanos: t.nanos }
    }
}

/// The calendar instant of a time since the epoch.
pub open spec fn utc_of(t: Timestamp) -> UtcTime {
    UtcTime { secs: t.secs as i64, nanos: t.nanos }
}

/// The patterns this library renders times with.
pub const ALERT_TIME_FORMAT: &'static str = "%Y-%m-%d %H:%M:%S";

pub const CLOCK_TIME_FORMAT: &'static str = "%H:%M:%S%.3f";

/// The last `width` decimal digits of `n`, leading zeros kept.
pub open spec fn fixed_digits(n: nat, width: nat) -> Seq<char>
    decreases width,
{
    if width == 0 {
        Seq::empty()
    } else {
        fixed_digits(n / 10, (width - 1) as nat).push(digit_char(n % 10))
    }
}

/// Two decimal digits of a number below 100, a leading zero kept.
pub open spec fn two_digits(n: nat) -> Seq<char> {
    seq![digit_char(n / 10), digit_char(n % 10)]
}

/// Three decimal digits of a number below 1000, leading zeros kept.
pub open spec fn three_digits(n: nat) -> Seq<char> {
    seq![digit_char(n / 100), digit_char((n / 10) % 10), digit_char(n % 10)]
}

/// The time of day, "HH:MM:SS", of the instant `secs` seconds after the epoch with `nanos`
/// nanoseconds, in UTC; a leap second shows as second 60.
pub open spec fn time_of_day_text(secs: int, nanos: nat) -> Seq<char> {
    let s = secs % 86400;
    two_digits((s / 3600) as nat) + seq![':'] + two_digits(((s % 3600) / 60) as nat) + seq![':']
        + two_digits((s % 60 + nanos / 1_000_000_000) as nat)
}

/// The time of day with milliseconds, "HH:MM:SS.mmm", the milliseconds cut, not rounded.
pub open spec fn clock_text(secs: int, nanos: nat) -> Seq<char> {
    time_of_day_text(secs, nanos) + seq!['.'] + three_digits((nanos / 1_000_000) % 1000)
}

/// The proleptic Gregorian (year, month, day) of the day `days` days after 1970-01-01
/// (negative before it).
pub open spec fn civil_date(days: int) -> (int, int, int) {
    let z = days + 719468;
    let era = z / 146097;
    let doe = z - era * 146097;
    let yoe = (doe - doe / 1460 + doe / 36524 - doe / 146096) / 365;
    let doy = doe - (365 * yoe + yoe / 4 - yoe / 100);
    let mp = (5 * doy + 2) / 153;
    let day = doy - (153 * mp + 2) / 5 + 1;
    let month = if mp < 10 {
        mp + 3
    } else {
        mp - 9
    };
    let year = yoe + era * 400 + (if month <= 2 {
        1int
    } else {
        0int
    });
    (year, month, day)
}

/// `t` padded on the left with zeros to four characters.
pub open spec fn zero_pad4(t: Seq<char>) -> Seq<char> {
    if t.len() >= 4 {
        t
    } else {
        Seq::new((4 - t.len()) as nat, |i: int| '0') + t
    }
}

/// A year as chrono writes one: four digits from 0 to 9999, and otherwise a sign and at least
/// four digits.
pub open spec fn year_text(year: int) -> Seq<char> {
    if 0 <= year <= 9999 {
        fixed_digits(year as nat, 4)
    } else if year > 9999 {
        seq!['+'] + decimal(year as nat)
    } else {
        seq!['-'] + zero_pad4(decimal((-year) as nat))
    }
}

/// The date, "YYYY-MM-DD", of the instant `secs` seconds after the epoch, in UTC.
pub open spec fn date_text(secs: int) -> Seq<char> {
    let (year, month, day) = civil_date(secs / 86400);
    year_text(year) + seq!['-'] + two_digits(month as nat) + seq!['-'] + two_digits(day as nat)
}

/// The date and time, "YYYY-MM-DD HH:MM:SS", of an instant, in UTC.
pub open spec fn date_time_text(secs: int, nanos: nat) -> Seq<char> {
    date_text(secs) + seq![' '] + time_of_day_text(secs, nanos)
}

/// Renders a calendar instant through `chrono::DateTime::<Utc>::from_timestamp` and
/// `DateTime::format(pattern)`. Claimed: with [`ALERT_TIME_FORMAT`] the text is the proleptic
/// Gregorian date and the time of day as `date_time_text` spells them, and with
/// [`CLOCK_TIME_FORMAT`] the time of day and the milliseconds, cut, as `clock_text` spells them;
/// a leap second shows as second 60. `from_timestamp` gives an instant exactly for the
/// well-formed ones, and the two patterns are well formed, so nothing here panics.
#[verifier::external_body]
pub(crate) fn format_utc(t: UtcTime, pattern: &str) -> (r: String)
    requires
        t.wf(),
        pattern@ == ALERT_TIME_FORMAT@ || pattern@ == CLOCK_TIME_FORMAT@,
    ensures
        pattern@ == ALERT_TIME_FORMAT@ ==> r@ == date_time_text(t.secs as int, t.nanos as nat),
        pattern@ == CLOCK_TIME_FORMAT@ ==> r@ == clock_text(t.secs as int, t.nanos as nat),
{
    chrono::DateTime::<chrono::Utc>::from_timestamp(t.secs, t.nanos)
        .expect("a well-formed instant")
        .format(pattern)
        .to_string()
}

/// A reading of the system clock: how long after, or how long before, 1970-01-01 00:00:00 UTC
/// it is.
#[derive(Clone, Copy, Debug, PartialEq, Eq, Structural)]
pub enum ClockReading {
    AfterEpoch(Duration),
    BeforeEpoch(Duration),
}

impl ClockReading {
    /// The span has nanoseconds below one second.
    pub open spec fn wf(self) -> bool {
        match self {
            ClockReading::AfterEpoch(d) => d.wf(),
            ClockReading::BeforeEpoch(d) => d.wf(),
        }
    }

    /// Nanoseconds since the epoch, negative before it.
    pub open spec fn nanos_since_epoch(self) -> int {
        match self {
            ClockReading::AfterEpoch(d) => d.total(),
            ClockReading::BeforeEpoch(d) => -d.total(),
        }
    }
}

/// Reads the system clock through `std::time::SystemTime::now()` and
/// `SystemTime::duration_since(UNIX_EPOCH)`, whose error carries how far before the epoch the
/// clock is. Claimed only: the span has sub-second nanoseconds below one second. What the clock
/// reads is not stated.
#[verifier::external_body]
pub(crate) fn system_clock() -> (r: ClockReading)
    ensures
        r.wf(),
{
    match std::time::SystemTime::now().duration_since(std::time::UNIX_EPOCH) {
        Ok(d) => ClockReading::AfterEpoch(Duration { secs: d.as_secs(), nanos: d.subsec_nanos() }),
        Err(e) => ClockReading::BeforeEpoch(
            Duration { secs: e.duration().as_secs(), nanos: e.duration().subsec_nanos() },
        ),
    }
}

/// Milliseconds since the epoch of a clock reading, capped at `i64::MAX`; 0 for a reading
/// before the epoch.
pub open spec fn millis_of(reading: ClockReading) -> int {
    match reading {
        ClockReading::AfterEpoch(d) => {
            let ms = d.secs * 1000 + d.nanos / 1_000_000;
            if ms > i64::MAX {
                i64::MAX as int
            } else {
                ms
            }
        },
        ClockReading::BeforeEpoch(_) => 0,
    }
}

/// The milliseconds since the epoch that a clock reading stands for, capped at `i64::MAX`; 0
/// before the epoch.
pub fn reading_millis(reading: ClockReading) -> (r: i64)
    ensures
        r == millis_of(reading),
{
    match reading {
        ClockReading::AfterEpoch(d) => {
            let ms: u128 = (d.secs as u128) * 1000 + (d.nanos / 1_000_000) as u128;
            if ms > i64::MAX as u128 {
                i64::MAX
            } else {
                ms as i64
            }
        },
        ClockReading::BeforeEpoch(_) => 0,
    }
}

/// The nanoseconds since the epoch of a clock reading, negative before it.
pub fn reading_nanos(reading: ClockReading) -> (r: i128)
    ensures
        r == reading.nanos_since_epoch(),
{
    let d = match reading {
        ClockReading::AfterEpoch(d) => d,
        ClockReading::BeforeEpoch(d) => d,
    };
    assert(d.secs * 1_000_000_000 <= 0xffff_ffff_ffff_ffff * 1_000_000_000) by (nonlinear_arith)
        requires
            d.secs <= 0xffff_ffff_ffff_ffff,
    ;
    let total: i128 = (d.secs as i128) * 1_000_000_000 + d.nanos as i128;
    match reading {
        ClockReading::AfterEpoch(_) => total,
        ClockReading::BeforeEpoch(_) => -total,
    }
}

/// The instant that chrono's RFC 3339 parser reads from a text, as whole seconds since the
/// epoch (signed) and nanoseconds, or none when the text is not RFC 3339.
pub uninterp spec fn rfc3339_instant(text: Seq<char>) -> Option<(int, int)>;

/// Parses a stored timestamp through `chrono::DateTime::parse_from_rfc3339` and the instant's
/// `timestamp` and `timestamp_subsec_nanos`. Claimed: the result is `rfc3339_instant` of the
/// text, and, being a chrono date and time, a well-formed calendar instant.
#[verifier::external_body]
pub(crate) fn parse_rfc3339(text: &str) -> (r: Option<(i64, u32)>)
    ensures
        match r {
            Some((s, n)) => rfc3339_instant(text@) == Some((s as int, n as int)),
            None => rfc3339_instant(text@) is None,
        },
        r matches Some((s, n)) ==> (UtcTime { secs: s, nanos: n }).wf(),
{
    match chrono::DateTime::parse_from_rfc3339(text) {
        Ok(t) => Some((t.timestamp(), t.timestamp_subsec_nanos())),
        Err(_) => None,
    }
}

/// The first second of the year 0 and of the year 10000: between them chrono writes the
/// four-digit year that RFC 3339 asks for.
pub const RFC3339_FIRST_SECS: i64 = -62_167_219_200;

pub const RFC3339_YEAR_LIMIT_SECS: i64 = 253_402_300_800;

/// The fraction of a second as chrono writes it by default: nothing for none, and otherwise a
/// point and three, six or nine digits, the fewest that hold it exactly.
pub open spec fn fraction_text(nanos: nat) -> Seq<char> {
    if nanos == 0 {
        Seq::empty()
    } else if nanos % 1_000_000 == 0 {
        seq!['.'] + fixed_digits(nanos / 1_000_000, 3)
    } else if nanos % 1000 == 0 {
        seq!['.'] + fixed_digits(nanos / 1000, 6)
    } else {
        seq!['.'] + fixed_digits(nanos, 9)
    }
}

/// The RFC 3339 text of an instant in UTC, "YYYY-MM-DDTHH:MM:SS[.fraction]+00:00", a leap
/// second shown as second 60.
pub open spec fn rfc3339_text(secs: int, nanos: nat) -> Seq<char> {
    date_text(secs) + seq!['T'] + time_of_day_text(secs, nanos) + fraction_text(
        nanos % 1_000_000_000,
    ) + seq!['+', '0', '0', ':', '0', '0']
}

/// Writes a calendar instant through `chrono::DateTime::<Utc>::from_timestamp` and
/// `DateTime::to_rfc3339`. Claimed: the text is `rfc3339_text` of the instant; and from the
/// year 0 to the year 9999, where chrono writes a four-digit year, every digit of the fraction
/// the nanoseconds need and the offset "+00:00", `DateTime::parse_from_rfc3339` reads the text
/// back as the same instant, a leap second included. `from_timestamp` gives an instant exactly
/// for the well-formed ones, so nothing here panics.
#[verifier::external_body]
fn write_rfc3339(t: UtcTime) -> (r: String)
    requires
        t.wf(),
    ensures
        r@ == rfc3339_text(t.secs as int, t.nanos as nat),
        RFC3339_FIRST_SECS <= t.secs < RFC3339_YEAR_LIMIT_SECS ==> rfc3339_instant(r@) == Some(
            (t.secs as int, t.nanos as int),
        ),
{
    chrono::DateTime::<chrono::Utc>::from_timestamp(t.secs, t.nanos)
        .expect("a well-formed instant")
        .to_rfc3339()
}

/// The instant an RFC 3339 text stands for, if it is one.
pub open spec fn stored_time(text: Seq<char>) -> Option<UtcTime> {
    match rfc3339_instant(text) {
        Some((s, n)) => Some(UtcTime { secs: s as i64, nanos: n as u32 }),
        None => None,
    }
}

impl UtcTime {
    /// The RFC 3339 text of this instant, e.g. "2025-07-23T10:35:14+00:00"; from the year 0 to
    /// the year 9999 it reads back as the same instant.
    pub fn to_rfc3339(&self) -> (r: String)
        requires
            self.wf(),
        ensures
            r@ == rfc3339_text(self.secs as int, self.nanos as nat),
            RFC3339_FIRST_SECS <= self.secs < RFC3339_YEAR_LIMIT_SECS ==> stored_time(r@) == Some(
                *self,
            ),
    {
        write_rfc3339(*self)
    }
}

} // verus!
