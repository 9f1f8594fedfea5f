//! Moments in time, and what `chrono` and `cron` make of them.

use vstd::prelude::*;

use std::str::FromStr;

use cron::Schedule as CronTable;

use crate::text;

verus! {

/// A moment: seconds since 1970 in UTC, and nanoseconds within the second. In
/// a leap second the nanoseconds go past a thousand million.
#[derive(Clone, Copy, Debug, PartialEq, Eq, PartialOrd, Ord, Structural)]
pub struct UtcTime {
    pub secs: i64,
    pub nanos: u32,
}

impl View for UtcTime {
    type V = UtcTime;

    open spec fn view(&self) -> UtcTime {
        *self
    }
}

impl UtcTime {
    /// A moment that the calendar of `chrono` holds, with a second to spare.
    pub open spec fn is_valid(self) -> bool {
        &&& -8_334_601_228_800 <= self.secs <= 8_210_266_876_798
        &&& self.nanos < 2_000_000_000
        &&& self.nanos >= 1_000_000_000 ==> self.secs % 60 == 59
    }

    /// A moment of the years 0 to 9999, outside leap seconds.
    pub open spec fn is_common(self) -> bool {
        &&& -62_167_219_200 <= self.secs <= 253_402_300_799
        &&& self.nanos < 1_000_000_000
    }

    /// `self` comes before `other`.
    pub open spec fn before(self, other: UtcTime) -> bool {
        self.secs < other.secs || (self.secs == other.secs && self.nanos < other.nanos)
    }

    /// Whether `self` comes before `other`.
    pub fn is_before(&self, other: &UtcTime) -> (r: bool)
        ensures
            r == self.before(*other),
    {
        self.secs < other.secs || (self.secs == other.secs && self.nanos < other.nanos)
    }
}

/// The moment some seconds after another, where neither is a leap second and
/// the calendar holds it.
pub open spec fn later_of(t: UtcTime, secs: i64) -> Option<UtcTime> {
    let at = t.secs + secs;
    if t.nanos < 1_000_000_000 && -8_334_601_228_800 <= at <= 8_210_266_876_798 {
        Some(UtcTime { secs: at as i64, nanos: t.nanos })
    } else {
        None
    }
}

/// The moment some seconds after another.
pub fn later(t: UtcTime, secs: i64) -> (r: Option<UtcTime>)
    ensures
        r == later_of(t, secs),
        r matches Some(x) ==> x.is_valid(),
{
    match t.secs.checked_add(secs) {
        Some(at) => if t.nanos < 1_000_000_000 && -8_334_601_228_800 <= at && at
            <= 8_210_266_876_798 {
            Some(UtcTime { secs: at, nanos: t.nanos })
        } else {
            None
        },
        None => None,
    }
}

/// What `chrono::DateTime::parse_from_rfc3339` makes of a text: a moment, or
/// the message of its error.
pub uninterp spec fn rfc3339_moment(s: Seq<char>) -> Result<UtcTime, Seq<char>>;

/// `chrono::DateTime::parse_from_rfc3339`, with the moment taken in UTC. The
/// result follows from the text alone. RFC 3339 has years of four digits, so
/// the moment lies well inside the calendar.
#[verifier::external_body]
pub(crate) fn parse_rfc3339(s: &str) -> (r: Result<UtcTime, String>)
    ensures
        match r {
            Ok(t) => rfc3339_moment(s@) == Ok::<UtcTime, Seq<char>>(t) && t.is_valid(),
            Err(e) => rfc3339_moment(s@) == Err::<UtcTime, Seq<char>>(e@),
        },
{
    match chrono::DateTime::parse_from_rfc3339(s) {
        Ok(d) => Ok(UtcTime { secs: d.timestamp(), nanos: d.timestamp_subsec_nanos() }),
        Err(e) => Err(e.to_string()),
    }
}

/// A text that reads as a moment.
pub open spec fn reads_as(s: Seq<char>, t: UtcTime) -> bool {
    match rfc3339_moment(s) {
        Ok(back) => back == t,
        Err(_) => false,
    }
}

/// The text that `chrono::DateTime::to_rfc3339` gives for a moment in UTC.
pub uninterp spec fn rfc3339_text(t: UtcTime) -> Seq<char>;

/// `chrono::DateTime::to_rfc3339` of a moment in UTC. The text follows from
/// the moment alone, and for years of four digits it reads back as the same
/// moment.
#[verifier::external_body]
pub(crate) fn to_rfc3339(t: UtcTime) -> (r: String)
    requires
        t.is_valid(),
    ensures
        r@ == rfc3339_text(t),
        t.is_common() ==> reads_as(r@, t),
{
    chrono::DateTime::from_timestamp(t.secs, t.nanos).unwrap().to_rfc3339()
}

/// The text that `chrono` gives for a moment in UTC in the form
/// `%Y-%m-%dT%H-%M-%SZ`, which can stand in a file name.
pub uninterp spec fn file_stamp(t: UtcTime) -> Seq<char>;

/// `chrono::DateTime::format` with `%Y-%m-%dT%H-%M-%SZ`: the text follows from
/// the moment alone.
#[verifier::external_body]
pub(crate) fn to_file_stamp(t: UtcTime) -> (r: String)
    requires
        t.is_valid(),
    ensures
        r@ == file_stamp(t),
{
    let d = chrono::DateTime::from_timestamp(t.secs, t.nanos).unwrap();
    d.format("%Y-%m-%dT%H-%M-%SZ").to_string()
}

/// `cron::Schedule`, a parsed cron expression.
#[verifier::external_type_specification]
#[verifier::external_body]
pub struct ExCronTable(CronTable);

/// What `cron::Schedule::from_str` makes of a text: a schedule, or the message
/// of its error.
pub uninterp spec fn cron_schedule(expr: Seq<char>) -> Result<CronTable, Seq<char>>;

/// A day of the week as cron expressions name it, or every day.
pub open spec fn is_day(d: Seq<char>) -> bool {
    ||| d == "*"@
    ||| d == "SUN"@
    ||| d == "MON"@
    ||| d == "TUE"@
    ||| d == "WED"@
    ||| d == "THU"@
    ||| d == "FRI"@
    ||| d == "SAT"@
}

/// A cron expression of six fields for an hour and a minute, every day or on
/// one day of the week.
pub open spec fn time_of_day(minute: nat, hour: nat, day: Seq<char>) -> Seq<char> {
    "0 "@ + text::decimal_of(minute) + " "@ + text::decimal_of(hour) + " * * "@ + day
}

/// An expression for some time of the day.
pub open spec fn names_time_of_day(expr: Seq<char>) -> bool {
    exists|minute: nat, hour: nat, day: Seq<char>|
        minute < 60 && hour < 24 && is_day(day) && expr == #[trigger] time_of_day(
            minute,
            hour,
            day,
        )
}

/// `<cron::Schedule as FromStr>::from_str`: whether the text is an expression,
/// which one, and the message where it is none, follow from the text alone. A
/// time of the day is an expression.
#[verifier::external_body]
pub(crate) fn parse_cron(expr: &str) -> (r: Result<CronTable, String>)
    ensures
        match r {
            Ok(s) => cron_schedule(expr@) == Ok::<CronTable, Seq<char>>(s),
            Err(e) => cron_schedule(expr@) == Err::<CronTable, Seq<char>>(e@),
        },
        names_time_of_day(expr@) ==> r is Ok,
{
    CronTable::from_str(expr).map_err(|e| e.to_string())
}

/// The first moment of a schedule after a moment, where there is one.
pub uninterp spec fn cron_next(s: CronTable, after: UtcTime) -> Option<UtcTime>;

/// `cron::Schedule::after`, and the first moment that its iterator gives. The
/// moment follows from the schedule and the moment before it, comes strictly
/// after that one, and lies before the end of the year 2100.
#[verifier::external_body]
pub(crate) fn next_after(s: &CronTable, after: UtcTime) -> (r: Option<UtcTime>)
    requires
        after.is_valid(),
    ensures
        r == cron_next(*s, after),
        r matches Some(t) ==> after.before(t) && t.is_valid(),
{
    let from = chrono::DateTime::from_timestamp(after.secs, after.nanos).unwrap();
    s.after(&from).next().map(|d| UtcTime { secs: d.timestamp(), nanos: d.timestamp_subsec_nanos() })
}

/// A later moment is as many seconds away as asked for and no fraction of one
/// more; it comes after the first where the number is positive, and going back
/// as many seconds leads to the first again.
pub proof fn later_moments_are_that_far_away(t: UtcTime, secs: i64)
    requires
        t.is_valid(),
        later_of(t, secs) is Some,
        secs > i64::MIN,
    ensures
        later_of(t, secs)->0.secs - t.secs == secs,
        later_of(t, secs)->0.nanos == t.nanos,
        secs > 0 <==> t.before(later_of(t, secs)->0),
        secs < 0 <==> later_of(t, secs)->0.before(t),
        later_of(later_of(t, secs)->0, (-secs) as i64) == Some(t),
{
}

/// Every moment within the calendar, and outside leap seconds, can be counted
/// on to.
pub proof fn moments_within_the_calendar_are_reached(t: UtcTime, u: UtcTime)
    requires
        t.is_valid(),
        u.is_valid(),
        t.nanos == u.nanos,
        t.nanos < 1_000_000_000,
    ensures
        later_of(t, (u.secs - t.secs) as i64) == Some(u),
{
}

/// Of two different moments one comes before the other, and never each before
/// the other.
pub proof fn moments_are_ordered(t: UtcTime, u: UtcTime, v: UtcTime)
    ensures
        t != u ==> t.before(u) || u.before(t),
        !(t.before(u) && u.before(t)),
        t.before(u) && u.before(v) ==> t.before(v),
{
}

} // verus!
