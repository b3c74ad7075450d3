//! Instants of UTC time.
use vstd::prelude::*;

verus! {

/// The second in which the first instant lies.
pub const MIN_SECS: i64 = -8_334_601_228_800;

/// The second in which the last instant lies.
pub const MAX_SECS: i64 = 8_210_266_876_799;

/// The largest number of seconds that a span of time can have.
pub const MAX_SPAN_SECS: i64 = 9_223_372_036_854_775;

/// The nanoseconds of a second.
pub const NANOS: i64 = 1_000_000_000;

/// The seconds of a day.
pub const DAY: i64 = 86_400;

/// An instant: the seconds since the start of 1970 and the nanoseconds since
/// the start of the second. In a leap second the nanoseconds go on counting
/// from the second before.
pub struct Moment {
    pub secs: int,
    pub nanos: int,
}

impl Moment {
    pub open spec fn valid(self) -> bool {
        &&& MIN_SECS <= self.secs <= MAX_SECS
        &&& 0 <= self.nanos < 2 * NANOS
        &&& self.nanos >= NANOS ==> self.secs % 60 == 59
    }

    /// Whether the instant lies in a leap second.
    pub open spec fn leaps(self) -> bool {
        self.nanos >= NANOS
    }

    /// Whether the instant is not before another.
    pub open spec fn at_or_after(self, other: Moment) -> bool {
        self.secs > other.secs || (self.secs == other.secs && self.nanos >= other.nanos)
    }

    /// The second of the day.
    pub open spec fn second_of_day(self) -> int {
        self.secs % (DAY as int)
    }

    /// The hour of the day, from 0 to 23.
    pub open spec fn hour(self) -> int {
        self.second_of_day() / 3600
    }

    /// The minute of the hour, from 0 to 59.
    pub open spec fn minute(self) -> int {
        self.second_of_day() / 60 % 60
    }

    /// The instant `n` seconds earlier. Away from a leap second that keeps the
    /// nanoseconds. A step out of a leap second counts it as one second.
    pub open spec fn seconds_earlier(self, n: int) -> Moment {
        if !self.leaps() || n == 0 {
            Moment { secs: self.secs - n, nanos: self.nanos }
        } else if n < 0 {
            Moment { secs: self.secs - n, nanos: self.nanos - NANOS }
        } else {
            Moment { secs: self.secs + 1 - n, nanos: self.nanos - NANOS }
        }
    }

    /// The nanoseconds from another instant to this one. A leap second at the
    /// end with the earlier time of day counts as one second.
    pub open spec fn nanos_since(self, other: Moment) -> int {
        let leap: int = if self.second_of_day() > other.second_of_day() && other.leaps() {
            1
        } else if self.second_of_day() < other.second_of_day() && self.leaps() {
            -1
        } else {
            0
        };
        (self.secs - other.secs + leap) * NANOS + self.nanos - other.nanos
    }
}

/// The instant `n` seconds earlier, where `n` is a span of time and the result
/// is in range.
pub open spec fn earlier(at: Moment, n: int) -> Option<Moment> {
    if -MAX_SPAN_SECS <= n <= MAX_SPAN_SECS && MIN_SECS <= at.seconds_earlier(n).secs <= MAX_SECS {
        Some(at.seconds_earlier(n))
    } else {
        None
    }
}

/// The whole seconds in a number of nanoseconds, counted toward zero.
pub open spec fn whole_seconds(nanos: int) -> int {
    if nanos < 0 {
        -((-nanos) / (NANOS as int))
    } else {
        nanos / (NANOS as int)
    }
}

/// An instant of UTC time, with nanoseconds.
#[derive(Clone, Copy, Debug)]
pub struct Timestamp {
    secs: i64,
    nanos: u32,
}

impl View for Timestamp {
    type V = Moment;

    closed spec fn view(&self) -> Moment {
        Moment { secs: self.secs as int, nanos: self.nanos as int }
    }
}

impl Timestamp {
    #[verifier::type_invariant]
    spec fn in_range(self) -> bool {
        self@.valid()
    }

    /// The instant with those seconds and nanoseconds, where there is one.
    pub fn new(secs: i64, nanos: u32) -> (t: Option<Timestamp>)
        ensures
            t is Some <==> (Moment { secs: secs as int, nanos: nanos as int }).valid(),
            t matches Some(t) ==> t@ == (Moment { secs: secs as int, nanos: nanos as int }),
    {
        let in_range: bool = MIN_SECS <= secs && secs <= MAX_SECS && nanos < 2_000_000_000;
        if in_range && (nanos < 1_000_000_000 || minute_ends(secs)) {
            Some(Timestamp { secs, nanos })
        } else {
            None
        }
    }

    /// The seconds since the start of 1970.
    pub fn secs(self) -> (s: i64)
        ensures
            s == self@.secs,
    {
        self.secs
    }

    /// The nanoseconds since the start of the second.
    pub fn nanos(self) -> (n: u32)
        ensures
            n == self@.nanos,
    {
        self.nanos
    }

    /// Whether the instant is not before another.
    pub fn at_or_after(self, other: Timestamp) -> (r: bool)
        ensures
            r == self@.at_or_after(other@),
    {
        self.secs > other.secs || (self.secs == other.secs && self.nanos >= other.nanos)
    }

    /// The instant `n` seconds earlier, where `n` is a span of time and the
    /// result is in range.
    pub fn earlier(self, n: i64) -> (r: Option<Timestamp>)
        ensures
            (match r {
                Some(t) => Some(t@),
                None => None,
            }) == earlier(self@, n as int),
    {
        if n < -MAX_SPAN_SECS || n > MAX_SPAN_SECS {
            return None;
        }
        proof {
            use_type_invariant(&self);
        }
        match checked_sub_signed(self, n) {
            Some((secs, nanos)) => Some(Timestamp { secs, nanos }),
            None => None,
        }
    }

    /// Whether at least `n` seconds lie between another instant and this one.
    pub fn is_later_by(self, other: Timestamp, n: i64) -> (r: bool)
        ensures
            r == (self@.nanos_since(other@) >= n * NANOS),
    {
        let (secs, nanos) = signed_duration_since(self, other);
        secs as i128 * NANOS as i128 + nanos as i128 >= n as i128 * NANOS as i128
    }

    /// The whole seconds from another instant to this one, counted toward
    /// zero.
    pub fn seconds_since(self, other: Timestamp) -> (r: i64)
        ensures
            r == whole_seconds(self@.nanos_since(other@)),
    {
        let (secs, nanos) = signed_duration_since(self, other);
        secs
    }
}

fn minute_ends(secs: i64) -> (r: bool)
    ensures
        r == (secs % 60 == 59),
{
    let rest: i64 = secs % 60;
    rest == 59 || rest == -1
}

/// Calls `checked_sub_signed` of `chrono::DateTime<chrono::Utc>` with
/// `chrono::TimeDelta::seconds`: the instant that many seconds earlier, or
/// nothing where it is out of range.
#[verifier::external_body]
fn checked_sub_signed(at: Timestamp, n: i64) -> (r: Option<(i64, u32)>)
    requires
        -MAX_SPAN_SECS <= n <= MAX_SPAN_SECS,
    ensures
        (match r {
            Some((secs, nanos)) => Some(Moment { secs: secs as int, nanos: nanos as int }),
            None => None,
        }) == earlier(at@, n as int),
{
    let at = chrono::DateTime::<chrono::Utc>::from_timestamp(at.secs, at.nanos).unwrap();
    match at.checked_sub_signed(chrono::TimeDelta::seconds(n)) {
        Some(t) => Some((t.timestamp(), t.timestamp_subsec_nanos())),
        None => None,
    }
}

/// Calls `signed_duration_since` of `chrono::DateTime<chrono::Utc>`, and gives
/// `num_seconds` and `subsec_nanos` of the span: the nanoseconds from the
/// second instant to the first, as whole seconds counted toward zero and the
/// rest.
#[verifier::external_body]
fn signed_duration_since(end: Timestamp, start: Timestamp) -> (r: (i64, i32))
    ensures
        r.0 == whole_seconds(end@.nanos_since(start@)),
        r.0 * NANOS + r.1 == end@.nanos_since(start@),
{
    let end = chrono::DateTime::<chrono::Utc>::from_timestamp(end.secs, end.nanos).unwrap();
    let start = chrono::DateTime::<chrono::Utc>::from_timestamp(start.secs, start.nanos).unwrap();
    let span = end.signed_duration_since(start);
    (span.num_seconds(), span.subsec_nanos())
}

/// Calls `hour` of `chrono::DateTime<chrono::Utc>`: the hour of the day.
#[verifier::external_body]
pub(crate) fn hour(at: Timestamp) -> (h: u32)
    ensures
        h == at@.hour(),
{
    let at = chrono::DateTime::<chrono::Utc>::from_timestamp(at.secs, at.nanos).unwrap();
    chrono::Timelike::hour(&at)
}

/// Calls `minute` of `chrono::DateTime<chrono::Utc>`: the minute of the hour.
#[verifier::external_body]
pub(crate) fn minute(at: Timestamp) -> (m: u32)
    ensures
        m == at@.minute(),
{
    let at = chrono::DateTime::<chrono::Utc>::from_timestamp(at.secs, at.nanos).unwrap();
    chrono::Timelike::minute(&at)
}

/// Instants are ordered by their seconds, and within a second by their
/// nanoseconds. Away from leap seconds the later one is the one to which the
/// nanoseconds from the other are not negative.
pub proof fn law_order_of_instants(a: Moment, b: Moment, c: Moment)
    ensures
        a.secs > b.secs ==> a.at_or_after(b) && !b.at_or_after(a),
        a.secs == b.secs ==> (a.at_or_after(b) <==> a.nanos >= b.nanos),
        a.at_or_after(b) && b.at_or_after(c) ==> a.at_or_after(c),
        a.valid() && b.valid() && !a.leaps() && !b.leaps() ==> (a.at_or_after(b)
            <==> a.nanos_since(b) >= 0),
{
}

/// The hour and the minute of an instant are those of its second of the day.
pub proof fn law_time_of_day(at: Moment)
    ensures
        0 <= at.hour() < 24,
        0 <= at.minute() < 60,
        at.hour() * 3600 + at.minute() * 60 <= at.second_of_day() < at.hour() * 3600 + at.minute()
            * 60 + 60,
        (at.secs - at.second_of_day()) % 86_400 == 0,
{
}

} // verus!
