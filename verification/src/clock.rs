use vstd::prelude::*;

verus! {

/// The first second that a UTC date-time can hold (the start of year -262143).
pub const MIN_UTC_SECS: i64 = -8334601315200;

/// The last second that a UTC date-time can hold (the end of year 262142).
pub const MAX_UTC_SECS: i64 = 8210266876799;

/// A point in UTC time: seconds since 1970-01-01T00:00:00Z and nanoseconds within
/// the second.
#[derive(Clone, Copy, Debug, PartialEq, Eq, Structural)]
pub struct UtcTime {
    pub secs: i64,
    pub nanos: u32,
}

impl UtcTime {
    /// Within the range of UTC date-times, with less than a second of nanoseconds.
    pub open spec fn valid(self) -> bool {
        MIN_UTC_SECS <= self.secs <= MAX_UTC_SECS && self.nanos < 1_000_000_000
    }

    /// Whether chrono holds this time: within the range of date-times, with less
    /// than a second of nanoseconds, or less than two in the last second of a
    /// minute (a leap second).
    pub open spec fn representable(self) -> bool {
        &&& MIN_UTC_SECS <= self.secs <= MAX_UTC_SECS
        &&& (self.nanos < 1_000_000_000 || (self.nanos < 2_000_000_000 && self.secs % 60 == 59))
    }

    /// Nanoseconds since the epoch.
    pub open spec fn total_nanos(self) -> int {
        self.secs * 1_000_000_000 + self.nanos
    }
}

/// Whether `a` is later than `b`: by second, then by nanosecond (the order of
/// date-times, leap-second nanoseconds included).
pub open spec fn later_than(a: UtcTime, b: UtcTime) -> bool {
    a.secs > b.secs || (a.secs == b.secs && a.nanos > b.nanos)
}

/// Whether `a` is later than `b`.
pub fn is_after(a: UtcTime, b: UtcTime) -> (r: bool)
    ensures
        r == later_than(a, b),
{
    a.secs > b.secs || (a.secs == b.secs && a.nanos > b.nanos)
}

/// The date of a second as `%Y%m%d` formats it.
pub uninterp spec fn utc_date_stamp(secs: i64) -> Seq<char>;

/// The date and time of a second as `%Y%m%dT%H%M%SZ` formats it.
pub uninterp spec fn utc_amz_date(secs: i64) -> Seq<char>;

/// `chrono::Utc::now`, as seconds and nanoseconds: a valid time, nothing more.
#[verifier::external_body]
pub(crate) fn utc_now() -> (t: UtcTime)
    ensures
        t.valid(),
{
    let now = chrono::Utc::now();
    UtcTime { secs: now.timestamp(), nanos: now.timestamp_subsec_nanos() }
}

/// `chrono::DateTime::from_timestamp(secs, 0)` formatted with `%Y%m%d`; the
/// result is named `utc_date_stamp`. The year takes four digits, or a sign and at
/// most six digits outside 0000 to 9999; month and day take two: at most 11
/// characters.
#[verifier::external_body]
pub(crate) fn format_date_stamp(secs: i64) -> (s: String)
    requires
        MIN_UTC_SECS <= secs <= MAX_UTC_SECS,
    ensures
        s@ == utc_date_stamp(secs),
        s@.len() <= 11,
{
    chrono::DateTime::from_timestamp(secs, 0).unwrap().format("%Y%m%d").to_string()
}

/// `chrono::DateTime::from_timestamp(secs, 0)` formatted with `%Y%m%dT%H%M%SZ`;
/// the result is named `utc_amz_date`. The date takes at most 11 characters (see
/// `format_date_stamp`), the rest eight: at most 19 characters.
#[verifier::external_body]
pub(crate) fn format_amz_date(secs: i64) -> (s: String)
    requires
        MIN_UTC_SECS <= secs <= MAX_UTC_SECS,
    ensures
        s@ == utc_amz_date(secs),
        s@.len() <= 19,
{
    chrono::DateTime::from_timestamp(secs, 0).unwrap().format("%Y%m%dT%H%M%SZ").to_string()
}


/// The time that an RFC 3339 text denotes, in UTC.
pub uninterp spec fn rfc3339_time(s: Seq<char>) -> Option<UtcTime>;

/// The RFC 3339 text of a time in UTC.
pub uninterp spec fn rfc3339_text(t: UtcTime) -> Seq<char>;

/// `chrono::DateTime::parse_from_rfc3339` converted to UTC, as seconds and
/// nanoseconds: none when the text is not RFC 3339; the result is named
/// `rfc3339_time`.
#[verifier::external_body]
pub(crate) fn parse_rfc3339(s: &str) -> (t: Option<UtcTime>)
    ensures
        t == rfc3339_time(s@),
{
    match chrono::DateTime::parse_from_rfc3339(s) {
        Ok(d) => {
            let u = d.with_timezone(&chrono::Utc);
            Some(UtcTime { secs: u.timestamp(), nanos: u.timestamp_subsec_nanos() })
        },
        Err(_) => None,
    }
}

/// Whether a time falls in the years 0000 to 9999, which RFC 3339 writes with
/// four digits.
pub open spec fn in_four_digit_years(t: UtcTime) -> bool {
    -62_167_219_200 <= t.secs <= 253_402_300_799
}

/// `chrono::DateTime::to_rfc3339` of a UTC time that chrono holds; the result
/// is named `rfc3339_text`. In the years 0000 to 9999 the text is
/// `YYYY-MM-DDTHH:MM:SS`, the nanoseconds in 3, 6 or 9 digits when there are
/// any, and `+00:00` (a leap second written as second 60), which
/// `DateTime::parse_from_rfc3339` reads back to the same time (outside those
/// years the year gets a sign, which it refuses).
#[verifier::external_body]
pub(crate) fn format_rfc3339(t: UtcTime) -> (s: String)
    requires
        t.representable(),
    ensures
        s@ == rfc3339_text(t),
        in_four_digit_years(t) ==> rfc3339_time(s@) == Some(t),
{
    chrono::DateTime::from_timestamp(t.secs, t.nanos).unwrap().to_rfc3339()
}

/// The HTTP date of a time, as `%a, %d %b %Y %H:%M:%S GMT` formats it.
pub uninterp spec fn http_date_text(t: UtcTime) -> Seq<char>;

/// `chrono::DateTime::from_timestamp(t.secs, t.nanos)` formatted with
/// `%a, %d %b %Y %H:%M:%S GMT`; the result is named `http_date_text`.
#[verifier::external_body]
pub(crate) fn format_http_date(t: UtcTime) -> (s: String)
    requires
        t.representable(),
    ensures
        s@ == http_date_text(t),
{
    chrono::DateTime::from_timestamp(t.secs, t.nanos).unwrap().format("%a, %d %b %Y %H:%M:%S GMT").to_string()
}

} // verus!
