//! Identifiers and points in time, which the `uuid` and `chrono` crates make and take apart.
use vstd::prelude::*;

use chrono::{Datelike, Timelike};

verus! {

/// A universally unique identifier, as the number that its sixteen bytes spell.
#[derive(Clone, Copy, Debug, PartialEq, Eq, Structural)]
pub struct Uuid {
    pub value: u128,
}

/// The version field of an identifier.
pub open spec fn version(value: u128) -> int {
    value as int / 0x1000_0000_0000_0000_0000 % 0x10
}

/// The variant field of an identifier.
pub open spec fn variant(value: u128) -> int {
    value as int / 0x4000_0000_0000_0000 % 4
}

/// The first four bytes of an identifier.
pub open spec fn field1(value: u128) -> int {
    value as int / 0x1_0000_0000_0000_0000_0000_0000
}

/// The next two bytes.
pub open spec fn field2(value: u128) -> int {
    value as int / 0x1_0000_0000_0000_0000_0000 % 0x1_0000
}

/// The two bytes behind those, without the version.
pub open spec fn field3(value: u128) -> int {
    value as int / 0x1_0000_0000_0000_0000 % 0x1000
}

/// Seconds and nanoseconds since 1970 for a count of 100 ns since 15 October 1582. A count before
/// 1970 is taken modulo 2^64.
pub open spec fn unix_time(ticks: int) -> (int, int) {
    let since_1970 = (ticks - 0x01B2_1DD2_1381_4000) % 0x1_0000_0000_0000_0000;
    (since_1970 / 10_000_000, since_1970 % 10_000_000 * 100)
}

/// The seconds and nanoseconds since 1970 that a time based identifier was made at.
pub open spec fn uuid_time(value: u128) -> Option<(int, int)> {
    if version(value) == 1 {
        Some(
            unix_time(
                field3(value) * 0x1_0000_0000_0000 + field2(value) * 0x1_0000_0000 + field1(value),
            ),
        )
    } else if version(value) == 6 {
        Some(unix_time(field1(value) * 0x1000_0000 + field2(value) * 0x1000 + field3(value)))
    } else if version(value) == 7 {
        let millis = field1(value) * 0x1_0000 + field2(value);
        Some((millis / 1000, millis % 1000 * 1_000_000))
    } else {
        None
    }
}

/// `uuid::Uuid::new_v4`: a random identifier. Every outcome is of version 4 and of the variant of
/// RFC 9562; nothing else can be said of it.
#[verifier::external_body]
fn random_uuid() -> (r: u128)
    ensures
        version(r) == 4,
        variant(r) == 2,
{
    uuid::Uuid::new_v4().as_u128()
}

/// `uuid::Uuid::get_timestamp`, with the result in seconds and nanoseconds since 1970: the time in
/// an identifier of version 1, 6 or 7, and nothing for any other.
#[verifier::external_body]
fn timestamp_of(value: u128) -> (r: Option<(u64, u32)>)
    ensures
        match r {
            Some(t) => uuid_time(value) == Some((t.0 as int, t.1 as int)),
            None => uuid_time(value) is None,
        },
{
    match uuid::Uuid::from_u128(value).get_timestamp() {
        Some(timestamp) => Some(timestamp.to_unix()),
        None => None,
    }
}

impl Uuid {
    /// A random identifier.
    pub fn new_v4() -> (r: Self)
        ensures
            version(r.value) == 4,
            variant(r.value) == 2,
    {
        Uuid { value: random_uuid() }
    }

    /// The seconds and nanoseconds since 1970 that the identifier was made at, where it tells.
    pub fn get_timestamp(&self) -> (r: Option<(u64, u32)>)
        ensures
            match r {
                Some(t) => uuid_time(self.value) == Some((t.0 as int, t.1 as int)),
                None => uuid_time(self.value) is None,
            },
    {
        timestamp_of(self.value)
    }
}

/// A point in time in UTC: seconds since 1970, and nanoseconds within the second.
#[derive(Clone, Copy, Debug, PartialEq, Eq, Structural)]
pub struct UtcTime {
    pub secs: i64,
    pub nanos: u32,
}

/// `chrono::Utc::now`, as seconds since 1970 and nanoseconds within the second. The clock decides
/// the rest.
#[verifier::external_body]
fn utc_now() -> (r: (i64, u32))
    ensures
        r.0 >= 0,
        r.1 < 1_000_000_000,
{
    let now = chrono::Utc::now();
    (now.timestamp(), now.timestamp_subsec_nanos())
}

impl UtcTime {
    /// The current time.
    pub fn now() -> (r: Self)
        ensures
            r.secs >= 0,
            r.nanos < 1_000_000_000,
    {
        let now = utc_now();
        UtcTime { secs: now.0, nanos: now.1 }
    }
}

/// A date of the proleptic Gregorian calendar with a time of day, without a time zone.
#[derive(Clone, Copy, Debug, PartialEq, Eq, Structural)]
pub struct NaiveDateTime {
    pub year: i32,
    pub month: u32,
    pub day: u32,
    pub hour: u32,
    pub minute: u32,
    pub second: u32,
    pub nanosecond: u32,
}

pub open spec fn is_leap_year(year: int) -> bool {
    year % 4 == 0 && (year % 100 != 0 || year % 400 == 0)
}

pub open spec fn days_in_month(year: int, month: int) -> int {
    if month == 2 {
        if is_leap_year(year) {
            29
        } else {
            28
        }
    } else if month == 4 || month == 6 || month == 9 || month == 11 {
        30
    } else {
        31
    }
}

/// The number of days from 1 January 1970 to the given date. Years are counted from March, so
/// that the leap day is the last day of its year.
pub open spec fn days_since_1970(year: int, month: int, day: int) -> int {
    let y = if month <= 2 {
        year - 1
    } else {
        year
    };
    let m = if month <= 2 {
        month + 9
    } else {
        month - 3
    };
    365 * y + y / 4 - y / 100 + y / 400 + (153 * m + 2) / 5 + day - 1 - 719468
}

impl NaiveDateTime {
    /// The fields are those of a date and a time of day that exist.
    pub open spec fn valid(self) -> bool {
        &&& 1 <= self.month <= 12
        &&& 1 <= self.day <= days_in_month(self.year as int, self.month as int)
        &&& self.hour < 24
        &&& self.minute < 60
        &&& self.second < 60
        &&& self.nanosecond < 1_000_000_000
    }

    /// The seconds from 1970 to this date and time.
    pub open spec fn seconds(self) -> int {
        days_since_1970(self.year as int, self.month as int, self.day as int) * 86400 + self.hour
            * 3600 + self.minute * 60 + self.second
    }
}

/// `chrono::NaiveDateTime::from_timestamp`, with the result field by field: the date and time that
/// lies `secs` seconds and `nsecs` nanoseconds behind the start of 1970. It panics some 262,000
/// years away from that; the bound on `secs` stays below.
#[verifier::external_body]
fn naive_from_timestamp(secs: i64, nsecs: u32) -> (r: NaiveDateTime)
    requires
        0 <= secs <= 8_000_000_000_000,
        nsecs < 1_000_000_000,
    ensures
        r.valid(),
        r.seconds() == secs,
        r.nanosecond == nsecs,
{
    #[allow(deprecated)]
    let t = chrono::NaiveDateTime::from_timestamp(secs, nsecs);
    NaiveDateTime {
        year: t.year(),
        month: t.month(),
        day: t.day(),
        hour: t.hour(),
        minute: t.minute(),
        second: t.second(),
        nanosecond: t.nanosecond(),
    }
}

impl NaiveDateTime {
    /// The date and time `secs` seconds and `nsecs` nanoseconds behind the start of 1970.
    pub fn from_timestamp(secs: i64, nsecs: u32) -> (r: Self)
        requires
            0 <= secs <= 8_000_000_000_000,
            nsecs < 1_000_000_000,
        ensures
            r.valid(),
            r.seconds() == secs,
            r.nanosecond == nsecs,
    {
        naive_from_timestamp(secs, nsecs)
    }
}

} // verus!
