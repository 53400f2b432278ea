use vstd::prelude::*;

verus! {

/// Largest epoch-second value accepted from users and clocks. Times a user
/// can schedule, and the `now` handed to the store and the engine, stay in
/// `[-TIME_MAX, TIME_MAX]`; re-armed repeating events stay within twice that.
pub const TIME_MAX: i64 = 4_000_000_000_000;

/// Largest offset, in whole hours, accepted as a user timezone.
pub const TZ_HOURS_MAX: i32 = 1000;

/// A civil (proleptic-Gregorian) date and time of day, in some fixed offset.
#[derive(Clone, Copy, Debug, PartialEq, Eq, Structural)]
pub struct CivilTime {
    pub year: i32,
    pub month: u8,
    pub day: u8,
    pub hour: u8,
    pub minute: u8,
    pub second: u8,
}

pub open spec fn is_leap_year(y: int) -> bool {
    (y % 4 == 0 && y % 100 != 0) || y % 400 == 0
}

pub open spec fn days_in_month(y: int, m: int) -> int
    recommends
        1 <= m <= 12,
{
    if m == 2 {
        if is_leap_year(y) {
            29
        } else {
            28
        }
    } else if m == 4 || m == 6 || m == 9 || m == 11 {
        30
    } else {
        31
    }
}

/// A valid proleptic-Gregorian calendar date.
pub open spec fn valid_ymd(y: int, m: int, d: int) -> bool {
    1 <= m <= 12 && 1 <= d <= days_in_month(y, m)
}

/// A valid calendar date with a valid time of day (seconds are fixed to 0).
pub open spec fn valid_civil(y: int, m: int, d: int, h: int, mi: int) -> bool {
    valid_ymd(y, m, d) && 0 <= h < 24 && 0 <= mi < 60
}

impl CivilTime {
    pub open spec fn wf(self) -> bool {
        valid_ymd(self.year as int, self.month as int, self.day as int) && self.hour < 24
            && self.minute < 60 && self.second < 60
    }
}

/// The epoch seconds of a civil time taken as UTC: what chrono computes for
/// year/month/day hour:minute:00. Stated only through trusted contracts.
pub uninterp spec fn utc_timestamp_of(y: int, m: int, d: int, h: int, mi: int) -> int;

/// The civil decomposition (year, month, day, hour, minute, second) of an
/// epoch-second value, as chrono computes it. Stated only through trusted
/// contracts.
pub uninterp spec fn civil_of(ts: int) -> (int, int, int, int, int, int);

/// Relies on chrono's `TimeZone::with_ymd_and_hms` for `Utc` and on
/// `DateTime::timestamp`: for years `0..=9999` the construction succeeds on
/// exactly the valid proleptic-Gregorian civil times, always as a single
/// instant, and the resulting timestamp is a function of the civil fields
/// alone. Years 0 and 9999 bound the result between the epoch seconds of
/// 0000-01-01 00:00:00 and 9999-12-31 23:59:00.
#[verifier::external_body]
pub fn timestamp_from_civil(y: i32, m: u32, d: u32, h: u32, mi: u32) -> (r: Option<i64>)
    requires
        0 <= y <= 9999,
    ensures
        r is Some <==> valid_civil(y as int, m as int, d as int, h as int, mi as int),
        r is Some ==> r->0 == utc_timestamp_of(y as int, m as int, d as int, h as int, mi as int),
        r is Some ==> -62_167_219_200 <= r->0 <= 253_402_300_740,
{
    match chrono::TimeZone::with_ymd_and_hms(&chrono::Utc, y, m, d, h, mi, 0) {
        chrono::LocalResult::Single(dt) => Some(dt.timestamp()),
        _ => None,
    }
}

/// Relies on chrono's `TimeZone::timestamp_opt` for `Utc` and the `Datelike`
/// and `Timelike` accessors: decomposing a timestamp within chrono's range
/// always succeeds as a single instant, depends on the timestamp alone, and
/// yields the civil fields of that instant, whose minute part re-composes to
/// the same timestamp via `with_ymd_and_hms`.
#[verifier::external_body]
pub fn civil_from_timestamp(ts: i64) -> (c: CivilTime)
    requires
        -8_100_000_000_000 <= ts <= 8_100_000_000_000,
    ensures
        c.wf(),
        civil_of(ts as int) == (
            c.year as int,
            c.month as int,
            c.day as int,
            c.hour as int,
            c.minute as int,
            c.second as int,
        ),
        utc_timestamp_of(
            c.year as int,
            c.month as int,
            c.day as int,
            c.hour as int,
            c.minute as int,
        ) == ts - c.second,
{
    let dt = chrono::TimeZone::timestamp_opt(&chrono::Utc, ts, 0).single().expect(
        "timestamp in supported range",
    );
    CivilTime {
        year: chrono::Datelike::year(&dt),
        month: chrono::Datelike::month(&dt) as u8,
        day: chrono::Datelike::day(&dt) as u8,
        hour: chrono::Timelike::hour(&dt) as u8,
        minute: chrono::Timelike::minute(&dt) as u8,
        second: chrono::Timelike::second(&dt) as u8,
    }
}

/// The local reading of a UTC instant for a user whose offset convention
/// subtracts `tz` hours (an offset of `-3` is three hours east of UTC).
pub open spec fn local_of(ts: int, tz: int) -> int {
    ts - tz * 3600
}

/// The day number (days since the epoch, floored) of a local timestamp.
pub open spec fn day_number_of(local_ts: int) -> int {
    local_ts / 86400
}

pub open spec fn month_name_full(m: int) -> Seq<char>
    recommends
        1 <= m <= 12,
{
    if m == 1 {
        "January"@
    } else if m == 2 {
        "February"@
    } else if m == 3 {
        "March"@
    } else if m == 4 {
        "April"@
    } else if m == 5 {
        "May"@
    } else if m == 6 {
        "June"@
    } else if m == 7 {
        "July"@
    } else if m == 8 {
        "August"@
    } else if m == 9 {
        "September"@
    } else if m == 10 {
        "October"@
    } else if m == 11 {
        "November"@
    } else {
        "December"@
    }
}

pub open spec fn month_name_abbrev(m: int) -> Seq<char>
    recommends
        1 <= m <= 12,
{
    if m == 1 {
        "Jan"@
    } else if m == 2 {
        "Feb"@
    } else if m == 3 {
        "Mar"@
    } else if m == 4 {
        "Apr"@
    } else if m == 5 {
        "May"@
    } else if m == 6 {
        "Jun"@
    } else if m == 7 {
        "Jul"@
    } else if m == 8 {
        "Aug"@
    } else if m == 9 {
        "Sep"@
    } else if m == 10 {
        "Oct"@
    } else if m == 11 {
        "Nov"@
    } else {
        "Dec"@
    }
}

pub fn month_full(m: u8) -> (r: &'static str)
    requires
        1 <= m <= 12,
    ensures
        r@ == month_name_full(m as int),
{
    match m {
        1 => "January",
        2 => "February",
        3 => "March",
        4 => "April",
        5 => "May",
        6 => "June",
        7 => "July",
        8 => "August",
        9 => "September",
        10 => "October",
        11 => "November",
        _ => "December",
    }
}

pub fn month_abbrev(m: u8) -> (r: &'static str)
    requires
        1 <= m <= 12,
    ensures
        r@ == month_name_abbrev(m as int),
{
    match m {
        1 => "Jan",
        2 => "Feb",
        3 => "Mar",
        4 => "Apr",
        5 => "May",
        6 => "Jun",
        7 => "Jul",
        8 => "Aug",
        9 => "Sep",
        10 => "Oct",
        11 => "Nov",
        _ => "Dec",
    }
}

} // verus!
