use vstd::prelude::*;

use crate::civil::{
    civil_from_timestamp, civil_of, local_of, timestamp_from_civil, utc_timestamp_of, valid_civil,
    TIME_MAX, TZ_HOURS_MAX,
};
use crate::numfmt::dec_str;

verus! {

/// A parsed user command: a one-time reminder or a repeating one.
/// All times are UTC epoch seconds; waits are in seconds.
#[derive(Debug, Clone, PartialEq)]
pub enum Command {
    OneTimeEvent(OneTimeEventImpl),
    RepetitiveEvent(RepetitiveEventImpl),
}

#[derive(Debug, Clone, PartialEq)]
pub struct OneTimeEventImpl {
    pub event_time: i64,
    pub event_text: String,
}

#[derive(Debug, Clone, PartialEq)]
pub struct RepetitiveEventImpl {
    pub event_start_time: i64,
    pub event_wait_time: i64,
    pub event_text: String,
}

/// Largest value accepted for a single day/hour/minute/second component of a
/// duration; larger numbers make the whole form fail to parse.
pub const DUR_COMP_MAX: i64 = TIME_MAX;

/// Largest value accepted for a numeric date or time-of-day field; calendar
/// validity is checked separately, this bound only rejects absurd numbers.
pub const FIELD_MAX: i64 = 1_000_000;

// ---------------------------------------------------------------------------
// Low-level character classes and scanners, in spec and exec form.
// ---------------------------------------------------------------------------

pub open spec fn is_space_char(c: char) -> bool {
    c == ' ' || c == '\t' || c == '\r' || c == '\n'
}

pub open spec fn is_digit_char(c: char) -> bool {
    48 <= c as int <= 57
}

pub open spec fn digit_value(c: char) -> int {
    c as int - 48
}

/// The first index at or after `i` that does not hold a decimal digit.
pub open spec fn digits_end(s: Seq<char>, i: int) -> int
    recommends
        0 <= i <= s.len(),
    decreases s.len() - i when 0 <= i <= s.len()
{
    if i < s.len() && is_digit_char(s[i]) {
        digits_end(s, i + 1)
    } else {
        i
    }
}

/// The numeric value of the digit run `s[i..j)`.
pub open spec fn digits_value(s: Seq<char>, i: int, j: int) -> int
    decreases j - i,
{
    if i < j {
        digits_value(s, i, j - 1) * 10 + digit_value(s[j - 1])
    } else {
        0
    }
}

/// The first index at or after `i` that does not hold whitespace.
pub open spec fn ws_end(s: Seq<char>, i: int) -> int
    recommends
        0 <= i <= s.len(),
    decreases s.len() - i when 0 <= i <= s.len()
{
    if i < s.len() && is_space_char(s[i]) {
        ws_end(s, i + 1)
    } else {
        i
    }
}

proof fn lemma_digits_end_bounds(s: Seq<char>, i: int)
    requires
        0 <= i <= s.len(),
    ensures
        i <= digits_end(s, i) <= s.len(),
    decreases s.len() - i,
{
    if i < s.len() && is_digit_char(s[i]) {
        lemma_digits_end_bounds(s, i + 1);
    }
}

proof fn lemma_ws_end_bounds(s: Seq<char>, i: int)
    requires
        0 <= i <= s.len(),
    ensures
        i <= ws_end(s, i) <= s.len(),
    decreases s.len() - i,
{
    if i < s.len() && is_space_char(s[i]) {
        lemma_ws_end_bounds(s, i + 1);
    }
}

/// Digit runs have non-negative value, monotone in their right end.
proof fn lemma_digits_value_nonneg(s: Seq<char>, i: int, j: int)
    requires
        0 <= i <= j <= s.len(),
        forall|k: int| i <= k < j ==> is_digit_char(s[k]),
    ensures
        0 <= digits_value(s, i, j),
    decreases j - i,
{
    if i < j {
        lemma_digits_value_nonneg(s, i, j - 1);
    }
}

fn char_at(s: &str, i: usize) -> (c: char)
    requires
        i < s@.len(),
    ensures
        c == s@[i as int],
{
    s.get_char(i)
}

/// Scans the digit run starting at `i`; the value is `None` when it exceeds
/// `cap`.
fn scan_digits(s: &str, i: usize, cap: i64) -> (r: (usize, Option<i64>))
    requires
        i <= s@.len(),
        0 <= cap <= 1_000_000_000_000_000,
    ensures
        r.0 as int == digits_end(s@, i as int),
        i <= r.0 <= s@.len(),
        r.1 is Some <==> digits_value(s@, i as int, r.0 as int) <= cap,
        r.1 is Some ==> r.1->0 == digits_value(s@, i as int, r.0 as int),
        r.1 is Some ==> 0 <= r.1->0 <= cap,
{
    let n = s.unicode_len();
    let mut j = i;
    let mut acc: i64 = 0;
    let mut over = false;
    proof {
        lemma_digits_end_bounds(s@, i as int);
    }
    loop
        invariant
            i <= j <= n,
            n == s@.len(),
            j <= digits_end(s@, i as int),
            digits_end(s@, j as int) == digits_end(s@, i as int),
            !over ==> acc == digits_value(s@, i as int, j as int) && acc <= cap,
            over ==> digits_value(s@, i as int, j as int) > cap,
            0 <= acc <= cap,
            0 <= cap <= 1_000_000_000_000_000,
        ensures
            j as int == digits_end(s@, i as int),
            !over ==> acc == digits_value(s@, i as int, j as int) && acc <= cap,
            over ==> digits_value(s@, i as int, j as int) > cap,
            0 <= acc <= cap,
        decreases n - j,
    {
        if j == n {
            break ;
        }
        let c = char_at(s, j);
        let cv = c as u32;
        if !(48 <= cv && cv <= 57) {
            break ;
        }
        proof {
            assert(is_digit_char(s@[j as int]));
            assert(digits_end(s@, j as int) == digits_end(s@, j as int + 1));
            lemma_digits_end_bounds(s@, j as int + 1);
            assert(digits_value(s@, i as int, j as int + 1) == digits_value(
                s@,
                i as int,
                j as int,
            ) * 10 + digit_value(s@[j as int]));
        }
        let d = (cv - 48) as i64;
        let ghost v_old = digits_value(s@, i as int, j as int);
        if !over {
            let next = acc * 10 + d;
            if next <= cap {
                acc = next;
            } else {
                over = true;
            }
        } else {
            proof {
                assert(v_old * 10 + d > cap) by (nonlinear_arith)
                    requires
                        v_old > cap,
                        cap >= 0,
                        d >= 0,
                ;
            }
        }
        j = j + 1;
    }
    if over {
        (j, None)
    } else {
        (j, Some(acc))
    }
}

fn scan_ws(s: &str, i: usize) -> (j: usize)
    requires
        i <= s@.len(),
    ensures
        j as int == ws_end(s@, i as int),
        i <= j <= s@.len(),
{
    let n = s.unicode_len();
    let mut j = i;
    proof {
        lemma_ws_end_bounds(s@, i as int);
    }
    loop
        invariant
            i <= j <= n,
            n == s@.len(),
            j <= ws_end(s@, i as int),
            ws_end(s@, j as int) == ws_end(s@, i as int),
        ensures
            j as int == ws_end(s@, i as int),
            i <= j <= s@.len(),
        decreases n - j,
    {
        if j == n {
            break ;
        }
        let c = char_at(s, j);
        if !(c == ' ' || c == '\t' || c == '\r' || c == '\n') {
            break ;
        }
        proof {
            assert(is_space_char(s@[j as int]));
            assert(ws_end(s@, j as int) == ws_end(s@, j as int + 1));
            lemma_ws_end_bounds(s@, j as int + 1);
        }
        j = j + 1;
    }
    j
}

// ---------------------------------------------------------------------------
// Duration components: `<n>` followed by a unit letter for day, hour, minute
// or second, in that order; Latin and Cyrillic unit letters are accepted.
// ---------------------------------------------------------------------------

/// Unit classes 0..4 are day, hour, minute, second; each accepts an upper and
/// lower case Latin letter and the corresponding Cyrillic pair.
pub open spec fn is_unit_char(u: int, c: char) -> bool {
    if u == 0 {
        c == 'D' || c == 'd' || c as int == 1044 || c as int == 1076
    } else if u == 1 {
        c == 'H' || c == 'h' || c as int == 1063 || c as int == 1095
    } else if u == 2 {
        c == 'M' || c == 'm' || c as int == 1052 || c as int == 1084
    } else {
        c == 'S' || c == 's' || c as int == 1057 || c as int == 1089
    }
}

/// A duration component is present at `i` when a nonempty digit run is
/// followed by a unit letter of class `u` and its value is within bounds.
pub open spec fn comp_present(s: Seq<char>, i: int, u: int) -> bool {
    let j = digits_end(s, i);
    j > i && j < s.len() && is_unit_char(u, s[j]) && digits_value(s, i, j) <= DUR_COMP_MAX
}

pub open spec fn comp_value(s: Seq<char>, i: int, u: int) -> int {
    if comp_present(s, i, u) {
        digits_value(s, i, digits_end(s, i))
    } else {
        0
    }
}

pub open spec fn comp_next(s: Seq<char>, i: int, u: int) -> int {
    if comp_present(s, i, u) {
        digits_end(s, i) + 1
    } else {
        i
    }
}

pub open spec fn dur_p1(s: Seq<char>, i: int) -> int {
    comp_next(s, i, 0)
}

pub open spec fn dur_p2(s: Seq<char>, i: int) -> int {
    comp_next(s, dur_p1(s, i), 1)
}

pub open spec fn dur_p3(s: Seq<char>, i: int) -> int {
    comp_next(s, dur_p2(s, i), 2)
}

/// The position just after the four optional duration components.
pub open spec fn dur_end(s: Seq<char>, i: int) -> int {
    comp_next(s, dur_p3(s, i), 3)
}

/// The total number of seconds written by the components starting at `i`.
pub open spec fn dur_total(s: Seq<char>, i: int) -> int {
    comp_value(s, i, 0) * 86400 + comp_value(s, dur_p1(s, i), 1) * 3600 + comp_value(
        s,
        dur_p2(s, i),
        2,
    ) * 60 + comp_value(s, dur_p3(s, i), 3)
}

proof fn lemma_comp_next_bounds(s: Seq<char>, i: int, u: int)
    requires
        0 <= i <= s.len(),
    ensures
        i <= comp_next(s, i, u) <= s.len(),
{
    lemma_digits_end_bounds(s, i);
}

proof fn lemma_dur_end_bounds(s: Seq<char>, i: int)
    requires
        0 <= i <= s.len(),
    ensures
        i <= dur_p1(s, i) <= dur_p2(s, i) <= dur_p3(s, i) <= dur_end(s, i) <= s.len(),
{
    lemma_comp_next_bounds(s, i, 0);
    lemma_comp_next_bounds(s, dur_p1(s, i), 1);
    lemma_comp_next_bounds(s, dur_p2(s, i), 2);
    lemma_comp_next_bounds(s, dur_p3(s, i), 3);
}

fn scan_comp(s: &str, i: usize, u: u8) -> (r: (usize, i64))
    requires
        i <= s@.len(),
        u < 4,
    ensures
        r.0 as int == comp_next(s@, i as int, u as int),
        r.1 as int == comp_value(s@, i as int, u as int),
        i <= r.0 <= s@.len(),
        0 <= r.1 <= DUR_COMP_MAX,
{
    proof {
        lemma_comp_next_bounds(s@, i as int, u as int);
    }
    let (j, v) = scan_digits(s, i, DUR_COMP_MAX);
    if j > i && j < s.unicode_len() {
        let cv = char_at(s, j) as u32;
        let unit_here = match u {
            0 => cv == 68 || cv == 100 || cv == 1044 || cv == 1076,
            1 => cv == 72 || cv == 104 || cv == 1063 || cv == 1095,
            2 => cv == 77 || cv == 109 || cv == 1052 || cv == 1084,
            _ => cv == 83 || cv == 115 || cv == 1057 || cv == 1089,
        };
        proof {
            assert(unit_here == is_unit_char(u as int, s@[j as int]));
        }
        if unit_here {
            if let Some(val) = v {
                return (j + 1, val);
            }
        }
    }
    (i, 0)
}

/// Scans all four duration components; returns the end position and the total
/// seconds they denote.
fn scan_duration(s: &str, i: usize) -> (r: (usize, i64))
    requires
        i <= s@.len(),
    ensures
        r.0 as int == dur_end(s@, i as int),
        r.1 as int == dur_total(s@, i as int),
        i <= r.0 <= s@.len(),
        0 <= r.1,
{
    let (i1, v0) = scan_comp(s, i, 0);
    let (i2, v1) = scan_comp(s, i1, 1);
    let (i3, v2) = scan_comp(s, i2, 2);
    let (i4, v3) = scan_comp(s, i3, 3);
    (i4, v0 * 86400 + v1 * 3600 + v2 * 60 + v3)
}

// ---------------------------------------------------------------------------
// Date (`day[-month[-year]]`) and time (`hour[.minute]`) fields.
// ---------------------------------------------------------------------------

pub open spec fn date_day_present(s: Seq<char>, i: int) -> bool {
    digits_end(s, i) > i
}

pub open spec fn date_day_end(s: Seq<char>, i: int) -> int {
    digits_end(s, i)
}

pub open spec fn date_month_present(s: Seq<char>, i: int) -> bool {
    date_day_present(s, i) && date_day_end(s, i) < s.len() && s[date_day_end(s, i)] == '-'
        && digits_end(s, date_day_end(s, i) + 1) > date_day_end(s, i) + 1
}

pub open spec fn date_month_end(s: Seq<char>, i: int) -> int {
    digits_end(s, date_day_end(s, i) + 1)
}

pub open spec fn date_year_present(s: Seq<char>, i: int) -> bool {
    date_month_present(s, i) && date_month_end(s, i) < s.len() && s[date_month_end(s, i)] == '-'
        && digits_end(s, date_month_end(s, i) + 1) > date_month_end(s, i) + 1
}

pub open spec fn date_year_end(s: Seq<char>, i: int) -> int {
    digits_end(s, date_month_end(s, i) + 1)
}

/// The position just after the optional date fields.
pub open spec fn date_end(s: Seq<char>, i: int) -> int {
    if date_year_present(s, i) {
        date_year_end(s, i)
    } else if date_month_present(s, i) {
        date_month_end(s, i)
    } else if date_day_present(s, i) {
        date_day_end(s, i)
    } else {
        i
    }
}

/// Field values; `-1` stands for an absent field.
pub open spec fn date_day_val(s: Seq<char>, i: int) -> int {
    if date_day_present(s, i) {
        digits_value(s, i, date_day_end(s, i))
    } else {
        -1
    }
}

pub open spec fn date_month_val(s: Seq<char>, i: int) -> int {
    if date_month_present(s, i) {
        digits_value(s, date_day_end(s, i) + 1, date_month_end(s, i))
    } else {
        -1
    }
}

pub open spec fn date_year_val(s: Seq<char>, i: int) -> int {
    if date_year_present(s, i) {
        digits_value(s, date_month_end(s, i) + 1, date_year_end(s, i))
    } else {
        -1
    }
}

/// Every present date field must stay within `FIELD_MAX`; larger numbers make
/// the whole form fail.
pub open spec fn date_ok(s: Seq<char>, i: int) -> bool {
    (date_day_present(s, i) ==> digits_value(s, i, date_day_end(s, i)) <= FIELD_MAX)
        && (date_month_present(s, i) ==> digits_value(
        s,
        date_day_end(s, i) + 1,
        date_month_end(s, i),
    ) <= FIELD_MAX) && (date_year_present(s, i) ==> digits_value(
        s,
        date_month_end(s, i) + 1,
        date_year_end(s, i),
    ) <= FIELD_MAX)
}

pub open spec fn time_hour_present(s: Seq<char>, i: int) -> bool {
    digits_end(s, i) > i
}

pub open spec fn time_hour_end(s: Seq<char>, i: int) -> int {
    digits_end(s, i)
}

pub open spec fn time_minute_present(s: Seq<char>, i: int) -> bool {
    time_hour_present(s, i) && time_hour_end(s, i) < s.len() && (s[time_hour_end(s, i)] == '.'
        || s[time_hour_end(s, i)] == ':') && digits_end(s, time_hour_end(s, i) + 1) > time_hour_end(
        s,
        i,
    ) + 1
}

pub open spec fn time_minute_end(s: Seq<char>, i: int) -> int {
    digits_end(s, time_hour_end(s, i) + 1)
}

/// The position just after the time fields.
pub open spec fn time_end(s: Seq<char>, i: int) -> int {
    if time_minute_present(s, i) {
        time_minute_end(s, i)
    } else if time_hour_present(s, i) {
        time_hour_end(s, i)
    } else {
        i
    }
}

pub open spec fn time_hour_val(s: Seq<char>, i: int) -> int {
    if time_hour_present(s, i) {
        digits_value(s, i, time_hour_end(s, i))
    } else {
        -1
    }
}

/// An absent minute defaults to zero.
pub open spec fn time_minute_val(s: Seq<char>, i: int) -> int {
    if time_minute_present(s, i) {
        digits_value(s, time_hour_end(s, i) + 1, time_minute_end(s, i))
    } else {
        0
    }
}

pub open spec fn time_ok(s: Seq<char>, i: int) -> bool {
    (time_hour_present(s, i) ==> digits_value(s, i, time_hour_end(s, i)) <= FIELD_MAX) && (
    time_minute_present(s, i) ==> digits_value(
        s,
        time_hour_end(s, i) + 1,
        time_minute_end(s, i),
    ) <= FIELD_MAX)
}

fn scan_date(s: &str, i: usize) -> (r: (i64, i64, i64, usize, bool))
    requires
        i <= s@.len(),
    ensures
        r.4 == date_ok(s@, i as int),
        r.3 as int == date_end(s@, i as int),
        r.4 ==> r.0 == date_day_val(s@, i as int),
        r.4 ==> r.1 == date_month_val(s@, i as int),
        r.4 ==> r.2 == date_year_val(s@, i as int),
        i <= r.3 <= s@.len(),
        -1 <= r.0 <= FIELD_MAX,
        -1 <= r.1 <= FIELD_MAX,
        -1 <= r.2 <= FIELD_MAX,
{
    let n = s.unicode_len();
    let (dj, dv) = scan_digits(s, i, FIELD_MAX);
    if dj == i {
        return (-1, -1, -1, i, true);
    }
    let day = match dv {
        Some(v) => v,
        None => -1,
    };
    let dayok = day >= 0;
    if dj < n && char_at(s, dj) == '-' {
        let (mj, mv) = scan_digits(s, dj + 1, FIELD_MAX);
        if mj > dj + 1 {
            let month = match mv {
                Some(v) => v,
                None => -1,
            };
            let monthok = month >= 0;
            if mj < n && char_at(s, mj) == '-' {
                let (yj, yv) = scan_digits(s, mj + 1, FIELD_MAX);
                if yj > mj + 1 {
                    let year = match yv {
                        Some(v) => v,
                        None => -1,
                    };
                    return (day, month, year, yj, dayok && monthok && year >= 0);
                }
            }
            return (day, month, -1, mj, dayok && monthok);
        }
    }
    (day, -1, -1, dj, dayok)
}

fn scan_time(s: &str, i: usize) -> (r: (i64, i64, usize, bool))
    requires
        i <= s@.len(),
    ensures
        r.3 == time_ok(s@, i as int),
        r.2 as int == time_end(s@, i as int),
        r.3 ==> r.0 == time_hour_val(s@, i as int),
        r.3 ==> r.1 == time_minute_val(s@, i as int),
        i <= r.2 <= s@.len(),
        -1 <= r.0 <= FIELD_MAX,
        0 <= r.1 <= FIELD_MAX,
{
    let n = s.unicode_len();
    let (hj, hv) = scan_digits(s, i, FIELD_MAX);
    if hj == i {
        return (-1, 0, i, true);
    }
    let hour = match hv {
        Some(v) => v,
        None => -1,
    };
    let hourok = hour >= 0;
    if hj < n {
        let c = char_at(s, hj);
        if c == '.' || c == ':' {
            let (mj, mv) = scan_digits(s, hj + 1, FIELD_MAX);
            if mj > hj + 1 {
                let minute = match mv {
                    Some(v) => v,
                    None => 0,
                };
                let minok = mv.is_some();
                return (hour, minute, mj, hourok && minok);
            }
        }
    }
    (hour, 0, hj, hourok)
}

// ---------------------------------------------------------------------------
// The `at` keyword: `at`, `At`, or a single Cyrillic "ve" in either case.
// ---------------------------------------------------------------------------

pub open spec fn at_kw_present(s: Seq<char>, i: int) -> bool {
    (i + 2 <= s.len() && (s[i] == 'a' || s[i] == 'A') && s[i + 1] == 't') || (i < s.len() && (
    s[i] as int == 1074 || s[i] as int == 1042))
}

pub open spec fn at_kw_end(s: Seq<char>, i: int) -> int {
    if i + 2 <= s.len() && (s[i] == 'a' || s[i] == 'A') && s[i + 1] == 't' {
        i + 2
    } else {
        i + 1
    }
}

fn scan_at_kw(s: &str, i: usize) -> (r: (bool, usize))
    requires
        i <= s@.len(),
    ensures
        r.0 == at_kw_present(s@, i as int),
        r.0 ==> r.1 as int == at_kw_end(s@, i as int),
        r.0 ==> i < r.1 <= s@.len(),
{
    let n = s.unicode_len();
    if i < n && i + 1 < n {
        let c0 = char_at(s, i);
        let c1 = char_at(s, i + 1);
        if (c0 == 'a' || c0 == 'A') && c1 == 't' {
            return (true, i + 2);
        }
    }
    if i < n {
        let cv = char_at(s, i) as u32;
        if cv == 1074 || cv == 1042 {
            return (true, i + 1);
        }
    }
    (false, i)
}

// ---------------------------------------------------------------------------
// Resolving a moment: absent date fields default to the current date in the
// user's offset; the civil time is interpreted in that offset and converted
// back to UTC. An invalid calendar date fails rather than guessing.
// ---------------------------------------------------------------------------

/// `day`, `month`, `year` may be `-1` for "absent". Succeeds exactly when the
/// resolved fields form a valid civil time in a year `0..=9999`.
pub open spec fn spec_resolve_moment(
    day: int,
    month: int,
    year: int,
    hour: int,
    minute: int,
    now: int,
    tz: int,
) -> Option<int> {
    let nl = local_of(now, tz);
    let y = if year >= 0 {
        year
    } else {
        civil_of(nl).0
    };
    let m = if month >= 0 {
        month
    } else {
        civil_of(nl).1
    };
    let d = if day >= 0 {
        day
    } else {
        civil_of(nl).2
    };
    if 0 <= y <= 9999 && valid_civil(y, m, d, hour, minute) {
        Some(utc_timestamp_of(y, m, d, hour, minute) + tz * 3600)
    } else {
        None
    }
}

fn resolve_moment(
    day: i64,
    month: i64,
    year: i64,
    hour: i64,
    minute: i64,
    now: i64,
    tz: i32,
) -> (r: Option<i64>)
    requires
        -TIME_MAX <= now <= TIME_MAX,
        -TZ_HOURS_MAX <= tz <= TZ_HOURS_MAX,
        -1 <= day <= FIELD_MAX,
        -1 <= month <= FIELD_MAX,
        -1 <= year <= FIELD_MAX,
        0 <= hour <= FIELD_MAX,
        0 <= minute <= FIELD_MAX,
    ensures
        ({
            let m = spec_resolve_moment(
                day as int,
                month as int,
                year as int,
                hour as int,
                minute as int,
                now as int,
                tz as int,
            );
            (r is Some <==> m is Some) && (r is Some ==> r->0 == m->0 && -TIME_MAX <= r->0
                <= TIME_MAX)
        }),
{
    let nl = now - (tz as i64) * 3600;
    let c = civil_from_timestamp(nl);
    let y: i64 = if year >= 0 {
        year
    } else {
        c.year as i64
    };
    let m: i64 = if month >= 0 {
        month
    } else {
        c.month as i64
    };
    let d: i64 = if day >= 0 {
        day
    } else {
        c.day as i64
    };
    if !(0 <= y && y <= 9999) {
        return None;
    }
    match timestamp_from_civil(y as i32, m as u32, d as u32, hour as u32, minute as u32) {
        Some(ts) => Some(ts + (tz as i64) * 3600),
        None => None,
    }
}

// ---------------------------------------------------------------------------
// The three command forms, tried in this order: duration, absolute moment,
// repeating.
// ---------------------------------------------------------------------------

/// Duration form: up to four `<n>`-unit components, at least one second in
/// total, then a single-space divider and the free text. The result is due
/// `total` seconds after `now`; a due time beyond the supported range fails.
pub open spec fn spec_parse_for(s: Seq<char>, now: int) -> Option<(int, Seq<char>)> {
    let p = dur_end(s, 0);
    let total = dur_total(s, 0);
    if p < s.len() && s[p] == ' ' && total >= 1 && now + total <= TIME_MAX {
        Some((now + total, s.subrange(p + 1, s.len() as int)))
    } else {
        None
    }
}

/// Absolute-moment form: optional `day[-month[-year]]`, the `at` keyword,
/// `hour[.minute]`, a single-space divider, then the free text.
pub open spec fn spec_parse_at(s: Seq<char>, now: int, tz: int) -> Option<(int, Seq<char>)> {
    if !date_ok(s, 0) {
        None
    } else {
        let i2 = ws_end(s, date_end(s, 0));
        if !at_kw_present(s, i2) {
            None
        } else {
            let i3 = ws_end(s, at_kw_end(s, i2));
            if !(time_hour_present(s, i3) && time_ok(s, i3)) {
                None
            } else {
                let i4 = time_end(s, i3);
                if i4 < s.len() && s[i4] == ' ' {
                    match spec_resolve_moment(
                        date_day_val(s, 0),
                        date_month_val(s, 0),
                        date_year_val(s, 0),
                        time_hour_val(s, i3),
                        time_minute_val(s, i3),
                        now,
                        tz,
                    ) {
                        Some(due) => Some((due, s.subrange(i4 + 1, s.len() as int))),
                        None => None,
                    }
                } else {
                    None
                }
            }
        }
    }
}

pub open spec fn rep_kw_present(s: Seq<char>) -> bool {
    s.len() >= 3 && s[0] == 'r' && s[1] == 'e' && s[2] == 'p'
}

/// Textual shape of the repeating form with a date: `rep`, optional spaces,
/// date starting with a day, spaces, time, spaces, duration components,
/// then the single-space divider.
pub open spec fn repa_textual(s: Seq<char>) -> bool {
    let di = ws_end(s, 3);
    date_day_present(s, di) && {
        let i1 = date_end(s, di);
        let i2 = ws_end(s, i1);
        i2 > i1 && time_hour_present(s, i2) && {
            let i3 = time_end(s, i2);
            let i4 = ws_end(s, i3);
            i4 > i3 && {
                let i5 = dur_end(s, i4);
                i5 < s.len() && s[i5] == ' '
            }
        }
    }
}

/// Textual shape of the repeating form without a date: `rep`, at least one
/// space, time, spaces, duration components, divider.
pub open spec fn repb_textual(s: Seq<char>) -> bool {
    let i2 = ws_end(s, 3);
    i2 > 3 && time_hour_present(s, i2) && {
        let i3 = time_end(s, i2);
        let i4 = ws_end(s, i3);
        i4 > i3 && {
            let i5 = dur_end(s, i4);
            i5 < s.len() && s[i5] == ' '
        }
    }
}

/// Evaluates the repeating form given the start of its date part (`-1` when
/// absent) and of its time part.
pub open spec fn spec_eval_rep(s: Seq<char>, di: int, ti: int, now: int, tz: int) -> Option<
    (int, int, Seq<char>),
> {
    let date_fine = if di >= 0 {
        date_ok(s, di)
    } else {
        true
    };
    let dur_i = ws_end(s, time_end(s, ti));
    let i5 = dur_end(s, dur_i);
    let total = dur_total(s, dur_i);
    if date_fine && time_ok(s, ti) && 1 <= total <= TIME_MAX {
        match spec_resolve_moment(
            if di >= 0 {
                date_day_val(s, di)
            } else {
                -1
            },
            if di >= 0 {
                date_month_val(s, di)
            } else {
                -1
            },
            if di >= 0 {
                date_year_val(s, di)
            } else {
                -1
            },
            time_hour_val(s, ti),
            time_minute_val(s, ti),
            now,
            tz,
        ) {
            Some(start) => Some((start, total, s.subrange(i5 + 1, s.len() as int))),
            None => None,
        }
    } else {
        None
    }
}

/// Repeating form: `rep` + moment + duration + divider + text. A shape with a
/// date is preferred; without one, the moment's date defaults to today.
pub open spec fn spec_parse_rep(s: Seq<char>, now: int, tz: int) -> Option<(int, int, Seq<char>)> {
    if !rep_kw_present(s) {
        None
    } else if repa_textual(s) {
        let di = ws_end(s, 3);
        spec_eval_rep(s, di, ws_end(s, date_end(s, di)), now, tz)
    } else if repb_textual(s) {
        spec_eval_rep(s, -1, ws_end(s, 3), now, tz)
    } else {
        None
    }
}

/// Tries the duration form.
pub fn try_parse_for(s: &str, now: i64) -> (r: Option<Command>)
    requires
        -TIME_MAX <= now <= TIME_MAX,
    ensures
        match spec_parse_for(s@, now as int) {
            Some(dt) => r matches Some(Command::OneTimeEvent(o)) && o.event_time == dt.0
                && o.event_text@ == dt.1,
            None => r is None,
        },
        r matches Some(Command::OneTimeEvent(o)) ==> -TIME_MAX <= o.event_time <= TIME_MAX,
{
    let n = s.unicode_len();
    let (p, total) = scan_duration(s, 0);
    if p < n {
        let c = char_at(s, p);
        if c == ' ' && total >= 1 && now <= TIME_MAX - total {
            let text = s.substring_char(p + 1, n);
            return Some(
                Command::OneTimeEvent(
                    OneTimeEventImpl { event_time: now + total, event_text: text.to_owned() },
                ),
            );
        }
    }
    None
}

/// Tries the absolute-moment form.
pub fn try_parse_at(s: &str, now: i64, user_timezone: i32) -> (r: Option<Command>)
    requires
        -TIME_MAX <= now <= TIME_MAX,
        -TZ_HOURS_MAX <= user_timezone <= TZ_HOURS_MAX,
    ensures
        match spec_parse_at(s@, now as int, user_timezone as int) {
            Some(dt) => r matches Some(Command::OneTimeEvent(o)) && o.event_time == dt.0
                && o.event_text@ == dt.1,
            None => r is None,
        },
        r matches Some(Command::OneTimeEvent(o)) ==> -TIME_MAX <= o.event_time <= TIME_MAX,
{
    let n = s.unicode_len();
    let (day, month, year, dend, dok) = scan_date(s, 0);
    if !dok {
        return None;
    }
    let i2 = scan_ws(s, dend);
    let (kw, kwend) = scan_at_kw(s, i2);
    if !kw {
        return None;
    }
    let i3 = scan_ws(s, kwend);
    let (hour, minute, i4, tok) = scan_time(s, i3);
    if !tok || hour < 0 {
        return None;
    }
    if i4 < n && char_at(s, i4) == ' ' {
        match resolve_moment(day, month, year, hour, minute, now, user_timezone) {
            Some(due) => {
                let text = s.substring_char(i4 + 1, n);
                Some(
                    Command::OneTimeEvent(
                        OneTimeEventImpl { event_time: due, event_text: text.to_owned() },
                    ),
                )
            },
            None => None,
        }
    } else {
        None
    }
}

/// Evaluates the repeating form at known date/time positions.
fn eval_rep(s: &str, with_date: bool, di: usize, ti: usize, now: i64, tz: i32) -> (r: Option<
    Command,
>)
    requires
        -TIME_MAX <= now <= TIME_MAX,
        -TZ_HOURS_MAX <= tz <= TZ_HOURS_MAX,
        di <= s@.len(),
        ti <= s@.len(),
        dur_end(s@, ws_end(s@, time_end(s@, ti as int))) < s@.len(),
    ensures
        match spec_eval_rep(
            s@,
            if with_date {
                di as int
            } else {
                -1
            },
            ti as int,
            now as int,
            tz as int,
        ) {
            Some(dt) => r matches Some(Command::RepetitiveEvent(o)) && o.event_start_time == dt.0
                && o.event_wait_time == dt.1 && o.event_text@ == dt.2,
            None => r is None,
        },
        r matches Some(Command::RepetitiveEvent(o)) ==> -TIME_MAX <= o.event_start_time <= TIME_MAX
            && 1 <= o.event_wait_time <= TIME_MAX,
{
    let n = s.unicode_len();
    let (day, month, year, _dend, dok) = if with_date {
        scan_date(s, di)
    } else {
        (-1, -1, -1, di, true)
    };
    let (hour, minute, tend, tok) = scan_time(s, ti);
    let i4 = scan_ws(s, tend);
    let (i5, total) = scan_duration(s, i4);
    if !(dok && tok && 1 <= total && total <= TIME_MAX) {
        return None;
    }
    if hour < 0 {
        proof {
            assert(time_hour_val(s@, ti as int) == -1);
            assert(spec_resolve_moment(
                if with_date {
                    date_day_val(s@, di as int)
                } else {
                    -1
                },
                if with_date {
                    date_month_val(s@, di as int)
                } else {
                    -1
                },
                if with_date {
                    date_year_val(s@, di as int)
                } else {
                    -1
                },
                -1,
                time_minute_val(s@, ti as int),
                now as int,
                tz as int,
            ) is None);
        }
        return None;
    }
    match resolve_moment(day, month, year, hour, minute, now, tz) {
        Some(start) => {
            proof {
                assert(i5 < s@.len()) by {
                    lemma_dur_end_bounds(s@, i4 as int);
                }
            }
            let text = s.substring_char(i5 + 1, n);
            Some(
                Command::RepetitiveEvent(
                    RepetitiveEventImpl {
                        event_start_time: start,
                        event_wait_time: total,
                        event_text: text.to_owned(),
                    },
                ),
            )
        },
        None => None,
    }
}

/// Tries the repeating form.
pub fn try_parse_rep(s: &str, now: i64, user_timezone: i32) -> (r: Option<Command>)
    requires
        -TIME_MAX <= now <= TIME_MAX,
        -TZ_HOURS_MAX <= user_timezone <= TZ_HOURS_MAX,
    ensures
        match spec_parse_rep(s@, now as int, user_timezone as int) {
            Some(dt) => r matches Some(Command::RepetitiveEvent(o)) && o.event_start_time == dt.0
                && o.event_wait_time == dt.1 && o.event_text@ == dt.2,
            None => r is None,
        },
        r matches Some(Command::RepetitiveEvent(o)) ==> -TIME_MAX <= o.event_start_time <= TIME_MAX
            && 1 <= o.event_wait_time <= TIME_MAX,
{
    let n = s.unicode_len();
    if n < 3 {
        return None;
    }
    if !(char_at(s, 0) == 'r' && char_at(s, 1) == 'e' && char_at(s, 2) == 'p') {
        return None;
    }
    // shape with a date
    let di = scan_ws(s, 3);
    let (_d0, _m0, _y0, dend, _dok0) = scan_date(s, di);
    if dend > di {
        let i2 = scan_ws(s, dend);
        if i2 > dend {
            let (_h0, _mi0, tend, _tok0) = scan_time(s, i2);
            if tend > i2 {
                let i4 = scan_ws(s, tend);
                if i4 > tend {
                    let (i5, _tot) = scan_duration(s, i4);
                    if i5 < n && char_at(s, i5) == ' ' {
                        proof {
                            assert(repa_textual(s@));
                        }
                        return eval_rep(s, true, di, i2, now, user_timezone);
                    }
                }
            }
        }
    }
    proof {
        assert(!repa_textual(s@));
    }
    // shape without a date
    let i2 = scan_ws(s, 3);
    if i2 == 3 {
        return None;
    }
    let (_h1, _mi1, tend, _tok1) = scan_time(s, i2);
    if tend == i2 {
        return None;
    }
    let i4 = scan_ws(s, tend);
    if i4 == tend {
        return None;
    }
    let (i5, _tot) = scan_duration(s, i4);
    if i5 < n && char_at(s, i5) == ' ' {
        eval_rep(s, false, 0, i2, now, user_timezone)
    } else {
        None
    }
}

// ---------------------------------------------------------------------------
// Whole-command parsing: trim, then the three forms in precedence order.
// ---------------------------------------------------------------------------

/// The index just after the last non-whitespace character in `s[..j)`.
pub open spec fn trim_end_idx(s: Seq<char>, j: int) -> int
    recommends
        0 <= j <= s.len(),
    decreases j when 0 <= j <= s.len()
{
    if 0 < j && is_space_char(s[j - 1]) {
        trim_end_idx(s, j - 1)
    } else {
        j
    }
}

/// `s` with leading and trailing whitespace removed.
pub open spec fn trimmed(s: Seq<char>) -> Seq<char> {
    let a = ws_end(s, 0);
    let b = trim_end_idx(s, s.len() as int);
    if a <= b {
        s.subrange(a, b)
    } else {
        Seq::empty()
    }
}

proof fn lemma_trim_end_bounds(s: Seq<char>, j: int)
    requires
        0 <= j <= s.len(),
    ensures
        0 <= trim_end_idx(s, j) <= j,
    decreases j,
{
    if 0 < j && is_space_char(s[j - 1]) {
        lemma_trim_end_bounds(s, j - 1);
    }
}

fn trim_str<'a>(s: &'a str) -> (r: &'a str)
    ensures
        r@ == trimmed(s@),
{
    let n = s.unicode_len();
    let a = scan_ws(s, 0);
    let mut b = n;
    proof {
        lemma_trim_end_bounds(s@, n as int);
    }
    loop
        invariant
            0 <= b <= n,
            n == s@.len(),
            trim_end_idx(s@, b as int) == trim_end_idx(s@, n as int),
            trim_end_idx(s@, b as int) <= b,
        ensures
            b as int == trim_end_idx(s@, n as int),
        decreases b,
    {
        if b == 0 {
            break ;
        }
        let c = char_at(s, b - 1);
        if !(c == ' ' || c == '\t' || c == '\r' || c == '\n') {
            break ;
        }
        proof {
            assert(is_space_char(s@[b - 1]));
            assert(trim_end_idx(s@, b as int) == trim_end_idx(s@, b as int - 1));
            lemma_trim_end_bounds(s@, b as int - 1);
        }
        b = b - 1;
    }
    if a <= b {
        s.substring_char(a, b)
    } else {
        proof {
            reveal_strlit("");
            assert(""@ =~= trimmed(s@));
        }
        ""
    }
}

// ---------------------------------------------------------------------------
// The duration form round trip: a line written as `<d>d<h>h<m>m<s>s <text>`
// parses back to exactly the written total and text.
// ---------------------------------------------------------------------------

/// The value of a whole digit string, most significant digit first.
pub open spec fn seq_dec_val(cs: Seq<char>) -> int
    decreases cs.len(),
{
    if cs.len() == 0 {
        0
    } else {
        seq_dec_val(cs.drop_last()) * 10 + digit_value(cs.last())
    }
}

proof fn lemma_digit_char_value(x: int)
    requires
        0 <= x < 10,
    ensures
        is_digit_char(crate::numfmt::digit_char(x)),
        digit_value(crate::numfmt::digit_char(x)) == x,
{
    if x == 0 {
        assert('0' as int == 48);
    } else if x == 1 {
        assert('1' as int == 49);
    } else if x == 2 {
        assert('2' as int == 50);
    } else if x == 3 {
        assert('3' as int == 51);
    } else if x == 4 {
        assert('4' as int == 52);
    } else if x == 5 {
        assert('5' as int == 53);
    } else if x == 6 {
        assert('6' as int == 54);
    } else if x == 7 {
        assert('7' as int == 55);
    } else if x == 8 {
        assert('8' as int == 56);
    } else {
        assert('9' as int == 57);
    }
}

/// A decimal rendering consists of digits and reads back as its value.
proof fn lemma_dec_str_value(n: int)
    requires
        0 <= n,
    ensures
        dec_str(n).len() >= 1,
        forall|k: int| 0 <= k < dec_str(n).len() ==> is_digit_char(#[trigger] dec_str(n)[k]),
        seq_dec_val(dec_str(n)) == n,
    decreases n,
{
    if n < 10 {
        lemma_digit_char_value(n);
        assert(dec_str(n) == seq![crate::numfmt::digit_char(n)]);
        assert(dec_str(n).drop_last() =~= Seq::<char>::empty());
        assert(dec_str(n).last() == crate::numfmt::digit_char(n));
        assert(seq_dec_val(dec_str(n)) == seq_dec_val(Seq::<char>::empty()) * 10 + digit_value(
            crate::numfmt::digit_char(n),
        ));
        assert(seq_dec_val(Seq::<char>::empty()) == 0);
    } else {
        lemma_dec_str_value(n / 10);
        lemma_digit_char_value(n % 10);
        let pre = dec_str(n / 10);
        assert(dec_str(n) == pre.push(crate::numfmt::digit_char(n % 10)));
        assert(dec_str(n).drop_last() =~= pre);
        assert(dec_str(n).last() == crate::numfmt::digit_char(n % 10));
        assert(seq_dec_val(dec_str(n)) == seq_dec_val(pre) * 10 + digit_value(
            crate::numfmt::digit_char(n % 10),
        ));
        assert(n / 10 * 10 + n % 10 == n);
        assert forall|k: int| 0 <= k < dec_str(n).len() implies is_digit_char(
            #[trigger] dec_str(n)[k],
        ) by {
            if k < pre.len() {
                assert(dec_str(n)[k] == pre[k]);
            } else {
                assert(dec_str(n)[k] == crate::numfmt::digit_char(n % 10));
            }
        }
    }
}

/// A digit run bounded by a non-digit scans to exactly its end.
proof fn lemma_digits_end_run(s: Seq<char>, i: int, j: int)
    requires
        0 <= i <= j <= s.len(),
        forall|k: int| i <= k < j ==> is_digit_char(#[trigger] s[k]),
        j == s.len() || !is_digit_char(s[j]),
    ensures
        digits_end(s, i) == j,
    decreases j - i,
{
    if i < j {
        lemma_digits_end_run(s, i + 1, j);
    }
}

/// A digit run's scanned value equals its digit-string reading.
proof fn lemma_digits_value_subrange(s: Seq<char>, i: int, j: int)
    requires
        0 <= i <= j <= s.len(),
    ensures
        digits_value(s, i, j) == seq_dec_val(s.subrange(i, j)),
    decreases j - i,
{
    if i < j {
        lemma_digits_value_subrange(s, i, j - 1);
        assert(s.subrange(i, j).drop_last() =~= s.subrange(i, j - 1));
        assert(s.subrange(i, j).last() == s[j - 1]);
    } else {
        assert(s.subrange(i, j) =~= Seq::<char>::empty());
    }
}

/// One duration component placed at `i`: `dec_str(v)` followed by a unit
/// letter of class `u` scans as a present component of value `v`.
proof fn lemma_component_at(s: Seq<char>, i: int, v: int, u: int)
    requires
        0 <= i,
        0 <= v <= DUR_COMP_MAX,
        i + dec_str(v).len() < s.len(),
        s.subrange(i, i + dec_str(v).len() as int) == dec_str(v),
        is_unit_char(u, s[i + dec_str(v).len() as int]),
        !is_digit_char(s[i + dec_str(v).len() as int]),
    ensures
        comp_present(s, i, u),
        comp_value(s, i, u) == v,
        comp_next(s, i, u) == i + dec_str(v).len() + 1,
{
    let l = dec_str(v).len() as int;
    lemma_dec_str_value(v);
    assert forall|k: int| i <= k < i + l implies is_digit_char(#[trigger] s[k]) by {
        assert(s[k] == s.subrange(i, i + l)[k - i]);
        assert(is_digit_char(dec_str(v)[k - i]));
    }
    lemma_digits_end_run(s, i, i + l);
    lemma_digits_value_subrange(s, i, i + l);
    assert(seq_dec_val(s.subrange(i, i + l)) == v);
}

/// The written duration line parses back to its total and text: writing
/// `<d>d<h>h<m>m<s>s <text>` and parsing it at `now` yields a one-time
/// event due `now + total` carrying exactly `text`.
pub proof fn lemma_duration_form_roundtrip(
    d: int,
    h: int,
    m: int,
    s: int,
    text: Seq<char>,
    now: int,
)
    requires
        0 <= d <= DUR_COMP_MAX,
        0 <= h <= DUR_COMP_MAX,
        0 <= m <= DUR_COMP_MAX,
        0 <= s <= DUR_COMP_MAX,
        d * 86400 + h * 3600 + m * 60 + s >= 1,
        -TIME_MAX <= now,
        now + d * 86400 + h * 3600 + m * 60 + s <= TIME_MAX,
    ensures
        ({
            let line = dec_str(d) + seq!['d'] + dec_str(h) + seq!['h'] + dec_str(m) + seq!['m']
                + dec_str(s) + seq!['s'] + seq![' '] + text;
            spec_parse_for(line, now) == Some(
                (now + d * 86400 + h * 3600 + m * 60 + s, text),
            )
        }),
{
    let line = dec_str(d) + seq!['d'] + dec_str(h) + seq!['h'] + dec_str(m) + seq!['m'] + dec_str(
        s,
    ) + seq!['s'] + seq![' '] + text;
    let ld = dec_str(d).len() as int;
    let lh = dec_str(h).len() as int;
    let lm = dec_str(m).len() as int;
    let ls = dec_str(s).len() as int;
    let p1 = ld + 1;
    let p2 = p1 + lh + 1;
    let p3 = p2 + lm + 1;
    let p4 = p3 + ls + 1;
    lemma_dec_str_value(d);
    lemma_dec_str_value(h);
    lemma_dec_str_value(m);
    lemma_dec_str_value(s);
    assert(line.len() == p4 + 1 + text.len());
    assert(line.subrange(0, ld) =~= dec_str(d));
    assert(line[ld] == 'd');
    assert(line.subrange(p1, p1 + lh) =~= dec_str(h));
    assert(line[p1 + lh] == 'h');
    assert(line.subrange(p2, p2 + lm) =~= dec_str(m));
    assert(line[p2 + lm] == 'm');
    assert(line.subrange(p3, p3 + ls) =~= dec_str(s));
    assert(line[p3 + ls] == 's');
    assert(line[p4] == ' ');
    assert('d' as int == 100 && 'h' as int == 104 && 'm' as int == 109 && 's' as int == 115);
    lemma_component_at(line, 0, d, 0);
    lemma_component_at(line, p1, h, 1);
    lemma_component_at(line, p2, m, 2);
    lemma_component_at(line, p3, s, 3);
    assert(dur_p1(line, 0) == p1);
    assert(dur_p2(line, 0) == p2);
    assert(dur_p3(line, 0) == p3);
    assert(dur_end(line, 0) == p4);
    assert(dur_total(line, 0) == d * 86400 + h * 3600 + m * 60 + s);
    assert(line.subrange(p4 + 1, line.len() as int) =~= text);
}

/// Character-wise string equality.
pub fn str_eq(a: &str, b: &str) -> (r: bool)
    ensures
        r == (a@ == b@),
{
    let na = a.unicode_len();
    let nb = b.unicode_len();
    if na != nb {
        proof {
            assert(a@ != b@);
        }
        return false;
    }
    let mut k: usize = 0;
    while k < na
        invariant
            0 <= k <= na,
            na == a@.len(),
            na == b@.len(),
            forall|i: int| 0 <= i < k ==> a@[i] == b@[i],
        decreases na - k,
    {
        if char_at(a, k) != char_at(b, k) {
            proof {
                assert(a@ != b@);
            }
            return false;
        }
        k = k + 1;
    }
    proof {
        assert(a@ =~= b@);
    }
    true
}

/// Whether `s` begins with `prefix`, character-wise.
pub open spec fn spec_starts_with(s: Seq<char>, prefix: Seq<char>) -> bool {
    s.len() >= prefix.len() && s.subrange(0, prefix.len() as int) == prefix
}

pub fn str_starts_with(s: &str, prefix: &str) -> (r: bool)
    ensures
        r == spec_starts_with(s@, prefix@),
{
    let n = s.unicode_len();
    let np = prefix.unicode_len();
    if n < np {
        return false;
    }
    let mut k: usize = 0;
    while k < np
        invariant
            0 <= k <= np,
            np == prefix@.len(),
            np <= n == s@.len(),
            forall|i: int| 0 <= i < k ==> s@[i] == prefix@[i],
        decreases np - k,
    {
        if char_at(s, k) != char_at(prefix, k) {
            proof {
                assert(s@.subrange(0, np as int)[k as int] != prefix@[k as int]);
            }
            return false;
        }
        k = k + 1;
    }
    proof {
        assert(s@.subrange(0, np as int) =~= prefix@);
    }
    true
}

/// An optionally signed decimal integer within the 32-bit range; anything
/// else (junk, a stray suffix, an overflow) fails.
pub open spec fn spec_parse_int(s: Seq<char>) -> Option<int> {
    if s.len() == 0 {
        None
    } else {
        let neg = s[0] == '-';
        let start: int = if s[0] == '-' || s[0] == '+' {
            1
        } else {
            0
        };
        if start < s.len() && digits_end(s, start) == s.len() {
            let v = digits_value(s, start, s.len() as int);
            let sv: int = if neg {
                -v
            } else {
                v
            };
            if -0x8000_0000 <= sv <= 0x7fff_ffff {
                Some(sv)
            } else {
                None
            }
        } else {
            None
        }
    }
}

/// Parses a whole string as a 32-bit integer, as the dialog's typed numbers
/// require.
pub fn parse_int_i32(s: &str) -> (r: Option<i32>)
    ensures
        r is Some <==> spec_parse_int(s@) is Some,
        r is Some ==> r->0 as int == spec_parse_int(s@)->0,
{
    let n = s.unicode_len();
    if n == 0 {
        return None;
    }
    let c0 = char_at(s, 0);
    let neg = c0 == '-';
    let start: usize = if c0 == '-' || c0 == '+' {
        1
    } else {
        0
    };
    if start >= n {
        return None;
    }
    let (j, v) = scan_digits(s, start, 3_000_000_000);
    if j != n {
        return None;
    }
    let v = match v {
        Some(v) => v,
        None => {
            proof {
                let sv: int = if neg {
                    -digits_value(s@, start as int, n as int)
                } else {
                    digits_value(s@, start as int, n as int)
                };
                assert(!(-0x8000_0000 <= sv <= 0x7fff_ffff));
            }
            return None;
        },
    };
    if neg {
        if v <= 0x8000_0000 {
            Some((-v) as i32)
        } else {
            None
        }
    } else {
        if v <= 0x7fff_ffff {
            Some(v as i32)
        } else {
            None
        }
    }
}

/// Parses a command line, trying the duration form, then the absolute-moment
/// form, then the repeating form; the first form that matches wins, and a
/// line that matches none of them yields `None`.
pub fn parse_command(command_line: String, now: i64, user_timezone: i32) -> (r: Option<Command>)
    requires
        -TIME_MAX <= now <= TIME_MAX,
        -TZ_HOURS_MAX <= user_timezone <= TZ_HOURS_MAX,
    ensures
        ({
            let t = trimmed(command_line@);
            if spec_parse_for(t, now as int) is Some {
                let dt = spec_parse_for(t, now as int)->0;
                r matches Some(Command::OneTimeEvent(o)) && o.event_time == dt.0 && o.event_text@
                    == dt.1
            } else if spec_parse_at(t, now as int, user_timezone as int) is Some {
                let dt = spec_parse_at(t, now as int, user_timezone as int)->0;
                r matches Some(Command::OneTimeEvent(o)) && o.event_time == dt.0 && o.event_text@
                    == dt.1
            } else if spec_parse_rep(t, now as int, user_timezone as int) is Some {
                let dt = spec_parse_rep(t, now as int, user_timezone as int)->0;
                r matches Some(Command::RepetitiveEvent(o)) && o.event_start_time == dt.0
                    && o.event_wait_time == dt.1 && o.event_text@ == dt.2
            } else {
                r is None
            }
        }),
        r matches Some(Command::OneTimeEvent(o)) ==> -TIME_MAX <= o.event_time <= TIME_MAX,
        r matches Some(Command::RepetitiveEvent(o)) ==> -TIME_MAX <= o.event_start_time <= TIME_MAX
            && 1 <= o.event_wait_time <= TIME_MAX,
{
    let t = trim_str(command_line.as_str());
    let r = try_parse_for(t, now);
    if r.is_some() {
        return r;
    }
    let r = try_parse_at(t, now, user_timezone);
    if r.is_some() {
        return r;
    }
    try_parse_rep(t, now, user_timezone)
}

} // verus!
