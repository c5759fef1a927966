//! Parsing of capture timestamps and derivation of the calendar and clock
//! variables.
//!
//! Two timestamp forms are accepted, tried in order: a plain local form
//! `YYYY:MM:DD HH:MM:SS`, and the same clock followed by a numeric UTC
//! offset `+HHMM`/`-HHMM`. The offset only anchors the instant; the clock
//! fields as written are what the variables are derived from, so it is
//! checked for shape and otherwise ignored.
use vstd::prelude::*;

use chrono::Datelike;

use crate::text::{
    digit_char_test,
    digit_val,
    four_digits,
    four_digits_spec,
    is_digit_char,
    two_digits,
    two_digits_spec,
};
use crate::vars::Vars;

verus! {

/// A parsed capture timestamp: the naive clock fields, no time zone.
#[derive(Clone, Copy, Debug, PartialEq, Eq, Structural)]
pub struct Timestamp {
    pub year: u32,
    pub month: u32,
    pub day: u32,
    pub hour: u32,
    pub minute: u32,
    pub second: u32,
}

/// Whether `year` is a leap year in the proleptic Gregorian calendar.
pub open spec fn is_leap_year(year: int) -> bool {
    year % 4 == 0 && (year % 100 != 0 || year % 400 == 0)
}

/// Number of days in `month` of `year`.
pub open spec fn days_in_month(year: int, month: int) -> int
    recommends
        1 <= month <= 12,
{
    if month == 2 {
        if is_leap_year(year) {
            29
        } else {
            28
        }
    } else if month == 4 || month == 6 || month == 9 || month == 11 {
        30
    } else {
        31
    }
}

/// The fields of a valid timestamp form a real calendar date and clock time.
pub open spec fn timestamp_valid(ts: Timestamp) -> bool {
    &&& ts.year <= 9999
    &&& 1 <= ts.month <= 12
    &&& 1 <= ts.day <= days_in_month(ts.year as int, ts.month as int)
    &&& ts.hour <= 23
    &&& ts.minute <= 59
    &&& ts.second <= 59
}

/// Value of the two decimal digits of `s` at positions `i` and `i + 1`.
pub open spec fn val2(s: Seq<char>, i: int) -> int
    recommends
        0 <= i && i + 2 <= s.len(),
{
    digit_val(s[i]) * 10 + digit_val(s[i + 1])
}

/// Shape of the plain local form: `YYYY:MM:DD HH:MM:SS`, exactly 19
/// characters.
pub open spec fn ts_shape_local(s: Seq<char>) -> bool {
    &&& s.len() == 19
    &&& is_digit_char(s[0]) && is_digit_char(s[1]) && is_digit_char(s[2]) && is_digit_char(s[3])
    &&& s[4] == ':'
    &&& is_digit_char(s[5]) && is_digit_char(s[6])
    &&& s[7] == ':'
    &&& is_digit_char(s[8]) && is_digit_char(s[9])
    &&& s[10] == ' '
    &&& is_digit_char(s[11]) && is_digit_char(s[12])
    &&& s[13] == ':'
    &&& is_digit_char(s[14]) && is_digit_char(s[15])
    &&& s[16] == ':'
    &&& is_digit_char(s[17]) && is_digit_char(s[18])
}

/// The clock fields spelled by a sequence of local shape.
pub open spec fn ts_fields(s: Seq<char>) -> Timestamp
    recommends
        ts_shape_local(s),
{
    Timestamp {
        year: (val2(s, 0) * 100 + val2(s, 2)) as u32,
        month: val2(s, 5) as u32,
        day: val2(s, 8) as u32,
        hour: val2(s, 11) as u32,
        minute: val2(s, 14) as u32,
        second: val2(s, 17) as u32,
    }
}

/// Shape of the offset form: the local shape followed by `+HHMM` or
/// `-HHMM`, exactly 24 characters.
pub open spec fn ts_shape_offset(s: Seq<char>) -> bool {
    &&& s.len() == 24
    &&& ts_shape_local(s.take(19))
    &&& (s[19] == '+' || s[19] == '-')
    &&& is_digit_char(s[20]) && is_digit_char(s[21]) && is_digit_char(s[22]) && is_digit_char(
        s[23],
    )
    &&& val2(s, 20) <= 23
    &&& val2(s, 22) <= 59
}

/// The timestamp spelled by `s`, if `s` has either accepted form and its
/// fields form a real date and time; `None` otherwise.
pub open spec fn parse_ts(s: Seq<char>) -> Option<Timestamp> {
    if ts_shape_local(s) && timestamp_valid(ts_fields(s)) {
        Some(ts_fields(s))
    } else if ts_shape_offset(s) && timestamp_valid(ts_fields(s.take(19))) {
        Some(ts_fields(s.take(19)))
    } else {
        None
    }
}

/// Day of the week of a calendar date, numbered Monday = 0 through
/// Sunday = 6.
pub uninterp spec fn weekday_index(year: int, month: int, day: int) -> int;

/// ISO 8601 week number of a calendar date.
pub uninterp spec fn iso_week_num(year: int, month: int, day: int) -> int;

/// Relies on chrono: `NaiveDate::from_ymd_opt` is documented to return
/// `Some` for every existing calendar day in range, and
/// `Weekday::num_days_from_monday` to number Monday through Sunday as 0
/// through 6. The weekday depends on the date alone.
#[verifier::external_body]
fn weekday_from_ymd(year: u32, month: u32, day: u32) -> (r: u32)
    requires
        year <= 9999,
        1 <= month <= 12,
        1 <= day <= days_in_month(year as int, month as int),
    ensures
        r == weekday_index(year as int, month as int, day as int),
        r < 7,
{
    let date = chrono::NaiveDate::from_ymd_opt(year as i32, month, day).expect("valid date");
    date.weekday().num_days_from_monday()
}

/// Relies on chrono: `NaiveDate::from_ymd_opt` as above, and
/// `IsoWeek::week`, documented to return the ISO week number, ranging
/// from 1 to 53. The week number depends on the date alone.
#[verifier::external_body]
fn iso_week_from_ymd(year: u32, month: u32, day: u32) -> (r: u32)
    requires
        year <= 9999,
        1 <= month <= 12,
        1 <= day <= days_in_month(year as int, month as int),
    ensures
        r == iso_week_num(year as int, month as int, day as int),
        1 <= r <= 53,
{
    let date = chrono::NaiveDate::from_ymd_opt(year as i32, month, day).expect("valid date");
    date.iso_week().week()
}

/// The three-letter English abbreviation for a weekday numbered from
/// Monday = 0.
pub open spec fn weekday_name(i: int) -> Seq<char> {
    if i == 0 {
        "Mon"@
    } else if i == 1 {
        "Tue"@
    } else if i == 2 {
        "Wed"@
    } else if i == 3 {
        "Thu"@
    } else if i == 4 {
        "Fri"@
    } else if i == 5 {
        "Sat"@
    } else {
        "Sun"@
    }
}

fn weekday_str(i: u32) -> (r: &'static str)
    requires
        i < 7,
    ensures
        r@ == weekday_name(i as int),
{
    if i == 0 {
        "Mon"
    } else if i == 1 {
        "Tue"
    } else if i == 2 {
        "Wed"
    } else if i == 3 {
        "Thu"
    } else if i == 4 {
        "Fri"
    } else if i == 5 {
        "Sat"
    } else {
        "Sun"
    }
}

/// The derived date and time variables of a parsed timestamp, under their
/// fixed single-character keys.
pub open spec fn date_vars(ts: Timestamp) -> Map<Seq<char>, Seq<char>> {
    Map::empty().insert("Y"@, four_digits_spec(ts.year as int)).insert(
        "y"@,
        two_digits_spec(ts.year as int % 100),
    ).insert("m"@, two_digits_spec(ts.month as int)).insert(
        "D"@,
        two_digits_spec(ts.day as int),
    ).insert(
        "t"@,
        two_digits_spec(ts.hour as int) + two_digits_spec(ts.minute as int) + two_digits_spec(
            ts.second as int,
        ),
    ).insert("H"@, two_digits_spec(ts.hour as int)).insert(
        "h"@,
        two_digits_spec(ts.hour as int % 12),
    ).insert("M"@, two_digits_spec(ts.minute as int)).insert(
        "S"@,
        two_digits_spec(ts.second as int),
    ).insert(
        "W"@,
        two_digits_spec(iso_week_num(ts.year as int, ts.month as int, ts.day as int)),
    ).insert("a"@, weekday_name(weekday_index(ts.year as int, ts.month as int, ts.day as int)))
}

/// The derived date and time variables of a raw timestamp string: empty
/// when the string has neither accepted form.
pub open spec fn date_vars_of(s: Seq<char>) -> Map<Seq<char>, Seq<char>> {
    match parse_ts(s) {
        Some(ts) => date_vars(ts),
        None => Map::empty(),
    }
}

/// Deriving from a timestamp string is a pure function of the string:
/// any two derivations from the same string agree. Together with the
/// contract of `create_vars_from_create_date`, whose result is exactly
/// `date_vars_of` of its input, re-deriving yields identical output.
pub proof fn lemma_derive_idempotent(
    s: Seq<char>,
    first: Map<Seq<char>, Seq<char>>,
    second: Map<Seq<char>, Seq<char>>,
)
    requires
        first == date_vars_of(s),
        second == date_vars_of(s),
    ensures
        first == second,
{
}

/// Exec mirror of `days_in_month`.
pub fn days_in_month_exec(year: u32, month: u32) -> (r: u32)
    requires
        1 <= month <= 12,
    ensures
        r == days_in_month(year as int, month as int),
{
    if month == 2 {
        if year % 4 == 0 && (year % 100 != 0 || year % 400 == 0) {
            29
        } else {
            28
        }
    } else if month == 4 || month == 6 || month == 9 || month == 11 {
        30
    } else {
        31
    }
}

/// Reads the two decimal digits of `s` at positions `i` and `i + 1`.
fn two_digit_at(s: &str, i: usize) -> (r: Option<u32>)
    requires
        i + 2 <= s@.len(),
        i + 2 <= usize::MAX,
    ensures
        match r {
            Some(v) => is_digit_char(s@[i as int]) && is_digit_char(s@[i as int + 1]) && v == val2(
                s@,
                i as int,
            ) && v < 100,
            None => !(is_digit_char(s@[i as int]) && is_digit_char(s@[i as int + 1])),
        },
{
    let c0 = s.get_char(i);
    let c1 = s.get_char(i + 1);
    if digit_char_test(c0) && digit_char_test(c1) {
        Some((c0 as u32 - 48) * 10 + (c1 as u32 - 48))
    } else {
        None
    }
}

/// Parses the 19-character local clock prefix of `s` and checks that its
/// fields form a real date and time.
fn parse_clock_prefix(s: &str) -> (r: Option<Timestamp>)
    requires
        19 <= s@.len(),
    ensures
        match r {
            Some(ts) => ts_shape_local(s@.take(19)) && ts == ts_fields(s@.take(19))
                && timestamp_valid(ts),
            None => !(ts_shape_local(s@.take(19)) && timestamp_valid(ts_fields(s@.take(19)))),
        },
{
    let ghost p = s@.take(19);
    proof {
        assert(forall|j: int| 0 <= j < 19 ==> p[j] == s@[j]);
    }
    if s.get_char(4) != ':' || s.get_char(7) != ':' || s.get_char(10) != ' ' || s.get_char(13)
        != ':' || s.get_char(16) != ':' {
        return None;
    }
    let y_hi = match two_digit_at(s, 0) {
        Some(v) => v,
        None => { return None },
    };
    let y_lo = match two_digit_at(s, 2) {
        Some(v) => v,
        None => { return None },
    };
    let month = match two_digit_at(s, 5) {
        Some(v) => v,
        None => { return None },
    };
    let day = match two_digit_at(s, 8) {
        Some(v) => v,
        None => { return None },
    };
    let hour = match two_digit_at(s, 11) {
        Some(v) => v,
        None => { return None },
    };
    let minute = match two_digit_at(s, 14) {
        Some(v) => v,
        None => { return None },
    };
    let second = match two_digit_at(s, 17) {
        Some(v) => v,
        None => { return None },
    };
    let year = y_hi * 100 + y_lo;
    let ts = Timestamp { year, month, day, hour, minute, second };
    proof {
        assert(ts_shape_local(p));
        assert(ts == ts_fields(p));
    }
    if month < 1 || month > 12 {
        return None;
    }
    if day < 1 || day > days_in_month_exec(year, month) {
        return None;
    }
    if hour > 23 || minute > 59 || second > 59 {
        return None;
    }
    Some(ts)
}

/// Parses a raw timestamp string in either accepted form, the plain local
/// form first, then the form with a trailing numeric UTC offset. Returns
/// `None`, rather than an error, when neither fits.
pub fn parse_datetime_from_string(s: &str) -> (r: Option<Timestamp>)
    ensures
        r == parse_ts(s@),
{
    let n = s.unicode_len();
    if n == 19 {
        let r = parse_clock_prefix(s);
        proof {
            assert(s@.take(19) =~= s@);
        }
        r
    } else if n == 24 {
        proof {
            assert(!ts_shape_local(s@));
        }
        let ts = match parse_clock_prefix(s) {
            Some(ts) => ts,
            None => { return None },
        };
        let sign = s.get_char(19);
        if sign != '+' && sign != '-' {
            return None;
        }
        let off_h = match two_digit_at(s, 20) {
            Some(v) => v,
            None => { return None },
        };
        let off_m = match two_digit_at(s, 22) {
            Some(v) => v,
            None => { return None },
        };
        if off_h > 23 || off_m > 59 {
            return None;
        }
        proof {
            assert(ts_shape_offset(s@));
        }
        Some(ts)
    } else {
        None
    }
}

/// Derives the date and time variables from the raw `CreateDate` value:
/// the eleven fixed keys when the value parses in either accepted form,
/// and an empty mapping otherwise.
pub fn create_vars_from_create_date(create_date: &str) -> (r: Vars)
    ensures
        r@ == date_vars_of(create_date@),
{
    let parsed = parse_datetime_from_string(create_date);
    match parsed {
        None => Vars::new(),
        Some(ts) => {
            let mut vars = Vars::new();
            vars.insert(String::from_str("Y"), four_digits(ts.year));
            vars.insert(String::from_str("y"), two_digits(ts.year % 100));
            vars.insert(String::from_str("m"), two_digits(ts.month));
            vars.insert(String::from_str("D"), two_digits(ts.day));
            vars.insert(
                String::from_str("t"),
                two_digits(ts.hour).concat(two_digits(ts.minute).as_str()).concat(
                    two_digits(ts.second).as_str(),
                ),
            );
            vars.insert(String::from_str("H"), two_digits(ts.hour));
            vars.insert(String::from_str("h"), two_digits(ts.hour % 12));
            vars.insert(String::from_str("M"), two_digits(ts.minute));
            vars.insert(String::from_str("S"), two_digits(ts.second));
            vars.insert(
                String::from_str("W"),
                two_digits(iso_week_from_ymd(ts.year, ts.month, ts.day)),
            );
            vars.insert(
                String::from_str("a"),
                String::from_str(weekday_str(weekday_from_ymd(ts.year, ts.month, ts.day))),
            );
            proof {
                assert(vars@ =~= date_vars(ts));
            }
            vars
        },
    }
}

} // verus!
