//! Calendar timestamps and their human-readable form.
//!
//! A `Timestamp` is a count of non-leap seconds since the Unix epoch,
//! restricted to the years 0 through 9999 so that every stored value names a
//! calendar date. The mapping from seconds to civil year, month and day is
//! chrono's; the ordinal day form ("1st", "22nd") is the ordinal crate's.

use vstd::prelude::*;

use crate::text::push_char;

verus! {

/// The first second of the year 0 (proleptic Gregorian, UTC).
pub const TS_MIN: i64 = -62167219200;

/// The last second of the year 9999 (UTC).
pub const TS_MAX: i64 = 253402300799;

/// Whether an epoch-second count names a calendar date in the years 0..=9999.
pub open spec fn ts_in_range(secs: int) -> bool {
    TS_MIN <= secs <= TS_MAX
}

/// A point in time: non-leap seconds since the Unix epoch, within the years
/// 0..=9999.
#[derive(Clone, Copy, Debug, PartialEq, Eq, Structural)]
pub struct Timestamp {
    pub secs: i64,
}

/// An epoch-second count clamped to the representable calendar range.
pub open spec fn spec_clamp_secs(secs: int) -> int {
    if secs < TS_MIN {
        TS_MIN as int
    } else if secs > TS_MAX {
        TS_MAX as int
    } else {
        secs
    }
}

impl Timestamp {
    /// Whether the timestamp lies within the representable calendar range.
    pub open spec fn wf(self) -> bool {
        ts_in_range(self.secs as int)
    }

    /// Builds a timestamp from an epoch-second count, clamping values outside
    /// the representable calendar range to its nearest end.
    pub fn new(secs: i64) -> (r: Timestamp)
        ensures
            r.secs as int == spec_clamp_secs(secs as int),
            r.wf(),
    {
        let clamped = if secs < TS_MIN {
            TS_MIN
        } else if secs > TS_MAX {
            TS_MAX
        } else {
            secs
        };
        Timestamp { secs: clamped }
    }
}

/// The civil year (UTC) of an epoch-second count; what chrono computes.
pub uninterp spec fn year_of(secs: int) -> int;

/// The civil month, 1 through 12 (UTC), of an epoch-second count; what chrono
/// computes.
pub uninterp spec fn month_of(secs: int) -> int;

/// The civil day of month, 1 through 31 (UTC), of an epoch-second count; what
/// chrono computes.
pub uninterp spec fn day_of(secs: int) -> int;

/// Relies on chrono's `DateTime::<Utc>::from_timestamp` and `Datelike::year`:
/// the civil year is a function of the epoch-second count alone, and lies in
/// 0..=9999 for counts within that calendar range.
#[verifier::external_body]
fn utc_year(secs: i64) -> (y: i64)
    requires
        ts_in_range(secs as int),
    ensures
        y as int == year_of(secs as int),
        0 <= y <= 9999,
{
    chrono::Datelike::year(&chrono::DateTime::<chrono::Utc>::from_timestamp(secs, 0).unwrap()) as i64
}

/// Relies on chrono's `DateTime::<Utc>::from_timestamp` and `Datelike::month`:
/// the civil month is a function of the epoch-second count alone, and lies in
/// 1..=12.
#[verifier::external_body]
fn utc_month(secs: i64) -> (m: u8)
    requires
        ts_in_range(secs as int),
    ensures
        m as int == month_of(secs as int),
        1 <= m <= 12,
{
    chrono::Datelike::month(&chrono::DateTime::<chrono::Utc>::from_timestamp(secs, 0).unwrap()) as u8
}

/// Relies on chrono's `DateTime::<Utc>::from_timestamp` and `Datelike::day`:
/// the civil day of month is a function of the epoch-second count alone, and
/// lies in 1..=31.
#[verifier::external_body]
fn utc_day(secs: i64) -> (d: u8)
    requires
        ts_in_range(secs as int),
    ensures
        d as int == day_of(secs as int),
        1 <= d <= 31,
{
    chrono::Datelike::day(&chrono::DateTime::<chrono::Utc>::from_timestamp(secs, 0).unwrap()) as u8
}

/// The character for one decimal digit.
pub open spec fn dec_digit(d: int) -> char {
    if d == 0 {
        '0'
    } else if d == 1 {
        '1'
    } else if d == 2 {
        '2'
    } else if d == 3 {
        '3'
    } else if d == 4 {
        '4'
    } else if d == 5 {
        '5'
    } else if d == 6 {
        '6'
    } else if d == 7 {
        '7'
    } else if d == 8 {
        '8'
    } else {
        '9'
    }
}

fn dec_digit_char(d: u8) -> (c: char)
    requires
        d <= 9,
    ensures
        c == dec_digit(d as int),
{
    match d {
        0 => '0',
        1 => '1',
        2 => '2',
        3 => '3',
        4 => '4',
        5 => '5',
        6 => '6',
        7 => '7',
        8 => '8',
        _ => '9',
    }
}

/// The decimal digits of a day-of-month number (one or two digits).
pub open spec fn spec_day_digits(n: int) -> Seq<char> {
    if n < 10 {
        seq![dec_digit(n)]
    } else {
        seq![dec_digit(n / 10), dec_digit(n % 10)]
    }
}

/// The English ordinal suffix of a number ("st", "nd", "rd" or "th").
pub open spec fn spec_ordinal_suffix(n: int) -> Seq<char> {
    if 11 <= n % 100 <= 13 {
        "th"@
    } else if n % 10 == 1 {
        "st"@
    } else if n % 10 == 2 {
        "nd"@
    } else if n % 10 == 3 {
        "rd"@
    } else {
        "th"@
    }
}

/// A day-of-month number written as an English ordinal ("1st", "22nd").
pub open spec fn spec_ordinal(n: int) -> Seq<char> {
    spec_day_digits(n) + spec_ordinal_suffix(n)
}

/// Relies on the ordinal crate's `Ordinal` display form: a number followed by
/// its English ordinal suffix, the suffix chosen by the last two decimal
/// digits.
#[verifier::external_body]
fn ordinal_day_string(n: u8) -> (r: String)
    requires
        1 <= n <= 31,
    ensures
        r@ == spec_ordinal(n as int),
{
    ordinal::Ordinal(n).to_string()
}

/// The English name of a month given by its number, 1 through 12.
pub open spec fn spec_month_name(m: int) -> Seq<char> {
    if m == 1 {
        "January"@
    } else if m == 2 {
        "February"@
    } else if m == 3 {
        "March"@
    } else if m == 4 {
        "April"@
    } else if m == 5 {
        "May"@
    } else if m == 6 {
        "June"@
    } else if m == 7 {
        "July"@
    } else if m == 8 {
        "August"@
    } else if m == 9 {
        "September"@
    } else if m == 10 {
        "October"@
    } else if m == 11 {
        "November"@
    } else {
        "December"@
    }
}

fn month_name(m: u8) -> (r: &'static str)
    requires
        1 <= m <= 12,
    ensures
        r@ == spec_month_name(m as int),
{
    match m {
        1 => "January",
        2 => "February",
        3 => "March",
        4 => "April",
        5 => "May",
        6 => "June",
        7 => "July",
        8 => "August",
        9 => "September",
        10 => "October",
        11 => "November",
        _ => "December",
    }
}

/// A year written as four zero-padded decimal digits.
pub open spec fn spec_year4(y: int) -> Seq<char> {
    seq![
        dec_digit(y / 1000),
        dec_digit((y / 100) % 10),
        dec_digit((y / 10) % 10),
        dec_digit(y % 10),
    ]
}

fn format_year(y: u16) -> (r: String)
    requires
        y <= 9999,
    ensures
        r@ == spec_year4(y as int),
{
    let mut s = String::new();
    push_char(&mut s, dec_digit_char((y / 1000) as u8));
    push_char(&mut s, dec_digit_char(((y / 100) % 10) as u8));
    push_char(&mut s, dec_digit_char(((y / 10) % 10) as u8));
    push_char(&mut s, dec_digit_char((y % 10) as u8));
    proof {
        assert(s@ =~= spec_year4(y as int));
    }
    s
}

/// The human-readable form of a timestamp: month name, ordinal day and year,
/// as in "January 1st, 2020".
pub open spec fn spec_format_datetime(secs: int) -> Seq<char> {
    spec_month_name(month_of(secs)) + " "@ + spec_ordinal(day_of(secs)) + ", "@ + spec_year4(
        year_of(secs),
    )
}

/// Renders a timestamp as a human-readable date string.
pub fn format_datetime(ts: Timestamp) -> (r: String)
    requires
        ts.wf(),
    ensures
        r@ == spec_format_datetime(ts.secs as int),
{
    let m = utc_month(ts.secs);
    let d = utc_day(ts.secs);
    let y = utc_year(ts.secs);

    let mut out = String::from_str(month_name(m));
    out.append(" ");
    let ord = ordinal_day_string(d);
    out.append(ord.as_str());
    out.append(", ");
    let year_str = format_year(y as u16);
    out.append(year_str.as_str());
    proof {
        assert(out@ =~= spec_format_datetime(ts.secs as int));
    }
    out
}

} // verus!
