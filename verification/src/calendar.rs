//! Dates of the civil calendar and the text of a point in time.

use vstd::prelude::*;

verus! {

/// Whether a year of the Gregorian calendar is a leap year.
pub open spec fn is_leap_year(y: int) -> bool {
    y % 4 == 0 && (y % 100 != 0 || y % 400 == 0)
}

/// The number of days of a month.
pub open spec fn days_in_month(y: int, m: int) -> int {
    if m == 2 {
        if is_leap_year(y) {
            29
        } else {
            28
        }
    } else if m == 4 || m == 6 || m == 9 || m == 11 {
        30
    } else {
        31
    }
}

/// Whether year, month and day name a day of the calendar.
pub open spec fn is_civil_date(y: int, m: int, d: int) -> bool {
    1 <= m <= 12 && 1 <= d <= days_in_month(y, m)
}

/// The number of leap years among the years 1 to `y`; for `y` below 1, minus the
/// number of leap years among the years `y + 1` to 0.
pub open spec fn leap_years_through(y: int) -> int {
    y / 4 - y / 100 + y / 400
}

/// The number of days from the first day of 1970 to the first day of the year `y`.
#[verifier::opaque]
pub open spec fn days_before_year(y: int) -> int {
    365 * (y - 1970) + leap_years_through(y - 1) - leap_years_through(1969)
}

/// The number of days of the year `y` that lie before its month `m`.
pub open spec fn days_before_month(y: int, m: int) -> int
    decreases m,
{
    if m <= 1 {
        0
    } else {
        days_before_month(y, m - 1) + days_in_month(y, m - 1)
    }
}

/// The number of days from the first day of 1970 to the given day.
pub open spec fn days_from_civil(y: int, m: int, d: int) -> int {
    days_before_year(y) + days_before_month(y, m) + d - 1
}

/// The number of days of the first `k` years of a cycle of 400 years that begins on a
/// first of March after a leap day.
#[verifier::opaque]
pub open spec fn days_of_cycle_years(k: int) -> int {
    365 * k + k / 4 - k / 100
}

/// The year of a cycle in which a day of the cycle lies.
#[verifier::opaque]
pub open spec fn year_of_cycle(doe: int) -> int {
    (doe - doe / 1460 + doe / 36524 - doe / 146096) / 365
}

/// The year of the cycle that the formula names is the one in which the day lies.
#[verifier::rlimit(50)]
proof fn lemma_year_of_cycle(doe: int)
    requires
        0 <= doe <= 146096,
    ensures
        0 <= year_of_cycle(doe) <= 399,
        days_of_cycle_years(year_of_cycle(doe)) <= doe,
        doe < days_of_cycle_years(year_of_cycle(doe) + 1) || (year_of_cycle(doe) == 399 && doe == 146096),
{
    reveal(year_of_cycle);
    reveal(days_of_cycle_years);
}

/// The day of a cycle lies in a year of the cycle, and is the last of 366 days only
/// in a year that ends with a leap day.
#[verifier::rlimit(50)]
proof fn lemma_day_of_cycle_year(era: int, doe: int)
    requires
        0 <= doe <= 146096,
    ensures
        0 <= year_of_cycle(doe) <= 399,
        0 <= doe - days_of_cycle_years(year_of_cycle(doe)) <= 365,
        doe - days_of_cycle_years(year_of_cycle(doe)) == 365 ==> is_leap_year(400 * era + year_of_cycle(doe) + 1),
{
    lemma_year_of_cycle(doe);
    reveal(days_of_cycle_years);
}

/// The number of days of a year that lie before each of its months.
proof fn lemma_days_before_month(y: int)
    ensures
        days_before_month(y, 1) == 0,
        days_before_month(y, 2) == 31,
        days_before_month(y, 3) == 31 + days_in_month(y, 2),
        days_before_month(y, 4) == 62 + days_in_month(y, 2),
        days_before_month(y, 5) == 92 + days_in_month(y, 2),
        days_before_month(y, 6) == 123 + days_in_month(y, 2),
        days_before_month(y, 7) == 153 + days_in_month(y, 2),
        days_before_month(y, 8) == 184 + days_in_month(y, 2),
        days_before_month(y, 9) == 215 + days_in_month(y, 2),
        days_before_month(y, 10) == 245 + days_in_month(y, 2),
        days_before_month(y, 11) == 276 + days_in_month(y, 2),
        days_before_month(y, 12) == 306 + days_in_month(y, 2),
{
    reveal_with_fuel(days_before_month, 13);
}

/// The first of March of the year `400 * era + yoe` is as many days after the first
/// day of 1970 as the cycles and the years of the cycle before it make up, less the
/// days from the first of March of the year 0 to the first day of 1970.
#[verifier::rlimit(50)]
proof fn lemma_first_of_march(era: int, yoe: int)
    requires
        0 <= yoe <= 399,
    ensures
        days_before_year(400 * era + yoe) + days_before_month(400 * era + yoe, 3) == era * 146097
            + days_of_cycle_years(yoe) - 719468,
        days_before_year(400 * era + yoe + 1) == era * 146097 + days_of_cycle_years(yoe) - 719468 + 306,
{
    reveal(days_of_cycle_years);
    reveal(days_before_year);
    let y = 400 * era + yoe;
    lemma_days_before_month(y);
    assert(y / 4 == 100 * era + yoe / 4);
    assert(y / 100 == 4 * era + yoe / 100);
    assert(y / 400 == era);
    assert(leap_years_through(y) == leap_years_through(y - 1) + if is_leap_year(y) {
        1int
    } else {
        0int
    });
}

/// The month of a year that begins in March in which the day `doy` of that year lies,
/// March being 0.
#[verifier::opaque]
pub open spec fn month_of_year_day(doy: int) -> int {
    (5 * doy + 2) / 153
}

/// The number of days of a year that begins in March before its month `mp`.
#[verifier::opaque]
pub open spec fn days_before_march_month(mp: int) -> int {
    (153 * mp + 2) / 5
}

/// The month that the formula names is the one in which the day lies.
proof fn lemma_month_of_year_day(doy: int)
    requires
        0 <= doy <= 365,
    ensures
        0 <= month_of_year_day(doy) <= 11,
        days_before_march_month(month_of_year_day(doy)) <= doy,
        doy < days_before_march_month(month_of_year_day(doy) + 1),
{
    reveal(month_of_year_day);
    reveal(days_before_march_month);
}

/// The date that the conversion computes for a day, in steps.
pub open spec fn civil_from_days(days: int) -> (int, int, int) {
    let z = days + 719468;
    let era = z / 146097;
    let doe = z - era * 146097;
    let yoe = year_of_cycle(doe);
    let doy = doe - days_of_cycle_years(yoe);
    let mp = month_of_year_day(doy);
    let d = doy - days_before_march_month(mp) + 1;
    let m = if mp < 10 {
        mp + 3
    } else {
        mp - 9
    };
    let y = yoe + era * 400 + if m <= 2 {
        1int
    } else {
        0int
    };
    (y, m, d)
}

/// The number of days of a year that begins in March before each of its months.
proof fn lemma_days_before_march_month()
    ensures
        days_before_march_month(0) == 0,
        days_before_march_month(1) == 31,
        days_before_march_month(2) == 61,
        days_before_march_month(3) == 92,
        days_before_march_month(4) == 122,
        days_before_march_month(5) == 153,
        days_before_march_month(6) == 184,
        days_before_march_month(7) == 214,
        days_before_march_month(8) == 245,
        days_before_march_month(9) == 275,
        days_before_march_month(10) == 306,
        days_before_march_month(11) == 337,
        days_before_march_month(12) == 367,
{
    reveal(days_before_march_month);
}

/// The day `doy` of the year that begins on the first of March of the year `y0` has
/// the date that the conversion gives it.
#[verifier::rlimit(50)]
proof fn lemma_date_of_year_day(y0: int, doy: int)
    requires
        0 <= doy <= 365,
        doy == 365 ==> is_leap_year(y0 + 1),
    ensures
        ({
            let mp = month_of_year_day(doy);
            let d = doy - days_before_march_month(mp) + 1;
            let m = if mp < 10 {
                mp + 3
            } else {
                mp - 9
            };
            let y = if m <= 2 {
                y0 + 1
            } else {
                y0
            };
            &&& is_civil_date(y, m, d)
            &&& m > 2 ==> days_before_month(y, m) + d - 1 == days_before_month(y0, 3) + doy
            &&& m <= 2 ==> days_before_month(y, m) + d - 1 == doy - 306
        }),
{
    let mp = month_of_year_day(doy);
    lemma_month_of_year_day(doy);
    lemma_days_before_march_month();
    lemma_days_before_month(y0);
    lemma_days_before_month(y0 + 1);
    if mp == 0 {
    } else if mp == 1 {
    } else if mp == 2 {
    } else if mp == 3 {
    } else if mp == 4 {
    } else if mp == 5 {
    } else if mp == 6 {
    } else if mp == 7 {
    } else if mp == 8 {
    } else if mp == 9 {
    } else if mp == 10 {
    } else {
    }
}

/// The conversion names a day of the calendar, and the right one.
#[verifier::rlimit(50)]
pub proof fn lemma_civil_from_days(days: int)
    ensures
        is_civil_date(civil_from_days(days).0, civil_from_days(days).1, civil_from_days(days).2),
        days_from_civil(civil_from_days(days).0, civil_from_days(days).1, civil_from_days(days).2) == days,
{
    let z = days + 719468;
    let era = z / 146097;
    let doe = z - era * 146097;
    assert(0 <= doe <= 146096);
    let yoe = year_of_cycle(doe);
    let doy = doe - days_of_cycle_years(yoe);
    let y0 = 400 * era + yoe;
    assert(0 <= yoe <= 399 && 0 <= doy <= 365 && (doy == 365 ==> is_leap_year(y0 + 1))) by {
        lemma_day_of_cycle_year(era, doe);
    }
    let mp = month_of_year_day(doy);
    let d = doy - days_before_march_month(mp) + 1;
    let m = if mp < 10 {
        mp + 3
    } else {
        mp - 9
    };
    let y = if m <= 2 {
        y0 + 1
    } else {
        y0
    };
    assert(civil_from_days(days) == (y, m, d));
    let start = era * 146097 + days_of_cycle_years(yoe) - 719468;
    assert(start + doy == days);
    assert(days_before_year(y0) + days_before_month(y0, 3) == start && days_before_year(y0 + 1) == start + 306) by {
        lemma_first_of_march(era, yoe);
    }
    let within = days_before_month(y, m) + d - 1;
    assert(is_civil_date(y, m, d) && (m > 2 ==> within == days_before_month(y0, 3) + doy) && (m <= 2 ==> within == doy
        - 306)) by {
        lemma_date_of_year_day(y0, doy);
    }
    assert(days_from_civil(y, m, d) == days_before_year(y) + within);
}

/// A year has 366 days where it is a leap year and 365 where it is not.
proof fn lemma_year_length(y: int)
    ensures
        days_before_year(y + 1) - days_before_year(y) == if is_leap_year(y) {
            366int
        } else {
            365int
        },
{
    reveal(days_before_year);
}

/// Later years begin later.
proof fn lemma_years_increase(y1: int, y2: int)
    requires
        y1 <= y2,
    ensures
        days_before_year(y1) <= days_before_year(y2),
    decreases y2 - y1,
{
    if y1 < y2 {
        lemma_years_increase(y1, y2 - 1);
        lemma_year_length(y2 - 1);
    }
}

/// A day of a year lies within the year.
proof fn lemma_day_within_year(y: int, m: int, d: int)
    requires
        is_civil_date(y, m, d),
    ensures
        days_before_year(y) <= days_from_civil(y, m, d) < days_before_year(y + 1),
{
    lemma_days_before_month(y);
    lemma_year_length(y);
}

/// No two days of the calendar lie equally many days after the first day of 1970: the
/// date that the conversion gives a day is the only one.
pub proof fn lemma_date_is_unique(y1: int, m1: int, d1: int, y2: int, m2: int, d2: int)
    requires
        is_civil_date(y1, m1, d1),
        is_civil_date(y2, m2, d2),
        days_from_civil(y1, m1, d1) == days_from_civil(y2, m2, d2),
    ensures
        y1 == y2,
        m1 == m2,
        d1 == d2,
{
    lemma_day_within_year(y1, m1, d1);
    lemma_day_within_year(y2, m2, d2);
    if y1 < y2 {
        lemma_years_increase(y1 + 1, y2);
    } else if y2 < y1 {
        lemma_years_increase(y2 + 1, y1);
    } else {
        lemma_days_before_month(y1);
    }
}

/// The date of the day that lies `days` days after the first day of 1970, or before
/// it where `days` is negative: year, month and day of the month.
#[verifier::rlimit(50)]
pub fn days_to_date(days: i64) -> (date: (i64, u32, u32))
    requires
        i64::MIN + 146096 + 719468 <= days <= i64::MAX - 719468,
    ensures
        (date.0 as int, date.1 as int, date.2 as int) == civil_from_days(days as int),
        is_civil_date(date.0 as int, date.1 as int, date.2 as int),
        days_from_civil(date.0 as int, date.1 as int, date.2 as int) == days,
{
    proof {
        reveal(year_of_cycle);
        reveal(days_of_cycle_years);
        reveal(month_of_year_day);
        reveal(days_before_march_month);
    }
    let z: i64 = days + 719468;
    let era: i64 = (if z >= 0 {
        z
    } else {
        z - 146096
    }) / 146097;
    assert(era == (z as int) / 146097);
    let doe: u32 = (z - era * 146097) as u32;
    assert(doe == z - era * 146097);
    proof {
        lemma_year_of_cycle(doe as int);
    }
    let yoe: u32 = (doe - doe / 1460 + doe / 36524 - doe / 146096) / 365;
    assert(yoe == year_of_cycle(doe as int));
    let y: i64 = yoe as i64 + era * 400;
    let doy: u32 = doe - (365 * yoe + yoe / 4 - yoe / 100);
    assert(doy == doe - days_of_cycle_years(yoe as int));
    proof {
        lemma_month_of_year_day(doy as int);
    }
    let mp: u32 = (5 * doy + 2) / 153;
    let d: u32 = doy - (153 * mp + 2) / 5 + 1;
    let m: u32 = if mp < 10 {
        mp + 3
    } else {
        mp - 9
    };
    let year: i64 = if m <= 2 {
        y + 1
    } else {
        y
    };
    proof {
        assert((year as int, m as int, d as int) == civil_from_days(days as int));
        lemma_civil_from_days(days as int);
    }
    (year, m, d)
}

/// The character of a decimal digit.
pub open spec fn digit_char(d: int) -> char {
    if d == 0 {
        '0'
    } else if d == 1 {
        '1'
    } else if d == 2 {
        '2'
    } else if d == 3 {
        '3'
    } else if d == 4 {
        '4'
    } else if d == 5 {
        '5'
    } else if d == 6 {
        '6'
    } else if d == 7 {
        '7'
    } else if d == 8 {
        '8'
    } else {
        '9'
    }
}

/// The decimal numeral of a number.
pub open spec fn decimal_text(n: nat) -> Seq<char>
    decreases n,
{
    if n < 10 {
        seq![digit_char(n as int)]
    } else {
        decimal_text(n / 10).push(digit_char((n % 10) as int))
    }
}

/// The decimal numeral of a number, with zeros before it where it has fewer than
/// `width` digits.
pub open spec fn padded_text(n: nat, width: nat) -> Seq<char> {
    let numeral = decimal_text(n);
    if numeral.len() < width {
        Seq::new((width - numeral.len()) as nat, |i: int| '0') + numeral
    } else {
        numeral
    }
}

/// The text of the point in time that lies `secs` seconds after the first day of 1970
/// began: date and time of day in the form `YYYY-MM-DDThh:mm:ssZ`.
pub open spec fn iso8601_text(secs: nat) -> Seq<char> {
    let date = civil_from_days((secs / 86400) as int);
    let time = secs % 86400;
    padded_text(date.0 as nat, 4) + seq!['-'] + padded_text(date.1 as nat, 2) + seq!['-'] + padded_text(
        date.2 as nat,
        2,
    ) + seq!['T'] + padded_text(time / 3600, 2) + seq![':'] + padded_text((time % 3600) / 60, 2) + seq![':']
        + padded_text(time % 60, 2) + seq!['Z']
}

/// The text of a decimal digit.
fn digit_text(d: u64) -> (text: &'static str)
    requires
        d < 10,
    ensures
        text@ == seq![digit_char(d as int)],
{
    proof {
        reveal_strlit("0");
        reveal_strlit("1");
        reveal_strlit("2");
        reveal_strlit("3");
        reveal_strlit("4");
        reveal_strlit("5");
        reveal_strlit("6");
        reveal_strlit("7");
        reveal_strlit("8");
        reveal_strlit("9");
    }
    let text = if d == 0 {
        "0"
    } else if d == 1 {
        "1"
    } else if d == 2 {
        "2"
    } else if d == 3 {
        "3"
    } else if d == 4 {
        "4"
    } else if d == 5 {
        "5"
    } else if d == 6 {
        "6"
    } else if d == 7 {
        "7"
    } else if d == 8 {
        "8"
    } else {
        "9"
    };
    assert(text@ =~= seq![digit_char(d as int)]);
    text
}

/// Appends the decimal numeral of a number to a text.
fn push_decimal(text: &mut String, n: u64)
    ensures
        final(text)@ == old(text)@ + decimal_text(n as nat),
    decreases n,
{
    if n >= 10 {
        push_decimal(text, n / 10);
    }
    text.append(digit_text(n % 10));
    assert(text@ =~= old(text)@ + decimal_text(n as nat));
}

/// Appends the decimal numeral of a number to a text, with zeros before it where it
/// has fewer than `width` digits.
fn push_padded(text: &mut String, n: u64, width: usize)
    ensures
        final(text)@ == old(text)@ + padded_text(n as nat, width as nat),
{
    let mut numeral = String::new();
    push_decimal(&mut numeral, n);
    assert(numeral@ =~= decimal_text(n as nat));
    let len = numeral.as_str().unicode_len();
    let ghost before = text@;
    let mut i: usize = len;
    assert(text@ =~= before + Seq::new(0nat, |k: int| '0'));
    while i < width
        invariant
            len <= i,
            len < width ==> i <= width,
            len >= width ==> i == len,
            text@ == before + Seq::new((i - len) as nat, |k: int| '0'),
        decreases width - i,
    {
        let ghost zeros = Seq::new((i - len) as nat, |k: int| '0');
        text.append("0");
        assert(text@ =~= before + Seq::new((i + 1 - len) as nat, |k: int| '0')) by {
            reveal_strlit("0");
            assert("0"@ =~= seq!['0']);
            assert(zeros + seq!['0'] =~= Seq::new((i + 1 - len) as nat, |k: int| '0'));
        }
        i += 1;
    }
    let ghost padded = text@;
    text.append(numeral.as_str());
    assert(text@ =~= before + padded_text(n as nat, width as nat)) by {
        if len < width {
            assert(padded == before + Seq::new((width - len) as nat, |k: int| '0'));
        } else {
            assert(padded =~= before);
        }
    }
}

/// The text of the point in time that lies `secs` seconds after the first day of 1970
/// began.
pub fn format_iso8601(secs: u64) -> (text: String)
    ensures
        text@ == iso8601_text(secs as nat),
{
    let days: i64 = (secs / 86400) as i64;
    let (year, month, day) = days_to_date_of(days);
    let time: u64 = secs % 86400;
    proof {
        reveal_strlit("-");
        reveal_strlit("T");
        reveal_strlit(":");
        reveal_strlit("Z");
        assert("-"@ =~= seq!['-']);
        assert("T"@ =~= seq!['T']);
        assert(":"@ =~= seq![':']);
        assert("Z"@ =~= seq!['Z']);
    }
    let mut text = String::new();
    push_padded(&mut text, year, 4);
    text.append("-");
    push_padded(&mut text, month, 2);
    text.append("-");
    push_padded(&mut text, day, 2);
    text.append("T");
    push_padded(&mut text, time / 3600, 2);
    text.append(":");
    push_padded(&mut text, (time % 3600) / 60, 2);
    text.append(":");
    push_padded(&mut text, time % 60, 2);
    text.append("Z");
    assert(text@ =~= iso8601_text(secs as nat));
    text
}

/// The date of a day that does not lie before 1970, as unsigned numbers.
fn days_to_date_of(days: i64) -> (date: (u64, u64, u64))
    requires
        0 <= days <= i64::MAX - 719468,
    ensures
        (date.0 as int, date.1 as int, date.2 as int) == civil_from_days(days as int),
{
    let (year, month, day) = days_to_date(days);
    proof {
        let z = days + 719468;
        let era = z / 146097;
        lemma_year_of_cycle(z - era * 146097);
        reveal(month_of_year_day);
        assert(year >= 0);
    }
    (year as u64, month as u64, day as u64)
}

} // verus!
