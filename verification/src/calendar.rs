//! Proleptic Gregorian calendar arithmetic: converting a count of days since
//! the Unix epoch (1970-01-01) into a calendar date.
use vstd::prelude::*;

verus! {

/// Whether `y` is a leap year of the Gregorian calendar.
pub open spec fn is_leap_year(y: int) -> bool {
    y % 4 == 0 && (y % 100 != 0 || y % 400 == 0)
}

/// `1` for a leap year, `0` otherwise.
pub open spec fn leap_day(y: int) -> int {
    if is_leap_year(y) {
        1
    } else {
        0
    }
}

/// Number of days in year `y`.
pub open spec fn year_length(y: int) -> int {
    365 + leap_day(y)
}

/// Number of days in month `m` (1 = January) of year `y`.
pub open spec fn days_in_month(y: int, m: int) -> int {
    if m == 2 {
        28 + leap_day(y)
    } else if m == 4 || m == 6 || m == 9 || m == 11 {
        30
    } else {
        31
    }
}

/// Number of days from 1970-01-01 to January 1 of year `y` (`y >= 1970`).
pub open spec fn days_before_year(y: int) -> int
    decreases y - 1970,
{
    if y <= 1970 {
        0
    } else {
        days_before_year(y - 1) + year_length(y - 1)
    }
}

/// Number of days in year `y` before the first day of month `m`.
pub open spec fn days_before_month(y: int, m: int) -> int
    decreases m,
{
    if m <= 1 {
        0
    } else {
        days_before_month(y, m - 1) + days_in_month(y, m - 1)
    }
}

/// Whether `(y, m, d)` is a calendar date on or after 1970-01-01.
pub open spec fn valid_date(y: int, m: int, d: int) -> bool {
    &&& y >= 1970
    &&& 1 <= m <= 12
    &&& 1 <= d <= days_in_month(y, m)
}

/// Number of days from 1970-01-01 to the date `(y, m, d)`.
pub open spec fn days_from_civil(y: int, m: int, d: int) -> int {
    days_before_year(y) + days_before_month(y, m) + d - 1
}

/// The calendar date that lies `days` days after 1970-01-01.
pub open spec fn civil_date(days: int) -> (int, int, int) {
    choose|date: (int, int, int)|
        valid_date(date.0, date.1, date.2) && days_from_civil(date.0, date.1, date.2) == days
}

/// The last day count whose date still has a year that fits in `u32`: the
/// day count of 4294967295-12-31.
pub const MAX_YMD_DAYS: u64 = 1_568_703_873_081;

/// Number of leap years among the years `1..=n`.
pub open spec fn leap_count(n: int) -> int {
    n / 4 - n / 100 + n / 400
}

/// Days from 0000-03-01 to March 1 of year `y` (`y >= 0`), in the
/// March-based reckoning where the leap day ends the year.
pub open spec fn march_start(y: int) -> int {
    365 * y + leap_count(y)
}

/// Start of March-based year `y` (`0 <= y <= 399`) within its 400-year era.
pub open spec fn era_year_start(y: int) -> int {
    365 * y + y / 4 - y / 100
}

/// First day, counted from March 1, of the `i`-th month of a March-based
/// year (0 = March, ..., 11 = February).
pub open spec fn march_month_start(i: int) -> int {
    (153 * i + 2) / 5
}

/// Leap years are spaced by the leap count.
proof fn lemma_leap_count_step(n: int)
    requires
        n >= 1,
    ensures
        leap_count(n) == leap_count(n - 1) + leap_day(n),
{
    assert(n / 4 == (n - 1) / 4 + (if n % 4 == 0 { 1int } else { 0 }));
    assert(n / 100 == (n - 1) / 100 + (if n % 100 == 0 { 1int } else { 0 }));
    assert(n / 400 == (n - 1) / 400 + (if n % 400 == 0 { 1int } else { 0 }));
    if n % 100 == 0 {
        assert(n % 4 == 0);
    }
    if n % 400 == 0 {
        assert(n % 100 == 0);
    }
}

/// The leap count never decreases.
proof fn lemma_leap_count_monotone(a: int, b: int)
    requires
        1 <= a <= b,
    ensures
        leap_count(a) <= leap_count(b),
    decreases b - a,
{
    if a < b {
        lemma_leap_count_step(b);
        lemma_leap_count_monotone(a, b - 1);
    }
}

/// Closed form of the days before a year.
proof fn lemma_days_before_year_closed(y: int)
    requires
        y >= 1970,
    ensures
        days_before_year(y) == 365 * (y - 1970) + leap_count(y - 1) - leap_count(1969),
    decreases y - 1970,
{
    if y > 1970 {
        lemma_days_before_year_closed(y - 1);
        lemma_leap_count_step(y - 1);
    }
}

/// Later years start later.
proof fn lemma_days_before_year_monotone(a: int, b: int)
    requires
        1970 <= a <= b,
    ensures
        days_before_year(a) + 365 * (b - a) <= days_before_year(b),
{
    lemma_days_before_year_closed(a);
    lemma_days_before_year_closed(b);
    lemma_leap_count_monotone(a - 1, b - 1);
}

/// March-based years grow by at least 365 days each.
proof fn lemma_march_start_monotone(a: int, b: int)
    requires
        1 <= a <= b,
    ensures
        march_start(a) + 365 * (b - a) <= march_start(b),
{
    lemma_leap_count_monotone(a, b);
}

/// Cumulative month starts of the calendar year, as a table.
proof fn lemma_days_before_month_table(y: int)
    ensures
        days_before_month(y, 1) == 0,
        days_before_month(y, 2) == 31,
        days_before_month(y, 3) == 59 + leap_day(y),
        days_before_month(y, 4) == 90 + leap_day(y),
        days_before_month(y, 5) == 120 + leap_day(y),
        days_before_month(y, 6) == 151 + leap_day(y),
        days_before_month(y, 7) == 181 + leap_day(y),
        days_before_month(y, 8) == 212 + leap_day(y),
        days_before_month(y, 9) == 243 + leap_day(y),
        days_before_month(y, 10) == 273 + leap_day(y),
        days_before_month(y, 11) == 304 + leap_day(y),
        days_before_month(y, 12) == 334 + leap_day(y),
        days_before_month(y, 13) == 365 + leap_day(y),
{
    reveal_with_fuel(days_before_month, 14);
}

/// Leap-ness only depends on the year modulo 400.
proof fn lemma_leap_era(era: int, n: int)
    ensures
        is_leap_year(400 * era + n) == is_leap_year(n),
{
    assert((400 * era + n) % 4 == n % 4);
    assert((400 * era + n) % 100 == n % 100);
    assert((400 * era + n) % 400 == n % 400);
}

/// Splitting a March-based year into its era and year of era.
proof fn lemma_march_start_era(era: int, yoe: int)
    requires
        era >= 0,
        0 <= yoe <= 399,
    ensures
        march_start(400 * era + yoe) == 146097 * era + era_year_start(yoe),
{
    let y: int = 400 * era + yoe;
    assert(y / 4 == 100 * era + yoe / 4);
    assert(y / 100 == 4 * era + yoe / 100);
    assert(y / 400 == era);
}

/// The year of era computed from a day of era `doe` is the March-based year
/// that contains that day.
proof fn lemma_year_of_era(doe: int)
    requires
        0 <= doe <= 146096,
    ensures
        ({
            let yoe: int = (doe - doe / 1460 + doe / 36524 - doe / 146096) / 365;
            &&& 0 <= yoe <= 399
            &&& era_year_start(yoe) <= doe
            &&& doe - era_year_start(yoe) < year_length(yoe + 1)
        }),
{
    let q: int = doe / 36524;
    let c: int = if q >= 3 {
        3
    } else {
        q
    };
    let rem1: int = doe - 36524 * c;
    assert(0 <= rem1 <= 36524);
    assert(c < 3 ==> rem1 < 36524);
    let b: int = rem1 / 1461;
    assert(0 <= b <= 24);
    let rem2: int = rem1 - 1461 * b;
    assert(0 <= rem2 <= 1460);
    let p: int = rem2 / 365;
    let a: int = if p >= 3 {
        3
    } else {
        p
    };
    let k: int = rem2 - 365 * a;
    assert(0 <= a <= 3);
    assert(0 <= k <= 365);
    assert(k == 365 ==> a == 3 && rem2 == 1460);
    assert(k == 365 ==> (b < 24 || c == 3));
    assert(doe == 36524 * c + 1461 * b + 365 * a + k);
    let y: int = 100 * c + 4 * b + a;
    // The three divisions of the formula.
    assert(doe / 146096 == (if doe == 146096 { 1int } else { 0 }));
    assert(doe / 36524 - doe / 146096 == c);
    let r: int = 24 * c + b + 365 * a + k;
    let e1: int = if r >= 1460 {
        1
    } else {
        0
    };
    assert(doe == 1460 * (25 * c + b) + r);
    assert(0 <= r < 2920);
    assert(doe / 1460 == 25 * c + b + e1);
    assert(e1 == 1 ==> k >= 269);
    assert(k == 365 ==> e1 == 1);
    let f: int = doe - doe / 1460 + doe / 36524 - doe / 146096;
    assert(f == 365 * y + (k - e1));
    assert(0 <= k - e1 <= 364);
    assert(f / 365 == y);
    assert(y / 4 == 25 * c + b);
    assert(y / 100 == c);
    assert(era_year_start(y) == 36524 * c + 1461 * b + 365 * a);
    assert(doe - era_year_start(y) == k);
    if k == 365 {
        assert((y + 1) % 4 == 0);
        if b < 24 {
            assert((y + 1) % 100 != 0);
        } else {
            assert(y + 1 == 400);
        }
        assert(is_leap_year(y + 1));
    }
}

/// The month of a March-based day of year.
proof fn lemma_march_month(doy: int)
    requires
        0 <= doy <= 365,
    ensures
        ({
            let mp: int = (5 * doy + 2) / 153;
            &&& 0 <= mp <= 11
            &&& march_month_start(mp) <= doy
            &&& doy < march_month_start(mp + 1)
        }),
{
    let mp: int = (5 * doy + 2) / 153;
    assert(153 * mp <= 5 * doy + 2 < 153 * mp + 153);
    let s0: int = (153 * mp + 2) / 5;
    assert(5 * s0 <= 153 * mp + 2);
    let s1: int = (153 * (mp + 1) + 2) / 5;
    assert(153 * (mp + 1) + 2 < 5 * s1 + 5);
}

/// Month lengths seen from March: the month starting at `march_month_start(mp)`.
proof fn lemma_march_month_table()
    ensures
        march_month_start(0) == 0,
        march_month_start(1) == 31,
        march_month_start(2) == 61,
        march_month_start(3) == 92,
        march_month_start(4) == 122,
        march_month_start(5) == 153,
        march_month_start(6) == 184,
        march_month_start(7) == 214,
        march_month_start(8) == 245,
        march_month_start(9) == 275,
        march_month_start(10) == 306,
        march_month_start(11) == 337,
        march_month_start(12) == 367,
{
}

/// The date computed from the March-based year `yp`, day of year `doy` and
/// month `mp` is valid and lies `march_start(yp) + doy - 719468` days after
/// the epoch.
proof fn lemma_civil_from_march(yp: int, doy: int, z: int)
    requires
        yp >= 1,
        0 <= doy < year_length(yp + 1),
        z == march_start(yp) + doy,
        z >= 719468,
    ensures
        ({
            let mp: int = (5 * doy + 2) / 153;
            let d: int = doy - march_month_start(mp) + 1;
            let m: int = if mp < 10 {
                mp + 3
            } else {
                mp - 9
            };
            let y: int = if m <= 2 {
                yp + 1
            } else {
                yp
            };
            &&& valid_date(y, m, d)
            &&& days_from_civil(y, m, d) == z - 719468
        }),
{
    let mp: int = (5 * doy + 2) / 153;
    let d: int = doy - march_month_start(mp) + 1;
    let m: int = if mp < 10 {
        mp + 3
    } else {
        mp - 9
    };
    let y: int = if m <= 2 {
        yp + 1
    } else {
        yp
    };
    lemma_march_month(doy);
    lemma_march_month_table();
    lemma_days_before_month_table(y);
    lemma_leap_count_step(yp + 1);
    lemma_leap_count_step(yp);
    assert(march_start(1969) == 719162);
    // The March-based year is late enough.
    if yp <= 1968 {
        lemma_march_start_monotone(yp + 1, 1969);
        assert(march_start(yp + 1) == march_start(yp) + year_length(yp + 1));
        assert(false);
    }
    if yp == 1969 {
        assert(doy >= 306);
        assert(mp >= 10);
    }
    assert(y >= 1970);
    lemma_days_before_year_closed(y);
    assert(leap_count(1969) == 477);
    if mp < 10 {
        assert(days_before_month(y, m) == 59 + leap_day(y) + march_month_start(mp));
        assert(d <= days_in_month(y, m));
    } else {
        assert(days_before_month(y, m) == march_month_start(mp) - 306);
        assert(d <= days_in_month(y, m));
    }
}

/// Each day count denotes at most one calendar date.
pub proof fn lemma_civil_date_unique(y1: int, m1: int, d1: int, y2: int, m2: int, d2: int)
    requires
        valid_date(y1, m1, d1),
        valid_date(y2, m2, d2),
        days_from_civil(y1, m1, d1) == days_from_civil(y2, m2, d2),
    ensures
        y1 == y2 && m1 == m2 && d1 == d2,
{
    lemma_days_before_month_table(y1);
    lemma_days_before_month_table(y2);
    assert(days_before_month(y1, m1) + d1 - 1 < year_length(y1));
    assert(days_before_month(y2, m2) + d2 - 1 < year_length(y2));
    if y1 < y2 {
        lemma_days_before_year_monotone(y1 + 1, y2);
        assert(days_before_year(y1 + 1) == days_before_year(y1) + year_length(y1));
        assert(false);
    }
    if y2 < y1 {
        lemma_days_before_year_monotone(y2 + 1, y1);
        assert(days_before_year(y2 + 1) == days_before_year(y2) + year_length(y2));
        assert(false);
    }
    assert(y1 == y2);
    assert(days_before_month(y1, m1) + d1 == days_before_month(y1, m2) + d2);
    assert(m1 == m2);
}

/// Every day count of the epoch era has a calendar date; `civil_date` picks it.
pub proof fn lemma_civil_date_is(days: int, y: int, m: int, d: int)
    requires
        valid_date(y, m, d),
        days_from_civil(y, m, d) == days,
    ensures
        civil_date(days) == (y, m, d),
{
    let w = (y, m, d);
    assert(valid_date(w.0, w.1, w.2) && days_from_civil(w.0, w.1, w.2) == days);
    assert(exists|date: (int, int, int)|
        valid_date(date.0, date.1, date.2) && days_from_civil(date.0, date.1, date.2) == days);
    let date = civil_date(days);
    assert(valid_date(date.0, date.1, date.2) && days_from_civil(date.0, date.1, date.2) == days);
    lemma_civil_date_unique(date.0, date.1, date.2, y, m, d);
}

/// Every day count from the epoch up to `MAX_YMD_DAYS` has a calendar date,
/// and its year fits in `u32`.
pub proof fn lemma_civil_date(days: int)
    requires
        0 <= days <= MAX_YMD_DAYS,
    ensures
        ({
            let date = civil_date(days);
            &&& valid_date(date.0, date.1, date.2)
            &&& days_from_civil(date.0, date.1, date.2) == days
            &&& date.0 <= u32::MAX
        }),
{
    let z: int = days + 719468;
    let era: int = z / 146097;
    let doe: int = z - era * 146097;
    lemma_year_of_era(doe);
    let yoe: int = (doe - doe / 1460 + doe / 36524 - doe / 146096) / 365;
    let yp: int = 400 * era + yoe;
    let doy: int = doe - era_year_start(yoe);
    lemma_march_start_era(era, yoe);
    lemma_leap_era(era, yoe + 1);
    lemma_civil_from_march(yp, doy, z);
    let mp: int = (5 * doy + 2) / 153;
    let d: int = doy - march_month_start(mp) + 1;
    let m: int = if mp < 10 {
        mp + 3
    } else {
        mp - 9
    };
    let y: int = if m <= 2 {
        yp + 1
    } else {
        yp
    };
    lemma_days_before_year_closed(4294967296);
    if y >= 4294967296 {
        lemma_days_before_year_monotone(4294967296, y);
        assert(false);
    }
    lemma_civil_date_is(days, y, m, d);
}

/// Converts a count of days since 1970-01-01 into the calendar date
/// `(year, month, day)` (Howard Hinnant's `civil_from_days`).
pub fn days_to_ymd(days: u64) -> (r: (u32, u32, u32))
    requires
        days <= MAX_YMD_DAYS,
    ensures
        valid_date(r.0 as int, r.1 as int, r.2 as int),
        days_from_civil(r.0 as int, r.1 as int, r.2 as int) == days,
        (r.0 as int, r.1 as int, r.2 as int) == civil_date(days as int),
{
    let z: i64 = days as i64 + 719_468;
    let era: i64 = (if z >= 0 {
        z
    } else {
        z - 146_096
    }) / 146_097;
    let doe: u32 = (z - era * 146_097) as u32;
    proof {
        lemma_year_of_era(doe as int);
    }
    let yoe: u32 = (doe - doe / 1_460 + doe / 36_524 - doe / 146_096) / 365;
    let y: i64 = yoe as i64 + era * 400;
    let doy: u32 = doe - (365 * yoe + yoe / 4 - yoe / 100);
    proof {
        lemma_march_start_era(era as int, yoe as int);
        lemma_leap_era(era as int, yoe as int + 1);
        assert(400 * era + yoe + 1 == y + 1);
        lemma_civil_from_march(y as int, doy as int, z as int);
        lemma_march_month(doy as int);
    }
    let mp: u32 = (5 * doy + 2) / 153;
    let d: u32 = doy - (153 * mp + 2) / 5 + 1;
    let m: u32 = if mp < 10 {
        mp + 3
    } else {
        mp - 9
    };
    let y: i64 = if m <= 2 {
        y + 1
    } else {
        y
    };
    proof {
        // The year fits in `u32`.
        lemma_days_before_year_closed(4294967296);
        if y >= 4294967296 {
            lemma_days_before_year_monotone(4294967296, y as int);
            assert(false);
        }
        lemma_civil_date_is(days as int, y as int, m as int, d as int);
    }
    (y as u32, m, d)
}

} // verus!
