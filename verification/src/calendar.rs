use vstd::prelude::*;

verus! {

/// Gregorian leap-year rule.
pub open spec fn is_leap_year(year: int) -> bool {
    (year % 4 == 0 && year % 100 != 0) || year % 400 == 0
}

/// Length of `month` (1-based) of `year`.
pub open spec fn days_in_month(year: int, month: int) -> int {
    if month == 2 {
        if is_leap_year(year) { 29 } else { 28 }
    } else if month == 4 || month == 6 || month == 9 || month == 11 {
        30
    } else {
        31
    }
}

/// A real day of the proleptic Gregorian calendar.
pub open spec fn is_valid_date(year: int, month: int, day: int) -> bool {
    1 <= month <= 12 && 1 <= day <= days_in_month(year, month)
}

/// Days before the first day of year index `k` of a 400-year era that
/// starts on a March 1st.
pub open spec fn era_year_start(k: int) -> int {
    365 * k + k / 4 - k / 100 + k / 400
}

/// Days from March 1st to the first day of the March-based month `mp`
/// (0 = March, ..., 11 = February).
pub open spec fn month_start(mp: int) -> int {
    (153 * mp + 2) / 5
}

/// Signed day count of a date relative to 1970-01-01: eras of 146097 days
/// that start on March 1st of years divisible by 400.
pub open spec fn days_from_civil(year: int, month: int, day: int) -> int {
    let y = if month <= 2 { year - 1 } else { year };
    let era = y / 400;
    let yoe = y - era * 400;
    let mp = if month > 2 { month - 3 } else { month + 9 };
    146097 * era + era_year_start(yoe) + month_start(mp) + day - 1 - 719468
}

proof fn lemma_year_of_era(doe: int)
    requires
        0 <= doe < 146097,
    ensures
        ({
            let yoe = (doe - doe / 1460 + doe / 36524 - doe / 146096) / 365;
            &&& 0 <= yoe <= 399
            &&& era_year_start(yoe) <= doe < era_year_start(yoe + 1)
        }),
{
}


proof fn lemma_month_of_year(doy: int)
    requires
        0 <= doy < 366,
    ensures
        ({
            let mp = (5 * doy + 2) / 153;
            &&& 0 <= mp <= 11
            &&& month_start(mp) <= doy
            &&& mp < 11 ==> doy < month_start(mp + 1)
            &&& mp < 11 ==> month_start(mp + 1) - month_start(mp) == days_in_month(
                1,
                if mp < 10 { mp + 3 } else { mp - 9 },
            )
            &&& month_start(11) == 337
        }),
{
}

proof fn lemma_civil(z: int, era: int, doe: int, yoe: int, doy: int, mp: int)
    requires
        era == z / 146097,
        doe == z - era * 146097,
        yoe == (doe - doe / 1460 + doe / 36524 - doe / 146096) / 365,
        doy == doe - (365 * yoe + yoe / 4 - yoe / 100),
        mp == (5 * doy + 2) / 153,
    ensures
        0 <= doe < 146097,
        0 <= yoe <= 399,
        0 <= doy < 366,
        0 <= mp <= 11,
        ({
            let day = doy - (153 * mp + 2) / 5 + 1;
            let month = if mp < 10 { mp + 3 } else { mp - 9 };
            let year = yoe + era * 400 + (if month <= 2 { 1int } else { 0int });
            &&& is_valid_date(year, month, day)
            &&& days_from_civil(year, month, day) == z - 719468
        }),
{
    lemma_year_of_era(doe);
    assert(era_year_start(yoe) == 365 * yoe + yoe / 4 - yoe / 100);
    assert(era_year_start(yoe + 1) - era_year_start(yoe) <= 366);
    lemma_month_of_year(doy);
    let day = doy - (153 * mp + 2) / 5 + 1;
    let month = if mp < 10 { mp + 3 } else { mp - 9 };
    let year = yoe + era * 400 + (if month <= 2 { 1int } else { 0int });
    let y = if month <= 2 { year - 1 } else { year };
    assert(y == yoe + era * 400);
    assert(y / 400 == era);
    assert(y - (y / 400) * 400 == yoe);
    if mp == 11 {
        assert(year == yoe + 1 + era * 400);
        assert(year % 4 == (yoe + 1) % 4);
        assert(year % 100 == (yoe + 1) % 100);
        assert(year % 400 == (yoe + 1) % 400);
        assert(day <= days_in_month(year, month));
    }
}

/// Converts days since 1970-01-01 into the (year, month, day) of the
/// proleptic Gregorian calendar (Howard Hinnant's `civil_from_days`).
pub fn civil_from_days(days: i64) -> (date: (i64, u32, u32))
    requires
        days <= i64::MAX - 719_468,
    ensures
        is_valid_date(date.0 as int, date.1 as int, date.2 as int),
        days_from_civil(date.0 as int, date.1 as int, date.2 as int) == days,
{
    let z = days + 719_468;
    let era = (if z >= 0 { z } else { z - 146_096 }) / 146_097;
    assert(era == z / 146_097);
    let day_of_era = z - era * 146_097;
    let year_of_era = (day_of_era - day_of_era / 1460 + day_of_era / 36_524 - day_of_era / 146_096)
        / 365;
    let year = year_of_era + era * 400;
    let day_of_year = day_of_era - (365 * year_of_era + year_of_era / 4 - year_of_era / 100);
    proof {
        lemma_civil(
            z as int,
            era as int,
            day_of_era as int,
            year_of_era as int,
            day_of_year as int,
            (5 * day_of_year + 2) / 153,
        );
    }
    let month_pre = (5 * day_of_year + 2) / 153;
    let day = (day_of_year - (153 * month_pre + 2) / 5 + 1) as u32;
    let month = (if month_pre < 10 { month_pre + 3 } else { month_pre - 9 }) as u32;
    (if month <= 2 { year + 1 } else { year }, month, day)
}


proof fn lemma_year_length(k: int)
    requires
        0 <= k <= 399,
    ensures
        era_year_start(k + 1) - era_year_start(k) == if is_leap_year(k + 1) { 366int } else { 365int },
{
}

proof fn lemma_leap_shift(y: int, era: int)
    ensures
        is_leap_year(y + 400 * era) == is_leap_year(y),
{
    assert((y + 400 * era) % 4 == y % 4);
    assert((y + 400 * era) % 100 == y % 100);
    assert((y + 400 * era) % 400 == y % 400);
}

proof fn lemma_month_lengths(mp: int)
    requires
        0 <= mp <= 10,
    ensures
        month_start(mp + 1) - month_start(mp) == days_in_month(1, if mp < 10 { mp + 3 } else { mp - 9 }),
        month_start(mp + 1) <= month_start(11),
        month_start(11) == 337,
{
}

/// Position of a valid date inside its 400-year era: its era, its
/// March-based year within the era, and its day within that year.
proof fn lemma_date_position(year: int, month: int, day: int)
    requires
        is_valid_date(year, month, day),
    ensures
        ({
            let y = if month <= 2 { year - 1 } else { year };
            let era = y / 400;
            let yoe = y - era * 400;
            let mp = if month > 2 { month - 3 } else { month + 9 };
            let doy = month_start(mp) + day - 1;
            &&& 0 <= yoe <= 399
            &&& 0 <= mp <= 11
            &&& month_start(mp) <= doy
            &&& (mp < 11 ==> doy < month_start(mp + 1))
            &&& 0 <= doy < era_year_start(yoe + 1) - era_year_start(yoe)
            &&& 0 <= era_year_start(yoe) + doy < 146097
        }),
{
    let y = if month <= 2 { year - 1 } else { year };
    let era = y / 400;
    let yoe = y - era * 400;
    let mp = if month > 2 { month - 3 } else { month + 9 };
    let doy = month_start(mp) + day - 1;
    assert(0 <= yoe <= 399);
    lemma_year_length(yoe);
    if mp < 11 {
        lemma_month_lengths(mp);
        assert(days_in_month(1, month) == days_in_month(year, month));
    } else {
        assert(month == 2);
        assert(year == (yoe + 1) + 400 * era);
        lemma_leap_shift(yoe + 1, era);
        lemma_month_lengths(10);
    }
    assert(era_year_start(yoe + 1) <= era_year_start(400)) by {
        lemma_era_year_start_monotone(yoe, 400);
    }
}

/// Two valid dates with the same day count are the same date, so
/// [`civil_from_days`] gives back the date a day count came from.
pub proof fn lemma_days_from_civil_injective(
    y1: int,
    m1: int,
    d1: int,
    y2: int,
    m2: int,
    d2: int,
)
    requires
        is_valid_date(y1, m1, d1),
        is_valid_date(y2, m2, d2),
        days_from_civil(y1, m1, d1) == days_from_civil(y2, m2, d2),
    ensures
        y1 == y2 && m1 == m2 && d1 == d2,
{
    lemma_date_position(y1, m1, d1);
    lemma_date_position(y2, m2, d2);
    let ya = if m1 <= 2 { y1 - 1 } else { y1 };
    let yb = if m2 <= 2 { y2 - 1 } else { y2 };
    let ea = ya / 400;
    let eb = yb / 400;
    let ka = ya - ea * 400;
    let kb = yb - eb * 400;
    let pa = if m1 > 2 { m1 - 3 } else { m1 + 9 };
    let pb = if m2 > 2 { m2 - 3 } else { m2 + 9 };
    let doe_a = era_year_start(ka) + month_start(pa) + d1 - 1;
    let doe_b = era_year_start(kb) + month_start(pb) + d2 - 1;
    assert(146097 * ea + doe_a == 146097 * eb + doe_b);
    assert(ea == eb);
    assert(doe_a == doe_b);
    if ka < kb {
        lemma_era_year_start_monotone(ka, kb);
    }
    if kb < ka {
        lemma_era_year_start_monotone(kb, ka);
    }
    assert(ka == kb);
    assert(month_start(pa) + d1 == month_start(pb) + d2);
    if pa < pb {
        lemma_month_start_monotone(pa, pb);
    }
    if pb < pa {
        lemma_month_start_monotone(pb, pa);
    }
    assert(pa == pb);
}

proof fn lemma_era_year_start_monotone(a: int, b: int)
    requires
        0 <= a < b <= 400,
    ensures
        era_year_start(a + 1) <= era_year_start(b),
{
    assert((a + 1) / 4 <= b / 4);
    assert((a + 1) / 100 <= b / 100);
    assert(b / 100 - (a + 1) / 100 <= (b - (a + 1)) / 100 + 1);
}

proof fn lemma_month_start_monotone(a: int, b: int)
    requires
        0 <= a < b <= 11,
    ensures
        month_start(a + 1) <= month_start(b),
{
}

/// The day after a date.
pub open spec fn next_date(year: int, month: int, day: int) -> (int, int, int) {
    if day < days_in_month(year, month) {
        (year, month, day + 1)
    } else if month < 12 {
        (year, month + 1, 1)
    } else {
        (year + 1, 1, 1)
    }
}

/// Consecutive day counts are consecutive dates: the day after a valid
/// date is valid and counts one more day.
pub proof fn lemma_next_date(year: int, month: int, day: int)
    requires
        is_valid_date(year, month, day),
    ensures
        is_valid_date(next_date(year, month, day).0, next_date(year, month, day).1, next_date(year, month, day).2),
        days_from_civil(next_date(year, month, day).0, next_date(year, month, day).1, next_date(year, month, day).2)
            == days_from_civil(year, month, day) + 1,
{
    if day < days_in_month(year, month) {
    } else if month < 12 {
        if month == 2 {
            let y = year - 1;
            let era = y / 400;
            let k = y - era * 400;
            lemma_year_length(k);
            lemma_leap_shift(k + 1, era);
            assert(year == (k + 1) + 400 * era);
            if k == 399 {
                assert(year / 400 == era + 1);
                assert(era_year_start(400) == 146097);
            } else {
                assert(year / 400 == era);
            }
        } else if month == 1 {
            lemma_month_lengths(10);
        } else {
            lemma_month_lengths(month - 3);
            assert(days_in_month(1, month) == days_in_month(year, month));
        }
    } else {
        lemma_month_lengths(9);
        assert(year / 400 == (year + 1 - 1) / 400);
    }
}

/// 1970-01-01 is day 0.
pub proof fn lemma_epoch()
    ensures
        is_valid_date(1970, 1, 1),
        days_from_civil(1970, 1, 1) == 0,
{
}

/// The UTC calendar date and the seconds into that day of a Unix time.
pub fn date_from_unix_seconds(seconds: i64) -> (date: (i64, u32, u32, i64))
    ensures
        is_valid_date(date.0 as int, date.1 as int, date.2 as int),
        days_from_civil(date.0 as int, date.1 as int, date.2 as int) == seconds as int / 86_400,
        date.3 == seconds as int % 86_400,
{
    let mut days = seconds / 86_400;
    let mut time_of_day = seconds % 86_400;
    if time_of_day < 0 {
        days -= 1;
        time_of_day += 86_400;
    }
    assert(days == seconds as int / 86_400 && time_of_day == seconds as int % 86_400);
    let (year, month, day) = civil_from_days(days);
    (year, month, day, time_of_day)
}

} // verus!
