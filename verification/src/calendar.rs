//! The Gregorian calendar that the day-count arithmetic of
//! [`crate::watch_friend::civil_date`] follows: from 0000-03-01 on, each
//! day count is a valid date, and the next count is the next date.
use vstd::prelude::*;

use crate::watch_friend::civil_date;

verus! {

/// Whether `y` is a Gregorian leap year.
pub open spec fn is_leap_year(y: int) -> bool {
    y % 4 == 0 && (y % 100 != 0 || y % 400 == 0)
}

/// The number of days of month `m` of year `y`.
pub open spec fn days_in_month(y: int, m: int) -> int {
    if m == 2 {
        if is_leap_year(y) {
            29
        } else {
            28
        }
    } else if m == 4 || m == 6 || m == 9 || m == 11 {
        30
    } else {
        31
    }
}

/// Whether `(year, month, day)` names a day of the calendar.
pub open spec fn valid_date(ymd: (int, int, int)) -> bool {
    1 <= ymd.1 <= 12 && 1 <= ymd.2 <= days_in_month(ymd.0, ymd.1)
}

/// The day after `(year, month, day)`.
pub open spec fn next_date(ymd: (int, int, int)) -> (int, int, int) {
    if ymd.2 < days_in_month(ymd.0, ymd.1) {
        (ymd.0, ymd.1, ymd.2 + 1)
    } else if ymd.1 < 12 {
        (ymd.0, ymd.1 + 1, 1)
    } else {
        (ymd.0 + 1, 1, 1)
    }
}

// The steps of the day-count arithmetic: within a 400-year era, a day
// (`doe`) falls in the year `yoe_of(doe)` of the era, counted from March;
// a day of such a year (`doy`) falls in a month and a day of the month.
spec fn yoe_of(doe: int) -> int {
    (doe - doe / 1_460 + doe / 36_524 - doe / 146_096) / 365
}

spec fn year_start(k: int) -> int {
    365 * k + k / 4 - k / 100
}

spec fn year_end(k: int) -> int {
    if k == 399 {
        146_097
    } else {
        year_start(k + 1)
    }
}

spec fn mp_of(doy: int) -> int {
    (5 * doy + 2) / 153
}

spec fn day_of(doy: int) -> int {
    doy - (153 * mp_of(doy) + 2) / 5 + 1
}

spec fn month_of(doy: int) -> int {
    if mp_of(doy) < 10 {
        mp_of(doy) + 3
    } else {
        mp_of(doy) - 9
    }
}

/// What is checked of year `k` of an era: where it begins and ends, and
/// that it has a leap day exactly when the calendar year in which it ends
/// is a leap year.
spec fn era_year_ok(k: int) -> bool {
    &&& yoe_of(year_start(k)) == k
    &&& yoe_of(year_end(k) - 1) == k
    &&& year_end(k) - year_start(k) == if is_leap_year(k + 1) {
        366int
    } else {
        365int
    }
}

/// What is checked of day `doy` of a year counted from March: its month
/// and day are valid (February has its 29th only as the year's last day),
/// and the next day follows.
spec fn year_day_ok(doy: int) -> bool {
    &&& 1 <= month_of(doy) <= 12
    &&& 1 <= day_of(doy)
    &&& (month_of(doy) == 2 ==> day_of(doy) == doy - 336)
    &&& (month_of(doy) != 2 ==> day_of(doy) <= days_in_month(1, month_of(doy)))
    &&& (month_of(doy) <= 2 <==> doy >= 306)
    &&& (doy < 365 ==> if month_of(doy) == 2 {
        month_of(doy + 1) == 2 && day_of(doy + 1) == day_of(doy) + 1
    } else if day_of(doy) < days_in_month(1, month_of(doy)) {
        month_of(doy + 1) == month_of(doy) && day_of(doy + 1) == day_of(doy) + 1
    } else {
        month_of(doy + 1) == (if month_of(doy) == 12 {
            1int
        } else {
            month_of(doy) + 1
        }) && day_of(doy + 1) == 1
    })
}

/// Lemma: `x / c` is `q` when `x` lies in `[c * q, c * q + c)`.
proof fn lemma_div_by(x: int, c: int, q: int)
    requires
        c > 0,
        c * q <= x,
        x < c * q + c,
    ensures
        x / c == q,
        x % c == x - c * q,
{
    assert(x == q * c + (x - c * q)) by (nonlinear_arith);
    vstd::arithmetic::div_mod::lemma_fundamental_div_mod_converse(x, c, q, x - c * q);
}

/// Lemma: `k` as `c * (k / c) + k % c` with the remainder in range.
proof fn lemma_split(k: int, c: int)
    requires
        c > 0,
    ensures
        k == c * (k / c) + k % c,
        0 <= k % c < c,
{
    vstd::arithmetic::div_mod::lemma_fundamental_div_mod(k, c);
    vstd::arithmetic::div_mod::lemma_mod_bound(k, c);
}

proof fn lemma_era_year_start(k: int)
    requires
        0 <= k < 400,
    ensures
        yoe_of(year_start(k)) == k,
{
    lemma_split(k, 4);
    lemma_split(k, 100);
    let a = k / 4;
    let c = k / 100;
    let doe = year_start(k);
    lemma_div_by(doe, 1_460, a);
    lemma_div_by(doe, 36_524, c);
    lemma_div_by(doe, 146_096, 0);
    lemma_div_by(365 * k, 365, k);
}

proof fn lemma_era_year_end(k: int)
    requires
        0 <= k < 400,
    ensures
        yoe_of(year_end(k) - 1) == k,
{
    if k == 399 {
        lemma_div_by(146_096, 1_460, 100);
        lemma_div_by(146_096, 36_524, 4);
        lemma_div_by(146_096, 146_096, 1);
        lemma_div_by(145_999, 365, 399);
    } else {
        let k1 = k + 1;
        lemma_split(k1, 4);
        lemma_split(k1, 100);
        let a = k1 / 4;
        let c = k1 / 100;
        let doe = year_start(k1) - 1;
        lemma_div_by(doe, 1_460, a);
        lemma_div_by(doe, 146_096, 0);
        if k1 % 100 == 0 {
            lemma_div_by(doe, 36_524, c - 1);
            lemma_div_by(365 * k1 - 2, 365, k);
        } else {
            lemma_div_by(doe, 36_524, c);
            lemma_div_by(365 * k1 - 1, 365, k);
        }
    }
}

proof fn lemma_era_year_length(k: int)
    requires
        0 <= k < 400,
    ensures
        year_end(k) - year_start(k) == if is_leap_year(k + 1) {
            366int
        } else {
            365int
        },
{
    if k == 399 {
        lemma_split(399, 4);
        lemma_split(399, 100);
        lemma_div_by(399, 4, 99);
        lemma_div_by(399, 100, 3);
        lemma_div_by(400, 4, 100);
        lemma_div_by(400, 100, 4);
        lemma_div_by(400, 400, 1);
    } else {
        let k1 = k + 1;
        lemma_split(k, 4);
        lemma_split(k, 100);
        lemma_split(k1, 4);
        lemma_split(k1, 100);
        lemma_div_by(k1, 400, 0);
    }
}

proof fn lemma_era_year(k: int)
    requires
        0 <= k < 400,
    ensures
        era_year_ok(k),
{
    lemma_era_year_start(k);
    lemma_era_year_end(k);
    lemma_era_year_length(k);
}

spec fn month_start(j: int) -> int {
    (153 * j + 2) / 5
}

/// The month (counted from March, from zero) in which day `doy` of a year
/// counted from March falls, by the table of month starts.
spec fn month_index(doy: int) -> int {
    if doy < 31 {
        0
    } else if doy < 61 {
        1
    } else if doy < 92 {
        2
    } else if doy < 122 {
        3
    } else if doy < 153 {
        4
    } else if doy < 184 {
        5
    } else if doy < 214 {
        6
    } else if doy < 245 {
        7
    } else if doy < 275 {
        8
    } else if doy < 306 {
        9
    } else if doy < 337 {
        10
    } else {
        11
    }
}

proof fn lemma_month_starts()
    ensures
        month_start(0) == 0,
        month_start(1) == 31,
        month_start(2) == 61,
        month_start(3) == 92,
        month_start(4) == 122,
        month_start(5) == 153,
        month_start(6) == 184,
        month_start(7) == 214,
        month_start(8) == 245,
        month_start(9) == 275,
        month_start(10) == 306,
        month_start(11) == 337,
        month_start(12) == 367,
{
    lemma_div_by(2, 5, 0);
    lemma_div_by(155, 5, 31);
    lemma_div_by(308, 5, 61);
    lemma_div_by(461, 5, 92);
    lemma_div_by(614, 5, 122);
    lemma_div_by(767, 5, 153);
    lemma_div_by(920, 5, 184);
    lemma_div_by(1073, 5, 214);
    lemma_div_by(1226, 5, 245);
    lemma_div_by(1379, 5, 275);
    lemma_div_by(1532, 5, 306);
    lemma_div_by(1685, 5, 337);
    lemma_div_by(1838, 5, 367);
}

proof fn lemma_month_at(doy: int, j: int)
    requires
        0 <= j < 12,
        month_start(j) <= doy < month_start(j + 1),
    ensures
        mp_of(doy) == j,
        day_of(doy) == doy - month_start(j) + 1,
{
    lemma_split(153 * j + 2, 5);
    lemma_split(153 * (j + 1) + 2, 5);
    lemma_div_by(5 * doy + 2, 153, j);
}

proof fn lemma_month_of(doy: int)
    requires
        0 <= doy < 366,
    ensures
        mp_of(doy) == month_index(doy),
        day_of(doy) == doy - month_start(month_index(doy)) + 1,
{
    lemma_month_starts();
    lemma_month_at(doy, month_index(doy));
}

proof fn lemma_year_day(doy: int)
    requires
        0 <= doy < 366,
    ensures
        year_day_ok(doy),
{
    lemma_month_starts();
    lemma_month_of(doy);
    if doy < 365 {
        lemma_month_of(doy + 1);
    }
}

/// Lemma: dividing by `c` keeps the order, and the quotients grow no
/// faster than the numbers.
proof fn lemma_div_step(x: int, y: int, c: int)
    requires
        0 <= x <= y,
        c > 0,
    ensures
        x / c <= y / c,
        y / c - x / c <= y - x,
{
    lemma_split(x, c);
    lemma_split(y, c);
    let qx = x / c;
    let qy = y / c;
    if qy < qx {
        assert(c * qy + c <= c * qx) by (nonlinear_arith)
            requires
                qy + 1 <= qx,
                c > 0,
        ;
    }
    if qy > qx {
        assert(c * (qy - qx) - (c - 1) >= qy - qx) by (nonlinear_arith)
            requires
                qy - qx >= 1,
                c > 0,
        ;
        assert(c * qy - c * qx == c * (qy - qx)) by (nonlinear_arith);
    }
}

spec fn era_count(doe: int) -> int {
    doe - doe / 1_460 + doe / 36_524 - doe / 146_096
}

proof fn lemma_yoe_monotone(d1: int, d2: int)
    requires
        0 <= d1 <= d2 <= 146_096,
    ensures
        yoe_of(d1) <= yoe_of(d2),
{
    lemma_div_step(d1, d2, 1_460);
    lemma_div_step(d1, d2, 36_524);
    lemma_div_step(d1, d2, 146_096);
    if d2 == 146_096 && d1 < 146_096 {
        lemma_div_by(146_096, 146_096, 1);
        lemma_div_by(d1, 146_096, 0);
        lemma_div_by(146_096, 36_524, 4);
        lemma_split(d1, 36_524);
    } else if d2 < 146_096 {
        lemma_div_by(d1, 146_096, 0);
        lemma_div_by(d2, 146_096, 0);
    }
    assert(era_count(d1) <= era_count(d2));
    lemma_div_step(era_count(d1), era_count(d2), 365);
}

/// Lemma: the days of the era from the start of year `k` to the end of
/// year `k` fall in year `k`.
proof fn lemma_yoe_in_year(doe: int, k: int)
    requires
        0 <= k < 400,
        year_start(k) <= doe < year_end(k),
    ensures
        yoe_of(doe) == k,
{
    lemma_era_year(k);
    lemma_split(k, 4);
    lemma_split(k, 100);
    lemma_yoe_monotone(year_start(k), doe);
    lemma_yoe_monotone(doe, year_end(k) - 1);
}

/// Lemma: every day of an era falls in the year of the era that
/// `yoe_of` names.
proof fn lemma_yoe_bounds(doe: int)
    requires
        0 <= doe <= 146_096,
    ensures
        0 <= yoe_of(doe) < 400,
        year_start(yoe_of(doe)) <= doe < year_end(yoe_of(doe)),
{
    lemma_era_year(0);
    lemma_era_year(399);
    lemma_yoe_monotone(0, doe);
    lemma_yoe_monotone(doe, 146_096);
    let k = yoe_of(doe);
    if doe < year_start(k) {
        lemma_era_year(k - 1);
        lemma_yoe_monotone(doe, year_end(k - 1) - 1);
    }
    if doe >= year_end(k) {
        lemma_era_year(k + 1);
        lemma_yoe_monotone(year_start(k + 1), doe);
    }
}

/// The date of day `doe` of era `era` (eras of 400 years begin on March
/// 1 of the years divisible by 400).
spec fn date_in_era(era: int, doe: int) -> (int, int, int) {
    let yoe = yoe_of(doe);
    let doy = doe - year_start(yoe);
    let month = month_of(doy);
    (yoe + era * 400 + if month <= 2 {
        1int
    } else {
        0int
    }, month, day_of(doy))
}

proof fn lemma_leap_shift(n: int, era: int)
    ensures
        is_leap_year(n + era * 400) == is_leap_year(n),
{
    assert(n + era * 400 == 4 * (era * 100) + n);
    assert(n + era * 400 == 100 * (era * 4) + n);
    assert(n + era * 400 == 400 * era + n);
    vstd::arithmetic::div_mod::lemma_mod_multiples_vanish(era * 100, n, 4);
    vstd::arithmetic::div_mod::lemma_mod_multiples_vanish(era * 4, n, 100);
    vstd::arithmetic::div_mod::lemma_mod_multiples_vanish(era, n, 400);
}

/// Where day `doe` of an era falls: its year `k` of the era, which has
/// `len` days, and its day `doy` of that year.
proof fn lemma_era_day(doe: int) -> (r: (int, int, int))
    requires
        0 <= doe <= 146_096,
    ensures
        r.0 == yoe_of(doe),
        0 <= r.0 < 400,
        r.2 == doe - year_start(r.0),
        0 <= r.2 < r.1,
        r.1 == year_end(r.0) - year_start(r.0),
        r.1 == if is_leap_year(r.0 + 1) {
            366int
        } else {
            365int
        },
        year_day_ok(r.2),
{
    lemma_yoe_bounds(doe);
    let k = yoe_of(doe);
    lemma_era_year(k);
    let doy = doe - year_start(k);
    lemma_year_day(doy);
    (k, year_end(k) - year_start(k), doy)
}

proof fn lemma_era_date_valid(era: int, doe: int)
    requires
        0 <= doe <= 146_096,
    ensures
        valid_date(date_in_era(era, doe)),
{
    let (k, len, doy) = lemma_era_day(doe);
    lemma_leap_shift(k + 1, era);
    assert(k + era * 400 + 1 == (k + 1) + era * 400);
}

/// Lemma: the last day of a year of an era is February's last day.
proof fn lemma_year_last_day(era: int, k: int, len: int)
    requires
        0 <= k < 400,
        len == if is_leap_year(k + 1) {
            366int
        } else {
            365int
        },
        year_day_ok(len - 1),
    ensures
        month_of(len - 1) == 2,
        day_of(len - 1) == days_in_month(k + era * 400 + 1, 2),
{
    lemma_leap_shift(k + 1, era);
    assert(k + era * 400 + 1 == (k + 1) + era * 400);
    lemma_month_of(len - 1);
    lemma_month_starts();
}

proof fn lemma_era_date_next(era: int, doe: int)
    requires
        0 <= doe < 146_096,
    ensures
        date_in_era(era, doe + 1) == next_date(date_in_era(era, doe)),
{
    let (k, len, doy) = lemma_era_day(doe);
    lemma_leap_shift(k + 1, era);
    assert(k + era * 400 + 1 == (k + 1) + era * 400);
    if doe + 1 < year_end(k) {
        lemma_yoe_in_year(doe + 1, k);
        lemma_year_day(doy + 1);
        if month_of(doy) == 2 {
            lemma_year_last_day(era, k, len);
            assert(doy + 1 <= len - 1);
        }
    } else {
        assert(k < 399);
        lemma_era_year(k + 1);
        assert(yoe_of(doe + 1) == k + 1);
        lemma_year_day(0);
        lemma_month_of(0);
        lemma_month_starts();
        lemma_year_last_day(era, k, len);
        assert(doy == len - 1);
    }
}

proof fn lemma_era_date_wrap(era: int)
    ensures
        date_in_era(era + 1, 0) == next_date(date_in_era(era, 146_096)),
{
    let (k, len, doy) = lemma_era_day(146_096);
    lemma_era_year(0);
    lemma_era_year(399);
    assert(k == 399);
    lemma_year_day(0);
    lemma_month_of(0);
    lemma_month_starts();
    lemma_year_last_day(era, 399, len);
    assert(doy == len - 1);
    assert(year_start(0) == 0);
}

/// Law: from 0000-02-29 on (day -719469 counted from 1970-01-01), every
/// day count is a valid date of the Gregorian calendar, and the next day
/// count is the next date.
pub proof fn lemma_civil_date_counts_days(days: int)
    requires
        days >= -719_469,
    ensures
        valid_date(civil_date(days)),
        civil_date(days + 1) == next_date(civil_date(days)),
{
    let z = days + 719_468;
    if z >= 0 {
        lemma_split(z, 146_097);
        let era = z / 146_097;
        let doe = z - era * 146_097;
        assert(civil_date(days) == date_in_era(era, doe));
        lemma_era_date_valid(era, doe);
        if doe < 146_096 {
            lemma_div_by(z + 1, 146_097, era);
            assert(civil_date(days + 1) == date_in_era(era, doe + 1));
            lemma_era_date_next(era, doe);
        } else {
            lemma_div_by(z + 1, 146_097, era + 1);
            assert(civil_date(days + 1) == date_in_era(era + 1, 0));
            lemma_era_date_wrap(era);
        }
    } else {
        lemma_div_by(-146_097, 146_097, -1);
        lemma_div_by(0, 146_097, 0);
        assert(civil_date(days) == date_in_era(-1, 146_096));
        assert(civil_date(days + 1) == date_in_era(0, 0));
        lemma_era_date_valid(-1, 146_096);
        lemma_era_date_wrap(-1);
    }
}

/// Law: day 0 is 1970-01-01.
pub proof fn lemma_civil_date_epoch()
    ensures
        civil_date(0) == (1970int, 1int, 1int),
{
    lemma_div_by(719_468, 146_097, 4);
    lemma_div_by(135_080, 1_460, 92);
    lemma_div_by(135_080, 36_524, 3);
    lemma_div_by(135_080, 146_096, 0);
    lemma_div_by(134_991, 365, 369);
    lemma_div_by(369, 4, 92);
    lemma_div_by(369, 100, 3);
    lemma_div_by(1_532, 153, 10);
    lemma_div_by(1_532, 5, 306);
}

} // verus!
