//! RFC3339 UTC timestamps (`YYYY-MM-DDTHH:MM:SSZ`) from seconds since the
//! Unix epoch, on the proleptic Gregorian calendar.

use vstd::prelude::*;

use crate::number::{
    all_digits, decimal, digit_char, is_digit, lemma_decimal_digits, lemma_decimal_len, padded, push_padded,
};
use crate::text::{
    lemma_str_gt_common_prefix, lemma_str_gt_prefix_decides, str_gt, string_of,
};

verus! {

pub open spec fn is_leap(y: int) -> bool {
    y % 4 == 0 && (y % 100 != 0 || y % 400 == 0)
}

pub open spec fn days_in_year(y: int) -> int {
    if is_leap(y) {
        366
    } else {
        365
    }
}

pub open spec fn days_in_month(y: int, m: int) -> int {
    if m == 2 {
        if is_leap(y) {
            29
        } else {
            28
        }
    } else if m == 4 || m == 6 || m == 9 || m == 11 {
        30
    } else {
        31
    }
}

/// Days from 1970-01-01 to January 1st of year `y` (negative before 1970).
pub open spec fn days_before_year(y: int) -> int
    decreases (if y >= 1970 { y - 1970 } else { 1970 - y }),
{
    if y > 1970 {
        days_before_year(y - 1) + days_in_year(y - 1)
    } else if y < 1970 {
        days_before_year(y + 1) - days_in_year(y)
    } else {
        0
    }
}

/// Days from January 1st of year `y` to the first day of month `m`.
pub open spec fn days_before_month(y: int, m: int) -> int
    decreases m,
{
    if m <= 1 {
        0
    } else {
        days_before_month(y, m - 1) + days_in_month(y, m - 1)
    }
}

pub open spec fn valid_date(y: int, m: int, d: int) -> bool {
    1 <= m <= 12 && 1 <= d <= days_in_month(y, m)
}

/// Days from 1970-01-01 to the date `y-m-d`.
pub open spec fn days_from_civil(y: int, m: int, d: int) -> int {
    days_before_year(y) + days_before_month(y, m) + d - 1
}

/// Leap years among years 1 ..= y-1, counted with floor division (so that
/// differences count leap years for any `y`).
pub open spec fn leaps_before(y: int) -> int {
    (y - 1) / 4 - (y - 1) / 100 + (y - 1) / 400
}

proof fn lemma_div_step4(y: int)
    ensures
        y / 4 - (y - 1) / 4 == (if y % 4 == 0 { 1int } else { 0 }),
{
}

proof fn lemma_div_step100(y: int)
    ensures
        y / 100 - (y - 1) / 100 == (if y % 100 == 0 { 1int } else { 0 }),
{
}

proof fn lemma_div_step400(y: int)
    ensures
        y / 400 - (y - 1) / 400 == (if y % 400 == 0 { 1int } else { 0 }),
{
}

proof fn lemma_leaps_step(y: int)
    ensures
        leaps_before(y + 1) - leaps_before(y) == (if is_leap(y) { 1int } else { 0 }),
{
    lemma_div_step4(y);
    lemma_div_step100(y);
    lemma_div_step400(y);
    lemma_mod_chain(y);
    let a = y / 4 - (y - 1) / 4;
    let b = y / 100 - (y - 1) / 100;
    let c = y / 400 - (y - 1) / 400;
    assert(leaps_before(y + 1) - leaps_before(y) == a - b + c);
}

proof fn lemma_mod_chain(y: int)
    ensures
        y % 100 == 0 ==> y % 4 == 0,
        y % 400 == 0 ==> y % 100 == 0,
{
    if y % 100 == 0 {
        assert(y == 100 * (y / 100));
        assert(y == 4 * (25 * (y / 100)));
    }
    if y % 400 == 0 {
        assert(y == 400 * (y / 400));
        assert(y == 100 * (4 * (y / 400)));
    }
}

proof fn lemma_days_before_year(y: int)
    ensures
        days_before_year(y) == 365 * (y - 1970) + leaps_before(y) - leaps_before(1970),
    decreases (if y >= 1970 { y - 1970 } else { 1970 - y }),
{
    if y > 1970 {
        lemma_days_before_year(y - 1);
        lemma_leaps_step(y - 1);
    } else if y < 1970 {
        lemma_days_before_year(y + 1);
        lemma_leaps_step(y);
    }
}

proof fn lemma_days_before_month(y: int, m: int)
    requires
        1 <= m <= 13,
    ensures
        days_before_month(y, m) == (if m == 1 {
            0int
        } else if m == 2 {
            31
        } else if m == 3 {
            59
        } else if m == 4 {
            90
        } else if m == 5 {
            120
        } else if m == 6 {
            151
        } else if m == 7 {
            181
        } else if m == 8 {
            212
        } else if m == 9 {
            243
        } else if m == 10 {
            273
        } else if m == 11 {
            304
        } else if m == 12 {
            334
        } else {
            365
        }) + (if m > 2 && is_leap(y) { 1int } else { 0 }),
    decreases m,
{
    if m > 1 {
        lemma_days_before_month(y, m - 1);
    }
}

/// Days from March 1st of the first year of a 400-year era to March 1st of
/// its `k`-th year.
pub open spec fn era_year_start(k: int) -> int {
    365 * k + k / 4 - k / 100
}

#[verifier::spinoff_prover]
#[verifier::rlimit(50)]
proof fn lemma_year_of_era(doe: int)
    requires
        0 <= doe <= 146096,
    ensures
        ({
            let yoe = (doe - doe / 1460 + doe / 36524 - doe / 146096) / 365;
            &&& 0 <= yoe <= 399
            &&& era_year_start(yoe) <= doe
            &&& doe < era_year_start(yoe + 1) + (if yoe == 399 { 1int } else { 0 })
        }),
{
}

#[verifier::spinoff_prover]
proof fn lemma_month_of_year(doy: int)
    requires
        0 <= doy <= 365,
    ensures
        ({
            let mp = (5 * doy + 2) / 153;
            &&& 0 <= mp <= 11
            &&& (153 * mp + 2) / 5 <= doy
            &&& mp < 11 ==> doy < (153 * (mp + 1) + 2) / 5
        }),
{
}


#[verifier::spinoff_prover]
proof fn lemma_shift_div(x: int, e: int)
    ensures
        (400 * e + x) / 4 == 100 * e + x / 4,
        (400 * e + x) / 100 == 4 * e + x / 100,
        (400 * e + x) / 400 == e + x / 400,
{
    assert((400 * e + x) / 4 == 100 * e + x / 4) by {
        assert(400 * e + x == 4 * (100 * e) + x);
    }
    assert((400 * e + x) / 100 == 4 * e + x / 100) by {
        assert(400 * e + x == 100 * (4 * e) + x);
    }
}

#[verifier::spinoff_prover]
proof fn lemma_shift_mod(x: int, e: int)
    ensures
        (400 * e + x) % 4 == x % 4,
        (400 * e + x) % 100 == x % 100,
        (400 * e + x) % 400 == x % 400,
{
    assert((400 * e + x) % 4 == x % 4) by {
        assert(400 * e + x == 4 * (100 * e) + x);
    }
    assert((400 * e + x) % 100 == x % 100) by {
        assert(400 * e + x == 100 * (4 * e) + x);
    }
}

proof fn lemma_era_shift(e: int, k: int)
    ensures
        leaps_before(400 * e + k) == 97 * e + leaps_before(k),
        is_leap(400 * e + k) == is_leap(k),
{
    lemma_shift_div(k - 1, e);
    lemma_shift_mod(k, e);
    assert(400 * e + k - 1 == 400 * e + (k - 1));
}

proof fn lemma_era_year_start(k: int)
    requires
        0 <= k <= 399,
    ensures
        era_year_start(k) == 365 * k + leaps_before(k + 1),
        era_year_start(k + 1) + (if k == 399 { 1int } else { 0 }) - era_year_start(k) == 365 + (
        if is_leap(k + 1) {
            1int
        } else {
            0
        }),
{
    lemma_leaps_step(k + 1);
}

/// The date that Howard Hinnant's `civil_from_days` computes for day `z`,
/// written with floor division.
spec fn civil_parts(z: int) -> (int, int, int) {
    let z1 = z + 719468;
    let era = z1 / 146097;
    let doe = z1 - era * 146097;
    let yoe = (doe - doe / 1460 + doe / 36524 - doe / 146096) / 365;
    let y0 = yoe + era * 400;
    let doy = doe - (365 * yoe + yoe / 4 - yoe / 100);
    let mp = (5 * doy + 2) / 153;
    let d = doy - (153 * mp + 2) / 5 + 1;
    let m = if mp < 10 {
        mp + 3
    } else {
        mp - 9
    };
    (if m <= 2 {
        y0 + 1
    } else {
        y0
    }, m, d)
}

proof fn lemma_civil_parts(z: int)
    ensures
        ({
            let (y, m, d) = civil_parts(z);
            valid_date(y, m, d) && days_from_civil(y, m, d) == z
        }),
{
    let z1 = z + 719468;
    let era = z1 / 146097;
    let doe = z1 - era * 146097;
    assert(0 <= doe <= 146096);
    let yoe = (doe - doe / 1460 + doe / 36524 - doe / 146096) / 365;
    lemma_year_of_era(doe);
    let y0 = yoe + era * 400;
    let doy = doe - (365 * yoe + yoe / 4 - yoe / 100);
    lemma_era_year_start(yoe);
    assert(0 <= doy < 365 + (if is_leap(yoe + 1) { 1int } else { 0 }));
    let mp = (5 * doy + 2) / 153;
    lemma_month_of_year(doy);
    let d = doy - (153 * mp + 2) / 5 + 1;
    let m = if mp < 10 {
        mp + 3
    } else {
        mp - 9
    };
    let y = if m <= 2 {
        y0 + 1
    } else {
        y0
    };
    assert(civil_parts(z) == (y, m, d));
    lemma_era_shift(era, yoe);
    lemma_era_shift(era, yoe + 1);
    lemma_days_before_year(y0);
    lemma_days_before_year(y0 + 1);
    lemma_leaps_step(y0);
    lemma_days_before_month(y, m);
    lemma_days_before_month(y, m + 1);
    assert(y0 == 400 * era + yoe);
    // Days from 1970-01-01 to March 1st of year y0.
    assert(days_before_year(y0) + 59 + (if is_leap(y0) { 1int } else { 0 }) == 146097 * era
        + era_year_start(yoe) - 719468);
    if mp < 10 {
        assert(days_before_month(y, m) == 59 + (if is_leap(y0) { 1int } else { 0 }) + (153 * mp
            + 2) / 5);
    } else {
        assert(days_before_year(y0 + 1) == days_before_year(y0) + 365 + (if is_leap(y0) {
            1int
        } else {
            0
        }));
        assert(days_before_month(y, m) + 306 == (153 * mp + 2) / 5);
    }
    assert(days_in_month(y, m) == days_before_month(y, m + 1) - days_before_month(y, m));
}


proof fn lemma_leaps_monotone(a: int, b: int)
    requires
        a <= b,
    ensures
        leaps_before(a) <= leaps_before(b),
    decreases b - a,
{
    if a < b {
        lemma_leaps_step(b - 1);
        lemma_leaps_monotone(a, b - 1);
    }
}

/// A later year starts no earlier than the end of an earlier one.
proof fn lemma_years_ordered(a: int, b: int)
    requires
        a < b,
    ensures
        days_before_year(a) + days_in_year(a) <= days_before_year(b),
{
    lemma_days_before_year(a);
    lemma_days_before_year(a + 1);
    lemma_days_before_year(b);
    lemma_leaps_step(a);
    lemma_leaps_monotone(a + 1, b);
}

/// A valid date falls within its year.
proof fn lemma_date_in_year(y: int, m: int, d: int)
    requires
        valid_date(y, m, d),
    ensures
        days_before_year(y) <= days_from_civil(y, m, d) < days_before_year(y) + days_in_year(y),
{
    lemma_days_before_month(y, m);
    lemma_days_before_month(y, m + 1);
}

/// Law: a day number names at most one valid date.
pub proof fn lemma_date_unique(y1: int, m1: int, d1: int, y2: int, m2: int, d2: int)
    requires
        valid_date(y1, m1, d1),
        valid_date(y2, m2, d2),
        days_from_civil(y1, m1, d1) == days_from_civil(y2, m2, d2),
    ensures
        y1 == y2 && m1 == m2 && d1 == d2,
{
    lemma_date_in_year(y1, m1, d1);
    lemma_date_in_year(y2, m2, d2);
    if y1 < y2 {
        lemma_years_ordered(y1, y2);
    } else if y2 < y1 {
        lemma_years_ordered(y2, y1);
    }
    assert(y1 == y2);
    lemma_days_before_month(y1, m1);
    lemma_days_before_month(y1, m1 + 1);
    lemma_days_before_month(y1, m2);
    lemma_days_before_month(y1, m2 + 1);
}

/// Law: every day number names a valid date.
pub proof fn lemma_date_exists(z: int)
    ensures
        exists|y: int, m: int, d: int| valid_date(y, m, d) && days_from_civil(y, m, d) == z,
{
    lemma_civil_parts(z);
    let (y, m, d) = civil_parts(z);
    assert(valid_date(y, m, d) && days_from_civil(y, m, d) == z);
}

/// The date of day `z` counted from 1970-01-01.
pub open spec fn civil_date(z: int) -> (int, int, int) {
    choose|t: (int, int, int)| valid_date(t.0, t.1, t.2) && days_from_civil(t.0, t.1, t.2) == z
}

proof fn lemma_civil_date(z: int, y: int, m: int, d: int)
    requires
        valid_date(y, m, d),
        days_from_civil(y, m, d) == z,
    ensures
        civil_date(z) == (y, m, d),
{
    let w = (y, m, d);
    assert(valid_date(w.0, w.1, w.2) && days_from_civil(w.0, w.1, w.2) == z);
    let t = civil_date(z);
    lemma_date_unique(t.0, t.1, t.2, y, m, d);
}

/// Days from 1970-01-01 to 10000-01-01.
proof fn lemma_year_10000()
    ensures
        days_before_year(10000) == 2932897,
        days_before_year(1970) == 0,
{
    lemma_days_before_year(10000);
}

/// `secs` seconds after the epoch as `YYYY-MM-DDTHH:MM:SSZ`.
pub open spec fn rfc3339(secs: nat) -> Seq<char> {
    let (y, m, d) = civil_date(secs as int / 86400);
    let rem = secs % 86400;
    padded(y as nat, 4) + seq!['-'] + padded(m as nat, 2) + seq!['-'] + padded(d as nat, 2)
        + seq!['T'] + padded(rem / 3600, 2) + seq![':'] + padded((rem % 3600) / 60, 2) + seq![
        ':',
    ] + padded(rem % 60, 2) + seq!['Z']
}

proof fn lemma_padded_digits(n: nat, w: nat)
    requires
        decimal(n).len() <= w,
    ensures
        padded(n, w).len() == w,
        all_digits(padded(n, w)),
{
    lemma_decimal_digits(n);
    let d = decimal(n);
    let p = padded(n, w);
    if d.len() < w {
        let z = Seq::new((w - d.len()) as nat, |i: int| '0');
        assert(p == z + d);
        assert forall|i: int| 0 <= i < p.len() implies is_digit(#[trigger] p[i]) by {
            if i >= z.len() {
                assert(p[i] == d[i - z.len()]);
            }
        }
    }
}

/// A date counted from 1970 before the year 10000 has a year of four digits.
proof fn lemma_year_range(z: int)
    requires
        0 <= z < 2932897,
    ensures
        1970 <= civil_date(z).0 < 10000,
        valid_date(civil_date(z).0, civil_date(z).1, civil_date(z).2),
        days_from_civil(civil_date(z).0, civil_date(z).1, civil_date(z).2) == z,
{
    lemma_civil_parts(z);
    let (y, m, d) = civil_parts(z);
    lemma_civil_date(z, y, m, d);
    let t = civil_date(z);
    lemma_date_in_year(t.0, t.1, t.2);
    lemma_year_10000();
    if t.0 >= 10000 {
        if t.0 > 10000 {
            lemma_years_ordered(10000, t.0);
        }
    }
    if t.0 < 1970 {
        lemma_years_ordered(t.0, 1970);
    }
}

/// Every instant before the year 10000 is written in the fixed RFC3339 shape
/// `YYYY-MM-DDTHH:MM:SSZ`: twenty characters, digits everywhere but the
/// separators.
pub proof fn lemma_rfc3339_shape(secs: nat)
    requires
        secs < 253_402_300_800,
    ensures
        rfc3339(secs).len() == 20,
        rfc3339(secs)[4] == '-' && rfc3339(secs)[7] == '-' && rfc3339(secs)[10] == 'T',
        rfc3339(secs)[13] == ':' && rfc3339(secs)[16] == ':' && rfc3339(secs)[19] == 'Z',
        forall|i: int|
            0 <= i < 20 && i != 4 && i != 7 && i != 10 && i != 13 && i != 16 && i != 19
                ==> is_digit(#[trigger] rfc3339(secs)[i]),
{
    let z = secs as int / 86400;
    lemma_year_range(z);
    let (y, m, d) = civil_date(z);
    let rem = secs % 86400;
    lemma_decimal_len(y as nat);
    lemma_decimal_len(m as nat);
    lemma_decimal_len(d as nat);
    lemma_decimal_len(rem / 3600);
    lemma_decimal_len((rem % 3600) / 60);
    lemma_decimal_len(rem % 60);
    lemma_padded_digits(y as nat, 4);
    lemma_padded_digits(m as nat, 2);
    lemma_padded_digits(d as nat, 2);
    lemma_padded_digits(rem / 3600, 2);
    lemma_padded_digits((rem % 3600) / 60, 2);
    lemma_padded_digits(rem % 60, 2);
    let py = padded(y as nat, 4);
    let pm = padded(m as nat, 2);
    let pd = padded(d as nat, 2);
    let ph = padded(rem / 3600, 2);
    let pn = padded((rem % 3600) / 60, 2);
    let ps = padded(rem % 60, 2);
    let s = rfc3339(secs);
    assert(s == py + seq!['-'] + pm + seq!['-'] + pd + seq!['T'] + ph + seq![':'] + pn + seq![':'] + ps
        + seq!['Z']);
    assert(s =~= seq![
        py[0], py[1], py[2], py[3], '-', pm[0], pm[1], '-', pd[0], pd[1], 'T', ph[0], ph[1], ':',
        pn[0], pn[1], ':', ps[0], ps[1], 'Z',
    ]);
    assert(is_digit(py[0]) && is_digit(py[1]) && is_digit(py[2]) && is_digit(py[3]));
    assert(is_digit(pm[0]) && is_digit(pm[1]) && is_digit(pd[0]) && is_digit(pd[1]));
    assert(is_digit(ph[0]) && is_digit(ph[1]) && is_digit(pn[0]) && is_digit(pn[1]));
    assert(is_digit(ps[0]) && is_digit(ps[1]));
}

proof fn lemma_two_digits(n: nat)
    requires
        n < 100,
    ensures
        padded(n, 2) == seq![digit_char(n / 10), digit_char(n % 10)],
{
    if n < 10 {
        assert(decimal(n) == seq![digit_char(n)]);
        assert(padded(n, 2) =~= seq!['0'] + decimal(n));
        assert(digit_char(0) == '0');
    } else {
        assert(decimal(n / 10) == seq![digit_char(n / 10)]);
        assert(decimal(n) == decimal(n / 10).push(digit_char(n % 10)));
        assert(padded(n, 2) =~= seq![digit_char(n / 10), digit_char(n % 10)]);
    }
}

proof fn lemma_four_digits(y: nat)
    requires
        1000 <= y < 10000,
    ensures
        padded(y, 4) == padded(y / 100, 2) + padded(y % 100, 2),
{
    lemma_two_digits(y / 100);
    lemma_two_digits(y % 100);
    let a = y / 1000;
    assert(y / 100 / 10 == a);
    assert((y / 100) % 10 == (y / 10 / 10) % 10);
    assert((y % 100) / 10 == (y / 10) % 10);
    assert((y % 100) % 10 == y % 10);
    assert(y / 10 / 10 == y / 100);
    assert(10 <= y / 100 < 100);
    assert(decimal(y / 100) == seq![digit_char(y / 100 / 10), digit_char((y / 100) % 10)]) by {
        assert(decimal((y / 100) / 10) == seq![digit_char((y / 100) / 10)]);
    }
    assert(decimal(y / 10) == decimal(y / 10 / 10).push(digit_char((y / 10) % 10)));
    assert(decimal(y) == decimal(y / 10).push(digit_char(y % 10)));
    assert(decimal(y).len() == 4);
    assert(padded(y, 4) == decimal(y));
    assert(decimal(y) =~= padded(y / 100, 2) + padded(y % 100, 2));
}

proof fn lemma_digit_order(a: nat, b: nat)
    requires
        a < b < 10,
    ensures
        digit_char(a) < digit_char(b),
{
}

/// A two-digit field decides the order when it differs, and leaves it to
/// what follows when it does not.
proof fn lemma_field_order(n1: nat, n2: nat, r1: Seq<char>, r2: Seq<char>)
    requires
        n1 < 100,
        n2 < 100,
    ensures
        n1 < n2 ==> str_gt(padded(n2, 2) + r2, padded(n1, 2) + r1),
        n1 == n2 ==> str_gt(padded(n2, 2) + r2, padded(n1, 2) + r1) == str_gt(r2, r1),
{
    lemma_two_digits(n1);
    lemma_two_digits(n2);
    reveal_with_fuel(str_gt, 3);
    if n1 < n2 {
        if n1 / 10 < n2 / 10 {
            lemma_digit_order(n1 / 10, n2 / 10);
        } else {
            assert(n1 / 10 == n2 / 10);
            assert(n1 % 10 < n2 % 10);
            lemma_digit_order(n1 % 10, n2 % 10);
            let p1 = padded(n1, 2);
            let p2 = padded(n2, 2);
            assert(p2.drop_first() =~= seq![digit_char(n2 % 10)]);
            assert(p1.drop_first() =~= seq![digit_char(n1 % 10)]);
            assert(str_gt(p2.drop_first().drop_first(), p1.drop_first().drop_first()) == false);
        }
        lemma_str_gt_prefix_decides(padded(n2, 2), padded(n1, 2), r2, r1);
    } else if n1 == n2 {
        lemma_str_gt_common_prefix(padded(n1, 2), r2, r1);
    }
}

/// The end of a stamp from the seconds on: `SSZ`.
pub open spec fn from_seconds(se: nat) -> Seq<char> {
    padded(se, 2) + seq!['Z']
}

/// The end of a stamp from the minutes on: `MM:SSZ`.
pub open spec fn from_minutes(mi: nat, se: nat) -> Seq<char> {
    padded(mi, 2) + (seq![':'] + from_seconds(se))
}

/// The end of a stamp from the hours on: `HH:MM:SSZ`.
pub open spec fn from_hours(h: nat, mi: nat, se: nat) -> Seq<char> {
    padded(h, 2) + (seq![':'] + from_minutes(mi, se))
}

/// The end of a stamp from the day on: `DDTHH:MM:SSZ`.
pub open spec fn from_day(d: nat, h: nat, mi: nat, se: nat) -> Seq<char> {
    padded(d, 2) + (seq!['T'] + from_hours(h, mi, se))
}

/// The end of a stamp from the month on: `MM-DDTHH:MM:SSZ`.
pub open spec fn from_month(m: nat, d: nat, h: nat, mi: nat, se: nat) -> Seq<char> {
    padded(m, 2) + (seq!['-'] + from_day(d, h, mi, se))
}

/// A stamp written from the fields year (as its two halves), month, day,
/// hours, minutes and seconds.
pub open spec fn stamp_of(yh: nat, yl: nat, m: nat, d: nat, h: nat, mi: nat, se: nat) -> Seq<char> {
    padded(yh, 2) + (padded(yl, 2) + (seq!['-'] + from_month(m, d, h, mi, se)))
}

/// The number whose decimal digits are the stamp's fields in order.
pub open spec fn stamp_key(yh: nat, yl: nat, m: nat, d: nat, h: nat, mi: nat, se: nat) -> nat {
    yh * 1_000_000_000_000 + yl * 10_000_000_000 + m * 100_000_000 + d * 1_000_000 + h * 10_000
        + mi * 100 + se
}

proof fn lemma_stamp_order(
    yh1: nat,
    yl1: nat,
    m1: nat,
    d1: nat,
    h1: nat,
    mi1: nat,
    se1: nat,
    yh2: nat,
    yl2: nat,
    m2: nat,
    d2: nat,
    h2: nat,
    mi2: nat,
    se2: nat,
)
    requires
        yh1 < 100 && yl1 < 100 && m1 < 100 && d1 < 100 && h1 < 100 && mi1 < 100 && se1 < 100,
        yh2 < 100 && yl2 < 100 && m2 < 100 && d2 < 100 && h2 < 100 && mi2 < 100 && se2 < 100,
        stamp_key(yh1, yl1, m1, d1, h1, mi1, se1) < stamp_key(yh2, yl2, m2, d2, h2, mi2, se2),
    ensures
        str_gt(stamp_of(yh2, yl2, m2, d2, h2, mi2, se2), stamp_of(yh1, yl1, m1, d1, h1, mi1, se1)),
{
    let z1 = seq!['Z'];
    let qse1 = seq![':'] + from_seconds(se1);
    let qse2 = seq![':'] + from_seconds(se2);
    let qmi1 = seq![':'] + from_minutes(mi1, se1);
    let qmi2 = seq![':'] + from_minutes(mi2, se2);
    let qh1 = seq!['T'] + from_hours(h1, mi1, se1);
    let qh2 = seq!['T'] + from_hours(h2, mi2, se2);
    let qd1 = seq!['-'] + from_day(d1, h1, mi1, se1);
    let qd2 = seq!['-'] + from_day(d2, h2, mi2, se2);
    let qm1 = seq!['-'] + from_month(m1, d1, h1, mi1, se1);
    let qm2 = seq!['-'] + from_month(m2, d2, h2, mi2, se2);
    let ryl1 = padded(yl1, 2) + qm1;
    let ryl2 = padded(yl2, 2) + qm2;
    let rm1 = from_month(m1, d1, h1, mi1, se1);
    let rm2 = from_month(m2, d2, h2, mi2, se2);
    let rd1 = from_day(d1, h1, mi1, se1);
    let rd2 = from_day(d2, h2, mi2, se2);
    let rh1 = from_hours(h1, mi1, se1);
    let rh2 = from_hours(h2, mi2, se2);
    let rmi1 = from_minutes(mi1, se1);
    let rmi2 = from_minutes(mi2, se2);
    let rse1 = from_seconds(se1);
    let rse2 = from_seconds(se2);
    lemma_field_order(yh1, yh2, ryl1, ryl2);
    lemma_field_order(yl1, yl2, qm1, qm2);
    lemma_str_gt_common_prefix(seq!['-'], rm2, rm1);
    lemma_field_order(m1, m2, qd1, qd2);
    lemma_str_gt_common_prefix(seq!['-'], rd2, rd1);
    lemma_field_order(d1, d2, qh1, qh2);
    lemma_str_gt_common_prefix(seq!['T'], rh2, rh1);
    lemma_field_order(h1, h2, qmi1, qmi2);
    lemma_str_gt_common_prefix(seq![':'], rmi2, rmi1);
    lemma_field_order(mi1, mi2, qse1, qse2);
    lemma_str_gt_common_prefix(seq![':'], rse2, rse1);
    lemma_field_order(se1, se2, z1, z1);
}

/// The stamp's pieces, regrouped from the right.
proof fn lemma_regroup(py: Seq<char>, m: nat, d: nat, h: nat, mi: nat, se: nat)
    ensures
        py + seq!['-'] + padded(m, 2) + seq!['-'] + padded(d, 2) + seq!['T'] + padded(h, 2)
            + seq![':'] + padded(mi, 2) + seq![':'] + padded(se, 2) + seq!['Z'] == py + (seq!['-']
            + from_month(m, d, h, mi, se)),
{
    let (pm, pd, ph, pn, ps) = (padded(m, 2), padded(d, 2), padded(h, 2), padded(mi, 2), padded(se, 2));
    let l1 = py + seq!['-'];
    let l2 = l1 + pm;
    let l3 = l2 + seq!['-'];
    let l4 = l3 + pd;
    let l5 = l4 + seq!['T'];
    let l6 = l5 + ph;
    let l7 = l6 + seq![':'];
    let l8 = l7 + pn;
    let l9 = l8 + seq![':'];
    let l10 = l9 + ps;
    let n10 = seq!['Z'];
    assert(l10 + n10 =~= l9 + from_seconds(se));
    let n9 = seq![':'] + from_seconds(se);
    assert(l9 + from_seconds(se) =~= l8 + n9);
    assert(l8 + n9 =~= l7 + from_minutes(mi, se));
    let n7 = seq![':'] + from_minutes(mi, se);
    assert(l7 + from_minutes(mi, se) =~= l6 + n7);
    assert(l6 + n7 =~= l5 + from_hours(h, mi, se));
    let n5 = seq!['T'] + from_hours(h, mi, se);
    assert(l5 + from_hours(h, mi, se) =~= l4 + n5);
    assert(l4 + n5 =~= l3 + from_day(d, h, mi, se));
    let n3 = seq!['-'] + from_day(d, h, mi, se);
    assert(l3 + from_day(d, h, mi, se) =~= l2 + n3);
    assert(l2 + n3 =~= l1 + from_month(m, d, h, mi, se));
    assert(l1 + from_month(m, d, h, mi, se) =~= py + (seq!['-'] + from_month(m, d, h, mi, se)));
}

/// A four-digit year splits into its two halves.
proof fn lemma_stamp_layout(y: nat, rest: Seq<char>)
    requires
        1000 <= y < 10000,
    ensures
        padded(y, 4) + rest == padded(y / 100, 2) + (padded(y % 100, 2) + rest),
{
    lemma_four_digits(y);
    assert(padded(y, 4) + rest =~= padded(y / 100, 2) + (padded(y % 100, 2) + rest));
}

proof fn lemma_rfc3339_fields(secs: nat)
    requires
        secs < 253_402_300_800,
    ensures
        ({
            let (y, m, d) = civil_date(secs as int / 86400);
            let rem = secs % 86400;
            &&& 1970 <= y < 10000
            &&& valid_date(y, m, d)
            &&& days_from_civil(y, m, d) == secs as int / 86400
            &&& rfc3339(secs) == stamp_of(
                (y / 100) as nat,
                (y % 100) as nat,
                m as nat,
                d as nat,
                rem / 3600,
                (rem % 3600) / 60,
                rem % 60,
            )
        }),
{
    let z = secs as int / 86400;
    lemma_year_range(z);
    let (y, m, d) = civil_date(z);
    let rem = secs % 86400;
    lemma_regroup(padded(y as nat, 4), m as nat, d as nat, rem / 3600, (rem % 3600) / 60, rem % 60);
    lemma_stamp_layout(
        y as nat,
        seq!['-'] + from_month(m as nat, d as nat, rem / 3600, (rem % 3600) / 60, rem % 60),
    );
}

/// Of two valid dates, the one on a later day is later in (year, month,
/// day) order.
proof fn lemma_date_order(y1: int, m1: int, d1: int, y2: int, m2: int, d2: int)
    requires
        valid_date(y1, m1, d1),
        valid_date(y2, m2, d2),
        days_from_civil(y1, m1, d1) < days_from_civil(y2, m2, d2),
    ensures
        y1 < y2 || (y1 == y2 && (m1 < m2 || (m1 == m2 && d1 < d2))),
{
    lemma_date_in_year(y1, m1, d1);
    lemma_date_in_year(y2, m2, d2);
    if y2 < y1 {
        lemma_years_ordered(y2, y1);
    } else if y1 == y2 {
        lemma_days_before_month(y1, m1);
        lemma_days_before_month(y1, m1 + 1);
        lemma_days_before_month(y1, m2);
        lemma_days_before_month(y1, m2 + 1);
    }
}

/// The clock fields of a second of the day, and the number they spell.
proof fn lemma_clock_order(ra: nat, rb: nat)
    requires
        ra < rb < 86400,
    ensures
        rb / 3600 < 24,
        (ra / 3600) * 10000 + ((ra % 3600) / 60) * 100 + ra % 60 < (rb / 3600) * 10000 + ((rb
            % 3600) / 60) * 100 + rb % 60,
{
    let (h1, m1, s1) = (ra / 3600, (ra % 3600) / 60, ra % 60);
    let (h2, m2, s2) = (rb / 3600, (rb % 3600) / 60, rb % 60);
    assert(ra == h1 * 3600 + m1 * 60 + s1 && m1 < 60 && s1 < 60) by (nonlinear_arith)
        requires
            h1 == ra / 3600,
            m1 == (ra % 3600) / 60,
            s1 == ra % 60,
    ;
    assert(rb == h2 * 3600 + m2 * 60 + s2 && m2 < 60 && s2 < 60) by (nonlinear_arith)
        requires
            h2 == rb / 3600,
            m2 == (rb % 3600) / 60,
            s2 == rb % 60,
    ;
    if h1 == h2 {
        if m1 > m2 {
            assert(false);
        }
    } else if h1 > h2 {
        assert(false);
    }
}

/// Law: before the year 10000 a later instant gets a later stamp, in the
/// strings' own order; so stamps sort as the instants do, and two instants
/// never share one.
pub proof fn lemma_rfc3339_ordered(a: nat, b: nat)
    requires
        a < b < 253_402_300_800,
    ensures
        str_gt(rfc3339(b), rfc3339(a)),
{
    lemma_rfc3339_fields(a);
    lemma_rfc3339_fields(b);
    let za = a as int / 86400;
    let zb = b as int / 86400;
    let (y1, m1, d1) = civil_date(za);
    let (y2, m2, d2) = civil_date(zb);
    let ra = a % 86400;
    let rb = b % 86400;
    let (h1, mi1, se1) = (ra / 3600, (ra % 3600) / 60, ra % 60);
    let (h2, mi2, se2) = (rb / 3600, (rb % 3600) / 60, rb % 60);
    assert(h1 < 24 && mi1 < 60 && se1 < 60 && h2 < 24 && mi2 < 60 && se2 < 60);
    let t1 = h1 * 10000 + mi1 * 100 + se1;
    let t2 = h2 * 10000 + mi2 * 100 + se2;
    if za < zb {
        lemma_date_order(y1, m1, d1, y2, m2, d2);
    } else {
        assert(za == zb);
        assert(ra < rb);
        lemma_clock_order(ra, rb);
        assert(t1 < t2);
    }
    assert(y1 == (y1 / 100) * 100 + y1 % 100);
    assert(y2 == (y2 / 100) * 100 + y2 % 100);
    let yh1 = (y1 / 100) as nat;
    let yl1 = (y1 % 100) as nat;
    let yh2 = (y2 / 100) as nat;
    let yl2 = (y2 % 100) as nat;
    assert(stamp_key(yh1, yl1, m1 as nat, d1 as nat, h1, mi1, se1) == y1 * 10_000_000_000 + m1
        * 100_000_000 + d1 * 1_000_000 + t1);
    assert(stamp_key(yh2, yl2, m2 as nat, d2 as nat, h2, mi2, se2) == y2 * 10_000_000_000 + m2
        * 100_000_000 + d2 * 1_000_000 + t2);
    lemma_stamp_order(yh1, yl1, m1 as nat, d1 as nat, h1, mi1, se1, yh2, yl2, m2 as nat, d2 as nat, h2, mi2, se2);
}

/// Howard Hinnant's `civil_from_days`: the date of day `z` counted from
/// 1970-01-01.
fn civil_from_days(z: i64) -> (r: (i64, u32, u32))
    requires
        z <= i64::MAX - 719_468,
    ensures
        valid_date(r.0 as int, r.1 as int, r.2 as int),
        days_from_civil(r.0 as int, r.1 as int, r.2 as int) == z,
{
    proof {
        lemma_civil_parts(z as int);
        lemma_year_of_era((z + 719468) - ((z + 719468) / 146097) * 146097);
    }
    let z = z + 719_468;
    let era = (if z >= 0 {
        z
    } else {
        z - 146_096
    }) / 146_097;
    assert(era == z as int / 146097);
    let doe = z - era * 146_097;
    let yoe = (doe - doe / 1460 + doe / 36_524 - doe / 146_096) / 365;
    let y = yoe + era * 400;
    let doy = doe - (365 * yoe + yoe / 4 - yoe / 100);
    let mp = (5 * doy + 2) / 153;
    let d = doy - (153 * mp + 2) / 5 + 1;
    let m = if mp < 10 {
        mp + 3
    } else {
        mp - 9
    };
    let year = if m <= 2 {
        y + 1
    } else {
        y
    };
    (year, m as u32, d as u32)
}

/// Formats seconds since the Unix epoch as `YYYY-MM-DDTHH:MM:SSZ`.
pub fn format_epoch(secs: u64) -> (r: String)
    ensures
        r@ == rfc3339(secs as nat),
{
    let days = (secs / 86_400) as i64;
    let rem = secs % 86_400;
    let (y, m, d) = civil_from_days(days);
    proof {
        lemma_civil_date(days as int, y as int, m as int, d as int);
        lemma_year_10000();
        lemma_date_in_year(y as int, m as int, d as int);
        if y < 1970 {
            lemma_years_ordered(y as int, 1970);
        }
    }
    let mut out: Vec<char> = Vec::new();
    push_padded(&mut out, y as u64, 4);
    out.push('-');
    push_padded(&mut out, m as u64, 2);
    out.push('-');
    push_padded(&mut out, d as u64, 2);
    out.push('T');
    push_padded(&mut out, rem / 3600, 2);
    out.push(':');
    push_padded(&mut out, (rem % 3600) / 60, 2);
    out.push(':');
    push_padded(&mut out, rem % 60, 2);
    out.push('Z');
    assert(out@ =~= rfc3339(secs as nat));
    string_of(&out)
}

/// The system clock's type, held opaque.
#[verifier::external_type_specification]
#[verifier::external_body]
pub struct ExSystemTime(std::time::SystemTime);

/// The error of a clock set before the epoch, held opaque.
#[verifier::external_type_specification]
#[verifier::external_body]
pub struct ExSystemTimeError(std::time::SystemTimeError);

/// The system clock now (`SystemTime::now`). Nothing is promised of the
/// value: it is the time.
#[verifier::external_body]
fn system_time_now() -> std::time::SystemTime {
    std::time::SystemTime::now()
}

/// How long after the Unix epoch `t` is (`SystemTime::duration_since` with
/// `UNIX_EPOCH`), an error when `t` is before it. Nothing is promised of the
/// value: it depends on the clock.
#[verifier::external_body]
fn since_epoch(t: &std::time::SystemTime) -> Result<
    std::time::Duration,
    std::time::SystemTimeError,
> {
    t.duration_since(std::time::UNIX_EPOCH)
}

/// The whole seconds of `d` (`Duration::as_secs`). Nothing is promised of
/// the value beyond its type: `Duration` is held opaque.
#[verifier::external_body]
fn whole_seconds(d: &std::time::Duration) -> u64 {
    d.as_secs()
}

/// The seconds that a clock reading gives: its whole seconds since the
/// epoch, 0 for a clock set before the epoch (`None`).
pub open spec fn clock_seconds(since_epoch: Option<u64>) -> u64 {
    match since_epoch {
        Some(s) => s,
        None => 0,
    }
}

/// The stamp of a clock reading: the whole seconds since the epoch, or
/// `None` when the clock is set before it, which stamps the epoch itself.
pub fn format_clock(since_epoch: Option<u64>) -> (r: String)
    ensures
        r@ == rfc3339(clock_seconds(since_epoch) as nat),
{
    let secs = match since_epoch {
        Some(s) => s,
        None => 0,
    };
    format_epoch(secs)
}

/// The current UTC time as RFC3339, e.g. `2026-02-14T10:00:00Z`; the epoch
/// when the clock is set before it.
pub fn now_rfc3339() -> (r: String)
    ensures
        exists|since_epoch: Option<u64>| r@ == rfc3339(clock_seconds(since_epoch) as nat),
{
    let now = system_time_now();
    let since = match since_epoch(&now) {
        Ok(d) => Some(whole_seconds(&d)),
        Err(_) => None,
    };
    format_clock(since)
}

} // verus!
