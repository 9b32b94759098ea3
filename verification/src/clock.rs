//! UTC calendar arithmetic and RFC 3339 timestamps.

use crate::report::chars_less;
use crate::text::{dec, dec_pad, digit_char, is_digit, push_char, push_dec_pad, repeat};
use vstd::prelude::*;

verus! {

pub open spec fn is_leap_year(y: int) -> bool {
    y % 4 == 0 && (y % 100 != 0 || y % 400 == 0)
}

pub open spec fn year_days(y: int) -> int {
    if is_leap_year(y) {
        366
    } else {
        365
    }
}

pub open spec fn month_days(y: int, m: int) -> int {
    if m == 2 {
        if is_leap_year(y) {
            29
        } else {
            28
        }
    } else if m == 4 || m == 6 || m == 9 || m == 11 {
        30
    } else {
        31
    }
}

/// Days from 1970-01-01 to January 1 of year `y`.
pub open spec fn days_before_year(y: int) -> int
    decreases y - 1970,
{
    if y <= 1970 {
        0
    } else {
        days_before_year(y - 1) + year_days(y - 1)
    }
}

/// Days from January 1 to the first day of month `m` of year `y`.
pub open spec fn days_before_month(y: int, m: int) -> int
    decreases m,
{
    if m <= 1 {
        0
    } else {
        days_before_month(y, m - 1) + month_days(y, m - 1)
    }
}

/// A calendar date no earlier than the Unix epoch.
pub open spec fn valid_date(y: int, m: int, d: int) -> bool {
    y >= 1970 && 1 <= m <= 12 && 1 <= d <= month_days(y, m)
}

/// Days from 1970-01-01 to the date `y-m-d`.
pub open spec fn days_since_epoch(y: int, m: int, d: int) -> int {
    days_before_year(y) + days_before_month(y, m) + d - 1
}

/// Leap years among `1..=n`.
spec fn leap_count(n: int) -> int {
    n / 4 - n / 100 + n / 400
}

proof fn lemma_leap_count_step(y: int)
    requires
        y >= 1,
    ensures
        leap_count(y) - leap_count(y - 1) == (if is_leap_year(y) { 1int } else { 0int }),
{
    assert(y / 4 - (y - 1) / 4 == (if y % 4 == 0 { 1int } else { 0int }));
    assert(y / 100 - (y - 1) / 100 == (if y % 100 == 0 { 1int } else { 0int }));
    assert(y / 400 - (y - 1) / 400 == (if y % 400 == 0 { 1int } else { 0int }));
    if y % 400 == 0 {
        assert(y % 100 == 0 && y % 4 == 0);
    } else if y % 100 == 0 {
        assert(y % 4 == 0);
    }
}

proof fn lemma_days_before_year(y: int)
    requires
        y >= 1970,
    ensures
        days_before_year(y) == 365 * (y - 1970) + leap_count(y - 1) - leap_count(1969),
    decreases y - 1970,
{
    if y > 1970 {
        lemma_days_before_year(y - 1);
        lemma_leap_count_step(y - 1);
    }
}


/// Day offset of the start of year `k` within a 400-year era that begins on March 1.
spec fn era_year_start(k: int) -> int {
    365 * k + k / 4 - k / 100
}

proof fn lemma_year_of_era(doe: int)
    requires
        0 <= doe <= 146096,
    ensures
        ({
            let yoe = (doe - doe / 1460 + doe / 36524 - doe / 146096) / 365;
            &&& 0 <= yoe <= 399
            &&& era_year_start(yoe) <= doe
            &&& doe - era_year_start(yoe) < 365 + (if is_leap_year(yoe + 1) { 1int } else { 0int })
        }),
{
}


/// Day offset of the first of the `mp`-th month of a year that begins on March 1.
spec fn march_month_start(mp: int) -> int {
    (153 * mp + 2) / 5
}

proof fn lemma_month_of_year(doy: int)
    requires
        0 <= doy <= 365,
    ensures
        ({
            let mp = (5 * doy + 2) / 153;
            &&& 0 <= mp <= 11
            &&& march_month_start(mp) <= doy
            &&& mp < 11 ==> doy < march_month_start(mp + 1)
        }),
{
}

/// Days before month `m` in a common year.
spec fn common_days_before_month(m: int) -> int {
    if m == 1 { 0 }
    else if m == 2 { 31 }
    else if m == 3 { 59 }
    else if m == 4 { 90 }
    else if m == 5 { 120 }
    else if m == 6 { 151 }
    else if m == 7 { 181 }
    else if m == 8 { 212 }
    else if m == 9 { 243 }
    else if m == 10 { 273 }
    else if m == 11 { 304 }
    else { 334 }
}

proof fn lemma_days_before_month(y: int, m: int)
    requires
        1 <= m <= 12,
    ensures
        days_before_month(y, m) == common_days_before_month(m) + (if m > 2 && is_leap_year(y) { 1int } else { 0int }),
    decreases m,
{
    if m > 1 {
        lemma_days_before_month(y, m - 1);
    }
}

proof fn lemma_leap_in_era(e: int, k: int)
    requires
        e >= 0,
    ensures
        is_leap_year(400 * e + k) == is_leap_year(k),
{
    assert((400 * e + k) % 4 == k % 4);
    assert((400 * e + k) % 100 == k % 100);
    assert((400 * e + k) % 400 == k % 400);
}

/// Start of March-based year `y` (year `y` runs from `y-03-01`), counted in days from
/// `0000-03-01`.
spec fn march_year_start(y: int) -> int {
    365 * y + leap_count(y)
}

proof fn lemma_march_year_start(e: int, k: int)
    requires
        e >= 0,
        0 <= k <= 399,
    ensures
        march_year_start(400 * e + k) == 146097 * e + era_year_start(k),
{
    assert((400 * e + k) / 4 == 100 * e + k / 4);
    assert((400 * e + k) / 100 == 4 * e + k / 100);
    assert((400 * e + k) / 400 == e);
}

/// A day offset `doy` into March-based year `y` names the calendar date that
/// `days_since_epoch` counts `march_year_start(y) + doy - 719468` days after the epoch.
proof fn lemma_date_of_march_day(y: int, doy: int)
    requires
        y >= 0,
        march_year_start(y) + doy >= 719468,
        0 <= doy < 365 + (if is_leap_year(y + 1) { 1int } else { 0int }),
    ensures
        ({
            let mp = (5 * doy + 2) / 153;
            let d = doy - march_month_start(mp) + 1;
            let m = if mp < 10 { mp + 3 } else { mp - 9 };
            let yy = if m <= 2 { y + 1 } else { y };
            &&& valid_date(yy, m, d)
            &&& days_since_epoch(yy, m, d) == march_year_start(y) + doy - 719468
        }),
{
    let mp = (5 * doy + 2) / 153;
    let d = doy - march_month_start(mp) + 1;
    let m = if mp < 10 { mp + 3 } else { mp - 9 };
    let yy = if m <= 2 { y + 1 } else { y };
    assert(y >= 1969) by {
        if y <= 1968 {
            assert(365 * y + leap_count(y) <= 718797);
        }
    }
    lemma_month_of_year(doy);
    lemma_days_before_month(yy, m);
    lemma_days_before_year(yy);
    lemma_leap_count_step(y);
    lemma_leap_count_step(y + 1);
    assert(leap_count(1969) == 477);
    assert(valid_date(yy, m, d));
}


/// Largest day count that a `u64` number of seconds reaches.
pub const MAX_EPOCH_DAYS: i64 = 213_503_982_334_601;

/// Calendar date of the day `days` after 1970-01-01, as (year, month, day).
fn civil_from_days(days: i64) -> (r: (i64, u32, u32))
    requires
        0 <= days <= MAX_EPOCH_DAYS,
    ensures
        valid_date(r.0 as int, r.1 as int, r.2 as int),
        days_since_epoch(r.0 as int, r.1 as int, r.2 as int) == days,
{
    let shifted = days + 719_468;
    let era = shifted / 146_097;
    let day_of_era = (shifted - era * 146_097) as u64;
    proof {
        lemma_year_of_era(day_of_era as int);
    }
    let year_of_era = (day_of_era - day_of_era / 1_460 + day_of_era / 36_524 - day_of_era / 146_096)
        / 365;
    let year = year_of_era as i64 + era * 400;
    let day_of_year = day_of_era - (365 * year_of_era + year_of_era / 4 - year_of_era / 100);
    proof {
        lemma_month_of_year(day_of_year as int);
        lemma_march_year_start(era as int, year_of_era as int);
        lemma_leap_in_era(era as int, year_of_era + 1);
        lemma_date_of_march_day(year as int, day_of_year as int);
    }
    let month_index = (5 * day_of_year + 2) / 153;
    let day = (day_of_year - (153 * month_index + 2) / 5 + 1) as u32;
    let month = if month_index < 10 {
        month_index + 3
    } else {
        month_index - 9
    } as u32;
    (if month <= 2 {
        year + 1
    } else {
        year
    }, month, day)
}

/// A calendar date after the epoch is determined by its day count.
pub proof fn lemma_date_is_determined_by_day(y1: int, m1: int, d1: int, y2: int, m2: int, d2: int)
    requires
        valid_date(y1, m1, d1),
        valid_date(y2, m2, d2),
        days_since_epoch(y1, m1, d1) == days_since_epoch(y2, m2, d2),
    ensures
        y1 == y2 && m1 == m2 && d1 == d2,
{
    lemma_days_before_month(y1, m1);
    lemma_days_before_month(y2, m2);
    lemma_day_in_year(y1, m1, d1);
    lemma_day_in_year(y2, m2, d2);
    if y1 < y2 {
        lemma_days_before_year_grows(y1 + 1, y2);
    } else if y2 < y1 {
        lemma_days_before_year_grows(y2 + 1, y1);
    }
    assert(y1 == y2);
}

proof fn lemma_day_in_year(y: int, m: int, d: int)
    requires
        valid_date(y, m, d),
    ensures
        0 <= days_before_month(y, m) + d - 1 < year_days(y),
{
    lemma_days_before_month(y, m);
}

proof fn lemma_days_before_year_grows(a: int, b: int)
    requires
        1970 <= a <= b,
    ensures
        days_before_year(a) <= days_before_year(b),
    decreases b - a,
{
    if a < b {
        lemma_days_before_year_grows(a, b - 1);
    }
}

/// The RFC 3339 text of a UTC instant: `YYYY-MM-DDThh:mm:ss.mmmZ`.
pub open spec fn rfc3339_text(y: int, m: int, d: int, second_of_day: int, millis: int) -> Seq<char> {
    dec_pad(y as nat, 4) + seq!['-'] + dec_pad(m as nat, 2) + seq!['-'] + dec_pad(d as nat, 2)
        + seq!['T'] + dec_pad((second_of_day / 3600) as nat, 2) + seq![':'] + dec_pad(
        (second_of_day % 3600 / 60) as nat,
        2,
    ) + seq![':'] + dec_pad((second_of_day % 60) as nat, 2) + seq!['.'] + dec_pad(
        millis as nat,
        3,
    ) + seq!['Z']
}

/// The calendar date of the day `days` after 1970-01-01.
pub open spec fn utc_date(days: int) -> (int, int, int) {
    choose|y: int, m: int, d: int| valid_date(y, m, d) && days_since_epoch(y, m, d) == days
}

/// The RFC 3339 text of the instant `secs` seconds and `millis` milliseconds after the
/// epoch.
pub open spec fn utc_text(secs: nat, millis: nat) -> Seq<char> {
    let (y, m, d) = utc_date((secs / 86400) as int);
    rfc3339_text(y, m, d, (secs % 86400) as int, millis as int)
}

/// Epoch seconds and milliseconds as a UTC RFC 3339 timestamp with millisecond precision.
pub fn rfc3339_utc(epoch_seconds: u64, millis: u32) -> (out: String)
    ensures
        out@ == utc_text(epoch_seconds as nat, millis as nat),
        exists|y: int, m: int, d: int|
            {
                &&& valid_date(y, m, d)
                &&& days_since_epoch(y, m, d) == epoch_seconds / 86400
                &&& out@ == rfc3339_text(y, m, d, (epoch_seconds % 86400) as int, millis as int)
            },
{
    let (year, month, day) = civil_from_days((epoch_seconds / 86_400) as i64);
    let seconds = epoch_seconds % 86_400;
    let ghost (y, m, d, sod, ms) = (year as int, month as int, day as int, seconds as int, millis as int);
    let mut out = String::new();
    push_dec_pad(&mut out, year as u64, 4);
    push_char(&mut out, '-');
    push_dec_pad(&mut out, month as u64, 2);
    push_char(&mut out, '-');
    push_dec_pad(&mut out, day as u64, 2);
    let ghost date = out@;
    assert(date =~= dec_pad(y as nat, 4) + seq!['-'] + dec_pad(m as nat, 2) + seq!['-'] + dec_pad(d as nat, 2));
    push_char(&mut out, 'T');
    push_dec_pad(&mut out, seconds / 3_600, 2);
    push_char(&mut out, ':');
    push_dec_pad(&mut out, seconds % 3_600 / 60, 2);
    let ghost hm = out@;
    assert(hm =~= date + seq!['T'] + dec_pad((sod / 3600) as nat, 2) + seq![':'] + dec_pad((sod % 3600 / 60) as nat, 2));
    push_char(&mut out, ':');
    push_dec_pad(&mut out, seconds % 60, 2);
    push_char(&mut out, '.');
    push_dec_pad(&mut out, millis as u64, 3);
    push_char(&mut out, 'Z');
    assert(out@ =~= hm + seq![':'] + dec_pad((sod % 60) as nat, 2) + seq!['.'] + dec_pad(ms as nat, 3) + seq!['Z']);
    assert(out@ =~= rfc3339_text(y, m, d, sod, ms));
    proof {
        let (y2, m2, d2) = utc_date((epoch_seconds / 86400) as int);
        assert(valid_date(y, m, d) && days_since_epoch(y, m, d) == (epoch_seconds / 86400) as int);
        lemma_date_is_determined_by_day(y, m, d, y2, m2, d2);
    }
    out
}


/// `SystemTime::now()` measured from `UNIX_EPOCH`, as whole seconds and the millisecond part;
/// a clock before the epoch reads as zero. The instant depends on the moment of the call.
#[verifier::external_body]
pub(crate) fn now_since_epoch() -> (r: (u64, u32))
    ensures
        r.1 < 1000,
{
    let elapsed = std::time::SystemTime::now().duration_since(std::time::UNIX_EPOCH).unwrap_or_default();
    (elapsed.as_secs(), elapsed.subsec_millis())
}

/// The current instant as a UTC RFC 3339 timestamp with millisecond precision; before the
/// year 10000 it has the fixed 24-character shape.
pub fn rfc3339_now() -> (out: String)
    ensures
        exists|secs: u64, millis: u32|
            {
                &&& millis < 1000
                &&& out@ == #[trigger] utc_text(secs as nat, millis as nat)
                &&& secs < 253402300800 ==> has_timestamp_shape(out@)
            },
        exists|y: int, m: int, d: int, second_of_day: int, millis: int|
            {
                &&& valid_date(y, m, d)
                &&& 0 <= second_of_day < 86400
                &&& 0 <= millis < 1000
                &&& out@ == #[trigger] rfc3339_text(y, m, d, second_of_day, millis)
            },
{
    let (secs, millis) = now_since_epoch();
    let out = rfc3339_utc(secs, millis);
    proof {
        if secs < 253402300800 {
            lemma_timestamp_shape(secs as nat, millis as nat);
        }
    }
    let ghost (y, m, d) = choose|y: int, m: int, d: int|
        {
            &&& valid_date(y, m, d)
            &&& days_since_epoch(y, m, d) == secs / 86400
            &&& out@ == rfc3339_text(y, m, d, (secs % 86400) as int, millis as int)
        };
    assert(out@ == rfc3339_text(y, m, d, (secs % 86400) as int, millis as int));
    out
}

/// `10^w`.
pub open spec fn pow10(w: nat) -> nat
    decreases w,
{
    if w == 0 {
        1
    } else {
        10 * pow10((w - 1) as nat)
    }
}

/// The last `w` decimal digits of `n`, most significant first.
pub open spec fn digits(n: nat, w: nat) -> Seq<char>
    decreases w,
{
    if w == 0 {
        Seq::empty()
    } else {
        digits(n / 10, (w - 1) as nat).push(digit_char(n % 10))
    }
}

proof fn lemma_less_concat(a1: Seq<char>, b1: Seq<char>, a2: Seq<char>, b2: Seq<char>)
    requires
        a1.len() == a2.len(),
    ensures
        chars_less(a1 + b1, a2 + b2) == (chars_less(a1, a2) || (a1 == a2 && chars_less(b1, b2))),
        (a1 + b1 == a2 + b2) == (a1 == a2 && b1 == b2),
    decreases a1.len(),
{
    if a1.len() == 0 {
        assert(a1 =~= a2);
        assert(a1 + b1 =~= b1);
        assert(a2 + b2 =~= b2);
    } else {
        let x = a1 + b1;
        let y = a2 + b2;
        assert(x[0] == a1[0] && y[0] == a2[0]);
        assert(x.drop_first() =~= a1.drop_first() + b1);
        assert(y.drop_first() =~= a2.drop_first() + b2);
        lemma_less_concat(a1.drop_first(), b1, a2.drop_first(), b2);
        assert(a1 =~= seq![a1[0]] + a1.drop_first());
        assert(a2 =~= seq![a2[0]] + a2.drop_first());
        assert(x =~= seq![x[0]] + x.drop_first());
        assert(y =~= seq![y[0]] + y.drop_first());
        if a1[0] != a2[0] {
            assert(a1 != a2);
            assert(x != y);
        }
    }
}

proof fn lemma_less_push(x: Seq<char>, c: char, y: Seq<char>, e: char)
    requires
        x.len() == y.len(),
    ensures
        chars_less(x.push(c), y.push(e)) == (chars_less(x, y) || (x == y && c < e)),
        (x.push(c) == y.push(e)) == (x == y && c == e),
{
    lemma_less_concat(x, seq![c], y, seq![e]);
    assert(x.push(c) =~= x + seq![c]);
    assert(y.push(e) =~= y + seq![e]);
    assert(seq![c].drop_first() =~= Seq::<char>::empty());
    assert(seq![e].drop_first() =~= Seq::<char>::empty());
    assert(!chars_less(Seq::<char>::empty(), Seq::<char>::empty()));
    assert(chars_less(seq![c], seq![e]) == (c < e));
    if seq![c] == seq![e] {
        assert(seq![c][0] == seq![e][0]);
    }
}

proof fn lemma_digit_char_order(a: nat, b: nat)
    requires
        a < 10,
        b < 10,
    ensures
        (digit_char(a) < digit_char(b)) == (a < b),
        (digit_char(a) == digit_char(b)) == (a == b),
{
}

proof fn lemma_digits_order(a: nat, b: nat, w: nat)
    requires
        a < pow10(w),
        b < pow10(w),
    ensures
        digits(a, w).len() == w,
        chars_less(digits(a, w), digits(b, w)) == (a < b),
        (digits(a, w) == digits(b, w)) == (a == b),
    decreases w,
{
    if w > 0 {
        let p = pow10((w - 1) as nat);
        assert(a / 10 < p && b / 10 < p);
        lemma_digits_order(a / 10, b / 10, (w - 1) as nat);
        lemma_digits_order(b / 10, a / 10, (w - 1) as nat);
        lemma_digit_char_order(a % 10, b % 10);
        lemma_less_push(digits(a / 10, (w - 1) as nat), digit_char(a % 10), digits(b / 10, (w - 1) as nat), digit_char(b % 10));
        assert((a < b) == (a / 10 < b / 10 || (a / 10 == b / 10 && a % 10 < b % 10)));
        assert((a == b) == (a / 10 == b / 10 && a % 10 == b % 10));
    } else {
        assert(digits(a, w) =~= digits(b, w));
    }
}

proof fn lemma_dec_fits(n: nat, w: nat)
    requires
        w >= 1,
        n < pow10(w),
    ensures
        dec(n).len() <= w,
    decreases w,
{
    if n >= 10 {
        assert(w >= 2) by {
            if w == 1 {
                assert(pow10(1) == 10) by {
                    reveal_with_fuel(pow10, 2);
                }
            }
        }
        assert(n / 10 < pow10((w - 1) as nat));
        lemma_dec_fits(n / 10, (w - 1) as nat);
    }
}

proof fn lemma_pad_is_digits(n: nat, w: nat)
    requires
        w >= 1,
        n < pow10(w),
    ensures
        dec_pad(n, w) == digits(n, w),
    decreases w,
{
    let d = digit_char(n % 10);
    if w == 1 {
        assert(pow10(1) == 10) by {
            reveal_with_fuel(pow10, 2);
        }
        assert(digits(0, 0) =~= Seq::<char>::empty());
        assert(digits(n, 1) =~= seq![d]);
    } else {
        assert(n / 10 < pow10((w - 1) as nat));
        lemma_pad_is_digits(n / 10, (w - 1) as nat);
        if n >= 10 {
            lemma_dec_fits(n / 10, (w - 1) as nat);
            let l = dec(n / 10).len();
            if l + 1 < w {
                assert(dec_pad(n, w) =~= (repeat('0', (w - 1 - l) as nat) + dec(n / 10)).push(d));
            } else {
                assert(dec_pad(n, w) =~= dec(n / 10).push(d));
            }
        } else {
            assert(dec(0) =~= seq!['0']);
            assert(dec_pad(0, (w - 1) as nat) =~= repeat('0', (w - 1) as nat));
            assert(dec_pad(n, w) =~= repeat('0', (w - 1) as nat).push(d));
        }
    }
}

/// A field of `w` digits: equal texts for equal values, the smaller value first.
proof fn lemma_field_order(a: nat, b: nat, w: nat)
    requires
        w >= 1,
        a < pow10(w),
        b < pow10(w),
    ensures
        dec_pad(a, w).len() == w,
        chars_less(dec_pad(a, w), dec_pad(b, w)) == (a < b),
        (dec_pad(a, w) == dec_pad(b, w)) == (a == b),
{
    lemma_pad_is_digits(a, w);
    lemma_pad_is_digits(b, w);
    lemma_digits_order(a, b, w);
}

proof fn lemma_same_char(c: char)
    ensures
        !chars_less(seq![c], seq![c]),
{
    assert(seq![c].drop_first() =~= Seq::<char>::empty());
    assert(!chars_less(Seq::<char>::empty(), Seq::<char>::empty()));
}

/// Two timestamps of four-digit years compare as their fields do, from the year down to
/// the millisecond.
proof fn lemma_text_order(
    y1: int, mo1: int, d1: int, t1: int, ms1: int,
    y2: int, mo2: int, d2: int, t2: int, ms2: int,
)
    requires
        0 <= y1 < 10000, 1 <= mo1 <= 12, 1 <= d1 <= 31, 0 <= t1 < 86400, 0 <= ms1 < 1000,
        0 <= y2 < 10000, 1 <= mo2 <= 12, 1 <= d2 <= 31, 0 <= t2 < 86400, 0 <= ms2 < 1000,
    ensures
        rfc3339_text(y1, mo1, d1, t1, ms1).len() == 24,
        chars_less(rfc3339_text(y1, mo1, d1, t1, ms1), rfc3339_text(y2, mo2, d2, t2, ms2)) == (y1 < y2
            || (y1 == y2 && (mo1 < mo2 || (mo1 == mo2 && (d1 < d2 || (d1 == d2 && (t1 < t2 || (t1 == t2
            && ms1 < ms2)))))))),
        (rfc3339_text(y1, mo1, d1, t1, ms1) == rfc3339_text(y2, mo2, d2, t2, ms2)) == (y1 == y2 && mo1 == mo2
            && d1 == d2 && t1 == t2 && ms1 == ms2),
{
    reveal_with_fuel(pow10, 5);
    let (h1, mi1, s1) = (t1 / 3600, t1 % 3600 / 60, t1 % 60);
    let (h2, mi2, s2) = (t2 / 3600, t2 % 3600 / 60, t2 % 60);
    lemma_field_order(y1 as nat, y2 as nat, 4);
    lemma_field_order(y2 as nat, y1 as nat, 4);
    lemma_field_order(mo1 as nat, mo2 as nat, 2);
    lemma_field_order(mo2 as nat, mo1 as nat, 2);
    lemma_field_order(d1 as nat, d2 as nat, 2);
    lemma_field_order(d2 as nat, d1 as nat, 2);
    lemma_field_order(h1 as nat, h2 as nat, 2);
    lemma_field_order(h2 as nat, h1 as nat, 2);
    lemma_field_order(mi1 as nat, mi2 as nat, 2);
    lemma_field_order(mi2 as nat, mi1 as nat, 2);
    lemma_field_order(s1 as nat, s2 as nat, 2);
    lemma_field_order(s2 as nat, s1 as nat, 2);
    lemma_field_order(ms1 as nat, ms2 as nat, 3);
    lemma_field_order(ms2 as nat, ms1 as nat, 3);
    lemma_same_char('-');
    lemma_same_char('T');
    lemma_same_char(':');
    lemma_same_char('.');
    lemma_same_char('Z');
    let a1 = dec_pad(y1 as nat, 4);
    let a2 = dec_pad(y2 as nat, 4);
    let b1 = a1 + seq!['-'];
    let b2 = a2 + seq!['-'];
    lemma_less_concat(a1, seq!['-'], a2, seq!['-']);
    let c1 = b1 + dec_pad(mo1 as nat, 2);
    let c2 = b2 + dec_pad(mo2 as nat, 2);
    lemma_less_concat(b1, dec_pad(mo1 as nat, 2), b2, dec_pad(mo2 as nat, 2));
    let e1 = c1 + seq!['-'];
    let e2 = c2 + seq!['-'];
    lemma_less_concat(c1, seq!['-'], c2, seq!['-']);
    let f1 = e1 + dec_pad(d1 as nat, 2);
    let f2 = e2 + dec_pad(d2 as nat, 2);
    lemma_less_concat(e1, dec_pad(d1 as nat, 2), e2, dec_pad(d2 as nat, 2));
    let g1 = f1 + seq!['T'];
    let g2 = f2 + seq!['T'];
    lemma_less_concat(f1, seq!['T'], f2, seq!['T']);
    let i1 = g1 + dec_pad(h1 as nat, 2);
    let i2 = g2 + dec_pad(h2 as nat, 2);
    lemma_less_concat(g1, dec_pad(h1 as nat, 2), g2, dec_pad(h2 as nat, 2));
    let j1 = i1 + seq![':'];
    let j2 = i2 + seq![':'];
    lemma_less_concat(i1, seq![':'], i2, seq![':']);
    let k1 = j1 + dec_pad(mi1 as nat, 2);
    let k2 = j2 + dec_pad(mi2 as nat, 2);
    lemma_less_concat(j1, dec_pad(mi1 as nat, 2), j2, dec_pad(mi2 as nat, 2));
    let l1 = k1 + seq![':'];
    let l2 = k2 + seq![':'];
    lemma_less_concat(k1, seq![':'], k2, seq![':']);
    let m1 = l1 + dec_pad(s1 as nat, 2);
    let m2 = l2 + dec_pad(s2 as nat, 2);
    lemma_less_concat(l1, dec_pad(s1 as nat, 2), l2, dec_pad(s2 as nat, 2));
    let n1 = m1 + seq!['.'];
    let n2 = m2 + seq!['.'];
    lemma_less_concat(m1, seq!['.'], m2, seq!['.']);
    let o1 = n1 + dec_pad(ms1 as nat, 3);
    let o2 = n2 + dec_pad(ms2 as nat, 3);
    lemma_less_concat(n1, dec_pad(ms1 as nat, 3), n2, dec_pad(ms2 as nat, 3));
    lemma_less_concat(o1, seq!['Z'], o2, seq!['Z']);
    assert(rfc3339_text(y1, mo1, d1, t1, ms1) == o1 + seq!['Z']);
    assert(rfc3339_text(y2, mo2, d2, t2, ms2) == o2 + seq!['Z']);
    assert(t1 == 3600 * h1 + 60 * mi1 + s1 && 0 <= mi1 < 60 && 0 <= s1 < 60 && 0 <= h1 < 24);
    assert(t2 == 3600 * h2 + 60 * mi2 + s2 && 0 <= mi2 < 60 && 0 <= s2 < 60 && 0 <= h2 < 24);
}

/// Every day from the epoch on falls on a calendar date.
proof fn lemma_date_exists(days: int)
    requires
        0 <= days,
    ensures
        exists|y: int, m: int, d: int| valid_date(y, m, d) && days_since_epoch(y, m, d) == days,
{
    let shifted = days + 719468;
    let era = shifted / 146097;
    let doe = shifted - era * 146097;
    lemma_year_of_era(doe);
    let yoe = (doe - doe / 1460 + doe / 36524 - doe / 146096) / 365;
    let year = yoe + era * 400;
    let doy = doe - (365 * yoe + yoe / 4 - yoe / 100);
    lemma_month_of_year(doy);
    lemma_march_year_start(era, yoe);
    lemma_leap_in_era(era, yoe + 1);
    assert(400 * era + (yoe + 1) == year + 1);
    lemma_date_of_march_day(year, doy);
    let mp = (5 * doy + 2) / 153;
    let d = doy - march_month_start(mp) + 1;
    let m = if mp < 10 { mp + 3 } else { mp - 9 };
    let yy = if m <= 2 { year + 1 } else { year };
    assert(valid_date(yy, m, d) && days_since_epoch(yy, m, d) == days);
}

proof fn lemma_days_before_month_grows(y: int, a: int, b: int)
    requires
        1 <= a <= b,
    ensures
        days_before_month(y, a) <= days_before_month(y, b),
    decreases b - a,
{
    if a < b {
        lemma_days_before_month_grows(y, a, b - 1);
    }
}

proof fn lemma_earlier_date(y1: int, m1: int, d1: int, y2: int, m2: int, d2: int)
    requires
        valid_date(y1, m1, d1),
        valid_date(y2, m2, d2),
        y1 < y2 || (y1 == y2 && (m1 < m2 || (m1 == m2 && d1 < d2))),
    ensures
        days_since_epoch(y1, m1, d1) < days_since_epoch(y2, m2, d2),
{
    lemma_day_in_year(y1, m1, d1);
    lemma_day_in_year(y2, m2, d2);
    if y1 < y2 {
        lemma_days_before_year_grows(y1 + 1, y2);
    } else if m1 < m2 {
        lemma_days_before_month_grows(y1, m1 + 1, m2);
    }
}

/// Days count in the order of dates: earlier dates have fewer days since the epoch.
proof fn lemma_date_order(y1: int, m1: int, d1: int, y2: int, m2: int, d2: int)
    requires
        valid_date(y1, m1, d1),
        valid_date(y2, m2, d2),
    ensures
        (days_since_epoch(y1, m1, d1) < days_since_epoch(y2, m2, d2)) == (y1 < y2 || (y1 == y2 && (m1 < m2
            || (m1 == m2 && d1 < d2)))),
        (days_since_epoch(y1, m1, d1) == days_since_epoch(y2, m2, d2)) == (y1 == y2 && m1 == m2 && d1 == d2),
{
    if y1 < y2 || (y1 == y2 && (m1 < m2 || (m1 == m2 && d1 < d2))) {
        lemma_earlier_date(y1, m1, d1, y2, m2, d2);
    } else if y2 < y1 || (y1 == y2 && (m2 < m1 || (m1 == m2 && d2 < d1))) {
        lemma_earlier_date(y2, m2, d2, y1, m1, d1);
    }
}

/// The date of a day before the year 10000 has a four-digit year.
proof fn lemma_four_digit_year(y: int, m: int, d: int)
    requires
        valid_date(y, m, d),
        days_since_epoch(y, m, d) < 2932897,
    ensures
        y < 10000,
{
    lemma_day_in_year(y, m, d);
    if y >= 10000 {
        lemma_days_before_year_grows(10000, y);
        lemma_days_before_year(10000);
        assert(leap_count(9999) == 2424);
        assert(leap_count(1969) == 477);
    }
}

/// RFC 3339 timestamps of instants before the year 10000 are 24 characters long, and
/// sort as text exactly as their instants sort in time; equal texts are equal instants.
pub proof fn lemma_timestamps_sort_like_instants(s1: nat, ms1: nat, s2: nat, ms2: nat)
    requires
        s1 < 253402300800,
        s2 < 253402300800,
        ms1 < 1000,
        ms2 < 1000,
    ensures
        utc_text(s1, ms1).len() == 24,
        chars_less(utc_text(s1, ms1), utc_text(s2, ms2)) <==> (s1 < s2 || (s1 == s2 && ms1 < ms2)),
        utc_text(s1, ms1) == utc_text(s2, ms2) <==> (s1 == s2 && ms1 == ms2),
{
    lemma_date_exists((s1 / 86400) as int);
    lemma_date_exists((s2 / 86400) as int);
    let (y1, m1, d1) = utc_date((s1 / 86400) as int);
    let (y2, m2, d2) = utc_date((s2 / 86400) as int);
    lemma_four_digit_year(y1, m1, d1);
    lemma_four_digit_year(y2, m2, d2);
    lemma_date_order(y1, m1, d1, y2, m2, d2);
    let t1 = (s1 % 86400) as int;
    let t2 = (s2 % 86400) as int;
    lemma_text_order(y1, m1, d1, t1, ms1 as int, y2, m2, d2, t2, ms2 as int);
    assert(s1 == 86400 * (s1 / 86400) + s1 % 86400);
    assert(s2 == 86400 * (s2 / 86400) + s2 % 86400);
}

/// The fixed layout `YYYY-MM-DDTHH:MM:SS.mmmZ`: 24 characters, the separators in their
/// places and a digit everywhere else.
pub open spec fn has_timestamp_shape(t: Seq<char>) -> bool {
    &&& t.len() == 24
    &&& t[4] == '-'
    &&& t[7] == '-'
    &&& t[10] == 'T'
    &&& t[13] == ':'
    &&& t[16] == ':'
    &&& t[19] == '.'
    &&& t[23] == 'Z'
    &&& forall|i: int|
        0 <= i < 24 && i != 4 && i != 7 && i != 10 && i != 13 && i != 16 && i != 19 && i != 23 ==> is_digit(
            #[trigger] t[i],
        )
}

/// An RFC 3339 timestamp of an instant before the year 10000 has the shape
/// `YYYY-MM-DDThh:mm:ss.mmmZ`: 24 characters, with its separators in place.
pub proof fn lemma_timestamp_shape(secs: nat, millis: nat)
    requires
        secs < 253402300800,
        millis < 1000,
    ensures
        has_timestamp_shape(utc_text(secs, millis)),
{
    reveal_with_fuel(pow10, 5);
    lemma_date_exists((secs / 86400) as int);
    let (y, m, d) = utc_date((secs / 86400) as int);
    lemma_four_digit_year(y, m, d);
    let t = (secs % 86400) as int;
    let fields = seq![
        (y as nat, 4nat),
        (m as nat, 2nat),
        (d as nat, 2nat),
        ((t / 3600) as nat, 2nat),
        ((t % 3600 / 60) as nat, 2nat),
        ((t % 60) as nat, 2nat),
        (millis, 3nat),
    ];
    assert forall|k: int| 0 <= k < 7 implies dec_pad((#[trigger] fields[k]).0, fields[k].1) == digits(
        fields[k].0,
        fields[k].1,
    ) && digits(fields[k].0, fields[k].1).len() == fields[k].1 && forall|j: int|
        0 <= j < fields[k].1 ==> is_digit(#[trigger] digits(fields[k].0, fields[k].1)[j]) by {
        lemma_pad_is_digits(fields[k].0, fields[k].1);
        lemma_digits_order(fields[k].0, fields[k].0, fields[k].1);
        lemma_digits_are_digits(fields[k].0, fields[k].1);
    }
    assert(fields[0] == (y as nat, 4nat));
    assert(fields[1] == (m as nat, 2nat));
    assert(fields[2] == (d as nat, 2nat));
    assert(fields[3] == ((t / 3600) as nat, 2nat));
    assert(fields[4] == ((t % 3600 / 60) as nat, 2nat));
    assert(fields[5] == ((t % 60) as nat, 2nat));
    assert(fields[6] == (millis, 3nat));
}

proof fn lemma_digits_are_digits(n: nat, w: nat)
    ensures
        forall|j: int| 0 <= j < digits(n, w).len() ==> is_digit(#[trigger] digits(n, w)[j]),
    decreases w,
{
    if w > 0 {
        lemma_digits_are_digits(n / 10, (w - 1) as nat);
        let p = digits(n / 10, (w - 1) as nat);
        assert forall|j: int| 0 <= j < digits(n, w).len() implies is_digit(#[trigger] digits(n, w)[j]) by {
            if j < p.len() {
                assert(digits(n, w)[j] == p[j]);
            }
        }
    }
}

} // verus!
