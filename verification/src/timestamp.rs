//! RFC 3339 timestamp normalization: parsing `YYYY-MM-DDThh:mm:ss`,
//! an optional fraction of up to nine digits, and a `Z` or `±hh:mm`
//! offset, into UTC nanoseconds since the epoch.
//!
//! The grammar and the calendar arithmetic are both defined as spec
//! functions, so a timestamp's numeric value is pinned down exactly:
//! day counting uses the proleptic Gregorian calendar, the date/time
//! separator must be `T` or `t` (a space is rejected), seconds run
//! `00`–`59` (leap seconds are rejected), and fractions finer than a
//! nanosecond are rejected rather than truncated.

use crate::text::{all_digits, dec_val, is_digit};
use vstd::string::StringSliceAdditionalSpecFns;
use vstd::prelude::*;

verus! {

/// Gregorian leap year.
pub open spec fn is_leap(y: int) -> bool {
    y % 4 == 0 && (y % 100 != 0 || y % 400 == 0)
}

pub open spec fn days_in_year(y: int) -> int {
    if is_leap(y) {
        366
    } else {
        365
    }
}

pub open spec fn days_in_month(y: int, m: int) -> int {
    if m == 2 {
        if is_leap(y) {
            29
        } else {
            28
        }
    } else if m == 4 || m == 6 || m == 9 || m == 11 {
        30
    } else {
        31
    }
}

/// Days in all years `0 <= k < y` of the proleptic Gregorian calendar.
pub open spec fn days_before_year(y: int) -> int
    decreases y,
{
    if y <= 0 {
        0
    } else {
        days_before_year(y - 1) + days_in_year(y - 1)
    }
}

/// Days in all months `1 <= k < m` of year `y`.
pub open spec fn days_before_month(y: int, m: int) -> int
    decreases m,
{
    if m <= 1 {
        0
    } else {
        days_before_month(y, m - 1) + days_in_month(y, m - 1)
    }
}

/// Day count of `y-m-d` relative to 1970-01-01 (negative before it).
pub open spec fn days_from_civil(y: int, m: int, d: int) -> int {
    days_before_year(y) + days_before_month(y, m) + (d - 1) - days_before_year(1970)
}

pub open spec fn valid_date(y: int, m: int, d: int) -> bool {
    0 <= y <= 9999 && 1 <= m <= 12 && 1 <= d <= days_in_month(y, m)
}

pub open spec fn valid_time(h: int, mi: int, s: int) -> bool {
    0 <= h < 24 && 0 <= mi < 60 && 0 <= s < 60
}

/// The parsed fields of a timestamp: calendar date, time of day,
/// nanosecond fraction, and the offset from UTC in minutes.
pub struct TsParts {
    pub y: int,
    pub mo: int,
    pub d: int,
    pub h: int,
    pub mi: int,
    pub s: int,
    pub ns: int,
    pub off_min: int,
}

pub open spec fn wf_parts(p: TsParts) -> bool {
    &&& valid_date(p.y, p.mo, p.d)
    &&& valid_time(p.h, p.mi, p.s)
    &&& 0 <= p.ns < 1_000_000_000
    &&& -1439 <= p.off_min <= 1439
}

/// Powers of ten.
pub open spec fn pow10(k: int) -> int
    decreases k,
{
    if k <= 0 {
        1
    } else {
        10 * pow10(k - 1)
    }
}

/// Index of the first non-digit byte at or after `i`, or `b.len()`.
pub open spec fn skip_digits(b: Seq<u8>, i: int) -> int
    decreases b.len() - i,
{
    if i < 0 || i >= b.len() {
        b.len() as int
    } else if is_digit(b[i]) {
        skip_digits(b, i + 1)
    } else {
        i
    }
}

/// The datetime-and-fraction part of a well-formed timestamp ends, and
/// its offset begins, at this index.
pub open spec fn off_start(b: Seq<u8>) -> int {
    if b.len() > 19 && b[19] == 46 {
        skip_digits(b, 20)
    } else {
        19
    }
}

/// Does `b` have the fixed `YYYY-MM-DDThh:mm:ss` layout (both `T` and
/// `t` are accepted as the separator)?
pub open spec fn layout_ok(b: Seq<u8>) -> bool {
    &&& b.len() >= 20
    &&& all_digits(b.subrange(0, 4))
    &&& b[4] == 45
    &&& all_digits(b.subrange(5, 7))
    &&& b[7] == 45
    &&& all_digits(b.subrange(8, 10))
    &&& (b[10] == 84 || b[10] == 116)
    &&& all_digits(b.subrange(11, 13))
    &&& b[13] == 58
    &&& all_digits(b.subrange(14, 16))
    &&& b[16] == 58
    &&& all_digits(b.subrange(17, 19))
}

/// The fraction, if present, is `.` followed by one to nine digits.
pub open spec fn frac_ok(b: Seq<u8>) -> bool {
    b[19] == 46 ==> 21 <= off_start(b) <= 29
}

/// Nanoseconds denoted by the fraction digits `b[20..off_start]`,
/// scaled as if padded with zeros to nine digits.
pub open spec fn frac_value(b: Seq<u8>) -> int {
    if b.len() > 19 && b[19] == 46 {
        let k = off_start(b);
        dec_val(b.subrange(20, k)) * pow10(9 - (k - 20))
    } else {
        0
    }
}

/// The offset suffix: `Z`/`z`, or a sign and `hh:mm` within range.
pub open spec fn offset_ok(b: Seq<u8>) -> bool {
    let k = off_start(b);
    ||| (k + 1 == b.len() && (b[k] == 90 || b[k] == 122))
    ||| (k + 6 == b.len() && (b[k] == 43 || b[k] == 45) && all_digits(b.subrange(k + 1, k + 3))
        && b[k + 3] == 58 && all_digits(b.subrange(k + 4, k + 6)) && dec_val(
        b.subrange(k + 1, k + 3),
    ) <= 23 && dec_val(b.subrange(k + 4, k + 6)) <= 59)
}

/// Offset from UTC in minutes denoted by the suffix.
pub open spec fn offset_minutes(b: Seq<u8>) -> int {
    let k = off_start(b);
    if b[k] == 90 || b[k] == 122 {
        0
    } else {
        let v = dec_val(b.subrange(k + 1, k + 3)) * 60 + dec_val(b.subrange(k + 4, k + 6));
        if b[k] == 45 {
            -v
        } else {
            v
        }
    }
}

/// Fields denoted by a timestamp whose layout, fraction and offset all
/// check out; `None` otherwise, or when the date or time is invalid.
pub open spec fn ts_parts(b: Seq<u8>) -> Option<TsParts> {
    if layout_ok(b) && frac_ok(b) && offset_ok(b) {
        let p = TsParts {
            y: dec_val(b.subrange(0, 4)),
            mo: dec_val(b.subrange(5, 7)),
            d: dec_val(b.subrange(8, 10)),
            h: dec_val(b.subrange(11, 13)),
            mi: dec_val(b.subrange(14, 16)),
            s: dec_val(b.subrange(17, 19)),
            ns: frac_value(b),
            off_min: offset_minutes(b),
        };
        if valid_date(p.y, p.mo, p.d) && valid_time(p.h, p.mi, p.s) {
            Some(p)
        } else {
            None
        }
    } else {
        None
    }
}

/// UTC nanoseconds since the epoch denoted by the fields.
pub open spec fn parts_value_ns(p: TsParts) -> int {
    (days_from_civil(p.y, p.mo, p.d) * 86400 + p.h * 3600 + p.mi * 60 + p.s - p.off_min * 60)
        * 1_000_000_000 + p.ns
}

/// What normalization yields for the byte text `b`: the UTC nanosecond
/// value when `b` is a well-formed timestamp whose value fits an `i64`,
/// and `None` otherwise.
pub open spec fn ts_norm(b: Seq<u8>) -> Option<int> {
    match ts_parts(b) {
        Option::None => Option::None,
        Option::Some(p) => {
            let v = parts_value_ns(p);
            if i64::MIN <= v <= i64::MAX {
                Option::Some(v)
            } else {
                Option::None
            }
        },
    }
}

/// `skip_digits(b, i)` is the unique index `j` at or after `i` with
/// only digits before it and a non-digit (or the end) at it.
pub proof fn lemma_skip_digits_char(b: Seq<u8>, i: int, j: int)
    requires
        0 <= i <= j <= b.len(),
        forall|k: int| i <= k < j ==> is_digit(b[k]),
        j < b.len() ==> !is_digit(b[j]),
    ensures
        skip_digits(b, i) == j,
    decreases j - i,
{
    if i < j {
        lemma_skip_digits_char(b, i + 1, j);
    }
}

/// A string of `n` digits is worth less than `pow10(n)`.
pub proof fn lemma_dec_val_bound(s: Seq<u8>)
    requires
        all_digits(s),
    ensures
        0 <= dec_val(s) < pow10(s.len() as int),
    decreases s.len(),
{
    if s.len() > 0 {
        assert(all_digits(s.drop_last()));
        lemma_dec_val_bound(s.drop_last());
        assert(pow10(s.len() as int) == 10 * pow10(s.len() - 1));
    }
}

pub proof fn lemma_pow10_pos(k: int)
    ensures
        pow10(k) >= 1,
    decreases k,
{
    if k > 0 {
        lemma_pow10_pos(k - 1);
    }
}

/// Days before a year grow by at least 365 a year.
pub proof fn lemma_dby_bounds(y: int)
    requires
        0 <= y,
    ensures
        0 <= days_before_year(y) <= 366 * y,
    decreases y,
{
    if y > 0 {
        lemma_dby_bounds(y - 1);
    }
}

/// Executable counterpart of `days_before_year`.
fn days_before_year_num(y: u32) -> (r: u64)
    requires
        y <= 10000,
    ensures
        r == days_before_year(y as int),
        r <= 3_660_000,
{
    proof {
        lemma_dby_bounds(y as int);
    }
    let mut acc: u64 = 0;
    let mut k: u32 = 0;
    while k < y
        invariant
            0 <= k,
            y <= 10000,
            k <= if y > 0 { y } else { 0u32 },
            acc == days_before_year(k as int),
            acc <= 366 * (k as u64),
        decreases y - k,
    {
        let leap = k % 4 == 0 && (k % 100 != 0 || k % 400 == 0);
        if leap {
            acc = acc + 366;
        } else {
            acc = acc + 365;
        }
        k = k + 1;
    }
    acc
}

/// Executable counterpart of `days_before_month`.
fn days_before_month_num(y: u32, m: u32) -> (r: u32)
    requires
        y <= 10000,
        1 <= m <= 12,
    ensures
        r == days_before_month(y as int, m as int),
        r <= 372,
{
    let leap = y % 4 == 0 && (y % 100 != 0 || y % 400 == 0);
    let mut acc: u32 = 0;
    let mut k: u32 = 1;
    while k < m
        invariant
            1 <= k <= m <= 12,
            leap == is_leap(y as int),
            acc == days_before_month(y as int, k as int),
            acc <= 31 * (k as u32),
        decreases m - k,
    {
        let dim: u32 = if k == 2 {
            if leap {
                29
            } else {
                28
            }
        } else if k == 4 || k == 6 || k == 9 || k == 11 {
            30
        } else {
            31
        };
        acc = acc + dim;
        k = k + 1;
    }
    acc
}

/// Executable counterpart of `days_in_month`.
fn days_in_month_num(y: u32, m: u32) -> (r: u32)
    requires
        y <= 10000,
        1 <= m <= 12,
    ensures
        r == days_in_month(y as int, m as int),
{
    let leap = y % 4 == 0 && (y % 100 != 0 || y % 400 == 0);
    if m == 2 {
        if leap {
            29
        } else {
            28
        }
    } else if m == 4 || m == 6 || m == 9 || m == 11 {
        30
    } else {
        31
    }
}

/// Scale factor that pads `taken` fraction digits to nine.
fn pow10_num(k: u32) -> (r: u64)
    requires
        k <= 9,
    ensures
        r == pow10(k as int),
        r <= 1_000_000_000,
{
    let mut r: u64 = 1;
    let mut i: u32 = 0;
    while i < k
        invariant
            0 <= i <= k <= 9,
            r == pow10(i as int),
            r <= 1_000_000_000,
        decreases k - i,
    {
        proof {
            lemma_pow10_pos(i as int);
            assert(pow10(i + 1) == 10 * pow10(i as int));
            assert(pow10(9) == 1_000_000_000) by {
                reveal_with_fuel(pow10, 10);
            }
            lemma_pow10_mono(i + 1, 9);
        }
        r = r * 10;
        i = i + 1;
    }
    r
}

pub proof fn lemma_pow10_mono(a: int, b: int)
    requires
        a <= b,
    ensures
        pow10(a) <= pow10(b),
    decreases b - a,
{
    if a < b {
        lemma_pow10_mono(a, b - 1);
        lemma_pow10_pos(b - 1);
    }
}

/// Two decimal digits at `b[lo..lo+2]`.
fn two_digits(b: &[u8], lo: usize) -> (r: Option<u64>)
    requires
        lo + 2 <= b@.len(),
    ensures
        match r {
            Option::Some(v) => all_digits(b@.subrange(lo as int, lo + 2)) && v == dec_val(
                b@.subrange(lo as int, lo + 2),
            ) && v <= 99,
            Option::None => !all_digits(b@.subrange(lo as int, lo + 2)),
        },
{
    let n = b.len();
    assert(lo + 2 <= n);
    let r = crate::text::parse_dec_range(b, lo, lo + 2, 99);
    proof {
        let f = b@.subrange(lo as int, lo + 2);
        if all_digits(f) {
            lemma_dec_val_bound(f);
            assert(pow10(2) == 100) by {
                reveal_with_fuel(pow10, 3);
            }
        }
    }
    r
}

/// Four decimal digits at `b[lo..lo+4]`.
fn four_digits(b: &[u8], lo: usize) -> (r: Option<u64>)
    requires
        lo + 4 <= b@.len(),
    ensures
        match r {
            Option::Some(v) => all_digits(b@.subrange(lo as int, lo + 4)) && v == dec_val(
                b@.subrange(lo as int, lo + 4),
            ) && v <= 9999,
            Option::None => !all_digits(b@.subrange(lo as int, lo + 4)),
        },
{
    let n = b.len();
    assert(lo + 4 <= n);
    let r = crate::text::parse_dec_range(b, lo, lo + 4, 9999);
    proof {
        let f = b@.subrange(lo as int, lo + 4);
        if all_digits(f) {
            lemma_dec_val_bound(f);
            assert(pow10(4) == 10000) by {
                reveal_with_fuel(pow10, 5);
            }
        }
    }
    r
}

/// Parses an RFC 3339 timestamp into UTC nanoseconds since the epoch.
///
/// Returns `None` exactly when the text is not a well-formed timestamp
/// of the accepted grammar, its date or time fields are out of range,
/// or its value does not fit a signed 64-bit nanosecond count.
pub fn parse_timestamp(ts_iso: &str) -> (r: Option<i64>)
    ensures
        match r {
            Option::Some(v) => ts_norm(ts_iso.spec_bytes()) == Option::Some(v as int),
            Option::None => ts_norm(ts_iso.spec_bytes()) is None,
        },
{
    let b = ts_iso.as_bytes();
    let ghost bs = ts_iso.spec_bytes();
    let n = b.len();
    if n < 20 {
        return Option::None;
    }
    // Fixed layout: date, separator, time.
    let y = match four_digits(b, 0) {
        Option::Some(v) => v,
        Option::None => {
            return Option::None;
        },
    };
    if b[4] != 45 {
        return Option::None;
    }
    let mo = match two_digits(b, 5) {
        Option::Some(v) => v,
        Option::None => {
            return Option::None;
        },
    };
    if b[7] != 45 {
        return Option::None;
    }
    let d = match two_digits(b, 8) {
        Option::Some(v) => v,
        Option::None => {
            return Option::None;
        },
    };
    if !(b[10] == 84 || b[10] == 116) {
        return Option::None;
    }
    let h = match two_digits(b, 11) {
        Option::Some(v) => v,
        Option::None => {
            return Option::None;
        },
    };
    if b[13] != 58 {
        return Option::None;
    }
    let mi = match two_digits(b, 14) {
        Option::Some(v) => v,
        Option::None => {
            return Option::None;
        },
    };
    if b[16] != 58 {
        return Option::None;
    }
    let sec = match two_digits(b, 17) {
        Option::Some(v) => v,
        Option::None => {
            return Option::None;
        },
    };
    proof {
        assert(layout_ok(bs));
    }
    // Optional fraction of one to nine digits.
    let mut k: usize = 19;
    let mut ns: u64 = 0;
    if b[19] == 46 {
        let mut j: usize = 20;
        while j < n && 48 <= b[j] && b[j] <= 57
            invariant
                b@ == bs,
                20 <= j <= n == bs.len(),
                forall|t: int| 20 <= t < j ==> is_digit(bs[t]),
            decreases n - j,
        {
            j = j + 1;
        }
        proof {
            lemma_skip_digits_char(bs, 20, j as int);
            assert(off_start(bs) == j);
        }
        if j == 20 || j > 29 {
            return Option::None;
        }
        let taken = j - 20;
        let fv = match crate::text::parse_dec_range(b, 20, j, 999_999_999) {
            Option::Some(v) => v,
            Option::None => {
                proof {
                    let fd = bs.subrange(20, j as int);
                    assert(all_digits(fd));
                    lemma_dec_val_bound(fd);
                    lemma_pow10_mono(fd.len() as int, 9);
                    assert(pow10(9) == 1_000_000_000) by {
                reveal_with_fuel(pow10, 10);
            }
                }
                return Option::None;
            },
        };
        let scale = pow10_num((9 - taken) as u32);
        proof {
            let fd = bs.subrange(20, j as int);
            lemma_dec_val_bound(fd);
            lemma_pow10_add(taken as int, 9 - taken as int);
            assert(pow10(9) == 1_000_000_000) by {
                reveal_with_fuel(pow10, 10);
            }
            assert(fv * scale < 1_000_000_000) by (nonlinear_arith)
                requires
                    fv < pow10(taken as int),
                    scale == pow10(9 - taken as int),
                    pow10(taken as int) * pow10(9 - taken as int) == pow10(9),
                    pow10(9) == 1_000_000_000,
                    fv >= 0,
                    scale >= 1;
        }
        ns = fv * scale;
        k = j;
        proof {
            assert(frac_value(bs) == ns);
        }
    } else {
        proof {
            assert(off_start(bs) == 19);
            assert(frac_value(bs) == 0);
        }
    }
    // Offset suffix.
    if k >= n {
        return Option::None;
    }
    let off_min: i32;
    let ob = b[k];
    if ob == 90 || ob == 122 {
        if k + 1 != n {
            return Option::None;
        }
        off_min = 0;
    } else if ob == 43 || ob == 45 {
        if k + 6 != n {
            return Option::None;
        }
        let oh = match two_digits(b, k + 1) {
            Option::Some(v) => v,
            Option::None => {
                return Option::None;
            },
        };
        if b[k + 3] != 58 {
            return Option::None;
        }
        let om = match two_digits(b, k + 4) {
            Option::Some(v) => v,
            Option::None => {
                return Option::None;
            },
        };
        if oh > 23 || om > 59 {
            return Option::None;
        }
        let v = (oh as i32) * 60 + (om as i32);
        off_min = if ob == 45 {
            -v
        } else {
            v
        };
    } else {
        return Option::None;
    }
    proof {
        assert(offset_ok(bs));
        assert(offset_minutes(bs) == off_min as int);
    }
    // Field validity.
    if !(1 <= mo && mo <= 12) {
        return Option::None;
    }
    let dim = days_in_month_num(y as u32, mo as u32);
    if !(1 <= d && d <= dim as u64) {
        return Option::None;
    }
    if !(h <= 23 && mi <= 59 && sec <= 59) {
        return Option::None;
    }
    // Calendar arithmetic, exactly as the spec states it.
    let dby = days_before_year_num(y as u32) as i64;
    let epoch = days_before_year_num(1970) as i64;
    let dbm = days_before_month_num(y as u32, mo as u32) as i64;
    let days: i64 = dby + dbm + (d as i64 - 1) - epoch;
    let secs: i64 = days * 86400 + (h as i64) * 3600 + (mi as i64) * 60 + (sec as i64) - (
    off_min as i64) * 60;
    let total: i128 = (secs as i128) * 1_000_000_000 + (ns as i128);
    proof {
        assert(ts_parts(bs) == Option::Some(
            TsParts {
                y: y as int,
                mo: mo as int,
                d: d as int,
                h: h as int,
                mi: mi as int,
                s: sec as int,
                ns: ns as int,
                off_min: off_min as int,
            },
        ));
        assert(parts_value_ns(ts_parts(bs)->Some_0) == total);
    }
    if total >= -0x8000_0000_0000_0000i128 && total <= 0x7fff_ffff_ffff_ffffi128 {
        Option::Some(total as i64)
    } else {
        Option::None
    }
}

/// `pow10` turns addition into multiplication.
pub proof fn lemma_pow10_add(a: int, b: int)
    requires
        0 <= a,
        0 <= b,
    ensures
        pow10(a + b) == pow10(a) * pow10(b),
    decreases a,
{
    if a > 0 {
        lemma_pow10_add(a - 1, b);
        assert(pow10(a + b) == 10 * pow10(a - 1 + b));
        assert(10 * (pow10(a - 1) * pow10(b)) == (10 * pow10(a - 1)) * pow10(b))
            by (nonlinear_arith);
    }
}

/// A digit string splits at any cut into high and low parts.
proof fn lemma_dec_val_split(s: Seq<u8>, k: int)
    requires
        0 <= k <= s.len(),
    ensures
        dec_val(s) == dec_val(s.subrange(0, k)) * pow10(s.len() - k) + dec_val(
            s.subrange(k, s.len() as int),
        ),
    decreases s.len() - k,
{
    if k == s.len() {
        assert(s.subrange(0, k) =~= s);
        assert(dec_val(s.subrange(k, s.len() as int)) == 0);
    } else {
        let n = s.len() as int;
        let s1 = s.drop_last();
        assert(s1 =~= s.subrange(0, n - 1));
        lemma_dec_val_split(s1, k);
        assert(s1.subrange(0, k) =~= s.subrange(0, k));
        assert(s1.subrange(k, n - 1) =~= s.subrange(k, n - 1));
        let pre = dec_val(s.subrange(0, k));
        let mid = dec_val(s.subrange(k, n - 1));
        let d = s[n - 1] - 48;
        assert(s.subrange(k, n).drop_last() =~= s.subrange(k, n - 1));
        assert(s.subrange(k, n).last() == s[n - 1]);
        assert(dec_val(s.subrange(k, n)) == mid * 10 + d);
        assert(dec_val(s) == dec_val(s1) * 10 + d);
        assert(dec_val(s1) == pre * pow10(n - 1 - k) + mid);
        assert(pow10(n - k) == 10 * pow10(n - k - 1));
        assert((pre * pow10(n - 1 - k) + mid) * 10 == pre * (10 * pow10(n - 1 - k)) + mid * 10)
            by (nonlinear_arith);
    }
}

/// Two equal-length digit strings that agree up to `r` and differ
/// there compare by their values.
proof fn lemma_dec_val_lt(x: Seq<u8>, y: Seq<u8>, r: int)
    requires
        x.len() == y.len(),
        all_digits(x),
        all_digits(y),
        0 <= r < x.len(),
        x.subrange(0, r) == y.subrange(0, r),
        x[r] < y[r],
    ensures
        dec_val(x) < dec_val(y),
{
    let n = x.len() as int;
    let p = pow10(n - r - 1);
    lemma_dec_val_split(x, r + 1);
    lemma_dec_val_split(y, r + 1);
    let xh = dec_val(x.subrange(0, r + 1));
    let yh = dec_val(y.subrange(0, r + 1));
    let xt = dec_val(x.subrange(r + 1, n));
    let yt = dec_val(y.subrange(r + 1, n));
    assert(x.subrange(0, r + 1).drop_last() =~= x.subrange(0, r));
    assert(y.subrange(0, r + 1).drop_last() =~= y.subrange(0, r));
    assert(x.subrange(0, r + 1).last() == x[r]);
    assert(y.subrange(0, r + 1).last() == y[r]);
    assert(xh == dec_val(x.subrange(0, r)) * 10 + (x[r] - 48));
    assert(yh == dec_val(y.subrange(0, r)) * 10 + (y[r] - 48));
    assert(xh + 1 <= yh);
    assert(all_digits(x.subrange(r + 1, n)));
    assert(all_digits(y.subrange(r + 1, n)));
    lemma_dec_val_bound(x.subrange(r + 1, n));
    lemma_dec_val_bound(y.subrange(r + 1, n));
    assert(x.subrange(r + 1, n).len() == n - r - 1);
    lemma_pow10_pos(n - r - 1);
    assert(xh * p + xt < yh * p + yt) by (nonlinear_arith)
        requires
            xh + 1 <= yh,
            0 <= xt < p,
            0 <= yt,
            p >= 1;
}

/// Days before a month grow with the month.
proof fn lemma_dbm_mono(y: int, m1: int, m2: int)
    requires
        m1 <= m2,
    ensures
        days_before_month(y, m1) <= days_before_month(y, m2),
    decreases m2 - m1,
{
    if m1 < m2 {
        lemma_dbm_mono(y, m1, m2 - 1);
        assert(days_in_month(y, m2 - 1) > 0);
    }
}

/// All twelve months together make the year.
proof fn lemma_dbm_total(y: int)
    ensures
        days_before_month(y, 13) == days_in_year(y),
{
    reveal_with_fuel(days_before_month, 14);
}

/// Days before a year grow with the year.
proof fn lemma_dby_mono(y1: int, y2: int)
    requires
        y1 <= y2,
    ensures
        days_before_year(y1) <= days_before_year(y2),
    decreases y2 - y1,
{
    if y1 < y2 {
        lemma_dby_mono(y1, y2 - 1);
        assert(days_in_year(y2 - 1) > 0);
    }
}

/// A valid date is strictly inside its year's day count.
proof fn lemma_date_in_year(y: int, m: int, d: int)
    requires
        valid_date(y, m, d),
    ensures
        0 <= days_before_month(y, m) + (d - 1) < days_in_year(y),
{
    lemma_dbm_mono(y, 1, m);
    assert(days_before_month(y, m) + days_in_month(y, m) == days_before_month(y, m + 1));
    lemma_dbm_mono(y, m + 1, 13);
    lemma_dbm_total(y);
}

/// Calendar order of valid dates is day-count order.
proof fn lemma_date_lt(y1: int, m1: int, d1: int, y2: int, m2: int, d2: int)
    requires
        valid_date(y1, m1, d1),
        valid_date(y2, m2, d2),
        (y1 < y2) || (y1 == y2 && m1 < m2) || (y1 == y2 && m1 == m2 && d1 < d2),
    ensures
        days_from_civil(y1, m1, d1) < days_from_civil(y2, m2, d2),
{
    if y1 == y2 && m1 == m2 {
    } else if y1 == y2 {
        assert(days_before_month(y1, m1) + days_in_month(y1, m1) == days_before_month(
            y1,
            m1 + 1,
        ));
        lemma_dbm_mono(y1, m1 + 1, m2);
    } else {
        lemma_date_in_year(y1, m1, d1);
        assert(days_before_year(y1) + days_in_year(y1) == days_before_year(y1 + 1));
        lemma_dby_mono(y1 + 1, y2);
        lemma_date_in_year(y2, m2, d2);
    }
}

/// Field-wise order of two timestamps with the same offset is value
/// order: a later date, or the same date and a later time of day,
/// denotes strictly more nanoseconds.
proof fn lemma_parts_lt(p1: TsParts, p2: TsParts)
    requires
        wf_parts(p1),
        wf_parts(p2),
        p1.off_min == p2.off_min,
        ({
            ||| (p1.y, p1.mo, p1.d) != (p2.y, p2.mo, p2.d) && days_from_civil(p1.y, p1.mo, p1.d)
                < days_from_civil(p2.y, p2.mo, p2.d)
            ||| ((p1.y, p1.mo, p1.d) == (p2.y, p2.mo, p2.d) && (p1.h, p1.mi, p1.s, p1.ns) != (
                p2.h,
                p2.mi,
                p2.s,
                p2.ns,
            ) && (p1.h < p2.h || (p1.h == p2.h && (p1.mi < p2.mi || (p1.mi == p2.mi && (p1.s
                < p2.s || (p1.s == p2.s && p1.ns < p2.ns)))))))
        }),
    ensures
        parts_value_ns(p1) < parts_value_ns(p2),
{
    let t1 = (p1.h * 3600 + p1.mi * 60 + p1.s) * 1_000_000_000 + p1.ns;
    let t2 = (p2.h * 3600 + p2.mi * 60 + p2.s) * 1_000_000_000 + p2.ns;
    assert(0 <= t1 < 86_400_000_000_000);
    assert(0 <= t2 < 86_400_000_000_000);
    let c1 = days_from_civil(p1.y, p1.mo, p1.d);
    let c2 = days_from_civil(p2.y, p2.mo, p2.d);
    assert(parts_value_ns(p1) == c1 * 86_400_000_000_000 + t1 - p1.off_min * 60_000_000_000)
        by (nonlinear_arith)
        requires
            parts_value_ns(p1) == (c1 * 86400 + p1.h * 3600 + p1.mi * 60 + p1.s - p1.off_min * 60)
                * 1_000_000_000 + p1.ns,
            t1 == (p1.h * 3600 + p1.mi * 60 + p1.s) * 1_000_000_000 + p1.ns,
            c1 == days_from_civil(p1.y, p1.mo, p1.d);
    assert(parts_value_ns(p2) == c2 * 86_400_000_000_000 + t2 - p2.off_min * 60_000_000_000)
        by (nonlinear_arith)
        requires
            parts_value_ns(p2) == (c2 * 86400 + p2.h * 3600 + p2.mi * 60 + p2.s - p2.off_min * 60)
                * 1_000_000_000 + p2.ns,
            t2 == (p2.h * 3600 + p2.mi * 60 + p2.s) * 1_000_000_000 + p2.ns,
            c2 == days_from_civil(p2.y, p2.mo, p2.d);
    if (p1.y, p1.mo, p1.d) != (p2.y, p2.mo, p2.d) {
        assert(c1 + 1 <= c2);
        assert(c1 * 86_400_000_000_000 + 86_400_000_000_000 <= c2 * 86_400_000_000_000)
            by (nonlinear_arith)
            requires
                c1 + 1 <= c2;
    } else {
        assert(t1 < t2);
    }
}

/// Strict lexicographic (byte-wise) order.
pub open spec fn lex_lt(a: Seq<u8>, b: Seq<u8>) -> bool
    decreases a.len(),
{
    if b.len() == 0 {
        false
    } else if a.len() == 0 {
        true
    } else if a[0] < b[0] {
        true
    } else if a[0] > b[0] {
        false
    } else {
        lex_lt(a.drop_first(), b.drop_first())
    }
}

/// Equal-length strings in strict lexicographic order have a first
/// index where they differ, the smaller byte on the left.
proof fn lemma_lex_first_diff(a: Seq<u8>, b: Seq<u8>)
    requires
        a.len() == b.len(),
        lex_lt(a, b),
    ensures
        exists|r: int|
            0 <= r < a.len() && #[trigger] a.subrange(0, r) == b.subrange(0, r) && a[r] < b[r],
    decreases a.len(),
{
    assert(a.len() > 0);
    if a[0] < b[0] {
        assert(a.subrange(0, 0) =~= b.subrange(0, 0));
        assert(a.subrange(0, 0) == b.subrange(0, 0) && a[0] < b[0]);
    } else {
        assert(a[0] == b[0]);
        lemma_lex_first_diff(a.drop_first(), b.drop_first());
        let r0 = choose|r: int|
            0 <= r < a.drop_first().len() && #[trigger] a.drop_first().subrange(0, r)
                == b.drop_first().subrange(0, r) && a.drop_first()[r] < b.drop_first()[r];
        let r = r0 + 1;
        assert(a.subrange(0, r) =~= seq![a[0]] + a.drop_first().subrange(0, r0));
        assert(b.subrange(0, r) =~= seq![b[0]] + b.drop_first().subrange(0, r0));
        assert(a.subrange(0, r) == b.subrange(0, r) && a[r] < b[r]);
    }
}

/// For all valid timestamps, normalization preserves lexicographic
/// order when the two texts have the same length, the same datetime
/// separator, and identical offset suffixes: if `a` sorts strictly
/// before `b` as text, then `a` denotes strictly fewer UTC nanoseconds
/// than `b`.
pub proof fn lemma_ts_norm_preserves_order(a: Seq<u8>, b: Seq<u8>)
    requires
        ts_norm(a) is Some,
        ts_norm(b) is Some,
        a.len() == b.len(),
        a[10] == b[10],
        off_start(a) == off_start(b),
        a.subrange(off_start(a), a.len() as int) == b.subrange(off_start(b), b.len() as int),
        lex_lt(a, b),
    ensures
        ts_norm(a)->Some_0 < ts_norm(b)->Some_0,
{
    let n = a.len() as int;
    let off = off_start(a);
    let pa = ts_parts(a)->Some_0;
    let pb = ts_parts(b)->Some_0;
    lemma_lex_first_diff(a, b);
    let r = choose|r: int|
        0 <= r < n && #[trigger] a.subrange(0, r) == b.subrange(0, r) && a[r] < b[r];
    assert(forall|t: int| 0 <= t < r ==> a[t] == b[t]) by {
        assert(forall|t: int|
            0 <= t < r ==> a.subrange(0, r)[t] == a[t] && b.subrange(0, r)[t] == b[t]);
    }
    // The difference lies before the offset, which is identical.
    assert(r < off) by {
        if r >= off {
            assert(a.subrange(off, n)[r - off] == a[r]);
            assert(b.subrange(off, n)[r - off] == b[r]);
        }
    }
    assert(19 <= off <= n - 1);
    // The separators agree by the grammar, so `r` sits inside a digit
    // field or inside the fraction.
    assert(a[4] == 45 && b[4] == 45 && a[7] == 45 && b[7] == 45);
    assert(a[13] == 58 && b[13] == 58 && a[16] == 58 && b[16] == 58);
    assert(r != 4 && r != 7 && r != 10 && r != 13 && r != 16);
    assert(r != 19) by {
        if off == 19 {
            assert(r < 19);
        } else {
            assert(a.len() > 19 && a[19] == 46);
            assert(b.len() > 19 && b[19] == 46);
        }
    }
    // Offsets are equal.
    assert(pa.off_min == pb.off_min) by {
        lemma_offset_eq(a, b);
    }
    assert(wf_parts(pa) && wf_parts(pb)) by {
        lemma_parts_wf(a);
        lemma_parts_wf(b);
    }
    if r < 19 {
        // A date or time-of-day field differs first.
        let (lo, hi): (int, int) = if r < 4 {
            (0int, 4int)
        } else if r < 7 {
            (5int, 7int)
        } else if r < 10 {
            (8int, 10int)
        } else if r < 13 {
            (11int, 13int)
        } else if r < 16 {
            (14int, 16int)
        } else {
            (17int, 19int)
        };
        // Fields wholly before the difference coincide.
        if lo >= 4 {
            assert(a.subrange(0, 4) =~= b.subrange(0, 4));
        }
        if lo >= 7 {
            assert(a.subrange(5, 7) =~= b.subrange(5, 7));
        }
        if lo >= 10 {
            assert(a.subrange(8, 10) =~= b.subrange(8, 10));
        }
        if lo >= 13 {
            assert(a.subrange(11, 13) =~= b.subrange(11, 13));
        }
        if lo >= 16 {
            assert(a.subrange(14, 16) =~= b.subrange(14, 16));
        }
        // The differing field compares by value.
        assert(a.subrange(lo, hi).subrange(0, r - lo) =~= b.subrange(lo, hi).subrange(
            0,
            r - lo,
        )) by {
            assert(a.subrange(lo, hi).subrange(0, r - lo) =~= a.subrange(lo, r));
            assert(b.subrange(lo, hi).subrange(0, r - lo) =~= b.subrange(lo, r));
            assert(a.subrange(lo, r) =~= b.subrange(lo, r));
        }
        assert(a.subrange(lo, hi)[r - lo] == a[r] && b.subrange(lo, hi)[r - lo] == b[r]);
        lemma_dec_val_lt(a.subrange(lo, hi), b.subrange(lo, hi), r - lo);
        if r < 10 {
            lemma_date_lt(pa.y, pa.mo, pa.d, pb.y, pb.mo, pb.d);
        }
        lemma_parts_lt(pa, pb);
    } else {
        // The fraction differs first; both fractions span the same
        // digits, so the scaled nanosecond values compare likewise.
        assert(a[19] == 46 && b[19] == 46);
        let fa = a.subrange(20, off);
        let fb = b.subrange(20, off);
        assert(fa.subrange(0, r - 20) =~= fb.subrange(0, r - 20)) by {
            assert(fa.subrange(0, r - 20) =~= a.subrange(20, r));
            assert(fb.subrange(0, r - 20) =~= b.subrange(20, r));
            assert(a.subrange(20, r) =~= b.subrange(20, r));
        }
        assert(fa[r - 20] == a[r] && fb[r - 20] == b[r]);
        assert(all_digits(fa) && all_digits(fb)) by {
            lemma_skip_digits_props(a, 20);
            lemma_skip_digits_props(b, 20);
        }
        lemma_dec_val_lt(fa, fb, r - 20);
        let scale = pow10(9 - (off - 20));
        lemma_pow10_pos(9 - (off - 20));
        assert(pa.ns == dec_val(fa) * scale && pb.ns == dec_val(fb) * scale);
        assert(dec_val(fa) * scale < dec_val(fb) * scale) by (nonlinear_arith)
            requires
                dec_val(fa) < dec_val(fb),
                scale >= 1;
        // All scalar fields agree, since the prefix is identical
        // through position 19.
        assert(a.subrange(0, 4) =~= b.subrange(0, 4));
        assert(a.subrange(5, 7) =~= b.subrange(5, 7));
        assert(a.subrange(8, 10) =~= b.subrange(8, 10));
        assert(a.subrange(11, 13) =~= b.subrange(11, 13));
        assert(a.subrange(14, 16) =~= b.subrange(14, 16));
        assert(a.subrange(17, 19) =~= b.subrange(17, 19));
        assert(pa.y == pb.y && pa.mo == pb.mo && pa.d == pb.d);
        assert(pa.h == pb.h && pa.mi == pb.mi && pa.s == pb.s);
        lemma_parts_lt(pa, pb);
    }
}

/// Digits run through the whole fraction region.
proof fn lemma_skip_digits_props(b: Seq<u8>, i: int)
    requires
        0 <= i <= b.len(),
    ensures
        i <= skip_digits(b, i) <= b.len(),
        forall|k: int| i <= k < skip_digits(b, i) ==> is_digit(b[k]),
    decreases b.len() - i,
{
    if i < b.len() && is_digit(b[i]) {
        lemma_skip_digits_props(b, i + 1);
    }
}

/// A parsed timestamp's fields are in range.
proof fn lemma_parts_wf(a: Seq<u8>)
    requires
        ts_parts(a) is Some,
    ensures
        wf_parts(ts_parts(a)->Some_0),
{
    let p = ts_parts(a)->Some_0;
    let off = off_start(a);
    if a.len() > 19 && a[19] == 46 {
        let fd = a.subrange(20, off);
        assert(all_digits(fd)) by {
            lemma_skip_digits_props(a, 20);
        }
        lemma_dec_val_bound(fd);
        lemma_pow10_pos(9 - (off - 20));
        assert(fd.len() == off - 20);
        lemma_pow10_add(off - 20, 9 - (off - 20));
        assert(pow10(9) == 1_000_000_000) by {
            reveal_with_fuel(pow10, 10);
        }
        assert(dec_val(fd) * pow10(9 - (off - 20)) < 1_000_000_000) by (nonlinear_arith)
            requires
                dec_val(fd) < pow10(off - 20),
                pow10(off - 20) * pow10(9 - (off - 20)) == pow10(9),
                pow10(9) == 1_000_000_000,
                dec_val(fd) >= 0,
                pow10(9 - (off - 20)) >= 1;
        assert(0 <= p.ns < 1_000_000_000);
    } else {
        assert(p.ns == 0);
    }
    assert(-1439 <= p.off_min <= 1439) by {
        let k = off;
        if a[k] == 90 || a[k] == 122 {
        } else {
            assert(dec_val(a.subrange(k + 1, k + 3)) <= 23);
            assert(dec_val(a.subrange(k + 4, k + 6)) <= 59);
            assert(all_digits(a.subrange(k + 1, k + 3)));
            assert(all_digits(a.subrange(k + 4, k + 6)));
            crate::text::lemma_dec_val_nonneg(a.subrange(k + 1, k + 3));
            crate::text::lemma_dec_val_nonneg(a.subrange(k + 4, k + 6));
        }
    }
}

/// Identical offset suffixes denote identical offsets.
proof fn lemma_offset_eq(a: Seq<u8>, b: Seq<u8>)
    requires
        ts_parts(a) is Some,
        ts_parts(b) is Some,
        a.len() == b.len(),
        off_start(a) == off_start(b),
        a.subrange(off_start(a), a.len() as int) == b.subrange(off_start(b), b.len() as int),
    ensures
        offset_minutes(a) == offset_minutes(b),
{
    let n = a.len() as int;
    let k = off_start(a);
    assert(forall|t: int| k <= t < n ==> a[t] == b[t]) by {
        assert(forall|t: int|
            k <= t < n ==> a.subrange(k, n)[t - k] == a[t] && b.subrange(k, n)[t - k] == b[t]);
    }
    assert(a[k] == b[k]);
    if a[k] == 90 || a[k] == 122 {
    } else {
        assert(a.subrange(k + 1, k + 3) =~= b.subrange(k + 1, k + 3));
        assert(a.subrange(k + 4, k + 6) =~= b.subrange(k + 4, k + 6));
    }
}

} // verus!
